//! How the rows of the picker band line up.
use vstd::prelude::*;
use vstd::string::*;

use super::band::{content_of, label_and_description, less, with_tail};
use super::{MenuItem, MenuView, MAX_VISIBLE};
use crate::text::{decimal, digit, spaces};
use crate::tui::ansi::{
    columns, law_columns_add_up, law_plain_text_shows_whole, mode_after, Mode,
};

verus! {

/// Spaces take a column each.
proof fn lemma_spaces(n: nat)
    ensures
        columns(spaces(n)) == n,
        mode_after(spaces(n)) == Mode::Text,
{
    law_plain_text_shows_whole(spaces(n));
}

/// Digits take a column each.
proof fn lemma_decimal(n: nat)
    ensures
        columns(decimal(n)) == decimal(n).len(),
        mode_after(decimal(n)) == Mode::Text,
        forall|k: int| 0 <= k < decimal(n).len() ==> #[trigger] decimal(n)[k] != '\u{1b}',
    decreases n,
{
    if n >= 10 {
        lemma_decimal(n / 10);
        assert(digit(n % 10) as int == 48 + n % 10);
    } else {
        assert(digit(n) as int == 48 + n);
    }
    law_plain_text_shows_whole(decimal(n));
}

/// A tail that shows ends `margin` columns from the right edge.
pub proof fn law_tails_are_right_aligned(
    text: Seq<char>,
    tail: Seq<char>,
    width: nat,
    margin: nat,
    least: nat,
)
    requires
        mode_after(text) == Mode::Text,
        width > margin + columns(text) + columns(tail) + least,
    ensures
        columns(with_tail(text, tail, columns(tail), width, margin, least)) == width - margin,
        tail.is_suffix_of(with_tail(text, tail, columns(tail), width, margin, least)),
{
    let gap = less(width, margin + columns(text) + columns(tail));
    lemma_spaces(gap);
    law_columns_add_up(text, spaces(gap));
    law_columns_add_up(text + spaces(gap), tail);
    let whole = text + spaces(gap) + tail;
    assert(whole.subrange(whole.len() - tail.len(), whole.len() as int) =~= tail);
}

/// Metadata that shows ends one column from the right edge of the row, behind the row's indent
/// of two; where there is no room for it and a gap, the row goes without it.
pub proof fn law_metadata_is_right_aligned(item: MenuItem, label_width: nat, width: nat)
    requires
        item.meta@.len() > 0,
        mode_after(label_and_description(item, label_width)) == Mode::Text,
    ensures
        width > 3 + columns(label_and_description(item, label_width)) + columns(item.meta@) + 3
            ==> columns(content_of(item, label_width, width)) + 2 == width - 1
            && item.meta@.is_suffix_of(content_of(item, label_width, width)),
        width <= 3 + columns(label_and_description(item, label_width)) + columns(item.meta@) + 3
            ==> content_of(item, label_width, width) == label_and_description(item, label_width),
{
    let text = label_and_description(item, label_width);
    if width > 3 + columns(text) + columns(item.meta@) + 3 {
        law_tails_are_right_aligned(text, item.meta@, width, 3, 3);
    }
}

/// The descriptions stand in one column: behind a label that fits the label column they start
/// three columns behind it.
pub proof fn law_descriptions_line_up(item: MenuItem, label_width: nat)
    requires
        item.description@.len() > 0,
        mode_after(item.label@) == Mode::Text,
        columns(item.label@) <= label_width,
    ensures
        exists|before: Seq<char>|
            {
                &&& #[trigger] columns(before) == label_width + 3
                &&& label_and_description(item, label_width) == before + item.description@
            },
{
    let pad = spaces(less(label_width, columns(item.label@)));
    let gap = "   "@;
    reveal_strlit("   ");
    lemma_spaces(less(label_width, columns(item.label@)));
    law_plain_text_shows_whole(gap);
    law_columns_add_up(item.label@, pad);
    law_columns_add_up(item.label@ + pad, gap);
    let before = item.label@ + pad + gap;
    assert(columns(before) == label_width + 3);
    assert(label_and_description(item, label_width) == before + item.description@);
}

/// The scroll range that shows ends one column from the right edge.
pub proof fn law_range_is_right_aligned(menu: MenuView, width: nat)
    requires
        menu.filtered.len() > MAX_VISIBLE,
        mode_after(menu.title) == Mode::Text,
        width > 1 + columns(menu.heading()) + menu.range().len() + 1,
    ensures
        columns(menu.header(width)) == width - 1,
        menu.range().is_suffix_of(menu.header(width)),
{
    reveal_strlit(" ");
    reveal_strlit("–");
    reveal_strlit(" · Type to filter");
    let count = decimal(menu.filtered.len());
    let first = decimal((menu.window_start + 1) as nat);
    let last = decimal(menu.window_end() as nat);
    lemma_decimal(menu.filtered.len());
    lemma_decimal((menu.window_start + 1) as nat);
    lemma_decimal(menu.window_end() as nat);
    law_plain_text_shows_whole(" "@);
    law_plain_text_shows_whole("–"@);
    law_plain_text_shows_whole(" · Type to filter"@);
    law_columns_add_up(menu.title, " "@);
    law_columns_add_up(menu.title + " "@, count);
    law_columns_add_up(menu.title + " "@ + count, " · Type to filter"@);
    law_columns_add_up(first, "–"@);
    law_columns_add_up(first + "–"@, last);
    law_tails_are_right_aligned(menu.heading(), menu.range(), width, 1, 1);
}

} // verus!
