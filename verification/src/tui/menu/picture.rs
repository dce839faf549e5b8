//! What the picker band shows.
use vstd::prelude::*;
use vstd::string::*;

use super::band::{content_of, label_and_description};
use super::{MenuItem, MenuKind, MenuView};
use crate::text::{decimal, spaces};
use crate::tui::ansi::{clipped, columns};
use crate::tui::theme::{inked, ThemeView};

verus! {

/// The title of a menu and the number of its matches, and behind them an invitation as long as
/// nothing is typed.
pub open spec fn title_and_count(menu: MenuView, count: nat) -> Seq<char> {
    if menu.query.len() == 0 {
        menu.title + " "@ + decimal(count) + " · Type to filter"@
    } else {
        menu.title + " "@ + decimal(count)
    }
}

/// The header counts the items that the query keeps. Of a list that shows whole it gives the
/// number of its rows, and zero where the band shows the notice.
pub proof fn law_header_counts_the_matches(menu: MenuView, theme: ThemeView, width: nat)
    requires
        menu.wf(),
    ensures
        title_and_count(menu, menu.filtered.len()).is_prefix_of(menu.header(width)),
        menu.filtered.len() <= 6 ==> menu.header(width) == title_and_count(
            menu,
            menu.filtered.len(),
        ),
        1 <= menu.filtered.len() <= 6 ==> menu.header(width) == title_and_count(
            menu,
            menu.body(theme, width).len(),
        ),
        menu.filtered.len() == 0 ==> menu.header(width) == title_and_count(menu, 0),
{
    let heading = title_and_count(menu, menu.filtered.len());
    assert(menu.heading() == heading);
    assert(menu.header(width).take(heading.len() as int) =~= heading);
}

/// The header of a list that scrolls shows the places of its window at its right end, wherever
/// there is room for them and a gap.
pub proof fn law_header_shows_the_window(menu: MenuView, width: nat)
    requires
        menu.wf(),
        menu.filtered.len() > 6,
    ensures
        ({
            let heading = title_and_count(menu, menu.filtered.len());
            let range = decimal((menu.window_start + 1) as nat) + "–"@ + decimal(
                (menu.window_start + 6) as nat,
            );
            let taken = 1 + columns(heading) + range.len();
            &&& width > taken + 1 ==> menu.header(width) == heading + spaces(
                (width - taken) as nat,
            ) + range
            &&& width <= taken + 1 ==> menu.header(width) == heading
        }),
{
    assert(menu.heading() == title_and_count(menu, menu.filtered.len()));
}

/// A list without matches shows its notice alone, in the words of its surface.
pub proof fn law_empty_list_shows_its_notice(menu: MenuView, theme: ThemeView, width: nat)
    requires
        menu.filtered.len() == 0,
    ensures
        menu.body(theme, width) == seq![
            inked(
                theme.dim,
                "  "@ + (if menu.kind == MenuKind::Commands {
                    "no matching slash commands"@
                } else if menu.kind == MenuKind::Files {
                    "no matching files"@
                } else if menu.kind == MenuKind::Skills {
                    "No skills found."@
                } else {
                    "Nothing found."@
                }),
            ),
        ],
{
}

proof fn lemma_widest(menu: MenuView, from: int, to: int)
    requires
        from <= to,
    ensures
        forall|place: int|
            from <= place < to ==> columns(
                menu.items[#[trigger] menu.filtered[place] as int].label@,
            ) <= menu.widest_label(from, to),
        menu.widest_label(from, to) == 0 || exists|place: int|
            from <= place < to && menu.widest_label(from, to) == columns(
                menu.items[#[trigger] menu.filtered[place] as int].label@,
            ),
    decreases to - from,
{
    if from < to {
        lemma_widest(menu, from, to - 1);
        let last = menu.filtered[to - 1];
        if menu.widest_label(from, to - 1) > 0 && menu.widest_label(from, to - 1) >= columns(
            menu.items[last as int].label@,
        ) {
            let place = choose|place: int|
                from <= place < to - 1 && menu.widest_label(from, to - 1) == columns(
                    menu.items[#[trigger] menu.filtered[place] as int].label@,
                );
            assert(menu.widest_label(from, to) == columns(
                menu.items[menu.filtered[place] as int].label@,
            ));
        } else {
            assert(menu.widest_label(from, to) == columns(menu.items[last as int].label@));
        }
    }
}

/// The label column is as wide as the widest label that shows, and no wider than 36 columns.
pub proof fn law_label_column_holds_the_labels(menu: MenuView)
    requires
        menu.wf(),
        menu.filtered.len() > 0,
    ensures
        menu.label_width() <= 36,
        forall|place: int|
            menu.window_start <= place < menu.window_start + 6 && place < menu.filtered.len()
                ==> columns(menu.items[#[trigger] menu.filtered[place] as int].label@)
                <= menu.label_width() || menu.label_width() == 36,
        menu.label_width() < 36 && menu.label_width() > 0 ==> exists|place: int|
            menu.window_start <= place < menu.window_start + 6 && place < menu.filtered.len()
                && menu.label_width() == columns(
                menu.items[#[trigger] menu.filtered[place] as int].label@,
            ),
{
    lemma_widest(menu, menu.window_start as int, menu.window_end());
}

/// A row says the item's label, filled up to the label column, and three columns on the
/// description, where there is one.
pub proof fn law_rows_say_label_and_description(item: MenuItem, label_width: nat)
    ensures
        ({
            let fill: nat = if columns(item.label@) < label_width {
                (label_width - columns(item.label@)) as nat
            } else {
                0
            };
            let label = item.label@ + spaces(fill);
            &&& item.description@.len() == 0 ==> label_and_description(item, label_width) == label
            &&& item.description@.len() > 0 ==> label_and_description(item, label_width) == label
                + "   "@ + item.description@
        }),
{
}

/// A row says the item's metadata at its right end, where there is any and more than three columns
/// are left before it, and nothing else behind the description.
pub proof fn law_rows_say_metadata(item: MenuItem, label_width: nat, width: nat)
    ensures
        ({
            let text = label_and_description(item, label_width);
            let left = width - 3 - columns(text) - columns(item.meta@);
            if item.meta@.len() > 0 && left > 3 {
                content_of(item, label_width, width) == text + spaces(left as nat) + item.meta@
            } else {
                content_of(item, label_width, width) == text
            }
        }),
{
}

/// Row `k` is that of the item that stands at `k` places behind the start of the window, cut to the
/// width; it is in the selected dress where the selection is, and else dim.
pub proof fn law_rows_are_those_of_the_window(menu: MenuView, theme: ThemeView, width: nat, k: int)
    requires
        menu.wf(),
        menu.filtered.len() > 0,
        0 <= k < menu.body(theme, width).len(),
    ensures
        k < 6,
        menu.window_start + k < menu.filtered.len(),
        ({
            let item = menu.items[menu.filtered[menu.window_start + k] as int];
            let said = content_of(item, menu.label_width(), width);
            let styled = if menu.window_start + k == menu.selected {
                menu.dressed(theme, said)
            } else {
                inked(theme.dim, said)
            };
            menu.body(theme, width)[k] == clipped("  "@ + styled, width)
        }),
{
}

/// The model pickers brighten the selected row: bold, in bright ink. The others fill it with the
/// ground and the ink of a selection, and brighten it where the theme has neither.
pub proof fn law_selected_rows_are_dressed_by_kind(
    menu: MenuView,
    theme: ThemeView,
    text: Seq<char>,
)
    ensures
        menu.kind == MenuKind::Models || menu.kind == MenuKind::Scoped || (
        theme.selected_bg.len() == 0 && theme.selected_text.len() == 0) ==> menu.dressed(
            theme,
            text,
        ) == "\x1b[1m"@ + inked(theme.user_message_text, text) + "\x1b[22m"@,
        menu.kind != MenuKind::Models && menu.kind != MenuKind::Scoped && (
        theme.selected_bg.len() > 0 || theme.selected_text.len() > 0) ==> menu.dressed(theme, text)
            == theme.selected_bg + theme.selected_text + text + "\x1b[0m"@,
{
}

/// The band is a divider over the whole width, the header in dim ink, a blank line, the rows, and
/// the divider again.
pub proof fn law_band_frames_its_rows(menu: MenuView, theme: ThemeView, width: nat)
    ensures
        ({
            let band = menu.band(theme, width);
            let body = menu.body(theme, width);
            let divider = inked(theme.dim, Seq::new(width, |i: int| '─'));
            &&& band.len() == body.len() + 4
            &&& band[0] == divider
            &&& band[1] == inked(theme.dim, menu.header(width))
            &&& band[2].len() == 0
            &&& band.subrange(3, 3 + body.len() as int) == body
            &&& band.last() == divider
        }),
{
    let band = menu.band(theme, width);
    let body = menu.body(theme, width);
    assert(Seq::new(width, |i: int| '─') =~= crate::tui::panel::rule(width));
    assert(band.subrange(3, 3 + body.len() as int) =~= body);
}

/// A text in an ink stands between the ink and the default ink; without an ink it stands alone.
pub proof fn law_inks_stand_round_the_text(prefix: Seq<char>, text: Seq<char>)
    ensures
        prefix.len() == 0 ==> inked(prefix, text) == text,
        prefix.len() > 0 ==> inked(prefix, text) == prefix + text + "\x1b[39m"@,
{
}

} // verus!
