//! The rows of the picker band.
use vstd::prelude::*;
use vstd::string::*;

use super::{Menu, MenuItem, MenuKind, MenuView, MAX_VISIBLE};
use crate::text::{decimal, decimal_text, spaces, spaces_text};
use crate::tui::ansi::{
    clip_styled, clipped, columns, law_clip_fits, visible_width,
};
use crate::tui::panel::{frame, framed, lemma_push_line, lines_view};
use crate::tui::theme::{bold, bolded, fg, inked, Theme, ThemeView};

verus! {

/// The widest that the label column gets.
pub const LABEL_LIMIT: usize = 36;

/// What of `a` is left without `b`.
pub open spec fn less(a: nat, b: nat) -> nat {
    if a >= b {
        (a - b) as nat
    } else {
        0
    }
}

/// A text with a tail of `tail_width` columns at the right end of a row, `margin` columns from
/// its edge; the text alone where the gap between them would be `least` columns or fewer.
pub open spec fn with_tail(
    text: Seq<char>,
    tail: Seq<char>,
    tail_width: nat,
    width: nat,
    margin: nat,
    least: nat,
) -> Seq<char> {
    let gap = less(width, margin + columns(text) + tail_width);
    if gap > least {
        text + spaces(gap) + tail
    } else {
        text
    }
}

impl MenuView {
    /// The place behind the last one that shows.
    pub open spec fn window_end(self) -> int {
        if self.window_start + MAX_VISIBLE <= self.filtered.len() {
            self.window_start + MAX_VISIBLE
        } else {
            self.filtered.len() as int
        }
    }

    /// The title and the count, and an invitation as long as nothing is typed.
    pub open spec fn heading(self) -> Seq<char> {
        let counted = self.title + " "@ + decimal(self.filtered.len());
        if self.query.len() == 0 {
            counted + " · Type to filter"@
        } else {
            counted
        }
    }

    /// Which places show, counted from one.
    pub open spec fn range(self) -> Seq<char> {
        decimal((self.window_start + 1) as nat) + "–"@ + decimal(self.window_end() as nat)
    }

    /// The header: the heading, with the range at its right end where the list scrolls.
    pub open spec fn header(self, width: nat) -> Seq<char> {
        if self.filtered.len() > MAX_VISIBLE {
            with_tail(self.heading(), self.range(), self.range().len(), width, 1, 1)
        } else {
            self.heading()
        }
    }

    /// What an empty list says.
    pub open spec fn notice(self) -> Seq<char> {
        match self.kind {
            MenuKind::Commands => "no matching slash commands"@,
            MenuKind::Files => "no matching files"@,
            MenuKind::Skills => "No skills found."@,
            _ => "Nothing found."@,
        }
    }

    /// The columns of the widest label among places of the list.
    pub open spec fn widest_label(self, from: int, to: int) -> nat
        decreases to - from,
    {
        if from >= to {
            0
        } else {
            let before = self.widest_label(from, to - 1);
            let last = columns(self.listed(to - 1).label@);
            if before >= last {
                before
            } else {
                last
            }
        }
    }

    /// The columns of the label column: those of the widest label that shows, up to a limit.
    pub open spec fn label_width(self) -> nat {
        let widest = self.widest_label(self.window_start as int, self.window_end());
        if widest <= LABEL_LIMIT {
            widest
        } else {
            LABEL_LIMIT as nat
        }
    }

    /// The dress of the selected row.
    pub open spec fn dressed(self, theme: ThemeView, text: Seq<char>) -> Seq<char> {
        let bright = bolded(inked(theme.user_message_text, text));
        match self.kind {
            MenuKind::Models | MenuKind::Scoped => bright,
            _ => if theme.selected_bg.len() == 0 && theme.selected_text.len() == 0 {
                bright
            } else {
                theme.selected_bg + theme.selected_text + text + "\x1b[0m"@
            },
        }
    }

    /// The row at a place of the list.
    pub open spec fn row(self, theme: ThemeView, width: nat, place: int) -> Seq<char> {
        let content = content_of(self.listed(place), self.label_width(), width);
        let styled = if place == self.selected {
            self.dressed(theme, content)
        } else {
            inked(theme.dim, content)
        };
        clipped("  "@ + styled, width)
    }

    /// The rows of the band: those of the window, or a notice where the list is empty.
    pub open spec fn body(self, theme: ThemeView, width: nat) -> Seq<Seq<char>> {
        if self.filtered.len() == 0 {
            seq![inked(theme.dim, "  "@ + self.notice())]
        } else {
            Seq::new(
                (self.window_end() - self.window_start) as nat,
                |k: int| self.row(theme, width, self.window_start + k),
            )
        }
    }

    /// The band.
    pub open spec fn band(self, theme: ThemeView, width: nat) -> Seq<Seq<char>> {
        framed(theme, width, inked(theme.dim, self.header(width)), self.body(theme, width))
    }
}

/// The label column of an item, and behind a gap its description.
pub open spec fn label_and_description(item: MenuItem, label_width: nat) -> Seq<char> {
    let label = item.label@ + spaces(less(label_width, columns(item.label@)));
    if item.description@.len() == 0 {
        label
    } else {
        label + "   "@ + item.description@
    }
}

/// One plain row: the label column, the description, right-aligned metadata.
pub open spec fn content_of(item: MenuItem, label_width: nat, width: nat) -> Seq<char> {
    let text = label_and_description(item, label_width);
    if item.meta@.len() == 0 {
        text
    } else {
        with_tail(text, item.meta@, columns(item.meta@), width, 3, 3)
    }
}

/// Puts a tail at the right end of a row, where there is room for it.
fn push_tail(text: &mut String, tail: &str, tail_width: usize, width: usize, margin: usize,
    least: usize)
    ensures
        final(text)@ == with_tail(
            old(text)@,
            tail@,
            tail_width as nat,
            width as nat,
            margin as nat,
            least as nat,
        ),
{
    let taken: usize = visible_width(text.as_str());
    let gap: usize = width.saturating_sub(margin).saturating_sub(taken).saturating_sub(
        tail_width,
    );
    if gap > least {
        text.append(spaces_text(gap).as_str());
        text.append(tail);
    }
}

/// One plain row.
fn content(item: &MenuItem, label_width: usize, width: usize) -> (text: String)
    ensures
        text@ == content_of(*item, label_width as nat, width as nat),
{
    let mut text = item.label.clone();
    let taken: usize = visible_width(item.label.as_str());
    text.append(spaces_text(label_width.saturating_sub(taken)).as_str());
    if !item.description.as_str().is_empty() {
        text.append("   ");
        text.append(item.description.as_str());
    }
    if !item.meta.as_str().is_empty() {
        let meta_width: usize = visible_width(item.meta.as_str());
        push_tail(&mut text, item.meta.as_str(), meta_width, width, 3, 3);
    }
    text
}

impl Menu {
    /// What an empty list says, in the words of its surface.
    fn empty_notice(&self) -> (notice: &'static str)
        ensures
            notice@ == self@.notice(),
    {
        match self.kind {
            MenuKind::Commands => "no matching slash commands",
            MenuKind::Files => "no matching files",
            MenuKind::Skills => "No skills found.",
            _ => "Nothing found.",
        }
    }

    /// The selected row's dress: the model surfaces signal by brightness alone, every other
    /// picker fills the row.
    fn selected_style(&self, theme: &Theme, text: &str) -> (styled: String)
        ensures
            styled@ == self@.dressed(theme@, text@),
    {
        match self.kind {
            MenuKind::Models | MenuKind::Scoped => bold(
                fg(theme.user_message_text.as_str(), text).as_str(),
            ),
            _ => {
                if theme.selected_bg.as_str().is_empty()
                    && theme.selected_text.as_str().is_empty() {
                    bold(fg(theme.user_message_text.as_str(), text).as_str())
                } else {
                    let mut styled = theme.selected_bg.clone();
                    styled.append(theme.selected_text.as_str());
                    styled.append(text);
                    styled.append("\x1b[0m");
                    styled
                }
            },
        }
    }

    /// The header, without its ink.
    fn header_text(&self, width: usize, window_end: usize) -> (text: String)
        requires
            self@.wf(),
            window_end == self@.window_end(),
        ensures
            text@ == self@.header(width as nat),
    {
        let count: usize = self.filtered.len();
        let mut text = self.title.to_owned();
        text.append(" ");
        text.append(decimal_text(count as u64).as_str());
        if self.query.as_str().is_empty() {
            text.append(" · Type to filter");
        }
        assert(text@ == self@.heading());
        if count > MAX_VISIBLE {
            let mut range = decimal_text(self.window_start as u64 + 1);
            range.append("–");
            range.append(decimal_text(window_end as u64).as_str());
            assert(range@ == self@.range());
            let range_width: usize = range.as_str().unicode_len();
            push_tail(&mut text, range.as_str(), range_width, width, 1, 1);
        }
        text
    }

    /// The columns of the label column.
    fn label_column(&self, window_end: usize) -> (label_width: usize)
        requires
            self@.wf(),
            window_end == self@.window_end(),
        ensures
            label_width == self@.label_width(),
    {
        let mut widest: usize = 0;
        let mut slot: usize = self.window_start;
        while slot < window_end
            invariant
                self@.wf(),
                window_end <= self@.filtered.len(),
                self@.window_start <= slot,
                slot <= window_end || slot == self@.window_start,
                widest == self@.widest_label(self@.window_start as int, slot as int),
            decreases window_end - slot,
        {
            let index: usize = self.filtered[slot];
            assert(self@.filtered[slot as int] < self@.items.len());
            let label_width: usize = visible_width(self.items[index].label.as_str());
            if widest < label_width {
                widest = label_width;
            }
            slot = slot + 1;
        }
        if widest <= LABEL_LIMIT {
            widest
        } else {
            LABEL_LIMIT
        }
    }

    /// The lines of the band: the header and at most [`MAX_VISIBLE`] rows between dividers.
    pub fn render(&self, theme: &Theme, width: usize) -> (lines: Vec<String>)
        requires
            self@.wf(),
        ensures
            lines_view(lines@) == self@.band(theme@, width as nat),
    {
        let count: usize = self.filtered.len();
        let window_end: usize = if count - self.window_start >= MAX_VISIBLE {
            self.window_start + MAX_VISIBLE
        } else {
            count
        };
        let header = fg(theme.dim.as_str(), self.header_text(width, window_end).as_str());
        let mut body: Vec<String> = Vec::new();
        if count == 0 {
            let mut notice = "  ".to_owned();
            notice.append(self.empty_notice());
            body.push(fg(theme.dim.as_str(), notice.as_str()));
            assert(lines_view(body@) =~= self@.body(theme@, width as nat));
            return frame(theme, width, header, body);
        }
        let label_width: usize = self.label_column(window_end);
        let mut slot: usize = self.window_start;
        while slot < window_end
            invariant
                self@.wf(),
                window_end == self@.window_end(),
                window_end <= self@.filtered.len(),
                label_width == self@.label_width(),
                self@.window_start <= slot <= window_end,
                lines_view(body@) == Seq::new(
                    (slot - self@.window_start) as nat,
                    |k: int| self@.row(theme@, width as nat, self@.window_start + k),
                ),
            decreases window_end - slot,
        {
            let index: usize = self.filtered[slot];
            assert(self@.filtered[slot as int] < self@.items.len());
            let plain = content(&self.items[index], label_width, width);
            let styled = if slot == self.selected {
                self.selected_style(theme, plain.as_str())
            } else {
                fg(theme.dim.as_str(), plain.as_str())
            };
            let mut row = "  ".to_owned();
            row.append(styled.as_str());
            let cut = clip_styled(row.as_str(), width);
            assert(cut@ == self@.row(theme@, width as nat, slot as int));
            proof {
                lemma_push_line(body@, cut);
            }
            body.push(cut);
            slot = slot + 1;
            assert(lines_view(body@) =~= Seq::new(
                (slot - self@.window_start) as nat,
                |k: int| self@.row(theme@, width as nat, self@.window_start + k),
            ));
        }
        frame(theme, width, header, body)
    }
}

/// The band holds only its rows: [`MAX_VISIBLE`] of a list that is longer, wherever its window
/// stands, all of a shorter one, or the notice of an empty one; with them a header, a blank line
/// and two dividers.
pub proof fn law_band_holds_only_its_rows(menu: MenuView, theme: ThemeView, width: nat)
    requires
        menu.wf(),
    ensures
        menu.window_start <= less(menu.filtered.len(), MAX_VISIBLE as nat),
        menu.body(theme, width).len() == (if menu.filtered.len() == 0 {
            1nat
        } else if menu.filtered.len() <= MAX_VISIBLE {
            menu.filtered.len()
        } else {
            MAX_VISIBLE as nat
        }),
        menu.band(theme, width).len() == menu.body(theme, width).len() + 4,
{
}

/// Every row of an item fits in the width.
pub proof fn law_rows_fit(menu: MenuView, theme: ThemeView, width: nat, k: int)
    requires
        menu.wf(),
        menu.filtered.len() > 0,
        0 <= k < menu.body(theme, width).len(),
    ensures
        columns(menu.body(theme, width)[k]) <= width,
{
    let place = menu.window_start + k;
    let content = content_of(menu.listed(place), menu.label_width(), width);
    let styled = if place == menu.selected {
        menu.dressed(theme, content)
    } else {
        inked(theme.dim, content)
    };
    law_clip_fits("  "@ + styled, width);
}

/// Where the selection shows, its row is the one in the selected dress; every other row is dim.
pub proof fn law_selected_row_alone_is_dressed(
    menu: MenuView,
    theme: ThemeView,
    width: nat,
    k: int,
)
    requires
        menu.wf(),
        menu.on_item(),
        menu.selection_shows(),
    ensures
        0 <= menu.selected - menu.window_start < menu.body(theme, width).len(),
        menu.body(theme, width)[menu.selected - menu.window_start] == clipped(
            "  "@ + menu.dressed(
                theme,
                content_of(menu.listed(menu.selected as int), menu.label_width(), width),
            ),
            width,
        ),
        0 <= k < menu.body(theme, width).len() && menu.window_start + k != menu.selected
            ==> menu.body(theme, width)[k] == clipped(
            "  "@ + inked(
                theme.dim,
                content_of(menu.listed(menu.window_start + k), menu.label_width(), width),
            ),
            width,
        ),
{
}

} // verus!
