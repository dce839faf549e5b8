//! The frame of a footer band.
use vstd::prelude::*;
use vstd::string::*;

use super::theme::{fg, inked, Theme, ThemeView};

verus! {

/// What the lines of a surface say.
pub open spec fn lines_view(lines: Seq<String>) -> Seq<Seq<char>> {
    lines.map_values(|line: String| line@)
}

/// A rule over `width` columns.
pub open spec fn rule(width: nat) -> Seq<char> {
    Seq::new(width, |i: int| '\u{2500}')
}

/// A band: a divider, the header, a blank line, the rows, a divider.
pub open spec fn framed(
    theme: ThemeView,
    width: nat,
    header: Seq<char>,
    body: Seq<Seq<char>>,
) -> Seq<Seq<char>> {
    seq![inked(theme.dim, rule(width)), header, Seq::empty()] + body + seq![
        inked(theme.dim, rule(width)),
    ]
}

fn rule_text(width: usize) -> (text: String)
    ensures
        text@ == rule(width as nat),
{
    let mut text = String::new();
    let mut i: usize = 0;
    while i < width
        invariant
            i <= width,
            text@ == rule(i as nat),
        decreases width - i,
    {
        text.push('\u{2500}');
        i = i + 1;
        assert(text@ =~= rule(i as nat));
    }
    text
}

/// One more line at the end of a list.
pub proof fn lemma_push_line(lines: Seq<String>, line: String)
    ensures
        lines_view(lines.push(line)) == lines_view(lines).push(line@),
{
    assert(lines_view(lines.push(line)) =~= lines_view(lines).push(line@));
}

/// Frames the rows of a band.
pub fn frame(theme: &Theme, width: usize, header: String, body: Vec<String>) -> (lines: Vec<
    String,
>)
    ensures
        lines_view(lines@) == framed(theme@, width as nat, header@, lines_view(body@)),
{
    let divider = fg(theme.dim.as_str(), rule_text(width).as_str());
    let mut lines: Vec<String> = Vec::new();
    lines.push(divider.clone());
    lines.push(header);
    lines.push(String::new());
    let mut rows = body;
    lines.append(&mut rows);
    lines.push(divider);
    assert(lines_view(lines@) =~= framed(theme@, width as nat, header@, lines_view(body@)));
    lines
}

/// What lines say keeps their number and their order.
pub proof fn law_lines_keep_their_order(lines: Seq<String>, k: int)
    requires
        0 <= k < lines.len(),
    ensures
        lines_view(lines).len() == lines.len(),
        lines_view(lines)[k] == lines[k]@,
{
}

} // verus!
