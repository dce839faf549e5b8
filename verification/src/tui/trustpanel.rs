//! The first-visit trust panel: three-space prose and a `› ` caret on the selected choice,
//! asking whether the agent may load this directory's own instructions. Shown once per
//! directory. The descriptions sit right beside the choices, so that a two-row question reads
//! as one block.
use vstd::prelude::*;
use vstd::string::*;

use super::ansi::{clip_styled, clipped, columns, law_clip_fits};
use super::panel::lines_view;
use super::theme::{bold, bolded, fg, inked, Theme, ThemeView};
use crate::text::{spaces, spaces_text};

verus! {

/// Where the question stands.
pub struct TrustStage {
    /// The choice under the caret, counted from zero.
    pub selected: usize,
}

/// The columns of the label column: those of the longest label.
pub const LABEL_COLUMN: usize = 20;

/// What a choice says.
pub open spec fn label(index: nat) -> Seq<char> {
    if index == 0 {
        "Trust this directory"@
    } else {
        "Not now"@
    }
}

/// What a choice leads to.
pub open spec fn description(index: nat) -> Seq<char> {
    if index == 0 {
        "remembered in ~/.e/trust.json"@
    } else {
        "work here without its instructions"@
    }
}

/// The row of a choice, without its ink: a caret where it is selected, the label column, a gap
/// and the description.
pub open spec fn choice_text(index: nat, selected: bool) -> Seq<char> {
    let caret = if selected {
        "› "@
    } else {
        "  "@
    };
    caret + label(index) + spaces((LABEL_COLUMN - label(index).len()) as nat) + "   "@
        + description(index)
}

/// The row of a choice: bold and bright where it is selected, else dim.
pub open spec fn choice_row(theme: ThemeView, width: nat, index: nat, selected: bool) -> Seq<
    char,
> {
    let text = choice_text(index, selected);
    let row = if selected {
        bolded(inked(theme.user_message_text, text))
    } else {
        inked(theme.dim, text)
    };
    clipped(row, width)
}

/// The lines of the panel.
pub open spec fn panel(theme: ThemeView, width: nat, dir: Seq<char>, selected: nat) -> Seq<
    Seq<char>,
> {
    seq![
        Seq::empty(),
        inked(theme.dim, "   Trust "@ + dir + "?"@),
        inked(
            theme.dim,
            "   e reads the directory's AGENTS.md and .e/ skills+prompts into context, and runs tools here."@,
        ),
        Seq::empty(),
        choice_row(theme, width, 0, selected == 0),
        choice_row(theme, width, 1, selected == 1),
        Seq::empty(),
        inked(theme.dim, "   ↑↓ Choose · Enter Continue"@),
    ]
}

/// The label column is as wide as the longest label.
proof fn lemma_label_column()
    ensures
        label(0).len() == LABEL_COLUMN,
        label(1).len() == 7,
{
    reveal_strlit("Trust this directory");
    reveal_strlit("Not now");
}

/// The row of a choice.
fn choice(
    theme: &Theme,
    width: usize,
    index: usize,
    selected: bool,
) -> (row: String)
    requires
        index < 2,
    ensures
        row@ == choice_row(theme@, width as nat, index as nat, selected),
{
    proof {
        lemma_label_column();
    }
    let name = if index == 0 {
        "Trust this directory"
    } else {
        "Not now"
    };
    let meaning = if index == 0 {
        "remembered in ~/.e/trust.json"
    } else {
        "work here without its instructions"
    };
    let mut text = if selected {
        "› ".to_owned()
    } else {
        "  ".to_owned()
    };
    text.append(name);
    text.append(spaces_text(LABEL_COLUMN - name.unicode_len()).as_str());
    text.append("   ");
    text.append(meaning);
    let row = if selected {
        bold(fg(theme.user_message_text.as_str(), text.as_str()).as_str())
    } else {
        fg(theme.dim.as_str(), text.as_str())
    };
    clip_styled(row.as_str(), width)
}

/// The lines of the panel that asks about `dir`.
pub fn render(stage: &TrustStage, theme: &Theme, width: usize, dir: &str) -> (lines: Vec<String>)
    ensures
        lines_view(lines@) == panel(theme@, width as nat, dir@, stage.selected as nat),
{
    let dim = theme.dim.as_str();
    let mut question = "   Trust ".to_owned();
    question.append(dir);
    question.append("?");
    let mut lines: Vec<String> = Vec::new();
    lines.push(String::new());
    lines.push(fg(dim, question.as_str()));
    lines.push(
        fg(
            dim,
            "   e reads the directory's AGENTS.md and .e/ skills+prompts into context, and runs tools here.",
        ),
    );
    lines.push(String::new());
    lines.push(choice(theme, width, 0, stage.selected == 0));
    lines.push(choice(theme, width, 1, stage.selected == 1));
    lines.push(String::new());
    lines.push(fg(dim, "   ↑↓ Choose · Enter Continue"));
    assert(lines_view(lines@) =~= panel(theme@, width as nat, dir@, stage.selected as nat));
    lines
}

/// The panel has the same lines whatever is selected, but for the two choices, which fit in
/// the width.
pub proof fn law_selection_moves_the_caret_only(
    theme: ThemeView,
    width: nat,
    dir: Seq<char>,
    one: nat,
    other: nat,
    line: int,
)
    requires
        0 <= line < 8,
    ensures
        panel(theme, width, dir, one).len() == 8,
        line != 4 && line != 5 ==> panel(theme, width, dir, one)[line] == panel(
            theme,
            width,
            dir,
            other,
        )[line],
        line == 4 || line == 5 ==> columns(panel(theme, width, dir, one)[line]) <= width,
{
    law_clip_fits(inked(theme.dim, choice_text(0, false)), width);
    law_clip_fits(inked(theme.dim, choice_text(1, false)), width);
    law_clip_fits(bolded(inked(theme.user_message_text, choice_text(0, true))), width);
    law_clip_fits(bolded(inked(theme.user_message_text, choice_text(1, true))), width);
}

/// The two choices line up: their descriptions start at the same place of the row, whether
/// selected or not.
pub proof fn law_choices_line_up(index: nat, selected: bool)
    requires
        index < 2,
    ensures
        choice_text(index, selected).len() == 25 + description(index).len(),
        choice_text(index, selected).skip(25) == description(index),
{
    lemma_label_column();
    reveal_strlit("› ");
    reveal_strlit("  ");
    reveal_strlit("   ");
    assert(choice_text(index, selected).skip(25) =~= description(index));
}

proof fn lemma_choices_said()
    ensures
        choice_text(0, true) == "› Trust this directory   remembered in ~/.e/trust.json"@,
        choice_text(0, false) == "  Trust this directory   remembered in ~/.e/trust.json"@,
        choice_text(1, true) == "› Not now                work here without its instructions"@,
        choice_text(1, false) == "  Not now                work here without its instructions"@,
{
    lemma_label_column();
    reveal_strlit("› ");
    reveal_strlit("  ");
    reveal_strlit("   ");
    reveal_strlit("Trust this directory");
    reveal_strlit("Not now");
    reveal_strlit("remembered in ~/.e/trust.json");
    reveal_strlit("work here without its instructions");
    reveal_strlit("› Trust this directory   remembered in ~/.e/trust.json");
    reveal_strlit("  Trust this directory   remembered in ~/.e/trust.json");
    reveal_strlit("› Not now                work here without its instructions");
    reveal_strlit("  Not now                work here without its instructions");
    assert(choice_text(0, true)
        =~= "› Trust this directory   remembered in ~/.e/trust.json"@);
    assert(choice_text(0, false)
        =~= "  Trust this directory   remembered in ~/.e/trust.json"@);
    assert(choice_text(1, true)
        =~= "› Not now                work here without its instructions"@);
    assert(choice_text(1, false)
        =~= "  Not now                work here without its instructions"@);
}

/// The panel names the directory and says what trust means. Of its two choices the selected one
/// has the caret and is bold and bright, and any other is dim.
pub proof fn law_panel_asks_about_the_directory(
    theme: ThemeView,
    width: nat,
    dir: Seq<char>,
    selected: nat,
)
    ensures
        ({
            let lines = panel(theme, width, dir, selected);
            let trust = "› Trust this directory   remembered in ~/.e/trust.json"@;
            let no_trust = "  Trust this directory   remembered in ~/.e/trust.json"@;
            let decline = "› Not now                work here without its instructions"@;
            let no_decline = "  Not now                work here without its instructions"@;
            let bright = theme.user_message_text;
            &&& lines.len() == 8
            &&& lines[0].len() == 0 && lines[3].len() == 0 && lines[6].len() == 0
            &&& lines[1] == inked(theme.dim, "   Trust "@ + dir + "?"@)
            &&& lines[2] == inked(
                theme.dim,
                "   e reads the directory's AGENTS.md and .e/ skills+prompts into context, and runs tools here."@,
            )
            &&& lines[4] == clipped(
                if selected == 0 {
                    "\x1b[1m"@ + inked(bright, trust) + "\x1b[22m"@
                } else {
                    inked(theme.dim, no_trust)
                },
                width,
            )
            &&& lines[5] == clipped(
                if selected == 1 {
                    "\x1b[1m"@ + inked(bright, decline) + "\x1b[22m"@
                } else {
                    inked(theme.dim, no_decline)
                },
                width,
            )
            &&& lines[7] == inked(theme.dim, "   ↑↓ Choose · Enter Continue"@)
        }),
{
    lemma_choices_said();
}

} // verus!
