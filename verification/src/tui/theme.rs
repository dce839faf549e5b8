//! Inks: the style prefixes that the surfaces read, and how they dress a text.
use vstd::prelude::*;
use vstd::string::*;

verus! {

/// The style prefixes of a theme, each an escape sequence, or empty where the theme has none.
pub struct Theme {
    /// Unselected rows and hints.
    pub dim: String,
    /// Bright ink.
    pub user_message_text: String,
    /// The ground of a selected row.
    pub selected_bg: String,
    /// The ink of a selected row.
    pub selected_text: String,
}

pub struct ThemeView {
    pub dim: Seq<char>,
    pub user_message_text: Seq<char>,
    pub selected_bg: Seq<char>,
    pub selected_text: Seq<char>,
}

impl View for Theme {
    type V = ThemeView;

    open spec fn view(&self) -> ThemeView {
        ThemeView {
            dim: self.dim@,
            user_message_text: self.user_message_text@,
            selected_bg: self.selected_bg@,
            selected_text: self.selected_text@,
        }
    }
}

/// A text in an ink: the prefix before it and the default ink behind it; the bare text where
/// the theme has no such ink.
pub open spec fn inked(prefix: Seq<char>, text: Seq<char>) -> Seq<char> {
    if prefix.len() == 0 {
        text
    } else {
        prefix + text + "\x1b[39m"@
    }
}

/// A text in bold.
pub open spec fn bolded(text: Seq<char>) -> Seq<char> {
    "\x1b[1m"@ + text + "\x1b[22m"@
}

/// A text in an ink.
pub fn fg(prefix: &str, text: &str) -> (dressed: String)
    ensures
        dressed@ == inked(prefix@, text@),
{
    if prefix.is_empty() {
        return text.to_owned();
    }
    let mut dressed = prefix.to_owned();
    dressed.append(text);
    dressed.append("\x1b[39m");
    dressed
}

/// A text in bold.
pub fn bold(text: &str) -> (dressed: String)
    ensures
        dressed@ == bolded(text@),
{
    let mut dressed = "\x1b[1m".to_owned();
    dressed.append(text);
    dressed.append("\x1b[22m");
    dressed
}

} // verus!
