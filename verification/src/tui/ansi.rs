//! Styled text: how wide it shows, and how it is cut.
//!
//! A style run is an escape sequence and takes no column; every other character takes one.
use vstd::prelude::*;
use vstd::string::*;

verus! {

/// Where in an escape sequence a text stands.
#[derive(Debug, Clone, Copy, PartialEq, Eq, Structural)]
pub enum Mode {
    /// In none.
    Text,
    /// Behind the escape character.
    Escape,
    /// Behind the escape character and a bracket.
    Sequence,
}

/// The mode behind one more character.
pub open spec fn next_mode(mode: Mode, c: char) -> Mode {
    match mode {
        Mode::Text => if c == '\u{1b}' {
            Mode::Escape
        } else {
            Mode::Text
        },
        Mode::Escape => if c == '[' {
            Mode::Sequence
        } else {
            Mode::Text
        },
        Mode::Sequence => if '@' <= c <= '~' {
            Mode::Text
        } else {
            Mode::Sequence
        },
    }
}

/// Whether a character shows.
pub open spec fn shows(mode: Mode, c: char) -> bool {
    mode == Mode::Text && c != '\u{1b}'
}

/// The mode behind a text.
pub open spec fn mode_after(text: Seq<char>) -> Mode
    decreases text.len(),
{
    if text.len() == 0 {
        Mode::Text
    } else {
        next_mode(mode_after(text.drop_last()), text.last())
    }
}

/// The columns that a text takes.
pub open spec fn columns(text: Seq<char>) -> nat
    decreases text.len(),
{
    if text.len() == 0 {
        0
    } else {
        columns(text.drop_last()) + (if shows(mode_after(text.drop_last()), text.last()) {
            1nat
        } else {
            0nat
        })
    }
}

/// The sequence that ends all styles.
pub open spec fn reset() -> Seq<char> {
    seq!['\u{1b}', '[', '0', 'm']
}

/// The longest beginning of a text that fits in `width` columns.
pub open spec fn fitting(text: Seq<char>, width: nat) -> Seq<char>
    decreases text.len(),
{
    if columns(text) <= width || text.len() == 0 {
        text
    } else {
        fitting(text.drop_last(), width)
    }
}

/// A text cut to `width` columns: as it is where it fits, and else its longest beginning that
/// fits, with its styles closed.
pub open spec fn clipped(text: Seq<char>, width: nat) -> Seq<char> {
    if columns(text) <= width {
        text
    } else {
        fitting(text, width) + reset()
    }
}

/// The mode behind one more character.
fn advance(mode: Mode, c: char) -> (next: Mode)
    ensures
        next == next_mode(mode, c),
{
    match mode {
        Mode::Text => if c == '\u{1b}' {
            Mode::Escape
        } else {
            Mode::Text
        },
        Mode::Escape => if c == '[' {
            Mode::Sequence
        } else {
            Mode::Text
        },
        Mode::Sequence => if '@' <= c && c <= '~' {
            Mode::Text
        } else {
            Mode::Sequence
        },
    }
}

/// The columns that a text takes.
pub fn visible_width(text: &str) -> (width: usize)
    ensures
        width == columns(text@),
{
    let limit: usize = text.unicode_len();
    let mut width: usize = 0;
    let mut mode = Mode::Text;
    for c in it: text.chars()
        invariant
            it.seq() == text@,
            limit == text@.len(),
            width == columns(text@.take(it.index() as int)),
            width <= it.index(),
            mode == mode_after(text@.take(it.index() as int)),
    {
        proof {
            assert(text@.take(it.index() + 1).drop_last() =~= text@.take(it.index() as int));
            assert(text@.take(it.index() + 1).last() == c);
        }
        if mode == Mode::Text && c != '\u{1b}' {
            width = width + 1;
        }
        mode = advance(mode, c);
    }
    assert(text@.take(text@.len() as int) =~= text@);
    width
}

/// A beginning takes no more columns than the whole.
proof fn lemma_columns_grow(text: Seq<char>, at: int)
    requires
        0 <= at <= text.len(),
    ensures
        columns(text.take(at)) <= columns(text),
    decreases text.len(),
{
    if at < text.len() {
        lemma_columns_grow(text.drop_last(), at);
        assert(text.drop_last().take(at) =~= text.take(at));
    } else {
        assert(text.take(at) =~= text);
    }
}

/// The beginning that fits ends where one more character would not.
proof fn lemma_fitting_at(text: Seq<char>, width: nat, at: int)
    requires
        0 <= at < text.len(),
        columns(text.take(at)) <= width,
        columns(text.take(at + 1)) > width,
    ensures
        fitting(text, width) == text.take(at),
    decreases text.len(),
{
    lemma_columns_grow(text, at + 1);
    let shorter = text.drop_last();
    if at + 1 < text.len() {
        assert(shorter.take(at) =~= text.take(at));
        assert(shorter.take(at + 1) =~= text.take(at + 1));
        lemma_fitting_at(shorter, width, at);
    } else {
        assert(text.take(at + 1) =~= text);
        assert(shorter =~= text.take(at));
        assert(fitting(shorter, width) == shorter);
    }
}

/// Cuts styled text to `width` columns. Style runs take none, and a cut row closes its styles
/// instead of severing a sequence.
pub fn clip_styled(text: &str, width: usize) -> (row: String)
    ensures
        row@ == clipped(text@, width as nat),
{
    let mut row = String::new();
    let mut taken: usize = 0;
    let mut mode = Mode::Text;
    for c in it: text.chars()
        invariant
            it.seq() == text@,
            taken <= width,
            taken == columns(text@.take(it.index() as int)),
            mode == mode_after(text@.take(it.index() as int)),
            row@ == text@.take(it.index() as int),
    {
        let ghost at = it.index() as int;
        proof {
            assert(text@.take(at + 1).drop_last() =~= text@.take(at));
            assert(text@.take(at + 1).last() == c);
        }
        if mode == Mode::Text && c != '\u{1b}' {
            if taken == width {
                proof {
                    lemma_columns_grow(text@, at + 1);
                    lemma_fitting_at(text@, width as nat, at);
                }
                row.push('\u{1b}');
                row.push('[');
                row.push('0');
                row.push('m');
                assert(row@ =~= text@.take(at) + reset());
                return row;
            }
            taken = taken + 1;
        }
        mode = advance(mode, c);
        row.push(c);
        assert(row@ =~= text@.take(at + 1));
    }
    assert(text@.take(text@.len() as int) =~= text@);
    row
}

proof fn lemma_push_mode(text: Seq<char>, c: char)
    ensures
        mode_after(text.push(c)) == next_mode(mode_after(text), c),
        columns(text.push(c)) == columns(text) + (if shows(mode_after(text), c) {
            1nat
        } else {
            0nat
        }),
{
    assert(text.push(c).drop_last() =~= text);
}

proof fn lemma_fitting_ends_in_text(text: Seq<char>, width: nat)
    requires
        columns(text) > width,
    ensures
        mode_after(fitting(text, width)) == Mode::Text,
        columns(fitting(text, width)) <= width,
    decreases text.len(),
{
    let shorter = text.drop_last();
    if columns(shorter) > width {
        lemma_fitting_ends_in_text(shorter, width);
    } else {
        assert(fitting(shorter, width) == shorter);
        assert(shows(mode_after(shorter), text.last()));
    }
}

/// Behind a text that severs no sequence, another one takes the columns that it takes alone.
pub proof fn law_columns_add_up(a: Seq<char>, b: Seq<char>)
    requires
        mode_after(a) == Mode::Text,
    ensures
        columns(a + b) == columns(a) + columns(b),
        mode_after(a + b) == mode_after(b),
    decreases b.len(),
{
    if b.len() == 0 {
        assert(a + b =~= a);
    } else {
        law_columns_add_up(a, b.drop_last());
        assert((a + b).drop_last() =~= a + b.drop_last());
        assert((a + b).last() == b.last());
    }
}

/// A text without escape sequences takes a column for each character.
pub proof fn law_plain_text_shows_whole(text: Seq<char>)
    requires
        forall|k: int| 0 <= k < text.len() ==> #[trigger] text[k] != '\u{1b}',
    ensures
        columns(text) == text.len(),
        mode_after(text) == Mode::Text,
    decreases text.len(),
{
    if text.len() > 0 {
        let rest = text.drop_last();
        assert(forall|k: int| 0 <= k < rest.len() ==> #[trigger] rest[k] == text[k]);
        law_plain_text_shows_whole(rest);
        assert(text.last() == text[text.len() - 1]);
    }
}

/// A cut row fits, severs no sequence and leaves no style open; a row that fits is left alone.
pub proof fn law_clip_fits(text: Seq<char>, width: nat)
    ensures
        columns(clipped(text, width)) <= width,
        columns(text) <= width ==> clipped(text, width) == text,
        columns(text) > width ==> {
            &&& mode_after(fitting(text, width)) == Mode::Text
            &&& mode_after(clipped(text, width)) == Mode::Text
            &&& reset().is_suffix_of(clipped(text, width))
        },
{
    if columns(text) > width {
        lemma_fitting_ends_in_text(text, width);
        let kept = fitting(text, width);
        let a = kept.push('\u{1b}');
        let b = a.push('[');
        let c = b.push('0');
        let d = c.push('m');
        lemma_push_mode(kept, '\u{1b}');
        lemma_push_mode(a, '[');
        lemma_push_mode(b, '0');
        lemma_push_mode(c, 'm');
        assert(d =~= kept + reset());
        assert(d.subrange(d.len() - 4, d.len() as int) =~= reset());
    }
}

/// A row that does not fit keeps as many characters as do, and behind them closes its styles.
pub proof fn law_clip_keeps_what_fits(text: Seq<char>, width: nat)
    requires
        columns(text) > width,
    ensures
        exists|n: int|
            {
                &&& 0 <= n < text.len()
                &&& columns(#[trigger] text.take(n)) == width
                &&& columns(text.take(n + 1)) > width
                &&& clipped(text, width) == text.take(n) + "\x1b[0m"@
            },
    decreases text.len(),
{
    let shorter = text.drop_last();
    reveal_strlit("\x1b[0m");
    assert(reset() =~= "\x1b[0m"@);
    if columns(shorter) > width {
        law_clip_keeps_what_fits(shorter, width);
        let n = choose|n: int|
            {
                &&& 0 <= n < shorter.len()
                &&& columns(#[trigger] shorter.take(n)) == width
                &&& columns(shorter.take(n + 1)) > width
                &&& clipped(shorter, width) == shorter.take(n) + "\x1b[0m"@
            };
        assert(shorter.take(n) =~= text.take(n));
        assert(shorter.take(n + 1) =~= text.take(n + 1));
        assert(fitting(text, width) == fitting(shorter, width));
        assert(clipped(text, width) == text.take(n) + "\x1b[0m"@);
    } else {
        let n = text.len() - 1;
        assert(text.take(n) =~= shorter);
        assert(text.take(n + 1) =~= text);
        assert(fitting(shorter, width) == shorter);
        assert(columns(text.take(n)) == width);
        assert(clipped(text, width) == text.take(n) + "\x1b[0m"@);
    }
}

/// A style run, from its escape and bracket over what it says to its final letter, takes no column
/// and is over behind that letter.
pub proof fn law_style_runs_take_no_column(said: Seq<char>, end: char)
    requires
        forall|k: int| 0 <= k < said.len() ==> !('@' <= #[trigger] said[k] <= '~'),
        '@' <= end <= '~',
    ensures
        columns(seq!['\u{1b}', '['] + said + seq![end]) == 0,
        mode_after(seq!['\u{1b}', '['] + said + seq![end]) == Mode::Text,
{
    lemma_open_run(said);
    lemma_push_mode(seq!['\u{1b}', '['] + said, end);
    assert(seq!['\u{1b}', '['] + said + seq![end] =~= (seq!['\u{1b}', '['] + said).push(end));
}

proof fn lemma_open_run(said: Seq<char>)
    requires
        forall|k: int| 0 <= k < said.len() ==> !('@' <= #[trigger] said[k] <= '~'),
    ensures
        columns(seq!['\u{1b}', '['] + said) == 0,
        mode_after(seq!['\u{1b}', '['] + said) == Mode::Sequence,
    decreases said.len(),
{
    let open = seq!['\u{1b}', '['];
    if said.len() == 0 {
        let none = Seq::<char>::empty();
        lemma_push_mode(none, '\u{1b}');
        lemma_push_mode(none.push('\u{1b}'), '[');
        assert(none.push('\u{1b}').push('[') =~= open + said);
        assert(mode_after(none) == Mode::Text && columns(none) == 0);
    } else {
        let rest = said.drop_last();
        assert(forall|k: int| 0 <= k < rest.len() ==> #[trigger] rest[k] == said[k]);
        lemma_open_run(rest);
        lemma_push_mode(open + rest, said.last());
        assert(said.last() == said[said.len() - 1]);
        assert((open + rest).push(said.last()) =~= open + said);
    }
}

/// Clipping a clipped row to the same width changes nothing.
pub proof fn law_clip_is_idempotent(text: Seq<char>, width: nat)
    ensures
        clipped(clipped(text, width), width) == clipped(text, width),
{
    law_clip_fits(text, width);
}

} // verus!
