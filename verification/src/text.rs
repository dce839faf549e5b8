//! Text helpers shared by the surfaces and the wire dialect.
use vstd::prelude::*;
use vstd::string::*;
use vstd::utf8::*;

verus! {

/// `String::push`: appends one character to the end of the text.
pub assume_specification[ String::push ](text: &mut String, c: char)
    ensures
        final(text)@ == old(text)@.push(c),
;

/// Whether `part` occurs somewhere in `whole`.
pub open spec fn occurs_in(part: Seq<char>, whole: Seq<char>) -> bool {
    exists|at: int| occurs_at(part, whole, at)
}

/// Whether `part` stands in `whole` at the character `at`.
pub open spec fn occurs_at(part: Seq<char>, whole: Seq<char>, at: int) -> bool {
    &&& 0 <= at
    &&& at + part.len() <= whole.len()
    &&& whole.subrange(at, at + part.len()) == part
}

/// An ASCII capital in lower case; any other character as it is.
pub open spec fn ascii_lower(c: char) -> char {
    if 'A' <= c <= 'Z' {
        ((c as u32) + 32) as char
    } else {
        c
    }
}

/// `text` with its ASCII capitals in lower case.
pub open spec fn ascii_lowercase(text: Seq<char>) -> Seq<char> {
    text.map_values(|c: char| ascii_lower(c))
}

/// The decimal digit `d`.
pub open spec fn digit(d: nat) -> char {
    (48 + d) as char
}

/// `n` in decimal, without leading zeros.
pub open spec fn decimal(n: nat) -> Seq<char>
    decreases n,
{
    if n < 10 {
        seq![digit(n)]
    } else {
        decimal(n / 10).push(digit(n % 10))
    }
}

/// `n` spaces.
pub open spec fn spaces(n: nat) -> Seq<char> {
    Seq::new(n, |i: int| ' ')
}

/// How many bytes the UTF-8 encoding of `c` takes.
pub open spec fn char_bytes(c: char) -> nat {
    encode_scalar(c as u32).len()
}

/// How many bytes the UTF-8 encoding of `text` takes.
pub open spec fn text_bytes(text: Seq<char>) -> nat {
    encode_utf8(text).len()
}

/// A number has a digit.
proof fn lemma_decimal_is_not_empty(n: nat)
    ensures
        decimal(n).len() >= 1,
    decreases n,
{
    if n >= 10 {
        lemma_decimal_is_not_empty(n / 10);
    }
}

/// Different numbers are written differently.
pub proof fn law_decimal_is_injective(a: nat, b: nat)
    requires
        decimal(a) == decimal(b),
    ensures
        a == b,
    decreases a,
{
    lemma_decimal_is_not_empty(a / 10);
    lemma_decimal_is_not_empty(b / 10);
    if a >= 10 && b >= 10 {
        let x = decimal(a / 10);
        let y = decimal(b / 10);
        assert(x.push(digit(a % 10)).drop_last() =~= x);
        assert(y.push(digit(b % 10)).drop_last() =~= y);
        law_decimal_is_injective(a / 10, b / 10);
        assert(decimal(a).last() == digit(a % 10));
        assert(decimal(b).last() == digit(b % 10));
        assert(digit(a % 10) as int == 48 + a % 10);
        assert(digit(b % 10) as int == 48 + b % 10);
    } else if a < 10 && b < 10 {
        assert(decimal(a)[0] == digit(a));
        assert(decimal(b)[0] == digit(b));
        assert(digit(a) as int == 48 + a);
        assert(digit(b) as int == 48 + b);
    } else if a < 10 {
        assert(decimal(a).len() == 1);
        assert(decimal(b) == decimal(b / 10).push(digit(b % 10)));
    } else {
        assert(decimal(b).len() == 1);
        assert(decimal(a) == decimal(a / 10).push(digit(a % 10)));
    }
}

/// Whether two texts hold the same characters.
pub fn same_text(a: &str, b: &str) -> (same: bool)
    ensures
        same == (a@ == b@),
{
    let left = a.as_bytes();
    let right = b.as_bytes();
    proof {
        encode_utf8_decode_utf8(a@);
        encode_utf8_decode_utf8(b@);
    }
    if left.len() != right.len() {
        return false;
    }
    let mut i: usize = 0;
    while i < left.len()
        invariant
            i <= left.len(),
            left@ == encode_utf8(a@),
            right@ == encode_utf8(b@),
            left.len() == right.len(),
            forall|j: int| 0 <= j < i ==> left@[j] == right@[j],
        decreases left.len() - i,
    {
        if left[i] != right[i] {
            return false;
        }
        i = i + 1;
    }
    assert(left@ =~= right@);
    true
}

/// The characters of a text, one by one.
pub fn characters(text: &str) -> (chars: Vec<char>)
    ensures
        chars@ == text@,
{
    let mut chars: Vec<char> = Vec::new();
    for c in it: text.chars()
        invariant
            it.seq() == text@,
            chars@ == text@.take(it.index() as int),
    {
        chars.push(c);
        assert(text@.take(it.index() + 1) =~= text@.take(it.index() as int).push(c));
    }
    assert(text@.take(text@.len() as int) =~= text@);
    chars
}

/// Whether `part` stands in `whole` at the character `at`.
fn stands_at(part: &Vec<char>, whole: &Vec<char>, at: usize) -> (found: bool)
    requires
        at + part@.len() <= whole@.len(),
    ensures
        found == occurs_at(part@, whole@, at as int),
{
    let limit: usize = whole.len();
    let mut i: usize = 0;
    while i < part.len()
        invariant
            i <= part@.len(),
            limit == whole@.len(),
            at + part@.len() <= limit,
            forall|j: int| 0 <= j < i ==> whole@[at + j] == part@[j],
        decreases part.len() - i,
    {
        if whole[at + i] != part[i] {
            assert(whole@.subrange(at as int, at + part@.len())[i as int] != part@[i as int]);
            return false;
        }
        i = i + 1;
    }
    assert(whole@.subrange(at as int, at + part@.len()) =~= part@);
    true
}

/// Whether `part` occurs somewhere in `whole`.
pub fn contains_text(whole: &str, part: &str) -> (found: bool)
    ensures
        found == occurs_in(part@, whole@),
{
    let text = characters(whole);
    let wanted = characters(part);
    if wanted.len() > text.len() {
        return false;
    }
    let last: usize = text.len() - wanted.len();
    let mut at: usize = 0;
    while at <= last
        invariant
            text@ == whole@,
            wanted@ == part@,
            last + wanted@.len() == text@.len(),
            at <= last + 1,
            forall|k: int| 0 <= k < at ==> !occurs_at(part@, whole@, k),
        decreases last + 1 - at,
    {
        if stands_at(&wanted, &text, at) {
            return true;
        }
        if at == last {
            return false;
        }
        at = at + 1;
    }
    false
}

/// `text` with its ASCII capitals in lower case.
pub fn to_ascii_lowercase(text: &str) -> (lower: String)
    ensures
        lower@ == ascii_lowercase(text@),
{
    let mut lower = String::new();
    for c in it: text.chars()
        invariant
            it.seq() == text@,
            lower@ == ascii_lowercase(text@.take(it.index() as int)),
    {
        if 'A' <= c && c <= 'Z' {
            let small: u8 = (c as u8) + 32;
            lower.push(small as char);
        } else {
            lower.push(c);
        }
        assert(ascii_lowercase(text@.take(it.index() + 1)) =~= ascii_lowercase(
            text@.take(it.index() as int),
        ).push(ascii_lower(c)));
    }
    assert(text@.take(text@.len() as int) =~= text@);
    lower
}

/// `n` in decimal.
pub fn decimal_text(n: u64) -> (text: String)
    ensures
        text@ == decimal(n as nat),
    decreases n,
{
    if n < 10 {
        let mut text = String::new();
        text.push((48 + n as u8) as char);
        assert(text@ =~= seq![digit(n as nat)]);
        text
    } else {
        let mut text = decimal_text(n / 10);
        text.push((48 + (n % 10) as u8) as char);
        text
    }
}

/// `n` spaces.
pub fn spaces_text(n: usize) -> (text: String)
    ensures
        text@ == spaces(n as nat),
{
    let mut text = String::new();
    let mut i: usize = 0;
    while i < n
        invariant
            i <= n,
            text@ == spaces(i as nat),
        decreases n - i,
    {
        text.push(' ');
        i = i + 1;
        assert(text@ =~= spaces(i as nat));
    }
    text
}

/// How many bytes the UTF-8 encoding of `c` takes.
pub fn char_bytes_count(c: char) -> (n: usize)
    ensures
        n == char_bytes(c),
        1 <= n <= 4,
{
    broadcast use {char_is_scalar};

    let code: u32 = c as u32;
    if code <= 0x7F {
        1
    } else if code <= 0x7FF {
        2
    } else if code <= 0xFFFF {
        3
    } else {
        4
    }
}

/// The number that decimal digits say, read from the left.
pub open spec fn read_decimal(digits: Seq<char>) -> int
    decreases digits.len(),
{
    if digits.len() == 0 {
        0
    } else {
        10 * read_decimal(digits.drop_last()) + (digits.last() as int - '0' as int)
    }
}

/// A number that is written reads back as it was: in digits only, without a leading zero.
pub proof fn law_decimal_reads_back(n: nat)
    ensures
        read_decimal(decimal(n)) == n,
        decimal(n).len() >= 1,
        forall|k: int| 0 <= k < decimal(n).len() ==> '0' <= #[trigger] decimal(n)[k] <= '9',
        n >= 1 ==> decimal(n)[0] != '0',
    decreases n,
{
    if n < 10 {
        assert(digit(n) as int == 48 + n);
        let one = decimal(n);
        assert(one.drop_last() =~= Seq::empty());
        assert(one.last() == digit(n));
        assert(read_decimal(Seq::<char>::empty()) == 0);
    } else {
        law_decimal_reads_back(n / 10);
        assert(digit(n % 10) as int == 48 + n % 10);
        let longer = decimal(n);
        assert(longer.drop_last() =~= decimal(n / 10));
        assert(longer.last() == digit(n % 10));
        assert(longer[0] == decimal(n / 10)[0]);
        assert forall|k: int| 0 <= k < longer.len() implies '0' <= #[trigger] longer[k]
            <= '9' by {
            if k < longer.len() - 1 {
                assert(longer[k] == decimal(n / 10)[k]);
            }
        }
    }
}

/// A run of spaces has that many characters, each a space.
pub proof fn law_spaces_are_blank(n: nat, k: int)
    ensures
        spaces(n).len() == n,
        0 <= k < n ==> spaces(n)[k] == ' ',
{
}

/// A part occurs in a text exactly where the text can be cut into something, the part and
/// something.
pub proof fn law_occurrence_is_a_cut(part: Seq<char>, whole: Seq<char>)
    ensures
        occurs_in(part, whole) <==> exists|before: Seq<char>, after: Seq<char>|
            #[trigger] (before + part + after) == whole,
{
    if occurs_in(part, whole) {
        let at = choose|at: int| occurs_at(part, whole, at);
        assert(whole.take(at) + part + whole.skip(at + part.len()) =~= whole) by {
            assert forall|k: int| at <= k < at + part.len() implies whole[k] == part[k - at] by {
                assert(whole.subrange(at, at + part.len())[k - at] == whole[k]);
            }
        }
    }
    if exists|before: Seq<char>, after: Seq<char>| #[trigger] (before + part + after) == whole {
        let (before, after) = choose|before: Seq<char>, after: Seq<char>|
            #[trigger] (before + part + after) == whole;
        assert(whole.subrange(before.len() as int, before.len() as int + part.len()) =~= part);
        assert(occurs_at(part, whole, before.len() as int));
    }
}

/// Lower case changes the ASCII capitals alone, each to the small letter of its place in the
/// alphabet.
pub proof fn law_ascii_lowercase_changes_capitals_alone(text: Seq<char>, k: int)
    requires
        0 <= k < text.len(),
    ensures
        ascii_lowercase(text).len() == text.len(),
        'A' <= text[k] <= 'Z' ==> ascii_lowercase(text)[k] as int - 'a' as int == text[k] as int
            - 'A' as int,
        !('A' <= text[k] <= 'Z') ==> ascii_lowercase(text)[k] == text[k],
{
    assert(ascii_lowercase(text)[k] == ascii_lower(text[k]));
    if 'A' <= text[k] <= 'Z' {
        assert(ascii_lower(text[k]) as int == text[k] as int + 32);
    }
}

} // verus!
