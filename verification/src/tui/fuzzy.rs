//! Subsequence fuzzy match.
use vstd::prelude::*;
use vstd::utf8::*;

use crate::text::{ascii_lowercase, char_bytes, char_bytes_count, characters, text_bytes};

verus! {

/// A text in lower case, as `str::to_lowercase` writes it.
pub uninterp spec fn lowercase(text: Seq<char>) -> Seq<char>;

/// Whether a text is ASCII only.
pub open spec fn is_ascii_text(text: Seq<char>) -> bool {
    forall|k: int| 0 <= k < text.len() ==> #[trigger] text[k] <= '\u{7f}'
}

/// `str::to_lowercase`. Claimed: the result depends on the text alone, and of a text that is
/// ASCII only it is the text with its capitals in lower case.
#[verifier::external_body]
fn to_lowercase(text: &str) -> (lower: String)
    ensures
        lower@ == lowercase(text@),
        is_ascii_text(text@) ==> lower@ == ascii_lowercase(text@),
{
    text.to_lowercase()
}

/// The score of every candidate for an empty query, which keeps them in their order.
pub const NEUTRAL: usize = usize::MAX / 2;

/// The first place of `needle` in `text` at or after `from`.
pub open spec fn find(text: Seq<char>, needle: char, from: int) -> Option<int>
    decreases text.len() - from,
{
    if from < 0 || from >= text.len() {
        None
    } else if text[from] == needle {
        Some(from)
    } else {
        find(text, needle, from + 1)
    }
}

/// Where the characters of `query` are hit in `candidate`, from `from` on: each at its first
/// place behind the one before.
pub open spec fn hits(query: Seq<char>, candidate: Seq<char>, from: int) -> Option<Seq<int>>
    decreases query.len(),
{
    if query.len() == 0 {
        Some(Seq::empty())
    } else {
        match find(candidate, query[0], from) {
            Some(at) => match hits(query.drop_first(), candidate, at + 1) {
                Some(rest) => Some(seq![at] + rest),
                None => None,
            },
            None => None,
        }
    }
}

/// The byte at which a character of a text starts.
pub open spec fn offset(text: Seq<char>, at: int) -> int {
    text_bytes(text.take(at)) as int
}

/// What hits cost: the bytes before the first, and for every other the bytes between it and
/// the start of the one before, less one.
pub open spec fn cost(candidate: Seq<char>, at: Seq<int>) -> int
    decreases at.len(),
{
    if at.len() == 0 {
        0
    } else if at.len() == 1 {
        offset(candidate, at[0])
    } else {
        cost(candidate, at.drop_last()) + (offset(candidate, at.last()) - offset(
            candidate,
            at[at.len() - 2],
        ) - 1)
    }
}

/// The score of a candidate, both texts in lower case; nothing where it does not match.
pub open spec fn subsequence_cost(query: Seq<char>, candidate: Seq<char>) -> Option<int> {
    match hits(query, candidate, 0) {
        Some(at) => Some(cost(candidate, at)),
        None => None,
    }
}

/// The score of a candidate; nothing where it does not match.
pub open spec fn score_of(query: Seq<char>, candidate: Seq<char>) -> Option<int> {
    if query.len() == 0 {
        Some(NEUTRAL as int)
    } else {
        subsequence_cost(lowercase(query), lowercase(candidate))
    }
}

/// A longer text takes the bytes of both its parts.
proof fn lemma_bytes_of_concat(a: Seq<char>, b: Seq<char>)
    ensures
        text_bytes(a + b) == text_bytes(a) + text_bytes(b),
    decreases a.len(),
{
    if a.len() == 0 {
        assert(a + b =~= b);
    } else {
        assert((a + b).drop_first() =~= a.drop_first() + b);
        lemma_bytes_of_concat(a.drop_first(), b);
    }
}

/// The next character starts behind this one.
proof fn lemma_offset_step(text: Seq<char>, at: int)
    requires
        0 <= at < text.len(),
    ensures
        offset(text, at + 1) == offset(text, at) + char_bytes(text[at]),
        char_bytes(text[at]) >= 1,
        offset(text, at + 1) <= text_bytes(text),
{
    let one = seq![text[at]];
    assert(text.take(at + 1) =~= text.take(at) + one);
    lemma_bytes_of_concat(text.take(at), one);
    assert(one.drop_first() =~= Seq::empty());
    assert(encode_utf8(one) =~= encode_scalar(text[at] as u32) + encode_utf8(one.drop_first()));
    assert(text =~= text.take(at + 1) + text.skip(at + 1));
    lemma_bytes_of_concat(text.take(at + 1), text.skip(at + 1));
}

/// A later character starts at a later byte.
proof fn lemma_offset_grows(text: Seq<char>, a: int, b: int)
    requires
        0 <= a < b < text.len(),
    ensures
        offset(text, a) + 1 <= offset(text, b),
    decreases b - a,
{
    lemma_offset_step(text, b - 1);
    if a < b - 1 {
        lemma_offset_grows(text, a, b - 1);
    }
}

proof fn lemma_cost_push(candidate: Seq<char>, at: Seq<int>, next: int)
    ensures
        cost(candidate, at.push(next)) == (if at.len() == 0 {
            offset(candidate, next)
        } else {
            cost(candidate, at) + (offset(candidate, next) - offset(candidate, at.last()) - 1)
        }),
{
    assert(at.push(next).drop_last() =~= at);
}

/// The score of a candidate, both texts in lower case; nothing where it does not match.
pub fn subsequence_score(query: &str, candidate: &str) -> (score: Option<usize>)
    ensures
        match score {
            Some(score) => subsequence_cost(query@, candidate@) == Some(score as int),
            None => subsequence_cost(query@, candidate@) is None,
        },
{
    let needles = characters(query);
    let text = characters(candidate);
    let bytes: usize = candidate.as_bytes().len();
    let ghost mut at: Seq<int> = Seq::empty();
    let mut score: usize = 0;
    // The place from which the next character is sought, and the byte at which it starts.
    let mut place: usize = 0;
    let mut position: usize = 0;
    let mut last_hit: Option<usize> = None;
    let mut k: usize = 0;
    proof {
        assert(needles@.skip(0) =~= needles@);
        assert(text@.take(0) =~= Seq::empty());
        match hits(query@, candidate@, 0) {
            Some(all) => {
                assert(Seq::<int>::empty() + all =~= all);
            },
            None => {},
        }
    }
    while k < needles.len()
        invariant
            k <= needles@.len(),
            needles@ == query@,
            text@ == candidate@,
            bytes == text_bytes(candidate@),
            place <= text@.len(),
            position == offset(candidate@, place as int),
            at.len() == k,
            last_hit == (if k == 0 {
                None::<usize>
            } else {
                Some(offset(candidate@, at.last()) as usize)
            }),
            k > 0 ==> 0 <= at.last() < place && at.last() + 1 == place && offset(
                candidate@,
                at.last(),
            ) <= bytes,
            score == cost(candidate@, at),
            score <= position,
            k == 0 ==> score == 0,
            k > 0 ==> score <= offset(candidate@, at.last()),
            hits(query@, candidate@, 0) == (match hits(
                needles@.skip(k as int),
                candidate@,
                place as int,
            ) {
                Some(rest) => Some(at + rest),
                None => None,
            }),
        decreases needles.len() - k,
    {
        let needle = needles[k];
        let ghost from = place;
        proof {
            assert(needles@.skip(k as int)[0] == needle);
            assert(needles@.skip(k as int).drop_first() =~= needles@.skip(k + 1));
        }
        while place < text.len() && text[place] != needle
            invariant
                text@ == candidate@,
                bytes == text_bytes(candidate@),
                from <= place <= text@.len(),
                position == offset(candidate@, place as int),
                offset(candidate@, from as int) <= position,
                find(candidate@, needle, from as int) == find(candidate@, needle, place as int),
            decreases text.len() - place,
        {
            proof {
                lemma_offset_step(candidate@, place as int);
            }
            position = position + char_bytes_count(text[place]);
            place = place + 1;
        }
        if place == text.len() {
            return None;
        }
        proof {
            lemma_offset_step(candidate@, place as int);
            lemma_cost_push(candidate@, at, place as int);
            if k > 0 {
                lemma_offset_grows(candidate@, at.last(), place as int);
            }
        }
        // A hit costs the bytes since the start of the one before, less one, so that the next
        // byte is free; the first hit costs the bytes before it.
        match last_hit {
            Some(last) => {
                score = score + (position - last - 1);
            },
            None => {
                score = score + position;
            },
        }
        last_hit = Some(position);
        proof {
            match hits(needles@.skip(k + 1), candidate@, place + 1) {
                Some(rest) => {
                    assert(at + (seq![place as int] + rest) =~= at.push(place as int) + rest);
                },
                None => {},
            }
            at = at.push(place as int);
        }
        position = position + char_bytes_count(needle);
        place = place + 1;
        k = k + 1;
    }
    proof {
        assert(needles@.skip(k as int) =~= Seq::empty());
        assert(at + Seq::<int>::empty() =~= at);
    }
    Some(score)
}

/// Subsequence fuzzy match; a lower score is better, `None` is no match.
pub fn fuzzy_score(query: &str, candidate: &str) -> (score: Option<usize>)
    ensures
        match score {
            Some(score) => score_of(query@, candidate@) == Some(score as int),
            None => score_of(query@, candidate@) is None,
        },
        query@.len() > 0 && is_ascii_text(query@) && is_ascii_text(candidate@) ==> score_of(
            query@,
            candidate@,
        ) == subsequence_cost(ascii_lowercase(query@), ascii_lowercase(candidate@)),
{
    if query.is_empty() {
        return Some(NEUTRAL);
    }
    let candidate_lower = to_lowercase(candidate);
    let query_lower = to_lowercase(query);
    subsequence_score(query_lower.as_str(), candidate_lower.as_str())
}

/// Whether `at` is a way to find `query` in `candidate`: its characters in order, at the places
/// `at`.
pub open spec fn found_at(query: Seq<char>, candidate: Seq<char>, at: Seq<int>) -> bool {
    &&& at.len() == query.len()
    &&& forall|k: int|
        0 <= k < at.len() ==> 0 <= #[trigger] at[k] < candidate.len() && candidate[at[k]]
            == query[k]
    &&& forall|i: int, j: int| 0 <= i < j < at.len() ==> at[i] < at[j]
}

/// Whether `query` is a subsequence of `candidate`.
pub open spec fn is_subsequence(query: Seq<char>, candidate: Seq<char>) -> bool {
    exists|at: Seq<int>| found_at(query, candidate, at)
}

proof fn lemma_find(text: Seq<char>, needle: char, from: int)
    requires
        0 <= from,
    ensures
        match find(text, needle, from) {
            Some(at) => from <= at < text.len() && text[at] == needle,
            None => true,
        },
        forall|other: int|
            from <= other < text.len() && #[trigger] text[other] == needle ==> find(
                text,
                needle,
                from,
            ) is Some && find(text, needle, from)->0 <= other,
    decreases text.len() - from,
{
    if from < text.len() && text[from] != needle {
        lemma_find(text, needle, from + 1);
    }
}

proof fn lemma_hits_are_found(query: Seq<char>, candidate: Seq<char>, from: int)
    requires
        0 <= from,
        hits(query, candidate, from) is Some,
    ensures
        found_at(query, candidate, hits(query, candidate, from)->0),
        query.len() > 0 ==> from <= hits(query, candidate, from)->0[0],
    decreases query.len(),
{
    if query.len() > 0 {
        lemma_find(candidate, query[0], from);
        let first = find(candidate, query[0], from)->0;
        let rest = hits(query.drop_first(), candidate, first + 1)->0;
        lemma_hits_are_found(query.drop_first(), candidate, first + 1);
        let all = seq![first] + rest;
        assert forall|k: int| 0 <= k < all.len() implies 0 <= #[trigger] all[k] < candidate.len()
            && candidate[all[k]] == query[k] by {
            if k > 0 {
                assert(all[k] == rest[k - 1]);
                assert(query[k] == query.drop_first()[k - 1]);
            }
        }
        assert forall|i: int, j: int| 0 <= i < j < all.len() implies all[i] < all[j] by {
            assert(all[j] == rest[j - 1]);
            if i > 0 {
                assert(all[i] == rest[i - 1]);
            } else if j > 1 {
                assert(rest[0] < rest[j - 1]);
            }
        }
    }
}

proof fn lemma_hits_come_first(
    query: Seq<char>,
    candidate: Seq<char>,
    from: int,
    at: Seq<int>,
)
    requires
        0 <= from,
        found_at(query, candidate, at),
        query.len() > 0 ==> from <= at[0],
    ensures
        hits(query, candidate, from) is Some,
        hits(query, candidate, from)->0.len() == query.len(),
        query.len() > 0 ==> hits(query, candidate, from)->0.last() <= at.last(),
    decreases query.len(),
{
    if query.len() > 0 {
        lemma_find(candidate, query[0], from);
        assert(candidate[at[0]] == query[0]);
        let first = find(candidate, query[0], from)->0;
        let rest = at.drop_first();
        assert forall|k: int| 0 <= k < rest.len() implies 0 <= #[trigger] rest[k]
            < candidate.len() && candidate[rest[k]] == query.drop_first()[k] by {
            assert(rest[k] == at[k + 1]);
        }
        if query.len() > 1 {
            assert(rest[0] == at[1]);
        }
        lemma_hits_come_first(query.drop_first(), candidate, first + 1, rest);
        let later = hits(query.drop_first(), candidate, first + 1)->0;
        let all = seq![first] + later;
        if query.len() > 1 {
            assert(all.last() == later.last());
            assert(rest.last() == at.last());
        } else {
            assert(all.last() == first);
        }
    }
}

/// What hits cost is settled by where they end: the byte of the last one, less the number of
/// the others.
pub proof fn law_cost_is_where_the_hits_end(candidate: Seq<char>, at: Seq<int>)
    requires
        at.len() > 0,
    ensures
        cost(candidate, at) == offset(candidate, at.last()) - (at.len() - 1),
    decreases at.len(),
{
    if at.len() > 1 {
        law_cost_is_where_the_hits_end(candidate, at.drop_last());
        assert(at.drop_last().last() == at[at.len() - 2]);
    }
}

/// A candidate matches exactly where the query is a subsequence of it.
pub proof fn law_match_is_subsequence(query: Seq<char>, candidate: Seq<char>)
    ensures
        subsequence_cost(query, candidate) is Some <==> is_subsequence(query, candidate),
{
    if subsequence_cost(query, candidate) is Some {
        lemma_hits_are_found(query, candidate, 0);
        assert(found_at(query, candidate, hits(query, candidate, 0)->0));
    }
    if is_subsequence(query, candidate) {
        let at = choose|at: Seq<int>| found_at(query, candidate, at);
        if query.len() > 0 {
            assert(0 <= at[0]);
        }
        lemma_hits_come_first(query, candidate, 0, at);
    }
}

/// The score is the best that any way to find the query in the candidate could get.
pub proof fn law_score_is_least(query: Seq<char>, candidate: Seq<char>, at: Seq<int>)
    requires
        found_at(query, candidate, at),
    ensures
        subsequence_cost(query, candidate) is Some,
        0 <= subsequence_cost(query, candidate)->0 <= cost(candidate, at),
{
    if query.len() > 0 {
        assert(0 <= at[0]);
        lemma_hits_come_first(query, candidate, 0, at);
        lemma_hits_are_found(query, candidate, 0);
        let best = hits(query, candidate, 0)->0;
        law_cost_is_where_the_hits_end(candidate, best);
        law_cost_is_where_the_hits_end(candidate, at);
        let last = best.last();
        assert(0 <= best[best.len() - 1] < candidate.len());
        assert(0 <= at[at.len() - 1] < candidate.len());
        if last < at.last() {
            lemma_offset_grows(candidate, last, at.last());
        }
        lemma_places_are_behind(candidate, best);
    } else {
        lemma_hits_come_first(query, candidate, 0, at);
    }
}

/// Behind `n` characters lie at least `n` bytes.
proof fn lemma_places_are_behind(candidate: Seq<char>, at: Seq<int>)
    requires
        at.len() > 0,
        forall|k: int| 0 <= k < at.len() ==> 0 <= #[trigger] at[k] < candidate.len(),
        forall|i: int, j: int| 0 <= i < j < at.len() ==> at[i] < at[j],
    ensures
        at.len() - 1 <= offset(candidate, at.last()),
    decreases at.len(),
{
    if at.len() > 1 {
        let before = at.drop_last();
        assert(before.last() == at[at.len() - 2]);
        assert forall|k: int| 0 <= k < before.len() implies 0 <= #[trigger] before[k]
            < candidate.len() by {
            assert(before[k] == at[k]);
        }
        lemma_places_are_behind(candidate, before);
        assert(0 <= at[at.len() - 1] < candidate.len());
        lemma_offset_grows(candidate, before.last(), at.last());
    }
}

/// A candidate that starts with a query of one-byte characters gets the best score there is.
pub proof fn law_prefix_is_free(query: Seq<char>, candidate: Seq<char>)
    requires
        query.len() <= candidate.len(),
        candidate.take(query.len() as int) == query,
        forall|k: int| 0 <= k < query.len() ==> char_bytes(#[trigger] query[k]) == 1,
    ensures
        subsequence_cost(query, candidate) == Some(0int),
{
    let at = Seq::new(query.len(), |k: int| k);
    assert forall|k: int| 0 <= k < at.len() implies 0 <= #[trigger] at[k] < candidate.len()
        && candidate[at[k]] == query[k] by {
        assert(candidate.take(query.len() as int)[k] == candidate[k]);
    }
    assert(found_at(query, candidate, at));
    law_score_is_least(query, candidate, at);
    if query.len() > 0 {
        law_cost_is_where_the_hits_end(candidate, at);
        lemma_plain_offset(query, candidate, query.len() - 1);
    }
}

proof fn lemma_plain_offset(query: Seq<char>, candidate: Seq<char>, at: int)
    requires
        0 <= at < query.len() <= candidate.len(),
        candidate.take(query.len() as int) == query,
        forall|k: int| 0 <= k < query.len() ==> char_bytes(#[trigger] query[k]) == 1,
    ensures
        offset(candidate, at) == at,
    decreases at,
{
    if at == 0 {
        assert(candidate.take(0) =~= Seq::empty());
    } else {
        lemma_plain_offset(query, candidate, at - 1);
        lemma_offset_step(candidate, at - 1);
        assert(candidate.take(query.len() as int)[at - 1] == candidate[at - 1]);
    }
}

/// Case is ignored: queries that agree in lower case score every candidate alike, and so do
/// candidates that agree in lower case.
pub proof fn law_case_is_ignored(
    query: Seq<char>,
    other_query: Seq<char>,
    candidate: Seq<char>,
    other_candidate: Seq<char>,
)
    requires
        query.len() > 0,
        other_query.len() > 0,
        lowercase(query) == lowercase(other_query),
        lowercase(candidate) == lowercase(other_candidate),
    ensures
        score_of(query, candidate) == score_of(other_query, other_candidate),
{
}

/// What a way to find a query costs: the bytes of the candidate before its last character, less
/// the number of the characters before it.
pub open spec fn bytes_before_the_end(candidate: Seq<char>, at: Seq<int>) -> int {
    encode_utf8(candidate.take(at.last())).len() - (at.len() - 1)
}

/// Whether a score is that of the best way to find a query, where there is a way, and missing
/// where there is none.
pub open spec fn is_best_score(query: Seq<char>, candidate: Seq<char>, score: Option<int>) -> bool {
    &&& score is Some <==> exists|at: Seq<int>| found_at(query, candidate, at)
    &&& score is Some ==> {
        &&& exists|at: Seq<int>| #[trigger]
            found_at(query, candidate, at) && score->0 == bytes_before_the_end(candidate, at)
        &&& forall|at: Seq<int>| #[trigger]
            found_at(query, candidate, at) ==> 0 <= score->0 <= bytes_before_the_end(
                candidate,
                at,
            )
    }
}

/// The score of a candidate is that of the best way to find the query in it: as early and as tight
/// as can be.
pub proof fn law_score_is_the_best(query: Seq<char>, candidate: Seq<char>)
    requires
        query.len() > 0,
    ensures
        is_best_score(query, candidate, subsequence_cost(query, candidate)),
{
    law_match_is_subsequence(query, candidate);
    if subsequence_cost(query, candidate) is Some {
        lemma_hits_are_found(query, candidate, 0);
        let best = hits(query, candidate, 0)->0;
        law_cost_is_where_the_hits_end(candidate, best);
        assert(found_at(query, candidate, best));
        assert forall|at: Seq<int>| #[trigger] found_at(query, candidate, at) implies 0
            <= subsequence_cost(query, candidate)->0 <= bytes_before_the_end(candidate, at) by {
            law_score_is_least(query, candidate, at);
            law_cost_is_where_the_hits_end(candidate, at);
        }
    }
}

/// An empty query scores every candidate alike, in the middle of all scores. Any other query is
/// sought in the candidate with both in lower case.
pub proof fn law_queries_are_sought_in_lower_case(query: Seq<char>, candidate: Seq<char>)
    ensures
        query.len() == 0 ==> score_of(query, candidate) == Some((usize::MAX / 2) as int),
        query.len() > 0 && lowercase(query).len() > 0 ==> is_best_score(
            lowercase(query),
            lowercase(candidate),
            score_of(query, candidate),
        ),
{
    if query.len() > 0 && lowercase(query).len() > 0 {
        law_score_is_the_best(lowercase(query), lowercase(candidate));
    }
}

} // verus!
