//! How tool calls, words and usage go through a stream.
//!
//! A stream is read here as its frames have it: the pieces of calls as they come, and the places
//! where calls are closed. What the decoder reports is held against that.
use vstd::prelude::*;
use vstd::string::*;

use super::decoder::{
    argument_events, call_so_far, call_with, chunk_events, chunk_state, close_events,
    closes_calls, delta_of, field, flush_events, fragment_pending, fragments_events,
    fragments_of, fragments_pending, is_least, number_of, reasoning_events,
    start_events, text_events, text_of, usage_events, DecoderView,
};
use super::laws::{
    all_before_the_end, chunks_of, law_payloads_are_reported_whole, lemma_fragments_finite,
    lemma_least, lemma_stream, payloads_events, stream_events, stream_state,
};
use crate::json::JsonView;
use crate::providers::{EventView, FinishReasonView, ToolCallView};
use crate::text::decimal;

verus! {

/// A field below a document that may be missing.
pub open spec fn below(json: Option<JsonView>, key: Seq<char>) -> Option<JsonView> {
    if json is Some {
        json->0.get(key)
    } else {
        None
    }
}

/// The text of a document that may be missing; nothing where it is no text.
pub open spec fn words(json: Option<JsonView>) -> Seq<char> {
    if json is Some && json->0 is Str {
        json->0->Str_0
    } else {
        Seq::empty()
    }
}

/// The number of a document that may be missing; zero where it is no unsigned integer.
pub open spec fn count(json: Option<JsonView>) -> u64 {
    if json is Some && json->0 is Unsigned {
        json->0->Unsigned_0
    } else {
        0
    }
}

/// The first choice of a frame.
pub open spec fn first_choice(chunk: JsonView) -> Option<JsonView> {
    match chunk.get("choices"@) {
        Some(JsonView::Array(choices)) => if choices.len() > 0 {
            Some(choices[0])
        } else {
            None
        },
        _ => None,
    }
}

/// A field of the first choice's delta.
pub open spec fn in_delta(chunk: JsonView, key: Seq<char>) -> Option<JsonView> {
    below(below(first_choice(chunk), "delta"@), key)
}

/// The pieces of calls in a frame.
pub open spec fn pieces(chunk: JsonView) -> Seq<JsonView> {
    match in_delta(chunk, "tool_calls"@) {
        Some(JsonView::Array(pieces)) => pieces,
        _ => Seq::empty(),
    }
}

/// Whether a frame says that the calls are complete.
pub open spec fn completes_calls(chunk: JsonView) -> bool {
    below(first_choice(chunk), "finish_reason"@) == Some(JsonView::Str("tool_calls"@))
}

/// What a stream holds of calls: a piece of one, or the word that they are complete.
pub enum Mark {
    Piece(JsonView),
    Close,
}

/// The marks of pieces.
pub open spec fn piece_marks(found: Seq<JsonView>) -> Seq<Mark> {
    found.map_values(|piece: JsonView| Mark::Piece(piece))
}

/// The marks of a frame: its pieces, and behind them the word that the calls are complete.
pub open spec fn chunk_marks(chunk: JsonView) -> Seq<Mark> {
    piece_marks(pieces(chunk)) + (if completes_calls(chunk) {
        seq![Mark::Close]
    } else {
        Seq::empty()
    })
}

/// The marks of a stream.
pub open spec fn stream_marks(chunks: Seq<JsonView>) -> Seq<Mark>
    decreases chunks.len(),
{
    if chunks.len() == 0 {
        Seq::empty()
    } else {
        stream_marks(chunks.drop_last()) + chunk_marks(chunks.last())
    }
}

/// The index that a piece belongs to.
pub open spec fn piece_index(piece: JsonView) -> u64 {
    count(piece.get("index"@))
}

/// Whether a piece of a call has come since calls were last closed.
pub open spec fn is_open(marks: Seq<Mark>, index: u64) -> bool
    decreases marks.len(),
{
    marks.len() > 0 && (match marks.last() {
        Mark::Close => false,
        Mark::Piece(piece) => piece_index(piece) == index || is_open(marks.drop_last(), index),
    })
}

/// The text that the pieces of a call hold at a place, joined, since calls were last closed.
pub open spec fn joined(marks: Seq<Mark>, index: u64, key: Seq<char>) -> Seq<char>
    decreases marks.len(),
{
    if marks.len() == 0 {
        Seq::empty()
    } else {
        match marks.last() {
            Mark::Close => Seq::empty(),
            Mark::Piece(piece) => if piece_index(piece) == index {
                joined(marks.drop_last(), index, key) + words(below(piece.get("function"@), key))
            } else {
                joined(marks.drop_last(), index, key)
            },
        }
    }
}

/// The last id that a piece of a call gave, since calls were last closed.
pub open spec fn last_id(marks: Seq<Mark>, index: u64) -> Seq<char>
    decreases marks.len(),
{
    if marks.len() == 0 {
        Seq::empty()
    } else {
        match marks.last() {
            Mark::Close => Seq::empty(),
            Mark::Piece(piece) => if piece_index(piece) == index && piece.get("id"@) is Some
                && piece.get("id"@)->0 is Str {
                piece.get("id"@)->0->Str_0
            } else {
                last_id(marks.drop_last(), index)
            },
        }
    }
}

/// The call that the pieces of an index make up.
pub open spec fn made_up(marks: Seq<Mark>, index: u64) -> ToolCallView {
    ToolCallView {
        id: last_id(marks, index),
        name: joined(marks, index, "name"@),
        arguments: joined(marks, index, "arguments"@),
        signature: None,
    }
}

/// Whether events end and hand out, in ascending order, the calls of these indices, each once.
pub open spec fn hands_out(events: Seq<EventView>, marks: Seq<Mark>, indices: Seq<u64>) -> bool {
    &&& forall|i: int, j: int| 0 <= i < j < indices.len() ==> indices[i] < indices[j]
    &&& events.len() == 2 * indices.len()
    &&& forall|k: int|
        0 <= k < indices.len() ==> {
            &&& events[2 * k] == (EventView::ToolCallEnd {
                key: decimal((#[trigger] indices[k]) as nat),
            })
            &&& events[2 * k + 1] == EventView::ToolCall(made_up(marks, indices[k]))
        }
}

/// Whether events hand out every call that has got a name since calls were last closed, and no
/// other.
pub open spec fn hands_out_all(events: Seq<EventView>, marks: Seq<Mark>) -> bool {
    exists|indices: Seq<u64>|
        {
            &&& #[trigger] hands_out(events, marks, indices)
            &&& forall|index: u64|
                indices.contains(index) <==> #[trigger] joined(marks, index, "name"@).len() > 0
        }
}

/// Whether events hand out, at each place where calls are closed, the calls that have got a name
/// since the place before, and nothing elsewhere.
pub open spec fn hands_out_at_each_close(events: Seq<EventView>, marks: Seq<Mark>) -> bool
    decreases marks.len(),
{
    if marks.len() == 0 {
        events.len() == 0
    } else {
        match marks.last() {
            Mark::Close => exists|cut: int|
                {
                    &&& 0 <= cut <= events.len()
                    &&& hands_out_at_each_close(events.take(cut), marks.drop_last())
                    &&& #[trigger] hands_out_all(events.skip(cut), marks.drop_last())
                },
            Mark::Piece(_) => hands_out_at_each_close(events, marks.drop_last()),
        }
    }
}

/// The events that report how calls grow: that one starts, and the arguments of its pieces.
pub open spec fn growth(marks: Seq<Mark>) -> Seq<EventView>
    decreases marks.len(),
{
    if marks.len() == 0 {
        Seq::empty()
    } else {
        let before = growth(marks.drop_last());
        match marks.last() {
            Mark::Close => before,
            Mark::Piece(piece) => {
                let key = decimal(piece_index(piece) as nat);
                let arguments = words(below(piece.get("function"@), "arguments"@));
                let started = if is_open(marks.drop_last(), piece_index(piece)) {
                    before
                } else {
                    before.push(EventView::ToolCallStart { key })
                };
                if arguments.len() > 0 {
                    started.push(EventView::ToolArgumentsDelta { key, delta: arguments })
                } else {
                    started
                }
            },
        }
    }
}

/// The place of an event among those of its frame.
pub open spec fn rank_of(event: EventView) -> int {
    match event {
        EventView::TextDelta(_) => 0,
        EventView::ReasoningDelta(_) => 1,
        EventView::ToolCallStart { .. } => 2,
        EventView::ToolArgumentsDelta { .. } => 2,
        EventView::ToolCallEnd { .. } => 3,
        EventView::ToolCall(_) => 3,
        EventView::Usage { .. } => 4,
    }
}

/// The events of one rank.
pub open spec fn ranked(rank: int) -> spec_fn(EventView) -> bool {
    |event: EventView| rank_of(event) == rank
}

/// Whether all events are of one rank.
pub open spec fn all_ranked(events: Seq<EventView>, rank: int) -> bool {
    forall|k: int| 0 <= k < events.len() ==> rank_of(#[trigger] events[k]) == rank
}

/// Whether events come in the order of their ranks.
pub open spec fn in_order(events: Seq<EventView>) -> bool {
    forall|i: int, j: int|
        0 <= i <= j < events.len() ==> rank_of(#[trigger] events[i]) <= rank_of(
            #[trigger] events[j],
        )
}

/// Whether the pending calls are what the marks make up.
#[verifier::opaque]
spec fn agrees(pending: Map<u64, ToolCallView>, marks: Seq<Mark>) -> bool {
    &&& forall|index: u64| #[trigger] pending.contains_key(index) <==> is_open(marks, index)
    &&& forall|index: u64| #[trigger]
        pending.contains_key(index) ==> pending[index] == made_up(marks, index)
}

proof fn lemma_not_open(marks: Seq<Mark>, index: u64, key: Seq<char>)
    requires
        !is_open(marks, index),
    ensures
        joined(marks, index, key) == Seq::<char>::empty(),
        last_id(marks, index) == Seq::<char>::empty(),
    decreases marks.len(),
{
    if marks.len() > 0 && marks.last() is Piece {
        lemma_not_open(marks.drop_last(), index, key);
    }
}

/// The frame is read as the decoder does.
proof fn lemma_reading(chunk: JsonView)
    ensures
        fragments_of(chunk) == pieces(chunk),
        closes_calls(chunk) == completes_calls(chunk),
{
    reveal_strlit("stop");
    reveal_strlit("tool_calls");
    assert("stop"@.len() == 4 && "tool_calls"@.len() == 10);
}

proof fn lemma_piece(pending: Map<u64, ToolCallView>, marks: Seq<Mark>, piece: JsonView)
    requires
        agrees(pending, marks),
    ensures
        agrees(fragment_pending(pending, piece), marks.push(Mark::Piece(piece))),
        growth(marks.push(Mark::Piece(piece))) == growth(marks) + start_events(pending, piece)
            + argument_events(piece),
{
    reveal(agrees);
    let next = marks.push(Mark::Piece(piece));
    assert(next.drop_last() =~= marks);
    let index = piece_index(piece);
    assert(index == number_of(piece.get("index"@)));
    let after = fragment_pending(pending, piece);
    let so_far = call_so_far(pending, index);
    assert(so_far == made_up(marks, index)) by {
        if !pending.contains_key(index) {
            lemma_not_open(marks, index, "name"@);
            lemma_not_open(marks, index, "arguments"@);
        }
    }
    let function = piece.get("function"@);
    assert(call_with(so_far, piece) == made_up(next, index)) by {
        if text_of(field(function, "name"@)) is None {
            assert(so_far.name + words(below(function, "name"@)) =~= so_far.name);
        }
        if text_of(field(function, "arguments"@)) is None {
            assert(so_far.arguments + words(below(function, "arguments"@)) =~= so_far.arguments);
        }
    }
    assert forall|other: u64| #[trigger] after.contains_key(other) implies after[other]
        == made_up(next, other) by {
        if other != index {
            assert(pending.contains_key(other));
        }
    }
    assert forall|other: u64| #[trigger] after.contains_key(other) <==> is_open(next, other) by {
        if other != index {
            assert(after.contains_key(other) == pending.contains_key(other));
        }
    }
    assert(pending.contains_key(index) == is_open(marks, index));
    assert(growth(next) =~= growth(marks) + start_events(pending, piece) + argument_events(
        piece,
    ));
}

proof fn lemma_pieces(pending: Map<u64, ToolCallView>, marks: Seq<Mark>, found: Seq<JsonView>)
    requires
        agrees(pending, marks),
    ensures
        agrees(fragments_pending(pending, found), marks + piece_marks(found)),
        growth(marks + piece_marks(found)) == growth(marks) + fragments_events(pending, found),
        all_ranked(fragments_events(pending, found), 2),
    decreases found.len(),
{
    reveal(agrees);
    if found.len() == 0 {
        assert(marks + piece_marks(found) =~= marks);
        assert(growth(marks) + fragments_events(pending, found) =~= growth(marks));
    } else {
        let rest = found.drop_last();
        let before = fragments_pending(pending, rest);
        lemma_pieces(pending, marks, rest);
        lemma_piece(before, marks + piece_marks(rest), found.last());
        assert(marks + piece_marks(found) =~= (marks + piece_marks(rest)).push(
            Mark::Piece(found.last()),
        ));
        assert(growth(marks + piece_marks(found)) =~= growth(marks) + fragments_events(
            pending,
            found,
        ));
    }
}

proof fn lemma_flush_hands_out(pending: Map<u64, ToolCallView>) -> (indices: Seq<u64>)
    requires
        pending.dom().finite(),
    ensures
        forall|i: int, j: int| 0 <= i < j < indices.len() ==> indices[i] < indices[j],
        forall|index: u64|
            indices.contains(index) <==> #[trigger] pending.contains_key(index)
                && pending[index].name.len() > 0,
        flush_events(pending).len() == 2 * indices.len(),
        forall|k: int|
            0 <= k < indices.len() ==> {
                &&& flush_events(pending)[2 * k] == (EventView::ToolCallEnd {
                    key: decimal((#[trigger] indices[k]) as nat),
                })
                &&& flush_events(pending)[2 * k + 1] == EventView::ToolCall(pending[indices[k]])
            },
        all_ranked(flush_events(pending), 3),
    decreases pending.dom().len(),
{
    if pending.dom().len() == 0 {
        let none = Seq::<u64>::empty();
        assert forall|index: u64|
            none.contains(index) <==> #[trigger] pending.contains_key(index)
                && pending[index].name.len() > 0 by {
            assert(pending.dom() =~= Set::empty());
        }
        none
    } else {
        lemma_least(pending);
        let least = choose|key: u64| is_least(pending, key);
        let rest = pending.remove(least);
        assert(rest.dom() =~= pending.dom().remove(least));
        let later = lemma_flush_hands_out(rest);
        let closed = close_events(least, pending[least]);
        let events = flush_events(pending);
        assert(events == closed + flush_events(rest));
        assert forall|k: int| 0 <= k < later.len() implies least < #[trigger] later[k] by {
            assert(later.contains(later[k]));
            assert(rest.contains_key(later[k]));
            assert(pending.contains_key(later[k]));
        }
        if pending[least].name.len() > 0 {
            let indices = seq![least] + later;
            assert forall|k: int| 0 <= k < indices.len() implies {
                &&& events[2 * k] == (EventView::ToolCallEnd {
                    key: decimal((#[trigger] indices[k]) as nat),
                })
                &&& events[2 * k + 1] == EventView::ToolCall(pending[indices[k]])
            } by {
                if k > 0 {
                    assert(indices[k] == later[k - 1]);
                    assert(events[2 * k] == flush_events(rest)[2 * (k - 1)]);
                    assert(events[2 * k + 1] == flush_events(rest)[2 * (k - 1) + 1]);
                    assert(later.contains(later[k - 1]));
                    assert(rest.contains_key(later[k - 1]));
                }
            }
            assert forall|i: int, j: int| 0 <= i < j < indices.len() implies indices[i]
                < indices[j] by {
                assert(indices[j] == later[j - 1]);
                if i > 0 {
                    assert(indices[i] == later[i - 1]);
                }
            }
            assert forall|index: u64|
                indices.contains(index) <==> #[trigger] pending.contains_key(index)
                    && pending[index].name.len() > 0 by {
                assert(rest.contains_key(index) <==> pending.contains_key(index) && index
                    != least);
                if index == least {
                    assert(indices[0] == index);
                } else if later.contains(index) {
                    let at = later.index_of(index);
                    assert(indices[at + 1] == index);
                } else if indices.contains(index) {
                    let at = indices.index_of(index);
                    assert(later[at - 1] == index);
                }
            }
            indices
        } else {
            assert(events =~= flush_events(rest));
            assert forall|index: u64|
                later.contains(index) <==> #[trigger] pending.contains_key(index)
                    && pending[index].name.len() > 0 by {
                assert(rest.contains_key(index) <==> pending.contains_key(index) && index
                    != least);
            }
            assert forall|k: int| 0 <= k < later.len() implies {
                &&& events[2 * k] == (EventView::ToolCallEnd {
                    key: decimal((#[trigger] later[k]) as nat),
                })
                &&& events[2 * k + 1] == EventView::ToolCall(pending[later[k]])
            } by {
                assert(later.contains(later[k]));
                assert(rest.contains_key(later[k]));
            }
            later
        }
    }
}

proof fn lemma_closing(pending: Map<u64, ToolCallView>, marks: Seq<Mark>)
    requires
        pending.dom().finite(),
        agrees(pending, marks),
    ensures
        hands_out_all(flush_events(pending), marks),
        all_ranked(flush_events(pending), 3),
{
    reveal(agrees);
    let indices = lemma_flush_hands_out(pending);
    let events = flush_events(pending);
    assert forall|k: int| 0 <= k < indices.len() implies {
        &&& events[2 * k] == (EventView::ToolCallEnd {
            key: decimal((#[trigger] indices[k]) as nat),
        })
        &&& events[2 * k + 1] == EventView::ToolCall(made_up(marks, indices[k]))
    } by {
        assert(indices.contains(indices[k]));
        assert(pending.contains_key(indices[k]));
    }
    assert forall|index: u64|
        indices.contains(index) <==> #[trigger] joined(marks, index, "name"@).len() > 0 by {
        if pending.contains_key(index) {
        } else {
            lemma_not_open(marks, index, "name"@);
        }
    }
    assert(hands_out(events, marks, indices));
}

proof fn lemma_filter_ranked(events: Seq<EventView>, rank: int, other: int)
    requires
        all_ranked(events, rank),
    ensures
        events.filter(ranked(other)) == (if other == rank {
            events
        } else {
            Seq::empty()
        }),
    decreases events.len(),
{
    reveal(Seq::filter);
    if events.len() > 0 {
        let rest = events.drop_last();
        assert(forall|k: int| 0 <= k < rest.len() ==> #[trigger] rest[k] == events[k]);
        lemma_filter_ranked(rest, rank, other);
        assert(events.last() == events[events.len() - 1]);
        assert(rest.push(events.last()) =~= events);
    } else {
        assert(events.filter(ranked(other)) =~= Seq::empty());
        assert(events =~= Seq::empty());
    }
}

/// What a text reports, unless it is empty.
pub open spec fn spoken(text: Seq<char>) -> Seq<EventView> {
    if text.len() > 0 {
        seq![EventView::TextDelta(text)]
    } else {
        Seq::empty()
    }
}

/// What a piece of reasoning reports, unless it is empty.
pub open spec fn thought(text: Seq<char>) -> Seq<EventView> {
    if text.len() > 0 {
        seq![EventView::ReasoningDelta(text)]
    } else {
        Seq::empty()
    }
}

/// What the usage of a frame reports.
pub open spec fn used(chunk: JsonView) -> Seq<EventView> {
    let usage = chunk.get("usage"@);
    if usage is Some && usage != Some(JsonView::Null) {
        seq![
            EventView::Usage {
                input: count(below(usage, "prompt_tokens"@)),
                output: count(below(usage, "completion_tokens"@)),
                cache_read: count(
                    below(below(usage, "prompt_tokens_details"@), "cached_tokens"@),
                ),
            },
        ]
    } else {
        Seq::empty()
    }
}

proof fn lemma_six<A>(a: Seq<A>, b: Seq<A>, c: Seq<A>, d: Seq<A>, e: Seq<A>, f: Seq<A>, keep:
    spec_fn(A) -> bool)
    ensures
        (a + b + c + d + e + f).filter(keep) == a.filter(keep) + b.filter(keep) + c.filter(keep)
            + d.filter(keep) + e.filter(keep) + f.filter(keep),
{
    Seq::filter_distributes_over_add(a, b, keep);
    Seq::filter_distributes_over_add(a + b, c, keep);
    Seq::filter_distributes_over_add(a + b + c, d, keep);
    Seq::filter_distributes_over_add(a + b + c + d, e, keep);
    Seq::filter_distributes_over_add(a + b + c + d + e, f, keep);
}

/// Nothing, around a part.
proof fn lemma_none_around<A>(part: Seq<A>)
    ensures
        part + Seq::empty() == part,
        Seq::empty() + part == part,
{
    assert(part + Seq::empty() =~= part);
    assert(Seq::empty() + part =~= part);
}

/// Parts that are ranked are what is left of the whole by their rank.
proof fn lemma_filters(
    a: Seq<EventView>,
    b: Seq<EventView>,
    c: Seq<EventView>,
    d: Seq<EventView>,
    e: Seq<EventView>,
    f: Seq<EventView>,
    rank: int,
)
    requires
        all_ranked(a, 0),
        all_ranked(b, 1),
        all_ranked(c, 1),
        all_ranked(d, 2),
        all_ranked(e, 3),
        all_ranked(f, 4),
        0 <= rank <= 4,
    ensures
        (a + b + c + d + e + f).filter(ranked(rank)) == (if rank == 0 {
            a
        } else if rank == 1 {
            b + c
        } else if rank == 2 {
            d
        } else if rank == 3 {
            e
        } else {
            f
        }),
{
    lemma_filter_ranked(a, 0, rank);
    lemma_filter_ranked(b, 1, rank);
    lemma_filter_ranked(c, 1, rank);
    lemma_filter_ranked(d, 2, rank);
    lemma_filter_ranked(e, 3, rank);
    lemma_filter_ranked(f, 4, rank);
    lemma_six(a, b, c, d, e, f, ranked(rank));
    lemma_none_around(Seq::<EventView>::empty());
    lemma_none_around(a);
    lemma_none_around(b);
    lemma_none_around(b + c);
    lemma_none_around(d);
    lemma_none_around(e);
    lemma_none_around(f);
}

/// Whether events are what a frame reports behind these marks. In this order: its text; its
/// reasoning, under the one name and the other; how the calls of its pieces grow; if it completes
/// the calls, all those that have got a name; its usage. What is empty or missing reports nothing.
pub open spec fn reports_frame(events: Seq<EventView>, marks: Seq<Mark>, chunk: JsonView) -> bool {
    let arrived = marks + piece_marks(pieces(chunk));
    &&& in_order(events)
    &&& events.filter(ranked(0)) == spoken(words(in_delta(chunk, "content"@)))
    &&& events.filter(ranked(1)) == thought(words(in_delta(chunk, "reasoning_content"@)))
        + thought(words(in_delta(chunk, "reasoning"@)))
    &&& growth(arrived) == growth(marks) + events.filter(ranked(2))
    &&& completes_calls(chunk) ==> hands_out_all(events.filter(ranked(3)), arrived)
    &&& !completes_calls(chunk) ==> events.filter(ranked(3)).len() == 0
    &&& events.filter(ranked(4)) == used(chunk)
}

proof fn lemma_chunk_ranks(state: DecoderView, marks: Seq<Mark>, chunk: JsonView)
    requires
        state.pending.dom().finite(),
        agrees(state.pending, marks),
    ensures
        reports_frame(chunk_events(state, chunk), marks, chunk),
{
    lemma_reading(chunk);
    let delta = delta_of(chunk);
    let a = text_events(text_of(field(delta, "content"@)));
    let b = reasoning_events(text_of(field(delta, "reasoning_content"@)));
    let c = reasoning_events(text_of(field(delta, "reasoning"@)));
    let found = pieces(chunk);
    let d = fragments_events(state.pending, found);
    let pending = fragments_pending(state.pending, found);
    let e = if completes_calls(chunk) {
        flush_events(pending)
    } else {
        Seq::empty()
    };
    let f = usage_events(chunk);
    lemma_words_reported(chunk);
    lemma_pieces(state.pending, marks, found);
    lemma_fragments_finite(state.pending, found);
    lemma_closing(pending, marks + piece_marks(found));
    lemma_filters(a, b, c, d, e, f, 0);
    lemma_filters(a, b, c, d, e, f, 1);
    lemma_filters(a, b, c, d, e, f, 2);
    lemma_filters(a, b, c, d, e, f, 3);
    lemma_filters(a, b, c, d, e, f, 4);
    lemma_ranks_grow(a, b, c, d, e, f);
    assert(chunk_events(state, chunk) == a + b + c + d + e + f);
}

/// Text, reasoning and usage are reported as the frame has them.
proof fn lemma_words_reported(chunk: JsonView)
    ensures
        text_events(text_of(field(delta_of(chunk), "content"@))) == spoken(
            words(in_delta(chunk, "content"@)),
        ),
        reasoning_events(text_of(field(delta_of(chunk), "reasoning_content"@))) == thought(
            words(in_delta(chunk, "reasoning_content"@)),
        ),
        reasoning_events(text_of(field(delta_of(chunk), "reasoning"@))) == thought(
            words(in_delta(chunk, "reasoning"@)),
        ),
        usage_events(chunk) == used(chunk),
        all_ranked(text_events(text_of(field(delta_of(chunk), "content"@))), 0),
        all_ranked(reasoning_events(text_of(field(delta_of(chunk), "reasoning_content"@))), 1),
        all_ranked(reasoning_events(text_of(field(delta_of(chunk), "reasoning"@))), 1),
        all_ranked(usage_events(chunk), 4),
{
}

/// The pending calls behind a frame are what its marks make up.
proof fn lemma_chunk_agrees(state: DecoderView, marks: Seq<Mark>, chunk: JsonView)
    requires
        agrees(state.pending, marks),
    ensures
        agrees(chunk_state(state, chunk).pending, marks + chunk_marks(chunk)),
{
    reveal(agrees);
    lemma_reading(chunk);
    lemma_pieces(state.pending, marks, pieces(chunk));
    let arrived = marks + piece_marks(pieces(chunk));
    if completes_calls(chunk) {
        let closed = arrived.push(Mark::Close);
        assert(marks + chunk_marks(chunk) =~= closed);
        assert(closed.last() == Mark::Close);
    } else {
        assert(marks + chunk_marks(chunk) =~= arrived);
    }
}

proof fn lemma_ranks_grow(
    a: Seq<EventView>,
    b: Seq<EventView>,
    c: Seq<EventView>,
    d: Seq<EventView>,
    e: Seq<EventView>,
    f: Seq<EventView>,
)
    requires
        all_ranked(a, 0),
        all_ranked(b, 1),
        all_ranked(c, 1),
        all_ranked(d, 2),
        all_ranked(e, 3),
        all_ranked(f, 4),
    ensures
        in_order(a + b + c + d + e + f),
{
    let events = a + b + c + d + e + f;
    let p = a.len() as int;
    let q = p + b.len() + c.len();
    let r = q + d.len();
    let s = r + e.len();
    assert forall|k: int| 0 <= k < events.len() implies rank_of(#[trigger] events[k]) == (if k
        < p {
        0
    } else if k < q {
        1
    } else if k < r {
        2
    } else if k < s {
        3
    } else {
        4int
    }) by {
        if k < p {
            assert(events[k] == a[k]);
        } else if k < p + b.len() {
            assert(events[k] == b[k - p]);
        } else if k < q {
            assert(events[k] == c[k - p - b.len()]);
        } else if k < r {
            assert(events[k] == d[k - q]);
        } else if k < s {
            assert(events[k] == e[k - r]);
        } else {
            assert(events[k] == f[k - s]);
        }
    }
}

proof fn lemma_agrees(chunks: Seq<JsonView>)
    ensures
        stream_state(chunks).pending.dom().finite(),
        agrees(stream_state(chunks).pending, stream_marks(chunks)),
    decreases chunks.len(),
{
    reveal(agrees);
    lemma_stream(chunks);
    if chunks.len() > 0 {
        lemma_agrees(chunks.drop_last());
        lemma_chunk_agrees(
            stream_state(chunks.drop_last()),
            stream_marks(chunks.drop_last()),
            chunks.last(),
        );
    }
}

proof fn lemma_one_more(chunks: Seq<JsonView>, chunk: JsonView)
    ensures
        stream_events(chunks.push(chunk)) == stream_events(chunks) + chunk_events(
            stream_state(chunks),
            chunk,
        ),
        stream_marks(chunks.push(chunk)) == stream_marks(chunks) + chunk_marks(chunk),
{
    assert(chunks.push(chunk).drop_last() =~= chunks);
}

/// Every frame of a stream reports what it holds, behind the marks of the frames before it, and
/// what it reports follows what they did.
pub proof fn law_frames_report_what_they_hold(chunks: Seq<JsonView>, chunk: JsonView)
    ensures
        stream_events(chunks.push(chunk)) == stream_events(chunks) + chunk_events(
            stream_state(chunks),
            chunk,
        ),
        reports_frame(chunk_events(stream_state(chunks), chunk), stream_marks(chunks), chunk),
{
    lemma_agrees(chunks);
    lemma_chunk_ranks(stream_state(chunks), stream_marks(chunks), chunk);
    lemma_one_more(chunks, chunk);
}

proof fn lemma_handed_out_pieces(events: Seq<EventView>, marks: Seq<Mark>, found: Seq<JsonView>)
    requires
        hands_out_at_each_close(events, marks),
    ensures
        hands_out_at_each_close(events, marks + piece_marks(found)),
    decreases found.len(),
{
    if found.len() == 0 {
        assert(marks + piece_marks(found) =~= marks);
    } else {
        lemma_handed_out_pieces(events, marks, found.drop_last());
        let next = marks + piece_marks(found);
        assert(next.drop_last() =~= marks + piece_marks(found.drop_last()));
        assert(next.last() == Mark::Piece(found.last()));
    }
}

proof fn lemma_handed_out_close(
    events: Seq<EventView>,
    more: Seq<EventView>,
    marks: Seq<Mark>,
)
    requires
        hands_out_at_each_close(events, marks),
        hands_out_all(more, marks),
    ensures
        hands_out_at_each_close(events + more, marks.push(Mark::Close)),
{
    let next = marks.push(Mark::Close);
    let cut = events.len() as int;
    assert(next.drop_last() =~= marks);
    assert((events + more).take(cut) =~= events);
    assert((events + more).skip(cut) =~= more);
    assert(hands_out_all((events + more).skip(cut), next.drop_last()));
}

/// A frame goes on handing out calls at each close.
proof fn lemma_frame_hands_out(
    before: Seq<EventView>,
    events: Seq<EventView>,
    marks: Seq<Mark>,
    chunk: JsonView,
)
    requires
        hands_out_at_each_close(before, marks),
        reports_frame(events, marks, chunk),
    ensures
        hands_out_at_each_close(before + events.filter(ranked(3)), marks + chunk_marks(chunk)),
{
    let arrived = marks + piece_marks(pieces(chunk));
    lemma_handed_out_pieces(before, marks, pieces(chunk));
    if completes_calls(chunk) {
        lemma_handed_out_close(before, events.filter(ranked(3)), arrived);
        assert(marks + chunk_marks(chunk) =~= arrived.push(Mark::Close));
    } else {
        assert(before + events.filter(ranked(3)) =~= before);
        assert(marks + chunk_marks(chunk) =~= arrived);
    }
}

/// A frame goes on reporting how calls grow.
proof fn lemma_frame_grows(events: Seq<EventView>, marks: Seq<Mark>, chunk: JsonView)
    requires
        reports_frame(events, marks, chunk),
    ensures
        growth(marks + chunk_marks(chunk)) == growth(marks) + events.filter(ranked(2)),
{
    let arrived = marks + piece_marks(pieces(chunk));
    if completes_calls(chunk) {
        let closed = arrived.push(Mark::Close);
        assert(marks + chunk_marks(chunk) =~= closed);
        assert(closed.drop_last() =~= arrived);
    } else {
        assert(marks + chunk_marks(chunk) =~= arrived);
    }
}

proof fn lemma_stream_hands_out(chunks: Seq<JsonView>)
    ensures
        hands_out_at_each_close(stream_events(chunks).filter(ranked(3)), stream_marks(chunks)),
    decreases chunks.len(),
{
    if chunks.len() == 0 {
        lemma_filter_ranked(stream_events(chunks), 0, 3);
    } else {
        let rest = chunks.drop_last();
        let events = chunk_events(stream_state(rest), chunks.last());
        lemma_stream_hands_out(rest);
        law_frames_report_what_they_hold(rest, chunks.last());
        Seq::filter_distributes_over_add(stream_events(rest), events, ranked(3));
        lemma_frame_hands_out(
            stream_events(rest).filter(ranked(3)),
            events,
            stream_marks(rest),
            chunks.last(),
        );
    }
}

proof fn lemma_stream_grows(chunks: Seq<JsonView>)
    ensures
        stream_events(chunks).filter(ranked(2)) == growth(stream_marks(chunks)),
    decreases chunks.len(),
{
    if chunks.len() == 0 {
        lemma_filter_ranked(stream_events(chunks), 0, 2);
    } else {
        let rest = chunks.drop_last();
        let events = chunk_events(stream_state(rest), chunks.last());
        lemma_stream_grows(rest);
        law_frames_report_what_they_hold(rest, chunks.last());
        Seq::filter_distributes_over_add(stream_events(rest), events, ranked(2));
        lemma_frame_grows(events, stream_marks(rest), chunks.last());
    }
}

/// Over a stream that `[DONE]` ends, every call whose pieces since the last closing gave it a name
/// is handed out where calls are closed next, by a frame or by the end: exactly once, made up of
/// all its pieces, those of lower indices first. Nothing else is handed out.
pub proof fn law_every_call_is_handed_out_once(payloads: Seq<Seq<char>>)
    requires
        all_before_the_end(payloads),
    ensures
        hands_out_at_each_close(
            payloads_events(payloads.push("[DONE]"@)).filter(ranked(3)),
            stream_marks(chunks_of(payloads)).push(Mark::Close),
        ),
{
    let chunks = chunks_of(payloads);
    law_payloads_are_reported_whole(payloads);
    lemma_stream_hands_out(chunks);
    lemma_agrees(chunks);
    let last = flush_events(stream_state(chunks).pending);
    lemma_closing(stream_state(chunks).pending, stream_marks(chunks));
    lemma_filter_ranked(last, 3, 3);
    Seq::filter_distributes_over_add(stream_events(chunks), last, ranked(3));
    lemma_handed_out_close(
        stream_events(chunks).filter(ranked(3)),
        last,
        stream_marks(chunks),
    );
}

/// Over a stream that `[DONE]` ends, a call is reported to start with its first piece since calls
/// were last closed, and its arguments are reported piece by piece, as they come.
pub proof fn law_calls_grow_as_their_pieces_come(payloads: Seq<Seq<char>>)
    requires
        all_before_the_end(payloads),
    ensures
        payloads_events(payloads.push("[DONE]"@)).filter(ranked(2)) == growth(
            stream_marks(chunks_of(payloads)),
        ),
{
    let chunks = chunks_of(payloads);
    law_payloads_are_reported_whole(payloads);
    lemma_stream_grows(chunks);
    lemma_agrees(chunks);
    let last = flush_events(stream_state(chunks).pending);
    lemma_closing(stream_state(chunks).pending, stream_marks(chunks));
    lemma_filter_ranked(last, 3, 2);
    Seq::filter_distributes_over_add(stream_events(chunks), last, ranked(2));
    let grown = stream_events(chunks).filter(ranked(2));
    assert(grown + Seq::<EventView>::empty() =~= grown);
}

/// A frame that gives a reason settles how the stream ends, until another one does; one that
/// gives none leaves it.
pub proof fn law_reasons_settle_the_end(state: DecoderView, chunk: JsonView)
    ensures
        ({
            let reason = below(first_choice(chunk), "finish_reason"@);
            let word = words(reason);
            let finish = chunk_state(state, chunk).finish;
            if reason is Some && reason->0 is Str {
                &&& word == "stop"@ ==> finish == FinishReasonView::Normal
                &&& word == "tool_calls"@ ==> finish == FinishReasonView::ToolCalls
                &&& word == "length"@ ==> finish == FinishReasonView::Length
                &&& word == "content_filter"@ ==> finish == FinishReasonView::ContentFilter
                &&& word != "stop"@ && word != "tool_calls"@ && word != "length"@ && word
                    != "content_filter"@ ==> finish == FinishReasonView::Other(word)
            } else {
                finish == state.finish
            }
        }),
{
    reveal_strlit("stop");
    reveal_strlit("tool_calls");
    reveal_strlit("length");
    reveal_strlit("content_filter");
    assert("stop"@.len() == 4 && "tool_calls"@.len() == 10 && "length"@.len() == 6
        && "content_filter"@.len() == 14);
}

} // verus!
