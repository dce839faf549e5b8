//! What holds of whole streams.
use vstd::prelude::*;

use super::decoder::{
    argument_events, call_so_far, chunk_events, chunk_state, close_events, closes_calls,
    delta_of, field, flush_events, fragment_pending, fragments_events, fragments_of,
    fragments_pending, initial_state, is_least, number_of, payload_state, payload_step,
    reason_of, reasoning_events, start_events, text_events, text_of, usage_events, DecoderView,
    StepView,
};
use crate::json::{parsed_json, JsonView};
use crate::providers::{EventView, FinishReasonView, ToolCallView};
use crate::text::{decimal, law_decimal_is_injective};

verus! {

/// The arguments that have been reported for a call since it last started.
pub open spec fn reported_arguments(events: Seq<EventView>, key: Seq<char>) -> Seq<char>
    decreases events.len(),
{
    if events.len() == 0 {
        Seq::empty()
    } else {
        let before = reported_arguments(events.drop_last(), key);
        match events.last() {
            EventView::ToolCallStart { key: started } => if started == key {
                Seq::empty()
            } else {
                before
            },
            EventView::ToolArgumentsDelta { key: grown, delta } => if grown == key {
                before + delta
            } else {
                before
            },
            _ => before,
        }
    }
}

/// Whether every call is handed out right after its end, with a name, and with exactly the
/// arguments that were reported for it.
pub open spec fn faithful(events: Seq<EventView>) -> bool
    decreases events.len(),
{
    if events.len() == 0 {
        true
    } else {
        let before = events.drop_last();
        &&& faithful(before)
        &&& events.last() matches EventView::ToolCall(call) ==> {
            &&& call.name.len() > 0
            &&& before.len() > 0
            &&& before.last() matches EventView::ToolCallEnd { key }
            &&& call.arguments == reported_arguments(before, key)
        }
    }
}

/// Whether the pending calls hold the arguments that were reported for them.
pub open spec fn in_step(events: Seq<EventView>, pending: Map<u64, ToolCallView>) -> bool {
    forall|index: u64| #[trigger]
        pending.contains_key(index) ==> pending[index].arguments == reported_arguments(
            events,
            decimal(index as nat),
        )
}

/// The state of a stream after its chunks.
pub open spec fn stream_state(chunks: Seq<JsonView>) -> DecoderView
    decreases chunks.len(),
{
    if chunks.len() == 0 {
        initial_state()
    } else {
        chunk_state(stream_state(chunks.drop_last()), chunks.last())
    }
}

/// What a stream reports over its chunks.
pub open spec fn stream_events(chunks: Seq<JsonView>) -> Seq<EventView>
    decreases chunks.len(),
{
    if chunks.len() == 0 {
        Seq::empty()
    } else {
        stream_events(chunks.drop_last()) + chunk_events(
            stream_state(chunks.drop_last()),
            chunks.last(),
        )
    }
}

/// Whether an event neither starts nor feeds nor hands out a call.
spec fn passive(event: EventView) -> bool {
    match event {
        EventView::TextDelta(_) => true,
        EventView::ReasoningDelta(_) => true,
        EventView::ToolCallEnd { .. } => true,
        EventView::Usage { .. } => true,
        _ => false,
    }
}

proof fn lemma_push(events: Seq<EventView>, event: EventView, key: Seq<char>)
    ensures
        reported_arguments(events.push(event), key) == (match event {
            EventView::ToolCallStart { key: started } => if started == key {
                Seq::empty()
            } else {
                reported_arguments(events, key)
            },
            EventView::ToolArgumentsDelta { key: grown, delta } => if grown == key {
                reported_arguments(events, key) + delta
            } else {
                reported_arguments(events, key)
            },
            _ => reported_arguments(events, key),
        }),
        faithful(events) && !(event is ToolCall) ==> faithful(events.push(event)),
{
    assert(events.push(event).drop_last() =~= events);
}

proof fn lemma_passive(
    events: Seq<EventView>,
    more: Seq<EventView>,
    pending: Map<u64, ToolCallView>,
)
    requires
        faithful(events),
        in_step(events, pending),
        more.len() <= 1,
        more.len() == 1 ==> passive(more[0]),
    ensures
        faithful(events + more),
        in_step(events + more, pending),
{
    if more.len() == 1 {
        assert(events + more =~= events.push(more[0]));
        assert forall|index: u64| #[trigger] pending.contains_key(index) implies
            pending[index].arguments == reported_arguments(
            events + more,
            decimal(index as nat),
        ) by {
            lemma_push(events, more[0], decimal(index as nat));
        }
        lemma_push(events, more[0], Seq::empty());
    } else {
        assert(events + more =~= events);
    }
}

proof fn lemma_fragment(
    events: Seq<EventView>,
    pending: Map<u64, ToolCallView>,
    fragment: JsonView,
)
    requires
        faithful(events),
        in_step(events, pending),
    ensures
        faithful(events + start_events(pending, fragment) + argument_events(fragment)),
        in_step(
            events + start_events(pending, fragment) + argument_events(fragment),
            fragment_pending(pending, fragment),
        ),
{
    let index = number_of(fragment.get("index"@));
    let key = decimal(index as nat);
    let started = events + start_events(pending, fragment);
    let opened = pending.insert(index, call_so_far(pending, index));
    assert(faithful(started) && in_step(started, opened)) by {
        if pending.contains_key(index) {
            assert(started =~= events);
            assert(opened =~= pending);
        } else {
            let event = EventView::ToolCallStart { key };
            assert(started =~= events.push(event));
            lemma_push(events, event, key);
            assert forall|other: u64| #[trigger] opened.contains_key(other) implies
                opened[other].arguments == reported_arguments(
                started,
                decimal(other as nat),
            ) by {
                lemma_push(events, event, decimal(other as nat));
                if other != index {
                    assert(pending.contains_key(other));
                    if decimal(other as nat) == key {
                        law_decimal_is_injective(other as nat, index as nat);
                    }
                }
            }
        }
    }
    let fed = started + argument_events(fragment);
    let after = fragment_pending(pending, fragment);
    let arguments = text_of(field(fragment.get("function"@), "arguments"@));
    if arguments is Some && arguments->0.len() > 0 {
        let event = EventView::ToolArgumentsDelta { key, delta: arguments->0 };
        assert(fed =~= started.push(event));
        lemma_push(started, event, key);
        assert forall|other: u64| #[trigger] after.contains_key(other) implies
            after[other].arguments == reported_arguments(fed, decimal(other as nat)) by {
            lemma_push(started, event, decimal(other as nat));
            assert(opened.contains_key(other));
            if other != index && decimal(other as nat) == key {
                law_decimal_is_injective(other as nat, index as nat);
            }
        }
    } else {
        assert(fed =~= started);
        assert forall|other: u64| #[trigger] after.contains_key(other) implies
            after[other].arguments == reported_arguments(fed, decimal(other as nat)) by {
            assert(opened.contains_key(other));
            if other == index && arguments is Some {
                assert(opened[other].arguments + arguments->0 =~= opened[other].arguments);
            }
        }
    }
}

proof fn lemma_fragments(
    events: Seq<EventView>,
    pending: Map<u64, ToolCallView>,
    fragments: Seq<JsonView>,
)
    requires
        faithful(events),
        in_step(events, pending),
    ensures
        faithful(events + fragments_events(pending, fragments)),
        in_step(
            events + fragments_events(pending, fragments),
            fragments_pending(pending, fragments),
        ),
    decreases fragments.len(),
{
    if fragments.len() == 0 {
        assert(events + fragments_events(pending, fragments) =~= events);
    } else {
        let rest = fragments.drop_last();
        let before = fragments_pending(pending, rest);
        lemma_fragments(events, pending, rest);
        lemma_fragment(events + fragments_events(pending, rest), before, fragments.last());
        assert(events + fragments_events(pending, fragments) =~= events + fragments_events(
            pending,
            rest,
        ) + start_events(before, fragments.last()) + argument_events(fragments.last()));
    }
}

/// Pending calls stay finitely many.
pub proof fn lemma_fragments_finite(pending: Map<u64, ToolCallView>, fragments: Seq<JsonView>)
    requires
        pending.dom().finite(),
    ensures
        fragments_pending(pending, fragments).dom().finite(),
    decreases fragments.len(),
{
    if fragments.len() > 0 {
        lemma_fragments_finite(pending, fragments.drop_last());
    }
}

/// Among finitely many pending calls one has the least index.
pub proof fn lemma_least(pending: Map<u64, ToolCallView>)
    requires
        pending.dom().finite(),
        pending.dom().len() > 0,
    ensures
        is_least(pending, choose|key: u64| is_least(pending, key)),
    decreases pending.dom().len(),
{
    let some = pending.dom().choose();
    assert(pending.contains_key(some));
    let rest = pending.remove(some);
    assert(rest.dom() =~= pending.dom().remove(some));
    if rest.dom().len() == 0 {
        assert forall|other: u64| pending.contains_key(other) implies some <= other by {
            if other != some {
                assert(rest.dom().contains(other));
                assert(rest.dom() =~= Set::empty());
            }
        }
        assert(is_least(pending, some));
    } else {
        lemma_least(rest);
        let least = choose|key: u64| is_least(rest, key);
        let lower = if some < least {
            some
        } else {
            least
        };
        assert forall|other: u64| pending.contains_key(other) implies lower <= other by {
            if other != some {
                assert(rest.contains_key(other));
            }
        }
        assert(rest.contains_key(least));
        assert(is_least(pending, lower));
    }
}

proof fn lemma_flush(events: Seq<EventView>, pending: Map<u64, ToolCallView>)
    requires
        pending.dom().finite(),
        faithful(events),
        in_step(events, pending),
    ensures
        faithful(events + flush_events(pending)),
    decreases pending.dom().len(),
{
    if pending.dom().len() == 0 {
        assert(events + flush_events(pending) =~= events);
    } else {
        lemma_least(pending);
        let least = choose|key: u64| is_least(pending, key);
        let rest = pending.remove(least);
        assert(rest.dom() =~= pending.dom().remove(least));
        let call = pending[least];
        let closed = events + close_events(least, call);
        assert(faithful(closed) && in_step(closed, rest)) by {
            if call.name.len() > 0 {
                let key = decimal(least as nat);
                let end = EventView::ToolCallEnd { key };
                let ended = events.push(end);
                assert(closed =~= ended.push(EventView::ToolCall(call)));
                lemma_push(events, end, key);
                assert(ended.push(EventView::ToolCall(call)).drop_last() =~= ended);
                assert(pending.contains_key(least));
                assert forall|other: u64| #[trigger] rest.contains_key(other) implies
                    rest[other].arguments == reported_arguments(
                    closed,
                    decimal(other as nat),
                ) by {
                    assert(pending.contains_key(other));
                    lemma_push(events, end, decimal(other as nat));
                    lemma_push(ended, EventView::ToolCall(call), decimal(other as nat));
                }
            } else {
                assert(closed =~= events);
                assert forall|other: u64| #[trigger] rest.contains_key(other) implies
                    rest[other].arguments == reported_arguments(
                    closed,
                    decimal(other as nat),
                ) by {
                    assert(pending.contains_key(other));
                }
            }
        }
        lemma_flush(closed, rest);
        assert(events + flush_events(pending) =~= closed + flush_events(rest));
    }
}

proof fn lemma_concat<A>(
    all: Seq<A>,
    a: Seq<A>,
    b: Seq<A>,
    c: Seq<A>,
    d: Seq<A>,
    e: Seq<A>,
    f: Seq<A>,
)
    ensures
        all + (a + b + c + d + e + f) == all + a + b + c + d + e + f,
{
    assert(all + (a + b + c + d + e + f) =~= all + a + b + c + d + e + f);
}

proof fn lemma_chunk(events: Seq<EventView>, state: DecoderView, chunk: JsonView)
    requires
        state.pending.dom().finite(),
        faithful(events),
        in_step(events, state.pending),
    ensures
        chunk_state(state, chunk).pending.dom().finite(),
        faithful(events + chunk_events(state, chunk)),
        in_step(events + chunk_events(state, chunk), chunk_state(state, chunk).pending),
{
    let delta = delta_of(chunk);
    let a = text_events(text_of(field(delta, "content"@)));
    let b = reasoning_events(text_of(field(delta, "reasoning_content"@)));
    let c = reasoning_events(text_of(field(delta, "reasoning"@)));
    let fragments = fragments_of(chunk);
    let d = fragments_events(state.pending, fragments);
    let arrived = fragments_pending(state.pending, fragments);
    let after = chunk_state(state, chunk).pending;
    let e = if closes_calls(chunk) {
        flush_events(arrived)
    } else {
        Seq::empty()
    };
    let f = usage_events(chunk);
    lemma_passive(events, a, state.pending);
    lemma_passive(events + a, b, state.pending);
    lemma_passive(events + a + b, c, state.pending);
    lemma_fragments(events + a + b + c, state.pending, fragments);
    lemma_fragments_finite(state.pending, fragments);
    let gathered = events + a + b + c + d;
    if closes_calls(chunk) {
        lemma_flush(gathered, arrived);
    } else {
        assert(gathered + e =~= gathered);
    }
    lemma_passive(gathered + e, f, after);
    lemma_concat(events, a, b, c, d, e, f);
    assert(chunk_events(state, chunk) == a + b + c + d + e + f);
}

pub proof fn lemma_stream(chunks: Seq<JsonView>)
    ensures
        stream_state(chunks).pending.dom().finite(),
        faithful(stream_events(chunks)),
        in_step(stream_events(chunks), stream_state(chunks).pending),
    decreases chunks.len(),
{
    if chunks.len() > 0 {
        lemma_stream(chunks.drop_last());
        lemma_chunk(
            stream_events(chunks.drop_last()),
            stream_state(chunks.drop_last()),
            chunks.last(),
        );
    }
}

/// Over a whole stream, up to its end, every call is handed out right after its end event, has
/// a name, and carries exactly the arguments that were streamed for it.
pub proof fn law_calls_carry_what_was_streamed(chunks: Seq<JsonView>)
    ensures
        faithful(stream_events(chunks) + flush_events(stream_state(chunks).pending)),
{
    lemma_stream(chunks);
    lemma_flush(stream_events(chunks), stream_state(chunks).pending);
}

/// At any point of a stream, a call that is still arriving holds exactly the arguments that were
/// streamed for it so far.
pub proof fn law_pending_calls_hold_what_was_streamed(chunks: Seq<JsonView>, index: u64)
    requires
        stream_state(chunks).pending.contains_key(index),
    ensures
        stream_state(chunks).pending[index].arguments == reported_arguments(
            stream_events(chunks),
            decimal(index as nat),
        ),
{
    lemma_stream(chunks);
}

/// The text that events report, joined.
pub open spec fn reported_text(events: Seq<EventView>) -> Seq<char>
    decreases events.len(),
{
    if events.len() == 0 {
        Seq::empty()
    } else {
        let before = reported_text(events.drop_last());
        match events.last() {
            EventView::TextDelta(text) => before + text,
            _ => before,
        }
    }
}

/// The reasoning that events report, joined.
pub open spec fn reported_reasoning(events: Seq<EventView>) -> Seq<char>
    decreases events.len(),
{
    if events.len() == 0 {
        Seq::empty()
    } else {
        let before = reported_reasoning(events.drop_last());
        match events.last() {
            EventView::ReasoningDelta(text) => before + text,
            _ => before,
        }
    }
}

/// A text that may be missing, as nothing where it is.
pub open spec fn or_nothing(text: Option<Seq<char>>) -> Seq<char> {
    match text {
        Some(text) => text,
        None => Seq::empty(),
    }
}

/// The text that a model writes over chunks.
pub open spec fn written_text(chunks: Seq<JsonView>) -> Seq<char>
    decreases chunks.len(),
{
    if chunks.len() == 0 {
        Seq::empty()
    } else {
        written_text(chunks.drop_last()) + or_nothing(
            text_of(field(delta_of(chunks.last()), "content"@)),
        )
    }
}

/// The reasoning that a model writes over chunks, under either of its two names.
pub open spec fn written_reasoning(chunks: Seq<JsonView>) -> Seq<char>
    decreases chunks.len(),
{
    if chunks.len() == 0 {
        Seq::empty()
    } else {
        written_reasoning(chunks.drop_last()) + or_nothing(
            text_of(field(delta_of(chunks.last()), "reasoning_content"@)),
        ) + or_nothing(text_of(field(delta_of(chunks.last()), "reasoning"@)))
    }
}

proof fn lemma_reported_concat(a: Seq<EventView>, b: Seq<EventView>)
    ensures
        reported_text(a + b) == reported_text(a) + reported_text(b),
        reported_reasoning(a + b) == reported_reasoning(a) + reported_reasoning(b),
    decreases b.len(),
{
    if b.len() == 0 {
        assert(a + b =~= a);
        assert(reported_text(a) + reported_text(b) =~= reported_text(a));
        assert(reported_reasoning(a) + reported_reasoning(b) =~= reported_reasoning(a));
    } else {
        lemma_reported_concat(a, b.drop_last());
        assert((a + b).drop_last() =~= a + b.drop_last());
        assert((a + b).last() == b.last());
        let text = reported_text(b.drop_last());
        let reasoning = reported_reasoning(b.drop_last());
        match b.last() {
            EventView::TextDelta(more) => {
                assert(reported_text(a) + (text + more) =~= reported_text(a) + text + more);
            },
            EventView::ReasoningDelta(more) => {
                assert(reported_reasoning(a) + (reasoning + more) =~= reported_reasoning(a)
                    + reasoning + more);
            },
            _ => {},
        }
    }
}

/// Whether no event reports text or reasoning.
spec fn wordless(events: Seq<EventView>) -> bool {
    forall|k: int|
        0 <= k < events.len() ==> !(#[trigger] events[k] is TextDelta)
            && !(events[k] is ReasoningDelta)
}

proof fn lemma_wordless(events: Seq<EventView>)
    requires
        wordless(events),
    ensures
        reported_text(events) == Seq::<char>::empty(),
        reported_reasoning(events) == Seq::<char>::empty(),
    decreases events.len(),
{
    if events.len() > 0 {
        let rest = events.drop_last();
        assert(forall|k: int| 0 <= k < rest.len() ==> #[trigger] rest[k] == events[k]);
        lemma_wordless(rest);
        assert(events.last() == events[events.len() - 1]);
    }
}

proof fn lemma_fragments_wordless(pending: Map<u64, ToolCallView>, fragments: Seq<JsonView>)
    ensures
        wordless(fragments_events(pending, fragments)),
    decreases fragments.len(),
{
    if fragments.len() > 0 {
        lemma_fragments_wordless(pending, fragments.drop_last());
    }
}

proof fn lemma_flush_wordless(pending: Map<u64, ToolCallView>)
    requires
        pending.dom().finite(),
    ensures
        wordless(flush_events(pending)),
    decreases pending.dom().len(),
{
    if pending.dom().len() > 0 {
        lemma_least(pending);
        let least = choose|key: u64| is_least(pending, key);
        let rest = pending.remove(least);
        assert(rest.dom() =~= pending.dom().remove(least));
        lemma_flush_wordless(rest);
    }
}

/// A single event of text, where there is any, reports exactly it.
proof fn lemma_reported_once(text: Option<Seq<char>>)
    ensures
        reported_text(text_events(text)) == or_nothing(text),
        reported_reasoning(text_events(text)) == Seq::<char>::empty(),
        reported_text(reasoning_events(text)) == Seq::<char>::empty(),
        reported_reasoning(reasoning_events(text)) == or_nothing(text),
{
    let none = Seq::<EventView>::empty();
    match text {
        Some(text) => {
            let said = seq![EventView::TextDelta(text)];
            let thought = seq![EventView::ReasoningDelta(text)];
            assert(said.drop_last() =~= none && thought.drop_last() =~= none);
            assert(reported_text(none) =~= Seq::empty());
            assert(reported_reasoning(none) =~= Seq::empty());
            assert(Seq::<char>::empty() + text =~= text);
            if text.len() == 0 {
                assert(text =~= Seq::empty());
            }
        },
        None => {},
    }
}

/// Over a whole stream, up to its end, the text and the reasoning that are reported are what the
/// model wrote, whole and in order.
pub proof fn law_words_arrive_whole(chunks: Seq<JsonView>)
    ensures
        reported_text(stream_events(chunks) + flush_events(stream_state(chunks).pending))
            == written_text(chunks),
        reported_reasoning(stream_events(chunks) + flush_events(stream_state(chunks).pending))
            == written_reasoning(chunks),
{
    lemma_words(chunks);
    lemma_stream(chunks);
    let last = flush_events(stream_state(chunks).pending);
    lemma_flush_wordless(stream_state(chunks).pending);
    lemma_wordless(last);
    lemma_reported_concat(stream_events(chunks), last);
    assert(written_text(chunks) + reported_text(last) =~= written_text(chunks));
    assert(written_reasoning(chunks) + reported_reasoning(last) =~= written_reasoning(chunks));
}

proof fn lemma_words(chunks: Seq<JsonView>)
    ensures
        reported_text(stream_events(chunks)) == written_text(chunks),
        reported_reasoning(stream_events(chunks)) == written_reasoning(chunks),
    decreases chunks.len(),
{
    if chunks.len() > 0 {
        let rest = chunks.drop_last();
        let state = stream_state(rest);
        lemma_words(rest);
        lemma_stream(rest);
        lemma_chunk_words(state, chunks.last());
        lemma_reported_concat(stream_events(rest), chunk_events(state, chunks.last()));
        let delta = delta_of(chunks.last());
        let first = or_nothing(text_of(field(delta, "reasoning_content"@)));
        let second = or_nothing(text_of(field(delta, "reasoning"@)));
        assert(written_reasoning(rest) + (first + second) =~= written_reasoning(rest) + first
            + second);
    }
}

proof fn lemma_chunk_words(state: DecoderView, chunk: JsonView)
    requires
        state.pending.dom().finite(),
    ensures
        reported_text(chunk_events(state, chunk)) == or_nothing(
            text_of(field(delta_of(chunk), "content"@)),
        ),
        reported_reasoning(chunk_events(state, chunk)) == or_nothing(
            text_of(field(delta_of(chunk), "reasoning_content"@)),
        ) + or_nothing(text_of(field(delta_of(chunk), "reasoning"@))),
{
    let delta = delta_of(chunk);
    let content = text_of(field(delta, "content"@));
    let first = text_of(field(delta, "reasoning_content"@));
    let second = text_of(field(delta, "reasoning"@));
    let a = text_events(content);
    let b = reasoning_events(first);
    let c = reasoning_events(second);
    let fragments = fragments_of(chunk);
    let d = fragments_events(state.pending, fragments);
    let arrived = fragments_pending(state.pending, fragments);
    let e = if closes_calls(chunk) {
        flush_events(arrived)
    } else {
        Seq::empty()
    };
    let f = usage_events(chunk);
    assert(chunk_events(state, chunk) == a + b + c + d + e + f);
    lemma_reported_once(content);
    lemma_reported_once(first);
    lemma_reported_once(second);
    lemma_fragments_wordless(state.pending, fragments);
    lemma_fragments_finite(state.pending, fragments);
    lemma_flush_wordless(arrived);
    lemma_wordless(d);
    lemma_wordless(e);
    lemma_wordless(f);
    lemma_reported_concat(a, b);
    lemma_reported_concat(a + b, c);
    lemma_reported_concat(a + b + c, d);
    lemma_reported_concat(a + b + c + d, e);
    lemma_reported_concat(a + b + c + d + e, f);
    let nothing = Seq::<char>::empty();
    assert(or_nothing(content) + nothing + nothing + nothing + nothing + nothing =~= or_nothing(
        content,
    ));
    assert(nothing + or_nothing(first) + or_nothing(second) + nothing + nothing + nothing
        =~= or_nothing(first) + or_nothing(second));
}

/// Closing the accumulation hands out every pending call that has a name.
pub proof fn law_every_named_call_is_handed_out(pending: Map<u64, ToolCallView>, index: u64)
    requires
        pending.dom().finite(),
        pending.contains_key(index),
        pending[index].name.len() > 0,
    ensures
        flush_events(pending).contains(EventView::ToolCall(pending[index])),
    decreases pending.dom().len(),
{
    lemma_least(pending);
    let least = choose|key: u64| is_least(pending, key);
    let rest = pending.remove(least);
    assert(rest.dom() =~= pending.dom().remove(least));
    let closed = close_events(least, pending[least]);
    let event = EventView::ToolCall(pending[index]);
    if index == least {
        assert((closed + flush_events(rest))[1] == event);
    } else {
        law_every_named_call_is_handed_out(rest, index);
        let at = flush_events(rest).index_of(event);
        assert((closed + flush_events(rest))[closed.len() + at] == event);
    }
}

/// A finish reason of `tool_calls` closes the accumulation: nothing is pending after it, and the
/// end of the stream then has no call left to hand out.
pub proof fn law_tool_calls_close_the_accumulation(state: DecoderView, chunk: JsonView)
    requires
        closes_calls(chunk),
    ensures
        chunk_state(state, chunk).pending == Map::<u64, ToolCallView>::empty(),
        chunk_state(state, chunk).finish == FinishReasonView::ToolCalls,
        flush_events(chunk_state(state, chunk).pending) == Seq::<EventView>::empty(),
{
    assert(chunk_state(state, chunk).pending.dom().len() == 0);
}

/// The stream ends with the finish reason of the last chunk that reported one.
pub proof fn law_end_reports_the_last_reason(chunks: Seq<JsonView>, parsed: Option<JsonView>)
    ensures
        payload_step(stream_state(chunks), "[DONE]"@, parsed) == StepView::Done(
            flush_events(stream_state(chunks).pending),
            stream_state(chunks).finish,
        ),
        forall|last: int|
            0 <= last < chunks.len() && reason_of(#[trigger] chunks[last]) is Some && (forall|
                later: int,
            |
                last < later < chunks.len() ==> reason_of(#[trigger] chunks[later]) is None)
                ==> stream_state(chunks).finish == reason_of(chunks[last])->0,
        (forall|at: int| 0 <= at < chunks.len() ==> reason_of(#[trigger] chunks[at]) is None)
            ==> stream_state(chunks).finish == FinishReasonView::Normal,
    decreases chunks.len(),
{
    if chunks.len() > 0 {
        let rest = chunks.drop_last();
        law_end_reports_the_last_reason(rest, parsed);
        assert(chunks.last() == chunks[chunks.len() - 1]);
        if reason_of(chunks.last()) is None {
            assert(forall|at: int| 0 <= at < rest.len() ==> rest[at] == chunks[at]);
        }
    }
}

/// A payload that is no JSON changes nothing and reports nothing.
pub proof fn law_malformed_payload_is_skipped(state: DecoderView, payload: Seq<char>)
    requires
        payload != "[DONE]"@,
    ensures
        payload_state(state, payload, None) == state,
        payload_step(state, payload, None) == StepView::Malformed,
{
}

/// The sentinel alone ends a stream: any other payload is read as a frame where it is JSON, and is
/// skipped where it is not.
pub proof fn law_sentinel_alone_ends_the_stream(
    state: DecoderView,
    payload: Seq<char>,
    parsed: Option<JsonView>,
)
    ensures
        payload_step(state, payload, parsed) is Done <==> payload == "[DONE]"@,
        payload_step(state, payload, parsed) is Continue <==> payload != "[DONE]"@ && parsed is Some,
        payload_step(state, payload, parsed) is Malformed <==> payload != "[DONE]"@
            && parsed is None,
{
}

/// The chunks among payloads: those that are JSON, in order.
pub open spec fn chunks_of(payloads: Seq<Seq<char>>) -> Seq<JsonView>
    decreases payloads.len(),
{
    if payloads.len() == 0 {
        Seq::empty()
    } else {
        let before = chunks_of(payloads.drop_last());
        match parsed_json(payloads.last()) {
            Some(chunk) => before.push(chunk),
            None => before,
        }
    }
}

/// The state of a stream after its payloads.
pub open spec fn payloads_state(payloads: Seq<Seq<char>>) -> DecoderView
    decreases payloads.len(),
{
    if payloads.len() == 0 {
        initial_state()
    } else {
        let payload = payloads.last();
        payload_state(payloads_state(payloads.drop_last()), payload, parsed_json(payload))
    }
}

/// What a payload reports.
pub open spec fn step_events(step: StepView) -> Seq<EventView> {
    match step {
        StepView::Continue(events) => events,
        StepView::Malformed => Seq::empty(),
        StepView::Done(events, _) => events,
    }
}

/// What a stream reports over its payloads.
pub open spec fn payloads_events(payloads: Seq<Seq<char>>) -> Seq<EventView>
    decreases payloads.len(),
{
    if payloads.len() == 0 {
        Seq::empty()
    } else {
        let payload = payloads.last();
        let before = payloads.drop_last();
        payloads_events(before) + step_events(
            payload_step(payloads_state(before), payload, parsed_json(payload)),
        )
    }
}

/// Whether none of the payloads ends the stream.
pub open spec fn all_before_the_end(payloads: Seq<Seq<char>>) -> bool {
    forall|k: int| 0 <= k < payloads.len() ==> #[trigger] payloads[k] != "[DONE]"@
}

/// Up to its end, a stream of payloads is the stream of the chunks among them: the payloads that
/// are no JSON change neither its state nor what it reports.
pub proof fn law_payloads_are_read_as_chunks(payloads: Seq<Seq<char>>)
    requires
        all_before_the_end(payloads),
    ensures
        payloads_state(payloads) == stream_state(chunks_of(payloads)),
        payloads_events(payloads) == stream_events(chunks_of(payloads)),
    decreases payloads.len(),
{
    if payloads.len() > 0 {
        let rest = payloads.drop_last();
        assert forall|k: int| 0 <= k < rest.len() implies #[trigger] rest[k] != "[DONE]"@ by {
            assert(rest[k] == payloads[k]);
        }
        law_payloads_are_read_as_chunks(rest);
        assert(payloads.last() == payloads[payloads.len() - 1]);
        match parsed_json(payloads.last()) {
            Some(chunk) => {
                assert(chunks_of(rest).push(chunk).drop_last() =~= chunks_of(rest));
            },
            None => {
                assert(payloads_events(payloads) =~= payloads_events(rest));
            },
        }
    }
}

/// A stream of payloads that `[DONE]` ends reports what the chunks among them do and then closes
/// the calls that are left. Its text and its reasoning are what the model wrote, and every call
/// carries exactly the arguments that were streamed for it.
pub proof fn law_payloads_are_reported_whole(payloads: Seq<Seq<char>>)
    requires
        all_before_the_end(payloads),
    ensures
        payloads_events(payloads.push("[DONE]"@)) == stream_events(chunks_of(payloads))
            + flush_events(stream_state(chunks_of(payloads)).pending),
        payload_step(payloads_state(payloads), "[DONE]"@, parsed_json("[DONE]"@))
            == StepView::Done(
            flush_events(stream_state(chunks_of(payloads)).pending),
            stream_state(chunks_of(payloads)).finish,
        ),
        reported_text(payloads_events(payloads.push("[DONE]"@))) == written_text(
            chunks_of(payloads),
        ),
        reported_reasoning(payloads_events(payloads.push("[DONE]"@))) == written_reasoning(
            chunks_of(payloads),
        ),
        faithful(payloads_events(payloads.push("[DONE]"@))),
{
    law_payloads_are_read_as_chunks(payloads);
    assert(payloads.push("[DONE]"@).drop_last() =~= payloads);
    law_words_arrive_whole(chunks_of(payloads));
    law_calls_carry_what_was_streamed(chunks_of(payloads));
}

} // verus!
