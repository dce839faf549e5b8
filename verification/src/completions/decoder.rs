//! Reads the stream: one SSE payload at a time, each turned into events.
//!
//! Tool-call fragments accumulate per stream index until the stream says that the calls are
//! complete, or ends.
use std::collections::BTreeMap;
use vstd::prelude::*;
use vstd::std_specs::iter::IteratorSpec;

use crate::json::{found_view, items_view, parse, parsed_json, Json, JsonView};
use crate::providers::{
    events_view, Event, EventView, FinishReason, FinishReasonView, ToolCall, ToolCallView,
};
use crate::text::{decimal, decimal_text, same_text};

verus! {

/// The state of a stream: the calls that are still arriving, by their stream index, and the
/// finish reason that was last reported.
pub struct Decoder {
    pending: BTreeMap<u64, ToolCall>,
    finish: FinishReason,
}

pub struct DecoderView {
    pub pending: Map<u64, ToolCallView>,
    pub finish: FinishReasonView,
}

impl View for Decoder {
    type V = DecoderView;

    closed spec fn view(&self) -> DecoderView {
        DecoderView {
            pending: self.pending@.map_values(|call: ToolCall| call@),
            finish: self.finish@,
        }
    }
}

/// What a payload comes to.
#[derive(Debug, PartialEq, Eq)]
pub enum Step {
    /// The stream goes on.
    Continue(Vec<Event>),
    /// The payload is no JSON; the stream goes on.
    Malformed,
    /// The stream is complete.
    Done(Vec<Event>, FinishReason),
}

pub enum StepView {
    Continue(Seq<EventView>),
    Malformed,
    Done(Seq<EventView>, FinishReasonView),
}

impl View for Step {
    type V = StepView;

    open spec fn view(&self) -> StepView {
        match self {
            Step::Continue(events) => StepView::Continue(events_view(events@)),
            Step::Malformed => StepView::Malformed,
            Step::Done(events, finish) => StepView::Done(events_view(events@), finish@),
        }
    }
}

/// A field of a document that may be missing.
pub open spec fn field(json: Option<JsonView>, key: Seq<char>) -> Option<JsonView> {
    match json {
        Some(json) => json.get(key),
        None => None,
    }
}

/// The text in a document that may be missing.
pub open spec fn text_of(json: Option<JsonView>) -> Option<Seq<char>> {
    match json {
        Some(json) => json.str(),
        None => None,
    }
}

/// The unsigned number in a document that may be missing; zero where there is none.
pub open spec fn number_of(json: Option<JsonView>) -> u64 {
    match json {
        Some(json) => match json.unsigned() {
            Some(n) => n,
            None => 0,
        },
        None => 0,
    }
}

/// The only choice that is read.
pub open spec fn choice(chunk: JsonView) -> Option<JsonView> {
    match chunk.get("choices"@) {
        Some(choices) => choices.item(0),
        None => None,
    }
}

/// The delta of a chunk, where it is an object.
pub open spec fn delta_of(chunk: JsonView) -> Option<JsonView> {
    match field(choice(chunk), "delta"@) {
        Some(delta) => if delta is Object {
            Some(delta)
        } else {
            None
        },
        None => None,
    }
}

/// Text is reported unless it is empty.
pub open spec fn text_events(text: Option<Seq<char>>) -> Seq<EventView> {
    match text {
        Some(text) => if text.len() > 0 {
            seq![EventView::TextDelta(text)]
        } else {
            Seq::empty()
        },
        None => Seq::empty(),
    }
}

/// Reasoning is reported unless it is empty.
pub open spec fn reasoning_events(text: Option<Seq<char>>) -> Seq<EventView> {
    match text {
        Some(text) => if text.len() > 0 {
            seq![EventView::ReasoningDelta(text)]
        } else {
            Seq::empty()
        },
        None => Seq::empty(),
    }
}

/// The call that a fragment belongs to, as far as it had arrived.
pub open spec fn call_so_far(pending: Map<u64, ToolCallView>, index: u64) -> ToolCallView {
    if pending.contains_key(index) {
        pending[index]
    } else {
        ToolCallView::blank()
    }
}

/// A call with a fragment added: an id replaces the id, a name and arguments are appended.
pub open spec fn call_with(call: ToolCallView, fragment: JsonView) -> ToolCallView {
    let function = fragment.get("function"@);
    ToolCallView {
        id: match text_of(fragment.get("id"@)) {
            Some(id) => id,
            None => call.id,
        },
        name: match text_of(field(function, "name"@)) {
            Some(name) => call.name + name,
            None => call.name,
        },
        arguments: match text_of(field(function, "arguments"@)) {
            Some(arguments) => call.arguments + arguments,
            None => call.arguments,
        },
        signature: call.signature,
    }
}

/// The calls after a fragment.
pub open spec fn fragment_pending(pending: Map<u64, ToolCallView>, fragment: JsonView) -> Map<
    u64,
    ToolCallView,
> {
    let index = number_of(fragment.get("index"@));
    pending.insert(index, call_with(call_so_far(pending, index), fragment))
}

/// A call starts with its first fragment.
pub open spec fn start_events(pending: Map<u64, ToolCallView>, fragment: JsonView) -> Seq<
    EventView,
> {
    let index = number_of(fragment.get("index"@));
    if pending.contains_key(index) {
        Seq::empty()
    } else {
        seq![EventView::ToolCallStart { key: decimal(index as nat) }]
    }
}

/// Arguments are reported as they arrive, unless they are empty.
pub open spec fn argument_events(fragment: JsonView) -> Seq<EventView> {
    let index = number_of(fragment.get("index"@));
    match text_of(field(fragment.get("function"@), "arguments"@)) {
        Some(arguments) => if arguments.len() > 0 {
            seq![
                EventView::ToolArgumentsDelta { key: decimal(index as nat), delta: arguments },
            ]
        } else {
            Seq::empty()
        },
        None => Seq::empty(),
    }
}

/// The calls after fragments, taken in order.
pub open spec fn fragments_pending(
    pending: Map<u64, ToolCallView>,
    fragments: Seq<JsonView>,
) -> Map<u64, ToolCallView>
    decreases fragments.len(),
{
    if fragments.len() == 0 {
        pending
    } else {
        fragment_pending(fragments_pending(pending, fragments.drop_last()), fragments.last())
    }
}

/// What fragments report, taken in order.
pub open spec fn fragments_events(
    pending: Map<u64, ToolCallView>,
    fragments: Seq<JsonView>,
) -> Seq<EventView>
    decreases fragments.len(),
{
    if fragments.len() == 0 {
        Seq::empty()
    } else {
        let before = fragments_pending(pending, fragments.drop_last());
        fragments_events(pending, fragments.drop_last()) + start_events(before, fragments.last())
            + argument_events(fragments.last())
    }
}

/// The fragments of a chunk.
pub open spec fn fragments_of(chunk: JsonView) -> Seq<JsonView> {
    match field(delta_of(chunk), "tool_calls"@) {
        Some(calls) => match calls.array() {
            Some(fragments) => fragments,
            None => Seq::empty(),
        },
        None => Seq::empty(),
    }
}

/// Whether `key` is the least index of a pending call.
pub open spec fn is_least(pending: Map<u64, ToolCallView>, key: u64) -> bool {
    &&& pending.contains_key(key)
    &&& forall|other: u64| pending.contains_key(other) ==> key <= other
}

/// What closing a call reports; a call that never got a name is dropped.
pub open spec fn close_events(index: u64, call: ToolCallView) -> Seq<EventView> {
    if call.name.len() > 0 {
        seq![
            EventView::ToolCallEnd { key: decimal(index as nat) },
            EventView::ToolCall(call),
        ]
    } else {
        Seq::empty()
    }
}

/// What closing all pending calls reports, in the order of their indices.
pub open spec fn flush_events(pending: Map<u64, ToolCallView>) -> Seq<EventView>
    decreases pending.dom().len(),
    when pending.dom().finite()
    via flush_events_decreases
{
    if pending.dom().len() == 0 {
        Seq::empty()
    } else {
        let least = choose|key: u64| is_least(pending, key);
        if pending.contains_key(least) {
            close_events(least, pending[least]) + flush_events(pending.remove(least))
        } else {
            Seq::empty()
        }
    }
}

#[via_fn]
proof fn flush_events_decreases(pending: Map<u64, ToolCallView>) {
    let least = choose|key: u64| is_least(pending, key);
    assert(pending.remove(least).dom() =~= pending.dom().remove(least));
}

/// The finish reason that a word stands for.
pub open spec fn finish_of(reason: Seq<char>) -> FinishReasonView {
    if reason == "stop"@ {
        FinishReasonView::Normal
    } else if reason == "tool_calls"@ {
        FinishReasonView::ToolCalls
    } else if reason == "length"@ {
        FinishReasonView::Length
    } else if reason == "content_filter"@ {
        FinishReasonView::ContentFilter
    } else {
        FinishReasonView::Other(reason)
    }
}

/// The finish reason that a chunk reports.
pub open spec fn reason_of(chunk: JsonView) -> Option<FinishReasonView> {
    match text_of(field(choice(chunk), "finish_reason"@)) {
        Some(reason) => Some(finish_of(reason)),
        None => None,
    }
}

/// Usage is reported where a chunk has it.
pub open spec fn usage_events(chunk: JsonView) -> Seq<EventView> {
    match chunk.get("usage"@) {
        Some(usage) => if usage is Null {
            Seq::empty()
        } else {
            seq![
                EventView::Usage {
                    input: number_of(usage.get("prompt_tokens"@)),
                    output: number_of(usage.get("completion_tokens"@)),
                    cache_read: number_of(
                        field(usage.get("prompt_tokens_details"@), "cached_tokens"@),
                    ),
                },
            ]
        },
        None => Seq::empty(),
    }
}

/// Whether a chunk closes the pending calls.
pub open spec fn closes_calls(chunk: JsonView) -> bool {
    reason_of(chunk) == Some(FinishReasonView::ToolCalls)
}

/// The stream after a chunk.
pub open spec fn chunk_state(state: DecoderView, chunk: JsonView) -> DecoderView {
    DecoderView {
        pending: if closes_calls(chunk) {
            Map::empty()
        } else {
            fragments_pending(state.pending, fragments_of(chunk))
        },
        finish: match reason_of(chunk) {
            Some(finish) => finish,
            None => state.finish,
        },
    }
}

/// What a chunk reports: text, reasoning, call fragments, closed calls, usage, in this order.
pub open spec fn chunk_events(state: DecoderView, chunk: JsonView) -> Seq<EventView> {
    let delta = delta_of(chunk);
    text_events(text_of(field(delta, "content"@))) + reasoning_events(
        text_of(field(delta, "reasoning_content"@)),
    ) + reasoning_events(text_of(field(delta, "reasoning"@))) + fragments_events(
        state.pending,
        fragments_of(chunk),
    ) + (if closes_calls(chunk) {
        flush_events(fragments_pending(state.pending, fragments_of(chunk)))
    } else {
        Seq::empty()
    }) + usage_events(chunk)
}

/// The stream after a payload, given what the payload holds as JSON.
pub open spec fn payload_state(
    state: DecoderView,
    payload: Seq<char>,
    parsed: Option<JsonView>,
) -> DecoderView {
    if payload == "[DONE]"@ {
        DecoderView { pending: Map::empty(), finish: state.finish }
    } else {
        match parsed {
            Some(chunk) => chunk_state(state, chunk),
            None => state,
        }
    }
}

/// What a payload comes to, given what it holds as JSON.
pub open spec fn payload_step(
    state: DecoderView,
    payload: Seq<char>,
    parsed: Option<JsonView>,
) -> StepView {
    if payload == "[DONE]"@ {
        StepView::Done(flush_events(state.pending), state.finish)
    } else {
        match parsed {
            Some(chunk) => StepView::Continue(chunk_events(state, chunk)),
            None => StepView::Malformed,
        }
    }
}

/// The state in which a stream starts.
pub open spec fn initial_state() -> DecoderView {
    DecoderView { pending: Map::empty(), finish: FinishReasonView::Normal }
}

/// Whether keys stand in ascending order, each once.
spec fn ascending(keys: Seq<u64>) -> bool {
    forall|i: int, j: int| 0 <= i < j < keys.len() ==> keys[i] < keys[j]
}

proof fn lemma_ascending(keys: Seq<u64>)
    requires
        vstd::std_specs::btree::increasing_seq(keys),
    ensures
        ascending(keys),
{
    broadcast use vstd::laws_cmp::group_laws_cmp;
    broadcast use vstd::std_specs::btree::group_btree_axioms;

    assert(vstd::laws_cmp::obeys_cmp::<u64>());
    assert forall|i: int, j: int| 0 <= i < j < keys.len() implies keys[i] < keys[j] by {
        assert(vstd::std_specs::cmp::OrdSpec::cmp_spec(&keys[i], &keys[j]) is Less);
    }
}

/// The indices of the pending calls, in ascending order.
fn sorted_keys(pending: &BTreeMap<u64, ToolCall>) -> (keys: Vec<u64>)
    ensures
        ascending(keys@),
        forall|key: u64| keys@.contains(key) == pending@.contains_key(key),
{
    let mut keys: Vec<u64> = Vec::new();
    let entries = pending.iter();
    let ghost listed = entries.remaining().map_values(|entry: (&u64, &ToolCall)| *entry.0);
    proof {
        lemma_ascending(listed);
    }
    for entry in it: entries
        invariant
            it.seq().map_values(|entry: (&u64, &ToolCall)| *entry.0) == listed,
            keys@ == listed.take(it.index() as int),
    {
        keys.push(*entry.0);
        assert(keys@ =~= listed.take(it.index() + 1));
    }
    assert(keys@ =~= listed);
    assert forall|key: u64| listed.contains(key) == pending@.contains_key(key) by {
        if pending@.contains_key(key) {
            let i = entries.remaining().index_of((&key, &pending@[key]));
            assert(listed[i] == key);
        }
        if listed.contains(key) {
            let i = choose|i: int| 0 <= i < listed.len() && listed[i] == key;
            assert(pending@.contains_key(*entries.remaining()[i].0));
        }
    }
    keys
}

/// The text of a field, where it is there and a string.
fn text_field<'a>(json: Option<&'a Json>, key: &str) -> (text: Option<&'a str>)
    ensures
        match text {
            Some(text) => text_of(field(found_view(json), key@)) == Some(text@),
            None => text_of(field(found_view(json), key@)) is None,
        },
{
    match json {
        Some(json) => match json.get(key) {
            Some(value) => value.as_str(),
            None => None,
        },
        None => None,
    }
}

/// The unsigned number in a field; zero where there is none.
fn number_field(json: Option<&Json>, key: &str) -> (number: u64)
    ensures
        number == number_of(field(found_view(json), key@)),
{
    match json {
        Some(json) => match json.get(key) {
            Some(value) => match value.as_u64() {
                Some(n) => n,
                None => 0,
            },
            None => 0,
        },
        None => 0,
    }
}

/// One more event at the end of a list.
proof fn lemma_push_event(events: Seq<Event>, event: Event)
    ensures
        events_view(events.push(event)) == events_view(events).push(event@),
{
    assert(events_view(events.push(event)) =~= events_view(events).push(event@));
}

/// The finish reason that a word stands for.
pub fn finish_reason(reason: &str) -> (finish: FinishReason)
    ensures
        finish@ == finish_of(reason@),
{
    if same_text(reason, "stop") {
        FinishReason::Normal
    } else if same_text(reason, "tool_calls") {
        FinishReason::ToolCalls
    } else if same_text(reason, "length") {
        FinishReason::Length
    } else if same_text(reason, "content_filter") {
        FinishReason::ContentFilter
    } else {
        FinishReason::Other(reason.to_owned())
    }
}

/// Reports the usage of a chunk, where it has one.
fn report_usage(chunk: &Json, events: &mut Vec<Event>)
    ensures
        events_view(final(events)@) == events_view(old(events)@) + usage_events(chunk@),
{
    if let Some(usage) = chunk.get("usage") {
        if !usage.is_null() {
            let event = Event::Usage {
                input: number_field(Some(usage), "prompt_tokens"),
                output: number_field(Some(usage), "completion_tokens"),
                cache_read: number_field(usage.get("prompt_tokens_details"), "cached_tokens"),
            };
            proof {
                lemma_push_event(events@, event);
            }
            events.push(event);
            assert(events_view(events@) =~= events_view(old(events)@) + usage_events(chunk@));
            return;
        }
    }
    assert(events_view(events@) =~= events_view(old(events)@) + usage_events(chunk@));
}

/// Reports the text and the reasoning of a delta.
fn report_text(delta: Option<&Json>, events: &mut Vec<Event>)
    ensures
        events_view(final(events)@) == events_view(old(events)@) + text_events(
            text_of(field(found_view(delta), "content"@)),
        ) + reasoning_events(
            text_of(field(found_view(delta), "reasoning_content"@)),
        ) + reasoning_events(text_of(field(found_view(delta), "reasoning"@))),
{
    let ghost seen = found_view(delta);
    let ghost before = events_view(events@);
    if let Some(text) = text_field(delta, "content") {
        if !text.is_empty() {
            let event = Event::TextDelta(text.to_owned());
            proof {
                lemma_push_event(events@, event);
            }
            events.push(event);
        }
    }
    let ghost first = before + text_events(text_of(field(seen, "content"@)));
    assert(events_view(events@) =~= first);
    if let Some(text) = text_field(delta, "reasoning_content") {
        if !text.is_empty() {
            let event = Event::ReasoningDelta(text.to_owned());
            proof {
                lemma_push_event(events@, event);
            }
            events.push(event);
        }
    }
    let ghost second = first + reasoning_events(text_of(field(seen, "reasoning_content"@)));
    assert(events_view(events@) =~= second);
    if let Some(text) = text_field(delta, "reasoning") {
        if !text.is_empty() {
            let event = Event::ReasoningDelta(text.to_owned());
            proof {
                lemma_push_event(events@, event);
            }
            events.push(event);
        }
    }
    assert(events_view(events@) =~= second + reasoning_events(text_of(field(seen, "reasoning"@))));
}

impl Decoder {
    /// The state in which a stream starts.
    pub fn new() -> (decoder: Decoder)
        ensures
            decoder@ == initial_state(),
    {
        let decoder = Decoder { pending: BTreeMap::new(), finish: FinishReason::Normal };
        assert(decoder@.pending =~= Map::empty());
        decoder
    }

    /// A stream has finitely many pending calls.
    pub proof fn lemma_pending_is_finite(&self)
        ensures
            self@.pending.dom().finite(),
    {
        assert(self.pending@.dom().finite());
        assert(self@.pending.dom() =~= self.pending@.dom());
    }

    /// Adds a fragment to the call that it belongs to.
    fn fragment(&mut self, fragment: &Json, events: &mut Vec<Event>)
        ensures
            final(self)@.pending == fragment_pending(old(self)@.pending, fragment@),
            final(self)@.finish == old(self)@.finish,
            events_view(final(events)@) == events_view(old(events)@) + start_events(
                old(self)@.pending,
                fragment@,
            ) + argument_events(fragment@),
    {
        let ghost before = events_view(events@);
        let ghost pending = self@.pending;
        let index: u64 = number_field(Some(fragment), "index");
        let found = self.pending.remove(&index);
        let mut call = match found {
            Some(call) => call,
            None => {
                let event = Event::ToolCallStart { key: decimal_text(index) };
                proof {
                    lemma_push_event(events@, event);
                }
                events.push(event);
                ToolCall::blank()
            },
        };
        assert(call@ == call_so_far(pending, index));
        let ghost first = before + start_events(pending, fragment@);
        assert(events_view(events@) =~= first);
        if let Some(id) = text_field(Some(fragment), "id") {
            call.id = id.to_owned();
        }
        let function = fragment.get("function");
        if let Some(name) = text_field(function, "name") {
            call.name.append(name);
        }
        if let Some(arguments) = text_field(function, "arguments") {
            call.arguments.append(arguments);
            if !arguments.is_empty() {
                let event = Event::ToolArgumentsDelta {
                    key: decimal_text(index),
                    delta: arguments.to_owned(),
                };
                proof {
                    lemma_push_event(events@, event);
                }
                events.push(event);
            }
        }
        assert(call@ == call_with(call_so_far(pending, index), fragment@));
        self.pending.insert(index, call);
        assert(self@.pending =~= fragment_pending(pending, fragment@));
        assert(events_view(events@) =~= first + argument_events(fragment@));
    }

    /// Closes the pending calls.
    fn flush(&mut self, events: &mut Vec<Event>)
        ensures
            final(self)@.pending == Map::<u64, ToolCallView>::empty(),
            final(self)@.finish == old(self)@.finish,
            events_view(final(events)@) == events_view(old(events)@) + flush_events(
                old(self)@.pending,
            ),
    {
        let ghost before = events_view(events@);
        let ghost all = self@.pending;
        let keys = sorted_keys(&self.pending);
        proof {
            self.lemma_pending_is_finite();
            assert forall|key: u64|
                self@.pending.contains_key(key) == (exists|k: int|
                    0 <= k < keys@.len() && keys@[k] == key) by {
                assert(keys@.contains(key) == self.pending@.contains_key(key));
            }
        }
        let mut i: usize = 0;
        while i < keys.len()
            invariant
                i <= keys@.len(),
                ascending(keys@),
                self@.finish == old(self)@.finish,
                self@.pending.dom().finite(),
                forall|key: u64|
                    self@.pending.contains_key(key) == (exists|k: int|
                        i <= k < keys@.len() && keys@[k] == key),
                events_view(events@) + flush_events(self@.pending) == before + flush_events(all),
            decreases keys.len() - i,
        {
            let index: u64 = keys[i];
            let ghost here = self@.pending;
            let ghost reported = events_view(events@);
            proof {
                assert(is_least(here, index));
                assert forall|key: u64| is_least(here, key) implies key == index by {
                    assert(here.contains_key(index));
                }
            }
            if let Some(call) = self.pending.remove(&index) {
                assert(call@ == here[index]);
                if !call.name.as_str().is_empty() {
                    let end = Event::ToolCallEnd { key: decimal_text(index) };
                    proof {
                        lemma_push_event(events@, end);
                    }
                    events.push(end);
                    let whole = Event::ToolCall(call);
                    proof {
                        lemma_push_event(events@, whole);
                    }
                    events.push(whole);
                }
                assert(events_view(events@) =~= reported + close_events(index, here[index]));
            }
            assert(self@.pending =~= here.remove(index));
            i = i + 1;
            assert(events_view(events@) + flush_events(self@.pending) =~= reported + flush_events(
                here,
            ));
        }
        proof {
            assert(self@.pending =~= Map::empty());
            assert(events_view(events@) =~= before + flush_events(all));
        }
    }

    /// Reads one chunk of the stream.
    pub fn chunk(&mut self, chunk: &Json) -> (events: Vec<Event>)
        ensures
            final(self)@ == chunk_state(old(self)@, chunk@),
            events_view(events@) == chunk_events(old(self)@, chunk@),
    {
        let mut events: Vec<Event> = Vec::new();
        assert(events_view(events@) =~= Seq::empty());
        let choice = match chunk.get("choices") {
            Some(choices) => choices.item(0),
            None => None,
        };
        let delta = match choice {
            Some(choice) => match choice.get("delta") {
                Some(delta) => if delta.is_object() {
                    Some(delta)
                } else {
                    None
                },
                None => None,
            },
            None => None,
        };
        assert(found_view(delta) == delta_of(chunk@));
        report_text(delta, &mut events);
        let ghost spoken = events_view(events@);
        let calls = match delta {
            Some(delta) => match delta.get("tool_calls") {
                Some(calls) => calls.as_array(),
                None => None,
            },
            None => None,
        };
        if let Some(fragments) = calls {
            let ghost said = items_view(fragments@);
            assert(said == fragments_of(chunk@));
            let mut i: usize = 0;
            assert(said.take(0) =~= Seq::empty());
            assert(events_view(events@) =~= spoken + fragments_events(
                self@.pending,
                said.take(0),
            ));
            while i < fragments.len()
                invariant
                    i <= fragments@.len(),
                    said == items_view(fragments@),
                    self@.finish == old(self)@.finish,
                    self@.pending == fragments_pending(old(self)@.pending, said.take(i as int)),
                    events_view(events@) == spoken + fragments_events(
                        old(self)@.pending,
                        said.take(i as int),
                    ),
                decreases fragments.len() - i,
            {
                proof {
                    assert(said.take(i + 1).drop_last() =~= said.take(i as int));
                    assert(said.take(i + 1).last() == fragments@[i as int]@);
                }
                self.fragment(&fragments[i], &mut events);
                i = i + 1;
                assert(events_view(events@) =~= spoken + fragments_events(
                    old(self)@.pending,
                    said.take(i as int),
                ));
            }
            assert(said.take(said.len() as int) =~= said);
        } else {
            assert(fragments_of(chunk@) =~= Seq::empty());
        }
        let ghost gathered = spoken + fragments_events(old(self)@.pending, fragments_of(chunk@));
        assert(events_view(events@) =~= gathered);
        let ghost arrived = self@.pending;
        if let Some(reason) = text_field(choice, "finish_reason") {
            let finish = finish_reason(reason);
            let closes = matches!(finish, FinishReason::ToolCalls);
            self.finish = finish;
            if closes {
                self.flush(&mut events);
            }
        }
        assert(events_view(events@) =~= gathered + (if closes_calls(chunk@) {
            flush_events(arrived)
        } else {
            Seq::empty()
        }));
        report_usage(chunk, &mut events);
        assert(events_view(events@) =~= chunk_events(old(self)@, chunk@));
        events
    }

    /// Reads one SSE payload: the end of the stream, a chunk, or what is no JSON.
    pub fn payload(&mut self, payload: &str) -> (step: Step)
        ensures
            final(self)@ == payload_state(old(self)@, payload@, parsed_json(payload@)),
            step@ == payload_step(old(self)@, payload@, parsed_json(payload@)),
    {
        if same_text(payload, "[DONE]") {
            let mut events: Vec<Event> = Vec::new();
            assert(events_view(events@) =~= Seq::empty());
            self.flush(&mut events);
            assert(events_view(events@) =~= flush_events(old(self)@.pending));
            return Step::Done(events, self.finish.clone());
        }
        match parse(payload) {
            Some(chunk) => Step::Continue(self.chunk(&chunk)),
            None => Step::Malformed,
        }
    }
}

} // verus!
