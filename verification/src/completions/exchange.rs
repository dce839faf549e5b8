//! The exchange that opens a stream: one request, and at most one retry.
//!
//! A validation error over an optional field is recoverable: the field is dropped and the
//! request is sent once more. A rejected request has generated no content, so that is safe.
use vstd::prelude::*;

use super::rejected::{mark_reasoning_rejected, model_key, RejectedModels};
use super::request::{base_json, body_json, effort_sent, request_body};
use crate::json::{
    law_removed_field_is_gone, lemma_lookup_filter, lemma_lookup_push, lookup, other_than, Json,
    JsonView,
};
use crate::providers::{Model, ModelView, Request, RequestView};
use crate::text::{
    ascii_lowercase, contains_text, law_occurrence_is_a_cut, occurs_in, to_ascii_lowercase,
};

verus! {

/// What to do with a response.
#[derive(Debug, Clone, Copy, PartialEq, Eq, Structural)]
pub enum OnStatus {
    /// Read its text and ask whether the request can be repaired.
    Inspect,
    /// Stream it if it is a success, and report it as an error if it is not.
    Conclude,
}

/// What to do about a rejected request.
#[derive(Debug, Clone, Copy, PartialEq, Eq, Structural)]
pub enum OnRejection {
    /// Send the repaired body.
    Resend,
    /// Report the rejection as an error.
    Fail,
}

/// Whether a status is a validation error.
pub open spec fn validation_error(status: u16) -> bool {
    status == 400 || status == 422
}

/// Whether an error text blames the usage option. Strict gateways name the field.
pub open spec fn blames_usage(text: Seq<char>) -> bool {
    occurs_in("stream_options"@, ascii_lowercase(text))
}

/// Whether an error text blames the effort: it names the field, or says that the model's
/// thinking cannot be tuned.
pub open spec fn blames_effort(text: Seq<char>) -> bool {
    ||| occurs_in("reasoning"@, ascii_lowercase(text))
    ||| occurs_in("thinking"@, ascii_lowercase(text))
}

/// Whether the repair drops the usage option.
pub open spec fn drops_usage(body: JsonView, text: Seq<char>) -> bool {
    blames_usage(text) && body.get("stream_options"@) is Some
}

/// Whether the repair drops the effort.
pub open spec fn drops_effort(body: JsonView, text: Seq<char>) -> bool {
    blames_effort(text) && body.get("reasoning_effort"@) is Some
}

/// The body without the optional fields that the error text blames.
pub open spec fn repaired(body: JsonView, text: Seq<char>) -> JsonView {
    let first = if drops_usage(body, text) {
        body.without("stream_options"@)
    } else {
        body
    };
    if drops_effort(body, text) {
        first.without("reasoning_effort"@)
    } else {
        first
    }
}

/// A body after its repair, and which fields were dropped.
pub struct Repair {
    pub body: Json,
    pub usage_dropped: bool,
    pub effort_dropped: bool,
}

/// Drops the optional fields that an error text blames.
pub fn repair(body: Json, text: &str) -> (repair: Repair)
    ensures
        repair.body@ == repaired(body@, text@),
        repair.usage_dropped == drops_usage(body@, text@),
        repair.effort_dropped == drops_effort(body@, text@),
{
    let lower = to_ascii_lowercase(text);
    let usage_dropped = contains_text(lower.as_str(), "stream_options") && body.get(
        "stream_options",
    ).is_some();
    let effort_dropped = body.get("reasoning_effort").is_some() && (contains_text(
        lower.as_str(),
        "reasoning",
    ) || contains_text(lower.as_str(), "thinking"));
    let mut body = body;
    if usage_dropped {
        body = body.without("stream_options");
    }
    if effort_dropped {
        body = body.without("reasoning_effort");
    }
    Repair { body, usage_dropped, effort_dropped }
}

/// The exchange so far: the body to send, and whether it is the repaired one.
pub struct Exchange {
    body: Json,
    retried: bool,
}

pub struct ExchangeView {
    pub body: JsonView,
    pub retried: bool,
}

impl View for Exchange {
    type V = ExchangeView;

    closed spec fn view(&self) -> ExchangeView {
        ExchangeView { body: self.body@, retried: self.retried }
    }
}

/// What a response status asks for, on the first request and on the retry.
pub open spec fn on_status_of(retried: bool, status: u16) -> OnStatus {
    if !retried && validation_error(status) {
        OnStatus::Inspect
    } else {
        OnStatus::Conclude
    }
}

/// What a rejection with this text asks for.
pub open spec fn on_rejection_of(body: JsonView, text: Seq<char>) -> OnRejection {
    if drops_usage(body, text) || drops_effort(body, text) {
        OnRejection::Resend
    } else {
        OnRejection::Fail
    }
}

/// The remembered models after a rejection with this text.
pub open spec fn remembered_after(
    body: JsonView,
    text: Seq<char>,
    model: ModelView,
    rejected: Set<Seq<char>>,
) -> Set<Seq<char>> {
    if drops_effort(body, text) {
        rejected.insert(model_key(model))
    } else {
        rejected
    }
}

impl Exchange {
    /// The exchange for a request, before anything is sent.
    pub fn new(request: &Request, rejected: &RejectedModels) -> (exchange: Exchange)
        ensures
            exchange@ == (ExchangeView { body: body_json(request@, rejected@), retried: false }),
    {
        Exchange { body: request_body(request, rejected), retried: false }
    }

    /// The body to send.
    pub fn body(&self) -> (body: &Json)
        ensures
            body@ == self@.body,
    {
        &self.body
    }

    /// What to do with a response of this status.
    pub fn on_status(&self, status: u16) -> (next: OnStatus)
        ensures
            next == on_status_of(self@.retried, status),
    {
        if !self.retried && (status == 400 || status == 422) {
            OnStatus::Inspect
        } else {
            OnStatus::Conclude
        }
    }

    /// What to do about a validation error with this text. The declared effort level being wrong
    /// for a model is remembered.
    pub fn on_rejection(
        &mut self,
        text: &str,
        model: &Model,
        rejected: &mut RejectedModels,
    ) -> (next: OnRejection)
        requires
            !old(self)@.retried,
        ensures
            final(self)@.body == repaired(old(self)@.body, text@),
            final(self)@.retried == (next is Resend),
            next == on_rejection_of(old(self)@.body, text@),
            final(rejected)@ == remembered_after(
                old(self)@.body,
                text@,
                model@,
                old(rejected)@,
            ),
            next is Resend <==> drops_usage(old(self)@.body, text@) || drops_effort(
                old(self)@.body,
                text@,
            ),
            final(rejected)@ == (if drops_effort(old(self)@.body, text@) {
                old(rejected)@.insert(model_key(model@))
            } else {
                old(rejected)@
            }),
            old(self)@.body.get("reasoning_effort"@) is Some && mentions_effort(text@) ==> {
                &&& next is Resend
                &&& final(self)@.body.get("reasoning_effort"@) is None
                &&& final(rejected)@.contains(model@.provider + "/"@ + model@.id)
            },
            old(self)@.body.get("stream_options"@) is Some && mentions(
                text@,
                "stream_options"@,
            ) ==> next is Resend && final(self)@.body.get("stream_options"@) is None,
    {
        proof {
            law_rejections_are_answered(
                self@.body,
                text@,
                model@,
                rejected@,
                Seq::empty(),
            );
        }
        let mut body = Json::Null;
        std::mem::swap(&mut body, &mut self.body);
        let repair = repair(body, text);
        self.body = repair.body;
        if repair.effort_dropped {
            mark_reasoning_rejected(rejected, model);
        }
        if repair.usage_dropped || repair.effort_dropped {
            self.retried = true;
            OnRejection::Resend
        } else {
            OnRejection::Fail
        }
    }
}

/// The names of the body's fields are told apart.
proof fn lemma_field_names()
    ensures
        "model"@ != "reasoning_effort"@,
        "messages"@ != "reasoning_effort"@,
        "stream"@ != "reasoning_effort"@,
        "stream_options"@ != "reasoning_effort"@,
        "tools"@ != "reasoning_effort"@,
        "model"@ != "stream_options"@,
        "messages"@ != "stream_options"@,
        "stream"@ != "stream_options"@,
        "tools"@ != "stream_options"@,
{
    reveal_strlit("model");
    reveal_strlit("messages");
    reveal_strlit("stream");
    reveal_strlit("stream_options");
    reveal_strlit("reasoning_effort");
    reveal_strlit("tools");
    assert("model"@.len() == 5);
    assert("messages"@.len() == 8);
    assert("stream"@.len() == 6);
    assert("stream_options"@.len() == 14);
    assert("reasoning_effort"@.len() == 16);
    assert("tools"@.len() == 5);
}

/// A field that is added changes nothing about the fields of other names.
proof fn lemma_with_other(json: JsonView, name: Seq<char>, value: JsonView, key: Seq<char>)
    requires
        json is Object,
    ensures
        name != key ==> json.with(name, value).get(key) == json.get(key),
        name == key && json.get(key) is None ==> json.with(name, value).get(key) == Some(value),
{
    lemma_lookup_push(json->Object_0, name, value, key);
}

proof fn lemma_base_fields(request: RequestView)
    ensures
        base_json(request) is Object,
        base_json(request).get("reasoning_effort"@) is None,
        base_json(request).get("stream_options"@) == Some(
            JsonView::object().with("include_usage"@, JsonView::Bool(true)),
        ),
{
    lemma_field_names();
    let messages = JsonView::Array(
        seq![super::request::system_json(request.system)] + super::request::messages_json(
            request.messages,
        ),
    );
    let options = JsonView::object().with("include_usage"@, JsonView::Bool(true));
    let a = JsonView::object();
    let b = a.with("model"@, JsonView::Str(request.model.id));
    let c = b.with("messages"@, messages);
    let d = c.with("stream"@, JsonView::Bool(true));
    lemma_with_other(a, "model"@, JsonView::Str(request.model.id), "reasoning_effort"@);
    lemma_with_other(b, "messages"@, messages, "reasoning_effort"@);
    lemma_with_other(c, "stream"@, JsonView::Bool(true), "reasoning_effort"@);
    lemma_with_other(d, "stream_options"@, options, "reasoning_effort"@);
    lemma_with_other(a, "model"@, JsonView::Str(request.model.id), "stream_options"@);
    lemma_with_other(b, "messages"@, messages, "stream_options"@);
    lemma_with_other(c, "stream"@, JsonView::Bool(true), "stream_options"@);
    lemma_with_other(d, "stream_options"@, options, "stream_options"@);
}

/// A body asks for the final usage frame, and carries an effort exactly where one is to be sent.
pub proof fn law_body_optional_fields(request: RequestView, rejected: Set<Seq<char>>)
    ensures
        body_json(request, rejected).get("stream_options"@) == Some(
            JsonView::object().with("include_usage"@, JsonView::Bool(true)),
        ),
        body_json(request, rejected).get("reasoning_effort"@) == (match effort_sent(
            request,
            rejected,
        ) {
            Some(effort) => Some(JsonView::Str(effort)),
            None => None,
        }),
{
    lemma_field_names();
    lemma_base_fields(request);
    let base = base_json(request);
    let tools = JsonView::Array(request.tools);
    match effort_sent(request, rejected) {
        Some(effort) => {
            let value = JsonView::Str(effort);
            let with_effort = base.with("reasoning_effort"@, value);
            lemma_with_other(base, "reasoning_effort"@, value, "reasoning_effort"@);
            lemma_with_other(base, "reasoning_effort"@, value, "stream_options"@);
            lemma_with_other(with_effort, "tools"@, tools, "reasoning_effort"@);
            lemma_with_other(with_effort, "tools"@, tools, "stream_options"@);
        },
        None => {
            lemma_with_other(base, "tools"@, tools, "reasoning_effort"@);
            lemma_with_other(base, "tools"@, tools, "stream_options"@);
        },
    }
}

/// A model that is known to reject the knob is never sent it again.
pub proof fn law_rejected_model_gets_no_effort(request: RequestView, rejected: Set<Seq<char>>)
    requires
        rejected.contains(model_key(request.model)),
    ensures
        body_json(request, rejected).get("reasoning_effort"@) is None,
{
    law_body_optional_fields(request, rejected);
}

/// A request without an effort, or with the effort `off`, is sent none.
pub proof fn law_off_is_absence(request: RequestView, rejected: Set<Seq<char>>)
    requires
        request.effort is None || request.effort == Some("off"@),
    ensures
        body_json(request, rejected) == body_json(
            RequestView { effort: None, ..request },
            rejected,
        ),
        body_json(request, rejected).get("reasoning_effort"@) is None,
{
    law_body_optional_fields(request, rejected);
}

/// Taking a name out of an object that got one more field at its end.
proof fn lemma_without_added(
    json: JsonView,
    name: Seq<char>,
    value: JsonView,
    key: Seq<char>,
)
    requires
        json is Object,
    ensures
        name == key ==> json.with(name, value).without(key) == json.without(key),
        name != key ==> json.with(name, value).without(key) == json.without(key).with(name, value),
{
    reveal(Seq::filter);
    let fields = json->Object_0;
    assert(fields.push((name, value)).drop_last() =~= fields);
}

proof fn lemma_without_absent(fields: Seq<(Seq<char>, JsonView)>, key: Seq<char>)
    requires
        lookup(fields, key) is None,
    ensures
        fields.filter(other_than(key)) == fields,
    decreases fields.len(),
{
    reveal(Seq::filter);
    if fields.len() > 0 {
        let rest = fields.drop_last();
        let last = fields.last();
        assert(rest.push(last) =~= fields);
        lemma_lookup_push(rest, last.0, last.1, key);
        lemma_without_absent(rest, key);
    } else {
        assert(fields.filter(other_than(key)) =~= fields);
    }
}

/// Dropping the effort from a body gives the body that is built once the model is remembered:
/// the retry and every later request agree.
pub proof fn law_retry_agrees_with_memory(request: RequestView, rejected: Set<Seq<char>>)
    ensures
        body_json(request, rejected).without("reasoning_effort"@) == body_json(
            request,
            rejected.insert(model_key(request.model)),
        ),
{
    lemma_field_names();
    lemma_base_fields(request);
    let base = base_json(request);
    let tools = JsonView::Array(request.tools);
    let key = "reasoning_effort"@;
    lemma_without_absent(base->Object_0, key);
    match effort_sent(request, rejected) {
        Some(effort) => {
            let value = JsonView::Str(effort);
            lemma_without_added(base, key, value, key);
            lemma_without_added(base.with(key, value), "tools"@, tools, key);
        },
        None => {
            lemma_without_added(base, "tools"@, tools, key);
        },
    }
}

/// A repair touches no field but the two optional ones.
pub proof fn law_repair_keeps_other_fields(body: JsonView, text: Seq<char>, key: Seq<char>)
    requires
        key != "stream_options"@,
        key != "reasoning_effort"@,
    ensures
        repaired(body, text).get(key) == body.get(key),
{
    if body is Object {
        lemma_lookup_filter(body->Object_0, "stream_options"@, key);
        lemma_lookup_filter(body->Object_0, "reasoning_effort"@, key);
        lemma_lookup_filter(
            body.without("stream_options"@)->Object_0,
            "reasoning_effort"@,
            key,
        );
    }
}

/// A repair leaves nothing that the same error text blames: a second one has nothing to drop.
pub proof fn law_repair_is_complete(body: JsonView, text: Seq<char>)
    ensures
        !drops_usage(repaired(body, text), text),
        !drops_effort(repaired(body, text), text),
        repaired(repaired(body, text), text) == repaired(body, text),
{
    lemma_field_names();
    if body is Object {
        let usage = "stream_options"@;
        let effort = "reasoning_effort"@;
        lemma_lookup_filter(body->Object_0, usage, usage);
        lemma_lookup_filter(body->Object_0, usage, effort);
        lemma_lookup_filter(body->Object_0, effort, usage);
        lemma_lookup_filter(body->Object_0, effort, effort);
        lemma_lookup_filter(body.without(usage)->Object_0, effort, usage);
        lemma_lookup_filter(body.without(usage)->Object_0, effort, effort);
    }
}

/// Whether a text says a word somewhere, in whatever case of ASCII.
pub open spec fn mentions(text: Seq<char>, word: Seq<char>) -> bool {
    exists|before: Seq<char>, after: Seq<char>|
        #[trigger] (before + word + after) == ascii_lowercase(text)
}

/// Whether a text says that the model's reasoning, or its thinking, is to blame.
pub open spec fn mentions_effort(text: Seq<char>) -> bool {
    mentions(text, "reasoning"@) || mentions(text, "thinking"@)
}

/// An effort that was sent and is mentioned, whatever else the text says, is dropped, the request
/// is sent again and the model is remembered.
pub proof fn law_mentioned_effort_is_dropped(
    body: JsonView,
    text: Seq<char>,
    model: ModelView,
    rejected: Set<Seq<char>>,
)
    requires
        body.get("reasoning_effort"@) is Some,
        mentions_effort(text),
    ensures
        on_rejection_of(body, text) is Resend,
        repaired(body, text).get("reasoning_effort"@) is None,
        remembered_after(body, text, model, rejected) == rejected.insert(
            model.provider + "/"@ + model.id,
        ),
{
    law_rejections_are_answered(body, text, model, rejected, Seq::empty());
}

/// A rejection is answered by sending again exactly where it mentions an optional field that was
/// sent. The fields that it mentions go, every other field stays, and the model is remembered
/// exactly where its effort goes; where nothing goes, nothing changes.
pub proof fn law_rejections_are_answered(
    body: JsonView,
    text: Seq<char>,
    model: ModelView,
    rejected: Set<Seq<char>>,
    key: Seq<char>,
)
    ensures
        ({
            let usage = body.get("stream_options"@) is Some && mentions(text, "stream_options"@);
            let effort = body.get("reasoning_effort"@) is Some && mentions_effort(text);
            let after = repaired(body, text);
            &&& on_rejection_of(body, text) is Resend <==> usage || effort
            &&& after.get("stream_options"@) == (if usage {
                None
            } else {
                body.get("stream_options"@)
            })
            &&& after.get("reasoning_effort"@) == (if effort {
                None
            } else {
                body.get("reasoning_effort"@)
            })
            &&& key != "stream_options"@ && key != "reasoning_effort"@ ==> after.get(key)
                == body.get(key)
            &&& remembered_after(body, text, model, rejected) == (if effort {
                rejected.insert(model.provider + "/"@ + model.id)
            } else {
                rejected
            })
            &&& !usage && !effort ==> after == body
        }),
{
    let lower = ascii_lowercase(text);
    law_occurrence_is_a_cut("stream_options"@, lower);
    law_occurrence_is_a_cut("reasoning"@, lower);
    law_occurrence_is_a_cut("thinking"@, lower);
    lemma_field_names();
    let usage = "stream_options"@;
    let effort = "reasoning_effort"@;
    law_removed_field_is_gone(body, usage, effort);
    law_removed_field_is_gone(body, effort, usage);
    law_removed_field_is_gone(body, usage, key);
    law_removed_field_is_gone(body, effort, key);
    law_removed_field_is_gone(body.without(usage), effort, usage);
    law_removed_field_is_gone(body.without(usage), effort, key);
    reveal_strlit("/");
    assert(model_key(model) =~= model.provider + "/"@ + model.id);
}

/// Once an effort was mentioned and dropped, no later request to that model carries one, and
/// requests to models that are known otherwise are what they were.
pub proof fn law_dropped_effort_stays_away(
    body: JsonView,
    text: Seq<char>,
    model: ModelView,
    rejected: Set<Seq<char>>,
    later: RequestView,
)
    requires
        body.get("reasoning_effort"@) is Some,
        mentions_effort(text),
    ensures
        later.model.provider == model.provider && later.model.id == model.id ==> body_json(
            later,
            remembered_after(body, text, model, rejected),
        ).get("reasoning_effort"@) is None,
        later.model.provider + "/"@ + later.model.id != model.provider + "/"@ + model.id
            ==> body_json(later, remembered_after(body, text, model, rejected)) == body_json(
            later,
            rejected,
        ),
{
    law_mentioned_effort_is_dropped(body, text, model, rejected);
    law_body_optional_fields(later, remembered_after(body, text, model, rejected));
    reveal_strlit("/");
    assert(model_key(later.model) =~= later.model.provider + "/"@ + later.model.id);
}

/// A response is inspected where it is a validation error and answers the first request.
pub proof fn law_first_validation_errors_are_inspected(retried: bool, status: u16)
    ensures
        on_status_of(retried, status) is Inspect <==> !retried && (status == 400 || status
            == 422),
{
}

/// The retry is the last request: whatever its status, it is not inspected for another one.
pub proof fn law_one_retry_at_most(status: u16)
    ensures
        on_status_of(true, status) == OnStatus::Conclude,
{
}

} // verus!
