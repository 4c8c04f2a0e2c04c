//! The webhook's request, and the replies of the HTTP side.
use crate::db::Via;
use crate::json::{members, no_members, Object};
use crate::mcp::{next_count, ContextView, DeliveryContext, SalonState, StateView};
use crate::text::opt_view;
use vstd::prelude::*;
use vstd::string::StringExecFns;

verus! {

/// Body of a `/notify` request.
///
/// The sender identifier lives in the URL (`?label=<name>`), not in the body.
/// This makes the transport, not the payload, responsible for declaring
/// identity, which prevents a compromised or misbehaving payload (e.g. an
/// LLM-generated body) from spoofing `source`.
pub struct NotifyPayload {
    pub content: String,
    /// Label of the target session. If omitted, the notification is broadcast
    /// to every connected session.
    pub target: Option<String>,
    pub meta: Option<Object>,
    /// Populated by the handler from the `?label=` query parameter.
    /// Not accepted from the request body.
    pub source: Option<String>,
}

/// A payload over characters. No meta is an empty meta.
#[verifier::ext_equal]
pub struct PayloadView {
    pub content: Seq<char>,
    pub target: Option<Seq<char>>,
    pub meta: Map<Seq<char>, Seq<char>>,
    pub source: Option<Seq<char>>,
}

/// What an optional meta object holds.
pub open spec fn meta_members(meta: Option<Object>) -> Map<Seq<char>, Seq<char>> {
    match meta {
        Some(o) => members(o),
        None => no_members(),
    }
}

impl View for NotifyPayload {
    type V = PayloadView;

    open spec fn view(&self) -> PayloadView {
        PayloadView {
            content: self.content@,
            target: opt_view(self.target),
            meta: meta_members(self.meta),
            source: opt_view(self.source),
        }
    }
}

/// Query parameters for `/notify`. `label` is the sender's self-declared name
/// and is required.
pub struct NotifyQuery {
    pub label: String,
}

/// The status that a `/notify` request is refused with, if it is: one that names
/// no sender, or whose body could not be read.
pub open spec fn refusal(named: bool, readable: bool) -> Option<u16> {
    if !named {
        Some(400)
    } else if !readable {
        Some(422)
    } else {
        None
    }
}

/// Checks that a `/notify` request names its sender and has a body that could be
/// read; else it is answered with a status: 400 without a `?label=`, 422 without
/// such a body.
pub fn check_notify(query: Option<NotifyQuery>, payload: Option<NotifyPayload>) -> (r: Result<
    (NotifyQuery, NotifyPayload),
    u16,
>)
    ensures
        match (query, payload) {
            (None, _) => r == Err::<(NotifyQuery, NotifyPayload), u16>(400),
            (Some(_), None) => r == Err::<(NotifyQuery, NotifyPayload), u16>(422),
            (Some(q), Some(p)) => r == Ok::<(NotifyQuery, NotifyPayload), u16>((q, p)),
        },
        refusal(query is Some, payload is Some) == match r {
            Ok(_) => None,
            Err(status) => Some(status),
        },
{
    match query {
        None => Err(400),
        Some(q) => match payload {
            None => Err(422),
            Some(p) => Ok((q, p)),
        },
    }
}

/// What an accepted request is answered, and what is to be delivered for it.
pub struct Accepted {
    pub status: u16,
    pub payload: NotifyPayload,
    pub ctx: DeliveryContext,
}

/// What is delivered for a request under a label: its payload, with the label for
/// its source.
pub open spec fn labelled(payload: PayloadView, label: Seq<char>) -> PayloadView {
    PayloadView { source: Some(label), ..payload }
}

/// Where a request from an address comes from.
pub open spec fn from_address(addr: Seq<char>) -> ContextView {
    ContextView { via: Some(Via::Notify), sender_addr: Some(addr), sender_session_id: None }
}

/// Takes in a `/notify` request from an address. The sender is the query's
/// label, whatever the payload says.
pub fn handle_notify(
    state: &mut SalonState,
    addr: String,
    query: NotifyQuery,
    payload: NotifyPayload,
) -> (r: Accepted)
    ensures
        final(state)@ == (StateView {
            message_count: next_count(old(state).message_count),
            ..old(state)@
        }),
        r.status == 202,
        r.payload@ == (PayloadView { source: Some(query.label@), ..payload@ }),
        r.ctx@ == (ContextView {
            via: Some(Via::Notify),
            sender_addr: Some(addr@),
            sender_session_id: None,
        }),
        r.payload@ == labelled(payload@, query.label@),
        r.ctx@ == from_address(addr@),
{
    state.count_message();
    Accepted {
        status: 202,
        payload: NotifyPayload {
            content: payload.content,
            target: payload.target,
            meta: payload.meta,
            source: Some(query.label),
        },
        ctx: DeliveryContext {
            via: Some(Via::Notify),
            sender_addr: Some(addr),
            sender_session_id: None,
        },
    }
}

/// A reply with a body.
pub struct Reply {
    pub status: u16,
    pub content_type: &'static str,
    pub body: String,
}

/// A reply over characters.
#[verifier::ext_equal]
pub struct ReplyView {
    pub status: u16,
    pub content_type: Seq<char>,
    pub body: Seq<char>,
}

impl View for Reply {
    type V = ReplyView;

    open spec fn view(&self) -> ReplyView {
        ReplyView { status: self.status, content_type: self.content_type@, body: self.body@ }
    }
}

/// A page of HTML.
pub open spec fn html_reply(status: u16, body: Seq<char>) -> ReplyView {
    ReplyView { status, content_type: "text/html; charset=utf-8"@, body }
}

/// A plain text.
pub open spec fn text_reply(status: u16, body: Seq<char>) -> ReplyView {
    ReplyView { status, content_type: "text/plain; charset=utf-8"@, body }
}

/// The reply to a scrape: the exposition, or the error that rendering came to.
pub open spec fn metrics_reply(render: Result<Seq<char>, Seq<char>>) -> ReplyView {
    match render {
        Ok(body) => ReplyView { status: 200, content_type: "text/plain; version=0.0.4"@, body },
        Err(e) => text_reply(500, "metrics encode failed: "@ + e),
    }
}

/// Answers a scrape with the rendered exposition, as the
/// `text/plain; version=0.0.4` that generic Prometheus scrapers accept, or with
/// the error that rendering came to.
pub fn handle_metrics(render: Result<String, String>) -> (r: Reply)
    ensures
        r@ == match render {
            Ok(body) => ReplyView {
                status: 200,
                content_type: "text/plain; version=0.0.4"@,
                body: body@,
            },
            Err(e) => text_reply(500, "metrics encode failed: "@ + e@),
        },
        r@ == metrics_reply(
            match render {
                Ok(body) => Ok(body@),
                Err(e) => Err(e@),
            },
        ),
{
    match render {
        Ok(body) => Reply { status: 200, content_type: "text/plain; version=0.0.4", body },
        Err(e) => {
            let mut body = "metrics encode failed: ".to_owned();
            body.append(e.as_str());
            Reply { status: 500, content_type: "text/plain; charset=utf-8", body }
        },
    }
}

/// A page is told to be HTML, any other reply plain text, both in UTF-8; the
/// status and the body are those that were given.
pub proof fn law_replies_say_what_they_are(status: u16, body: Seq<char>)
    ensures
        html_reply(status, body).status == status,
        html_reply(status, body).content_type == "text/html; charset=utf-8"@,
        html_reply(status, body).body == body,
        text_reply(status, body).status == status,
        text_reply(status, body).content_type == "text/plain; charset=utf-8"@,
        text_reply(status, body).body == body,
{
}

/// A payload without a meta object has an empty one; its other members are its
/// own.
pub proof fn law_payload_is_viewed_whole(p: NotifyPayload)
    ensures
        p@.content == p.content@,
        p.target is None ==> p@.target is None,
        p.target is Some ==> p@.target == Some(p.target->Some_0@),
        p.source is None ==> p@.source is None,
        p.source is Some ==> p@.source == Some(p.source->Some_0@),
        p.meta is None ==> p@.meta == Map::<Seq<char>, Seq<char>>::empty(),
        p.meta is Some ==> p@.meta == members(p.meta->Some_0),
{
}

/// A request is refused where it names no sender, whatever its body, and where its
/// body could not be read; else it is taken.
pub proof fn law_requests_name_their_sender(readable: bool)
    ensures
        refusal(false, readable) == Some(400u16),
        refusal(true, false) == Some(422u16),
        refusal(true, true) is None,
{
}

/// The transport says who sends: whatever source a payload claims, it is delivered
/// under the label of the query, and otherwise as it is; and two payloads that
/// differ in what they claim alone are delivered alike.
pub proof fn law_sender_is_the_label(
    payload: PayloadView,
    claimed: Option<Seq<char>>,
    label: Seq<char>,
    addr: Seq<char>,
)
    ensures
        labelled(payload, label).source == Some(label),
        labelled(payload, label).content == payload.content,
        labelled(payload, label).target == payload.target,
        labelled(payload, label).meta == payload.meta,
        labelled(PayloadView { source: claimed, ..payload }, label) == labelled(payload, label),
        from_address(addr).via == Some(Via::Notify),
        from_address(addr).sender_addr == Some(addr),
        from_address(addr).sender_session_id is None,
{
}

/// A scrape is answered with the exposition as it was rendered, or with the error.
pub proof fn law_scrapes_are_answered(text: Seq<char>)
    ensures
        metrics_reply(Ok(text)).status == 200,
        metrics_reply(Ok(text)).content_type == "text/plain; version=0.0.4"@,
        metrics_reply(Ok(text)).body == text,
        metrics_reply(Err(text)).status == 500,
        metrics_reply(Err(text)).body == "metrics encode failed: "@ + text,
{
}

} // verus!
