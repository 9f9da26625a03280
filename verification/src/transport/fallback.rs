//! From datagrams to a stream, once.
//!
//! A query goes out in a datagram first. Where the response comes back with
//! its truncation bit set, or the query is of a type that only a stream can
//! answer, such as a zone transfer, the same query goes out again over a
//! stream, and what the stream brings is the answer, truncated or not.
//!
//! This module holds the decisions. The caller sends, receives and decodes,
//! and reports each response.

use crate::rfc::message::Message;
use crate::rfc::qtype::QType;
use crate::transport::mode::TransportMode;
use vstd::prelude::*;

verus! {

/// Where a query stands.
#[derive(Debug, Clone, Copy, PartialEq, Eq, Structural)]
pub enum QueryState {
    /// The query went out in a datagram; its response is awaited. The field
    /// says whether the query is of a type that only a stream can answer.
    AwaitingDatagram { requires_stream: bool },
    /// The query went out over a stream; its response is awaited.
    AwaitingStream,
    /// The response was handed to the caller.
    Done,
}

/// What the caller does next.
#[derive(Debug, Clone, Copy, PartialEq, Eq, Structural)]
pub enum QueryAction {
    /// Send the query over a transport of this kind and wait for the
    /// response.
    Send(TransportMode),
    /// Hand the response that was just reported to the caller, as it is.
    Deliver,
}

/// The first step of a query: always a datagram.
pub open spec fn spec_start(requires_stream: bool) -> (QueryState, QueryAction) {
    (QueryState::AwaitingDatagram { requires_stream }, QueryAction::Send(TransportMode::Udp))
}

/// The step that follows a response. A response to a datagram sends the
/// query again, over a stream, where it is truncated or the query needs a
/// stream; every other response is delivered.
pub open spec fn spec_on_response(state: QueryState, truncated: bool) -> (
    QueryState,
    QueryAction,
) {
    match state {
        QueryState::AwaitingDatagram { requires_stream } => if truncated || requires_stream {
            (QueryState::AwaitingStream, QueryAction::Send(TransportMode::Tcp))
        } else {
            (QueryState::Done, QueryAction::Deliver)
        },
        QueryState::AwaitingStream => (QueryState::Done, QueryAction::Deliver),
        QueryState::Done => (QueryState::Done, QueryAction::Deliver),
    }
}

/// The number of times that the query is sent over a stream while the
/// responses come in, one after the other, from `state` on.
pub open spec fn spec_stream_sends(state: QueryState, responses: Seq<bool>) -> nat
    decreases responses.len(),
{
    if responses.len() == 0 {
        0
    } else {
        let step = spec_on_response(state, responses[0]);
        let sent: nat = if step.1 == QueryAction::Send(TransportMode::Tcp) {
            1
        } else {
            0
        };
        sent + spec_stream_sends(step.0, responses.drop_first())
    }
}

/// The state after the responses, one after the other, from `state` on.
pub open spec fn spec_state_after(state: QueryState, responses: Seq<bool>) -> QueryState
    decreases responses.len(),
{
    if responses.len() == 0 {
        state
    } else {
        spec_state_after(spec_on_response(state, responses[0]).0, responses.drop_first())
    }
}

/// Begins a query of the type `qtype`: it goes out in a datagram, and the
/// state keeps whether the type needs a stream.
pub fn start(qtype: QType) -> (step: (QueryState, QueryAction))
    ensures
        step == spec_start(qtype.spec_requires_stream()),
{
    (
        QueryState::AwaitingDatagram { requires_stream: qtype.requires_stream() },
        QueryAction::Send(TransportMode::Udp),
    )
}

/// Decides what follows a response whose truncation bit is `truncated`.
pub fn on_response(state: QueryState, truncated: bool) -> (step: (QueryState, QueryAction))
    ensures
        step == spec_on_response(state, truncated),
{
    match state {
        QueryState::AwaitingDatagram { requires_stream } => if truncated || requires_stream {
            (QueryState::AwaitingStream, QueryAction::Send(TransportMode::Tcp))
        } else {
            (QueryState::Done, QueryAction::Deliver)
        },
        QueryState::AwaitingStream => (QueryState::Done, QueryAction::Deliver),
        QueryState::Done => (QueryState::Done, QueryAction::Deliver),
    }
}

/// Decides what follows the response `response`, by its truncation bit.
pub fn on_message(state: QueryState, response: &Message) -> (step: (QueryState, QueryAction))
    ensures
        step == spec_on_response(state, response.header.flags.bitflags.truncation),
{
    on_response(state, response.is_truncated())
}

/// Whatever the responses are, the query goes over a stream at most once
/// after it began, and not again once it has gone there.
pub proof fn lemma_single_fallback(state: QueryState, responses: Seq<bool>)
    ensures
        spec_stream_sends(state, responses) <= 1,
        !(state is AwaitingDatagram) ==> spec_stream_sends(state, responses) == 0,
    decreases responses.len(),
{
    if responses.len() > 0 {
        lemma_single_fallback(spec_on_response(state, responses[0]).0, responses.drop_first());
    }
}

/// A truncated response to a datagram sends the query over a stream, and the
/// response that the stream brings is delivered, truncated or not.
pub proof fn lemma_second_truncation_is_delivered(requires_stream: bool, truncated_again: bool)
    ensures
        spec_on_response(QueryState::AwaitingDatagram { requires_stream }, true) == (
            QueryState::AwaitingStream,
            QueryAction::Send(TransportMode::Tcp),
        ),
        spec_on_response(QueryState::AwaitingStream, truncated_again) == (
            QueryState::Done,
            QueryAction::Deliver,
        ),
        spec_stream_sends(
            QueryState::AwaitingDatagram { requires_stream },
            seq![true, truncated_again],
        ) == 1,
        spec_state_after(
            QueryState::AwaitingDatagram { requires_stream },
            seq![true, truncated_again],
        ) == QueryState::Done,
{
    let responses = seq![true, truncated_again];
    let rest = responses.drop_first();
    assert(rest =~= seq![truncated_again]);
    assert(rest.drop_first() =~= Seq::<bool>::empty());
    assert(spec_stream_sends(QueryState::Done, rest.drop_first()) == 0);
    assert(spec_stream_sends(QueryState::AwaitingStream, rest) == 0);
    assert(spec_state_after(QueryState::Done, rest.drop_first()) == QueryState::Done);
    assert(spec_state_after(QueryState::AwaitingStream, rest) == QueryState::Done);
}

/// A query of a type that only a stream can answer goes over the stream
/// after its datagram, whatever the datagram brought, and a query of any
/// other type whose response is whole is answered by the datagram.
pub proof fn lemma_stream_when_needed(truncated: bool)
    ensures
        spec_on_response(spec_start(true).0, truncated) == (
            QueryState::AwaitingStream,
            QueryAction::Send(TransportMode::Tcp),
        ),
        spec_on_response(spec_start(false).0, false) == (QueryState::Done, QueryAction::Deliver),
{
}

} // verus!
