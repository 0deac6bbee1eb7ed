//! How the broker serves one connection.
use crate::broker::{handled, BrokerView};
use crate::clock::Reading;
use crate::process::RequestControl;
use crate::protocol::{ErrorCode, Request, RequestView, Response, ResponseView, ServerPreamble};
use vstd::prelude::*;

verus! {

/// Where the service of a connection stands.
#[derive(Clone, Copy, Debug, PartialEq, Eq, Structural)]
pub enum Service {
    /// The first request is to be read.
    FirstRequest,
    /// The first request went to the executor, and its answer is to be sent.
    Unwarned,
    /// The user was warned, and the request is to be read again.
    SecondRequest,
    /// The request went to the executor, and its client is watched.
    Monitored,
    /// The broker is to stop.
    Stopping,
    /// The connection is done.
    Closed,
}

/// A request to start whose user was not warned yet.
pub open spec fn is_unwarned_start(request: RequestView) -> bool {
    request matches RequestView::Start { warning_shown, .. } && !warning_shown
}

/// A request to start whose user was warned.
pub open spec fn is_warned_start(request: RequestView) -> bool {
    request matches RequestView::Start { warning_shown, .. } && warning_shown
}

/// What a connection is for, by its first bytes.
pub fn begin_service(preamble: ServerPreamble) -> (service: Service)
    ensures
        service == (match preamble {
            ServerPreamble::Stop => Service::Stopping,
            ServerPreamble::Normal => Service::FirstRequest,
            ServerPreamble::Incompatible => Service::Closed,
        }),
        service == begun_as(preamble),
{
    match preamble {
        ServerPreamble::Stop => Service::Stopping,
        ServerPreamble::Normal => Service::FirstRequest,
        ServerPreamble::Incompatible => Service::Closed,
    }
}

impl Service {
    /// What follows a request that was read.
    pub open spec fn requested(self, request: RequestView) -> Service {
        match self {
            Service::FirstRequest => if is_unwarned_start(request) {
                Service::Unwarned
            } else {
                Service::Monitored
            },
            Service::SecondRequest => if is_warned_start(request) {
                Service::Monitored
            } else {
                Service::Closed
            },
            _ => self,
        }
    }

    /// What follows an answer that was sent. Only a client that has yet to
    /// warn its user may ask again.
    pub open spec fn answered(self, response: ResponseView) -> Service {
        if self == Service::Unwarned && response is NeedWarning {
            Service::SecondRequest
        } else {
            Service::Closed
        }
    }

    /// Takes in a request that was read.
    pub fn request(&mut self, request: &Request) -> (result: Result<(), &'static str>)
        requires
            *old(self) == Service::FirstRequest || *old(self) == Service::SecondRequest,
        ensures
            *final(self) == old(self).requested(request@),
            result is Err <==> *final(self) == Service::Closed,
            result matches Err(message) ==> message@ == "expected warned start request"@,
    {
        let (unwarned, warned) = match request {
            Request::Start { warning_shown, .. } => (!*warning_shown, *warning_shown),
            _ => (false, false),
        };
        match *self {
            Service::FirstRequest => {
                *self = if unwarned {
                    Service::Unwarned
                } else {
                    Service::Monitored
                };
                Ok(())
            },
            _ => {
                if warned {
                    *self = Service::Monitored;
                    Ok(())
                } else {
                    *self = Service::Closed;
                    Err("expected warned start request")
                }
            },
        }
    }

    /// Takes in an answer that was sent.
    pub fn answer(&mut self, response: &Response)
        requires
            *old(self) == Service::Unwarned || *old(self) == Service::Monitored,
        ensures
            *final(self) == old(self).answered(response@),
    {
        let need_warning = matches!(response, Response::NeedWarning);
        *self = if *self == Service::Unwarned && need_warning {
            Service::SecondRequest
        } else {
            Service::Closed
        };
    }
}

/// What handing a request to the executor came to.
#[derive(Clone, Copy, Debug, PartialEq, Eq, Structural)]
pub enum Submitted {
    Queued,
    Full,
    Disconnected,
}

/// What follows: the executor's answer is awaited, or the client is told that
/// the queue is full, or the connection fails.
pub fn submit(submitted: Submitted) -> (answer: Result<Option<Response>, &'static str>)
    ensures
        match submitted {
            Submitted::Queued => answer matches Ok(answer) && answer is None,
            Submitted::Full => answer matches Ok(Some(response)) && response@
                == ResponseView::Error(ErrorCode::QueueFull),
            Submitted::Disconnected => answer matches Err(message) && message@
                == "broker actor stopped"@,
        },
        answer is Ok <==> is_taken(submitted),
        answer matches Ok(answer) ==> answer_at_once(submitted) == (match answer {
            Some(response) => Some(response@),
            None => None,
        }),
{
    match submitted {
        Submitted::Queued => Ok(None),
        Submitted::Full => Ok(Some(Response::Error(ErrorCode::QueueFull))),
        Submitted::Disconnected => Err("broker actor stopped"),
    }
}

/// The answer to a request that is still queued when the broker stops.
pub fn abandoned_response() -> (response: Response)
    ensures
        response@ == ResponseView::Error(ErrorCode::Operational),
{
    Response::Error(ErrorCode::Operational)
}

/// Only requests that run nothing go to the executor without their client
/// being watched, so no run of `op` goes on unnoticed when its client is lost.
pub proof fn unwatched_request_runs_nothing(
    broker: BrokerView,
    request: RequestView,
    control: RequestControl,
    reading: Reading,
)
    requires
        broker.stage is Idle,
        Service::FirstRequest.requested(request) == Service::Unwarned,
    ensures
        handled(broker, request, control, reading).0.stage is Idle,
        handled(broker, request, control, reading).1 is Reply,
{
}

/// A connection serves one request, but for a start whose user has to be
/// warned first, which comes a second time.
pub proof fn connection_serves_one_request(
    first: RequestView,
    response: ResponseView,
    second: RequestView,
)
    ensures
        ({
            let service = Service::FirstRequest.requested(first);
            let after = service.answered(response);
            &&& after == Service::Closed || after == Service::SecondRequest
            &&& after == Service::SecondRequest ==> is_unwarned_start(first)
                && response is NeedWarning
            &&& after == Service::SecondRequest ==> (after.requested(second) == Service::Monitored
                <==> is_warned_start(second))
        }),
{
}

/// A start request whose user was not warned is served at once and may come
/// again, only as a warned one and only after the broker asked for the warning.
/// Every other request is served with its client being watched, and is the last
/// one of its connection.
pub proof fn requests_are_served_in_turn(request: RequestView, response: ResponseView)
    ensures
        Service::FirstRequest.requested(request) == match request {
            RequestView::Start { warning_shown: false, .. } => Service::Unwarned,
            _ => Service::Monitored,
        },
        Service::SecondRequest.requested(request) == match request {
            RequestView::Start { warning_shown: true, .. } => Service::Monitored,
            _ => Service::Closed,
        },
        Service::Unwarned.answered(response) == match response {
            ResponseView::NeedWarning => Service::SecondRequest,
            _ => Service::Closed,
        },
        Service::Monitored.answered(response) == Service::Closed,
        forall|service: Service|
            service != Service::FirstRequest && service != Service::SecondRequest
                ==> #[trigger] service.requested(request) == service,
        forall|service: Service|
            service != Service::Unwarned ==> #[trigger] service.answered(response)
                == Service::Closed,
{
}

/// What a connection is for, by its first bytes.
pub open spec fn begun_as(preamble: ServerPreamble) -> Service {
    match preamble {
        ServerPreamble::Stop => Service::Stopping,
        ServerPreamble::Normal => Service::FirstRequest,
        ServerPreamble::Incompatible => Service::Closed,
    }
}

/// The executor is there, whether or not it has room for the request.
pub open spec fn is_taken(submitted: Submitted) -> bool {
    submitted is Queued || submitted is Full
}

/// The answer to a request that the executor has no room for.
pub open spec fn answer_at_once(submitted: Submitted) -> Option<ResponseView> {
    match submitted {
        Submitted::Full => Some(ResponseView::Error(ErrorCode::QueueFull)),
        _ => None,
    }
}

/// A request is read only on a connection of the broker's own version, and only
/// a stop request stops the broker. A request that finds the queue full is
/// answered so, one that is queued is answered by the executor, and one that
/// finds no executor is not answered.
pub proof fn connections_are_for_one_thing(preamble: ServerPreamble, submitted: Submitted)
    ensures
        begun_as(preamble) == Service::FirstRequest <==> preamble is Normal,
        begun_as(preamble) == Service::Stopping <==> preamble is Stop,
        begun_as(preamble) == Service::Closed <==> preamble is Incompatible,
        is_taken(submitted) <==> !(submitted is Disconnected),
        answer_at_once(submitted) is Some <==> submitted is Full,
        answer_at_once(submitted) matches Some(answer) ==> answer == ResponseView::Error(
            ErrorCode::QueueFull,
        ),
{
}

} // verus!
