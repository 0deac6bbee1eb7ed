use opp::account::Account;
use opp::connection::{abandoned_response, begin_service, submit, Service, Submitted};
use opp::environment::ClientContext;
use opp::protocol::{ErrorCode, Request, Response, ServerPreamble};

fn start(warning_shown: bool) -> Request {
    Request::Start {
        warning_shown,
        account: Account(None),
        op_path: String::from("/op"),
        context: ClientContext {
            cwd: b"/".to_vec(),
            environment: Vec::new(),
        },
    }
}

fn status() -> Request {
    Request::Status {
        account: Account(None),
    }
}

#[test]
fn connections_begin_by_their_preamble() {
    assert_eq!(
        begin_service(ServerPreamble::Normal),
        Service::FirstRequest
    );
    assert_eq!(begin_service(ServerPreamble::Stop), Service::Stopping);
    assert_eq!(
        begin_service(ServerPreamble::Incompatible),
        Service::Closed
    );
}

#[test]
fn an_unwarned_start_may_come_again() {
    let mut service = Service::FirstRequest;
    assert!(service.request(&start(false)).is_ok());
    assert_eq!(service, Service::Unwarned);
    let mut accepted = service;
    accepted.answer(&Response::Accepted);
    assert_eq!(accepted, Service::Closed);
    service.answer(&Response::NeedWarning);
    assert_eq!(service, Service::SecondRequest);
    for request in [start(false), status()] {
        let mut other = service;
        assert_eq!(
            other.request(&request),
            Err("expected warned start request")
        );
        assert_eq!(other, Service::Closed);
    }
    assert!(service.request(&start(true)).is_ok());
    assert_eq!(service, Service::Monitored);
    service.answer(&Response::NeedWarning);
    assert_eq!(service, Service::Closed);
}

#[test]
fn other_requests_are_watched() {
    for request in [start(true), status()] {
        let mut service = Service::FirstRequest;
        assert!(service.request(&request).is_ok());
        assert_eq!(service, Service::Monitored);
    }
}

#[test]
fn a_full_queue_is_reported() {
    assert_eq!(submit(Submitted::Queued), Ok(None));
    assert_eq!(
        submit(Submitted::Full),
        Ok(Some(Response::Error(ErrorCode::QueueFull)))
    );
    assert_eq!(
        submit(Submitted::Disconnected),
        Err("broker actor stopped")
    );
    assert_eq!(
        abandoned_response(),
        Response::Error(ErrorCode::Operational)
    );
}
