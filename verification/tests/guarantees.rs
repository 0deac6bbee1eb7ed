use opp::account::Account;
use opp::broker::{command_response, BrokerActor, BrokerTimings, Step};
use opp::cli::{parse, Action};
use opp::client::{conclude_execution, AUTHORIZATION_REQUIRED};
use opp::clock::Reading;
use opp::environment::ClientContext;
use opp::process::{ProcessOutcome, RequestControl};
use opp::protocol::{decode_request, decode_response, encode_request, encode_response};
use opp::protocol::{Request, Response};
use opp::runtime::EffectiveUser;
use opp::spawn::spawn_plan;

const EXITED: Option<ProcessOutcome> = Some(ProcessOutcome::Exited(0));

const READING: Reading = Reading {
    wall: 1_783_886_400_000_000_000,
    monotonic: 0,
};

fn broker() -> BrokerActor {
    let user = EffectiveUser {
        uid: 501,
        name: String::from("alice"),
        home: b"/Users/alice".to_vec(),
    };
    let op = String::from("/bin/op");
    BrokerActor::new(op, user, BrokerTimings::load(), READING.wall)
}

fn context() -> ClientContext {
    ClientContext {
        cwd: b"/work".to_vec(),
        environment: vec![(b"KEEP".to_vec(), b"1".to_vec())],
    }
}

/// The request of a command line, as the broker reads it.
fn carried_request(command_line: &[&[u8]]) -> Request {
    let words: Vec<Vec<u8>> = command_line.iter().map(|word| word.to_vec()).collect();
    match parse(&words) {
        Ok(Action::Exec {
            timeout, arguments, ..
        }) => {
            let request = Request::Exec {
                account: Account(None),
                timeout_nanos: timeout,
                arguments,
                context: context(),
            };
            decode_request(&encode_request(&request).unwrap()).unwrap()
        }
        other => panic!("{other:?}"),
    }
}

/// The answer, as the client reads it.
fn carried_response(response: &Response) -> Response {
    decode_response(encode_response(response).unwrap()).unwrap()
}

#[test]
fn a_command_line_reaches_op_as_it_was_written() {
    let control = RequestControl::default();
    let mut actor = broker();
    actor.handle(
        Request::Start {
            warning_shown: true,
            account: Account(None),
            op_path: String::from("/bin/op"),
            context: context(),
        },
        &control,
        READING,
    );
    actor.resume(EXITED, &control, READING);
    let command_line: [&[u8]; 6] = [b"exec", b"--", b"item", b"", b"--", b"\xff"];
    actor.handle(carried_request(&command_line), &control, READING);
    actor.resume(EXITED, &control, READING);
    match actor.resume(EXITED, &control, READING) {
        Step::Run(order) => {
            let plan = spawn_plan(
                "/bin/op",
                &order.arguments,
                &order.environment,
                &order.cwd,
            )
            .unwrap();
            let expected: [&[u8]; 5] = [b"/bin/op", b"item", b"", b"--", b"\xff"];
            assert_eq!(plan.arguments, expected);
            assert_eq!(plan.cwd, b"/work".to_vec());
        }
        other => panic!("{other:?}"),
    }
}

#[test]
fn the_end_of_a_command_is_the_end_of_its_caller() {
    for (outcome, code) in [
        (ProcessOutcome::Exited(0), 0),
        (ProcessOutcome::Exited(255), 255),
        (ProcessOutcome::Signaled(9), 137),
        (ProcessOutcome::Cancelled(15), 143),
        (ProcessOutcome::TimedOut, 124),
    ] {
        let response = carried_response(&command_response(Some(outcome)).unwrap());
        assert_eq!(conclude_execution(true, Some(&response), 0).code, code);
    }
}

#[test]
fn an_unauthorized_command_ends_its_caller_with_77() {
    let control = RequestControl::default();
    let command_line: [&[u8]; 3] = [b"exec", b"--", b"whoami"];
    let step = broker().handle(carried_request(&command_line), &control, READING);
    match step {
        Step::Reply(response) => {
            let exit = conclude_execution(true, Some(&carried_response(&response)), 0);
            assert_eq!((exit.code, exit.message), (77, AUTHORIZATION_REQUIRED));
        }
        other => panic!("{other:?}"),
    }
}
