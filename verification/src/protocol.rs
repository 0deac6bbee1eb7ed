//! The messages between a client and the broker, and the frames that carry
//! them.
use crate::account::Account;
use crate::bytes::{
    be_bytes, be_value, byte_lists, copy_bytes, has_byte, lemma_be_canonical, lemma_be_length,
    lemma_be_round_trip, lemma_capacities, push_be, read_be, stands_at, total_length,
};
use crate::clock::min_int;
use crate::codec::{
    account_at, account_is_read_back, appended, boolean_at, byte_is_read_back, bytes_are_read_back,
    bytes_at, context_at, context_is_read_back, finished, invalid, joined, lemma_account_canonical,
    lemma_byte_canonical, lemma_bytes_canonical, lemma_context_canonical, lemma_parts_stand,
    lemma_string_canonical, number_at, number_is_read_back, string_at, string_is_read_back,
    string_stop, valid_context, valid_entry, written_account, written_bytes, written_context,
    written_count, written_entries, written_list, Decoder, Encoder, Parsed, WireError, Written, MAX_PAYLOAD,
};
use crate::duration::{MAX_TIMEOUT_NANOS, MIN_TIMEOUT_NANOS};
use crate::environment::{ClientContext, ContextView};
use crate::signals::{caller_signal, is_caller_signal};
use vstd::prelude::*;
use vstd::slice::slice_subrange;
use vstd::utf8::encode_utf8;

verus! {

/// The version of the messages in this module.
pub const PROTOCOL_VERSION: u32 = 1;

/// The most arguments that a command is given.
pub const MAX_ARGUMENTS: usize = 256;

/// The most bytes in the arguments of a command, all together.
pub const MAX_ARGUMENT_BYTES: usize = 65_536;

/// The number of bytes in a frame header or a preamble.
pub const HEADER_LENGTH: usize = 8;

pub const REQUEST_START: u8 = 1;

pub const REQUEST_STATUS: u8 = 2;

pub const REQUEST_EXEC: u8 = 3;

pub const EVENT_STREAMS_CLOSED: u8 = 4;

pub const EVENT_CANCEL: u8 = 5;

pub const RESPONSE_OK: u8 = 0x80;

pub const RESPONSE_NEED_WARNING: u8 = 0x81;

pub const RESPONSE_STATUS: u8 = 0x82;

pub const RESPONSE_EXEC: u8 = 0x83;

pub const RESPONSE_ERROR: u8 = 0x84;

/// What a client asks of the broker. The three standard streams of a command
/// travel beside the frame.
#[derive(Debug)]
pub enum Request {
    Start { warning_shown: bool, account: Account, op_path: String, context: ClientContext },
    Status { account: Account },
    Exec { account: Account, timeout_nanos: u64, arguments: Vec<Vec<u8>>, context: ClientContext },
}

/// What a request holds.
pub enum RequestView {
    Start {
        warning_shown: bool,
        account: Option<Seq<char>>,
        op_path: Seq<char>,
        context: ContextView,
    },
    Status { account: Option<Seq<char>> },
    Exec {
        account: Option<Seq<char>>,
        timeout_nanos: u64,
        arguments: Seq<Seq<u8>>,
        context: ContextView,
    },
}

impl View for Request {
    type V = RequestView;

    open spec fn view(&self) -> RequestView {
        match *self {
            Request::Start { warning_shown, account, op_path, context } => RequestView::Start {
                warning_shown,
                account: account@,
                op_path: op_path@,
                context: context@,
            },
            Request::Status { account } => RequestView::Status { account: account@ },
            Request::Exec { account, timeout_nanos, arguments, context } => RequestView::Exec {
                account: account@,
                timeout_nanos,
                arguments: byte_lists(arguments@),
                context: context@,
            },
        }
    }
}

/// Why the broker refused or could not serve a request.
#[derive(Clone, Copy, Debug, PartialEq, Eq, Structural)]
pub enum ErrorCode {
    Operational,
    AuthorizationRequired,
    AuthorizationFailed,
    OpPathMismatch,
    ProcessStart,
    Protocol,
    QueueFull,
    Cancelled,
}

impl ErrorCode {
    /// The code's number on the wire.
    pub open spec fn number(self) -> u8 {
        match self {
            ErrorCode::Operational => 1,
            ErrorCode::AuthorizationRequired => 2,
            ErrorCode::AuthorizationFailed => 3,
            ErrorCode::OpPathMismatch => 4,
            ErrorCode::ProcessStart => 5,
            ErrorCode::Protocol => 6,
            ErrorCode::QueueFull => 7,
            ErrorCode::Cancelled => 8,
        }
    }

    /// The code's number on the wire.
    pub fn code(self) -> (number: u8)
        ensures
            number == self.number(),
    {
        match self {
            ErrorCode::Operational => 1,
            ErrorCode::AuthorizationRequired => 2,
            ErrorCode::AuthorizationFailed => 3,
            ErrorCode::OpPathMismatch => 4,
            ErrorCode::ProcessStart => 5,
            ErrorCode::Protocol => 6,
            ErrorCode::QueueFull => 7,
            ErrorCode::Cancelled => 8,
        }
    }

    /// The code with a number on the wire.
    pub fn try_from(value: u8) -> (code: Result<Self, WireError>)
        ensures
            code is Ok <==> 1 <= value <= 8,
            code matches Ok(code) ==> code.number() == value,
            code matches Err(error) ==> error@ == "unknown protocol error code"@,
    {
        match value {
            1 => Ok(ErrorCode::Operational),
            2 => Ok(ErrorCode::AuthorizationRequired),
            3 => Ok(ErrorCode::AuthorizationFailed),
            4 => Ok(ErrorCode::OpPathMismatch),
            5 => Ok(ErrorCode::ProcessStart),
            6 => Ok(ErrorCode::Protocol),
            7 => Ok(ErrorCode::QueueFull),
            8 => Ok(ErrorCode::Cancelled),
            _ => Err(invalid("unknown protocol error code")),
        }
    }
}

/// What the client tells its user about the end of a command.
#[derive(Clone, Copy, Debug, PartialEq, Eq, Structural)]
pub enum Diagnostic {
    Nothing,
    Timeout,
    Internal,
}

impl Diagnostic {
    /// The diagnostic's number on the wire.
    pub open spec fn number(self) -> u8 {
        match self {
            Diagnostic::Nothing => 0,
            Diagnostic::Timeout => 1,
            Diagnostic::Internal => 2,
        }
    }

    /// The diagnostic's number on the wire.
    pub fn code(self) -> (number: u8)
        ensures
            number == self.number(),
    {
        match self {
            Diagnostic::Nothing => 0,
            Diagnostic::Timeout => 1,
            Diagnostic::Internal => 2,
        }
    }

    /// The diagnostic with a number on the wire.
    pub fn try_from(value: u8) -> (diagnostic: Result<Self, WireError>)
        ensures
            diagnostic is Ok <==> value <= 2,
            diagnostic matches Ok(diagnostic) ==> diagnostic.number() == value,
            diagnostic matches Err(error) ==> error@ == "unknown completion diagnostic"@,
    {
        match value {
            0 => Ok(Diagnostic::Nothing),
            1 => Ok(Diagnostic::Timeout),
            2 => Ok(Diagnostic::Internal),
            _ => Err(invalid("unknown completion diagnostic")),
        }
    }
}

/// What the broker answers.
#[derive(Debug, PartialEq, Eq)]
pub enum Response {
    Accepted,
    NeedWarning,
    Status(Vec<u8>),
    Exec { exit_code: i32, diagnostic: Diagnostic },
    Error(ErrorCode),
}

/// What a response holds.
pub enum ResponseView {
    Accepted,
    NeedWarning,
    Status(Seq<u8>),
    Exec { exit_code: i32, diagnostic: Diagnostic },
    Error(ErrorCode),
}

impl View for Response {
    type V = ResponseView;

    open spec fn view(&self) -> ResponseView {
        match *self {
            Response::Accepted => ResponseView::Accepted,
            Response::NeedWarning => ResponseView::NeedWarning,
            Response::Status(json) => ResponseView::Status(json@),
            Response::Exec { exit_code, diagnostic } => ResponseView::Exec {
                exit_code,
                diagnostic,
            },
            Response::Error(code) => ResponseView::Error(code),
        }
    }
}

/// What a client reports while its command runs.
#[derive(Clone, Copy, Debug, PartialEq, Eq, Structural)]
pub enum ClientEvent {
    StreamsClosed,
    Cancel(i32),
}

/// What a connection is for, by its first bytes.
#[derive(Clone, Copy, Debug, PartialEq, Eq, Structural)]
pub enum ServerPreamble {
    Stop,
    Normal,
    Incompatible,
}

/// A message: its kind, its payload, and how many descriptors go with it.
#[derive(Debug)]
pub struct Frame {
    pub kind: u8,
    pub payload: Vec<u8>,
    pub descriptors: usize,
}

/// The kind of frame that carries a request.
pub open spec fn request_kind(request: RequestView) -> u8 {
    match request {
        RequestView::Start { .. } => REQUEST_START,
        RequestView::Status { .. } => REQUEST_STATUS,
        RequestView::Exec { .. } => REQUEST_EXEC,
    }
}

/// How many descriptors go with a request: the standard streams of a command.
pub open spec fn request_descriptors(request: RequestView) -> nat {
    if request is Exec {
        3
    } else {
        0
    }
}

/// The payload of a request.
pub open spec fn request_payload(request: RequestView) -> Written {
    finished(
        match request {
            RequestView::Start { warning_shown, account, op_path, context } => joined(
                joined(
                    joined(
                        Ok(
                            seq![
                                if warning_shown {
                                    1u8
                                } else {
                                    0u8
                                },
                            ],
                        ),
                        written_account(account),
                    ),
                    written_bytes(encode_utf8(op_path)),
                ),
                written_context(context),
            ),
            RequestView::Status { account } => written_account(account),
            RequestView::Exec { account, timeout_nanos, arguments, context } => joined(
                joined(
                    joined(
                        joined(written_account(account), Ok(be_bytes(timeout_nanos as nat, 8))),
                        written_count(arguments.len(), 2, u16::MAX as nat, "too many arguments"@),
                    ),
                    written_list(arguments),
                ),
                written_context(context),
            ),
        },
    )
}

/// The frame that carries a request.
pub fn encode_request(request: &Request) -> (frame: Result<Frame, WireError>)
    ensures
        match request_payload(request@) {
            Ok(payload) => frame matches Ok(frame) && frame.kind == request_kind(request@)
                && frame.payload@ == payload && frame.descriptors == request_descriptors(request@),
            Err(message) => frame matches Err(error) && error@ == message,
        },
{
    let mut encoder = Encoder::new();
    match request {
        Request::Start { warning_shown, account, op_path, context } => {
            encoder.u8(
                if *warning_shown {
                    1
                } else {
                    0
                },
            );
            match encoder.account(account) {
                Ok(()) => {},
                Err(error) => return Err(error),
            }
            match encoder.string(op_path.as_str()) {
                Ok(()) => {},
                Err(error) => return Err(error),
            }
            match encoder.context(context) {
                Ok(()) => {},
                Err(error) => return Err(error),
            }
            match encoder.finish() {
                Ok(payload) => Ok(Frame { kind: REQUEST_START, payload, descriptors: 0 }),
                Err(error) => Err(error),
            }
        },
        Request::Status { account } => {
            match encoder.account(account) {
                Ok(()) => {},
                Err(error) => return Err(error),
            }
            match encoder.finish() {
                Ok(payload) => Ok(Frame { kind: REQUEST_STATUS, payload, descriptors: 0 }),
                Err(error) => Err(error),
            }
        },
        Request::Exec { account, timeout_nanos, arguments, context } => {
            match encoder.account(account) {
                Ok(()) => {},
                Err(error) => return Err(error),
            }
            encoder.u64(*timeout_nanos);
            if arguments.len() > 0xffff {
                return Err(invalid("too many arguments"));
            }
            encoder.u16(arguments.len() as u16);
            match encode_arguments(&mut encoder, arguments) {
                Ok(()) => {},
                Err(error) => return Err(error),
            }
            match encoder.context(context) {
                Ok(()) => {},
                Err(error) => return Err(error),
            }
            match encoder.finish() {
                Ok(payload) => Ok(Frame { kind: REQUEST_EXEC, payload, descriptors: 3 }),
                Err(error) => Err(error),
            }
        },
    }
}

/// What arguments leave written when one of them is refused: those before it.
pub open spec fn list_left(values: Seq<Seq<u8>>) -> Seq<u8>
    decreases values.len(),
{
    if values.len() == 0 {
        Seq::empty()
    } else {
        match written_list(values.drop_last()) {
            Ok(done) => done,
            Err(_) => list_left(values.drop_last()),
        }
    }
}

/// Writes arguments one after another.
fn encode_arguments(encoder: &mut Encoder, arguments: &Vec<Vec<u8>>) -> (result: Result<
    (),
    WireError,
>)
    ensures
        appended(
            old(encoder)@,
            written_list(byte_lists(arguments@)),
            list_left(byte_lists(arguments@)),
            result,
            final(encoder)@,
        ),
{
    let ghost start = encoder@;
    let ghost all = byte_lists(arguments@);
    let mut index: usize = 0;
    proof {
        assert(all.take(0) =~= Seq::empty());
        assert(start + Seq::<u8>::empty() =~= start);
    }
    while index < arguments.len()
        invariant
            index <= arguments.len(),
            start == old(encoder)@,
            all == byte_lists(arguments@),
            written_list(all.take(index as int)) is Ok,
            encoder@ == start + written_list(all.take(index as int))->Ok_0,
        decreases arguments.len() - index,
    {
        let ghost before = encoder@;
        proof {
            lemma_list_step(all, index as int);
        }
        match encoder.bytes(&arguments[index]) {
            Ok(()) => {},
            Err(error) => {
                proof {
                    lemma_list_failure(all, index as int, error@);
                    assert(encoder@ =~= start + list_left(all));
                }
                return Err(error);
            },
        }
        proof {
            lemma_join(
                start,
                written_list(all.take(index as int))->Ok_0,
                written_bytes(all[index as int])->Ok_0,
            );
        }
        index = index + 1;
    }
    assert(all.take(all.len() as int) =~= all);
    Ok(())
}

/// `count` arguments, one after another, none of which holds NUL.
pub open spec fn arguments_at(bytes: Seq<u8>, at: int, count: nat) -> Parsed<Seq<Seq<u8>>>
    decreases count,
{
    if count == 0 {
        Ok((Seq::empty(), at))
    } else {
        match arguments_at(bytes, at, (count - 1) as nat) {
            Ok((values, next)) => match bytes_at(bytes, next) {
                Ok((value, end)) => if value.contains(0) {
                    Err("argument contains NUL"@)
                } else {
                    Ok((values.push(value), end))
                },
                Err(message) => Err(message),
            },
            Err(message) => Err(message),
        }
    }
}

/// A counted list of arguments, within the limits of a command.
pub open spec fn command_at(bytes: Seq<u8>, at: int) -> Parsed<Seq<Seq<u8>>> {
    match number_at(bytes, at, 2) {
        Ok((count, next)) => if count > MAX_ARGUMENTS {
            Err("too many arguments"@)
        } else {
            match arguments_at(bytes, next, count) {
                Ok((arguments, end)) => if total_length(arguments) > MAX_ARGUMENT_BYTES {
                    Err("argument payload is too large"@)
                } else {
                    Ok((arguments, end))
                },
                Err(message) => Err(message),
            }
        },
        Err(message) => Err(message),
    }
}

/// Where reading `count` arguments stops if one is refused.
pub open spec fn arguments_stop(bytes: Seq<u8>, at: int, count: nat) -> int
    decreases count,
{
    if count == 0 {
        at
    } else {
        match arguments_at(bytes, at, (count - 1) as nat) {
            Ok((_, next)) => string_stop(bytes, next),
            Err(_) => arguments_stop(bytes, at, (count - 1) as nat),
        }
    }
}

/// Where reading a counted list of arguments stops that is refused.
pub open spec fn command_stop(bytes: Seq<u8>, at: int) -> int {
    match number_at(bytes, at, 2) {
        Ok((count, next)) => if count > MAX_ARGUMENTS {
            next
        } else {
            match arguments_at(bytes, next, count) {
                Ok((_, end)) => end,
                Err(_) => arguments_stop(bytes, next, count),
            }
        },
        Err(_) => at,
    }
}

/// The time that a command is given.
pub open spec fn timeout_at(bytes: Seq<u8>, at: int) -> Parsed<u64> {
    match number_at(bytes, at, 8) {
        Ok((timeout, end)) => if MIN_TIMEOUT_NANOS <= timeout <= MAX_TIMEOUT_NANOS {
            Ok((timeout as u64, end))
        } else {
            Err("exec timeout is out of range"@)
        },
        Err(message) => Err(message),
    }
}

/// The fields of a start request.
pub open spec fn start_at(bytes: Seq<u8>) -> Parsed<RequestView> {
    match boolean_at(bytes, 0) {
        Ok((warning_shown, second)) => match account_at(bytes, second) {
            Ok((account, third)) => match string_at(bytes, third) {
                Ok((op_path, fourth)) => match context_at(bytes, fourth) {
                    Ok((context, end)) => Ok(
                        (RequestView::Start { warning_shown, account, op_path, context }, end),
                    ),
                    Err(message) => Err(message),
                },
                Err(message) => Err(message),
            },
            Err(message) => Err(message),
        },
        Err(message) => Err(message),
    }
}

/// The fields of a status request.
pub open spec fn status_at(bytes: Seq<u8>) -> Parsed<RequestView> {
    match account_at(bytes, 0) {
        Ok((account, end)) => Ok((RequestView::Status { account }, end)),
        Err(message) => Err(message),
    }
}

/// The fields of an exec request.
pub open spec fn exec_at(bytes: Seq<u8>) -> Parsed<RequestView> {
    match account_at(bytes, 0) {
        Ok((account, second)) => match timeout_at(bytes, second) {
            Ok((timeout_nanos, third)) => match command_at(bytes, third) {
                Ok((arguments, fourth)) => match context_at(bytes, fourth) {
                    Ok((context, end)) => Ok(
                        (RequestView::Exec { account, timeout_nanos, arguments, context }, end),
                    ),
                    Err(message) => Err(message),
                },
                Err(message) => Err(message),
            },
            Err(message) => Err(message),
        },
        Err(message) => Err(message),
    }
}

/// The request that a frame carries.
pub open spec fn request_of(kind: u8, payload: Seq<u8>, descriptors: nat) -> Result<
    RequestView,
    Seq<char>,
> {
    let parsed = if kind == REQUEST_START || kind == REQUEST_STATUS {
        if descriptors != 0 {
            Err("unexpected descriptors"@)
        } else if kind == REQUEST_START {
            start_at(payload)
        } else {
            status_at(payload)
        }
    } else if kind == REQUEST_EXEC {
        if descriptors != 3 {
            Err("exec requires exactly three descriptors"@)
        } else {
            exec_at(payload)
        }
    } else {
        Err("unknown request kind"@)
    };
    match parsed {
        Ok((request, end)) => if end == payload.len() {
            Ok(request)
        } else {
            Err("trailing protocol data"@)
        },
        Err(message) => Err(message),
    }
}

/// The request that a frame carries.
pub fn decode_request(frame: &Frame) -> (request: Result<Request, WireError>)
    ensures
        match request_of(frame.kind, frame.payload@, frame.descriptors as nat) {
            Ok(view) => request matches Ok(request) && request@ == view,
            Err(message) => request matches Err(error) && error@ == message,
        },
{
    let mut decoder = Decoder::new(frame.payload.as_slice());
    let request = if frame.kind == REQUEST_START {
        match require_no_descriptors(frame.descriptors) {
            Ok(()) => {},
            Err(error) => return Err(error),
        }
        let warning_shown = match decoder.boolean() {
            Ok(value) => value,
            Err(error) => return Err(error),
        };
        let account = match decoder.account() {
            Ok(value) => value,
            Err(error) => return Err(error),
        };
        let op_path = match decoder.string() {
            Ok(value) => value,
            Err(error) => return Err(error),
        };
        let context = match decoder.context() {
            Ok(value) => value,
            Err(error) => return Err(error),
        };
        Request::Start { warning_shown, account, op_path, context }
    } else if frame.kind == REQUEST_STATUS {
        match require_no_descriptors(frame.descriptors) {
            Ok(()) => {},
            Err(error) => return Err(error),
        }
        let account = match decoder.account() {
            Ok(value) => value,
            Err(error) => return Err(error),
        };
        Request::Status { account }
    } else if frame.kind == REQUEST_EXEC {
        if frame.descriptors != 3 {
            return Err(invalid("exec requires exactly three descriptors"));
        }
        let account = match decoder.account() {
            Ok(value) => value,
            Err(error) => return Err(error),
        };
        let timeout_nanos = match decoder.u64() {
            Ok(value) => value,
            Err(error) => return Err(error),
        };
        if timeout_nanos < MIN_TIMEOUT_NANOS || timeout_nanos > MAX_TIMEOUT_NANOS {
            return Err(invalid("exec timeout is out of range"));
        }
        let arguments = match decode_command(&mut decoder) {
            Ok(value) => value,
            Err(error) => return Err(error),
        };
        let context = match decoder.context() {
            Ok(value) => value,
            Err(error) => return Err(error),
        };
        Request::Exec { account, timeout_nanos, arguments, context }
    } else {
        return Err(invalid("unknown request kind"));
    };
    match decoder.end() {
        Ok(()) => Ok(request),
        Err(error) => Err(error),
    }
}

/// Refuses a message that came with descriptors.
fn require_no_descriptors(descriptors: usize) -> (result: Result<(), WireError>)
    ensures
        result is Ok <==> descriptors == 0,
        result matches Err(error) ==> error@ == "unexpected descriptors"@,
{
    if descriptors == 0 {
        Ok(())
    } else {
        Err(invalid("unexpected descriptors"))
    }
}

/// Reads the arguments of a command.
fn decode_command<'a>(decoder: &mut Decoder<'a>) -> (result: Result<Vec<Vec<u8>>, WireError>)
    requires
        old(decoder).wf(),
    ensures
        final(decoder).advanced(
            old(decoder),
            command_at(old(decoder).payload(), old(decoder).at()),
            command_stop(old(decoder).payload(), old(decoder).at()),
            match result {
                Ok(arguments) => Ok(byte_lists(arguments@)),
                Err(error) => Err(error@),
            },
        ),
{
    let ghost payload = decoder.payload();
    let count = match decoder.u16() {
        Ok(count) => count as usize,
        Err(error) => return Err(error),
    };
    if count > MAX_ARGUMENTS {
        return Err(invalid("too many arguments"));
    }
    let ghost start = decoder.at();
    let mut arguments: Vec<Vec<u8>> = Vec::new();
    let mut total: usize = 0;
    let mut index: usize = 0;
    assert(byte_lists(arguments@) =~= Seq::empty());
    while index < count
        invariant
            index <= count,
            payload == old(decoder).payload(),
            decoder.wf(),
            decoder.payload() == payload,
            arguments_at(payload, start, index as nat) == Parsed::Ok(
                (byte_lists(arguments@), decoder.at()),
            ),
            total == min_int(total_length(byte_lists(arguments@)) as int, usize::MAX as int),
            command_at(old(decoder).payload(), old(decoder).at()) == (match arguments_at(
                payload,
                start,
                count as nat,
            ) {
                Ok((values, end)) => if total_length(values) > MAX_ARGUMENT_BYTES {
                    Parsed::Err("argument payload is too large"@)
                } else {
                    Parsed::Ok((values, end))
                },
                Err(message) => Parsed::Err(message),
            }),
            command_stop(old(decoder).payload(), old(decoder).at()) == (match arguments_at(
                payload,
                start,
                count as nat,
            ) {
                Ok((_, end)) => end,
                Err(_) => arguments_stop(payload, start, count as nat),
            }),
        decreases count - index,
    {
        let ghost before = arguments@;
        let argument = match decoder.bytes() {
            Ok(argument) => copy_bytes(argument),
            Err(error) => {
                proof {
                    lemma_arguments_stop(payload, start, (index + 1) as nat, count as nat, error@);
                }
                return Err(error);
            },
        };
        if has_byte(&argument, 0) {
            proof {
                lemma_arguments_stop(
                    payload,
                    start,
                    (index + 1) as nat,
                    count as nat,
                    "argument contains NUL"@,
                );
            }
            return Err(invalid("argument contains NUL"));
        }
        total = total.saturating_add(argument.len());
        arguments.push(argument);
        proof {
            assert(byte_lists(arguments@) =~= byte_lists(before).push(argument@));
            assert(byte_lists(arguments@).drop_last() =~= byte_lists(before));
        }
        index = index + 1;
    }
    if total > MAX_ARGUMENT_BYTES {
        return Err(invalid("argument payload is too large"));
    }
    Ok(arguments)
}

proof fn lemma_arguments_stop(
    bytes: Seq<u8>,
    at: int,
    failed: nat,
    count: nat,
    message: Seq<char>,
)
    requires
        failed <= count,
        arguments_at(bytes, at, failed) == Parsed::<Seq<Seq<u8>>>::Err(message),
    ensures
        arguments_at(bytes, at, count) == Parsed::<Seq<Seq<u8>>>::Err(message),
        arguments_stop(bytes, at, count) == arguments_stop(bytes, at, failed),
    decreases count,
{
    if failed < count {
        lemma_arguments_stop(bytes, at, failed, (count - 1) as nat, message);
    }
}

/// The bits of a signed number, as an unsigned one.
pub open spec fn signed_bits(value: i32) -> nat {
    if value >= 0 {
        value as nat
    } else {
        (value + 0x1_0000_0000) as nat
    }
}

/// A signed number in four bytes, most significant first.
fn signed_bytes(value: i32) -> (bytes: Vec<u8>)
    ensures
        bytes@ == be_bytes(signed_bits(value), 4),
{
    let bits: u64 = if value >= 0 {
        value as u64
    } else {
        (value as i64 + 0x1_0000_0000) as u64
    };
    let mut bytes: Vec<u8> = Vec::new();
    push_be(&mut bytes, bits, 4);
    assert(bytes@ =~= be_bytes(bits as nat, 4));
    bytes
}

/// The signed number in four bytes.
fn signed_value(bytes: &[u8]) -> (value: i32)
    requires
        bytes@.len() == 4,
    ensures
        signed_bits(value) == be_value(bytes@),
{
    proof {
        lemma_be_canonical(bytes@);
        lemma_capacities();
    }
    let bits: u64 = read_be(bytes);
    if bits <= 0x7fff_ffff {
        bits as i32
    } else {
        (bits as i64 - 0x1_0000_0000) as i32
    }
}

/// The kind of frame that carries a response.
pub open spec fn response_kind(response: ResponseView) -> u8 {
    match response {
        ResponseView::Accepted => RESPONSE_OK,
        ResponseView::NeedWarning => RESPONSE_NEED_WARNING,
        ResponseView::Status(_) => RESPONSE_STATUS,
        ResponseView::Exec { .. } => RESPONSE_EXEC,
        ResponseView::Error(_) => RESPONSE_ERROR,
    }
}

/// The payload of a response.
pub open spec fn response_payload(response: ResponseView) -> Written {
    finished(
        Ok(
            match response {
                ResponseView::Accepted => Seq::empty(),
                ResponseView::NeedWarning => Seq::empty(),
                ResponseView::Status(json) => json,
                ResponseView::Exec { exit_code, diagnostic } => be_bytes(
                    signed_bits(exit_code),
                    4,
                ).push(diagnostic.number()),
                ResponseView::Error(code) => seq![code.number()],
            },
        ),
    )
}

/// The frame that carries a response.
pub fn encode_response(response: &Response) -> (frame: Result<Frame, WireError>)
    ensures
        match response_payload(response@) {
            Ok(payload) => frame matches Ok(frame) && frame.kind == response_kind(response@)
                && frame.payload@ == payload && frame.descriptors == 0,
            Err(message) => frame matches Err(error) && error@ == message,
        },
{
    let (kind, payload): (u8, Vec<u8>) = match response {
        Response::Accepted => (RESPONSE_OK, Vec::new()),
        Response::NeedWarning => (RESPONSE_NEED_WARNING, Vec::new()),
        Response::Status(json) => (RESPONSE_STATUS, copy_bytes(json)),
        Response::Exec { exit_code, diagnostic } => {
            let mut payload = signed_bytes(*exit_code);
            payload.push(diagnostic.code());
            (RESPONSE_EXEC, payload)
        },
        Response::Error(code) => {
            let mut payload: Vec<u8> = Vec::new();
            payload.push(code.code());
            assert(payload@ =~= seq![code.number()]);
            (RESPONSE_ERROR, payload)
        },
    };
    if payload.len() > MAX_PAYLOAD {
        return Err(invalid("protocol payload is too large"));
    }
    Ok(Frame { kind, payload, descriptors: 0 })
}

/// The response that a frame carries, as far as `kind` and the length of the
/// payload go together.
pub open spec fn response_of(kind: u8, payload: Seq<u8>, descriptors: nat) -> Result<
    ResponseView,
    Seq<char>,
> {
    if descriptors != 0 {
        Err("unexpected descriptors"@)
    } else if kind == RESPONSE_OK && payload.len() == 0 {
        Ok(ResponseView::Accepted)
    } else if kind == RESPONSE_NEED_WARNING && payload.len() == 0 {
        Ok(ResponseView::NeedWarning)
    } else if kind == RESPONSE_STATUS {
        Ok(ResponseView::Status(payload))
    } else if kind == RESPONSE_EXEC && payload.len() == 5 {
        let exit_code = be_value(payload.take(4));
        if exit_code > 255 {
            Err("invalid command exit code"@)
        } else if payload[4] > 2 {
            Err("unknown completion diagnostic"@)
        } else {
            Ok(
                ResponseView::Exec {
                    exit_code: exit_code as i32,
                    diagnostic: if payload[4] == 0 {
                        Diagnostic::Nothing
                    } else if payload[4] == 1 {
                        Diagnostic::Timeout
                    } else {
                        Diagnostic::Internal
                    },
                },
            )
        }
    } else if kind == RESPONSE_ERROR && payload.len() == 1 {
        if 1 <= payload[0] <= 8 {
            Ok(ResponseView::Error(numbered_code(payload[0])))
        } else {
            Err("unknown protocol error code"@)
        }
    } else {
        Err("invalid response frame"@)
    }
}

/// The error code with a number on the wire.
pub open spec fn numbered_code(number: u8) -> ErrorCode {
    if number == 1 {
        ErrorCode::Operational
    } else if number == 2 {
        ErrorCode::AuthorizationRequired
    } else if number == 3 {
        ErrorCode::AuthorizationFailed
    } else if number == 4 {
        ErrorCode::OpPathMismatch
    } else if number == 5 {
        ErrorCode::ProcessStart
    } else if number == 6 {
        ErrorCode::Protocol
    } else if number == 7 {
        ErrorCode::QueueFull
    } else {
        ErrorCode::Cancelled
    }
}

/// The response that a frame carries.
pub fn decode_response(frame: Frame) -> (response: Result<Response, WireError>)
    ensures
        match response_of(frame.kind, frame.payload@, frame.descriptors as nat) {
            Ok(view) => response matches Ok(response) && response@ == view,
            Err(message) => response matches Err(error) && error@ == message,
        },
{
    match require_no_descriptors(frame.descriptors) {
        Ok(()) => {},
        Err(error) => return Err(error),
    }
    if frame.kind == RESPONSE_OK && frame.payload.len() == 0 {
        Ok(Response::Accepted)
    } else if frame.kind == RESPONSE_NEED_WARNING && frame.payload.len() == 0 {
        Ok(Response::NeedWarning)
    } else if frame.kind == RESPONSE_STATUS {
        Ok(Response::Status(frame.payload))
    } else if frame.kind == RESPONSE_EXEC && frame.payload.len() == 5 {
        let exit_code = signed_value(slice_subrange(frame.payload.as_slice(), 0, 4));
        proof {
            assert(frame.payload@.subrange(0, 4) =~= frame.payload@.take(4));
        }
        if exit_code < 0 || exit_code > 255 {
            return Err(invalid("invalid command exit code"));
        }
        match Diagnostic::try_from(frame.payload[4]) {
            Ok(diagnostic) => Ok(Response::Exec { exit_code, diagnostic }),
            Err(error) => Err(error),
        }
    } else if frame.kind == RESPONSE_ERROR && frame.payload.len() == 1 {
        match ErrorCode::try_from(frame.payload[0]) {
            Ok(code) => Ok(Response::Error(code)),
            Err(error) => Err(error),
        }
    } else {
        Err(invalid("invalid response frame"))
    }
}

/// The frame that carries a client's report.
pub fn encode_client_event(event: ClientEvent) -> (frame: Result<Frame, WireError>)
    ensures
        match event {
            ClientEvent::StreamsClosed => frame matches Ok(frame) && frame.kind
                == EVENT_STREAMS_CLOSED && frame.payload@ == Seq::<u8>::empty()
                && frame.descriptors == 0,
            ClientEvent::Cancel(signal) => if caller_signal(signal) {
                frame matches Ok(frame) && frame.kind == EVENT_CANCEL && frame.payload@ == be_bytes(
                    signed_bits(signal),
                    4,
                ) && frame.descriptors == 0
            } else {
                frame matches Err(error) && error@ == "invalid cancellation signal"@
            },
        },
{
    match event {
        ClientEvent::StreamsClosed => Ok(
            Frame { kind: EVENT_STREAMS_CLOSED, payload: Vec::new(), descriptors: 0 },
        ),
        ClientEvent::Cancel(signal) => {
            if is_caller_signal(signal) {
                Ok(Frame { kind: EVENT_CANCEL, payload: signed_bytes(signal), descriptors: 0 })
            } else {
                Err(invalid("invalid cancellation signal"))
            }
        },
    }
}

/// The report that a frame carries.
pub open spec fn client_event_of(kind: u8, payload: Seq<u8>, descriptors: nat) -> Result<
    ClientEvent,
    Seq<char>,
> {
    if descriptors != 0 {
        Err("unexpected descriptors"@)
    } else if kind == EVENT_STREAMS_CLOSED && payload.len() == 0 {
        Ok(ClientEvent::StreamsClosed)
    } else if kind == EVENT_CANCEL && payload.len() == 4 {
        if be_value(payload) <= i32::MAX && caller_signal(be_value(payload) as i32) {
            Ok(ClientEvent::Cancel(be_value(payload) as i32))
        } else {
            Err("invalid cancellation signal"@)
        }
    } else {
        Err("invalid client event"@)
    }
}

/// The report that a frame carries.
pub fn decode_client_event(frame: &Frame) -> (event: Result<ClientEvent, WireError>)
    ensures
        match client_event_of(frame.kind, frame.payload@, frame.descriptors as nat) {
            Ok(expected) => event matches Ok(event) && event == expected,
            Err(message) => event matches Err(error) && error@ == message,
        },
{
    match require_no_descriptors(frame.descriptors) {
        Ok(()) => {},
        Err(error) => return Err(error),
    }
    if frame.kind == EVENT_STREAMS_CLOSED && frame.payload.len() == 0 {
        Ok(ClientEvent::StreamsClosed)
    } else if frame.kind == EVENT_CANCEL && frame.payload.len() == 4 {
        let signal = signed_value(frame.payload.as_slice());
        if !is_caller_signal(signal) {
            return Err(invalid("invalid cancellation signal"));
        }
        Ok(ClientEvent::Cancel(signal))
    } else {
        Err(invalid("invalid client event"))
    }
}

/// A request that the broker accepts.
pub open spec fn valid_request(request: RequestView) -> bool {
    match request {
        RequestView::Start { context, .. } => valid_context(context),
        RequestView::Status { .. } => true,
        RequestView::Exec { timeout_nanos, arguments, context, .. } => {
            &&& MIN_TIMEOUT_NANOS <= timeout_nanos <= MAX_TIMEOUT_NANOS
            &&& valid_arguments(arguments)
            &&& valid_context(context)
        },
    }
}

/// Arguments that a command can be given, within its limits.
pub open spec fn valid_arguments(arguments: Seq<Seq<u8>>) -> bool {
    &&& arguments.len() <= MAX_ARGUMENTS
    &&& total_length(arguments) <= MAX_ARGUMENT_BYTES
    &&& forall|i: int| 0 <= i < arguments.len() ==> !(#[trigger] arguments[i]).contains(0)
}

/// The broker reads the request that a client wrote: every valid request that
/// fits in a frame comes out as it went in.
pub proof fn request_is_read_back(request: RequestView)
    requires
        valid_request(request),
        request_payload(request) is Ok,
    ensures
        request_of(
            request_kind(request),
            request_payload(request)->Ok_0,
            request_descriptors(request),
        ) == Result::<RequestView, Seq<char>>::Ok(request),
{
    match request {
        RequestView::Start { .. } => lemma_start_read_back(request),
        RequestView::Status { account } => {
            let payload = request_payload(request)->Ok_0;
            assert(payload.subrange(0, payload.len() as int) =~= payload);
            lemma_capacities();
            account_is_read_back(payload, 0, account);
        },
        RequestView::Exec { .. } => lemma_exec_read_back(request),
    }
}

#[verifier::spinoff_prover]
proof fn lemma_start_read_back(request: RequestView)
    requires
        request is Start,
        valid_request(request),
        request_payload(request) is Ok,
    ensures
        start_at(request_payload(request)->Ok_0) == Parsed::<RequestView>::Ok(
            (request, request_payload(request)->Ok_0.len() as int),
        ),
{
    let payload = request_payload(request)->Ok_0;
    let flag: u8 = if request->warning_shown {
        1
    } else {
        0
    };
    let first = seq![flag];
    let second = written_account(request->Start_account)->Ok_0;
    let third = written_bytes(encode_utf8(request->op_path))->Ok_0;
    let fourth = written_context(request->Start_context)->Ok_0;
    assert(payload == first + second + third + fourth);
    assert(stands_at(payload, 0, payload)) by {
        assert(payload.subrange(0, payload.len() as int) =~= payload);
    }
    lemma_capacities();
    lemma_parts_stand(payload, 0, first + second + third, fourth);
    lemma_parts_stand(payload, 0, first + second, third);
    lemma_parts_stand(payload, 0, first, second);
    byte_is_read_back(payload, 0, flag);
    account_is_read_back(payload, 1, request->Start_account);
    string_is_read_back(payload, 1int + second.len(), request->op_path);
    context_is_read_back(payload, 1int + second.len() + third.len(), request->Start_context);
}

/// A counted list of valid arguments is read as it was written.
proof fn lemma_command_read_back(bytes: Seq<u8>, at: int, arguments: Seq<Seq<u8>>)
    requires
        bytes.len() <= usize::MAX,
        valid_arguments(arguments),
        written_list(arguments) is Ok,
        stands_at(bytes, at, be_bytes(arguments.len(), 2) + written_list(arguments)->Ok_0),
    ensures
        command_at(bytes, at) == Parsed::<Seq<Seq<u8>>>::Ok(
            (arguments, at + 2 + written_list(arguments)->Ok_0.len()),
        ),
{
    lemma_capacities();
    lemma_be_length(arguments.len(), 2);
    lemma_parts_stand(bytes, at, be_bytes(arguments.len(), 2), written_list(arguments)->Ok_0);
    number_is_read_back(bytes, at, arguments.len(), 2);
    lemma_arguments_read_back(bytes, at + 2, arguments);
}

#[verifier::spinoff_prover]
proof fn lemma_exec_read_back(request: RequestView)
    requires
        request is Exec,
        valid_request(request),
        request_payload(request) is Ok,
    ensures
        exec_at(request_payload(request)->Ok_0) == Parsed::<RequestView>::Ok(
            (request, request_payload(request)->Ok_0.len() as int),
        ),
{
    let payload = request_payload(request)->Ok_0;
    let timeout = request->timeout_nanos as nat;
    let arguments = request->arguments;
    let first = written_account(request->Exec_account)->Ok_0;
    let second = be_bytes(timeout, 8);
    let count = be_bytes(arguments.len(), 2);
    let list = written_list(arguments)->Ok_0;
    let fourth = written_context(request->Exec_context)->Ok_0;
    lemma_be_length(timeout, 8);
    lemma_be_length(arguments.len(), 2);
    assert(payload == first + second + count + list + fourth);
    lemma_join(first + second, count, list);
    assert(stands_at(payload, 0, payload)) by {
        assert(payload.subrange(0, payload.len() as int) =~= payload);
    }
    lemma_capacities();
    lemma_parts_stand(payload, 0, first + second + (count + list), fourth);
    lemma_parts_stand(payload, 0, first + second, count + list);
    lemma_parts_stand(payload, 0, first, second);
    account_is_read_back(payload, 0, request->Exec_account);
    number_is_read_back(payload, first.len() as int, timeout, 8);
    lemma_command_read_back(payload, first.len() + 8int, arguments);
    context_is_read_back(payload, first.len() + 10int + list.len(), request->Exec_context);
}

/// The broker accepts nothing but what a client writes: each frame that it
/// takes for a request is the one frame that carries that request, and the
/// request is valid.
pub proof fn accepted_request_was_written(kind: u8, payload: Seq<u8>, descriptors: nat)
    requires
        payload.len() <= MAX_PAYLOAD,
        request_of(kind, payload, descriptors) is Ok,
    ensures
        ({
            let request = request_of(kind, payload, descriptors)->Ok_0;
            &&& valid_request(request)
            &&& kind == request_kind(request)
            &&& descriptors == request_descriptors(request)
            &&& request_payload(request) == Written::Ok(payload)
        }),
{
    if kind == REQUEST_START {
        lemma_start_canonical(payload);
    } else if kind == REQUEST_STATUS {
        lemma_account_canonical(payload, 0);
        assert(payload.subrange(0, payload.len() as int) =~= payload);
    } else {
        lemma_exec_canonical(payload);
    }
}

/// The parts of a payload, one after another, are the payload.
proof fn lemma_four_parts(payload: Seq<u8>, second: int, third: int, fourth: int)
    requires
        0 <= second <= third <= fourth <= payload.len(),
    ensures
        payload.subrange(0, second) + payload.subrange(second, third) + payload.subrange(
            third,
            fourth,
        ) + payload.subrange(fourth, payload.len() as int) == payload,
{
}

#[verifier::spinoff_prover]
proof fn lemma_start_canonical(payload: Seq<u8>)
    requires
        payload.len() <= MAX_PAYLOAD,
        start_at(payload) is Ok,
        start_at(payload)->Ok_0.1 == payload.len(),
    ensures
        start_at(payload)->Ok_0.0 is Start,
        valid_request(start_at(payload)->Ok_0.0),
        request_payload(start_at(payload)->Ok_0.0) == Written::Ok(payload),
{
    let end = payload.len() as int;
    lemma_byte_canonical(payload, 0);
    lemma_account_canonical(payload, 1);
    let third = account_at(payload, 1)->Ok_0.1;
    lemma_string_canonical(payload, third);
    let fourth = string_at(payload, third)->Ok_0.1;
    lemma_context_canonical(payload, fourth);
    lemma_four_parts(payload, 1, third, fourth);
    let request = start_at(payload)->Ok_0.0;
    let flag = payload[0];
    assert(flag == if request->warning_shown {
        1u8
    } else {
        0u8
    });
    let head = joined(Written::Ok(seq![flag]), written_account(request->Start_account));
    assert(head == Written::Ok(payload.subrange(0, 1) + payload.subrange(1, third)));
    let most = joined(head, written_bytes(encode_utf8(request->op_path)));
    assert(most == Written::Ok(
        payload.subrange(0, 1) + payload.subrange(1, third) + payload.subrange(third, fourth),
    ));
    assert(joined(most, written_context(request->Start_context)) == Written::Ok(payload));
}

/// Whatever is read as a counted list of arguments is the written form of
/// those arguments, and they are valid.
proof fn lemma_command_canonical(bytes: Seq<u8>, at: int)
    requires
        0 <= at <= bytes.len(),
        command_at(bytes, at) is Ok,
    ensures
        at <= command_at(bytes, at)->Ok_0.1 <= bytes.len(),
        valid_arguments(command_at(bytes, at)->Ok_0.0),
        joined(
            written_count(
                command_at(bytes, at)->Ok_0.0.len(),
                2,
                u16::MAX as nat,
                "too many arguments"@,
            ),
            written_list(command_at(bytes, at)->Ok_0.0),
        ) == Written::Ok(bytes.subrange(at, command_at(bytes, at)->Ok_0.1)),
{
    lemma_capacities();
    let count = bytes.subrange(at, at + 2);
    lemma_be_canonical(count);
    lemma_arguments_canonical(bytes, at + 2, be_value(count));
    let end = command_at(bytes, at)->Ok_0.1;
    assert(count + bytes.subrange(at + 2, end) =~= bytes.subrange(at, end));
}

proof fn lemma_joined_thrice(first: Written, second: Written, third: Written)
    ensures
        joined(joined(first, second), third) == joined(first, joined(second, third)),
{
    if first is Ok && second is Ok && third is Ok {
        lemma_join(first->Ok_0, second->Ok_0, third->Ok_0);
    }
}

#[verifier::spinoff_prover]
proof fn lemma_exec_canonical(payload: Seq<u8>)
    requires
        payload.len() <= MAX_PAYLOAD,
        exec_at(payload) is Ok,
        exec_at(payload)->Ok_0.1 == payload.len(),
    ensures
        exec_at(payload)->Ok_0.0 is Exec,
        valid_request(exec_at(payload)->Ok_0.0),
        request_payload(exec_at(payload)->Ok_0.0) == Written::Ok(payload),
{
    lemma_account_canonical(payload, 0);
    let second = account_at(payload, 0)->Ok_0.1;
    let third = second + 8;
    lemma_be_canonical(payload.subrange(second, third));
    lemma_command_canonical(payload, third);
    let (arguments, fourth) = command_at(payload, third)->Ok_0;
    lemma_context_canonical(payload, fourth);
    lemma_four_parts(payload, second, third, fourth);
    let request = exec_at(payload)->Ok_0.0;
    let head = joined(
        written_account(request->Exec_account),
        Written::Ok(be_bytes(request->timeout_nanos as nat, 8)),
    );
    assert(head == Written::Ok(payload.subrange(0, second) + payload.subrange(second, third)));
    let count = written_count(arguments.len(), 2, u16::MAX as nat, "too many arguments"@);
    lemma_joined_thrice(head, count, written_list(arguments));
    let most = joined(joined(head, count), written_list(arguments));
    assert(most == Written::Ok(
        payload.subrange(0, second) + payload.subrange(second, third) + payload.subrange(
            third,
            fourth,
        ),
    ));
    assert(joined(most, written_context(request->Exec_context)) == Written::Ok(payload));
}

proof fn lemma_arguments_read_back(bytes: Seq<u8>, at: int, values: Seq<Seq<u8>>)
    requires
        bytes.len() <= usize::MAX,
        forall|i: int| 0 <= i < values.len() ==> !(#[trigger] values[i]).contains(0),
        written_list(values) matches Ok(written) && stands_at(bytes, at, written),
    ensures
        arguments_at(bytes, at, values.len()) == Parsed::<Seq<Seq<u8>>>::Ok(
            (values, at + written_list(values)->Ok_0.len()),
        ),
    decreases values.len(),
{
    if values.len() > 0 {
        let rest = values.drop_last();
        let head = written_list(rest)->Ok_0;
        lemma_parts_stand(bytes, at, head, written_bytes(values.last())->Ok_0);
        assert forall|i: int| 0 <= i < rest.len() implies !(#[trigger] rest[i]).contains(0) by {
            assert(rest[i] == values[i]);
        }
        lemma_arguments_read_back(bytes, at, rest);
        bytes_are_read_back(bytes, at + head.len(), values.last());
        assert(!values[values.len() - 1].contains(0));
        assert(rest.push(values.last()) =~= values);
    } else {
        assert(values =~= Seq::empty());
    }
}

proof fn lemma_arguments_canonical(bytes: Seq<u8>, at: int, count: nat)
    requires
        0 <= at <= bytes.len(),
        arguments_at(bytes, at, count) is Ok,
    ensures
        at <= arguments_at(bytes, at, count)->Ok_0.1 <= bytes.len(),
        arguments_at(bytes, at, count)->Ok_0.0.len() == count,
        written_list(arguments_at(bytes, at, count)->Ok_0.0) == Written::Ok(
            bytes.subrange(at, arguments_at(bytes, at, count)->Ok_0.1),
        ),
        forall|i: int|
            0 <= i < count ==> !(#[trigger] arguments_at(bytes, at, count)->Ok_0.0[i]).contains(0),
    decreases count,
{
    let (values, end) = arguments_at(bytes, at, count)->Ok_0;
    if count > 0 {
        lemma_arguments_canonical(bytes, at, (count - 1) as nat);
        let (rest, next) = arguments_at(bytes, at, (count - 1) as nat)->Ok_0;
        lemma_bytes_canonical(bytes, next);
        assert(values.drop_last() =~= rest);
        assert(bytes.subrange(at, next) + bytes.subrange(next, end) =~= bytes.subrange(at, end));
    } else {
        assert(bytes.subrange(at, at) =~= Seq::empty());
    }
}

/// The client reads the response that the broker wrote. The exit code of a
/// command is that of a process: it fits in one byte.
pub proof fn response_is_read_back(response: ResponseView)
    requires
        response_payload(response) is Ok,
        response matches ResponseView::Exec { exit_code, .. } ==> 0 <= exit_code <= 255,
    ensures
        response_of(response_kind(response), response_payload(response)->Ok_0, 0) == Result::<
            ResponseView,
            Seq<char>,
        >::Ok(response),
{
    if let ResponseView::Exec { exit_code, .. } = response {
        lemma_capacities();
        lemma_be_round_trip(exit_code as nat, 4);
        let payload = response_payload(response)->Ok_0;
        assert(payload.take(4) =~= be_bytes(exit_code as nat, 4));
    }
}

/// The broker reads the report that a client wrote, and a client writes no
/// other signal than its callers send.
pub proof fn client_event_is_read_back(signal: i32)
    requires
        caller_signal(signal),
    ensures
        client_event_of(EVENT_STREAMS_CLOSED, Seq::empty(), 0) == Result::<
            ClientEvent,
            Seq<char>,
        >::Ok(ClientEvent::StreamsClosed),
        client_event_of(EVENT_CANCEL, be_bytes(signed_bits(signal), 4), 0) == Result::<
            ClientEvent,
            Seq<char>,
        >::Ok(ClientEvent::Cancel(signal)),
{
    lemma_capacities();
    lemma_be_round_trip(signal as nat, 4);
}

/// The bytes that byte strings take up behind their lengths.
pub open spec fn list_size(values: Seq<Seq<u8>>) -> nat
    decreases values.len(),
{
    if values.len() == 0 {
        0
    } else {
        list_size(values.drop_last()) + 4 + values.last().len()
    }
}

/// The bytes that an environment takes up.
pub open spec fn environment_size(environment: Seq<(Seq<u8>, Seq<u8>)>) -> nat
    decreases environment.len(),
{
    if environment.len() == 0 {
        0
    } else {
        environment_size(environment.drop_last()) + 8 + environment.last().0.len()
            + environment.last().1.len()
    }
}

/// The bytes that an account takes up.
pub open spec fn account_size(account: Option<Seq<char>>) -> nat {
    match account {
        Some(selector) => 5 + encode_utf8(selector).len(),
        None => 1,
    }
}

/// The bytes that a context takes up.
pub open spec fn context_size(context: ContextView) -> nat {
    4 + context.cwd.len() + 4 + environment_size(context.environment)
}

/// The bytes that a request takes up.
pub open spec fn request_size(request: RequestView) -> nat {
    match request {
        RequestView::Start { account, op_path, context, .. } => 1 + account_size(account) + 4
            + encode_utf8(op_path).len() + context_size(context),
        RequestView::Status { account } => account_size(account),
        RequestView::Exec { account, arguments, context, .. } => account_size(account) + 8 + 2
            + list_size(arguments) + context_size(context),
    }
}

proof fn lemma_list_size(values: Seq<Seq<u8>>)
    requires
        list_size(values) <= u32::MAX,
    ensures
        written_list(values) is Ok,
        written_list(values)->Ok_0.len() == list_size(values),
    decreases values.len(),
{
    if values.len() > 0 {
        lemma_list_size(values.drop_last());
        lemma_be_length(values.last().len(), 4);
    }
}

proof fn lemma_environment_size(values: Seq<(Seq<u8>, Seq<u8>)>)
    requires
        environment_size(values) <= u32::MAX,
    ensures
        written_entries(values) is Ok,
        written_entries(values)->Ok_0.len() == environment_size(values),
        8 * values.len() <= environment_size(values),
    decreases values.len(),
{
    if values.len() > 0 {
        lemma_environment_size(values.drop_last());
        lemma_be_length(values.last().0.len(), 4);
        lemma_be_length(values.last().1.len(), 4);
    }
}

proof fn lemma_account_size(account: Option<Seq<char>>)
    requires
        account_size(account) <= u32::MAX,
    ensures
        written_account(account) is Ok,
        written_account(account)->Ok_0.len() == account_size(account),
{
    if let Some(selector) = account {
        lemma_be_length(encode_utf8(selector).len(), 4);
    }
}

proof fn lemma_context_size(context: ContextView)
    requires
        context_size(context) <= u32::MAX,
    ensures
        written_context(context) is Ok,
        written_context(context)->Ok_0.len() == context_size(context),
{
    lemma_environment_size(context.environment);
    lemma_be_length(context.cwd.len(), 4);
    lemma_be_length(context.environment.len(), 4);
}

/// Every request that fits in a frame is written, whatever it holds, with at
/// most two mebibytes; a larger one is refused.
pub proof fn request_that_fits_is_written(request: RequestView)
    requires
        request matches RequestView::Exec { arguments, .. } ==> arguments.len() <= 256,
        request_size(request) <= u32::MAX,
    ensures
        request_payload(request) is Ok <==> request_size(request) <= 2_097_152,
        request_payload(request) matches Ok(payload) ==> payload.len() == request_size(request),
{
    match request {
        RequestView::Start { account, op_path, context, .. } => {
            lemma_account_size(account);
            lemma_be_length(encode_utf8(op_path).len(), 4);
            lemma_context_size(context);
        },
        RequestView::Status { account } => {
            lemma_account_size(account);
        },
        RequestView::Exec { account, timeout_nanos, arguments, context } => {
            lemma_account_size(account);
            lemma_be_length(timeout_nanos as nat, 8);
            lemma_be_length(arguments.len(), 2);
            lemma_list_size(arguments);
            lemma_context_size(context);
        },
    }
}

/// The limits on what a client can ask for: a command's time lies between one
/// second and ten minutes, and it has at most 256 arguments and 64 kibibytes of
/// them. Its directory is absolute, and nothing holds NUL.
pub proof fn requests_have_their_limits(request: RequestView)
    requires
        valid_request(request),
    ensures
        request matches RequestView::Exec { timeout_nanos, arguments, .. } ==> {
            &&& 1_000_000_000 <= timeout_nanos <= 600_000_000_000
            &&& arguments.len() <= 256
            &&& total_length(arguments) <= 65_536
            &&& forall|i: int| 0 <= i < arguments.len() ==> !(#[trigger] arguments[i]).contains(0)
        },
        ({
            let context = match request {
                RequestView::Start { context, .. } => Some(context),
                RequestView::Exec { context, .. } => Some(context),
                RequestView::Status { .. } => None,
            };
            context matches Some(context) ==> {
                &&& context.cwd.len() > 0
                &&& context.cwd[0] == 0x2f
                &&& !context.cwd.contains(0)
                &&& forall|i: int|
                    0 <= i < context.environment.len() ==> {
                        let (key, value) = #[trigger] context.environment[i];
                        &&& key.len() > 0
                        &&& !key.contains(0)
                        &&& !key.contains(0x3d)
                        &&& !value.contains(0)
                    }
            }
        }),
{
    let context = match request {
        RequestView::Start { context, .. } => Some(context),
        RequestView::Exec { context, .. } => Some(context),
        RequestView::Status { .. } => None,
    };
    if let Some(context) = context {
        assert forall|i: int| 0 <= i < context.environment.len() implies {
            let (key, value) = #[trigger] context.environment[i];
            &&& key.len() > 0
            &&& !key.contains(0)
            &&& !key.contains(0x3d)
            &&& !value.contains(0)
        } by {
            assert(valid_entry(context.environment[i]));
        }
    }
}

/// A client accepts nothing but what the broker writes: each frame that it
/// takes for an answer is the one frame that carries that answer, and an exit
/// code in it is one of a process.
pub proof fn accepted_response_was_written(kind: u8, payload: Seq<u8>, descriptors: nat)
    requires
        payload.len() <= MAX_PAYLOAD,
        response_of(kind, payload, descriptors) is Ok,
    ensures
        ({
            let response = response_of(kind, payload, descriptors)->Ok_0;
            &&& descriptors == 0
            &&& kind == response_kind(response)
            &&& response_payload(response) == Written::Ok(payload)
            &&& response matches ResponseView::Exec { exit_code, .. } ==> 0 <= exit_code <= 255
        }),
{
    let response = response_of(kind, payload, descriptors)->Ok_0;
    if let ResponseView::Exec { exit_code, .. } = response {
        lemma_be_canonical(payload.take(4));
        assert(payload.take(4).push(payload[4]) =~= payload);
    } else if let ResponseView::Error(code) = response {
        assert(seq![code.number()] =~= payload);
    } else {
        assert(payload.len() == 0 ==> payload =~= Seq::empty());
    }
}

/// Every answer can be written, but for a status of more than two mebibytes.
pub proof fn response_that_fits_is_written(response: ResponseView)
    ensures
        response_payload(response) is Ok <==> (response matches ResponseView::Status(json)
            ==> json.len() <= 2_097_152),
{
    if let ResponseView::Exec { exit_code, .. } = response {
        lemma_be_length(signed_bits(exit_code), 4);
    }
}

/// The broker takes from a client that its streams are closed, and the signals
/// that a caller can send, and nothing else.
pub proof fn accepted_event_was_written(kind: u8, payload: Seq<u8>, descriptors: nat)
    requires
        client_event_of(kind, payload, descriptors) is Ok,
    ensures
        descriptors == 0,
        match client_event_of(kind, payload, descriptors)->Ok_0 {
            ClientEvent::StreamsClosed => kind == EVENT_STREAMS_CLOSED && payload.len() == 0,
            ClientEvent::Cancel(signal) => {
                &&& kind == EVENT_CANCEL
                &&& signal == 1 || signal == 2 || signal == 3 || signal == 15
                &&& payload == be_bytes(signal as nat, 4)
            },
        },
{
    if kind == EVENT_CANCEL {
        lemma_be_canonical(payload);
    }
}

/// The numbers that stand on the wire: the version, the kinds of frames, and
/// the codes in answers. No two kinds and no two codes are the same.
pub proof fn wire_numbers_are_fixed(request: RequestView, response: ResponseView)
    ensures
        PROTOCOL_VERSION == 1,
        request_kind(request) == match request {
            RequestView::Start { .. } => 1u8,
            RequestView::Status { .. } => 2u8,
            RequestView::Exec { .. } => 3u8,
        },
        request_descriptors(request) == match request {
            RequestView::Exec { .. } => 3nat,
            _ => 0nat,
        },
        EVENT_STREAMS_CLOSED == 4,
        EVENT_CANCEL == 5,
        response_kind(response) == match response {
            ResponseView::Accepted => 0x80u8,
            ResponseView::NeedWarning => 0x81u8,
            ResponseView::Status(_) => 0x82u8,
            ResponseView::Exec { .. } => 0x83u8,
            ResponseView::Error(_) => 0x84u8,
        },
        response matches ResponseView::Error(code) ==> code.number() == match code {
            ErrorCode::Operational => 1u8,
            ErrorCode::AuthorizationRequired => 2u8,
            ErrorCode::AuthorizationFailed => 3u8,
            ErrorCode::OpPathMismatch => 4u8,
            ErrorCode::ProcessStart => 5u8,
            ErrorCode::Protocol => 6u8,
            ErrorCode::QueueFull => 7u8,
            ErrorCode::Cancelled => 8u8,
        },
        response matches ResponseView::Exec { diagnostic, .. } ==> diagnostic.number()
            == match diagnostic {
            Diagnostic::Nothing => 0u8,
            Diagnostic::Timeout => 1u8,
            Diagnostic::Internal => 2u8,
        },
{
}

/// A status request on the wire: a zero, or a one, the length of the selector
/// in four bytes and the selector.
pub proof fn status_request_is_laid_out(selector: Seq<char>)
    requires
        encode_utf8(selector).len() <= 65_536,
    ensures
        request_payload(RequestView::Status { account: None }) == Written::Ok(seq![0u8]),
        ({
            let bytes = encode_utf8(selector);
            request_payload(RequestView::Status { account: Some(selector) }) == Written::Ok(
                seq![
                    1u8,
                    (bytes.len() / 0x100_0000) as u8,
                    (bytes.len() / 0x1_0000 % 0x100) as u8,
                    (bytes.len() / 0x100 % 0x100) as u8,
                    (bytes.len() % 0x100) as u8,
                ] + bytes,
            )
        }),
{
    let bytes = encode_utf8(selector);
    reveal_with_fuel(be_bytes, 5);
    let length = be_bytes(bytes.len(), 4);
    assert(length =~= seq![
        (bytes.len() / 0x100_0000) as u8,
        (bytes.len() / 0x1_0000 % 0x100) as u8,
        (bytes.len() / 0x100 % 0x100) as u8,
        (bytes.len() % 0x100) as u8,
    ]);
    assert(seq![1u8] + (length + bytes) =~= seq![
        1u8,
        (bytes.len() / 0x100_0000) as u8,
        (bytes.len() / 0x1_0000 % 0x100) as u8,
        (bytes.len() / 0x100 % 0x100) as u8,
        (bytes.len() % 0x100) as u8,
    ] + bytes);
}

proof fn lemma_join(start: Seq<u8>, first: Seq<u8>, second: Seq<u8>)
    ensures
        start + first + second == start + (first + second),
{
    assert(start + first + second =~= start + (first + second));
}

proof fn lemma_list_step(all: Seq<Seq<u8>>, index: int)
    requires
        0 <= index < all.len(),
    ensures
        written_list(all.take(index + 1)) == joined(
            written_list(all.take(index)),
            written_bytes(all[index]),
        ),
        list_left(all.take(index + 1)) == (match written_list(all.take(index)) {
            Ok(done) => done,
            Err(_) => list_left(all.take(index)),
        }),
{
    assert(all.take(index + 1).drop_last() =~= all.take(index));
}

proof fn lemma_list_failure(all: Seq<Seq<u8>>, index: int, message: Seq<char>)
    requires
        0 <= index < all.len(),
        written_list(all.take(index + 1)) == Written::Err(message),
    ensures
        written_list(all) == Written::Err(message),
        list_left(all) == list_left(all.take(index + 1)),
    decreases all.len() - index,
{
    if index + 1 < all.len() {
        lemma_list_step(all, index + 1);
        lemma_list_failure(all, index + 1, message);
    } else {
        assert(all.take(index + 1) =~= all);
    }
}

/// A request is seen whole, with its account, its path, its arguments and its
/// context as they are.
pub proof fn requests_are_seen_whole(request: Request)
    ensures
        request matches Request::Start { warning_shown, account, op_path, context } ==> request@
            == (RequestView::Start {
            warning_shown,
            account: account@,
            op_path: op_path@,
            context: context@,
        }),
        request matches Request::Status { account } ==> request@ == (RequestView::Status {
            account: account@,
        }),
        request matches Request::Exec { account, timeout_nanos, arguments, context } ==> {
            &&& request@ is Exec
            &&& request@->Exec_account == account@
            &&& request@->timeout_nanos == timeout_nanos
            &&& request@->arguments.len() == arguments@.len()
            &&& forall|i: int|
                0 <= i < arguments@.len() ==> #[trigger] request@->arguments[i] == arguments@[i]@
            &&& request@->Exec_context == context@
        },
{
}

/// A response is seen whole.
pub proof fn responses_are_seen_whole(response: Response)
    ensures
        response is Accepted ==> response@ is Accepted,
        response is NeedWarning ==> response@ is NeedWarning,
        response matches Response::Status(json) ==> response@ == ResponseView::Status(json@),
        response matches Response::Exec { exit_code, diagnostic } ==> response@
            == (ResponseView::Exec { exit_code, diagnostic }),
        response matches Response::Error(code) ==> response@ == ResponseView::Error(code),
{
}

} // verus!
