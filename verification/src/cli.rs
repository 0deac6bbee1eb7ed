//! The command line: what it asks for, and what is wrong with it.
use crate::account::{effective_selector, optional_bytes, Account};
use crate::bytes::{
    byte_lists, copy_bytes, has_byte, is_at, same_bytes, stands_at, total_length, utf8_text,
};
use crate::clock::min_int;
use crate::duration::{duration_of, parse_duration, MAX_TIMEOUT_NANOS, MIN_TIMEOUT_NANOS};
use crate::protocol::{valid_arguments, MAX_ARGUMENTS, MAX_ARGUMENT_BYTES};
use crate::VERSION;
use vstd::prelude::*;
use vstd::slice::slice_subrange;
use vstd::utf8::{decode_utf8, encode_utf8, valid_utf8};

verus! {

/// The argument with which the program runs as the broker.
pub const INTERNAL_BROKER_ARGUMENT: &'static str = "__opp_internal_broker_v1";

/// The time that a command is given unless the caller says otherwise, in
/// nanoseconds.
pub const DEFAULT_TIMEOUT_NANOS: u64 = 120_000_000_000;

pub const ROOT_HELP: &'static str = "Usage:\n  opp --help\n  opp --version\n  opp start [--account ACCOUNT] [--op ABSOLUTE_PATH]\n  opp status [--account ACCOUNT]\n  opp stop\n  opp exec [--account ACCOUNT] [--timeout DURATION] -- [OP_ARGUMENT...]\n";

pub const START_HELP: &'static str = "Usage: opp start [--account ACCOUNT] [--op ABSOLUTE_PATH]\n";

pub const STATUS_HELP: &'static str = "Usage: opp status [--account ACCOUNT]\n";

pub const STOP_HELP: &'static str = "Usage: opp stop\n";

pub const EXEC_HELP: &'static str = "Usage: opp exec [--account ACCOUNT] [--timeout DURATION] -- [OP_ARGUMENT...]\n";

/// What a command line asks for.
#[derive(Debug)]
pub enum Action {
    Help(&'static str),
    Version,
    Start { account: Option<Vec<u8>>, op: Option<Vec<u8>> },
    Status { account: Option<Vec<u8>> },
    Stop,
    Exec { account: Option<Vec<u8>>, timeout: u64, arguments: Vec<Vec<u8>> },
}

/// What an action holds.
pub enum ActionView {
    Help(Seq<char>),
    Version,
    Start { account: Option<Seq<u8>>, op: Option<Seq<u8>> },
    Status { account: Option<Seq<u8>> },
    Stop,
    Exec { account: Option<Seq<u8>>, timeout: u64, arguments: Seq<Seq<u8>> },
}

impl View for Action {
    type V = ActionView;

    open spec fn view(&self) -> ActionView {
        match *self {
            Action::Help(text) => ActionView::Help(text@),
            Action::Version => ActionView::Version,
            Action::Start { account, op } => ActionView::Start {
                account: optional_bytes(account),
                op: optional_bytes(op),
            },
            Action::Status { account } => ActionView::Status { account: optional_bytes(account) },
            Action::Stop => ActionView::Stop,
            Action::Exec { account, timeout, arguments } => ActionView::Exec {
                account: optional_bytes(account),
                timeout,
                arguments: byte_lists(arguments@),
            },
        }
    }
}

/// What a command line asks for, or the message of a usage error.
pub type Parse = Result<ActionView, Seq<char>>;

/// A parsed command line is what its contract says.
pub open spec fn parsed_as(parsed: Result<Action, &'static str>, expected: Parse) -> bool {
    match expected {
        Ok(view) => parsed matches Ok(action) && action@ == view,
        Err(text) => parsed matches Err(message) && message@ == text,
    }
}

/// The argument is the given word.
pub open spec fn is_word(argument: Seq<u8>, word: Seq<char>) -> bool {
    argument == encode_utf8(word)
}

/// One of the arguments asks for help.
pub open spec fn asks_help(arguments: Seq<Seq<u8>>) -> bool {
    exists|i: int| 0 <= i < arguments.len() && is_word(#[trigger] arguments[i], "--help"@)
}

/// The position of the first argument from `from` on that is `--`, or the
/// number of arguments where there is none.
pub open spec fn separator_from(arguments: Seq<Seq<u8>>, from: int) -> int
    decreases arguments.len() - from,
{
    if from >= arguments.len() || from < 0 {
        arguments.len() as int
    } else if is_word(arguments[from], "--"@) {
        from
    } else {
        separator_from(arguments, from + 1)
    }
}

/// The options of `start`: each at most once, in any order.
pub open spec fn start_options(
    arguments: Seq<Seq<u8>>,
    account: Option<Seq<u8>>,
    op: Option<Seq<u8>>,
) -> Parse
    decreases arguments.len(),
{
    if arguments.len() == 0 {
        Ok(ActionView::Start { account, op })
    } else if is_word(arguments[0], "--account"@) && account is None {
        if arguments.len() == 1 {
            Err("--account requires a value"@)
        } else {
            start_options(arguments.skip(2), Some(arguments[1]), op)
        }
    } else if is_word(arguments[0], "--op"@) && op is None {
        if arguments.len() == 1 {
            Err("--op requires a value"@)
        } else {
            start_options(arguments.skip(2), account, Some(arguments[1]))
        }
    } else {
        Err("invalid start option"@)
    }
}

/// What `start` is asked for.
pub open spec fn start_action(arguments: Seq<Seq<u8>>) -> Parse {
    if asks_help(arguments) {
        Ok(ActionView::Help(START_HELP@))
    } else {
        start_options(arguments, None, None)
    }
}

/// What `status` is asked for.
pub open spec fn status_action(arguments: Seq<Seq<u8>>) -> Parse {
    if asks_help(arguments) {
        Ok(ActionView::Help(STATUS_HELP@))
    } else if arguments.len() == 0 {
        Ok(ActionView::Status { account: None })
    } else if arguments.len() == 2 && is_word(arguments[0], "--account"@) {
        Ok(ActionView::Status { account: Some(arguments[1]) })
    } else {
        Err("invalid status option"@)
    }
}

/// What `stop` is asked for.
pub open spec fn stop_action(arguments: Seq<Seq<u8>>) -> Parse {
    if asks_help(arguments) {
        Ok(ActionView::Help(STOP_HELP@))
    } else if arguments.len() == 0 {
        Ok(ActionView::Stop)
    } else {
        Err("stop accepts no options"@)
    }
}

/// A timeout in nanoseconds.
pub open spec fn timeout_value(value: Seq<u8>) -> Result<u64, Seq<char>> {
    if !valid_utf8(value) {
        Err("timeout must be valid UTF-8"@)
    } else {
        match duration_of(decode_utf8(value)) {
            Some(nanos) => Ok(nanos),
            None => Err("invalid timeout duration"@),
        }
    }
}

/// The options of `exec` in front of the separator: each at most once, in any
/// order.
pub open spec fn exec_options(
    arguments: Seq<Seq<u8>>,
    account: Option<Seq<u8>>,
    timeout: Option<u64>,
) -> Result<(Option<Seq<u8>>, Option<u64>), Seq<char>>
    decreases arguments.len(),
{
    if arguments.len() == 0 {
        Ok((account, timeout))
    } else if is_word(arguments[0], "--account"@) && account is None {
        if arguments.len() == 1 {
            Err("--account requires a value"@)
        } else {
            exec_options(arguments.skip(2), Some(arguments[1]), timeout)
        }
    } else if is_word(arguments[0], "--timeout"@) && timeout is None {
        if arguments.len() == 1 {
            Err("--timeout requires a value"@)
        } else {
            match timeout_value(arguments[1]) {
                Ok(nanos) => exec_options(arguments.skip(2), account, Some(nanos)),
                Err(message) => Err(message),
            }
        }
    } else {
        Err("invalid exec option"@)
    }
}

/// An argument that would choose another account.
pub open spec fn names_account(argument: Seq<u8>) -> bool {
    is_word(argument, "--account"@) || stands_at(argument, 0, encode_utf8("--account="@))
}

/// One of the arguments in front of the first inner `--` would choose another
/// account.
pub open spec fn overrides_account(arguments: Seq<Seq<u8>>) -> bool {
    exists|i: int|
        0 <= i < separator_from(arguments, 0) && names_account(#[trigger] arguments[i])
}

/// One of the arguments holds NUL.
pub open spec fn holds_nul(arguments: Seq<Seq<u8>>) -> bool {
    exists|i: int| 0 <= i < arguments.len() && (#[trigger] arguments[i]).contains(0)
}

/// What `exec` is asked for.
pub open spec fn exec_action(arguments: Seq<Seq<u8>>) -> Parse {
    let separator = separator_from(arguments, 0);
    if asks_help(arguments.take(separator)) {
        Ok(ActionView::Help(EXEC_HELP@))
    } else if separator == arguments.len() {
        Err("exec requires the -- separator"@)
    } else {
        match exec_options(arguments.take(separator), None, None) {
            Err(message) => Err(message),
            Ok((account, timeout)) => {
                let proxied = arguments.skip(separator + 1);
                if proxied.len() > MAX_ARGUMENTS {
                    Err("exec accepts at most 256 op arguments"@)
                } else if holds_nul(proxied) {
                    Err("op arguments must not contain NUL"@)
                } else if total_length(proxied) > MAX_ARGUMENT_BYTES {
                    Err("op arguments exceed 65,536 bytes"@)
                } else if overrides_account(proxied) {
                    Err("proxied op arguments may not override the selected account"@)
                } else {
                    Ok(
                        ActionView::Exec {
                            account,
                            timeout: match timeout {
                                Some(nanos) => nanos,
                                None => DEFAULT_TIMEOUT_NANOS,
                            },
                            arguments: proxied,
                        },
                    )
                }
            },
        }
    }
}

/// What a command line asks for.
pub open spec fn action_of(arguments: Seq<Seq<u8>>) -> Parse {
    if arguments.len() == 0 {
        Err("a command is required"@)
    } else if is_word(arguments[0], "--help"@) && arguments.len() == 1 {
        Ok(ActionView::Help(ROOT_HELP@))
    } else if is_word(arguments[0], "--version"@) && arguments.len() == 1 {
        Ok(ActionView::Version)
    } else if is_word(arguments[0], "start"@) {
        start_action(arguments.skip(1))
    } else if is_word(arguments[0], "status"@) {
        status_action(arguments.skip(1))
    } else if is_word(arguments[0], "stop"@) {
        stop_action(arguments.skip(1))
    } else if is_word(arguments[0], "exec"@) {
        exec_action(arguments.skip(1))
    } else {
        Err("unknown command or option"@)
    }
}

/// Whether an argument is the given word.
fn word_is(argument: &Vec<u8>, word: &str) -> (same: bool)
    ensures
        same == is_word(argument@, word@),
{
    same_bytes(argument.as_slice(), word.as_bytes())
}

/// What a command line asks for.
pub fn parse(arguments: &[Vec<u8>]) -> (action: Result<Action, &'static str>)
    ensures
        parsed_as(action, action_of(byte_lists(arguments@))),
{
    if arguments.len() == 0 {
        return Err("a command is required");
    }
    let command = &arguments[0];
    if word_is(command, "--help") && arguments.len() == 1 {
        return Ok(Action::Help(ROOT_HELP));
    }
    if word_is(command, "--version") && arguments.len() == 1 {
        return Ok(Action::Version);
    }
    let rest = slice_subrange(arguments, 1, arguments.len());
    assert(byte_lists(rest@) =~= byte_lists(arguments@).skip(1));
    if word_is(command, "start") {
        parse_start(rest)
    } else if word_is(command, "status") {
        parse_status(rest)
    } else if word_is(command, "stop") {
        parse_stop(rest)
    } else if word_is(command, "exec") {
        parse_exec(rest)
    } else {
        Err("unknown command or option")
    }
}

/// Whether one of the arguments asks for help.
pub fn has_help(arguments: &[Vec<u8>]) -> (help: bool)
    ensures
        help == asks_help(byte_lists(arguments@)),
{
    let ghost all = byte_lists(arguments@);
    let mut index: usize = 0;
    while index < arguments.len()
        invariant
            index <= arguments.len(),
            all == byte_lists(arguments@),
            forall|i: int| 0 <= i < index ==> !is_word(#[trigger] all[i], "--help"@),
        decreases arguments.len() - index,
    {
        if word_is(&arguments[index], "--help") {
            assert(is_word(all[index as int], "--help"@));
            return true;
        }
        index = index + 1;
    }
    false
}

/// What `start` is asked for.
pub fn parse_start(arguments: &[Vec<u8>]) -> (action: Result<Action, &'static str>)
    ensures
        parsed_as(action, start_action(byte_lists(arguments@))),
{
    if has_help(arguments) {
        return Ok(Action::Help(START_HELP));
    }
    let ghost all = byte_lists(arguments@);
    let mut account: Option<Vec<u8>> = None;
    let mut op: Option<Vec<u8>> = None;
    let mut index: usize = 0;
    assert(all.skip(0) =~= all);
    while index < arguments.len()
        invariant
            index <= arguments.len(),
            all == byte_lists(arguments@),
            start_action(all) == start_options(
                all.skip(index as int),
                optional_bytes(account),
                optional_bytes(op),
            ),
        decreases arguments.len() - index,
    {
        let ghost left = all.skip(index as int);
        assert(left[0] == all[index as int]);
        if word_is(&arguments[index], "--account") && account.is_none() {
            if arguments.len() - index < 2 {
                return Err("--account requires a value");
            }
            account = Some(copy_bytes(arguments[index + 1].as_slice()));
        } else if word_is(&arguments[index], "--op") && op.is_none() {
            if arguments.len() - index < 2 {
                return Err("--op requires a value");
            }
            op = Some(copy_bytes(arguments[index + 1].as_slice()));
        } else {
            return Err("invalid start option");
        }
        proof {
            assert(left[1] == all[index + 1]);
            assert(left.skip(2) =~= all.skip(index + 2));
        }
        index = index + 2;
    }
    Ok(Action::Start { account, op })
}

/// What `status` is asked for.
pub fn parse_status(arguments: &[Vec<u8>]) -> (action: Result<Action, &'static str>)
    ensures
        parsed_as(action, status_action(byte_lists(arguments@))),
{
    if has_help(arguments) {
        return Ok(Action::Help(STATUS_HELP));
    }
    if arguments.len() == 0 {
        Ok(Action::Status { account: None })
    } else if arguments.len() == 2 && word_is(&arguments[0], "--account") {
        Ok(Action::Status { account: Some(copy_bytes(arguments[1].as_slice())) })
    } else {
        Err("invalid status option")
    }
}

/// What `stop` is asked for.
pub fn parse_stop(arguments: &[Vec<u8>]) -> (action: Result<Action, &'static str>)
    ensures
        parsed_as(action, stop_action(byte_lists(arguments@))),
{
    if has_help(arguments) {
        return Ok(Action::Help(STOP_HELP));
    }
    if arguments.len() == 0 {
        Ok(Action::Stop)
    } else {
        Err("stop accepts no options")
    }
}

/// The position of the first argument that is `--`, or the number of
/// arguments.
fn separator(arguments: &[Vec<u8>]) -> (position: usize)
    ensures
        position == separator_from(byte_lists(arguments@), 0),
        position <= arguments@.len(),
{
    let ghost all = byte_lists(arguments@);
    let mut index: usize = 0;
    while index < arguments.len()
        invariant
            index <= arguments.len(),
            all == byte_lists(arguments@),
            separator_from(all, 0) == separator_from(all, index as int),
        decreases arguments.len() - index,
    {
        if word_is(&arguments[index], "--") {
            return index;
        }
        index = index + 1;
    }
    index
}

/// What `exec` is asked for.
pub fn parse_exec(arguments: &[Vec<u8>]) -> (action: Result<Action, &'static str>)
    ensures
        parsed_as(action, exec_action(byte_lists(arguments@))),
{
    let ghost all = byte_lists(arguments@);
    let separator = separator(arguments);
    let options = slice_subrange(arguments, 0, separator);
    assert(byte_lists(options@) =~= all.take(separator as int));
    if has_help(options) {
        return Ok(Action::Help(EXEC_HELP));
    }
    if separator == arguments.len() {
        return Err("exec requires the -- separator");
    }
    let (account, timeout) = match parse_exec_options(options) {
        Ok(parsed) => parsed,
        Err(message) => return Err(message),
    };
    let raw = slice_subrange(arguments, separator + 1, arguments.len());
    assert(byte_lists(raw@) =~= all.skip(separator + 1));
    let proxied = match proxied_arguments(raw) {
        Ok(proxied) => proxied,
        Err(message) => return Err(message),
    };
    match reject_account_override(proxied.as_slice()) {
        Ok(()) => {},
        Err(message) => return Err(message),
    }
    Ok(
        Action::Exec {
            account,
            timeout: match timeout {
                Some(nanos) => nanos,
                None => DEFAULT_TIMEOUT_NANOS,
            },
            arguments: proxied,
        },
    )
}

/// Reads the options of `exec`.
fn parse_exec_options(arguments: &[Vec<u8>]) -> (options: Result<
    (Option<Vec<u8>>, Option<u64>),
    &'static str,
>)
    ensures
        match exec_options(byte_lists(arguments@), None, None) {
            Ok((account, timeout)) => options matches Ok(options) && optional_bytes(options.0)
                == account && options.1 == timeout,
            Err(text) => options matches Err(message) && message@ == text,
        },
{
    let ghost all = byte_lists(arguments@);
    let mut account: Option<Vec<u8>> = None;
    let mut timeout: Option<u64> = None;
    let mut index: usize = 0;
    assert(all.skip(0) =~= all);
    while index < arguments.len()
        invariant
            index <= arguments.len(),
            all == byte_lists(arguments@),
            exec_options(all, None, None) == exec_options(
                all.skip(index as int),
                optional_bytes(account),
                timeout,
            ),
        decreases arguments.len() - index,
    {
        let ghost left = all.skip(index as int);
        assert(left[0] == all[index as int]);
        if word_is(&arguments[index], "--account") && account.is_none() {
            if arguments.len() - index < 2 {
                return Err("--account requires a value");
            }
            account = Some(copy_bytes(arguments[index + 1].as_slice()));
        } else if word_is(&arguments[index], "--timeout") && timeout.is_none() {
            if arguments.len() - index < 2 {
                return Err("--timeout requires a value");
            }
            assert(left[1] == all[index + 1]);
            let text = match utf8_text(copy_bytes(arguments[index + 1].as_slice())) {
                Some(text) => text,
                None => return Err("timeout must be valid UTF-8"),
            };
            match parse_duration(text.as_str()) {
                Some(nanos) => {
                    timeout = Some(nanos);
                },
                None => return Err("invalid timeout duration"),
            }
        } else {
            return Err("invalid exec option");
        }
        proof {
            assert(left[1] == all[index + 1]);
            assert(left.skip(2) =~= all.skip(index + 2));
        }
        index = index + 2;
    }
    Ok((account, timeout))
}

/// The arguments behind the separator, if they are within the limits.
fn proxied_arguments(raw: &[Vec<u8>]) -> (proxied: Result<Vec<Vec<u8>>, &'static str>)
    ensures
        ({
            let all = byte_lists(raw@);
            if all.len() > MAX_ARGUMENTS {
                proxied matches Err(message) && message@
                    == "exec accepts at most 256 op arguments"@
            } else if holds_nul(all) {
                proxied matches Err(message) && message@ == "op arguments must not contain NUL"@
            } else if total_length(all) > MAX_ARGUMENT_BYTES {
                proxied matches Err(message) && message@ == "op arguments exceed 65,536 bytes"@
            } else {
                proxied matches Ok(proxied) && byte_lists(proxied@) == all
            }
        }),
{
    if raw.len() > MAX_ARGUMENTS {
        return Err("exec accepts at most 256 op arguments");
    }
    let ghost all = byte_lists(raw@);
    let mut total: usize = 0;
    let mut proxied: Vec<Vec<u8>> = Vec::new();
    let mut index: usize = 0;
    assert(byte_lists(proxied@) =~= all.take(0));
    while index < raw.len()
        invariant
            index <= raw.len() <= MAX_ARGUMENTS,
            all == byte_lists(raw@),
            byte_lists(proxied@) == all.take(index as int),
            total == min_int(total_length(all.take(index as int)) as int, usize::MAX as int),
            forall|i: int| 0 <= i < index ==> !(#[trigger] all[i]).contains(0),
        decreases raw.len() - index,
    {
        let ghost before = proxied@;
        let argument = copy_bytes(raw[index].as_slice());
        assert(all[index as int] == argument@);
        if has_byte(argument.as_slice(), 0) {
            assert(all[index as int].contains(0));
            return Err("op arguments must not contain NUL");
        }
        total = total.saturating_add(argument.len());
        proxied.push(argument);
        proof {
            assert(all.take(index + 1).drop_last() =~= all.take(index as int));
            assert(byte_lists(proxied@) =~= all.take(index + 1));
        }
        index = index + 1;
    }
    assert(all.take(all.len() as int) =~= all);
    if total > MAX_ARGUMENT_BYTES {
        return Err("op arguments exceed 65,536 bytes");
    }
    Ok(proxied)
}

/// Refuses arguments that would make `op` use another account.
pub fn reject_account_override(arguments: &[Vec<u8>]) -> (result: Result<(), &'static str>)
    ensures
        result is Err <==> overrides_account(byte_lists(arguments@)),
        result matches Err(message) ==> message@
            == "proxied op arguments may not override the selected account"@,
{
    let ghost all = byte_lists(arguments@);
    let mut index: usize = 0;
    while index < arguments.len()
        invariant
            index <= arguments.len(),
            all == byte_lists(arguments@),
            separator_from(all, 0) == separator_from(all, index as int),
            forall|i: int| 0 <= i < index ==> !names_account(#[trigger] all[i]),
        decreases arguments.len() - index,
    {
        let argument = &arguments[index];
        assert(all[index as int] == argument@);
        if word_is(argument, "--") {
            return Ok(());
        }
        if word_is(argument, "--account") || is_at(argument.as_slice(), 0, "--account=".as_bytes()) {
            proof {
                lemma_separator_bound(all, index + 1);
                assert(names_account(all[index as int]));
            }
            return Err("proxied op arguments may not override the selected account");
        }
        index = index + 1;
    }
    Ok(())
}

proof fn lemma_separator_bound(arguments: Seq<Seq<u8>>, from: int)
    requires
        0 <= from <= arguments.len(),
    ensures
        from <= separator_from(arguments, from) <= arguments.len(),
    decreases arguments.len() - from,
{
    if from < arguments.len() && !is_word(arguments[from], "--"@) {
        lemma_separator_bound(arguments, from + 1);
    }
}

/// What a run of the program is to do.
#[derive(Debug)]
pub enum Invocation {
    /// Run as the broker.
    Broker,
    /// Leave at once with an exit code.
    Exit(i32),
    /// Write to standard output, and succeed.
    Output(String),
    /// Write to standard error that the usage is wrong, and leave with exit
    /// code 2.
    Usage(String),
    Start { account: Account, op: Option<Vec<u8>> },
    Status { account: Account },
    Stop,
    Exec { account: Account, timeout: u64, arguments: Vec<Vec<u8>> },
}

/// The exit code of wrong usage.
pub const USAGE_EXIT: i32 = 2;

/// The account that an option and the environment select.
pub open spec fn selected(option: Option<Seq<u8>>, environment: Option<Seq<u8>>) -> Result<
    Option<Seq<char>>,
    Seq<char>,
> {
    match effective_selector(option, environment) {
        None => Ok(None),
        Some(raw) => if valid_utf8(raw) {
            Ok(Some(decode_utf8(raw)))
        } else {
            Err("account selectors must be valid UTF-8"@)
        },
    }
}

/// The text of a usage error.
pub open spec fn usage_text(message: Seq<char>) -> Seq<char> {
    "opp: "@ + message + "\nTry 'opp --help'.\n"@
}

/// An invocation is what its contract says.
pub open spec fn invoked_as(
    invocation: Invocation,
    arguments: Seq<Seq<u8>>,
    environment: Option<Seq<u8>>,
) -> bool {
    if arguments.len() > 0 && is_word(arguments[0], INTERNAL_BROKER_ARGUMENT@) {
        if arguments.len() == 1 {
            invocation is Broker
        } else {
            invocation == Invocation::Exit(USAGE_EXIT)
        }
    } else {
        match action_of(arguments) {
            Err(message) => is_usage_error(invocation, message),
            Ok(ActionView::Help(text)) => invocation matches Invocation::Output(output)
                && output@ == text,
            Ok(ActionView::Version) => invocation matches Invocation::Output(output) && output@
                == "opp "@ + VERSION@ + "\n"@,
            Ok(ActionView::Start { account, op }) => match selected(account, environment) {
                Ok(selector) => invocation matches Invocation::Start { account, op: path }
                    && account@ == selector && optional_bytes(path) == op,
                Err(message) => is_usage_error(invocation, message),
            },
            Ok(ActionView::Status { account }) => match selected(account, environment) {
                Ok(selector) => invocation matches Invocation::Status { account } && account@
                    == selector,
                Err(message) => is_usage_error(invocation, message),
            },
            Ok(ActionView::Stop) => invocation is Stop,
            Ok(ActionView::Exec { account, timeout, arguments: proxied }) => match selected(
                account,
                environment,
            ) {
                Ok(selector) => invocation matches Invocation::Exec {
                    account,
                    timeout: nanos,
                    arguments: passed,
                } && account@ == selector && nanos == timeout && byte_lists(passed@) == proxied,
                Err(message) => is_usage_error(invocation, message),
            },
        }
    }
}

/// An invocation reports wrong usage with a message.
pub open spec fn is_usage_error(invocation: Invocation, message: Seq<char>) -> bool {
    invocation matches Invocation::Usage(text) && text@ == usage_text(message)
}

/// The invocation that reports wrong usage.
pub fn usage_error(message: &str) -> (invocation: Invocation)
    ensures
        is_usage_error(invocation, message@),
{
    let mut text = "opp: ".to_owned();
    text.append(message);
    text.append("\nTry 'opp --help'.\n");
    Invocation::Usage(text)
}

/// What the program is to do, by its arguments, of which the first is its own
/// name, and by the value of `OP_ACCOUNT`.
pub fn run(arguments: &[Vec<u8>], op_account: Option<Vec<u8>>) -> (invocation: Invocation)
    ensures
        invoked_as(
            invocation,
            if arguments@.len() > 0 {
                byte_lists(arguments@).skip(1)
            } else {
                Seq::empty()
            },
            optional_bytes(op_account),
        ),
{
    let ghost old_arguments = arguments@;
    let arguments = if arguments.len() > 0 {
        slice_subrange(arguments, 1, arguments.len())
    } else {
        arguments
    };
    assert(byte_lists(arguments@) =~= if old_arguments.len() > 0 {
        byte_lists(old_arguments).skip(1)
    } else {
        Seq::empty()
    });
    if arguments.len() > 0 && word_is(&arguments[0], INTERNAL_BROKER_ARGUMENT) {
        return if arguments.len() == 1 {
            Invocation::Broker
        } else {
            Invocation::Exit(USAGE_EXIT)
        };
    }
    match parse(arguments) {
        Ok(Action::Help(text)) => Invocation::Output(text.to_owned()),
        Ok(Action::Version) => {
            let mut text = "opp ".to_owned();
            text.append(VERSION);
            text.append("\n");
            Invocation::Output(text)
        },
        Ok(Action::Start { account, op }) => match Account::select(account, op_account) {
            Ok(account) => Invocation::Start { account, op },
            Err(message) => usage_error(message),
        },
        Ok(Action::Status { account }) => match Account::select(account, op_account) {
            Ok(account) => Invocation::Status { account },
            Err(message) => usage_error(message),
        },
        Ok(Action::Stop) => Invocation::Stop,
        Ok(Action::Exec { account, timeout, arguments }) => match Account::select(
            account,
            op_account,
        ) {
            Ok(account) => Invocation::Exec { account, timeout, arguments },
            Err(message) => usage_error(message),
        },
        Err(message) => usage_error(message),
    }
}

/// What `exec` accepts is what it passes on: the arguments behind the first
/// separator, unchanged. They are arguments that the broker accepts, the
/// timeout is one that it accepts, and none of them chooses another account.
pub proof fn accepted_command_is_passed_on(arguments: Seq<Seq<u8>>)
    requires
        exec_action(arguments) is Ok,
        exec_action(arguments)->Ok_0 is Exec,
    ensures
        ({
            let separator = separator_from(arguments, 0);
            let action = exec_action(arguments)->Ok_0;
            &&& 0 <= separator < arguments.len()
            &&& is_word(arguments[separator], "--"@)
            &&& action->arguments == arguments.skip(separator + 1)
            &&& valid_arguments(action->arguments)
            &&& !overrides_account(action->arguments)
            &&& MIN_TIMEOUT_NANOS <= action->timeout <= MAX_TIMEOUT_NANOS
        }),
{
    lemma_separator_bound(arguments, 0);
    lemma_separator_found(arguments, 0);
    let separator = separator_from(arguments, 0);
    lemma_timeout_range(arguments.take(separator), None, None);
    let proxied = arguments.skip(separator + 1);
    assert forall|i: int| 0 <= i < proxied.len() implies !(#[trigger] proxied[i]).contains(0) by {
        if proxied[i].contains(0) {
            assert(holds_nul(proxied));
        }
    }
}

/// An option stands at `index` of a list of names and values: names stand at
/// even positions.
pub open spec fn option_at(arguments: Seq<Seq<u8>>, name: Seq<char>, index: int) -> bool {
    &&& 0 <= index < arguments.len()
    &&& index % 2 == 0
    &&& arguments[index] == encode_utf8(name)
}

/// One of the arguments is the word `--help`.
pub open spec fn has_help_word(arguments: Seq<Seq<u8>>) -> bool {
    exists|i: int| 0 <= i < arguments.len() && #[trigger] arguments[i] == encode_utf8("--help"@)
}

/// The arguments are names and values in turn, each name is one of two, and
/// neither comes twice.
pub open spec fn are_options(arguments: Seq<Seq<u8>>, first: Seq<char>, second: Seq<char>) -> bool {
    &&& arguments.len() % 2 == 0
    &&& forall|i: int|
        #![trigger arguments[i]]
        0 <= i < arguments.len() && i % 2 == 0 ==> option_at(arguments, first, i) || option_at(
            arguments,
            second,
            i,
        )
    &&& forall|i: int, j: int|
        #![trigger arguments[i], arguments[j]]
        0 <= i < j < arguments.len() && i % 2 == 0 && j % 2 == 0 ==> arguments[i] != arguments[j]
}

/// The value of an option is the argument behind its name, and there is none
/// exactly where the name is not given.
pub open spec fn is_value_of(
    value: Option<Seq<u8>>,
    arguments: Seq<Seq<u8>>,
    name: Seq<char>,
) -> bool {
    &&& value is Some <==> exists|i: int| option_at(arguments, name, i)
    &&& forall|i: int| #[trigger]
        option_at(arguments, name, i) ==> i + 1 < arguments.len() && value == Some(arguments[i + 1])
}

/// The position of the first `--`.
pub open spec fn first_separator(arguments: Seq<Seq<u8>>, index: int) -> bool {
    &&& 0 <= index < arguments.len()
    &&& arguments[index] == encode_utf8("--"@)
    &&& forall|i: int| 0 <= i < index ==> #[trigger] arguments[i] != encode_utf8("--"@)
}

/// An argument of `op` that would choose another account: `--account`, alone
/// or with its value behind an equals sign, in front of any `--`.
pub open spec fn chooses_account(arguments: Seq<Seq<u8>>, index: int) -> bool {
    &&& 0 <= index < arguments.len()
    &&& arguments[index] == encode_utf8("--account"@) || encode_utf8("--account="@).is_prefix_of(
        arguments[index],
    )
    &&& forall|i: int| 0 <= i < index ==> #[trigger] arguments[i] != encode_utf8("--"@)
}

proof fn lemma_words()
    ensures
        encode_utf8("--account"@) != encode_utf8("--op"@),
        encode_utf8("--account"@) != encode_utf8("--timeout"@),
        encode_utf8("--account"@) != encode_utf8("--"@),
        encode_utf8("--account="@) != encode_utf8("--"@),
        !encode_utf8("--account="@).is_prefix_of(encode_utf8("--"@)),
        encode_utf8("start"@) != encode_utf8("status"@),
        encode_utf8("start"@) != encode_utf8("stop"@),
        encode_utf8("start"@) != encode_utf8("exec"@),
        encode_utf8("status"@) != encode_utf8("stop"@),
        encode_utf8("status"@) != encode_utf8("exec"@),
        encode_utf8("stop"@) != encode_utf8("exec"@),
        encode_utf8("--help"@) != encode_utf8("--version"@),
        encode_utf8("--help"@) != encode_utf8("start"@),
        encode_utf8("--help"@) != encode_utf8("status"@),
        encode_utf8("--help"@) != encode_utf8("stop"@),
        encode_utf8("--help"@) != encode_utf8("exec"@),
        encode_utf8("--version"@) != encode_utf8("start"@),
        encode_utf8("--version"@) != encode_utf8("status"@),
        encode_utf8("--version"@) != encode_utf8("stop"@),
        encode_utf8("--version"@) != encode_utf8("exec"@),
{
    broadcast use vstd::utf8::is_ascii_chars_encode_utf8;

    reveal_strlit("--account");
    reveal_strlit("--account=");
    reveal_strlit("--op");
    reveal_strlit("--timeout");
    reveal_strlit("--");
    reveal_strlit("start");
    reveal_strlit("status");
    reveal_strlit("stop");
    reveal_strlit("exec");
    reveal_strlit("--help");
    reveal_strlit("--version");
    assert(vstd::utf8::is_ascii_chars("--account"@));
    assert(vstd::utf8::is_ascii_chars("--account="@));
    assert(vstd::utf8::is_ascii_chars("--op"@));
    assert(vstd::utf8::is_ascii_chars("--timeout"@));
    assert(vstd::utf8::is_ascii_chars("--"@));
    assert(vstd::utf8::is_ascii_chars("start"@));
    assert(vstd::utf8::is_ascii_chars("status"@));
    assert(vstd::utf8::is_ascii_chars("stop"@));
    assert(vstd::utf8::is_ascii_chars("exec"@));
    assert(vstd::utf8::is_ascii_chars("--help"@));
    assert(vstd::utf8::is_ascii_chars("--version"@));
    assert(encode_utf8("--account"@)[2] == 0x61);
    assert(encode_utf8("--timeout"@)[2] == 0x74);
    assert(encode_utf8("start"@)[1] == 0x74);
    assert(encode_utf8("exec"@)[0] == 0x65);
    assert(encode_utf8("stop"@)[0] == 0x73);
}

proof fn lemma_options_step(arguments: Seq<Seq<u8>>, first: Seq<char>, second: Seq<char>)
    requires
        arguments.len() >= 2,
    ensures
        are_options(arguments, first, second) <==> {
            &&& arguments[0] == encode_utf8(first) || arguments[0] == encode_utf8(second)
            &&& are_options(arguments.skip(2), first, second)
            &&& forall|i: int|
                0 <= i < arguments.len() - 2 && i % 2 == 0 ==> #[trigger] arguments.skip(2)[i]
                    != arguments[0]
        },
        forall|name: Seq<char>, i: int| #[trigger]
            option_at(arguments.skip(2), name, i) ==> option_at(arguments, name, i + 2)
                && arguments[i + 2] == arguments.skip(2)[i] && (i + 1 < arguments.len() - 2
                ==> arguments[i + 3] == arguments.skip(2)[i + 1]),
        forall|name: Seq<char>, i: int| #[trigger]
            option_at(arguments, name, i) && i > 0 ==> option_at(arguments.skip(2), name, i - 2),
{
    let rest = arguments.skip(2);
    assert forall|name: Seq<char>, i: int| #[trigger]
        option_at(arguments, name, i) && i > 0 implies option_at(rest, name, i - 2) by {
        assert(rest[i - 2] == arguments[i]);
    }
    if are_options(arguments, first, second) {
        assert(option_at(arguments, first, 0) || option_at(arguments, second, 0)) by {
            let head = arguments[0];
        }
        assert forall|i: int|
            #![trigger rest[i]]
            0 <= i < rest.len() && i % 2 == 0 implies (option_at(rest, first, i) || option_at(
            rest,
            second,
            i,
        )) && rest[i] != arguments[0] by {
            assert(rest[i] == arguments[i + 2]);
        }
        assert forall|i: int, j: int|
            #![trigger rest[i], rest[j]]
            0 <= i < j < rest.len() && i % 2 == 0 && j % 2 == 0 implies rest[i] != rest[j] by {
            assert(rest[i] == arguments[i + 2]);
            assert(rest[j] == arguments[j + 2]);
        }
    }
    if (arguments[0] == encode_utf8(first) || arguments[0] == encode_utf8(second)) && are_options(
        rest,
        first,
        second,
    ) && (forall|i: int| 0 <= i < rest.len() && i % 2 == 0 ==> #[trigger] rest[i] != arguments[0]) {
        assert forall|i: int|
            #![trigger arguments[i]]
            0 <= i < arguments.len() && i % 2 == 0 implies option_at(arguments, first, i)
            || option_at(arguments, second, i) by {
            if i > 0 {
                assert(rest[i - 2] == arguments[i]);
                assert(option_at(rest, first, i - 2) || option_at(rest, second, i - 2));
            }
        }
        assert forall|i: int, j: int|
            #![trigger arguments[i], arguments[j]]
            0 <= i < j < arguments.len() && i % 2 == 0 && j % 2 == 0 implies arguments[i]
            != arguments[j] by {
            assert(rest[j - 2] == arguments[j]);
            if i > 0 {
                assert(rest[i - 2] == arguments[i]);
            }
        }
    }
}

/// No option of the name stands among the arguments.
pub open spec fn without_option(arguments: Seq<Seq<u8>>, name: Seq<char>) -> bool {
    forall|i: int| !#[trigger] option_at(arguments, name, i)
}

proof fn lemma_value_step(
    arguments: Seq<Seq<u8>>,
    name: Seq<char>,
    value: Option<Seq<u8>>,
)
    requires
        arguments.len() >= 2,
        arguments.len() % 2 == 0,
    ensures
        arguments[0] != encode_utf8(name) ==> (is_value_of(value, arguments, name)
            <==> is_value_of(value, arguments.skip(2), name)),
        arguments[0] == encode_utf8(name) && without_option(arguments.skip(2), name) ==> (
        is_value_of(value, arguments, name) <==> value == Some(arguments[1])),
        arguments[0] != encode_utf8(name) ==> (without_option(arguments, name) <==> without_option(
            arguments.skip(2),
            name,
        )),
        arguments[0] == encode_utf8(name) ==> !without_option(arguments, name),
{
    let rest = arguments.skip(2);
    lemma_options_step(arguments, name, name);
    assert(arguments[0] == encode_utf8(name) ==> option_at(arguments, name, 0));
    assert forall|i: int| #[trigger] option_at(rest, name, i) implies option_at(
        arguments,
        name,
        i + 2,
    ) && arguments[i + 3] == rest[i + 1] && i + 1 < rest.len() by {
        assert((i + 1) % 2 == 1);
        assert(rest[i + 1] == arguments[i + 3]);
    }
    assert forall|i: int| #[trigger] option_at(arguments, name, i) && i > 0 implies option_at(
        rest,
        name,
        i - 2,
    ) && i + 1 < arguments.len() && arguments[i + 1] == rest[i - 1] by {
        assert((i + 1) % 2 == 1);
        assert(rest[i - 1] == arguments[i + 1]);
    }
    if arguments[0] != encode_utf8(name) {
        if is_value_of(value, arguments, name) {
            if value is Some {
                let i = choose|i: int| option_at(arguments, name, i);
                assert(option_at(rest, name, i - 2));
            }
            assert forall|i: int| #[trigger] option_at(rest, name, i) implies i + 1 < rest.len()
                && value == Some(rest[i + 1]) by {
                assert(option_at(arguments, name, i + 2));
            }
            assert(is_value_of(value, rest, name));
        }
        if is_value_of(value, rest, name) {
            if value is Some {
                let i = choose|i: int| option_at(rest, name, i);
                assert(option_at(arguments, name, i + 2));
            }
            assert forall|i: int| #[trigger] option_at(arguments, name, i) implies i + 1
                < arguments.len() && value == Some(arguments[i + 1]) by {
                assert(option_at(rest, name, i - 2));
            }
            assert(is_value_of(value, arguments, name));
        }
        if without_option(rest, name) {
            assert forall|i: int| !#[trigger] option_at(arguments, name, i) by {
                if option_at(arguments, name, i) {
                    assert(option_at(rest, name, i - 2));
                }
            }
        }
        if without_option(arguments, name) {
            assert forall|i: int| !#[trigger] option_at(rest, name, i) by {
                if option_at(rest, name, i) {
                    assert(option_at(arguments, name, i + 2));
                }
            }
        }
    } else if without_option(rest, name) {
        assert forall|i: int| #[trigger] option_at(arguments, name, i) implies i == 0 by {
            if i > 0 {
                assert(option_at(rest, name, i - 2));
            }
        }
    }
}

proof fn lemma_start_options(
    arguments: Seq<Seq<u8>>,
    account: Option<Seq<u8>>,
    op: Option<Seq<u8>>,
)
    ensures
        start_options(arguments, account, op) is Ok <==> {
            &&& are_options(arguments, "--account"@, "--op"@)
            &&& account is Some ==> without_option(arguments, "--account"@)
            &&& op is Some ==> without_option(arguments, "--op"@)
        },
        start_options(arguments, account, op) matches Ok(action) ==> {
            &&& action is Start
            &&& if account is Some {
                action->Start_account == account
            } else {
                is_value_of(action->Start_account, arguments, "--account"@)
            }
            &&& if op is Some {
                action->op == op
            } else {
                is_value_of(action->op, arguments, "--op"@)
            }
        },
    decreases arguments.len(),
{
    lemma_words();
    if arguments.len() == 1 {
        assert(arguments.len() % 2 == 1);
    } else if arguments.len() >= 2 {
        let rest = arguments.skip(2);
        lemma_options_step(arguments, "--account"@, "--op"@);
        if arguments[0] == encode_utf8("--account"@) && account is None {
            lemma_start_options(rest, Some(arguments[1]), op);
            lemma_none_left(rest, "--account"@, arguments[0]);
            if rest.len() % 2 == 0 {
                lemma_value_step(arguments, "--account"@, Some(arguments[1]));
                if let Ok(action) = start_options(rest, Some(arguments[1]), op) {
                    lemma_value_step(arguments, "--op"@, action->op);
                }
                lemma_value_step(arguments, "--op"@, None);
            }
        } else if arguments[0] == encode_utf8("--op"@) && op is None {
            lemma_start_options(rest, account, Some(arguments[1]));
            lemma_none_left(rest, "--op"@, arguments[0]);
            if rest.len() % 2 == 0 {
                lemma_value_step(arguments, "--op"@, Some(arguments[1]));
                if let Ok(action) = start_options(rest, account, Some(arguments[1])) {
                    lemma_value_step(arguments, "--account"@, action->Start_account);
                }
                lemma_value_step(arguments, "--account"@, None);
            }
        } else {
            assert(arguments[0] == encode_utf8("--account"@) ==> option_at(
                arguments,
                "--account"@,
                0,
            ));
            assert(arguments[0] == encode_utf8("--op"@) ==> option_at(arguments, "--op"@, 0));
        }
    }
}

proof fn lemma_none_left(arguments: Seq<Seq<u8>>, name: Seq<char>, word: Seq<u8>)
    requires
        word == encode_utf8(name),
    ensures
        without_option(arguments, name) <==> (forall|i: int|
            0 <= i < arguments.len() && i % 2 == 0 ==> #[trigger] arguments[i] != word),
{
    if without_option(arguments, name) {
        assert forall|i: int| 0 <= i < arguments.len() && i % 2 == 0 implies #[trigger] arguments[i]
            != word by {
            assert(!option_at(arguments, name, i));
        }
    }
}

/// `start` takes its options in any order: the account is the argument behind
/// `--account` and the path of `op` is the one behind `--op`, each whether or
/// not the other is given. It accepts every list of these options in which
/// none comes twice, and no other.
pub proof fn start_takes_its_options(arguments: Seq<Seq<u8>>)
    ensures
        has_help_word(arguments) <==> start_action(arguments) matches Ok(ActionView::Help(_)),
        has_help_word(arguments) ==> start_action(arguments) == Parse::Ok(
            ActionView::Help(START_HELP@),
        ),
        start_action(arguments) is Ok <==> has_help_word(arguments) || are_options(
            arguments,
            "--account"@,
            "--op"@,
        ),
        !has_help_word(arguments) ==> (start_action(arguments) matches Ok(action) ==> {
            &&& action matches ActionView::Start { account, op }
            &&& is_value_of(account, arguments, "--account"@)
            &&& is_value_of(op, arguments, "--op"@)
        }),
{
    lemma_start_options(arguments, None, None);
    lemma_help(arguments);
}

proof fn lemma_help(arguments: Seq<Seq<u8>>)
    ensures
        asks_help(arguments) == has_help_word(arguments),
{
    if asks_help(arguments) {
        let i = choose|i: int|
            0 <= i < arguments.len() && is_word(#[trigger] arguments[i], "--help"@);
        assert(arguments[i] == encode_utf8("--help"@));
    }
    if has_help_word(arguments) {
        let i = choose|i: int|
            0 <= i < arguments.len() && #[trigger] arguments[i] == encode_utf8("--help"@);
        assert(is_word(arguments[i], "--help"@));
    }
}

/// `status` takes the account that `start` takes of the same arguments, and
/// nothing else: it accepts exactly those without a path of `op`.
pub proof fn status_selects_as_start_does(arguments: Seq<Seq<u8>>, account: Option<Seq<u8>>)
    ensures
        status_action(arguments) == Parse::Ok(ActionView::Status { account }) <==> start_action(
            arguments,
        ) == Parse::Ok(ActionView::Start { account, op: None }),
        has_help_word(arguments) ==> status_action(arguments) == Parse::Ok(
            ActionView::Help(STATUS_HELP@),
        ),
        !has_help_word(arguments) ==> (status_action(arguments) matches Ok(action) ==> action
            is Status),
        status_action(arguments) is Err ==> status_action(arguments) == Parse::Err(
            "invalid status option"@,
        ),
{
    lemma_help(arguments);
    lemma_words();
    start_takes_its_options(arguments);
    if arguments.len() == 0 {
        assert(without_option(arguments, "--op"@));
    } else if arguments.len() >= 2 {
        lemma_options_step(arguments, "--account"@, "--op"@);
        if arguments.len() == 2 {
            let rest = arguments.skip(2);
            assert(rest.len() == 0);
            assert(without_option(rest, "--account"@));
            assert(without_option(rest, "--op"@));
            lemma_value_step(arguments, "--account"@, Some(arguments[1]));
            lemma_value_step(arguments, "--account"@, account);
            lemma_value_step(arguments, "--op"@, None);
            if arguments[0] == encode_utf8("--op"@) {
                assert(option_at(arguments, "--op"@, 0));
            }
        } else if are_options(arguments, "--account"@, "--op"@) {
            assert(option_at(arguments, "--account"@, 2) || option_at(arguments, "--op"@, 2)) by {
                let third = arguments[2];
            }
            assert(option_at(arguments, "--account"@, 0) || option_at(arguments, "--op"@, 0)) by {
                let first = arguments[0];
            }
            assert(arguments[0] != arguments[2]);
        }
    }
}

/// `stop` takes no options.
pub proof fn stop_takes_no_options(arguments: Seq<Seq<u8>>)
    ensures
        has_help_word(arguments) ==> stop_action(arguments) == Parse::Ok(
            ActionView::Help(STOP_HELP@),
        ),
        !has_help_word(arguments) ==> (stop_action(arguments) is Ok <==> arguments.len() == 0),
        !has_help_word(arguments) && stop_action(arguments) is Ok ==> stop_action(arguments)->Ok_0
            is Stop,
        stop_action(arguments) is Err ==> stop_action(arguments) == Parse::Err(
            "stop accepts no options"@,
        ),
{
    lemma_help(arguments);
}

/// An argument that `--timeout` can be given: a duration in UTF-8.
pub open spec fn is_timeout(value: Seq<u8>, nanos: u64) -> bool {
    valid_utf8(value) && duration_of(decode_utf8(value)) == Some(nanos)
}

/// The timeout is what the argument behind `--timeout` stands for, and none is
/// given exactly where the name is not.
pub open spec fn is_timeout_of(timeout: Option<u64>, arguments: Seq<Seq<u8>>) -> bool {
    &&& timeout is Some <==> exists|i: int| option_at(arguments, "--timeout"@, i)
    &&& forall|i: int| #[trigger]
        option_at(arguments, "--timeout"@, i) ==> i + 1 < arguments.len() && timeout is Some
            && is_timeout(arguments[i + 1], timeout->0)
}

proof fn lemma_timeout_step(arguments: Seq<Seq<u8>>, timeout: Option<u64>)
    requires
        arguments.len() >= 2,
        arguments.len() % 2 == 0,
    ensures
        arguments[0] != encode_utf8("--timeout"@) ==> (is_timeout_of(timeout, arguments)
            <==> is_timeout_of(timeout, arguments.skip(2))),
        arguments[0] == encode_utf8("--timeout"@) && without_option(
            arguments.skip(2),
            "--timeout"@,
        ) ==> (is_timeout_of(timeout, arguments) <==> timeout is Some && is_timeout(
            arguments[1],
            timeout->0,
        )),
{
    let name = "--timeout"@;
    let rest = arguments.skip(2);
    lemma_options_step(arguments, name, name);
    assert(arguments[0] == encode_utf8(name) ==> option_at(arguments, name, 0));
    assert forall|i: int| #[trigger] option_at(rest, name, i) implies option_at(
        arguments,
        name,
        i + 2,
    ) && arguments[i + 3] == rest[i + 1] && i + 1 < rest.len() by {
        assert((i + 1) % 2 == 1);
        assert(rest[i + 1] == arguments[i + 3]);
    }
    assert forall|i: int| #[trigger] option_at(arguments, name, i) && i > 0 implies option_at(
        rest,
        name,
        i - 2,
    ) && i + 1 < arguments.len() && arguments[i + 1] == rest[i - 1] by {
        assert((i + 1) % 2 == 1);
        assert(rest[i - 1] == arguments[i + 1]);
    }
    if arguments[0] != encode_utf8(name) {
        if is_timeout_of(timeout, arguments) {
            if timeout is Some {
                let i = choose|i: int| option_at(arguments, name, i);
                assert(option_at(rest, name, i - 2));
            }
            assert forall|i: int| #[trigger] option_at(rest, name, i) implies i + 1 < rest.len()
                && timeout is Some && is_timeout(rest[i + 1], timeout->0) by {
                assert(option_at(arguments, name, i + 2));
            }
            assert(is_timeout_of(timeout, rest));
        }
        if is_timeout_of(timeout, rest) {
            if timeout is Some {
                let i = choose|i: int| option_at(rest, name, i);
                assert(option_at(arguments, name, i + 2));
            }
            assert forall|i: int| #[trigger] option_at(arguments, name, i) implies i + 1
                < arguments.len() && timeout is Some && is_timeout(
                arguments[i + 1],
                timeout->0,
            ) by {
                assert(option_at(rest, name, i - 2));
            }
            assert(is_timeout_of(timeout, arguments));
        }
    } else if without_option(rest, name) {
        assert forall|i: int| #[trigger] option_at(arguments, name, i) implies i == 0 by {
            if i > 0 {
                assert(option_at(rest, name, i - 2));
            }
        }
    }
}

proof fn lemma_exec_options(
    arguments: Seq<Seq<u8>>,
    account: Option<Seq<u8>>,
    timeout: Option<u64>,
)
    ensures
        exec_options(arguments, account, timeout) is Ok <==> {
            &&& are_options(arguments, "--account"@, "--timeout"@)
            &&& account is Some ==> without_option(arguments, "--account"@)
            &&& if timeout is Some {
                without_option(arguments, "--timeout"@)
            } else {
                exists|nanos: Option<u64>| is_timeout_of(nanos, arguments)
            }
        },
        exec_options(arguments, account, timeout) matches Ok((selected, nanos)) ==> {
            &&& if account is Some {
                selected == account
            } else {
                is_value_of(selected, arguments, "--account"@)
            }
            &&& if timeout is Some {
                nanos == timeout
            } else {
                is_timeout_of(nanos, arguments)
            }
        },
    decreases arguments.len(),
{
    lemma_words();
    if arguments.len() == 0 {
        assert(is_timeout_of(None, arguments));
    } else if arguments.len() == 1 {
        assert(arguments.len() % 2 == 1);
    } else {
        let rest = arguments.skip(2);
        lemma_options_step(arguments, "--account"@, "--timeout"@);
        if arguments[0] == encode_utf8("--account"@) && account is None {
            lemma_exec_options(rest, Some(arguments[1]), timeout);
            lemma_none_left(rest, "--account"@, arguments[0]);
            if rest.len() % 2 == 0 {
                lemma_value_step(arguments, "--account"@, Some(arguments[1]));
                lemma_value_step(arguments, "--timeout"@, None);
                assert forall|nanos: Option<u64>| #[trigger]
                    is_timeout_of(nanos, arguments) == is_timeout_of(nanos, rest) by {
                    lemma_timeout_step(arguments, nanos);
                }
                if timeout is None {
                    if exists|nanos: Option<u64>| is_timeout_of(nanos, arguments) {
                        let nanos = choose|nanos: Option<u64>| is_timeout_of(nanos, arguments);
                        assert(is_timeout_of(nanos, rest));
                    }
                    if exists|nanos: Option<u64>| is_timeout_of(nanos, rest) {
                        let nanos = choose|nanos: Option<u64>| is_timeout_of(nanos, rest);
                        assert(is_timeout_of(nanos, arguments));
                    }
                }
            }
        } else if arguments[0] == encode_utf8("--timeout"@) && timeout is None {
            lemma_none_left(rest, "--timeout"@, arguments[0]);
            assert(option_at(arguments, "--timeout"@, 0));
            if let Ok(nanos) = timeout_value(arguments[1]) {
                lemma_exec_options(rest, account, Some(nanos));
                if rest.len() % 2 == 0 {
                    lemma_timeout_step(arguments, Some(nanos));
                    if let Ok((selected, _)) = exec_options(rest, account, Some(nanos)) {
                        lemma_value_step(arguments, "--account"@, selected);
                    }
                    lemma_value_step(arguments, "--account"@, None);
                }
            }
        } else {
            assert(arguments[0] == encode_utf8("--account"@) ==> option_at(
                arguments,
                "--account"@,
                0,
            ));
            assert(arguments[0] == encode_utf8("--timeout"@) ==> option_at(
                arguments,
                "--timeout"@,
                0,
            ));
        }
    }
}

proof fn lemma_first_separator(arguments: Seq<Seq<u8>>, index: int, from: int)
    requires
        first_separator(arguments, index),
        0 <= from <= index,
    ensures
        separator_from(arguments, from) == index,
    decreases index - from,
{
    if from < index {
        assert(arguments[from] != encode_utf8("--"@));
        lemma_first_separator(arguments, index, from + 1);
    }
}

proof fn lemma_overrides(arguments: Seq<Seq<u8>>)
    ensures
        overrides_account(arguments) <==> exists|i: int| chooses_account(arguments, i),
{
    lemma_words();
    lemma_separator_bound(arguments, 0);
    lemma_nothing_before(arguments, 0);
    let separator = separator_from(arguments, 0);
    assert forall|argument: Seq<u8>| #[trigger]
        names_account(argument) == (argument == encode_utf8("--account"@) || encode_utf8(
            "--account="@,
        ).is_prefix_of(argument)) by {
        let word = encode_utf8("--account="@);
        if word.is_prefix_of(argument) {
            assert(argument.subrange(0, word.len() as int) =~= word);
        }
        if stands_at(argument, 0, word) {
            assert(argument.subrange(0, word.len() as int) == word);
            assert(word.is_prefix_of(argument));
        }
    }
    if overrides_account(arguments) {
        let i = choose|i: int| 0 <= i < separator && names_account(#[trigger] arguments[i]);
        assert(chooses_account(arguments, i));
    }
    if exists|i: int| chooses_account(arguments, i) {
        let i = choose|i: int| chooses_account(arguments, i);
        assert(names_account(arguments[i]));
        if separator <= i {
            lemma_separator_found(arguments, 0);
            assert(arguments[separator] == encode_utf8("--"@));
        }
    }
}

proof fn lemma_nothing_before(arguments: Seq<Seq<u8>>, from: int)
    requires
        0 <= from <= arguments.len(),
    ensures
        forall|i: int|
            from <= i < separator_from(arguments, from) ==> #[trigger] arguments[i] != encode_utf8(
                "--"@,
            ),
    decreases arguments.len() - from,
{
    if from < arguments.len() && !is_word(arguments[from], "--"@) {
        lemma_nothing_before(arguments, from + 1);
    }
}

/// `exec` takes its options in front of the first `--`, in any order: the
/// account is the argument behind `--account`, and the timeout is what the one
/// behind `--timeout` stands for, or two minutes, each whether or not the other
/// is given. What stands behind the separator is passed on as it is. It is
/// accepted exactly where no option comes twice, and the arguments are within
/// their limits, hold no NUL and choose no account.
pub proof fn exec_takes_its_options(arguments: Seq<Seq<u8>>, separator: int)
    requires
        first_separator(arguments, separator),
    ensures
        ({
            let options = arguments.take(separator);
            let passed = arguments.skip(separator + 1);
            let parsed = exec_action(arguments);
            &&& has_help_word(options) ==> parsed == Parse::Ok(ActionView::Help(EXEC_HELP@))
            &&& !has_help_word(options) ==> {
                &&& parsed is Ok <==> {
                    &&& are_options(options, "--account"@, "--timeout"@)
                    &&& exists|nanos: Option<u64>| is_timeout_of(nanos, options)
                    &&& passed.len() <= 256
                    &&& forall|i: int| 0 <= i < passed.len() ==> !(#[trigger] passed[i]).contains(0)
                    &&& total_length(passed) <= 65_536
                    &&& forall|i: int| !#[trigger] chooses_account(passed, i)
                }
                &&& parsed matches Ok(action) ==> {
                    &&& action is Exec
                    &&& is_value_of(action->Exec_account, options, "--account"@)
                    &&& action->arguments == passed
                    &&& without_option(options, "--timeout"@) ==> action->timeout
                        == 120_000_000_000
                    &&& !without_option(options, "--timeout"@) ==> is_timeout_of(
                        Some(action->timeout),
                        options,
                    )
                }
            }
        }),
{
    lemma_first_separator(arguments, separator, 0);
    let options = arguments.take(separator);
    let passed = arguments.skip(separator + 1);
    lemma_help(options);
    lemma_exec_options(options, None, None);
    lemma_overrides(passed);
    assert(holds_nul(passed) <==> !(forall|i: int|
        0 <= i < passed.len() ==> !(#[trigger] passed[i]).contains(0)));
    if let Ok((_, timeout)) = exec_options(options, None, None) {
        if without_option(options, "--timeout"@) {
            assert(timeout is None);
        } else {
            let i = choose|i: int| option_at(options, "--timeout"@, i);
            assert(option_at(options, "--timeout"@, i));
            assert(timeout is Some);
        }
    }
}

/// Arguments that `op` is not to get are refused, and the caller is told why:
/// that they are too many, hold NUL, are too long, or choose an account.
pub proof fn refused_arguments_are_explained(arguments: Seq<Seq<u8>>, separator: int)
    requires
        first_separator(arguments, separator),
        !has_help_word(arguments.take(separator)),
        are_options(arguments.take(separator), "--account"@, "--timeout"@),
        exists|nanos: Option<u64>| is_timeout_of(nanos, arguments.take(separator)),
    ensures
        ({
            let passed = arguments.skip(separator + 1);
            let nul = exists|i: int| 0 <= i < passed.len() && (#[trigger] passed[i]).contains(0);
            let chooses = exists|i: int| chooses_account(passed, i);
            let parsed = exec_action(arguments);
            &&& passed.len() > 256 ==> parsed == Parse::Err(
                "exec accepts at most 256 op arguments"@,
            )
            &&& passed.len() <= 256 && nul ==> parsed == Parse::Err(
                "op arguments must not contain NUL"@,
            )
            &&& passed.len() <= 256 && !nul && total_length(passed) > 65_536 ==> parsed
                == Parse::Err("op arguments exceed 65,536 bytes"@)
            &&& passed.len() <= 256 && !nul && total_length(passed) <= 65_536 && chooses ==> parsed
                == Parse::Err("proxied op arguments may not override the selected account"@)
        }),
{
    lemma_first_separator(arguments, separator, 0);
    lemma_help(arguments.take(separator));
    lemma_exec_options(arguments.take(separator), None, None);
    lemma_overrides(arguments.skip(separator + 1));
}

/// Without a `--` nothing is run.
pub proof fn exec_requires_the_separator(arguments: Seq<Seq<u8>>)
    requires
        forall|i: int| 0 <= i < arguments.len() ==> #[trigger] arguments[i] != encode_utf8("--"@),
    ensures
        has_help_word(arguments) ==> exec_action(arguments) == Parse::Ok(
            ActionView::Help(EXEC_HELP@),
        ),
        !has_help_word(arguments) ==> exec_action(arguments) == Parse::Err(
            "exec requires the -- separator"@,
        ),
{
    lemma_separator_bound(arguments, 0);
    if separator_from(arguments, 0) < arguments.len() {
        lemma_separator_found(arguments, 0);
    }
    assert(arguments.take(arguments.len() as int) =~= arguments);
    lemma_help(arguments);
}

/// The first argument names the command, and the rest is the command's. Help
/// and the version of the program itself are asked for alone.
pub proof fn commands_are_told_apart(arguments: Seq<Seq<u8>>)
    ensures
        arguments.len() == 0 ==> action_of(arguments) == Parse::Err("a command is required"@),
        arguments == seq![encode_utf8("--help"@)] ==> action_of(arguments) == Parse::Ok(
            ActionView::Help(ROOT_HELP@),
        ),
        arguments == seq![encode_utf8("--version"@)] ==> action_of(arguments) == Parse::Ok(
            ActionView::Version,
        ),
        arguments.len() > 0 ==> {
            let (word, rest) = (arguments[0], arguments.skip(1));
            let parsed = action_of(arguments);
            &&& word == encode_utf8("start"@) ==> parsed == start_action(rest)
            &&& word == encode_utf8("status"@) ==> parsed == status_action(rest)
            &&& word == encode_utf8("stop"@) ==> parsed == stop_action(rest)
            &&& word == encode_utf8("exec"@) ==> parsed == exec_action(rest)
            &&& parsed is Ok ==> {
                ||| word == encode_utf8("start"@)
                ||| word == encode_utf8("status"@)
                ||| word == encode_utf8("stop"@)
                ||| word == encode_utf8("exec"@)
                ||| arguments == seq![encode_utf8("--help"@)]
                ||| arguments == seq![encode_utf8("--version"@)]
            }
            &&& word != encode_utf8("start"@) && word != encode_utf8("status"@) && word
                != encode_utf8("stop"@) && word != encode_utf8("exec"@) && parsed is Err ==> parsed
                == Parse::Err("unknown command or option"@)
        },
{
    lemma_words();
    if arguments.len() == 1 {
        assert(arguments =~= seq![arguments[0]]);
    }
}

/// The account that a run of the program is for: what a non-empty option says,
/// or else what a non-empty environment value says, or else none.
pub open spec fn is_selected(
    selector: Option<Seq<char>>,
    option: Option<Seq<u8>>,
    environment: Option<Seq<u8>>,
) -> bool {
    if option is Some && option->0.len() > 0 {
        valid_utf8(option->0) && selector == Some(decode_utf8(option->0))
    } else if environment is Some && environment->0.len() > 0 {
        valid_utf8(environment->0) && selector == Some(decode_utf8(environment->0))
    } else {
        selector is None
    }
}

/// The value that selects the account is UTF-8, where there is one.
pub open spec fn can_be_selected(
    option: Option<Seq<u8>>,
    environment: Option<Seq<u8>>,
) -> bool {
    if option is Some && option->0.len() > 0 {
        valid_utf8(option->0)
    } else {
        environment is Some && environment->0.len() > 0 ==> valid_utf8(environment->0)
    }
}

/// A run of the program does what its command line asks for, for the account
/// that its option or the environment selects, and with the path, the timeout
/// and the arguments that were given. A selector that is not UTF-8 is wrong
/// usage.
pub proof fn invocation_is_what_was_asked(
    invocation: Invocation,
    arguments: Seq<Seq<u8>>,
    environment: Option<Seq<u8>>,
)
    requires
        arguments.len() > 0,
        arguments[0] != encode_utf8(INTERNAL_BROKER_ARGUMENT@),
        invoked_as(invocation, arguments, environment),
    ensures
        match action_of(arguments) {
            Err(message) => invocation matches Invocation::Usage(text) && text@ == "opp: "@
                + message + "\nTry 'opp --help'.\n"@,
            Ok(ActionView::Start { account: option, op }) => if can_be_selected(
                option,
                environment,
            ) {
                &&& invocation matches Invocation::Start { account, op: path }
                &&& is_selected(account@, option, environment)
                &&& optional_bytes(path) == op
            } else {
                invocation is Usage
            },
            Ok(ActionView::Status { account: option }) => if can_be_selected(option, environment) {
                &&& invocation matches Invocation::Status { account }
                &&& is_selected(account@, option, environment)
            } else {
                invocation is Usage
            },
            Ok(ActionView::Exec { account: option, timeout, arguments: passed }) => {
                if can_be_selected(option, environment) {
                    &&& invocation matches Invocation::Exec {
                        account,
                        timeout: nanos,
                        arguments: given,
                    }
                    &&& is_selected(account@, option, environment)
                    &&& nanos == timeout
                    &&& byte_lists(given@) == passed
                } else {
                    invocation is Usage
                }
            },
            Ok(ActionView::Help(text)) => invocation matches Invocation::Output(output) && output@
                == text,
            Ok(ActionView::Version) => invocation matches Invocation::Output(output) && output@
                == "opp "@ + "0.1.0"@ + "\n"@,
            Ok(ActionView::Stop) => invocation is Stop,
        },
{
}

/// The program runs as the broker exactly where that is all it is asked for,
/// by an argument that names no command.
pub proof fn broker_is_run_alone(
    invocation: Invocation,
    arguments: Seq<Seq<u8>>,
    environment: Option<Seq<u8>>,
)
    requires
        invoked_as(invocation, arguments, environment),
    ensures
        invocation is Broker <==> arguments == seq![encode_utf8("__opp_internal_broker_v1"@)],
        arguments.len() > 1 && arguments[0] == encode_utf8("__opp_internal_broker_v1"@)
            ==> invocation == Invocation::Exit(2),
        invocation is Exit ==> arguments.len() > 1 && arguments[0] == encode_utf8(
            "__opp_internal_broker_v1"@,
        ),
        arguments.len() == 0 ==> invocation is Usage,
{
    if arguments.len() == 1 {
        assert(arguments =~= seq![arguments[0]]);
    }
}

proof fn lemma_separator_found(arguments: Seq<Seq<u8>>, from: int)
    requires
        0 <= from <= arguments.len(),
        separator_from(arguments, from) < arguments.len(),
    ensures
        is_word(arguments[separator_from(arguments, from)], "--"@),
    decreases arguments.len() - from,
{
    if from < arguments.len() && !is_word(arguments[from], "--"@) {
        lemma_separator_found(arguments, from + 1);
    }
}

proof fn lemma_timeout_range(
    arguments: Seq<Seq<u8>>,
    account: Option<Seq<u8>>,
    timeout: Option<u64>,
)
    requires
        timeout matches Some(nanos) ==> MIN_TIMEOUT_NANOS <= nanos <= MAX_TIMEOUT_NANOS,
    ensures
        exec_options(arguments, account, timeout) matches Ok((_, Some(nanos))) ==> MIN_TIMEOUT_NANOS
            <= nanos <= MAX_TIMEOUT_NANOS,
    decreases arguments.len(),
{
    if arguments.len() >= 2 {
        if is_word(arguments[0], "--account"@) && account is None {
            lemma_timeout_range(arguments.skip(2), Some(arguments[1]), timeout);
        } else if is_word(arguments[0], "--timeout"@) && timeout is None {
            if let Ok(nanos) = timeout_value(arguments[1]) {
                lemma_timeout_range(arguments.skip(2), account, Some(nanos));
            }
        }
    }
}

/// The bytes of an optional argument are seen as they are.
pub open spec fn is_seen_as(value: Option<Vec<u8>>, seen: Option<Seq<u8>>) -> bool {
    &&& seen is Some <==> value is Some
    &&& value matches Some(bytes) ==> seen == Some(bytes@)
}

/// A command line that was parsed asks for what its contract says, with every
/// part of it, or is refused with the message that the contract gives.
pub proof fn actions_are_seen_whole(parsed: Result<Action, &'static str>, expected: Parse)
    requires
        parsed_as(parsed, expected),
    ensures
        parsed is Ok <==> expected is Ok,
        parsed matches Err(message) ==> expected->Err_0 == message@,
        parsed matches Ok(Action::Help(text)) ==> expected->Ok_0 == ActionView::Help(text@),
        parsed matches Ok(Action::Version) ==> expected->Ok_0 is Version,
        parsed matches Ok(Action::Start { account, op }) ==> {
            &&& expected->Ok_0 is Start
            &&& is_seen_as(account, expected->Ok_0->Start_account)
            &&& is_seen_as(op, expected->Ok_0->op)
        },
        parsed matches Ok(Action::Status { account }) ==> {
            &&& expected->Ok_0 is Status
            &&& is_seen_as(account, expected->Ok_0->Status_account)
        },
        parsed matches Ok(Action::Stop) ==> expected->Ok_0 is Stop,
        parsed matches Ok(Action::Exec { account, timeout, arguments }) ==> {
            &&& expected->Ok_0 is Exec
            &&& is_seen_as(account, expected->Ok_0->Exec_account)
            &&& expected->Ok_0->timeout == timeout
            &&& expected->Ok_0->arguments.len() == arguments@.len()
            &&& forall|i: int|
                0 <= i < arguments@.len() ==> #[trigger] expected->Ok_0->arguments[i]
                    == arguments@[i]@
        },
{
}

} // verus!
