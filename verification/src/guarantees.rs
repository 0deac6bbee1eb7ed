//! What holds of the broker over all requests, outcomes and instants.
use crate::broker::{
    begun, check_result, closed, command_reply, handled, later, maintained, order_for, reported,
    resumed, signal_fits, start_handled, turn_allowed, turned, vault_list, whoami, BrokerTimings,
    BrokerView, CheckResult, CheckView, OrderView, Polled, StageView, StepView, TaskView, Turn,
    MAX_SIGNAL,
};
use crate::bytes::lemma_be_length;
use crate::cli::{accepted_command_is_passed_on, exec_action, separator_from};
use crate::client::{
    command_end_is_passed_on, execution_exit, Exit, AUTHORIZATION_EXIT, AUTHORIZATION_REQUIRED,
};
use crate::clock::Reading;
use crate::codec::valid_context;
use crate::environment::{maintenance_entries, sanitized_entries, ContextView};
use crate::json::{distinct_names, json_object, FieldView};
use crate::process::{ProcessOutcome, RequestControl};
use crate::protocol::{
    request_is_read_back, request_of, request_payload, response_is_read_back, response_kind,
    response_of, response_payload, signed_bits, Diagnostic, ErrorCode, RequestView, ResponseView,
    REQUEST_EXEC,
};
use crate::records::{
    expired, is_active, time_left, ActiveAuthorization, AuthorizationRecord, RecordMap,
};
use crate::signals::caller_signal;
use crate::spawn::argument_vector;
use crate::status::{
    has_member, is_member_name, rfc3339, status_has_its_members, status_members, text_value,
};
use vstd::prelude::*;
use vstd::utf8::encode_utf8;

verus! {

/// Something that happens to the broker: a request is taken from the queue, a
/// run of `op` ends, an account is to be checked, or time passes.
pub enum Event {
    Request { request: RequestView, control: RequestControl, reading: Reading },
    Ended { outcome: Option<ProcessOutcome>, control: RequestControl, reading: Reading },
    Maintain {
        account: Option<Seq<char>>,
        path: Seq<u8>,
        tmpdir: Option<Seq<u8>>,
        reading: Reading,
    },
    Passed { now: u64 },
}

/// A run of `op` ends only while there is one, and nothing else is begun
/// before it has ended.
pub open spec fn possible(broker: BrokerView, event: Event) -> bool {
    (event is Ended) == !(broker.stage is Idle)
}

/// The broker after an event, and what it does.
pub open spec fn stepped(broker: BrokerView, event: Event) -> (BrokerView, StepView) {
    match event {
        Event::Request { request, control, reading } => handled(broker, request, control, reading),
        Event::Ended { outcome, control, reading } => resumed(broker, outcome, control, reading),
        Event::Maintain { account, path, tmpdir, reading } => maintained(
            broker,
            account,
            path,
            tmpdir,
            reading,
        ),
        Event::Passed { now } => (
            BrokerView { records: expired(broker.records, now), ..broker },
            StepView::Silent,
        ),
    }
}

/// An event that ends an explicit authorization of an account with success.
pub open spec fn authorizes(broker: BrokerView, event: Event, account: Option<Seq<char>>) -> bool {
    &&& broker.stage matches StageView::Authorizing { account: authorized, .. }
    &&& authorized == account
    &&& event matches Event::Ended { outcome, .. }
    &&& check_result(outcome) == CheckResult::Success
}

/// An event that ends a check with a failure. A check that only ended because
/// its client or the broker did is no failure, unless there was no client.
pub open spec fn fails_check(broker: BrokerView, event: Event) -> bool {
    &&& event matches Event::Ended { outcome, .. }
    &&& ({
        let result = check_result(outcome);
        match broker.stage {
            StageView::Identity(check) | StageView::Vault(check) => {
                ||| result == CheckResult::Failed
                ||| result == CheckResult::Cancelled && check.task is Maintenance
            },
            _ => false,
        }
    })
}

/// The account that an event is about.
pub open spec fn concerns(broker: BrokerView, event: Event, account: Option<Seq<char>>) -> bool {
    match event {
        Event::Request { request, .. } => match request {
            RequestView::Start { account: named, .. } => named == account,
            RequestView::Status { account: named } => named == account,
            RequestView::Exec { account: named, .. } => named == account,
        },
        Event::Ended { .. } => match broker.stage {
            StageView::Authorizing { account: named, .. } => named == account,
            StageView::Identity(check) => check.account == account,
            StageView::Vault(check) => check.account == account,
            _ => false,
        },
        Event::Maintain { account: named, .. } => named == account,
        Event::Passed { .. } => false,
    }
}

/// The instant of an event on the monotonic clock.
pub open spec fn instant(event: Event) -> u64 {
    match event {
        Event::Request { reading, .. } => reading.monotonic,
        Event::Ended { reading, .. } => reading.monotonic,
        Event::Maintain { reading, .. } => reading.monotonic,
        Event::Passed { now } => now,
    }
}

/// An account becomes active by an explicit authorization and by nothing else:
/// neither a check nor the passing of time ever restores a grant.
pub proof fn only_authorization_activates(
    broker: BrokerView,
    event: Event,
    account: Option<Seq<char>>,
)
    requires
        possible(broker, event),
        !is_active(broker.records, account),
        is_active(stepped(broker, event).0.records, account),
    ensures
        authorizes(broker, event, account),
{
}

/// A grant lasts as long as it was given for: whatever happens to an account
/// that stays active, other than a new authorization, its hard limit stays
/// where it was.
pub proof fn grants_are_never_extended(
    broker: BrokerView,
    event: Event,
    account: Option<Seq<char>>,
)
    requires
        possible(broker, event),
        is_active(broker.records, account),
        is_active(stepped(broker, event).0.records, account),
        !authorizes(broker, event, account),
    ensures
        ({
            let before = broker.records[account]->Active_0;
            let after = stepped(broker, event).0.records[account]->Active_0;
            &&& after.authorized_at == before.authorized_at
            &&& after.hard_expires_at == before.hard_expires_at
            &&& after.hard_deadline == before.hard_deadline
        }),
{
}

/// What happens for one account leaves the records of the others as they are,
/// but for grants whose time is over, unless a check fails.
pub proof fn accounts_are_kept_apart(broker: BrokerView, event: Event, account: Option<Seq<char>>)
    requires
        possible(broker, event),
        !fails_check(broker, event),
        !concerns(broker, event, account),
    ensures
        stepped(broker, event).0.records.dom().contains(account)
            == broker.records.dom().contains(account),
        broker.records.dom().contains(account) ==> {
            ||| stepped(broker, event).0.records[account] == broker.records[account]
            ||| stepped(broker, event).0.records[account] == broker.records[account].at(
                instant(event),
            )
        },
{
}

/// A failed check ends every grant, whatever account it was made for, and the
/// request that it was made for is refused.
pub proof fn failed_check_ends_every_grant(broker: BrokerView, event: Event)
    requires
        possible(broker, event),
        fails_check(broker, event),
    ensures
        forall|account: Option<Seq<char>>|
            !#[trigger] is_active(stepped(broker, event).0.records, account),
        stepped(broker, event).0.records.dom() == broker.records.dom(),
        stepped(broker, event).0.stage is Idle,
        ({
            let check = match broker.stage {
                StageView::Identity(check) => check,
                StageView::Vault(check) => check,
                _ => arbitrary(),
            };
            check.task is Command ==> stepped(broker, event).1 == StepView::Reply(
                ResponseView::Error(ErrorCode::AuthorizationRequired),
            )
        }),
{
    let after = stepped(broker, event).0;
    assert(after.records.dom() =~= broker.records.dom());
}

/// A check that ends because its client went away, or because the broker
/// stops, leaves every record as it is.
pub proof fn cancelled_check_keeps_the_records(broker: BrokerView, event: Event)
    requires
        possible(broker, event),
        broker.stage is Identity || broker.stage is Vault,
        ({
            let result = check_result(event->Ended_outcome);
            result == CheckResult::Cancelled || result == CheckResult::Shutdown
        }),
        !fails_check(broker, event),
    ensures
        stepped(broker, event).0.records == broker.records,
        stepped(broker, event).0.stage is Idle,
{
}

/// A command for an account that is not active, or whose time is over, is
/// refused, and nothing is run for it.
pub proof fn unauthorized_command_is_refused(
    broker: BrokerView,
    request: RequestView,
    control: RequestControl,
    reading: Reading,
)
    requires
        broker.stage is Idle,
        !control.cancelled,
        request is Exec,
        !is_active(expired(broker.records, reading.monotonic), request->Exec_account),
    ensures
        handled(broker, request, control, reading).0.stage is Idle,
        handled(broker, request, control, reading).1 == StepView::Reply(
            ResponseView::Error(ErrorCode::AuthorizationRequired),
        ),
{
}

/// No check and no command begins at or after the end of its account's grant,
/// and after a request that was not cancelled no grant is left whose time is
/// over.
pub proof fn hard_limit_is_kept(broker: BrokerView, event: Event, account: Option<Seq<char>>)
    requires
        possible(broker, event),
        ({
            ||| stepped(broker, event).1 is Run
            ||| stepped(broker, event).0.stage is Identity
            ||| event is Passed
            ||| event is Request && !event->Request_control.cancelled
        }),
        is_active(stepped(broker, event).0.records, account),
    ensures
        instant(event) < stepped(broker, event).0.records[account]->Active_0.hard_deadline,
{
}

/// A command runs right after the two commands of its account's check, each of
/// which ended with success, and only while the account is active.
pub proof fn command_follows_its_check(broker: BrokerView, event: Event)
    requires
        possible(broker, event),
        stepped(broker, event).1 is Run,
    ensures
        broker.stage is Vault,
        ({
            let check = broker.stage->Vault_0;
            &&& event matches Event::Ended { outcome, reading, .. }
            &&& check_result(outcome) == CheckResult::Success
            &&& check.task matches TaskView::Command { timeout_nanos, arguments }
            &&& stepped(broker, event).1 == StepView::Run(
                order_for(
                    arguments,
                    check.context,
                    check.account,
                    later(reading.monotonic, timeout_nanos),
                ),
            )
            &&& is_active(stepped(broker, event).0.records, check.account)
        }),
{
}

/// The second command of a check runs right after the first one, which ended
/// with success, for the same account and with the same deadline.
pub proof fn second_check_follows_the_first(broker: BrokerView, event: Event)
    requires
        possible(broker, event),
        stepped(broker, event).0.stage is Vault,
    ensures
        broker.stage == StageView::Identity(stepped(broker, event).0.stage->Vault_0),
        ({
            let check = stepped(broker, event).0.stage->Vault_0;
            &&& event matches Event::Ended { outcome, .. }
            &&& check_result(outcome) == CheckResult::Success
            &&& stepped(broker, event).1 == StepView::Probe(
                order_for(vault_list(), check.context, check.account, check.deadline),
            )
        }),
{
}

/// A check begins only for an active account: for a command that a client
/// asked for, or to keep the grant. Its deadline covers both of its commands.
pub proof fn check_begins_for_an_active_account(broker: BrokerView, event: Event)
    requires
        possible(broker, event),
        stepped(broker, event).0.stage is Identity,
    ensures
        ({
            let check = stepped(broker, event).0.stage->Identity_0;
            &&& is_active(broker.records, check.account)
            &&& is_active(stepped(broker, event).0.records, check.account)
            &&& check.deadline == later(instant(event), broker.timings.check_timeout)
            &&& stepped(broker, event).1 == StepView::Probe(
                order_for(whoami(), check.context, check.account, check.deadline),
            )
            &&& match event {
                Event::Request { request, control, .. } => {
                    &&& !control.cancelled
                    &&& request matches RequestView::Exec {
                        account,
                        timeout_nanos,
                        arguments,
                        context,
                    }
                    &&& check.account == account
                    &&& check.context == context
                    &&& check.task == TaskView::Command { timeout_nanos, arguments }
                },
                Event::Maintain { account, .. } => check.account == account
                    && check.task is Maintenance,
                _ => false,
            }
        }),
{
}

/// An authorization that succeeds makes its account active: from the instant
/// at which it began, and for exactly the hard limit.
pub proof fn authorization_counts_from_its_beginning(
    broker: BrokerView,
    account: Option<Seq<char>>,
    op_path: Seq<char>,
    context: ContextView,
    began: Reading,
    outcome: Option<ProcessOutcome>,
    control: RequestControl,
    ended: Reading,
)
    requires
        broker.stage is Idle,
        op_path == broker.op_path,
        !is_active(expired(broker.records, began.monotonic), account),
        began.wf(),
        check_result(outcome) == CheckResult::Success,
    ensures
        ({
            let (waiting, order) = start_handled(
                broker,
                true,
                account,
                op_path,
                context,
                began,
            );
            let (after, answer) = resumed(waiting, outcome, control, ended);
            &&& order == StepView::Probe(
                order_for(
                    vault_list(),
                    context,
                    account,
                    later(began.monotonic, broker.timings.explicit_timeout),
                ),
            )
            &&& answer == StepView::Reply(ResponseView::Accepted)
            &&& is_active(after.records, account)
            &&& ({
                let active = after.records[account]->Active_0;
                &&& active.authorized_at == began.wall
                &&& active.hard_expires_at == began.wall + broker.timings.hard_limit
                &&& active.hard_deadline == later(began.monotonic, broker.timings.hard_limit)
            })
        }),
{
}

/// An authorization that does not succeed leaves the broker running and its
/// account to be authorized again.
pub proof fn failed_authorization_can_be_retried(
    broker: BrokerView,
    account: Option<Seq<char>>,
    op_path: Seq<char>,
    context: ContextView,
    began: Reading,
    outcome: Option<ProcessOutcome>,
    control: RequestControl,
    ended: Reading,
)
    requires
        broker.stage is Idle,
        op_path == broker.op_path,
        !is_active(expired(broker.records, began.monotonic), account),
        check_result(outcome) != CheckResult::Success,
    ensures
        ({
            let waiting = start_handled(broker, true, account, op_path, context, began).0;
            let (after, answer) = resumed(waiting, outcome, control, ended);
            &&& after.stage is Idle
            &&& after.records.dom().contains(account)
            &&& after.records[account] == AuthorizationRecord::Required
            &&& answer != StepView::Reply(ResponseView::Accepted)
        }),
{
}

/// A grant is checked again a whole interval after the latest success, be it
/// of an authorization or of a check.
pub proof fn success_puts_off_the_next_check(
    broker: BrokerView,
    event: Event,
    account: Option<Seq<char>>,
)
    requires
        possible(broker, event),
        ({
            ||| authorizes(broker, event, account)
            ||| broker.stage is Vault && broker.stage->Vault_0.account == account
                && check_result(event->Ended_outcome) == CheckResult::Success
        }),
        is_active(stepped(broker, event).0.records, account),
    ensures
        stepped(broker, event).0.records[account]->Active_0.next_probe_deadline == later(
            instant(event),
            broker.timings.maintenance_interval,
        ),
{
}

/// A status request runs nothing, and changes nothing but grants whose time is
/// over.
pub proof fn status_only_reports(
    broker: BrokerView,
    account: Option<Seq<char>>,
    control: RequestControl,
    reading: Reading,
)
    requires
        broker.stage is Idle,
    ensures
        ({
            let (after, step) = handled(broker, RequestView::Status { account }, control, reading);
            &&& step is Reply
            &&& after == broker || after == (BrokerView {
                records: expired(broker.records, reading.monotonic),
                ..broker
            })
        }),
{
}

/// A request that was cancelled while it waited runs nothing and changes
/// nothing.
pub proof fn cancelled_request_starts_nothing(
    broker: BrokerView,
    request: RequestView,
    control: RequestControl,
    reading: Reading,
)
    requires
        control.cancelled,
    ensures
        handled(broker, request, control, reading).0 == broker,
        handled(broker, request, control, reading).1 is Reply,
{
}

/// A start request for an active account succeeds at once, and one that its
/// user was not warned of is not begun.
pub proof fn start_begins_only_what_is_needed(
    broker: BrokerView,
    warning_shown: bool,
    account: Option<Seq<char>>,
    context: ContextView,
    reading: Reading,
)
    requires
        broker.stage is Idle,
    ensures
        ({
            let (after, step) = start_handled(
                broker,
                warning_shown,
                account,
                broker.op_path,
                context,
                reading,
            );
            let active = is_active(expired(broker.records, reading.monotonic), account);
            &&& active ==> step == StepView::Reply(ResponseView::Accepted) && after.stage is Idle
            &&& !active && !warning_shown ==> step == StepView::Reply(ResponseView::NeedWarning)
                && after.stage is Idle
            &&& !active && warning_shown ==> step is Probe
        }),
{
}

/// Another `op` than the broker's is never used for an account.
pub proof fn op_path_is_pinned(
    broker: BrokerView,
    warning_shown: bool,
    account: Option<Seq<char>>,
    op_path: Seq<char>,
    context: ContextView,
    reading: Reading,
    event: Event,
)
    requires
        op_path != broker.op_path,
    ensures
        start_handled(broker, warning_shown, account, op_path, context, reading).1
            == StepView::Reply(ResponseView::Error(ErrorCode::OpPathMismatch)),
        stepped(broker, event).0.op_path == broker.op_path,
{
}

/// Exit codes and signals as the system gives them.
pub open spec fn plausible(outcome: Option<ProcessOutcome>) -> bool {
    match outcome {
        Some(ProcessOutcome::Exited(code)) => 0 <= code <= 255,
        Some(ProcessOutcome::Signaled(signal)) => 0 < signal < 128,
        Some(ProcessOutcome::Cancelled(signal)) => signal == 0 || caller_signal(signal),
        _ => true,
    }
}

/// Every exit code that the broker answers with is one that a client accepts.
pub proof fn exit_codes_fit_in_a_byte(broker: BrokerView, event: Event)
    requires
        possible(broker, event),
        event matches Event::Ended { outcome, control, .. } ==> plausible(outcome) && (
        control.signal == 0 || caller_signal(control.signal)),
        event matches Event::Request { control, .. } ==> control.signal == 0 || caller_signal(
            control.signal,
        ),
        stepped(broker, event).1 is Reply,
    ensures
        stepped(broker, event).1->Reply_0 matches ResponseView::Exec { exit_code, .. } ==> 0
            <= exit_code <= 255,
{
}

/// The broker after a number of events.
pub open spec fn after_events(start: BrokerView, events: Seq<Event>) -> BrokerView
    decreases events.len(),
{
    if events.len() == 0 {
        start
    } else {
        stepped(after_events(start, events.drop_last()), events.last()).0
    }
}

/// Each of the events is possible when it happens.
pub open spec fn all_possible(start: BrokerView, events: Seq<Event>) -> bool {
    forall|i: int|
        0 <= i < events.len() ==> possible(
            after_events(start, events.take(i)),
            #[trigger] events[i],
        )
}

proof fn lemma_event(start: BrokerView, events: Seq<Event>, i: int)
    requires
        0 <= i < events.len(),
    ensures
        after_events(start, events.take(i + 1)) == stepped(
            after_events(start, events.take(i)),
            events[i],
        ).0,
{
    assert(events.take(i + 1).drop_last() =~= events.take(i));
}

/// In whatever order requests come, each command that runs was asked for by
/// the request two events before. The events between are the ends of its
/// account's two check commands, and each was a success: nothing else happens
/// between a check and its command.
pub proof fn check_and_command_are_indivisible(start: BrokerView, events: Seq<Event>, i: int)
    requires
        start.stage is Idle,
        all_possible(start, events),
        0 <= i < events.len(),
        stepped(after_events(start, events.take(i)), events[i]).1 is Run,
    ensures
        i >= 2,
        events[i] is Ended && check_result(events[i]->Ended_outcome) == CheckResult::Success,
        events[i - 1] is Ended && check_result(events[i - 1]->Ended_outcome)
            == CheckResult::Success,
        ({
            let order = stepped(after_events(start, events.take(i)), events[i]).1->Run_0;
            &&& events[i - 2] matches Event::Request { request, control, .. }
            &&& !control.cancelled
            &&& request matches RequestView::Exec { account, timeout_nanos, arguments, context }
            &&& order == order_for(
                arguments,
                context,
                account,
                later(instant(events[i]), timeout_nanos),
            )
        }),
{
    let third = after_events(start, events.take(i));
    assert(possible(third, events[i]));
    command_follows_its_check(third, events[i]);
    let check = third.stage->Vault_0;
    assert(i > 0) by {
        if i == 0 {
            assert(events.take(0) =~= Seq::empty());
        }
    }
    lemma_event(start, events, i - 1);
    let second = after_events(start, events.take(i - 1));
    assert(possible(second, events[i - 1]));
    second_check_follows_the_first(second, events[i - 1]);
    assert(i > 1) by {
        if i == 1 {
            assert(events.take(0) =~= Seq::empty());
        }
    }
    lemma_event(start, events, i - 2);
    let first = after_events(start, events.take(i - 2));
    assert(possible(first, events[i - 2]));
    check_begins_for_an_active_account(first, events[i - 2]);
}

/// An account is active only if its user asked for it: of a broker that began
/// without records, the account was named by a start request after a warning,
/// and the authorization that followed succeeded.
pub proof fn active_account_was_authorized(
    start: BrokerView,
    events: Seq<Event>,
    account: Option<Seq<char>>,
) -> (asked: int)
    requires
        start.stage is Idle,
        start.records == RecordMap::empty(),
        all_possible(start, events),
        is_active(after_events(start, events).records, account),
    ensures
        0 <= asked,
        asked + 1 < events.len(),
        ({
            &&& events[asked] matches Event::Request { request, control, .. }
            &&& !control.cancelled
            &&& request matches RequestView::Start {
                warning_shown,
                account: named,
                op_path,
                ..
            }
            &&& warning_shown
            &&& named == account
            &&& op_path == start.op_path
        }),
        events[asked + 1] is Ended && check_result(events[asked + 1]->Ended_outcome)
            == CheckResult::Success,
    decreases events.len(),
{
    assert(events.len() > 0);
    let rest = events.drop_last();
    let last = events.len() - 1;
    assert(events.take(last) =~= rest);
    let before = after_events(start, rest);
    assert(possible(before, events[last]));
    assert(all_possible(start, rest)) by {
        assert forall|i: int| 0 <= i < rest.len() implies possible(
            after_events(start, rest.take(i)),
            #[trigger] rest[i],
        ) by {
            assert(rest.take(i) =~= events.take(i));
            assert(rest[i] == events[i]);
        }
    }
    if is_active(before.records, account) {
        active_account_was_authorized(start, rest, account)
    } else {
        only_authorization_activates(before, events[last], account);
        assert(rest.len() > 0);
        let i = rest.len() - 1;
        let earlier = after_events(start, events.take(i));
        lemma_event(start, events, i);
        assert(possible(earlier, events[i]));
        lemma_path(start, events.take(i));
        i
    }
}

/// What a caller puts behind the separator of `opp exec` is what `op` gets
/// behind its own name: the request is read as it was written, and the command
/// that the broker runs for it has the same arguments, the same working
/// directory and the sanitized environment.
pub proof fn arguments_reach_op_unchanged(
    command_line: Seq<Seq<u8>>,
    account: Option<Seq<char>>,
    context: ContextView,
    start: BrokerView,
    events: Seq<Event>,
    i: int,
)
    requires
        exec_action(command_line) is Ok,
        exec_action(command_line)->Ok_0 is Exec,
        valid_context(context),
        request_payload(exec_request(command_line, account, context)) is Ok,
        start.stage is Idle,
        all_possible(start, events),
        2 <= i < events.len(),
        stepped(after_events(start, events.take(i)), events[i]).1 is Run,
        events[i - 2] matches Event::Request { request, .. } && Result::<
            RequestView,
            Seq<char>,
        >::Ok(request) == request_of(
            REQUEST_EXEC,
            request_payload(exec_request(command_line, account, context))->Ok_0,
            3,
        ),
    ensures
        ({
            let order = stepped(after_events(start, events.take(i)), events[i]).1->Run_0;
            let op = encode_utf8(start.op_path);
            let passed = command_line.skip(separator_from(command_line, 0) + 1);
            &&& argument_vector(op, order.arguments) == seq![op] + passed
            &&& order.cwd == context.cwd
            &&& order.environment == sanitized_entries(context.environment, account)
        }),
{
    accepted_command_is_passed_on(command_line);
    request_is_read_back(exec_request(command_line, account, context));
    check_and_command_are_indivisible(start, events, i);
}

/// The request that a client sends for a command line.
pub open spec fn exec_request(
    command_line: Seq<Seq<u8>>,
    account: Option<Seq<char>>,
    context: ContextView,
) -> RequestView {
    let action = exec_action(command_line)->Ok_0;
    RequestView::Exec {
        account,
        timeout_nanos: action->timeout,
        arguments: action->arguments,
        context,
    }
}

/// The end of a command reaches the caller of `opp exec`: the broker's answer
/// is read as it was written, and the client leaves with the command's own
/// exit code, with 128 and the signal that ended it, or with 124 when its time
/// was up.
pub proof fn command_end_reaches_the_caller(outcome: ProcessOutcome, signal: i32, exit: Exit)
    requires
        plausible(Some(outcome)),
        outcome != ProcessOutcome::Shutdown,
        outcome != ProcessOutcome::Cancelled(0),
        ({
            let answer = command_reply(Some(outcome))->0;
            let read = response_of(response_kind(answer), response_payload(answer)->Ok_0, 0);
            read is Ok ==> execution_exit(exit, true, Some(read->Ok_0), signal)
        }),
    ensures
        ({
            let answer = command_reply(Some(outcome))->0;
            response_of(response_kind(answer), response_payload(answer)->Ok_0, 0) is Ok
        }),
        exit.code == (match outcome {
            ProcessOutcome::Exited(code) => code as int,
            ProcessOutcome::Signaled(number) => 128 + number,
            ProcessOutcome::Cancelled(number) => 128 + number,
            _ => 124,
        }),
{
    let answer = command_reply(Some(outcome))->0;
    lemma_be_length(signed_bits(answer->exit_code), 4);
    response_is_read_back(answer);
    command_end_is_passed_on(exit, outcome, signal);
}

/// A command without authorization leaves its caller with exit code 77 and the
/// text that tells an agent to stop, and nothing was run for it.
pub proof fn unauthorized_command_tells_its_caller(
    broker: BrokerView,
    request: RequestView,
    control: RequestControl,
    reading: Reading,
    signal: i32,
    exit: Exit,
)
    requires
        broker.stage is Idle,
        !control.cancelled,
        request is Exec,
        !is_active(expired(broker.records, reading.monotonic), request->Exec_account),
        ({
            let answer = handled(broker, request, control, reading).1->Reply_0;
            let read = response_of(response_kind(answer), response_payload(answer)->Ok_0, 0);
            read is Ok ==> execution_exit(exit, true, Some(read->Ok_0), signal)
        }),
    ensures
        handled(broker, request, control, reading).0.stage is Idle,
        exit.is(AUTHORIZATION_EXIT, AUTHORIZATION_REQUIRED@),
{
    unauthorized_command_is_refused(broker, request, control, reading);
    response_is_read_back(ResponseView::Error(ErrorCode::AuthorizationRequired));
}

/// An account's grant, which has not come to its hard deadline.
pub open spec fn holds_grant(
    records: RecordMap,
    account: Option<Seq<char>>,
    grant: ActiveAuthorization,
    now: u64,
) -> bool {
    &&& records.dom().contains(account)
    &&& records[account] == AuthorizationRecord::Active(grant)
    &&& now < grant.hard_deadline
}

/// No grant of the account is left at that instant.
pub open spec fn holds_no_grant(
    records: RecordMap,
    account: Option<Seq<char>>,
    now: u64,
) -> bool {
    records.dom().contains(account) ==> match records[account] {
        AuthorizationRecord::Active(grant) => grant.hard_deadline <= now,
        AuthorizationRecord::Required => true,
    }
}

/// A deadline lies a number of nanoseconds after an instant, or at the end of
/// the clock if that is earlier.
pub open spec fn lies_after(deadline: u64, base: u64, nanos: u64) -> bool {
    if base + nanos <= u64::MAX {
        deadline == base + nanos
    } else {
        deadline == u64::MAX
    }
}

/// A run of `op` with the given arguments, in the directory of a context, with
/// its environment made safe for the account.
pub open spec fn is_run_of(
    order: OrderView,
    arguments: Seq<Seq<u8>>,
    context: ContextView,
    account: Option<Seq<char>>,
) -> bool {
    &&& order.arguments == arguments
    &&& order.cwd == context.cwd
    &&& order.environment == sanitized_entries(context.environment, account)
}

/// The arguments of `op whoami`.
pub open spec fn whoami_words() -> Seq<Seq<u8>> {
    seq![encode_utf8("whoami"@)]
}

/// The arguments of `op vault list --format=json`.
pub open spec fn vault_list_words() -> Seq<Seq<u8>> {
    seq![encode_utf8("vault"@), encode_utf8("list"@), encode_utf8("--format=json"@)]
}

/// The answer to a request that was cancelled with a signal, or without one.
pub open spec fn is_cancel_answer(answer: ResponseView, signal: i32) -> bool {
    if signal > 0 {
        answer matches ResponseView::Exec { exit_code, diagnostic } && exit_code == 128 + signal
            && diagnostic == Diagnostic::Nothing
    } else {
        answer == ResponseView::Error(ErrorCode::Cancelled)
    }
}

/// A command of a check succeeds only by exiting with zero. That its client
/// went away or that the broker stops is no failure. Everything else is one:
/// another exit code, a signal, the end of its time, and that it could not be
/// run.
pub proof fn only_a_zero_exit_succeeds(outcome: Option<ProcessOutcome>)
    ensures
        check_result(outcome) == CheckResult::Success <==> outcome == Some(
            ProcessOutcome::Exited(0),
        ),
        check_result(outcome) == CheckResult::Cancelled <==> outcome is Some && outcome->0
            is Cancelled,
        check_result(outcome) == CheckResult::Shutdown <==> outcome == Some(
            ProcessOutcome::Shutdown,
        ),
{
}

/// A command for an account that holds a grant is checked first, by `op whoami`
/// in the client's context and with the account's environment, within the time
/// of a check. The grant is kept.
pub proof fn granted_command_is_checked(
    broker: BrokerView,
    account: Option<Seq<char>>,
    timeout_nanos: u64,
    arguments: Seq<Seq<u8>>,
    context: ContextView,
    control: RequestControl,
    reading: Reading,
    grant: ActiveAuthorization,
)
    requires
        broker.stage is Idle,
        !control.cancelled,
        holds_grant(broker.records, account, grant, reading.monotonic),
    ensures
        ({
            let request = RequestView::Exec { account, timeout_nanos, arguments, context };
            let (after, step) = handled(broker, request, control, reading);
            &&& step matches StepView::Probe(order)
            &&& is_run_of(order, whoami_words(), context, account)
            &&& lies_after(order.deadline, reading.monotonic, broker.timings.check_timeout)
            &&& after.stage matches StageView::Identity(check)
            &&& check.account == account
            &&& check.context == context
            &&& check.deadline == order.deadline
            &&& check.task == TaskView::Command { timeout_nanos, arguments }
            &&& after.records[account] == AuthorizationRecord::Active(grant)
        }),
{
}

/// A command for an account without a grant is refused, and nothing is run.
pub proof fn ungranted_command_is_refused(
    broker: BrokerView,
    account: Option<Seq<char>>,
    timeout_nanos: u64,
    arguments: Seq<Seq<u8>>,
    context: ContextView,
    control: RequestControl,
    reading: Reading,
)
    requires
        broker.stage is Idle,
        !control.cancelled,
        holds_no_grant(broker.records, account, reading.monotonic),
    ensures
        ({
            let request = RequestView::Exec { account, timeout_nanos, arguments, context };
            let (after, step) = handled(broker, request, control, reading);
            &&& step == StepView::Reply(ResponseView::Error(ErrorCode::AuthorizationRequired))
            &&& after.stage is Idle
        }),
{
}

/// After the first command of a check has succeeded, the second one runs: `op
/// vault list --format=json`, in the same context, for the same account and
/// with what is left of the same time. The records stay as they are.
pub proof fn check_goes_on_to_its_second_command(
    broker: BrokerView,
    check: CheckView,
    control: RequestControl,
    reading: Reading,
)
    requires
        broker.stage == StageView::Identity(check),
    ensures
        ({
            let (after, step) = resumed(
                broker,
                Some(ProcessOutcome::Exited(0)),
                control,
                reading,
            );
            &&& step matches StepView::Probe(order)
            &&& is_run_of(order, vault_list_words(), check.context, check.account)
            &&& order.deadline == check.deadline
            &&& after.stage == StageView::Vault(check)
            &&& after.records == broker.records
        }),
{
}

/// The grant after a success at an instant: it is checked again a whole
/// interval later, on both clocks, and nothing else about it changes.
pub open spec fn is_refreshed(
    after: ActiveAuthorization,
    before: ActiveAuthorization,
    timings: BrokerTimings,
    reading: Reading,
) -> bool {
    &&& after.next_probe_at == reading.wall + timings.maintenance_interval
    &&& lies_after(
        after.next_probe_deadline,
        reading.monotonic,
        timings.maintenance_interval,
    )
    &&& after.authorized_at == before.authorized_at
    &&& after.hard_expires_at == before.hard_expires_at
    &&& after.hard_deadline == before.hard_deadline
}

/// After a check has succeeded, the command that it was made for runs, as long
/// as the account holds its grant: with the client's own arguments, in its
/// directory, for its account, and with its whole timeout.
pub proof fn checked_command_runs(
    broker: BrokerView,
    check: CheckView,
    timeout_nanos: u64,
    arguments: Seq<Seq<u8>>,
    control: RequestControl,
    reading: Reading,
    grant: ActiveAuthorization,
)
    requires
        broker.stage == StageView::Vault(check),
        check.task == (TaskView::Command { timeout_nanos, arguments }),
        holds_grant(broker.records, check.account, grant, reading.monotonic),
        reading.wf(),
    ensures
        ({
            let (after, step) = resumed(
                broker,
                Some(ProcessOutcome::Exited(0)),
                control,
                reading,
            );
            &&& step matches StepView::Run(order)
            &&& is_run_of(order, arguments, check.context, check.account)
            &&& lies_after(order.deadline, reading.monotonic, timeout_nanos)
            &&& after.stage is Running
            &&& after.records.dom().contains(check.account)
            &&& after.records[check.account] matches AuthorizationRecord::Active(active)
            &&& is_refreshed(active, grant, broker.timings, reading)
        }),
{
}

/// A command whose account's grant ended during the check does not run.
pub proof fn late_command_is_refused(
    broker: BrokerView,
    check: CheckView,
    outcome: Option<ProcessOutcome>,
    control: RequestControl,
    reading: Reading,
)
    requires
        broker.stage == StageView::Vault(check),
        check.task is Command,
        outcome == Some(ProcessOutcome::Exited(0)),
        holds_no_grant(broker.records, check.account, reading.monotonic),
    ensures
        ({
            let (after, step) = resumed(broker, outcome, control, reading);
            &&& step == StepView::Reply(ResponseView::Error(ErrorCode::AuthorizationRequired))
            &&& after.stage is Idle
        }),
{
}

/// After every success for an account that stays active, be it an explicit
/// authorization, a check for a command, or a check to keep the grant, the
/// account is checked again a whole interval after that success: by the wall
/// clock that is reported, and by the monotonic clock that is gone by.
pub proof fn every_success_moves_the_next_check(
    broker: BrokerView,
    account: Option<Seq<char>>,
    control: RequestControl,
    reading: Reading,
)
    requires
        reading.wf(),
        match broker.stage {
            StageView::Authorizing { account: named, .. } => named == account,
            StageView::Vault(check) => check.account == account && broker.records.dom().contains(
                account,
            ) && broker.records[account] is Active,
            _ => false,
        },
    ensures
        ({
            let after = resumed(broker, Some(ProcessOutcome::Exited(0)), control, reading).0;
            let was_checked = broker.stage is Vault;
            &&& !was_checked || broker.stage->Vault_0.task is Maintenance || reading.monotonic
                < broker.records[account]->Active_0.hard_deadline ==> {
                &&& after.records.dom().contains(account)
                &&& after.records[account] matches AuthorizationRecord::Active(active)
                &&& active.next_probe_at == reading.wall + broker.timings.maintenance_interval
                &&& lies_after(
                    active.next_probe_deadline,
                    reading.monotonic,
                    broker.timings.maintenance_interval,
                )
                &&& was_checked ==> is_refreshed(
                    active,
                    broker.records[account]->Active_0,
                    broker.timings,
                    reading,
                )
            }
        }),
{
}

/// A check that keeps a grant runs nothing more when it has succeeded, and
/// touches no other account.
pub proof fn kept_grant_runs_nothing(
    broker: BrokerView,
    check: CheckView,
    control: RequestControl,
    reading: Reading,
    other: Option<Seq<char>>,
)
    requires
        broker.stage == StageView::Vault(check),
        check.task is Maintenance,
        other != check.account,
    ensures
        ({
            let (after, step) = resumed(
                broker,
                Some(ProcessOutcome::Exited(0)),
                control,
                reading,
            );
            &&& step is Silent
            &&& after.stage is Idle
            &&& after.records.dom().contains(other) == broker.records.dom().contains(other)
            &&& broker.records.dom().contains(other) ==> after.records[other]
                == broker.records[other]
        }),
{
}

/// A check that did not succeed ends with an answer, or in silence where nobody
/// waits for one. Only a check that a client or the broker itself broke off
/// leaves the grants.
pub proof fn unsuccessful_check_is_answered(
    broker: BrokerView,
    check: CheckView,
    outcome: Option<ProcessOutcome>,
    control: RequestControl,
    reading: Reading,
    account: Option<Seq<char>>,
)
    requires
        broker.stage == StageView::Identity(check) || broker.stage == StageView::Vault(check),
        outcome != Some(ProcessOutcome::Exited(0)),
        control.signal <= MAX_SIGNAL,
    ensures
        ({
            let (after, step) = resumed(broker, outcome, control, reading);
            let broken_off = outcome is Some && outcome->0 is Cancelled;
            let stopping = outcome == Some(ProcessOutcome::Shutdown);
            let revoked = after.records.dom().contains(account) == broker.records.dom().contains(
                account,
            ) && (broker.records.dom().contains(account) ==> after.records[account]
                == AuthorizationRecord::Required);
            &&& after.stage is Idle
            &&& check.task is Command && broken_off ==> after.records == broker.records && (
            step matches StepView::Reply(answer) && is_cancel_answer(answer, control.signal))
            &&& check.task is Command && stopping ==> after.records == broker.records && step
                is Silent
            &&& check.task is Command && !broken_off && !stopping ==> revoked && step
                == StepView::Reply(ResponseView::Error(ErrorCode::AuthorizationRequired))
            &&& check.task is Maintenance && stopping ==> after.records == broker.records && step
                is Stop
            &&& check.task is Maintenance && !stopping ==> revoked && step is Silent
        }),
{
}

/// The end of a client's command is answered with how it ended, or in silence
/// when the broker stops.
pub proof fn command_end_is_answered(
    broker: BrokerView,
    outcome: Option<ProcessOutcome>,
    control: RequestControl,
    reading: Reading,
)
    requires
        broker.stage is Running,
        signal_fits(outcome),
    ensures
        ({
            let (after, step) = resumed(broker, outcome, control, reading);
            &&& after.stage is Idle
            &&& match outcome {
                Some(ProcessOutcome::Exited(code)) => step == StepView::Reply(
                    ResponseView::Exec { exit_code: code, diagnostic: Diagnostic::Nothing },
                ),
                Some(ProcessOutcome::Signaled(signal)) => {
                    &&& step matches StepView::Reply(ResponseView::Exec { exit_code, diagnostic })
                    &&& exit_code == 128 + signal
                    &&& diagnostic == Diagnostic::Nothing
                },
                Some(ProcessOutcome::TimedOut) => step == StepView::Reply(
                    ResponseView::Exec { exit_code: 124, diagnostic: Diagnostic::Timeout },
                ),
                Some(ProcessOutcome::Cancelled(signal)) => {
                    &&& step matches StepView::Reply(answer)
                    &&& is_cancel_answer(answer, signal)
                },
                Some(ProcessOutcome::Shutdown) => step is Silent,
                None => step == StepView::Reply(ResponseView::Error(ErrorCode::ProcessStart)),
            }
        }),
{
}

/// A start request is refused for another `op`, succeeds at once for an account
/// that holds a grant, asks for the warning where its user has not seen it, and
/// otherwise begins an explicit authorization, from that instant: `op vault
/// list --format=json` in the client's context, within the time of an explicit
/// authorization.
pub proof fn start_authorizes_after_the_warning(
    broker: BrokerView,
    warning_shown: bool,
    account: Option<Seq<char>>,
    op_path: Seq<char>,
    context: ContextView,
    control: RequestControl,
    reading: Reading,
)
    requires
        broker.stage is Idle,
        !control.cancelled,
    ensures
        ({
            let request = RequestView::Start { warning_shown, account, op_path, context };
            let (after, step) = handled(broker, request, control, reading);
            let granted = broker.records.dom().contains(account) && (
            broker.records[account] matches AuthorizationRecord::Active(grant)
                && reading.monotonic < grant.hard_deadline);
            &&& op_path != broker.op_path ==> step == StepView::Reply(
                ResponseView::Error(ErrorCode::OpPathMismatch),
            ) && after.stage is Idle
            &&& op_path == broker.op_path && granted ==> step == StepView::Reply(
                ResponseView::Accepted,
            ) && after.stage is Idle
            &&& op_path == broker.op_path && !granted && !warning_shown ==> step
                == StepView::Reply(ResponseView::NeedWarning) && after.stage is Idle
            &&& op_path == broker.op_path && !granted && warning_shown ==> {
                &&& step matches StepView::Probe(order)
                &&& is_run_of(order, vault_list_words(), context, account)
                &&& lies_after(
                    order.deadline,
                    reading.monotonic,
                    broker.timings.explicit_timeout,
                )
                &&& after.stage == (StageView::Authorizing { account, began: reading })
                &&& after.records.dom().contains(account)
                &&& after.records[account] == AuthorizationRecord::Required
            }
        }),
{
}

/// An explicit authorization gives its account a grant exactly where its
/// command exits with zero, for the hard limit from when it began. Otherwise it
/// leaves the records as they are. Either way it is answered, unless the broker
/// stops.
pub proof fn authorization_ends_in_a_grant(
    broker: BrokerView,
    account: Option<Seq<char>>,
    began: Reading,
    outcome: Option<ProcessOutcome>,
    control: RequestControl,
    reading: Reading,
)
    requires
        broker.stage == (StageView::Authorizing { account, began }),
        began.wf(),
        reading.wf(),
        control.signal <= MAX_SIGNAL,
    ensures
        ({
            let (after, step) = resumed(broker, outcome, control, reading);
            &&& after.stage is Idle
            &&& outcome == Some(ProcessOutcome::Exited(0)) ==> {
                &&& step == StepView::Reply(ResponseView::Accepted)
                &&& after.records.dom() == broker.records.dom().insert(account)
                &&& after.records[account] matches AuthorizationRecord::Active(grant)
                &&& grant.authorized_at == began.wall
                &&& grant.hard_expires_at == began.wall + broker.timings.hard_limit
                &&& lies_after(grant.hard_deadline, began.monotonic, broker.timings.hard_limit)
                &&& grant.next_probe_at == reading.wall + broker.timings.maintenance_interval
                &&& lies_after(
                    grant.next_probe_deadline,
                    reading.monotonic,
                    broker.timings.maintenance_interval,
                )
            }
            &&& outcome != Some(ProcessOutcome::Exited(0)) ==> {
                &&& after.records == broker.records
                &&& match outcome {
                    Some(ProcessOutcome::Cancelled(_)) => step matches StepView::Reply(answer)
                        && is_cancel_answer(answer, control.signal),
                    Some(ProcessOutcome::Shutdown) => step is Silent,
                    _ => step == StepView::Reply(
                        ResponseView::Error(ErrorCode::AuthorizationFailed),
                    ),
                }
            }
        }),
{
    let (after, step) = resumed(broker, outcome, control, reading);
    if outcome == Some(ProcessOutcome::Exited(0)) {
        assert(after.records.dom() =~= broker.records.dom().insert(account));
    }
}

/// A status says of the broker what it is, and of the account, whether it has a
/// selector or not, exactly what its record says: an account that holds a grant
/// is active, with the three instants of its grant in RFC 3339; every other
/// account is to be authorized again, with none of them.
pub proof fn status_reports_the_record(
    broker: BrokerView,
    account: Option<Seq<char>>,
    control: RequestControl,
    reading: Reading,
) -> (members: Seq<(Seq<char>, FieldView)>)
    requires
        broker.stage is Idle,
        !control.cancelled,
    ensures
        handled(broker, RequestView::Status { account }, control, reading).1 == StepView::Reply(
            ResponseView::Status(json_object(members)),
        ),
        distinct_names(members),
        forall|i: int| 0 <= i < members.len() ==> is_member_name(#[trigger] members[i].0),
        has_member(members, "schema_version"@, Some(FieldView::Number(1))),
        has_member(members, "running"@, Some(FieldView::Flag(true))),
        has_member(members, "account_selector"@, text_value(account)),
        has_member(members, "op_path"@, Some(FieldView::Text(broker.op_path))),
        has_member(members, "broker_version"@, Some(FieldView::Text("0.1.0"@))),
        has_member(members, "started_at"@, text_value(rfc3339(broker.started_at as int))),
        forall|grant: ActiveAuthorization| #[trigger]
            holds_grant(broker.records, account, grant, reading.monotonic) ==> {
                &&& has_member(members, "authorization"@, Some(FieldView::Text("active"@)))
                &&& has_member(
                    members,
                    "authorized_at"@,
                    text_value(rfc3339(grant.authorized_at as int)),
                )
                &&& has_member(
                    members,
                    "hard_expires_at"@,
                    text_value(rfc3339(grant.hard_expires_at as int)),
                )
                &&& has_member(
                    members,
                    "next_probe_at"@,
                    text_value(rfc3339(grant.next_probe_at as int)),
                )
            },
        holds_no_grant(broker.records, account, reading.monotonic) ==> {
            &&& has_member(
                members,
                "authorization"@,
                Some(FieldView::Text("reauthorization_required"@)),
            )
            &&& has_member(members, "authorized_at"@, None)
            &&& has_member(members, "hard_expires_at"@, None)
            &&& has_member(members, "next_probe_at"@, None)
        },
{
    let after = handled(broker, RequestView::Status { account }, control, reading).0;
    let status = reported(after, account);
    status_has_its_members(status);
    status_members(status)
}

/// A grant is kept by a check like that of a command, in the user's home and
/// with the environment of a check that no client asked for. An account without
/// a grant is left alone.
pub proof fn maintenance_checks_a_held_grant(
    broker: BrokerView,
    account: Option<Seq<char>>,
    path: Seq<u8>,
    tmpdir: Option<Seq<u8>>,
    reading: Reading,
)
    requires
        broker.stage is Idle,
    ensures
        ({
            let (after, step) = maintained(broker, account, path, tmpdir, reading);
            let environment = maintenance_entries(
                broker.home,
                broker.name,
                path,
                tmpdir,
                account,
            );
            let context = ContextView { cwd: broker.home, environment };
            &&& forall|grant: ActiveAuthorization| #[trigger]
                holds_grant(broker.records, account, grant, reading.monotonic) ==> {
                    &&& step matches StepView::Probe(order)
                    &&& is_run_of(order, whoami_words(), context, account)
                    &&& lies_after(
                        order.deadline,
                        reading.monotonic,
                        broker.timings.check_timeout,
                    )
                    &&& after.stage matches StageView::Identity(check)
                    &&& check.account == account
                    &&& check.context == context
                    &&& check.deadline == order.deadline
                    &&& check.task is Maintenance
                    &&& after.records[account] == AuthorizationRecord::Active(grant)
                }
            &&& holds_no_grant(broker.records, account, reading.monotonic) ==> step is Silent
                && after.stage is Idle
        }),
{
}

/// A request that was cancelled while it waited is answered so, and changes
/// nothing. Only a command's caller is told of the signal.
pub proof fn cancelled_request_is_answered(
    broker: BrokerView,
    request: RequestView,
    control: RequestControl,
    reading: Reading,
)
    requires
        control.cancelled,
        control.signal <= MAX_SIGNAL,
    ensures
        ({
            let (after, step) = handled(broker, request, control, reading);
            &&& after == broker
            &&& step matches StepView::Reply(answer)
            &&& if request is Exec {
                is_cancel_answer(answer, control.signal)
            } else {
                answer == ResponseView::Error(ErrorCode::Cancelled)
            }
        }),
{
}

/// Nothing that happens changes the broker's settings: its `op`, its user, its
/// times and when it began.
pub proof fn settings_stay(broker: BrokerView, event: Event)
    ensures
        stepped(broker, event).0.op_path == broker.op_path,
        stepped(broker, event).0.home == broker.home,
        stepped(broker, event).0.name == broker.name,
        stepped(broker, event).0.timings == broker.timings,
        stepped(broker, event).0.started_at == broker.started_at,
{
}

/// The broker takes a queued request before it keeps a grant, keeps a grant
/// before it waits, and waits until the first grant asks for attention, but no
/// longer than a tenth of a second. It stops where it is to, and
/// only then.
pub proof fn turns_are_taken_in_order(
    records: RecordMap,
    shutdown: bool,
    polled: Polled,
    now: u64,
    turn: Turn,
)
    requires
        turn_allowed(records, shutdown, polled, now, turn),
    ensures
        turn is Finish <==> shutdown || polled == Polled::Stop || polled == Polled::Disconnected,
        turn is Handle <==> !shutdown && polled == Polled::Request,
        turn matches Turn::Maintain(account) ==> {
            &&& polled == Polled::Empty
            &&& records.dom().contains(account@)
            &&& records[account@] matches AuthorizationRecord::Active(grant)
            &&& grant.next_probe_deadline <= now
        },
        turn matches Turn::Wait(wait) ==> {
            &&& polled == Polled::Empty
            &&& wait <= 100_000_000
            &&& forall|account: Option<Seq<char>>| #[trigger]
                records.dom().contains(account) && records[account] is Active ==> {
                    let grant = records[account]->Active_0;
                    &&& now < grant.next_probe_deadline
                    &&& now + wait <= grant.next_probe_deadline
                    &&& now < grant.hard_deadline ==> now + wait <= grant.hard_deadline
                }
            &&& wait == 100_000_000 || exists|account: Option<Seq<char>>| #[trigger]
                records.dom().contains(account) && records[account] is Active && {
                    let grant = records[account]->Active_0;
                    ||| now + wait == grant.next_probe_deadline
                    ||| now + wait == grant.hard_deadline
                    ||| wait == 0 && grant.hard_deadline <= now
                }
        },
{
    if let Turn::Wait(wait) = turn {
        assert forall|account: Option<Seq<char>>| #[trigger]
            records.dom().contains(account) && records[account] is Active implies {
            let grant = records[account]->Active_0;
            &&& now < grant.next_probe_deadline
            &&& now + wait <= grant.next_probe_deadline
            &&& now < grant.hard_deadline ==> now + wait <= grant.hard_deadline
        } by {
            assert(!records[account].is_due(now));
            assert(records[account].attention() is Some);
        }
        if wait != 100_000_000 {
            let account = choose|account: Option<Seq<char>>| #[trigger]
                records.dom().contains(account) && records[account].attention() is Some && wait
                    == time_left(now, records[account].attention()->0);
            assert(records.dom().contains(account) && records[account] is Active);
        }
    }
}

/// Before the broker does anything, the grants whose hard deadline has come are
/// gone. The others stay, and so does everything else.
pub proof fn every_turn_ends_old_grants(
    broker: BrokerView,
    now: u64,
    account: Option<Seq<char>>,
)
    ensures
        ({
            let after = turned(broker, false, now);
            &&& after.stage == broker.stage
            &&& after.records.dom().contains(account) == broker.records.dom().contains(account)
            &&& forall|grant: ActiveAuthorization| #[trigger]
                holds_grant(broker.records, account, grant, now) ==> after.records[account]
                    == AuthorizationRecord::Active(grant)
            &&& holds_no_grant(broker.records, account, now) && broker.records.dom().contains(
                account,
            ) ==> after.records[account] == AuthorizationRecord::Required
            &&& after.op_path == broker.op_path && after.timings == broker.timings
            &&& after.home == broker.home && after.name == broker.name
            &&& after.started_at == broker.started_at
        }),
        turned(broker, true, now) == broker,
{
}

/// A broker knows of no account when it begins, nor when it has stopped, and
/// then runs nothing.
pub proof fn brokers_begin_and_end_without_grants(
    broker: BrokerView,
    op_path: Seq<char>,
    home: Seq<u8>,
    name: Seq<char>,
    timings: BrokerTimings,
    started_at: i128,
    account: Option<Seq<char>>,
)
    ensures
        !closed(broker).records.dom().contains(account),
        closed(broker).stage is Idle,
        ({
            let fresh = begun(op_path, home, name, timings, started_at);
            &&& !fresh.records.dom().contains(account)
            &&& fresh.stage is Idle
            &&& fresh.op_path == op_path && fresh.home == home && fresh.name == name
            &&& fresh.timings == timings && fresh.started_at == started_at
        }),
{
}

proof fn lemma_path(start: BrokerView, events: Seq<Event>)
    ensures
        after_events(start, events).op_path == start.op_path,
    decreases events.len(),
{
    if events.len() > 0 {
        lemma_path(start, events.drop_last());
    }
}

} // verus!
