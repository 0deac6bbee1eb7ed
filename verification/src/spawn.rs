//! What a child process is spawned with, and how the broker's terminal is
//! drained.
use crate::bytes::{byte_lists, copy_bytes, has_byte};
use crate::codec::{valid_context, valid_entry};
use crate::environment::{
    account_key, biometric_key, entries, sanitized_entries, untouched, ContextView,
};
use crate::protocol::valid_arguments;
use vstd::prelude::*;
use vstd::utf8::encode_utf8;

verus! {

/// What a child is spawned with: byte strings without NUL, as the system takes
/// them.
#[derive(Debug)]
pub struct SpawnPlan {
    pub executable: Vec<u8>,
    pub cwd: Vec<u8>,
    pub arguments: Vec<Vec<u8>>,
    pub environment: Vec<Vec<u8>>,
}

/// One of the byte strings holds NUL.
pub open spec fn some_nul(values: Seq<Seq<u8>>) -> bool {
    exists|i: int| 0 <= i < values.len() && (#[trigger] values[i]).contains(0)
}

/// The arguments of a child: its own path, then the given ones.
pub open spec fn argument_vector(executable: Seq<u8>, arguments: Seq<Seq<u8>>) -> Seq<Seq<u8>> {
    seq![executable] + arguments
}

/// An environment entry as the system takes it.
pub open spec fn assignment(entry: (Seq<u8>, Seq<u8>)) -> Seq<u8> {
    entry.0.push(0x3d) + entry.1
}

/// An environment as the system takes it.
pub open spec fn assignments(environment: Seq<(Seq<u8>, Seq<u8>)>) -> Seq<Seq<u8>> {
    environment.map_values(|entry: (Seq<u8>, Seq<u8>)| assignment(entry))
}

/// Whatever a client validly asks for can be spawned: no part of a valid
/// context, of valid arguments or of the forced variables holds NUL.
pub proof fn valid_order_can_be_spawned(
    op_path: Seq<char>,
    arguments: Seq<Seq<u8>>,
    context: ContextView,
    account: Option<Seq<char>>,
)
    requires
        !encode_utf8(op_path).contains(0),
        valid_arguments(arguments),
        valid_context(context),
        account matches Some(selector) ==> !encode_utf8(selector).contains(0),
    ensures
        !context.cwd.contains(0),
        !some_nul(argument_vector(encode_utf8(op_path), arguments)),
        !some_nul(assignments(sanitized_entries(context.environment, account))),
{
    let vector = argument_vector(encode_utf8(op_path), arguments);
    assert forall|i: int| 0 <= i < vector.len() implies !(#[trigger] vector[i]).contains(0) by {
        if i > 0 {
            assert(vector[i] == arguments[i - 1]);
        }
    }
    let all = sanitized_entries(context.environment, account);
    let kept = context.environment.filter(untouched());
    let block = assignments(all);
    lemma_forced_texts();
    assert forall|i: int| 0 <= i < block.len() implies !(#[trigger] block[i]).contains(0) by {
        let entry = all[i];
        assert(block[i] == assignment(entry));
        if i < kept.len() {
            assert(entry == kept[i]);
            assert(kept.contains(kept[i]));
            context.environment.lemma_filter_contains_rev(untouched(), kept[i]);
            let j = choose|j: int|
                0 <= j < context.environment.len() && context.environment[j] == kept[i];
            assert(valid_entry(context.environment[j]));
        }
        assert(!entry.0.contains(0) && !entry.1.contains(0));
        assert forall|k: int| 0 <= k < block[i].len() implies block[i][k] != 0 by {
            if k < entry.0.len() {
                assert(entry.0.contains(entry.0[k]));
            } else if k > entry.0.len() {
                assert(entry.1.contains(entry.1[k - entry.0.len() - 1]));
            }
        }
    }
}

proof fn lemma_forced_texts()
    ensures
        !biometric_key().contains(0),
        !account_key().contains(0),
        !encode_utf8("true"@).contains(0),
{
    broadcast use vstd::utf8::is_ascii_chars_encode_utf8;

    reveal_strlit("OP_BIOMETRIC_UNLOCK_ENABLED");
    reveal_strlit("OP_ACCOUNT");
    reveal_strlit("true");
    assert(vstd::utf8::is_ascii_chars("OP_BIOMETRIC_UNLOCK_ENABLED"@));
    assert(vstd::utf8::is_ascii_chars("OP_ACCOUNT"@));
    assert(vstd::utf8::is_ascii_chars("true"@));
}

/// Plans a child. No byte string that it is spawned with may hold NUL.
pub fn spawn_plan(
    executable: &str,
    arguments: &Vec<Vec<u8>>,
    environment: &Vec<(Vec<u8>, Vec<u8>)>,
    cwd: &[u8],
) -> (plan: Result<SpawnPlan, &'static str>)
    ensures
        ({
            let path = encode_utf8(executable@);
            let vector = argument_vector(path, byte_lists(arguments@));
            let block = assignments(entries(environment@));
            if cwd@.contains(0) || some_nul(vector) || some_nul(block) {
                plan matches Err(message) && message@ == "process value contains NUL"@
            } else {
                plan matches Ok(plan) && plan.executable@ == path && plan.cwd@ == cwd@
                    && byte_lists(plan.arguments@) == vector && byte_lists(plan.environment@)
                    == block
            }
        }),
{
    let path = copy_bytes(executable.as_bytes());
    let mut vector: Vec<Vec<u8>> = Vec::new();
    vector.push(copy_bytes(path.as_slice()));
    let ghost all = byte_lists(arguments@);
    let mut index: usize = 0;
    assert(byte_lists(vector@) =~= argument_vector(path@, all.take(0)));
    while index < arguments.len()
        invariant
            index <= arguments.len(),
            all == byte_lists(arguments@),
            byte_lists(vector@) == argument_vector(path@, all.take(index as int)),
        decreases arguments.len() - index,
    {
        let ghost before = vector@;
        vector.push(copy_bytes(arguments[index].as_slice()));
        proof {
            assert(byte_lists(vector@) =~= byte_lists(before).push(all[index as int]));
            assert(all.take(index + 1) =~= all.take(index as int).push(all[index as int]));
            assert(byte_lists(vector@) =~= argument_vector(path@, all.take(index + 1)));
        }
        index = index + 1;
    }
    assert(all.take(all.len() as int) =~= all);
    let block = environment_block(environment);
    if has_byte(cwd, 0) || any_nul(&vector) || any_nul(&block) {
        return Err("process value contains NUL");
    }
    Ok(SpawnPlan { executable: path, cwd: copy_bytes(cwd), arguments: vector, environment: block })
}

/// An environment as the system takes it.
fn environment_block(environment: &Vec<(Vec<u8>, Vec<u8>)>) -> (block: Vec<Vec<u8>>)
    ensures
        byte_lists(block@) == assignments(entries(environment@)),
{
    let mut block: Vec<Vec<u8>> = Vec::new();
    let mut index: usize = 0;
    while index < environment.len()
        invariant
            index <= environment.len(),
            block.len() == index,
            forall|i: int|
                0 <= i < index ==> (#[trigger] block@[i])@ == assignment(
                    (environment@[i].0@, environment@[i].1@),
                ),
        decreases environment.len() - index,
    {
        let mut entry = copy_bytes(environment[index].0.as_slice());
        entry.push(0x3d);
        entry.extend_from_slice(environment[index].1.as_slice());
        proof {
            let pair = environment@[index as int];
            assert(entry@ =~= assignment((pair.0@, pair.1@)));
        }
        block.push(entry);
        index = index + 1;
    }
    assert(byte_lists(block@) =~= assignments(entries(environment@)));
    block
}

/// Whether one of the byte strings holds NUL.
fn any_nul(values: &Vec<Vec<u8>>) -> (found: bool)
    ensures
        found == some_nul(byte_lists(values@)),
{
    let ghost all = byte_lists(values@);
    let mut index: usize = 0;
    while index < values.len()
        invariant
            index <= values.len(),
            all == byte_lists(values@),
            forall|i: int| 0 <= i < index ==> !(#[trigger] all[i]).contains(0),
        decreases values.len() - index,
    {
        assert(all[index as int] == values@[index as int]@);
        if has_byte(values[index].as_slice(), 0) {
            return true;
        }
        index = index + 1;
    }
    false
}

/// What a spawn function's result stands for: zero is success, anything else
/// an error code.
pub fn cvt_spawn(result: i32) -> (converted: Result<(), i32>)
    ensures
        converted == (if result == 0 {
            Result::<(), i32>::Ok(())
        } else {
            Result::<(), i32>::Err(result)
        }),
{
    if result == 0 {
        Ok(())
    } else {
        Err(result)
    }
}

/// What a read from the terminal came to.
#[derive(Clone, Copy, Debug, PartialEq, Eq, Structural)]
pub enum DrainRead {
    Bytes(usize),
    WouldBlock,
    Failed(i32),
}

/// What draining the terminal does next.
#[derive(Clone, Copy, Debug, PartialEq, Eq, Structural)]
pub enum DrainAction {
    Read,
    Pause,
    Stop,
}

/// `libc::EIO`, which is 5 on macOS and on Linux.
#[verifier::external_body]
fn eio() -> (code: i32)
    ensures
        code == 5,
{
    libc::EIO
}

/// What draining the terminal does after a read. While no process has the
/// terminal open, reading fails with an I/O error, which passes.
pub fn drain_terminal(read: DrainRead) -> (action: DrainAction)
    ensures
        action == (match read {
            DrainRead::Bytes(count) => if count == 0 {
                DrainAction::Stop
            } else {
                DrainAction::Read
            },
            DrainRead::WouldBlock => DrainAction::Pause,
            DrainRead::Failed(code) => if code == 5 {
                DrainAction::Pause
            } else {
                DrainAction::Stop
            },
        }),
{
    match read {
        DrainRead::Bytes(count) => {
            if count == 0 {
                DrainAction::Stop
            } else {
                DrainAction::Read
            }
        },
        DrainRead::WouldBlock => DrainAction::Pause,
        DrainRead::Failed(code) => {
            if code == eio() {
                DrainAction::Pause
            } else {
                DrainAction::Stop
            }
        },
    }
}

/// A child gets its own path as its first argument and then the given ones, in
/// their order, and each variable as its name, an equals sign and its value.
pub proof fn child_gets_what_is_planned(
    executable: Seq<u8>,
    arguments: Seq<Seq<u8>>,
    environment: Seq<(Seq<u8>, Seq<u8>)>,
)
    ensures
        argument_vector(executable, arguments).len() == arguments.len() + 1,
        argument_vector(executable, arguments)[0] == executable,
        forall|i: int|
            0 <= i < arguments.len() ==> #[trigger] argument_vector(executable, arguments)[i + 1]
                == arguments[i],
        assignments(environment).len() == environment.len(),
        forall|i: int|
            0 <= i < environment.len() ==> #[trigger] assignments(environment)[i]
                == environment[i].0 + seq![0x3du8] + environment[i].1,
{
    assert forall|i: int| 0 <= i < environment.len() implies #[trigger] assignments(environment)[i]
        == environment[i].0 + seq![0x3du8] + environment[i].1 by {
        assert(environment[i].0.push(0x3d) =~= environment[i].0 + seq![0x3du8]);
    }
}

/// What is planned for a child holds NUL exactly where one of its byte strings
/// does, and every byte string counts.
pub proof fn every_byte_string_counts(values: Seq<Seq<u8>>, i: int, j: int)
    requires
        0 <= i < values.len(),
        0 <= j < values[i].len(),
    ensures
        values[i][j] == 0 ==> some_nul(values),
        some_nul(values) ==> exists|k: int| 0 <= k < values.len() && values[k].contains(0),
{
    if values[i][j] == 0 {
        assert(values[i].contains(0));
    }
}

} // verus!
