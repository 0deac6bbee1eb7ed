//! The fields that messages are made of: how they are written and read.
use crate::account::Account;
use crate::bytes::{
    be_bytes, be_value, byte_capacity, copy_bytes, has_byte, lemma_be_canonical, lemma_be_length,
    lemma_be_round_trip, lemma_capacities, push_be, read_be, stands_at, utf8_text,
};
use crate::environment::{entries, ClientContext, ContextView};
use vstd::prelude::*;
use vstd::slice::slice_subrange;
use vstd::utf8::{decode_utf8, encode_utf8, valid_utf8};

verus! {

/// The most bytes that a frame carries after its header.
pub const MAX_PAYLOAD: usize = 0x20_0000;

/// Why data could not be written or was not accepted.
#[derive(Clone, Copy, Debug)]
pub struct WireError {
    pub message: &'static str,
}

impl View for WireError {
    type V = Seq<char>;

    open spec fn view(&self) -> Seq<char> {
        self.message@
    }
}

/// The error with the given message.
pub fn invalid(message: &'static str) -> (error: WireError)
    ensures
        error@ == message@,
{
    WireError { message }
}

/// The written form of a value, or the message of the error that writing it
/// ends in.
pub type Written = Result<Seq<u8>, Seq<char>>;

/// One written form after another.
pub open spec fn joined(first: Written, second: Written) -> Written {
    match (first, second) {
        (Ok(left), Ok(right)) => Ok(left + right),
        (Err(message), _) => Err(message),
        (_, Err(message)) => Err(message),
    }
}

/// A count in `width` bytes, where it fits below `limit`.
pub open spec fn written_count(count: nat, width: nat, limit: nat, message: Seq<char>) -> Written {
    if count <= limit {
        Ok(be_bytes(count, width))
    } else {
        Err(message)
    }
}

/// A byte string behind its length.
pub open spec fn written_bytes(value: Seq<u8>) -> Written {
    joined(
        written_count(value.len(), 4, u32::MAX as nat, "field is too large"@),
        Ok(value),
    )
}

/// An account: a presence flag, then the selector if there is one.
pub open spec fn written_account(account: Option<Seq<char>>) -> Written {
    match account {
        Some(selector) => joined(Ok(seq![1u8]), written_bytes(encode_utf8(selector))),
        None => Ok(seq![0u8]),
    }
}

/// Byte strings, one after another.
pub open spec fn written_list(values: Seq<Seq<u8>>) -> Written
    decreases values.len(),
{
    if values.len() == 0 {
        Ok(Seq::empty())
    } else {
        joined(written_list(values.drop_last()), written_bytes(values.last()))
    }
}

/// Environment entries, one after another: each a key, then a value.
pub open spec fn written_entries(values: Seq<(Seq<u8>, Seq<u8>)>) -> Written
    decreases values.len(),
{
    if values.len() == 0 {
        Ok(Seq::empty())
    } else {
        joined(
            joined(written_entries(values.drop_last()), written_bytes(values.last().0)),
            written_bytes(values.last().1),
        )
    }
}

/// A context: the working directory, the number of entries, the entries.
pub open spec fn written_context(context: ContextView) -> Written {
    joined(
        joined(
            written_bytes(context.cwd),
            written_count(
                context.environment.len(),
                4,
                u32::MAX as nat,
                "too many environment entries"@,
            ),
        ),
        written_entries(context.environment),
    )
}

/// A payload, where it is not too large for a frame.
pub open spec fn finished(written: Written) -> Written {
    match written {
        Ok(payload) if payload.len() > MAX_PAYLOAD => Err("protocol payload is too large"@),
        _ => written,
    }
}

/// What entries leave written when one of them is refused: those before it,
/// and its key if only its value is refused.
pub open spec fn entries_left(values: Seq<(Seq<u8>, Seq<u8>)>) -> Seq<u8>
    decreases values.len(),
{
    if values.len() == 0 {
        Seq::empty()
    } else {
        match written_entries(values.drop_last()) {
            Ok(done) => match written_bytes(values.last().0) {
                Ok(key) => done + key,
                Err(_) => done,
            },
            Err(_) => entries_left(values.drop_last()),
        }
    }
}

/// What a context leaves written when it is refused: the parts before the one
/// that is.
pub open spec fn context_left(context: ContextView) -> Seq<u8> {
    let count = written_count(
        context.environment.len(),
        4,
        u32::MAX as nat,
        "too many environment entries"@,
    );
    match (written_bytes(context.cwd), count) {
        (Ok(directory), Ok(count)) => directory + count + entries_left(context.environment),
        (Ok(directory), Err(_)) => directory,
        (Err(_), _) => Seq::empty(),
    }
}

/// What happens to the bytes written so far when one more value is written, of
/// which `left` stays behind if it is refused.
pub open spec fn appended(
    before: Seq<u8>,
    written: Written,
    left: Seq<u8>,
    result: Result<(), WireError>,
    after: Seq<u8>,
) -> bool {
    match written {
        Ok(bytes) => result is Ok && after == before + bytes,
        Err(message) => result matches Err(error) && error@ == message && after == before + left,
    }
}

/// Writes the fields of a payload.
pub struct Encoder {
    bytes: Vec<u8>,
}

impl View for Encoder {
    type V = Seq<u8>;

    closed spec fn view(&self) -> Seq<u8> {
        self.bytes@
    }
}

impl Encoder {
    /// An encoder that has written nothing.
    pub fn new() -> (encoder: Self)
        ensures
            encoder@ == Seq::<u8>::empty(),
    {
        Encoder { bytes: Vec::new() }
    }

    /// Writes one byte.
    pub fn u8(&mut self, value: u8)
        ensures
            final(self)@ == old(self)@.push(value),
    {
        self.bytes.push(value);
    }

    /// Writes two bytes, most significant first.
    pub fn u16(&mut self, value: u16)
        ensures
            final(self)@ == old(self)@ + be_bytes(value as nat, 2),
    {
        push_be(&mut self.bytes, value as u64, 2);
    }

    /// Writes four bytes, most significant first.
    pub fn u32(&mut self, value: u32)
        ensures
            final(self)@ == old(self)@ + be_bytes(value as nat, 4),
    {
        push_be(&mut self.bytes, value as u64, 4);
    }

    /// Writes eight bytes, most significant first.
    pub fn u64(&mut self, value: u64)
        ensures
            final(self)@ == old(self)@ + be_bytes(value as nat, 8),
    {
        push_be(&mut self.bytes, value, 8);
    }

    /// Writes a byte string behind its length.
    pub fn bytes(&mut self, value: &[u8]) -> (result: Result<(), WireError>)
        ensures
            appended(old(self)@, written_bytes(value@), Seq::empty(), result, final(self)@),
    {
        if value.len() > 0xffff_ffff {
            assert(self@ =~= old(self)@ + Seq::<u8>::empty());
            return Err(invalid("field is too large"));
        }
        self.u32(value.len() as u32);
        self.bytes.extend_from_slice(value);
        assert(self@ =~= old(self)@ + (be_bytes(value@.len(), 4) + value@));
        Ok(())
    }

    /// Writes the UTF-8 bytes of a string.
    pub fn string(&mut self, value: &str) -> (result: Result<(), WireError>)
        ensures
            appended(
                old(self)@,
                written_bytes(encode_utf8(value@)),
                Seq::empty(),
                result,
                final(self)@,
            ),
    {
        self.bytes(value.as_bytes())
    }

    /// Writes an account selector.
    pub fn account(&mut self, account: &Account) -> (result: Result<(), WireError>)
        ensures
            appended(old(self)@, written_account(account@), seq![1u8], result, final(self)@),
    {
        match account.explicit() {
            Some(selector) => {
                self.u8(1);
                let result = self.string(selector);
                proof {
                    let middle = old(self)@.push(1u8);
                    assert(middle =~= old(self)@ + seq![1u8]);
                    match written_bytes(encode_utf8(selector@)) {
                        Ok(bytes) => {
                            assert(middle + bytes =~= old(self)@ + (seq![1u8] + bytes));
                        },
                        Err(_) => {
                            assert(middle + Seq::<u8>::empty() =~= middle);
                        },
                    }
                }
                result
            },
            None => {
                self.u8(0);
                assert(self@ =~= old(self)@ + seq![0u8]);
                Ok(())
            },
        }
    }

    /// Writes a working directory and an environment.
    pub fn context(&mut self, context: &ClientContext) -> (result: Result<(), WireError>)
        ensures
            appended(
                old(self)@,
                written_context(context@),
                context_left(context@),
                result,
                final(self)@,
            ),
    {
        let ghost start = self@;
        let ghost all = context@.environment;
        let ghost directory = written_bytes(context@.cwd);
        let ghost count = written_count(
            all.len(),
            4,
            u32::MAX as nat,
            "too many environment entries"@,
        );
        match self.bytes(&context.cwd) {
            Ok(()) => {},
            Err(error) => return Err(error),
        }
        if context.environment.len() > 0xffff_ffff {
            return Err(invalid("too many environment entries"));
        }
        self.u32(context.environment.len() as u32);
        let ghost head = joined(directory, count);
        let mut index: usize = 0;
        proof {
            assert(all.take(0) =~= Seq::empty());
            assert(head is Ok);
            assert(self@ =~= start + head->Ok_0);
            assert(joined(head, written_entries(all.take(0)))->Ok_0 =~= head->Ok_0);
        }
        while index < context.environment.len()
            invariant
                index <= context.environment.len(),
                start == old(self)@,
                all == entries(context.environment@),
                written_context(context@) == joined(head, written_entries(all)),
                head is Ok,
                context_left(context@) == head->Ok_0 + entries_left(all),
                joined(head, written_entries(all.take(index as int))) is Ok,
                self@ == start + joined(head, written_entries(all.take(index as int)))->Ok_0,
            decreases context.environment.len() - index,
        {
            proof {
                lemma_entries_step(all, index as int);
                assert(all[index as int].0 == context.environment@[index as int].0@);
                assert(all[index as int].1 == context.environment@[index as int].1@);
            }
            let (key, value) = (&context.environment[index].0, &context.environment[index].1);
            match self.bytes(key) {
                Ok(()) => {},
                Err(error) => {
                    proof {
                        lemma_entries_failure(all, index as int, error@);
                        assert(self@ =~= start + (head->Ok_0 + entries_left(all)));
                    }
                    return Err(error);
                },
            }
            match self.bytes(value) {
                Ok(()) => {},
                Err(error) => {
                    proof {
                        lemma_entries_failure(all, index as int, error@);
                        assert(self@ =~= start + (head->Ok_0 + entries_left(all)));
                    }
                    return Err(error);
                },
            }
            proof {
                let next = written_entries(all.take(index + 1));
                assert(next is Ok);
                assert(self@ =~= start + joined(head, next)->Ok_0);
            }
            index = index + 1;
        }
        assert(all.take(all.len() as int) =~= all);
        Ok(())
    }

    /// The payload written, if a frame can carry it.
    pub fn finish(self) -> (payload: Result<Vec<u8>, WireError>)
        ensures
            match finished(Ok(self@)) {
                Ok(bytes) => payload matches Ok(written) && written@ == bytes,
                Err(message) => payload matches Err(error) && error@ == message,
            },
    {
        if self.bytes.len() > MAX_PAYLOAD {
            Err(invalid("protocol payload is too large"))
        } else {
            Ok(self.bytes)
        }
    }
}

/// A value read at a position and the position behind it, or the message of
/// the error that reading ends in.
pub type Parsed<T> = Result<(T, int), Seq<char>>;

/// The next `length` bytes.
pub open spec fn taken_at(bytes: Seq<u8>, at: int, length: int) -> Parsed<Seq<u8>> {
    if at + length > usize::MAX {
        Err("protocol field overflow"@)
    } else if at + length > bytes.len() {
        Err("truncated protocol payload"@)
    } else {
        Ok((bytes.subrange(at, at + length), at + length))
    }
}

/// The number in the next `width` bytes.
pub open spec fn number_at(bytes: Seq<u8>, at: int, width: int) -> Parsed<nat> {
    match taken_at(bytes, at, width) {
        Ok((digits, end)) => Ok((be_value(digits), end)),
        Err(message) => Err(message),
    }
}

/// A byte string behind its length.
pub open spec fn bytes_at(bytes: Seq<u8>, at: int) -> Parsed<Seq<u8>> {
    match number_at(bytes, at, 4) {
        Ok((length, next)) => taken_at(bytes, next, length as int),
        Err(message) => Err(message),
    }
}

/// A string in UTF-8.
pub open spec fn string_at(bytes: Seq<u8>, at: int) -> Parsed<Seq<char>> {
    match bytes_at(bytes, at) {
        Ok((value, end)) => if valid_utf8(value) {
            Ok((decode_utf8(value), end))
        } else {
            Err("invalid protocol UTF-8"@)
        },
        Err(message) => Err(message),
    }
}

/// A byte that is zero or one.
pub open spec fn boolean_at(bytes: Seq<u8>, at: int) -> Parsed<bool> {
    match number_at(bytes, at, 1) {
        Ok((value, end)) => if value <= 1 {
            Ok((value == 1, end))
        } else {
            Err("invalid protocol boolean"@)
        },
        Err(message) => Err(message),
    }
}

/// An account: a presence flag, then the selector if there is one.
pub open spec fn account_at(bytes: Seq<u8>, at: int) -> Parsed<Option<Seq<char>>> {
    match number_at(bytes, at, 1) {
        Ok((flag, next)) => if flag == 0 {
            Ok((None, next))
        } else if flag == 1 {
            match string_at(bytes, next) {
                Ok((selector, end)) => Ok((Some(selector), end)),
                Err(message) => Err(message),
            }
        } else {
            Err("invalid account presence flag"@)
        },
        Err(message) => Err(message),
    }
}

/// An absolute path without NUL.
pub open spec fn valid_directory(path: Seq<u8>) -> bool {
    &&& path.len() > 0
    &&& path[0] == 0x2f
    &&& !path.contains(0)
}

/// A variable that a process environment can hold.
pub open spec fn valid_entry(entry: (Seq<u8>, Seq<u8>)) -> bool {
    &&& entry.0.len() > 0
    &&& !entry.0.contains(0)
    &&& !entry.0.contains(0x3d)
    &&& !entry.1.contains(0)
}

/// A context that a child process can be given.
pub open spec fn valid_context(context: ContextView) -> bool {
    &&& valid_directory(context.cwd)
    &&& forall|i: int|
        0 <= i < context.environment.len() ==> valid_entry(#[trigger] context.environment[i])
}

/// One environment entry.
pub open spec fn entry_at(bytes: Seq<u8>, at: int) -> Parsed<(Seq<u8>, Seq<u8>)> {
    match bytes_at(bytes, at) {
        Ok((key, next)) => match bytes_at(bytes, next) {
            Ok((value, end)) => if valid_entry((key, value)) {
                Ok(((key, value), end))
            } else {
                Err("invalid environment entry"@)
            },
            Err(message) => Err(message),
        },
        Err(message) => Err(message),
    }
}

/// `count` environment entries, one after another.
pub open spec fn entries_at(bytes: Seq<u8>, at: int, count: nat) -> Parsed<
    Seq<(Seq<u8>, Seq<u8>)>,
>
    decreases count,
{
    if count == 0 {
        Ok((Seq::empty(), at))
    } else {
        match entries_at(bytes, at, (count - 1) as nat) {
            Ok((values, next)) => match entry_at(bytes, next) {
                Ok((value, end)) => Ok((values.push(value), end)),
                Err(message) => Err(message),
            },
            Err(message) => Err(message),
        }
    }
}

/// A context: the working directory, the number of entries, the entries. Each
/// entry takes eight bytes at the least, so a count that the rest of the
/// payload cannot hold is refused at once.
pub open spec fn context_at(bytes: Seq<u8>, at: int) -> Parsed<ContextView> {
    match bytes_at(bytes, at) {
        Ok((cwd, second)) => if !valid_directory(cwd) {
            Err("invalid working directory"@)
        } else {
            match number_at(bytes, second, 4) {
                Ok((count, third)) => if count > (bytes.len() - third) / 8 {
                    Err("invalid environment count"@)
                } else {
                    match entries_at(bytes, third, count) {
                        Ok((environment, end)) => Ok((ContextView { cwd, environment }, end)),
                        Err(message) => Err(message),
                    }
                },
                Err(message) => Err(message),
            }
        },
        Err(message) => Err(message),
    }
}

/// Where reading a byte string stops that is refused: behind its length, where
/// there is one.
pub open spec fn bytes_stop(bytes: Seq<u8>, at: int) -> int {
    match number_at(bytes, at, 4) {
        Ok((_, next)) => next,
        Err(_) => at,
    }
}

/// Where reading a string stops that is refused.
pub open spec fn string_stop(bytes: Seq<u8>, at: int) -> int {
    match bytes_at(bytes, at) {
        Ok((_, end)) => end,
        Err(_) => bytes_stop(bytes, at),
    }
}

/// Where reading a byte that is zero or one stops if it is refused.
pub open spec fn boolean_stop(bytes: Seq<u8>, at: int) -> int {
    match number_at(bytes, at, 1) {
        Ok((_, end)) => end,
        Err(_) => at,
    }
}

/// Where reading an account stops that is refused.
pub open spec fn account_stop(bytes: Seq<u8>, at: int) -> int {
    match number_at(bytes, at, 1) {
        Ok((flag, next)) => if flag == 1 {
            string_stop(bytes, next)
        } else {
            next
        },
        Err(_) => at,
    }
}

/// Where reading an environment entry stops that is refused.
pub open spec fn entry_stop(bytes: Seq<u8>, at: int) -> int {
    match bytes_at(bytes, at) {
        Ok((_, next)) => string_stop(bytes, next),
        Err(_) => bytes_stop(bytes, at),
    }
}

/// Where reading `count` environment entries stops if one is refused.
pub open spec fn entries_stop(bytes: Seq<u8>, at: int, count: nat) -> int
    decreases count,
{
    if count == 0 {
        at
    } else {
        match entries_at(bytes, at, (count - 1) as nat) {
            Ok((_, next)) => entry_stop(bytes, next),
            Err(_) => entries_stop(bytes, at, (count - 1) as nat),
        }
    }
}

/// Where reading a context stops that is refused.
pub open spec fn context_stop(bytes: Seq<u8>, at: int) -> int {
    match bytes_at(bytes, at) {
        Ok((cwd, second)) => if !valid_directory(cwd) {
            second
        } else {
            match number_at(bytes, second, 4) {
                Ok((count, third)) => if count > (bytes.len() - third) / 8 {
                    third
                } else {
                    entries_stop(bytes, third, count)
                },
                Err(_) => second,
            }
        },
        Err(_) => bytes_stop(bytes, at),
    }
}

/// Reads the fields of a payload.
pub struct Decoder<'a> {
    bytes: &'a [u8],
    offset: usize,
}

impl<'a> Decoder<'a> {
    /// The payload that is read.
    pub closed spec fn payload(&self) -> Seq<u8> {
        self.bytes@
    }

    /// How much of the payload has been read.
    pub closed spec fn at(&self) -> int {
        self.offset as int
    }

    /// The position lies within the payload.
    pub open spec fn wf(&self) -> bool {
        0 <= self.at() <= self.payload().len()
    }

    /// What reading one value does to the decoder. It stops at `stop` if the
    /// value is refused.
    pub open spec fn advanced<T>(
        &self,
        before: &Self,
        parsed: Parsed<T>,
        stop: int,
        result: Result<T, Seq<char>>,
    ) -> bool {
        &&& self.wf()
        &&& self.payload() == before.payload()
        &&& match parsed {
            Ok((value, end)) => result == Result::<T, Seq<char>>::Ok(value) && self.at() == end,
            Err(message) => result == Result::<T, Seq<char>>::Err(message) && self.at() == stop,
        }
    }

    /// A decoder at the start of a payload.
    pub fn new(bytes: &'a [u8]) -> (decoder: Self)
        ensures
            decoder.wf(),
            decoder.payload() == bytes@,
            decoder.at() == 0,
    {
        Decoder { bytes, offset: 0 }
    }

    /// Reads `length` bytes.
    pub fn take(&mut self, length: usize) -> (result: Result<&'a [u8], WireError>)
        requires
            old(self).wf(),
        ensures
            final(self).advanced(
                old(self),
                taken_at(old(self).payload(), old(self).at(), length as int),
                old(self).at(),
                match result {
                    Ok(value) => Ok(value@),
                    Err(error) => Err(error@),
                },
            ),
    {
        let end = match self.offset.checked_add(length) {
            Some(end) => end,
            None => return Err(invalid("protocol field overflow")),
        };
        if end > self.bytes.len() {
            return Err(invalid("truncated protocol payload"));
        }
        let result = slice_subrange(self.bytes, self.offset, end);
        self.offset = end;
        Ok(result)
    }

    /// Reads one byte.
    pub fn u8(&mut self) -> (result: Result<u8, WireError>)
        requires
            old(self).wf(),
        ensures
            final(self).advanced(
                old(self),
                number_at(old(self).payload(), old(self).at(), 1),
                old(self).at(),
                match result {
                    Ok(value) => Ok(value as nat),
                    Err(error) => Err(error@),
                },
            ),
    {
        match self.take(1) {
            Ok(digits) => {
                proof {
                    reveal_with_fuel(be_value, 2);
                }
                Ok(digits[0])
            },
            Err(error) => Err(error),
        }
    }

    /// Reads a byte that is zero or one.
    pub fn boolean(&mut self) -> (result: Result<bool, WireError>)
        requires
            old(self).wf(),
        ensures
            final(self).advanced(
                old(self),
                boolean_at(old(self).payload(), old(self).at()),
                boolean_stop(old(self).payload(), old(self).at()),
                match result {
                    Ok(value) => Ok(value),
                    Err(error) => Err(error@),
                },
            ),
    {
        match self.u8() {
            Ok(0) => Ok(false),
            Ok(1) => Ok(true),
            Ok(_) => Err(invalid("invalid protocol boolean")),
            Err(error) => Err(error),
        }
    }

    /// Reads a number of two bytes.
    pub fn u16(&mut self) -> (result: Result<u16, WireError>)
        requires
            old(self).wf(),
        ensures
            final(self).advanced(
                old(self),
                number_at(old(self).payload(), old(self).at(), 2),
                old(self).at(),
                match result {
                    Ok(value) => Ok(value as nat),
                    Err(error) => Err(error@),
                },
            ),
    {
        match self.take(2) {
            Ok(digits) => {
                proof {
                    lemma_be_canonical(digits@);
                    lemma_capacities();
                }
                Ok(read_be(digits) as u16)
            },
            Err(error) => Err(error),
        }
    }

    /// Reads a number of four bytes.
    pub fn u32(&mut self) -> (result: Result<u32, WireError>)
        requires
            old(self).wf(),
        ensures
            final(self).advanced(
                old(self),
                number_at(old(self).payload(), old(self).at(), 4),
                old(self).at(),
                match result {
                    Ok(value) => Ok(value as nat),
                    Err(error) => Err(error@),
                },
            ),
    {
        match self.take(4) {
            Ok(digits) => {
                proof {
                    lemma_be_canonical(digits@);
                    lemma_capacities();
                }
                Ok(read_be(digits) as u32)
            },
            Err(error) => Err(error),
        }
    }

    /// Reads a number of eight bytes.
    pub fn u64(&mut self) -> (result: Result<u64, WireError>)
        requires
            old(self).wf(),
        ensures
            final(self).advanced(
                old(self),
                number_at(old(self).payload(), old(self).at(), 8),
                old(self).at(),
                match result {
                    Ok(value) => Ok(value as nat),
                    Err(error) => Err(error@),
                },
            ),
    {
        match self.take(8) {
            Ok(digits) => Ok(read_be(digits)),
            Err(error) => Err(error),
        }
    }

    /// Reads a byte string behind its length.
    pub fn bytes(&mut self) -> (result: Result<&'a [u8], WireError>)
        requires
            old(self).wf(),
        ensures
            final(self).advanced(
                old(self),
                bytes_at(old(self).payload(), old(self).at()),
                bytes_stop(old(self).payload(), old(self).at()),
                match result {
                    Ok(value) => Ok(value@),
                    Err(error) => Err(error@),
                },
            ),
    {
        match self.u32() {
            Ok(length) => self.take(length as usize),
            Err(error) => Err(error),
        }
    }

    /// Reads a string.
    pub fn string(&mut self) -> (result: Result<String, WireError>)
        requires
            old(self).wf(),
        ensures
            final(self).advanced(
                old(self),
                string_at(old(self).payload(), old(self).at()),
                string_stop(old(self).payload(), old(self).at()),
                match result {
                    Ok(value) => Ok(value@),
                    Err(error) => Err(error@),
                },
            ),
    {
        match self.bytes() {
            Ok(value) => match utf8_text(copy_bytes(value)) {
                Some(text) => Ok(text),
                None => Err(invalid("invalid protocol UTF-8")),
            },
            Err(error) => Err(error),
        }
    }

    /// Reads an account selector.
    pub fn account(&mut self) -> (result: Result<Account, WireError>)
        requires
            old(self).wf(),
        ensures
            final(self).advanced(
                old(self),
                account_at(old(self).payload(), old(self).at()),
                account_stop(old(self).payload(), old(self).at()),
                match result {
                    Ok(value) => Ok(value@),
                    Err(error) => Err(error@),
                },
            ),
    {
        match self.u8() {
            Ok(0) => Ok(Account(None)),
            Ok(1) => match self.string() {
                Ok(selector) => Ok(Account(Some(selector))),
                Err(error) => Err(error),
            },
            Ok(_) => Err(invalid("invalid account presence flag")),
            Err(error) => Err(error),
        }
    }

    /// Reads one environment entry.
    fn entry(&mut self) -> (result: Result<(Vec<u8>, Vec<u8>), WireError>)
        requires
            old(self).wf(),
        ensures
            final(self).advanced(
                old(self),
                entry_at(old(self).payload(), old(self).at()),
                entry_stop(old(self).payload(), old(self).at()),
                match result {
                    Ok(value) => Ok((value.0@, value.1@)),
                    Err(error) => Err(error@),
                },
            ),
    {
        let key = match self.bytes() {
            Ok(key) => copy_bytes(key),
            Err(error) => return Err(error),
        };
        let value = match self.bytes() {
            Ok(value) => copy_bytes(value),
            Err(error) => return Err(error),
        };
        if key.len() == 0 || has_byte(&key, 0) || has_byte(&key, 0x3d) || has_byte(&value, 0) {
            return Err(invalid("invalid environment entry"));
        }
        Ok((key, value))
    }

    /// Reads a working directory and an environment.
    pub fn context(&mut self) -> (result: Result<ClientContext, WireError>)
        requires
            old(self).wf(),
        ensures
            final(self).advanced(
                old(self),
                context_at(old(self).payload(), old(self).at()),
                context_stop(old(self).payload(), old(self).at()),
                match result {
                    Ok(value) => Ok(value@),
                    Err(error) => Err(error@),
                },
            ),
    {
        let cwd = match self.bytes() {
            Ok(cwd) => copy_bytes(cwd),
            Err(error) => return Err(error),
        };
        if cwd.len() == 0 || has_byte(&cwd, 0) || cwd[0] != 0x2f {
            return Err(invalid("invalid working directory"));
        }
        let count = match self.u32() {
            Ok(count) => count as usize,
            Err(error) => return Err(error),
        };
        if count > (self.bytes.len() - self.offset) / 8 {
            return Err(invalid("invalid environment count"));
        }
        let ghost start = self.at();
        let mut environment: Vec<(Vec<u8>, Vec<u8>)> = Vec::new();
        let mut index: usize = 0;
        assert(entries(environment@) =~= Seq::empty());
        while index < count
            invariant
                index <= count,
                self.wf(),
                self.payload() == old(self).payload(),
                entries_at(self.payload(), start, index as nat) == Parsed::Ok(
                    (entries(environment@), self.at()),
                ),
                context_at(old(self).payload(), old(self).at()) == (match entries_at(
                    old(self).payload(),
                    start,
                    count as nat,
                ) {
                    Ok((values, end)) => Parsed::Ok(
                        ((ContextView { cwd: cwd@, environment: values }), end),
                    ),
                    Err(message) => Parsed::Err(message),
                }),
                context_stop(old(self).payload(), old(self).at()) == entries_stop(
                    old(self).payload(),
                    start,
                    count as nat,
                ),
            decreases count - index,
        {
            let ghost before = environment@;
            match self.entry() {
                Ok(entry) => {
                    environment.push(entry);
                    assert(entries(environment@) =~= entries(before).push((entry.0@, entry.1@)));
                },
                Err(error) => {
                    proof {
                        lemma_entries_stop(
                            self.payload(),
                            start,
                            (index + 1) as nat,
                            count as nat,
                            error@,
                        );
                    }
                    return Err(error);
                },
            }
            index = index + 1;
        }
        Ok(ClientContext { cwd, environment })
    }

    /// Checks that nothing is left to read.
    pub fn end(&self) -> (result: Result<(), WireError>)
        requires
            self.wf(),
        ensures
            result is Ok <==> self.at() == self.payload().len(),
            result matches Err(error) ==> error@ == "trailing protocol data"@,
    {
        if self.offset == self.bytes.len() {
            Ok(())
        } else {
            Err(invalid("trailing protocol data"))
        }
    }
}

proof fn lemma_entries_stop(
    bytes: Seq<u8>,
    at: int,
    failed: nat,
    count: nat,
    message: Seq<char>,
)
    requires
        failed <= count,
        entries_at(bytes, at, failed) == Parsed::<Seq<(Seq<u8>, Seq<u8>)>>::Err(message),
    ensures
        entries_at(bytes, at, count) == Parsed::<Seq<(Seq<u8>, Seq<u8>)>>::Err(message),
        entries_stop(bytes, at, count) == entries_stop(bytes, at, failed),
    decreases count,
{
    if failed < count {
        lemma_entries_stop(bytes, at, failed, (count - 1) as nat, message);
    }
}

/// What stands at a position in two parts stands there part by part.
pub proof fn lemma_parts_stand(bytes: Seq<u8>, at: int, first: Seq<u8>, second: Seq<u8>)
    requires
        stands_at(bytes, at, first + second),
    ensures
        stands_at(bytes, at, first),
        stands_at(bytes, at + first.len(), second),
{
    let both = bytes.subrange(at, at + first.len() + second.len());
    assert(both == first + second);
    assert(bytes.subrange(at, at + first.len()) =~= first) by {
        assert forall|i: int| 0 <= i < first.len() implies bytes[at + i] == first[i] by {
            assert(both[i] == (first + second)[i]);
        }
    }
    assert(bytes.subrange(at + first.len(), at + first.len() + second.len()) =~= second) by {
        assert forall|i: int| 0 <= i < second.len() implies bytes[at + first.len() + i]
            == second[i] by {
            assert(both[first.len() + i] == (first + second)[first.len() + i]);
        }
    }
}

/// A number that was written is read back.
pub proof fn number_is_read_back(bytes: Seq<u8>, at: int, value: nat, width: nat)
    requires
        bytes.len() <= usize::MAX,
        value < byte_capacity(width),
        stands_at(bytes, at, be_bytes(value, width)),
    ensures
        number_at(bytes, at, width as int) == Parsed::<nat>::Ok((value, at + width)),
{
    lemma_be_round_trip(value, width);
}

/// A byte string that was written is read back.
pub proof fn bytes_are_read_back(bytes: Seq<u8>, at: int, value: Seq<u8>)
    requires
        bytes.len() <= usize::MAX,
        written_bytes(value) matches Ok(written) && stands_at(bytes, at, written),
    ensures
        bytes_at(bytes, at) == Parsed::<Seq<u8>>::Ok(
            (value, at + written_bytes(value)->Ok_0.len()),
        ),
{
    lemma_capacities();
    lemma_be_length(value.len(), 4);
    lemma_parts_stand(bytes, at, be_bytes(value.len(), 4), value);
    number_is_read_back(bytes, at, value.len(), 4);
}

/// A string that was written is read back.
pub proof fn string_is_read_back(bytes: Seq<u8>, at: int, value: Seq<char>)
    requires
        bytes.len() <= usize::MAX,
        written_bytes(encode_utf8(value)) matches Ok(written) && stands_at(bytes, at, written),
    ensures
        string_at(bytes, at) == Parsed::<Seq<char>>::Ok(
            (value, at + written_bytes(encode_utf8(value))->Ok_0.len()),
        ),
{
    bytes_are_read_back(bytes, at, encode_utf8(value));
    vstd::utf8::encode_utf8_valid_utf8(value);
    vstd::utf8::encode_utf8_decode_utf8(value);
}

/// A single byte that was written is read back.
pub proof fn byte_is_read_back(bytes: Seq<u8>, at: int, value: u8)
    requires
        bytes.len() <= usize::MAX,
        stands_at(bytes, at, seq![value]),
    ensures
        number_at(bytes, at, 1) == Parsed::<nat>::Ok((value as nat, at + 1)),
{
    reveal_with_fuel(be_value, 2);
}

/// An account that was written is read back.
pub proof fn account_is_read_back(bytes: Seq<u8>, at: int, account: Option<Seq<char>>)
    requires
        bytes.len() <= usize::MAX,
        written_account(account) matches Ok(written) && stands_at(bytes, at, written),
    ensures
        account_at(bytes, at) == Parsed::<Option<Seq<char>>>::Ok(
            (account, at + written_account(account)->Ok_0.len()),
        ),
{
    match account {
        Some(selector) => {
            lemma_parts_stand(
                bytes,
                at,
                seq![1u8],
                written_bytes(encode_utf8(selector))->Ok_0,
            );
            byte_is_read_back(bytes, at, 1);
            string_is_read_back(bytes, at + 1, selector);
        },
        None => {
            byte_is_read_back(bytes, at, 0);
        },
    }
}

/// Environment entries that were written are read back, if they are valid.
pub proof fn entries_are_read_back(bytes: Seq<u8>, at: int, values: Seq<(Seq<u8>, Seq<u8>)>)
    requires
        bytes.len() <= usize::MAX,
        forall|i: int| 0 <= i < values.len() ==> valid_entry(#[trigger] values[i]),
        written_entries(values) matches Ok(written) && stands_at(bytes, at, written),
    ensures
        entries_at(bytes, at, values.len()) == Parsed::<Seq<(Seq<u8>, Seq<u8>)>>::Ok(
            (values, at + written_entries(values)->Ok_0.len()),
        ),
        written_entries(values)->Ok_0.len() >= 8 * values.len(),
    decreases values.len(),
{
    if values.len() > 0 {
        let rest = values.drop_last();
        let head = written_entries(rest)->Ok_0;
        let key = written_bytes(values.last().0)->Ok_0;
        let value = written_bytes(values.last().1)->Ok_0;
        lemma_be_length(values.last().0.len(), 4);
        lemma_be_length(values.last().1.len(), 4);
        lemma_parts_stand(bytes, at, head + key, value);
        lemma_parts_stand(bytes, at, head, key);
        assert forall|i: int| 0 <= i < rest.len() implies valid_entry(#[trigger] rest[i]) by {
            assert(rest[i] == values[i]);
        }
        entries_are_read_back(bytes, at, rest);
        bytes_are_read_back(bytes, at + head.len(), values.last().0);
        bytes_are_read_back(bytes, at + head.len() + key.len(), values.last().1);
        assert(valid_entry(values[values.len() - 1]));
        assert(rest.push(values.last()) =~= values);
    } else {
        assert(values =~= Seq::empty());
    }
}

/// A context that was written is read back, if it is valid.
pub proof fn context_is_read_back(bytes: Seq<u8>, at: int, context: ContextView)
    requires
        bytes.len() <= usize::MAX,
        valid_context(context),
        written_context(context) matches Ok(written) && stands_at(bytes, at, written),
    ensures
        context_at(bytes, at) == Parsed::<ContextView>::Ok(
            (context, at + written_context(context)->Ok_0.len()),
        ),
{
    let directory = written_bytes(context.cwd)->Ok_0;
    let count = be_bytes(context.environment.len(), 4);
    let all = written_entries(context.environment)->Ok_0;
    lemma_capacities();
    lemma_be_length(context.environment.len(), 4);
    lemma_parts_stand(bytes, at, directory + count, all);
    lemma_parts_stand(bytes, at, directory, count);
    bytes_are_read_back(bytes, at, context.cwd);
    number_is_read_back(bytes, at + directory.len(), context.environment.len(), 4);
    entries_are_read_back(bytes, at + directory.len() + 4, context.environment);
}

/// Whatever is read as a byte string is the written form of that byte string.
pub proof fn lemma_bytes_canonical(bytes: Seq<u8>, at: int)
    requires
        0 <= at <= bytes.len(),
        bytes_at(bytes, at) is Ok,
    ensures
        at <= bytes_at(bytes, at)->Ok_0.1 <= bytes.len(),
        written_bytes(bytes_at(bytes, at)->Ok_0.0) == Written::Ok(
            bytes.subrange(at, bytes_at(bytes, at)->Ok_0.1),
        ),
{
    lemma_capacities();
    let length = bytes.subrange(at, at + 4);
    lemma_be_canonical(length);
    let (value, end) = bytes_at(bytes, at)->Ok_0;
    assert(length + value =~= bytes.subrange(at, end));
}

/// Whatever is read as a single byte is that byte.
pub proof fn lemma_byte_canonical(bytes: Seq<u8>, at: int)
    requires
        0 <= at <= bytes.len(),
        number_at(bytes, at, 1) is Ok,
    ensures
        at + 1 <= bytes.len(),
        number_at(bytes, at, 1)->Ok_0 == (bytes[at] as nat, at + 1),
        bytes.subrange(at, at + 1) == seq![bytes[at]],
{
    reveal_with_fuel(be_value, 2);
    assert(bytes.subrange(at, at + 1) =~= seq![bytes[at]]);
}

/// Whatever is read as a string is the written form of that string.
pub proof fn lemma_string_canonical(bytes: Seq<u8>, at: int)
    requires
        0 <= at <= bytes.len(),
        string_at(bytes, at) is Ok,
    ensures
        at <= string_at(bytes, at)->Ok_0.1 <= bytes.len(),
        written_bytes(encode_utf8(string_at(bytes, at)->Ok_0.0)) == Written::Ok(
            bytes.subrange(at, string_at(bytes, at)->Ok_0.1),
        ),
{
    lemma_bytes_canonical(bytes, at);
    vstd::utf8::decode_utf8_encode_utf8(bytes_at(bytes, at)->Ok_0.0);
}

/// Whatever is read as an account is the written form of that account.
pub proof fn lemma_account_canonical(bytes: Seq<u8>, at: int)
    requires
        0 <= at <= bytes.len(),
        account_at(bytes, at) is Ok,
    ensures
        at <= account_at(bytes, at)->Ok_0.1 <= bytes.len(),
        written_account(account_at(bytes, at)->Ok_0.0) == Written::Ok(
            bytes.subrange(at, account_at(bytes, at)->Ok_0.1),
        ),
{
    lemma_byte_canonical(bytes, at);
    let (account, end) = account_at(bytes, at)->Ok_0;
    if let Some(selector) = account {
        lemma_string_canonical(bytes, at + 1);
        assert(bytes.subrange(at, at + 1) + bytes.subrange(at + 1, end) =~= bytes.subrange(at, end));
    }
}

/// Whatever is read as environment entries is the written form of those
/// entries, and each is valid.
pub proof fn lemma_entries_canonical(bytes: Seq<u8>, at: int, count: nat)
    requires
        0 <= at <= bytes.len(),
        entries_at(bytes, at, count) is Ok,
    ensures
        at <= entries_at(bytes, at, count)->Ok_0.1 <= bytes.len(),
        entries_at(bytes, at, count)->Ok_0.0.len() == count,
        written_entries(entries_at(bytes, at, count)->Ok_0.0) == Written::Ok(
            bytes.subrange(at, entries_at(bytes, at, count)->Ok_0.1),
        ),
        forall|i: int|
            0 <= i < count ==> valid_entry(#[trigger] entries_at(bytes, at, count)->Ok_0.0[i]),
    decreases count,
{
    let (values, end) = entries_at(bytes, at, count)->Ok_0;
    if count > 0 {
        lemma_entries_canonical(bytes, at, (count - 1) as nat);
        let (rest, next) = entries_at(bytes, at, (count - 1) as nat)->Ok_0;
        lemma_bytes_canonical(bytes, next);
        let middle = bytes_at(bytes, next)->Ok_0.1;
        lemma_bytes_canonical(bytes, middle);
        assert(values.drop_last() =~= rest);
        assert(bytes.subrange(at, next) + bytes.subrange(next, middle) + bytes.subrange(middle, end)
            =~= bytes.subrange(at, end));
    } else {
        assert(bytes.subrange(at, at) =~= Seq::empty());
    }
}

/// Whatever is read as a context is the written form of that context, which is
/// valid.
pub proof fn lemma_context_canonical(bytes: Seq<u8>, at: int)
    requires
        0 <= at <= bytes.len(),
        context_at(bytes, at) is Ok,
    ensures
        at <= context_at(bytes, at)->Ok_0.1 <= bytes.len(),
        valid_context(context_at(bytes, at)->Ok_0.0),
        written_context(context_at(bytes, at)->Ok_0.0) == Written::Ok(
            bytes.subrange(at, context_at(bytes, at)->Ok_0.1),
        ),
{
    lemma_capacities();
    let (context, end) = context_at(bytes, at)->Ok_0;
    lemma_bytes_canonical(bytes, at);
    let second = bytes_at(bytes, at)->Ok_0.1;
    let digits = bytes.subrange(second, second + 4);
    lemma_be_canonical(digits);
    let count = be_value(digits);
    lemma_entries_canonical(bytes, second + 4, count);
    assert(bytes.subrange(at, second) + digits + bytes.subrange(second + 4, end) =~= bytes.subrange(
        at,
        end,
    ));
}

proof fn lemma_entries_step(all: Seq<(Seq<u8>, Seq<u8>)>, index: int)
    requires
        0 <= index < all.len(),
    ensures
        written_entries(all.take(index + 1)) == joined(
            joined(written_entries(all.take(index)), written_bytes(all[index].0)),
            written_bytes(all[index].1),
        ),
        entries_left(all.take(index + 1)) == (match written_entries(all.take(index)) {
            Ok(done) => match written_bytes(all[index].0) {
                Ok(key) => done + key,
                Err(_) => done,
            },
            Err(_) => entries_left(all.take(index)),
        }),
{
    assert(all.take(index + 1).drop_last() =~= all.take(index));
}

proof fn lemma_entries_failure(all: Seq<(Seq<u8>, Seq<u8>)>, index: int, message: Seq<char>)
    requires
        0 <= index < all.len(),
        written_entries(all.take(index + 1)) == Written::Err(message),
    ensures
        written_entries(all) == Written::Err(message),
        entries_left(all) == entries_left(all.take(index + 1)),
    decreases all.len() - index,
{
    if index + 1 < all.len() {
        lemma_entries_step(all, index + 1);
        lemma_entries_failure(all, index + 1, message);
    } else {
        assert(all.take(index + 1) =~= all);
    }
}

} // verus!
