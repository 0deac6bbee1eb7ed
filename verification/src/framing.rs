//! The first bytes of a connection, and the headers in front of payloads.
use crate::bytes::{
    be_bytes, be_value, copy_bytes, is_at, lemma_be_canonical, lemma_be_round_trip,
    lemma_capacities, push_be, read_be, same_bytes, stands_at,
};
use crate::clock::min_int;
use crate::codec::{invalid, WireError, MAX_PAYLOAD};
use crate::protocol::{Frame, ServerPreamble, HEADER_LENGTH, PROTOCOL_VERSION};
use vstd::prelude::*;
use vstd::slice::slice_subrange;
use vstd::utf8::encode_utf8;

verus! {

/// The bytes that ask the broker to stop. They stay the same in every version
/// of the messages.
pub open spec fn stop_request_bytes() -> Seq<u8> {
    seq![0x4fu8, 0x50u8, 0x50u8, 0x53u8, 0x54u8, 0x4fu8, 0x50u8, 0u8]
}

/// The broker's answer to a request to stop.
pub open spec fn stop_response_bytes() -> Seq<u8> {
    seq![0x4fu8, 0x50u8, 0x50u8, 0x53u8, 0x54u8, 0x4fu8, 0x50u8, 1u8]
}

/// The bytes that every other connection starts with.
pub open spec fn magic_bytes() -> Seq<u8> {
    seq![0x4fu8, 0x50u8, 0x50u8, 0u8]
}

/// The first bytes of a connection that speaks `version`.
pub open spec fn preamble_bytes(version: u32) -> Seq<u8> {
    magic_bytes() + be_bytes(version as nat, 4)
}

/// The bytes that ask the broker to stop.
pub fn stop_request() -> (bytes: [u8; 8])
    ensures
        bytes@ == stop_request_bytes(),
{
    let bytes: [u8; 8] = [0x4f, 0x50, 0x50, 0x53, 0x54, 0x4f, 0x50, 0];
    assert(bytes@ =~= stop_request_bytes());
    bytes
}

/// The broker's answer to a request to stop.
pub fn stop_response() -> (bytes: [u8; 8])
    ensures
        bytes@ == stop_response_bytes(),
{
    let bytes: [u8; 8] = [0x4f, 0x50, 0x50, 0x53, 0x54, 0x4f, 0x50, 1];
    assert(bytes@ =~= stop_response_bytes());
    bytes
}

/// The first bytes of a connection that speaks `version`.
pub fn normal_preamble(version: u32) -> (bytes: [u8; 8])
    ensures
        bytes@ == preamble_bytes(version),
{
    let bytes: [u8; 8] = [
        0x4f,
        0x50,
        0x50,
        0,
        (version / 0x100_0000) as u8,
        (version / 0x1_0000 % 0x100) as u8,
        (version / 0x100 % 0x100) as u8,
        (version % 0x100) as u8,
    ];
    proof {
        reveal_with_fuel(be_bytes, 5);
        assert(bytes@ =~= preamble_bytes(version));
    }
    bytes
}

/// Whether the broker's answer to a client's first bytes lets the client go on.
pub fn client_negotiate(response: &[u8]) -> (compatible: Result<(), WireError>)
    requires
        response@.len() == 8,
    ensures
        compatible is Ok <==> response@ == preamble_bytes(PROTOCOL_VERSION),
        compatible matches Err(error) ==> error@ == "incompatible broker protocol"@,
{
    if same_bytes(response, &normal_preamble(PROTOCOL_VERSION)) {
        Ok(())
    } else {
        Err(invalid("incompatible broker protocol"))
    }
}

/// What a connection is for, by its first bytes.
pub open spec fn preamble_of(request: Seq<u8>) -> Result<ServerPreamble, Seq<char>> {
    if request == stop_request_bytes() {
        Ok(ServerPreamble::Stop)
    } else if !stands_at(request, 0, magic_bytes()) {
        Err("invalid protocol preamble"@)
    } else if be_value(request.subrange(4, 8)) == PROTOCOL_VERSION {
        Ok(ServerPreamble::Normal)
    } else {
        Ok(ServerPreamble::Incompatible)
    }
}

/// What a connection is for, by its first bytes, and what the broker answers
/// to them before anything else: its own version, unless it is to stop.
pub fn server_preamble(request: &[u8]) -> (preamble: Result<
    (ServerPreamble, Option<[u8; 8]>),
    WireError,
>)
    requires
        request@.len() == 8,
    ensures
        match preamble_of(request@) {
            Ok(expected) => preamble matches Ok((preamble, answer)) && preamble == expected && (
            match answer {
                Some(bytes) => expected != ServerPreamble::Stop && bytes@ == preamble_bytes(
                    PROTOCOL_VERSION,
                ),
                None => expected == ServerPreamble::Stop,
            }),
            Err(message) => preamble matches Err(error) && error@ == message,
        },
{
    if same_bytes(request, &stop_request()) {
        return Ok((ServerPreamble::Stop, None));
    }
    let magic: [u8; 4] = [0x4f, 0x50, 0x50, 0];
    assert(magic@ =~= magic_bytes());
    if !is_at(request, 0, &magic) {
        return Err(invalid("invalid protocol preamble"));
    }
    let version = read_be(slice_subrange(request, 4, 8));
    let answer = Some(normal_preamble(PROTOCOL_VERSION));
    if version == PROTOCOL_VERSION as u64 {
        Ok((ServerPreamble::Normal, answer))
    } else {
        Ok((ServerPreamble::Incompatible, answer))
    }
}

/// A frame header: the kind, three zero bytes, the length of the payload.
pub open spec fn header_bytes(kind: u8, length: nat) -> Seq<u8> {
    seq![kind, 0u8, 0u8, 0u8] + be_bytes(length, 4)
}

/// The header of a frame.
pub fn frame_header(frame: &Frame) -> (header: Result<Vec<u8>, WireError>)
    ensures
        header is Ok <==> frame.payload@.len() <= MAX_PAYLOAD,
        header matches Ok(header) ==> header@ == header_bytes(frame.kind, frame.payload@.len()),
        header matches Err(error) ==> error@ == "protocol payload is too large"@,
{
    if frame.payload.len() > MAX_PAYLOAD {
        return Err(invalid("protocol payload is too large"));
    }
    let mut header: Vec<u8> = Vec::new();
    header.push(frame.kind);
    header.push(0);
    header.push(0);
    header.push(0);
    push_be(&mut header, frame.payload.len() as u64, 4);
    assert(header@ =~= header_bytes(frame.kind, frame.payload@.len()));
    Ok(header)
}

/// The kind and the length that a header gives.
pub open spec fn header_of(header: Seq<u8>) -> Result<(u8, nat), Seq<char>> {
    if header[1] != 0 || header[2] != 0 || header[3] != 0 {
        Err("nonzero protocol header flags"@)
    } else if be_value(header.subrange(4, 8)) > MAX_PAYLOAD {
        Err("protocol payload is too large"@)
    } else {
        Ok((header[0], be_value(header.subrange(4, 8))))
    }
}

/// The kind and the length that a header gives.
fn parse_header(header: &[u8]) -> (parsed: Result<(u8, usize), WireError>)
    requires
        header@.len() >= 8,
    ensures
        match header_of(header@) {
            Ok((kind, length)) => parsed matches Ok(parsed) && parsed.0 == kind && parsed.1
                == length,
            Err(message) => parsed matches Err(error) && error@ == message,
        },
{
    if header[1] != 0 || header[2] != 0 || header[3] != 0 {
        return Err(invalid("nonzero protocol header flags"));
    }
    let length = read_be(slice_subrange(header, 4, 8));
    if length > MAX_PAYLOAD as u64 {
        return Err(invalid("protocol payload is too large"));
    }
    Ok((header[0], length as usize))
}

/// What came beside the first bytes of a frame.
#[derive(Clone, Copy, Debug, PartialEq, Eq, Structural)]
pub enum Control {
    /// Descriptors, and how many.
    Rights(usize),
    /// Anything else.
    Other,
}

/// The number of descriptors in control messages that hold nothing else.
pub open spec fn rights_in(controls: Seq<Control>) -> Option<nat>
    decreases controls.len(),
{
    if controls.len() == 0 {
        Some(0)
    } else {
        match (rights_in(controls.drop_last()), controls.last()) {
            (Some(count), Control::Rights(more)) => Some(count + more as nat),
            _ => None,
        }
    }
}

/// The number of descriptors, as far as it can be counted, if nothing else came.
fn count_rights(controls: &Vec<Control>) -> (count: Option<usize>)
    ensures
        count is Some <==> rights_in(controls@) is Some,
        count matches Some(count) ==> count == min_int(
            rights_in(controls@)->0 as int,
            usize::MAX as int,
        ),
{
    let mut count: usize = 0;
    let mut index: usize = 0;
    while index < controls.len()
        invariant
            index <= controls.len(),
            rights_in(controls@.take(index as int)) is Some,
            count == min_int(
                rights_in(controls@.take(index as int))->0 as int,
                usize::MAX as int,
            ),
        decreases controls.len() - index,
    {
        proof {
            assert(controls@.take(index + 1).drop_last() =~= controls@.take(index as int));
        }
        match controls[index] {
            Control::Rights(more) => {
                count = count.saturating_add(more);
            },
            Control::Other => {
                proof {
                    lemma_other_control(controls@, index as int);
                }
                return None;
            },
        }
        index = index + 1;
    }
    assert(controls@.take(controls@.len() as int) =~= controls@);
    Some(count)
}

proof fn lemma_other_control(controls: Seq<Control>, index: int)
    requires
        0 <= index < controls.len(),
        controls[index] == Control::Other,
    ensures
        rights_in(controls) is None,
    decreases controls.len(),
{
    if index < controls.len() - 1 {
        lemma_other_control(controls.drop_last(), index);
    }
}

/// How many more bytes a frame needs of which `bytes` came so far.
pub open spec fn bytes_missing(bytes: Seq<u8>) -> Result<int, Seq<char>> {
    if bytes.len() < HEADER_LENGTH {
        Ok(HEADER_LENGTH - bytes.len())
    } else {
        match header_of(bytes) {
            Ok((kind, length)) => Ok(HEADER_LENGTH + length - bytes.len()),
            Err(message) => Err(message),
        }
    }
}

/// Whether the first read of a frame is refused, and why.
pub open spec fn first_read_of(bytes: Seq<u8>, truncated: bool, controls: Seq<Control>) -> Result<
    nat,
    Seq<char>,
> {
    if bytes.len() == 0 {
        Err("broker disconnected"@)
    } else if truncated {
        Err("truncated descriptor message"@)
    } else {
        match rights_in(controls) {
            None => Err("unexpected control message"@),
            Some(count) => match bytes_missing(bytes) {
                Ok(_) => Ok(count),
                Err(message) => Err(message),
            },
        }
    }
}

/// Puts a frame together from the reads that it comes in.
pub struct FrameReader {
    bytes: Vec<u8>,
    descriptors: usize,
}

impl View for FrameReader {
    type V = Seq<u8>;

    /// The bytes that came so far.
    closed spec fn view(&self) -> Seq<u8> {
        self.bytes@
    }
}

impl FrameReader {
    /// The number of descriptors that came with the first bytes.
    pub closed spec fn rights(&self) -> nat {
        self.descriptors as nat
    }

    /// Nothing was refused, and no more came than the frame holds.
    pub open spec fn wf(&self) -> bool {
        bytes_missing(self@) matches Ok(missing) && missing >= 0
    }

    /// Takes the first read of a frame, of at most a header.
    pub fn start(bytes: Vec<u8>, control_truncated: bool, controls: &Vec<Control>) -> (reader:
        Result<FrameReader, WireError>)
        requires
            bytes@.len() <= HEADER_LENGTH,
        ensures
            match first_read_of(bytes@, control_truncated, controls@) {
                Ok(count) => reader matches Ok(reader) && reader.wf() && reader@ == bytes@
                    && reader.rights() == min_int(count as int, usize::MAX as int),
                Err(message) => reader matches Err(error) && error@ == message,
            },
    {
        if bytes.len() == 0 {
            return Err(invalid("broker disconnected"));
        }
        if control_truncated {
            return Err(invalid("truncated descriptor message"));
        }
        let descriptors = match count_rights(controls) {
            Some(descriptors) => descriptors,
            None => return Err(invalid("unexpected control message")),
        };
        if bytes.len() == HEADER_LENGTH {
            match parse_header(bytes.as_slice()) {
                Ok(_) => {},
                Err(error) => return Err(error),
            }
        }
        Ok(FrameReader { bytes, descriptors })
    }

    /// How many more bytes the frame needs: first the rest of the header, then
    /// the payload.
    pub fn missing(&self) -> (count: usize)
        requires
            self.wf(),
        ensures
            bytes_missing(self@) == Result::<int, Seq<char>>::Ok(count as int),
    {
        if self.bytes.len() < HEADER_LENGTH {
            return HEADER_LENGTH - self.bytes.len();
        }
        match parse_header(self.bytes.as_slice()) {
            Ok((_, length)) => HEADER_LENGTH + length - self.bytes.len(),
            Err(_) => 0,
        }
    }

    /// Takes more bytes, no more than are missing.
    pub fn push(&mut self, more: &[u8]) -> (result: Result<(), WireError>)
        requires
            old(self).wf(),
            more@.len() <= bytes_missing(old(self)@)->Ok_0,
        ensures
            final(self)@ == old(self)@ + more@,
            final(self).rights() == old(self).rights(),
            match bytes_missing(final(self)@) {
                Ok(_) => result is Ok && final(self).wf(),
                Err(message) => result matches Err(error) && error@ == message,
            },
    {
        let ghost before = self@;
        self.bytes.extend_from_slice(more);
        assert(self@ =~= before + more@);
        proof {
            if before.len() >= HEADER_LENGTH {
                assert(self@.subrange(4, 8) =~= before.subrange(4, 8));
                assert(header_of(self@) == header_of(before));
            }
        }
        if self.bytes.len() >= HEADER_LENGTH {
            match parse_header(self.bytes.as_slice()) {
                Ok(_) => {},
                Err(error) => return Err(error),
            }
        }
        Ok(())
    }

    /// The frame, once all of it came.
    pub fn finish(self) -> (frame: Frame)
        requires
            self.wf(),
            bytes_missing(self@) == Result::<int, Seq<char>>::Ok(0),
        ensures
            frame.kind == self@[0],
            frame.payload@ == self@.skip(HEADER_LENGTH as int),
            frame.descriptors == self.rights(),
    {
        let payload = copy_bytes(
            slice_subrange(self.bytes.as_slice(), HEADER_LENGTH, self.bytes.len()),
        );
        assert(payload@ =~= self@.skip(HEADER_LENGTH as int));
        Frame { kind: self.bytes[0], payload, descriptors: self.descriptors }
    }
}

/// A frame is put together from its bytes however the reads divide them: no
/// part of it is refused, the bytes that are missing from a part are those that
/// follow it, and the whole gives back the kind and the payload.
pub proof fn frame_is_put_together(kind: u8, payload: Seq<u8>, came: int)
    requires
        payload.len() <= MAX_PAYLOAD,
        0 <= came <= HEADER_LENGTH + payload.len(),
    ensures
        ({
            let sent = header_bytes(kind, payload.len()) + payload;
            &&& sent.len() == HEADER_LENGTH + payload.len()
            &&& bytes_missing(sent.take(came)) == Result::<int, Seq<char>>::Ok(
                if came < HEADER_LENGTH {
                    HEADER_LENGTH - came
                } else {
                    sent.len() - came
                },
            )
            &&& sent[0] == kind
            &&& sent.skip(HEADER_LENGTH as int) == payload
        }),
{
    lemma_capacities();
    lemma_be_round_trip(payload.len(), 4);
    let sent = header_bytes(kind, payload.len()) + payload;
    assert(sent.skip(HEADER_LENGTH as int) =~= payload);
    if came >= HEADER_LENGTH {
        assert(sent.take(came).subrange(4, 8) =~= be_bytes(payload.len(), 4));
    }
}

/// A client that speaks the broker's version is let in, and one that speaks
/// another is told so before it has sent a request. Either way the broker's
/// first bytes are those of its own version, which the client goes on only
/// if it shares.
pub proof fn versions_are_negotiated(version: u32)
    ensures
        preamble_of(preamble_bytes(version)) == Result::<ServerPreamble, Seq<char>>::Ok(
            if version == PROTOCOL_VERSION {
                ServerPreamble::Normal
            } else {
                ServerPreamble::Incompatible
            },
        ),
        preamble_bytes(version) == preamble_bytes(PROTOCOL_VERSION) ==> version
            == PROTOCOL_VERSION,
{
    lemma_capacities();
    lemma_be_round_trip(version as nat, 4);
    lemma_be_round_trip(PROTOCOL_VERSION as nat, 4);
    let bytes = preamble_bytes(version);
    assert(bytes.subrange(4, 8) =~= be_bytes(version as nat, 4));
    assert(bytes.subrange(0, 4) =~= magic_bytes());
    assert(bytes[3] == 0u8);
    assert(stop_request_bytes()[3] == 0x53u8);
    assert(preamble_bytes(PROTOCOL_VERSION).subrange(4, 8) =~= be_bytes(
        PROTOCOL_VERSION as nat,
        4,
    ));
}

/// The bytes that a connection can begin with: `OPPSTOP` and a zero to stop the
/// broker, which answers with `OPPSTOP` and a one, and `OPP`, a zero and the
/// version for everything else.
pub proof fn first_bytes_are_fixed(version: u32)
    ensures
        stop_request_bytes() == encode_utf8("OPPSTOP"@).push(0),
        stop_response_bytes() == encode_utf8("OPPSTOP"@).push(1),
        preamble_bytes(version) == encode_utf8("OPP"@).push(0) + seq![
            (version / 0x100_0000) as u8,
            (version / 0x1_0000 % 0x100) as u8,
            (version / 0x100 % 0x100) as u8,
            (version % 0x100) as u8,
        ],
        preamble_of(stop_request_bytes()) == Result::<ServerPreamble, Seq<char>>::Ok(
            ServerPreamble::Stop,
        ),
{
    broadcast use vstd::utf8::is_ascii_chars_encode_utf8;

    reveal_strlit("OPPSTOP");
    reveal_strlit("OPP");
    assert(vstd::utf8::is_ascii_chars("OPPSTOP"@));
    assert(vstd::utf8::is_ascii_chars("OPP"@));
    assert(stop_request_bytes() =~= encode_utf8("OPPSTOP"@).push(0));
    assert(stop_response_bytes() =~= encode_utf8("OPPSTOP"@).push(1));
    reveal_with_fuel(be_bytes, 5);
    assert(preamble_bytes(version) =~= encode_utf8("OPP"@).push(0) + seq![
        (version / 0x100_0000) as u8,
        (version / 0x1_0000 % 0x100) as u8,
        (version / 0x100 % 0x100) as u8,
        (version % 0x100) as u8,
    ]);
}

/// A connection that begins with anything else is refused, and only the broker's
/// own version is served.
pub proof fn other_first_bytes_are_refused(request: Seq<u8>)
    requires
        request.len() == 8,
    ensures
        preamble_of(request) matches Ok(ServerPreamble::Stop) ==> request == stop_request_bytes(),
        preamble_of(request) matches Ok(ServerPreamble::Normal) ==> request == preamble_bytes(1),
        preamble_of(request) is Ok && request != stop_request_bytes() ==> request[0] == 0x4f
            && request[1] == 0x50 && request[2] == 0x50 && request[3] == 0,
        request != stop_request_bytes() && (request[0] != 0x4f || request[1] != 0x50 || request[2]
            != 0x50 || request[3] != 0) ==> preamble_of(request) is Err,
{
    if stands_at(request, 0, magic_bytes()) {
        let first = request.subrange(0, 4);
        assert(first[0] == magic_bytes()[0]);
        assert(first[1] == magic_bytes()[1]);
        assert(first[2] == magic_bytes()[2]);
        assert(first[3] == magic_bytes()[3]);
        lemma_be_canonical(request.subrange(4, 8));
        assert(request =~= request.subrange(0, 4) + request.subrange(4, 8));
    }
}

/// The descriptors that come with a frame are counted over all its control
/// messages, and anything but descriptors is refused.
pub proof fn descriptors_are_counted(controls: Seq<Control>, more: usize)
    ensures
        rights_in(Seq::empty()) == Some(0nat),
        rights_in(controls) matches Some(count) ==> rights_in(
            controls.push(Control::Rights(more)),
        ) == Some(count + more as nat),
        rights_in(controls.push(Control::Other)) is None,
        rights_in(controls) is None ==> rights_in(controls.push(Control::Rights(more))) is None,
{
    assert(controls.push(Control::Rights(more)).drop_last() =~= controls);
    assert(controls.push(Control::Other).drop_last() =~= controls);
}

/// The first read of a frame is taken unless the peer is gone, descriptors were
/// lost, something else than descriptors came, or the header is refused: it has
/// flags, or announces more than two mebibytes.
pub proof fn first_read_is_taken(bytes: Seq<u8>, truncated: bool, controls: Seq<Control>)
    requires
        bytes.len() <= 8,
    ensures
        first_read_of(bytes, truncated, controls) is Ok <==> {
            &&& bytes.len() > 0
            &&& !truncated
            &&& rights_in(controls) is Some
            &&& bytes.len() == 8 ==> bytes[1] == 0 && bytes[2] == 0 && bytes[3] == 0 && be_value(
                bytes.subrange(4, 8),
            ) <= 2_097_152
        },
        first_read_of(bytes, truncated, controls) matches Ok(count) ==> Some(count) == rights_in(
            controls,
        ),
{
}

} // verus!
