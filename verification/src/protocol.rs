//! ADB smart-socket framing: four hexadecimal digits of length, then payload.
//!
//! Outgoing frames are appended to a byte vector. Incoming frames are taken
//! from a [`ByteReader`], which holds the bytes that arrived so far.

use vstd::prelude::*;
use vstd::string::*;
use vstd::utf8::*;

use crate::digits::{
    hex_digit, hex_digit_value, hex_padded, hex_seq, hex_value, hexadecimal_digits,
    lemma_hex_seq_value, lemma_hex_zeros, pad_left, padding_keeps_the_text, repeat_char,
};
use crate::fault::{fault, fault_view, FaultView, IoFault, IoKind};
use crate::octets::{
    debug_string, debug_text, lemma_ascii_bytes, lemma_text_bytes, lossy_seq, lossy_text,
    push_bytes, sub_bytes, utf8_text,
};

verus! {

/// Longest payload whose length fits in the four digits of a frame header.
pub const MAX_PAYLOAD: usize = 0xffff;

/// Bytes that arrived, and how many of them were taken.
pub struct ByteReader<'a> {
    pub buf: &'a [u8],
    pub pos: usize,
}

impl<'a> ByteReader<'a> {
    /// No more bytes were taken than arrived.
    pub open spec fn wf(self) -> bool {
        self.pos <= self.buf@.len()
    }

    /// The bytes that were not taken yet.
    pub open spec fn rest(self) -> Seq<u8> {
        self.buf@.skip(self.pos as int)
    }

    /// A reader of `buf` that has taken nothing.
    pub fn new(buf: &'a [u8]) -> (r: Self)
        ensures
            r.wf(),
            r.buf@ == buf@,
            r.rest() == buf@,
    {
        let r = ByteReader { buf, pos: 0 };
        assert(r.rest() =~= buf@);
        r
    }
}

/// Bytes of the status `OKAY`.
pub open spec fn okay_status() -> Seq<u8> {
    seq![0x4fu8, 0x4bu8, 0x41u8, 0x59u8]
}

/// Bytes of the status `FAIL`.
pub open spec fn fail_status() -> Seq<u8> {
    seq![0x46u8, 0x41u8, 0x49u8, 0x4cu8]
}

/// Characters of a frame header: the length with at least four digits.
pub open spec fn hex4_chars(len: nat) -> Seq<char> {
    pad_left(hex_seq(len), '0', 4)
}

/// Bytes of a frame: header and payload.
pub open spec fn packet_bytes(payload: Seq<u8>) -> Seq<u8> {
    encode_utf8(hex4_chars(payload.len())) + payload
}

/// Bytes of the frame that asks for `service`.
pub open spec fn service_bytes(service: Seq<char>) -> Seq<u8> {
    packet_bytes(encode_utf8(service))
}

/// Bytes of a refusal with its reason.
pub open spec fn fail_bytes(reason: Seq<char>) -> Seq<u8> {
    fail_status() + packet_bytes(encode_utf8(reason))
}

/// Bytes of an acceptance with a payload.
pub open spec fn okay_payload_bytes(payload: Seq<u8>) -> Seq<u8> {
    okay_status() + packet_bytes(payload)
}

/// The value of a byte that is an ASCII hexadecimal digit, in either case.
pub open spec fn hex_byte(b: u8) -> Option<nat> {
    hex_digit_value(b as char)
}

/// Whether a frame header is four ASCII hexadecimal digits.
pub open spec fn is_hex4(header: Seq<u8>) -> bool {
    header.len() == 4 && forall|i: int| 0 <= i < 4 ==> hex_byte(#[trigger] header[i]) is Some
}

/// The number that four hexadecimal digits stand for, the first one counting
/// most.
pub open spec fn hex4_value(header: Seq<u8>) -> nat {
    hex_byte(header[0])->0 * 4096 + hex_byte(header[1])->0 * 256 + hex_byte(header[2])->0 * 16
        + hex_byte(header[3])->0
}

/// The length that a frame header states, or why it states none.
pub open spec fn hex4_len(header: Seq<u8>) -> Result<nat, Seq<char>> {
    if is_hex4(header) {
        Ok(hex4_value(header))
    } else if valid_utf8(header) {
        Err("invalid hex4 length: "@ + decode_utf8(header))
    } else {
        Err("hex4 is not utf8"@)
    }
}

/// The failure of a read that met the end of the stream.
pub open spec fn early_eof() -> FaultView {
    fault_view(IoKind::UnexpectedEof, "early eof"@)
}

/// One frame at the start of `input`: its payload and what follows it.
pub open spec fn take_packet(input: Seq<u8>) -> Result<(Seq<u8>, Seq<u8>), FaultView> {
    if input.len() < 4 {
        Err(early_eof())
    } else {
        match hex4_len(input.take(4)) {
            Err(msg) => Err(fault_view(IoKind::InvalidData, msg)),
            Ok(n) => if input.len() < 4 + n {
                Err(early_eof())
            } else {
                Ok((input.subrange(4, 4 + n as int), input.skip(4 + n as int)))
            },
        }
    }
}

/// A status and, after `OKAY`, one frame at the start of `input`.
pub open spec fn take_okay_payload(input: Seq<u8>) -> Result<(Seq<u8>, Seq<u8>), FaultView> {
    if input.len() < 4 {
        Err(early_eof())
    } else {
        let status = input.take(4);
        if status == okay_status() {
            take_packet(input.skip(4))
        } else if status == fail_status() {
            match take_packet(input.skip(4)) {
                Ok((reason, _)) => Err(fault_view(IoKind::Other, lossy_seq(reason))),
                Err(f) => Err(f),
            }
        } else {
            Err(fault_view(IoKind::InvalidData, "unexpected status: "@ + status_text(status)))
        }
    }
}

/// What is left of `input` after a status that is no success was taken from it,
/// and with `FAIL` the frame that gives the reason.
pub open spec fn left_after_failure(input: Seq<u8>) -> Seq<u8> {
    if input.len() < 4 {
        input
    } else if input.take(4) == fail_status() {
        match take_packet(input.skip(4)) {
            Ok((_, rest)) => rest,
            Err(_) => input.skip(4),
        }
    } else {
        input.skip(4)
    }
}

/// How messages show an unknown status.
pub open spec fn status_text(status: Seq<u8>) -> Seq<char> {
    debug_text(
        if valid_utf8(status) {
            decode_utf8(status)
        } else {
            "?"@
        },
    )
}

/// How messages show an unknown status.
pub fn show_status(status: &[u8; 4]) -> (s: String)
    ensures
        s@ == status_text(status@),
{
    match utf8_text(status.as_slice()) {
        Some(t) => debug_string(t.as_str()),
        None => debug_string("?"),
    }
}

/// Reads the four hexadecimal digits of a frame header.
pub fn parse_hex4(buf: &[u8; 4]) -> (r: Result<usize, String>)
    ensures
        match r {
            Ok(n) => hex4_len(buf@) == Ok::<nat, Seq<char>>(n as nat) && n <= MAX_PAYLOAD,
            Err(e) => hex4_len(buf@) == Err::<nat, Seq<char>>(e@),
        },
{
    let a = hex_digit(buf[0] as char);
    let b = hex_digit(buf[1] as char);
    let c = hex_digit(buf[2] as char);
    let d = hex_digit(buf[3] as char);
    if let (Some(a), Some(b), Some(c), Some(d)) = (a, b, c, d) {
        assert(is_hex4(buf@));
        return Ok((a * 4096 + b * 256 + c * 16 + d) as usize);
    }
    assert(!is_hex4(buf@)) by {
        if is_hex4(buf@) {
            assert(hex_byte(buf@[0]) is Some && hex_byte(buf@[1]) is Some);
            assert(hex_byte(buf@[2]) is Some && hex_byte(buf@[3]) is Some);
        }
    }
    match utf8_text(buf.as_slice()) {
        None => Err("hex4 is not utf8".to_owned()),
        Some(s) => Err("invalid hex4 length: ".to_owned().concat(s.as_str())),
    }
}

/// A frame header for a payload of `len` bytes.
pub fn encode_hex4(len: usize) -> (s: String)
    ensures
        s@ == hex4_chars(len as nat),
{
    hex_padded(len as u64, 4)
}

/// Appends a frame with `payload` to `writer`.
pub fn write_packet(writer: &mut Vec<u8>, payload: &[u8])
    ensures
        final(writer)@ == old(writer)@ + packet_bytes(payload@),
{
    let header = encode_hex4(payload.len());
    push_bytes(writer, header.as_str().as_bytes());
    push_bytes(writer, payload);
    assert(writer@ =~= old(writer)@ + packet_bytes(payload@));
}

/// Appends the frame that asks for `service`.
pub fn write_service(writer: &mut Vec<u8>, service: &str)
    ensures
        final(writer)@ == old(writer)@ + service_bytes(service@),
{
    write_packet(writer, service.as_bytes());
}

/// Appends the status `OKAY`.
pub fn write_okay(writer: &mut Vec<u8>)
    ensures
        final(writer)@ == old(writer)@ + okay_status(),
{
    writer.push(0x4f);
    writer.push(0x4b);
    writer.push(0x41);
    writer.push(0x59);
    assert(writer@ =~= old(writer)@ + okay_status());
}

/// Appends a refusal with its reason.
pub fn write_fail(writer: &mut Vec<u8>, reason: &str)
    ensures
        final(writer)@ == old(writer)@ + fail_bytes(reason@),
{
    writer.push(0x46);
    writer.push(0x41);
    writer.push(0x49);
    writer.push(0x4c);
    write_packet(writer, reason.as_bytes());
    assert(writer@ =~= old(writer)@ + fail_bytes(reason@));
}

/// Appends `OKAY` and a frame with `payload` (devices list, features, ...).
pub fn write_okay_payload(writer: &mut Vec<u8>, payload: &[u8])
    ensures
        final(writer)@ == old(writer)@ + okay_payload_bytes(payload@),
{
    write_okay(writer);
    write_packet(writer, payload);
    assert(writer@ =~= old(writer)@ + okay_payload_bytes(payload@));
}

/// Takes one frame and gives its payload; takes nothing on failure.
pub fn read_packet(reader: &mut ByteReader<'_>) -> (r: Result<Vec<u8>, IoFault>)
    requires
        old(reader).wf(),
    ensures
        final(reader).wf(),
        final(reader).buf@ == old(reader).buf@,
        match r {
            Ok(p) => take_packet(old(reader).rest()) == Ok::<(Seq<u8>, Seq<u8>), FaultView>(
                (p@, final(reader).rest()),
            ),
            Err(f) => take_packet(old(reader).rest()) == Err::<(Seq<u8>, Seq<u8>), FaultView>(f@)
                && final(reader).rest() == old(reader).rest(),
        },
{
    let n: usize = reader.buf.len();
    let at: usize = reader.pos;
    let ghost input = reader.rest();
    if n - at < 4 {
        return Err(fault(IoKind::UnexpectedEof, "early eof"));
    }
    let header = [reader.buf[at], reader.buf[at + 1], reader.buf[at + 2], reader.buf[at + 3]];
    assert(header@ =~= input.take(4));
    match parse_hex4(&header) {
        Err(msg) => Err(IoFault { kind: IoKind::InvalidData, message: msg }),
        Ok(len) => {
            if n - at - 4 < len {
                return Err(fault(IoKind::UnexpectedEof, "early eof"));
            }
            let payload = sub_bytes(reader.buf, at + 4, at + 4 + len);
            reader.pos = at + 4 + len;
            proof {
                assert(payload@ =~= input.subrange(4, 4 + len));
                assert(reader.rest() =~= input.skip(4 + len));
            }
            Ok(payload)
        },
    }
}

/// Takes a status of four bytes; takes nothing on failure.
pub fn read_status(reader: &mut ByteReader<'_>) -> (r: Result<[u8; 4], IoFault>)
    requires
        old(reader).wf(),
    ensures
        final(reader).wf(),
        final(reader).buf@ == old(reader).buf@,
        match r {
            Ok(s) => old(reader).rest().len() >= 4 && s@ == old(reader).rest().take(4)
                && final(reader).rest() == old(reader).rest().skip(4),
            Err(f) => old(reader).rest().len() < 4 && f@ == early_eof() && final(reader).rest()
                == old(reader).rest(),
        },
{
    let n: usize = reader.buf.len();
    let at: usize = reader.pos;
    let ghost input = reader.rest();
    if n - at < 4 {
        return Err(fault(IoKind::UnexpectedEof, "early eof"));
    }
    let status = [reader.buf[at], reader.buf[at + 1], reader.buf[at + 2], reader.buf[at + 3]];
    reader.pos = at + 4;
    proof {
        assert(status@ =~= input.take(4));
        assert(reader.rest() =~= input.skip(4));
    }
    Ok(status)
}

/// Whether a status is `OKAY`.
pub fn is_okay(status: &[u8; 4]) -> (r: bool)
    ensures
        r == (status@ == okay_status()),
{
    let r = status[0] == 0x4f && status[1] == 0x4b && status[2] == 0x41 && status[3] == 0x59;
    assert(r ==> status@ =~= okay_status());
    assert(status@ == okay_status() ==> r);
    r
}

/// Whether a status is `FAIL`.
pub fn is_fail(status: &[u8; 4]) -> (r: bool)
    ensures
        r == (status@ == fail_status()),
{
    let r = status[0] == 0x46 && status[1] == 0x41 && status[2] == 0x49 && status[3] == 0x4c;
    assert(r ==> status@ =~= fail_status());
    assert(status@ == fail_status() ==> r);
    r
}

/// Takes a status and, after `OKAY`, the payload of one frame.
pub fn read_okay_payload(reader: &mut ByteReader<'_>) -> (r: Result<Vec<u8>, IoFault>)
    requires
        old(reader).wf(),
    ensures
        final(reader).wf(),
        final(reader).buf@ == old(reader).buf@,
        match r {
            Ok(p) => take_okay_payload(old(reader).rest()) == Ok::<(Seq<u8>, Seq<u8>), FaultView>(
                (p@, final(reader).rest()),
            ),
            Err(f) => take_okay_payload(old(reader).rest()) == Err::<(Seq<u8>, Seq<u8>), FaultView>(
                f@,
            ) && final(reader).rest() == left_after_failure(old(reader).rest()),
        },
{
    let status = match read_status(reader) {
        Ok(s) => s,
        Err(f) => return Err(f),
    };
    assert(okay_status()[0] != fail_status()[0]);
    if is_okay(&status) {
        read_packet(reader)
    } else if is_fail(&status) {
        match read_packet(reader) {
            Ok(reason) => Err(
                IoFault {
                    kind: IoKind::Other,
                    message: lossy_text(reason.as_slice()),
                },
            ),
            Err(f) => Err(f),
        }
    } else {
        let shown = show_status(&status);
        Err(
            IoFault {
                kind: IoKind::InvalidData,
                message: "unexpected status: ".to_owned().concat(shown.as_str()),
            },
        )
    }
}

/// A header states the length that it was made from.
pub proof fn hex4_round_trip(len: nat)
    requires
        len <= MAX_PAYLOAD,
    ensures
        encode_utf8(hex4_chars(len)).len() == 4,
        hex4_len(encode_utf8(hex4_chars(len))) == Ok::<nat, Seq<char>>(len),
{
    let h = hex_seq(len);
    let s = hex4_chars(len);
    lemma_hex_seq_value(len);
    let zeros = repeat_char('0', (4 - h.len()) as nat);
    assert(s =~= zeros + h);
    lemma_hex_zeros((4 - h.len()) as nat, h);
    assert forall|i: int| 0 <= i < s.len() implies hex_digit_value(#[trigger] s[i]) is Some by {
        if i >= zeros.len() {
            assert(s[i] == h[i - zeros.len()]);
        }
    }
    assert(is_ascii_chars(s)) by {
        assert forall|i: int| 0 <= i < s.len() implies '\0' <= #[trigger] s[i] <= '\u{7f}' by {
            assert(hex_digit_value(s[i]) is Some);
        }
    }
    lemma_ascii_bytes(s);
    let header = encode_utf8(s);
    assert forall|i: int| 0 <= i < 4 implies hex_byte(#[trigger] header[i]) == hex_digit_value(
        s[i],
    ) by {
        assert(header[i] == s[i] as u8);
    }
    assert(is_hex4(header)) by {
        assert forall|i: int| 0 <= i < 4 implies hex_byte(#[trigger] header[i]) is Some by {
            assert(hex_digit_value(s[i]) is Some);
        }
    }
    reveal_with_fuel(hex_value, 5);
    assert(hex_value(s) == hex4_value(header));
}

/// What `write_packet` wrote, `read_packet` gives back, and nothing else of
/// the stream is taken.
pub proof fn packet_round_trip(payload: Seq<u8>, tail: Seq<u8>)
    requires
        payload.len() <= MAX_PAYLOAD,
    ensures
        take_packet(packet_bytes(payload) + tail) == Ok::<(Seq<u8>, Seq<u8>), FaultView>(
            (payload, tail),
        ),
{
    hex4_round_trip(payload.len());
    let header = encode_utf8(hex4_chars(payload.len()));
    let input = packet_bytes(payload) + tail;
    assert(input.take(4) =~= header);
    assert(input.subrange(4, 4 + payload.len() as int) =~= payload);
    assert(input.skip(4 + payload.len() as int) =~= tail);
}

/// A frame of which a byte is missing is never taken: reading it meets the
/// end of the stream.
pub proof fn partial_packet_is_not_taken(payload: Seq<u8>, k: int)
    requires
        payload.len() <= MAX_PAYLOAD,
        0 <= k < packet_bytes(payload).len(),
    ensures
        take_packet(packet_bytes(payload).take(k)) == Err::<(Seq<u8>, Seq<u8>), FaultView>(
            early_eof(),
        ),
{
    hex4_round_trip(payload.len());
    let header = encode_utf8(hex4_chars(payload.len()));
    let input = packet_bytes(payload).take(k);
    if k >= 4 {
        assert(input.take(4) =~= header);
    }
}

/// What `write_okay_payload` wrote, `read_okay_payload` gives back.
pub proof fn okay_payload_round_trip(payload: Seq<u8>, tail: Seq<u8>)
    requires
        payload.len() <= MAX_PAYLOAD,
    ensures
        take_okay_payload(okay_payload_bytes(payload) + tail) == Ok::<
            (Seq<u8>, Seq<u8>),
            FaultView,
        >((payload, tail)),
{
    packet_round_trip(payload, tail);
    let input = okay_payload_bytes(payload) + tail;
    assert(input.take(4) =~= okay_status());
    assert(input.skip(4) =~= packet_bytes(payload) + tail);
}

/// What `write_fail` wrote, `read_okay_payload` reports as a failure with
/// the same reason.
pub proof fn fail_round_trip(reason: Seq<char>, tail: Seq<u8>)
    requires
        encode_utf8(reason).len() <= MAX_PAYLOAD,
    ensures
        take_okay_payload(fail_bytes(reason) + tail) == Err::<(Seq<u8>, Seq<u8>), FaultView>(
            fault_view(IoKind::Other, reason),
        ),
{
    let p = encode_utf8(reason);
    lemma_text_bytes(reason);
    packet_round_trip(p, tail);
    let input = fail_bytes(reason) + tail;
    assert(input.take(4) =~= fail_status());
    assert(input.skip(4) =~= packet_bytes(p) + tail);
    assert(okay_status()[0] != fail_status()[0]);
}

/// The statuses are the words `OKAY` and `FAIL`; a refusal is `FAIL` and a frame
/// with the reason, an answer `OKAY` and a frame with the payload.
pub proof fn statuses_are_words(reason: Seq<char>, payload: Seq<u8>)
    ensures
        okay_status() == encode_utf8("OKAY"@),
        fail_status() == encode_utf8("FAIL"@),
        fail_bytes(reason) == encode_utf8("FAIL"@) + packet_bytes(encode_utf8(reason)),
        okay_payload_bytes(payload) == encode_utf8("OKAY"@) + packet_bytes(payload),
        service_bytes(reason) == packet_bytes(encode_utf8(reason)),
{
    reveal_strlit("OKAY");
    reveal_strlit("FAIL");
    assert(is_ascii_chars("OKAY"@));
    assert(is_ascii_chars("FAIL"@));
    lemma_ascii_bytes("OKAY"@);
    lemma_ascii_bytes("FAIL"@);
    assert(okay_status() =~= encode_utf8("OKAY"@));
    assert(fail_status() =~= encode_utf8("FAIL"@));
}

/// A frame is four hexadecimal digits that state the length, in lower case, and
/// then the payload.
pub proof fn frames_begin_with_their_length(payload: Seq<u8>)
    requires
        payload.len() <= MAX_PAYLOAD,
    ensures
        packet_bytes(payload).len() == 4 + payload.len(),
        packet_bytes(payload).skip(4) == payload,
        forall|i: int|
            0 <= i < 4 ==> (0x30 <= #[trigger] packet_bytes(payload)[i] <= 0x39 || 0x61
                <= packet_bytes(payload)[i] <= 0x66),
        hex4_value(packet_bytes(payload).take(4)) == payload.len(),
{
    let n = payload.len();
    let s = hex4_chars(n);
    hex4_round_trip(n);
    hexadecimal_digits(n, '0');
    padding_keeps_the_text(hex_seq(n), '0', 4);
    lemma_hex_seq_value(n);
    let k = 4 - hex_seq(n).len();
    assert forall|i: int| 0 <= i < s.len() implies ('0' <= #[trigger] s[i] <= '9' || 'a' <= s[i]
        <= 'f') by {
        if i >= k {
            assert(s.skip(k)[i - k] == s[i]);
            assert('0' <= hex_seq(n)[i - k] <= '9' || 'a' <= hex_seq(n)[i - k] <= 'f');
        }
    }
    assert(is_ascii_chars(s)) by {
        assert forall|i: int| 0 <= i < s.len() implies '\0' <= #[trigger] s[i] <= '\u{7f}' by {
            assert('0' <= s[i] <= '9' || 'a' <= s[i] <= 'f');
        }
    }
    lemma_ascii_bytes(s);
    let b = packet_bytes(payload);
    assert(b.skip(4) =~= payload);
    assert(b.take(4) =~= encode_utf8(s));
    assert forall|i: int| 0 <= i < 4 implies (0x30 <= #[trigger] b[i] <= 0x39 || 0x61 <= b[i]
        <= 0x66) by {
        assert(b[i] == s[i] as u8);
        assert('0' <= s[i] <= '9' || 'a' <= s[i] <= 'f');
    }
}

/// A header is read exactly if it is four hexadecimal digits, in either case.
pub proof fn headers_are_hexadecimal(h: Seq<u8>)
    requires
        h.len() == 4,
    ensures
        hex4_len(h) is Ok <==> forall|i: int|
            0 <= i < 4 ==> (0x30 <= #[trigger] h[i] <= 0x39 || 0x41 <= h[i] <= 0x46 || 0x61 <= h[i]
                <= 0x66),
        hex4_len(h) is Ok ==> hex4_len(h)->Ok_0 <= 0xffff,
        !(hex4_len(h) is Ok) && valid_utf8(h) ==> hex4_len(h) == Err::<nat, Seq<char>>(
            "invalid hex4 length: "@ + decode_utf8(h),
        ),
        !(hex4_len(h) is Ok) && !valid_utf8(h) ==> hex4_len(h) == Err::<nat, Seq<char>>(
            "hex4 is not utf8"@,
        ),
{
    assert forall|i: int| 0 <= i < 4 implies (hex_byte(#[trigger] h[i]) is Some <==> (0x30 <= h[i]
        <= 0x39 || 0x41 <= h[i] <= 0x46 || 0x61 <= h[i] <= 0x66)) by {}
    if forall|i: int|
        0 <= i < 4 ==> (0x30 <= #[trigger] h[i] <= 0x39 || 0x41 <= h[i] <= 0x46 || 0x61 <= h[i]
            <= 0x66) {
        assert forall|i: int| 0 <= i < 4 implies hex_byte(#[trigger] h[i]) is Some by {
            assert(0x30 <= h[i] <= 0x39 || 0x41 <= h[i] <= 0x46 || 0x61 <= h[i] <= 0x66);
        }
    }
    if is_hex4(h) {
        assert forall|i: int| 0 <= i < 4 implies (0x30 <= #[trigger] h[i] <= 0x39 || 0x41 <= h[i]
            <= 0x46 || 0x61 <= h[i] <= 0x66) by {
            assert(hex_byte(h[i]) is Some);
        }
        assert(hex_byte(h[0]) is Some && hex_byte(h[1]) is Some);
        assert(hex_byte(h[2]) is Some && hex_byte(h[3]) is Some);
        assert(hex_byte(h[0])->0 <= 15 && hex_byte(h[1])->0 <= 15);
        assert(hex_byte(h[2])->0 <= 15 && hex_byte(h[3])->0 <= 15);
    }
}

/// A frame is taken once all bytes that its header states have arrived, and nothing
/// of what follows it; a header that is none is an error.
pub proof fn frames_are_taken_when_complete(input: Seq<u8>)
    requires
        input.len() >= 4,
    ensures
        ({
            let d = |i: int| hex_digit_value(input[i] as char);
            let n: int = d(0)->0 * 4096 + d(1)->0 * 256 + d(2)->0 * 16 + d(3)->0 as int;
            if d(0) is Some && d(1) is Some && d(2) is Some && d(3) is Some {
                if input.len() < 4 + n {
                    take_packet(input) == Err::<(Seq<u8>, Seq<u8>), FaultView>(early_eof())
                } else {
                    take_packet(input) == Ok::<(Seq<u8>, Seq<u8>), FaultView>(
                        (input.subrange(4, 4 + n), input.skip(4 + n)),
                    )
                }
            } else {
                take_packet(input) matches Err(f) && f.kind == IoKind::InvalidData
            }
        }),
{
    let h = input.take(4);
    assert(h[0] == input[0] && h[1] == input[1] && h[2] == input[2] && h[3] == input[3]);
    let d = |i: int| hex_digit_value(input[i] as char);
    if d(0) is Some && d(1) is Some && d(2) is Some && d(3) is Some {
        assert(is_hex4(h)) by {
            assert forall|i: int| 0 <= i < 4 implies hex_byte(#[trigger] h[i]) is Some by {
                assert(h[i] == input[i]);
                if i == 0 {
                    assert(d(0) is Some);
                } else if i == 1 {
                    assert(d(1) is Some);
                } else if i == 2 {
                    assert(d(2) is Some);
                } else {
                    assert(d(3) is Some);
                }
            }
        }
    } else if is_hex4(h) {
        assert(hex_byte(h[0]) is Some && hex_byte(h[1]) is Some);
        assert(hex_byte(h[2]) is Some && hex_byte(h[3]) is Some);
    }
}

/// An answer that breaks off before its status, or has another status than `OKAY`
/// and `FAIL`, is an error. What follows an answer that was read in full is left.
pub proof fn answers_need_a_status(input: Seq<u8>, reason: Seq<char>, tail: Seq<u8>)
    ensures
        input.len() < 4 ==> take_okay_payload(input) == Err::<(Seq<u8>, Seq<u8>), FaultView>(
            early_eof(),
        ) && left_after_failure(input) == input,
        input.len() >= 4 && input.take(4) != okay_status() && input.take(4) != fail_status() ==> (
        take_okay_payload(input) matches Err(f) && f.kind == IoKind::InvalidData)
            && left_after_failure(input) == input.skip(4),
        encode_utf8(reason).len() <= MAX_PAYLOAD ==> left_after_failure(fail_bytes(reason) + tail)
            == tail,
{
    if encode_utf8(reason).len() <= MAX_PAYLOAD {
        let p = encode_utf8(reason);
        packet_round_trip(p, tail);
        let all = fail_bytes(reason) + tail;
        assert(all.take(4) =~= fail_status());
        assert(all.skip(4) =~= packet_bytes(p) + tail);
    }
}

/// What one side writes as a frame, the other reads, and nothing of what follows.
pub proof fn written_packets_are_read(
    w: &mut Vec<u8>,
    payload: &[u8],
    rd: &mut ByteReader<'_>,
    r: Result<Vec<u8>, IoFault>,
    tail: Seq<u8>,
)
    requires
        payload@.len() <= MAX_PAYLOAD,
        call_ensures(write_packet, (w, payload), ()),
        old(rd).wf(),
        old(rd).rest() == final(w)@.skip(old(w)@.len() as int) + tail,
        call_ensures(read_packet, (rd,), r),
    ensures
        final(w)@.take(old(w)@.len() as int) == old(w)@,
        r matches Ok(p) && p@ == payload@,
        final(rd).rest() == tail,
{
    assert(final(w)@.skip(old(w)@.len() as int) =~= packet_bytes(payload@));
    assert(final(w)@.take(old(w)@.len() as int) =~= old(w)@);
    packet_round_trip(payload@, tail);
}

/// What one side writes as a service, the other reads as its text.
pub proof fn written_services_are_read(
    w: &mut Vec<u8>,
    service: &str,
    rd: &mut ByteReader<'_>,
    r: Result<Vec<u8>, IoFault>,
    tail: Seq<u8>,
)
    requires
        encode_utf8(service@).len() <= MAX_PAYLOAD,
        call_ensures(write_service, (w, service), ()),
        old(rd).wf(),
        old(rd).rest() == final(w)@.skip(old(w)@.len() as int) + tail,
        call_ensures(read_packet, (rd,), r),
    ensures
        r matches Ok(p) && p@ == encode_utf8(service@),
        final(rd).rest() == tail,
{
    let payload = encode_utf8(service@);
    assert(final(w)@.skip(old(w)@.len() as int) =~= packet_bytes(payload));
    packet_round_trip(payload, tail);
}

/// An answer that one side writes, the other reads as an answer with that payload.
pub proof fn written_answers_are_read(
    w: &mut Vec<u8>,
    payload: &[u8],
    rd: &mut ByteReader<'_>,
    r: Result<Vec<u8>, IoFault>,
    tail: Seq<u8>,
)
    requires
        payload@.len() <= MAX_PAYLOAD,
        call_ensures(write_okay_payload, (w, payload), ()),
        old(rd).wf(),
        old(rd).rest() == final(w)@.skip(old(w)@.len() as int) + tail,
        call_ensures(read_okay_payload, (rd,), r),
    ensures
        r matches Ok(p) && p@ == payload@,
        final(rd).rest() == tail,
{
    assert(final(w)@.skip(old(w)@.len() as int) =~= okay_payload_bytes(payload@));
    okay_payload_round_trip(payload@, tail);
}

/// A refusal that one side writes, the other reads as a refusal for that reason, and
/// goes on behind it.
pub proof fn written_refusals_are_read(
    w: &mut Vec<u8>,
    reason: &str,
    rd: &mut ByteReader<'_>,
    r: Result<Vec<u8>, IoFault>,
    tail: Seq<u8>,
)
    requires
        encode_utf8(reason@).len() <= MAX_PAYLOAD,
        call_ensures(write_fail, (w, reason), ()),
        old(rd).wf(),
        old(rd).rest() == final(w)@.skip(old(w)@.len() as int) + tail,
        call_ensures(read_okay_payload, (rd,), r),
    ensures
        r matches Err(f) && f@ == fault_view(IoKind::Other, reason@),
        final(rd).rest() == tail,
{
    assert(final(w)@.skip(old(w)@.len() as int) =~= fail_bytes(reason@));
    fail_round_trip(reason@, tail);
    answers_need_a_status(Seq::empty(), reason@, tail);
}

} // verus!
