//! Pair-code authentication between hub and proxy.

use rand::Rng;
use vstd::prelude::*;
use vstd::string::*;
use vstd::utf8::*;

use crate::digits::{dec_seq, dec_string};
use crate::fault::{fault_view, FaultView, IoFault, IoKind};
use crate::octets::{lemma_ascii_bytes, lemma_text_bytes, lossy_seq, lossy_text, utf8_text};
use crate::protocol::{
    fail_bytes, is_fail, is_okay, left_after_failure, okay_status, packet_bytes, packet_round_trip,
    read_packet, read_status, service_bytes, show_status, status_text, take_packet, write_fail,
    write_okay, write_service, ByteReader, MAX_PAYLOAD,
};
use crate::text::{has_prefix, str_eq, strip_prefix};

verus! {

/// Number of characters of a pair code.
pub const PAIR_CODE_LEN: usize = 8;

/// What the first packet of every connection to a proxy starts with.
pub const AUTH_PREFIX: &'static str = "auth:";

/// Number of characters that a pair code may be made of.
pub const PAIR_ALPHABET_LEN: usize = 36;

/// Whether `c` is one of `A-Z0-9`.
pub open spec fn is_pair_char(c: char) -> bool {
    'A' <= c <= 'Z' || '0' <= c <= '9'
}

/// The characters of a pair code: `A` to `Z`, then `0` to `9`.
pub open spec fn pair_char(i: int) -> char {
    if i < 26 {
        (65 + i) as char
    } else {
        (22 + i) as char
    }
}

/// Whether `code` is a pair code: exactly eight characters of `A-Z0-9`.
pub open spec fn valid_pair_code(code: Seq<char>) -> bool {
    code.len() == PAIR_CODE_LEN && forall|i: int|
        0 <= i < code.len() ==> is_pair_char(#[trigger] code[i])
}

/// Why `code` is not a pair code.
pub open spec fn pair_code_fault(code: Seq<char>) -> Seq<char> {
    let len = encode_utf8(code).len();
    if len != PAIR_CODE_LEN {
        "pair code must be 8 characters, got "@ + dec_seq(len)
    } else {
        "pair code must be alphanumeric A-Z0-9"@
    }
}

/// `rand::Rng::gen_range` on the thread's generator gives an index below the
/// bound; nothing is said of which one.
#[verifier::external_body]
fn random_index(bound: usize) -> (i: usize)
    requires
        bound > 0,
    ensures
        i < bound,
{
    rand::thread_rng().gen_range(0..bound)
}

/// The pair code whose characters have the given positions in the alphabet.
pub fn pair_code_of(indices: &Vec<usize>) -> (code: String)
    requires
        forall|i: int| 0 <= i < indices@.len() ==> #[trigger] indices@[i] < PAIR_ALPHABET_LEN,
    ensures
        code@ == Seq::new(indices@.len(), |i: int| pair_char(indices@[i] as int)),
{
    let mut code = String::new();
    let mut i: usize = 0;
    while i < indices.len()
        invariant
            i <= indices@.len(),
            forall|j: int| 0 <= j < indices@.len() ==> #[trigger] indices@[j] < PAIR_ALPHABET_LEN,
            code@ == Seq::new(i as nat, |j: int| pair_char(indices@[j] as int)),
        decreases indices@.len() - i,
    {
        let k: usize = indices[i];
        let c: char = if k < 26 {
            (65 + k as u8) as char
        } else {
            (22 + k as u8) as char
        };
        code.push(c);
        proof {
            assert(code@ =~= Seq::new((i + 1) as nat, |j: int| pair_char(indices@[j] as int)));
        }
        i += 1;
    }
    code
}

/// A random pair code.
pub fn generate_pair_code() -> (code: String)
    ensures
        valid_pair_code(code@),
{
    let mut indices: Vec<usize> = Vec::new();
    while indices.len() < PAIR_CODE_LEN
        invariant
            indices@.len() <= PAIR_CODE_LEN,
            forall|j: int| 0 <= j < indices@.len() ==> #[trigger] indices@[j] < PAIR_ALPHABET_LEN,
        decreases PAIR_CODE_LEN - indices@.len(),
    {
        indices.push(random_index(PAIR_ALPHABET_LEN));
    }
    let code = pair_code_of(&indices);
    assert forall|i: int| 0 <= i < code@.len() implies is_pair_char(#[trigger] code@[i]) by {
        assert(indices@[i] < PAIR_ALPHABET_LEN);
    }
    code
}

/// A text whose bytes are all below 0x80 is ASCII.
proof fn lemma_bytes_ascii(s: Seq<char>)
    requires
        forall|i: int| 0 <= i < encode_utf8(s).len() ==> #[trigger] encode_utf8(s)[i] < 0x80,
    ensures
        is_ascii_chars(s),
    decreases s.len(),
{
    if s.len() > 0 {
        let head = encode_scalar(s[0] as u32);
        let tail = encode_utf8(s.drop_first());
        let b = encode_utf8(s);
        let u = s[0] as u32;
        assert(b == head + tail);
        assert(b[0] == head[0]);
        assert(u < 0x80) by {
            char_is_scalar(s[0]);
            assert((0xC0u8 | ((u >> 6) & 0x1F) as u8) >= 0x80) by (bit_vector);
            assert((0xE0u8 | ((u >> 12) & 0x0F) as u8) >= 0x80) by (bit_vector);
            assert((0xF0u8 | ((u >> 18) & 0x7) as u8) >= 0x80) by (bit_vector);
        }
        assert forall|i: int| 0 <= i < tail.len() implies #[trigger] tail[i] < 0x80 by {
            assert(b[i + head.len()] == tail[i]);
        }
        lemma_bytes_ascii(s.drop_first());
        assert forall|i: int| 0 <= i < s.len() implies '\0' <= #[trigger] s[i] <= '\u{7f}' by {
            if i > 0 {
                assert(s.drop_first()[i - 1] == s[i]);
            } else {
                lemma_small_char(s[0]);
            }
        }
    }
}

proof fn lemma_small_char(c: char)
    requires
        (c as u32) < 0x80,
    ensures
        '\0' <= c <= '\u{7f}',
{
}

/// Checks that `code` is exactly eight characters of `A-Z0-9`.
pub fn validate_pair_code(code: &str) -> (r: Result<(), String>)
    ensures
        r is Ok <==> valid_pair_code(code@),
        r matches Err(e) ==> e@ == pair_code_fault(code@),
{
    let bytes = code.as_bytes();
    let len: usize = bytes.len();
    proof {
        if valid_pair_code(code@) {
            assert(is_ascii_chars(code@)) by {
                assert forall|i: int| 0 <= i < code@.len() implies '\0' <= #[trigger] code@[i]
                    <= '\u{7f}' by {
                    assert(is_pair_char(code@[i]));
                }
            }
            lemma_ascii_bytes(code@);
        }
    }
    if len != PAIR_CODE_LEN {
        let shown = dec_string(len as u64);
        return Err("pair code must be 8 characters, got ".to_owned().concat(shown.as_str()));
    }
    let mut i: usize = 0;
    while i < len
        invariant
            i <= len,
            len == bytes@.len(),
            len == PAIR_CODE_LEN,
            bytes@ == encode_utf8(code@),
            valid_pair_code(code@) ==> bytes@ == Seq::new(code@.len(), |i: int| code@[i] as u8),
            forall|j: int|
                0 <= j < i ==> (0x41 <= #[trigger] bytes@[j] <= 0x5a || 0x30 <= bytes@[j] <= 0x39),
        decreases len - i,
    {
        let b: u8 = bytes[i];
        if !((b >= 0x41 && b <= 0x5a) || (b >= 0x30 && b <= 0x39)) {
            proof {
                if valid_pair_code(code@) {
                    assert(is_pair_char(code@[i as int]));
                    assert(bytes@[i as int] == code@[i as int] as u8);
                }
            }
            return Err("pair code must be alphanumeric A-Z0-9".to_owned());
        }
        i += 1;
    }
    proof {
        lemma_bytes_ascii(code@);
        lemma_ascii_bytes(code@);
        assert forall|j: int| 0 <= j < code@.len() implies is_pair_char(#[trigger] code@[j]) by {
            assert(bytes@[j] == code@[j] as u8);
        }
    }
    Ok(())
}

/// Characters of the first packet that a hub sends.
pub open spec fn auth_chars(code: Seq<char>) -> Seq<char> {
    AUTH_PREFIX@ + code
}

/// The first packet that a hub sends to a proxy.
pub fn auth_service(code: &str) -> (s: String)
    ensures
        s@ == auth_chars(code@),
{
    AUTH_PREFIX.to_owned().concat(code)
}

/// The code in the first packet, or why the packet is refused.
pub open spec fn auth_code(service: Seq<char>) -> Result<Seq<char>, Seq<char>> {
    if !has_prefix(service, AUTH_PREFIX@) {
        Err("expected auth:<pair-code> as first packet"@)
    } else {
        let code = service.skip(AUTH_PREFIX@.len() as int);
        if valid_pair_code(code) {
            Ok(code)
        } else {
            Err(pair_code_fault(code))
        }
    }
}

/// Takes the code out of `auth:XXXXXXXX`, or says why there is none.
pub fn parse_auth_service(service: &str) -> (r: Result<&str, String>)
    ensures
        match r {
            Ok(code) => auth_code(service@) == Ok::<Seq<char>, Seq<char>>(code@),
            Err(e) => auth_code(service@) == Err::<Seq<char>, Seq<char>>(e@),
        },
{
    match strip_prefix(service, AUTH_PREFIX) {
        None => Err("expected auth:<pair-code> as first packet".to_owned()),
        Some(code) => match validate_pair_code(code) {
            Ok(()) => Ok(code),
            Err(e) => Err(e),
        },
    }
}

/// Compares the code of a client with the code of the proxy.
pub fn codes_match(expected: &str, provided: &str) -> (r: bool)
    ensures
        r == (expected@ == provided@),
{
    str_eq(expected, provided)
}

/// Hub side: appends the authentication packet.
pub fn write_auth(writer: &mut Vec<u8>, code: &str)
    ensures
        final(writer)@ == old(writer)@ + service_bytes(auth_chars(code@)),
{
    let service = auth_service(code);
    write_service(writer, service.as_str());
}

/// What the hub makes of the proxy's answer to the authentication packet.
pub open spec fn auth_reply(input: Seq<u8>) -> Result<(), FaultView> {
    if input.len() < 4 {
        Err(crate::protocol::early_eof())
    } else {
        let status = input.take(4);
        if status == okay_status() {
            Ok(())
        } else if status == crate::protocol::fail_status() {
            match take_packet(input.skip(4)) {
                Ok((reason, _)) => Err(fault_view(IoKind::PermissionDenied, lossy_seq(reason))),
                Err(f) => Err(f),
            }
        } else {
            Err(fault_view(IoKind::InvalidData, "unexpected auth status: "@ + status_text(status)))
        }
    }
}

/// Hub side: takes the answer to the authentication packet; only `OKAY` lets
/// the connection go on.
pub fn read_auth_reply(reader: &mut ByteReader<'_>) -> (r: Result<(), IoFault>)
    requires
        old(reader).wf(),
    ensures
        final(reader).wf(),
        final(reader).buf@ == old(reader).buf@,
        match r {
            Ok(()) => auth_reply(old(reader).rest()) is Ok && final(reader).rest() == old(
                reader,
            ).rest().skip(4),
            Err(f) => {
                &&& auth_reply(old(reader).rest()) == Err::<(), FaultView>(f@)
                &&& final(reader).rest() == left_after_failure(old(reader).rest())
            },
        },
{
    let status = match read_status(reader) {
        Ok(s) => s,
        Err(f) => return Err(f),
    };
    if is_okay(&status) {
        Ok(())
    } else if is_fail(&status) {
        match read_packet(reader) {
            Ok(reason) => Err(
                IoFault {
                    kind: IoKind::PermissionDenied,
                    message: lossy_text(reason.as_slice()),
                },
            ),
            Err(f) => Err(f),
        }
    } else {
        let shown = show_status(&status);
        Err(
            IoFault {
                kind: IoKind::InvalidData,
                message: "unexpected auth status: ".to_owned().concat(shown.as_str()),
            },
        )
    }
}

/// Why a proxy that expects `expected` refuses the first packet of a client
/// (`None`: the client sent no whole packet), or nothing if it accepts it.
pub open spec fn auth_refusal(payload: Option<Seq<u8>>, expected: Seq<char>) -> Option<Seq<char>> {
    match payload {
        None => Some("missing auth"@),
        Some(p) => if !valid_utf8(p) {
            Some("invalid auth utf8"@)
        } else {
            match auth_code(decode_utf8(p)) {
                Ok(code) => if code == expected {
                    None
                } else {
                    Some("unauthorized"@)
                },
                Err(reason) => Some(reason),
            }
        },
    }
}

/// Proxy side: judges the first packet of a client (`None`: the client sent
/// no whole packet) and appends `OKAY` or `FAIL` with the reason.
pub fn accept_auth(payload: Option<&[u8]>, expected: &str, reply: &mut Vec<u8>) -> (accepted: bool)
    ensures
        ({
            let p = match payload {
                Some(b) => Some(b@),
                None => None,
            };
            &&& accepted == (auth_refusal(p, expected@) is None)
            &&& final(reply)@ == old(reply)@ + match auth_refusal(p, expected@) {
                None => okay_status(),
                Some(reason) => fail_bytes(reason),
            }
        }),
{
    let bytes = match payload {
        Some(b) => b,
        None => {
            write_fail(reply, "missing auth");
            return false;
        },
    };
    let service = match utf8_text(bytes) {
        Some(s) => s,
        None => {
            write_fail(reply, "invalid auth utf8");
            return false;
        },
    };
    match parse_auth_service(service.as_str()) {
        Ok(code) => {
            if codes_match(expected, code) {
                write_okay(reply);
                true
            } else {
                write_fail(reply, "unauthorized");
                false
            }
        },
        Err(reason) => {
            write_fail(reply, reason.as_str());
            false
        },
    }
}

/// Exactly the packets `auth:` with a pair code are understood, and give back
/// the code that they were made from.
pub proof fn auth_service_round_trip(code: Seq<char>)
    ensures
        auth_code(auth_chars(code)) == (if valid_pair_code(code) {
            Ok::<Seq<char>, Seq<char>>(code)
        } else {
            Err::<Seq<char>, Seq<char>>(pair_code_fault(code))
        }),
{
    let s = auth_chars(code);
    assert(s.take(AUTH_PREFIX@.len() as int) =~= AUTH_PREFIX@);
    assert(s.skip(AUTH_PREFIX@.len() as int) =~= code);
}

/// A proxy with a pair code lets a client pass if and only if the first
/// packet is exactly `auth:` and that code.
pub proof fn only_the_pair_code_passes(payload: Seq<u8>, expected: Seq<char>)
    requires
        valid_pair_code(expected),
    ensures
        auth_refusal(Some(payload), expected) is None <==> payload == encode_utf8(
            auth_chars(expected),
        ),
{
    auth_service_round_trip(expected);
    lemma_text_bytes(auth_chars(expected));
    if auth_refusal(Some(payload), expected) is None {
        let s = decode_utf8(payload);
        assert(s =~= auth_chars(s.skip(AUTH_PREFIX@.len() as int)));
        decode_utf8_encode_utf8(payload);
    }
}

/// A hub and a proxy that share a pair code agree: the proxy accepts the
/// packet that the hub writes, and the hub takes the proxy's answer.
pub proof fn handshake_with_the_pair_code(code: Seq<char>, tail: Seq<u8>)
    requires
        valid_pair_code(code),
    ensures
        take_packet(service_bytes(auth_chars(code)) + tail) == Ok::<(Seq<u8>, Seq<u8>), FaultView>(
            (encode_utf8(auth_chars(code)), tail),
        ),
        auth_refusal(Some(encode_utf8(auth_chars(code))), code) is None,
        auth_reply(okay_status() + tail) == Ok::<(), FaultView>(()),
{
    assert(take_packet(service_bytes(auth_chars(code)) + tail) == Ok::<
        (Seq<u8>, Seq<u8>),
        FaultView,
    >((encode_utf8(auth_chars(code)), tail))) by {
        lemma_auth_chars_len(code);
        packet_round_trip(encode_utf8(auth_chars(code)), tail);
    }
    assert(auth_refusal(Some(encode_utf8(auth_chars(code))), code) is None) by {
        only_the_pair_code_passes(encode_utf8(auth_chars(code)), code);
    }
    assert(auth_reply(okay_status() + tail) == Ok::<(), FaultView>(())) by {
        let reply = okay_status() + tail;
        assert(reply.take(4) =~= okay_status());
    }
}

/// With another pair code the proxy answers `unauthorized`, and the hub
/// reports that the permission was denied.
pub proof fn handshake_with_another_code(expected: Seq<char>, code: Seq<char>, tail: Seq<u8>)
    requires
        valid_pair_code(code),
        code != expected,
    ensures
        auth_refusal(Some(encode_utf8(auth_chars(code))), expected) == Some("unauthorized"@),
        auth_reply(fail_bytes("unauthorized"@) + tail) == Err::<(), FaultView>(
            fault_view(IoKind::PermissionDenied, "unauthorized"@),
        ),
{
    auth_service_round_trip(code);
    lemma_text_bytes(auth_chars(code));
    let reason = "unauthorized"@;
    reveal_strlit("unauthorized");
    assert(is_ascii_chars(reason));
    lemma_ascii_bytes(reason);
    lemma_text_bytes(reason);
    packet_round_trip(encode_utf8(reason), tail);
    let reply = fail_bytes(reason) + tail;
    assert(reply.take(4) =~= crate::protocol::fail_status());
    assert(reply.skip(4) =~= packet_bytes(encode_utf8(reason)) + tail);
    assert(crate::protocol::fail_status()[0] != okay_status()[0]);
}

proof fn lemma_auth_chars_len(code: Seq<char>)
    requires
        valid_pair_code(code),
    ensures
        encode_utf8(auth_chars(code)).len() <= MAX_PAYLOAD,
{
    reveal_strlit("auth:");
    let s = auth_chars(code);
    assert(is_ascii_chars(s)) by {
        assert forall|i: int| 0 <= i < s.len() implies '\0' <= #[trigger] s[i] <= '\u{7f}' by {
            if i >= 5 {
                assert(is_pair_char(code[i - 5]));
            }
        }
    }
    lemma_ascii_bytes(s);
}

/// A pair code is exactly eight characters, each a capital letter or a digit.
pub proof fn pair_codes_are_eight_capitals_or_digits(code: Seq<char>)
    ensures
        valid_pair_code(code) <==> code.len() == 8 && forall|i: int|
            0 <= i < code.len() ==> ('A' <= #[trigger] code[i] <= 'Z' || '0' <= code[i] <= '9'),
{
    if code.len() == 8 && forall|i: int|
        0 <= i < code.len() ==> ('A' <= #[trigger] code[i] <= 'Z' || '0' <= code[i] <= '9') {
        assert forall|i: int| 0 <= i < code.len() implies is_pair_char(#[trigger] code[i]) by {
            assert('A' <= code[i] <= 'Z' || '0' <= code[i] <= '9');
        }
    }
    if valid_pair_code(code) {
        assert forall|i: int| 0 <= i < code.len() implies ('A' <= #[trigger] code[i] <= 'Z' || '0'
            <= code[i] <= '9') by {
            assert(is_pair_char(code[i]));
        }
    }
}

/// The alphabet of pair codes: the letters and then the digits, each once.
pub proof fn pair_alphabet_is_complete(c: char)
    ensures
        is_pair_char(c) ==> exists|i: int| 0 <= i < PAIR_ALPHABET_LEN && #[trigger] pair_char(i)
            == c,
        forall|i: int, j: int|
            0 <= i < j < PAIR_ALPHABET_LEN ==> #[trigger] pair_char(i) != #[trigger] pair_char(j),
        forall|i: int| 0 <= i < PAIR_ALPHABET_LEN ==> is_pair_char(#[trigger] pair_char(i)),
{
    if 'A' <= c <= 'Z' {
        assert(pair_char(c as int - 65) == c);
    } else if '0' <= c <= '9' {
        assert(pair_char(c as int - 22) == c);
    }
}

/// What a client is told whose first packet is not the pair code: that it sent none,
/// that it is no text, that it is something else, what is wrong with the code, or
/// that the code is another one.
pub proof fn refusals_say_what_is_wrong(p: Seq<u8>, s: Seq<char>, expected: Seq<char>)
    ensures
        auth_refusal(None, expected) == Some("missing auth"@),
        !valid_utf8(p) ==> auth_refusal(Some(p), expected) == Some("invalid auth utf8"@),
        !has_prefix(s, "auth:"@) ==> auth_refusal(Some(encode_utf8(s)), expected) == Some(
            "expected auth:<pair-code> as first packet"@,
        ),
        !valid_pair_code(s) ==> auth_refusal(Some(encode_utf8("auth:"@ + s)), expected) == Some(
            if encode_utf8(s).len() != 8 {
                "pair code must be 8 characters, got "@ + dec_seq(encode_utf8(s).len())
            } else {
                "pair code must be alphanumeric A-Z0-9"@
            },
        ),
        valid_pair_code(s) && s != expected ==> auth_refusal(
            Some(encode_utf8("auth:"@ + s)),
            expected,
        ) == Some("unauthorized"@),
        valid_pair_code(s) && s == expected ==> auth_refusal(
            Some(encode_utf8("auth:"@ + s)),
            expected,
        ) is None,
{
    lemma_text_bytes(s);
    lemma_text_bytes("auth:"@ + s);
    auth_service_round_trip(s);
}

/// A hub goes on only after `OKAY`; `FAIL` with a reason is a denied permission that
/// gives the reason, and an answer that breaks off or is neither is an error.
pub proof fn only_okay_lets_the_hub_go_on(input: Seq<u8>, reason: Seq<char>, tail: Seq<u8>)
    ensures
        auth_reply(input) is Ok <==> input.len() >= 4 && input.take(4) == okay_status(),
        input.len() < 4 ==> auth_reply(input) == Err::<(), FaultView>(crate::protocol::early_eof()),
        encode_utf8(reason).len() <= MAX_PAYLOAD ==> auth_reply(fail_bytes(reason) + tail) == Err::<
            (),
            FaultView,
        >(fault_view(IoKind::PermissionDenied, reason)),
{
    assert(crate::protocol::fail_status()[0] != okay_status()[0]);
    if encode_utf8(reason).len() <= MAX_PAYLOAD {
        lemma_text_bytes(reason);
        packet_round_trip(encode_utf8(reason), tail);
        let reply = fail_bytes(reason) + tail;
        assert(reply.take(4) =~= crate::protocol::fail_status());
        assert(reply.skip(4) =~= packet_bytes(encode_utf8(reason)) + tail);
    }
}

/// A proxy lets in exactly the clients whose first packet is `auth:` and the expected
/// pair code; it answers `OKAY` to them and a refusal to all others.
pub proof fn only_the_expected_code_is_let_in(
    payload: Option<&[u8]>,
    expected: &str,
    reply: &mut Vec<u8>,
    accepted: bool,
)
    requires
        call_ensures(accept_auth, (payload, expected, reply), accepted),
        valid_pair_code(expected@),
    ensures
        accepted <==> (payload matches Some(p) && p@ == encode_utf8("auth:"@ + expected@)),
        final(reply)@.take(old(reply)@.len() as int) == old(reply)@,
        accepted ==> final(reply)@ == old(reply)@ + seq![0x4fu8, 0x4bu8, 0x41u8, 0x59u8],
        !accepted ==> exists|reason: Seq<char>|
            final(reply)@ == old(reply)@ + #[trigger] fail_bytes(reason),
{
    refusals_say_what_is_wrong(Seq::empty(), expected@, expected@);
    assert(final(reply)@.take(old(reply)@.len() as int) =~= old(reply)@);
    if accepted {
        only_the_pair_code_passes(payload->0@, expected@);
    }
}

} // verus!
