//! Queries to one backend.

use vstd::prelude::*;
use vstd::string::*;
use vstd::utf8::*;

use crate::auth::{auth_chars, write_auth};
use crate::compat::{evaluate_proxy_version, judge_version, CompatView, ProxyCompat};
use crate::config::{backend_views, BackendConfig, BackendView};
use crate::digits::{
    hex_digit_value, hex_seq, hexadecimal_digits, lemma_hex_seq_value, lemma_hex_zeros, pad_left,
    padding_keeps_the_text, parse_hex, parse_hex_seq, repeat_char,
};
use crate::fault::{fault, fault_view, FaultView, IoFault, IoKind};
use crate::octets::{lemma_text_bytes, lossy_seq, lossy_text};
use crate::protocol::{
    early_eof, fail_bytes, fail_status, is_fail, is_okay, left_after_failure, okay_status,
    packet_bytes, packet_round_trip, read_packet, read_status, service_bytes, show_status,
    status_text, take_packet, write_service, ByteReader, MAX_PAYLOAD,
};
use crate::registry::{line_reports, list_views, ListView, ReportView};
use crate::text::{cat2, lines_seq, only_white_space_is_trimmed, opt_view, trim, trim_seq};

verus! {

/// Longest wait for a connection or an answer, in milliseconds.
pub const QUERY_TIMEOUT_MS: u64 = 3000;

/// What to do next while a backend is queried.
#[derive(Debug)]
pub enum QueryAction {
    /// Send the pair code packet and wait for the verdict.
    Authenticate(Vec<u8>),
    /// Send the service packet and wait for the answer.
    Ask(Vec<u8>),
    /// The query failed.
    Fail(IoFault),
}

/// Model of [`QueryAction`].
pub enum QueryView {
    Authenticate(Seq<u8>),
    Ask(Seq<u8>),
    Fail(FaultView),
}

impl View for QueryAction {
    type V = QueryView;

    open spec fn view(&self) -> QueryView {
        match self {
            QueryAction::Authenticate(b) => QueryView::Authenticate(b@),
            QueryAction::Ask(b) => QueryView::Ask(b@),
            QueryAction::Fail(f) => QueryView::Fail(f@),
        }
    }
}

/// What became of an operation that may take too long.
#[derive(Debug)]
pub enum Timed<T> {
    /// It did not end in time.
    Late,
    /// It ended with this result.
    Ended(Result<T, IoFault>),
}

/// The failure of a connection that is not made in time.
pub open spec fn connect_late() -> FaultView {
    fault_view(IoKind::TimedOut, "connect timeout"@)
}

/// The failure of an answer that does not come in time.
pub open spec fn read_late() -> FaultView {
    fault_view(IoKind::TimedOut, "read timeout"@)
}

/// The first step of a query.
pub open spec fn query_first(
    connected: Timed<()>,
    pair_code: Option<Seq<char>>,
    service: Seq<char>,
) -> QueryView {
    match connected {
        Timed::Late => QueryView::Fail(connect_late()),
        Timed::Ended(Err(f)) => QueryView::Fail(f@),
        Timed::Ended(Ok(_)) => match pair_code {
            Some(code) => QueryView::Authenticate(service_bytes(auth_chars(code))),
            None => QueryView::Ask(service_bytes(service)),
        },
    }
}

/// Ask a service.
fn ask(service: &str) -> (a: QueryAction)
    ensures
        a@ == QueryView::Ask(service_bytes(service@)),
{
    let mut b: Vec<u8> = Vec::new();
    write_service(&mut b, service);
    assert(b@ =~= service_bytes(service@));
    QueryAction::Ask(b)
}

/// The first step of a query, once the backend is connected or not.
pub fn start_query(connected: Timed<()>, pair_code: &Option<String>, service: &str) -> (a:
    QueryAction)
    ensures
        a@ == query_first(connected, opt_view(*pair_code), service@),
{
    match connected {
        Timed::Late => QueryAction::Fail(fault(IoKind::TimedOut, "connect timeout")),
        Timed::Ended(Err(f)) => QueryAction::Fail(f),
        Timed::Ended(Ok(_)) => match pair_code {
            Some(code) => {
                let mut b: Vec<u8> = Vec::new();
                write_auth(&mut b, code.as_str());
                assert(b@ =~= service_bytes(auth_chars(code@)));
                QueryAction::Authenticate(b)
            },
            None => ask(service),
        },
    }
}

/// The step of a query after the verdict on the pair code.
pub fn continue_query(verdict: Result<(), IoFault>, service: &str) -> (a: QueryAction)
    ensures
        match verdict {
            Ok(_) => a@ == QueryView::Ask(service_bytes(service@)),
            Err(f) => a@ == QueryView::Fail(f@),
        },
{
    match verdict {
        Ok(_) => ask(service),
        Err(f) => QueryAction::Fail(f),
    }
}

/// The text that answers a query.
pub open spec fn query_text(answer: Timed<Vec<u8>>) -> Result<Seq<char>, FaultView> {
    match answer {
        Timed::Late => Err(read_late()),
        Timed::Ended(Err(f)) => Err(f@),
        Timed::Ended(Ok(body)) => Ok(lossy_seq(body@)),
    }
}

/// The text that answers a query, such as the body of `host:devices-l`.
pub fn finish_query(answer: Timed<Vec<u8>>) -> (r: Result<String, IoFault>)
    ensures
        match query_text(answer) {
            Ok(t) => r matches Ok(s) && s@ == t,
            Err(e) => r matches Err(f) && f@ == e,
        },
{
    match answer {
        Timed::Late => Err(fault(IoKind::TimedOut, "read timeout")),
        Timed::Ended(Err(f)) => Err(f),
        Timed::Ended(Ok(body)) => Ok(lossy_text(body.as_slice())),
    }
}

/// The service that binds a connection to a device.
pub fn transport_service(upstream_serial: &str) -> (s: String)
    ensures
        s@ == "host:transport:"@ + upstream_serial@,
{
    cat2("host:transport:", upstream_serial)
}

/// What a backend's answer to a transport request means.
pub open spec fn transport_verdict(input: Seq<u8>) -> Result<(), FaultView> {
    if input.len() < 4 {
        Err(early_eof())
    } else {
        let status = input.take(4);
        if status == okay_status() {
            Ok(())
        } else if status == fail_status() {
            match take_packet(input.skip(4)) {
                Ok((reason, _)) => Err(fault_view(IoKind::Other, lossy_seq(reason))),
                Err(f) => Err(f),
            }
        } else {
            Err(
                fault_view(
                    IoKind::InvalidData,
                    "unexpected transport status: "@ + status_text(status),
                ),
            )
        }
    }
}

/// Read a backend's answer to a transport request.
pub fn open_transport(reader: &mut ByteReader<'_>) -> (r: Result<(), IoFault>)
    requires
        old(reader).wf(),
    ensures
        final(reader).wf(),
        final(reader).buf@ == old(reader).buf@,
        match transport_verdict(old(reader).rest()) {
            Ok(_) => r is Ok && final(reader).rest() == old(reader).rest().skip(4),
            Err(e) => (r matches Err(f) && f@ == e) && final(reader).rest() == left_after_failure(
                old(reader).rest(),
            ),
        },
{
    let status = match read_status(reader) {
        Ok(s) => s,
        Err(f) => {
            return Err(f);
        },
    };
    assert(okay_status() != fail_status()) by {
        assert(okay_status()[0] != fail_status()[0]);
    }
    if is_okay(&status) {
        return Ok(());
    }
    if is_fail(&status) {
        return match read_packet(reader) {
            Ok(reason) => {
                let m = lossy_text(reason.as_slice());
                Err(fault(IoKind::Other, m.as_str()))
            },
            Err(f) => Err(f),
        };
    }
    let shown = show_status(&status);
    let m = cat2("unexpected transport status: ", shown.as_str());
    Err(fault(IoKind::InvalidData, m.as_str()))
}

/// The device list to register for a backend after polling it: what it
/// answered, or nothing where it could not be reached.
pub open spec fn polled_body(fetched: Result<String, IoFault>) -> Seq<char> {
    match fetched {
        Ok(b) => b@,
        Err(_) => Seq::empty(),
    }
}

/// The lists of all backends after polling them. A backend that could not be
/// reached has an empty list, so that its devices disappear.
pub fn polled_lists(backends: &Vec<BackendConfig>, fetched: Vec<Result<String, IoFault>>) -> (r:
    Vec<(BackendConfig, String)>)
    requires
        fetched@.len() == backends@.len(),
    ensures
        list_views(r@) == Seq::new(
            backends@.len(),
            |i: int| ListView { backend: backends@[i]@, body: polled_body(fetched@[i]) },
        ),
{
    let mut r: Vec<(BackendConfig, String)> = Vec::new();
    let mut i: usize = 0;
    while i < backends.len()
        invariant
            i <= backends@.len(),
            fetched@.len() == backends@.len(),
            r@.len() == i,
            forall|j: int|
                0 <= j < i ==> (#[trigger] r@[j]).0@ == backends@[j]@ && r@[j].1@ == polled_body(
                    fetched@[j],
                ),
        decreases backends@.len() - i,
    {
        let body = match &fetched[i] {
            Ok(b) => b.clone(),
            Err(_) => {
                let none = String::new();
                assert(none@ =~= Seq::<char>::empty());
                none
            },
        };
        r.push((backends[i].clone(), body));
        i += 1;
    }
    assert(list_views(r@) =~= Seq::new(
        backends@.len(),
        |i: int| ListView { backend: backends@[i]@, body: polled_body(fetched@[i]) },
    ));
    r
}

/// The version in the answer to `host:version`.
pub open spec fn server_version(body: Seq<char>) -> Result<nat, FaultView> {
    let t = trim_seq(body);
    match parse_hex_seq(t) {
        Some(v) if t.len() <= 4 => Ok(v),
        _ => Err(fault_view(IoKind::InvalidData, "invalid server version: "@ + body)),
    }
}

/// The version in the answer to `host:version`: up to four hexadecimal digits.
pub fn fetch_server_version(body: &str) -> (r: Result<u32, IoFault>)
    ensures
        match server_version(body@) {
            Ok(v) => r matches Ok(n) && n == v,
            Err(e) => r matches Err(f) && f@ == e,
        },
{
    let t = trim(body);
    if t.unicode_len() <= 4 {
        if let Some(v) = parse_hex(t) {
            return Ok(v as u32);
        }
    }
    let m = cat2("invalid server version: ", body);
    Err(fault(IoKind::InvalidData, m.as_str()))
}

/// What a backend's answer to `proxy:version` means for it.
pub open spec fn compat_of(answer: Result<String, IoFault>) -> CompatView {
    match answer {
        Ok(v) => judge_version(v@),
        Err(f) => CompatView::Unknown { reason: f.message@ },
    }
}

/// Judge a backend by its answer to `proxy:version`; one that does not answer
/// is of unknown version.
pub fn judge_backend(answer: Result<String, IoFault>) -> (c: ProxyCompat)
    ensures
        c@ == compat_of(answer),
{
    match answer {
        Ok(v) => evaluate_proxy_version(v.as_str()),
        Err(f) => ProxyCompat::Unknown { reason: f.message },
    }
}

/// The backends that are new enough, in order.
pub open spec fn compatible_only(
    backends: Seq<BackendView>,
    compat: Seq<CompatView>,
) -> Seq<BackendView>
    decreases backends.len(),
{
    if backends.len() == 0 {
        Seq::empty()
    } else {
        let n = backends.len() - 1;
        let before = compatible_only(backends.drop_last(), compat);
        if compat[n] is Supported {
            before.push(backends[n])
        } else {
            before
        }
    }
}

/// The backends that are new enough.
pub fn filter_compatible_backends(backends: &Vec<BackendConfig>, compat: &Vec<ProxyCompat>) -> (r:
    Vec<BackendConfig>)
    requires
        compat@.len() == backends@.len(),
    ensures
        backend_views(r@) == compatible_only(backend_views(backends@), compat_views(compat@)),
{
    let ghost all = backend_views(backends@);
    let ghost verdicts = compat_views(compat@);
    let mut r: Vec<BackendConfig> = Vec::new();
    let mut i: usize = 0;
    assert(backend_views(r@) =~= compatible_only(all.take(0), verdicts));
    while i < backends.len()
        invariant
            i <= backends@.len(),
            compat@.len() == backends@.len(),
            all == backend_views(backends@),
            verdicts == compat_views(compat@),
            backend_views(r@) == compatible_only(all.take(i as int), verdicts),
        decreases backends@.len() - i,
    {
        assert(all.take(i + 1).drop_last() =~= all.take(i as int));
        let ghost before = r@;
        if compat[i].is_ok() {
            r.push(backends[i].clone());
            assert(backend_views(r@) =~= backend_views(before).push(all[i as int]));
        }
        i += 1;
    }
    assert(all.take(i as int) =~= all);
    r
}

/// The models of a list of verdicts.
pub open spec fn compat_views(s: Seq<ProxyCompat>) -> Seq<CompatView> {
    Seq::new(s.len(), |i: int| s[i]@)
}

/// A paired backend is sent its pair code before it is asked anything.
pub proof fn paired_backends_are_authenticated_first(
    code: Seq<char>,
    service: Seq<char>,
)
    ensures
        query_first(Timed::Ended(Ok(())), Some(code), service) == QueryView::Authenticate(
            service_bytes(auth_chars(code)),
        ),
        query_first(Timed::Ended(Ok(())), None, service) == QueryView::Ask(service_bytes(service)),
{
}

/// The devices of a backend that cannot be reached disappear: it contributes
/// no device to the merged list.
pub proof fn unreachable_backends_have_no_devices(backend: BackendView)
    ensures
        line_reports(backend, lines_seq(Seq::empty())) == Seq::<ReportView>::empty(),
{
    assert(lines_seq(Seq::<char>::empty()) =~= Seq::<Seq<char>>::empty());
}

/// A query fails if the backend cannot be connected to in time or refuses the pair
/// code; else the backend is asked the service, and its answer is the text.
pub proof fn backends_are_asked_the_service(
    service: Seq<char>,
    code: Option<Seq<char>>,
    f: IoFault,
    body: Vec<u8>,
)
    ensures
        query_first(Timed::Late, code, service) == QueryView::Fail(
            fault_view(IoKind::TimedOut, "connect timeout"@),
        ),
        query_first(Timed::Ended(Err(f)), code, service) == QueryView::Fail(f@),
        query_first(Timed::Ended(Ok(())), code, service) == (match code {
            Some(c) => QueryView::Authenticate(packet_bytes(encode_utf8("auth:"@ + c))),
            None => QueryView::Ask(packet_bytes(encode_utf8(service))),
        }),
        query_text(Timed::Late) == Err::<Seq<char>, FaultView>(
            fault_view(IoKind::TimedOut, "read timeout"@),
        ),
        query_text(Timed::Ended(Err(f))) == Err::<Seq<char>, FaultView>(f@),
        valid_utf8(body@) ==> query_text(Timed::Ended(Ok(body))) == Ok::<Seq<char>, FaultView>(
            decode_utf8(body@),
        ),
{
}

/// After the verdict on the pair code the service is asked, or the query fails as
/// the verdict says.
pub proof fn verdicts_are_heeded(verdict: Result<(), IoFault>, service: &str, a: QueryAction)
    requires
        call_ensures(continue_query, (verdict, service), a),
    ensures
        a@ is Ask <==> verdict is Ok,
        a@ matches QueryView::Ask(b) ==> b == packet_bytes(encode_utf8(service@)),
        a@ matches QueryView::Fail(g) ==> verdict is Err && g == verdict->Err_0@,
{
}

/// A transport is open only after `OKAY`; `FAIL` gives the backend's reason.
pub proof fn only_okay_opens_a_transport(input: Seq<u8>, reason: Seq<char>, tail: Seq<u8>)
    ensures
        transport_verdict(input) is Ok <==> input.len() >= 4 && input.take(4) == okay_status(),
        input.len() < 4 ==> transport_verdict(input) == Err::<(), FaultView>(early_eof()),
        encode_utf8(reason).len() <= MAX_PAYLOAD ==> transport_verdict(fail_bytes(reason) + tail)
            == Err::<(), FaultView>(fault_view(IoKind::Other, reason)),
{
    assert(fail_status()[0] != okay_status()[0]);
    if encode_utf8(reason).len() <= MAX_PAYLOAD {
        lemma_text_bytes(reason);
        packet_round_trip(encode_utf8(reason), tail);
        let reply = fail_bytes(reason) + tail;
        assert(reply.take(4) =~= fail_status());
        assert(reply.skip(4) =~= packet_bytes(encode_utf8(reason)) + tail);
    }
}

/// What a backend answered is what is registered for it; one that could not be
/// reached has nothing.
pub proof fn answers_are_registered(body: String, f: IoFault)
    ensures
        polled_body(Ok(body)) == body@,
        polled_body(Err(f)) == Seq::<char>::empty(),
{
}

/// A server's version is read from up to four hexadecimal digits, also with white
/// space around them; anything else is refused.
pub proof fn server_versions_are_read(v: nat, body: Seq<char>)
    requires
        v < 0x10000,
    ensures
        server_version(hex_seq(v)) == Ok::<nat, FaultView>(v),
        server_version(pad_left(hex_seq(v), '0', 4)) == Ok::<nat, FaultView>(v),
        trim_seq(body).len() == 0 || trim_seq(body).len() > 4 || (exists|i: int|
            0 <= i < trim_seq(body).len() && hex_digit_value(#[trigger] trim_seq(body)[i]) is None)
            ==> server_version(body) == Err::<nat, FaultView>(
            fault_view(IoKind::InvalidData, "invalid server version: "@ + body),
        ),
{
    let s = hex_seq(v);
    lemma_hex_seq_value(v);
    hexadecimal_digits(v, '0');
    let n = s.len() - 1;
    assert(hex_digit_value(s[0]) is Some && hex_digit_value(s[n]) is Some);
    only_white_space_is_trimmed(Seq::empty(), s, Seq::empty());
    assert(Seq::<char>::empty() + s + Seq::<char>::empty() =~= s);
    let p = pad_left(s, '0', 4);
    padding_keeps_the_text(s, '0', 4);
    let k = 4 - s.len();
    let zeros = repeat_char('0', k as nat);
    assert(p =~= zeros + s);
    lemma_hex_zeros(k as nat, s);
    assert forall|i: int| 0 <= i < p.len() implies hex_digit_value(#[trigger] p[i]) is Some by {
        if i >= k {
            assert(p.skip(k)[i - k] == p[i]);
            assert(hex_digit_value(s[i - k]) is Some);
        }
    }
    assert(hex_digit_value(p[0]) is Some && hex_digit_value(p[3]) is Some);
    only_white_space_is_trimmed(Seq::empty(), p, Seq::empty());
    assert(Seq::<char>::empty() + p + Seq::<char>::empty() =~= p);
}

/// A backend is judged by the version that it answers; one that does not answer is
/// of unknown version, for the reason that it did not.
pub proof fn silent_backends_are_unknown(answer: String, f: IoFault)
    ensures
        compat_of(Ok(answer)) == judge_version(answer@),
        compat_of(Err(f)) == (CompatView::Unknown { reason: f.message@ }),
{
}

/// The backends that are new enough are kept as they are and in order; those that
/// are too old or of unknown version are not.
pub proof fn old_backends_are_left_out(
    s: Seq<BackendView>,
    cs: Seq<CompatView>,
    t: Seq<BackendView>,
    ct: Seq<CompatView>,
    b: BackendView,
    c: CompatView,
)
    requires
        s.len() == cs.len(),
        t.len() == ct.len(),
    ensures
        compatible_only(s + t, cs + ct) == compatible_only(s, cs) + compatible_only(t, ct),
        compatible_only(seq![b], seq![c]) == (if c is Supported {
            seq![b]
        } else {
            Seq::empty()
        }),
    decreases t.len(),
{
    assert(seq![b].drop_last() =~= Seq::<BackendView>::empty());
    assert(compatible_only(seq![b].drop_last(), seq![c]) =~= Seq::<BackendView>::empty());
    assert(Seq::<BackendView>::empty().push(b) =~= seq![b]);
    if t.len() == 0 {
        assert(s + t =~= s);
        assert(cs + ct =~= cs);
        assert(compatible_only(s + t, cs + ct) =~= compatible_only(s, cs) + compatible_only(t, ct));
    } else {
        let n = t.len() - 1;
        old_backends_are_left_out(s, cs, t.drop_last(), ct.drop_last(), b, c);
        assert((s + t).drop_last() =~= s + t.drop_last());
        lemma_compat_prefix(s + t.drop_last(), cs + ct.drop_last(), cs + ct);
        lemma_compat_prefix(t.drop_last(), ct.drop_last(), ct);
        assert((cs + ct)[s.len() + n] == ct[n]);
        assert(compatible_only(s + t, cs + ct) =~= compatible_only(s, cs) + compatible_only(t, ct));
    }
}

proof fn lemma_compat_prefix(s: Seq<BackendView>, a: Seq<CompatView>, b: Seq<CompatView>)
    requires
        s.len() <= a.len(),
        s.len() <= b.len(),
        forall|i: int| 0 <= i < s.len() ==> #[trigger] a[i] == b[i],
    ensures
        compatible_only(s, a) == compatible_only(s, b),
    decreases s.len(),
{
    if s.len() > 0 {
        lemma_compat_prefix(s.drop_last(), a, b);
        assert(a[s.len() - 1] == b[s.len() - 1]);
    }
}

/// Every backend that is new enough is kept, and no other; they stay in order.
pub proof fn new_enough_backends_are_kept(
    backends: &Vec<BackendConfig>,
    compat: &Vec<ProxyCompat>,
    r: Vec<BackendConfig>,
    b: BackendView,
)
    requires
        compat@.len() == backends@.len(),
        call_ensures(filter_compatible_backends, (backends, compat), r),
    ensures
        backend_views(r@).contains(b) <==> exists|i: int|
            0 <= i < backends@.len() && (#[trigger] backends@[i])@ == b
                && compat@[i]@ is Supported,
        (forall|i: int| 0 <= i < compat@.len() ==> (#[trigger] compat@[i])@ is Supported)
            ==> backend_views(r@) == backend_views(backends@),
{
    let all = backend_views(backends@);
    let verdicts = compat_views(compat@);
    lemma_compatible(all, verdicts, b);
    if exists|i: int| 0 <= i < all.len() && #[trigger] all[i] == b && verdicts[i] is Supported {
        let i = choose|i: int|
            0 <= i < all.len() && #[trigger] all[i] == b && verdicts[i] is Supported;
        assert(backends@[i]@ == b);
    }
    if exists|i: int|
        0 <= i < backends@.len() && (#[trigger] backends@[i])@ == b && compat@[i]@ is Supported {
        let i = choose|i: int|
            0 <= i < backends@.len() && (#[trigger] backends@[i])@ == b
                && compat@[i]@ is Supported;
        assert(all[i] == b && verdicts[i] is Supported);
    }
    if forall|i: int| 0 <= i < compat@.len() ==> (#[trigger] compat@[i])@ is Supported {
        assert forall|i: int| 0 <= i < verdicts.len() implies (#[trigger] verdicts[i]) is Supported by {
            assert(compat@[i]@ is Supported);
        }
    }
}

/// What is kept of a list are the backends that are new enough.
proof fn lemma_compatible(s: Seq<BackendView>, c: Seq<CompatView>, b: BackendView)
    requires
        s.len() <= c.len(),
    ensures
        compatible_only(s, c).contains(b) <==> exists|i: int|
            0 <= i < s.len() && #[trigger] s[i] == b && c[i] is Supported,
        (forall|i: int| 0 <= i < s.len() ==> (#[trigger] c[i]) is Supported) ==> compatible_only(
            s,
            c,
        ) == s,
    decreases s.len(),
{
    if s.len() > 0 {
        let t = s.drop_last();
        let n = s.len() - 1;
        let kept = compatible_only(t, c);
        lemma_compatible(t, c, b);
        if compatible_only(s, c).contains(b) {
            if kept.contains(b) {
                let i = choose|i: int| 0 <= i < t.len() && #[trigger] t[i] == b && c[i] is Supported;
                assert(s[i] == b);
            } else {
                let all = compatible_only(s, c);
                let k = choose|k: int| 0 <= k < all.len() && all[k] == b;
                assert(k < kept.len() ==> kept[k] == b);
                assert(s[n] == b && c[n] is Supported);
            }
        }
        if exists|i: int| 0 <= i < s.len() && #[trigger] s[i] == b && c[i] is Supported {
            let i = choose|i: int| 0 <= i < s.len() && #[trigger] s[i] == b && c[i] is Supported;
            if i < n {
                assert(t[i] == b);
                let k = choose|k: int| 0 <= k < kept.len() && kept[k] == b;
                assert(compatible_only(s, c)[k] == b);
            } else {
                assert(compatible_only(s, c)[kept.len() as int] == b);
            }
        }
        assert(t.push(s[n]) =~= s);
    } else {
        assert(compatible_only(s, c) =~= s);
    }
}

} // verus!
