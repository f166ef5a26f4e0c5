//! Version compatibility of hub and proxy.

use vstd::prelude::*;
use vstd::string::*;

use crate::digits::{
    dec_seq, lemma_dec_seq, numbers_are_read_back, parse_u32, parse_u32_seq, push_dec,
};
use crate::text::{
    find_char, has_prefix, is_white_space, lemma_find_char, lemma_trimmed, parts_end_at_separators,
    split, split_once, split_seq, strip_prefix, trim, trim_seq,
};

verus! {

/// The release that this is.
pub const VERSION: &'static str = "0.4.4";

/// Oldest `adb-proxy` release this hub is willing to talk to.
pub const MIN_PROXY_VERSION: &'static str = "0.4.4";

/// Smart-socket service name answered by `adb-proxy` after authentication.
pub const PROXY_VERSION_SERVICE: &'static str = "proxy:version";

/// A release: major, minor and patch number.
#[derive(Clone, Copy, Debug, PartialEq, Eq, PartialOrd, Ord, Structural)]
pub struct SemVer {
    pub major: u32,
    pub minor: u32,
    pub patch: u32,
}

/// `s` up to the first `c`.
pub open spec fn before_char(s: Seq<char>, c: char) -> Seq<char> {
    s.take(find_char(s, c))
}

/// The numbers part of a version: without white space around it, without a
/// leading `v` and without pre-release or build metadata.
pub open spec fn version_core(s: Seq<char>) -> Seq<char> {
    let t = trim_seq(s);
    let u = if t.len() > 0 && t[0] == 'v' {
        t.skip(1)
    } else {
        t
    };
    before_char(before_char(u, '-'), '+')
}

/// The release that `s` names, if it names one: two or three numbers
/// separated by dots, a missing third number being zero.
pub open spec fn sem_ver(s: Seq<char>) -> Option<SemVer> {
    let parts = split_seq(version_core(s), '.');
    if 2 <= parts.len() <= 3 {
        match (parse_u32_seq(parts[0]), parse_u32_seq(parts[1])) {
            (Some(major), Some(minor)) => if parts.len() == 2 {
                Some(SemVer { major, minor, patch: 0 })
            } else {
                match parse_u32_seq(parts[2]) {
                    Some(patch) => Some(SemVer { major, minor, patch }),
                    None => None,
                }
            },
            _ => None,
        }
    } else {
        None
    }
}

/// `s` up to the first `c`.
fn until_char(s: &str, c: char) -> (r: &str)
    ensures
        r@ == before_char(s@, c),
{
    match split_once(s, c) {
        Some((head, _)) => head,
        None => {
            assert(s@.take(s@.len() as int) =~= s@);
            s
        },
    }
}

impl SemVer {
    /// Lexicographic order on major, minor and patch number.
    pub open spec fn ge_spec(self, other: SemVer) -> bool {
        self.major > other.major || (self.major == other.major && (self.minor > other.minor || (
        self.minor == other.minor && self.patch >= other.patch)))
    }

    /// Reads a release; `v1.2` and `0.4.3-beta` are fine.
    pub fn parse(s: &str) -> (r: Option<Self>)
        ensures
            r == sem_ver(s@),
    {
        let t = trim(s);
        let u = match strip_prefix(t, "v") {
            Some(rest) => rest,
            None => t,
        };
        proof {
            reveal_strlit("v");
            let v = "v"@;
            assert(v =~= seq!['v']);
            if t@.len() > 0 && t@[0] == 'v' {
                assert(t@.take(1) =~= v);
            }
            if has_prefix(t@, v) {
                assert(t@.take(1)[0] == t@[0]);
            }
        }
        let core = until_char(until_char(u, '-'), '+');
        let parts = split(core, '.');
        let ghost model = split_seq(core@, '.');
        assert(model == crate::text::views(parts@));
        if parts.len() < 2 || parts.len() > 3 {
            return None;
        }
        assert(model[0] == parts@[0]@ && model[1] == parts@[1]@);
        let major: u32 = match parse_u32(parts[0].as_str()) {
            Some(n) => n,
            None => return None,
        };
        let minor: u32 = match parse_u32(parts[1].as_str()) {
            Some(n) => n,
            None => return None,
        };
        let patch: u32 = if parts.len() == 2 {
            0
        } else {
            assert(model[2] == parts@[2]@);
            match parse_u32(parts[2].as_str()) {
                Some(n) => n,
                None => return None,
            }
        };
        Some(SemVer { major, minor, patch })
    }

    /// Whether this release is `other` or a later one.
    pub fn at_least(&self, other: &SemVer) -> (r: bool)
        ensures
            r == self.ge_spec(*other),
    {
        self.major > other.major || (self.major == other.major && (self.minor > other.minor || (
        self.minor == other.minor && self.patch >= other.patch)))
    }

    /// `major.minor.patch`
    pub fn to_string(&self) -> (s: String)
        ensures
            s@ == dec_seq(self.major as nat).push('.') + dec_seq(self.minor as nat).push('.')
                + dec_seq(self.patch as nat),
    {
        let mut s = String::new();
        push_dec(&mut s, self.major as u128);
        s.push('.');
        push_dec(&mut s, self.minor as u128);
        s.push('.');
        push_dec(&mut s, self.patch as u128);
        assert(s@ =~= dec_seq(self.major as nat).push('.') + dec_seq(self.minor as nat).push('.')
            + dec_seq(self.patch as nat));
        s
    }
}

/// What a hub thinks of a proxy's version.
#[derive(Debug)]
pub enum ProxyCompat {
    Supported { version: String },
    TooOld { version: String },
    /// `proxy:version` unsupported or unreachable (treat as too old).
    Unknown { reason: String },
}

/// Model of [`ProxyCompat`].
pub enum CompatView {
    Supported { version: Seq<char> },
    TooOld { version: Seq<char> },
    Unknown { reason: Seq<char> },
}

impl View for ProxyCompat {
    type V = CompatView;

    open spec fn view(&self) -> CompatView {
        match self {
            ProxyCompat::Supported { version } => CompatView::Supported { version: version@ },
            ProxyCompat::TooOld { version } => CompatView::TooOld { version: version@ },
            ProxyCompat::Unknown { reason } => CompatView::Unknown { reason: reason@ },
        }
    }
}

/// What the user is told of a backend's version.
pub open spec fn compat_message(compat: CompatView, backend: Seq<char>, addr: Seq<char>) -> Seq<
    char,
> {
    let who = "backend '"@ + backend + "' ("@ + addr;
    match compat {
        CompatView::Supported { version } => who + ") adb-proxy "@ + version + " OK"@,
        CompatView::TooOld { version } => who + ") runs adb-proxy "@ + version
            + ", but this hub requires adb-proxy >= "@ + MIN_PROXY_VERSION@
            + ". Please upgrade adb-proxy on that host (and keep the same pair code)."@,
        CompatView::Unknown { reason } => who + ") did not report a version ("@ + reason
            + "). This hub requires adb-proxy >= "@ + MIN_PROXY_VERSION@
            + ". Please upgrade adb-proxy on that host (older builds have no proxy:version)."@,
    }
}

impl ProxyCompat {
    /// Whether the hub talks to such a proxy.
    pub fn is_ok(&self) -> (r: bool)
        ensures
            r == (self@ is Supported),
    {
        match self {
            ProxyCompat::Supported { .. } => true,
            _ => false,
        }
    }

    /// What the user is told of the backend named `backend` at `addr`.
    pub fn user_message(&self, backend: &str, addr: &str) -> (s: String)
        ensures
            s@ == compat_message(self@, backend@, addr@),
    {
        let mut s = "backend '".to_owned();
        s.append(backend);
        s.append("' (");
        s.append(addr);
        match self {
            ProxyCompat::Supported { version } => {
                s.append(") adb-proxy ");
                s.append(version.as_str());
                s.append(" OK");
            },
            ProxyCompat::TooOld { version } => {
                s.append(") runs adb-proxy ");
                s.append(version.as_str());
                s.append(", but this hub requires adb-proxy >= ");
                s.append(MIN_PROXY_VERSION);
                s.append(". Please upgrade adb-proxy on that host (and keep the same pair code).");
            },
            ProxyCompat::Unknown { reason } => {
                s.append(") did not report a version (");
                s.append(reason.as_str());
                s.append("). This hub requires adb-proxy >= ");
                s.append(MIN_PROXY_VERSION);
                s.append(
                    ". Please upgrade adb-proxy on that host (older builds have no proxy:version).",
                );
            },
        }
        s
    }
}

/// The oldest release that the hub talks to.
pub open spec fn min_proxy() -> SemVer {
    SemVer { major: 0, minor: 4, patch: 4 }
}

/// What a hub thinks of a proxy that reports `reported`.
pub open spec fn judge_version(reported: Seq<char>) -> CompatView {
    match sem_ver(reported) {
        None => CompatView::Unknown { reason: "invalid version string '"@ + reported + "'"@ },
        Some(got) => if got.ge_spec(min_proxy()) {
            CompatView::Supported { version: trim_seq(reported) }
        } else {
            CompatView::TooOld { version: trim_seq(reported) }
        },
    }
}

proof fn lemma_min_proxy()
    ensures
        sem_ver(MIN_PROXY_VERSION@) == Some(min_proxy()),
{
    reveal_strlit("0.4.4");
    let s = "0.4.4"@;
    assert(s =~= seq!['0', '.', '4', '.', '4']);
    reveal_with_fuel(find_char, 8);
    reveal_with_fuel(split_seq, 4);
    reveal_with_fuel(crate::digits::dec_value, 3);
    assert(trim_seq(s) == s);
    assert(find_char(s, '-') == 5);
    assert(before_char(s, '-') =~= s);
    assert(before_char(s, '+') =~= s);
    assert(version_core(s) == s);
    assert(s.take(1) =~= seq!['0']);
    let t = s.skip(2);
    assert(t =~= seq!['4', '.', '4']);
    assert(t.take(1) =~= seq!['4']);
    let u = t.skip(2);
    assert(u =~= seq!['4']);
    assert(split_seq(s, '.') =~= seq![seq!['0'], seq!['4'], seq!['4']]);
    assert(crate::digits::dec_value(seq!['4']) == 4);
    assert(parse_u32_seq(seq!['4']) == Some(4u32));
    assert(crate::digits::dec_value(seq!['0']) == 0);
    assert(parse_u32_seq(seq!['0']) == Some(0u32));
}

/// Judges the version that a proxy reports.
pub fn evaluate_proxy_version(reported: &str) -> (r: ProxyCompat)
    ensures
        r@ == judge_version(reported@),
{
    let got = match SemVer::parse(reported) {
        Some(v) => v,
        None => {
            let mut reason = "invalid version string '".to_owned();
            reason.append(reported);
            reason.append("'");
            return ProxyCompat::Unknown { reason };
        },
    };
    proof {
        lemma_min_proxy();
    }
    let min = match SemVer::parse(MIN_PROXY_VERSION) {
        Some(v) => v,
        None => return ProxyCompat::Supported { version: trim(reported).to_owned() },
    };
    if got.at_least(&min) {
        ProxyCompat::Supported { version: trim(reported).to_owned() }
    } else {
        ProxyCompat::TooOld { version: trim(reported).to_owned() }
    }
}

/// The order of releases is total, and two releases that are each at least
/// the other are the same.
pub proof fn releases_are_ordered(a: SemVer, b: SemVer, c: SemVer)
    ensures
        a.ge_spec(b) || b.ge_spec(a),
        a.ge_spec(b) && b.ge_spec(a) ==> a == b,
        a.ge_spec(b) && b.ge_spec(c) ==> a.ge_spec(c),
{
}

/// A hub that talks to a release talks to every later one.
pub proof fn later_releases_are_fine(reported: Seq<char>, later: Seq<char>)
    requires
        judge_version(reported) is Supported,
        sem_ver(later) matches Some(l) && l.ge_spec(sem_ver(reported)->0),
    ensures
        judge_version(later) is Supported,
{
}

/// `major.minor.patch`.
pub open spec fn release_chars(v: SemVer) -> Seq<char> {
    dec_seq(v.major as nat) + seq!['.'] + (dec_seq(v.minor as nat) + seq!['.'] + dec_seq(
        v.patch as nat,
    ))
}

proof fn lemma_numeral_without(n: nat, c: char)
    requires
        !('0' <= c <= '9'),
    ensures
        !dec_seq(n).contains(c),
{
    lemma_dec_seq(n);
    if dec_seq(n).contains(c) {
        let i = choose|i: int| 0 <= i < dec_seq(n).len() && dec_seq(n)[i] == c;
        assert(crate::digits::is_dec_digit(dec_seq(n)[i]));
    }
}

proof fn lemma_release_without(v: SemVer, c: char)
    requires
        !('0' <= c <= '9'),
        c != '.',
    ensures
        !release_chars(v).contains(c),
{
    lemma_numeral_without(v.major as nat, c);
    lemma_numeral_without(v.minor as nat, c);
    lemma_numeral_without(v.patch as nat, c);
    let s = release_chars(v);
    if s.contains(c) {
        let i = choose|i: int| 0 <= i < s.len() && s[i] == c;
        let a = dec_seq(v.major as nat);
        let b = dec_seq(v.minor as nat);
        let d = dec_seq(v.patch as nat);
        if i < a.len() {
            assert(a.contains(a[i]));
        } else if a.len() < i < a.len() + 1 + b.len() {
            assert(b.contains(b[i - a.len() - 1]));
        } else if i > a.len() + 1 + b.len() {
            assert(d.contains(d[i - a.len() - b.len() - 2]));
        }
    }
}

/// A release is read back from its text, also with a `v` before it, and with
/// pre-release or build metadata behind it.
pub proof fn releases_are_read_back(v: SemVer, meta: Seq<char>)
    requires
        meta.len() > 0 ==> !is_white_space(meta.last()),
    ensures
        sem_ver(release_chars(v)) == Some(v),
        sem_ver(seq!['v'] + release_chars(v)) == Some(v),
        sem_ver(release_chars(v) + seq!['-'] + meta) == Some(v),
        sem_ver(release_chars(v) + seq!['+'] + meta) == Some(v),
{
    let s = release_chars(v);
    lemma_core(s, v);
    lemma_release_without(v, '-');
    lemma_release_without(v, '+');
    lemma_release_without(v, 'v');
    lemma_dec_seq(v.major as nat);
    lemma_dec_seq(v.patch as nat);
    let a = dec_seq(v.major as nat);
    let d = dec_seq(v.patch as nat);
    let n = d.len() - 1;
    assert(crate::digits::is_dec_digit(a[0]) && crate::digits::is_dec_digit(d[n]));
    assert(s[0] == a[0]);
    assert(s.last() == d[n]);
    parts_end_at_separators(s, '-', meta);
    parts_end_at_separators(s, '+', meta);
    assert(s.take(s.len() as int) =~= s);
    lemma_trimmed(s);
    // plain
    assert(version_core(s) == s);
    // with a leading `v`
    let w = seq!['v'] + s;
    assert(w.last() == s.last());
    lemma_trimmed(w);
    assert(w.skip(1) =~= s);
    assert(version_core(w) == s);
    // with metadata
    let x = s + seq!['-'] + meta;
    let y = s + seq!['+'] + meta;
    if meta.len() > 0 {
        assert(x.last() == meta.last() && y.last() == meta.last());
    } else {
        assert(x.last() == '-' && y.last() == '+');
    }
    assert(x[0] == a[0] && y[0] == a[0]);
    lemma_trimmed(x);
    lemma_trimmed(y);
    assert(x.take(s.len() as int) =~= s);
    assert(y.take(s.len() as int) =~= s);
    assert(version_core(x) == s);
    lemma_before_dash(s, meta);
    assert(version_core(y) == s);
}

/// Cutting at `-` leaves a `+` that comes before it.
proof fn lemma_before_dash(s: Seq<char>, meta: Seq<char>)
    requires
        !s.contains('-'),
        !s.contains('+'),
    ensures
        before_char(before_char(s + seq!['+'] + meta, '-'), '+') == s,
{
    let y = s + seq!['+'] + meta;
    let k = find_char(y, '-');
    lemma_find_char(y, '-');
    if k <= s.len() {
        if k < s.len() {
            assert(s[k] == '-');
            assert(s.contains(s[k]));
        } else {
            assert(y[s.len() as int] == '+');
        }
    }
    let z = y.take(k);
    let rest = z.skip(s.len() as int + 1);
    assert(z =~= s + seq!['+'] + rest);
    parts_end_at_separators(s, '+', rest);
    assert(z.take(s.len() as int) =~= s);
}

proof fn lemma_core(s: Seq<char>, v: SemVer)
    requires
        s == release_chars(v),
    ensures
        ({
            let parts = split_seq(s, '.');
            &&& parts.len() == 3
            &&& parse_u32_seq(parts[0]) == Some(v.major)
            &&& parse_u32_seq(parts[1]) == Some(v.minor)
            &&& parse_u32_seq(parts[2]) == Some(v.patch)
        }),
{
    let a = dec_seq(v.major as nat);
    let b = dec_seq(v.minor as nat);
    let d = dec_seq(v.patch as nat);
    lemma_numeral_without(v.major as nat, '.');
    lemma_numeral_without(v.minor as nat, '.');
    lemma_numeral_without(v.patch as nat, '.');
    parts_end_at_separators(a, '.', b + seq!['.'] + d);
    parts_end_at_separators(b, '.', d);
    parts_end_at_separators(d, '.', Seq::empty());
    numbers_are_read_back(v.major, Seq::empty());
    numbers_are_read_back(v.minor, Seq::empty());
    numbers_are_read_back(v.patch, Seq::empty());
    assert(split_seq(s, '.') =~= seq![a, b, d]);
}

/// A proxy is talked to exactly if it is of release 0.4.4 or a later one; what it
/// reported is kept for the user to see.
pub proof fn proxies_must_be_new_enough(v: SemVer)
    ensures
        judge_version(release_chars(v)) == (if v.major > 0 || v.minor > 4 || (v.minor == 4
            && v.patch >= 4) {
            CompatView::Supported { version: release_chars(v) }
        } else {
            CompatView::TooOld { version: release_chars(v) }
        }),
{
    releases_are_read_back(v, Seq::empty());
    let s = release_chars(v);
    let a = dec_seq(v.major as nat);
    let d = dec_seq(v.patch as nat);
    lemma_dec_seq(v.major as nat);
    lemma_dec_seq(v.patch as nat);
    let n = d.len() - 1;
    assert(crate::digits::is_dec_digit(a[0]) && crate::digits::is_dec_digit(d[n]));
    assert(s[0] == a[0] && s.last() == d[n]);
    lemma_trimmed(s);
}

/// A proxy whose answer is no release is of unknown version.
pub proof fn unreadable_versions_are_unknown(reported: Seq<char>)
    requires
        sem_ver(reported) is None,
    ensures
        judge_version(reported) == (CompatView::Unknown {
            reason: "invalid version string '"@ + reported + "'"@,
        }),
{
}

/// What the user is told of a backend begins with its name and address, and shows
/// the version that it reported or why it reported none; one that is not talked to is
/// told the release that it needs.
pub proof fn messages_name_backend_and_version(
    backend: Seq<char>,
    addr: Seq<char>,
    version: Seq<char>,
)
    ensures
        ({
            let who = "backend '"@ + backend + "' ("@ + addr;
            let ok = compat_message(CompatView::Supported { version }, backend, addr);
            let old = compat_message(CompatView::TooOld { version }, backend, addr);
            let unknown = compat_message(CompatView::Unknown { reason: version }, backend, addr);
            &&& has_prefix(ok, who + ") adb-proxy "@ + version)
            &&& has_prefix(
                old,
                who + ") runs adb-proxy "@ + version
                    + ", but this hub requires adb-proxy >= "@ + "0.4.4"@,
            )
            &&& has_prefix(
                unknown,
                who + ") did not report a version ("@ + version
                    + "). This hub requires adb-proxy >= "@ + "0.4.4"@,
            )
        }),
{
    let who = "backend '"@ + backend + "' ("@ + addr;
    let a = who + ") adb-proxy "@ + version;
    let b = who + ") runs adb-proxy "@ + version + ", but this hub requires adb-proxy >= "@
        + "0.4.4"@;
    let c = who + ") did not report a version ("@ + version
        + "). This hub requires adb-proxy >= "@ + "0.4.4"@;
    assert(compat_message(CompatView::Supported { version }, backend, addr).take(a.len() as int)
        =~= a);
    assert(compat_message(CompatView::TooOld { version }, backend, addr).take(b.len() as int)
        =~= b);
    assert(compat_message(CompatView::Unknown { reason: version }, backend, addr).take(
        c.len() as int,
    ) =~= c);
}

} // verus!
