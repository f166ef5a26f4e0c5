//! Which devices a proxy or a hub offers.

use vstd::prelude::*;
use vstd::string::*;

use crate::registry::device_fields;
use crate::text::{
    has_prefix, is_white_space, is_word, lemma_first_word, lemma_lex, lemma_lines_append,
    lemma_lines_hold_no_break, lemma_trim, lemma_trim_without_cr, lemma_trimmed, lemma_word_alone,
    lex_before, lex_lt, lines, lines_seq, split_whitespace, starts_with, str_eq, strip_prefix,
    trim, trim_seq, views, whole_lines, without_cr, words_seq,
};

verus! {

/// Policy for one device.
#[derive(Debug)]
pub struct DevicePolicyEntry {
    pub serial: String,
    pub enabled: bool,
}

/// Whether a device without an `enabled` field is enabled.
pub fn default_true() -> (r: bool)
    ensures
        r,
{
    true
}

impl Clone for DevicePolicyEntry {
    fn clone(&self) -> (r: Self)
        ensures
            r == *self,
    {
        DevicePolicyEntry { serial: self.serial.clone(), enabled: self.enabled }
    }
}

/// The policy that a list of entries stands for; later entries win.
pub open spec fn policy_map(entries: Seq<DevicePolicyEntry>) -> Map<Seq<char>, bool>
    decreases entries.len(),
{
    if entries.len() == 0 {
        Map::empty()
    } else {
        policy_map(entries.drop_last()).insert(entries.last().serial@, entries.last().enabled)
    }
}

/// Whether a policy enables `serial`: what it does not name is enabled.
pub open spec fn enabled_by(policy: Map<Seq<char>, bool>, serial: Seq<char>) -> bool {
    if policy.contains_key(serial) {
        policy[serial]
    } else {
        true
    }
}

/// The devices that a policy disables.
pub open spec fn disabled_set(policy: Map<Seq<char>, bool>) -> Set<Seq<char>> {
    Set::new(|k: Seq<char>| !enabled_by(policy, k))
}

/// No two entries name the same device.
spec fn distinct_serials(entries: Seq<DevicePolicyEntry>) -> bool {
    forall|i: int, j: int|
        0 <= i < j < entries.len() ==> #[trigger] entries[i].serial@ != #[trigger] entries[j].serial@
}

/// A policy names exactly the devices that its entries name.
proof fn lemma_policy_keys(entries: Seq<DevicePolicyEntry>, k: Seq<char>)
    ensures
        policy_map(entries).contains_key(k) <==> exists|i: int|
            0 <= i < entries.len() && #[trigger] entries[i].serial@ == k,
    decreases entries.len(),
{
    if entries.len() > 0 {
        let rest = entries.drop_last();
        lemma_policy_keys(rest, k);
        if policy_map(entries).contains_key(k) {
            if entries.last().serial@ == k {
                assert(entries[entries.len() - 1].serial@ == k);
            } else {
                let i = choose|i: int| 0 <= i < rest.len() && #[trigger] rest[i].serial@ == k;
                assert(entries[i].serial@ == k);
            }
        }
        if exists|i: int| 0 <= i < entries.len() && #[trigger] entries[i].serial@ == k {
            let i = choose|i: int| 0 <= i < entries.len() && #[trigger] entries[i].serial@ == k;
            if i < entries.len() - 1 {
                assert(rest[i].serial@ == k);
            }
        }
    }
}

/// With distinct devices a policy says of each what its entry says.
proof fn lemma_policy_values(entries: Seq<DevicePolicyEntry>, i: int)
    requires
        distinct_serials(entries),
        0 <= i < entries.len(),
    ensures
        policy_map(entries).contains_key(entries[i].serial@),
        policy_map(entries)[entries[i].serial@] == entries[i].enabled,
    decreases entries.len(),
{
    if i < entries.len() - 1 {
        let rest = entries.drop_last();
        assert(distinct_serials(rest)) by {
            assert forall|a: int, b: int| 0 <= a < b < rest.len() implies #[trigger] rest[a].serial@
                != #[trigger] rest[b].serial@ by {
                assert(entries[a].serial@ != entries[b].serial@);
            }
        }
        lemma_policy_values(rest, i);
        assert(entries[i].serial@ != entries[entries.len() - 1].serial@);
    }
}

/// Lookup table from serial to enabled. What it does not name is enabled.
#[derive(Debug)]
pub struct DevicePolicyTable {
    entries: Vec<DevicePolicyEntry>,
}

impl View for DevicePolicyTable {
    type V = Map<Seq<char>, bool>;

    closed spec fn view(&self) -> Map<Seq<char>, bool> {
        policy_map(self.entries@)
    }
}

impl Default for DevicePolicyTable {
    fn default() -> (r: Self)
        ensures
            r@ == Map::<Seq<char>, bool>::empty(),
    {
        DevicePolicyTable { entries: Vec::new() }
    }
}

impl Clone for DevicePolicyTable {
    fn clone(&self) -> (r: Self)
        ensures
            r@ == self@,
    {
        proof {
            use_type_invariant(self);
        }
        let mut entries: Vec<DevicePolicyEntry> = Vec::new();
        let mut i: usize = 0;
        while i < self.entries.len()
            invariant
                i <= self.entries@.len(),
                entries@ == self.entries@.take(i as int),
            decreases self.entries@.len() - i,
        {
            entries.push(self.entries[i].clone());
            assert(entries@ =~= self.entries@.take(i + 1));
            i += 1;
        }
        assert(entries@ =~= self.entries@);
        DevicePolicyTable { entries }
    }
}

/// The entries for other devices than `serial`.
fn without_serial(entries: Vec<DevicePolicyEntry>, serial: &str) -> (r: Vec<DevicePolicyEntry>)
    requires
        distinct_serials(entries@),
    ensures
        distinct_serials(r@),
        policy_map(r@) == policy_map(entries@).remove(serial@),
        forall|i: int| 0 <= i < r@.len() ==> #[trigger] r@[i].serial@ != serial@,
{
    let mut r: Vec<DevicePolicyEntry> = Vec::new();
    let mut i: usize = 0;
    assert(policy_map(r@) =~= policy_map(entries@.take(0)).remove(serial@));
    while i < entries.len()
        invariant
            i <= entries@.len(),
            distinct_serials(entries@),
            distinct_serials(r@),
            policy_map(r@) == policy_map(entries@.take(i as int)).remove(serial@),
            forall|j: int| 0 <= j < r@.len() ==> #[trigger] r@[j].serial@ != serial@,
            forall|j: int|
                0 <= j < r@.len() ==> exists|k: int|
                    0 <= k < i && #[trigger] entries@[k].serial@ == (#[trigger] r@[j]).serial@,
        decreases entries@.len() - i,
    {
        let ghost prefix = entries@.take(i + 1);
        assert(prefix.drop_last() =~= entries@.take(i as int));
        assert(prefix.last() == entries@[i as int]);
        if !str_eq(entries[i].serial.as_str(), serial) {
            let ghost before = r@;
            r.push(entries[i].clone());
            proof {
                assert(r@.drop_last() =~= before);
                assert(policy_map(r@) =~= policy_map(prefix).remove(serial@));
                assert forall|a: int, b: int| 0 <= a < b < r@.len() implies #[trigger] r@[a].serial@
                    != #[trigger] r@[b].serial@ by {
                    if b == r@.len() - 1 {
                        assert(before[a] == r@[a]);
                        let k = choose|k: int|
                            0 <= k < i && #[trigger] entries@[k].serial@ == before[a].serial@;
                        assert(entries@[k].serial@ != entries@[i as int].serial@);
                    } else {
                        assert(before[a].serial@ != before[b].serial@);
                    }
                }
                assert forall|j: int| 0 <= j < r@.len() implies exists|k: int|
                    0 <= k < i + 1 && #[trigger] entries@[k].serial@ == (#[trigger] r@[j]).serial@ by {
                    if j == r@.len() - 1 {
                        assert(entries@[i as int].serial@ == r@[j].serial@);
                    } else {
                        let k = choose|k: int|
                            0 <= k < i && #[trigger] entries@[k].serial@ == before[j].serial@;
                        assert(entries@[k].serial@ == r@[j].serial@);
                    }
                }
            }
        } else {
            assert(policy_map(r@) =~= policy_map(prefix).remove(serial@));
        }
        i += 1;
    }
    assert(entries@.take(i as int) =~= entries@);
    r
}

impl DevicePolicyTable {
    #[verifier::type_invariant]
    spec fn inv(&self) -> bool {
        distinct_serials(self.entries@)
    }

    /// The entries as a table; of two entries for one device the later wins.
    pub fn from_entries(entries: Vec<DevicePolicyEntry>) -> (table: Self)
        ensures
            table@ == policy_map(entries@),
    {
        let mut list: Vec<DevicePolicyEntry> = Vec::new();
        let mut i: usize = 0;
        assert(policy_map(list@) =~= policy_map(entries@.take(0)));
        while i < entries.len()
            invariant
                i <= entries@.len(),
                distinct_serials(list@),
                policy_map(list@) == policy_map(entries@.take(i as int)),
            decreases entries@.len() - i,
        {
            let ghost before = policy_map(list@);
            list = without_serial(list, entries[i].serial.as_str());
            let ghost kept = list@;
            list.push(entries[i].clone());
            proof {
                let prefix = entries@.take(i + 1);
                assert(prefix.drop_last() =~= entries@.take(i as int));
                assert(list@.drop_last() =~= kept);
                assert(policy_map(list@) =~= policy_map(prefix));
            }
            i += 1;
        }
        assert(entries@.take(i as int) =~= entries@);
        DevicePolicyTable { entries: list }
    }

    /// Whether the device is enabled; what the table does not name is.
    pub fn is_enabled(&self, serial: &str) -> (r: bool)
        ensures
            r == enabled_by(self@, serial@),
    {
        proof {
            use_type_invariant(self);
        }
        let mut i: usize = 0;
        while i < self.entries.len()
            invariant
                i <= self.entries@.len(),
                distinct_serials(self.entries@),
                forall|j: int| 0 <= j < i ==> #[trigger] self.entries@[j].serial@ != serial@,
            decreases self.entries@.len() - i,
        {
            if str_eq(self.entries[i].serial.as_str(), serial) {
                proof {
                    lemma_policy_values(self.entries@, i as int);
                }
                return self.entries[i].enabled;
            }
            i += 1;
        }
        proof {
            lemma_policy_keys(self.entries@, serial@);
        }
        true
    }

    /// Enabling drops what the table says of the device; disabling stores it.
    pub fn set_enabled(&mut self, serial: &str, enabled: bool)
        ensures
            final(self)@ == (if enabled {
                old(self)@.remove(serial@)
            } else {
                old(self)@.insert(serial@, false)
            }),
    {
        proof {
            use_type_invariant(&*self);
        }
        let mut entries: Vec<DevicePolicyEntry> = Vec::new();
        std::mem::swap(&mut entries, &mut self.entries);
        let mut kept = without_serial(entries, serial);
        if !enabled {
            let ghost before = kept@;
            kept.push(DevicePolicyEntry { serial: serial.to_owned(), enabled: false });
            proof {
                assert(kept@.drop_last() =~= before);
                assert(policy_map(kept@) =~= policy_map(entries@).insert(serial@, false));
            }
        }
        self.entries = kept;
    }

    /// The entries to keep on disk: only the disabled devices, by serial.
    pub fn to_disabled_entries(&self) -> (r: Vec<DevicePolicyEntry>)
        ensures
            all_disabled(r@),
            by_serial(r@),
            named(r@) == disabled_set(self@),
    {
        proof {
            use_type_invariant(self);
        }
        let mut r: Vec<DevicePolicyEntry> = Vec::new();
        let mut i: usize = 0;
        assert(named(r@) =~= disabled_in(self.entries@.take(0)));
        while i < self.entries.len()
            invariant
                i <= self.entries@.len(),
                distinct_serials(self.entries@),
                all_disabled(r@),
                by_serial(r@),
                named(r@) == disabled_in(self.entries@.take(i as int)),
            decreases self.entries@.len() - i,
        {
            let ghost prefix = self.entries@.take(i as int);
            let ghost next = self.entries@.take(i + 1);
            assert(next.drop_last() =~= prefix);
            assert(next.last() == self.entries@[i as int]);
            if !self.entries[i].enabled {
                let ghost before = r@;
                let at: usize = place_for(&r, self.entries[i].serial.as_str());
                let entry = self.entries[i].clone();
                r.insert(at, entry);
                proof {
                    lemma_disabled_in(prefix, entry.serial@);
                    assert(!named(before).contains(entry.serial@)) by {
                        if named(before).contains(entry.serial@) {
                            let m = choose|m: int|
                                0 <= m < prefix.len() && #[trigger] prefix[m].serial@
                                    == entry.serial@;
                            assert(self.entries@[m].serial@ != self.entries@[i as int].serial@);
                        }
                    }
                    lemma_insert(before, at as int, entry);
                }
            }
            i += 1;
        }
        proof {
            assert(self.entries@.take(i as int) =~= self.entries@);
            assert forall|k: Seq<char>| named(r@).contains(k) <==> disabled_set(self@).contains(
                k,
            ) by {
                lemma_disabled_is(self.entries@, k);
            }
            assert(named(r@) =~= disabled_set(self@));
        }
        r
    }

    /// What the table says, each device once.
    pub fn explicit_serials(&self) -> (r: Vec<(String, bool)>)
        ensures
            forall|i: int, j: int|
                0 <= i < j < r@.len() ==> (#[trigger] r@[i]).0@ != (#[trigger] r@[j]).0@,
            forall|i: int|
                0 <= i < r@.len() ==> self@.contains_key((#[trigger] r@[i]).0@) && self@[r@[i].0@]
                    == r@[i].1,
            forall|k: Seq<char>|
                self@.contains_key(k) ==> exists|i: int|
                    0 <= i < r@.len() && (#[trigger] r@[i]).0@ == k,
    {
        proof {
            use_type_invariant(self);
        }
        let mut r: Vec<(String, bool)> = Vec::new();
        let mut i: usize = 0;
        while i < self.entries.len()
            invariant
                i <= self.entries@.len(),
                r@.len() == i,
                forall|j: int|
                    0 <= j < i ==> (#[trigger] r@[j]).0 == self.entries@[j].serial && r@[j].1
                        == self.entries@[j].enabled,
            decreases self.entries@.len() - i,
        {
            r.push((self.entries[i].serial.clone(), self.entries[i].enabled));
            i += 1;
        }
        proof {
            let all = self.entries@;
            assert forall|i: int, j: int| 0 <= i < j < r@.len() implies (#[trigger] r@[i]).0@ != (
            #[trigger] r@[j]).0@ by {
                assert(all[i].serial@ != all[j].serial@);
            }
            assert forall|i: int| 0 <= i < r@.len() implies self@.contains_key((#[trigger] r@[i]).0@)
                && self@[r@[i].0@] == r@[i].1 by {
                lemma_policy_values(all, i);
            }
            assert forall|k: Seq<char>| self@.contains_key(k) implies exists|i: int|
                0 <= i < r@.len() && (#[trigger] r@[i]).0@ == k by {
                lemma_policy_keys(all, k);
                let m = choose|m: int| 0 <= m < all.len() && #[trigger] all[m].serial@ == k;
                assert(r@[m].0@ == k);
            }
        }
        r
    }
}

/// Every entry disables its device.
pub open spec fn all_disabled(r: Seq<DevicePolicyEntry>) -> bool {
    forall|i: int| 0 <= i < r.len() ==> !(#[trigger] r[i]).enabled
}

/// The entries are strictly ordered by serial.
pub open spec fn by_serial(r: Seq<DevicePolicyEntry>) -> bool {
    forall|i: int, j: int|
        0 <= i < j < r.len() ==> lex_lt((#[trigger] r[i]).serial@, (#[trigger] r[j]).serial@)
}

/// The devices that the entries name.
pub open spec fn named(r: Seq<DevicePolicyEntry>) -> Set<Seq<char>> {
    Set::new(|k: Seq<char>| exists|i: int| 0 <= i < r.len() && #[trigger] r[i].serial@ == k)
}

/// The devices that some entry disables.
spec fn disabled_in(all: Seq<DevicePolicyEntry>) -> Set<Seq<char>>
    decreases all.len(),
{
    if all.len() == 0 {
        Set::empty()
    } else if !all.last().enabled {
        disabled_in(all.drop_last()).insert(all.last().serial@)
    } else {
        disabled_in(all.drop_last())
    }
}

proof fn lemma_disabled_in(all: Seq<DevicePolicyEntry>, k: Seq<char>)
    ensures
        disabled_in(all).contains(k) ==> exists|m: int|
            0 <= m < all.len() && #[trigger] all[m].serial@ == k,
    decreases all.len(),
{
    if all.len() > 0 {
        let rest = all.drop_last();
        lemma_disabled_in(rest, k);
        if disabled_in(all).contains(k) {
            if all.last().serial@ == k {
                assert(all[all.len() - 1].serial@ == k);
            } else {
                let m = choose|m: int| 0 <= m < rest.len() && #[trigger] rest[m].serial@ == k;
                assert(all[m].serial@ == k);
            }
        }
    }
}

proof fn lemma_disabled_is(all: Seq<DevicePolicyEntry>, k: Seq<char>)
    requires
        distinct_serials(all),
    ensures
        disabled_in(all).contains(k) <==> !enabled_by(policy_map(all), k),
    decreases all.len(),
{
    if all.len() > 0 {
        let rest = all.drop_last();
        assert(distinct_serials(rest)) by {
            assert forall|a: int, b: int| 0 <= a < b < rest.len() implies #[trigger] rest[a].serial@
                != #[trigger] rest[b].serial@ by {
                assert(all[a].serial@ != all[b].serial@);
            }
        }
        lemma_disabled_is(rest, k);
        if all.last().serial@ == k && disabled_in(rest).contains(k) {
            lemma_disabled_in(rest, k);
            let m = choose|m: int| 0 <= m < rest.len() && #[trigger] rest[m].serial@ == k;
            assert(all[m].serial@ != all[all.len() - 1].serial@);
        }
    }
}

proof fn lemma_insert(r: Seq<DevicePolicyEntry>, at: int, e: DevicePolicyEntry)
    requires
        all_disabled(r),
        by_serial(r),
        !e.enabled,
        !named(r).contains(e.serial@),
        0 <= at <= r.len(),
        forall|i: int| 0 <= i < at ==> lex_lt((#[trigger] r[i]).serial@, e.serial@),
        forall|i: int| at <= i < r.len() ==> !lex_lt((#[trigger] r[i]).serial@, e.serial@),
    ensures
        all_disabled(r.insert(at, e)),
        by_serial(r.insert(at, e)),
        named(r.insert(at, e)) == named(r).insert(e.serial@),
{
    let q = r.insert(at, e);
    assert(all_disabled(q)) by {
        assert forall|i: int| 0 <= i < q.len() implies !(#[trigger] q[i]).enabled by {
            if i < at {
                assert(q[i] == r[i]);
            } else if i > at {
                assert(q[i] == r[i - 1]);
            }
        }
    }
    assert(by_serial(q)) by {
        assert forall|i: int| at <= i < r.len() implies lex_lt(e.serial@, (#[trigger] r[i]).serial@) by {
            assert(named(r).contains(r[i].serial@));
            lemma_lex(r[i].serial@, e.serial@, e.serial@);
        }
        assert forall|i: int, j: int| 0 <= i < j < q.len() implies lex_lt(
            (#[trigger] q[i]).serial@,
            (#[trigger] q[j]).serial@,
        ) by {
            let a = if i < at {
                i
            } else {
                i - 1
            };
            let b = if j < at {
                j
            } else {
                j - 1
            };
            if i == at {
                assert(q[j] == r[b]);
            } else if j == at {
                assert(q[i] == r[a]);
            } else {
                assert(q[i] == r[a] && q[j] == r[b]);
            }
        }
    }
    assert forall|k: Seq<char>| named(q).contains(k) <==> named(r).insert(e.serial@).contains(k) by {
        if named(q).contains(k) {
            let i = choose|i: int| 0 <= i < q.len() && #[trigger] q[i].serial@ == k;
            if i < at {
                assert(r[i].serial@ == k);
            } else if i > at {
                assert(r[i - 1].serial@ == k);
            }
        }
        if k == e.serial@ {
            assert(q[at].serial@ == k);
        } else if named(r).contains(k) {
            let i = choose|i: int| 0 <= i < r.len() && #[trigger] r[i].serial@ == k;
            if i < at {
                assert(q[i].serial@ == k);
            } else {
                assert(q[i + 1].serial@ == k);
            }
        }
    }
    assert(named(q) =~= named(r).insert(e.serial@));
}

/// Position of `serial` in entries that are ordered by serial.
fn place_for(r: &Vec<DevicePolicyEntry>, serial: &str) -> (at: usize)
    requires
        by_serial(r@),
    ensures
        at <= r@.len(),
        forall|i: int| 0 <= i < at ==> lex_lt((#[trigger] r@[i]).serial@, serial@),
        forall|i: int| at <= i < r@.len() ==> !lex_lt((#[trigger] r@[i]).serial@, serial@),
{
    let mut at: usize = 0;
    while at < r.len() && lex_before(r[at].serial.as_str(), serial)
        invariant
            at <= r@.len(),
            forall|i: int| 0 <= i < at ==> lex_lt((#[trigger] r@[i]).serial@, serial@),
        decreases r@.len() - at,
    {
        at += 1;
    }
    proof {
        assert forall|i: int| at <= i < r@.len() implies !lex_lt((#[trigger] r@[i]).serial@, serial@) by {
            if i > at {
                assert(lex_lt(r@[at as int].serial@, r@[i].serial@));
                lemma_lex(r@[at as int].serial@, r@[i].serial@, serial@);
            }
        }
    }
    at
}

/// Lines of a device list that name no device and are always kept.
pub open spec fn is_banner(t: Seq<char>) -> bool {
    (t.len() > 0 && t[0] == '*') || has_prefix(t, "List of"@)
}

/// Whether a line of a device list stays where `keep` says which devices do.
pub open spec fn keeps_line(line: Seq<char>, keep: spec_fn(Seq<char>) -> bool) -> bool {
    let t = trim_seq(line);
    t.len() > 0 && (is_banner(t) || keep(words_seq(t)[0]))
}

/// The word of a line that decides whether it stays: the first one, unless the
/// line is blank or a banner.
pub open spec fn deciding_word(line: Seq<char>) -> Option<Seq<char>> {
    let t = trim_seq(line);
    if t.len() == 0 || is_banner(t) {
        None
    } else {
        Some(words_seq(t)[0])
    }
}

/// Whether a line of a device list is decided by `word`.
pub open spec fn is_deciding(raw: Seq<char>, word: Seq<char>) -> bool {
    exists|i: int|
        0 <= i < lines_seq(raw).len() && deciding_word(#[trigger] lines_seq(raw)[i]) == Some(word)
}

/// The lines that stay, each with a line ending.
pub open spec fn filter_lines(all: Seq<Seq<char>>, keep: spec_fn(Seq<char>) -> bool) -> Seq<char>
    decreases all.len(),
{
    if all.len() == 0 {
        Seq::empty()
    } else if keeps_line(all.last(), keep) {
        filter_lines(all.drop_last(), keep) + all.last().push('\n')
    } else {
        filter_lines(all.drop_last(), keep)
    }
}

/// Whether `f` decides as `keep` does.
pub open spec fn decides<F: Fn(&str) -> bool>(f: F, keep: spec_fn(Seq<char>) -> bool) -> bool {
    forall|s: &str, b: bool| #[trigger] call_ensures(f, (s,), b) ==> b == keep(s@)
}

/// Whether a trimmed line names no device and is always kept.
pub fn banner(t: &str) -> (r: bool)
    ensures
        r == is_banner(t@),
{
    proof {
        reveal_strlit("*");
        let star = "*"@;
        assert(star =~= seq!['*']);
        if t@.len() > 0 && t@[0] == '*' {
            assert(t@.take(1) =~= star);
        }
        if has_prefix(t@, star) {
            assert(t@.take(1)[0] == t@[0]);
        }
    }
    starts_with(t, "*") || starts_with(t, "List of")
}

/// Drops from the body of `host:devices` or `host:devices-l` the devices
/// that are not enabled. `is_enabled` is asked about the first word of each line
/// that is neither blank nor a banner, and about nothing else.
pub fn filter_devices_body<F: Fn(&str) -> bool>(raw: &str, is_enabled: F) -> (out: String)
    requires
        forall|s: &str| is_deciding(raw@, s@) ==> #[trigger] call_requires(is_enabled, (s,)),
    ensures
        forall|keep: spec_fn(Seq<char>) -> bool|
            #[trigger] decides(is_enabled, keep) ==> out@ == filter_lines(lines_seq(raw@), keep),
{
    let all = lines(raw);
    let ghost model = lines_seq(raw@);
    let mut out = String::new();
    let mut i: usize = 0;
    while i < all.len()
        invariant
            i <= all@.len(),
            model == views(all@),
            model == lines_seq(raw@),
            forall|s: &str| is_deciding(raw@, s@) ==> #[trigger] call_requires(is_enabled, (s,)),
            forall|keep: spec_fn(Seq<char>) -> bool|
                #[trigger] decides(is_enabled, keep) ==> out@ == filter_lines(
                    model.take(i as int),
                    keep,
                ),
        decreases all@.len() - i,
    {
        let line = all[i].as_str();
        let trimmed = trim(line);
        let ghost next = model.take(i + 1);
        let ghost before = out@;
        proof {
            assert(next.drop_last() =~= model.take(i as int));
            assert(next.last() == line@);
            lemma_trim(line@);
        }
        let mut stays = false;
        if !trimmed.is_empty() {
            if banner(trimmed) {
                stays = true;
            } else {
                proof {
                    lemma_first_word(trimmed@);
                }
                let words = split_whitespace(trimmed);
                assert(views(words@)[0] == words@[0]@);
                assert(deciding_word(lines_seq(raw@)[i as int]) == Some(words@[0]@));
                stays = is_enabled(words[0].as_str());
            }
        }
        assert forall|keep: spec_fn(Seq<char>) -> bool| #[trigger] decides(is_enabled, keep)
            implies stays == keeps_line(line@, keep) by {}
        if stays {
            out.append(line);
            out.push('\n');
            assert(out@ =~= before + line@.push('\n'));
        }
        i += 1;
    }
    assert(model.take(i as int) =~= model);
    out
}

/// Drops from the body of `host:devices` or `host:devices-l` the devices
/// that the table disables.
pub fn filter_devices_by(raw: &str, table: &DevicePolicyTable) -> (out: String)
    ensures
        out@ == filter_lines(lines_seq(raw@), |s: Seq<char>| enabled_by(table@, s)),
{
    let is_enabled = |s: &str| -> (b: bool)
        ensures
            b == enabled_by(table@, s@),
        { table.is_enabled(s) };
    let ghost keep = |s: Seq<char>| enabled_by(table@, s);
    assert(decides(is_enabled, keep));
    filter_devices_body(raw, is_enabled)
}

/// The device that a transport request names, if it names one.
pub open spec fn transport_target(service: Seq<char>) -> Option<Seq<char>> {
    if has_prefix(service, "host:transport:"@) {
        let s = service.skip("host:transport:"@.len() as int);
        if s == "any"@ || s == "usb"@ || s == "local"@ {
            None
        } else {
            Some(s)
        }
    } else if has_prefix(service, "host:tport:serial:"@) {
        Some(service.skip("host:tport:serial:"@.len() as int))
    } else {
        None
    }
}

/// The device that a transport request names, if it names one.
pub fn transport_serial(service: &str) -> (r: Option<&str>)
    ensures
        match r {
            Some(s) => transport_target(service@) == Some(s@),
            None => transport_target(service@) is None,
        },
{
    if let Some(s) = strip_prefix(service, "host:transport:") {
        if str_eq(s, "any") || str_eq(s, "usb") || str_eq(s, "local") {
            return None;
        }
        return Some(s);
    }
    if let Some(s) = strip_prefix(service, "host:tport:serial:") {
        return Some(s);
    }
    None
}

/// Setting a device is seen by the next lookup of it and by no other lookup.
pub proof fn setting_is_read_back(
    policy: Map<Seq<char>, bool>,
    serial: Seq<char>,
    enabled: bool,
    other: Seq<char>,
)
    ensures
        ({
            let after = if enabled {
                policy.remove(serial)
            } else {
                policy.insert(serial, false)
            };
            &&& enabled_by(after, serial) == enabled
            &&& other != serial ==> enabled_by(after, other) == enabled_by(policy, other)
        }),
{
}

/// A policy that is written as its disabled devices and read back enables
/// exactly the devices that it enabled before.
pub proof fn disabled_entries_round_trip(
    policy: Map<Seq<char>, bool>,
    written: Seq<DevicePolicyEntry>,
    serial: Seq<char>,
)
    requires
        all_disabled(written),
        named(written) == disabled_set(policy),
    ensures
        enabled_by(policy_map(written), serial) == enabled_by(policy, serial),
{
    lemma_all_disabled(written, serial);
    assert(disabled_set(policy).contains(serial) <==> !enabled_by(policy, serial));
}

proof fn lemma_all_disabled(written: Seq<DevicePolicyEntry>, serial: Seq<char>)
    requires
        all_disabled(written),
    ensures
        enabled_by(policy_map(written), serial) <==> !named(written).contains(serial),
    decreases written.len(),
{
    if written.len() > 0 {
        let rest = written.drop_last();
        assert(all_disabled(rest)) by {
            assert forall|i: int| 0 <= i < rest.len() implies !(#[trigger] rest[i]).enabled by {
                assert(rest[i] == written[i]);
            }
        }
        lemma_all_disabled(rest, serial);
        assert(!written[written.len() - 1].enabled);
        if named(written).contains(serial) {
            let i = choose|i: int|
                0 <= i < written.len() && #[trigger] written[i].serial@ == serial;
            if i < rest.len() {
                assert(rest[i].serial@ == serial);
            }
        }
        if written.last().serial@ == serial {
            assert(written[written.len() - 1].serial@ == serial);
        } else if named(rest).contains(serial) {
            let i = choose|i: int| 0 <= i < rest.len() && #[trigger] rest[i].serial@ == serial;
            assert(written[i].serial@ == serial);
        }
    }
}

/// The lines that are kept, in order.
pub open spec fn kept_lines(all: Seq<Seq<char>>, keep: spec_fn(Seq<char>) -> bool) -> Seq<Seq<char>>
    decreases all.len(),
{
    if all.len() == 0 {
        Seq::empty()
    } else if keeps_line(all.last(), keep) {
        kept_lines(all.drop_last(), keep).push(without_cr(all.last()))
    } else {
        kept_lines(all.drop_last(), keep)
    }
}

proof fn lemma_filtered_lines(all: Seq<Seq<char>>, keep: spec_fn(Seq<char>) -> bool)
    requires
        forall|i: int| 0 <= i < all.len() ==> !(#[trigger] all[i]).contains('\n'),
    ensures
        whole_lines(filter_lines(all, keep)),
        lines_seq(filter_lines(all, keep)) == kept_lines(all, keep),
    decreases all.len(),
{
    if all.len() > 0 {
        let before = all.drop_last();
        assert forall|i: int| 0 <= i < before.len() implies !(#[trigger] before[i]).contains(
            '\n',
        ) by {
            assert(before[i] == all[i]);
        }
        lemma_filtered_lines(before, keep);
        if keeps_line(all.last(), keep) {
            assert(!all[all.len() - 1].contains('\n'));
            lemma_lines_append(filter_lines(before, keep), all.last());
        }
    } else {
        assert(lines_seq(filter_lines(all, keep)) =~= kept_lines(all, keep));
    }
}

proof fn lemma_kept(all: Seq<Seq<char>>, keep: spec_fn(Seq<char>) -> bool, i: int)
    requires
        0 <= i < kept_lines(all, keep).len(),
    ensures
        keeps_line(kept_lines(all, keep)[i], keep),
    decreases all.len(),
{
    let before = all.drop_last();
    if i < kept_lines(before, keep).len() {
        lemma_kept(before, keep, i);
    } else {
        lemma_trim_without_cr(all.last());
    }
}

/// A filtered list consists of the kept lines of the list, in order, and of
/// nothing else.
pub proof fn filtered_list_holds_the_kept_lines(
    raw: Seq<char>,
    keep: spec_fn(Seq<char>) -> bool,
    i: int,
)
    ensures
        lines_seq(filter_lines(lines_seq(raw), keep)) == kept_lines(lines_seq(raw), keep),
        0 <= i < kept_lines(lines_seq(raw), keep).len() ==> keeps_line(
            kept_lines(lines_seq(raw), keep)[i],
            keep,
        ),
{
    let all = lines_seq(raw);
    assert forall|j: int| 0 <= j < all.len() implies !(#[trigger] all[j]).contains('\n') by {
        lemma_lines_hold_no_break(raw, j);
    }
    lemma_filtered_lines(all, keep);
    if 0 <= i < kept_lines(all, keep).len() {
        lemma_kept(all, keep, i);
    }
}

/// Lists are filtered line by line: each line stays or goes for itself, and the
/// ones that stay keep their order.
pub proof fn lists_are_filtered_line_by_line(
    s: Seq<Seq<char>>,
    t: Seq<Seq<char>>,
    keep: spec_fn(Seq<char>) -> bool,
)
    ensures
        filter_lines(Seq::empty(), keep) == Seq::<char>::empty(),
        filter_lines(s + t, keep) == filter_lines(s, keep) + filter_lines(t, keep),
    decreases t.len(),
{
    if t.len() == 0 {
        assert(s + t =~= s);
        assert(filter_lines(s + t, keep) =~= filter_lines(s, keep) + filter_lines(t, keep));
    } else {
        lists_are_filtered_line_by_line(s, t.drop_last(), keep);
        assert((s + t).drop_last() =~= s + t.drop_last());
        assert(filter_lines(s + t, keep) =~= filter_lines(s, keep) + filter_lines(t, keep));
    }
}

proof fn lemma_one_line(line: Seq<char>, keep: spec_fn(Seq<char>) -> bool)
    ensures
        filter_lines(seq![line], keep) == (if keeps_line(line, keep) {
            line.push('\n')
        } else {
            Seq::empty()
        }),
{
    assert(seq![line].drop_last() =~= Seq::<Seq<char>>::empty());
    assert(filter_lines(seq![line].drop_last(), keep) =~= Seq::<char>::empty());
    assert(filter_lines(seq![line], keep) =~= if keeps_line(line, keep) {
        line.push('\n')
    } else {
        Seq::empty()
    });
}

/// The line of a device stays exactly when its serial is to be kept, whatever its
/// state and its extra columns are. A line of one word is decided by that word,
/// blank lines go, and banners stay.
pub proof fn only_the_serial_decides(line: Seq<char>, keep: spec_fn(Seq<char>) -> bool)
    ensures
        device_fields(line) matches Some(f) ==> filter_lines(seq![line], keep) == (if keep(f.0) {
            line + seq!['\n']
        } else {
            Seq::empty()
        }),
        is_word(line) && line[0] != '*' ==> filter_lines(seq![line], keep) == (if keep(line) {
            line + seq!['\n']
        } else {
            Seq::empty()
        }),
        trim_seq(line).len() == 0 ==> filter_lines(seq![line], keep) == Seq::<char>::empty(),
        trim_seq(line).len() > 0 && (trim_seq(line)[0] == '*' || has_prefix(
            trim_seq(line),
            "List of"@,
        )) ==> filter_lines(seq![line], keep) == line + seq!['\n'],
{
    lemma_one_line(line, keep);
    assert(line.push('\n') =~= line + seq!['\n']);
    if is_word(line) && line[0] != '*' {
        lemma_word_alone(line);
        let n = line.len() - 1;
        assert(!is_white_space(line[0]) && !is_white_space(line[n]));
        lemma_trimmed(line);
        reveal_strlit("List of");
        let p = "List of"@;
        if has_prefix(line, p) {
            assert(line.take(p.len() as int)[4] == line[4]);
            assert(!is_white_space(line[4]));
        }
    }
}

/// Every device that is to be kept is still listed, with its whole line.
pub proof fn kept_devices_stay_listed(raw: Seq<char>, keep: spec_fn(Seq<char>) -> bool, i: int)
    requires
        0 <= i < lines_seq(raw).len(),
        device_fields(lines_seq(raw)[i]) matches Some(f) && keep(f.0),
    ensures
        lines_seq(filter_lines(lines_seq(raw), keep)).contains(without_cr(lines_seq(raw)[i])),
        device_fields(without_cr(lines_seq(raw)[i])) == device_fields(lines_seq(raw)[i]),
{
    let all = lines_seq(raw);
    filtered_list_holds_the_kept_lines(raw, keep, 0);
    lemma_trim_without_cr(all[i]);
    lemma_kept_line(all, keep, i);
}

proof fn lemma_kept_line(all: Seq<Seq<char>>, keep: spec_fn(Seq<char>) -> bool, i: int)
    requires
        0 <= i < all.len(),
        keeps_line(all[i], keep),
    ensures
        kept_lines(all, keep).contains(without_cr(all[i])),
    decreases all.len(),
{
    let kept = kept_lines(all, keep);
    let before = kept_lines(all.drop_last(), keep);
    if i == all.len() - 1 {
        assert(kept[kept.len() - 1] == without_cr(all[i]));
    } else {
        lemma_kept_line(all.drop_last(), keep, i);
        let k = choose|k: int| 0 <= k < before.len() && before[k] == without_cr(all[i]);
        assert(kept[k] == without_cr(all[i]));
    }
}

/// A policy that names no device drops nothing but blank lines.
pub proof fn nothing_is_dropped_without_a_policy(all: Seq<Seq<char>>)
    requires
        forall|i: int| 0 <= i < all.len() ==> trim_seq(#[trigger] all[i]).len() > 0,
    ensures
        filter_lines(all, |s: Seq<char>| enabled_by(Map::empty(), s)) == joined_lines(all),
    decreases all.len(),
{
    let keep = |s: Seq<char>| enabled_by(Map::empty(), s);
    if all.len() > 0 {
        let before = all.drop_last();
        assert forall|i: int| 0 <= i < before.len() implies trim_seq(
            #[trigger] before[i],
        ).len() > 0 by {
            assert(before[i] == all[i]);
        }
        nothing_is_dropped_without_a_policy(before);
        assert(trim_seq(all[all.len() - 1]).len() > 0);
        assert(keeps_line(all.last(), keep));
    }
}

/// Lines, each with its line break.
pub open spec fn joined_lines(all: Seq<Seq<char>>) -> Seq<char>
    decreases all.len(),
{
    if all.len() == 0 {
        Seq::empty()
    } else {
        joined_lines(all.drop_last()) + all.last().push('\n')
    }
}

/// A device is disabled exactly when the last entry that names it disables it; what
/// no entry names is enabled.
pub proof fn last_entry_counts(entries: Seq<DevicePolicyEntry>, i: int, serial: Seq<char>)
    ensures
        0 <= i < entries.len() && entries[i].serial@ == serial && (forall|j: int|
            i < j < entries.len() ==> (#[trigger] entries[j]).serial@ != serial) ==> enabled_by(
            policy_map(entries),
            serial,
        ) == entries[i].enabled,
        (forall|j: int| 0 <= j < entries.len() ==> (#[trigger] entries[j]).serial@ != serial)
            ==> enabled_by(policy_map(entries), serial),
    decreases entries.len(),
{
    if entries.len() > 0 {
        let n = entries.len() - 1;
        let rest = entries.drop_last();
        last_entry_counts(rest, i, serial);
        assert(entries[n] == entries.last());
        assert forall|j: int| 0 <= j < rest.len() implies #[trigger] rest[j] == entries[j] by {}
        if (forall|j: int| 0 <= j < entries.len() ==> (#[trigger] entries[j]).serial@ != serial) {
            assert(entries[n].serial@ != serial);
            assert forall|j: int| 0 <= j < rest.len() implies (#[trigger] rest[j]).serial@
                != serial by {
                assert(entries[j].serial@ != serial);
            }
        }
        if 0 <= i < n && entries[i].serial@ == serial && (forall|j: int|
            i < j < entries.len() ==> (#[trigger] entries[j]).serial@ != serial) {
            assert(entries[n].serial@ != serial);
            assert forall|j: int| i < j < rest.len() implies (#[trigger] rest[j]).serial@
                != serial by {
                assert(entries[j].serial@ != serial);
            }
        }
    }
}

/// A policy says of a device what it holds of it; what it does not name is enabled.
pub proof fn unnamed_devices_are_enabled(policy: Map<Seq<char>, bool>, serial: Seq<char>)
    ensures
        enabled_by(policy, serial) <==> (policy.contains_key(serial) ==> policy[serial]),
        disabled_set(policy).contains(serial) <==> policy.contains_key(serial) && !policy[serial],
{
}

/// The transport requests that name a device: `host:transport:` with a serial other
/// than the words for any device, and `host:tport:serial:` with any serial.
pub proof fn transport_requests_name_a_device(service: Seq<char>, serial: Seq<char>)
    ensures
        transport_target("host:tport:serial:"@ + serial) == Some(serial),
        serial != "any"@ && serial != "usb"@ && serial != "local"@ ==> transport_target(
            "host:transport:"@ + serial,
        ) == Some(serial),
        serial == "any"@ || serial == "usb"@ || serial == "local"@ ==> transport_target(
            "host:transport:"@ + serial,
        ) is None,
        !has_prefix(service, "host:transport:"@) && !has_prefix(service, "host:tport:serial:"@)
            ==> transport_target(service) is None,
{
    let p = "host:transport:"@;
    let q = "host:tport:serial:"@;
    assert((p + serial).take(p.len() as int) =~= p);
    assert((p + serial).skip(p.len() as int) =~= serial);
    assert((q + serial).take(q.len() as int) =~= q);
    assert((q + serial).skip(q.len() as int) =~= serial);
    reveal_strlit("host:transport:");
    reveal_strlit("host:tport:serial:");
    if has_prefix(q + serial, p) {
        assert((q + serial).take(p.len() as int)[6] == q[6]);
    }
}

/// Filtering by a table keeps the line of every device that the table does not
/// disable, in whatever state the device is.
pub proof fn tables_drop_only_what_they_disable(
    raw: &str,
    table: &DevicePolicyTable,
    out: String,
    i: int,
)
    requires
        call_ensures(filter_devices_by, (raw, table), out),
        0 <= i < lines_seq(raw@).len(),
    ensures
        device_fields(lines_seq(raw@)[i]) matches Some(f) ==> (!(table@.contains_key(f.0)
            && !table@[f.0]) ==> lines_seq(out@).contains(without_cr(lines_seq(raw@)[i]))),
{
    let keep = |s: Seq<char>| enabled_by(table@, s);
    if let Some(f) = device_fields(lines_seq(raw@)[i]) {
        if keep(f.0) {
            kept_devices_stay_listed(raw@, keep, i);
        }
    }
}

/// A device that was switched on or off is so from then on; no other is switched.
pub proof fn switched_devices_stay_so(
    t: &mut DevicePolicyTable,
    serial: &str,
    enabled: bool,
    other: Seq<char>,
)
    requires
        call_ensures(DevicePolicyTable::set_enabled, (t, serial, enabled), ()),
    ensures
        enabled_by(final(t)@, serial@) == enabled,
        other != serial@ ==> enabled_by(final(t)@, other) == enabled_by(old(t)@, other),
        other != serial@ ==> final(t)@.contains_key(other) == old(t)@.contains_key(other),
        final(t)@.contains_key(serial@) == !enabled,
{
}

} // verus!
