//! Character-level text operations and their mathematical models.
//!
//! Every string is modelled by its sequence of characters. The operations
//! here follow the conventions of the standard library: Unicode white space
//! for trimming and word splitting, `\n` and `\r\n` as line endings.

use vstd::prelude::*;
use vstd::string::*;

verus! {

/// `String::push` of the standard library appends one character.
pub assume_specification[ String::push ](s: &mut String, c: char)
    ensures
        final(s)@ == old(s)@.push(c),
;

/// Characters with the Unicode `White_Space` property.
pub open spec fn is_white_space(c: char) -> bool {
    let u = c as u32;
    ||| 0x9 <= u <= 0xd
    ||| u == 0x20
    ||| u == 0x85
    ||| u == 0xa0
    ||| u == 0x1680
    ||| 0x2000 <= u <= 0x200a
    ||| u == 0x2028
    ||| u == 0x2029
    ||| u == 0x202f
    ||| u == 0x205f
    ||| u == 0x3000
}

/// Whether `c` has the Unicode `White_Space` property.
pub fn white_space(c: char) -> (r: bool)
    ensures
        r == is_white_space(c),
{
    let u: u32 = c as u32;
    (0x9 <= u && u <= 0xd) || u == 0x20 || u == 0x85 || u == 0xa0 || u == 0x1680 || (0x2000 <= u
        && u <= 0x200a) || u == 0x2028 || u == 0x2029 || u == 0x202f || u == 0x205f || u == 0x3000
}

/// The characters of `s`, in order.
pub fn chars_of(s: &str) -> (cs: Vec<char>)
    ensures
        cs@ == s@,
{
    let mut cs: Vec<char> = Vec::new();
    for c in it: s.chars()
        invariant
            it.seq() == s@,
            cs@ == s@.take(it.index() as int),
    {
        cs.push(c);
    }
    cs
}

/// The text made of the characters `cs[from..to]`.
pub fn text_of(cs: &Vec<char>, from: usize, to: usize) -> (s: String)
    requires
        from <= to <= cs@.len(),
    ensures
        s@ == cs@.subrange(from as int, to as int),
{
    let mut s = String::new();
    let mut i: usize = from;
    while i < to
        invariant
            from <= i <= to <= cs@.len(),
            s@ == cs@.subrange(from as int, i as int),
        decreases to - i,
    {
        s.push(cs[i]);
        i += 1;
    }
    s
}


/// The characters of each of the strings `v`.
pub open spec fn views(v: Seq<String>) -> Seq<Seq<char>> {
    Seq::new(v.len(), |i: int| v[i]@)
}

/// Whether `s` starts with `p`.
pub open spec fn has_prefix(s: Seq<char>, p: Seq<char>) -> bool {
    p.len() <= s.len() && s.take(p.len() as int) == p
}

/// Whether two texts hold the same characters.
pub fn str_eq(a: &str, b: &str) -> (r: bool)
    ensures
        r == (a@ == b@),
{
    let x = a.as_bytes();
    let y = b.as_bytes();
    proof {
        vstd::utf8::encode_utf8_decode_utf8(a@);
        vstd::utf8::encode_utf8_decode_utf8(b@);
    }
    if x.len() != y.len() {
        return false;
    }
    let mut i: usize = 0;
    while i < x.len()
        invariant
            i <= x@.len(),
            x@.len() == y@.len(),
            x@.take(i as int) == y@.take(i as int),
            x@ == a.spec_bytes(),
            y@ == b.spec_bytes(),
        decreases x@.len() - i,
    {
        if x[i] != y[i] {
            assert(x@[i as int] != y@[i as int]);
            return false;
        }
        proof {
            assert(x@.take(i + 1) =~= x@.take(i as int).push(x@[i as int]));
            assert(y@.take(i + 1) =~= y@.take(i as int).push(y@[i as int]));
        }
        i += 1;
    }
    assert(x@.take(x@.len() as int) =~= x@);
    assert(y@.take(y@.len() as int) =~= y@);
    true
}

/// Whether `s` starts with `p`.
pub fn starts_with(s: &str, p: &str) -> (r: bool)
    ensures
        r == has_prefix(s@, p@),
{
    strip_prefix(s, p).is_some()
}

/// What follows the prefix `p` of `s`, if `s` has it.
pub fn strip_prefix<'a>(s: &'a str, p: &str) -> (r: Option<&'a str>)
    ensures
        match r {
            Some(rest) => has_prefix(s@, p@) && rest@ == s@.skip(p@.len() as int),
            None => !has_prefix(s@, p@),
        },
{
    let n: usize = s.unicode_len();
    let m: usize = p.unicode_len();
    if m > n {
        return None;
    }
    let head = s.substring_char(0, m);
    if str_eq(head, p) {
        Some(s.substring_char(m, n))
    } else {
        None
    }
}

/// Position of the first `c` in `s`, or the length of `s` where there is none.
pub open spec fn find_char(s: Seq<char>, c: char) -> int
    decreases s.len(),
{
    if s.len() == 0 || s[0] == c {
        0
    } else {
        1 + find_char(s.drop_first(), c)
    }
}

/// `find_char` is the first position that holds `c`.
pub proof fn lemma_find_char(s: Seq<char>, c: char)
    ensures
        0 <= find_char(s, c) <= s.len(),
        forall|j: int| 0 <= j < find_char(s, c) ==> s[j] != c,
        find_char(s, c) < s.len() ==> s[find_char(s, c)] == c,
    decreases s.len(),
{
    if s.len() == 0 || s[0] == c {
    } else {
        let t = s.drop_first();
        lemma_find_char(t, c);
        assert forall|j: int| 0 <= j < find_char(s, c) implies s[j] != c by {
            if j > 0 {
                assert(t[j - 1] == s[j]);
            }
        }
    }
}

/// Only the first position that holds `c` is `find_char`.
proof fn lemma_find_char_is(s: Seq<char>, c: char, k: int)
    requires
        0 <= k <= s.len(),
        forall|j: int| 0 <= j < k ==> s[j] != c,
        k < s.len() ==> s[k] == c,
    ensures
        find_char(s, c) == k,
{
    lemma_find_char(s, c);
    let f = find_char(s, c);
    if f < k {
        assert(s[f] != c);
    } else if k < f {
        assert(s[k] != c);
    }
}

/// First position at or after `from` in `cs` that holds `c`, or the length.
fn find_from(cs: &Vec<char>, from: usize, c: char) -> (k: usize)
    requires
        from <= cs@.len(),
    ensures
        from <= k <= cs@.len(),
        k - from == find_char(cs@.skip(from as int), c),
{
    let mut k: usize = from;
    while k < cs.len() && cs[k] != c
        invariant
            from <= k <= cs@.len(),
            forall|j: int| from <= j < k ==> cs@[j] != c,
        decreases cs@.len() - k,
    {
        k += 1;
    }
    proof {
        lemma_find_char_is(cs@.skip(from as int), c, k - from);
    }
    k
}

/// The parts of `s` before and after the first `c`, if `s` has one.
pub fn split_once(s: &str, c: char) -> (r: Option<(&str, &str)>)
    ensures
        match r {
            Some((head, tail)) => {
                &&& find_char(s@, c) < s@.len()
                &&& head@ == s@.take(find_char(s@, c))
                &&& tail@ == s@.skip(find_char(s@, c) + 1)
            },
            None => find_char(s@, c) == s@.len(),
        },
{
    let cs = chars_of(s);
    let k: usize = find_from(&cs, 0, c);
    assert(cs@.skip(0) =~= cs@);
    if k < cs.len() {
        let n: usize = cs.len();
        Some((s.substring_char(0, k), s.substring_char(k + 1, n)))
    } else {
        None
    }
}

/// `s` without its leading white space.
pub open spec fn trim_start_seq(s: Seq<char>) -> Seq<char>
    decreases s.len(),
{
    if s.len() > 0 && is_white_space(s[0]) {
        trim_start_seq(s.drop_first())
    } else {
        s
    }
}

/// `s` without its trailing white space.
pub open spec fn trim_end_seq(s: Seq<char>) -> Seq<char>
    decreases s.len(),
{
    if s.len() > 0 && is_white_space(s.last()) {
        trim_end_seq(s.drop_last())
    } else {
        s
    }
}

/// `s` without leading and trailing white space.
pub open spec fn trim_seq(s: Seq<char>) -> Seq<char> {
    trim_end_seq(trim_start_seq(s))
}

/// First position at or after `from` in `cs` that is not white space.
fn skip_white(cs: &Vec<char>, from: usize) -> (k: usize)
    requires
        from <= cs@.len(),
    ensures
        from <= k <= cs@.len(),
        trim_start_seq(cs@.skip(from as int)) == cs@.skip(k as int),
        k < cs@.len() ==> !is_white_space(cs@[k as int]),
{
    let mut k: usize = from;
    while k < cs.len() && white_space(cs[k])
        invariant
            from <= k <= cs@.len(),
            trim_start_seq(cs@.skip(from as int)) == trim_start_seq(cs@.skip(k as int)),
        decreases cs@.len() - k,
    {
        assert(cs@.skip(k as int).drop_first() =~= cs@.skip(k + 1));
        k += 1;
    }
    k
}

/// `s` without leading and trailing white space.
pub fn trim(s: &str) -> (r: &str)
    ensures
        r@ == trim_seq(s@),
{
    let cs = chars_of(s);
    let a: usize = skip_white(&cs, 0);
    assert(cs@.skip(0) =~= cs@);
    let mut b: usize = cs.len();
    assert(cs@.subrange(a as int, b as int) =~= cs@.skip(a as int));
    while b > a && white_space(cs[b - 1])
        invariant
            a <= b <= cs@.len(),
            trim_end_seq(cs@.skip(a as int)) == trim_end_seq(cs@.subrange(a as int, b as int)),
        decreases b,
    {
        assert(cs@.subrange(a as int, b as int).drop_last() =~= cs@.subrange(a as int, b - 1));
        b -= 1;
    }
    s.substring_char(a, b)
}

/// Length of the longest prefix of `s` without white space.
pub open spec fn word_len(s: Seq<char>) -> int
    decreases s.len(),
{
    if s.len() == 0 || is_white_space(s[0]) {
        0
    } else {
        1 + word_len(s.drop_first())
    }
}

/// `word_len` is the position of the first white space.
pub proof fn lemma_word_len(s: Seq<char>)
    ensures
        0 <= word_len(s) <= s.len(),
        forall|j: int| 0 <= j < word_len(s) ==> !is_white_space(s[j]),
        word_len(s) < s.len() ==> is_white_space(s[word_len(s)]),
    decreases s.len(),
{
    if s.len() == 0 || is_white_space(s[0]) {
    } else {
        let t = s.drop_first();
        lemma_word_len(t);
        assert forall|j: int| 0 <= j < word_len(s) implies !is_white_space(s[j]) by {
            if j > 0 {
                assert(t[j - 1] == s[j]);
            }
        }
    }
}

/// Leading white space only shortens a text.
pub proof fn lemma_trim_start_len(s: Seq<char>)
    ensures
        trim_start_seq(s).len() <= s.len(),
        trim_start_seq(s).len() > 0 ==> !is_white_space(trim_start_seq(s)[0]),
    decreases s.len(),
{
    if s.len() > 0 && is_white_space(s[0]) {
        lemma_trim_start_len(s.drop_first());
    }
}

/// Trimming keeps a first character that is not white space, and what
/// remains neither starts nor ends with white space.
pub proof fn lemma_trim(s: Seq<char>)
    ensures
        trim_seq(s).len() <= s.len(),
        trim_seq(s).len() > 0 ==> !is_white_space(trim_seq(s)[0]) && !is_white_space(
            trim_seq(s).last(),
        ),
{
    lemma_trim_start_len(s);
    lemma_trim_end_first(trim_start_seq(s));
}

proof fn lemma_trim_end_first(s: Seq<char>)
    ensures
        trim_end_seq(s).len() <= s.len(),
        trim_end_seq(s).len() > 0 ==> trim_end_seq(s)[0] == s[0] && !is_white_space(
            trim_end_seq(s).last(),
        ),
    decreases s.len(),
{
    if s.len() > 0 && is_white_space(s.last()) {
        lemma_trim_end_first(s.drop_last());
    }
}

/// The maximal runs of characters other than white space, in order.
pub open spec fn words_seq(s: Seq<char>) -> Seq<Seq<char>>
    decreases s.len(),
    via words_seq_decreases
{
    let t = trim_start_seq(s);
    if t.len() == 0 {
        Seq::empty()
    } else {
        seq![t.take(word_len(t))] + words_seq(t.skip(word_len(t)))
    }
}

#[via_fn]
proof fn words_seq_decreases(s: Seq<char>) {
    let t = trim_start_seq(s);
    lemma_trim_start_len(s);
    lemma_word_len(t);
}

/// A text that starts with no white space starts with a word.
pub proof fn lemma_first_word(t: Seq<char>)
    requires
        t.len() > 0,
        !is_white_space(t[0]),
    ensures
        words_seq(t).len() >= 1,
        words_seq(t)[0] == t.take(word_len(t)),
        words_seq(t)[0].len() >= 1,
{
    lemma_word_len(t);
    assert(trim_start_seq(t) == t);
}

/// The words of `s`, separated by any amount of white space.
pub fn split_whitespace(s: &str) -> (r: Vec<String>)
    ensures
        views(r@) == words_seq(s@),
{
    let cs = chars_of(s);
    let mut r: Vec<String> = Vec::new();
    let mut i: usize = 0;
    proof {
        assert(cs@.skip(0) =~= cs@);
        assert(views(r@) + words_seq(cs@.skip(0)) =~= words_seq(s@));
    }
    loop
        invariant
            i <= cs@.len(),
            cs@ == s@,
            views(r@) + words_seq(cs@.skip(i as int)) == words_seq(s@),
        ensures
            views(r@) == words_seq(s@),
        decreases cs@.len() - i,
    {
        let a: usize = skip_white(&cs, i);
        let ghost t = cs@.skip(a as int);
        let ghost before = views(r@);
        if a == cs.len() {
            assert(t.len() == 0);
            assert(views(r@) + words_seq(cs@.skip(i as int)) =~= views(r@));
            break;
        }
        let mut b: usize = a;
        assert(cs@.skip(b as int) =~= t);
        while b < cs.len() && !white_space(cs[b])
            invariant
                a <= b <= cs@.len(),
                t == cs@.skip(a as int),
                word_len(t) == (b - a) + word_len(cs@.skip(b as int)),
            decreases cs@.len() - b,
        {
            assert(cs@.skip(b as int).drop_first() =~= cs@.skip(b + 1));
            b += 1;
        }
        assert(word_len(t) == b - a);
        assert(b > a);
        let w = text_of(&cs, a, b);
        proof {
            assert(w@ =~= t.take(b - a));
            assert(t.skip(b - a) =~= cs@.skip(b as int));
        }
        r.push(w);
        proof {
            assert(views(r@) =~= before.push(t.take(b - a)));
            assert(views(r@) + words_seq(cs@.skip(b as int)) =~= before + words_seq(
                cs@.skip(i as int),
            ));
        }
        i = b;
    }
    r
}

/// A line without the carriage return that belonged to its line ending.
pub open spec fn without_cr(s: Seq<char>) -> Seq<char> {
    if s.len() > 0 && s.last() == '\r' {
        s.drop_last()
    } else {
        s
    }
}

/// The lines of `s`: `\n` or `\r\n` ends a line, the last ending is optional.
pub open spec fn lines_seq(s: Seq<char>) -> Seq<Seq<char>>
    decreases s.len(),
    via lines_seq_decreases
{
    let k = find_char(s, '\n');
    if s.len() == 0 {
        Seq::empty()
    } else if k == s.len() {
        seq![s]
    } else {
        seq![without_cr(s.take(k))] + lines_seq(s.skip(k + 1))
    }
}

#[via_fn]
proof fn lines_seq_decreases(s: Seq<char>) {
    lemma_find_char(s, '\n');
}

/// The lines of `s`, without their endings.
pub fn lines(s: &str) -> (r: Vec<String>)
    ensures
        views(r@) == lines_seq(s@),
{
    let cs = chars_of(s);
    let mut r: Vec<String> = Vec::new();
    let mut i: usize = 0;
    proof {
        assert(cs@.skip(0) =~= cs@);
        assert(views(r@) + lines_seq(cs@.skip(0)) =~= lines_seq(s@));
    }
    while i < cs.len()
        invariant
            i <= cs@.len(),
            cs@ == s@,
            views(r@) + lines_seq(cs@.skip(i as int)) == lines_seq(s@),
        decreases cs@.len() - i,
    {
        let k: usize = find_from(&cs, i, '\n');
        let ghost t = cs@.skip(i as int);
        let ghost before = views(r@);
        if k == cs.len() {
            let w = text_of(&cs, i, k);
            proof {
                assert(w@ =~= t);
            }
            r.push(w);
            proof {
                assert(views(r@) =~= before.push(t));
                assert(before + lines_seq(t) =~= views(r@));
                assert(cs@.skip(k as int).len() == 0);
                assert(views(r@) + lines_seq(cs@.skip(k as int)) =~= views(r@));
            }
            i = k;
        } else {
            let end: usize = if k > i && cs[k - 1] == '\r' {
                k - 1
            } else {
                k
            };
            let w = text_of(&cs, i, end);
            proof {
                assert(t.take(k - i) =~= cs@.subrange(i as int, k as int));
                assert(w@ =~= without_cr(t.take(k - i)));
                assert(t.skip(k - i + 1) =~= cs@.skip(k + 1));
            }
            r.push(w);
            proof {
                assert(views(r@) =~= before.push(without_cr(t.take(k - i))));
                assert(views(r@) + lines_seq(cs@.skip(k + 1)) =~= before + lines_seq(t));
            }
            i = k + 1;
        }
    }
    proof {
        assert(cs@.skip(i as int).len() == 0);
        assert(views(r@) + lines_seq(cs@.skip(i as int)) =~= views(r@));
    }
    r
}

/// The parts of `s` between the characters `c`.
pub open spec fn split_seq(s: Seq<char>, c: char) -> Seq<Seq<char>>
    decreases s.len(),
    via split_seq_decreases
{
    let k = find_char(s, c);
    if k == s.len() {
        seq![s]
    } else {
        seq![s.take(k)] + split_seq(s.skip(k + 1), c)
    }
}

#[via_fn]
proof fn split_seq_decreases(s: Seq<char>, c: char) {
    lemma_find_char(s, c);
}

/// The parts of `s` between the characters `c`.
pub fn split(s: &str, c: char) -> (r: Vec<String>)
    ensures
        views(r@) == split_seq(s@, c),
{
    let cs = chars_of(s);
    let mut r: Vec<String> = Vec::new();
    let mut i: usize = 0;
    proof {
        assert(cs@.skip(0) =~= cs@);
        assert(views(r@) + split_seq(cs@.skip(0), c) =~= split_seq(s@, c));
    }
    loop
        invariant_except_break
            i <= cs@.len(),
            cs@ == s@,
            views(r@) + split_seq(cs@.skip(i as int), c) == split_seq(s@, c),
        ensures
            views(r@) == split_seq(s@, c),
        decreases cs@.len() - i,
    {
        let k: usize = find_from(&cs, i, c);
        let ghost t = cs@.skip(i as int);
        let ghost before = views(r@);
        let w = text_of(&cs, i, k);
        assert(w@ =~= t.take(k - i));
        r.push(w);
        assert(views(r@) =~= before.push(t.take(k - i)));
        if k == cs.len() {
            proof {
                assert(t.take(k - i) =~= t);
                assert(before + split_seq(t, c) =~= views(r@));
            }
            break;
        }
        proof {
            assert(t.skip(k - i + 1) =~= cs@.skip(k + 1));
            assert(views(r@) + split_seq(cs@.skip(k + 1), c) =~= before + split_seq(t, c));
        }
        i = k + 1;
    }
    r
}

/// Lexicographic order by code points.
pub open spec fn lex_lt(a: Seq<char>, b: Seq<char>) -> bool
    decreases a.len(),
{
    if b.len() == 0 {
        false
    } else if a.len() == 0 {
        true
    } else if a[0] != b[0] {
        a[0] < b[0]
    } else {
        lex_lt(a.drop_first(), b.drop_first())
    }
}

/// The lexicographic order is strict, total and transitive.
pub proof fn lemma_lex(a: Seq<char>, b: Seq<char>, c: Seq<char>)
    ensures
        !lex_lt(a, a),
        lex_lt(a, b) ==> !lex_lt(b, a),
        a != b ==> lex_lt(a, b) || lex_lt(b, a),
        lex_lt(a, b) && lex_lt(b, c) ==> lex_lt(a, c),
    decreases a.len(),
{
    if a.len() > 0 {
        let t = a.drop_first();
        lemma_lex(t, t, t);
    }
    if a.len() == 0 {
        if b.len() == 0 {
            assert(a =~= b);
        }
    } else if b.len() == 0 {
    } else {
        if c.len() > 0 {
            lemma_lex(a.drop_first(), b.drop_first(), c.drop_first());
        } else {
            lemma_lex(a.drop_first(), b.drop_first(), c);
        }
        if a[0] == b[0] && a.drop_first() == b.drop_first() {
            assert(a =~= seq![a[0]] + a.drop_first());
            assert(b =~= seq![b[0]] + b.drop_first());
        }
    }
}

/// Whether `a` comes before `b` in the lexicographic order by code points.
pub fn lex_before(a: &str, b: &str) -> (r: bool)
    ensures
        r == lex_lt(a@, b@),
{
    let x = chars_of(a);
    let y = chars_of(b);
    let mut i: usize = 0;
    assert(x@.skip(0) =~= x@);
    assert(y@.skip(0) =~= y@);
    while i < x.len() && i < y.len()
        invariant
            i <= x@.len(),
            i <= y@.len(),
            x@ == a@,
            y@ == b@,
            lex_lt(a@, b@) == lex_lt(x@.skip(i as int), y@.skip(i as int)),
        decreases x@.len() - i,
    {
        if x[i] != y[i] {
            return x[i] < y[i];
        }
        proof {
            assert(x@.skip(i as int).drop_first() =~= x@.skip(i + 1));
            assert(y@.skip(i as int).drop_first() =~= y@.skip(i + 1));
        }
        i += 1;
    }
    i < y.len()
}

/// `parts` with `sep` between each two of them.
pub open spec fn join_seq(parts: Seq<Seq<char>>, sep: Seq<char>) -> Seq<char>
    decreases parts.len(),
{
    if parts.len() == 0 {
        Seq::empty()
    } else if parts.len() == 1 {
        parts[0]
    } else {
        join_seq(parts.drop_last(), sep) + sep + parts.last()
    }
}

/// The strings `parts[from..]` with `sep` between each two of them.
pub fn join_from(parts: &Vec<String>, from: usize, sep: &str) -> (r: String)
    requires
        from <= parts@.len(),
    ensures
        r@ == join_seq(views(parts@).skip(from as int), sep@),
{
    let mut r = String::new();
    let mut i: usize = from;
    let ghost all = views(parts@).skip(from as int);
    assert(all.take(0) =~= Seq::<Seq<char>>::empty());
    while i < parts.len()
        invariant
            from <= i <= parts@.len(),
            all == views(parts@).skip(from as int),
            r@ == join_seq(all.take(i - from), sep@),
        decreases parts@.len() - i,
    {
        let ghost before = r@;
        if i > from {
            r.append(sep);
        }
        r.append(parts[i].as_str());
        proof {
            let next = all.take(i - from + 1);
            assert(next.drop_last() =~= all.take(i - from));
            assert(next.last() == parts@[i as int]@);
            if i == from {
                assert(r@ =~= parts@[i as int]@);
            }
        }
        i += 1;
    }
    assert(all.take(i - from) =~= all);
    r
}

/// The texts in order.
pub fn cat2(a: &str, b: &str) -> (r: String)
    ensures
        r@ == a@ + b@,
{
    let mut r = a.to_owned();
    r.append(b);
    r
}

/// The texts in order.
pub fn cat3(a: &str, b: &str, c: &str) -> (r: String)
    ensures
        r@ == a@ + b@ + c@,
{
    let mut r = a.to_owned();
    r.append(b);
    r.append(c);
    r
}

/// The model of an optional text.
pub open spec fn opt_view(o: Option<String>) -> Option<Seq<char>> {
    match o {
        Some(s) => Some(s@),
        None => None,
    }
}

/// A copy of an optional text.
pub fn opt_clone(o: &Option<String>) -> (r: Option<String>)
    ensures
        opt_view(r) == opt_view(*o),
{
    match o {
        Some(s) => Some(s.clone()),
        None => None,
    }
}

/// Whether two optional texts are the same.
pub fn opt_eq(a: &Option<String>, b: &Option<String>) -> (r: bool)
    ensures
        r == (opt_view(*a) == opt_view(*b)),
{
    match (a, b) {
        (Some(x), Some(y)) => str_eq(x.as_str(), y.as_str()),
        (None, None) => true,
        _ => false,
    }
}

/// Whether a text is empty.
pub fn is_empty(s: &str) -> (r: bool)
    ensures
        r == (s@.len() == 0),
{
    s.unicode_len() == 0
}

/// Whether a text begins with `c`.
pub fn first_is(s: &str, c: char) -> (r: bool)
    ensures
        r == (s@.len() > 0 && s@[0] == c),
{
    s.unicode_len() > 0 && s.get_char(0) == c
}

proof fn lemma_trim_start_push(s: Seq<char>, c: char)
    ensures
        trim_start_seq(s.push(c)) == (if trim_start_seq(s).len() > 0 {
            trim_start_seq(s).push(c)
        } else if is_white_space(c) {
            Seq::empty()
        } else {
            seq![c]
        }),
    decreases s.len(),
{
    if s.len() == 0 {
        assert(s.push(c) =~= seq![c]);
        assert(seq![c].drop_first() =~= Seq::<char>::empty());
        assert(trim_start_seq(Seq::<char>::empty()) =~= Seq::<char>::empty());
    } else if is_white_space(s[0]) {
        assert(s.push(c).drop_first() =~= s.drop_first().push(c));
        lemma_trim_start_push(s.drop_first(), c);
    }
}

/// A carriage return at the end of a line is trimmed like any white space.
pub proof fn lemma_trim_without_cr(s: Seq<char>)
    ensures
        trim_seq(without_cr(s)) == trim_seq(s),
{
    if s.len() > 0 && s.last() == '\r' {
        let m = s.drop_last();
        assert(s =~= m.push('\r'));
        lemma_trim_start_push(m, '\r');
        if trim_start_seq(m).len() > 0 {
            assert(trim_start_seq(m).push('\r').drop_last() =~= trim_start_seq(m));
        } else {
            assert(trim_start_seq(m) =~= Seq::<char>::empty());
        }
    }
}

proof fn lemma_find_char_append(s: Seq<char>, t: Seq<char>, c: char)
    ensures
        find_char(s, c) < s.len() ==> find_char(s + t, c) == find_char(s, c),
        find_char(s, c) == s.len() ==> find_char(s + t, c) == s.len() + find_char(t, c),
    decreases s.len(),
{
    if s.len() == 0 {
        assert(s + t =~= t);
    } else if s[0] != c {
        assert((s + t).drop_first() =~= s.drop_first() + t);
        lemma_find_char_append(s.drop_first(), t, c);
    }
}

/// Whether a text is empty or ends with a line break.
pub open spec fn whole_lines(s: Seq<char>) -> bool {
    s.len() == 0 || s.last() == '\n'
}

/// A line that is appended to whole lines is their last line.
pub proof fn lemma_lines_append(t: Seq<char>, line: Seq<char>)
    requires
        whole_lines(t),
        !line.contains('\n'),
    ensures
        lines_seq(t + line.push('\n')) == lines_seq(t).push(without_cr(line)),
    decreases t.len(),
{
    let x = line.push('\n');
    if t.len() == 0 {
        assert(t + x =~= x);
        lemma_find_char(x, '\n');
        assert(find_char(x, '\n') == line.len()) by {
            let k = find_char(x, '\n');
            if k < line.len() {
                assert(line[k] == '\n');
                assert(line.contains(line[k]));
            }
            if k > line.len() {
                assert(x[line.len() as int] == '\n');
            }
        }
        assert(x.take(line.len() as int) =~= line);
        assert(x.skip(line.len() as int + 1) =~= Seq::<char>::empty());
        assert(lines_seq(Seq::<char>::empty()) =~= Seq::<Seq<char>>::empty());
        assert(t =~= Seq::<char>::empty());
        assert(lines_seq(t + x) =~= lines_seq(t).push(without_cr(line)));
    } else {
        let k = find_char(t, '\n');
        lemma_find_char(t, '\n');
        assert(k < t.len()) by {
            if k == t.len() {
                assert(t[t.len() - 1] == '\n');
            }
        }
        lemma_find_char_append(t, x, '\n');
        let rest = t.skip(k + 1);
        assert((t + x).take(k) =~= t.take(k));
        assert((t + x).skip(k + 1) =~= rest + x);
        assert(whole_lines(rest)) by {
            if rest.len() > 0 {
                assert(rest.last() == t.last());
            }
        }
        lemma_lines_append(rest, line);
        assert(lines_seq(t + x) =~= lines_seq(t).push(without_cr(line)));
    }
}

/// No line holds a line break.
pub proof fn lemma_lines_hold_no_break(s: Seq<char>, i: int)
    requires
        0 <= i < lines_seq(s).len(),
    ensures
        !lines_seq(s)[i].contains('\n'),
    decreases s.len(),
{
    let k = find_char(s, '\n');
    lemma_find_char(s, '\n');
    if k == s.len() {
        assert(lines_seq(s)[0] == s);
        if s.contains('\n') {
            let j = choose|j: int| 0 <= j < s.len() && s[j] == '\n';
            assert(s[j] != '\n');
        }
    } else if i == 0 {
        let l = without_cr(s.take(k));
        assert(lines_seq(s)[0] == l);
        if l.contains('\n') {
            let j = choose|j: int| 0 <= j < l.len() && l[j] == '\n';
            assert(l[j] == s[j]);
        }
    } else {
        lemma_lines_hold_no_break(s.skip(k + 1), i - 1);
        assert(lines_seq(s)[i] == lines_seq(s.skip(k + 1))[i - 1]);
    }
}

/// A text without white space that is not empty.
pub open spec fn is_word(w: Seq<char>) -> bool {
    w.len() > 0 && forall|i: int| 0 <= i < w.len() ==> !is_white_space(#[trigger] w[i])
}

proof fn lemma_trim_start_append(a: Seq<char>, x: Seq<char>)
    ensures
        trim_start_seq(a + x) == (if trim_start_seq(a).len() > 0 {
            trim_start_seq(a) + x
        } else {
            trim_start_seq(x)
        }),
    decreases a.len(),
{
    if a.len() == 0 {
        assert(a + x =~= x);
    } else if is_white_space(a[0]) {
        assert((a + x).drop_first() =~= a.drop_first() + x);
        lemma_trim_start_append(a.drop_first(), x);
    }
}

proof fn lemma_word_len_append(t: Seq<char>, x: Seq<char>)
    requires
        x.len() > 0,
        is_white_space(x[0]),
    ensures
        word_len(t + x) == word_len(t),
    decreases t.len(),
{
    if t.len() == 0 {
        assert(t + x =~= x);
    } else if !is_white_space(t[0]) {
        assert((t + x).drop_first() =~= t.drop_first() + x);
        lemma_word_len_append(t.drop_first(), x);
    }
}

/// The words of two texts with white space between them are those of the first
/// and then those of the second.
pub proof fn lemma_words_concat(a: Seq<char>, c: char, b: Seq<char>)
    requires
        is_white_space(c),
    ensures
        words_seq(a + seq![c] + b) == words_seq(a) + words_seq(b),
    decreases a.len(),
{
    let x = seq![c] + b;
    assert(a + seq![c] + b =~= a + x);
    assert(x.drop_first() =~= b);
    assert(trim_start_seq(x) == trim_start_seq(b));
    lemma_trim_start_append(a, x);
    let t = trim_start_seq(a);
    lemma_trim_start_len(a);
    if t.len() == 0 {
        assert(words_seq(a) =~= Seq::<Seq<char>>::empty());
        assert(words_seq(a + x) =~= words_seq(b));
        assert(words_seq(a) + words_seq(b) =~= words_seq(b));
    } else {
        let n = word_len(t);
        lemma_word_len(t);
        lemma_word_len_append(t, x);
        assert((t + x).take(n) =~= t.take(n));
        assert((t + x).skip(n) =~= t.skip(n) + x);
        assert(n > 0);
        lemma_words_concat(t.skip(n), c, b);
        assert(t.skip(n) + seq![c] + b =~= t.skip(n) + x);
        assert(words_seq(a + x) =~= words_seq(a) + words_seq(b));
    }
}

/// A word is its only word.
pub proof fn lemma_word_alone(w: Seq<char>)
    requires
        is_word(w),
    ensures
        words_seq(w) == seq![w],
{
    lemma_word_len(w);
    assert(!is_white_space(w[0]));
    assert(trim_start_seq(w) == w);
    assert(word_len(w) == w.len()) by {
        if word_len(w) < w.len() {
            assert(!is_white_space(w[word_len(w)]));
        }
    }
    assert(w.take(w.len() as int) =~= w);
    assert(w.skip(w.len() as int) =~= Seq::<char>::empty());
    assert(words_seq(Seq::<char>::empty()) =~= Seq::<Seq<char>>::empty());
    assert(words_seq(w) =~= seq![w]);
}

/// Words that are joined by spaces are split again.
pub proof fn lemma_words_join(ws: Seq<Seq<char>>)
    requires
        forall|i: int| 0 <= i < ws.len() ==> is_word(#[trigger] ws[i]),
    ensures
        words_seq(join_seq(ws, " "@)) == ws,
        ws.len() > 0 ==> join_seq(ws, " "@).len() > 0 && !is_white_space(
            join_seq(ws, " "@).last(),
        ),
    decreases ws.len(),
{
    reveal_strlit(" ");
    assert(" "@ =~= seq![' ']);
    if ws.len() == 0 {
        assert(words_seq(join_seq(ws, " "@)) =~= ws);
    } else if ws.len() == 1 {
        assert(is_word(ws[0]));
        lemma_word_alone(ws[0]);
        assert(seq![ws[0]] =~= ws);
    } else {
        let before = ws.drop_last();
        assert forall|i: int| 0 <= i < before.len() implies is_word(#[trigger] before[i]) by {
            assert(before[i] == ws[i]);
        }
        lemma_words_join(before);
        assert(is_word(ws[ws.len() - 1]));
        lemma_words_concat(join_seq(before, " "@), ' ', ws.last());
        lemma_word_alone(ws.last());
        assert(before + seq![ws.last()] =~= ws);
        assert(join_seq(ws, " "@).last() == ws.last().last());
    }
}

/// A text that neither begins nor ends with white space is trimmed already.
pub proof fn lemma_trimmed(s: Seq<char>)
    requires
        s.len() > 0,
        !is_white_space(s[0]),
        !is_white_space(s.last()),
    ensures
        trim_seq(s) == s,
{
}

/// The first line of a text ends at its first line break, and the other lines are
/// those of what follows it. A text without a line break is one line.
pub proof fn lines_end_at_line_breaks(line: Seq<char>, rest: Seq<char>)
    requires
        !line.contains('\n'),
    ensures
        lines_seq(line + seq!['\n'] + rest) == seq![
            if line.len() > 0 && line.last() == '\r' {
                line.drop_last()
            } else {
                line
            },
        ] + lines_seq(rest),
        line.len() > 0 ==> lines_seq(line) == seq![line],
        lines_seq(Seq::empty()) == Seq::<Seq<char>>::empty(),
{
    let s = line + seq!['\n'] + rest;
    let n = line.len() as int;
    assert forall|j: int| 0 <= j < n implies line[j] != '\n' by {
        assert(line.contains(line[j]));
    }
    assert forall|j: int| 0 <= j < n implies s[j] != '\n' by {
        assert(s[j] == line[j]);
    }
    lemma_find_char_is(s, '\n', n);
    lemma_find_char_is(line, '\n', n);
    assert(s.take(n) =~= line);
    assert(s.skip(n + 1) =~= rest);
}

/// The first part of a text ends at the first separator, and the other parts are
/// those of what follows it. A text without a separator is one part.
pub proof fn parts_end_at_separators(part: Seq<char>, c: char, rest: Seq<char>)
    requires
        !part.contains(c),
    ensures
        split_seq(part + seq![c] + rest, c) == seq![part] + split_seq(rest, c),
        split_seq(part, c) == seq![part],
        find_char(part + seq![c] + rest, c) == part.len(),
        find_char(part, c) == part.len(),
{
    let s = part + seq![c] + rest;
    let n = part.len() as int;
    assert forall|j: int| 0 <= j < n implies part[j] != c by {
        assert(part.contains(part[j]));
    }
    assert forall|j: int| 0 <= j < n implies s[j] != c by {
        assert(s[j] == part[j]);
    }
    lemma_find_char_is(s, c, n);
    lemma_find_char_is(part, c, n);
    assert(s.take(n) =~= part);
    assert(s.skip(n + 1) =~= rest);
}

/// Trimming drops the white space around a text and nothing of the text.
pub proof fn only_white_space_is_trimmed(before: Seq<char>, core: Seq<char>, after: Seq<char>)
    requires
        forall|i: int| 0 <= i < before.len() ==> is_white_space(#[trigger] before[i]),
        forall|i: int| 0 <= i < after.len() ==> is_white_space(#[trigger] after[i]),
        core.len() > 0 ==> !is_white_space(core[0]) && !is_white_space(core.last()),
    ensures
        trim_seq(before + core + after) == core,
{
    lemma_trim_start_run(before, core + after);
    assert(before + core + after =~= before + (core + after));
    if core.len() > 0 {
        assert((core + after)[0] == core[0]);
        lemma_trim_end_run(core, after);
    } else {
        assert(core + after =~= after + Seq::<char>::empty());
        lemma_trim_start_run(after, Seq::empty());
        assert(trim_seq(before + core + after) =~= core);
    }
}

proof fn lemma_trim_start_run(before: Seq<char>, rest: Seq<char>)
    requires
        forall|i: int| 0 <= i < before.len() ==> is_white_space(#[trigger] before[i]),
    ensures
        trim_start_seq(before + rest) == trim_start_seq(rest),
    decreases before.len(),
{
    if before.len() > 0 {
        assert(is_white_space(before[0]));
        assert((before + rest).drop_first() =~= before.drop_first() + rest);
        assert forall|i: int| 0 <= i < before.drop_first().len() implies is_white_space(
            #[trigger] before.drop_first()[i],
        ) by {
            assert(before.drop_first()[i] == before[i + 1]);
        }
        lemma_trim_start_run(before.drop_first(), rest);
    } else {
        assert(before + rest =~= rest);
    }
}

proof fn lemma_trim_end_run(core: Seq<char>, after: Seq<char>)
    requires
        core.len() > 0,
        !is_white_space(core.last()),
        forall|i: int| 0 <= i < after.len() ==> is_white_space(#[trigger] after[i]),
    ensures
        trim_end_seq(core + after) == core,
    decreases after.len(),
{
    if after.len() > 0 {
        let n = after.len() - 1;
        assert(is_white_space(after[n]));
        assert((core + after).last() == after[n]);
        assert((core + after).drop_last() =~= core + after.drop_last());
        lemma_trim_end_run(core, after.drop_last());
    } else {
        assert(core + after =~= core);
    }
}

} // verus!
