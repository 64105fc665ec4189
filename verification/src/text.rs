//! Strings as sequences of characters: comparison, searching, splitting,
//! trimming and decimal numbers.

use vstd::prelude::*;

verus! {

// ---------------------------------------------------------------------------
// Characters and whole strings
// ---------------------------------------------------------------------------

/// `String::push`: appends one character.
pub assume_specification[ String::push ](s: &mut String, c: char)
    ensures
        final(s)@ == old(s)@.push(c),
;

/// The characters of a vector of strings.
pub open spec fn texts(v: Seq<String>) -> Seq<Seq<char>> {
    Seq::new(v.len(), |i: int| v[i]@)
}

/// The characters of `s`, as a vector.
pub fn chars_of(s: &str) -> (r: Vec<char>)
    ensures
        r@ == s@,
{
    let mut v: Vec<char> = Vec::new();
    for c in it: s.chars()
        invariant
            v@ == s@.subrange(0, it.index() as int),
            it.seq() == s@,
    {
        v.push(c);
    }
    v
}

/// The string made of `cs[from..to]`.
pub fn string_of(cs: &Vec<char>, from: usize, to: usize) -> (r: String)
    requires
        from <= to <= cs@.len(),
    ensures
        r@ == cs@.subrange(from as int, to as int),
{
    let mut out = String::new();
    let mut i: usize = from;
    while i < to
        invariant
            from <= i <= to <= cs@.len(),
            out@ == cs@.subrange(from as int, i as int),
        decreases to - i,
    {
        out.push(cs[i]);
        i = i + 1;
    }
    out
}

/// Whether `a` and `b` hold the same characters.
pub fn vec_eq(a: &Vec<char>, b: &Vec<char>) -> (r: bool)
    ensures
        r == (a@ == b@),
{
    if a.len() != b.len() {
        return false;
    }
    let mut i: usize = 0;
    while i < a.len()
        invariant
            a@.len() == b@.len(),
            i <= a@.len(),
            forall|j: int| 0 <= j < i ==> a@[j] == b@[j],
        decreases a@.len() - i,
    {
        if a[i] != b[i] {
            return false;
        }
        i = i + 1;
    }
    assert(a@ =~= b@);
    true
}

/// Whether two string slices hold the same characters.
pub fn str_eq(a: &str, b: &str) -> (r: bool)
    ensures
        r == (a@ == b@),
{
    let mut ca = a.chars();
    let mut cb = b.chars();
    let ghost mut k: int = 0;
    loop
        invariant
            0 <= k <= a@.len(),
            k <= b@.len(),
            a@.subrange(0, k) == b@.subrange(0, k),
            vstd::std_specs::iter::IteratorSpec::remaining(&ca) == a@.subrange(k, a@.len() as int),
            vstd::std_specs::iter::IteratorSpec::remaining(&cb) == b@.subrange(k, b@.len() as int),
        decreases a@.len() - k,
    {
        match ca.next() {
            None => {
                let end = cb.next().is_none();
                proof {
                    assert(k == a@.len());
                    assert(a@.subrange(0, k) == a@);
                    if k == b@.len() {
                        assert(b@.subrange(0, k) == b@);
                    }
                }
                return end;
            },
            Some(x) => {
                match cb.next() {
                    None => {
                        return false;
                    },
                    Some(y) => {
                        if x != y {
                            assert(a@[k] != b@[k]);
                            return false;
                        }
                        proof {
                            assert(a@.subrange(0, k + 1) == a@.subrange(0, k).push(a@[k]));
                            assert(b@.subrange(0, k + 1) == b@.subrange(0, k).push(b@[k]));
                            k = k + 1;
                        }
                    },
                }
            },
        }
    }
}

/// A copy of `v` whose strings hold the same characters.
pub fn clone_strings(v: &Vec<String>) -> (r: Vec<String>)
    ensures
        r@ == v@,
{
    let mut out: Vec<String> = Vec::new();
    let mut i: usize = 0;
    while i < v.len()
        invariant
            i <= v@.len(),
            out@ == v@.subrange(0, i as int),
        decreases v@.len() - i,
    {
        out.push(v[i].clone());
        i = i + 1;
    }
    out
}

/// The index of the first string of `v` that holds the characters of `s`.
pub fn position_of(v: &Vec<String>, s: &str) -> (r: Option<usize>)
    ensures
        match r {
            Some(i) => i < v@.len() && v@[i as int]@ == s@ && forall|j: int|
                0 <= j < i ==> (#[trigger] v@[j])@ != s@,
            None => forall|j: int| 0 <= j < v@.len() ==> (#[trigger] v@[j])@ != s@,
        },
{
    let mut i: usize = 0;
    while i < v.len()
        invariant
            i <= v@.len(),
            forall|j: int| 0 <= j < i ==> (#[trigger] v@[j])@ != s@,
        decreases v@.len() - i,
    {
        if str_eq(v[i].as_str(), s) {
            return Some(i);
        }
        i = i + 1;
    }
    None
}

// ---------------------------------------------------------------------------
// Lower case
// ---------------------------------------------------------------------------

/// What `str::to_lowercase` makes of a string.
pub uninterp spec fn lowercase(s: Seq<char>) -> Seq<char>;

/// `str::to_lowercase`: the Unicode lower-case form of `s`. The result depends
/// on the characters of `s` alone; which characters it holds is not stated.
#[verifier::external_body]
pub(crate) fn to_lowercase(s: &str) -> (r: String)
    ensures
        r@ == lowercase(s@),
{
    s.to_lowercase()
}

/// A UTF-16 unit that begins a pair.
pub open spec fn leads_pair(u: u16) -> bool {
    0xD800 <= u < 0xDC00
}

/// A UTF-16 unit that ends a pair.
pub open spec fn ends_pair(u: u16) -> bool {
    0xDC00 <= u < 0xE000
}

/// The text that UTF-16 units encode: two units that pair up stand for one
/// character beyond the first 65536, and one that lacks its partner is replaced
/// by U+FFFD.
pub open spec fn utf16_text(units: Seq<u16>) -> Seq<char>
    decreases units.len(),
{
    if units.len() == 0 {
        Seq::empty()
    } else if units.len() > 1 && leads_pair(units[0]) && ends_pair(units[1]) {
        let c = (0x10000 + (units[0] - 0xD800) * 0x400 + (units[1] - 0xDC00)) as char;
        seq![c] + utf16_text(units.subrange(2, units.len() as int))
    } else {
        let c = if leads_pair(units[0]) || ends_pair(units[0]) {
            0xFFFDint as char
        } else {
            units[0] as char
        };
        seq![c] + utf16_text(units.subrange(1, units.len() as int))
    }
}

/// `String::from_utf16_lossy` on the first `upto` units: the text that they
/// encode, with U+FFFD in place of each unit that is not valid.
#[verifier::external_body]
pub(crate) fn decode_utf16(units: &Vec<u16>, upto: usize) -> (r: String)
    requires
        upto <= units@.len(),
    ensures
        r@ == utf16_text(units@.subrange(0, upto as int)),
{
    String::from_utf16_lossy(&units[..upto])
}

/// The place of the first zero of `units`, or their number.
pub open spec fn nul_at(units: Seq<u16>) -> int
    decreases units.len(),
{
    if units.len() == 0 || units[0] == 0 {
        0
    } else {
        1 + nul_at(units.subrange(1, units.len() as int))
    }
}

/// The text of a buffer that a zero ends.
pub open spec fn wide_text_of(units: Seq<u16>) -> Seq<char> {
    utf16_text(units.subrange(0, nul_at(units)))
}

/// The place of the first zero of `units`, or their number.
pub fn nul_position(units: &Vec<u16>) -> (r: usize)
    ensures
        r == nul_at(units@),
        r <= units@.len(),
        r < units@.len() ==> units@[r as int] == 0,
{
    let mut i: usize = 0;
    assert(units@.subrange(0, units@.len() as int) =~= units@);
    while i < units.len() && units[i] != 0
        invariant
            i <= units.len(),
            nul_at(units@) == i + nul_at(units@.subrange(i as int, units@.len() as int)),
        decreases units.len() - i,
    {
        proof {
            let rest = units@.subrange(i as int, units@.len() as int);
            assert(rest[0] == units@[i as int]);
            assert(rest.subrange(1, rest.len() as int) =~= units@.subrange(
                i + 1,
                units@.len() as int,
            ));
        }
        i = i + 1;
    }
    i
}

/// The text of a buffer that a zero ends; the whole of it where none does.
pub fn wide_text(units: &Vec<u16>) -> (r: String)
    ensures
        r@ == wide_text_of(units@),
        r@.len() == 0 <==> nul_at(units@) == 0,
{
    let n: usize = nul_position(units);
    decode_utf16(units, n)
}

// ---------------------------------------------------------------------------
// Order
// ---------------------------------------------------------------------------

/// `a` comes strictly before `b` in the order of their characters: at the
/// first place where they differ `a` has the smaller character, or `a` is a
/// proper prefix of `b`.
pub open spec fn text_lt(a: Seq<char>, b: Seq<char>) -> bool
    decreases a.len(),
{
    if b.len() == 0 {
        false
    } else if a.len() == 0 {
        true
    } else if a[0] != b[0] {
        (a[0] as int) < (b[0] as int)
    } else {
        text_lt(a.subrange(1, a.len() as int), b.subrange(1, b.len() as int))
    }
}

/// Whether `a` comes strictly before `b`.
pub fn str_lt(a: &Vec<char>, b: &Vec<char>) -> (r: bool)
    ensures
        r == text_lt(a@, b@),
{
    let mut i: usize = 0;
    assert(a@.subrange(0, a@.len() as int) == a@);
    assert(b@.subrange(0, b@.len() as int) == b@);
    while i < a.len() && i < b.len()
        invariant
            i <= a@.len(),
            i <= b@.len(),
            text_lt(a@, b@) == text_lt(
                a@.subrange(i as int, a@.len() as int),
                b@.subrange(i as int, b@.len() as int),
            ),
        decreases a@.len() - i,
    {
        if a[i] != b[i] {
            return a[i] < b[i];
        }
        assert(a@.subrange(i as int, a@.len() as int).subrange(1, a@.len() - i) == a@.subrange(
            i + 1,
            a@.len() as int,
        ));
        assert(b@.subrange(i as int, b@.len() as int).subrange(1, b@.len() - i) == b@.subrange(
            i + 1,
            b@.len() as int,
        ));
        i = i + 1;
    }
    i < b.len()
}

/// Nothing comes before itself.
pub proof fn lemma_text_lt_irreflexive(a: Seq<char>)
    ensures
        !text_lt(a, a),
    decreases a.len(),
{
    if a.len() > 0 {
        lemma_text_lt_irreflexive(a.subrange(1, a.len() as int));
    }
}

/// Of two strings that differ, one comes before the other.
pub proof fn lemma_text_lt_total(a: Seq<char>, b: Seq<char>)
    ensures
        a == b || text_lt(a, b) || text_lt(b, a),
    decreases a.len(),
{
    if a.len() == 0 || b.len() == 0 {
        if a.len() == 0 && b.len() == 0 {
            assert(a =~= b);
        }
    } else if a[0] == b[0] {
        let a1 = a.subrange(1, a.len() as int);
        let b1 = b.subrange(1, b.len() as int);
        lemma_text_lt_total(a1, b1);
        if a1 == b1 {
            assert(a =~= seq![a[0]] + a1);
            assert(b =~= seq![b[0]] + b1);
        }
    }
}

/// The order of strings is transitive.
pub proof fn lemma_text_lt_transitive(a: Seq<char>, b: Seq<char>, c: Seq<char>)
    requires
        text_lt(a, b),
        text_lt(b, c),
    ensures
        text_lt(a, c),
    decreases a.len(),
{
    if a.len() > 0 && b.len() > 0 && c.len() > 0 && a[0] == b[0] && b[0] == c[0] {
        lemma_text_lt_transitive(
            a.subrange(1, a.len() as int),
            b.subrange(1, b.len() as int),
            c.subrange(1, c.len() as int),
        );
    }
}

// ---------------------------------------------------------------------------
// Searching
// ---------------------------------------------------------------------------

/// `s` starts with `p`.
pub open spec fn has_prefix(s: Seq<char>, p: Seq<char>) -> bool {
    p.len() <= s.len() && s.subrange(0, p.len() as int) == p
}

/// `s` ends with `p`.
pub open spec fn has_suffix(s: Seq<char>, p: Seq<char>) -> bool {
    p.len() <= s.len() && s.subrange(s.len() - p.len(), s.len() as int) == p
}

/// `needle` stands in `hay` at place `at`.
pub open spec fn occurs_at(hay: Seq<char>, needle: Seq<char>, at: int) -> bool {
    0 <= at && at + needle.len() <= hay.len() && hay.subrange(at, at + needle.len()) == needle
}

/// `needle` stands somewhere in `hay`.
pub open spec fn occurs(hay: Seq<char>, needle: Seq<char>) -> bool {
    exists|at: int| #[trigger] occurs_at(hay, needle, at)
}

/// Whether `needle` stands in `hay` at place `at`.
fn matches_at(hay: &Vec<char>, needle: &Vec<char>, at: usize) -> (r: bool)
    requires
        at <= hay@.len(),
    ensures
        r == occurs_at(hay@, needle@, at as int),
{
    if needle.len() > hay.len() - at {
        return false;
    }
    let mut j: usize = 0;
    while j < needle.len()
        invariant
            at + needle@.len() <= hay.len(),
            j <= needle@.len(),
            forall|k: int| 0 <= k < j ==> hay@[at + k] == needle@[k],
        decreases needle@.len() - j,
    {
        if hay[at + j] != needle[j] {
            assert(hay@.subrange(at as int, at + needle@.len())[j as int] != needle@[j as int]);
            return false;
        }
        j = j + 1;
    }
    assert(hay@.subrange(at as int, at + needle@.len()) =~= needle@);
    true
}

/// Whether `needle` stands somewhere in `hay`.
pub fn contains(hay: &str, needle: &str) -> (r: bool)
    ensures
        r == occurs(hay@, needle@),
{
    let h: Vec<char> = chars_of(hay);
    let n: Vec<char> = chars_of(needle);
    if n.len() > h.len() {
        return false;
    }
    let last: usize = h.len() - n.len();
    let mut at: usize = 0;
    while at < last
        invariant
            h@ == hay@,
            n@ == needle@,
            last + n@.len() == h@.len(),
            at <= last,
            forall|k: int| 0 <= k < at ==> !occurs_at(hay@, needle@, k),
        decreases last - at,
    {
        if matches_at(&h, &n, at) {
            return true;
        }
        at = at + 1;
    }
    matches_at(&h, &n, last)
}

/// Whether `s` starts with `p`.
pub fn starts_with(s: &str, p: &str) -> (r: bool)
    ensures
        r == has_prefix(s@, p@),
{
    let a: Vec<char> = chars_of(s);
    let b: Vec<char> = chars_of(p);
    matches_at(&a, &b, 0)
}

/// Whether `s` ends with `p`.
pub fn ends_with(s: &str, p: &str) -> (r: bool)
    ensures
        r == has_suffix(s@, p@),
{
    let a: Vec<char> = chars_of(s);
    let b: Vec<char> = chars_of(p);
    if b.len() > a.len() {
        return false;
    }
    let at: usize = a.len() - b.len();
    matches_at(&a, &b, at)
}

/// What follows the prefix `p` of `s`, where `s` starts with `p`.
pub fn strip_prefix(s: &str, p: &str) -> (r: Option<String>)
    ensures
        match r {
            Some(rest) => has_prefix(s@, p@) && rest@ == s@.subrange(
                p@.len() as int,
                s@.len() as int,
            ),
            None => !has_prefix(s@, p@),
        },
{
    if starts_with(s, p) {
        let a: Vec<char> = chars_of(s);
        let n: usize = p.unicode_len();
        Some(string_of(&a, n, a.len()))
    } else {
        None
    }
}

// ---------------------------------------------------------------------------
// White space and trimming
// ---------------------------------------------------------------------------

/// The characters with the Unicode property `White_Space`.
pub open spec fn whitespace(c: char) -> bool {
    ||| '\u{9}' <= c <= '\u{d}'
    ||| c == ' '
    ||| c == '\u{85}'
    ||| c == '\u{a0}'
    ||| c == '\u{1680}'
    ||| '\u{2000}' <= c <= '\u{200a}'
    ||| c == '\u{2028}'
    ||| c == '\u{2029}'
    ||| c == '\u{202f}'
    ||| c == '\u{205f}'
    ||| c == '\u{3000}'
}

/// Whether `c` is white space.
pub fn is_whitespace(c: char) -> (r: bool)
    ensures
        r == whitespace(c),
{
    ('\u{9}' <= c && c <= '\u{d}') || c == ' ' || c == '\u{85}' || c == '\u{a0}' || c == '\u{1680}'
        || ('\u{2000}' <= c && c <= '\u{200a}') || c == '\u{2028}' || c == '\u{2029}' || c
        == '\u{202f}' || c == '\u{205f}' || c == '\u{3000}'
}

/// `s` without the white space at its start.
pub open spec fn trim_start(s: Seq<char>) -> Seq<char>
    decreases s.len(),
{
    if s.len() > 0 && whitespace(s[0]) {
        trim_start(s.subrange(1, s.len() as int))
    } else {
        s
    }
}

/// `s` without the white space at its end.
pub open spec fn trim_end(s: Seq<char>) -> Seq<char>
    decreases s.len(),
{
    if s.len() > 0 && whitespace(s.last()) {
        trim_end(s.drop_last())
    } else {
        s
    }
}

/// `s` without the white space around it.
pub open spec fn trimmed(s: Seq<char>) -> Seq<char> {
    trim_end(trim_start(s))
}

/// `s` without the characters `c` at its start.
pub open spec fn strip_leading(s: Seq<char>, c: char) -> Seq<char>
    decreases s.len(),
{
    if s.len() > 0 && s[0] == c {
        strip_leading(s.subrange(1, s.len() as int), c)
    } else {
        s
    }
}

/// `s` without the characters `c` at its end.
pub open spec fn strip_trailing(s: Seq<char>, c: char) -> Seq<char>
    decreases s.len(),
{
    if s.len() > 0 && s.last() == c {
        strip_trailing(s.drop_last(), c)
    } else {
        s
    }
}

/// The string without the white space around it.
pub fn trim(s: &str) -> (r: String)
    ensures
        r@ == trimmed(s@),
{
    let cs: Vec<char> = chars_of(s);
    let n: usize = cs.len();
    let mut i: usize = 0;
    assert(s@.subrange(0, n as int) == s@);
    while i < n && is_whitespace(cs[i])
        invariant
            cs@ == s@,
            n == cs@.len(),
            i <= n,
            trim_start(s@) == trim_start(s@.subrange(i as int, n as int)),
        decreases n - i,
    {
        assert(s@.subrange(i as int, n as int).subrange(1, n - i) == s@.subrange(i + 1, n as int));
        i = i + 1;
    }
    assert(trim_start(s@) == s@.subrange(i as int, n as int));
    let mut j: usize = n;
    while j > i && is_whitespace(cs[j - 1])
        invariant
            cs@ == s@,
            n == cs@.len(),
            i <= j <= n,
            trimmed(s@) == trim_end(s@.subrange(i as int, j as int)),
        decreases j - i,
    {
        assert(s@.subrange(i as int, j as int).drop_last() == s@.subrange(i as int, j - 1));
        j = j - 1;
    }
    string_of(&cs, i, j)
}

/// The string without the characters `c` at its start.
pub fn trim_start_char(s: &str, c: char) -> (r: String)
    ensures
        r@ == strip_leading(s@, c),
{
    let cs: Vec<char> = chars_of(s);
    let n: usize = cs.len();
    let mut i: usize = 0;
    assert(s@.subrange(0, n as int) == s@);
    while i < n && cs[i] == c
        invariant
            cs@ == s@,
            n == cs@.len(),
            i <= n,
            strip_leading(s@, c) == strip_leading(s@.subrange(i as int, n as int), c),
        decreases n - i,
    {
        assert(s@.subrange(i as int, n as int).subrange(1, n - i) == s@.subrange(i + 1, n as int));
        i = i + 1;
    }
    string_of(&cs, i, n)
}

/// The string without the characters `c` around it.
pub fn trim_char(s: &str, c: char) -> (r: String)
    ensures
        r@ == strip_trailing(strip_leading(s@, c), c),
{
    let cs: Vec<char> = chars_of(trim_start_char(s, c).as_str());
    let ghost t = cs@;
    let mut j: usize = cs.len();
    assert(t.subrange(0, j as int) == t);
    while j > 0 && cs[j - 1] == c
        invariant
            cs@ == t,
            j <= t.len(),
            strip_trailing(t, c) == strip_trailing(t.subrange(0, j as int), c),
        decreases j,
    {
        assert(t.subrange(0, j as int).drop_last() == t.subrange(0, j - 1));
        j = j - 1;
    }
    string_of(&cs, 0, j)
}

/// Trimming leaves no white space at either end.
pub proof fn lemma_trimmed_ends(s: Seq<char>)
    ensures
        trimmed(s).len() > 0 ==> !whitespace(trimmed(s)[0]) && !whitespace(trimmed(s).last()),
{
    lemma_trim_start(s);
    lemma_trim_end(trim_start(s));
}

proof fn lemma_trim_start(s: Seq<char>)
    ensures
        trim_start(s).len() > 0 ==> !whitespace(trim_start(s)[0]),
    decreases s.len(),
{
    if s.len() > 0 && whitespace(s[0]) {
        lemma_trim_start(s.subrange(1, s.len() as int));
    }
}

proof fn lemma_trim_end(s: Seq<char>)
    ensures
        trim_end(s).len() > 0 ==> !whitespace(trim_end(s).last()) && trim_end(s)[0] == s[0],
    decreases s.len(),
{
    if s.len() > 0 && whitespace(s.last()) {
        lemma_trim_end(s.drop_last());
    }
}

/// Trimming twice is trimming once.
pub proof fn law_trim_is_idempotent(s: Seq<char>)
    ensures
        trimmed(trimmed(s)) == trimmed(s),
{
    lemma_trimmed_ends(s);
}

// ---------------------------------------------------------------------------
// Splitting and joining
// ---------------------------------------------------------------------------

/// The pieces of `s` between the separators `c`; one more than there are
/// separators.
pub open spec fn split(s: Seq<char>, c: char) -> Seq<Seq<char>>
    decreases s.len(),
{
    if s.len() == 0 {
        seq![Seq::<char>::empty()]
    } else {
        let init = split(s.drop_last(), c);
        if s.last() == c {
            init.push(Seq::<char>::empty())
        } else {
            init.drop_last().push(init.last().push(s.last()))
        }
    }
}

/// The pieces put together again with `sep` between them.
pub open spec fn joined(parts: Seq<Seq<char>>, sep: Seq<char>) -> Seq<char>
    decreases parts.len(),
{
    if parts.len() == 0 {
        Seq::<char>::empty()
    } else if parts.len() == 1 {
        parts[0]
    } else {
        joined(parts.drop_last(), sep) + sep + parts.last()
    }
}

/// The pieces of `s` between the separators `c`.
pub fn split_on(s: &str, c: char) -> (r: Vec<String>)
    ensures
        texts(r@) == split(s@, c),
        r@.len() >= 1,
{
    let cs: Vec<char> = chars_of(s);
    let mut done: Vec<String> = Vec::new();
    let mut cur = String::new();
    let mut i: usize = 0;
    assert(s@.subrange(0, 0).len() == 0);
    assert(texts(done@).push(cur@) =~= split(s@.subrange(0, 0), c));
    while i < cs.len()
        invariant
            cs@ == s@,
            i <= cs@.len(),
            texts(done@).push(cur@) == split(s@.subrange(0, i as int), c),
        decreases cs@.len() - i,
    {
        let ghost before = texts(done@).push(cur@);
        let ghost sub = s@.subrange(0, i + 1);
        assert(sub.drop_last() == s@.subrange(0, i as int));
        if cs[i] == c {
            let ghost old_done = done@;
            done.push(cur);
            cur = String::new();
            assert(texts(done@) =~= before);
        } else {
            cur.push(cs[i]);
            assert(before.drop_last() =~= texts(done@));
        }
        i = i + 1;
    }
    assert(s@.subrange(0, i as int) == s@);
    let ghost full = texts(done@).push(cur@);
    done.push(cur);
    assert(texts(done@) =~= full);
    done
}

/// The strings of `parts` with `sep` between them.
pub fn join(parts: &Vec<String>, sep: &str) -> (r: String)
    ensures
        r@ == joined(texts(parts@), sep@),
{
    let mut out = String::new();
    let mut i: usize = 0;
    while i < parts.len()
        invariant
            i <= parts@.len(),
            out@ == joined(texts(parts@.subrange(0, i as int)), sep@),
        decreases parts@.len() - i,
    {
        let ghost sub = texts(parts@.subrange(0, i + 1));
        assert(sub.drop_last() =~= texts(parts@.subrange(0, i as int)));
        if i > 0 {
            out.append(sep);
        }
        out.append(parts[i].as_str());
        i = i + 1;
    }
    assert(parts@.subrange(0, i as int) == parts@);
    out
}

/// A split always gives a piece, and no piece holds the separator.
pub proof fn lemma_split_pieces(s: Seq<char>, c: char)
    ensures
        split(s, c).len() >= 1,
        forall|i: int| 0 <= i < split(s, c).len() ==> !(#[trigger] split(s, c)[i]).contains(c),
    decreases s.len(),
{
    if s.len() > 0 {
        lemma_split_pieces(s.drop_last(), c);
    }
}

/// Joining the pieces of a split gives the string back.
pub proof fn law_join_undoes_split(s: Seq<char>, c: char)
    ensures
        joined(split(s, c), seq![c]) == s,
    decreases s.len(),
{
    if s.len() > 0 {
        let init = split(s.drop_last(), c);
        law_join_undoes_split(s.drop_last(), c);
        lemma_split_pieces(s.drop_last(), c);
        assert(s =~= s.drop_last().push(s.last()));
        if s.last() == c {
            let all = init.push(Seq::<char>::empty());
            assert(all.drop_last() =~= init);
            assert(joined(all, seq![c]) =~= s);
        } else {
            let all = init.drop_last().push(init.last().push(s.last()));
            assert(all.drop_last() =~= init.drop_last());
            assert(joined(all, seq![c]) =~= s);
        }
    } else {
        assert(s =~= Seq::<char>::empty());
    }
}

/// Splitting what was joined gives the pieces back, where no piece holds the
/// separator.
pub proof fn law_split_undoes_join(parts: Seq<Seq<char>>, c: char)
    requires
        parts.len() >= 1,
        forall|i: int| 0 <= i < parts.len() ==> !(#[trigger] parts[i]).contains(c),
    ensures
        split(joined(parts, seq![c]), c) == parts,
    decreases parts.len(),
{
    if parts.len() == 1 {
        lemma_split_extends(Seq::<char>::empty(), parts[0], c);
        assert(Seq::<char>::empty() + parts[0] =~= parts[0]);
        assert(split(parts[0], c) =~= parts);
    } else {
        let front = parts.drop_last();
        assert forall|i: int| 0 <= i < front.len() implies !(#[trigger] front[i]).contains(c) by {
            assert(front[i] == parts[i]);
        }
        law_split_undoes_join(front, c);
        let f = joined(front, seq![c]);
        let g = f.push(c);
        assert(g.drop_last() =~= f);
        assert(f + seq![c] =~= g);
        assert(split(g, c) == front.push(Seq::<char>::empty()));
        lemma_split_extends(g, parts.last(), c);
        assert(split(g + parts.last(), c) =~= parts);
    }
}

/// Characters other than the separator extend the last piece.
proof fn lemma_split_extends(s: Seq<char>, t: Seq<char>, c: char)
    requires
        !t.contains(c),
    ensures
        split(s, c).len() >= 1,
        split(s + t, c) == split(s, c).drop_last().push(split(s, c).last() + t),
    decreases t.len(),
{
    lemma_split_pieces(s, c);
    if t.len() == 0 {
        assert(s + t =~= s);
        assert(split(s, c).last() + t =~= split(s, c).last());
        assert(split(s, c).drop_last().push(split(s, c).last()) =~= split(s, c));
    } else {
        let t1 = t.drop_last();
        assert forall|x: char| t1.contains(x) implies t.contains(x) by {
            let j = choose|j: int| 0 <= j < t1.len() && t1[j] == x;
            assert(t[j] == x);
        }
        lemma_split_extends(s, t1, c);
        assert((s + t).drop_last() =~= s + t1);
        assert((s + t).last() == t.last());
        assert(t.contains(t.last()));
        let init = split(s + t1, c);
        assert(init.last() == split(s, c).last() + t1);
        assert(init.drop_last() =~= split(s, c).drop_last());
        assert((split(s, c).last() + t1).push(t.last()) =~= split(s, c).last() + t);
    }
}

/// The lines of `s`, trimmed, without the blank ones.
pub open spec fn nonblank_lines(s: Seq<char>) -> Seq<Seq<char>> {
    nonblank(split(s, '\n'))
}

/// The pieces trimmed, without those that hold white space alone.
pub open spec fn nonblank(parts: Seq<Seq<char>>) -> Seq<Seq<char>>
    decreases parts.len(),
{
    if parts.len() == 0 {
        Seq::<Seq<char>>::empty()
    } else {
        let init = nonblank(parts.drop_last());
        if trimmed(parts.last()).len() == 0 {
            init
        } else {
            init.push(trimmed(parts.last()))
        }
    }
}

/// The lines of `s`, trimmed, without the blank ones.
pub fn lines_trimmed(s: &str) -> (r: Vec<String>)
    ensures
        texts(r@) == nonblank_lines(s@),
{
    let parts: Vec<String> = split_on(s, '\n');
    let mut out: Vec<String> = Vec::new();
    let mut i: usize = 0;
    assert(texts(out@) =~= nonblank(texts(parts@.subrange(0, 0))));
    while i < parts.len()
        invariant
            i <= parts@.len(),
            texts(out@) == nonblank(texts(parts@.subrange(0, i as int))),
        decreases parts@.len() - i,
    {
        let ghost sub = texts(parts@.subrange(0, i + 1));
        assert(sub.drop_last() =~= texts(parts@.subrange(0, i as int)));
        let t = trim(parts[i].as_str());
        let ghost before = texts(out@);
        if !t.as_str().is_empty() {
            out.push(t);
            assert(texts(out@) =~= before.push(t@));
        }
        i = i + 1;
    }
    assert(parts@.subrange(0, i as int) == parts@);
    out
}

// ---------------------------------------------------------------------------
// Decimal numbers
// ---------------------------------------------------------------------------

/// The digit for a number below ten.
pub open spec fn digit(d: int) -> char {
    ('0' as int + d) as char
}

/// Whether `c` is one of `0` to `9`.
pub open spec fn is_digit(c: char) -> bool {
    '0' <= c <= '9'
}

/// `n` written in decimal, without leading zeros.
pub open spec fn decimal(n: nat) -> Seq<char>
    decreases n,
{
    if n < 10 {
        seq![digit(n as int)]
    } else {
        decimal(n / 10).push(digit((n % 10) as int))
    }
}

/// `n` written in decimal, with `-` in front where it is negative.
pub open spec fn decimal_int(n: int) -> Seq<char> {
    if n < 0 {
        seq!['-'] + decimal((-n) as nat)
    } else {
        decimal(n as nat)
    }
}

/// The number that a row of digits stands for.
pub open spec fn digits_value(s: Seq<char>) -> nat
    decreases s.len(),
{
    if s.len() == 0 {
        0
    } else {
        (digits_value(s.drop_last()) * 10 + (s.last() as int - '0' as int)) as nat
    }
}

/// At least one digit and nothing else.
pub open spec fn all_digits(s: Seq<char>) -> bool {
    s.len() > 0 && forall|i: int| 0 <= i < s.len() ==> is_digit(#[trigger] s[i])
}

/// The number that `s` stands for: an optional sign, then digits.
pub open spec fn signed_value(s: Seq<char>) -> Option<int> {
    let rest = s.subrange(1, s.len() as int);
    if s.len() == 0 {
        None
    } else if s[0] == '-' {
        if all_digits(rest) {
            Some(-(digits_value(rest) as int))
        } else {
            None
        }
    } else if s[0] == '+' {
        if all_digits(rest) {
            Some(digits_value(rest) as int)
        } else {
            None
        }
    } else if all_digits(s) {
        Some(digits_value(s) as int)
    } else {
        None
    }
}

/// The `i64` that `s` stands for, where it stands for one.
pub open spec fn i64_value(s: Seq<char>) -> Option<i64> {
    match signed_value(s) {
        Some(v) => if i64::MIN <= v <= i64::MAX {
            Some(v as i64)
        } else {
            None
        },
        None => None,
    }
}

/// The digit for a number below ten.
fn digit_char(d: u64) -> (c: char)
    requires
        d < 10,
    ensures
        c == digit(d as int),
        is_digit(c),
        c as int - '0' as int == d,
{
    match d {
        0 => '0',
        1 => '1',
        2 => '2',
        3 => '3',
        4 => '4',
        5 => '5',
        6 => '6',
        7 => '7',
        8 => '8',
        _ => '9',
    }
}

/// `n` in decimal.
pub fn u64_to_string(n: u64) -> (r: String)
    ensures
        r@ == decimal(n as nat),
    decreases n,
{
    if n < 10 {
        let mut s = String::new();
        s.push(digit_char(n));
        assert(s@ =~= decimal(n as nat));
        s
    } else {
        let mut s = u64_to_string(n / 10);
        s.push(digit_char(n % 10));
        s
    }
}

/// `n` in decimal.
pub fn usize_to_string(n: usize) -> (r: String)
    ensures
        r@ == decimal(n as nat),
{
    u64_to_string(n as u64)
}

/// `n` in decimal, with its sign where it is negative.
pub fn i64_to_string(n: i64) -> (r: String)
    ensures
        r@ == decimal_int(n as int),
{
    if n < 0 {
        let mut s = String::new();
        s.push('-');
        let magnitude: u64 = if n == i64::MIN {
            9_223_372_036_854_775_808u64
        } else {
            (-n) as u64
        };
        s.append(u64_to_string(magnitude).as_str());
        assert(s@ =~= seq!['-'] + decimal((-(n as int)) as nat));
        s
    } else {
        u64_to_string(n as u64)
    }
}

/// The number below ten that a digit stands for.
fn digit_value(c: char) -> (r: Option<u128>)
    ensures
        match r {
            Some(d) => is_digit(c) && d == c as int - '0' as int,
            None => !is_digit(c),
        },
{
    match c {
        '0' => Some(0),
        '1' => Some(1),
        '2' => Some(2),
        '3' => Some(3),
        '4' => Some(4),
        '5' => Some(5),
        '6' => Some(6),
        '7' => Some(7),
        '8' => Some(8),
        '9' => Some(9),
        _ => None,
    }
}

/// A longer row of digits stands for a number at least as large.
proof fn lemma_digits_grow(s: Seq<char>, n: int)
    requires
        0 <= n <= s.len(),
        forall|i: int| 0 <= i < s.len() ==> is_digit(#[trigger] s[i]),
    ensures
        digits_value(s.subrange(0, n)) <= digits_value(s),
    decreases s.len(),
{
    if n < s.len() {
        let t = s.drop_last();
        assert forall|i: int| 0 <= i < t.len() implies is_digit(#[trigger] t[i]) by {
            assert(t[i] == s[i]);
        }
        lemma_digits_grow(t, n);
        assert(t.subrange(0, n) =~= s.subrange(0, n));
        assert(is_digit(s[s.len() - 1]));
    } else {
        assert(s.subrange(0, n) =~= s);
    }
}

/// The number that the digits `cs[from..]` stand for, up to the magnitude of
/// `i64::MIN`.
fn parse_digits(cs: &Vec<char>, from: usize) -> (r: Option<u128>)
    requires
        from <= cs@.len(),
    ensures
        ({
            let s = cs@.subrange(from as int, cs@.len() as int);
            match r {
                Some(v) => all_digits(s) && v == digits_value(s) && v <= 0x8000_0000_0000_0000,
                None => !all_digits(s) || digits_value(s) > 0x8000_0000_0000_0000,
            }
        }),
{
    let ghost s = cs@.subrange(from as int, cs@.len() as int);
    if from == cs.len() {
        return None;
    }
    let mut v: u128 = 0;
    let mut i: usize = from;
    while i < cs.len()
        invariant
            from <= i <= cs@.len(),
            s == cs@.subrange(from as int, cs@.len() as int),
            forall|k: int| 0 <= k < i - from ==> is_digit(#[trigger] s[k]),
            v == digits_value(s.subrange(0, i - from)),
            v <= 0x8000_0000_0000_0000,
        decreases cs@.len() - i,
    {
        assert(s[i - from] == cs@[i as int]);
        match digit_value(cs[i]) {
            None => {
                return None;
            },
            Some(d) => {
                let ghost sub = s.subrange(0, i - from + 1);
                assert(sub.drop_last() =~= s.subrange(0, i - from));
                v = v * 10 + d;
                i = i + 1;
                if v > 0x8000_0000_0000_0000 {
                    proof {
                        if all_digits(s) {
                            lemma_digits_grow(s, i - from);
                        }
                    }
                    return None;
                }
            },
        }
    }
    assert(s.subrange(0, i - from) =~= s);
    Some(v)
}

/// The `i64` that `s` stands for, where it stands for one.
pub fn parse_i64(s: &str) -> (r: Option<i64>)
    ensures
        r == i64_value(s@),
{
    let cs: Vec<char> = chars_of(s);
    if cs.len() == 0 {
        return None;
    }
    let negative = cs[0] == '-';
    let from: usize = if negative || cs[0] == '+' {
        1
    } else {
        0
    };
    assert(s@.subrange(0, s@.len() as int) =~= s@);
    match parse_digits(&cs, from) {
        None => None,
        Some(v) => {
            if negative {
                if v == 0x8000_0000_0000_0000 {
                    Some(i64::MIN)
                } else {
                    Some(-(v as i64))
                }
            } else if v < 0x8000_0000_0000_0000 {
                Some(v as i64)
            } else {
                None
            }
        },
    }
}

/// A decimal is made of digits and stands for the number it was made from.
pub proof fn lemma_decimal(n: nat)
    ensures
        all_digits(decimal(n)),
        digits_value(decimal(n)) == n,
    decreases n,
{
    if n < 10 {
        let s = decimal(n);
        assert(s.drop_last() =~= Seq::<char>::empty());
        assert(digits_value(s.drop_last()) == 0);
        assert(s.last() == digit(n as int));
    } else {
        lemma_decimal(n / 10);
        let s = decimal(n);
        assert(s.drop_last() =~= decimal(n / 10));
        assert(s.last() == digit((n % 10) as int));
        assert forall|i: int| 0 <= i < s.len() implies is_digit(#[trigger] s[i]) by {
            if i < s.len() - 1 {
                assert(s[i] == decimal(n / 10)[i]);
            }
        }
    }
}

/// Reading a number that was written in decimal gives the number back.
pub proof fn law_parse_undoes_decimal(n: i64)
    ensures
        i64_value(decimal_int(n as int)) == Some(n),
{
    if n < 0 {
        let d = decimal((-(n as int)) as nat);
        lemma_decimal((-(n as int)) as nat);
        let s = seq!['-'] + d;
        assert(s.subrange(1, s.len() as int) =~= d);
        assert(s[0] == '-');
    } else {
        let d = decimal(n as nat);
        lemma_decimal(n as nat);
        assert(is_digit(d[0]));
    }
}

/// Two numbers with the same decimal are the same.
pub proof fn lemma_decimal_injective(a: nat, b: nat)
    requires
        decimal(a) == decimal(b),
    ensures
        a == b,
{
    lemma_decimal(a);
    lemma_decimal(b);
}

// ---------------------------------------------------------------------------
// Words
// ---------------------------------------------------------------------------

/// `word` behind the words of `done`, where it is not empty.
pub open spec fn with_word(done: Seq<Seq<char>>, word: Seq<char>) -> Seq<Seq<char>> {
    if word.len() == 0 {
        done
    } else {
        done.push(word)
    }
}

/// The finished words of `s`, and the word that its end belongs to.
pub open spec fn words_so_far(s: Seq<char>) -> (Seq<Seq<char>>, Seq<char>)
    decreases s.len(),
{
    if s.len() == 0 {
        (Seq::empty(), Seq::empty())
    } else {
        let (done, word) = words_so_far(s.drop_last());
        if whitespace(s.last()) {
            (with_word(done, word), Seq::empty())
        } else {
            (done, word.push(s.last()))
        }
    }
}

/// The parts of `s` between blanks.
pub open spec fn words(s: Seq<char>) -> Seq<Seq<char>> {
    with_word(words_so_far(s).0, words_so_far(s).1)
}

/// The parts of `s` between blanks.
pub fn split_words(s: &str) -> (r: Vec<String>)
    ensures
        texts(r@) == words(s@),
{
    let cs: Vec<char> = chars_of(s);
    let mut done: Vec<String> = Vec::new();
    let mut word = String::new();
    let mut started: bool = false;
    let mut i: usize = 0;
    assert(cs@.subrange(0, 0) =~= Seq::<char>::empty());
    assert(texts(done@) =~= Seq::<Seq<char>>::empty());
    assert(word@ =~= Seq::<char>::empty());
    while i < cs.len()
        invariant
            i <= cs.len(),
            (texts(done@), word@) == words_so_far(cs@.subrange(0, i as int)),
            started == (word@.len() > 0),
        decreases cs.len() - i,
    {
        proof {
            let upto = cs@.subrange(0, i + 1);
            assert(upto.drop_last() =~= cs@.subrange(0, i as int));
            assert(upto.last() == cs@[i as int]);
        }
        if is_whitespace(cs[i]) {
            if started {
                let ghost was = texts(done@);
                let ghost added = word@;
                done.push(word);
                assert(texts(done@) =~= was.push(added));
            }
            word = String::new();
            assert(word@ =~= Seq::<char>::empty());
            started = false;
        } else {
            word.push(cs[i]);
            started = true;
        }
        i = i + 1;
    }
    assert(cs@.subrange(0, cs@.len() as int) =~= s@);
    if started {
        let ghost was = texts(done@);
        let ghost added = word@;
        done.push(word);
        assert(texts(done@) =~= was.push(added));
    }
    done
}

// ---------------------------------------------------------------------------
// What trimming, lines, words and the order of texts come to
// ---------------------------------------------------------------------------

/// Spaces, tabs and ends of lines are white space; no other character that can
/// be typed is.
pub proof fn law_typed_white_space(c: char, r: bool)
    requires
        call_ensures(is_whitespace, (c,), r),
        c <= '~',
    ensures
        r <==> c == ' ' || c == '\t' || c == '\n' || c == '\r' || c == '\u{b}' || c == '\u{c}',
{
}

pub(crate) proof fn lemma_trimmed_front(s: Seq<char>) -> (k: int)
    ensures
        0 <= k <= s.len(),
        trim_start(s) == s.subrange(k, s.len() as int),
        forall|i: int| 0 <= i < k ==> whitespace(#[trigger] s[i]),
        k < s.len() ==> !whitespace(s[k]),
    decreases s.len(),
{
    if s.len() > 0 && whitespace(s[0]) {
        let rest = s.subrange(1, s.len() as int);
        let k = lemma_trimmed_front(rest);
        assert(rest.subrange(k, rest.len() as int) =~= s.subrange(k + 1, s.len() as int));
        assert forall|i: int| 0 <= i < k + 1 implies whitespace(#[trigger] s[i]) by {
            if i > 0 {
                assert(rest[i - 1] == s[i]);
            }
        }
        k + 1
    } else {
        assert(s.subrange(0, s.len() as int) =~= s);
        0
    }
}

pub(crate) proof fn lemma_trimmed_back(s: Seq<char>) -> (k: int)
    ensures
        0 <= k <= s.len(),
        trim_end(s) == s.subrange(0, k),
        forall|i: int| k <= i < s.len() ==> whitespace(#[trigger] s[i]),
        k > 0 ==> !whitespace(s[k - 1]),
    decreases s.len(),
{
    if s.len() > 0 && whitespace(s.last()) {
        let front = s.drop_last();
        let k = lemma_trimmed_back(front);
        assert(front.subrange(0, k) =~= s.subrange(0, k));
        assert forall|i: int| k <= i < s.len() implies whitespace(#[trigger] s[i]) by {
            if i < s.len() - 1 {
                assert(front[i] == s[i]);
            }
        }
        k
    } else {
        assert(s.subrange(0, s.len() as int) =~= s);
        s.len() as int
    }
}

/// Trimming takes white space from both ends until none is left there, and
/// nothing else.
pub proof fn law_trimming_takes_white_space_alone(s: &str, r: String)
    requires
        call_ensures(trim, (s,), r),
    ensures
        exists|a: int, b: int|
            {
                &&& 0 <= a <= b <= s@.len()
                &&& r@ == #[trigger] s@.subrange(a, b)
                &&& forall|i: int| 0 <= i < a || b <= i < s@.len() ==> whitespace(#[trigger] s@[i])
            },
        r@.len() > 0 ==> !whitespace(r@[0]) && !whitespace(r@.last()),
{
    let a = lemma_trimmed_front(s@);
    let rest = trim_start(s@);
    let k = lemma_trimmed_back(rest);
    let b = a + k;
    assert(rest.subrange(0, k) =~= s@.subrange(a, b));
    assert forall|i: int| 0 <= i < a || b <= i < s@.len() implies whitespace(#[trigger] s@[i]) by {
        if i >= b {
            assert(rest[i - a] == s@[i]);
        }
    }
    if r@.len() > 0 {
        assert(rest[0] == s@[a]);
        assert(r@.last() == rest[k - 1]);
    }
}

proof fn lemma_nonblank(
    parts: Seq<Seq<char>>,
    f: spec_fn(Seq<char>) -> Seq<char>,
    p: spec_fn(Seq<char>) -> bool,
)
    requires
        forall|l: Seq<char>| #[trigger] f(l) == trimmed(l),
        forall|l: Seq<char>| #[trigger] p(l) == (l.len() > 0),
    ensures
        nonblank(parts) == parts.map_values(f).filter(p),
    decreases parts.len(),
{
    reveal(Seq::filter);
    let all = parts.map_values(f);
    if parts.len() > 0 {
        lemma_nonblank(parts.drop_last(), f, p);
        assert(all.drop_last() =~= parts.drop_last().map_values(f));
        assert(all.last() == trimmed(parts.last()));
    } else {
        assert(all =~= Seq::empty());
    }
}

/// Every line counts, trimmed, unless it holds white space alone.
pub proof fn law_only_blank_lines_are_left_out(s: &str, lines: Vec<String>, r: Vec<String>)
    requires
        call_ensures(split_on, (s, '\n'), lines),
        call_ensures(lines_trimmed, (s,), r),
    ensures
        texts(r@) == texts(lines@).map_values(|l: Seq<char>| trimmed(l)).filter(
            |l: Seq<char>| l.len() > 0,
        ),
{
    lemma_nonblank(texts(lines@), |l: Seq<char>| trimmed(l), |l: Seq<char>| l.len() > 0);
}

proof fn lemma_words_behind(a: Seq<char>, c: char, b: Seq<char>)
    requires
        whitespace(c),
    ensures
        words_so_far(a.push(c) + b).0 == words(a) + words_so_far(b).0,
        words_so_far(a.push(c) + b).1 == words_so_far(b).1,
    decreases b.len(),
{
    let s = a.push(c) + b;
    if b.len() == 0 {
        assert(s =~= a.push(c));
        assert(s.drop_last() =~= a);
        assert(words(a) + words_so_far(b).0 =~= words(a));
    } else {
        lemma_words_behind(a, c, b.drop_last());
        assert(s.drop_last() =~= a.push(c) + b.drop_last());
        assert(s.last() == b.last());
        let (done, word) = words_so_far(b.drop_last());
        assert((words(a) + done).push(word) =~= words(a) + done.push(word));
    }
}

proof fn lemma_one_word(w: Seq<char>)
    requires
        forall|i: int| 0 <= i < w.len() ==> !whitespace(#[trigger] w[i]),
    ensures
        words_so_far(w) == (Seq::<Seq<char>>::empty(), w),
    decreases w.len(),
{
    if w.len() > 0 {
        assert forall|i: int| 0 <= i < w.drop_last().len() implies !whitespace(
            #[trigger] w.drop_last()[i],
        ) by {
            assert(w.drop_last()[i] == w[i]);
        }
        lemma_one_word(w.drop_last());
        assert(w.drop_last().push(w.last()) =~= w);
        assert(!whitespace(w[w.len() - 1]));
    } else {
        assert(w =~= Seq::empty());
    }
}

/// Words are what white space sets apart: the words of two texts with white
/// space between them are those of the one and then those of the other, and a
/// text without white space is one word, unless it is empty.
pub proof fn law_white_space_parts_words(
    s: &str,
    a: &str,
    b: &str,
    c: char,
    rs: Vec<String>,
    ra: Vec<String>,
    rb: Vec<String>,
)
    requires
        call_ensures(split_words, (s,), rs),
        call_ensures(split_words, (a,), ra),
        call_ensures(split_words, (b,), rb),
        whitespace(c),
        s@ == a@.push(c) + b@,
        forall|i: int| 0 <= i < b@.len() ==> !whitespace(#[trigger] b@[i]),
    ensures
        texts(rs@) == texts(ra@) + texts(rb@),
        texts(rb@) == (if b@.len() == 0 {
            Seq::<Seq<char>>::empty()
        } else {
            seq![b@]
        }),
{
    lemma_words_behind(a@, c, b@);
    lemma_one_word(b@);
    let (done, word) = words_so_far(b@);
    assert(words(a@) + done =~= words(a@));
    assert(words(a@).push(word) =~= words(a@) + done.push(word));
    assert(done.push(word) =~= seq![b@]);
}

/// Texts are ordered by the first character in which they differ, and a text
/// that goes on behind another comes after it.
pub proof fn law_texts_are_ordered_by_their_first_difference(
    a: &Vec<char>,
    b: &Vec<char>,
    k: int,
    r: bool,
)
    requires
        call_ensures(str_lt, (a, b), r),
        0 <= k <= a@.len() && k <= b@.len(),
        a@.subrange(0, k) == b@.subrange(0, k),
        k < a@.len() && k < b@.len() ==> a@[k] != b@[k],
    ensures
        k < a@.len() && k < b@.len() ==> r == ((a@[k] as int) < (b@[k] as int)),
        k == a@.len() ==> r == (a@.len() < b@.len()),
        k == b@.len() ==> !r,
{
    lemma_first_difference(a@, b@, k);
}

proof fn lemma_first_difference(a: Seq<char>, b: Seq<char>, k: int)
    requires
        0 <= k <= a.len() && k <= b.len(),
        a.subrange(0, k) == b.subrange(0, k),
        k < a.len() && k < b.len() ==> a[k] != b[k],
    ensures
        k < a.len() && k < b.len() ==> text_lt(a, b) == ((a[k] as int) < (b[k] as int)),
        k == a.len() ==> text_lt(a, b) == (a.len() < b.len()),
        k == b.len() ==> !text_lt(a, b),
    decreases k,
{
    if k > 0 {
        let x = a.subrange(1, a.len() as int);
        let y = b.subrange(1, b.len() as int);
        assert(a.subrange(0, k)[0] == a[0] && b.subrange(0, k)[0] == b[0]);
        assert forall|i: int| 0 <= i < k - 1 implies #[trigger] x[i] == y[i] by {
            assert(a.subrange(0, k)[i + 1] == a[i + 1]);
            assert(b.subrange(0, k)[i + 1] == b[i + 1]);
            assert(x[i] == a[i + 1] && y[i] == b[i + 1]);
        }
        assert(x.subrange(0, k - 1) =~= y.subrange(0, k - 1));
        lemma_first_difference(x, y, k - 1);
    }
}

/// Wide text ends before its first zero.
pub proof fn law_wide_text_ends_at_a_zero(units: &Vec<u16>, r: usize)
    requires
        call_ensures(nul_position, (units,), r),
    ensures
        r <= units@.len(),
        r < units@.len() ==> units@[r as int] == 0,
        forall|i: int| 0 <= i < r ==> #[trigger] units@[i] != 0,
{
    lemma_no_zero_before(units@);
}

proof fn lemma_no_zero_before(units: Seq<u16>)
    ensures
        0 <= nul_at(units) <= units.len(),
        forall|i: int| 0 <= i < nul_at(units) ==> #[trigger] units[i] != 0,
    decreases units.len(),
{
    if units.len() > 0 && units[0] != 0 {
        let rest = units.subrange(1, units.len() as int);
        lemma_no_zero_before(rest);
        assert forall|i: int| 0 <= i < nul_at(units) implies #[trigger] units[i] != 0 by {
            if i > 0 {
                assert(rest[i - 1] == units[i]);
            }
        }
    }
}

/// A joined text holds each of its parts.
pub(crate) proof fn lemma_joined_holds(parts: Seq<Seq<char>>, sep: Seq<char>, i: int)
    requires
        0 <= i < parts.len(),
    ensures
        occurs(joined(parts, sep), parts[i]),
    decreases parts.len(),
{
    let all = joined(parts, sep);
    if parts.len() == 1 {
        assert(all.subrange(0, parts[i].len() as int) =~= parts[i]);
        assert(occurs_at(all, parts[i], 0));
    } else {
        let front = joined(parts.drop_last(), sep);
        if i == parts.len() - 1 {
            let at = (front.len() + sep.len()) as int;
            assert(all.subrange(at, at + parts[i].len()) =~= parts[i]);
            assert(occurs_at(all, parts[i], at));
        } else {
            lemma_joined_holds(parts.drop_last(), sep, i);
            let p = parts.drop_last()[i];
            assert(p == parts[i]);
            let at = choose|at: int| #[trigger] occurs_at(front, p, at);
            assert(all.subrange(at, at + p.len()) =~= front.subrange(at, at + p.len()));
            assert(occurs_at(all, p, at));
        }
    }
}

/// A text holds another just where that stands in it, character by character,
/// from some place on; it begins or ends with it where that place is its first
/// or leaves nothing behind it.
pub proof fn law_texts_hold_their_parts(
    s: &str,
    p: &str,
    holds: bool,
    begins: bool,
    ends: bool,
)
    requires
        call_ensures(contains, (s, p), holds),
        call_ensures(starts_with, (s, p), begins),
        call_ensures(ends_with, (s, p), ends),
    ensures
        holds <==> exists|at: int|
            0 <= at && at + p@.len() <= s@.len() && #[trigger] s@.subrange(at, at + p@.len()) == p@,
        begins <==> p@.len() <= s@.len() && forall|i: int|
            0 <= i < p@.len() ==> #[trigger] s@[i] == p@[i],
        ends <==> p@.len() <= s@.len() && forall|i: int|
            0 <= i < p@.len() ==> s@[s@.len() - p@.len() + i] == #[trigger] p@[i],
{
    if holds {
        let at = choose|at: int| #[trigger] occurs_at(s@, p@, at);
        assert(s@.subrange(at, at + p@.len()) == p@);
    }
    if exists|at: int|
        0 <= at && at + p@.len() <= s@.len() && #[trigger] s@.subrange(at, at + p@.len()) == p@ {
        let at = choose|at: int|
            0 <= at && at + p@.len() <= s@.len() && #[trigger] s@.subrange(at, at + p@.len()) == p@;
        assert(occurs_at(s@, p@, at));
    }
    if p@.len() <= s@.len() {
        let head = s@.subrange(0, p@.len() as int);
        let tail = s@.subrange(s@.len() - p@.len(), s@.len() as int);
        if begins {
            assert forall|i: int| 0 <= i < p@.len() implies #[trigger] s@[i] == p@[i] by {
                assert(head[i] == s@[i]);
            }
        }
        if forall|i: int| 0 <= i < p@.len() ==> #[trigger] s@[i] == p@[i] {
            assert(head =~= p@);
        }
        if ends {
            assert forall|i: int| 0 <= i < p@.len() implies s@[s@.len() - p@.len() + i]
                == #[trigger] p@[i] by {
                assert(tail[i] == s@[s@.len() - p@.len() + i]);
            }
        }
        if forall|i: int|
            0 <= i < p@.len() ==> s@[s@.len() - p@.len() + i] == #[trigger] p@[i] {
            assert(tail =~= p@);
        }
    }
}

/// Writing a number down and reading it gives the number back.
pub proof fn law_numbers_are_read_as_written(n: i64, s: String, t: &str, r: Option<i64>)
    requires
        call_ensures(i64_to_string, (n,), s),
        t@ == s@,
        call_ensures(parse_i64, (t,), r),
    ensures
        r == Some(n),
{
    law_parse_undoes_decimal(n);
}

} // verus!
