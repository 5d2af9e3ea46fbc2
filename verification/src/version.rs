//! Versions, and the grammar by which one is found in free-form text: the
//! first run of digits, a dot, digits, a dot, digits.

use vstd::prelude::*;

verus! {

/// A released version, `major.minor.patch`. Versions are ordered by their
/// components from left to right.
#[derive(Clone, Copy, Debug, PartialEq, Eq, Structural, PartialOrd, Ord, Hash)]
pub struct Version {
    pub major: u64,
    pub minor: u64,
    pub patch: u64,
}

impl Version {
    /// `self` is a later version than `other`.
    pub open spec fn newer(self, other: Version) -> bool {
        self.major > other.major || (self.major == other.major && (self.minor > other.minor || (
        self.minor == other.minor && self.patch > other.patch)))
    }

    /// Tells whether `self` is a later version than `other`.
    pub fn is_newer_than(&self, other: &Version) -> (r: bool)
        ensures
            r == self.newer(*other),
    {
        if self.major != other.major {
            self.major > other.major
        } else if self.minor != other.minor {
            self.minor > other.minor
        } else {
            self.patch > other.patch
        }
    }
}

/// Of two versions exactly one holds: the first is newer, they are equal, or
/// the second is newer.
pub proof fn law_order_is_total(a: Version, b: Version)
    ensures
        a.newer(b) || a == b || b.newer(a),
        !(a.newer(b) && b.newer(a)),
        !(a.newer(b) && a == b),
{
}

/// Being newer carries over: newer than something newer than `c` is newer
/// than `c`.
pub proof fn law_order_is_transitive(a: Version, b: Version, c: Version)
    requires
        a.newer(b),
        b.newer(c),
    ensures
        a.newer(c),
{
}

/// An ASCII decimal digit.
pub open spec fn is_digit(c: char) -> bool {
    '0' as u32 <= c as u32 <= '9' as u32
}

/// The number that a digit stands for.
pub open spec fn digit_value(c: char) -> nat {
    (c as u32 - '0' as u32) as nat
}

/// The number that a string of digits reads as in base ten.
pub open spec fn decimal_value(digits: Seq<char>) -> nat
    decreases digits.len(),
{
    if digits.len() == 0 {
        0
    } else {
        10 * decimal_value(digits.drop_last()) + digit_value(digits.last())
    }
}

/// A component that a version can hold: no zero in front of other digits,
/// and a value that fits in 64 bits.
pub open spec fn is_component(digits: Seq<char>) -> bool {
    (digits.len() == 1 || digits[0] != '0') && decimal_value(digits) <= u64::MAX
}

/// The index just past the longest run of digits that starts at `i`.
pub open spec fn digits_end(s: Seq<char>, i: int) -> int
    decreases s.len() - i,
{
    if 0 <= i < s.len() && is_digit(s[i]) {
        digits_end(s, i + 1)
    } else {
        i
    }
}

/// Where a numeric triple lies in a text: it starts at `start`, its dots are
/// at `dot1` and `dot2`, and `end` is just past its last digit.
pub struct TripleMatch {
    pub start: int,
    pub dot1: int,
    pub dot2: int,
    pub end: int,
}

/// The version that a triple reads as, where `t` is the triple and its dots
/// stand at `a` and `b`: its three numbers, if each of them is one that a
/// version can hold.
pub open spec fn triple_version(t: Seq<char>, a: int, b: int) -> Option<Version> {
    let major = t.subrange(0, a);
    let minor = t.subrange(a + 1, b);
    let patch = t.subrange(b + 1, t.len() as int);
    if is_component(major) && is_component(minor) && is_component(patch) {
        Some(
            Version {
                major: decimal_value(major) as u64,
                minor: decimal_value(minor) as u64,
                patch: decimal_value(patch) as u64,
            },
        )
    } else {
        None
    }
}

impl TripleMatch {
    /// The triple as it stands in the text `s`.
    pub open spec fn text(self, s: Seq<char>) -> Seq<char> {
        s.subrange(self.start, self.end)
    }

    /// The version that the triple reads as, if it reads as one.
    pub open spec fn version(self, s: Seq<char>) -> Option<Version> {
        triple_version(self.text(s), self.dot1 - self.start, self.dot2 - self.start)
    }
}

/// The triple that starts exactly at `i`, each of its three runs of digits
/// taken as long as it goes.
pub open spec fn triple_at(s: Seq<char>, i: int) -> Option<TripleMatch> {
    let a = digits_end(s, i);
    let b = digits_end(s, a + 1);
    let c = digits_end(s, b + 1);
    if 0 <= i < a && a < s.len() && s[a] == '.' && a + 1 < b && b < s.len() && s[b] == '.' && b
        + 1 < c {
        Some(TripleMatch { start: i, dot1: a, dot2: b, end: c })
    } else {
        None
    }
}

/// The first triple that starts at `i` or later.
pub open spec fn first_triple_from(s: Seq<char>, i: int) -> Option<TripleMatch>
    decreases s.len() - i,
{
    if i < 0 || i >= s.len() {
        None
    } else if triple_at(s, i) is Some {
        triple_at(s, i)
    } else {
        first_triple_from(s, i + 1)
    }
}

/// The first triple of a text: the one that starts earliest.
pub open spec fn first_triple(s: Seq<char>) -> Option<TripleMatch> {
    first_triple_from(s, 0)
}

/// One or more digits, and nothing else.
pub open spec fn is_number(t: Seq<char>) -> bool {
    t.len() > 0 && forall|k: int| 0 <= k < t.len() ==> is_digit(#[trigger] t[k])
}

/// `t` reads as a number, a dot, a number, a dot and a number, with the dots
/// at `a` and `b`.
pub open spec fn is_triple_with_dots(t: Seq<char>, a: int, b: int) -> bool {
    &&& 0 <= a < b < t.len()
    &&& t[a] == '.'
    &&& t[b] == '.'
    &&& is_number(t.subrange(0, a))
    &&& is_number(t.subrange(a + 1, b))
    &&& is_number(t.subrange(b + 1, t.len() as int))
}

/// `t` reads as a number, a dot, a number, a dot and a number.
pub open spec fn is_triple(t: Seq<char>) -> bool {
    exists|a: int, b: int| is_triple_with_dots(t, a, b)
}

/// The characters of `s` from `i` up to `j` read as a triple.
pub open spec fn has_triple_at(s: Seq<char>, i: int, j: int) -> bool {
    0 <= i <= j <= s.len() && is_triple(s.subrange(i, j))
}

/// The version that a text yields: that of its first triple, where each of
/// the three numbers is one that a version can hold.
pub open spec fn version_in(s: Seq<char>) -> Option<Version> {
    match first_triple(s) {
        Some(m) => m.version(s),
        None => None,
    }
}

proof fn lemma_digits_end_run(s: Seq<char>, i: int)
    requires
        0 <= i <= s.len(),
    ensures
        i <= digits_end(s, i) <= s.len(),
        forall|k: int| i <= k < digits_end(s, i) ==> is_digit(#[trigger] s[k]),
        digits_end(s, i) == s.len() || !is_digit(s[digits_end(s, i)]),
    decreases s.len() - i,
{
    if i < s.len() && is_digit(s[i]) {
        lemma_digits_end_run(s, i + 1);
    }
}

proof fn lemma_digits_end_reaches(s: Seq<char>, i: int, e: int)
    requires
        0 <= i <= e <= s.len(),
        forall|k: int| i <= k < e ==> is_digit(#[trigger] s[k]),
    ensures
        digits_end(s, i) >= e,
        e == s.len() || !is_digit(s[e]) ==> digits_end(s, i) == e,
    decreases e - i,
{
    if i < e {
        assert(is_digit(s[i]));
        lemma_digits_end_reaches(s, i + 1, e);
    } else {
        lemma_digits_end_run(s, i);
    }
}

proof fn lemma_triple_at_sound(s: Seq<char>, i: int)
    requires
        triple_at(s, i) is Some,
    ensures
        ({
            let m = triple_at(s, i)->0;
            &&& m.start == i
            &&& 0 <= i < m.dot1 < m.dot2 < m.end <= s.len()
            &&& is_triple_with_dots(m.text(s), m.dot1 - i, m.dot2 - i)
            &&& has_triple_at(s, i, m.end)
        }),
{
    let m = triple_at(s, i)->0;
    lemma_digits_end_run(s, i);
    lemma_digits_end_run(s, m.dot1 + 1);
    lemma_digits_end_run(s, m.dot2 + 1);
    let t = m.text(s);
    let a = m.dot1 - i;
    let b = m.dot2 - i;
    assert forall|k: int| 0 <= k < t.subrange(0, a).len() implies is_digit(
        #[trigger] t.subrange(0, a)[k],
    ) by {
        assert(t.subrange(0, a)[k] == s[i + k]);
    }
    assert forall|k: int| 0 <= k < t.subrange(a + 1, b).len() implies is_digit(
        #[trigger] t.subrange(a + 1, b)[k],
    ) by {
        assert(t.subrange(a + 1, b)[k] == s[m.dot1 + 1 + k]);
    }
    assert forall|k: int| 0 <= k < t.subrange(b + 1, t.len() as int).len() implies is_digit(
        #[trigger] t.subrange(b + 1, t.len() as int)[k],
    ) by {
        assert(t.subrange(b + 1, t.len() as int)[k] == s[m.dot2 + 1 + k]);
    }
    assert(is_triple_with_dots(t, a, b));
}

proof fn lemma_triple_at_complete(s: Seq<char>, i: int, j: int, a: int, b: int)
    requires
        0 <= i <= j <= s.len(),
        is_triple_with_dots(s.subrange(i, j), a, b),
    ensures
        triple_at(s, i) matches Some(m) && m.start == i && m.dot1 == i + a && m.dot2 == i + b
            && j <= m.end,
{
    let t = s.subrange(i, j);
    assert forall|k: int| i <= k < i + a implies is_digit(#[trigger] s[k]) by {
        assert(t.subrange(0, a)[k - i] == s[k]);
    }
    assert(s[i + a] == t[a]);
    lemma_digits_end_reaches(s, i, i + a);
    assert forall|k: int| i + a + 1 <= k < i + b implies is_digit(#[trigger] s[k]) by {
        assert(t.subrange(a + 1, b)[k - i - a - 1] == s[k]);
    }
    assert(s[i + b] == t[b]);
    lemma_digits_end_reaches(s, i + a + 1, i + b);
    assert forall|k: int| i + b + 1 <= k < j implies is_digit(#[trigger] s[k]) by {
        assert(t.subrange(b + 1, t.len() as int)[k - i - b - 1] == s[k]);
    }
    lemma_digits_end_reaches(s, i + b + 1, j);
}

proof fn lemma_first_triple_from(s: Seq<char>, k: int)
    requires
        0 <= k,
    ensures
        match first_triple_from(s, k) {
            Some(m) => k <= m.start < s.len() && triple_at(s, m.start) == Some(m) && forall|
                x: int,
            | k <= x < m.start ==> triple_at(s, x) is None,
            None => forall|x: int| k <= x < s.len() ==> triple_at(s, x) is None,
        },
    decreases s.len() - k,
{
    if k < s.len() && triple_at(s, k) is None {
        lemma_first_triple_from(s, k + 1);
    }
}

/// A triple reads in one way only: its dots stand where they stand.
pub proof fn lemma_dots_are_fixed(t: Seq<char>, a: int, b: int, c: int, d: int)
    requires
        is_triple_with_dots(t, a, b),
        is_triple_with_dots(t, c, d),
    ensures
        a == c,
        b == d,
{
    if a < c {
        assert(t.subrange(0, c)[a] == t[a]);
    }
    if c < a {
        assert(t.subrange(0, a)[c] == t[c]);
    }
    if b < d {
        assert(t.subrange(c + 1, d)[b - c - 1] == t[b]);
    }
    if d < b {
        assert(t.subrange(a + 1, b)[d - a - 1] == t[d]);
    }
}

/// The first triple of a text is a triple of it, none starts before it, and
/// none that starts where it starts is longer.
pub proof fn law_first_triple_is_leftmost(s: Seq<char>)
    requires
        first_triple(s) is Some,
    ensures
        ({
            let m = first_triple(s)->0;
            &&& 0 <= m.start < m.dot1 < m.dot2 < m.end <= s.len()
            &&& is_triple_with_dots(m.text(s), m.dot1 - m.start, m.dot2 - m.start)
            &&& forall|i: int, j: int| #[trigger]
                has_triple_at(s, i, j) ==> m.start <= i && (i == m.start ==> j <= m.end)
        }),
{
    let m = first_triple(s)->0;
    lemma_first_triple_from(s, 0);
    lemma_triple_at_sound(s, m.start);
    assert forall|i: int, j: int| #[trigger] has_triple_at(s, i, j) implies m.start <= i && (i
        == m.start ==> j <= m.end) by {
        let (a, b) = choose|a: int, b: int| is_triple_with_dots(s.subrange(i, j), a, b);
        lemma_triple_at_complete(s, i, j, a, b);
    }
}

/// A text has a first triple exactly if some stretch of it reads as a triple.
pub proof fn law_triple_found_iff_present(s: Seq<char>)
    ensures
        first_triple(s) is Some <==> exists|i: int, j: int| has_triple_at(s, i, j),
{
    lemma_first_triple_from(s, 0);
    if first_triple(s) is Some {
        let m = first_triple(s)->0;
        lemma_triple_at_sound(s, m.start);
        assert(has_triple_at(s, m.start, m.end));
    }
    if exists|i: int, j: int| has_triple_at(s, i, j) {
        let (i, j) = choose|i: int, j: int| has_triple_at(s, i, j);
        let (a, b) = choose|a: int, b: int| is_triple_with_dots(s.subrange(i, j), a, b);
        lemma_triple_at_complete(s, i, j, a, b);
    }
}

/// Where a triple was found, as indices into the characters of the text.
#[derive(Clone, Copy, Debug, PartialEq, Eq, Structural)]
pub struct TripleSpan {
    pub start: usize,
    pub dot1: usize,
    pub dot2: usize,
    pub end: usize,
}

impl View for TripleSpan {
    type V = TripleMatch;

    open spec fn view(&self) -> TripleMatch {
        TripleMatch {
            start: self.start as int,
            dot1: self.dot1 as int,
            dot2: self.dot2 as int,
            end: self.end as int,
        }
    }
}

/// Tells whether `c` is an ASCII decimal digit.
pub fn digit(c: char) -> (r: bool)
    ensures
        r == is_digit(c),
{
    let n: u32 = c as u32;
    48 <= n && n <= 57
}

/// Walks over the digits that start at `i` and returns the index of the
/// first character that is none.
pub fn skip_digits(s: &Vec<char>, i: usize) -> (e: usize)
    requires
        i <= s.len(),
    ensures
        e == digits_end(s@, i as int),
        i <= e <= s.len(),
{
    let mut e: usize = i;
    while e < s.len() && digit(s[e])
        invariant
            i <= e <= s.len(),
            digits_end(s@, e as int) == digits_end(s@, i as int),
        decreases s.len() - e,
    {
        e = e + 1;
    }
    e
}

/// The triple that starts exactly at `i`, if there is one.
pub fn match_triple_at(s: &Vec<char>, i: usize) -> (r: Option<TripleSpan>)
    requires
        i < s.len(),
    ensures
        match r {
            Some(m) => triple_at(s@, i as int) == Some(m@),
            None => triple_at(s@, i as int) is None,
        },
{
    let a: usize = skip_digits(s, i);
    if a == i || a >= s.len() || s[a] != '.' {
        return None;
    }
    let b: usize = skip_digits(s, a + 1);
    if b == a + 1 || b >= s.len() || s[b] != '.' {
        return None;
    }
    let c: usize = skip_digits(s, b + 1);
    if c == b + 1 {
        return None;
    }
    Some(TripleSpan { start: i, dot1: a, dot2: b, end: c })
}

/// Finds the first numeric triple of a text.
pub fn find_triple(s: &Vec<char>) -> (r: Option<TripleSpan>)
    ensures
        match r {
            Some(m) => first_triple(s@) == Some(m@),
            None => first_triple(s@) is None,
        },
{
    let mut i: usize = 0;
    while i < s.len()
        invariant
            i <= s.len(),
            first_triple_from(s@, i as int) == first_triple(s@),
        decreases s.len() - i,
    {
        let found = match_triple_at(s, i);
        if found.is_some() {
            return found;
        }
        i = i + 1;
    }
    None
}

} // verus!
