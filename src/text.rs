//! Character-level helpers shared by the parsers: character classes, runs,
//! trimming, and the decimal-number grammar.
use vstd::prelude::*;
use vstd::std_specs::iter::IteratorSpec;

verus! {

broadcast use vstd::string::group_string_axioms;

/// A class of characters that a run or a trim works on.
#[derive(Clone, Copy)]
pub enum CharClass {
    /// Unicode `White_Space`.
    Space,
    /// Anything but white space.
    NonSpace,
    /// An ASCII decimal digit.
    Digit,
    /// Exactly this character.
    Is(char),
    /// Any character but this one.
    IsNot(char),
}

/// Unicode `White_Space`, the set that `char::is_whitespace` tests.
pub open spec fn is_space(c: char) -> bool {
    let u = c as u32;
    (0x09 <= u && u <= 0x0d) || u == 0x20 || u == 0x85 || u == 0xa0 || u == 0x1680 || (0x2000
        <= u && u <= 0x200a) || u == 0x2028 || u == 0x2029 || u == 0x202f || u == 0x205f || u
        == 0x3000
}

pub open spec fn is_digit(c: char) -> bool {
    '0' <= c && c <= '9'
}

pub open spec fn in_class(c: char, k: CharClass) -> bool {
    match k {
        CharClass::Space => is_space(c),
        CharClass::NonSpace => !is_space(c),
        CharClass::Digit => is_digit(c),
        CharClass::Is(d) => c == d,
        CharClass::IsNot(d) => c != d,
    }
}

pub fn space_char(c: char) -> (r: bool)
    ensures
        r == is_space(c),
{
    let u = c as u32;
    (0x09 <= u && u <= 0x0d) || u == 0x20 || u == 0x85 || u == 0xa0 || u == 0x1680 || (0x2000 <= u
        && u <= 0x200a) || u == 0x2028 || u == 0x2029 || u == 0x202f || u == 0x205f || u == 0x3000
}

pub fn class_has(c: char, k: CharClass) -> (r: bool)
    ensures
        r == in_class(c, k),
{
    match k {
        CharClass::Space => space_char(c),
        CharClass::NonSpace => !space_char(c),
        CharClass::Digit => '0' <= c && c <= '9',
        CharClass::Is(d) => c == d,
        CharClass::IsNot(d) => c != d,
    }
}

/// Length of the longest prefix of `s` whose characters are all in `k`.
pub open spec fn run_len(s: Seq<char>, k: CharClass) -> nat
    decreases s.len(),
{
    if s.len() > 0 && in_class(s[0], k) {
        1 + run_len(s.drop_first(), k)
    } else {
        0
    }
}

/// Length of the longest suffix of `s` whose characters are all in `k`.
pub open spec fn trail_len(s: Seq<char>, k: CharClass) -> nat
    decreases s.len(),
{
    if s.len() > 0 && in_class(s.last(), k) {
        1 + trail_len(s.drop_last(), k)
    } else {
        0
    }
}

/// `s` without its leading characters of class `k`.
pub open spec fn strip_start(s: Seq<char>, k: CharClass) -> Seq<char> {
    s.skip(run_len(s, k) as int)
}

/// `s` without its trailing characters of class `k`.
pub open spec fn strip_end(s: Seq<char>, k: CharClass) -> Seq<char> {
    s.take(s.len() - trail_len(s, k))
}

/// `s` without leading and trailing characters of class `k`.
pub open spec fn strip(s: Seq<char>, k: CharClass) -> Seq<char> {
    strip_end(strip_start(s, k), k)
}

/// `s` without surrounding white space.
pub open spec fn trim(s: Seq<char>) -> Seq<char> {
    strip(s, CharClass::Space)
}

/// `s` with every white-space character taken out.
pub open spec fn without_space(s: Seq<char>) -> Seq<char> {
    s.filter(|c: char| !is_space(c))
}

pub proof fn lemma_run_len_bound(s: Seq<char>, k: CharClass)
    ensures
        run_len(s, k) <= s.len(),
        forall|i: int| 0 <= i < run_len(s, k) ==> in_class(#[trigger] s[i], k),
        run_len(s, k) < s.len() ==> !in_class(s[run_len(s, k) as int], k),
    decreases s.len(),
{
    if s.len() > 0 && in_class(s[0], k) {
        lemma_run_len_bound(s.drop_first(), k);
        assert forall|i: int| 0 <= i < run_len(s, k) implies in_class(#[trigger] s[i], k) by {
            if i > 0 {
                assert(s[i] == s.drop_first()[i - 1]);
            }
        }
    }
}

pub proof fn lemma_trail_len_bound(s: Seq<char>, k: CharClass)
    ensures
        trail_len(s, k) <= s.len(),
        forall|i: int| s.len() - trail_len(s, k) <= i < s.len() ==> in_class(#[trigger] s[i], k),
        trail_len(s, k) < s.len() ==> !in_class(s[s.len() - trail_len(s, k) - 1], k),
    decreases s.len(),
{
    if s.len() > 0 && in_class(s.last(), k) {
        lemma_trail_len_bound(s.drop_last(), k);
        assert forall|i: int| s.len() - trail_len(s, k) <= i < s.len() implies in_class(
            #[trigger] s[i],
            k,
        ) by {
            if i < s.len() - 1 {
                assert(s[i] == s.drop_last()[i]);
            }
        }
    }
}

/// The end of the run of class `k` that starts at `start`.
pub fn run_end(s: &Vec<char>, start: usize, k: CharClass) -> (r: usize)
    requires
        start <= s@.len(),
    ensures
        start <= r <= s@.len(),
        r == start + run_len(s@.skip(start as int), k),
{
    let mut i = start;
    while i < s.len() && class_has(s[i], k)
        invariant
            start <= i <= s@.len(),
            run_len(s@.skip(start as int), k) == (i - start) + run_len(s@.skip(i as int), k),
        decreases s@.len() - i,
    {
        assert(s@.skip(i as int).drop_first() =~= s@.skip(i as int + 1));
        i = i + 1;
    }
    if i == s.len() {
        assert(s@.skip(i as int).len() == 0);
    }
    i
}

/// The start of the run of class `k` that ends at `end`.
pub fn trail_start(s: &Vec<char>, end: usize, k: CharClass) -> (r: usize)
    requires
        end <= s@.len(),
    ensures
        r <= end,
        r == end - trail_len(s@.take(end as int), k),
{
    let mut i = end;
    while i > 0 && class_has(s[i - 1], k)
        invariant
            i <= end <= s@.len(),
            trail_len(s@.take(end as int), k) == (end - i) + trail_len(s@.take(i as int), k),
        decreases i,
    {
        assert(s@.take(i as int).drop_last() =~= s@.take(i as int - 1));
        i = i - 1;
    }
    i
}

/// The characters of `s` from `a` to `b`.
pub fn slice_of(s: &Vec<char>, a: usize, b: usize) -> (r: Vec<char>)
    requires
        a <= b <= s@.len(),
    ensures
        r@ == s@.subrange(a as int, b as int),
{
    let mut r: Vec<char> = Vec::new();
    let mut i = a;
    while i < b
        invariant
            a <= i <= b <= s@.len(),
            r@ == s@.subrange(a as int, i as int),
        decreases b - i,
    {
        r.push(s[i]);
        i = i + 1;
    }
    r
}

/// `s` without leading and trailing characters of class `k`.
pub fn strip_chars(s: &Vec<char>, k: CharClass) -> (r: Vec<char>)
    ensures
        r@ == strip(s@, k),
{
    let a = run_end(s, 0, k);
    assert(s@.skip(0) =~= s@);
    let t = slice_of(s, a, s.len());
    let b = trail_start(&t, t.len(), k);
    assert(t@.take(t@.len() as int) =~= t@);
    slice_of(&t, 0, b)
}

/// `s` without its leading characters of class `k`.
pub fn strip_start_chars(s: &Vec<char>, k: CharClass) -> (r: Vec<char>)
    ensures
        r@ == strip_start(s@, k),
{
    let a = run_end(s, 0, k);
    assert(s@.skip(0) =~= s@);
    slice_of(s, a, s.len())
}

/// `s` without its trailing characters of class `k`.
pub fn strip_end_chars(s: &Vec<char>, k: CharClass) -> (r: Vec<char>)
    ensures
        r@ == strip_end(s@, k),
{
    let b = trail_start(s, s.len(), k);
    assert(s@.take(s@.len() as int) =~= s@);
    slice_of(s, 0, b)
}

/// `s` without surrounding white space.
pub fn trim_chars(s: &Vec<char>) -> (r: Vec<char>)
    ensures
        r@ == trim(s@),
{
    strip_chars(s, CharClass::Space)
}

/// `s` with every white-space character taken out.
pub fn remove_space(s: &Vec<char>) -> (r: Vec<char>)
    ensures
        r@ == without_space(s@),
{
    let mut r: Vec<char> = Vec::new();
    let mut i: usize = 0;
    while i < s.len()
        invariant
            i <= s@.len(),
            r@ == without_space(s@.take(i as int)),
        decreases s@.len() - i,
    {
        let c = s[i];
        proof {
            reveal(Seq::filter);
            let p = s@.take(i as int + 1);
            assert(p.drop_last() =~= s@.take(i as int));
            assert(p =~= s@.take(i as int).push(c));
        }
        if !class_has(c, CharClass::Space) {
            r.push(c);
        }
        i = i + 1;
    }
    assert(s@.take(s@.len() as int) =~= s@);
    r
}

/// The characters of a string slice.
pub fn chars_of(s: &str) -> (r: Vec<char>)
    ensures
        r@ == s@,
{
    let mut r: Vec<char> = Vec::new();
    let mut it = s.chars();
    loop
        invariant
            r@ + it.remaining() == s@,
            it.obeys_prophetic_iter_laws(),
            it.decrease() is Some,
        ensures
            r@ == s@,
        decreases it.decrease()->0,
    {
        match it.next() {
            Some(c) => {
                r.push(c);
            },
            None => {
                assert(it.remaining().len() == 0);
                assert(r@ + it.remaining() =~= r@);
                break;
            },
        }
    }
    r
}

/// Relies on `String: FromIterator<&char>`: the string holds the characters in order.
#[verifier::external_body]
pub(crate) fn string_of(v: &Vec<char>) -> (r: String)
    ensures
        r@ == v@,
{
    v.iter().collect()
}

/// Whether the characters from `a` to `b` spell `lit`.
pub fn is_text(s: &Vec<char>, a: usize, b: usize, lit: &str) -> (r: bool)
    requires
        a <= b <= s@.len(),
    ensures
        r == (s@.subrange(a as int, b as int) == lit@),
{
    let n = lit.unicode_len();
    if b - a != n {
        return false;
    }
    let mut i: usize = 0;
    while i < n
        invariant
            i <= n == lit@.len() == b - a,
            a <= b <= s@.len(),
            forall|j: int| 0 <= j < i ==> s@[a + j] == lit@[j],
        decreases n - i,
    {
        if s[a + i] != lit.get_char(i) {
            assert(s@.subrange(a as int, b as int)[i as int] != lit@[i as int]);
            return false;
        }
        i = i + 1;
    }
    assert(s@.subrange(a as int, b as int) =~= lit@);
    true
}

/// Whether `s` is exactly `lit`.
pub fn equals_text(s: &Vec<char>, lit: &str) -> (r: bool)
    ensures
        r == (s@ == lit@),
{
    assert(s@.subrange(0, s@.len() as int) =~= s@);
    is_text(s, 0, s.len(), lit)
}

} // verus!
