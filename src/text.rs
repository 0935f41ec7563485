//! Character-level helpers shared by the parsers.
use vstd::prelude::*;
use vstd::std_specs::iter::IteratorSpec;

verus! {

/// The characters of `s` in order.
pub(crate) fn chars_of(s: &str) -> (r: Vec<char>)
    ensures
        r@ == s@,
{
    broadcast use vstd::string::group_string_axioms;

    let mut it = s.chars();
    let mut out: Vec<char> = Vec::new();
    loop
        invariant
            it.obeys_prophetic_iter_laws(),
            out@ + it.remaining() == s@,
            it.decrease() is Some,
        decreases it.decrease()->0,
    {
        match it.next() {
            Some(c) => {
                out.push(c);
            },
            None => {
                assert(out@ + it.remaining() =~= out@);
                return out;
            },
        }
    }
}

/// Relies on `String: FromIterator<&char>`: a string made of exactly these characters.
#[verifier::external_body]
pub(crate) fn string_of(v: &[char]) -> (r: String)
    ensures
        r@ == v@,
{
    v.iter().collect()
}

/// `needle` occurs in `hay` starting at position `i`.
pub open spec fn occurs_at(hay: Seq<char>, needle: Seq<char>, i: int) -> bool {
    0 <= i && i + needle.len() <= hay.len() && hay.subrange(i, i + needle.len()) == needle
}

/// `needle` occurs somewhere in `hay`.
pub open spec fn contains_seq(hay: Seq<char>, needle: Seq<char>) -> bool {
    exists|i: int| occurs_at(hay, needle, i)
}

/// `hay` begins with `prefix`.
pub open spec fn starts_with_seq(hay: Seq<char>, prefix: Seq<char>) -> bool {
    occurs_at(hay, prefix, 0)
}

fn matches_at(hay: &[char], needle: &[char], i: usize) -> (r: bool)
    requires
        i + needle@.len() <= hay@.len(),
    ensures
        r == occurs_at(hay@, needle@, i as int),
{
    let hay_len: usize = hay.len();
    let mut k: usize = 0;
    while k < needle.len()
        invariant
            k <= needle@.len(),
            hay_len == hay@.len(),
            i + needle@.len() <= hay@.len(),
            forall|j: int| 0 <= j < k ==> hay@[i + j] == needle@[j],
        decreases needle@.len() - k,
    {
        if hay[i + k] != needle[k] {
            assert(hay@.subrange(i as int, i + needle@.len())[k as int] != needle@[k as int]);
            return false;
        }
        k = k + 1;
    }
    assert(hay@.subrange(i as int, i + needle@.len()) =~= needle@);
    true
}

/// Whether `needle` occurs anywhere in `hay`.
pub fn contains_chars(hay: &[char], needle: &[char]) -> (r: bool)
    ensures
        r == contains_seq(hay@, needle@),
{
    if needle.len() > hay.len() {
        return false;
    }
    let last: usize = hay.len() - needle.len();
    let mut i: usize = 0;
    loop
        invariant
            i <= last,
            last + needle@.len() == hay@.len(),
            forall|j: int| 0 <= j < i ==> !occurs_at(hay@, needle@, j),
        decreases last - i,
    {
        if matches_at(hay, needle, i) {
            return true;
        }
        if i == last {
            return false;
        }
        i = i + 1;
    }
}

/// Whether the text `hay` holds the literal `needle`.
pub fn contains_str(hay: &[char], needle: &str) -> (r: bool)
    ensures
        r == contains_seq(hay@, needle@),
{
    let n = chars_of(needle);
    contains_chars(hay, n.as_slice())
}

/// Whether `hay` begins with the literal `prefix`.
pub fn starts_with_str(hay: &[char], prefix: &str) -> (r: bool)
    ensures
        r == starts_with_seq(hay@, prefix@),
{
    let p = chars_of(prefix);
    if p.len() > hay.len() {
        return false;
    }
    matches_at(hay, p.as_slice(), 0)
}

/// Whether `a` and the literal `b` hold the same characters.
pub fn equals_str(a: &[char], b: &str) -> (r: bool)
    ensures
        r == (a@ == b@),
{
    let p = chars_of(b);
    if p.len() != a.len() {
        return false;
    }
    let r = matches_at(a, p.as_slice(), 0);
    assert(a@.subrange(0, a@.len() as int) =~= a@);
    r
}

/// Unicode white space, the characters that `char::is_whitespace` accepts.
pub open spec fn is_space(c: char) -> bool {
    let v = c as u32;
    (0x9 <= v && v <= 0xd) || v == 0x20 || v == 0x85 || v == 0xa0 || v == 0x1680 || (0x2000 <= v
        && v <= 0x200a) || v == 0x2028 || v == 0x2029 || v == 0x202f || v == 0x205f || v == 0x3000
}

pub fn is_space_char(c: char) -> (r: bool)
    ensures
        r == is_space(c),
{
    let v = c as u32;
    (0x9 <= v && v <= 0xd) || v == 0x20 || v == 0x85 || v == 0xa0 || v == 0x1680 || (0x2000 <= v
        && v <= 0x200a) || v == 0x2028 || v == 0x2029 || v == 0x202f || v == 0x205f || v == 0x3000
}

/// The first position at or after `i` that holds no white space (or the end).
pub open spec fn skip_space(s: Seq<char>, i: int) -> int
    decreases s.len() - i,
{
    if 0 <= i < s.len() && is_space(s[i]) {
        skip_space(s, i + 1)
    } else {
        i
    }
}

/// The first position at or after `i` that holds white space (or the end).
pub open spec fn skip_word(s: Seq<char>, i: int) -> int
    decreases s.len() - i,
{
    if 0 <= i < s.len() && !is_space(s[i]) {
        skip_word(s, i + 1)
    } else {
        i
    }
}

/// The position after the last character before `j` that is not white space
/// (or 0).
pub open spec fn back_space(s: Seq<char>, j: int) -> int
    decreases j,
{
    if 0 < j <= s.len() && is_space(s[j - 1]) {
        back_space(s, j - 1)
    } else {
        j
    }
}

/// `s` without white space at either end.
pub open spec fn trim_seq(s: Seq<char>) -> Seq<char> {
    let a = skip_space(s, 0);
    let b = back_space(s, s.len() as int);
    if a >= b {
        Seq::empty()
    } else {
        s.subrange(a, b)
    }
}

/// The first two words of `s` (runs of characters without white space), joined
/// by one space; one word or none if `s` has fewer.
pub open spec fn first_two_words(s: Seq<char>) -> Seq<char> {
    let a = skip_space(s, 0);
    let b = skip_word(s, a);
    let c = skip_space(s, b);
    let d = skip_word(s, c);
    if c == d {
        s.subrange(a, b)
    } else {
        s.subrange(a, b) + seq![' '] + s.subrange(c, d)
    }
}

pub proof fn lemma_skip_bounds(s: Seq<char>, i: int)
    requires
        0 <= i <= s.len(),
    ensures
        i <= skip_space(s, i) <= s.len(),
        i <= skip_word(s, i) <= s.len(),
        skip_space(s, i) < s.len() ==> !is_space(s[skip_space(s, i)]),
    decreases s.len() - i,
{
    if i < s.len() {
        lemma_skip_bounds(s, i + 1);
    }
}

fn skip_space_exec(s: &[char], i: usize) -> (r: usize)
    requires
        i <= s@.len(),
    ensures
        r == skip_space(s@, i as int),
{
    let mut k: usize = i;
    while k < s.len() && is_space_char(s[k])
        invariant
            i <= k <= s@.len(),
            skip_space(s@, i as int) == skip_space(s@, k as int),
        decreases s@.len() - k,
    {
        k = k + 1;
    }
    k
}

fn skip_word_exec(s: &[char], i: usize) -> (r: usize)
    requires
        i <= s@.len(),
    ensures
        r == skip_word(s@, i as int),
{
    let mut k: usize = i;
    while k < s.len() && !is_space_char(s[k])
        invariant
            i <= k <= s@.len(),
            skip_word(s@, i as int) == skip_word(s@, k as int),
        decreases s@.len() - k,
    {
        k = k + 1;
    }
    k
}

/// A copy of `s[a..b]`.
pub fn copy_range(s: &[char], a: usize, b: usize) -> (r: Vec<char>)
    requires
        a <= b <= s@.len(),
    ensures
        r@ == s@.subrange(a as int, b as int),
{
    let mut out: Vec<char> = Vec::new();
    let mut k: usize = a;
    while k < b
        invariant
            a <= k <= b <= s@.len(),
            out@ == s@.subrange(a as int, k as int),
        decreases b - k,
    {
        out.push(s[k]);
        k = k + 1;
        assert(out@ =~= s@.subrange(a as int, k as int));
    }
    out
}

/// `s` without white space at either end.
pub fn trim(s: &[char]) -> (r: Vec<char>)
    ensures
        r@ == trim_seq(s@),
{
    let a = skip_space_exec(s, 0);
    proof {
        lemma_skip_bounds(s@, 0);
    }
    if a == s.len() {
        proof {
            lemma_back_space_bounds(s@, s@.len() as int);
        }
        return Vec::new();
    }
    let mut b: usize = s.len();
    while is_space_char(s[b - 1])
        invariant
            a < b <= s@.len(),
            !is_space(s@[a as int]),
            back_space(s@, s@.len() as int) == back_space(s@, b as int),
        decreases b,
    {
        b = b - 1;
    }
    copy_range(s, a, b)
}

pub proof fn lemma_back_space_bounds(s: Seq<char>, j: int)
    requires
        0 <= j <= s.len(),
    ensures
        0 <= back_space(s, j) <= j,
        forall|k: int| back_space(s, j) <= k < j ==> is_space(#[trigger] s[k]),
    decreases j,
{
    if j > 0 {
        lemma_back_space_bounds(s, j - 1);
    }
}

/// The first two words of `s`, joined by one space.
pub fn two_words(s: &[char]) -> (r: Vec<char>)
    ensures
        r@ == first_two_words(s@),
{
    let a = skip_space_exec(s, 0);
    proof {
        lemma_skip_bounds(s@, 0);
        lemma_skip_bounds(s@, a as int);
    }
    let b = skip_word_exec(s, a);
    proof {
        lemma_skip_bounds(s@, b as int);
    }
    let c = skip_space_exec(s, b);
    proof {
        lemma_skip_bounds(s@, c as int);
    }
    let d = skip_word_exec(s, c);
    let mut out = copy_range(s, a, b);
    if c != d {
        out.push(' ');
        let second = copy_range(s, c, d);
        let mut k: usize = 0;
        let ghost first = out@;
        while k < second.len()
            invariant
                k <= second@.len(),
                out@ == first + second@.subrange(0, k as int),
            decreases second@.len() - k,
        {
            out.push(second[k]);
            k = k + 1;
            assert(out@ =~= first + second@.subrange(0, k as int));
        }
        assert(second@.subrange(0, second@.len() as int) =~= second@);
    }
    out
}

/// `s` with `p` removed from its front as many times as it stands there.
pub open spec fn strip_repeated_prefix(s: Seq<char>, p: Seq<char>) -> Seq<char>
    decreases s.len(),
{
    if p.len() > 0 && starts_with_seq(s, p) {
        strip_repeated_prefix(s.subrange(p.len() as int, s.len() as int), p)
    } else {
        s
    }
}

/// `s` with the literal `p` removed from its front as many times as it stands there.
pub fn strip_prefix_repeatedly(s: &[char], p: &str) -> (r: Vec<char>)
    ensures
        r@ == strip_repeated_prefix(s@, p@),
{
    let pc = chars_of(p);
    let n: usize = s.len();
    let mut i: usize = 0;
    if pc.len() == 0 {
        return copy_range(s, 0, n);
    }
    assert(s@.subrange(0, n as int) =~= s@);
    while pc.len() <= n - i && matches_at(s, pc.as_slice(), i)
        invariant
            i <= n == s@.len(),
            pc@ == p@,
            pc@.len() > 0,
            strip_repeated_prefix(s@, p@) == strip_repeated_prefix(
                s@.subrange(i as int, n as int),
                p@,
            ),
        decreases n - i,
    {
        let ghost rest = s@.subrange(i as int, n as int);
        assert(rest.subrange(0, pc@.len() as int) =~= s@.subrange(i as int, i + pc@.len()));
        assert(rest.subrange(pc@.len() as int, rest.len() as int) =~= s@.subrange(
            i + pc@.len(),
            n as int,
        ));
        i = i + pc.len();
    }
    proof {
        let rest = s@.subrange(i as int, n as int);
        if pc@.len() <= n - i {
            assert(rest.subrange(0, pc@.len() as int) =~= s@.subrange(i as int, i + pc@.len()));
        }
    }
    copy_range(s, i, n)
}

/// The part of `s` before the first occurrence of `c` (all of `s` if none).
pub open spec fn before_char(s: Seq<char>, c: char) -> Seq<char>
    decreases s.len(),
{
    if s.len() == 0 || s[0] == c {
        Seq::empty()
    } else {
        seq![s[0]] + before_char(s.subrange(1, s.len() as int), c)
    }
}

/// The part of `s` before the first occurrence of `c` (all of `s` if none).
pub fn prefix_before(s: &[char], c: char) -> (r: Vec<char>)
    ensures
        r@ == before_char(s@, c),
{
    let n: usize = s.len();
    let mut i: usize = 0;
    assert(s@.subrange(0, n as int) =~= s@);
    assert(s@.subrange(0, 0) + before_char(s@, c) =~= before_char(s@, c));
    while i < n && s[i] != c
        invariant
            i <= n == s@.len(),
            before_char(s@, c) == s@.subrange(0, i as int) + before_char(
                s@.subrange(i as int, n as int),
                c,
            ),
        decreases n - i,
    {
        let ghost rest = s@.subrange(i as int, n as int);
        assert(rest.subrange(1, rest.len() as int) =~= s@.subrange(i + 1, n as int));
        assert(s@.subrange(0, i as int) + (seq![s@[i as int]] + before_char(
            s@.subrange(i + 1, n as int),
            c,
        )) =~= s@.subrange(0, i + 1) + before_char(s@.subrange(i + 1, n as int), c));
        i = i + 1;
    }
    proof {
        let rest = s@.subrange(i as int, n as int);
        assert(before_char(rest, c) =~= Seq::<char>::empty());
        assert(s@.subrange(0, i as int) + Seq::<char>::empty() =~= s@.subrange(0, i as int));
    }
    copy_range(s, 0, i)
}

/// The value of a string of decimal digits.
pub open spec fn digits_value(s: Seq<char>) -> nat
    decreases s.len(),
{
    if s.len() == 0 {
        0
    } else {
        digits_value(s.drop_last()) * 10 + ((s.last() as u32) - 48) as nat
    }
}

pub open spec fn is_digit(c: char) -> bool {
    48 <= (c as u32) && (c as u32) <= 57
}

pub open spec fn all_digits(d: Seq<char>) -> bool {
    forall|i: int| 0 <= i < d.len() ==> is_digit(#[trigger] d[i])
}

/// `s` without one leading `+`.
pub open spec fn unsigned_part(s: Seq<char>) -> Seq<char> {
    if s.len() > 0 && s[0] == '+' {
        s.subrange(1, s.len() as int)
    } else {
        s
    }
}

/// What `u8::from_str` accepts: an optional `+`, then one or more decimal digits
/// whose value is at most 255.
pub open spec fn parse_u8_spec(s: Seq<char>) -> Option<u8> {
    let d = unsigned_part(s);
    if d.len() > 0 && all_digits(d) && digits_value(d) <= 255 {
        Some(digits_value(d) as u8)
    } else {
        None
    }
}

/// Reads a decimal number from 0 to 255, as `u8::from_str` does.
pub fn parse_u8(s: &[char]) -> (r: Option<u8>)
    ensures
        r == parse_u8_spec(s@),
{
    let n: usize = s.len();
    let start: usize = if n > 0 && s[0] == '+' {
        1
    } else {
        0
    };
    let ghost d = s@.subrange(start as int, n as int);
    assert(d =~= unsigned_part(s@));
    if start == n {
        return None;
    }
    let mut acc: u32 = 0;
    let mut i: usize = start;
    while i < n
        invariant
            start <= i <= n == s@.len(),
            d == s@.subrange(start as int, n as int),
            d == unsigned_part(s@),
            forall|j: int| 0 <= j < i - start ==> is_digit(#[trigger] d[j]),
            acc as nat == if digits_value(d.subrange(0, i - start)) < 256 {
                digits_value(d.subrange(0, i - start))
            } else {
                256
            },
        decreases n - i,
    {
        let c = s[i];
        let code = c as u32;
        if !(48 <= code && code <= 57) {
            assert(d[i - start] == c);
            assert(!is_digit(d[i - start]));
            assert(!all_digits(unsigned_part(s@)));
            return None;
        }
        let ghost pre = d.subrange(0, i - start);
        let ghost next = d.subrange(0, i - start + 1);
        assert(next.drop_last() =~= pre);
        let v: u32 = acc * 10 + (code - 48);
        acc = if v > 256 {
            256
        } else {
            v
        };
        i = i + 1;
    }
    assert(d.subrange(0, n - start) =~= d);
    if acc > 255 {
        None
    } else {
        Some(acc as u8)
    }
}

} // verus!
