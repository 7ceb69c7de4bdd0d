//! Character-level groundwork shared by the converters: whitespace tests,
//! ASCII case folding, substring search and size measures, all stated over
//! `Seq<char>`.

use vstd::prelude::*;
use vstd::std_specs::iter::IteratorSpec;

verus! {

/// The white-space characters, as Unicode defines the property.
pub open spec fn is_space(c: char) -> bool {
    ||| c == ' '
    ||| c == '\t'
    ||| c == '\n'
    ||| c == '\r'
    ||| c as u32 == 0x0B
    ||| c as u32 == 0x0C
    ||| c as u32 == 0x85
    ||| c as u32 == 0xA0
    ||| c as u32 == 0x1680
    ||| (0x2000 <= c as u32 && c as u32 <= 0x200A)
    ||| c as u32 == 0x2028
    ||| c as u32 == 0x2029
    ||| c as u32 == 0x202F
    ||| c as u32 == 0x205F
    ||| c as u32 == 0x3000
}

pub fn char_is_space(c: char) -> (r: bool)
    ensures
        r == is_space(c),
{
    let u = c as u32;
    u == 0x20 || u == 0x09 || u == 0x0A || u == 0x0D || u == 0x0B || u == 0x0C || u == 0x85 || u
        == 0xA0 || u == 0x1680 || (0x2000 <= u && u <= 0x200A) || u == 0x2028 || u == 0x2029 || u
        == 0x202F || u == 0x205F || u == 0x3000
}

/// The characters of `s`, in order.
pub fn chars_of(s: &str) -> (r: Vec<char>)
    ensures
        r@ == s@,
{
    broadcast use vstd::string::group_string_axioms;

    let ghost gs = s@;
    let mut it = s.chars();
    let mut r: Vec<char> = Vec::new();
    loop
        invariant_except_break
            it.obeys_prophetic_iter_laws(),
            it.decrease() is Some,
            gs == r@ + it.remaining(),
        ensures
            r@ == gs,
        decreases it.decrease()->0,
    {
        let ghost rem = it.remaining();
        match it.next() {
            Some(c) => {
                r.push(c);
                proof {
                    assert(r@ + it.remaining() =~= r@.drop_last() + rem);
                }
            },
            None => {
                proof {
                    assert(gs =~= r@);
                }
                break ;
            },
        }
    }
    r
}

/// Relies on `String::push`: appends exactly the given character.
#[verifier::external_body]
pub(crate) fn push_char(s: &mut String, c: char)
    ensures
        final(s)@ == old(s)@.push(c),
{
    s.push(c);
}

/// ASCII case folding: the code point of `c` with upper-case letters mapped
/// to lower case. All other characters fold to themselves.
pub open spec fn fold_c(c: char) -> int {
    if 65 <= c as u32 <= 90 {
        c as u32 + 32
    } else {
        c as u32 as int
    }
}

/// Case-insensitive equality of two character sequences (ASCII folding).
pub open spec fn eq_ci(a: Seq<char>, b: Seq<char>) -> bool {
    a.len() == b.len() && forall|i: int| 0 <= i < a.len() ==> fold_c(a[i]) == fold_c(b[i])
}

pub fn char_eq_ci(a: char, b: char) -> (r: bool)
    ensures
        r == (fold_c(a) == fold_c(b)),
{
    let ua = a as u32;
    let ub = b as u32;
    let fa = if 65 <= ua && ua <= 90 {
        ua + 32
    } else {
        ua
    };
    let fb = if 65 <= ub && ub <= 90 {
        ub + 32
    } else {
        ub
    };
    fa == fb
}

/// The needle `n` occurs in `h` at position `i`, character for character.
pub open spec fn match_at(h: Seq<char>, n: Seq<char>, i: int) -> bool {
    0 <= i && i + n.len() <= h.len() && h.subrange(i, i + n.len() as int) == n
}

/// The needle `n` occurs in `h` at position `i` up to ASCII case.
pub open spec fn match_at_ci(h: Seq<char>, n: Seq<char>, i: int) -> bool {
    0 <= i && i + n.len() <= h.len() && eq_ci(h.subrange(i, i + n.len() as int), n)
}

pub open spec fn contains_sub(h: Seq<char>, n: Seq<char>) -> bool {
    exists|i: int| match_at(h, n, i)
}

pub open spec fn contains_sub_ci(h: Seq<char>, n: Seq<char>) -> bool {
    exists|i: int| match_at_ci(h, n, i)
}

fn check_match_at(h: &Vec<char>, n: &Vec<char>, i: usize, ci: bool) -> (r: bool)
    requires
        i + n@.len() <= h@.len(),
    ensures
        ci ==> r == match_at_ci(h@, n@, i as int),
        !ci ==> r == match_at(h@, n@, i as int),
{
    let hlen = h.len();
    let mut k: usize = 0;
    while k < n.len()
        invariant
            k <= n@.len(),
            i + n@.len() <= h@.len(),
            h@.len() <= usize::MAX,
            forall|t: int|
                0 <= t < k ==> if ci {
                    fold_c(h@[i + t]) == fold_c(n@[t])
                } else {
                    h@[i + t] == n@[t]
                },
        decreases n@.len() - k,
    {
        let same = if ci {
            char_eq_ci(h[i + k], n[k])
        } else {
            h[i + k] == n[k]
        };
        if !same {
            proof {
                let sub = h@.subrange(i as int, i + n@.len() as int);
                assert(sub[k as int] == h@[i + k]);
                if ci {
                    assert(!eq_ci(sub, n@));
                } else {
                    assert(sub != n@);
                }
            }
            return false;
        }
        k = k + 1;
    }
    proof {
        let sub = h@.subrange(i as int, i + n@.len() as int);
        if ci {
            assert(eq_ci(sub, n@));
        } else {
            assert(sub =~= n@);
        }
    }
    true
}

/// The first position where `n` occurs in `h`, if any.
pub fn find_sub(h: &Vec<char>, n: &Vec<char>) -> (r: Option<usize>)
    ensures
        match r {
            Some(i) => match_at(h@, n@, i as int) && forall|j: int|
                0 <= j < i ==> !match_at(h@, n@, j),
            None => forall|j: int| !match_at(h@, n@, j),
        },
{
    if n.len() > h.len() {
        return None;
    }
    if n.len() == 0 {
        proof {
            assert(h@.subrange(0, 0) =~= n@);
        }
        return Some(0);
    }
    let last = h.len() - n.len();
    let mut i: usize = 0;
    while i <= last
        invariant
            1 <= n@.len() <= h@.len(),
            h@.len() <= usize::MAX,
            last == h@.len() - n@.len(),
            i <= last + 1,
            forall|j: int| 0 <= j < i ==> !match_at(h@, n@, j),
        decreases last + 1 - i,
    {
        if check_match_at(h, n, i, false) {
            return Some(i);
        }
        i = i + 1;
    }
    None
}

/// The first position where `n` occurs in `h` up to ASCII case, if any.
pub fn find_sub_ci(h: &Vec<char>, n: &Vec<char>) -> (r: Option<usize>)
    ensures
        match r {
            Some(i) => match_at_ci(h@, n@, i as int) && forall|j: int|
                0 <= j < i ==> !match_at_ci(h@, n@, j),
            None => forall|j: int| !match_at_ci(h@, n@, j),
        },
{
    if n.len() > h.len() {
        return None;
    }
    if n.len() == 0 {
        proof {
            assert(h@.subrange(0, 0) =~= Seq::<char>::empty());
            assert(eq_ci(h@.subrange(0, 0), n@));
        }
        return Some(0);
    }
    let last = h.len() - n.len();
    let mut i: usize = 0;
    while i <= last
        invariant
            1 <= n@.len() <= h@.len(),
            h@.len() <= usize::MAX,
            last == h@.len() - n@.len(),
            i <= last + 1,
            forall|j: int| 0 <= j < i ==> !match_at_ci(h@, n@, j),
        decreases last + 1 - i,
    {
        if check_match_at(h, n, i, true) {
            return Some(i);
        }
        i = i + 1;
    }
    None
}

/// The last position where `n` occurs in `h`, if any.
pub fn rfind_sub(h: &Vec<char>, n: &Vec<char>) -> (r: Option<usize>)
    ensures
        match r {
            Some(i) => match_at(h@, n@, i as int) && forall|j: int|
                i < j ==> !match_at(h@, n@, j),
            None => forall|j: int| !match_at(h@, n@, j),
        },
{
    if n.len() > h.len() {
        return None;
    }
    if n.len() == 0 {
        let e = h.len();
        proof {
            assert(h@.subrange(h@.len() as int, h@.len() as int) =~= n@);
        }
        return Some(e);
    }
    let last = h.len() - n.len();
    let mut i: usize = last + 1;
    while i > 0
        invariant
            1 <= n@.len() <= h@.len(),
            h@.len() <= usize::MAX,
            last == h@.len() - n@.len(),
            i <= last + 1,
            forall|j: int| i <= j ==> !match_at(h@, n@, j),
        decreases i,
    {
        i = i - 1;
        if check_match_at(h, n, i, false) {
            return Some(i);
        }
    }
    None
}

pub fn contains(h: &Vec<char>, n: &Vec<char>) -> (r: bool)
    ensures
        r == contains_sub(h@, n@),
{
    find_sub(h, n).is_some()
}

pub fn contains_ci(h: &Vec<char>, n: &Vec<char>) -> (r: bool)
    ensures
        r == contains_sub_ci(h@, n@),
{
    find_sub_ci(h, n).is_some()
}

/// The first position at or after `i` where `n` occurs in `h`.
pub open spec fn first_match_from(h: Seq<char>, n: Seq<char>, i: int) -> Option<int>
    decreases h.len() - i + 1,
{
    if i < 0 || i + n.len() > h.len() {
        None
    } else if match_at(h, n, i) {
        Some(i)
    } else {
        first_match_from(h, n, i + 1)
    }
}

/// The first position where `n` occurs in `h`.
pub open spec fn first_match(h: Seq<char>, n: Seq<char>) -> Option<int> {
    first_match_from(h, n, 0)
}

/// The last position at or before `i` where `n` occurs in `h`.
pub open spec fn last_match_from(h: Seq<char>, n: Seq<char>, i: int) -> Option<int>
    decreases i + 1,
{
    if i < 0 {
        None
    } else if match_at(h, n, i) {
        Some(i)
    } else {
        last_match_from(h, n, i - 1)
    }
}

/// The last position where `n` occurs in `h`.
pub open spec fn last_match(h: Seq<char>, n: Seq<char>) -> Option<int> {
    last_match_from(h, n, h.len() - n.len())
}

pub proof fn lemma_first_match_found(h: Seq<char>, n: Seq<char>, lo: int, i: int)
    requires
        0 <= lo <= i,
        match_at(h, n, i),
        forall|j: int| lo <= j < i ==> !match_at(h, n, j),
    ensures
        first_match_from(h, n, lo) == Some(i),
    decreases i - lo,
{
    if lo < i {
        lemma_first_match_found(h, n, lo + 1, i);
    }
}

pub proof fn lemma_first_match_none(h: Seq<char>, n: Seq<char>, lo: int)
    requires
        0 <= lo,
        forall|j: int| lo <= j ==> !match_at(h, n, j),
    ensures
        first_match_from(h, n, lo) is None,
    decreases h.len() - lo + 1,
{
    if !(lo + n.len() > h.len()) {
        lemma_first_match_none(h, n, lo + 1);
    }
}

pub proof fn lemma_last_match_found(h: Seq<char>, n: Seq<char>, hi: int, i: int)
    requires
        i <= hi,
        match_at(h, n, i),
        forall|j: int| i < j <= hi ==> !match_at(h, n, j),
    ensures
        last_match_from(h, n, hi) == Some(i),
    decreases hi - i,
{
    if i < hi {
        lemma_last_match_found(h, n, hi - 1, i);
    }
}

pub proof fn lemma_last_match_none(h: Seq<char>, n: Seq<char>, hi: int)
    requires
        forall|j: int| j <= hi ==> !match_at(h, n, j),
    ensures
        last_match_from(h, n, hi) is None,
    decreases hi + 1,
{
    if hi >= 0 {
        lemma_last_match_none(h, n, hi - 1);
    }
}

/// What a `first_match_from` value means: a found position matches with
/// none earlier; no value means no match anywhere from `lo` on.
pub proof fn lemma_first_match_from_inv(h: Seq<char>, n: Seq<char>, lo: int)
    requires
        0 <= lo,
    ensures
        match first_match_from(h, n, lo) {
            Some(i) => lo <= i && match_at(h, n, i) && forall|j: int|
                lo <= j < i ==> !match_at(h, n, j),
            None => forall|j: int| lo <= j ==> !match_at(h, n, j),
        },
    decreases h.len() - lo + 1,
{
    if lo + n.len() > h.len() {
        assert forall|j: int| lo <= j implies !match_at(h, n, j) by {
            if match_at(h, n, j) {
                assert(j + n.len() <= h.len());
            }
        }
    } else if match_at(h, n, lo) {
    } else {
        lemma_first_match_from_inv(h, n, lo + 1);
    }
}

/// Relates the search function to the `first_match` spec.
pub fn find_first(h: &Vec<char>, n: &Vec<char>) -> (r: Option<usize>)
    ensures
        match r {
            Some(i) => first_match(h@, n@) == Some(i as int) && match_at(h@, n@, i as int),
            None => first_match(h@, n@) is None,
        },
{
    let r = find_sub(h, n);
    proof {
        match r {
            Some(i) => lemma_first_match_found(h@, n@, 0, i as int),
            None => lemma_first_match_none(h@, n@, 0),
        }
    }
    r
}

/// Relates the search function to the `last_match` spec.
pub fn find_last(h: &Vec<char>, n: &Vec<char>) -> (r: Option<usize>)
    ensures
        match r {
            Some(i) => last_match(h@, n@) == Some(i as int) && match_at(h@, n@, i as int),
            None => last_match(h@, n@) is None,
        },
{
    let r = rfind_sub(h, n);
    proof {
        match r {
            Some(i) => {
                assert(i + n@.len() <= h@.len());
                lemma_last_match_found(h@, n@, h@.len() - n@.len(), i as int);
            },
            None => lemma_last_match_none(h@, n@, h@.len() - n@.len()),
        }
    }
    r
}

/// The characters of `v` from `a` (inclusive) to `b` (exclusive).
pub fn sub_vec(v: &Vec<char>, a: usize, b: usize) -> (r: Vec<char>)
    requires
        a <= b <= v@.len(),
    ensures
        r@ == v@.subrange(a as int, b as int),
{
    let mut r: Vec<char> = Vec::new();
    let mut i: usize = a;
    while i < b
        invariant
            a <= i <= b <= v@.len(),
            r@ == v@.subrange(a as int, i as int),
        decreases b - i,
    {
        r.push(v[i]);
        i = i + 1;
    }
    proof {
        assert(r@ =~= v@.subrange(a as int, b as int));
    }
    r
}

/// `p` is a prefix of `s`.
pub open spec fn is_prefix(p: Seq<char>, s: Seq<char>) -> bool {
    match_at(s, p, 0)
}

pub fn starts_with(s: &Vec<char>, p: &Vec<char>) -> (r: bool)
    ensures
        r == is_prefix(p@, s@),
{
    if p.len() > s.len() {
        return false;
    }
    check_match_at(s, p, 0, false)
}

/// `s` with its leading white space dropped.
pub open spec fn trim_left(s: Seq<char>) -> Seq<char>
    decreases s.len(),
{
    if s.len() == 0 {
        s
    } else if is_space(s[0]) {
        trim_left(s.drop_first())
    } else {
        s
    }
}

/// `s` with its trailing white space dropped.
pub open spec fn trim_right(s: Seq<char>) -> Seq<char>
    decreases s.len(),
{
    if s.len() == 0 {
        s
    } else if is_space(s.last()) {
        trim_right(s.drop_last())
    } else {
        s
    }
}

/// `s` with leading and trailing white space dropped.
pub open spec fn trim_of(s: Seq<char>) -> Seq<char> {
    trim_right(trim_left(s))
}

proof fn lemma_trim_left_index(s: Seq<char>, lo: int)
    requires
        0 <= lo <= s.len(),
        forall|t: int| 0 <= t < lo ==> is_space(s[t]),
        lo == s.len() || !is_space(s[lo]),
    ensures
        trim_left(s) == s.subrange(lo, s.len() as int),
    decreases lo,
{
    if lo == 0 {
        assert(s.subrange(0, s.len() as int) =~= s);
    } else {
        lemma_trim_left_index(s.drop_first(), lo - 1);
        assert(s.drop_first().subrange(lo - 1, s.drop_first().len() as int) =~= s.subrange(
            lo,
            s.len() as int,
        ));
    }
}

proof fn lemma_trim_right_index(s: Seq<char>, hi: int)
    requires
        0 <= hi <= s.len(),
        forall|t: int| hi <= t < s.len() ==> is_space(s[t]),
        hi == 0 || !is_space(s[hi - 1]),
    ensures
        trim_right(s) == s.subrange(0, hi),
    decreases s.len(),
{
    if hi == s.len() {
        assert(s.subrange(0, hi) =~= s);
    } else {
        lemma_trim_right_index(s.drop_last(), hi);
        assert(s.drop_last().subrange(0, hi) =~= s.subrange(0, hi));
    }
}

/// The characters of `v` with leading and trailing white space dropped.
pub fn trim(v: &Vec<char>) -> (r: Vec<char>)
    ensures
        r@ == trim_of(v@),
{
    let n = v.len();
    let mut lo: usize = 0;
    while lo < n && char_is_space(v[lo])
        invariant
            lo <= n,
            n == v@.len(),
            forall|t: int| 0 <= t < lo ==> is_space(v@[t]),
        decreases n - lo,
    {
        lo = lo + 1;
    }
    let mut hi: usize = n;
    while hi > lo && char_is_space(v[hi - 1])
        invariant
            lo <= hi <= n,
            n == v@.len(),
            forall|t: int| hi <= t < n ==> is_space(v@[t]),
        decreases hi,
    {
        hi = hi - 1;
    }
    let mut r: Vec<char> = Vec::new();
    let mut i: usize = lo;
    while i < hi
        invariant
            lo <= i <= hi <= n,
            n == v@.len(),
            r@ == v@.subrange(lo as int, i as int),
        decreases hi - i,
    {
        r.push(v[i]);
        i = i + 1;
    }
    proof {
        lemma_trim_left_index(v@, lo as int);
        let t = v@.subrange(lo as int, n as int);
        lemma_trim_right_index(t, hi - lo);
        assert(t.subrange(0, hi - lo) =~= v@.subrange(lo as int, hi as int));
        assert(r@ =~= v@.subrange(lo as int, hi as int));
    }
    r
}

/// UTF-16 code units taken by one character: two for the supplementary
/// planes (surrogate pairs), one otherwise.
pub open spec fn utf16_units(c: char) -> int {
    if (c as u32) >= 0x10000 {
        2
    } else {
        1
    }
}

/// Length of `s` in UTF-16 code units.
pub open spec fn utf16_len(s: Seq<char>) -> int
    decreases s.len(),
{
    if s.len() == 0 {
        0
    } else {
        utf16_len(s.drop_last()) + utf16_units(s.last())
    }
}

pub proof fn lemma_utf16_len_bounds(s: Seq<char>)
    ensures
        s.len() <= utf16_len(s) <= 2 * s.len(),
    decreases s.len(),
{
    if s.len() > 0 {
        lemma_utf16_len_bounds(s.drop_last());
    }
}

/// Length of `v` in UTF-16 code units.
pub fn utf16_len_of(v: &Vec<char>) -> (r: usize)
    requires
        2 * v@.len() <= usize::MAX,
    ensures
        r == utf16_len(v@),
{
    let mut r: usize = 0;
    let mut i: usize = 0;
    while i < v.len()
        invariant
            i <= v@.len(),
            2 * v@.len() <= usize::MAX,
            r == utf16_len(v@.subrange(0, i as int)),
            r <= 2 * i,
        decreases v@.len() - i,
    {
        proof {
            assert(v@.subrange(0, i + 1).drop_last() =~= v@.subrange(0, i as int));
            assert(v@.subrange(0, i + 1).last() == v@[i as int]);
        }
        if (v[i] as u32) >= 0x10000 {
            r = r + 2;
        } else {
            r = r + 1;
        }
        i = i + 1;
    }
    proof {
        assert(v@.subrange(0, v@.len() as int) =~= v@);
    }
    r
}

/// UTF-8 bytes taken by one character.
pub open spec fn utf8_units(c: char) -> int {
    if (c as u32) < 0x80 {
        1
    } else if (c as u32) < 0x800 {
        2
    } else if (c as u32) < 0x10000 {
        3
    } else {
        4
    }
}

/// Length of `s` in UTF-8 bytes.
pub open spec fn utf8_len(s: Seq<char>) -> int
    decreases s.len(),
{
    if s.len() == 0 {
        0
    } else {
        utf8_len(s.drop_last()) + utf8_units(s.last())
    }
}

pub proof fn lemma_utf8_len_bounds(s: Seq<char>)
    ensures
        s.len() <= utf8_len(s) <= 4 * s.len(),
    decreases s.len(),
{
    if s.len() > 0 {
        lemma_utf8_len_bounds(s.drop_last());
    }
}

pub fn utf8_units_of(c: char) -> (r: usize)
    ensures
        r == utf8_units(c),
{
    let u = c as u32;
    if u < 0x80 {
        1
    } else if u < 0x800 {
        2
    } else if u < 0x10000 {
        3
    } else {
        4
    }
}

/// Length of `v` in UTF-8 bytes.
pub fn utf8_len_of(v: &Vec<char>) -> (r: usize)
    requires
        4 * v@.len() <= usize::MAX,
    ensures
        r == utf8_len(v@),
{
    let mut r: usize = 0;
    let mut i: usize = 0;
    while i < v.len()
        invariant
            i <= v@.len(),
            4 * v@.len() <= usize::MAX,
            r == utf8_len(v@.subrange(0, i as int)),
            r <= 4 * i,
        decreases v@.len() - i,
    {
        proof {
            assert(v@.subrange(0, i + 1).drop_last() =~= v@.subrange(0, i as int));
            assert(v@.subrange(0, i + 1).last() == v@[i as int]);
        }
        r = r + utf8_units_of(v[i]);
        i = i + 1;
    }
    proof {
        assert(v@.subrange(0, v@.len() as int) =~= v@);
    }
    r
}

/// The decimal digit character for `d`.
pub open spec fn dec_digit(d: int) -> char {
    if d == 0 {
        '0'
    } else if d == 1 {
        '1'
    } else if d == 2 {
        '2'
    } else if d == 3 {
        '3'
    } else if d == 4 {
        '4'
    } else if d == 5 {
        '5'
    } else if d == 6 {
        '6'
    } else if d == 7 {
        '7'
    } else if d == 8 {
        '8'
    } else {
        '9'
    }
}

/// The decimal digit string of `n`, most significant digit first.
pub open spec fn dec_str(n: nat) -> Seq<char>
    decreases n,
{
    if n < 10 {
        seq![dec_digit(n as int)]
    } else {
        dec_str(n / 10).push(dec_digit((n % 10) as int))
    }
}

fn dec_digit_of(d: u64) -> (r: char)
    requires
        d < 10,
    ensures
        r == dec_digit(d as int),
{
    match d {
        0 => '0',
        1 => '1',
        2 => '2',
        3 => '3',
        4 => '4',
        5 => '5',
        6 => '6',
        7 => '7',
        8 => '8',
        _ => '9',
    }
}

/// The decimal digits of `n`.
pub fn dec_chars_of(n: u64) -> (r: Vec<char>)
    ensures
        r@ == dec_str(n as nat),
    decreases n,
{
    if n < 10 {
        let mut v: Vec<char> = Vec::new();
        v.push(dec_digit_of(n));
        proof {
            assert(v@ =~= dec_str(n as nat));
        }
        v
    } else {
        let mut v = dec_chars_of(n / 10);
        v.push(dec_digit_of(n % 10));
        v
    }
}

/// `c` is a decimal digit.
pub open spec fn is_digit(c: char) -> bool {
    48 <= c as u32 <= 57
}

pub open spec fn digit_val(c: char) -> int {
    c as u32 - 48
}

pub fn char_is_digit(c: char) -> (r: bool)
    ensures
        r == is_digit(c),
{
    let u = c as u32;
    48 <= u && u <= 57
}

/// The value of a string of decimal digits, most significant first.
pub open spec fn dec_val(s: Seq<char>) -> int
    decreases s.len(),
{
    if s.len() == 0 {
        0
    } else {
        dec_val(s.drop_last()) * 10 + digit_val(s.last())
    }
}

/// Parses a run of decimal digits. `None` exactly when the value does not
/// fit in a `u64`.
pub fn parse_dec_u64(v: &Vec<char>) -> (r: Option<u64>)
    requires
        forall|t: int| 0 <= t < v@.len() ==> is_digit(v@[t]),
    ensures
        match r {
            Some(x) => x == dec_val(v@),
            None => dec_val(v@) > u64::MAX,
        },
{
    let mut acc: u64 = 0;
    let mut i: usize = 0;
    while i < v.len()
        invariant
            i <= v@.len(),
            forall|t: int| 0 <= t < v@.len() ==> is_digit(v@[t]),
            acc == dec_val(v@.subrange(0, i as int)),
        decreases v@.len() - i,
    {
        proof {
            assert(v@.subrange(0, i + 1).drop_last() =~= v@.subrange(0, i as int));
            assert(v@.subrange(0, i + 1).last() == v@[i as int]);
            assert(is_digit(v@[i as int]));
        }
        let d: u64 = (v[i] as u32 - 48) as u64;
        let wide: u128 = acc as u128 * 10 + d as u128;
        if wide > u64::MAX as u128 {
            proof {
                lemma_dec_val_monotonic(v@.subrange(0, i + 1), v@);
            }
            return None;
        }
        acc = wide as u64;
        i = i + 1;
    }
    proof {
        assert(v@.subrange(0, v@.len() as int) =~= v@);
    }
    Some(acc)
}

proof fn lemma_dec_val_nonneg(s: Seq<char>)
    requires
        forall|t: int| 0 <= t < s.len() ==> is_digit(s[t]),
    ensures
        dec_val(s) >= 0,
    decreases s.len(),
{
    if s.len() > 0 {
        lemma_dec_val_nonneg(s.drop_last());
    }
}

/// The value of a digit string only grows when digits are appended.
proof fn lemma_dec_val_monotonic(p: Seq<char>, s: Seq<char>)
    requires
        p.len() <= s.len(),
        forall|t: int| 0 <= t < s.len() ==> is_digit(s[t]),
        p == s.subrange(0, p.len() as int),
    ensures
        dec_val(p) <= dec_val(s),
    decreases s.len() - p.len(),
{
    if p.len() < s.len() {
        let q = s.subrange(0, p.len() as int + 1);
        assert(q.drop_last() =~= p);
        assert(q.last() == s[p.len() as int]);
        assert(is_digit(q.last()));
        assert(dec_val(q) == dec_val(p) * 10 + digit_val(q.last()));
        lemma_dec_val_nonneg(p);
        assert(digit_val(q.last()) >= 0);
        assert(dec_val(p) <= dec_val(q));
        assert(forall|t: int| 0 <= t < q.len() ==> is_digit(#[trigger] q[t]));
        assert(q == s.subrange(0, q.len() as int));
        lemma_dec_val_monotonic(q, s);
    } else {
        assert(s.subrange(0, s.len() as int) =~= s);
    }
}


/// The first position at or after `i` where `n` occurs in `h` up to ASCII
/// case.
pub open spec fn first_match_ci_from(h: Seq<char>, n: Seq<char>, i: int) -> Option<int>
    decreases h.len() - i + 1,
{
    if i < 0 || i + n.len() > h.len() {
        None
    } else if match_at_ci(h, n, i) {
        Some(i)
    } else {
        first_match_ci_from(h, n, i + 1)
    }
}

/// The first position where `n` occurs in `h` up to ASCII case.
pub open spec fn first_match_ci(h: Seq<char>, n: Seq<char>) -> Option<int> {
    first_match_ci_from(h, n, 0)
}

pub proof fn lemma_first_match_ci_found(h: Seq<char>, n: Seq<char>, lo: int, i: int)
    requires
        0 <= lo <= i,
        match_at_ci(h, n, i),
        forall|j: int| lo <= j < i ==> !match_at_ci(h, n, j),
    ensures
        first_match_ci_from(h, n, lo) == Some(i),
    decreases i - lo,
{
    if lo < i {
        lemma_first_match_ci_found(h, n, lo + 1, i);
    }
}

pub proof fn lemma_first_match_ci_none(h: Seq<char>, n: Seq<char>, lo: int)
    requires
        0 <= lo,
        forall|j: int| lo <= j ==> !match_at_ci(h, n, j),
    ensures
        first_match_ci_from(h, n, lo) is None,
    decreases h.len() - lo + 1,
{
    if !(lo + n.len() > h.len()) {
        lemma_first_match_ci_none(h, n, lo + 1);
    }
}

/// Relates the case-insensitive search to the `first_match_ci` spec.
pub fn find_first_ci(h: &Vec<char>, n: &Vec<char>) -> (r: Option<usize>)
    ensures
        match r {
            Some(i) => first_match_ci(h@, n@) == Some(i as int) && match_at_ci(h@, n@, i as int),
            None => first_match_ci(h@, n@) is None,
        },
{
    let r = find_sub_ci(h, n);
    proof {
        match r {
            Some(i) => lemma_first_match_ci_found(h@, n@, 0, i as int),
            None => lemma_first_match_ci_none(h@, n@, 0),
        }
    }
    r
}

/// `p` is a prefix of `s` up to ASCII case.
pub open spec fn is_prefix_ci(p: Seq<char>, s: Seq<char>) -> bool {
    match_at_ci(s, p, 0)
}

pub fn starts_with_ci(s: &Vec<char>, p: &Vec<char>) -> (r: bool)
    ensures
        r == is_prefix_ci(p@, s@),
{
    if p.len() > s.len() {
        return false;
    }
    check_match_at(s, p, 0, true)
}

/// Whether `n` occurs in `h` at position `i`, for any position.
pub fn prefix_at(h: &Vec<char>, n: &Vec<char>, i: usize) -> (r: bool)
    ensures
        r == match_at(h@, n@, i as int),
{
    if i > h.len() || n.len() > h.len() - i {
        return false;
    }
    check_match_at(h, n, i, false)
}

/// Whether two character vectors are equal up to ASCII case.
pub fn eq_ci_of(a: &Vec<char>, b: &Vec<char>) -> (r: bool)
    ensures
        r == eq_ci(a@, b@),
{
    if a.len() != b.len() {
        return false;
    }
    let r = check_match_at(a, b, 0, true);
    proof {
        assert(a@.subrange(0, b@.len() as int) =~= a@);
    }
    r
}

/// Whether two strings hold the same characters.
pub fn str_eq(a: &str, b: &str) -> (r: bool)
    ensures
        r == (a@ == b@),
{
    let n = a.unicode_len();
    if n != b.unicode_len() {
        return false;
    }
    let mut i: usize = 0;
    while i < n
        invariant
            i <= n,
            n == a@.len(),
            n == b@.len(),
            forall|t: int| 0 <= t < i ==> a@[t] == b@[t],
        decreases n - i,
    {
        if a.get_char(i) != b.get_char(i) {
            return false;
        }
        i = i + 1;
    }
    proof {
        assert(a@ =~= b@);
    }
    true
}

/// The longest run of decimal digits at the front of `s`.
pub open spec fn leading_digits(s: Seq<char>) -> Seq<char>
    decreases s.len(),
{
    if s.len() > 0 && is_digit(s[0]) {
        seq![s[0]] + leading_digits(s.drop_first())
    } else {
        Seq::empty()
    }
}

/// The front digit run is exactly the prefix up to the first non-digit.
pub proof fn lemma_leading_digits_exact(s: Seq<char>, k: int)
    requires
        0 <= k <= s.len(),
        forall|t: int| 0 <= t < k ==> is_digit(s[t]),
        k == s.len() || !is_digit(s[k]),
    ensures
        leading_digits(s) == s.subrange(0, k),
    decreases k,
{
    if k == 0 {
        assert(leading_digits(s) =~= s.subrange(0, 0));
    } else {
        assert(is_digit(s[0]));
        lemma_leading_digits_exact(s.drop_first(), k - 1);
        assert(seq![s[0]] + s.drop_first().subrange(0, k - 1) =~= s.subrange(0, k));
    }
}

/// The first maximal run of decimal digits in `s`.
pub open spec fn digit_run(s: Seq<char>) -> Seq<char>
    decreases s.len(),
{
    if s.len() == 0 {
        Seq::empty()
    } else if is_digit(s[0]) {
        leading_digits(s)
    } else {
        digit_run(s.drop_first())
    }
}

pub proof fn lemma_leading_digits_all_digits(s: Seq<char>)
    ensures
        forall|t: int| 0 <= t < leading_digits(s).len() ==> is_digit(#[trigger] leading_digits(s)[t]),
    decreases s.len(),
{
    if s.len() > 0 && is_digit(s[0]) {
        lemma_leading_digits_all_digits(s.drop_first());
        let l = leading_digits(s);
        assert forall|t: int| 0 <= t < l.len() implies is_digit(l[t]) by {
            if t == 0 {
                assert(l[0] == s[0]);
            } else {
                assert(l[t] == leading_digits(s.drop_first())[t - 1]);
            }
        }
    }
}

pub proof fn lemma_digit_run_all_digits(s: Seq<char>)
    ensures
        forall|t: int| 0 <= t < digit_run(s).len() ==> is_digit(#[trigger] digit_run(s)[t]),
    decreases s.len(),
{
    if s.len() == 0 {
    } else if is_digit(s[0]) {
        lemma_leading_digits_all_digits(s);
    } else {
        lemma_digit_run_all_digits(s.drop_first());
        assert(digit_run(s) == digit_run(s.drop_first()));
        assert forall|t: int| 0 <= t < digit_run(s).len() implies is_digit(digit_run(s)[t]) by {
            assert(digit_run(s)[t] == digit_run(s.drop_first())[t]);
        }
    }
}

/// A `String` holding exactly the given characters.
pub fn string_of(v: &Vec<char>) -> (r: String)
    ensures
        r@ == v@,
{
    let mut r = String::new();
    let mut i: usize = 0;
    while i < v.len()
        invariant
            i <= v@.len(),
            r@ == v@.subrange(0, i as int),
        decreases v@.len() - i,
    {
        push_char(&mut r, v[i]);
        i = i + 1;
    }
    proof {
        assert(r@ =~= v@);
    }
    r
}


/// The longest front part of `s` whose UTF-8 form fits in `budget` bytes.
pub open spec fn take_utf8(s: Seq<char>, budget: int) -> Seq<char>
    decreases s.len(),
{
    if s.len() == 0 || utf8_units(s[0]) > budget {
        Seq::empty()
    } else {
        seq![s[0]] + take_utf8(s.drop_first(), budget - utf8_units(s[0]))
    }
}

pub proof fn lemma_utf8_len_cons(c: char, t: Seq<char>)
    ensures
        utf8_len(seq![c] + t) == utf8_units(c) + utf8_len(t),
    decreases t.len(),
{
    if t.len() == 0 {
        assert((seq![c] + t) =~= seq![c]);
        assert(seq![c].drop_last() =~= Seq::<char>::empty());
        assert(seq![c].last() == c);
        assert(utf8_len(Seq::<char>::empty()) == 0);
    } else {
        assert((seq![c] + t).drop_last() =~= seq![c] + t.drop_last());
        assert((seq![c] + t).last() == t.last());
        lemma_utf8_len_cons(c, t.drop_last());
    }
}

pub proof fn lemma_utf8_len_add(a: Seq<char>, b: Seq<char>)
    ensures
        utf8_len(a + b) == utf8_len(a) + utf8_len(b),
    decreases b.len(),
{
    if b.len() == 0 {
        assert(a + b =~= a);
    } else {
        assert((a + b).drop_last() =~= a + b.drop_last());
        assert((a + b).last() == b.last());
        lemma_utf8_len_add(a, b.drop_last());
    }
}

/// A taken front part always fits its byte budget.
pub proof fn lemma_take_utf8_len(s: Seq<char>, budget: int)
    requires
        budget >= 0,
    ensures
        utf8_len(take_utf8(s, budget)) <= budget,
    decreases s.len(),
{
    if s.len() == 0 || utf8_units(s[0]) > budget {
        assert(utf8_len(Seq::<char>::empty()) == 0);
    } else {
        lemma_take_utf8_len(s.drop_first(), budget - utf8_units(s[0]));
        lemma_utf8_len_cons(s[0], take_utf8(s.drop_first(), budget - utf8_units(s[0])));
    }
}

/// The longest front part of `v` whose UTF-8 form fits in `budget` bytes.
pub fn take_utf8_prefix(v: &Vec<char>, budget: usize) -> (r: Vec<char>)
    ensures
        r@ == take_utf8(v@, budget as int),
{
    let n = v.len();
    let mut out: Vec<char> = Vec::new();
    let mut used: usize = 0;
    let mut i: usize = 0;
    proof {
        assert(v@.subrange(0, n as int) =~= v@);
        assert(out@ + take_utf8(v@, budget as int) =~= take_utf8(v@, budget as int));
    }
    while i < n
        invariant_except_break
            i <= n,
            n == v@.len(),
            used <= budget,
            take_utf8(v@, budget as int) == out@ + take_utf8(
                v@.subrange(i as int, n as int),
                budget - used,
            ),
        ensures
            take_utf8(v@, budget as int) == out@,
        decreases n - i,
    {
        proof {
            let rest = v@.subrange(i as int, n as int);
            assert(rest[0] == v@[i as int]);
            assert(rest.drop_first() =~= v@.subrange(i + 1, n as int));
        }
        let u = utf8_units_of(v[i]);
        if u > budget || used > budget - u {
            proof {
                let rest = v@.subrange(i as int, n as int);
                assert(take_utf8(rest, budget - used) =~= Seq::<char>::empty());
                assert(out@ =~= out@ + Seq::<char>::empty());
            }
            break ;
        }
        out.push(v[i]);
        used = used + u;
        i = i + 1;
        proof {
            if i == n {
                assert(v@.subrange(n as int, n as int) =~= Seq::<char>::empty());
            }
        }
    }
    proof {
        if i == n && take_utf8(v@, budget as int) != out@ {
            assert(take_utf8(v@.subrange(n as int, n as int), budget - used) =~= Seq::<
                char,
            >::empty());
        }
    }
    out
}

} // verus!
