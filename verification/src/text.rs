//! Character-level text utilities shared by the parsing modules.
//!
//! The parsers in this crate work over `Vec<char>` whose view is the
//! `Seq<char>` view of the `String` they came from.  This module holds the
//! conversions between the two, together with the basic searching and slicing
//! operations and their specifications.

use vstd::prelude::*;
use vstd::string::StrSliceExecFns;

verus! {

/// The whitespace characters recognised by the scanners.
pub open spec fn is_space(c: char) -> bool {
    c == ' ' || c == '\t' || c == '\n' || c == '\r' || c == '\u{000B}' || c == '\u{000C}'
}

/// The characters accepted inside an identifier.
pub open spec fn is_word_char(c: char) -> bool {
    ('a' as u32) <= (c as u32) && (c as u32) <= ('z' as u32)
        || ('A' as u32) <= (c as u32) && (c as u32) <= ('Z' as u32)
        || ('0' as u32) <= (c as u32) && (c as u32) <= ('9' as u32)
        || c == '_'
}

/// The decimal digits.
pub open spec fn is_digit(c: char) -> bool {
    ('0' as u32) <= (c as u32) && (c as u32) <= ('9' as u32)
}

pub fn is_space_char(c: char) -> (r: bool)
    ensures
        r == is_space(c),
{
    c == ' ' || c == '\t' || c == '\n' || c == '\r' || c == '\u{000B}' || c == '\u{000C}'
}

pub fn is_word_char_exec(c: char) -> (r: bool)
    ensures
        r == is_word_char(c),
{
    ('a' as u32) <= (c as u32) && (c as u32) <= ('z' as u32)
        || ('A' as u32) <= (c as u32) && (c as u32) <= ('Z' as u32)
        || ('0' as u32) <= (c as u32) && (c as u32) <= ('9' as u32)
        || c == '_'
}

pub fn is_digit_char(c: char) -> (r: bool)
    ensures
        r == is_digit(c),
{
    ('0' as u32) <= (c as u32) && (c as u32) <= ('9' as u32)
}

/// Distinct characters stay distinct under the cast to `u32`.
pub proof fn lemma_char_cast_neq(a: char, b: char)
    requires
        a != b,
    ensures
        a as u32 != b as u32,
{
    if a as u32 == b as u32 {
        vstd::utf8::char_u32_cast(a, a as u32);
        vstd::utf8::char_u32_cast(b, b as u32);
    }
}

/// The characters of `s`, in order.
pub fn chars_of(s: &str) -> (r: Vec<char>)
    ensures
        r@ == s@,
{
    let n = s.unicode_len();
    let mut v: Vec<char> = Vec::new();
    let mut i: usize = 0;
    while i < n
        invariant
            n == s@.len(),
            i <= n,
            v@ == s@.take(i as int),
        decreases n - i,
    {
        let c = s.get_char(i);
        v.push(c);
        proof {
            assert(v@ =~= s@.take((i + 1) as int));
        }
        i = i + 1;
    }
    proof {
        assert(s@.take(n as int) =~= s@);
    }
    v
}

/// Relies on `String`'s `FromIterator` over characters: collecting an
/// iterator of characters yields the string holding exactly those
/// characters, in order.
#[verifier::external_body]
pub fn string_of(v: &Vec<char>) -> (r: String)
    ensures
        r@ == v@,
{
    v.iter().collect()
}

/// Whether `pat` occurs in `v` starting at index `i`.
pub fn match_at(v: &Vec<char>, i: usize, pat: &Vec<char>) -> (r: bool)
    ensures
        r == (i + pat@.len() <= v@.len() && v@.subrange(
            i as int,
            i as int + pat@.len() as int,
        ) == pat@),
{
    if pat.len() > v.len() || i > v.len() - pat.len() {
        return false;
    }
    let n = v.len();
    let mut k: usize = 0;
    while k < pat.len()
        invariant
            n == v@.len(),
            i + pat@.len() <= v@.len(),
            k <= pat@.len(),
            forall|m: int| 0 <= m < k ==> v@[i + m] == pat@[m],
        decreases pat@.len() - k,
    {
        if v[i + k] != pat[k] {
            proof {
                if v@.subrange(i as int, i as int + pat@.len() as int) == pat@ {
                    assert(v@.subrange(i as int, i as int + pat@.len() as int)[k as int]
                        == pat@[k as int]);
                    assert(false);
                }
            }
            return false;
        }
        k = k + 1;
    }
    proof {
        assert(v@.subrange(i as int, i as int + pat@.len() as int) =~= pat@);
    }
    true
}

/// Whether the whole of `v` equals `pat`.
pub fn eq_chars(v: &Vec<char>, pat: &Vec<char>) -> (r: bool)
    ensures
        r == (v@ == pat@),
{
    if v.len() != pat.len() {
        proof {
            if v@ == pat@ {
                assert(false);
            }
        }
        return false;
    }
    let r = match_at(v, 0, pat);
    proof {
        assert(v@.subrange(0, pat@.len() as int) =~= v@);
    }
    r
}

/// The index of the first occurrence of `c` in `s`, if any.
pub open spec fn find_c(s: Seq<char>, c: char) -> Option<int>
    decreases s.len(),
{
    if s.len() == 0 {
        None
    } else if s[0] == c {
        Some(0int)
    } else {
        match find_c(s.drop_first(), c) {
            Some(j) => Some(j + 1),
            None => None,
        }
    }
}

pub proof fn lemma_find_c_is(s: Seq<char>, c: char, j: int)
    requires
        0 <= j < s.len(),
        s[j] == c,
        forall|m: int| 0 <= m < j ==> s[m] != c,
    ensures
        find_c(s, c) == Some(j),
    decreases s.len(),
{
    if j > 0 {
        lemma_find_c_is(s.drop_first(), c, j - 1);
    }
}

pub proof fn lemma_find_c_none(s: Seq<char>, c: char)
    requires
        forall|m: int| 0 <= m < s.len() ==> s[m] != c,
    ensures
        find_c(s, c) is None,
    decreases s.len(),
{
    if s.len() > 0 {
        lemma_find_c_none(s.drop_first(), c);
    }
}

pub proof fn lemma_find_c_bound(s: Seq<char>, c: char)
    ensures
        match find_c(s, c) {
            Some(j) => 0 <= j < s.len() && s[j] == c,
            None => true,
        },
    decreases s.len(),
{
    if s.len() > 0 && s[0] != c {
        lemma_find_c_bound(s.drop_first(), c);
    }
}

/// The index of the first occurrence of the two-character pattern `a b`.
pub open spec fn find2(s: Seq<char>, a: char, b: char) -> Option<int>
    decreases s.len(),
{
    if s.len() < 2 {
        None
    } else if s[0] == a && s[1] == b {
        Some(0int)
    } else {
        match find2(s.drop_first(), a, b) {
            Some(j) => Some(j + 1),
            None => None,
        }
    }
}

pub proof fn lemma_find2_is(s: Seq<char>, a: char, b: char, j: int)
    requires
        0 <= j,
        j + 1 < s.len(),
        s[j] == a && s[j + 1] == b,
        forall|m: int| 0 <= m < j ==> !((#[trigger] s[m]) == a && s[m + 1] == b),
    ensures
        find2(s, a, b) == Some(j),
    decreases s.len(),
{
    if j > 0 {
        lemma_find2_is(s.drop_first(), a, b, j - 1);
    }
}

pub proof fn lemma_find2_none(s: Seq<char>, a: char, b: char)
    requires
        forall|m: int| 0 <= m && m + 1 < s.len() ==> !((#[trigger] s[m]) == a && s[m + 1] == b),
    ensures
        find2(s, a, b) is None,
    decreases s.len(),
{
    if s.len() >= 2 {
        lemma_find2_none(s.drop_first(), a, b);
    }
}

pub proof fn lemma_find2_bound(s: Seq<char>, a: char, b: char)
    ensures
        match find2(s, a, b) {
            Some(j) => 0 <= j && j + 1 < s.len() && s[j] == a && s[j + 1] == b,
            None => true,
        },
    decreases s.len(),
{
    if s.len() >= 2 && !(s[0] == a && s[1] == b) {
        lemma_find2_bound(s.drop_first(), a, b);
    }
}

/// The first occurrence of `c` in `v` at or after `from`.
pub fn find_char_from(v: &Vec<char>, from: usize, c: char) -> (r: Option<usize>)
    requires
        from <= v@.len(),
    ensures
        match r {
            Some(j) => from <= j < v@.len() && v@[j as int] == c && (forall|m: int|
                from <= m < j ==> v@[m] != c) && find_c(v@.skip(from as int), c) == Some(
                j - from as int,
            ),
            None => (forall|m: int| from <= m < v@.len() ==> v@[m] != c) && find_c(
                v@.skip(from as int),
                c,
            ) is None,
        },
{
    let mut i: usize = from;
    while i < v.len()
        invariant
            from <= i <= v@.len(),
            forall|m: int| from <= m < i ==> v@[m] != c,
        decreases v@.len() - i,
    {
        if v[i] == c {
            proof {
                assert forall|m: int| 0 <= m < i - from implies v@.skip(from as int)[m]
                    != c by {
                    assert(v@.skip(from as int)[m] == v@[m + from]);
                }
                lemma_find_c_is(v@.skip(from as int), c, i - from as int);
            }
            return Some(i);
        }
        i = i + 1;
    }
    proof {
        assert forall|m: int| 0 <= m < v@.skip(from as int).len() implies v@.skip(from as int)[m]
            != c by {
            assert(v@.skip(from as int)[m] == v@[m + from]);
        }
        lemma_find_c_none(v@.skip(from as int), c);
    }
    None
}

/// The first occurrence of the pattern `a b` in `v` at or after `from`.
pub fn find2_from(v: &Vec<char>, from: usize, a: char, b: char) -> (r: Option<usize>)
    requires
        from <= v@.len(),
    ensures
        match r {
            Some(j) => from <= j && j + 1 < v@.len() && v@[j as int] == a && v@[j as int + 1] == b
                && (forall|m: int| from <= m < j ==> !((#[trigger] v@[m]) == a && v@[m + 1] == b))
                && find2(v@.skip(from as int), a, b) == Some(j - from as int),
            None => (forall|m: int|
                from <= m && m + 1 < v@.len() ==> !((#[trigger] v@[m]) == a && v@[m + 1] == b))
                && find2(v@.skip(from as int), a, b) is None,
        },
{
    let n = v.len();
    if n == 0 || from >= n - 1 {
        proof {
            lemma_find2_none(v@.skip(from as int), a, b);
        }
        return None;
    }
    let mut i: usize = from;
    while i < n - 1
        invariant
            n == v@.len(),
            n >= 1,
            from <= i,
            i <= v@.len(),
            forall|m: int| from <= m < i ==> !((#[trigger] v@[m]) == a && v@[m + 1] == b),
        decreases v@.len() - i,
    {
        if v[i] == a && v[i + 1] == b {
            proof {
                assert forall|m: int| 0 <= m < i - from implies !((#[trigger] v@.skip(
                    from as int,
                )[m]) == a && v@.skip(from as int)[m + 1] == b) by {
                    assert(v@.skip(from as int)[m] == v@[m + from]);
                    assert(v@.skip(from as int)[m + 1] == v@[m + 1 + from]);
                }
                lemma_find2_is(v@.skip(from as int), a, b, i - from as int);
            }
            return Some(i);
        }
        i = i + 1;
    }
    proof {
        assert forall|m: int| 0 <= m && m + 1 < v@.skip(from as int).len() implies !((
        #[trigger] v@.skip(from as int)[m]) == a && v@.skip(from as int)[m + 1] == b) by {
            assert(v@.skip(from as int)[m] == v@[m + from]);
            assert(v@.skip(from as int)[m + 1] == v@[m + 1 + from]);
        }
        lemma_find2_none(v@.skip(from as int), a, b);
    }
    None
}

/// Whether `s` ends with `suffix`.
pub open spec fn ends_with(s: Seq<char>, suffix: Seq<char>) -> bool {
    suffix.len() <= s.len() && s.subrange(s.len() - suffix.len(), s.len() as int) == suffix
}

pub fn ends_with_chars(v: &Vec<char>, pat: &Vec<char>) -> (r: bool)
    ensures
        r == ends_with(v@, pat@),
{
    if pat.len() > v.len() {
        return false;
    }
    let r = match_at(v, v.len() - pat.len(), pat);
    proof {
        assert(v@.subrange(v@.len() - pat@.len(), v@.len() as int) == v@.subrange(
            v@.len() - pat@.len(),
            (v@.len() - pat@.len()) + pat@.len() as int,
        ));
    }
    r
}

/// The views of a sequence of character vectors.
pub open spec fn views_of(q: Seq<Vec<char>>) -> Seq<Seq<char>> {
    q.map_values(|x: Vec<char>| x@)
}

/// `s` split on the separator character `c`: always at least one piece,
/// pieces may be empty, separators are not kept.
pub open spec fn split1(s: Seq<char>, c: char) -> Seq<Seq<char>>
    decreases s.len(),
    via split1_decreases
{
    match find_c(s, c) {
        None => seq![s],
        Some(j) => seq![s.take(j)] + split1(s.skip(j + 1), c),
    }
}

#[via_fn]
proof fn split1_decreases(s: Seq<char>, c: char) {
    lemma_find_c_bound(s, c);
}

/// `s` split on the two-character separator `a b`, scanning left to right
/// without overlap.
pub open spec fn split2(s: Seq<char>, a: char, b: char) -> Seq<Seq<char>>
    decreases s.len(),
    via split2_decreases
{
    match find2(s, a, b) {
        None => seq![s],
        Some(j) => seq![s.take(j)] + split2(s.skip(j + 2), a, b),
    }
}

#[via_fn]
proof fn split2_decreases(s: Seq<char>, a: char, b: char) {
    lemma_find2_bound(s, a, b);
}

/// `s` with every occurrence of the two-character pattern `a b` removed,
/// scanning left to right without re-examining what was already kept.
pub open spec fn remove2(s: Seq<char>, a: char, b: char) -> Seq<char>
    decreases s.len(),
    via remove2_decreases
{
    match find2(s, a, b) {
        None => s,
        Some(j) => s.take(j) + remove2(s.skip(j + 2), a, b),
    }
}

#[via_fn]
proof fn remove2_decreases(s: Seq<char>, a: char, b: char) {
    lemma_find2_bound(s, a, b);
}

/// `s` without trailing whitespace.
pub open spec fn trim_end(s: Seq<char>) -> Seq<char>
    decreases s.len(),
{
    if s.len() > 0 && is_space(s.last()) {
        trim_end(s.drop_last())
    } else {
        s
    }
}

/// `s` without leading whitespace.
pub open spec fn trim_start(s: Seq<char>) -> Seq<char>
    decreases s.len(),
{
    if s.len() > 0 && is_space(s[0]) {
        trim_start(s.drop_first())
    } else {
        s
    }
}

/// `s` without leading and trailing whitespace.
pub open spec fn trim(s: Seq<char>) -> Seq<char> {
    trim_start(trim_end(s))
}

pub fn split1_exec(v: &Vec<char>, c: char) -> (r: Vec<Vec<char>>)
    ensures
        views_of(r@) == split1(v@, c),
{
    let n = v.len();
    let mut out: Vec<Vec<char>> = Vec::new();
    let mut p: usize = 0;
    proof {
        assert(v@.skip(0) =~= v@);
        assert(views_of(out@) + split1(v@, c) =~~= split1(v@, c));
    }
    loop
        invariant_except_break
            n == v@.len(),
            p <= n,
            views_of(out@) + split1(v@.skip(p as int), c) == split1(v@, c),
        ensures
            views_of(out@) == split1(v@, c),
        decreases n - p,
    {
        let ghost s = v@.skip(p as int);
        let ghost prev = out@;
        match find_char_from(v, p, c) {
            Some(q) => {
                let piece = copy_range(v, p, q);
                proof {
                    assert(find_c(s, c) == Some(q - p as int));
                    assert(s.take(q - p as int) =~= piece@);
                    assert(s.skip((q - p as int) + 1) =~= v@.skip(q as int + 1));
                    assert(split1(s, c) == seq![piece@] + split1(v@.skip(q as int + 1), c));
                }
                out.push(piece);
                proof {
                    assert(views_of(out@) =~~= views_of(prev).push(s.take(q - p as int)));
                    assert(views_of(out@) + split1(v@.skip(q as int + 1), c) =~~= views_of(prev)
                        + split1(s, c));
                }
                p = q + 1;
            },
            None => {
                let piece = copy_range(v, p, n);
                proof {
                    assert(find_c(s, c) is None);
                    assert(s =~= piece@);
                    assert(split1(s, c) == seq![s]);
                }
                out.push(piece);
                proof {
                    assert(views_of(out@) =~~= views_of(prev).push(s));
                    assert(views_of(out@) =~~= views_of(prev) + split1(s, c));
                }
                break ;
            },
        }
    }
    out
}

pub fn split2_exec(v: &Vec<char>, a: char, b: char) -> (r: Vec<Vec<char>>)
    ensures
        views_of(r@) == split2(v@, a, b),
{
    let n = v.len();
    let mut out: Vec<Vec<char>> = Vec::new();
    let mut p: usize = 0;
    proof {
        assert(v@.skip(0) =~= v@);
        assert(views_of(out@) + split2(v@, a, b) =~~= split2(v@, a, b));
    }
    loop
        invariant_except_break
            n == v@.len(),
            p <= n,
            views_of(out@) + split2(v@.skip(p as int), a, b) == split2(v@, a, b),
        ensures
            views_of(out@) == split2(v@, a, b),
        decreases n - p,
    {
        let ghost s = v@.skip(p as int);
        let ghost prev = out@;
        match find2_from(v, p, a, b) {
            Some(q) => {
                let piece = copy_range(v, p, q);
                proof {
                    assert(find2(s, a, b) == Some(q - p as int));
                    assert(s.take(q - p as int) =~= piece@);
                    assert(s.skip((q - p as int) + 2) =~= v@.skip(q as int + 2));
                    assert(split2(s, a, b) == seq![piece@] + split2(v@.skip(q as int + 2), a, b));
                }
                out.push(piece);
                proof {
                    assert(views_of(out@) =~~= views_of(prev).push(s.take(q - p as int)));
                    assert(views_of(out@) + split2(v@.skip(q as int + 2), a, b) =~~= views_of(prev)
                        + split2(s, a, b));
                }
                p = q + 2;
            },
            None => {
                let piece = copy_range(v, p, n);
                proof {
                    assert(find2(s, a, b) is None);
                    assert(s =~= piece@);
                    assert(split2(s, a, b) == seq![s]);
                }
                out.push(piece);
                proof {
                    assert(views_of(out@) =~~= views_of(prev).push(s));
                    assert(views_of(out@) =~~= views_of(prev) + split2(s, a, b));
                }
                break ;
            },
        }
    }
    out
}

pub fn remove2_exec(v: &Vec<char>, a: char, b: char) -> (r: Vec<char>)
    ensures
        r@ == remove2(v@, a, b),
{
    let n = v.len();
    let mut out: Vec<char> = Vec::new();
    let mut p: usize = 0;
    proof {
        assert(v@.skip(0) =~= v@);
        assert(out@ + remove2(v@, a, b) =~= remove2(v@, a, b));
    }
    loop
        invariant_except_break
            n == v@.len(),
            p <= n,
            out@ + remove2(v@.skip(p as int), a, b) == remove2(v@, a, b),
        ensures
            out@ == remove2(v@, a, b),
        decreases n - p,
    {
        let ghost s = v@.skip(p as int);
        let ghost prev = out@;
        match find2_from(v, p, a, b) {
            Some(q) => {
                let mut piece = copy_range(v, p, q);
                proof {
                    assert(find2(s, a, b) == Some(q - p as int));
                    assert(s.take(q - p as int) =~= piece@);
                    assert(s.skip((q - p as int) + 2) =~= v@.skip(q as int + 2));
                    assert(remove2(s, a, b) == piece@ + remove2(v@.skip(q as int + 2), a, b));
                }
                out.append(&mut piece);
                proof {
                    assert(out@ + remove2(v@.skip(q as int + 2), a, b) =~= prev + remove2(
                        s,
                        a,
                        b,
                    ));
                }
                p = q + 2;
            },
            None => {
                let mut piece = copy_range(v, p, n);
                proof {
                    assert(find2(s, a, b) is None);
                    assert(s =~= piece@);
                    assert(remove2(s, a, b) == s);
                }
                out.append(&mut piece);
                proof {
                    assert(out@ =~= prev + remove2(s, a, b));
                }
                break ;
            },
        }
    }
    out
}

/// A copy of `v` without leading and trailing whitespace.
pub fn trim_exec(v: &Vec<char>) -> (r: Vec<char>)
    ensures
        r@ == trim(v@),
{
    let n = v.len();
    let mut b: usize = n;
    proof {
        assert(v@.take(n as int) =~= v@);
    }
    while b > 0 && is_space_char(v[b - 1])
        invariant
            b <= n,
            n == v@.len(),
            trim_end(v@) == trim_end(v@.take(b as int)),
        decreases b,
    {
        proof {
            let t = v@.take(b as int);
            assert(t.last() == v@[b - 1]);
            assert(t.drop_last() =~= v@.take(b as int - 1));
        }
        b = b - 1;
    }
    proof {
        let t = v@.take(b as int);
        if t.len() > 0 {
            assert(t.last() == v@[b - 1]);
        }
        assert(trim_end(v@) == v@.take(b as int));
    }
    let mut a: usize = 0;
    while a < b && is_space_char(v[a])
        invariant
            a <= b <= n,
            n == v@.len(),
            trim_end(v@) == v@.take(b as int),
            trim_start(v@.take(b as int)) == trim_start(v@.subrange(a as int, b as int)),
        decreases b - a,
    {
        proof {
            let t = v@.subrange(a as int, b as int);
            assert(t[0] == v@[a as int]);
            assert(t.drop_first() =~= v@.subrange(a as int + 1, b as int));
        }
        a = a + 1;
    }
    proof {
        let t = v@.subrange(a as int, b as int);
        if t.len() > 0 {
            assert(t[0] == v@[a as int]);
        }
        assert(trim_start(t) == t);
        assert(v@.take(b as int).subrange(0, b as int) =~= v@.take(b as int));
    }
    copy_range(v, a, b)
}

/// A copy of `v[from..to]`.
pub fn copy_range(v: &Vec<char>, from: usize, to: usize) -> (r: Vec<char>)
    requires
        from <= to <= v@.len(),
    ensures
        r@ == v@.subrange(from as int, to as int),
{
    let mut out: Vec<char> = Vec::new();
    let mut i: usize = from;
    while i < to
        invariant
            from <= i <= to <= v@.len(),
            out@ == v@.subrange(from as int, i as int),
        decreases to - i,
    {
        out.push(v[i]);
        proof {
            assert(out@ =~= v@.subrange(from as int, (i + 1) as int));
        }
        i = i + 1;
    }
    out
}

} // verus!
