//! Detection of non-abstract `contract` declarations in stripped source
//! text, and the span of text each one owns.
//!
//! A declaration site is a whitespace run, the keyword `contract`, another
//! whitespace run, a non-empty identifier, and one more whitespace
//! character.  A site whose leading whitespace is directly preceded by the
//! word `abstract` is skipped: abstract contracts are not deployable.  Each
//! accepted declaration owns the text from its own start (the first
//! whitespace character before the keyword) up to the start of the next
//! accepted declaration; the last one owns the text to the end.

use vstd::prelude::*;

use crate::text::{
    chars_of, copy_range, is_space, is_space_char, is_word_char, is_word_char_exec, match_at,
    string_of,
};

verus! {

/// The end of the whitespace run beginning at `p`: the first index at or
/// after `p` holding a non-whitespace character, or the end of the text.
pub open spec fn ws_run_end(s: Seq<char>, p: int) -> int
    decreases s.len() - p,
    when 0 <= p <= s.len()
{
    if p >= s.len() || !is_space(s[p]) {
        p
    } else {
        ws_run_end(s, p + 1)
    }
}

/// The end of the identifier-character run beginning at `p`.
pub open spec fn word_run_end(s: Seq<char>, p: int) -> int
    decreases s.len() - p,
    when 0 <= p <= s.len()
{
    if p >= s.len() || !is_word_char(s[p]) {
        p
    } else {
        word_run_end(s, p + 1)
    }
}

pub proof fn lemma_ws_run_end_bounds(s: Seq<char>, p: int)
    requires
        0 <= p <= s.len(),
    ensures
        p <= ws_run_end(s, p) <= s.len(),
    decreases s.len() - p,
{
    if p < s.len() && is_space(s[p]) {
        lemma_ws_run_end_bounds(s, p + 1);
    }
}

pub proof fn lemma_word_run_end_bounds(s: Seq<char>, p: int)
    requires
        0 <= p <= s.len(),
    ensures
        p <= word_run_end(s, p) <= s.len(),
    decreases s.len() - p,
{
    if p < s.len() && is_word_char(s[p]) {
        lemma_word_run_end_bounds(s, p + 1);
    }
}

/// Whether a (not yet abstract-filtered) contract declaration site starts at
/// `p`: whitespace, `contract`, whitespace, an identifier, one whitespace
/// character.
pub open spec fn decl_at(s: Seq<char>, p: int) -> bool {
    if 0 <= p < s.len() && is_space(s[p]) {
        let j = ws_run_end(s, p);
        if j + 8 <= s.len() && s.subrange(j, j + 8) == "contract"@ {
            let k = ws_run_end(s, j + 8);
            if k > j + 8 {
                let m = word_run_end(s, k);
                m > k && m < s.len() && is_space(s[m])
            } else {
                false
            }
        } else {
            false
        }
    } else {
        false
    }
}

/// The declared name at a declaration site.
pub open spec fn decl_name(s: Seq<char>, p: int) -> Seq<char> {
    let j = ws_run_end(s, p);
    let k = ws_run_end(s, j + 8);
    let m = word_run_end(s, k);
    s.subrange(k, m)
}

/// The first position after everything a declaration site consumes.
pub open spec fn decl_end(s: Seq<char>, p: int) -> int {
    let j = ws_run_end(s, p);
    let k = ws_run_end(s, j + 8);
    let m = word_run_end(s, k);
    m + 1
}

/// Whether an abstract contract declaration starts at `p`: the word
/// `abstract` directly followed by a declaration site.
pub open spec fn abstract_at(s: Seq<char>, p: int) -> bool {
    0 <= p && p + 8 <= s.len() && s.subrange(p, p + 8) == "abstract"@ && decl_at(s, p + 8)
}

proof fn lemma_decl_end_bounds(s: Seq<char>, p: int)
    requires
        decl_at(s, p),
    ensures
        p < decl_end(s, p) <= s.len(),
{
    lemma_ws_run_end_bounds(s, p);
    let j = ws_run_end(s, p);
    lemma_ws_run_end_bounds(s, j + 8);
    let k = ws_run_end(s, j + 8);
    lemma_word_run_end_bounds(s, k);
}

/// Every accepted declaration in `s` at or after `p`, in order: its name
/// paired with its start offset.
pub open spec fn scan_decls(s: Seq<char>, p: int) -> Seq<(Seq<char>, int)>
    decreases s.len() - p,
    when 0 <= p <= s.len()
    via scan_decls_decreases
{
    if p >= s.len() {
        seq![]
    } else if abstract_at(s, p) {
        scan_decls(s, decl_end(s, p + 8))
    } else if decl_at(s, p) {
        seq![(decl_name(s, p), p)] + scan_decls(s, decl_end(s, p))
    } else {
        scan_decls(s, p + 1)
    }
}

#[via_fn]
proof fn scan_decls_decreases(s: Seq<char>, p: int) {
    if p < s.len() {
        if abstract_at(s, p) {
            lemma_decl_end_bounds(s, p + 8);
        } else if decl_at(s, p) {
            lemma_decl_end_bounds(s, p);
        }
    }
}

/// Declaration starts lie in `[p, len)` and are strictly increasing.
pub proof fn lemma_scan_starts(s: Seq<char>, p: int)
    requires
        0 <= p <= s.len(),
    ensures
        forall|i: int|
            0 <= i < scan_decls(s, p).len() ==> p <= (#[trigger] scan_decls(s, p)[i]).1 < s.len(),
        forall|i: int|
            0 <= i && i + 1 < scan_decls(s, p).len() ==> (#[trigger] scan_decls(s, p)[i]).1
                < scan_decls(s, p)[i + 1].1,
    decreases s.len() - p,
{
    if p >= s.len() {
    } else if abstract_at(s, p) {
        lemma_decl_end_bounds(s, p + 8);
        let e = decl_end(s, p + 8);
        lemma_scan_starts(s, e);
        assert forall|i: int| 0 <= i < scan_decls(s, p).len() implies p <= (#[trigger] scan_decls(
            s,
            p,
        )[i]).1 < s.len() by {
            assert(scan_decls(s, p)[i] == scan_decls(s, e)[i]);
        }
        assert forall|i: int| 0 <= i && i + 1 < scan_decls(s, p).len() implies (
        #[trigger] scan_decls(s, p)[i]).1 < scan_decls(s, p)[i + 1].1 by {
            assert(scan_decls(s, p)[i] == scan_decls(s, e)[i]);
            assert(scan_decls(s, p)[i + 1] == scan_decls(s, e)[i + 1]);
        }
    } else if decl_at(s, p) {
        lemma_decl_end_bounds(s, p);
        let e = decl_end(s, p);
        lemma_scan_starts(s, e);
        let rest = scan_decls(s, e);
        assert forall|i: int| 0 <= i < scan_decls(s, p).len() implies p <= (#[trigger] scan_decls(
            s,
            p,
        )[i]).1 < s.len() by {
            if i > 0 {
                assert(scan_decls(s, p)[i] == rest[i - 1]);
            }
        }
        assert forall|i: int| 0 <= i && i + 1 < scan_decls(s, p).len() implies (
        #[trigger] scan_decls(s, p)[i]).1 < scan_decls(s, p)[i + 1].1 by {
            assert(scan_decls(s, p)[i + 1] == rest[i]);
            if i > 0 {
                assert(scan_decls(s, p)[i] == rest[i - 1]);
            }
        }
    } else {
        lemma_scan_starts(s, p + 1);
        assert forall|i: int| 0 <= i < scan_decls(s, p).len() implies p <= (#[trigger] scan_decls(
            s,
            p,
        )[i]).1 < s.len() by {
            assert(scan_decls(s, p)[i] == scan_decls(s, p + 1)[i]);
        }
        assert forall|i: int| 0 <= i && i + 1 < scan_decls(s, p).len() implies (
        #[trigger] scan_decls(s, p)[i]).1 < scan_decls(s, p)[i + 1].1 by {
            assert(scan_decls(s, p)[i] == scan_decls(s, p + 1)[i]);
            assert(scan_decls(s, p)[i + 1] == scan_decls(s, p + 1)[i + 1]);
        }
    }
}

/// One non-abstract contract declaration and its textual span within the
/// stripped source.
#[derive(Clone, Debug, PartialEq)]
pub struct ContractSpan {
    pub name: String,
    /// Offset of the declaration in the stripped text.
    pub start: usize,
    /// Offset of the next accepted declaration, or the text length for the
    /// last one.
    pub end: usize,
}

pub fn ws_run_end_exec(v: &Vec<char>, p: usize) -> (r: usize)
    requires
        p <= v@.len(),
    ensures
        r == ws_run_end(v@, p as int),
        p <= r <= v@.len(),
{
    let n = v.len();
    let mut i: usize = p;
    while i < n && is_space_char(v[i])
        invariant
            p <= i <= n,
            n == v@.len(),
            ws_run_end(v@, p as int) == ws_run_end(v@, i as int),
        decreases n - i,
    {
        i = i + 1;
    }
    i
}

fn word_run_end_exec(v: &Vec<char>, p: usize) -> (r: usize)
    requires
        p <= v@.len(),
    ensures
        r == word_run_end(v@, p as int),
        p <= r <= v@.len(),
{
    let n = v.len();
    let mut i: usize = p;
    while i < n && is_word_char_exec(v[i])
        invariant
            p <= i <= n,
            n == v@.len(),
            word_run_end(v@, p as int) == word_run_end(v@, i as int),
        decreases n - i,
    {
        i = i + 1;
    }
    i
}

/// Tries to read a declaration site starting at `p`; on success returns the
/// declared name and the first position after the site.
fn try_decl(v: &Vec<char>, p: usize) -> (r: Option<(String, usize)>)
    requires
        p <= v@.len(),
    ensures
        match r {
            Some(d) => decl_at(v@, p as int) && d.0@ == decl_name(v@, p as int) && d.1
                == decl_end(v@, p as int) && p < d.1 <= v@.len(),
            None => !decl_at(v@, p as int),
        },
{
    proof {
        reveal_strlit("contract");
    }
    if p >= v.len() || !is_space_char(v[p]) {
        return None;
    }
    let j = ws_run_end_exec(v, p);
    let contract_pat = chars_of("contract");
    if !match_at(v, j, &contract_pat) {
        return None;
    }
    let k = ws_run_end_exec(v, j + 8);
    if k == j + 8 {
        return None;
    }
    let m = word_run_end_exec(v, k);
    if m == k || m >= v.len() || !is_space_char(v[m]) {
        return None;
    }
    let name_chars = copy_range(v, k, m);
    let name = string_of(&name_chars);
    Some((name, m + 1))
}

/// The view of the collected (name, start) pairs.
pub open spec fn pair_views(q: Seq<(String, usize)>) -> Seq<(Seq<char>, int)> {
    q.map_values(|t: (String, usize)| (t.0@, t.1 as int))
}

/// Finds every non-abstract `contract` declaration in stripped source text,
/// in order of appearance.  Each result's span runs from its own
/// declaration to the start of the next accepted declaration, the last one
/// to the end of the text, so the spans partition the tail of the text.
pub fn find_contracts(stripped: &str) -> (r: Vec<ContractSpan>)
    ensures
        r@.len() == scan_decls(stripped@, 0).len(),
        forall|i: int|
            0 <= i < r@.len() ==> (#[trigger] r@[i]).name@ == scan_decls(stripped@, 0)[i].0
                && r@[i].start == scan_decls(stripped@, 0)[i].1,
        forall|i: int|
            0 <= i && i + 1 < r@.len() ==> (#[trigger] r@[i]).end == scan_decls(stripped@, 0)[i
                + 1].1,
        r@.len() > 0 ==> r@.last().end == stripped@.len(),
{
    let v = chars_of(stripped);
    let ghost s = v@;
    let n = v.len();
    let abstract_pat = chars_of("abstract");
    proof {
        reveal_strlit("abstract");
    }
    let mut pairs: Vec<(String, usize)> = Vec::new();
    let mut p: usize = 0;
    proof {
        assert(pair_views(pairs@) + scan_decls(s, 0) =~= scan_decls(s, 0));
    }
    while p < n
        invariant
            n == s.len(),
            s == v@,
            abstract_pat@ == "abstract"@,
            p <= n,
            pair_views(pairs@) + scan_decls(s, p as int) == scan_decls(s, 0),
            forall|i: int| 0 <= i < pairs@.len() ==> (#[trigger] pairs@[i]).1 <= n,
        decreases n - p,
    {
        let ghost prev = pairs@;
        proof {
            reveal_strlit("abstract");
        }
        let mut handled = false;
        if match_at(&v, p, &abstract_pat) {
            match try_decl(&v, p + 8) {
                Some(d) => {
                    proof {
                        assert(abstract_at(s, p as int));
                        assert(scan_decls(s, p as int) == scan_decls(s, decl_end(s, p as int + 8)));
                    }
                    p = d.1;
                    handled = true;
                },
                None => {
                    proof {
                        assert(!abstract_at(s, p as int));
                    }
                },
            }
        } else {
            proof {
                assert(!abstract_at(s, p as int));
            }
        }
        if !handled {
            match try_decl(&v, p) {
                Some(d) => {
                    proof {
                        assert(scan_decls(s, p as int) == seq![(decl_name(s, p as int), p as int)]
                            + scan_decls(s, decl_end(s, p as int)));
                    }
                    let start = p;
                    p = d.1;
                    pairs.push((d.0, start));
                    proof {
                        assert(pair_views(pairs@) =~= pair_views(prev).push(
                            (decl_name(s, start as int), start as int),
                        ));
                        assert(pair_views(pairs@) + scan_decls(s, p as int) =~= pair_views(prev) + (
                        seq![(decl_name(s, start as int), start as int)] + scan_decls(
                            s,
                            p as int,
                        )));
                    }
                },
                None => {
                    proof {
                        assert(scan_decls(s, p as int) == scan_decls(s, p as int + 1));
                    }
                    p = p + 1;
                },
            }
        }
    }
    proof {
        assert(scan_decls(s, n as int) =~= Seq::<(Seq<char>, int)>::empty());
        assert(pair_views(pairs@) + scan_decls(s, n as int) =~= pair_views(pairs@));
    }
    // Derive each span's end: the next accepted start, or the end of text.
    let mut out: Vec<ContractSpan> = Vec::new();
    let mut i: usize = 0;
    while i < pairs.len()
        invariant
            pair_views(pairs@) == scan_decls(s, 0),
            forall|t: int| 0 <= t < pairs@.len() ==> (#[trigger] pairs@[t]).1 <= n,
            n == s.len(),
            i <= pairs@.len(),
            out@.len() == i,
            forall|t: int|
                0 <= t < i ==> (#[trigger] out@[t]).name@ == pairs@[t].0@ && out@[t].start
                    == pairs@[t].1,
            forall|t: int|
                0 <= t < i && t + 1 < pairs@.len() ==> (#[trigger] out@[t]).end == pairs@[t + 1].1,
            forall|t: int| 0 <= t < i && t + 1 == pairs@.len() ==> (#[trigger] out@[t]).end == n,
        decreases pairs@.len() - i,
    {
        let pr = &pairs[i];
        let name_copy = pr.0.clone();
        let start = pr.1;
        let end: usize = if i + 1 < pairs.len() {
            pairs[i + 1].1
        } else {
            n
        };
        out.push(ContractSpan { name: name_copy, start, end });
        i = i + 1;
    }
    proof {
        assert forall|i2: int| 0 <= i2 < out@.len() implies (#[trigger] out@[i2]).name@
            == scan_decls(s, 0)[i2].0 && out@[i2].start == scan_decls(s, 0)[i2].1 by {
            assert(pair_views(pairs@)[i2] == (pairs@[i2].0@, pairs@[i2].1 as int));
        }
        assert forall|i2: int| 0 <= i2 && i2 + 1 < out@.len() implies (#[trigger] out@[i2]).end
            == scan_decls(s, 0)[i2 + 1].1 by {
            assert(pair_views(pairs@)[i2 + 1] == (pairs@[i2 + 1].0@, pairs@[i2 + 1].1 as int));
        }
    }
    out
}

} // verus!
