//! Removal of comments and string literals from Solidity source text.
//!
//! Stripping runs in two passes.  The first pass walks the text once and
//! removes, whichever starts first: a single- or double-quoted literal (up to
//! its closing quote), a block comment `/*...*/` (up to its closing `*/`), or
//! a line comment `//...` (up to, but not including, the next newline).
//! Because a quoted span is consumed whole, comment openers inside it are
//! never treated as comments, and because a comment is consumed whole, quotes
//! inside it never open a literal.  An unclosed quote or `/*` does not match;
//! its first character is kept and scanning goes on after it.  The second
//! pass removes quoted literals again, in the same way.  Offsets in the
//! result do not map back to the input; only offsets within the stripped
//! text are used downstream.

use vstd::prelude::*;

use crate::text::{
    chars_of, find2, find2_from, find_c, find_char_from, lemma_find2_bound, lemma_find_c_bound,
    string_of,
};

verus! {

/// One pass removing quoted literals, block comments and line comments,
/// whichever starts first.
pub open spec fn strip_combined(s: Seq<char>) -> Seq<char>
    decreases s.len(),
    via strip_combined_decreases
{
    if s.len() == 0 {
        Seq::empty()
    } else if s[0] == '"' || s[0] == '\'' {
        match find_c(s.drop_first(), s[0]) {
            Some(j) => strip_combined(s.skip(j + 2)),
            None => seq![s[0]] + strip_combined(s.drop_first()),
        }
    } else if s.len() >= 2 && s[0] == '/' && s[1] == '*' {
        match find2(s.skip(2), '*', '/') {
            Some(j) => strip_combined(s.skip(j + 4)),
            None => seq![s[0]] + strip_combined(s.drop_first()),
        }
    } else if s.len() >= 2 && s[0] == '/' && s[1] == '/' {
        match find_c(s, '\n') {
            Some(j) => strip_combined(s.skip(j)),
            None => Seq::empty(),
        }
    } else {
        seq![s[0]] + strip_combined(s.drop_first())
    }
}

#[via_fn]
proof fn strip_combined_decreases(s: Seq<char>) {
    if s.len() > 0 {
        if s[0] == '"' || s[0] == '\'' {
            lemma_find_c_bound(s.drop_first(), s[0]);
        } else if s.len() >= 2 && s[0] == '/' && s[1] == '*' {
            lemma_find2_bound(s.skip(2), '*', '/');
        } else if s.len() >= 2 && s[0] == '/' && s[1] == '/' {
            lemma_find_c_bound(s, '\n');
            assert(s[0] != '\n');
        }
    }
}

/// One pass removing quoted literals alone.
pub open spec fn strip_strings(s: Seq<char>) -> Seq<char>
    decreases s.len(),
    via strip_strings_decreases
{
    if s.len() == 0 {
        Seq::empty()
    } else if s[0] == '"' || s[0] == '\'' {
        match find_c(s.drop_first(), s[0]) {
            Some(j) => strip_strings(s.skip(j + 2)),
            None => seq![s[0]] + strip_strings(s.drop_first()),
        }
    } else {
        seq![s[0]] + strip_strings(s.drop_first())
    }
}

#[via_fn]
proof fn strip_strings_decreases(s: Seq<char>) {
    if s.len() > 0 && (s[0] == '"' || s[0] == '\'') {
        lemma_find_c_bound(s.drop_first(), s[0]);
    }
}

/// What stripping leaves of `s`: the combined pass, then the literal pass.
pub open spec fn spec_strip_source(s: Seq<char>) -> Seq<char> {
    strip_strings(strip_combined(s))
}

fn strip_combined_exec(v: &Vec<char>) -> (r: Vec<char>)
    ensures
        r@ == strip_combined(v@),
{
    let n = v.len();
    let mut out: Vec<char> = Vec::new();
    let mut p: usize = 0;
    proof {
        assert(v@.skip(0) =~= v@);
        assert(out@ + strip_combined(v@) =~= strip_combined(v@));
    }
    while p < n
        invariant
            n == v@.len(),
            p <= n,
            out@ + strip_combined(v@.skip(p as int)) == strip_combined(v@),
        decreases n - p,
    {
        let ghost s = v@.skip(p as int);
        let ghost prev = out@;
        let c = v[p];
        proof {
            assert(s[0] == c);
            assert(s.drop_first() =~= v@.skip(p as int + 1));
        }
        if c == '"' || c == '\'' {
            match find_char_from(v, p + 1, c) {
                Some(q) => {
                    proof {
                        assert(find_c(s.drop_first(), c) == Some(q - (p + 1) as int));
                        assert(s.skip((q - (p + 1) as int) + 2) =~= v@.skip(q as int + 1));
                        assert(strip_combined(s) == strip_combined(v@.skip(q as int + 1)));
                    }
                    p = q + 1;
                },
                None => {
                    out.push(c);
                    proof {
                        assert(strip_combined(s) == seq![c] + strip_combined(s.drop_first()));
                        assert(out@ + strip_combined(v@.skip(p as int + 1)) =~= prev
                            + strip_combined(s));
                    }
                    p = p + 1;
                },
            }
        } else if c == '/' && p + 1 < n && v[p + 1] == '*' {
            proof {
                assert(s.len() >= 2 && s[1] == '*');
                assert(s.skip(2) =~= v@.skip(p as int + 2));
            }
            match find2_from(v, p + 2, '*', '/') {
                Some(q) => {
                    proof {
                        assert(find2(s.skip(2), '*', '/') == Some(q - (p + 2) as int));
                        assert(s.skip((q - (p + 2) as int) + 4) =~= v@.skip(q as int + 2));
                        assert(strip_combined(s) == strip_combined(v@.skip(q as int + 2)));
                    }
                    p = q + 2;
                },
                None => {
                    out.push(c);
                    proof {
                        assert(strip_combined(s) == seq![c] + strip_combined(s.drop_first()));
                        assert(out@ + strip_combined(v@.skip(p as int + 1)) =~= prev
                            + strip_combined(s));
                    }
                    p = p + 1;
                },
            }
        } else if c == '/' && p + 1 < n && v[p + 1] == '/' {
            proof {
                assert(s.len() >= 2 && s[1] == '/');
            }
            match find_char_from(v, p, '\n') {
                Some(q) => {
                    proof {
                        assert(find_c(s, '\n') == Some(q - p as int));
                        assert(s.skip(q - p as int) =~= v@.skip(q as int));
                        assert(strip_combined(s) == strip_combined(v@.skip(q as int)));
                        assert(q >= p + 2) by {
                            assert(v@[p as int] != '\n' && v@[p as int + 1] != '\n');
                        }
                    }
                    p = q;
                },
                None => {
                    proof {
                        assert(find_c(s, '\n') is None);
                        assert(strip_combined(s) =~= Seq::<char>::empty());
                        assert(v@.skip(n as int) =~= Seq::<char>::empty());
                        assert(out@ + strip_combined(v@.skip(n as int)) =~= out@
                            + strip_combined(s));
                    }
                    p = n;
                },
            }
        } else {
            proof {
                if s.len() >= 2 {
                    assert(s[1] == v@[p as int + 1]);
                }
                assert(strip_combined(s) == seq![c] + strip_combined(s.drop_first()));
            }
            out.push(c);
            proof {
                assert(out@ + strip_combined(v@.skip(p as int + 1)) =~= prev + strip_combined(s));
            }
            p = p + 1;
        }
    }
    proof {
        assert(v@.skip(n as int) =~= Seq::<char>::empty());
        assert(out@ + strip_combined(v@.skip(n as int)) =~= out@);
    }
    out
}

fn strip_strings_exec(v: &Vec<char>) -> (r: Vec<char>)
    ensures
        r@ == strip_strings(v@),
{
    let n = v.len();
    let mut out: Vec<char> = Vec::new();
    let mut p: usize = 0;
    proof {
        assert(v@.skip(0) =~= v@);
        assert(out@ + strip_strings(v@) =~= strip_strings(v@));
    }
    while p < n
        invariant
            n == v@.len(),
            p <= n,
            out@ + strip_strings(v@.skip(p as int)) == strip_strings(v@),
        decreases n - p,
    {
        let ghost s = v@.skip(p as int);
        let ghost prev = out@;
        let c = v[p];
        proof {
            assert(s[0] == c);
            assert(s.drop_first() =~= v@.skip(p as int + 1));
        }
        if c == '"' || c == '\'' {
            match find_char_from(v, p + 1, c) {
                Some(q) => {
                    proof {
                        assert(find_c(s.drop_first(), c) == Some(q - (p + 1) as int));
                        assert(s.skip((q - (p + 1) as int) + 2) =~= v@.skip(q as int + 1));
                        assert(strip_strings(s) == strip_strings(v@.skip(q as int + 1)));
                    }
                    p = q + 1;
                },
                None => {
                    out.push(c);
                    proof {
                        assert(strip_strings(s) == seq![c] + strip_strings(s.drop_first()));
                        assert(out@ + strip_strings(v@.skip(p as int + 1)) =~= prev
                            + strip_strings(s));
                    }
                    p = p + 1;
                },
            }
        } else {
            out.push(c);
            proof {
                assert(strip_strings(s) == seq![c] + strip_strings(s.drop_first()));
                assert(out@ + strip_strings(v@.skip(p as int + 1)) =~= prev + strip_strings(s));
            }
            p = p + 1;
        }
    }
    proof {
        assert(v@.skip(n as int) =~= Seq::<char>::empty());
        assert(out@ + strip_strings(v@.skip(n as int)) =~= out@);
    }
    out
}

/// Strips comments and quoted literals from raw Solidity text, so that later
/// scans cannot match inside either.
pub fn strip_source(source: &str) -> (r: String)
    ensures
        r@ == spec_strip_source(source@),
{
    let v = chars_of(source);
    let pass1 = strip_combined_exec(&v);
    let pass2 = strip_strings_exec(&pass1);
    string_of(&pass2)
}

} // verus!
