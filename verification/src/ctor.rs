//! Extraction of a contract's constructor argument list from its span of
//! stripped source text.
//!
//! The extractor looks for the first `constructor`, optional whitespace and
//! `(`, and captures up to the next `)`.  No constructor, or one whose
//! captured parameter text trims to nothing, yields no arguments.  Otherwise
//! the text splits on `", "` into one piece per argument, and each piece
//! splits on single spaces into `type [qualifier] name` tokens: a `memory`
//! qualifier is recorded, `address payable` is folded into the type, and the
//! type is classified with `is_custom_type`.  A piece with too few tokens is
//! a fatal parse error.

use vstd::prelude::*;

use crate::classify::{is_custom_type_chars, spec_is_custom_type};
use crate::scan::ws_run_end;
use crate::text::{
    chars_of, copy_range, eq_chars, find_c, find_char_from, match_at, split1, split1_exec, split2,
    split2_exec, string_of, trim, trim_exec, views_of,
};
use crate::types::{ArgModel, ConstructorArgObject, ParseError};

verus! {

/// The capture bounds of the first `constructor (...)` at or after `p`:
/// the offsets just inside the parentheses.  `None` when there is none, or
/// when the opening parenthesis is never closed.
pub open spec fn ctor_find(s: Seq<char>, p: int) -> Option<(int, int)>
    decreases s.len() - p,
    when 0 <= p <= s.len()
{
    if p + 11 > s.len() {
        None
    } else if s.subrange(p, p + 11) == "constructor"@ {
        let w = ws_run_end(s, p + 11);
        if w < s.len() && s[w] == '(' {
            match find_c(s.skip(w + 1), ')') {
                Some(j) => Some((w + 1, w + 1 + j)),
                None => None,
            }
        } else {
            ctor_find(s, p + 1)
        }
    } else {
        ctor_find(s, p + 1)
    }
}

/// One argument piece, tokenized on single spaces.
pub open spec fn parse_arg(arg: Seq<char>) -> Option<ArgModel> {
    let toks = split1(arg, ' ');
    if toks.len() < 2 {
        None
    } else if toks[1] == "memory"@ {
        if toks.len() < 3 {
            None
        } else {
            Some(
                ArgModel {
                    name: toks[2],
                    memory_type: true,
                    arg_type: toks[0],
                    custom_type: spec_is_custom_type(toks[0]),
                },
            )
        }
    } else if toks[0] == "address"@ && toks[1] == "payable"@ {
        if toks.len() < 3 {
            None
        } else {
            Some(
                ArgModel {
                    name: toks[2],
                    memory_type: false,
                    arg_type: "address payable"@,
                    custom_type: spec_is_custom_type(toks[0]),
                },
            )
        }
    } else {
        Some(
            ArgModel {
                name: toks[1],
                memory_type: false,
                arg_type: toks[0],
                custom_type: spec_is_custom_type(toks[0]),
            },
        )
    }
}

/// Every argument piece in order; `None` as soon as one is malformed.
pub open spec fn parse_args_seq(parts: Seq<Seq<char>>) -> Option<Seq<ArgModel>>
    decreases parts.len(),
{
    if parts.len() == 0 {
        Some(seq![])
    } else {
        match parse_arg(parts[0]) {
            None => None,
            Some(a) => match parse_args_seq(parts.drop_first()) {
                None => None,
                Some(rest) => Some(seq![a] + rest),
            },
        }
    }
}

/// What constructor extraction finds in a contract span.
pub enum CtorExtraction {
    /// No constructor, or an empty parameter list.
    Absent,
    /// The parsed argument list.
    Found(Seq<ArgModel>),
    /// A parameter piece with too few tokens.
    Malformed,
}

/// The arguments extracted from a contract span.
pub open spec fn spec_extract(span: Seq<char>) -> CtorExtraction {
    match ctor_find(span, 0) {
        None => CtorExtraction::Absent,
        Some(c) => {
            let cap = trim(span.subrange(c.0, c.1));
            if cap.len() == 0 {
                CtorExtraction::Absent
            } else {
                match parse_args_seq(split2(cap, ',', ' ')) {
                    None => CtorExtraction::Malformed,
                    Some(args) => CtorExtraction::Found(args),
                }
            }
        },
    }
}

/// The views of a vector of parsed arguments.
pub open spec fn args_views(q: Seq<ConstructorArgObject>) -> Seq<ArgModel> {
    q.map_values(|x: ConstructorArgObject| x@)
}

fn ctor_find_exec(v: &Vec<char>) -> (r: Option<(usize, usize)>)
    ensures
        match r {
            Some(c) => ctor_find(v@, 0) == Some((c.0 as int, c.1 as int)) && c.0 <= c.1 <= v@.len(),
            None => ctor_find(v@, 0) is None,
        },
{
    let n = v.len();
    let pat = chars_of("constructor");
    proof {
        reveal_strlit("constructor");
    }
    if n < 11 {
        proof {
            assert(ctor_find(v@, 0) is None);
        }
        return None;
    }
    let mut p: usize = 0;
    while p <= n - 11
        invariant
            n == v@.len(),
            11 <= n,
            pat@ == "constructor"@,
            p <= n,
            ctor_find(v@, 0) == ctor_find(v@, p as int),
        decreases n - p,
    {
        proof {
            reveal_strlit("constructor");
        }
        if match_at(v, p, &pat) {
            let w = crate::scan::ws_run_end_exec(v, p + 11);
            if w < n && v[w] == '(' {
                match find_char_from(v, w + 1, ')') {
                    Some(j) => {
                        proof {
                            assert(find_c(v@.skip(w as int + 1), ')') == Some(j - (w + 1) as int));
                            assert(ctor_find(v@, p as int) == Some((w as int + 1, j as int)));
                        }
                        return Some((w + 1, j));
                    },
                    None => {
                        proof {
                            assert(ctor_find(v@, p as int) is None);
                        }
                        return None;
                    },
                }
            } else {
                proof {
                    assert(ctor_find(v@, p as int) == ctor_find(v@, p as int + 1));
                }
                p = p + 1;
            }
        } else {
            proof {
                assert(ctor_find(v@, p as int) == ctor_find(v@, p as int + 1));
            }
            p = p + 1;
        }
    }
    proof {
        assert(ctor_find(v@, p as int) is None);
    }
    None
}

fn parse_arg_exec(arg: &Vec<char>) -> (r: Result<ConstructorArgObject, ParseError>)
    ensures
        match parse_arg(arg@) {
            Some(m) => r matches Ok(a) && a@ == m,
            None => r matches Err(e) && e == ParseError::ConstructorArgSyntax,
        },
{
    let toks = split1_exec(arg, ' ');
    let ghost tv = split1(arg@, ' ');
    proof {
        assert(views_of(toks@) == tv);
        assert(forall|i: int| 0 <= i < toks@.len() ==> (#[trigger] toks@[i])@ == tv[i]);
    }
    if toks.len() < 2 {
        return Err(ParseError::ConstructorArgSyntax);
    }
    let memory_pat = chars_of("memory");
    if eq_chars(&toks[1], &memory_pat) {
        if toks.len() < 3 {
            return Err(ParseError::ConstructorArgSyntax);
        }
        return Ok(
            ConstructorArgObject {
                name: string_of(&toks[2]),
                memory_type: true,
                arg_type: string_of(&toks[0]),
                custom_type: is_custom_type_chars(&toks[0]),
            },
        );
    }
    let address_pat = chars_of("address");
    let payable_pat = chars_of("payable");
    if eq_chars(&toks[0], &address_pat) && eq_chars(&toks[1], &payable_pat) {
        if toks.len() < 3 {
            return Err(ParseError::ConstructorArgSyntax);
        }
        return Ok(
            ConstructorArgObject {
                name: string_of(&toks[2]),
                memory_type: false,
                arg_type: "address payable".to_owned(),
                custom_type: is_custom_type_chars(&toks[0]),
            },
        );
    }
    Ok(
        ConstructorArgObject {
            name: string_of(&toks[1]),
            memory_type: false,
            arg_type: string_of(&toks[0]),
            custom_type: is_custom_type_chars(&toks[0]),
        },
    )
}

fn parse_args_exec(parts: &Vec<Vec<char>>) -> (r: Result<Vec<ConstructorArgObject>, ParseError>)
    ensures
        match parse_args_seq(views_of(parts@)) {
            Some(args) => r matches Ok(v) && args_views(v@) == args,
            None => r matches Err(e) && e == ParseError::ConstructorArgSyntax,
        },
{
    let ghost pv = views_of(parts@);
    let mut out: Vec<ConstructorArgObject> = Vec::new();
    let mut i: usize = 0;
    proof {
        assert(pv.skip(0) =~= pv);
    }
    while i < parts.len()
        invariant
            i <= parts@.len(),
            pv == views_of(parts@),
            match parse_args_seq(pv.skip(i as int)) {
                Some(rest) => parse_args_seq(pv) == Some(args_views(out@) + rest),
                None => parse_args_seq(pv) is None,
            },
        decreases parts@.len() - i,
    {
        let ghost prev = out@;
        let ghost s = pv.skip(i as int);
        proof {
            assert(s[0] == pv[i as int]);
            assert(pv[i as int] == (#[trigger] parts@[i as int])@);
            assert(s.drop_first() =~= pv.skip(i as int + 1));
        }
        match parse_arg_exec(&parts[i]) {
            Ok(a) => {
                out.push(a);
                proof {
                    assert(parse_arg(s[0]) is Some);
                    assert(args_views(out@) =~= args_views(prev).push(parse_arg(s[0])->0));
                    if parse_args_seq(pv.skip(i as int + 1)) is Some {
                        let rest2 = parse_args_seq(pv.skip(i as int + 1))->0;
                        assert(parse_args_seq(s) == Some(seq![parse_arg(s[0])->0] + rest2));
                        assert(args_views(prev) + (seq![parse_arg(s[0])->0] + rest2)
                            =~= args_views(out@) + rest2);
                    }
                }
                i = i + 1;
            },
            Err(e) => {
                proof {
                    assert(parse_arg(s[0]) is None);
                    assert(parse_args_seq(s) is None);
                }
                return Err(e);
            },
        }
    }
    proof {
        assert(pv.skip(pv.len() as int) =~= Seq::<Seq<char>>::empty());
        assert(parse_args_seq(pv) == Some(args_views(out@) + Seq::<ArgModel>::empty()));
        assert(args_views(out@) + Seq::<ArgModel>::empty() =~= args_views(out@));
    }
    Ok(out)
}

/// Extracts the first constructor's arguments from a contract span.
/// `Ok(None)` when the span holds no constructor or an empty parameter
/// list; `Ok(Some(args))` with the parsed arguments in order; `Err` exactly
/// when a parameter piece has too few space-separated tokens.
pub fn extract_constructor_args(span: &str) -> (r: Result<
    Option<Vec<ConstructorArgObject>>,
    ParseError,
>)
    ensures
        match spec_extract(span@) {
            CtorExtraction::Absent => r matches Ok(a) && a is None,
            CtorExtraction::Found(args) => r matches Ok(a) && a matches Some(v) && args_views(v@)
                == args,
            CtorExtraction::Malformed => r matches Err(e) && e == ParseError::ConstructorArgSyntax,
        },
{
    let v = chars_of(span);
    match ctor_find_exec(&v) {
        None => Ok(None),
        Some(c) => {
            let raw = copy_range(&v, c.0, c.1);
            let cap = trim_exec(&raw);
            if cap.len() == 0 {
                Ok(None)
            } else {
                let parts = split2_exec(&cap, ',', ' ');
                match parse_args_exec(&parts) {
                    Ok(args) => Ok(Some(args)),
                    Err(e) => Err(e),
                }
            }
        },
    }
}

} // verus!
