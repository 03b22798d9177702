//! Classification of Solidity type tokens.
//!
//! A type token is *elementary* when it is one of the built-in value types:
//! `uintN` / `intN` for the bit widths 8, 16, ..., 256 with the aliases
//! `uint` / `int`, `bytes1` .. `bytes32`, the dynamic `bytes`, `string`,
//! `address`, `address payable` and `bool`.  A token is *custom* unless it is
//! elementary, an array of an elementary type, or begins with `fixed` or
//! `ufixed` (the fixed-point family is excluded wholesale, so a custom type
//! whose name happens to begin with one of these is misclassified as
//! non-custom).

use vstd::prelude::*;

use crate::text::{copy_range, chars_of, find_char_from, is_digit, is_digit_char, match_at};

verus! {

/// The numeric value of a digit string, most significant digit first.
pub open spec fn dec_val(s: Seq<char>) -> int
    decreases s.len(),
{
    if s.len() == 0 {
        0
    } else {
        dec_val(s.drop_last()) * 10 + (s.last() as u32 - '0' as u32)
    }
}

pub open spec fn all_digits(s: Seq<char>) -> bool {
    forall|i: int| 0 <= i < s.len() ==> is_digit(s[i])
}

/// A non-empty digit string without a leading zero: the canonical decimal
/// form of a positive number.
pub open spec fn canonical_num(s: Seq<char>) -> bool {
    s.len() >= 1 && all_digits(s) && s[0] != '0'
}

/// The decimal suffixes accepted after `uint` and `int`: nothing at all, or
/// a multiple of 8 between 8 and 256.
pub open spec fn valid_int_suffix(s: Seq<char>) -> bool {
    s.len() == 0 || (canonical_num(s) && 8 <= dec_val(s) <= 256 && dec_val(s) % 8 == 0)
}

/// The decimal suffixes accepted after `bytes`: nothing at all, or a width
/// between 1 and 32.
pub open spec fn valid_bytes_suffix(s: Seq<char>) -> bool {
    s.len() == 0 || (canonical_num(s) && 1 <= dec_val(s) <= 32)
}

pub open spec fn starts_with(s: Seq<char>, pre: Seq<char>) -> bool {
    pre.len() <= s.len() && s.subrange(0, pre.len() as int) == pre
}

/// The built-in elementary value types.
pub open spec fn is_elementary(t: Seq<char>) -> bool {
    ||| (starts_with(t, "uint"@) && valid_int_suffix(t.skip("uint"@.len() as int)))
    ||| (starts_with(t, "int"@) && valid_int_suffix(t.skip("int"@.len() as int)))
    ||| (starts_with(t, "bytes"@) && valid_bytes_suffix(t.skip("bytes"@.len() as int)))
    ||| t == "string"@
    ||| t == "address"@
    ||| t == "address payable"@
    ||| t == "bool"@
}

/// An array (of arrays, ...) of an elementary type: an elementary type
/// followed by `[`, with whatever comes after.
pub open spec fn is_elementary_array(t: Seq<char>) -> bool {
    exists|i: int| 0 <= i < t.len() && t[i] == '[' && is_elementary(t.take(i))
}

/// Whether a whitespace-trimmed Solidity type token names a user-defined
/// type rather than a built-in elementary type, an array of one, or a
/// fixed-point type.
pub open spec fn spec_is_custom_type(t: Seq<char>) -> bool {
    !(is_elementary(t) || is_elementary_array(t) || starts_with(t, "ufixed"@) || starts_with(
        t,
        "fixed"@,
    ))
}

/// Powers of ten.
pub open spec fn ten_pow(n: nat) -> int
    decreases n,
{
    if n == 0 {
        1
    } else {
        10 * ten_pow((n - 1) as nat)
    }
}

proof fn lemma_ten_pow_pos(n: nat)
    ensures
        ten_pow(n) >= 1,
    decreases n,
{
    if n > 0 {
        lemma_ten_pow_pos((n - 1) as nat);
    }
}

proof fn lemma_ten_pow_mono(a: nat, b: nat)
    requires
        a <= b,
    ensures
        1 <= ten_pow(a) <= ten_pow(b),
    decreases b,
{
    lemma_ten_pow_pos(a);
    if a < b {
        lemma_ten_pow_mono(a, (b - 1) as nat);
    }
}

proof fn lemma_dec_val_lower(s: Seq<char>)
    requires
        canonical_num(s),
    ensures
        dec_val(s) >= ten_pow((s.len() - 1) as nat),
    decreases s.len(),
{
    assert(is_digit(s[0]));
    if s.len() == 1 {
        assert(s.last() == s[0]);
        assert(dec_val(s.drop_last()) == 0);
        assert(s.last() as u32 != '0' as u32) by {
            crate::text::lemma_char_cast_neq(s.last(), '0');
        }
        assert(dec_val(s) == s.last() as u32 - '0' as u32);
        assert((s.len() - 1) as nat == 0);
        assert(ten_pow(0) == 1);
    } else {
        assert forall|i: int| 0 <= i < s.drop_last().len() implies is_digit(
            #[trigger] s.drop_last()[i],
        ) by {
            assert(s.drop_last()[i] == s[i]);
        }
        assert(canonical_num(s.drop_last()));
        lemma_dec_val_lower(s.drop_last());
        assert(is_digit(s.last())) by {
            assert(is_digit(s[s.len() - 1]));
        }
        assert(s.last() as u32 >= '0' as u32);
        assert(dec_val(s.drop_last()) * 10 >= ten_pow((s.len() - 2) as nat) * 10);
        assert(ten_pow((s.len() - 1) as nat) == 10 * ten_pow((s.len() - 2) as nat));
        assert(dec_val(s) == dec_val(s.drop_last()) * 10 + (s.last() as u32 - '0' as u32));
    }
}

/// Every valid bit width makes an elementary integer type and every valid
/// byte width an elementary bytes type: a token `uint`/`int` followed by a
/// canonical multiple of 8 between 8 and 256, or `bytes` followed by a
/// canonical width between 1 and 32, is never custom.
pub proof fn lemma_widths_not_custom(s: Seq<char>)
    requires
        canonical_num(s),
    ensures
        8 <= dec_val(s) <= 256 && dec_val(s) % 8 == 0 ==> !spec_is_custom_type("uint"@ + s)
            && !spec_is_custom_type("int"@ + s),
        1 <= dec_val(s) <= 32 ==> !spec_is_custom_type("bytes"@ + s),
{
    assert(starts_with("uint"@ + s, "uint"@)) by {
        assert(("uint"@ + s).subrange(0, "uint"@.len() as int) =~= "uint"@);
    }
    assert(("uint"@ + s).skip("uint"@.len() as int) =~= s);
    assert(starts_with("int"@ + s, "int"@)) by {
        assert(("int"@ + s).subrange(0, "int"@.len() as int) =~= "int"@);
    }
    assert(("int"@ + s).skip("int"@.len() as int) =~= s);
    assert(starts_with("bytes"@ + s, "bytes"@)) by {
        assert(("bytes"@ + s).subrange(0, "bytes"@.len() as int) =~= "bytes"@);
    }
    assert(("bytes"@ + s).skip("bytes"@.len() as int) =~= s);
}

/// No elementary type name contains `[`.
proof fn lemma_elementary_no_bracket(t: Seq<char>, i: int)
    requires
        is_elementary(t),
        0 <= i < t.len(),
    ensures
        t[i] != '[',
{
    reveal_strlit("uint");
    reveal_strlit("int");
    reveal_strlit("bytes");
    reveal_strlit("string");
    reveal_strlit("address");
    reveal_strlit("address payable");
    reveal_strlit("bool");
    if starts_with(t, "uint"@) && valid_int_suffix(t.skip("uint"@.len() as int)) {
        if i < 4 {
            assert(t.subrange(0, 4)[i] == t[i]);
        } else {
            assert(is_digit(t.skip(4)[i - 4]));
        }
    } else if starts_with(t, "int"@) && valid_int_suffix(t.skip("int"@.len() as int)) {
        if i < 3 {
            assert(t.subrange(0, 3)[i] == t[i]);
        } else {
            assert(is_digit(t.skip(3)[i - 3]));
        }
    } else if starts_with(t, "bytes"@) && valid_bytes_suffix(t.skip("bytes"@.len() as int)) {
        if i < 5 {
            assert(t.subrange(0, 5)[i] == t[i]);
        } else {
            assert(is_digit(t.skip(5)[i - 5]));
        }
    } else {
    }
}

/// Reads the decimal suffix `v[from..]` and decides whether it is a valid
/// `uint`/`int` width (when `bytes_widths` is false) or a valid `bytes`
/// width (when it is true).
fn valid_suffix(v: &Vec<char>, from: usize, bytes_widths: bool) -> (r: bool)
    requires
        from <= v@.len(),
    ensures
        r == if bytes_widths {
            valid_bytes_suffix(v@.skip(from as int))
        } else {
            valid_int_suffix(v@.skip(from as int))
        },
{
    let n = v.len();
    if from == n {
        return true;
    }
    // A canonical number: digits only, no leading zero.
    let mut i: usize = from;
    let mut val: u32 = 0;
    while i < n
        invariant
            from <= i <= n,
            n == v@.len(),
            forall|m: int| from <= m < i ==> is_digit(v@[m]),
            val == dec_val(v@.subrange(from as int, i as int)),
            val < ten_pow((i - from) as nat),
            val < 10000,
            i - from <= 4,
        decreases n - i,
    {
        if !is_digit_char(v[i]) {
            proof {
                assert(!all_digits(v@.skip(from as int))) by {
                    assert(v@.skip(from as int)[i - from] == v@[i as int]);
                }
            }
            return false;
        }
        if i - from >= 4 {
            // Five or more digits: the value is at least 10000, out of range
            // either way.
            proof {
                let s = v@.skip(from as int);
                if canonical_num(s) {
                    lemma_dec_val_lower(s);
                    lemma_ten_pow_mono(4, (s.len() - 1) as nat);
                    assert(ten_pow(4) == 10000) by {
                        reveal_with_fuel(ten_pow, 6);
                    }
                }
            }
            return false;
        }
        proof {
            let k = (i - from) as nat;
            assert(ten_pow((k + 1) as nat) == 10 * ten_pow(k));
            lemma_ten_pow_mono((k + 1) as nat, 4);
            assert(ten_pow(4) == 10000) by {
                reveal_with_fuel(ten_pow, 6);
            }
        }
        val = val * 10 + (v[i] as u32 - 48);
        proof {
            let sub = v@.subrange(from as int, (i + 1) as int);
            assert(sub.drop_last() =~= v@.subrange(from as int, i as int));
            assert(sub.last() == v@[i as int]);
            assert(is_digit(v@[i as int]));
        }
        i = i + 1;
    }
    proof {
        assert(v@.subrange(from as int, n as int) =~= v@.skip(from as int));
    }
    if v[from] == '0' {
        proof {
            assert(v@.skip(from as int)[0] == v@[from as int]);
        }
        return false;
    }
    proof {
        assert(v@.skip(from as int)[0] == v@[from as int]);
        assert(canonical_num(v@.skip(from as int)));
    }
    if bytes_widths {
        1 <= val && val <= 32
    } else {
        8 <= val && val <= 256 && val % 8 == 0
    }
}

/// Whether the token `v` names an elementary type.
fn elementary_chars(v: &Vec<char>) -> (r: bool)
    ensures
        r == is_elementary(v@),
{
    let uint_p = chars_of("uint");
    let int_p = chars_of("int");
    let bytes_p = chars_of("bytes");
    if match_at(v, 0, &uint_p) {
        if valid_suffix(v, uint_p.len(), false) {
            proof {
                assert(v@.skip(uint_p@.len() as int) == v@.skip("uint"@.len() as int));
            }
            return true;
        }
    }
    if match_at(v, 0, &int_p) {
        if valid_suffix(v, int_p.len(), false) {
            return true;
        }
    }
    if match_at(v, 0, &bytes_p) {
        if valid_suffix(v, bytes_p.len(), true) {
            return true;
        }
    }
    let string_p = chars_of("string");
    let address_p = chars_of("address");
    let address_payable_p = chars_of("address payable");
    let bool_p = chars_of("bool");
    if v.len() == string_p.len() && match_at(v, 0, &string_p) {
        proof {
            assert(v@ =~= "string"@);
        }
        return true;
    }
    if v.len() == address_p.len() && match_at(v, 0, &address_p) {
        proof {
            assert(v@ =~= "address"@);
        }
        return true;
    }
    if v.len() == address_payable_p.len() && match_at(v, 0, &address_payable_p) {
        proof {
            assert(v@ =~= "address payable"@);
        }
        return true;
    }
    if v.len() == bool_p.len() && match_at(v, 0, &bool_p) {
        proof {
            assert(v@ =~= "bool"@);
        }
        return true;
    }
    proof {
        assert(v@.subrange(0, v@.len() as int) =~= v@);
        lemma_not_elementary(v@);
    }
    false
}

proof fn lemma_not_elementary(t: Seq<char>)
    requires
        !(starts_with(t, "uint"@) && valid_int_suffix(t.skip("uint"@.len() as int))),
        !(starts_with(t, "int"@) && valid_int_suffix(t.skip("int"@.len() as int))),
        !(starts_with(t, "bytes"@) && valid_bytes_suffix(t.skip("bytes"@.len() as int))),
        t != "string"@,
        t != "address"@,
        t != "address payable"@,
        t != "bool"@,
    ensures
        !is_elementary(t),
{
}

/// Whether a Solidity type token (whitespace-trimmed, array suffix kept)
/// names a user-defined type.  Elementary types, arrays of elementary types
/// and everything in the fixed-point family are not custom; every other
/// token is.
pub fn is_custom_type(t: &str) -> (r: bool)
    ensures
        r == spec_is_custom_type(t@),
{
    let v = chars_of(t);
    is_custom_type_chars(&v)
}

/// `is_custom_type` on an already-exploded token.
pub fn is_custom_type_chars(v: &Vec<char>) -> (r: bool)
    ensures
        r == spec_is_custom_type(v@),
{
    if elementary_chars(v) {
        return false;
    }
    let bracket = find_char_from(v, 0, '[');
    match bracket {
        Some(i) => {
            let prefix = copy_range(v, 0, i);
            if elementary_chars(&prefix) {
                proof {
                    assert(is_elementary_array(v@)) by {
                        assert(v@[i as int] == '[' && is_elementary(v@.take(i as int)));
                    }
                }
                return false;
            }
            proof {
                if is_elementary_array(v@) {
                    let j = choose|j: int|
                        0 <= j < v@.len() && v@[j] == '[' && is_elementary(v@.take(j));
                    if j < i {
                        assert(v@[j] != '[');
                        assert(false);
                    } else if j > i {
                        lemma_elementary_no_bracket(v@.take(j), i as int);
                        assert(v@.take(j)[i as int] == v@[i as int]);
                        assert(false);
                    }
                }
            }
        },
        None => {
            proof {
                if is_elementary_array(v@) {
                    let j = choose|j: int|
                        0 <= j < v@.len() && v@[j] == '[' && is_elementary(v@.take(j));
                    assert(v@[j] != '[');
                    assert(false);
                }
            }
        },
    }
    let ufixed_p = chars_of("ufixed");
    if match_at(v, 0, &ufixed_p) {
        return false;
    }
    let fixed_p = chars_of("fixed");
    if match_at(v, 0, &fixed_p) {
        return false;
    }
    true
}

} // verus!
