//! Naming and helper decisions for the generated-code templates.
//!
//! Template rendering itself happens outside the library; these functions
//! fix the name a template's output file gets and what the storage-location
//! helper prints for a given type.

use vstd::prelude::*;

use crate::text::{chars_of, copy_range, ends_with, ends_with_chars, eq_chars, string_of};

verus! {

/// The output name of a template file: the file name without a trailing
/// `.hbs`, given a `.sol` extension unless it has one already.
pub open spec fn spec_template_name(filename: Seq<char>) -> Seq<char> {
    let base = if ends_with(filename, ".hbs"@) {
        filename.take(filename.len() - ".hbs"@.len())
    } else {
        filename
    };
    if ends_with(base, ".sol"@) {
        base
    } else {
        base + ".sol"@
    }
}

pub fn template_name(filename: &str) -> (r: String)
    ensures
        r@ == spec_template_name(filename@),
{
    let v = chars_of(filename);
    let hbs_pat = chars_of(".hbs");
    proof {
        reveal_strlit(".hbs");
    }
    let base = if ends_with_chars(&v, &hbs_pat) {
        copy_range(&v, 0, v.len() - 4)
    } else {
        copy_range(&v, 0, v.len())
    };
    proof {
        assert(v@.subrange(0, v@.len() as int) =~= v@);
        assert(v@.take(v@.len() - 4) == v@.subrange(0, v@.len() - 4));
    }
    let sol_pat = chars_of(".sol");
    if ends_with_chars(&base, &sol_pat) {
        string_of(&base)
    } else {
        let base_str = string_of(&base);
        base_str.concat(".sol")
    }
}

/// What the storage-location helper prints for a type: `memory` for
/// `string`, nothing for anything else.
pub fn memory_type(value: &str) -> (r: String)
    ensures
        r@ == if value@ == "string"@ {
            "memory"@
        } else {
            Seq::<char>::empty()
        },
{
    let v = chars_of(value);
    let pat = chars_of("string");
    if eq_chars(&v, &pat) {
        "memory".to_owned()
    } else {
        String::new()
    }
}

} // verus!
