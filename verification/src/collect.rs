//! Assembly of contract descriptions from a source tree.
//!
//! The collector takes the `.sol` files of a tree as plain values — each
//! file's root-relative forward-slash path, base name and contents — strips
//! each file, finds its contract declarations, extracts each contract's
//! constructor from its span, and builds one `ContractObject` per accepted
//! declaration, in file order and in order of appearance within a file.
//! Reading the tree from disk is the caller's business.

use vstd::prelude::*;

use crate::ctor::{args_views, spec_extract, CtorExtraction};
use crate::scan::{find_contracts, lemma_scan_starts, scan_decls};
use crate::strip::{spec_strip_source, strip_source};
use crate::text::{chars_of, copy_range, ends_with, ends_with_chars, string_of};
use crate::types::{ContractModel, ContractObject, ConstructorObject, ParseError};

verus! {

/// One source file handed to the collector.
#[derive(Clone, Debug, PartialEq)]
pub struct SourceFile {
    /// Path relative to the repository root, with forward-slash separators.
    pub path: String,
    /// Base name of the file.
    pub name: String,
    /// Raw contents.
    pub content: String,
}

/// The ghost model of a source file.
pub struct FileModel {
    pub path: Seq<char>,
    pub name: Seq<char>,
    pub content: Seq<char>,
}

impl View for SourceFile {
    type V = FileModel;

    open spec fn view(&self) -> FileModel {
        FileModel { path: self.path@, name: self.name@, content: self.content@ }
    }
}

/// The contract models of the declarations `decls[i..]`, each holding the
/// arguments extracted from its span of the stripped text; `None` as soon
/// as one span's constructor is malformed.
pub open spec fn contracts_from(
    f: FileModel,
    stripped: Seq<char>,
    decls: Seq<(Seq<char>, int)>,
    i: int,
) -> Option<Seq<ContractModel>>
    decreases decls.len() - i,
    when 0 <= i <= decls.len()
{
    if i >= decls.len() {
        Some(seq![])
    } else {
        let start = decls[i].1;
        let end = if i + 1 < decls.len() {
            decls[i + 1].1
        } else {
            stripped.len() as int
        };
        let span = stripped.subrange(start, end);
        let args = match spec_extract(span) {
            CtorExtraction::Absent => Some(Seq::<crate::types::ArgModel>::empty()),
            CtorExtraction::Found(a) => Some(a),
            CtorExtraction::Malformed => None,
        };
        match args {
            None => None,
            Some(a) => {
                let c = ContractModel {
                    solidity_filepath: f.path,
                    contract_name: decls[i].0,
                    solidity_filename: f.name,
                    constructor_args: a,
                };
                match contracts_from(f, stripped, decls, i + 1) {
                    None => None,
                    Some(rest) => Some(seq![c] + rest),
                }
            },
        }
    }
}

/// The contract models of one file: nothing for a file not named `*.sol`,
/// otherwise one model per accepted declaration of the stripped text.
pub open spec fn file_contracts(f: FileModel) -> Option<Seq<ContractModel>> {
    if !ends_with(f.name, ".sol"@) {
        Some(seq![])
    } else {
        let stripped = spec_strip_source(f.content);
        contracts_from(f, stripped, scan_decls(stripped, 0), 0)
    }
}

/// The concatenated contract models of all files, in order; `None` as soon
/// as one file fails.
pub open spec fn collect_spec(files: Seq<FileModel>) -> Option<Seq<ContractModel>>
    decreases files.len(),
{
    if files.len() == 0 {
        Some(seq![])
    } else {
        match file_contracts(files[0]) {
            None => None,
            Some(cs) => match collect_spec(files.drop_first()) {
                None => None,
                Some(rest) => Some(cs + rest),
            },
        }
    }
}

/// The views of a vector of contract objects.
pub open spec fn contract_views(q: Seq<ContractObject>) -> Seq<ContractModel> {
    q.map_values(|c: ContractObject| c@)
}

/// The views of a vector of source files.
pub open spec fn file_views(q: Seq<SourceFile>) -> Seq<FileModel> {
    q.map_values(|f: SourceFile| f@)
}

fn contracts_of_file(f: &SourceFile) -> (r: Result<Vec<ContractObject>, ParseError>)
    ensures
        match file_contracts(f@) {
            Some(cs) => r matches Ok(v) && contract_views(v@) == cs,
            None => r matches Err(e) && e == ParseError::ConstructorArgSyntax,
        },
{
    let name_chars = chars_of(f.name.as_str());
    let sol_pat = chars_of(".sol");
    if !ends_with_chars(&name_chars, &sol_pat) {
        let empty: Vec<ContractObject> = Vec::new();
        proof {
            assert(contract_views(empty@) =~= Seq::<ContractModel>::empty());
        }
        return Ok(empty);
    }
    let stripped = strip_source(f.content.as_str());
    let v = chars_of(stripped.as_str());
    let spans = find_contracts(stripped.as_str());
    let ghost sv = stripped@;
    let ghost decls = scan_decls(sv, 0);
    proof {
        lemma_scan_starts(sv, 0);
    }
    let mut out: Vec<ContractObject> = Vec::new();
    let mut i: usize = 0;
    while i < spans.len()
        invariant
            sv == v@,
            sv == spec_strip_source(f@.content),
            ends_with(f@.name, ".sol"@),
            decls == scan_decls(sv, 0),
            spans@.len() == decls.len(),
            forall|t: int|
                0 <= t < spans@.len() ==> (#[trigger] spans@[t]).name@ == decls[t].0
                    && spans@[t].start == decls[t].1,
            forall|t: int|
                0 <= t && t + 1 < spans@.len() ==> (#[trigger] spans@[t]).end == decls[t + 1].1,
            spans@.len() > 0 ==> spans@.last().end == sv.len(),
            forall|t: int| 0 <= t < decls.len() ==> 0 <= (#[trigger] decls[t]).1 < sv.len(),
            forall|t: int| 0 <= t && t + 1 < decls.len() ==> (#[trigger] decls[t]).1 < decls[t
                + 1].1,
            i <= spans@.len(),
            match contracts_from(f@, sv, decls, i as int) {
                Some(rest) => file_contracts(f@) == Some(contract_views(out@) + rest),
                None => file_contracts(f@) is None,
            },
        decreases spans@.len() - i,
    {
        let ghost prev = out@;
        let start = spans[i].start;
        let end = spans[i].end;
        proof {
            if i as int + 1 < decls.len() {
                assert(end == decls[i as int + 1].1);
            }
            assert(start <= end <= sv.len());
        }
        let span_chars = copy_range(&v, start, end);
        let span_str = string_of(&span_chars);
        let ghost span = sv.subrange(start as int, end as int);
        let name_copy = spans[i].name.clone();
        let args: Vec<crate::types::ConstructorArgObject> = match crate::ctor::extract_constructor_args(
            span_str.as_str(),
        ) {
            Ok(Some(a)) => a,
            Ok(None) => Vec::new(),
            Err(e) => {
                proof {
                    assert(contracts_from(f@, sv, decls, i as int) is None);
                }
                return Err(e);
            },
        };
        let c = ContractObject {
            solidity_filepath: f.path.clone(),
            contract_name: name_copy,
            solidity_filename: f.name.clone(),
            constructor: ConstructorObject { args },
        };
        proof {
            let spec_args = match spec_extract(span) {
                CtorExtraction::Absent => Seq::<crate::types::ArgModel>::empty(),
                CtorExtraction::Found(a) => a,
                CtorExtraction::Malformed => Seq::<crate::types::ArgModel>::empty(),
            };
            assert(c@.constructor_args =~= spec_args);
            assert(contracts_from(f@, sv, decls, i as int) matches Some(rest) ==> rest == seq![c@]
                + contracts_from(f@, sv, decls, i as int + 1)->0);
        }
        out.push(c);
        proof {
            assert(contract_views(out@) =~= contract_views(prev).push(c@));
            if contracts_from(f@, sv, decls, i as int + 1) is Some {
                let rest2 = contracts_from(f@, sv, decls, i as int + 1)->0;
                assert(contract_views(prev) + (seq![c@] + rest2) =~= contract_views(out@) + rest2);
            }
        }
        i = i + 1;
    }
    proof {
        assert(contracts_from(f@, sv, decls, decls.len() as int) == Some(
            Seq::<ContractModel>::empty(),
        ));
        assert(contract_views(out@) + Seq::<ContractModel>::empty() =~= contract_views(out@));
    }
    Ok(out)
}

/// Builds one `ContractObject` per non-abstract contract found in the
/// `.sol` files given, in file order; files with other names contribute
/// nothing.  Fails exactly when some contract span holds a constructor
/// whose argument list cannot be tokenized.
pub fn get_contracts(files: &Vec<SourceFile>) -> (r: Result<Vec<ContractObject>, ParseError>)
    ensures
        match collect_spec(file_views(files@)) {
            Some(cs) => r matches Ok(v) && contract_views(v@) == cs,
            None => r matches Err(e) && e == ParseError::ConstructorArgSyntax,
        },
{
    let ghost fv = file_views(files@);
    let mut out: Vec<ContractObject> = Vec::new();
    let mut i: usize = 0;
    proof {
        assert(fv.skip(0) =~= fv);
    }
    while i < files.len()
        invariant
            fv == file_views(files@),
            i <= files@.len(),
            match collect_spec(fv.skip(i as int)) {
                Some(rest) => collect_spec(fv) == Some(contract_views(out@) + rest),
                None => collect_spec(fv) is None,
            },
        decreases files@.len() - i,
    {
        let ghost s = fv.skip(i as int);
        let ghost prev = out@;
        proof {
            assert(s[0] == fv[i as int]);
            assert(fv[i as int] == (#[trigger] files@[i as int])@);
            assert(s.drop_first() =~= fv.skip(i as int + 1));
        }
        match contracts_of_file(&files[i]) {
            Ok(mut cs) => {
                let ghost cs_models = contract_views(cs@);
                out.append(&mut cs);
                proof {
                    assert(file_contracts(s[0]) == Some(cs_models));
                    assert(contract_views(out@) =~= contract_views(prev) + cs_models);
                    if collect_spec(fv.skip(i as int + 1)) is Some {
                        let rest2 = collect_spec(fv.skip(i as int + 1))->0;
                        assert(collect_spec(s) == Some(cs_models + rest2));
                        assert(contract_views(prev) + (cs_models + rest2) =~= contract_views(out@)
                            + rest2);
                    }
                }
                i = i + 1;
            },
            Err(e) => {
                proof {
                    assert(file_contracts(s[0]) is None);
                    assert(collect_spec(s) is None);
                }
                return Err(e);
            },
        }
    }
    proof {
        assert(fv.skip(fv.len() as int) =~= Seq::<FileModel>::empty());
        assert(collect_spec(fv) == Some(contract_views(out@) + Seq::<ContractModel>::empty()));
        assert(contract_views(out@) + Seq::<ContractModel>::empty() =~= contract_views(out@));
    }
    Ok(out)
}

} // verus!
