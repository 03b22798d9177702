//! Decisions behind the deployment-record store: what a merge writes,
//! which files count as records, when an idempotent write goes through, and
//! how an export payload is wrapped.
//!
//! The filesystem work itself — creating directories, reading artifacts,
//! writing files — is the caller's; these functions fix exactly what is to
//! be written where.

use vstd::prelude::*;

use crate::text::{chars_of, copy_range, ends_with, ends_with_chars, eq_chars, string_of};
use crate::types::DeploymentObject;

verus! {

/// Whether a write must happen: only when nothing is stored yet or the
/// stored text differs from the content.
pub open spec fn spec_should_write(existing: Option<Seq<char>>, content: Seq<char>) -> bool {
    match existing {
        Some(e) => e != content,
        None => true,
    }
}

/// What the store holds after the decision is applied.
pub open spec fn store_after(existing: Option<Seq<char>>, content: Seq<char>) -> Option<
    Seq<char>,
> {
    if spec_should_write(existing, content) {
        Some(content)
    } else {
        existing
    }
}

/// Rendering the same content twice costs exactly one write: applying the
/// first decision leaves the content stored, and the second decision on the
/// stored text is a no-op.
pub proof fn lemma_write_once(existing: Option<Seq<char>>, content: Seq<char>)
    ensures
        store_after(existing, content) == Some(content),
        !spec_should_write(store_after(existing, content), content),
{
}

/// Decides an idempotent write: `existing` is what the target file holds
/// (`None` when it cannot be read), `content` what is to be written.
pub fn should_write(existing: &Option<String>, content: &str) -> (r: bool)
    ensures
        r == spec_should_write(existing.deep_view(), content@),
{
    match existing {
        Some(e) => {
            let ev = chars_of(e.as_str());
            let cv = chars_of(content);
            !eq_chars(&ev, &cv)
        },
        None => true,
    }
}

/// The file writes one merged deployment record asks for.
#[derive(Clone, Debug, PartialEq)]
pub struct MergePlan {
    /// The per-context directory the record lives in.
    pub context_dir: String,
    /// Content for the context's chain-id marker file — only when no marker
    /// exists yet: the first writer wins and a later merge never changes it.
    pub chain_id_write: Option<String>,
    /// The artifact file to read, when the record names its contract;
    /// otherwise the caller falls back to the directory's single file.
    pub artifact_file: Option<String>,
    /// The record file to overwrite.
    pub record_file: String,
}

/// Fixes what merging one deployment writes: the context directory, the
/// chain-id marker (only if none exists), which artifact file to read, and
/// the record file to replace.
pub fn merge_plan(d: &DeploymentObject, chain_id_exists: bool) -> (r: MergePlan)
    ensures
        r.context_dir@ == d@.deployment_context,
        r.chain_id_write.deep_view() == if chain_id_exists {
            Option::<Seq<char>>::None
        } else {
            Some(d@.chain_id)
        },
        r.artifact_file.deep_view() == match d@.contract_name {
            Some(n) => Some(n + ".json"@),
            None => Option::<Seq<char>>::None,
        },
        r.record_file@ == d@.name + ".json"@,
{
    let chain_id_write: Option<String> = if chain_id_exists {
        None
    } else {
        Some(d.chain_id.clone())
    };
    let artifact_file: Option<String> = match &d.contract_name {
        Some(n) => Some(n.clone().concat(".json")),
        None => None,
    };
    MergePlan {
        context_dir: d.deployment_context.clone(),
        chain_id_write,
        artifact_file,
        record_file: d.name.clone().concat(".json"),
    }
}

/// The deployment name a record file carries: its name without the `.json`
/// extension; `None` for any other file.
pub fn deployment_record_name(filename: &str) -> (r: Option<String>)
    ensures
        match r {
            Some(s) => ends_with(filename@, ".json"@) && s@ == filename@.take(
                filename@.len() - ".json"@.len(),
            ),
            None => !ends_with(filename@, ".json"@),
        },
{
    let v = chars_of(filename);
    let pat = chars_of(".json");
    proof {
        reveal_strlit(".json");
    }
    if ends_with_chars(&v, &pat) {
        let stem = copy_range(&v, 0, v.len() - 5);
        Some(string_of(&stem))
    } else {
        None
    }
}

/// Whether a file is the context's chain-id marker.
pub fn is_chain_id_marker(filename: &str) -> (r: bool)
    ensures
        r == (filename@ == ".chainId"@),
{
    let v = chars_of(filename);
    let pat = chars_of(".chainId");
    eq_chars(&v, &pat)
}

/// What an export writes to one output path: script modules get the data
/// wrapped as a default export, anything else the raw data.
pub open spec fn spec_export_payload(data: Seq<char>, path: Seq<char>) -> Seq<char> {
    if ends_with(path, ".ts"@) {
        "export default "@ + data + " as const;"@
    } else {
        data
    }
}

pub fn export_payload(data: &str, output_path: &str) -> (r: String)
    ensures
        r@ == spec_export_payload(data@, output_path@),
{
    let pv = chars_of(output_path);
    let pat = chars_of(".ts");
    if ends_with_chars(&pv, &pat) {
        "export default ".to_owned().concat(data).concat(" as const;")
    } else {
        data.to_owned()
    }
}

} // verus!
