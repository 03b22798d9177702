//! Resolution of the command-line subcommands' inputs into concrete plans:
//! which folders each operation works on and which paths it writes, with
//! the documented defaults filled in for missing flags.
//!
//! The command dispatch and the operations' filesystem work live outside
//! the library; these functions fix what the operations are given.

use vstd::prelude::*;

use crate::text::{chars_of, split1, split1_exec, string_of, views_of};

verus! {

/// The missing-flag default applied to an optional argument.
pub open spec fn resolved(opt: Option<Seq<char>>, default: Seq<char>) -> Seq<char> {
    match opt {
        Some(s) => s,
        None => default,
    }
}

fn resolve(opt: &Option<String>, default: &str) -> (r: String)
    ensures
        r@ == resolved(opt.deep_view(), default@),
{
    match opt {
        Some(s) => s.clone(),
        None => default.to_owned(),
    }
}

fn split_paths(list: &str) -> (r: Vec<String>)
    ensures
        r.deep_view() == split1(list@, ','),
{
    let v = chars_of(list);
    let pieces = split1_exec(&v, ',');
    let mut out: Vec<String> = Vec::new();
    let mut i: usize = 0;
    while i < pieces.len()
        invariant
            i <= pieces@.len(),
            out@.len() == i,
            forall|t: int| 0 <= t < i ==> (#[trigger] out@[t])@ == views_of(pieces@)[t],
        decreases pieces@.len() - i,
    {
        proof {
            assert(views_of(pieces@)[i as int] == (#[trigger] pieces@[i as int])@);
        }
        out.push(string_of(&pieces[i]));
        i = i + 1;
    }
    proof {
        assert(out.deep_view() =~~= views_of(pieces@));
    }
    out
}

/// What the deployer-generation run works on.
#[derive(Clone, Debug, PartialEq)]
pub struct GenDeployerPlan {
    pub root_folder: String,
    pub sources_folder: String,
    pub generated_folder: String,
    /// The extra template paths, from the comma-separated flag; empty when
    /// the flag is missing.
    pub templates: Vec<String>,
}

/// Resolves the deployer-generation arguments: root defaults to `.`,
/// sources to `src`, output to `generated`, and the template list splits
/// on commas.
pub fn gen_deployer(
    root: &Option<String>,
    templates: &Option<String>,
    sources: &Option<String>,
    output: &Option<String>,
) -> (r: GenDeployerPlan)
    ensures
        r.root_folder@ == resolved(root.deep_view(), "."@),
        r.sources_folder@ == resolved(sources.deep_view(), "src"@),
        r.generated_folder@ == resolved(output.deep_view(), "generated"@),
        r.templates.deep_view() == match templates.deep_view() {
            Some(t) => split1(t, ','),
            None => Seq::<Seq<char>>::empty(),
        },
{
    let template_list: Vec<String> = match templates {
        Some(t) => split_paths(t.as_str()),
        None => Vec::new(),
    };
    proof {
        if templates.deep_view() is None {
            assert(template_list.deep_view() =~~= Seq::<Seq<char>>::empty());
        }
    }
    GenDeployerPlan {
        root_folder: resolve(root, "."),
        sources_folder: resolve(sources, "src"),
        generated_folder: resolve(output, "generated"),
        templates: template_list,
    }
}

/// What the broadcast-synchronisation run works on.
#[derive(Clone, Debug, PartialEq)]
pub struct SyncPlan {
    pub root_folder: String,
    pub broadcasts_folder: String,
    pub deployments_folder: String,
    pub artifacts_folder: String,
}

/// Resolves the synchronisation arguments: root defaults to `.`,
/// broadcasts to `broadcast`, deployments to `deployments` and artifacts
/// to `out`.
pub fn sync(
    root: &Option<String>,
    broadcasts: &Option<String>,
    deployments: &Option<String>,
    artifacts: &Option<String>,
) -> (r: SyncPlan)
    ensures
        r.root_folder@ == resolved(root.deep_view(), "."@),
        r.broadcasts_folder@ == resolved(broadcasts.deep_view(), "broadcast"@),
        r.deployments_folder@ == resolved(deployments.deep_view(), "deployments"@),
        r.artifacts_folder@ == resolved(artifacts.deep_view(), "out"@),
{
    SyncPlan {
        root_folder: resolve(root, "."),
        broadcasts_folder: resolve(broadcasts, "broadcast"),
        deployments_folder: resolve(deployments, "deployments"),
        artifacts_folder: resolve(artifacts, "out"),
    }
}

/// What the export run works on.
#[derive(Clone, Debug, PartialEq)]
pub struct ExportPlan {
    pub root_folder: String,
    pub deployments_folder: String,
    pub deployment_context: String,
    /// Every output path to write, from the comma-separated argument.
    pub outputs: Vec<String>,
}

/// Resolves the export arguments: root defaults to `.`, deployments to
/// `deployments`, and the output list splits on commas.
pub fn export(
    root: &Option<String>,
    deployment_context: &str,
    out: &str,
    deployments: &Option<String>,
) -> (r: ExportPlan)
    ensures
        r.root_folder@ == resolved(root.deep_view(), "."@),
        r.deployments_folder@ == resolved(deployments.deep_view(), "deployments"@),
        r.deployment_context@ == deployment_context@,
        r.outputs.deep_view() == split1(out@, ','),
{
    ExportPlan {
        root_folder: resolve(root, "."),
        deployments_folder: resolve(deployments, "deployments"),
        deployment_context: deployment_context.to_owned(),
        outputs: split_paths(out),
    }
}

} // verus!
