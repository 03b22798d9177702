use forge_deploy::types::DeploymentObject;
use forge_deploy::{
    export, export_payload, gen_deployer, memory_type, merge_plan, should_write, sync,
    template_name,
};
use forge_deploy::store::{deployment_record_name, is_chain_id_marker};

fn deployment(context: &str, name: &str, chain_id: &str) -> DeploymentObject {
    DeploymentObject {
        name: name.to_string(),
        address: "0xabc".to_string(),
        bytecode: "0x6080".to_string(),
        args_data: "0xdata".to_string(),
        tx_hash: "0xhash".to_string(),
        args: None,
        data: "0xcall".to_string(),
        contract_name: Some(name.to_string()),
        artifact_path: "src/C.sol".to_string(),
        deployment_context: context.to_string(),
        chain_id: chain_id.to_string(),
    }
}

#[test]
fn merge_plan_names_the_files_to_touch() {
    let plan = merge_plan(&deployment("staging", "Counter", "31337"), false);
    assert_eq!(plan.context_dir, "staging");
    assert_eq!(plan.chain_id_write, Some("31337".to_string()));
    assert_eq!(plan.artifact_file, Some("Counter.json".to_string()));
    assert_eq!(plan.record_file, "Counter.json");
}

#[test]
fn merge_plan_falls_back_when_contract_name_is_unknown() {
    let mut d = deployment("staging", "Counter", "31337");
    d.contract_name = None;
    let plan = merge_plan(&d, false);
    assert_eq!(plan.artifact_file, None);
}

#[test]
fn merge_keeps_the_first_chain_id_marker() {
    // First merge writes the marker; a later merge with a different chain
    // id for the same context leaves it untouched.
    let mut marker: Option<String> = None;
    let plan1 = merge_plan(&deployment("staging", "A", "1"), marker.is_some());
    if let Some(content) = plan1.chain_id_write {
        marker = Some(content);
    }
    assert_eq!(marker, Some("1".to_string()));
    let plan2 = merge_plan(&deployment("staging", "B", "2"), marker.is_some());
    if let Some(content) = plan2.chain_id_write {
        marker = Some(content);
    }
    assert_eq!(marker, Some("1".to_string()));
}

#[test]
fn identical_render_output_is_written_once() {
    let rendered = "contract Generated {}".to_string();
    let mut stored: Option<String> = None;
    let mut writes: usize = 0;
    for _ in 0..2 {
        if should_write(&stored, &rendered) {
            stored = Some(rendered.clone());
            writes += 1;
        }
    }
    assert_eq!(writes, 1);
    assert_eq!(stored, Some(rendered));
}

#[test]
fn changed_content_is_written_again() {
    let stored = Some("old".to_string());
    assert!(should_write(&stored, "new"));
    assert!(!should_write(&stored, "old"));
    assert!(should_write(&None, "old"));
}

#[test]
fn template_names_are_normalised() {
    assert_eq!(template_name("Deployer.g.sol.hbs"), "Deployer.g.sol");
    assert_eq!(template_name("Extra.hbs"), "Extra.sol");
    assert_eq!(template_name("Kept.sol"), "Kept.sol");
    assert_eq!(template_name("Bare"), "Bare.sol");
}

#[test]
fn memory_type_marks_strings_only() {
    assert_eq!(memory_type("string"), "memory");
    assert_eq!(memory_type("uint256"), "");
    assert_eq!(memory_type("address"), "");
}

#[test]
fn export_payload_wraps_script_modules() {
    assert_eq!(export_payload("{\"a\": 1}", "out.ts"), "export default {\"a\": 1} as const;");
    assert_eq!(export_payload("{\"a\": 1}", "out.json"), "{\"a\": 1}");
}

#[test]
fn record_files_are_recognised_by_extension() {
    assert_eq!(deployment_record_name("Counter.json"), Some("Counter".to_string()));
    assert_eq!(deployment_record_name(".chainId"), None);
    assert_eq!(deployment_record_name("notes.txt"), None);
    assert!(is_chain_id_marker(".chainId"));
    assert!(!is_chain_id_marker("Counter.json"));
}

#[test]
fn gen_deployer_applies_defaults_and_splits_templates() {
    let plan = gen_deployer(&None, &Some("a.hbs,b.hbs".to_string()), &None, &None);
    assert_eq!(plan.root_folder, ".");
    assert_eq!(plan.sources_folder, "src");
    assert_eq!(plan.generated_folder, "generated");
    assert_eq!(plan.templates, vec!["a.hbs".to_string(), "b.hbs".to_string()]);

    let bare = gen_deployer(&Some("/repo".to_string()), &None, &Some("contracts".to_string()), &None);
    assert_eq!(bare.root_folder, "/repo");
    assert_eq!(bare.sources_folder, "contracts");
    assert_eq!(bare.templates.len(), 0);
}

#[test]
fn sync_applies_defaults() {
    let plan = sync(&None, &None, &None, &None);
    assert_eq!(plan.root_folder, ".");
    assert_eq!(plan.broadcasts_folder, "broadcast");
    assert_eq!(plan.deployments_folder, "deployments");
    assert_eq!(plan.artifacts_folder, "out");
}

#[test]
fn export_splits_output_paths() {
    let plan = export(&None, "staging", "web/deployments.ts,data/deployments.json", &None);
    assert_eq!(plan.root_folder, ".");
    assert_eq!(plan.deployments_folder, "deployments");
    assert_eq!(plan.deployment_context, "staging");
    assert_eq!(
        plan.outputs,
        vec!["web/deployments.ts".to_string(), "data/deployments.json".to_string()]
    );
}
