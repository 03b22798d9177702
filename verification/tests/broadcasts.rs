use forge_deploy::broadcasts::{FileContent, ReturnsNewDeployments, Transaction, TransactionResult};
use forge_deploy::get_last_deployments;
use forge_deploy::types::ParseError;

fn tx(hash: &str, address: &str, data: &str, args: Vec<&str>) -> TransactionResult {
    TransactionResult {
        hash: hash.to_string(),
        transaction_type: "CREATE".to_string(),
        contract_name: None,
        contract_address: Some(address.to_string()),
        arguments: Some(args.into_iter().map(|s| s.to_string()).collect()),
        transaction: Transaction {
            tx_type: "0x02".to_string(),
            from: "0xfeed".to_string(),
            gas: "0xca531".to_string(),
            value: Some("0x0".to_string()),
            data: data.to_string(),
            nonce: "0xd5".to_string(),
        },
        function: None,
    }
}

fn run_file(transactions: Vec<TransactionResult>, value: &str) -> FileContent {
    FileContent {
        transactions,
        returns: Some(ReturnsNewDeployments {
            internal_type: "struct DeployerDeployment[]".to_string(),
            value: value.to_string(),
        }),
    }
}

#[test]
fn reconcile_joins_record_with_its_transaction() {
    let value = "[{name: Counter, address: 0xABC, bytecode: 0x6080, args: 0xdata, artifact: src/Counter.sol:Counter, context: staging, chainid: 31337}]";
    let files = vec![run_file(vec![tx("0xhash", "0xABC", "0xcall", vec!["1"])], value)];
    let map = get_last_deployments(&files).unwrap();
    assert_eq!(map.len(), 1);
    let d = map.get(&"staging".to_string(), &"Counter".to_string()).unwrap();
    assert_eq!(d.name, "Counter");
    assert_eq!(d.address, "0xABC");
    assert_eq!(d.bytecode, "0x6080");
    assert_eq!(d.args_data, "0xdata");
    assert_eq!(d.tx_hash, "0xhash");
    assert_eq!(d.args, Some(vec!["1".to_string()]));
    assert_eq!(d.data, "0xcall");
    assert_eq!(d.contract_name, Some("Counter".to_string()));
    assert_eq!(d.artifact_path, "src/Counter.sol");
    assert_eq!(d.deployment_context, "staging");
    assert_eq!(d.chain_id, "31337");
}

#[test]
fn reconcile_without_matching_transaction_leaves_call_data_empty() {
    let value = "[{name: Token, address: 0x9, bytecode: 0xb, args: 0xa, artifact: src/Token.sol, context: main, chainid: 1}]";
    let files = vec![run_file(vec![tx("0xhash", "0xother", "0xcall", vec![])], value)];
    let map = get_last_deployments(&files).unwrap();
    let d = map.get(&"main".to_string(), &"Token".to_string()).unwrap();
    assert_eq!(d.tx_hash, "");
    assert_eq!(d.data, "");
    assert_eq!(d.args, Some(vec![]));
    // No `:ContractName` suffix on the artifact path.
    assert_eq!(d.contract_name, None);
    assert_eq!(d.artifact_path, "src/Token.sol");
}

#[test]
fn reconcile_unescapes_quoted_values() {
    let value = "[{name: \\\"Esc\\\", address: \\\"0x1\\\", bytecode: 0xb, args: 0xa, artifact: A.sol:Esc, context: ctx, chainid: 7}]";
    let files = vec![run_file(vec![], value)];
    let map = get_last_deployments(&files).unwrap();
    let d = map.get(&"ctx".to_string(), &"Esc".to_string()).unwrap();
    assert_eq!(d.name, "Esc");
    assert_eq!(d.address, "0x1");
}

#[test]
fn reconcile_skips_void_context() {
    let value = "[{name: Temp, address: 0x2, bytecode: 0xb, args: 0xa, artifact: T.sol:Temp, context: void, chainid: 1}, {name: Keep, address: 0x3, bytecode: 0xb, args: 0xa, artifact: K.sol:Keep, context: live, chainid: 1}]";
    let files = vec![run_file(vec![], value)];
    let map = get_last_deployments(&files).unwrap();
    assert_eq!(map.len(), 1);
    assert!(map.get(&"void".to_string(), &"Temp".to_string()).is_none());
    assert!(map.get(&"live".to_string(), &"Keep".to_string()).is_some());
}

#[test]
fn reconcile_twice_gives_identical_maps() {
    let value = "[{name: A, address: 0x5, bytecode: 0xb, args: 0xa, artifact: A.sol:A, context: test, chainid: 5}, {name: B, address: 0x6, bytecode: 0xb, args: 0xa, artifact: B.sol:B, context: test, chainid: 5}]";
    let files = vec![run_file(vec![tx("0xh", "0x5", "0xd", vec!["x"])], value)];
    let first = get_last_deployments(&files).unwrap();
    let second = get_last_deployments(&files).unwrap();
    assert_eq!(first, second);
}

#[test]
fn reconcile_later_record_overrides_earlier_one() {
    let value = "[{name: Dup, address: 0x7, bytecode: 0xb, args: 0xa, artifact: D.sol:Dup, context: test, chainid: 5}, {name: Dup, address: 0x8, bytecode: 0xb, args: 0xa, artifact: D.sol:Dup, context: test, chainid: 5}]";
    let files = vec![run_file(vec![], value)];
    let map = get_last_deployments(&files).unwrap();
    assert_eq!(map.len(), 1);
    let d = map.get(&"test".to_string(), &"Dup".to_string()).unwrap();
    assert_eq!(d.address, "0x8");
}

#[test]
fn reconcile_last_transaction_per_address_wins() {
    let value = "[{name: C, address: 0x9, bytecode: 0xb, args: 0xa, artifact: C.sol:C, context: test, chainid: 5}]";
    let files = vec![run_file(
        vec![tx("0xfirst", "0x9", "0xd1", vec![]), tx("0xsecond", "0x9", "0xd2", vec![])],
        value,
    )];
    let map = get_last_deployments(&files).unwrap();
    let d = map.get(&"test".to_string(), &"C".to_string()).unwrap();
    assert_eq!(d.tx_hash, "0xsecond");
    assert_eq!(d.data, "0xd2");
}

#[test]
fn reconcile_rejects_record_with_too_few_fields() {
    let value = "[{only: three, fields: here, present: now}]";
    let files = vec![run_file(vec![], value)];
    assert_eq!(get_last_deployments(&files), Err(ParseError::DeploymentRecordSyntax));
}

#[test]
fn reconcile_ignores_unrelated_returns_shapes() {
    let files = vec![
        FileContent {
            transactions: vec![],
            returns: Some(ReturnsNewDeployments {
                internal_type: "uint256".to_string(),
                value: "[{name: X, address: 0x1, bytecode: 0xb, args: 0xa, artifact: X.sol:X, context: c, chainid: 1}]".to_string(),
            }),
        },
        FileContent { transactions: vec![], returns: None },
    ];
    let map = get_last_deployments(&files).unwrap();
    assert_eq!(map.len(), 0);
}
