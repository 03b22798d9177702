use forge_deploy::collect::SourceFile;
use forge_deploy::types::ParseError;
use forge_deploy::{extract_constructor_args, find_contracts, get_contracts, strip_source};

#[test]
fn strip_removes_line_comments() {
    assert_eq!(strip_source("a // comment\nb"), "a \nb");
}

#[test]
fn strip_removes_block_comments() {
    assert_eq!(strip_source("a /* x\ny */ b"), "a  b");
}

#[test]
fn strip_removes_string_literals() {
    assert_eq!(strip_source("s = \"hello\"; x"), "s = ; x");
    assert_eq!(strip_source("s = 'h'; x"), "s = ; x");
}

#[test]
fn strip_ignores_comment_openers_inside_strings() {
    assert_eq!(strip_source("s = \"// not a comment\"; x"), "s = ; x");
    assert_eq!(strip_source("s = \"/* not open\"; x"), "s = ; x");
}

#[test]
fn strip_ignores_quotes_inside_comments() {
    assert_eq!(strip_source("a /* \" */ b"), "a  b");
    assert_eq!(strip_source("// \"quoted\"\nx"), "\nx");
}

#[test]
fn strip_keeps_unclosed_openers() {
    assert_eq!(strip_source("\"abc"), "\"abc");
    assert_eq!(strip_source("/* abc"), "/* abc");
}

#[test]
fn scanner_skips_abstract_and_chains_spans() {
    let text = "\ncontract A {\n}\ncontract B {\n}\nabstract contract C {\n}\ncontract D {\n}\n";
    let spans = find_contracts(text);
    assert_eq!(spans.len(), 3);
    assert_eq!(spans[0].name, "A");
    assert_eq!(spans[1].name, "B");
    assert_eq!(spans[2].name, "D");
    assert_eq!(spans[0].end, spans[1].start);
    assert_eq!(spans[1].end, spans[2].start);
    assert_eq!(spans[2].end, text.len());
}

#[test]
fn scanner_returns_nothing_without_declarations() {
    assert_eq!(find_contracts("library L { }").len(), 0);
}

#[test]
fn extractor_reads_typed_named_arguments() {
    let span = "contract T { constructor(uint256 amount, address payable receiver, string memory note) {} }";
    let args = extract_constructor_args(span).unwrap().unwrap();
    assert_eq!(args.len(), 3);

    assert_eq!(args[0].name, "amount");
    assert_eq!(args[0].arg_type, "uint256");
    assert!(!args[0].memory_type);
    assert!(!args[0].custom_type);

    assert_eq!(args[1].name, "receiver");
    assert_eq!(args[1].arg_type, "address payable");
    assert!(!args[1].memory_type);
    assert!(!args[1].custom_type);

    assert_eq!(args[2].name, "note");
    assert_eq!(args[2].arg_type, "string");
    assert!(args[2].memory_type);
    assert!(!args[2].custom_type);
}

#[test]
fn extractor_tags_custom_types() {
    let args = extract_constructor_args("constructor(MyToken token) {}").unwrap().unwrap();
    assert_eq!(args.len(), 1);
    assert_eq!(args[0].name, "token");
    assert_eq!(args[0].arg_type, "MyToken");
    assert!(args[0].custom_type);
}

#[test]
fn extractor_absent_or_empty_constructor_gives_none() {
    assert_eq!(extract_constructor_args("contract T { }").unwrap(), None);
    assert_eq!(extract_constructor_args("constructor() {}").unwrap(), None);
    assert_eq!(extract_constructor_args("constructor(   ) {}").unwrap(), None);
}

#[test]
fn extractor_rejects_untyped_argument() {
    let r = extract_constructor_args("constructor(uint256) {}");
    assert_eq!(r, Err(ParseError::ConstructorArgSyntax));
}

#[test]
fn collector_keeps_concrete_contracts_and_drops_abstract_ones() {
    let files = vec![
        SourceFile {
            path: "src/A.sol".to_string(),
            name: "A.sol".to_string(),
            content: "pragma solidity ^0.8.0;\ncontract Foo {\n    constructor(uint256 x) {}\n}\n"
                .to_string(),
        },
        SourceFile {
            path: "src/B.sol".to_string(),
            name: "B.sol".to_string(),
            content: "pragma solidity ^0.8.0;\nabstract contract Bar {\n}\ncontract Baz {\n}\n"
                .to_string(),
        },
        SourceFile {
            path: "src/README.md".to_string(),
            name: "README.md".to_string(),
            content: "contract NotSolidity {\n}\n".to_string(),
        },
    ];
    let contracts = get_contracts(&files).unwrap();
    assert_eq!(contracts.len(), 2);

    assert_eq!(contracts[0].contract_name, "Foo");
    assert_eq!(contracts[0].solidity_filepath, "src/A.sol");
    assert_eq!(contracts[0].solidity_filename, "A.sol");
    assert_eq!(contracts[0].constructor.args.len(), 1);
    assert_eq!(contracts[0].constructor.args[0].name, "x");
    assert_eq!(contracts[0].constructor.args[0].arg_type, "uint256");

    assert_eq!(contracts[1].contract_name, "Baz");
    assert_eq!(contracts[1].solidity_filepath, "src/B.sol");
    assert_eq!(contracts[1].constructor.args.len(), 0);
}

#[test]
fn collector_ignores_constructors_inside_comments() {
    let files = vec![SourceFile {
        path: "src/C.sol".to_string(),
        name: "C.sol".to_string(),
        content: "pragma solidity ^0.8.0;\ncontract Quiet {\n    // constructor(uint256 x)\n}\n"
            .to_string(),
    }];
    let contracts = get_contracts(&files).unwrap();
    assert_eq!(contracts.len(), 1);
    assert_eq!(contracts[0].contract_name, "Quiet");
    assert_eq!(contracts[0].constructor.args.len(), 0);
}
