use forge_deploy::is_custom_type;

#[test]
fn elementary_uint_int_widths_are_not_custom() {
    let mut n: usize = 8;
    while n <= 256 {
        assert!(!is_custom_type(&format!("uint{}", n)));
        assert!(!is_custom_type(&format!("int{}", n)));
        n += 8;
    }
}

#[test]
fn elementary_bytes_widths_are_not_custom() {
    let mut n: usize = 1;
    while n <= 32 {
        assert!(!is_custom_type(&format!("bytes{}", n)));
        n += 1;
    }
}

#[test]
fn aliases_and_named_types_are_not_custom() {
    assert!(!is_custom_type("uint"));
    assert!(!is_custom_type("int"));
    assert!(!is_custom_type("bytes"));
    assert!(!is_custom_type("string"));
    assert!(!is_custom_type("address"));
    assert!(!is_custom_type("address payable"));
    assert!(!is_custom_type("bool"));
}

#[test]
fn user_types_are_custom() {
    assert!(is_custom_type("MyStruct"));
    assert!(is_custom_type("IERC20"));
    assert!(is_custom_type("Counter"));
}

#[test]
fn out_of_range_widths_are_custom() {
    assert!(is_custom_type("uint257"));
    assert!(is_custom_type("uint7"));
    assert!(is_custom_type("uint12"));
    assert!(is_custom_type("int264"));
    assert!(is_custom_type("bytes0"));
    assert!(is_custom_type("bytes33"));
    assert!(is_custom_type("uint08"));
}

#[test]
fn arrays_of_elementary_types_are_not_custom() {
    assert!(!is_custom_type("uint256[]"));
    assert!(!is_custom_type("uint256[][]"));
    assert!(!is_custom_type("address[4]"));
    assert!(!is_custom_type("bytes32[2][3]"));
    assert!(is_custom_type("MyStruct[]"));
}

#[test]
fn fixed_point_family_is_not_custom() {
    assert!(!is_custom_type("fixed"));
    assert!(!is_custom_type("ufixed"));
    assert!(!is_custom_type("fixed128x18"));
    // Documented limitation: a custom name in the fixed prefix family is
    // misclassified.
    assert!(!is_custom_type("ufixedThing"));
}
