use capn::oid::ObjectId;

#[test]
fn parses_well_formed_hex_ids() {
    let id = ObjectId::from_hex("eb5e0185546b0bb1a13feec6b9ee8b39985fea42").unwrap();
    let again = ObjectId::from_hex("EB5E0185546B0BB1A13FEEC6B9EE8B39985FEA42").unwrap();
    assert!(id == again);
    assert!(!id.is_zero());
}

#[test]
fn rejects_wrong_length_and_non_hex() {
    assert!(ObjectId::from_hex("").is_err());
    assert!(ObjectId::from_hex("eb5e01").is_err());
    assert!(ObjectId::from_hex("gg5e0185546b0bb1a13feec6b9ee8b39985fea42").is_err());
}

#[test]
fn the_zero_sentinel_is_zero() {
    let zero = ObjectId::from_hex("0000000000000000000000000000000000000000").unwrap();
    assert!(zero.is_zero());
}

#[test]
fn distinct_ids_are_unequal() {
    let a = ObjectId::from_hex("aaaaaaaaaaaaaaaaaaaaaaaaaaaaaaaaaaaaaaaa").unwrap();
    let b = ObjectId::from_hex("bbbbbbbbbbbbbbbbbbbbbbbbbbbbbbbbbbbbbbbb").unwrap();
    assert!(a != b);
}
