use superstruct::{resolve, FieldDecl, Schema};

#[test]
fn thing_impls_partial_eq() {
    let schema = Schema {
        name: "Thing".to_string(),
        variants: vec!["A".to_string(), "B".to_string()],
        meta_variants: None,
        fields: vec![FieldDecl::common("x".to_string(), "u64".to_string())],
        features: None,
    };
    let fam = resolve(&schema).unwrap();
    assert_eq!(fam.shapes[0].name, "ThingA");
    let t1 = fam.make(0, vec![5u64]).unwrap();
    assert_eq!(t1, t1);
}
