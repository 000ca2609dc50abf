use superstruct::{resolve, FieldDecl, Instance, Schema, TypeFamily};

#[test]
fn getter_and_partial_getter_lifetimes() {
    let mut y = FieldDecl::common("y".to_string(), "String".to_string());
    y.only = Some(vec!["B".to_string()]);
    let schema = Schema {
        name: "Message".to_string(),
        variants: vec!["A".to_string(), "B".to_string()],
        meta_variants: None,
        fields: vec![FieldDecl::common("x".to_string(), "String".to_string()), y],
        features: None,
    };
    let fam = resolve(&schema).unwrap();

    fn get_x<'a>(fam: &TypeFamily, message: &'a Instance<String>) -> &'a String {
        fam.get(message, &"x".to_string(), ()).unwrap()
    }

    fn get_y<'a>(fam: &TypeFamily, message: &'a Instance<String>) -> Result<&'a String, ()> {
        fam.get(message, &"y".to_string(), ())
    }

    let m = fam.make(1, vec!["hello".to_string(), "world".to_string()]).unwrap();
    let x = get_x(&fam, &m);
    let y = get_y(&fam, &m).unwrap();
    assert_eq!(x, "hello");
    assert_eq!(y, "world");
}
