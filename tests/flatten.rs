use superstruct::{resolve, Access, FieldDecl, Flatten, Instance, Schema, TypeFamily};

#[derive(Debug, Clone, PartialEq)]
enum Value {
    Int(u64),
    Rec(Box<Instance<Value>>),
}

fn text(x: &str) -> String {
    x.to_string()
}

fn labels(xs: &[&str]) -> Vec<String> {
    xs.iter().map(|x| x.to_string()).collect()
}

fn inner_schema(name: &str) -> Schema {
    let mut y = FieldDecl::common(text("y"), text("u64"));
    y.only = Some(labels(&["B"]));
    Schema {
        name: text(name),
        variants: labels(&["A", "B"]),
        meta_variants: None,
        fields: vec![FieldDecl::common(text("x"), text("u64")), y],
        features: None,
    }
}

fn outer_schema(name: &str, inner: &str, variants: &[&str], flatten: Flatten) -> Schema {
    let mut f = FieldDecl::common(text("inner"), text(inner));
    f.flatten = Some(flatten);
    Schema {
        name: text(name),
        variants: labels(variants),
        meta_variants: None,
        fields: vec![f],
        features: None,
    }
}

fn sub(fam: &TypeFamily, shape: usize, xs: &[u64]) -> Value {
    Value::Rec(Box::new(fam.make(shape, xs.iter().map(|x| Value::Int(*x)).collect()).unwrap()))
}

fn field(outer: &TypeFamily, inner: &TypeFamily, m: &Instance<Value>, getter: &str, name: &str) -> u64 {
    match outer.get(m, &text(getter), ()) {
        Ok(Value::Rec(r)) => match inner.get(r, &text(name), ()) {
            Ok(Value::Int(x)) => *x,
            _ => panic!("expected an integer"),
        },
        _ => panic!("expected a record"),
    }
}

#[test]
fn flatten() {
    let inner = resolve(&inner_schema("InnerMessage")).unwrap();
    let outer = resolve(&outer_schema("Message", "InnerMessage", &["A", "B"], Flatten::All)).unwrap();
    assert_eq!(outer.fields[0].ty, "InnerMessageA");
    assert_eq!(outer.fields[1].ty, "InnerMessageB");

    let message_a = outer.make(0, vec![sub(&inner, 0, &[1])]).unwrap();
    let message_b = outer.make(1, vec![sub(&inner, 1, &[3, 4])]).unwrap();
    assert_eq!(field(&outer, &inner, &message_a, "inner_a", "x"), 1);
    assert!(outer.get(&message_a, &text("inner_b"), ()).is_err());
    assert_eq!(field(&outer, &inner, &message_b, "inner_b", "x"), 3);
    assert_eq!(field(&outer, &inner, &message_b, "inner_b", "y"), 4);
    assert!(outer.get(&message_b, &text("inner_a"), ()).is_err());

    // The borrowed view exposes the same partial getters.
    let union = &outer.unions[0];
    assert_eq!(union.ref_name, "MessageRef");
    for (j, expected) in ["inner_a", "inner_b"].iter().enumerate() {
        match &union.accessors[j] {
            Access::Partial { name, mut_name, arms, .. } => {
                assert_eq!(name, expected);
                assert_eq!(mut_name.clone(), Some(format!("{expected}_mut")));
                assert_eq!(arms, &vec![j == 0, j == 1]);
            }
            _ => panic!("a flattened field is partial"),
        }
    }

    // The mutable view writes through the partial getters.
    let mut message_a = message_a;
    assert!(outer.set(&mut message_a, &text("inner_b_mut"), sub(&inner, 1, &[7, 8]), ()).is_err());
    assert_eq!(outer.set(&mut message_a, &text("inner_a_mut"), sub(&inner, 0, &[9]), ()), Ok(()));
    assert_eq!(field(&outer, &inner, &message_a, "inner_a", "x"), 9);
}

#[test]
fn flatten_subset() {
    let inner = resolve(&inner_schema("InnerMessageSubset")).unwrap();
    let outer = resolve(&outer_schema(
        "MessageSubset",
        "InnerMessageSubset",
        &["A", "B", "C"],
        Flatten::Only(labels(&["A", "B"])),
    ))
    .unwrap();

    let message_a = outer.make(0, vec![sub(&inner, 0, &[1])]).unwrap();
    let message_b = outer.make(1, vec![sub(&inner, 1, &[3, 4])]).unwrap();
    let message_c: Instance<Value> = outer.make(2, vec![]).unwrap();
    assert_eq!(field(&outer, &inner, &message_a, "inner_a", "x"), 1);
    assert!(outer.get(&message_a, &text("inner_b"), ()).is_err());
    assert_eq!(field(&outer, &inner, &message_b, "inner_b", "x"), 3);
    assert_eq!(field(&outer, &inner, &message_b, "inner_b", "y"), 4);
    assert!(outer.get(&message_b, &text("inner_a"), ()).is_err());
    assert!(outer.get(&message_c, &text("inner_a"), ()).is_err());
    assert!(outer.get(&message_c, &text("inner_b"), ()).is_err());
}
