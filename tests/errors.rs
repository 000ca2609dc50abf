use superstruct::{
    resolve, Activation, FeatureExpr, FeatureTable, FeatureWindow, FieldDecl, Flatten, GetterOpts,
    IdentList, MetaError, MetaItem, ResolveError, Schema,
};

fn text(x: &str) -> String {
    x.to_string()
}

fn labels(xs: &[&str]) -> Vec<String> {
    xs.iter().map(|x| x.to_string()).collect()
}

fn schema(fields: Vec<FieldDecl>) -> Schema {
    Schema {
        name: text("T"),
        variants: labels(&["A", "B"]),
        meta_variants: None,
        fields,
        features: None,
    }
}

fn field(name: &str) -> FieldDecl {
    FieldDecl::common(text(name), text("u64"))
}

#[test]
fn only_with_getter_conflicts() {
    let mut f = field("x");
    f.only = Some(labels(&["A"]));
    f.getter = Some(GetterOpts { copy: true, no_mut: false, rename: None });
    let r = resolve(&schema(vec![field("ok"), f]));
    assert_eq!(r.err(), Some(ResolveError::ConflictingFieldOptions { field: 1 }));
}

#[test]
fn partial_getter_on_common_field_conflicts() {
    let mut f = field("x");
    f.partial_getter = Some(GetterOpts { copy: true, no_mut: false, rename: None });
    assert_eq!(resolve(&schema(vec![f])).err(), Some(ResolveError::ConflictingFieldOptions { field: 0 }));
}

#[test]
fn flatten_with_only_conflicts() {
    let mut f = field("x");
    f.flatten = Some(Flatten::All);
    f.only = Some(labels(&["A"]));
    assert_eq!(resolve(&schema(vec![f])).err(), Some(ResolveError::ConflictingFieldOptions { field: 0 }));
}

#[test]
fn unknown_variant_label() {
    let mut f = field("x");
    f.only = Some(labels(&["A", "Z"]));
    assert_eq!(
        resolve(&schema(vec![f])).err(),
        Some(ResolveError::UnknownVariant { field: 0, label: 1 })
    );
}

#[test]
fn unknown_meta_variant_label() {
    let mut f = field("x");
    f.meta_only = Some(labels(&["Read"]));
    assert_eq!(
        resolve(&schema(vec![f])).err(),
        Some(ResolveError::UnknownMetaVariant { field: 0, label: 0 })
    );
}

#[test]
fn feature_rule_without_timeline() {
    let mut f = field("x");
    f.window = Some(FeatureWindow { from: text("Merge"), until: None });
    assert_eq!(resolve(&schema(vec![f])).err(), Some(ResolveError::UnknownFeature { field: 0 }));
}

#[test]
fn feature_never_activated() {
    let mut s = schema(vec![]);
    s.features = Some(FeatureTable {
        timeline: vec![
            Activation { variant: text("A"), features: labels(&["Merge"]) },
            Activation { variant: text("B"), features: vec![] },
        ],
        dependencies: vec![],
    });
    let mut f = field("x");
    f.feature = Some(FeatureExpr::Literal(text("Capella")));
    s.fields = vec![f];
    assert_eq!(resolve(&s).err(), Some(ResolveError::UnknownFeature { field: 0 }));
}

#[test]
fn variant_missing_from_timeline() {
    let mut s = schema(vec![field("x")]);
    s.features = Some(FeatureTable {
        timeline: vec![Activation { variant: text("A"), features: labels(&["Merge"]) }],
        dependencies: vec![],
    });
    assert_eq!(resolve(&s).err(), Some(ResolveError::UnscheduledVariant { variant: 1 }));
}

#[test]
fn flatten_restriction_names_unknown_label() {
    let mut f = field("inner");
    f.flatten = Some(Flatten::Only(labels(&["A", "Read"])));
    assert_eq!(resolve(&schema(vec![f])).err(), Some(ResolveError::FlattenMismatch { field: 0 }));
}

#[test]
fn field_on_no_shape_is_dead() {
    let mut f = field("x");
    f.only = Some(vec![]);
    assert_eq!(resolve(&schema(vec![field("y"), f])).err(), Some(ResolveError::DeadField { field: 1 }));
}

#[test]
fn feature_window_that_never_opens_is_dead() {
    let mut s = schema(vec![]);
    s.features = Some(FeatureTable {
        timeline: vec![
            Activation { variant: text("A"), features: labels(&["Merge"]) },
            Activation { variant: text("B"), features: labels(&["Capella"]) },
        ],
        dependencies: vec![],
    });
    let mut f = field("x");
    f.window = Some(FeatureWindow { from: text("Capella"), until: Some(text("Merge")) });
    s.fields = vec![f];
    assert_eq!(resolve(&s).err(), Some(ResolveError::DeadField { field: 0 }));
}

fn path(x: &str) -> MetaItem {
    MetaItem::Path(vec![text(x)])
}

fn list(op: &str, items: Vec<MetaItem>) -> MetaItem {
    MetaItem::List(vec![text(op)], items)
}

#[test]
fn feature_expressions_parse_and_evaluate() {
    let e = FeatureExpr::from_list(&vec![list(
        "or",
        vec![list("and", vec![path("A"), path("B")]), list("not", vec![path("C")])],
    )])
    .unwrap();
    assert!(e.eval(&labels(&["A", "B", "C"])));
    assert!(e.eval(&labels(&[])));
    assert!(!e.eval(&labels(&["C"])));
    assert!(!e.eval(&labels(&["A", "C"])));
    let last = FeatureExpr::from_list(&vec![MetaItem::Path(labels(&["features", "Merge"]))]).unwrap();
    assert!(last.eval(&labels(&["Merge"])));
}

#[test]
fn malformed_feature_expressions() {
    assert_eq!(FeatureExpr::from_list(&vec![]).err(), Some(MetaError::ExpressionCount));
    assert_eq!(
        FeatureExpr::from_list(&vec![list("and", vec![path("A")])]).err(),
        Some(MetaError::OperandCount)
    );
    assert_eq!(
        FeatureExpr::from_list(&vec![list("not", vec![path("A"), path("B")])]).err(),
        Some(MetaError::OperandCount)
    );
    assert_eq!(
        FeatureExpr::from_list(&vec![list("xor", vec![path("A"), path("B")])]).err(),
        Some(MetaError::UnknownOperator)
    );
    assert_eq!(
        FeatureExpr::from_list(&vec![MetaItem::Lit(text("\"A\""))]).err(),
        Some(MetaError::LiteralInExpression)
    );
    assert_eq!(
        FeatureExpr::from_list(&vec![MetaItem::List(labels(&["a", "and"]), vec![])]).err(),
        Some(MetaError::OperatorPath)
    );
    assert_eq!(FeatureExpr::from_list(&vec![MetaItem::Path(vec![])]).err(), Some(MetaError::EmptyPath));
}

#[test]
fn ident_lists() {
    let l = IdentList::from_list(&vec![path("B"), path("A"), list("C", vec![])]).unwrap();
    assert_eq!(l.idents, labels(&["B", "A", "C"]));
    assert_eq!(
        IdentList::from_list(&vec![path("B"), MetaItem::Lit(text("1"))]).err().map(|_| ()),
        Some(())
    );
    assert!(matches!(
        IdentList::from_list(&vec![path("B"), MetaItem::Lit(text("1"))]),
        Err(MetaError::LiteralNotName { index: 1 })
    ));
    assert!(matches!(
        IdentList::from_list(&vec![MetaItem::Path(labels(&["a", "b"]))]),
        Err(MetaError::NotAName { index: 0 })
    ));
}

#[test]
fn feature_rule_with_flatten_or_getter_conflicts() {
    let mut f = field("x");
    f.flatten = Some(Flatten::All);
    f.feature = Some(FeatureExpr::Literal(text("Merge")));
    assert_eq!(resolve(&schema(vec![f])).err(), Some(ResolveError::ConflictingFieldOptions { field: 0 }));
    let mut g = field("y");
    g.window = Some(FeatureWindow { from: text("Merge"), until: None });
    g.getter = Some(GetterOpts { copy: true, no_mut: false, rename: None });
    assert_eq!(resolve(&schema(vec![g])).err(), Some(ResolveError::ConflictingFieldOptions { field: 0 }));
}
