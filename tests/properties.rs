use superstruct::{
    resolve, Access, Activation, Dependency, FeatureTable, FeatureWindow, FieldDecl, Flatten,
    ResolveError, Schema,
};

fn text(x: &str) -> String {
    x.to_string()
}

fn labels(xs: &[&str]) -> Vec<String> {
    xs.iter().map(|x| x.to_string()).collect()
}

fn fork_table() -> FeatureTable {
    FeatureTable {
        timeline: vec![
            Activation { variant: text("V1"), features: labels(&["Merge"]) },
            Activation { variant: text("V2"), features: labels(&["Withdrawals"]) },
            Activation { variant: text("V3"), features: labels(&["EIP6110", "Verge"]) },
        ],
        dependencies: vec![
            Dependency { feature: text("Withdrawals"), requires: labels(&["Merge"]) },
            Dependency { feature: text("EIP6110"), requires: labels(&["Merge"]) },
            Dependency { feature: text("Verge"), requires: labels(&["Merge"]) },
        ],
    }
}

fn fork_schema(fields: Vec<FieldDecl>) -> Schema {
    Schema {
        name: text("Block"),
        variants: labels(&["V1", "V2", "V3"]),
        meta_variants: None,
        fields,
        features: Some(fork_table()),
    }
}

#[test]
fn timeline_scenario_validates() {
    let table = fork_table();
    assert_eq!(table.validate(), Ok(()));
    let cum = table.cumulative_features();
    assert_eq!(cum[0], labels(&["Merge"]));
    assert_eq!(cum[1], labels(&["Merge", "Withdrawals"]));
    assert_eq!(cum[2], labels(&["Merge", "Withdrawals", "EIP6110", "Verge"]));
}

#[test]
fn cumulative_features_grow() {
    let cum = fork_table().cumulative_features();
    for i in 1..cum.len() {
        assert!(cum[i - 1].iter().all(|f| cum[i].contains(f)));
    }
}

#[test]
fn feature_window_from_withdrawals() {
    let mut f = FieldDecl::common(text("withdrawals"), text("Vec<u64>"));
    f.window = Some(FeatureWindow { from: text("Withdrawals"), until: None });
    let fam = resolve(&fork_schema(vec![FieldDecl::common(text("slot"), text("u64")), f])).unwrap();
    assert_eq!(fam.fields[1].present, vec![false, true, true]);
    assert!(!fam.fields[1].common);
    assert!(fam.fields[0].common);
}

#[test]
fn feature_window_with_end() {
    let mut f = FieldDecl::common(text("legacy"), text("u64"));
    f.window = Some(FeatureWindow { from: text("Merge"), until: Some(text("Verge")) });
    let fam = resolve(&fork_schema(vec![f])).unwrap();
    assert_eq!(fam.fields[0].present, vec![true, true, false]);
}

#[test]
fn feature_expression_membership() {
    let expr = superstruct::FeatureExpr::And(
        Box::new(superstruct::FeatureExpr::Literal(text("Withdrawals"))),
        Box::new(superstruct::FeatureExpr::Not(Box::new(superstruct::FeatureExpr::Literal(text(
            "Verge",
        ))))),
    );
    let mut f = FieldDecl::common(text("x"), text("u64"));
    f.feature = Some(expr);
    let fam = resolve(&fork_schema(vec![f])).unwrap();
    assert_eq!(fam.fields[0].present, vec![false, true, false]);
}

#[test]
fn two_axis_meta_only() {
    let mut f = FieldDecl::common(text("x"), text("u64"));
    f.meta_only = Some(labels(&["Read"]));
    let schema = Schema {
        name: text("Message"),
        variants: labels(&["Lower", "Upper"]),
        meta_variants: Some(labels(&["Read", "Write"])),
        fields: vec![f],
        features: None,
    };
    let fam = resolve(&schema).unwrap();
    let names: Vec<&str> = fam.shapes.iter().map(|s| s.name.as_str()).collect();
    assert_eq!(names, vec!["MessageReadLower", "MessageWriteLower", "MessageReadUpper", "MessageWriteUpper"]);
    assert_eq!(fam.fields[0].present, vec![true, false, true, false]);
    // Unions: one per meta variant, then the one over meta variants.
    assert_eq!(fam.unions.len(), 3);
    assert_eq!(fam.unions[0].name, "MessageRead");
    assert_eq!(fam.unions[2].name, "Message");
    assert!(fam.unions[2].meta_level);
    assert_eq!(fam.unions[2].arms[0].struct_name, "MessageRead");
    assert_eq!(fam.unions[2].arms[1].cast, "as_write");
    assert!(matches!(&fam.unions[1].accessors[0], Access::Absent));
    match &fam.unions[2].accessors[0] {
        Access::Partial { arms, .. } => assert_eq!(arms, &vec![true, false]),
        _ => panic!("`x` is partial"),
    }
}

#[test]
fn flatten_subset_not_dead() {
    let mut f = FieldDecl::common(text("inner"), text("Inner"));
    f.flatten = Some(Flatten::Only(labels(&["A", "B"])));
    let schema = Schema {
        name: text("Outer"),
        variants: labels(&["A", "B", "C"]),
        meta_variants: None,
        fields: vec![f],
        features: None,
    };
    let fam = resolve(&schema).unwrap();
    assert_eq!(fam.fields.len(), 2);
    assert_eq!(fam.fields[0].present, vec![true, false, false]);
    assert_eq!(fam.fields[1].present, vec![false, true, false]);
    assert_eq!(fam.fields[0].partial_getter.rename.as_deref(), Some("inner_a"));
    assert_eq!(fam.shape_fields(2), Vec::<usize>::new());
}

#[test]
fn dependency_violation_names_the_place() {
    let table = FeatureTable {
        timeline: vec![
            Activation { variant: text("V1"), features: labels(&["Verge"]) },
            Activation { variant: text("V2"), features: labels(&["Withdrawals"]) },
        ],
        dependencies: vec![Dependency { feature: text("Verge"), requires: labels(&["Merge"]) }],
    };
    let expected = ResolveError::DependencyViolation { dependency: 0, required: 0, position: 0 };
    assert_eq!(table.validate(), Err(expected));
    let schema = Schema {
        name: text("Block"),
        variants: labels(&["V1", "V2"]),
        meta_variants: None,
        fields: vec![FieldDecl::common(text("slot"), text("u64"))],
        features: Some(table),
    };
    assert_eq!(resolve(&schema).err(), Some(expected));
}

#[test]
fn shape_order_ignores_fields() {
    let mut only_b = FieldDecl::common(text("b"), text("u64"));
    only_b.only = Some(labels(&["B"]));
    let make = |fields: Vec<FieldDecl>| Schema {
        name: text("T"),
        variants: labels(&["B", "A"]),
        meta_variants: Some(labels(&["Y", "X"])),
        fields,
        features: None,
    };
    let mut only_b2 = FieldDecl::common(text("b"), text("u64"));
    only_b2.only = Some(labels(&["B"]));
    let f1 = resolve(&make(vec![FieldDecl::common(text("a"), text("u64")), only_b])).unwrap();
    let f2 = resolve(&make(vec![only_b2, FieldDecl::common(text("a"), text("u64"))])).unwrap();
    let names = |f: &superstruct::TypeFamily| f.shapes.iter().map(|s| s.name.clone()).collect::<Vec<_>>();
    assert_eq!(names(&f1), vec!["TYB", "TXB", "TYA", "TXA"]);
    assert_eq!(names(&f1), names(&f2));
}

#[test]
fn common_and_partial_accessors() {
    let mut p = FieldDecl::common(text("p"), text("u64"));
    p.only = Some(labels(&["A"]));
    let mut everywhere = FieldDecl::common(text("q"), text("u64"));
    everywhere.only = Some(labels(&["A", "B"]));
    let schema = Schema {
        name: text("T"),
        variants: labels(&["A", "B"]),
        meta_variants: None,
        fields: vec![FieldDecl::common(text("c"), text("u64")), p, everywhere],
        features: None,
    };
    let fam = resolve(&schema).unwrap();
    assert!(matches!(&fam.unions[0].accessors[0], Access::Total { .. }));
    assert!(matches!(&fam.unions[0].accessors[1], Access::Partial { .. }));
    // Listing every variant makes the field present everywhere: it is common.
    assert!(fam.fields[2].common);
    assert!(matches!(&fam.unions[0].accessors[2], Access::Total { .. }));
}

#[test]
fn cast_round_trip() {
    let schema = Schema {
        name: text("T"),
        variants: labels(&["A", "B", "C"]),
        meta_variants: None,
        fields: vec![FieldDecl::common(text("x"), text("u64"))],
        features: None,
    };
    let fam = resolve(&schema).unwrap();
    for q in 0..3 {
        let inst = fam.make(q, vec![q as u64 + 7]).unwrap();
        for k in 0..3 {
            let r = fam.cast(&inst, k, "miss");
            if k == q {
                assert_eq!(r, Ok(&vec![q as u64 + 7]));
            } else {
                assert_eq!(r, Err("miss"));
            }
        }
    }
}

#[test]
fn resolving_twice_agrees() {
    let mut f = FieldDecl::common(text("w"), text("u64"));
    f.window = Some(FeatureWindow { from: text("Withdrawals"), until: None });
    let schema = fork_schema(vec![FieldDecl::common(text("slot"), text("u64")), f]);
    let a = resolve(&schema).unwrap();
    let b = resolve(&schema).unwrap();
    assert_eq!(a.shapes.len(), b.shapes.len());
    for (x, y) in a.shapes.iter().zip(b.shapes.iter()) {
        assert_eq!((x.variant, x.meta, &x.name), (y.variant, y.meta, &y.name));
    }
    for (x, y) in a.fields.iter().zip(b.fields.iter()) {
        assert_eq!((&x.name, &x.ty, &x.present, x.common), (&y.name, &y.ty, &y.present, y.common));
    }
    assert_eq!(a.unions.len(), b.unions.len());
}

#[test]
fn make_checks_record_length() {
    let fam = resolve(&fork_schema(vec![FieldDecl::common(text("slot"), text("u64"))])).unwrap();
    assert!(fam.make(0, vec![1u64, 2]).is_none());
    assert!(fam.make(3, vec![1u64]).is_none());
    assert!(fam.make(2, vec![1u64]).is_some());
}

#[test]
fn variants_from_a_starting_feature() {
    let table = fork_table();
    assert_eq!(table.variants_from(&text("Withdrawals")), Some(labels(&["V2", "V3"])));
    assert_eq!(table.variants_from(&text("Merge")), Some(labels(&["V1", "V2", "V3"])));
    assert_eq!(table.variants_from(&text("Unknown")), None);
    assert_eq!(table.first_activation(&text("Verge")), Some(2));
    assert_eq!(table.position(&text("V2")), Some(1));
}

#[test]
fn single_shape_flatten_is_common() {
    let mut f = FieldDecl::common(text("inner"), text("Inner"));
    f.flatten = Some(Flatten::All);
    let schema = Schema {
        name: text("Solo"),
        variants: labels(&["A"]),
        meta_variants: None,
        fields: vec![f],
        features: None,
    };
    let fam = resolve(&schema).unwrap();
    assert_eq!(fam.fields[0].ty, "InnerA");
    assert!(fam.fields[0].common);
    assert!(matches!(&fam.unions[0].accessors[0], Access::Total { .. }));
}

#[test]
fn empty_meta_axis_has_no_shapes() {
    let schema = Schema {
        name: text("T"),
        variants: labels(&["A"]),
        meta_variants: Some(vec![]),
        fields: vec![],
        features: None,
    };
    let fam = resolve(&schema).unwrap();
    assert!(fam.shapes.is_empty());
    assert_eq!(fam.unions.len(), 1);
    assert!(fam.unions[0].meta_level);
}

#[test]
fn only_and_feature_intersect() {
    let mut f = FieldDecl::common(text("x"), text("u64"));
    f.only = Some(labels(&["V1", "V3"]));
    f.feature = Some(superstruct::FeatureExpr::Literal(text("Withdrawals")));
    let fam = resolve(&fork_schema(vec![f])).unwrap();
    assert_eq!(fam.fields[0].present, vec![false, false, true]);
}

#[test]
fn only_on_single_variant_with_feature() {
    let table = FeatureTable {
        timeline: vec![Activation { variant: text("A"), features: labels(&["F"]) }],
        dependencies: vec![],
    };
    let mut f = FieldDecl::common(text("x"), text("u64"));
    f.only = Some(labels(&["A"]));
    f.feature = Some(superstruct::FeatureExpr::Literal(text("F")));
    let schema = Schema {
        name: text("T"),
        variants: labels(&["A"]),
        meta_variants: None,
        fields: vec![f],
        features: Some(table),
    };
    let fam = resolve(&schema).unwrap();
    assert_eq!(fam.fields[0].present, vec![true]);
    assert!(fam.fields[0].common);
}

#[test]
fn feature_and_window_intersect() {
    let mut f = FieldDecl::common(text("x"), text("u64"));
    f.feature = Some(superstruct::FeatureExpr::Literal(text("Withdrawals")));
    f.window = Some(FeatureWindow { from: text("Merge"), until: Some(text("Verge")) });
    let fam = resolve(&fork_schema(vec![f])).unwrap();
    assert_eq!(fam.fields[0].present, vec![false, true, false]);
}

#[test]
fn feature_with_partial_getter_is_partial() {
    let mut f = FieldDecl::common(text("x"), text("u64"));
    f.feature = Some(superstruct::FeatureExpr::Literal(text("Verge")));
    f.partial_getter = Some(superstruct::GetterOpts { copy: true, no_mut: true, rename: None });
    let fam = resolve(&fork_schema(vec![f])).unwrap();
    match &fam.unions[0].accessors[0] {
        Access::Partial { mut_name, copy, arms, .. } => {
            assert!(mut_name.is_none());
            assert!(*copy);
            assert_eq!(arms, &vec![false, false, true]);
        }
        _ => panic!("`x` is partial"),
    }
}

#[test]
fn later_broken_dependency_is_named() {
    let table = FeatureTable {
        timeline: vec![
            Activation { variant: text("V1"), features: labels(&["Merge"]) },
            Activation { variant: text("V2"), features: labels(&["Verge"]) },
            Activation { variant: text("V3"), features: labels(&["Capella"]) },
        ],
        dependencies: vec![
            Dependency { feature: text("Verge"), requires: labels(&["Merge"]) },
            Dependency { feature: text("Verge"), requires: labels(&["Merge", "Capella"]) },
        ],
    };
    assert_eq!(
        table.validate(),
        Err(ResolveError::DependencyViolation { dependency: 1, required: 1, position: 1 })
    );
}
