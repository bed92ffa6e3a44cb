use bevy_ggrs::derive::{
    auto_registers, derive_from_attributes, derive_from_definition, derive_rollback_impl,
    read_items, registration_calls, AttributeError, AttributeItems, AttributeSource, DeriveError,
    ItemError, RollbackAttrs, Strategy,
};

fn derive(source: &str) -> Result<Vec<&'static str>, DeriveError> {
    derive_rollback_impl(source)
}

fn item_error(attribute: usize, item: usize, error: ItemError) -> DeriveError {
    DeriveError::InvalidAttribute {
        attribute,
        error: AttributeError::Item { item, error },
    }
}

fn malformed(attribute: usize) -> DeriveError {
    DeriveError::InvalidAttribute {
        attribute,
        error: AttributeError::Malformed,
    }
}

fn items(words: &[&str], complete: bool) -> AttributeItems {
    AttributeItems {
        items: words.iter().map(|word| Some(word.to_string())).collect(),
        complete,
    }
}

#[test]
fn marked_component_with_copy() {
    let source = "#[derive(Component, Clone, Copy, DeriveRollback)]
        #[rollback(copy, marker)]
        struct Player { score: u32 }";
    assert_eq!(
        derive(source),
        Ok(vec!["rollback_entities_with", "rollback_component_with_copy"])
    );
}

#[test]
fn resource_with_clone() {
    let source = "#[rollback(resource, clone)] #[reflect(Rollback)] struct AutoScore { value: u32 }";
    assert_eq!(derive(source), Ok(vec!["rollback_resource_with_clone"]));
}

#[test]
fn immutable_component_with_copy() {
    let source = "#[component(immutable)] #[rollback(immutable, copy)] struct Tag;";
    assert_eq!(derive(source), Ok(vec!["rollback_immutable_component_with_copy"]));
}

#[test]
fn every_kind_and_strategy() {
    let strategies = ["copy", "clone", "reflect"];
    for strategy in strategies {
        let component = format!("#[rollback({strategy})] struct T;");
        assert_eq!(derive(&component).unwrap().len(), 1);
        assert_eq!(derive(&component).unwrap()[0], format!("rollback_component_with_{strategy}"));
        let immutable = format!("#[rollback({strategy}, immutable)] enum T {{ A }}");
        assert_eq!(
            derive(&immutable).unwrap()[0],
            format!("rollback_immutable_component_with_{strategy}")
        );
        let resource = format!("#[rollback({strategy}, resource,)] union T {{ a: u8 }}");
        assert_eq!(derive(&resource).unwrap()[0], format!("rollback_resource_with_{strategy}"));
    }
}

#[test]
fn tracking_comes_first_and_the_checksum_last() {
    assert_eq!(
        derive("#[rollback(checksum, reflect, marker, immutable)] struct T<A: Clone>(A);"),
        Ok(vec![
            "rollback_entities_with",
            "rollback_immutable_component_with_reflect",
            "checksum_component_with_hash",
        ])
    );
    assert_eq!(
        derive("#[rollback(checksum, copy, resource)] struct T;"),
        Ok(vec!["rollback_resource_with_copy", "checksum_resource_with_hash"])
    );
}

#[test]
fn attributes_accumulate() {
    assert_eq!(
        derive("#[rollback(copy)] #[other(clone)] #[rollback(marker)] struct T;"),
        derive("#[rollback(copy, marker)] struct T;")
    );
    assert_eq!(derive("#[rollback()] #[rollback(copy)] struct T;"), derive("#[rollback(copy)] struct T;"));
}

#[test]
fn exactly_one_strategy_is_required() {
    assert_eq!(derive("struct T;"), Err(DeriveError::NoStrategy));
    assert_eq!(derive("#[rollback(marker)] struct T;"), Err(DeriveError::NoStrategy));
    assert_eq!(
        derive("#[rollback(copy, clone)] struct T;"),
        Err(item_error(0, 1, ItemError::SecondStrategy))
    );
    assert_eq!(
        derive("#[rollback(copy)] #[rollback(marker, reflect)] struct T;"),
        Err(item_error(1, 1, ItemError::SecondStrategy))
    );
    assert_eq!(
        derive("#[rollback(copy, copy)] struct T;"),
        Ok(vec!["rollback_component_with_copy"])
    );
}

#[test]
fn contradictions_are_refused() {
    assert_eq!(
        derive("#[rollback(copy, resource, immutable)] struct T;"),
        Err(DeriveError::ResourceAndImmutable)
    );
    assert_eq!(
        derive("#[rollback(copy, resource, marker)] struct T;"),
        Err(DeriveError::ResourceAndMarker)
    );
    // A missing strategy is told first, then the immutable resource.
    assert_eq!(
        derive("#[rollback(resource, immutable, marker)] struct T;"),
        Err(DeriveError::NoStrategy)
    );
    assert_eq!(
        derive("#[rollback(copy, resource, immutable, marker)] struct T;"),
        Err(DeriveError::ResourceAndImmutable)
    );
}

#[test]
fn unknown_items_are_refused() {
    for item in ["Copy", "copyy", "a::copy", "::copy", "r#copy", "struct"] {
        let source = format!("#[serde(copy)] #[rollback(marker, {item})] struct T;");
        assert_eq!(derive(&source), Err(item_error(1, 1, ItemError::Unknown)));
    }
}

#[test]
fn malformed_arguments_are_refused() {
    for attribute in ["rollback", "rollback = \"copy\"", "rollback(copy clone)", "rollback(copy = 1)", "rollback(1)", "rollback(copy,,)"] {
        let source = format!("#[{attribute}] struct T;");
        assert_eq!(derive(&source), Err(malformed(0)), "{attribute}");
    }
    // An unknown item before the fault is told first.
    assert_eq!(
        derive("#[rollback(bogus, copy clone)] struct T;"),
        Err(item_error(0, 0, ItemError::Unknown))
    );
}

#[test]
fn other_attributes_are_passed_over() {
    assert_eq!(
        derive("/// A doc comment.\n#[a::rollback(bogus)] #[rollback(copy)] struct T;"),
        Ok(vec!["rollback_component_with_copy"])
    );
}

#[test]
fn only_type_definitions_are_accepted() {
    for source in ["", "fn f() {}", "#[rollback(copy)] struct", "struct T; struct U;", "struct T {"] {
        assert_eq!(derive(source), Err(DeriveError::InvalidDefinition));
    }
}

#[test]
fn items_are_read_in_order() {
    let mut attrs = RollbackAttrs::default();
    assert_eq!(attrs.parse(Some("clone")), Ok(()));
    assert_eq!(attrs.parse(Some("checksum")), Ok(()));
    assert_eq!(attrs.parse(None), Err(ItemError::Unknown));
    assert_eq!(attrs.parse(Some("copy")), Err(ItemError::SecondStrategy));
    assert_eq!(
        attrs,
        RollbackAttrs {
            strategy: Some(Strategy::Clone),
            resource: false,
            immutable: false,
            marker: false,
            checksum: true,
        }
    );
    let items = AttributeItems {
        items: vec![Some("resource".to_string()), Some("immutable".to_string())],
        complete: true,
    };
    let attrs = read_items(attrs, &items).unwrap();
    assert!(attrs.resource && attrs.immutable && attrs.checksum && !attrs.marker);
    assert_eq!(registration_calls(attrs), Err(DeriveError::ResourceAndImmutable));
    let cut_short = AttributeItems {
        items: vec![Some("marker".to_string())],
        complete: false,
    };
    assert_eq!(read_items(attrs, &cut_short), Err(AttributeError::Malformed));
}

#[test]
fn attributes_are_read_in_order() {
    let attributes = vec![
        AttributeSource {
            name: Some("derive".to_string()),
            arguments: Some(items(&["Clone"], true)),
        },
        AttributeSource {
            name: Some("rollback".to_string()),
            arguments: Some(items(&["clone", "marker"], true)),
        },
        AttributeSource {
            name: None,
            arguments: None,
        },
    ];
    assert_eq!(
        derive_from_attributes(&attributes),
        Ok(vec!["rollback_entities_with", "rollback_component_with_clone"])
    );
}

/// A definition that was read before gives what its source gives.
#[test]
fn definitions_are_taken_as_they_were_read() {
    for source in [
        "#[rollback(copy, marker)] struct T;",
        "#[rollback(resource)] struct T;",
        "#[rollback] struct T;",
        "#[rollback(marker, bogus)] struct T;",
        "#[rollback(copy = 1)] struct T;",
    ] {
        let definition: syn::DeriveInput = syn::parse_str(source).unwrap();
        assert_eq!(derive_from_definition(&definition), derive(source));
    }
}

/// An attribute without a name is passed over like any other.
#[test]
fn nameless_attributes_are_passed_over() {
    let mut definition: syn::DeriveInput =
        syn::parse_str("#[other] #[rollback(copy)] struct T;").unwrap();
    definition.attrs[0].meta = syn::Meta::Path(syn::Path {
        leading_colon: None,
        segments: syn::punctuated::Punctuated::new(),
    });
    assert_eq!(
        derive_from_definition(&definition),
        Ok(vec!["rollback_component_with_copy"])
    );
}

/// Order, repetition, splitting and other attributes make no difference.
#[test]
fn spread_of_items_does_not_matter() {
    let calls = derive("#[rollback(clone, marker, checksum)] struct T;");
    assert_eq!(
        calls,
        Ok(vec![
            "rollback_entities_with",
            "rollback_component_with_clone",
            "checksum_component_with_hash",
        ])
    );
    for attributes in [
        "#[rollback(checksum, marker, clone)]",
        "#[rollback(marker, clone, marker, checksum, checksum)]",
        "#[rollback(marker)] #[rollback(checksum, clone)]",
        "#[a] #[rollback(checksum)] #[b(copy)] #[rollback()] #[rollback(clone)] #[rollback(marker)]",
    ] {
        assert_eq!(derive(&format!("{attributes} struct T;")), calls, "{attributes}");
    }
    let refused = ["#[rollback(resource, copy, marker)]", "#[rollback(marker)] #[rollback(copy, resource)]"];
    for attributes in refused {
        assert_eq!(
            derive(&format!("{attributes} struct T;")),
            Err(DeriveError::ResourceAndMarker)
        );
    }
}

/// Attributes with nothing or with a fault between their brackets.
#[test]
fn attributes_without_whole_arguments_are_refused() {
    let rollback = |arguments| {
        vec![AttributeSource {
            name: Some("rollback".to_string()),
            arguments,
        }]
    };
    assert_eq!(derive_from_attributes(&rollback(None)), Err(malformed(0)));
    assert_eq!(
        derive_from_attributes(&rollback(Some(items(&["copy"], false)))),
        Err(malformed(0))
    );
    assert_eq!(
        derive_from_attributes(&rollback(Some(items(&["copy", "bogus"], false)))),
        Err(item_error(0, 1, ItemError::Unknown))
    );
}

/// A fault in a later attribute has its place among all the items.
#[test]
fn refused_items_are_refused_together() {
    let asked = read_items(RollbackAttrs::default(), &items(&["copy", "marker"], true)).unwrap();
    assert_eq!(
        read_items(asked, &items(&["checksum", "clone"], true)),
        Err(AttributeError::Item { item: 1, error: ItemError::SecondStrategy })
    );
    assert_eq!(
        read_items(
            RollbackAttrs::default(),
            &items(&["copy", "marker", "checksum", "clone"], true)
        ),
        Err(AttributeError::Item { item: 3, error: ItemError::SecondStrategy })
    );
}

#[test]
fn refusals_are_explained() {
    let cases = [
        (DeriveError::InvalidDefinition, None),
        (malformed(3), None),
        (item_error(0, 0, ItemError::Unknown), Some("unknown rollback attribute")),
        (
            item_error(0, 1, ItemError::SecondStrategy),
            Some("#[rollback(...)] takes exactly one strategy"),
        ),
        (
            DeriveError::NoStrategy,
            Some("#[rollback(...)] requires a strategy: copy, clone, or reflect"),
        ),
        (
            DeriveError::ResourceAndImmutable,
            Some("#[rollback(...)] cannot combine `resource` and `immutable`"),
        ),
        (
            DeriveError::ResourceAndMarker,
            Some("#[rollback(...)] cannot combine `resource` and `marker` (entity tracking is for components only)"),
        ),
    ];
    for (error, message) in cases {
        assert_eq!(error.message(), message);
    }
}

#[test]
fn types_register_themselves_unless_told_not_to() {
    assert!(auto_registers(false, true));
    assert!(!auto_registers(true, true));
    assert!(!auto_registers(false, false));
    assert!(!auto_registers(true, false));
}
