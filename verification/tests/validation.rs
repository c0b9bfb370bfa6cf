use catch_all_codec::compile::{SchemaError, compile};
use catch_all_codec::extract::extract;
use catch_all_codec::schema::{MetaEntry, PayloadShape, RawVariant, Role, VariantDescriptor};

fn unit_variant(name: &str, metadata: Vec<MetaEntry>) -> RawVariant {
    RawVariant { identifier: name.to_string(), shape: PayloadShape::Unit, metadata }
}

fn catch_all_variant(name: &str) -> RawVariant {
    RawVariant {
        identifier: name.to_string(),
        shape: PayloadShape::SingleStringField,
        metadata: vec![MetaEntry::CatchAllMarker],
    }
}

fn compile_raw(raw: &Vec<RawVariant>) -> Result<(), Vec<SchemaError>> {
    match compile(&extract(raw)) {
        Ok(_) => Ok(()),
        Err(e) => Err(e.errors),
    }
}

#[test]
fn schema_without_catch_all_is_rejected() {
    let raw = vec![unit_variant("OptionA", vec![]), unit_variant("OptionB", vec![])];
    let errors = compile_raw(&raw).unwrap_err();
    assert_eq!(errors.len(), 1);
    assert!(matches!(errors[0], SchemaError::MissingCatchAll));
}

#[test]
fn empty_schema_is_rejected() {
    let raw: Vec<RawVariant> = vec![];
    let errors = compile_raw(&raw).unwrap_err();
    assert_eq!(errors.len(), 1);
    assert!(matches!(errors[0], SchemaError::MissingCatchAll));
}

#[test]
fn schema_with_two_catch_alls_is_rejected() {
    let raw = vec![
        unit_variant("OptionA", vec![]),
        catch_all_variant("First"),
        catch_all_variant("Second"),
    ];
    let errors = compile_raw(&raw).unwrap_err();
    assert_eq!(errors.len(), 1);
    assert!(
        matches!(&errors[0], SchemaError::DuplicateCatchAll { identifier } if identifier == "Second")
    );
}

#[test]
fn unit_catch_all_is_rejected() {
    let raw = vec![
        unit_variant("OptionA", vec![]),
        RawVariant {
            identifier: "Other".to_string(),
            shape: PayloadShape::Unit,
            metadata: vec![MetaEntry::CatchAllMarker],
        },
    ];
    let errors = compile_raw(&raw).unwrap_err();
    assert_eq!(errors.len(), 1);
    assert!(
        matches!(&errors[0], SchemaError::CatchAllNotSingleString { identifier } if identifier == "Other")
    );
}

#[test]
fn known_variant_with_payload_is_rejected() {
    let raw = vec![
        RawVariant {
            identifier: "OptionA".to_string(),
            shape: PayloadShape::SingleStringField,
            metadata: vec![],
        },
        catch_all_variant("Other"),
    ];
    let errors = compile_raw(&raw).unwrap_err();
    assert_eq!(errors.len(), 1);
    assert!(
        matches!(&errors[0], SchemaError::KnownNotUnit { identifier } if identifier == "OptionA")
    );
}

#[test]
fn shared_wire_name_is_rejected() {
    let raw = vec![
        unit_variant("OptionA", vec![]),
        unit_variant("OptionB", vec![MetaEntry::Rename("OptionA".to_string())]),
        catch_all_variant("Other"),
    ];
    let errors = compile_raw(&raw).unwrap_err();
    assert_eq!(errors.len(), 1);
    assert!(matches!(&errors[0], SchemaError::DuplicateDecodeKey { key } if key == "OptionA"));
}

#[test]
fn alias_colliding_with_wire_name_is_rejected() {
    let raw = vec![
        unit_variant("OptionA", vec![]),
        unit_variant("OptionB", vec![MetaEntry::Alias("OptionA".to_string())]),
        catch_all_variant("Other"),
    ];
    let errors = compile_raw(&raw).unwrap_err();
    assert_eq!(errors.len(), 1);
    assert!(matches!(&errors[0], SchemaError::DuplicateDecodeKey { key } if key == "OptionA"));
}

#[test]
fn repeated_alias_on_one_variant_is_rejected() {
    let raw = vec![
        unit_variant(
            "OptionA",
            vec![
                MetaEntry::Alias("alt".to_string()),
                MetaEntry::Alias("alt".to_string()),
            ],
        ),
        catch_all_variant("Other"),
    ];
    let errors = compile_raw(&raw).unwrap_err();
    assert_eq!(errors.len(), 1);
    assert!(matches!(&errors[0], SchemaError::DuplicateDecodeKey { key } if key == "alt"));
}

#[test]
fn all_violations_are_reported_in_one_pass() {
    let raw = vec![
        RawVariant {
            identifier: "Bad".to_string(),
            shape: PayloadShape::SingleStringField,
            metadata: vec![],
        },
        unit_variant("OptionA", vec![]),
        unit_variant("OptionB", vec![MetaEntry::Rename("OptionA".to_string())]),
    ];
    let errors = compile_raw(&raw).unwrap_err();
    assert_eq!(errors.len(), 3);
    assert!(matches!(&errors[0], SchemaError::KnownNotUnit { identifier } if identifier == "Bad"));
    assert!(matches!(errors[1], SchemaError::MissingCatchAll));
    assert!(matches!(&errors[2], SchemaError::DuplicateDecodeKey { key } if key == "OptionA"));
}

#[test]
fn extraction_normalises_metadata() {
    let raw = vec![
        unit_variant(
            "OptionA",
            vec![
                MetaEntry::Rename("first".to_string()),
                MetaEntry::Alias("one".to_string()),
                MetaEntry::Rename("second".to_string()),
                MetaEntry::Alias("two".to_string()),
            ],
        ),
        catch_all_variant("Other"),
    ];
    let descriptors: Vec<VariantDescriptor> = extract(&raw);
    assert_eq!(descriptors.len(), 2);
    assert_eq!(descriptors[0].identifier, "OptionA");
    assert_eq!(descriptors[0].role, Role::Known);
    assert_eq!(descriptors[0].shape, PayloadShape::Unit);
    assert_eq!(descriptors[0].wire_name, "second");
    assert_eq!(descriptors[0].aliases, vec!["one".to_string(), "two".to_string()]);
    assert_eq!(descriptors[1].identifier, "Other");
    assert_eq!(descriptors[1].role, Role::CatchAll);
    assert_eq!(descriptors[1].shape, PayloadShape::SingleStringField);
    assert_eq!(descriptors[1].wire_name, "Other");
    assert_eq!(descriptors[1].aliases, Vec::<String>::new());
}

#[test]
fn rename_on_catch_all_does_not_register_a_key() {
    let raw = vec![
        unit_variant("OptionA", vec![]),
        RawVariant {
            identifier: "Other".to_string(),
            shape: PayloadShape::SingleStringField,
            metadata: vec![
                MetaEntry::CatchAllMarker,
                MetaEntry::Rename("OptionA".to_string()),
            ],
        },
    ];
    assert!(compile_raw(&raw).is_ok());
}
