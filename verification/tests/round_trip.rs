use catch_all_codec::codec::{CodecTable, Variant};
use catch_all_codec::compile::compile;
use catch_all_codec::extract::extract;
use catch_all_codec::schema::{MetaEntry, PayloadShape, RawVariant};

fn unit_variant(name: &str, metadata: Vec<MetaEntry>) -> RawVariant {
    RawVariant { identifier: name.to_string(), shape: PayloadShape::Unit, metadata }
}

fn catch_all_variant(name: &str) -> RawVariant {
    RawVariant {
        identifier: name.to_string(),
        shape: PayloadShape::SingleStringField,
        metadata: vec![MetaEntry::CatchAllMarker],
    }
}

/// The schema with one plain member, one renamed member, one aliased member,
/// and a catch-all.
fn sample_table() -> CodecTable {
    let raw = vec![
        unit_variant("OptionA", vec![]),
        unit_variant("OptionB", vec![MetaEntry::Rename("b".to_string())]),
        unit_variant(
            "OptionC",
            vec![
                MetaEntry::Alias("alt1".to_string()),
                MetaEntry::Alias("alt2".to_string()),
            ],
        ),
        catch_all_variant("Other"),
    ];
    compile(&extract(&raw)).expect("sample schema must compile")
}

#[test]
fn canonical_names_decode_to_their_variant() {
    let table = sample_table();
    assert_eq!(table.decode("OptionA".to_string()), Variant::Known(0));
    assert_eq!(table.decode("b".to_string()), Variant::Known(1));
    assert_eq!(table.decode("OptionC".to_string()), Variant::Known(2));
}

#[test]
fn known_variants_encode_to_their_canonical_name() {
    let table = sample_table();
    assert_eq!(table.encode(&Variant::Known(0)), "OptionA");
    assert_eq!(table.encode(&Variant::Known(1)), "b");
    assert_eq!(table.encode(&Variant::Known(2)), "OptionC");
}

#[test]
fn renamed_variant_does_not_answer_to_its_identifier() {
    let table = sample_table();
    assert_eq!(
        table.decode("OptionB".to_string()),
        Variant::CatchAll("OptionB".to_string())
    );
}

#[test]
fn aliases_decode_to_their_variant() {
    let table = sample_table();
    assert_eq!(table.decode("alt1".to_string()), Variant::Known(2));
    assert_eq!(table.decode("alt2".to_string()), Variant::Known(2));
}

#[test]
fn alias_round_trip_lands_on_canonical_name() {
    let table = sample_table();
    let decoded = table.decode("alt1".to_string());
    assert_eq!(table.encode(&decoded), "OptionC");
    let decoded = table.decode("alt2".to_string());
    assert_eq!(table.encode(&decoded), "OptionC");
}

#[test]
fn unknown_text_is_absorbed_verbatim() {
    let table = sample_table();
    assert_eq!(
        table.decode("UnknownVariant".to_string()),
        Variant::CatchAll("UnknownVariant".to_string())
    );
    assert_eq!(
        table.decode("".to_string()),
        Variant::CatchAll("".to_string())
    );
}

#[test]
fn catch_all_encodes_its_held_text() {
    let table = sample_table();
    assert_eq!(table.encode(&Variant::CatchAll("custom".to_string())), "custom");
    assert_eq!(table.encode(&Variant::CatchAll("".to_string())), "");
}

#[test]
fn unknown_text_round_trips_exactly() {
    let table = sample_table();
    let decoded = table.decode("never declared".to_string());
    assert_eq!(table.encode(&decoded), "never declared");
}

#[test]
fn decode_is_idempotent_across_encode() {
    let table = sample_table();
    for input in ["OptionA", "b", "OptionB", "alt1", "alt2", "zzz", ""] {
        let once = table.decode(input.to_string());
        let again = table.decode(table.encode(&once));
        assert_eq!(once, again);
    }
}

#[test]
fn table_reports_its_contents() {
    let table = sample_table();
    assert_eq!(table.known_count(), 3);
    assert_eq!(table.wire_name_at(0), "OptionA");
    assert_eq!(table.wire_name_at(1), "b");
    assert_eq!(table.wire_name_at(2), "OptionC");
    assert_eq!(table.key_count(), 5);
    assert_eq!(table.key_at(0), &("OptionA".to_string(), 0));
    assert_eq!(table.key_at(1), &("b".to_string(), 1));
    assert_eq!(table.key_at(2), &("OptionC".to_string(), 2));
    assert_eq!(table.key_at(3), &("alt1".to_string(), 2));
    assert_eq!(table.key_at(4), &("alt2".to_string(), 2));
}

#[test]
fn variants_compare_by_identity_and_text() {
    assert_eq!(Variant::Known(1), Variant::Known(1));
    assert_ne!(Variant::Known(0), Variant::Known(1));
    assert_eq!(
        Variant::CatchAll("x".to_string()),
        Variant::CatchAll("x".to_string())
    );
    assert_ne!(
        Variant::CatchAll("x".to_string()),
        Variant::CatchAll("y".to_string())
    );
    assert_ne!(Variant::Known(0), Variant::CatchAll("Known".to_string()));
}
