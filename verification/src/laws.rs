//! The guarantees of a compiled codec, stated and proved once and for all:
//! the asymmetric round-trip behaviour of `decode` and `encode`, and the
//! validation failures a malformed schema is owed.

use vstd::prelude::*;

use crate::codec::{
    CodecTableView, VariantView, lemma_lookup_absent, lemma_lookup_entry, lemma_lookup_present,
    spec_decode, spec_encode, spec_is_key, spec_lookup,
};
use crate::compile::{
    SchemaErrorView, lemma_key_table_facts, lemma_table_wf, spec_compiled_from,
    spec_descriptor_errors, spec_errors, spec_has_catch_all, spec_key_errors, spec_key_table,
    spec_knowns, spec_variant_errors,
};
use crate::schema::DescriptorView;

verus! {

/// In a compiled table, the collision violations of the key table are absent.
proof fn lemma_compiled_no_collisions(t: CodecTableView, ds: Seq<DescriptorView>)
    requires
        spec_compiled_from(t, ds),
    ensures
        spec_key_errors(spec_key_table(spec_knowns(ds))).len() == 0,
        t.wf(),
{
    lemma_table_wf(t, spec_knowns(ds));
}

/// Every known variant decodes from its canonical wire name, and encodes to
/// that name: the exact round-trip on canonical names.
pub proof fn lemma_canonical_round_trip(ds: Seq<DescriptorView>, t: CodecTableView, i: int)
    requires
        spec_compiled_from(t, ds),
        0 <= i < spec_knowns(ds).len(),
    ensures
        spec_decode(t, spec_knowns(ds)[i].wire_name) == (VariantView::Known { index: i }),
        spec_encode(t, VariantView::Known { index: i }) == spec_knowns(ds)[i].wire_name,
{
    lemma_compiled_no_collisions(t, ds);
    lemma_key_table_facts(spec_knowns(ds));
    assert(t.keys.contains((spec_knowns(ds)[i].wire_name, i)));
    lemma_lookup_present(t.keys, spec_knowns(ds)[i].wire_name, i);
    assert(t.names[i] == spec_knowns(ds)[i].wire_name);
}

/// Every registered alias decodes to its known variant, and re-encoding what
/// it decoded to yields the canonical wire name, not the alias: the
/// asymmetric round-trip.
pub proof fn lemma_alias_round_trip(
    ds: Seq<DescriptorView>,
    t: CodecTableView,
    i: int,
    j: int,
)
    requires
        spec_compiled_from(t, ds),
        0 <= i < spec_knowns(ds).len(),
        0 <= j < spec_knowns(ds)[i].aliases.len(),
    ensures
        spec_decode(t, spec_knowns(ds)[i].aliases[j]) == (VariantView::Known { index: i }),
        spec_encode(t, spec_decode(t, spec_knowns(ds)[i].aliases[j])) == spec_knowns(
            ds,
        )[i].wire_name,
{
    lemma_compiled_no_collisions(t, ds);
    lemma_key_table_facts(spec_knowns(ds));
    assert(t.keys.contains((spec_knowns(ds)[i].aliases[j], i)));
    lemma_lookup_present(t.keys, spec_knowns(ds)[i].aliases[j], i);
    assert(t.names[i] == spec_knowns(ds)[i].wire_name);
}

/// Text that is no wire name and no alias decodes to the catch-all holding
/// it verbatim, and that catch-all encodes back to the same text: the exact
/// round-trip on unknown values.
pub proof fn lemma_unknown_round_trip(t: CodecTableView, s: Seq<char>)
    requires
        t.wf(),
        !spec_is_key(t.keys, s),
    ensures
        spec_decode(t, s) == (VariantView::CatchAll { text: s }),
        spec_encode(t, spec_decode(t, s)) == s,
{
    lemma_lookup_absent(t.keys, s);
}

/// Decoding is idempotent across one encode: for any input text, decoding
/// what its decoded variant encodes to gives that same variant back.
pub proof fn lemma_decode_idempotent(t: CodecTableView, s: Seq<char>)
    requires
        t.wf(),
    ensures
        spec_decode(t, spec_encode(t, spec_decode(t, s))) == spec_decode(t, s),
{
    let looked = spec_lookup(t.keys, s);
    if looked is Some {
        let i = looked->0;
        lemma_lookup_entry(t.keys, s, i);
        let p = choose|p: int| 0 <= p < t.keys.len() && t.keys[p] == (s, i);
        assert(0 <= t.keys[p].1 < t.names.len());
        assert(t.keys.contains((t.names[i], i)));
        lemma_lookup_present(t.keys, t.names[i], i);
    }
}

/// A schema with no catch-all descriptor is owed the missing-catch-all
/// violation; compilation of it fails.
pub proof fn lemma_missing_catch_all(ds: Seq<DescriptorView>)
    requires
        forall|i: int| 0 <= i < ds.len() ==> !((#[trigger] ds[i]).role is CatchAll),
    ensures
        spec_errors(ds).contains(SchemaErrorView::MissingCatchAll),
        spec_errors(ds).len() > 0,
{
    assert(!spec_has_catch_all(ds));
    let ve = spec_variant_errors(ds);
    let missing = seq![SchemaErrorView::MissingCatchAll];
    let ke = spec_key_errors(spec_key_table(spec_knowns(ds)));
    assert(spec_errors(ds) == ve + missing + ke);
    assert(spec_errors(ds)[ve.len() as int] == SchemaErrorView::MissingCatchAll);
}

/// The violations one descriptor contributes all appear among the schema's
/// per-descriptor violations.
proof fn lemma_variant_errors_contain(ds: Seq<DescriptorView>, i: int, k: int)
    requires
        0 <= i < ds.len(),
        0 <= k < spec_descriptor_errors(ds[i], spec_has_catch_all(ds.take(i))).len(),
    ensures
        spec_variant_errors(ds).contains(
            spec_descriptor_errors(ds[i], spec_has_catch_all(ds.take(i)))[k],
        ),
    decreases ds.len(),
{
    let prev = ds.drop_last();
    if i == ds.len() - 1 {
        assert(ds.take(i) =~= prev);
        assert(spec_variant_errors(ds)[spec_variant_errors(prev).len() + k]
            == spec_descriptor_errors(ds[i], spec_has_catch_all(ds.take(i)))[k]);
    } else {
        assert(prev[i] == ds[i]);
        assert(prev.take(i) =~= ds.take(i));
        lemma_variant_errors_contain(prev, i, k);
        let e = spec_descriptor_errors(ds[i], spec_has_catch_all(ds.take(i)))[k];
        let r = choose|r: int|
            0 <= r < spec_variant_errors(prev).len() && spec_variant_errors(prev)[r] == e;
        assert(spec_variant_errors(ds)[r] == e);
    }
}

/// Per-descriptor violations all appear among the schema's violations.
proof fn lemma_errors_contain_variant_error(ds: Seq<DescriptorView>, e: SchemaErrorView)
    requires
        spec_variant_errors(ds).contains(e),
    ensures
        spec_errors(ds).contains(e),
        spec_errors(ds).len() > 0,
{
    let r = choose|r: int|
        0 <= r < spec_variant_errors(ds).len() && spec_variant_errors(ds)[r] == e;
    assert(spec_errors(ds)[r] == e);
}

/// A schema with a second catch-all descriptor is owed the duplicate
/// catch-all violation, named after the later descriptor; compilation fails.
pub proof fn lemma_duplicate_catch_all(ds: Seq<DescriptorView>, i: int, j: int)
    requires
        0 <= i < j < ds.len(),
        ds[i].role is CatchAll,
        ds[j].role is CatchAll,
    ensures
        spec_errors(ds).contains(
            SchemaErrorView::DuplicateCatchAll { identifier: ds[j].identifier },
        ),
        spec_errors(ds).len() > 0,
{
    assert(ds.take(j)[i] == ds[i]);
    assert(spec_has_catch_all(ds.take(j)));
    let owed = spec_descriptor_errors(ds[j], spec_has_catch_all(ds.take(j)));
    assert(owed[0] == (SchemaErrorView::DuplicateCatchAll { identifier: ds[j].identifier }));
    lemma_variant_errors_contain(ds, j, 0);
    lemma_errors_contain_variant_error(
        ds,
        SchemaErrorView::DuplicateCatchAll { identifier: ds[j].identifier },
    );
}

/// A schema whose catch-all descriptor does not carry exactly one string
/// field is owed the shape violation; compilation fails.
pub proof fn lemma_catch_all_shape(ds: Seq<DescriptorView>, i: int)
    requires
        0 <= i < ds.len(),
        ds[i].role is CatchAll,
        !(ds[i].shape is SingleStringField),
    ensures
        spec_errors(ds).contains(
            SchemaErrorView::CatchAllNotSingleString { identifier: ds[i].identifier },
        ),
        spec_errors(ds).len() > 0,
{
    let seen = spec_has_catch_all(ds.take(i));
    let owed = spec_descriptor_errors(ds[i], seen);
    let k: int = if seen {
        1
    } else {
        0
    };
    assert(owed[k] == (SchemaErrorView::CatchAllNotSingleString {
        identifier: ds[i].identifier,
    }));
    lemma_variant_errors_contain(ds, i, k);
    lemma_errors_contain_variant_error(
        ds,
        SchemaErrorView::CatchAllNotSingleString { identifier: ds[i].identifier },
    );
}

/// A schema with a known descriptor that is not a unit variant is owed the
/// shape violation; compilation fails.
pub proof fn lemma_known_shape(ds: Seq<DescriptorView>, i: int)
    requires
        0 <= i < ds.len(),
        ds[i].role is Known,
        !(ds[i].shape is Unit),
    ensures
        spec_errors(ds).contains(SchemaErrorView::KnownNotUnit { identifier: ds[i].identifier }),
        spec_errors(ds).len() > 0,
{
    let owed = spec_descriptor_errors(ds[i], spec_has_catch_all(ds.take(i)));
    assert(owed[0] == (SchemaErrorView::KnownNotUnit { identifier: ds[i].identifier }));
    lemma_variant_errors_contain(ds, i, 0);
    lemma_errors_contain_variant_error(
        ds,
        SchemaErrorView::KnownNotUnit { identifier: ds[i].identifier },
    );
}

} // verus!
