//! The validator and table builder: checks the structural invariants of a
//! schema, reporting every violation at once, and compiles a valid schema
//! into the immutable [`CodecTable`].

use vstd::prelude::*;

use crate::codec::{CodecTable, CodecTableView, key_views, name_views, spec_is_key};
use crate::schema::{DescriptorView, PayloadShape, Role, VariantDescriptor, descriptor_views};

verus! {

/// One structural violation found while validating a schema.
#[derive(Clone, Debug)]
pub enum SchemaError {
    /// No descriptor has the catch-all role.
    MissingCatchAll,
    /// A second descriptor (named by its identifier) has the catch-all role.
    DuplicateCatchAll { identifier: String },
    /// The catch-all descriptor does not carry exactly one string field.
    CatchAllNotSingleString { identifier: String },
    /// A known descriptor is not a unit variant.
    KnownNotUnit { identifier: String },
    /// Two decode keys (wire names or aliases) share the same text.
    DuplicateDecodeKey { key: String },
}

/// Mathematical model of a [`SchemaError`].
pub ghost enum SchemaErrorView {
    MissingCatchAll,
    DuplicateCatchAll { identifier: Seq<char> },
    CatchAllNotSingleString { identifier: Seq<char> },
    KnownNotUnit { identifier: Seq<char> },
    DuplicateDecodeKey { key: Seq<char> },
}

impl View for SchemaError {
    type V = SchemaErrorView;

    open spec fn view(&self) -> SchemaErrorView {
        match self {
            SchemaError::MissingCatchAll => SchemaErrorView::MissingCatchAll,
            SchemaError::DuplicateCatchAll { identifier } => SchemaErrorView::DuplicateCatchAll {
                identifier: identifier@,
            },
            SchemaError::CatchAllNotSingleString { identifier } => (
            SchemaErrorView::CatchAllNotSingleString { identifier: identifier@ }),
            SchemaError::KnownNotUnit { identifier } => SchemaErrorView::KnownNotUnit {
                identifier: identifier@,
            },
            SchemaError::DuplicateDecodeKey { key } => SchemaErrorView::DuplicateDecodeKey {
                key: key@,
            },
        }
    }
}

/// The models of a sequence of schema errors, in order.
pub open spec fn error_views(errors: Seq<SchemaError>) -> Seq<SchemaErrorView> {
    errors.map(|i: int, e: SchemaError| e@)
}

/// Every violation a schema holds, in reporting order. Compilation fails
/// exactly when this list is non-empty.
#[derive(Clone, Debug)]
pub struct ValidationError {
    pub errors: Vec<SchemaError>,
}

impl View for ValidationError {
    type V = Seq<SchemaErrorView>;

    open spec fn view(&self) -> Seq<SchemaErrorView> {
        error_views(self.errors@)
    }
}

/// Whether some descriptor has the catch-all role.
pub open spec fn spec_has_catch_all(ds: Seq<DescriptorView>) -> bool {
    exists|i: int| 0 <= i < ds.len() && (#[trigger] ds[i]).role is CatchAll
}

/// The violations one descriptor contributes, given whether a catch-all
/// appeared among the descriptors before it.
pub open spec fn spec_descriptor_errors(d: DescriptorView, seen_catch_all: bool) -> Seq<
    SchemaErrorView,
> {
    if d.role is CatchAll {
        let dup: Seq<SchemaErrorView> = if seen_catch_all {
            seq![SchemaErrorView::DuplicateCatchAll { identifier: d.identifier }]
        } else {
            Seq::empty()
        };
        let shape: Seq<SchemaErrorView> = if !(d.shape is SingleStringField) {
            seq![SchemaErrorView::CatchAllNotSingleString { identifier: d.identifier }]
        } else {
            Seq::empty()
        };
        dup + shape
    } else {
        if !(d.shape is Unit) {
            seq![SchemaErrorView::KnownNotUnit { identifier: d.identifier }]
        } else {
            Seq::empty()
        }
    }
}

/// The per-descriptor violations of a schema, in declaration order.
pub open spec fn spec_variant_errors(ds: Seq<DescriptorView>) -> Seq<SchemaErrorView>
    decreases ds.len(),
{
    if ds.len() == 0 {
        Seq::empty()
    } else {
        spec_variant_errors(ds.drop_last()) + spec_descriptor_errors(
            ds.last(),
            spec_has_catch_all(ds.drop_last()),
        )
    }
}

/// The known descriptors of a schema, in declaration order.
pub open spec fn spec_knowns(ds: Seq<DescriptorView>) -> Seq<DescriptorView>
    decreases ds.len(),
{
    if ds.len() == 0 {
        Seq::empty()
    } else if ds.last().role is Known {
        spec_knowns(ds.drop_last()).push(ds.last())
    } else {
        spec_knowns(ds.drop_last())
    }
}

/// The decode keys one known descriptor registers: its wire name, then its
/// aliases in order, each paired with the descriptor's known index.
pub open spec fn spec_variant_keys(d: DescriptorView, index: int) -> Seq<(Seq<char>, int)> {
    seq![(d.wire_name, index)] + d.aliases.map(|j: int, a: Seq<char>| (a, index))
}

/// The full decode-key table of the known descriptors, in registration
/// order: each descriptor's wire name, then its aliases.
pub open spec fn spec_key_table(knowns: Seq<DescriptorView>) -> Seq<(Seq<char>, int)>
    decreases knowns.len(),
{
    if knowns.len() == 0 {
        Seq::empty()
    } else {
        spec_key_table(knowns.drop_last()) + spec_variant_keys(
            knowns.last(),
            knowns.len() - 1,
        )
    }
}

/// The canonical wire names of the known descriptors, by known index.
pub open spec fn spec_wire_names(knowns: Seq<DescriptorView>) -> Seq<Seq<char>> {
    knowns.map(|i: int, d: DescriptorView| d.wire_name)
}

/// The key-collision violations of a key table: one per key whose text
/// already appears earlier in the table.
pub open spec fn spec_key_errors(keys: Seq<(Seq<char>, int)>) -> Seq<SchemaErrorView>
    decreases keys.len(),
{
    if keys.len() == 0 {
        Seq::empty()
    } else {
        let rest = spec_key_errors(keys.drop_last());
        if spec_is_key(keys.drop_last(), keys.last().0) {
            rest.push(SchemaErrorView::DuplicateDecodeKey { key: keys.last().0 })
        } else {
            rest
        }
    }
}

/// Every violation of a schema, in reporting order: per-descriptor errors in
/// declaration order, then a missing catch-all, then key collisions in
/// registration order.
pub open spec fn spec_errors(ds: Seq<DescriptorView>) -> Seq<SchemaErrorView> {
    spec_variant_errors(ds) + (if spec_has_catch_all(ds) {
        Seq::<SchemaErrorView>::empty()
    } else {
        seq![SchemaErrorView::MissingCatchAll]
    }) + spec_key_errors(spec_key_table(spec_knowns(ds)))
}

/// Every entry of a key table targets a known descriptor, and every known
/// descriptor's wire name and aliases appear in it, paired with its index.
pub proof fn lemma_key_table_facts(knowns: Seq<DescriptorView>)
    ensures
        forall|p: int|
            0 <= p < spec_key_table(knowns).len() ==> 0 <= (#[trigger] spec_key_table(
                knowns,
            )[p]).1 < knowns.len(),
        forall|i: int|
            0 <= i < knowns.len() ==> spec_key_table(knowns).contains(
                ((#[trigger] knowns[i]).wire_name, i),
            ),
        forall|i: int, j: int|
            0 <= i < knowns.len() && 0 <= j < knowns[i].aliases.len() ==> spec_key_table(
                knowns,
            ).contains(((#[trigger] knowns[i].aliases[j]), i)),
    decreases knowns.len(),
{
    if knowns.len() > 0 {
        let prev = knowns.drop_last();
        let t = spec_key_table(knowns);
        let tp = spec_key_table(prev);
        let last = knowns.last();
        let vk = spec_variant_keys(last, knowns.len() - 1);
        lemma_key_table_facts(prev);
        assert(t == tp + vk);
        assert forall|p: int| 0 <= p < t.len() implies 0 <= (#[trigger] t[p]).1 < knowns.len() by {
            if p < tp.len() {
                assert(t[p] == tp[p]);
            } else {
                assert(t[p] == vk[p - tp.len()]);
                if p - tp.len() > 0 {
                    assert(vk[p - tp.len()] == last.aliases.map(
                        |j: int, a: Seq<char>| (a, knowns.len() - 1),
                    )[p - tp.len() - 1]);
                }
            }
        }
        assert forall|i: int| 0 <= i < knowns.len() implies t.contains(
            ((#[trigger] knowns[i]).wire_name, i),
        ) by {
            if i < knowns.len() - 1 {
                assert(prev[i] == knowns[i]);
                let p = choose|p: int|
                    0 <= p < tp.len() && tp[p] == (knowns[i].wire_name, i);
                assert(t[p] == (knowns[i].wire_name, i));
            } else {
                assert(t[tp.len() as int] == vk[0]);
                assert(vk[0] == (last.wire_name, i));
            }
        }
        assert forall|i: int, j: int|
            0 <= i < knowns.len() && 0 <= j < knowns[i].aliases.len() implies t.contains(
            ((#[trigger] knowns[i].aliases[j]), i),
        ) by {
            if i < knowns.len() - 1 {
                assert(prev[i] == knowns[i]);
                let p = choose|p: int|
                    0 <= p < tp.len() && tp[p] == (knowns[i].aliases[j], i);
                assert(t[p] == (knowns[i].aliases[j], i));
            } else {
                assert(t[tp.len() + 1 + j] == vk[1 + j]);
                assert(vk[1 + j] == last.aliases.map(
                    |k: int, a: Seq<char>| (a, knowns.len() - 1),
                )[j]);
            }
        }
    }
}

/// A key table with no collision violations has pairwise distinct key texts.
pub proof fn lemma_no_collisions_distinct(keys: Seq<(Seq<char>, int)>)
    requires
        spec_key_errors(keys).len() == 0,
    ensures
        forall|p: int, q: int|
            0 <= p < q < keys.len() ==> (#[trigger] keys[p]).0 != (#[trigger] keys[q]).0,
    decreases keys.len(),
{
    if keys.len() > 0 {
        let prev = keys.drop_last();
        assert(!spec_is_key(prev, keys.last().0));
        lemma_no_collisions_distinct(prev);
        assert forall|p: int, q: int|
            0 <= p < q < keys.len() implies (#[trigger] keys[p]).0 != (#[trigger] keys[q]).0 by {
            if q < keys.len() - 1 {
                assert(prev[p] == keys[p] && prev[q] == keys[q]);
            } else {
                assert(prev[p] == keys[p]);
                assert(!(exists|r: int| 0 <= r < prev.len() && (#[trigger] prev[r]).0 == keys.last().0));
            }
        }
    }
}

/// Whether a table view is the one that compiling a schema without
/// violations yields: the key table and wire names of its known descriptors.
pub open spec fn spec_compiled_from(t: CodecTableView, ds: Seq<DescriptorView>) -> bool {
    &&& spec_errors(ds).len() == 0
    &&& t.keys == spec_key_table(spec_knowns(ds))
    &&& t.names == spec_wire_names(spec_knowns(ds))
}

/// A table built from known descriptors whose key table has no collisions is
/// well-formed.
pub proof fn lemma_table_wf(t: CodecTableView, knowns: Seq<DescriptorView>)
    requires
        t.keys == spec_key_table(knowns),
        t.names == spec_wire_names(knowns),
        spec_key_errors(spec_key_table(knowns)).len() == 0,
    ensures
        t.wf(),
{
    lemma_key_table_facts(knowns);
    lemma_no_collisions_distinct(spec_key_table(knowns));
    assert forall|i: int| 0 <= i < t.names.len() implies t.keys.contains(
        (#[trigger] t.names[i], i),
    ) by {
        assert(t.names[i] == knowns[i].wire_name);
    }
}

/// Validates the descriptors and builds the codec table. Returns the table
/// exactly when the schema holds every structural invariant; otherwise
/// returns every violation found, in reporting order.
pub fn compile(descriptors: &Vec<VariantDescriptor>) -> (r: Result<CodecTable, ValidationError>)
    ensures
        ({
            let ds = descriptor_views(descriptors@);
            match r {
                Ok(table) => {
                    &&& spec_compiled_from(table@, ds)
                    &&& table@.wf()
                },
                Err(e) => {
                    &&& spec_errors(ds).len() > 0
                    &&& e@ == spec_errors(ds)
                },
            }
        }),
{
    let ghost ds = descriptor_views(descriptors@);
    let n = descriptors.len();
    let mut errors: Vec<SchemaError> = Vec::new();
    let mut keys: Vec<(String, usize)> = Vec::new();
    let mut names: Vec<String> = Vec::new();
    let mut seen_catch_all = false;
    let mut i: usize = 0;
    while i < n
        invariant
            n == descriptors.len(),
            ds == descriptor_views(descriptors@),
            i <= n,
            seen_catch_all == spec_has_catch_all(ds.take(i as int)),
            error_views(errors@) == spec_variant_errors(ds.take(i as int)),
            name_views(names@) == spec_wire_names(spec_knowns(ds.take(i as int))),
            key_views(keys@) == spec_key_table(spec_knowns(ds.take(i as int))),
        decreases n - i,
    {
        let ghost prefix = ds.take(i as int);
        let ghost dv = ds[i as int];
        proof {
            assert(ds.take(i + 1).drop_last() =~= prefix);
            assert(ds.take(i + 1).last() == dv);
            assert(dv == descriptors@[i as int]@);
        }
        let d = &descriptors[i];
        let ghost errs0 = error_views(errors@);
        match d.role {
            Role::CatchAll => {
                if seen_catch_all {
                    let ghost before = error_views(errors@);
                    errors.push(
                        SchemaError::DuplicateCatchAll { identifier: d.identifier.clone() },
                    );
                    proof {
                        assert(error_views(errors@) =~= before.push(
                            SchemaErrorView::DuplicateCatchAll { identifier: dv.identifier },
                        ));
                    }
                }
                if d.shape != PayloadShape::SingleStringField {
                    let ghost before = error_views(errors@);
                    errors.push(
                        SchemaError::CatchAllNotSingleString { identifier: d.identifier.clone() },
                    );
                    proof {
                        assert(error_views(errors@) =~= before.push(
                            SchemaErrorView::CatchAllNotSingleString { identifier: dv.identifier },
                        ));
                    }
                }
                seen_catch_all = true;
                proof {
                    assert(error_views(errors@) =~= errs0 + spec_descriptor_errors(
                        dv,
                        spec_has_catch_all(prefix),
                    ));
                    assert(spec_knowns(ds.take(i + 1)) == spec_knowns(prefix));
                }
            },
            Role::Known => {
                if d.shape != PayloadShape::Unit {
                    let ghost before = error_views(errors@);
                    errors.push(SchemaError::KnownNotUnit { identifier: d.identifier.clone() });
                    proof {
                        assert(error_views(errors@) =~= before.push(
                            SchemaErrorView::KnownNotUnit { identifier: dv.identifier },
                        ));
                    }
                }
                proof {
                    assert(error_views(errors@) =~= errs0 + spec_descriptor_errors(
                        dv,
                        spec_has_catch_all(prefix),
                    ));
                }
                let index = names.len();
                proof {
                    assert(name_views(names@).len() == names@.len());
                    assert(spec_wire_names(spec_knowns(prefix)).len() == spec_knowns(
                        prefix,
                    ).len());
                }
                let ghost names0 = name_views(names@);
                names.push(d.wire_name.clone());
                let ghost keys0 = key_views(keys@);
                keys.push((d.wire_name.clone(), index));
                let ghost keys1 = key_views(keys@);
                proof {
                    assert(name_views(names@) =~= names0.push(dv.wire_name));
                    assert(keys1 =~= keys0.push((dv.wire_name, index as int)));
                }
                let m = d.aliases.len();
                let mut j: usize = 0;
                while j < m
                    invariant
                        m == d.aliases.len(),
                        j <= m,
                        dv == descriptors@[i as int]@,
                        d == &descriptors@[i as int],
                        keys1 == keys0.push((dv.wire_name, index as int)),
                        key_views(keys@) == keys1 + dv.aliases.take(j as int).map(
                            |k: int, a: Seq<char>| (a, index as int),
                        ),
                    decreases m - j,
                {
                    let ghost before = key_views(keys@);
                    keys.push((d.aliases[j].clone(), index));
                    proof {
                        assert(dv.aliases[j as int] == descriptors@[i as int].aliases@[j as int]@);
                        assert(key_views(keys@) =~= before.push(
                            (dv.aliases[j as int], index as int),
                        ));
                        assert(dv.aliases.take(j + 1).map(
                            |k: int, a: Seq<char>| (a, index as int),
                        ) =~= dv.aliases.take(j as int).map(
                            |k: int, a: Seq<char>| (a, index as int),
                        ).push((dv.aliases[j as int], index as int)));
                    }
                    j += 1;
                }
                proof {
                    let knowns_next = spec_knowns(ds.take(i + 1));
                    let knowns_prev = spec_knowns(prefix);
                    assert(knowns_next == knowns_prev.push(dv));
                    assert(knowns_next.drop_last() =~= knowns_prev);
                    assert(dv.aliases.take(m as int) =~= dv.aliases);
                    assert(key_views(keys@) =~= spec_key_table(knowns_prev)
                        + spec_variant_keys(dv, index as int));
                    assert(spec_key_table(knowns_next) == spec_key_table(
                        knowns_next.drop_last(),
                    ) + spec_variant_keys(knowns_next.last(), knowns_next.len() - 1));
                    assert(index as int == knowns_next.len() - 1);
                    assert(name_views(names@) =~= spec_wire_names(knowns_next));
                }
            },
        }
        proof {
            let dsn = ds.take(i + 1);
            assert(error_views(errors@) == spec_variant_errors(dsn));
            if dv.role is CatchAll {
                assert(dsn[i as int].role is CatchAll);
                assert(spec_has_catch_all(dsn));
            } else {
                if spec_has_catch_all(dsn) && !spec_has_catch_all(prefix) {
                    let p = choose|p: int|
                        0 <= p < dsn.len() && (#[trigger] dsn[p]).role is CatchAll;
                    assert(prefix[p] == dsn[p]);
                }
                if spec_has_catch_all(prefix) {
                    let p = choose|p: int|
                        0 <= p < prefix.len() && (#[trigger] prefix[p]).role is CatchAll;
                    assert(dsn[p].role is CatchAll);
                }
            }
        }
        i += 1;
    }
    proof {
        assert(ds.take(n as int) =~= ds);
    }
    if !seen_catch_all {
        let ghost before = error_views(errors@);
        errors.push(SchemaError::MissingCatchAll);
        proof {
            assert(error_views(errors@) =~= before.push(SchemaErrorView::MissingCatchAll));
        }
    }
    let ghost base = error_views(errors@);
    proof {
        assert(base =~= spec_variant_errors(ds) + (if spec_has_catch_all(ds) {
            Seq::<SchemaErrorView>::empty()
        } else {
            seq![SchemaErrorView::MissingCatchAll]
        }));
    }
    let ghost kv = key_views(keys@);
    let kn = keys.len();
    let mut p: usize = 0;
    while p < kn
        invariant
            kn == keys.len(),
            kv == key_views(keys@),
            p <= kn,
            error_views(errors@) == base + spec_key_errors(kv.take(p as int)),
        decreases kn - p,
    {
        let ghost x = kv[p as int].0;
        proof {
            assert(x == keys@[p as int].0@);
        }
        let mut dup = false;
        let mut q: usize = 0;
        while q < p
            invariant
                kn == keys.len(),
                kv == key_views(keys@),
                q <= p < kn,
                x == kv[p as int].0,
                x == keys@[p as int].0@,
                dup == (exists|r: int| 0 <= r < q && (#[trigger] kv[r]).0 == x),
            decreases p - q,
        {
            let same = keys[q].0.eq(&keys[p].0);
            proof {
                assert(kv[q as int].0 == keys@[q as int].0@);
                if same {
                    assert(kv[q as int].0 == x);
                } else {
                    if exists|r: int| 0 <= r < q + 1 && (#[trigger] kv[r]).0 == x {
                        let r = choose|r: int| 0 <= r < q + 1 && (#[trigger] kv[r]).0 == x;
                        assert(0 <= r < q || r == q);
                    }
                }
            }
            if same {
                dup = true;
            }
            q += 1;
        }
        proof {
            let taken = kv.take(p as int);
            if dup {
                let r = choose|r: int| 0 <= r < p && (#[trigger] kv[r]).0 == x;
                assert(taken[r].0 == x);
                assert(spec_is_key(taken, x));
            }
            if spec_is_key(taken, x) {
                let r = choose|r: int| 0 <= r < taken.len() && (#[trigger] taken[r]).0 == x;
                assert(kv[r].0 == x);
            }
            assert(dup == spec_is_key(taken, x));
            assert(kv.take(p + 1).drop_last() =~= taken);
            assert(kv.take(p + 1).last() == kv[p as int]);
        }
        let ghost before = error_views(errors@);
        if dup {
            errors.push(SchemaError::DuplicateDecodeKey { key: keys[p].0.clone() });
            proof {
                assert(error_views(errors@) =~= before.push(
                    SchemaErrorView::DuplicateDecodeKey { key: x },
                ));
            }
        }
        proof {
            assert(error_views(errors@) =~= base + spec_key_errors(kv.take(p + 1)));
        }
        p += 1;
    }
    proof {
        assert(kv.take(kn as int) =~= kv);
        assert(error_views(errors@) == spec_errors(ds));
        assert(error_views(errors@).len() == errors@.len());
    }
    if errors.len() == 0 {
        proof {
            assert(spec_key_errors(spec_key_table(spec_knowns(ds))).len() == 0);
            lemma_table_wf(
                CodecTableView { keys: key_views(keys@), names: name_views(names@) },
                spec_knowns(ds),
            );
        }
        Ok(CodecTable::new(keys, names))
    } else {
        Err(ValidationError { errors })
    }
}

} // verus!
