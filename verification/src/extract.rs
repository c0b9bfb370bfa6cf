//! The metadata extractor: turns raw member descriptions into normalised
//! variant descriptors, in declaration order, with no semantic validation.

use vstd::prelude::*;

use crate::schema::{
    DescriptorView, MetaEntry, MetaEntryView, RawVariant, RawVariantView, Role, VariantDescriptor,
    descriptor_views, raw_views,
};

verus! {

/// Whether the metadata carries a catch-all marker.
pub open spec fn spec_has_marker(metadata: Seq<MetaEntryView>) -> bool {
    exists|i: int| 0 <= i < metadata.len() && metadata[i] is CatchAllMarker
}

/// The wire name the metadata yields: the text of the last rename entry, or
/// the identifier when no rename is declared.
pub open spec fn spec_wire_name(identifier: Seq<char>, metadata: Seq<MetaEntryView>) -> Seq<char>
    decreases metadata.len(),
{
    if metadata.len() == 0 {
        identifier
    } else if metadata.last() is Rename {
        metadata.last()->Rename_text
    } else {
        spec_wire_name(identifier, metadata.drop_last())
    }
}

/// The alias texts the metadata declares, in source order.
pub open spec fn spec_aliases(metadata: Seq<MetaEntryView>) -> Seq<Seq<char>>
    decreases metadata.len(),
{
    if metadata.len() == 0 {
        Seq::empty()
    } else {
        let rest = spec_aliases(metadata.drop_last());
        if metadata.last() is Alias {
            rest.push(metadata.last()->Alias_text)
        } else {
            rest
        }
    }
}

/// The descriptor one raw member normalises to.
pub open spec fn spec_extract_one(rv: RawVariantView) -> DescriptorView {
    DescriptorView {
        identifier: rv.identifier,
        role: if spec_has_marker(rv.metadata) {
            Role::CatchAll
        } else {
            Role::Known
        },
        shape: rv.shape,
        wire_name: spec_wire_name(rv.identifier, rv.metadata),
        aliases: spec_aliases(rv.metadata),
    }
}

/// The descriptors a raw member sequence normalises to, in order.
pub open spec fn spec_extract(raw: Seq<RawVariantView>) -> Seq<DescriptorView> {
    raw.map(|i: int, rv: RawVariantView| spec_extract_one(rv))
}

/// Normalises one raw member: scans its metadata once, letting the last
/// rename win, appending aliases in source order, and noting a catch-all
/// marker. Purely structural; no validation happens here.
pub fn extract_one(rv: &RawVariant) -> (d: VariantDescriptor)
    ensures
        d@ == spec_extract_one(rv@),
{
    let ghost meta = rv@.metadata;
    let mut rename: Option<String> = None;
    let mut aliases: Vec<String> = Vec::new();
    let mut marked = false;
    let n = rv.metadata.len();
    let mut j: usize = 0;
    while j < n
        invariant
            n == rv.metadata.len(),
            meta == rv@.metadata,
            j <= n,
            (match rename {
                Some(w) => spec_wire_name(rv@.identifier, meta.take(j as int)) == w@,
                None => spec_wire_name(rv@.identifier, meta.take(j as int)) == rv@.identifier,
            }),
            aliases@.map(|k: int, a: String| a@) == spec_aliases(meta.take(j as int)),
            marked == spec_has_marker(meta.take(j as int)),
        decreases n - j,
    {
        proof {
            assert(meta.take(j + 1).drop_last() =~= meta.take(j as int));
            assert(meta.take(j + 1).last() == meta[j as int]);
        }
        match &rv.metadata[j] {
            MetaEntry::Rename(s) => {
                rename = Some(s.clone());
            },
            MetaEntry::Alias(s) => {
                let ghost before = aliases@.map(|k: int, a: String| a@);
                aliases.push(s.clone());
                proof {
                    assert(aliases@.map(|k: int, a: String| a@) =~= before.push(s@));
                }
            },
            MetaEntry::CatchAllMarker => {
                marked = true;
            },
        }
        proof {
            if marked && !spec_has_marker(meta.take(j + 1)) {
                assert(!(meta.take(j + 1)[j as int] is CatchAllMarker));
            }
        }
        j += 1;
    }
    proof {
        assert(meta.take(n as int) =~= meta);
    }
    let wire_name = match rename {
        Some(w) => w,
        None => rv.identifier.clone(),
    };
    VariantDescriptor {
        identifier: rv.identifier.clone(),
        role: if marked {
            Role::CatchAll
        } else {
            Role::Known
        },
        shape: rv.shape,
        wire_name,
        aliases,
    }
}

/// Normalises every raw member, preserving declaration order.
pub fn extract(raw: &Vec<RawVariant>) -> (r: Vec<VariantDescriptor>)
    ensures
        descriptor_views(r@) == spec_extract(raw_views(raw@)),
{
    let ghost rvs = raw_views(raw@);
    let n = raw.len();
    let mut out: Vec<VariantDescriptor> = Vec::new();
    let mut i: usize = 0;
    while i < n
        invariant
            n == raw.len(),
            rvs == raw_views(raw@),
            i <= n,
            descriptor_views(out@) == spec_extract(rvs.take(i as int)),
        decreases n - i,
    {
        let ghost before = descriptor_views(out@);
        let d = extract_one(&raw[i]);
        out.push(d);
        proof {
            assert(descriptor_views(out@) =~= before.push(spec_extract_one(rvs[i as int])));
            assert(spec_extract(rvs.take(i + 1)) =~= spec_extract(rvs.take(i as int)).push(
                spec_extract_one(rvs[i as int]),
            ));
        }
        i += 1;
    }
    proof {
        assert(rvs.take(n as int) =~= rvs);
    }
    out
}

} // verus!
