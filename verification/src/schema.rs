//! The data model of a schema: raw member descriptions as the declaration
//! mechanism hands them over, and the normalised variant descriptors that the
//! validator and table builder consume.

use vstd::prelude::*;

verus! {

/// The shape of a variant's payload. Known variants must be unit; the
/// catch-all variant must carry exactly one string field, which holds the
/// absorbed text.
#[derive(Clone, Copy, Debug, PartialEq, Eq, Structural)]
pub enum PayloadShape {
    Unit,
    SingleStringField,
}

/// The role a descriptor plays in the schema: an ordinary member with a fixed
/// set of accepted wire names, or the single designated fallback member.
#[derive(Clone, Copy, Debug, PartialEq, Eq, Structural)]
pub enum Role {
    Known,
    CatchAll,
}

/// One metadata declaration attached to an enum member.
#[derive(Clone, Debug)]
pub enum MetaEntry {
    /// Overrides the member's wire name.
    Rename(String),
    /// Adds one more accepted input string (decode only).
    Alias(String),
    /// Marks the member as the schema's catch-all.
    CatchAllMarker,
}

/// Mathematical model of a [`MetaEntry`].
pub ghost enum MetaEntryView {
    Rename { text: Seq<char> },
    Alias { text: Seq<char> },
    CatchAllMarker,
}

impl View for MetaEntry {
    type V = MetaEntryView;

    open spec fn view(&self) -> MetaEntryView {
        match self {
            MetaEntry::Rename(s) => MetaEntryView::Rename { text: s@ },
            MetaEntry::Alias(s) => MetaEntryView::Alias { text: s@ },
            MetaEntry::CatchAllMarker => MetaEntryView::CatchAllMarker,
        }
    }
}

/// One enum member as declared: its identifier, its payload shape, and its
/// metadata entries in source order. This is the input of extraction.
#[derive(Clone, Debug)]
pub struct RawVariant {
    pub identifier: String,
    pub shape: PayloadShape,
    pub metadata: Vec<MetaEntry>,
}

/// Mathematical model of a [`RawVariant`].
pub ghost struct RawVariantView {
    pub identifier: Seq<char>,
    pub shape: PayloadShape,
    pub metadata: Seq<MetaEntryView>,
}

impl View for RawVariant {
    type V = RawVariantView;

    open spec fn view(&self) -> RawVariantView {
        RawVariantView {
            identifier: self.identifier@,
            shape: self.shape,
            metadata: self.metadata@.map(|i: int, m: MetaEntry| m@),
        }
    }
}

/// A normalised enum member: the output of extraction and the input of
/// validation and table building.
#[derive(Clone, Debug)]
pub struct VariantDescriptor {
    /// The member's declared name; the default wire name.
    pub identifier: String,
    /// Known member or the designated catch-all.
    pub role: Role,
    /// The member's payload shape as declared.
    pub shape: PayloadShape,
    /// The one text this member encodes to: the last declared rename if any,
    /// otherwise the identifier.
    pub wire_name: String,
    /// Additional accepted input strings, in declaration order; never used
    /// for encoding.
    pub aliases: Vec<String>,
}

/// Mathematical model of a [`VariantDescriptor`].
pub ghost struct DescriptorView {
    pub identifier: Seq<char>,
    pub role: Role,
    pub shape: PayloadShape,
    pub wire_name: Seq<char>,
    pub aliases: Seq<Seq<char>>,
}

impl View for VariantDescriptor {
    type V = DescriptorView;

    open spec fn view(&self) -> DescriptorView {
        DescriptorView {
            identifier: self.identifier@,
            role: self.role,
            shape: self.shape,
            wire_name: self.wire_name@,
            aliases: self.aliases@.map(|i: int, a: String| a@),
        }
    }
}

/// The models of a sequence of raw members, in order.
pub open spec fn raw_views(v: Seq<RawVariant>) -> Seq<RawVariantView> {
    v.map(|i: int, rv: RawVariant| rv@)
}

/// The models of a sequence of descriptors, in order.
pub open spec fn descriptor_views(v: Seq<VariantDescriptor>) -> Seq<DescriptorView> {
    v.map(|i: int, d: VariantDescriptor| d@)
}

} // verus!
