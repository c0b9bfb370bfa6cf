//! The built codec: an immutable table of decode keys and canonical wire
//! names, a runtime [`Variant`] value, and the total `decode` / `encode`
//! functions.

use vstd::prelude::*;

verus! {

/// A decoded value. A known variant is identified by its position among the
/// schema's known descriptors, in declaration order; the catch-all variant
/// carries the absorbed text verbatim.
#[derive(Clone, Debug)]
pub enum Variant {
    Known(usize),
    CatchAll(String),
}

/// Mathematical model of a [`Variant`].
pub ghost enum VariantView {
    Known { index: int },
    CatchAll { text: Seq<char> },
}

impl View for Variant {
    type V = VariantView;

    open spec fn view(&self) -> VariantView {
        match self {
            Variant::Known(i) => VariantView::Known { index: *i as int },
            Variant::CatchAll(s) => VariantView::CatchAll { text: s@ },
        }
    }
}

impl PartialEq for Variant {
    fn eq(&self, other: &Variant) -> bool {
        match (self, other) {
            (Variant::Known(a), Variant::Known(b)) => *a == *b,
            (Variant::CatchAll(a), Variant::CatchAll(b)) => a.eq(b),
            _ => false,
        }
    }
}

impl vstd::std_specs::cmp::PartialEqSpecImpl for Variant {
    open spec fn obeys_eq_spec() -> bool {
        true
    }

    open spec fn eq_spec(&self, other: &Variant) -> bool {
        self@ == other@
    }
}

impl Eq for Variant {
}

/// Mathematical model of a [`CodecTable`]: every accepted decode key paired
/// with the index of the known variant it selects, and the canonical wire
/// name of each known variant.
pub ghost struct CodecTableView {
    pub keys: Seq<(Seq<char>, int)>,
    pub names: Seq<Seq<char>>,
}

/// Whether no two decode keys share the same text.
pub open spec fn spec_distinct_keys(keys: Seq<(Seq<char>, int)>) -> bool {
    forall|p: int, q: int|
        0 <= p < q < keys.len() ==> (#[trigger] keys[p]).0 != (#[trigger] keys[q]).0
}

impl CodecTableView {
    /// Well-formedness of a built table: every key targets a known variant,
    /// every canonical name is itself a key for its own variant, and no two
    /// keys share the same text.
    pub open spec fn wf(self) -> bool {
        &&& forall|p: int|
            0 <= p < self.keys.len() ==> 0 <= #[trigger] self.keys[p].1 < self.names.len()
        &&& forall|i: int|
            0 <= i < self.names.len() ==> self.keys.contains((#[trigger] self.names[i], i))
        &&& spec_distinct_keys(self.keys)
    }
}

/// Whether `text` is one of the table's decode keys.
pub open spec fn spec_is_key(keys: Seq<(Seq<char>, int)>, text: Seq<char>) -> bool {
    exists|p: int| 0 <= p < keys.len() && (#[trigger] keys[p]).0 == text
}

/// First-match lookup of `text` among the decode keys.
pub open spec fn spec_lookup(keys: Seq<(Seq<char>, int)>, text: Seq<char>) -> Option<int>
    decreases keys.len(),
{
    if keys.len() == 0 {
        None
    } else if keys[0].0 == text {
        Some(keys[0].1)
    } else {
        spec_lookup(keys.drop_first(), text)
    }
}

/// What decoding returns: the known variant whose key matches `text`, or the
/// catch-all carrying `text` verbatim.
pub open spec fn spec_decode(t: CodecTableView, text: Seq<char>) -> VariantView {
    match spec_lookup(t.keys, text) {
        Some(i) => VariantView::Known { index: i },
        None => VariantView::CatchAll { text },
    }
}

/// What encoding returns: a known variant's canonical wire name, or the
/// catch-all's held text verbatim.
pub open spec fn spec_encode(t: CodecTableView, v: VariantView) -> Seq<char>
    recommends
        v matches VariantView::Known { index } ==> 0 <= index < t.names.len(),
{
    match v {
        VariantView::Known { index } => t.names[index],
        VariantView::CatchAll { text } => text,
    }
}

/// The models of a vector of decode-key entries, in order.
pub open spec fn key_views(keys: Seq<(String, usize)>) -> Seq<(Seq<char>, int)> {
    keys.map(|p: int, k: (String, usize)| (k.0@, k.1 as int))
}

/// The models of a vector of wire names, in order.
pub open spec fn name_views(names: Seq<String>) -> Seq<Seq<char>> {
    names.map(|i: int, n: String| n@)
}

/// The immutable artifact of compilation. Built once from a validated
/// schema; `decode` and `encode` are pure and share no mutable state.
pub struct CodecTable {
    keys: Vec<(String, usize)>,
    names: Vec<String>,
}

impl View for CodecTable {
    type V = CodecTableView;

    closed spec fn view(&self) -> CodecTableView {
        CodecTableView { keys: key_views(self.keys@), names: name_views(self.names@) }
    }
}

impl CodecTable {
    #[verifier::type_invariant]
    spec fn inv(self) -> bool {
        self@.wf()
    }

    /// Builds a table from its parts. Kept within the crate: only compilation
    /// of a validated schema may construct a table.
    pub(crate) fn new(keys: Vec<(String, usize)>, names: Vec<String>) -> (r: CodecTable)
        requires
            (CodecTableView { keys: key_views(keys@), names: name_views(names@) }).wf(),
        ensures
            r@.keys == key_views(keys@),
            r@.names == name_views(names@),
    {
        CodecTable { keys, names }
    }

    /// How many known variants the table serves.
    pub fn known_count(&self) -> (r: usize)
        ensures
            r == self@.names.len(),
    {
        self.names.len()
    }

    /// The canonical wire name of the known variant at `index`.
    pub fn wire_name_at(&self, index: usize) -> (r: &String)
        requires
            index < self@.names.len(),
        ensures
            r@ == self@.names[index as int],
    {
        &self.names[index]
    }

    /// How many decode keys the table holds.
    pub fn key_count(&self) -> (r: usize)
        ensures
            r == self@.keys.len(),
    {
        self.keys.len()
    }

    /// The decode key at position `p`: an accepted text and the index of the
    /// known variant it selects.
    pub fn key_at(&self, p: usize) -> (r: &(String, usize))
        requires
            p < self@.keys.len(),
        ensures
            (r.0@, r.1 as int) == self@.keys[p as int],
    {
        &self.keys[p]
    }

    /// Decodes `text`: the known variant registered for it, or the catch-all
    /// holding `text` verbatim. Total: every string decodes to some variant.
    pub fn decode(&self, text: String) -> (r: Variant)
        ensures
            r@ == spec_decode(self@, text@),
    {
        proof {
            use_type_invariant(self);
        }
        let ghost keys = self@.keys;
        let n = self.keys.len();
        let mut p: usize = 0;
        while p < n
            invariant
                n == keys.len(),
                keys == self@.keys,
                p <= n,
                forall|q: int| 0 <= q < p ==> (#[trigger] keys[q]).0 != text@,
            decreases n - p,
        {
            if self.keys[p].0 == text {
                proof {
                    lemma_lookup_prefix_miss(keys, text@, p as int);
                    assert(keys.skip(p as int)[0] == keys[p as int]);
                }
                return Variant::Known(self.keys[p].1);
            }
            p += 1;
        }
        proof {
            lemma_lookup_prefix_miss(keys, text@, n as int);
            assert(keys.skip(n as int).len() == 0);
        }
        Variant::CatchAll(text)
    }

    /// Encodes a variant: a known variant's canonical wire name, the
    /// catch-all's held text. Total on every variant the table can produce.
    pub fn encode(&self, variant: &Variant) -> (r: String)
        requires
            variant@ matches VariantView::Known { index } ==> index < self@.names.len(),
        ensures
            r@ == spec_encode(self@, variant@),
    {
        match variant {
            Variant::Known(i) => self.names[*i].clone(),
            Variant::CatchAll(s) => s.clone(),
        }
    }
}

/// If no key before position `p` matches `text`, lookup over the whole key
/// sequence agrees with lookup over the keys from `p` on.
pub proof fn lemma_lookup_prefix_miss(keys: Seq<(Seq<char>, int)>, text: Seq<char>, p: int)
    requires
        0 <= p <= keys.len(),
        forall|q: int| 0 <= q < p ==> (#[trigger] keys[q]).0 != text,
    ensures
        spec_lookup(keys, text) == spec_lookup(keys.skip(p), text),
    decreases p,
{
    if p > 0 {
        let rest = keys.drop_first();
        assert(keys[0].0 != text);
        assert(rest =~= keys.skip(1));
        assert(forall|q: int| 0 <= q < p - 1 ==> (#[trigger] rest[q]).0 == keys[q + 1].0);
        lemma_lookup_prefix_miss(rest, text, p - 1);
        assert(rest.skip(p - 1) =~= keys.skip(p));
    } else {
        assert(keys.skip(0) =~= keys);
    }
}

/// In a table with pairwise distinct key texts, lookup of a registered key
/// returns the index registered with it.
pub proof fn lemma_lookup_present(keys: Seq<(Seq<char>, int)>, text: Seq<char>, v: int)
    requires
        spec_distinct_keys(keys),
        keys.contains((text, v)),
    ensures
        spec_lookup(keys, text) == Some(v),
    decreases keys.len(),
{
    let r = choose|r: int| 0 <= r < keys.len() && keys[r] == (text, v);
    assert(keys[r].0 == text);
    if keys[0].0 == text {
        if r != 0 {
            assert(keys[0].0 != keys[r].0);
        }
        assert(keys[0].1 == v);
    } else {
        let rest = keys.drop_first();
        assert(rest[r - 1] == (text, v));
        assert(rest.contains((text, v)));
        assert forall|p: int, q: int| 0 <= p < q < rest.len() implies (#[trigger] rest[p]).0 != (
        #[trigger] rest[q]).0 by {
            assert(rest[p] == keys[p + 1]);
            assert(rest[q] == keys[q + 1]);
        }
        lemma_lookup_present(rest, text, v);
    }
}

/// Lookup of a text that matches no key returns nothing.
pub proof fn lemma_lookup_absent(keys: Seq<(Seq<char>, int)>, text: Seq<char>)
    requires
        !spec_is_key(keys, text),
    ensures
        spec_lookup(keys, text) is None,
{
    assert forall|q: int| 0 <= q < keys.len() implies (#[trigger] keys[q]).0 != text by {
        if keys[q].0 == text {
            assert(spec_is_key(keys, text));
        }
    }
    lemma_lookup_prefix_miss(keys, text, keys.len() as int);
    assert(keys.skip(keys.len() as int).len() == 0);
}

/// A successful lookup names the index of an entry registered for the text.
pub proof fn lemma_lookup_entry(keys: Seq<(Seq<char>, int)>, text: Seq<char>, v: int)
    requires
        spec_lookup(keys, text) == Some(v),
    ensures
        keys.contains((text, v)),
    decreases keys.len(),
{
    if keys.len() > 0 {
        if keys[0].0 == text {
            assert(keys[0] == (text, v));
        } else {
            let rest = keys.drop_first();
            lemma_lookup_entry(rest, text, v);
            let r = choose|r: int| 0 <= r < rest.len() && rest[r] == (text, v);
            assert(keys[r + 1] == (text, v));
        }
    }
}

} // verus!
