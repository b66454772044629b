//! Resolved attributes: one `(layer name, value name)` pair per layer, in
//! layer declaration order.  Layer names that start with `_` are
//! meta-attributes: they take part in condition matching but are excluded
//! from emitted metadata and from compositing.

use vstd::prelude::*;

use crate::text::stem_of;
use crate::text::stylize_asset_name;

verus! {

/// One resolved pair as it appears in metadata: the layer (trait type) and
/// the value rolled for it.
pub struct Trait {
    pub trait_type: String,
    pub value: String,
}

impl View for Trait {
    type V = (Seq<char>, Seq<char>);

    open spec fn view(&self) -> (Seq<char>, Seq<char>) {
        (self.trait_type@, self.value@)
    }
}

/// The mathematical form of a resolved attribute set: the sequence of
/// `(layer name, value name)` pairs.
pub open spec fn trait_views(ts: Seq<Trait>) -> Seq<(Seq<char>, Seq<char>)> {
    ts.map_values(|t: Trait| t@)
}

/// A meta-attribute name: the reserved private prefix `_`.
pub open spec fn is_meta(name: Seq<char>) -> bool {
    name.len() > 0 && name[0] == '_'
}

/// The pairs of a resolved set that public output keeps: meta-attributes
/// removed.
pub open spec fn non_meta_views(ts: Seq<(Seq<char>, Seq<char>)>) -> Seq<(Seq<char>, Seq<char>)> {
    ts.filter(|t: (Seq<char>, Seq<char>)| !is_meta(t.0))
}

/// The display form of resolved pairs: each value name with its
/// file-extension suffix stripped.
pub open spec fn stylized_views(ts: Seq<(Seq<char>, Seq<char>)>) -> Seq<(Seq<char>, Seq<char>)> {
    ts.map_values(|t: (Seq<char>, Seq<char>)| (t.0, stem_of(t.1)))
}

impl Trait {
    /// Whether this pair belongs to a meta-attribute.
    pub fn is_meta_trait(&self) -> (r: bool)
        ensures
            r == is_meta(self.trait_type@),
    {
        let n = self.trait_type.as_str().unicode_len();
        n > 0 && self.trait_type.as_str().get_char(0) == '_'
    }

    /// An owned copy with the same pair.
    pub fn duplicate(&self) -> (t: Trait)
        ensures
            t@ == self@,
    {
        Trait { trait_type: self.trait_type.clone(), value: self.value.clone() }
    }

    /// The display form of this pair: the value's extension stripped.
    pub fn stylized(&self) -> (t: Trait)
        ensures
            t@ == (self.trait_type@, stem_of(self.value@)),
    {
        Trait { trait_type: self.trait_type.clone(), value: stylize_asset_name(self.value.as_str()) }
    }
}

/// The display form of a whole resolved set, each value's extension
/// stripped.
pub fn stylize_all(ts: &Vec<Trait>) -> (r: Vec<Trait>)
    ensures
        trait_views(r@) == stylized_views(trait_views(ts@)),
{
    let mut r: Vec<Trait> = Vec::new();
    let mut i: usize = 0;
    while i < ts.len()
        invariant
            i <= ts@.len(),
            r@.len() == i,
            forall|j: int| 0 <= j < i ==> trait_views(r@)[j] == stylized_views(trait_views(ts@))[j],
        decreases ts@.len() - i,
    {
        let t = ts[i].stylized();
        let ghost old_r = r@;
        r.push(t);
        proof {
            assert forall|j: int| 0 <= j <= i implies trait_views(r@)[j] == stylized_views(
                trait_views(ts@),
            )[j] by {
                if j < i {
                    assert(r@[j] == old_r[j]);
                    assert(trait_views(old_r)[j] == stylized_views(trait_views(ts@))[j]);
                } else {
                    assert(trait_views(r@)[j] == t@);
                    assert(trait_views(ts@)[j] == ts@[j]@);
                    assert(stylized_views(trait_views(ts@))[j] == (
                        ts@[j].trait_type@,
                        stem_of(ts@[j].value@),
                    ));
                }
            }
        }
        i = i + 1;
    }
    proof {
        assert(trait_views(r@) =~= stylized_views(trait_views(ts@)));
    }
    r
}

/// Whether two resolved sets are the same: equal pairs, pairwise, in order.
pub fn traits_equal(a: &Vec<Trait>, b: &Vec<Trait>) -> (r: bool)
    ensures
        r == (trait_views(a@) == trait_views(b@)),
{
    if a.len() != b.len() {
        proof {
            assert(trait_views(a@).len() != trait_views(b@).len());
        }
        return false;
    }
    let mut i: usize = 0;
    while i < a.len()
        invariant
            i <= a@.len(),
            a@.len() == b@.len(),
            forall|j: int| 0 <= j < i ==> trait_views(a@)[j] == trait_views(b@)[j],
        decreases a@.len() - i,
    {
        let ta = &a[i];
        let tb = &b[i];
        if !(ta.trait_type == tb.trait_type && ta.value == tb.value) {
            proof {
                assert(trait_views(a@)[i as int] != trait_views(b@)[i as int]);
            }
            return false;
        }
        i = i + 1;
    }
    proof {
        assert(trait_views(a@) =~= trait_views(b@));
    }
    true
}

/// Keeps the non-meta pairs of a resolved set, in order.
pub fn filter_non_meta(ts: &Vec<Trait>) -> (r: Vec<Trait>)
    ensures
        trait_views(r@) == non_meta_views(trait_views(ts@)),
{
    let mut r: Vec<Trait> = Vec::new();
    let mut i: usize = 0;
    proof {
        assert(trait_views(ts@.take(0)) =~= Seq::<(Seq<char>, Seq<char>)>::empty());
        assert(trait_views(r@) =~= non_meta_views(trait_views(ts@.take(0))));
    }
    while i < ts.len()
        invariant
            i <= ts@.len(),
            trait_views(r@) == non_meta_views(trait_views(ts@.take(i as int))),
        decreases ts@.len() - i,
    {
        let ghost prev = trait_views(ts@.take(i as int));
        let t = &ts[i];
        if !t.is_meta_trait() {
            let copy = t.duplicate();
            let ghost old_r = r@;
            r.push(copy);
            proof {
                assert(trait_views(r@) =~= trait_views(old_r).push(t@));
            }
        }
        proof {
            reveal(Seq::filter);
            let nextv = trait_views(ts@.take(i + 1));
            assert(nextv =~= prev.push(ts@[i as int]@));
            assert(nextv.drop_last() =~= prev);
            assert(nextv.last() == ts@[i as int]@);
        }
        i = i + 1;
    }
    proof {
        assert(ts@.take(ts@.len() as int) =~= ts@);
    }
    r
}

} // verus!
