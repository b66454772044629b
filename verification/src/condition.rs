//! Condition keys of a conditional rarity table, parsed once into a small
//! expression type and evaluated against the attributes already resolved
//! for the current item.
//!
//! A key is the fallback marker `_`, a single `trait:value` pair, a
//! conjunction of pairs joined by `&`, or a disjunction joined by `|`.  A
//! pair without a `:` names the value of the reserved `_key` layer.  Pair
//! values are compared against the resolved value's display form, with the
//! file-extension suffix stripped.

use vstd::prelude::*;

use crate::attributes::Trait;
use crate::attributes::trait_views;
use crate::text::find_char;
use crate::text::split_on;
use crate::text::split_once_at;
use crate::text::split_once_spec;
use crate::text::split_spec;
use crate::text::stem_of;
use crate::text::stylize_asset_name;
use crate::text::trim;
use crate::text::trim_of;

verus! {

/// One requirement on an already-resolved attribute: the layer
/// `trait_name` resolved to a value whose display form is `value`.
pub struct Predicate {
    pub trait_name: String,
    pub value: String,
}

impl View for Predicate {
    type V = (Seq<char>, Seq<char>);

    open spec fn view(&self) -> (Seq<char>, Seq<char>) {
        (self.trait_name@, self.value@)
    }
}

/// A parsed condition key.
pub enum Condition {
    /// The fallback marker: matches nothing, applies when no other key of
    /// its table matched.
    Fallback,
    Single(Predicate),
    All(Vec<Predicate>),
    Any(Vec<Predicate>),
}

impl Condition {
    /// Whether this key is the fallback marker.
    pub fn is_fallback(&self) -> (r: bool)
        ensures
            r == (self is Fallback),
    {
        match self {
            Condition::Fallback => true,
            _ => false,
        }
    }
}

/// The layer name a pair without `:` refers to.
pub open spec fn default_trait_key() -> Seq<char> {
    seq!['_', 'k', 'e', 'y']
}

/// What parsing one `&`- or `|`-joined part yields: the part is trimmed,
/// then split at its first `:`; without a `:` the whole trimmed part is a
/// value of the reserved `_key` layer.
pub open spec fn parse_pred_spec(part: Seq<char>) -> (Seq<char>, Seq<char>) {
    let t = trim_of(part);
    match split_once_spec(t, ':') {
        Some(p) => p,
        None => (default_trait_key(), t),
    }
}

/// The spec form of a predicate list.
pub open spec fn pred_views(ps: Seq<Predicate>) -> Seq<(Seq<char>, Seq<char>)> {
    ps.map_values(|p: Predicate| p@)
}

/// The predicates a joined key parses into.
pub open spec fn parse_list_spec(key: Seq<char>, sep: char) -> Seq<(Seq<char>, Seq<char>)> {
    split_spec(key, sep).map_values(|q: Seq<char>| parse_pred_spec(q))
}

fn parse_pred(part: &str) -> (p: Predicate)
    ensures
        p@ == parse_pred_spec(part@),
{
    let t = trim(part);
    match split_once_at(t.as_str(), ':') {
        Some((k, v)) => Predicate { trait_name: k, value: v },
        None => {
            proof {
                reveal_strlit("_key");
                assert("_key"@ =~= default_trait_key());
            }
            Predicate { trait_name: "_key".to_owned(), value: t }
        }
    }
}

fn parse_pred_list(key: &str, sep: char) -> (ps: Vec<Predicate>)
    ensures
        pred_views(ps@) == parse_list_spec(key@, sep),
{
    let parts = split_on(key, sep);
    let mut ps: Vec<Predicate> = Vec::new();
    let mut i: usize = 0;
    while i < parts.len()
        invariant
            i <= parts@.len(),
            parts@.map_values(|p: String| p@) == split_spec(key@, sep),
            ps@.len() == i,
            forall|j: int| 0 <= j < i ==> pred_views(ps@)[j] == parse_list_spec(key@, sep)[j],
        decreases parts@.len() - i,
    {
        let p = parse_pred(parts[i].as_str());
        let ghost old_ps = ps@;
        ps.push(p);
        proof {
            assert(ps@ == old_ps.push(p));
            assert(split_spec(key@, sep)[i as int] == parts@[i as int]@);
            assert(parse_list_spec(key@, sep)[i as int] == parse_pred_spec(parts@[i as int]@));
            assert forall|j: int| 0 <= j <= i implies pred_views(ps@)[j] == parse_list_spec(
                key@,
                sep,
            )[j] by {
                if j < i {
                    assert(ps@[j] == old_ps[j]);
                    assert(pred_views(old_ps)[j] == parse_list_spec(key@, sep)[j]);
                } else {
                    assert(ps@[j] == p);
                }
            }
        }
        i = i + 1;
    }
    proof {
        assert(pred_views(ps@) =~= parse_list_spec(key@, sep));
    }
    ps
}

/// Parses a raw condition key.  The key `_` alone is the fallback; a key
/// holding `&` is a conjunction of its `&`-separated parts; otherwise a
/// key holding `|` is a disjunction; any other key is a single pair.
pub fn parse_condition(key: &str) -> (c: Condition)
    ensures
        key@ == seq!['_'] ==> c is Fallback,
        key@ != seq!['_'] ==> !(c is Fallback),
        key@ != seq!['_'] && find_char(key@, '&') >= 0 ==> (c matches Condition::All(ps)
            && pred_views(ps@) == parse_list_spec(key@, '&')),
        key@ != seq!['_'] && find_char(key@, '&') < 0 && find_char(key@, '|') >= 0 ==> (
        c matches Condition::Any(ps) && pred_views(ps@) == parse_list_spec(key@, '|')),
        key@ != seq!['_'] && find_char(key@, '&') < 0 && find_char(key@, '|') < 0 ==> (
        c matches Condition::Single(p) && p@ == parse_pred_spec(key@)),
{
    let n = s_len(key);
    if n == 1 && key.get_char(0) == '_' {
        proof {
            assert(key@ =~= seq!['_']);
        }
        Condition::Fallback
    } else {
        proof {
            if key@ == seq!['_'] {
                assert(key@.len() == 1 && key@[0] == '_');
            }
        }
        if crate::text::contains_char(key, '&') {
            Condition::All(parse_pred_list(key, '&'))
        } else if crate::text::contains_char(key, '|') {
            Condition::Any(parse_pred_list(key, '|'))
        } else {
            Condition::Single(parse_pred(key))
        }
    }
}

fn s_len(s: &str) -> (n: usize)
    ensures
        n == s@.len(),
{
    s.unicode_len()
}

/// Whether one predicate holds of the resolved pairs: some pair has the
/// predicate's layer name and a value whose display form is the
/// predicate's value.
pub open spec fn pred_holds(p: (Seq<char>, Seq<char>), resolved: Seq<(Seq<char>, Seq<char>)>) -> bool {
    exists|i: int|
        0 <= i < resolved.len() && resolved[i].0 == p.0 && stem_of(resolved[i].1) == p.1
}

/// Whether every predicate of a conjunction holds.
pub open spec fn all_preds_hold(
    ps: Seq<Predicate>,
    resolved: Seq<(Seq<char>, Seq<char>)>,
) -> bool {
    forall|i: int| 0 <= i < ps.len() ==> #[trigger] pred_holds(ps[i]@, resolved)
}

/// Whether some predicate of a disjunction holds.
pub open spec fn any_pred_holds(
    ps: Seq<Predicate>,
    resolved: Seq<(Seq<char>, Seq<char>)>,
) -> bool {
    exists|i: int| 0 <= i < ps.len() && #[trigger] pred_holds(ps[i]@, resolved)
}

/// Whether a condition matches the resolved pairs.  The fallback marker
/// never matches: it is chosen only when nothing else did.
pub open spec fn cond_holds(c: Condition, resolved: Seq<(Seq<char>, Seq<char>)>) -> bool {
    match c {
        Condition::Fallback => false,
        Condition::Single(p) => pred_holds(p@, resolved),
        Condition::All(ps) => all_preds_hold(ps@, resolved),
        Condition::Any(ps) => any_pred_holds(ps@, resolved),
    }
}

fn pred_matches(p: &Predicate, resolved: &Vec<Trait>) -> (r: bool)
    ensures
        r == pred_holds(p@, trait_views(resolved@)),
{
    let mut i: usize = 0;
    while i < resolved.len()
        invariant
            i <= resolved@.len(),
            forall|j: int| 0 <= j < i ==> !(trait_views(resolved@)[j].0 == p.trait_name@
                && stem_of(trait_views(resolved@)[j].1) == p.value@),
        decreases resolved@.len() - i,
    {
        let t = &resolved[i];
        if t.trait_type == p.trait_name {
            let display = stylize_asset_name(t.value.as_str());
            if display == p.value {
                proof {
                    assert(trait_views(resolved@)[i as int].0 == p.trait_name@);
                    assert(stem_of(trait_views(resolved@)[i as int].1) == p.value@);
                }
                return true;
            }
        }
        i = i + 1;
    }
    false
}

/// Evaluates a parsed condition against the attributes resolved so far,
/// as [`cond_holds`] describes.
pub fn eval_condition(c: &Condition, resolved: &Vec<Trait>) -> (r: bool)
    ensures
        r == cond_holds(*c, trait_views(resolved@)),
{
    match c {
        Condition::Fallback => false,
        Condition::Single(p) => pred_matches(p, resolved),
        Condition::All(ps) => {
            let mut i: usize = 0;
            while i < ps.len()
                invariant
                    i <= ps@.len(),
                    *c == Condition::All(*ps),
                    forall|j: int| 0 <= j < i ==> #[trigger] pred_holds(
                        ps@[j]@,
                        trait_views(resolved@),
                    ),
                decreases ps@.len() - i,
            {
                if !pred_matches(&ps[i], resolved) {
                    proof {
                        let tv = trait_views(resolved@);
                        let w = i as int;
                        assert(0 <= w < ps@.len() && !pred_holds(ps@[w]@, tv));
                        assert(!all_preds_hold(ps@, tv));
                    }
                    return false;
                }
                i = i + 1;
            }
            proof {
                assert(all_preds_hold(ps@, trait_views(resolved@)));
            }
            true
        }
        Condition::Any(ps) => {
            let mut i: usize = 0;
            while i < ps.len()
                invariant
                    i <= ps@.len(),
                    *c == Condition::Any(*ps),
                    forall|j: int| 0 <= j < i ==> !#[trigger] pred_holds(
                        ps@[j]@,
                        trait_views(resolved@),
                    ),
                decreases ps@.len() - i,
            {
                if pred_matches(&ps[i], resolved) {
                    proof {
                        let tv = trait_views(resolved@);
                        let w = i as int;
                        assert(0 <= w < ps@.len() && pred_holds(ps@[w]@, tv));
                        assert(any_pred_holds(ps@, tv));
                    }
                    return true;
                }
                i = i + 1;
            }
            proof {
                assert(!any_pred_holds(ps@, trait_views(resolved@)));
            }
            false
        }
    }
}

} // verus!
