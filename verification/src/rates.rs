//! Rate tables: price tiers keyed by weight and volume breakpoints.

use vstd::prelude::*;
use crate::errors::Error;

verus! {

/// One row of a rate table: a parcel no heavier than `weight` and no larger
/// than `volume` can be carried for `price` (in minor units of the company
/// package's currency).
#[derive(Clone, Copy, Debug, PartialEq, Eq, Structural)]
pub struct Tier {
    pub weight: u32,
    pub volume: u32,
    pub price: u64,
}

/// A tier covers a parcel when both breakpoints meet or exceed the parcel.
pub open spec fn covers(tier: Tier, weight: u32, volume: u32) -> bool {
    tier.weight >= weight && tier.volume >= volume
}

/// Breakpoints never decrease along the table, in either dimension.
pub open spec fn tiers_ascending(tiers: Seq<Tier>) -> bool {
    forall|i: int, j: int|
        0 <= i <= j < tiers.len() ==> (#[trigger] tiers[i]).weight <= (#[trigger] tiers[j]).weight
            && tiers[i].volume <= tiers[j].volume
}

/// `i` is the position of the first tier that covers the parcel.
pub open spec fn is_first_covering(tiers: Seq<Tier>, weight: u32, volume: u32, i: int) -> bool {
    &&& 0 <= i < tiers.len()
    &&& covers(tiers[i], weight, volume)
    &&& forall|j: int| 0 <= j < i ==> !covers(#[trigger] tiers[j], weight, volume)
}

/// Some tier of the table covers the parcel.
pub open spec fn has_covering(tiers: Seq<Tier>, weight: u32, volume: u32) -> bool {
    exists|i: int| 0 <= i < tiers.len() && covers(#[trigger] tiers[i], weight, volume)
}

/// The applicable tier: the first one, in table order, that covers the parcel.
pub open spec fn applicable_tier(tiers: Seq<Tier>, weight: u32, volume: u32) -> Option<Tier>
    decreases tiers.len(),
{
    if tiers.len() == 0 {
        None
    } else if covers(tiers[0], weight, volume) {
        Some(tiers[0])
    } else {
        applicable_tier(tiers.subrange(1, tiers.len() as int), weight, volume)
    }
}

/// What `applicable_tier` means, without recursion: it is the tier at the
/// first covering position, and it is absent exactly when nothing covers.
pub proof fn lemma_applicable_tier(tiers: Seq<Tier>, weight: u32, volume: u32)
    ensures
        applicable_tier(tiers, weight, volume) is Some <==> has_covering(tiers, weight, volume),
        applicable_tier(tiers, weight, volume) matches Some(t) ==> exists|i: int|
            #[trigger] is_first_covering(tiers, weight, volume, i) && tiers[i] == t,
    decreases tiers.len(),
{
    if tiers.len() == 0 {
    } else if covers(tiers[0], weight, volume) {
        assert(is_first_covering(tiers, weight, volume, 0));
    } else {
        let rest = tiers.subrange(1, tiers.len() as int);
        lemma_applicable_tier(rest, weight, volume);
        if has_covering(tiers, weight, volume) {
            let i = choose|i: int| 0 <= i < tiers.len() && covers(#[trigger] tiers[i], weight, volume);
            assert(rest[i - 1] == tiers[i]);
            assert(has_covering(rest, weight, volume));
        }
        if has_covering(rest, weight, volume) {
            let i = choose|i: int| 0 <= i < rest.len() && covers(#[trigger] rest[i], weight, volume);
            assert(tiers[i + 1] == rest[i]);
        }
        if applicable_tier(tiers, weight, volume) is Some {
            let t = applicable_tier(tiers, weight, volume)->Some_0;
            let i = choose|i: int| #[trigger] is_first_covering(rest, weight, volume, i) && rest[i] == t;
            assert(tiers[i + 1] == rest[i]);
            assert forall|j: int| 0 <= j < i + 1 implies !covers(#[trigger] tiers[j], weight, volume) by {
                if j > 0 {
                    assert(rest[j - 1] == tiers[j]);
                }
            }
            assert(is_first_covering(tiers, weight, volume, i + 1));
        }
    }
}

/// In an ascending table the applicable tier is the least covering one: it
/// covers the parcel and no covering tier has a smaller breakpoint.
pub proof fn lemma_applicable_tier_minimal(tiers: Seq<Tier>, weight: u32, volume: u32, k: int)
    requires
        tiers_ascending(tiers),
        0 <= k < tiers.len(),
        covers(tiers[k], weight, volume),
    ensures
        applicable_tier(tiers, weight, volume) matches Some(t) && covers(t, weight, volume)
            && t.weight <= tiers[k].weight && t.volume <= tiers[k].volume,
{
    lemma_applicable_tier(tiers, weight, volume);
    assert(has_covering(tiers, weight, volume));
    let t = applicable_tier(tiers, weight, volume)->Some_0;
    let i = choose|i: int| #[trigger] is_first_covering(tiers, weight, volume, i) && tiers[i] == t;
    assert(i <= k);
}

/// A parcel that exceeds every tier has no applicable tier.
pub proof fn lemma_no_tier_when_exceeding_all(tiers: Seq<Tier>, weight: u32, volume: u32)
    requires
        forall|i: int| 0 <= i < tiers.len() ==> !covers(#[trigger] tiers[i], weight, volume),
    ensures
        applicable_tier(tiers, weight, volume) is None,
{
    lemma_applicable_tier(tiers, weight, volume);
}

/// Selects the tier for a parcel by scanning the table in order; the first
/// covering tier wins. Fails with `NoApplicableRate` when no tier covers it.
pub fn resolve_tier(tiers: &Vec<Tier>, weight: u32, volume: u32) -> (r: Result<Tier, Error>)
    ensures
        r == match applicable_tier(tiers@, weight, volume) {
            Some(t) => Ok::<Tier, Error>(t),
            None => Err::<Tier, Error>(Error::NoApplicableRate),
        },
{
    let mut i: usize = 0;
    assert(tiers@.subrange(0, tiers@.len() as int) =~= tiers@);
    while i < tiers.len()
        invariant
            0 <= i <= tiers.len(),
            applicable_tier(tiers@, weight, volume) == applicable_tier(
                tiers@.subrange(i as int, tiers@.len() as int),
                weight,
                volume,
            ),
        decreases tiers.len() - i,
    {
        let t = tiers[i];
        let ghost rest = tiers@.subrange(i as int, tiers@.len() as int);
        assert(rest[0] == tiers@[i as int]);
        if t.weight >= weight && t.volume >= volume {
            return Ok(t);
        }
        assert(rest.subrange(1, rest.len() as int) =~= tiers@.subrange(i + 1, tiers@.len() as int));
        i += 1;
    }
    assert(tiers@.subrange(i as int, tiers@.len() as int).len() == 0);
    Err(Error::NoApplicableRate)
}


/// The tier at `i` has breakpoints at least those of the tier before it.
pub open spec fn step_ascends(tiers: Seq<Tier>, i: int) -> bool {
    tiers[i - 1].weight <= tiers[i].weight && tiers[i - 1].volume <= tiers[i].volume
}

/// Every step of the table ascends.
pub open spec fn steps_ascending(tiers: Seq<Tier>) -> bool {
    forall|i: int| 0 < i < tiers.len() ==> #[trigger] step_ascends(tiers, i)
}

/// A table whose every step ascends is ascending as a whole.
pub proof fn lemma_steps_ascending(tiers: Seq<Tier>, i: int, j: int)
    requires
        steps_ascending(tiers),
        0 <= i <= j < tiers.len(),
    ensures
        tiers[i].weight <= tiers[j].weight,
        tiers[i].volume <= tiers[j].volume,
    decreases j - i,
{
    if i < j {
        lemma_steps_ascending(tiers, i, j - 1);
        assert(step_ascends(tiers, j));
    }
}

/// Whether a table can be loaded as it stands: its breakpoints never
/// decrease, in either dimension.
pub fn is_ascending(tiers: &Vec<Tier>) -> (ok: bool)
    ensures
        ok == tiers_ascending(tiers@),
{
    let mut i: usize = 1;
    while i < tiers.len()
        invariant
            1 <= i,
            forall|k: int| 0 < k < i && k < tiers.len() ==> #[trigger] step_ascends(tiers@, k),
        decreases tiers.len() - i,
    {
        if tiers[i - 1].weight > tiers[i].weight || tiers[i - 1].volume > tiers[i].volume {
            assert(!step_ascends(tiers@, i as int));
            return false;
        }
        assert(step_ascends(tiers@, i as int));
        i += 1;
    }
    proof {
        assert(steps_ascending(tiers@));
        assert forall|a: int, b: int| 0 <= a <= b < tiers@.len() implies (#[trigger] tiers@[a]).weight
            <= (#[trigger] tiers@[b]).weight && tiers@[a].volume <= tiers@[b].volume by {
            lemma_steps_ascending(tiers@, a, b);
        }
    }
    true
}

} // verus!
