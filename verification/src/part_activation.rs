//! Activation propagation: each tick, the reachable set of every power
//! source's carry chain is recomputed from scratch and every
//! activatable entity's flag is overwritten with its membership —
//! stale activation never persists.
//!
//! The traversal carries an explicit visited mask, so it terminates
//! even when the carry graph holds a cycle.

use vstd::prelude::*;
use crate::global_types::Activatable;
use crate::world::{EntityRec, World, carry_target_s};

verus! {

/// The next entity along the carry chain: defined only for a live
/// entity with the carrier role.
pub open spec fn walk_succ(w: World, x: int) -> Option<usize> {
    if w.valid(x) && w.rec(x).alive && w.rec(x).carrier is Some {
        carry_target_s(w.rec(x))
    } else {
        None
    }
}

/// `e` lies `k` steps along the carry chain from `x`.
pub open spec fn chain_reaches(w: World, x: int, e: int, k: nat) -> bool
    decreases k,
{
    if k == 0 {
        x == e
    } else {
        match walk_succ(w, x) {
            Some(nx) => chain_reaches(w, nx as int, e, (k - 1) as nat),
            None => false,
        }
    }
}

/// A live power source: always a root of propagation, whether or not
/// it carries anything.
pub open spec fn power_seed(w: World, ps: int) -> bool {
    &&& w.valid(ps)
    &&& w.rec(ps).alive
    &&& w.rec(ps).is_power_source
    &&& w.rec(ps).carrier is Some
}

/// `e` is reachable from some power source along the carry chain.
pub open spec fn reach(w: World, e: int) -> bool {
    exists|ps: int, k: nat| power_seed(w, ps) && #[trigger] chain_reaches(w, ps, e, k)
}

/// A marked set closed under the carry chain: following one step from
/// any marked entity stays inside the set.
pub open spec fn mask_closed(w: World, mask: Seq<bool>) -> bool {
    forall|x: int|
        0 <= x < mask.len() && mask[x] && #[trigger] walk_succ(w, x) is Some ==> {
            let nx = walk_succ(w, x)->0 as int;
            0 <= nx < mask.len() && mask[nx]
        }
}

/// How many entries of the mask are set.
pub open spec fn count_marked(s: Seq<bool>) -> nat
    decreases s.len(),
{
    if s.len() == 0 {
        0
    } else {
        count_marked(s.drop_last()) + if s.last() {
            1nat
        } else {
            0nat
        }
    }
}

/// No more entries can be set than there are.
pub proof fn lemma_count_marked_le(s: Seq<bool>)
    ensures
        count_marked(s) <= s.len(),
    decreases s.len(),
{
    if s.len() > 0 {
        lemma_count_marked_le(s.drop_last());
    }
}

/// Setting an unset entry sets exactly one more.
pub proof fn lemma_count_marked_update(s: Seq<bool>, i: int)
    requires
        0 <= i < s.len(),
        !s[i],
    ensures
        count_marked(s.update(i, true)) == count_marked(s) + 1,
    decreases s.len(),
{
    let t = s.update(i, true);
    if i == s.len() - 1 {
        assert(t.drop_last() == s.drop_last());
    } else {
        lemma_count_marked_update(s.drop_last(), i);
        assert(t.drop_last() == s.drop_last().update(i, true));
        assert(t.last() == s.last());
    }
}

/// One more chain step keeps reachability.
proof fn lemma_chain_extend(w: World, ps: int, x: int, k: nat)
    requires
        chain_reaches(w, ps, x, k),
        walk_succ(w, x) is Some,
    ensures
        chain_reaches(w, ps, walk_succ(w, x)->0 as int, (k + 1) as nat),
    decreases k,
{
    if k == 0 {
        assert(chain_reaches(w, walk_succ(w, x)->0 as int, walk_succ(w, x)->0 as int, 0));
    } else {
        lemma_chain_extend(w, walk_succ(w, ps)->0 as int, x, (k - 1) as nat);
    }
}

/// Everything a chain reaches from a marked root of a closed mask is
/// marked.
proof fn lemma_closed_chain(w: World, mask: Seq<bool>, ps: int, e: int, k: nat)
    requires
        mask_closed(w, mask),
        mask.len() == w.entities@.len(),
        0 <= ps < mask.len(),
        mask[ps],
        chain_reaches(w, ps, e, k),
    ensures
        0 <= e < mask.len() && mask[e],
    decreases k,
{
    if k > 0 {
        let nx = walk_succ(w, ps)->0 as int;
        assert(mask[nx]);
        lemma_closed_chain(w, mask, nx, e, (k - 1) as nat);
    }
}

/// Computes the set of entities a power source reaches along carry
/// chains: exactly the entities activation marks this tick.
pub fn compute_activation(w: &World) -> (mask: Vec<bool>)
    requires
        w.wf(),
    ensures
        mask@.len() == w.entities@.len(),
        forall|e: int| 0 <= e < mask@.len() ==> (mask@[e] <==> reach(*w, e)),
{
    let n = w.entities.len();
    let mut mask: Vec<bool> = vec![false; n];
    let mut ps: usize = 0;
    while ps < n
        invariant
            w.wf(),
            n == w.entities@.len(),
            mask@.len() == n,
            ps <= n,
            forall|e: int| 0 <= e < n && #[trigger] mask@[e] ==> reach(*w, e),
            mask_closed(*w, mask@),
            forall|q: int| 0 <= q < ps && power_seed(*w, q) ==> mask@[q],
        decreases n - ps,
    {
        let ghost mask_at_entry = mask@;
        let rec = &w.entities[ps];
        if rec.alive && rec.is_power_source && rec.carrier.is_some() {
            proof {
                assert(power_seed(*w, ps as int));
                assert(w.rec_ok(ps as int));
                assert(chain_reaches(*w, ps as int, ps as int, 0));
                assert(reach(*w, ps as int));
            }
            mask[ps] = true;
            let carried: Option<usize> = match &rec.carrier {
                Some(c) => c.carrying,
                None => None,
            };
            if let Some(e0) = carried {
                proof {
                    assert(walk_succ(*w, ps as int) == Some(e0));
                    lemma_chain_extend(*w, ps as int, ps as int, 0);
                    assert(reach(*w, e0 as int));
                }
                mask[e0] = true;
                let ghost mask_seeded = mask@;
                proof {
                    assert forall|q: int| 0 <= q < n && mask_at_entry[q]
                        implies mask_seeded[q] by {}
                }
                let mut entity = e0;
            loop
                invariant
                    w.wf(),
                    n == w.entities@.len(),
                    mask@.len() == n,
                    (entity as int) < n,
                    mask@[entity as int],
                    reach(*w, entity as int),
                    forall|e: int| 0 <= e < n && #[trigger] mask@[e] ==> reach(*w, e),
                    forall|x: int|
                        0 <= x < n && mask@[x] && x != entity && #[trigger] walk_succ(
                            *w,
                            x,
                        ) is Some ==> {
                            let nx = walk_succ(*w, x)->0 as int;
                            0 <= nx < n && mask@[nx]
                        },
                    forall|e: int| 0 <= e < n && #[trigger] mask_seeded[e] ==> mask@[e],
                ensures
                    mask@.len() == n,
                    forall|e: int| 0 <= e < n && #[trigger] mask@[e] ==> reach(*w, e),
                    mask_closed(*w, mask@),
                    forall|e: int| 0 <= e < n && #[trigger] mask_seeded[e] ==> mask@[e],
                decreases n - count_marked(mask@),
            {
                let erec = &w.entities[entity];
                if !(erec.alive && erec.carrier.is_some()) {
                    proof {
                        assert(walk_succ(*w, entity as int) is None);
                    }
                    break ;
                }
                let next = match erec.carrier.as_ref() {
                    Some(c) => c.carrying,
                    None => None,
                };
                match next {
                    None => {
                        proof {
                            assert(walk_succ(*w, entity as int) is None);
                        }
                        break ;
                    },
                    Some(nx) => {
                        proof {
                            assert(w.rec_ok(entity as int));
                            assert(walk_succ(*w, entity as int) == Some(nx));
                            lemma_chain_extend_reach(*w, entity as int, nx as int);
                        }
                        let was = mask[nx];
                        let ghost mask_before = mask@;
                        mask[nx] = true;
                        proof {
                            if !was {
                                lemma_count_marked_update(mask_before, nx as int);
                            }
                            lemma_count_marked_le(mask@);
                            lemma_count_marked_le(mask_before);
                        }
                        if was {
                            break ;
                        }
                        entity = nx;
                    },
                }
            }
                proof {
                    assert(mask_seeded[ps as int]);
                    assert(mask@[ps as int]);
                    assert forall|q: int| 0 <= q < n && mask_at_entry[q] implies mask@[q] by {
                        assert(mask_seeded[q]);
                    }
                }
            } else {
                proof {
                    assert(walk_succ(*w, ps as int) is None);
                    assert(mask@[ps as int]);
                }
            }
        } else {
            proof {
                assert(!power_seed(*w, ps as int));
            }
        }
        proof {
            assert forall|q: int|
                0 <= q < ps + 1 && power_seed(*w, q) implies mask@[q] by {
                if q < ps {
                    assert(mask_at_entry[q]);
                }
            }
        }
        ps = ps + 1;
    }
    proof {
        assert forall|e: int| 0 <= e < mask@.len() implies (mask@[e] <==> reach(*w, e)) by {
            if reach(*w, e) {
                let (q, k) = choose|q: int, k: nat|
                    power_seed(*w, q) && #[trigger] chain_reaches(*w, q, e, k);
                assert(mask@[q]);
                lemma_closed_chain(*w, mask@, q, e, k);
            }
        }
    }
    mask
}

/// A reachable entity's successor along the chain is reachable.
proof fn lemma_chain_extend_reach(w: World, x: int, nx: int)
    requires
        reach(w, x),
        walk_succ(w, x) is Some,
        walk_succ(w, x)->0 == nx,
    ensures
        reach(w, nx),
{
    let (q, k) = choose|q: int, k: nat| power_seed(w, q) && #[trigger] chain_reaches(w, q, x, k);
    lemma_chain_extend(w, q, x, k);
}

/// The record of an entity once activation has run: only the active
/// flag changes, set exactly to reachability from a power source.
pub open spec fn activation_rec_s(w0: World, e: int) -> EntityRec {
    let r = w0.rec(e);
    if r.activatable is Some {
        EntityRec { activatable: Some(Activatable { active: reach(w0, e) }), ..r }
    } else {
        r
    }
}

/// One activation tick has run: every activatable entity's flag equals
/// its reachability in the world before the tick, and nothing else
/// moved.
pub open spec fn activation_post(w0: World, w1: World) -> bool {
    &&& w1.entities@.len() == w0.entities@.len()
    &&& forall|e: int| w0.valid(e) ==> #[trigger] w1.rec(e) == activation_rec_s(w0, e)
}

/// Activation propagation: recomputes the reachable set of every power
/// source's carry chain and overwrites every activatable entity's flag
/// with its membership.
pub fn set_activation_state(w: &mut World)
    requires
        old(w).wf(),
    ensures
        final(w).wf(),
        activation_post(*old(w), *final(w)),
{
    let mask = compute_activation(w);
    let ghost w0 = *w;
    let n = w.entities.len();
    let mut e: usize = 0;
    while e < n
        invariant
            w0 == *old(w),
            w0.wf(),
            n == w0.entities@.len(),
            w.entities@.len() == n,
            mask@.len() == n,
            e <= n,
            forall|i: int| 0 <= i < mask@.len() ==> (mask@[i] <==> reach(w0, i)),
            forall|i: int| 0 <= i < e ==> #[trigger] w.rec(i) == activation_rec_s(w0, i),
            forall|i: int| e <= i < n ==> #[trigger] w.rec(i) == w0.rec(i),
        decreases n - e,
    {
        let ghost w_prev = *w;
        let rec = w.entities[e];
        proof {
            assert(w_prev.rec(e as int) == w0.rec(e as int));
            assert(rec == w0.rec(e as int));
            assert(mask@[e as int] <==> reach(w0, e as int));
        }
        if rec.activatable.is_some() {
            let mut r2 = rec;
            r2.activatable = Some(Activatable { active: mask[e] });
            w.entities[e] = r2;
            proof {
                assert(w.rec(e as int) == r2);
            }
        }
        proof {
            assert(w.rec(e as int) == activation_rec_s(w0, e as int));
            assert forall|i: int| 0 <= i < e + 1 implies #[trigger] w.rec(i)
                == activation_rec_s(w0, i) by {
                if i < e {
                    assert(w.rec(i) == w_prev.rec(i));
                    assert(w_prev.rec(i) == activation_rec_s(w0, i));
                }
            }
            assert forall|i: int| e + 1 <= i < n implies #[trigger] w.rec(i) == w0.rec(i) by {
                assert(w.rec(i) == w_prev.rec(i));
            }
        }
        e = e + 1;
    }
    proof {
        assert forall|i: int| w.valid(i) implies #[trigger] w.rec_ok(i) by {
            assert(old(w).rec_ok(i));
            assert(w.rec(i) == activation_rec_s(*old(w), i));
        }
    }
}

/// An entity marked active by activation propagation is reachable from
/// a power source along the carry chain: activation never invents
/// power.
pub proof fn lemma_activation_sound(w0: World, w1: World, e: int)
    requires
        activation_post(w0, w1),
        w0.valid(e),
        w1.rec(e).activatable matches Some(a) && a.active,
    ensures
        reach(w0, e),
{
    assert(w1.rec(e) == activation_rec_s(w0, e));
}

/// Reachability reads only the carry graph: worlds whose live flags,
/// power markers and carrier roles agree reach the same entities.
pub proof fn lemma_reach_depends_on_graph(w0: World, w1: World)
    requires
        w1.entities@.len() == w0.entities@.len(),
        forall|e: int|
            w0.valid(e) ==> {
                &&& (#[trigger] w1.rec(e)).alive == w0.rec(e).alive
                &&& w1.rec(e).is_power_source == w0.rec(e).is_power_source
                &&& w1.rec(e).carrier == w0.rec(e).carrier
            },
    ensures
        forall|e: int| reach(w1, e) == reach(w0, e),
{
    assert forall|x: int| #[trigger] walk_succ(w1, x) == walk_succ(w0, x) by {
        if w0.valid(x) {
            assert(w1.rec(x).alive == w0.rec(x).alive && w1.rec(x).carrier == w0.rec(x).carrier);
        }
    }
    assert forall|x: int, e: int, k: nat| true implies #[trigger] chain_reaches(w1, x, e, k)
        == chain_reaches(w0, x, e, k) by {
        lemma_chain_same_graph(w0, w1, x, e, k);
    }
    assert forall|e: int| reach(w1, e) == reach(w0, e) by {
        if reach(w0, e) {
            let (q, k) = choose|q: int, k: nat|
                power_seed(w0, q) && #[trigger] chain_reaches(w0, q, e, k);
            assert(power_seed(w1, q) && chain_reaches(w1, q, e, k));
        }
        if reach(w1, e) {
            let (q, k) = choose|q: int, k: nat|
                power_seed(w1, q) && #[trigger] chain_reaches(w1, q, e, k);
            assert(power_seed(w0, q) && chain_reaches(w0, q, e, k));
        }
    }
}

/// Chains agree between worlds whose carry steps agree.
proof fn lemma_chain_same_graph(w0: World, w1: World, x: int, e: int, k: nat)
    requires
        forall|y: int| #[trigger] walk_succ(w1, y) == walk_succ(w0, y),
    ensures
        chain_reaches(w1, x, e, k) == chain_reaches(w0, x, e, k),
    decreases k,
{
    if k > 0 {
        if walk_succ(w0, x) is Some {
            lemma_chain_same_graph(w0, w1, walk_succ(w0, x)->0 as int, e, (k - 1) as nat);
        }
    }
}

/// Running activation propagation twice in succession with no carry
/// change in between yields an identical active set: the second tick
/// reads the same graph, so it writes the same flags.
pub proof fn lemma_activation_idempotent(w0: World, w1: World, w2: World)
    requires
        activation_post(w0, w1),
        activation_post(w1, w2),
    ensures
        forall|e: int| w1.valid(e) ==> #[trigger] w2.rec(e) == w1.rec(e),
{
    lemma_reach_depends_on_graph(w0, w1);
    assert forall|e: int| w1.valid(e) implies #[trigger] w2.rec(e) == w1.rec(e) by {
        assert(w0.valid(e));
        assert(w1.rec(e) == activation_rec_s(w0, e));
        assert(w2.rec(e) == activation_rec_s(w1, e));
        assert(reach(w1, e) == reach(w0, e));
    }
}

} // verus!
