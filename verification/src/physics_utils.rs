//! The contact oracle: turns the physics collaborator's raw contact
//! set into a directionally ranked "what am I standing on" answer.
//!
//! A contact couples two colliders and holds one or more manifolds,
//! each with a world-space normal (oriented from the first collider
//! toward the second) and its contact points.  The oracle re-orients
//! every normal to point outward from the queried entity, and selects
//! the manifold whose normal points most upward — first within each
//! contact, then across contacts, keeping the later candidate on ties.

use vstd::prelude::*;
use crate::fixed::{FX_ONE, Vec2Fx, v2_bounded};

verus! {

/// One manifold contact point, in each collider's local frame.
#[derive(Clone, Copy, PartialEq, Eq, Structural, Debug)]
pub struct ManifoldPoint {
    pub local_p1: Vec2Fx,
    pub local_p2: Vec2Fx,
}

/// One contact manifold: a shared normal and its contact points.
#[derive(Clone, PartialEq, Eq, Debug)]
pub struct ContactManifold {
    pub normal: Vec2Fx,
    pub points: Vec<ManifoldPoint>,
}

/// One contact between two colliders.
#[derive(Clone, PartialEq, Eq, Debug)]
pub struct Contact {
    pub collider1: usize,
    pub collider2: usize,
    pub has_any_active_contact: bool,
    pub manifolds: Vec<ContactManifold>,
}

/// The contact set is sound: every manifold normal is a unit-scale
/// vector, as the physics collaborator guarantees.
pub open spec fn contacts_wf(cs: Seq<Contact>) -> bool {
    forall|ci: int, mi: int|
        0 <= ci < cs.len() && 0 <= mi < #[trigger] cs[ci].manifolds@.len() ==> v2_bounded(
            #[trigger] cs[ci].manifolds@[mi].normal,
            FX_ONE as int,
        )
}

/// The contact couples `e` with some other collider.
pub open spec fn involves(c: Contact, e: usize) -> bool {
    c.collider1 == e || c.collider2 == e
}

/// The entity on the other side of the contact, from `e`'s view.
pub open spec fn other_of(c: Contact, e: usize) -> usize {
    if c.collider1 == e {
        c.collider2
    } else {
        c.collider1
    }
}

/// Manifold `mi` of contact `ci` is an active contact of `e`.
pub open spec fn eligible(cs: Seq<Contact>, e: usize, ci: int, mi: int) -> bool {
    &&& 0 <= ci < cs.len()
    &&& cs[ci].has_any_active_contact
    &&& involves(cs[ci], e)
    &&& 0 <= mi < cs[ci].manifolds@.len()
}

/// The manifold's normal, re-oriented to point outward from `e`: the
/// stored normal points from the first collider toward the second, so
/// it is negated when `e` is the first.
pub open spec fn oriented_normal(cs: Seq<Contact>, e: usize, ci: int, mi: int) -> Vec2Fx {
    let c = cs[ci];
    let n = c.manifolds@[mi].normal;
    if c.collider1 == e {
        Vec2Fx { x: (-n.x) as i64, y: (-n.y) as i64 }
    } else {
        n
    }
}

/// `(ci, mi)` comes before `(cj, mj)` in scan order.
pub open spec fn pair_before(ci: int, mi: int, cj: int, mj: int) -> bool {
    ci < cj || (ci == cj && mi < mj)
}

/// The oracle's answer: the selected manifold, the normal oriented
/// outward from the queried entity, the entity on the other side, and
/// whether point pairs must be swapped to present the queried entity
/// first.
#[derive(Clone, Copy, PartialEq, Eq, Structural, Debug)]
pub struct StandingOn {
    pub normal: Vec2Fx,
    pub other: usize,
    pub should_swap: bool,
    pub contact_index: usize,
    pub manifold_index: usize,
}

/// `s` names an active manifold of `e` with its data read off
/// correctly, but says nothing yet about being the most upward one.
pub open spec fn candidate_ok(cs: Seq<Contact>, e: usize, s: StandingOn) -> bool {
    let ci = s.contact_index as int;
    let mi = s.manifold_index as int;
    &&& eligible(cs, e, ci, mi)
    &&& s.normal == oriented_normal(cs, e, ci, mi)
    &&& s.other == other_of(cs[ci], e)
    &&& s.should_swap == (cs[ci].collider1 != e)
}

/// `s` is the oracle's answer for entity `e` on the contact set `cs`:
/// an active manifold of `e` whose outward normal has the greatest
/// upward component — the dot product with the up vector, which in
/// fixed point is the normal's y component — with the latest such
/// manifold kept on ties.
pub open spec fn standing_on_ok(cs: Seq<Contact>, e: usize, s: StandingOn) -> bool {
    &&& candidate_ok(cs, e, s)
    &&& forall|cj: int, mj: int|
        eligible(cs, e, cj, mj) ==> #[trigger] oriented_normal(cs, e, cj, mj).y <= s.normal.y
    &&& forall|cj: int, mj: int|
        eligible(cs, e, cj, mj) && #[trigger] oriented_normal(cs, e, cj, mj).y == s.normal.y
            ==> !pair_before(s.contact_index as int, s.manifold_index as int, cj, mj)
}

/// The oracle's answer is a function of the contact set: two answers
/// that both satisfy the specification are the same, since each is
/// maximal and neither comes before the other on ties.
pub proof fn lemma_standing_on_unique(cs: Seq<Contact>, e: usize, s1: StandingOn, s2: StandingOn)
    requires
        standing_on_ok(cs, e, s1),
        standing_on_ok(cs, e, s2),
    ensures
        s1 == s2,
{
    let c1 = s1.contact_index as int;
    let m1 = s1.manifold_index as int;
    let c2 = s2.contact_index as int;
    let m2 = s2.manifold_index as int;
    assert(oriented_normal(cs, e, c1, m1).y <= s2.normal.y);
    assert(oriented_normal(cs, e, c2, m2).y <= s1.normal.y);
    assert(s1.normal.y == s2.normal.y);
    assert(!pair_before(c1, m1, c2, m2));
    assert(!pair_before(c2, m2, c1, m1));
    assert(c1 == c2 && m1 == m2);
}

/// Scans all active contacts of `entity` and returns the manifold whose
/// outward normal points most upward, or `None` when `entity` touches
/// nothing.
pub fn standing_on(contacts: &Vec<Contact>, entity: usize) -> (r: Option<StandingOn>)
    requires
        contacts_wf(contacts@),
    ensures
        r is None ==> forall|ci: int, mi: int| !eligible(contacts@, entity, ci, mi),
        r matches Some(s) ==> standing_on_ok(contacts@, entity, s),
{
    let ghost cs = contacts@;
    let mut best: Option<StandingOn> = None;
    let mut ci: usize = 0;
    while ci < contacts.len()
        invariant
            contacts_wf(cs),
            cs == contacts@,
            ci <= cs.len(),
            best is None ==> forall|cj: int, mj: int| cj < ci ==> !eligible(cs, entity, cj, mj),
            best matches Some(s) ==> {
                &&& candidate_ok(cs, entity, s)
                &&& s.contact_index < ci
                &&& forall|cj: int, mj: int|
                    eligible(cs, entity, cj, mj) && cj < ci ==> #[trigger] oriented_normal(
                        cs,
                        entity,
                        cj,
                        mj,
                    ).y <= s.normal.y
                &&& forall|cj: int, mj: int|
                    eligible(cs, entity, cj, mj) && cj < ci && #[trigger] oriented_normal(
                        cs,
                        entity,
                        cj,
                        mj,
                    ).y == s.normal.y ==> !pair_before(s.contact_index as int,
                    s.manifold_index as int, cj, mj)
            },
        decreases cs.len() - ci,
    {
        let contact = &contacts[ci];
        if contact.has_any_active_contact && (contact.collider1 == entity || contact.collider2
            == entity) {
            let should_swap = contact.collider1 != entity;
            let other = if contact.collider1 == entity {
                contact.collider2
            } else {
                contact.collider1
            };
            let mut mi: usize = 0;
            while mi < contact.manifolds.len()
                invariant
                    contacts_wf(cs),
                    cs == contacts@,
                    ci < cs.len(),
                    cs[ci as int] == *contact,
                    contact.has_any_active_contact,
                    involves(*contact, entity),
                    should_swap == (contact.collider1 != entity),
                    other == other_of(*contact, entity),
                    mi <= contact.manifolds@.len(),
                    best is None ==> forall|cj: int, mj: int|
                        pair_before(cj, mj, ci as int, mi as int) ==> !eligible(
                            cs,
                            entity,
                            cj,
                            mj,
                        ),
                    best matches Some(s) ==> {
                        &&& candidate_ok(cs, entity, s)
                        &&& pair_before(s.contact_index as int, s.manifold_index as int,
                        ci as int, mi as int)
                        &&& forall|cj: int, mj: int|
                            eligible(cs, entity, cj, mj) && pair_before(cj, mj, ci as int,
                            mi as int) ==> #[trigger] oriented_normal(cs, entity, cj, mj).y
                                <= s.normal.y
                        &&& forall|cj: int, mj: int|
                            eligible(cs, entity, cj, mj) && pair_before(cj, mj, ci as int,
                            mi as int) && #[trigger] oriented_normal(cs, entity, cj, mj).y
                                == s.normal.y ==> !pair_before(s.contact_index as int,
                            s.manifold_index as int, cj, mj)
                    },
                decreases contact.manifolds@.len() - mi,
            {
                let m_normal = contact.manifolds[mi].normal;
                proof {
                    assert(v2_bounded(cs[ci as int].manifolds@[mi as int].normal, FX_ONE as int));
                }
                let n: Vec2Fx = if contact.collider1 == entity {
                    Vec2Fx { x: -m_normal.x, y: -m_normal.y }
                } else {
                    m_normal
                };
                proof {
                    assert(n == oriented_normal(cs, entity, ci as int, mi as int));
                }
                let take = match &best {
                    None => true,
                    Some(b) => b.normal.y <= n.y,
                };
                if take {
                    best = Some(StandingOn {
                        normal: n,
                        other,
                        should_swap,
                        contact_index: ci,
                        manifold_index: mi,
                    });
                }
                mi = mi + 1;
            }
        }
        ci = ci + 1;
    }
    best
}

/// The queried entity's own local offset in a contact point: the first
/// collider's unless the pair must be swapped.
pub open spec fn this_y(p: ManifoldPoint, should_swap: bool) -> int {
    if should_swap {
        p.local_p2.y as int
    } else {
        p.local_p1.y as int
    }
}

/// The other entity's local offset in a contact point.
pub open spec fn that_y(p: ManifoldPoint, should_swap: bool) -> int {
    if should_swap {
        p.local_p1.y as int
    } else {
        p.local_p2.y as int
    }
}

/// Point `a` ranks strictly lower than point `b` when looking for the
/// lowest contact: a smaller own offset wins, and on equal own offsets
/// a greater offset on the other side wins.
pub open spec fn lower_contact_than(a: ManifoldPoint, b: ManifoldPoint, should_swap: bool) -> bool {
    this_y(a, should_swap) < this_y(b, should_swap) || (this_y(a, should_swap) == this_y(
        b,
        should_swap,
    ) && that_y(a, should_swap) > that_y(b, should_swap))
}

/// Picks the manifold point where the queried entity touches lowest on
/// its own body (the point it stands on), keeping the earliest point on
/// ties; `None` only when the manifold has no points.
pub fn lowest_contact_point(points: &Vec<ManifoldPoint>, should_swap: bool) -> (r: Option<usize>)
    ensures
        r is None <==> points@.len() == 0,
        r matches Some(i) ==> {
            &&& i < points@.len()
            &&& forall|j: int|
                0 <= j < points@.len() ==> !lower_contact_than(
                    #[trigger] points@[j],
                    points@[i as int],
                    should_swap,
                )
            &&& forall|j: int|
                0 <= j < i ==> lower_contact_than(
                    points@[i as int],
                    #[trigger] points@[j],
                    should_swap,
                )
        },
{
    if points.len() == 0 {
        return None;
    }
    let mut bi: usize = 0;
    let mut j: usize = 1;
    while j < points.len()
        invariant
            points@.len() > 0,
            bi < j <= points@.len(),
            forall|k: int|
                0 <= k < j ==> !lower_contact_than(
                    #[trigger] points@[k],
                    points@[bi as int],
                    should_swap,
                ),
            forall|k: int|
                0 <= k < bi ==> lower_contact_than(
                    points@[bi as int],
                    #[trigger] points@[k],
                    should_swap,
                ),
        decreases points@.len() - j,
    {
        let cand = &points[j];
        let bst = &points[bi];
        let c_this = if should_swap {
            cand.local_p2.y
        } else {
            cand.local_p1.y
        };
        let c_that = if should_swap {
            cand.local_p1.y
        } else {
            cand.local_p2.y
        };
        let b_this = if should_swap {
            bst.local_p2.y
        } else {
            bst.local_p1.y
        };
        let b_that = if should_swap {
            bst.local_p1.y
        } else {
            bst.local_p2.y
        };
        if c_this < b_this || (c_this == b_this && c_that > b_that) {
            proof {
                assert(lower_contact_than(points@[j as int], points@[bi as int], should_swap));
                assert forall|k: int| 0 <= k < j implies lower_contact_than(
                    points@[j as int],
                    #[trigger] points@[k],
                    should_swap,
                ) by {
                    assert(!lower_contact_than(points@[k], points@[bi as int], should_swap));
                }
            }
            bi = j;
        }
        j = j + 1;
    }
    Some(bi)
}

} // verus!
