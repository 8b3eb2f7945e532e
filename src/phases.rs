//! The angular order of the lane groups that `update_traffic_lights` sorts:
//! a strict total order, so the groups take the ranks `0 .. n` once each.

use crate::geometry::{pseudo_angle_den, pseudo_angle_lt, pseudo_angle_num};
use crate::network::{angle_rank, count_before, group_before, road_at, IntersectionID, Road, RoadID};
use vstd::arithmetic::mul::{
    lemma_mul_inequality, lemma_mul_is_associative, lemma_mul_is_commutative,
    lemma_mul_strict_inequality,
};
use vstd::prelude::*;

verus! {

/// Comparing fractions with positive denominators by cross-multiplying is
/// transitive, and strict as soon as one of the two steps is.
proof fn lemma_cross_trans(an: int, ad: int, bn: int, bd: int, cn: int, cd: int)
    requires
        ad > 0,
        bd > 0,
        cd > 0,
        an * bd <= bn * ad,
        bn * cd <= cn * bd,
    ensures
        an * cd <= cn * ad,
        (an * bd < bn * ad || bn * cd < cn * bd) ==> an * cd < cn * ad,
{
    lemma_mul_inequality(an * bd, bn * ad, cd);
    lemma_mul_inequality(bn * cd, cn * bd, ad);
    lemma_mul_is_associative(bn, ad, cd);
    lemma_mul_is_associative(bn, cd, ad);
    lemma_mul_is_commutative(ad, cd);
    lemma_mul_is_associative(an, bd, cd);
    lemma_mul_is_associative(an, cd, bd);
    lemma_mul_is_commutative(bd, cd);
    lemma_mul_is_associative(cn, bd, ad);
    lemma_mul_is_associative(cn, ad, bd);
    lemma_mul_is_commutative(bd, ad);
    assert((an * bd) * cd == (an * cd) * bd);
    assert((cn * bd) * ad == (cn * ad) * bd);
    assert((bn * ad) * cd == (bn * cd) * ad);
    if an * cd > cn * ad {
        lemma_mul_strict_inequality(cn * ad, an * cd, bd);
    }
    if an * bd < bn * ad {
        lemma_mul_strict_inequality(an * bd, bn * ad, cd);
        if an * cd >= cn * ad {
            lemma_mul_inequality(cn * ad, an * cd, bd);
        }
    }
    if bn * cd < cn * bd {
        lemma_mul_strict_inequality(bn * cd, cn * bd, ad);
        if an * cd >= cn * ad {
            lemma_mul_inequality(cn * ad, an * cd, bd);
        }
    }
}

spec fn key_num(gs: Seq<RoadID>, roads: Seq<Option<Road>>, inter: IntersectionID, h: int) -> int {
    let d = road_at(roads, gs[h]).spec_dir_from(inter);
    pseudo_angle_num(d.0, d.1)
}

spec fn key_den(gs: Seq<RoadID>, roads: Seq<Option<Road>>, inter: IntersectionID, h: int) -> int {
    let d = road_at(roads, gs[h]).spec_dir_from(inter);
    pseudo_angle_den(d.0, d.1)
}

proof fn lemma_before_trans(
    gs: Seq<RoadID>,
    roads: Seq<Option<Road>>,
    inter: IntersectionID,
    a: int,
    b: int,
    c: int,
)
    requires
        group_before(gs, roads, inter, a, b),
        group_before(gs, roads, inter, b, c),
    ensures
        group_before(gs, roads, inter, a, c),
{
    let an = key_num(gs, roads, inter, a);
    let ad = key_den(gs, roads, inter, a);
    let bn = key_num(gs, roads, inter, b);
    let bd = key_den(gs, roads, inter, b);
    let cn = key_num(gs, roads, inter, c);
    let cd = key_den(gs, roads, inter, c);
    assert(ad > 0 && bd > 0 && cd > 0);
    lemma_cross_trans(an, ad, bn, bd, cn, cd);
    if !(an * cd < cn * ad) {
        // a and b, and b and c, have equal keys: the tie goes by position
        lemma_cross_trans(cn, cd, an, ad, an, ad);
    }
}

/// Counting the groups before `g1` and before `g2`, where `g1` comes before
/// `g2`: every group before `g1` is before `g2`, and `g1` itself too.
proof fn lemma_count_before_grows(
    gs: Seq<RoadID>,
    roads: Seq<Option<Road>>,
    inter: IntersectionID,
    g1: int,
    g2: int,
    n: int,
)
    requires
        group_before(gs, roads, inter, g1, g2),
    ensures
        count_before(gs, roads, inter, g1, n) + (if 0 <= g1 < n {
            1int
        } else {
            0int
        }) <= count_before(gs, roads, inter, g2, n),
    decreases n,
{
    if n > 0 {
        lemma_count_before_grows(gs, roads, inter, g1, g2, n - 1);
        if group_before(gs, roads, inter, n - 1, g1) {
            lemma_before_trans(gs, roads, inter, n - 1, g1, g2);
        }
    }
}

proof fn lemma_count_before_bound(
    gs: Seq<RoadID>,
    roads: Seq<Option<Road>>,
    inter: IntersectionID,
    g: int,
    n: int,
)
    requires
        n >= 0,
    ensures
        0 <= count_before(gs, roads, inter, g, n),
        count_before(gs, roads, inter, g, n) + (if 0 <= g < n {
            1int
        } else {
            0int
        }) <= n,
    decreases n,
{
    if n > 0 {
        lemma_count_before_bound(gs, roads, inter, g, n - 1);
    }
}

/// Some group has rank `k`.
pub open spec fn rank_taken(gs: Seq<RoadID>, roads: Seq<Option<Road>>, inter: IntersectionID, k: int) -> bool {
    exists|g: int| 0 <= g < gs.len() && #[trigger] angle_rank(gs, roads, inter, g) == k
}

/// Sorted by the pseudo-angle of their road's direction, ties kept in their
/// order, the `n` lane groups of an intersection take the ranks `0 .. n`,
/// each rank exactly once; so the parity that `group_light` reads alternates
/// around the junction. With four groups every rank `0 .. 4` is taken: the
/// groups ranked `0` and `2` get one phase, those ranked `1` and `3` the other.
pub proof fn lemma_angle_ranks_distinct(gs: Seq<RoadID>, roads: Seq<Option<Road>>, inter: IntersectionID)
    ensures
        forall|g: int| 0 <= g < gs.len() ==> 0 <= #[trigger] angle_rank(gs, roads, inter, g) < gs.len(),
        forall|g1: int, g2: int|
            0 <= g1 < gs.len() && 0 <= g2 < gs.len() && g1 != g2 ==> #[trigger] angle_rank(
                gs,
                roads,
                inter,
                g1,
            ) != #[trigger] angle_rank(gs, roads, inter, g2),
        gs.len() == 4 ==> forall|k: int| 0 <= k < 4 ==> #[trigger] rank_taken(gs, roads, inter, k),
{
    assert forall|g: int| 0 <= g < gs.len() implies 0 <= #[trigger] angle_rank(gs, roads, inter, g) < gs.len() by {
        lemma_count_before_bound(gs, roads, inter, g, gs.len() as int);
    }
    assert forall|g1: int, g2: int|
        0 <= g1 < gs.len() && 0 <= g2 < gs.len() && g1 != g2 implies #[trigger] angle_rank(
        gs,
        roads,
        inter,
        g1,
    ) != #[trigger] angle_rank(gs, roads, inter, g2) by {
        if group_before(gs, roads, inter, g1, g2) {
            lemma_count_before_grows(gs, roads, inter, g1, g2, gs.len() as int);
        } else {
            assert(group_before(gs, roads, inter, g2, g1));
            lemma_count_before_grows(gs, roads, inter, g2, g1, gs.len() as int);
        }
    }
    if gs.len() == 4 {
        let r0 = angle_rank(gs, roads, inter, 0);
        let r1 = angle_rank(gs, roads, inter, 1);
        let r2 = angle_rank(gs, roads, inter, 2);
        let r3 = angle_rank(gs, roads, inter, 3);
        assert(r0 != r1 && r0 != r2 && r0 != r3 && r1 != r2 && r1 != r3 && r2 != r3);
        assert(0 <= r0 < 4 && 0 <= r1 < 4 && 0 <= r2 < 4 && 0 <= r3 < 4);
        assert forall|k: int| 0 <= k < 4 implies #[trigger] rank_taken(gs, roads, inter, k) by {
            if r0 == k {
                assert(angle_rank(gs, roads, inter, 0) == k);
            } else if r1 == k {
                assert(angle_rank(gs, roads, inter, 1) == k);
            } else if r2 == k {
                assert(angle_rank(gs, roads, inter, 2) == k);
            } else {
                assert(angle_rank(gs, roads, inter, 3) == k);
            }
        }
    }
}

} // verus!
