//! What holds of every step.
use vstd::prelude::*;

use crate::geometry::{clamp, is_root, lemma_scale_sign, root, scale_component, MAX_COORD};
use crate::model::{
    chase, cooled_down, dist2_to, eligible, in_bounds, jittered, nearest_upto, pending, pushed,
    roster_wf, separated_upto, SEPARATION_RANGE, SEPARATION_SPEED, settled, spawned, step_spec, update_agent, Player, Spawn, Team,
};

verus! {

/// Target acquisition picks the nearest eligible agent, and of equally near ones the
/// first: the result is `None` exactly when no agent among the first `k` is eligible,
/// and otherwise an eligible agent no farther than any other eligible one and strictly
/// nearer than every eligible one before it.
pub proof fn lemma_nearest_first_minimum(snap: Seq<Player>, team: Team, x: int, y: int, now: u64, k: int)
    requires
        0 <= k <= snap.len() <= usize::MAX,
    ensures
        nearest_upto(snap, team, x, y, now, k) is None <==> forall|q: int| 0 <= q < k ==> !eligible(#[trigger] snap[q], team, now),
        nearest_upto(snap, team, x, y, now, k) matches Some(b) ==> {
            &&& 0 <= b < k
            &&& eligible(snap[b as int], team, now)
            &&& forall|q: int| 0 <= q < k && eligible(#[trigger] snap[q], team, now) ==> dist2_to(x, y, snap[b as int]) <= dist2_to(x, y, snap[q])
            &&& forall|q: int| 0 <= q < b && eligible(#[trigger] snap[q], team, now) ==> dist2_to(x, y, snap[b as int]) < dist2_to(x, y, snap[q])
        },
    decreases k,
{
    if k > 0 {
        lemma_nearest_first_minimum(snap, team, x, y, now, k - 1);
        let best = nearest_upto(snap, team, x, y, now, k - 1);
        let q = snap[k - 1];
        if let Some(b) = best {
            if eligible(q, team, now) && dist2_to(x, y, q) < dist2_to(x, y, snap[b as int]) {
                assert(((k - 1) as usize) as int == k - 1);
            }
        } else if eligible(q, team, now) {
            assert(((k - 1) as usize) as int == k - 1);
        }
    }
}

/// Separation moves an agent and nothing else, and keeps it in the viewport.
proof fn lemma_separated_keeps(snap: Seq<Player>, i: int, p: Player, dt: u64, w: int, h: int, k: int)
    requires
        0 <= w <= MAX_COORD,
        0 <= h <= MAX_COORD,
        in_bounds(p, w, h),
    ensures
        separated_upto(snap, i, p, dt, w, h, k).team == p.team,
        separated_upto(snap, i, p, dt, w, h, k).attacking == p.attacking,
        separated_upto(snap, i, p, dt, w, h, k).last_switched == p.last_switched,
        in_bounds(separated_upto(snap, i, p, dt, w, h, k), w, h),
    decreases k,
{
    if k > 0 {
        lemma_separated_keeps(snap, i, p, dt, w, h, k - 1);
    }
}

/// What one agent's own update keeps and records.
proof fn lemma_update_facts(snap: Seq<Player>, jit: Seq<(i64, i64)>, i: int, dt: u64, now: u64, w: int, h: int)
    requires
        0 <= i < snap.len() <= usize::MAX,
        0 <= w <= MAX_COORD,
        0 <= h <= MAX_COORD,
    ensures
        ({
            let (p, conv) = update_agent(snap, jit, i, dt, now, w, h);
            &&& in_bounds(p, w, h)
            &&& p.team == snap[i].team
            &&& p.last_switched == snap[i].last_switched
            &&& (p.attacking matches Some(t) ==> t < snap.len() && snap[t as int].team != snap[i].team)
            &&& (conv matches Some(v) ==> v < snap.len() && snap[v as int].team != snap[i].team
                && cooled_down(snap[v as int], now) && p.attacking is None)
        }),
{
    let p1 = jittered(snap[i], jit[i].0 as int, jit[i].1 as int, w, h);
    let p2 = chase(snap, p1, dt, now, w, h).0;
    lemma_nearest_first_minimum(snap, p1.team, p1.x as int, p1.y as int, now, snap.len() as int);
    assert(in_bounds(p2, w, h));
    lemma_separated_keeps(snap, i, p2, dt, w, h, snap.len() as int);
}

/// A conversion recorded for victim `v` comes from another team, and only once the
/// victim's cooldown has run out.
proof fn lemma_pending_facts(snap: Seq<Player>, jit: Seq<(i64, i64)>, dt: u64, now: u64, w: int, h: int, k: int, v: int)
    requires
        0 <= k <= snap.len() <= usize::MAX,
        0 <= v < snap.len(),
        0 <= w <= MAX_COORD,
        0 <= h <= MAX_COORD,
    ensures
        pending(snap, jit, dt, now, w, h, k, v) matches Some(t) ==> t != snap[v].team && cooled_down(snap[v], now),
    decreases k,
{
    if k > 0 {
        lemma_pending_facts(snap, jit, dt, now, w, h, k - 1, v);
        lemma_update_facts(snap, jit, k - 1, dt, now, w, h);
    }
}

/// After a step every agent lies in `[0, w] × [0, h]`.
pub proof fn lemma_step_within_bounds(snap: Seq<Player>, jit: Seq<(i64, i64)>, dt: u64, now: u64, w: int, h: int, spawns: Seq<Spawn>)
    requires
        snap.len() <= usize::MAX,
        0 <= w <= MAX_COORD,
        0 <= h <= MAX_COORD,
    ensures
        forall|k: int| 0 <= k < step_spec(snap, jit, dt, now, w, h, spawns).len()
            ==> in_bounds(#[trigger] step_spec(snap, jit, dt, now, w, h, spawns)[k], w, h),
{
    let r = step_spec(snap, jit, dt, now, w, h, spawns);
    assert forall|k: int| 0 <= k < r.len() implies in_bounds(#[trigger] r[k], w, h) by {
        if k < snap.len() {
            lemma_update_facts(snap, jit, k, dt, now, w, h);
        }
    }
}

/// A step adds exactly one agent per spawn request and removes none; the agents that
/// were there keep their places.
pub proof fn lemma_step_population(snap: Seq<Player>, jit: Seq<(i64, i64)>, dt: u64, now: u64, w: int, h: int, spawns: Seq<Spawn>)
    ensures
        step_spec(snap, jit, dt, now, w, h, spawns).len() == snap.len() + spawns.len(),
        forall|k: int| 0 <= k < spawns.len() ==>
            #[trigger] step_spec(snap, jit, dt, now, w, h, spawns)[snap.len() + k] == spawned(spawns[k], now, w, h),
{
}

/// Team changes in a step: an agent either keeps its team and its switch time, or was
/// converted, in which case its new team differs from its old one, its previous switch
/// lies more than the cooldown before `now`, its switch time becomes `now` and it drops
/// its target. Agents added by the step start with switch time `now`.
pub proof fn lemma_step_conversions(snap: Seq<Player>, jit: Seq<(i64, i64)>, dt: u64, now: u64, w: int, h: int, spawns: Seq<Spawn>)
    requires
        snap.len() <= usize::MAX,
        0 <= w <= MAX_COORD,
        0 <= h <= MAX_COORD,
    ensures
        forall|k: int| 0 <= k < snap.len() ==> {
            let p = #[trigger] step_spec(snap, jit, dt, now, w, h, spawns)[k];
            ||| p.team == snap[k].team && p.last_switched == snap[k].last_switched
            ||| p.team != snap[k].team && cooled_down(snap[k], now) && p.last_switched == now && p.attacking is None
        },
        forall|k: int| snap.len() <= k < snap.len() + spawns.len()
            ==> (#[trigger] step_spec(snap, jit, dt, now, w, h, spawns)[k]).last_switched == now,
{
    let r = step_spec(snap, jit, dt, now, w, h, spawns);
    assert forall|k: int| 0 <= k < snap.len() implies {
        let p = #[trigger] r[k];
        ||| p.team == snap[k].team && p.last_switched == snap[k].last_switched
        ||| p.team != snap[k].team && cooled_down(snap[k], now) && p.last_switched == now && p.attacking is None
    } by {
        lemma_update_facts(snap, jit, k, dt, now, w, h);
        lemma_pending_facts(snap, jit, dt, now, w, h, snap.len() as int, k);
    }
}

/// Agent `k` of `r` pursues no one, or an agent of `r` of another team than its own, or
/// one whose team differs from its team in `snap`.
pub open spec fn target_valid(r: Seq<Player>, snap: Seq<Player>, k: int) -> bool {
    match r[k].attacking {
        None => true,
        Some(t) => t < r.len() && (r[t as int].team != r[k].team || r[t as int].team != snap[t as int].team),
    }
}

/// After a step every target is an agent of the roster, and of another team than its
/// pursuer unless that agent was itself converted during the step.
pub proof fn lemma_step_targets(snap: Seq<Player>, jit: Seq<(i64, i64)>, dt: u64, now: u64, w: int, h: int, spawns: Seq<Spawn>)
    requires
        snap.len() <= usize::MAX,
        0 <= w <= MAX_COORD,
        0 <= h <= MAX_COORD,
    ensures
        forall|k: int| 0 <= k < step_spec(snap, jit, dt, now, w, h, spawns).len()
            ==> #[trigger] target_valid(step_spec(snap, jit, dt, now, w, h, spawns), snap, k),
{
    let r = step_spec(snap, jit, dt, now, w, h, spawns);
    lemma_step_conversions(snap, jit, dt, now, w, h, spawns);
    assert forall|k: int| 0 <= k < r.len() implies #[trigger] target_valid(r, snap, k) by {
        if k < snap.len() {
            lemma_update_facts(snap, jit, k, dt, now, w, h);
        }
    }
}

/// A step keeps a well-formed roster well-formed.
pub proof fn lemma_step_wf(snap: Seq<Player>, jit: Seq<(i64, i64)>, dt: u64, now: u64, w: int, h: int, spawns: Seq<Spawn>)
    requires
        snap.len() <= usize::MAX,
        0 <= w <= MAX_COORD,
        0 <= h <= MAX_COORD,
    ensures
        roster_wf(step_spec(snap, jit, dt, now, w, h, spawns)),
{
    lemma_step_within_bounds(snap, jit, dt, now, w, h, spawns);
    lemma_step_targets(snap, jit, dt, now, w, h, spawns);
    let r = step_spec(snap, jit, dt, now, w, h, spawns);
    assert forall|k: int| 0 <= k < r.len() implies {
        &&& in_bounds(#[trigger] r[k], MAX_COORD as int, MAX_COORD as int)
        &&& (r[k].attacking matches Some(t) ==> t < r.len())
    } by {
        assert(in_bounds(r[k], w, h));
        assert(target_valid(r, snap, k));
    }
}

/// Holding two points to `[0, hi]` after moving them apart along one axis leaves them
/// no closer on that axis.
proof fn lemma_gap_grows(a: int, b: int, da: int, db: int, hi: int)
    requires
        0 <= a <= hi,
        0 <= b <= hi,
        a <= b ==> da <= 0 && db >= 0,
        a >= b ==> da >= 0 && db <= 0,
    ensures
        (clamp(a + da, hi) - clamp(b + db, hi)) * (clamp(a + da, hi) - clamp(b + db, hi)) >= (a - b) * (a - b),
{
    let ca = clamp(a + da, hi);
    let cb = clamp(b + db, hi);
    if a <= b {
        assert(ca <= a && cb >= b);
        assert((ca - cb) * (ca - cb) >= (a - b) * (a - b)) by (nonlinear_arith)
            requires
                ca - cb <= a - b,
                a - b <= 0,
        ;
    } else {
        assert(ca >= a && cb <= b);
        assert((ca - cb) * (ca - cb) >= (a - b) * (a - b)) by (nonlinear_arith)
            requires
                ca - cb >= a - b,
                a - b >= 0,
        ;
    }
}

/// Every natural number has a rounded-down square root.
proof fn lemma_root_exists(n: int)
    requires
        0 <= n,
    ensures
        is_root(root(n), n),
    decreases n,
{
    if n == 0 {
        assert(is_root(0, 0));
    } else {
        lemma_root_exists(n - 1);
        let r = root(n - 1);
        if (r + 1) * (r + 1) <= n {
            assert((r + 1) * (r + 1) == n);
            assert(n < (r + 2) * (r + 2)) by (nonlinear_arith)
                requires
                    (r + 1) * (r + 1) == n,
                    r >= 0,
            ;
            assert(is_root(r + 1, n));
        } else {
            assert(is_root(r, n));
        }
    }
}

/// Two agents of one team that push each other apart end no closer than they started.
proof fn lemma_pushed_apart(a: Player, b: Player, dt: u64, w: int, h: int)
    requires
        0 <= w <= MAX_COORD,
        0 <= h <= MAX_COORD,
        in_bounds(a, w, h),
        in_bounds(b, w, h),
        a.team == b.team,
    ensures
        ({
            let pa = pushed(a, b, dt, w, h);
            let pb = pushed(b, a, dt, w, h);
            dist2_to(pa.x as int, pa.y as int, pb) >= dist2_to(a.x as int, a.y as int, b)
        }),
{
    let d2 = dist2_to(a.x as int, a.y as int, b);
    assert((b.x - a.x) * (b.x - a.x) == (a.x - b.x) * (a.x - b.x)) by (nonlinear_arith);
    assert((b.y - a.y) * (b.y - a.y) == (a.y - b.y) * (a.y - b.y)) by (nonlinear_arith);
    assert(dist2_to(b.x as int, b.y as int, a) == d2);
    let speed = SEPARATION_SPEED * dt;
    if d2 >= SEPARATION_RANGE * SEPARATION_RANGE {
    } else if d2 == 0 {
        assert((a.x - b.x) * (a.x - b.x) >= 0 && (a.y - b.y) * (a.y - b.y) >= 0) by (nonlinear_arith);
        assert(a.x == b.x && a.y == b.y) by (nonlinear_arith)
            requires
                (a.x - b.x) * (a.x - b.x) + (a.y - b.y) * (a.y - b.y) == 0,
        ;
    } else {
        let len = root(d2);
        lemma_root_exists(d2);
        assert(is_root(len, d2));
        assert(len > 0) by (nonlinear_arith)
            requires
                d2 < (len + 1) * (len + 1),
                d2 > 0,
                len >= 0,
        ;
        lemma_scale_sign(a.x - b.x, speed, len);
        lemma_scale_sign(b.x - a.x, speed, len);
        lemma_scale_sign(a.y - b.y, speed, len);
        lemma_scale_sign(b.y - a.y, speed, len);
        lemma_gap_grows(a.x as int, b.x as int, scale_component(a.x - b.x, speed, len), scale_component(b.x - a.x, speed, len), w);
        lemma_gap_grows(a.y as int, b.y as int, scale_component(a.y - b.y, speed, len), scale_component(b.y - a.y, speed, len), h);
    }
}

/// Separation: in a roster of two agents of one team, neither pursuing anyone, a step
/// without jitter or spawns leaves them no closer to each other than they started.
pub proof fn lemma_separation_no_closer(a: Player, b: Player, dt: u64, now: u64, w: int, h: int)
    requires
        0 <= w <= MAX_COORD,
        0 <= h <= MAX_COORD,
        in_bounds(a, w, h),
        in_bounds(b, w, h),
        a.team == b.team,
        a.attacking is None,
        b.attacking is None,
    ensures
        ({
            let r = step_spec(seq![a, b], seq![(0i64, 0i64), (0i64, 0i64)], dt, now, w, h, Seq::<Spawn>::empty());
            dist2_to(r[0].x as int, r[0].y as int, r[1]) >= dist2_to(a.x as int, a.y as int, b)
        }),
{
    let snap = seq![a, b];
    let jit = seq![(0i64, 0i64), (0i64, 0i64)];
    let r = step_spec(snap, jit, dt, now, w, h, Seq::<Spawn>::empty());
    assert(jittered(a, 0, 0, w, h) == a);
    assert(jittered(b, 0, 0, w, h) == b);
    lemma_nearest_first_minimum(snap, a.team, a.x as int, a.y as int, now, 2);
    assert(!eligible(snap[0], a.team, now) && !eligible(snap[1], a.team, now));
    lemma_nearest_first_minimum(snap, b.team, b.x as int, b.y as int, now, 2);
    assert(chase(snap, a, dt, now, w, h) == (a, None::<usize>));
    assert(chase(snap, b, dt, now, w, h) == (b, None::<usize>));
    assert(separated_upto(snap, 0, a, dt, w, h, 0) == a);
    assert(separated_upto(snap, 1, b, dt, w, h, 0) == b);
    assert(separated_upto(snap, 0, a, dt, w, h, 1) == a);
    assert(separated_upto(snap, 1, b, dt, w, h, 1) == pushed(b, a, dt, w, h));
    assert(update_agent(snap, jit, 0, dt, now, w, h) == (pushed(a, b, dt, w, h), None::<usize>));
    assert(update_agent(snap, jit, 1, dt, now, w, h) == (pushed(b, a, dt, w, h), None::<usize>));
    assert(pending(snap, jit, dt, now, w, h, 0, 0) is None);
    assert(pending(snap, jit, dt, now, w, h, 0, 1) is None);
    assert(pending(snap, jit, dt, now, w, h, 1, 0) is None);
    assert(pending(snap, jit, dt, now, w, h, 1, 1) is None);
    assert(pending(snap, jit, dt, now, w, h, 2, 0) is None);
    assert(pending(snap, jit, dt, now, w, h, 2, 1) is None);
    assert(r[0] == settled(snap, jit, dt, now, w, h, 0));
    assert(r[1] == settled(snap, jit, dt, now, w, h, 1));
    lemma_pushed_apart(a, b, dt, w, h);
}

} // verus!
