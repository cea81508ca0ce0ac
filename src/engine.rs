//! The simulation engine: one step of the agent population.
use vstd::prelude::*;

use crate::geometry::{
    clamp_coord, distance_squared, isqrt, scale_toward, shift_coord, MAX_COORD,
};
use crate::model::{
    chase, dist2_to, in_bounds, jitter_wf, jittered, nearest_upto, pending, pushed,
    separated_upto, settled, spawned, step_spec, update_agent, Player, Spawn, Team, CHASE_RANGE,
    CONTACT_RANGE, COOLDOWN_MS, JITTER_MAX, PURSUIT_SPEED, SEPARATION_RANGE, SEPARATION_SPEED,
};

verus! {

/// All positions of `s` lie in `[0, MAX_COORD]²`.
pub open spec fn coords_ok(s: Seq<Player>) -> bool {
    forall|k: int| 0 <= k < s.len() ==> in_bounds(#[trigger] s[k], MAX_COORD as int, MAX_COORD as int)
}

/// The nearest agent of `snap` eligible for team `team` at time `now`, seen from
/// `(x, y)`; of equally near ones, the first.
pub fn find_target(snap: &Vec<Player>, team: Team, x: i64, y: i64, now: u64) -> (r: Option<usize>)
    requires
        coords_ok(snap@),
        0 <= x <= MAX_COORD,
        0 <= y <= MAX_COORD,
    ensures
        r == nearest_upto(snap@, team, x as int, y as int, now, snap@.len() as int),
{
    let mut best: Option<usize> = None;
    let mut best_d2: i64 = 0;
    let mut k: usize = 0;
    while k < snap.len()
        invariant
            k <= snap@.len(),
            coords_ok(snap@),
            0 <= x <= MAX_COORD,
            0 <= y <= MAX_COORD,
            best == nearest_upto(snap@, team, x as int, y as int, now, k as int),
            best matches Some(b) ==> b < k && best_d2 == dist2_to(x as int, y as int, snap@[b as int]),
        decreases snap@.len() - k,
    {
        let q = snap[k];
        assert(in_bounds(snap@[k as int], MAX_COORD as int, MAX_COORD as int));
        let d2 = distance_squared(x, y, q.x, q.y);
        let ok = q.team != team && now > q.last_switched && now - q.last_switched > COOLDOWN_MS;
        let closer = match best {
            None => true,
            Some(_) => d2 < best_d2,
        };
        if ok && closer {
            best = Some(k);
            best_d2 = d2;
        }
        k = k + 1;
    }
    best
}

/// Target acquisition, or pursuit of the current target, for agent `p` against `snap`;
/// returns the updated agent and the victim it converts, if any.
pub fn chase_step(snap: &Vec<Player>, p: Player, dt: u64, now: u64, w: i64, h: i64) -> (r: (Player, Option<usize>))
    requires
        coords_ok(snap@),
        0 <= w <= MAX_COORD,
        0 <= h <= MAX_COORD,
        in_bounds(p, w as int, h as int),
    ensures
        r == chase(snap@, p, dt, now, w as int, h as int),
        in_bounds(r.0, w as int, h as int),
{
    match p.attacking {
        None => {
            let t = find_target(snap, p.team, p.x, p.y, now);
            (Player { attacking: t, ..p }, None)
        },
        Some(idx) => {
            if idx >= snap.len() || snap[idx].team == p.team {
                return (Player { attacking: None, ..p }, None);
            }
            let v = snap[idx];
            assert(in_bounds(snap@[idx as int], MAX_COORD as int, MAX_COORD as int));
            let d2 = distance_squared(p.x, p.y, v.x, v.y);
            if d2 > CHASE_RANGE * CHASE_RANGE {
                let len = isqrt(d2 as u64);
                assert(len > 0) by (nonlinear_arith)
                    requires
                        d2 < (len + 1) * (len + 1),
                        d2 > CHASE_RANGE * CHASE_RANGE,
                        len >= 0,
                ;
                let speed: u128 = PURSUIT_SPEED as u128 * dt as u128;
                let nx = shift_coord(p.x, scale_toward(v.x - p.x, speed, len), w);
                let ny = shift_coord(p.y, scale_toward(v.y - p.y, speed, len), h);
                let p2 = Player { x: nx, y: ny, ..p };
                let c2 = distance_squared(nx, ny, v.x, v.y);
                if c2 < CONTACT_RANGE * CONTACT_RANGE && now > v.last_switched && now - v.last_switched > COOLDOWN_MS {
                    (Player { attacking: None, ..p2 }, Some(idx))
                } else {
                    (p2, None)
                }
            } else {
                (p, None)
            }
        },
    }
}

/// Agent `p` pushed away from `q`, if the two are of one team and too close.
pub fn push_away(p: Player, q: Player, dt: u64, w: i64, h: i64) -> (r: Player)
    requires
        0 <= w <= MAX_COORD,
        0 <= h <= MAX_COORD,
        in_bounds(p, w as int, h as int),
        in_bounds(q, MAX_COORD as int, MAX_COORD as int),
    ensures
        r == pushed(p, q, dt, w as int, h as int),
        in_bounds(r, w as int, h as int),
{
    let d2 = distance_squared(p.x, p.y, q.x, q.y);
    let speed: u128 = SEPARATION_SPEED as u128 * dt as u128;
    if q.team != p.team || d2 >= SEPARATION_RANGE * SEPARATION_RANGE {
        p
    } else if d2 == 0 {
        let nx = shift_coord(p.x, speed as i128, w);
        let ny = shift_coord(p.y, speed as i128, h);
        Player { x: nx, y: ny, ..p }
    } else {
        let len = isqrt(d2 as u64);
        assert(len > 0) by (nonlinear_arith)
            requires
                d2 < (len + 1) * (len + 1),
                d2 > 0,
                len >= 0,
        ;
        let nx = shift_coord(p.x, scale_toward(p.x - q.x, speed, len), w);
        let ny = shift_coord(p.y, scale_toward(p.y - q.y, speed, len), h);
        Player { x: nx, y: ny, ..p }
    }
}

/// Agent `p` (agent `i` of `snap`) pushed away from every other agent of `snap` in turn.
pub fn separate(snap: &Vec<Player>, i: usize, p: Player, dt: u64, w: i64, h: i64) -> (r: Player)
    requires
        coords_ok(snap@),
        0 <= w <= MAX_COORD,
        0 <= h <= MAX_COORD,
        in_bounds(p, w as int, h as int),
    ensures
        r == separated_upto(snap@, i as int, p, dt, w as int, h as int, snap@.len() as int),
        in_bounds(r, w as int, h as int),
{
    let mut cur = p;
    let mut k: usize = 0;
    while k < snap.len()
        invariant
            k <= snap@.len(),
            coords_ok(snap@),
            0 <= w <= MAX_COORD,
            0 <= h <= MAX_COORD,
            in_bounds(cur, w as int, h as int),
            cur == separated_upto(snap@, i as int, p, dt, w as int, h as int, k as int),
        decreases snap@.len() - k,
    {
        if k != i {
            assert(in_bounds(snap@[k as int], MAX_COORD as int, MAX_COORD as int));
            cur = push_away(cur, snap[k], dt, w, h);
        }
        k = k + 1;
    }
    cur
}

/// Agent `i`'s own update in one step against `snap`: jitter by `(jx, jy)`, acquire or
/// pursue a target, then separate from its teammates. Returns the agent and the victim
/// it converts, if any.
pub fn update_player(snap: &Vec<Player>, i: usize, jx: i64, jy: i64, dt: u64, now: u64, w: i64, h: i64) -> (r: (Player, Option<usize>))
    requires
        coords_ok(snap@),
        i < snap@.len(),
        0 <= w <= MAX_COORD,
        0 <= h <= MAX_COORD,
        -JITTER_MAX <= jx <= JITTER_MAX,
        -JITTER_MAX <= jy <= JITTER_MAX,
    ensures
        r.0 == separated_upto(
            snap@,
            i as int,
            chase(snap@, jittered(snap@[i as int], jx as int, jy as int, w as int, h as int), dt, now, w as int, h as int).0,
            dt,
            w as int,
            h as int,
            snap@.len() as int,
        ),
        r.1 == chase(snap@, jittered(snap@[i as int], jx as int, jy as int, w as int, h as int), dt, now, w as int, h as int).1,
        in_bounds(r.0, w as int, h as int),
{
    let p = snap[i];
    assert(in_bounds(snap@[i as int], MAX_COORD as int, MAX_COORD as int));
    let p1 = Player { x: clamp_coord(p.x as i128 + jx as i128, w), y: clamp_coord(p.y as i128 + jy as i128, h), ..p };
    let (p2, conv) = chase_step(snap, p1, dt, now, w, h);
    (separate(snap, i, p2, dt, w, h), conv)
}

/// The roster after one step from `snap`: every agent updated against `snap` (the
/// roster as it was at the start of the step), then the recorded conversions applied (the last one recorded for a
/// victim wins), then one agent appended for each spawn request.
pub fn step_roster(
    snap: &Vec<Player>,
    jitter: &Vec<(i64, i64)>,
    dt: u64,
    now: u64,
    w: i64,
    h: i64,
    spawns: &Vec<Spawn>,
) -> (players: Vec<Player>)
    requires
        coords_ok(snap@),
        jitter_wf(jitter@, snap@.len() as int),
        0 <= w <= MAX_COORD,
        0 <= h <= MAX_COORD,
        snap@.len() + spawns@.len() <= usize::MAX,
    ensures
        players@ == step_spec(snap@, jitter@, dt, now, w as int, h as int, spawns@),
{
    let n = snap.len();
    let mut players: Vec<Player> = Vec::new();
    let mut pend: Vec<Option<Team>> = Vec::new();
    let mut k: usize = 0;
    while k < n
        invariant
            k <= n == snap@.len(),
            players@ == snap@.subrange(0, k as int),
            pend@.len() == k,
            forall|v: int| 0 <= v < k ==> pend@[v] == None::<Team>,
        decreases n - k,
    {
        players.push(snap[k]);
        pend.push(None);
        k = k + 1;
    }
    assert(players@ =~= snap@);
    let ghost s = snap@;
    let ghost j = jitter@;
    let ghost wi = w as int;
    let ghost hi = h as int;
    let mut i: usize = 0;
    while i < n
        invariant
            i <= n == players@.len() == s.len() == pend@.len(),
            snap@ == s,
            s == snap@,
            jitter@ == j,
            wi == w as int,
            hi == h as int,
            jitter_wf(j, n as int),
            coords_ok(s),
            0 <= w <= MAX_COORD,
            0 <= h <= MAX_COORD,
            forall|q: int| 0 <= q < i ==> players@[q] == #[trigger] update_agent(s, j, q, dt, now, wi, hi).0,
            forall|q: int| i <= q < n ==> players@[q] == s[q],
            forall|v: int| 0 <= v < n ==> pend@[v] == #[trigger] pending(s, j, dt, now, wi, hi, i as int, v),
        decreases n - i,
    {
        let ji = jitter[i];
        assert(-JITTER_MAX <= j[i as int].0 <= JITTER_MAX && -JITTER_MAX <= j[i as int].1 <= JITTER_MAX);
        let (p, conv) = update_player(&snap, i, ji.0, ji.1, dt, now, w, h);
        assert(ji == j[i as int]);
        assert(p == update_agent(s, j, i as int, dt, now, wi, hi).0);
        assert(conv == update_agent(s, j, i as int, dt, now, wi, hi).1);
        players.set(i, p);
        if let Some(v) = conv {
            pend.set(v, Some(snap[i].team));
        }
        assert forall|v: int| 0 <= v < n implies pend@[v] == #[trigger] pending(s, j, dt, now, wi, hi, i + 1, v) by {
            assert(pending(s, j, dt, now, wi, hi, i + 1, v) == if update_agent(s, j, i as int, dt, now, wi, hi).1 == Some(v as usize) {
                Some(s[i as int].team)
            } else {
                pending(s, j, dt, now, wi, hi, i as int, v)
            });
        }
        i = i + 1;
    }
    let mut v: usize = 0;
    while v < n
        invariant
            v <= n == players@.len() == s.len() == pend@.len(),
            s == snap@,
            forall|q: int| 0 <= q < v ==> players@[q] == #[trigger] settled(s, j, dt, now, wi, hi, q),
            forall|q: int| v <= q < n ==> players@[q] == #[trigger] update_agent(s, j, q, dt, now, wi, hi).0,
            forall|q: int| 0 <= q < n ==> pend@[q] == #[trigger] pending(s, j, dt, now, wi, hi, n as int, q),
        decreases n - v,
    {
        if let Some(t) = pend[v] {
            let p = players[v];
            players.set(v, Player { team: t, last_switched: now, attacking: None, ..p });
        }
        v = v + 1;
    }
    let mut m: usize = 0;
    while m < spawns.len()
        invariant
            m <= spawns@.len(),
            n + spawns@.len() <= usize::MAX,
            players@.len() == n + m,
            s == snap@,
            n == s.len(),
            0 <= w <= MAX_COORD,
            0 <= h <= MAX_COORD,
            wi == w as int,
            hi == h as int,
            forall|q: int| 0 <= q < n ==> players@[q] == #[trigger] settled(s, j, dt, now, wi, hi, q),
            forall|q: int| n <= q < n + m ==> players@[q] == spawned(spawns@[q - n], now, wi, hi),
        decreases spawns@.len() - m,
    {
        let sp = spawns[m];
        players.push(Player::new(sp.team, clamp_coord(sp.x as i128, w), clamp_coord(sp.y as i128, h), now));
        assert(players@[n + m] == spawned(spawns@[m as int], now, wi, hi));
        m = m + 1;
    }
    assert(players@ =~= step_spec(s, j, dt, now, wi, hi, spawns@));
    players
}

} // verus!
