//! Agents, and the mathematical statement of one simulation step.
use vstd::prelude::*;

use crate::geometry::{clamp, dist2, root, scale_component};

verus! {

/// Minimum time between two team changes of one agent, in milliseconds.
pub const COOLDOWN_MS: u64 = 150;

/// Largest jitter of one coordinate in one step, in units.
pub const JITTER_MAX: i64 = 1000;

/// Pursuit speed, in pixels per second (equally, units per millisecond).
pub const PURSUIT_SPEED: u64 = 30;

/// Separation speed, in pixels per second (equally, units per millisecond).
pub const SEPARATION_SPEED: u64 = 20;

/// A pursuer steps toward its victim only while farther than this, in units.
pub const CHASE_RANGE: i64 = 20_000;

/// A pursuer converts its victim when closer than this after its step, in units.
pub const CONTACT_RANGE: i64 = 30_000;

/// Same-team agents closer than this push each other apart, in units.
pub const SEPARATION_RANGE: i64 = 40_000;

/// Largest population that a session starts with.
pub const MAX_POPULATION: usize = 10_000;

/// The three teams.
#[derive(Clone, Copy, PartialEq, Eq, Debug, Structural)]
pub enum Team {
    Rock,
    Paper,
    Scissor,
}

/// One agent: its team, its position in units, the index of the agent it pursues,
/// and the time of its last team change in milliseconds.
#[derive(Clone, Copy, Debug)]
pub struct Player {
    pub team: Team,
    pub x: i64,
    pub y: i64,
    pub attacking: Option<usize>,
    pub last_switched: u64,
}

impl Player {
    /// A new agent of `team` at `(x, y)`, pursuing no one, that last changed team at `now`.
    pub fn new(team: Team, x: i64, y: i64, now: u64) -> (r: Player)
        ensures
            r == (Player { team, x, y, attacking: None, last_switched: now }),
    {
        Player { team, x, y, attacking: None, last_switched: now }
    }
}

/// A request to add an agent of `team` at `(x, y)`.
#[derive(Clone, Copy, Debug)]
pub struct Spawn {
    pub team: Team,
    pub x: i64,
    pub y: i64,
}

/// The team drawn for the number `k` (0, 1 or 2).
pub open spec fn team_of_index(k: int) -> Team {
    if k == 0 {
        Team::Rock
    } else if k == 1 {
        Team::Paper
    } else {
        Team::Scissor
    }
}

/// More than `COOLDOWN_MS` have passed at `now` since `p` last changed team.
pub open spec fn cooled_down(p: Player, now: u64) -> bool {
    now as int - p.last_switched as int > COOLDOWN_MS as int
}

/// `q` may be chosen as a target by an agent of team `team` at time `now`.
pub open spec fn eligible(q: Player, team: Team, now: u64) -> bool {
    q.team != team && cooled_down(q, now)
}

/// Squared distance from `(x, y)` to agent `q`.
pub open spec fn dist2_to(x: int, y: int, q: Player) -> int {
    dist2(x, y, q.x as int, q.y as int)
}

/// Every coordinate lies in `[0, w] × [0, h]`.
pub open spec fn in_bounds(p: Player, w: int, h: int) -> bool {
    0 <= p.x <= w && 0 <= p.y <= h
}

/// The roster the engine can step: positions in `[0, MAX_COORD]²` and every target an
/// index of the roster.
pub open spec fn roster_wf(s: Seq<Player>) -> bool {
    forall|k: int|
        0 <= k < s.len() ==> {
            &&& in_bounds(#[trigger] s[k], crate::geometry::MAX_COORD as int, crate::geometry::MAX_COORD as int)
            &&& (s[k].attacking matches Some(t) ==> t < s.len())
        }
}

/// Jitter offsets: one pair per agent, each coordinate in `[-JITTER_MAX, JITTER_MAX]`.
pub open spec fn jitter_wf(j: Seq<(i64, i64)>, n: int) -> bool {
    &&& j.len() == n
    &&& forall|k: int|
        0 <= k < n ==> -JITTER_MAX <= (#[trigger] j[k]).0 <= JITTER_MAX && -JITTER_MAX <= j[k].1
            <= JITTER_MAX
}

/// The nearest agent among the first `k` of `snap` that is eligible for team `team`,
/// seen from `(x, y)`; of equally near ones, the first.
pub open spec fn nearest_upto(snap: Seq<Player>, team: Team, x: int, y: int, now: u64, k: int) -> Option<usize>
    decreases k,
{
    if k <= 0 {
        None
    } else {
        let best = nearest_upto(snap, team, x, y, now, k - 1);
        let q = snap[k - 1];
        if eligible(q, team, now) && (match best {
            None => true,
            Some(b) => dist2_to(x, y, q) < dist2_to(x, y, snap[b as int]),
        }) {
            Some((k - 1) as usize)
        } else {
            best
        }
    }
}

/// `p` with its position moved to `(x, y)`.
pub open spec fn placed(p: Player, x: int, y: int) -> Player {
    Player { x: x as i64, y: y as i64, ..p }
}

/// `p` after its random jitter `(jx, jy)`, held to the viewport.
pub open spec fn jittered(p: Player, jx: int, jy: int, w: int, h: int) -> Player {
    placed(p, clamp(p.x + jx, w), clamp(p.y + jy, h))
}

/// Target acquisition or pursuit of agent `p` against `snap`, with the victim it
/// converts, if any.
pub open spec fn chase(snap: Seq<Player>, p: Player, dt: u64, now: u64, w: int, h: int) -> (Player, Option<usize>) {
    match p.attacking {
        None => (Player { attacking: nearest_upto(snap, p.team, p.x as int, p.y as int, now, snap.len() as int), ..p }, None),
        Some(idx) => if idx >= snap.len() || snap[idx as int].team == p.team {
            (Player { attacking: None, ..p }, None)
        } else {
            let v = snap[idx as int];
            let d2 = dist2_to(p.x as int, p.y as int, v);
            if d2 > CHASE_RANGE * CHASE_RANGE {
                let len = root(d2);
                let speed = PURSUIT_SPEED * dt;
                let p2 = placed(
                    p,
                    clamp(p.x + scale_component(v.x - p.x, speed, len), w),
                    clamp(p.y + scale_component(v.y - p.y, speed, len), h),
                );
                if dist2_to(p2.x as int, p2.y as int, v) < CONTACT_RANGE * CONTACT_RANGE && cooled_down(v, now) {
                    (Player { attacking: None, ..p2 }, Some(idx))
                } else {
                    (p2, None)
                }
            } else {
                (p, None)
            }
        },
    }
}

/// `p` pushed away from `q` if the two are of one team and
/// closer than `SEPARATION_RANGE`; straight along the diagonal where they coincide.
pub open spec fn pushed(p: Player, q: Player, dt: u64, w: int, h: int) -> Player {
    let d2 = dist2_to(p.x as int, p.y as int, q);
    let speed = SEPARATION_SPEED * dt;
    if q.team != p.team || d2 >= SEPARATION_RANGE * SEPARATION_RANGE {
        p
    } else if d2 == 0 {
        placed(p, clamp(p.x + speed, w), clamp(p.y + speed, h))
    } else {
        let len = root(d2);
        placed(
            p,
            clamp(p.x + scale_component(p.x - q.x, speed, len), w),
            clamp(p.y + scale_component(p.y - q.y, speed, len), h),
        )
    }
}

/// `p` (agent `i` of `snap`) after separation from the first `k` agents of `snap`.
pub open spec fn separated_upto(snap: Seq<Player>, i: int, p: Player, dt: u64, w: int, h: int, k: int) -> Player
    decreases k,
{
    if k <= 0 {
        p
    } else {
        let p0 = separated_upto(snap, i, p, dt, w, h, k - 1);
        if k - 1 == i {
            p0
        } else {
            pushed(p0, snap[k - 1], dt, w, h)
        }
    }
}

/// Agent `i` after its own update in one step, with the victim it converts, if any.
pub open spec fn update_agent(snap: Seq<Player>, jit: Seq<(i64, i64)>, i: int, dt: u64, now: u64, w: int, h: int) -> (Player, Option<usize>) {
    let p1 = jittered(snap[i], jit[i].0 as int, jit[i].1 as int, w, h);
    let (p2, conv) = chase(snap, p1, dt, now, w, h);
    (separated_upto(snap, i, p2, dt, w, h, snap.len() as int), conv)
}

/// The team that victim `v` takes from the conversions of the first `k` agents: the
/// last one recorded wins.
pub open spec fn pending(snap: Seq<Player>, jit: Seq<(i64, i64)>, dt: u64, now: u64, w: int, h: int, k: int, v: int) -> Option<Team>
    decreases k,
{
    if k <= 0 {
        None
    } else if update_agent(snap, jit, k - 1, dt, now, w, h).1 == Some(v as usize) {
        Some(snap[k - 1].team)
    } else {
        pending(snap, jit, dt, now, w, h, k - 1, v)
    }
}

/// Agent `v` at the end of a step: moved, then converted if a conversion was recorded.
pub open spec fn settled(snap: Seq<Player>, jit: Seq<(i64, i64)>, dt: u64, now: u64, w: int, h: int, v: int) -> Player {
    let moved = update_agent(snap, jit, v, dt, now, w, h).0;
    match pending(snap, jit, dt, now, w, h, snap.len() as int, v) {
        Some(t) => Player { team: t, last_switched: now, attacking: None, ..moved },
        None => moved,
    }
}

/// The agent that a spawn request adds at time `now`.
pub open spec fn spawned(s: Spawn, now: u64, w: int, h: int) -> Player {
    Player {
        team: s.team,
        x: clamp(s.x as int, w) as i64,
        y: clamp(s.y as int, h) as i64,
        attacking: None,
        last_switched: now,
    }
}

/// The roster after one step from `snap`: every agent updated against `snap`, the
/// recorded conversions applied, then the spawned agents appended.
pub open spec fn step_spec(snap: Seq<Player>, jit: Seq<(i64, i64)>, dt: u64, now: u64, w: int, h: int, spawns: Seq<Spawn>) -> Seq<Player> {
    Seq::new(
        (snap.len() + spawns.len()) as nat,
        |k: int|
            if k < snap.len() {
                settled(snap, jit, dt, now, w, h, k)
            } else {
                spawned(spawns[k - snap.len()], now, w, h)
            },
    )
}

/// Number of agents of team `t` among the first `k` of `s`.
pub open spec fn count_upto(s: Seq<Player>, t: Team, k: int) -> nat
    decreases k,
{
    if k <= 0 {
        0
    } else {
        count_upto(s, t, k - 1) + if s[k - 1].team == t { 1nat } else { 0nat }
    }
}

/// Number of agents of team `t` in `s`.
pub open spec fn count_team(s: Seq<Player>, t: Team) -> nat {
    count_upto(s, t, s.len() as int)
}

} // verus!
