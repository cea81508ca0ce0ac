//! The running simulation: the agent roster and its steps.
use vstd::prelude::*;

use crate::engine::step_roster;
use crate::geometry::MAX_COORD;
use crate::laws::lemma_step_wf;
use crate::main_menu::{clamp_start, GameState, MainMenuState};
use crate::model::{
    count_team, count_upto, in_bounds, jitter_wf, roster_wf, step_spec, Player, Spawn, Team,
    JITTER_MAX, MAX_POPULATION,
};
use crate::random::{random_between, random_team};

verus! {

/// A running simulation: the roster of agents, and the population it was started with.
pub struct ClientGameState {
    players: Vec<Player>,
    population: usize,
}

impl ClientGameState {
    #[verifier::type_invariant]
    spec fn inv(&self) -> bool {
        roster_wf(self.players@)
    }

    /// The roster, in order.
    pub closed spec fn roster(&self) -> Seq<Player> {
        self.players@
    }

    /// The population the simulation was started with.
    pub closed spec fn start_population(&self) -> nat {
        self.population as nat
    }

    /// A simulation of `player_count` agents, each of a random team at a random place in
    /// the `width` × `height` viewport, with no target and switch time `now`.
    pub fn new(player_count: usize, width: i64, height: i64, now: u64) -> (r: Self)
        requires
            1 <= player_count <= MAX_POPULATION,
            0 <= width <= MAX_COORD,
            0 <= height <= MAX_COORD,
        ensures
            r.roster().len() == player_count,
            r.start_population() == player_count,
            forall|k: int| 0 <= k < player_count ==> {
                &&& in_bounds(#[trigger] r.roster()[k], width as int, height as int)
                &&& r.roster()[k].attacking is None
                &&& r.roster()[k].last_switched == now
            },
    {
        let mut players: Vec<Player> = Vec::new();
        let mut k: usize = 0;
        while k < player_count
            invariant
                k <= player_count,
                players@.len() == k,
                0 <= width <= MAX_COORD,
                0 <= height <= MAX_COORD,
                forall|q: int| 0 <= q < k ==> {
                    &&& in_bounds(#[trigger] players@[q], width as int, height as int)
                    &&& players@[q].attacking is None
                    &&& players@[q].last_switched == now
                },
            decreases player_count - k,
        {
            let team = random_team();
            let x = random_between(0, width);
            let y = random_between(0, height);
            players.push(Player::new(team, x, y, now));
            k = k + 1;
        }
        ClientGameState { players, population: player_count }
    }

    /// A simulation over the given roster, if it is well formed (positions in
    /// `[0, MAX_COORD]²`, every target an index of the roster).
    pub fn with_players(players: Vec<Player>, population: usize) -> (r: Option<Self>)
        ensures
            r is Some <==> roster_wf(players@),
            r matches Some(g) ==> g.roster() == players@ && g.start_population() == population,
    {
        let n = players.len();
        let mut k: usize = 0;
        while k < n
            invariant
                k <= n == players@.len(),
                forall|q: int| 0 <= q < k ==> {
                    &&& in_bounds(#[trigger] players@[q], MAX_COORD as int, MAX_COORD as int)
                    &&& (players@[q].attacking matches Some(t) ==> t < n)
                },
            decreases n - k,
        {
            let p = players[k];
            if p.x < 0 || p.x > MAX_COORD || p.y < 0 || p.y > MAX_COORD {
                return None;
            }
            if let Some(t) = p.attacking {
                if t >= n {
                    return None;
                }
            }
            k = k + 1;
        }
        Some(ClientGameState { players, population })
    }

    /// One step with the given jitter offsets (one pair per agent), elapsed time `dt` and
    /// time `now` in milliseconds, viewport `width` × `height`, and spawn requests.
    pub fn advance(&mut self, jitter: &Vec<(i64, i64)>, dt: u64, now: u64, width: i64, height: i64, spawns: &Vec<Spawn>)
        requires
            jitter_wf(jitter@, old(self).roster().len() as int),
            0 <= width <= MAX_COORD,
            0 <= height <= MAX_COORD,
            old(self).roster().len() + spawns@.len() <= usize::MAX,
        ensures
            final(self).roster() == step_spec(old(self).roster(), jitter@, dt, now, width as int, height as int, spawns@),
            final(self).start_population() == old(self).start_population(),
    {
        proof {
            use_type_invariant(&*self);
        }
        let next = step_roster(&self.players, jitter, dt, now, width, height, spawns);
        proof {
            lemma_step_wf(self.players@, jitter@, dt, now, width as int, height as int, spawns@);
        }
        self.players = next;
    }

    /// One step with random jitter: each agent is moved by an offset drawn from
    /// `[-JITTER_MAX, JITTER_MAX]²`, then the step goes on as in `advance`.
    pub fn step(&mut self, dt: u64, now: u64, width: i64, height: i64, spawns: &Vec<Spawn>)
        requires
            0 <= width <= MAX_COORD,
            0 <= height <= MAX_COORD,
            old(self).roster().len() + spawns@.len() <= usize::MAX,
        ensures
            exists|j: Seq<(i64, i64)>|
                jitter_wf(j, old(self).roster().len() as int) && final(self).roster() == step_spec(
                    old(self).roster(),
                    j,
                    dt,
                    now,
                    width as int,
                    height as int,
                    spawns@,
                ),
            final(self).start_population() == old(self).start_population(),
    {
        let n = self.players.len();
        let mut jitter: Vec<(i64, i64)> = Vec::new();
        let mut k: usize = 0;
        while k < n
            invariant
                k <= n,
                jitter_wf(jitter@, k as int),
            decreases n - k,
        {
            let jx = random_between(-JITTER_MAX, JITTER_MAX);
            let jy = random_between(-JITTER_MAX, JITTER_MAX);
            jitter.push((jx, jy));
            k = k + 1;
        }
        self.advance(&jitter, dt, now, width, height, spawns);
    }

    /// One frame of the session: back to the menu, with the starting population, if
    /// `disconnect` is set; otherwise one `step` and on with the simulation.
    pub fn tick(self, dt: u64, now: u64, width: i64, height: i64, spawns: &Vec<Spawn>, disconnect: bool) -> (r: GameState)
        requires
            0 <= width <= MAX_COORD,
            0 <= height <= MAX_COORD,
            self.roster().len() + spawns@.len() <= usize::MAX,
        ensures
            match r {
                GameState::MainMenu(m) => disconnect && m.population_spec() == clamp_start(self.start_population() as int),
                GameState::InGame(g) => !disconnect && g.start_population() == self.start_population()
                && exists|j: Seq<(i64, i64)>|
                    jitter_wf(j, self.roster().len() as int) && g.roster() == step_spec(
                        self.roster(),
                        j,
                        dt,
                        now,
                        width as int,
                        height as int,
                        spawns@,
                    ),
            },
    {
        if disconnect {
            GameState::MainMenu(MainMenuState::with_population(self.population))
        } else {
            let mut g = self;
            g.step(dt, now, width, height, spawns);
            GameState::InGame(g)
        }
    }

    /// The number of agents of each team: Rock, Paper, Scissor.
    pub fn team_counts(&self) -> (r: (usize, usize, usize))
        ensures
            r.0 == count_team(self.roster(), Team::Rock),
            r.1 == count_team(self.roster(), Team::Paper),
            r.2 == count_team(self.roster(), Team::Scissor),
    {
        let n = self.players.len();
        let mut rock: usize = 0;
        let mut paper: usize = 0;
        let mut scissor: usize = 0;
        let mut k: usize = 0;
        while k < n
            invariant
                k <= n == self.players@.len(),
                rock == count_upto(self.players@, Team::Rock, k as int),
                paper == count_upto(self.players@, Team::Paper, k as int),
                scissor == count_upto(self.players@, Team::Scissor, k as int),
                rock + paper + scissor == k,
            decreases n - k,
        {
            match self.players[k].team {
                Team::Rock => rock = rock + 1,
                Team::Paper => paper = paper + 1,
                Team::Scissor => scissor = scissor + 1,
            }
            k = k + 1;
        }
        (rock, paper, scissor)
    }

    /// The roster, for drawing.
    pub fn players(&self) -> (r: &Vec<Player>)
        ensures
            r@ == self.roster(),
    {
        &self.players
    }

    /// The population the simulation was started with.
    pub fn population(&self) -> (r: usize)
        ensures
            r == self.start_population(),
    {
        self.population
    }
}

} // verus!
