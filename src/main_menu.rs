//! The session: a menu that holds the starting population, and the simulation it starts.
use vstd::prelude::*;

use crate::game::ClientGameState;
use crate::geometry::MAX_COORD;
use crate::model::{in_bounds, MAX_POPULATION};

verus! {

/// Population the menu offers first.
pub const DEFAULT_POPULATION: usize = 50;

/// `n` held to `[1, MAX_POPULATION]`.
pub open spec fn clamp_start(n: int) -> int {
    if n < 1 {
        1
    } else if n > MAX_POPULATION {
        MAX_POPULATION as int
    } else {
        n
    }
}

/// The menu: the population of the next simulation.
pub struct MainMenuState {
    population: usize,
}

/// The two states of a session.
pub enum GameState {
    MainMenu(MainMenuState),
    InGame(ClientGameState),
}

impl MainMenuState {
    #[verifier::type_invariant]
    spec fn inv(&self) -> bool {
        1 <= self.population <= MAX_POPULATION
    }

    /// The population the menu holds.
    pub closed spec fn population_spec(&self) -> int {
        self.population as int
    }

    /// The menu as a session starts: population `DEFAULT_POPULATION`.
    pub fn new() -> (r: Self)
        ensures
            r.population_spec() == DEFAULT_POPULATION,
    {
        MainMenuState { population: DEFAULT_POPULATION }
    }

    /// The menu holding `n`, held to `[1, MAX_POPULATION]`.
    pub fn with_population(n: usize) -> (r: Self)
        ensures
            r.population_spec() == clamp_start(n as int),
    {
        let population = if n < 1 {
            1
        } else if n > MAX_POPULATION {
            MAX_POPULATION
        } else {
            n
        };
        MainMenuState { population }
    }

    /// The population the menu holds.
    pub fn population(&self) -> (r: usize)
        ensures
            r == self.population_spec(),
            1 <= r <= MAX_POPULATION,
    {
        proof {
            use_type_invariant(self);
        }
        self.population
    }

    /// One frame of the menu: the population becomes `requested`, held to
    /// `[1, MAX_POPULATION]`; if `begin` is set a simulation of that many agents starts
    /// in the `width` × `height` viewport at time `now`, else the menu stays.
    pub fn tick(self, requested: usize, begin: bool, width: i64, height: i64, now: u64) -> (r: GameState)
        requires
            0 <= width <= MAX_COORD,
            0 <= height <= MAX_COORD,
        ensures
            match r {
                GameState::MainMenu(m) => !begin && m.population_spec() == clamp_start(requested as int),
                GameState::InGame(g) => begin && g.start_population() == clamp_start(requested as int)
                && g.roster().len() == clamp_start(requested as int)
                && forall|k: int| 0 <= k < g.roster().len() ==> {
                    &&& in_bounds(#[trigger] g.roster()[k], width as int, height as int)
                    &&& g.roster()[k].attacking is None
                    &&& g.roster()[k].last_switched == now
                },
            },
    {
        let menu = MainMenuState::with_population(requested);
        if begin {
            let n = menu.population();
            GameState::InGame(ClientGameState::new(n, width, height, now))
        } else {
            GameState::MainMenu(menu)
        }
    }
}

} // verus!
