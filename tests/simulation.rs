use rock_paper_scissors::engine::find_target;
use rock_paper_scissors::geometry::{clamp_coord, isqrt, scale_toward, MAX_COORD};
use rock_paper_scissors::model::{COOLDOWN_MS, JITTER_MAX};
use rock_paper_scissors::random::team_from_index;
use rock_paper_scissors::{ClientGameState, GameState, MainMenuState, Player, Spawn, Team};

const PX: i64 = 1000;
const W: i64 = 800 * PX;
const H: i64 = 600 * PX;

fn agent(team: Team, x: i64, y: i64, attacking: Option<usize>, last_switched: u64) -> Player {
    Player { team, x, y, attacking, last_switched }
}

fn game(players: Vec<Player>) -> ClientGameState {
    ClientGameState::with_players(players, 50).expect("well-formed roster")
}

fn still(n: usize) -> Vec<(i64, i64)> {
    vec![(0, 0); n]
}

fn dist2(a: &Player, b: &Player) -> i64 {
    (a.x - b.x) * (a.x - b.x) + (a.y - b.y) * (a.y - b.y)
}

#[test]
fn pursuer_in_contact_converts_victim() {
    let mut g = game(vec![
        agent(Team::Rock, 100 * PX, 100 * PX, Some(1), 0),
        agent(Team::Scissor, 125 * PX, 100 * PX, None, 0),
    ]);
    g.advance(&still(2), 16, 1000, W, H, &vec![]);
    let p = g.players();
    assert_eq!(p[1].team, Team::Rock);
    assert_eq!(p[1].last_switched, 1000);
    assert_eq!(p[1].attacking, None);
    assert_eq!(p[0].attacking, None);
    assert_eq!(p[0].x, 100 * PX + 30 * 16);
    assert_eq!(p[0].y, 100 * PX);
}

#[test]
fn pursuer_in_contact_converts_victim_with_jitter() {
    let mut g = game(vec![
        agent(Team::Rock, 100 * PX, 100 * PX, Some(1), 0),
        agent(Team::Scissor, 125 * PX, 100 * PX, None, 0),
    ]);
    g.step(16, 1000, W, H, &vec![]);
    assert_eq!(g.players()[1].team, Team::Rock);
    assert_eq!(g.players()[1].last_switched, 1000);
}

#[test]
fn victim_within_cooldown_is_not_converted() {
    let mut g = game(vec![
        agent(Team::Rock, 100 * PX, 100 * PX, Some(1), 0),
        agent(Team::Scissor, 125 * PX, 100 * PX, None, 1000 - COOLDOWN_MS),
    ]);
    g.advance(&still(2), 16, 1000, W, H, &vec![]);
    let p = g.players();
    assert_eq!(p[1].team, Team::Scissor);
    assert_eq!(p[1].last_switched, 1000 - COOLDOWN_MS);
    assert_eq!(p[0].attacking, Some(1));
}

#[test]
fn far_pursuer_steps_toward_victim() {
    let mut g = game(vec![
        agent(Team::Paper, 100 * PX, 100 * PX, Some(1), 0),
        agent(Team::Rock, 100 * PX, 300 * PX, None, 0),
    ]);
    g.advance(&still(2), 100, 1000, W, H, &vec![]);
    let p = g.players();
    assert_eq!(p[0].y, 100 * PX + 3000);
    assert_eq!(p[0].x, 100 * PX);
    assert_eq!(p[0].attacking, Some(1));
    assert_eq!(p[1].team, Team::Rock);
}

#[test]
fn close_pursuer_holds_position() {
    let mut g = game(vec![
        agent(Team::Paper, 100 * PX, 100 * PX, Some(1), 0),
        agent(Team::Rock, 110 * PX, 100 * PX, None, 0),
    ]);
    g.advance(&still(2), 100, 1000, W, H, &vec![]);
    let p = g.players();
    assert_eq!((p[0].x, p[0].y), (100 * PX, 100 * PX));
    assert_eq!(p[1].team, Team::Rock);
    assert_eq!(p[0].attacking, Some(1));
}

#[test]
fn target_of_own_team_is_dropped() {
    let mut g = game(vec![
        agent(Team::Paper, 100 * PX, 100 * PX, Some(1), 0),
        agent(Team::Paper, 300 * PX, 100 * PX, None, 0),
    ]);
    g.advance(&still(2), 16, 1000, W, H, &vec![]);
    assert_eq!(g.players()[0].attacking, None);
}

#[test]
fn idle_agent_acquires_nearest_eligible_target() {
    let mut g = game(vec![
        agent(Team::Rock, 100 * PX, 100 * PX, None, 0),
        agent(Team::Paper, 400 * PX, 100 * PX, None, 0),
        agent(Team::Rock, 110 * PX, 100 * PX, None, 0),
        agent(Team::Scissor, 200 * PX, 100 * PX, None, 950),
        agent(Team::Paper, 300 * PX, 100 * PX, None, 0),
    ]);
    g.advance(&still(5), 16, 1000, W, H, &vec![]);
    assert_eq!(g.players()[0].attacking, Some(4));
}

#[test]
fn nearest_target_ties_go_to_first_index() {
    let snap = vec![
        agent(Team::Paper, 200 * PX, 100 * PX, None, 0),
        agent(Team::Scissor, 0, 100 * PX, None, 0),
        agent(Team::Rock, 100 * PX, 100 * PX, None, 0),
    ];
    assert_eq!(find_target(&snap, Team::Rock, 100 * PX, 100 * PX, 1000), Some(0));
    assert_eq!(find_target(&snap, Team::Rock, 100 * PX, 100 * PX, 1000), Some(0));
    assert_eq!(find_target(&snap, Team::Paper, 100 * PX, 100 * PX, 1000), Some(2));
    assert_eq!(find_target(&snap, Team::Rock, 10 * PX, 100 * PX, 1000), Some(1));
}

#[test]
fn no_eligible_target_leaves_none() {
    let snap = vec![
        agent(Team::Rock, 0, 0, None, 0),
        agent(Team::Paper, 10, 0, None, 990),
    ];
    assert_eq!(find_target(&snap, Team::Rock, 0, 0, 1000), None);
    assert_eq!(find_target(&vec![], Team::Rock, 0, 0, 1000), None);
}

#[test]
fn same_team_agents_ten_apart_separate() {
    let a = agent(Team::Rock, 100 * PX, 100 * PX, None, 0);
    let b = agent(Team::Rock, 110 * PX, 100 * PX, None, 0);
    let mut g = game(vec![a, b]);
    g.advance(&still(2), 16, 1000, W, H, &vec![]);
    let p = g.players();
    assert!(dist2(&p[0], &p[1]) > dist2(&a, &b));
    assert_eq!(p[0].x, 100 * PX - 20 * 16);
    assert_eq!(p[1].x, 110 * PX + 20 * 16);
}

#[test]
fn coinciding_teammates_push_along_diagonal() {
    let mut g = game(vec![
        agent(Team::Scissor, 100 * PX, 100 * PX, None, 0),
        agent(Team::Scissor, 100 * PX, 100 * PX, None, 0),
    ]);
    g.advance(&still(2), 10, 1000, W, H, &vec![]);
    let p = g.players();
    assert_eq!((p[0].x, p[0].y), (100 * PX + 200, 100 * PX + 200));
    assert_eq!((p[1].x, p[1].y), (100 * PX + 200, 100 * PX + 200));
}

#[test]
fn different_teams_do_not_separate() {
    let mut g = game(vec![
        agent(Team::Scissor, 100 * PX, 100 * PX, Some(1), 0),
        agent(Team::Paper, 105 * PX, 100 * PX, Some(0), 0),
    ]);
    g.advance(&still(2), 10, 1000, W, H, &vec![]);
    let p = g.players();
    assert_eq!((p[0].x, p[1].x), (100 * PX, 105 * PX));
}

#[test]
fn jitter_is_clamped_to_viewport() {
    let mut g = game(vec![agent(Team::Rock, 0, H, None, 0), agent(Team::Paper, W, 0, None, 0)]);
    g.advance(&vec![(-JITTER_MAX, JITTER_MAX), (JITTER_MAX, -JITTER_MAX)], 16, 0, W, H, &vec![]);
    let p = g.players();
    assert_eq!((p[0].x, p[0].y), (0, H));
    assert_eq!((p[1].x, p[1].y), (W, 0));
}

#[test]
fn shrunken_viewport_reclamps_positions() {
    let mut g = game(vec![agent(Team::Rock, 700 * PX, 500 * PX, None, 0)]);
    g.advance(&still(1), 16, 1000, 400 * PX, 300 * PX, &vec![]);
    let p = g.players();
    assert_eq!((p[0].x, p[0].y), (400 * PX, 300 * PX));
}

#[test]
fn random_steps_stay_in_bounds() {
    let mut g = ClientGameState::new(300, W, H, 0);
    for t in 1..30u64 {
        g.step(16, t * 16, W, H, &vec![]);
        for p in g.players() {
            assert!(0 <= p.x && p.x <= W && 0 <= p.y && p.y <= H);
            if let Some(t) = p.attacking {
                assert!(t < g.players().len());
            }
        }
    }
}

#[test]
fn spawns_append_one_agent_each() {
    let mut g = game(vec![agent(Team::Rock, 100 * PX, 100 * PX, None, 0)]);
    let spawns = vec![
        Spawn { team: Team::Paper, x: 50 * PX, y: 60 * PX },
        Spawn { team: Team::Scissor, x: -5, y: 900 * PX },
    ];
    g.advance(&still(1), 16, 1000, W, H, &spawns);
    let p = g.players();
    assert_eq!(p.len(), 3);
    assert_eq!((p[1].team, p[1].x, p[1].y, p[1].attacking, p[1].last_switched), (Team::Paper, 50 * PX, 60 * PX, None, 1000));
    assert_eq!((p[2].team, p[2].x, p[2].y), (Team::Scissor, 0, H));
    g.step(16, 1016, W, H, &vec![]);
    assert_eq!(g.players().len(), 3);
}

#[test]
fn last_recorded_conversion_wins() {
    let mut g = game(vec![
        agent(Team::Rock, 100 * PX, 100 * PX, Some(2), 0),
        agent(Team::Paper, 150 * PX, 100 * PX, Some(2), 0),
        agent(Team::Scissor, 125 * PX, 100 * PX, None, 0),
    ]);
    g.advance(&still(3), 16, 1000, W, H, &vec![]);
    let p = g.players();
    assert_eq!(p[2].team, Team::Paper);
    assert_eq!(p[2].last_switched, 1000);
}

#[test]
fn converted_agent_drops_its_target() {
    let mut g = game(vec![
        agent(Team::Rock, 100 * PX, 100 * PX, Some(1), 0),
        agent(Team::Scissor, 125 * PX, 100 * PX, Some(2), 0),
        agent(Team::Paper, 500 * PX, 100 * PX, None, 0),
    ]);
    g.advance(&still(3), 16, 1000, W, H, &vec![]);
    assert_eq!(g.players()[1].team, Team::Rock);
    assert_eq!(g.players()[1].attacking, None);
}

#[test]
fn team_counts_count_each_team() {
    let g = game(vec![
        agent(Team::Rock, 0, 0, None, 0),
        agent(Team::Paper, 0, 0, None, 0),
        agent(Team::Rock, 0, 0, None, 0),
    ]);
    assert_eq!(g.team_counts(), (2, 1, 0));
}

#[test]
fn malformed_rosters_are_refused() {
    assert!(ClientGameState::with_players(vec![agent(Team::Rock, -1, 0, None, 0)], 1).is_none());
    assert!(ClientGameState::with_players(vec![agent(Team::Rock, 0, MAX_COORD + 1, None, 0)], 1).is_none());
    assert!(ClientGameState::with_players(vec![agent(Team::Rock, 0, 0, Some(1), 0)], 1).is_none());
    assert!(ClientGameState::with_players(vec![agent(Team::Rock, 0, 0, Some(0), 0)], 1).is_some());
}

#[test]
fn new_game_places_agents_in_viewport() {
    let g = ClientGameState::new(500, W, H, 7);
    assert_eq!(g.players().len(), 500);
    assert_eq!(g.population(), 500);
    assert!(g.players().iter().all(|p| p.x >= 0 && p.x <= W && p.y >= 0 && p.y <= H));
    assert!(g.players().iter().any(|p| p.x != 0));
    assert!(g.players().iter().any(|p| p.team != Team::Rock));
    assert!(g.players().iter().all(|p| p.attacking.is_none() && p.last_switched == 7));
    let (r, p, s) = g.team_counts();
    assert_eq!(r + p + s, 500);
}

#[test]
fn teams_from_indices() {
    assert_eq!(team_from_index(0), Team::Rock);
    assert_eq!(team_from_index(1), Team::Paper);
    assert_eq!(team_from_index(2), Team::Scissor);
}

#[test]
fn geometry_helpers() {
    assert_eq!(isqrt(0), 0);
    assert_eq!(isqrt(15), 3);
    assert_eq!(isqrt(16), 4);
    assert_eq!(isqrt(625_000_000), 25_000);
    assert_eq!(isqrt(u64::MAX), 4_294_967_295);
    assert_eq!(clamp_coord(-3, 10), 0);
    assert_eq!(clamp_coord(13, 10), 10);
    assert_eq!(clamp_coord(7, 10), 7);
    assert_eq!(scale_toward(3, 10, 4), 7);
    assert_eq!(scale_toward(-3, 10, 4), -7);
}

#[test]
fn menu_starts_at_fifty() {
    assert_eq!(MainMenuState::new().population(), 50);
}

#[test]
fn menu_holds_population_in_range() {
    match MainMenuState::new().tick(0, false, W, H, 0) {
        GameState::MainMenu(m) => assert_eq!(m.population(), 1),
        GameState::InGame(_) => panic!("menu expected"),
    }
    match MainMenuState::new().tick(20_000, false, W, H, 0) {
        GameState::MainMenu(m) => assert_eq!(m.population(), 10_000),
        GameState::InGame(_) => panic!("menu expected"),
    }
}

#[test]
fn begin_then_disconnect_keeps_population() {
    let g = match MainMenuState::new().tick(12, true, W, H, 0) {
        GameState::InGame(g) => g,
        GameState::MainMenu(_) => panic!("simulation expected"),
    };
    assert_eq!(g.players().len(), 12);
    let g = match g.tick(16, 16, W, H, &vec![], false) {
        GameState::InGame(g) => g,
        GameState::MainMenu(_) => panic!("simulation expected"),
    };
    assert_eq!(g.players().len(), 12);
    match g.tick(16, 32, W, H, &vec![], true) {
        GameState::MainMenu(m) => assert_eq!(m.population(), 12),
        GameState::InGame(_) => panic!("menu expected"),
    }
}
