use sandbox::bases::{Baserunners, Runner};
use sandbox::entities::{Id, Player, Team, World};
use sandbox::events::{replay, upgrade_spicy, ApplyError, Event};
use sandbox::game::{Game, GameTeam, Weather};
use sandbox::log::Events;
use sandbox::mods::{Mod, ModLifetime, Mods};
use sandbox::sim::{inning_state_event, pitch_event, PitchOutcome};

fn id(n: u128) -> Id {
    Id { value: n }
}

fn player(n: u128, team: u128) -> Player {
    Player {
        id: id(n),
        name: format!("Player {}", n),
        team: Some(id(team)),
        mods: Mods::new(),
        feed: Events::new(),
        scattered_letters: 0,
        swept_on: None,
        attributes: vec![0; 26],
    }
}

fn team(n: u128, lineup: Vec<u128>, rotation: Vec<u128>) -> Team {
    Team {
        id: id(n),
        name: format!("Team {}", n),
        lineup: lineup.into_iter().map(id).collect(),
        rotation: rotation.into_iter().map(id).collect(),
        shadows: vec![id(9)],
        mods: Mods::new(),
        wins: 0,
        losses: 0,
        postseason_wins: 0,
        postseason_losses: 0,
        partying: false,
    }
}

fn setup() -> (Game, World) {
    let mut players = Vec::new();
    for n in 1..=4 {
        players.push(player(n, 100));
    }
    for n in 5..=8 {
        players.push(player(n, 200));
    }
    players.push(player(9, 200));
    let world = World {
        players,
        teams: vec![team(100, vec![1, 2, 3], vec![4]), team(200, vec![5, 6, 7], vec![8])],
        hall: Vec::new(),
        season_ruleset: 20,
    };
    let home = GameTeam { id: id(100), score: 0, batter: None, pitcher: id(4), batter_index: 0 };
    let away = GameTeam { id: id(200), score: 0, batter: None, pitcher: id(8), batter_index: 0 };
    (Game::new(home, away, Weather::Sun, 1), world)
}

fn runners(list: &[(u128, u8)]) -> Baserunners {
    Baserunners::from_runners(list.iter().map(|&(n, b)| Runner { id: id(n), base: b }).collect())
        .unwrap()
}

fn bases_of(game: &Game) -> Vec<(u128, u8)> {
    game.runners.runners().iter().map(|r| (r.id.value, r.base)).collect()
}

#[test]
fn add_twice_is_add_once() {
    let mut once = Mods::new();
    once.add(Mod::Spicy, ModLifetime::Permanent);
    let mut twice = Mods::new();
    twice.add(Mod::Spicy, ModLifetime::Permanent);
    twice.add(Mod::Spicy, ModLifetime::Permanent);
    assert_eq!(once.has(Mod::Spicy), twice.has(Mod::Spicy));
    assert!(twice.has(Mod::Spicy));
    assert_eq!(format!("{:?}", once), format!("{:?}", twice));
}

#[test]
fn remove_drops_every_scope() {
    let mut m = Mods::new();
    m.add(Mod::Wired, ModLifetime::Game);
    m.add(Mod::Wired, ModLifetime::Permanent);
    m.add(Mod::Tired, ModLifetime::Week);
    m.remove(Mod::Wired);
    assert!(!m.has(Mod::Wired));
    assert!(m.has(Mod::Tired));
}

#[test]
fn clears_by_scope() {
    let mut m = Mods::new();
    m.add(Mod::Wired, ModLifetime::Game);
    m.add(Mod::Tired, ModLifetime::Week);
    m.add(Mod::Spicy, ModLifetime::Season);
    m.add(Mod::Minimized, ModLifetime::LegendaryItem);
    m.add(Mod::Fireproof, ModLifetime::Permanent);
    m.clear_game();
    assert!(!m.has(Mod::Wired) && m.has(Mod::Tired));
    m.clear_weekly();
    assert!(!m.has(Mod::Tired) && m.has(Mod::Spicy));
    m.clear_season();
    assert!(!m.has(Mod::Spicy) && m.has(Mod::Minimized));
    m.clear_legendary_item();
    assert!(!m.has(Mod::Minimized));
    assert!(m.has(Mod::Fireproof));
}

fn log_of(tags: &[&str]) -> Events {
    let mut e = Events::new();
    for t in tags {
        e.add(t.to_string());
    }
    e
}

#[test]
fn log_queries_respect_half_inning_limit() {
    let e = log_of(&["Walk", "InningSwitch", "Ball", "InningSwitch", "Strike", "Ball"]);
    assert_eq!(e.len(), 6);
    assert_eq!(e.last(), "Ball");
    assert!(e.has("Ball".to_string(), 0));
    assert!(!e.has("Walk".to_string(), 0));
    assert!(!e.has("Walk".to_string(), 1));
    assert!(e.has("Walk".to_string(), 2));
    assert!(e.has("Walk".to_string(), -1));
    assert!(!e.has("Foul".to_string(), -1));
    assert_eq!(e.count("Ball".to_string(), 0), 1);
    assert_eq!(e.count("Ball".to_string(), 1), 2);
    assert_eq!(e.count("Ball".to_string(), -1), 2);
    assert_eq!(e.count("InningSwitch".to_string(), 0), 2);
    let hits = vec!["Ball".to_string(), "Strike".to_string()];
    assert_eq!(e.streak_multiple(hits.clone(), 0), 2);
    assert_eq!(e.streak_multiple(hits.clone(), 1), 3);
    let with_switch = vec!["InningSwitch".to_string()];
    assert_eq!(e.streak_multiple(with_switch.clone(), -1), 2);
    assert_eq!(e.streak_multiple(with_switch, 5), 0);
}

#[test]
fn empty_log_has_nothing() {
    let e = Events::new();
    assert_eq!(e.len(), 0);
    assert!(!e.has("Ball".to_string(), -1));
    assert_eq!(e.count("Ball".to_string(), -1), 0);
    assert_eq!(e.streak_multiple(vec!["Ball".to_string()], -1), 0);
}

#[test]
fn counts_stop_at_u8_max() {
    let mut e = Events::new();
    for _ in 0..300 {
        e.add("Ball".to_string());
    }
    assert_eq!(e.count("Ball".to_string(), -1), 255);
    assert_eq!(e.streak_multiple(vec!["Ball".to_string(), "Ball".to_string()], -1), 255);
}

#[test]
fn applied_event_appends_its_tag() {
    let (mut game, mut world) = setup();
    let e = Event::BatterUp { batter: id(5) };
    assert_eq!(e.repr(), "BatterUp");
    assert_eq!(e.apply(&mut game, &mut world), Ok(()));
    assert_eq!(game.events.len(), 1);
    assert_eq!(game.events.last(), "BatterUp");
    assert_eq!(game.batter(), Some(id(5)));
    assert!(game.started);
    assert_eq!(Event::Ball.apply(&mut game, &mut world), Ok(()));
    assert_eq!(game.events.len(), 2);
    assert_eq!(game.events.last(), "Ball");
    assert_eq!(game.balls, 1);
}

#[test]
fn three_strikes_make_a_strikeout() {
    let (mut game, mut world) = setup();
    Event::BatterUp { batter: id(5) }.apply(&mut game, &mut world).unwrap();
    let first = pitch_event(&game, &world, &PitchOutcome::StrikeSwinging, None);
    assert_eq!(first.repr(), "Strike");
    first.apply(&mut game, &mut world).unwrap();
    let second = pitch_event(&game, &world, &PitchOutcome::StrikeLooking, None);
    assert_eq!(second.repr(), "Strike");
    second.apply(&mut game, &mut world).unwrap();
    assert_eq!(game.strikes, 2);
    let third = pitch_event(&game, &world, &PitchOutcome::StrikeSwinging, None);
    assert_eq!(third.repr(), "Strikeout");
    third.apply(&mut game, &mut world).unwrap();
    assert_eq!(game.outs, 1);
    assert_eq!(game.strikes, 0);
    assert_eq!(game.balls, 0);
    assert_eq!(game.batter(), None);
    assert_eq!(game.batting_team().batter_index, 1);
}

#[test]
fn fourth_strike_batter_gets_another_strike() {
    let (mut game, mut world) = setup();
    world.players[4].mods.add(Mod::FourthStrike, ModLifetime::Permanent);
    Event::BatterUp { batter: id(5) }.apply(&mut game, &mut world).unwrap();
    game.strikes = 2;
    let e = pitch_event(&game, &world, &PitchOutcome::StrikeSwinging, None);
    assert_eq!(e.repr(), "Strike");
}

#[test]
fn foul_never_ends_the_at_bat() {
    let (mut game, mut world) = setup();
    Event::BatterUp { batter: id(5) }.apply(&mut game, &mut world).unwrap();
    game.strikes = 2;
    Event::Foul.apply(&mut game, &mut world).unwrap();
    assert_eq!(game.strikes, 2);
    game.strikes = 0;
    Event::Foul.apply(&mut game, &mut world).unwrap();
    assert_eq!(game.strikes, 1);
}

#[test]
fn ball_four_walks_or_walks_on_instinct() {
    let (mut game, mut world) = setup();
    Event::BatterUp { batter: id(5) }.apply(&mut game, &mut world).unwrap();
    game.balls = 3;
    assert_eq!(pitch_event(&game, &world, &PitchOutcome::Ball, Some(true)).repr(), "Walk");
    world.players[4].mods.add(Mod::BaseInstincts, ModLifetime::Permanent);
    let e = pitch_event(&game, &world, &PitchOutcome::Ball, Some(true));
    assert_eq!(e.repr(), "InstinctWalk");
    assert_eq!(pitch_event(&game, &world, &PitchOutcome::Ball, None).repr(), "Walk");
    game.balls = 2;
    assert_eq!(pitch_event(&game, &world, &PitchOutcome::Ball, None).repr(), "Ball");
}

#[test]
fn base_hit_takes_runners_after_verbatim() {
    let (mut game, mut world) = setup();
    game.runners = runners(&[(5, 0)]);
    Event::BatterUp { batter: id(6) }.apply(&mut game, &mut world).unwrap();
    let hit = Event::BaseHit { bases: 1, runners_after: runners(&[(5, 1)]) };
    hit.apply(&mut game, &mut world).unwrap();
    assert_eq!(bases_of(&game), vec![(5, 1), (6, 0)]);
    assert_eq!(game.scoreboard.away_team.score, 0);
    assert_eq!(world.players[5].feed.last(), "BaseHit");
}

#[test]
fn single_from_pitch_moves_runners_one_base() {
    let (mut game, mut world) = setup();
    game.runners = runners(&[(5, 2), (6, 0)]);
    Event::BatterUp { batter: id(7) }.apply(&mut game, &mut world).unwrap();
    let e = pitch_event(&game, &world, &PitchOutcome::Single { advancing_runners: vec![id(5)] }, None);
    assert_eq!(e.repr(), "BaseHit");
    e.apply(&mut game, &mut world).unwrap();
    assert_eq!(bases_of(&game), vec![(6, 1), (7, 0)]);
    assert_eq!(game.scoreboard.away_team.score, 10);
    assert_eq!(game.scoring_plays_inning, 1);
}

#[test]
fn home_run_scores_everyone() {
    let (mut game, mut world) = setup();
    game.runners = runners(&[(5, 2), (6, 0)]);
    Event::BatterUp { batter: id(7) }.apply(&mut game, &mut world).unwrap();
    Event::HomeRun.apply(&mut game, &mut world).unwrap();
    assert!(game.runners.empty());
    assert_eq!(game.scoreboard.away_team.score, 30);
    assert_eq!(game.scoreboard.home_team.score, 0);
}

#[test]
fn walk_forces_only_the_chain() {
    let (mut game, mut world) = setup();
    game.runners = runners(&[(5, 2), (6, 0)]);
    Event::BatterUp { batter: id(7) }.apply(&mut game, &mut world).unwrap();
    Event::Walk.apply(&mut game, &mut world).unwrap();
    assert_eq!(bases_of(&game), vec![(5, 2), (6, 1), (7, 0)]);
}

#[test]
fn walk_with_every_base_full_forces_every_runner() {
    let (mut game, mut world) = setup();
    game.runners = runners(&[(1, 3), (2, 2), (3, 1), (4, 0)]);
    Event::BatterUp { batter: id(7) }.apply(&mut game, &mut world).unwrap();
    Event::Walk.apply(&mut game, &mut world).unwrap();
    assert_eq!(bases_of(&game), vec![(2, 3), (3, 2), (4, 1), (7, 0)]);
    assert_eq!(game.scoreboard.away_team.score, 10);
}

#[test]
fn double_play_adds_two_outs() {
    let (mut game, mut world) = setup();
    game.runners = runners(&[(5, 0)]);
    Event::BatterUp { batter: id(6) }.apply(&mut game, &mut world).unwrap();
    let e = pitch_event(&game, &world, &PitchOutcome::DoublePlay { runner_out: 0 }, None);
    e.apply(&mut game, &mut world).unwrap();
    assert_eq!(game.outs, 2);
    assert!(game.runners.empty());
}

#[test]
fn three_outs_end_the_half_inning() {
    let (mut game, _world) = setup();
    game.outs = 2;
    assert!(inning_state_event(&game).is_none());
    game.outs = 3;
    let e = inning_state_event(&game).unwrap();
    assert_eq!(e.repr(), "InningSwitch");
    match e {
        Event::InningSwitch { inning, top } => {
            assert_eq!(inning, 1);
            assert!(!top);
        }
        _ => panic!("expected an inning switch"),
    }
}

#[test]
fn inning_switch_resets_the_field() {
    let (mut game, mut world) = setup();
    game.runners = runners(&[(5, 1)]);
    game.outs = 3;
    let e = inning_state_event(&game).unwrap();
    e.apply(&mut game, &mut world).unwrap();
    assert_eq!(game.outs, 0);
    assert!(game.runners.empty());
    assert!(!game.scoreboard.top);
}

#[test]
fn home_lead_after_ninth_top_ends_the_match() {
    let (mut game, mut world) = setup();
    game.inning = 9;
    game.outs = 3;
    game.scoreboard.home_team.score = 20;
    game.scoreboard.away_team.score = 10;
    let e = inning_state_event(&game).unwrap();
    assert_eq!(e.repr(), "GameOver");
    e.apply(&mut game, &mut world).unwrap();
    assert_eq!(world.teams[0].wins, 1);
    assert_eq!(world.teams[1].losses, 1);
}

#[test]
fn tied_ninth_goes_to_extra_half() {
    let (mut game, _world) = setup();
    game.inning = 9;
    game.outs = 3;
    game.scoreboard.top = false;
    let e = inning_state_event(&game).unwrap();
    match e {
        Event::InningSwitch { inning, top } => {
            assert_eq!(inning, 10);
            assert!(top);
        }
        _ => panic!("expected an inning switch"),
    }
}

#[test]
fn unknown_player_is_not_applicable() {
    let (mut game, mut world) = setup();
    let e = Event::Party { target: id(999), boosts: vec![1; 26] };
    assert!(!e.applicable(&game, &world));
    assert_eq!(e.apply(&mut game, &mut world), Err(ApplyError::NotApplicable));
    assert_eq!(game.events.len(), 0);
}

#[test]
fn party_boosts_attributes() {
    let (mut game, mut world) = setup();
    Event::Party { target: id(1), boosts: vec![40000; 25] }.apply(&mut game, &mut world).unwrap();
    assert_eq!(world.players[0].attributes[0], 40000);
    assert_eq!(world.players[0].attributes[25], 0);
}

#[test]
fn strikeout_without_batter_is_not_applicable() {
    let (mut game, mut world) = setup();
    assert_eq!(Event::Strikeout.apply(&mut game, &mut world), Err(ApplyError::NotApplicable));
}

#[test]
fn replaying_a_log_is_deterministic() {
    let log = || {
        vec![
            Event::BatterUp { batter: id(5) },
            Event::Ball,
            Event::Strike,
            Event::Walk,
            Event::BatterUp { batter: id(6) },
            Event::Party { target: id(6), boosts: vec![5; 26] },
            Event::HomeRun,
            Event::BatterUp { batter: id(7) },
            Event::Strikeout,
        ]
    };
    let (mut g1, mut w1) = setup();
    let (mut g2, mut w2) = setup();
    assert_eq!(replay(&mut g1, &mut w1, &log()), Ok(()));
    assert_eq!(replay(&mut g2, &mut w2, &log()), Ok(()));
    assert_eq!(format!("{:?}", g1), format!("{:?}", g2));
    assert_eq!(format!("{:?}", w1), format!("{:?}", w2));
    assert_eq!(g1.scoreboard.away_team.score, 20);
    assert_eq!(g1.outs, 1);
    assert_eq!(g1.events.len(), 9);
}

#[test]
fn replay_stops_when_the_state_has_no_room() {
    let (mut game, mut world) = setup();
    game.outs = 251;
    assert_eq!(replay(&mut game, &mut world, &vec![Event::Ball]), Err(ApplyError::NotReady));
}

#[test]
fn spicy_batter_heats_up_on_a_hit() {
    let (mut game, mut world) = setup();
    world.players[4].mods.add(Mod::Spicy, ModLifetime::Permanent);
    world.players[4].feed.add("BaseHit".to_string());
    Event::BatterUp { batter: id(5) }.apply(&mut game, &mut world).unwrap();
    upgrade_spicy(&mut game, &mut world);
    assert!(world.players[4].mods.has(Mod::HeatingUp));
    world.players[4].feed.add("HomeRun".to_string());
    upgrade_spicy(&mut game, &mut world);
    assert!(world.players[4].mods.has(Mod::RedHot));
    assert!(!world.players[4].mods.has(Mod::HeatingUp));
}

#[test]
fn feedback_swaps_players() {
    let (mut game, mut world) = setup();
    Event::BatterUp { batter: id(5) }.apply(&mut game, &mut world).unwrap();
    Event::Feedback { target1: id(5), target2: id(2) }.apply(&mut game, &mut world).unwrap();
    assert_eq!(game.batter(), Some(id(2)));
    assert_eq!(world.teams[0].lineup[1], id(5));
    assert_eq!(world.teams[1].lineup[0], id(2));
    assert_eq!(world.players[1].team, Some(id(200)));
}

#[test]
fn baserunner_operations() {
    assert!(Baserunners::from_runners(vec![Runner { id: id(1), base: 0 }, Runner { id: id(2), base: 1 }]).is_none());
    let mut r = runners(&[(1, 1), (2, 0)]);
    assert!(r.occupied(1) && !r.occupied(2));
    assert!(r.can_advance(1) && !r.can_advance(0));
    assert_eq!(r.at(0), Some(id(2)));
    assert!(r.contains(id(1)));
    r.advance(0);
    assert_eq!(r.len(), 2);
    r.advance(1);
    r.advance(0);
    let v: Vec<(u128, u8)> = r.runners().iter().map(|x| (x.id.value, x.base)).collect();
    assert_eq!(v, vec![(1, 2), (2, 1)]);
    r.walk_instincts(true);
    let v: Vec<(u128, u8)> = r.runners().iter().map(|x| (x.id.value, x.base)).collect();
    assert_eq!(v, vec![(1, 4), (2, 3)]);
    assert_eq!(r.score(4), 1);
    r.remove(3);
    assert!(r.empty());
}

#[test]
fn advance_if_waits_for_a_free_base() {
    let mut r = runners(&[(1, 2), (2, 1)]);
    r.advance_if(&vec![id(2)]);
    let v: Vec<(u128, u8)> = r.runners().iter().map(|x| (x.id.value, x.base)).collect();
    assert_eq!(v, vec![(1, 2), (2, 1)]);
    r.advance_if(&vec![id(1), id(2)]);
    let v: Vec<(u128, u8)> = r.runners().iter().map(|x| (x.id.value, x.base)).collect();
    assert_eq!(v, vec![(1, 3), (2, 2)]);
}

use sandbox::chain::{leading_event, poll_for_mod, pregame_event, Exclusion, Provider};
use sandbox::pitch::{pitch_step, PitchAnswer, PitchQuery, PitchStep};

fn resolve(game: &Game, world: &World, rolls: &[PitchAnswer]) -> PitchStep {
    pitch_step(game, world, &rolls.to_vec())
}

#[test]
fn hit_by_pitch_records_the_tag() {
    let (mut game, mut world) = setup();
    Event::BatterUp { batter: id(5) }.apply(&mut game, &mut world).unwrap();
    Event::HitByPitch { target: id(5), hbp_type: 1 }.apply(&mut game, &mut world).unwrap();
    assert_eq!(world.players[4].feed.last(), "HitByPitch");
    assert!(world.players[4].mods.has(Mod::Flickering));
    assert_eq!(bases_of(&game), vec![(5, 0)]);
}

#[test]
fn steal_moves_one_runner_and_cannot_score() {
    let (mut game, mut world) = setup();
    game.runners = runners(&[(5, 1)]);
    Event::BaseSteal { runner: id(5), base_from: 1, base_to: 2 }.apply(&mut game, &mut world).unwrap();
    assert_eq!(bases_of(&game), vec![(5, 2)]);
    game.runners = runners(&[(5, 3)]);
    let home = Event::BaseSteal { runner: id(5), base_from: 3, base_to: 4 };
    assert_eq!(home.apply(&mut game, &mut world), Err(ApplyError::NotApplicable));
    assert_eq!(game.scoreboard.away_team.score, 0);
}

#[test]
fn salmon_needs_empty_bases() {
    let (mut game, mut world) = setup();
    game.runners = runners(&[(5, 1)]);
    let e = Event::Salmon { home_runs_lost: false, away_runs_lost: false };
    assert_eq!(e.apply(&mut game, &mut world), Err(ApplyError::NotApplicable));
    game.runners = Baserunners::new();
    assert_eq!(e.apply(&mut game, &mut world), Ok(()));
}

#[test]
fn pitch_tree_asks_in_order() {
    let (mut game, mut world) = setup();
    Event::BatterUp { batter: id(5) }.apply(&mut game, &mut world).unwrap();
    match resolve(&game, &world, &[]) {
        PitchStep::Ask(PitchQuery::Strike { flinching }) => assert!(!flinching),
        other => panic!("unexpected {:?}", other),
    }
    match resolve(&game, &world, &[PitchAnswer::Roll(true)]) {
        PitchStep::Ask(PitchQuery::Swing { strike }) => assert!(strike),
        other => panic!("unexpected {:?}", other),
    }
    match resolve(&game, &world, &[PitchAnswer::Roll(true), PitchAnswer::Roll(false)]) {
        PitchStep::Done(PitchOutcome::StrikeLooking) => {}
        other => panic!("unexpected {:?}", other),
    }
    match resolve(&game, &world, &[PitchAnswer::Roll(false), PitchAnswer::Roll(true), PitchAnswer::Roll(false)]) {
        PitchStep::Done(PitchOutcome::StrikeSwinging) => {}
        other => panic!("unexpected {:?}", other),
    }
    let hit = [PitchAnswer::Roll(true), PitchAnswer::Roll(true), PitchAnswer::Roll(true), PitchAnswer::Roll(false), PitchAnswer::Fielder(id(2)), PitchAnswer::Roll(false), PitchAnswer::Roll(false), PitchAnswer::Fielder(id(3)), PitchAnswer::Roll(true), PitchAnswer::Roll(true)];
    match resolve(&game, &world, &hit) {
        PitchStep::Done(PitchOutcome::Triple { advancing_runners }) => assert!(advancing_runners.is_empty()),
        other => panic!("unexpected {:?}", other),
    }
}

#[test]
fn flinching_batter_never_swings() {
    let (mut game, mut world) = setup();
    world.players[4].mods.add(Mod::Flinch, ModLifetime::Permanent);
    Event::BatterUp { batter: id(5) }.apply(&mut game, &mut world).unwrap();
    match resolve(&game, &world, &[PitchAnswer::Roll(false)]) {
        PitchStep::Done(PitchOutcome::Ball) => {}
        other => panic!("unexpected {:?}", other),
    }
}

#[test]
fn two_out_fly_asks_no_advancement() {
    let (mut game, mut world) = setup();
    game.outs = 2;
    game.runners = runners(&[(6, 1)]);
    Event::BatterUp { batter: id(5) }.apply(&mut game, &mut world).unwrap();
    let a = [PitchAnswer::Roll(true), PitchAnswer::Roll(true), PitchAnswer::Roll(true), PitchAnswer::Roll(false), PitchAnswer::Fielder(id(2)), PitchAnswer::Roll(true), PitchAnswer::Fielder(id(3)), PitchAnswer::Roll(true)];
    match resolve(&game, &world, &a) {
        PitchStep::Done(PitchOutcome::Flyout { fielder, advancing_runners }) => {
            assert_eq!(fielder, id(3));
            assert!(advancing_runners.is_empty());
        }
        other => panic!("unexpected {:?}", other),
    }
}

#[test]
fn three_strike_draws_make_a_strikeout() {
    let (mut game, mut world) = setup();
    Event::BatterUp { batter: id(5) }.apply(&mut game, &mut world).unwrap();
    let swinging_strike = [PitchAnswer::Roll(true), PitchAnswer::Roll(true), PitchAnswer::Roll(false)];
    let mut tags = Vec::new();
    for _ in 0..3 {
        let outcome = match resolve(&game, &world, &swinging_strike) {
            PitchStep::Done(o) => o,
            other => panic!("unexpected {:?}", other),
        };
        let e = pitch_event(&game, &world, &outcome, None);
        tags.push(e.repr());
        e.apply(&mut game, &mut world).unwrap();
    }
    assert_eq!(tags, vec!["Strike", "Strike", "Strikeout"]);
}

#[test]
fn poll_finds_modified_players() {
    let (game, mut world) = setup();
    world.players[1].mods.add(Mod::Perk, ModLifetime::Permanent);
    world.players[7].mods.add(Mod::Perk, ModLifetime::Permanent);
    assert_eq!(poll_for_mod(&game, &world, Mod::Perk, Exclusion::Current), Some(vec![id(2), id(8)]));
    assert_eq!(poll_for_mod(&game, &world, Mod::Perk, Exclusion::All), Some(vec![id(2), id(8)]));
    assert_eq!(poll_for_mod(&game, &world, Mod::Spicy, Exclusion::All), Some(vec![]));
    assert_eq!(poll_for_mod(&game, &world, Mod::Perk, Exclusion::Playing), None);
    world.teams.pop();
    assert_eq!(poll_for_mod(&game, &world, Mod::Perk, Exclusion::Current), None);
}

#[test]
fn pregame_marks_performers_once() {
    let (mut game, mut world) = setup();
    world.players[1].mods.add(Mod::Superyummy, ModLifetime::Permanent);
    let e = pregame_event(&game, &world).unwrap();
    match &e {
        Event::Performing { overperforming, underperforming } => {
            assert!(overperforming.is_empty());
            assert_eq!(underperforming, &vec![id(2)]);
        }
        other => panic!("unexpected {:?}", other),
    }
    e.apply(&mut game, &mut world).unwrap();
    assert!(world.players[1].mods.has(Mod::Underperforming));
    assert!(pregame_event(&game, &world).is_none());
}

#[test]
fn third_out_leads_to_switch_in_started_match() {
    let (mut game, world) = setup();
    game.started = true;
    game.outs = 3;
    assert_eq!(leading_event(&game, &world).unwrap().repr(), "InningSwitch");
    assert_eq!(Provider::first(), Provider::Pregame);
    assert_eq!(Provider::Stealing.next(), Some(Provider::Pitch));
    assert_eq!(Provider::Pitch.next(), None);
}

use sandbox::providers::{
    batter_state_step, flooding_step, inning_event_step, mod_step, steal_step, ProviderQuery, ProviderStep,
    StealQuery, StealStep,
};

fn done_tag(step: ProviderStep) -> Option<String> {
    match step {
        ProviderStep::Done(e) => e.map(|e| e.repr()),
        ProviderStep::Ask(q) => panic!("unexpected query {:?}", q),
    }
}

#[test]
fn first_batter_comes_up() {
    let (game, world) = setup();
    assert_eq!(done_tag(batter_state_step(&game, &world, &vec![])), Some("BatterUp".to_string()));
}

#[test]
fn haunted_batter_may_be_inhabited() {
    let (game, mut world) = setup();
    world.players[4].mods.add(Mod::Haunted, ModLifetime::Permanent);
    match batter_state_step(&game, &world, &vec![]) {
        ProviderStep::Ask(ProviderQuery::Roll { below_millionths }) => assert_eq!(below_millionths, 200000),
        other => panic!("unexpected {:?}", other),
    }
    let a = vec![PitchAnswer::Roll(true)];
    match batter_state_step(&game, &world, &a) {
        ProviderStep::Ask(ProviderQuery::HallPlayer) => {}
        other => panic!("unexpected {:?}", other),
    }
    let a = vec![PitchAnswer::Roll(true), PitchAnswer::Fielder(id(9))];
    match batter_state_step(&game, &world, &a) {
        ProviderStep::Done(Some(Event::Inhabiting { batter, inhabit })) => {
            assert_eq!(batter, id(5));
            assert_eq!(inhabit, id(9));
        }
        other => panic!("unexpected {:?}", other),
    }
    assert_eq!(done_tag(batter_state_step(&game, &world, &vec![PitchAnswer::Roll(false)])), Some("BatterUp".to_string()));
}

#[test]
fn flood_sweeps_rolled_runners() {
    let (mut game, mut world) = setup();
    world.season_ruleset = 20;
    game.weather = Weather::Flooding;
    game.runners = runners(&[(5, 2), (6, 0)]);
    match flooding_step(&game, &world, &vec![]) {
        ProviderStep::Ask(ProviderQuery::Roll { below_millionths }) => assert_eq!(below_millionths, 16000),
        other => panic!("unexpected {:?}", other),
    }
    let a = vec![PitchAnswer::Roll(true), PitchAnswer::Roll(false), PitchAnswer::Roll(true)];
    match flooding_step(&game, &world, &a) {
        ProviderStep::Done(Some(Event::Swept { elsewhere })) => assert_eq!(elsewhere, vec![id(6)]),
        other => panic!("unexpected {:?}", other),
    }
    assert_eq!(done_tag(flooding_step(&game, &world, &vec![PitchAnswer::Roll(false)])), None);
}

#[test]
fn electric_side_zaps_a_strike() {
    let (mut game, mut world) = setup();
    Event::BatterUp { batter: id(5) }.apply(&mut game, &mut world).unwrap();
    world.teams[1].mods.add(Mod::Electric, ModLifetime::Permanent);
    game.strikes = 1;
    assert_eq!(done_tag(mod_step(&game, &world, &vec![PitchAnswer::Roll(true)])), Some("Zap".to_string()));
    let a = vec![PitchAnswer::Roll(false), PitchAnswer::Roll(false)];
    assert_eq!(done_tag(mod_step(&game, &world, &a)), None);
}

#[test]
fn charm_walk_on_a_fresh_count() {
    let (mut game, mut world) = setup();
    Event::BatterUp { batter: id(5) }.apply(&mut game, &mut world).unwrap();
    world.players[4].mods.add(Mod::Charm, ModLifetime::Permanent);
    let a = vec![PitchAnswer::Roll(false), PitchAnswer::Roll(true)];
    assert_eq!(done_tag(mod_step(&game, &world, &a)), Some("CharmWalk".to_string()));
}

#[test]
fn steal_asks_lead_runner_first() {
    let (mut game, _world) = setup();
    game.runners = runners(&[(5, 2), (6, 0)]);
    match steal_step(&game, &vec![]) {
        StealStep::Ask(StealQuery::Fielder) => {}
        other => panic!("unexpected {:?}", other),
    }
    match steal_step(&game, &vec![PitchAnswer::Fielder(id(2))]) {
        StealStep::Ask(StealQuery::Attempt { runner, base, fielder }) => {
            assert_eq!((runner, base, fielder), (id(5), 2, id(2)));
        }
        other => panic!("unexpected {:?}", other),
    }
    let a = vec![PitchAnswer::Fielder(id(2)), PitchAnswer::Roll(false), PitchAnswer::Roll(true), PitchAnswer::Roll(false)];
    match steal_step(&game, &a) {
        StealStep::Done(Some(Event::CaughtStealing { runner, base_from })) => {
            assert_eq!((runner, base_from), (id(6), 0));
        }
        other => panic!("unexpected {:?}", other),
    }
}

#[test]
fn triple_threat_may_wear_off_in_the_fourth() {
    let (mut game, mut world) = setup();
    game.inning = 4;
    world.players[3].mods.add(Mod::TripleThreat, ModLifetime::Permanent);
    let a = vec![PitchAnswer::Roll(true)];
    match inning_event_step(&game, &world, &a) {
        ProviderStep::Done(Some(Event::TripleThreatDeactivation { home, away })) => assert!(home && !away),
        other => panic!("unexpected {:?}", other),
    }
    assert_eq!(done_tag(inning_event_step(&game, &world, &vec![PitchAnswer::Roll(false)])), None);
}

#[test]
fn pregame_triple_threat_under_coffee3_once() {
    let (mut game, mut world) = setup();
    game.weather = Weather::Coffee3;
    assert_eq!(pregame_event(&game, &world).unwrap().repr(), "TripleThreat");
    Event::TripleThreat.apply(&mut game, &mut world).unwrap();
    assert!(pregame_event(&game, &world).is_none());
}

#[test]
fn failed_replay_keeps_the_applied_prefix() {
    let (mut game, mut world) = setup();
    let log = vec![Event::BatterUp { batter: id(5) }, Event::Ball, Event::Party { target: id(999), boosts: vec![] }];
    assert_eq!(replay(&mut game, &mut world, &log), Err(ApplyError::NotApplicable));
    assert_eq!(game.events.len(), 2);
    assert_eq!(game.balls, 1);
}

#[test]
fn duplicate_ids_are_not_well_formed() {
    let (_game, mut world) = setup();
    assert!(world.is_wf());
    world.players.push(player(3, 100));
    assert!(!world.is_wf());
}
