use vstd::prelude::*;

use crate::bases::{advanced_if, all_below, lead_first, shifted, without_base};
use crate::entities::{player_has, team_has, world_wf, Id, World, WorldView};
use crate::events::{runners_after_of, Event};
use crate::game::{batting, game_wf, max_balls_of, max_strikes_of, Game, GameView, MAX_OUTS};
use crate::mods::Mod;

verus! {

/// Where one pitch ends up, as the pitch decision tree resolves it.
#[derive(Debug)]
pub enum PitchOutcome {
    Ball,
    StrikeSwinging,
    StrikeLooking,
    Foul,
    GroundOut { fielder: Id, advancing_runners: Vec<Id> },
    Flyout { fielder: Id, advancing_runners: Vec<Id> },
    DoublePlay { runner_out: u8 },
    FieldersChoice { runner_out: u8 },
    HomeRun,
    Triple { advancing_runners: Vec<Id> },
    Double { advancing_runners: Vec<Id> },
    Single { advancing_runners: Vec<Id> },
    Quadruple { advancing_runners: Vec<Id> },
}

/// The fielder an out event names.
pub open spec fn fielder_of(e: &Event) -> Id {
    match e {
        Event::GroundOut { fielder, .. } => *fielder,
        Event::Flyout { fielder, .. } => *fielder,
        _ => Id { value: 0 },
    }
}

/// The bases a hit event is worth.
pub open spec fn hit_bases_of(e: &Event) -> u8 {
    match e {
        Event::BaseHit { bases, .. } => *bases,
        _ => 0,
    }
}

/// The pitch would be the batter's last strike.
pub open spec fn last_strike(g: GameView, w: WorldView) -> bool {
    g.strikes + 1 >= max_strikes_of(g, w)
}


/// The event that ends an inning or the match once the side has made its outs;
/// none before. Scores are compared exactly, in tenths.
pub open spec fn inning_state_of(g: GameView) -> Option<Event> {
    let home = g.scoreboard.home_team.score;
    let away = g.scoreboard.away_team.score;
    if g.outs < MAX_OUTS {
        None
    } else if g.inning >= 9 && (away < home || (!g.scoreboard.top && away > home)) {
        Some(Event::GameOver)
    } else if g.scoreboard.top {
        Some(Event::InningSwitch { inning: g.inning, top: false })
    } else {
        Some(Event::InningSwitch { inning: (g.inning + 1) as i16, top: true })
    }
}

/// Ends the half-inning, or the match, once the side at bat has made its outs.
pub fn inning_state_event(game: &Game) -> (r: Option<Event>)
    requires
        game.inning < i16::MAX,
    ensures
        r == inning_state_of(game@),
        game.outs >= MAX_OUTS ==> (r matches Some(e) && (e is InningSwitch || e is GameOver)),
{
    if game.outs < MAX_OUTS {
        return None;
    }
    let home = game.scoreboard.home_team.score;
    let away = game.scoreboard.away_team.score;
    let lead: i8 = if away == home {
        0
    } else if away > home {
        1
    } else {
        -1
    };
    if game.inning >= 9 && (lead == -1 || !game.scoreboard.top && lead == 1) {
        return Some(Event::GameOver);
    }
    if game.scoreboard.top {
        Some(Event::InningSwitch { inning: game.inning, top: false })
    } else {
        Some(Event::InningSwitch { inning: game.inning + 1, top: true })
    }
}

/// Turns the outcome of a pitch into the event it produces. `instinct` is what the
/// base-instincts draws gave on ball four: `Some(third)` when the batter walks on
/// instinct, to third base when `third`. Runner states after the play are worked
/// out from the runners on base now.
pub fn pitch_event(game: &Game, world: &World, outcome: &PitchOutcome, instinct: Option<bool>) -> (r: Event)
    requires
        world_wf(world@),
        game_wf(game@, world@),
    ensures
        outcome is Ball ==> if game@.balls + 1 < max_balls_of(game@, world@) {
            r is Ball
        } else if batting(game@.scoreboard).batter.is_some() && player_has(
            world@,
            batting(game@.scoreboard).batter.unwrap(),
            Mod::BaseInstincts,
        ) && instinct.is_some() {
            r == (Event::InstinctWalk { third: instinct.unwrap() })
        } else {
            r is Walk
        },
        outcome is StrikeSwinging ==> if last_strike(game@, world@) {
            r is Strikeout
        } else {
            r is Strike
        },
        outcome is StrikeLooking ==> if !last_strike(game@, world@) {
            r is Strike
        } else if team_has(world@, batting(game@.scoreboard).id, Mod::ONo) && game@.balls == 0 {
            r is Foul
        } else {
            r is Strikeout
        },
        outcome is Foul ==> r is Foul,
        lead_first(runners_after_of(&r)),
        outcome is HomeRun ==> r is HomeRun,
        outcome matches PitchOutcome::GroundOut { fielder, advancing_runners } ==> (r is GroundOut
            && fielder_of(&r) == fielder && runners_after_of(&r) == advanced_if(
            game@.runners,
            advancing_runners@,
        )),
        outcome matches PitchOutcome::Flyout { fielder, advancing_runners } ==> (r is Flyout
            && fielder_of(&r) == fielder && runners_after_of(&r) == advanced_if(
            game@.runners,
            advancing_runners@,
        )),
        outcome matches PitchOutcome::DoublePlay { runner_out } ==> (r is DoublePlay
            && runners_after_of(&r) == shifted(without_base(game@.runners, runner_out as int), 1)),
        outcome matches PitchOutcome::FieldersChoice { runner_out } ==> (r is FieldersChoice
            && runners_after_of(&r) == shifted(without_base(game@.runners, runner_out as int), 1)),
        outcome matches PitchOutcome::Single { advancing_runners } ==> (r is BaseHit
            && hit_bases_of(&r) == 1 && runners_after_of(&r) == advanced_if(
            shifted(game@.runners, 1),
            advancing_runners@,
        )),
        outcome matches PitchOutcome::Double { advancing_runners } ==> (r is BaseHit
            && hit_bases_of(&r) == 2 && runners_after_of(&r) == advanced_if(
            shifted(game@.runners, 2),
            advancing_runners@,
        )),
        outcome matches PitchOutcome::Triple { advancing_runners } ==> (r is BaseHit
            && hit_bases_of(&r) == 3 && runners_after_of(&r) == advanced_if(
            shifted(game@.runners, 3),
            advancing_runners@,
        )),
        outcome matches PitchOutcome::Quadruple { advancing_runners } ==> (r is BaseHit
            && hit_bases_of(&r) == 4 && runners_after_of(&r) == advanced_if(
            shifted(game@.runners, 4),
            advancing_runners@,
        )),
{
    assert(all_below(game@.runners, 5));
    let max_balls = game.get_max_balls(world);
    let max_strikes = game.get_max_strikes(world);
    let last = game.strikes as u16 + 1 >= max_strikes as u16;
    match outcome {
        PitchOutcome::Ball => {
            if (game.balls as u16) + 1 < max_balls as u16 {
                Event::Ball
            } else {
                let instincts = match game.batter() {
                    Some(b) => world.player_has_mod(b, Mod::BaseInstincts),
                    None => false,
                };
                match instinct {
                    Some(third) => if instincts {
                        Event::InstinctWalk { third }
                    } else {
                        Event::Walk
                    },
                    None => Event::Walk,
                }
            }
        },
        PitchOutcome::StrikeSwinging => if last {
            Event::Strikeout
        } else {
            Event::Strike
        },
        PitchOutcome::StrikeLooking => if last {
            if world.team_has_mod(game.batting_team().id, Mod::ONo) && game.balls == 0 {
                Event::Foul
            } else {
                Event::Strikeout
            }
        } else {
            Event::Strike
        },
        PitchOutcome::Foul => Event::Foul,
        PitchOutcome::GroundOut { fielder, advancing_runners } => {
            let mut new_runners = game.runners.duplicate();
            new_runners.advance_if(advancing_runners);
            Event::GroundOut { fielder: *fielder, runners_after: new_runners }
        },
        PitchOutcome::Flyout { fielder, advancing_runners } => {
            let mut new_runners = game.runners.duplicate();
            new_runners.advance_if(advancing_runners);
            Event::Flyout { fielder: *fielder, runners_after: new_runners }
        },
        PitchOutcome::DoublePlay { runner_out } => {
            let mut new_runners = game.runners.duplicate();
            new_runners.remove(*runner_out);
            assert(all_below(new_runners@, 5));
            new_runners.advance_all(1);
            Event::DoublePlay { runners_after: new_runners }
        },
        PitchOutcome::FieldersChoice { runner_out } => {
            let mut new_runners = game.runners.duplicate();
            new_runners.remove(*runner_out);
            assert(all_below(new_runners@, 5));
            new_runners.advance_all(1);
            Event::FieldersChoice { runners_after: new_runners }
        },
        PitchOutcome::HomeRun => Event::HomeRun,
        PitchOutcome::Triple { advancing_runners } => hit(game, 3, advancing_runners),
        PitchOutcome::Double { advancing_runners } => hit(game, 2, advancing_runners),
        PitchOutcome::Single { advancing_runners } => hit(game, 1, advancing_runners),
        PitchOutcome::Quadruple { advancing_runners } => hit(game, 4, advancing_runners),
    }
}

fn hit(game: &Game, bases: u8, advancing_runners: &Vec<Id>) -> (r: Event)
    requires
        1 <= bases <= 4,
        game.runners.wf(),
        all_below(game@.runners, 5),
    ensures
        r is BaseHit,
        hit_bases_of(&r) == bases,
        lead_first(runners_after_of(&r)),
        runners_after_of(&r) == advanced_if(shifted(game@.runners, bases as int), advancing_runners@),
{
    let mut new_runners = game.runners.duplicate();
    assert(all_below(new_runners@, 5));
    new_runners.advance_all(bases);
    assert(forall|i: int|
        0 <= i < new_runners@.len() ==> (#[trigger] new_runners@[i]).base == game@.runners[i].base + bases);
    new_runners.advance_if(advancing_runners);
    Event::BaseHit { bases, runners_after: new_runners }
}

} // verus!
