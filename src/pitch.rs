use vstd::prelude::*;

use crate::bases::{occupied_in, Runner};
use crate::entities::{player_has, world_wf, Id, World, WorldView};
use crate::game::{bases_of, batting, game_wf, Game, GameView};
use crate::mods::Mod;
use crate::sim::PitchOutcome;

verus! {

/// The next draw that the pitch decision tree needs, in the strict order of the
/// tree. Every roll is answered by whether a uniform draw fell below the formula
/// threshold that the query names; `Out` alone is answered by whether the draw
/// exceeded the hit threshold. A fielder pick is answered by the fielder that
/// its draw picks; a runner pick by the runner's base.
#[derive(Clone, Copy, Debug, PartialEq, Eq, Structural)]
pub enum PitchQuery {
    Strike { flinching: bool },
    Swing { strike: bool },
    Contact { strike: bool },
    Foul,
    OutFielder,
    Out { fielder: Id },
    FlyFielder,
    Fly,
    FlyAdvance { runner: Id, base: u8 },
    GroundFielder,
    DoublePlay { fielder: Id },
    DoublePlayRunner,
    Sacrifice,
    FieldersChoiceRunner,
    GroundAdvance { runner: Id, fielder: Id },
    HomeRun,
    HitFielder,
    Double { fielder: Id },
    Triple { fielder: Id },
    Quadruple { fielder: Id },
    HitAdvance { runner: Id, fielder: Id },
}

/// The answer to one query: a roll's result, a picked fielder or a picked base.
#[derive(Clone, Copy, Debug, PartialEq, Eq, Structural)]
pub enum PitchAnswer {
    Roll(bool),
    Fielder(Id),
    Base(u8),
}

/// Either the next query or the outcome of the pitch.
#[derive(Debug)]
pub enum PitchStep {
    Ask(PitchQuery),
    Done(PitchOutcome),
}

pub ghost enum OutcomeView {
    Ball,
    StrikeSwinging,
    StrikeLooking,
    Foul,
    GroundOut { fielder: Id, advancing_runners: Seq<Id> },
    Flyout { fielder: Id, advancing_runners: Seq<Id> },
    DoublePlay { runner_out: u8 },
    FieldersChoice { runner_out: u8 },
    HomeRun,
    Triple { advancing_runners: Seq<Id> },
    Double { advancing_runners: Seq<Id> },
    Single { advancing_runners: Seq<Id> },
    Quadruple { advancing_runners: Seq<Id> },
}

pub ghost enum StepView {
    Ask(PitchQuery),
    Done(OutcomeView),
}

impl View for PitchOutcome {
    type V = OutcomeView;

    open spec fn view(&self) -> OutcomeView {
        match self {
            PitchOutcome::Ball => OutcomeView::Ball,
            PitchOutcome::StrikeSwinging => OutcomeView::StrikeSwinging,
            PitchOutcome::StrikeLooking => OutcomeView::StrikeLooking,
            PitchOutcome::Foul => OutcomeView::Foul,
            PitchOutcome::GroundOut { fielder, advancing_runners } => OutcomeView::GroundOut {
                fielder: *fielder,
                advancing_runners: advancing_runners@,
            },
            PitchOutcome::Flyout { fielder, advancing_runners } => OutcomeView::Flyout {
                fielder: *fielder,
                advancing_runners: advancing_runners@,
            },
            PitchOutcome::DoublePlay { runner_out } => OutcomeView::DoublePlay {
                runner_out: *runner_out,
            },
            PitchOutcome::FieldersChoice { runner_out } => OutcomeView::FieldersChoice {
                runner_out: *runner_out,
            },
            PitchOutcome::HomeRun => OutcomeView::HomeRun,
            PitchOutcome::Triple { advancing_runners } => OutcomeView::Triple {
                advancing_runners: advancing_runners@,
            },
            PitchOutcome::Double { advancing_runners } => OutcomeView::Double {
                advancing_runners: advancing_runners@,
            },
            PitchOutcome::Single { advancing_runners } => OutcomeView::Single {
                advancing_runners: advancing_runners@,
            },
            PitchOutcome::Quadruple { advancing_runners } => OutcomeView::Quadruple {
                advancing_runners: advancing_runners@,
            },
        }
    }
}

impl View for PitchStep {
    type V = StepView;

    open spec fn view(&self) -> StepView {
        match self {
            PitchStep::Ask(q) => StepView::Ask(*q),
            PitchStep::Done(o) => StepView::Done(o@),
        }
    }
}

/// The roll answered at position `i`; an answer of another kind reads as a miss.
pub open spec fn roll(a: Seq<PitchAnswer>, i: int) -> bool {
    match a[i] {
        PitchAnswer::Roll(b) => b,
        _ => false,
    }
}

/// The fielder answered at position `i`; an answer of another kind reads as id 0.
pub open spec fn picked(a: Seq<PitchAnswer>, i: int) -> Id {
    match a[i] {
        PitchAnswer::Fielder(f) => f,
        _ => Id { value: 0 },
    }
}

/// The base answered at position `i`; an answer of another kind reads as base 0.
pub open spec fn picked_base(a: Seq<PitchAnswer>, i: int) -> u8 {
    match a[i] {
        PitchAnswer::Base(b) => b,
        _ => 0,
    }
}

/// The runners, lead first, whose advancement roll came up: runner `k` is
/// answered at position `start + k`.
pub open spec fn advancers(rs: Seq<Runner>, a: Seq<PitchAnswer>, start: int) -> Seq<Id>
    decreases rs.len(),
{
    if rs.len() == 0 {
        Seq::empty()
    } else {
        let f = advancers(rs.drop_last(), a, start);
        if roll(a, start + rs.len() - 1) {
            f.push(rs.last().id)
        } else {
            f
        }
    }
}

/// The batter is flinching: no strike yet and the flinch modifier.
pub open spec fn flinching(g: GameView, w: WorldView) -> bool {
    g.strikes == 0 && batting(g.scoreboard).batter.is_some() && player_has(
        w,
        batting(g.scoreboard).batter.unwrap(),
        Mod::Flinch,
    )
}

/// The out branch of the tree, from the fly-ball fielder pick at position 6.
pub open spec fn out_tree(g: GameView, a: Seq<PitchAnswer>, od: Id) -> StepView {
    let rs = g.runners;
    if a.len() == 6 {
        StepView::Ask(PitchQuery::FlyFielder)
    } else if a.len() == 7 {
        StepView::Ask(PitchQuery::Fly)
    } else if roll(a, 7) {
        let fd = picked(a, 6);
        if g.outs == 2 {
            StepView::Done(OutcomeView::Flyout { fielder: fd, advancing_runners: Seq::empty() })
        } else if a.len() < 8 + rs.len() {
            let r = rs[a.len() - 8];
            StepView::Ask(PitchQuery::FlyAdvance { runner: r.id, base: r.base })
        } else {
            StepView::Done(OutcomeView::Flyout { fielder: fd, advancing_runners: advancers(rs, a, 8) })
        }
    } else if a.len() == 8 {
        StepView::Ask(PitchQuery::GroundFielder)
    } else {
        let gd = picked(a, 8);
        if g.outs == 2 || rs.len() == 0 {
            StepView::Done(OutcomeView::GroundOut { fielder: gd, advancing_runners: Seq::empty() })
        } else if a.len() == 9 {
            StepView::Ask(PitchQuery::DoublePlay { fielder: od })
        } else if occupied_in(rs, 0) {
            if g.outs < 2 && roll(a, 9) {
                if a.len() == 10 {
                    StepView::Ask(PitchQuery::DoublePlayRunner)
                } else {
                    StepView::Done(OutcomeView::DoublePlay { runner_out: picked_base(a, 10) })
                }
            } else if a.len() == 10 {
                StepView::Ask(PitchQuery::Sacrifice)
            } else if roll(a, 10) {
                if a.len() < 11 + rs.len() {
                    StepView::Ask(PitchQuery::GroundAdvance { runner: rs[a.len() - 11].id, fielder: od })
                } else {
                    StepView::Done(OutcomeView::GroundOut { fielder: gd, advancing_runners: advancers(rs, a, 11) })
                }
            } else if a.len() == 11 {
                StepView::Ask(PitchQuery::FieldersChoiceRunner)
            } else {
                StepView::Done(OutcomeView::FieldersChoice { runner_out: picked_base(a, 11) })
            }
        } else if a.len() < 10 + rs.len() {
            StepView::Ask(PitchQuery::GroundAdvance { runner: rs[a.len() - 10].id, fielder: od })
        } else {
            StepView::Done(OutcomeView::GroundOut { fielder: gd, advancing_runners: advancers(rs, a, 10) })
        }
    }
}

/// The hit branch of the tree, from the home-run roll at position 6. The hit
/// class is chosen quadruple, triple, double, single from rolls already drawn.
pub open spec fn hit_tree(g: GameView, a: Seq<PitchAnswer>, five: bool) -> StepView {
    let rs = g.runners;
    let start: int = if five { 11 } else { 10 };
    if a.len() == 6 {
        StepView::Ask(PitchQuery::HomeRun)
    } else if roll(a, 6) {
        StepView::Done(OutcomeView::HomeRun)
    } else if a.len() == 7 {
        StepView::Ask(PitchQuery::HitFielder)
    } else if a.len() == 8 {
        StepView::Ask(PitchQuery::Double { fielder: picked(a, 7) })
    } else if a.len() == 9 {
        StepView::Ask(PitchQuery::Triple { fielder: picked(a, 7) })
    } else if five && a.len() == 10 {
        StepView::Ask(PitchQuery::Quadruple { fielder: picked(a, 7) })
    } else if a.len() < start + rs.len() {
        StepView::Ask(PitchQuery::HitAdvance { runner: rs[a.len() - start].id, fielder: picked(a, 7) })
    } else {
        let adv = advancers(rs, a, start);
        if five && roll(a, 10) {
            StepView::Done(OutcomeView::Quadruple { advancing_runners: adv })
        } else if roll(a, 9) {
            StepView::Done(OutcomeView::Triple { advancing_runners: adv })
        } else if roll(a, 8) {
            StepView::Done(OutcomeView::Double { advancing_runners: adv })
        } else {
            StepView::Done(OutcomeView::Single { advancing_runners: adv })
        }
    }
}

/// The pitch decision tree over the answers given so far: the strike roll; the
/// swing roll, skipped for a flinching batter; contact; foul; the fielder pick
/// and the out roll; then the out branch or the hit branch.
pub open spec fn pitch_tree(g: GameView, w: WorldView, a: Seq<PitchAnswer>) -> StepView {
    let flinch = flinching(g, w);
    if a.len() == 0 {
        StepView::Ask(PitchQuery::Strike { flinching: flinch })
    } else if !flinch && a.len() == 1 {
        StepView::Ask(PitchQuery::Swing { strike: roll(a, 0) })
    } else if flinch || !roll(a, 1) {
        StepView::Done(if roll(a, 0) { OutcomeView::StrikeLooking } else { OutcomeView::Ball })
    } else if a.len() == 2 {
        StepView::Ask(PitchQuery::Contact { strike: roll(a, 0) })
    } else if !roll(a, 2) {
        StepView::Done(OutcomeView::StrikeSwinging)
    } else if a.len() == 3 {
        StepView::Ask(PitchQuery::Foul)
    } else if roll(a, 3) {
        StepView::Done(OutcomeView::Foul)
    } else if a.len() == 4 {
        StepView::Ask(PitchQuery::OutFielder)
    } else if a.len() == 5 {
        StepView::Ask(PitchQuery::Out { fielder: picked(a, 4) })
    } else if roll(a, 5) {
        out_tree(g, a, picked(a, 4))
    } else {
        hit_tree(g, a, bases_of(g, w) == 5)
    }
}

fn roll_at(a: &Vec<PitchAnswer>, i: usize) -> (r: bool)
    requires
        i < a@.len(),
    ensures
        r == roll(a@, i as int),
{
    match a[i] {
        PitchAnswer::Roll(b) => b,
        _ => false,
    }
}

fn picked_at(a: &Vec<PitchAnswer>, i: usize) -> (r: Id)
    requires
        i < a@.len(),
    ensures
        r == picked(a@, i as int),
{
    match a[i] {
        PitchAnswer::Fielder(f) => f,
        _ => Id { value: 0 },
    }
}

fn base_at(a: &Vec<PitchAnswer>, i: usize) -> (r: u8)
    requires
        i < a@.len(),
    ensures
        r == picked_base(a@, i as int),
{
    match a[i] {
        PitchAnswer::Base(b) => b,
        _ => 0,
    }
}

fn advancers_of(rs: &Vec<Runner>, a: &Vec<PitchAnswer>, start: usize) -> (r: Vec<Id>)
    requires
        start + rs@.len() <= a@.len(),
    ensures
        r@ == advancers(rs@, a@, start as int),
{
    let alen = a.len();
    let mut out: Vec<Id> = Vec::new();
    let mut k: usize = 0;
    while k < rs.len()
        invariant
            k <= rs@.len(),
            alen == a@.len(),
            start + rs@.len() <= a@.len(),
            out@ == advancers(rs@.subrange(0, k as int), a@, start as int),
        decreases rs@.len() - k,
    {
        proof {
            assert(rs@.subrange(0, k + 1).drop_last() =~= rs@.subrange(0, k as int));
        }
        if roll_at(a, start + k) {
            out.push(rs[k].id);
        }
        k = k + 1;
    }
    assert(rs@.subrange(0, rs@.len() as int) =~= rs@);
    out
}

fn out_step(game: &Game, a: &Vec<PitchAnswer>, od: Id) -> (r: PitchStep)
    requires
        a@.len() >= 6,
    ensures
        r@ == out_tree(game@, a@, od),
{
    let rs = game.runners.runners();
    let n = a.len();
    if n == 6 {
        return PitchStep::Ask(PitchQuery::FlyFielder);
    }
    if n == 7 {
        return PitchStep::Ask(PitchQuery::Fly);
    }
    if roll_at(a, 7) {
        let fd = picked_at(a, 6);
        if game.outs == 2 {
            return PitchStep::Done(PitchOutcome::Flyout { fielder: fd, advancing_runners: Vec::new() });
        }
        if n - 8 < rs.len() {
            let r = rs[n - 8];
            return PitchStep::Ask(PitchQuery::FlyAdvance { runner: r.id, base: r.base });
        }
        let adv = advancers_of(rs, a, 8);
        return PitchStep::Done(PitchOutcome::Flyout { fielder: fd, advancing_runners: adv });
    }
    if n == 8 {
        return PitchStep::Ask(PitchQuery::GroundFielder);
    }
    let gd = picked_at(a, 8);
    if game.outs == 2 || rs.len() == 0 {
        return PitchStep::Done(PitchOutcome::GroundOut { fielder: gd, advancing_runners: Vec::new() });
    }
    if n == 9 {
        return PitchStep::Ask(PitchQuery::DoublePlay { fielder: od });
    }
    if game.runners.occupied(0) {
        if game.outs < 2 && roll_at(a, 9) {
            if n == 10 {
                return PitchStep::Ask(PitchQuery::DoublePlayRunner);
            }
            return PitchStep::Done(PitchOutcome::DoublePlay { runner_out: base_at(a, 10) });
        }
        if n == 10 {
            return PitchStep::Ask(PitchQuery::Sacrifice);
        }
        if roll_at(a, 10) {
            if n - 11 < rs.len() {
                return PitchStep::Ask(PitchQuery::GroundAdvance { runner: rs[n - 11].id, fielder: od });
            }
            let adv = advancers_of(rs, a, 11);
            return PitchStep::Done(PitchOutcome::GroundOut { fielder: gd, advancing_runners: adv });
        }
        if n == 11 {
            return PitchStep::Ask(PitchQuery::FieldersChoiceRunner);
        }
        return PitchStep::Done(PitchOutcome::FieldersChoice { runner_out: base_at(a, 11) });
    }
    if n - 10 < rs.len() {
        return PitchStep::Ask(PitchQuery::GroundAdvance { runner: rs[n - 10].id, fielder: od });
    }
    let adv = advancers_of(rs, a, 10);
    PitchStep::Done(PitchOutcome::GroundOut { fielder: gd, advancing_runners: adv })
}

fn hit_step(game: &Game, a: &Vec<PitchAnswer>, five: bool) -> (r: PitchStep)
    requires
        a@.len() >= 6,
    ensures
        r@ == hit_tree(game@, a@, five),
{
    let rs = game.runners.runners();
    let n = a.len();
    let start: usize = if five { 11 } else { 10 };
    if n == 6 {
        return PitchStep::Ask(PitchQuery::HomeRun);
    }
    if roll_at(a, 6) {
        return PitchStep::Done(PitchOutcome::HomeRun);
    }
    if n == 7 {
        return PitchStep::Ask(PitchQuery::HitFielder);
    }
    let hd = picked_at(a, 7);
    if n == 8 {
        return PitchStep::Ask(PitchQuery::Double { fielder: hd });
    }
    if n == 9 {
        return PitchStep::Ask(PitchQuery::Triple { fielder: hd });
    }
    if five && n == 10 {
        return PitchStep::Ask(PitchQuery::Quadruple { fielder: hd });
    }
    if n - start < rs.len() {
        return PitchStep::Ask(PitchQuery::HitAdvance { runner: rs[n - start].id, fielder: hd });
    }
    let adv = advancers_of(rs, a, start);
    if five && roll_at(a, 10) {
        PitchStep::Done(PitchOutcome::Quadruple { advancing_runners: adv })
    } else if roll_at(a, 9) {
        PitchStep::Done(PitchOutcome::Triple { advancing_runners: adv })
    } else if roll_at(a, 8) {
        PitchStep::Done(PitchOutcome::Double { advancing_runners: adv })
    } else {
        PitchStep::Done(PitchOutcome::Single { advancing_runners: adv })
    }
}

/// One step of the pitch decision tree: given the answers to the queries so far,
/// the next query, or the outcome once the tree reaches a leaf.
pub fn pitch_step(game: &Game, world: &World, answers: &Vec<PitchAnswer>) -> (r: PitchStep)
    requires
        world_wf(world@),
        game_wf(game@, world@),
    ensures
        r@ == pitch_tree(game@, world@, answers@),
{
    let a = answers;
    let n = a.len();
    let flinch = game.strikes == 0 && match game.batter() {
        Some(b) => world.player_has_mod(b, Mod::Flinch),
        None => false,
    };
    if n == 0 {
        return PitchStep::Ask(PitchQuery::Strike { flinching: flinch });
    }
    let strike = roll_at(a, 0);
    if !flinch && n == 1 {
        return PitchStep::Ask(PitchQuery::Swing { strike });
    }
    if flinch || !roll_at(a, 1) {
        return PitchStep::Done(if strike { PitchOutcome::StrikeLooking } else { PitchOutcome::Ball });
    }
    if n == 2 {
        return PitchStep::Ask(PitchQuery::Contact { strike });
    }
    if !roll_at(a, 2) {
        return PitchStep::Done(PitchOutcome::StrikeSwinging);
    }
    if n == 3 {
        return PitchStep::Ask(PitchQuery::Foul);
    }
    if roll_at(a, 3) {
        return PitchStep::Done(PitchOutcome::Foul);
    }
    if n == 4 {
        return PitchStep::Ask(PitchQuery::OutFielder);
    }
    let od = picked_at(a, 4);
    if n == 5 {
        return PitchStep::Ask(PitchQuery::Out { fielder: od });
    }
    if roll_at(a, 5) {
        out_step(game, a, od)
    } else {
        let five = game.get_bases(world) == 5;
        hit_step(game, a, five)
    }
}

} // verus!
