use vstd::prelude::*;

use crate::bases::{
    lemma_lead_first_len, all_below, instinct_pushed, lead_first, occupied_in, on_field, pushed_from, shifted,
    with_runner, without_base, Baserunners, Runner,
};
use crate::entities::{
    team_has,
    lemma_team_has_same,
    same_team_mods,
    keeps_ids, lemma_keeps_ids,
    add_mod_all, add_player_mod, all_players, boost_player, feed_player, has_player, has_team,
    incinerated, player_has, player_of, record, remove_player_mod, reordered, reorders,
    set_scattered, set_slot, set_swept_on, swapped, team_of, with_player, world_wf, Id, Player,
    PlayerView, TeamView, World, WorldView,
};
use crate::game::{
    game_wf, add_score, batting, bases_of, end_pa, max_strikes_of, pitching, room, scored, with_batting,
    with_pitching, Game, GameTeam, GameView, Weather, RUN,
};
use crate::log::{capped, scan_has, scan_streak};
use crate::mods::{has_mod, Mod, ModLifetime};

verus! {

broadcast use lemma_keeps_ids;

/// One atomic transition of a match, with every value needed to apply it.
/// Boosts are in millionths of an attribute point.
#[derive(Debug)]
pub enum Event {
    BatterUp { batter: Id },
    InningSwitch { inning: i16, top: bool },
    GameOver,
    Ball,
    Strike,
    Foul,
    Strikeout,
    Walk,
    HomeRun,
    BaseHit { bases: u8, runners_after: Baserunners },
    GroundOut { fielder: Id, runners_after: Baserunners },
    Flyout { fielder: Id, runners_after: Baserunners },
    DoublePlay { runners_after: Baserunners },
    FieldersChoice { runners_after: Baserunners },
    BaseSteal { runner: Id, base_from: u8, base_to: u8 },
    CaughtStealing { runner: Id, base_from: u8 },
    Party { target: Id, boosts: Vec<i64> },
    Incineration { target: Id, replacement: Player, chain: Option<Id> },
    Peanut { target: Id, yummy: bool },
    Birds,
    Feedback { target1: Id, target2: Id },
    Reverb { reverb_type: u8, team: Id, changes: Vec<usize> },
    Blooddrain { drainer: Id, target: Id, stat: u8, siphon: bool, siphon_effect: i16 },
    Sun2 { home_team: bool },
    BlackHole { home_team: bool },
    Salmon { home_runs_lost: bool, away_runs_lost: bool },
    PolaritySwitch,
    NightShift { batter: bool, replacement: Id, replacement_idx: usize, boosts: Vec<i64> },
    Fireproof { target: Id },
    Soundproof { resists: Id, tangled: Id, decrease_boosts: Vec<i64> },
    Reverberating { batter: Id },
    Shelled { batter: Id },
    HitByPitch { target: Id, hbp_type: u8 },
    PeckedFree { player: Id },
    IffeyJr { target: Id },
    Zap { batter: bool },
    InstinctWalk { third: bool },
    BigPeanut { target: Id },
    CharmWalk,
    CharmStrikeout,
    MildPitch,
    MildWalk,
    Repeating { batter: Id },
    FireEater { target: Id },
    MagmaticHomeRun,
    CrowAmbush,
    TasteTheInfinite { target: Id },
    Inhabiting { batter: Id, inhabit: Id },
    BlockedDrain { drainer: Id, target: Id },
    Performing { overperforming: Vec<Id>, underperforming: Vec<Id> },
    Beaned,
    PouredOver,
    TripleThreat,
    TripleThreatDeactivation { home: bool, away: bool },
    Swept { elsewhere: Vec<Id> },
    Elsewhere { batter: Id },
    ElsewhereReturn { returned: Vec<Id>, letters: Vec<u8> },
    Unscatter { unscattered: Vec<Id> },
}

/// Why an event could not be applied.
#[derive(Clone, Copy, Debug, PartialEq, Eq, Structural)]
pub enum ApplyError {
    /// The event names a player or team the roster lacks, or a slot, base, count or
    /// code that the state cannot take.
    NotApplicable,
    /// The state itself is not ready for another event: its runners are out of
    /// order or off the field, or a counter has run out of room.
    NotReady,
}

/// The tag that an event leaves in the event log: the name of its kind.
pub open spec fn tag_of(e: &Event) -> Seq<char> {
    match e {
        Event::BatterUp { .. } => "BatterUp"@,
        Event::InningSwitch { .. } => "InningSwitch"@,
        Event::GameOver => "GameOver"@,
        Event::Ball => "Ball"@,
        Event::Strike => "Strike"@,
        Event::Foul => "Foul"@,
        Event::Strikeout => "Strikeout"@,
        Event::Walk => "Walk"@,
        Event::HomeRun => "HomeRun"@,
        Event::BaseHit { .. } => "BaseHit"@,
        Event::GroundOut { .. } => "GroundOut"@,
        Event::Flyout { .. } => "Flyout"@,
        Event::DoublePlay { .. } => "DoublePlay"@,
        Event::FieldersChoice { .. } => "FieldersChoice"@,
        Event::BaseSteal { .. } => "BaseSteal"@,
        Event::CaughtStealing { .. } => "CaughtStealing"@,
        Event::Party { .. } => "Party"@,
        Event::Incineration { .. } => "Incineration"@,
        Event::Peanut { .. } => "Peanut"@,
        Event::Birds => "Birds"@,
        Event::Feedback { .. } => "Feedback"@,
        Event::Reverb { .. } => "Reverb"@,
        Event::Blooddrain { .. } => "Blooddrain"@,
        Event::Sun2 { .. } => "Sun2"@,
        Event::BlackHole { .. } => "BlackHole"@,
        Event::Salmon { .. } => "Salmon"@,
        Event::PolaritySwitch => "PolaritySwitch"@,
        Event::NightShift { .. } => "NightShift"@,
        Event::Fireproof { .. } => "Fireproof"@,
        Event::Soundproof { .. } => "Soundproof"@,
        Event::Reverberating { .. } => "Reverberating"@,
        Event::Shelled { .. } => "Shelled"@,
        Event::HitByPitch { .. } => "HitByPitch"@,
        Event::PeckedFree { .. } => "PeckedFree"@,
        Event::IffeyJr { .. } => "IffeyJr"@,
        Event::Zap { .. } => "Zap"@,
        Event::InstinctWalk { .. } => "InstinctWalk"@,
        Event::BigPeanut { .. } => "BigPeanut"@,
        Event::CharmWalk => "CharmWalk"@,
        Event::CharmStrikeout => "CharmStrikeout"@,
        Event::MildPitch => "MildPitch"@,
        Event::MildWalk => "MildWalk"@,
        Event::Repeating { .. } => "Repeating"@,
        Event::FireEater { .. } => "FireEater"@,
        Event::MagmaticHomeRun => "MagmaticHomeRun"@,
        Event::CrowAmbush => "CrowAmbush"@,
        Event::TasteTheInfinite { .. } => "TasteTheInfinite"@,
        Event::Inhabiting { .. } => "Inhabiting"@,
        Event::BlockedDrain { .. } => "BlockedDrain"@,
        Event::Performing { .. } => "Performing"@,
        Event::Beaned => "Beaned"@,
        Event::PouredOver => "PouredOver"@,
        Event::TripleThreat => "TripleThreat"@,
        Event::TripleThreatDeactivation { .. } => "TripleThreatDeactivation"@,
        Event::Swept { .. } => "Swept"@,
        Event::Elsewhere { .. } => "Elsewhere"@,
        Event::ElsewhereReturn { .. } => "ElsewhereReturn"@,
        Event::Unscatter { .. } => "Unscatter"@,
    }
}

/// Whether the event ends a plate appearance.
pub open spec fn ends_pa(e: &Event) -> bool {
    match e {
        Event::Strikeout | Event::CharmStrikeout | Event::Walk | Event::CharmWalk
        | Event::HomeRun | Event::MagmaticHomeRun | Event::BaseHit { .. }
        | Event::GroundOut { .. } | Event::Flyout { .. } | Event::DoublePlay { .. }
        | Event::FieldersChoice { .. } | Event::HitByPitch { .. } | Event::InstinctWalk { .. }
        | Event::MildWalk | Event::CrowAmbush => true,
        _ => false,
    }
}

/// The tags whose run in a batter's feed heats up a spicy batter.
pub open spec fn hit_tags() -> Seq<Seq<char>> {
    seq!["BaseHit"@, "HomeRun"@]
}

/// The batter at the plate; meaningful when one is up.
pub open spec fn batter_of(g: GameView) -> Id {
    batting(g.scoreboard).batter.unwrap()
}

/// A batter is up and is on the roster.
pub open spec fn batter_ok(g: GameView, w: WorldView) -> bool {
    batting(g.scoreboard).batter.is_some() && has_player(w, batter_of(g))
}

/// A hit heats a spicy batter up, and a heated-up batter catches fire.
pub open spec fn upgraded_spicy(g: GameView, w: WorldView) -> WorldView {
    let b = batter_of(g);
    let p = player_of(w, b);
    if has_mod(p.mods, Mod::Spicy) && capped(scan_streak(p.feed, hit_tags(), -1, 0)) == 1 {
        add_player_mod(w, b, Mod::HeatingUp, ModLifetime::Permanent)
    } else if has_mod(p.mods, Mod::HeatingUp) {
        add_player_mod(
            remove_player_mod(w, b, Mod::HeatingUp),
            b,
            Mod::RedHot,
            ModLifetime::Permanent,
        )
    } else {
        w
    }
}

/// An out cools a batter on fire, or one heating up, down.
pub open spec fn downgraded_spicy(g: GameView, w: WorldView) -> WorldView {
    let b = batter_of(g);
    let p = player_of(w, b);
    if has_mod(p.mods, Mod::RedHot) {
        remove_player_mod(w, b, Mod::RedHot)
    } else if has_mod(p.mods, Mod::HeatingUp) {
        remove_player_mod(w, b, Mod::HeatingUp)
    } else {
        w
    }
}

/// The runner list of an event that carries one.
pub open spec fn runners_after_of(e: &Event) -> Seq<Runner> {
    match e {
        Event::BaseHit { runners_after, .. } => runners_after@,
        Event::GroundOut { runners_after, .. } => runners_after@,
        Event::Flyout { runners_after, .. } => runners_after@,
        Event::DoublePlay { runners_after } => runners_after@,
        Event::FieldersChoice { runners_after } => runners_after@,
        _ => Seq::empty(),
    }
}

/// A runner list that an event may carry: from the lead down, few, on low bases.
pub open spec fn runners_fit(s: Seq<Runner>) -> bool {
    &&& lead_first(s)
    &&& s.len() <= 8
    &&& forall|i: int| 0 <= i < s.len() ==> (#[trigger] s[i]).base <= 240
}

/// `g` with `d` added to the outs.
pub open spec fn add_outs(g: GameView, d: int) -> GameView {
    GameView { outs: (g.outs + d) as u8, ..g }
}

/// `g` with the runners replaced.
pub open spec fn set_runners(g: GameView, s: Seq<Runner>) -> GameView {
    GameView { runners: s, ..g }
}

/// The attribute boosts that a blood drain of kind `stat` gives, each `v`.
pub open spec fn drain_boosts(stat: u8, v: i64) -> Seq<i64> {
    Seq::new(
        26,
        |i: int|
            if (stat == 0 && 8 <= i < 14) || (stat == 1 && 0 <= i < 8) || (stat == 2 && 19 <= i
                < 24) || (stat == 3 && 14 <= i < 19) {
                v
            } else {
                0
            },
    )
}

/// The boost of a peanut reaction: every attribute moves by a fifth of a point.
pub open spec fn peanut_boosts(yummy: bool) -> Seq<i64> {
    Seq::new(26, |i: int| if yummy { 200000i64 } else { -200000i64 })
}

/// The modifier that a hit by pitch of kind `t` leaves.
pub open spec fn hbp_mod(t: u8) -> Mod {
    if t == 0 {
        Mod::Unstable
    } else if t == 1 {
        Mod::Flickering
    } else {
        Mod::Repeating
    }
}

/// Runners that score a bonus when swept away: those with flippers.
pub open spec fn flippers_on(s: Seq<Runner>, w: WorldView) -> nat
    decreases s.len(),
{
    if s.len() == 0 {
        0
    } else {
        flippers_on(s.drop_last(), w) + if player_has(w, s.last().id, Mod::Flippers) {
            1nat
        } else {
            0nat
        }
    }
}

/// Each player of `ids`, in order, is swept elsewhere on day `day`.
pub open spec fn swept_away(w: WorldView, ids: Seq<Id>, day: usize) -> WorldView
    decreases ids.len(),
{
    if ids.len() == 0 {
        w
    } else {
        let w1 = swept_away(w, ids.drop_last(), day);
        set_swept_on(
            add_player_mod(w1, ids.last(), Mod::Elsewhere, ModLifetime::Permanent),
            ids.last(),
            Some(day),
        )
    }
}

/// Each player of `ids`, in order, returns from elsewhere.
pub open spec fn returned_all(w: WorldView, ids: Seq<Id>) -> WorldView
    decreases ids.len(),
{
    if ids.len() == 0 {
        w
    } else {
        let w1 = returned_all(w, ids.drop_last());
        set_swept_on(remove_player_mod(w1, ids.last(), Mod::Elsewhere), ids.last(), None)
    }
}

/// The first `letters.len()` players of `ids`, in order, come back scattered by the
/// matching number of letters, when it is not zero.
pub open spec fn scattered_all(w: WorldView, ids: Seq<Id>, letters: Seq<u8>) -> WorldView
    decreases letters.len(),
{
    if letters.len() == 0 {
        w
    } else {
        let k = letters.len() - 1;
        let w1 = scattered_all(w, ids, letters.drop_last());
        if letters[k] > 0 {
            set_scattered(
                add_player_mod(w1, ids[k], Mod::Scattered, ModLifetime::Permanent),
                ids[k],
                letters[k],
            )
        } else {
            w1
        }
    }
}

/// Each player of `ids`, in order, gets one letter back (none below zero), and
/// stops being scattered at zero.
pub open spec fn unscattered_all(w: WorldView, ids: Seq<Id>) -> WorldView
    decreases ids.len(),
{
    if ids.len() == 0 {
        w
    } else {
        let w1 = unscattered_all(w, ids.drop_last());
        let id = ids.last();
        let n = player_of(w1, id).scattered_letters;
        let left: u8 = if n > 0 {
            (n - 1) as u8
        } else {
            0
        };
        let w2 = set_scattered(w1, id, left);
        if left == 0 {
            remove_player_mod(w2, id, Mod::Scattered)
        } else {
            w2
        }
    }
}

/// The line score entry that a salmon takes back, `k` innings from the newest.
pub open spec fn salmon_runs(ls: Seq<i64>, k: int) -> i64 {
    ls[ls.len() - 1 - k]
}

/// Whether applying `e` to `g` and `w` does not fail.
pub open spec fn fits(g: GameView, w: WorldView, e: &Event) -> bool {
    let n = bases_of(g, w);
    let bt = batting(g.scoreboard);
    let pt = pitching(g.scoreboard);
    match e {
        Event::BaseSteal { base_from, .. } => *base_from + 1 < n,
        Event::InningSwitch { .. } => g.weather == Weather::Salmon ==> (if g.scoreboard.top {
            g.linescore_away.len() > 0
        } else {
            g.linescore_home.len() > 0
        }),
        Event::GameOver => has_team(w, g.scoreboard.home_team.id) && has_team(
            w,
            g.scoreboard.away_team.id,
        ),
        Event::Strikeout | Event::CharmStrikeout | Event::Walk | Event::CharmWalk
        | Event::HomeRun | Event::MagmaticHomeRun | Event::InstinctWalk { .. } | Event::MildWalk
        | Event::Beaned | Event::PouredOver => batter_ok(g, w),
        Event::BaseHit { bases, runners_after } => batter_ok(g, w) && runners_fit(runners_after@)
            && 1 <= *bases <= n && !occupied_in(on_field(runners_after@, n as int), *bases - 1),
        Event::GroundOut { runners_after, .. } | Event::Flyout { runners_after, .. }
        | Event::DoublePlay { runners_after } => batter_ok(g, w) && runners_fit(runners_after@),
        Event::FieldersChoice { runners_after } => batter_ok(g, w) && runners_fit(runners_after@)
            && runners_after@.len() < 8 && !occupied_in(runners_after@, 0),
        Event::Party { target, .. } | Event::Peanut { target, .. } | Event::BigPeanut { target }
        | Event::TasteTheInfinite { target } | Event::FireEater { target } => has_player(w, *target),
        Event::PeckedFree { player } => has_player(w, *player),
        Event::Soundproof { tangled, .. } => has_player(w, *tangled),
        Event::Incineration { target, replacement, chain } => {
            let tp = player_of(w, *target);
            &&& has_player(w, *target)
            &&& tp.team.is_some()
            &&& has_team(w, tp.team.unwrap())
            &&& if replacement.name@.len() == 0 {
                !has_player(w, replacement.id)
            } else {
                has_player(w, replacement.id)
            }
            &&& chain.is_some() ==> has_player(w, chain.unwrap())
        },
        Event::Feedback { target1, target2 } => has_player(w, *target1) && has_player(w, *target2),
        Event::Reverb { reverb_type, team, changes } => {
            let t = reordered(w, *team, changes@);
            &&& has_team(w, *team)
            &&& reorders(w, *team, changes@)
            &&& (*reverb_type != 3 && bt.id == *team ==> team_of(t, *team).lineup.len() > 0)
            &&& (!(*reverb_type != 3 && bt.id == *team) && *reverb_type != 2 ==> team_of(
                t,
                *team,
            ).rotation.len() > 0)
        },
        Event::Blooddrain { drainer, target, siphon_effect, .. } => {
            &&& has_player(w, *drainer)
            &&& has_player(w, *target)
            &&& -1 <= *siphon_effect <= 2
            &&& *siphon_effect == 1 ==> g.outs > 0
            &&& *siphon_effect == 2 ==> g.balls > 0
        },
        Event::Sun2 { home_team } | Event::BlackHole { home_team } => has_team(
            w,
            g.scoreboard.home_team.id,
        ) && has_team(w, g.scoreboard.away_team.id),
        Event::Salmon { home_runs_lost, away_runs_lost } => {
            &&& g.runners.len() == 0
            &&& *away_runs_lost ==> g.salmon_resets_inning < g.linescore_away.len()
            &&& *home_runs_lost ==> g.salmon_resets_inning < g.linescore_home.len()
        },
        Event::NightShift { batter, replacement, replacement_idx, .. } => {
            let side = if *batter {
                bt
            } else {
                pt
            };
            let t = team_of(w, side.id);
            &&& has_team(w, side.id)
            &&& has_player(w, *replacement)
            &&& *replacement_idx < t.shadows.len()
            &&& *batter ==> bt.batter.is_some() && t.lineup.len() > 0
            &&& !*batter ==> t.rotation.len() > 0
        },
        Event::Reverberating { .. } | Event::Repeating { .. } => bt.batter_index > 0,
        Event::HitByPitch { target, hbp_type } => batter_ok(g, w) && has_player(w, *target)
            && *hbp_type <= 2,
        Event::Zap { batter } => if *batter {
            g.strikes > 0
        } else {
            g.balls > 0
        },
        Event::Performing { overperforming, underperforming } => all_players(w, overperforming@)
            && all_players(w, underperforming@),
        Event::TripleThreat => has_player(w, g.scoreboard.home_team.pitcher) && has_player(
            w,
            g.scoreboard.away_team.pitcher,
        ),
        Event::TripleThreatDeactivation { home, away } => (*home ==> has_player(
            w,
            g.scoreboard.home_team.pitcher,
        )) && (*away ==> has_player(w, g.scoreboard.away_team.pitcher)),
        Event::Swept { elsewhere } => all_players(w, elsewhere@),
        Event::ElsewhereReturn { returned, letters } => all_players(w, returned@)
            && letters@.len() <= returned@.len(),
        Event::Unscatter { unscattered } => all_players(w, unscattered@),
        _ => true,
    }
}

/// `g` with the side at bat changed by `t`.
pub open spec fn set_bat(g: GameView, t: GameTeam) -> GameView {
    GameView { scoreboard: with_batting(g.scoreboard, t), ..g }
}

/// `g` with the side in the field changed by `t`.
pub open spec fn set_pit(g: GameView, t: GameTeam) -> GameView {
    GameView { scoreboard: with_pitching(g.scoreboard, t), ..g }
}

/// `g` with one more scoring play in the half-inning.
pub open spec fn add_scoring_play(g: GameView) -> GameView {
    GameView { scoring_plays_inning: (g.scoring_plays_inning + 1) as u8, ..g }
}

/// A home run: every runner and the batter score, and the plate appearance ends.
pub open spec fn homered(g: GameView, n: u8) -> GameView {
    let g1 = set_runners(g, shifted(g.runners, n as int));
    let g2 = add_score(scored(g1, n), RUN as int);
    let g3 = if g.runners.len() == 0 {
        add_scoring_play(g2)
    } else {
        g2
    };
    end_pa(g3)
}

/// The batter takes base `base` once the runners are `s`; runs score and the plate
/// appearance ends.
pub open spec fn batter_on(g: GameView, s: Seq<Runner>, base: u8, n: u8) -> GameView {
    end_pa(scored(set_runners(g, with_runner(s, Runner { id: batter_of(g), base })), n))
}

/// The effect of a plate-appearance-ending event, after its tag is logged.
pub open spec fn pa_effect(g: GameView, w: WorldView, e: &Event) -> (GameView, WorldView) {
    let n = bases_of(g, w);
    let b = batter_of(g);
    let w1 = feed_player(w, b, tag_of(e));
    match e {
        Event::Strikeout | Event::CharmStrikeout => {
            let tt = player_has(w1, pitching(g.scoreboard).pitcher, Mod::TripleThreat) && (g.balls
                == 3 || occupied_in(g.runners, 2) || g.runners.len() == 3);
            let g1 = if tt {
                add_score(g, -3)
            } else {
                g
            };
            (end_pa(add_outs(g1, 1)), w1)
        },
        Event::Walk | Event::CharmWalk => (batter_on(g, pushed_from(g.runners, 0), 0, n), w1),
        Event::HomeRun => (homered(g, n), upgraded_spicy(g, w1)),
        Event::MagmaticHomeRun => (
            homered(g, n),
            upgraded_spicy(g, remove_player_mod(w1, b, Mod::Magmatic)),
        ),
        Event::BaseHit { bases, runners_after } => {
            let g2 = scored(set_runners(g, runners_after@), n);
            (
                end_pa(set_runners(g2, with_runner(g2.runners, Runner { id: b, base: (*bases - 1) as u8 }))),
                upgraded_spicy(g, w1),
            )
        },
        Event::GroundOut { runners_after, .. } | Event::Flyout { runners_after, .. } => (
            end_pa(scored(set_runners(add_outs(g, 1), runners_after@), n)),
            downgraded_spicy(g, w1),
        ),
        Event::DoublePlay { runners_after } => (
            end_pa(scored(set_runners(add_outs(g, 2), runners_after@), n)),
            downgraded_spicy(g, w1),
        ),
        Event::FieldersChoice { runners_after } => (
            batter_on(add_outs(g, 1), runners_after@, 0, n),
            downgraded_spicy(g, w1),
        ),
        Event::InstinctWalk { third } => (
            batter_on(g, instinct_pushed(g.runners, *third), if *third { 2 } else { 1 }, n),
            w1,
        ),
        Event::MildWalk => (batter_on(g, shifted(g.runners, 1), 0, n), w1),
        Event::HitByPitch { target, hbp_type } => (
            batter_on(g, pushed_from(g.runners, 0), 0, n),
            add_player_mod(w1, *target, hbp_mod(*hbp_type), ModLifetime::Week),
        ),
        Event::CrowAmbush => (end_pa(add_outs(g, 1)), w),
        _ => (g, w),
    }
}

/// The effect of an event on the roster and on who is at bat or pitching, after its
/// tag is logged.
pub open spec fn roster_effect(g: GameView, w: WorldView, e: &Event) -> (GameView, WorldView) {
    let bt = batting(g.scoreboard);
    let pt = pitching(g.scoreboard);
    match e {
        Event::Party { target, boosts } => (g, boost_player(w, *target, boosts@)),
        Event::Peanut { target, yummy } => (g, boost_player(w, *target, peanut_boosts(*yummy))),
        Event::Soundproof { tangled, decrease_boosts, .. } => (g, boost_player(w, *tangled, decrease_boosts@)),
        Event::Incineration { target, replacement, chain } => {
            let rep = replacement.id;
            let tid = player_of(w, *target).team.unwrap();
            let w1 = if replacement.name@.len() == 0 {
                with_player(w, PlayerView { team: Some(tid), ..replacement@ })
            } else {
                w
            };
            let g1 = match bt.batter {
                Some(bb) => if bb == *target {
                    set_bat(g, GameTeam { batter: Some(rep), ..bt })
                } else {
                    g
                },
                None => if *target == pt.pitcher {
                    set_pit(g, GameTeam { pitcher: rep, ..pt })
                } else if *target == bt.pitcher {
                    set_bat(g, GameTeam { pitcher: rep, ..bt })
                } else {
                    g
                },
            };
            let w2 = incinerated(w1, *target, rep, tid);
            (g1, match chain {
                Some(c) => add_player_mod(w2, *c, Mod::Unstable, ModLifetime::Week),
                None => w2,
            })
        },
        Event::Feedback { target1, target2 } => {
            let g1 = match bt.batter {
                Some(bb) => if bb == *target1 {
                    set_bat(g, GameTeam { batter: Some(*target2), ..bt })
                } else {
                    set_pit(g, GameTeam { pitcher: *target2, ..pt })
                },
                None => g,
            };
            let bt1 = batting(g1.scoreboard);
            let g2 = if bt1.pitcher == *target2 {
                set_bat(g1, GameTeam { pitcher: *target1, ..bt1 })
            } else {
                g1
            };
            (g2, swapped(w, *target1, *target2))
        },
        Event::Reverb { reverb_type, team, changes } => {
            let w1 = reordered(w, *team, changes@);
            let t = team_of(w1, *team);
            let g1 = if *reverb_type != 3 && bt.id == *team {
                let nb = t.lineup[(bt.batter_index as int) % (t.lineup.len() as int)];
                set_bat(g, GameTeam { batter: Some(nb), ..bt })
            } else if *reverb_type != 2 {
                let np = t.rotation[(g.day as int) % (t.rotation.len() as int)];
                if pt.id == *team {
                    set_pit(g, GameTeam { pitcher: np, ..pt })
                } else {
                    set_bat(g, GameTeam { pitcher: np, ..bt })
                }
            } else {
                g
            };
            (g1, w1)
        },
        Event::Blooddrain { drainer, target, stat, siphon_effect, .. } => {
            let (g1, w1) = if *siphon_effect == -1 {
                (g, boost_player(w, *drainer, drain_boosts(*stat, 100000i64)))
            } else if *siphon_effect == 0 {
                (add_outs(g, 1), w)
            } else if *siphon_effect == 1 {
                (add_outs(g, -1), w)
            } else {
                (GameView { balls: (g.balls - 1) as u8, ..g }, w)
            };
            (g1, boost_player(w1, *target, drain_boosts(*stat, -100000i64)))
        },
        Event::NightShift { batter, replacement, replacement_idx, boosts } => if *batter {
            let t = team_of(w, bt.id);
            let order = (bt.batter_index as int) % (t.lineup.len() as int);
            let w1 = set_slot(w, bt.id, 0, order, *replacement);
            let w2 = set_slot(w1, bt.id, 2, *replacement_idx as int, bt.batter.unwrap());
            (
                set_bat(g, GameTeam { batter: Some(*replacement), ..bt }),
                boost_player(w2, *replacement, boosts@),
            )
        } else {
            let w1 = set_slot(w, pt.id, 1, 0, *replacement);
            let w2 = set_slot(w1, pt.id, 2, *replacement_idx as int, pt.pitcher);
            (
                set_pit(g, GameTeam { pitcher: *replacement, ..pt }),
                boost_player(w2, *replacement, boosts@),
            )
        },
        Event::PeckedFree { player } => (
            g,
            add_player_mod(
                remove_player_mod(w, *player, Mod::Shelled),
                *player,
                Mod::Superallergic,
                ModLifetime::Permanent,
            ),
        ),
        Event::BigPeanut { target } | Event::TasteTheInfinite { target } => (
            g,
            add_player_mod(w, *target, Mod::Shelled, ModLifetime::Permanent),
        ),
        Event::FireEater { target } => (
            g,
            add_player_mod(w, *target, Mod::Magmatic, ModLifetime::Permanent),
        ),
        Event::Performing { overperforming, underperforming } => (
            g,
            add_mod_all(
                add_mod_all(w, overperforming@, Mod::Overperforming, ModLifetime::Game),
                underperforming@,
                Mod::Underperforming,
                ModLifetime::Game,
            ),
        ),
        Event::Beaned => {
            let b = batter_of(g);
            let p = player_of(w, b);
            (g, if has_mod(p.mods, Mod::Wired) {
                add_player_mod(remove_player_mod(w, b, Mod::Wired), b, Mod::Tired, ModLifetime::Game)
            } else if has_mod(p.mods, Mod::Tired) {
                remove_player_mod(w, b, Mod::Tired)
            } else {
                add_player_mod(w, b, Mod::Wired, ModLifetime::Game)
            })
        },
        Event::PouredOver => (
            g,
            add_player_mod(w, batter_of(g), Mod::FreeRefill, ModLifetime::Game),
        ),
        Event::TripleThreat => (
            g,
            add_player_mod(
                add_player_mod(
                    w,
                    g.scoreboard.home_team.pitcher,
                    Mod::TripleThreat,
                    ModLifetime::Permanent,
                ),
                g.scoreboard.away_team.pitcher,
                Mod::TripleThreat,
                ModLifetime::Permanent,
            ),
        ),
        Event::TripleThreatDeactivation { home, away } => {
            let w1 = if *home {
                remove_player_mod(w, g.scoreboard.home_team.pitcher, Mod::TripleThreat)
            } else {
                w
            };
            (g, if *away {
                remove_player_mod(w1, g.scoreboard.away_team.pitcher, Mod::TripleThreat)
            } else {
                w1
            })
        },
        Event::Swept { elsewhere } => (
            set_runners(add_score(g, flippers_on(g.runners, w) * RUN), Seq::empty()),
            swept_away(w, elsewhere@, g.day),
        ),
        Event::ElsewhereReturn { returned, letters } => (
            g,
            scattered_all(returned_all(w, returned@), returned@, letters@),
        ),
        Event::Unscatter { unscattered } => (g, unscattered_all(w, unscattered@)),
        _ => (g, w),
    }
}

/// The effect of an event on the count, the innings and the score, after its tag is
/// logged.
pub open spec fn count_effect(g: GameView, w: WorldView, e: &Event) -> (GameView, WorldView) {
    let bt = batting(g.scoreboard);
    let home = g.scoreboard.home_team;
    let away = g.scoreboard.away_team;
    let n = bases_of(g, w);
    let post = g.day > 98;
    match e {
        Event::BatterUp { batter } => (
            GameView { started: true, ..set_bat(g, GameTeam { batter: Some(*batter), ..bt }) },
            w,
        ),
        Event::Inhabiting { inhabit, .. } => (
            GameView { started: true, ..set_bat(g, GameTeam { batter: Some(*inhabit), ..bt }) },
            w,
        ),
        Event::InningSwitch { inning, top } => {
            let g1 = if g.weather == Weather::Salmon {
                if g.scoreboard.top {
                    let runs = (away.score - g.linescore_away[0]) as i64;
                    GameView {
                        linescore_away: g.linescore_away.push(runs).update(0, away.score),
                        ..g
                    }
                } else {
                    let runs = (home.score - g.linescore_home[0]) as i64;
                    GameView {
                        linescore_home: g.linescore_home.push(runs).update(0, home.score),
                        ..g
                    }
                }
            } else {
                g
            };
            (
                GameView {
                    inning: *inning,
                    scoreboard: crate::game::Scoreboard { top: *top, ..g1.scoreboard },
                    outs: 0,
                    balls: 0,
                    strikes: 0,
                    scoring_plays_inning: 0,
                    runners: Seq::empty(),
                    ..g1
                },
                w,
            )
        },
        Event::GameOver => {
            let home_won = home.score > away.score;
            let winner = if home_won {
                home.id
            } else {
                away.id
            };
            let loser = if home_won {
                away.id
            } else {
                home.id
            };
            (g, record(record(w, winner, true, !(g.day < 99), 1), loser, false, !(g.day < 99), 1))
        },
        Event::Ball => (GameView { balls: (g.balls + 1) as u8, ..g }, w),
        Event::Strike => (GameView { strikes: (g.strikes + 1) as u8, ..g }, w),
        Event::Foul => {
            let m = max_strikes_of(g, w);
            (
                GameView {
                    strikes: if g.strikes + 1 < m - 1 {
                        (g.strikes + 1) as u8
                    } else {
                        (m - 1) as u8
                    },
                    ..g
                },
                w,
            )
        },
        Event::BaseSteal { runner, base_from, .. } => {
            let g1 = if player_has(w, *runner, Mod::Blaserunning) {
                add_score(g, 2)
            } else {
                g
            };
            (set_runners(g1, crate::bases::advanced_one(g1.runners, *base_from as int)), w)
        },
        Event::CaughtStealing { base_from, .. } => (
            add_outs(set_runners(g, without_base(g.runners, *base_from as int)), 1),
            w,
        ),
        Event::MildPitch => (
            scored(set_runners(GameView { balls: (g.balls + 1) as u8, ..g }, shifted(g.runners, 1)), n),
            w,
        ),
        Event::Sun2 { home_team } => if *home_team {
            (
                GameView {
                    scoreboard: crate::game::Scoreboard {
                        home_team: GameTeam { score: (home.score - 100) as i64, ..home },
                        ..g.scoreboard
                    },
                    ..g
                },
                record(w, home.id, true, post, 1),
            )
        } else {
            (
                GameView {
                    scoreboard: crate::game::Scoreboard {
                        away_team: GameTeam { score: (away.score - 100) as i64, ..away },
                        ..g.scoreboard
                    },
                    ..g
                },
                record(w, away.id, true, post, 1),
            )
        },
        Event::BlackHole { home_team } => if *home_team {
            (
                GameView {
                    scoreboard: crate::game::Scoreboard {
                        home_team: GameTeam { score: (home.score - 100) as i64, ..home },
                        ..g.scoreboard
                    },
                    ..g
                },
                record(w, away.id, true, post, -1i64),
            )
        } else {
            (
                GameView {
                    scoreboard: crate::game::Scoreboard {
                        away_team: GameTeam { score: (away.score - 100) as i64, ..away },
                        ..g.scoreboard
                    },
                    ..g
                },
                record(w, home.id, true, post, -1i64),
            )
        },
        Event::Salmon { home_runs_lost, away_runs_lost } => {
            let g1 = if !scan_has(g.events, "Salmon"@, if g.scoreboard.top {
                3
            } else {
                2
            }, 0) {
                GameView { salmon_resets_inning: 0, ..g }
            } else {
                g
            };
            let k = g1.salmon_resets_inning as int;
            let a1 = if *away_runs_lost {
                (away.score - salmon_runs(g1.linescore_away, k)) as i64
            } else {
                away.score
            };
            let h1 = if *home_runs_lost {
                (home.score - salmon_runs(g1.linescore_home, k)) as i64
            } else {
                home.score
            };
            let sb = crate::game::Scoreboard {
                home_team: GameTeam { score: h1, ..home },
                away_team: GameTeam { score: a1, ..away },
                ..g1.scoreboard
            };
            let g2 = if !g.scoreboard.top {
                GameView { scoreboard: crate::game::Scoreboard { top: true, ..sb }, ..g1 }
            } else {
                GameView { scoreboard: sb, inning: (g1.inning - 1) as i16, ..g1 }
            };
            (GameView { salmon_resets_inning: (g1.salmon_resets_inning + 1) as u8, ..g2 }, w)
        },
        Event::PolaritySwitch => (GameView { polarity: !g.polarity, ..g }, w),
        Event::Reverberating { batter } | Event::Repeating { batter } => (
            set_bat(
                g,
                GameTeam {
                    batter_index: (bt.batter_index - 1) as usize,
                    batter: Some(*batter),
                    ..bt
                },
            ),
            w,
        ),
        Event::Shelled { .. } | Event::Elsewhere { .. } => (
            GameView {
                started: true,
                ..set_bat(g, GameTeam { batter_index: (bt.batter_index + 1) as usize, ..bt })
            },
            w,
        ),
        Event::Zap { batter } => (
            if *batter {
                GameView { strikes: (g.strikes - 1) as u8, ..g }
            } else {
                GameView { balls: (g.balls - 1) as u8, ..g }
            },
            w,
        ),
        _ => (g, w),
    }
}

/// Which of the three effects an event has.
pub open spec fn kind_of(e: &Event) -> int {
    if ends_pa(e) {
        0
    } else {
        match e {
            Event::BatterUp { .. } | Event::Inhabiting { .. } | Event::InningSwitch { .. }
            | Event::GameOver | Event::Ball | Event::Strike | Event::Foul
            | Event::BaseSteal { .. } | Event::CaughtStealing { .. } | Event::MildPitch
            | Event::Sun2 { .. } | Event::BlackHole { .. } | Event::Salmon { .. }
            | Event::PolaritySwitch | Event::Reverberating { .. } | Event::Repeating { .. }
            | Event::Shelled { .. } | Event::Elsewhere { .. } | Event::Zap { .. } => 1,
            _ => 2,
        }
    }
}

/// The match and the roster after `e` is applied: its tag is logged, then its one
/// effect is made.
pub open spec fn step(g: GameView, w: WorldView, e: &Event) -> (GameView, WorldView) {
    let g0 = GameView { events: g.events.push(tag_of(e)), ..g };
    if kind_of(e) == 0 {
        pa_effect(g0, w, e)
    } else if kind_of(e) == 1 {
        count_effect(g0, w, e)
    } else {
        roster_effect(g0, w, e)
    }
}

impl Event {
    /// The tag this event leaves in the event log.
    pub fn repr(&self) -> (r: String)
        ensures
            r@ == tag_of(self),
    {
        match self {
            Event::BatterUp { .. } => "BatterUp".to_owned(),
            Event::InningSwitch { .. } => "InningSwitch".to_owned(),
            Event::GameOver => "GameOver".to_owned(),
            Event::Ball => "Ball".to_owned(),
            Event::Strike => "Strike".to_owned(),
            Event::Foul => "Foul".to_owned(),
            Event::Strikeout => "Strikeout".to_owned(),
            Event::Walk => "Walk".to_owned(),
            Event::HomeRun => "HomeRun".to_owned(),
            Event::BaseHit { .. } => "BaseHit".to_owned(),
            Event::GroundOut { .. } => "GroundOut".to_owned(),
            Event::Flyout { .. } => "Flyout".to_owned(),
            Event::DoublePlay { .. } => "DoublePlay".to_owned(),
            Event::FieldersChoice { .. } => "FieldersChoice".to_owned(),
            Event::BaseSteal { .. } => "BaseSteal".to_owned(),
            Event::CaughtStealing { .. } => "CaughtStealing".to_owned(),
            Event::Party { .. } => "Party".to_owned(),
            Event::Incineration { .. } => "Incineration".to_owned(),
            Event::Peanut { .. } => "Peanut".to_owned(),
            Event::Birds => "Birds".to_owned(),
            Event::Feedback { .. } => "Feedback".to_owned(),
            Event::Reverb { .. } => "Reverb".to_owned(),
            Event::Blooddrain { .. } => "Blooddrain".to_owned(),
            Event::Sun2 { .. } => "Sun2".to_owned(),
            Event::BlackHole { .. } => "BlackHole".to_owned(),
            Event::Salmon { .. } => "Salmon".to_owned(),
            Event::PolaritySwitch => "PolaritySwitch".to_owned(),
            Event::NightShift { .. } => "NightShift".to_owned(),
            Event::Fireproof { .. } => "Fireproof".to_owned(),
            Event::Soundproof { .. } => "Soundproof".to_owned(),
            Event::Reverberating { .. } => "Reverberating".to_owned(),
            Event::Shelled { .. } => "Shelled".to_owned(),
            Event::HitByPitch { .. } => "HitByPitch".to_owned(),
            Event::PeckedFree { .. } => "PeckedFree".to_owned(),
            Event::IffeyJr { .. } => "IffeyJr".to_owned(),
            Event::Zap { .. } => "Zap".to_owned(),
            Event::InstinctWalk { .. } => "InstinctWalk".to_owned(),
            Event::BigPeanut { .. } => "BigPeanut".to_owned(),
            Event::CharmWalk => "CharmWalk".to_owned(),
            Event::CharmStrikeout => "CharmStrikeout".to_owned(),
            Event::MildPitch => "MildPitch".to_owned(),
            Event::MildWalk => "MildWalk".to_owned(),
            Event::Repeating { .. } => "Repeating".to_owned(),
            Event::FireEater { .. } => "FireEater".to_owned(),
            Event::MagmaticHomeRun => "MagmaticHomeRun".to_owned(),
            Event::CrowAmbush => "CrowAmbush".to_owned(),
            Event::TasteTheInfinite { .. } => "TasteTheInfinite".to_owned(),
            Event::Inhabiting { .. } => "Inhabiting".to_owned(),
            Event::BlockedDrain { .. } => "BlockedDrain".to_owned(),
            Event::Performing { .. } => "Performing".to_owned(),
            Event::Beaned => "Beaned".to_owned(),
            Event::PouredOver => "PouredOver".to_owned(),
            Event::TripleThreat => "TripleThreat".to_owned(),
            Event::TripleThreatDeactivation { .. } => "TripleThreatDeactivation".to_owned(),
            Event::Swept { .. } => "Swept".to_owned(),
            Event::Elsewhere { .. } => "Elsewhere".to_owned(),
            Event::ElsewhereReturn { .. } => "ElsewhereReturn".to_owned(),
            Event::Unscatter { .. } => "Unscatter".to_owned(),
        }
    }
}

/// A hit heats a spicy batter up, and a heated-up batter catches fire.
pub fn upgrade_spicy(game: &mut Game, world: &mut World)
    requires
        world_wf(old(world)@),
        batter_ok(old(game)@, old(world)@),
    ensures
        final(world)@ == upgraded_spicy(old(game)@, old(world)@),
        keeps_ids(old(world)@, final(world)@),
        final(game)@ == old(game)@,
{
    let b = game.batter().unwrap();
    let i = world.player_index(b).unwrap();
    let spicy = world.players[i].mods.has(Mod::Spicy);
    let hits = vec!["BaseHit".to_owned(), "HomeRun".to_owned()];
    proof {
        assert(hits@.map_values(|s: String| s@) =~= hit_tags());
    }
    if spicy && world.players[i].feed.streak_multiple(hits, -1) == 1 {
        world.add_mod(b, Mod::HeatingUp, ModLifetime::Permanent);
    } else if world.players[i].mods.has(Mod::HeatingUp) {
        world.remove_mod(b, Mod::HeatingUp);
        world.add_mod(b, Mod::RedHot, ModLifetime::Permanent);
    }
}

/// An out cools a batter on fire, or one heating up, down.
pub fn downgrade_spicy(game: &mut Game, world: &mut World)
    requires
        world_wf(old(world)@),
        batter_ok(old(game)@, old(world)@),
    ensures
        final(world)@ == downgraded_spicy(old(game)@, old(world)@),
        keeps_ids(old(world)@, final(world)@),
        final(game)@ == old(game)@,
{
    let b = game.batter().unwrap();
    let i = world.player_index(b).unwrap();
    if world.players[i].mods.has(Mod::RedHot) {
        world.remove_mod(b, Mod::RedHot);
    } else if world.players[i].mods.has(Mod::HeatingUp) {
        world.remove_mod(b, Mod::HeatingUp);
    }
}

/// The ground every effect stands on: the roster and the match are well-formed
/// and every counter has room.
pub open spec fn ready(g: GameView, w: WorldView) -> bool {
    &&& world_wf(w)
    &&& game_wf(g, w)
    &&& room(g)
}

impl Event {
    fn apply_pa(&self, game: &mut Game, world: &mut World)
        requires
            kind_of(self) == 0,
            ready(old(game)@, old(world)@),
            fits(old(game)@, old(world)@, self),
        ensures
            (final(game)@, final(world)@) == pa_effect(old(game)@, old(world)@, self),
            keeps_ids(old(world)@, final(world)@),
            final(game).runners.wf(),
            all_below(final(game)@.runners, bases_of(old(game)@, old(world)@) as int),
            final(world)@.teams == old(world)@.teams,
            batting(final(game)@.scoreboard).id == batting(old(game)@.scoreboard).id,
    {
        match self {
            Event::Strikeout | Event::CharmStrikeout => self.pa_strikeout(game, world),
            Event::Walk | Event::CharmWalk => self.pa_walk(game, world),
            Event::HomeRun | Event::MagmaticHomeRun => self.pa_homer(game, world),
            Event::BaseHit { bases, runners_after } => self.pa_base_hit(game, world),
            Event::GroundOut { runners_after, .. } | Event::Flyout { runners_after, .. } => self.pa_ground_or_fly(game, world),
            Event::DoublePlay { runners_after } => self.pa_double_play(game, world),
            Event::FieldersChoice { runners_after } => self.pa_fielders_choice(game, world),
            Event::InstinctWalk { third } => self.pa_instinct_walk(game, world),
            Event::MildWalk => self.pa_mild_walk(game, world),
            Event::HitByPitch { target, hbp_type } => self.pa_hit_by_pitch(game, world),
            Event::CrowAmbush => self.pa_crow_ambush(game, world),
            _ => {},
        }
    }

    fn pa_strikeout(&self, game: &mut Game, world: &mut World)
        requires
            self is Strikeout || self is CharmStrikeout,
            ready(old(game)@, old(world)@),
            fits(old(game)@, old(world)@, self),
        ensures
            (final(game)@, final(world)@) == pa_effect(old(game)@, old(world)@, self),
            keeps_ids(old(world)@, final(world)@),
            final(game).runners.wf(),
            all_below(final(game)@.runners, bases_of(old(game)@, old(world)@) as int),
            final(world)@.teams == old(world)@.teams,
            batting(final(game)@.scoreboard).id == batting(old(game)@.scoreboard).id,
    {
        proof {
            lemma_lead_first_len(old(game)@.runners, bases_of(old(game)@, old(world)@) as int);
        }
        let n = game.get_bases(world);
        let b = game.batter().unwrap();
        match self {
            Event::Strikeout | Event::CharmStrikeout => {
                world.feed(b, self.repr());
                let tt = world.player_has_mod(game.pitcher(), Mod::TripleThreat) && (game.balls
                    == 3 || game.runners.occupied(2) || game.runners.len() == 3);
                if tt {
                    game.add_score(-3);
                }
                game.outs = game.outs + 1;
                game.end_pa();
            },
            _ => {},
        }
    }

    fn pa_walk(&self, game: &mut Game, world: &mut World)
        requires
            self is Walk || self is CharmWalk,
            ready(old(game)@, old(world)@),
            fits(old(game)@, old(world)@, self),
        ensures
            (final(game)@, final(world)@) == pa_effect(old(game)@, old(world)@, self),
            keeps_ids(old(world)@, final(world)@),
            final(game).runners.wf(),
            all_below(final(game)@.runners, bases_of(old(game)@, old(world)@) as int),
            final(world)@.teams == old(world)@.teams,
            batting(final(game)@.scoreboard).id == batting(old(game)@.scoreboard).id,
    {
        proof {
            lemma_lead_first_len(old(game)@.runners, bases_of(old(game)@, old(world)@) as int);
        }
        let n = game.get_bases(world);
        let b = game.batter().unwrap();
        match self {
            Event::Walk | Event::CharmWalk => {
                world.feed(b, self.repr());
                game.runners.walk();
                game.runners.add(0, b);
                game.score(world);
                game.end_pa();
            },
            _ => {},
        }
    }

    fn pa_homer(&self, game: &mut Game, world: &mut World)
        requires
            self is HomeRun || self is MagmaticHomeRun,
            ready(old(game)@, old(world)@),
            fits(old(game)@, old(world)@, self),
        ensures
            (final(game)@, final(world)@) == pa_effect(old(game)@, old(world)@, self),
            keeps_ids(old(world)@, final(world)@),
            final(game).runners.wf(),
            all_below(final(game)@.runners, bases_of(old(game)@, old(world)@) as int),
            final(world)@.teams == old(world)@.teams,
            batting(final(game)@.scoreboard).id == batting(old(game)@.scoreboard).id,
    {
        proof {
            lemma_lead_first_len(old(game)@.runners, bases_of(old(game)@, old(world)@) as int);
        }
        let n = game.get_bases(world);
        let b = game.batter().unwrap();
        match self {
            Event::HomeRun | Event::MagmaticHomeRun => {
                world.feed(b, self.repr());
                if let Event::MagmaticHomeRun = self {
                    world.remove_mod(b, Mod::Magmatic);
                }
                upgrade_spicy(game, world);
                let no_runners_on = game.runners.empty();
                game.runners.advance_all(n);
                game.score(world);
                game.add_score(RUN);
                if no_runners_on {
                    game.scoring_plays_inning = game.scoring_plays_inning + 1;
                }
                game.end_pa();
            },
            _ => {},
        }
    }

    fn pa_base_hit(&self, game: &mut Game, world: &mut World)
        requires
            self is BaseHit,
            ready(old(game)@, old(world)@),
            fits(old(game)@, old(world)@, self),
        ensures
            (final(game)@, final(world)@) == pa_effect(old(game)@, old(world)@, self),
            keeps_ids(old(world)@, final(world)@),
            final(game).runners.wf(),
            all_below(final(game)@.runners, bases_of(old(game)@, old(world)@) as int),
            final(world)@.teams == old(world)@.teams,
            batting(final(game)@.scoreboard).id == batting(old(game)@.scoreboard).id,
    {
        proof {
            lemma_lead_first_len(old(game)@.runners, bases_of(old(game)@, old(world)@) as int);
        }
        let n = game.get_bases(world);
        let b = game.batter().unwrap();
        match self {
            Event::BaseHit { bases, runners_after } => {
                world.feed(b, self.repr());
                upgrade_spicy(game, world);
                game.runners = runners_after.duplicate();
                game.score(world);
                game.runners.add(*bases - 1, b);
                game.end_pa();
            },
            _ => {},
        }
    }

    fn pa_ground_or_fly(&self, game: &mut Game, world: &mut World)
        requires
            self is GroundOut || self is Flyout,
            ready(old(game)@, old(world)@),
            fits(old(game)@, old(world)@, self),
        ensures
            (final(game)@, final(world)@) == pa_effect(old(game)@, old(world)@, self),
            keeps_ids(old(world)@, final(world)@),
            final(game).runners.wf(),
            all_below(final(game)@.runners, bases_of(old(game)@, old(world)@) as int),
            final(world)@.teams == old(world)@.teams,
            batting(final(game)@.scoreboard).id == batting(old(game)@.scoreboard).id,
    {
        proof {
            lemma_lead_first_len(old(game)@.runners, bases_of(old(game)@, old(world)@) as int);
        }
        let n = game.get_bases(world);
        let b = game.batter().unwrap();
        match self {
            Event::GroundOut { runners_after, .. } | Event::Flyout { runners_after, .. } => {
                world.feed(b, self.repr());
                downgrade_spicy(game, world);
                game.outs = game.outs + 1;
                game.runners = runners_after.duplicate();
                game.score(world);
                game.end_pa();
            },
            _ => {},
        }
    }

    fn pa_double_play(&self, game: &mut Game, world: &mut World)
        requires
            self is DoublePlay,
            ready(old(game)@, old(world)@),
            fits(old(game)@, old(world)@, self),
        ensures
            (final(game)@, final(world)@) == pa_effect(old(game)@, old(world)@, self),
            keeps_ids(old(world)@, final(world)@),
            final(game).runners.wf(),
            all_below(final(game)@.runners, bases_of(old(game)@, old(world)@) as int),
            final(world)@.teams == old(world)@.teams,
            batting(final(game)@.scoreboard).id == batting(old(game)@.scoreboard).id,
    {
        proof {
            lemma_lead_first_len(old(game)@.runners, bases_of(old(game)@, old(world)@) as int);
        }
        let n = game.get_bases(world);
        let b = game.batter().unwrap();
        match self {
            Event::DoublePlay { runners_after } => {
                world.feed(b, self.repr());
                downgrade_spicy(game, world);
                game.outs = game.outs + 2;
                game.runners = runners_after.duplicate();
                game.score(world);
                game.end_pa();
            },
            _ => {},
        }
    }

    fn pa_fielders_choice(&self, game: &mut Game, world: &mut World)
        requires
            self is FieldersChoice,
            ready(old(game)@, old(world)@),
            fits(old(game)@, old(world)@, self),
        ensures
            (final(game)@, final(world)@) == pa_effect(old(game)@, old(world)@, self),
            keeps_ids(old(world)@, final(world)@),
            final(game).runners.wf(),
            all_below(final(game)@.runners, bases_of(old(game)@, old(world)@) as int),
            final(world)@.teams == old(world)@.teams,
            batting(final(game)@.scoreboard).id == batting(old(game)@.scoreboard).id,
    {
        proof {
            lemma_lead_first_len(old(game)@.runners, bases_of(old(game)@, old(world)@) as int);
        }
        let n = game.get_bases(world);
        let b = game.batter().unwrap();
        match self {
            Event::FieldersChoice { runners_after } => {
                world.feed(b, self.repr());
                downgrade_spicy(game, world);
                game.outs = game.outs + 1;
                game.runners = runners_after.duplicate();
                game.runners.add(0, b);
                game.score(world);
                game.end_pa();
            },
            _ => {},
        }
    }

    fn pa_instinct_walk(&self, game: &mut Game, world: &mut World)
        requires
            self is InstinctWalk,
            ready(old(game)@, old(world)@),
            fits(old(game)@, old(world)@, self),
        ensures
            (final(game)@, final(world)@) == pa_effect(old(game)@, old(world)@, self),
            keeps_ids(old(world)@, final(world)@),
            final(game).runners.wf(),
            all_below(final(game)@.runners, bases_of(old(game)@, old(world)@) as int),
            final(world)@.teams == old(world)@.teams,
            batting(final(game)@.scoreboard).id == batting(old(game)@.scoreboard).id,
    {
        proof {
            lemma_lead_first_len(old(game)@.runners, bases_of(old(game)@, old(world)@) as int);
        }
        let n = game.get_bases(world);
        let b = game.batter().unwrap();
        match self {
            Event::InstinctWalk { third } => {
                world.feed(b, self.repr());
                game.runners.walk_instincts(*third);
                game.runners.add(if *third { 2 } else { 1 }, b);
                game.score(world);
                game.end_pa();
            },
            _ => {},
        }
    }

    fn pa_mild_walk(&self, game: &mut Game, world: &mut World)
        requires
            self is MildWalk,
            ready(old(game)@, old(world)@),
            fits(old(game)@, old(world)@, self),
        ensures
            (final(game)@, final(world)@) == pa_effect(old(game)@, old(world)@, self),
            keeps_ids(old(world)@, final(world)@),
            final(game).runners.wf(),
            all_below(final(game)@.runners, bases_of(old(game)@, old(world)@) as int),
            final(world)@.teams == old(world)@.teams,
            batting(final(game)@.scoreboard).id == batting(old(game)@.scoreboard).id,
    {
        proof {
            lemma_lead_first_len(old(game)@.runners, bases_of(old(game)@, old(world)@) as int);
        }
        let n = game.get_bases(world);
        let b = game.batter().unwrap();
        match self {
            Event::MildWalk => {
                world.feed(b, self.repr());
                game.runners.advance_all(1);
                game.runners.add(0, b);
                game.score(world);
                game.end_pa();
            },
            _ => {},
        }
    }

    fn pa_hit_by_pitch(&self, game: &mut Game, world: &mut World)
        requires
            self is HitByPitch,
            ready(old(game)@, old(world)@),
            fits(old(game)@, old(world)@, self),
        ensures
            (final(game)@, final(world)@) == pa_effect(old(game)@, old(world)@, self),
            keeps_ids(old(world)@, final(world)@),
            final(game).runners.wf(),
            all_below(final(game)@.runners, bases_of(old(game)@, old(world)@) as int),
            final(world)@.teams == old(world)@.teams,
            batting(final(game)@.scoreboard).id == batting(old(game)@.scoreboard).id,
    {
        proof {
            lemma_lead_first_len(old(game)@.runners, bases_of(old(game)@, old(world)@) as int);
        }
        let n = game.get_bases(world);
        let b = game.batter().unwrap();
        match self {
            Event::HitByPitch { target, hbp_type } => {
                let m = if *hbp_type == 0 {
                    Mod::Unstable
                } else if *hbp_type == 1 {
                    Mod::Flickering
                } else {
                    Mod::Repeating
                };
                world.feed(b, self.repr());
                world.add_mod(*target, m, ModLifetime::Week);
                game.runners.walk();
                game.runners.add(0, b);
                game.score(world);
                game.end_pa();
            },
            _ => {},
        }
    }

    fn pa_crow_ambush(&self, game: &mut Game, world: &mut World)
        requires
            self is CrowAmbush,
            ready(old(game)@, old(world)@),
            fits(old(game)@, old(world)@, self),
        ensures
            (final(game)@, final(world)@) == pa_effect(old(game)@, old(world)@, self),
            keeps_ids(old(world)@, final(world)@),
            final(game).runners.wf(),
            all_below(final(game)@.runners, bases_of(old(game)@, old(world)@) as int),
            final(world)@.teams == old(world)@.teams,
            batting(final(game)@.scoreboard).id == batting(old(game)@.scoreboard).id,
    {
        proof {
            lemma_lead_first_len(old(game)@.runners, bases_of(old(game)@, old(world)@) as int);
        }
        let n = game.get_bases(world);
        match self {
            Event::CrowAmbush => {
                game.outs = game.outs + 1;
                game.end_pa();
            },
            _ => {},
        }
    }
}

impl Event {
    fn apply_count(&self, game: &mut Game, world: &mut World)
        requires
            kind_of(self) == 1,
            ready(old(game)@, old(world)@),
            fits(old(game)@, old(world)@, self),
        ensures
            (final(game)@, final(world)@) == count_effect(old(game)@, old(world)@, self),
            keeps_ids(old(world)@, final(world)@),
            same_team_mods(old(world)@, final(world)@),
            final(game).runners.wf(),
            all_below(final(game)@.runners, bases_of(old(game)@, old(world)@) as int),
            !(self is InningSwitch || self is Salmon) ==> batting(final(game)@.scoreboard).id
                == batting(old(game)@.scoreboard).id,
    {
        match self {
            Event::BatterUp { batter } => self.count_batter_up(game, world),
            Event::Inhabiting { inhabit, .. } => self.count_inhabiting(game, world),
            Event::InningSwitch { inning, top } => self.count_inning_switch(game, world),
            Event::GameOver => self.count_game_over(game, world),
            Event::Ball => self.count_ball(game, world),
            Event::Strike => self.count_strike(game, world),
            Event::Foul => self.count_foul(game, world),
            Event::BaseSteal { runner, base_from, .. } => self.count_base_steal(game, world),
            Event::CaughtStealing { base_from, .. } => self.count_caught_stealing(game, world),
            Event::MildPitch => self.count_mild_pitch(game, world),
            Event::Sun2 { home_team } => self.count_sun2(game, world),
            Event::BlackHole { home_team } => self.count_black_hole(game, world),
            Event::Salmon { home_runs_lost, away_runs_lost } => self.count_salmon(game, world),
            Event::PolaritySwitch => self.count_polarity_switch(game, world),
            Event::Reverberating { batter } | Event::Repeating { batter } => self.count_batter_back(game, world),
            Event::Shelled { .. } | Event::Elsewhere { .. } => self.count_batter_skipped(game, world),
            Event::Zap { batter } => self.count_zap(game, world),
            _ => {},
        }
    }

    fn count_batter_up(&self, game: &mut Game, world: &mut World)
        requires
            self is BatterUp,
            ready(old(game)@, old(world)@),
            fits(old(game)@, old(world)@, self),
        ensures
            (final(game)@, final(world)@) == count_effect(old(game)@, old(world)@, self),
            keeps_ids(old(world)@, final(world)@),
            same_team_mods(old(world)@, final(world)@),
            final(game).runners.wf(),
            all_below(final(game)@.runners, bases_of(old(game)@, old(world)@) as int),
            !(self is InningSwitch || self is Salmon) ==> batting(final(game)@.scoreboard).id
                == batting(old(game)@.scoreboard).id,
    {
        match self {
            Event::BatterUp { batter } => {
                let bt = game.batting_team();
                game.set_batting_team(GameTeam { batter: Some(*batter), ..bt });
                game.started = true;
            },
            _ => {},
        }
    }

    fn count_inhabiting(&self, game: &mut Game, world: &mut World)
        requires
            self is Inhabiting,
            ready(old(game)@, old(world)@),
            fits(old(game)@, old(world)@, self),
        ensures
            (final(game)@, final(world)@) == count_effect(old(game)@, old(world)@, self),
            keeps_ids(old(world)@, final(world)@),
            same_team_mods(old(world)@, final(world)@),
            final(game).runners.wf(),
            all_below(final(game)@.runners, bases_of(old(game)@, old(world)@) as int),
            !(self is InningSwitch || self is Salmon) ==> batting(final(game)@.scoreboard).id
                == batting(old(game)@.scoreboard).id,
    {
        match self {
            Event::Inhabiting { inhabit, .. } => {
                let bt = game.batting_team();
                game.set_batting_team(GameTeam { batter: Some(*inhabit), ..bt });
                game.started = true;
            },
            _ => {},
        }
    }

    fn count_inning_switch(&self, game: &mut Game, world: &mut World)
        requires
            self is InningSwitch,
            ready(old(game)@, old(world)@),
            fits(old(game)@, old(world)@, self),
        ensures
            (final(game)@, final(world)@) == count_effect(old(game)@, old(world)@, self),
            keeps_ids(old(world)@, final(world)@),
            same_team_mods(old(world)@, final(world)@),
            final(game).runners.wf(),
            all_below(final(game)@.runners, bases_of(old(game)@, old(world)@) as int),
            !(self is InningSwitch || self is Salmon) ==> batting(final(game)@.scoreboard).id
                == batting(old(game)@.scoreboard).id,
    {
        match self {
            Event::InningSwitch { inning, top } => {
                if game.weather == Weather::Salmon {
                    if game.scoreboard.top {
                        let runs = game.scoreboard.away_team.score - game.linescore_away[0];
                        game.linescore_away.push(runs);
                        let first = game.linescore_away[0] + runs;
                        game.linescore_away.set(0, first);
                    } else {
                        let runs = game.scoreboard.home_team.score - game.linescore_home[0];
                        game.linescore_home.push(runs);
                        let first = game.linescore_home[0] + runs;
                        game.linescore_home.set(0, first);
                    }
                }
                game.inning = *inning;
                game.scoreboard.top = *top;
                game.outs = 0;
                game.balls = 0;
                game.strikes = 0;
                game.scoring_plays_inning = 0;
                game.runners = Baserunners::new();
            },
            _ => {},
        }
    }

    fn count_game_over(&self, game: &mut Game, world: &mut World)
        requires
            self is GameOver,
            ready(old(game)@, old(world)@),
            fits(old(game)@, old(world)@, self),
        ensures
            (final(game)@, final(world)@) == count_effect(old(game)@, old(world)@, self),
            keeps_ids(old(world)@, final(world)@),
            same_team_mods(old(world)@, final(world)@),
            final(game).runners.wf(),
            all_below(final(game)@.runners, bases_of(old(game)@, old(world)@) as int),
            !(self is InningSwitch || self is Salmon) ==> batting(final(game)@.scoreboard).id
                == batting(old(game)@.scoreboard).id,
    {
        match self {
            Event::GameOver => {
                let home = game.scoreboard.home_team;
                let away = game.scoreboard.away_team;
                let home_won = home.score > away.score;
                let winner = if home_won { home.id } else { away.id };
                let loser = if home_won { away.id } else { home.id };
                let post = !(game.day < 99);
                world.record(winner, true, post, 1);
                world.record(loser, false, post, 1);
            },
            _ => {},
        }
    }

    fn count_ball(&self, game: &mut Game, world: &mut World)
        requires
            self is Ball,
            ready(old(game)@, old(world)@),
            fits(old(game)@, old(world)@, self),
        ensures
            (final(game)@, final(world)@) == count_effect(old(game)@, old(world)@, self),
            keeps_ids(old(world)@, final(world)@),
            same_team_mods(old(world)@, final(world)@),
            final(game).runners.wf(),
            all_below(final(game)@.runners, bases_of(old(game)@, old(world)@) as int),
            !(self is InningSwitch || self is Salmon) ==> batting(final(game)@.scoreboard).id
                == batting(old(game)@.scoreboard).id,
    {
        match self {
            Event::Ball => {
                game.balls = game.balls + 1;
            },
            _ => {},
        }
    }

    fn count_strike(&self, game: &mut Game, world: &mut World)
        requires
            self is Strike,
            ready(old(game)@, old(world)@),
            fits(old(game)@, old(world)@, self),
        ensures
            (final(game)@, final(world)@) == count_effect(old(game)@, old(world)@, self),
            keeps_ids(old(world)@, final(world)@),
            same_team_mods(old(world)@, final(world)@),
            final(game).runners.wf(),
            all_below(final(game)@.runners, bases_of(old(game)@, old(world)@) as int),
            !(self is InningSwitch || self is Salmon) ==> batting(final(game)@.scoreboard).id
                == batting(old(game)@.scoreboard).id,
    {
        match self {
            Event::Strike => {
                game.strikes = game.strikes + 1;
            },
            _ => {},
        }
    }

    fn count_foul(&self, game: &mut Game, world: &mut World)
        requires
            self is Foul,
            ready(old(game)@, old(world)@),
            fits(old(game)@, old(world)@, self),
        ensures
            (final(game)@, final(world)@) == count_effect(old(game)@, old(world)@, self),
            keeps_ids(old(world)@, final(world)@),
            same_team_mods(old(world)@, final(world)@),
            final(game).runners.wf(),
            all_below(final(game)@.runners, bases_of(old(game)@, old(world)@) as int),
            !(self is InningSwitch || self is Salmon) ==> batting(final(game)@.scoreboard).id
                == batting(old(game)@.scoreboard).id,
    {
        match self {
            Event::Foul => {
                let m = game.get_max_strikes(world);
                let s = game.strikes + 1;
                game.strikes = if s < m - 1 { s } else { m - 1 };
            },
            _ => {},
        }
    }

    fn count_base_steal(&self, game: &mut Game, world: &mut World)
        requires
            self is BaseSteal,
            ready(old(game)@, old(world)@),
            fits(old(game)@, old(world)@, self),
        ensures
            (final(game)@, final(world)@) == count_effect(old(game)@, old(world)@, self),
            keeps_ids(old(world)@, final(world)@),
            same_team_mods(old(world)@, final(world)@),
            final(game).runners.wf(),
            all_below(final(game)@.runners, bases_of(old(game)@, old(world)@) as int),
            !(self is InningSwitch || self is Salmon) ==> batting(final(game)@.scoreboard).id
                == batting(old(game)@.scoreboard).id,
    {
        match self {
            Event::BaseSteal { runner, base_from, .. } => {
                proof {
                    lemma_lead_first_len(old(game)@.runners, bases_of(old(game)@, old(world)@) as int);
                }
                if world.player_has_mod(*runner, Mod::Blaserunning) {
                    game.add_score(2);
                }
                proof {
                    crate::bases::lemma_advanced_one_below(
                        game@.runners,
                        *base_from as int,
                        bases_of(old(game)@, old(world)@) as int,
                    );
                }
                game.runners.advance(*base_from);
            },
            _ => {},
        }
    }

    fn count_caught_stealing(&self, game: &mut Game, world: &mut World)
        requires
            self is CaughtStealing,
            ready(old(game)@, old(world)@),
            fits(old(game)@, old(world)@, self),
        ensures
            (final(game)@, final(world)@) == count_effect(old(game)@, old(world)@, self),
            keeps_ids(old(world)@, final(world)@),
            same_team_mods(old(world)@, final(world)@),
            final(game).runners.wf(),
            all_below(final(game)@.runners, bases_of(old(game)@, old(world)@) as int),
            !(self is InningSwitch || self is Salmon) ==> batting(final(game)@.scoreboard).id
                == batting(old(game)@.scoreboard).id,
    {
        match self {
            Event::CaughtStealing { base_from, .. } => {
                game.runners.remove(*base_from);
                game.outs = game.outs + 1;
            },
            _ => {},
        }
    }

    fn count_mild_pitch(&self, game: &mut Game, world: &mut World)
        requires
            self is MildPitch,
            ready(old(game)@, old(world)@),
            fits(old(game)@, old(world)@, self),
        ensures
            (final(game)@, final(world)@) == count_effect(old(game)@, old(world)@, self),
            keeps_ids(old(world)@, final(world)@),
            same_team_mods(old(world)@, final(world)@),
            final(game).runners.wf(),
            all_below(final(game)@.runners, bases_of(old(game)@, old(world)@) as int),
            !(self is InningSwitch || self is Salmon) ==> batting(final(game)@.scoreboard).id
                == batting(old(game)@.scoreboard).id,
    {
        match self {
            Event::MildPitch => {
                proof {
                    lemma_lead_first_len(old(game)@.runners, bases_of(old(game)@, old(world)@) as int);
                }
                game.balls = game.balls + 1;
                game.runners.advance_all(1);
                game.score(world);
            },
            _ => {},
        }
    }

    fn count_sun2(&self, game: &mut Game, world: &mut World)
        requires
            self is Sun2,
            ready(old(game)@, old(world)@),
            fits(old(game)@, old(world)@, self),
        ensures
            (final(game)@, final(world)@) == count_effect(old(game)@, old(world)@, self),
            keeps_ids(old(world)@, final(world)@),
            same_team_mods(old(world)@, final(world)@),
            final(game).runners.wf(),
            all_below(final(game)@.runners, bases_of(old(game)@, old(world)@) as int),
            !(self is InningSwitch || self is Salmon) ==> batting(final(game)@.scoreboard).id
                == batting(old(game)@.scoreboard).id,
    {
        match self {
            Event::Sun2 { home_team } => {
                let post = game.day > 98;
                if *home_team {
                    game.scoreboard.home_team.score = game.scoreboard.home_team.score - 100;
                    world.record(game.scoreboard.home_team.id, true, post, 1);
                } else {
                    game.scoreboard.away_team.score = game.scoreboard.away_team.score - 100;
                    world.record(game.scoreboard.away_team.id, true, post, 1);
                }
            },
            _ => {},
        }
    }

    fn count_black_hole(&self, game: &mut Game, world: &mut World)
        requires
            self is BlackHole,
            ready(old(game)@, old(world)@),
            fits(old(game)@, old(world)@, self),
        ensures
            (final(game)@, final(world)@) == count_effect(old(game)@, old(world)@, self),
            keeps_ids(old(world)@, final(world)@),
            same_team_mods(old(world)@, final(world)@),
            final(game).runners.wf(),
            all_below(final(game)@.runners, bases_of(old(game)@, old(world)@) as int),
            !(self is InningSwitch || self is Salmon) ==> batting(final(game)@.scoreboard).id
                == batting(old(game)@.scoreboard).id,
    {
        match self {
            Event::BlackHole { home_team } => {
                let post = game.day > 98;
                if *home_team {
                    game.scoreboard.home_team.score = game.scoreboard.home_team.score - 100;
                    world.record(game.scoreboard.away_team.id, true, post, -1);
                } else {
                    game.scoreboard.away_team.score = game.scoreboard.away_team.score - 100;
                    world.record(game.scoreboard.home_team.id, true, post, -1);
                }
            },
            _ => {},
        }
    }

    fn count_salmon(&self, game: &mut Game, world: &mut World)
        requires
            self is Salmon,
            ready(old(game)@, old(world)@),
            fits(old(game)@, old(world)@, self),
        ensures
            (final(game)@, final(world)@) == count_effect(old(game)@, old(world)@, self),
            keeps_ids(old(world)@, final(world)@),
            same_team_mods(old(world)@, final(world)@),
            final(game).runners.wf(),
            all_below(final(game)@.runners, bases_of(old(game)@, old(world)@) as int),
            !(self is InningSwitch || self is Salmon) ==> batting(final(game)@.scoreboard).id
                == batting(old(game)@.scoreboard).id,
    {
        match self {
            Event::Salmon { home_runs_lost, away_runs_lost } => {
                let limit: i16 = if game.scoreboard.top { 3 } else { 2 };
                if !game.events.has("Salmon".to_owned(), limit) {
                    game.salmon_resets_inning = 0;
                }
                let k = game.salmon_resets_inning as usize;
                if *away_runs_lost {
                    let idx = game.linescore_away.len() - 1 - k;
                    game.scoreboard.away_team.score = game.scoreboard.away_team.score - game.linescore_away[idx];
                }
                if *home_runs_lost {
                    let idx = game.linescore_home.len() - 1 - k;
                    game.scoreboard.home_team.score = game.scoreboard.home_team.score - game.linescore_home[idx];
                }
                if !game.scoreboard.top {
                    game.scoreboard.top = true;
                } else {
                    game.inning = game.inning - 1;
                }
                game.salmon_resets_inning = game.salmon_resets_inning + 1;
            },
            _ => {},
        }
    }

    fn count_polarity_switch(&self, game: &mut Game, world: &mut World)
        requires
            self is PolaritySwitch,
            ready(old(game)@, old(world)@),
            fits(old(game)@, old(world)@, self),
        ensures
            (final(game)@, final(world)@) == count_effect(old(game)@, old(world)@, self),
            keeps_ids(old(world)@, final(world)@),
            same_team_mods(old(world)@, final(world)@),
            final(game).runners.wf(),
            all_below(final(game)@.runners, bases_of(old(game)@, old(world)@) as int),
            !(self is InningSwitch || self is Salmon) ==> batting(final(game)@.scoreboard).id
                == batting(old(game)@.scoreboard).id,
    {
        match self {
            Event::PolaritySwitch => {
                game.polarity = !game.polarity;
            },
            _ => {},
        }
    }

    fn count_batter_back(&self, game: &mut Game, world: &mut World)
        requires
            self is Reverberating || self is Repeating,
            ready(old(game)@, old(world)@),
            fits(old(game)@, old(world)@, self),
        ensures
            (final(game)@, final(world)@) == count_effect(old(game)@, old(world)@, self),
            keeps_ids(old(world)@, final(world)@),
            same_team_mods(old(world)@, final(world)@),
            final(game).runners.wf(),
            all_below(final(game)@.runners, bases_of(old(game)@, old(world)@) as int),
            !(self is InningSwitch || self is Salmon) ==> batting(final(game)@.scoreboard).id
                == batting(old(game)@.scoreboard).id,
    {
        match self {
            Event::Reverberating { batter } | Event::Repeating { batter } => {
                let bt = game.batting_team();
                game.set_batting_team(
                    GameTeam { batter_index: bt.batter_index - 1, batter: Some(*batter), ..bt },
                );
            },
            _ => {},
        }
    }

    fn count_batter_skipped(&self, game: &mut Game, world: &mut World)
        requires
            self is Shelled || self is Elsewhere,
            ready(old(game)@, old(world)@),
            fits(old(game)@, old(world)@, self),
        ensures
            (final(game)@, final(world)@) == count_effect(old(game)@, old(world)@, self),
            keeps_ids(old(world)@, final(world)@),
            same_team_mods(old(world)@, final(world)@),
            final(game).runners.wf(),
            all_below(final(game)@.runners, bases_of(old(game)@, old(world)@) as int),
            !(self is InningSwitch || self is Salmon) ==> batting(final(game)@.scoreboard).id
                == batting(old(game)@.scoreboard).id,
    {
        match self {
            Event::Shelled { .. } | Event::Elsewhere { .. } => {
                let bt = game.batting_team();
                game.set_batting_team(GameTeam { batter_index: bt.batter_index + 1, ..bt });
                game.started = true;
            },
            _ => {},
        }
    }

    fn count_zap(&self, game: &mut Game, world: &mut World)
        requires
            self is Zap,
            ready(old(game)@, old(world)@),
            fits(old(game)@, old(world)@, self),
        ensures
            (final(game)@, final(world)@) == count_effect(old(game)@, old(world)@, self),
            keeps_ids(old(world)@, final(world)@),
            same_team_mods(old(world)@, final(world)@),
            final(game).runners.wf(),
            all_below(final(game)@.runners, bases_of(old(game)@, old(world)@) as int),
            !(self is InningSwitch || self is Salmon) ==> batting(final(game)@.scoreboard).id
                == batting(old(game)@.scoreboard).id,
    {
        match self {
            Event::Zap { batter } => {
                if *batter {
                    game.strikes = game.strikes - 1;
                } else {
                    game.balls = game.balls - 1;
                }
            },
            _ => {},
        }
    }
}

impl Event {
    fn apply_roster(&self, game: &mut Game, world: &mut World)
        requires
            kind_of(self) == 2,
            ready(old(game)@, old(world)@),
            fits(old(game)@, old(world)@, self),
        ensures
            (final(game)@, final(world)@) == roster_effect(old(game)@, old(world)@, self),
            world_wf(final(world)@),
            same_team_mods(old(world)@, final(world)@),
            final(game).runners.wf(),
            all_below(final(game)@.runners, bases_of(old(game)@, old(world)@) as int),
            !(self is InningSwitch || self is Salmon) ==> batting(final(game)@.scoreboard).id
                == batting(old(game)@.scoreboard).id,
            batting(final(game)@.scoreboard).id == batting(old(game)@.scoreboard).id,
    {
        match self {
            Event::Party { target, boosts } => self.roster_party(game, world),
            Event::Peanut { target, yummy } => self.roster_peanut(game, world),
            Event::Soundproof { tangled, decrease_boosts, .. } => self.roster_soundproof(game, world),
            Event::Incineration { target, replacement, chain } => self.roster_incineration(game, world),
            Event::Feedback { target1, target2 } => self.roster_feedback(game, world),
            Event::Reverb { reverb_type, team, changes } => self.roster_reverb(game, world),
            Event::Blooddrain { drainer, target, stat, siphon_effect, .. } => self.roster_blooddrain(game, world),
            Event::NightShift { batter, replacement, replacement_idx, boosts } => self.roster_night_shift(game, world),
            Event::PeckedFree { player } => self.roster_pecked_free(game, world),
            Event::BigPeanut { target } | Event::TasteTheInfinite { target } => self.roster_shelled_by(game, world),
            Event::FireEater { target } => self.roster_fire_eater(game, world),
            Event::Performing { overperforming, underperforming } => self.roster_performing(game, world),
            Event::Beaned => self.roster_beaned(game, world),
            Event::PouredOver => self.roster_poured_over(game, world),
            Event::TripleThreat => self.roster_triple_threat(game, world),
            Event::TripleThreatDeactivation { home, away } => self.roster_triple_threat_off(game, world),
            Event::Swept { elsewhere } => self.roster_swept(game, world),
            Event::ElsewhereReturn { returned, letters } => self.roster_elsewhere_return(game, world),
            Event::Unscatter { unscattered } => self.roster_unscatter(game, world),
            _ => {},
        }
    }

    fn roster_party(&self, game: &mut Game, world: &mut World)
        requires
            self is Party,
            ready(old(game)@, old(world)@),
            fits(old(game)@, old(world)@, self),
        ensures
            (final(game)@, final(world)@) == roster_effect(old(game)@, old(world)@, self),
            world_wf(final(world)@),
            same_team_mods(old(world)@, final(world)@),
            final(game).runners.wf(),
            all_below(final(game)@.runners, bases_of(old(game)@, old(world)@) as int),
            !(self is InningSwitch || self is Salmon) ==> batting(final(game)@.scoreboard).id
                == batting(old(game)@.scoreboard).id,
            batting(final(game)@.scoreboard).id == batting(old(game)@.scoreboard).id,
    {
        match self {
            Event::Party { target, boosts } => {
                world.boost(*target, boosts);
            },
            _ => {},
        }
    }

    fn roster_peanut(&self, game: &mut Game, world: &mut World)
        requires
            self is Peanut,
            ready(old(game)@, old(world)@),
            fits(old(game)@, old(world)@, self),
        ensures
            (final(game)@, final(world)@) == roster_effect(old(game)@, old(world)@, self),
            world_wf(final(world)@),
            same_team_mods(old(world)@, final(world)@),
            final(game).runners.wf(),
            all_below(final(game)@.runners, bases_of(old(game)@, old(world)@) as int),
            !(self is InningSwitch || self is Salmon) ==> batting(final(game)@.scoreboard).id
                == batting(old(game)@.scoreboard).id,
            batting(final(game)@.scoreboard).id == batting(old(game)@.scoreboard).id,
    {
        match self {
            Event::Peanut { target, yummy } => {
                let v = peanut_vec(*yummy);
                world.boost(*target, &v);
            },
            _ => {},
        }
    }

    fn roster_soundproof(&self, game: &mut Game, world: &mut World)
        requires
            self is Soundproof,
            ready(old(game)@, old(world)@),
            fits(old(game)@, old(world)@, self),
        ensures
            (final(game)@, final(world)@) == roster_effect(old(game)@, old(world)@, self),
            world_wf(final(world)@),
            same_team_mods(old(world)@, final(world)@),
            final(game).runners.wf(),
            all_below(final(game)@.runners, bases_of(old(game)@, old(world)@) as int),
            !(self is InningSwitch || self is Salmon) ==> batting(final(game)@.scoreboard).id
                == batting(old(game)@.scoreboard).id,
            batting(final(game)@.scoreboard).id == batting(old(game)@.scoreboard).id,
    {
        match self {
            Event::Soundproof { tangled, decrease_boosts, .. } => {
                world.boost(*tangled, decrease_boosts);
            },
            _ => {},
        }
    }

    fn roster_incineration(&self, game: &mut Game, world: &mut World)
        requires
            self is Incineration,
            ready(old(game)@, old(world)@),
            fits(old(game)@, old(world)@, self),
        ensures
            (final(game)@, final(world)@) == roster_effect(old(game)@, old(world)@, self),
            world_wf(final(world)@),
            same_team_mods(old(world)@, final(world)@),
            final(game).runners.wf(),
            all_below(final(game)@.runners, bases_of(old(game)@, old(world)@) as int),
            !(self is InningSwitch || self is Salmon) ==> batting(final(game)@.scoreboard).id
                == batting(old(game)@.scoreboard).id,
            batting(final(game)@.scoreboard).id == batting(old(game)@.scoreboard).id,
    {
        match self {
            Event::Incineration { target, replacement, chain } => {
                let rep = replacement.id;
                let ti = world.player_index(*target).unwrap();
                let tid = world.players[ti].team.unwrap();
                if replacement.name.as_str().is_empty() {
                    let mut p = replacement.duplicate();
                    p.team = Some(tid);
                    world.add_player(p);
                }
                let bt = game.batting_team();
                let pt = game.pitching_team();
                match bt.batter {
                    Some(bb) => {
                        if bb == *target {
                            game.set_batting_team(GameTeam { batter: Some(rep), ..bt });
                        }
                    },
                    None => {
                        if *target == pt.pitcher {
                            game.set_pitching_team(GameTeam { pitcher: rep, ..pt });
                        } else if *target == bt.pitcher {
                            game.set_batting_team(GameTeam { pitcher: rep, ..bt });
                        }
                    },
                }
                world.incinerate(*target, rep, tid);
                if let Some(c) = chain {
                    world.add_mod(*c, Mod::Unstable, ModLifetime::Week);
                }
            },
            _ => {},
        }
    }

    fn roster_feedback(&self, game: &mut Game, world: &mut World)
        requires
            self is Feedback,
            ready(old(game)@, old(world)@),
            fits(old(game)@, old(world)@, self),
        ensures
            (final(game)@, final(world)@) == roster_effect(old(game)@, old(world)@, self),
            world_wf(final(world)@),
            same_team_mods(old(world)@, final(world)@),
            final(game).runners.wf(),
            all_below(final(game)@.runners, bases_of(old(game)@, old(world)@) as int),
            !(self is InningSwitch || self is Salmon) ==> batting(final(game)@.scoreboard).id
                == batting(old(game)@.scoreboard).id,
            batting(final(game)@.scoreboard).id == batting(old(game)@.scoreboard).id,
    {
        match self {
            Event::Feedback { target1, target2 } => {
                let bt = game.batting_team();
                let pt = game.pitching_team();
                if let Some(bb) = bt.batter {
                    if bb == *target1 {
                        game.set_batting_team(GameTeam { batter: Some(*target2), ..bt });
                    } else {
                        game.set_pitching_team(GameTeam { pitcher: *target2, ..pt });
                    }
                }
                let bt1 = game.batting_team();
                if bt1.pitcher == *target2 {
                    game.set_batting_team(GameTeam { pitcher: *target1, ..bt1 });
                }
                world.swap(*target1, *target2);
            },
            _ => {},
        }
    }

    fn roster_reverb(&self, game: &mut Game, world: &mut World)
        requires
            self is Reverb,
            ready(old(game)@, old(world)@),
            fits(old(game)@, old(world)@, self),
        ensures
            (final(game)@, final(world)@) == roster_effect(old(game)@, old(world)@, self),
            world_wf(final(world)@),
            same_team_mods(old(world)@, final(world)@),
            final(game).runners.wf(),
            all_below(final(game)@.runners, bases_of(old(game)@, old(world)@) as int),
            !(self is InningSwitch || self is Salmon) ==> batting(final(game)@.scoreboard).id
                == batting(old(game)@.scoreboard).id,
            batting(final(game)@.scoreboard).id == batting(old(game)@.scoreboard).id,
    {
        match self {
            Event::Reverb { reverb_type, team, changes } => {
                world.reorder(*team, changes);
                let ti = world.team_index(*team).unwrap();
                let bt = game.batting_team();
                let pt = game.pitching_team();
                if *reverb_type != 3 && bt.id == *team {
                    let l = world.teams[ti].lineup.len();
                    let nb = world.teams[ti].lineup[bt.batter_index % l];
                    game.set_batting_team(GameTeam { batter: Some(nb), ..bt });
                } else if *reverb_type != 2 {
                    let r = world.teams[ti].rotation.len();
                    let np = world.teams[ti].rotation[game.day % r];
                    if pt.id == *team {
                        game.set_pitching_team(GameTeam { pitcher: np, ..pt });
                    } else {
                        game.set_batting_team(GameTeam { pitcher: np, ..bt });
                    }
                }
            },
            _ => {},
        }
    }

    fn roster_blooddrain(&self, game: &mut Game, world: &mut World)
        requires
            self is Blooddrain,
            ready(old(game)@, old(world)@),
            fits(old(game)@, old(world)@, self),
        ensures
            (final(game)@, final(world)@) == roster_effect(old(game)@, old(world)@, self),
            world_wf(final(world)@),
            same_team_mods(old(world)@, final(world)@),
            final(game).runners.wf(),
            all_below(final(game)@.runners, bases_of(old(game)@, old(world)@) as int),
            !(self is InningSwitch || self is Salmon) ==> batting(final(game)@.scoreboard).id
                == batting(old(game)@.scoreboard).id,
            batting(final(game)@.scoreboard).id == batting(old(game)@.scoreboard).id,
    {
        match self {
            Event::Blooddrain { drainer, target, stat, siphon_effect, .. } => {
                if *siphon_effect == -1 {
                    let v = drain_vec(*stat, 100000);
                    world.boost(*drainer, &v);
                } else if *siphon_effect == 0 {
                    game.outs = game.outs + 1;
                } else if *siphon_effect == 1 {
                    game.outs = game.outs - 1;
                } else {
                    game.balls = game.balls - 1;
                }
                let d = drain_vec(*stat, -100000);
                world.boost(*target, &d);
            },
            _ => {},
        }
    }

    fn roster_night_shift(&self, game: &mut Game, world: &mut World)
        requires
            self is NightShift,
            ready(old(game)@, old(world)@),
            fits(old(game)@, old(world)@, self),
        ensures
            (final(game)@, final(world)@) == roster_effect(old(game)@, old(world)@, self),
            world_wf(final(world)@),
            same_team_mods(old(world)@, final(world)@),
            final(game).runners.wf(),
            all_below(final(game)@.runners, bases_of(old(game)@, old(world)@) as int),
            !(self is InningSwitch || self is Salmon) ==> batting(final(game)@.scoreboard).id
                == batting(old(game)@.scoreboard).id,
            batting(final(game)@.scoreboard).id == batting(old(game)@.scoreboard).id,
    {
        match self {
            Event::NightShift { batter, replacement, replacement_idx, boosts } => {
                if *batter {
                    let bt = game.batting_team();
                    let ti = world.team_index(bt.id).unwrap();
                    let order = bt.batter_index % world.teams[ti].lineup.len();
                    let active = bt.batter.unwrap();
                    world.set_slot(bt.id, 0, order, *replacement);
                    world.set_slot(bt.id, 2, *replacement_idx, active);
                    world.boost(*replacement, boosts);
                    game.set_batting_team(GameTeam { batter: Some(*replacement), ..bt });
                } else {
                    let pt = game.pitching_team();
                    world.set_slot(pt.id, 1, 0, *replacement);
                    world.set_slot(pt.id, 2, *replacement_idx, pt.pitcher);
                    world.boost(*replacement, boosts);
                    game.set_pitching_team(GameTeam { pitcher: *replacement, ..pt });
                }
            },
            _ => {},
        }
    }

    fn roster_pecked_free(&self, game: &mut Game, world: &mut World)
        requires
            self is PeckedFree,
            ready(old(game)@, old(world)@),
            fits(old(game)@, old(world)@, self),
        ensures
            (final(game)@, final(world)@) == roster_effect(old(game)@, old(world)@, self),
            world_wf(final(world)@),
            same_team_mods(old(world)@, final(world)@),
            final(game).runners.wf(),
            all_below(final(game)@.runners, bases_of(old(game)@, old(world)@) as int),
            !(self is InningSwitch || self is Salmon) ==> batting(final(game)@.scoreboard).id
                == batting(old(game)@.scoreboard).id,
            batting(final(game)@.scoreboard).id == batting(old(game)@.scoreboard).id,
    {
        match self {
            Event::PeckedFree { player } => {
                world.remove_mod(*player, Mod::Shelled);
                world.add_mod(*player, Mod::Superallergic, ModLifetime::Permanent);
            },
            _ => {},
        }
    }

    fn roster_shelled_by(&self, game: &mut Game, world: &mut World)
        requires
            self is BigPeanut || self is TasteTheInfinite,
            ready(old(game)@, old(world)@),
            fits(old(game)@, old(world)@, self),
        ensures
            (final(game)@, final(world)@) == roster_effect(old(game)@, old(world)@, self),
            world_wf(final(world)@),
            same_team_mods(old(world)@, final(world)@),
            final(game).runners.wf(),
            all_below(final(game)@.runners, bases_of(old(game)@, old(world)@) as int),
            !(self is InningSwitch || self is Salmon) ==> batting(final(game)@.scoreboard).id
                == batting(old(game)@.scoreboard).id,
            batting(final(game)@.scoreboard).id == batting(old(game)@.scoreboard).id,
    {
        match self {
            Event::BigPeanut { target } | Event::TasteTheInfinite { target } => {
                world.add_mod(*target, Mod::Shelled, ModLifetime::Permanent);
            },
            _ => {},
        }
    }

    fn roster_fire_eater(&self, game: &mut Game, world: &mut World)
        requires
            self is FireEater,
            ready(old(game)@, old(world)@),
            fits(old(game)@, old(world)@, self),
        ensures
            (final(game)@, final(world)@) == roster_effect(old(game)@, old(world)@, self),
            world_wf(final(world)@),
            same_team_mods(old(world)@, final(world)@),
            final(game).runners.wf(),
            all_below(final(game)@.runners, bases_of(old(game)@, old(world)@) as int),
            !(self is InningSwitch || self is Salmon) ==> batting(final(game)@.scoreboard).id
                == batting(old(game)@.scoreboard).id,
            batting(final(game)@.scoreboard).id == batting(old(game)@.scoreboard).id,
    {
        match self {
            Event::FireEater { target } => {
                world.add_mod(*target, Mod::Magmatic, ModLifetime::Permanent);
            },
            _ => {},
        }
    }

    fn roster_performing(&self, game: &mut Game, world: &mut World)
        requires
            self is Performing,
            ready(old(game)@, old(world)@),
            fits(old(game)@, old(world)@, self),
        ensures
            (final(game)@, final(world)@) == roster_effect(old(game)@, old(world)@, self),
            world_wf(final(world)@),
            same_team_mods(old(world)@, final(world)@),
            final(game).runners.wf(),
            all_below(final(game)@.runners, bases_of(old(game)@, old(world)@) as int),
            !(self is InningSwitch || self is Salmon) ==> batting(final(game)@.scoreboard).id
                == batting(old(game)@.scoreboard).id,
            batting(final(game)@.scoreboard).id == batting(old(game)@.scoreboard).id,
    {
        match self {
            Event::Performing { overperforming, underperforming } => {
                world.add_mod_all(overperforming, Mod::Overperforming, ModLifetime::Game);
                world.add_mod_all(underperforming, Mod::Underperforming, ModLifetime::Game);
            },
            _ => {},
        }
    }

    fn roster_beaned(&self, game: &mut Game, world: &mut World)
        requires
            self is Beaned,
            ready(old(game)@, old(world)@),
            fits(old(game)@, old(world)@, self),
        ensures
            (final(game)@, final(world)@) == roster_effect(old(game)@, old(world)@, self),
            world_wf(final(world)@),
            same_team_mods(old(world)@, final(world)@),
            final(game).runners.wf(),
            all_below(final(game)@.runners, bases_of(old(game)@, old(world)@) as int),
            !(self is InningSwitch || self is Salmon) ==> batting(final(game)@.scoreboard).id
                == batting(old(game)@.scoreboard).id,
            batting(final(game)@.scoreboard).id == batting(old(game)@.scoreboard).id,
    {
        match self {
            Event::Beaned => {
                let b = game.batter().unwrap();
                let i = world.player_index(b).unwrap();
                if world.players[i].mods.has(Mod::Wired) {
                    world.remove_mod(b, Mod::Wired);
                    world.add_mod(b, Mod::Tired, ModLifetime::Game);
                } else if world.players[i].mods.has(Mod::Tired) {
                    world.remove_mod(b, Mod::Tired);
                } else {
                    world.add_mod(b, Mod::Wired, ModLifetime::Game);
                }
            },
            _ => {},
        }
    }

    fn roster_poured_over(&self, game: &mut Game, world: &mut World)
        requires
            self is PouredOver,
            ready(old(game)@, old(world)@),
            fits(old(game)@, old(world)@, self),
        ensures
            (final(game)@, final(world)@) == roster_effect(old(game)@, old(world)@, self),
            world_wf(final(world)@),
            same_team_mods(old(world)@, final(world)@),
            final(game).runners.wf(),
            all_below(final(game)@.runners, bases_of(old(game)@, old(world)@) as int),
            !(self is InningSwitch || self is Salmon) ==> batting(final(game)@.scoreboard).id
                == batting(old(game)@.scoreboard).id,
            batting(final(game)@.scoreboard).id == batting(old(game)@.scoreboard).id,
    {
        match self {
            Event::PouredOver => {
                let b = game.batter().unwrap();
                world.add_mod(b, Mod::FreeRefill, ModLifetime::Game);
            },
            _ => {},
        }
    }

    fn roster_triple_threat(&self, game: &mut Game, world: &mut World)
        requires
            self is TripleThreat,
            ready(old(game)@, old(world)@),
            fits(old(game)@, old(world)@, self),
        ensures
            (final(game)@, final(world)@) == roster_effect(old(game)@, old(world)@, self),
            world_wf(final(world)@),
            same_team_mods(old(world)@, final(world)@),
            final(game).runners.wf(),
            all_below(final(game)@.runners, bases_of(old(game)@, old(world)@) as int),
            !(self is InningSwitch || self is Salmon) ==> batting(final(game)@.scoreboard).id
                == batting(old(game)@.scoreboard).id,
            batting(final(game)@.scoreboard).id == batting(old(game)@.scoreboard).id,
    {
        match self {
            Event::TripleThreat => {
                world.add_mod(game.scoreboard.home_team.pitcher, Mod::TripleThreat, ModLifetime::Permanent);
                world.add_mod(game.scoreboard.away_team.pitcher, Mod::TripleThreat, ModLifetime::Permanent);
            },
            _ => {},
        }
    }

    fn roster_triple_threat_off(&self, game: &mut Game, world: &mut World)
        requires
            self is TripleThreatDeactivation,
            ready(old(game)@, old(world)@),
            fits(old(game)@, old(world)@, self),
        ensures
            (final(game)@, final(world)@) == roster_effect(old(game)@, old(world)@, self),
            world_wf(final(world)@),
            same_team_mods(old(world)@, final(world)@),
            final(game).runners.wf(),
            all_below(final(game)@.runners, bases_of(old(game)@, old(world)@) as int),
            !(self is InningSwitch || self is Salmon) ==> batting(final(game)@.scoreboard).id
                == batting(old(game)@.scoreboard).id,
            batting(final(game)@.scoreboard).id == batting(old(game)@.scoreboard).id,
    {
        match self {
            Event::TripleThreatDeactivation { home, away } => {
                if *home {
                    world.remove_mod(game.scoreboard.home_team.pitcher, Mod::TripleThreat);
                }
                if *away {
                    world.remove_mod(game.scoreboard.away_team.pitcher, Mod::TripleThreat);
                }
            },
            _ => {},
        }
    }

    fn roster_swept(&self, game: &mut Game, world: &mut World)
        requires
            self is Swept,
            ready(old(game)@, old(world)@),
            fits(old(game)@, old(world)@, self),
        ensures
            (final(game)@, final(world)@) == roster_effect(old(game)@, old(world)@, self),
            world_wf(final(world)@),
            same_team_mods(old(world)@, final(world)@),
            final(game).runners.wf(),
            all_below(final(game)@.runners, bases_of(old(game)@, old(world)@) as int),
            !(self is InningSwitch || self is Salmon) ==> batting(final(game)@.scoreboard).id
                == batting(old(game)@.scoreboard).id,
            batting(final(game)@.scoreboard).id == batting(old(game)@.scoreboard).id,
    {
        match self {
            Event::Swept { elsewhere } => {
                proof {
                    lemma_lead_first_len(old(game)@.runners, bases_of(old(game)@, old(world)@) as int);
                }
                let k = count_flippers(&game.runners, world);
                game.add_score(k * RUN);
                game.runners.clear();
                sweep_away(world, elsewhere, game.day);
            },
            _ => {},
        }
    }

    fn roster_elsewhere_return(&self, game: &mut Game, world: &mut World)
        requires
            self is ElsewhereReturn,
            ready(old(game)@, old(world)@),
            fits(old(game)@, old(world)@, self),
        ensures
            (final(game)@, final(world)@) == roster_effect(old(game)@, old(world)@, self),
            world_wf(final(world)@),
            same_team_mods(old(world)@, final(world)@),
            final(game).runners.wf(),
            all_below(final(game)@.runners, bases_of(old(game)@, old(world)@) as int),
            !(self is InningSwitch || self is Salmon) ==> batting(final(game)@.scoreboard).id
                == batting(old(game)@.scoreboard).id,
            batting(final(game)@.scoreboard).id == batting(old(game)@.scoreboard).id,
    {
        match self {
            Event::ElsewhereReturn { returned, letters } => {
                return_all(world, returned);
                scatter_all(world, returned, letters);
            },
            _ => {},
        }
    }

    fn roster_unscatter(&self, game: &mut Game, world: &mut World)
        requires
            self is Unscatter,
            ready(old(game)@, old(world)@),
            fits(old(game)@, old(world)@, self),
        ensures
            (final(game)@, final(world)@) == roster_effect(old(game)@, old(world)@, self),
            world_wf(final(world)@),
            same_team_mods(old(world)@, final(world)@),
            final(game).runners.wf(),
            all_below(final(game)@.runners, bases_of(old(game)@, old(world)@) as int),
            !(self is InningSwitch || self is Salmon) ==> batting(final(game)@.scoreboard).id
                == batting(old(game)@.scoreboard).id,
            batting(final(game)@.scoreboard).id == batting(old(game)@.scoreboard).id,
    {
        match self {
            Event::Unscatter { unscattered } => {
                unscatter_all(world, unscattered);
            },
            _ => {},
        }
    }
}

fn peanut_vec(yummy: bool) -> (r: Vec<i64>)
    ensures
        r@ == peanut_boosts(yummy),
{
    let v: i64 = if yummy { 200000 } else { -200000 };
    let mut r: Vec<i64> = Vec::new();
    let mut i: usize = 0;
    while i < 26
        invariant
            i <= 26,
            r@.len() == i,
            forall|j: int| 0 <= j < i ==> #[trigger] r@[j] == v,
        decreases 26 - i,
    {
        r.push(v);
        i = i + 1;
    }
    assert(r@ =~= peanut_boosts(yummy));
    r
}

fn drain_vec(stat: u8, v: i64) -> (r: Vec<i64>)
    ensures
        r@ == drain_boosts(stat, v),
{
    let mut r: Vec<i64> = Vec::new();
    let mut i: usize = 0;
    while i < 26
        invariant
            i <= 26,
            r@.len() == i,
            forall|j: int| 0 <= j < i ==> #[trigger] r@[j] == drain_boosts(stat, v)[j],
        decreases 26 - i,
    {
        let hit = (stat == 0 && 8 <= i && i < 14) || (stat == 1 && i < 8) || (stat == 2 && 19 <= i
            && i < 24) || (stat == 3 && 14 <= i && i < 19);
        r.push(if hit { v } else { 0 });
        i = i + 1;
    }
    assert(r@ =~= drain_boosts(stat, v));
    r
}

fn count_flippers(runners: &Baserunners, world: &World) -> (r: i64)
    requires
        world_wf(world@),
        runners@.len() <= 8,
    ensures
        r == flippers_on(runners@, world@),
        r <= 8,
{
    let rs = runners.runners();
    let mut k: i64 = 0;
    let mut i: usize = 0;
    while i < rs.len()
        invariant
            i <= rs@.len(),
            rs@ == runners@,
            rs@.len() <= 8,
            world_wf(world@),
            k == flippers_on(rs@.subrange(0, i as int), world@),
            k <= i,
        decreases rs@.len() - i,
    {
        proof {
            assert(rs@.subrange(0, i + 1).drop_last() =~= rs@.subrange(0, i as int));
        }
        if world.player_has_mod(rs[i].id, Mod::Flippers) {
            k = k + 1;
        }
        i = i + 1;
    }
    assert(rs@.subrange(0, rs@.len() as int) =~= rs@);
    k
}

fn sweep_away(world: &mut World, ids: &Vec<Id>, day: usize)
    requires
        world_wf(old(world)@),
        all_players(old(world)@, ids@),
    ensures
        final(world)@ == swept_away(old(world)@, ids@, day),
        keeps_ids(old(world)@, final(world)@),
        same_team_mods(old(world)@, final(world)@),
{
    let mut k: usize = 0;
    while k < ids.len()
        invariant
            k <= ids@.len(),
            world_wf(old(world)@),
            all_players(old(world)@, ids@),
            keeps_ids(old(world)@, world@),
            world@.teams == old(world)@.teams,
            world@ == swept_away(old(world)@, ids@.subrange(0, k as int), day),
        decreases ids@.len() - k,
    {
        proof {
            assert(has_player(old(world)@, ids@[k as int]));
            assert(ids@.subrange(0, k + 1).drop_last() =~= ids@.subrange(0, k as int));
        }
        world.add_mod(ids[k], Mod::Elsewhere, ModLifetime::Permanent);
        world.set_swept_on(ids[k], Some(day));
        k = k + 1;
    }
    assert(ids@.subrange(0, ids@.len() as int) =~= ids@);
}

fn return_all(world: &mut World, ids: &Vec<Id>)
    requires
        world_wf(old(world)@),
        all_players(old(world)@, ids@),
    ensures
        final(world)@ == returned_all(old(world)@, ids@),
        keeps_ids(old(world)@, final(world)@),
        final(world)@.teams == old(world)@.teams,
{
    let mut k: usize = 0;
    while k < ids.len()
        invariant
            k <= ids@.len(),
            world_wf(old(world)@),
            all_players(old(world)@, ids@),
            keeps_ids(old(world)@, world@),
            world@.teams == old(world)@.teams,
            world@ == returned_all(old(world)@, ids@.subrange(0, k as int)),
        decreases ids@.len() - k,
    {
        proof {
            assert(has_player(old(world)@, ids@[k as int]));
            assert(ids@.subrange(0, k + 1).drop_last() =~= ids@.subrange(0, k as int));
        }
        world.remove_mod(ids[k], Mod::Elsewhere);
        world.set_swept_on(ids[k], None);
        k = k + 1;
    }
    assert(ids@.subrange(0, ids@.len() as int) =~= ids@);
}

fn scatter_all(world: &mut World, ids: &Vec<Id>, letters: &Vec<u8>)
    requires
        world_wf(old(world)@),
        all_players(old(world)@, ids@),
        letters@.len() <= ids@.len(),
    ensures
        final(world)@ == scattered_all(old(world)@, ids@, letters@),
        keeps_ids(old(world)@, final(world)@),
        final(world)@.teams == old(world)@.teams,
{
    let mut k: usize = 0;
    while k < letters.len()
        invariant
            k <= letters@.len(),
            letters@.len() <= ids@.len(),
            world_wf(old(world)@),
            all_players(old(world)@, ids@),
            keeps_ids(old(world)@, world@),
            world@.teams == old(world)@.teams,
            world@ == scattered_all(old(world)@, ids@, letters@.subrange(0, k as int)),
        decreases letters@.len() - k,
    {
        proof {
            assert(has_player(old(world)@, ids@[k as int]));
            assert(letters@.subrange(0, k + 1).drop_last() =~= letters@.subrange(0, k as int));
        }
        if letters[k] > 0 {
            world.add_mod(ids[k], Mod::Scattered, ModLifetime::Permanent);
            world.set_scattered(ids[k], letters[k]);
        }
        k = k + 1;
    }
    assert(letters@.subrange(0, letters@.len() as int) =~= letters@);
}

fn unscatter_all(world: &mut World, ids: &Vec<Id>)
    requires
        world_wf(old(world)@),
        all_players(old(world)@, ids@),
    ensures
        final(world)@ == unscattered_all(old(world)@, ids@),
        keeps_ids(old(world)@, final(world)@),
        final(world)@.teams == old(world)@.teams,
{
    let mut k: usize = 0;
    while k < ids.len()
        invariant
            k <= ids@.len(),
            world_wf(old(world)@),
            all_players(old(world)@, ids@),
            keeps_ids(old(world)@, world@),
            world@.teams == old(world)@.teams,
            world@ == unscattered_all(old(world)@, ids@.subrange(0, k as int)),
        decreases ids@.len() - k,
    {
        proof {
            assert(has_player(old(world)@, ids@[k as int]));
            assert(ids@.subrange(0, k + 1).drop_last() =~= ids@.subrange(0, k as int));
        }
        let id = ids[k];
        let i = world.player_index(id).unwrap();
        let n = world.players[i].scattered_letters;
        let left: u8 = if n > 0 { n - 1 } else { 0 };
        world.set_scattered(id, left);
        if left == 0 {
            world.remove_mod(id, Mod::Scattered);
        }
        k = k + 1;
    }
    assert(ids@.subrange(0, ids@.len() as int) =~= ids@);
}

fn batter_known(game: &Game, world: &World) -> (r: bool)
    requires
        world_wf(world@),
    ensures
        r == batter_ok(game@, world@),
{
    match game.batter() {
        Some(b) => world.player_index(b).is_some(),
        None => false,
    }
}

fn all_known(world: &World, ids: &Vec<Id>) -> (r: bool)
    requires
        world_wf(world@),
    ensures
        r == all_players(world@, ids@),
{
    let mut k: usize = 0;
    while k < ids.len()
        invariant
            k <= ids@.len(),
            world_wf(world@),
            forall|j: int| 0 <= j < k ==> has_player(world@, #[trigger] ids@[j]),
        decreases ids@.len() - k,
    {
        if world.player_index(ids[k]).is_none() {
            return false;
        }
        k = k + 1;
    }
    true
}

fn runners_fit_exec(r: &Baserunners) -> (ok: bool)
    ensures
        ok == runners_fit(r@),
{
    let rs = r.runners();
    if rs.len() > 8 {
        return false;
    }
    let mut i: usize = 0;
    while i < rs.len()
        invariant
            i <= rs@.len(),
            rs@ == r@,
            forall|j: int| 0 <= j < i ==> (#[trigger] rs@[j]).base <= 240,
            forall|a: int, b: int| 0 <= a < b < i ==> (#[trigger] rs@[a]).base > (#[trigger] rs@[b]).base,
        decreases rs@.len() - i,
    {
        if rs[i].base > 240 {
            return false;
        }
        if i > 0 && rs[i - 1].base <= rs[i].base {
            return false;
        }
        proof {
            assert forall|a: int, b: int| 0 <= a < b < i + 1 implies (#[trigger] rs@[a]).base
                > (#[trigger] rs@[b]).base by {
                if b == i && a < i - 1 {
                    assert(rs@[a].base > rs@[i - 1].base);
                }
            }
        }
        i = i + 1;
    }
    true
}

fn changes_fit(changes: &Vec<usize>, total: usize) -> (ok: bool)
    ensures
        ok == (changes@.len() == total && forall|i: int|
            0 <= i < changes@.len() ==> (#[trigger] changes@[i]) < changes@.len()),
{
    if changes.len() != total {
        return false;
    }
    let mut i: usize = 0;
    while i < changes.len()
        invariant
            i <= changes@.len(),
            forall|j: int| 0 <= j < i ==> (#[trigger] changes@[j]) < changes@.len(),
        decreases changes@.len() - i,
    {
        if changes[i] >= changes.len() {
            return false;
        }
        i = i + 1;
    }
    true
}

impl Event {
    /// Whether applying this event to `game` and `world` succeeds.
    pub fn applicable(&self, game: &Game, world: &World) -> (r: bool)
        requires
            world_wf(world@),
        ensures
            r == fits(game@, world@, self),
    {
        let bt = game.batting_team();
        let pt = game.pitching_team();
        match self {
            Event::BaseSteal { base_from, .. } => (*base_from as u16) + 1 < game.get_bases(world) as u16,
            Event::InningSwitch { .. } => if game.weather == Weather::Salmon {
                if game.scoreboard.top {
                    game.linescore_away.len() > 0
                } else {
                    game.linescore_home.len() > 0
                }
            } else {
                true
            },
            Event::GameOver | Event::Sun2 { .. } | Event::BlackHole { .. } => world.team_index(
                game.scoreboard.home_team.id,
            ).is_some() && world.team_index(game.scoreboard.away_team.id).is_some(),
            Event::Strikeout | Event::CharmStrikeout | Event::Walk | Event::CharmWalk
            | Event::HomeRun | Event::MagmaticHomeRun | Event::InstinctWalk { .. }
            | Event::MildWalk | Event::Beaned | Event::PouredOver => batter_known(game, world),
            Event::BaseHit { bases, runners_after } => {
                if !batter_known(game, world) || !runners_fit_exec(runners_after) {
                    return false;
                }
                let n = game.get_bases(world);
                if *bases < 1 || *bases > n {
                    return false;
                }
                let mut left = runners_after.duplicate();
                left.score(n);
                !left.occupied(*bases - 1)
            },
            Event::GroundOut { runners_after, .. } | Event::Flyout { runners_after, .. }
            | Event::DoublePlay { runners_after } => batter_known(game, world) && runners_fit_exec(
                runners_after,
            ),
            Event::FieldersChoice { runners_after } => batter_known(game, world)
                && runners_fit_exec(runners_after) && runners_after.len() < 8
                && !runners_after.occupied(0),
            Event::Party { target, .. } | Event::Peanut { target, .. } | Event::BigPeanut {
                target,
            } | Event::TasteTheInfinite { target } | Event::FireEater { target } => world.player_index(
                *target,
            ).is_some(),
            Event::PeckedFree { player } => world.player_index(*player).is_some(),
            Event::Soundproof { tangled, .. } => world.player_index(*tangled).is_some(),
            Event::Incineration { target, replacement, chain } => {
                let ti = match world.player_index(*target) {
                    Some(i) => i,
                    None => {
                        return false;
                    },
                };
                let tid = match world.players[ti].team {
                    Some(t) => t,
                    None => {
                        return false;
                    },
                };
                if world.team_index(tid).is_none() {
                    return false;
                }
                let known = world.player_index(replacement.id).is_some();
                let rep_ok = if replacement.name.as_str().is_empty() {
                    !known
                } else {
                    known
                };
                let chain_ok = match chain {
                    Some(c) => world.player_index(*c).is_some(),
                    None => true,
                };
                rep_ok && chain_ok
            },
            Event::Feedback { target1, target2 } => world.player_index(*target1).is_some()
                && world.player_index(*target2).is_some(),
            Event::Reverb { reverb_type, team, changes } => {
                let ti = match world.team_index(*team) {
                    Some(i) => i,
                    None => {
                        return false;
                    },
                };
                let nl = world.teams[ti].lineup.len();
                let nr = world.teams[ti].rotation.len();
                let nc = changes.len();
                if nl > usize::MAX - nr {
                    proof {
                        assert(team_of(world@, *team) == world.teams@[ti as int]@);
                        assert(changes@.len() == nc);
                    }
                    return false;
                }
                if !changes_fit(changes, nl + nr) {
                    return false;
                }
                proof {
                    let w = world@;
                    let t = team_of(w, *team);
                    let all = t.lineup + t.rotation;
                    let after = Seq::new(changes@.len(), |i: int| all[changes@[i] as int]);
                    let nt = TeamView {
                        lineup: after.subrange(0, t.lineup.len() as int),
                        rotation: after.subrange(t.lineup.len() as int, after.len() as int),
                        ..t
                    };
                    let w1 = reordered(w, *team, changes@);
                    assert(w1.teams[ti as int] == nt);
                    crate::entities::lemma_same_ids(w, w1);
                    assert(team_of(w1, *team) == nt);
                }
                if *reverb_type != 3 && bt.id == *team {
                    nl > 0
                } else if *reverb_type != 2 {
                    nr > 0
                } else {
                    true
                }
            },
            Event::Blooddrain { drainer, target, siphon_effect, .. } => world.player_index(
                *drainer,
            ).is_some() && world.player_index(*target).is_some() && -1 <= *siphon_effect
                && *siphon_effect <= 2 && (*siphon_effect != 1 || game.outs > 0) && (
            *siphon_effect != 2 || game.balls > 0),
            Event::Salmon { home_runs_lost, away_runs_lost } => game.runners.empty() && (!*away_runs_lost || (
            game.salmon_resets_inning as usize) < game.linescore_away.len()) && (!*home_runs_lost
                || (game.salmon_resets_inning as usize) < game.linescore_home.len()),
            Event::NightShift { batter, replacement, replacement_idx, .. } => {
                let side = if *batter {
                    bt
                } else {
                    pt
                };
                let ti = match world.team_index(side.id) {
                    Some(i) => i,
                    None => {
                        return false;
                    },
                };
                world.player_index(*replacement).is_some() && *replacement_idx
                    < world.teams[ti].shadows.len() && (!*batter || (bt.batter.is_some()
                    && world.teams[ti].lineup.len() > 0)) && (*batter
                    || world.teams[ti].rotation.len() > 0)
            },
            Event::Reverberating { .. } | Event::Repeating { .. } => bt.batter_index > 0,
            Event::HitByPitch { target, hbp_type } => batter_known(game, world)
                && world.player_index(*target).is_some() && *hbp_type <= 2,
            Event::Zap { batter } => if *batter {
                game.strikes > 0
            } else {
                game.balls > 0
            },
            Event::Performing { overperforming, underperforming } => all_known(
                world,
                overperforming,
            ) && all_known(world, underperforming),
            Event::TripleThreat => world.player_index(game.scoreboard.home_team.pitcher).is_some()
                && world.player_index(game.scoreboard.away_team.pitcher).is_some(),
            Event::TripleThreatDeactivation { home, away } => (!*home || world.player_index(
                game.scoreboard.home_team.pitcher,
            ).is_some()) && (!*away || world.player_index(
                game.scoreboard.away_team.pitcher,
            ).is_some()),
            Event::Swept { elsewhere } => all_known(world, elsewhere),
            Event::ElsewhereReturn { returned, letters } => all_known(world, returned)
                && letters.len() <= returned.len(),
            Event::Unscatter { unscattered } => all_known(world, unscattered),
            _ => true,
        }
    }
}

impl Event {
    fn kind(&self) -> (r: u8)
        ensures
            r == kind_of(self),
    {
        match self {
            Event::Strikeout | Event::CharmStrikeout | Event::Walk | Event::CharmWalk
            | Event::HomeRun | Event::MagmaticHomeRun | Event::BaseHit { .. }
            | Event::GroundOut { .. } | Event::Flyout { .. } | Event::DoublePlay { .. }
            | Event::FieldersChoice { .. } | Event::HitByPitch { .. } | Event::InstinctWalk { .. }
            | Event::MildWalk | Event::CrowAmbush => 0,
            Event::BatterUp { .. } | Event::Inhabiting { .. } | Event::InningSwitch { .. }
            | Event::GameOver | Event::Ball | Event::Strike | Event::Foul
            | Event::BaseSteal { .. } | Event::CaughtStealing { .. } | Event::MildPitch
            | Event::Sun2 { .. } | Event::BlackHole { .. } | Event::Salmon { .. }
            | Event::PolaritySwitch | Event::Reverberating { .. } | Event::Repeating { .. }
            | Event::Shelled { .. } | Event::Elsewhere { .. } | Event::Zap { .. } => 1,
            _ => 2,
        }
    }

    /// Applies the event: its tag goes into the match's event log, then its one
    /// effect is made on the match and the roster. Fails, changing nothing, when
    /// the event does not fit the state (`fits`).
    pub fn apply(&self, game: &mut Game, world: &mut World) -> (r: Result<(), ApplyError>)
        requires
            ready(old(game)@, old(world)@),
        ensures
            r.is_ok() == fits(old(game)@, old(world)@, self),
            r.is_ok() ==> (final(game)@, final(world)@) == step(old(game)@, old(world)@, self),
            r.is_err() ==> final(game)@ == old(game)@ && final(world)@ == old(world)@,
            world_wf(final(world)@),
            final(game).runners.wf(),
            game_wf(final(game)@, final(world)@),
    {
        if !self.applicable(game, world) {
            return Err(ApplyError::NotApplicable);
        }
        let ghost g = game@;
        let ghost w = world@;
        game.events.add(self.repr());
        let ghost g0 = game@;
        assert(g0 == GameView { events: g.events.push(tag_of(self)), ..g });
        let kind = self.kind();
        if kind == 0 {
            self.apply_pa(game, world);
        } else if kind == 1 {
            self.apply_count(game, world);
        } else {
            self.apply_roster(game, world);
        }
        proof {
            if kind == 0 {
                assert(same_team_mods(w, world@));
            }
            lemma_team_has_same(w, world@);
            if self is InningSwitch {
                assert(game@.runners.len() == 0);
            } else if self is Salmon {
                assert(game@.runners == g.runners);
            } else {
                let id = batting(g0.scoreboard).id;
                assert(batting(game@.scoreboard).id == id);
                assert(team_has(world@, id, Mod::FifthBase) == team_has(w, id, Mod::FifthBase));
                assert(bases_of(game@, world@) == bases_of(g0, w));
            }
        }
        Ok(())
    }
}

/// The match and the roster after the events of `es` are applied in order, from
/// `g` and `w`; `None` when one of them meets a state that is not ready for it
/// or that it does not fit.
pub open spec fn replayed(g: GameView, w: WorldView, es: Seq<Event>) -> Option<(GameView, WorldView)>
    decreases es.len(),
{
    if es.len() == 0 {
        Some((g, w))
    } else {
        match replayed(g, w, es.drop_last()) {
            Some(s) => if ready(s.0, s.1) && fits(s.0, s.1, &es.last()) {
                Some(step(s.0, s.1, &es.last()))
            } else {
                None
            },
            None => None,
        }
    }
}

/// Applies `events` in order, stopping at the first that cannot be applied.
#[verifier::rlimit(100)]
#[verifier::spinoff_prover]
pub fn replay(game: &mut Game, world: &mut World, events: &Vec<Event>) -> (r: Result<(), ApplyError>)
    requires
        world_wf(old(world)@),
    ensures
        r.is_ok() == replayed(old(game)@, old(world)@, events@).is_some(),
        r.is_ok() ==> (final(game)@, final(world)@) == replayed(old(game)@, old(world)@, events@).unwrap(),
        r.is_err() ==> exists|k: int|
            0 <= k < events@.len() && #[trigger] replayed(old(game)@, old(world)@, events@.subrange(0, k))
                == Some((final(game)@, final(world)@)) && replayed(
                old(game)@,
                old(world)@,
                events@.subrange(0, k + 1),
            ) is None,
{
    let mut i: usize = 0;
    while i < events.len()
        invariant
            i <= events@.len(),
            world_wf(world@),
            replayed(old(game)@, old(world)@, events@.subrange(0, i as int)) == Some((game@, world@)),
        decreases events@.len() - i,
    {
        proof {
            assert(events@.subrange(0, i + 1).drop_last() =~= events@.subrange(0, i as int));
        }
        if !game.has_room() || !game.is_wf(world) {
            proof {
                lemma_replay_stops(old(game)@, old(world)@, events@, i as int + 1);
                assert(replayed(old(game)@, old(world)@, events@.subrange(0, i as int)) == Some(
                    (game@, world@),
                ));
            }
            return Err(ApplyError::NotReady);
        }
        let e = &events[i];
        match e.apply(game, world) {
            Ok(()) => {},
            Err(x) => {
                proof {
                    lemma_replay_stops(old(game)@, old(world)@, events@, i as int + 1);
                    assert(replayed(old(game)@, old(world)@, events@.subrange(0, i as int)) == Some(
                        (game@, world@),
                    ));
                }
                return Err(x);
            },
        }
        i = i + 1;
    }
    assert(events@.subrange(0, events@.len() as int) =~= events@);
    Ok(())
}

proof fn lemma_replay_stops(g: GameView, w: WorldView, es: Seq<Event>, k: int)
    requires
        0 < k <= es.len(),
        replayed(g, w, es.subrange(0, k)) is None,
    ensures
        replayed(g, w, es) is None,
    decreases es.len() - k,
{
    if k < es.len() {
        assert(es.subrange(0, k + 1).drop_last() =~= es.subrange(0, k));
        lemma_replay_stops(g, w, es, k + 1);
    } else {
        assert(es.subrange(0, k) =~= es);
    }
}

} // verus!
