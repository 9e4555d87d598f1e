use vstd::prelude::*;

use crate::entities::{has_team, player_has, team_of, world_wf, Id, World, WorldView};
use crate::events::Event;
use crate::game::{batting, Game, GameView, Weather};
use crate::mods::Mod;
use crate::log::scan_has;
use crate::pitch::{picked, roll, PitchAnswer};

verus! {

/// A chance, in millionths, that a provider's roll is compared with.
pub const FIFTH_CHANCE: u32 = 200000;

/// The next draw a provider needs: a roll that comes up when a uniform draw falls
/// below `below_millionths` millionths, or a pick of a player from the hall,
/// answered with `PitchAnswer::Fielder`.
#[derive(Clone, Copy, Debug, PartialEq, Eq, Structural)]
pub enum ProviderQuery {
    Roll { below_millionths: u32 },
    HallPlayer,
}

/// Either the next query of a provider or what it yields.
#[derive(Debug)]
pub enum ProviderStep {
    Ask(ProviderQuery),
    Done(Option<Event>),
}

/// Whether the newest tag of the log is `tag`.
pub open spec fn last_is(log: Seq<Seq<char>>, tag: Seq<char>) -> bool {
    log.len() > 0 && log.last() == tag
}

/// The lineup slot of the batter before the one due at `idx`.
pub open spec fn prev_slot(idx: usize, len: int) -> int {
    if idx == 0 {
        len - 1
    } else {
        (idx - 1) % len
    }
}

/// The batter-state provider over the answers given so far. With no batter up: the
/// previous batter may reverberate (a one-in-five roll) or repeat after a hit under
/// reverb weather; otherwise the batter due is shelled, elsewhere, inhabited by a
/// hall player (a one-in-five roll when haunted), or comes up.
pub open spec fn batter_state_tree(g: GameView, w: WorldView, a: Seq<PitchAnswer>) -> ProviderStep {
    let bt = batting(g.scoreboard);
    if bt.batter.is_some() {
        ProviderStep::Done(None)
    } else {
        let lineup = team_of(w, bt.id).lineup;
        let len = lineup.len() as int;
        let idx = bt.batter_index;
        let first = !g.started || (idx == 0 && g.inning == 1 && last_is(g.events, "InningSwitch"@));
        let begin = !first && last_is(g.events, "InningSwitch"@);
        let prev = if first { lineup[0] } else { lineup[prev_slot(idx, len)] };
        let reverb = !first && !begin && player_has(w, prev, Mod::Reverberating);
        let pos: int = if reverb { 1 } else { 0 };
        let batter = lineup[(idx as int) % len];
        if reverb && a.len() == 0 {
            ProviderStep::Ask(ProviderQuery::Roll { below_millionths: FIFTH_CHANCE })
        } else if reverb && roll(a, 0) {
            ProviderStep::Done(Some(Event::Reverberating { batter: prev }))
        } else if !first && !begin && player_has(w, prev, Mod::Repeating) && (last_is(
            g.events,
            "BaseHit"@,
        ) || last_is(g.events, "HomeRun"@)) && g.weather == Weather::Reverb {
            ProviderStep::Done(Some(Event::Repeating { batter: prev }))
        } else if player_has(w, batter, Mod::Shelled) {
            ProviderStep::Done(Some(Event::Shelled { batter }))
        } else if player_has(w, batter, Mod::Elsewhere) {
            ProviderStep::Done(Some(Event::Elsewhere { batter }))
        } else if player_has(w, batter, Mod::Haunted) && a.len() == pos {
            ProviderStep::Ask(ProviderQuery::Roll { below_millionths: FIFTH_CHANCE })
        } else if player_has(w, batter, Mod::Haunted) && roll(a, pos) {
            if a.len() == pos + 1 {
                ProviderStep::Ask(ProviderQuery::HallPlayer)
            } else {
                ProviderStep::Done(Some(Event::Inhabiting { batter, inhabit: picked(a, pos + 1) }))
            }
        } else {
            ProviderStep::Done(Some(Event::BatterUp { batter }))
        }
    }
}

fn last_tag_is(game: &Game, tag: &str) -> (r: bool)
    ensures
        r == last_is(game@.events, tag@),
{
    if game.events.len() == 0 {
        false
    } else {
        let t = tag.to_owned();
        *game.events.last() == t
    }
}

fn roll_of(a: &Vec<PitchAnswer>, i: usize) -> (r: bool)
    requires
        i < a@.len(),
    ensures
        r == roll(a@, i as int),
{
    match a[i] {
        PitchAnswer::Roll(b) => b,
        _ => false,
    }
}

/// One step of the batter-state provider.
pub fn batter_state_step(game: &Game, world: &World, answers: &Vec<PitchAnswer>) -> (r: ProviderStep)
    requires
        world_wf(world@),
        batting(game@.scoreboard).batter is None ==> has_team(world@, batting(game@.scoreboard).id)
            && team_of(world@, batting(game@.scoreboard).id).lineup.len() > 0,
    ensures
        r == batter_state_tree(game@, world@, answers@),
{
    let bt = game.batting_team();
    if bt.batter.is_some() {
        return ProviderStep::Done(None);
    }
    let ti = world.team_index(bt.id).unwrap();
    let lineup = &world.teams[ti].lineup;
    let len = lineup.len();
    let idx = bt.batter_index;
    let switched = last_tag_is(game, "InningSwitch");
    let first = !game.started || (idx == 0 && game.inning == 1 && switched);
    let begin = !first && switched;
    let prev = if first {
        lineup[0]
    } else if idx == 0 {
        lineup[len - 1]
    } else {
        lineup[(idx - 1) % len]
    };
    let reverb = !first && !begin && world.player_has_mod(prev, Mod::Reverberating);
    let pos: usize = if reverb { 1 } else { 0 };
    let batter = lineup[idx % len];
    let a = answers;
    if reverb && a.len() == 0 {
        return ProviderStep::Ask(ProviderQuery::Roll { below_millionths: FIFTH_CHANCE });
    }
    if reverb && roll_of(a, 0) {
        return ProviderStep::Done(Some(Event::Reverberating { batter: prev }));
    }
    if !first && !begin && world.player_has_mod(prev, Mod::Repeating) && (last_tag_is(game, "BaseHit")
        || last_tag_is(game, "HomeRun")) && game.weather == Weather::Reverb {
        return ProviderStep::Done(Some(Event::Repeating { batter: prev }));
    }
    if world.player_has_mod(batter, Mod::Shelled) {
        return ProviderStep::Done(Some(Event::Shelled { batter }));
    }
    if world.player_has_mod(batter, Mod::Elsewhere) {
        return ProviderStep::Done(Some(Event::Elsewhere { batter }));
    }
    let haunted = world.player_has_mod(batter, Mod::Haunted);
    if haunted && a.len() == pos {
        return ProviderStep::Ask(ProviderQuery::Roll { below_millionths: FIFTH_CHANCE });
    }
    if haunted && roll_of(a, pos) {
        if a.len() == pos + 1 {
            return ProviderStep::Ask(ProviderQuery::HallPlayer);
        }
        let inhabit = match a[pos + 1] {
            PitchAnswer::Fielder(f) => f,
            _ => Id { value: 0 },
        };
        return ProviderStep::Done(Some(Event::Inhabiting { batter, inhabit }));
    }
    ProviderStep::Done(Some(Event::BatterUp { batter }))
}

/// The chance, in millionths, that a flood comes under ruleset `ruleset`.
pub open spec fn flood_chance(ruleset: u8) -> u32 {
    if 11 <= ruleset < 14 {
        19000
    } else if 14 <= ruleset < 17 {
        13000
    } else if ruleset == 17 {
        15000
    } else if 18 <= ruleset < 24 {
        16000
    } else {
        0
    }
}

/// A runner is swept elsewhere by a flood with this chance, in millionths.
pub const SWEPT_CHANCE: u32 = 100000;

/// The runners, lead first, whose sweep roll came up: runner `k` at position `1 + k`.
pub open spec fn swept_ids(rs: Seq<crate::bases::Runner>, a: Seq<PitchAnswer>) -> Seq<Id>
    decreases rs.len(),
{
    if rs.len() == 0 {
        Seq::empty()
    } else {
        let f = swept_ids(rs.drop_last(), a);
        if roll(a, rs.len() as int) {
            f.push(rs.last().id)
        } else {
            f
        }
    }
}

/// The query the flooding provider still has open, if any: under flooding weather,
/// the flood roll, then one sweep roll per runner, lead first.
pub open spec fn flooding_query(g: GameView, w: WorldView, a: Seq<PitchAnswer>) -> Option<ProviderQuery> {
    if g.weather != Weather::Flooding {
        None
    } else if a.len() == 0 {
        Some(ProviderQuery::Roll { below_millionths: flood_chance(w.season_ruleset) })
    } else if roll(a, 0) && a.len() < 1 + g.runners.len() {
        Some(ProviderQuery::Roll { below_millionths: SWEPT_CHANCE })
    } else {
        None
    }
}

/// What the flooding provider gives for the answers so far: the open query, or
/// the runners swept elsewhere when the flood came, or nothing.
pub open spec fn flooding_is(g: GameView, w: WorldView, a: Seq<PitchAnswer>, r: ProviderStep) -> bool {
    match flooding_query(g, w, a) {
        Some(q) => r == ProviderStep::Ask(q),
        None => if g.weather == Weather::Flooding && roll(a, 0) {
            r matches ProviderStep::Done(Some(Event::Swept { elsewhere })) && elsewhere@
                == swept_ids(g.runners, a)
        } else {
            r matches ProviderStep::Done(None)
        },
    }
}

fn flood_chance_of(ruleset: u8) -> (r: u32)
    ensures
        r == flood_chance(ruleset),
{
    if 11 <= ruleset && ruleset < 14 {
        19000
    } else if 14 <= ruleset && ruleset < 17 {
        13000
    } else if ruleset == 17 {
        15000
    } else if 18 <= ruleset && ruleset < 24 {
        16000
    } else {
        0
    }
}

/// One step of the flooding provider.
pub fn flooding_step(game: &Game, world: &World, answers: &Vec<PitchAnswer>) -> (r: ProviderStep)
    ensures
        flooding_is(game@, world@, answers@, r),
{
    let a = answers;
    if game.weather != Weather::Flooding {
        return ProviderStep::Done(None);
    }
    if a.len() == 0 {
        return ProviderStep::Ask(ProviderQuery::Roll { below_millionths: flood_chance_of(world.season_ruleset) });
    }
    if !roll_of(a, 0) {
        return ProviderStep::Done(None);
    }
    let rs = game.runners.runners();
    if a.len() - 1 < rs.len() {
        return ProviderStep::Ask(ProviderQuery::Roll { below_millionths: SWEPT_CHANCE });
    }
    let mut out: Vec<Id> = Vec::new();
    let mut k: usize = 0;
    while k < rs.len()
        invariant
            k <= rs@.len(),
            rs@ == game@.runners,
            1 + rs@.len() <= a@.len(),
            out@ == swept_ids(rs@.subrange(0, k as int), a@),
        decreases rs@.len() - k,
    {
        proof {
            assert(rs@.subrange(0, k + 1).drop_last() =~= rs@.subrange(0, k as int));
        }
        if roll_of(a, k + 1) {
            out.push(rs[k].id);
        }
        k = k + 1;
    }
    assert(rs@.subrange(0, rs@.len() as int) =~= rs@);
    ProviderStep::Done(Some(Event::Swept { elsewhere: out }))
}

/// The guard of check `k` of the modifier provider's first chain: electric
/// batting side with a strike, electric fielding side with a ball, the three debts
/// against a batter without their mark, and a friend of crows under birds.
pub open spec fn mod_guard(g: GameView, w: WorldView, k: int) -> bool {
    let bt = batting(g.scoreboard);
    let pt = crate::game::pitching(g.scoreboard);
    let b = bt.batter.unwrap();
    let p = pt.pitcher;
    if k == 0 {
        crate::entities::team_has(w, bt.id, Mod::Electric) && g.strikes > 0
    } else if k == 1 {
        crate::entities::team_has(w, pt.id, Mod::Electric) && g.balls > 0
    } else if k == 2 {
        player_has(w, p, Mod::DebtU) && !player_has(w, b, Mod::Unstable)
    } else if k == 3 {
        player_has(w, p, Mod::RefinancedDebt) && !player_has(w, b, Mod::Flickering)
    } else if k == 4 {
        player_has(w, p, Mod::ConsolidatedDebt) && !player_has(w, b, Mod::Repeating)
    } else {
        player_has(w, p, Mod::FriendOfCrows) && g.weather == Weather::Birds
    }
}

/// The chance, in millionths, of check `k`'s roll.
pub open spec fn mod_chance(k: int) -> u32 {
    if k <= 1 {
        200000
    } else if k <= 4 {
        20000
    } else {
        25500
    }
}

/// The event of check `k` when its roll comes up.
pub open spec fn mod_event(g: GameView, k: int) -> Event {
    let b = batting(g.scoreboard).batter.unwrap();
    if k == 0 {
        Event::Zap { batter: true }
    } else if k == 1 {
        Event::Zap { batter: false }
    } else if k == 2 {
        Event::HitByPitch { target: b, hbp_type: 0 }
    } else if k == 3 {
        Event::HitByPitch { target: b, hbp_type: 1 }
    } else if k == 4 {
        Event::HitByPitch { target: b, hbp_type: 2 }
    } else {
        Event::CrowAmbush
    }
}

/// The first chain from check `k` on, with the next answer at position `p`: the
/// first check whose guard holds rolls; a roll that comes up decides, one that
/// does not passes on. `Err(p)` when the chain passes on at position `p`.
pub open spec fn mod_chain(g: GameView, w: WorldView, a: Seq<PitchAnswer>, k: int, p: int) -> Result<ProviderStep, int>
    decreases 6 - k,
{
    if k >= 6 {
        Err(p)
    } else if !mod_guard(g, w, k) {
        mod_chain(g, w, a, k + 1, p)
    } else if a.len() <= p {
        Ok(ProviderStep::Ask(ProviderQuery::Roll { below_millionths: mod_chance(k) }))
    } else if roll(a, p) {
        Ok(ProviderStep::Done(Some(mod_event(g, k))))
    } else {
        mod_chain(g, w, a, k + 1, p + 1)
    }
}

/// The chance, in millionths, of a charm roll under ruleset `ruleset`.
pub open spec fn charm_chance(ruleset: u8) -> u32 {
    if ruleset == 18 {
        14000
    } else {
        15000
    }
}

/// The modifier provider after its first chain passed on at position `p`: the
/// mild roll, always drawn, then on a fresh count the charm rolls and magmatic.
pub open spec fn mod_tail(g: GameView, w: WorldView, a: Seq<PitchAnswer>, p: int) -> ProviderStep {
    let b = batting(g.scoreboard).batter.unwrap();
    let pitcher = crate::game::pitching(g.scoreboard).pitcher;
    let charm = charm_chance(w.season_ruleset);
    let bc = player_has(w, b, Mod::Charm);
    let pc = player_has(w, pitcher, Mod::Charm);
    let q1 = p + 1;
    let q2 = if bc { q1 + 1 } else { q1 };
    let q3 = if pc { q2 + 1 } else { q2 };
    if a.len() <= p {
        ProviderStep::Ask(ProviderQuery::Roll { below_millionths: 5000 })
    } else if roll(a, p) && player_has(w, pitcher, Mod::Mild) {
        ProviderStep::Done(Some(if g.balls == 3 { Event::MildWalk } else { Event::MildPitch }))
    } else if !(g.balls == 0 && g.strikes == 0) {
        ProviderStep::Done(None)
    } else if bc && a.len() <= q1 {
        ProviderStep::Ask(ProviderQuery::Roll { below_millionths: charm })
    } else if bc && roll(a, q1) {
        ProviderStep::Done(Some(Event::CharmWalk))
    } else if pc && a.len() <= q2 {
        ProviderStep::Ask(ProviderQuery::Roll { below_millionths: charm })
    } else if pc && roll(a, q2) {
        ProviderStep::Done(Some(Event::CharmStrikeout))
    } else if player_has(w, b, Mod::Magmatic) {
        if a.len() <= q3 {
            ProviderStep::Ask(ProviderQuery::Roll { below_millionths: 1000000 })
        } else {
            ProviderStep::Done(Some(Event::MagmaticHomeRun))
        }
    } else {
        ProviderStep::Done(None)
    }
}

/// The modifier provider over the answers given so far.
pub open spec fn mod_tree(g: GameView, w: WorldView, a: Seq<PitchAnswer>) -> ProviderStep {
    match mod_chain(g, w, a, 0, 0) {
        Ok(s) => s,
        Err(p) => mod_tail(g, w, a, p),
    }
}

/// One step of the modifier provider.
pub fn mod_step(game: &Game, world: &World, answers: &Vec<PitchAnswer>) -> (r: ProviderStep)
    requires
        world_wf(world@),
        batting(game@.scoreboard).batter is Some,
    ensures
        r == mod_tree(game@, world@, answers@),
{
    let a = answers;
    let bt = game.batting_team();
    let pt = game.pitching_team();
    let b = bt.batter.unwrap();
    let pitcher = pt.pitcher;
    let mut k: usize = 0;
    let mut p: usize = 0;
    while k < 6
        invariant
            k <= 6,
            p <= k,
            a@ == answers@,
            p <= a@.len(),
            world_wf(world@),
            bt == batting(game@.scoreboard),
            pt == crate::game::pitching(game@.scoreboard),
            b == bt.batter.unwrap(),
            pitcher == pt.pitcher,
            mod_chain(game@, world@, a@, 0, 0) == mod_chain(game@, world@, a@, k as int, p as int),
        decreases 6 - k,
    {
        let guard = if k == 0 {
            world.team_has_mod(bt.id, Mod::Electric) && game.strikes > 0
        } else if k == 1 {
            world.team_has_mod(pt.id, Mod::Electric) && game.balls > 0
        } else if k == 2 {
            world.player_has_mod(pitcher, Mod::DebtU) && !world.player_has_mod(b, Mod::Unstable)
        } else if k == 3 {
            world.player_has_mod(pitcher, Mod::RefinancedDebt) && !world.player_has_mod(b, Mod::Flickering)
        } else if k == 4 {
            world.player_has_mod(pitcher, Mod::ConsolidatedDebt) && !world.player_has_mod(b, Mod::Repeating)
        } else {
            world.player_has_mod(pitcher, Mod::FriendOfCrows) && game.weather == Weather::Birds
        };
        assert(guard == mod_guard(game@, world@, k as int));
        if guard {
            if a.len() <= p {
                let chance: u32 = if k <= 1 { 200000 } else if k <= 4 { 20000 } else { 25500 };
                assert(chance == mod_chance(k as int));
                assert(mod_chain(game@, world@, a@, k as int, p as int) == Ok::<ProviderStep, int>(
                    ProviderStep::Ask(ProviderQuery::Roll { below_millionths: chance }),
                ));
                return ProviderStep::Ask(ProviderQuery::Roll { below_millionths: chance });
            }
            if roll_of(a, p) {
                let e = if k == 0 {
                    Event::Zap { batter: true }
                } else if k == 1 {
                    Event::Zap { batter: false }
                } else if k == 2 {
                    Event::HitByPitch { target: b, hbp_type: 0 }
                } else if k == 3 {
                    Event::HitByPitch { target: b, hbp_type: 1 }
                } else if k == 4 {
                    Event::HitByPitch { target: b, hbp_type: 2 }
                } else {
                    Event::CrowAmbush
                };
                assert(e == mod_event(game@, k as int));
                assert(mod_chain(game@, world@, a@, k as int, p as int) == Ok::<ProviderStep, int>(
                    ProviderStep::Done(Some(e)),
                ));
                return ProviderStep::Done(Some(e));
            }
            p = p + 1;
        }
        k = k + 1;
    }
    if a.len() <= p {
        return ProviderStep::Ask(ProviderQuery::Roll { below_millionths: 5000 });
    }
    if roll_of(a, p) && world.player_has_mod(pitcher, Mod::Mild) {
        return ProviderStep::Done(Some(if game.balls == 3 { Event::MildWalk } else { Event::MildPitch }));
    }
    if !(game.balls == 0 && game.strikes == 0) {
        return ProviderStep::Done(None);
    }
    let charm: u32 = if world.season_ruleset == 18 { 14000 } else { 15000 };
    let bc = world.player_has_mod(b, Mod::Charm);
    let pc = world.player_has_mod(pitcher, Mod::Charm);
    let mut q = p + 1;
    if bc {
        if a.len() <= q {
            return ProviderStep::Ask(ProviderQuery::Roll { below_millionths: charm });
        }
        if roll_of(a, q) {
            return ProviderStep::Done(Some(Event::CharmWalk));
        }
        q = q + 1;
    }
    if pc {
        if a.len() <= q {
            return ProviderStep::Ask(ProviderQuery::Roll { below_millionths: charm });
        }
        if roll_of(a, q) {
            return ProviderStep::Done(Some(Event::CharmStrikeout));
        }
        q = q + 1;
    }
    if world.player_has_mod(b, Mod::Magmatic) {
        if a.len() <= q {
            return ProviderStep::Ask(ProviderQuery::Roll { below_millionths: 1000000 });
        }
        return ProviderStep::Done(Some(Event::MagmaticHomeRun));
    }
    ProviderStep::Done(None)
}

/// The next draw that the stealing provider needs: the fielder pick, then for
/// each runner that could steal, lead first, whether it tries, and for the first
/// that tries, whether it makes it. The two rolls are compared with the formula
/// library's attempt and success thresholds for that runner and fielder.
#[derive(Clone, Copy, Debug, PartialEq, Eq, Structural)]
pub enum StealQuery {
    Fielder,
    Attempt { runner: Id, base: u8, fielder: Id },
    Success { runner: Id, base: u8, fielder: Id },
}

/// Either the next query of the stealing provider or what it yields.
#[derive(Debug)]
pub enum StealStep {
    Ask(StealQuery),
    Done(Option<Event>),
}

/// The runners of `t` whose next base is free among the runners `s`.
pub open spec fn free_ahead(t: Seq<crate::bases::Runner>, s: Seq<crate::bases::Runner>) -> Seq<crate::bases::Runner> {
    t.filter(|r: crate::bases::Runner| !crate::bases::occupied_in(s, r.base + 1))
}

/// The stealing provider from the `k`-th runner that could steal, those before it
/// having declined; answer `0` is the fielder.
pub open spec fn steal_from(el: Seq<crate::bases::Runner>, a: Seq<PitchAnswer>, k: int) -> StealStep
    decreases el.len() - k,
{
    if k < 0 || k >= el.len() {
        StealStep::Done(None)
    } else {
        let r = el[k];
        let f = picked(a, 0);
        if a.len() <= 1 + k {
            StealStep::Ask(StealQuery::Attempt { runner: r.id, base: r.base, fielder: f })
        } else if roll(a, 1 + k) {
            if a.len() <= 2 + k {
                StealStep::Ask(StealQuery::Success { runner: r.id, base: r.base, fielder: f })
            } else if roll(a, 2 + k) {
                StealStep::Done(Some(Event::BaseSteal { runner: r.id, base_from: r.base, base_to: (r.base + 1) as u8 }))
            } else {
                StealStep::Done(Some(Event::CaughtStealing { runner: r.id, base_from: r.base }))
            }
        } else {
            steal_from(el, a, k + 1)
        }
    }
}

/// The stealing provider over the answers given so far.
pub open spec fn steal_tree(g: GameView, a: Seq<PitchAnswer>) -> StealStep {
    if a.len() == 0 {
        StealStep::Ask(StealQuery::Fielder)
    } else {
        steal_from(free_ahead(g.runners, g.runners), a, 0)
    }
}

/// One step of the stealing provider.
pub fn steal_step(game: &Game, answers: &Vec<PitchAnswer>) -> (r: StealStep)
    requires
        crate::bases::all_below(game@.runners, 250),
    ensures
        r == steal_tree(game@, answers@),
{
    let a = answers;
    if a.len() == 0 {
        return StealStep::Ask(StealQuery::Fielder);
    }
    let rs = game.runners.runners();
    let ghost s = rs@;
    let mut el: Vec<crate::bases::Runner> = Vec::new();
    let mut i: usize = 0;
    while i < rs.len()
        invariant
            i <= rs@.len(),
            s == rs@,
            s == game@.runners,
            crate::bases::all_below(s, 250),
            el@ == free_ahead(s.subrange(0, i as int), s),
            forall|j: int| 0 <= j < el@.len() ==> (#[trigger] el@[j]).base < 250,
        decreases rs@.len() - i,
    {
        proof {
            reveal(Seq::filter);
            assert(s.subrange(0, i + 1).drop_last() =~= s.subrange(0, i as int));
        }
        let r = rs[i];
        assert(r.base < 250);
        if game.runners.can_advance(r.base) {
            el.push(r);
        }
        i = i + 1;
    }
    proof {
        assert(s.subrange(0, s.len() as int) =~= s);
    }
    let f = match a[0] {
        PitchAnswer::Fielder(x) => x,
        _ => Id { value: 0 },
    };
    let mut k: usize = 0;
    while k < el.len()
        invariant
            k <= el@.len(),
            a@ == answers@,
            el@ == free_ahead(game@.runners, game@.runners),
            f == picked(a@, 0),
            a@.len() >= 1,
            steal_from(el@, a@, k as int) == steal_tree(game@, a@),
            forall|j: int| 0 <= j < el@.len() ==> (#[trigger] el@[j]).base < 250,
        decreases el@.len() - k,
    {
        let r = el[k];
        if a.len() <= 1 + k {
            return StealStep::Ask(StealQuery::Attempt { runner: r.id, base: r.base, fielder: f });
        }
        if roll_of(a, 1 + k) {
            if a.len() <= 2 + k {
                return StealStep::Ask(StealQuery::Success { runner: r.id, base: r.base, fielder: f });
            }
            if roll_of(a, 2 + k) {
                return StealStep::Done(Some(Event::BaseSteal { runner: r.id, base_from: r.base, base_to: r.base + 1 }));
            } else {
                return StealStep::Done(Some(Event::CaughtStealing { runner: r.id, base_from: r.base }));
            }
        }
        k = k + 1;
    }
    StealStep::Done(None)
}

/// The chance, in millionths, that a triple-threat pitcher loses it in the fourth.
pub const TRIPLE_THREAT_LOSS: u32 = 333000;

/// The triple-threat check is due: top of the fourth, none in the last half-inning.
pub open spec fn triple_threat_due(g: GameView) -> bool {
    !scan_has(g.events, "TripleThreatDeactivation"@, 1, 0) && g.inning == 4 && g.scoreboard.top
}

/// The salmon part of the inning-event provider, its first roll at position `p`.
pub open spec fn salmon_tree(g: GameView, a: Seq<PitchAnswer>, p: int) -> ProviderStep {
    let away_s = g.linescore_away.last() != 0;
    let home_s = g.scoreboard.top && g.linescore_home.last() != 0;
    if g.weather != Weather::Salmon {
        ProviderStep::Done(None)
    } else if !(last_is(g.events, "InningSwitch"@) && (away_s || home_s)) {
        ProviderStep::Done(None)
    } else if a.len() <= p {
        ProviderStep::Ask(ProviderQuery::Roll { below_millionths: 137500 })
    } else if !roll(a, p) {
        ProviderStep::Done(None)
    } else if a.len() <= p + 1 {
        ProviderStep::Ask(ProviderQuery::Roll { below_millionths: 675000 })
    } else if !roll(a, p + 1) {
        ProviderStep::Done(Some(Event::Salmon { home_runs_lost: false, away_runs_lost: false }))
    } else if away_s && home_s {
        if a.len() <= p + 2 {
            ProviderStep::Ask(ProviderQuery::Roll { below_millionths: 200000 })
        } else if roll(a, p + 2) {
            ProviderStep::Done(Some(Event::Salmon { home_runs_lost: true, away_runs_lost: true }))
        } else if a.len() <= p + 3 {
            ProviderStep::Ask(ProviderQuery::Roll { below_millionths: 500000 })
        } else {
            ProviderStep::Done(Some(Event::Salmon { home_runs_lost: roll(a, p + 3), away_runs_lost: !roll(a, p + 3) }))
        }
    } else if away_s {
        ProviderStep::Done(Some(Event::Salmon { home_runs_lost: false, away_runs_lost: true }))
    } else {
        ProviderStep::Done(Some(Event::Salmon { home_runs_lost: true, away_runs_lost: false }))
    }
}

/// The inning-event provider over the answers so far: in the top of the fourth
/// each triple-threat pitcher may lose it; under salmon weather, right after an
/// inning switch in which runs were scored, the salmon may take runs back.
pub open spec fn inning_event_tree(g: GameView, w: WorldView, a: Seq<PitchAnswer>) -> ProviderStep {
    let t = triple_threat_due(g);
    let hh = t && player_has(w, g.scoreboard.home_team.pitcher, Mod::TripleThreat);
    let ha = t && player_has(w, g.scoreboard.away_team.pitcher, Mod::TripleThreat);
    let p1: int = if hh { 1 } else { 0 };
    let p2: int = if ha { p1 + 1 } else { p1 };
    if hh && a.len() == 0 {
        ProviderStep::Ask(ProviderQuery::Roll { below_millionths: TRIPLE_THREAT_LOSS })
    } else if ha && a.len() <= p1 {
        ProviderStep::Ask(ProviderQuery::Roll { below_millionths: TRIPLE_THREAT_LOSS })
    } else {
        let hd = hh && roll(a, 0);
        let ad = ha && roll(a, p1);
        if hd || ad {
            ProviderStep::Done(Some(Event::TripleThreatDeactivation { home: hd, away: ad }))
        } else {
            salmon_tree(g, a, p2)
        }
    }
}

/// One step of the inning-event provider.
pub fn inning_event_step(game: &Game, world: &World, answers: &Vec<PitchAnswer>) -> (r: ProviderStep)
    requires
        world_wf(world@),
        game.weather == Weather::Salmon ==> game@.linescore_away.len() > 0
            && game@.linescore_home.len() > 0,
    ensures
        r == inning_event_tree(game@, world@, answers@),
{
    let a = answers;
    let t = !game.events.has("TripleThreatDeactivation".to_owned(), 1) && game.inning == 4
        && game.scoreboard.top;
    let hh = t && world.player_has_mod(game.scoreboard.home_team.pitcher, Mod::TripleThreat);
    let ha = t && world.player_has_mod(game.scoreboard.away_team.pitcher, Mod::TripleThreat);
    let p1: usize = if hh { 1 } else { 0 };
    let p2: usize = if ha { p1 + 1 } else { p1 };
    if hh && a.len() == 0 {
        return ProviderStep::Ask(ProviderQuery::Roll { below_millionths: TRIPLE_THREAT_LOSS });
    }
    if ha && a.len() <= p1 {
        return ProviderStep::Ask(ProviderQuery::Roll { below_millionths: TRIPLE_THREAT_LOSS });
    }
    let hd = hh && roll_of(a, 0);
    let ad = ha && roll_of(a, p1);
    if hd || ad {
        return ProviderStep::Done(Some(Event::TripleThreatDeactivation { home: hd, away: ad }));
    }
    if game.weather != Weather::Salmon {
        return ProviderStep::Done(None);
    }
    let away_s = game.linescore_away[game.linescore_away.len() - 1] != 0;
    let home_s = game.scoreboard.top && game.linescore_home[game.linescore_home.len() - 1] != 0;
    if !(last_tag_is(game, "InningSwitch") && (away_s || home_s)) {
        return ProviderStep::Done(None);
    }
    let p = p2;
    if a.len() <= p {
        return ProviderStep::Ask(ProviderQuery::Roll { below_millionths: 137500 });
    }
    if !roll_of(a, p) {
        return ProviderStep::Done(None);
    }
    if a.len() <= p + 1 {
        return ProviderStep::Ask(ProviderQuery::Roll { below_millionths: 675000 });
    }
    if !roll_of(a, p + 1) {
        return ProviderStep::Done(Some(Event::Salmon { home_runs_lost: false, away_runs_lost: false }));
    }
    if away_s && home_s {
        if a.len() <= p + 2 {
            return ProviderStep::Ask(ProviderQuery::Roll { below_millionths: 200000 });
        }
        if roll_of(a, p + 2) {
            return ProviderStep::Done(Some(Event::Salmon { home_runs_lost: true, away_runs_lost: true }));
        }
        if a.len() <= p + 3 {
            return ProviderStep::Ask(ProviderQuery::Roll { below_millionths: 500000 });
        }
        let h = roll_of(a, p + 3);
        return ProviderStep::Done(Some(Event::Salmon { home_runs_lost: h, away_runs_lost: !h }));
    }
    if away_s {
        ProviderStep::Done(Some(Event::Salmon { home_runs_lost: false, away_runs_lost: true }))
    } else {
        ProviderStep::Done(Some(Event::Salmon { home_runs_lost: true, away_runs_lost: false }))
    }
}

} // verus!
