use vstd::prelude::*;

use crate::bases::Runner;
use crate::entities::{has_team, player_has, team_of, world_wf, Id, World, WorldView};
use crate::events::{batter_of, Event};
use crate::game::{batting, Game, GameView, Weather, MAX_OUTS};
use crate::log::scan_has;
use crate::mods::Mod;
use crate::sim::{inning_state_event, inning_state_of};

verus! {

/// Which players a poll for a modifier looks at.
#[derive(Clone, Copy, Debug, PartialEq, Eq, Structural)]
pub enum Exclusion {
    /// Both lineups and both whole rotations.
    All,
    /// Both lineups and the two pitchers in the game.
    Current,
    /// The batter and the runners of the side at bat, the lineup and pitcher of the
    /// side in the field.
    Playing,
}

/// The ids of the runners, lead first.
pub open spec fn runner_ids(rs: Seq<Runner>) -> Seq<Id> {
    rs.map_values(|r: Runner| r.id)
}

/// The players a poll looks at, in order: home lineup, home pitchers, away lineup,
/// away pitchers.
pub open spec fn polled(g: GameView, w: WorldView, ex: Exclusion) -> Seq<Id> {
    let home = g.scoreboard.home_team;
    let away = g.scoreboard.away_team;
    let top = g.scoreboard.top;
    let playing = ex == Exclusion::Playing;
    let on_field = seq![batter_of(g)] + runner_ids(g.runners);
    let home_lineup = if !top && playing { on_field } else { team_of(w, home.id).lineup };
    let home_pitcher = if ex != Exclusion::All {
        if !top && playing { Seq::empty() } else { seq![home.pitcher] }
    } else {
        team_of(w, home.id).rotation
    };
    let away_lineup = if top && playing { on_field } else { team_of(w, away.id).lineup };
    let away_pitcher = if ex != Exclusion::All {
        if top && playing { Seq::empty() } else { seq![away.pitcher] }
    } else {
        team_of(w, away.id).rotation
    };
    home_lineup + home_pitcher + away_lineup + away_pitcher
}

/// The players of `s` that hold modifier `m`, order kept.
pub open spec fn holding(s: Seq<Id>, w: WorldView, m: Mod) -> Seq<Id> {
    s.filter(|p: Id| player_has(w, p, m))
}

fn on_field_ids(game: &Game) -> (r: Vec<Id>)
    requires
        batting(game.scoreboard).batter.is_some(),
    ensures
        r@ == seq![batter_of(game@)] + runner_ids(game@.runners),
{
    let mut r: Vec<Id> = Vec::new();
    r.push(game.batter().unwrap());
    let rs = game.runners.runners();
    let mut i: usize = 0;
    while i < rs.len()
        invariant
            i <= rs@.len(),
            rs@ == game@.runners,
            r@ == seq![batter_of(game@)] + runner_ids(rs@.subrange(0, i as int)),
        decreases rs@.len() - i,
    {
        r.push(rs[i].id);
        proof {
            assert(runner_ids(rs@.subrange(0, i + 1)) =~= runner_ids(rs@.subrange(0, i as int)).push(rs@[i as int].id));
        }
        i = i + 1;
    }
    proof {
        assert(rs@.subrange(0, rs@.len() as int) =~= rs@);
    }
    r
}

fn append_ids(r: &mut Vec<Id>, v: &Vec<Id>)
    ensures
        final(r)@ == old(r)@ + v@,
{
    let mut i: usize = 0;
    while i < v.len()
        invariant
            i <= v@.len(),
            r@ == old(r)@ + v@.subrange(0, i as int),
        decreases v@.len() - i,
    {
        r.push(v[i]);
        proof {
            assert(v@.subrange(0, i + 1) =~= v@.subrange(0, i as int).push(v@[i as int]));
        }
        i = i + 1;
    }
    assert(v@.subrange(0, v@.len() as int) =~= v@);
}

/// Whether a poll can look at every player it names: both teams are on the roster,
/// and a batter is up when the players in play are polled.
pub open spec fn pollable(g: GameView, w: WorldView, ex: Exclusion) -> bool {
    &&& has_team(w, g.scoreboard.home_team.id)
    &&& has_team(w, g.scoreboard.away_team.id)
    &&& ex == Exclusion::Playing ==> batting(g.scoreboard).batter.is_some()
}

/// The players that a poll looks at and that hold modifier `m`; `None` when a team
/// is not on the roster, or the players in play are polled with no batter up.
pub fn poll_for_mod(game: &Game, world: &World, m: Mod, ex: Exclusion) -> (r: Option<Vec<Id>>)
    requires
        world_wf(world@),
    ensures
        r.is_some() == pollable(game@, world@, ex),
        r matches Some(v) ==> v@ == holding(polled(game@, world@, ex), world@, m),
{
    if world.team_index(game.scoreboard.home_team.id).is_none()
        || world.team_index(game.scoreboard.away_team.id).is_none()
        || (ex == Exclusion::Playing && game.batter().is_none()) {
        return None;
    }
    Some(poll_players(game, world, m, ex))
}

fn poll_players(game: &Game, world: &World, m: Mod, ex: Exclusion) -> (r: Vec<Id>)
    requires
        world_wf(world@),
        pollable(game@, world@, ex),
    ensures
        r@ == holding(polled(game@, world@, ex), world@, m),
{
    let home = game.scoreboard.home_team;
    let away = game.scoreboard.away_team;
    let top = game.scoreboard.top;
    let playing = ex == Exclusion::Playing;
    let hi = world.team_index(home.id).unwrap();
    let ai = world.team_index(away.id).unwrap();
    let mut all: Vec<Id> = Vec::new();
    if !top && playing {
        let f = on_field_ids(game);
        append_ids(&mut all, &f);
    } else {
        append_ids(&mut all, &world.teams[hi].lineup);
    }
    if ex != Exclusion::All {
        if !(!top && playing) {
            all.push(home.pitcher);
        }
    } else {
        append_ids(&mut all, &world.teams[hi].rotation);
    }
    if top && playing {
        let f = on_field_ids(game);
        append_ids(&mut all, &f);
    } else {
        append_ids(&mut all, &world.teams[ai].lineup);
    }
    if ex != Exclusion::All {
        if !(top && playing) {
            all.push(away.pitcher);
        }
    } else {
        append_ids(&mut all, &world.teams[ai].rotation);
    }
    proof {
        assert(all@ =~= polled(game@, world@, ex));
    }
    let ghost s = all@;
    let mut out: Vec<Id> = Vec::new();
    let mut i: usize = 0;
    while i < all.len()
        invariant
            i <= all@.len(),
            s == all@,
            world_wf(world@),
            out@ == holding(s.subrange(0, i as int), world@, m),
        decreases all@.len() - i,
    {
        proof {
            reveal(Seq::filter);
            assert(s.subrange(0, i + 1).drop_last() =~= s.subrange(0, i as int));
        }
        if world.player_has_mod(all[i], m) {
            out.push(all[i]);
        }
        i = i + 1;
    }
    assert(s.subrange(0, s.len() as int) =~= s);
    out
}

/// Whether the weather is one of the coffee weathers.
pub open spec fn coffee(w: Weather) -> bool {
    w == Weather::Coffee || w == Weather::Coffee2 || w == Weather::Coffee3
}

#[verifier::opaque]
/// The overperforming players of the pregame: superyummy players under peanuts,
/// then perk players under coffee.
pub open spec fn pregame_over(g: GameView, w: WorldView) -> Seq<Id> {
    let yummy = holding(polled(g, w, Exclusion::Current), w, Mod::Superyummy);
    let perk = holding(polled(g, w, Exclusion::Current), w, Mod::Perk);
    let over = if g.weather == Weather::Peanuts { yummy } else { Seq::empty() };
    if perk.len() > 0 && coffee(g.weather) { over + perk } else { over }
}

#[verifier::opaque]
/// The underperforming players of the pregame: superyummy players without peanuts.
pub open spec fn pregame_under(g: GameView, w: WorldView) -> Seq<Id> {
    let yummy = holding(polled(g, w, Exclusion::Current), w, Mod::Superyummy);
    if g.weather != Weather::Peanuts { yummy } else { Seq::empty() }
}

/// Before the first pitch, under coffee 3, while no triple threat has been logged.
pub open spec fn pregame_triple(g: GameView) -> bool {
    !g.started && g.weather == Weather::Coffee3 && !scan_has(g.events, "TripleThreat"@, -1, 0)
}

/// Before the first pitch, with no triple threat owed, while no performing has been
/// logged, and some player over- or under-performs.
pub open spec fn pregame_performing(g: GameView, w: WorldView) -> bool {
    &&& !g.started
    &&& !pregame_triple(g)
    &&& !scan_has(g.events, "Performing"@, -1, 0)
    &&& (pregame_over(g, w).len() > 0 || pregame_under(g, w).len() > 0)
}

/// What the pregame provider yields: triple threat when owed, else the performing
/// players when owed, else nothing.
pub open spec fn pregame_is(g: GameView, w: WorldView, r: Option<Event>) -> bool {
    if pregame_triple(g) {
        r == Some(Event::TripleThreat)
    } else if pregame_performing(g, w) {
        r matches Some(Event::Performing { overperforming, underperforming }) && overperforming@
            == pregame_over(g, w) && underperforming@ == pregame_under(g, w)
    } else {
        r is None
    }
}

/// The pregame provider: before the first pitch, triple threat under coffee 3
/// once, then the performing players once.
pub fn pregame_event(game: &Game, world: &World) -> (r: Option<Event>)
    requires
        world_wf(world@),
        has_team(world@, game@.scoreboard.home_team.id),
        has_team(world@, game@.scoreboard.away_team.id),
    ensures
        pregame_is(game@, world@, r),
{
    if game.started {
        return None;
    }
    if game.weather == Weather::Coffee3 && !game.events.has("TripleThreat".to_owned(), -1) {
        return Some(Event::TripleThreat);
    }
    let mut over: Vec<Id> = Vec::new();
    let mut under: Vec<Id> = Vec::new();
    let yummy = poll_players(game, world, Mod::Superyummy, Exclusion::Current);
    if yummy.len() > 0 {
        if game.weather == Weather::Peanuts {
            append_ids(&mut over, &yummy);
        } else {
            append_ids(&mut under, &yummy);
        }
    }
    let perk = poll_players(game, world, Mod::Perk, Exclusion::Current);
    if perk.len() > 0 {
        if game.weather == Weather::Coffee || game.weather == Weather::Coffee2
            || game.weather == Weather::Coffee3 {
            append_ids(&mut over, &perk);
        }
    }
    assert(over@ =~= pregame_over(game@, world@)) by {
        reveal(pregame_over);
    }
    assert(under@ =~= pregame_under(game@, world@)) by {
        reveal(pregame_under);
    }
    let logged = game.events.has("Performing".to_owned(), -1);
    if !logged && (over.len() > 0 || under.len() > 0) {
        assert(pregame_performing(game@, world@));
        Some(Event::Performing { overperforming: over, underperforming: under })
    } else {
        assert(!pregame_performing(game@, world@));
        None
    }
}

/// The event providers of the chain, in their fixed order of precedence.
#[derive(Clone, Copy, Debug, PartialEq, Eq, Structural)]
pub enum Provider {
    Pregame,
    InningState,
    InningEvent,
    BatterState,
    Weather,
    Elsewhere,
    Party,
    Flooding,
    Mods,
    Stealing,
    Pitch,
}

/// The provider asked after `p` when `p` yields nothing; none after the pitch.
pub open spec fn after(p: Provider) -> Option<Provider> {
    match p {
        Provider::Pregame => Some(Provider::InningState),
        Provider::InningState => Some(Provider::InningEvent),
        Provider::InningEvent => Some(Provider::BatterState),
        Provider::BatterState => Some(Provider::Weather),
        Provider::Weather => Some(Provider::Elsewhere),
        Provider::Elsewhere => Some(Provider::Party),
        Provider::Party => Some(Provider::Flooding),
        Provider::Flooding => Some(Provider::Mods),
        Provider::Mods => Some(Provider::Stealing),
        Provider::Stealing => Some(Provider::Pitch),
        Provider::Pitch => None,
    }
}

impl Provider {
    /// The provider asked first.
    pub fn first() -> (r: Provider)
        ensures
            r == Provider::Pregame,
    {
        Provider::Pregame
    }

    /// The provider asked next when this one yields nothing.
    pub fn next(self) -> (r: Option<Provider>)
        ensures
            r == after(self),
    {
        match self {
            Provider::Pregame => Some(Provider::InningState),
            Provider::InningState => Some(Provider::InningEvent),
            Provider::InningEvent => Some(Provider::BatterState),
            Provider::BatterState => Some(Provider::Weather),
            Provider::Weather => Some(Provider::Elsewhere),
            Provider::Elsewhere => Some(Provider::Party),
            Provider::Party => Some(Provider::Flooding),
            Provider::Flooding => Some(Provider::Mods),
            Provider::Mods => Some(Provider::Stealing),
            Provider::Stealing => Some(Provider::Pitch),
            Provider::Pitch => None,
        }
    }
}

/// The first two providers of the chain, which draw nothing: the pregame, then the
/// inning state. Once the side at bat has made its outs in a started match, the
/// next event is an inning switch or the end of the match.
pub fn leading_event(game: &Game, world: &World) -> (r: Option<Event>)
    requires
        world_wf(world@),
        has_team(world@, game@.scoreboard.home_team.id),
        has_team(world@, game@.scoreboard.away_team.id),
        game.inning < i16::MAX,
    ensures
        pregame_triple(game@) || pregame_performing(game@, world@) ==> pregame_is(
            game@,
            world@,
            r,
        ),
        !(pregame_triple(game@) || pregame_performing(game@, world@)) ==> r == inning_state_of(
            game@,
        ),
        game.started && game.outs >= MAX_OUTS ==> (r matches Some(e) && (e is InningSwitch
            || e is GameOver)),
{
    match pregame_event(game, world) {
        Some(e) => Some(e),
        None => inning_state_event(game),
    }
}

} // verus!
