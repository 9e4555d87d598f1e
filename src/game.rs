use vstd::prelude::*;

use crate::bases::{all_below, lead_first, on_field, Baserunners, Runner};
use crate::entities::{player_has, team_has, world_wf, Id, World, WorldView};
use crate::log::Events;
use crate::mods::Mod;

verus! {

/// The weather a match is played under.
#[derive(Clone, Copy, Debug, PartialEq, Eq, Structural)]
pub enum Weather {
    Sun,
    Eclipse,
    Peanuts,
    Birds,
    Feedback,
    Reverb,
    Blooddrain,
    Sun2,
    BlackHole,
    Coffee,
    Coffee2,
    Coffee3,
    Flooding,
    Salmon,
    PolarityPlus,
    PolarityMinus,
    SunPointOne,
    SumSun,
    Night,
}

/// One side of a match. Scores are in tenths of a run.
#[derive(Clone, Copy, Debug, PartialEq, Eq, Structural)]
pub struct GameTeam {
    pub id: Id,
    pub score: i64,
    pub batter: Option<Id>,
    pub pitcher: Id,
    pub batter_index: usize,
}

/// Both sides, and which half of the inning is played.
#[derive(Clone, Copy, Debug, PartialEq, Eq, Structural)]
pub struct Scoreboard {
    pub home_team: GameTeam,
    pub away_team: GameTeam,
    pub top: bool,
}

/// A run, in the tenths that scores are kept in.
pub const RUN: i64 = 10;

/// The state of one match.
#[derive(Debug)]
pub struct Game {
    pub scoreboard: Scoreboard,
    pub inning: i16,
    pub outs: u8,
    pub balls: u8,
    pub strikes: u8,
    pub weather: Weather,
    pub polarity: bool,
    pub day: usize,
    pub started: bool,
    pub scoring_plays_inning: u8,
    pub salmon_resets_inning: u8,
    pub linescore_home: Vec<i64>,
    pub linescore_away: Vec<i64>,
    pub runners: Baserunners,
    pub events: Events,
}

pub ghost struct GameView {
    pub scoreboard: Scoreboard,
    pub inning: i16,
    pub outs: u8,
    pub balls: u8,
    pub strikes: u8,
    pub weather: Weather,
    pub polarity: bool,
    pub day: usize,
    pub started: bool,
    pub scoring_plays_inning: u8,
    pub salmon_resets_inning: u8,
    pub linescore_home: Seq<i64>,
    pub linescore_away: Seq<i64>,
    pub runners: Seq<Runner>,
    pub events: Seq<Seq<char>>,
}

impl View for Game {
    type V = GameView;

    open spec fn view(&self) -> GameView {
        GameView {
            scoreboard: self.scoreboard,
            inning: self.inning,
            outs: self.outs,
            balls: self.balls,
            strikes: self.strikes,
            weather: self.weather,
            polarity: self.polarity,
            day: self.day,
            started: self.started,
            scoring_plays_inning: self.scoring_plays_inning,
            salmon_resets_inning: self.salmon_resets_inning,
            linescore_home: self.linescore_home@,
            linescore_away: self.linescore_away@,
            runners: self.runners@,
            events: self.events@,
        }
    }
}

/// The side at bat.
pub open spec fn batting(sb: Scoreboard) -> GameTeam {
    if sb.top {
        sb.away_team
    } else {
        sb.home_team
    }
}

/// The side in the field.
pub open spec fn pitching(sb: Scoreboard) -> GameTeam {
    if sb.top {
        sb.home_team
    } else {
        sb.away_team
    }
}

/// The scoreboard with the side at bat replaced by `t`.
pub open spec fn with_batting(sb: Scoreboard, t: GameTeam) -> Scoreboard {
    if sb.top {
        Scoreboard { away_team: t, ..sb }
    } else {
        Scoreboard { home_team: t, ..sb }
    }
}

/// The scoreboard with the side in the field replaced by `t`.
pub open spec fn with_pitching(sb: Scoreboard, t: GameTeam) -> Scoreboard {
    if sb.top {
        Scoreboard { home_team: t, ..sb }
    } else {
        Scoreboard { away_team: t, ..sb }
    }
}

/// How many bases the side at bat must round: five with an extra base, else four.
pub open spec fn bases_of(g: GameView, w: WorldView) -> u8 {
    if team_has(w, batting(g.scoreboard).id, Mod::FifthBase) {
        5
    } else {
        4
    }
}

/// Strikes that end a plate appearance: four for a batter with a fourth strike.
pub open spec fn max_strikes_of(g: GameView, w: WorldView) -> u8 {
    match batting(g.scoreboard).batter {
        Some(b) => if player_has(w, b, Mod::FourthStrike) {
            4
        } else {
            3
        },
        None => 3,
    }
}

/// Balls that end a plate appearance: three for a side with a walk in the park.
pub open spec fn max_balls_of(g: GameView, w: WorldView) -> u8 {
    if team_has(w, batting(g.scoreboard).id, Mod::WalkInThePark) {
        3
    } else {
        4
    }
}

/// Outs that end a half-inning.
pub const MAX_OUTS: u8 = 3;

/// The limit that keeps a score or a line-score entry clear of overflow.
pub const SCORE_LIMIT: i64 = 0x1000_0000_0000_0000;

/// Room in every counter for one more event: the machine limits of the state.
pub open spec fn room(g: GameView) -> bool {
    &&& g.outs <= 250
    &&& g.balls <= 250
    &&& g.strikes <= 250
    &&& g.scoring_plays_inning <= 250
    &&& g.salmon_resets_inning <= 250
    &&& -30000 <= g.inning <= 30000
    &&& g.scoreboard.home_team.batter_index < usize::MAX
    &&& g.scoreboard.away_team.batter_index < usize::MAX
    &&& -SCORE_LIMIT <= g.scoreboard.home_team.score <= SCORE_LIMIT
    &&& -SCORE_LIMIT <= g.scoreboard.away_team.score <= SCORE_LIMIT
    &&& forall|i: int|
        0 <= i < g.linescore_home.len() ==> -SCORE_LIMIT <= #[trigger] g.linescore_home[i]
            <= SCORE_LIMIT
    &&& forall|i: int|
        0 <= i < g.linescore_away.len() ==> -SCORE_LIMIT <= #[trigger] g.linescore_away[i]
            <= SCORE_LIMIT
}

/// Well-formed: runners from the lead down, every one on a base of the field.
pub open spec fn game_wf(g: GameView, w: WorldView) -> bool {
    &&& lead_first(g.runners)
    &&& all_below(g.runners, bases_of(g, w) as int)
}

/// The plate appearance is over: the count is reset and the next batter is due.
pub open spec fn end_pa(g: GameView) -> GameView {
    let bt = batting(g.scoreboard);
    GameView {
        balls: 0,
        strikes: 0,
        scoreboard: with_batting(
            g.scoreboard,
            GameTeam { batter: None, batter_index: (bt.batter_index + 1) as usize, ..bt },
        ),
        ..g
    }
}

/// The side at bat with `d` tenths added to its score.
pub open spec fn add_score(g: GameView, d: int) -> GameView {
    let bt = batting(g.scoreboard);
    GameView {
        scoreboard: with_batting(g.scoreboard, GameTeam { score: (bt.score + d) as i64, ..bt }),
        ..g
    }
}

/// The shared scoring routine: every runner on or past the last base scores a run
/// and leaves the field.
pub open spec fn scored(g: GameView, bases: u8) -> GameView {
    let left = on_field(g.runners, bases as int);
    let runs = g.runners.len() - left.len();
    let g1 = add_score(g, runs * RUN);
    GameView {
        runners: left,
        scoring_plays_inning: if runs > 0 {
            (g.scoring_plays_inning + 1) as u8
        } else {
            g.scoring_plays_inning
        },
        ..g1
    }
}

impl Game {
    /// A match that has not started: no one on base, no events, first inning top.
    pub fn new(home_team: GameTeam, away_team: GameTeam, weather: Weather, day: usize) -> (r: Game)
        ensures
            r@.scoreboard == (Scoreboard { home_team, away_team, top: true }),
            r@.inning == 1,
            r@.outs == 0 && r@.balls == 0 && r@.strikes == 0,
            r@.weather == weather,
            !r@.polarity,
            r@.day == day,
            !r@.started,
            r@.scoring_plays_inning == 0,
            r@.salmon_resets_inning == 0,
            r@.linescore_home == seq![0i64],
            r@.linescore_away == seq![0i64],
            r@.runners == Seq::<Runner>::empty(),
            r@.events == Seq::<Seq<char>>::empty(),
            r.runners.wf(),
    {
        let r = Game {
            scoreboard: Scoreboard { home_team, away_team, top: true },
            inning: 1,
            outs: 0,
            balls: 0,
            strikes: 0,
            weather,
            polarity: false,
            day,
            started: false,
            scoring_plays_inning: 0,
            salmon_resets_inning: 0,
            linescore_home: vec![0],
            linescore_away: vec![0],
            runners: Baserunners::new(),
            events: Events::new(),
        };
        assert(r.linescore_home@ =~= seq![0i64]);
        assert(r.linescore_away@ =~= seq![0i64]);
        r
    }

    /// The side at bat.
    pub fn batting_team(&self) -> (r: GameTeam)
        ensures
            r == batting(self.scoreboard),
    {
        if self.scoreboard.top {
            self.scoreboard.away_team
        } else {
            self.scoreboard.home_team
        }
    }

    /// The side in the field.
    pub fn pitching_team(&self) -> (r: GameTeam)
        ensures
            r == pitching(self.scoreboard),
    {
        if self.scoreboard.top {
            self.scoreboard.home_team
        } else {
            self.scoreboard.away_team
        }
    }

    /// Replaces the side at bat.
    pub fn set_batting_team(&mut self, t: GameTeam)
        ensures
            final(self)@ == (GameView { scoreboard: with_batting(old(self).scoreboard, t), ..old(self)@ }),
    {
        if self.scoreboard.top {
            self.scoreboard.away_team = t;
        } else {
            self.scoreboard.home_team = t;
        }
    }

    /// Replaces the side in the field.
    pub fn set_pitching_team(&mut self, t: GameTeam)
        ensures
            final(self)@ == (GameView { scoreboard: with_pitching(old(self).scoreboard, t), ..old(self)@ }),
    {
        if self.scoreboard.top {
            self.scoreboard.home_team = t;
        } else {
            self.scoreboard.away_team = t;
        }
    }

    /// The batter at the plate, if one is up.
    pub fn batter(&self) -> (r: Option<Id>)
        ensures
            r == batting(self.scoreboard).batter,
    {
        self.batting_team().batter
    }

    /// The pitcher on the mound.
    pub fn pitcher(&self) -> (r: Id)
        ensures
            r == pitching(self.scoreboard).pitcher,
    {
        self.pitching_team().pitcher
    }

    /// How many bases the side at bat must round.
    pub fn get_bases(&self, world: &World) -> (r: u8)
        requires
            world_wf(world@),
        ensures
            r == bases_of(self@, world@),
    {
        if world.team_has_mod(self.batting_team().id, Mod::FifthBase) {
            5
        } else {
            4
        }
    }

    /// Strikes that end the plate appearance.
    pub fn get_max_strikes(&self, world: &World) -> (r: u8)
        requires
            world_wf(world@),
        ensures
            r == max_strikes_of(self@, world@),
    {
        match self.batter() {
            Some(b) => if world.player_has_mod(b, Mod::FourthStrike) {
                4
            } else {
                3
            },
            None => 3,
        }
    }

    /// Balls that end the plate appearance.
    pub fn get_max_balls(&self, world: &World) -> (r: u8)
        requires
            world_wf(world@),
        ensures
            r == max_balls_of(self@, world@),
    {
        if world.team_has_mod(self.batting_team().id, Mod::WalkInThePark) {
            3
        } else {
            4
        }
    }

    /// Whether every counter has room for one more event.
    pub fn has_room(&self) -> (r: bool)
        ensures
            r == room(self@),
    {
        let counters = self.outs <= 250 && self.balls <= 250 && self.strikes <= 250
            && self.scoring_plays_inning <= 250 && self.salmon_resets_inning <= 250
            && -30000 <= self.inning && self.inning <= 30000
            && self.scoreboard.home_team.batter_index < usize::MAX
            && self.scoreboard.away_team.batter_index < usize::MAX
            && -SCORE_LIMIT <= self.scoreboard.home_team.score
            && self.scoreboard.home_team.score <= SCORE_LIMIT
            && -SCORE_LIMIT <= self.scoreboard.away_team.score
            && self.scoreboard.away_team.score <= SCORE_LIMIT;
        let home = within_limit(&self.linescore_home);
        let away = within_limit(&self.linescore_away);
        proof {
            assert(self@.linescore_home == self.linescore_home@);
            assert(self@.linescore_away == self.linescore_away@);
        }
        counters && home && away
    }

    /// Whether the runners are held from the lead down, every one on a base of the
    /// field.
    pub fn is_wf(&self, world: &World) -> (r: bool)
        requires
            world_wf(world@),
        ensures
            r == game_wf(self@, world@),
    {
        let n = self.get_bases(world);
        let rs = self.runners.runners();
        let mut i: usize = 0;
        while i < rs.len()
            invariant
                i <= rs@.len(),
                rs@ == self@.runners,
                n == bases_of(self@, world@),
                forall|j: int| 0 <= j < i ==> (#[trigger] rs@[j]).base < n,
                forall|a: int, b: int| 0 <= a < b < i ==> (#[trigger] rs@[a]).base > (#[trigger] rs@[b]).base,
            decreases rs@.len() - i,
        {
            if rs[i].base >= n {
                return false;
            }
            if i > 0 && rs[i - 1].base <= rs[i].base {
                return false;
            }
            proof {
                assert forall|a: int, b: int| 0 <= a < b < i + 1 implies (#[trigger] rs@[a]).base
                    > (#[trigger] rs@[b]).base by {
                    if b == i && a < i - 1 {
                        assert(rs@[a].base > rs@[i - 1].base);
                    }
                }
            }
            i = i + 1;
        }
        true
    }

    /// Ends the plate appearance.
    pub fn end_pa(&mut self)
        requires
            batting(old(self).scoreboard).batter_index < usize::MAX,
        ensures
            final(self)@ == end_pa(old(self)@),
    {
        self.balls = 0;
        self.strikes = 0;
        let bt = self.batting_team();
        self.set_batting_team(GameTeam { batter: None, batter_index: bt.batter_index + 1, ..bt });
    }

    /// Adds `d` tenths to the score of the side at bat.
    pub fn add_score(&mut self, d: i64)
        requires
            i64::MIN <= batting(old(self).scoreboard).score + d <= i64::MAX,
        ensures
            final(self)@ == add_score(old(self)@, d as int),
    {
        let bt = self.batting_team();
        self.set_batting_team(GameTeam { score: bt.score + d, ..bt });
    }

    /// The shared scoring routine.
    pub fn score(&mut self, world: &World)
        requires
            world_wf(world@),
            old(self).runners.wf(),
            old(self).runners@.len() <= 8,
            old(self).scoring_plays_inning < u8::MAX,
            -SCORE_LIMIT - 1000 <= batting(old(self).scoreboard).score <= SCORE_LIMIT + 1000,
        ensures
            final(self)@ == scored(old(self)@, bases_of(old(self)@, world@)),
            final(self).runners.wf(),
            all_below(final(self)@.runners, bases_of(old(self)@, world@) as int),
    {
        let bases = self.get_bases(world);
        let runs = self.runners.score(bases);
        let d = (runs as i64) * RUN;
        self.add_score(d);
        if runs > 0 {
            self.scoring_plays_inning = self.scoring_plays_inning + 1;
        }
    }
}

fn within_limit(v: &Vec<i64>) -> (r: bool)
    ensures
        r == forall|i: int| 0 <= i < v@.len() ==> -SCORE_LIMIT <= #[trigger] v@[i] <= SCORE_LIMIT,
{
    let mut i: usize = 0;
    while i < v.len()
        invariant
            i <= v@.len(),
            forall|j: int| 0 <= j < i ==> -SCORE_LIMIT <= #[trigger] v@[j] <= SCORE_LIMIT,
        decreases v@.len() - i,
    {
        if v[i] < -SCORE_LIMIT || v[i] > SCORE_LIMIT {
            return false;
        }
        i = i + 1;
    }
    true
}

} // verus!
