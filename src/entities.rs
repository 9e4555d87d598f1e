use vstd::prelude::*;

use crate::log::Events;
use crate::mods::{has_mod, with_mod, without_mod, Mod, ModLifetime, Mods};

verus! {

/// The identity of a player or a team, as the 128 bits of its UUID.
#[derive(Clone, Copy, Debug, PartialEq, Eq, Hash, Structural)]
pub struct Id {
    pub value: u128,
}

/// A player of the roster. Attributes are fixed-point numbers in millionths.
#[derive(Debug)]
pub struct Player {
    pub id: Id,
    pub name: String,
    pub team: Option<Id>,
    pub mods: Mods,
    pub feed: Events,
    pub scattered_letters: u8,
    pub swept_on: Option<usize>,
    pub attributes: Vec<i64>,
}

/// A team of the roster.
#[derive(Debug)]
pub struct Team {
    pub id: Id,
    pub name: String,
    pub lineup: Vec<Id>,
    pub rotation: Vec<Id>,
    pub shadows: Vec<Id>,
    pub mods: Mods,
    pub wins: i64,
    pub losses: i64,
    pub postseason_wins: i64,
    pub postseason_losses: i64,
    pub partying: bool,
}

/// The roster: every player and team, and the players who have left play.
#[derive(Debug)]
pub struct World {
    pub players: Vec<Player>,
    pub teams: Vec<Team>,
    pub hall: Vec<Id>,
    pub season_ruleset: u8,
}

#[verifier::ext_equal]
pub ghost struct PlayerView {
    pub id: Id,
    pub name: Seq<char>,
    pub team: Option<Id>,
    pub mods: Seq<(Mod, ModLifetime)>,
    pub feed: Seq<Seq<char>>,
    pub scattered_letters: u8,
    pub swept_on: Option<usize>,
    pub attributes: Seq<i64>,
}

#[verifier::ext_equal]
pub ghost struct TeamView {
    pub id: Id,
    pub name: Seq<char>,
    pub lineup: Seq<Id>,
    pub rotation: Seq<Id>,
    pub shadows: Seq<Id>,
    pub mods: Seq<(Mod, ModLifetime)>,
    pub wins: i64,
    pub losses: i64,
    pub postseason_wins: i64,
    pub postseason_losses: i64,
    pub partying: bool,
}

#[verifier::ext_equal]
pub ghost struct WorldView {
    pub players: Seq<PlayerView>,
    pub teams: Seq<TeamView>,
    pub hall: Seq<Id>,
    pub season_ruleset: u8,
}

impl View for Player {
    type V = PlayerView;

    open spec fn view(&self) -> PlayerView {
        PlayerView {
            id: self.id,
            name: self.name@,
            team: self.team,
            mods: self.mods@,
            feed: self.feed@,
            scattered_letters: self.scattered_letters,
            swept_on: self.swept_on,
            attributes: self.attributes@,
        }
    }
}

impl View for Team {
    type V = TeamView;

    open spec fn view(&self) -> TeamView {
        TeamView {
            id: self.id,
            name: self.name@,
            lineup: self.lineup@,
            rotation: self.rotation@,
            shadows: self.shadows@,
            mods: self.mods@,
            wins: self.wins,
            losses: self.losses,
            postseason_wins: self.postseason_wins,
            postseason_losses: self.postseason_losses,
            partying: self.partying,
        }
    }
}

impl View for World {
    type V = WorldView;

    open spec fn view(&self) -> WorldView {
        WorldView {
            players: self.players@.map_values(|p: Player| p@),
            teams: self.teams@.map_values(|t: Team| t@),
            hall: self.hall@,
            season_ruleset: self.season_ruleset,
        }
    }
}

/// The position of the player with id `id`, if the roster holds one.
pub open spec fn player_at(w: WorldView, id: Id) -> Option<int> {
    if exists|i: int| 0 <= i < w.players.len() && (#[trigger] w.players[i]).id == id {
        Some(choose|i: int| 0 <= i < w.players.len() && (#[trigger] w.players[i]).id == id)
    } else {
        None
    }
}

/// The position of the team with id `id`, if the roster holds one.
pub open spec fn team_at(w: WorldView, id: Id) -> Option<int> {
    if exists|i: int| 0 <= i < w.teams.len() && (#[trigger] w.teams[i]).id == id {
        Some(choose|i: int| 0 <= i < w.teams.len() && (#[trigger] w.teams[i]).id == id)
    } else {
        None
    }
}

/// Whether the roster holds a player with id `id`.
pub open spec fn has_player(w: WorldView, id: Id) -> bool {
    player_at(w, id).is_some()
}

/// Whether the roster holds a team with id `id`.
pub open spec fn has_team(w: WorldView, id: Id) -> bool {
    team_at(w, id).is_some()
}

/// The player with id `id`; meaningful when `has_player(w, id)`.
pub open spec fn player_of(w: WorldView, id: Id) -> PlayerView {
    w.players[player_at(w, id).unwrap()]
}

/// The team with id `id`; meaningful when `has_team(w, id)`.
pub open spec fn team_of(w: WorldView, id: Id) -> TeamView {
    w.teams[team_at(w, id).unwrap()]
}

/// Whether player `id` holds modifier `m`; false for an unknown player.
pub open spec fn player_has(w: WorldView, id: Id, m: Mod) -> bool {
    has_player(w, id) && has_mod(player_of(w, id).mods, m)
}

/// Whether team `id` holds modifier `m`; false for an unknown team.
pub open spec fn team_has(w: WorldView, id: Id, m: Mod) -> bool {
    has_team(w, id) && has_mod(team_of(w, id).mods, m)
}

/// The roster with player `id` replaced by `p`.
pub open spec fn set_player(w: WorldView, id: Id, p: PlayerView) -> WorldView {
    WorldView { players: w.players.update(player_at(w, id).unwrap(), p), ..w }
}

/// The roster with team `id` replaced by `t`.
pub open spec fn set_team(w: WorldView, id: Id, t: TeamView) -> WorldView {
    WorldView { teams: w.teams.update(team_at(w, id).unwrap(), t), ..w }
}

/// The roster after player `id` gains `(m, l)`.
pub open spec fn add_player_mod(w: WorldView, id: Id, m: Mod, l: ModLifetime) -> WorldView {
    let p = player_of(w, id);
    set_player(w, id, PlayerView { mods: with_mod(p.mods, m, l), ..p })
}

/// The roster after player `id` loses modifier `m`.
pub open spec fn remove_player_mod(w: WorldView, id: Id, m: Mod) -> WorldView {
    let p = player_of(w, id);
    set_player(w, id, PlayerView { mods: without_mod(p.mods, m), ..p })
}

/// The roster after `tag` is added to the feed of player `id`.
pub open spec fn feed_player(w: WorldView, id: Id, tag: Seq<char>) -> WorldView {
    let p = player_of(w, id);
    set_player(w, id, PlayerView { feed: p.feed.push(tag), ..p })
}

/// `a + b`, held to the range of `i64`.
pub open spec fn sat_add(a: i64, b: i64) -> i64 {
    if a + b > i64::MAX {
        i64::MAX
    } else if a + b < i64::MIN {
        i64::MIN
    } else {
        (a + b) as i64
    }
}

/// The attributes after each is raised by the boost at its position; a boost past
/// the last attribute does nothing.
pub open spec fn boosted(attrs: Seq<i64>, boosts: Seq<i64>) -> Seq<i64> {
    Seq::new(
        attrs.len(),
        |i: int|
            if i < boosts.len() {
                sat_add(attrs[i], boosts[i])
            } else {
                attrs[i]
            },
    )
}

/// The roster after player `id`'s attributes are boosted.
pub open spec fn boost_player(w: WorldView, id: Id, boosts: Seq<i64>) -> WorldView {
    let p = player_of(w, id);
    set_player(w, id, PlayerView { attributes: boosted(p.attributes, boosts), ..p })
}

/// Well-formed: no two players and no two teams share an id.
pub open spec fn world_wf(w: WorldView) -> bool {
    &&& forall|i: int, j: int|
        0 <= i < j < w.players.len() ==> (#[trigger] w.players[i]).id != (#[trigger] w.players[j]).id
    &&& forall|i: int, j: int|
        0 <= i < j < w.teams.len() ==> (#[trigger] w.teams[i]).id != (#[trigger] w.teams[j]).id
}

/// `a` held to the range of `i64` after adding `b`.
pub fn saturating_sum(a: i64, b: i64) -> (r: i64)
    ensures
        r == sat_add(a, b),
{
    match a.checked_add(b) {
        Some(v) => v,
        None => if b > 0 {
            i64::MAX
        } else {
            i64::MIN
        },
    }
}

impl Player {
    /// Raises each attribute by the boost at its position.
    pub fn boost(&mut self, boosts: &Vec<i64>)
        ensures
            final(self)@ == (PlayerView { attributes: boosted(old(self)@.attributes, boosts@), ..old(self)@ }),
    {
        let mut i: usize = 0;
        while i < self.attributes.len()
            invariant
                i <= self.attributes@.len(),
                self.attributes@.len() == old(self).attributes@.len(),
                self.id == old(self).id,
                self.name == old(self).name,
                self.team == old(self).team,
                self.mods == old(self).mods,
                self.feed == old(self).feed,
                self.scattered_letters == old(self).scattered_letters,
                self.swept_on == old(self).swept_on,
                forall|j: int|
                    0 <= j < self.attributes@.len() ==> #[trigger] self.attributes@[j] == if j < i {
                        boosted(old(self).attributes@, boosts@)[j]
                    } else {
                        old(self).attributes@[j]
                    },
            decreases self.attributes@.len() - i,
        {
            if i < boosts.len() {
                let v = saturating_sum(self.attributes[i], boosts[i]);
                self.attributes.set(i, v);
            }
            i = i + 1;
        }
        assert(self.attributes@ =~= boosted(old(self).attributes@, boosts@));
    }
}

impl World {
    /// Whether no two players and no two teams share an id.
    pub fn is_wf(&self) -> (r: bool)
        ensures
            r == world_wf(self@),
    {
        let mut i: usize = 0;
        while i < self.players.len()
            invariant
                i <= self.players@.len(),
                forall|a: int, b: int|
                    0 <= a < b < self@.players.len() && a < i ==> (#[trigger] self@.players[a]).id
                        != (#[trigger] self@.players[b]).id,
            decreases self.players@.len() - i,
        {
            let mut j: usize = i + 1;
            while j < self.players.len()
                invariant
                    i < self.players@.len(),
                    i + 1 <= j <= self.players@.len(),
                    forall|a: int, b: int|
                        0 <= a < b < self@.players.len() && a < i ==> (#[trigger] self@.players[a]).id
                            != (#[trigger] self@.players[b]).id,
                    forall|b: int| i < b < j ==> self@.players[i as int].id != (#[trigger] self@.players[b]).id,
                decreases self.players@.len() - j,
            {
                if self.players[i].id == self.players[j].id {
                    assert(self@.players[i as int].id == self@.players[j as int].id);
                    return false;
                }
                j = j + 1;
            }
            i = i + 1;
        }
        let mut i: usize = 0;
        while i < self.teams.len()
            invariant
                i <= self.teams@.len(),
                forall|a: int, b: int|
                    0 <= a < b < self@.players.len() ==> (#[trigger] self@.players[a]).id
                        != (#[trigger] self@.players[b]).id,
                forall|a: int, b: int|
                    0 <= a < b < self@.teams.len() && a < i ==> (#[trigger] self@.teams[a]).id
                        != (#[trigger] self@.teams[b]).id,
            decreases self.teams@.len() - i,
        {
            let mut j: usize = i + 1;
            while j < self.teams.len()
                invariant
                    i < self.teams@.len(),
                    i + 1 <= j <= self.teams@.len(),
                    forall|a: int, b: int|
                        0 <= a < b < self@.players.len() ==> (#[trigger] self@.players[a]).id
                            != (#[trigger] self@.players[b]).id,
                    forall|a: int, b: int|
                        0 <= a < b < self@.teams.len() && a < i ==> (#[trigger] self@.teams[a]).id
                            != (#[trigger] self@.teams[b]).id,
                    forall|b: int| i < b < j ==> self@.teams[i as int].id != (#[trigger] self@.teams[b]).id,
                decreases self.teams@.len() - j,
            {
                if self.teams[i].id == self.teams[j].id {
                    assert(self@.teams[i as int].id == self@.teams[j as int].id);
                    return false;
                }
                j = j + 1;
            }
            i = i + 1;
        }
        true
    }

    /// Where the player with id `id` stands in the roster, or `None` when no player
    /// has that id.
    pub fn player_index(&self, id: Id) -> (r: Option<usize>)
        requires
            world_wf(self@),
        ensures
            r.is_some() == has_player(self@, id),
            r.is_some() ==> r.unwrap() == player_at(self@, id).unwrap(),
    {
        let mut i: usize = 0;
        while i < self.players.len()
            invariant
                i <= self.players@.len(),
                world_wf(self@),
                forall|j: int| 0 <= j < i ==> (#[trigger] self.players@[j]).id != id,
            decreases self.players@.len() - i,
        {
            if self.players[i].id == id {
                proof {
                    assert(self@.players[i as int].id == id);
                    let k = player_at(self@, id).unwrap();
                    assert(self@.players[k].id == id);
                    assert(self@.players[k].id == self.players@[k].id);
                    if k < i {
                        assert(self@.players[k].id != self@.players[i as int].id);
                    } else if k > i {
                        assert(self@.players[i as int].id != self@.players[k].id);
                    }
                }
                return Some(i);
            }
            i = i + 1;
        }
        proof {
            if has_player(self@, id) {
                let k = player_at(self@, id).unwrap();
                assert(self@.players[k].id == self.players@[k].id);
            }
        }
        None
    }

    /// Where the team with id `id` stands in the roster, or `None` when no team has
    /// that id.
    pub fn team_index(&self, id: Id) -> (r: Option<usize>)
        requires
            world_wf(self@),
        ensures
            r.is_some() == has_team(self@, id),
            r.is_some() ==> r.unwrap() == team_at(self@, id).unwrap(),
    {
        let mut i: usize = 0;
        while i < self.teams.len()
            invariant
                i <= self.teams@.len(),
                world_wf(self@),
                forall|j: int| 0 <= j < i ==> (#[trigger] self.teams@[j]).id != id,
            decreases self.teams@.len() - i,
        {
            if self.teams[i].id == id {
                proof {
                    assert(self@.teams[i as int].id == id);
                    let k = team_at(self@, id).unwrap();
                    assert(self@.teams[k].id == self.teams@[k].id);
                    if k < i {
                        assert(self@.teams[k].id != self@.teams[i as int].id);
                    } else if k > i {
                        assert(self@.teams[i as int].id != self@.teams[k].id);
                    }
                }
                return Some(i);
            }
            i = i + 1;
        }
        proof {
            if has_team(self@, id) {
                let k = team_at(self@, id).unwrap();
                assert(self@.teams[k].id == self.teams@[k].id);
            }
        }
        None
    }

    /// Whether player `id` holds modifier `m`; false for an unknown player.
    pub fn player_has_mod(&self, id: Id, m: Mod) -> (r: bool)
        requires
            world_wf(self@),
        ensures
            r == player_has(self@, id, m),
    {
        match self.player_index(id) {
            Some(i) => self.players[i].mods.has(m),
            None => false,
        }
    }

    /// Whether team `id` holds modifier `m`; false for an unknown team.
    pub fn team_has_mod(&self, id: Id, m: Mod) -> (r: bool)
        requires
            world_wf(self@),
        ensures
            r == team_has(self@, id, m),
    {
        match self.team_index(id) {
            Some(i) => self.teams[i].mods.has(m),
            None => false,
        }
    }

    /// Gives player `id` the pair `(m, l)`.
    pub fn add_mod(&mut self, id: Id, m: Mod, l: ModLifetime)
        requires
            world_wf(old(self)@),
            has_player(old(self)@, id),
        ensures
            final(self)@ == add_player_mod(old(self)@, id, m, l),
            same_ids(old(self)@, final(self)@),
    {
        let i = self.player_index(id).unwrap();
        self.players[i].mods.add(m, l);
        assert(self@.players =~= add_player_mod(old(self)@, id, m, l).players);
    }

    /// Takes modifier `m` from player `id`.
    pub fn remove_mod(&mut self, id: Id, m: Mod)
        requires
            world_wf(old(self)@),
            has_player(old(self)@, id),
        ensures
            final(self)@ == remove_player_mod(old(self)@, id, m),
            same_ids(old(self)@, final(self)@),
    {
        let i = self.player_index(id).unwrap();
        self.players[i].mods.remove(m);
        assert(self@.players =~= remove_player_mod(old(self)@, id, m).players);
    }

    /// Adds `tag` to player `id`'s feed.
    pub fn feed(&mut self, id: Id, tag: String)
        requires
            world_wf(old(self)@),
            has_player(old(self)@, id),
        ensures
            final(self)@ == feed_player(old(self)@, id, tag@),
            same_ids(old(self)@, final(self)@),
    {
        let i = self.player_index(id).unwrap();
        self.players[i].feed.add(tag);
        assert(self@.players =~= feed_player(old(self)@, id, tag@).players);
    }

    /// Boosts player `id`'s attributes.
    pub fn boost(&mut self, id: Id, boosts: &Vec<i64>)
        requires
            world_wf(old(self)@),
            has_player(old(self)@, id),
        ensures
            final(self)@ == boost_player(old(self)@, id, boosts@),
            same_ids(old(self)@, final(self)@),
    {
        let i = self.player_index(id).unwrap();
        self.players[i].boost(boosts);
        assert(self@.players =~= boost_player(old(self)@, id, boosts@).players);
    }
}


/// The players and teams of `w2` have the ids of those of `w1`, position by position.
pub open spec fn same_ids(w1: WorldView, w2: WorldView) -> bool {
    &&& w1.players.len() == w2.players.len()
    &&& w1.teams.len() == w2.teams.len()
    &&& forall|i: int| 0 <= i < w1.players.len() ==> (#[trigger] w2.players[i]).id == w1.players[i].id
    &&& forall|i: int| 0 <= i < w1.teams.len() ==> (#[trigger] w2.teams[i]).id == w1.teams[i].id
}

/// A roster whose ids stay in place stays well-formed and finds each id where it was.
pub proof fn lemma_same_ids(w1: WorldView, w2: WorldView)
    requires
        world_wf(w1),
        same_ids(w1, w2),
    ensures
        world_wf(w2),
        forall|id: Id| #[trigger] player_at(w2, id) == player_at(w1, id),
        forall|id: Id| #[trigger] team_at(w2, id) == team_at(w1, id),
{
    assert forall|i: int, j: int| 0 <= i < j < w2.players.len() implies (#[trigger] w2.players[i]).id
        != (#[trigger] w2.players[j]).id by {
        assert(w1.players[i].id != w1.players[j].id);
    }
    assert forall|i: int, j: int| 0 <= i < j < w2.teams.len() implies (#[trigger] w2.teams[i]).id
        != (#[trigger] w2.teams[j]).id by {
        assert(w1.teams[i].id != w1.teams[j].id);
    }
    assert forall|id: Id| #[trigger] player_at(w2, id) == player_at(w1, id) by {
        if player_at(w1, id).is_some() {
            let k = player_at(w1, id).unwrap();
            assert(w2.players[k].id == id);
            let k2 = player_at(w2, id).unwrap();
            assert(w1.players[k2].id == id);
            if k < k2 {
                assert(w1.players[k].id != w1.players[k2].id);
            } else if k2 < k {
                assert(w1.players[k2].id != w1.players[k].id);
            }
        } else if player_at(w2, id).is_some() {
            let k2 = player_at(w2, id).unwrap();
            assert(w1.players[k2].id == id);
        }
    }
    assert forall|id: Id| #[trigger] team_at(w2, id) == team_at(w1, id) by {
        if team_at(w1, id).is_some() {
            let k = team_at(w1, id).unwrap();
            assert(w2.teams[k].id == id);
            let k2 = team_at(w2, id).unwrap();
            assert(w1.teams[k2].id == id);
            if k < k2 {
                assert(w1.teams[k].id != w1.teams[k2].id);
            } else if k2 < k {
                assert(w1.teams[k2].id != w1.teams[k].id);
            }
        } else if team_at(w2, id).is_some() {
            let k2 = team_at(w2, id).unwrap();
            assert(w1.teams[k2].id == id);
        }
    }
}

/// `w2` is well-formed and finds every player and team where `w1` did.
pub open spec fn keeps_ids(w1: WorldView, w2: WorldView) -> bool {
    &&& world_wf(w2)
    &&& forall|id: Id| #[trigger] player_at(w2, id) == player_at(w1, id)
    &&& forall|id: Id| #[trigger] team_at(w2, id) == team_at(w1, id)
}

/// An update that keeps every id in place keeps every lookup.
pub broadcast proof fn lemma_keeps_ids(w1: WorldView, w2: WorldView)
    requires
        world_wf(w1),
        #[trigger] same_ids(w1, w2),
    ensures
        keeps_ids(w1, w2),
{
    lemma_same_ids(w1, w2);
}

/// Every id in `ids` names a player of `w`.
pub open spec fn all_players(w: WorldView, ids: Seq<Id>) -> bool {
    forall|i: int| 0 <= i < ids.len() ==> has_player(w, #[trigger] ids[i])
}

/// The roster after each player of `ids`, in order, gains `(m, l)`.
pub open spec fn add_mod_all(w: WorldView, ids: Seq<Id>, m: Mod, l: ModLifetime) -> WorldView
    decreases ids.len(),
{
    if ids.len() == 0 {
        w
    } else {
        add_player_mod(add_mod_all(w, ids.drop_last(), m, l), ids.last(), m, l)
    }
}

/// The roster after player `id`'s record of when it was swept away is set.
pub open spec fn set_swept_on(w: WorldView, id: Id, day: Option<usize>) -> WorldView {
    let p = player_of(w, id);
    set_player(w, id, PlayerView { swept_on: day, ..p })
}

/// The roster after player `id`'s scattered letters are set.
pub open spec fn set_scattered(w: WorldView, id: Id, n: u8) -> WorldView {
    let p = player_of(w, id);
    set_player(w, id, PlayerView { scattered_letters: n, ..p })
}

/// The roster after team `id`'s record changes by `d` in wins (or losses), in the
/// regular season or the postseason.
pub open spec fn record(w: WorldView, id: Id, wins: bool, postseason: bool, d: i64) -> WorldView {
    let t = team_of(w, id);
    set_team(
        w,
        id,
        if wins && !postseason {
            TeamView { wins: sat_add(t.wins, d), ..t }
        } else if wins {
            TeamView { postseason_wins: sat_add(t.postseason_wins, d), ..t }
        } else if !postseason {
            TeamView { losses: sat_add(t.losses, d), ..t }
        } else {
            TeamView { postseason_losses: sat_add(t.postseason_losses, d), ..t }
        },
    )
}

impl World {
    proof fn lemma_set_player(self, i: int, p: PlayerView)
        requires
            world_wf(self@),
            0 <= i < self@.players.len(),
            p.id == self@.players[i].id,
        ensures
            same_ids(self@, WorldView { players: self@.players.update(i, p), ..self@ }),
    {
    }

    /// Gives each player of `ids`, in order, the pair `(m, l)`.
    pub fn add_mod_all(&mut self, ids: &Vec<Id>, m: Mod, l: ModLifetime)
        requires
            world_wf(old(self)@),
            all_players(old(self)@, ids@),
        ensures
            final(self)@ == add_mod_all(old(self)@, ids@, m, l),
            same_ids(old(self)@, final(self)@),
            final(self)@.teams == old(self)@.teams,
    {
        let mut k: usize = 0;
        while k < ids.len()
            invariant
                k <= ids@.len(),
                world_wf(old(self)@),
                all_players(old(self)@, ids@),
                same_ids(old(self)@, self@),
                self@.teams == old(self)@.teams,
                self@ == add_mod_all(old(self)@, ids@.subrange(0, k as int), m, l),
            decreases ids@.len() - k,
        {
            proof {
                lemma_same_ids(old(self)@, self@);
                assert(has_player(old(self)@, ids@[k as int]));
                assert(ids@.subrange(0, k + 1).drop_last() =~= ids@.subrange(0, k as int));
            }
            let ghost before = self@;
            self.add_mod(ids[k], m, l);
            proof {
                let i = player_at(before, ids@[k as int]).unwrap();
                assert(self@.players[i].id == before.players[i].id);
                assert(same_ids(before, self@));
            }
            k = k + 1;
        }
        assert(ids@.subrange(0, ids@.len() as int) =~= ids@);
    }

    /// Sets player `id`'s record of when it was swept away.
    pub fn set_swept_on(&mut self, id: Id, day: Option<usize>)
        requires
            world_wf(old(self)@),
            has_player(old(self)@, id),
        ensures
            final(self)@ == set_swept_on(old(self)@, id, day),
            same_ids(old(self)@, final(self)@),
    {
        let i = self.player_index(id).unwrap();
        self.players[i].swept_on = day;
        assert(self@.players =~= set_swept_on(old(self)@, id, day).players);
    }

    /// Sets player `id`'s scattered letters.
    pub fn set_scattered(&mut self, id: Id, n: u8)
        requires
            world_wf(old(self)@),
            has_player(old(self)@, id),
        ensures
            final(self)@ == set_scattered(old(self)@, id, n),
            same_ids(old(self)@, final(self)@),
    {
        let i = self.player_index(id).unwrap();
        self.players[i].scattered_letters = n;
        assert(self@.players =~= set_scattered(old(self)@, id, n).players);
    }

    /// Changes team `id`'s record.
    pub fn record(&mut self, id: Id, wins: bool, postseason: bool, d: i64)
        requires
            world_wf(old(self)@),
            has_team(old(self)@, id),
        ensures
            final(self)@ == record(old(self)@, id, wins, postseason, d),
            same_ids(old(self)@, final(self)@),
    {
        let i = self.team_index(id).unwrap();
        if wins && !postseason {
            let v = saturating_sum(self.teams[i].wins, d);
            self.teams[i].wins = v;
        } else if wins {
            let v = saturating_sum(self.teams[i].postseason_wins, d);
            self.teams[i].postseason_wins = v;
        } else if !postseason {
            let v = saturating_sum(self.teams[i].losses, d);
            self.teams[i].losses = v;
        } else {
            let v = saturating_sum(self.teams[i].postseason_losses, d);
            self.teams[i].postseason_losses = v;
        }
        assert(self@.teams =~= record(old(self)@, id, wins, postseason, d).teams);
    }
}

/// `x` with ids `a` and `b` exchanged.
pub open spec fn swap_id(x: Id, a: Id, b: Id) -> Id {
    if x == a {
        b
    } else if x == b {
        a
    } else {
        x
    }
}

/// `x`, or `b` where it was `a`.
pub open spec fn replace_id(x: Id, a: Id, b: Id) -> Id {
    if x == a {
        b
    } else {
        x
    }
}

/// The roster after players `a` and `b` change places: each takes the other's slots
/// in every lineup and rotation, and the other's team.
pub open spec fn swapped(w: WorldView, a: Id, b: Id) -> WorldView {
    let teams = w.teams.map_values(
        |t: TeamView|
            TeamView {
                lineup: t.lineup.map_values(|x: Id| swap_id(x, a, b)),
                rotation: t.rotation.map_values(|x: Id| swap_id(x, a, b)),
                ..t
            },
    );
    let w1 = WorldView { teams, ..w };
    let team_a = player_of(w, a).team;
    let team_b = player_of(w, b).team;
    let w2 = set_player(w1, a, PlayerView { team: team_b, ..player_of(w1, a) });
    set_player(w2, b, PlayerView { team: team_a, ..player_of(w2, b) })
}

/// The roster after team `id`'s lineup followed by its rotation is reordered: slot
/// `i` of the result is taken by the player in slot `changes[i]` before.
pub open spec fn reordered(w: WorldView, id: Id, changes: Seq<usize>) -> WorldView {
    let t = team_of(w, id);
    let all = t.lineup + t.rotation;
    let after = Seq::new(changes.len(), |i: int| all[changes[i] as int]);
    set_team(
        w,
        id,
        TeamView {
            lineup: after.subrange(0, t.lineup.len() as int),
            rotation: after.subrange(t.lineup.len() as int, after.len() as int),
            ..t
        },
    )
}

/// Whether `changes` reorders team `id`'s lineup and rotation.
pub open spec fn reorders(w: WorldView, id: Id, changes: Seq<usize>) -> bool {
    let t = team_of(w, id);
    &&& changes.len() == t.lineup.len() + t.rotation.len()
    &&& forall|i: int| 0 <= i < changes.len() ==> (#[trigger] changes[i]) < changes.len()
}

/// The roster with slot `i` of team `id`'s lineup (`which == 0`), rotation (`1`)
/// or shadows (otherwise) taken by `p`.
pub open spec fn set_slot(w: WorldView, id: Id, which: u8, i: int, p: Id) -> WorldView {
    let t = team_of(w, id);
    set_team(
        w,
        id,
        if which == 0 {
            TeamView { lineup: t.lineup.update(i, p), ..t }
        } else if which == 1 {
            TeamView { rotation: t.rotation.update(i, p), ..t }
        } else {
            TeamView { shadows: t.shadows.update(i, p), ..t }
        },
    )
}

/// The roster after player `p` joins it.
pub open spec fn with_player(w: WorldView, p: PlayerView) -> WorldView {
    WorldView { players: w.players.push(p), ..w }
}

/// The roster after player `target` of team `tid` leaves play for good, player `rep`
/// taking its slots and its team.
pub open spec fn incinerated(w: WorldView, target: Id, rep: Id, tid: Id) -> WorldView {
    let t = team_of(w, tid);
    let w1 = set_team(
        w,
        tid,
        TeamView {
            lineup: t.lineup.map_values(|x: Id| replace_id(x, target, rep)),
            rotation: t.rotation.map_values(|x: Id| replace_id(x, target, rep)),
            ..t
        },
    );
    let w2 = set_player(w1, target, PlayerView { team: None, ..player_of(w1, target) });
    let w3 = set_player(w2, rep, PlayerView { team: Some(tid), ..player_of(w2, rep) });
    WorldView { hall: without_id(w3.hall, rep).push(target), ..w3 }
}

/// `s` without the entries equal to `id`, order kept.
pub open spec fn without_id(s: Seq<Id>, id: Id) -> Seq<Id> {
    s.filter(|x: Id| x != id)
}

fn swap_in(v: &mut Vec<Id>, a: Id, b: Id)
    ensures
        final(v)@ == old(v)@.map_values(|x: Id| swap_id(x, a, b)),
{
    let mut i: usize = 0;
    while i < v.len()
        invariant
            i <= v@.len(),
            v@.len() == old(v)@.len(),
            forall|j: int|
                0 <= j < v@.len() ==> #[trigger] v@[j] == if j < i {
                    swap_id(old(v)@[j], a, b)
                } else {
                    old(v)@[j]
                },
        decreases v@.len() - i,
    {
        let x = v[i];
        if x == a {
            v.set(i, b);
        } else if x == b {
            v.set(i, a);
        }
        i = i + 1;
    }
    assert(v@ =~= old(v)@.map_values(|x: Id| swap_id(x, a, b)));
}

fn replace_in(v: &mut Vec<Id>, a: Id, b: Id)
    ensures
        final(v)@ == old(v)@.map_values(|x: Id| replace_id(x, a, b)),
{
    let mut i: usize = 0;
    while i < v.len()
        invariant
            i <= v@.len(),
            v@.len() == old(v)@.len(),
            forall|j: int|
                0 <= j < v@.len() ==> #[trigger] v@[j] == if j < i {
                    replace_id(old(v)@[j], a, b)
                } else {
                    old(v)@[j]
                },
        decreases v@.len() - i,
    {
        if v[i] == a {
            v.set(i, b);
        }
        i = i + 1;
    }
    assert(v@ =~= old(v)@.map_values(|x: Id| replace_id(x, a, b)));
}

fn copy_ids(v: &Vec<Id>) -> (r: Vec<Id>)
    ensures
        r@ == v@,
{
    let mut r: Vec<Id> = Vec::new();
    let mut i: usize = 0;
    while i < v.len()
        invariant
            i <= v@.len(),
            r@ == v@.subrange(0, i as int),
        decreases v@.len() - i,
    {
        r.push(v[i]);
        i = i + 1;
    }
    assert(v@.subrange(0, v@.len() as int) =~= v@);
    r
}

fn copy_i64s(v: &Vec<i64>) -> (r: Vec<i64>)
    ensures
        r@ == v@,
{
    let mut r: Vec<i64> = Vec::new();
    let mut i: usize = 0;
    while i < v.len()
        invariant
            i <= v@.len(),
            r@ == v@.subrange(0, i as int),
        decreases v@.len() - i,
    {
        r.push(v[i]);
        i = i + 1;
    }
    assert(v@.subrange(0, v@.len() as int) =~= v@);
    r
}

impl Player {
    /// A player with the same view.
    pub fn duplicate(&self) -> (r: Player)
        ensures
            r@ == self@,
    {
        Player {
            id: self.id,
            name: self.name.clone(),
            team: self.team,
            mods: self.mods.duplicate(),
            feed: self.feed.duplicate(),
            scattered_letters: self.scattered_letters,
            swept_on: self.swept_on,
            attributes: copy_i64s(&self.attributes),
        }
    }
}

impl World {
    /// Players `a` and `b` change places: slots in every lineup and rotation, and teams.
    pub fn swap(&mut self, a: Id, b: Id)
        requires
            world_wf(old(self)@),
            has_player(old(self)@, a),
            has_player(old(self)@, b),
        ensures
            final(self)@ == swapped(old(self)@, a, b),
            same_ids(old(self)@, final(self)@),
    {
        let ia = self.player_index(a).unwrap();
        let ib = self.player_index(b).unwrap();
        let team_a = self.players[ia].team;
        let team_b = self.players[ib].team;
        let ghost w = self@;
        let mut i: usize = 0;
        while i < self.teams.len()
            invariant
                i <= self.teams@.len(),
                self.players@ == old(self).players@,
                self.hall@ == old(self).hall@,
                self.season_ruleset == old(self).season_ruleset,
                self.teams@.len() == old(self).teams@.len(),
                w == old(self)@,
                forall|j: int|
                    0 <= j < self.teams@.len() ==> #[trigger] self.teams@[j]@ == if j < i {
                        TeamView {
                            lineup: w.teams[j].lineup.map_values(|x: Id| swap_id(x, a, b)),
                            rotation: w.teams[j].rotation.map_values(|x: Id| swap_id(x, a, b)),
                            ..w.teams[j]
                        }
                    } else {
                        w.teams[j]
                    },
            decreases self.teams@.len() - i,
        {
            let ghost t0 = self.teams@[i as int];
            swap_in(&mut self.teams[i].lineup, a, b);
            swap_in(&mut self.teams[i].rotation, a, b);
            proof {
                let t1 = self.teams@[i as int];
                assert(t1.lineup@ == t0.lineup@.map_values(|x: Id| swap_id(x, a, b)));
                assert(t1.rotation@ == t0.rotation@.map_values(|x: Id| swap_id(x, a, b)));
                assert(t1.mods == t0.mods);
                assert(t0@ == w.teams[i as int]);
                assert(self.teams@[i as int]@ =~= TeamView {
                    lineup: w.teams[i as int].lineup.map_values(|x: Id| swap_id(x, a, b)),
                    rotation: w.teams[i as int].rotation.map_values(|x: Id| swap_id(x, a, b)),
                    ..w.teams[i as int]
                });
            }
            i = i + 1;
        }
        let ghost w1 = self@;
        proof {
            let teams = w.teams.map_values(
                |t: TeamView|
                    TeamView {
                        lineup: t.lineup.map_values(|x: Id| swap_id(x, a, b)),
                        rotation: t.rotation.map_values(|x: Id| swap_id(x, a, b)),
                        ..t
                    },
            );
            assert(w1.teams =~= teams);
            assert(w1.players =~= w.players);
            assert(w1 =~= WorldView { teams, ..w });
            lemma_same_ids(w, w1);
        }
        self.players[ia].team = team_b;
        let ghost w2 = self@;
        proof {
            assert(w2 =~= set_player(w1, a, PlayerView { team: team_b, ..player_of(w1, a) }));
            lemma_same_ids(w, w2);
        }
        self.players[ib].team = team_a;
        proof {
            assert(self@ =~= set_player(w2, b, PlayerView { team: team_a, ..player_of(w2, b) }));
            lemma_same_ids(w, self@);
        }
    }

    /// Reorders team `id`'s lineup followed by its rotation by `changes`.
    pub fn reorder(&mut self, id: Id, changes: &Vec<usize>)
        requires
            world_wf(old(self)@),
            has_team(old(self)@, id),
            reorders(old(self)@, id, changes@),
        ensures
            final(self)@ == reordered(old(self)@, id, changes@),
            same_ids(old(self)@, final(self)@),
    {
        let ti = self.team_index(id).unwrap();
        let ghost all = self@.teams[ti as int].lineup + self@.teams[ti as int].rotation;
        let ghost after = Seq::new(changes@.len(), |i: int| all[changes@[i] as int]);
        let nl = self.teams[ti].lineup.len();
        let mut lineup: Vec<Id> = Vec::new();
        let mut rotation: Vec<Id> = Vec::new();
        let mut i: usize = 0;
        while i < changes.len()
            invariant
                i <= changes@.len(),
                ti < self.teams@.len(),
                nl == self.teams@[ti as int].lineup@.len(),
                all == self.teams@[ti as int].lineup@ + self.teams@[ti as int].rotation@,
                after == Seq::new(changes@.len(), |i: int| all[changes@[i] as int]),
                changes@.len() == all.len(),
                forall|k: int| 0 <= k < changes@.len() ==> (#[trigger] changes@[k]) < changes@.len(),
                i <= nl ==> lineup@ == after.subrange(0, i as int) && rotation@.len() == 0,
                i > nl ==> lineup@ == after.subrange(0, nl as int) && rotation@ == after.subrange(
                    nl as int,
                    i as int,
                ),
            decreases changes@.len() - i,
        {
            let c = changes[i];
            let x = if c < nl {
                self.teams[ti].lineup[c]
            } else {
                self.teams[ti].rotation[c - nl]
            };
            assert(x == after[i as int]);
            if i < nl {
                lineup.push(x);
            } else {
                rotation.push(x);
            }
            i = i + 1;
        }
        proof {
            assert(lineup@ =~= after.subrange(0, nl as int));
            assert(rotation@ =~= after.subrange(nl as int, after.len() as int));
        }
        self.teams[ti].lineup = lineup;
        self.teams[ti].rotation = rotation;
        proof {
            assert(self@.teams =~= reordered(old(self)@, id, changes@).teams);
        }
    }

    /// Puts player `p` in slot `i` of team `id`'s lineup (`which == 0`), rotation
    /// (`1`) or shadows (otherwise).
    pub fn set_slot(&mut self, id: Id, which: u8, i: usize, p: Id)
        requires
            world_wf(old(self)@),
            has_team(old(self)@, id),
            which == 0 ==> i < team_of(old(self)@, id).lineup.len(),
            which == 1 ==> i < team_of(old(self)@, id).rotation.len(),
            which > 1 ==> i < team_of(old(self)@, id).shadows.len(),
        ensures
            final(self)@ == set_slot(old(self)@, id, which, i as int, p),
            same_ids(old(self)@, final(self)@),
    {
        let ti = self.team_index(id).unwrap();
        if which == 0 {
            self.teams[ti].lineup.set(i, p);
        } else if which == 1 {
            self.teams[ti].rotation.set(i, p);
        } else {
            self.teams[ti].shadows.set(i, p);
        }
        assert(self@.teams =~= set_slot(old(self)@, id, which, i as int, p).teams);
    }

    /// Adds player `p`, whose id the roster must not hold yet.
    pub fn add_player(&mut self, p: Player)
        requires
            world_wf(old(self)@),
            !has_player(old(self)@, p.id),
        ensures
            final(self)@ == with_player(old(self)@, p@),
            world_wf(final(self)@),
            forall|id: Id| has_player(old(self)@, id) ==> #[trigger] player_at(final(self)@, id) == player_at(old(self)@, id),
            forall|id: Id| #[trigger] team_at(final(self)@, id) == team_at(old(self)@, id),
            has_player(final(self)@, p@.id),
    {
        let ghost w = self@;
        self.players.push(p);
        proof {
            assert(self@.players =~= w.players.push(p@));
            let n = w.players.len() as int;
            assert(self@.players[n].id == p.id);
            assert forall|i: int, j: int| 0 <= i < j < self@.players.len() implies (#[trigger] self@.players[i]).id
                != (#[trigger] self@.players[j]).id by {
                if j == n {
                    assert(self@.players[i] == w.players[i]);
                    if w.players[i].id == p.id {
                        assert(has_player(w, p.id));
                    }
                } else {
                    assert(w.players[i].id != w.players[j].id);
                }
            }
            assert forall|id: Id| has_player(w, id) implies #[trigger] player_at(self@, id) == player_at(w, id) by {
                let k = player_at(w, id).unwrap();
                assert(self@.players[k] == w.players[k]);
                let k2 = player_at(self@, id).unwrap();
                if k2 == n {
                    assert(id == p.id);
                } else {
                    assert(self@.players[k2] == w.players[k2]);
                    if k < k2 {
                        assert(w.players[k].id != w.players[k2].id);
                    } else if k2 < k {
                        assert(w.players[k2].id != w.players[k].id);
                    }
                }
            }
            assert(self@.teams == w.teams);
        }
    }

    /// Player `target` of team `tid` leaves play for good: player `rep` takes its
    /// slots in that team and the team itself, and `target` joins the hall.
    pub fn incinerate(&mut self, target: Id, rep: Id, tid: Id)
        requires
            world_wf(old(self)@),
            has_player(old(self)@, target),
            has_player(old(self)@, rep),
            has_team(old(self)@, tid),
        ensures
            final(self)@ == incinerated(old(self)@, target, rep, tid),
            same_ids(old(self)@, final(self)@),
    {
        let ti = self.team_index(tid).unwrap();
        replace_in(&mut self.teams[ti].lineup, target, rep);
        replace_in(&mut self.teams[ti].rotation, target, rep);
        let ghost w1 = self@;
        proof {
            let t = team_of(old(self)@, tid);
            assert(w1 =~= set_team(
                old(self)@,
                tid,
                TeamView {
                    lineup: t.lineup.map_values(|x: Id| replace_id(x, target, rep)),
                    rotation: t.rotation.map_values(|x: Id| replace_id(x, target, rep)),
                    ..t
                },
            ));
            lemma_same_ids(old(self)@, w1);
        }
        let it = self.player_index(target).unwrap();
        self.players[it].team = None;
        let ghost w2 = self@;
        proof {
            assert(w2 =~= set_player(w1, target, PlayerView { team: None, ..player_of(w1, target) }));
            lemma_same_ids(old(self)@, w2);
        }
        let ir = self.player_index(rep).unwrap();
        self.players[ir].team = Some(tid);
        proof {
            assert(self@ =~= set_player(w2, rep, PlayerView { team: Some(tid), ..player_of(w2, rep) }));
            lemma_same_ids(old(self)@, self@);
        }
        let ghost w3 = self@;
        let ghost h = self.hall@;
        let mut hall: Vec<Id> = Vec::new();
        let mut i: usize = 0;
        while i < self.hall.len()
            invariant
                i <= self.hall@.len(),
                h == self.hall@,
                hall@ == without_id(h.subrange(0, i as int), rep),
            decreases self.hall@.len() - i,
        {
            proof {
                reveal(Seq::filter);
                assert(h.subrange(0, i as int + 1).drop_last() =~= h.subrange(0, i as int));
            }
            if self.hall[i] != rep {
                hall.push(self.hall[i]);
            }
            i = i + 1;
        }
        assert(h.subrange(0, h.len() as int) =~= h);
        hall.push(target);
        self.hall = hall;
        proof {
            assert(self@ =~= WorldView { hall: without_id(w3.hall, rep).push(target), ..w3 });
        }
    }
}

/// `w2` has the teams of `w1`, position by position, with their modifiers.
pub open spec fn same_team_mods(w1: WorldView, w2: WorldView) -> bool {
    &&& w1.teams.len() == w2.teams.len()
    &&& forall|i: int|
        0 <= i < w1.teams.len() ==> (#[trigger] w2.teams[i]).id == w1.teams[i].id
            && w2.teams[i].mods == w1.teams[i].mods
}

/// Teams that keep their places and modifiers keep every answer to `team_has`.
pub proof fn lemma_team_has_same(w1: WorldView, w2: WorldView)
    requires
        world_wf(w1),
        same_team_mods(w1, w2),
    ensures
        forall|id: Id, m: Mod| #[trigger] team_has(w2, id, m) == team_has(w1, id, m),
{
    assert forall|id: Id| #[trigger] team_at(w2, id) == team_at(w1, id) by {
        if team_at(w1, id).is_some() {
            let k = team_at(w1, id).unwrap();
            assert(w2.teams[k].id == id);
            let k2 = team_at(w2, id).unwrap();
            assert(w1.teams[k2].id == id);
            if k < k2 {
                assert(w1.teams[k].id != w1.teams[k2].id);
            } else if k2 < k {
                assert(w1.teams[k2].id != w1.teams[k].id);
            }
        } else if team_at(w2, id).is_some() {
            let k2 = team_at(w2, id).unwrap();
            assert(w1.teams[k2].id == id);
        }
    }
}

} // verus!
