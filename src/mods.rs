use vstd::prelude::*;

verus! {

/// A modifier that can be attached to a player or a team.
#[derive(Debug, Clone, Copy, PartialEq, Eq, Structural)]
pub enum Mod {
    TargetedShame,
    Flinch,
    Mild,
    Reverberating,
    Fireproof,
    Soundproof,
    Shelled,
    LifeOfTheParty,
    Gravity,
    NightVision,
    FourthStrike,
    DebtU,
    Unstable,
    Superallergic,
    Spicy,
    HeatingUp,
    RedHot,
    Minimized,
    Electric,
    RefinancedDebt,
    Flickering,
    Stable,
    HomeFieldAdvantage,
    BaseInstincts,
    AffinityForCrows,
    Growth,
    ConsolidatedDebt,
    Repeating,
    FifthBase,
    Charm,
    SuperFlickering,
    Squiddish,
    Siphon,
    FriendOfCrows,
    FireEater,
    Magmatic,
    HoneyRoasted,
    Traveling,
    Haunted,
    Sealant,
    Blaserunning,
    BirdSeed,
    Superyummy,
    Overperforming,
    Underperforming,
    WalkInThePark,
    ONo,
    Wired,
    Tired,
    FreeRefill,
    TripleThreat,
    Perk,
    Elsewhere,
    Scattered,
    Flippers,
    Earlbirds,
    LateToTheParty,
    Roaming,
    HardBoiled,
    Undersea,
    Ambush,
}

/// How long a modifier lasts before a bulk clear removes it.
#[derive(Debug, Clone, Copy, PartialEq, Eq, Structural)]
pub enum ModLifetime {
    Game,
    Week,
    Season,
    LegendaryItem,
    Permanent,
}

/// The modifiers of one entity, each with the scope it was given under.
#[derive(Debug)]
pub struct Mods {
    mods: Vec<(Mod, ModLifetime)>,
}

/// True iff some entry of `s` carries modifier `m`, under any scope.
pub open spec fn has_mod(s: Seq<(Mod, ModLifetime)>, m: Mod) -> bool {
    exists|i: int| 0 <= i < s.len() && (#[trigger] s[i]).0 == m
}

/// `s` without the entries whose modifier is `drop_mod` or whose scope is
/// `drop_lifetime`, order kept.
pub open spec fn keep_filter(
    s: Seq<(Mod, ModLifetime)>,
    drop_mod: Option<Mod>,
    drop_lifetime: Option<ModLifetime>,
) -> Seq<(Mod, ModLifetime)> {
    s.filter(|p: (Mod, ModLifetime)| !(drop_mod == Some(p.0) || drop_lifetime == Some(p.1)))
}

/// `s` with every entry of modifier `m` dropped, order kept.
pub open spec fn without_mod(s: Seq<(Mod, ModLifetime)>, m: Mod) -> Seq<(Mod, ModLifetime)> {
    keep_filter(s, Some(m), None)
}

/// `s` with every entry of scope `l` dropped, order kept.
pub open spec fn without_lifetime(s: Seq<(Mod, ModLifetime)>, l: ModLifetime) -> Seq<
    (Mod, ModLifetime),
> {
    keep_filter(s, None, Some(l))
}

/// `s` after adding the pair `(m, l)`: unchanged when the pair is already there.
pub open spec fn with_mod(s: Seq<(Mod, ModLifetime)>, m: Mod, l: ModLifetime) -> Seq<
    (Mod, ModLifetime),
> {
    if s.contains((m, l)) {
        s
    } else {
        s.push((m, l))
    }
}

impl View for Mods {
    type V = Seq<(Mod, ModLifetime)>;

    closed spec fn view(&self) -> Seq<(Mod, ModLifetime)> {
        self.mods@
    }
}

impl Mods {
    /// Well-formed: no (modifier, scope) pair is held twice.
    pub open spec fn wf(&self) -> bool {
        self@.no_duplicates()
    }

    fn filtered(&self, drop_mod: Option<Mod>, drop_lifetime: Option<ModLifetime>) -> (r: Mods)
        ensures
            r@ == keep_filter(self@, drop_mod, drop_lifetime),
            self.wf() ==> r.wf(),
    {
        proof {
            if self.wf() {
                lemma_filter_no_duplicates(self@, drop_mod, drop_lifetime);
            }
        }
        let mut out: Vec<(Mod, ModLifetime)> = Vec::new();
        let mut i: usize = 0;
        while i < self.mods.len()
            invariant
                i <= self.mods@.len(),
                out@ == keep_filter(self@.subrange(0, i as int), drop_mod, drop_lifetime),
            decreases self.mods@.len() - i,
        {
            let x = self.mods[i];
            let mod_hit = match drop_mod {
                Some(dm) => dm == x.0,
                None => false,
            };
            let lifetime_hit = match drop_lifetime {
                Some(dl) => dl == x.1,
                None => false,
            };
            assert(mod_hit == (drop_mod == Some(x.0)));
            assert(lifetime_hit == (drop_lifetime == Some(x.1)));
            let dropped = mod_hit || lifetime_hit;
            proof {
                reveal(Seq::filter);
                assert(self@.subrange(0, i as int + 1).drop_last() =~= self@.subrange(0, i as int));
                assert(self@.subrange(0, i as int + 1).last() == x);
            }
            if !dropped {
                out.push(x);
            }
            i = i + 1;
        }
        proof {
            assert(self@.subrange(0, self@.len() as int) =~= self@);
        }
        Mods { mods: out }
    }

    /// A set holding the same pairs.
    pub fn duplicate(&self) -> (r: Mods)
        ensures
            r@ == self@,
    {
        let r = self.filtered(None, None);
        proof {
            reveal(Seq::filter);
            assert(r@ =~= self@) by {
                lemma_keep_all(self@);
            }
        }
        r
    }

    /// An empty set of modifiers.
    pub fn new() -> (r: Mods)
        ensures
            r@ == Seq::<(Mod, ModLifetime)>::empty(),
            r.wf(),
    {
        Mods { mods: Vec::new() }
    }

    /// Whether modifier `m` is held under any scope.
    pub fn has(&self, m: Mod) -> (r: bool)
        ensures
            r == has_mod(self@, m),
    {
        let mut i: usize = 0;
        while i < self.mods.len()
            invariant
                i <= self.mods@.len(),
                forall|j: int| 0 <= j < i ==> (#[trigger] self@[j]).0 != m,
            decreases self.mods@.len() - i,
        {
            if self.mods[i].0 == m {
                return true;
            }
            i = i + 1;
        }
        false
    }

    /// Adds `(m, lifetime)`; adding a pair that is already held changes nothing.
    pub fn add(&mut self, m: Mod, lifetime: ModLifetime)
        ensures
            final(self)@ == with_mod(old(self)@, m, lifetime),
            old(self).wf() ==> final(self).wf(),
    {
        let mut found = false;
        let mut i: usize = 0;
        while i < self.mods.len()
            invariant
                i <= self.mods@.len(),
                found == exists|j: int| 0 <= j < i && self@[j] == (m, lifetime),
            decreases self.mods@.len() - i,
        {
            let x = self.mods[i];
            if x.0 == m && x.1 == lifetime {
                assert(self@[i as int] == (m, lifetime));
                found = true;
            } else {
                assert(self@[i as int] != (m, lifetime));
            }
            i = i + 1;
        }
        if !found {
            self.mods.push((m, lifetime));
            proof {
                assert(!old(self)@.contains((m, lifetime)));
                assert(self@ == old(self)@.push((m, lifetime)));
                if old(self).wf() {
                    assert forall|a: int, b: int| 0 <= a < b < self@.len() implies self@[a]
                        != self@[b] by {
                        assert(old(self)@[a] == self@[a]);
                        if b == old(self)@.len() {
                            if old(self)@[a] == (m, lifetime) {
                                assert(old(self)@.contains((m, lifetime)));
                            }
                        } else {
                            assert(old(self)@[b] == self@[b]);
                        }
                    }
                }
            }
        }
    }

    /// Drops modifier `m` under every scope.
    pub fn remove(&mut self, m: Mod)
        ensures
            final(self)@ == without_mod(old(self)@, m),
            old(self).wf() ==> final(self).wf(),
    {
        *self = self.filtered(Some(m), None);
    }

    /// Drops every modifier that lasts one game.
    pub fn clear_game(&mut self)
        ensures
            final(self)@ == without_lifetime(old(self)@, ModLifetime::Game),
            old(self).wf() ==> final(self).wf(),
    {
        *self = self.filtered(None, Some(ModLifetime::Game));
    }

    /// Drops every modifier that lasts one week.
    pub fn clear_weekly(&mut self)
        ensures
            final(self)@ == without_lifetime(old(self)@, ModLifetime::Week),
            old(self).wf() ==> final(self).wf(),
    {
        *self = self.filtered(None, Some(ModLifetime::Week));
    }

    /// Drops every modifier that lasts one season.
    pub fn clear_season(&mut self)
        ensures
            final(self)@ == without_lifetime(old(self)@, ModLifetime::Season),
            old(self).wf() ==> final(self).wf(),
    {
        *self = self.filtered(None, Some(ModLifetime::Season));
    }

    /// Drops every modifier held through a legendary item.
    pub fn clear_legendary_item(&mut self)
        ensures
            final(self)@ == without_lifetime(old(self)@, ModLifetime::LegendaryItem),
            old(self).wf() ==> final(self).wf(),
    {
        *self = self.filtered(None, Some(ModLifetime::LegendaryItem));
    }
}

proof fn lemma_filter_no_duplicates(
    s: Seq<(Mod, ModLifetime)>,
    drop_mod: Option<Mod>,
    drop_lifetime: Option<ModLifetime>,
)
    requires
        s.no_duplicates(),
    ensures
        keep_filter(s, drop_mod, drop_lifetime).no_duplicates(),
        forall|x: (Mod, ModLifetime)| #[trigger] keep_filter(s, drop_mod, drop_lifetime).contains(x) ==> s.contains(x),
    decreases s.len(),
{
    reveal(Seq::filter);
    if s.len() > 0 {
        let t = s.drop_last();
        assert forall|a: int, b: int| 0 <= a < b < t.len() implies t[a] != t[b] by {
            assert(t[a] == s[a] && t[b] == s[b]);
        }
        lemma_filter_no_duplicates(t, drop_mod, drop_lifetime);
        let f = keep_filter(t, drop_mod, drop_lifetime);
        let r = keep_filter(s, drop_mod, drop_lifetime);
        assert(r == f || r == f.push(s.last()));
        assert(!t.contains(s.last())) by {
            if t.contains(s.last()) {
                let k = choose|k: int| 0 <= k < t.len() && t[k] == s.last();
                assert(s[k] == s[s.len() - 1]);
            }
        }
        assert forall|x: (Mod, ModLifetime)| r.contains(x) implies s.contains(x) by {
            let k = choose|k: int| 0 <= k < r.len() && r[k] == x;
            if k < f.len() {
                assert(f[k] == x);
                assert(f.contains(x));
                let j = choose|j: int| 0 <= j < t.len() && t[j] == x;
                assert(s[j] == x);
            } else {
                assert(x == s.last());
                assert(s[s.len() - 1] == x);
            }
        }
        if r.len() > f.len() {
            assert forall|a: int, b: int| 0 <= a < b < r.len() implies r[a] != r[b] by {
                if b == f.len() {
                    assert(r[a] == f[a]);
                    assert(f.contains(f[a]));
                    if f[a] == s.last() {
                        assert(t.contains(s.last()));
                    }
                } else {
                    assert(r[a] == f[a] && r[b] == f[b]);
                }
            }
        }
    }
}

proof fn lemma_keep_all(s: Seq<(Mod, ModLifetime)>)
    ensures
        keep_filter(s, None, None) == s,
    decreases s.len(),
{
    reveal(Seq::filter);
    if s.len() > 0 {
        lemma_keep_all(s.drop_last());
        assert(s.drop_last().push(s.last()) =~= s);
    }
}

/// Adding the same (modifier, scope) pair twice leaves the same modifiers, and so
/// the same answers to `has`, as adding it once.
pub proof fn lemma_add_idempotent(s: Seq<(Mod, ModLifetime)>, m: Mod, l: ModLifetime, q: Mod)
    ensures
        with_mod(with_mod(s, m, l), m, l) == with_mod(s, m, l),
        has_mod(with_mod(with_mod(s, m, l), m, l), q) == has_mod(with_mod(s, m, l), q),
{
    if !s.contains((m, l)) {
        assert(s.push((m, l))[s.len() as int] == (m, l));
        assert(s.push((m, l)).contains((m, l)));
    }
}

} // verus!
