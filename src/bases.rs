use vstd::prelude::*;

use crate::entities::Id;

verus! {

/// A runner standing on a base.
#[derive(Clone, Copy, Debug, PartialEq, Eq, Structural)]
pub struct Runner {
    pub id: Id,
    pub base: u8,
}

/// Which runners a filtering pass keeps.
#[derive(Clone, Copy)]
enum Keep {
    Above(u8),
    Below(u8),
    Except(u8),
}

spec fn keeps(k: Keep, r: Runner) -> bool {
    match k {
        Keep::Above(b) => r.base > b,
        Keep::Below(b) => r.base < b,
        Keep::Except(b) => r.base != b,
    }
}

spec fn keep_runners(s: Seq<Runner>, k: Keep) -> Seq<Runner> {
    s.filter(|r: Runner| keeps(k, r))
}

/// Runners listed from the lead runner down: bases strictly decrease, so no base
/// holds two runners.
pub open spec fn lead_first(s: Seq<Runner>) -> bool {
    forall|i: int, j: int| 0 <= i < j < s.len() ==> (#[trigger] s[i]).base > (#[trigger] s[j]).base
}

/// Whether some runner stands on base `b`.
pub open spec fn occupied_in(s: Seq<Runner>, b: int) -> bool {
    exists|i: int| 0 <= i < s.len() && (#[trigger] s[i]).base == b
}

/// Whether runner `id` is on base.
pub open spec fn contains_in(s: Seq<Runner>, id: Id) -> bool {
    exists|i: int| 0 <= i < s.len() && (#[trigger] s[i]).id == id
}

/// Every runner sits on a base below `bases`.
pub open spec fn all_below(s: Seq<Runner>, bases: int) -> bool {
    forall|i: int| 0 <= i < s.len() ==> (#[trigger] s[i]).base < bases
}

/// The runners ahead of base `b`.
pub open spec fn ahead_of(s: Seq<Runner>, b: int) -> Seq<Runner> {
    s.filter(|x: Runner| x.base > b)
}

/// The runners behind base `b`.
pub open spec fn behind(s: Seq<Runner>, b: int) -> Seq<Runner> {
    s.filter(|x: Runner| x.base < b)
}

/// The runners with runner `r` put in its place in the order.
pub open spec fn with_runner(s: Seq<Runner>, r: Runner) -> Seq<Runner> {
    ahead_of(s, r.base as int).push(r) + behind(s, r.base as int)
}

/// The runners without the one on base `b`.
pub open spec fn without_base(s: Seq<Runner>, b: int) -> Seq<Runner> {
    s.filter(|x: Runner| x.base != b)
}

/// Every runner moved `n` bases on.
pub open spec fn shifted(s: Seq<Runner>, n: int) -> Seq<Runner> {
    s.map_values(|x: Runner| Runner { id: x.id, base: (x.base + n) as u8 })
}

/// The runners after the runner on base `b`, if any, moves one base on into a free base.
pub open spec fn advanced_one(s: Seq<Runner>, b: int) -> Seq<Runner> {
    if occupied_in(s, b) && !occupied_in(s, b + 1) {
        pushed_from(s, b)
    } else {
        s
    }
}

/// The runners that stay on the field after those on or past base `bases` are taken off.
pub open spec fn on_field(s: Seq<Runner>, bases: int) -> Seq<Runner> {
    s.filter(|x: Runner| x.base < bases)
}

/// The first base from `b` up that no runner holds.
pub open spec fn first_free(s: Seq<Runner>, b: int) -> int
    decreases 256 - b,
{
    if b >= 256 || !occupied_in(s, b) {
        b
    } else {
        first_free(s, b + 1)
    }
}

/// The runners after the unbroken chain of runners from base `b` up has each been
/// forced one base on.
pub open spec fn pushed_from(s: Seq<Runner>, b: int) -> Seq<Runner> {
    let c = first_free(s, b);
    s.map_values(
        |x: Runner|
            if b <= x.base < c {
                Runner { id: x.id, base: (x.base + 1) as u8 }
            } else {
                x
            },
    )
}

/// The runners after an instinctive walk: forced on from first base, then from second,
/// then, when `third`, from third.
pub open spec fn instinct_pushed(s: Seq<Runner>, third: bool) -> Seq<Runner> {
    let s2 = pushed_from(pushed_from(s, 0), 1);
    if third {
        pushed_from(s2, 2)
    } else {
        s2
    }
}

/// Taking the runners from the lead down, each whose id is in `ids` moves one base
/// on when the base ahead of it is free.
pub open spec fn advanced_if(s: Seq<Runner>, ids: Seq<Id>) -> Seq<Runner>
    decreases s.len(),
{
    if s.len() == 0 {
        s
    } else {
        let front = advanced_if(s.drop_last(), ids);
        let r = s.last();
        if ids.contains(r.id) && (front.len() == 0 || front.last().base != r.base + 1) {
            front.push(Runner { id: r.id, base: (r.base + 1) as u8 })
        } else {
            front.push(r)
        }
    }
}

/// The runners on base, keyed by the base they stand on.
#[derive(Clone, Debug)]
pub struct Baserunners {
    runners: Vec<Runner>,
}

impl View for Baserunners {
    type V = Seq<Runner>;

    closed spec fn view(&self) -> Seq<Runner> {
        self.runners@
    }
}

impl Baserunners {
    /// Well-formed: the runners are held from the lead runner down.
    pub open spec fn wf(&self) -> bool {
        lead_first(self@)
    }

    /// No one on base.
    pub fn new() -> (r: Baserunners)
        ensures
            r@ == Seq::<Runner>::empty(),
            r.wf(),
    {
        Baserunners { runners: Vec::new() }
    }

    /// Runners on the same bases.
    pub fn duplicate(&self) -> (r: Baserunners)
        ensures
            r@ == self@,
    {
        let mut out: Vec<Runner> = Vec::new();
        let mut i: usize = 0;
        while i < self.runners.len()
            invariant
                i <= self.runners@.len(),
                out@ == self@.subrange(0, i as int),
            decreases self.runners@.len() - i,
        {
            out.push(self.runners[i]);
            i = i + 1;
        }
        assert(self@.subrange(0, self@.len() as int) =~= self@);
        Baserunners { runners: out }
    }

    /// The runners, from the lead runner down.
    pub fn runners(&self) -> (r: &Vec<Runner>)
        ensures
            r@ == self@,
    {
        &self.runners
    }

    /// Builds the runners from a list that must already run from the lead runner down.
    pub fn from_runners(runners: Vec<Runner>) -> (r: Option<Baserunners>)
        ensures
            r.is_some() == lead_first(runners@),
            r.is_some() ==> r.unwrap()@ == runners@,
    {
        let mut i: usize = 1;
        while i < runners.len()
            invariant
                1 <= i,
                forall|a: int, b: int|
                    0 <= a < b < i && b < runners@.len() ==> (#[trigger] runners@[a]).base
                        > (#[trigger] runners@[b]).base,
            decreases runners@.len() - i,
        {
            if runners[i - 1].base <= runners[i].base {
                return None;
            }
            i = i + 1;
        }
        Some(Baserunners { runners })
    }

    fn filtered(&self, k: Keep) -> (r: Vec<Runner>)
        ensures
            r@ == keep_runners(self@, k),
    {
        let mut out: Vec<Runner> = Vec::new();
        let mut i: usize = 0;
        while i < self.runners.len()
            invariant
                i <= self.runners@.len(),
                out@ == keep_runners(self@.subrange(0, i as int), k),
            decreases self.runners@.len() - i,
        {
            let x = self.runners[i];
            let keep = match k {
                Keep::Above(b) => x.base > b,
                Keep::Below(b) => x.base < b,
                Keep::Except(b) => x.base != b,
            };
            proof {
                reveal(Seq::filter);
                assert(self@.subrange(0, i as int + 1).drop_last() =~= self@.subrange(0, i as int));
                assert(self@.subrange(0, i as int + 1).last() == x);
            }
            if keep {
                out.push(x);
            }
            i = i + 1;
        }
        assert(self@.subrange(0, self@.len() as int) =~= self@);
        out
    }

    /// Whether some runner stands on base `base`.
    pub fn occupied(&self, base: u8) -> (r: bool)
        ensures
            r == occupied_in(self@, base as int),
    {
        let mut i: usize = 0;
        while i < self.runners.len()
            invariant
                i <= self.runners@.len(),
                forall|j: int| 0 <= j < i ==> (#[trigger] self@[j]).base != base,
            decreases self.runners@.len() - i,
        {
            if self.runners[i].base == base {
                return true;
            }
            i = i + 1;
        }
        false
    }

    /// The runner on base `base`, if any.
    pub fn at(&self, base: u8) -> (r: Option<Id>)
        requires
            self.wf(),
        ensures
            r.is_some() == occupied_in(self@, base as int),
            r.is_some() ==> exists|i: int|
                0 <= i < self@.len() && (#[trigger] self@[i]) == (Runner {
                    id: r.unwrap(),
                    base,
                }),
    {
        let mut i: usize = 0;
        while i < self.runners.len()
            invariant
                i <= self.runners@.len(),
                forall|j: int| 0 <= j < i ==> (#[trigger] self@[j]).base != base,
            decreases self.runners@.len() - i,
        {
            if self.runners[i].base == base {
                let r = self.runners[i];
                assert(self@[i as int] == (Runner { id: r.id, base }));
                return Some(r.id);
            }
            i = i + 1;
        }
        None
    }

    /// Whether the base ahead of `base` is free.
    pub fn can_advance(&self, base: u8) -> (r: bool)
        ensures
            r == !occupied_in(self@, base + 1),
    {
        if base == u8::MAX {
            true
        } else {
            !self.occupied(base + 1)
        }
    }

    /// Whether runner `id` is on base.
    pub fn contains(&self, id: Id) -> (r: bool)
        ensures
            r == contains_in(self@, id),
    {
        let mut i: usize = 0;
        while i < self.runners.len()
            invariant
                i <= self.runners@.len(),
                forall|j: int| 0 <= j < i ==> (#[trigger] self@[j]).id != id,
            decreases self.runners@.len() - i,
        {
            if self.runners[i].id == id {
                return true;
            }
            i = i + 1;
        }
        false
    }

    /// Whether no one is on base.
    pub fn empty(&self) -> (r: bool)
        ensures
            r == (self@.len() == 0),
    {
        self.runners.len() == 0
    }

    /// How many runners are on base.
    pub fn len(&self) -> (r: usize)
        ensures
            r == self@.len(),
    {
        self.runners.len()
    }

    /// Takes every runner off.
    pub fn clear(&mut self)
        ensures
            final(self)@ == Seq::<Runner>::empty(),
    {
        self.runners = Vec::new();
    }

    /// Puts runner `id` on base `base`, which must be free.
    pub fn add(&mut self, base: u8, id: Id)
        requires
            old(self).wf(),
            !occupied_in(old(self)@, base as int),
        ensures
            final(self)@ == with_runner(old(self)@, Runner { id, base }),
            final(self).wf(),
            final(self)@.len() == old(self)@.len() + 1,
            forall|k: int| all_below(old(self)@, k) && base < k ==> all_below(final(self)@, k),
            forall|k: int| #![trigger all_below(final(self)@, k)]
                (forall|i: int| 0 <= i < old(self)@.len() ==> (#[trigger] old(self)@[i]).base <= k)
                && base <= k ==> forall|i: int| 0 <= i < final(self)@.len() ==> (#[trigger] final(self)@[i]).base <= k,
    {
        let r = Runner { id, base };
        let mut above = self.filtered(Keep::Above(base));
        let below = self.filtered(Keep::Below(base));
        let ghost a = ahead_of(self@, base as int);
        let ghost c = behind(self@, base as int);
        proof {
            assert((|x: Runner| keeps(Keep::Above(base), x)) =~= (|x: Runner| x.base > base as int));
            assert((|x: Runner| keeps(Keep::Below(base), x)) =~= (|x: Runner| x.base < base as int));
            lemma_filter_sorted(self@, |x: Runner| x.base > base as int);
            lemma_filter_sorted(self@, |x: Runner| x.base < base as int);
            lemma_split_len(self@, base as int);
            assert forall|i: int| 0 <= i < a.len() implies (#[trigger] a[i]).base > base by {
                self@.lemma_filter_pred(|x: Runner| x.base > base as int, i);
            }
            assert forall|i: int| 0 <= i < c.len() implies (#[trigger] c[i]).base < base by {
                self@.lemma_filter_pred(|x: Runner| x.base < base as int, i);
            }
        }
        above.push(r);
        let mut below = below;
        above.append(&mut below);
        self.runners = above;
        proof {
            let s = a.push(r) + c;
            assert(self@ =~= s);
            assert forall|i: int, j: int| 0 <= i < j < s.len() implies (#[trigger] s[i]).base
                > (#[trigger] s[j]).base by {
                if j < a.len() {
                    assert(s[i] == a[i] && s[j] == a[j]);
                } else if j == a.len() {
                    assert(s[i] == a[i]);
                } else if i < a.len() {
                    assert(s[i] == a[i] && s[j] == c[j - a.len() - 1]);
                } else if i == a.len() {
                    assert(s[j] == c[j - a.len() - 1]);
                } else {
                    assert(s[i] == c[i - a.len() - 1] && s[j] == c[j - a.len() - 1]);
                }
            }
            assert forall|i: int| 0 <= i < s.len() implies #[trigger] s[i] == r || old(self)@.contains(s[i]) by {
                if i < a.len() {
                    assert(s[i] == a[i]);
                } else if i > a.len() {
                    assert(s[i] == c[i - a.len() - 1]);
                }
            }
        }
    }

    /// Takes the runner on base `base` off, if there is one.
    pub fn remove(&mut self, base: u8)
        requires
            old(self).wf(),
        ensures
            final(self)@ == without_base(old(self)@, base as int),
            final(self).wf(),
            forall|k: int| all_below(old(self)@, k) ==> #[trigger] all_below(final(self)@, k),
    {
        let out = self.filtered(Keep::Except(base));
        proof {
            assert((|x: Runner| keeps(Keep::Except(base), x)) =~= (|x: Runner| x.base != base as int));
            lemma_filter_sorted(self@, |x: Runner| x.base != base as int);
            assert forall|k: int| all_below(self@, k) implies #[trigger] all_below(out@, k) by {
                assert forall|i: int| 0 <= i < out@.len() implies (#[trigger] out@[i]).base < k by {
                    assert(self@.contains(out@[i]));
                }
            }
        }
        self.runners = out;
    }

    /// Takes off every runner on or past base `bases`, and says how many there were.
    pub fn score(&mut self, bases: u8) -> (r: usize)
        requires
            old(self).wf(),
        ensures
            final(self)@ == on_field(old(self)@, bases as int),
            r == old(self)@.len() - final(self)@.len(),
            final(self).wf(),
            all_below(final(self)@, bases as int),
    {
        let out = self.filtered(Keep::Below(bases));
        proof {
            assert((|x: Runner| keeps(Keep::Below(bases), x)) =~= (|x: Runner| x.base < bases as int));
            lemma_filter_sorted(self@, |x: Runner| x.base < bases as int);
            self@.lemma_filter_len(|x: Runner| x.base < bases as int);
            assert forall|i: int| 0 <= i < out@.len() implies (#[trigger] out@[i]).base < bases by {
                self@.lemma_filter_pred(|x: Runner| x.base < bases as int, i);
            }
        }
        let n = self.runners.len() - out.len();
        self.runners = out;
        n
    }

    /// Moves every runner `n` bases on.
    pub fn advance_all(&mut self, n: u8)
        requires
            old(self).wf(),
            forall|i: int| 0 <= i < old(self)@.len() ==> (#[trigger] old(self)@[i]).base + n <= u8::MAX,
        ensures
            final(self)@ == shifted(old(self)@, n as int),
            final(self).wf(),
    {
        let mut out: Vec<Runner> = Vec::new();
        let mut i: usize = 0;
        while i < self.runners.len()
            invariant
                i <= self.runners@.len(),
                forall|j: int| 0 <= j < self@.len() ==> (#[trigger] self@[j]).base + n <= u8::MAX,
                out@ =~= shifted(self@, n as int).subrange(0, i as int),
            decreases self.runners@.len() - i,
        {
            let x = self.runners[i];
            out.push(Runner { id: x.id, base: x.base + n });
            i = i + 1;
        }
        self.runners = out;
        proof {
            let s = old(self)@;
            assert(self@ =~= shifted(s, n as int));
            assert forall|a: int, b: int| 0 <= a < b < self@.len() implies (#[trigger] self@[a]).base
                > (#[trigger] self@[b]).base by {
                assert(s[a].base > s[b].base);
            }
        }
    }

    /// Moves the runner on base `base` one base on, when the base ahead is free.
    pub fn advance(&mut self, base: u8)
        requires
            old(self).wf(),
            forall|i: int| 0 <= i < old(self)@.len() ==> (#[trigger] old(self)@[i]).base < u8::MAX,
        ensures
            final(self)@ == advanced_one(old(self)@, base as int),
            final(self).wf(),
            final(self)@.len() == old(self)@.len(),
    {
        if self.occupied(base) && !self.occupied(base + 1) {
            proof {
                reveal_with_fuel(first_free, 3);
            }
            self.push_from(base);
        }
    }

    /// Forces the unbroken chain of runners from base `base` up one base on each.
    pub fn push_from(&mut self, base: u8)
        requires
            old(self).wf(),
            forall|i: int| 0 <= i < old(self)@.len() ==> (#[trigger] old(self)@[i]).base < u8::MAX,
        ensures
            final(self)@ == pushed_from(old(self)@, base as int),
            final(self).wf(),
            !occupied_in(final(self)@, base as int),
            final(self)@.len() == old(self)@.len(),
            forall|i: int|
                0 <= i < old(self)@.len() ==> (#[trigger] final(self)@[i]).base <= old(self)@[i].base + 1,
    {
        let ghost s = self@;
        let mut c: u16 = base as u16;
        while c < 256 && self.occupied(c as u8)
            invariant
                base <= c <= 256,
                first_free(s, c as int) == first_free(s, base as int),
                s == self@,
            decreases 256 - c,
        {
            c = c + 1;
        }
        assert(c == first_free(s, base as int)) by {
            reveal_with_fuel(first_free, 2);
        }
        proof {
            lemma_first_free(s, base as int);
        }
        let mut out: Vec<Runner> = Vec::new();
        let mut i: usize = 0;
        while i < self.runners.len()
            invariant
                i <= self.runners@.len(),
                s == self@,
                c == first_free(s, base as int),
                forall|j: int| 0 <= j < s.len() ==> (#[trigger] s[j]).base < u8::MAX,
                out@ =~= pushed_from(s, base as int).subrange(0, i as int),
            decreases self.runners@.len() - i,
        {
            let x = self.runners[i];
            if base as u16 <= x.base as u16 && (x.base as u16) < c {
                out.push(Runner { id: x.id, base: x.base + 1 });
            } else {
                out.push(x);
            }
            i = i + 1;
        }
        self.runners = out;
        proof {
            let t = pushed_from(s, base as int);
            assert(self@ =~= t);
            assert forall|a: int, b: int| 0 <= a < b < t.len() implies (#[trigger] t[a]).base
                > (#[trigger] t[b]).base by {
                assert(s[a].base > s[b].base);
                if base <= s[b].base < c && !(base <= s[a].base < c) {
                    assert(s[a].base != c);
                }
            }
            assert forall|i: int| 0 <= i < t.len() implies (#[trigger] t[i]).base != base by {
                if s[i].base == base {
                    assert(occupied_in(s, base as int));
                }
            }
        }
    }

    /// A walk: the chain of runners from first base up is forced on.
    pub fn walk(&mut self)
        requires
            old(self).wf(),
            forall|i: int| 0 <= i < old(self)@.len() ==> (#[trigger] old(self)@[i]).base < u8::MAX,
        ensures
            final(self)@ == pushed_from(old(self)@, 0),
            final(self).wf(),
            !occupied_in(final(self)@, 0),
    {
        self.push_from(0)
    }

    /// An instinctive walk to second base, or to third when `third`: the runners
    /// are forced on until first and second (and third) base are free.
    pub fn walk_instincts(&mut self, third: bool)
        requires
            old(self).wf(),
            forall|i: int| 0 <= i < old(self)@.len() ==> (#[trigger] old(self)@[i]).base < 250,
        ensures
            final(self)@ == instinct_pushed(old(self)@, third),
            final(self).wf(),
            !occupied_in(final(self)@, if third { 2 } else { 1 }),
            final(self)@.len() == old(self)@.len(),
            forall|i: int| 0 <= i < old(self)@.len() ==> (#[trigger] final(self)@[i]).base < 253,
    {
        self.push_from(0);
        self.push_from(1);
        if third {
            self.push_from(2);
        }
    }

    /// Moves each runner whose id is in `ids` one base on, from the lead runner down,
    /// when the base ahead of it is free.
    pub fn advance_if(&mut self, ids: &Vec<Id>)
        requires
            old(self).wf(),
            forall|i: int| 0 <= i < old(self)@.len() ==> (#[trigger] old(self)@[i]).base < u8::MAX,
        ensures
            final(self)@ == advanced_if(old(self)@, ids@),
            final(self).wf(),
    {
        let ghost s = self@;
        let mut out: Vec<Runner> = Vec::new();
        let mut i: usize = 0;
        while i < self.runners.len()
            invariant
                i <= self.runners@.len(),
                s == self@,
                lead_first(s),
                forall|j: int| 0 <= j < s.len() ==> (#[trigger] s[j]).base < u8::MAX,
                out@ == advanced_if(s.subrange(0, i as int), ids@),
                out@.len() == i,
                lead_first(out@),
                forall|j: int|
                    0 <= j < i ==> (#[trigger] out@[j]).base == s[j].base || out@[j].base
                        == s[j].base + 1,
            decreases self.runners@.len() - i,
        {
            let x = self.runners[i];
            let listed = listed_in(ids, x.id);
            proof {
                assert(s.subrange(0, i as int + 1).drop_last() =~= s.subrange(0, i as int));
                assert(s.subrange(0, i as int + 1).last() == x);
            }
            let free = i == 0 || out[i - 1].base != x.base + 1;
            if listed && free {
                out.push(Runner { id: x.id, base: x.base + 1 });
            } else {
                out.push(x);
            }
            proof {
                if i > 0 {
                    assert(s[i - 1].base > s[i as int].base);
                }
            }
            i = i + 1;
        }
        assert(s.subrange(0, s.len() as int) =~= s);
        self.runners = out;
    }
}

fn listed_in(ids: &Vec<Id>, id: Id) -> (r: bool)
    ensures
        r == ids@.contains(id),
{
    let mut k: usize = 0;
    while k < ids.len()
        invariant
            k <= ids@.len(),
            forall|j: int| 0 <= j < k ==> ids@[j] != id,
        decreases ids@.len() - k,
    {
        if ids[k] == id {
            assert(ids@[k as int] == id);
            return true;
        }
        k = k + 1;
    }
    false
}

proof fn lemma_filter_sorted(s: Seq<Runner>, p: spec_fn(Runner) -> bool)
    requires
        lead_first(s),
    ensures
        lead_first(s.filter(p)),
        forall|i: int| 0 <= i < s.filter(p).len() ==> s.contains(#[trigger] s.filter(p)[i]),
    decreases s.len(),
{
    reveal(Seq::filter);
    if s.len() > 0 {
        let t = s.drop_last();
        assert forall|i: int, j: int| 0 <= i < j < t.len() implies (#[trigger] t[i]).base
            > (#[trigger] t[j]).base by {
            assert(t[i] == s[i] && t[j] == s[j]);
        }
        lemma_filter_sorted(t, p);
        let f = t.filter(p);
        assert forall|i: int| 0 <= i < f.len() implies (#[trigger] f[i]).base > s.last().base by {
            assert(t.contains(f[i]));
            let k = choose|k: int| 0 <= k < t.len() && t[k] == f[i];
            assert(s[k] == t[k]);
        }
        assert forall|i: int| 0 <= i < s.filter(p).len() implies s.contains(
            #[trigger] s.filter(p)[i],
        ) by {
            if i < f.len() {
                assert(t.contains(f[i]));
                let k = choose|k: int| 0 <= k < t.len() && t[k] == f[i];
                assert(s[k] == t[k]);
            } else {
                assert(s[s.len() - 1] == s.last());
            }
        }
    }
}

/// Runners held from the lead down on bases below `n` are at most `n` in number.
pub proof fn lemma_lead_first_len(s: Seq<Runner>, n: int)
    requires
        lead_first(s),
        all_below(s, n),
    ensures
        s.len() <= if n < 0 { 0 } else { n },
    decreases s.len(),
{
    if s.len() > 0 {
        let t = s.subrange(1, s.len() as int);
        assert forall|i: int, j: int| 0 <= i < j < t.len() implies (#[trigger] t[i]).base
            > (#[trigger] t[j]).base by {
            assert(t[i] == s[i + 1] && t[j] == s[j + 1]);
        }
        let m = s[0].base as int;
        assert forall|i: int| 0 <= i < t.len() implies (#[trigger] t[i]).base < m by {
            assert(t[i] == s[i + 1]);
        }
        lemma_lead_first_len(t, m);
    }
}

proof fn lemma_split_len(s: Seq<Runner>, b: int)
    requires
        !occupied_in(s, b),
    ensures
        ahead_of(s, b).len() + behind(s, b).len() == s.len(),
    decreases s.len(),
{
    reveal(Seq::filter);
    if s.len() > 0 {
        let t = s.drop_last();
        assert forall|i: int| 0 <= i < t.len() implies (#[trigger] t[i]).base != b by {
            assert(t[i] == s[i]);
        }
        lemma_split_len(t, b);
        assert(s.last() == s[s.len() - 1]);
    }
}

/// Moving the runner on base `b` into a free base ahead keeps every runner below
/// `n` when `b + 1 < n`.
pub proof fn lemma_advanced_one_below(s: Seq<Runner>, b: int, n: int)
    requires
        all_below(s, n),
        0 <= b,
        b + 1 < n,
    ensures
        all_below(advanced_one(s, b), n),
{
    if occupied_in(s, b) && !occupied_in(s, b + 1) {
        reveal_with_fuel(first_free, 3);
        assert(first_free(s, b) == b + 1);
        let t = pushed_from(s, b);
        assert forall|i: int| 0 <= i < t.len() implies (#[trigger] t[i]).base < n by {
            assert(s[i].base < n);
        }
    }
}

proof fn lemma_first_free(s: Seq<Runner>, b: int)
    requires
        0 <= b <= 256,
    ensures
        b <= first_free(s, b) <= 256,
        first_free(s, b) < 256 ==> !occupied_in(s, first_free(s, b)),
        forall|x: int| b <= x < first_free(s, b) ==> occupied_in(s, x),
    decreases 256 - b,
{
    if b < 256 && occupied_in(s, b) {
        lemma_first_free(s, b + 1);
    }
}

} // verus!
