use vstd::prelude::*;

verus! {

/// The tag that marks the start of a half-inning in an event log.
pub open spec fn boundary_tag() -> Seq<char> {
    "InningSwitch"@
}

/// Scans `log` from its end for `s`; a tag that is not `s` but marks a half-inning
/// uses up one of the `limit` boundaries that may be crossed (`limit == -1`: no
/// bound). `crossed` counts those already crossed.
pub open spec fn scan_has(log: Seq<Seq<char>>, s: Seq<char>, limit: int, crossed: int) -> bool
    decreases log.len(),
{
    if log.len() == 0 {
        false
    } else if log.last() == s {
        true
    } else if limit != -1 && log.last() == boundary_tag() {
        if crossed < limit {
            scan_has(log.drop_last(), s, limit, crossed + 1)
        } else {
            false
        }
    } else {
        scan_has(log.drop_last(), s, limit, crossed)
    }
}

/// The number of tags equal to `s` met by the same backward scan as `scan_has`.
pub open spec fn scan_count(log: Seq<Seq<char>>, s: Seq<char>, limit: int, crossed: int) -> nat
    decreases log.len(),
{
    if log.len() == 0 {
        0
    } else if log.last() == s {
        1 + scan_count(log.drop_last(), s, limit, crossed)
    } else if limit != -1 && log.last() == boundary_tag() {
        if crossed < limit {
            scan_count(log.drop_last(), s, limit, crossed + 1)
        } else {
            0
        }
    } else {
        scan_count(log.drop_last(), s, limit, crossed)
    }
}

/// How many entries of `strs` equal `t`.
pub open spec fn occurrences(strs: Seq<Seq<char>>, t: Seq<char>) -> nat
    decreases strs.len(),
{
    if strs.len() == 0 {
        0
    } else {
        occurrences(strs.drop_last(), t) + if strs.last() == t {
            1nat
        } else {
            0nat
        }
    }
}

/// The backward scan over several tags: a boundary tag stops or is crossed first
/// (when bounded); any other tag adds how many entries of `strs` it equals.
pub open spec fn scan_streak(
    log: Seq<Seq<char>>,
    strs: Seq<Seq<char>>,
    limit: int,
    crossed: int,
) -> nat
    decreases log.len(),
{
    if log.len() == 0 {
        0
    } else if log.last() == boundary_tag() && limit != -1 {
        if crossed < limit {
            scan_streak(log.drop_last(), strs, limit, crossed + 1)
        } else {
            0
        }
    } else {
        occurrences(strs, log.last()) + scan_streak(log.drop_last(), strs, limit, crossed)
    }
}

/// An append-only history of event tags, newest last.
#[derive(Clone, Debug)]
pub struct Events {
    events: Vec<String>,
}

impl View for Events {
    type V = Seq<Seq<char>>;

    closed spec fn view(&self) -> Seq<Seq<char>> {
        self.events@.map_values(|s: String| s@)
    }
}

impl Events {
    /// An empty history.
    pub fn new() -> (r: Events)
        ensures
            r@ == Seq::<Seq<char>>::empty(),
    {
        let r = Events { events: Vec::new() };
        assert(r@ =~= Seq::<Seq<char>>::empty());
        r
    }

    /// A history holding the same tags.
    pub fn duplicate(&self) -> (r: Events)
        ensures
            r@ == self@,
    {
        let mut out: Vec<String> = Vec::new();
        let mut i: usize = 0;
        while i < self.events.len()
            invariant
                i <= self.events@.len(),
                out@.len() == i,
                forall|j: int| 0 <= j < i ==> (#[trigger] out@[j])@ == self.events@[j]@,
            decreases self.events@.len() - i,
        {
            let c = self.events[i].clone();
            out.push(c);
            i = i + 1;
        }
        let r = Events { events: out };
        assert(r@ =~= self@);
        r
    }

    /// Appends one tag.
    pub fn add(&mut self, repr: String)
        ensures
            final(self)@ == old(self)@.push(repr@),
    {
        self.events.push(repr);
        assert(self@ =~= old(self)@.push(repr@));
    }

    /// The number of tags held.
    pub fn len(&self) -> (r: usize)
        ensures
            r == self@.len(),
    {
        self.events.len()
    }

    /// The newest tag.
    pub fn last(&self) -> (r: &String)
        requires
            self@.len() > 0,
        ensures
            r@ == self@.last(),
    {
        let n = self.events.len();
        &self.events[n - 1]
    }

    /// Whether `s` occurs before more than `limit` half-inning boundaries have been
    /// crossed, scanning from the newest tag (`limit == -1`: the whole history).
    pub fn has(&self, s: String, limit: i16) -> (r: bool)
        ensures
            r == scan_has(self@, s@, limit as int, 0),
    {
        let boundary = "InningSwitch".to_owned();
        let mut half_innings: i16 = 0;
        let mut i: usize = self.events.len();
        assert(self@.subrange(0, i as int) =~= self@);
        while i > 0
            invariant
                i <= self@.len(),
                self@.len() == self.events@.len(),
                boundary@ == boundary_tag(),
                0 <= half_innings <= if limit < 0 { 0 } else { limit as int },
                scan_has(self@, s@, limit as int, 0) == scan_has(
                    self@.subrange(0, i as int),
                    s@,
                    limit as int,
                    half_innings as int,
                ),
            decreases i,
        {
            let ev = &self.events[i - 1];
            proof {
                assert(self@.subrange(0, i as int).drop_last() =~= self@.subrange(0, i - 1));
                assert(self@.subrange(0, i as int).last() == ev@);
            }
            if *ev == s {
                return true;
            } else if limit != -1 && *ev == boundary {
                if half_innings < limit {
                    half_innings += 1;
                } else {
                    return false;
                }
            }
            i = i - 1;
        }
        false
    }

    /// How many times `s` occurs in the window that `has` scans, counted up to
    /// `u8::MAX`.
    pub fn count(&self, s: String, limit: i16) -> (r: u8)
        ensures
            r == capped(scan_count(self@, s@, limit as int, 0)),
    {
        let boundary = "InningSwitch".to_owned();
        let mut half_innings: i16 = 0;
        let mut counter: u8 = 0;
        let mut i: usize = self.events.len();
        assert(self@.subrange(0, i as int) =~= self@);
        while i > 0
            invariant
                i <= self@.len(),
                self@.len() == self.events@.len(),
                boundary@ == boundary_tag(),
                0 <= half_innings <= if limit < 0 { 0 } else { limit as int },
                capped(scan_count(self@, s@, limit as int, 0)) == capped((counter + scan_count(
                    self@.subrange(0, i as int),
                    s@,
                    limit as int,
                    half_innings as int,
                )) as nat),
            decreases i,
        {
            let ev = &self.events[i - 1];
            proof {
                assert(self@.subrange(0, i as int).drop_last() =~= self@.subrange(0, i - 1));
                assert(self@.subrange(0, i as int).last() == ev@);
            }
            if *ev == s {
                if counter < u8::MAX {
                    counter += 1;
                }
            } else if *ev == boundary && limit != -1 {
                if half_innings < limit {
                    half_innings += 1;
                } else {
                    return counter;
                }
            }
            i = i - 1;
        }
        counter
    }

    /// How many tags in the scanned window match an entry of `strvec`, a tag that
    /// equals several entries counting once for each; with a bound, half-inning
    /// boundaries are never counted.
    pub fn streak_multiple(&self, strvec: Vec<String>, limit: i16) -> (r: u8)
        ensures
            r == capped(scan_streak(self@, strvec@.map_values(|s: String| s@), limit as int, 0)),
    {
        let ghost strs = strvec@.map_values(|s: String| s@);
        let boundary = "InningSwitch".to_owned();
        let mut half_innings: i16 = 0;
        let mut counter: u8 = 0;
        let mut i: usize = self.events.len();
        assert(self@.subrange(0, i as int) =~= self@);
        while i > 0
            invariant
                i <= self@.len(),
                self@.len() == self.events@.len(),
                strs == strvec@.map_values(|s: String| s@),
                boundary@ == boundary_tag(),
                0 <= half_innings <= if limit < 0 { 0 } else { limit as int },
                capped(scan_streak(self@, strs, limit as int, 0)) == capped((counter + scan_streak(
                    self@.subrange(0, i as int),
                    strs,
                    limit as int,
                    half_innings as int,
                )) as nat),
            decreases i,
        {
            let ev = &self.events[i - 1];
            proof {
                assert(self@.subrange(0, i as int).drop_last() =~= self@.subrange(0, i - 1));
                assert(self@.subrange(0, i as int).last() == ev@);
            }
            if *ev == boundary && limit != -1 {
                if half_innings < limit {
                    half_innings += 1;
                } else {
                    return counter;
                }
            } else {
                let ghost before = counter;
                let mut j: usize = 0;
                while j < strvec.len()
                    invariant
                        j <= strvec@.len(),
                        strs == strvec@.map_values(|s: String| s@),
                        counter == capped((before + occurrences(strs.subrange(0, j as int), ev@)) as nat),
                    decreases strvec@.len() - j,
                {
                    proof {
                        assert(strs.subrange(0, j + 1).drop_last() =~= strs.subrange(0, j as int));
                    }
                    if *ev == strvec[j] {
                        if counter < u8::MAX {
                            counter += 1;
                        }
                    }
                    j = j + 1;
                }
                assert(strs.subrange(0, strs.len() as int) =~= strs);
            }
            i = i - 1;
        }
        counter
    }
}

/// `n`, or `u8::MAX` when it is larger.
pub open spec fn capped(n: nat) -> u8 {
    if n > u8::MAX {
        u8::MAX
    } else {
        n as u8
    }
}

} // verus!
