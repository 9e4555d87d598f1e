use vstd::prelude::*;

use crate::entities::WorldView;
use crate::events::{count_effect, ends_pa, fits, kind_of, pa_effect, replayed, roster_effect, step, tag_of, Event};
use crate::game::{room, GameView};

verus! {

/// Every applied event adds exactly one entry to the event log, and that entry is
/// the event's tag.
pub proof fn lemma_log_grows_by_tag(g: GameView, w: WorldView, e: &Event)
    ensures
        step(g, w, e).0.events == g.events.push(tag_of(e)),
        step(g, w, e).0.events.len() == g.events.len() + 1,
{
    let g0 = GameView { events: g.events.push(tag_of(e)), ..g };
    if kind_of(e) == 0 {
        lemma_pa_keeps_log(g0, w, e);
    } else if kind_of(e) == 1 {
        lemma_count_keeps_log(g0, w, e);
    } else {
        lemma_roster_keeps_log(g0, w, e);
    }
}

proof fn lemma_pa_keeps_log(g: GameView, w: WorldView, e: &Event)
    ensures
        pa_effect(g, w, e).0.events == g.events,
{
}

#[verifier::rlimit(50)]
proof fn lemma_count_keeps_log(g: GameView, w: WorldView, e: &Event)
    ensures
        count_effect(g, w, e).0.events == g.events,
{
}

#[verifier::rlimit(50)]
proof fn lemma_roster_keeps_log(g: GameView, w: WorldView, e: &Event)
    ensures
        roster_effect(g, w, e).0.events == g.events,
{
}

/// After an event that ends a plate appearance, balls and strikes are back to zero.
pub proof fn lemma_plate_appearance_resets_count(g: GameView, w: WorldView, e: &Event)
    requires
        ends_pa(e),
    ensures
        step(g, w, e).0.balls == 0,
        step(g, w, e).0.strikes == 0,
{
}

/// A strikeout adds exactly one out.
pub proof fn lemma_strikeout_adds_one_out(g: GameView, w: WorldView, e: &Event)
    requires
        e is Strikeout,
        room(g),
    ensures
        step(g, w, e).0.outs == g.outs + 1,
{
}

/// A double play adds exactly two outs.
pub proof fn lemma_double_play_adds_two_outs(g: GameView, w: WorldView, e: &Event)
    requires
        e is DoublePlay,
        room(g),
    ensures
        step(g, w, e).0.outs == g.outs + 2,
{
}

/// Replaying the same events from the same match and roster gives the same match
/// and roster.
pub proof fn lemma_replay_deterministic(
    g1: GameView,
    w1: WorldView,
    g2: GameView,
    w2: WorldView,
    es: Seq<Event>,
)
    requires
        g1 == g2,
        w1 == w2,
    ensures
        replayed(g1, w1, es) == replayed(g2, w2, es),
{
}

/// Applying a fitting event to a ready state is the same as replaying it alone.
pub proof fn lemma_replay_one(g: GameView, w: WorldView, e: Event)
    requires
        crate::events::ready(g, w),
        fits(g, w, &e),
    ensures
        replayed(g, w, seq![e]) == Some(step(g, w, &e)),
{
    assert(seq![e].drop_last() =~= Seq::<Event>::empty());
    assert(seq![e].last() == e);
    reveal_with_fuel(replayed, 2);
}

} // verus!
