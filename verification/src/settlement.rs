//! The overlay over time: actions are recorded, and each is confirmed,
//! rejected or timed out, in whatever order the news arrive. Once every
//! recorded action has its verdict, no action waits any more, and the
//! settled state is the one that the confirmed actions give when they are
//! run in the order in which they were recorded, provided that no
//! confirmation overtakes the confirmation of an action that it depends on:
//! an earlier action of the same identity, or a clean-up.

use crate::laws::{independent, law_independent_actions_commute};
use crate::model::{state_after, step, StateView};
use crate::overlay::{first_entry, is_entry, replay, without, EntryView};
use vstd::prelude::*;

verus! {

/// One piece of news from the ordering service.
pub enum Event {
    /// An action was accepted for ordering.
    Recorded(EntryView),
    /// The action of the given transaction at the given place succeeded.
    Confirmed(Seq<u8>, usize),
    /// The action of the given transaction at the given place failed.
    Rejected(Seq<u8>, usize),
    /// The action of the given transaction at the given place timed out.
    TimedOut(Seq<u8>, usize),
}

/// The settled state and the log of the actions that wait.
pub struct OverlayView {
    pub confirmed: StateView,
    pub pending: Seq<EntryView>,
}

/// What one piece of news makes of the overlay: what `record_pending`,
/// `on_confirmed`, `on_rejected` and `on_timed_out` do to the log and to the
/// settled state.
pub open spec fn after_event(o: OverlayView, event: Event) -> OverlayView {
    match event {
        Event::Recorded(entry) => OverlayView { pending: o.pending.push(entry), ..o },
        Event::Confirmed(tx_hash, index) => OverlayView {
            confirmed: match first_entry(o.pending, tx_hash, index, 0) {
                Some(at) => state_after(o.confirmed, step(o.confirmed, o.pending[at].calldata)),
                None => o.confirmed,
            },
            pending: without(o.pending, tx_hash, index),
        },
        Event::Rejected(tx_hash, index) => OverlayView {
            pending: without(o.pending, tx_hash, index),
            ..o
        },
        Event::TimedOut(tx_hash, index) => OverlayView {
            pending: without(o.pending, tx_hash, index),
            ..o
        },
    }
}

/// What a run of news makes of the overlay.
pub open spec fn after_events(o: OverlayView, events: Seq<Event>) -> OverlayView
    decreases events.len(),
{
    if events.len() == 0 {
        o
    } else {
        after_events(after_event(o, events.first()), events.drop_first())
    }
}

/// The action that `event` confirms in the log `pending`: the first waiting
/// action of the transaction and the place that a confirmation names.
pub open spec fn confirmed_by(pending: Seq<EntryView>, event: Event) -> Option<EntryView> {
    match event {
        Event::Confirmed(tx_hash, index) => match first_entry(pending, tx_hash, index, 0) {
            Some(at) => Some(pending[at]),
            None => None,
        },
        _ => None,
    }
}

/// The actions that `events` confirm on the overlay `o`, in the order in
/// which the confirmations arrive.
pub open spec fn confirmations(o: OverlayView, events: Seq<Event>) -> Seq<EntryView>
    decreases events.len(),
{
    if events.len() == 0 {
        Seq::empty()
    } else {
        let rest = confirmations(after_event(o, events.first()), events.drop_first());
        match confirmed_by(o.pending, events.first()) {
            Some(entry) => seq![entry] + rest,
            None => rest,
        }
    }
}

/// Only confirmations move the settled state, and they move it in the order
/// in which they arrive: after any run of news, the settled state is the one
/// that the confirmed actions give when they are run on the first state in
/// the order of their confirmations.
pub proof fn law_settled_state_follows_confirmations(o: OverlayView, events: Seq<Event>)
    ensures
        after_events(o, events).confirmed == replay(o.confirmed, confirmations(o, events)),
    decreases events.len(),
{
    if events.len() > 0 {
        let next = after_event(o, events.first());
        let rest = confirmations(next, events.drop_first());
        law_settled_state_follows_confirmations(next, events.drop_first());
        match confirmed_by(o.pending, events.first()) {
            Some(entry) => {
                let all = seq![entry] + rest;
                assert(all.first() == entry);
                assert(all.drop_first() =~= rest);
            },
            None => {},
        }
    }
}

/// A recorded action and the verdict that it will get.
pub struct Planned {
    pub entry: EntryView,
    pub confirm: bool,
}

/// The actions of `plan`.
pub open spec fn entries_of(plan: Seq<Planned>) -> Seq<EntryView> {
    Seq::new(plan.len(), |i: int| plan[i].entry)
}

/// The actions of `plan` that will be confirmed, in the order of the plan.
pub open spec fn confirmed_of(plan: Seq<Planned>) -> Seq<EntryView>
    decreases plan.len(),
{
    if plan.len() == 0 {
        Seq::empty()
    } else if plan.first().confirm {
        seq![plan.first().entry] + confirmed_of(plan.drop_first())
    } else {
        confirmed_of(plan.drop_first())
    }
}

/// No two actions of `plan` are the same action: they differ in their
/// transaction or in their place in it.
pub open spec fn ids_distinct(plan: Seq<Planned>) -> bool {
    forall|i: int, j: int|
        0 <= i < j < plan.len() ==> !is_entry(
            (#[trigger] plan[i]).entry,
            (#[trigger] plan[j]).entry.tx_hash,
            plan[j].entry.index,
        )
}

/// The confirmation of the action at place `at` of `plan` may come now:
/// every action before it that is to be confirmed is independent of it.
pub open spec fn may_overtake(plan: Seq<Planned>, at: int) -> bool {
    forall|j: int|
        0 <= j < at && (#[trigger] plan[j]).confirm ==> independent(
            plan[j].entry.calldata,
            plan[at].entry.calldata,
        )
}

/// The verdict `confirm` for the action of `tx_hash` at `index` is the one
/// planned for the waiting action at place `at`; and, where it confirms, it
/// overtakes only confirmations of actions that are independent of this one.
pub open spec fn resolves(
    waiting: Seq<Planned>,
    at: int,
    tx_hash: Seq<u8>,
    index: usize,
    confirm: bool,
) -> bool {
    &&& 0 <= at < waiting.len()
    &&& is_entry(waiting[at].entry, tx_hash, index)
    &&& waiting[at].confirm == confirm
    &&& confirm ==> may_overtake(waiting, at)
}

/// `events` records the actions of `coming` in their order and gives every
/// action of `waiting` and of `coming` its planned verdict, once, after it
/// was recorded. The verdicts arrive in any order, but for this: the
/// confirmation of an action does not come before the confirmation of an
/// action that was recorded earlier and that it depends on.
pub open spec fn settles(events: Seq<Event>, waiting: Seq<Planned>, coming: Seq<Planned>) -> bool
    decreases events.len(),
{
    if events.len() == 0 {
        waiting.len() == 0 && coming.len() == 0
    } else {
        let rest = events.drop_first();
        match events.first() {
            Event::Recorded(entry) => coming.len() > 0 && coming.first().entry == entry && settles(
                rest,
                waiting.push(coming.first()),
                coming.drop_first(),
            ),
            Event::Confirmed(tx_hash, index) => exists|at: int| #[trigger]
                resolves(waiting, at, tx_hash, index, true) && settles(
                    rest,
                    waiting.remove(at),
                    coming,
                ),
            Event::Rejected(tx_hash, index) => exists|at: int| #[trigger]
                resolves(waiting, at, tx_hash, index, false) && settles(
                    rest,
                    waiting.remove(at),
                    coming,
                ),
            Event::TimedOut(tx_hash, index) => exists|at: int| #[trigger]
                resolves(waiting, at, tx_hash, index, false) && settles(
                    rest,
                    waiting.remove(at),
                    coming,
                ),
        }
    }
}

/// Among actions that are all different, the first one that belongs to a
/// transaction and a place is the only one.
proof fn lemma_first_entry_is_the_one(plan: Seq<Planned>, at: int, from: int)
    requires
        ids_distinct(plan),
        0 <= from <= at < plan.len(),
    ensures
        first_entry(entries_of(plan), plan[at].entry.tx_hash, plan[at].entry.index, from) == Some(
            at,
        ),
    decreases at - from,
{
    if from < at {
        assert(!is_entry(plan[from].entry, plan[at].entry.tx_hash, plan[at].entry.index));
        lemma_first_entry_is_the_one(plan, at, from + 1);
    }
}

/// A log that does not hold an action loses nothing when that action is
/// taken out.
proof fn lemma_without_absent(log: Seq<EntryView>, tx_hash: Seq<u8>, index: usize)
    requires
        forall|i: int| 0 <= i < log.len() ==> !is_entry(#[trigger] log[i], tx_hash, index),
    ensures
        without(log, tx_hash, index) == log,
    decreases log.len(),
{
    if log.len() > 0 {
        assert(!is_entry(log[0], tx_hash, index));
        assert forall|i: int| 0 <= i < log.drop_first().len() implies !is_entry(
            #[trigger] log.drop_first()[i],
            tx_hash,
            index,
        ) by {
            assert(log.drop_first()[i] == log[i + 1]);
        }
        lemma_without_absent(log.drop_first(), tx_hash, index);
        assert(seq![log.first()] + log.drop_first() =~= log);
    }
}

/// Among actions that are all different, taking one out of the log takes
/// out that one and no other.
proof fn lemma_without_is_remove(plan: Seq<Planned>, at: int)
    requires
        ids_distinct(plan),
        0 <= at < plan.len(),
    ensures
        without(entries_of(plan), plan[at].entry.tx_hash, plan[at].entry.index) == entries_of(
            plan.remove(at),
        ),
    decreases plan.len(),
{
    let log = entries_of(plan);
    let tx_hash = plan[at].entry.tx_hash;
    let index = plan[at].entry.index;
    let rest = plan.drop_first();
    assert(log.drop_first() =~= entries_of(rest));
    assert(log.first() == plan[0].entry);
    if at == 0 {
        assert forall|i: int| 0 <= i < entries_of(rest).len() implies !is_entry(
            #[trigger] entries_of(rest)[i],
            tx_hash,
            index,
        ) by {
            assert(entries_of(rest)[i] == plan[i + 1].entry);
            assert(!is_entry(plan[0].entry, plan[i + 1].entry.tx_hash, plan[i + 1].entry.index));
        }
        lemma_without_absent(entries_of(rest), tx_hash, index);
        assert(plan.remove(0) =~= rest);
    } else {
        assert(!is_entry(plan[0].entry, tx_hash, index));
        assert(ids_distinct(rest)) by {
            assert forall|i: int, j: int| 0 <= i < j < rest.len() implies !is_entry(
                (#[trigger] rest[i]).entry,
                (#[trigger] rest[j]).entry.tx_hash,
                rest[j].entry.index,
            ) by {
                assert(rest[i] == plan[i + 1] && rest[j] == plan[j + 1]);
            }
        }
        assert(rest[at - 1] == plan[at]);
        lemma_without_is_remove(rest, at - 1);
        assert(seq![log.first()] + entries_of(rest.remove(at - 1)) =~= entries_of(
            plan.remove(at),
        ));
    }
}

/// Taking an action that will not be confirmed out of a plan leaves the
/// confirmed actions as they were.
proof fn lemma_unconfirmed_leaves(plan: Seq<Planned>, at: int)
    requires
        0 <= at < plan.len(),
        !plan[at].confirm,
    ensures
        confirmed_of(plan) == confirmed_of(plan.remove(at)),
    decreases plan.len(),
{
    let rest = plan.drop_first();
    if at == 0 {
        assert(plan.remove(0) =~= rest);
    } else {
        assert(rest[at - 1] == plan[at]);
        lemma_unconfirmed_leaves(rest, at - 1);
        let shorter = plan.remove(at);
        assert(shorter.first() == plan.first());
        assert(shorter.drop_first() =~= rest.remove(at - 1));
    }
}

/// An action whose confirmation overtakes only independent ones can as well
/// be run first: the confirmed actions of the plan give the same state as
/// that action followed by the other confirmed actions.
proof fn lemma_confirmed_overtakes(s: StateView, plan: Seq<Planned>, at: int)
    requires
        0 <= at < plan.len(),
        plan[at].confirm,
        may_overtake(plan, at),
    ensures
        replay(s, confirmed_of(plan)) == replay(
            state_after(s, step(s, plan[at].entry.calldata)),
            confirmed_of(plan.remove(at)),
        ),
    decreases plan.len(),
{
    let rest = plan.drop_first();
    let entry = plan[at].entry;
    let after_entry = state_after(s, step(s, entry.calldata));
    if at == 0 {
        assert(plan.remove(0) =~= rest);
        let all = seq![entry] + confirmed_of(rest);
        assert(all.first() == entry);
        assert(all.drop_first() =~= confirmed_of(rest));
    } else {
        let shorter = plan.remove(at);
        assert(rest[at - 1] == plan[at]);
        assert(shorter.first() == plan.first());
        assert(shorter.drop_first() =~= rest.remove(at - 1));
        assert(may_overtake(rest, at - 1)) by {
            assert forall|j: int| 0 <= j < at - 1 && (#[trigger] rest[j]).confirm implies independent(
                rest[j].entry.calldata,
                rest[at - 1].entry.calldata,
            ) by {
                assert(rest[j] == plan[j + 1]);
            }
        }
        if plan.first().confirm {
            let first = plan.first().entry;
            let after_first = state_after(s, step(s, first.calldata));
            assert(independent(first.calldata, entry.calldata)) by {
                assert(plan[0].confirm);
            }
            let all = seq![first] + confirmed_of(rest);
            assert(all.first() == first);
            assert(all.drop_first() =~= confirmed_of(rest));
            lemma_confirmed_overtakes(after_first, rest, at - 1);
            law_independent_actions_commute(s, first.calldata, entry.calldata);
            let others = seq![first] + confirmed_of(rest.remove(at - 1));
            assert(others.first() == first);
            assert(others.drop_first() =~= confirmed_of(rest.remove(at - 1)));
        } else {
            lemma_confirmed_overtakes(s, rest, at - 1);
        }
    }
}

/// Taking an action out of a plan of different actions leaves a plan of
/// different actions.
proof fn lemma_distinct_remove(plan: Seq<Planned>, at: int)
    requires
        ids_distinct(plan),
        0 <= at < plan.len(),
    ensures
        ids_distinct(plan.remove(at)),
{
    let shorter = plan.remove(at);
    assert forall|i: int, j: int| 0 <= i < j < shorter.len() implies !is_entry(
        (#[trigger] shorter[i]).entry,
        (#[trigger] shorter[j]).entry.tx_hash,
        shorter[j].entry.index,
    ) by {
        let a = if i < at {
            i
        } else {
            i + 1
        };
        let b = if j < at {
            j
        } else {
            j + 1
        };
        assert(shorter[i] == plan[a] && shorter[j] == plan[b]);
    }
}

/// Convergence, from any point of a run. `waiting` are the actions in the
/// log with their planned verdicts, `coming` those that will be recorded.
/// If the news `events` settle them all, and no action occurs twice, then
/// after the news no action waits, and the settled state is the one that the
/// confirmed actions give on top of `confirmed`, in the order of their
/// recording.
pub proof fn law_overlay_settles(
    confirmed: StateView,
    events: Seq<Event>,
    waiting: Seq<Planned>,
    coming: Seq<Planned>,
)
    requires
        ids_distinct(waiting + coming),
        settles(events, waiting, coming),
    ensures
        after_events(OverlayView { confirmed, pending: entries_of(waiting) }, events) == (
        OverlayView {
            confirmed: replay(confirmed, confirmed_of(waiting + coming)),
            pending: Seq::empty(),
        }),
    decreases events.len(),
{
    let plan = waiting + coming;
    if events.len() == 0 {
        assert(plan =~= Seq::<Planned>::empty());
        assert(entries_of(waiting) =~= Seq::<EntryView>::empty());
    } else {
        let rest = events.drop_first();
        match events.first() {
            Event::Recorded(entry) => {
                let longer = waiting.push(coming.first());
                assert(longer + coming.drop_first() =~= plan);
                assert(entries_of(longer) =~= entries_of(waiting).push(entry));
                law_overlay_settles(confirmed, rest, longer, coming.drop_first());
            },
            Event::Confirmed(tx_hash, index) => {
                let at = choose|at: int| #[trigger]
                    resolves(waiting, at, tx_hash, index, true) && settles(
                        rest,
                        waiting.remove(at),
                        coming,
                    );
                lemma_settle_one(waiting, coming, at);
                let next = state_after(confirmed, step(confirmed, waiting[at].entry.calldata));
                assert(entries_of(waiting)[at] == waiting[at].entry);
                assert(plan[at] == waiting[at]);
                assert(may_overtake(plan, at)) by {
                    assert forall|j: int| 0 <= j < at && (#[trigger] plan[j]).confirm implies independent(
                        plan[j].entry.calldata,
                        plan[at].entry.calldata,
                    ) by {
                        assert(plan[j] == waiting[j]);
                    }
                }
                lemma_confirmed_overtakes(confirmed, plan, at);
                law_overlay_settles(next, rest, waiting.remove(at), coming);
            },
            Event::Rejected(tx_hash, index) => {
                let at = choose|at: int| #[trigger]
                    resolves(waiting, at, tx_hash, index, false) && settles(
                        rest,
                        waiting.remove(at),
                        coming,
                    );
                lemma_settle_one(waiting, coming, at);
                assert(plan[at] == waiting[at]);
                lemma_unconfirmed_leaves(plan, at);
                law_overlay_settles(confirmed, rest, waiting.remove(at), coming);
            },
            Event::TimedOut(tx_hash, index) => {
                let at = choose|at: int| #[trigger]
                    resolves(waiting, at, tx_hash, index, false) && settles(
                        rest,
                        waiting.remove(at),
                        coming,
                    );
                lemma_settle_one(waiting, coming, at);
                assert(plan[at] == waiting[at]);
                lemma_unconfirmed_leaves(plan, at);
                law_overlay_settles(confirmed, rest, waiting.remove(at), coming);
            },
        }
    }
}

/// What a verdict for the waiting action at place `at` does to the log: the
/// action is the first that the verdict names, and it alone leaves.
proof fn lemma_settle_one(waiting: Seq<Planned>, coming: Seq<Planned>, at: int)
    requires
        ids_distinct(waiting + coming),
        0 <= at < waiting.len(),
    ensures
        first_entry(
            entries_of(waiting),
            waiting[at].entry.tx_hash,
            waiting[at].entry.index,
            0,
        ) == Some(at),
        without(entries_of(waiting), waiting[at].entry.tx_hash, waiting[at].entry.index)
            == entries_of(waiting.remove(at)),
        (waiting + coming).remove(at) == waiting.remove(at) + coming,
        ids_distinct(waiting.remove(at) + coming),
{
    let plan = waiting + coming;
    assert(ids_distinct(waiting)) by {
        assert forall|i: int, j: int| 0 <= i < j < waiting.len() implies !is_entry(
            (#[trigger] waiting[i]).entry,
            (#[trigger] waiting[j]).entry.tx_hash,
            waiting[j].entry.index,
        ) by {
            assert(plan[i] == waiting[i] && plan[j] == waiting[j]);
        }
    }
    lemma_first_entry_is_the_one(waiting, at, 0);
    lemma_without_is_remove(waiting, at);
    lemma_distinct_remove(plan, at);
    assert(plan.remove(at) =~= waiting.remove(at) + coming);
}

/// Convergence. Start from a settled state and an empty log. Let `plan` be
/// actions, no two the same, each with its verdict, and let `events` record
/// them in their order and give each its verdict once, after it was
/// recorded, in any interleaving in which no confirmation overtakes the
/// confirmation of an action that it depends on. Then at the end no action
/// waits, and the settled state is the one that the confirmed actions of the
/// plan give when they are run on the first state in the order in which
/// they were recorded.
pub proof fn law_overlay_converges(confirmed: StateView, events: Seq<Event>, plan: Seq<Planned>)
    requires
        ids_distinct(plan),
        settles(events, Seq::empty(), plan),
    ensures
        after_events(OverlayView { confirmed, pending: Seq::empty() }, events) == (OverlayView {
            confirmed: replay(confirmed, confirmed_of(plan)),
            pending: Seq::empty(),
        }),
{
    assert(Seq::<Planned>::empty() + plan =~= plan);
    assert(entries_of(Seq::<Planned>::empty()) =~= Seq::<EntryView>::empty());
    law_overlay_settles(confirmed, events, Seq::empty(), plan);
}

} // verus!
