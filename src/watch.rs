use vstd::prelude::*;

use crate::matcher::{match_state, satisfies};
use crate::value::Value;

verus! {

/// One notification of a live subscription.
pub enum WatchEvent {
    /// The resource was created or changed; its new state.
    Applied(Value),
    /// The resource was removed.
    Deleted,
    /// The subscription resynchronised; the full set of current states, in order.
    Restarted(Vec<Value>),
}

/// What the watch loop receives when it waits: an event, a transport error after
/// which the subscription reconnects by itself, the end of the subscription, or
/// the deadline.
pub enum StreamItem {
    Event(WatchEvent),
    TransientError,
    Exhausted,
    DeadlineElapsed,
}

/// Why the watch loop failed.
#[derive(PartialEq, Eq, Structural, Clone, Copy, Debug)]
pub enum WatchError {
    /// The subscription ended before any state matched.
    StreamEnded,
    /// The deadline passed before any state matched.
    Timeout,
}

/// What the watch loop does after one item.
pub enum Step {
    /// Wait for the next item.
    Continue,
    /// Stop: this state satisfies the filter.
    Matched(Value),
    /// Stop with this error.
    Failed(WatchError),
}

/// The index of the first state in `states`, from `from` on, that matches `filter`.
pub open spec fn first_match_from(filter: Value, states: Seq<Value>, from: int) -> Option<int>
    decreases states.len() - from,
{
    if from < 0 || from >= states.len() {
        None
    } else if satisfies(filter, states[from]) {
        Some(from)
    } else {
        first_match_from(filter, states, from + 1)
    }
}

/// The step that one item calls for.
pub open spec fn step_for(filter: Value, item: StreamItem) -> Step {
    match item {
        StreamItem::Event(WatchEvent::Applied(s)) => if satisfies(filter, s) {
            Step::Matched(s)
        } else {
            Step::Continue
        },
        StreamItem::Event(WatchEvent::Deleted) => Step::Continue,
        StreamItem::Event(WatchEvent::Restarted(states)) => match first_match_from(filter, states@, 0) {
            Some(k) => Step::Matched(states@[k]),
            None => Step::Continue,
        },
        StreamItem::TransientError => Step::Continue,
        StreamItem::Exhausted => Step::Failed(WatchError::StreamEnded),
        StreamItem::DeadlineElapsed => Step::Failed(WatchError::Timeout),
    }
}

/// The outcome of the watch loop over `items` from index `from` on, with the
/// number of items consumed in all. A sequence that runs out is an ended stream.
pub open spec fn outcome_from(filter: Value, items: Seq<StreamItem>, from: int) -> (
    Result<Value, WatchError>,
    int,
)
    decreases items.len() - from,
{
    if from < 0 || from >= items.len() {
        (Err(WatchError::StreamEnded), items.len() as int)
    } else {
        match step_for(filter, items[from]) {
            Step::Continue => outcome_from(filter, items, from + 1),
            Step::Matched(s) => (Ok(s), from + 1),
            Step::Failed(e) => (Err(e), from + 1),
        }
    }
}

/// The first state of `states` that matches `filter`, taken out of it.
pub fn take_first_match(filter: &Value, states: Vec<Value>) -> (r: Option<Value>)
    ensures
        match first_match_from(*filter, states@, 0) {
            Some(k) => r == Some(states@[k]),
            None => r is None,
        },
{
    let ghost all = states@;
    let mut rest = states;
    let mut i: usize = 0;
    while i < rest.len()
        invariant
            rest@ == all,
            all == states@,
            0 <= i <= all.len(),
            first_match_from(*filter, all, 0) == first_match_from(*filter, all, i as int),
        decreases all.len() - i,
    {
        if match_state(filter, &rest[i]) {
            assert(first_match_from(*filter, all, i as int) == Some(i as int));
            let s = rest.swap_remove(i);
            assert(s == all[i as int]);
            return Some(s);
        }
        assert(first_match_from(*filter, all, i as int) == first_match_from(*filter, all, i + 1));
        i += 1;
    }
    assert(first_match_from(*filter, all, i as int) is None);
    None
}

/// Decides what the watch loop does with one item.
pub fn next_step(filter: &Value, item: StreamItem) -> (r: Step)
    ensures
        r == step_for(*filter, item),
{
    match item {
        StreamItem::Event(WatchEvent::Applied(s)) => {
            if match_state(filter, &s) {
                Step::Matched(s)
            } else {
                Step::Continue
            }
        },
        StreamItem::Event(WatchEvent::Deleted) => Step::Continue,
        StreamItem::Event(WatchEvent::Restarted(states)) => match take_first_match(filter, states) {
            Some(s) => Step::Matched(s),
            None => Step::Continue,
        },
        StreamItem::TransientError => Step::Continue,
        StreamItem::Exhausted => Step::Failed(WatchError::StreamEnded),
        StreamItem::DeadlineElapsed => Step::Failed(WatchError::Timeout),
    }
}

/// Runs the watch loop over a given sequence of items: returns the outcome and
/// how many items were consumed. Nothing after the deciding item is read.
pub fn watch_items(filter: &Value, items: Vec<StreamItem>) -> (r: (Result<Value, WatchError>, usize))
    ensures
        r.0 == outcome_from(*filter, items@, 0).0,
        r.1 as int == outcome_from(*filter, items@, 0).1,
{
    let ghost all = items@;
    let mut rest = items;
    let _n: usize = rest.len();
    let mut i: usize = 0;
    while rest.len() > 0
        invariant
            all == items@,
            rest@ == all.subrange(i as int, all.len() as int),
            0 <= i <= all.len(),
            all.len() <= usize::MAX,
            outcome_from(*filter, all, 0) == outcome_from(*filter, all, i as int),
        decreases rest@.len(),
    {
        let item = rest.remove(0);
        assert(item == all[i as int]);
        let ghost at = i as int;
        let step = next_step(filter, item);
        assert(rest@ =~= all.subrange(at + 1, all.len() as int));
        i += 1;
        proof {
            assert(outcome_from(*filter, all, at) == match step_for(*filter, all[at]) {
                Step::Continue => outcome_from(*filter, all, at + 1),
                Step::Matched(s) => (Ok(s), at + 1),
                Step::Failed(e) => (Err(e), at + 1),
            });
        }
        match step {
            Step::Continue => {},
            Step::Matched(s) => {
                return (Ok(s), i);
            },
            Step::Failed(e) => {
                return (Err(e), i);
            },
        }
    }
    (Err(WatchError::StreamEnded), i)
}

/// A transient error neither ends the watch loop nor changes what it returns:
/// the loop goes on with the next item as if the error had not come.
pub proof fn lemma_transient_error_skipped(filter: Value, items: Seq<StreamItem>, k: int)
    requires
        0 <= k < items.len(),
        items[k] is TransientError,
    ensures
        outcome_from(filter, items, k) == outcome_from(filter, items, k + 1),
{
}

proof fn deadline_reached_from(filter: Value, items: Seq<StreamItem>, k: int, from: int)
    requires
        0 <= from <= k < items.len(),
        items[k] is DeadlineElapsed,
        forall|i: int| 0 <= i < k ==> step_for(filter, #[trigger] items[i]) is Continue,
    ensures
        outcome_from(filter, items, from) == (Err::<Value, WatchError>(WatchError::Timeout), k + 1),
    decreases k - from,
{
    if from < k {
        deadline_reached_from(filter, items, k, from + 1);
    }
}

/// When the deadline passes before any item brings a matching state, the watch
/// loop fails with `Timeout`, consuming nothing after the deadline.
pub proof fn lemma_deadline_without_match(filter: Value, items: Seq<StreamItem>, k: int)
    requires
        0 <= k < items.len(),
        items[k] is DeadlineElapsed,
        forall|i: int| 0 <= i < k ==> step_for(filter, #[trigger] items[i]) is Continue,
    ensures
        outcome_from(filter, items, 0) == (Err::<Value, WatchError>(WatchError::Timeout), k + 1),
{
    deadline_reached_from(filter, items, k, 0);
}

proof fn decided_from(filter: Value, items: Seq<StreamItem>, more: Seq<StreamItem>, k: int, from: int)
    requires
        0 <= from <= k < items.len(),
        !(step_for(filter, items[k]) is Continue),
    ensures
        outcome_from(filter, items + more, from) == outcome_from(filter, items, from),
    decreases k - from,
{
    assert((items + more)[from] == items[from]);
    if from < k {
        decided_from(filter, items, more, k, from + 1);
    }
}

/// Once an item decides the outcome, the watch loop reads nothing after it:
/// appending more items changes neither the result nor the number consumed.
pub proof fn lemma_items_after_decision_unread(
    filter: Value,
    items: Seq<StreamItem>,
    more: Seq<StreamItem>,
    k: int,
)
    requires
        0 <= k < items.len(),
        !(step_for(filter, items[k]) is Continue),
    ensures
        outcome_from(filter, items + more, 0) == outcome_from(filter, items, 0),
{
    decided_from(filter, items, more, k, 0);
}

} // verus!
