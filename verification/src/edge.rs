//! Edge detection for a button: a press or a release is reported only when the button's
//! state changes from what was last seen.
use vstd::prelude::*;

verus! {

/// The edge that a new reading `curr` makes against the last seen state `last`:
/// `Some(true)` for a press, `Some(false)` for a release, `None` when nothing changed.
pub open spec fn edge(curr: bool, last: bool) -> Option<bool> {
    if curr != last {
        Some(curr)
    } else {
        None
    }
}

/// Compares the reading `curr` with the stored state, stores `curr`, and returns the edge
/// to report: `Some(true)` when the button went down, `Some(false)` when it went up.
pub fn check(curr: bool, state: &mut bool) -> (reported: Option<bool>)
    ensures
        reported == edge(curr, *old(state)),
        *final(state) == curr,
{
    let mut reported: Option<bool> = None;
    if curr && !*state {
        reported = Some(true);
    }
    if !curr && *state {
        reported = Some(false);
    }
    *state = curr;
    reported
}

/// The edges that a run of readings reports, starting from the stored state `start`.
pub open spec fn reported_edges(start: bool, readings: Seq<bool>) -> Seq<bool>
    decreases readings.len(),
{
    if readings.len() == 0 {
        Seq::empty()
    } else {
        let prev = reported_edges(start, readings.drop_last());
        let last_state = if readings.len() == 1 { start } else { readings[readings.len() - 2] };
        match edge(readings.last(), last_state) {
            Some(p) => prev.push(p),
            None => prev,
        }
    }
}

/// Once a reading has been checked the state holds it, so checking the same reading again
/// reports nothing.
pub proof fn law_check_settles(curr: bool)
    ensures
        edge(curr, curr) is None,
{
}

/// Over any run of readings, the reported edges alternate between press and release, and
/// the first one reported is the opposite of the starting state.
pub proof fn law_edges_alternate(start: bool, readings: Seq<bool>)
    ensures
        forall|i: int|
            0 <= i < reported_edges(start, readings).len() ==> #[trigger] reported_edges(
                start,
                readings,
            )[i] == (if i % 2 == 0 { !start } else { start }),
    decreases readings.len(),
{
    if readings.len() > 0 {
        law_edges_alternate(start, readings.drop_last());
        lemma_edges_track_state(start, readings.drop_last());
    }
}

/// After a run of readings, an odd number of reported edges means the state differs from
/// where it started, an even number that it is back where it started.
pub proof fn lemma_edges_track_state(start: bool, readings: Seq<bool>)
    ensures
        (if readings.len() == 0 { start } else { readings.last() }) == (if reported_edges(
            start,
            readings,
        ).len() % 2 == 0 {
            start
        } else {
            !start
        }),
    decreases readings.len(),
{
    if readings.len() > 0 {
        lemma_edges_track_state(start, readings.drop_last());
        assert(readings.drop_last().len() > 0 ==> readings.drop_last().last() == readings[readings.len() - 2]);
    }
}

} // verus!
