//! Which events of the primary window are passed on to the spatial windows: clipboard
//! events, text and keys, so that a spatial window can be typed into.
use vstd::prelude::*;

verus! {

/// The kinds of egui input events that the forwarding tells apart.
#[derive(Clone, Copy, Debug, PartialEq, Eq)]
pub enum EguiEventKind {
    Copy,
    Cut,
    Paste,
    Text,
    Key,
    /// Every other event (pointer, touch, scroll, focus, ...).
    Other,
}

/// An event of this kind is passed on to the spatial windows.
pub open spec fn is_forwarded_spec(kind: EguiEventKind) -> bool {
    !(kind is Other)
}

/// Says whether an event of this kind is passed on to the spatial windows.
pub fn is_forwarded(kind: EguiEventKind) -> (r: bool)
    ensures
        r == is_forwarded_spec(kind),
{
    match kind {
        EguiEventKind::Copy => true,
        EguiEventKind::Cut => true,
        EguiEventKind::Paste => true,
        EguiEventKind::Text => true,
        EguiEventKind::Key => true,
        EguiEventKind::Other => false,
    }
}

/// The positions, in order, of the forwarded events among the first `n` events.
pub open spec fn forwarded_positions(kinds: Seq<EguiEventKind>, n: nat) -> Seq<usize>
    decreases n,
{
    if n == 0 {
        Seq::empty()
    } else {
        let prev = forwarded_positions(kinds, (n - 1) as nat);
        if is_forwarded_spec(kinds[n - 1]) {
            prev.push((n - 1) as usize)
        } else {
            prev
        }
    }
}

/// The positions, in order, of the events of the primary window that are to be appended
/// to every spatial window's input.
pub fn forwarded_events(kinds: &Vec<EguiEventKind>) -> (r: Vec<usize>)
    ensures
        r@ == forwarded_positions(kinds@, kinds@.len()),
{
    let mut r: Vec<usize> = Vec::new();
    let mut i: usize = 0;
    while i < kinds.len()
        invariant
            i <= kinds.len(),
            r@ == forwarded_positions(kinds@, i as nat),
        decreases kinds.len() - i,
    {
        if is_forwarded(kinds[i]) {
            r.push(i);
        }
        i = i + 1;
    }
    r
}

/// The forwarded positions are exactly the positions of forwarded kinds, each once, in
/// increasing order: nothing is dropped, duplicated or reordered.
pub proof fn law_forwarding_keeps_order(kinds: Seq<EguiEventKind>, n: nat)
    requires
        n <= kinds.len() <= usize::MAX,
    ensures
        forall|j: int|
            0 <= j < forwarded_positions(kinds, n).len() ==> {
                let p = #[trigger] forwarded_positions(kinds, n)[j];
                p < n && is_forwarded_spec(kinds[p as int])
            },
        forall|j1: int, j2: int|
            0 <= j1 < j2 < forwarded_positions(kinds, n).len() ==> #[trigger] forwarded_positions(
                kinds,
                n,
            )[j1] < #[trigger] forwarded_positions(kinds, n)[j2],
        forall|p: int|
            0 <= p < n && is_forwarded_spec(#[trigger] kinds[p]) ==> forwarded_positions(
                kinds,
                n,
            ).contains(p as usize),
    decreases n,
{
    if n > 0 {
        law_forwarding_keeps_order(kinds, (n - 1) as nat);
        let prev = forwarded_positions(kinds, (n - 1) as nat);
        let cur = forwarded_positions(kinds, n);
        assert forall|j: int| 0 <= j < prev.len() implies cur[j] == prev[j] by {}
        assert forall|j: int| 0 <= j < cur.len() implies {
            let p = #[trigger] cur[j];
            p < n && is_forwarded_spec(kinds[p as int])
        } by {
            if j < prev.len() {
                assert(cur[j] == prev[j]);
            }
        }
        assert forall|j1: int, j2: int| 0 <= j1 < j2 < cur.len() implies #[trigger] cur[j1] < #[trigger] cur[j2] by {
            assert(cur[j1] == prev[j1]);
            if j2 < prev.len() {
                assert(cur[j2] == prev[j2]);
            } else {
                assert(prev[j1] < n - 1);
            }
        }
        assert forall|p: int|
            0 <= p < n && is_forwarded_spec(#[trigger] kinds[p]) implies cur.contains(
            p as usize,
        ) by {
            if p < n - 1 {
                let j = choose|j: int| 0 <= j < prev.len() && prev[j] == p as usize;
                assert(cur[j] == p as usize);
            } else {
                assert(cur[cur.len() - 1] == p as usize);
            }
        }
    }
}

} // verus!
