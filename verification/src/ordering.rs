//! Reordering of rendered frames.
//!
//! Rendering finishes frames in any order. The reassembler hands them on by
//! ascending index, starting at zero: a frame that arrives early waits in a
//! buffer until all frames before it have been handed on.

use std::collections::VecDeque;
use vstd::multiset::Multiset;
use vstd::prelude::*;
use vstd::seq_lib::*;
use crate::types::RgbaFrame;
use crate::{Error, ErrorView};

verus! {

/// The position of the first frame with the index `wanted`, or the length of
/// `frames` where there is none.
pub open spec fn position_of(frames: Seq<RgbaFrame>, wanted: nat) -> nat
    decreases frames.len(),
{
    if frames.len() == 0 {
        0
    } else if frames[0].index == wanted {
        0
    } else {
        1 + position_of(frames.drop_first(), wanted)
    }
}

/// The state of the reassembler.
pub struct ReorderState {
    /// Frames that arrived before their turn, in the order of their arrival.
    pub buffer: Seq<RgbaFrame>,
    /// Frames that have arrived and were not looked at yet, oldest first.
    pub incoming: Seq<RgbaFrame>,
    /// The index of the frame that is handed on next.
    pub wanted: nat,
}

/// The state in which nothing was handed on and `arrivals` wait to be
/// looked at.
pub open spec fn initial_state(arrivals: Seq<RgbaFrame>) -> ReorderState {
    ReorderState { buffer: Seq::empty(), incoming: arrivals, wanted: 0 }
}

/// One request for the next frame: the frame handed on, if any, and the
/// state after it.
///
/// The wanted frame is taken from the buffer where the buffer has it.
/// Otherwise the frames that have arrived are looked at in turn: those that
/// come before the wanted one go to the buffer, the wanted one is handed on.
/// Where it has not arrived, all arrivals go to the buffer and nothing is
/// handed on.
pub open spec fn step(st: ReorderState) -> (Option<RgbaFrame>, ReorderState) {
    let b = position_of(st.buffer, st.wanted) as int;
    let p = position_of(st.incoming, st.wanted) as int;
    if b < st.buffer.len() {
        (Some(st.buffer[b]), ReorderState { buffer: st.buffer.remove(b), wanted: st.wanted + 1, ..st })
    } else if p < st.incoming.len() {
        (
            Some(st.incoming[p]),
            ReorderState {
                buffer: st.buffer + st.incoming.take(p),
                incoming: st.incoming.skip(p + 1),
                wanted: st.wanted + 1,
            },
        )
    } else {
        (None, ReorderState { buffer: st.buffer + st.incoming, incoming: Seq::empty(), ..st })
    }
}

/// The frames handed on when the next frame is requested until there is
/// none.
pub open spec fn drained(st: ReorderState) -> Seq<RgbaFrame>
    decreases st.buffer.len() + st.incoming.len(),
{
    let b = position_of(st.buffer, st.wanted) as int;
    let p = position_of(st.incoming, st.wanted) as int;
    if b < st.buffer.len() || p < st.incoming.len() {
        seq![step(st).0.unwrap()] + drained(step(st).1)
    } else {
        Seq::empty()
    }
}

/// The frames handed on for `arrivals` when nothing else arrives.
pub open spec fn reassembled(arrivals: Seq<RgbaFrame>) -> Seq<RgbaFrame> {
    drained(initial_state(arrivals))
}

/// `position_of` finds the first frame with the wanted index.
pub proof fn lemma_position_of(frames: Seq<RgbaFrame>, wanted: nat)
    ensures
        position_of(frames, wanted) <= frames.len(),
        position_of(frames, wanted) < frames.len() ==> frames[position_of(
            frames,
            wanted,
        ) as int].index == wanted,
        forall|j: int| 0 <= j < position_of(frames, wanted) ==> (#[trigger] frames[j]).index != wanted,
    decreases frames.len(),
{
    if frames.len() > 0 && frames[0].index != wanted {
        let rest = frames.drop_first();
        lemma_position_of(rest, wanted);
        assert forall|j: int| 0 <= j < position_of(frames, wanted) implies (
        #[trigger] frames[j]).index != wanted by {
            if j > 0 {
                assert(frames[j] == rest[j - 1]);
            }
        }
    }
}

/// Skipping frames that lack the wanted index shifts the position.
proof fn lemma_position_skip(frames: Seq<RgbaFrame>, wanted: nat, k: int)
    requires
        0 <= k <= frames.len(),
        forall|j: int| 0 <= j < k ==> (#[trigger] frames[j]).index != wanted,
    ensures
        position_of(frames, wanted) == k + position_of(frames.skip(k), wanted),
    decreases k,
{
    if k == 0 {
        assert(frames.skip(0) =~= frames);
    } else {
        lemma_position_skip(frames, wanted, k - 1);
        let tail = frames.skip(k - 1);
        assert(tail[0] == frames[k - 1]);
        assert(tail.drop_first() =~= frames.skip(k));
    }
}

/// Reorders rendered frames by index.
pub struct OrderedFrameIter {
    /// Frames that arrived before their turn.
    buffer: Vec<RgbaFrame>,
    /// Frames that have arrived and were not looked at yet.
    frames: VecDeque<RgbaFrame>,
    /// The index of the frame that is handed on next; `None` once the
    /// frame with the largest index has been handed on.
    current_frame: Option<u64>,
}

impl OrderedFrameIter {
    /// The state of the reassembler.
    pub closed spec fn state(&self) -> ReorderState {
        ReorderState {
            buffer: self.buffer@,
            incoming: self.frames@,
            wanted: match self.current_frame {
                Some(wanted) => wanted as nat,
                None => u64::MAX as nat + 1,
            },
        }
    }

    /// A reassembler that has `frames` to look at, oldest first, and hands
    /// on the frame with index zero first.
    pub fn new(frames: Vec<RgbaFrame>) -> (iter: OrderedFrameIter)
        ensures
            iter.state() == initial_state(frames@),
    {
        let mut frames = frames;
        let ghost arrivals = frames@;
        let mut reversed: Vec<RgbaFrame> = Vec::new();
        while frames.len() > 0
            invariant
                frames@.len() + reversed@.len() == arrivals.len(),
                forall|i: int| 0 <= i < frames@.len() ==> frames@[i] == arrivals[i],
                forall|i: int|
                    0 <= i < reversed@.len() ==> reversed@[i] == arrivals[arrivals.len() - 1 - i],
            decreases frames@.len(),
        {
            let frame = frames.pop().unwrap();
            reversed.push(frame);
        }
        let mut incoming: VecDeque<RgbaFrame> = VecDeque::new();
        while reversed.len() > 0
            invariant
                incoming@.len() + reversed@.len() == arrivals.len(),
                forall|i: int| 0 <= i < incoming@.len() ==> incoming@[i] == arrivals[i],
                forall|i: int|
                    0 <= i < reversed@.len() ==> reversed@[i] == arrivals[arrivals.len() - 1 - i],
            decreases reversed@.len(),
        {
            let frame = reversed.pop().unwrap();
            incoming.push_back(frame);
        }
        proof {
            assert(incoming@ =~= arrivals);
        }
        OrderedFrameIter { buffer: Vec::new(), frames: incoming, current_frame: Some(0) }
    }

    /// Adds a frame that has just arrived.
    pub fn push(&mut self, frame: RgbaFrame)
        ensures
            final(self).state() == (ReorderState {
                incoming: old(self).state().incoming.push(frame),
                ..old(self).state()
            }),
    {
        self.frames.push_back(frame);
    }

    /// The number of frames that wait in the buffer for their turn.
    pub fn buffered(&self) -> (n: usize)
        ensures
            n == self.state().buffer.len(),
    {
        self.buffer.len()
    }

    /// Ends the reassembly: an error where frames are left that were not
    /// handed on, which is so where an index never arrived or arrived
    /// twice. The error holds their number.
    pub fn finish(&self) -> (r: Result<(), Error>)
        ensures
            match r {
                Ok(_) => left_over(self.state()) == 0,
                Err(e) => left_over(self.state()) > 0 && e@ == ErrorView::FramesOutOfSequence(
                    left_over(self.state()),
                ),
            },
    {
        let waiting = self.buffer.len();
        let unseen = self.frames.len();
        if waiting == 0 && unseen == 0 {
            Ok(())
        } else if waiting > usize::MAX - unseen {
            Err(Error::FramesOutOfSequence(usize::MAX))
        } else {
            Err(Error::FramesOutOfSequence(waiting + unseen))
        }
    }

    /// The position in the buffer of the first frame with the index
    /// `wanted`, or the buffer's length.
    fn find_buffered(&self, wanted: u64) -> (pos: usize)
        ensures
            pos == position_of(self.buffer@, wanted as nat),
            pos <= self.buffer@.len(),
    {
        let mut i: usize = 0;
        while i < self.buffer.len()
            invariant
                i <= self.buffer@.len(),
                forall|j: int| 0 <= j < i ==> (#[trigger] self.buffer@[j]).index != wanted,
            decreases self.buffer@.len() - i,
        {
            if self.buffer[i].index == wanted {
                proof {
                    lemma_position_skip(self.buffer@, wanted as nat, i as int);
                    assert(self.buffer@.skip(i as int)[0] == self.buffer@[i as int]);
                }
                return i;
            }
            i += 1;
        }
        proof {
            lemma_position_skip(self.buffer@, wanted as nat, i as int);
            assert(self.buffer@.skip(i as int).len() == 0);
        }
        i
    }

    /// Hands on the frame whose turn it is, if it has arrived: see [`step`].
    pub fn next(&mut self) -> (item: Option<RgbaFrame>)
        ensures
            (item, final(self).state()) == step(old(self).state()),
    {
        let ghost before = self.state();
        match self.current_frame {
            Some(wanted) => {
                let pos = self.find_buffered(wanted);
                if pos < self.buffer.len() {
                    let frame = self.buffer.remove(pos);
                    self.current_frame = wanted.checked_add(1);
                    return Some(frame);
                }
                let ghost mut looked: int = 0;
                loop
                    invariant
                        self.current_frame == Some(wanted),
                        before == old(self).state(),
                        before.wanted == wanted,
                        position_of(before.buffer, before.wanted) == before.buffer.len(),
                        0 <= looked <= before.incoming.len(),
                        self.buffer@ == before.buffer + before.incoming.take(looked),
                        self.frames@ == before.incoming.skip(looked),
                        forall|j: int|
                            0 <= j < looked ==> (#[trigger] before.incoming[j]).index != wanted,
                    decreases before.incoming.len() - looked,
                {
                    match self.frames.pop_front() {
                        Some(frame) => {
                            proof {
                                assert(frame == before.incoming[looked]);
                                assert(self.frames@ =~= before.incoming.skip(looked + 1));
                            }
                            if frame.index == wanted {
                                proof {
                                    lemma_position_skip(
                                        before.incoming,
                                        wanted as nat,
                                        looked,
                                    );
                                    assert(before.incoming.skip(looked)[0]
                                        == before.incoming[looked]);
                                }
                                self.current_frame = wanted.checked_add(1);
                                return Some(frame);
                            }
                            self.buffer.push(frame);
                            proof {
                                assert(self.buffer@ =~= before.buffer + before.incoming.take(
                                    looked + 1,
                                ));
                            }
                            proof {
                                looked = looked + 1;
                            }
                        },
                        None => {
                            proof {
                                lemma_position_skip(before.incoming, wanted as nat, looked);
                                assert(before.incoming.take(looked) =~= before.incoming);
                                assert(self.frames@ =~= Seq::<RgbaFrame>::empty());
                            }
                            return None;
                        },
                    }
                }
            },
            None => {
                proof {
                    lemma_position_of(before.buffer, before.wanted);
                    lemma_position_of(before.incoming, before.wanted);
                }
                let ghost mut looked: int = 0;
                loop
                    invariant
                        self.current_frame is None,
                        before == old(self).state(),
                        before.wanted == u64::MAX as nat + 1,
                        position_of(before.buffer, before.wanted) == before.buffer.len(),
                        position_of(before.incoming, before.wanted) == before.incoming.len(),
                        0 <= looked <= before.incoming.len(),
                        self.buffer@ == before.buffer + before.incoming.take(looked),
                        self.frames@ == before.incoming.skip(looked),
                    decreases before.incoming.len() - looked,
                {
                    match self.frames.pop_front() {
                        Some(frame) => {
                            proof {
                                assert(frame == before.incoming[looked]);
                                assert(self.frames@ =~= before.incoming.skip(looked + 1));
                            }
                            self.buffer.push(frame);
                            proof {
                                assert(self.buffer@ =~= before.buffer + before.incoming.take(
                                    looked + 1,
                                ));
                            }
                            proof {
                                looked = looked + 1;
                            }
                        },
                        None => {
                            proof {
                                assert(before.incoming.take(looked) =~= before.incoming);
                                assert(self.frames@ =~= Seq::<RgbaFrame>::empty());
                            }
                            return None;
                        },
                    }
                }
            },
        }
    }

    /// Hands on frames until the one whose turn it is has not arrived, and
    /// returns them in the order in which they were handed on.
    pub fn drain(&mut self) -> (out: Vec<RgbaFrame>)
        ensures
            out@ == drained(old(self).state()),
            final(self).state() == after_drain(old(self).state()),
    {
        let mut out: Vec<RgbaFrame> = Vec::new();
        loop
            invariant
                out@ + drained(self.state()) == drained(old(self).state()),
                after_drain(self.state()) == after_drain(old(self).state()),
            decreases self.state().buffer.len() + self.state().incoming.len(),
        {
            let ghost before = self.state();
            proof {
                lemma_position_of(before.buffer, before.wanted);
                lemma_position_of(before.incoming, before.wanted);
            }
            match self.next() {
                Some(frame) => {
                    out.push(frame);
                    proof {
                        assert(out@ + drained(self.state()) =~= out@.drop_last() + (seq![frame]
                            + drained(self.state())));
                    }
                },
                None => {
                    proof {
                        assert(out@ + Seq::<RgbaFrame>::empty() =~= out@);
                    }
                    return out;
                },
            }
        }
    }
}

/// The state that is left when frames were handed on until the one whose
/// turn it is has not arrived.
pub open spec fn after_drain(st: ReorderState) -> ReorderState
    decreases st.buffer.len() + st.incoming.len(),
{
    let b = position_of(st.buffer, st.wanted) as int;
    let p = position_of(st.incoming, st.wanted) as int;
    if b < st.buffer.len() || p < st.incoming.len() {
        after_drain(step(st).1)
    } else {
        step(st).1
    }
}

/// The number of frames of a state that were not handed on, as far as a
/// machine word counts.
pub open spec fn left_over(st: ReorderState) -> usize {
    if st.buffer.len() + st.incoming.len() > usize::MAX {
        usize::MAX
    } else {
        (st.buffer.len() + st.incoming.len()) as usize
    }
}

/// The number of frames among `arrivals` that cannot be handed on when
/// nothing else arrives.
pub open spec fn unsequenced(arrivals: Seq<RgbaFrame>) -> usize {
    left_over(after_drain(initial_state(arrivals)))
}

/// Draining loses no frame: every frame is handed on or left over, and
/// those left over wait in the buffer.
pub proof fn lemma_drain_conserves(st: ReorderState)
    ensures
        after_drain(st).incoming.len() == 0,
        drained(st).len() + after_drain(st).buffer.len() == st.buffer.len() + st.incoming.len(),
    decreases st.buffer.len() + st.incoming.len(),
{
    let b = position_of(st.buffer, st.wanted) as int;
    let p = position_of(st.incoming, st.wanted) as int;
    lemma_position_of(st.buffer, st.wanted);
    lemma_position_of(st.incoming, st.wanted);
    if b < st.buffer.len() || p < st.incoming.len() {
        lemma_drain_conserves(step(st).1);
    }
}

/// Whether a frame with the index `k` is among `frames`.
pub open spec fn has_index(frames: Seq<RgbaFrame>, k: nat) -> bool {
    position_of(frames, k) < frames.len()
}

/// Whether `frames` holds the indices from `from` up to, not including,
/// `to`, and has as many frames as that: each of these indices then occurs
/// exactly once.
pub open spec fn covers(frames: Seq<RgbaFrame>, from: nat, to: nat) -> bool {
    &&& from <= to
    &&& frames.len() == to - from
    &&& forall|k: nat| from <= k < to ==> #[trigger] has_index(frames, k)
}

/// Whether `frames` is a complete set of frames in some order: it holds
/// every index below its length, each exactly once.
pub open spec fn index_complete(frames: Seq<RgbaFrame>) -> bool {
    covers(frames, 0, frames.len())
}

/// A frame with index `k` at any position shows that the index occurs.
proof fn lemma_has_index(frames: Seq<RgbaFrame>, i: int)
    requires
        0 <= i < frames.len(),
    ensures
        has_index(frames, frames[i].index as nat),
{
    lemma_position_of(frames, frames[i].index as nat);
}

/// Taking out the frame with one index leaves the other indices in place.
proof fn lemma_covers_remove(frames: Seq<RgbaFrame>, from: nat, to: nat, q: int)
    requires
        covers(frames, from, to),
        0 <= q < frames.len(),
        frames[q].index == from,
    ensures
        covers(frames.remove(q), from + 1, to),
{
    let rest = frames.remove(q);
    assert forall|k: nat| from + 1 <= k < to implies #[trigger] has_index(rest, k) by {
        assert(has_index(frames, k));
        lemma_position_of(frames, k);
        let at = position_of(frames, k) as int;
        if at < q {
            assert(rest[at] == frames[at]);
            lemma_has_index(rest, at);
        } else {
            assert(rest[at - 1] == frames[at]);
            lemma_has_index(rest, at - 1);
        }
    }
}

/// From a state whose buffer and arrivals together hold the indices from
/// the wanted one up to `to`, each once, draining hands on all of them,
/// by ascending index.
proof fn lemma_drained_covers(st: ReorderState, to: nat)
    requires
        covers(st.buffer + st.incoming, st.wanted, to),
    ensures
        drained(st).len() == to - st.wanted,
        forall|j: int| 0 <= j < drained(st).len() ==> (#[trigger] drained(st)[j]).index == st.wanted + j,
        drained(st).to_multiset() == (st.buffer + st.incoming).to_multiset(),
    decreases to - st.wanted,
{
    broadcast use group_to_multiset_ensures;

    let all = st.buffer + st.incoming;
    let b = position_of(st.buffer, st.wanted) as int;
    let p = position_of(st.incoming, st.wanted) as int;
    lemma_position_of(st.buffer, st.wanted);
    lemma_position_of(st.incoming, st.wanted);
    if st.wanted == to {
        assert(st.buffer.len() == 0);
        assert(st.incoming.len() == 0);
        assert(drained(st) =~= all);
    } else {
        assert(has_index(all, st.wanted));
        lemma_position_of(all, st.wanted);
        let q = position_of(all, st.wanted) as int;
        let taken: int = if b < st.buffer.len() {
            b
        } else {
            if q < st.buffer.len() {
                assert(st.buffer[q] == all[q]);
                lemma_has_index(st.buffer, q);
            }
            assert(st.incoming[q - st.buffer.len()] == all[q]);
            lemma_has_index(st.incoming, q - st.buffer.len());
            st.buffer.len() + p
        };
        let next = step(st).1;
        let frame = step(st).0.unwrap();
        assert(frame == all[taken]);
        assert(next.buffer + next.incoming =~= all.remove(taken));
        lemma_covers_remove(all, st.wanted, to, taken);
        lemma_drained_covers(next, to);
        let rest = drained(next);
        assert(drained(st) == seq![frame] + rest);
        assert forall|j: int| 0 <= j < drained(st).len() implies (#[trigger] drained(
            st,
        )[j]).index == st.wanted + j by {
            if j > 0 {
                assert(drained(st)[j] == rest[j - 1]);
            }
        }
        lemma_multiset_commutative(seq![frame], rest);
        assert(seq![frame].to_multiset() =~= Multiset::empty().insert(frame)) by {
            assert(seq![frame] =~= Seq::<RgbaFrame>::empty().push(frame));
        }
        assert(all.contains(frame));
        assert(drained(st).to_multiset() =~= all.to_multiset());
    }
}

/// Reassembly: whatever the order in which a complete set of frames
/// arrives, the frames are handed on by ascending index, from zero, without
/// gap: all of them, each once, and none is left over.
pub proof fn lemma_reassembly_sorts(arrivals: Seq<RgbaFrame>)
    requires
        index_complete(arrivals),
    ensures
        reassembled(arrivals).len() == arrivals.len(),
        forall|j: int|
            0 <= j < arrivals.len() ==> (#[trigger] reassembled(arrivals)[j]).index == j,
        reassembled(arrivals).to_multiset() == arrivals.to_multiset(),
        unsequenced(arrivals) == 0,
{
    let st = initial_state(arrivals);
    assert(st.buffer + st.incoming =~= arrivals);
    lemma_drained_covers(st, arrivals.len());
    lemma_drain_conserves(st);
}

/// Reassembly does not depend on the order of arrival: two arrival orders
/// of the same complete set of frames give the same output.
pub proof fn lemma_reassembly_ignores_arrival_order(
    first: Seq<RgbaFrame>,
    second: Seq<RgbaFrame>,
)
    requires
        index_complete(first),
        first.to_multiset() == second.to_multiset(),
    ensures
        reassembled(first) == reassembled(second),
{
    broadcast use group_to_multiset_ensures;

    assert(first.len() == second.len()) by {
        assert(first.len() == first.to_multiset().len());
        assert(second.len() == second.to_multiset().len());
    }
    assert forall|k: nat| k < second.len() implies #[trigger] has_index(second, k) by {
        assert(has_index(first, k));
        lemma_position_of(first, k);
        let frame = first[position_of(first, k) as int];
        assert(first.contains(frame));
        assert(second.to_multiset().count(frame) > 0);
        assert(second.contains(frame));
        let at = choose|i: int| 0 <= i < second.len() && second[i] == frame;
        lemma_has_index(second, at);
    }
    lemma_reassembly_sorts(first);
    lemma_reassembly_sorts(second);
    let a = reassembled(first);
    let b = reassembled(second);
    assert forall|j: int| 0 <= j < a.len() implies a[j] == b[j] by {
        assert(a.contains(a[j]));
        assert(b.to_multiset().count(a[j]) > 0);
        assert(b.contains(a[j]));
        let at = choose|i: int| 0 <= i < b.len() && b[i] == a[j];
        assert(b[at].index == at);
        assert(a[j].index == j);
    }
    assert(a =~= b);
}

/// Frames that arrive in order are handed on as they arrive.
pub proof fn lemma_reassembly_keeps_sorted(arrivals: Seq<RgbaFrame>)
    requires
        forall|i: int| 0 <= i < arrivals.len() ==> (#[trigger] arrivals[i]).index == i,
    ensures
        reassembled(arrivals) == arrivals,
        unsequenced(arrivals) == 0,
{
    broadcast use group_to_multiset_ensures;

    assert forall|k: nat| k < arrivals.len() implies #[trigger] has_index(arrivals, k) by {
        lemma_has_index(arrivals, k as int);
    }
    lemma_reassembly_sorts(arrivals);
    let out = reassembled(arrivals);
    assert forall|j: int| 0 <= j < out.len() implies out[j] == arrivals[j] by {
        assert(out.contains(out[j]));
        assert(arrivals.to_multiset().count(out[j]) > 0);
        assert(arrivals.contains(out[j]));
        let at = choose|i: int| 0 <= i < arrivals.len() && arrivals[i] == out[j];
        assert(arrivals[at].index == at);
    }
    assert(out =~= arrivals);
}

} // verus!
