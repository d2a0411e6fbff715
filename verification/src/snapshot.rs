//! The snapshot store: a bounded ring of simulation states keyed by frame.

use vstd::prelude::*;
use crate::player::Frame;
use crate::ring::Ring;
use crate::state::GameState;

verus! {

/// A complete copy of the simulation state at one frame.
#[derive(Clone, Copy, Debug, PartialEq, Eq, Hash, Structural)]
pub struct Snapshot {
    pub frame: Frame,
    pub state: GameState,
}

/// The frames of the snapshots grow strictly from oldest to newest.
pub open spec fn frames_increase(s: Seq<Snapshot>) -> bool {
    forall|i: int, j: int| 0 <= i < j < s.len() ==> s[i].frame < s[j].frame
}

/// The snapshots of `s` that were taken before `frame`.
pub open spec fn older_than(s: Seq<Snapshot>, frame: int) -> Seq<Snapshot>
    decreases s.len(),
{
    if s.len() > 0 && s.last().frame >= frame {
        older_than(s.drop_last(), frame)
    } else {
        s
    }
}

/// What a store of the given capacity holds after `snap` is saved into `s`:
/// the snapshot supersedes its own frame and every later one, and where the
/// store was full the oldest snapshot leaves.
pub open spec fn saved(s: Seq<Snapshot>, capacity: nat, snap: Snapshot) -> Seq<Snapshot> {
    let kept = older_than(s, snap.frame as int).push(snap);
    if kept.len() > capacity {
        kept.drop_first()
    } else {
        kept
    }
}

/// The state that `s` holds for `frame`, if it holds one.
pub open spec fn lookup(s: Seq<Snapshot>, frame: int) -> Option<GameState>
    decreases s.len(),
{
    if s.len() == 0 {
        None
    } else if s.last().frame == frame {
        Some(s.last().state)
    } else {
        lookup(s.drop_last(), frame)
    }
}

/// What is left by `older_than` is a prefix of `s`, and with increasing
/// frames it is exactly the snapshots before `frame`.
pub proof fn lemma_older_than(s: Seq<Snapshot>, frame: int)
    requires
        frames_increase(s),
    ensures
        older_than(s, frame).len() <= s.len(),
        older_than(s, frame) == s.take(older_than(s, frame).len() as int),
        forall|i: int| 0 <= i < older_than(s, frame).len() ==> s[i].frame < frame,
        forall|i: int| older_than(s, frame).len() <= i < s.len() ==> s[i].frame >= frame,
    decreases s.len(),
{
    let last = s.len() - 1;
    if s.len() > 0 && s[last].frame >= frame {
        let t = s.drop_last();
        assert forall|i: int, j: int| 0 <= i < j < t.len() implies t[i].frame < t[j].frame by {
            assert(t[i] == s[i] && t[j] == s[j]);
        }
        lemma_older_than(t, frame);
        let n = older_than(t, frame).len() as int;
        assert(t.take(n) =~= s.take(n));
        assert forall|i: int| 0 <= i < n implies s[i].frame < frame by {
            assert(t[i] == s[i]);
        }
        assert forall|i: int| n <= i < s.len() implies s[i].frame >= frame by {
            if i < last {
                assert(t[i] == s[i]);
            }
        }
    } else {
        assert(s.take(s.len() as int) =~= s);
        assert forall|i: int| 0 <= i < s.len() implies s[i].frame < frame by {
            if i < last {
                assert(s[i].frame < s[last].frame);
            }
        }
    }
}

/// Saving keeps the frames increasing and the store within its capacity.
pub proof fn lemma_saved_wf(s: Seq<Snapshot>, capacity: nat, snap: Snapshot)
    requires
        frames_increase(s),
        s.len() <= capacity,
        capacity >= 1,
    ensures
        frames_increase(saved(s, capacity, snap)),
        1 <= saved(s, capacity, snap).len() <= capacity,
        saved(s, capacity, snap).last() == snap,
{
    lemma_older_than(s, snap.frame as int);
}

/// A snapshot with a given frame is found under that frame.
pub proof fn lemma_lookup_index(s: Seq<Snapshot>, i: int)
    requires
        frames_increase(s),
        0 <= i < s.len(),
    ensures
        lookup(s, s[i].frame as int) == Some(s[i].state),
    decreases s.len(),
{
    if i < s.len() - 1 {
        lemma_lookup_index(s.drop_last(), i);
    }
}

/// A frame that no snapshot carries is not found.
pub proof fn lemma_lookup_absent(s: Seq<Snapshot>, frame: int)
    requires
        forall|i: int| 0 <= i < s.len() ==> s[i].frame != frame,
    ensures
        lookup(s, frame) is None,
    decreases s.len(),
{
    if s.len() > 0 {
        lemma_lookup_absent(s.drop_last(), frame);
    }
}

/// Round trip: a state that was just saved is loaded back unchanged.
pub proof fn lemma_save_then_load(s: Seq<Snapshot>, capacity: nat, snap: Snapshot)
    requires
        frames_increase(s),
        s.len() <= capacity,
        capacity >= 1,
    ensures
        lookup(saved(s, capacity, snap), snap.frame as int) == Some(snap.state),
{
    lemma_saved_wf(s, capacity, snap);
}

/// A bounded ring of snapshots keyed by frame.
///
/// The view lists the retained snapshots from oldest to newest.
pub struct SnapshotStore {
    ring: Ring<Snapshot>,
}

impl View for SnapshotStore {
    type V = Seq<Snapshot>;

    closed spec fn view(&self) -> Seq<Snapshot> {
        self.ring@
    }
}

impl SnapshotStore {
    /// The store is within its capacity and its frames increase.
    pub closed spec fn wf(&self) -> bool {
        &&& self.ring.wf()
        &&& frames_increase(self.ring@)
    }

    /// How many snapshots the store retains at most.
    pub closed spec fn spec_capacity(&self) -> nat {
        self.ring.spec_capacity()
    }

    /// A well-formed store holds no more than its capacity, which is at
    /// least one, in increasing frame order.
    pub proof fn lemma_wf(&self)
        requires
            self.wf(),
        ensures
            self@.len() <= self.spec_capacity(),
            self.spec_capacity() >= 1,
            frames_increase(self@),
    {
        self.ring.lemma_bounded();
    }

    /// An empty store that retains up to `capacity` snapshots, and at
    /// least one: a store always has room for the newest snapshot.
    pub fn new(capacity: usize) -> (r: Self)
        ensures
            r.wf(),
            r@ == Seq::<Snapshot>::empty(),
            r.spec_capacity() == if capacity == 0 {
                1
            } else {
                capacity as int
            },
    {
        let fill = Snapshot { frame: 0, state: GameState::new() };
        let slots: usize = if capacity == 0 {
            1
        } else {
            capacity
        };
        SnapshotStore { ring: Ring::new(slots, fill) }
    }

    /// How many snapshots the store retains at most.
    pub fn capacity(&self) -> (r: usize)
        requires
            self.wf(),
        ensures
            r == self.spec_capacity(),
    {
        self.ring.capacity()
    }

    /// How many snapshots the store holds.
    pub fn len(&self) -> (r: usize)
        requires
            self.wf(),
        ensures
            r == self@.len(),
    {
        self.ring.len()
    }

    /// The frame of the oldest retained snapshot.
    pub fn oldest_frame(&self) -> (r: Option<Frame>)
        requires
            self.wf(),
        ensures
            self@.len() == 0 ==> r is None,
            self@.len() > 0 ==> r == Some(self@[0].frame),
    {
        if self.ring.len() == 0 {
            None
        } else {
            Some(self.ring.get(0).frame)
        }
    }

    /// Saves a copy of `state` under `frame`.
    ///
    /// The snapshot supersedes any retained snapshot of the same or a later
    /// frame. Where the store is full, the oldest snapshot is evicted.
    pub fn save(&mut self, frame: Frame, state: &GameState)
        requires
            old(self).wf(),
        ensures
            final(self).wf(),
            final(self).spec_capacity() == old(self).spec_capacity(),
            final(self)@ == saved(
                old(self)@,
                old(self).spec_capacity(),
                Snapshot { frame, state: *state },
            ),
    {
        let ghost before = self.ring@;
        let snap = Snapshot { frame, state: *state };
        proof {
            self.ring.lemma_bounded();
            lemma_older_than(before, frame as int);
        }
        loop
            invariant
                self.ring.wf(),
                self.ring.spec_capacity() == old(self).ring.spec_capacity(),
                frames_increase(self.ring@),
                older_than(self.ring@, frame as int) == older_than(before, frame as int),
            ensures
                self.ring@ == older_than(before, frame as int),
            decreases self.ring@.len(),
        {
            let n: usize = self.ring.len();
            if n == 0 {
                break;
            }
            let newest = self.ring.get(n - 1);
            if newest.frame < frame {
                break;
            }
            proof {
                assert(self.ring@.take(n - 1) =~= self.ring@.drop_last());
            }
            self.ring.truncate(n - 1);
        }
        proof {
            self.ring.lemma_bounded();
        }
        if self.ring.len() == self.ring.capacity() {
            self.ring.pop_front();
        }
        self.ring.push_back(snap);
        proof {
            assert(self.ring@ =~= saved(before, old(self).spec_capacity(), snap));
            lemma_saved_wf(before, old(self).spec_capacity(), snap);
        }
    }

    /// The state saved under `frame`, if the store still retains it.
    pub fn load(&self, frame: Frame) -> (r: Option<GameState>)
        requires
            self.wf(),
        ensures
            r == lookup(self@, frame as int),
    {
        let mut i: usize = self.ring.len();
        proof {
            assert(self.ring@.take(i as int) =~= self.ring@);
        }
        while i > 0
            invariant
                self.ring.wf(),
                i <= self.ring@.len(),
                lookup(self.ring@, frame as int) == lookup(self.ring@.take(i as int), frame as int),
            decreases i,
        {
            i = i - 1;
            let snap = self.ring.get(i);
            proof {
                assert(self.ring@.take(i + 1).drop_last() =~= self.ring@.take(i as int));
            }
            if snap.frame == frame {
                return Some(snap.state);
            }
        }
        None
    }
}

} // verus!
