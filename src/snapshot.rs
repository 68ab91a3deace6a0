//! A fixed-capacity ring of simulation states keyed by frame number.
use vstd::prelude::*;
use vstd::arithmetic::div_mod::lemma_fundamental_div_mod;

verus! {

/// Why a snapshot could not be saved or loaded.
#[derive(Clone, Copy, Debug, PartialEq, Eq, Structural)]
pub enum SnapshotError {
    /// No snapshot of that exact frame is retained.
    SnapshotNotFound,
    /// The frame lies before the retained horizon; saving it would evict a
    /// newer snapshot.
    OutsideHorizon,
}

/// A saved state with the frame it was taken at.
pub struct Snapshot<S> {
    pub frame: u64,
    pub state: S,
}

/// Frames `g` and `h` that lie within `cap` of each other and agree modulo
/// `cap` are the same frame.
proof fn lemma_mod_distinct(g: int, h: int, cap: int)
    requires
        cap > 0,
        g >= 0,
        h >= 0,
        g < h + cap,
        h < g + cap,
        g % cap == h % cap,
    ensures
        g == h,
{
    let qg = g / cap;
    let qh = h / cap;
    lemma_fundamental_div_mod(g, cap);
    lemma_fundamental_div_mod(h, cap);
    assert(qg == qh) by (nonlinear_arith)
        requires
            g == cap * qg + g % cap,
            h == cap * qh + h % cap,
            g % cap == h % cap,
            g < h + cap,
            h < g + cap,
            cap > 0,
    ;
}

/// The ring: slot `i` holds the snapshot of a frame that is `i` modulo the
/// capacity. Only the newest `capacity` frames up to the latest are kept.
pub struct SnapshotStore<S> {
    slots: Vec<Option<Snapshot<S>>>,
    latest: Option<u64>,
}

impl<S> SnapshotStore<S> {
    /// How many snapshots the ring holds.
    pub closed spec fn cap(&self) -> int {
        self.slots@.len() as int
    }

    /// The highest frame saved so far, if any.
    pub closed spec fn latest_spec(&self) -> Option<u64> {
        self.latest
    }

    /// Whether the snapshot of exactly `frame` is retained.
    pub closed spec fn holds(&self, frame: int) -> bool {
        &&& 0 <= frame
        &&& self.cap() > 0
        &&& self.slots@[frame % self.cap()] matches Some(s)
        &&& s.frame == frame
        &&& self.latest matches Some(l)
        &&& frame + self.cap() > l
    }

    /// The state retained for `frame`, where `holds(frame)`.
    pub closed spec fn state_of(&self, frame: int) -> S {
        self.slots@[frame % self.cap()].unwrap().state
    }

    /// The ring's invariant.
    pub closed spec fn wf(&self) -> bool {
        &&& self.cap() > 0
        &&& forall|i: int|
            0 <= i < self.cap() ==> (#[trigger] self.slots@[i] matches Some(s) ==> {
                &&& s.frame as int % self.cap() == i
                &&& self.latest matches Some(l)
                &&& s.frame <= l
            })
        &&& self.latest matches Some(l) ==> self.holds(l as int)
    }

    /// An empty ring of `capacity` slots.
    pub fn new(capacity: usize) -> (r: SnapshotStore<S>)
        requires
            capacity > 0,
        ensures
            r.wf(),
            r.cap() == capacity,
            r.latest_spec().is_none(),
            forall|g: int| !r.holds(g),
    {
        let mut slots: Vec<Option<Snapshot<S>>> = Vec::new();
        let mut i: usize = 0;
        while i < capacity
            invariant
                i <= capacity,
                slots@.len() == i,
                forall|j: int| 0 <= j < i ==> slots@[j].is_none(),
            decreases capacity - i,
        {
            slots.push(None);
            i = i + 1;
        }
        SnapshotStore { slots, latest: None }
    }

    /// The capacity of the ring.
    pub fn capacity(&self) -> (r: usize)
        ensures
            r == self.cap(),
    {
        self.slots.len()
    }

    /// The highest frame currently saved.
    pub fn latest_frame(&self) -> (r: Option<u64>)
        requires
            self.wf(),
        ensures
            r == self.latest_spec(),
            r matches Some(l) ==> self.holds(l as int),
    {
        self.latest
    }

    /// Stores the state of `frame`, evicting the snapshot in its slot.
    /// Refuses a frame that is `capacity` or more behind the latest.
    pub fn save(&mut self, frame: u64, state: S) -> (r: Result<(), SnapshotError>)
        requires
            old(self).wf(),
        ensures
            final(self).wf(),
            final(self).cap() == old(self).cap(),
            r.is_err() <==> (old(self).latest_spec() matches Some(l) && frame + old(self).cap()
                <= l),
            r.is_err() ==> r == Err::<(), SnapshotError>(SnapshotError::OutsideHorizon) && *final(
                self) == *old(self),
            r.is_ok() ==> {
                &&& final(self).holds(frame as int)
                &&& final(self).state_of(frame as int) == state
                &&& final(self).latest_spec() == Some(
                    match old(self).latest_spec() {
                        Some(l) => if l < frame {
                            frame
                        } else {
                            l
                        },
                        None => frame,
                    },
                )
                &&& forall|g: int|
                    g != frame && #[trigger] final(self).holds(g) ==> old(self).holds(g)
                        && final(self).state_of(g) == old(self).state_of(g)
                &&& forall|g: int|
                    #![trigger old(self).holds(g)]
                    old(self).holds(g) && g != frame && g + old(self).cap()
                        > final(self).latest_spec().unwrap() ==> final(self).holds(g)
                        && final(self).state_of(g) == old(self).state_of(g)
            },
    {
        let cap = self.slots.len();
        let new_latest: u64 = match self.latest {
            Some(l) => {
                if (frame as u128) + (cap as u128) <= (l as u128) {
                    return Err(SnapshotError::OutsideHorizon);
                }
                if l < frame {
                    frame
                } else {
                    l
                }
            },
            None => frame,
        };
        let idx: usize = ((frame as u128) % (cap as u128)) as usize;
        let ghost old_self = *self;
        self.slots.set(idx, Some(Snapshot { frame, state }));
        self.latest = Some(new_latest);
        proof {
            let c = cap as int;
            assert forall|i: int|
                0 <= i < self.cap() implies (#[trigger] self.slots@[i] matches Some(s) ==> {
                &&& s.frame as int % self.cap() == i
                &&& self.latest matches Some(l)
                &&& s.frame <= l
            }) by {
                if i != idx {
                    assert(old_self.slots@[i] == self.slots@[i]);
                }
            }
            if new_latest != frame {
                let l = new_latest as int;
                assert(old_self.holds(l));
                if l % c == idx as int {
                    lemma_mod_distinct(l, frame as int, c);
                }
                assert(self.slots@[l % c] == old_self.slots@[l % c]);
            }
            assert forall|g: int|
                g != frame && #[trigger] self.holds(g) implies old_self.holds(g) && self.state_of(
                g,
            ) == old_self.state_of(g) by {
                if g % c == idx as int {
                    lemma_mod_distinct(g, frame as int, c);
                }
                assert(self.slots@[g % c] == old_self.slots@[g % c]);
            }
            assert forall|g: int|
                #![trigger old_self.holds(g)]
                old_self.holds(g) && g != frame && g + c > new_latest implies self.holds(g)
                    && self.state_of(g) == old_self.state_of(g) by {
                if g % c == idx as int {
                    lemma_mod_distinct(g, frame as int, c);
                }
                assert(self.slots@[g % c] == old_self.slots@[g % c]);
            }
        }
        Ok(())
    }

    /// The state saved for exactly `frame`. Fails for a frame never saved or
    /// already evicted, and so for every frame `capacity` or more behind the
    /// latest.
    pub fn load(&self, frame: u64) -> (r: Result<&S, SnapshotError>)
        requires
            self.wf(),
        ensures
            r.is_ok() <==> self.holds(frame as int),
            r matches Ok(s) ==> *s == self.state_of(frame as int),
            r.is_err() ==> r == Err::<&S, SnapshotError>(SnapshotError::SnapshotNotFound),
            (self.latest_spec() matches Some(l) && frame + self.cap() <= l) ==> r.is_err(),
    {
        let cap = self.slots.len();
        let idx: usize = ((frame as u128) % (cap as u128)) as usize;
        match &self.slots[idx] {
            Some(s) => {
                let in_horizon = match self.latest {
                    Some(l) => (frame as u128) + (cap as u128) > (l as u128),
                    None => false,
                };
                if s.frame == frame && in_horizon {
                    Ok(&s.state)
                } else {
                    Err(SnapshotError::SnapshotNotFound)
                }
            },
            None => Err(SnapshotError::SnapshotNotFound),
        }
    }
}

/// The latest saved frame is retained.
pub proof fn lemma_latest_held<S>(store: SnapshotStore<S>)
    requires
        store.wf(),
        store.latest_spec().is_some(),
    ensures
        store.holds(store.latest_spec().unwrap() as int),
{
}

/// A retained frame lies within `capacity` of the latest frame, at or before it.
pub proof fn lemma_held_bounds<S>(store: SnapshotStore<S>, frame: int)
    requires
        store.wf(),
        store.holds(frame),
    ensures
        store.latest_spec() matches Some(l) && 0 <= frame <= l && frame + store.cap() > l,
{
    let i = frame % store.cap();
    assert(store.slots@[i] matches Some(s));
}

/// Every frame `capacity` or more behind the latest saved frame is gone
/// from a well-formed ring.
pub proof fn lemma_snapshot_horizon<S>(store: SnapshotStore<S>, frame: int)
    requires
        store.wf(),
        store.latest_spec() matches Some(l) && 0 <= frame && frame + store.cap() <= l,
    ensures
        !store.holds(frame),
{
}

} // verus!
