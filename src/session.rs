//! The session: players, their input queues, the snapshot ring, and the
//! per-tick scheduler that advances, stalls or rolls back.
use vstd::prelude::*;
use crate::input::PlayerInputFrame;
use crate::queue::{input_at, neutral, predicted, InputQueue};
use crate::snapshot::{lemma_held_bounds, lemma_latest_held, SnapshotStore};
use crate::game::{lemma_determinism, run, Game};

verus! {

/// A non-owning reference to a transport connection.
#[derive(Clone, Copy, Debug, PartialEq, Eq, Structural)]
pub struct ConnectionRef {
    pub peer: u64,
    pub established: bool,
}

/// The kind of a player of a session.
#[derive(Clone, Copy, Debug, PartialEq, Eq, Structural)]
pub enum PlayerKind {
    Local,
    Remote(ConnectionRef),
    Spectator,
}

/// Identifies a player for the lifetime of a session: its registration index.
#[derive(Clone, Copy, Debug, PartialEq, Eq, Structural, Hash)]
pub struct PlayerHandle {
    pub id: usize,
}

/// Where the scheduler stands.
#[derive(Clone, Copy, Debug, PartialEq, Eq, Structural)]
pub enum SchedulerState {
    Running,
    /// The last tick did not advance: a remote player's confirmations lag
    /// too far behind.
    Stalled,
    /// Terminal: a snapshot needed for a rollback was gone.
    Faulted,
}

/// What a tick reports to the host.
#[derive(Clone, Copy, Debug, PartialEq, Eq, Structural)]
pub enum Event {
    FrameAdvanced { frame: u64 },
    RollbackOccurred { from_frame: u64, to_frame: u64 },
    /// The player left the session.
    PlayerDisconnected { handle: PlayerHandle },
    /// The peers' checksums of `frame` disagree.
    Desync { frame: u64 },
    SessionFaulted,
}

/// Why a session could not start.
#[derive(Clone, Copy, Debug, PartialEq, Eq, Structural)]
pub enum StartError {
    /// Fewer than two players that are not spectators.
    NotEnoughPlayers,
    /// A remote player's connection is not established.
    ConnectionNotEstablished,
    /// The snapshot ring cannot cover the largest rollback the prediction
    /// window allows: it needs more than `max_prediction_window` slots.
    SnapshotRingTooSmall,
}

/// Why an input was not taken.
#[derive(Clone, Copy, Debug, PartialEq, Eq, Structural)]
pub enum InputError {
    /// No player has this handle.
    UnknownPlayer,
    /// The player is not of the kind that gives this input.
    WrongPlayerKind,
    /// The frame is already confirmed for this player; the input is dropped.
    OutOfOrderInput,
    /// Frames before this one are still missing for this player.
    FrameGap,
}

/// Tunable parameters of a session.
#[derive(Clone, Copy, Debug, PartialEq, Eq, Structural)]
pub struct SessionConfig {
    /// How many frames the simulation may run ahead of the slowest remote
    /// player's last confirmed frame.
    pub max_prediction_window: u64,
    /// How many snapshots the ring retains.
    pub snapshot_capacity: usize,
    /// How many checksum mismatches in a row are reported and tolerated;
    /// one more faults the session.
    pub desync_tolerance: u32,
}

/// Whether `k` is a player that takes part in the simulation.
pub open spec fn is_participant(k: PlayerKind) -> bool {
    !(k is Spectator)
}

/// The number of participants among `ks`.
pub open spec fn participants(ks: Seq<PlayerKind>) -> nat
    decreases ks.len(),
{
    if ks.len() == 0 {
        0
    } else {
        participants(ks.drop_last()) + if is_participant(ks.last()) {
            1nat
        } else {
            0
        }
    }
}

/// Whether `k` is a remote player whose connection is established.
pub open spec fn connected_remote(k: PlayerKind) -> bool {
    match k {
        PlayerKind::Remote(c) => c.established,
        _ => false,
    }
}

/// Whether `k` is a remote player whose connection is not established.
pub open spec fn unconnected(k: PlayerKind) -> bool {
    match k {
        PlayerKind::Remote(c) => !c.established,
        _ => false,
    }
}

/// The error that `start` gives for these players and this configuration.
pub open spec fn start_error(ks: Seq<PlayerKind>, config: SessionConfig) -> Option<StartError> {
    if participants(ks) < 2 {
        Some(StartError::NotEnoughPlayers)
    } else if exists|i: int| 0 <= i < ks.len() && unconnected(#[trigger] ks[i]) {
        Some(StartError::ConnectionNotEstablished)
    } else if config.snapshot_capacity <= config.max_prediction_window {
        Some(StartError::SnapshotRingTooSmall)
    } else {
        None
    }
}

/// Collects players before a session starts.
pub struct SessionBuilder {
    pub players: Vec<PlayerKind>,
}

impl SessionBuilder {
    /// A builder with no players.
    pub fn new() -> (r: SessionBuilder)
        ensures
            r.players@ == Seq::<PlayerKind>::empty(),
    {
        SessionBuilder { players: Vec::new() }
    }

    /// Registers a player; its handle is its index of registration.
    pub fn add_player(&mut self, kind: PlayerKind) -> (r: PlayerHandle)
        ensures
            final(self).players@ == old(self).players@.push(kind),
            r.id == old(self).players@.len(),
    {
        let id = self.players.len();
        self.players.push(kind);
        PlayerHandle { id }
    }

    /// The number of players that are not spectators.
    fn count_participants(&self) -> (r: usize)
        ensures
            r == participants(self.players@),
    {
        let mut n: usize = 0;
        let mut i: usize = 0;
        while i < self.players.len()
            invariant
                i <= self.players@.len(),
                n == participants(self.players@.subrange(0, i as int)),
                n <= i,
            decreases self.players@.len() - i,
        {
            assert(self.players@.subrange(0, i + 1).drop_last() =~= self.players@.subrange(
                0,
                i as int,
            ));
            if !matches!(self.players[i], PlayerKind::Spectator) {
                n = n + 1;
            }
            i = i + 1;
        }
        assert(self.players@.subrange(0, i as int) =~= self.players@);
        n
    }

    /// Starts the session from `initial`, which becomes the state of frame 0.
    pub fn start<G: Game>(self, config: SessionConfig, initial: G::State) -> (r: Result<
        Session<G>,
        StartError,
    >)
        ensures
            start_error(self.players@, config) matches Some(e) ==> r == Err::<Session<G>, StartError>(
                e,
            ),
            start_error(self.players@, config).is_none() ==> (r matches Ok(s) && {
                &&& s.wf()
                &&& s.kinds() == self.players@
                &&& s.frame() == 0
                &&& s.init_state() == initial
                &&& s.status() == SchedulerState::Running
                &&& s.window() == config.max_prediction_window
                &&& s.tolerance() == config.desync_tolerance
                &&& s.mismatch_count() == 0
                &&& forall|p: int| 0 <= p < s.kinds().len() ==> s.confirmed(p).len() == 0
            }),
    {
        let count = self.count_participants();
        if count < 2 {
            return Err(StartError::NotEnoughPlayers);
        }
        let mut i: usize = 0;
        while i < self.players.len()
            invariant
                i <= self.players@.len(),
                participants(self.players@) >= 2,
                forall|j: int| 0 <= j < i ==> !unconnected(#[trigger] self.players@[j]),
            decreases self.players@.len() - i,
        {
            if let PlayerKind::Remote(c) = self.players[i] {
                if !c.established {
                    assert(unconnected(self.players@[i as int]));
                    return Err(StartError::ConnectionNotEstablished);
                }
            }
            i = i + 1;
        }
        if (config.snapshot_capacity as u128) <= (config.max_prediction_window as u128) {
            return Err(StartError::SnapshotRingTooSmall);
        }
        assert(!(exists|i: int| 0 <= i < self.players@.len() && unconnected(#[trigger] self.players@[i])));
        assert(start_error(self.players@, config).is_none());
        let n = self.players.len();
        let mut queues: Vec<InputQueue> = Vec::new();
        let mut j: usize = 0;
        while j < n
            invariant
                j <= n,
                queues@.len() == j,
                forall|p: int| 0 <= p < j ==> (#[trigger] queues@[p])@.len() == 0,
            decreases n - j,
        {
            queues.push(InputQueue::new());
            j = j + 1;
        }
        let mut store: SnapshotStore<G::State> = SnapshotStore::new(config.snapshot_capacity);
        let saved = store.save(0, initial);
        let s: Session<G> = Session {
            players: self.players,
            queues,
            store,
            used: Vec::new(),
            checked: 0,
            max_prediction_window: config.max_prediction_window,
            status: SchedulerState::Running,
            desync_tolerance: config.desync_tolerance,
            mismatches: 0,
            init: Ghost(initial),
        };
        proof {
            assert forall|g: int| #[trigger] s.store.holds(g) implies s.store.state_of(g) == run::<G>(
                s.init@,
                s.used_view(),
                g as nat,
            ) by {
                lemma_held_bounds(s.store, g);
            }
        }
        Ok(s)
    }
}

/// A started session driving a simulation `G`.
pub struct Session<G: Game> {
    players: Vec<PlayerKind>,
    queues: Vec<InputQueue>,
    store: SnapshotStore<G::State>,
    /// The inputs each simulated frame was run with, one per player.
    used: Vec<Vec<PlayerInputFrame>>,
    /// Frames below this were run with every player's confirmed input.
    checked: usize,
    max_prediction_window: u64,
    status: SchedulerState,
    desync_tolerance: u32,
    /// Checksum mismatches in a row.
    mismatches: u32,
    init: Ghost<G::State>,
}

impl<G: Game> Session<G> {
    /// The players' kinds, by handle.
    pub closed spec fn kinds(&self) -> Seq<PlayerKind> {
        self.players@
    }

    /// The confirmed inputs of player `p`.
    pub closed spec fn confirmed(&self, p: int) -> Seq<PlayerInputFrame> {
        self.queues@[p]@
    }

    /// The number of frames simulated: the frame in progress.
    pub closed spec fn frame(&self) -> int {
        self.used@.len() as int
    }

    /// The inputs that frame `f` was simulated with.
    pub closed spec fn used_view(&self) -> Seq<Seq<PlayerInputFrame>> {
        self.used@.map_values(|v: Vec<PlayerInputFrame>| v@)
    }

    /// The state the session started from.
    pub closed spec fn init_state(&self) -> G::State {
        self.init@
    }

    /// The scheduler's state.
    pub closed spec fn status(&self) -> SchedulerState {
        self.status
    }

    /// The prediction window.
    pub closed spec fn window(&self) -> u64 {
        self.max_prediction_window
    }

    /// How many checksum mismatches in a row are tolerated.
    pub closed spec fn tolerance(&self) -> u32 {
        self.desync_tolerance
    }

    /// Checksum mismatches in a row so far.
    pub closed spec fn mismatch_count(&self) -> u32 {
        self.mismatches
    }

    /// The snapshot ring.
    pub closed spec fn snapshots(&self) -> SnapshotStore<G::State> {
        self.store
    }

    /// The current state: the snapshot of the frame in progress.
    pub open spec fn current_state(&self) -> G::State {
        self.snapshots().state_of(self.frame())
    }

    /// Whether a remote player's confirmations lag so far behind that the
    /// session must not advance: the frame in progress is more than the
    /// prediction window past the player's last confirmed frame.
    pub open spec fn must_stall(&self) -> bool {
        exists|p: int|
            0 <= p < self.kinds().len() && connected_remote(#[trigger] self.kinds()[p]) && self.frame()
                >= self.confirmed(p).len() + self.window()
    }

    /// Every simulated frame that has a confirmed input of a player was run
    /// with that input.
    pub open spec fn consistent(&self) -> bool {
        forall|f: int, p: int|
            0 <= f < self.frame() && 0 <= p < self.kinds().len() && f < self.confirmed(p).len()
                ==> #[trigger] self.used_view()[f][p] == #[trigger] self.confirmed(p)[f]
    }

    /// The session's invariant.
    pub closed spec fn wf(&self) -> bool {
        let n = self.players@.len();
        &&& self.queues@.len() == n
        &&& self.store.wf()
        &&& self.store.cap() > self.max_prediction_window
        &&& self.store.latest_spec() == Some(self.used@.len() as u64)
        &&& self.used@.len() < u64::MAX
        &&& forall|f: int| 0 <= f < self.used@.len() ==> (#[trigger] self.used@[f])@.len() == n
        &&& forall|g: int|
            #[trigger] self.store.holds(g) ==> self.store.state_of(g) == run::<G>(
                self.init@,
                self.used_view(),
                g as nat,
            )
        &&& self.checked <= self.used@.len()
        &&& forall|p: int| 0 <= p < n ==> self.checked <= (#[trigger] self.queues@[p])@.len()
        &&& forall|f: int, p: int|
            #![trigger self.used@[f]@[p]]
            0 <= f < self.checked && 0 <= p < n ==> self.used@[f]@[p] == self.queues@[p]@[f]
    }

    /// The session's state is the run of the simulation from the initial
    /// state over the inputs each frame was run with.
    pub proof fn lemma_state_is_run(&self)
        requires
            self.wf(),
        ensures
            self.snapshots().holds(self.frame()),
            self.current_state() == run::<G>(self.init_state(), self.used_view(), self.frame() as nat),
    {
        lemma_latest_held(self.store);
    }

    /// The frame in progress.
    pub fn current_frame(&self) -> (r: u64)
        requires
            self.wf(),
        ensures
            r == self.frame(),
    {
        self.used.len() as u64
    }

    /// The scheduler's state.
    pub fn state(&self) -> (r: SchedulerState)
        ensures
            r == self.status(),
    {
        self.status
    }

    /// The state of the frame in progress.
    pub fn current_game_state(&self) -> (r: &G::State)
        requires
            self.wf(),
        ensures
            *r == self.current_state(),
    {
        proof {
            lemma_latest_held(self.store);
        }
        match self.store.load(self.used.len() as u64) {
            Ok(s) => s,
            Err(_) => vstd::pervasive::unreached(),
        }
    }

    /// Everything but player `p`'s confirmed inputs is as in `old`, and
    /// those are `c`.
    pub open spec fn only_confirmed_changed(&self, old: &Self, p: int, c: Seq<PlayerInputFrame>) -> bool {
        &&& self.kinds() == old.kinds()
        &&& self.frame() == old.frame()
        &&& self.used_view() == old.used_view()
        &&& self.init_state() == old.init_state()
        &&& self.status() == old.status()
        &&& self.window() == old.window()
        &&& self.tolerance() == old.tolerance()
        &&& self.mismatch_count() == old.mismatch_count()
        &&& self.snapshots() == old.snapshots()
        &&& self.confirmed(p) == c
        &&& forall|q: int| 0 <= q < self.kinds().len() && q != p ==> #[trigger] self.confirmed(q) == old.confirmed(q)
    }

    /// Records a confirmed input of player `p` at `frame`.
    fn confirm(&mut self, p: usize, frame: u64, input: PlayerInputFrame) -> (r: Result<(), InputError>)
        requires
            old(self).wf(),
            p < old(self).kinds().len(),
        ensures
            final(self).wf(),
            (frame as int) < old(self).confirmed(p as int).len() <==> r == Err::<(), InputError>(InputError::OutOfOrderInput),
            (frame as int) > old(self).confirmed(p as int).len() <==> r == Err::<(), InputError>(InputError::FrameGap),
            (frame as int) == old(self).confirmed(p as int).len() <==> r.is_ok(),
            r.is_ok() ==> final(self).only_confirmed_changed(old(self), p as int, old(self).confirmed(p as int).push(input)),
            r.is_err() ==> *final(self) == *old(self),
    {
        let len = self.queues[p].confirmed_len();
        if (frame as u128) < (len as u128) {
            return Err(InputError::OutOfOrderInput);
        }
        if (frame as u128) > (len as u128) {
            return Err(InputError::FrameGap);
        }
        let res = self.queues[p].push_confirmed(frame, input);
        proof {
            assert(res.is_ok());
            assert forall|q: int| 0 <= q < self.players@.len() implies self.checked <= (
            #[trigger] self.queues@[q])@.len() by {
                assert(self.checked <= old(self).queues@[q]@.len());
                if q != p {
                    assert(self.queues@[q] == old(self).queues@[q]);
                }
            }
            assert forall|f: int, q: int|
                #![trigger self.used@[f]@[q]]
                0 <= f < self.checked && 0 <= q < self.players@.len() implies self.used@[f]@[q]
                    == self.queues@[q]@[f] by {
                assert(old(self).used@[f]@[q] == old(self).queues@[q]@[f]);
                if q == p {
                    assert(self.queues@[q]@[f] == old(self).queues@[q]@[f]);
                } else {
                    assert(self.queues@[q] == old(self).queues@[q]);
                }
            }
            assert forall|q: int|
                0 <= q < self.queues@.len() && q != p implies #[trigger] self.confirmed(q)
                    == old(self).confirmed(q) by {
                assert(self.queues@[q] == old(self).queues@[q]);
            }
        }
        Ok(())
    }

    /// Records the input of local player `handle` for the frame in progress.
    /// Local input is confirmed at once.
    pub fn add_local_input(&mut self, handle: PlayerHandle, input: PlayerInputFrame) -> (r: Result<(), InputError>)
        requires
            old(self).wf(),
        ensures
            final(self).wf(),
            handle.id >= old(self).kinds().len() <==> r == Err::<(), InputError>(InputError::UnknownPlayer),
            handle.id < old(self).kinds().len() ==> {
                let p = handle.id as int;
                let c = old(self).confirmed(p);
                &&& !(old(self).kinds()[p] is Local) <==> r == Err::<(), InputError>(InputError::WrongPlayerKind)
                &&& old(self).kinds()[p] is Local ==> {
                    &&& old(self).frame() < c.len() <==> r == Err::<(), InputError>(InputError::OutOfOrderInput)
                    &&& old(self).frame() > c.len() <==> r == Err::<(), InputError>(InputError::FrameGap)
                    &&& r.is_ok() ==> final(self).only_confirmed_changed(old(self), p, c.push(input))
                }
            },
            r.is_err() ==> *final(self) == *old(self),
    {
        if handle.id >= self.players.len() {
            return Err(InputError::UnknownPlayer);
        }
        match self.players[handle.id] {
            PlayerKind::Local => {},
            _ => {
                return Err(InputError::WrongPlayerKind);
            },
        }
        let frame = self.used.len() as u64;
        self.confirm(handle.id, frame, input)
    }

    /// Records an input of remote player `handle` received for `frame`. A
    /// late duplicate is refused as out of order and changes nothing; a
    /// disconnected player gives no more input.
    pub fn add_remote_input(&mut self, handle: PlayerHandle, frame: u64, input: PlayerInputFrame) -> (r: Result<(), InputError>)
        requires
            old(self).wf(),
        ensures
            final(self).wf(),
            handle.id >= old(self).kinds().len() <==> r == Err::<(), InputError>(InputError::UnknownPlayer),
            handle.id < old(self).kinds().len() ==> {
                let p = handle.id as int;
                let c = old(self).confirmed(p);
                &&& !connected_remote(old(self).kinds()[p]) <==> r == Err::<(), InputError>(InputError::WrongPlayerKind)
                &&& connected_remote(old(self).kinds()[p]) ==> {
                    &&& frame < c.len() <==> r == Err::<(), InputError>(InputError::OutOfOrderInput)
                    &&& frame > c.len() <==> r == Err::<(), InputError>(InputError::FrameGap)
                    &&& r.is_ok() ==> final(self).only_confirmed_changed(old(self), p, c.push(input))
                }
            },
            r.is_err() ==> *final(self) == *old(self),
    {
        if handle.id >= self.players.len() {
            return Err(InputError::UnknownPlayer);
        }
        match self.players[handle.id] {
            PlayerKind::Remote(c) => {
                if !c.established {
                    return Err(InputError::WrongPlayerKind);
                }
            },
            _ => {
                return Err(InputError::WrongPlayerKind);
            },
        }
        self.confirm(handle.id, frame, input)
    }

    /// The inputs of every player for frame `f`, confirmed or predicted.
    pub open spec fn inputs_for(&self, f: int) -> Seq<PlayerInputFrame> {
        Seq::new(self.kinds().len(), |p: int| input_at(self.confirmed(p), f))
    }

    /// Gathers the inputs of every player for frame `f`.
    fn gather_inputs(&self, f: u64) -> (r: Vec<PlayerInputFrame>)
        requires
            self.queues@.len() == self.players@.len(),
        ensures
            r@ == self.inputs_for(f as int),
    {
        let mut r: Vec<PlayerInputFrame> = Vec::new();
        let mut p: usize = 0;
        while p < self.queues.len()
            invariant
                self.queues@.len() == self.players@.len(),
                p <= self.queues@.len(),
                r@.len() == p,
                forall|q: int| 0 <= q < p ==> r@[q] == input_at(#[trigger] self.confirmed(q), f as int),
            decreases self.queues@.len() - p,
        {
            let (input, _) = self.queues[p].get(f);
            r.push(input);
            p = p + 1;
        }
        assert(r@ =~= self.inputs_for(f as int));
        r
    }

    /// Whether frame `f` was run with an input that differs from a
    /// confirmed input of some player.
    pub open spec fn mispredicted(&self, f: int) -> bool {
        exists|p: int|
            0 <= p < self.kinds().len() && f < self.confirmed(p).len() && #[trigger] self.used_view()[f][p]
                != self.confirmed(p)[f]
    }

    /// Frame `m` is the earliest mispredicted frame.
    pub open spec fn first_mispredicted(&self, m: int) -> bool {
        &&& 0 <= m < self.frame()
        &&& self.mispredicted(m)
        &&& forall|f: int| 0 <= f < m ==> !#[trigger] self.mispredicted(f)
    }

    /// Some simulated frame was mispredicted.
    pub open spec fn any_mispredicted(&self) -> bool {
        exists|f: int| 0 <= f < self.frame() && #[trigger] self.mispredicted(f)
    }

    /// Frames below `checked` were run with confirmed inputs.
    proof fn lemma_checked_not_mispredicted(&self, f: int)
        requires
            self.wf(),
            0 <= f < self.checked,
        ensures
            !self.mispredicted(f),
    {
        assert forall|p: int| 0 <= p < self.kinds().len() implies !(f < self.confirmed(p).len()
            && #[trigger] self.used_view()[f][p] != self.confirmed(p)[f]) by {
            assert(self.used@[f]@[p] == self.queues@[p]@[f]);
        }
    }

    /// The first frame at or after `checked` that was mispredicted.
    fn first_mismatch(&self) -> (r: Option<usize>)
        requires
            self.wf(),
        ensures
            r matches Some(m) ==> self.checked <= m < self.frame() && self.mispredicted(m as int),
            forall|f: int|
                self.checked <= f < (match r {
                    Some(m) => m as int,
                    None => self.frame(),
                }) ==> !#[trigger] self.mispredicted(f),
    {
        let mut f: usize = self.checked;
        while f < self.used.len()
            invariant
                self.wf(),
                self.checked <= f <= self.used@.len(),
                forall|g: int| self.checked <= g < f ==> !#[trigger] self.mispredicted(g),
            decreases self.used@.len() - f,
        {
            let mut p: usize = 0;
            while p < self.queues.len()
                invariant
                    self.wf(),
                    self.checked <= f < self.used@.len(),
                    forall|g: int| self.checked <= g < f ==> !#[trigger] self.mispredicted(g),
                    p <= self.queues@.len(),
                    forall|q: int|
                        0 <= q < p && f < self.confirmed(q).len() ==> #[trigger] self.used_view()[f as int][q]
                            == self.confirmed(q)[f as int],
                decreases self.queues@.len() - p,
            {
                let (c, predicted) = self.queues[p].get(f as u64);
                assert(self.used_view()[f as int] == self.used@[f as int]@);
                if !predicted && self.used[f][p] != c {
                    return Some(f);
                }
                p = p + 1;
            }
            f = f + 1;
        }
        None
    }

    /// Reruns the frames from `from` up to the frame in progress, each with
    /// the inputs now known for it, starting from the snapshot of `from`.
    fn resimulate(&mut self, from: usize)
        requires
            old(self).wf(),
            old(self).checked <= from < old(self).frame(),
            old(self).store.holds(from as int),
        ensures
            final(self).wf(),
            final(self).players == old(self).players,
            final(self).queues == old(self).queues,
            final(self).checked == old(self).checked,
            final(self).max_prediction_window == old(self).max_prediction_window,
            final(self).status == old(self).status,
            final(self).desync_tolerance == old(self).desync_tolerance,
            final(self).mismatches == old(self).mismatches,
            final(self).init == old(self).init,
            final(self).frame() == old(self).frame(),
            forall|g: int| 0 <= g < from ==> #[trigger] final(self).used_view()[g] == old(self).used_view()[g],
            forall|g: int| from <= g < final(self).frame() ==> #[trigger] final(self).used_view()[g] == final(self).inputs_for(g),
    {
        let cur = self.used.len();
        let mut f: usize = from;
        let ghost n = self.players@.len();
        let ghost old_view = self.used_view();
        while f < cur
            invariant
                from <= f <= cur,
                cur == self.used@.len(),
                cur < u64::MAX,
                self.players == old(self).players,
                self.queues == old(self).queues,
                self.checked == old(self).checked,
                self.max_prediction_window == old(self).max_prediction_window,
                self.status == old(self).status,
                self.desync_tolerance == old(self).desync_tolerance,
                self.mismatches == old(self).mismatches,
                self.init == old(self).init,
                n == self.players@.len(),
                self.queues@.len() == n,
                old(self).wf(),
                old_view == old(self).used_view(),
                self.store.wf(),
                self.store.cap() == old(self).store.cap(),
                self.store.latest_spec() == Some(cur as u64),
                self.store.holds(f as int),
                forall|g: int| 0 <= g < cur ==> (#[trigger] self.used@[g])@.len() == n,
                forall|g: int| 0 <= g < from ==> #[trigger] self.used_view()[g] == old_view[g],
                forall|g: int| from <= g < f ==> #[trigger] self.used_view()[g] == self.inputs_for(g),
                forall|g: int|
                    #[trigger] self.store.holds(g) && g <= f ==> self.store.state_of(g) == run::<G>(
                        self.init@,
                        self.used_view(),
                        g as nat,
                    ),
            decreases cur - f,
        {
            let inputs = self.gather_inputs(f as u64);
            let next = match self.store.load(f as u64) {
                Ok(state) => G::advance(state, &inputs),
                Err(_) => vstd::pervasive::unreached(),
            };
            let ghost prev_view = self.used_view();
            let ghost prev_store = self.store;
            let ghost in_view = inputs@;
            self.used.set(f, inputs);
            proof {
                assert(self.used_view() =~= prev_view.update(f as int, in_view));
                lemma_determinism::<G>(self.init@, prev_view, self.used_view(), f as nat);
                lemma_held_bounds(self.store, f as int);
            }
            let saved = self.store.save((f + 1) as u64, next);
            proof {
                assert(saved.is_ok());
                assert(run::<G>(self.init@, self.used_view(), (f + 1) as nat) == G::step(
                    run::<G>(self.init@, self.used_view(), f as nat),
                    self.used_view()[f as int],
                ));
                assert forall|g: int|
                    #[trigger] self.store.holds(g) && g <= f + 1 implies self.store.state_of(g)
                        == run::<G>(self.init@, self.used_view(), g as nat) by {
                    lemma_held_bounds(self.store, g);
                    if g != f + 1 {
                        assert(prev_store.holds(g));
                        assert(run::<G>(self.init@, self.used_view(), g as nat) == run::<G>(
                            self.init@,
                            prev_view,
                            g as nat,
                        ));
                    }
                }
                assert forall|g: int| from <= g < f + 1 implies #[trigger] self.used_view()[g]
                    == self.inputs_for(g) by {
                    if g < f {
                        assert(self.used_view()[g] == prev_view[g]);
                    }
                }
            }
            f = f + 1;
        }
        proof {
            assert forall|g: int| #[trigger] self.store.holds(g) implies self.store.state_of(g) == run::<G>(
                self.init@,
                self.used_view(),
                g as nat,
            ) by {
                lemma_held_bounds(self.store, g);
            }
            assert forall|f: int, p: int|
                #![trigger self.used@[f]@[p]]
                0 <= f < self.checked && 0 <= p < n implies self.used@[f]@[p] == self.queues@[p]@[f] by {
                assert(self.used_view()[f] == old_view[f]);
                assert(old(self).used@[f]@[p] == old(self).queues@[p]@[f]);
            }
        }
    }

    /// Whether a remote player's confirmations lag too far behind.
    fn stall_needed(&self) -> (r: bool)
        requires
            self.wf(),
        ensures
            r == self.must_stall(),
    {
        let cur = self.used.len() as u128;
        let mut p: usize = 0;
        while p < self.players.len()
            invariant
                self.wf(),
                cur == self.frame(),
                p <= self.players@.len(),
                forall|q: int|
                    0 <= q < p ==> !(connected_remote(#[trigger] self.kinds()[q]) && self.frame()
                        >= self.confirmed(q).len() + self.window()),
            decreases self.players@.len() - p,
        {
            if let PlayerKind::Remote(c) = self.players[p] {
                let len = self.queues[p].confirmed_len() as u128;
                if c.established && cur >= len + (self.max_prediction_window as u128) {
                    assert(connected_remote(self.kinds()[p as int]));
                    return true;
                }
            }
            p = p + 1;
        }
        false
    }

    /// Whether frame `f` was run with every player's input confirmed.
    fn frame_is_final(&self, f: usize) -> (r: bool)
        requires
            self.wf(),
            f < self.frame(),
        ensures
            r == forall|p: int|
                0 <= p < self.kinds().len() ==> f < #[trigger] self.confirmed(p).len()
                    && self.used@[f as int]@[p] == self.confirmed(p)[f as int],
    {
        let mut p: usize = 0;
        while p < self.queues.len()
            invariant
                self.wf(),
                f < self.frame(),
                p <= self.queues@.len(),
                forall|q: int|
                    0 <= q < p ==> f < #[trigger] self.confirmed(q).len() && self.used@[f as int]@[q]
                        == self.confirmed(q)[f as int],
            decreases self.queues@.len() - p,
        {
            let (c, predicted) = self.queues[p].get(f as u64);
            if predicted || self.used[f][p] != c {
                assert(!(f < self.confirmed(p as int).len() && self.used@[f as int]@[p as int]
                    == self.confirmed(p as int)[f as int]));
                return false;
            }
            p = p + 1;
        }
        true
    }

    /// Moves `checked` past the frames run with every input confirmed.
    fn advance_checked(&mut self)
        requires
            old(self).wf(),
        ensures
            final(self).wf(),
            final(self).players == old(self).players,
            final(self).queues == old(self).queues,
            final(self).used == old(self).used,
            final(self).store == old(self).store,
            final(self).max_prediction_window == old(self).max_prediction_window,
            final(self).status == old(self).status,
            final(self).init == old(self).init,
            final(self).checked >= old(self).checked,
    {
        while self.checked < self.used.len()
            invariant
                self.wf(),
                self.players == old(self).players,
                self.queues == old(self).queues,
                self.used == old(self).used,
                self.store == old(self).store,
                self.max_prediction_window == old(self).max_prediction_window,
                self.status == old(self).status,
                self.init == old(self).init,
                self.checked >= old(self).checked,
            decreases self.used@.len() - self.checked,
        {
            if !self.frame_is_final(self.checked) {
                return;
            }
            let ghost c = self.checked as int;
            let ghost before = *self;
            self.checked = self.checked + 1;
            proof {
                assert forall|p: int| 0 <= p < self.players@.len() implies self.checked <= (
                #[trigger] self.queues@[p])@.len() by {
                    assert(c < before.confirmed(p).len());
                }
                assert forall|f: int, p: int|
                    #![trigger self.used@[f]@[p]]
                    0 <= f < self.checked && 0 <= p < self.players@.len() implies self.used@[f]@[p]
                        == self.queues@[p]@[f] by {
                    if f == c {
                        assert(c < before.confirmed(p).len());
                    } else {
                        assert(before.used@[f]@[p] == before.queues@[p]@[f]);
                    }
                }
            }
        }
    }

    /// Consistency depends only on the players, the queues and the inputs
    /// used.
    proof fn lemma_consistent_transfer(a: Self, b: Self)
        requires
            a.consistent(),
            a.used == b.used,
            a.queues == b.queues,
            a.players == b.players,
        ensures
            b.consistent(),
    {
        assert forall|f: int, p: int|
            0 <= f < b.frame() && 0 <= p < b.kinds().len() && f < b.confirmed(p).len() implies #[trigger] b.used_view()[f][p]
                == #[trigger] b.confirmed(p)[f] by {
            assert(b.used_view() == a.used_view());
            assert(b.confirmed(p) == a.confirmed(p));
            assert(a.used_view()[f][p] == a.confirmed(p)[f]);
        }
    }

    /// Simulates the frame in progress with the inputs known for it.
    fn step_forward(&mut self)
        requires
            old(self).wf(),
            old(self).frame() + 2 < u64::MAX,
        ensures
            final(self).wf(),
            final(self).players == old(self).players,
            final(self).queues == old(self).queues,
            final(self).checked == old(self).checked,
            final(self).max_prediction_window == old(self).max_prediction_window,
            final(self).status == old(self).status,
            final(self).init == old(self).init,
            final(self).used_view() == old(self).used_view().push(old(self).inputs_for(old(self).frame())),
    {
        let cur = self.used.len();
        let inputs = self.gather_inputs(cur as u64);
        proof {
            lemma_latest_held(self.store);
        }
        let next = match self.store.load(cur as u64) {
            Ok(state) => G::advance(state, &inputs),
            Err(_) => vstd::pervasive::unreached(),
        };
        let ghost prev_view = self.used_view();
        let ghost prev_store = self.store;
        let ghost in_view = inputs@;
        self.used.push(inputs);
        let saved = self.store.save((cur as u64) + 1, next);
        proof {
            assert(saved.is_ok());
            assert(self.used_view() =~= prev_view.push(in_view));
            lemma_determinism::<G>(self.init@, prev_view, self.used_view(), cur as nat);
            assert forall|g: int| #[trigger] self.store.holds(g) implies self.store.state_of(g)
                == run::<G>(self.init@, self.used_view(), g as nat) by {
                lemma_held_bounds(self.store, g);
                if g != cur + 1 {
                    assert(prev_store.holds(g));
                    lemma_held_bounds(prev_store, g);
                    assert(run::<G>(self.init@, self.used_view(), g as nat) == run::<G>(
                        self.init@,
                        prev_view,
                        g as nat,
                    ));
                } else {
                    assert(run::<G>(self.init@, self.used_view(), g as nat) == G::step(
                        run::<G>(self.init@, self.used_view(), cur as nat),
                        self.used_view()[cur as int],
                    ));
                }
            }
            assert forall|f: int, p: int|
                #![trigger self.used@[f]@[p]]
                0 <= f < self.checked && 0 <= p < self.players@.len() implies self.used@[f]@[p]
                    == self.queues@[p]@[f] by {
                assert(self.used@[f] == old(self).used@[f]);
            }
            assert forall|f: int| 0 <= f < self.used@.len() implies (#[trigger] self.used@[f])@.len()
                == self.players@.len() by {
                if f < cur {
                    assert(self.used@[f] == old(self).used@[f]);
                }
            }
        }
    }

    /// Rolls back to the first frame run with an input that differs from
    /// one confirmed since, and resimulates up to the frame in progress.
    /// `None` when the snapshot needed is gone, which faults the session;
    /// else the frame rolled back to, if any.
    fn reconcile(&mut self) -> (r: Option<Option<u64>>)
        requires
            old(self).wf(),
            old(self).status != SchedulerState::Faulted,
        ensures
            final(self).wf(),
            final(self).players == old(self).players,
            final(self).queues == old(self).queues,
            final(self).max_prediction_window == old(self).max_prediction_window,
            final(self).desync_tolerance == old(self).desync_tolerance,
            final(self).mismatches == old(self).mismatches,
            final(self).init == old(self).init,
            final(self).frame() == old(self).frame(),
            r.is_none() ==> final(self).status == SchedulerState::Faulted && final(self).used
                == old(self).used && final(self).store == old(self).store && exists|m: int|
                old(self).first_mispredicted(m) && !old(self).snapshots().holds(m),
            r == Some(None::<u64>) ==> !old(self).any_mispredicted() && final(self).used == old(
                self).used && final(self).store == old(self).store,
            r matches Some(m) ==> final(self).status == old(self).status && final(self).consistent(),
            r matches Some(Some(m)) ==> {
                &&& old(self).first_mispredicted(m as int)
                &&& old(self).snapshots().holds(m as int)
                &&& forall|f: int| 0 <= f < m ==> #[trigger] final(self).used_view()[f] == old(self).used_view()[f]
                &&& forall|f: int| m <= f < final(self).frame() ==> #[trigger] final(self).used_view()[f] == final(self).inputs_for(f)
            },
    {
        let ghost before = *self;
        let found = self.first_mismatch();
        proof {
            assert forall|f: int| 0 <= f < before.checked implies !#[trigger] before.mispredicted(f) by {
                before.lemma_checked_not_mispredicted(f);
            }
        }
        match found {
            Some(m) => {
                assert(before.first_mispredicted(m as int));
                let held = match self.store.load(m as u64) {
                    Ok(_) => true,
                    Err(_) => false,
                };
                if !held {
                    self.status = SchedulerState::Faulted;
                    return None;
                }
                assert(before.snapshots().holds(m as int));
                self.resimulate(m);
                proof {
                    assert forall|f: int, p: int|
                        0 <= f < self.frame() && 0 <= p < self.kinds().len() && f < self.confirmed(
                            p,
                        ).len() implies #[trigger] self.used_view()[f][p] == #[trigger] self.confirmed(
                        p,
                    )[f] by {
                        if f < self.checked {
                            assert(self.used@[f]@[p] == self.queues@[p]@[f]);
                        } else if f < m {
                            assert(!before.mispredicted(f));
                            assert(self.used_view()[f] == before.used_view()[f]);
                        } else {
                            assert(self.used_view()[f] == self.inputs_for(f));
                        }
                    }
                }
                Some(Some(m as u64))
            },
            None => {
                proof {
                    assert forall|f: int, p: int|
                        0 <= f < self.frame() && 0 <= p < self.kinds().len() && f < self.confirmed(
                            p,
                        ).len() implies #[trigger] self.used_view()[f][p] == #[trigger] self.confirmed(
                        p,
                    )[f] by {
                        if f < self.checked {
                            assert(self.used@[f]@[p] == self.queues@[p]@[f]);
                        } else {
                            assert(!before.mispredicted(f));
                        }
                    }
                    assert(!before.any_mispredicted());
                }
                Some(None)
            },
        }
    }

    /// Runs one tick. A frame run with an input that differs from one
    /// confirmed since is rolled back to and resimulated up to the frame in
    /// progress; a missing snapshot for that faults the session. Then the
    /// session stalls if a remote player lags too far behind, and otherwise
    /// simulates the frame in progress and moves to the next one.
    pub fn advance_frame(&mut self) -> (events: Vec<Event>)
        requires
            old(self).wf(),
        ensures
            final(self).wf(),
            final(self).kinds() == old(self).kinds(),
            forall|p: int| #[trigger] final(self).confirmed(p) == old(self).confirmed(p),
            final(self).window() == old(self).window(),
            final(self).init_state() == old(self).init_state(),
            old(self).status() == SchedulerState::Faulted ==> *final(self) == *old(self)
                && events@.len() == 0,
            old(self).status() != SchedulerState::Faulted && final(self).status()
                != SchedulerState::Faulted ==> final(self).consistent(),
            old(self).status() != SchedulerState::Faulted && final(self).status()
                == SchedulerState::Faulted ==> final(self).frame() == old(self).frame()
                && events@.last() == Event::SessionFaulted,
            old(self).status() != SchedulerState::Faulted && final(self).status()
                == SchedulerState::Faulted ==> (old(self).frame() + 3 >= u64::MAX || exists|m: int|
                old(self).first_mispredicted(m) && !old(self).snapshots().holds(m)),
            forall|m: int|
                old(self).status() != SchedulerState::Faulted && #[trigger] old(self).first_mispredicted(m)
                    && !old(self).snapshots().holds(m) ==> final(self).status()
                    == SchedulerState::Faulted && events@ == seq![Event::SessionFaulted],
            old(self).status() != SchedulerState::Faulted && !old(self).any_mispredicted() ==> {
                &&& forall|f: int| 0 <= f < old(self).frame() ==> #[trigger] final(self).used_view()[f] == old(self).used_view()[f]
                &&& old(self).must_stall() ==> final(self).status() == SchedulerState::Stalled
                    && final(self).frame() == old(self).frame() && final(self).current_state()
                    == old(self).current_state() && events@.len() == 0
                &&& !old(self).must_stall() && old(self).frame() + 3 < u64::MAX ==> final(self).status()
                    == SchedulerState::Running && events@ == seq![Event::FrameAdvanced { frame: old(self).frame() as u64 }]
            },
            forall|m: int|
                old(self).status() != SchedulerState::Faulted && #[trigger] old(self).first_mispredicted(m)
                    && old(self).snapshots().holds(m) ==> {
                    &&& events@[0] == (Event::RollbackOccurred { from_frame: m as u64, to_frame: old(self).frame() as u64 })
                    &&& forall|f: int| 0 <= f < m ==> #[trigger] final(self).used_view()[f] == old(self).used_view()[f]
                    &&& forall|f: int| m <= f < old(self).frame() ==> #[trigger] final(self).used_view()[f] == final(self).inputs_for(f)
                    &&& old(self).must_stall() ==> final(self).status() == SchedulerState::Stalled
                        && final(self).frame() == old(self).frame() && events@.len() == 1
                    &&& !old(self).must_stall() && old(self).frame() + 3 < u64::MAX ==> final(self).status()
                        == SchedulerState::Running && events@.len() == 2
                },
            old(self).status() != SchedulerState::Faulted && old(self).must_stall() ==> final(self).frame() == old(self).frame()
                && final(self).status() != SchedulerState::Running && final(self).must_stall(),
            old(self).status() != SchedulerState::Faulted && final(self).status()
                == SchedulerState::Stalled ==> old(self).must_stall(),
            old(self).status() != SchedulerState::Faulted && final(self).status()
                == SchedulerState::Running ==> final(self).frame() == old(self).frame() + 1
                && final(self).used_view()[old(self).frame()] == final(self).inputs_for(old(self).frame())
                && events@.last() == (Event::FrameAdvanced { frame: old(self).frame() as u64 }),
    {
        let mut events: Vec<Event> = Vec::new();
        if let SchedulerState::Faulted = self.status {
            return events;
        }
        let cur = self.used.len();
        let ghost rolled: Option<int> = None;
        match self.reconcile() {
            None => {
                events.push(Event::SessionFaulted);
                assert(events@ =~= seq![Event::SessionFaulted]);
                return events;
            },
            Some(Some(m)) => {
                events.push(Event::RollbackOccurred { from_frame: m, to_frame: cur as u64 });
                proof {
                    rolled = Some(m as int);
                }
            },
            Some(None) => {},
        }
        let ghost mid = *self;
        let ghost ev_mid = events@;
        proof {
            assert(mid.consistent());
            assert(mid.kinds() == old(self).kinds());
            assert(forall|p: int| #[trigger] mid.confirmed(p) == old(self).confirmed(p));
            assert(mid.must_stall() == old(self).must_stall());
        }
        if self.stall_needed() {
            self.status = SchedulerState::Stalled;
            proof {
                Self::lemma_consistent_transfer(mid, *self);
            }
        } else if (cur as u128) + 3 >= (u64::MAX as u128) {
            self.status = SchedulerState::Faulted;
            events.push(Event::SessionFaulted);
        } else {
            self.step_forward();
            assert(self.used_view() == mid.used_view().push(mid.inputs_for(cur as int)));
            self.status = SchedulerState::Running;
            events.push(Event::FrameAdvanced { frame: cur as u64 });
            proof {
                assert forall|f: int, p: int|
                    0 <= f < self.frame() && 0 <= p < self.kinds().len() && f < self.confirmed(
                        p,
                    ).len() implies #[trigger] self.used_view()[f][p] == #[trigger] self.confirmed(
                    p,
                )[f] by {
                    if f < cur {
                        assert(self.used_view()[f] == mid.used_view()[f]);
                        assert(mid.confirmed(p) == self.confirmed(p));
                    } else {
                        assert(self.used_view()[f] == mid.inputs_for(f));
                    }
                }
            }
        }
        proof {
            assert forall|f: int| 0 <= f < cur implies #[trigger] self.used_view()[f] == mid.used_view()[f] by {
                if self.used != mid.used {
                    assert(self.used_view() == mid.used_view().push(mid.inputs_for(cur as int)));
                }
            }
            assert(events@.len() >= ev_mid.len() && (events@.len() > 0 && ev_mid.len() > 0 ==> events@[0] == ev_mid[0]));
        }
        let ghost pre = *self;
        self.advance_checked();
        proof {
            if pre.status != SchedulerState::Faulted {
                assert(pre.consistent());
                Self::lemma_consistent_transfer(pre, *self);
            }
            assert(self.used == pre.used);
            assert(self.kinds() == mid.kinds());
            assert forall|p: int| #[trigger] self.confirmed(p) == mid.confirmed(p) by {}
            assert forall|m: int|
                old(self).status() != SchedulerState::Faulted && #[trigger] old(self).first_mispredicted(m)
                    && old(self).snapshots().holds(m) implies {
                    &&& events@[0] == (Event::RollbackOccurred { from_frame: m as u64, to_frame: old(self).frame() as u64 })
                    &&& forall|f: int| 0 <= f < m ==> #[trigger] self.used_view()[f] == old(self).used_view()[f]
                    &&& forall|f: int| m <= f < old(self).frame() ==> #[trigger] self.used_view()[f] == self.inputs_for(f)
                    &&& old(self).must_stall() ==> self.status() == SchedulerState::Stalled
                        && self.frame() == old(self).frame() && events@.len() == 1
                    &&& !old(self).must_stall() && old(self).frame() + 3 < u64::MAX ==> self.status()
                        == SchedulerState::Running && events@.len() == 2
                } by {
                assert(old(self).any_mispredicted());
                let m0 = rolled.unwrap();
                assert(rolled.is_some());
                if m < m0 {
                    assert(!old(self).mispredicted(m));
                } else if m0 < m {
                    assert(!old(self).mispredicted(m0));
                }
                assert(m == m0);
                assert(self.inputs_for(m) == mid.inputs_for(m));
                assert forall|f: int| m <= f < old(self).frame() implies #[trigger] self.used_view()[f] == self.inputs_for(f) by {
                    assert(self.used_view()[f] == mid.used_view()[f]);
                    assert(self.inputs_for(f) =~= mid.inputs_for(f));
                }
                assert forall|f: int| 0 <= f < m implies #[trigger] self.used_view()[f] == old(self).used_view()[f] by {
                    assert(self.used_view()[f] == mid.used_view()[f]);
                }
            }
        }
        events
    }

    /// The input that player `handle` uses for the frame in progress:
    /// the confirmed one, else the prediction.
    pub fn current_inputs(&self, handle: PlayerHandle) -> (r: Option<PlayerInputFrame>)
        requires
            self.wf(),
        ensures
            handle.id < self.kinds().len() ==> r == Some(input_at(self.confirmed(handle.id as int), self.frame())),
            handle.id >= self.kinds().len() ==> r.is_none(),
    {
        if handle.id >= self.queues.len() {
            return None;
        }
        let (input, _) = self.queues[handle.id].get(self.used.len() as u64);
        Some(input)
    }

    /// Disconnects remote player `handle`: it no longer holds the session
    /// back, and its input is neutral for every frame up to the one in
    /// progress not yet confirmed, and so, by prediction, from then on.
    pub fn disconnect_player(&mut self, handle: PlayerHandle) -> (r: Result<Vec<Event>, InputError>)
        requires
            old(self).wf(),
        ensures
            final(self).wf(),
            handle.id >= old(self).kinds().len() <==> r == Err::<Vec<Event>, InputError>(InputError::UnknownPlayer),
            (handle.id < old(self).kinds().len() && !connected_remote(old(self).kinds()[handle.id as int])) <==> r
                == Err::<Vec<Event>, InputError>(InputError::WrongPlayerKind),
            (handle.id < old(self).kinds().len() && connected_remote(old(self).kinds()[handle.id as int])) <==> r.is_ok(),
            r.is_err() ==> *final(self) == *old(self),
            r matches Ok(events) ==> {
                let p = handle.id as int;
                let c = old(self).confirmed(p);
                &&& handle.id < old(self).kinds().len()
                &&& old(self).kinds()[p] matches PlayerKind::Remote(conn)
                &&& final(self).kinds() == old(self).kinds().update(
                    p,
                    PlayerKind::Remote(ConnectionRef { peer: conn.peer, established: false }),
                )
                &&& events@ == seq![Event::PlayerDisconnected { handle }]
                &&& final(self).frame() == old(self).frame()
                &&& final(self).used_view() == old(self).used_view()
                &&& final(self).snapshots() == old(self).snapshots()
                &&& final(self).status() == old(self).status()
                &&& final(self).window() == old(self).window()
                &&& final(self).init_state() == old(self).init_state()
                &&& forall|q: int| 0 <= q < old(self).kinds().len() && q != p ==> #[trigger] final(self).confirmed(q) == old(self).confirmed(q)
                &&& final(self).confirmed(p).len() == if c.len() >= old(self).frame() { c.len() + 1int } else { old(self).frame() + 1 }
                &&& predicted(final(self).confirmed(p)) == neutral()
                &&& forall|f: int| 0 <= f < c.len() ==> #[trigger] final(self).confirmed(p)[f] == c[f]
                &&& forall|f: int| c.len() <= f < final(self).confirmed(p).len() ==> #[trigger] final(self).confirmed(p)[f] == neutral()
            },
    {
        if handle.id >= self.players.len() {
            return Err(InputError::UnknownPlayer);
        }
        let p = handle.id;
        let conn = match self.players[p] {
            PlayerKind::Remote(c) => {
                if !c.established {
                    return Err(InputError::WrongPlayerKind);
                }
                c
            },
            _ => {
                return Err(InputError::WrongPlayerKind);
            },
        };
        let cur = self.used.len();
        let ghost start = *self;
        let ghost c = self.confirmed(p as int);
        let c_len = self.queues[p].confirmed_len();
        while self.queues[p].confirmed_len() <= cur || self.queues[p].confirmed_len() == c_len
            invariant
                self.wf(),
                p < self.players@.len(),
                self.kinds() == start.kinds(),
                cur == self.frame(),
                self.used_view() == start.used_view(),
                self.snapshots() == start.snapshots(),
                self.status() == start.status(),
                self.window() == start.window(),
                self.tolerance() == start.tolerance(),
                self.mismatch_count() == start.mismatch_count(),
                self.init_state() == start.init_state(),
                c == start.confirmed(p as int),
                forall|q: int| 0 <= q < self.kinds().len() && q != p ==> #[trigger] self.confirmed(q) == start.confirmed(q),
                self.confirmed(p as int).len() >= c.len(),
                c_len == c.len(),
                self.confirmed(p as int).len() <= if c.len() >= cur { c.len() + 1int } else { cur + 1 },
                forall|f: int| 0 <= f < c.len() ==> #[trigger] self.confirmed(p as int)[f] == c[f],
                forall|f: int| c.len() <= f < self.confirmed(p as int).len() ==> #[trigger] self.confirmed(p as int)[f] == neutral(),
            decreases (if c.len() >= cur { c.len() + 1int } else { cur + 1 }) - self.confirmed(p as int).len(),
        {
            let len = self.queues[p].confirmed_len();
            let ghost before = *self;
            let res = self.confirm(p, len as u64, PlayerInputFrame::empty());
            proof {
                assert(res.is_ok());
                assert forall|q: int| 0 <= q < self.kinds().len() && q != p implies #[trigger] self.confirmed(q) == start.confirmed(q) by {
                    assert(self.confirmed(q) == before.confirmed(q));
                }
            }
        }
        let ghost filled = *self;
        self.players.set(p, PlayerKind::Remote(ConnectionRef { peer: conn.peer, established: false }));
        proof {
            assert forall|q: int| 0 <= q < self.kinds().len() implies #[trigger] self.confirmed(q) == filled.confirmed(q) by {
                assert(self.queues == filled.queues);
            }
            assert(self.confirmed(p as int) == filled.confirmed(p as int));
        }
        let mut events: Vec<Event> = Vec::new();
        events.push(Event::PlayerDisconnected { handle });
        assert(events@ =~= seq![Event::PlayerDisconnected { handle }]);
        Ok(events)
    }

    /// The number of players.
    pub fn num_players(&self) -> (r: usize)
        ensures
            r == self.kinds().len(),
    {
        self.players.len()
    }

    /// Correcting a misprediction leaves the state the same as if the
    /// confirmed inputs had been known from the start: after a tick that did
    /// not fault, when every player's input is confirmed for every frame run
    /// so far, the current state is the run of the confirmed inputs.
    pub proof fn lemma_rollback_correct(&self, confirmed_inputs: Seq<Seq<PlayerInputFrame>>)
        requires
            self.wf(),
            self.consistent(),
            confirmed_inputs.len() == self.frame(),
            forall|f: int| 0 <= f < self.frame() ==> (#[trigger] confirmed_inputs[f]).len() == self.kinds().len(),
            forall|f: int, p: int|
                0 <= f < self.frame() && 0 <= p < self.kinds().len() ==> f < self.confirmed(p).len()
                    && #[trigger] confirmed_inputs[f][p] == self.confirmed(p)[f],
        ensures
            self.current_state() == run::<G>(self.init_state(), confirmed_inputs, self.frame() as nat),
    {
        assert forall|f: int| 0 <= f < self.frame() implies self.used_view()[f] == confirmed_inputs[f] by {
            assert(self.used_view()[f] =~= confirmed_inputs[f]);
        }
        lemma_determinism::<G>(self.init_state(), self.used_view(), confirmed_inputs, self.frame() as nat);
        self.lemma_state_is_run();
    }

    /// Compares the local and a remote peer's checksums of the state of
    /// `frame`. A mismatch is reported as a desync; more mismatches in a row
    /// than the tolerance fault the session. A match resets the count.
    pub fn report_checksums(&mut self, frame: u64, local: u64, remote: u64) -> (events: Vec<Event>)
        requires
            old(self).wf(),
        ensures
            final(self).wf(),
            final(self).kinds() == old(self).kinds(),
            forall|p: int| #[trigger] final(self).confirmed(p) == old(self).confirmed(p),
            final(self).frame() == old(self).frame(),
            final(self).used_view() == old(self).used_view(),
            final(self).snapshots() == old(self).snapshots(),
            final(self).window() == old(self).window(),
            final(self).init_state() == old(self).init_state(),
            final(self).tolerance() == old(self).tolerance(),
            old(self).status() == SchedulerState::Faulted ==> *final(self) == *old(self)
                && events@.len() == 0,
            old(self).status() != SchedulerState::Faulted && local == remote ==> {
                &&& final(self).mismatch_count() == 0
                &&& final(self).status() == old(self).status()
                &&& events@.len() == 0
            },
            old(self).status() != SchedulerState::Faulted && local != remote ==> {
                &&& final(self).mismatch_count() == if old(self).mismatch_count() < u32::MAX {
                    old(self).mismatch_count() + 1
                } else {
                    old(self).mismatch_count() as int
                }
                &&& events@[0] == (Event::Desync { frame })
                &&& final(self).mismatch_count() > old(self).tolerance() ==> final(self).status()
                    == SchedulerState::Faulted && events@ == seq![Event::Desync { frame }, Event::SessionFaulted]
                &&& final(self).mismatch_count() <= old(self).tolerance() ==> final(self).status()
                    == old(self).status() && events@ == seq![Event::Desync { frame }]
            },
    {
        let mut events: Vec<Event> = Vec::new();
        if let SchedulerState::Faulted = self.status {
            return events;
        }
        if local == remote {
            self.mismatches = 0;
            return events;
        }
        if self.mismatches < u32::MAX {
            self.mismatches = self.mismatches + 1;
        }
        events.push(Event::Desync { frame });
        if self.mismatches > self.desync_tolerance {
            self.status = SchedulerState::Faulted;
            events.push(Event::SessionFaulted);
        }
        assert(events@ =~= seq![Event::Desync { frame }] || events@ =~= seq![Event::Desync { frame }, Event::SessionFaulted]);
        events
    }
}

} // verus!
