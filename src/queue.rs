//! The input queue of one player: the confirmed inputs of frames 0, 1, ...
//! in order, and prediction past them.
use vstd::prelude::*;
use crate::input::PlayerInputFrame;

verus! {

/// Why a confirmed input was not taken.
#[derive(Clone, Copy, Debug, PartialEq, Eq, Structural)]
pub enum QueueError {
    /// The frame is already confirmed: a late duplicate, to be dropped.
    OutOfOrderInput,
    /// Frames between the last confirmed one and this one are still missing.
    FrameGap,
}

/// The neutral input, predicted for a player of whom nothing is known.
pub open spec fn neutral() -> PlayerInputFrame {
    PlayerInputFrame { bits: 0 }
}

/// The prediction after the confirmed inputs `c`: the last of them, or the
/// neutral input when there is none.
pub open spec fn predicted(c: Seq<PlayerInputFrame>) -> PlayerInputFrame {
    if c.len() == 0 {
        neutral()
    } else {
        c.last()
    }
}

/// The input used for frame `f`: the confirmed one, else the prediction.
pub open spec fn input_at(c: Seq<PlayerInputFrame>, f: int) -> PlayerInputFrame {
    if 0 <= f < c.len() {
        c[f]
    } else {
        predicted(c)
    }
}

/// Confirmed inputs of one player; entry `f` is the input of frame `f`.
pub struct InputQueue {
    confirmed: Vec<PlayerInputFrame>,
}

impl View for InputQueue {
    type V = Seq<PlayerInputFrame>;

    closed spec fn view(&self) -> Seq<PlayerInputFrame> {
        self.confirmed@
    }
}

impl InputQueue {
    /// A queue with nothing confirmed.
    pub fn new() -> (r: InputQueue)
        ensures
            r@ == Seq::<PlayerInputFrame>::empty(),
    {
        InputQueue { confirmed: Vec::new() }
    }

    /// How many frames are confirmed: frames `0 .. confirmed_len()`.
    pub fn confirmed_len(&self) -> (r: usize)
        ensures
            r == self@.len(),
    {
        self.confirmed.len()
    }

    /// The highest confirmed frame, if any.
    pub fn last_confirmed(&self) -> (r: Option<u64>)
        ensures
            self@.len() == 0 <==> r.is_none(),
            r matches Some(f) ==> f as int == self@.len() - 1,
    {
        if self.confirmed.len() == 0 {
            None
        } else {
            Some((self.confirmed.len() - 1) as u64)
        }
    }

    /// Records the definitive input of `frame`. A frame already confirmed is
    /// refused as out of order; one past the next expected frame as a gap.
    pub fn push_confirmed(&mut self, frame: u64, input: PlayerInputFrame) -> (r: Result<(), QueueError>)
        ensures
            (frame as int) < old(self)@.len() <==> r == Err::<(), QueueError>(QueueError::OutOfOrderInput),
            (frame as int) > old(self)@.len() <==> r == Err::<(), QueueError>(QueueError::FrameGap),
            (frame as int) == old(self)@.len() <==> r.is_ok(),
            r.is_ok() ==> final(self)@ == old(self)@.push(input),
            r.is_err() ==> *final(self) == *old(self),
    {
        let n = self.confirmed.len();
        if (frame as u128) < (n as u128) {
            Err(QueueError::OutOfOrderInput)
        } else if (frame as u128) > (n as u128) {
            Err(QueueError::FrameGap)
        } else {
            self.confirmed.push(input);
            Ok(())
        }
    }

    /// The prediction for a frame not yet confirmed: the most recently
    /// confirmed input, or the neutral input when none was ever confirmed.
    pub fn predict(&self, frame: u64) -> (r: PlayerInputFrame)
        ensures
            r == predicted(self@),
    {
        let n = self.confirmed.len();
        if n == 0 {
            PlayerInputFrame::empty()
        } else {
            self.confirmed[n - 1]
        }
    }

    /// The input of `frame`, with whether it is a prediction.
    pub fn get(&self, frame: u64) -> (r: (PlayerInputFrame, bool))
        ensures
            r.0 == input_at(self@, frame as int),
            r.1 <==> frame as int >= self@.len(),
    {
        if (frame as u128) < (self.confirmed.len() as u128) {
            (self.confirmed[frame as usize], false)
        } else {
            (self.predict(frame), true)
        }
    }
}

/// Prediction falls back to the neutral input when nothing is confirmed, and
/// otherwise repeats the input confirmed last, at frame `f`, for every frame
/// after it.
pub proof fn lemma_prediction_fallback(c: Seq<PlayerInputFrame>, frame: int)
    requires
        frame >= c.len(),
    ensures
        c.len() == 0 ==> input_at(c, frame) == neutral(),
        c.len() > 0 ==> input_at(c, frame) == c[c.len() - 1],
{
}

} // verus!
