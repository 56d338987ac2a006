//! Joins the progress of two input streams.
//!
//! An operator with two inputs may tell its consumers that a logical time
//! has passed only when it has passed on both inputs. A [`ProgressJoin`]
//! keeps the latest progress marker of each input and says when a marker
//! may go out.
use crate::stream::Timestamp;
use vstd::prelude::*;

verus! {

/// One of the two inputs.
#[derive(Clone, Copy, Debug, PartialEq, Eq, Structural)]
pub enum Side {
    Left,
    Right,
}

/// The later of a marker seen before, if any, and a new one.
pub open spec fn advance(seen: Option<Timestamp>, time: Timestamp) -> Option<Timestamp> {
    match seen {
        Some(before) => if before >= time {
            Some(before)
        } else {
            Some(time)
        },
        None => Some(time),
    }
}

/// The mathematical value of a [`ProgressJoin`].
pub struct ProgressView {
    /// The latest marker seen on the left input.
    pub left: Option<Timestamp>,
    /// The latest marker seen on the right input.
    pub right: Option<Timestamp>,
    /// The latest marker that went out.
    pub forwarded: Option<Timestamp>,
}

impl ProgressView {
    /// No marker was seen and none went out.
    pub open spec fn start() -> ProgressView {
        ProgressView { left: None, right: None, forwarded: None }
    }

    /// The time that has passed on both inputs, if a marker was seen on
    /// each: the earlier of their latest markers.
    pub open spec fn passed(self) -> Option<Timestamp> {
        match (self.left, self.right) {
            (Some(left), Some(right)) => Some(if left <= right { left } else { right }),
            _ => None,
        }
    }

    /// The markers after one at `time` was seen on `side`. A marker that is
    /// earlier than one seen before on that side changes nothing.
    pub open spec fn seen(self, side: Side, time: Timestamp) -> ProgressView {
        match side {
            Side::Left => ProgressView { left: advance(self.left, time), ..self },
            Side::Right => ProgressView { right: advance(self.right, time), ..self },
        }
    }

    /// The marker that goes out when one at `time` is seen on `side`: the
    /// time that has then passed on both inputs, if there is one and it is
    /// later than the last marker that went out.
    pub open spec fn emits(self, side: Side, time: Timestamp) -> Option<Timestamp> {
        match self.seen(side, time).passed() {
            Some(low) => match self.forwarded {
                Some(last) => if low > last {
                    Some(low)
                } else {
                    None
                },
                None => Some(low),
            },
            None => None,
        }
    }

    /// The state after a marker at `time` was seen on `side`.
    pub open spec fn observe(self, side: Side, time: Timestamp) -> ProgressView {
        let seen = self.seen(side, time);
        match self.emits(side, time) {
            Some(low) => ProgressView { forwarded: Some(low), ..seen },
            None => seen,
        }
    }

    /// No marker went out that has not passed on both inputs.
    pub open spec fn wf(self) -> bool {
        match self.forwarded {
            Some(last) => match self.passed() {
                Some(low) => last <= low,
                None => false,
            },
            None => true,
        }
    }
}

/// The progress of two inputs, joined.
pub struct ProgressJoin {
    left: Option<Timestamp>,
    right: Option<Timestamp>,
    forwarded: Option<Timestamp>,
}

impl View for ProgressJoin {
    type V = ProgressView;

    closed spec fn view(&self) -> ProgressView {
        ProgressView { left: self.left, right: self.right, forwarded: self.forwarded }
    }
}

fn later(seen: Option<Timestamp>, time: Timestamp) -> (latest: Option<Timestamp>)
    ensures
        latest == advance(seen, time),
{
    match seen {
        Some(before) => if before >= time {
            Some(before)
        } else {
            Some(time)
        },
        None => Some(time),
    }
}

impl ProgressJoin {
    pub fn new() -> (join: Self)
        ensures
            join@ == ProgressView::start(),
            join@.wf(),
    {
        ProgressJoin { left: None, right: None, forwarded: None }
    }

    /// The latest marker seen on `side`.
    pub fn latest(&self, side: Side) -> (time: Option<Timestamp>)
        ensures
            time == match side {
                Side::Left => self@.left,
                Side::Right => self@.right,
            },
    {
        match side {
            Side::Left => self.left,
            Side::Right => self.right,
        }
    }

    /// The latest marker that went out.
    pub fn forwarded(&self) -> (time: Option<Timestamp>)
        ensures
            time == self@.forwarded,
    {
        self.forwarded
    }

    /// Takes note of a marker at `time` on `side` and returns the marker to
    /// send on the output, if one is due.
    pub fn observe(&mut self, side: Side, time: Timestamp) -> (marker: Option<Timestamp>)
        ensures
            marker == old(self)@.emits(side, time),
            final(self)@ == old(self)@.observe(side, time),
            old(self)@.wf() ==> final(self)@.wf(),
    {
        match side {
            Side::Left => {
                self.left = later(self.left, time);
            },
            Side::Right => {
                self.right = later(self.right, time);
            },
        }
        let low = match (self.left, self.right) {
            (Some(left), Some(right)) => if left <= right {
                left
            } else {
                right
            },
            _ => {
                return None;
            },
        };
        let due = match self.forwarded {
            Some(last) => low > last,
            None => true,
        };
        if due {
            self.forwarded = Some(low);
            Some(low)
        } else {
            None
        }
    }
}

/// A marker goes out only when its time has passed on both inputs: when one
/// goes out, a marker at that time or later was seen on the left and one on
/// the right. While one input has seen no marker, none goes out.
pub proof fn lemma_join_waits_for_both(progress: ProgressView, side: Side, time: Timestamp)
    ensures
        match progress.emits(side, time) {
            Some(marker) => {
                let after = progress.observe(side, time);
                &&& after.left matches Some(left) && left >= marker
                &&& after.right matches Some(right) && right >= marker
                &&& after.forwarded == Some(marker)
            },
            None => progress.observe(side, time).forwarded == progress.forwarded,
        },
        side == Side::Left && progress.right is None ==> progress.emits(side, time) is None,
        side == Side::Right && progress.left is None ==> progress.emits(side, time) is None,
{
}

/// The markers that go out get later and later: one that goes out is later
/// than every marker that went out before it.
pub proof fn lemma_markers_increase(progress: ProgressView, side: Side, time: Timestamp)
    requires
        progress.wf(),
    ensures
        progress.observe(side, time).wf(),
        match (progress.forwarded, progress.emits(side, time)) {
            (Some(last), Some(marker)) => last < marker,
            _ => true,
        },
{
}

} // verus!
