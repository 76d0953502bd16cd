//! The latency chart's data: a rolling window of plotted points and the axis
//! ranges derived from them. Drawing itself is left to whatever canvas the
//! caller uses; everything that decides *what* is drawn is here.

use std::collections::VecDeque;
use std::ops::Range;
use vstd::prelude::*;

verus! {

/// How many points the rolling time window keeps when no connection ceiling
/// bounds the horizontal axis.
pub const X_AXIS: u64 = 60;

/// The chart's state: a running point index, the plotted points (index or
/// connection count, paired with a latency), and the horizontal ceiling in
/// ramp-up mode.
pub struct ConnectionChart {
    pub index: u64,
    pub data_points: VecDeque<(u64, u64)>,
    pub max_connections: Option<u64>,
}

impl Default for ConnectionChart {
    fn default() -> (r: ConnectionChart)
        ensures
            r.index == 1,
            r.data_points@ == Seq::<(u64, u64)>::empty(),
            r.max_connections is None,
    {
        ConnectionChart { index: 1, data_points: VecDeque::new(), max_connections: None }
    }
}

/// What the plotted points look like after one new latency arrives: in the
/// unbounded (time) view the window first drops its oldest point once the
/// index has moved past the window width.
pub open spec fn spec_points_after(c: ConnectionChart, data: u64) -> Seq<(u64, u64)> {
    let base = if c.max_connections is None && c.index > X_AXIS && c.data_points@.len() > 0 {
        c.data_points@.drop_first()
    } else {
        c.data_points@
    };
    base.push((c.index, data))
}

/// The largest plotted latency, or 50 for an empty chart.
pub open spec fn spec_y_max(s: Seq<(u64, u64)>) -> int
    decreases s.len(),
{
    if s.len() == 0 {
        50
    } else if s.len() == 1 {
        s[0].1 as int
    } else {
        let rest = spec_y_max(s.drop_last());
        if s.last().1 as int > rest {
            s.last().1 as int
        } else {
            rest
        }
    }
}

/// The top of the vertical axis: the largest latency with three tenths of
/// headroom above it, saturating at the largest representable value.
pub open spec fn spec_y_upper(m: int) -> int {
    if m <= u64::MAX as int / 13 {
        m * 13 / 10
    } else {
        u64::MAX as int
    }
}

impl ConnectionChart {
    /// Forgets every plotted point and restarts the point index.
    pub fn clear(&mut self)
        ensures
            final(self).index == 1,
            final(self).data_points@ == Seq::<(u64, u64)>::empty(),
            final(self).max_connections == old(self).max_connections,
    {
        self.index = 1;
        self.data_points.clear();
    }

    /// Plots one new latency at the current index and advances the index;
    /// without a connection ceiling the window drops its oldest point once
    /// the index has moved past the window width.
    pub fn update(&mut self, data: u64)
        requires
            old(self).index < u64::MAX,
        ensures
            final(self).index == old(self).index + 1,
            final(self).max_connections == old(self).max_connections,
            final(self).data_points@ == spec_points_after(*old(self), data),
    {
        if self.max_connections.is_none() && self.index > X_AXIS {
            let dropped = self.data_points.pop_front();
            proof {
                if old(self).data_points@.len() == 0 {
                    assert(self.data_points@ =~= old(self).data_points@);
                }
            }
        }
        self.data_points.push_back((self.index, data));
        self.index = self.index + 1;
    }

    /// The horizontal axis: the full span up to the connection ceiling when
    /// there is one, else the window from the oldest plotted index to the
    /// newest (at least the window width).
    pub fn x_range(&self) -> (r: Range<u64>)
        ensures
            self.max_connections is Some ==> r.start == 1 && r.end == self.max_connections->0,
            self.max_connections is None ==> r.start == (if self.data_points@.len() > 0 {
                self.data_points@[0].0
            } else {
                1u64
            }),
            self.max_connections is None ==> r.end == ({
                let back = if self.data_points@.len() > 0 {
                    self.data_points@.last().0
                } else {
                    X_AXIS
                };
                if back > X_AXIS {
                    back
                } else {
                    X_AXIS
                }
            }),
    {
        match self.max_connections {
            Some(val) => 1..val,
            None => {
                let front = if self.data_points.len() > 0 {
                    self.data_points[0].0
                } else {
                    1
                };
                let back = if self.data_points.len() > 0 {
                    self.data_points[self.data_points.len() - 1].0
                } else {
                    X_AXIS
                };
                let end = if back > X_AXIS {
                    back
                } else {
                    X_AXIS
                };
                front..end
            },
        }
    }

    /// The vertical axis: from zero to the largest plotted latency plus
    /// three tenths of headroom.
    pub fn y_range(&self) -> (r: Range<u64>)
        ensures
            r.start == 0,
            r.end == spec_y_upper(spec_y_max(self.data_points@)),
    {
        let len = self.data_points.len();
        let mut m: u64 = 50;
        if len > 0 {
            m = self.data_points[0].1;
            let mut i: usize = 1;
            while i < len
                invariant
                    1 <= i <= len,
                    len == self.data_points@.len(),
                    m == spec_y_max(self.data_points@.take(i as int)),
                decreases len - i,
            {
                let next = self.data_points[i].1;
                proof {
                    assert(self.data_points@.take(i + 1).drop_last() =~= self.data_points@.take(
                        i as int,
                    ));
                    assert(self.data_points@.take(i + 1).last() == self.data_points@[i as int]);
                }
                if next > m {
                    m = next;
                }
                i = i + 1;
            }
            proof {
                assert(self.data_points@.take(len as int) =~= self.data_points@);
            }
        }
        let upper = if m <= u64::MAX / 13 {
            proof {
                vstd::arithmetic::div_mod::lemma_fundamental_div_mod(u64::MAX as int, 13);
            }
            m * 13 / 10
        } else {
            u64::MAX
        };
        0..upper
    }
}

} // verus!
