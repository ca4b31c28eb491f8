//! The bookkeeping of a trail: a ring of slots that holds the last points of
//! a body's path.
//!
//! Each recorded point goes into the slot behind the previous one, and from
//! the last slot back to the first. The trail is drawn as segments from a
//! slot to the slot behind it; the segment that would start at the newest
//! point is left out, since the slot behind the newest point holds the
//! oldest point, or none.

use vstd::prelude::*;

verus! {

/// The slot that receives the next point once `recorded` points are in.
pub open spec fn slot_of(recorded: nat, length: nat) -> int {
    recorded as int % length as int
}

/// The number of slots that hold a point.
pub open spec fn filled_of(recorded: nat, length: nat) -> nat {
    if recorded < length {
        recorded
    } else {
        length
    }
}

/// The slot at which no segment starts: the one in front of the slot that
/// receives the next point.
pub open spec fn gap_of(recorded: nat, length: nat) -> int {
    if slot_of(recorded, length) == 0 {
        length - 1
    } else {
        slot_of(recorded, length) - 1
    }
}

/// The segments that start at a slot below `upto`, in ascending order: one
/// from each slot but the gap, to the slot behind it.
pub open spec fn segments_below(length: nat, gap: int, upto: int) -> Seq<(usize, usize)>
    decreases upto,
{
    if upto <= 0 {
        Seq::empty()
    } else {
        let below = segments_below(length, gap, upto - 1);
        if upto - 1 == gap {
            below
        } else {
            below.push(((upto - 1) as usize, (upto % length as int) as usize))
        }
    }
}

/// The segments of a trail of `recorded` points in a ring of `length` slots.
pub open spec fn segments_of(recorded: nat, length: nat) -> Seq<(usize, usize)> {
    segments_below(length, gap_of(recorded, length), filled_of(recorded, length) as int)
}

/// The number of segments that start below `upto`.
pub proof fn lemma_segments_len(length: nat, gap: int, upto: int)
    requires
        0 <= upto,
    ensures
        segments_below(length, gap, upto).len() == if 0 <= gap < upto {
            upto - 1
        } else {
            upto
        },
    decreases upto,
{
    if upto > 0 {
        lemma_segments_len(length, gap, upto - 1);
    }
}

/// Every segment that starts below `upto` starts at a slot that is not the
/// gap and ends at the slot behind it.
pub proof fn lemma_segments_shape(length: nat, gap: int, upto: int)
    requires
        0 < length <= usize::MAX,
        0 <= upto <= length,
    ensures
        forall|k: int|
            0 <= k < segments_below(length, gap, upto).len() ==> {
                let segment = #[trigger] segments_below(length, gap, upto)[k];
                &&& segment.0 < upto
                &&& segment.0 != gap
                &&& segment.1 == (segment.0 + 1) % length as int
            },
    decreases upto,
{
    if upto > 0 {
        lemma_segments_shape(length, gap, upto - 1);
        assert(0 <= upto % (length as int) && upto % (length as int) < length) by (nonlinear_arith)
            requires
                0 < length,
        ;
        let list = segments_below(length, gap, upto);
        let below = segments_below(length, gap, upto - 1);
        assert forall|k: int| 0 <= k < list.len() implies {
            let segment = #[trigger] list[k];
            &&& segment.0 < upto
            &&& segment.0 != gap
            &&& segment.1 == (segment.0 + 1) % length as int
        } by {
            if k < below.len() {
                assert(list[k] == below[k]);
            }
        }
    }
}

/// A trail of at least one point has one segment less than it has filled
/// slots, and both ends of each segment hold a point.
pub proof fn lemma_segments_join_points(recorded: nat, length: nat)
    requires
        0 < length <= usize::MAX,
        0 < recorded,
    ensures
        segments_of(recorded, length).len() == filled_of(recorded, length) - 1,
        forall|k: int|
            0 <= k < segments_of(recorded, length).len() ==> {
                let segment = #[trigger] segments_of(recorded, length)[k];
                segment.0 < filled_of(recorded, length) && segment.1 < filled_of(recorded, length)
            },
{
    let filled = filled_of(recorded, length) as int;
    let gap = gap_of(recorded, length);
    if recorded < length {
        assert(slot_of(recorded, length) == recorded) by (nonlinear_arith)
            requires
                recorded < length,
                slot_of(recorded, length) == recorded as int % length as int,
        ;
    } else {
        assert(0 <= slot_of(recorded, length) < length) by (nonlinear_arith)
            requires
                0 < length,
                slot_of(recorded, length) == recorded as int % length as int,
        ;
    }
    lemma_segments_len(length, gap, filled);
    lemma_segments_shape(length, gap, filled);
    assert forall|k: int| 0 <= k < segments_of(recorded, length).len() implies {
        let segment = #[trigger] segments_of(recorded, length)[k];
        segment.0 < filled && segment.1 < filled
    } by {
        let segment = segments_of(recorded, length)[k];
        let start = segment.0 as int;
        assert(segment.1 == (start + 1) % length as int);
        if start + 1 < length {
            assert((start + 1) % length as int == start + 1) by (nonlinear_arith)
                requires
                    0 <= start + 1 < length,
            ;
        } else {
            assert((start + 1) % length as int == 0) by (nonlinear_arith)
                requires
                    start + 1 == length,
                    0 < length,
            ;
        }
    }
}

/// The number of the point that `slot` holds, the points numbered from zero
/// in the order in which they were recorded; -1 where the slot holds none.
pub open spec fn held_in(recorded: nat, length: nat, slot: int) -> int
    decreases recorded,
{
    if recorded == 0 {
        -1
    } else if slot_of((recorded - 1) as nat, length) == slot {
        recorded - 1
    } else {
        held_in((recorded - 1) as nat, length, slot)
    }
}

/// Counting on by one moves on by one slot, and from the last slot to the
/// first.
proof fn lemma_next_slot(t: int, length: int)
    requires
        length > 0,
        t >= 0,
    ensures
        0 <= t % length < length,
        (t + 1) % length == if t % length + 1 == length {
            0
        } else {
            t % length + 1
        },
        (t + length) % length == t % length,
{
    assert(0 <= t % length < length && (t + 1) % length == if t % length + 1 == length {
        0
    } else {
        t % length + 1
    } && (t + length) % length == t % length) by (nonlinear_arith)
        requires
            length > 0,
            t >= 0,
    ;
}

/// Two numbers that fall into the same slot and lie less than one round
/// apart are the same number.
proof fn lemma_slot_pins_number(x: int, y: int, length: int)
    requires
        length > 0,
        x % length == y % length,
        x - length < y < x + length,
    ensures
        x == y,
{
    vstd::arithmetic::div_mod::lemma_fundamental_div_mod(x, length);
    vstd::arithmetic::div_mod::lemma_fundamental_div_mod(y, length);
    let qx = x / length;
    let qy = y / length;
    assert(x - y == length * (qx - qy)) by (nonlinear_arith)
        requires
            x == length * qx + x % length,
            y == length * qy + y % length,
            x % length == y % length,
    ;
    assert(qx - qy == 0) by (nonlinear_arith)
        requires
            length > 0,
            x - y == length * (qx - qy),
            -length < x - y < length,
    ;
}

/// A filled slot holds the last of the recorded points that fell into it: a
/// point less than one round old. A slot that is not filled holds none.
pub proof fn lemma_held_in(recorded: nat, length: nat, slot: int)
    requires
        0 < length,
        0 <= slot < length,
    ensures
        slot < filled_of(recorded, length) ==> {
            let t = held_in(recorded, length, slot);
            &&& 0 <= t < recorded
            &&& t % length as int == slot
            &&& t + length >= recorded
        },
        slot >= filled_of(recorded, length) ==> held_in(recorded, length, slot) == -1,
    decreases recorded,
{
    if recorded > 0 {
        let before = (recorded - 1) as nat;
        lemma_held_in(before, length, slot);
        lemma_next_slot(before as int, length as int);
        assert(before as int % length as int <= before) by (nonlinear_arith)
            requires
                0 <= before,
                0 < length,
        ;
        if slot_of(before, length) != slot {
            if slot < filled_of(before, length) {
                let t = held_in(before, length, slot);
                lemma_next_slot(t, length as int);
            } else {
                assert(before < length);
                assert(before as int % length as int == before) by (nonlinear_arith)
                    requires
                        0 <= before < length,
                ;
            }
        }
    }
}

/// Each segment joins two points that were recorded one right after the
/// other: the point at its end is the successor of the point at its start.
pub proof fn lemma_segments_follow_time(recorded: nat, length: nat)
    requires
        0 < length <= usize::MAX,
    ensures
        forall|k: int|
            0 <= k < segments_of(recorded, length).len() ==> {
                let segment = #[trigger] segments_of(recorded, length)[k];
                &&& held_in(recorded, length, segment.0 as int) >= 0
                &&& held_in(recorded, length, segment.1 as int) == held_in(
                    recorded,
                    length,
                    segment.0 as int,
                ) + 1
            },
{
    let filled = filled_of(recorded, length) as int;
    let gap = gap_of(recorded, length);
    if recorded > 0 {
        lemma_segments_join_points(recorded, length);
        lemma_segments_shape(length, gap, filled);
        lemma_next_slot(recorded - 1, length as int);
        assert forall|k: int| 0 <= k < segments_of(recorded, length).len() implies {
            let segment = #[trigger] segments_of(recorded, length)[k];
            &&& held_in(recorded, length, segment.0 as int) >= 0
            &&& held_in(recorded, length, segment.1 as int) == held_in(
                recorded,
                length,
                segment.0 as int,
            ) + 1
        } by {
            let segment = segments_of(recorded, length)[k];
            let start = segment.0 as int;
            let end = segment.1 as int;
            lemma_held_in(recorded, length, start);
            lemma_held_in(recorded, length, end);
            let t = held_in(recorded, length, start);
            let u = held_in(recorded, length, end);
            lemma_next_slot(t, length as int);
            lemma_next_slot(start, length as int);
            assert(start % length as int == start) by (nonlinear_arith)
                requires
                    0 <= start < length,
            ;
            // the start is not the newest point, so its successor was recorded
            assert(t != recorded - 1);
            lemma_slot_pins_number(t + 1, u, length as int);
        }
    } else {
        lemma_segments_len(length, gap, filled);
    }
}

/// Where a trail stands: how long its ring is and how many points it has
/// taken.
pub struct TrailCursor {
    length: usize,
    next: usize,
    filled: usize,
    recorded: Ghost<nat>,
}

impl TrailCursor {
    /// The number of slots of the ring.
    pub closed spec fn length(&self) -> nat {
        self.length as nat
    }

    /// The number of points recorded so far.
    pub closed spec fn recorded(&self) -> nat {
        self.recorded@
    }

    /// What holds of every cursor.
    pub closed spec fn wf(&self) -> bool {
        &&& self.length > 0
        &&& self.next == slot_of(self.recorded@, self.length as nat)
        &&& self.filled == filled_of(self.recorded@, self.length as nat)
    }

    /// A cursor for an empty trail in a ring of `length` slots. A ring
    /// without slots can hold no trail.
    pub fn new(length: usize) -> (cursor: Option<TrailCursor>)
        ensures
            cursor.is_some() == (length > 0),
            cursor matches Some(c) ==> c.wf() && c.length() == length && c.recorded() == 0,
    {
        if length == 0 {
            None
        } else {
            assert(0int % length as int == 0) by (nonlinear_arith)
                requires
                    length > 0,
            ;
            Some(TrailCursor { length, next: 0, filled: 0, recorded: Ghost(0) })
        }
    }

    /// The slot into which the next point is to be written.
    pub fn slot(&self) -> (slot: usize)
        requires
            self.wf(),
        ensures
            slot == slot_of(self.recorded(), self.length()),
            slot < self.length(),
    {
        proof {
            lemma_next_slot(self.recorded@ as int, self.length as int);
        }
        self.next
    }

    /// The number of slots that hold a point.
    pub fn filled(&self) -> (filled: usize)
        requires
            self.wf(),
        ensures
            filled == filled_of(self.recorded(), self.length()),
    {
        self.filled
    }

    /// Notes that a point has been written into `slot()`.
    pub fn advance(&mut self)
        requires
            old(self).wf(),
        ensures
            final(self).wf(),
            final(self).length() == old(self).length(),
            final(self).recorded() == old(self).recorded() + 1,
    {
        proof {
            lemma_next_slot(self.recorded@ as int, self.length as int);
        }
        if self.next + 1 == self.length {
            self.next = 0;
        } else {
            self.next = self.next + 1;
        }
        if self.filled < self.length {
            self.filled = self.filled + 1;
        }
        self.recorded = Ghost(self.recorded@ + 1);
    }

    /// The slot at which no segment starts.
    pub fn gap(&self) -> (gap: usize)
        requires
            self.wf(),
        ensures
            gap == gap_of(self.recorded(), self.length()),
    {
        if self.next == 0 {
            self.length - 1
        } else {
            self.next - 1
        }
    }

    /// The segments to draw, each as the slot where it starts and the slot
    /// where it ends, in ascending order of the start.
    pub fn segments(&self) -> (list: Vec<(usize, usize)>)
        requires
            self.wf(),
        ensures
            list@ == segments_of(self.recorded(), self.length()),
    {
        let gap = self.gap();
        let mut list: Vec<(usize, usize)> = Vec::new();
        let mut start: usize = 0;
        while start < self.filled
            invariant
                self.wf(),
                start <= self.filled <= self.length,
                gap == gap_of(self.recorded@, self.length as nat),
                list@ == segments_below(self.length as nat, gap as int, start as int),
            decreases self.filled - start,
        {
            if start != gap {
                let end = if start + 1 == self.length {
                    0
                } else {
                    start + 1
                };
                assert(end == (start + 1) % self.length as int) by (nonlinear_arith)
                    requires
                        0 <= start < self.length,
                        end == if start + 1 == self.length {
                            0
                        } else {
                            start + 1
                        },
                ;
                list.push((start, end));
            }
            start = start + 1;
        }
        list
    }
}

} // verus!
