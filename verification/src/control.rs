//! Control records and the meaning of a control stream.
//!
//! A control record tells the patcher to emit `add` delta-adjusted bytes
//! read from the source, then `copy` verbatim bytes from the extra stream,
//! and finally to move the source cursor by `seek`.  [`covers`] states when
//! a whole stream is valid for a source/target pair: every record stays in
//! bounds and the records together account for the entire target.

use vstd::prelude::*;

verus! {

/// Single bsdiff control instruction.
#[derive(Clone, Copy, Debug, PartialEq, Eq, Structural)]
pub struct Control {
    /// How many bytes to emit as source plus delta.
    pub add: u64,
    /// How many bytes to emit verbatim from the extra stream.
    pub copy: u64,
    /// Signed move of the source cursor, applied after `add` and `copy`.
    pub seek: i64,
}

/// A record whose fields can be written as signed-magnitude integers.
pub open spec fn ctrl_wf(c: Control) -> bool {
    &&& c.add <= i64::MAX
    &&& c.copy <= i64::MAX
    &&& c.seek != i64::MIN
}

/// Every record of the stream is encodable.
pub open spec fn seq_wf(cs: Seq<Control>) -> bool {
    forall|i: int| 0 <= i < cs.len() ==> ctrl_wf(#[trigger] cs[i])
}

/// Walks the stream from the given cursors and checks that every record
/// keeps its add region inside the source, its add and copy regions inside
/// the target, and the source cursor non-negative.
pub open spec fn steps_ok(s: Seq<u8>, t: Seq<u8>, cs: Seq<Control>, spos: int, tpos: int) -> bool
    decreases cs.len(),
{
    cs.len() == 0 || {
        let c = cs[0];
        &&& 0 <= spos
        &&& 0 <= tpos
        &&& spos + c.add <= s.len()
        &&& tpos + c.add + c.copy <= t.len()
        &&& 0 <= spos + c.add + c.seek
        &&& steps_ok(s, t, cs.skip(1), spos + c.add + c.seek, tpos + c.add + c.copy)
    }
}

/// The source cursor after the whole stream has been walked.
pub open spec fn spos_after(cs: Seq<Control>, spos: int) -> int
    decreases cs.len(),
{
    if cs.len() == 0 {
        spos
    } else {
        spos_after(cs.skip(1), spos + cs[0].add + cs[0].seek)
    }
}

/// The target cursor after the whole stream has been walked.
pub open spec fn tpos_after(cs: Seq<Control>, tpos: int) -> int
    decreases cs.len(),
{
    if cs.len() == 0 {
        tpos
    } else {
        tpos_after(cs.skip(1), tpos + cs[0].add + cs[0].copy)
    }
}

/// The sum of `add + copy` over the stream.
pub open spec fn sum_add_copy(cs: Seq<Control>) -> int
    decreases cs.len(),
{
    if cs.len() == 0 {
        0
    } else {
        cs[0].add + cs[0].copy + sum_add_copy(cs.skip(1))
    }
}

/// A control stream is valid for `(s, t)`: walked from cursors zero it
/// stays in bounds and ends with the target cursor on `t.len()`.
pub open spec fn covers(s: Seq<u8>, t: Seq<u8>, cs: Seq<Control>) -> bool {
    &&& steps_ok(s, t, cs, 0, 0)
    &&& tpos_after(cs, 0) == t.len()
}

/// Appending a record moves the final source cursor by its `add + seek`.
pub proof fn lemma_spos_after_push(cs: Seq<Control>, c: Control, spos: int)
    ensures
        spos_after(cs.push(c), spos) == spos_after(cs, spos) + c.add + c.seek,
    decreases cs.len(),
{
    reveal_with_fuel(spos_after, 3);
    if cs.len() == 0 {
        assert(cs.push(c).skip(1) =~= Seq::<Control>::empty());
        assert(cs.push(c)[0] == c);
    } else {
        assert(cs.push(c).skip(1) =~= cs.skip(1).push(c));
        assert(cs.push(c)[0] == cs[0]);
        lemma_spos_after_push(cs.skip(1), c, spos + cs[0].add + cs[0].seek);
    }
}

/// Appending a record moves the final target cursor by its `add + copy`.
pub proof fn lemma_tpos_after_push(cs: Seq<Control>, c: Control, tpos: int)
    ensures
        tpos_after(cs.push(c), tpos) == tpos_after(cs, tpos) + c.add + c.copy,
    decreases cs.len(),
{
    reveal_with_fuel(tpos_after, 3);
    if cs.len() == 0 {
        assert(cs.push(c).skip(1) =~= Seq::<Control>::empty());
        assert(cs.push(c)[0] == c);
    } else {
        assert(cs.push(c).skip(1) =~= cs.skip(1).push(c));
        assert(cs.push(c)[0] == cs[0]);
        lemma_tpos_after_push(cs.skip(1), c, tpos + cs[0].add + cs[0].copy);
    }
}

/// A stream extended by one in-bounds record still walks safely.
pub proof fn lemma_steps_ok_push(s: Seq<u8>, t: Seq<u8>, cs: Seq<Control>, c: Control, spos: int, tpos: int)
    requires
        steps_ok(s, t, cs, spos, tpos),
        0 <= spos,
        0 <= tpos,
        spos_after(cs, spos) + c.add <= s.len(),
        tpos_after(cs, tpos) + c.add + c.copy <= t.len(),
        0 <= spos_after(cs, spos) + c.add + c.seek,
        0 <= spos_after(cs, spos),
        0 <= tpos_after(cs, tpos),
    ensures
        steps_ok(s, t, cs.push(c), spos, tpos),
    decreases cs.len(),
{
    reveal_with_fuel(steps_ok, 3);
    if cs.len() == 0 {
        assert(cs.push(c)[0] == c);
        assert(cs.push(c).skip(1) =~= Seq::<Control>::empty());
    } else {
        assert(cs.push(c).skip(1) =~= cs.skip(1).push(c));
        assert(cs.push(c)[0] == cs[0]);
        lemma_spos_after_push(cs, c, spos);
        lemma_tpos_after_push(cs, c, tpos);
        lemma_steps_ok_push(s, t, cs.skip(1), c, spos + cs[0].add + cs[0].seek, tpos + cs[0].add + cs[0].copy);
    }
}

/// Target cursors only move forward while a stream walks safely.
pub proof fn lemma_tpos_after_monotone(s: Seq<u8>, t: Seq<u8>, cs: Seq<Control>, spos: int, tpos: int)
    requires
        steps_ok(s, t, cs, spos, tpos),
    ensures
        tpos <= tpos_after(cs, tpos),
        cs.len() > 0 ==> tpos_after(cs, tpos) <= t.len(),
    decreases cs.len(),
{
    if cs.len() > 0 {
        lemma_tpos_after_monotone(s, t, cs.skip(1), spos + cs[0].add + cs[0].seek, tpos + cs[0].add + cs[0].copy);
        if cs.len() == 1 {
            assert(cs.skip(1).len() == 0);
        }
    }
}

/// The final target cursor is the start plus the stream's `add + copy` sum.
pub proof fn lemma_tpos_after_is_sum(cs: Seq<Control>, tpos: int)
    ensures
        tpos_after(cs, tpos) == tpos + sum_add_copy(cs),
    decreases cs.len(),
{
    if cs.len() > 0 {
        lemma_tpos_after_is_sum(cs.skip(1), tpos + cs[0].add + cs[0].copy);
    }
}

/// The sum of `add + copy` over every decoded record of a valid stream
/// equals the length of the target it reconstructs.
pub proof fn lemma_control_sum(s: Seq<u8>, t: Seq<u8>, cs: Seq<Control>)
    requires
        covers(s, t, cs),
    ensures
        sum_add_copy(cs) == t.len(),
{
    lemma_tpos_after_is_sum(cs, 0);
}

/// A stream that walks safely inside bounded data is made of encodable
/// records: sums against the cursors bound `add` and `copy`, and a seek can
/// never rewind past the source start.
pub proof fn lemma_steps_wf(s: Seq<u8>, t: Seq<u8>, cs: Seq<Control>, spos: int, tpos: int)
    requires
        steps_ok(s, t, cs, spos, tpos),
        s.len() <= i64::MAX,
        t.len() <= i64::MAX,
    ensures
        seq_wf(cs),
    decreases cs.len(),
{
    if cs.len() > 0 {
        assert(ctrl_wf(cs[0]));
        lemma_steps_wf(s, t, cs.skip(1), spos + cs[0].add + cs[0].seek, tpos + cs[0].add + cs[0].copy);
        assert forall|i: int| 0 <= i < cs.len() implies ctrl_wf(#[trigger] cs[i]) by {
            if i > 0 {
                assert(cs.skip(1)[i - 1] == cs[i]);
            }
        }
    }
}

/// Two safe walks concatenate, provided the second starts where the first
/// stopped.
pub proof fn lemma_steps_ok_concat(s: Seq<u8>, t: Seq<u8>, cs1: Seq<Control>, cs2: Seq<Control>, spos: int, tpos: int)
    requires
        steps_ok(s, t, cs1, spos, tpos),
        steps_ok(s, t, cs2, spos_after(cs1, spos), tpos_after(cs1, tpos)),
        0 <= spos,
        0 <= tpos,
    ensures
        steps_ok(s, t, cs1 + cs2, spos, tpos),
        spos_after(cs1 + cs2, spos) == spos_after(cs2, spos_after(cs1, spos)),
        tpos_after(cs1 + cs2, tpos) == tpos_after(cs2, tpos_after(cs1, tpos)),
    decreases cs1.len(),
{
    if cs1.len() == 0 {
        assert(cs1 + cs2 =~= cs2);
    } else {
        assert((cs1 + cs2).skip(1) =~= cs1.skip(1) + cs2);
        assert((cs1 + cs2)[0] == cs1[0]);
        lemma_steps_ok_concat(s, t, cs1.skip(1), cs2, spos + cs1[0].add + cs1[0].seek, tpos + cs1[0].add + cs1[0].copy);
    }
}

/// A safe walk over a target prefix stays safe over a longer target, with
/// the whole walk shifted by the bytes that precede its slice.
pub proof fn lemma_steps_ok_embed(s: Seq<u8>, t1: Seq<u8>, t2: Seq<u8>, cs: Seq<Control>, spos: int, tpos: int, shift: int)
    requires
        steps_ok(s, t1, cs, spos, tpos),
        0 <= shift,
        shift + t1.len() <= t2.len(),
        0 <= tpos,
    ensures
        steps_ok(s, t2, cs, spos, tpos + shift),
        tpos_after(cs, tpos + shift) == tpos_after(cs, tpos) + shift,
    decreases cs.len(),
{
    if cs.len() > 0 {
        lemma_steps_ok_embed(s, t1, t2, cs.skip(1), spos + cs[0].add + cs[0].seek, tpos + cs[0].add + cs[0].copy, shift);
    }
}

} // verus!
