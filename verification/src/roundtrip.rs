//! The round-trip laws: applying what the packer emits for a valid control
//! stream reconstructs the target, whatever scheme produced the stream.

use crate::bsdiff::Bsdiff;
use crate::bspatch::Bspatch;
use crate::bspatch::add_byte;
use crate::bspatch::header_ok;
use crate::bspatch::patch_ctrl_sec;
use crate::bspatch::patch_delta_sec;
use crate::bspatch::patch_extra_sec;
use crate::bspatch::replay_raw;
use crate::bspatch::res_view;
use crate::codec::enc_int;
use crate::codec::lemma_codec_round_trip;
use crate::control::Control;
use crate::control::covers;
use crate::control::ctrl_wf;
use crate::control::lemma_steps_wf;
use crate::control::lemma_tpos_after_monotone;
use crate::control::seq_wf;
use crate::control::steps_ok;
use crate::control::tpos_after;
use crate::error::Error;
use crate::bz::bz_of;
use crate::bz::compress_bound;
use crate::codec::dec_int;
use crate::pack::ctrl_bytes;
use crate::pack::delta_bytes;
use crate::pack::delta_of;
use crate::pack::extra_bytes;
use crate::pack::lemma_header_discipline;
use crate::pack::patch_wire;
use crate::pack::sections_fit;
use crate::pack::sub_byte;
use vstd::prelude::*;

verus! {

/// Adding back a byte-wise difference restores the minuend.
proof fn lemma_add_sub_byte(x: u8, y: u8)
    ensures
        add_byte(x, sub_byte(y, x)) == y,
{
}

/// Replaying a safe stream's own sections from anywhere inside the delta
/// and extra streams emits exactly the target bytes the stream covers.
proof fn lemma_replay_steps(
    s: Seq<u8>,
    t: Seq<u8>,
    cs: Seq<Control>,
    db: Seq<u8>,
    eb: Seq<u8>,
    spos: int,
    tpos: int,
    dpos: int,
    epos: int,
    out: Seq<u8>,
)
    requires
        steps_ok(s, t, cs, spos, tpos),
        seq_wf(cs),
        s.len() <= i64::MAX,
        t.len() <= i64::MAX,
        0 <= dpos <= db.len(),
        0 <= epos <= eb.len(),
        db.subrange(dpos, db.len() as int) == delta_bytes(s, t, cs, spos, tpos),
        eb.subrange(epos, eb.len() as int) == extra_bytes(t, cs, tpos),
        0 <= spos <= u64::MAX,
        0 <= tpos <= t.len(),
    ensures
        replay_raw(s, ctrl_bytes(cs), db, eb, spos, dpos, epos, out) == Ok::<Seq<u8>, Error>(
            out + t.subrange(tpos, tpos_after(cs, tpos)),
        ),
    decreases cs.len(),
{
    if cs.len() == 0 {
        assert(out + t.subrange(tpos, tpos) =~= out);
    } else {
        let c = cs[0];
        let rest = cs.skip(1);
        assert(ctrl_wf(c));
        let e1 = enc_int(c.add as i64);
        let e2 = enc_int(c.copy as i64);
        let e3 = enc_int(c.seek);
        lemma_codec_round_trip(c.add as i64);
        lemma_codec_round_trip(c.copy as i64);
        lemma_codec_round_trip(c.seek);
        let cb = ctrl_bytes(cs);
        assert(cb == (e1 + e2 + e3) + ctrl_bytes(rest));
        assert(cb.len() >= 24);
        assert(cb.subrange(0, 8) =~= e1);
        assert(cb.subrange(8, 16) =~= e2);
        assert(cb.subrange(16, 24) =~= e3);

        // The decoded fields are the record's own.
        let add = c.add as int;
        let copy = c.copy as int;

        // The record's demands are met.
        let snext = spos + add + c.seek;
        let dtail = delta_bytes(s, t, rest, snext, tpos + add + copy);
        let etail = extra_bytes(t, rest, tpos + add + copy);
        assert(db.subrange(dpos, db.len() as int).len() == delta_bytes(s, t, cs, spos, tpos).len());
        assert(delta_bytes(s, t, cs, spos, tpos) == delta_of(s, t, spos, tpos, add) + dtail);
        assert(delta_of(s, t, spos, tpos, add).len() == add);
        assert(dpos + add <= db.len());
        assert(eb.subrange(epos, eb.len() as int).len() == extra_bytes(t, cs, tpos).len());
        assert(extra_bytes(t, cs, tpos) == t.subrange(tpos + add, tpos + add + copy) + etail);
        assert(t.subrange(tpos + add, tpos + add + copy).len() == copy);
        assert(epos + copy <= eb.len());

        // What this record emits is the target's next add + copy bytes.
        let emitted = Seq::new(add as nat, |i: int| add_byte(s[spos + i], db[dpos + i]))
            + eb.subrange(epos, epos + copy);
        assert forall|i: int| 0 <= i < add + copy implies #[trigger] emitted[i] == t.subrange(
            tpos,
            tpos + add + copy,
        )[i] by {
            if i < add {
                assert(db.subrange(dpos, db.len() as int)[i] == db[dpos + i]);
                assert(delta_bytes(s, t, cs, spos, tpos)[i] == delta_of(s, t, spos, tpos, add)[i]);
                assert(db[dpos + i] == sub_byte(t[tpos + i], s[spos + i]));
                lemma_add_sub_byte(s[spos + i], t[tpos + i]);
            } else {
                let q = i - add;
                assert(eb.subrange(epos, eb.len() as int)[q] == eb[epos + q]);
                assert(extra_bytes(t, cs, tpos)[q] == t.subrange(tpos + add, tpos + add + copy)[q]);
                assert(eb[epos + q] == t[tpos + add + q]);
            }
        }
        assert(emitted =~= t.subrange(tpos, tpos + add + copy));

        // The seek stays in range and the rest of the stream lines up.
        assert(0 <= snext <= u64::MAX);
        assert forall|i: int| 0 <= i < rest.len() implies ctrl_wf(#[trigger] rest[i]) by {
            assert(rest[i] == cs[i + 1]);
        }
        assert forall|q: int| 0 <= q < dtail.len() implies #[trigger] db.subrange(
            dpos + add,
            db.len() as int,
        )[q] == dtail[q] by {
            assert(db.subrange(dpos, db.len() as int)[add + q] == db[dpos + add + q]);
            assert((delta_of(s, t, spos, tpos, add) + dtail)[add + q] == dtail[q]);
            assert(db.subrange(dpos + add, db.len() as int)[q] == db[dpos + add + q]);
        }
        assert(db.subrange(dpos + add, db.len() as int) =~= dtail);
        assert forall|q: int| 0 <= q < etail.len() implies #[trigger] eb.subrange(
            epos + copy,
            eb.len() as int,
        )[q] == etail[q] by {
            assert(eb.subrange(epos, eb.len() as int)[copy + q] == eb[epos + copy + q]);
            assert((t.subrange(tpos + add, tpos + add + copy) + etail)[copy + q] == etail[q]);
            assert(eb.subrange(epos + copy, eb.len() as int)[q] == eb[epos + copy + q]);
        }
        assert(eb.subrange(epos + copy, eb.len() as int) =~= etail);
        lemma_replay_steps(
            s,
            t,
            rest,
            db,
            eb,
            snext,
            tpos + add + copy,
            dpos + add,
            epos + copy,
            out + emitted,
        );
        assert(cb.skip(24) =~= ctrl_bytes(rest));
        lemma_tpos_after_monotone(s, t, rest, snext, tpos + add + copy);
        assert((out + emitted) + t.subrange(tpos + add + copy, tpos_after(rest, tpos + add + copy))
            =~= out + t.subrange(tpos, tpos_after(cs, tpos)));
    }
}

/// Round trip: for any control stream that covers the target, replaying
/// the packed control, delta and extra sections against the source yields
/// the target, byte for byte.
pub proof fn lemma_round_trip(s: Seq<u8>, t: Seq<u8>, cs: Seq<Control>)
    requires
        covers(s, t, cs),
        s.len() <= i64::MAX,
        t.len() <= i64::MAX,
    ensures
        replay_raw(
            s,
            ctrl_bytes(cs),
            delta_bytes(s, t, cs, 0, 0),
            extra_bytes(t, cs, 0),
            0,
            0,
            0,
            Seq::<u8>::empty(),
        ) == Ok::<Seq<u8>, Error>(t),
{
    lemma_steps_wf(s, t, cs, 0, 0);
    let db = delta_bytes(s, t, cs, 0, 0);
    let eb = extra_bytes(t, cs, 0);
    assert(db.subrange(0, db.len() as int) =~= db);
    assert(eb.subrange(0, eb.len() as int) =~= eb);
    lemma_replay_steps(s, t, cs, db, eb, 0, 0, 0, 0, Seq::empty());
    assert(Seq::<u8>::empty() + t.subrange(0, t.len() as int) =~= t);
}

/// Empty-target invariance: a stream that covers the empty target replays
/// to the empty byte string, whatever the source.
pub proof fn lemma_empty_target(s: Seq<u8>, cs: Seq<Control>)
    requires
        covers(s, Seq::<u8>::empty(), cs),
        s.len() <= i64::MAX,
    ensures
        replay_raw(
            s,
            ctrl_bytes(cs),
            delta_bytes(s, Seq::<u8>::empty(), cs, 0, 0),
            extra_bytes(Seq::<u8>::empty(), cs, 0),
            0,
            0,
            0,
            Seq::<u8>::empty(),
        ) == Ok::<Seq<u8>, Error>(Seq::<u8>::empty()),
{
    lemma_round_trip(s, Seq::<u8>::empty(), cs);
}

/// Parallel equivalence: two valid streams for the same source and target
/// replay to the same bytes — the target — however differently they carve
/// it up.
pub proof fn lemma_parallel_equivalence(s: Seq<u8>, t: Seq<u8>, cs1: Seq<Control>, cs2: Seq<Control>)
    requires
        covers(s, t, cs1),
        covers(s, t, cs2),
        s.len() <= i64::MAX,
        t.len() <= i64::MAX,
    ensures
        replay_raw(
            s,
            ctrl_bytes(cs1),
            delta_bytes(s, t, cs1, 0, 0),
            extra_bytes(t, cs1, 0),
            0,
            0,
            0,
            Seq::<u8>::empty(),
        ) == replay_raw(
            s,
            ctrl_bytes(cs2),
            delta_bytes(s, t, cs2, 0, 0),
            extra_bytes(t, cs2, 0),
            0,
            0,
            0,
            Seq::<u8>::empty(),
        ),
        replay_raw(
            s,
            ctrl_bytes(cs1),
            delta_bytes(s, t, cs1, 0, 0),
            extra_bytes(t, cs1, 0),
            0,
            0,
            0,
            Seq::<u8>::empty(),
        ) == Ok::<Seq<u8>, Error>(t),
{
    lemma_round_trip(s, t, cs1);
    lemma_round_trip(s, t, cs2);
}

/// The whole law, at the wire level: a patch emitted for a covering
/// control stream parses — the header is sound and its three sections are
/// exactly the compressed images of the stream's control, delta and extra
/// bytes — and replaying those decompressed sections against the source
/// yields the target.
pub proof fn lemma_wire_round_trip(s: Seq<u8>, t: Seq<u8>, cs: Seq<Control>, level: u32)
    requires
        covers(s, t, cs),
        sections_fit(s, t, cs, level),
        s.len() <= i64::MAX,
        t.len() <= i64::MAX,
    ensures
        header_ok(patch_wire(s, t, cs, level)),
        patch_ctrl_sec(patch_wire(s, t, cs, level)) == bz_of(ctrl_bytes(cs), level),
        patch_delta_sec(patch_wire(s, t, cs, level)) == bz_of(delta_bytes(s, t, cs, 0, 0), level),
        patch_extra_sec(patch_wire(s, t, cs, level)) == bz_of(extra_bytes(t, cs, 0), level),
        replay_raw(
            s,
            ctrl_bytes(cs),
            delta_bytes(s, t, cs, 0, 0),
            extra_bytes(t, cs, 0),
            0,
            0,
            0,
            Seq::<u8>::empty(),
        ) == Ok::<Seq<u8>, Error>(t),
{
    let p = patch_wire(s, t, cs, level);
    let zc = bz_of(ctrl_bytes(cs), level);
    let zd = bz_of(delta_bytes(s, t, cs, 0, 0), level);
    let ze = bz_of(extra_bytes(t, cs, 0), level);
    lemma_header_discipline(s, t, cs, level);
    lemma_codec_round_trip(zc.len() as i64);
    lemma_codec_round_trip(zd.len() as i64);
    lemma_codec_round_trip(t.len() as i64);
    assert(crate::pack::magic().len() == 8);
    assert(p.len() == 32 + zc.len() + zd.len() + ze.len());
    assert(dec_int(p.subrange(8, 16)) as u64 == zc.len());
    assert(dec_int(p.subrange(16, 24)) as u64 == zd.len());
    assert(header_ok(p));
    assert(patch_ctrl_sec(p) =~= zc);
    assert(patch_delta_sec(p) =~= zd);
    assert(patch_extra_sec(p) =~= ze);
    lemma_round_trip(s, t, cs);
}

/// The round-trip law, executed: compares `source` with `target`, applies
/// the emitted patch back onto `source`, and returns the reconstruction —
/// proved to be the target, byte for byte, whenever the patch could be
/// emitted; emission itself is owed for every target below the compressed
/// size fields' reach, and the one failure that remains is the packer's
/// own size overflow.
pub fn round_trip(source: &[u8], target: &[u8]) -> (r: Result<Vec<u8>, Error>)
    requires
        source@.len() <= crate::suffix::MAX_LENGTH,
        target@.len() <= i64::MAX,
    ensures
        r matches Ok(v) ==> v@ == target@,
        r matches Err(e) ==> e == Error::TooLarge,
        compress_bound(72 * target@.len() as int) <= i64::MAX ==> r is Ok,
{
    let differ = Bsdiff::new(source, target);
    let patch = match differ.compare() {
        Ok(p) => p,
        Err(e) => {
            return Err(e);
        },
    };
    let ghost cs = choose|cs: Seq<Control>|
        crate::bsdiff::emitted_stream_ok(source@, target@, differ.scheme_spec(), cs)
            && sections_fit(source@, target@, cs, differ.level_spec()) && patch@ == patch_wire(
            source@,
            target@,
            cs,
            differ.level_spec(),
        );
    proof {
        lemma_wire_round_trip(source@, target@, cs, differ.level_spec());
    }
    let patcher = match Bspatch::new(patch.as_slice()) {
        Ok(b) => b,
        Err(e) => {
            proof {
                assert(false);
            }
            return Err(e);
        },
    };
    proof {
        patcher.lemma_sections();
    }
    let rebuilt = patcher.apply(source);
    proof {
        if rebuilt is Ok {
            assert(res_view(rebuilt) == replay_raw(
                source@,
                ctrl_bytes(cs),
                delta_bytes(source@, target@, cs, 0, 0),
                extra_bytes(target@, cs, 0),
                0,
                0,
                0,
                Seq::<u8>::empty(),
            ));
        }
    }
    rebuilt
}

} // verus!
