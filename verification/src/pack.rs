//! The patch packer: serializes a control stream and its delta and extra
//! bytes into the bsdiff 4.x container.
//!
//! The wire format is a 32-byte header — the ASCII magic `BSDIFF40`, the
//! compressed control and delta section sizes, and the target length, each
//! as a signed-magnitude integer — followed by the three bzip2-compressed
//! sections in order.

use crate::bz::bz_compress;
use crate::bz::bz_of;
use crate::bz::compress_bound;
use crate::control::sum_add_copy;
use crate::codec::enc_int;
use crate::codec::encode_int;
use crate::codec::lemma_codec_round_trip;
use crate::codec::dec_int;
use crate::control::Control;
use crate::control::covers;
use crate::control::ctrl_wf;
use crate::control::lemma_spos_after_push;
use crate::control::lemma_steps_wf;
use crate::control::lemma_tpos_after_push;
use crate::control::seq_wf;
use crate::control::spos_after;
use crate::control::steps_ok;
use crate::control::tpos_after;
use crate::error::Error;
use vstd::prelude::*;

verus! {

/// The eight magic bytes `BSDIFF40`.
pub open spec fn magic() -> Seq<u8> {
    seq![0x42u8, 0x53u8, 0x44u8, 0x49u8, 0x46u8, 0x46u8, 0x34u8, 0x30u8]
}

/// One control record on the wire: `add`, `copy`, `seek`, 8 bytes each.
pub open spec fn enc_ctrl(c: Control) -> Seq<u8>
    recommends
        ctrl_wf(c),
{
    enc_int(c.add as i64) + enc_int(c.copy as i64) + enc_int(c.seek)
}

/// The uncompressed control section: the records in order, 24 bytes each.
pub open spec fn ctrl_bytes(cs: Seq<Control>) -> Seq<u8>
    decreases cs.len(),
{
    if cs.len() == 0 {
        Seq::empty()
    } else {
        enc_ctrl(cs[0]) + ctrl_bytes(cs.skip(1))
    }
}

/// Byte-wise difference modulo 256.
pub open spec fn sub_byte(y: u8, x: u8) -> u8 {
    if y - x < 0 {
        (y - x + 256) as u8
    } else {
        (y - x) as u8
    }
}

/// The `n` delta bytes of one add region: target minus source, byte for
/// byte, from the two cursors.
pub open spec fn delta_of(s: Seq<u8>, t: Seq<u8>, spos: int, tpos: int, n: int) -> Seq<u8>
    recommends
        0 <= n,
        0 <= spos,
        spos + n <= s.len(),
        0 <= tpos,
        tpos + n <= t.len(),
{
    Seq::new(n as nat, |i: int| sub_byte(t[tpos + i], s[spos + i]))
}

/// The uncompressed delta section of a whole stream.
pub open spec fn delta_bytes(s: Seq<u8>, t: Seq<u8>, cs: Seq<Control>, spos: int, tpos: int) -> Seq<u8>
    decreases cs.len(),
{
    if cs.len() == 0 {
        Seq::empty()
    } else {
        let c = cs[0];
        delta_of(s, t, spos, tpos, c.add as int) + delta_bytes(
            s,
            t,
            cs.skip(1),
            spos + c.add + c.seek,
            tpos + c.add + c.copy,
        )
    }
}

/// The uncompressed extra section of a whole stream: each record's copy
/// region of the target, verbatim.
pub open spec fn extra_bytes(t: Seq<u8>, cs: Seq<Control>, tpos: int) -> Seq<u8>
    decreases cs.len(),
{
    if cs.len() == 0 {
        Seq::empty()
    } else {
        let c = cs[0];
        t.subrange(tpos + c.add, tpos + c.add + c.copy) + extra_bytes(
            t,
            cs.skip(1),
            tpos + c.add + c.copy,
        )
    }
}

/// The whole patch for a stream: header, then the three compressed
/// sections.
pub open spec fn patch_wire(s: Seq<u8>, t: Seq<u8>, cs: Seq<Control>, level: u32) -> Seq<u8> {
    let zc = bz_of(ctrl_bytes(cs), level);
    let zd = bz_of(delta_bytes(s, t, cs, 0, 0), level);
    let ze = bz_of(extra_bytes(t, cs, 0), level);
    magic() + enc_int(zc.len() as i64) + enc_int(zd.len() as i64) + enc_int(t.len() as i64) + zc
        + zd + ze
}

/// The three compressed sections fit the header's signed size fields.
pub open spec fn sections_fit(s: Seq<u8>, t: Seq<u8>, cs: Seq<Control>, level: u32) -> bool {
    &&& bz_of(ctrl_bytes(cs), level).len() <= i64::MAX
    &&& bz_of(delta_bytes(s, t, cs, 0, 0), level).len() <= i64::MAX
    &&& bz_of(extra_bytes(t, cs, 0), level).len() <= i64::MAX
}

/// Appending a record appends its 24 encoded bytes to the control section.
pub proof fn lemma_ctrl_bytes_push(cs: Seq<Control>, c: Control)
    ensures
        ctrl_bytes(cs.push(c)) == ctrl_bytes(cs) + enc_ctrl(c),
    decreases cs.len(),
{
    reveal_with_fuel(ctrl_bytes, 3);
    if cs.len() == 0 {
        assert(cs.push(c).skip(1) =~= Seq::<Control>::empty());
        assert(cs.push(c)[0] == c);
        assert(ctrl_bytes(cs.push(c)) =~= ctrl_bytes(cs) + enc_ctrl(c));
    } else {
        assert(cs.push(c).skip(1) =~= cs.skip(1).push(c));
        assert(cs.push(c)[0] == cs[0]);
        lemma_ctrl_bytes_push(cs.skip(1), c);
        assert(ctrl_bytes(cs.push(c)) =~= ctrl_bytes(cs) + enc_ctrl(c));
    }
}

/// Appending a record appends its add region's deltas to the delta
/// section, read at the cursors where the stream stopped.
pub proof fn lemma_delta_bytes_push(s: Seq<u8>, t: Seq<u8>, cs: Seq<Control>, c: Control, spos: int, tpos: int)
    ensures
        delta_bytes(s, t, cs.push(c), spos, tpos) == delta_bytes(s, t, cs, spos, tpos) + delta_of(
            s,
            t,
            spos_after(cs, spos),
            tpos_after(cs, tpos),
            c.add as int,
        ),
    decreases cs.len(),
{
    reveal_with_fuel(delta_bytes, 3);
    if cs.len() == 0 {
        assert(cs.push(c).skip(1) =~= Seq::<Control>::empty());
        assert(cs.push(c)[0] == c);
        assert(delta_bytes(s, t, cs.push(c), spos, tpos) =~= delta_bytes(s, t, cs, spos, tpos)
            + delta_of(s, t, spos, tpos, c.add as int));
    } else {
        assert(cs.push(c).skip(1) =~= cs.skip(1).push(c));
        assert(cs.push(c)[0] == cs[0]);
        lemma_delta_bytes_push(s, t, cs.skip(1), c, spos + cs[0].add + cs[0].seek, tpos + cs[0].add + cs[0].copy);
        assert(delta_bytes(s, t, cs.push(c), spos, tpos) =~= delta_bytes(s, t, cs, spos, tpos)
            + delta_of(s, t, spos_after(cs, spos), tpos_after(cs, tpos), c.add as int));
    }
}

/// Appending a record appends its copy region of the target to the extra
/// section.
pub proof fn lemma_extra_bytes_push(t: Seq<u8>, cs: Seq<Control>, c: Control, tpos: int)
    ensures
        extra_bytes(t, cs.push(c), tpos) == extra_bytes(t, cs, tpos) + t.subrange(
            tpos_after(cs, tpos) + c.add,
            tpos_after(cs, tpos) + c.add + c.copy,
        ),
    decreases cs.len(),
{
    reveal_with_fuel(extra_bytes, 3);
    if cs.len() == 0 {
        assert(cs.push(c).skip(1) =~= Seq::<Control>::empty());
        assert(cs.push(c)[0] == c);
        assert(extra_bytes(t, cs.push(c), tpos) =~= extra_bytes(t, cs, tpos) + t.subrange(
            tpos + c.add,
            tpos + c.add + c.copy,
        ));
    } else {
        assert(cs.push(c).skip(1) =~= cs.skip(1).push(c));
        assert(cs.push(c)[0] == cs[0]);
        lemma_extra_bytes_push(t, cs.skip(1), c, tpos + cs[0].add + cs[0].copy);
        assert(extra_bytes(t, cs.push(c), tpos) =~= extra_bytes(t, cs, tpos) + t.subrange(
            tpos_after(cs, tpos) + c.add,
            tpos_after(cs, tpos) + c.add + c.copy,
        ));
    }
}

/// The control section is 24 bytes per record.
pub proof fn lemma_ctrl_bytes_len(cs: Seq<Control>)
    ensures
        ctrl_bytes(cs).len() == 24 * cs.len(),
    decreases cs.len(),
{
    vstd::bytes::lemma_auto_spec_u64_to_from_le_bytes();
    if cs.len() > 0 {
        lemma_ctrl_bytes_len(cs.skip(1));
    }
}

/// The delta section is never longer than the stream's `add + copy` sum.
pub proof fn lemma_delta_bytes_len(s: Seq<u8>, t: Seq<u8>, cs: Seq<Control>, spos: int, tpos: int)
    ensures
        delta_bytes(s, t, cs, spos, tpos).len() <= sum_add_copy(cs),
    decreases cs.len(),
{
    if cs.len() > 0 {
        lemma_delta_bytes_len(s, t, cs.skip(1), spos + cs[0].add + cs[0].seek, tpos + cs[0].add + cs[0].copy);
    }
}

/// The extra section of a safely walking stream is never longer than the
/// stream's `add + copy` sum.
pub proof fn lemma_extra_bytes_len(s: Seq<u8>, t: Seq<u8>, cs: Seq<Control>, spos: int, tpos: int)
    requires
        steps_ok(s, t, cs, spos, tpos),
    ensures
        extra_bytes(t, cs, tpos).len() <= sum_add_copy(cs),
    decreases cs.len(),
{
    if cs.len() > 0 {
        lemma_extra_bytes_len(s, t, cs.skip(1), spos + cs[0].add + cs[0].seek, tpos + cs[0].add + cs[0].copy);
        assert(t.subrange(tpos + cs[0].add, tpos + cs[0].add + cs[0].copy).len() == cs[0].copy);
    }
}

/// Header discipline: an emitted patch starts with the magic, its three
/// size fields decode to the compressed section lengths and the target
/// length, and all three are non-negative.
pub proof fn lemma_header_discipline(s: Seq<u8>, t: Seq<u8>, cs: Seq<Control>, level: u32)
    requires
        sections_fit(s, t, cs, level),
        t.len() <= i64::MAX,
    ensures
        patch_wire(s, t, cs, level).subrange(0, 8) == magic(),
        dec_int(patch_wire(s, t, cs, level).subrange(8, 16)) == bz_of(ctrl_bytes(cs), level).len(),
        dec_int(patch_wire(s, t, cs, level).subrange(16, 24)) == bz_of(delta_bytes(s, t, cs, 0, 0), level).len(),
        dec_int(patch_wire(s, t, cs, level).subrange(24, 32)) == t.len(),
        dec_int(patch_wire(s, t, cs, level).subrange(8, 16)) >= 0,
        dec_int(patch_wire(s, t, cs, level).subrange(16, 24)) >= 0,
        dec_int(patch_wire(s, t, cs, level).subrange(24, 32)) >= 0,
{
    let p = patch_wire(s, t, cs, level);
    let zc = bz_of(ctrl_bytes(cs), level);
    let zd = bz_of(delta_bytes(s, t, cs, 0, 0), level);
    lemma_codec_round_trip(zc.len() as i64);
    lemma_codec_round_trip(zd.len() as i64);
    lemma_codec_round_trip(t.len() as i64);
    assert(p.subrange(0, 8) =~= magic());
    assert(p.subrange(8, 16) =~= enc_int(zc.len() as i64));
    assert(p.subrange(16, 24) =~= enc_int(zd.len() as i64));
    assert(p.subrange(24, 32) =~= enc_int(t.len() as i64));
    assert(enc_int(zc.len() as i64).subrange(0, 8) =~= enc_int(zc.len() as i64));
    assert(enc_int(zd.len() as i64).subrange(0, 8) =~= enc_int(zd.len() as i64));
    assert(enc_int(t.len() as i64).subrange(0, 8) =~= enc_int(t.len() as i64));
}

/// Appends `t[tpos..tpos+n]` minus `s[spos..spos+n]`, byte for byte.
fn push_delta(out: &mut Vec<u8>, s: &[u8], t: &[u8], spos: usize, tpos: usize, n: usize)
    requires
        spos + n <= s@.len(),
        tpos + n <= t@.len(),
    ensures
        final(out)@ == old(out)@ + delta_of(s@, t@, spos as int, tpos as int, n as int),
{
    let sl: usize = s.len();
    let tl: usize = t.len();
    let mut q: usize = 0;
    while q < n
        invariant
            0 <= q <= n,
            spos + n <= sl,
            tpos + n <= tl,
            sl == s@.len(),
            tl == t@.len(),
            out@ == old(out)@ + delta_of(s@, t@, spos as int, tpos as int, q as int),
        decreases n - q,
    {
        let d = t[tpos + q].wrapping_sub(s[spos + q]);
        out.push(d);
        proof {
            assert(out@ =~= old(out)@ + delta_of(s@, t@, spos as int, tpos as int, q + 1));
        }
        q = q + 1;
    }
    proof {
        assert(out@ =~= old(out)@ + delta_of(s@, t@, spos as int, tpos as int, n as int));
    }
}

/// Appends `t[from..to]` verbatim.
fn push_range(out: &mut Vec<u8>, t: &[u8], from: usize, to: usize)
    requires
        from <= to <= t@.len(),
    ensures
        final(out)@ == old(out)@ + t@.subrange(from as int, to as int),
{
    let tl: usize = t.len();
    let mut q: usize = from;
    while q < to
        invariant
            from <= q <= to,
            to <= tl,
            tl == t@.len(),
            out@ == old(out)@ + t@.subrange(from as int, q as int),
        decreases to - q,
    {
        let b = t[q];
        out.push(b);
        proof {
            assert(out@ =~= old(out)@ + t@.subrange(from as int, q + 1));
        }
        q = q + 1;
    }
    proof {
        assert(out@ =~= old(out)@ + t@.subrange(from as int, to as int));
    }
}

/// Constructs the bsdiff 4.x patch bytes from a control stream.
///
/// The delta section is computed through a buffer of at most `bsize`
/// bytes at a time.  Fails only when a compressed section outgrows the
/// header's signed size fields.
pub(crate) fn pack(
    source: &[u8],
    target: &[u8],
    ctrls: &Vec<Control>,
    level: u32,
    bsize: usize,
) -> (r: Result<Vec<u8>, Error>)
    requires
        covers(source@, target@, ctrls@),
        source@.len() <= i64::MAX,
        target@.len() <= i64::MAX,
        1 <= level <= 9,
        bsize >= 1,
    ensures
        match r {
            Ok(p) => sections_fit(source@, target@, ctrls@, level) && p@ == patch_wire(
                source@,
                target@,
                ctrls@,
                level,
            ),
            Err(e) => e == Error::TooLarge && !sections_fit(source@, target@, ctrls@, level),
        },
        (compress_bound(ctrl_bytes(ctrls@).len() as int) <= i64::MAX && compress_bound(
            delta_bytes(source@, target@, ctrls@, 0, 0).len() as int,
        ) <= i64::MAX && compress_bound(extra_bytes(target@, ctrls@, 0).len() as int)
            <= i64::MAX) ==> r is Ok,
{
    proof {
        lemma_steps_wf(source@, target@, ctrls@, 0, 0);
    }
    let ghost cs = ctrls@;
    let slen: usize = source.len();
    let tlen: usize = target.len();
    proof {
        assert(cs.skip(0) =~= cs);
        assert(cs.take(0) =~= Seq::<Control>::empty());
    }
    let mut cb: Vec<u8> = Vec::new();
    let mut db: Vec<u8> = Vec::new();
    let mut eb: Vec<u8> = Vec::new();
    let mut spos: u64 = 0;
    let mut tpos: usize = 0;
    let mut k: usize = 0;
    while k < ctrls.len()
        invariant
            covers(source@, target@, cs),
            seq_wf(cs),
            source@.len() <= i64::MAX,
            target@.len() <= i64::MAX,
            slen == source@.len(),
            tlen == target@.len(),
            bsize >= 1,
            cs == ctrls@,
            0 <= k <= cs.len(),
            cb@ == ctrl_bytes(cs.take(k as int)),
            db@ == delta_bytes(source@, target@, cs.take(k as int), 0, 0),
            eb@ == extra_bytes(target@, cs.take(k as int), 0),
            spos == spos_after(cs.take(k as int), 0),
            tpos == tpos_after(cs.take(k as int), 0),
            steps_ok(source@, target@, cs.skip(k as int), spos as int, tpos as int),
        decreases cs.len() - k,
    {
        let c = ctrls[k];
        proof {
            assert(cs.skip(k as int)[0] == cs[k as int]);
            assert(cs.skip(k as int).skip(1) =~= cs.skip(k + 1));
            assert(cs.take(k + 1) =~= cs.take(k as int).push(c));
            lemma_ctrl_bytes_push(cs.take(k as int), c);
            lemma_delta_bytes_push(source@, target@, cs.take(k as int), c, 0, 0);
            lemma_extra_bytes_push(target@, cs.take(k as int), c, 0);
            lemma_spos_after_push(cs.take(k as int), c, 0);
            lemma_tpos_after_push(cs.take(k as int), c, 0);
            assert(ctrl_wf(cs[k as int]));
            assert(spos + c.add <= source@.len());
            assert(tpos + c.add + c.copy <= target@.len());
            assert(0 <= spos + c.add + c.seek);
            assert(steps_ok(
                source@,
                target@,
                cs.skip(k + 1),
                spos + c.add + c.seek,
                tpos + c.add + c.copy,
            ));
        }

        // Write control data.
        let mut word = encode_int(c.add as i64);
        cb.append(&mut word);
        let mut word = encode_int(c.copy as i64);
        cb.append(&mut word);
        let mut word = encode_int(c.seek);
        cb.append(&mut word);
        proof {
            assert(cb@ =~= ctrl_bytes(cs.take(k + 1)));
        }

        // Compute and write delta data, a bounded buffer at a time.
        let add: usize = c.add as usize;
        let sp: usize = spos as usize;
        let mut done: usize = 0;
        while done < add
            invariant
                0 <= done <= add,
                sp + add <= slen,
                tpos + add <= tlen,
                slen == source@.len(),
                tlen == target@.len(),
                bsize >= 1,
                db@ == delta_bytes(source@, target@, cs.take(k as int), 0, 0) + delta_of(
                    source@,
                    target@,
                    sp as int,
                    tpos as int,
                    done as int,
                ),
            decreases add - done,
        {
            let step: usize = if add - done < bsize {
                add - done
            } else {
                bsize
            };
            push_delta(&mut db, source, target, sp + done, tpos + done, step);
            proof {
                assert(delta_of(source@, target@, sp as int, tpos as int, done + step)
                    =~= delta_of(source@, target@, sp as int, tpos as int, done as int)
                    + delta_of(source@, target@, sp + done, tpos + done, step as int));
                assert(db@ =~= delta_bytes(source@, target@, cs.take(k as int), 0, 0) + delta_of(
                    source@,
                    target@,
                    sp as int,
                    tpos as int,
                    done + step,
                ));
            }
            done = done + step;
        }
        proof {
            assert(db@ =~= delta_bytes(source@, target@, cs.take(k + 1), 0, 0));
        }

        // Write extra data.
        let copy: usize = c.copy as usize;
        push_range(&mut eb, target, tpos + add, tpos + add + copy);
        proof {
            assert(eb@ =~= extra_bytes(target@, cs.take(k + 1), 0));
        }

        // Advance the cursors.
        tpos = tpos + add + copy;
        let mut snext: u64 = spos + c.add;
        if c.seek >= 0 {
            snext = snext + (c.seek as u64);
        } else {
            let back: u64 = ((-1i64 - c.seek) as u64) + 1;
            snext = snext - back;
        }
        spos = snext;
        k = k + 1;
    }
    proof {
        assert(cs.take(cs.len() as int) =~= cs);
    }

    // Compress the three sections.
    let zc = bz_compress(cb.as_slice(), level);
    let zd = bz_compress(db.as_slice(), level);
    let ze = bz_compress(eb.as_slice(), level);
    if zc.len() as u64 > (i64::MAX as u64) || zd.len() as u64 > (i64::MAX as u64) || ze.len()
        as u64 > (i64::MAX as u64) {
        return Err(Error::TooLarge);
    }

    // Write the header, then the compressed sections.
    let mut patch: Vec<u8> = Vec::new();
    patch.push(0x42u8);
    patch.push(0x53u8);
    patch.push(0x44u8);
    patch.push(0x49u8);
    patch.push(0x46u8);
    patch.push(0x46u8);
    patch.push(0x34u8);
    patch.push(0x30u8);
    let mut word = encode_int(zc.len() as i64);
    patch.append(&mut word);
    let mut word = encode_int(zd.len() as i64);
    patch.append(&mut word);
    let mut word = encode_int(target.len() as i64);
    patch.append(&mut word);
    let mut zc = zc;
    let mut zd = zd;
    let mut ze = ze;
    patch.append(&mut zc);
    patch.append(&mut zd);
    patch.append(&mut ze);
    proof {
        assert(patch@ =~= patch_wire(source@, target@, ctrls@, level));
    }
    Ok(patch)
}

} // verus!
