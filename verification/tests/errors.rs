use qbsdiff::Bsdiff;
use qbsdiff::Bspatch;
use qbsdiff::Error;
use qbsdiff::encode_int;

fn bzip(data: &[u8], level: u32) -> Vec<u8> {
    let mut enc = bzip2::write::BzEncoder::new(Vec::new(), bzip2::Compression::new(level));
    std::io::Write::write_all(&mut enc, data).unwrap();
    enc.finish().unwrap()
}

fn make_patch(cb: &[u8], db: &[u8], eb: &[u8], tsize: i64) -> Vec<u8> {
    let zc = bzip(cb, 6);
    let zd = bzip(db, 6);
    let ze = bzip(eb, 6);
    let mut patch = Vec::new();
    patch.extend_from_slice(b"BSDIFF40");
    patch.extend_from_slice(&encode_int(zc.len() as i64));
    patch.extend_from_slice(&encode_int(zd.len() as i64));
    patch.extend_from_slice(&encode_int(tsize));
    patch.extend_from_slice(&zc);
    patch.extend_from_slice(&zd);
    patch.extend_from_slice(&ze);
    patch
}

fn controls(records: &[(i64, i64, i64)]) -> Vec<u8> {
    let mut cb = Vec::new();
    for &(a, c, k) in records {
        cb.extend_from_slice(&encode_int(a));
        cb.extend_from_slice(&encode_int(c));
        cb.extend_from_slice(&encode_int(k));
    }
    cb
}

#[test]
fn rejects_short_patch() {
    let r = Bspatch::new(b"BSDIFF40");
    assert_eq!(r.err().unwrap(), Error::InvalidData);
}

#[test]
fn rejects_bad_magic() {
    let mut p = make_patch(&[], &[], &[], 0);
    p[0] = b'X';
    let r = Bspatch::new(&p);
    assert_eq!(r.err().unwrap(), Error::InvalidData);
}

#[test]
fn rejects_oversized_section_lengths() {
    let mut p = make_patch(&[], &[], &[], 0);
    let huge = encode_int(1 << 40);
    p[8..16].copy_from_slice(&huge);
    let r = Bspatch::new(&p);
    assert_eq!(r.err().unwrap(), Error::InvalidData);
}

#[test]
fn rejects_garbage_sections() {
    let mut patch = Vec::new();
    patch.extend_from_slice(b"BSDIFF40");
    patch.extend_from_slice(&encode_int(4));
    patch.extend_from_slice(&encode_int(4));
    patch.extend_from_slice(&encode_int(0));
    patch.extend_from_slice(&[1, 2, 3, 4, 5, 6, 7, 8, 9, 10, 11, 12]);
    let r = Bspatch::new(&patch).unwrap().apply(b"source");
    assert_eq!(r.err().unwrap(), Error::InvalidData);
}

#[test]
fn rejects_truncated_control_record() {
    let p = make_patch(&[1, 2, 3, 4, 5, 6, 7, 8, 9, 10, 11, 12], &[], &[], 0);
    let r = Bspatch::new(&p).unwrap().apply(b"source");
    assert_eq!(r.err().unwrap(), Error::UnexpectedEof);
}

#[test]
fn rejects_delta_underflow() {
    let cb = controls(&[(3, 0, 0)]);
    let p = make_patch(&cb, &[0, 0], &[], 3);
    let r = Bspatch::new(&p).unwrap().apply(b"source");
    assert_eq!(r.err().unwrap(), Error::UnexpectedEof);
}

#[test]
fn rejects_extra_underflow() {
    let cb = controls(&[(0, 5, 0)]);
    let p = make_patch(&cb, &[], &[1, 2], 5);
    let r = Bspatch::new(&p).unwrap().apply(b"source");
    assert_eq!(r.err().unwrap(), Error::UnexpectedEof);
}

#[test]
fn rejects_source_overrun() {
    let cb = controls(&[(10, 0, 0)]);
    let p = make_patch(&cb, &[0; 10], &[], 10);
    let r = Bspatch::new(&p).unwrap().apply(b"abc");
    assert_eq!(r.err().unwrap(), Error::UnexpectedEof);
}

#[test]
fn rejects_seek_before_source_start() {
    let cb = controls(&[(0, 0, -1)]);
    let p = make_patch(&cb, &[], &[], 0);
    let r = Bspatch::new(&p).unwrap().apply(b"source");
    assert_eq!(r.err().unwrap(), Error::SourceIo);
}

#[test]
fn diff_tool_rejects_bad_level() {
    let r = qbsdiff::cmd::diff::execute(
        b"source",
        b"target",
        false,
        false,
        false,
        None,
        None,
        Some(10),
        None,
    );
    assert_eq!(r.err().unwrap(), Error::InvalidArgument);
}

#[test]
fn diff_tool_rejects_double_stdin() {
    let r = qbsdiff::cmd::diff::execute(
        b"source",
        b"target",
        true,
        true,
        false,
        None,
        None,
        None,
        None,
    );
    assert_eq!(r.err().unwrap(), Error::InvalidArgument);
}

#[test]
fn patch_tool_rejects_double_stdin() {
    let r = qbsdiff::cmd::patch::execute(b"source", b"patch", true, true, None);
    assert_eq!(r.err().unwrap(), Error::InvalidArgument);
}

#[test]
fn tools_run_end_to_end() {
    let s = b"the quick brown fox jumps over the lazy dog";
    let t = b"the quick brown cat naps under the lazy dog";
    let p = qbsdiff::cmd::diff::execute(s, t, false, false, true, None, None, Some(9), Some(8))
        .unwrap();
    let out = qbsdiff::cmd::patch::execute(s, &p, false, false, Some(4096)).unwrap();
    assert_eq!(out, t);
}

#[test]
fn error_messages_are_stable() {
    assert_eq!(Error::InvalidArgument.message(), "invalid argument");
    assert_eq!(Error::InvalidData.message(), "invalid patch data");
    assert_eq!(Error::UnexpectedEof.message(), "unexpected end of stream");
}
