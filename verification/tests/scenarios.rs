use qbsdiff::Bsdiff;
use qbsdiff::Bspatch;
use qbsdiff::ParallelScheme;
use qbsdiff::decode_int;

fn qbsdiff(s: &[u8], t: &[u8]) -> Vec<u8> {
    Bsdiff::new(s, t).compare().unwrap()
}

fn qbspatch(s: &[u8], p: &[u8]) -> Vec<u8> {
    Bspatch::new(p).unwrap().apply(s).unwrap()
}

fn bunzip(data: &[u8]) -> Vec<u8> {
    let mut dec = bzip2::read::BzDecoder::new(data);
    let mut out = Vec::new();
    std::io::Read::read_to_end(&mut dec, &mut out).unwrap();
    out
}

fn bzip(data: &[u8], level: u32) -> Vec<u8> {
    let mut enc = bzip2::write::BzEncoder::new(Vec::new(), bzip2::Compression::new(level));
    std::io::Write::write_all(&mut enc, data).unwrap();
    enc.finish().unwrap()
}

/// The header's three size fields, decoded.
fn header_sizes(patch: &[u8]) -> (i64, i64, i64) {
    (
        decode_int(&patch[8..16]),
        decode_int(&patch[16..24]),
        decode_int(&patch[24..32]),
    )
}

/// All control records of a patch, decoded: (add, copy, seek).
fn decoded_controls(patch: &[u8]) -> Vec<(u64, u64, i64)> {
    let (csize, _, _) = header_sizes(patch);
    let cb = bunzip(&patch[32..32 + csize as usize]);
    assert_eq!(cb.len() % 24, 0, "control section is whole records");
    let mut out = Vec::new();
    let mut pos = 0;
    while pos < cb.len() {
        let add = decode_int(&cb[pos..pos + 8]) as u64;
        let copy = decode_int(&cb[pos + 8..pos + 16]) as u64;
        let seek = decode_int(&cb[pos + 16..pos + 24]);
        out.push((add, copy, seek));
        pos += 24;
    }
    out
}

/// A small deterministic xorshift generator for reproducible byte runs.
struct XorShift(u64);

impl XorShift {
    fn next(&mut self) -> u64 {
        let mut x = self.0;
        x ^= x << 13;
        x ^= x >> 7;
        x ^= x << 17;
        self.0 = x;
        x
    }

    fn bytes(&mut self, n: usize) -> Vec<u8> {
        let mut v = Vec::with_capacity(n);
        while v.len() < n {
            let w = self.next();
            for k in 0..8 {
                if v.len() < n {
                    v.push((w >> (8 * k)) as u8);
                }
            }
        }
        v
    }
}

#[test]
fn empty_source_empty_target() {
    let p = qbsdiff(b"", b"");
    assert!(p.len() >= 32);
    let (csize, dsize, tsize) = header_sizes(&p);
    assert!(csize >= 0 && dsize >= 0);
    assert_eq!(tsize, 0);
    assert_eq!(qbspatch(b"", &p), b"");
    assert!(decoded_controls(&p).is_empty());
}

#[test]
fn empty_source_some_target() {
    let p = qbsdiff(b"", b"extra");
    let ctrls = decoded_controls(&p);
    assert_eq!(ctrls, vec![(0, 5, 0)]);
    let (csize, dsize, _) = header_sizes(&p);
    let delta = bunzip(&p[32 + csize as usize..32 + csize as usize + dsize as usize]);
    assert!(delta.is_empty());
    let extra = bunzip(&p[32 + csize as usize + dsize as usize..]);
    assert_eq!(extra, b"extra");
    assert_eq!(qbspatch(b"", &p), b"extra");
}

#[test]
fn identical_source_and_target() {
    let s = b"the quick brown fox";
    let p = qbsdiff(s, s);
    assert_eq!(qbspatch(s, &p), s);
    let ctrls = decoded_controls(&p);
    let add_sum: u64 = ctrls.iter().map(|c| c.0).sum();
    assert_eq!(add_sum, 19);
}

#[test]
fn single_word_change() {
    let s = b"the quick brown fox jumps over the lazy dog";
    let t = b"the quick brown cat jumps over the lazy dog";
    let p = qbsdiff(s, t);
    assert_eq!(qbspatch(s, &p), t);
}

#[test]
fn header_discipline() {
    let mut rng = XorShift(0x9e3779b97f4a7c15);
    let s = rng.bytes(3000);
    let mut t = s.clone();
    t.extend_from_slice(b"tail bytes");
    let p = qbsdiff(&s, &t);
    assert_eq!(&p[..8], b"BSDIFF40");
    let (csize, dsize, tsize) = header_sizes(&p);
    assert!(csize >= 0);
    assert!(dsize >= 0);
    assert_eq!(tsize, t.len() as i64);
    assert_eq!(p.len() as i64 >= 32 + csize + dsize, true);
}

#[test]
fn control_sum_accounts_for_target() {
    let mut rng = XorShift(42);
    let s = rng.bytes(5000);
    let mut t = s.clone();
    for i in (0..t.len()).step_by(97) {
        t[i] = t[i].wrapping_add(13);
    }
    let p = qbsdiff(&s, &t);
    let ctrls = decoded_controls(&p);
    let total: u64 = ctrls.iter().map(|c| c.0 + c.1).sum();
    assert_eq!(total, t.len() as u64);
    assert_eq!(qbspatch(&s, &p), t);
}

#[test]
fn random_bytes_with_sparse_mutations() {
    let mut rng = XorShift(0xdeadbeefcafe);
    let s = rng.bytes(1 << 20);
    let mut t = s.clone();
    // Replace about 5% of the positions.
    let mutations = t.len() / 20;
    for _ in 0..mutations {
        let at = (rng.next() as usize) % t.len();
        t[at] = rng.next() as u8;
    }
    let p = Bsdiff::new(&s, &t)
        .parallel_scheme(ParallelScheme::Never)
        .compare()
        .unwrap();
    assert!(p.len() < t.len() / 2, "patch is materially smaller");
    assert_eq!(qbspatch(&s, &p), t);

    let pc = Bsdiff::new(&s, &t)
        .parallel_scheme(ParallelScheme::ChunkSize(256 * 1024))
        .compare()
        .unwrap();
    assert_eq!(qbspatch(&s, &pc), t);
}

#[test]
fn structured_bytes_with_appendix() {
    let mut rng = XorShift(7);
    let motif = rng.bytes(1024);
    let mut s = Vec::with_capacity(4 << 20);
    while s.len() < (4 << 20) {
        s.extend_from_slice(&motif);
    }
    let mut t = s.clone();
    t.extend_from_slice(&rng.bytes(10 * 1024));
    let p = qbsdiff(&s, &t);
    assert_eq!(qbspatch(&s, &p), t);
    let ctrls = decoded_controls(&p);
    assert!(ctrls.iter().any(|c| c.2 > 0), "some seek jumps forward");
    assert!(ctrls.iter().any(|c| c.2 < 0), "some seek jumps backward");
}

#[test]
fn round_trip_across_configurations() {
    let mut rng = XorShift(0x1234_5678_9abc_def0);
    let s = rng.bytes(600 * 1024);
    let mut t = s.clone();
    let extra = rng.bytes(4096);
    for (i, &b) in extra.iter().enumerate() {
        let at = (i * 131) % t.len();
        t[at] = b;
    }
    t.extend_from_slice(&extra);

    let schemes = [
        ParallelScheme::Never,
        ParallelScheme::ChunkSize(256 * 1024),
        ParallelScheme::ChunkSize(1024 * 1024),
        ParallelScheme::Auto,
    ];
    for &small in &[0usize, 8, 12] {
        for &level in &[0u32, 6, 9] {
            for &scheme in &schemes {
                let p = Bsdiff::new(&s, &t)
                    .small_match(small)
                    .compression_level(level)
                    .parallel_scheme(scheme)
                    .compare()
                    .unwrap();
                assert_eq!(
                    qbspatch(&s, &p),
                    t,
                    "round trip failed: small={} level={} scheme={:?}",
                    small,
                    level,
                    scheme
                );
            }
        }
    }
}

#[test]
fn parallel_schemes_agree() {
    let mut rng = XorShift(99);
    let s = rng.bytes(700 * 1024);
    let mut t = rng.bytes(700 * 1024);
    t[..300 * 1024].copy_from_slice(&s[100 * 1024..400 * 1024]);
    let p1 = Bsdiff::new(&s, &t)
        .parallel_scheme(ParallelScheme::Never)
        .compare()
        .unwrap();
    let p2 = Bsdiff::new(&s, &t)
        .parallel_scheme(ParallelScheme::ChunkSize(256 * 1024))
        .compare()
        .unwrap();
    let t1 = qbspatch(&s, &p1);
    let t2 = qbspatch(&s, &p2);
    assert_eq!(t1, t);
    assert_eq!(t2, t);
}

#[test]
fn empty_target_invariance() {
    let mut rng = XorShift(1);
    let s = rng.bytes(4096);
    let p = qbsdiff(&s, b"");
    assert_eq!(qbspatch(&s, &p), b"");
    let (_, _, tsize) = header_sizes(&p);
    assert_eq!(tsize, 0);
}

#[test]
fn hint_target_size_reports_header() {
    let s = b"some source bytes";
    let t = b"some target bytes, a little longer";
    let p = qbsdiff(s, t);
    let patcher = Bspatch::new(&p).unwrap();
    assert_eq!(patcher.hint_target_size(), t.len() as u64);
}

#[test]
fn applies_foreign_conformant_patch() {
    // A patch written by hand, section by section, as any conforming
    // bsdiff 4.x encoder would lay it out: one control taking five source
    // bytes with deltas, then three extra bytes, then a rewind and a
    // second control re-reading the source start.
    let source = b"HELLOworld";
    let mut cb = Vec::new();
    let encode = |x: i64| qbsdiff::encode_int(x);
    cb.extend_from_slice(&encode(5)); // add 5
    cb.extend_from_slice(&encode(3)); // copy 3
    cb.extend_from_slice(&encode(-5)); // seek back to 0
    cb.extend_from_slice(&encode(5)); // add 5 again
    cb.extend_from_slice(&encode(0));
    cb.extend_from_slice(&encode(0));
    let delta: Vec<u8> = vec![32, 32, 32, 32, 32, 0, 0, 0, 0, 0];
    let extra: Vec<u8> = vec![b'!', b'?', b'.'];
    let zc = bzip(&cb, 9);
    let zd = bzip(&delta, 9);
    let ze = bzip(&extra, 9);
    let mut patch = Vec::new();
    patch.extend_from_slice(b"BSDIFF40");
    patch.extend_from_slice(&encode(zc.len() as i64));
    patch.extend_from_slice(&encode(zd.len() as i64));
    patch.extend_from_slice(&encode(13));
    patch.extend_from_slice(&zc);
    patch.extend_from_slice(&zd);
    patch.extend_from_slice(&ze);

    let out = qbspatch(source, &patch);
    assert_eq!(out, b"hello!?.HELLO");
}

#[test]
fn emitted_patch_applies_under_independent_reader() {
    // An applier written from the wire format alone, sharing no code with
    // the library: it must reconstruct the target from the library's patch.
    let mut rng = XorShift(0xabcdef);
    let s = rng.bytes(9000);
    let mut t = s.clone();
    for i in (0..t.len()).step_by(53) {
        t[i] = t[i].wrapping_sub(7);
    }
    t.extend_from_slice(b"fresh tail");
    let p = qbsdiff(&s, &t);

    let (csize, dsize, _) = header_sizes(&p);
    assert_eq!(&p[..8], b"BSDIFF40");
    let cb = bunzip(&p[32..32 + csize as usize]);
    let db = bunzip(&p[32 + csize as usize..32 + (csize + dsize) as usize]);
    let eb = bunzip(&p[32 + (csize + dsize) as usize..]);
    let mut out = Vec::new();
    let mut spos: i64 = 0;
    let mut dpos = 0usize;
    let mut epos = 0usize;
    let mut cpos = 0usize;
    while cpos < cb.len() {
        let add = decode_int(&cb[cpos..cpos + 8]) as usize;
        let copy = decode_int(&cb[cpos + 8..cpos + 16]) as usize;
        let seek = decode_int(&cb[cpos + 16..cpos + 24]);
        for i in 0..add {
            out.push(s[spos as usize + i].wrapping_add(db[dpos + i]));
        }
        spos += add as i64;
        dpos += add;
        out.extend_from_slice(&eb[epos..epos + copy]);
        epos += copy;
        spos += seek;
        cpos += 24;
    }
    assert_eq!(out, t);
}

#[test]
fn verified_round_trip_entry() {
    let mut rng = XorShift(0x5eed);
    let s = rng.bytes(8192);
    let mut t = s.clone();
    t[100] = t[100].wrapping_add(1);
    t.extend_from_slice(b"coda");
    let rebuilt = qbsdiff::roundtrip::round_trip(&s, &t).unwrap();
    assert_eq!(rebuilt, t);
}
