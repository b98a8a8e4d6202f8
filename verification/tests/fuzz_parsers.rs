//! Mutated input: no parser panics, and none hangs.
use aegis_host::ipc::native_messaging;
use aegis_host::scanner::entropy::Measurement;
use aegis_host::scanner::{
    archive, autoexec, entropy, magic_bytes, pe, structure, whole_file_scan,
};
use std::time::{Duration, Instant};

/// Mutations for each seed and target.
const ITERATIONS: u32 = 400;

/// No input may take longer than this.
const PER_INPUT_BUDGET: Duration = Duration::from_secs(5);

/// Shannon entropy in bits per byte.
fn shannon(data: &[u8]) -> f32 {
    if data.is_empty() {
        return 0.0;
    }
    let counts = entropy::byte_counts(data);
    let len = data.len() as f32;
    let mut h = 0.0f32;
    for &c in counts.iter() {
        if c > 0 {
            let p = c as f32 / len;
            h -= p * p.log2();
        }
    }
    h
}

fn nanobits(h: f32) -> u64 {
    (f64::from(h) * 1e9).floor() as u64
}

fn measure(data: &[u8]) -> Measurement {
    Measurement {
        overall: nanobits(shannon(data)),
        windows: entropy::windows(data.len())
            .iter()
            .map(|w| nanobits(shannon(&data[w.0..w.1])))
            .collect(),
    }
}

/// A generator of numbers that a seed determines.
struct Rng(u64);

impl Rng {
    fn new(seed: u64) -> Self {
        Self(if seed == 0 { 0x9E37_79B9_7F4A_7C15 } else { seed })
    }

    fn next(&mut self) -> u64 {
        self.0 ^= self.0 << 13;
        self.0 ^= self.0 >> 7;
        self.0 ^= self.0 << 17;
        self.0
    }

    fn below(&mut self, n: usize) -> usize {
        if n == 0 {
            0
        } else {
            (self.next() % n as u64) as usize
        }
    }

    fn byte(&mut self) -> u8 {
        (self.next() >> 24) as u8
    }
}

fn seed_pe() -> Vec<u8> {
    let pe_off = 0x80usize;
    let opt_size = 0xE0usize;
    let sec_table = pe_off + 4 + 20 + opt_size;
    let mut d = vec![0u8; sec_table + 40 + 0x200];

    d[0..2].copy_from_slice(b"MZ");
    d[0x3C..0x40].copy_from_slice(&(pe_off as u32).to_le_bytes());
    d[pe_off..pe_off + 4].copy_from_slice(b"PE\0\0");
    d[pe_off + 6..pe_off + 8].copy_from_slice(&1u16.to_le_bytes());
    d[pe_off + 20..pe_off + 22].copy_from_slice(&(opt_size as u16).to_le_bytes());

    let opt = pe_off + 4 + 20;
    d[opt..opt + 2].copy_from_slice(&0x10Bu16.to_le_bytes());
    d[opt + 16..opt + 20].copy_from_slice(&0x1000u32.to_le_bytes());

    let o = sec_table;
    d[o..o + 5].copy_from_slice(b".text");
    d[o + 8..o + 12].copy_from_slice(&0x200u32.to_le_bytes());
    d[o + 12..o + 16].copy_from_slice(&0x1000u32.to_le_bytes());
    d[o + 16..o + 20].copy_from_slice(&0x200u32.to_le_bytes());
    d[o + 20..o + 24].copy_from_slice(&(sec_table as u32 + 40).to_le_bytes());
    d[o + 36..o + 40].copy_from_slice(&0x6000_0020u32.to_le_bytes());
    d
}

fn seed_zip() -> Vec<u8> {
    zip(&[("readme.txt", b"hello world"), ("bin/tool.exe", b"MZ\x90\x00")])
}

fn zip(entries: &[(&str, &[u8])]) -> Vec<u8> {
    let mut out: Vec<u8> = Vec::new();
    let mut central: Vec<u8> = Vec::new();

    for (name, content) in entries {
        let local_offset = out.len() as u32;
        out.extend(b"PK\x03\x04");
        out.extend(20u16.to_le_bytes());
        out.extend(0u16.to_le_bytes());
        out.extend(0u16.to_le_bytes());
        out.extend([0u8; 4]);
        out.extend(0u32.to_le_bytes());
        out.extend((content.len() as u32).to_le_bytes());
        out.extend((content.len() as u32).to_le_bytes());
        out.extend((name.len() as u16).to_le_bytes());
        out.extend(0u16.to_le_bytes());
        out.extend(name.as_bytes());
        out.extend(*content);

        central.extend(b"PK\x01\x02");
        central.extend(20u16.to_le_bytes());
        central.extend(20u16.to_le_bytes());
        central.extend(0u16.to_le_bytes());
        central.extend(0u16.to_le_bytes());
        central.extend([0u8; 4]);
        central.extend(0u32.to_le_bytes());
        central.extend((content.len() as u32).to_le_bytes());
        central.extend((content.len() as u32).to_le_bytes());
        central.extend((name.len() as u16).to_le_bytes());
        central.extend(0u16.to_le_bytes());
        central.extend(0u16.to_le_bytes());
        central.extend(0u16.to_le_bytes());
        central.extend(0u16.to_le_bytes());
        central.extend(0u32.to_le_bytes());
        central.extend(local_offset.to_le_bytes());
        central.extend(name.as_bytes());
    }

    let cd_offset = out.len() as u32;
    let cd_size = central.len() as u32;
    out.extend(&central);
    out.extend(b"PK\x05\x06");
    out.extend([0u8; 4]);
    out.extend((entries.len() as u16).to_le_bytes());
    out.extend((entries.len() as u16).to_le_bytes());
    out.extend(cd_size.to_le_bytes());
    out.extend(cd_offset.to_le_bytes());
    out.extend(0u16.to_le_bytes());
    out
}

fn seed_ooxml() -> Vec<u8> {
    zip(&[
        ("[Content_Types].xml", b"<?xml version=\"1.0\"?><Types/>"),
        ("word/document.xml", b"<?xml version=\"1.0\"?><document/>"),
        ("word/vbaProject.bin", b"\xD0\xCF\x11\xE0\xA1\xB1\x1A\xE1macro"),
    ])
}

fn seed_lnk() -> Vec<u8> {
    let mut d = Vec::new();
    d.extend(0x0000_004Cu32.to_le_bytes());
    d.extend([
        0x01, 0x14, 0x02, 0x00, 0x00, 0x00, 0x00, 0x00, 0xC0, 0x00, 0x00, 0x00, 0x00, 0x00, 0x00,
        0x46,
    ]);
    d.extend(0x8000_0084u32.to_le_bytes());
    d.extend(0x0000_0020u32.to_le_bytes());
    d.extend([0u8; 8 * 3]);
    d.extend(0u32.to_le_bytes());
    d.extend(0u32.to_le_bytes());
    d.extend(1u32.to_le_bytes());
    d.extend(0u16.to_le_bytes());
    d.extend([0u8; 10]);
    let args: Vec<u16> = "/c powershell -enc ZQBjAGgAbwA="
        .encode_utf16()
        .collect();
    d.extend((args.len() as u16).to_le_bytes());
    for u in args {
        d.extend(u.to_le_bytes());
    }
    d
}

fn seed_png() -> Vec<u8> {
    let mut v = b"\x89PNG\r\n\x1a\n".to_vec();
    v.extend(std::iter::repeat_n(0xA5u8, 256));
    v.extend(b"IEND\xAE\x42\x60\x82");
    v
}

fn seed_ole() -> Vec<u8> {
    let mut v = b"\xD0\xCF\x11\xE0\xA1\xB1\x1A\xE1".to_vec();
    v.extend(std::iter::repeat_n(0u8, 504));
    v.extend(b"V\0b\0a\0P\0r\0o\0j\0e\0c\0t\0");
    v.extend(std::iter::repeat_n(0u8, 256));
    v
}

fn corpus() -> Vec<(&'static str, Vec<u8>)> {
    vec![
        ("pe", seed_pe()),
        ("zip", seed_zip()),
        ("ooxml", seed_ooxml()),
        ("lnk", seed_lnk()),
        ("png", seed_png()),
        ("ole", seed_ole()),
        ("empty", Vec::new()),
        ("tiny", b"MZ".to_vec()),
    ]
}

#[derive(Debug, Clone, Copy, PartialEq)]
enum Mutation {
    FlipBytes,
    Truncate,
    SlamLengthField,
    Splice,
    Extend,
    Zero,
}

const MUTATIONS: &[Mutation] = &[
    Mutation::FlipBytes,
    Mutation::Truncate,
    Mutation::SlamLengthField,
    Mutation::SlamLengthField,
    Mutation::Splice,
    Mutation::Extend,
    Mutation::Zero,
];

const EXTREMES: &[u64] = &[
    0,
    1,
    0x7F,
    0xFF,
    0x7FFF,
    0xFFFF,
    0x7FFF_FFFF,
    0xFFFF_FFFF,
    0xFFFF_FFFF_FFFF_FFFF,
];

fn mutate(input: &[u8], rng: &mut Rng, how: Mutation) -> Vec<u8> {
    let mut d = input.to_vec();
    if d.is_empty() {
        d.extend_from_slice(b"MZ\x90\x00");
    }

    match how {
        Mutation::FlipBytes => {
            let n = 1 + rng.below(8);
            for _ in 0..n {
                let i = rng.below(d.len());
                d[i] ^= 1 << rng.below(8);
            }
        }
        Mutation::Truncate => {
            let at = rng.below(d.len());
            d.truncate(at);
        }
        Mutation::SlamLengthField => {
            let width = [2usize, 4, 8][rng.below(3)];
            let value = EXTREMES[rng.below(EXTREMES.len())];
            if d.len() >= width {
                let at = rng.below(d.len() - width + 1);
                let bytes = value.to_le_bytes();
                d[at..at + width].copy_from_slice(&bytes[..width]);
            }
        }
        Mutation::Splice => {
            if d.len() > 8 {
                let len = 1 + rng.below(d.len() / 2);
                let from = rng.below(d.len() - len + 1);
                let to = rng.below(d.len() - len + 1);
                let chunk: Vec<u8> = d[from..from + len].to_vec();
                d[to..to + len].copy_from_slice(&chunk);
            }
        }
        Mutation::Extend => {
            let n = 1 + rng.below(512);
            for _ in 0..n {
                d.push(rng.byte());
            }
        }
        Mutation::Zero => {
            let len = 1 + rng.below(d.len());
            let at = rng.below(d.len() - len + 1);
            for b in &mut d[at..at + len] {
                *b = 0;
            }
        }
    }
    d
}

type Target = (&'static str, fn(&[u8], &str));

const TARGETS: &[Target] = &[
    ("pe", |d, _| {
        let _ = pe::analyse(d);
    }),
    ("archive", |d, n| {
        let _ = archive::analyse(d, n);
        let _ = archive::list_entries(d);
    }),
    ("autoexec", |d, n| {
        let _ = autoexec::analyse(d, n);
    }),
    ("structure", |d, n| {
        let _ = structure::analyse(d, n);
    }),
    ("entropy", |d, n| {
        let ext = n.rsplit_once('.').map(|(_, e)| e).unwrap_or("");
        let _ = entropy::analyse(d, ext, &measure(d));
    }),
    ("magic_bytes", |d, n| {
        let _ = magic_bytes::scan_file(d, n);
    }),
    ("whole_file", |d, n| {
        let _ = whole_file_scan(d, n, &measure(d));
    }),
];

const NAMES: &[&str] = &[
    "sample.zip",
    "invoice.pdf.exe",
    "document.docm",
    "shortcut.lnk",
    "photo.png",
    "installer.msi",
    "autorun.inf",
    "",
    ".",
    "no_extension",
];

fn replay(seed_bytes: &[u8], seed: u64, how: Mutation) -> Vec<u8> {
    let mut rng = Rng::new(seed);
    mutate(seed_bytes, &mut rng, how)
}

#[test]
fn parsers_survive_mutated_input() {
    let corpus = corpus();
    let mut cases = 0u64;

    for (target_name, target) in TARGETS {
        for (corpus_name, seed_bytes) in &corpus {
            for i in 0..ITERATIONS {
                let seed = (*target_name).len() as u64 * 1_000_003
                    + corpus_name.len() as u64 * 10_007
                    + u64::from(i) * 31
                    + seed_bytes.len() as u64;
                let mut rng = Rng::new(seed);
                let how = MUTATIONS[rng.below(MUTATIONS.len())];
                let data = replay(seed_bytes, seed, how);
                let name = NAMES[rng.below(NAMES.len())];

                let started = Instant::now();
                target(&data, name);
                let elapsed = started.elapsed();

                assert!(
                    elapsed < PER_INPUT_BUDGET,
                    "target {target_name:?} took {elapsed:?} on a mutated {corpus_name:?} \
                     ({} bytes, name {name:?}) — a parser this slow is looping, and a looping \
                     parser holds the download open forever. \
                     Reproduce with seed={seed} mutation={how:?}",
                    data.len()
                );

                cases += 1;
            }
        }
    }

    assert!(
        cases > 10_000,
        "only {cases} fuzz cases ran; the corpus or target list has shrunk"
    );
}

#[test]
fn frame_parser_survives_mutated_input() {
    let mut cases = 0u64;

    let seeds: Vec<Vec<u8>> = [
        "{\"type\":\"PING\"}",
        "{\"quarantine_path\":\"p\",\"session_id\":\"s\",\"type\":\"WATCH_BEGIN\"}",
        "{\"type\":\"CHECK_URL\",\"url\":\"https://example.invalid/x\"}",
    ]
    .iter()
    .map(|body| {
        let mut f = (body.len() as u32).to_le_bytes().to_vec();
        f.extend(body.as_bytes());
        f
    })
    .collect();

    for (si, seed_frame) in seeds.iter().enumerate() {
        for i in 0..ITERATIONS * 4 {
            let seed = si as u64 * 7_919 + u64::from(i) * 131 + 17;
            let mut rng = Rng::new(seed);
            let how = MUTATIONS[rng.below(MUTATIONS.len())];
            let data = replay(seed_frame, seed, how);

            let started = Instant::now();
            let _ = native_messaging::read_frame(&data);
            let elapsed = started.elapsed();

            assert!(
                elapsed < PER_INPUT_BUDGET,
                "frame parser took {elapsed:?} on {} bytes — reproduce with seed={seed} \
                 mutation={how:?}",
                data.len()
            );
            cases += 1;
        }
    }

    assert_eq!(cases, u64::from(ITERATIONS) * 4 * 3);
}

#[test]
fn oversized_length_prefix_allocates_nothing() {
    for claimed in [
        native_messaging::MAX_MESSAGE_BYTES + 1,
        0x7FFF_FFFF,
        0xFFFF_FFFF,
    ] {
        let mut data = claimed.to_le_bytes().to_vec();
        data.extend_from_slice(b"{}");

        let started = Instant::now();
        let result = native_messaging::read_frame(&data);
        let elapsed = started.elapsed();

        assert!(
            result.is_err(),
            "a frame claiming {claimed} bytes must be rejected, not parsed"
        );
        assert!(
            elapsed < Duration::from_millis(500),
            "rejecting an oversized prefix took {elapsed:?} — the length was probably \
             used to size an allocation before being validated"
        );
    }
}

#[test]
fn degenerate_frames_are_classified_correctly() {
    assert!(
        native_messaging::read_frame(&0u32.to_le_bytes()).is_err(),
        "a zero-length frame must be rejected"
    );

    let mut data = 100u32.to_le_bytes().to_vec();
    data.extend_from_slice(b"{");
    assert!(
        native_messaging::read_frame(&data).is_err(),
        "a truncated body must be rejected"
    );

    assert!(
        matches!(native_messaging::read_frame(&[]), Ok(None)),
        "an empty stream is a clean shutdown, not an error"
    );

    assert!(
        matches!(native_messaging::read_frame(&[1u8, 2]), Ok(None)),
        "a partial length prefix must be treated as a disconnect, never padded \
         out into a length"
    );
}

#[test]
fn mutations_are_reproducible() {
    let seed_data = seed_zip();
    for how in MUTATIONS {
        let a = replay(&seed_data, 12345, *how);
        let b = replay(&seed_data, 12345, *how);
        assert_eq!(a, b, "mutation {how:?} is not deterministic");
    }
    let distinct: std::collections::HashSet<Vec<u8>> = (0..64)
        .map(|s| replay(&seed_data, s, Mutation::FlipBytes))
        .collect();
    assert!(
        distinct.len() > 32,
        "64 seeds produced only {} distinct inputs — the PRNG is not mixing",
        distinct.len()
    );
}
