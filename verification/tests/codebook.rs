use statrs::distribution::{Beta, Continuous, ContinuousCDF};
use std::cell::RefCell;
use turbovec::codebook::{
    expected_lengths, load_codebook, save_codebook, validate_codebook_params,
    validate_codebook_parts, CodebookError, CodebookParts, ErrorKind,
};
use turbovec::codebook_cache::{
    cached_codebook, codebook_cache_path, default_codebook_cache_dir, first_save_step,
    load_or_create_codebook, next_save_step, temp_extension, CacheError, CachePath, CodebookCache,
    EnvPaths, Outcome, Platform, SaveStep,
};
use turbovec::text::decimal;
use turbovec::Float32;

fn float(x: f32) -> Float32 {
    Float32 { bits: x.to_bits() }
}

fn dir(root: &str) -> CachePath {
    CachePath::new(root.as_bytes().to_vec())
}

/// The path with its names joined.
fn joined(path: &CachePath) -> String {
    let mut text = String::from_utf8(path.root.clone()).unwrap();
    for name in &path.components {
        text.push('/');
        text.push_str(name);
    }
    text
}

/// The quantizer of a key, by Lloyd's iteration.
fn codebook(bits: usize, dim: usize) -> CodebookParts {
    let a = (dim as f64 - 1.0) / 2.0;
    let beta = Beta::new(a, a).unwrap();
    let n_levels = 1usize << bits;
    let std_dev = (2.0 * a / ((2.0 * a + 1.0) * 4.0 * a)).sqrt();
    let spread = 3.0 * std_dev;
    let mut centroids: Vec<f64> = (0..n_levels)
        .map(|i| -spread + 2.0 * spread * i as f64 / (n_levels as f64 - 1.0))
        .collect();
    for _ in 0..200 {
        let mut edges = vec![-1.0f64];
        for i in 0..n_levels - 1 {
            edges.push((centroids[i] + centroids[i + 1]) / 2.0);
        }
        edges.push(1.0);
        let mut new_centroids = vec![0.0f64; n_levels];
        for i in 0..n_levels {
            let (lo, hi) = (edges[i], edges[i + 1]);
            let prob = beta.cdf((hi + 1.0) / 2.0) - beta.cdf((lo + 1.0) / 2.0);
            new_centroids[i] = if prob < 1e-15 {
                centroids[i]
            } else {
                integrate(&beta, lo, hi) / prob
            };
        }
        let max_change = centroids
            .iter()
            .zip(new_centroids.iter())
            .map(|(a, b)| (a - b).abs())
            .fold(0.0f64, f64::max);
        centroids = new_centroids;
        if max_change < 1e-12 {
            break;
        }
    }
    let boundaries = (0..n_levels - 1)
        .map(|i| float(((centroids[i] + centroids[i + 1]) / 2.0) as f32))
        .collect();
    (boundaries, centroids.iter().map(|&c| float(c as f32)).collect())
}

fn weighted(beta: &Beta, x: f64) -> f64 {
    x * beta.pdf((x + 1.0) / 2.0) / 2.0
}

fn integrate(beta: &Beta, a: f64, b: f64) -> f64 {
    let (fa, fb, fm) = (weighted(beta, a), weighted(beta, b), weighted(beta, (a + b) / 2.0));
    let whole = (b - a) / 6.0 * (fa + 4.0 * fm + fb);
    refine(beta, (a, b), (fa, fb, fm), whole, 1e-14, 50)
}

fn refine(
    beta: &Beta,
    (a, b): (f64, f64),
    (fa, fb, fm): (f64, f64, f64),
    whole: f64,
    tol: f64,
    depth: usize,
) -> f64 {
    let mid = (a + b) / 2.0;
    let fm1 = weighted(beta, (a + mid) / 2.0);
    let fm2 = weighted(beta, (mid + b) / 2.0);
    let left = (mid - a) / 6.0 * (fa + 4.0 * fm1 + fm);
    let right = (b - mid) / 6.0 * (fm + 4.0 * fm2 + fb);
    let refined = left + right;
    if depth == 0 || (refined - whole).abs() < 15.0 * tol {
        refined + (refined - whole) / 15.0
    } else {
        refine(beta, (a, mid), (fa, fm, fm1), left, tol / 2.0, depth - 1)
            + refine(beta, (mid, b), (fm, fb, fm2), right, tol / 2.0, depth - 1)
    }
}

/// Values that are as many as a codebook has.
fn plain_codebook(bits: usize) -> CodebookParts {
    let n = 1usize << bits;
    (
        (0..n - 1).map(|i| float(i as f32 + 0.5)).collect(),
        (0..n).map(|i| float(i as f32)).collect(),
    )
}

#[test]
fn cache_path_depends_on_bits_and_dim() {
    let dir = dir("path");
    let b2_d128 = codebook_cache_path(&dir, 2, 128).unwrap();
    let b4_d128 = codebook_cache_path(&dir, 4, 128).unwrap();
    let b4_d256 = codebook_cache_path(&dir, 4, 256).unwrap();

    assert_ne!(joined(&b2_d128), joined(&b4_d128));
    assert_ne!(joined(&b4_d128), joined(&b4_d256));
    assert_eq!(
        b4_d256.components.last().unwrap().as_str(),
        "codebook-b4-d256-v1.tvcb"
    );
}

#[test]
fn save_and_load_round_trip_for_key() {
    let dir = dir("roundtrip");
    assert!(codebook_cache_path(&dir, 4, 128).is_ok());
    let expected = codebook(4, 128);

    let file = save_codebook(4, 128, &expected.0, &expected.1).unwrap();
    let loaded = load_codebook(&file, 4, 128).unwrap();

    assert_eq!(loaded, expected);
}

#[test]
fn load_rejects_bits_or_dim_mismatch() {
    let dir = dir("mismatch");
    assert!(codebook_cache_path(&dir, 4, 128).is_ok());
    let expected = codebook(4, 128);
    let file = save_codebook(4, 128, &expected.0, &expected.1).unwrap();

    let bits_err = load_codebook(&file, 2, 128).unwrap_err();
    assert_eq!(bits_err.kind(), ErrorKind::InvalidData);
    assert!(bits_err.message().contains("codebook key mismatch"));

    let dim_err = load_codebook(&file, 4, 256).unwrap_err();
    assert_eq!(dim_err.kind(), ErrorKind::InvalidData);
    assert!(dim_err.message().contains("codebook key mismatch"));
}

#[test]
fn load_or_create_repairs_corrupt_file() {
    let dir = dir("repair");
    let path = codebook_cache_path(&dir, 4, 128).unwrap();
    let path = joined(&path);
    let disk: RefCell<Vec<u8>> = RefCell::new(b"bad cache".to_vec());

    let expected = codebook(4, 128);
    let loaded = load_or_create_codebook(
        &dir,
        4,
        128,
        |at: &CachePath| {
            assert_eq!(joined(at), path);
            Some(disk.borrow().clone())
        },
        &codebook,
        |at: &CachePath, file: &Vec<u8>| -> Result<(), ()> {
            assert_eq!(joined(at), path);
            *disk.borrow_mut() = file.clone();
            Ok(())
        },
    )
    .unwrap();
    let repaired = load_codebook(&disk.borrow(), 4, 128).unwrap();

    assert_eq!(loaded, expected);
    assert_eq!(repaired, expected);
}

#[test]
fn the_quantizer_is_symmetric_and_ascending() {
    let (boundaries, centroids) = codebook(2, 64);
    let value = |x: &Float32| f32::from_bits(x.bits);
    assert_eq!(boundaries.len(), 3);
    assert_eq!(centroids.len(), 4);
    for pair in centroids.windows(2) {
        assert!(value(&pair[0]) < value(&pair[1]));
    }
    assert!(value(&boundaries[1]).abs() < 1e-6);
    assert!((value(&centroids[0]) + value(&centroids[3])).abs() < 1e-6);
}

#[test]
fn a_file_is_laid_out_byte_by_byte() {
    let boundaries = vec![float(-1.0), float(0.0), float(1.0)];
    let centroids = vec![float(-1.5), float(-0.5), float(0.5), float(1.5)];
    let file = save_codebook(2, 0x0102_0304, &boundaries, &centroids).unwrap();
    let mut expected: Vec<u8> = Vec::new();
    expected.extend_from_slice(b"TVCB");
    expected.extend_from_slice(&[1, 2]);
    expected.extend_from_slice(&[0x04, 0x03, 0x02, 0x01]);
    expected.extend_from_slice(&[3, 0, 0, 0]);
    expected.extend_from_slice(&[4, 0, 0, 0]);
    for x in [-1.0f32, 0.0, 1.0, -1.5, -0.5, 0.5, 1.5] {
        expected.extend_from_slice(&x.to_le_bytes());
    }
    assert_eq!(file, expected);
}

#[test]
fn special_values_survive_a_file() {
    let mut parts = plain_codebook(3);
    parts.0[0] = Float32 { bits: 0x7FC0_1234 };
    parts.0[1] = Float32 { bits: 0xFF80_0000 };
    parts.1[0] = Float32 { bits: 0x8000_0000 };
    parts.1[1] = Float32 { bits: 0x0000_0001 };
    let file = save_codebook(3, 2, &parts.0, &parts.1).unwrap();
    assert_eq!(load_codebook(&file, 3, 2).unwrap(), parts);
}

#[test]
fn what_lies_behind_the_values_is_not_read() {
    let parts = plain_codebook(2);
    let mut file = save_codebook(2, 8, &parts.0, &parts.1).unwrap();
    file.extend_from_slice(b"more");
    assert_eq!(load_codebook(&file, 2, 8).unwrap(), parts);
}

#[test]
fn every_shorter_file_ends_too_early() {
    let parts = plain_codebook(2);
    let file = save_codebook(2, 8, &parts.0, &parts.1).unwrap();
    assert_eq!(file.len(), 18 + 4 * 7);
    for len in 0..file.len() {
        let error = load_codebook(&file[..len], 2, 8).unwrap_err();
        assert_eq!(error, CodebookError::UnexpectedEof, "{len} bytes");
    }
    let error = load_codebook(&[], 2, 8).unwrap_err();
    assert_eq!(error.kind(), ErrorKind::UnexpectedEof);
    assert_eq!(error.message(), "failed to fill whole buffer");
}

#[test]
fn damaged_headers_are_told_apart() {
    let parts = plain_codebook(4);
    let file = save_codebook(4, 16, &parts.0, &parts.1).unwrap();

    let mut damaged = file.clone();
    damaged[0] = b'X';
    let error = load_codebook(&damaged, 4, 16).unwrap_err();
    assert_eq!(error, CodebookError::WrongMagic);
    assert_eq!(error.kind(), ErrorKind::InvalidData);
    assert_eq!(error.message(), "not a turbovec codebook file: wrong magic");

    let mut damaged = file.clone();
    damaged[4] = 7;
    let error = load_codebook(&damaged, 4, 16).unwrap_err();
    assert_eq!(error, CodebookError::UnsupportedVersion { version: 7 });
    assert_eq!(error.kind(), ErrorKind::InvalidData);
    assert_eq!(error.message(), "unsupported codebook format version: 7");

    let error = load_codebook(&file, 3, 24).unwrap_err();
    assert_eq!(
        error,
        CodebookError::KeyMismatch { file_bits: 4, file_dim: 16, bits: 3, dim: 24 }
    );
    assert_eq!(
        error.message(),
        "codebook key mismatch: file has bits=4, dim=16; requested bits=3, dim=24"
    );

    let mut damaged = file.clone();
    damaged[10] = 14;
    let error = load_codebook(&damaged, 4, 16).unwrap_err();
    assert_eq!(
        error,
        CodebookError::InvalidLengths {
            boundaries: 14,
            centroids: 16,
            expected_boundaries: 15,
            expected_centroids: 16,
        }
    );
    assert_eq!(error.kind(), ErrorKind::InvalidData);
    assert_eq!(
        error.message(),
        "invalid codebook lengths: boundaries=14, centroids=16; \
         expected boundaries=15, centroids=16"
    );
}

#[test]
fn keys_out_of_range_are_refused() {
    for bits in [0usize, 1, 5, 40, usize::MAX] {
        let error = validate_codebook_params(bits, 8).unwrap_err();
        assert_eq!(error, CodebookError::BitsOutOfRange { bits });
        assert_eq!(error.kind(), ErrorKind::InvalidInput);
        assert_eq!(error.message(), format!("bits must be 2, 3, or 4, got {bits}"));
        assert_eq!(expected_lengths(bits).unwrap_err(), error);
        assert_eq!(load_codebook(b"TVCB", bits, 0).unwrap_err(), error);
    }
    for dim in [0usize, 1, u32::MAX as usize + 1] {
        let error = validate_codebook_params(4, dim).unwrap_err();
        assert_eq!(error, CodebookError::DimOutOfRange { dim });
        assert_eq!(error.kind(), ErrorKind::InvalidInput);
        assert_eq!(error.message(), format!("dim must be in 2..=4294967295, got {dim}"));
        assert!(codebook_cache_path(&dir("d"), 4, dim).is_err());
    }
    assert!(validate_codebook_params(2, 2).is_ok());
    assert!(validate_codebook_params(4, u32::MAX as usize).is_ok());
    assert_eq!(expected_lengths(2).unwrap(), (3, 4));
    assert_eq!(expected_lengths(3).unwrap(), (7, 8));
    assert_eq!(expected_lengths(4).unwrap(), (15, 16));
}

#[test]
fn codebooks_of_the_wrong_length_are_refused() {
    let parts = plain_codebook(3);
    let error = save_codebook(4, 8, &parts.0, &parts.1).unwrap_err();
    assert_eq!(
        error,
        CodebookError::LengthMismatch {
            expected_boundaries: 15,
            expected_centroids: 16,
            boundaries: 7,
            centroids: 8,
        }
    );
    assert_eq!(error.kind(), ErrorKind::InvalidInput);
    assert_eq!(
        error.message(),
        "codebook lengths must be boundaries=15, centroids=16; got boundaries=7, centroids=8"
    );
    assert!(validate_codebook_parts(3, 8, &parts.0, &parts.1).is_ok());
    assert!(validate_codebook_parts(3, 8, &parts.1, &parts.1).is_err());
}

#[test]
fn decimal_numbers_are_written_plainly() {
    assert_eq!(decimal(0), "0");
    assert_eq!(decimal(7), "7");
    assert_eq!(decimal(1_000_020), "1000020");
    assert_eq!(decimal(u128::MAX), format!("{}", u128::MAX));
    assert_eq!(temp_extension(12, 3456), "tmp-12-3456");
    assert_eq!(temp_extension(0, 0), "tmp-0-0");
}

fn env(cache_dir: Option<&str>, xdg: Option<&str>, home: Option<&str>) -> EnvPaths {
    let bytes = |value: Option<&str>| value.map(|text| text.as_bytes().to_vec());
    EnvPaths {
        cache_dir: bytes(cache_dir),
        xdg_cache_home: bytes(xdg),
        home: bytes(home),
    }
}

#[test]
fn the_cache_directory_follows_the_environment() {
    let of = |platform: Platform, env: EnvPaths| {
        default_codebook_cache_dir(platform, env).map(|path| joined(&path))
    };
    for platform in [Platform::MacOs, Platform::Other] {
        assert_eq!(
            of(platform, env(Some("/named"), Some("/xdg"), Some("/home"))).as_deref(),
            Some("/named")
        );
        assert_eq!(of(platform, env(Some(""), Some(""), Some(""))), None);
        assert_eq!(of(platform, env(None, None, None)), None);
    }
    assert_eq!(
        of(Platform::MacOs, env(None, Some("/xdg"), Some("/home"))).as_deref(),
        Some("/home/Library/Caches/turbovec/codebooks")
    );
    assert_eq!(of(Platform::MacOs, env(None, Some("/xdg"), None)), None);
    assert_eq!(
        of(Platform::Other, env(Some(""), Some("/xdg"), Some("/home"))).as_deref(),
        Some("/xdg/turbovec/codebooks")
    );
    assert_eq!(
        of(Platform::Other, env(None, Some(""), Some("/home"))).as_deref(),
        Some("/home/.cache/turbovec/codebooks")
    );
}

#[test]
fn a_good_cache_file_is_used_as_it_is() {
    let parts = plain_codebook(2);
    let file = save_codebook(2, 8, &parts.0, &parts.1).unwrap();
    let loaded = load_or_create_codebook(
        &dir("good"),
        2,
        8,
        |_: &CachePath| Some(file),
        &|_, _| unreachable!(),
        |_: &CachePath, _: &Vec<u8>| -> Result<(), ()> { unreachable!() },
    )
    .unwrap();
    assert_eq!(loaded, parts);
}

#[test]
fn a_missing_cache_file_is_created() {
    let written: RefCell<Option<(String, Vec<u8>)>> = RefCell::new(None);
    let created = load_or_create_codebook(
        &dir("new"),
        3,
        40,
        |_: &CachePath| None,
        &|bits, dim| {
            assert_eq!((bits, dim), (3, 40));
            plain_codebook(3)
        },
        |path: &CachePath, file: &Vec<u8>| -> Result<(), ()> {
            *written.borrow_mut() = Some((joined(path), file.clone()));
            Ok(())
        },
    )
    .unwrap();
    assert_eq!(created, plain_codebook(3));
    let (path, file) = written.into_inner().unwrap();
    assert_eq!(path, "new/codebook-b3-d40-v1.tvcb");
    assert_eq!(load_codebook(&file, 3, 40).unwrap(), created);
}

#[test]
fn failures_of_a_cache_directory_are_reported() {
    let refused = load_or_create_codebook(
        &dir("d"),
        9,
        8,
        |_: &CachePath| unreachable!(),
        &|_, _| unreachable!(),
        |_: &CachePath, _: &Vec<u8>| -> Result<(), ()> { unreachable!() },
    );
    assert!(matches!(
        refused,
        Err(CacheError::Codebook(CodebookError::BitsOutOfRange { bits: 9 }))
    ));

    let unwritable = load_or_create_codebook(
        &dir("d"),
        2,
        8,
        |_: &CachePath| None,
        &|_, _| plain_codebook(2),
        |_: &CachePath, _: &Vec<u8>| -> Result<(), &'static str> { Err("disk full") },
    );
    assert!(matches!(unwritable, Err(CacheError::Io("disk full"))));

    let misfit = load_or_create_codebook(
        &dir("d"),
        2,
        8,
        |_: &CachePath| None,
        &|_, _| plain_codebook(3),
        |_: &CachePath, _: &Vec<u8>| -> Result<(), ()> { unreachable!() },
    );
    assert!(matches!(
        misfit,
        Err(CacheError::Codebook(CodebookError::LengthMismatch { .. }))
    ));
}

#[test]
fn the_process_cache_keeps_one_codebook_for_each_key() {
    let mut cache = CodebookCache::new();
    assert_eq!(cache.get_cached_codebook(2, 8), None);
    cache.insert_cached_codebook(2, 8, &plain_codebook(2));
    cache.insert_cached_codebook(8, 2, &plain_codebook(3));
    assert_eq!(cache.get_cached_codebook(2, 8), Some(plain_codebook(2)));
    assert_eq!(cache.get_cached_codebook(8, 2), Some(plain_codebook(3)));
    assert_eq!(cache.get_cached_codebook(2, 16), None);
    cache.insert_cached_codebook(2, 8, &plain_codebook(4));
    assert_eq!(cache.get_cached_codebook(2, 8), Some(plain_codebook(4)));
}

fn no_read(_: &CachePath) -> Option<Vec<u8>> {
    unreachable!()
}

fn no_compute(_: usize, _: usize) -> CodebookParts {
    unreachable!()
}

fn no_write(_: &CachePath, _: &Vec<u8>) -> Result<(), ()> {
    unreachable!()
}

#[test]
fn a_codebook_is_looked_for_in_order() {
    // From the directory, where there is one.
    let mut cache = CodebookCache::new();
    let parts = plain_codebook(2);
    let file = save_codebook(2, 8, &parts.0, &parts.1).unwrap();
    let from_dir = cached_codebook(
        &mut cache,
        &Some(dir("books")),
        2,
        8,
        |path: &CachePath| {
            assert_eq!(joined(path), "books/codebook-b2-d8-v1.tvcb");
            Some(file)
        },
        &no_compute,
        no_write,
    );
    assert_eq!(from_dir, parts);

    // From then on from the process cache.
    let again = cached_codebook(
        &mut cache,
        &Some(dir("books")),
        2,
        8,
        no_read,
        &no_compute,
        no_write,
    );
    assert_eq!(again, from_dir);

    // Computed where the file is no good, and written then.
    let disk: RefCell<Vec<u8>> = RefCell::new(Vec::new());
    let repaired = cached_codebook(
        &mut cache,
        &Some(dir("books")),
        3,
        8,
        |_: &CachePath| Some(b"bad cache".to_vec()),
        &|bits, _| plain_codebook(bits),
        |_: &CachePath, file: &Vec<u8>| -> Result<(), ()> {
            *disk.borrow_mut() = file.clone();
            Ok(())
        },
    );
    assert_eq!(repaired, plain_codebook(3));
    assert_eq!(load_codebook(&disk.borrow(), 3, 8).unwrap(), repaired);

    // A file that cannot be written is not reported.
    let unwritten = cached_codebook(
        &mut cache,
        &Some(dir("books")),
        3,
        16,
        |_: &CachePath| None,
        &|bits, _| plain_codebook(bits),
        |_: &CachePath, _: &Vec<u8>| Err("disk full"),
    );
    assert_eq!(unwritten, plain_codebook(3));

    // Computed where there is no directory.
    let without = cached_codebook(
        &mut cache,
        &None,
        4,
        8,
        no_read,
        &|bits, _| plain_codebook(bits),
        no_write,
    );
    assert_eq!(without, plain_codebook(4));
    assert_eq!(cache.get_cached_codebook(3, 8), Some(repaired));
    assert_eq!(cache.get_cached_codebook(3, 16), Some(unwritten));
    assert_eq!(cache.get_cached_codebook(4, 8), Some(without));
}

/// The steps that the outcomes lead to, the first one included.
fn run(has_parent: bool, outcomes: &[Outcome]) -> Vec<SaveStep> {
    let mut steps = vec![first_save_step(has_parent)];
    for &outcome in outcomes {
        steps.push(next_save_step(*steps.last().unwrap(), outcome));
    }
    steps
}

#[test]
fn a_file_is_written_aside_and_renamed() {
    let done = Outcome::Done;
    assert_eq!(
        run(true, &[done, done, done]),
        vec![SaveStep::CreateParent, SaveStep::WriteTemp, SaveStep::Rename, SaveStep::Saved]
    );
    assert_eq!(
        run(false, &[done, done]),
        vec![SaveStep::WriteTemp, SaveStep::Rename, SaveStep::Saved]
    );
    assert_eq!(
        run(false, &[done, Outcome::AlreadyExists, done, done]),
        vec![
            SaveStep::WriteTemp,
            SaveStep::Rename,
            SaveStep::RemoveTarget,
            SaveStep::RenameAgain,
            SaveStep::Saved,
        ]
    );
}

#[test]
fn a_failed_save_removes_the_temporary_file() {
    let (done, error) = (Outcome::Done, Outcome::Error);
    assert_eq!(run(true, &[error]), vec![SaveStep::CreateParent, SaveStep::Failed]);
    for outcomes in [
        vec![error, done],
        vec![Outcome::AlreadyExists, error],
        vec![done, error, done],
        vec![done, Outcome::AlreadyExists, error, done],
        vec![done, Outcome::AlreadyExists, done, error, error],
        vec![done, Outcome::AlreadyExists, done, Outcome::AlreadyExists, done],
    ] {
        let steps = run(false, &outcomes);
        let n = steps.len();
        assert_eq!(&steps[n - 2..], &[SaveStep::RemoveTemp, SaveStep::Failed]);
    }
}

#[test]
fn every_save_ends_within_six_steps() {
    let all = [Outcome::Done, Outcome::AlreadyExists, Outcome::Error];
    for code in 0..3usize.pow(6) {
        let outcomes: Vec<Outcome> = (0..6u32).map(|i| all[code / 3usize.pow(i) % 3]).collect();
        let last = *run(true, &outcomes).last().unwrap();
        assert!(matches!(last, SaveStep::Saved | SaveStep::Failed));
    }
}
