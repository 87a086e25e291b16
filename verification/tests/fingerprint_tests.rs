use soundprint::errors::ConfigError;
use soundprint::fingerprint::FingerprintHandle;

fn default_handle() -> FingerprintHandle {
    FingerprintHandle::new(1024, vec![32, 40, 60, 80, 100, 120, 180, 320], 8).unwrap()
}

#[test]
fn test_new_rejects_window_size() {
    let r = FingerprintHandle::new(1000, vec![32, 40, 60, 80, 100, 120, 180, 320], 8);
    assert!(matches!(r, Err(ConfigError::WindowSize)));
    let r = FingerprintHandle::new(0, vec![32, 40, 60, 80, 100, 120, 180, 320], 8);
    assert!(matches!(r, Err(ConfigError::WindowSize)));
}

#[test]
fn test_new_rejects_zero_fuzz() {
    let r = FingerprintHandle::new(1024, vec![32, 40, 60, 80, 100, 120, 180, 320], 0);
    assert!(matches!(r, Err(ConfigError::FuzzFactor)));
}

#[test]
fn test_new_rejects_bad_band_table() {
    // non-ascending boundaries
    let r = FingerprintHandle::new(1024, vec![32, 40, 60, 60, 100, 120, 180, 320], 8);
    assert!(matches!(r, Err(ConfigError::BandTable)));
    // wrong band count
    let r = FingerprintHandle::new(1024, vec![32, 40, 60], 8);
    assert!(matches!(r, Err(ConfigError::BandTable)));
    // top boundary outside the window
    let r = FingerprintHandle::new(256, vec![32, 40, 60, 80, 100, 120, 180, 320], 8);
    assert!(matches!(r, Err(ConfigError::BandTable)));
}

#[test]
fn test_encode_exact_value() {
    let h = default_handle();
    let fp = h.encode(&vec![32, 40, 62, 84, 104, 122, 184, 322]);
    assert_eq!(fp, 402315131007000504);
}

// Encoding is deterministic: the same band-peak vector always encodes to the
// same fingerprint.
#[test]
fn test_encode_deterministic() {
    let h = default_handle();
    let pts = vec![32, 40, 62, 84, 104, 122, 184, 322];
    assert_eq!(h.encode(&pts), h.encode(&pts));
    let h2 = default_handle();
    assert_eq!(h.encode(&pts), h2.encode(&pts));
}

// Fuzz tolerance: peaks that stay inside the same fuzz bucket in every band
// encode to the same fingerprint; moving any one band's peak by the whole
// fuzz factor changes it.
#[test]
fn test_encode_fuzz_tolerance() {
    let h = default_handle();
    let a = h.encode(&vec![32, 40, 62, 84, 104, 122, 184, 322]);
    let b = h.encode(&vec![33, 41, 63, 85, 105, 123, 185, 323]);
    assert_eq!(a, b);
    let c = h.encode(&vec![32, 40, 62, 84, 104, 122, 184, 330]);
    assert_ne!(a, c);
    assert_eq!(c, 412315131007000504);
}

#[test]
fn test_calculate_fingerprint_peaks() {
    let h = default_handle();
    let mut mags = vec![0u64; 1024];
    // band peaks: 32 in the first band, 35 in the second, 50 in the third;
    // the remaining bands see no magnitude and record bin zero
    mags[32] = 10;
    mags[35] = 20;
    mags[33] = 19; // louder bin later in the band wins only if strictly louder
    mags[50] = 5;
    let fp = h.calculate_fingerprint(&mags);
    assert_eq!(fp, 6000404);
}

#[test]
fn test_calculate_fingerprint_silence_is_zero() {
    let h = default_handle();
    let mags = vec![0u64; 1024];
    assert_eq!(h.calculate_fingerprint(&mags), 0);
}

// A buffer shorter than one window yields an empty collection — never an
// error.
#[test]
fn test_short_buffer_yields_empty_collection() {
    let h = default_handle();
    let samples = vec![1i16; 1023];
    let windows = h.split_windows(&samples);
    assert_eq!(windows.len(), 0);
    let fps = h.calc_fingerprint_collection(&vec![]);
    assert_eq!(fps.len(), 0);
}

#[test]
fn test_split_windows_chunks_in_order() {
    let h = default_handle();
    let mut samples = Vec::new();
    for i in 0..2500i32 {
        samples.push((i % 1000) as i16);
    }
    let windows = h.split_windows(&samples);
    assert_eq!(windows.len(), 2);
    assert_eq!(windows[0].len(), 1024);
    assert_eq!(windows[1].len(), 1024);
    assert_eq!(windows[0][0], samples[0]);
    assert_eq!(windows[1][0], samples[1024]);
    assert_eq!(windows[1][1023], samples[2047]);
}

#[test]
fn test_collection_preserves_window_order() {
    let h = default_handle();
    let silent = vec![0u64; 1024];
    let mut loud = vec![0u64; 1024];
    loud[32] = 10;
    loud[35] = 20;
    loud[33] = 19;
    loud[50] = 5;
    let fps = h.calc_fingerprint_collection(&vec![silent.clone(), loud, silent]);
    assert_eq!(fps, vec![0, 6000404, 0]);
}
