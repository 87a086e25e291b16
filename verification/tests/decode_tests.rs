use soundprint::samples::{decode_mp3_from_chunk, mix_to_mono};

#[test]
fn test_mix_to_mono_stereo_mean() {
    // each stereo pair becomes left/2 + right/2
    let samples: Vec<i16> = vec![4, 6, 10, 20, -8, -8];
    assert_eq!(mix_to_mono(&samples, 2), vec![5, 15, -8]);
}

#[test]
fn test_mix_to_mono_truncates_toward_zero() {
    // -5 / 2 truncates to -2 on each channel, as the hardware division does
    let samples: Vec<i16> = vec![-5, -5, 5, 5];
    assert_eq!(mix_to_mono(&samples, 2), vec![-4, 4]);
}

#[test]
fn test_mix_to_mono_single_channel_copies() {
    let samples: Vec<i16> = vec![7, -3, 0, 32767, -32768];
    assert_eq!(mix_to_mono(&samples, 1), samples);
}

#[test]
fn test_mix_to_mono_drops_partial_chunk() {
    let samples: Vec<i16> = vec![2, 2, 9];
    assert_eq!(mix_to_mono(&samples, 2), vec![2]);
}

#[test]
fn test_mix_to_mono_extreme_values_fit() {
    let samples: Vec<i16> = vec![-32768, -32768, 32767, 32767];
    assert_eq!(mix_to_mono(&samples, 2), vec![-32768, 32766]);
}

#[test]
fn test_decode_empty_chunk_yields_no_samples() {
    let decoded = decode_mp3_from_chunk(&Vec::new()).unwrap();
    assert_eq!(decoded.len(), 0);
}

#[test]
fn test_decode_garbage_chunk_yields_no_samples() {
    // bytes without any audio frame are skipped by the decoder; the chunk
    // decodes to nothing rather than failing
    let garbage: Vec<u8> = (0..512u32).map(|i| (i % 251) as u8).collect();
    let decoded = decode_mp3_from_chunk(&garbage).unwrap();
    assert_eq!(decoded.len(), 0);
}

// Chunk decoding is a pure function of the byte content: two calls on the
// same bytes return the same result, at the Result level too.
#[test]
fn test_decode_is_deterministic() {
    let garbage: Vec<u8> = (0..512u32).map(|i| (i.wrapping_mul(37) % 256) as u8).collect();
    let first = decode_mp3_from_chunk(&garbage);
    let second = decode_mp3_from_chunk(&garbage);
    match (first, second) {
        (Ok(a), Ok(b)) => assert_eq!(a, b),
        (Err(a), Err(b)) => assert_eq!(a, b),
        _ => panic!("one call succeeded and the other failed on the same bytes"),
    }
}
