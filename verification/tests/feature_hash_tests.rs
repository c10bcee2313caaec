use cg_ultimate_tic_tac_toe::feature_hash::{hash_features, hash_from_digest};
use cg_ultimate_tic_tac_toe::{UltTTT, UltTTTMCTSGame, UltTTTMove, NoGameCache};

/// The hash computed the way the learning pipeline does it on `f64` features.
fn reference_hash(features: &[f64]) -> i64 {
    let mut hasher = blake3::Hasher::new();
    for &f in features {
        hasher.update(&f.to_le_bytes());
    }
    let digest = hasher.finalize();
    let mut first_8 = [0u8; 8];
    first_8.copy_from_slice(&digest.as_bytes()[..8]);
    i64::from_le_bytes(first_8)
}

#[test]
fn test_hash_features_matches_hashing_the_f64_values() {
    let codes: Vec<i8> = vec![1, 0, -1, 0, 1, 1, -1];
    let floats: Vec<f64> = codes.iter().map(|&c| c as f64).collect();
    assert_eq!(hash_features(&codes), reference_hash(&floats));
    assert_eq!(hash_features(&vec![]), reference_hash(&[]));
}

#[test]
fn test_hash_features_of_game_states() {
    let mut cache = NoGameCache::new();
    let start = UltTTT::new();
    let after = UltTTTMCTSGame::apply_move(&start, &UltTTTMove::try_from_coords((4, 4)).unwrap(), &mut cache);
    for state in [start, after] {
        let codes = state.extract_features();
        let floats: Vec<f64> = codes.iter().map(|&c| c as f64).collect();
        assert_eq!(hash_features(&codes), reference_hash(&floats));
    }
    assert_ne!(
        hash_features(&start.extract_features()),
        hash_features(&after.extract_features())
    );
}

#[test]
fn test_hash_from_digest_reads_the_first_eight_bytes_little_endian() {
    let mut digest = [0u8; 32];
    digest[0] = 1;
    digest[1] = 2;
    digest[7] = 0x80;
    digest[8] = 0xff;
    assert_eq!(hash_from_digest(&digest), i64::from_le_bytes([1, 2, 0, 0, 0, 0, 0, 0x80]));
    assert_eq!(hash_from_digest(&[0u8; 32]), 0);
    assert_eq!(hash_from_digest(&[0xffu8; 32]), -1);
}
