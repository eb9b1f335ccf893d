use feature_hashing::fasthash::{xxhash32, xxhash64};
use feature_hashing::minhash::minimum_hash;
use feature_hashing::shingle::sliding_window;
use feature_hashing::simhash::similarity_hash;

fn small_table() -> Vec<(u64, u64)> {
    vec![
        (1, 0),
        (3, 7),
        ((1u64 << 63) + 5, u64::MAX),
        (853146490016488653, 1849332765672628665),
    ]
}

fn splitmix(state: &mut u64) -> u64 {
    *state = state.wrapping_add(0x9E3779B97F4A7C15);
    let mut z = *state;
    z = (z ^ (z >> 30)).wrapping_mul(0xBF58476D1CE4E5B9);
    z = (z ^ (z >> 27)).wrapping_mul(0x94D049BB133111EB);
    z ^ (z >> 31)
}

#[test]
fn test_sliding_window() {
    assert_eq!(sliding_window("", 4), vec!["".to_string()]);
    assert_eq!(sliding_window("A", 4), vec!["A".to_string()]);
    assert_eq!(
        sliding_window("Hello", 4),
        vec!["Hell".to_string(), "ello".to_string()]
    );
}

#[test]
fn test_similarity_hash() {
    let hash_digests: Vec<u64> = vec![0; 16];
    let expected: Vec<u8> = vec![0; 8];
    assert_eq!(similarity_hash(hash_digests), expected);
}

#[test]
fn sliding_window_width_equal_to_length() {
    assert_eq!(sliding_window("abcd", 4), vec!["abcd".to_string()]);
}

#[test]
fn sliding_window_splits_on_characters() {
    assert_eq!(
        sliding_window("h\u{e9}llo", 2),
        vec![
            "h\u{e9}".to_string(),
            "\u{e9}l".to_string(),
            "ll".to_string(),
            "lo".to_string()
        ]
    );
}

#[test]
fn sliding_window_count_and_overlap() {
    let text = "the quick brown fox";
    let width = 5;
    let shingles = sliding_window(text, width);
    let n = text.chars().count();
    assert_eq!(shingles.len(), n - width + 1);
    let mut rebuilt = shingles[0].clone();
    for s in &shingles {
        assert_eq!(s.chars().count(), width);
    }
    for s in &shingles[1..] {
        rebuilt.push(s.chars().last().unwrap());
    }
    assert_eq!(rebuilt, text);
}

#[test]
fn minimum_hash_exact_values() {
    let features = vec![10, 3, 7, 4000000000];
    assert_eq!(
        minimum_hash(features, &small_table()),
        vec![3, 16, 18, 762511807]
    );
}

#[test]
fn minimum_hash_single_feature() {
    assert_eq!(minimum_hash(vec![5], &[(2, 1)]), vec![11]);
}

#[test]
fn minimum_hash_empty_table() {
    assert_eq!(minimum_hash(vec![1, 2, 3], &[]), Vec::<u32>::new());
}

#[test]
fn minimum_hash_is_deterministic() {
    let features = vec![2307709831, 4057803343, 1189896175, 998490104];
    let first = minimum_hash(features.clone(), &small_table());
    let second = minimum_hash(features, &small_table());
    assert_eq!(first, second);
}

#[test]
fn minimum_hash_ignores_order() {
    let forward = vec![10, 3, 7, 4000000000];
    let backward = vec![4000000000, 7, 3, 10];
    assert_eq!(
        minimum_hash(forward, &small_table()),
        minimum_hash(backward, &small_table())
    );
}

#[test]
fn minimum_hash_estimates_jaccard() {
    let mut state: u64 = 42;
    let mersenne: u64 = (1u64 << 61) - 1;
    let table: Vec<(u64, u64)> = (0..512)
        .map(|_| {
            let a = splitmix(&mut state) % mersenne;
            let b = splitmix(&mut state) % mersenne;
            (a, b)
        })
        .collect();
    let a_set: Vec<u32> = (0u32..200).map(|i| xxhash32(&i.to_le_bytes())).collect();
    let b_set: Vec<u32> = (100u32..300).map(|i| xxhash32(&i.to_le_bytes())).collect();
    let sa = minimum_hash(a_set, &table);
    let sb = minimum_hash(b_set, &table);
    let matching = sa.iter().zip(sb.iter()).filter(|(x, y)| x == y).count();
    let estimate = matching as f64 / table.len() as f64;
    assert!((estimate - 1.0 / 3.0).abs() < 0.1, "estimate {}", estimate);
}

#[test]
fn similarity_hash_tie_sets_bit() {
    assert_eq!(similarity_hash(vec![1, 0]), vec![0, 0, 0, 0, 0, 0, 0, 1]);
}

#[test]
fn similarity_hash_odd_minority_stays_clear() {
    assert_eq!(similarity_hash(vec![1, 0, 0]), vec![0; 8]);
}

#[test]
fn similarity_hash_bit_order() {
    assert_eq!(
        similarity_hash(vec![1u64 << 63 | 1 << 8]),
        vec![0x80, 0, 0, 0, 0, 0, 1, 0]
    );
    assert_eq!(similarity_hash(vec![u64::MAX, u64::MAX, 0]), vec![0xff; 8]);
}

#[test]
fn similarity_hash_absorbs_minority_noise() {
    let clean = vec![0xF0F0_F0F0_F0F0_F0F0u64; 5];
    let mut noisy = clean.clone();
    noisy[0] ^= 0x0000_0000_0000_00FF;
    noisy[3] ^= 0xFF00_0000_0000_0000;
    assert_eq!(similarity_hash(clean.clone()), similarity_hash(noisy));
    let mut overturned = clean.clone();
    for d in overturned.iter_mut().take(3) {
        *d ^= 1 << 4;
    }
    let before = similarity_hash(clean);
    let after = similarity_hash(overturned);
    assert_eq!(before[7] ^ after[7], 0x10);
    assert_eq!(before[..7], after[..7]);
}

#[test]
fn fast_hash_empty_input() {
    assert_eq!(xxhash32(b""), 0x02CC5D05);
    assert_eq!(xxhash64(b""), 0xEF46DB3751D8E999);
    assert_eq!(xxhash32(b""), xxhash32(b""));
}

#[test]
fn fast_hash_known_values() {
    assert_eq!(xxhash32(b"abc"), 0x32D153FF);
    assert_eq!(xxhash64(b"abc"), 0x44BC2CF5AD770999);
    assert_eq!(xxhash64(b"abc"), xxhash64(&b"abc".to_vec()));
    assert_ne!(xxhash32(b"abc"), xxhash32(b"abd"));
}
