use charity_raffle::entropy::as_u32_be;
use charity_raffle::entropy::encode_words_le;
use charity_raffle::entropy::rand_from_bytes;
use charity_raffle::AccountId;
use charity_raffle::Config;
use charity_raffle::Raffle;
use sha3::Digest;

#[test]
fn byte_sum_reduction() {
    assert_eq!(rand_from_bytes(&[0u8; 32]), 0);
    assert_eq!(rand_from_bytes(&[1u8; 32]), 32);
    assert_eq!(rand_from_bytes(&[255u8; 32]), 32 * 255);
    let mut e = [0u8; 32];
    e[0] = 3;
    e[31] = 200;
    assert_eq!(rand_from_bytes(&e), 203);
}

#[test]
fn big_endian_word() {
    assert_eq!(as_u32_be(&[1, 2, 3, 4]), 0x01020304);
    assert_eq!(as_u32_be(&[0xff, 0, 0, 0x10, 99]), 0xff000010);
    assert_eq!(as_u32_be(&[0, 0, 0, 0]), 0);
    assert_eq!(as_u32_be(&[0xff, 0xff, 0xff, 0xff]), u32::MAX);
}

#[test]
fn little_endian_encoding() {
    assert_eq!(encode_words_le(&vec![]), Vec::<u8>::new());
    assert_eq!(
        encode_words_le(&vec![0x0102030405060708]),
        vec![8, 7, 6, 5, 4, 3, 2, 1]
    );
    assert_eq!(
        encode_words_le(&vec![1, 0x80000000000000ff]),
        vec![1, 0, 0, 0, 0, 0, 0, 0, 0xff, 0, 0, 0, 0, 0, 0, 0x80]
    );
}

#[test]
fn seed_material_encodes_state() {
    let cfg = Config {
        min_entry: 10,
        max_entry: 100,
        min_participants: 2,
        max_winners: 1,
        countdown_duration: 5,
    };
    let mut r = Raffle::new(AccountId(9), cfg);
    // Fresh state at time 3: words are [3, 0, 0, 0, 0].
    let mut expected = vec![3u8, 0, 0, 0, 0, 0, 0, 0];
    expected.extend_from_slice(&[0u8; 32]);
    assert_eq!(r.seed_material(3), expected);

    // Two entries arm the countdown at 4: words are [9, 4, 9, 2, 0].
    assert!(r.play(AccountId(1), 50, 3).is_ok());
    assert!(r.play(AccountId(2), 50, 4).is_ok());
    let words: Vec<u8> = r.seed_material(9);
    assert_eq!(words.len(), 40);
    assert_eq!(&words[0..8], &[9, 0, 0, 0, 0, 0, 0, 0]);
    assert_eq!(&words[8..16], &[4, 0, 0, 0, 0, 0, 0, 0]);
    assert_eq!(&words[16..24], &[9, 0, 0, 0, 0, 0, 0, 0]);
    assert_eq!(&words[24..32], &[2, 0, 0, 0, 0, 0, 0, 0]);
    assert_eq!(&words[32..40], &[0, 0, 0, 0, 0, 0, 0, 0]);
}

#[test]
fn seed_hash_is_keccak_of_material() {
    let cfg = Config {
        min_entry: 10,
        max_entry: 100,
        min_participants: 2,
        max_winners: 1,
        countdown_duration: 5,
    };
    let mut r = Raffle::new(AccountId(9), cfg);
    assert!(r.play(AccountId(1), 50, 3).is_ok());
    assert!(r.play(AccountId(2), 50, 4).is_ok());
    let material = r.seed_material(9);
    let expected = sha3::Keccak256::digest(&material);
    assert_eq!(r.seed_hash(9).as_slice(), expected.as_slice());
    // Different state words give a different seed.
    assert_ne!(r.seed_hash(9), r.seed_hash(10));
    // The digest is not the material handed back.
    assert_ne!(r.seed_hash(9).to_vec(), material);
}

#[test]
fn saturated_deadline_in_seed() {
    let cfg = Config {
        min_entry: 10,
        max_entry: 100,
        min_participants: 1,
        max_winners: 1,
        countdown_duration: u64::MAX,
    };
    let mut r = Raffle::new(AccountId(9), cfg);
    assert!(r.play(AccountId(1), 50, 5).is_ok());
    assert_eq!(r.get_start(), 5);
    assert_eq!(r.get_end(), u64::MAX);
}
