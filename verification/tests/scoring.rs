use skyward::bench::{digest, fnv1a64, join_lines, push_hex16, sort_lines, ScoreTally};
use skyward::hex::hex_to_bytes;
use skyward::types::Validated;

fn validated(hex: &str, offset: u64) -> Validated {
    let bytes = hex_to_bytes(hex).unwrap();
    let mut packed = [0u8; 14];
    packed[..bytes.len()].copy_from_slice(&bytes);
    Validated { bytes: packed, len: bytes.len(), corrected_bits: 0, offset, signal: 1000, noise: 10 }
}

fn strings(v: &[&str]) -> Vec<String> {
    v.iter().map(|s| s.to_string()).collect()
}

#[test]
fn lines_sort_as_strings_do() {
    let sorted = sort_lines(&strings(&["9:AA", "10:BB", "1:CC", "10:AB"]));
    assert_eq!(sorted, strings(&["10:AB", "10:BB", "1:CC", "9:AA"]));
}

#[test]
fn a_prefix_sorts_first() {
    assert_eq!(sort_lines(&strings(&["ab", "a", ""])), strings(&["", "a", "ab"]));
}

#[test]
fn lines_join_with_newlines_and_nothing_trailing() {
    assert_eq!(join_lines(&strings(&["a", "b", "c"])), "a\nb\nc");
    assert_eq!(join_lines(&strings(&[])), "");
    assert_eq!(join_lines(&strings(&["only"])), "only");
}

#[test]
fn hex16_is_zero_padded_and_lowercase() {
    let mut s = String::from("x");
    push_hex16(&mut s, 0xAB);
    assert_eq!(s, "x00000000000000ab");
    let mut t = String::new();
    push_hex16(&mut t, u64::MAX);
    assert_eq!(t, "ffffffffffffffff");
}

#[test]
fn the_digest_names_its_hash_and_ignores_order() {
    let a = digest(&strings(&["beta", "alpha"]));
    let b = digest(&strings(&["alpha", "beta"]));
    assert_eq!(a, b);
    assert_eq!(a, format!("fnv1a64:{:016x}", fnv1a64("alpha\nbeta")));
}

#[test]
fn one_transmission_proposed_twice_counts_once() {
    let mut t = ScoreTally::new();
    t.record(&validated("8D4840D6202CC371C32CE0576098", 1_000));
    t.record(&validated("8D4840D6202CC371C32CE0576098", 1_200));
    t.record(&validated("8D4840D6202CC371C32CE0576098", 1_600));
    assert_eq!(t.unique_messages(), 2, "offsets 1000 and 1200 share a bucket of 500");
    assert_eq!(t.aircraft(), 1);
    assert_eq!(t.type_codes(), vec![(4, 3)]);
}

#[test]
fn type_codes_and_addresses_are_counted_per_frame() {
    let mut t = ScoreTally::new();
    t.record(&validated("8D4840D6202CC371C32CE0576098", 0)); // TC4, 4840D6
    t.record(&validated("8D40621D58C382D690C8AC2863A7", 1_000)); // TC11, 40621D
    t.record(&validated("8D40621D58C386435CC412692AD6", 2_000)); // TC11, 40621D
    t.record(&validated("8D485020994409940838175B284F", 3_000)); // TC19, 485020
    assert_eq!(t.type_codes(), vec![(4, 1), (11, 2), (19, 1)]);
    assert_eq!(t.aircraft(), 3);
    assert_eq!(t.unique_messages(), 4);
    t.record_position();
    assert_eq!(t.positions(), 1);
}

#[test]
fn ghosts_are_heard_once_and_never_located() {
    let mut t = ScoreTally::new();
    t.record(&validated("8D4840D6202CC371C32CE0576098", 0));
    t.record(&validated("8D40621D58C382D690C8AC2863A7", 1_000));
    t.record(&validated("8D40621D58C386435CC412692AD6", 2_000));
    t.record(&validated("8D485020994409940838175B284F", 3_000));
    // 4840D6 and 485020 were heard once; 40621D twice.
    assert_eq!(t.ghosts(&vec![]), 2);
    assert_eq!(t.ghosts(&vec![0x4840D6]), 1);
    assert_eq!(t.ghosts(&vec![0x4840D6, 0x485020]), 0);
}

#[test]
fn the_digest_lines_are_bucket_colon_hex() {
    let mut t = ScoreTally::new();
    t.record(&validated("5DC04413BFAD35", 2_499));
    assert_eq!(t.digest_lines(), strings(&["4:5DC04413BFAD35"]));
    assert_eq!(t.digest(), format!("fnv1a64:{:016x}", fnv1a64("4:5DC04413BFAD35")));
}

#[test]
fn the_digest_does_not_depend_on_arrival_order() {
    let mut a = ScoreTally::new();
    let mut b = ScoreTally::new();
    a.record(&validated("8D4840D6202CC371C32CE0576098", 0));
    a.record(&validated("8D485020994409940838175B284F", 5_000));
    b.record(&validated("8D485020994409940838175B284F", 5_000));
    b.record(&validated("8D4840D6202CC371C32CE0576098", 0));
    assert_eq!(a.digest(), b.digest());
    let mut c = ScoreTally::new();
    c.record(&validated("8D4840D6202CC371C32CE0576098", 0));
    assert_ne!(a.digest(), c.digest());
}

#[test]
fn a_frame_of_the_wrong_length_counts_only_as_a_transmission() {
    let mut t = ScoreTally::new();
    // DF17 needs 14 bytes; seven is a damaged frame.
    t.record(&validated("8D4840D6202CC3", 0));
    assert_eq!(t.unique_messages(), 1);
    assert_eq!(t.aircraft(), 0);
    assert!(t.type_codes().is_empty());
}
