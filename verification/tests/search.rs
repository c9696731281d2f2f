use crash::Algorithm;
use crash::ConfigError;
use crash::SearchConfig;
use crash::SearchOutcome;
use crash::bytes_equal;
use crash::compute;
use crash::evaluate;
use crash::search;
use crash::search_length;

fn md5_digest_of(text: &str) -> Vec<u8> {
    md5::compute(text.as_bytes()).0.to_vec()
}

fn config(alphabet: &str, min_len: usize, max_len: usize, target: Vec<u8>) -> SearchConfig {
    SearchConfig {
        algorithm: Algorithm::Md5,
        target,
        alphabet: alphabet.chars().collect(),
        min_len,
        max_len,
    }
}

#[test]
fn finds_single_character_plaintext() {
    let cfg = config("ab", 1, 2, md5_digest_of("b"));
    let out = search(&cfg).unwrap();
    assert_eq!(out, SearchOutcome::Found("b".to_string()));
}

#[test]
fn finds_two_character_plaintext() {
    let cfg = config("ab", 1, 2, md5_digest_of("ba"));
    let out = search(&cfg).unwrap();
    assert_eq!(out, SearchOutcome::Found("ba".to_string()));
}

#[test]
fn exhausts_range_without_match() {
    let cfg = config("a", 1, 3, md5_digest_of("zzz"));
    let out = search(&cfg).unwrap();
    assert_eq!(out, SearchOutcome::NotFound);
}

#[test]
fn plaintext_outside_alphabet_is_not_found() {
    let cfg = config("ab", 1, 2, md5_digest_of("z"));
    let out = search(&cfg).unwrap();
    assert_eq!(out, SearchOutcome::NotFound);
}

#[test]
fn min_length_above_max_is_rejected() {
    let cfg = config("ab", 5, 3, md5_digest_of("b"));
    let out = search(&cfg);
    assert_eq!(out, Err(ConfigError::EmptyRange));
}

#[test]
fn round_trip_finds_every_candidate_in_range() {
    let candidates = ["a", "b", "aa", "ab", "ba", "bb"];
    for plaintext in candidates {
        let cfg = config("ab", 1, 2, md5_digest_of(plaintext));
        let out = search(&cfg).unwrap();
        match out {
            SearchOutcome::Found(found) => {
                assert_eq!(md5_digest_of(&found), md5_digest_of(plaintext));
                assert_eq!(found, plaintext);
            }
            SearchOutcome::NotFound => panic!("search missed {plaintext}"),
        }
    }
}

#[test]
fn search_length_reports_first_match_of_its_length() {
    let target = md5_digest_of("ab");
    let found = search_length(Algorithm::Md5, &target, &vec!['a', 'b'], 2);
    assert_eq!(found, Some(vec!['a', 'b']));
    let missing = search_length(Algorithm::Md5, &target, &vec!['a', 'b'], 1);
    assert_eq!(missing, None);
}

#[test]
fn evaluate_compares_digest_with_target() {
    let target = md5_digest_of("b");
    assert!(evaluate(&vec!['b'], &target, Algorithm::Md5));
    assert!(!evaluate(&vec!['a'], &target, Algorithm::Md5));
}

#[test]
fn compute_returns_the_md5_digest() {
    let digest = compute(Algorithm::Md5, &vec!['a', 'b', 'c']);
    let expected: Vec<u8> = vec![
        0x90, 0x01, 0x50, 0x98, 0x3c, 0xd2, 0x4f, 0xb0, 0xd6, 0x96, 0x3f, 0x7d, 0x28, 0xe1,
        0x7f, 0x72,
    ];
    assert_eq!(digest, expected);
    assert_eq!(digest, md5_digest_of("abc"));
}

#[test]
fn bytes_equal_is_exact() {
    assert!(bytes_equal(&vec![1, 2, 3], &vec![1, 2, 3]));
    assert!(!bytes_equal(&vec![1, 2, 3], &vec![1, 2, 4]));
    assert!(!bytes_equal(&vec![1, 2], &vec![1, 2, 3]));
    assert!(bytes_equal(&Vec::new(), &Vec::new()));
}
