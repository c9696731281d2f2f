use crash::ProductGen;
use crash::product_repeat;

fn collect_all(alphabet: &[char], len: usize) -> Vec<String> {
    let mut gen = ProductGen::new(alphabet.to_vec(), len);
    let mut out = Vec::new();
    while let Some(word) = gen.next() {
        out.push(word.into_iter().collect::<String>());
    }
    out
}

#[test]
fn yields_k_pow_l_tuples_without_duplicates() {
    let all = collect_all(&['a', 'b'], 3);
    assert_eq!(all.len(), 8);
    for i in 0..all.len() {
        for j in 0..i {
            assert_ne!(all[i], all[j]);
        }
    }
}

#[test]
fn enumerates_in_lexicographic_order() {
    let all = collect_all(&['a', 'b'], 2);
    assert_eq!(all, vec!["aa", "ab", "ba", "bb"]);
    let all3 = collect_all(&['0', '1', '2'], 1);
    assert_eq!(all3, vec!["0", "1", "2"]);
}

#[test]
fn zero_length_yields_one_empty_tuple() {
    let mut gen = ProductGen::new(vec!['a', 'b'], 0);
    let first = gen.next();
    assert_eq!(first, Some(Vec::new()));
    assert_eq!(gen.next(), None);
    assert_eq!(gen.next(), None);
}

#[test]
fn empty_alphabet_yields_no_tuples() {
    let mut gen = ProductGen::new(Vec::new(), 2);
    assert_eq!(gen.next(), None);
    assert_eq!(gen.next(), None);
}

#[test]
fn empty_alphabet_zero_length_still_yields_empty_tuple() {
    let mut gen = ProductGen::new(Vec::new(), 0);
    assert_eq!(gen.next(), Some(Vec::new()));
    assert_eq!(gen.next(), None);
}

#[test]
fn enumeration_is_deterministic_and_repeatable() {
    let first_run = collect_all(&['x', 'y', 'z'], 3);
    let second_run = collect_all(&['x', 'y', 'z'], 3);
    assert_eq!(first_run, second_run);
    assert_eq!(first_run.len(), 27);
}

#[test]
fn duplicate_alphabet_characters_are_kept() {
    let all = collect_all(&['a', 'a'], 1);
    assert_eq!(all, vec!["a", "a"]);
}

#[test]
fn product_repeat_enumerates_the_full_product() {
    let mut gen = product_repeat(vec!['a', 'b'], 2);
    let mut out = Vec::new();
    while let Some(word) = gen.next() {
        out.push(word.into_iter().collect::<String>());
    }
    assert_eq!(out, vec!["aa", "ab", "ba", "bb"]);
}
