use resolver_core::cycle::has_cycle;
use resolver_core::dist::{sort_digests, HashAlgorithm, HashDigest};
use resolver_core::order::{dedup_texts, sort_texts, sorted_order};
use resolver_core::text::{chars_of, text_less};

fn keys(words: &[&str]) -> Vec<Vec<char>> {
    words.iter().map(|w| w.chars().collect()).collect()
}

#[test]
fn text_order_is_lexicographic() {
    assert!(text_less(&chars_of("abc"), &chars_of("abd")));
    assert!(text_less(&chars_of("ab"), &chars_of("abc")));
    assert!(!text_less(&chars_of("abc"), &chars_of("abc")));
    assert!(!text_less(&chars_of("b"), &chars_of("abc")));
    assert!(text_less(&chars_of(""), &chars_of("a")));
}

#[test]
fn sorted_order_is_stable() {
    let order = sorted_order(&keys(&["pear", "apple", "fig", "apple", "pear"]));
    assert_eq!(order, vec![1, 3, 2, 0, 4]);
    assert_eq!(sorted_order(&keys(&[])), Vec::<usize>::new());
}

#[test]
fn sort_then_dedup_gives_each_text_once() {
    let sorted = sort_texts(&keys(&["b", "a", "b", "c", "a"]));
    assert_eq!(sorted, keys(&["a", "a", "b", "b", "c"]));
    assert_eq!(dedup_texts(&sorted), keys(&["a", "b", "c"]));
}

#[test]
fn digests_sort_by_canonical_form() {
    let d = |a: HashAlgorithm, s: &str| HashDigest { algorithm: a, digest: s.to_string() };
    let sorted = sort_digests(&vec![
        d(HashAlgorithm::Sha512, "00"),
        d(HashAlgorithm::Sha256, "ff"),
        d(HashAlgorithm::Md5, "aa"),
        d(HashAlgorithm::Sha256, "0f"),
        d(HashAlgorithm::Sha384, "11"),
    ]);
    let texts: Vec<String> = sorted.iter().map(|h| h.canonical().into_iter().collect()).collect();
    assert_eq!(texts, vec!["md5:aa", "sha256:0f", "sha256:ff", "sha384:11", "sha512:00"]);
}

#[test]
fn cycles_are_found() {
    assert!(!has_cycle(&vec![]));
    assert!(!has_cycle(&vec![vec![1, 2], vec![2], vec![]]));
    assert!(has_cycle(&vec![vec![1], vec![2], vec![0]]));
    assert!(has_cycle(&vec![vec![0]]));
    assert!(has_cycle(&vec![vec![], vec![2], vec![1], vec![0]]));
    assert!(!has_cycle(&vec![vec![3], vec![0], vec![1], vec![]]));
}
