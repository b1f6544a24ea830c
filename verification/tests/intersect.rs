use pwdict::candidates::{exec_pwgen, plan_pwgen, read_pipe, PwgenStep};
use pwdict::dictionary::read_dictionary;
use pwdict::intersect::{intersect, keep_known};
use pwdict::words::{keep_length, lowercase_all};

fn strings(words: &[&str]) -> Vec<String> {
    words.iter().map(|word| word.to_string()).collect()
}

fn piped(dictionary: &[u8], input: &[u8], length: usize) -> Vec<String> {
    let words = read_dictionary(Some(dictionary), length).unwrap();
    let candidates = read_pipe(Some(input), length).unwrap();
    intersect(&candidates, &words)
}

#[test]
fn keep_length_counts_characters() {
    let words = strings(&["cat", "été", "frog", "ox", "", "owl"]);
    assert_eq!(keep_length(&words, 3), strings(&["cat", "été", "owl"]));
    assert_eq!(keep_length(&words, 0), strings(&[""]));
    assert!(keep_length(&words, 7).is_empty());
}

#[test]
fn lowercase_all_lowers_each_word_in_place() {
    let words = strings(&["CAT", "Dog", "owl", "ÉTÉ", "Größe"]);
    assert_eq!(lowercase_all(&words), strings(&["cat", "dog", "owl", "été", "größe"]));
    assert!(lowercase_all(&Vec::new()).is_empty());
}

#[test]
fn keep_known_compares_exactly() {
    let dictionary = strings(&["cat", "dog", "owl"]);
    let words = strings(&["CAT", "dog", "fox", "bee", "cat"]);
    assert_eq!(keep_known(&words, &dictionary), strings(&["dog", "cat"]));
}

#[test]
fn keep_known_keeps_repeats_of_a_word() {
    let dictionary = strings(&["cat", "cat"]);
    let words = strings(&["cat", "dog", "cat"]);
    assert_eq!(keep_known(&words, &dictionary), strings(&["cat", "cat"]));
}

#[test]
fn piped_upper_case_candidate_matches_after_lower_casing() {
    let found = piped(b"cat\ndog\nowl\n", b"CAT dog fox bee", 3);
    assert_eq!(found, strings(&["cat", "dog"]));
}

#[test]
fn empty_dictionary_matches_nothing() {
    assert!(piped(b"", b"CAT dog fox bee", 3).is_empty());
    assert!(intersect(&strings(&["cat", "dog"]), &Vec::new()).is_empty());
}

#[test]
fn no_candidates_no_matches() {
    assert!(piped(b"cat\ndog\n", b"", 3).is_empty());
    assert!(intersect(&Vec::new(), &strings(&["cat"])).is_empty());
}

#[test]
fn count_zero_gives_no_output() {
    let words = read_dictionary(Some(&b"cat\ndog\n"[..]), 3).unwrap();
    let candidates = match plan_pwgen(3, 0) {
        PwgenStep::Done(candidates) => candidates,
        PwgenStep::Run(_) => panic!("nothing is to be run for no candidates"),
    };
    assert!(intersect(&candidates, &words).is_empty());
}

#[test]
fn word_of_other_length_is_left_out() {
    let found = piped(b"cat\nfrog\n", b"frog cat", 3);
    assert_eq!(found, strings(&["cat"]));
}

#[test]
fn upper_case_generator_output_matches() {
    let words = read_dictionary(Some(&b"cat\ndog\nowl\n"[..]), 3).unwrap();
    let candidates = exec_pwgen(Some(&b"OWL XQZ CAT\nDOG\n"[..])).unwrap();
    assert_eq!(intersect(&candidates, &words), strings(&["owl", "cat", "dog"]));
}

#[test]
fn mixed_case_piped_input_matches() {
    let found = piped(b"Cat\nDOG\n", b"cAt doG Dot CAT", 3);
    assert_eq!(found, strings(&["cat", "dog", "cat"]));
}

#[test]
fn output_keeps_candidate_order() {
    let found = piped(b"cat\ndog\nowl\n", b"owl cat fox dog cat owl", 3);
    assert_eq!(found, strings(&["owl", "cat", "dog", "cat", "owl"]));
}

#[test]
fn same_inputs_give_same_output() {
    let source = b"cat\ndog\nowl\nbee\n";
    let input = b"BEE fly cat Owl gnu dog";
    let first = piped(source, input, 3);
    let second = piped(source, input, 3);
    assert_eq!(first, strings(&["bee", "cat", "owl", "dog"]));
    assert_eq!(first, second);
}

#[test]
fn order_and_repeats_in_dictionary_do_not_matter() {
    let candidates = strings(&["dog", "Cat", "fox"]);
    let one = intersect(&candidates, &strings(&["cat", "dog"]));
    let other = intersect(&candidates, &strings(&["dog", "dog", "cat", "cat"]));
    assert_eq!(one, strings(&["dog", "cat"]));
    assert_eq!(one, other);
}

#[test]
fn large_dictionary_is_searched() {
    let mut source = Vec::new();
    for i in 0..20000 {
        source.extend_from_slice(format!("w{:05}\n", i).as_bytes());
    }
    let found = piped(&source, b"W19999 w20000 W00000 x00001 w12345", 6);
    assert_eq!(found, strings(&["w19999", "w00000", "w12345"]));
}

#[test]
fn ascii_lower_casing_changes_capital_letters_only() {
    let words = strings(&["AZ az", "@[`{", "Pass-Word_9!", "\u{0}\u{7f}"]);
    let lowered = lowercase_all(&words);
    assert_eq!(lowered, strings(&["az az", "@[`{", "pass-word_9!", "\u{0}\u{7f}"]));
    assert_eq!(lowercase_all(&lowered), lowered);
}
