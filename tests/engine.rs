use aisd::{init, multitap, multitap_decode, t9, Character, Dictionaries, Language};
use aisd::Character::{Abc, Def, Ghi, Mno, Punctuation, Tuv, Wxyz};

fn list(words: &[&str]) -> Vec<String> {
    words.iter().map(|w| w.to_string()).collect()
}

fn dicts(en: &[&str], pl: &[&str]) -> Dictionaries {
    init(list(en), list(pl))
}

fn texts(r: &[String; 3]) -> [&str; 3] {
    [r[0].as_str(), r[1].as_str(), r[2].as_str()]
}

#[test]
fn empty_buffer_gives_placeholders() {
    let d = dicts(&["the", "a"], &["tak"]);
    for lang in [Language::En, Language::Pl] {
        assert_eq!(texts(&multitap(&[], lang, &d)), ["", ":-)", ":-("]);
        assert_eq!(texts(&t9(&[], lang, &d)), ["", ":-)", ":-("]);
    }
}

#[test]
fn primary_language_scenario() {
    let d = dicts(&["the", "there", "then"], &[]);
    assert_eq!(texts(&t9(&[Tuv, Ghi, Def], Language::En, &d)), ["the", "there", "then"]);
    // two presses of 8 give 'u' and three of 4 give 'i': "the" is 8, 44, 33
    let keys = [Tuv, Tuv, Ghi, Ghi, Ghi, Def];
    assert_eq!(multitap_decode(&keys, Language::En), "uid");
    assert_eq!(texts(&multitap(&keys, Language::En, &d)), ["uid", "", ""]);
    let keys = [Tuv, Ghi, Ghi, Def, Def];
    assert_eq!(multitap_decode(&keys, Language::En), "the");
    assert_eq!(texts(&multitap(&keys, Language::En, &d)), ["the", "there", "then"]);
}

#[test]
fn every_indexed_word_is_found_under_its_keys() {
    let words = ["the", "of", "and", "to", "in", "is", "it", "you", "that", "he", "was", "for"];
    let d = dicts(&words, &[]);
    for w in words {
        let keys: Vec<Character> = w.chars().map(|c| Character::from_char(c).unwrap()).collect();
        let dict = d.get(Language::En);
        let found = dict.lookup(&keys);
        assert!(found.iter().any(|f| f == w), "{w}");
    }
}

#[test]
fn ambiguous_words_come_in_file_order_truncated_to_three() {
    let d = dicts(&["he", "if", "id", "ge", "hd"], &[]);
    assert_eq!(texts(&t9(&[Ghi, Def], Language::En, &d)), ["he", "if", "id"]);
    let d = dicts(&["if", "he"], &[]);
    assert_eq!(texts(&t9(&[Ghi, Def], Language::En, &d)), ["if", "he", ""]);
}

#[test]
fn prefix_queries_list_longer_words() {
    let d = dicts(&["go", "home", "good", "in"], &[]);
    assert_eq!(texts(&t9(&[Ghi], Language::En, &d)), ["go", "home", "good"]);
    assert_eq!(texts(&t9(&[Ghi, Mno, Mno], Language::En, &d)), ["home", "good", ""]);
}

#[test]
fn missing_path_falls_back_to_multitap_text() {
    let d = dicts(&["the"], &[]);
    assert_eq!(texts(&t9(&[Wxyz, Wxyz, Abc], Language::En, &d)), ["xa", ":-)", ":-("]);
    assert_eq!(texts(&t9(&[Tuv, Ghi, Def, Def], Language::En, &d)), ["tge", ":-)", ":-("]);
}

#[test]
fn words_with_unmapped_characters_are_not_indexed() {
    let d = dicts(&["thé", "The", "the"], &[]);
    assert_eq!(texts(&t9(&[Tuv, Ghi, Def], Language::En, &d)), ["the", "", ""]);
    assert_eq!(texts(&t9(&[Tuv, Ghi], Language::En, &d)), ["the", "", ""]);
}

#[test]
fn building_twice_answers_alike() {
    let en = ["the", "there", "then", "tie", "vie"];
    let a = dicts(&en, &["tak"]);
    let b = dicts(&en, &["tak"]);
    let queries: [&[Character]; 4] = [&[Tuv], &[Tuv, Ghi], &[Tuv, Ghi, Def], &[Abc, Abc]];
    for q in queries {
        for lang in [Language::En, Language::Pl] {
            assert_eq!(t9(q, lang, &a), t9(q, lang, &b));
            assert_eq!(multitap(q, lang, &a), multitap(q, lang, &b));
        }
    }
}

#[test]
fn multitap_completes_from_the_word_list() {
    let d = dicts(&["a", "an", "and", "ant", "b"], &["ćma", "ćwierć"]);
    assert_eq!(texts(&multitap(&[Abc], Language::En, &d)), ["a", "an", "and"]);
    assert_eq!(texts(&multitap(&[Abc, Mno, Mno], Language::En, &d)), ["an", "and", "ant"]);
    assert_eq!(texts(&multitap(&[Abc, Abc, Abc, Abc, Abc], Language::Pl, &d)), ["ć", "ćma", "ćwierć"]);
    assert_eq!(texts(&multitap(&[Wxyz], Language::En, &d)), ["w", "", ""]);
}

#[test]
fn multitap_matching_is_case_sensitive() {
    let d = dicts(&["Apple", "apple"], &[]);
    assert_eq!(texts(&multitap(&[Abc], Language::En, &d)), ["a", "apple", ""]);
}

#[test]
fn languages_use_their_own_dictionary() {
    let d = dicts(&["to"], &["tak", "tam"]);
    assert_eq!(texts(&t9(&[Tuv], Language::En, &d)), ["to", "", ""]);
    assert_eq!(texts(&t9(&[Tuv], Language::Pl, &d)), ["tak", "tam", ""]);
}
