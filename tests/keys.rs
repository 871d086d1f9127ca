use aisd::{apply_input, multitap_decode, split_lines, Character, Input, InputMode, InvalidCharacter, Language};
use aisd::Character::{Abc, Def, Ghi, Mno, Punctuation, Tuv, Wxyz};

const ALL: [Character; 9] = [
    Character::Punctuation,
    Character::Abc,
    Character::Def,
    Character::Ghi,
    Character::Jkl,
    Character::Mno,
    Character::Pqrs,
    Character::Tuv,
    Character::Wxyz,
];

#[test]
fn every_table_character_classifies_back() {
    for lang in [Language::En, Language::Pl] {
        for c in ALL {
            for ch in c.chars(lang) {
                assert_eq!(Character::from_char(ch), Some(c), "{ch:?} under {c:?}");
            }
        }
    }
    for c in ALL {
        for ch in c.all_chars() {
            assert_eq!(Character::from_char(ch), Some(c));
        }
    }
}

#[test]
fn unmapped_characters_have_no_key() {
    assert_eq!(Character::from_char('A'), None);
    assert_eq!(Character::from_char('é'), None);
    assert_eq!(Character::from_char(' '), None);
    assert_eq!(Character::from_char('ł'), Some(Character::Jkl));
    assert_eq!(Character::from_char('0'), Some(Character::Wxyz));
}

#[test]
fn tables_differ_by_language() {
    assert_eq!(Character::Abc.chars(Language::En), vec!['a', 'b', 'c', '2']);
    assert_eq!(Character::Abc.chars(Language::Pl), vec!['a', 'b', 'c', 'ą', 'ć', '2']);
    assert_eq!(
        Character::Wxyz.chars(Language::En),
        vec!['w', 'x', 'y', 'z', '9', '0']
    );
}

#[test]
fn keypad_symbols_classify() {
    assert_eq!(Input::try_from('2'), Ok(Input::Word(Character::Abc)));
    assert_eq!(Input::try_from('9'), Ok(Input::Word(Character::Wxyz)));
    assert_eq!(Input::try_from('1'), Ok(Input::Word(Character::Punctuation)));
    assert_eq!(Input::try_from('*'), Ok(Input::Next));
    assert_eq!(Input::try_from('0'), Ok(Input::Space));
    assert_eq!(Input::try_from('#'), Ok(Input::Backspace));
    assert_eq!(Input::try_from('a'), Err(InvalidCharacter::NotT9('a')));
}

#[test]
fn control_symbols_are_not_word_keys() {
    assert_eq!(Character::try_from('8'), Ok(Character::Tuv));
    assert_eq!(Character::try_from('0'), Err(InvalidCharacter::NotWord('0')));
    assert_eq!(Character::try_from('*'), Err(InvalidCharacter::NotWord('*')));
    assert_eq!(Character::try_from('#'), Err(InvalidCharacter::NotWord('#')));
    assert_eq!(Character::try_from('x'), Err(InvalidCharacter::NotT9('x')));
}

#[test]
fn defaults() {
    assert_eq!(Language::default(), Language::En);
    assert_eq!(InputMode::default(), InputMode::Multitap);
}

#[test]
fn multitap_runs_cycle_through_the_table() {
    let expected = ["a", "b", "c", "2", "a"];
    for (n, want) in expected.iter().enumerate() {
        let input = vec![Character::Abc; n + 1];
        assert_eq!(multitap_decode(&input, Language::En), *want);
    }
    assert_eq!(multitap_decode(&[Character::Abc; 4], Language::Pl), "ą");
    assert_eq!(multitap_decode(&[Character::Abc; 7], Language::Pl), "a");
}

#[test]
fn multitap_decodes_runs_in_order() {
    let input = [Tuv, Ghi, Ghi, Def, Def];
    assert_eq!(multitap_decode(&input, Language::En), "the");
    assert_eq!(multitap_decode(&[], Language::En), "");
    assert_eq!(multitap_decode(&[Wxyz; 6], Language::En), "0");
    assert_eq!(multitap_decode(&[Punctuation, Punctuation, Abc], Language::En), ".a");
}

#[test]
fn backspace_removes_a_whole_run() {
    let mut buf = vec![Abc, Abc, Abc, Def];
    apply_input(&mut buf, Input::Backspace);
    assert_eq!(buf, vec![Abc, Abc, Abc]);
    apply_input(&mut buf, Input::Backspace);
    assert_eq!(buf, Vec::<Character>::new());
    apply_input(&mut buf, Input::Backspace);
    assert_eq!(buf, Vec::<Character>::new());
}

#[test]
fn session_inputs() {
    let mut buf = Vec::new();
    apply_input(&mut buf, Input::Word(Ghi));
    apply_input(&mut buf, Input::Word(Ghi));
    apply_input(&mut buf, Input::Next);
    assert_eq!(buf, vec![Ghi, Ghi]);
    apply_input(&mut buf, Input::Word(Abc));
    apply_input(&mut buf, Input::Word(Ghi));
    apply_input(&mut buf, Input::Backspace);
    assert_eq!(buf, vec![Ghi, Ghi, Abc]);
    apply_input(&mut buf, Input::Space);
    assert!(buf.is_empty());
}

#[test]
fn word_lists_split_into_lines() {
    assert_eq!(split_lines("the\nthere\r\nthen"), vec!["the", "there", "then"]);
    assert_eq!(split_lines("the\n"), vec!["the"]);
    assert_eq!(split_lines(""), Vec::<String>::new());
    assert_eq!(split_lines("\n\n"), vec!["", ""]);
    assert_eq!(split_lines("a\rb\n"), vec!["a\rb"]);
    assert_eq!(split_lines("x\r"), vec!["x\r"]);
    assert_eq!(split_lines("żółw\nćma"), vec!["żółw", "ćma"]);
}
