use vstd::prelude::*;

verus! {

/// A keypad class: one of the nine digit keys that carry characters.
#[derive(Clone, Copy, Debug, PartialEq, Eq, Structural, PartialOrd, Ord, Hash)]
pub enum Character {
    Punctuation,
    Abc,
    Def,
    Ghi,
    Jkl,
    Mno,
    Pqrs,
    Tuv,
    Wxyz,
}

/// The supported languages.
#[derive(Clone, Copy, Debug, PartialEq, Eq, Structural)]
pub enum Language {
    /// English
    En,
    /// Polski
    Pl,
}

/// The two input disciplines.
#[derive(Clone, Copy, Debug, PartialEq, Eq, Structural)]
pub enum InputMode {
    /// Multi-tap mode
    Multitap,
    /// T9 mode
    T9,
}

/// A classified keypad input.
#[derive(Clone, Copy, Debug, PartialEq, Eq, Structural)]
pub enum Input {
    /// A word character (letter or punctuation)
    Word(Character),
    /// Go to the next suggestion (`*`, presentation only)
    Next,
    /// Space (`0`)
    Space,
    /// Remove the previous input group (`#`)
    Backspace,
}

/// Why a keypad symbol could not be classified.
#[derive(Clone, Copy, Debug, PartialEq, Eq, Structural)]
pub enum InvalidCharacter {
    /// The character is not a keypad symbol at all
    NotT9(char),
    /// The character is one of the control symbols `0` (space), `*` (next)
    /// or `#` (backspace), not a word key
    NotWord(char),
}

impl Default for Language {
    fn default() -> (r: Language)
        ensures
            r == Language::En,
    {
        Language::En
    }
}

impl Default for InputMode {
    fn default() -> (r: InputMode)
        ensures
            r == InputMode::Multitap,
    {
        InputMode::Multitap
    }
}

/// The candidate characters of a key, in cycling order, for one language.
pub open spec fn table(c: Character, lang: Language) -> Seq<char> {
    match lang {
        Language::En => match c {
            Character::Punctuation => seq![',', '.', '!', '?', '\'', '-', '&', '1'],
            Character::Abc => seq!['a', 'b', 'c', '2'],
            Character::Def => seq!['d', 'e', 'f', '3'],
            Character::Ghi => seq!['g', 'h', 'i', '4'],
            Character::Jkl => seq!['j', 'k', 'l', '5'],
            Character::Mno => seq!['m', 'n', 'o', '6'],
            Character::Pqrs => seq!['p', 'q', 'r', 's', '7'],
            Character::Tuv => seq!['t', 'u', 'v', '8'],
            Character::Wxyz => seq!['w', 'x', 'y', 'z', '9', '0'],
        },
        Language::Pl => all_table(c),
    }
}

/// The candidate characters of a key over every language.
pub open spec fn all_table(c: Character) -> Seq<char> {
    match c {
        Character::Punctuation => seq![',', '.', '!', '?', '\'', '-', '&', '1'],
        Character::Abc => seq!['a', 'b', 'c', 'ą', 'ć', '2'],
        Character::Def => seq!['d', 'e', 'f', 'ę', '3'],
        Character::Ghi => seq!['g', 'h', 'i', '4'],
        Character::Jkl => seq!['j', 'k', 'l', 'ł', '5'],
        Character::Mno => seq!['m', 'n', 'o', 'ń', 'ó', '6'],
        Character::Pqrs => seq!['p', 'q', 'r', 's', 'ś', '7'],
        Character::Tuv => seq!['t', 'u', 'v', '8'],
        Character::Wxyz => seq!['w', 'x', 'y', 'z', 'ż', 'ź', '9', '0'],
    }
}

/// The key under which a literal character is found, in any language.
pub open spec fn class_of(ch: char) -> Option<Character> {
    if all_table(Character::Punctuation).contains(ch) {
        Some(Character::Punctuation)
    } else if all_table(Character::Abc).contains(ch) {
        Some(Character::Abc)
    } else if all_table(Character::Def).contains(ch) {
        Some(Character::Def)
    } else if all_table(Character::Ghi).contains(ch) {
        Some(Character::Ghi)
    } else if all_table(Character::Jkl).contains(ch) {
        Some(Character::Jkl)
    } else if all_table(Character::Mno).contains(ch) {
        Some(Character::Mno)
    } else if all_table(Character::Pqrs).contains(ch) {
        Some(Character::Pqrs)
    } else if all_table(Character::Tuv).contains(ch) {
        Some(Character::Tuv)
    } else if all_table(Character::Wxyz).contains(ch) {
        Some(Character::Wxyz)
    } else {
        None
    }
}

/// The word key that a keypad digit `1` to `9` stands for.
pub open spec fn key_of_symbol(ch: char) -> Option<Character> {
    if ch == '1' {
        Some(Character::Punctuation)
    } else if ch == '2' {
        Some(Character::Abc)
    } else if ch == '3' {
        Some(Character::Def)
    } else if ch == '4' {
        Some(Character::Ghi)
    } else if ch == '5' {
        Some(Character::Jkl)
    } else if ch == '6' {
        Some(Character::Mno)
    } else if ch == '7' {
        Some(Character::Pqrs)
    } else if ch == '8' {
        Some(Character::Tuv)
    } else if ch == '9' {
        Some(Character::Wxyz)
    } else {
        None
    }
}

/// A keypad symbol read as a word key.
pub open spec fn character_of_symbol(ch: char) -> Result<Character, InvalidCharacter> {
    match key_of_symbol(ch) {
        Some(c) => Ok(c),
        None => if ch == '*' || ch == '0' || ch == '#' {
            Err(InvalidCharacter::NotWord(ch))
        } else {
            Err(InvalidCharacter::NotT9(ch))
        },
    }
}

/// A keypad symbol read as an input event.
pub open spec fn input_of_symbol(ch: char) -> Result<Input, InvalidCharacter> {
    match key_of_symbol(ch) {
        Some(c) => Ok(Input::Word(c)),
        None => if ch == '*' {
            Ok(Input::Next)
        } else if ch == '0' {
            Ok(Input::Space)
        } else if ch == '#' {
            Ok(Input::Backspace)
        } else {
            Err(InvalidCharacter::NotT9(ch))
        },
    }
}

impl Character {
    /// The candidate characters of this key in `lang`, in cycling order.
    pub fn chars(self, lang: Language) -> (r: Vec<char>)
        ensures
            r@ == table(self, lang),
            r@.len() > 0,
    {
        match lang {
            Language::En => match self {
                Character::Punctuation => vec![',', '.', '!', '?', '\'', '-', '&', '1'],
                Character::Abc => vec!['a', 'b', 'c', '2'],
                Character::Def => vec!['d', 'e', 'f', '3'],
                Character::Ghi => vec!['g', 'h', 'i', '4'],
                Character::Jkl => vec!['j', 'k', 'l', '5'],
                Character::Mno => vec!['m', 'n', 'o', '6'],
                Character::Pqrs => vec!['p', 'q', 'r', 's', '7'],
                Character::Tuv => vec!['t', 'u', 'v', '8'],
                Character::Wxyz => vec!['w', 'x', 'y', 'z', '9', '0'],
            },
            Language::Pl => self.all_chars(),
        }
    }

    /// The candidate characters of this key over every language.
    pub fn all_chars(self) -> (r: Vec<char>)
        ensures
            r@ == all_table(self),
            r@.len() > 0,
    {
        match self {
            Character::Punctuation => vec![',', '.', '!', '?', '\'', '-', '&', '1'],
            Character::Abc => vec!['a', 'b', 'c', 'ą', 'ć', '2'],
            Character::Def => vec!['d', 'e', 'f', 'ę', '3'],
            Character::Ghi => vec!['g', 'h', 'i', '4'],
            Character::Jkl => vec!['j', 'k', 'l', 'ł', '5'],
            Character::Mno => vec!['m', 'n', 'o', 'ń', 'ó', '6'],
            Character::Pqrs => vec!['p', 'q', 'r', 's', 'ś', '7'],
            Character::Tuv => vec!['t', 'u', 'v', '8'],
            Character::Wxyz => vec!['w', 'x', 'y', 'z', 'ż', 'ź', '9', '0'],
        }
    }

    /// The key under which a literal character is found, if any.
    pub fn from_char(ch: char) -> (r: Option<Character>)
        ensures
            r == class_of(ch),
    {
        match ch {
            ',' | '.' | '!' | '?' | '\'' | '-' | '&' | '1' => Some(Character::Punctuation),
            'a' | 'b' | 'c' | 'ą' | 'ć' | '2' => Some(Character::Abc),
            'd' | 'e' | 'f' | 'ę' | '3' => Some(Character::Def),
            'g' | 'h' | 'i' | '4' => Some(Character::Ghi),
            'j' | 'k' | 'l' | 'ł' | '5' => Some(Character::Jkl),
            'm' | 'n' | 'o' | 'ń' | 'ó' | '6' => Some(Character::Mno),
            'p' | 'q' | 'r' | 's' | 'ś' | '7' => Some(Character::Pqrs),
            't' | 'u' | 'v' | '8' => Some(Character::Tuv),
            'w' | 'x' | 'y' | 'z' | 'ż' | 'ź' | '9' | '0' => Some(Character::Wxyz),
            _ => None,
        }
    }
}

impl TryFrom<char> for Character {
    type Error = InvalidCharacter;

    /// Reads a keypad digit `1` to `9` as its word key.
    fn try_from(value: char) -> (r: Result<Character, InvalidCharacter>)
        ensures
            r == character_of_symbol(value),
    {
        match value {
            '1' => Ok(Character::Punctuation),
            '2' => Ok(Character::Abc),
            '3' => Ok(Character::Def),
            '4' => Ok(Character::Ghi),
            '5' => Ok(Character::Jkl),
            '6' => Ok(Character::Mno),
            '7' => Ok(Character::Pqrs),
            '8' => Ok(Character::Tuv),
            '9' => Ok(Character::Wxyz),
            '*' | '0' | '#' => Err(InvalidCharacter::NotWord(value)),
            _ => Err(InvalidCharacter::NotT9(value)),
        }
    }
}

impl vstd::std_specs::convert::TryFromSpecImpl<char> for Character {
    open spec fn obeys_try_from_spec() -> bool {
        true
    }

    open spec fn try_from_spec(v: char) -> Result<Character, InvalidCharacter> {
        character_of_symbol(v)
    }
}

impl TryFrom<char> for Input {
    type Error = InvalidCharacter;

    /// Classifies one keypad symbol (`0` to `9`, `*`, `#`).
    fn try_from(value: char) -> (r: Result<Input, InvalidCharacter>)
        ensures
            r == input_of_symbol(value),
    {
        match value {
            '1' | '2' | '3' | '4' | '5' | '6' | '7' | '8' | '9' => match Character::try_from(value) {
                Ok(c) => Ok(Input::Word(c)),
                Err(e) => Err(e),
            },
            '*' => Ok(Input::Next),
            '0' => Ok(Input::Space),
            '#' => Ok(Input::Backspace),
            _ => Err(InvalidCharacter::NotT9(value)),
        }
    }
}

impl vstd::std_specs::convert::TryFromSpecImpl<char> for Input {
    open spec fn obeys_try_from_spec() -> bool {
        true
    }

    open spec fn try_from_spec(v: char) -> Result<Input, InvalidCharacter> {
        input_of_symbol(v)
    }
}

/// Every character in a language's candidate table classifies back to the key
/// it is stored under.
pub proof fn lemma_round_trip(c: Character, lang: Language, i: int)
    requires
        0 <= i < table(c, lang).len(),
    ensures
        class_of(table(c, lang)[i]) == Some(c),
{
    assert(table(c, lang).contains(table(c, lang)[i]));
}

} // verus!
