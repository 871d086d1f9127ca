use vstd::prelude::*;
use crate::decode::{decode, multitap_decode};
use crate::keys::{Character, Language};
use crate::trie::{
    encode, indexable, lemma_matching_bounds, lemma_same_words_same_trie, matching, on_path, views,
    Dictionary,
};

verus! {

/// The dictionaries of both languages, each built once and read-only after.
pub struct Dictionaries {
    en: Dictionary,
    pl: Dictionary,
}

impl Dictionaries {
    /// The word list of a language, in file order.
    pub closed spec fn words(&self, lang: Language) -> Seq<Seq<char>> {
        match lang {
            Language::En => self.en@,
            Language::Pl => self.pl@,
        }
    }

    /// The dictionary of a language.
    pub closed spec fn dict(&self, lang: Language) -> Dictionary {
        match lang {
            Language::En => self.en,
            Language::Pl => self.pl,
        }
    }

    /// Both tries index their word lists.
    pub closed spec fn wf(&self) -> bool {
        self.en.wf() && self.pl.wf()
    }

    /// The dictionary of a language.
    pub fn get(&self, lang: Language) -> (r: &Dictionary)
        requires
            self.wf(),
        ensures
            r.wf(),
            r@ == self.words(lang),
    {
        match lang {
            Language::En => &self.en,
            Language::Pl => &self.pl,
        }
    }
}

/// Builds the dictionaries of both languages from their word lists, one word
/// per entry in file order.
pub fn init(words_en: Vec<String>, words_pl: Vec<String>) -> (r: Dictionaries)
    ensures
        r.wf(),
        r.words(Language::En) == views(words_en@),
        r.words(Language::Pl) == views(words_pl@),
{
    Dictionaries { en: Dictionary::new(words_en), pl: Dictionary::new(words_pl) }
}

/// `":-)"`, shown in the second slot when there is nothing better.
pub open spec fn smile() -> Seq<char> {
    seq![':', '-', ')']
}

/// `":-("`, shown in the third slot when there is nothing better.
pub open spec fn frown() -> Seq<char> {
    seq![':', '-', '(']
}

/// Whether `t` is a prefix of `w`.
pub open spec fn is_prefix(t: Seq<char>, w: Seq<char>) -> bool {
    t.len() <= w.len() && w.subrange(0, t.len() as int) == t
}

/// The words of `ws`, in order, that start with `t` and differ from it.
pub open spec fn completions(ws: Seq<Seq<char>>, t: Seq<char>) -> Seq<Seq<char>>
    decreases ws.len(),
{
    if ws.len() == 0 {
        Seq::empty()
    } else {
        let prev = completions(ws.drop_last(), t);
        if is_prefix(t, ws.last()) && ws.last() != t {
            prev.push(ws.last())
        } else {
            prev
        }
    }
}

/// Entry `k` of `s`, or the empty text past its end.
pub open spec fn slot(s: Seq<Seq<char>>, k: int) -> Seq<char> {
    if 0 <= k < s.len() {
        s[k]
    } else {
        Seq::empty()
    }
}

/// The suggestions for an empty buffer.
pub open spec fn placeholder() -> Seq<Seq<char>> {
    seq![Seq::empty(), smile(), frown()]
}

/// The three multi-tap suggestions: the decoded text, then the first two
/// words of the list that extend it.
pub open spec fn multitap_result(ws: Seq<Seq<char>>, q: Seq<Character>, lang: Language) -> Seq<Seq<char>> {
    if q.len() == 0 {
        placeholder()
    } else {
        let t = decode(q, lang);
        let c = completions(ws, t);
        seq![t, slot(c, 0), slot(c, 1)]
    }
}

/// The words whose key sequence starts with `q`, in list order.
pub open spec fn t9_words(ws: Seq<Seq<char>>, q: Seq<Character>) -> Seq<Seq<char>> {
    Seq::new(matching(ws, q).len(), |k: int| ws[matching(ws, q)[k] as int])
}

/// The three T9 suggestions: the first three matching words, or else the
/// multi-tap text of the keys and two placeholders.
pub open spec fn t9_result(ws: Seq<Seq<char>>, q: Seq<Character>, lang: Language) -> Seq<Seq<char>> {
    if q.len() == 0 {
        placeholder()
    } else {
        let m = t9_words(ws, q);
        if m.len() > 0 {
            seq![m[0], slot(m, 1), slot(m, 2)]
        } else {
            seq![decode(q, lang), smile(), frown()]
        }
    }
}

/// The texts of three suggestions.
pub open spec fn texts(r: [String; 3]) -> Seq<Seq<char>> {
    seq![r[0]@, r[1]@, r[2]@]
}

fn smile_text() -> (r: String)
    ensures
        r@ == smile(),
{
    let mut s = String::new();
    s.push(':');
    s.push('-');
    s.push(')');
    assert(s@ =~= smile());
    s
}

fn frown_text() -> (r: String)
    ensures
        r@ == frown(),
{
    let mut s = String::new();
    s.push(':');
    s.push('-');
    s.push('(');
    assert(s@ =~= frown());
    s
}

fn placeholder_texts() -> (r: [String; 3])
    ensures
        texts(r) == placeholder(),
{
    let r = [String::new(), smile_text(), frown_text()];
    assert(texts(r) =~= placeholder());
    r
}

/// Whether `t` is a prefix of `w`.
fn starts_with(w: &str, t: &str) -> (r: bool)
    ensures
        r == is_prefix(t@, w@),
{
    let wn = w.unicode_len();
    let tn = t.unicode_len();
    if tn > wn {
        return false;
    }
    let mut j: usize = 0;
    while j < tn
        invariant
            tn == t@.len(),
            wn == w@.len(),
            tn <= wn,
            j <= tn,
            forall|k: int| 0 <= k < j ==> w@[k] == t@[k],
        decreases tn - j,
    {
        if w.get_char(j) != t.get_char(j) {
            assert(w@.subrange(0, t@.len() as int)[j as int] != t@[j as int]);
            return false;
        }
        j = j + 1;
    }
    assert(w@.subrange(0, t@.len() as int) =~= t@);
    true
}

/// The top three suggestions for a buffer typed in multi-tap mode: the
/// decoded text, then the first two words of the list that extend it.
pub fn multitap(input: &[Character], lang: Language, dicts: &Dictionaries) -> (r: [String; 3])
    requires
        dicts.wf(),
    ensures
        texts(r) == multitap_result(dicts.words(lang), input@, lang),
{
    if input.len() == 0 {
        return placeholder_texts();
    }
    let buf = multitap_decode(input, lang);
    let dict = dicts.get(lang);
    let words = dict.words();
    let ghost ws = dict@;
    let mut found: Vec<String> = Vec::new();
    let mut i: usize = 0;
    assert(ws.subrange(0, 0) =~= Seq::<Seq<char>>::empty());
    while i < words.len()
        invariant
            views(words@) == ws,
            i <= ws.len(),
            buf@ == decode(input@, lang),
            found@.len() <= 2,
            found@.len() == 2 || found@.len() == completions(ws.subrange(0, i as int), buf@).len(),
            found@.len() <= completions(ws.subrange(0, i as int), buf@).len(),
            forall|k: int| 0 <= k < found@.len() ==>
                (#[trigger] found@[k])@ == completions(ws.subrange(0, i as int), buf@)[k],
        decreases words.len() - i,
    {
        let ghost prev = ws.subrange(0, i as int);
        let ghost next = ws.subrange(0, i + 1);
        assert(next.drop_last() =~= prev);
        let w = words[i].as_str();
        assert(w@ == ws[i as int]);
        let hit = starts_with(w, buf.as_str()) && w.unicode_len() != buf.as_str().unicode_len();
        proof {
            if is_prefix(buf@, w@) && w@.len() == buf@.len() {
                assert(w@.subrange(0, buf@.len() as int) =~= w@);
            }
        }
        if hit && found.len() < 2 {
            found.push(words[i].clone());
        }
        i = i + 1;
    }
    assert(ws.subrange(0, ws.len() as int) =~= ws);
    let first = if found.len() > 0 { found[0].clone() } else { String::new() };
    let second = if found.len() > 1 { found[1].clone() } else { String::new() };
    let r = [buf, first, second];
    assert(texts(r) =~= multitap_result(ws, input@, lang));
    r
}

/// The top three suggestions for a buffer typed in T9 mode: the first three
/// dictionary words whose keys start with the buffer, or, when none do, the
/// buffer's multi-tap text and two placeholders.
pub fn t9(input: &[Character], lang: Language, dicts: &Dictionaries) -> (r: [String; 3])
    requires
        dicts.wf(),
    ensures
        texts(r) == t9_result(dicts.words(lang), input@, lang),
{
    if input.len() == 0 {
        return placeholder_texts();
    }
    let dict = dicts.get(lang);
    let found = dict.lookup(input);
    let ghost ws = dict@;
    assert(views(found@) == t9_words(ws, input@));
    if found.len() > 0 {
        let first = found[0].clone();
        let second = if found.len() > 1 { found[1].clone() } else { String::new() };
        let third = if found.len() > 2 { found[2].clone() } else { String::new() };
        let r = [first, second, third];
        assert(texts(r) =~= t9_result(ws, input@, lang));
        r
    } else {
        let r = [multitap_decode(input, lang), smile_text(), frown_text()];
        assert(texts(r) =~= t9_result(ws, input@, lang));
        r
    }
}

/// Positions listed by `matching` increase strictly.
proof fn lemma_matching_increasing(ws: Seq<Seq<char>>, q: Seq<Character>)
    requires
        ws.len() <= usize::MAX,
    ensures
        forall|a: int, b: int|
            0 <= a < b < matching(ws, q).len() ==> #[trigger] matching(ws, q)[a] < #[trigger] matching(ws, q)[b],
    decreases ws.len(),
{
    if ws.len() > 0 {
        let prev = matching(ws.drop_last(), q);
        lemma_matching_increasing(ws.drop_last(), q);
        lemma_matching_bounds(ws.drop_last(), q);
        assert forall|a: int, b: int| 0 <= a < b < matching(ws, q).len() implies
            #[trigger] matching(ws, q)[a] < #[trigger] matching(ws, q)[b] by {
            assert(matching(ws, q)[a] == prev[a]);
            if b < prev.len() {
                assert(matching(ws, q)[b] == prev[b]);
            }
        }
    }
}

/// Where word `i` stands among the matches of its own key sequence.
proof fn lemma_matching_position(ws: Seq<Seq<char>>, i: int) -> (a: int)
    requires
        0 <= i < ws.len(),
        ws.len() <= usize::MAX,
        indexable(ws[i]),
        ws[i].len() > 0,
    ensures
        0 <= a < matching(ws, encode(ws[i])).len(),
        matching(ws, encode(ws[i]))[a] == i,
    decreases ws.len(),
{
    let q = encode(ws[i]);
    let prev = matching(ws.drop_last(), q);
    if i == ws.len() - 1 {
        assert(q.subrange(0, q.len() as int) =~= q);
        assert(on_path(q, encode(ws.last())));
        prev.len() as int
    } else {
        assert(ws.drop_last()[i] == ws[i]);
        let a = lemma_matching_position(ws.drop_last(), i);
        assert(matching(ws, q)[a] == prev[a]);
        a
    }
}

/// Every word whose characters all have keys, and that is not empty, is among
/// the T9 words of its own key sequence.
pub proof fn lemma_trie_completeness(ws: Seq<Seq<char>>, i: int)
    requires
        0 <= i < ws.len(),
        ws.len() <= usize::MAX,
        indexable(ws[i]),
        ws[i].len() > 0,
    ensures
        matching(ws, encode(ws[i])).contains(i as usize),
        t9_words(ws, encode(ws[i])).contains(ws[i]),
{
    let a = lemma_matching_position(ws, i);
    assert(t9_words(ws, encode(ws[i]))[a] == ws[i]);
}

/// Two words with the same key sequence are both T9 words of that sequence,
/// in list order; the returned positions are theirs, and both are suggested
/// when the later one is among the first three.
pub proof fn lemma_ambiguity(ws: Seq<Seq<char>>, i: int, j: int, lang: Language) -> (r: (int, int))
    requires
        0 <= i < j < ws.len(),
        ws.len() <= usize::MAX,
        indexable(ws[i]),
        indexable(ws[j]),
        ws[i].len() > 0,
        encode(ws[i]) == encode(ws[j]),
    ensures
        0 <= r.0 < r.1 < t9_words(ws, encode(ws[i])).len(),
        t9_words(ws, encode(ws[i]))[r.0] == ws[i],
        t9_words(ws, encode(ws[i]))[r.1] == ws[j],
        r.1 < 3 ==> t9_result(ws, encode(ws[i]), lang)[r.0] == ws[i],
        r.1 < 3 ==> t9_result(ws, encode(ws[i]), lang)[r.1] == ws[j],
{
    let q = encode(ws[i]);
    let a = lemma_matching_position(ws, i);
    let b = lemma_matching_position(ws, j);
    lemma_matching_increasing(ws, q);
    if b <= a {
        if b < a {
            assert(matching(ws, q)[b] < matching(ws, q)[a]);
        }
        assert(false);
    }
    assert(q.len() > 0);
    (a, b)
}

/// A non-empty key sequence that no word matches is suggested as its
/// multi-tap text, followed by the two placeholders.
pub proof fn lemma_fallback(ws: Seq<Seq<char>>, q: Seq<Character>, lang: Language)
    requires
        q.len() > 0,
        matching(ws, q).len() == 0,
    ensures
        t9_result(ws, q, lang) == seq![decode(q, lang), smile(), frown()],
{
}

/// Building the dictionaries twice from the same word lists gives tries that
/// hold the same words on every path, and the same suggestions for every
/// buffer.
pub proof fn lemma_init_idempotent(a: Dictionaries, b: Dictionaries, lang: Language)
    requires
        a.wf(),
        b.wf(),
        a.words(lang) == b.words(lang),
    ensures
        forall|q: Seq<Character>| q.len() > 0 ==>
            #[trigger] a.dict(lang).trie_at(q) == b.dict(lang).trie_at(q),
        forall|q: Seq<Character>|
            #[trigger] t9_result(a.words(lang), q, lang) == t9_result(b.words(lang), q, lang),
        forall|q: Seq<Character>|
            #[trigger] multitap_result(a.words(lang), q, lang) == multitap_result(b.words(lang), q, lang),
{
    lemma_same_words_same_trie(a.dict(lang), b.dict(lang));
}

} // verus!
