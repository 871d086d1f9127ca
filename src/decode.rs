use vstd::prelude::*;
use crate::keys::{table, Character, Language};

verus! {

/// Relies on `String::push`: the character is appended to the text.
pub assume_specification[ String::push ](s: &mut String, ch: char)
    ensures
        final(s)@ == old(s)@.push(ch),
;

/// The length of the maximal run of equal keys that ends the sequence.
pub open spec fn trailing_run(s: Seq<Character>) -> nat
    decreases s.len(),
{
    if s.len() == 0 {
        0
    } else if s.len() >= 2 && s[s.len() - 2] == s[s.len() - 1] {
        1 + trailing_run(s.drop_last())
    } else {
        1
    }
}

/// The character that a run of `n` presses of key `c` selects.
pub open spec fn run_char(c: Character, n: nat, lang: Language) -> char {
    table(c, lang)[(n - 1) % (table(c, lang).len() as int)]
}

/// Multi-tap text of a key sequence: each maximal run of equal keys becomes
/// one character, in sequence order.
pub open spec fn decode(s: Seq<Character>, lang: Language) -> Seq<char>
    decreases s.len(),
{
    if s.len() == 0 {
        seq![]
    } else {
        let n = trailing_run(s);
        if 0 < n <= s.len() {
            decode(s.subrange(0, s.len() - n), lang).push(run_char(s.last(), n, lang))
        } else {
            seq![]
        }
    }
}

proof fn lemma_trailing_run_bounds(s: Seq<Character>)
    ensures
        s.len() > 0 ==> 0 < trailing_run(s) <= s.len(),
        s.len() == 0 ==> trailing_run(s) == 0,
    decreases s.len(),
{
    if s.len() > 1 {
        lemma_trailing_run_bounds(s.drop_last());
    }
}

/// Decodes a multi-tap key sequence without any dictionary lookup.
pub fn multitap_decode(input: &[Character], lang: Language) -> (r: String)
    ensures
        r@ == decode(input@, lang),
{
    let mut buf = String::new();
    let mut i: usize = 0;
    // the key of the open run, and its presses so far minus one
    let mut cur: Option<Character> = None;
    let mut count: usize = 0;
    while i < input.len()
        invariant
            0 <= i <= input@.len(),
            i == 0 <==> cur is None,
            i > 0 ==> cur == Some(input@[i - 1]),
            i > 0 ==> trailing_run(input@.subrange(0, i as int)) == count + 1,
            i > 0 ==> buf@ == decode(input@.subrange(0, i - count - 1), lang),
            i == 0 ==> buf@ == Seq::<char>::empty(),
            count < i || i == 0,
        decreases input.len() - i,
    {
        let ch = input[i];
        let ghost prefix = input@.subrange(0, i + 1);
        assert(prefix.drop_last() =~= input@.subrange(0, i as int));
        if cur == Some(ch) {
            count = count + 1;
        } else {
            if let Some(c) = cur {
                proof {
                    let p = input@.subrange(0, i as int);
                    lemma_trailing_run_bounds(p);
                    assert(p.subrange(0, p.len() - trailing_run(p)) =~= input@.subrange(0, i - count - 1));
                }
                let chars = c.chars(lang);
                buf.push(chars[count % chars.len()]);
            }
            count = 0;
            cur = Some(ch);
        }
        i = i + 1;
    }
    if let Some(c) = cur {
        proof {
            let p = input@.subrange(0, i as int);
            lemma_trailing_run_bounds(p);
            assert(p.subrange(0, p.len() - trailing_run(p)) =~= input@.subrange(0, i - count - 1));
            assert(p =~= input@);
        }
        let chars = c.chars(lang);
        buf.push(chars[count % chars.len()]);
    } else {
        assert(input@.len() == 0);
    }
    buf
}

proof fn lemma_trailing_run_repeat(c: Character, n: nat)
    ensures
        trailing_run(Seq::new(n, |_j: int| c)) == n,
    decreases n,
{
    if n > 1 {
        lemma_trailing_run_repeat(c, (n - 1) as nat);
        assert(Seq::new(n, |_j: int| c).drop_last() =~= Seq::new((n - 1) as nat, |_j: int| c));
    }
}

/// A run of `n` presses of one key decodes to the table entry at `(n - 1)`
/// modulo the table's length.
pub proof fn lemma_multitap_cycling(c: Character, n: nat, lang: Language)
    requires
        n > 0,
    ensures
        decode(Seq::new(n, |_j: int| c), lang) == seq![run_char(c, n, lang)],
{
    let s = Seq::new(n, |_j: int| c);
    lemma_trailing_run_repeat(c, n);
    assert(s.subrange(0, 0) =~= Seq::<Character>::empty());
    assert(decode(s.subrange(0, 0), lang) == Seq::<char>::empty());
    assert(seq![run_char(c, n, lang)] =~= Seq::<char>::empty().push(run_char(c, n, lang)));
}

} // verus!
