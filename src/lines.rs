use vstd::prelude::*;
use crate::trie::views;

verus! {

broadcast use vstd::string::axiom_spec_iter;

/// Relies on `String::pop`: the last character is removed and returned, and
/// an empty string gives `None`.
pub assume_specification[ String::pop ](s: &mut String) -> (r: Option<char>)
    ensures
        old(s)@.len() == 0 ==> r is None && final(s)@ == old(s)@,
        old(s)@.len() > 0 ==> r == Some(old(s)@.last()) && final(s)@ == old(s)@.drop_last(),
;

/// A line without its terminator: a `'\r'` right before the `'\n'` goes too.
pub open spec fn line_body(cur: Seq<char>) -> Seq<char> {
    if cur.len() > 0 && cur.last() == '\r' {
        cur.drop_last()
    } else {
        cur
    }
}

/// The lines that a text closes with `'\n'`, and the unterminated rest.
pub open spec fn scan(s: Seq<char>) -> (Seq<Seq<char>>, Seq<char>)
    decreases s.len(),
{
    if s.len() == 0 {
        (Seq::empty(), Seq::empty())
    } else {
        let (done, cur) = scan(s.drop_last());
        if s.last() == '\n' {
            (done.push(line_body(cur)), Seq::empty())
        } else {
            (done, cur.push(s.last()))
        }
    }
}

/// The lines of a text: split at each `'\n'`, each without its line ending;
/// a last line without `'\n'` counts when it is not empty.
pub open spec fn lines(s: Seq<char>) -> Seq<Seq<char>> {
    let (done, cur) = scan(s);
    if cur.len() > 0 {
        done.push(cur)
    } else {
        done
    }
}

/// Splits a word-list text into its lines, one word per line, in order.
pub fn split_lines(text: &str) -> (r: Vec<String>)
    ensures
        views(r@) == lines(text@),
{
    let mut done: Vec<String> = Vec::new();
    let mut cur = String::new();
    for ch in it: text.chars()
        invariant
            it.seq() == text@,
            views(done@) == scan(text@.take(it.index() as int)).0,
            cur@ == scan(text@.take(it.index() as int)).1,
    {
        let ghost before = text@.take(it.index() as int);
        assert(text@.take(it.index() + 1).drop_last() =~= before);
        if ch == '\n' {
            match cur.pop() {
                Some('\r') => {},
                Some(c) => cur.push(c),
                None => {},
            }
            assert(cur@ =~= line_body(scan(before).1));
            done.push(cur);
            cur = String::new();
            assert(views(done@) =~= scan(before).0.push(line_body(scan(before).1)));
        } else {
            cur.push(ch);
        }
    }
    assert(text@.take(text@.len() as int) =~= text@);
    if !cur.as_str().is_empty() {
        done.push(cur);
        assert(views(done@) =~= lines(text@));
    }
    done
}

} // verus!
