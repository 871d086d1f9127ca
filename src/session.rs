use vstd::prelude::*;
use crate::keys::{Character, Input};

verus! {

/// The buffer left after removing the trailing run of `c` from `s`.
pub open spec fn drop_run(s: Seq<Character>, c: Character) -> Seq<Character>
    decreases s.len(),
{
    if s.len() > 0 && s.last() == c {
        drop_run(s.drop_last(), c)
    } else {
        s
    }
}

/// The buffer after one Backspace: the last key goes, together with every
/// equal key right before it.
pub open spec fn backspace(s: Seq<Character>) -> Seq<Character> {
    if s.len() == 0 {
        s
    } else {
        drop_run(s.drop_last(), s.last())
    }
}

/// The buffer after one classified input event.
pub open spec fn step(s: Seq<Character>, input: Input) -> Seq<Character> {
    match input {
        Input::Word(c) => s.push(c),
        Input::Next => s,
        Input::Space => Seq::empty(),
        Input::Backspace => backspace(s),
    }
}

/// Applies one input event to a typing session's key buffer.
pub fn apply_input(buf: &mut Vec<Character>, input: Input)
    ensures
        final(buf)@ == step(old(buf)@, input),
{
    match input {
        Input::Word(c) => buf.push(c),
        Input::Next => {},
        Input::Space => buf.clear(),
        Input::Backspace => {
            if buf.len() > 0 {
                let last = buf.pop().unwrap();
                while buf.len() > 0 && buf[buf.len() - 1] == last
                    invariant
                        drop_run(buf@, last) == backspace(old(buf)@),
                    decreases buf.len(),
                {
                    buf.pop();
                }
            }
        },
    }
}

} // verus!
