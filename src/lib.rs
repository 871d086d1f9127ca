//! Predictive text entry for a nine-key numeric keypad: multi-tap decoding,
//! a dictionary trie keyed by keypad classes, and T9 suggestions.

mod decode;
mod engine;
mod keys;
mod lines;
mod session;
mod trie;

pub use keys::{Character, Input, InputMode, InvalidCharacter, Language};
pub use decode::multitap_decode;
pub use lines::split_lines;
pub use engine::{init, multitap, t9, Dictionaries};
pub use trie::Dictionary;
pub use session::apply_input;
