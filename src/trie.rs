use vstd::prelude::*;
use crate::keys::{class_of, Character};

verus! {

/// Whether every character of a word has a key.
pub open spec fn indexable(w: Seq<char>) -> bool {
    forall|i: int| 0 <= i < w.len() ==> (#[trigger] class_of(w[i])) is Some
}

/// The key sequence of an indexable word.
pub open spec fn encode(w: Seq<char>) -> Seq<Character> {
    Seq::new(w.len(), |i: int| class_of(w[i])->0)
}

/// Whether `q` is a non-empty prefix of the key sequence `e`.
pub open spec fn on_path(q: Seq<Character>, e: Seq<Character>) -> bool {
    0 < q.len() <= e.len() && e.subrange(0, q.len() as int) == q
}

/// The positions, in list order, of the indexable words whose key sequence
/// starts with `q`.
pub open spec fn matching(ws: Seq<Seq<char>>, q: Seq<Character>) -> Seq<usize>
    decreases ws.len(),
{
    if ws.len() == 0 {
        Seq::empty()
    } else {
        let prev = matching(ws.drop_last(), q);
        if indexable(ws.last()) && on_path(q, encode(ws.last())) {
            prev.push((ws.len() - 1) as usize)
        } else {
            prev
        }
    }
}

/// Encodes a word into its key sequence; `None` when some character has no key.
pub fn encode_word(w: &String) -> (r: Option<Vec<Character>>)
    ensures
        r is Some <==> indexable(w@),
        r is Some ==> r->0@ == encode(w@),
{
    let s = w.as_str();
    let n = s.unicode_len();
    let mut out: Vec<Character> = Vec::new();
    let mut i: usize = 0;
    while i < n
        invariant
            n == w@.len(),
            s@ == w@,
            i <= n,
            out@.len() == i,
            forall|j: int| 0 <= j < i ==> (#[trigger] class_of(w@[j])) is Some,
            forall|j: int| 0 <= j < i ==> out@[j] == #[trigger] class_of(w@[j])->0,
        decreases n - i,
    {
        match Character::from_char(s.get_char(i)) {
            Some(c) => out.push(c),
            None => return None,
        }
        i = i + 1;
    }
    assert(out@ =~= encode(w@));
    Some(out)
}

/// A node of the dictionary trie: one child slot per key, and the positions of
/// the words whose key sequence passes through the node.
pub struct WordMap {
    punc: Option<Box<WordMap>>,
    abc: Option<Box<WordMap>>,
    def: Option<Box<WordMap>>,
    ghi: Option<Box<WordMap>>,
    jkl: Option<Box<WordMap>>,
    mno: Option<Box<WordMap>>,
    pqrs: Option<Box<WordMap>>,
    tuv: Option<Box<WordMap>>,
    wxyz: Option<Box<WordMap>>,
    content: Vec<usize>,
}

/// A missing node holds no words.
pub open spec fn or_empty(o: Option<Seq<usize>>) -> Seq<usize> {
    match o {
        Some(s) => s,
        None => Seq::empty(),
    }
}

impl WordMap {
    pub closed spec fn next(self, c: Character) -> Option<Box<WordMap>> {
        match c {
            Character::Punctuation => self.punc,
            Character::Abc => self.abc,
            Character::Def => self.def,
            Character::Ghi => self.ghi,
            Character::Jkl => self.jkl,
            Character::Mno => self.mno,
            Character::Pqrs => self.pqrs,
            Character::Tuv => self.tuv,
            Character::Wxyz => self.wxyz,
        }
    }

    pub closed spec fn with_next(self, c: Character, v: Option<Box<WordMap>>) -> WordMap {
        match c {
            Character::Punctuation => WordMap { punc: v, ..self },
            Character::Abc => WordMap { abc: v, ..self },
            Character::Def => WordMap { def: v, ..self },
            Character::Ghi => WordMap { ghi: v, ..self },
            Character::Jkl => WordMap { jkl: v, ..self },
            Character::Mno => WordMap { mno: v, ..self },
            Character::Pqrs => WordMap { pqrs: v, ..self },
            Character::Tuv => WordMap { tuv: v, ..self },
            Character::Wxyz => WordMap { wxyz: v, ..self },
        }
    }

    /// The node reached from this one by following the keys of `q`.
    pub closed spec fn node_at(self, q: Seq<Character>) -> Option<WordMap>
        decreases q.len(),
    {
        if q.len() == 0 {
            Some(self)
        } else {
            match self.next(q[0]) {
                Some(b) => (*b).node_at(q.drop_first()),
                None => None,
            }
        }
    }

    /// The word positions stored at the node reached by `q`, if it exists.
    pub closed spec fn contents_at(self, q: Seq<Character>) -> Option<Seq<usize>> {
        match self.node_at(q) {
            Some(n) => Some(n.content@),
            None => None,
        }
    }

    proof fn lemma_with_next(self, c: Character, v: Option<Box<WordMap>>)
        ensures
            self.with_next(c, v).next(c) == v,
            self.with_next(c, v).content == self.content,
            forall|d: Character| d != c ==> #[trigger] self.with_next(c, v).next(d) == self.next(d),
    {
    }

    fn empty() -> (r: WordMap)
        ensures
            r.content@.len() == 0,
            forall|c: Character| (#[trigger] r.next(c)) is None,
    {
        WordMap {
            punc: None,
            abc: None,
            def: None,
            ghi: None,
            jkl: None,
            mno: None,
            pqrs: None,
            tuv: None,
            wxyz: None,
            content: Vec::new(),
        }
    }

    fn get_next(&self, c: Character) -> (r: &Option<Box<WordMap>>)
        ensures
            *r == self.next(c),
    {
        match c {
            Character::Punctuation => &self.punc,
            Character::Abc => &self.abc,
            Character::Def => &self.def,
            Character::Ghi => &self.ghi,
            Character::Jkl => &self.jkl,
            Character::Mno => &self.mno,
            Character::Pqrs => &self.pqrs,
            Character::Tuv => &self.tuv,
            Character::Wxyz => &self.wxyz,
        }
    }

    fn get_next_mut(&mut self, c: Character) -> (r: &mut Option<Box<WordMap>>)
        ensures
            *r == old(self).next(c),
            *final(self) == old(self).with_next(c, *final(r)),
    {
        match c {
            Character::Punctuation => &mut self.punc,
            Character::Abc => &mut self.abc,
            Character::Def => &mut self.def,
            Character::Ghi => &mut self.ghi,
            Character::Jkl => &mut self.jkl,
            Character::Mno => &mut self.mno,
            Character::Pqrs => &mut self.pqrs,
            Character::Tuv => &mut self.tuv,
            Character::Wxyz => &mut self.wxyz,
        }
    }
    /// Adds `idx` to every node on the path of keys `enc[d..]` below this
    /// node, creating the missing ones.
    fn insert(&mut self, enc: &Vec<Character>, d: usize, idx: usize)
        requires
            d <= enc@.len(),
        ensures
            final(self).content == old(self).content,
            forall|q: Seq<Character>| #[trigger]
                final(self).contents_at(q) == if on_path(q, enc@.subrange(d as int, enc@.len() as int)) {
                    Some(or_empty(old(self).contents_at(q)).push(idx))
                } else {
                    old(self).contents_at(q)
                },
        decreases enc@.len() - d,
    {
        if d < enc.len() {
            let c = enc[d];
            let ghost pre = *self;
            let next = self.get_next_mut(c);
            let mut child = match next.take() {
                Some(b) => *b,
                None => WordMap::empty(),
            };
            let ghost child0 = child;
            child.content.push(idx);
            let ghost child1 = child;
            child.insert(enc, d + 1, idx);
            *next = Some(Box::new(child));
            proof {
                pre.lemma_with_next(c, Some(Box::new(child)));
                let e = enc@.subrange(d as int, enc@.len() as int);
                let e1 = enc@.subrange(d + 1, enc@.len() as int);
                assert(e1 =~= e.drop_first());
                assert forall|q: Seq<Character>|
                    #[trigger] self.contents_at(q) == if on_path(q, e) {
                        Some(or_empty(pre.contents_at(q)).push(idx))
                    } else {
                        pre.contents_at(q)
                    } by {
                    if q.len() > 0 {
                        let r = q.drop_first();
                        if q[0] == c {
                            assert(self.contents_at(q) == child.contents_at(r));
                            assert(child1.contents_at(r) == if r.len() == 0 {
                                Some(child0.content@.push(idx))
                            } else {
                                child0.contents_at(r)
                            });
                            assert(pre.contents_at(q) == match pre.next(c) {
                                Some(b) => b.contents_at(r),
                                None => None,
                            });
                            if r.len() == 0 {
                                assert(on_path(q, e)) by {
                                    assert(e.subrange(0, 1) =~= q);
                                }
                            } else {
                                if on_path(q, e) {
                                    assert(e1.subrange(0, r.len() as int) =~= r);
                                    assert(on_path(r, e1));
                                } else {
                                    if on_path(r, e1) {
                                        assert forall|j: int| 0 <= j < q.len() implies
                                            e.subrange(0, q.len() as int)[j] == q[j] by {
                                            if j > 0 {
                                                assert(e1.subrange(0, r.len() as int)[j - 1] == r[j - 1]);
                                            }
                                        }
                                        assert(e.subrange(0, q.len() as int) =~= q);
                                    }
                                }
                            }
                        } else {
                            assert(self.contents_at(q) == pre.contents_at(q));
                            if on_path(q, e) {
                                assert(e.subrange(0, q.len() as int)[0] == q[0]);
                            }
                        }
                    } else {
                        assert(self.contents_at(q) == pre.contents_at(q));
                    }
                }
            }
        }
    }
    /// Whether every non-empty path holds exactly the matching word positions
    /// of `ws`, and no node exists off those paths.
    pub closed spec fn indexes(self, ws: Seq<Seq<char>>) -> bool {
        forall|q: Seq<Character>| q.len() > 0 ==> #[trigger] self.contents_at(q) == expected(ws, q)
    }

    /// Builds the trie of a word list; words with a character that has no key
    /// are left out.
    fn new(words: &Vec<String>) -> (r: WordMap)
        ensures
            r.indexes(views(words@)),
    {
        let mut res = WordMap::empty();
        let mut i: usize = 0;
        assert(views(words@.subrange(0, 0)) =~= Seq::<Seq<char>>::empty());
        while i < words.len()
            invariant
                i <= words@.len(),
                res.indexes(views(words@.subrange(0, i as int))),
            decreases words.len() - i,
        {
            let ghost pre = res;
            let ghost ws0 = views(words@.subrange(0, i as int));
            let ghost ws1 = views(words@.subrange(0, i + 1));
            assert(ws1.drop_last() =~= ws0);
            assert(ws1.last() == words@[i as int]@);
            match encode_word(&words[i]) {
                Some(enc) => {
                    res.insert(&enc, 0, i);
                    proof {
                        assert(enc@.subrange(0, enc@.len() as int) =~= enc@);
                        assert forall|q: Seq<Character>| q.len() > 0 implies
                            #[trigger] res.contents_at(q) == expected(ws1, q) by {
                            assert(pre.contents_at(q) == expected(ws0, q));
                        }
                    }
                },
                None => {
                    assert forall|q: Seq<Character>| q.len() > 0 implies
                        #[trigger] res.contents_at(q) == expected(ws1, q) by {
                        assert(pre.contents_at(q) == expected(ws0, q));
                    }
                },
            }
            i = i + 1;
        }
        assert(words@.subrange(0, words@.len() as int) =~= words@);
        res
    }

    /// The node reached from this one by the keys `q[d..]`.
    fn lookup(&self, q: &[Character], d: usize) -> (r: Option<&WordMap>)
        requires
            d <= q@.len(),
        ensures
            match r {
                Some(n) => self.node_at(q@.subrange(d as int, q@.len() as int)) == Some(*n),
                None => self.node_at(q@.subrange(d as int, q@.len() as int)) is None,
            },
        decreases q@.len() - d,
    {
        let ghost rest = q@.subrange(d as int, q@.len() as int);
        if d == q.len() {
            assert(rest.len() == 0);
            Some(self)
        } else {
            assert(q@.subrange(d + 1, q@.len() as int) =~= rest.drop_first());
            match self.get_next(q[d]) {
                Some(b) => b.lookup(q, d + 1),
                None => None,
            }
        }
    }
}

/// The texts of a list of strings.
pub open spec fn views(ws: Seq<String>) -> Seq<Seq<char>> {
    ws.map_values(|w: String| w@)
}

/// What the trie node on path `q` holds: the matching positions, or no node
/// when none match.
pub open spec fn expected(ws: Seq<Seq<char>>, q: Seq<Character>) -> Option<Seq<usize>> {
    if matching(ws, q).len() > 0 {
        Some(matching(ws, q))
    } else {
        None
    }
}

/// Every position that `matching` lists is a position of the list.
pub proof fn lemma_matching_bounds(ws: Seq<Seq<char>>, q: Seq<Character>)
    requires
        ws.len() <= usize::MAX,
    ensures
        forall|k: int| 0 <= k < matching(ws, q).len() ==> (#[trigger] matching(ws, q)[k]) < ws.len(),
    decreases ws.len(),
{
    if ws.len() > 0 {
        let prev = matching(ws.drop_last(), q);
        lemma_matching_bounds(ws.drop_last(), q);
        assert forall|k: int| 0 <= k < matching(ws, q).len() implies
            (#[trigger] matching(ws, q)[k]) < ws.len() by {
            if k < prev.len() {
                assert(matching(ws, q)[k] == prev[k]);
            }
        }
    }
}

/// A dictionary of one language: its word list, in file order, and the trie
/// built from it once.
pub struct Dictionary {
    words: Vec<String>,
    map: WordMap,
}

impl View for Dictionary {
    type V = Seq<Seq<char>>;

    closed spec fn view(&self) -> Seq<Seq<char>> {
        views(self.words@)
    }
}

impl Dictionary {
    /// The trie indexes exactly the word list.
    pub closed spec fn wf(&self) -> bool {
        &&& self.map.indexes(self@)
        &&& self.words@.len() == self@.len()
    }

    /// Builds the dictionary of a word list, one word per entry, in order.
    pub fn new(words: Vec<String>) -> (r: Dictionary)
        ensures
            r.wf(),
            r@ == views(words@),
    {
        let map = WordMap::new(&words);
        Dictionary { words, map }
    }

    /// The word positions on the trie path of the keys `q`, if it exists.
    pub closed spec fn trie_at(&self, q: Seq<Character>) -> Option<Seq<usize>> {
        self.map.contents_at(q)
    }

    /// The word list, in file order.
    pub fn words(&self) -> (r: &Vec<String>)
        ensures
            views(r@) == self@,
    {
        &self.words
    }

    /// The words, in list order, whose key sequence starts with `q`.
    pub fn lookup(&self, q: &[Character]) -> (r: Vec<String>)
        requires
            self.wf(),
            q@.len() > 0,
        ensures
            views(r@) == Seq::new(matching(self@, q@).len(), |k: int| self@[matching(self@, q@)[k] as int]),
    {
        let mut out: Vec<String> = Vec::new();
        let n = self.words.len();
        match self.map.lookup(q, 0) {
            Some(node) => {
                let ghost m = matching(self@, q@);
                proof {
                    assert(q@.subrange(0, q@.len() as int) =~= q@);
                    assert(self.map.contents_at(q@) == expected(self@, q@));
                    assert(n == self@.len());
                    lemma_matching_bounds(self@, q@);
                }
                let mut k: usize = 0;
                while k < node.content.len()
                    invariant
                        node.content@ == m,
                        forall|j: int| 0 <= j < m.len() ==> (#[trigger] m[j]) < self.words@.len(),
                        k <= m.len(),
                        out@.len() == k,
                        forall|j: int| 0 <= j < k ==> (#[trigger] out@[j])@ == self@[m[j] as int],
                    decreases node.content.len() - k,
                {
                    out.push(self.words[node.content[k]].clone());
                    k = k + 1;
                }
                assert(views(out@) =~= Seq::new(m.len(), |j: int| self@[m[j] as int]));
            },
            None => {
                proof {
                    assert(q@.subrange(0, q@.len() as int) =~= q@);
                    assert(self.map.contents_at(q@) == expected(self@, q@));
                }
                assert(views(out@) =~= Seq::new(matching(self@, q@).len(), |k: int| self@[matching(self@, q@)[k] as int]));
            },
        }
        out
    }
}

/// Two dictionaries built from the same word list hold the same words on every
/// non-empty path of their tries.
pub proof fn lemma_same_words_same_trie(a: Dictionary, b: Dictionary)
    requires
        a.wf(),
        b.wf(),
        a@ == b@,
    ensures
        forall|q: Seq<Character>| q.len() > 0 ==> #[trigger] a.trie_at(q) == b.trie_at(q),
{
    assert forall|q: Seq<Character>| q.len() > 0 implies #[trigger] a.trie_at(q) == b.trie_at(q) by {
        assert(a.map.contents_at(q) == expected(a@, q));
        assert(b.map.contents_at(q) == expected(b@, q));
    }
}

} // verus!
