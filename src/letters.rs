//! Small letter collections: a set of letters and a letter-to-count map.
use vstd::prelude::*;

verus! {

/// The lowercase letters `a` to `z`.
pub open spec fn lowercase_letters() -> Set<char> {
    Set::new(|c: char| 'a' <= c && c <= 'z')
}

/// A set of letters.
#[derive(Debug)]
pub struct LetterSet {
    letters: Vec<char>,
}

impl View for LetterSet {
    type V = Set<char>;

    closed spec fn view(&self) -> Set<char> {
        self.letters@.to_set()
    }
}

impl Clone for LetterSet {
    fn clone(&self) -> (r: Self)
        ensures
            r@ == self@,
    {
        proof {
            use_type_invariant(self);
        }
        let mut letters: Vec<char> = Vec::new();
        let mut i: usize = 0;
        while i < self.letters.len()
            invariant
                0 <= i <= self.letters@.len(),
                letters@ == self.letters@.subrange(0, i as int),
            decreases self.letters@.len() - i,
        {
            letters.push(self.letters[i]);
            i += 1;
            assert(letters@ =~= self.letters@.subrange(0, i as int));
        }
        assert(letters@ =~= self.letters@);
        LetterSet { letters }
    }
}

impl LetterSet {
    #[verifier::type_invariant]
    spec fn inv(self) -> bool {
        self.letters@.no_duplicates()
    }

    /// A letter set is finite.
    pub proof fn lemma_finite(&self)
        ensures
            self@.finite(),
    {
        vstd::seq_lib::seq_to_set_is_finite(self.letters@);
    }

    /// The empty set.
    pub fn new() -> (r: Self)
        ensures
            r@ == Set::<char>::empty(),
    {
        let r = LetterSet { letters: Vec::new() };
        assert(r@ =~= Set::<char>::empty());
        r
    }

    /// The set of the lowercase letters `a` to `z`.
    pub fn lowercase() -> (r: Self)
        ensures
            r@ == lowercase_letters(),
    {
        let letters = vec![
            'a', 'b', 'c', 'd', 'e', 'f', 'g', 'h', 'i', 'j', 'k', 'l', 'm',
            'n', 'o', 'p', 'q', 'r', 's', 't', 'u', 'v', 'w', 'x', 'y', 'z',
        ];
        assert(forall|i: int| 0 <= i < 26 ==> (letters@[i] as u32) == 97 + i);
        assert(letters@.no_duplicates());
        let r = LetterSet { letters };
        assert forall|c: char| 'a' <= c && c <= 'z' implies r@.contains(c) by {
            let i = (c as u32) - 97;
            assert(r.letters@[i as int] == c);
        }
        assert(r@ =~= lowercase_letters());
        r
    }

    /// Number of letters in the set.
    pub fn len(&self) -> (r: usize)
        ensures
            r == self@.len(),
    {
        proof {
            use_type_invariant(self);
            self.letters@.unique_seq_to_set();
        }
        self.letters.len()
    }

    /// Whether `c` is in the set.
    pub fn contains(&self, c: &char) -> (r: bool)
        ensures
            r == self@.contains(*c),
    {
        let mut i: usize = 0;
        while i < self.letters.len()
            invariant
                0 <= i <= self.letters@.len(),
                forall|k: int| 0 <= k < i ==> self.letters@[k] != *c,
            decreases self.letters@.len() - i,
        {
            if self.letters[i] == *c {
                return true;
            }
            i += 1;
        }
        false
    }

    /// Adds `c`; returns whether it was not there before.
    pub fn insert(&mut self, c: char) -> (r: bool)
        ensures
            final(self)@ == old(self)@.insert(c),
            r == !old(self)@.contains(c),
    {
        proof {
            use_type_invariant(&*self);
        }
        if self.contains(&c) {
            assert(self@.insert(c) =~= self@);
            false
        } else {
            let ghost before = self.letters@;
            let mut letters = Vec::new();
            std::mem::swap(&mut self.letters, &mut letters);
            letters.push(c);
            assert(letters@ =~= before.push(c));
            assert(letters@.no_duplicates());
            self.letters = letters;
            assert(self.letters@.to_set() =~= before.to_set().insert(c)) by {
                assert forall|x: char| self.letters@.contains(x) <==> (before.contains(x) || x == c) by {
                    if before.contains(x) {
                        let k = choose|k: int| 0 <= k < before.len() && before[k] == x;
                        assert(self.letters@[k] == x);
                    }
                    if x == c {
                        assert(self.letters@[before.len() as int] == x);
                    }
                }
            }
            true
        }
    }

    /// Removes `c`; returns whether it was there.
    pub fn remove(&mut self, c: &char) -> (r: bool)
        ensures
            final(self)@ == old(self)@.remove(*c),
            r == old(self)@.contains(*c),
    {
        proof {
            use_type_invariant(&*self);
        }
        let mut i: usize = 0;
        while i < self.letters.len()
            invariant
                0 <= i <= self.letters@.len(),
                forall|k: int| 0 <= k < i ==> self.letters@[k] != *c,
            ensures
                i <= self.letters@.len(),
                forall|k: int| 0 <= k < i ==> self.letters@[k] != *c,
                i < self.letters@.len() ==> self.letters@[i as int] == *c,
            decreases self.letters@.len() - i,
        {
            if self.letters[i] == *c {
                break;
            }
            i += 1;
        }
        if i == self.letters.len() {
            assert(self@.remove(*c) =~= self@);
            return false;
        }
        let ghost before = self.letters@;
        let mut letters = Vec::new();
        std::mem::swap(&mut self.letters, &mut letters);
        letters.remove(i);
        proof {
            before.remove_ensures(i as int);
            assert(letters@ =~= before.remove(i as int));
            assert forall|x: char| letters@.contains(x) <==> (before.contains(x) && x != *c) by {
                if letters@.contains(x) {
                    let k = choose|k: int| 0 <= k < letters@.len() && letters@[k] == x;
                    if k < i {
                        assert(before[k] == x);
                    } else {
                        assert(before[k + 1] == x);
                    }
                }
                if before.contains(x) && x != *c {
                    let k = choose|k: int| 0 <= k < before.len() && before[k] == x;
                    if k < i {
                        assert(letters@[k] == x);
                    } else {
                        assert(k != i);
                        assert(letters@[k - 1] == x);
                    }
                }
            }
            assert(letters@.to_set() =~= before.to_set().remove(*c));
            assert forall|p: int, q: int| 0 <= p < letters@.len() && 0 <= q < letters@.len() && p != q
                implies letters@[p] != letters@[q] by {
                let pp = if p < i { p } else { p + 1 };
                let qq = if q < i { q } else { q + 1 };
                assert(letters@[p] == before[pp]);
                assert(letters@[q] == before[qq]);
            }
        }
        self.letters = letters;
        true
    }

    /// Removes every letter.
    pub fn clear(&mut self)
        ensures
            final(self)@ == Set::<char>::empty(),
    {
        self.letters = Vec::new();
        assert(self@ =~= Set::<char>::empty());
    }
}

/// Number of occurrences of `c` in `w`.
pub open spec fn letter_count(w: Seq<char>, c: char) -> nat
    decreases w.len(),
{
    if w.len() == 0 {
        0
    } else {
        letter_count(w.drop_last(), c) + if w.last() == c {
            1nat
        } else {
            0nat
        }
    }
}

/// Counts the occurrences of `c` in `word`.
pub fn count_letter(word: &[char; 5], c: char) -> (r: u8)
    ensures
        r == letter_count(word@, c),
        r <= 5,
{
    let mut n: u8 = 0;
    let mut i: usize = 0;
    while i < 5
        invariant
            0 <= i <= 5,
            n == letter_count(word@.subrange(0, i as int), c),
            n <= i,
        decreases 5 - i,
    {
        assert(word@.subrange(0, i as int + 1).drop_last() =~= word@.subrange(0, i as int));
        if word[i] == c {
            n += 1;
        }
        i += 1;
    }
    assert(word@.subrange(0, 5) =~= word@);
    n
}

/// A map from letters to counts.
#[derive(Debug)]
pub struct LetterCounts {
    entries: Vec<(char, u8)>,
}

impl View for LetterCounts {
    type V = Map<char, u8>;

    closed spec fn view(&self) -> Map<char, u8> {
        Map::new(
            |c: char| exists|i: int| 0 <= i < self.entries@.len() && self.entries@[i].0 == c,
            |c: char|
                self.entries@[choose|i: int| 0 <= i < self.entries@.len() && self.entries@[i].0 == c].1,
        )
    }
}

impl Clone for LetterCounts {
    fn clone(&self) -> (r: Self)
        ensures
            r@ == self@,
    {
        proof {
            use_type_invariant(self);
        }
        let mut entries: Vec<(char, u8)> = Vec::new();
        let mut i: usize = 0;
        while i < self.entries.len()
            invariant
                0 <= i <= self.entries@.len(),
                entries@ == self.entries@.subrange(0, i as int),
            decreases self.entries@.len() - i,
        {
            entries.push(self.entries[i]);
            i += 1;
            assert(entries@ =~= self.entries@.subrange(0, i as int));
        }
        assert(entries@ =~= self.entries@);
        let r = LetterCounts { entries };
        assert(r@ =~= self@);
        r
    }
}

impl LetterCounts {
    #[verifier::type_invariant]
    spec fn inv(self) -> bool {
        forall|i: int, j: int|
            0 <= i < self.entries@.len() && 0 <= j < self.entries@.len() && i != j
                ==> self.entries@[i].0 != self.entries@[j].0
    }

    proof fn lemma_entry(self, i: int)
        requires
            self.inv(),
            0 <= i < self.entries@.len(),
        ensures
            self@.contains_key(self.entries@[i].0),
            self@[self.entries@[i].0] == self.entries@[i].1,
    {
        let c = self.entries@[i].0;
        assert(self@.contains_key(c));
        let j = choose|j: int| 0 <= j < self.entries@.len() && self.entries@[j].0 == c;
        assert(j == i);
    }

    /// The empty map.
    pub fn new() -> (r: Self)
        ensures
            r@ == Map::<char, u8>::empty(),
    {
        let r = LetterCounts { entries: Vec::new() };
        assert(r@ =~= Map::<char, u8>::empty());
        r
    }

    fn find(&self, c: char) -> (r: Option<usize>)
        ensures
            match r {
                Some(i) => i < self.entries@.len() && self.entries@[i as int].0 == c,
                None => !self@.contains_key(c),
            },
    {
        let mut i: usize = 0;
        while i < self.entries.len()
            invariant
                0 <= i <= self.entries@.len(),
                forall|k: int| 0 <= k < i ==> self.entries@[k].0 != c,
            decreases self.entries@.len() - i,
        {
            if self.entries[i].0 == c {
                return Some(i);
            }
            i += 1;
        }
        None
    }

    /// The count recorded for `c`, if any.
    pub fn get(&self, c: &char) -> (r: Option<&u8>)
        ensures
            match r {
                Some(v) => self@.contains_key(*c) && *v == self@[*c],
                None => !self@.contains_key(*c),
            },
    {
        proof {
            use_type_invariant(self);
        }
        match self.find(*c) {
            Some(i) => {
                proof {
                    self.lemma_entry(i as int);
                }
                Some(&self.entries[i].1)
            },
            None => None,
        }
    }

    /// Records `v` for `c`; returns the count recorded before, if any.
    pub fn insert(&mut self, c: char, v: u8) -> (r: Option<u8>)
        ensures
            final(self)@ == old(self)@.insert(c, v),
            match r {
                Some(w) => old(self)@.contains_key(c) && w == old(self)@[c],
                None => !old(self)@.contains_key(c),
            },
    {
        proof {
            use_type_invariant(&*self);
        }
        let found = self.find(c);
        let ghost before = *self;
        let mut entries = Vec::new();
        std::mem::swap(&mut self.entries, &mut entries);
        match found {
            Some(i) => {
                let w = entries[i].1;
                proof {
                    before.lemma_entry(i as int);
                }
                entries[i] = (c, v);
                let ghost after = LetterCounts { entries: entries };
                proof {
                    assert(after.inv());
                    assert forall|x: char| after@.contains_key(x) implies after@[x] == before@.insert(c, v)[x] by {
                        let k = choose|k: int| 0 <= k < after.entries@.len() && after.entries@[k].0 == x;
                        after.lemma_entry(k);
                        if k != i {
                            before.lemma_entry(k);
                        }
                    }
                    assert forall|x: char| before@.insert(c, v).contains_key(x) implies after@.contains_key(x) by {
                        if x != c {
                            let k = choose|k: int| 0 <= k < before.entries@.len() && before.entries@[k].0 == x;
                            assert(after.entries@[k].0 == x);
                        } else {
                            assert(after.entries@[i as int].0 == x);
                        }
                    }
                    assert(after@ =~= before@.insert(c, v));
                }
                self.entries = entries;
                Some(w)
            },
            None => {
                entries.push((c, v));
                let ghost after = LetterCounts { entries: entries };
                proof {
                    let n = before.entries@.len() as int;
                    assert(after.entries@[n].0 == c);
                    assert(after.inv());
                    assert forall|x: char| after@.contains_key(x) implies after@[x] == before@.insert(c, v)[x] by {
                        let k = choose|k: int| 0 <= k < after.entries@.len() && after.entries@[k].0 == x;
                        after.lemma_entry(k);
                        if k != n {
                            before.lemma_entry(k);
                        }
                    }
                    assert forall|x: char| before@.insert(c, v).contains_key(x) implies after@.contains_key(x) by {
                        if x != c {
                            let k = choose|k: int| 0 <= k < before.entries@.len() && before.entries@[k].0 == x;
                            assert(after.entries@[k].0 == x);
                        }
                    }
                    assert(after@ =~= before@.insert(c, v));
                }
                self.entries = entries;
                None
            },
        }
    }

    /// Whether `word` holds every letter of the map at least as often as its count.
    pub fn satisfied_by(&self, word: &[char; 5]) -> (r: bool)
        ensures
            r == (forall|c: char| self@.contains_key(c) ==> letter_count(word@, c) >= self@[c]),
    {
        proof {
            use_type_invariant(self);
        }
        let mut i: usize = 0;
        while i < self.entries.len()
            invariant
                0 <= i <= self.entries@.len(),
                self.inv(),
                forall|k: int|
                    0 <= k < i ==> letter_count(word@, #[trigger] self.entries@[k].0) >= self.entries@[k].1,
            decreases self.entries@.len() - i,
        {
            let (c, n) = self.entries[i];
            if count_letter(word, c) < n {
                proof {
                    self.lemma_entry(i as int);
                }
                return false;
            }
            i += 1;
        }
        assert forall|c: char| self@.contains_key(c) implies letter_count(word@, c) >= self@[c] by {
            let k = choose|k: int| 0 <= k < self.entries@.len() && self.entries@[k].0 == c;
            self.lemma_entry(k);
        }
        true
    }
}

} // verus!
