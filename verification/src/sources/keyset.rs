//! A small set of tile keys, kept as a duplicate-free vector.
use crate::source::TileKey;
use vstd::prelude::*;

verus! {

/// A finite set of tile keys.
pub struct KeySet {
    keys: Vec<TileKey>,
}

impl View for KeySet {
    type V = Set<TileKey>;

    closed spec fn view(&self) -> Set<TileKey> {
        Set::new(|k: TileKey| self.keys@.contains(k))
    }
}

impl KeySet {
    #[verifier::type_invariant]
    closed spec fn inv(self) -> bool {
        self.keys@.no_duplicates()
    }

    /// The empty set.
    pub fn new() -> (s: Self)
        ensures
            s@ == Set::<TileKey>::empty(),
    {
        let s = KeySet { keys: Vec::new() };
        assert(s@ =~= Set::<TileKey>::empty());
        s
    }

    fn position(&self, k: TileKey) -> (r: Option<usize>)
        ensures
            match r {
                Some(i) => i < self.keys@.len() && self.keys@[i as int] == k,
                None => !self.keys@.contains(k),
            },
    {
        let mut i: usize = 0;
        while i < self.keys.len()
            invariant
                i <= self.keys@.len(),
                forall|j: int| 0 <= j < i ==> self.keys@[j] != k,
            decreases self.keys@.len() - i,
        {
            if self.keys[i] == k {
                return Some(i);
            }
            i = i + 1;
        }
        None
    }

    /// Whether `k` is in the set.
    pub fn contains(&self, k: TileKey) -> (b: bool)
        ensures
            b == self@.contains(k),
    {
        self.position(k).is_some()
    }

    /// Add `k`; returns whether it was absent before (as
    /// `HashSet::insert` does).
    pub fn insert(&mut self, k: TileKey) -> (added: bool)
        ensures
            final(self)@ == old(self)@.insert(k),
            added == !old(self)@.contains(k),
    {
        proof {
            use_type_invariant(&*self);
        }
        if self.contains(k) {
            assert(self@.insert(k) =~= self@);
            false
        } else {
            let ghost before = self.keys@;
            let mut keys: Vec<TileKey> = Vec::new();
            std::mem::swap(&mut keys, &mut self.keys);
            keys.push(k);
            self.keys = keys;
            assert(self.keys@.no_duplicates()) by {
                assert forall|i: int, j: int|
                    0 <= i < self.keys@.len() && 0 <= j < self.keys@.len() && i != j implies self.keys@[i]
                    != self.keys@[j] by {
                    if i == before.len() as int {
                        assert(!before.contains(k));
                        assert(self.keys@[j] == before[j]);
                    } else if j == before.len() as int {
                        assert(!before.contains(k));
                        assert(self.keys@[i] == before[i]);
                    }
                }
            }
            assert(self@ =~= old(self)@.insert(k)) by {
                assert forall|x: TileKey| self@.contains(x) <==> old(self)@.insert(k).contains(x) by {
                    if self.keys@.contains(x) && x != k {
                        let j = choose|j: int| 0 <= j < self.keys@.len() && self.keys@[j] == x;
                        assert(before[j] == x);
                    }
                    if x == k {
                        assert(self.keys@[before.len() as int] == k);
                    }
                    if before.contains(x) {
                        let j = choose|j: int| 0 <= j < before.len() && before[j] == x;
                        assert(self.keys@[j] == x);
                    }
                }
            }
            true
        }
    }

    /// Remove `k`; returns whether it was present.
    pub fn remove(&mut self, k: TileKey) -> (removed: bool)
        ensures
            final(self)@ == old(self)@.remove(k),
            removed == old(self)@.contains(k),
    {
        proof {
            use_type_invariant(&*self);
        }
        match self.position(k) {
            None => {
                assert(self@.remove(k) =~= self@);
                false
            },
            Some(i) => {
                let ghost before = self.keys@;
                let mut keys: Vec<TileKey> = Vec::new();
                std::mem::swap(&mut keys, &mut self.keys);
                keys.remove(i);
                self.keys = keys;
                assert(self.keys@ == before.remove(i as int));
                assert(self.keys@.no_duplicates()) by {
                    assert forall|a: int, b: int|
                        0 <= a < self.keys@.len() && 0 <= b < self.keys@.len() && a != b implies self.keys@[a]
                        != self.keys@[b] by {
                        let a2 = if a < i { a } else { a + 1 };
                        let b2 = if b < i { b } else { b + 1 };
                        assert(self.keys@[a] == before[a2]);
                        assert(self.keys@[b] == before[b2]);
                    }
                }
                assert(self@ =~= old(self)@.remove(k)) by {
                    assert forall|x: TileKey| self@.contains(x) <==> old(self)@.remove(k).contains(x) by {
                        if self.keys@.contains(x) {
                            let j = choose|j: int| 0 <= j < self.keys@.len() && self.keys@[j] == x;
                            let j2 = if j < i { j } else { j + 1 };
                            assert(before[j2] == x);
                            assert(j2 != i);
                        }
                        if before.contains(x) && x != k {
                            let j = choose|j: int| 0 <= j < before.len() && before[j] == x;
                            assert(j != i);
                            let j2 = if j < i { j } else { j - 1 };
                            assert(self.keys@[j2] == x);
                        }
                    }
                }
                true
            },
        }
    }

    /// Remove every key.
    pub fn clear(&mut self)
        ensures
            final(self)@ == Set::<TileKey>::empty(),
    {
        self.keys = Vec::new();
        assert(self@ =~= Set::<TileKey>::empty());
    }

    /// Whether the set is empty.
    pub fn is_empty(&self) -> (b: bool)
        ensures
            b == (self@ == Set::<TileKey>::empty()),
    {
        if self.keys.len() == 0 {
            assert(self@ =~= Set::<TileKey>::empty());
            true
        } else {
            assert(self@.contains(self.keys@[0]));
            false
        }
    }

    /// Keep only the keys for which `keep` returns true.
    pub fn retain<F: Fn(&TileKey) -> bool>(&mut self, keep: F)
        requires
            forall|t: &TileKey| #[trigger] keep.requires((t,)),
        ensures
            forall|k: TileKey|
                #[trigger] final(self)@.contains(k) ==> old(self)@.contains(k) && keep.ensures(
                    (&k,),
                    true,
                ),
            forall|k: TileKey|
                old(self)@.contains(k) && !(#[trigger] final(self)@.contains(k)) ==> keep.ensures(
                    (&k,),
                    false,
                ),
    {
        proof {
            use_type_invariant(&*self);
        }
        let ghost orig = self.keys@;
        let mut kept: Vec<TileKey> = Vec::new();
        let mut i: usize = 0;
        while i < self.keys.len()
            invariant
                orig == self.keys@,
                orig.no_duplicates(),
                i <= orig.len(),
                forall|t: &TileKey| #[trigger] keep.requires((t,)),
                kept@.no_duplicates(),
                forall|x: TileKey|
                    #[trigger] kept@.contains(x) ==> orig.take(i as int).contains(x) && keep.ensures(
                        (&x,),
                        true,
                    ),
                forall|j: int|
                    0 <= j < i && !kept@.contains(#[trigger] orig[j]) ==> keep.ensures(
                        (&orig[j],),
                        false,
                    ),
            decreases orig.len() - i,
        {
            let k = self.keys[i];
            let b = keep(&k);
            if b {
                let ghost before = kept@;
                assert(!before.contains(k)) by {
                    if before.contains(k) {
                        assert(orig.take(i as int).contains(k));
                        let j = choose|j: int| 0 <= j < i && orig.take(i as int)[j] == k;
                        assert(orig[j] == orig[i as int]);
                    }
                }
                kept.push(k);
                assert forall|j: int|
                    0 <= j < i + 1 && !kept@.contains(#[trigger] orig[j]) implies keep.ensures(
                    (&orig[j],),
                    false,
                ) by {
                    if j < i {
                        if before.contains(orig[j]) {
                            let t = choose|t: int| 0 <= t < before.len() && before[t] == orig[j];
                            assert(kept@[t] == orig[j]);
                        }
                    } else {
                        assert(kept@[before.len() as int] == k);
                    }
                }
                assert(kept@.no_duplicates()) by {
                    assert forall|a: int, c: int|
                        0 <= a < kept@.len() && 0 <= c < kept@.len() && a != c implies kept@[a]
                        != kept@[c] by {
                        if a == before.len() as int {
                            assert(kept@[c] == before[c]);
                        } else if c == before.len() as int {
                            assert(kept@[a] == before[a]);
                        }
                    }
                }
                assert forall|x: TileKey| #[trigger] kept@.contains(x) implies orig.take(
                    i + 1,
                ).contains(x) && keep.ensures((&x,), true) by {
                    let j = choose|j: int| 0 <= j < kept@.len() && kept@[j] == x;
                    if j < before.len() {
                        assert(before.contains(x));
                        let j2 = choose|j2: int|
                            0 <= j2 < i && orig.take(i as int)[j2] == x;
                        assert(orig.take(i + 1)[j2] == x);
                    } else {
                        assert(orig.take(i + 1)[i as int] == x);
                    }
                }
            } else {
                assert forall|x: TileKey| #[trigger] kept@.contains(x) implies orig.take(
                    i + 1,
                ).contains(x) && keep.ensures((&x,), true) by {
                    let j2 = choose|j2: int| 0 <= j2 < i && orig.take(i as int)[j2] == x;
                    assert(orig.take(i + 1)[j2] == x);
                }
            }
            i = i + 1;
        }
        assert(orig.take(orig.len() as int) =~= orig);
        self.keys = kept;
        proof {
            assert forall|k: TileKey|
                old(self)@.contains(k) && !(#[trigger] self@.contains(k)) implies keep.ensures(
                (&k,),
                false,
            ) by {
                let j = choose|j: int| 0 <= j < orig.len() && orig[j] == k;
            }
        }
    }
}

} // verus!
