//! The session variable pool: a name-to-value store, pre-seeded with
//! `ans`. Values are kept as the decimal text of the number they stand
//! for, the same text that flows through the formula pipeline.

use vstd::prelude::*;

verus! {

/// One binding: a variable name and the value text bound to it.
#[derive(Debug, Clone)]
pub struct VarData(pub String, pub String);

/// A name-to-value store with unique keys, alive for a whole session.
#[derive(Debug)]
pub struct VarPool {
    pool: Vec<(String, String)>,
}

impl VarPool {
    /// The map described by a sequence of bindings, later entries winning.
    spec fn as_map_of(s: Seq<(String, String)>) -> Map<Seq<char>, Seq<char>>
        decreases s.len(),
    {
        if s.len() == 0 {
            Map::empty()
        } else {
            Self::as_map_of(s.drop_last()).insert(s.last().0@, s.last().1@)
        }
    }

    /// The store as a mathematical map from names to value texts.
    pub closed spec fn view(&self) -> Map<Seq<char>, Seq<char>> {
        Self::as_map_of(self.pool@)
    }

    /// Each name occurs at most once.
    pub closed spec fn wf(&self) -> bool {
        forall|i: int, j: int|
            0 <= i < j < self.pool@.len() ==> self.pool@[i].0@ != self.pool@[j].0@
    }

    /// A binding at index `i` is what the map gives for its name, as long
    /// as no later binding reuses the name.
    proof fn lemma_index(s: Seq<(String, String)>, i: int)
        requires
            0 <= i < s.len(),
            forall|j: int| i < j < s.len() ==> s[j].0@ != s[i].0@,
        ensures
            Self::as_map_of(s).contains_key(s[i].0@),
            Self::as_map_of(s)[s[i].0@] == s[i].1@,
        decreases s.len(),
    {
        if i == s.len() - 1 {
        } else {
            Self::lemma_index(s.drop_last(), i);
        }
    }

    /// A name that no binding carries is not in the map.
    proof fn lemma_absent(s: Seq<(String, String)>, k: Seq<char>)
        requires
            forall|j: int| 0 <= j < s.len() ==> s[j].0@ != k,
        ensures
            !Self::as_map_of(s).contains_key(k),
        decreases s.len(),
    {
        if s.len() > 0 {
            Self::lemma_absent(s.drop_last(), k);
        }
    }

    /// Overwriting the binding at `i` in place, when names are unique,
    /// is inserting into the map.
    proof fn lemma_update(s: Seq<(String, String)>, i: int, kv: (String, String))
        requires
            0 <= i < s.len(),
            s[i].0@ == kv.0@,
            forall|a: int, b: int| 0 <= a < b < s.len() ==> s[a].0@ != s[b].0@,
        ensures
            Self::as_map_of(s.update(i, kv)) =~= Self::as_map_of(s).insert(kv.0@, kv.1@),
        decreases s.len(),
    {
        let t = s.update(i, kv);
        if i == s.len() - 1 {
            assert(t.drop_last() =~= s.drop_last());
        } else {
            assert(t.drop_last() =~= s.drop_last().update(i, kv));
            Self::lemma_update(s.drop_last(), i, kv);
            assert(s.last().0@ != kv.0@);
        }
    }

    /// A fresh pool holding exactly the seed binding `ans = 0`.
    pub fn new() -> (r: Self)
        ensures
            r.wf(),
            r@ == Map::<Seq<char>, Seq<char>>::empty().insert("ans"@, "0"@),
    {
        let mut pool: Vec<(String, String)> = Vec::new();
        pool.push(("ans".to_owned(), "0".to_owned()));
        let r = VarPool { pool };
        proof {
            reveal_with_fuel(VarPool::as_map_of, 3);
            assert(r.pool@.drop_last() =~= Seq::<(String, String)>::empty());
            assert(r@ =~= Map::<Seq<char>, Seq<char>>::empty().insert("ans"@, "0"@));
        }
        r
    }

    /// The index of the binding carrying `name`, if one does.
    fn find_idx(&self, name: &String) -> (r: Option<usize>)
        ensures
            match r {
                Some(i) => i < self.pool@.len() && self.pool@[i as int].0@ == name@,
                None => forall|j: int| 0 <= j < self.pool@.len() ==> self.pool@[j].0@ != name@,
            },
    {
        let n = self.pool.len();
        let mut i: usize = 0;
        while i < n
            invariant
                n == self.pool@.len(),
                0 <= i <= n,
                forall|j: int| 0 <= j < i ==> self.pool@[j].0@ != name@,
            decreases n - i,
        {
            if self.pool[i].0 == *name {
                return Some(i);
            }
            i = i + 1;
        }
        None
    }

    /// Binds `dat`'s name to `dat`'s value, replacing any previous binding.
    pub fn insert(&mut self, dat: VarData)
        requires
            old(self).wf(),
        ensures
            final(self).wf(),
            final(self)@ == old(self)@.insert(dat.0@, dat.1@),
    {
        let ghost old_pool = self.pool@;
        let ghost key = dat.0@;
        let ghost value = dat.1@;
        match self.find_idx(&dat.0) {
            Some(i) => {
                proof {
                    Self::lemma_update(old_pool, i as int, (dat.0, dat.1));
                }
                self.pool.set(i, (dat.0, dat.1));
                proof {
                    assert(forall|j: int|
                        0 <= j < self.pool@.len() ==> #[trigger] self.pool@[j].0@ == old_pool[j].0@);
                    assert(self.wf());
                    assert(self@ == old(self)@.insert(key, value));
                }
            },
            None => {
                self.pool.push((dat.0, dat.1));
                proof {
                    assert(self.pool@.drop_last() =~= old_pool);
                    assert(self@ == old(self)@.insert(key, value));
                    assert(forall|j: int|
                        0 <= j < old_pool.len() ==> #[trigger] self.pool@[j].0@ == old_pool[j].0@);
                    assert(self.pool@[old_pool.len() as int].0@ == key);
                    assert(self.wf());
                }
            },
        }
    }

    /// The value text bound to `name`, or `None` when the name is unbound.
    pub fn get(&self, name: &String) -> (r: Option<String>)
        requires
            self.wf(),
        ensures
            match r {
                Some(v) => self@.contains_key(name@) && v@ == self@[name@],
                None => !self@.contains_key(name@),
            },
    {
        let n = self.pool.len();
        let mut i: usize = 0;
        while i < n
            invariant
                self.wf(),
                n == self.pool@.len(),
                0 <= i <= n,
                forall|j: int| 0 <= j < i ==> self.pool@[j].0@ != name@,
            decreases n - i,
        {
            if self.pool[i].0 == *name {
                proof {
                    Self::lemma_index(self.pool@, i as int);
                }
                return Some(self.pool[i].1.clone());
            }
            i = i + 1;
        }
        proof {
            Self::lemma_absent(self.pool@, name@);
        }
        None
    }
}

} // verus!
