use vstd::prelude::*;

verus! {

/// The mapping that a sequence of (key, value) pairs describes when the pairs
/// are applied in order: a later pair for the same key overrides an earlier one.
pub open spec fn map_of(pairs: Seq<(Seq<char>, Seq<char>)>) -> Map<Seq<char>, Seq<char>>
    decreases pairs.len(),
{
    if pairs.len() == 0 {
        Map::empty()
    } else {
        map_of(pairs.drop_last()).insert(pairs.last().0, pairs.last().1)
    }
}

/// If no pair from index `i` on has key `k`, the pairs before `i` decide `k`.
pub proof fn lemma_map_of_tail_skips(pairs: Seq<(Seq<char>, Seq<char>)>, i: int, k: Seq<char>)
    requires
        0 <= i <= pairs.len(),
        forall|j: int| i <= j < pairs.len() ==> pairs[j].0 != k,
    ensures
        map_of(pairs).contains_key(k) == map_of(pairs.take(i)).contains_key(k),
        map_of(pairs)[k] == map_of(pairs.take(i))[k],
    decreases pairs.len(),
{
    if pairs.len() == i {
        assert(pairs.take(i) =~= pairs);
    } else {
        let rest = pairs.drop_last();
        assert(rest.take(i) =~= pairs.take(i));
        lemma_map_of_tail_skips(rest, i, k);
    }
}

/// Replacing the value of the last pair with key `k` is inserting `k` anew.
pub proof fn lemma_map_of_update_last(
    pairs: Seq<(Seq<char>, Seq<char>)>,
    i: int,
    k: Seq<char>,
    v: Seq<char>,
)
    requires
        0 <= i < pairs.len(),
        pairs[i].0 == k,
        forall|j: int| i < j < pairs.len() ==> pairs[j].0 != k,
    ensures
        map_of(pairs.update(i, (k, v))) == map_of(pairs).insert(k, v),
    decreases pairs.len(),
{
    let upd = pairs.update(i, (k, v));
    if i == pairs.len() - 1 {
        assert(upd.drop_last() =~= pairs.drop_last());
        assert(map_of(upd) =~= map_of(pairs).insert(k, v));
    } else {
        let rest = pairs.drop_last();
        assert(upd.drop_last() =~= rest.update(i, (k, v)));
        lemma_map_of_update_last(rest, i, k, v);
        assert(map_of(upd) =~= map_of(pairs).insert(k, v));
    }
}

/// A finite table from strings to strings, kept as two parallel vectors.
/// Lookups go from the newest pair backwards, so a later pair for a key
/// overrides an earlier one.
pub struct StrTable {
    keys: Vec<String>,
    vals: Vec<String>,
}

impl StrTable {
    pub closed spec fn wf(&self) -> bool {
        self.keys.len() == self.vals.len()
    }

    /// The pairs of the table, oldest first.
    pub closed spec fn pairs(&self) -> Seq<(Seq<char>, Seq<char>)> {
        Seq::new(self.keys.len() as nat, |i: int| (self.keys[i]@, self.vals[i]@))
    }

    pub open spec fn view(&self) -> Map<Seq<char>, Seq<char>> {
        map_of(self.pairs())
    }

    pub fn new() -> (r: StrTable)
        ensures
            r.wf(),
            r@ == Map::<Seq<char>, Seq<char>>::empty(),
    {
        let r = StrTable { keys: Vec::new(), vals: Vec::new() };
        assert(r.pairs() =~= Seq::<(Seq<char>, Seq<char>)>::empty());
        r
    }

    /// Index of the newest pair whose key is `k`, if any.
    fn find(&self, k: &String) -> (r: Option<usize>)
        requires
            self.wf(),
        ensures
            match r {
                Some(i) => {
                    &&& i < self.keys.len()
                    &&& self.keys[i as int]@ == k@
                    &&& forall|j: int| i < j < self.keys.len() ==> self.keys[j]@ != k@
                },
                None => forall|j: int| 0 <= j < self.keys.len() ==> self.keys[j]@ != k@,
            },
    {
        let mut i: usize = self.keys.len();
        while i > 0
            invariant
                i <= self.keys.len(),
                forall|j: int| i <= j < self.keys.len() ==> self.keys[j]@ != k@,
            decreases i,
        {
            i = i - 1;
            if self.keys[i] == *k {
                return Some(i);
            }
        }
        None
    }

    pub fn get(&self, k: &String) -> (r: Option<String>)
        requires
            self.wf(),
        ensures
            match r {
                Some(v) => self@.contains_key(k@) && v@ == self@[k@],
                None => !self@.contains_key(k@),
            },
    {
        let found = self.find(k);
        proof {
            let ps = self.pairs();
            match found {
                Some(i) => {
                    lemma_map_of_tail_skips(ps, i + 1, k@);
                    assert(ps.take(i + 1).drop_last() =~= ps.take(i as int));
                },
                None => {
                    lemma_map_of_tail_skips(ps, 0, k@);
                    assert(ps.take(0) =~= Seq::<(Seq<char>, Seq<char>)>::empty());
                },
            }
        }
        match found {
            Some(i) => Some(self.vals[i].clone()),
            None => None,
        }
    }

    pub fn insert(&mut self, k: String, v: String)
        requires
            old(self).wf(),
        ensures
            final(self).wf(),
            final(self)@ == old(self)@.insert(k@, v@),
    {
        let found = self.find(&k);
        let ghost ps = self.pairs();
        match found {
            Some(i) => {
                self.vals[i] = v;
                proof {
                    lemma_map_of_update_last(ps, i as int, k@, v@);
                    assert(self.pairs() =~= ps.update(i as int, (k@, v@)));
                }
            },
            None => {
                self.keys.push(k);
                self.vals.push(v);
                proof {
                    assert(self.pairs().drop_last() =~= ps);
                }
            },
        }
    }
}

} // verus!
