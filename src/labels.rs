use vstd::prelude::*;

verus! {

/// The label table: fully qualified names mapped to instruction positions.
pub struct Labels {
    entries: Vec<(String, usize)>,
}

/// The position in `s` of the last entry named `k`, or -1.
pub open spec fn find_last(s: Seq<(String, usize)>, k: Seq<char>) -> int
    decreases s.len(),
{
    if s.len() == 0 {
        -1
    } else if s.last().0@ == k {
        s.len() - 1
    } else {
        find_last(s.drop_last(), k)
    }
}

proof fn lemma_find_last_bounds(s: Seq<(String, usize)>, k: Seq<char>)
    ensures
        -1 <= find_last(s, k) < s.len(),
        find_last(s, k) >= 0 ==> s[find_last(s, k)].0@ == k,
    decreases s.len(),
{
    if s.len() > 0 && s.last().0@ != k {
        lemma_find_last_bounds(s.drop_last(), k);
    }
}

/// Entries with the same names, position by position, are searched alike.
proof fn lemma_find_last_same_names(s: Seq<(String, usize)>, t: Seq<(String, usize)>, k: Seq<char>)
    requires
        s.len() == t.len(),
        forall|i: int| 0 <= i < s.len() ==> #[trigger] s[i].0@ == t[i].0@,
    ensures
        find_last(s, k) == find_last(t, k),
    decreases s.len(),
{
    if s.len() > 0 {
        lemma_find_last_same_names(s.drop_last(), t.drop_last(), k);
    }
}

pub open spec fn entries_map(s: Seq<(String, usize)>) -> Map<Seq<char>, usize> {
    Map::new(|k: Seq<char>| find_last(s, k) >= 0, |k: Seq<char>| s[find_last(s, k)].1)
}

impl View for Labels {
    type V = Map<Seq<char>, usize>;

    closed spec fn view(&self) -> Map<Seq<char>, usize> {
        entries_map(self.entries@)
    }
}

impl Labels {
    pub fn new() -> (r: Labels)
        ensures
            r@ == Map::<Seq<char>, usize>::empty(),
    {
        let r = Labels { entries: Vec::new() };
        assert(r@ =~= Map::<Seq<char>, usize>::empty());
        r
    }

    fn index_of(&self, name: &String) -> (r: Option<usize>)
        ensures
            match r {
                Some(i) => find_last(self.entries@, name@) == i && i < self.entries@.len(),
                None => find_last(self.entries@, name@) == -1,
            },
    {
        let mut i: usize = self.entries.len();
        assert(self.entries@.take(i as int) =~= self.entries@);
        while i > 0
            invariant
                i <= self.entries@.len(),
                find_last(self.entries@, name@) == find_last(self.entries@.take(i as int), name@),
            decreases i,
        {
            assert(self.entries@.take(i as int).drop_last() =~= self.entries@.take(i - 1));
            if self.entries[i - 1].0 == *name {
                return Some(i - 1);
            }
            i -= 1;
        }
        None
    }

    /// The position a name is bound to.
    pub fn get(&self, name: &String) -> (r: Option<usize>)
        ensures
            r == (if self@.contains_key(name@) {
                Some(self@[name@])
            } else {
                None
            }),
    {
        match self.index_of(name) {
            Some(i) => Some(self.entries[i].1),
            None => None,
        }
    }

    /// Binds a name, replacing any earlier binding of it.
    pub fn set(&mut self, name: String, pos: usize)
        ensures
            final(self)@ == old(self)@.insert(name@, pos),
    {
        let ghost k = name@;
        let ghost old_entries = self.entries@;
        match self.index_of(&name) {
            Some(i) => {
                proof {
                    lemma_find_last_bounds(old_entries, k);
                }
                self.entries.set(i, (name, pos));
                let ghost new_entries = self.entries@;
                proof {
                    assert forall|j: int| 0 <= j < old_entries.len() implies #[trigger] old_entries[j].0@
                        == new_entries[j].0@ by {}
                    assert forall|q: Seq<char>|
                        #![auto]
                        find_last(old_entries, q) == find_last(new_entries, q) by {
                        lemma_find_last_same_names(old_entries, new_entries, q);
                    }
                    assert forall|q: Seq<char>|
                        #![auto]
                        find_last(new_entries, q) >= 0 && q != k ==> new_entries[find_last(
                            new_entries,
                            q,
                        )] == old_entries[find_last(old_entries, q)] by {
                        lemma_find_last_bounds(new_entries, q);
                    }
                }
                assert(self@ =~= old(self)@.insert(k, pos));
            },
            None => {
                self.entries.push((name, pos));
                let ghost new_entries = self.entries@;
                assert(new_entries.drop_last() =~= old_entries);
                assert forall|q: Seq<char>|
                    #![auto]
                    q != k ==> find_last(new_entries, q) == find_last(old_entries, q) && (
                    find_last(old_entries, q) >= 0 ==> new_entries[find_last(new_entries, q)]
                        == old_entries[find_last(old_entries, q)]) by {
                    lemma_find_last_bounds(old_entries, q);
                }
                assert(find_last(new_entries, k) == old_entries.len());
                assert(self@ =~= old(self)@.insert(k, pos));
            },
        }
    }

    pub fn duplicate(&self) -> (r: Labels)
        ensures
            r@ == self@,
    {
        let mut entries: Vec<(String, usize)> = Vec::new();
        let mut i: usize = 0;
        while i < self.entries.len()
            invariant
                i <= self.entries@.len(),
                entries@.len() == i,
                forall|j: int| 0 <= j < i ==> #[trigger] entries@[j] == self.entries@[j],
            decreases self.entries@.len() - i,
        {
            let e = (self.entries[i].0.clone(), self.entries[i].1);
            entries.push(e);
            i += 1;
        }
        assert(entries@ =~= self.entries@);
        Labels { entries }
    }
}

} // verus!
