//! The variable store: names bound to 32-bit integers.
use vstd::prelude::*;

verus! {

/// Variables and their values, each name bound at most once.
pub struct Variables {
    entries: Vec<(String, i32)>,
}

/// The bindings of an entry list as a map, later entries winning.
pub open spec fn entries_map(s: Seq<(String, i32)>) -> Map<Seq<char>, i32>
    decreases s.len(),
{
    if s.len() == 0 {
        Map::empty()
    } else {
        entries_map(s.drop_last()).insert(s.last().0@, s.last().1)
    }
}

/// No name occurs twice in the entry list.
pub open spec fn distinct_names(s: Seq<(String, i32)>) -> bool {
    forall|i: int, j: int| 0 <= i < j < s.len() ==> s[i].0@ != s[j].0@
}

proof fn lemma_entries_map_lookup(s: Seq<(String, i32)>, k: Seq<char>)
    requires
        distinct_names(s),
    ensures
        entries_map(s).contains_key(k) <==> exists|i: int| 0 <= i < s.len() && s[i].0@ == k,
        forall|i: int| 0 <= i < s.len() && s[i].0@ == k ==> entries_map(s)[k] == s[i].1,
    decreases s.len(),
{
    if s.len() > 0 {
        let p = s.drop_last();
        lemma_entries_map_lookup(p, k);
        if entries_map(s).contains_key(k) && s.last().0@ != k {
            let i = choose|i: int| 0 <= i < p.len() && p[i].0@ == k;
            assert(s[i] == p[i]);
        }
        if exists|i: int| 0 <= i < s.len() && s[i].0@ == k {
            let i = choose|i: int| 0 <= i < s.len() && s[i].0@ == k;
            if i < s.len() - 1 {
                assert(s[i] == p[i]);
            }
        }
        assert forall|i: int| 0 <= i < s.len() && s[i].0@ == k implies entries_map(s)[k] == s[i].1 by {
            if i < s.len() - 1 {
                assert(s[i] == p[i]);
            }
        }
    }
}

proof fn lemma_entries_map_update(s: Seq<(String, i32)>, j: int, e: (String, i32))
    requires
        distinct_names(s),
        0 <= j < s.len(),
        s[j].0@ == e.0@,
    ensures
        entries_map(s.update(j, e)) == entries_map(s).insert(e.0@, e.1),
        distinct_names(s.update(j, e)),
    decreases s.len(),
{
    let t = s.update(j, e);
    if j == s.len() - 1 {
        assert(t.drop_last() =~= s.drop_last());
        assert(entries_map(s).insert(e.0@, e.1) =~= entries_map(s.drop_last()).insert(e.0@, e.1));
    } else {
        lemma_entries_map_update(s.drop_last(), j, e);
        assert(t.drop_last() =~= s.drop_last().update(j, e));
        assert(entries_map(t) =~= entries_map(s).insert(e.0@, e.1));
    }
}

impl View for Variables {
    type V = Map<Seq<char>, i32>;

    closed spec fn view(&self) -> Map<Seq<char>, i32> {
        entries_map(self.entries@)
    }
}

impl Variables {
    #[verifier::type_invariant]
    closed spec fn well_formed(self) -> bool {
        distinct_names(self.entries@)
    }

    /// A store with no variables.
    pub fn new() -> (r: Variables)
        ensures
            r@ == Map::<Seq<char>, i32>::empty(),
    {
        Variables { entries: Vec::new() }
    }

    /// The position of `name` among the entries.
    fn find(&self, name: &String) -> (r: Option<usize>)
        ensures
            match r {
                Some(i) => i < self.entries@.len() && self.entries@[i as int].0@ == name@,
                None => forall|i: int| 0 <= i < self.entries@.len() ==> self.entries@[i].0@ != name@,
            },
    {
        let mut i: usize = 0;
        while i < self.entries.len()
            invariant
                i <= self.entries@.len(),
                forall|k: int| 0 <= k < i ==> self.entries@[k].0@ != name@,
            decreases self.entries@.len() - i,
        {
            if self.entries[i].0 == *name {
                return Some(i);
            }
            i = i + 1;
        }
        None
    }

    /// The value bound to `name`, if any.
    pub fn get(&self, name: &String) -> (r: Option<i32>)
        ensures
            r == (if self@.contains_key(name@) { Some(self@[name@]) } else { None::<i32> }),
    {
        proof {
            use_type_invariant(self);
            lemma_entries_map_lookup(self.entries@, name@);
        }
        match self.find(name) {
            Some(i) => Some(self.entries[i].1),
            None => None,
        }
    }

    /// Binds `name` to `value`, replacing any earlier binding.
    pub fn insert(&mut self, name: String, value: i32)
        ensures
            final(self)@ == old(self)@.insert(name@, value),
    {
        proof {
            use_type_invariant(&*self);
        }
        let ghost before = self.entries@;
        match self.find(&name) {
            Some(i) => {
                proof {
                    lemma_entries_map_update(before, i as int, (name, value));
                }
                let mut entries: Vec<(String, i32)> = Vec::new();
                std::mem::swap(&mut entries, &mut self.entries);
                entries.set(i, (name, value));
                self.entries = entries;
            },
            None => {
                let ghost e = (name, value);
                let mut entries: Vec<(String, i32)> = Vec::new();
                std::mem::swap(&mut entries, &mut self.entries);
                entries.push((name, value));
                proof {
                    assert(entries@.drop_last() =~= before);
                }
                self.entries = entries;
            },
        }
    }
}

} // verus!
