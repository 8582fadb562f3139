use vstd::prelude::*;

verus! {

/// The mapping that an association list denotes: later entries override
/// earlier ones with the same key.
pub open spec fn entries_map<V: View>(s: Seq<(String, V)>) -> Map<Seq<char>, V::V>
    decreases s.len(),
{
    if s.len() == 0 {
        Map::empty()
    } else {
        entries_map(s.drop_last()).insert(s.last().0@, s.last().1@)
    }
}

/// Overwriting the last entry with a key is inserting that key anew.
proof fn lemma_update_last<V: View>(s: Seq<(String, V)>, i: int, e: (String, V))
    requires
        0 <= i < s.len(),
        s[i].0@ == e.0@,
        forall|m: int| i < m < s.len() ==> (#[trigger] s[m]).0@ != e.0@,
    ensures
        entries_map(s.update(i, e)) == entries_map(s).insert(e.0@, e.1@),
    decreases s.len(),
{
    let t = s.update(i, e);
    if i == s.len() - 1 {
        assert(t.drop_last() =~= s.drop_last());
    } else {
        assert(t.drop_last() =~= s.drop_last().update(i, e));
        lemma_update_last(s.drop_last(), i, e);
        assert(s.drop_last().len() == s.len() - 1);
    }
    assert(entries_map(t) =~= entries_map(s).insert(e.0@, e.1@));
}

/// A string-keyed map where the last write for a key wins.
pub struct VarMap<V> {
    entries: Vec<(String, V)>,
}

impl<V: View> View for VarMap<V> {
    type V = Map<Seq<char>, V::V>;

    closed spec fn view(&self) -> Map<Seq<char>, V::V> {
        entries_map(self.entries@)
    }
}

impl<V: View> VarMap<V> {
    pub fn new() -> (m: Self)
        ensures
            m@ == Map::<Seq<char>, V::V>::empty(),
    {
        VarMap { entries: Vec::new() }
    }

    pub fn insert(&mut self, key: String, value: V)
        ensures
            final(self)@ == old(self)@.insert(key@, value@),
    {
        let ghost s = self.entries@;
        let mut j: usize = self.entries.len();
        let mut found = false;
        while j > 0 && !found
            invariant
                s == self.entries@,
                j <= s.len(),
                forall|m: int| j <= m < s.len() ==> (#[trigger] s[m]).0@ != key@,
                found ==> j > 0 && s[j - 1].0@ == key@,
            decreases j + (if found { 0int } else { 1int }),
        {
            if self.entries[j - 1].0 == key {
                found = true;
            } else {
                j = j - 1;
            }
        }
        if found {
            proof {
                lemma_update_last(s, j - 1, (key, value));
            }
            self.entries[j - 1] = (key, value);
            return;
        }
        self.entries.push((key, value));
        assert(self.entries@.drop_last() =~= s);
    }

    pub fn get(&self, key: &String) -> (r: Option<&V>)
        ensures
            match r {
                Some(v) => self@.contains_key(key@) && v@ == self@[key@],
                None => !self@.contains_key(key@),
            },
    {
        let mut j: usize = self.entries.len();
        assert(self.entries@.subrange(0, j as int) =~= self.entries@);
        while j > 0
            invariant
                j <= self.entries@.len(),
                entries_map(self.entries@).contains_key(key@) == entries_map(self.entries@.subrange(0, j as int)).contains_key(key@),
                entries_map(self.entries@).contains_key(key@) ==> entries_map(self.entries@)[key@] == entries_map(self.entries@.subrange(0, j as int))[key@],
            decreases j,
        {
            proof {
                let s = self.entries@.subrange(0, j as int);
                assert(s.drop_last() =~= self.entries@.subrange(0, j - 1));
                assert(s.last() == self.entries@[j - 1]);
            }
            if self.entries[j - 1].0 == *key {
                return Some(&self.entries[j - 1].1);
            }
            j = j - 1;
        }
        None
    }
}

} // verus!
