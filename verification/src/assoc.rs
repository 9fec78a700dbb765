//! A small table keyed by strings.

use crate::text;
use vstd::prelude::*;

verus! {

/// Values by name; no name occurs twice.
pub struct Table<V> {
    entries: Vec<(String, V)>,
}

spec fn lookup<V>(s: Seq<(String, V)>, id: Seq<char>) -> Option<V>
    decreases s.len(),
{
    if s.len() == 0 {
        None
    } else if s[0].0@ == id {
        Some(s[0].1)
    } else {
        lookup(s.skip(1), id)
    }
}

spec fn distinct<V>(s: Seq<(String, V)>) -> bool
    decreases s.len(),
{
    s.len() == 0 || (lookup(s.skip(1), s[0].0@) is None && distinct(s.skip(1)))
}

spec fn map_of<V>(s: Seq<(String, V)>) -> Map<Seq<char>, V> {
    Map::new(|id: Seq<char>| lookup(s, id) is Some, |id: Seq<char>| lookup(s, id)->0)
}

impl<V> View for Table<V> {
    type V = Map<Seq<char>, V>;

    closed spec fn view(&self) -> Map<Seq<char>, V> {
        map_of(self.entries@)
    }
}

/// The value in an option of a reference.
pub open spec fn value_of<V>(v: Option<&V>) -> Option<V> {
    match v {
        Some(x) => Some(*x),
        None => None,
    }
}

/// The value of a name in a map.
pub open spec fn in_map<V>(m: Map<Seq<char>, V>, id: Seq<char>) -> Option<V> {
    if m.dom().contains(id) {
        Some(m[id])
    } else {
        None
    }
}

proof fn lemma_removed<V>(s: Seq<(String, V)>, i: int, id: Seq<char>)
    requires
        distinct(s),
        0 <= i < s.len(),
    ensures
        lookup(s.remove(i), id) == (if id == s[i].0@ {
            None
        } else {
            lookup(s, id)
        }),
        lookup(s, s[i].0@) == Some(s[i].1),
        distinct(s.remove(i)),
    decreases s.len(),
{
    if i == 0 {
        assert(s.remove(0) =~= s.skip(1));
    } else {
        let t = s.remove(i);
        assert(t.skip(1) =~= s.skip(1).remove(i - 1));
        assert(t[0] == s[0]);
        assert(s.skip(1)[i - 1] == s[i]);
        lemma_removed(s.skip(1), i - 1, id);
        lemma_removed(s.skip(1), i - 1, s[0].0@);
    }
}

proof fn lemma_pushed<V>(s: Seq<(String, V)>, e: (String, V), id: Seq<char>)
    requires
        distinct(s),
        lookup(s, e.0@) is None,
    ensures
        lookup(s.push(e), id) == (if id == e.0@ {
            Some(e.1)
        } else {
            lookup(s, id)
        }),
        distinct(s.push(e)),
    decreases s.len(),
{
    let t = s.push(e);
    if s.len() == 0 {
        assert(t.skip(1).len() == 0);
        assert(lookup(t.skip(1), id) is None);
        assert(lookup(t.skip(1), e.0@) is None);
        assert(distinct(t.skip(1)));
    } else {
        assert(t.skip(1) =~= s.skip(1).push(e));
        assert(t[0] == s[0]);
        lemma_pushed(s.skip(1), e, id);
        lemma_pushed(s.skip(1), e, s[0].0@);
    }
}

/// A name is in the table if and only if an entry has it.
proof fn lemma_member<V>(s: Seq<(String, V)>, id: Seq<char>)
    ensures
        lookup(s, id) is Some <==> exists|i: int| 0 <= i < s.len() && (#[trigger] s[i]).0@ == id,
    decreases s.len(),
{
    if s.len() > 0 {
        lemma_member(s.skip(1), id);
        if s[0].0@ != id {
            if lookup(s.skip(1), id) is Some {
                let i = choose|i: int|
                    0 <= i < s.skip(1).len() && (#[trigger] s.skip(1)[i]).0@ == id;
                assert(s[i + 1].0@ == id);
            }
            if exists|i: int| 0 <= i < s.len() && (#[trigger] s[i]).0@ == id {
                let i = choose|i: int| 0 <= i < s.len() && (#[trigger] s[i]).0@ == id;
                assert(s.skip(1)[i - 1].0@ == id);
            }
        }
    }
}

proof fn lemma_no_duplicates<V>(s: Seq<(String, V)>, i: int, j: int)
    requires
        distinct(s),
        0 <= i < j < s.len(),
    ensures
        s[i].0@ != s[j].0@,
    decreases s.len(),
{
    if i == 0 {
        lemma_member(s.skip(1), s[0].0@);
        assert(s.skip(1)[j - 1] == s[j]);
    } else {
        assert(s.skip(1)[i - 1] == s[i]);
        assert(s.skip(1)[j - 1] == s[j]);
        lemma_no_duplicates(s.skip(1), i - 1, j - 1);
    }
}

proof fn lemma_size<V>(s: Seq<(String, V)>)
    requires
        distinct(s),
    ensures
        map_of(s).dom().finite(),
        map_of(s).dom().len() == s.len(),
    decreases s.len(),
{
    if s.len() == 0 {
        assert(map_of(s).dom() =~= Set::empty());
    } else {
        lemma_size(s.skip(1));
        let rest = map_of(s.skip(1)).dom();
        assert(!rest.contains(s[0].0@));
        assert forall|id: Seq<char>| map_of(s).dom().contains(id) == rest.insert(
            s[0].0@,
        ).contains(id) by {
            assert(lookup(s, id) is Some <==> (s[0].0@ == id || lookup(s.skip(1), id) is Some));
        }
        assert(map_of(s).dom() =~= rest.insert(s[0].0@));
    }
}

impl<V> Table<V> {
    /// No name occurs twice.
    pub closed spec fn wf(self) -> bool {
        distinct(self.entries@)
    }

    /// The empty table.
    pub fn new() -> (r: Self)
        ensures
            r.wf(),
            r@ == Map::<Seq<char>, V>::empty(),
    {
        let r = Table { entries: Vec::new() };
        assert(r@ =~= Map::<Seq<char>, V>::empty());
        r
    }

    /// The number of entries.
    pub fn len(&self) -> (r: usize)
        requires
            self.wf(),
        ensures
            self@.dom().finite(),
            r == self@.dom().len(),
    {
        proof {
            lemma_size(self.entries@);
        }
        self.entries.len()
    }

    fn position(&self, id: &str) -> (r: Option<usize>)
        ensures
            r matches Some(i) ==> i < self.entries@.len() && self.entries@[i as int].0@ == id@
                && lookup(self.entries@, id@) == Some(self.entries@[i as int].1),
            r is None ==> lookup(self.entries@, id@) is None,
    {
        let ghost all = self.entries@;
        let mut i: usize = 0;
        assert(all.skip(0) =~= all);
        while i < self.entries.len()
            invariant
                self.entries@ == all,
                i <= all.len(),
                lookup(all, id@) == lookup(all.skip(i as int), id@),
            decreases all.len() - i,
        {
            if text::str_eq(self.entries[i].0.as_str(), id) {
                return Some(i);
            }
            assert(all.skip(i as int).skip(1) =~= all.skip(i + 1));
            i += 1;
        }
        None
    }

    /// The value of a name.
    pub fn get(&self, id: &str) -> (r: Option<&V>)
        ensures
            value_of(r) == in_map(self@, id@),
    {
        match self.position(id) {
            Some(i) => Some(&self.entries[i].1),
            None => None,
        }
    }

    /// Whether a name has a value.
    pub fn contains(&self, id: &str) -> (r: bool)
        ensures
            r == self@.dom().contains(id@),
    {
        self.position(id).is_some()
    }

    /// Takes the value of a name out.
    pub fn remove(&mut self, id: &str) -> (r: Option<V>)
        requires
            old(self).wf(),
        ensures
            final(self).wf(),
            final(self)@ == old(self)@.remove(id@),
            r == in_map(old(self)@, id@),
    {
        let ghost all = self.entries@;
        match self.position(id) {
            Some(i) => {
                let e = self.entries.remove(i);
                proof {
                    lemma_removed(all, i as int, id@);
                    assert forall|x: Seq<char>| lookup(all.remove(i as int), x) == (if x == id@ {
                        None
                    } else {
                        lookup(all, x)
                    }) by {
                        lemma_removed(all, i as int, x);
                    }
                    assert(self@ =~= map_of(all).remove(id@));
                }
                Some(e.1)
            },
            None => {
                assert(self@ =~= map_of(all).remove(id@));
                None
            },
        }
    }

    /// Gives a name a value, in place of the one that it had.
    pub fn insert(&mut self, id: &str, value: V)
        requires
            old(self).wf(),
        ensures
            final(self).wf(),
            final(self)@ == old(self)@.insert(id@, value),
    {
        let ghost before = self@;
        let _gone = self.remove(id);
        let ghost rest = self.entries@;
        let e = (id.to_string(), value);
        assert(!map_of(rest).dom().contains(id@));
        self.entries.push(e);
        proof {
            assert forall|x: Seq<char>| lookup(rest.push(e), x) == (if x == e.0@ {
                Some(e.1)
            } else {
                lookup(rest, x)
            }) by {
                lemma_pushed(rest, e, x);
            }
            lemma_pushed(rest, e, id@);
            let after = before.insert(id@, value);
            let without = before.remove(id@);
            assert(map_of(rest) == without);
            assert forall|x: Seq<char>|
                #![trigger self@.dom().contains(x)]
                self@.dom().contains(x) == after.dom().contains(x) && (self@.dom().contains(x)
                    ==> self@[x] == after[x]) by {
                assert(map_of(rest).dom().contains(x) == without.dom().contains(x));
                if x != id@ && without.dom().contains(x) {
                    assert(map_of(rest)[x] == without[x]);
                }
            }
            assert(self@ =~= after);
        }
    }

    /// The names, each once.
    pub fn keys(&self) -> (r: Vec<String>)
        requires
            self.wf(),
        ensures
            forall|id: Seq<char>| text::views(r@).contains(id) <==> #[trigger] self@.dom().contains(id),
            text::views(r@).no_duplicates(),
    {
        let mut out: Vec<String> = Vec::new();
        let mut i: usize = 0;
        while i < self.entries.len()
            invariant
                i <= self.entries@.len(),
                out@.len() == i,
                forall|j: int| 0 <= j < i ==> (#[trigger] out@[j])@ == self.entries@[j].0@,
            decreases self.entries@.len() - i,
        {
            out.push(self.entries[i].0.clone());
            i += 1;
        }
        proof {
            let v = text::views(out@);
            assert forall|id: Seq<char>| v.contains(id) <==> #[trigger] self@.dom().contains(id) by {
                lemma_member(self.entries@, id);
                if v.contains(id) {
                    let j = choose|j: int| 0 <= j < v.len() && v[j] == id;
                    assert(out@[j]@ == self.entries@[j].0@);
                    assert(self.entries@[j].0@ == id);
                }
                if self@.dom().contains(id) {
                    let j = choose|j: int|
                        0 <= j < self.entries@.len() && (#[trigger] self.entries@[j]).0@ == id;
                    assert(out@[j]@ == id);
                    assert(v[j] == id);
                }
            }
            assert forall|a: int, b: int| 0 <= a < b < v.len() implies v[a] != v[b] by {
                lemma_no_duplicates(self.entries@, a, b);
                assert(out@[a]@ == self.entries@[a].0@);
                assert(out@[b]@ == self.entries@[b].0@);
            }
        }
        out
    }
}

} // verus!
