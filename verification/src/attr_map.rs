//! Attributes of a page or block: a map from an attribute's name to its list of values.
use vstd::prelude::*;

verus! {

pub open spec fn texts(v: Seq<String>) -> Seq<Seq<char>> {
    v.map_values(|x: String| x@)
}

/// The map that a list of entries stands for: a later entry for a name replaces an earlier one.
pub open spec fn entries_map(e: Seq<(String, Vec<String>)>) -> Map<Seq<char>, Seq<Seq<char>>>
    decreases e.len(),
{
    if e.len() == 0 {
        Map::empty()
    } else {
        entries_map(e.drop_last()).insert(e.last().0@, texts(e.last().1@))
    }
}

/// A copy of a list of strings.
pub fn clone_strings(v: &Vec<String>) -> (r: Vec<String>)
    ensures
        r@ == v@,
{
    let mut r: Vec<String> = Vec::new();
    let mut i: usize = 0;
    while i < v.len()
        invariant
            i <= v@.len(),
            r@ == v@.take(i as int),
        decreases v@.len() - i,
    {
        r.push(v[i].clone());
        assert(r@ =~= v@.take(i + 1));
        i = i + 1;
    }
    assert(v@.take(v@.len() as int) =~= v@);
    r
}

/// Attribute names mapped to their values.
#[derive(Debug, PartialEq, Eq)]
pub struct AttrMap {
    pub entries: Vec<(String, Vec<String>)>,
}

impl View for AttrMap {
    type V = Map<Seq<char>, Seq<Seq<char>>>;

    open spec fn view(&self) -> Map<Seq<char>, Seq<Seq<char>>> {
        entries_map(self.entries@)
    }
}

proof fn lemma_entries_map_key(e: Seq<(String, Vec<String>)>, k: Seq<char>, i: int)
    requires
        0 <= i < e.len(),
        e[i].0@ == k,
        forall|j: int| i < j < e.len() ==> (#[trigger] e[j]).0@ != k,
    ensures
        entries_map(e).contains_key(k),
        entries_map(e)[k] == texts(e[i].1@),
    decreases e.len(),
{
    if i < e.len() - 1 {
        lemma_entries_map_key(e.drop_last(), k, i);
    }
}

proof fn lemma_entries_map_absent(e: Seq<(String, Vec<String>)>, k: Seq<char>)
    requires
        forall|j: int| 0 <= j < e.len() ==> (#[trigger] e[j]).0@ != k,
    ensures
        !entries_map(e).contains_key(k),
    decreases e.len(),
{
    if e.len() > 0 {
        lemma_entries_map_absent(e.drop_last(), k);
    }
}

proof fn lemma_entries_map_finite(e: Seq<(String, Vec<String>)>)
    ensures
        entries_map(e).dom().finite(),
    decreases e.len(),
{
    if e.len() > 0 {
        lemma_entries_map_finite(e.drop_last());
    }
}

impl AttrMap {
    /// No attributes.
    pub fn new() -> (r: AttrMap)
        ensures
            r@ == Map::<Seq<char>, Seq<Seq<char>>>::empty(),
    {
        AttrMap { entries: Vec::new() }
    }

    /// Set the values of `name`, replacing any it had.
    pub fn insert(&mut self, name: String, values: Vec<String>)
        ensures
            final(self)@ == old(self)@.insert(name@, texts(values@)),
    {
        self.entries.push((name, values));
        assert(self.entries@.drop_last() =~= old(self).entries@);
    }

    /// Position of the entry that gives the values of `name`.
    fn position(&self, name: &str) -> (r: Option<usize>)
        ensures
            match r {
                Some(i) => i < self.entries@.len() && self.entries@[i as int].0@ == name@ && forall|
                    j: int,
                | i < j < self.entries@.len() ==> (#[trigger] self.entries@[j]).0@ != name@,
                None => forall|j: int|
                    0 <= j < self.entries@.len() ==> (#[trigger] self.entries@[j]).0@ != name@,
            },
    {
        let key = crate::chars::to_chars(name);
        let mut i = self.entries.len();
        while i > 0
            invariant
                i <= self.entries@.len(),
                key@ == name@,
                forall|j: int| i <= j < self.entries@.len() ==> (#[trigger] self.entries@[j]).0@ != name@,
            decreases i,
        {
            let k = crate::chars::to_chars(self.entries[i - 1].0.as_str());
            if crate::chars::chars_equal(&k, name) {
                return Some(i - 1);
            }
            i = i - 1;
        }
        None
    }

    /// The values of `name`, if it has any.
    pub fn get(&self, name: &str) -> (r: Option<&Vec<String>>)
        ensures
            match r {
                Some(v) => self@.contains_key(name@) && self@[name@] == texts(v@),
                None => !self@.contains_key(name@),
            },
    {
        match self.position(name) {
            Some(i) => {
                proof {
                    lemma_entries_map_key(self.entries@, name@, i as int);
                }
                Some(&self.entries[i].1)
            },
            None => {
                proof {
                    lemma_entries_map_absent(self.entries@, name@);
                }
                None
            },
        }
    }

    /// Whether `name` has values.
    pub fn contains_key(&self, name: &str) -> (r: bool)
        ensures
            r == self@.contains_key(name@),
    {
        self.get(name).is_some()
    }

    /// Take the values of `name` out of the map.
    pub fn remove(&mut self, name: &str) -> (r: Option<Vec<String>>)
        ensures
            final(self)@ == old(self)@.remove(name@),
            match r {
                Some(v) => old(self)@.contains_key(name@) && old(self)@[name@] == texts(v@),
                None => !old(self)@.contains_key(name@),
            },
    {
        let found = match self.get(name) {
            Some(v) => Some(clone_strings(v)),
            None => None,
        };
        let ghost before = self@;
        let mut kept: Vec<(String, Vec<String>)> = Vec::new();
        let mut i: usize = 0;
        while i < self.entries.len()
            invariant
                i <= self.entries@.len(),
                entries_map(kept@) == entries_map(self.entries@.take(i as int)).remove(name@),
                forall|j: int| 0 <= j < kept@.len() ==> (#[trigger] kept@[j]).0@ != name@,
            decreases self.entries@.len() - i,
        {
            let k = crate::chars::to_chars(self.entries[i].0.as_str());
            let ghost prev = self.entries@.take(i as int);
            assert(self.entries@.take(i + 1).drop_last() =~= prev);
            if !crate::chars::chars_equal(&k, name) {
                let (n, v) = (self.entries[i].0.clone(), clone_strings(&self.entries[i].1));
                let ghost old_kept = kept@;
                kept.push((n, v));
                assert(kept@.drop_last() =~= old_kept);
                let ghost e = self.entries@[i as int];
                assert(entries_map(self.entries@.take(i + 1)) == entries_map(prev).insert(
                    e.0@,
                    texts(e.1@),
                ));
                assert(entries_map(kept@) == entries_map(old_kept).insert(e.0@, texts(e.1@)));
                assert(entries_map(kept@) =~= entries_map(self.entries@.take(i + 1)).remove(name@));
            } else {
                assert(entries_map(self.entries@.take(i + 1)).remove(name@) =~= entries_map(
                    prev,
                ).remove(name@));
            }
            i = i + 1;
        }
        assert(self.entries@.take(self.entries@.len() as int) =~= self.entries@);
        self.entries = kept;
        match found {
            Some(v) => {
                assert(texts(v@) =~= before[name@]);
                Some(v)
            },
            None => None,
        }
    }
}

/// Reading a name back after inserting it gives the values inserted; every other name keeps what
/// it had.
pub proof fn law_get_after_insert(m: AttrMap, name: Seq<char>, values: Seq<Seq<char>>, other: Seq<char>)
    ensures
        m@.insert(name, values).contains_key(name),
        m@.insert(name, values)[name] == values,
        other != name ==> m@.insert(name, values).contains_key(other) == m@.contains_key(other),
        other != name && m@.contains_key(other) ==> m@.insert(name, values)[other] == m@[other],
{
}

/// After a name is removed it has no values; every other name keeps what it had.
pub proof fn law_absent_after_remove(m: AttrMap, name: Seq<char>, other: Seq<char>)
    ensures
        !m@.remove(name).contains_key(name),
        other != name ==> m@.remove(name).contains_key(other) == m@.contains_key(other),
        other != name && m@.contains_key(other) ==> m@.remove(name)[other] == m@[other],
{
}

} // verus!
