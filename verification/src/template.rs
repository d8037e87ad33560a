//! Templates registered once each: a template text already registered is used under the key it
//! was registered with.
use vstd::prelude::*;

use crate::chars::{chars_equal, to_chars};

verus! {

/// The keys under which template texts were registered, in the order registered.
pub struct TemplateKeys {
    pub entries: Vec<(String, String)>,
}

/// The texts and keys of the entries.
pub open spec fn entry_views(e: Seq<(String, String)>) -> Seq<(Seq<char>, Seq<char>)> {
    e.map_values(|p: (String, String)| (p.0@, p.1@))
}

/// The key of the first entry with text `t`, if any.
pub open spec fn key_of(e: Seq<(Seq<char>, Seq<char>)>, t: Seq<char>) -> Option<Seq<char>>
    decreases e.len(),
{
    if e.len() == 0 {
        None
    } else {
        match key_of(e.drop_last(), t) {
            Some(k) => Some(k),
            None => if e.last().0 == t {
                Some(e.last().1)
            } else {
                None
            },
        }
    }
}

impl TemplateKeys {
    pub open spec fn view(&self) -> Seq<(Seq<char>, Seq<char>)> {
        entry_views(self.entries@)
    }

    /// No template text registered.
    pub fn new() -> (r: TemplateKeys)
        ensures
            r.view() == Seq::<(Seq<char>, Seq<char>)>::empty(),
    {
        let r = TemplateKeys { entries: Vec::new() };
        assert(r.view() =~= Seq::<(Seq<char>, Seq<char>)>::empty());
        r
    }

    /// How many texts are registered.
    pub fn len(&self) -> (r: usize)
        ensures
            r == self.view().len(),
    {
        self.entries.len()
    }

    /// The key that `template` was registered with, if it was.
    pub fn key_for(&self, template: &str) -> (r: Option<String>)
        ensures
            match key_of(self.view(), template@) {
                Some(k) => r matches Some(s) && s@ == k,
                None => r is None,
            },
    {
        let ghost v = self.view();
        let mut i: usize = 0;
        while i < self.entries.len()
            invariant
                v == self.view(),
                i <= v.len(),
                key_of(v.take(i as int), template@) is None,
            decreases v.len() - i,
        {
            proof {
                assert(v.take(i + 1).drop_last() =~= v.take(i as int));
                assert(v.take(i + 1).last() == v[i as int]);
            }
            let t = to_chars(self.entries[i].0.as_str());
            if chars_equal(&t, template) {
                proof {
                    lemma_key_of_extends(v, i + 1, template@);
                }
                return Some(self.entries[i].1.clone());
            }
            i = i + 1;
        }
        assert(v.take(v.len() as int) =~= v);
        None
    }

    /// Record that `template` is registered under `key`, unless it already is under some key.
    pub fn record(&mut self, template: String, key: String)
        ensures
            key_of(old(self).view(), template@) is Some ==> final(self).view() == old(self).view(),
            key_of(old(self).view(), template@) is None ==> final(self).view() == old(self).view().push(
                (template@, key@),
            ),
    {
        if self.key_for(template.as_str()).is_none() {
            let ghost before = self.view();
            self.entries.push((template, key));
            assert(self.view() =~= before.push((template@, key@)));
        }
    }
}

/// Once some entry has the text, a longer list keeps the key found first.
proof fn lemma_key_of_extends(v: Seq<(Seq<char>, Seq<char>)>, n: int, t: Seq<char>)
    requires
        0 < n <= v.len(),
        key_of(v.take(n - 1), t) is None,
        v[n - 1].0 == t,
    ensures
        key_of(v, t) == Some(v[n - 1].1),
    decreases v.len() - n,
{
    assert(v.take(n).drop_last() =~= v.take(n - 1));
    assert(key_of(v.take(n), t) == Some(v[n - 1].1));
    lemma_key_of_prefix(v, n, t);
}

/// A key found in a prefix is the key found in the whole list.
proof fn lemma_key_of_prefix(v: Seq<(Seq<char>, Seq<char>)>, n: int, t: Seq<char>)
    requires
        0 <= n <= v.len(),
        key_of(v.take(n), t) is Some,
    ensures
        key_of(v, t) == key_of(v.take(n), t),
    decreases v.len() - n,
{
    if n < v.len() {
        assert(v.take(n + 1).drop_last() =~= v.take(n));
        lemma_key_of_prefix(v, n + 1, t);
    } else {
        assert(v.take(n) =~= v);
    }
}

/// A template text is registered at most once: recording a text that has a key leaves the
/// keys as they were, and the key it is then looked up under is the one it was first given.
pub proof fn law_template_registered_once(v: Seq<(Seq<char>, Seq<char>)>, t: Seq<char>, key: Seq<char>)
    ensures
        key_of(v, t) is None ==> key_of(v.push((t, key)), t) == Some(key),
        key_of(v, t) is Some ==> key_of(v.push((t, key)), t) == key_of(v, t),
{
    assert(v.push((t, key)).drop_last() =~= v);
}

} // verus!
