//! A tree of string pieces that is flattened into one string at the end.
use vstd::prelude::*;

use crate::chars::{is_whitespace, is_ws, to_chars};

verus! {

/// A string assembled from pieces.
#[derive(Debug)]
pub enum StringBuilder {
    Empty,
    String(String),
    Vec(Vec<StringBuilder>),
}

/// The text a builder stands for: its pieces, in order.
pub open spec fn flat(sb: StringBuilder) -> Seq<char>
    decreases sb,
{
    match sb {
        StringBuilder::Empty => Seq::empty(),
        StringBuilder::String(s) => s@,
        StringBuilder::Vec(v) => flat_all(v@),
    }
}

/// The texts of a sequence of builders, concatenated.
pub open spec fn flat_all(v: Seq<StringBuilder>) -> Seq<char>
    decreases v,
{
    if v.len() == 0 {
        Seq::empty()
    } else {
        flat_all(v.subrange(0, v.len() - 1)) + flat(v[v.len() - 1])
    }
}

/// Whether `p` is a prefix of `s`.
pub open spec fn has_prefix(s: Seq<char>, p: Seq<char>) -> bool {
    p.len() <= s.len() && s.subrange(0, p.len() as int) == p
}

/// A builder starts with `p` when its first piece does: for a nested builder only the first
/// element is looked at, however short it is.
pub open spec fn starts_with_spec(sb: StringBuilder, p: Seq<char>) -> bool
    decreases sb,
{
    match sb {
        StringBuilder::Empty => false,
        StringBuilder::String(s) => has_prefix(s@, p),
        StringBuilder::Vec(v) => if v.len() == 0 {
            false
        } else {
            starts_with_spec(v[0], p)
        },
    }
}

/// Every character of `s` is whitespace.
pub open spec fn all_ws(s: Seq<char>) -> bool {
    forall|i: int| 0 <= i < s.len() ==> is_ws(#[trigger] s[i])
}

pub proof fn lemma_flat_all_push(v: Seq<StringBuilder>, x: StringBuilder)
    ensures
        flat_all(v.push(x)) == flat_all(v) + flat(x),
{
    assert(v.push(x).subrange(0, v.len() as int) =~= v);
}

proof fn lemma_all_ws_concat(a: Seq<char>, b: Seq<char>)
    ensures
        all_ws(a + b) == (all_ws(a) && all_ws(b)),
{
    if all_ws(a + b) {
        assert forall|i: int| 0 <= i < b.len() implies is_ws(#[trigger] b[i]) by {
            assert((a + b)[a.len() + i] == b[i]);
        }
        assert forall|i: int| 0 <= i < a.len() implies is_ws(#[trigger] a[i]) by {
            assert((a + b)[i] == a[i]);
        }
    }
}

fn str_is_blank(s: &String) -> (r: bool)
    ensures
        r == all_ws(s@),
{
    let chars = to_chars(s.as_str());
    let mut i: usize = 0;
    while i < chars.len()
        invariant
            chars@ == s@,
            i <= chars@.len(),
            forall|k: int| 0 <= k < i ==> is_ws(#[trigger] chars@[k]),
        decreases chars@.len() - i,
    {
        if !is_whitespace(chars[i]) {
            return false;
        }
        i = i + 1;
    }
    true
}

fn str_starts_with(s: &String, p: &str) -> (r: bool)
    ensures
        r == has_prefix(s@, p@),
{
    let sc = to_chars(s.as_str());
    let pc = to_chars(p);
    if pc.len() > sc.len() {
        return false;
    }
    let mut i: usize = 0;
    while i < pc.len()
        invariant
            sc@ == s@,
            pc@ == p@,
            pc@.len() <= sc@.len(),
            i <= pc@.len(),
            forall|k: int| 0 <= k < i ==> sc@[k] == pc@[k],
        decreases pc@.len() - i,
    {
        if sc[i] != pc[i] {
            assert(s@.subrange(0, p@.len() as int)[i as int] != p@[i as int]);
            return false;
        }
        i = i + 1;
    }
    assert(s@.subrange(0, p@.len() as int) =~= p@);
    true
}

impl StringBuilder {
    /// An empty list of pieces.
    pub fn new() -> (r: StringBuilder)
        ensures
            r matches StringBuilder::Vec(v) && v@.len() == 0,
    {
        StringBuilder::Vec(Vec::new())
    }

    /// An empty list of pieces, with room for `capacity` of them.
    pub fn with_capacity(capacity: usize) -> (r: StringBuilder)
        ensures
            r matches StringBuilder::Vec(v) && v@.len() == 0,
    {
        StringBuilder::Vec(Vec::with_capacity(capacity))
    }

    /// A single piece copied from `s`.
    pub fn from_text(s: &str) -> (r: StringBuilder)
        ensures
            r matches StringBuilder::String(t) && t@ == s@,
    {
        StringBuilder::String(s.to_string())
    }

    /// A list of pieces, one per string.
    pub fn from_texts(v: Vec<&str>) -> (r: StringBuilder)
        ensures
            r matches StringBuilder::Vec(w) && w@.len() == v@.len() && forall|i: int|
                0 <= i < v@.len() ==> ((#[trigger] w@[i]) matches StringBuilder::String(t) && t@
                    == v@[i]@),
    {
        let mut w: Vec<StringBuilder> = Vec::with_capacity(v.len());
        let mut i: usize = 0;
        while i < v.len()
            invariant
                i <= v@.len(),
                w@.len() == i,
                forall|k: int|
                    0 <= k < i ==> ((#[trigger] w@[k]) matches StringBuilder::String(t) && t@
                        == v@[k]@),
            decreases v@.len() - i,
        {
            w.push(StringBuilder::from_text(v[i]));
            i = i + 1;
        }
        StringBuilder::Vec(w)
    }

    /// Append a piece. Only a list of pieces can take one.
    pub fn push(&mut self, value: StringBuilder)
        requires
            *old(self) is Vec,
        ensures
            *final(self) matches StringBuilder::Vec(v) && v@ == old(self)->Vec_0@.push(value),
    {
        match self {
            StringBuilder::Vec(v) => v.push(value),
            _ => {},
        }
    }

    fn append(&self, output: &mut String)
        ensures
            final(output)@ == old(output)@ + flat(*self),
        decreases self,
    {
        match self {
            StringBuilder::Empty => {
                assert(old(output)@ + Seq::<char>::empty() =~= old(output)@);
            },
            StringBuilder::String(s) => {
                output.append(s.as_str());
            },
            StringBuilder::Vec(v) => {
                let ghost start = output@;
                let mut i: usize = 0;
                while i < v.len()
                    invariant
                        *self == StringBuilder::Vec(*v),
                        i <= v@.len(),
                        output@ == start + flat_all(v@.subrange(0, i as int)),
                    decreases v@.len() - i,
                {
                    proof {
                        lemma_flat_all_push(v@.subrange(0, i as int), v@[i as int]);
                        assert(v@.subrange(0, i as int).push(v@[i as int]) =~= v@.subrange(
                            0,
                            i + 1,
                        ));
                    }
                    let ghost before = output@;
                    proof {
                        assert(decreases_to!(*self => self->Vec_0));
                        assert(decreases_to!(self->Vec_0 => self->Vec_0@));
                        assert(decreases_to!(self->Vec_0@ => self->Vec_0@[i as int]));
                    }
                    v[i].append(output);
                    assert(output@ =~= start + flat_all(v@.subrange(0, i + 1)));
                    i = i + 1;
                }
                assert(v@.subrange(0, v@.len() as int) =~= v@);
            },
        }
    }

    /// The text of all the pieces, in order.
    pub fn build(self) -> (r: String)
        ensures
            r@ == flat(self),
    {
        let mut output = String::new();
        self.append(&mut output);
        assert(Seq::<char>::empty() + flat(self) =~= flat(self));
        output
    }

    /// Whether the text is empty.
    pub fn is_empty(&self) -> (r: bool)
        ensures
            r == (flat(*self).len() == 0),
        decreases self,
    {
        match self {
            StringBuilder::Empty => true,
            StringBuilder::String(s) => s.as_str().is_empty(),
            StringBuilder::Vec(v) => {
                let mut i: usize = 0;
                while i < v.len()
                    invariant
                        *self == StringBuilder::Vec(*v),
                        i <= v@.len(),
                        flat_all(v@.subrange(0, i as int)).len() == 0,
                    decreases v@.len() - i,
                {
                    proof {
                        lemma_flat_all_push(v@.subrange(0, i as int), v@[i as int]);
                        assert(v@.subrange(0, i as int).push(v@[i as int]) =~= v@.subrange(
                            0,
                            i + 1,
                        ));
                    }
                    proof {
                        assert(decreases_to!(*self => self->Vec_0));
                        assert(decreases_to!(self->Vec_0 => self->Vec_0@));
                        assert(decreases_to!(self->Vec_0@ => self->Vec_0@[i as int]));
                    }
                    if !v[i].is_empty() {
                        proof {
                            lemma_flat_all_len(v@, i as int + 1);
                        }
                        return false;
                    }
                    i = i + 1;
                }
                assert(v@.subrange(0, v@.len() as int) =~= v@);
                true
            },
        }
    }

    /// Whether the text holds nothing but whitespace.
    pub fn is_blank(&self) -> (r: bool)
        ensures
            r == all_ws(flat(*self)),
        decreases self,
    {
        match self {
            StringBuilder::Empty => true,
            StringBuilder::String(s) => str_is_blank(s),
            StringBuilder::Vec(v) => {
                let mut i: usize = 0;
                while i < v.len()
                    invariant
                        *self == StringBuilder::Vec(*v),
                        i <= v@.len(),
                        all_ws(flat_all(v@.subrange(0, i as int))),
                    decreases v@.len() - i,
                {
                    proof {
                        lemma_flat_all_push(v@.subrange(0, i as int), v@[i as int]);
                        assert(v@.subrange(0, i as int).push(v@[i as int]) =~= v@.subrange(
                            0,
                            i + 1,
                        ));
                        lemma_all_ws_concat(
                            flat_all(v@.subrange(0, i as int)),
                            flat(v@[i as int]),
                        );
                    }
                    proof {
                        assert(decreases_to!(*self => self->Vec_0));
                        assert(decreases_to!(self->Vec_0 => self->Vec_0@));
                        assert(decreases_to!(self->Vec_0@ => self->Vec_0@[i as int]));
                    }
                    if !v[i].is_blank() {
                        proof {
                            lemma_flat_all_blank(v@, i as int + 1);
                        }
                        return false;
                    }
                    i = i + 1;
                }
                assert(v@.subrange(0, v@.len() as int) =~= v@);
                true
            },
        }
    }

    /// Whether the first piece starts with `prefix` (see `starts_with_spec`).
    pub fn starts_with(&self, prefix: &str) -> (r: bool)
        ensures
            r == starts_with_spec(*self, prefix@),
        decreases self,
    {
        match self {
            StringBuilder::Empty => false,
            StringBuilder::String(s) => str_starts_with(s, prefix),
            StringBuilder::Vec(v) => if v.len() == 0 {
                false
            } else {
                v[0].starts_with(prefix)
            },
        }
    }
}

/// A prefix of the pieces whose text is non-empty makes the whole text non-empty.
proof fn lemma_flat_all_len(v: Seq<StringBuilder>, k: int)
    requires
        0 <= k <= v.len(),
    ensures
        flat_all(v).len() >= flat_all(v.subrange(0, k)).len(),
    decreases v.len() - k,
{
    if k < v.len() {
        lemma_flat_all_len(v, k + 1);
        lemma_flat_all_push(v.subrange(0, k), v[k]);
        assert(v.subrange(0, k).push(v[k]) =~= v.subrange(0, k + 1));
    } else {
        assert(v.subrange(0, k) =~= v);
    }
}

/// A prefix of the pieces that is not all whitespace makes the whole text not all whitespace.
proof fn lemma_flat_all_blank(v: Seq<StringBuilder>, k: int)
    requires
        0 <= k <= v.len(),
    ensures
        all_ws(flat_all(v)) ==> all_ws(flat_all(v.subrange(0, k))),
    decreases v.len() - k,
{
    if k < v.len() {
        lemma_flat_all_blank(v, k + 1);
        lemma_flat_all_push(v.subrange(0, k), v[k]);
        assert(v.subrange(0, k).push(v[k]) =~= v.subrange(0, k + 1));
        lemma_all_ws_concat(flat_all(v.subrange(0, k)), flat(v[k]));
    } else {
        assert(v.subrange(0, k) =~= v);
    }
}

/// The text a builder stands for and the text of its first piece, which is what
/// `starts_with` looks at.
pub struct Rendered {
    pub text: Seq<char>,
    pub lead: Option<Seq<char>>,
}

/// The text of the first piece: of the first element, for a list of pieces.
pub open spec fn lead_of(sb: StringBuilder) -> Option<Seq<char>>
    decreases sb,
{
    match sb {
        StringBuilder::Empty => None,
        StringBuilder::String(s) => Some(s@),
        StringBuilder::Vec(v) => if v.len() == 0 {
            None
        } else {
            lead_of(v[0])
        },
    }
}

/// The text of a list of builders starts with the text of the first.
proof fn lemma_flat_all_starts_with_first(v: Seq<StringBuilder>)
    requires
        v.len() > 0,
    ensures
        has_prefix(flat_all(v), flat(v[0])),
    decreases v.len(),
{
    let init = v.subrange(0, v.len() - 1);
    if v.len() == 1 {
        assert(init =~= Seq::<StringBuilder>::empty());
        assert(flat_all(init) =~= Seq::<char>::empty());
        assert(flat_all(v) =~= flat(v[0]));
        assert(flat_all(v).subrange(0, flat(v[0]).len() as int) =~= flat(v[0]));
    } else {
        lemma_flat_all_starts_with_first(init);
        assert(init[0] == v[0]);
        assert(flat_all(v) == flat_all(init) + flat(v[v.len() - 1]));
        assert(flat_all(v).subrange(0, flat(v[0]).len() as int) =~= flat_all(init).subrange(
            0,
            flat(v[0]).len() as int,
        ));
        assert(flat_all(v).subrange(0, flat(v[0]).len() as int) =~= flat(v[0]));
    }
}

/// When `starts_with` answers yes, the built text starts with the prefix.
pub proof fn law_starts_with_is_prefix_of_text(sb: StringBuilder, p: Seq<char>)
    requires
        starts_with_spec(sb, p),
    ensures
        has_prefix(flat(sb), p),
    decreases sb,
{
    match sb {
        StringBuilder::Vec(v) => {
            law_starts_with_is_prefix_of_text(v@[0], p);
            lemma_flat_all_starts_with_first(v@);
            assert(flat(sb).subrange(0, p.len() as int) =~= flat(v@[0]).subrange(0, p.len() as int));
        },
        _ => {},
    }
}

pub open spec fn rendered(sb: StringBuilder) -> Rendered {
    Rendered { text: flat(sb), lead: lead_of(sb) }
}

pub open spec fn rendered_all(v: Seq<StringBuilder>) -> Seq<Rendered> {
    v.map_values(|x: StringBuilder| rendered(x))
}

/// A single piece of text.
pub open spec fn piece(t: Seq<char>) -> Rendered {
    Rendered { text: t, lead: Some(t) }
}

/// Nothing at all.
pub open spec fn nothing() -> Rendered {
    Rendered { text: Seq::empty(), lead: None }
}

/// The texts of the parts, concatenated.
pub open spec fn concat_texts(parts: Seq<Rendered>) -> Seq<char>
    decreases parts.len(),
{
    if parts.len() == 0 {
        Seq::empty()
    } else {
        concat_texts(parts.drop_last()) + parts.last().text
    }
}

/// Parts put together in order.
pub open spec fn group(parts: Seq<Rendered>) -> Rendered {
    Rendered {
        text: concat_texts(parts),
        lead: if parts.len() == 0 {
            None
        } else {
            parts[0].lead
        },
    }
}

pub proof fn lemma_flat_all_concat(v: Seq<StringBuilder>)
    ensures
        flat_all(v) == concat_texts(rendered_all(v)),
    decreases v.len(),
{
    if v.len() > 0 {
        lemma_flat_all_concat(v.subrange(0, v.len() - 1));
        assert(rendered_all(v).drop_last() =~= rendered_all(v.subrange(0, v.len() - 1)));
    }
}

/// A list of pieces stands for its parts put together.
pub proof fn lemma_rendered_vec(v: Vec<StringBuilder>)
    ensures
        rendered(StringBuilder::Vec(v)) == group(rendered_all(v@)),
{
    lemma_flat_all_concat(v@);
}

/// `starts_with` looks at the text of the first piece.
pub proof fn lemma_starts_with_lead(sb: StringBuilder, p: Seq<char>)
    ensures
        starts_with_spec(sb, p) == (lead_of(sb) matches Some(t) && has_prefix(t, p)),
    decreases sb,
{
    match sb {
        StringBuilder::Vec(v) => {
            if v.len() > 0 {
                assert(decreases_to!(sb => v));
                lemma_starts_with_lead(v[0], p);
            }
        },
        _ => {},
    }
}

/// Concatenation of texts distributes over concatenation of parts.
pub proof fn lemma_concat_texts_append(a: Seq<Rendered>, b: Seq<Rendered>)
    ensures
        concat_texts(a + b) == concat_texts(a) + concat_texts(b),
    decreases b.len(),
{
    if b.len() == 0 {
        assert(a + b =~= a);
        assert(concat_texts(a) + concat_texts(b) =~= concat_texts(a));
    } else {
        lemma_concat_texts_append(a, b.drop_last());
        assert((a + b).drop_last() =~= a + b.drop_last());
        assert(concat_texts(a) + concat_texts(b.drop_last()) + b.last().text =~= concat_texts(a)
            + (concat_texts(b.drop_last()) + b.last().text));
    }
}

impl StringBuilder {
    /// A single piece holding `s`.
    pub fn leaf(s: String) -> (r: StringBuilder)
        ensures
            rendered(r) == piece(s@),
    {
        StringBuilder::String(s)
    }

    /// The parts, in order, as one builder.
    pub fn group_of(v: Vec<StringBuilder>) -> (r: StringBuilder)
        ensures
            rendered(r) == group(rendered_all(v@)),
    {
        proof {
            lemma_rendered_vec(v);
        }
        StringBuilder::Vec(v)
    }

    /// A copy with the same pieces.
    pub fn copy(&self) -> (r: StringBuilder)
        ensures
            rendered(r) == rendered(*self),
        decreases self,
    {
        match self {
            StringBuilder::Empty => StringBuilder::Empty,
            StringBuilder::String(s) => StringBuilder::String(s.clone()),
            StringBuilder::Vec(v) => {
                let mut w: Vec<StringBuilder> = Vec::new();
                let mut i: usize = 0;
                while i < v.len()
                    invariant
                        *self == StringBuilder::Vec(*v),
                        i <= v@.len(),
                        rendered_all(w@) == rendered_all(v@.take(i as int)),
                    decreases v@.len() - i,
                {
                    proof {
                        assert(decreases_to!(*self => self->Vec_0));
                        assert(decreases_to!(self->Vec_0 => self->Vec_0@));
                        assert(decreases_to!(self->Vec_0@ => self->Vec_0@[i as int]));
                    }
                    let c = v[i].copy();
                    let ghost w0 = w@;
                    w.push(c);
                    assert(rendered_all(w@) =~= rendered_all(w0).push(rendered(c)));
                    assert(rendered_all(v@.take(i + 1)) =~= rendered_all(v@.take(i as int)).push(
                        rendered(v@[i as int]),
                    ));
                    i = i + 1;
                }
                assert(v@.take(v@.len() as int) =~= v@);
                proof {
                    lemma_rendered_vec(w);
                    lemma_rendered_vec(*v);
                }
                StringBuilder::Vec(w)
            },
        }
    }
}

} // verus!
