//! The block graph of a Roam EDN export: its blocks, by id, with the indexes by title and uid
//! and the list of the emails of the graph's users.
use vstd::prelude::*;

use crate::chars::{chars_equal, push_char, to_chars};
use crate::edn_scan::{collapse, collapse_separators, edn_readable, edn_text_readable};
use crate::roam_edn::{
    edn_read, map_value, read_edn, take_map_value, entity_attr_spec, uint_of, uint_value, lemma_models, models, view_type_from_key, view_type_key, AttrModel,
    AttrValue, EdnModel, EdnValue, EntityAttr, ErrModel, RoamError, ViewType,
};

verus! {

/// A block of the graph, or a page when it has a title.
#[derive(Debug)]
pub struct Block {
    pub id: u64,
    pub title: Option<String>,
    pub string: String,
    pub uid: String,
    pub heading: u64,
    pub view_type: ViewType,
    pub parents: Vec<u64>,
    pub children: Vec<u64>,
    pub open: bool,
    pub page: u64,
    pub order: u64,
    pub refs: Vec<u64>,
    /// The attributes referenced within a page, by the uid of each attribute's block, in the
    /// order in which each uid first appeared.
    pub referenced_attrs: Vec<(String, Vec<AttrValue>)>,
    /// Nonzero for a daily log page.
    pub log_id: u64,
    /// An index into the graph's `emails`.
    pub create_email: usize,
    pub create_time: u64,
    /// An index into the graph's `emails`.
    pub edit_email: usize,
    pub edit_time: u64,
}

/// Mathematical model of a `Block`.
pub struct BlockModel {
    pub id: u64,
    pub title: Option<Seq<char>>,
    pub string: Seq<char>,
    pub uid: Seq<char>,
    pub heading: u64,
    pub view_type: ViewType,
    pub parents: Seq<u64>,
    pub children: Seq<u64>,
    pub open: bool,
    pub page: u64,
    pub order: u64,
    pub refs: Seq<u64>,
    pub referenced_attrs: Seq<(Seq<char>, Seq<AttrModel>)>,
    pub log_id: u64,
    pub create_email: usize,
    pub create_time: u64,
    pub edit_email: usize,
    pub edit_time: u64,
}

pub open spec fn attr_models(s: Seq<AttrValue>) -> Seq<AttrModel> {
    s.map_values(|a: AttrValue| a.model())
}

pub open spec fn grouped_models(s: Seq<(String, Vec<AttrValue>)>) -> Seq<(Seq<char>, Seq<AttrModel>)> {
    s.map_values(|p: (String, Vec<AttrValue>)| (p.0@, attr_models(p.1@)))
}

pub open spec fn opt_text(t: Option<String>) -> Option<Seq<char>> {
    match t {
        Some(s) => Some(s@),
        None => None,
    }
}

impl Block {
    pub open spec fn model(self) -> BlockModel {
        BlockModel {
            id: self.id,
            title: opt_text(self.title),
            string: self.string@,
            uid: self.uid@,
            heading: self.heading,
            view_type: self.view_type,
            parents: self.parents@,
            children: self.children@,
            open: self.open,
            page: self.page,
            order: self.order,
            refs: self.refs@,
            referenced_attrs: grouped_models(self.referenced_attrs@),
            log_id: self.log_id,
            create_email: self.create_email,
            create_time: self.create_time,
            edit_email: self.edit_email,
            edit_time: self.edit_time,
        }
    }

    /// A block with nothing set: id 0, no title, empty texts and lists, bullets, closed.
    pub fn empty() -> (r: Block)
        ensures
            r.model() == empty_block(),
    {
        let r = Block {
            id: 0,
            title: None,
            string: String::new(),
            uid: String::new(),
            heading: 0,
            view_type: ViewType::Bullet,
            parents: Vec::new(),
            children: Vec::new(),
            open: false,
            page: 0,
            order: 0,
            refs: Vec::new(),
            referenced_attrs: Vec::new(),
            log_id: 0,
            create_email: 0,
            create_time: 0,
            edit_email: 0,
            edit_time: 0,
        };
        assert(r.model().referenced_attrs =~= Seq::<(Seq<char>, Seq<AttrModel>)>::empty());
        assert(r.model().string =~= Seq::<char>::empty());
        assert(r.model().uid =~= Seq::<char>::empty());
        assert(r.model().parents =~= Seq::<u64>::empty());
        assert(r.model().children =~= Seq::<u64>::empty());
        assert(r.model().refs =~= Seq::<u64>::empty());
        r
    }
}

/// The block that the reading of an export starts from.
pub open spec fn empty_block() -> BlockModel {
    BlockModel {
        id: 0,
        title: None,
        string: Seq::empty(),
        uid: Seq::empty(),
        heading: 0,
        view_type: ViewType::Bullet,
        parents: Seq::empty(),
        children: Seq::empty(),
        open: false,
        page: 0,
        order: 0,
        refs: Seq::empty(),
        referenced_attrs: Seq::empty(),
        log_id: 0,
        create_email: 0,
        create_time: 0,
        edit_email: 0,
        edit_time: 0,
    }
}

/// The blocks of an export, with indexes by title and uid.
#[derive(Debug)]
pub struct Graph {
    /// The blocks, by increasing id.
    pub blocks: Vec<Block>,
    /// Titles and the ids of their pages; a later entry for a title replaces an earlier one.
    pub titles: Vec<(String, u64)>,
    /// Uids and the ids of their blocks; a later entry for a uid replaces an earlier one.
    pub blocks_by_uid: Vec<(String, u64)>,
    /// The emails of the graph's users, each once.
    pub emails: Vec<String>,
}

/// Mathematical model of a `Graph`.
pub struct GraphModel {
    pub blocks: Seq<BlockModel>,
    pub titles: Seq<(Seq<char>, u64)>,
    pub uids: Seq<(Seq<char>, u64)>,
    pub emails: Seq<Seq<char>>,
}

pub open spec fn block_models(s: Seq<Block>) -> Seq<BlockModel> {
    s.map_values(|b: Block| b.model())
}

pub open spec fn index_models(s: Seq<(String, u64)>) -> Seq<(Seq<char>, u64)> {
    s.map_values(|p: (String, u64)| (p.0@, p.1))
}

pub open spec fn email_models(s: Seq<String>) -> Seq<Seq<char>> {
    s.map_values(|e: String| e@)
}

impl Graph {
    pub open spec fn model(self) -> GraphModel {
        GraphModel {
            blocks: block_models(self.blocks@),
            titles: index_models(self.titles@),
            uids: index_models(self.blocks_by_uid@),
            emails: email_models(self.emails@),
        }
    }
}

/// The graph with no blocks.
pub open spec fn empty_graph() -> GraphModel {
    GraphModel { blocks: Seq::empty(), titles: Seq::empty(), uids: Seq::empty(), emails: Seq::empty() }
}

/// Where a block with id `id` goes among `s`: before the first block whose id is not smaller.
pub open spec fn slot(s: Seq<BlockModel>, id: u64) -> nat
    decreases s.len(),
{
    if s.len() == 0 {
        0
    } else if s[0].id >= id {
        0
    } else {
        1 + slot(s.skip(1), id)
    }
}

/// `s` with `b` in its place by id: it replaces the block with the same id at its slot, or goes
/// in before the first block with a larger id.
pub open spec fn insert_block(s: Seq<BlockModel>, b: BlockModel) -> Seq<BlockModel> {
    let i = slot(s, b.id) as int;
    if i < s.len() && s[i].id == b.id {
        s.update(i, b)
    } else {
        s.insert(i, b)
    }
}

/// The graph with `b` added: in its place by id, and indexed by its title, if it has one, and by
/// its uid.
pub open spec fn add_block(g: GraphModel, b: BlockModel) -> GraphModel {
    GraphModel {
        blocks: insert_block(g.blocks, b),
        titles: match b.title {
            Some(t) => g.titles.push((t, b.id)),
            None => g.titles,
        },
        uids: g.uids.push((b.uid, b.id)),
        emails: g.emails,
    }
}

/// The emails after looking up `e`, and its index: where it first occurs, or at the end, where
/// it is added.
pub open spec fn email_index(emails: Seq<Seq<char>>, e: Seq<char>) -> (Seq<Seq<char>>, usize) {
    match emails.index_of_first(e) {
        Some(i) => (emails, i as usize),
        None => (emails.push(e), emails.len() as usize),
    }
}

impl Graph {
    /// A graph with no blocks.
    pub fn new() -> (r: Graph)
        ensures
            r.model() == empty_graph(),
    {
        let r = Graph { blocks: Vec::new(), titles: Vec::new(), blocks_by_uid: Vec::new(), emails: Vec::new() };
        assert(r.model().blocks =~= Seq::<BlockModel>::empty());
        assert(r.model().titles =~= Seq::<(Seq<char>, u64)>::empty());
        assert(r.model().uids =~= Seq::<(Seq<char>, u64)>::empty());
        assert(r.model().emails =~= Seq::<Seq<char>>::empty());
        r
    }

    /// The index of `email` in the graph's emails, which gets it added if it was not there.
    pub fn get_email_index(&mut self, email: String) -> (r: usize)
        ensures
            (final(self).model().emails, r) == email_index(old(self).model().emails, email@),
            final(self).model().blocks == old(self).model().blocks,
            final(self).model().titles == old(self).model().titles,
            final(self).model().uids == old(self).model().uids,
    {
        let ghost es = email_models(self.emails@);
        let mut i: usize = 0;
        while i < self.emails.len()
            invariant
                i <= self.emails@.len(),
                es == email_models(self.emails@),
                forall|j: int| 0 <= j < i ==> es[j] != email@,
            decreases self.emails@.len() - i,
        {
            if crate::chars::chars_equal(&crate::chars::to_chars(self.emails[i].as_str()), email.as_str()) {
                proof {
                    es.index_of_first_ensures(email@);
                    assert(es[i as int] == email@);
                    assert(es.contains(email@));
                }
                return i;
            }
            i = i + 1;
        }
        proof {
            es.index_of_first_ensures(email@);
            if es.contains(email@) {
                let k = choose|k: int| 0 <= k < es.len() && es[k] == email@;
                assert(es[k] != email@);
            }
        }
        let n = self.emails.len();
        self.emails.push(email);
        assert(email_models(self.emails@) =~= es.push(email@));
        n
    }

    /// Add `b` in its place by id, replacing a block with the same id, and index it by its
    /// title, if it has one, and by its uid.
    pub fn add_block(&mut self, b: Block)
        requires
            ids_increase(old(self).model().blocks),
        ensures
            final(self).model() == add_block(old(self).model(), b.model()),
            ids_increase(final(self).model().blocks),
    {
        let ghost s = block_models(self.blocks@);
        let ghost bm = b.model();
        proof {
            law_add_block_keeps_order(self.model(), bm);
            lemma_slot(s, b.id);
        }
        let mut lo: usize = 0;
        let mut hi: usize = self.blocks.len();
        while lo < hi
            invariant
                lo <= hi <= self.blocks@.len(),
                s == block_models(self.blocks@),
                ids_increase(s),
                forall|j: int| 0 <= j < lo ==> s[j].id < b.id,
                forall|j: int| hi <= j < s.len() ==> s[j].id >= b.id,
            decreases hi - lo,
        {
            let mid = lo + (hi - lo) / 2;
            if self.blocks[mid].id < b.id {
                assert forall|j: int| 0 <= j <= mid implies s[j].id < b.id by {
                    if j < mid {
                        assert(s[j].id < s[mid as int].id);
                    }
                }
                lo = mid + 1;
            } else {
                assert forall|j: int| mid <= j < s.len() implies s[j].id >= b.id by {
                    if j > mid {
                        assert(s[mid as int].id < s[j].id);
                    }
                }
                hi = mid;
            }
        }
        let i = lo;
        proof {
            let sl = slot(s, b.id) as int;
            if sl < i {
                assert(s[sl].id >= b.id);
            }
            if sl > i {
                assert(s[i as int].id < b.id);
            }
            assert(sl == i);
        }
        if let Some(t) = &b.title {
            self.titles.push((t.clone(), b.id));
        }
        self.blocks_by_uid.push((b.uid.clone(), b.id));
        let id = b.id;
        if i < self.blocks.len() && self.blocks[i].id == id {
            self.blocks.set(i, b);
            assert(block_models(self.blocks@) =~= s.update(i as int, bm));
        } else {
            self.blocks.insert(i, b);
            assert(block_models(self.blocks@) =~= s.insert(i as int, bm));
        }
        assert(index_models(self.blocks_by_uid@) =~= old(self).model().uids.push((bm.uid, bm.id)));
        assert(index_models(self.titles@) =~= add_block(old(self).model(), bm).titles);
        assert(email_models(self.emails@) =~= old(self).model().emails);
    }
}

/// A value read as a boolean: a boolean, or the text `true` or `false`.
pub open spec fn bool_of(e: EdnModel) -> Option<bool> {
    match e {
        EdnModel::Bool(b) => Some(b),
        EdnModel::Str(s) => if s == "true"@ {
            Some(true)
        } else if s == "false"@ {
            Some(false)
        } else {
            None
        },
        _ => None,
    }
}

fn bool_value(v: &EdnValue) -> (r: Option<bool>)
    ensures
        r == bool_of(v.model()),
{
    match v {
        EdnValue::Bool(b) => Some(*b),
        EdnValue::Str(s) => {
            let cs = to_chars(s.as_str());
            if chars_equal(&cs, "true") {
                Some(true)
            } else if chars_equal(&cs, "false") {
                Some(false)
            } else {
                None
            }
        },
        _ => None,
    }
}

pub open spec fn group_keys(gr: Seq<(Seq<char>, Seq<AttrModel>)>) -> Seq<Seq<char>> {
    gr.map_values(|p: (Seq<char>, Seq<AttrModel>)| p.0)
}

/// The groups with `v` added to the values of `u`: at the end of its group, or in a new group
/// at the end.
pub open spec fn group_add(gr: Seq<(Seq<char>, Seq<AttrModel>)>, u: Seq<char>, v: AttrModel) -> Seq<
    (Seq<char>, Seq<AttrModel>),
> {
    match group_keys(gr).index_of_first(u) {
        Some(i) => gr.update(i, (u, gr[i].1.push(v))),
        None => gr.push((u, seq![v])),
    }
}

/// The entries of an `:entity/attrs` set, read in order and grouped by uid, leaving out the
/// nil values; the first entry that cannot be read gives the error.
pub open spec fn group_attrs(s: Seq<EdnModel>) -> Result<Seq<(Seq<char>, Seq<AttrModel>)>, ErrModel>
    decreases s.len(),
{
    if s.len() == 0 {
        Ok(Seq::empty())
    } else {
        match group_attrs(s.drop_last()) {
            Err(e) => Err(e),
            Ok(gr) => match entity_attr_spec(s.last()) {
                Err(e) => Err(e),
                Ok((u, v)) => if v is Nil {
                    Ok(gr)
                } else {
                    Ok(group_add(gr, u, v))
                },
            },
        }
    }
}

/// The members of `v`, last first.
pub(crate) fn reversed<T>(v: Vec<T>) -> (r: Vec<T>)
    ensures
        r@.len() == v@.len(),
        forall|j: int| 0 <= j < v@.len() ==> r@[j] == v@[v@.len() - 1 - j],
{
    let ghost v0 = v@;
    let mut v = v;
    let mut r: Vec<T> = Vec::new();
    while v.len() > 0
        invariant
            v@.len() + r@.len() == v0.len(),
            v@ == v0.take(v@.len() as int),
            forall|j: int| 0 <= j < r@.len() ==> r@[j] == v0[v0.len() - 1 - j],
        decreases v@.len(),
    {
        let x = v.pop().unwrap();
        assert(v@ =~= v0.take(v@.len() as int));
        r.push(x);
    }
    r
}

/// Add `v` to the values of `u` (see `group_add`).
fn add_to_group(gr: &mut Vec<(String, Vec<AttrValue>)>, u: String, v: AttrValue)
    ensures
        grouped_models(final(gr)@) == group_add(grouped_models(old(gr)@), u@, v.model()),
{
    let ghost g0 = grouped_models(gr@);
    let ghost keys = group_keys(g0);
    let mut i: usize = 0;
    while i < gr.len()
        invariant
            i <= gr@.len(),
            gr@ == old(gr)@,
            g0 == grouped_models(gr@),
            keys == group_keys(g0),
            forall|j: int| 0 <= j < i ==> keys[j] != u@,
        decreases gr@.len() - i,
    {
        if chars_equal(&to_chars(gr[i].0.as_str()), u.as_str()) {
            proof {
                keys.index_of_first_ensures(u@);
                assert(keys[i as int] == u@);
                assert(keys.contains(u@));
                let idx = keys.index_of_first(u@).unwrap();
                if idx < i {
                    assert(keys[idx] != u@);
                } else if idx > i {
                    assert(keys[i as int] != u@);
                }
                assert(keys.index_of_first(u@) == Some(i as int));
            }
            let ghost old_gr = gr@;
            let mut entry = gr.remove(i);
            let ghost vals = entry.1@;
            assert(entry == old_gr[i as int]);
            entry.1.push(v);
            assert(attr_models(entry.1@) =~= attr_models(vals).push(v.model()));
            gr.insert(i, entry);
            assert(gr@ =~= old_gr.update(i as int, entry));
            assert(g0[i as int].1 == attr_models(vals));
            assert(grouped_models(gr@) =~= g0.update(i as int, (u@, g0[i as int].1.push(v.model()))));
            return;
        }
        i = i + 1;
    }
    proof {
        keys.index_of_first_ensures(u@);
        if keys.contains(u@) {
            let k = choose|k: int| 0 <= k < keys.len() && keys[k] == u@;
            assert(keys[k] != u@);
        }
    }
    let mut vals: Vec<AttrValue> = Vec::new();
    vals.push(v);
    assert(attr_models(vals@) =~= seq![v.model()]);
    gr.push((u, vals));
    assert(grouped_models(gr@) =~= g0.push((u@, seq![v.model()])));
}

/// Read the entries of an `:entity/attrs` set (see `group_attrs`).
pub fn read_entity_attrs(members: Vec<EdnValue>) -> (r: Result<Vec<(String, Vec<AttrValue>)>, RoamError>)
    ensures
        match r {
            Ok(gr) => group_attrs(models(members@)) == Ok::<_, ErrModel>(grouped_models(gr@)),
            Err(e) => group_attrs(models(members@)) == Err::<Seq<(Seq<char>, Seq<AttrModel>)>, _>(e.model()),
        },
{
    let ghost m0 = members@;
    let n = members.len();
    proof {
        lemma_models(m0);
    }
    let mut rest = reversed(members);
    let mut gr: Vec<(String, Vec<AttrValue>)> = Vec::new();
    let mut k: usize = 0;
    assert(models(m0).take(0) =~= Seq::<EdnModel>::empty());
    assert(grouped_models(gr@) =~= Seq::<(Seq<char>, Seq<AttrModel>)>::empty());
    while k < n
        invariant
            n == m0.len(),
            m0 == members@,
            k <= n,
            rest@.len() == n - k,
            forall|j: int| 0 <= j < rest@.len() ==> rest@[j] == m0[n - 1 - j],
            models(m0).len() == m0.len(),
            forall|i: int| 0 <= i < m0.len() ==> #[trigger] models(m0)[i] == m0[i].model(),
            group_attrs(models(m0).take(k as int)) == Ok::<_, ErrModel>(grouped_models(gr@)),
        decreases n - k,
    {
        let a = rest.pop().unwrap();
        assert(a == m0[k as int]);
        let ghost pre = models(m0).take(k as int);
        let ghost next = models(m0).take(k + 1);
        assert(next.drop_last() =~= pre);
        assert(next.last() == a.model());
        match EntityAttr::try_from_edn(a) {
            Err(e) => {
                assert(group_attrs(next) == Err::<Seq<(Seq<char>, Seq<AttrModel>)>, ErrModel>(e.model()));
                proof {
                    lemma_group_err_extends(models(m0), k as int + 1, e.model());
                }
                return Err(e);
            },
            Ok(ea) => {
                let EntityAttr { uid, value } = ea;
                if !matches!(value, AttrValue::Nil) {
                    add_to_group(&mut gr, uid, value);
                }
                assert(group_attrs(next) == Ok::<_, ErrModel>(grouped_models(gr@)));
            },
        }
        k = k + 1;
    }
    assert(models(m0).take(n as int) =~= models(m0));
    Ok(gr)
}

/// Once reading the entries fails, it fails the same way with more entries.
proof fn lemma_group_err_extends(s: Seq<EdnModel>, k: int, e: ErrModel)
    requires
        0 <= k <= s.len(),
        group_attrs(s.take(k)) == Err::<Seq<(Seq<char>, Seq<AttrModel>)>, ErrModel>(e),
    ensures
        group_attrs(s) == Err::<Seq<(Seq<char>, Seq<AttrModel>)>, ErrModel>(e),
    decreases s.len() - k,
{
    if k < s.len() {
        assert(s.take(k + 1).drop_last() =~= s.take(k));
        lemma_group_err_extends(s, k + 1, e);
    } else {
        assert(s.take(k) =~= s);
    }
}

/// The attributes of a block that take a text.
#[derive(Debug, Copy, Clone, PartialEq, Eq, Structural)]
pub enum TextAttr {
    Title,
    Text,
    Uid,
}

/// The attributes of a block that take a number.
#[derive(Debug, Copy, Clone, PartialEq, Eq, Structural)]
pub enum NumAttr {
    Heading,
    Child,
    Parent,
    Page,
    Order,
    Ref,
    LogId,
    CreateTime,
    EditTime,
}

pub open spec fn text_attr(attr: Seq<char>) -> Option<TextAttr> {
    if attr == ":node/title"@ {
        Some(TextAttr::Title)
    } else if attr == ":block/string"@ {
        Some(TextAttr::Text)
    } else if attr == ":block/uid"@ {
        Some(TextAttr::Uid)
    } else {
        None
    }
}

pub open spec fn num_attr(attr: Seq<char>) -> Option<NumAttr> {
    if attr == ":block/heading"@ {
        Some(NumAttr::Heading)
    } else if attr == ":block/children"@ {
        Some(NumAttr::Child)
    } else if attr == ":block/parents"@ {
        Some(NumAttr::Parent)
    } else if attr == ":block/page"@ {
        Some(NumAttr::Page)
    } else if attr == ":block/order"@ {
        Some(NumAttr::Order)
    } else if attr == ":block/refs"@ {
        Some(NumAttr::Ref)
    } else if attr == ":log/id"@ {
        Some(NumAttr::LogId)
    } else if attr == ":create/time"@ {
        Some(NumAttr::CreateTime)
    } else if attr == ":edit/time"@ {
        Some(NumAttr::EditTime)
    } else {
        None
    }
}

/// The block with a text attribute set.
pub open spec fn with_text(c: BlockModel, f: TextAttr, t: Seq<char>) -> BlockModel {
    match f {
        TextAttr::Title => BlockModel { title: Some(t), ..c },
        TextAttr::Text => BlockModel { string: t, ..c },
        TextAttr::Uid => BlockModel { uid: t, ..c },
    }
}

/// The block with a number attribute set; children, parents and references are added to.
pub open spec fn with_number(c: BlockModel, f: NumAttr, n: u64) -> BlockModel {
    match f {
        NumAttr::Heading => BlockModel { heading: n, ..c },
        NumAttr::Child => BlockModel { children: c.children.push(n), ..c },
        NumAttr::Parent => BlockModel { parents: c.parents.push(n), ..c },
        NumAttr::Page => BlockModel { page: n, ..c },
        NumAttr::Order => BlockModel { order: n, ..c },
        NumAttr::Ref => BlockModel { refs: c.refs.push(n), ..c },
        NumAttr::LogId => BlockModel { log_id: n, ..c },
        NumAttr::CreateTime => BlockModel { create_time: n, ..c },
        NumAttr::EditTime => BlockModel { edit_time: n, ..c },
    }
}

/// What an attribute with a value does to the graph and the block being read. Attributes that
/// are not read here, and values of a kind that an attribute does not take, leave both as they
/// were; a number attribute with another value, and an unknown view type, are errors.
pub open spec fn apply_attr(g: GraphModel, c: BlockModel, attr: Seq<char>, v: EdnModel) -> Result<
    (GraphModel, BlockModel),
    ErrModel,
> {
    match text_attr(attr) {
        Some(f) => match v {
            EdnModel::Str(t) => Ok((g, with_text(c, f, t))),
            _ => Ok((g, c)),
        },
        None => match num_attr(attr) {
            Some(f) => match uint_of(v) {
                Some(n) => Ok((g, with_number(c, f, n))),
                None => Err(ErrModel::BadNumber(attr)),
            },
            None => if attr == ":children/view-type"@ {
                match v {
                    EdnModel::Key(k) => match view_type_key(k) {
                        Some(t) => Ok((g, BlockModel { view_type: t, ..c })),
                        None => Err(ErrModel::UnknownViewType(k)),
                    },
                    _ => Ok((g, c)),
                }
            } else if attr == ":block/open"@ {
                Ok(
                    (
                        g,
                        BlockModel {
                            open: match bool_of(v) {
                                Some(b) => b,
                                None => true,
                            },
                            ..c
                        },
                    ),
                )
            } else if attr == ":create/email"@ {
                match v {
                    EdnModel::Str(e) => Ok(
                        (
                            GraphModel { emails: email_index(g.emails, e).0, ..g },
                            BlockModel { create_email: email_index(g.emails, e).1, ..c },
                        ),
                    ),
                    _ => Ok((g, c)),
                }
            } else if attr == ":edit/email"@ {
                match v {
                    EdnModel::Str(e) => Ok(
                        (
                            GraphModel { emails: email_index(g.emails, e).0, ..g },
                            BlockModel { edit_email: email_index(g.emails, e).1, ..c },
                        ),
                    ),
                    _ => Ok((g, c)),
                }
            } else if attr == ":entity/attrs"@ {
                match v {
                    EdnModel::Members(m) => match group_attrs(m) {
                        Ok(gr) => Ok((g, BlockModel { referenced_attrs: gr, ..c })),
                        Err(e) => Err(e),
                    },
                    _ => Ok((g, c)),
                }
            } else {
                Ok((g, c))
            }
        },
    }
}

fn text_attr_of(attr: &Vec<char>) -> (r: Option<TextAttr>)
    ensures
        r == text_attr(attr@),
{
    if chars_equal(attr, ":node/title") {
        Some(TextAttr::Title)
    } else if chars_equal(attr, ":block/string") {
        Some(TextAttr::Text)
    } else if chars_equal(attr, ":block/uid") {
        Some(TextAttr::Uid)
    } else {
        None
    }
}

fn num_attr_of(attr: &Vec<char>) -> (r: Option<NumAttr>)
    ensures
        r == num_attr(attr@),
{
    if chars_equal(attr, ":block/heading") {
        Some(NumAttr::Heading)
    } else if chars_equal(attr, ":block/children") {
        Some(NumAttr::Child)
    } else if chars_equal(attr, ":block/parents") {
        Some(NumAttr::Parent)
    } else if chars_equal(attr, ":block/page") {
        Some(NumAttr::Page)
    } else if chars_equal(attr, ":block/order") {
        Some(NumAttr::Order)
    } else if chars_equal(attr, ":block/refs") {
        Some(NumAttr::Ref)
    } else if chars_equal(attr, ":log/id") {
        Some(NumAttr::LogId)
    } else if chars_equal(attr, ":create/time") {
        Some(NumAttr::CreateTime)
    } else if chars_equal(attr, ":edit/time") {
        Some(NumAttr::EditTime)
    } else {
        None
    }
}

fn set_text(c: &mut Block, f: TextAttr, t: String)
    ensures
        final(c).model() == with_text(old(c).model(), f, t@),
{
    match f {
        TextAttr::Title => c.title = Some(t),
        TextAttr::Text => c.string = t,
        TextAttr::Uid => c.uid = t,
    }
}

fn set_number(c: &mut Block, f: NumAttr, n: u64)
    ensures
        final(c).model() == with_number(old(c).model(), f, n),
{
    match f {
        NumAttr::Heading => c.heading = n,
        NumAttr::Child => c.children.push(n),
        NumAttr::Parent => c.parents.push(n),
        NumAttr::Page => c.page = n,
        NumAttr::Order => c.order = n,
        NumAttr::Ref => c.refs.push(n),
        NumAttr::LogId => c.log_id = n,
        NumAttr::CreateTime => c.create_time = n,
        NumAttr::EditTime => c.edit_time = n,
    }
}

pub open spec fn step_result(
    r: Result<(), RoamError>,
    expected: Result<(GraphModel, BlockModel), ErrModel>,
    g: GraphModel,
    c: BlockModel,
) -> bool {
    match r {
        Ok(_) => expected == Ok::<(GraphModel, BlockModel), ErrModel>((g, c)),
        Err(e) => expected == Err::<(GraphModel, BlockModel), ErrModel>(e.model()),
    }
}

/// Apply an attribute with its value to the graph and the block being read (see `apply_attr`).
fn read_attr(g: &mut Graph, c: &mut Block, attr: String, v: EdnValue) -> (r: Result<(), RoamError>)
    ensures
        final(g).model().blocks == old(g).model().blocks,
        step_result(
            r,
            apply_attr(old(g).model(), old(c).model(), attr@, v.model()),
            final(g).model(),
            final(c).model(),
        ),
{
    let a = to_chars(attr.as_str());
    match text_attr_of(&a) {
        Some(f) => {
            if let EdnValue::Str(t) = v {
                set_text(c, f, t);
            }
            return Ok(());
        },
        None => {},
    }
    match num_attr_of(&a) {
        Some(f) => {
            return match uint_value(&v) {
                Some(n) => {
                    set_number(c, f, n);
                    Ok(())
                },
                None => Err(RoamError::BadNumber(attr)),
            };
        },
        None => {},
    }
    if chars_equal(&a, ":children/view-type") {
        if let EdnValue::Key(k) = v {
            match view_type_from_key(k.as_str()) {
                Ok(t) => c.view_type = t,
                Err(e) => {
                    return Err(e);
                },
            }
        }
        Ok(())
    } else if chars_equal(&a, ":block/open") {
        c.open = match bool_value(&v) {
            Some(b) => b,
            None => true,
        };
        Ok(())
    } else if chars_equal(&a, ":create/email") {
        if let EdnValue::Str(e) = v {
            c.create_email = g.get_email_index(e);
        }
        Ok(())
    } else if chars_equal(&a, ":edit/email") {
        if let EdnValue::Str(e) = v {
            c.edit_email = g.get_email_index(e);
        }
        Ok(())
    } else if chars_equal(&a, ":entity/attrs") {
        if let EdnValue::Members(m) = v {
            match read_entity_attrs(m) {
                Ok(gr) => c.referenced_attrs = gr,
                Err(e) => {
                    return Err(e);
                },
            }
        }
        Ok(())
    } else {
        Ok(())
    }
}

/// A block with its page set to itself when it has none.
pub open spec fn with_page(b: BlockModel) -> BlockModel {
    if b.page == 0 {
        BlockModel { page: b.id, ..b }
    } else {
        b
    }
}

/// What a datom `[entity attribute value]` does: a new entity adds the block read so far to
/// the graph and starts an empty one; then the attribute is applied to the entity's block.
pub open spec fn datom_step(g: GraphModel, cur: BlockModel, d: EdnModel) -> Result<
    (GraphModel, BlockModel),
    ErrModel,
> {
    match d {
        EdnModel::Vector(items) => if items.len() < 3 {
            Err(ErrModel::ShortDatom)
        } else {
            match uint_of(items[0]) {
                None => Err(ErrModel::BadEntity),
                Some(entity) => {
                    let g1 = if entity != cur.id {
                        add_block(g, with_page(cur))
                    } else {
                        g
                    };
                    let c1 = if entity != cur.id {
                        empty_block()
                    } else {
                        cur
                    };
                    match items[1] {
                        EdnModel::Key(attr) => apply_attr(
                            g1,
                            BlockModel { id: entity, ..c1 },
                            attr,
                            items[2],
                        ),
                        _ => Err(ErrModel::AttrNotKey),
                    }
                },
            }
        },
        _ => Err(ErrModel::DatomNotVector),
    }
}

/// The graph and the block being read after the datoms `ds`, in order.
pub open spec fn read_datoms(g: GraphModel, cur: BlockModel, ds: Seq<EdnModel>) -> Result<
    (GraphModel, BlockModel),
    ErrModel,
>
    decreases ds.len(),
{
    if ds.len() == 0 {
        Ok((g, cur))
    } else {
        match read_datoms(g, cur, ds.drop_last()) {
            Err(e) => Err(e),
            Ok((g1, c1)) => datom_step(g1, c1, ds.last()),
        }
    }
}

/// Read one datom (see `datom_step`).
fn read_datom(g: &mut Graph, cur: &mut Block, d: EdnValue) -> (r: Result<(), RoamError>)
    requires
        ids_increase(old(g).model().blocks),
    ensures
        ids_increase(final(g).model().blocks),
        step_result(
            r,
            datom_step(old(g).model(), old(cur).model(), d.model()),
            final(g).model(),
            final(cur).model(),
        ),
{
    match d {
        EdnValue::Vector(items) => {
            let ghost i0 = items@;
            proof {
                lemma_models(i0);
            }
            if items.len() < 3 {
                return Err(RoamError::ShortDatom);
            }
            let mut items = items;
            let value = items.remove(2);
            let attr_item = items.remove(1);
            assert(items@[0] == i0[0]);
            let entity = match uint_value(&items[0]) {
                Some(e) => e,
                None => {
                    return Err(RoamError::BadEntity);
                },
            };
            if entity != cur.id {
                let mut adding = Block::empty();
                std::mem::swap(&mut adding, cur);
                if adding.page == 0 {
                    adding.page = adding.id;
                }
                g.add_block(adding);
            }
            cur.id = entity;
            match attr_item {
                EdnValue::Key(attr) => read_attr(g, cur, attr, value),
                _ => Err(RoamError::AttrNotKey),
            }
        },
        _ => Err(RoamError::DatomNotVector),
    }
}

/// Once reading the datoms fails, it fails the same way with more datoms.
proof fn lemma_datoms_err_extends(g: GraphModel, c: BlockModel, s: Seq<EdnModel>, k: int, e: ErrModel)
    requires
        0 <= k <= s.len(),
        read_datoms(g, c, s.take(k)) == Err::<(GraphModel, BlockModel), ErrModel>(e),
    ensures
        read_datoms(g, c, s) == Err::<(GraphModel, BlockModel), ErrModel>(e),
    decreases s.len() - k,
{
    if k < s.len() {
        assert(s.take(k + 1).drop_last() =~= s.take(k));
        lemma_datoms_err_extends(g, c, s, k + 1, e);
    } else {
        assert(s.take(k) =~= s);
    }
}

/// Read the datoms in order, from an empty graph and an empty block (see `read_datoms`).
fn read_all_datoms(ds: Vec<EdnValue>) -> (r: Result<(Graph, Block), RoamError>)
    ensures
        match r {
            Ok((g, c)) => ids_increase(g.model().blocks) && read_datoms(
                empty_graph(),
                empty_block(),
                models(ds@),
            ) == Ok::<(GraphModel, BlockModel), ErrModel>((g.model(), c.model())),
            Err(e) => read_datoms(empty_graph(), empty_block(), models(ds@)) == Err::<
                (GraphModel, BlockModel),
                ErrModel,
            >(e.model()),
        },
{
    let ghost d0 = ds@;
    let n = ds.len();
    proof {
        lemma_models(d0);
    }
    let mut rest = reversed(ds);
    let mut g = Graph::new();
    let mut cur = Block::empty();
    let mut k: usize = 0;
    assert(models(d0).take(0) =~= Seq::<EdnModel>::empty());
    while k < n
        invariant
            n == d0.len(),
            d0 == ds@,
            k <= n,
            rest@.len() == n - k,
            forall|j: int| 0 <= j < rest@.len() ==> rest@[j] == d0[n - 1 - j],
            models(d0).len() == d0.len(),
            forall|i: int| 0 <= i < d0.len() ==> #[trigger] models(d0)[i] == d0[i].model(),
            ids_increase(g.model().blocks),
            read_datoms(empty_graph(), empty_block(), models(d0).take(k as int)) == Ok::<
                (GraphModel, BlockModel),
                ErrModel,
            >((g.model(), cur.model())),
        decreases n - k,
    {
        let d = rest.pop().unwrap();
        assert(d == d0[k as int]);
        let ghost next = models(d0).take(k + 1);
        assert(next.drop_last() =~= models(d0).take(k as int));
        assert(next.last() == d.model());
        match read_datom(&mut g, &mut cur, d) {
            Err(e) => {
                proof {
                    lemma_datoms_err_extends(empty_graph(), empty_block(), models(d0), k + 1, e.model());
                }
                return Err(e);
            },
            Ok(_) => {},
        }
        k = k + 1;
    }
    assert(models(d0).take(n as int) =~= models(d0));
    Ok((g, cur))
}

pub open spec fn block_ids(s: Seq<BlockModel>) -> Seq<u64> {
    s.map_values(|b: BlockModel| b.id)
}

/// The first block with id `id`.
pub open spec fn block_by_id(s: Seq<BlockModel>, id: u64) -> Option<BlockModel> {
    match block_ids(s).index_of_first(id) {
        Some(i) => Some(s[i]),
        None => None,
    }
}

/// The creation time of block `id`: its own, or else the earliest of its children's
/// (`u64::MAX` for a block without children), looking at most `fuel` levels down. Nothing
/// when the block is not in `s` or the levels run out.
pub open spec fn time_of(s: Seq<BlockModel>, id: u64, fuel: nat) -> Option<u64>
    decreases fuel, 0nat,
{
    match block_by_id(s, id) {
        None => None,
        Some(b) => if b.create_time > 0 {
            Some(b.create_time)
        } else if fuel == 0 {
            None
        } else {
            children_min(s, b.children, (fuel - 1) as nat)
        },
    }
}

/// The earliest creation time among the blocks `ch` (see `time_of`).
pub open spec fn children_min(s: Seq<BlockModel>, ch: Seq<u64>, fuel: nat) -> Option<u64>
    decreases fuel, ch.len() + 1,
{
    if ch.len() == 0 {
        Some(u64::MAX)
    } else {
        match (children_min(s, ch.drop_last(), fuel), time_of(s, ch.last(), fuel)) {
            (Some(a), Some(t)) => Some(
                if t < a {
                    t
                } else {
                    a
                },
            ),
            _ => None,
        }
    }
}

proof fn lemma_children_min_is_least(s: Seq<BlockModel>, ch: Seq<u64>, fuel: nat)
    ensures
        children_min(s, ch, fuel) matches Some(m) ==> {
            &&& forall|j: int| 0 <= j < ch.len() ==> ((#[trigger] time_of(s, ch[j], fuel)) is Some && m <= time_of(s, ch[j], fuel)->Some_0)
            &&& ch.len() > 0 ==> exists|j: int| 0 <= j < ch.len() && #[trigger] time_of(s, ch[j], fuel) == Some(m)
        },
    decreases ch.len(),
{
    if ch.len() > 0 {
        let init = ch.drop_last();
        lemma_children_min_is_least(s, init, fuel);
        match (children_min(s, init, fuel), time_of(s, ch.last(), fuel)) {
            (Some(a), Some(t)) => {
                let m = if t < a { t } else { a };
                assert forall|j: int| 0 <= j < ch.len() implies ((#[trigger] time_of(s, ch[j], fuel)) is Some && m <= time_of(s, ch[j], fuel)->Some_0) by {
                    if j < init.len() {
                        assert(init[j] == ch[j]);
                    }
                }
                if t < a || init.len() == 0 {
                    assert(time_of(s, ch[ch.len() - 1], fuel) == Some(m));
                } else {
                    let j = choose|j: int| 0 <= j < init.len() && #[trigger] time_of(s, init[j], fuel) == Some(a);
                    assert(init[j] == ch[j]);
                    assert(time_of(s, ch[j], fuel) == Some(m));
                }
            },
            _ => {},
        }
    }
}

/// A block without a creation time of its own takes the earliest of its children's: no child's
/// time is earlier, and some child has exactly that time.
pub proof fn law_untimed_block_takes_earliest_child(s: Seq<BlockModel>, id: u64, fuel: nat)
    requires
        block_by_id(s, id) matches Some(b) && b.create_time == 0 && b.children.len() > 0,
        fuel > 0,
    ensures
        time_of(s, id, fuel) matches Some(t) ==> {
            let ch = block_by_id(s, id)->Some_0.children;
            &&& forall|j: int| 0 <= j < ch.len() ==> ((#[trigger] time_of(s, ch[j], (fuel - 1) as nat)) is Some && t <= time_of(s, ch[j], (fuel - 1) as nat)->Some_0)
            &&& exists|j: int| 0 <= j < ch.len() && #[trigger] time_of(s, ch[j], (fuel - 1) as nat) == Some(t)
        },
{
    let b = block_by_id(s, id)->Some_0;
    lemma_children_min_is_least(s, b.children, (fuel - 1) as nat);
}

/// When the creation times are fixed, a block that had none gets the earliest of its
/// children's times.
pub proof fn law_fixed_time_is_earliest_child(g: GraphModel, i: int)
    requires
        0 <= i < g.blocks.len(),
        g.blocks[i].create_time == 0,
        g.blocks[i].children.len() > 0,
        block_by_id(g.blocks, g.blocks[i].id) == Some(g.blocks[i]),
        fix_create_times(g) is Ok,
    ensures
        ({
            let t = fix_create_times(g)->Ok_0.blocks[i].create_time;
            let s = g.blocks;
            let ch = s[i].children;
            &&& forall|j: int| 0 <= j < ch.len() ==> ((#[trigger] time_of(s, ch[j], (s.len() - 1) as nat)) is Some && t <= time_of(s, ch[j], (s.len() - 1) as nat)->Some_0)
            &&& exists|j: int| 0 <= j < ch.len() && #[trigger] time_of(s, ch[j], (s.len() - 1) as nat) == Some(t)
        }),
{
    let s = g.blocks;
    assert(time_of(s, s[i].id, s.len()) is Some);
    law_untimed_block_takes_earliest_child(s, s[i].id, s.len());
}

/// A block with its creation time found, when it has none.
pub open spec fn fix_time(s: Seq<BlockModel>, b: BlockModel) -> BlockModel {
    if b.create_time == 0 {
        BlockModel {
            create_time: match time_of(s, b.id, s.len()) {
                Some(t) => t,
                None => 0,
            },
            ..b
        }
    } else {
        b
    }
}

/// The graph with the creation time of each block that has none found from its children (see
/// `time_of`, which looks as many levels down as there are blocks); an error when that cannot be
/// done for some block.
pub open spec fn fix_create_times(g: GraphModel) -> Result<GraphModel, ErrModel> {
    let s = g.blocks;
    if exists|i: int|
        0 <= i < s.len() && s[i].create_time == 0 && (#[trigger] time_of(s, s[i].id, s.len())) is None {
        Err(ErrModel::CreateTimeUnresolved)
    } else {
        Ok(GraphModel { blocks: Seq::new(s.len(), |i: int| fix_time(s, s[i])), ..g })
    }
}

/// The position of the first block with id `id`.
fn find_block(blocks: &Vec<Block>, id: u64) -> (r: Option<usize>)
    ensures
        match r {
            Some(i) => i < blocks@.len() && block_ids(block_models(blocks@)).index_of_first(id) == Some(
                i as int,
            ),
            None => block_ids(block_models(blocks@)).index_of_first(id) is None,
        },
{
    let ghost ids = block_ids(block_models(blocks@));
    let mut i: usize = 0;
    while i < blocks.len()
        invariant
            i <= blocks@.len(),
            ids == block_ids(block_models(blocks@)),
            forall|j: int| 0 <= j < i ==> ids[j] != id,
        decreases blocks@.len() - i,
    {
        if blocks[i].id == id {
            proof {
                ids.index_of_first_ensures(id);
                assert(ids[i as int] == id);
                assert(ids.contains(id));
                let idx = ids.index_of_first(id).unwrap();
                if idx < i {
                    assert(ids[idx] != id);
                } else if idx > i {
                    assert(ids[i as int] != id);
                }
            }
            return Some(i);
        }
        i = i + 1;
    }
    proof {
        ids.index_of_first_ensures(id);
        if ids.contains(id) {
            let k = choose|k: int| 0 <= k < ids.len() && ids[k] == id;
            assert(ids[k] != id);
        }
    }
    None
}

/// The position of the block with id `id` among blocks by increasing id.
fn find_block_sorted(blocks: &Vec<Block>, id: u64) -> (r: Option<usize>)
    requires
        ids_increase(block_models(blocks@)),
    ensures
        match r {
            Some(i) => i < blocks@.len() && block_ids(block_models(blocks@)).index_of_first(id) == Some(
                i as int,
            ),
            None => block_ids(block_models(blocks@)).index_of_first(id) is None,
        },
{
    let ghost s = block_models(blocks@);
    let ghost ids = block_ids(s);
    let mut lo: usize = 0;
    let mut hi: usize = blocks.len();
    while lo < hi
        invariant
            lo <= hi <= blocks@.len(),
            s == block_models(blocks@),
            ids == block_ids(s),
            ids_increase(s),
            forall|j: int| 0 <= j < lo ==> s[j].id < id,
            forall|j: int| hi <= j < s.len() ==> s[j].id >= id,
        decreases hi - lo,
    {
        let mid = lo + (hi - lo) / 2;
        if blocks[mid].id < id {
            assert forall|j: int| 0 <= j <= mid implies s[j].id < id by {
                if j < mid {
                    assert(s[j].id < s[mid as int].id);
                }
            }
            lo = mid + 1;
        } else {
            assert forall|j: int| mid <= j < s.len() implies s[j].id >= id by {
                if j > mid {
                    assert(s[mid as int].id < s[j].id);
                }
            }
            hi = mid;
        }
    }
    proof {
        ids.index_of_first_ensures(id);
    }
    if lo < blocks.len() && blocks[lo].id == id {
        proof {
            assert(ids[lo as int] == id);
            assert(ids.contains(id));
            let k = ids.index_of_first(id).unwrap();
            if k < lo {
                assert(ids[k] != id);
            } else if k > lo {
                assert(ids[lo as int] != id);
            }
        }
        Some(lo)
    } else {
        proof {
            if ids.contains(id) {
                let k = choose|k: int| 0 <= k < ids.len() && ids[k] == id;
                if k > lo {
                    assert(s[lo as int].id < s[k].id);
                }
                assert(ids[k] != id);
            }
        }
        None
    }
}

/// Once the earliest time among some children is not found, it is not found among more.
proof fn lemma_children_none_extends(s: Seq<BlockModel>, ch: Seq<u64>, k: int, fuel: nat)
    requires
        0 <= k <= ch.len(),
        children_min(s, ch.take(k), fuel) is None,
    ensures
        children_min(s, ch, fuel) is None,
    decreases ch.len() - k,
{
    if k < ch.len() {
        assert(ch.take(k + 1).drop_last() =~= ch.take(k));
        lemma_children_none_extends(s, ch, k + 1, fuel);
    } else {
        assert(ch.take(k) =~= ch);
    }
}

/// The creation time of block `id` (see `time_of`).
fn block_time(blocks: &Vec<Block>, id: u64, fuel: usize) -> (r: Option<u64>)
    requires
        ids_increase(block_models(blocks@)),
    ensures
        r == time_of(block_models(blocks@), id, fuel as nat),
    decreases fuel,
{
    let ghost s = block_models(blocks@);
    let i = match find_block_sorted(blocks, id) {
        Some(i) => i,
        None => {
            return None;
        },
    };
    assert(block_by_id(s, id) == Some(s[i as int]));
    if blocks[i].create_time > 0 {
        return Some(blocks[i].create_time);
    }
    if fuel == 0 {
        return None;
    }
    let ch = &blocks[i].children;
    let ghost chs = ch@;
    let mut acc: u64 = u64::MAX;
    let mut k: usize = 0;
    assert(chs.take(0) =~= Seq::<u64>::empty());
    assert(time_of(s, id, fuel as nat) == children_min(s, chs, (fuel - 1) as nat));
    while k < ch.len()
        invariant
            s == block_models(blocks@),
            ids_increase(s),
            time_of(s, id, fuel as nat) == children_min(s, chs, (fuel - 1) as nat),
            chs == ch@,
            k <= chs.len(),
            fuel > 0,
            children_min(s, chs.take(k as int), (fuel - 1) as nat) == Some(acc),
        decreases chs.len() - k,
    {
        let t = block_time(blocks, ch[k], fuel - 1);
        let ghost next = chs.take(k + 1);
        assert(next.drop_last() =~= chs.take(k as int));
        assert(next.last() == chs[k as int]);
        match t {
            None => {
                proof {
                    lemma_children_none_extends(s, chs, k + 1, (fuel - 1) as nat);
                }
                return None;
            },
            Some(t) => {
                if t < acc {
                    acc = t;
                }
            },
        }
        k = k + 1;
    }
    assert(chs.take(chs.len() as int) =~= chs);
    Some(acc)
}

impl Graph {
    /// Give each block that has no creation time the earliest of its children's (see
    /// `fix_create_times`).
    pub fn fix_create_times(&mut self) -> (r: Result<(), RoamError>)
        requires
            ids_increase(old(self).model().blocks),
        ensures
            match r {
                Ok(_) => fix_create_times(old(self).model()) == Ok::<GraphModel, ErrModel>(final(self).model()),
                Err(e) => fix_create_times(old(self).model()) == Err::<GraphModel, ErrModel>(e.model()),
            },
    {
        let ghost s = block_models(self.blocks@);
        let n = self.blocks.len();
        let mut times: Vec<u64> = Vec::new();
        let mut i: usize = 0;
        while i < n
            invariant
                n == self.blocks@.len(),
                s == block_models(self.blocks@),
                ids_increase(s),
                i <= n,
                times@.len() == i,
                forall|j: int| 0 <= j < i ==> #[trigger] times@[j] == fix_time(s, s[j]).create_time,
                forall|j: int|
                    0 <= j < i ==> !(s[j].create_time == 0 && (#[trigger] time_of(s, s[j].id, s.len())) is None),
            decreases n - i,
        {
            if self.blocks[i].create_time == 0 {
                match block_time(&self.blocks, self.blocks[i].id, n) {
                    Some(t) => times.push(t),
                    None => {
                        assert(s[i as int].create_time == 0 && time_of(s, s[i as int].id, s.len()) is None);
                        return Err(RoamError::CreateTimeUnresolved);
                    },
                }
            } else {
                times.push(self.blocks[i].create_time);
            }
            i = i + 1;
        }
        let mut taken: Vec<Block> = Vec::new();
        std::mem::swap(&mut taken, &mut self.blocks);
        let mut rest = reversed(taken);
        let mut fixed: Vec<Block> = Vec::new();
        let mut k: usize = 0;
        while k < n
            invariant
                n == s.len(),
                times@.len() == n,
                forall|j: int| 0 <= j < n ==> #[trigger] times@[j] == fix_time(s, s[j]).create_time,
                k <= n,
                rest@.len() == n - k,
                forall|j: int| 0 <= j < rest@.len() ==> (#[trigger] rest@[j]).model() == s[n - 1 - j],
                fixed@.len() == k,
                forall|j: int| 0 <= j < k ==> (#[trigger] fixed@[j]).model() == fix_time(s, s[j]),
            decreases n - k,
        {
            let mut b = rest.pop().unwrap();
            assert(b.model() == s[k as int]);
            b.create_time = times[k];
            fixed.push(b);
            k = k + 1;
        }
        self.blocks = fixed;
        assert(block_models(self.blocks@) =~= Seq::new(s.len(), |j: int| fix_time(s, s[j])));
        Ok(())
    }
}

/// Whether `s` starts with `##NaN`.
pub open spec fn starts_with_nan(s: Seq<char>) -> bool {
    s.len() >= 5 && s[0] == '#' && s[1] == '#' && s[2] == 'N' && s[3] == 'a' && s[4] == 'N'
}

/// `s` with each `##NaN`, from left to right, replaced by `0`.
pub open spec fn without_nan(s: Seq<char>) -> Seq<char>
    decreases s.len(),
{
    if s.len() == 0 {
        s
    } else if starts_with_nan(s) {
        seq!['0'] + without_nan(s.skip(5))
    } else {
        seq![s[0]] + without_nan(s.skip(1))
    }
}

/// The characters `v[from..]` with each `##NaN` replaced by `0` (see `without_nan`).
fn replace_nan(v: &Vec<char>, from: usize) -> (r: String)
    requires
        from <= v@.len(),
    ensures
        r@ == without_nan(v@.skip(from as int)),
{
    let mut r = String::new();
    let mut i = from;
    assert(r@ + without_nan(v@.skip(i as int)) =~= without_nan(v@.skip(from as int)));
    while i < v.len()
        invariant
            from <= i <= v@.len(),
            r@ + without_nan(v@.skip(i as int)) == without_nan(v@.skip(from as int)),
        decreases v@.len() - i,
    {
        let ghost t = v@.skip(i as int);
        if v.len() - i >= 5 && v[i] == '#' && v[i + 1] == '#' && v[i + 2] == 'N' && v[i + 3] == 'a'
            && v[i + 4] == 'N' {
            assert(starts_with_nan(t));
            assert(t.skip(5) =~= v@.skip(i + 5));
            push_char(&mut r, '0');
            assert(r@ + without_nan(v@.skip(i + 5)) =~= without_nan(v@.skip(from as int)));
            i = i + 5;
        } else {
            assert(!starts_with_nan(t));
            assert(t.skip(1) =~= v@.skip(i + 1));
            push_char(&mut r, v[i]);
            assert(r@ + without_nan(v@.skip(i + 1)) =~= without_nan(v@.skip(from as int)));
            i = i + 1;
        }
    }
    assert(v@.skip(i as int) =~= Seq::<char>::empty());
    assert(r@ =~= without_nan(v@.skip(from as int)));
    r
}

/// The graph that the datoms `ds` describe: read in order, the last block added, and the
/// creation times found.
pub open spec fn graph_of_datoms(ds: Seq<EdnModel>) -> Result<GraphModel, ErrModel> {
    match read_datoms(empty_graph(), empty_block(), ds) {
        Err(e) => Err(e),
        Ok((g, c)) => fix_create_times(add_block(g, with_page(c))),
    }
}

/// The graph that an export's EDN value describes: the vector of datoms under `:datoms` in its
/// map.
pub open spec fn graph_of_edn(e: EdnModel) -> Result<GraphModel, ErrModel> {
    match e {
        EdnModel::Entries(es) => match map_value(es, ":datoms"@) {
            None => Err(ErrModel::NoDatoms),
            Some(EdnModel::Vector(ds)) => graph_of_datoms(ds),
            Some(_) => Err(ErrModel::DatomsNotVector),
        },
        _ => Err(ErrModel::NoDatoms),
    }
}

/// The graph of an export: the EDN from its first `{` on, each `##NaN` read as `0` and each run
/// of separators between values as one space.
pub open spec fn graph_of_export(text: Seq<char>) -> Result<GraphModel, ErrModel> {
    match text.index_of_first('{') {
        None => Err(ErrModel::NoMap),
        Some(i) => {
            let t = collapse(without_nan(text.skip(i)));
            if !edn_readable(t) {
                Err(ErrModel::Unreadable)
            } else {
                match edn_read(t) {
                    Err(m) => Err(ErrModel::Parse(m)),
                    Ok(e) => graph_of_edn(e),
                }
            }
        },
    }
}

pub open spec fn graph_outcome(r: Result<Graph, RoamError>) -> Result<GraphModel, ErrModel> {
    match r {
        Ok(g) => Ok(g.model()),
        Err(e) => Err(e.model()),
    }
}

impl Graph {
    /// The graph that an export's EDN value describes (see `graph_of_edn`).
    pub fn from_edn_value(e: EdnValue) -> (r: Result<Graph, RoamError>)
        ensures
            graph_outcome(r) == graph_of_edn(e.model()),
    {
        match e {
            EdnValue::Entries(es) => match take_map_value(es, ":datoms") {
                None => Err(RoamError::NoDatoms),
                Some(EdnValue::Vector(ds)) => {
                    let (mut g, mut cur) = match read_all_datoms(ds) {
                        Ok(p) => p,
                        Err(e) => {
                            return Err(e);
                        },
                    };
                    if cur.page == 0 {
                        cur.page = cur.id;
                    }
                    g.add_block(cur);
                    match g.fix_create_times() {
                        Ok(_) => Ok(g),
                        Err(e) => Err(e),
                    }
                },
                Some(_) => Err(RoamError::DatomsNotVector),
            },
            _ => Err(RoamError::NoDatoms),
        }
    }

    /// Read the graph of a Roam EDN export (see `graph_of_export`).
    pub fn from_edn(s: &str) -> (r: Result<Graph, RoamError>)
        ensures
            graph_outcome(r) == graph_of_export(s@),
    {
        let v = to_chars(s);
        let mut i: usize = 0;
        while i < v.len() && v[i] != '{'
            invariant
                i <= v@.len(),
                v@ == s@,
                forall|j: int| 0 <= j < i ==> v@[j] != '{',
            decreases v@.len() - i,
        {
            i = i + 1;
        }
        proof {
            s@.index_of_first_ensures('{');
        }
        if i == v.len() {
            proof {
                if s@.contains('{') {
                    let k = choose|k: int| 0 <= k < s@.len() && s@[k] == '{';
                    assert(s@[k] != '{');
                }
            }
            return Err(RoamError::NoMap);
        }
        proof {
            assert(s@[i as int] == '{');
            assert(s@.contains('{'));
            let idx = s@.index_of_first('{').unwrap();
            if idx < i {
                assert(s@[idx] != '{');
            } else if idx > i {
                assert(s@[i as int] != '{');
            }
        }
        let processed = collapse_separators(replace_nan(&v, i).as_str());
        if !edn_text_readable(processed.as_str()) {
            return Err(RoamError::Unreadable);
        }
        match read_edn(processed.as_str()) {
            Err(m) => Err(RoamError::Parse(m)),
            Ok(e) => Graph::from_edn_value(e),
        }
    }
}

/// The pages among `s`: the blocks with a title, in order.
pub open spec fn titled(s: Seq<BlockModel>) -> Seq<BlockModel>
    decreases s.len(),
{
    if s.len() == 0 {
        Seq::empty()
    } else if s.last().title is Some {
        titled(s.drop_last()).push(s.last())
    } else {
        titled(s.drop_last())
    }
}

/// Whether block `b` refers to one of `references`.
pub open spec fn refers_to_any(b: BlockModel, references: Seq<u64>) -> bool {
    exists|j: int| 0 <= j < b.refs.len() && references.contains(#[trigger] b.refs[j])
}

/// The blocks among `s` that refer to one of `references`, in order.
pub open spec fn referring(s: Seq<BlockModel>, references: Seq<u64>) -> Seq<BlockModel>
    decreases s.len(),
{
    if s.len() == 0 {
        Seq::empty()
    } else if refers_to_any(s.last(), references) {
        referring(s.drop_last(), references).push(s.last())
    } else {
        referring(s.drop_last(), references)
    }
}

/// The id that an index gives for a key: its last entry for the key.
pub open spec fn index_lookup(idx: Seq<(Seq<char>, u64)>, key: Seq<char>) -> Option<u64>
    decreases idx.len(),
{
    if idx.len() == 0 {
        None
    } else if idx.last().0 == key {
        Some(idx.last().1)
    } else {
        index_lookup(idx.drop_last(), key)
    }
}

/// The block that has uid `uid`: the one whose id the uid index gives.
pub open spec fn block_with_uid(g: GraphModel, uid: Seq<char>) -> Option<BlockModel> {
    match index_lookup(g.uids, uid) {
        None => None,
        Some(id) => block_by_id(g.blocks, id),
    }
}

pub open spec fn ref_models(s: Seq<&Block>) -> Seq<BlockModel> {
    s.map_values(|b: &Block| b.model())
}

fn refers_to_any_exec(b: &Block, references: &[u64]) -> (r: bool)
    ensures
        r == refers_to_any(b.model(), references@),
{
    let mut j: usize = 0;
    while j < b.refs.len()
        invariant
            j <= b.refs@.len(),
            forall|m: int| 0 <= m < j ==> !references@.contains(#[trigger] b.refs@[m]),
        decreases b.refs@.len() - j,
    {
        let mut k: usize = 0;
        while k < references.len()
            invariant
                j < b.refs@.len(),
                k <= references@.len(),
                forall|m: int| 0 <= m < k ==> references@[m] != b.refs@[j as int],
            decreases references@.len() - k,
        {
            if references[k] == b.refs[j] {
                assert(references@.contains(b.refs@[j as int]));
                assert(references@.contains(b.model().refs[j as int]));
                return true;
            }
            k = k + 1;
        }
        j = j + 1;
    }
    false
}

impl Graph {
    /// The pages of the graph: its blocks with a title, by increasing id.
    pub fn pages(&self) -> (r: Vec<&Block>)
        ensures
            ref_models(r@) == titled(self.model().blocks),
    {
        let ghost s = block_models(self.blocks@);
        let mut r: Vec<&Block> = Vec::new();
        let mut i: usize = 0;
        assert(s.take(0) =~= Seq::<BlockModel>::empty());
        assert(ref_models(r@) =~= Seq::<BlockModel>::empty());
        while i < self.blocks.len()
            invariant
                i <= self.blocks@.len(),
                s == block_models(self.blocks@),
                ref_models(r@) == titled(s.take(i as int)),
            decreases self.blocks@.len() - i,
        {
            let ghost next = s.take(i + 1);
            assert(next.drop_last() =~= s.take(i as int));
            let b = &self.blocks[i];
            if b.title.is_some() {
                r.push(b);
                assert(ref_models(r@) =~= titled(next));
            }
            i = i + 1;
        }
        assert(s.take(s.len() as int) =~= s);
        r
    }

    /// The blocks that refer to one of `references`, by increasing id.
    pub fn blocks_with_references(&self, references: &[u64]) -> (r: Vec<&Block>)
        ensures
            ref_models(r@) == referring(self.model().blocks, references@),
    {
        let ghost s = block_models(self.blocks@);
        let mut r: Vec<&Block> = Vec::new();
        let mut i: usize = 0;
        assert(s.take(0) =~= Seq::<BlockModel>::empty());
        assert(ref_models(r@) =~= Seq::<BlockModel>::empty());
        while i < self.blocks.len()
            invariant
                i <= self.blocks@.len(),
                s == block_models(self.blocks@),
                ref_models(r@) == referring(s.take(i as int), references@),
            decreases self.blocks@.len() - i,
        {
            let ghost next = s.take(i + 1);
            assert(next.drop_last() =~= s.take(i as int));
            let b = &self.blocks[i];
            if refers_to_any_exec(b, references) {
                r.push(b);
                assert(ref_models(r@) =~= referring(next, references@));
            }
            i = i + 1;
        }
        assert(s.take(s.len() as int) =~= s);
        r
    }

    /// The block with uid `uid`, if the graph has one.
    pub fn block_from_uid(&self, uid: &str) -> (r: Option<&Block>)
        ensures
            match r {
                Some(b) => block_with_uid(self.model(), uid@) == Some(b.model()),
                None => block_with_uid(self.model(), uid@) is None,
            },
    {
        let ghost idx = index_models(self.blocks_by_uid@);
        let mut i = self.blocks_by_uid.len();
        assert(idx.take(i as int) =~= idx);
        while i > 0
            invariant
                i <= self.blocks_by_uid@.len(),
                idx == index_models(self.blocks_by_uid@),
                index_lookup(idx, uid@) == index_lookup(idx.take(i as int), uid@),
            decreases i,
        {
            let ghost t = idx.take(i as int);
            assert(t.drop_last() =~= idx.take(i - 1));
            if chars_equal(&to_chars(self.blocks_by_uid[i - 1].0.as_str()), uid) {
                let id = self.blocks_by_uid[i - 1].1;
                return match find_block(&self.blocks, id) {
                    Some(j) => Some(&self.blocks[j]),
                    None => None,
                };
            }
            i = i - 1;
        }
        assert(idx.take(0) =~= Seq::<(Seq<char>, u64)>::empty());
        None
    }
}

/// Whether the blocks go by strictly increasing id.
pub open spec fn ids_increase(s: Seq<BlockModel>) -> bool {
    forall|i: int, j: int| 0 <= i < j < s.len() ==> s[i].id < s[j].id
}

proof fn lemma_slot(s: Seq<BlockModel>, id: u64)
    ensures
        slot(s, id) <= s.len(),
        forall|j: int| 0 <= j < slot(s, id) ==> s[j].id < id,
        slot(s, id) < s.len() ==> s[slot(s, id) as int].id >= id,
    decreases s.len(),
{
    if s.len() > 0 && s[0].id < id {
        lemma_slot(s.skip(1), id);
        assert forall|j: int| 0 <= j < slot(s, id) implies s[j].id < id by {
            if j > 0 {
                assert(s[j] == s.skip(1)[j - 1]);
            }
        }
        if slot(s, id) < s.len() {
            assert(s[slot(s, id) as int] == s.skip(1)[slot(s.skip(1), id) as int]);
        }
    }
}

/// Adding a block keeps the blocks by strictly increasing id, and the graph then holds the
/// block under its id.
pub proof fn law_add_block_keeps_order(g: GraphModel, b: BlockModel)
    requires
        ids_increase(g.blocks),
    ensures
        ids_increase(add_block(g, b).blocks),
        block_by_id(add_block(g, b).blocks, b.id) == Some(b),
{
    let s = g.blocks;
    let i = slot(s, b.id) as int;
    lemma_slot(s, b.id);
    let t = add_block(g, b).blocks;
    let ids = block_ids(t);
    if i < s.len() && s[i].id == b.id {
        assert(t == s.update(i, b));
        assert forall|p: int, q: int| 0 <= p < q < t.len() implies t[p].id < t[q].id by {
            assert(s[p].id < s[q].id);
        }
    } else {
        assert(t == s.insert(i, b));
        assert forall|p: int, q: int| 0 <= p < q < t.len() implies t[p].id < t[q].id by {
            if q < i {
                assert(s[p].id < s[q].id);
            } else if q == i {
                assert(s[p].id < b.id);
            } else if p == i {
                assert(s[i].id > b.id);
                if q > i + 1 {
                    assert(s[i].id < s[q - 1].id);
                }
            } else if p < i {
                assert(s[p].id < s[q - 1].id);
            } else {
                assert(s[p - 1].id < s[q - 1].id);
            }
        }
    }
    assert(t[i] == b);
    assert(ids[i] == b.id);
    ids.index_of_first_ensures(b.id);
    assert(ids.contains(b.id));
    let k = ids.index_of_first(b.id).unwrap();
    if k < i {
        assert(t[k].id < t[i].id);
    }
    if k > i {
        assert(ids[i] != b.id);
    }
}

proof fn lemma_times_positive(s: Seq<BlockModel>, id: u64, fuel: nat)
    ensures
        time_of(s, id, fuel) matches Some(t) ==> t > 0,
    decreases fuel, 0nat,
{
    if let Some(b) = block_by_id(s, id) {
        if b.create_time == 0 && fuel > 0 {
            lemma_children_positive(s, b.children, (fuel - 1) as nat);
        }
    }
}

proof fn lemma_children_positive(s: Seq<BlockModel>, ch: Seq<u64>, fuel: nat)
    ensures
        children_min(s, ch, fuel) matches Some(t) ==> t > 0,
    decreases fuel, ch.len() + 1,
{
    if ch.len() > 0 {
        lemma_children_positive(s, ch.drop_last(), fuel);
        lemma_times_positive(s, ch.last(), fuel);
    }
}

/// After the creation times are found, every block has one, and a block that had one keeps it.
pub proof fn law_fixed_times_positive(g: GraphModel)
    requires
        fix_create_times(g) is Ok,
    ensures
        forall|i: int|
            0 <= i < g.blocks.len() ==> (#[trigger] fix_create_times(g)->Ok_0.blocks[i]).create_time > 0,
        forall|i: int|
            0 <= i < g.blocks.len() && g.blocks[i].create_time > 0 ==> (
            #[trigger] fix_create_times(g)->Ok_0.blocks[i]).create_time == g.blocks[i].create_time,
        fix_create_times(g)->Ok_0.blocks.len() == g.blocks.len(),
{
    let s = g.blocks;
    assert forall|i: int| 0 <= i < s.len() implies (#[trigger] fix_create_times(g)->Ok_0.blocks[i]).create_time > 0 by {
        lemma_times_positive(s, s[i].id, s.len());
        if s[i].create_time == 0 {
            assert(!(time_of(s, s[i].id, s.len()) is None));
        }
    }
}

/// The index that `get_email_index` gives holds the email.
pub proof fn law_email_index_holds_email(emails: Seq<Seq<char>>, e: Seq<char>)
    requires
        emails.len() < usize::MAX,
    ensures
        ({
            let (es, i) = email_index(emails, e);
            &&& i < es.len()
            &&& es[i as int] == e
            &&& es.len() <= emails.len() + 1
            &&& forall|j: int| 0 <= j < emails.len() ==> #[trigger] es[j] == emails[j]
        }),
{
    emails.index_of_first_ensures(e);
}

proof fn lemma_step_keeps_order(g: GraphModel, c: BlockModel, d: EdnModel)
    requires
        ids_increase(g.blocks),
        datom_step(g, c, d) is Ok,
    ensures
        ids_increase(datom_step(g, c, d)->Ok_0.0.blocks),
{
    if let EdnModel::Vector(items) = d {
        if let Some(entity) = uint_of(items[0]) {
            if entity != c.id {
                law_add_block_keeps_order(g, with_page(c));
            }
        }
    }
}

proof fn lemma_datoms_keep_order(ds: Seq<EdnModel>)
    requires
        read_datoms(empty_graph(), empty_block(), ds) is Ok,
    ensures
        ids_increase(read_datoms(empty_graph(), empty_block(), ds)->Ok_0.0.blocks),
    decreases ds.len(),
{
    if ds.len() > 0 {
        lemma_datoms_keep_order(ds.drop_last());
        let (g1, c1) = read_datoms(empty_graph(), empty_block(), ds.drop_last())->Ok_0;
        lemma_step_keeps_order(g1, c1, ds.last());
    }
}

/// The graph read from datoms has its blocks by strictly increasing id, each once.
pub proof fn law_graph_blocks_increase(ds: Seq<EdnModel>)
    requires
        graph_of_datoms(ds) is Ok,
    ensures
        ids_increase(graph_of_datoms(ds)->Ok_0.blocks),
{
    lemma_datoms_keep_order(ds);
    let (g, c) = read_datoms(empty_graph(), empty_block(), ds)->Ok_0;
    law_add_block_keeps_order(g, with_page(c));
    let s = add_block(g, with_page(c)).blocks;
    let t = graph_of_datoms(ds)->Ok_0.blocks;
    assert forall|i: int, j: int| 0 <= i < j < t.len() implies t[i].id < t[j].id by {
        assert(t[i].id == s[i].id && t[j].id == s[j].id);
    }
}

} // verus!
