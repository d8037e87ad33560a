//! EDN values as the library reads them with edn-rs, and what a Roam export keeps in them:
//! view types, and the attributes that a page references.
use vstd::prelude::*;

use edn_rs::Edn;
use std::str::FromStr;

use crate::chars::{chars_equal, rspan_whitespace, span_of, string_of, to_chars, CharClass};
use crate::logseq::attrs::trimmed;

verus! {

/// How a Roam block shows its children.
#[derive(Debug, Copy, Clone, PartialEq, Eq, Structural)]
pub enum ViewType {
    Bullet,
    Numbered,
    Document,
}

impl Default for ViewType {
    fn default() -> (r: ViewType)
        ensures
            r == ViewType::Bullet,
    {
        ViewType::Bullet
    }
}

/// An EDN value, as far as an export uses it.
#[derive(Debug)]
pub enum EdnValue {
    Nil,
    Str(String),
    Key(String),
    /// A non-negative integer; edn_rs reads a negative one as another kind of integer, which
    /// stays among the `Other` values.
    UInt(u64),
    Bool(bool),
    Vector(Vec<EdnValue>),
    /// The members of a set, in the set's order.
    Members(Vec<EdnValue>),
    /// The entries of a map, whose keys are distinct.
    Entries(Vec<(String, EdnValue)>),
    /// Any other value, by its printed form.
    Other(String),
}

/// Mathematical model of an `EdnValue`.
pub enum EdnModel {
    Nil,
    Str(Seq<char>),
    Key(Seq<char>),
    UInt(u64),
    Bool(bool),
    Vector(Seq<EdnModel>),
    Members(Seq<EdnModel>),
    Entries(Seq<(Seq<char>, EdnModel)>),
    Other(Seq<char>),
}

impl EdnValue {
    pub open spec fn model(self) -> EdnModel
        decreases self,
    {
        match self {
            EdnValue::Nil => EdnModel::Nil,
            EdnValue::Str(s) => EdnModel::Str(s@),
            EdnValue::Key(k) => EdnModel::Key(k@),
            EdnValue::UInt(u) => EdnModel::UInt(u),
            EdnValue::Bool(b) => EdnModel::Bool(b),
            EdnValue::Vector(v) => EdnModel::Vector(models(v@)),
            EdnValue::Members(v) => EdnModel::Members(models(v@)),
            EdnValue::Entries(e) => EdnModel::Entries(entry_models(e@)),
            EdnValue::Other(t) => EdnModel::Other(t@),
        }
    }
}

/// The models of a sequence of values.
pub open spec fn models(s: Seq<EdnValue>) -> Seq<EdnModel>
    decreases s,
{
    if s.len() == 0 {
        Seq::empty()
    } else {
        proof {
            vstd::seq::axiom_seq_subrange_decreases(s, 0, s.len() - 1);
        }
        models(s.drop_last()).push(s.last().model())
    }
}

/// The models of a map's entries.
pub open spec fn entry_models(s: Seq<(String, EdnValue)>) -> Seq<(Seq<char>, EdnModel)>
    decreases s,
{
    if s.len() == 0 {
        Seq::empty()
    } else {
        proof {
            vstd::seq::axiom_seq_subrange_decreases(s, 0, s.len() - 1);
        }
        entry_models(s.drop_last()).push((s.last().0@, s.last().1.model()))
    }
}

/// `models` keeps the length and maps each value to its model.
pub proof fn lemma_models(s: Seq<EdnValue>)
    ensures
        models(s).len() == s.len(),
        forall|i: int| 0 <= i < s.len() ==> #[trigger] models(s)[i] == s[i].model(),
    decreases s.len(),
{
    if s.len() > 0 {
        lemma_models(s.drop_last());
    }
}

/// Why an EDN value could not be read.
#[derive(Debug, Clone, PartialEq, Eq)]
pub enum RoamError {
    /// A `:children/view-type` that is none of `:bullet`, `:numbered` and `:document`.
    UnknownViewType(String),
    /// A reference whose type is not `:block/uid`.
    UnknownValueType(String),
    /// An attribute value of an unexpected shape.
    UnexpectedFormat,
    /// An attribute vector without a value.
    MissingValue,
    /// An attribute vector without a uid.
    MissingUid,
    /// An attribute's uid map without `:value`.
    NoUidValue,
    /// An attribute's value map without `:value`.
    NoAttrValue,
    /// An attribute whose uid is a plain string.
    UnexpectedReference,
    /// An attribute whose uid and value are not maps.
    UnexpectedValues,
    /// An attribute that is not a vector.
    NotAVector,
    /// An export with no `{`, where its map would start.
    NoMap,
    /// An export that edn_rs could not read, with the printed form of its error.
    Parse(String),
    /// An export whose map has no `:datoms`.
    NoDatoms,
    /// An export whose `:datoms` is not a vector.
    DatomsNotVector,
    /// A datom that is not a vector.
    DatomNotVector,
    /// A datom with fewer than three entries: entity, attribute and value.
    ShortDatom,
    /// A datom whose entity is not a number.
    BadEntity,
    /// A datom whose attribute is not a key.
    AttrNotKey,
    /// A datom whose attribute takes a number, with another value; the attribute is given.
    BadNumber(String),
    /// A block without a creation time whose time cannot be found from its children: a child
    /// that is not in the graph, or children that lead back to the block.
    CreateTimeUnresolved,
    /// An export that edn_rs cannot read safely (see `edn_readable`).
    Unreadable,
}

/// The value of an attribute a page references.
#[derive(Debug)]
pub enum AttrValue {
    Nil,
    Uid(String),
    Str(String),
}

/// An attribute, by the uid of its block, with its value.
#[derive(Debug)]
pub struct EntityAttr {
    pub uid: String,
    pub value: AttrValue,
}

/// Mathematical model of an `AttrValue`.
pub enum AttrModel {
    Nil,
    Uid(Seq<char>),
    Str(Seq<char>),
}

/// Mathematical model of a `RoamError`.
pub enum ErrModel {
    UnknownViewType(Seq<char>),
    UnknownValueType(Seq<char>),
    UnexpectedFormat,
    MissingValue,
    MissingUid,
    NoUidValue,
    NoAttrValue,
    UnexpectedReference,
    UnexpectedValues,
    NotAVector,
    NoMap,
    Parse(Seq<char>),
    NoDatoms,
    DatomsNotVector,
    DatomNotVector,
    ShortDatom,
    BadEntity,
    AttrNotKey,
    BadNumber(Seq<char>),
    CreateTimeUnresolved,
    Unreadable,
}

impl AttrValue {
    pub open spec fn model(self) -> AttrModel {
        match self {
            AttrValue::Nil => AttrModel::Nil,
            AttrValue::Uid(s) => AttrModel::Uid(s@),
            AttrValue::Str(s) => AttrModel::Str(s@),
        }
    }
}

impl RoamError {
    pub open spec fn model(self) -> ErrModel {
        match self {
            RoamError::UnknownViewType(s) => ErrModel::UnknownViewType(s@),
            RoamError::UnknownValueType(s) => ErrModel::UnknownValueType(s@),
            RoamError::UnexpectedFormat => ErrModel::UnexpectedFormat,
            RoamError::MissingValue => ErrModel::MissingValue,
            RoamError::MissingUid => ErrModel::MissingUid,
            RoamError::NoUidValue => ErrModel::NoUidValue,
            RoamError::NoAttrValue => ErrModel::NoAttrValue,
            RoamError::UnexpectedReference => ErrModel::UnexpectedReference,
            RoamError::UnexpectedValues => ErrModel::UnexpectedValues,
            RoamError::NotAVector => ErrModel::NotAVector,
            RoamError::NoMap => ErrModel::NoMap,
            RoamError::Parse(m) => ErrModel::Parse(m@),
            RoamError::NoDatoms => ErrModel::NoDatoms,
            RoamError::DatomsNotVector => ErrModel::DatomsNotVector,
            RoamError::DatomNotVector => ErrModel::DatomNotVector,
            RoamError::ShortDatom => ErrModel::ShortDatom,
            RoamError::BadEntity => ErrModel::BadEntity,
            RoamError::AttrNotKey => ErrModel::AttrNotKey,
            RoamError::BadNumber(a) => ErrModel::BadNumber(a@),
            RoamError::CreateTimeUnresolved => ErrModel::CreateTimeUnresolved,
            RoamError::Unreadable => ErrModel::Unreadable,
        }
    }
}

/// The view type a `:children/view-type` key names.
pub open spec fn view_type_key(val: Seq<char>) -> Option<ViewType> {
    if val == ":bullet"@ {
        Some(ViewType::Bullet)
    } else if val == ":numbered"@ {
        Some(ViewType::Numbered)
    } else if val == ":document"@ {
        Some(ViewType::Document)
    } else {
        None
    }
}

/// The view type a `:children/view-type` key names; an error for any other key.
pub fn view_type_from_key(val: &str) -> (r: Result<ViewType, RoamError>)
    ensures
        match view_type_key(val@) {
            Some(v) => r == Ok::<ViewType, RoamError>(v),
            None => r matches Err(RoamError::UnknownViewType(s)) && s@ == val@,
        },
{
    let v = to_chars(val);
    if chars_equal(&v, ":bullet") {
        Ok(ViewType::Bullet)
    } else if chars_equal(&v, ":numbered") {
        Ok(ViewType::Numbered)
    } else if chars_equal(&v, ":document") {
        Ok(ViewType::Document)
    } else {
        Err(RoamError::UnknownViewType(val.to_owned()))
    }
}

/// `s` without the whitespace at its ends.
pub(crate) fn trim_text(s: &String) -> (r: String)
    ensures
        r@ == trimmed(s@),
{
    let v = to_chars(s.as_str());
    let n = v.len();
    let a = span_of(&v, 0, n, CharClass::Whitespace);
    let b = rspan_whitespace(&v, a, n);
    string_of(&v, a, b)
}

/// What reading an attribute value gives.
pub open spec fn attr_value_spec(e: EdnModel) -> Result<AttrModel, ErrModel> {
    match e {
        EdnModel::Nil => Ok(AttrModel::Nil),
        EdnModel::Str(s) => Ok(AttrModel::Str(trimmed(s))),
        EdnModel::Vector(v) => if v.len() < 2 {
            Err(ErrModel::UnexpectedFormat)
        } else {
            match (v[v.len() - 2], v[v.len() - 1]) {
                (EdnModel::Key(k), EdnModel::Str(s)) => if k == ":block/uid"@ {
                    Ok(AttrModel::Uid(trimmed(s)))
                } else {
                    Err(ErrModel::UnknownValueType(k))
                },
                _ => Err(ErrModel::UnexpectedFormat),
            }
        },
        _ => Err(ErrModel::UnexpectedFormat),
    }
}

pub open spec fn attr_result(r: Result<AttrValue, RoamError>) -> Result<AttrModel, ErrModel> {
    match r {
        Ok(a) => Ok(a.model()),
        Err(e) => Err(e.model()),
    }
}

/// Read an attribute value: nil, a string (trimmed), or a reference `[:block/uid "uid"]` to a
/// block (its uid trimmed). The last two entries of a vector are its type and value.
pub fn parse_attr_value(e: EdnValue) -> (r: Result<AttrValue, RoamError>)
    ensures
        attr_result(r) == attr_value_spec(e.model()),
{
    match e {
        EdnValue::Nil => Ok(AttrValue::Nil),
        EdnValue::Str(s) => Ok(AttrValue::Str(trim_text(&s))),
        EdnValue::Vector(v) => {
            let ghost v0 = v@;
            proof {
                lemma_models(v0);
            }
            let mut v = v;
            let attr_value = v.pop();
            let attr_type = v.pop();
            match (attr_type, attr_value) {
                (Some(EdnValue::Key(k)), Some(EdnValue::Str(s))) => {
                    let kv = to_chars(k.as_str());
                    if chars_equal(&kv, ":block/uid") {
                        Ok(AttrValue::Uid(trim_text(&s)))
                    } else {
                        Err(RoamError::UnknownValueType(k))
                    }
                },
                _ => Err(RoamError::UnexpectedFormat),
            }
        },
        _ => Err(RoamError::UnexpectedFormat),
    }
}

/// The value of `key` among a map's entries.
pub open spec fn map_value(entries: Seq<(Seq<char>, EdnModel)>, key: Seq<char>) -> Option<EdnModel>
    decreases entries.len(),
{
    if entries.len() == 0 {
        None
    } else if entries.last().0 == key {
        Some(entries.last().1)
    } else {
        map_value(entries.drop_last(), key)
    }
}

/// Take the value of `key` out of a map's entries.
pub(crate) fn take_map_value(list: Vec<(String, EdnValue)>, key: &str) -> (r: Option<EdnValue>)
    ensures
        match r {
            Some(v) => map_value(entry_models(list@), key@) == Some(v.model()),
            None => map_value(entry_models(list@), key@) is None,
        },
{
    let ghost e0 = list@;
    let mut entries = list;
    assert(e0.take(e0.len() as int) =~= e0);
    while entries.len() > 0
        invariant
            e0 == list@,
            entries@ == e0.take(entries@.len() as int),
            entries@.len() <= e0.len(),
            map_value(entry_models(e0), key@) == map_value(entry_models(entries@), key@),
        decreases entries@.len(),
    {
        let ghost before = entries@;
        let popped = entries.pop().unwrap();
        assert(popped == before.last());
        assert(before.drop_last() =~= entries@);
        assert(e0.take(entries@.len() as int) =~= before.drop_last());
        let ghost m = entry_models(before);
        assert(m.drop_last() =~= entry_models(entries@));
        assert(m.last() == (before.last().0@, before.last().1.model()));
        let (k, v) = popped;
        let kc = to_chars(k.as_str());
        if chars_equal(&kc, key) {
            assert(map_value(entry_models(before), key@) == Some(before.last().1.model()));
            return Some(v);
        }
    }
    None
}

/// What reading an entry of an `:entity/attrs` set gives: the uid of the attribute's block and
/// the attribute's value.
pub open spec fn entity_attr_spec(e: EdnModel) -> Result<(Seq<char>, AttrModel), ErrModel> {
    match e {
        EdnModel::Vector(v) => if v.len() == 0 {
            Err(ErrModel::MissingValue)
        } else if v.len() == 1 {
            Err(ErrModel::MissingUid)
        } else {
            match (v[v.len() - 2], v[v.len() - 1]) {
                (EdnModel::Entries(mu), EdnModel::Entries(mv)) => match map_value(mu, ":value"@) {
                    None => Err(ErrModel::NoUidValue),
                    Some(uv) => match attr_value_spec(uv) {
                        Err(er) => Err(er),
                        Ok(uid) => match map_value(mv, ":value"@) {
                            None => Err(ErrModel::NoAttrValue),
                            Some(vv) => match attr_value_spec(vv) {
                                Err(er) => Err(er),
                                Ok(value) => match uid {
                                    AttrModel::Uid(u) => Ok((u, value)),
                                    AttrModel::Nil => Ok((Seq::empty(), value)),
                                    AttrModel::Str(_) => Err(ErrModel::UnexpectedReference),
                                },
                            },
                        },
                    },
                },
                _ => Err(ErrModel::UnexpectedValues),
            }
        },
        _ => Err(ErrModel::NotAVector),
    }
}

impl EntityAttr {
    /// Read an entry of an `:entity/attrs` set: a vector whose last two entries are maps, the
    /// uid of the attribute's block and the attribute's value, each under `:value`.
    pub fn try_from_edn(e: EdnValue) -> (r: Result<EntityAttr, RoamError>)
        ensures
            match r {
                Ok(a) => entity_attr_spec(e.model()) == Ok::<(Seq<char>, AttrModel), ErrModel>(
                    (a.uid@, a.value.model()),
                ),
                Err(er) => entity_attr_spec(e.model()) == Err::<(Seq<char>, AttrModel), ErrModel>(er.model()),
            },
    {
        match e {
            EdnValue::Vector(v) => {
                let ghost v0 = v@;
                proof {
                    lemma_models(v0);
                }
                let mut values = v;
                let m_value = match values.pop() {
                    Some(x) => x,
                    None => {
                        return Err(RoamError::MissingValue);
                    },
                };
                let m_uid = match values.pop() {
                    Some(x) => x,
                    None => {
                        return Err(RoamError::MissingUid);
                    },
                };
                match (m_uid, m_value) {
                    (EdnValue::Entries(mu), EdnValue::Entries(mv)) => {
                        let uid = match take_map_value(mu, ":value") {
                            None => {
                                return Err(RoamError::NoUidValue);
                            },
                            Some(x) => match parse_attr_value(x) {
                                Ok(a) => a,
                                Err(er) => {
                                    return Err(er);
                                },
                            },
                        };
                        let value = match take_map_value(mv, ":value") {
                            None => {
                                return Err(RoamError::NoAttrValue);
                            },
                            Some(x) => match parse_attr_value(x) {
                                Ok(a) => a,
                                Err(er) => {
                                    return Err(er);
                                },
                            },
                        };
                        match uid {
                            AttrValue::Uid(u) => Ok(EntityAttr { uid: u, value }),
                            AttrValue::Nil => Ok(EntityAttr { uid: String::new(), value }),
                            AttrValue::Str(_) => Err(RoamError::UnexpectedReference),
                        }
                    },
                    _ => Err(RoamError::UnexpectedValues),
                }
            },
            _ => Err(RoamError::NotAVector),
        }
    }
}

/// What `str::parse::<u64>` gives for a text.
pub open spec fn u64_parsed(s: Seq<char>) -> Option<u64> {
    match crate::logseq::metadata::decimal_value(s, false) {
        Some(v) => if v <= u64::MAX {
            Some(v as u64)
        } else {
            None
        },
        None => None,
    }
}

/// `str::parse::<u64>`: an optional `+`, then decimal digits, within the range of `u64`.
fn parse_u64(s: &str) -> (r: Option<u64>)
    ensures
        r == u64_parsed(s@),
{
    let v = crate::chars::to_chars(s);
    if v.len() == 0 {
        return None;
    }
    let start: usize = if v[0] == '+' {
        1
    } else {
        0
    };
    if start == v.len() {
        assert(v@.skip(1).len() == 0);
        return None;
    }
    assert(start == 0 ==> v@.skip(0) =~= v@);
    proof {
        assert(s@[0] == v@[0]);
        if start == 1 {
            assert(s@.skip(1) =~= v@.skip(1));
        }
    }
    crate::logseq::metadata::digits_up_to(&v, start, u64::MAX)
}

/// A value read as a number: a non-negative integer, or a text that is one.
pub open spec fn uint_of(e: EdnModel) -> Option<u64> {
    match e {
        EdnModel::Str(s) => u64_parsed(s),
        EdnModel::UInt(u) => Some(u),
        _ => None,
    }
}

pub(crate) fn uint_value(v: &EdnValue) -> (r: Option<u64>)
    ensures
        r == uint_of(v.model()),
{
    match v {
        EdnValue::Str(s) => parse_u64(s.as_str()),
        EdnValue::UInt(u) => Some(*u),
        _ => None,
    }
}

/// A reference to the value of `key` among a map's entries.
pub(crate) fn map_entry<'a>(list: &'a Vec<(String, EdnValue)>, key: &str) -> (r: Option<&'a EdnValue>)
    ensures
        match r {
            Some(v) => map_value(entry_models(list@), key@) == Some(v.model()),
            None => map_value(entry_models(list@), key@) is None,
        },
{
    let ghost e0 = list@;
    let mut i = list.len();
    assert(e0.take(i as int) =~= e0);
    while i > 0
        invariant
            i <= e0.len(),
            e0 == list@,
            map_value(entry_models(e0), key@) == map_value(entry_models(e0.take(i as int)), key@),
        decreases i,
    {
        let ghost before = e0.take(i as int);
        let ghost m = entry_models(before);
        assert(before.drop_last() =~= e0.take(i - 1));
        assert(m.drop_last() =~= entry_models(e0.take(i - 1)));
        assert(m.last() == (before.last().0@, before.last().1.model()));
        let kc = to_chars(list[i - 1].0.as_str());
        if chars_equal(&kc, key) {
            return Some(&list[i - 1].1);
        }
        i = i - 1;
    }
    assert(e0.take(0) =~= Seq::<(String, EdnValue)>::empty());
    None
}

#[verifier::external_type_specification]
#[verifier::external_body]
pub struct ExEdn(Edn);

/// What edn_rs reads from a text: the value, by its model, or the printed form of the error.
pub uninterp spec fn edn_read(text: Seq<char>) -> Result<EdnModel, Seq<char>>;

pub open spec fn edn_outcome(r: Result<EdnValue, String>) -> Result<EdnModel, Seq<char>> {
    match r {
        Ok(v) => Ok(v.model()),
        Err(m) => Err(m@),
    }
}

/// Converts an `edn_rs::Edn` into an `EdnValue`, variant by variant: the members of vectors,
/// sets and maps converted in their order, and the values that no reader here looks into by
/// their printed form.
#[verifier::external_body]
fn edn_value_of(e: Edn) -> EdnValue {
    match e {
        Edn::Nil => EdnValue::Nil,
        Edn::Str(s) => EdnValue::Str(s),
        Edn::Key(k) => EdnValue::Key(k),
        Edn::UInt(u) => EdnValue::UInt(u),
        Edn::Bool(b) => EdnValue::Bool(b),
        Edn::Vector(v) => EdnValue::Vector(v.to_vec().into_iter().map(edn_value_of).collect()),
        Edn::Set(m) => EdnValue::Members(m.to_set().into_iter().map(edn_value_of).collect()),
        Edn::Map(m) => EdnValue::Entries(m.to_map().into_iter().map(|(k, v)| (k, edn_value_of(v))).collect()),
        other => EdnValue::Other(format!("{other:?}")),
    }
}

/// `Edn::from_str` of edn_rs, its value converted by `edn_value_of` and its error printed. The
/// contract names the outcome and claims nothing more of it. The reader is given only text that
/// it takes safely (see `edn_readable`): on a number with a non-ASCII character it can panic,
/// and it recurses once per level of nesting and once per whitespace character, comma, comment
/// or tag between values.
#[verifier::external_body]
pub(crate) fn read_edn(text: &str) -> (r: Result<EdnValue, String>)
    requires
        crate::edn_scan::edn_readable(text@),
    ensures
        edn_outcome(r) == edn_read(text@),
{
    match Edn::from_str(text) {
        Ok(e) => Ok(edn_value_of(e)),
        Err(e) => Err(format!("{:?}", e)),
    }
}

} // verus!
