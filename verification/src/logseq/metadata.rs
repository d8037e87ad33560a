//! Created and edited times of a page, from the metadata database, the file system, legacy
//! metadata and, for journals, the date in the title.
use vstd::prelude::*;

use crate::chars::{find, find_from, string_of, to_chars};
use crate::logseq::db::{MetadataDbPage, MetadataDbPageUpdate, PageMatchType, PageRecord};
use crate::logseq::file::lowercase_of;
use crate::logseq::attrs::trimmed;
use crate::edn_scan::{collapse, collapse_separators, edn_readable, edn_text_readable};
use crate::roam_edn::{
    edn_read, entry_models, lemma_models, map_entry, map_value, models, read_edn, trim_text,
    uint_of, uint_value, EdnModel, EdnValue,
};

verus! {

/// Timestamps that an older Logseq kept for a page.
#[derive(Debug, Clone, Copy, PartialEq, Eq, Structural)]
pub struct PageMetadata {
    pub created_time: u64,
    pub edited_time: u64,
}

/// Legacy page timestamps by lowercased page name; a later entry replaces an earlier one.
#[derive(Debug)]
pub struct LegacyMetadata {
    pub entries: Vec<(String, PageMetadata)>,
}

pub open spec fn legacy_map(e: Seq<(String, PageMetadata)>) -> Map<Seq<char>, PageMetadata>
    decreases e.len(),
{
    if e.len() == 0 {
        Map::empty()
    } else {
        legacy_map(e.drop_last()).insert(e.last().0@, e.last().1)
    }
}

impl View for LegacyMetadata {
    type V = Map<Seq<char>, PageMetadata>;

    open spec fn view(&self) -> Map<Seq<char>, PageMetadata> {
        legacy_map(self.entries@)
    }
}

proof fn lemma_legacy_take(e: Seq<(String, PageMetadata)>, i: int, k: Seq<char>)
    requires
        0 <= i < e.len(),
    ensures
        legacy_map(e.take(i + 1)).contains_key(k) == (e[i].0@ == k || legacy_map(
            e.take(i),
        ).contains_key(k)),
        legacy_map(e.take(i + 1)).contains_key(k) ==> legacy_map(e.take(i + 1))[k] == if e[i].0@
            == k {
            e[i].1
        } else {
            legacy_map(e.take(i))[k]
        },
{
    assert(e.take(i + 1).drop_last() =~= e.take(i));
}

impl LegacyMetadata {
    /// The timestamps recorded for `name`.
    pub fn get(&self, name: &str) -> (r: Option<PageMetadata>)
        ensures
            r == (if self@.contains_key(name@) {
                Some(self@[name@])
            } else {
                None
            }),
    {
        let ghost e = self.entries@;
        assert(e.take(e.len() as int) =~= e);
        let mut found: Option<PageMetadata> = None;
        let mut j: usize = 0;
        while j < self.entries.len()
            invariant
                j <= e.len(),
                e == self.entries@,
                found == (if legacy_map(e.take(j as int)).contains_key(name@) {
                    Some(legacy_map(e.take(j as int))[name@])
                } else {
                    None
                }),
            decreases e.len() - j,
        {
            proof {
                lemma_legacy_take(e, j as int, name@);
            }
            let k = to_chars(self.entries[j].0.as_str());
            if crate::chars::chars_equal(&k, name) {
                found = Some(self.entries[j].1);
            }
            j = j + 1;
        }
        found
    }
}

/// The value of a string of ASCII decimal digits; nothing for any other character.
pub open spec fn digits_value(d: Seq<char>) -> Option<int>
    decreases d.len(),
{
    if d.len() == 0 {
        Some(0)
    } else {
        match digits_value(d.drop_last()) {
            Some(v) => if '0' <= d.last() <= '9' {
                Some(v * 10 + ((d.last() as int) - ('0' as int)))
            } else {
                None
            },
            None => None,
        }
    }
}

/// The number a decimal text stands for, as `str::parse` reads an integer: an optional sign
/// (`-` only where negative numbers are allowed), then at least one ASCII digit.
pub open spec fn decimal_value(s: Seq<char>, signed: bool) -> Option<int> {
    if s.len() == 0 {
        None
    } else {
        let negative = signed && s[0] == '-';
        let d = if s[0] == '+' || negative {
            s.skip(1)
        } else {
            s
        };
        if d.len() == 0 {
            None
        } else {
            match digits_value(d) {
                Some(v) => Some(
                    if negative {
                        -v
                    } else {
                        v
                    },
                ),
                None => None,
            }
        }
    }
}

/// What `str::parse::<i32>` gives for a text.
pub open spec fn i32_parsed(s: Seq<char>) -> Option<i32> {
    match decimal_value(s, true) {
        Some(v) => if i32::MIN <= v <= i32::MAX {
            Some(v as i32)
        } else {
            None
        },
        None => None,
    }
}

/// A digit of `d` before position `i` is not a decimal digit: the text has no value.
proof fn lemma_digits_prefix_none(d: Seq<char>, i: int)
    requires
        0 <= i <= d.len(),
        digits_value(d.take(i)) is None,
    ensures
        digits_value(d) is None,
    decreases d.len() - i,
{
    if i < d.len() {
        assert(d.take(i + 1).drop_last() =~= d.take(i));
        lemma_digits_prefix_none(d, i + 1);
    } else {
        assert(d.take(i) =~= d);
    }
}

/// More digits never make the value smaller, and a value is never negative.
proof fn lemma_digits_grow(d: Seq<char>, i: int)
    requires
        0 <= i <= d.len(),
    ensures
        digits_value(d.take(i)) matches Some(u) ==> u >= 0 && (digits_value(d) matches Some(v) ==> v
            >= u),
    decreases d.len() - i,
{
    lemma_digits_nonnegative(d.take(i));
    if i < d.len() {
        assert(d.take(i + 1).drop_last() =~= d.take(i));
        assert(d.take(i + 1).last() == d[i]);
        lemma_digits_grow(d, i + 1);
        if digits_value(d.take(i + 1)) is None {
            lemma_digits_prefix_none(d, i + 1);
        }
    } else {
        assert(d.take(i) =~= d);
    }
}

proof fn lemma_digits_nonnegative(d: Seq<char>)
    ensures
        digits_value(d) matches Some(v) ==> v >= 0,
    decreases d.len(),
{
    if d.len() > 0 {
        lemma_digits_nonnegative(d.drop_last());
    }
}

/// The digits `v[from..]` read as a number, when they are all decimal digits and the number is
/// at most `limit`.
pub(crate) fn digits_up_to(v: &Vec<char>, from: usize, limit: u64) -> (r: Option<u64>)
    requires
        from <= v@.len(),
        limit >= 9,
    ensures
        r matches Some(m) ==> m <= limit,
        match digits_value(v@.skip(from as int)) {
            Some(n) => if n <= limit {
                r == Some(n as u64)
            } else {
                r is None
            },
            None => r is None,
        },
{
    let ghost d = v@.skip(from as int);
    let mut acc: u64 = 0;
    let mut i: usize = from;
    assert(d.take(0) =~= Seq::<char>::empty());
    while i < v.len()
        invariant
            from <= i <= v@.len(),
            d == v@.skip(from as int),
            limit >= 9,
            acc <= limit,
            digits_value(d.take(i - from)) == Some(acc as int),
        decreases v@.len() - i,
    {
        let c = v[i];
        let ghost k = (i - from) as int;
        proof {
            assert(d.take(k + 1).drop_last() =~= d.take(k));
            assert(d.take(k + 1).last() == c);
        }
        if !('0' <= c && c <= '9') {
            proof {
                lemma_digits_prefix_none(d, k + 1);
            }
            return None;
        }
        let dig = (c as u32 - '0' as u32) as u64;
        assert(dig <= 9);
        if acc > (limit - dig) / 10 {
            proof {
                assert(acc * 10 + dig > limit) by (nonlinear_arith)
                    requires
                        acc > (limit - dig) / 10,
                        dig <= limit,
                ;
                lemma_digits_grow(d, k + 1);
            }
            return None;
        }
        assert(acc * 10 + dig <= limit) by (nonlinear_arith)
            requires
                acc <= (limit - dig) / 10,
                dig <= limit,
        ;
        acc = acc * 10 + dig;
        i = i + 1;
    }
    assert(d.take((i - from) as int) =~= d);
    Some(acc)
}

/// `str::parse::<i32>`: an optional `+` or `-`, then decimal digits, within the range of `i32`.
fn parse_i32(s: &str) -> (r: Option<i32>)
    ensures
        r == i32_parsed(s@),
{
    let v = to_chars(s);
    if v.len() == 0 {
        return None;
    }
    let negative = v[0] == '-';
    let start: usize = if v[0] == '+' || negative {
        1
    } else {
        0
    };
    if start == v.len() {
        assert(v@.skip(1).len() == 0);
        return None;
    }
    assert(start == 0 ==> v@.skip(0) =~= v@);
    let limit: u64 = if negative {
        2147483648
    } else {
        2147483647
    };
    proof {
        lemma_digits_nonnegative(v@.skip(start as int));
        assert(s@[0] == v@[0]);
        if start == 1 {
            assert(s@.skip(1) =~= v@.skip(1));
        }
    }
    let r = digits_up_to(&v, start, limit);
    match r {
        Some(m) => {
            assert(m <= limit);
            if negative {
                Some((0 - (m as i64)) as i32)
            } else {
                Some(m as i32)
            }
        },
        None => None,
    }
}

/// What `str::parse::<u32>` gives for a text.
pub open spec fn u32_parsed(s: Seq<char>) -> Option<u32> {
    match decimal_value(s, false) {
        Some(v) => if v <= u32::MAX {
            Some(v as u32)
        } else {
            None
        },
        None => None,
    }
}

/// `str::parse::<u32>`: an optional `+`, then decimal digits, within the range of `u32`.
fn parse_u32(s: &str) -> (r: Option<u32>)
    ensures
        r == u32_parsed(s@),
{
    let v = to_chars(s);
    if v.len() == 0 {
        return None;
    }
    let start: usize = if v[0] == '+' {
        1
    } else {
        0
    };
    if start == v.len() {
        assert(v@.skip(1).len() == 0);
        return None;
    }
    assert(start == 0 ==> v@.skip(0) =~= v@);
    proof {
        lemma_digits_nonnegative(v@.skip(start as int));
        assert(s@[0] == v@[0]);
        if start == 1 {
            assert(s@.skip(1) =~= v@.skip(1));
        }
    }
    let r = digits_up_to(&v, start, 4294967295);
    match r {
        Some(m) => {
            assert(m <= 4294967295);
            Some(m as u32)
        },
        None => None,
    }
}

/// What chrono gives for midnight of a calendar date, in milliseconds since the Unix epoch, or
/// nothing for a date that does not exist.
pub uninterp spec fn midnight_millis(y: i32, m: u32, d: u32) -> Option<i64>;

/// `chrono::NaiveDate::from_ymd_opt`, then `and_hms(0, 0, 0)` and `timestamp_millis`. Besides
/// naming the result, the contract states what chrono documents: an invalid month or day gives
/// nothing.
#[verifier::external_body]
#[allow(deprecated)]
fn date_midnight_millis(y: i32, m: u32, d: u32) -> (r: Option<i64>)
    ensures
        r == midnight_millis(y, m, d),
        (m == 0 || m > 12 || d == 0 || d > 31) ==> r is None,
{
    match chrono::NaiveDate::from_ymd_opt(y, m, d) {
        Some(date) => Some(date.and_hms(0, 0, 0).timestamp_millis()),
        None => None,
    }
}

/// What `std::path::Path::strip_prefix` gives: the path relative to `root`, if it lies under it.
pub uninterp spec fn path_under(path: Seq<char>, root: Seq<char>) -> Option<Seq<char>>;

/// `std::path::Path::strip_prefix`, on paths given as text. The contract names the result and
/// claims nothing more of it.
#[verifier::external_body]
pub(crate) fn strip_root_path(path: &str, root: &str) -> (r: Option<String>)
    ensures
        match r {
            Some(p) => path_under(path@, root@) == Some(p@),
            None => path_under(path@, root@) is None,
        },
{
    match std::path::Path::new(path).strip_prefix(root) {
        Ok(p) => Some(p.to_string_lossy().into_owned()),
        Err(_) => None,
    }
}

/// The first three `-` separated pieces of a text, the last taking the rest (`splitn(3, '-')`).
pub open spec fn split3(s: Seq<char>) -> Seq<Seq<char>> {
    match find_from(s, 0, s.len() as int, seq!['-']) {
        None => seq![s],
        Some(i) => match find_from(s, i + 1, s.len() as int, seq!['-']) {
            None => seq![s.subrange(0, i), s.subrange(i + 1, s.len() as int)],
            Some(j) => seq![
                s.subrange(0, i),
                s.subrange(i + 1, j),
                s.subrange(j + 1, s.len() as int),
            ],
        },
    }
}

/// The time a journal page stands for: midnight of the date in its `year-month-day` title, or
/// 0 when the title is not such a date.
pub open spec fn journal_time(title: Seq<char>) -> u64 {
    let p = split3(title);
    if p.len() == 3 {
        match (i32_parsed(p[0]), u32_parsed(p[1]), u32_parsed(p[2])) {
            (Some(y), Some(m), Some(d)) => match midnight_millis(y, m, d) {
                Some(t) => t as u64,
                None => 0,
            },
            _ => 0,
        }
    } else {
        0
    }
}

fn journal_date_time(title: &str) -> (r: u64)
    ensures
        r == journal_time(title@),
{
    let v = to_chars(title);
    let n = v.len();
    let dash = vec!['-'];
    assert(dash@ =~= seq!['-']);
    proof {
        crate::chars::lemma_find_from_bounds(v@, 0, n as int, dash@);
    }
    let i = match find(&v, 0, n, dash.as_slice()) {
        None => {
            return 0;
        },
        Some(i) => i,
    };
    proof {
        crate::chars::lemma_find_from_bounds(v@, i + 1, n as int, dash@);
    }
    let j = match find(&v, i + 1, n, dash.as_slice()) {
        None => {
            return 0;
        },
        Some(j) => j,
    };
    let ys = string_of(&v, 0, i);
    let ms = string_of(&v, i + 1, j);
    let ds = string_of(&v, j + 1, n);
    assert(split3(title@) =~= seq![ys@, ms@, ds@]);
    match (parse_i32(ys.as_str()), parse_u32(ms.as_str()), parse_u32(ds.as_str())) {
        (Some(y), Some(m), Some(d)) => match date_midnight_millis(y, m, d) {
            Some(t) => {
                #[verifier::truncate]
                (t as u64)
            },
            None => 0,
        },
        _ => 0,
    }
}

/// A page as read from disk, before its blocks get their ids.
#[derive(Debug, PartialEq, Eq)]
pub struct LogseqRawPage {
    pub path: String,
    pub base_id: usize,
    pub attrs: crate::attr_map::AttrMap,
    pub blocks: Vec<crate::logseq::blocks::LogseqRawBlock>,
    pub created_time: Option<u64>,
    pub updated_time: Option<u64>,
    pub metadata_entry: Option<(PageMatchType, MetadataDbPage)>,
    pub hash: Vec<u8>,
}

/// Mathematical model of a database change.
pub struct UpdateModel {
    pub match_type: Option<PageMatchType>,
    pub entry: PageRecord,
}

pub open spec fn update_model(u: Option<MetadataDbPageUpdate>) -> Option<UpdateModel> {
    match u {
        Some(x) => Some(UpdateModel { match_type: x.match_type, entry: x.entry.model() }),
        None => None,
    }
}

/// The legacy timestamps of the page with this title, looked up by lowercased title.
pub open spec fn legacy_for(legacy: Map<Seq<char>, PageMetadata>, title: Option<Seq<char>>) -> Option<
    PageMetadata,
> {
    match title {
        Some(t) => if legacy.contains_key(lowercase_of(t)) {
            Some(legacy[lowercase_of(t)])
        } else {
            None
        },
        None => None,
    }
}

/// The time to fall back on, and the creation time as the file system and legacy data tell it.
/// A journal's both are its date; another page's fallback is 0 and its creation time the legacy
/// one, else the file's.
pub open spec fn base_times(
    legacy: Option<PageMetadata>,
    title: Option<Seq<char>>,
    created: Option<u64>,
    is_journal: bool,
) -> (u64, u64) {
    if is_journal {
        let t = journal_time(
            match title {
                Some(t) => t,
                None => Seq::empty(),
            },
        );
        (t, t)
    } else {
        (
            0,
            match legacy {
                Some(m) => m.created_time,
                None => match created {
                    Some(c) => c,
                    None => 0,
                },
            },
        )
    }
}

/// The edit time as the file system and legacy data tell it: when the file's times are equal
/// and legacy data exists, the later of the legacy edit time and the creation time; otherwise
/// the file's edit time, else the legacy one, else the fallback.
pub open spec fn fs_edit_time(
    legacy: Option<PageMetadata>,
    created: Option<u64>,
    updated: Option<u64>,
    default_time: u64,
    fs_create: u64,
) -> u64 {
    if created is Some && updated == created && legacy is Some {
        let e = legacy->0.edited_time;
        if e >= fs_create {
            e
        } else {
            fs_create
        }
    } else {
        match updated {
            Some(u) => u,
            None => match legacy {
                Some(m) => m.edited_time,
                None => default_time,
            },
        }
    }
}

/// The database change and the page's created and edited times. A record whose hash matches
/// keeps its times (and is updated only if it was found by hash, the file having been renamed);
/// a record whose hash changed keeps its creation time and takes the file's edit time; with no
/// record, a new one is made from the file-system times.
pub open spec fn resolve_spec(
    legacy: Map<Seq<char>, PageMetadata>,
    root: Seq<char>,
    path: Seq<char>,
    hash: Seq<u8>,
    created: Option<u64>,
    updated: Option<u64>,
    entry: Option<(PageMatchType, PageRecord)>,
    title: Option<Seq<char>>,
    is_journal: bool,
) -> (Option<UpdateModel>, u64, u64) {
    let lm = legacy_for(legacy, title);
    let (default_time, fs_create) = base_times(lm, title, created, is_journal);
    let fs_edit = fs_edit_time(lm, created, updated, default_time, fs_create);
    match entry {
        Some((mt, meta)) => if meta.hash == hash {
            (
                if mt == PageMatchType::ByHash {
                    Some(UpdateModel { match_type: Some(mt), entry: meta })
                } else {
                    None
                },
                meta.created_at as u64,
                meta.edited_at as u64,
            )
        } else {
            (
                Some(
                    UpdateModel {
                        match_type: Some(mt),
                        entry: PageRecord {
                            filename: meta.filename,
                            hash,
                            created_at: meta.created_at,
                            edited_at: (match updated {
                                Some(u) => u,
                                None => 0,
                            }) as i64,
                        },
                    },
                ),
                meta.created_at as u64,
                fs_edit,
            )
        },
        None => (
            Some(
                UpdateModel {
                    match_type: None,
                    entry: PageRecord {
                        filename: match path_under(path, root) {
                            Some(p) => p,
                            None => path,
                        },
                        hash,
                        created_at: fs_create as i64,
                        edited_at: fs_edit as i64,
                    },
                },
            ),
            fs_create,
            fs_edit,
        ),
    }
}

fn bytes_eq(a: &Vec<u8>, b: &Vec<u8>) -> (r: bool)
    ensures
        r == (a@ == b@),
{
    if a.len() != b.len() {
        return false;
    }
    let mut i: usize = 0;
    while i < a.len()
        invariant
            a@.len() == b@.len(),
            i <= a@.len(),
            forall|k: int| 0 <= k < i ==> a@[k] == b@[k],
        decreases a@.len() - i,
    {
        if a[i] != b[i] {
            return false;
        }
        i = i + 1;
    }
    assert(a@ =~= b@);
    true
}

fn copy_bytes(a: &Vec<u8>) -> (r: Vec<u8>)
    ensures
        r@ == a@,
{
    let mut r: Vec<u8> = Vec::new();
    let mut i: usize = 0;
    while i < a.len()
        invariant
            i <= a@.len(),
            r@ == a@.take(i as int),
        decreases a@.len() - i,
    {
        r.push(a[i]);
        assert(r@ =~= a@.take(i + 1));
        i = i + 1;
    }
    assert(a@.take(a@.len() as int) =~= a@);
    r
}

fn to_u64(x: i64) -> (r: u64)
    ensures
        r == x as u64,
{
    #[verifier::truncate]
    (x as u64)
}

fn to_i64(x: u64) -> (r: i64)
    ensures
        r == x as i64,
{
    #[verifier::truncate]
    (x as i64)
}

/// The page's created and edited times and the change to make to the metadata database (see
/// `resolve_spec`). Takes the page's database record out of it.
pub fn resolve_metadata(
    legacy: &LegacyMetadata,
    root: &str,
    page: &mut LogseqRawPage,
    title: &Option<String>,
    is_journal: bool,
) -> (r: (Option<MetadataDbPageUpdate>, u64, u64))
    ensures
        final(page).metadata_entry is None,
        final(page).path == old(page).path,
        final(page).hash == old(page).hash,
        final(page).created_time == old(page).created_time,
        final(page).updated_time == old(page).updated_time,
        final(page).base_id == old(page).base_id,
        final(page).blocks == old(page).blocks,
        final(page).attrs == old(page).attrs,
        ({
            let (u, c, e) = resolve_spec(
                legacy@,
                root@,
                old(page).path@,
                old(page).hash@,
                old(page).created_time,
                old(page).updated_time,
                match old(page).metadata_entry {
                    Some((mt, m)) => Some((mt, m.model())),
                    None => None,
                },
                match title {
                    Some(t) => Some(t@),
                    None => None,
                },
                is_journal,
            );
            update_model(r.0) == u && r.1 == c && r.2 == e
        }),
{
    let ghost tv = match title {
        Some(t) => Some(t@),
        None => None::<Seq<char>>,
    };
    let legacy_meta = match title {
        Some(t) => {
            let lower = crate::logseq::file::to_lowercase(t.as_str());
            legacy.get(lower.as_str())
        },
        None => None,
    };
    assert(legacy_meta == legacy_for(legacy@, tv));
    let (default_time, fs_create_time) = if is_journal {
        let t = match title {
            Some(t) => journal_date_time(t.as_str()),
            None => journal_date_time(""),
        };
        proof {
            reveal_strlit("");
        }
        (t, t)
    } else {
        let c = match legacy_meta {
            Some(m) => m.created_time,
            None => match page.created_time {
                Some(c) => c,
                None => 0,
            },
        };
        (0, c)
    };
    assert((default_time, fs_create_time) == base_times(
        legacy_meta,
        tv,
        page.created_time,
        is_journal,
    ));
    let fs_edit = if page.created_time.is_some() && page.updated_time == page.created_time
        && legacy_meta.is_some() {
        let e = legacy_meta.unwrap().edited_time;
        if e >= fs_create_time {
            e
        } else {
            fs_create_time
        }
    } else {
        match page.updated_time {
            Some(u) => u,
            None => match legacy_meta {
                Some(m) => m.edited_time,
                None => default_time,
            },
        }
    };
    let entry = page.metadata_entry.take();
    match entry {
        Some((match_type, meta)) => {
            if bytes_eq(&meta.hash, &page.hash) {
                let created_at = to_u64(meta.created_at);
                let edited_at = to_u64(meta.edited_at);
                let db_update = match match_type {
                    PageMatchType::ByHash => Some(
                        MetadataDbPageUpdate { match_type: Some(match_type), entry: meta },
                    ),
                    PageMatchType::ByFilename => None,
                };
                (db_update, created_at, edited_at)
            } else {
                let created_at = meta.created_at;
                let edited = match page.updated_time {
                    Some(u) => u,
                    None => 0,
                };
                let update = MetadataDbPageUpdate {
                    match_type: Some(match_type),
                    entry: MetadataDbPage {
                        filename: meta.filename,
                        hash: copy_bytes(&page.hash),
                        created_at,
                        edited_at: to_i64(edited),
                    },
                };
                (Some(update), to_u64(created_at), fs_edit)
            }
        },
        None => {
            let filename = match strip_root_path(page.path.as_str(), root) {
                Some(p) => p,
                None => page.path.clone(),
            };
            let update = MetadataDbPageUpdate {
                match_type: None,
                entry: MetadataDbPage {
                    filename,
                    hash: copy_bytes(&page.hash),
                    created_at: to_i64(fs_create_time),
                    edited_at: to_i64(fs_edit),
                },
            };
            (Some(update), fs_create_time, fs_edit)
        },
    }
}

/// Why legacy page metadata could not be read.
#[derive(Debug, Clone, PartialEq, Eq)]
pub enum LegacyMetadataError {
    /// The text is not EDN that edn_rs reads; the printed form of its error.
    Parse(String),
    /// The EDN is not a vector.
    NotAList,
    /// An entry without a `:block/name` string.
    NoBlockName,
    /// Text that edn_rs cannot read safely (see `edn_readable`).
    Unreadable,
}

/// Mathematical model of a `LegacyMetadataError`.
pub enum LegacyErrorModel {
    Parse(Seq<char>),
    NotAList,
    NoBlockName,
    Unreadable,
}

impl LegacyMetadataError {
    pub open spec fn model(self) -> LegacyErrorModel {
        match self {
            LegacyMetadataError::Parse(m) => LegacyErrorModel::Parse(m@),
            LegacyMetadataError::NotAList => LegacyErrorModel::NotAList,
            LegacyMetadataError::NoBlockName => LegacyErrorModel::NoBlockName,
            LegacyMetadataError::Unreadable => LegacyErrorModel::Unreadable,
        }
    }
}

/// A timestamp of a legacy entry: the number under `key`, or 0.
pub open spec fn legacy_time(es: Seq<(Seq<char>, EdnModel)>, key: Seq<char>) -> u64 {
    match map_value(es, key) {
        Some(v) => match uint_of(v) {
            Some(n) => n,
            None => 0,
        },
        None => 0,
    }
}

/// A legacy entry: the trimmed `:block/name` of a map, with its `:block/created-at` and
/// `:block/updated-at` times; nothing for a value that is not a map with a name.
pub open spec fn legacy_entry(e: EdnModel) -> Option<(Seq<char>, PageMetadata)> {
    match e {
        EdnModel::Entries(es) => match map_value(es, ":block/name"@) {
            Some(EdnModel::Str(n)) => Some(
                (
                    trimmed(n),
                    PageMetadata {
                        created_time: legacy_time(es, ":block/created-at"@),
                        edited_time: legacy_time(es, ":block/updated-at"@),
                    },
                ),
            ),
            _ => None,
        },
        _ => None,
    }
}

/// The entries of a list of legacy values, in order; nothing when one of them has no name.
pub open spec fn legacy_entries(s: Seq<EdnModel>) -> Option<Seq<(Seq<char>, PageMetadata)>>
    decreases s.len(),
{
    if s.len() == 0 {
        Some(Seq::empty())
    } else {
        match (legacy_entries(s.drop_last()), legacy_entry(s.last())) {
            (Some(a), Some(x)) => Some(a.push(x)),
            _ => None,
        }
    }
}

/// What the text of a `pages-metadata.edn` file holds: a vector of entries.
/// The text is read with each run of separators between values as one space.
pub open spec fn legacy_of_text(text: Seq<char>) -> Result<Seq<(Seq<char>, PageMetadata)>, LegacyErrorModel> {
    let t = collapse(text);
    if !edn_readable(t) {
        Err(LegacyErrorModel::Unreadable)
    } else {
        match edn_read(t) {
            Err(m) => Err(LegacyErrorModel::Parse(m)),
            Ok(EdnModel::Vector(v)) => match legacy_entries(v) {
                Some(es) => Ok(es),
                None => Err(LegacyErrorModel::NoBlockName),
            },
            Ok(_) => Err(LegacyErrorModel::NotAList),
        }
    }
}

pub open spec fn legacy_entry_views(e: Seq<(String, PageMetadata)>) -> Seq<(Seq<char>, PageMetadata)> {
    e.map_values(|p: (String, PageMetadata)| (p.0@, p.1))
}

fn legacy_time_of(es: &Vec<(String, EdnValue)>, key: &str) -> (r: u64)
    ensures
        r == legacy_time(entry_models(es@), key@),
{
    match map_entry(es, key) {
        Some(v) => match uint_value(v) {
            Some(n) => n,
            None => 0,
        },
        None => 0,
    }
}

/// Once an entry has no name, the list has none either.
proof fn lemma_legacy_none_extends(s: Seq<EdnModel>, k: int)
    requires
        0 <= k <= s.len(),
        legacy_entries(s.take(k)) is None,
    ensures
        legacy_entries(s) is None,
    decreases s.len() - k,
{
    if k < s.len() {
        assert(s.take(k + 1).drop_last() =~= s.take(k));
        lemma_legacy_none_extends(s, k + 1);
    } else {
        assert(s.take(k) =~= s);
    }
}

impl LegacyMetadata {
    /// Read the text of a `pages-metadata.edn` file (see `legacy_of_text`).
    pub fn from_edn(text: &str) -> (r: Result<LegacyMetadata, LegacyMetadataError>)
        ensures
            match r {
                Ok(m) => legacy_of_text(text@) == Ok::<_, LegacyErrorModel>(legacy_entry_views(m.entries@)),
                Err(e) => legacy_of_text(text@) == Err::<Seq<(Seq<char>, PageMetadata)>, _>(e.model()),
            },
    {
        let collapsed = collapse_separators(text);
        if !edn_text_readable(collapsed.as_str()) {
            return Err(LegacyMetadataError::Unreadable);
        }
        let values = match read_edn(collapsed.as_str()) {
            Err(m) => {
                return Err(LegacyMetadataError::Parse(m));
            },
            Ok(EdnValue::Vector(v)) => v,
            Ok(_) => {
                return Err(LegacyMetadataError::NotAList);
            },
        };
        let ghost vm = models(values@);
        proof {
            lemma_models(values@);
        }
        assert(edn_read(collapsed@) == Ok::<EdnModel, Seq<char>>(EdnModel::Vector(vm)));
        let mut entries: Vec<(String, PageMetadata)> = Vec::new();
        let mut i: usize = 0;
        assert(vm.take(0) =~= Seq::<EdnModel>::empty());
        assert(legacy_entry_views(entries@) =~= Seq::<(Seq<char>, PageMetadata)>::empty());
        while i < values.len()
            invariant
                i <= values@.len(),
                vm == models(values@),
                collapsed@ == collapse(text@),
                edn_readable(collapsed@),
                edn_read(collapsed@) == Ok::<EdnModel, Seq<char>>(EdnModel::Vector(vm)),
                vm.len() == values@.len(),
                forall|j: int| 0 <= j < values@.len() ==> #[trigger] vm[j] == values@[j].model(),
                legacy_entries(vm.take(i as int)) == Some(legacy_entry_views(entries@)),
            decreases values@.len() - i,
        {
            let ghost next = vm.take(i + 1);
            assert(next.drop_last() =~= vm.take(i as int));
            assert(next.last() == values@[i as int].model());
            let entry = match &values[i] {
                EdnValue::Entries(es) => match map_entry(es, ":block/name") {
                    Some(EdnValue::Str(n)) => Some(
                        (
                            trim_text(n),
                            PageMetadata {
                                created_time: legacy_time_of(es, ":block/created-at"),
                                edited_time: legacy_time_of(es, ":block/updated-at"),
                            },
                        ),
                    ),
                    _ => None,
                },
                _ => None,
            };
            match entry {
                Some(e) => {
                    let ghost before = legacy_entry_views(entries@);
                    entries.push(e);
                    assert(legacy_entry_views(entries@) =~= before.push((e.0@, e.1)));
                },
                None => {
                    proof {
                        lemma_legacy_none_extends(vm, i + 1);
                    }
                    return Err(LegacyMetadataError::NoBlockName);
                },
            }
            i = i + 1;
        }
        assert(vm.take(values@.len() as int) =~= vm);
        Ok(LegacyMetadata { entries })
    }
}

} // verus!
