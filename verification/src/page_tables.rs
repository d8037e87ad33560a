//! The tables through which pages find each other: by title, by the original case of a file
//! name, and by id.
use vstd::prelude::*;

use crate::render::{IdSlugUid, PageTables, TitleSlugUid};

verus! {

/// A page as the tables list it: the title of its own block, the title in the original case of
/// its file name, and how other pages see it.
#[derive(Debug)]
pub struct PageListing {
    pub page_title: Option<String>,
    pub original_title: Option<String>,
    pub entry: IdSlugUid,
}

/// The title under which a page is listed: the title of its block, or nothing.
pub open spec fn listing_title(l: PageListing) -> Seq<char> {
    match l.page_title {
        Some(t) => t@,
        None => Seq::empty(),
    }
}

/// Whether no page after the `i`th is listed under its title, so that the title leads to it.
pub open spec fn title_kept(ls: Seq<PageListing>, i: int) -> bool {
    forall|j: int| i < j < ls.len() ==> listing_title(#[trigger] ls[j]) != listing_title(ls[i])
}

/// Model of an entry of the table by id.
pub open spec fn by_id_model(p: (usize, TitleSlugUid)) -> (usize, Seq<char>, Seq<char>, Seq<char>, bool, bool) {
    (p.0, p.1.title@, p.1.slug@, p.1.uid@, p.1.included, p.1.allow_embed)
}

/// The entry by id of a listed page.
pub open spec fn listing_by_id(l: PageListing) -> (usize, Seq<char>, Seq<char>, Seq<char>, bool, bool) {
    (l.entry.id, listing_title(l), l.entry.slug@, l.entry.uid@, l.entry.included, l.entry.allow_embed)
}

/// The entries by id of the first `k` pages whose titles lead to them, in order.
pub open spec fn by_id_entries(ls: Seq<PageListing>, k: int) -> Seq<(usize, Seq<char>, Seq<char>, Seq<char>, bool, bool)>
    decreases k,
{
    if k <= 0 {
        Seq::empty()
    } else if title_kept(ls, k - 1) {
        by_id_entries(ls, k - 1).push(listing_by_id(ls[k - 1]))
    } else {
        by_id_entries(ls, k - 1)
    }
}

/// The original titles of file names of the first `k` pages that have one and a title of their
/// own, mapped to that title, in order.
pub open spec fn filename_titles(ls: Seq<PageListing>, k: int) -> Seq<(Seq<char>, Seq<char>)>
    decreases k,
{
    if k <= 0 {
        Seq::empty()
    } else {
        match (ls[k - 1].original_title, ls[k - 1].page_title) {
            (Some(o), Some(t)) => filename_titles(ls, k - 1).push((o@, t@)),
            _ => filename_titles(ls, k - 1),
        }
    }
}

pub open spec fn pair_texts(s: Seq<(String, String)>) -> Seq<(Seq<char>, Seq<char>)> {
    s.map_values(|p: (String, String)| (p.0@, p.1@))
}

pub open spec fn by_id_models(s: Seq<(usize, TitleSlugUid)>) -> Seq<(usize, Seq<char>, Seq<char>, Seq<char>, bool, bool)> {
    s.map_values(|p: (usize, TitleSlugUid)| by_id_model(p))
}

fn title_of(l: &PageListing) -> (r: String)
    ensures
        r@ == listing_title(*l),
{
    match &l.page_title {
        Some(t) => t.clone(),
        None => String::new(),
    }
}

/// Whether no listing after the `i`th has the same title.
fn is_title_kept(ls: &Vec<PageListing>, i: usize) -> (r: bool)
    requires
        i < ls@.len(),
    ensures
        r == title_kept(ls@, i as int),
{
    let t = crate::chars::to_chars(title_of(&ls[i]).as_str());
    let n = ls.len();
    let mut j = i + 1;
    while j < ls.len()
        invariant
            i < j <= ls@.len(),
            t@ == listing_title(ls@[i as int]),
            forall|m: int| i < m < j ==> listing_title(#[trigger] ls@[m]) != listing_title(ls@[i as int]),
        decreases ls@.len() - j,
    {
        let other = title_of(&ls[j]);
        if crate::chars::chars_equal(&t, other.as_str()) {
            return false;
        }
        j = j + 1;
    }
    true
}

/// The tables of pages: every page by its title, in order, so that of pages with the same title
/// the last is found; the pages whose titles lead to them by id; and the titles in the original
/// case of file names mapped to the pages' titles.
pub fn page_tables(listings: Vec<PageListing>, omitted_attributes: Vec<String>) -> (r: PageTables)
    ensures
        r.pages_by_title@.len() == listings@.len(),
        forall|i: int|
            0 <= i < listings@.len() ==> (#[trigger] r.pages_by_title@[i]).0@ == listing_title(listings@[i])
                && r.pages_by_title@[i].1 == listings@[i].entry,
        by_id_models(r.pages_by_id@) == by_id_entries(listings@, listings@.len() as int),
        pair_texts(r.pages_by_filename_title@) == filename_titles(listings@, listings@.len() as int),
        r.omitted_attributes == omitted_attributes,
{
    let ghost ls = listings@;
    let n = listings.len();
    let mut by_id: Vec<(usize, TitleSlugUid)> = Vec::new();
    let mut by_filename: Vec<(String, String)> = Vec::new();
    let mut i: usize = 0;
    assert(by_id_models(by_id@) =~= by_id_entries(ls, 0));
    assert(pair_texts(by_filename@) =~= filename_titles(ls, 0));
    while i < n
        invariant
            n == ls.len(),
            ls == listings@,
            i <= n,
            by_id_models(by_id@) == by_id_entries(ls, i as int),
            pair_texts(by_filename@) == filename_titles(ls, i as int),
        decreases n - i,
    {
        let l = &listings[i];
        if is_title_kept(&listings, i) {
            let t = TitleSlugUid {
                title: title_of(l),
                slug: l.entry.slug.clone(),
                uid: l.entry.uid.clone(),
                included: l.entry.included,
                allow_embed: l.entry.allow_embed,
            };
            let ghost before = by_id_models(by_id@);
            by_id.push((l.entry.id, t));
            assert(by_id_models(by_id@) =~= before.push(listing_by_id(ls[i as int])));
        }
        match (&l.original_title, &l.page_title) {
            (Some(o), Some(t)) => {
                let ghost before = pair_texts(by_filename@);
                by_filename.push((o.clone(), t.clone()));
                assert(pair_texts(by_filename@) =~= before.push((o@, t@)));
            },
            _ => {},
        }
        i = i + 1;
    }
    let mut rest = listings;
    let mut by_title_rev: Vec<(String, IdSlugUid)> = Vec::new();
    while rest.len() > 0
        invariant
            rest@ == ls.take(rest@.len() as int),
            rest@.len() + by_title_rev@.len() == ls.len(),
            forall|j: int|
                0 <= j < by_title_rev@.len() ==> (#[trigger] by_title_rev@[j]).0@ == listing_title(
                    ls[ls.len() - 1 - j],
                ) && by_title_rev@[j].1 == ls[ls.len() - 1 - j].entry,
        decreases rest@.len(),
    {
        let l = rest.pop().unwrap();
        assert(rest@ =~= ls.take(rest@.len() as int));
        let title = title_of(&l);
        by_title_rev.push((title, l.entry));
    }
    let mut pages_by_title: Vec<(String, IdSlugUid)> = Vec::new();
    while by_title_rev.len() > 0
        invariant
            by_title_rev@.len() + pages_by_title@.len() == ls.len(),
            forall|j: int|
                0 <= j < by_title_rev@.len() ==> (#[trigger] by_title_rev@[j]).0@ == listing_title(
                    ls[ls.len() - 1 - j],
                ) && by_title_rev@[j].1 == ls[ls.len() - 1 - j].entry,
            forall|j: int|
                0 <= j < pages_by_title@.len() ==> (#[trigger] pages_by_title@[j]).0@ == listing_title(ls[j])
                    && pages_by_title@[j].1 == ls[j].entry,
        decreases by_title_rev@.len(),
    {
        let p = by_title_rev.pop().unwrap();
        pages_by_title.push(p);
    }
    PageTables {
        pages_by_title,
        pages_by_filename_title: by_filename,
        pages_by_id: by_id,
        omitted_attributes,
    }
}

} // verus!
