//! Tags for a page from the words its blocks contain: each search word, found as a whole word
//! and in any case, gives its tag.
use vstd::prelude::*;

use crate::attr_map::texts;
use crate::graph::ParsedPage;

verus! {

#[verifier::external_type_specification]
#[verifier::external_body]
pub struct ExRegexSet(regex::RegexSet);

/// Search patterns together with the set that `regex` compiled from them, case-insensitively.
/// Only `build_matcher` makes one, so the set always belongs to the patterns.
pub struct TagMatcher {
    patterns: Vec<String>,
    set: regex::RegexSet,
}

impl TagMatcher {
    pub closed spec fn patterns(&self) -> Seq<Seq<char>> {
        texts(self.patterns@)
    }
}

/// Whether `regex` compiles the patterns, case-insensitively, into one set.
pub uninterp spec fn set_builds(patterns: Seq<Seq<char>>) -> bool;

/// The indices of the patterns of a case-insensitive set that match in `text`.
pub uninterp spec fn set_matches(patterns: Seq<Seq<char>>, text: Seq<char>) -> Seq<usize>;

/// The characters that mean something in a regex pattern (regex-syntax's `is_meta_character`).
pub open spec fn is_regex_meta(c: char) -> bool {
    c == '\\' || c == '.' || c == '+' || c == '*' || c == '?' || c == '(' || c == ')' || c == '|'
        || c == '[' || c == ']' || c == '{' || c == '}' || c == '^' || c == '$' || c == '#' || c
        == '&' || c == '-' || c == '~'
}

/// What `regex::escape` gives: the text with a backslash before every character that means
/// something in a pattern.
pub open spec fn regex_escaped(s: Seq<char>) -> Seq<char>
    decreases s.len(),
{
    if s.len() == 0 {
        Seq::empty()
    } else {
        regex_escaped(s.drop_last()) + if is_regex_meta(s.last()) {
            seq!['\\', s.last()]
        } else {
            seq![s.last()]
        }
    }
}

/// `regex::RegexSetBuilder::new(patterns).case_insensitive(true).build()`. The contract names
/// whether it succeeds and keeps the patterns with the set.
#[verifier::external_body]
fn build_matcher(patterns: Vec<String>) -> (r: Option<TagMatcher>)
    ensures
        r is Some == set_builds(texts(patterns@)),
        r matches Some(m) ==> m.patterns() == texts(patterns@),
{
    match regex::RegexSetBuilder::new(&patterns).case_insensitive(true).build() {
        Ok(set) => Some(TagMatcher { patterns, set }),
        Err(_) => None,
    }
}

/// `regex::RegexSet::matches`, collected. The contract names the indices and states what the
/// documentation gives: each is the index of one of the patterns, in ascending order.
#[verifier::external_body]
fn matcher_matches(m: &TagMatcher, text: &str) -> (r: Vec<usize>)
    ensures
        r@ == set_matches(m.patterns(), text@),
        forall|i: int| 0 <= i < r@.len() ==> (#[trigger] r@[i]) < m.patterns().len(),
        forall|i: int, j: int| 0 <= i < j < r@.len() ==> r@[i] < r@[j],
{
    m.set.matches(text).into_iter().collect()
}

/// `regex::escape`, which writes a backslash before each meta character and keeps every other
/// character (regex-syntax's `escape_into`).
#[verifier::external_body]
fn escape_regex(s: &str) -> (r: String)
    ensures
        r@ == regex_escaped(s@),
{
    regex::escape(s)
}

/// Why tags could not be found.
#[derive(Debug, Clone, Copy, PartialEq, Eq, Structural)]
pub enum AutotagError {
    /// The search words do not compile into a pattern set.
    BadPattern,
    /// A block to search is not on the page.
    MissingBlock,
}

/// The pattern that finds a search word as a whole word.
pub open spec fn word_pattern(search: Seq<char>) -> Seq<char> {
    "(?:^|\\b)"@ + regex_escaped(search) + "(?:\\b|$)"@
}

pub open spec fn search_patterns(searches: Seq<(String, String)>) -> Seq<Seq<char>> {
    searches.map_values(|p: (String, String)| word_pattern(p.0@))
}

pub open spec fn search_tags(searches: Seq<(String, String)>) -> Seq<Seq<char>> {
    searches.map_values(|p: (String, String)| p.1@)
}

/// The tags of the patterns that matched, in the order of the matches.
pub open spec fn tags_of(tags: Seq<Seq<char>>, ms: Seq<usize>) -> Seq<Seq<char>> {
    ms.map_values(|k: usize| tags[k as int])
}

/// The tags found in a block and the blocks under it, depth first, or nothing if a block is
/// missing; `fuel` bounds the depth.
pub open spec fn found_tree(page: ParsedPage, pats: Seq<Seq<char>>, tags: Seq<Seq<char>>, id: int, fuel: nat) -> Option<Seq<Seq<char>>>
    decreases fuel, 0int,
{
    if fuel == 0 {
        Some(Seq::empty())
    } else if !(page.root_block <= id < page.root_block + page.blocks@.len()) {
        None
    } else {
        let b = page.blocks@[id - page.root_block];
        match found_children(page, pats, tags, b.children@, b.children@.len() as int, (fuel - 1) as nat) {
            None => None,
            Some(c) => Some(tags_of(tags, set_matches(pats, b.contents.string@)) + c),
        }
    }
}

pub open spec fn found_children(page: ParsedPage, pats: Seq<Seq<char>>, tags: Seq<Seq<char>>, children: Seq<usize>, n: int, fuel: nat) -> Option<Seq<Seq<char>>>
    decreases fuel, 1int, n,
{
    if n <= 0 || n > children.len() {
        Some(Seq::empty())
    } else {
        match found_children(page, pats, tags, children, n - 1, fuel) {
            None => None,
            Some(a) => match found_tree(page, pats, tags, children[n - 1] as int, fuel) {
                None => None,
                Some(t) => Some(a + t),
            },
        }
    }
}

/// The list with only the first occurrence of each entry.
pub open spec fn dedup_first(s: Seq<Seq<char>>) -> Seq<Seq<char>>
    decreases s.len(),
{
    if s.len() == 0 {
        Seq::empty()
    } else if dedup_first(s.drop_last()).contains(s.last()) {
        dedup_first(s.drop_last())
    } else {
        dedup_first(s.drop_last()).push(s.last())
    }
}

/// What `autotag` gives: the distinct tags found, in the order first found.
pub open spec fn autotag_spec(page: ParsedPage, searches: Seq<(String, String)>, start_block: usize) -> Result<Seq<Seq<char>>, AutotagError> {
    if !set_builds(search_patterns(searches)) {
        Err(AutotagError::BadPattern)
    } else {
        match found_tree(page, search_patterns(searches), search_tags(searches), start_block as int, page.blocks@.len()) {
            None => Err(AutotagError::MissingBlock),
            Some(t) => Ok(dedup_first(t)),
        }
    }
}

proof fn lemma_dedup_first(s: Seq<Seq<char>>)
    ensures
        dedup_first(s).no_duplicates(),
        forall|x: Seq<char>| dedup_first(s).contains(x) <==> s.contains(x),
    decreases s.len(),
{
    if s.len() > 0 {
        let init = s.drop_last();
        lemma_dedup_first(init);
        assert forall|x: Seq<char>| s.contains(x) <==> init.contains(x) || x == s.last() by {
            if s.contains(x) {
                let k = choose|k: int| 0 <= k < s.len() && s[k] == x;
                if k < s.len() - 1 {
                    assert(init[k] == x);
                }
            }
            if init.contains(x) {
                let k = choose|k: int| 0 <= k < init.len() && init[k] == x;
                assert(s[k] == x);
            }
            if x == s.last() {
                assert(s[s.len() - 1] == x);
            }
        }
        let d = dedup_first(init);
        if !d.contains(s.last()) {
            let e = d.push(s.last());
            assert forall|x: Seq<char>| e.contains(x) <==> d.contains(x) || x == s.last() by {
                if e.contains(x) {
                    let k = choose|k: int| 0 <= k < e.len() && e[k] == x;
                    if k < d.len() {
                        assert(d[k] == x);
                    }
                }
                if d.contains(x) {
                    let k = choose|k: int| 0 <= k < d.len() && d[k] == x;
                    assert(e[k] == x);
                }
                if x == s.last() {
                    assert(e[d.len() as int] == x);
                }
            }
        }
    }
}

/// The tags that `autotag` gives hold no tag twice, and are exactly the tags found in the text
/// of the start block and the blocks under it.
pub proof fn law_autotag_distinct_from_subtree(page: ParsedPage, searches: Seq<(String, String)>, start_block: usize)
    ensures
        autotag_spec(page, searches, start_block) matches Ok(t) ==> {
            &&& t.no_duplicates()
            &&& found_tree(page, search_patterns(searches), search_tags(searches), start_block as int, page.blocks@.len()) matches Some(f)
                && forall|x: Seq<char>| t.contains(x) <==> f.contains(x)
        },
{
    match found_tree(page, search_patterns(searches), search_tags(searches), start_block as int, page.blocks@.len()) {
        Some(f) => lemma_dedup_first(f),
        None => {},
    }
}

/// A pattern text read back: each backslash is dropped and the character after it kept.
pub open spec fn regex_unescaped(p: Seq<char>) -> Seq<char>
    decreases p.len(),
{
    if p.len() == 0 {
        Seq::empty()
    } else if p[0] == '\\' && p.len() >= 2 {
        seq![p[1]] + regex_unescaped(p.skip(2))
    } else {
        seq![p[0]] + regex_unescaped(p.skip(1))
    }
}

/// Every character of the pattern text that means something in a pattern stands right after a
/// backslash, so the text matches itself literally.
pub open spec fn literal_pattern(p: Seq<char>) -> bool
    decreases p.len(),
{
    if p.len() == 0 {
        true
    } else if p[0] == '\\' && p.len() >= 2 {
        literal_pattern(p.skip(2))
    } else {
        !is_regex_meta(p[0]) && literal_pattern(p.skip(1))
    }
}

proof fn lemma_escaped_concat(a: Seq<char>, b: Seq<char>)
    ensures
        regex_escaped(a + b) == regex_escaped(a) + regex_escaped(b),
    decreases b.len(),
{
    if b.len() == 0 {
        assert(a + b =~= a);
        assert(regex_escaped(a) + regex_escaped(b) =~= regex_escaped(a));
    } else {
        lemma_escaped_concat(a, b.drop_last());
        assert((a + b).drop_last() =~= a + b.drop_last());
        assert((a + b).last() == b.last());
    }
}

proof fn lemma_escaped_reads_back(w: Seq<char>)
    ensures
        regex_unescaped(regex_escaped(w)) == w,
        literal_pattern(regex_escaped(w)),
    decreases w.len(),
{
    if w.len() > 0 {
        let rest = w.skip(1);
        lemma_escaped_reads_back(rest);
        assert(w =~= seq![w[0]] + rest);
        lemma_escaped_concat(seq![w[0]], rest);
        assert(seq![w[0]].drop_last() =~= Seq::<char>::empty());
        assert(seq![w[0]].last() == w[0]);
        assert(regex_escaped(Seq::<char>::empty()) =~= Seq::<char>::empty());
        let head = regex_escaped(seq![w[0]]);
        let e = regex_escaped(w);
        if is_regex_meta(w[0]) {
            assert(head =~= seq!['\\', w[0]]);
            assert(e.skip(2) =~= regex_escaped(rest));
        } else {
            assert(head =~= seq![w[0]]);
            assert(e.skip(1) =~= regex_escaped(rest));
        }
        assert(regex_unescaped(e) =~= w);
    }
}

/// Each pattern that autotag hands to the regex set finds its search word only as a whole word:
/// it starts with "the start of the text or a word boundary", ends with "a word boundary or the
/// end of the text", and between the two holds the search word itself, every character of it
/// that means something in a pattern escaped so that it matches literally.
pub proof fn law_patterns_find_whole_words(searches: Seq<(String, String)>, i: int)
    requires
        0 <= i < searches.len(),
    ensures
        ({
            let p = search_patterns(searches)[i];
            let open = seq!['(', '?', ':', '^', '|', '\\', 'b', ')'];
            let close = seq!['(', '?', ':', '\\', 'b', '|', '$', ')'];
            let mid = p.subrange(open.len() as int, p.len() - close.len());
            &&& p.len() >= open.len() + close.len()
            &&& p.take(open.len() as int) == open
            &&& p.skip(p.len() - close.len()) == close
            &&& regex_unescaped(mid) == searches[i].0@
            &&& literal_pattern(mid)
        }),
{
    let w = searches[i].0@;
    let p = search_patterns(searches)[i];
    assert(p == word_pattern(w));
    reveal_strlit("(?:^|\\b)");
    reveal_strlit("(?:\\b|$)");
    let open = seq!['(', '?', ':', '^', '|', '\\', 'b', ')'];
    let close = seq!['(', '?', ':', '\\', 'b', '|', '$', ')'];
    assert("(?:^|\\b)"@ =~= open);
    assert("(?:\\b|$)"@ =~= close);
    let e = regex_escaped(w);
    assert(p == open + e + close);
    assert(p.take(open.len() as int) =~= open);
    assert(p.skip(p.len() - close.len()) =~= close);
    assert(p.subrange(open.len() as int, p.len() - close.len()) =~= e);
    lemma_escaped_reads_back(w);
}

fn contains_string(v: &Vec<String>, s: &String) -> (r: bool)
    ensures
        r == texts(v@).contains(s@),
{
    let mut i: usize = 0;
    while i < v.len()
        invariant
            i <= v@.len(),
            forall|k: int| 0 <= k < i ==> texts(v@)[k] != s@,
        decreases v@.len() - i,
    {
        let a = crate::chars::to_chars(v[i].as_str());
        if crate::chars::chars_equal(&a, s.as_str()) {
            assert(texts(v@)[i as int] == s@);
            return true;
        }
        i = i + 1;
    }
    false
}

fn add_found(found: &mut Vec<String>, tag: &String, Ghost(prior): Ghost<Seq<Seq<char>>>)
    requires
        texts(old(found)@) == dedup_first(prior),
    ensures
        texts(final(found)@) == dedup_first(prior.push(tag@)),
{
    assert(prior.push(tag@).drop_last() =~= prior);
    if !contains_string(found, tag) {
        let ghost t0 = texts(found@);
        found.push(tag.clone());
        assert(texts(found@) =~= t0.push(tag@));
    }
}

proof fn lemma_missing_stays_missing(
    page: ParsedPage,
    pats: Seq<Seq<char>>,
    tags: Seq<Seq<char>>,
    children: Seq<usize>,
    n: int,
    n2: int,
    fuel: nat,
)
    requires
        0 <= n <= n2 <= children.len(),
        found_children(page, pats, tags, children, n, fuel) is None,
    ensures
        found_children(page, pats, tags, children, n2, fuel) is None,
    decreases n2 - n,
{
    if n < n2 {
        assert(found_children(page, pats, tags, children, n + 1, fuel) is None);
        lemma_missing_stays_missing(page, pats, tags, children, n + 1, n2, fuel);
    }
}

fn walk(
    page: &ParsedPage,
    m: &TagMatcher,
    tags: &Vec<String>,
    id: usize,
    fuel: usize,
    found: &mut Vec<String>,
    Ghost(prior): Ghost<Seq<Seq<char>>>,
) -> (ok: bool)
    requires
        m.patterns().len() == tags@.len(),
        texts(old(found)@) == dedup_first(prior),
    ensures
        match found_tree(*page, m.patterns(), texts(tags@), id as int, fuel as nat) {
            None => !ok,
            Some(t) => ok && texts(final(found)@) == dedup_first(prior + t),
        },
    decreases fuel,
{
    if fuel == 0 {
        assert(prior + Seq::<Seq<char>>::empty() =~= prior);
        return true;
    }
    if id < page.root_block || id - page.root_block >= page.blocks.len() {
        return false;
    }
    let b = &page.blocks[id - page.root_block];
    let ms = matcher_matches(m, b.contents.string.as_str());
    let ghost own = tags_of(texts(tags@), ms@);
    let mut i: usize = 0;
    assert(prior + own.take(0) =~= prior);
    while i < ms.len()
        invariant
            i <= ms@.len(),
            own == tags_of(texts(tags@), ms@),
            m.patterns().len() == tags@.len(),
            forall|k: int| 0 <= k < ms@.len() ==> (#[trigger] ms@[k]) < m.patterns().len(),
            texts(found@) == dedup_first(prior + own.take(i as int)),
        decreases ms@.len() - i,
    {
        let k = ms[i];
        assert(k < tags@.len());
        add_found(found, &tags[k], Ghost(prior + own.take(i as int)));
        assert((prior + own.take(i as int)).push(tags@[k as int]@) =~= prior + own.take(i + 1));
        i = i + 1;
    }
    assert(own.take(ms@.len() as int) =~= own);
    let ghost after_own = prior + own;
    let mut j: usize = 0;
    assert(after_own + Seq::<Seq<char>>::empty() =~= after_own);
    while j < b.children.len()
        invariant
            0 < fuel,
            page.root_block <= id,
            id - page.root_block < page.blocks@.len(),
            *b == page.blocks@[id - page.root_block],
            own == tags_of(texts(tags@), set_matches(m.patterns(), b.contents.string@)),
            j <= b.children@.len(),
            after_own == prior + own,
            m.patterns().len() == tags@.len(),
            match found_children(*page, m.patterns(), texts(tags@), b.children@, j as int, (fuel - 1) as nat) {
                None => false,
                Some(c) => texts(found@) == dedup_first(after_own + c),
            },
        decreases b.children@.len() - j,
    {
        let ghost c = found_children(*page, m.patterns(), texts(tags@), b.children@, j as int, (fuel - 1) as nat)->0;
        if !walk(page, m, tags, b.children[j], fuel - 1, found, Ghost(after_own + c)) {
            proof {
                lemma_missing_stays_missing(*page, m.patterns(), texts(tags@), b.children@, j + 1, b.children@.len() as int, (fuel - 1) as nat);
            }
            return false;
        }
        proof {
            let t = found_tree(*page, m.patterns(), texts(tags@), b.children@[j as int] as int, (fuel - 1) as nat)->0;
            assert(after_own + c + t =~= after_own + (c + t));
        }
        j = j + 1;
    }
    proof {
        let c = found_children(*page, m.patterns(), texts(tags@), b.children@, b.children@.len() as int, (fuel - 1) as nat)->0;
        assert(prior + own + c =~= prior + (own + c));
    }
    true
}

/// The tags whose search word occurs, as a whole word and in any case, in the text of a block
/// from `start_block` down; each tag once, in the order first found. `searches` pairs each
/// search word with its tag. A page's blocks form a tree, so no path down is longer than the
/// number of its blocks.
pub fn autotag(page: &ParsedPage, searches: &Vec<(String, String)>, start_block: usize) -> (r: Result<Vec<String>, AutotagError>)
    ensures
        match autotag_spec(*page, searches@, start_block) {
            Ok(t) => r matches Ok(v) && texts(v@) == t,
            Err(e) => r == Err::<Vec<String>, AutotagError>(e),
        },
{
    let mut patterns: Vec<String> = Vec::new();
    let mut tags: Vec<String> = Vec::new();
    let mut i: usize = 0;
    while i < searches.len()
        invariant
            i <= searches@.len(),
            texts(patterns@) == search_patterns(searches@).take(i as int),
            texts(tags@) == search_tags(searches@).take(i as int),
        decreases searches@.len() - i,
    {
        let mut p = "(?:^|\\b)".to_owned();
        p.append(escape_regex(searches[i].0.as_str()).as_str());
        p.append("(?:\\b|$)");
        let ghost p0 = texts(patterns@);
        let ghost t0 = texts(tags@);
        patterns.push(p);
        tags.push(searches[i].1.clone());
        assert(texts(patterns@) =~= p0.push(word_pattern(searches@[i as int].0@)));
        assert(search_patterns(searches@).take(i + 1) =~= search_patterns(searches@).take(i as int).push(word_pattern(searches@[i as int].0@)));
        assert(texts(tags@) =~= t0.push(searches@[i as int].1@));
        assert(search_tags(searches@).take(i + 1) =~= search_tags(searches@).take(i as int).push(searches@[i as int].1@));
        i = i + 1;
    }
    assert(search_patterns(searches@).take(searches@.len() as int) =~= search_patterns(searches@));
    assert(search_tags(searches@).take(searches@.len() as int) =~= search_tags(searches@));
    let m = match build_matcher(patterns) {
        None => {
            return Err(AutotagError::BadPattern);
        },
        Some(m) => m,
    };
    let mut found: Vec<String> = Vec::new();
    assert(texts(found@) =~= dedup_first(Seq::<Seq<char>>::empty()));
    if walk(page, &m, &tags, start_block, page.blocks.len(), &mut found, Ghost(Seq::empty())) {
        proof {
            let t = found_tree(*page, m.patterns(), texts(tags@), start_block as int, page.blocks@.len())->0;
            assert(Seq::<Seq<char>>::empty() + t =~= t);
        }
        Ok(found)
    } else {
        Err(AutotagError::MissingBlock)
    }
}

} // verus!
