//! Relative links between output files.
use vstd::prelude::*;

use crate::chars::{push_char, to_chars};

verus! {

/// The pieces of `s` between occurrences of `sep`; there is always at least one.
pub open spec fn split_on(s: Seq<char>, sep: char) -> Seq<Seq<char>>
    decreases s.len(),
{
    if s.len() == 0 {
        seq![Seq::empty()]
    } else {
        let p = split_on(s.drop_last(), sep);
        if s.last() == sep {
            p.push(Seq::empty())
        } else {
            p.update(p.len() - 1, p.last().push(s.last()))
        }
    }
}

/// The pieces joined back together with `sep` between each two of them.
pub open spec fn join_with(parts: Seq<Seq<char>>, sep: char) -> Seq<char>
    decreases parts.len(),
{
    if parts.len() == 0 {
        Seq::empty()
    } else if parts.len() == 1 {
        parts[0]
    } else {
        join_with(parts.drop_last(), sep) + seq![sep] + parts.last()
    }
}

/// The number of leading pieces, from `i` on, on which `a` and `b` agree.
pub open spec fn common_from(a: Seq<Seq<char>>, b: Seq<Seq<char>>, i: int) -> int
    decreases a.len() - i,
{
    if 0 <= i < a.len() && i < b.len() && a[i] == b[i] {
        common_from(a, b, i + 1)
    } else {
        i
    }
}

/// The length of the longest common prefix of two lists of pieces.
pub open spec fn common_prefix(a: Seq<Seq<char>>, b: Seq<Seq<char>>) -> int {
    common_from(a, b, 0)
}

pub open spec fn path_pieces(s: Seq<char>) -> Seq<Seq<char>> {
    split_on(s, '/')
}

/// The directories of a path: its `/` separated pieces before the file name.
pub open spec fn dir_pieces(s: Seq<char>) -> Seq<Seq<char>> {
    path_pieces(s).drop_last()
}

/// `n` copies of `..`.
pub open spec fn ups(n: nat) -> Seq<Seq<char>> {
    Seq::new(n, |i: int| seq!['.', '.'])
}

/// The shortest link from the directory of the file `src` to the file `dest`, both relative to
/// the same root: one `..` for each directory of `src` below the directories the two share,
/// then the directories of `dest` below those, then the file name of `dest`.
pub open spec fn relative_link(src: Seq<char>, dest: Seq<char>) -> Seq<char> {
    let dp = path_pieces(dest);
    let common = common_prefix(dir_pieces(src), dir_pieces(dest));
    join_with(ups((dir_pieces(src).len() - common) as nat) + dp.subrange(common, dp.len() as int), '/')
}

/// The link that `link_path` gives.
pub open spec fn link_path_spec(src: Seq<char>, dest: Seq<char>, base: Option<Seq<char>>) -> Seq<
    char,
> {
    match base {
        Some(b) => b + dest,
        None => relative_link(src, dest),
    }
}

pub open spec fn views(v: Seq<String>) -> Seq<Seq<char>> {
    v.map_values(|x: String| x@)
}

proof fn lemma_split_nonempty(s: Seq<char>, sep: char)
    ensures
        split_on(s, sep).len() >= 1,
    decreases s.len(),
{
    if s.len() > 0 {
        lemma_split_nonempty(s.drop_last(), sep);
    }
}

proof fn lemma_common_from_agreeing(a: Seq<Seq<char>>, b: Seq<Seq<char>>, i: int, n: int)
    requires
        0 <= i <= n,
        n <= a.len(),
        n <= b.len(),
        forall|k: int| i <= k < n ==> a[k] == b[k],
    ensures
        common_from(a, b, i) >= n,
    decreases n - i,
{
    if i < n {
        assert(a[i] == b[i]);
        lemma_common_from_agreeing(a, b, i + 1, n);
    } else {
        lemma_common_from_bound(a, b, i);
    }
}

proof fn lemma_common_from_bound(a: Seq<Seq<char>>, b: Seq<Seq<char>>, i: int)
    requires
        0 <= i,
    ensures
        common_from(a, b, i) >= i,
        i <= a.len() && i <= b.len() ==> common_from(a, b, i) <= a.len() && common_from(a, b, i)
            <= b.len(),
    decreases a.len() - i,
{
    if 0 <= i < a.len() && i < b.len() && a[i] == b[i] {
        lemma_common_from_bound(a, b, i + 1);
    }
}

/// The link between two files in the same directory, or from a file to itself, is the
/// destination's file name.
pub proof fn law_link_within_directory(src: Seq<char>, dest: Seq<char>)
    requires
        dir_pieces(src) == dir_pieces(dest),
    ensures
        link_path_spec(src, dest, None) == path_pieces(dest).last(),
{
    let dp = path_pieces(dest);
    let dirs = dir_pieces(src);
    lemma_split_nonempty(dest, '/');
    lemma_common_from_agreeing(dirs, dirs, 0, dirs.len() as int);
    lemma_common_from_bound(dirs, dirs, 0);
    assert(ups(0) + dp.subrange(dirs.len() as int, dp.len() as int) =~= seq![dp.last()]);
}

/// Where following `pieces` from the directory `dirs` leads: `..` goes up one directory, any
/// other piece goes down into it.
pub open spec fn follow(dirs: Seq<Seq<char>>, pieces: Seq<Seq<char>>) -> Seq<Seq<char>>
    decreases pieces.len(),
{
    if pieces.len() == 0 {
        dirs
    } else if pieces[0] == seq!['.', '.'] {
        follow(dirs.take(dirs.len() - 1), pieces.drop_first())
    } else {
        follow(dirs.push(pieces[0]), pieces.drop_first())
    }
}

proof fn lemma_split_append_plain(x: Seq<char>, y: Seq<char>, sep: char)
    requires
        !y.contains(sep),
    ensures
        split_on(x + y, sep) == split_on(x, sep).update(
            split_on(x, sep).len() - 1,
            split_on(x, sep).last() + y,
        ),
    decreases y.len(),
{
    lemma_split_nonempty(x, sep);
    if y.len() == 0 {
        assert(x + y =~= x);
        assert(split_on(x, sep).last() + y =~= split_on(x, sep).last());
        assert(split_on(x, sep).update(split_on(x, sep).len() - 1, split_on(x, sep).last()) =~= split_on(x, sep));
    } else {
        let y0 = y.drop_last();
        assert(!y0.contains(sep)) by {
            if y0.contains(sep) {
                let k = choose|k: int| 0 <= k < y0.len() && y0[k] == sep;
                assert(y[k] == sep);
            }
        }
        assert(y[y.len() - 1] != sep);
        lemma_split_append_plain(x, y0, sep);
        assert((x + y).drop_last() =~= x + y0);
        assert((x + y).last() == y.last());
        let p = split_on(x + y0, sep);
        assert(split_on(x + y, sep) == p.update(p.len() - 1, p.last().push(y.last())));
        let q = split_on(x, sep);
        assert(p.len() == q.len());
        assert(p.last() == q.last() + y0);
        assert(q.last() + y0 + seq![y.last()] =~= q.last() + y);
        assert((q.last() + y0).push(y.last()) =~= q.last() + y);
        assert(split_on(x + y, sep) =~= q.update(q.len() - 1, q.last() + y));
    }
}

proof fn lemma_split_join(parts: Seq<Seq<char>>, sep: char)
    requires
        parts.len() >= 1,
        forall|i: int| 0 <= i < parts.len() ==> !(#[trigger] parts[i]).contains(sep),
    ensures
        split_on(join_with(parts, sep), sep) == parts,
    decreases parts.len(),
{
    if parts.len() == 1 {
        lemma_split_append_plain(Seq::empty(), parts[0], sep);
        assert(Seq::<char>::empty() + parts[0] =~= parts[0]);
        assert(seq![Seq::<char>::empty()].update(0, Seq::<char>::empty() + parts[0]) =~= parts);
    } else {
        let init = parts.drop_last();
        assert forall|i: int| 0 <= i < init.len() implies !(#[trigger] init[i]).contains(sep) by {
            assert(init[i] == parts[i]);
        }
        lemma_split_join(init, sep);
        let x = join_with(init, sep) + seq![sep];
        assert((join_with(init, sep) + seq![sep]).drop_last() =~= join_with(init, sep));
        assert(split_on(x, sep) == split_on(join_with(init, sep), sep).push(Seq::empty()));
        assert(!parts.last().contains(sep));
        lemma_split_append_plain(x, parts.last(), sep);
        assert(join_with(parts, sep) == x + parts.last());
        assert(Seq::<char>::empty() + parts.last() =~= parts.last());
        assert(init.push(Seq::empty()).update(init.len() as int, parts.last()) =~= parts);
    }
}

proof fn lemma_split_pieces_plain(s: Seq<char>, sep: char)
    ensures
        forall|i: int| 0 <= i < split_on(s, sep).len() ==> !(#[trigger] split_on(s, sep)[i]).contains(sep),
    decreases s.len(),
{
    if s.len() > 0 {
        lemma_split_pieces_plain(s.drop_last(), sep);
        lemma_split_nonempty(s.drop_last(), sep);
        let p = split_on(s.drop_last(), sep);
        if s.last() != sep {
            let q = p.last().push(s.last());
            assert(!q.contains(sep)) by {
                if q.contains(sep) {
                    let k = choose|k: int| 0 <= k < q.len() && q[k] == sep;
                    if k < p.last().len() {
                        assert(p[p.len() - 1][k] == sep);
                        assert(p[p.len() - 1].contains(sep));
                    }
                }
            }
            assert forall|i: int| 0 <= i < split_on(s, sep).len() implies !(#[trigger] split_on(s, sep)[i]).contains(sep) by {
                if i < p.len() - 1 {
                    assert(split_on(s, sep)[i] == p[i]);
                }
            }
        } else {
            assert forall|i: int| 0 <= i < split_on(s, sep).len() implies !(#[trigger] split_on(s, sep)[i]).contains(sep) by {
                if i < p.len() {
                    assert(split_on(s, sep)[i] == p[i]);
                } else {
                    assert(split_on(s, sep)[i] =~= Seq::<char>::empty());
                }
            }
        }
    }
}

proof fn lemma_follow_plain(dirs: Seq<Seq<char>>, pieces: Seq<Seq<char>>)
    requires
        forall|i: int| 0 <= i < pieces.len() ==> #[trigger] pieces[i] != seq!['.', '.'],
    ensures
        follow(dirs, pieces) == dirs + pieces,
    decreases pieces.len(),
{
    if pieces.len() == 0 {
        assert(dirs + pieces =~= dirs);
    } else {
        let rest = pieces.drop_first();
        assert(pieces[0] != seq!['.', '.']);
        assert forall|i: int| 0 <= i < rest.len() implies #[trigger] rest[i] != seq!['.', '.'] by {
            assert(rest[i] == pieces[i + 1]);
        }
        lemma_follow_plain(dirs.push(pieces[0]), rest);
        assert(dirs.push(pieces[0]) + rest =~= dirs + pieces);
    }
}

proof fn lemma_follow_ups(dirs: Seq<Seq<char>>, n: nat, rest: Seq<Seq<char>>)
    requires
        n <= dirs.len(),
    ensures
        follow(dirs, ups(n) + rest) == follow(dirs.take(dirs.len() - n), rest),
    decreases n,
{
    if n == 0 {
        assert(ups(0) + rest =~= rest);
        assert(dirs.take(dirs.len() as int) =~= dirs);
    } else {
        let p = ups(n) + rest;
        assert(p[0] == seq!['.', '.']);
        assert(p.drop_first() =~= ups((n - 1) as nat) + rest);
        lemma_follow_ups(dirs.take(dirs.len() - 1), (n - 1) as nat, rest);
        assert(dirs.take(dirs.len() - 1).take(dirs.len() - 1 - (n - 1)) =~= dirs.take(dirs.len() - n));
    }
}

/// Following the link from the directory of `src`, up one directory for each `..` and down
/// into each other piece, leads to `dest`, when no piece of `dest` is `..`.
pub proof fn law_link_leads_to_dest(src: Seq<char>, dest: Seq<char>)
    requires
        forall|i: int| 0 <= i < path_pieces(dest).len() ==> #[trigger] path_pieces(dest)[i] != seq!['.', '.'],
    ensures
        follow(dir_pieces(src), path_pieces(link_path_spec(src, dest, None))) == path_pieces(dest),
{
    let sd = dir_pieces(src);
    let dd = dir_pieces(dest);
    let dp = path_pieces(dest);
    lemma_split_nonempty(src, '/');
    lemma_split_nonempty(dest, '/');
    let k = common_prefix(sd, dd);
    lemma_common_from_bound(sd, dd, 0);
    lemma_common_prefix_agrees(sd, dd, 0);
    let up = ups((sd.len() - k) as nat);
    let down = dp.subrange(k, dp.len() as int);
    lemma_split_pieces_plain(dest, '/');
    assert forall|i: int| 0 <= i < (up + down).len() implies !(#[trigger] (up + down)[i]).contains('/') by {
        if i < up.len() {
            assert((up + down)[i] == seq!['.', '.']);
        } else {
            assert((up + down)[i] == dp[k + i - up.len()]);
        }
    }
    assert((up + down).len() >= 1);
    lemma_split_join(up + down, '/');
    lemma_follow_ups(sd, (sd.len() - k) as nat, down);
    assert forall|i: int| 0 <= i < down.len() implies #[trigger] down[i] != seq!['.', '.'] by {
        assert(down[i] == dp[k + i]);
    }
    lemma_follow_plain(sd.take(sd.len() - (sd.len() - k)), down);
    assert(sd.take(k) =~= dd.take(k));
    assert(dd.take(k) + down =~= dp);
}

/// The pieces before the common prefix's end agree.
proof fn lemma_common_prefix_agrees(a: Seq<Seq<char>>, b: Seq<Seq<char>>, i: int)
    requires
        0 <= i,
        i <= a.len(),
        i <= b.len(),
    ensures
        forall|j: int| i <= j < common_from(a, b, i) ==> a[j] == b[j],
    decreases a.len() - i,
{
    if i < a.len() && i < b.len() && a[i] == b[i] {
        lemma_common_prefix_agrees(a, b, i + 1);
    }
}

/// The pieces of `s` between occurrences of `sep`.
pub fn split_pieces(s: &str, sep: char) -> (r: Vec<String>)
    ensures
        views(r@) == split_on(s@, sep),
{
    let chars = to_chars(s);
    let mut pieces: Vec<String> = Vec::new();
    let mut cur = String::new();
    let mut i: usize = 0;
    while i < chars.len()
        invariant
            chars@ == s@,
            i <= chars@.len(),
            views(pieces@).push(cur@) == split_on(chars@.take(i as int), sep),
        decreases chars@.len() - i,
    {
        let c = chars[i];
        let ghost before = views(pieces@).push(cur@);
        proof {
            assert(chars@.take(i + 1).drop_last() =~= chars@.take(i as int));
            assert(chars@.take(i + 1).last() == c);
        }
        if c == sep {
            let done = cur;
            pieces.push(done);
            cur = String::new();
            assert(views(pieces@).push(cur@) =~= before.push(Seq::empty()));
        } else {
            push_char(&mut cur, c);
            assert(views(pieces@).push(cur@) =~= before.update(
                before.len() - 1,
                before.last().push(c),
            ));
        }
        i = i + 1;
    }
    assert(chars@.take(chars@.len() as int) =~= chars@);
    pieces.push(cur);
    assert(views(pieces@) =~= split_on(s@, sep));
    pieces
}

/// The pieces joined with `sep` between each two of them.
pub fn join_pieces(parts: &Vec<String>, sep: char) -> (r: String)
    ensures
        r@ == join_with(views(parts@), sep),
{
    let mut out = String::new();
    let mut i: usize = 0;
    while i < parts.len()
        invariant
            i <= parts@.len(),
            out@ == join_with(views(parts@).take(i as int), sep),
        decreases parts@.len() - i,
    {
        let ghost before = out@;
        proof {
            assert(views(parts@).take(i + 1).drop_last() =~= views(parts@).take(i as int));
        }
        if i > 0 {
            push_char(&mut out, sep);
        } else {
            assert(before =~= Seq::<char>::empty());
        }
        out.append(parts[i].as_str());
        assert(out@ =~= join_with(views(parts@).take(i + 1), sep));
        i = i + 1;
    }
    assert(views(parts@).take(parts@.len() as int) =~= views(parts@));
    out
}

/// The number of leading directories on which the two lists of pieces agree, the last piece of
/// each (its file name) left out.
fn common_dir_len(a: &Vec<String>, b: &Vec<String>) -> (r: usize)
    requires
        a@.len() >= 1,
        b@.len() >= 1,
    ensures
        r == common_prefix(views(a@).drop_last(), views(b@).drop_last()),
        r < a@.len(),
        r < b@.len(),
{
    let ghost da = views(a@).drop_last();
    let ghost db = views(b@).drop_last();
    let mut i: usize = 0;
    while i < a.len() - 1 && i < b.len() - 1 && a[i] == b[i]
        invariant
            a@.len() >= 1,
            b@.len() >= 1,
            i < a@.len(),
            i < b@.len(),
            da == views(a@).drop_last(),
            db == views(b@).drop_last(),
            common_from(da, db, i as int) == common_prefix(da, db),
        decreases a@.len() - i,
    {
        assert(da[i as int] == db[i as int]);
        i = i + 1;
    }
    i
}

/// Given two paths and an optional base directory, the link from `src` to `dest`. With a base,
/// the link is the base followed by `dest`; otherwise it is relative to the directory of `src`.
pub fn link_path(src: &str, dest: &str, base: Option<&str>) -> (r: String)
    ensures
        r@ == link_path_spec(
            src@,
            dest@,
            match base {
                Some(b) => Some(b@),
                None => None,
            },
        ),
{
    if let Some(b) = base {
        let mut out = b.to_string();
        out.append(dest);
        return out;
    }
    let sp = split_pieces(src, '/');
    let dp = split_pieces(dest, '/');
    proof {
        lemma_split_nonempty(src@, '/');
        lemma_split_nonempty(dest@, '/');
        assert(views(sp@).drop_last() =~= dir_pieces(src@));
        assert(views(dp@).drop_last() =~= dir_pieces(dest@));
    }
    let common = common_dir_len(&sp, &dp);
    let step_up = sp.len() - 1 - common;
    let mut parts: Vec<String> = Vec::new();
    let mut k: usize = 0;
    while k < step_up
        invariant
            k <= step_up,
            views(parts@) == ups(k as nat),
        decreases step_up - k,
    {
        proof {
            reveal_strlit("..");
        }
        let ghost before = parts@;
        let up = "..".to_owned();
        assert(up@ =~= seq!['.', '.']);
        parts.push(up);
        assert(views(parts@) =~= views(before).push(seq!['.', '.']));
        assert(views(parts@) =~= ups((k + 1) as nat));
        k = k + 1;
    }
    let mut j: usize = common;
    while j < dp.len()
        invariant
            common <= j <= dp@.len(),
            views(parts@) == ups(step_up as nat) + views(dp@).subrange(common as int, j as int),
        decreases dp@.len() - j,
    {
        let ghost before = parts@;
        parts.push(dp[j].clone());
        assert(views(parts@) =~= views(before).push(dp@[j as int]@));
        assert(views(dp@).subrange(common as int, j + 1) =~= views(dp@).subrange(
            common as int,
            j as int,
        ).push(dp@[j as int]@));
        assert(views(parts@) =~= ups(step_up as nat) + views(dp@).subrange(common as int, j + 1));
        j = j + 1;
    }
    join_pieces(&parts, '/')
}

} // verus!
