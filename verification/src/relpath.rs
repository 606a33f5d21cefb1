//! Relative paths between chapters, computed on the paths' segments alone.
//! The separator is the forward slash.

use crate::marker::{find, find_from, has_at, lemma_find_char, lemma_find_from, starts_at};
use crate::text::{copy_range, push_all, push_str, to_chars, to_string};
use vstd::prelude::*;

verus! {

/// The segments of `p` from position `i` on: the runs of characters between
/// separators. Separators that follow one another hold nothing between them.
pub open spec fn segments_from(p: Seq<char>, i: int) -> Seq<Seq<char>>
    decreases p.len() - i,
{
    if i < 0 || i >= p.len() {
        Seq::empty()
    } else {
        let q = find_from(p, seq!['/'], i);
        if q <= i {
            segments_from(p, i + 1)
        } else if q >= p.len() {
            seq![p.subrange(i, p.len() as int)]
        } else {
            seq![p.subrange(i, q)] + segments_from(p, q + 1)
        }
    }
}

/// The segments of a path.
pub open spec fn segments(p: Seq<char>) -> Seq<Seq<char>> {
    segments_from(p, 0)
}

/// The segments put together again, with one separator between neighbours.
pub open spec fn joined(segs: Seq<Seq<char>>) -> Seq<char>
    decreases segs.len(),
{
    if segs.len() == 0 {
        Seq::empty()
    } else if segs.len() == 1 {
        segs[0]
    } else {
        joined(segs.drop_last()) + seq!['/'] + segs.last()
    }
}

/// How many segments `a` and `b` share from position `i` on, added to `i`.
pub open spec fn common_from(a: Seq<Seq<char>>, b: Seq<Seq<char>>, i: int) -> int
    decreases a.len() - i,
{
    if 0 <= i < a.len() && i < b.len() && a[i] == b[i] {
        common_from(a, b, i + 1)
    } else {
        i
    }
}

/// The number of leading segments that `a` and `b` share.
pub open spec fn common_len(a: Seq<Seq<char>>, b: Seq<Seq<char>>) -> int {
    common_from(a, b, 0)
}

/// The directory of a file: its segments but the last.
pub open spec fn parent(segs: Seq<Seq<char>>) -> Seq<Seq<char>> {
    if segs.len() == 0 {
        segs
    } else {
        segs.drop_last()
    }
}

/// `k` segments that each lead one directory up.
pub open spec fn ups(k: int) -> Seq<Seq<char>> {
    Seq::new(
        if k >= 0 {
            k as nat
        } else {
            0
        },
        |j: int| ".."@,
    )
}

/// The way from the directory `base` to `to`: one step up for each segment of
/// `base` that `to` does not share, then the segments of `to` that `base`
/// does not share.
pub open spec fn rel_segments(to: Seq<Seq<char>>, base: Seq<Seq<char>>) -> Seq<Seq<char>> {
    ups(base.len() - common_len(to, base)) + to.skip(common_len(to, base))
}

/// The path that leads from the chapter at `from` to the chapter at `to`:
/// empty if they are the same chapter, else the way from the directory of
/// `from` to `to`.
pub open spec fn rel_path(from: Seq<char>, to: Seq<char>) -> Seq<char> {
    if segments(from) == segments(to) {
        Seq::empty()
    } else {
        joined(rel_segments(segments(to), parent(segments(from))))
    }
}

/// The shared segments are in range, equal one by one, and followed by a
/// segment that differs, where both paths go on.
pub proof fn lemma_common_from(a: Seq<Seq<char>>, b: Seq<Seq<char>>, i: int)
    requires
        0 <= i <= a.len(),
        i <= b.len(),
    ensures
        i <= common_from(a, b, i) <= a.len(),
        common_from(a, b, i) <= b.len(),
        forall|j: int| i <= j < common_from(a, b, i) ==> a[j] == b[j],
        common_from(a, b, i) < a.len() && common_from(a, b, i) < b.len() ==> a[common_from(
            a,
            b,
            i,
        )] != b[common_from(a, b, i)],
    decreases a.len() - i,
{
    if i < a.len() && i < b.len() && a[i] == b[i] {
        lemma_common_from(a, b, i + 1);
    }
}

/// The contents of each of a list of segments.
pub open spec fn seg_views(v: Seq<Vec<char>>) -> Seq<Seq<char>> {
    v.map_values(|s: Vec<char>| s@)
}

/// Whether two runs of characters are the same.
pub fn same_chars(a: &Vec<char>, b: &Vec<char>) -> (r: bool)
    ensures
        r == (a@ == b@),
{
    if a.len() != b.len() {
        return false;
    }
    let r = starts_at(a, 0, b);
    assert(a@.subrange(0, a.len() as int) =~= a@);
    r
}

/// Splits a path into its segments.
pub fn split_path(p: &Vec<char>) -> (segs: Vec<Vec<char>>)
    ensures
        seg_views(segs@) == segments(p@),
{
    let mut segs: Vec<Vec<char>> = Vec::new();
    let mut i: usize = 0;
    let sep: Vec<char> = vec!['/'];
    assert(sep@ =~= seq!['/']);
    assert(seg_views(segs@) =~= Seq::<Seq<char>>::empty());
    while i < p.len()
        invariant
            i <= p.len(),
            sep@ == seq!['/'],
            segments(p@) == seg_views(segs@) + segments_from(p@, i as int),
        decreases p.len() - i,
    {
        let q = find(p, &sep, i);
        if q > i {
            let ghost before = seg_views(segs@);
            let seg = copy_range(p, i, q);
            segs.push(seg);
            assert(seg_views(segs@) =~= before.push(p@.subrange(i as int, q as int)));
            let next: usize = if q < p.len() {
                q + 1
            } else {
                q
            };
            assert(before + (seq![p@.subrange(i as int, q as int)] + segments_from(p@, next as int))
                =~= seg_views(segs@) + segments_from(p@, next as int));
            i = next;
        } else {
            i += 1;
        }
    }
    assert(seg_views(segs@) + Seq::<Seq<char>>::empty() =~= seg_views(segs@));
    segs
}

/// Puts segments together, with one separator between neighbours.
pub fn join_path(segs: &Vec<Vec<char>>) -> (p: Vec<char>)
    ensures
        p@ == joined(seg_views(segs@)),
{
    let mut p: Vec<char> = Vec::new();
    let mut k: usize = 0;
    while k < segs.len()
        invariant
            k <= segs.len(),
            p@ == joined(seg_views(segs@).take(k as int)),
        decreases segs.len() - k,
    {
        let ghost done = seg_views(segs@).take(k as int);
        let ghost next = seg_views(segs@).take(k + 1);
        proof {
            assert(next.drop_last() =~= done);
            assert(next.last() == segs@[k as int]@);
        }
        if k > 0 {
            p.push('/');
            push_all(&mut p, &segs[k]);
        } else {
            push_all(&mut p, &segs[k]);
            assert(p@ =~= next[0]);
        }
        k += 1;
    }
    assert(seg_views(segs@).take(segs.len() as int) =~= seg_views(segs@));
    p
}

/// The number of leading segments that two lists share.
pub fn common_prefix(a: &Vec<Vec<char>>, b: &Vec<Vec<char>>) -> (c: usize)
    ensures
        c == common_len(seg_views(a@), seg_views(b@)),
        c <= a.len(),
        c <= b.len(),
{
    let mut c: usize = 0;
    while c < a.len() && c < b.len() && same_chars(&a[c], &b[c])
        invariant
            c <= a.len(),
            c <= b.len(),
            common_len(seg_views(a@), seg_views(b@)) == common_from(
                seg_views(a@),
                seg_views(b@),
                c as int,
            ),
        decreases a.len() - c,
    {
        c += 1;
    }
    c
}

/// The way from the directory `base` to `to`.
pub fn rel_between(to: &Vec<Vec<char>>, base: &Vec<Vec<char>>) -> (rel: Vec<Vec<char>>)
    ensures
        seg_views(rel@) == rel_segments(seg_views(to@), seg_views(base@)),
{
    let c = common_prefix(to, base);
    let mut rel: Vec<Vec<char>> = Vec::new();
    let mut j: usize = c;
    while j < base.len()
        invariant
            c <= j <= base.len(),
            seg_views(rel@) =~= ups(j - c),
        decreases base.len() - j,
    {
        let mut up: Vec<char> = Vec::new();
        push_str(&mut up, "..");
        assert(up@ =~= ".."@);
        let ghost before = seg_views(rel@);
        rel.push(up);
        assert(seg_views(rel@) =~= before.push(up@));
        j += 1;
    }
    let mut k: usize = c;
    while k < to.len()
        invariant
            c <= k <= to.len(),
            seg_views(rel@) =~= ups(base.len() - c) + seg_views(to@).subrange(c as int, k as int),
        decreases to.len() - k,
    {
        let seg = copy_range(&to[k], 0, to[k].len());
        assert(seg@ =~= to@[k as int]@);
        let ghost before = seg_views(rel@);
        rel.push(seg);
        assert(seg_views(rel@) =~= before.push(seg@));
        k += 1;
    }
    assert(seg_views(to@).subrange(c as int, to.len() as int) =~= seg_views(to@).skip(c as int));
    rel
}

/// Whether two lists of segments are the same.
pub fn same_segments(a: &Vec<Vec<char>>, b: &Vec<Vec<char>>) -> (r: bool)
    ensures
        r == (seg_views(a@) == seg_views(b@)),
{
    if a.len() != b.len() {
        assert(seg_views(a@).len() != seg_views(b@).len());
        return false;
    }
    let c = common_prefix(a, b);
    proof {
        lemma_common_from(seg_views(a@), seg_views(b@), 0);
        if c == a.len() {
            assert(seg_views(a@) =~= seg_views(b@));
        }
    }
    c == a.len()
}

/// The path that leads from the chapter at `from` to the chapter at `to`, as
/// characters.
pub fn rel_path_chars(from: &Vec<char>, to: &Vec<char>) -> (r: Vec<char>)
    ensures
        r@ == rel_path(from@, to@),
{
    let mut base = split_path(from);
    let target = split_path(to);
    if same_segments(&base, &target) {
        return Vec::new();
    }
    let ghost whole = seg_views(base@);
    if base.len() > 0 {
        base.pop();
        assert(seg_views(base@) =~= whole.drop_last());
    }
    let rel = rel_between(&target, &base);
    join_path(&rel)
}

/// Computes the relative path from the directory of the chapter at
/// `chap_path` to the chapter at `path_to_ref`: the target of a link from the
/// one to the other. It is empty where both are the same chapter.
pub fn compute_rel_path(chap_path: &str, path_to_ref: &str) -> (r: String)
    ensures
        r@ == rel_path(chap_path@, path_to_ref@),
{
    let from = to_chars(chap_path);
    let to = to_chars(path_to_ref);
    let r = rel_path_chars(&from, &to);
    to_string(&r)
}

/// Where a way leads from a directory: a segment `..` leads to the directory
/// above, any other segment to what it names in the directory reached.
pub open spec fn followed(base: Seq<Seq<char>>, rel: Seq<Seq<char>>) -> Seq<Seq<char>>
    decreases rel.len(),
{
    if rel.len() == 0 {
        base
    } else if rel[0] == ".."@ {
        followed(parent(base), rel.drop_first())
    } else {
        followed(base.push(rel[0]), rel.drop_first())
    }
}

/// The way from `base` to `to` goes up once for each segment of `base` behind
/// the segments that the two share, and then down the segments of `to`
/// behind those.
pub proof fn lemma_rel_segments_shape(to: Seq<Seq<char>>, base: Seq<Seq<char>>)
    ensures
        0 <= common_len(to, base) <= to.len(),
        common_len(to, base) <= base.len(),
        to.take(common_len(to, base)) == base.take(common_len(to, base)),
        rel_segments(to, base).len() == (base.len() - common_len(to, base)) + (to.len()
            - common_len(to, base)),
        common_len(to, base) < to.len() && common_len(to, base) < base.len() ==> to[common_len(
            to,
            base,
        )] != base[common_len(to, base)],
        forall|i: int|
            0 <= i < base.len() - common_len(to, base) ==> #[trigger] rel_segments(to, base)[i]
                == ".."@,
        rel_segments(to, base).skip(base.len() - common_len(to, base)) == to.skip(
            common_len(to, base),
        ),
{
    lemma_common_from(to, base, 0);
    assert(to.take(common_len(to, base)) =~= base.take(common_len(to, base)));
    assert(rel_segments(to, base).skip(base.len() - common_len(to, base)) =~= to.skip(
        common_len(to, base),
    ));
}

/// Going up `k` times from a directory leads to the directory `k` levels
/// above it.
proof fn lemma_followed_ups(base: Seq<Seq<char>>, k: int, tail: Seq<Seq<char>>)
    requires
        0 <= k <= base.len(),
    ensures
        followed(base, ups(k) + tail) == followed(base.take(base.len() - k), tail),
    decreases k,
{
    if k == 0 {
        assert(ups(0) + tail =~= tail);
        assert(base.take(base.len() as int) =~= base);
    } else {
        let rel = ups(k) + tail;
        assert(rel[0] == ".."@);
        assert(rel.drop_first() =~= ups(k - 1) + tail);
        lemma_followed_ups(parent(base), k - 1, tail);
        assert(parent(base).take(parent(base).len() - (k - 1)) =~= base.take(base.len() - k));
    }
}

/// Going down segments of which none is `..` adds them to the directory.
proof fn lemma_followed_down(base: Seq<Seq<char>>, tail: Seq<Seq<char>>)
    requires
        forall|i: int| 0 <= i < tail.len() ==> tail[i] != ".."@,
    ensures
        followed(base, tail) == base + tail,
    decreases tail.len(),
{
    if tail.len() == 0 {
        assert(base + tail =~= base);
    } else {
        lemma_followed_down(base.push(tail[0]), tail.drop_first());
        assert(base.push(tail[0]) + tail.drop_first() =~= base + tail);
    }
}

/// The way from `base` to `to` leads from `base` to `to`, if no segment of
/// `to` is `..`.
pub proof fn lemma_rel_segments_lead_there(to: Seq<Seq<char>>, base: Seq<Seq<char>>)
    requires
        forall|i: int| 0 <= i < to.len() ==> to[i] != ".."@,
    ensures
        followed(base, rel_segments(to, base)) == to,
{
    let c = common_len(to, base);
    lemma_rel_segments_shape(to, base);
    lemma_followed_ups(base, base.len() - c, to.skip(c));
    lemma_followed_down(base.take(c), to.skip(c));
    assert(base.take(base.len() - (base.len() - c)) =~= base.take(c));
    assert(to.take(c) + to.skip(c) =~= to);
}

/// The path between two chapters of one directory is the name of the target:
/// no step up is taken.
pub proof fn lemma_rel_path_same_directory(dir: Seq<Seq<char>>, from: Seq<char>, to: Seq<char>)
    requires
        from != to,
    ensures
        rel_segments(dir.push(to), parent(dir.push(from))) == seq![to],
{
    let a = dir.push(to);
    let b = parent(dir.push(from));
    assert(b =~= dir);
    lemma_common_from(a, b, 0);
    let c = common_len(a, b);
    if c < dir.len() {
        assert(a[c] == dir[c]);
        assert(b[c] == dir[c]);
    }
    assert(c == dir.len());
    assert(rel_segments(a, b) =~= seq![to]);
}

/// A name: a segment as it can stand in a path, with a character in it and
/// no separator.
pub open spec fn is_name(seg: Seq<char>) -> bool {
    seg.len() > 0 && !seg.contains('/')
}

/// A run of characters without a separator, behind a separator or at the
/// beginning of a path and up to its end, is the path's last segment.
proof fn lemma_last_segment(p: Seq<char>, i: int)
    requires
        0 <= i < p.len(),
        forall|k: int| i <= k < p.len() ==> p[k] != '/',
    ensures
        segments_from(p, i) == seq![p.subrange(i, p.len() as int)],
{
    lemma_find_from(p, seq!['/'], i);
    let q = find_from(p, seq!['/'], i);
    if q < p.len() {
        assert(p.subrange(q, q + 1)[0] == seq!['/'][0]);
    }
}

/// A name added to a path, behind a separator, is one more segment.
proof fn lemma_segments_with_name(a: Seq<char>, seg: Seq<char>, i: int)
    requires
        0 <= i <= a.len(),
        is_name(seg),
    ensures
        segments_from(a + seq!['/'] + seg, i) == segments_from(a, i).push(seg),
    decreases a.len() - i,
{
    let t = a + seq!['/'] + seg;
    let n = a.len() as int;
    assert(t[n] == '/');
    assert forall|k: int| n + 1 <= k < t.len() implies t[k] != '/' by {
        assert(t[k] == seg[k - n - 1]);
        assert(seg.contains(seg[k - n - 1]));
    }
    assert(t.subrange(n + 1, t.len() as int) =~= seg);
    lemma_last_segment(t, n + 1);
    if i == n {
        lemma_find_char(t, '/', n, n);
        assert(segments_from(a, i) =~= Seq::<Seq<char>>::empty());
        assert(segments_from(t, i) =~= segments_from(a, i).push(seg));
    } else {
        lemma_find_from(a, seq!['/'], i);
        let q = find_from(a, seq!['/'], i);
        assert forall|k: int| i <= k < q implies t[k] != '/' by {
            assert(t[k] == a[k]);
            if a[k] == '/' {
                assert(a.subrange(k, k + 1) =~= seq!['/']);
                assert(has_at(a, k, seq!['/']));
            }
        }
        if q < n {
            assert(a.subrange(q, q + 1)[0] == seq!['/'][0]);
            assert(t[q] == a[q]);
        }
        lemma_find_char(t, '/', i, q);
        assert(t.subrange(i, q) =~= a.subrange(i, q));
        if q <= i {
            lemma_segments_with_name(a, seg, i + 1);
        } else if q >= n {
            assert(segments_from(t, i) =~= seq![a.subrange(i, n)].push(seg));
        } else {
            lemma_segments_with_name(a, seg, q + 1);
            assert(segments_from(t, i) =~= segments_from(a, i).push(seg));
        }
    }
}

/// A path put together from names is split into those names again.
pub proof fn lemma_segments_of_joined(segs: Seq<Seq<char>>)
    requires
        forall|i: int| 0 <= i < segs.len() ==> is_name(#[trigger] segs[i]),
    ensures
        segments(joined(segs)) == segs,
    decreases segs.len(),
{
    if segs.len() == 0 {
    } else if segs.len() == 1 {
        let p = segs[0];
        assert forall|k: int| 0 <= k < p.len() implies p[k] != '/' by {
            assert(p.contains(p[k]));
        }
        lemma_last_segment(p, 0);
        assert(p.subrange(0, p.len() as int) =~= p);
        assert(segs =~= seq![p]);
    } else {
        lemma_segments_of_joined(segs.drop_last());
        lemma_segments_with_name(joined(segs.drop_last()), segs.last(), 0);
        assert(segs.drop_last().push(segs.last()) =~= segs);
    }
}

/// Each segment of a path is a name.
pub proof fn lemma_segments_are_names(p: Seq<char>, i: int, j: int)
    requires
        0 <= i,
        0 <= j < segments_from(p, i).len(),
    ensures
        is_name(segments_from(p, i)[j]),
    decreases p.len() - i,
{
    if i < p.len() {
        lemma_find_from(p, seq!['/'], i);
        let q = find_from(p, seq!['/'], i);
        if q <= i {
            lemma_segments_are_names(p, i + 1, j);
        } else {
            let seg = p.subrange(i, if q >= p.len() {
                p.len() as int
            } else {
                q
            });
            assert forall|k: int| 0 <= k < seg.len() implies seg[k] != '/' by {
                if p[i + k] == '/' {
                    assert(p.subrange(i + k, i + k + 1) =~= seq!['/']);
                    assert(has_at(p, i + k, seq!['/']));
                }
            }
            if j > 0 {
                lemma_segments_are_names(p, q + 1, j - 1);
            }
        }
    }
}

/// The relative path leads where it should: followed from the directory of
/// the chapter at `from`, the path to another chapter, at `to`, ends at that
/// chapter. No segment of `to` is `..`.
pub proof fn lemma_rel_path_leads_there(from: Seq<char>, to: Seq<char>)
    requires
        segments(from) != segments(to),
        forall|i: int| 0 <= i < segments(to).len() ==> segments(to)[i] != ".."@,
    ensures
        followed(parent(segments(from)), segments(rel_path(from, to))) == segments(to),
{
    let base = parent(segments(from));
    let target = segments(to);
    let rel = rel_segments(target, base);
    lemma_rel_segments_shape(target, base);
    lemma_rel_segments_lead_there(target, base);
    reveal_strlit("..");
    let c = common_len(target, base);
    assert forall|i: int| 0 <= i < rel.len() implies is_name(#[trigger] rel[i]) by {
        if i < base.len() - c {
            let up = ".."@;
            assert(rel[i] == up);
            assert forall|k: int| 0 <= k < up.len() implies up[k] != '/' by {}
        } else {
            assert(rel[i] == rel.skip(base.len() - c)[i - (base.len() - c)]);
            lemma_segments_are_names(to, 0, c + i - (base.len() - c));
        }
    }
    lemma_segments_of_joined(rel);
}

} // verus!
