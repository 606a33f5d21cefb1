//! The syntax of the markers that chapters hold: declarations of
//! environments, `{{key}}{label}[title]`, and references to them,
//! `{{ref: label}}` and `{{tref: label}}`.

use crate::text::copy_range;
use vstd::prelude::*;

verus! {

/// `pat` occurs in `s` at position `i`.
pub open spec fn has_at(s: Seq<char>, i: int, pat: Seq<char>) -> bool {
    &&& 0 <= i
    &&& i + pat.len() <= s.len()
    &&& s.subrange(i, i + pat.len()) == pat
}

/// The first position at or after `i` where `pat` occurs in `s`, or the length
/// of `s` where it occurs nowhere from `i` on.
pub open spec fn find_from(s: Seq<char>, pat: Seq<char>, i: int) -> int
    decreases s.len() - i,
{
    if i < 0 || i >= s.len() {
        s.len() as int
    } else if has_at(s, i, pat) {
        i
    } else {
        find_from(s, pat, i + 1)
    }
}

/// `find_from` gives a position in range, at which `pat` occurs unless the
/// position is the end of `s`, and before which (from `i` on) it does not.
pub proof fn lemma_find_from(s: Seq<char>, pat: Seq<char>, i: int)
    requires
        0 <= i <= s.len(),
    ensures
        i <= find_from(s, pat, i) <= s.len(),
        find_from(s, pat, i) < s.len() ==> has_at(s, find_from(s, pat, i), pat),
        forall|k: int| i <= k < find_from(s, pat, i) ==> !has_at(s, k, pat),
    decreases s.len() - i,
{
    if i < s.len() && !has_at(s, i, pat) {
        lemma_find_from(s, pat, i + 1);
    }
}

/// Whether `pat` occurs in `s` at position `i`.
pub fn starts_at(s: &Vec<char>, i: usize, pat: &Vec<char>) -> (b: bool)
    ensures
        b == has_at(s@, i as int, pat@),
        b ==> i + pat.len() <= s.len(),
{
    if i > s.len() || pat.len() > s.len() - i {
        return false;
    }
    let mut k: usize = 0;
    while k < pat.len()
        invariant
            k <= pat.len(),
            i + pat.len() <= s.len(),
            forall|j: int| 0 <= j < k ==> s@[i + j] == pat@[j],
        decreases pat.len() - k,
    {
        if s[i + k] != pat[k] {
            assert(s@.subrange(i as int, i + pat.len())[k as int] != pat@[k as int]);
            return false;
        }
        k += 1;
    }
    assert(s@.subrange(i as int, i + pat.len()) =~= pat@);
    true
}

/// The first position at or after `from` where `pat` occurs in `s`, or the
/// length of `s`.
pub fn find(s: &Vec<char>, pat: &Vec<char>, from: usize) -> (q: usize)
    requires
        from <= s.len(),
    ensures
        q == find_from(s@, pat@, from as int),
        from <= q <= s.len(),
{
    let mut q: usize = from;
    while q < s.len()
        invariant
            from <= q <= s.len(),
            find_from(s@, pat@, from as int) == find_from(s@, pat@, q as int),
        decreases s.len() - q,
    {
        if starts_at(s, q, pat) {
            return q;
        }
        q += 1;
    }
    q
}

/// The position of the delimiter that closes a group opened at `i`: `s` holds
/// `open` at `i`, and `close` somewhere after it; the first such place counts,
/// so that a group holds any characters but `close`.
pub open spec fn group_end(s: Seq<char>, i: int, open: char, close: char) -> Option<int> {
    if 0 <= i < s.len() && s[i] == open && find_from(s, seq![close], i + 1) < s.len() {
        Some(find_from(s, seq![close], i + 1))
    } else {
        None
    }
}

/// The closing delimiter of the group opened at `i`, if there is such a group.
pub fn scan_group(s: &Vec<char>, i: usize, open: char, close: char) -> (r: Option<usize>)
    requires
        i <= s.len(),
    ensures
        r matches Some(k) ==> group_end(s@, i as int, open, close) == Some(k as int) && i < k
            < s.len(),
        r is None ==> group_end(s@, i as int, open, close) is None,
{
    if i < s.len() && s[i] == open {
        let pat: Vec<char> = vec![close];
        assert(pat@ =~= seq![close]);
        let k: usize = find(s, &pat, i + 1);
        if k < s.len() {
            Some(k)
        } else {
            None
        }
    } else {
        None
    }
}

/// The opening of a declaration: the key in double braces.
pub open spec fn opening(key: Seq<char>) -> Seq<char> {
    seq!['{', '{'] + key + seq!['}', '}']
}

/// A declaration marker found in a text.
pub struct EnvMarker {
    /// Where the marker begins.
    pub start: int,
    /// Where the text goes on after the marker.
    pub end: int,
    /// The label in braces, where there is one.
    pub label: Option<Seq<char>>,
    /// The title in brackets, where there is one.
    pub title: Option<Seq<char>>,
}

/// The declaration marker for `key` that begins at `i`: the opening, then an
/// optional `{label}`, then an optional `[title]`. A brace or bracket that is
/// never closed begins no group and stays outside the marker.
pub open spec fn env_marker_at(s: Seq<char>, key: Seq<char>, i: int) -> Option<EnvMarker> {
    if has_at(s, i, opening(key)) {
        let a = i + opening(key).len();
        let label = group_end(s, a, '{', '}');
        let b = match label {
            Some(k) => k + 1,
            None => a,
        };
        let title = group_end(s, b, '[', ']');
        let c = match title {
            Some(k) => k + 1,
            None => b,
        };
        Some(
            EnvMarker {
                start: i,
                end: c,
                label: match label {
                    Some(k) => Some(s.subrange(a + 1, k)),
                    None => None,
                },
                title: match title {
                    Some(k) => Some(s.subrange(b + 1, k)),
                    None => None,
                },
            },
        )
    } else {
        None
    }
}

/// A declaration marker as the scanner hands it out.
pub struct EnvMatch {
    /// Where the text goes on after the marker.
    pub end: usize,
    /// The label, where there is one.
    pub label: Option<Vec<char>>,
    /// The title, where there is one.
    pub title: Option<Vec<char>>,
}

impl EnvMatch {
    /// The marker that this match stands for, begun at `start`.
    pub open spec fn marker(self, start: int) -> EnvMarker {
        EnvMarker {
            start,
            end: self.end as int,
            label: match self.label {
                Some(l) => Some(l@),
                None => None,
            },
            title: match self.title {
                Some(t) => Some(t@),
                None => None,
            },
        }
    }
}

/// A marker ends after the place where it begins, and inside the text.
pub proof fn lemma_env_marker_bounds(s: Seq<char>, key: Seq<char>, i: int)
    requires
        env_marker_at(s, key, i) is Some,
    ensures
        0 <= i,
        i + 4 + key.len() <= env_marker_at(s, key, i).unwrap().end <= s.len(),
        env_marker_at(s, key, i).unwrap().start == i,
{
    let a = i + opening(key).len();
    lemma_find_from(s, seq!['}'], if a + 1 <= s.len() { a + 1 } else { 0 });
    let b = match group_end(s, a, '{', '}') {
        Some(k) => k + 1,
        None => a,
    };
    lemma_find_from(s, seq![']'], if b + 1 <= s.len() { b + 1 } else { 0 });
}

/// Reads the declaration marker for a key at position `i`, given the key's
/// opening.
pub(crate) fn scan_env_marker(
    s: &Vec<char>,
    opener: &Vec<char>,
    i: usize,
    Ghost(key): Ghost<Seq<char>>,
) -> (r: Option<EnvMatch>)
    requires
        opener@ == opening(key),
    ensures
        r matches Some(m) ==> env_marker_at(s@, key, i as int) == Some(m.marker(i as int)),
        r is None ==> env_marker_at(s@, key, i as int) is None,
{
    if !starts_at(s, i, opener) {
        return None;
    }
    let a: usize = i + opener.len();
    let (label, b) = match scan_group(s, a, '{', '}') {
        Some(k) => (Some(copy_range(s, a + 1, k)), k + 1),
        None => (None, a),
    };
    let (title, c) = match scan_group(s, b, '[', ']') {
        Some(k) => (Some(copy_range(s, b + 1, k)), k + 1),
        None => (None, b),
    };
    Some(EnvMatch { end: c, label, title })
}

/// White space: the characters that Unicode gives the property `White_Space`.
pub open spec fn is_space(c: char) -> bool {
    let n = c as u32;
    ||| 0x09 <= n <= 0x0d
    ||| n == 0x20
    ||| n == 0x85
    ||| n == 0xa0
    ||| n == 0x1680
    ||| 0x2000 <= n <= 0x200a
    ||| n == 0x2028
    ||| n == 0x2029
    ||| n == 0x202f
    ||| n == 0x205f
    ||| n == 0x3000
}

/// `s` without the white space that it begins with.
pub open spec fn trim_start(s: Seq<char>) -> Seq<char>
    decreases s.len(),
{
    if s.len() > 0 && is_space(s[0]) {
        trim_start(s.drop_first())
    } else {
        s
    }
}

/// `s` without the white space that it ends with.
pub open spec fn trim_end(s: Seq<char>) -> Seq<char>
    decreases s.len(),
{
    if s.len() > 0 && is_space(s.last()) {
        trim_end(s.drop_last())
    } else {
        s
    }
}

/// `s` without the white space around it.
pub open spec fn trimmed(s: Seq<char>) -> Seq<char> {
    trim_end(trim_start(s))
}

/// Whether a character is white space.
pub fn space(c: char) -> (b: bool)
    ensures
        b == is_space(c),
{
    let n: u32 = c as u32;
    (0x09 <= n && n <= 0x0d) || n == 0x20 || n == 0x85 || n == 0xa0 || n == 0x1680 || (0x2000 <= n
        && n <= 0x200a) || n == 0x2028 || n == 0x2029 || n == 0x202f || n == 0x205f || n == 0x3000
}

/// The part of `s[from..to]` that is left when the white space around it is
/// taken away, as a range of positions.
pub fn trim_range(s: &Vec<char>, from: usize, to: usize) -> (r: (usize, usize))
    requires
        from <= to <= s.len(),
    ensures
        from <= r.0 <= r.1 <= to,
        s@.subrange(r.0 as int, r.1 as int) == trimmed(s@.subrange(from as int, to as int)),
{
    let mut a: usize = from;
    while a < to && space(s[a])
        invariant
            from <= a <= to <= s.len(),
            trim_start(s@.subrange(from as int, to as int)) == trim_start(
                s@.subrange(a as int, to as int),
            ),
        decreases to - a,
    {
        assert(s@.subrange(a as int, to as int).drop_first() =~= s@.subrange(a + 1, to as int));
        a += 1;
    }
    assert(trim_start(s@.subrange(from as int, to as int)) == s@.subrange(a as int, to as int));
    let mut b: usize = to;
    while b > a && space(s[b - 1])
        invariant
            a <= b <= to <= s.len(),
            trim_end(s@.subrange(a as int, to as int)) == trim_end(s@.subrange(a as int, b as int)),
        decreases b - a,
    {
        assert(s@.subrange(a as int, b as int).drop_last() =~= s@.subrange(a as int, b - 1));
        b -= 1;
    }
    (a, b)
}

/// How a reference shows the environment that it points to.
#[derive(Clone, Copy, Debug, PartialEq, Eq, Structural)]
pub enum RefKind {
    /// By its numbered name: `{{ref: label}}`.
    Number,
    /// By its title, or by its numbered name where it has no title:
    /// `{{tref: label}}`.
    Title,
}

/// The keyword that opens a reference of a kind.
pub open spec fn ref_keyword(kind: RefKind) -> Seq<char> {
    match kind {
        RefKind::Number => seq!['{', '{', 'r', 'e', 'f', ':'],
        RefKind::Title => seq!['{', '{', 't', 'r', 'e', 'f', ':'],
    }
}

/// The two braces that close a reference.
pub open spec fn ref_closing() -> Seq<char> {
    seq!['}', '}']
}

/// The kind of the reference whose keyword stands at `i`.
pub open spec fn ref_kind_at(s: Seq<char>, i: int) -> Option<RefKind> {
    if has_at(s, i, ref_keyword(RefKind::Number)) {
        Some(RefKind::Number)
    } else if has_at(s, i, ref_keyword(RefKind::Title)) {
        Some(RefKind::Title)
    } else {
        None
    }
}

/// A reference marker found in a text.
pub struct RefMarker {
    /// Where the marker begins.
    pub start: int,
    /// Where the text goes on after the marker.
    pub end: int,
    /// The kind of the reference.
    pub kind: RefKind,
    /// The label, without the white space around it.
    pub label: Seq<char>,
}

/// The reference marker that begins at `i`: a keyword, then the label with
/// any white space around it, up to the first two closing braces. A keyword
/// that no closing braces follow begins no marker.
pub open spec fn ref_marker_at(s: Seq<char>, i: int) -> Option<RefMarker> {
    match ref_kind_at(s, i) {
        Some(kind) => {
            let a = i + ref_keyword(kind).len();
            let q = find_from(s, ref_closing(), a);
            if q < s.len() {
                Some(
                    RefMarker {
                        start: i,
                        end: q + ref_closing().len(),
                        kind,
                        label: trimmed(s.subrange(a, q)),
                    },
                )
            } else {
                None
            }
        },
        None => None,
    }
}

/// A reference marker ends after the place where it begins, and inside the
/// text.
pub proof fn lemma_ref_marker_bounds(s: Seq<char>, i: int)
    requires
        ref_marker_at(s, i) is Some,
    ensures
        0 <= i,
        i + 8 <= ref_marker_at(s, i).unwrap().end <= s.len(),
        ref_marker_at(s, i).unwrap().start == i,
{
    let kind = ref_kind_at(s, i).unwrap();
    lemma_find_from(s, ref_closing(), i + ref_keyword(kind).len());
}

/// A reference marker as the scanner hands it out.
pub struct RefMatch {
    /// Where the text goes on after the marker.
    pub end: usize,
    /// The kind of the reference.
    pub kind: RefKind,
    /// The label, without the white space around it.
    pub label: Vec<char>,
}

impl RefMatch {
    /// The marker that this match stands for, begun at `start`.
    pub open spec fn marker(self, start: int) -> RefMarker {
        RefMarker { start, end: self.end as int, kind: self.kind, label: self.label@ }
    }
}

/// The keyword of a kind of reference, as characters.
pub fn keyword_chars(kind: RefKind) -> (v: Vec<char>)
    ensures
        v@ == ref_keyword(kind),
{
    let v: Vec<char> = match kind {
        RefKind::Number => vec!['{', '{', 'r', 'e', 'f', ':'],
        RefKind::Title => vec!['{', '{', 't', 'r', 'e', 'f', ':'],
    };
    assert(v@ =~= ref_keyword(kind));
    v
}

/// The closing of a reference, as characters.
pub fn closing_chars() -> (v: Vec<char>)
    ensures
        v@ == ref_closing(),
{
    let v: Vec<char> = vec!['}', '}'];
    assert(v@ =~= ref_closing());
    v
}

/// Reads the reference marker at position `i`, given the two keywords and
/// the closing.
pub fn scan_ref_marker(
    s: &Vec<char>,
    i: usize,
    number: &Vec<char>,
    title: &Vec<char>,
    closing: &Vec<char>,
) -> (r: Option<RefMatch>)
    requires
        number@ == ref_keyword(RefKind::Number),
        title@ == ref_keyword(RefKind::Title),
        closing@ == ref_closing(),
    ensures
        r matches Some(m) ==> ref_marker_at(s@, i as int) == Some(m.marker(i as int)),
        r is None ==> ref_marker_at(s@, i as int) is None,
{
    let (kind, a) = if starts_at(s, i, number) {
        (RefKind::Number, i + number.len())
    } else if starts_at(s, i, title) {
        (RefKind::Title, i + title.len())
    } else {
        return None;
    };
    let q: usize = find(s, closing, a);
    if q < s.len() {
        proof {
            lemma_find_from(s@, ref_closing(), a as int);
        }
        let (from, to) = trim_range(s, a, q);
        Some(RefMatch { end: q + 2, kind, label: copy_range(s, from, to) })
    } else {
        None
    }
}

/// Where a character occurs for the first time: behind a run of characters
/// that does not hold it.
pub proof fn lemma_find_char(s: Seq<char>, c: char, i: int, p: int)
    requires
        0 <= i <= p < s.len(),
        s[p] == c,
        forall|k: int| i <= k < p ==> s[k] != c,
    ensures
        find_from(s, seq![c], i) == p,
{
    let q = find_from(s, seq![c], i);
    lemma_find_from(s, seq![c], i);
    assert(s.subrange(p, p + 1) =~= seq![c]);
    assert(has_at(s, p, seq![c]));
    if q < p {
        assert(s.subrange(q, q + 1)[0] == seq![c][0]);
    }
}

/// A group as it is written: the body between its delimiters, or nothing.
pub open spec fn group(open: char, body: Option<Seq<char>>, close: char) -> Seq<char> {
    match body {
        Some(b) => seq![open] + b + seq![close],
        None => Seq::empty(),
    }
}

/// A declaration marker as it is written.
pub open spec fn written(key: Seq<char>, label: Option<Seq<char>>, title: Option<Seq<char>>) -> Seq<
    char,
> {
    opening(key) + group('{', label, '}') + group('[', title, ']')
}

/// A group that is written at `a` is read there, and no group is read where
/// none is written and the text goes on with another character, or ends.
proof fn lemma_group_is_read(
    s: Seq<char>,
    a: int,
    open: char,
    body: Option<Seq<char>>,
    close: char,
)
    requires
        has_at(s, a, group(open, body, close)),
        body matches Some(b) ==> !b.contains(close),
        body is None ==> a == s.len() || s[a] != open,
    ensures
        body matches Some(b) ==> group_end(s, a, open, close) == Some(a + 1 + b.len())
            && s.subrange(a + 1, a + 1 + b.len()) == b,
        body is None ==> group_end(s, a, open, close) is None,
{
    match body {
        Some(b) => {
            let g = group(open, body, close);
            let p = a + 1 + b.len();
            assert(g.len() == b.len() + 2);
            assert(s[a] == s.subrange(a, a + g.len())[0]);
            assert(s[p] == s.subrange(a, a + g.len())[p - a]);
            assert forall|k: int| a + 1 <= k < p implies s[k] != close by {
                assert(s[k] == s.subrange(a, a + g.len())[k - a]);
                assert(b.contains(b[k - a - 1]));
            }
            lemma_find_char(s, close, a + 1, p);
            assert forall|k: int| 0 <= k < b.len() implies s.subrange(a + 1, p)[k] == b[k] by {
                assert(s[a + 1 + k] == s.subrange(a, a + g.len())[k + 1]);
            }
            assert(s.subrange(a + 1, p) =~= b);
        },
        None => {},
    }
}

/// A marker that is written into a text is read back as it was written:
/// with its label, if one was written, and its title, if one was written.
/// The label holds no closing brace and the title no closing bracket; the
/// text behind the marker does not go on with an opening brace or bracket.
pub proof fn lemma_written_marker_is_read(
    pre: Seq<char>,
    key: Seq<char>,
    label: Option<Seq<char>>,
    title: Option<Seq<char>>,
    post: Seq<char>,
)
    requires
        label matches Some(l) ==> !l.contains('}'),
        title matches Some(t) ==> !t.contains(']'),
        post.len() > 0 ==> post[0] != '{' && post[0] != '[',
    ensures
        env_marker_at(pre + written(key, label, title) + post, key, pre.len() as int) == Some(
            EnvMarker {
                start: pre.len() as int,
                end: (pre.len() + written(key, label, title).len()) as int,
                label,
                title,
            },
        ),
{
    let s = pre + written(key, label, title) + post;
    let i = pre.len() as int;
    let a = i + opening(key).len();
    let b = a + group('{', label, '}').len();
    let c = b + group('[', title, ']').len();
    assert(s.subrange(i, a) =~= opening(key));
    assert(s.subrange(a, b) =~= group('{', label, '}'));
    assert(s.subrange(b, c) =~= group('[', title, ']'));
    if label is None {
        if title is None {
            if a < s.len() {
                assert(s[a] == post[0]);
            }
        } else {
            assert(s[a] == group('[', title, ']')[0]);
        }
    }
    lemma_group_is_read(s, a, '{', label, '}');
    if title is None {
        if b < s.len() {
            assert(s[b] == post[0]);
        }
    }
    lemma_group_is_read(s, b, '[', title, ']');
}

/// Leading white space is trimmed away, up to a character that is none.
proof fn lemma_trim_start(space: Seq<char>, rest: Seq<char>)
    requires
        forall|k: int| 0 <= k < space.len() ==> is_space(space[k]),
        rest.len() > 0 ==> !is_space(rest[0]),
    ensures
        trim_start(space + rest) == rest,
    decreases space.len(),
{
    if space.len() == 0 {
        assert(space + rest =~= rest);
    } else {
        assert((space + rest).drop_first() =~= space.drop_first() + rest);
        lemma_trim_start(space.drop_first(), rest);
    }
}

/// Trailing white space is trimmed away, back to a character that is none.
proof fn lemma_trim_end(rest: Seq<char>, space: Seq<char>)
    requires
        forall|k: int| 0 <= k < space.len() ==> is_space(space[k]),
        rest.len() > 0 ==> !is_space(rest.last()),
    ensures
        trim_end(rest + space) == rest,
    decreases space.len(),
{
    if space.len() == 0 {
        assert(rest + space =~= rest);
    } else {
        assert((rest + space).drop_last() =~= rest + space.drop_last());
        lemma_trim_end(rest, space.drop_last());
    }
}

/// A reference as it is written: the keyword, the label with white space
/// around it, and the closing.
pub open spec fn written_ref(
    kind: RefKind,
    before: Seq<char>,
    label: Seq<char>,
    after: Seq<char>,
) -> Seq<char> {
    ref_keyword(kind) + before + label + after + ref_closing()
}

/// A reference that is written into a text is read back with its kind and
/// its label, without the white space that was written around the label. The
/// label holds no closing brace, and neither begins nor ends with white
/// space.
pub proof fn lemma_written_ref_is_read(
    pre: Seq<char>,
    kind: RefKind,
    before: Seq<char>,
    label: Seq<char>,
    after: Seq<char>,
    post: Seq<char>,
)
    requires
        forall|k: int| 0 <= k < before.len() ==> is_space(before[k]),
        forall|k: int| 0 <= k < after.len() ==> is_space(after[k]),
        !label.contains('}'),
        label.len() > 0 ==> !is_space(label[0]) && !is_space(label.last()),
    ensures
        ref_marker_at(pre + written_ref(kind, before, label, after) + post, pre.len() as int)
            == Some(
            RefMarker {
                start: pre.len() as int,
                end: (pre.len() + written_ref(kind, before, label, after).len()) as int,
                kind,
                label,
            },
        ),
{
    let w = written_ref(kind, before, label, after);
    let s = pre + w + post;
    let i = pre.len() as int;
    let a = i + ref_keyword(kind).len();
    let p = a + before.len() + label.len() + after.len();
    assert(s.subrange(i, a) =~= ref_keyword(kind));
    assert(has_at(s, i, ref_keyword(kind)));
    if kind == RefKind::Title {
        if has_at(s, i, ref_keyword(RefKind::Number)) {
            assert(s.subrange(i, i + 6)[2] == ref_keyword(RefKind::Number)[2]);
            assert(s.subrange(i, a)[2] == ref_keyword(RefKind::Title)[2]);
        }
    }
    assert(ref_kind_at(s, i) == Some(kind));
    assert(s.subrange(p, p + 2) =~= ref_closing());
    assert(has_at(s, p, ref_closing()));
    lemma_find_from(s, ref_closing(), a);
    let q = find_from(s, ref_closing(), a);
    if q < p {
        assert(s.subrange(q, q + 2)[0] == ref_closing()[0]);
        assert(s[q] == '}');
        if q < a + before.len() {
            assert(s[q] == before[q - a]);
        } else if q < a + before.len() + label.len() {
            assert(s[q] == label[q - a - before.len()]);
            assert(label.contains(label[q - a - before.len()]));
        } else {
            assert(s[q] == after[q - a - before.len() - label.len()]);
        }
    }
    assert(q == p);
    assert(s.subrange(a, p) =~= before + (label + after));
    if label.len() == 0 {
        assert(label + after =~= after);
        lemma_trim_start(before + after, Seq::<char>::empty());
        assert(before + after + Seq::<char>::empty() =~= before + after);
        assert(trimmed(s.subrange(a, p)) =~= label);
    } else {
        lemma_trim_start(before, label + after);
        lemma_trim_end(label, after);
    }
}

} // verus!
