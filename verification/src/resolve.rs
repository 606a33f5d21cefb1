//! The second pass: reference markers become links to the environments that
//! their labels were declared on.

use crate::marker::{
    closing_chars, is_space, keyword_chars, lemma_ref_marker_bounds, lemma_written_ref_is_read,
    ref_closing, ref_keyword, ref_marker_at, scan_ref_marker, written, written_ref, EnvMarker,
    RefKind, RefMarker,
};
use crate::numbering::{label_info, lemma_single_marker, numbered_name, registered_by, EnvView};
use crate::registry::{registered, LabelInfo, LabelInfoView, Registry};
use crate::relpath::{rel_path, rel_path_chars};
use crate::text::{push_all, push_range, push_str, to_chars, to_string};
use crate::warning::{warning_views, Warning, WarningView};
use vstd::prelude::*;

verus! {

/// The text that a link shows: for a reference by number the numbered name,
/// for a reference by title the title, or the numbered name where the
/// environment has no title.
pub open spec fn link_text(kind: RefKind, info: LabelInfoView) -> Seq<char> {
    match kind {
        RefKind::Number => info.num_name,
        RefKind::Title => match info.title {
            Some(t) => t,
            None => info.num_name,
        },
    }
}

/// Where a link leads: the relative path from the chapter at `from` to the
/// chapter that declares the label, then `#` and the label.
pub open spec fn link_target(from: Seq<char>, label: Seq<char>, info: LabelInfoView) -> Seq<char> {
    rel_path(from, info.path) + "#"@ + label
}

/// The link that stands for a reference to a declared label.
pub open spec fn link(from: Seq<char>, label: Seq<char>, kind: RefKind, info: LabelInfoView) -> Seq<
    char,
> {
    "["@ + link_text(kind, info) + "]("@ + link_target(from, label, info) + ")"@
}

/// What stands for a reference to a label that was never declared.
pub open spec fn placeholder() -> Seq<char> {
    "**[??]**"@
}

/// What stands in place of a reference marker in the chapter at `from`.
pub open spec fn resolution(
    from: Seq<char>,
    reg: Map<Seq<char>, LabelInfoView>,
    m: RefMarker,
) -> Seq<char> {
    if reg.contains_key(m.label) {
        link(from, m.label, m.kind, reg[m.label])
    } else {
        placeholder()
    }
}

/// The reference markers that a scan of `s` from `i` on finds: each is the
/// first that begins at or after the end of the one before it.
pub open spec fn ref_markers_from(s: Seq<char>, i: int) -> Seq<RefMarker>
    decreases s.len() - i,
{
    if i < 0 || i >= s.len() {
        Seq::empty()
    } else {
        match ref_marker_at(s, i) {
            Some(m) => {
                proof {
                    lemma_ref_marker_bounds(s, i);
                }
                seq![m] + ref_markers_from(s, m.end)
            },
            None => ref_markers_from(s, i + 1),
        }
    }
}

/// The reference markers in `s`, from left to right.
pub open spec fn ref_markers(s: Seq<char>) -> Seq<RefMarker> {
    ref_markers_from(s, 0)
}

/// Where the text after the first `k` reference markers begins.
pub open spec fn ref_gap_start(ms: Seq<RefMarker>, k: int) -> int {
    if k <= 0 {
        0
    } else {
        ms[k - 1].end
    }
}

/// The output up to the replacement of the `k`-th reference marker.
pub open spec fn resolved_upto(
    s: Seq<char>,
    ms: Seq<RefMarker>,
    k: nat,
    from: Seq<char>,
    reg: Map<Seq<char>, LabelInfoView>,
) -> Seq<char>
    decreases k,
{
    if k == 0 {
        Seq::empty()
    } else {
        resolved_upto(s, ms, (k - 1) as nat, from, reg) + s.subrange(
            ref_gap_start(ms, k - 1),
            ms[k - 1].start,
        ) + resolution(from, reg, ms[k - 1])
    }
}

/// The text `s` of the chapter at `from`, with each reference marker
/// replaced by its link, or by the placeholder where its label is unknown.
pub open spec fn resolved_text(
    s: Seq<char>,
    from: Seq<char>,
    reg: Map<Seq<char>, LabelInfoView>,
) -> Seq<char> {
    let ms = ref_markers(s);
    resolved_upto(s, ms, ms.len(), from, reg) + s.subrange(
        ref_gap_start(ms, ms.len() as int),
        s.len() as int,
    )
}

/// The warnings of the first `k` reference markers: one for each whose label
/// is unknown.
pub open spec fn unresolved_upto(
    ms: Seq<RefMarker>,
    k: nat,
    reg: Map<Seq<char>, LabelInfoView>,
) -> Seq<WarningView>
    decreases k,
{
    if k == 0 {
        Seq::empty()
    } else {
        let warned = unresolved_upto(ms, (k - 1) as nat, reg);
        if reg.contains_key(ms[k - 1].label) {
            warned
        } else {
            warned.push(WarningView::UnknownReference { label: ms[k - 1].label })
        }
    }
}

/// The warnings of the resolution of a text.
pub open spec fn unresolved_in(s: Seq<char>, reg: Map<Seq<char>, LabelInfoView>) -> Seq<
    WarningView,
> {
    unresolved_upto(ref_markers(s), ref_markers(s).len(), reg)
}

/// Appends the link for a reference to a declared label.
fn push_link(
    out: &mut Vec<char>,
    from: &Vec<char>,
    label: &Vec<char>,
    kind: RefKind,
    info: &LabelInfo,
)
    ensures
        final(out)@ == old(out)@ + link(from@, label@, kind, info@),
{
    push_str(out, "[");
    match kind {
        RefKind::Number => {
            push_str(out, info.num_name.as_str());
        },
        RefKind::Title => match &info.title {
            Some(t) => {
                push_str(out, t.as_str());
            },
            None => {
                push_str(out, info.num_name.as_str());
            },
        },
    }
    assert(out@ =~= old(out)@ + "["@ + link_text(kind, info@));
    push_str(out, "](");
    let to = to_chars(info.path.as_str());
    let rel = rel_path_chars(from, &to);
    push_all(out, &rel);
    push_str(out, "#");
    push_all(out, label);
    push_str(out, ")");
    assert(out@ =~= old(out)@ + link(from@, label@, kind, info@));
}

/// Resolves the reference markers in the characters `s`, as
/// `find_and_replace_refs` does, and appends the warnings to `warnings`.
pub fn resolve_chars(
    s: &Vec<char>,
    chap_path: &Vec<char>,
    refs: &Registry,
    warnings: &mut Vec<Warning>,
) -> (out: Vec<char>)
    ensures
        out@ == resolved_text(s@, chap_path@, refs@),
        warning_views(final(warnings)@) == warning_views(old(warnings)@) + unresolved_in(
            s@,
            refs@,
        ),
{
    let number = keyword_chars(RefKind::Number);
    let title = keyword_chars(RefKind::Title);
    let closing = closing_chars();
    let ghost ms = ref_markers(s@);
    let ghost ws0 = warning_views(warnings@);
    let ghost mut k: nat = 0;
    let mut out: Vec<char> = Vec::new();
    let mut i: usize = 0;
    let mut last: usize = 0;
    assert(ms.skip(0) =~= ms);
    assert(warning_views(warnings@) =~= ws0 + Seq::<WarningView>::empty());
    while i < s.len()
        invariant
            last <= i <= s.len(),
            number@ == ref_keyword(RefKind::Number),
            title@ == ref_keyword(RefKind::Title),
            closing@ == ref_closing(),
            ms == ref_markers(s@),
            k <= ms.len(),
            ms.skip(k as int) == ref_markers_from(s@, i as int),
            last == ref_gap_start(ms, k as int),
            out@ == resolved_upto(s@, ms, k, chap_path@, refs@),
            warning_views(warnings@) == ws0 + unresolved_upto(ms, k, refs@),
        decreases s.len() - i,
    {
        match scan_ref_marker(s, i, &number, &title, &closing) {
            None => {
                i += 1;
            },
            Some(m) => {
                proof {
                    lemma_ref_marker_bounds(s@, i as int);
                    let found = seq![m.marker(i as int)] + ref_markers_from(s@, m.end as int);
                    assert(ms.skip(k as int) == found);
                    assert(found.len() >= 1);
                    assert(k < ms.len());
                    assert(ms[k as int] == ms.skip(k as int)[0]);
                    assert(ms[k as int] == m.marker(i as int));
                    assert(ms.skip(k as int + 1) =~= ms.skip(k as int).skip(1));
                    assert(ms.skip(k as int).skip(1) =~= ref_markers_from(s@, m.end as int));
                }
                push_range(&mut out, s, last, i);
                let label = to_string(&m.label);
                match refs.get(label.as_str()) {
                    Some(info) => {
                        push_link(&mut out, chap_path, &m.label, m.kind, info);
                    },
                    None => {
                        push_str(&mut out, "**[??]**");
                        let ghost before = warning_views(warnings@);
                        let w = Warning::UnknownReference { label };
                        warnings.push(w);
                        assert(warning_views(warnings@) =~= before.push(w@));
                    },
                }
                i = m.end;
                last = m.end;
                proof {
                    k = k + 1;
                }
            },
        }
    }
    assert(k == ms.len());
    push_range(&mut out, s, last, s.len());
    out
}

/// What the resolution of a text gives.
pub struct Resolved {
    /// The text, with its reference markers replaced.
    pub content: String,
    /// The warnings, in the order of the markers that caused them.
    pub warnings: Vec<Warning>,
}

/// Replaces each marker `{{ref: label}}` or `{{tref: label}}` in `s`, the
/// text of the chapter at `chap_path`, by a link to the environment that
/// `refs` holds for the label. The link shows the numbered name for `ref`,
/// the title for `tref` (the numbered name where there is no title), and
/// leads to the label's anchor by the relative path from this chapter to the
/// chapter of the declaration. A marker whose label `refs` does not hold is
/// replaced by `**[??]**`, and a warning is given.
pub fn find_and_replace_refs(s: &str, chap_path: &str, refs: &Registry) -> (r: Resolved)
    ensures
        r.content@ == resolved_text(s@, chap_path@, refs@),
        warning_views(r.warnings@) == unresolved_in(s@, refs@),
{
    let chars = to_chars(s);
    let from = to_chars(chap_path);
    let mut warnings: Vec<Warning> = Vec::new();
    let out = resolve_chars(&chars, &from, refs, &mut warnings);
    assert(warning_views(warnings@) =~= unresolved_in(s@, refs@));
    Resolved { content: to_string(&out), warnings }
}

/// A reference to a label shows what the label's declaration recorded: the
/// link made for a reference to a label that a marker has just declared
/// shows the marker's numbered name if the reference is by number, and the
/// marker's title if it is by title, or the numbered name where the marker
/// has no title. It leads to the label's anchor in the marker's chapter.
pub proof fn lemma_reference_shows_declaration(
    reg: Map<Seq<char>, LabelInfoView>,
    env: EnvView,
    prefix: Seq<char>,
    path: Seq<char>,
    n: nat,
    m: EnvMarker,
    from: Seq<char>,
    r: RefMarker,
)
    requires
        m.label == Some(r.label),
        !reg.contains_key(r.label),
    ensures
        ({
            let name = numbered_name(env, prefix, n);
            let after = registered(reg, r.label, label_info(env, prefix, path, n, m));
            let shown = match r.kind {
                RefKind::Number => name,
                RefKind::Title => match m.title {
                    Some(t) => t,
                    None => name,
                },
            };
            resolution(from, after, r) == "["@ + shown + "]("@ + rel_path(from, path) + "#"@
                + r.label + ")"@
        }),
{
    let name = numbered_name(env, prefix, n);
    let after = registered(reg, r.label, label_info(env, prefix, path, n, m));
    let shown = match r.kind {
        RefKind::Number => name,
        RefKind::Title => match m.title {
            Some(t) => t,
            None => name,
        },
    };
    assert(resolution(from, after, r) =~= "["@ + shown + "]("@ + rel_path(from, path) + "#"@
        + r.label + ")"@);
}

/// A reference to a label of the same chapter leads to the anchor alone: the
/// target of its link is `#` and the label, with no path before it.
pub proof fn lemma_same_chapter_target(from: Seq<char>, label: Seq<char>, info: LabelInfoView)
    requires
        info.path == from,
    ensures
        link_target(from, label, info) == "#"@ + label,
{
    assert(link_target(from, label, info) =~= "#"@ + label);
}

/// A reference to a label that the registry does not hold is replaced by the
/// placeholder, and gives one warning that names the label.
pub proof fn lemma_unknown_reference(
    s: Seq<char>,
    ms: Seq<RefMarker>,
    k: nat,
    from: Seq<char>,
    reg: Map<Seq<char>, LabelInfoView>,
)
    requires
        0 < k <= ms.len(),
        !reg.contains_key(ms[k - 1].label),
    ensures
        resolved_upto(s, ms, k, from, reg) == resolved_upto(s, ms, (k - 1) as nat, from, reg)
            + s.subrange(ref_gap_start(ms, k - 1), ms[k - 1].start) + "**[??]**"@,
        unresolved_upto(ms, k, reg) == unresolved_upto(ms, (k - 1) as nat, reg).push(
            WarningView::UnknownReference { label: ms[k - 1].label },
        ),
{
}

/// A text in which no reference marker is found is left as it is, and gives
/// no warning.
pub proof fn lemma_text_without_reference(
    s: Seq<char>,
    from: Seq<char>,
    reg: Map<Seq<char>, LabelInfoView>,
)
    requires
        ref_markers(s).len() == 0,
    ensures
        resolved_text(s, from, reg) == s,
        unresolved_in(s, reg) == Seq::<WarningView>::empty(),
{
    assert(resolved_text(s, from, reg) =~= s);
}

/// Declaring a label and then referring to it: once a text that is one
/// marker with a label has been numbered, a text that is one reference to
/// that label is resolved to a link that shows the marker's numbered name
/// (or its title, for a reference by title to a marker with a title) and
/// leads to the label's anchor in the chapter of the marker. The label was
/// not declared before, holds no closing brace, and neither begins nor ends
/// with white space.
pub proof fn lemma_declare_then_refer(
    reg: Map<Seq<char>, LabelInfoView>,
    env: EnvView,
    prefix: Seq<char>,
    path: Seq<char>,
    start: nat,
    label: Seq<char>,
    title: Option<Seq<char>>,
    from: Seq<char>,
    kind: RefKind,
    before: Seq<char>,
    after: Seq<char>,
)
    requires
        !reg.contains_key(label),
        !label.contains('}'),
        label.len() > 0 ==> !is_space(label[0]) && !is_space(label.last()),
        title matches Some(t) ==> !t.contains(']'),
        forall|k: int| 0 <= k < before.len() ==> is_space(before[k]),
        forall|k: int| 0 <= k < after.len() ==> is_space(after[k]),
    ensures
        ({
            let declared = registered_by(
                reg,
                written(env.key, Some(label), title),
                env,
                prefix,
                path,
                start,
            );
            let name = numbered_name(env, prefix, start + 1);
            let shown = match kind {
                RefKind::Number => name,
                RefKind::Title => match title {
                    Some(t) => t,
                    None => name,
                },
            };
            resolved_text(written_ref(kind, before, label, after), from, declared) == "["@
                + shown + "]("@ + rel_path(from, path) + "#"@ + label + ")"@
        }),
{
    let s1 = written(env.key, Some(label), title);
    let m = EnvMarker { start: 0, end: s1.len() as int, label: Some(label), title };
    lemma_single_marker(reg, env, prefix, path, start, Some(label), title);
    let declared = registered_by(reg, s1, env, prefix, path, start);
    let s2 = written_ref(kind, before, label, after);
    let r = RefMarker { start: 0, end: s2.len() as int, kind, label };
    lemma_written_ref_is_read(Seq::empty(), kind, before, label, after, Seq::empty());
    assert(Seq::<char>::empty() + s2 + Seq::<char>::empty() =~= s2);
    assert(s2.len() >= 2);
    assert(ref_markers_from(s2, s2.len() as int) =~= Seq::<RefMarker>::empty());
    let ms = ref_markers(s2);
    assert(ms =~= seq![r]);
    assert(resolved_upto(s2, ms, 0, from, declared) =~= Seq::<char>::empty());
    assert(resolved_text(s2, from, declared) =~= resolution(from, declared, r));
    lemma_reference_shows_declaration(reg, env, prefix, path, start + 1, m, from, r);
}

} // verus!
