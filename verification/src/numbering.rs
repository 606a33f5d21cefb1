//! The first pass: declaration markers become numbered headers, and the
//! labels that they declare are recorded.

use crate::marker::{
    env_marker_at, lemma_env_marker_bounds, lemma_written_marker_is_read, opening,
    scan_env_marker, written, EnvMarker, EnvMatch,
};
use crate::registry::{registered, LabelInfo, LabelInfoView, Registry};
use crate::text::{decimal, push_all, push_decimal, push_range, push_str, to_chars, to_string};
use crate::warning::{warning_views, Warning, WarningView};
use vstd::prelude::*;

verus! {

/// A kind of environment.
#[derive(Debug, PartialEq, Eq)]
pub struct Env {
    /// The key of its markers, such as `thm`.
    pub key: String,
    /// The name shown in its headers, such as `Theorem`.
    pub name: String,
    /// The emphasis delimiter put around its headers, such as `**`.
    pub emph: String,
}

/// The mathematical content of an `Env`.
pub struct EnvView {
    pub key: Seq<char>,
    pub name: Seq<char>,
    pub emph: Seq<char>,
}

impl View for Env {
    type V = EnvView;

    open spec fn view(&self) -> EnvView {
        EnvView { key: self.key@, name: self.name@, emph: self.emph@ }
    }
}

/// The name of the `n`-th environment of its kind: the kind's name, a space,
/// and the number, which is the chapter's prefix followed by `n`.
pub open spec fn numbered_name(env: EnvView, prefix: Seq<char>, n: nat) -> Seq<char> {
    env.name + " "@ + prefix + decimal(n)
}

/// The title in parentheses, where there is a title.
pub open spec fn title_part(title: Option<Seq<char>>) -> Seq<char> {
    match title {
        Some(t) => " ("@ + t + ")"@,
        None => Seq::empty(),
    }
}

/// The header of an environment: inside the emphasis delimiters, the numbered
/// name, the title in parentheses if there is one, and a period.
pub open spec fn header(env: EnvView, prefix: Seq<char>, n: nat, title: Option<Seq<char>>) -> Seq<
    char,
> {
    env.emph + numbered_name(env, prefix, n) + title_part(title) + "."@ + env.emph
}

/// The anchor that a label is bound to, on a line of its own.
pub open spec fn anchor(label: Seq<char>) -> Seq<char> {
    "<a name=\""@ + label + "\"></a>\n"@
}

/// The anchor of the label, where there is a label.
pub open spec fn anchor_part(label: Option<Seq<char>>) -> Seq<char> {
    match label {
        Some(l) => anchor(l),
        None => Seq::empty(),
    }
}

/// What stands in place of a marker: the anchor of its label, if it has one,
/// and the header.
pub open spec fn replacement(env: EnvView, prefix: Seq<char>, n: nat, m: EnvMarker) -> Seq<char> {
    anchor_part(m.label) + header(env, prefix, n, m.title)
}

/// What is recorded for the label of a marker.
pub open spec fn label_info(
    env: EnvView,
    prefix: Seq<char>,
    path: Seq<char>,
    n: nat,
    m: EnvMarker,
) -> LabelInfoView {
    LabelInfoView { num_name: numbered_name(env, prefix, n), path, title: m.title }
}

/// The markers for `key` that a scan of `s` from `i` on finds: each is the
/// first that begins at or after the end of the one before it.
pub open spec fn env_markers_from(s: Seq<char>, key: Seq<char>, i: int) -> Seq<EnvMarker>
    decreases s.len() - i,
{
    if i < 0 || i >= s.len() {
        Seq::empty()
    } else {
        match env_marker_at(s, key, i) {
            Some(m) => {
                proof {
                    lemma_env_marker_bounds(s, key, i);
                }
                seq![m] + env_markers_from(s, key, m.end)
            },
            None => env_markers_from(s, key, i + 1),
        }
    }
}

/// The markers for `key` in `s`, from left to right.
pub open spec fn env_markers(s: Seq<char>, key: Seq<char>) -> Seq<EnvMarker> {
    env_markers_from(s, key, 0)
}

/// Where the text after the first `k` markers begins.
pub open spec fn gap_start(ms: Seq<EnvMarker>, k: int) -> int {
    if k <= 0 {
        0
    } else {
        ms[k - 1].end
    }
}

/// The output up to the replacement of the `k`-th marker: the text before
/// each of the first `k` markers, and the marker's replacement, the `j`-th
/// marker being numbered `start + j`.
pub open spec fn numbered_upto(
    s: Seq<char>,
    ms: Seq<EnvMarker>,
    k: nat,
    env: EnvView,
    prefix: Seq<char>,
    start: nat,
) -> Seq<char>
    decreases k,
{
    if k == 0 {
        Seq::empty()
    } else {
        numbered_upto(s, ms, (k - 1) as nat, env, prefix, start) + s.subrange(
            gap_start(ms, k - 1),
            ms[k - 1].start,
        ) + replacement(env, prefix, start + k, ms[k - 1])
    }
}

/// The text `s` with each marker of `env` replaced, the first of them being
/// numbered `start + 1`.
pub open spec fn numbered_text(s: Seq<char>, env: EnvView, prefix: Seq<char>, start: nat) -> Seq<
    char,
> {
    let ms = env_markers(s, env.key);
    numbered_upto(s, ms, ms.len(), env, prefix, start) + s.subrange(
        gap_start(ms, ms.len() as int),
        s.len() as int,
    )
}

/// The registry after the first `k` markers: each labelled marker declares its
/// label, in order.
pub open spec fn registered_upto(
    reg: Map<Seq<char>, LabelInfoView>,
    ms: Seq<EnvMarker>,
    k: nat,
    env: EnvView,
    prefix: Seq<char>,
    path: Seq<char>,
    start: nat,
) -> Map<Seq<char>, LabelInfoView>
    decreases k,
{
    if k == 0 {
        reg
    } else {
        let before = registered_upto(reg, ms, (k - 1) as nat, env, prefix, path, start);
        match ms[k - 1].label {
            Some(l) => registered(before, l, label_info(env, prefix, path, start + k, ms[k - 1])),
            None => before,
        }
    }
}

/// The warnings of the first `k` markers: one for each marker whose label was
/// declared before it.
pub open spec fn warned_upto(
    reg: Map<Seq<char>, LabelInfoView>,
    ms: Seq<EnvMarker>,
    k: nat,
    env: EnvView,
    prefix: Seq<char>,
    path: Seq<char>,
    start: nat,
) -> Seq<WarningView>
    decreases k,
{
    if k == 0 {
        Seq::empty()
    } else {
        let warned = warned_upto(reg, ms, (k - 1) as nat, env, prefix, path, start);
        let before = registered_upto(reg, ms, (k - 1) as nat, env, prefix, path, start);
        match ms[k - 1].label {
            Some(l) if before.contains_key(l) => warned.push(
                WarningView::DuplicateLabel {
                    numbered_name: numbered_name(env, prefix, start + k),
                    label: l,
                },
            ),
            _ => warned,
        }
    }
}

/// The registry after the numbering of a text.
pub open spec fn registered_by(
    reg: Map<Seq<char>, LabelInfoView>,
    s: Seq<char>,
    env: EnvView,
    prefix: Seq<char>,
    path: Seq<char>,
    start: nat,
) -> Map<Seq<char>, LabelInfoView> {
    let ms = env_markers(s, env.key);
    registered_upto(reg, ms, ms.len(), env, prefix, path, start)
}

/// The warnings of the numbering of a text.
pub open spec fn warned_by(
    reg: Map<Seq<char>, LabelInfoView>,
    s: Seq<char>,
    env: EnvView,
    prefix: Seq<char>,
    path: Seq<char>,
    start: nat,
) -> Seq<WarningView> {
    let ms = env_markers(s, env.key);
    warned_upto(reg, ms, ms.len(), env, prefix, path, start)
}

/// A scan from `i` finds no more markers than `s` has characters left.
pub proof fn lemma_env_markers_len(s: Seq<char>, key: Seq<char>, i: int)
    requires
        0 <= i <= s.len(),
    ensures
        env_markers_from(s, key, i).len() <= s.len() - i,
    decreases s.len() - i,
{
    if i < s.len() {
        match env_marker_at(s, key, i) {
            Some(m) => {
                lemma_env_marker_bounds(s, key, i);
                lemma_env_markers_len(s, key, m.end);
            },
            None => {
                lemma_env_markers_len(s, key, i + 1);
            },
        }
    }
}

fn push_numbered_name(out: &mut Vec<char>, env: &Env, prefix: &str, n: u128)
    ensures
        final(out)@ == old(out)@ + numbered_name(env@, prefix@, n as nat),
{
    push_str(out, env.name.as_str());
    push_str(out, " ");
    push_str(out, prefix);
    push_decimal(out, n);
    assert(out@ =~= old(out)@ + numbered_name(env@, prefix@, n as nat));
}

fn push_replacement(out: &mut Vec<char>, env: &Env, prefix: &str, n: u128, m: &EnvMatch, Ghost(at): Ghost<int>)
    ensures
        final(out)@ == old(out)@ + replacement(env@, prefix@, n as nat, m.marker(at)),
{
    match &m.label {
        Some(l) => {
            push_str(out, "<a name=\"");
            push_all(out, l);
            push_str(out, "\"></a>\n");
        },
        None => {},
    }
    assert(out@ =~= old(out)@ + anchor_part(m.marker(at).label));
    push_str(out, env.emph.as_str());
    push_numbered_name(out, env, prefix, n);
    match &m.title {
        Some(t) => {
            push_str(out, " (");
            push_all(out, t);
            push_str(out, ")");
        },
        None => {},
    }
    assert(out@ =~= old(out)@ + anchor_part(m.marker(at).label) + env@.emph + numbered_name(
        env@,
        prefix@,
        n as nat,
    ) + title_part(m.marker(at).title));
    push_str(out, ".");
    push_str(out, env.emph.as_str());
    assert(out@ =~= old(out)@ + replacement(env@, prefix@, n as nat, m.marker(at)));
}

/// The opening of the markers of a key, as characters.
fn opener_of(key: &str) -> (v: Vec<char>)
    ensures
        v@ == opening(key@),
{
    let mut v: Vec<char> = Vec::new();
    v.push('{');
    v.push('{');
    push_str(&mut v, key);
    v.push('}');
    v.push('}');
    assert(v@ =~= opening(key@));
    v
}

/// The characters of an optional run of characters, as a string.
fn opt_string(v: &Option<Vec<char>>) -> (s: Option<String>)
    ensures
        s is Some == v is Some,
        s matches Some(t) ==> t@ == v.unwrap()@,
{
    match v {
        Some(t) => Some(to_string(t)),
        None => None,
    }
}

/// Numbers the markers of `env` in the characters `s`, as
/// `find_and_replace_envs` does, and appends the warnings to `warnings`.
pub fn number_chars(
    s: &Vec<char>,
    prefix: &str,
    path: &str,
    env: &Env,
    start: u128,
    refs: &mut Registry,
    warnings: &mut Vec<Warning>,
) -> (r: (Vec<char>, u128))
    requires
        start + env_markers(s@, env@.key).len() <= u128::MAX,
    ensures
        r.0@ == numbered_text(s@, env@, prefix@, start as nat),
        r.1 == start + env_markers(s@, env@.key).len(),
        final(refs)@ == registered_by(old(refs)@, s@, env@, prefix@, path@, start as nat),
        warning_views(final(warnings)@) == warning_views(old(warnings)@) + warned_by(
            old(refs)@,
            s@,
            env@,
            prefix@,
            path@,
            start as nat,
        ),
{
    let opener = opener_of(env.key.as_str());
    let ghost key = env@.key;
    let ghost ms = env_markers(s@, key);
    let ghost reg0 = refs@;
    let ghost ws0 = warning_views(warnings@);
    let ghost mut k: nat = 0;
    let mut out: Vec<char> = Vec::new();
    let mut i: usize = 0;
    let mut last: usize = 0;
    let mut n: u128 = start;
    assert(ms.skip(0) =~= ms);
    assert(warning_views(warnings@) =~= ws0 + Seq::<WarningView>::empty());
    while i < s.len()
        invariant
            last <= i <= s.len(),
            opener@ == opening(key),
            key == env@.key,
            ms == env_markers(s@, key),
            start + ms.len() <= u128::MAX,
            k <= ms.len(),
            ms.skip(k as int) == env_markers_from(s@, key, i as int),
            last == gap_start(ms, k as int),
            n == start + k,
            out@ == numbered_upto(s@, ms, k, env@, prefix@, start as nat),
            refs@ == registered_upto(reg0, ms, k, env@, prefix@, path@, start as nat),
            warning_views(warnings@) == ws0 + warned_upto(
                reg0,
                ms,
                k,
                env@,
                prefix@,
                path@,
                start as nat,
            ),
        decreases s.len() - i,
    {
        match scan_env_marker(s, &opener, i, Ghost(key)) {
            None => {
                i += 1;
            },
            Some(m) => {
                proof {
                    lemma_env_marker_bounds(s@, key, i as int);
                    let found = seq![m.marker(i as int)] + env_markers_from(s@, key, m.end as int);
                    assert(ms.skip(k as int) == found);
                    assert(found.len() >= 1);
                    assert(k < ms.len());
                    assert(ms[k as int] == ms.skip(k as int)[0]);
                    assert(ms[k as int] == m.marker(i as int));
                    assert(ms.skip(k as int + 1) =~= ms.skip(k as int).skip(1));
                    assert(ms.skip(k as int).skip(1) =~= env_markers_from(s@, key, m.end as int));
                }
                push_range(&mut out, s, last, i);
                n = n + 1;
                match &m.label {
                    Some(l) => {
                        let mut name: Vec<char> = Vec::new();
                        push_numbered_name(&mut name, env, prefix, n);
                        let label = to_string(l);
                        if refs.contains_key(label.as_str()) {
                            let ghost before = warning_views(warnings@);
                            let w = Warning::DuplicateLabel { numbered_name: to_string(&name), label };
                            warnings.push(w);
                            assert(warning_views(warnings@) =~= before.push(w@));
                        } else {
                            let info = LabelInfo {
                                num_name: to_string(&name),
                                path: path.to_owned(),
                                title: opt_string(&m.title),
                            };
                            assert(info@ == label_info(
                                env@,
                                prefix@,
                                path@,
                                n as nat,
                                m.marker(i as int),
                            ));
                            refs.register(label, info);
                        }
                    },
                    None => {},
                }
                push_replacement(&mut out, env, prefix, n, &m, Ghost(i as int));
                i = m.end;
                last = m.end;
                proof {
                    k = k + 1;
                }
            },
        }
    }
    assert(k == ms.len());
    push_range(&mut out, s, last, s.len());
    (out, n)
}

/// What the numbering of a text gives, besides the entries that it adds to
/// the registry.
pub struct Numbered {
    /// The text, with its markers replaced.
    pub content: String,
    /// The number given to the last marker, or the number that the count
    /// started from if the text has no marker.
    pub counter: u128,
    /// The warnings, in the order of the markers that caused them.
    pub warnings: Vec<Warning>,
}

/// Replaces each marker `{{key}}{label}[title]` of `env` in `s`, where
/// `{label}` and `[title]` may each be left out, by a numbered header, with
/// the title if one is given, behind an anchor if a label is given. The
/// markers are numbered from `start + 1` on, behind the chapter's `prefix`.
/// Each label is recorded in `refs` with the numbered name, the chapter's
/// `path` and the title, unless the label is there already: then the entry
/// stays as it is and a warning is given. The last number must fit the
/// counter: `start` and the number of markers together do not exceed the
/// largest `u128`.
pub fn find_and_replace_envs(
    s: &str,
    prefix: &str,
    path: &str,
    env: &Env,
    start: u128,
    refs: &mut Registry,
) -> (r: Numbered)
    requires
        start + env_markers(s@, env@.key).len() <= u128::MAX,
    ensures
        r.content@ == numbered_text(s@, env@, prefix@, start as nat),
        r.counter == start + env_markers(s@, env@.key).len(),
        final(refs)@ == registered_by(old(refs)@, s@, env@, prefix@, path@, start as nat),
        warning_views(r.warnings@) == warned_by(
            old(refs)@,
            s@,
            env@,
            prefix@,
            path@,
            start as nat,
        ),
{
    let chars = to_chars(s);
    let mut warnings: Vec<Warning> = Vec::new();
    let (out, counter) = number_chars(&chars, prefix, path, env, start, refs, &mut warnings);
    assert(warning_views(warnings@) =~= warned_by(
        old(refs)@,
        s@,
        env@,
        prefix@,
        path@,
        start as nat,
    ));
    Numbered { content: to_string(&out), counter, warnings }
}

/// A marker with neither label nor title is replaced by the emphasis, the
/// name, a space, the prefix, the number, a period and the emphasis, and by
/// nothing else.
pub proof fn lemma_plain_marker(env: EnvView, prefix: Seq<char>, n: nat, m: EnvMarker)
    requires
        m.label is None,
        m.title is None,
    ensures
        replacement(env, prefix, n, m) == env.emph + env.name + " "@ + prefix + decimal(n) + "."@
            + env.emph,
{
    assert(replacement(env, prefix, n, m) =~= env.emph + env.name + " "@ + prefix + decimal(n)
        + "."@ + env.emph);
}

/// A marker with a title is replaced by the same header with the title in
/// parentheses, after a space, before the period.
pub proof fn lemma_titled_marker(
    env: EnvView,
    prefix: Seq<char>,
    n: nat,
    m: EnvMarker,
    title: Seq<char>,
)
    requires
        m.title == Some(title),
    ensures
        replacement(env, prefix, n, m) == anchor_part(m.label) + env.emph + env.name + " "@
            + prefix + decimal(n) + " ("@ + title + ")"@ + "."@ + env.emph,
{
    assert(replacement(env, prefix, n, m) =~= anchor_part(m.label) + env.emph + env.name + " "@
        + prefix + decimal(n) + " ("@ + title + ")"@ + "."@ + env.emph);
}

/// A marker with a label is replaced by the anchor of the label, which ends
/// its line, and then by what the marker without the label is replaced by.
pub proof fn lemma_labelled_marker(
    env: EnvView,
    prefix: Seq<char>,
    n: nat,
    m: EnvMarker,
    label: Seq<char>,
)
    requires
        m.label == Some(label),
    ensures
        replacement(env, prefix, n, m) == "<a name=\""@ + label + "\"></a>\n"@ + replacement(
            env,
            prefix,
            n,
            EnvMarker { label: None, ..m },
        ),
        anchor(label).last() == '\n',
{
    reveal_strlit("\"></a>\n");
    assert(replacement(env, prefix, n, m) =~= "<a name=\""@ + label + "\"></a>\n"@ + replacement(
        env,
        prefix,
        n,
        EnvMarker { label: None, ..m },
    ));
}

/// The numbering of a text takes no entry out of the registry and changes
/// none: a label that was declared before keeps what was recorded for it.
pub proof fn lemma_entries_stay(
    reg: Map<Seq<char>, LabelInfoView>,
    ms: Seq<EnvMarker>,
    k: nat,
    env: EnvView,
    prefix: Seq<char>,
    path: Seq<char>,
    start: nat,
    label: Seq<char>,
)
    requires
        reg.contains_key(label),
    ensures
        registered_upto(reg, ms, k, env, prefix, path, start).contains_key(label),
        registered_upto(reg, ms, k, env, prefix, path, start)[label] == reg[label],
    decreases k,
{
    if k > 0 {
        lemma_entries_stay(reg, ms, (k - 1) as nat, env, prefix, path, start, label);
    }
}

/// The numbering of a text keeps a finite registry finite.
pub proof fn lemma_registry_stays_finite(
    reg: Map<Seq<char>, LabelInfoView>,
    ms: Seq<EnvMarker>,
    k: nat,
    env: EnvView,
    prefix: Seq<char>,
    path: Seq<char>,
    start: nat,
)
    requires
        reg.dom().finite(),
    ensures
        registered_upto(reg, ms, k, env, prefix, path, start).dom().finite(),
    decreases k,
{
    if k > 0 {
        lemma_registry_stays_finite(reg, ms, (k - 1) as nat, env, prefix, path, start);
    }
}

/// What the `k`-th marker does to the registry. Without a label it does
/// nothing. With a label not seen before it adds exactly one entry, which
/// holds the marker's numbered name, the chapter's path and the marker's
/// title, and gives no warning. With a label that is there already it adds
/// nothing and changes nothing, and gives one warning.
pub proof fn lemma_marker_registers(
    reg: Map<Seq<char>, LabelInfoView>,
    ms: Seq<EnvMarker>,
    k: nat,
    env: EnvView,
    prefix: Seq<char>,
    path: Seq<char>,
    start: nat,
)
    requires
        reg.dom().finite(),
        0 < k <= ms.len(),
    ensures
        ({
            let before = registered_upto(reg, ms, (k - 1) as nat, env, prefix, path, start);
            let after = registered_upto(reg, ms, k, env, prefix, path, start);
            let warned = warned_upto(reg, ms, (k - 1) as nat, env, prefix, path, start);
            let warned_after = warned_upto(reg, ms, k, env, prefix, path, start);
            match ms[k - 1].label {
                None => after == before && warned_after == warned,
                Some(l) => if before.contains_key(l) {
                    &&& after == before
                    &&& warned_after == warned.push(
                        WarningView::DuplicateLabel {
                            numbered_name: numbered_name(env, prefix, start + k),
                            label: l,
                        },
                    )
                } else {
                    &&& after.len() == before.len() + 1
                    &&& after == before.insert(l, after[l])
                    &&& after[l] == LabelInfoView {
                        num_name: numbered_name(env, prefix, start + k),
                        path,
                        title: ms[k - 1].title,
                    }
                    &&& warned_after == warned
                },
            }
        }),
{
    lemma_registry_stays_finite(reg, ms, (k - 1) as nat, env, prefix, path, start);
}

/// A text that is one marker, as it is written, is numbered to the marker's
/// replacement, with the number that follows `start`; its label, if it has
/// one, is declared, and nothing else is.
pub proof fn lemma_single_marker(
    reg: Map<Seq<char>, LabelInfoView>,
    env: EnvView,
    prefix: Seq<char>,
    path: Seq<char>,
    start: nat,
    label: Option<Seq<char>>,
    title: Option<Seq<char>>,
)
    requires
        label matches Some(l) ==> !l.contains('}'),
        title matches Some(t) ==> !t.contains(']'),
    ensures
        ({
            let s = written(env.key, label, title);
            let m = EnvMarker { start: 0, end: s.len() as int, label, title };
            &&& env_markers(s, env.key) == seq![m]
            &&& numbered_text(s, env, prefix, start) == replacement(env, prefix, start + 1, m)
            &&& registered_by(reg, s, env, prefix, path, start) == match label {
                Some(l) => registered(reg, l, label_info(env, prefix, path, start + 1, m)),
                None => reg,
            }
        }),
{
    let s = written(env.key, label, title);
    let m = EnvMarker { start: 0, end: s.len() as int, label, title };
    lemma_written_marker_is_read(Seq::empty(), env.key, label, title, Seq::empty());
    assert(Seq::<char>::empty() + s + Seq::<char>::empty() =~= s);
    assert(opening(env.key).len() == env.key.len() + 4);
    assert(env_markers_from(s, env.key, s.len() as int) =~= Seq::<EnvMarker>::empty());
    let ms = env_markers(s, env.key);
    assert(ms =~= seq![m]);
    assert(numbered_upto(s, ms, 0, env, prefix, start) =~= Seq::<char>::empty());
    assert(registered_upto(reg, ms, 0, env, prefix, path, start) == reg);
    assert(numbered_text(s, env, prefix, start) =~= replacement(env, prefix, start + 1, m));
}

/// A text in which no marker of the kind is found is left as it is: nothing
/// is counted, declared or warned of. What looks like a marker but is not
/// written out in full stays as text.
pub proof fn lemma_text_without_marker(
    reg: Map<Seq<char>, LabelInfoView>,
    s: Seq<char>,
    env: EnvView,
    prefix: Seq<char>,
    path: Seq<char>,
    start: nat,
)
    requires
        env_markers(s, env.key).len() == 0,
    ensures
        numbered_text(s, env, prefix, start) == s,
        registered_by(reg, s, env, prefix, path, start) == reg,
        warned_by(reg, s, env, prefix, path, start) == Seq::<WarningView>::empty(),
{
    assert(numbered_text(s, env, prefix, start) =~= s);
}

} // verus!
