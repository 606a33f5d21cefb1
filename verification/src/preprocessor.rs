//! The preprocessor: its configuration, and the two passes over the chapters
//! of a book.

use crate::numbering::{
    env_markers, lemma_entries_stay, lemma_env_markers_len, number_chars, numbered_text,
    registered_by, warned_by, Env, EnvView,
};
use crate::registry::{opt_view, LabelInfoView, Registry};
use crate::resolve::{resolve_chars, resolved_text, unresolved_in};
use crate::text::{to_chars, to_string};
use crate::warning::{warning_views, Warning, WarningView};
use vstd::prelude::*;

verus! {

/// A chapter of the book, as far as the preprocessor reads and writes it.
#[derive(Debug, PartialEq, Eq)]
pub struct Chapter {
    /// The text of the chapter.
    pub content: String,
    /// The path of the chapter's file. A draft chapter has none.
    pub path: Option<String>,
    /// The section number of the chapter, written out, such as `1.2.`.
    pub number: Option<String>,
}

/// The mathematical content of a `Chapter`.
pub struct ChapterView {
    pub content: Seq<char>,
    pub path: Option<Seq<char>>,
    pub number: Option<Seq<char>>,
}

impl View for Chapter {
    type V = ChapterView;

    open spec fn view(&self) -> ChapterView {
        ChapterView {
            content: self.content@,
            path: opt_view(self.path),
            number: opt_view(self.number),
        }
    }
}

/// The content of each chapter of a list.
pub open spec fn chapter_views(cs: Seq<Chapter>) -> Seq<ChapterView> {
    cs.map_values(|c: Chapter| c@)
}

/// The content of each kind of environment of a list.
pub open spec fn env_views(es: Seq<Env>) -> Seq<EnvView> {
    es.map_values(|e: Env| e@)
}

/// The prefix of the numbers in a chapter: the chapter's section number, if
/// prefixes are wanted and the chapter has one.
pub open spec fn prefix_of(with_prefix: bool, number: Option<Seq<char>>) -> Seq<char> {
    match number {
        Some(n) if with_prefix => n,
        _ => Seq::empty(),
    }
}

/// What the first pass has gathered at some point of its way.
pub struct Numbering {
    /// For each kind of environment, how many of its markers were numbered.
    pub counters: Seq<nat>,
    /// The labels declared.
    pub registry: Map<Seq<char>, LabelInfoView>,
    /// The warnings given.
    pub warnings: Seq<WarningView>,
}

/// A text, and the state of the first pass after it.
pub struct ChapterPass {
    pub text: Seq<char>,
    pub state: Numbering,
}

/// The state that the first pass starts from: nothing counted, nothing
/// declared.
pub open spec fn initial(envs: Seq<EnvView>) -> Numbering {
    Numbering {
        counters: Seq::new(envs.len(), |j: int| 0nat),
        registry: Map::empty(),
        warnings: Seq::empty(),
    }
}

/// One step of the first pass: the markers of the kind `envs[j]` in `text`
/// are numbered, from that kind's counter on.
pub open spec fn number_step(
    text: Seq<char>,
    prefix: Seq<char>,
    path: Seq<char>,
    envs: Seq<EnvView>,
    j: int,
    st: Numbering,
) -> ChapterPass {
    let found = env_markers(text, envs[j].key).len();
    ChapterPass {
        text: numbered_text(text, envs[j], prefix, st.counters[j]),
        state: Numbering {
            counters: st.counters.update(j, st.counters[j] + found),
            registry: registered_by(st.registry, text, envs[j], prefix, path, st.counters[j]),
            warnings: st.warnings + warned_by(
                st.registry,
                text,
                envs[j],
                prefix,
                path,
                st.counters[j],
            ),
        },
    }
}

/// The first pass over one chapter, as far as the first `j` kinds: each kind
/// in turn is numbered in the text that the kinds before it have left.
pub open spec fn number_chapter(
    text: Seq<char>,
    prefix: Seq<char>,
    path: Seq<char>,
    envs: Seq<EnvView>,
    j: nat,
    st: Numbering,
) -> ChapterPass
    decreases j,
{
    if j == 0 {
        ChapterPass { text, state: st }
    } else {
        let before = number_chapter(text, prefix, path, envs, (j - 1) as nat, st);
        number_step(before.text, prefix, path, envs, j - 1, before.state)
    }
}

/// The texts of the first `k` chapters after the first pass, and its state
/// then. The chapters are taken in order; a draft chapter is passed over.
pub struct BookPass {
    pub texts: Seq<Seq<char>>,
    pub state: Numbering,
}

/// The first pass over the first `k` chapters.
pub open spec fn number_book(
    chapters: Seq<ChapterView>,
    envs: Seq<EnvView>,
    with_prefix: bool,
    k: nat,
) -> BookPass
    decreases k,
{
    if k == 0 {
        BookPass { texts: Seq::empty(), state: initial(envs) }
    } else {
        let before = number_book(chapters, envs, with_prefix, (k - 1) as nat);
        let ch = chapters[k - 1];
        match ch.path {
            Some(path) => {
                let done = number_chapter(
                    ch.content,
                    prefix_of(with_prefix, ch.number),
                    path,
                    envs,
                    envs.len(),
                    before.state,
                );
                BookPass { texts: before.texts.push(done.text), state: done.state }
            },
            None => BookPass { texts: before.texts.push(ch.content), state: before.state },
        }
    }
}

/// The text of a chapter after the second pass, given its text after the
/// first and the registry that the first pass has filled.
pub open spec fn resolved_chapter(
    ch: ChapterView,
    text: Seq<char>,
    reg: Map<Seq<char>, LabelInfoView>,
) -> Seq<char> {
    match ch.path {
        Some(path) => resolved_text(text, path, reg),
        None => text,
    }
}

/// The warnings of the second pass over the first `k` chapters.
pub open spec fn unresolved_upto_chapter(
    chapters: Seq<ChapterView>,
    texts: Seq<Seq<char>>,
    reg: Map<Seq<char>, LabelInfoView>,
    k: nat,
) -> Seq<WarningView>
    decreases k,
{
    if k == 0 {
        Seq::empty()
    } else {
        let before = unresolved_upto_chapter(chapters, texts, reg, (k - 1) as nat);
        match chapters[k - 1].path {
            Some(_) => before + unresolved_in(texts[k - 1], reg),
            None => before,
        }
    }
}

/// The book after both passes.
pub struct Processed {
    /// The chapters, each with its new text.
    pub chapters: Seq<ChapterView>,
    /// The warnings of the first pass, then those of the second.
    pub warnings: Seq<WarningView>,
}

/// Both passes over a book: all chapters are numbered, and only then are the
/// references resolved, against the registry of the whole book.
pub open spec fn processed(chapters: Seq<ChapterView>, envs: Seq<EnvView>, with_prefix: bool) -> Processed {
    let first = number_book(chapters, envs, with_prefix, chapters.len());
    Processed {
        chapters: Seq::new(
            chapters.len(),
            |i: int|
                ChapterView {
                    content: resolved_chapter(chapters[i], first.texts[i], first.state.registry),
                    path: chapters[i].path,
                    number: chapters[i].number,
                },
        ),
        warnings: first.state.warnings + unresolved_upto_chapter(
            chapters,
            first.texts,
            first.state.registry,
            chapters.len(),
        ),
    }
}

/// The counters as numbers without bound.
pub open spec fn counts(cs: Seq<u128>) -> Seq<nat> {
    cs.map_values(|c: u128| c as nat)
}

/// The state of the first pass, as the variables of the pass hold it.
pub open spec fn state_of(
    counters: Seq<u128>,
    registry: Map<Seq<char>, LabelInfoView>,
    warnings: Seq<Warning>,
) -> Numbering {
    Numbering { counters: counts(counters), registry, warnings: warning_views(warnings) }
}

/// A text together with a state.
pub open spec fn with_state(text: Seq<char>, state: Numbering) -> ChapterPass {
    ChapterPass { text, state }
}

/// The first pass over one chapter.
fn number_chapter_chars(
    text: Vec<char>,
    prefix: &str,
    path: &str,
    envs: &Vec<Env>,
    counters: &mut Vec<u128>,
    refs: &mut Registry,
    warnings: &mut Vec<Warning>,
    Ghost(bound): Ghost<nat>,
) -> (out: Vec<char>)
    requires
        old(counters).len() == envs.len(),
        forall|j: int| 0 <= j < envs.len() ==> old(counters)[j] <= bound,
        bound + usize::MAX <= u128::MAX,
    ensures
        final(counters).len() == envs.len(),
        forall|j: int| 0 <= j < envs.len() ==> final(counters)[j] <= bound + usize::MAX,
        with_state(out@, state_of(final(counters)@, final(refs)@, final(warnings)@))
            == number_chapter(
            text@,
            prefix@,
            path@,
            env_views(envs@),
            envs.len() as nat,
            state_of(old(counters)@, old(refs)@, old(warnings)@),
        ),
{
    let ghost st0 = state_of(counters@, refs@, warnings@);
    let ghost text0 = text@;
    let mut text = text;
    let mut j: usize = 0;
    while j < envs.len()
        invariant
            j <= envs.len(),
            counters.len() == envs.len(),
            bound + usize::MAX <= u128::MAX,
            forall|i: int| 0 <= i < j ==> counters[i] <= bound + usize::MAX,
            forall|i: int| j <= i < envs.len() ==> counters[i] <= bound,
            with_state(text@, state_of(counters@, refs@, warnings@)) == number_chapter(
                text0,
                prefix@,
                path@,
                env_views(envs@),
                j as nat,
                st0,
            ),
        decreases envs.len() - j,
    {
        let ghost old_counters = counters@;
        let len: usize = text.len();
        proof {
            lemma_env_markers_len(text@, envs[j as int]@.key, 0);
            assert(env_markers(text@, envs[j as int]@.key).len() <= len);
        }
        let start: u128 = counters[j];
        let (next, n) = number_chars(&text, prefix, path, &envs[j], start, refs, warnings);
        counters.set(j, n);
        proof {
            assert(env_views(envs@)[j as int] == envs[j as int]@);
            assert(counts(counters@) =~= counts(old_counters).update(j as int, n as nat));
            assert(counts(old_counters)[j as int] == start as nat);
        }
        text = next;
        j += 1;
    }
    text
}

/// The characters of each text of a list.
pub open spec fn text_views(ts: Seq<Vec<char>>) -> Seq<Seq<char>> {
    ts.map_values(|t: Vec<char>| t@)
}

/// A preprocessor that numbers theorems, lemmas and the like, and resolves
/// the references to them.
pub struct NumThmPreprocessor {
    /// The kinds of environment that are numbered.
    envs: Vec<Env>,
    /// Whether the numbers are prefixed by the chapter's section number.
    with_prefix: bool,
}

/// The mathematical content of a `NumThmPreprocessor`.
pub struct PreprocessorView {
    pub envs: Seq<EnvView>,
    pub with_prefix: bool,
}

impl View for NumThmPreprocessor {
    type V = PreprocessorView;

    closed spec fn view(&self) -> PreprocessorView {
        PreprocessorView { envs: env_views(self.envs@), with_prefix: self.with_prefix }
    }
}

/// `n` counters that have counted nothing.
fn zeros(n: usize) -> (v: Vec<u128>)
    ensures
        v.len() == n,
        forall|j: int| 0 <= j < n ==> v[j] == 0,
{
    let mut v: Vec<u128> = Vec::new();
    while v.len() < n
        invariant
            v.len() <= n,
            forall|j: int| 0 <= j < v.len() ==> v[j] == 0,
        decreases n - v.len(),
    {
        v.push(0);
    }
    v
}

impl NumThmPreprocessor {
    /// Runs both passes over the chapters of a book, which are given in the
    /// order of the book. First the markers of every kind of environment are
    /// numbered in every chapter that is no draft, each kind counting on from
    /// chapter to chapter; then, with the labels of the whole book known, the
    /// references are resolved. The texts are changed in place; the warnings
    /// of both passes are handed back.
    pub fn run(&self, chapters: &mut Vec<Chapter>) -> (warnings: Vec<Warning>)
        ensures
            chapter_views(final(chapters)@) == processed(
                chapter_views(old(chapters)@),
                self@.envs,
                self@.with_prefix,
            ).chapters,
            warning_views(warnings@) == processed(
                chapter_views(old(chapters)@),
                self@.envs,
                self@.with_prefix,
            ).warnings,
    {
        let ghost cvs = chapter_views(chapters@);
        let ghost evs = env_views(self.envs@);
        let ghost wp = self.with_prefix;
        let n: usize = chapters.len();
        let mut counters: Vec<u128> = zeros(self.envs.len());
        let mut refs = Registry::new();
        let mut warnings: Vec<Warning> = Vec::new();
        let mut texts: Vec<Vec<char>> = Vec::new();
        let mut k: usize = 0;
        proof {
            assert(counts(counters@) =~= initial(evs).counters);
            assert(warning_views(warnings@) =~= initial(evs).warnings);
            assert(text_views(texts@) =~= Seq::<Seq<char>>::empty());
        }
        while k < n
            invariant
                k <= n,
                n == chapters.len(),
                cvs == chapter_views(chapters@),
                evs == env_views(self.envs@),
                wp == self.with_prefix,
                texts.len() == k,
                counters.len() == self.envs.len(),
                forall|j: int| 0 <= j < counters.len() ==> counters[j] <= k * usize::MAX,
                text_views(texts@) == number_book(cvs, evs, wp, k as nat).texts,
                state_of(counters@, refs@, warnings@) == number_book(cvs, evs, wp, k as nat).state,
            decreases n - k,
        {
            let ch = &chapters[k];
            assert(cvs[k as int] == ch@);
            let text = to_chars(ch.content.as_str());
            let ghost before = text_views(texts@);
            match &ch.path {
                Some(path) => {
                    let prefix: &str = match &ch.number {
                        Some(number) if self.with_prefix => number.as_str(),
                        _ => "",
                    };
                    proof {
                        reveal_strlit("");
                        assert(prefix@ =~= prefix_of(wp, ch@.number));
                        assert((k + 1) * usize::MAX <= u128::MAX) by (nonlinear_arith)
                            requires
                                k < usize::MAX,
                                usize::MAX <= 0xffff_ffff_ffff_ffff,
                        ;
                        assert(k * usize::MAX + usize::MAX == (k + 1) * usize::MAX)
                            by (nonlinear_arith);
                    }
                    let out = number_chapter_chars(
                        text,
                        prefix,
                        path.as_str(),
                        &self.envs,
                        &mut counters,
                        &mut refs,
                        &mut warnings,
                        Ghost((k * usize::MAX) as nat),
                    );
                    texts.push(out);
                    assert(text_views(texts@) =~= before.push(out@));
                },
                None => {
                    texts.push(text);
                    assert(text_views(texts@) =~= before.push(text@));
                    assert(k * usize::MAX <= (k + 1) * usize::MAX) by (nonlinear_arith);
                },
            }
            k += 1;
        }
        let ghost first = number_book(cvs, evs, wp, n as nat);
        let ghost done = processed(cvs, evs, wp);
        let mut i: usize = 0;
        assert(warning_views(warnings@) =~= first.state.warnings + Seq::<WarningView>::empty());
        while i < n
            invariant
                i <= n,
                n == chapters.len(),
                n == texts.len(),
                n == cvs.len(),
                first == number_book(cvs, evs, wp, n as nat),
                done == processed(cvs, evs, wp),
                text_views(texts@) == first.texts,
                refs@ == first.state.registry,
                forall|j: int| 0 <= j < i ==> chapters[j]@ == done.chapters[j],
                forall|j: int| i <= j < n ==> chapters[j]@ == cvs[j],
                warning_views(warnings@) == first.state.warnings + unresolved_upto_chapter(
                    cvs,
                    first.texts,
                    first.state.registry,
                    i as nat,
                ),
            decreases n - i,
        {
            assert(text_views(texts@)[i as int] == texts[i as int]@);
            match &chapters[i].path {
                Some(path) => {
                    let from = to_chars(path.as_str());
                    let out = resolve_chars(&texts[i], &from, &refs, &mut warnings);
                    chapters[i].content = to_string(&out);
                },
                None => {
                    proof {
                        lemma_draft_text(cvs, evs, wp, n as nat, i as int);
                    }
                },
            }
            i += 1;
        }
        assert(chapter_views(chapters@) =~= done.chapters);
        warnings
    }
}

/// The first pass leaves the text of a draft chapter as it is, and gives one
/// text for each chapter.
pub proof fn lemma_draft_text(
    chapters: Seq<ChapterView>,
    envs: Seq<EnvView>,
    with_prefix: bool,
    k: nat,
    i: int,
)
    requires
        k <= chapters.len(),
    ensures
        number_book(chapters, envs, with_prefix, k).texts.len() == k,
        0 <= i < k && chapters[i].path is None ==> number_book(
            chapters,
            envs,
            with_prefix,
            k,
        ).texts[i] == chapters[i].content,
    decreases k,
{
    if k > 0 {
        lemma_draft_text(chapters, envs, with_prefix, (k - 1) as nat, i);
    }
}

/// A value of the configuration, as far as the preprocessor tells values
/// apart.
#[derive(Debug, PartialEq, Eq)]
pub enum ConfigValue {
    /// A truth value.
    Boolean(bool),
    /// A string.
    String(String),
    /// A list of values.
    Array(Vec<ConfigValue>),
    /// A value of any other kind.
    Other,
}

/// What the configuration holds under the two keys that the preprocessor
/// reads.
#[derive(Debug, PartialEq, Eq)]
pub struct Config {
    /// The value of `prefix`, if it is set.
    pub prefix: Option<ConfigValue>,
    /// The value of `custom_environments`, if it is set.
    pub custom_environments: Option<ConfigValue>,
}

/// The name under which the preprocessor is known.
pub open spec fn preprocessor_name() -> Seq<char> {
    "numthm"@
}

/// A kind of environment with the given key, name and emphasis.
pub open spec fn env_of(key: Seq<char>, name: Seq<char>, emph: Seq<char>) -> EnvView {
    EnvView { key, name, emph }
}

/// The kinds of environment that are always there.
pub open spec fn builtin_envs() -> Seq<EnvView> {
    seq![
        env_of("thm"@, "Theorem"@, "**"@),
        env_of("lem"@, "Lemma"@, "**"@),
        env_of("prop"@, "Proposition"@, "**"@),
        env_of("def"@, "Definition"@, "**"@),
        env_of("rem"@, "Remark"@, "*"@),
    ]
}

/// Whether the configuration asks for prefixes: it does where `prefix` is set
/// to the truth value true.
pub open spec fn configured_prefix(v: Option<ConfigValue>) -> bool {
    match v {
        Some(ConfigValue::Boolean(b)) => b,
        _ => false,
    }
}

/// The kind of environment that an entry of `custom_environments` defines:
/// the entry is a list that begins with three strings, the key, the name and
/// the emphasis. Any other entry defines nothing.
pub open spec fn custom_env(entry: ConfigValue) -> Option<EnvView> {
    match entry {
        ConfigValue::Array(params) => if params@.len() >= 3 {
            match (params@[0], params@[1], params@[2]) {
                (ConfigValue::String(key), ConfigValue::String(name), ConfigValue::String(emph)) => {
                    Some(env_of(key@, name@, emph@))
                },
                _ => None,
            }
        } else {
            None
        },
        _ => None,
    }
}

/// The kinds of environment that the first `k` entries define, in order.
pub open spec fn custom_envs(entries: Seq<ConfigValue>, k: nat) -> Seq<EnvView>
    decreases k,
{
    if k == 0 {
        Seq::empty()
    } else {
        match custom_env(entries[k - 1]) {
            Some(e) => custom_envs(entries, (k - 1) as nat).push(e),
            None => custom_envs(entries, (k - 1) as nat),
        }
    }
}

/// The kinds of environment that the configuration adds: those that the
/// entries of `custom_environments` define, where that is set to a list.
pub open spec fn configured_envs(v: Option<ConfigValue>) -> Seq<EnvView> {
    match v {
        Some(ConfigValue::Array(entries)) => custom_envs(entries@, entries@.len()),
        _ => Seq::empty(),
    }
}

fn builtin(key: &str, name: &str, emph: &str) -> (e: Env)
    ensures
        e@ == env_of(key@, name@, emph@),
{
    Env { key: key.to_owned(), name: name.to_owned(), emph: emph.to_owned() }
}

/// Reads an entry of `custom_environments`.
fn read_custom_env(entry: &ConfigValue) -> (r: Option<Env>)
    ensures
        r is Some == custom_env(*entry) is Some,
        r matches Some(e) ==> custom_env(*entry) == Some(e@),
{
    match entry {
        ConfigValue::Array(params) => {
            if params.len() >= 3 {
                match (&params[0], &params[1], &params[2]) {
                    (
                        ConfigValue::String(key),
                        ConfigValue::String(name),
                        ConfigValue::String(emph),
                    ) => Some(Env { key: key.clone(), name: name.clone(), emph: emph.clone() }),
                    _ => None,
                }
            } else {
                None
            }
        },
        _ => None,
    }
}

impl Default for NumThmPreprocessor {
    /// The preprocessor with the kinds of environment that are always there,
    /// and without prefixes.
    fn default() -> (pre: NumThmPreprocessor)
        ensures
            pre@.envs == builtin_envs(),
            !pre@.with_prefix,
    {
        let mut envs: Vec<Env> = Vec::new();
        envs.push(builtin("thm", "Theorem", "**"));
        envs.push(builtin("lem", "Lemma", "**"));
        envs.push(builtin("prop", "Proposition", "**"));
        envs.push(builtin("def", "Definition", "**"));
        envs.push(builtin("rem", "Remark", "*"));
        assert(env_views(envs@) =~= builtin_envs());
        NumThmPreprocessor { envs, with_prefix: false }
    }
}

impl NumThmPreprocessor {
    /// The preprocessor that a configuration asks for. Prefixes are used
    /// where `prefix` is set to true. The kinds of environment are those that
    /// are always there, followed by those that `custom_environments`
    /// defines; an entry of it that is no list beginning with three strings
    /// is passed over.
    pub fn new(config: &Config) -> (pre: NumThmPreprocessor)
        ensures
            pre@.with_prefix == configured_prefix(config.prefix),
            pre@.envs == builtin_envs() + configured_envs(config.custom_environments),
    {
        let mut pre = NumThmPreprocessor::default();
        match &config.prefix {
            Some(ConfigValue::Boolean(b)) => {
                pre.with_prefix = *b;
            },
            _ => {},
        }
        match &config.custom_environments {
            Some(ConfigValue::Array(entries)) => {
                let mut k: usize = 0;
                assert(env_views(pre.envs@) =~= builtin_envs() + custom_envs(entries@, 0));
                while k < entries.len()
                    invariant
                        k <= entries.len(),
                        pre.with_prefix == configured_prefix(config.prefix),
                        env_views(pre.envs@) == builtin_envs() + custom_envs(entries@, k as nat),
                    decreases entries.len() - k,
                {
                    let ghost before = env_views(pre.envs@);
                    match read_custom_env(&entries[k]) {
                        Some(e) => {
                            pre.envs.push(e);
                            assert(env_views(pre.envs@) =~= before.push(e@));
                            assert(env_views(pre.envs@) =~= builtin_envs() + custom_envs(
                                entries@,
                                (k + 1) as nat,
                            ));
                        },
                        None => {},
                    }
                    k += 1;
                }
            },
            _ => {
                assert(env_views(pre.envs@) =~= builtin_envs() + Seq::<EnvView>::empty());
            },
        }
        pre
    }

    /// The name under which the preprocessor is known.
    pub fn name(&self) -> (n: &'static str)
        ensures
            n@ == preprocessor_name(),
    {
        "numthm"
    }

    /// The kinds of environment that are numbered, in the order in which
    /// they are applied to a chapter.
    pub fn envs(&self) -> (es: &Vec<Env>)
        ensures
            env_views(es@) == self@.envs,
    {
        &self.envs
    }

    /// Whether the numbers are prefixed by the chapter's section number.
    pub fn with_prefix(&self) -> (b: bool)
        ensures
            b == self@.with_prefix,
    {
        self.with_prefix
    }
}

/// The text of a chapter as the kind `envs[j]` meets it: the kinds before
/// it have been numbered in it.
pub open spec fn met_by(
    text: Seq<char>,
    prefix: Seq<char>,
    path: Seq<char>,
    envs: Seq<EnvView>,
    j: int,
    st: Numbering,
) -> Seq<char> {
    number_chapter(text, prefix, path, envs, j as nat, st).text
}

/// How many markers of the kind `envs[j]` the first `k` chapters hold.
pub open spec fn occurrences(
    chapters: Seq<ChapterView>,
    envs: Seq<EnvView>,
    with_prefix: bool,
    k: nat,
    j: int,
) -> nat
    decreases k,
{
    if k == 0 {
        0
    } else {
        let before = occurrences(chapters, envs, with_prefix, (k - 1) as nat, j);
        let ch = chapters[k - 1];
        match ch.path {
            Some(path) => before + env_markers(
                met_by(
                    ch.content,
                    prefix_of(with_prefix, ch.number),
                    path,
                    envs,
                    j,
                    number_book(chapters, envs, with_prefix, (k - 1) as nat).state,
                ),
                envs[j].key,
            ).len(),
            None => before,
        }
    }
}

/// Within a chapter, the numbering of the first `j` kinds leaves the counter
/// of every later kind as it was.
pub proof fn lemma_later_counters_rest(
    text: Seq<char>,
    prefix: Seq<char>,
    path: Seq<char>,
    envs: Seq<EnvView>,
    j: nat,
    st: Numbering,
    i: int,
)
    requires
        j <= i < envs.len(),
        st.counters.len() == envs.len(),
    ensures
        number_chapter(text, prefix, path, envs, j, st).state.counters.len() == envs.len(),
        number_chapter(text, prefix, path, envs, j, st).state.counters[i] == st.counters[i],
    decreases j,
{
    if j > 0 {
        lemma_later_counters_rest(text, prefix, path, envs, (j - 1) as nat, st, i);
    }
}

/// Within a chapter, once the kind `envs[i]` has been numbered, its counter
/// has grown by the number of its markers in the text that it met, whatever
/// kinds are numbered after it.
pub proof fn lemma_counter_after_chapter(
    text: Seq<char>,
    prefix: Seq<char>,
    path: Seq<char>,
    envs: Seq<EnvView>,
    j: nat,
    st: Numbering,
    i: int,
)
    requires
        0 <= i < j <= envs.len(),
        st.counters.len() == envs.len(),
    ensures
        number_chapter(text, prefix, path, envs, j, st).state.counters.len() == envs.len(),
        number_chapter(text, prefix, path, envs, j, st).state.counters[i] == st.counters[i]
            + env_markers(met_by(text, prefix, path, envs, i, st), envs[i].key).len(),
    decreases j,
{
    if j == i + 1 {
        lemma_later_counters_rest(text, prefix, path, envs, i as nat, st, i);
    } else {
        lemma_counter_after_chapter(text, prefix, path, envs, (j - 1) as nat, st, i);
    }
}

/// After the first `k` chapters, the counter of each kind is the number of
/// that kind's markers in those chapters.
pub proof fn lemma_counters_count(
    chapters: Seq<ChapterView>,
    envs: Seq<EnvView>,
    with_prefix: bool,
    k: nat,
    j: int,
)
    requires
        k <= chapters.len(),
        0 <= j < envs.len(),
    ensures
        number_book(chapters, envs, with_prefix, k).state.counters.len() == envs.len(),
        number_book(chapters, envs, with_prefix, k).state.counters[j] == occurrences(
            chapters,
            envs,
            with_prefix,
            k,
            j,
        ),
    decreases k,
{
    if k > 0 {
        lemma_counters_count(chapters, envs, with_prefix, (k - 1) as nat, j);
        let before = number_book(chapters, envs, with_prefix, (k - 1) as nat).state;
        let ch = chapters[k - 1];
        match ch.path {
            Some(path) => {
                lemma_counter_after_chapter(
                    ch.content,
                    prefix_of(with_prefix, ch.number),
                    path,
                    envs,
                    envs.len(),
                    before,
                    j,
                );
            },
            None => {},
        }
    }
}

/// The markers of a kind are numbered in the order of the book, whatever
/// chapter they stand in: in the chapter `chapters[k]`, the markers of the
/// kind `envs[j]` are numbered from the count of that kind's markers in the
/// chapters before it, so that the one that is the `n`-th of its kind in the
/// whole book is numbered `n`.
pub proof fn lemma_numbered_in_book_order(
    chapters: Seq<ChapterView>,
    envs: Seq<EnvView>,
    with_prefix: bool,
    k: nat,
    j: int,
)
    requires
        k < chapters.len(),
        0 <= j < envs.len(),
        chapters[k as int].path is Some,
    ensures
        ({
            let ch = chapters[k as int];
            let prefix = prefix_of(with_prefix, ch.number);
            let path = ch.path.unwrap();
            let before = number_book(chapters, envs, with_prefix, k).state;
            let seen = occurrences(chapters, envs, with_prefix, k, j);
            let met = met_by(ch.content, prefix, path, envs, j, before);
            &&& met_by(ch.content, prefix, path, envs, j + 1, before) == numbered_text(
                met,
                envs[j],
                prefix,
                seen,
            )
            &&& occurrences(chapters, envs, with_prefix, k + 1, j) == seen + env_markers(
                met,
                envs[j].key,
            ).len()
        }),
{
    let ch = chapters[k as int];
    let before = number_book(chapters, envs, with_prefix, k).state;
    lemma_counters_count(chapters, envs, with_prefix, k, j);
    lemma_later_counters_rest(
        ch.content,
        prefix_of(with_prefix, ch.number),
        ch.path.unwrap(),
        envs,
        j as nat,
        before,
        j,
    );
}

/// Within a chapter, the first pass takes no entry out of the registry and
/// changes none.
pub proof fn lemma_chapter_entries_stay(
    text: Seq<char>,
    prefix: Seq<char>,
    path: Seq<char>,
    envs: Seq<EnvView>,
    j: nat,
    st: Numbering,
    label: Seq<char>,
)
    requires
        st.registry.contains_key(label),
    ensures
        number_chapter(text, prefix, path, envs, j, st).state.registry.contains_key(label),
        number_chapter(text, prefix, path, envs, j, st).state.registry[label]
            == st.registry[label],
    decreases j,
{
    if j > 0 {
        lemma_chapter_entries_stay(text, prefix, path, envs, (j - 1) as nat, st, label);
        let before = number_chapter(text, prefix, path, envs, (j - 1) as nat, st);
        let ms = env_markers(before.text, envs[j - 1].key);
        lemma_entries_stay(
            before.state.registry,
            ms,
            ms.len(),
            envs[j - 1],
            prefix,
            path,
            before.state.counters[j - 1],
            label,
        );
    }
}

/// What is recorded for a label stays as it is to the end of the first pass:
/// a label that is declared once the first `k` chapters are numbered is
/// declared, with the same record, once any `n >= k` chapters are. So the
/// second pass resolves each reference against the first declaration of its
/// label.
pub proof fn lemma_book_entries_stay(
    chapters: Seq<ChapterView>,
    envs: Seq<EnvView>,
    with_prefix: bool,
    k: nat,
    n: nat,
    label: Seq<char>,
)
    requires
        k <= n,
        number_book(chapters, envs, with_prefix, k).state.registry.contains_key(label),
    ensures
        number_book(chapters, envs, with_prefix, n).state.registry.contains_key(label),
        number_book(chapters, envs, with_prefix, n).state.registry[label] == number_book(
            chapters,
            envs,
            with_prefix,
            k,
        ).state.registry[label],
    decreases n,
{
    if n > k {
        lemma_book_entries_stay(chapters, envs, with_prefix, k, (n - 1) as nat, label);
        let before = number_book(chapters, envs, with_prefix, (n - 1) as nat);
        let ch = chapters[n - 1];
        match ch.path {
            Some(path) => {
                lemma_chapter_entries_stay(
                    ch.content,
                    prefix_of(with_prefix, ch.number),
                    path,
                    envs,
                    envs.len(),
                    before.state,
                    label,
                );
            },
            None => {},
        }
    }
}

} // verus!
