//! The registry of labels: what a reference needs to know of the environment
//! that a label was declared on.

use vstd::hash_map::StringHashMap;
use vstd::prelude::*;

verus! {

/// What is recorded of a labelled environment.
#[derive(Debug, PartialEq, Eq)]
pub struct LabelInfo {
    /// The numbered name of the environment, such as `Theorem 1.2.1`.
    pub num_name: String,
    /// The path of the chapter that declares the environment.
    pub path: String,
    /// The title given at the declaration, if any.
    pub title: Option<String>,
}

/// The mathematical content of a `LabelInfo`.
pub struct LabelInfoView {
    pub num_name: Seq<char>,
    pub path: Seq<char>,
    pub title: Option<Seq<char>>,
}

/// The characters of an optional string.
pub open spec fn opt_view(s: Option<String>) -> Option<Seq<char>> {
    match s {
        Some(t) => Some(t@),
        None => None,
    }
}

impl View for LabelInfo {
    type V = LabelInfoView;

    open spec fn view(&self) -> LabelInfoView {
        LabelInfoView { num_name: self.num_name@, path: self.path@, title: opt_view(self.title) }
    }
}

/// The registry after a declaration of `label`: the first declaration of a
/// label is recorded, a later one changes nothing.
pub open spec fn registered(
    reg: Map<Seq<char>, LabelInfoView>,
    label: Seq<char>,
    info: LabelInfoView,
) -> Map<Seq<char>, LabelInfoView> {
    if reg.contains_key(label) {
        reg
    } else {
        reg.insert(label, info)
    }
}

/// A declaration adds exactly one entry for a label not seen before, and none
/// for a label that is already there; the entries that were there stay as
/// they were.
pub proof fn lemma_registered(
    reg: Map<Seq<char>, LabelInfoView>,
    label: Seq<char>,
    info: LabelInfoView,
)
    requires
        reg.dom().finite(),
    ensures
        registered(reg, label, info).dom().finite(),
        registered(reg, label, info).contains_key(label),
        !reg.contains_key(label) ==> registered(reg, label, info).len() == reg.len() + 1
            && registered(reg, label, info)[label] == info,
        reg.contains_key(label) ==> registered(reg, label, info) == reg,
        forall|l: Seq<char>| #[trigger]
            reg.contains_key(l) ==> registered(reg, label, info).contains_key(l) && registered(
                reg,
                label,
                info,
            )[l] == reg[l],
        forall|l: Seq<char>| #[trigger]
            registered(reg, label, info).contains_key(l) ==> l == label || reg.contains_key(l),
{
}

/// The labels declared so far, each with what was recorded at its first
/// declaration.
pub struct Registry {
    entries: StringHashMap<LabelInfo>,
}

impl View for Registry {
    type V = Map<Seq<char>, LabelInfoView>;

    closed spec fn view(&self) -> Map<Seq<char>, LabelInfoView> {
        self.entries@.map_values(|info: LabelInfo| info@)
    }
}

impl Registry {
    /// A registry without entries.
    pub fn new() -> (r: Registry)
        ensures
            r@ == Map::<Seq<char>, LabelInfoView>::empty(),
    {
        let r = Registry { entries: StringHashMap::new() };
        assert(r@ =~= Map::<Seq<char>, LabelInfoView>::empty());
        r
    }

    /// The number of labels.
    pub fn len(&self) -> (n: usize)
        ensures
            n == self@.len(),
    {
        proof {
            assert(self@.dom() =~= self.entries@.dom());
        }
        self.entries.len()
    }

    /// Whether no label has been declared.
    pub fn is_empty(&self) -> (b: bool)
        ensures
            b == (self@.len() == 0),
    {
        self.len() == 0
    }

    /// Whether `label` has been declared.
    pub fn contains_key(&self, label: &str) -> (b: bool)
        ensures
            b == self@.contains_key(label@),
    {
        self.entries.contains_key(label)
    }

    /// What was recorded for `label`, if it has been declared.
    pub fn get(&self, label: &str) -> (r: Option<&LabelInfo>)
        ensures
            match r {
                Some(info) => self@.contains_key(label@) && info@ == self@[label@],
                None => !self@.contains_key(label@),
            },
    {
        self.entries.get(label)
    }

    /// Records a declaration of `label`. The result says whether the label was
    /// new; if it was not, the registry is left as it was.
    pub fn register(&mut self, label: String, info: LabelInfo) -> (fresh: bool)
        ensures
            fresh == !old(self)@.contains_key(label@),
            final(self)@ == registered(old(self)@, label@, info@),
    {
        if self.entries.contains_key(label.as_str()) {
            false
        } else {
            let ghost before = self@;
            self.entries.insert(label, info);
            assert(self@ =~= before.insert(label@, info@));
            true
        }
    }
}

} // verus!
