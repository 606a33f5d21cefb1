//! The warnings that the two passes report. None of them stops the work.

use crate::text::{push_str, to_string};
use vstd::prelude::*;

verus! {

/// Something in a chapter that the author will want to know of.
#[derive(Debug, PartialEq, Eq)]
pub enum Warning {
    /// A label was declared a second time; the first declaration stands.
    DuplicateLabel {
        /// The numbered name of the environment of the second declaration.
        numbered_name: String,
        /// The label.
        label: String,
    },
    /// A reference names a label that no chapter declares.
    UnknownReference {
        /// The label.
        label: String,
    },
}

/// The mathematical content of a `Warning`.
pub enum WarningView {
    DuplicateLabel { numbered_name: Seq<char>, label: Seq<char> },
    UnknownReference { label: Seq<char> },
}

impl View for Warning {
    type V = WarningView;

    open spec fn view(&self) -> WarningView {
        match *self {
            Warning::DuplicateLabel { numbered_name, label } => WarningView::DuplicateLabel {
                numbered_name: numbered_name@,
                label: label@,
            },
            Warning::UnknownReference { label } => WarningView::UnknownReference { label: label@ },
        }
    }
}

/// The content of each warning of a list.
pub open spec fn warning_views(ws: Seq<Warning>) -> Seq<WarningView> {
    ws.map_values(|w: Warning| w@)
}

/// The text of a warning.
pub open spec fn message_of(w: WarningView) -> Seq<char> {
    match w {
        WarningView::DuplicateLabel { numbered_name, label } => numbered_name + ": Label `"@ + label
            + "' already used"@,
        WarningView::UnknownReference { label } => "Unknown reference: "@ + label,
    }
}

impl Warning {
    /// The text of the warning, as it is shown to the author.
    pub fn message(&self) -> (m: String)
        ensures
            m@ == message_of(self@),
    {
        let mut out: Vec<char> = Vec::new();
        match self {
            Warning::DuplicateLabel { numbered_name, label } => {
                push_str(&mut out, numbered_name.as_str());
                push_str(&mut out, ": Label `");
                push_str(&mut out, label.as_str());
                push_str(&mut out, "' already used");
                assert(out@ =~= message_of(self@));
            },
            Warning::UnknownReference { label } => {
                push_str(&mut out, "Unknown reference: ");
                push_str(&mut out, label.as_str());
                assert(out@ =~= message_of(self@));
            },
        }
        to_string(&out)
    }
}

} // verus!
