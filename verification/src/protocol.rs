//! The small vocabulary that modules use to describe themselves.

use vstd::prelude::*;

verus! {

/// Whether a gate lets its signal through.
#[derive(Clone, Copy, Debug, PartialEq, Eq, Structural)]
pub enum GateState {
    Open,
    Closed,
}

/// The kind of signal a terminal carries.
#[derive(Clone, Copy, Debug, PartialEq, Eq, Structural)]
pub enum LineType {
    Mono,
    Stereo,
}

/// An input or output terminal of a module.
#[derive(Clone, Debug)]
pub struct Terminal {
    pub line_type: LineType,
    pub label: Option<String>,
}

/// A terminal of the given kind without a label.
pub open spec fn unlabeled_terminal(line_type: LineType) -> Terminal {
    Terminal { line_type, label: None }
}

impl LineType {
    /// A terminal of this kind without a label.
    pub fn unlabeled(self) -> (t: Terminal)
        ensures
            t == unlabeled_terminal(self),
    {
        Terminal { line_type: self, label: None }
    }
}

} // verus!
