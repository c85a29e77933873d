//! Bindings: the patterns a classified click is held against, and the
//! commands they stand for.

use crate::event::{Edge, KeyboardModifier, MouseButton, PressState};
use crate::geometry::{angles, points_to_angles, Angle};
use crate::point::PointHistory;
use vstd::prelude::*;

verus! {

/// The click that a binding answers to.
#[derive(Debug)]
pub struct EventPattern {
    pub button: MouseButton,
    pub edges: Vec<Edge>,
    pub modifiers: Vec<KeyboardModifier>,
    pub event_type: PressState,
    /// The angle signature of each trace of `shapes_xy`, in the same order.
    /// It is never stored: it is taken from the traces when a configuration
    /// is brought into use.
    pub shapes_angles: Vec<Vec<Angle>>,
    /// The traces of the shapes that the binding answers to; none for a
    /// binding that asks for no shape.
    pub shapes_xy: Vec<PointHistory>,
}

/// A rule of the configuration: a pattern and the command run on a match.
#[derive(Debug)]
pub struct Binding {
    pub comment: String,
    pub event: EventPattern,
    pub cmd: Vec<String>,
}

/// Whether `signatures` holds the angle signature of each trace of `traces`,
/// in the same order.
pub open spec fn are_signatures_of(
    signatures: Seq<Vec<Angle>>,
    traces: Seq<PointHistory>,
) -> bool {
    &&& signatures.len() == traces.len()
    &&& forall|j: int| 0 <= j < traces.len() ==> (#[trigger] signatures[j])@ == angles(traces[j]@)
}

/// Takes the angle signature of each trace.
pub fn signatures_of(traces: &Vec<PointHistory>) -> (signatures: Vec<Vec<Angle>>)
    ensures
        are_signatures_of(signatures@, traces@),
{
    let mut signatures: Vec<Vec<Angle>> = Vec::new();
    let mut j: usize = 0;
    while j < traces.len()
        invariant
            j <= traces@.len(),
            signatures@.len() == j,
            forall|k: int| 0 <= k < j ==> (#[trigger] signatures@[k])@ == angles(traces@[k]@),
        decreases traces@.len() - j,
    {
        signatures.push(points_to_angles(&traces[j]));
        j = j + 1;
    }
    signatures
}

impl EventPattern {
    /// Whether the signatures of the pattern are those of its traces.
    pub open spec fn has_signatures(&self) -> bool {
        are_signatures_of(self.shapes_angles@, self.shapes_xy@)
    }

    /// Whether `self` is `source` but for the signatures.
    pub open spec fn same_pattern_as(&self, source: &EventPattern) -> bool {
        &&& self.button == source.button
        &&& self.edges == source.edges
        &&& self.modifiers == source.modifiers
        &&& self.event_type == source.event_type
        &&& self.shapes_xy == source.shapes_xy
    }
}

impl Binding {
    /// Whether `self` is `source` brought into use: the same rule, with the
    /// signatures of its pattern taken from the traces.
    pub open spec fn is_loaded_from(&self, source: &Binding) -> bool {
        &&& self.comment == source.comment
        &&& self.cmd == source.cmd
        &&& self.event.same_pattern_as(&source.event)
        &&& self.event.has_signatures()
    }

    /// Takes the signatures of the pattern from its traces, replacing those
    /// it held.
    pub fn derive_signatures(&mut self)
        ensures
            final(self).is_loaded_from(old(self)),
    {
        let signatures = signatures_of(&self.event.shapes_xy);
        self.event.shapes_angles = signatures;
    }
}

} // verus!
