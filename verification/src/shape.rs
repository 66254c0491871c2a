//! The sizes of a three-layer network, and what they admit.

use crate::error::DimensionError;
use vstd::prelude::*;

verus! {

/// The numbers of input, hidden and output nodes of a network.
#[derive(Clone, Copy, Debug, PartialEq, Eq, Structural)]
pub struct NetworkShape {
    pub input_nodes: usize,
    pub hidden_nodes: usize,
    pub output_nodes: usize,
}

impl NetworkShape {
    /// Whether an input vector of `inputs` entries can be fed forward.
    pub open spec fn inputs_admitted(&self, inputs: usize) -> Result<(), DimensionError> {
        if inputs != self.input_nodes {
            Err(DimensionError::Input { expected: self.input_nodes, found: inputs })
        } else {
            Ok(())
        }
    }

    /// Whether a sample of `inputs` input entries and `targets` target
    /// entries can be trained on. The inputs are judged first.
    pub open spec fn sample_admitted(&self, inputs: usize, targets: usize) -> Result<
        (),
        DimensionError,
    > {
        if inputs != self.input_nodes {
            Err(DimensionError::Input { expected: self.input_nodes, found: inputs })
        } else if targets != self.output_nodes {
            Err(DimensionError::Target { expected: self.output_nodes, found: targets })
        } else {
            Ok(())
        }
    }

    /// The one-hot vector of `label`, as a mask: as long as there are
    /// output nodes, and set at the label's place only.
    pub open spec fn is_one_hot(&self, label: u8, mask: Seq<bool>) -> bool {
        &&& mask.len() == self.output_nodes
        &&& forall|k: int| 0 <= k < mask.len() ==> (#[trigger] mask[k] <==> k == label)
    }

    /// The shape with the given numbers of nodes.
    pub fn new(input_nodes: usize, hidden_nodes: usize, output_nodes: usize) -> (shape: Self)
        ensures
            shape == (NetworkShape { input_nodes, hidden_nodes, output_nodes }),
    {
        NetworkShape { input_nodes, hidden_nodes, output_nodes }
    }

    /// Accepts an input vector of `inputs` entries exactly where the
    /// network has that many input nodes.
    pub fn check_inputs(&self, inputs: usize) -> (result: Result<(), DimensionError>)
        ensures
            result == self.inputs_admitted(inputs),
    {
        if inputs != self.input_nodes {
            Err(DimensionError::Input { expected: self.input_nodes, found: inputs })
        } else {
            Ok(())
        }
    }

    /// Accepts a training sample exactly where its input vector is as long
    /// as there are input nodes and its target vector as long as there are
    /// output nodes.
    pub fn check_sample(&self, inputs: usize, targets: usize) -> (result: Result<
        (),
        DimensionError,
    >)
        ensures
            result == self.sample_admitted(inputs, targets),
    {
        if inputs != self.input_nodes {
            Err(DimensionError::Input { expected: self.input_nodes, found: inputs })
        } else if targets != self.output_nodes {
            Err(DimensionError::Target { expected: self.output_nodes, found: targets })
        } else {
            Ok(())
        }
    }

    /// The one-hot target of a label: one entry for each output node, set
    /// where the entry's index is the label. A label without an output node
    /// is rejected.
    pub fn one_hot(&self, label: u8) -> (result: Result<Vec<bool>, DimensionError>)
        ensures
            match result {
                Ok(mask) => label < self.output_nodes && self.is_one_hot(label, mask@),
                Err(e) => label >= self.output_nodes && e == (DimensionError::Label {
                    label,
                    classes: self.output_nodes,
                }),
            },
    {
        if label as usize >= self.output_nodes {
            return Err(DimensionError::Label { label, classes: self.output_nodes });
        }
        let mut mask: Vec<bool> = Vec::new();
        let mut k: usize = 0;
        while k < self.output_nodes
            invariant
                k <= self.output_nodes,
                mask@.len() == k,
                forall|j: int| 0 <= j < k ==> (#[trigger] mask@[j] <==> j == label),
            decreases self.output_nodes - k,
        {
            mask.push(k == label as usize);
            k = k + 1;
        }
        Ok(mask)
    }
}

/// A one-hot mask is set at exactly one place.
pub proof fn lemma_one_hot_has_one_entry(shape: NetworkShape, label: u8, mask: Seq<bool>)
    requires
        label < shape.output_nodes,
        shape.is_one_hot(label, mask),
    ensures
        mask[label as int],
        forall|j: int, k: int|
            0 <= j < mask.len() && 0 <= k < mask.len() && mask[j] && mask[k] ==> j == k,
{
}

} // verus!
