//! Configuration for generating model source code from computation-graph
//! description files: the builder that collects inputs and options, and the
//! conversion of a graph argument to a tensor type.
//!
//! Reading the description files and writing the generated code are I/O and
//! live outside this crate; this module holds the checked configuration
//! state they consume.

use vstd::prelude::*;

verus! {

/// Collects the output directory, the input files and the development flag
/// before generation runs.
#[derive(Clone, Debug)]
pub struct ModelGen {
    pub out_dir: Option<String>,
    pub inputs: Vec<String>,
    pub development: bool,
}

impl ModelGen {
    /// An empty configuration.
    pub fn new() -> (r: ModelGen)
        ensures
            r.out_dir is None,
            r.inputs@.len() == 0,
            r.development == false,
    {
        let inputs: Vec<String> = Vec::new();
        ModelGen { out_dir: None, inputs, development: false }
    }

    /// Set the output directory.
    pub fn out_dir(self, out_dir: String) -> (r: ModelGen)
        ensures
            r.out_dir is Some,
            r.out_dir.unwrap()@ == out_dir@,
            r.inputs@ == self.inputs@,
            r.development == self.development,
    {
        ModelGen { out_dir: Some(out_dir), ..self }
    }

    /// Add one input file.
    pub fn input(self, input: String) -> (r: ModelGen)
        ensures
            r.inputs@.len() == self.inputs@.len() + 1,
            r.inputs@.last()@ == input@,
            forall|i: int| 0 <= i < self.inputs@.len() ==> r.inputs@[i] == self.inputs@[i],
            r.out_dir == self.out_dir,
            r.development == self.development,
    {
        let mut inputs = self.inputs;
        inputs.push(input);
        ModelGen { out_dir: self.out_dir, inputs, development: self.development }
    }

    /// Set development mode: generation then also records the parsed graph
    /// and the model state beside the generated code.
    pub fn development(self, development: bool) -> (r: ModelGen)
        ensures
            r.development == development,
            r.out_dir == self.out_dir,
            r.inputs@ == self.inputs@,
    {
        ModelGen { development, ..self }
    }
}

/// The element kind of a graph argument.
#[derive(Clone, Debug)]
pub enum ArgType {
    Tensor(usize),
    Shape(usize),
    Constant,
}

/// One argument of a parsed graph node.
#[derive(Clone, Debug)]
pub struct Argument {
    pub name: String,
    pub ty: ArgType,
}

/// A named float tensor type of a given rank in the generated code.
#[derive(Clone, Debug)]
pub struct TensorType {
    pub name: String,
    pub dim: usize,
}

impl Argument {
    /// The tensor type of a tensor-kinded argument; shape and constant
    /// arguments have no tensor form.
    pub fn to_tensor_type(self) -> (r: TensorType)
        requires
            self.ty matches ArgType::Tensor(..),
        ensures
            r.name@ == self.name@,
            self.ty matches ArgType::Tensor(d) ==> r.dim == d,
    {
        let dim = match self.ty {
            ArgType::Tensor(d) => d,
            ArgType::Shape(_d) => 0,
            ArgType::Constant => 0,
        };
        TensorType { name: self.name, dim }
    }
}

} // verus!
