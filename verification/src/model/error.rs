//! What can go wrong when a model is loaded.

use vstd::prelude::*;

use crate::text::{list_chars, list_text};

verus! {

/// A failed load.
#[derive(Debug)]
pub enum ModelError {
    /// The file could not be read, for the reason given.
    Io(String),
    /// The file is not a safetensors file, for the reason given.
    SafeTensors(String),
    /// A tensor is not in the file.
    MissingTensor(String),
    /// A tensor has another element type than expected.
    UnexpectedDtype {
        /// The tensor.
        name: String,
        /// The element type that was expected.
        expected: &'static str,
        /// The element type that was found.
        got: String,
    },
    /// A tensor has another shape than expected.
    UnexpectedShape {
        /// The tensor.
        name: String,
        /// The shape that was expected.
        expected: Vec<usize>,
        /// The shape that was found.
        got: Vec<usize>,
    },
}

impl ModelError {
    /// What the error says.
    pub open spec fn text(&self) -> Seq<char> {
        match self {
            ModelError::Io(reason) => "IO error reading safetensors file: "@ + reason@,
            ModelError::SafeTensors(reason) => "safetensors parse error: "@ + reason@,
            ModelError::MissingTensor(name) => "missing tensor: "@ + name@,
            ModelError::UnexpectedDtype { name, expected, got } => "tensor "@ + name@
                + ": expected dtype "@ + expected@ + ", got "@ + got@,
            ModelError::UnexpectedShape { name, expected, got } => "tensor "@ + name@
                + ": expected shape "@ + list_chars(expected@) + ", got "@ + list_chars(got@),
        }
    }

    /// What the error says.
    pub fn message(&self) -> (r: String)
        ensures
            r@ == self.text(),
    {
        match self {
            ModelError::Io(reason) => "IO error reading safetensors file: ".to_string().concat(
                reason.as_str(),
            ),
            ModelError::SafeTensors(reason) => "safetensors parse error: ".to_string().concat(
                reason.as_str(),
            ),
            ModelError::MissingTensor(name) => "missing tensor: ".to_string().concat(
                name.as_str(),
            ),
            ModelError::UnexpectedDtype { name, expected, got } => {
                let mut r = "tensor ".to_string();
                r.append(name.as_str());
                r.append(": expected dtype ");
                r.append(expected);
                r.append(", got ");
                r.append(got.as_str());
                r
            },
            ModelError::UnexpectedShape { name, expected, got } => {
                let mut r = "tensor ".to_string();
                r.append(name.as_str());
                r.append(": expected shape ");
                let wanted = list_text(expected);
                r.append(wanted.as_str());
                r.append(", got ");
                let found = list_text(got);
                r.append(found.as_str());
                r
            },
        }
    }
}

} // verus!
