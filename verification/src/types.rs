//! Schemas of user-defined types and functions.
use vstd::prelude::*;

use crate::ast::{LineInfo, Type, AST};
use crate::text::str_eq;

verus! {

/// A spectrum (tagged union) definition: its name and its variants, each
/// with the types of its payload.
#[derive(Debug, Clone)]
pub struct SpectrumSchema {
    pub name: String,
    pub variants: Vec<(String, Vec<Type>)>,
    pub line_info: Option<LineInfo>,
}

/// A field of an artifact schema.
#[derive(Debug, Clone)]
pub struct ArtifactFieldSchema {
    pub name: String,
    pub field_type: Type,
}

/// A user-defined function.
#[derive(Debug)]
pub struct EngravedFunction {
    pub name: String,
    pub params: Vec<AST>,
    pub return_type: Type,
    pub body: Box<AST>,
    pub line_info: Option<LineInfo>,
}

/// A method attached to an artifact.
#[derive(Debug)]
pub struct ArtifactMethod {
    pub function: EngravedFunction,
    pub requires_mutable_receiver: bool,
}

/// An artifact (record) definition: its fields in declaration order and its
/// methods by name.
#[derive(Debug)]
pub struct ArtifactSchema {
    pub name: String,
    pub fields: Vec<ArtifactFieldSchema>,
    pub methods: Vec<(String, ArtifactMethod)>,
    pub line_info: Option<LineInfo>,
}

/// The signature of a function: its name, parameter types and return type.
#[derive(Debug, Clone, PartialEq)]
pub struct FunctionSignature {
    pub name: String,
    pub params: Vec<Type>,
    pub return_type: Type,
}

impl ArtifactSchema {
    /// The field names, in declaration order.
    pub open spec fn field_names_spec(&self) -> Seq<Seq<char>> {
        Seq::new(self.fields@.len(), |i: int| self.fields@[i].name@)
    }

    /// The first field called `name`.
    pub fn field(&self, name: &str) -> (r: Option<&ArtifactFieldSchema>)
        ensures
            r matches Some(f) ==> exists|i: int| 0 <= i < self.fields@.len() && self.fields@[i] == *f
                && f.name@ == name@ && forall|j: int| 0 <= j < i ==> #[trigger] self.fields@[j].name@ != name@,
            r is None ==> forall|j: int| 0 <= j < self.fields@.len() ==> #[trigger] self.fields@[j].name@ != name@,
    {
        let mut i: usize = 0;
        while i < self.fields.len()
            invariant
                i <= self.fields@.len(),
                forall|j: int| 0 <= j < i ==> #[trigger] self.fields@[j].name@ != name@,
            decreases self.fields.len() - i,
        {
            if str_eq(self.fields[i].name.as_str(), name) {
                return Some(&self.fields[i]);
            }
            i = i + 1;
        }
        None
    }

    /// The names of the fields, in declaration order.
    pub fn field_names(&self) -> (names: Vec<String>)
        ensures
            names@.len() == self.fields@.len(),
            forall|i: int| 0 <= i < names@.len() ==> #[trigger] names@[i]@ == self.fields@[i].name@,
    {
        let mut names: Vec<String> = Vec::new();
        let mut i: usize = 0;
        while i < self.fields.len()
            invariant
                i <= self.fields@.len(),
                names@.len() == i,
                forall|k: int| 0 <= k < i ==> #[trigger] names@[k]@ == self.fields@[k].name@,
            decreases self.fields.len() - i,
        {
            names.push(self.fields[i].name.clone());
            i = i + 1;
        }
        names
    }

    /// The first method called `name`.
    pub fn method(&self, name: &str) -> (r: Option<&ArtifactMethod>)
        ensures
            r matches Some(m) ==> exists|i: int| 0 <= i < self.methods@.len() && self.methods@[i].1 == *m
                && self.methods@[i].0@ == name@,
            r is None ==> forall|j: int| 0 <= j < self.methods@.len() ==> #[trigger] self.methods@[j].0@ != name@,
    {
        let mut i: usize = 0;
        while i < self.methods.len()
            invariant
                i <= self.methods@.len(),
                forall|j: int| 0 <= j < i ==> #[trigger] self.methods@[j].0@ != name@,
            decreases self.methods.len() - i,
        {
            if str_eq(self.methods[i].0.as_str(), name) {
                return Some(&self.methods[i].1);
            }
            i = i + 1;
        }
        None
    }
}

} // verus!
