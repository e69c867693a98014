//! The decoded dataset and the errors a decode can end in.
use vstd::prelude::*;

verus! {

/// The two variable types the format knows.
#[derive(PartialEq, Eq, Structural, Clone, Copy, Debug)]
pub enum VarKind {
    Numeric,
    Character,
}

/// One column: trimmed name, type, width in bytes, and position within an observation.
#[derive(Debug)]
pub struct Variable {
    pub name: Vec<u8>,
    pub kind: VarKind,
    pub length: usize,
    pub offset: usize,
}

pub struct VariableModel {
    pub name: Seq<u8>,
    pub kind: VarKind,
    pub length: nat,
    pub offset: nat,
}

impl View for Variable {
    type V = VariableModel;

    open spec fn view(&self) -> VariableModel {
        VariableModel {
            name: self.name@,
            kind: self.kind,
            length: self.length as nat,
            offset: self.offset as nat,
        }
    }
}

/// One decoded cell. A number is held as the bits of an IEEE-754 double.
#[derive(Debug)]
pub enum Value {
    Missing,
    Number(u64),
    Text(Vec<u8>),
}

pub enum ValueModel {
    Missing,
    Number(u64),
    Text(Seq<u8>),
}

impl View for Value {
    type V = ValueModel;

    open spec fn view(&self) -> ValueModel {
        match self {
            Value::Missing => ValueModel::Missing,
            Value::Number(b) => ValueModel::Number(*b),
            Value::Text(t) => ValueModel::Text(t@),
        }
    }
}

/// One observation: a value per variable, in variable order.
#[derive(Debug)]
pub struct Row {
    pub values: Vec<Value>,
}

impl View for Row {
    type V = Seq<ValueModel>;

    open spec fn view(&self) -> Seq<ValueModel> {
        self.values@.map_values(|v: Value| v@)
    }
}

/// A decoded file: title, variables and observations.
#[derive(Debug)]
pub struct Dataset {
    pub title: Vec<u8>,
    pub variables: Vec<Variable>,
    pub rows: Vec<Row>,
}

pub struct DatasetModel {
    pub title: Seq<u8>,
    pub variables: Seq<VariableModel>,
    pub rows: Seq<Seq<ValueModel>>,
}

impl View for Dataset {
    type V = DatasetModel;

    open spec fn view(&self) -> DatasetModel {
        DatasetModel {
            title: self.title@,
            variables: self.variables@.map_values(|v: Variable| v@),
            rows: self.rows@.map_values(|r: Row| r@),
        }
    }
}

impl Dataset {
    /// The variable names, in variable order.
    pub fn variable_names(&self) -> (r: Vec<Vec<u8>>)
        ensures
            r@.map_values(|n: Vec<u8>| n@) == self@.variables.map_values(|v: VariableModel| v.name),
    {
        let mut names: Vec<Vec<u8>> = Vec::new();
        let mut i: usize = 0;
        while i < self.variables.len()
            invariant
                i <= self.variables@.len(),
                names@.map_values(|n: Vec<u8>| n@) =~= self@.variables.map_values(
                    |v: VariableModel| v.name,
                ).subrange(0, i as int),
            decreases self.variables@.len() - i,
        {
            let name = self.variables[i].name.clone();
            assert(name@ =~= self@.variables[i as int].name);
            let ghost before = names@.map_values(|n: Vec<u8>| n@);
            names.push(name);
            assert(names@.map_values(|n: Vec<u8>| n@) =~= before.push(name@));
            i = i + 1;
        }
        assert(self@.variables.map_values(|v: VariableModel| v.name).subrange(0, i as int)
            =~= self@.variables.map_values(|v: VariableModel| v.name));
        names
    }
}

/// The header record a decode expected and did not find.
#[derive(PartialEq, Eq, Structural, Clone, Copy, Debug)]
pub enum Marker {
    Library,
    FirstHeader,
    Member,
    Descriptor,
    MemberData,
    Namestr,
    VariableDescriptor,
    Observation,
}

/// Why a buffer could not be decoded.
#[derive(PartialEq, Eq, Structural, Clone, Copy, Debug)]
pub enum ParseError {
    EmptyInput,
    Truncated,
    MalformedHeader(Marker),
    UnsupportedType,
    NoVariables,
    NoRows,
}

} // verus!
