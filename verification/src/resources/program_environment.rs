//! The variables of a program as the host shows them to its user.

use vstd::prelude::*;

verus! {

/// What a shown variable holds.
#[derive(Debug, PartialEq)]
pub enum ProgramVariableValue {
    Integer(isize),
    Boolean(bool),
    String(String),
    Function,
}

/// The mathematical value of a [`ProgramVariableValue`].
pub enum ProgramVariableValueModel {
    Integer(isize),
    Boolean(bool),
    String(Seq<char>),
    Function,
}

impl View for ProgramVariableValue {
    type V = ProgramVariableValueModel;

    open spec fn view(&self) -> ProgramVariableValueModel {
        match self {
            ProgramVariableValue::Integer(value) => ProgramVariableValueModel::Integer(*value),
            ProgramVariableValue::Boolean(value) => ProgramVariableValueModel::Boolean(*value),
            ProgramVariableValue::String(value) => ProgramVariableValueModel::String(value@),
            ProgramVariableValue::Function => ProgramVariableValueModel::Function,
        }
    }
}

impl Clone for ProgramVariableValue {
    fn clone(&self) -> (r: Self)
        ensures
            r@ == self@,
    {
        match self {
            ProgramVariableValue::Integer(value) => ProgramVariableValue::Integer(*value),
            ProgramVariableValue::Boolean(value) => ProgramVariableValue::Boolean(*value),
            ProgramVariableValue::String(value) => ProgramVariableValue::String(value.clone()),
            ProgramVariableValue::Function => ProgramVariableValue::Function,
        }
    }
}

/// A name and what it holds.
#[derive(Debug, PartialEq)]
pub struct ProgramVariable {
    pub name: String,
    pub value: ProgramVariableValue,
}

impl View for ProgramVariable {
    type V = (Seq<char>, ProgramVariableValueModel);

    open spec fn view(&self) -> (Seq<char>, ProgramVariableValueModel) {
        (self.name@, self.value@)
    }
}

impl Clone for ProgramVariable {
    fn clone(&self) -> (r: Self)
        ensures
            r@ == self@,
    {
        ProgramVariable { name: self.name.clone(), value: self.value.clone() }
    }
}

/// The views of a list of variables, one by one.
pub open spec fn variables_view(variables: &Vec<ProgramVariable>) -> Seq<
    (Seq<char>, ProgramVariableValueModel),
> {
    Seq::new(variables.len() as nat, |i: int| variables[i]@)
}

/// The variables to show, in the order in which they were added.
pub struct ProgramEnvironment {
    variables: Vec<ProgramVariable>,
}

impl View for ProgramEnvironment {
    type V = Seq<(Seq<char>, ProgramVariableValueModel)>;

    closed spec fn view(&self) -> Self::V {
        variables_view(&self.variables)
    }
}

impl ProgramEnvironment {
    /// An empty list of variables.
    pub fn new() -> (r: Self)
        ensures
            r@ == Seq::<(Seq<char>, ProgramVariableValueModel)>::empty(),
    {
        let r = ProgramEnvironment { variables: Vec::new() };
        assert(r@ =~= Seq::<(Seq<char>, ProgramVariableValueModel)>::empty());
        r
    }

    /// Forgets every variable, and hands the environment back for the next
    /// call.
    pub fn clear(&mut self) -> (r: &mut Self)
        ensures
            r@ == Seq::<(Seq<char>, ProgramVariableValueModel)>::empty(),
            *final(self) == *final(r),
    {
        self.variables = Vec::new();
        assert(self@ =~= Seq::<(Seq<char>, ProgramVariableValueModel)>::empty());
        self
    }

    /// Adds a variable behind those that are there, and hands the environment
    /// back for the next call.
    pub fn add_variable(&mut self, program_variable: ProgramVariable) -> (r: &mut Self)
        ensures
            r@ == old(self)@.push(program_variable@),
            *final(self) == *final(r),
    {
        self.variables.push(program_variable);
        assert(self@ =~= old(self)@.push(program_variable@));
        self
    }

    /// The variables, in the order in which they were added.
    pub fn get_variables(&self) -> (variables: &Vec<ProgramVariable>)
        ensures
            variables_view(variables) == self@,
    {
        &self.variables
    }
}

} // verus!
