//! Run-time values, environments, and the commands that a program hands to
//! its host.

use crate::interpreter::ast::{
    copy_names, names_view, same_names, statements_view, BlockStatement, StatementModel,
};
use crate::interpreter::text::same_text;
use vstd::prelude::*;
use vstd::std_specs::cmp::PartialEqSpecImpl;

verus! {

/// One effect that the host is asked to apply. A number in a command is the
/// bit pattern of a double-precision float.
#[derive(PartialEq, Eq, Structural, Debug, Clone, Copy)]
pub enum Command {
    SetThrust { throttle: u64 },
    SetTorque { force: u64 },
}

/// The calls that the host offers to a program. Each takes one number and
/// gives one command.
#[derive(PartialEq, Eq, Structural, Debug, Clone, Copy)]
pub enum CommandFn {
    SetThrust,
    SetTorque,
}

/// A run-time value.
#[derive(Debug)]
pub enum Object {
    Integer(isize),
    /// The bit pattern of a double-precision float.
    Float(u64),
    Boolean(bool),
    Return(Box<Object>),
    Error(String),
    Function { parameters: Vec<String>, body: BlockStatement, environment: Environment },
    Command { function: CommandFn },
    Null,
}

/// A scope: the names bound in it, and the scope around it.
#[derive(Debug)]
pub struct Environment {
    store: Vec<(String, Object)>,
    outer: Option<Box<Environment>>,
}

/// The mathematical value of an [`Object`].
pub enum ObjectModel {
    Integer(isize),
    Float(u64),
    Boolean(bool),
    Return(Box<ObjectModel>),
    Error(Seq<char>),
    Function {
        parameters: Seq<Seq<char>>,
        body: Seq<StatementModel>,
        environment: EnvironmentModel,
    },
    Command { function: CommandFn },
    Null,
}

/// The mathematical value of an [`Environment`]: a finite map from names to
/// values, and the environment around it.
pub struct EnvironmentModel {
    pub store: Map<Seq<char>, ObjectModel>,
    pub outer: Option<Box<EnvironmentModel>>,
}

/// The map that a list of bindings stands for: a later binding of a name
/// replaces an earlier one.
pub open spec fn bindings_map(bindings: Seq<(Seq<char>, ObjectModel)>) -> Map<
    Seq<char>,
    ObjectModel,
>
    decreases bindings.len(),
{
    if bindings.len() == 0 {
        Map::empty()
    } else {
        bindings_map(bindings.drop_last()).insert(bindings.last().0, bindings.last().1)
    }
}

/// The mathematical value of a run-time value.
pub open spec fn object_view(o: &Object) -> ObjectModel
    decreases o,
{
    match o {
        Object::Integer(value) => ObjectModel::Integer(*value),
        Object::Float(value) => ObjectModel::Float(*value),
        Object::Boolean(value) => ObjectModel::Boolean(*value),
        Object::Return(inner) => ObjectModel::Return(Box::new(object_view(inner))),
        Object::Error(message) => ObjectModel::Error(message@),
        Object::Function { parameters, body, environment } => ObjectModel::Function {
            parameters: names_view(parameters),
            body: statements_view(&body.statements),
            environment: environment_view(environment),
        },
        Object::Command { function } => ObjectModel::Command { function: *function },
        Object::Null => ObjectModel::Null,
    }
}

/// The bindings of a scope in the order in which they are kept.
pub open spec fn bindings_view(store: &Vec<(String, Object)>) -> Seq<(Seq<char>, ObjectModel)>
    decreases store,
{
    Seq::new(
        store.len() as nat,
        |i: int|
            if 0 <= i < store.len() {
                (store[i].0@, object_view(&store[i].1))
            } else {
                arbitrary()
            },
    )
}

/// The mathematical value of an environment.
pub closed spec fn environment_view(e: &Environment) -> EnvironmentModel
    decreases e,
{
    EnvironmentModel {
        store: bindings_map(bindings_view(&e.store)),
        outer: match &e.outer {
            Some(outer) => Some(Box::new(environment_view(outer))),
            None => None,
        },
    }
}

impl View for Object {
    type V = ObjectModel;

    open spec fn view(&self) -> ObjectModel {
        object_view(self)
    }
}

impl View for Environment {
    type V = EnvironmentModel;

    open spec fn view(&self) -> EnvironmentModel {
        environment_view(self)
    }
}

/// The views of a list of values, one by one.
pub open spec fn objects_view(objects: &Vec<Object>) -> Seq<ObjectModel> {
    Seq::new(objects.len() as nat, |i: int| objects[i]@)
}

/// The mathematical value of a value that may be missing.
pub open spec fn object_option(o: Option<Object>) -> Option<ObjectModel> {
    match o {
        Some(object) => Some(object@),
        None => None,
    }
}

/// What a name stands for: the binding in the innermost scope that has one.
pub open spec fn lookup(environment: EnvironmentModel, key: Seq<char>) -> Option<ObjectModel>
    decreases environment,
{
    if environment.store.contains_key(key) {
        Some(environment.store[key])
    } else {
        match environment.outer {
            Some(outer) => lookup(*outer, key),
            None => None,
        }
    }
}

/// The environment with one more binding in its innermost scope, in place of
/// what the name was bound to there.
pub open spec fn bound(
    environment: EnvironmentModel,
    key: Seq<char>,
    value: ObjectModel,
) -> EnvironmentModel {
    EnvironmentModel { store: environment.store.insert(key, value), outer: environment.outer }
}

/// A fresh scope inside `outer`.
pub open spec fn extended(outer: EnvironmentModel) -> EnvironmentModel {
    EnvironmentModel { store: Map::empty(), outer: Some(Box::new(outer)) }
}

/// The environment without the bindings of its innermost scope.
pub open spec fn cleared(environment: EnvironmentModel) -> EnvironmentModel {
    EnvironmentModel { store: Map::empty(), outer: environment.outer }
}

/// How binding, extending and clearing show in what names stand for: a name
/// stands for what it was last bound to; binding one name changes no other,
/// and changes nothing in the scopes around; a fresh scope shows what the
/// scope around it shows, and a binding in it hides the outer one without
/// touching it; a cleared scope shows what the scope around it shows.
pub proof fn lemma_environment_laws(
    environment: EnvironmentModel,
    key: Seq<char>,
    other: Seq<char>,
    value: ObjectModel,
)
    requires
        other != key,
    ensures
        lookup(bound(environment, key, value), key) == Some(value),
        lookup(bound(environment, key, value), other) == lookup(environment, other),
        bound(environment, key, value).outer == environment.outer,
        lookup(extended(environment), key) == lookup(environment, key),
        lookup(bound(extended(environment), key, value), key) == Some(value),
        bound(extended(environment), key, value).outer == Some(Box::new(environment)),
        lookup(cleared(environment), key) == match environment.outer {
            Some(outer) => lookup(*outer, key),
            None => None,
        },
        lookup(EnvironmentModel { store: Map::empty(), outer: None }, key) is None,
{
    reveal_with_fuel(lookup, 2);
}

/// The type of a value, as error messages name it.
pub open spec fn kind_name(o: ObjectModel) -> Seq<char> {
    match o {
        ObjectModel::Integer(_) => "integer"@,
        ObjectModel::Float(_) => "float"@,
        ObjectModel::Boolean(_) => "boolean"@,
        ObjectModel::Return(_) => "return"@,
        ObjectModel::Error(_) => "error"@,
        ObjectModel::Function { .. } => "function"@,
        ObjectModel::Command { .. } => "command"@,
        ObjectModel::Null => "null"@,
    }
}

/// A name that stands last among the bindings of its kind decides what the
/// map holds for it.
pub proof fn lemma_last_binding_decides(bindings: Seq<(Seq<char>, ObjectModel)>, i: int)
    requires
        0 <= i < bindings.len(),
        forall|j: int| i < j < bindings.len() ==> (#[trigger] bindings[j]).0 != bindings[i].0,
    ensures
        bindings_map(bindings).contains_key(bindings[i].0),
        bindings_map(bindings)[bindings[i].0] == bindings[i].1,
    decreases bindings.len(),
{
    if i < bindings.len() - 1 {
        let shorter = bindings.drop_last();
        assert(bindings.last() == bindings[bindings.len() - 1]);
        assert(shorter[i] == bindings[i]);
        assert forall|j: int| i < j < shorter.len() implies (#[trigger] shorter[j]).0
            != shorter[i].0 by {
            assert(shorter[j] == bindings[j]);
        }
        lemma_last_binding_decides(shorter, i);
    }
}

/// A name that no binding has is not in the map.
pub proof fn lemma_unbound_name_is_absent(bindings: Seq<(Seq<char>, ObjectModel)>, key: Seq<char>)
    requires
        forall|j: int| 0 <= j < bindings.len() ==> (#[trigger] bindings[j]).0 != key,
    ensures
        !bindings_map(bindings).contains_key(key),
    decreases bindings.len(),
{
    if bindings.len() > 0 {
        let shorter = bindings.drop_last();
        assert(bindings.last() == bindings[bindings.len() - 1]);
        assert forall|j: int| 0 <= j < shorter.len() implies (#[trigger] shorter[j]).0 != key by {
            assert(shorter[j] == bindings[j]);
        }
        lemma_unbound_name_is_absent(shorter, key);
    }
}

/// Replacing the last binding of a name is inserting into the map.
pub proof fn lemma_replacing_last_binding(
    bindings: Seq<(Seq<char>, ObjectModel)>,
    i: int,
    value: ObjectModel,
)
    requires
        0 <= i < bindings.len(),
        forall|j: int| i < j < bindings.len() ==> (#[trigger] bindings[j]).0 != bindings[i].0,
    ensures
        bindings_map(bindings.update(i, (bindings[i].0, value))) == bindings_map(bindings).insert(
            bindings[i].0,
            value,
        ),
    decreases bindings.len(),
{
    let key = bindings[i].0;
    let updated = bindings.update(i, (key, value));
    if i == bindings.len() - 1 {
        assert(updated.drop_last() =~= bindings.drop_last());
        assert(bindings_map(updated) =~= bindings_map(bindings).insert(key, value));
    } else {
        let shorter = bindings.drop_last();
        assert(shorter[i] == bindings[i]);
        assert forall|j: int| i < j < shorter.len() implies (#[trigger] shorter[j]).0
            != shorter[i].0 by {
            assert(shorter[j] == bindings[j]);
        }
        lemma_replacing_last_binding(shorter, i, value);
        assert(updated.drop_last() =~= shorter.update(i, (key, value)));
        assert(updated.last() == bindings.last());
        assert(bindings.last() == bindings[bindings.len() - 1]);
        assert(bindings.last().0 != key);
        assert(bindings_map(updated) =~= bindings_map(bindings).insert(key, value));
    }
}

/// The map of a list of bindings has finitely many names.
pub proof fn lemma_bindings_map_is_finite(bindings: Seq<(Seq<char>, ObjectModel)>)
    ensures
        bindings_map(bindings).dom().finite(),
    decreases bindings.len(),
{
    if bindings.len() > 0 {
        lemma_bindings_map_is_finite(bindings.drop_last());
    }
}

/// The place of the last binding of `key`, if it has one.
fn find_binding(store: &Vec<(String, Object)>, key: &str) -> (r: Option<usize>)
    ensures
        match r {
            Some(i) => {
                &&& i < store.len()
                &&& store[i as int].0@ == key@
                &&& forall|j: int| i < j < store.len() ==> store[j].0@ != key@
            },
            None => forall|j: int| 0 <= j < store.len() ==> store[j].0@ != key@,
        },
{
    let mut i: usize = store.len();
    while i > 0
        invariant
            0 <= i <= store.len(),
            forall|j: int| i <= j < store.len() ==> store[j].0@ != key@,
        decreases i,
    {
        i -= 1;
        if same_text(store[i].0.as_str(), key) {
            return Some(i);
        }
    }
    None
}

fn copy_object(o: &Object) -> (r: Object)
    ensures
        r@ == o@,
    decreases o,
{
    match o {
        Object::Integer(value) => Object::Integer(*value),
        Object::Float(value) => Object::Float(*value),
        Object::Boolean(value) => Object::Boolean(*value),
        Object::Return(inner) => Object::Return(Box::new(copy_object(inner))),
        Object::Error(message) => Object::Error(message.clone()),
        Object::Function { parameters, body, environment } => Object::Function {
            parameters: copy_names(parameters),
            body: body.clone(),
            environment: copy_environment(environment),
        },
        Object::Command { function } => Object::Command { function: *function },
        Object::Null => Object::Null,
    }
}

fn copy_bindings(store: &Vec<(String, Object)>) -> (r: Vec<(String, Object)>)
    ensures
        bindings_view(&r) == bindings_view(store),
    decreases store,
{
    let mut out: Vec<(String, Object)> = Vec::new();
    let mut i: usize = 0;
    while i < store.len()
        invariant
            0 <= i <= store.len(),
            out.len() == i,
            forall|k: int|
                0 <= k < i ==> (#[trigger] out[k]).0@ == store[k].0@ && object_view(&out[k].1)
                    == object_view(&store[k].1),
        decreases store.len() - i,
    {
        let binding = &store[i];
        out.push((binding.0.clone(), copy_object(&binding.1)));
        i += 1;
    }
    assert(bindings_view(&out) =~= bindings_view(store));
    out
}

fn copy_environment(e: &Environment) -> (r: Environment)
    ensures
        r@ == e@,
    decreases e,
{
    Environment {
        store: copy_bindings(&e.store),
        outer: match &e.outer {
            Some(outer) => Some(Box::new(copy_environment(outer))),
            None => None,
        },
    }
}

impl Clone for Object {
    fn clone(&self) -> (r: Self)
        ensures
            r@ == self@,
    {
        copy_object(self)
    }
}

impl Clone for Environment {
    fn clone(&self) -> (r: Self)
        ensures
            r@ == self@,
    {
        copy_environment(self)
    }
}

impl Object {
    /// The type of the value, as error messages name it.
    pub fn name(&self) -> (r: String)
        ensures
            r@ == kind_name(self@),
    {
        match self {
            Object::Integer(_) => "integer".to_owned(),
            Object::Float(_) => "float".to_owned(),
            Object::Boolean(_) => "boolean".to_owned(),
            Object::Return(_) => "return".to_owned(),
            Object::Error(_) => "error".to_owned(),
            Object::Function { .. } => "function".to_owned(),
            Object::Command { .. } => "command".to_owned(),
            Object::Null => "null".to_owned(),
        }
    }
}

impl Environment {
    /// An empty scope with nothing around it.
    pub fn new() -> (environment: Environment)
        ensures
            environment@ == (EnvironmentModel { store: Map::empty(), outer: None }),
    {
        let environment = Environment { store: Vec::new(), outer: None };
        assert(bindings_view(&environment.store) =~= Seq::empty());
        environment
    }

    /// An empty scope inside `environment`.
    pub fn extend(environment: Environment) -> (inner: Environment)
        ensures
            inner@ == extended(environment@),
    {
        let inner = Environment { store: Vec::new(), outer: Some(Box::new(environment)) };
        assert(bindings_view(&inner.store) =~= Seq::empty());
        inner
    }

    /// The place of the binding that decides what `key` stands for here.
    fn find(&self, key: &str) -> (r: Option<usize>)
        ensures
            match r {
                Some(i) => {
                    &&& i < self.store.len()
                    &&& self.store[i as int].0@ == key@
                    &&& forall|j: int| i < j < self.store.len() ==> self.store[j].0@ != key@
                },
                None => forall|j: int| 0 <= j < self.store.len() ==> self.store[j].0@ != key@,
            },
    {
        find_binding(&self.store, key)
    }

    /// What `key` stands for: the binding of the innermost scope that has one.
    pub fn get(&self, key: &str) -> (r: Option<Object>)
        ensures
            object_option(r) == lookup(self@, key@),
        decreases self,
    {
        let ghost bindings = bindings_view(&self.store);
        match self.find(key) {
            Some(i) => {
                proof {
                    assert(bindings[i as int] == (
                        self.store[i as int].0@,
                        object_view(&self.store[i as int].1),
                    ));
                    assert forall|j: int| i < j < bindings.len() implies (#[trigger] bindings[j]).0
                        != bindings[i as int].0 by {
                        assert(bindings[j].0 == self.store[j].0@);
                    }
                    lemma_last_binding_decides(bindings, i as int);
                }
                Some(self.store[i].1.clone())
            },
            None => {
                proof {
                    assert forall|j: int| 0 <= j < bindings.len() implies (#[trigger] bindings[j]).0
                        != key@ by {
                        assert(bindings[j].0 == self.store[j].0@);
                    }
                    lemma_unbound_name_is_absent(bindings, key@);
                }
                match &self.outer {
                    Some(outer) => outer.get(key),
                    None => None,
                }
            },
        }
    }

    /// Binds `key` in this scope, in place of what it was bound to here. The
    /// scopes around are left as they are.
    pub fn set(&mut self, key: String, value: Object)
        ensures
            final(self)@ == bound(old(self)@, key@, value@),
    {
        let ghost bindings = bindings_view(&self.store);
        match self.find(key.as_str()) {
            Some(i) => {
                proof {
                    assert(bindings[i as int].0 == self.store[i as int].0@);
                    assert forall|j: int| i < j < bindings.len() implies (#[trigger] bindings[j]).0
                        != bindings[i as int].0 by {
                        assert(bindings[j].0 == self.store[j].0@);
                    }
                    lemma_replacing_last_binding(bindings, i as int, value@);
                }
                self.store.set(i, (key, value));
                assert(bindings_view(&self.store) =~= bindings.update(i as int, (key@, value@)));
            },
            None => {
                self.store.push((key, value));
                proof {
                    let longer = bindings_view(&self.store);
                    assert(longer =~= bindings.push((key@, value@)));
                    assert(longer.drop_last() =~= bindings);
                }
            },
        }
    }

    /// Forgets the bindings of this scope.
    pub fn clear(&mut self)
        ensures
            final(self)@ == cleared(old(self)@),
    {
        self.store = Vec::new();
        assert(bindings_view(&self.store) =~= Seq::empty());
    }
}

/// A number or a truth value bound to a name, as instruments show it. A float
/// is its bit pattern.
#[derive(PartialEq, Eq, Structural, Debug, Clone, Copy)]
pub enum ProgramVariable {
    Integer(isize),
    Float(u64),
    Boolean(bool),
}

/// What instruments show of a value: numbers and truth values, nothing else.
pub open spec fn variable_of(o: ObjectModel) -> Option<ProgramVariable> {
    match o {
        ObjectModel::Integer(value) => Some(ProgramVariable::Integer(value)),
        ObjectModel::Float(value) => Some(ProgramVariable::Float(value)),
        ObjectModel::Boolean(value) => Some(ProgramVariable::Boolean(value)),
        _ => None,
    }
}

fn variable(o: &Object) -> (r: Option<ProgramVariable>)
    ensures
        r == variable_of(o@),
{
    match o {
        Object::Integer(value) => Some(ProgramVariable::Integer(*value)),
        Object::Float(value) => Some(ProgramVariable::Float(*value)),
        Object::Boolean(value) => Some(ProgramVariable::Boolean(*value)),
        _ => None,
    }
}

impl Environment {
    /// The numbers and truth values bound in the innermost scope, each name
    /// once, with what it is bound to now.
    #[verifier::rlimit(40)]
    pub fn get_variables(&self) -> (variables: Vec<(String, ProgramVariable)>)
        ensures
            forall|i: int|
                0 <= i < variables.len() ==> self@.store.contains_key(
                    (#[trigger] variables[i]).0@,
                ) && variable_of(self@.store[variables[i].0@]) == Some(variables[i].1),
            forall|key: Seq<char>|
                self@.store.contains_key(key) && variable_of(self@.store[key]) is Some
                    ==> exists|i: int|
                    0 <= i < variables.len() && (#[trigger] variables[i]).0@ == key,
            forall|i: int, j: int|
                0 <= i < j < variables.len() ==> (#[trigger] variables[i]).0@ != (
                #[trigger] variables[j]).0@,
    {
        let ghost bindings = bindings_view(&self.store);
        let ghost store = bindings_map(bindings);
        let ghost mut places: Seq<int> = Seq::empty();
        let mut variables: Vec<(String, ProgramVariable)> = Vec::new();
        let mut i: usize = 0;
        while i < self.store.len()
            invariant
                0 <= i <= self.store.len(),
                bindings == bindings_view(&self.store),
                store == bindings_map(bindings),
                places.len() == variables.len(),
                forall|j: int|
                    0 <= j < places.len() ==> 0 <= (#[trigger] places[j]) < i && last_binding(
                        bindings,
                        variables[j].0@,
                    ) == places[j] && bindings[places[j]].0 == variables[j].0@ && variable_of(
                        bindings[places[j]].1,
                    ) == Some(variables[j].1),
                forall|j: int, k: int|
                    0 <= j < k < places.len() ==> (#[trigger] places[j]) < (#[trigger] places[k]),
                forall|k: int|
                    0 <= k < i && last_binding(bindings, (#[trigger] bindings[k]).0) == k
                        && variable_of(bindings[k].1) is Some ==> exists|j: int|
                        0 <= j < variables.len() && (#[trigger] variables[j]).0@ == bindings[k].0,
            decreases self.store.len() - i,
        {
            let key = self.store[i].0.as_str();
            proof {
                lemma_last_binding(bindings, key@);
                assert(bindings[i as int].0 == key@);
                assert(bindings[i as int].1 == object_view(&self.store[i as int].1));
            }
            let ghost before = variables@;
            let mut pushed = false;
            match find_binding(&self.store, key) {
                Some(last) => {
                    proof {
                        assert(bindings[last as int].0 == key@);
                        if last_binding(bindings, key@) < last {
                            assert(bindings[last as int].0 != key@);
                        }
                        if last_binding(bindings, key@) > last {
                            assert(bindings[last_binding(bindings, key@)].0
                                == self.store[last_binding(bindings, key@)].0@);
                        }
                    }
                    if last == i {
                        match variable(&self.store[i].1) {
                            Some(value) => {
                                variables.push((self.store[i].0.clone(), value));
                                pushed = true;
                                proof {
                                    places = places.push(i as int);
                                }
                            },
                            None => {},
                        }
                    }
                },
                None => {},
            }
            proof {
                assert forall|k: int|
                    0 <= k < i + 1 && last_binding(bindings, (#[trigger] bindings[k]).0) == k
                        && variable_of(bindings[k].1) is Some implies exists|j: int|
                    0 <= j < variables.len() && (#[trigger] variables[j]).0@ == bindings[k].0 by {
                    if k < i {
                        let j = choose|j: int|
                            0 <= j < before.len() && (#[trigger] before[j]).0@ == bindings[k].0;
                        assert(variables[j] == before[j]);
                    } else {
                        assert(pushed);
                        assert(variables[variables.len() - 1].0@ == bindings[k].0);
                    }
                }
            }
            i += 1;
        }
        proof {
            assert forall|j: int| 0 <= j < variables.len() implies self@.store.contains_key(
                (#[trigger] variables[j]).0@,
            ) && variable_of(self@.store[variables[j].0@]) == Some(variables[j].1) by {
                lemma_last_binding(bindings, variables[j].0@);
                lemma_last_binding_decides(bindings, places[j]);
            }
            assert forall|key: Seq<char>|
                self@.store.contains_key(key) && variable_of(
                    self@.store[key],
                ) is Some implies exists|j: int|
                0 <= j < variables.len() && (#[trigger] variables[j]).0@ == key by {
                lemma_last_binding(bindings, key);
                let k = last_binding(bindings, key);
                lemma_last_binding_decides(bindings, k);
                assert(bindings[k].0 == key);
            }
            assert forall|j: int, k: int| 0 <= j < k < variables.len() implies (
            #[trigger] variables[j]).0@ != (#[trigger] variables[k]).0@ by {
                assert(places[j] < places[k]);
            }
        }
        variables
    }
}

/// The error that ended an evaluation, as the host reports it.
#[derive(PartialEq, Debug)]
pub struct RuntimeError {
    pub message: String,
}

impl RuntimeError {
    /// An error with its message.
    pub fn new(message: String) -> (error: RuntimeError)
        ensures
            error.message == message,
    {
        RuntimeError { message }
    }
}

impl Clone for RuntimeError {
    fn clone(&self) -> (r: Self)
        ensures
            r.message@ == self.message@,
    {
        RuntimeError { message: self.message.clone() }
    }
}

/// No command is held in the value, however deep.
pub open spec fn command_free(o: ObjectModel) -> bool
    decreases o,
{
    match o {
        ObjectModel::Return(inner) => command_free(*inner),
        ObjectModel::Function { environment, .. } => environment_command_free(environment),
        ObjectModel::Command { .. } => false,
        _ => true,
    }
}

/// No name is bound to a value that holds a command.
pub open spec fn store_command_free(store: Map<Seq<char>, ObjectModel>) -> bool
    decreases store,
{
    store.dom().finite() && forall|key: Seq<char>|
        store.dom().finite() && store.dom().contains(key) ==> command_free(#[trigger] store[key])
}

/// No scope of the environment binds a name to a value that holds a command.
pub open spec fn environment_command_free(e: EnvironmentModel) -> bool
    decreases e,
{
    store_command_free(e.store) && match e.outer {
        Some(outer) => environment_command_free(*outer),
        None => true,
    }
}

/// Equality of values. Host calls are opaque: a command is equal to nothing,
/// not even to itself, and so is every value that holds one. Floats are equal
/// when their bit patterns are.
pub open spec fn equal_objects(a: ObjectModel, b: ObjectModel) -> bool {
    a == b && command_free(a)
}

/// Equality of environments: the same bindings in every scope, none of which
/// holds a command.
pub open spec fn equal_environments(a: EnvironmentModel, b: EnvironmentModel) -> bool {
    a == b && environment_command_free(a)
}

/// The place of the last binding of `key`, or -1 if it has none.
pub open spec fn last_binding(bindings: Seq<(Seq<char>, ObjectModel)>, key: Seq<char>) -> int
    decreases bindings.len(),
{
    if bindings.len() == 0 {
        -1
    } else if bindings.last().0 == key {
        bindings.len() - 1
    } else {
        last_binding(bindings.drop_last(), key)
    }
}

proof fn lemma_last_binding(bindings: Seq<(Seq<char>, ObjectModel)>, key: Seq<char>)
    ensures
        -1 <= last_binding(bindings, key) < bindings.len(),
        last_binding(bindings, key) >= 0 ==> bindings[last_binding(bindings, key)].0 == key,
        forall|j: int|
            last_binding(bindings, key) < j < bindings.len() ==> (#[trigger] bindings[j]).0 != key,
        bindings_map(bindings).contains_key(key) <==> last_binding(bindings, key) >= 0,
    decreases bindings.len(),
{
    if bindings.len() > 0 {
        let shorter = bindings.drop_last();
        lemma_last_binding(shorter, key);
        assert(bindings.last() == bindings[bindings.len() - 1]);
        assert forall|j: int| last_binding(bindings, key) < j < bindings.len() implies (
        #[trigger] bindings[j]).0 != key by {
            if j < shorter.len() {
                assert(shorter[j] == bindings[j]);
            }
        }
        if bindings.last().0 != key && last_binding(shorter, key) >= 0 {
            assert(shorter[last_binding(shorter, key)] == bindings[last_binding(shorter, key)]);
        }
    }
}

fn same_object(a: &Object, b: &Object) -> (r: bool)
    ensures
        r == equal_objects(a@, b@),
    decreases a,
{
    match (a, b) {
        (Object::Integer(x), Object::Integer(y)) => *x == *y,
        (Object::Float(x), Object::Float(y)) => *x == *y,
        (Object::Boolean(x), Object::Boolean(y)) => *x == *y,
        (Object::Return(x), Object::Return(y)) => same_object(x, y),
        (Object::Error(x), Object::Error(y)) => {
            let equal = *x == *y;
            equal
        },
        (
            Object::Function { parameters: names1, body: b1, environment: e1 },
            Object::Function { parameters: names2, body: b2, environment: e2 },
        ) => same_names(names1, names2) && b1.same(b2) && same_environment(e1, e2),
        (Object::Command { .. }, Object::Command { .. }) => false,
        (Object::Null, Object::Null) => true,
        _ => false,
    }
}

#[verifier::rlimit(40)]
fn same_bindings(a: &Vec<(String, Object)>, b: &Vec<(String, Object)>) -> (r: bool)
    ensures
        r == (bindings_map(bindings_view(a)) == bindings_map(bindings_view(b))
            && store_command_free(bindings_map(bindings_view(a)))),
    decreases a,
{
    let ghost va = bindings_view(a);
    let ghost vb = bindings_view(b);
    let ghost ma = bindings_map(va);
    let ghost mb = bindings_map(vb);
    proof {
        lemma_bindings_map_is_finite(va);
    }
    let mut i: usize = 0;
    while i < a.len()
        invariant
            0 <= i <= a.len(),
            va == bindings_view(a),
            vb == bindings_view(b),
            ma == bindings_map(va),
            mb == bindings_map(vb),
            ma.dom().finite(),
            forall|k: int|
                0 <= k < i && last_binding(va, (#[trigger] va[k]).0) == k ==> ma.contains_key(
                    va[k].0,
                ) && mb.contains_key(va[k].0) && mb[va[k].0] == ma[va[k].0] && command_free(
                    ma[va[k].0],
                ),
        decreases a.len() - i,
    {
        let key = a[i].0.as_str();
        proof {
            lemma_last_binding(va, key@);
            lemma_last_binding(vb, key@);
            assert(va[i as int].0 == key@);
        }
        match find_binding(a, key) {
            Some(last) => {
                proof {
                    assert(va[last as int].0 == key@);
                    assert forall|j: int| last < j < va.len() implies (#[trigger] va[j]).0
                        != key@ by {
                        assert(va[j].0 == a[j].0@);
                    }
                    if last_binding(va, key@) < last {
                        assert(va[last as int].0 != key@);
                    }
                    if last_binding(va, key@) > last {
                        assert(va[last_binding(va, key@)].0 != key@);
                    }
                    assert(last_binding(va, key@) == last);
                    lemma_last_binding_decides(va, last as int);
                }
                if last == i {
                    match find_binding(b, key) {
                        Some(j) => {
                            proof {
                                assert(vb[j as int].0 == key@);
                                assert forall|m: int| j < m < vb.len() implies (
                                #[trigger] vb[m]).0 != vb[j as int].0 by {
                                    assert(vb[m].0 == b[m].0@);
                                }
                                lemma_last_binding_decides(vb, j as int);
                                assert(ma[key@] == object_view(&a[i as int].1));
                                assert(mb[key@] == object_view(&b[j as int].1));
                            }
                            if !same_object(&a[i].1, &b[j].1) {
                                proof {
                                    if ma == mb {
                                        assert(!command_free(ma[key@]));
                                        assert(ma.dom().contains(key@));
                                    }
                                }
                                return false;
                            }
                        },
                        None => {
                            proof {
                                assert forall|m: int| 0 <= m < vb.len() implies (
                                #[trigger] vb[m]).0 != key@ by {
                                    assert(vb[m].0 == b[m].0@);
                                }
                                lemma_unbound_name_is_absent(vb, key@);
                                assert(ma.contains_key(key@));
                            }
                            return false;
                        },
                    }
                }
            },
            None => {
                proof {
                    assert(a[i as int].0@ == key@);
                }
            },
        }
        i += 1;
    }
    let mut j: usize = 0;
    while j < b.len()
        invariant
            0 <= j <= b.len(),
            va == bindings_view(a),
            vb == bindings_view(b),
            ma == bindings_map(va),
            mb == bindings_map(vb),
            forall|k: int| 0 <= k < j ==> ma.contains_key((#[trigger] vb[k]).0),
        decreases b.len() - j,
    {
        let key = b[j].0.as_str();
        proof {
            assert(vb[j as int].0 == key@);
            lemma_last_binding(va, key@);
            lemma_last_binding(vb, key@);
        }
        match find_binding(a, key) {
            Some(found) => {
                proof {
                    assert(va[found as int].0 == key@);
                    if last_binding(va, key@) < 0 {
                        assert(va[found as int].0 != key@);
                    }
                }
            },
            None => {
                proof {
                    assert forall|m: int| 0 <= m < va.len() implies (#[trigger] va[m]).0
                        != key@ by {
                        assert(va[m].0 == a[m].0@);
                    }
                    lemma_unbound_name_is_absent(va, key@);
                    if last_binding(vb, key@) < 0 {
                        assert(vb[j as int].0 != key@);
                    }
                    assert(mb.contains_key(key@));
                }
                return false;
            },
        }
        j += 1;
    }
    proof {
        assert forall|key: Seq<char>| #[trigger] ma.dom().contains(key) implies mb.dom().contains(
            key,
        ) && mb[key] == ma[key] && command_free(ma[key]) by {
            lemma_last_binding(va, key);
            let k = last_binding(va, key);
            assert(va[k].0 == key);
        }
        assert forall|key: Seq<char>| #[trigger] mb.dom().contains(key) implies ma.dom().contains(
            key,
        ) by {
            lemma_last_binding(vb, key);
            let k = last_binding(vb, key);
            assert(vb[k].0 == key);
        }
        assert(ma.dom() =~= mb.dom());
        assert(ma =~= mb);
    }
    true
}

fn same_environment(a: &Environment, b: &Environment) -> (r: bool)
    ensures
        r == equal_environments(a@, b@),
    decreases a,
{
    let outers = match (&a.outer, &b.outer) {
        (Some(x), Some(y)) => same_environment(x, y),
        (None, None) => true,
        _ => false,
    };
    outers && same_bindings(&a.store, &b.store)
}

impl PartialEq for Object {
    fn eq(&self, other: &Self) -> (r: bool) {
        same_object(self, other)
    }
}

impl PartialEqSpecImpl for Object {
    open spec fn obeys_eq_spec() -> bool {
        true
    }

    open spec fn eq_spec(&self, other: &Self) -> bool {
        equal_objects(self@, other@)
    }
}

impl PartialEq for Environment {
    fn eq(&self, other: &Self) -> (r: bool) {
        same_environment(self, other)
    }
}

impl PartialEqSpecImpl for Environment {
    open spec fn obeys_eq_spec() -> bool {
        true
    }

    open spec fn eq_spec(&self, other: &Self) -> bool {
        equal_environments(self@, other@)
    }
}

} // verus!
