//! Values, symbols and scopes, with their mathematical models.

use crate::ast::parser::{
    duplicate_names, duplicate_nodes, names_model, nodes_model, ASTNode, Node,
};
use crate::error::{Failure, RuntimeError};
use vstd::prelude::*;

verus! {

/// One slot of the register file. It holds the address of a cell, never a value.
#[derive(Clone, Copy, Debug, PartialEq, Eq)]
pub struct Register {
    pub address: usize,
}

impl Register {
    /// A register that points at `address`.
    pub fn new(address: usize) -> (register: Register)
        ensures
            register.address == address,
    {
        Register { address }
    }
}

/// A declared name: the cell it is bound to and whether it may be rebound.
#[derive(Debug, PartialEq, Eq)]
pub struct Symbol {
    pub name: String,
    pub address: usize,
    pub mutable: bool,
}

/// The mathematical content of a [`Symbol`].
pub ghost struct Binding {
    pub name: Seq<char>,
    pub address: usize,
    pub mutable: bool,
}

impl View for Symbol {
    type V = Binding;

    open spec fn view(&self) -> Binding {
        Binding { name: self.name@, address: self.address, mutable: self.mutable }
    }
}

impl Symbol {
    /// A copy of the symbol.
    pub fn duplicate(&self) -> (copy: Symbol)
        ensures
            copy@ == self@,
    {
        Symbol { name: self.name.clone(), address: self.address, mutable: self.mutable }
    }
}

impl Clone for Symbol {
    fn clone(&self) -> (copy: Symbol)
        ensures
            copy@ == self@,
    {
        self.duplicate()
    }
}

/// The bindings of a list of symbols, in order.
pub open spec fn bindings(symbols: Seq<Symbol>) -> Seq<Binding> {
    Seq::new(symbols.len(), |i: int| symbols[i]@)
}

/// The index of the first binding at or after `from` that carries `name`.
pub open spec fn first_named(symbols: Seq<Binding>, name: Seq<char>, from: int) -> Option<int>
    decreases symbols.len() - from,
{
    if from < 0 || from >= symbols.len() {
        None
    } else if symbols[from].name == name {
        Some(from)
    } else {
        first_named(symbols, name, from + 1)
    }
}

/// Whether a binding at or after `from` points at `address`.
pub open spec fn any_points_at(symbols: Seq<Binding>, address: usize, from: int) -> bool
    decreases symbols.len() - from,
{
    if from < 0 || from >= symbols.len() {
        false
    } else {
        symbols[from].address == address || any_points_at(symbols, address, from + 1)
    }
}

/// Those of the first `upto` bindings of `outer` whose names `inner` does not
/// declare, in order.
pub open spec fn unshadowed(outer: Seq<Binding>, inner: Seq<Binding>, upto: int) -> Seq<Binding>
    decreases upto,
{
    if upto <= 0 || upto > outer.len() {
        Seq::empty()
    } else {
        let before = unshadowed(outer, inner, upto - 1);
        if first_named(inner, outer[upto - 1].name, 0) is None {
            before.push(outer[upto - 1])
        } else {
            before
        }
    }
}

/// Whether no two bindings of the list carry the same name.
pub open spec fn distinct(symbols: Seq<Binding>) -> bool {
    forall|i: int, j: int|
        0 <= i < j < symbols.len() ==> (#[trigger] symbols[i]).name != (#[trigger] symbols[j]).name
}

/// One frame of names, with the frame that encloses it.
#[derive(Debug, PartialEq, Eq)]
pub struct Scope {
    pub symbols: Vec<Symbol>,
    pub parent: Option<Box<Scope>>,
}

/// The mathematical content of a [`Scope`]: its bindings in the order of their
/// declaration, and the model of its parent.
pub ghost struct Frame {
    pub symbols: Seq<Binding>,
    pub parent: Option<Box<Frame>>,
}

/// The model of a scope and of the chain above it.
pub open spec fn scope_model(scope: Scope) -> Frame
    decreases scope,
{
    Frame {
        symbols: bindings(scope.symbols@),
        parent: match scope.parent {
            Some(parent) => Some(Box::new(scope_model(*parent))),
            None => None,
        },
    }
}

impl View for Scope {
    type V = Frame;

    open spec fn view(&self) -> Frame {
        scope_model(*self)
    }
}

impl Frame {
    /// A frame without bindings under `parent`.
    pub open spec fn empty(parent: Option<Frame>) -> Frame {
        Frame {
            symbols: Seq::empty(),
            parent: match parent {
                Some(p) => Some(Box::new(p)),
                None => None,
            },
        }
    }

    /// Whether the frame itself, not a frame above it, declares `name`.
    pub open spec fn declares(self, name: Seq<char>) -> bool {
        first_named(self.symbols, name, 0) is Some
    }

    /// The binding that `name` resolves to: that of the innermost frame of the
    /// chain that declares it.
    pub open spec fn lookup(self, name: Seq<char>) -> Option<Binding>
        decreases self,
    {
        match first_named(self.symbols, name, 0) {
            Some(i) => Some(self.symbols[i]),
            None => match self.parent {
                Some(parent) => parent.lookup(name),
                None => None,
            },
        }
    }

    /// The frame after `name` is declared in it, or the failure that a name
    /// already declared in this frame raises. Frames above are not asked.
    pub open spec fn declare(self, name: Seq<char>, address: usize, mutable: bool) -> Result<
        Frame,
        Failure,
    > {
        if self.declares(name) {
            Err(Failure::DuplicateDeclaration(name))
        } else {
            Ok(Frame { symbols: self.symbols.push(Binding { name, address, mutable }), ..self })
        }
    }

    /// The chain after the binding that `name` resolves to is pointed at
    /// `address`, or the failure raised: the name is bound nowhere, or bound
    /// as immutable.
    pub open spec fn rebind(self, name: Seq<char>, address: usize) -> Result<Frame, Failure>
        decreases self,
    {
        match first_named(self.symbols, name, 0) {
            Some(i) => if self.symbols[i].mutable {
                Ok(
                    Frame {
                        symbols: self.symbols.update(i, Binding { address, ..self.symbols[i] }),
                        ..self
                    },
                )
            } else {
                Err(Failure::ImmutableAssignment(name))
            },
            None => match self.parent {
                Some(parent) => match parent.rebind(name, address) {
                    Ok(rebound) => Ok(Frame { parent: Some(Box::new(rebound)), ..self }),
                    Err(failure) => Err(failure),
                },
                None => Err(Failure::UndeclaredVariable(name)),
            },
        }
    }

    /// Whether a binding of the chain points at `address`.
    pub open spec fn holds(self, address: usize) -> bool
        decreases self,
    {
        any_points_at(self.symbols, address, 0) || match self.parent {
            Some(parent) => parent.holds(address),
            None => false,
        }
    }

    /// The chain merged into one list: the frame's own bindings, then those of
    /// the frames above under names not met before, innermost first.
    pub open spec fn flatten(self) -> Seq<Binding>
        decreases self,
    {
        match self.parent {
            Some(parent) => {
                let above = parent.flatten();
                self.symbols + unshadowed(above, self.symbols, above.len() as int)
            },
            None => self.symbols,
        }
    }

    /// Whether the chain is one that an arena of `limit` cells can hold:
    /// every binding points at a cell, and no scope declares a name twice.
    pub open spec fn valid(self, limit: nat) -> bool
        decreases self,
    {
        &&& forall|i: int|
            0 <= i < self.symbols.len() ==> (#[trigger] self.symbols[i]).address < limit
        &&& distinct(self.symbols)
        &&& match self.parent {
            Some(parent) => parent.valid(limit),
            None => true,
        }
    }
}

/// A copy of a list of symbols.
pub fn duplicate_symbols(symbols: &Vec<Symbol>) -> (copy: Vec<Symbol>)
    ensures
        bindings(copy@) == bindings(symbols@),
{
    let mut copy: Vec<Symbol> = Vec::new();
    let mut i: usize = 0;
    while i < symbols.len()
        invariant
            i <= symbols.len(),
            copy.len() == i,
            forall|k: int| 0 <= k < i ==> copy@[k]@ == symbols@[k]@,
        decreases symbols.len() - i,
    {
        copy.push(symbols[i].duplicate());
        i += 1;
    }
    assert(bindings(copy@) =~= bindings(symbols@));
    copy
}

/// The index of the first of `symbols` that carries `name`.
pub fn position(symbols: &Vec<Symbol>, name: &String) -> (found: Option<usize>)
    ensures
        match found {
            Some(i) => i < symbols.len() && first_named(bindings(symbols@), name@, 0) == Some(
                i as int,
            ),
            None => first_named(bindings(symbols@), name@, 0) is None,
        },
{
    let mut i: usize = 0;
    while i < symbols.len()
        invariant
            i <= symbols.len(),
            first_named(bindings(symbols@), name@, 0) == first_named(
                bindings(symbols@),
                name@,
                i as int,
            ),
        decreases symbols.len() - i,
    {
        if symbols[i].name == *name {
            return Some(i);
        }
        i += 1;
    }
    None
}

/// Whether one of `symbols` points at `address`.
pub fn points_at(symbols: &Vec<Symbol>, address: usize) -> (found: bool)
    ensures
        found == any_points_at(bindings(symbols@), address, 0),
{
    let mut i: usize = 0;
    while i < symbols.len()
        invariant
            i <= symbols.len(),
            any_points_at(bindings(symbols@), address, 0) == any_points_at(
                bindings(symbols@),
                address,
                i as int,
            ),
        decreases symbols.len() - i,
    {
        if symbols[i].address == address {
            return true;
        }
        i += 1;
    }
    false
}

impl Scope {
    /// A scope without symbols under `parent`.
    pub fn new(parent: Option<Scope>) -> (scope: Scope)
        ensures
            scope@ == Frame::empty(
                match parent {
                    Some(p) => Some(p@),
                    None => None,
                },
            ),
    {
        let scope = Scope {
            symbols: Vec::new(),
            parent: match parent {
                Some(p) => Some(Box::new(p)),
                None => None,
            },
        };
        assert(scope@.symbols =~= Seq::empty());
        scope
    }

    /// The symbol that `name` resolves to along the chain, innermost first.
    pub fn lookup(&self, name: &String) -> (found: Option<&Symbol>)
        ensures
            match found {
                Some(symbol) => self@.lookup(name@) == Some(symbol@),
                None => self@.lookup(name@) is None,
            },
        decreases self,
    {
        match position(&self.symbols, name) {
            Some(i) => Some(&self.symbols[i]),
            None => match &self.parent {
                Some(parent) => parent.lookup(name),
                None => None,
            },
        }
    }

    /// Declares `name` in this scope. A name that this scope already declares
    /// is refused and the scope stays as it was; the scopes above are not asked.
    pub fn declare(&mut self, name: String, address: usize, mutable: bool) -> (outcome: Result<
        (),
        RuntimeError,
    >)
        ensures
            match outcome {
                Ok(_) => old(self)@.declare(name@, address, mutable) == Ok::<Frame, Failure>(
                    final(self)@,
                ),
                Err(error) => old(self)@.declare(name@, address, mutable) == Err::<Frame, Failure>(
                    error@,
                ) && final(self)@ == old(self)@,
            },
    {
        match position(&self.symbols, &name) {
            Some(_) => Err(RuntimeError::DuplicateDeclaration(name)),
            None => {
                self.symbols.push(Symbol { name, address, mutable });
                assert(self@.symbols =~= old(self)@.symbols.push(
                    Binding { name: name@, address, mutable },
                ));
                Ok(())
            },
        }
    }

    /// Points the symbol that `name` resolves to at `address`. Only the
    /// binding changes; no cell is written.
    pub fn rebind(&mut self, name: &String, address: usize) -> (outcome: Result<(), RuntimeError>)
        ensures
            match outcome {
                Ok(_) => old(self)@.rebind(name@, address) == Ok::<Frame, Failure>(final(self)@),
                Err(error) => old(self)@.rebind(name@, address) == Err::<Frame, Failure>(error@)
                    && final(self)@ == old(self)@,
            },
        decreases *old(self),
    {
        match position(&self.symbols, name) {
            Some(i) => {
                if self.symbols[i].mutable {
                    self.symbols[i].address = address;
                    assert(self@.symbols =~= old(self)@.symbols.update(
                        i as int,
                        Binding { address, ..old(self)@.symbols[i as int] },
                    ));
                    Ok(())
                } else {
                    Err(RuntimeError::ImmutableAssignment(name.clone()))
                }
            },
            None => match &mut self.parent {
                Some(parent) => {
                    let outcome = parent.rebind(name, address);
                    assert(self@.symbols =~= old(self)@.symbols);
                    outcome
                },
                None => Err(RuntimeError::UndeclaredVariable(name.clone())),
            },
        }
    }

    /// Whether a symbol of the chain points at `address`.
    pub fn holds(&self, address: usize) -> (found: bool)
        ensures
            found == self@.holds(address),
        decreases self,
    {
        if points_at(&self.symbols, address) {
            true
        } else {
            match &self.parent {
                Some(parent) => parent.holds(address),
                None => false,
            }
        }
    }

    /// Every symbol that can be seen from this scope: the chain merged into
    /// one list, a symbol of an inner scope standing for every outer symbol of
    /// the same name.
    pub fn get_all_symbols(&self) -> (all: Vec<Symbol>)
        ensures
            bindings(all@) == self@.flatten(),
        decreases self,
    {
        let mut all = duplicate_symbols(&self.symbols);
        match &self.parent {
            Some(parent) => {
                let above = parent.get_all_symbols();
                let mut i: usize = 0;
                while i < above.len()
                    invariant
                        i <= above.len(),
                        bindings(all@) == self@.symbols + unshadowed(
                            bindings(above@),
                            self@.symbols,
                            i as int,
                        ),
                    decreases above.len() - i,
                {
                    let ghost merged = bindings(all@);
                    let ghost outer = bindings(above@);
                    if position(&self.symbols, &above[i].name).is_none() {
                        all.push(above[i].duplicate());
                        assert(bindings(all@) =~= merged.push(outer[i as int]));
                        assert(unshadowed(outer, self@.symbols, i + 1) == unshadowed(
                            outer,
                            self@.symbols,
                            i as int,
                        ).push(outer[i as int]));
                        assert(bindings(all@) =~= self@.symbols + unshadowed(
                            outer,
                            self@.symbols,
                            i + 1,
                        ));
                    }
                    i += 1;
                }
                all
            },
            None => all,
        }
    }

    /// A copy of the scope and of the chain above it.
    pub fn duplicate(&self) -> (copy: Scope)
        ensures
            copy@ == self@,
        decreases self,
    {
        Scope {
            symbols: duplicate_symbols(&self.symbols),
            parent: match &self.parent {
                Some(parent) => Some(Box::new(parent.duplicate())),
                None => None,
            },
        }
    }
}

impl Clone for Scope {
    fn clone(&self) -> (copy: Scope)
        ensures
            copy@ == self@,
    {
        self.duplicate()
    }
}

/// A value of the language.
#[derive(Debug)]
pub enum DataType {
    /// A signed 32-bit integer.
    Number(i32),
    /// A function: its parameter names, its body, and the scope it captured
    /// where it was declared.
    Function(Vec<String>, Vec<ASTNode>, Scope),
    /// The absence of a value.
    Null(),
}

/// The mathematical content of a [`DataType`].
pub ghost enum Value {
    Number(i32),
    Function(Seq<Seq<char>>, Seq<Node>, Frame),
    Null,
}

impl View for DataType {
    type V = Value;

    open spec fn view(&self) -> Value {
        match *self {
            DataType::Number(n) => Value::Number(n),
            DataType::Function(params, body, scope) => Value::Function(
                names_model(params@),
                nodes_model(body@),
                scope@,
            ),
            DataType::Null() => Value::Null,
        }
    }
}

impl Value {
    /// Whether a condition that evaluates to this value lets its branch run:
    /// every value but zero and null does.
    pub open spec fn truthy(self) -> bool {
        match self {
            Value::Number(n) => n != 0,
            Value::Function(_, _, _) => true,
            Value::Null => false,
        }
    }

    /// Whether a cell that holds this value may stand for `other`: numbers
    /// are interchangeable when equal, null with null, a function with nothing.
    pub open spec fn interchangeable(self, other: Value) -> bool {
        match (self, other) {
            (Value::Number(a), Value::Number(b)) => a == b,
            (Value::Null, Value::Null) => true,
            _ => false,
        }
    }

    /// Whether the scope captured by this value, if it is a function, is one
    /// that an arena of `limit` cells can hold.
    pub open spec fn valid(self, limit: nat) -> bool {
        match self {
            Value::Function(_, _, scope) => scope.valid(limit),
            _ => true,
        }
    }

    /// What a look at the value shows without copying it: nothing of null,
    /// the number of a number, and of a function its kind alone, as a
    /// function without parameters, body or captured names.
    pub open spec fn glimpse(self) -> Option<Value> {
        match self {
            Value::Number(n) => Some(Value::Number(n)),
            Value::Function(_, _, _) => Some(
                Value::Function(Seq::empty(), Seq::empty(), Frame::empty(None)),
            ),
            Value::Null => None,
        }
    }

    /// Whether the scope captured by this value, if it is a function, holds a
    /// binding that points at `address`.
    pub open spec fn holds(self, address: usize) -> bool {
        match self {
            Value::Function(_, _, scope) => scope.holds(address),
            _ => false,
        }
    }
}

impl DataType {
    /// Whether the value is [`DataType::Null`].
    #[must_use]
    pub fn is_null(&self) -> (null: bool)
        ensures
            null == (self@ is Null),
    {
        match self {
            DataType::Null() => true,
            _ => false,
        }
    }

    /// Whether the value is a [`DataType::Number`].
    #[must_use]
    pub fn is_number(&self) -> (number: bool)
        ensures
            number == (self@ is Number),
    {
        match self {
            DataType::Number(_) => true,
            _ => false,
        }
    }

    /// Whether a cell that holds this value may stand for `other`.
    pub fn interchangeable(&self, other: &DataType) -> (same: bool)
        ensures
            same == self@.interchangeable(other@),
    {
        match (self, other) {
            (DataType::Number(a), DataType::Number(b)) => *a == *b,
            (DataType::Null(), DataType::Null()) => true,
            _ => false,
        }
    }

    /// Whether the scope captured by this value, if it is a function, holds a
    /// symbol that points at `address`.
    pub fn holds(&self, address: usize) -> (found: bool)
        ensures
            found == self@.holds(address),
    {
        match self {
            DataType::Function(_, _, scope) => scope.holds(address),
            _ => false,
        }
    }

    /// A copy of the value; of a function, with its body and captured scope.
    pub fn duplicate(&self) -> (copy: DataType)
        ensures
            copy@ == self@,
    {
        match self {
            DataType::Number(n) => DataType::Number(*n),
            DataType::Function(params, body, scope) => DataType::Function(
                duplicate_names(params),
                duplicate_nodes(body),
                scope.duplicate(),
            ),
            DataType::Null() => DataType::Null(),
        }
    }
}

impl Register {
    /// What a look at the cell the register points at shows: nothing where
    /// the cell holds null or lies outside `memory`, the number where it
    /// holds one, and of a function its kind alone.
    pub fn get_value(&self, memory: &[DataType]) -> (value: Option<DataType>)
        ensures
            match value {
                Some(seen) => Some(seen@),
                None => None,
            } == if self.address < memory@.len() {
                memory@[self.address as int]@.glimpse()
            } else {
                None
            },
    {
        if self.address >= memory.len() {
            return None;
        }
        match &memory[self.address] {
            DataType::Number(n) => Some(DataType::Number(*n)),
            DataType::Function(_, _, _) => {
                let params: Vec<String> = Vec::new();
                let body: Vec<ASTNode> = Vec::new();
                assert(names_model(params@) =~= Seq::empty());
                assert(nodes_model(body@) =~= Seq::empty());
                Some(DataType::Function(params, body, Scope::new(None)))
            },
            DataType::Null() => None,
        }
    }
}

impl PartialEq for DataType {
    /// Two values are equal where a cell that holds one may stand for the
    /// other. A function equals nothing, not even itself.
    fn eq(&self, other: &DataType) -> (same: bool) {
        self.interchangeable(other)
    }
}

impl vstd::std_specs::cmp::PartialEqSpecImpl for DataType {
    open spec fn obeys_eq_spec() -> bool {
        true
    }

    open spec fn eq_spec(&self, other: &DataType) -> bool {
        self@.interchangeable(other@)
    }
}

impl Clone for DataType {
    fn clone(&self) -> (copy: DataType)
        ensures
            copy@ == self@,
    {
        self.duplicate()
    }
}

} // verus!
