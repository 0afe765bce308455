//! The runtime state: an arena of value cells, a register file and the
//! chains of scopes, with the operations the evaluator is built from.
//!
//! Every variable, register and closure holds the *address* of a cell. A cell
//! is written when it is allocated and never again; to change what a name
//! means is to bind the name to another cell. A cell is free as long as no
//! register and no symbol, in an active, a suspended or a captured scope,
//! points at it.

pub mod properties;
pub mod symbol;

use crate::ast::parser::{names_model, nodes_model, ASTNode, Node};
use crate::error::{Failure, RuntimeError};
use symbol::{Binding, DataType, Frame, Register, Scope, Symbol, Value};
use vstd::prelude::*;

verus! {

/// The number of cells in the arena. The last cell is set aside: it holds
/// null, the registers point at it at the start, and it is never allocated.
pub const MEM_SIZE: usize = 1024;

/// The number of registers.
pub const REGISTER_COUNT: usize = 8;

/// The runtime state.
#[derive(Debug)]
pub struct VM {
    /// The arena.
    pub memory: Vec<DataType>,
    /// The register file.
    pub registers: Vec<Register>,
    /// The chains of scopes, one for each function call in progress and one
    /// below them for the program itself. The last chain is the active one;
    /// names are resolved along it and nowhere else.
    pub scopes: Vec<Scope>,
}

/// The mathematical content of a [`VM`].
pub ghost struct Machine {
    pub memory: Seq<Value>,
    pub registers: Seq<usize>,
    pub scopes: Seq<Frame>,
}

/// The values of a list of cells, in order.
pub open spec fn values(cells: Seq<DataType>) -> Seq<Value> {
    Seq::new(cells.len(), |i: int| cells[i]@)
}

/// The addresses held by a list of registers, in order.
pub open spec fn addresses(registers: Seq<Register>) -> Seq<usize> {
    Seq::new(registers.len(), |i: int| registers[i].address)
}

/// The models of a list of scopes, in order.
pub open spec fn frames(scopes: Seq<Scope>) -> Seq<Frame> {
    Seq::new(scopes.len(), |i: int| scopes[i]@)
}

impl View for VM {
    type V = Machine;

    open spec fn view(&self) -> Machine {
        Machine {
            memory: values(self.memory@),
            registers: addresses(self.registers@),
            scopes: frames(self.scopes@),
        }
    }
}

impl Machine {
    /// The shape every operation keeps: an arena of [`MEM_SIZE`] cells,
    /// [`REGISTER_COUNT`] registers that point into it, and an active chain.
    pub open spec fn wf(self) -> bool {
        &&& self.memory.len() == MEM_SIZE
        &&& self.registers.len() == REGISTER_COUNT
        &&& forall|r: int| 0 <= r < self.registers.len() ==> #[trigger] self.registers[r] < MEM_SIZE
        &&& self.scopes.len() >= 1
    }

    /// Whether no two cells hold the same number.
    pub open spec fn interned(self) -> bool {
        forall|c: int, d: int|
            0 <= c < self.memory.len() && 0 <= d < self.memory.len() && (
            #[trigger] self.memory[c]) is Number && self.memory[c] == (#[trigger] self.memory[d])
                ==> c == d
    }

    /// Whether the state, beyond its shape, is one that programs keep: every
    /// symbol of every chain, and of every scope captured by a function in
    /// the arena, points at a cell; no scope declares a name twice; and no
    /// two cells hold the same number.
    pub open spec fn sound(self) -> bool {
        &&& self.wf()
        &&& forall|k: int|
            0 <= k < self.scopes.len() ==> (#[trigger] self.scopes[k]).valid(self.memory.len())
        &&& forall|c: int|
            0 <= c < self.memory.len() ==> (#[trigger] self.memory[c]).valid(self.memory.len())
        &&& self.interned()
    }

    /// The state before anything ran: every cell holds null, every register
    /// points at the last cell, and one empty scope is active.
    pub open spec fn fresh() -> Machine {
        Machine {
            memory: Seq::new(MEM_SIZE as nat, |i: int| Value::Null),
            registers: Seq::new(REGISTER_COUNT as nat, |r: int| (MEM_SIZE - 1) as usize),
            scopes: seq![Frame::empty(None)],
        }
    }

    /// The innermost scope of the active chain.
    pub open spec fn active(self) -> Frame {
        self.scopes.last()
    }

    /// The state with `frame` in place of the innermost active scope.
    pub open spec fn with_active(self, frame: Frame) -> Machine {
        Machine { scopes: self.scopes.update(self.scopes.len() - 1, frame), ..self }
    }

    /// Whether anything points at the cell: a register, a symbol of an active
    /// or suspended chain, or a symbol of a scope captured by a function that
    /// sits in the arena.
    pub open spec fn in_use(self, address: usize) -> bool {
        ||| exists|r: int| 0 <= r < self.registers.len() && #[trigger] self.registers[r] == address
        ||| exists|k: int| 0 <= k < self.scopes.len() && (#[trigger] self.scopes[k]).holds(address)
        ||| exists|c: int| 0 <= c < self.memory.len() && (#[trigger] self.memory[c]).holds(address)
    }

    /// The first cell at or after `from`, the last cell left out, that is not
    /// in use.
    pub open spec fn first_free(self, from: int) -> Option<int>
        decreases self.memory.len() - from,
    {
        if from < 0 || from >= self.memory.len() - 1 || from > usize::MAX {
            None
        } else if !self.in_use(from as usize) {
            Some(from)
        } else {
            self.first_free(from + 1)
        }
    }

    /// The first cell at or after `from` whose value may stand for `value`.
    pub open spec fn first_interchangeable(self, value: Value, from: int) -> Option<int>
        decreases self.memory.len() - from,
    {
        if from < 0 || from >= self.memory.len() {
            None
        } else if self.memory[from].interchangeable(value) {
            Some(from)
        } else {
            self.first_interchangeable(value, from + 1)
        }
    }

    /// Writes `value` into the first free cell and gives its address; with no
    /// free cell nothing changes and the arena is out of memory.
    pub open spec fn allocate(self, value: Value) -> (Machine, Result<usize, Failure>) {
        match self.first_free(0) {
            Some(a) => (Machine { memory: self.memory.update(a, value), ..self }, Ok(a as usize)),
            None => (self, Err(Failure::OutOfMemory)),
        }
    }

    /// The address of a cell that holds `value`: the first cell whose value
    /// may stand for it, free or not, and only if there is none a cell newly
    /// allocated.
    pub open spec fn store(self, value: Value) -> (Machine, Result<usize, Failure>) {
        match self.first_interchangeable(value, 0) {
            Some(a) => (self, Ok(a as usize)),
            None => self.allocate(value),
        }
    }

    /// The value in the cell at `address`.
    pub open spec fn read(self, address: usize) -> Result<Value, Failure> {
        if address < self.memory.len() {
            Ok(self.memory[address as int])
        } else {
            Err(Failure::AddressOutOfBounds(address as nat))
        }
    }

    /// The binding that `name` resolves to along the active chain.
    pub open spec fn lookup(self, name: Seq<char>) -> Result<Binding, Failure> {
        match self.active().lookup(name) {
            Some(binding) => Ok(binding),
            None => Err(Failure::UndeclaredVariable(name)),
        }
    }

    /// The value that `name` stands for.
    pub open spec fn variable(self, name: Seq<char>) -> Result<Value, Failure> {
        match self.lookup(name) {
            Ok(binding) => self.read(binding.address),
            Err(failure) => Err(failure),
        }
    }

    /// Declares `name` in the innermost active scope, bound to `address`.
    pub open spec fn declare_at(self, name: Seq<char>, address: usize, mutable: bool) -> Result<
        Machine,
        Failure,
    > {
        match self.active().declare(name, address, mutable) {
            Ok(frame) => Ok(self.with_active(frame)),
            Err(failure) => Err(failure),
        }
    }

    /// Stores `value`, then declares `name` bound to its cell. The value
    /// stays stored when the declaration is refused.
    pub open spec fn declare(self, name: Seq<char>, value: Value, mutable: bool) -> (
        Machine,
        Result<(), Failure>,
    ) {
        let (stored, address) = self.store(value);
        match address {
            Ok(a) => match stored.declare_at(name, a, mutable) {
                Ok(declared) => (declared, Ok(())),
                Err(failure) => (stored, Err(failure)),
            },
            Err(failure) => (stored, Err(failure)),
        }
    }

    /// Binds `name`, where the active chain resolves it, to `address`.
    pub open spec fn rebind(self, name: Seq<char>, address: usize) -> Result<Machine, Failure> {
        match self.active().rebind(name, address) {
            Ok(frame) => Ok(self.with_active(frame)),
            Err(failure) => Err(failure),
        }
    }

    /// Stores `value` and points the register at its cell.
    pub open spec fn load_register(self, register: int, value: Value) -> (
        Machine,
        Result<(), Failure>,
    ) {
        let (stored, address) = self.store(value);
        match address {
            Ok(a) => (
                Machine { registers: stored.registers.update(register, a), ..stored },
                Ok(()),
            ),
            Err(failure) => (stored, Err(failure)),
        }
    }

    /// Opens an empty scope inside the innermost active scope.
    pub open spec fn push_scope(self) -> Machine {
        self.with_active(Frame::empty(Some(self.active())))
    }

    /// Closes the innermost active scope; the scope around it becomes the
    /// innermost. The outermost scope of a chain is never closed.
    pub open spec fn pop_scope(self) -> Machine {
        match self.active().parent {
            Some(parent) => self.with_active(*parent),
            None => self,
        }
    }

    /// Suspends the active chain and starts a new one: an empty scope whose
    /// parent is `captured`.
    pub open spec fn enter(self, captured: Frame) -> Machine {
        Machine { scopes: self.scopes.push(Frame::empty(Some(captured))), ..self }
    }

    /// Drops the active chain and resumes the one suspended last. The chain of
    /// the program itself is never dropped.
    pub open spec fn leave(self) -> Machine {
        if self.scopes.len() > 1 {
            Machine { scopes: self.scopes.drop_last(), ..self }
        } else {
            self
        }
    }

    /// The active chain merged into one scope without a parent, in which a
    /// binding of an inner scope stands for every outer binding of the same
    /// name: what a function declared here would resolve its names against.
    pub open spec fn capture(self) -> Frame {
        Frame { symbols: self.active().flatten(), parent: None }
    }

    /// Declares a function: the name is bound, immutably, to the first free
    /// cell; the active chain, that binding included, is captured; and the
    /// function, with what was captured, is written into the cell.
    pub open spec fn declare_function(
        self,
        name: Seq<char>,
        params: Seq<Seq<char>>,
        body: Seq<Node>,
    ) -> (Machine, Result<(), Failure>) {
        if self.active().declares(name) {
            (self, Err(Failure::DuplicateDeclaration(name)))
        } else {
            match self.first_free(0) {
                Some(a) => {
                    let declared = Frame {
                        symbols: self.active().symbols.push(
                            Binding { name, address: a as usize, mutable: false },
                        ),
                        ..self.active()
                    };
                    let bound = self.with_active(declared);
                    (
                        Machine {
                            memory: self.memory.update(
                                a,
                                Value::Function(params, body, bound.capture()),
                            ),
                            ..bound
                        },
                        Ok(()),
                    )
                },
                None => (self, Err(Failure::OutOfMemory)),
            }
        }
    }

    /// The function that `name` stands for: parameters, body and capture.
    pub open spec fn function(self, name: Seq<char>) -> Result<
        (Seq<Seq<char>>, Seq<Node>, Frame),
        Failure,
    > {
        match self.variable(name) {
            Ok(Value::Function(params, body, captured)) => Ok((params, body, captured)),
            Ok(_) => Err(Failure::NotCallable(name)),
            Err(failure) => Err(failure),
        }
    }
}

impl VM {
    /// Whether the state has the shape every operation keeps.
    pub open spec fn wf(&self) -> bool {
        self@.wf()
    }

    /// A runtime in which nothing has run yet.
    pub fn new() -> (vm: VM)
        ensures
            vm.wf(),
            vm@ == Machine::fresh(),
    {
        let mut memory: Vec<DataType> = Vec::new();
        let mut i: usize = 0;
        while i < MEM_SIZE
            invariant
                i <= MEM_SIZE,
                memory.len() == i,
                forall|k: int| 0 <= k < i ==> memory@[k]@ == Value::Null,
            decreases MEM_SIZE - i,
        {
            memory.push(DataType::Null());
            i += 1;
        }
        let mut registers: Vec<Register> = Vec::new();
        let mut r: usize = 0;
        while r < REGISTER_COUNT
            invariant
                r <= REGISTER_COUNT,
                registers.len() == r,
                forall|k: int| 0 <= k < r ==> registers@[k].address == MEM_SIZE - 1,
            decreases REGISTER_COUNT - r,
        {
            registers.push(Register::new(MEM_SIZE - 1));
            r += 1;
        }
        let mut scopes: Vec<Scope> = Vec::new();
        scopes.push(Scope::new(None));
        let vm = VM { memory, registers, scopes };
        assert(vm@.memory =~= Machine::fresh().memory);
        assert(vm@.registers =~= Machine::fresh().registers);
        assert(vm@.scopes =~= Machine::fresh().scopes);
        vm
    }

    /// Whether a condition that evaluates to `value` lets its branch run.
    pub fn truthy_check(&self, value: DataType) -> (truthy: bool)
        ensures
            truthy == value@.truthy(),
    {
        match value {
            DataType::Number(n) => n != 0,
            DataType::Null() => false,
            DataType::Function(_, _, _) => true,
        }
    }

    /// Opens an empty scope inside the innermost active scope.
    pub fn push_scope(&mut self)
        requires
            old(self).wf(),
        ensures
            final(self).wf(),
            final(self)@ == old(self)@.push_scope(),
    {
        let innermost = self.scopes.pop().unwrap();
        self.scopes.push(Scope::new(Some(innermost)));
        assert(self@.scopes =~= old(self)@.push_scope().scopes);
    }

    /// Closes the innermost active scope and with it every name declared in
    /// it. The outermost scope of a chain stays.
    pub fn pop_scope(&mut self)
        requires
            old(self).wf(),
        ensures
            final(self).wf(),
            final(self)@ == old(self)@.pop_scope(),
    {
        let innermost = self.scopes.pop().unwrap();
        let Scope { symbols, parent } = innermost;
        match parent {
            Some(around) => {
                self.scopes.push(*around);
            },
            None => {
                self.scopes.push(Scope { symbols, parent: None });
            },
        }
        assert(self@.scopes =~= old(self)@.pop_scope().scopes);
    }

    /// Suspends the active chain and starts the chain of a call: an empty
    /// scope whose parent is the scope the function captured.
    pub fn enter_function(&mut self, captured: Scope)
        requires
            old(self).wf(),
        ensures
            final(self).wf(),
            final(self)@ == old(self)@.enter(captured@),
    {
        self.scopes.push(Scope::new(Some(captured)));
        assert(self@.scopes =~= old(self)@.enter(captured@).scopes);
    }

    /// Drops the chain of the call that ends and resumes the caller's.
    pub fn leave_function(&mut self)
        requires
            old(self).wf(),
        ensures
            final(self).wf(),
            final(self)@ == old(self)@.leave(),
    {
        if self.scopes.len() > 1 {
            self.scopes.pop();
            assert(self@.scopes =~= old(self)@.leave().scopes);
        }
    }

    /// Whether anything points at the cell at `address`.
    pub fn in_use(&self, address: usize) -> (used: bool)
        ensures
            used == self@.in_use(address),
    {
        let mut r: usize = 0;
        while r < self.registers.len()
            invariant
                r <= self.registers.len(),
                forall|k: int| 0 <= k < r ==> self@.registers[k] != address,
            decreases self.registers.len() - r,
        {
            if self.registers[r].address == address {
                assert(self@.registers[r as int] == address);
                return true;
            }
            r += 1;
        }
        let mut s: usize = 0;
        while s < self.scopes.len()
            invariant
                s <= self.scopes.len(),
                forall|k: int| 0 <= k < s ==> !self@.scopes[k].holds(address),
            decreases self.scopes.len() - s,
        {
            if self.scopes[s].holds(address) {
                assert(self@.scopes[s as int].holds(address));
                return true;
            }
            s += 1;
        }
        let mut c: usize = 0;
        while c < self.memory.len()
            invariant
                c <= self.memory.len(),
                forall|k: int| 0 <= k < c ==> !self@.memory[k].holds(address),
            decreases self.memory.len() - c,
        {
            if self.memory[c].holds(address) {
                assert(self@.memory[c as int].holds(address));
                return true;
            }
            c += 1;
        }
        false
    }

    /// The first free cell, if there is one.
    pub fn get_free_address_index(&self) -> (free: Option<usize>)
        requires
            self.wf(),
        ensures
            match free {
                Some(a) => a < MEM_SIZE - 1 && self@.first_free(0) == Some(a as int),
                None => self@.first_free(0) is None,
            },
    {
        let mut a: usize = 0;
        while a < MEM_SIZE - 1
            invariant
                a <= MEM_SIZE - 1,
                self.wf(),
                self@.first_free(0) == self@.first_free(a as int),
            decreases MEM_SIZE - 1 - a,
        {
            if !self.in_use(a) {
                return Some(a);
            }
            a += 1;
        }
        None
    }

    /// Writes `data` into the first free cell and returns its address.
    pub fn add_to_memory(&mut self, data: DataType) -> (outcome: Result<usize, RuntimeError>)
        requires
            old(self).wf(),
        ensures
            final(self).wf(),
            match outcome {
                Ok(address) => address < MEM_SIZE - 1 && old(self)@.allocate(data@) == (
                    final(self)@,
                    Ok::<usize, Failure>(address),
                ),
                Err(error) => old(self)@.allocate(data@) == (
                    final(self)@,
                    Err::<usize, Failure>(error@),
                ),
            },
    {
        match self.get_free_address_index() {
            Some(address) => {
                self.memory[address] = data;
                assert(self@.memory =~= old(self)@.memory.update(address as int, data@));
                assert(self@.registers =~= old(self)@.registers);
                assert(self@.scopes =~= old(self)@.scopes);
                Ok(address)
            },
            None => Err(RuntimeError::OutOfMemory),
        }
    }

    /// A copy of the value in the cell at `address`.
    pub fn get_from_memory(&self, address: usize) -> (outcome: Result<DataType, RuntimeError>)
        ensures
            match outcome {
                Ok(value) => self@.read(address) == Ok::<Value, Failure>(value@),
                Err(error) => self@.read(address) == Err::<Value, Failure>(error@),
            },
    {
        if address < self.memory.len() {
            Ok(self.memory[address].duplicate())
        } else {
            Err(RuntimeError::AddressOutOfBounds(address))
        }
    }

    /// The first cell whose value may stand for `data`.
    pub fn find_in_memory(&self, data: &DataType) -> (found: Option<usize>)
        ensures
            match found {
                Some(a) => a < self.memory.len() && self@.first_interchangeable(data@, 0) == Some(
                    a as int,
                ),
                None => self@.first_interchangeable(data@, 0) is None,
            },
    {
        let mut a: usize = 0;
        while a < self.memory.len()
            invariant
                a <= self.memory.len(),
                self@.first_interchangeable(data@, 0) == self@.first_interchangeable(
                    data@,
                    a as int,
                ),
            decreases self.memory.len() - a,
        {
            if self.memory[a].interchangeable(data) {
                return Some(a);
            }
            a += 1;
        }
        None
    }

    /// The address of a cell that holds `data`: a cell that holds an equal
    /// number, or null for null, is used again; only where there is none is a
    /// free cell written.
    pub fn get_or_add_to_memory(&mut self, data: DataType) -> (outcome: Result<
        usize,
        RuntimeError,
    >)
        requires
            old(self).wf(),
        ensures
            final(self).wf(),
            match outcome {
                Ok(address) => address < MEM_SIZE && old(self)@.store(data@) == (
                    final(self)@,
                    Ok::<usize, Failure>(address),
                ),
                Err(error) => old(self)@.store(data@) == (
                    final(self)@,
                    Err::<usize, Failure>(error@),
                ),
            },
    {
        match self.find_in_memory(&data) {
            Some(address) => Ok(address),
            None => self.add_to_memory(data),
        }
    }

    /// Stores `value` and points the register at its cell.
    pub fn load_value_into_register(&mut self, register: usize, value: DataType) -> (outcome:
        Result<(), RuntimeError>)
        requires
            old(self).wf(),
            register < REGISTER_COUNT,
        ensures
            final(self).wf(),
            match outcome {
                Ok(_) => old(self)@.load_register(register as int, value@) == (
                    final(self)@,
                    Ok::<(), Failure>(()),
                ),
                Err(error) => old(self)@.load_register(register as int, value@) == (
                    final(self)@,
                    Err::<(), Failure>(error@),
                ),
            },
    {
        match self.get_or_add_to_memory(value) {
            Ok(address) => {
                let ghost stored = self@;
                self.registers[register].address = address;
                assert(self@.registers =~= stored.registers.update(register as int, address));
                assert(self@.memory =~= stored.memory);
                assert(self@.scopes =~= stored.scopes);
                Ok(())
            },
            Err(error) => Err(error),
        }
    }

    /// The address the register holds.
    pub fn get_register_address(&self, register: usize) -> (address: usize)
        requires
            self.wf(),
            register < REGISTER_COUNT,
        ensures
            address == self@.registers[register as int],
            address < MEM_SIZE,
    {
        self.registers[register].address
    }

    /// The index, in the arena, of the cell the register points at. Addresses
    /// are indices, so this is the address itself.
    pub fn get_register_address_index(&self, register: usize) -> (index: usize)
        requires
            self.wf(),
            register < REGISTER_COUNT,
        ensures
            index == self@.registers[register as int],
            index < MEM_SIZE,
    {
        self.get_register_address(register)
    }

    /// A copy of the value in the cell the register points at.
    pub fn get_register_value(&self, register: usize) -> (value: DataType)
        requires
            self.wf(),
            register < REGISTER_COUNT,
        ensures
            value@ == self@.memory[self@.registers[register as int] as int],
    {
        let address = self.get_register_address(register);
        self.memory[address].duplicate()
    }

    /// Declares `name` in the innermost active scope, bound to the cell at
    /// `address`.
    pub fn declare_variable_from_memory(
        &mut self,
        name: String,
        address: usize,
        mutable: bool,
    ) -> (outcome: Result<(), RuntimeError>)
        requires
            old(self).wf(),
        ensures
            final(self).wf(),
            match outcome {
                Ok(_) => old(self)@.declare_at(name@, address, mutable) == Ok::<Machine, Failure>(
                    final(self)@,
                ),
                Err(error) => old(self)@.declare_at(name@, address, mutable) == Err::<
                    Machine,
                    Failure,
                >(error@) && final(self)@ == old(self)@,
            },
    {
        let last = self.scopes.len() - 1;
        let outcome = self.scopes[last].declare(name, address, mutable);
        assert(self@.scopes =~= old(self)@.scopes.update(last as int, self.scopes@[last as int]@));
        assert(self@.memory =~= old(self)@.memory);
        assert(self@.registers =~= old(self)@.registers);
        proof {
            if outcome is Err {
                assert(self@.scopes =~= old(self)@.scopes);
            }
        }
        outcome
    }

    /// Stores `value` and declares `name` in the innermost active scope,
    /// bound to its cell.
    pub fn declare_variable(&mut self, name: String, value: DataType, mutable: bool) -> (outcome:
        Result<(), RuntimeError>)
        requires
            old(self).wf(),
        ensures
            final(self).wf(),
            match outcome {
                Ok(_) => old(self)@.declare(name@, value@, mutable) == (
                    final(self)@,
                    Ok::<(), Failure>(()),
                ),
                Err(error) => old(self)@.declare(name@, value@, mutable) == (
                    final(self)@,
                    Err::<(), Failure>(error@),
                ),
            },
    {
        match self.get_or_add_to_memory(value) {
            Ok(address) => self.declare_variable_from_memory(name, address, mutable),
            Err(error) => Err(error),
        }
    }

    /// The symbol that `name` resolves to along the active chain.
    pub fn get_variable_base(&self, name: &str) -> (outcome: Result<&Symbol, RuntimeError>)
        requires
            self.wf(),
        ensures
            match outcome {
                Ok(symbol) => self@.lookup(name@) == Ok::<Binding, Failure>(symbol@),
                Err(error) => self@.lookup(name@) == Err::<Binding, Failure>(error@),
            },
    {
        let name = name.to_owned();
        let last = self.scopes.len() - 1;
        match self.scopes[last].lookup(&name) {
            Some(symbol) => Ok(symbol),
            None => Err(RuntimeError::UndeclaredVariable(name)),
        }
    }

    /// A copy of the value that `name` stands for.
    pub fn get_variable(&self, name: &str) -> (outcome: Result<DataType, RuntimeError>)
        requires
            self.wf(),
        ensures
            match outcome {
                Ok(value) => self@.variable(name@) == Ok::<Value, Failure>(value@),
                Err(error) => self@.variable(name@) == Err::<Value, Failure>(error@),
            },
    {
        match self.get_variable_base(name) {
            Ok(symbol) => self.get_from_memory(symbol.address),
            Err(error) => Err(error),
        }
    }

    /// The address of the cell that `name` is bound to.
    pub fn get_variable_address(&self, name: &str) -> (outcome: Result<usize, RuntimeError>)
        requires
            self.wf(),
        ensures
            match outcome {
                Ok(address) => self@.lookup(name@) is Ok && self@.lookup(name@)->Ok_0.address
                    == address,
                Err(error) => self@.lookup(name@) == Err::<Binding, Failure>(error@),
            },
    {
        match self.get_variable_base(name) {
            Ok(symbol) => Ok(symbol.address),
            Err(error) => Err(error),
        }
    }

    /// Binds `name`, where the active chain resolves it, to the cell at
    /// `address`. No cell is written: what the name was bound to before stays
    /// as it is for everything else that points at it.
    pub fn set_variable_address(&mut self, name: &str, address: usize) -> (outcome: Result<
        (),
        RuntimeError,
    >)
        requires
            old(self).wf(),
        ensures
            final(self).wf(),
            match outcome {
                Ok(_) => old(self)@.rebind(name@, address) == Ok::<Machine, Failure>(final(self)@),
                Err(error) => old(self)@.rebind(name@, address) == Err::<Machine, Failure>(error@)
                    && final(self)@ == old(self)@,
            },
    {
        let name = name.to_owned();
        let last = self.scopes.len() - 1;
        let outcome = self.scopes[last].rebind(&name, address);
        assert(self@.scopes =~= old(self)@.scopes.update(last as int, self.scopes@[last as int]@));
        assert(self@.memory =~= old(self)@.memory);
        assert(self@.registers =~= old(self)@.registers);
        proof {
            if outcome is Err {
                assert(self@.scopes =~= old(self)@.scopes);
            }
        }
        outcome
    }

    /// A snapshot of the active chain, merged into one scope without a
    /// parent. Of two symbols of the same name, that of the inner scope is in
    /// it. What is rebound or declared later does not reach the snapshot.
    pub fn capture(&self) -> (captured: Scope)
        requires
            self.wf(),
        ensures
            captured@ == self@.capture(),
    {
        let last = self.scopes.len() - 1;
        Scope { symbols: self.scopes[last].get_all_symbols(), parent: None }
    }

    /// Declares the function `name` in the innermost active scope. The
    /// function captures the active chain as it is now, merged into one scope,
    /// with its own name bound in it.
    pub fn declare_function(
        &mut self,
        name: String,
        params: Vec<String>,
        instructions: Vec<ASTNode>,
    ) -> (outcome: Result<(), RuntimeError>)
        requires
            old(self).wf(),
        ensures
            final(self).wf(),
            match outcome {
                Ok(_) => old(self)@.declare_function(
                    name@,
                    names_model(params@),
                    nodes_model(instructions@),
                ) == (final(self)@, Ok::<(), Failure>(())),
                Err(error) => old(self)@.declare_function(
                    name@,
                    names_model(params@),
                    nodes_model(instructions@),
                ) == (final(self)@, Err::<(), Failure>(error@)),
            },
    {
        let last = self.scopes.len() - 1;
        if symbol::position(&self.scopes[last].symbols, &name).is_some() {
            return Err(RuntimeError::DuplicateDeclaration(name));
        }
        match self.get_free_address_index() {
            Some(address) => {
                let ghost before = self@;
                let declared = self.scopes[last].declare(name, address, false);
                assert(declared is Ok);
                assert(self@.scopes =~= before.scopes.update(
                    last as int,
                    self.scopes@[last as int]@,
                ));
                let captured = self.capture();
                let ghost scopes = self@.scopes;
                self.memory[address] = DataType::Function(params, instructions, captured);
                assert(self@.scopes =~= scopes);
                assert(self@.registers =~= before.registers);
                assert(self@.memory =~= before.memory.update(
                    address as int,
                    Value::Function(names_model(params@), nodes_model(instructions@), captured@),
                ));
                Ok(())
            },
            None => Err(RuntimeError::OutOfMemory),
        }
    }

    /// The function that `name` stands for: copies of its parameters, its body
    /// and the scope it captured.
    pub fn get_function(&self, name: &str) -> (outcome: Result<
        (Vec<String>, Vec<ASTNode>, Scope),
        RuntimeError,
    >)
        requires
            self.wf(),
        ensures
            match outcome {
                Ok((params, body, captured)) => self@.function(name@) == Ok::<
                    (Seq<Seq<char>>, Seq<Node>, Frame),
                    Failure,
                >((names_model(params@), nodes_model(body@), captured@)),
                Err(error) => self@.function(name@) == Err::<
                    (Seq<Seq<char>>, Seq<Node>, Frame),
                    Failure,
                >(error@),
            },
    {
        match self.get_variable(name) {
            Ok(DataType::Function(params, body, captured)) => Ok((params, body, captured)),
            Ok(_) => Err(RuntimeError::NotCallable(name.to_owned())),
            Err(error) => Err(error),
        }
    }
}

} // verus!
