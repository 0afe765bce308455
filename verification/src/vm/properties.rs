//! What holds of scopes and of the arena whatever a program does.

use super::symbol::{
    any_points_at, distinct, first_named, unshadowed, Binding, Frame, Value,
};
use super::Machine;
use crate::ast::parser::Node;
use crate::error::Failure;
use vstd::prelude::*;

verus! {

/// `first_named` finds the least index, at or after `from`, of a binding
/// with the name, and finds nothing only where there is none.
pub proof fn lemma_first_named(symbols: Seq<Binding>, name: Seq<char>, from: int)
    requires
        0 <= from,
    ensures
        match first_named(symbols, name, from) {
            Some(i) => {
                &&& from <= i < symbols.len()
                &&& symbols[i].name == name
                &&& forall|j: int| from <= j < i ==> (#[trigger] symbols[j]).name != name
            },
            None => forall|j: int|
                from <= j < symbols.len() ==> (#[trigger] symbols[j]).name != name,
        },
    decreases symbols.len() - from,
{
    if from < symbols.len() && symbols[from].name != name {
        lemma_first_named(symbols, name, from + 1);
    }
}

/// `any_points_at` holds exactly where a binding at or after `from` points at
/// the address.
pub proof fn lemma_any_points_at(symbols: Seq<Binding>, address: usize, from: int)
    requires
        0 <= from,
    ensures
        any_points_at(symbols, address, from) <==> exists|j: int|
            from <= j < symbols.len() && (#[trigger] symbols[j]).address == address,
    decreases symbols.len() - from,
{
    if from < symbols.len() {
        lemma_any_points_at(symbols, address, from + 1);
        if symbols[from].address == address {
            assert(from <= from < symbols.len() && symbols[from].address == address);
        }
    }
}

/// The binding a list gives a name: the first that carries it.
pub open spec fn first_binding(symbols: Seq<Binding>, name: Seq<char>) -> Option<Binding> {
    match first_named(symbols, name, 0) {
        Some(i) => Some(symbols[i]),
        None => None,
    }
}

/// What a list with one more binding at its end gives a name.
pub proof fn lemma_first_binding_push(symbols: Seq<Binding>, last: Binding, name: Seq<char>)
    ensures
        first_binding(symbols.push(last), name) == match first_binding(symbols, name) {
            Some(found) => Some(found),
            None => if last.name == name {
                Some(last)
            } else {
                None
            },
        },
{
    lemma_first_named(symbols, name, 0);
    lemma_first_named(symbols.push(last), name, 0);
    let longer = symbols.push(last);
    match first_named(symbols, name, 0) {
        Some(i) => {
            assert(longer[i] == symbols[i]);
            let k = first_named(longer, name, 0).unwrap();
            if k < i {
                assert(longer[k] == symbols[k]);
            }
        },
        None => {
            if last.name == name {
                assert(longer[symbols.len() as int] == last);
                let k = first_named(longer, name, 0).unwrap();
                if k < symbols.len() {
                    assert(longer[k] == symbols[k]);
                }
            } else {
                assert forall|j: int| 0 <= j < longer.len() implies (#[trigger] longer[j]).name
                    != name by {
                    if j < symbols.len() {
                        assert(longer[j] == symbols[j]);
                    }
                }
            }
        },
    }
}

/// What two lists, one after the other, give a name: what the first gives
/// it, and only where that is nothing what the second gives it.
pub proof fn lemma_first_binding_concat(
    inner: Seq<Binding>,
    outer: Seq<Binding>,
    name: Seq<char>,
)
    ensures
        first_binding(inner + outer, name) == match first_binding(inner, name) {
            Some(found) => Some(found),
            None => first_binding(outer, name),
        },
    decreases outer.len(),
{
    if outer.len() == 0 {
        assert(inner + outer =~= inner);
        lemma_first_named(outer, name, 0);
    } else {
        let shorter = outer.drop_last();
        assert(inner + outer =~= (inner + shorter).push(outer.last()));
        assert(outer =~= shorter.push(outer.last()));
        lemma_first_binding_concat(inner, shorter, name);
        lemma_first_binding_push(inner + shorter, outer.last(), name);
        lemma_first_binding_push(shorter, outer.last(), name);
    }
}

/// Under a name that `inner` does not declare, the bindings of `outer` that
/// `inner` leaves visible give what `outer` itself gives.
pub proof fn lemma_unshadowed_keeps(
    outer: Seq<Binding>,
    inner: Seq<Binding>,
    upto: int,
    name: Seq<char>,
)
    requires
        0 <= upto <= outer.len(),
        first_named(inner, name, 0) is None,
    ensures
        first_binding(unshadowed(outer, inner, upto), name) == first_binding(
            outer.take(upto),
            name,
        ),
    decreases upto,
{
    if upto == 0 {
        assert(outer.take(0) =~= Seq::<Binding>::empty());
        assert(unshadowed(outer, inner, 0) =~= Seq::<Binding>::empty());
    } else {
        let last = outer[upto - 1];
        lemma_unshadowed_keeps(outer, inner, upto - 1, name);
        assert(outer.take(upto) =~= outer.take(upto - 1).push(last));
        lemma_first_binding_push(outer.take(upto - 1), last, name);
        if first_named(inner, last.name, 0) is None {
            lemma_first_binding_push(unshadowed(outer, inner, upto - 1), last, name);
        }
    }
}

/// A scope captured by a function resolves every name as the chain it was
/// merged from did: the merged list gives each name the binding that a lookup
/// along the chain finds.
pub proof fn lemma_flatten_keeps_lookups(chain: Frame, name: Seq<char>)
    ensures
        first_binding(chain.flatten(), name) == chain.lookup(name),
        (Frame { symbols: chain.flatten(), parent: None }).lookup(name) == chain.lookup(name),
    decreases chain,
{
    match chain.parent {
        Some(parent) => {
            let above = parent.flatten();
            lemma_flatten_keeps_lookups(*parent, name);
            lemma_first_binding_concat(
                chain.symbols,
                unshadowed(above, chain.symbols, above.len() as int),
                name,
            );
            if first_named(chain.symbols, name, 0) is None {
                lemma_unshadowed_keeps(above, chain.symbols, above.len() as int, name);
                assert(above.take(above.len() as int) =~= above);
            }
        },
        None => {},
    }
}

/// The cell a name is bound to is held by the chain that binds it.
pub proof fn lemma_lookup_is_held(chain: Frame, name: Seq<char>)
    ensures
        match chain.lookup(name) {
            Some(binding) => chain.holds(binding.address),
            None => true,
        },
    decreases chain,
{
    lemma_first_named(chain.symbols, name, 0);
    match first_named(chain.symbols, name, 0) {
        Some(i) => {
            lemma_any_points_at(chain.symbols, chain.symbols[i].address, 0);
        },
        None => match chain.parent {
            Some(parent) => {
                lemma_lookup_is_held(*parent, name);
            },
            None => {},
        },
    }
}

/// Rebinding one name leaves the binding of every other name as it was.
pub proof fn lemma_rebind_keeps_others(
    chain: Frame,
    name: Seq<char>,
    address: usize,
    other: Seq<char>,
)
    requires
        other != name,
    ensures
        match chain.rebind(name, address) {
            Ok(rebound) => rebound.lookup(other) == chain.lookup(other),
            Err(_) => true,
        },
    decreases chain,
{
    lemma_first_named(chain.symbols, name, 0);
    lemma_first_named(chain.symbols, other, 0);
    match first_named(chain.symbols, name, 0) {
        Some(i) => {
            if chain.symbols[i].mutable {
                let rebound = chain.rebind(name, address)->Ok_0;
                lemma_first_named(rebound.symbols, other, 0);
                assert forall|j: int| 0 <= j < chain.symbols.len() implies (
                #[trigger] rebound.symbols[j]).name == chain.symbols[j].name by {}
                match first_named(chain.symbols, other, 0) {
                    Some(k) => {
                        assert(rebound.symbols[k].name == other);
                        let found = first_named(rebound.symbols, other, 0)->Some_0;
                        assert(rebound.symbols[found].name == chain.symbols[found].name);
                    },
                    None => {
                        if first_named(rebound.symbols, other, 0) is Some {
                            let found = first_named(rebound.symbols, other, 0)->Some_0;
                            assert(rebound.symbols[found].name == chain.symbols[found].name);
                        }
                    },
                }
            }
        },
        None => match chain.parent {
            Some(parent) => {
                lemma_rebind_keeps_others(*parent, name, address, other);
            },
            None => {},
        },
    }
}

/// Rebinding a name points exactly that name at the new cell.
pub proof fn lemma_rebind_binds(chain: Frame, name: Seq<char>, address: usize)
    ensures
        match chain.rebind(name, address) {
            Ok(rebound) => rebound.lookup(name) is Some && rebound.lookup(name)->Some_0.address
                == address,
            Err(_) => true,
        },
    decreases chain,
{
    lemma_first_named(chain.symbols, name, 0);
    match first_named(chain.symbols, name, 0) {
        Some(i) => {
            if chain.symbols[i].mutable {
                let rebound = chain.rebind(name, address)->Ok_0;
                lemma_first_named(rebound.symbols, name, 0);
                assert(rebound.symbols[i].name == name);
                let found = first_named(rebound.symbols, name, 0)->Some_0;
                if found < i {
                    assert(rebound.symbols[found].name == chain.symbols[found].name);
                }
            }
        },
        None => match chain.parent {
            Some(parent) => {
                lemma_rebind_binds(*parent, name, address);
            },
            None => {},
        },
    }
}

/// When rebinding succeeds and when it fails: it fails for a name that
/// resolves to nothing, as undeclared, and for a name that resolves to an
/// immutable binding, as an immutable assignment; for every other name it
/// succeeds.
pub proof fn lemma_rebind_outcome(chain: Frame, name: Seq<char>, address: usize)
    ensures
        match chain.lookup(name) {
            None => chain.rebind(name, address) == Err::<Frame, Failure>(
                Failure::UndeclaredVariable(name),
            ),
            Some(binding) => if binding.mutable {
                chain.rebind(name, address) is Ok
            } else {
                chain.rebind(name, address) == Err::<Frame, Failure>(
                    Failure::ImmutableAssignment(name),
                )
            },
        },
    decreases chain,
{
    match first_named(chain.symbols, name, 0) {
        Some(_) => {},
        None => match chain.parent {
            Some(parent) => {
                lemma_rebind_outcome(*parent, name, address);
            },
            None => {},
        },
    }
}

/// The cell that `first_free` finds is one that nothing points at, and it is
/// not the last cell.
pub proof fn lemma_first_free_is_free(machine: Machine, from: int)
    requires
        0 <= from,
    ensures
        match machine.first_free(from) {
            Some(a) => from <= a < machine.memory.len() - 1 && a <= usize::MAX && !machine.in_use(
                a as usize,
            ),
            None => true,
        },
    decreases machine.memory.len() - from,
{
    if from < machine.memory.len() - 1 && from <= usize::MAX && machine.in_use(from as usize) {
        lemma_first_free_is_free(machine, from + 1);
    }
}

/// The cell that `first_interchangeable` finds holds a value that may stand
/// for the one asked for, and is the first that does; it finds nothing only
/// where no cell holds such a value.
pub proof fn lemma_first_interchangeable(machine: Machine, value: Value, from: int)
    requires
        0 <= from,
    ensures
        match machine.first_interchangeable(value, from) {
            Some(a) => from <= a < machine.memory.len() && machine.memory[a].interchangeable(value),
            None => forall|c: int|
                from <= c < machine.memory.len() ==> !(
                #[trigger] machine.memory[c]).interchangeable(value),
        },
    decreases machine.memory.len() - from,
{
    if from < machine.memory.len() && !machine.memory[from].interchangeable(value) {
        lemma_first_interchangeable(machine, value, from + 1);
    }
}

/// Storing a value gives the address of a cell that holds exactly that value,
/// and writes no cell that anything points at: every register and every
/// symbol, wherever it is, still finds the value it found before.
pub proof fn lemma_store_is_private(machine: Machine, value: Value)
    requires
        machine.memory.len() <= usize::MAX,
    ensures
        ({
            let (stored, outcome) = machine.store(value);
            &&& stored.scopes == machine.scopes
            &&& stored.registers == machine.registers
            &&& stored.memory.len() == machine.memory.len()
            &&& forall|c: int|
                0 <= c < machine.memory.len() && machine.in_use(c as usize)
                    ==> #[trigger] stored.memory[c] == machine.memory[c]
            &&& match outcome {
                Ok(a) => stored.read(a) == Ok::<Value, Failure>(value),
                Err(failure) => failure == Failure::OutOfMemory && stored == machine,
            }
        }),
{
    lemma_first_interchangeable(machine, value, 0);
    lemma_first_free_is_free(machine, 0);
}

/// Storing a value changes what no name stands for, whether or not the cell
/// it lands in is shared.
pub proof fn lemma_store_keeps_variables(machine: Machine, value: Value, name: Seq<char>)
    requires
        machine.memory.len() <= usize::MAX,
        machine.scopes.len() >= 1,
    ensures
        machine.store(value).0.variable(name) == machine.variable(name),
{
    lemma_store_is_private(machine, value);
    lemma_lookup_is_held(machine.active(), name);
    match machine.active().lookup(name) {
        Some(binding) => {
            if binding.address < machine.memory.len() {
                assert(machine.scopes[machine.scopes.len() - 1].holds(binding.address));
                assert(machine.in_use(binding.address));
            }
        },
        None => {},
    }
}

/// Binding one name to another cell changes what no other name stands for:
/// two names that shared a cell are as independent as two that did not. No
/// cell is written, so that a function, and the scope it captured when it
/// was declared, are what they were.
pub proof fn lemma_rebind_is_private(
    machine: Machine,
    name: Seq<char>,
    address: usize,
    other: Seq<char>,
)
    requires
        machine.scopes.len() >= 1,
        other != name,
    ensures
        match machine.rebind(name, address) {
            Ok(rebound) => {
                &&& rebound.variable(other) == machine.variable(other)
                &&& rebound.function(other) == machine.function(other)
                &&& rebound.variable(name) == machine.read(address)
                &&& rebound.memory == machine.memory
            },
            Err(_) => true,
        },
{
    lemma_rebind_keeps_others(machine.active(), name, address, other);
    lemma_rebind_binds(machine.active(), name, address);
}

/// Declaring a name changes what no other name stands for.
pub proof fn lemma_declare_at_is_private(
    machine: Machine,
    name: Seq<char>,
    address: usize,
    mutable: bool,
    other: Seq<char>,
)
    requires
        machine.scopes.len() >= 1,
        other != name,
    ensures
        match machine.declare_at(name, address, mutable) {
            Ok(declared) => {
                &&& declared.variable(other) == machine.variable(other)
                &&& declared.variable(name) == machine.read(address)
                &&& declared.memory == machine.memory
            },
            Err(_) => true,
        },
{
    let binding = Binding { name, address, mutable };
    lemma_first_binding_push(machine.active().symbols, binding, other);
    lemma_first_binding_push(machine.active().symbols, binding, name);
    lemma_first_named(machine.active().symbols, name, 0);
}

/// A function declared under `name` can be called by that name from the
/// place of its declaration, and inside its own body: the scope it captured
/// binds the name to the function's own cell, and resolves every other name
/// as the declaring chain did at the time.
pub proof fn lemma_function_captures_chain(
    machine: Machine,
    name: Seq<char>,
    params: Seq<Seq<char>>,
    body: Seq<Node>,
    other: Seq<char>,
)
    requires
        machine.scopes.len() >= 1,
        machine.memory.len() <= usize::MAX,
        other != name,
    ensures
        ({
            let (declared, outcome) = machine.declare_function(name, params, body);
            outcome is Ok ==> {
                &&& declared.function(name) is Ok
                &&& declared.function(name)->Ok_0.0 == params
                &&& declared.function(name)->Ok_0.1 == body
                &&& declared.function(name)->Ok_0.2.lookup(name) == declared.active().lookup(name)
                &&& declared.function(name)->Ok_0.2.lookup(other) == machine.active().lookup(other)
            }
        }),
{
    let (declared, outcome) = machine.declare_function(name, params, body);
    if outcome is Ok {
        lemma_first_free_is_free(machine, 0);
        let a = machine.first_free(0)->Some_0;
        let binding = Binding { name, address: a as usize, mutable: false };
        let active = declared.active();
        assert(active.symbols == machine.active().symbols.push(binding));
        lemma_first_binding_push(machine.active().symbols, binding, name);
        lemma_first_binding_push(machine.active().symbols, binding, other);
        lemma_first_named(machine.active().symbols, name, 0);
        lemma_flatten_keeps_lookups(active, name);
        lemma_flatten_keeps_lookups(active, other);
    }
}

/// A fresh state is sound.
pub proof fn lemma_fresh_is_sound()
    ensures
        Machine::fresh().sound(),
{
}

/// A binding found along a valid chain points at a cell.
pub proof fn lemma_lookup_is_valid(chain: Frame, name: Seq<char>, limit: nat)
    requires
        chain.valid(limit),
    ensures
        match chain.lookup(name) {
            Some(binding) => binding.address < limit,
            None => true,
        },
    decreases chain,
{
    lemma_first_named(chain.symbols, name, 0);
    match first_named(chain.symbols, name, 0) {
        Some(_) => {},
        None => match chain.parent {
            Some(parent) => {
                lemma_lookup_is_valid(*parent, name, limit);
            },
            None => {},
        },
    }
}

/// Rebinding to a cell keeps a chain valid, and fails only for a name that
/// is undeclared or immutable.
pub proof fn lemma_rebind_is_valid(chain: Frame, name: Seq<char>, address: usize, limit: nat)
    requires
        chain.valid(limit),
        address < limit,
    ensures
        match chain.rebind(name, address) {
            Ok(rebound) => rebound.valid(limit),
            Err(failure) => failure == Failure::UndeclaredVariable(name) || failure
                == Failure::ImmutableAssignment(name),
        },
    decreases chain,
{
    lemma_first_named(chain.symbols, name, 0);
    match first_named(chain.symbols, name, 0) {
        Some(i) => {
            if chain.symbols[i].mutable {
                let rebound = chain.rebind(name, address)->Ok_0;
                assert forall|j: int| 0 <= j < rebound.symbols.len() implies (
                #[trigger] rebound.symbols[j]).address < limit by {
                    if j != i {
                        assert(rebound.symbols[j] == chain.symbols[j]);
                    }
                }
                assert forall|j: int, k: int| 0 <= j < k < rebound.symbols.len() implies (
                #[trigger] rebound.symbols[j]).name != (#[trigger] rebound.symbols[k]).name by {
                    assert(rebound.symbols[j].name == chain.symbols[j].name);
                    assert(rebound.symbols[k].name == chain.symbols[k].name);
                }
            }
        },
        None => match chain.parent {
            Some(parent) => {
                lemma_rebind_is_valid(*parent, name, address, limit);
            },
            None => {},
        },
    }
}

/// The bindings of `outer` that `inner` leaves visible are bindings of
/// `outer`, under names that `inner` does not declare, and as distinct as
/// those of `outer`.
pub proof fn lemma_unshadowed_is_valid(
    outer: Seq<Binding>,
    inner: Seq<Binding>,
    upto: int,
    limit: nat,
)
    requires
        0 <= upto <= outer.len(),
        forall|i: int| 0 <= i < outer.len() ==> (#[trigger] outer[i]).address < limit,
        distinct(outer),
    ensures
        forall|i: int|
            0 <= i < unshadowed(outer, inner, upto).len() ==> {
                &&& (#[trigger] unshadowed(outer, inner, upto)[i]).address < limit
                &&& first_named(inner, unshadowed(outer, inner, upto)[i].name, 0) is None
                &&& exists|k: int|
                    0 <= k < upto && #[trigger] outer[k] == unshadowed(outer, inner, upto)[i]
            },
        distinct(unshadowed(outer, inner, upto)),
    decreases upto,
{
    if upto > 0 {
        lemma_unshadowed_is_valid(outer, inner, upto - 1, limit);
        let before = unshadowed(outer, inner, upto - 1);
        let now = unshadowed(outer, inner, upto);
        let last = outer[upto - 1];
        assert forall|i: int| 0 <= i < now.len() implies {
            &&& (#[trigger] now[i]).address < limit
            &&& first_named(inner, now[i].name, 0) is None
            &&& exists|k: int| 0 <= k < upto && #[trigger] outer[k] == now[i]
        } by {
            if i < before.len() {
                assert(now[i] == before[i]);
                let k = choose|k: int| 0 <= k < upto - 1 && #[trigger] outer[k] == before[i];
                assert(0 <= k < upto && outer[k] == now[i]);
            } else {
                assert(now[i] == last);
                assert(0 <= upto - 1 < upto && outer[upto - 1] == now[i]);
            }
        }
        assert forall|i: int, j: int| 0 <= i < j < now.len() implies (#[trigger] now[i]).name != (
        #[trigger] now[j]).name by {
            if j < before.len() {
                assert(now[i] == before[i]);
                assert(now[j] == before[j]);
            } else {
                assert(now[j] == last);
                assert(now[i] == before[i]);
                let k = choose|k: int| 0 <= k < upto - 1 && #[trigger] outer[k] == before[i];
                assert(outer[k].name != outer[upto - 1].name);
            }
        }
    }
}

/// A valid chain merges into a valid list: every binding of it points at a
/// cell, and no two carry the same name.
pub proof fn lemma_flatten_is_valid(chain: Frame, limit: nat)
    requires
        chain.valid(limit),
    ensures
        (Frame { symbols: chain.flatten(), parent: None }).valid(limit),
    decreases chain,
{
    match chain.parent {
        Some(parent) => {
            let above = parent.flatten();
            lemma_flatten_is_valid(*parent, limit);
            lemma_unshadowed_is_valid(above, chain.symbols, above.len() as int, limit);
            let kept = unshadowed(above, chain.symbols, above.len() as int);
            let merged = chain.flatten();
            assert forall|i: int, j: int| 0 <= i < j < merged.len() implies (
            #[trigger] merged[i]).name != (#[trigger] merged[j]).name by {
                let own = chain.symbols.len() as int;
                if j < own {
                    assert(merged[i] == chain.symbols[i]);
                    assert(merged[j] == chain.symbols[j]);
                } else if i < own {
                    assert(merged[i] == chain.symbols[i]);
                    assert(merged[j] == kept[j - own]);
                    lemma_first_named(chain.symbols, kept[j - own].name, 0);
                } else {
                    assert(merged[i] == kept[i - own]);
                    assert(merged[j] == kept[j - own]);
                }
            }
            assert forall|i: int| 0 <= i < merged.len() implies (#[trigger] merged[i]).address
                < limit by {
                let own = chain.symbols.len() as int;
                if i < own {
                    assert(merged[i] == chain.symbols[i]);
                } else {
                    assert(merged[i] == kept[i - own]);
                }
            }
        },
        None => {},
    }
}

/// Storing a valid value keeps the state sound and gives an address in the
/// arena. In particular a number is never stored twice: the cell that
/// holds it is found and used again.
pub proof fn lemma_store_is_sound(machine: Machine, value: Value)
    requires
        machine.sound(),
        value.valid(machine.memory.len()),
    ensures
        machine.store(value).0.sound(),
        match machine.store(value).1 {
            Ok(a) => a < machine.memory.len(),
            Err(failure) => failure == Failure::OutOfMemory,
        },
{
    lemma_first_interchangeable(machine, value, 0);
    lemma_first_free_is_free(machine, 0);
    let stored = machine.store(value).0;
    if machine.first_interchangeable(value, 0) is None && machine.first_free(0) is Some {
        let a = machine.first_free(0)->Some_0;
        assert forall|c: int| 0 <= c < stored.memory.len() implies (
        #[trigger] stored.memory[c]).valid(stored.memory.len()) by {
            if c != a {
                assert(stored.memory[c] == machine.memory[c]);
            }
        }
        assert forall|c: int, d: int|
            0 <= c < stored.memory.len() && 0 <= d < stored.memory.len() && (
            #[trigger] stored.memory[c]) is Number && stored.memory[c] == (
            #[trigger] stored.memory[d]) implies c == d by {
            if c != a {
                assert(stored.memory[c] == machine.memory[c]);
            }
            if d != a {
                assert(stored.memory[d] == machine.memory[d]);
            }
            if c == a && d != a {
                assert(machine.memory[d].interchangeable(value));
            }
            if d == a && c != a {
                assert(machine.memory[c].interchangeable(value));
            }
        }
    }
}

/// A valid scope with one more name, which it did not declare, bound to a
/// cell, is valid.
pub proof fn lemma_push_is_valid(
    chain: Frame,
    name: Seq<char>,
    address: usize,
    mutable: bool,
    limit: nat,
)
    requires
        chain.valid(limit),
        address < limit,
        !chain.declares(name),
    ensures
        (Frame { symbols: chain.symbols.push(Binding { name, address, mutable }), ..chain }).valid(
            limit,
        ),
{
    lemma_first_named(chain.symbols, name, 0);
    let longer = chain.symbols.push(Binding { name, address, mutable });
    assert forall|i: int, j: int| 0 <= i < j < longer.len() implies (#[trigger] longer[i]).name != (
    #[trigger] longer[j]).name by {
        assert(longer[i] == chain.symbols[i]);
        if j < chain.symbols.len() {
            assert(longer[j] == chain.symbols[j]);
        }
    }
    assert forall|i: int| 0 <= i < longer.len() implies (#[trigger] longer[i]).address < limit by {
        if i < chain.symbols.len() {
            assert(longer[i] == chain.symbols[i]);
        }
    }
}

/// Declaring a name bound to a cell keeps the state sound.
pub proof fn lemma_declare_at_is_sound(
    machine: Machine,
    name: Seq<char>,
    address: usize,
    mutable: bool,
)
    requires
        machine.sound(),
        address < machine.memory.len(),
    ensures
        match machine.declare_at(name, address, mutable) {
            Ok(declared) => declared.sound(),
            Err(_) => true,
        },
{
    match machine.declare_at(name, address, mutable) {
        Ok(declared) => {
            let last = machine.scopes.len() - 1;
            assert(machine.scopes[last].valid(machine.memory.len()));
            lemma_push_is_valid(machine.active(), name, address, mutable, machine.memory.len());
            assert forall|k: int| 0 <= k < declared.scopes.len() implies (
            #[trigger] declared.scopes[k]).valid(declared.memory.len()) by {
                if k != last {
                    assert(declared.scopes[k] == machine.scopes[k]);
                }
            }
        },
        Err(_) => {},
    }
}

/// Binding a name to another cell keeps the state sound.
pub proof fn lemma_rebind_is_sound(machine: Machine, name: Seq<char>, address: usize)
    requires
        machine.sound(),
        address < machine.memory.len(),
    ensures
        match machine.rebind(name, address) {
            Ok(rebound) => rebound.sound(),
            Err(failure) => failure == Failure::UndeclaredVariable(name) || failure
                == Failure::ImmutableAssignment(name),
        },
{
    let last = machine.scopes.len() - 1;
    assert(machine.scopes[last].valid(machine.memory.len()));
    lemma_rebind_is_valid(machine.active(), name, address, machine.memory.len());
    match machine.rebind(name, address) {
        Ok(rebound) => {
            assert forall|k: int| 0 <= k < rebound.scopes.len() implies (
            #[trigger] rebound.scopes[k]).valid(rebound.memory.len()) by {
                if k != last {
                    assert(rebound.scopes[k] == machine.scopes[k]);
                }
            }
        },
        Err(_) => {},
    }
}

/// In a sound state every name that resolves leads to a cell: reading a
/// variable fails only where the name is not bound, and what it gives is
/// valid.
pub proof fn lemma_variable_is_sound(machine: Machine, name: Seq<char>)
    requires
        machine.sound(),
    ensures
        match machine.variable(name) {
            Ok(value) => value.valid(machine.memory.len()),
            Err(failure) => failure == Failure::UndeclaredVariable(name),
        },
        match machine.function(name) {
            Ok((_, _, captured)) => captured.valid(machine.memory.len()),
            Err(failure) => failure == Failure::UndeclaredVariable(name) || failure
                == Failure::NotCallable(name),
        },
{
    let last = machine.scopes.len() - 1;
    assert(machine.scopes[last].valid(machine.memory.len()));
    lemma_lookup_is_valid(machine.active(), name, machine.memory.len());
    match machine.active().lookup(name) {
        Some(binding) => {
            assert(machine.memory[binding.address as int].valid(machine.memory.len()));
        },
        None => {},
    }
}

/// In a sound state two names that stand for the same number are bound to
/// the same cell.
pub proof fn lemma_equal_numbers_share_a_cell(machine: Machine, one: Seq<char>, other: Seq<char>)
    requires
        machine.sound(),
        machine.variable(one) is Ok,
        machine.variable(one)->Ok_0 is Number,
        machine.variable(one) == machine.variable(other),
    ensures
        machine.lookup(one) is Ok,
        machine.lookup(other) is Ok,
        machine.lookup(one)->Ok_0.address == machine.lookup(other)->Ok_0.address,
{
    let last = machine.scopes.len() - 1;
    assert(machine.scopes[last].valid(machine.memory.len()));
    lemma_lookup_is_valid(machine.active(), one, machine.memory.len());
    lemma_lookup_is_valid(machine.active(), other, machine.memory.len());
    let c = machine.lookup(one)->Ok_0.address as int;
    let d = machine.lookup(other)->Ok_0.address as int;
    assert(machine.memory[c] is Number && machine.memory[c] == machine.memory[d]);
}

/// Loading a register keeps the state sound.
pub proof fn lemma_load_register_is_sound(machine: Machine, register: int, value: Value)
    requires
        machine.sound(),
        value.valid(machine.memory.len()),
        0 <= register < machine.registers.len(),
    ensures
        machine.load_register(register, value).0.sound(),
        match machine.load_register(register, value).1 {
            Ok(_) => true,
            Err(failure) => failure == Failure::OutOfMemory,
        },
{
    lemma_store_is_sound(machine, value);
}

/// Opening and closing scopes, and starting and ending the chain of a call,
/// keep the state sound.
pub proof fn lemma_scopes_are_sound(machine: Machine, captured: Frame)
    requires
        machine.sound(),
    ensures
        machine.push_scope().sound(),
        machine.pop_scope().sound(),
        machine.leave().sound(),
        captured.valid(machine.memory.len()) ==> machine.enter(captured).sound(),
{
    let last = machine.scopes.len() - 1;
    let limit = machine.memory.len();
    assert(machine.scopes[last].valid(limit));
    let pushed = machine.push_scope();
    assert forall|k: int| 0 <= k < pushed.scopes.len() implies (#[trigger] pushed.scopes[k]).valid(
        limit,
    ) by {
        if k != last {
            assert(pushed.scopes[k] == machine.scopes[k]);
        }
    }
    let popped = machine.pop_scope();
    assert forall|k: int| 0 <= k < popped.scopes.len() implies (#[trigger] popped.scopes[k]).valid(
        limit,
    ) by {
        if k != last {
            assert(popped.scopes[k] == machine.scopes[k]);
        }
    }
    let left = machine.leave();
    assert forall|k: int| 0 <= k < left.scopes.len() implies (#[trigger] left.scopes[k]).valid(
        limit,
    ) by {
        assert(left.scopes[k] == machine.scopes[k]);
    }
    if captured.valid(limit) {
        let entered = machine.enter(captured);
        assert forall|k: int| 0 <= k < entered.scopes.len() implies (
        #[trigger] entered.scopes[k]).valid(limit) by {
            if k <= last {
                assert(entered.scopes[k] == machine.scopes[k]);
            }
        }
    }
}

/// Declaring a function keeps the state sound.
pub proof fn lemma_declare_function_is_sound(
    machine: Machine,
    name: Seq<char>,
    params: Seq<Seq<char>>,
    body: Seq<Node>,
)
    requires
        machine.sound(),
    ensures
        machine.declare_function(name, params, body).0.sound(),
        match machine.declare_function(name, params, body).1 {
            Ok(_) => true,
            Err(failure) => failure == Failure::OutOfMemory || failure
                == Failure::DuplicateDeclaration(name),
        },
{
    let (declared, outcome) = machine.declare_function(name, params, body);
    if outcome is Ok {
        lemma_first_free_is_free(machine, 0);
        let a = machine.first_free(0)->Some_0;
        let last = machine.scopes.len() - 1;
        let limit = machine.memory.len();
        assert(machine.scopes[last].valid(limit));
        let active = declared.active();
        assert(active.symbols == machine.active().symbols.push(
            Binding { name, address: a as usize, mutable: false },
        ));
        lemma_push_is_valid(machine.active(), name, a as usize, false, limit);
        assert(active.valid(limit));
        lemma_flatten_is_valid(active, limit);
        assert forall|c: int, d: int|
            0 <= c < declared.memory.len() && 0 <= d < declared.memory.len() && (
            #[trigger] declared.memory[c]) is Number && declared.memory[c] == (
            #[trigger] declared.memory[d]) implies c == d by {
            if c != a {
                assert(declared.memory[c] == machine.memory[c]);
            }
            if d != a {
                assert(declared.memory[d] == machine.memory[d]);
            }
        }
        assert forall|k: int| 0 <= k < declared.scopes.len() implies (
        #[trigger] declared.scopes[k]).valid(limit) by {
            if k != last {
                assert(declared.scopes[k] == machine.scopes[k]);
            }
        }
        assert forall|c: int| 0 <= c < declared.memory.len() implies (
        #[trigger] declared.memory[c]).valid(limit) by {
            if c != a {
                assert(declared.memory[c] == machine.memory[c]);
            }
        }
    }
}

} // verus!
