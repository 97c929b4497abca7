//! Helpers that fill a registry and that fill a group from a registry.

use vstd::prelude::*;
use crate::errors::SupplierError;
use crate::supplier::{SupplierHandle, SupplierRegistry};
use crate::supplier_group::BasicSupplierGroup;

verus! {

/// The texts of a list of names.
pub open spec fn name_texts(names: Seq<&str>) -> Seq<Seq<char>> {
    names.map_values(|name: &str| name@)
}

/// The handle that a registry holds under a name, if it holds one.
pub open spec fn lookup(registry: Map<Seq<char>, SupplierHandle>, name: Seq<char>) -> Option<
    SupplierHandle,
> {
    if registry.contains_key(name) {
        Some(registry[name])
    } else {
        None
    }
}

/// The handles of the names that are registered, in the order of the names.
pub open spec fn found_in(registry: Map<Seq<char>, SupplierHandle>, names: Seq<Seq<char>>) -> Seq<
    SupplierHandle,
> {
    names.filter_map(|name: Seq<char>| lookup(registry, name))
}

/// The names that are not registered, in the order of the names.
pub open spec fn missing_from(
    registry: Map<Seq<char>, SupplierHandle>,
    names: Seq<Seq<char>>,
) -> Seq<Seq<char>> {
    names.filter(|name: Seq<char>| !registry.contains_key(name))
}

/// The registry after the entries were registered one after the other.
pub open spec fn registered(
    registry: Map<Seq<char>, SupplierHandle>,
    entries: Seq<(&str, SupplierHandle)>,
) -> Map<Seq<char>, SupplierHandle> {
    entries.fold_left(
        registry,
        |table: Map<Seq<char>, SupplierHandle>, entry: (&str, SupplierHandle)|
            table.insert(entry.0@, entry.1),
    )
}

/// Registers each entry under its name, in the order of the entries: where a
/// name occurs twice, the later entry stays.
pub fn register_suppliers(registry: &mut SupplierRegistry, entries: &[(&str, SupplierHandle)])
    requires
        old(registry).wf(),
    ensures
        final(registry).wf(),
        final(registry)@ == registered(old(registry)@, entries@),
{
    let mut i: usize = 0;
    while i < entries.len()
        invariant
            i <= entries.len(),
            registry.wf(),
            registry@ == registered(old(registry)@, entries@.take(i as int)),
        decreases entries.len() - i,
    {
        proof {
            assert(entries@.take(i + 1).drop_last() =~= entries@.take(i as int));
        }
        registry.register_handle(entries[i].0, entries[i].1.clone());
        i = i + 1;
    }
}

/// Appends to the group the supplier that is registered under `name`. A name
/// that is not registered is an error, and leaves the group as it was.
pub fn add_supplier_from_registry(
    group: &mut BasicSupplierGroup,
    registry: &SupplierRegistry,
    name: &str,
) -> (added: Result<(), SupplierError>)
    requires
        registry.wf(),
    ensures
        final(group).spec_group_name() == old(group).spec_group_name(),
        match added {
            Ok(_) => {
                &&& registry@.contains_key(name@)
                &&& final(group).members() == old(group).members().push(registry@[name@])
            },
            Err(error) => {
                &&& error is NotFound
                &&& !registry@.contains_key(name@)
                &&& final(group).members() == old(group).members()
            },
        },
{
    match registry.get(name) {
        Some(supplier) => {
            group.add_supplier_arc(supplier);
            Ok(())
        },
        None => Err(SupplierError::NotFound),
    }
}

/// Appends to the group the suppliers that are registered under the names,
/// in the order of the names, and returns the names that are not registered,
/// in that order too, each with the error `NotFound`.
pub fn add_suppliers_from_registry(
    group: &mut BasicSupplierGroup,
    registry: &SupplierRegistry,
    names: &[&str],
) -> (failures: Vec<(String, SupplierError)>)
    requires
        registry.wf(),
    ensures
        final(group).spec_group_name() == old(group).spec_group_name(),
        final(group).members() == old(group).members() + found_in(
            registry@,
            name_texts(names@),
        ),
        failures@.len() == missing_from(registry@, name_texts(names@)).len(),
        forall|k: int|
            0 <= k < failures@.len() ==> (#[trigger] failures@[k]).0@ == missing_from(
                registry@,
                name_texts(names@),
            )[k] && failures@[k].1 is NotFound,
{
    let mut failures: Vec<(String, SupplierError)> = Vec::new();
    let mut i: usize = 0;
    proof {
        assert(group.members() =~= old(group).members() + found_in(
            registry@,
            name_texts(names@).take(0),
        ));
    }
    while i < names.len()
        invariant
            i <= names.len(),
            registry.wf(),
            group.spec_group_name() == old(group).spec_group_name(),
            group.members() == old(group).members() + found_in(
                registry@,
                name_texts(names@).take(i as int),
            ),
            failures@.len() == missing_from(registry@, name_texts(names@).take(i as int)).len(),
            forall|k: int|
                0 <= k < failures@.len() ==> (#[trigger] failures@[k]).0@ == missing_from(
                    registry@,
                    name_texts(names@).take(i as int),
                )[k] && failures@[k].1 is NotFound,
        decreases names.len() - i,
    {
        let name = names[i];
        proof {
            let texts = name_texts(names@);
            let seen = texts.take(i as int);
            assert(texts.take(i + 1) =~= seen.push(name@));
            assert(seen.push(name@).drop_last() =~= seen);
            seen.lemma_filter_push(name@, |name: Seq<char>| !registry@.contains_key(name));
        }
        match registry.get(name) {
            Some(supplier) => {
                group.add_supplier_arc(supplier);
            },
            None => {
                failures.push((name.to_owned(), SupplierError::NotFound));
            },
        }
        proof {
            let texts = name_texts(names@);
            assert(group.members() =~= old(group).members() + found_in(
                registry@,
                texts.take(i + 1),
            ));
        }
        i = i + 1;
    }
    proof {
        assert(name_texts(names@).take(i as int) =~= name_texts(names@));
    }
    failures
}

} // verus!
