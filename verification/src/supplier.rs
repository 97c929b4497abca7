//! Suppliers, shared handles to them, and the registry that keeps handles by
//! name.

use vstd::prelude::*;
use std::sync::Arc;
use crate::errors::SupplierError;
use crate::models::{SupplierRequest, SupplierResponse};

verus! {

/// A source of data or services that answers requests under a name.
///
/// Any type may implement it; registries and groups see a supplier through
/// this trait only. An implementation says what its names and its answers
/// may be by giving `goes_by` and `answers` a body of its own; one that does
/// not leaves both open.
pub trait Supplier {
    /// Whether `name` is a name that the supplier may give itself. A supplier
    /// is meant to have one name, not empty and the same at every call;
    /// unless an implementation says which, any text may be it.
    open spec fn goes_by(&self, name: Seq<char>) -> bool {
        true
    }

    /// Whether `outcome` is an answer that the supplier may give to
    /// `request`. Unless an implementation says otherwise, any outcome is.
    open spec fn answers(
        &self,
        request: SupplierRequest,
        outcome: Result<SupplierResponse, SupplierError>,
    ) -> bool {
        true
    }

    /// The supplier's display name.
    fn name(&self) -> (name: &str)
        ensures
            self.goes_by(name@),
    ;

    /// Carries out the request and returns the response, or the error that
    /// kept the supplier from giving one. What a supplier does to answer is
    /// its own business.
    fn query(&self, request: SupplierRequest) -> (outcome: Result<SupplierResponse, SupplierError>)
        ensures
            self.answers(request, outcome),
    ;
}

/// A shared, reference-counted handle to a supplier. Copies of a handle
/// refer to the same supplier.
pub struct SupplierHandle {
    inner: Arc<dyn Supplier>,
}

/// `Arc::new`, and the coercion of the new pointer to a trait object: the
/// supplier moves behind a reference-counted pointer, and what is asked of
/// the handle is asked of that supplier. So the handle may go by the names
/// that the supplier may go by, and may give the answers that the supplier
/// may give.
#[verifier::external_body]
fn share<S: Supplier + 'static>(supplier: S) -> (handle: SupplierHandle)
    ensures
        forall|name: Seq<char>|
            #![trigger handle.goes_by(name)]
            #![trigger supplier.goes_by(name)]
            handle.goes_by(name) == supplier.goes_by(name),
        forall|request: SupplierRequest, outcome: Result<SupplierResponse, SupplierError>|
            #![trigger handle.answers(request, outcome)]
            #![trigger supplier.answers(request, outcome)]
            handle.answers(request, outcome) == supplier.answers(request, outcome),
{
    let inner: Arc<dyn Supplier> = Arc::new(supplier);
    SupplierHandle { inner }
}

/// `Arc::clone`: a second pointer to the supplier behind `supplier`, kept in
/// a handle. The new pointer leads to the same supplier, so it equals the
/// one given.
#[verifier::external_body]
fn adopt(supplier: &Arc<dyn Supplier>) -> (handle: SupplierHandle)
    ensures
        handle.inner == *supplier,
{
    SupplierHandle { inner: Arc::clone(supplier) }
}

impl SupplierHandle {
    /// Whether `name` is a name that the supplier behind the handle may give
    /// itself.
    pub closed spec fn goes_by(&self, name: Seq<char>) -> bool {
        self.inner.goes_by(name)
    }

    /// Whether `outcome` is an answer that the supplier behind the handle may
    /// give to `request`.
    pub closed spec fn answers(
        &self,
        request: SupplierRequest,
        outcome: Result<SupplierResponse, SupplierError>,
    ) -> bool {
        self.inner.answers(request, outcome)
    }

    /// The handle stands for `supplier`: it may go by the names that the
    /// supplier may go by, and may give the answers that the supplier may
    /// give, and no others.
    pub open spec fn stands_for<S: Supplier>(&self, supplier: S) -> bool {
        &&& forall|name: Seq<char>|
            #![trigger self.goes_by(name)]
            #![trigger supplier.goes_by(name)]
            self.goes_by(name) == supplier.goes_by(name)
        &&& forall|request: SupplierRequest, outcome: Result<SupplierResponse, SupplierError>|
            #![trigger self.answers(request, outcome)]
            #![trigger supplier.answers(request, outcome)]
            self.answers(request, outcome) == supplier.answers(request, outcome)
    }

    /// Whether the handle holds the shared pointer `supplier`.
    pub closed spec fn holds(&self, supplier: &Arc<dyn Supplier>) -> bool {
        self.inner == *supplier
    }

    /// A handle to a supplier that is already behind a shared pointer. The
    /// handle shares the supplier with every other copy of that pointer, and
    /// stands for it.
    pub fn from_arc(supplier: &Arc<dyn Supplier>) -> (handle: SupplierHandle)
        ensures
            handle.holds(supplier),
            forall|name: Seq<char>|
                #![trigger handle.goes_by(name)]
                #![trigger supplier.goes_by(name)]
                handle.goes_by(name) == supplier.goes_by(name),
            forall|request: SupplierRequest, outcome: Result<SupplierResponse, SupplierError>|
                #![trigger handle.answers(request, outcome)]
                #![trigger supplier.answers(request, outcome)]
                handle.answers(request, outcome) == supplier.answers(request, outcome),
    {
        adopt(supplier)
    }

    /// Puts a supplier behind a handle. The handle is the only way to the
    /// supplier from then on, and it stands for the supplier.
    pub fn new<S: Supplier + 'static>(supplier: S) -> (handle: SupplierHandle)
        ensures
            handle.stands_for(supplier),
    {
        share(supplier)
    }

    /// Asks the supplier behind the handle for its name.
    pub fn name(&self) -> (name: &str)
        ensures
            self.goes_by(name@),
    {
        self.inner.name()
    }

    /// Hands the request to the supplier behind the handle and returns its
    /// answer as it is.
    pub fn query(&self, request: SupplierRequest) -> (outcome: Result<
        SupplierResponse,
        SupplierError,
    >)
        ensures
            self.answers(request, outcome),
    {
        self.inner.query(request)
    }
}

/// Two handles that hold the same shared pointer are the same handle.
pub proof fn lemma_same_pointer_same_handle(
    first: SupplierHandle,
    second: SupplierHandle,
    supplier: &Arc<dyn Supplier>,
)
    requires
        first.holds(supplier),
        second.holds(supplier),
    ensures
        first == second,
{
}

impl Clone for SupplierHandle {
    /// Another handle to the same supplier.
    fn clone(&self) -> (copy: Self)
        ensures
            copy == *self,
    {
        adopt(&self.inner)
    }
}

/// A table of suppliers by name. A name stands for at most one supplier:
/// registering under a name that is taken replaces the earlier entry.
pub struct SupplierRegistry {
    entries: Vec<(String, SupplierHandle)>,
}

/// Whether entry `i` is the entry of `name`.
spec fn found_at(entries: Seq<(String, SupplierHandle)>, name: Seq<char>, i: int) -> bool {
    0 <= i < entries.len() && entries[i].0@ == name
}

/// No name occurs twice among the entries.
spec fn distinct_names(entries: Seq<(String, SupplierHandle)>) -> bool {
    forall|i: int, j: int|
        0 <= i < j < entries.len() ==> (#[trigger] entries[i]).0@ != (#[trigger] entries[j]).0@
}

/// The entries as a map from names to handles.
spec fn table(entries: Seq<(String, SupplierHandle)>) -> Map<Seq<char>, SupplierHandle> {
    Map::new(
        |name: Seq<char>| exists|i: int| found_at(entries, name, i),
        |name: Seq<char>| entries[choose|i: int| found_at(entries, name, i)].1,
    )
}

/// The entry of a name is where the table says it is.
proof fn lemma_table_lookup(entries: Seq<(String, SupplierHandle)>, name: Seq<char>, i: int)
    requires
        distinct_names(entries),
        found_at(entries, name, i),
    ensures
        table(entries).contains_key(name),
        table(entries)[name] == entries[i].1,
{
}

/// Appending an entry under a new name inserts it into the table.
proof fn lemma_table_push(entries: Seq<(String, SupplierHandle)>, entry: (String, SupplierHandle))
    requires
        distinct_names(entries),
        forall|i: int| !found_at(entries, entry.0@, i),
    ensures
        distinct_names(entries.push(entry)),
        table(entries.push(entry)) == table(entries).insert(entry.0@, entry.1),
{
    let grown = entries.push(entry);
    assert forall|i: int, j: int| 0 <= i < j < grown.len() implies (#[trigger] grown[i]).0@ != (
    #[trigger] grown[j]).0@ by {
        if j == entries.len() {
            assert(!found_at(entries, entry.0@, i));
        }
    }
    assert forall|name: Seq<char>| #[trigger]
        table(grown).contains_key(name) == table(entries).insert(entry.0@, entry.1).contains_key(
            name,
        ) by {
        if table(grown).contains_key(name) {
            let i = choose|i: int| found_at(grown, name, i);
            if i < entries.len() {
                assert(found_at(entries, name, i));
            }
        }
        if table(entries).contains_key(name) {
            let i = choose|i: int| found_at(entries, name, i);
            assert(found_at(grown, name, i));
        }
        if name == entry.0@ {
            assert(found_at(grown, name, entries.len() as int));
        }
    }
    assert forall|name: Seq<char>| #[trigger] table(grown).contains_key(name) implies table(
        grown,
    )[name] == table(entries).insert(entry.0@, entry.1)[name] by {
        let i = choose|i: int| found_at(grown, name, i);
        lemma_table_lookup(grown, name, i);
        if i < entries.len() {
            lemma_table_lookup(entries, name, i);
        }
    }
}

/// Overwriting the entry of a name inserts the new entry into the table.
proof fn lemma_table_update(
    entries: Seq<(String, SupplierHandle)>,
    at: int,
    entry: (String, SupplierHandle),
)
    requires
        distinct_names(entries),
        found_at(entries, entry.0@, at),
    ensures
        distinct_names(entries.update(at, entry)),
        table(entries.update(at, entry)) == table(entries).insert(entry.0@, entry.1),
{
    let changed = entries.update(at, entry);
    assert forall|i: int, j: int| 0 <= i < j < changed.len() implies (#[trigger] changed[i]).0@ != (
    #[trigger] changed[j]).0@ by {
        assert(entries[i].0@ != entries[j].0@);
    }
    assert forall|name: Seq<char>| #[trigger]
        table(changed).contains_key(name) == table(entries).insert(entry.0@, entry.1).contains_key(
            name,
        ) by {
        if table(changed).contains_key(name) {
            let i = choose|i: int| found_at(changed, name, i);
            assert(found_at(entries, name, i));
        }
        if table(entries).contains_key(name) {
            let i = choose|i: int| found_at(entries, name, i);
            assert(found_at(changed, name, i));
        }
    }
    assert forall|name: Seq<char>| #[trigger] table(changed).contains_key(name) implies table(
        changed,
    )[name] == table(entries).insert(entry.0@, entry.1)[name] by {
        let i = choose|i: int| found_at(changed, name, i);
        lemma_table_lookup(changed, name, i);
        lemma_table_lookup(entries, name, i);
    }
}

/// The texts of a list of names.
pub open spec fn name_views(names: Seq<String>) -> Seq<Seq<char>> {
    names.map_values(|name: String| name@)
}

/// A second registration under a name replaces the first: the name keeps one
/// entry, which is the second handle, and no other entry changes.
pub proof fn lemma_register_replaces(
    registry: Map<Seq<char>, SupplierHandle>,
    name: Seq<char>,
    first: SupplierHandle,
    second: SupplierHandle,
)
    ensures
        registry.insert(name, first).insert(name, second) == registry.insert(name, second),
        registry.insert(name, first).insert(name, second)[name] == second,
        registry.insert(name, first).insert(name, second).dom() == registry.insert(
            name,
            first,
        ).dom(),
{
    assert(registry.insert(name, first).insert(name, second).dom() =~= registry.insert(
        name,
        first,
    ).dom());
}

impl View for SupplierRegistry {
    type V = Map<Seq<char>, SupplierHandle>;

    /// The registry as a map from names to handles.
    closed spec fn view(&self) -> Map<Seq<char>, SupplierHandle> {
        table(self.entries@)
    }
}

impl Default for SupplierRegistry {
    /// An empty registry.
    fn default() -> (registry: Self)
        ensures
            registry.wf(),
            registry@ == Map::<Seq<char>, SupplierHandle>::empty(),
    {
        SupplierRegistry::new()
    }
}

impl SupplierRegistry {
    /// The registry is well formed: no name occurs twice among its entries.
    /// `new` makes a well-formed registry and every method keeps it so.
    pub closed spec fn wf(&self) -> bool {
        distinct_names(self.entries@)
    }

    /// An empty registry.
    pub fn new() -> (registry: Self)
        ensures
            registry.wf(),
            registry@ == Map::<Seq<char>, SupplierHandle>::empty(),
    {
        SupplierRegistry { entries: Vec::new() }
    }

    /// Where the entry of `name` stands.
    fn position(&self, name: &String) -> (place: Option<usize>)
        ensures
            match place {
                Some(i) => found_at(self.entries@, name@, i as int),
                None => forall|i: int| !found_at(self.entries@, name@, i),
            },
    {
        let mut i: usize = 0;
        while i < self.entries.len()
            invariant
                i <= self.entries.len(),
                forall|k: int| 0 <= k < i ==> !found_at(self.entries@, name@, k),
            decreases self.entries.len() - i,
        {
            if self.entries[i].0 == *name {
                return Some(i);
            }
            i = i + 1;
        }
        None
    }

    /// Puts `handle` under `name`. An earlier entry under that name is
    /// replaced; every other entry stays.
    pub fn register_handle(&mut self, name: &str, handle: SupplierHandle)
        requires
            old(self).wf(),
        ensures
            final(self).wf(),
            final(self)@ == old(self)@.insert(name@, handle),
    {
        let key = name.to_owned();
        match self.position(&key) {
            Some(i) => {
                proof {
                    lemma_table_update(self.entries@, i as int, (key, handle));
                }
                self.entries.set(i, (key, handle));
            },
            None => {
                proof {
                    lemma_table_push(self.entries@, (key, handle));
                }
                self.entries.push((key, handle));
            },
        }
    }

    /// Puts `supplier` under `name`, behind a new handle that stands for it.
    /// An earlier entry under that name is replaced; every other entry stays.
    pub fn register<S: Supplier + 'static>(&mut self, name: &str, supplier: S)
        requires
            old(self).wf(),
        ensures
            final(self).wf(),
            exists|handle: SupplierHandle|
                handle.stands_for(supplier) && final(self)@ == old(self)@.insert(name@, handle),
    {
        let handle = SupplierHandle::new(supplier);
        self.register_handle(name, handle);
    }

    /// A handle to the supplier registered under `name`, if there is one.
    /// The handle shares the supplier with the registry.
    pub fn get(&self, name: &str) -> (found: Option<SupplierHandle>)
        requires
            self.wf(),
        ensures
            found == if self@.contains_key(name@) {
                Some(self@[name@])
            } else {
                None
            },
    {
        let key = name.to_owned();
        match self.position(&key) {
            Some(i) => {
                proof {
                    lemma_table_lookup(self.entries@, name@, i as int);
                }
                Some(self.entries[i].1.clone())
            },
            None => None,
        }
    }

    /// The names that are registered, each once. Their order is not part of
    /// the contract.
    pub fn all_names(&self) -> (names: Vec<String>)
        requires
            self.wf(),
        ensures
            name_views(names@).no_duplicates(),
            name_views(names@).to_set() == self@.dom(),
            names@.len() == self@.dom().len(),
    {
        let mut names: Vec<String> = Vec::new();
        let mut i: usize = 0;
        while i < self.entries.len()
            invariant
                i <= self.entries.len(),
                names@.len() == i,
                forall|k: int| 0 <= k < i ==> (#[trigger] names@[k])@ == self.entries@[k].0@,
            decreases self.entries.len() - i,
        {
            names.push(self.entries[i].0.clone());
            i = i + 1;
        }
        proof {
            let views = name_views(names@);
            assert forall|a: int, b: int| 0 <= a < views.len() && 0 <= b < views.len() && a
                != b implies views[a] != views[b] by {
                if a < b {
                    assert(self.entries@[a].0@ != self.entries@[b].0@);
                } else {
                    assert(self.entries@[b].0@ != self.entries@[a].0@);
                }
            }
            assert forall|name: Seq<char>| views.to_set().contains(name) == self@.dom().contains(
                name,
            ) by {
                if views.to_set().contains(name) {
                    let k = choose|k: int| 0 <= k < views.len() && views[k] == name;
                    assert(found_at(self.entries@, name, k));
                }
                if self@.dom().contains(name) {
                    let k = choose|k: int| found_at(self.entries@, name, k);
                    assert(views[k] == name);
                }
            }
            views.unique_seq_to_set();
        }
        names
    }
}

} // verus!
