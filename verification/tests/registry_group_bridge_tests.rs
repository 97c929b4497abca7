use serde_json::Value;
use supplier_kit::errors::SupplierError;
use supplier_kit::models::{SupplierOperation, SupplierRequest, SupplierResponse};
use supplier_kit::supplier::{Supplier, SupplierHandle, SupplierRegistry};
use supplier_kit::supplier_group::{BasicSupplierGroup, SupplierGroup};
use supplier_kit::utils::{
    add_supplier_from_registry, add_suppliers_from_registry, register_suppliers,
};

struct Named {
    name: String,
}

impl Named {
    fn new(name: &str) -> Self {
        Named { name: name.to_string() }
    }
}

impl Supplier for Named {
    fn name(&self) -> &str {
        &self.name
    }

    fn query(&self, _request: SupplierRequest) -> Result<SupplierResponse, SupplierError> {
        Ok(SupplierResponse { data: Value::from(self.name.as_str()) })
    }
}

fn search() -> SupplierRequest {
    SupplierRequest { operation: SupplierOperation::Search, params: Value::Null }
}

fn member_names(group: &BasicSupplierGroup) -> Vec<String> {
    let result = group.query(search());
    assert!(result.failures.is_empty());
    result.successes.into_iter().map(|(name, _)| name).collect()
}

#[test]
fn add_suppliers_reports_the_names_that_are_missing() {
    let mut registry = SupplierRegistry::new();
    registry.register("s1", Named::new("s1"));
    registry.register("s3", Named::new("s3"));
    let mut group = BasicSupplierGroup::new("bridge");
    let failures = add_suppliers_from_registry(&mut group, &registry, &["s1", "s2", "s4"]);
    assert_eq!(failures.len(), 2);
    assert_eq!(failures[0].0, "s2");
    assert!(matches!(failures[0].1, SupplierError::NotFound));
    assert_eq!(failures[1].0, "s4");
    assert!(matches!(failures[1].1, SupplierError::NotFound));
    assert_eq!(member_names(&group), vec!["s1"]);
}

#[test]
fn add_suppliers_appends_in_the_order_of_the_names() {
    let mut registry = SupplierRegistry::new();
    for name in ["a", "b", "c"] {
        registry.register(name, Named::new(name));
    }
    let mut group = BasicSupplierGroup::new("bridge");
    group.add_supplier(Named::new("first"));
    let failures =
        add_suppliers_from_registry(&mut group, &registry, &["c", "x", "a", "c", "y", "x", "b"]);
    let missing: Vec<&str> = failures.iter().map(|(name, _)| name.as_str()).collect();
    assert_eq!(missing, vec!["x", "y", "x"]);
    assert!(failures.iter().all(|(_, error)| matches!(error, SupplierError::NotFound)));
    assert_eq!(member_names(&group), vec!["first", "c", "a", "c", "b"]);
}

#[test]
fn add_suppliers_with_no_names_changes_nothing() {
    let mut registry = SupplierRegistry::new();
    registry.register("a", Named::new("a"));
    let mut group = BasicSupplierGroup::new("bridge");
    let failures = add_suppliers_from_registry(&mut group, &registry, &[]);
    assert!(failures.is_empty());
    assert!(member_names(&group).is_empty());
    assert_eq!(group.group_name(), "bridge");
}

#[test]
fn add_supplier_from_registry_adds_or_fails() {
    let mut registry = SupplierRegistry::new();
    registry.register("dummy", Named::new("the dummy"));
    let mut group = BasicSupplierGroup::new("group1");
    assert!(add_supplier_from_registry(&mut group, &registry, "dummy").is_ok());
    assert_eq!(member_names(&group), vec!["the dummy"]);
    let missing = add_supplier_from_registry(&mut group, &registry, "the dummy");
    assert!(matches!(missing, Err(SupplierError::NotFound)));
    assert_eq!(member_names(&group), vec!["the dummy"]);
    assert!(add_supplier_from_registry(&mut group, &registry, "dummy").is_ok());
    assert_eq!(member_names(&group), vec!["the dummy", "the dummy"]);
}

#[test]
fn the_group_keeps_its_members_when_the_registry_changes() {
    let mut registry = SupplierRegistry::new();
    registry.register("s", Named::new("before"));
    let mut group = BasicSupplierGroup::new("kept");
    assert!(add_supplier_from_registry(&mut group, &registry, "s").is_ok());
    registry.register("s", Named::new("after"));
    assert_eq!(member_names(&group), vec!["before"]);
    assert!(add_supplier_from_registry(&mut group, &registry, "s").is_ok());
    assert_eq!(member_names(&group), vec!["before", "after"]);
}

#[test]
fn register_suppliers_registers_each_entry() {
    let mut registry = SupplierRegistry::new();
    registry.register("kept", Named::new("kept"));
    registry.register("s2", Named::new("replaced"));
    register_suppliers(
        &mut registry,
        &[
            ("s1", SupplierHandle::new(Named::new("one"))),
            ("s2", SupplierHandle::new(Named::new("two"))),
            ("s3", SupplierHandle::new(Named::new("three"))),
            ("s1", SupplierHandle::new(Named::new("one again"))),
        ],
    );
    let mut names = registry.all_names();
    names.sort();
    assert_eq!(names, vec!["kept", "s1", "s2", "s3"]);
    assert_eq!(registry.get("s1").expect("registered").name(), "one again");
    assert_eq!(registry.get("s2").expect("registered").name(), "two");
    assert_eq!(registry.get("s3").expect("registered").name(), "three");
    assert_eq!(registry.get("kept").expect("registered").name(), "kept");
    register_suppliers(&mut registry, &[]);
    assert_eq!(registry.all_names().len(), 4);
}
