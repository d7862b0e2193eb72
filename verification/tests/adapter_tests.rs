use gini_core::adapter::{AdapterRegistrationError, AdapterRegistry};
use std::any::{Any, TypeId};

// An adapter as the plugins hand it over: named, and reachable as `Any`.
trait Adapter: Any {
    fn name(&self) -> &str;
    fn as_any(&self) -> &dyn Any;
    fn as_any_mut(&mut self) -> &mut dyn Any;
}

trait MockAdapterTrait {
    fn greet(&self) -> String;
    fn set_greeting(&mut self, new_greeting: &str);
}

#[derive(Clone)]
struct MockAdapterImpl {
    name: String,
    greeting: String,
}

impl MockAdapterImpl {
    fn new(name: &str, greeting: &str) -> Self {
        Self { name: name.to_string(), greeting: greeting.to_string() }
    }
}

impl MockAdapterTrait for MockAdapterImpl {
    fn greet(&self) -> String {
        format!("{} says: {}", self.name, self.greeting)
    }
    fn set_greeting(&mut self, new_greeting: &str) {
        self.greeting = new_greeting.to_string();
    }
}

trait AnotherMockTrait {
    fn value(&self) -> i32;
}

#[derive(Clone)]
struct AnotherMockImpl {
    value: i32,
}

impl AnotherMockTrait for AnotherMockImpl {
    fn value(&self) -> i32 {
        self.value
    }
}

struct MockAdapterImplAdapter<T> {
    name: String,
    implementation: T,
}

impl<T: 'static> MockAdapterImplAdapter<T> {
    fn new(name: &str, implementation: T) -> Self {
        Self { name: name.to_string(), implementation }
    }
    fn implementation(&self) -> &T {
        &self.implementation
    }
    fn implementation_mut(&mut self) -> &mut T {
        &mut self.implementation
    }
}

impl<T: 'static> Adapter for MockAdapterImplAdapter<T> {
    fn name(&self) -> &str {
        &self.name
    }
    fn as_any(&self) -> &dyn Any {
        self
    }
    fn as_any_mut(&mut self) -> &mut dyn Any {
        self
    }
}

struct AnotherMockImplAdapter<T> {
    name: String,
    implementation: T,
}

impl<T: 'static> AnotherMockImplAdapter<T> {
    fn new(name: &str, implementation: T) -> Self {
        Self { name: name.to_string(), implementation }
    }
}

impl<T: 'static> Adapter for AnotherMockImplAdapter<T> {
    fn name(&self) -> &str {
        &self.name
    }
    fn as_any(&self) -> &dyn Any {
        self
    }
    fn as_any_mut(&mut self) -> &mut dyn Any {
        self
    }
}

type Registry = AdapterRegistry<Box<dyn Adapter>>;
type MockWrapper = MockAdapterImplAdapter<MockAdapterImpl>;
type AnotherWrapper = AnotherMockImplAdapter<AnotherMockImpl>;

fn register<A: Adapter>(registry: &mut Registry, adapter: A) -> Result<(), AdapterRegistrationError> {
    let name = adapter.name().to_string();
    registry.register(TypeId::of::<A>(), &name, Box::new(adapter))
}

fn names(registry: &Registry) -> Vec<String> {
    registry.names().into_iter().map(|s| s.to_string()).collect()
}

#[test]
fn test_adapter_registry_new_default() {
    let registry_new: Registry = AdapterRegistry::new();
    let registry_default: Registry = AdapterRegistry::default();

    assert_eq!(registry_new.count(), 0);
    assert!(registry_new.names().is_empty());
    assert_eq!(registry_default.count(), 0);
    assert!(registry_default.names().is_empty());
}

#[test]
fn test_adapter_registry_register_success() {
    let mut registry: Registry = AdapterRegistry::new();
    let implementation = MockAdapterImpl::new("Adapter1Impl", "Hello");
    let adapter_wrapper = MockAdapterImplAdapter::new("Adapter1", implementation);
    let adapter_name = adapter_wrapper.name().to_string();

    let result = register(&mut registry, adapter_wrapper);
    assert!(result.is_ok());
    assert_eq!(registry.count(), 1);
    assert!(registry.has::<MockWrapper>());
    assert!(registry.has_name(&adapter_name));
    assert_eq!(names(&registry), vec![adapter_name]);
}

#[test]
fn test_adapter_registry_register_duplicate() {
    let mut registry: Registry = AdapterRegistry::new();
    let adapter1 = MockAdapterImplAdapter::new("Adapter1", MockAdapterImpl::new("Impl1", "Hello"));
    let adapter2 = MockAdapterImplAdapter::new("Adapter1", MockAdapterImpl::new("Impl2", "Hi"));
    let adapter3 = MockAdapterImplAdapter::new("Adapter3", MockAdapterImpl::new("Impl3", "Yo"));
    let another_impl = AnotherMockImpl { value: 100 };
    let adapter4 = AnotherMockImplAdapter::new("Adapter4", another_impl.clone());

    assert!(register(&mut registry, adapter1).is_ok());
    assert_eq!(registry.count(), 1);

    let result_dup_name = register(&mut registry, adapter2);
    assert!(result_dup_name.is_err());
    assert!(result_dup_name.unwrap_err().to_string().contains("Adapter already registered for type ID"));
    assert_eq!(registry.count(), 1);

    let result_dup_type = register(&mut registry, adapter3);
    assert!(result_dup_type.is_err());
    assert!(result_dup_type.unwrap_err().to_string().contains("Adapter already registered for type ID"));
    assert_eq!(registry.count(), 1);

    assert!(register(&mut registry, adapter4).is_ok());
    assert_eq!(registry.count(), 2);

    let adapter5 = AnotherMockImplAdapter::new("Adapter4", AnotherMockImpl { value: 200 });
    let result_dup_name_diff_type = register(&mut registry, adapter5);
    assert!(result_dup_name_diff_type.is_err());
    assert!(result_dup_name_diff_type.unwrap_err().to_string().contains("Adapter already registered for type ID"));
    assert_eq!(registry.count(), 2);
}

#[test]
fn test_adapter_registry_get_by_type() {
    let mut registry: Registry = AdapterRegistry::new();
    let implementation = MockAdapterImpl::new("GetterImpl", "Get me");
    let adapter_wrapper = MockAdapterImplAdapter::new("Getter", implementation);
    register(&mut registry, adapter_wrapper).unwrap();

    let retrieved_wrapper = registry.get::<MockWrapper>().and_then(|a| a.as_any().downcast_ref::<MockWrapper>());
    assert!(retrieved_wrapper.is_some());
    assert_eq!(retrieved_wrapper.unwrap().implementation().greet(), "GetterImpl says: Get me");

    let retrieved_mut_wrapper =
        registry.get_mut::<MockWrapper>().and_then(|a| a.as_any_mut().downcast_mut::<MockWrapper>());
    assert!(retrieved_mut_wrapper.is_some());
    retrieved_mut_wrapper.unwrap().implementation_mut().set_greeting("Gotten!");

    let retrieved_after_mut_wrapper =
        registry.get::<MockWrapper>().and_then(|a| a.as_any().downcast_ref::<MockWrapper>());
    assert_eq!(retrieved_after_mut_wrapper.unwrap().implementation().greet(), "GetterImpl says: Gotten!");

    let non_existent = registry.get::<AnotherWrapper>();
    assert!(non_existent.is_none());
}

#[test]
fn test_adapter_registry_get_by_name() {
    let mut registry: Registry = AdapterRegistry::new();
    let implementation = MockAdapterImpl::new("NameGetterImpl", "By name");
    let adapter_wrapper = MockAdapterImplAdapter::new("NameGetter", implementation);
    let adapter_name = adapter_wrapper.name().to_string();
    register(&mut registry, adapter_wrapper).unwrap();

    let retrieved = registry.get_by_name(&adapter_name).and_then(|a| a.as_any().downcast_ref::<MockWrapper>());
    assert!(retrieved.is_some());
    assert_eq!(retrieved.unwrap().implementation().greet(), "NameGetterImpl says: By name");

    let retrieved_mut =
        registry.get_by_name_mut(&adapter_name).and_then(|a| a.as_any_mut().downcast_mut::<MockWrapper>());
    assert!(retrieved_mut.is_some());
    retrieved_mut.unwrap().implementation_mut().set_greeting("Mutated by name!");

    let retrieved_after_mut =
        registry.get_by_name(&adapter_name).and_then(|a| a.as_any().downcast_ref::<MockWrapper>());
    assert_eq!(retrieved_after_mut.unwrap().implementation().greet(), "NameGetterImpl says: Mutated by name!");

    let non_existent =
        registry.get_by_name("non_existent_name").and_then(|a| a.as_any().downcast_ref::<MockWrapper>());
    assert!(non_existent.is_none());

    let wrong_type = registry.get_by_name(&adapter_name).and_then(|a| a.as_any().downcast_ref::<AnotherWrapper>());
    assert!(wrong_type.is_none());
}

#[test]
fn test_adapter_registry_has() {
    let mut registry: Registry = AdapterRegistry::new();
    let implementation = MockAdapterImpl::new("CheckerImpl", "Check me");
    let adapter_wrapper = MockAdapterImplAdapter::new("Checker", implementation);
    let adapter_name = adapter_wrapper.name().to_string();

    assert!(!registry.has::<MockWrapper>());
    assert!(!registry.has_name(&adapter_name));

    register(&mut registry, adapter_wrapper).unwrap();

    assert!(registry.has::<MockWrapper>());
    assert!(registry.has_name(&adapter_name));
    assert!(!registry.has::<AnotherWrapper>());
    assert!(!registry.has_name("wrong_name"));
}

#[test]
fn test_adapter_registry_remove() {
    let mut registry: Registry = AdapterRegistry::new();
    let adapter1 = MockAdapterImplAdapter::new("Remover1", MockAdapterImpl::new("Remover1Impl", "R1"));
    let adapter2 = AnotherMockImplAdapter::new("Remover2", AnotherMockImpl { value: 1 });

    let adapter1_name = adapter1.name().to_string();
    let adapter2_name = adapter2.name().to_string();

    register(&mut registry, adapter1).unwrap();
    register(&mut registry, adapter2).unwrap();
    assert_eq!(registry.count(), 2);

    let removed1 = registry.remove::<MockWrapper>();
    assert!(removed1.is_some());
    assert_eq!(registry.count(), 1);
    assert!(!registry.has::<MockWrapper>());
    assert!(!registry.has_name(&adapter1_name));
    assert!(registry.has::<AnotherWrapper>());
    assert!(registry.has_name(&adapter2_name));

    let removed_non_existent = registry.remove::<MockWrapper>();
    assert!(removed_non_existent.is_none());
    assert_eq!(registry.count(), 1);

    let removed2 = registry.remove_by_name(&adapter2_name);
    assert!(removed2.is_some());
    assert_eq!(registry.count(), 0);
    assert!(!registry.has::<AnotherWrapper>());
    assert!(!registry.has_name(&adapter2_name));
    assert!(registry.names().is_empty());

    let removed_non_existent_name = registry.remove_by_name(&adapter2_name);
    assert!(removed_non_existent_name.is_none());
    assert_eq!(registry.count(), 0);
}

#[test]
fn test_adapter_registry_count() {
    let mut registry: Registry = AdapterRegistry::new();
    assert_eq!(registry.count(), 0);

    register(&mut registry, MockAdapterImplAdapter::new("c1", MockAdapterImpl::new("c1_impl", "C1"))).unwrap();
    assert_eq!(registry.count(), 1);

    register(&mut registry, AnotherMockImplAdapter::new("c2", AnotherMockImpl { value: 2 })).unwrap();
    assert_eq!(registry.count(), 2);

    registry.remove::<MockWrapper>();
    assert_eq!(registry.count(), 1);

    registry.remove_by_name("c2");
    assert_eq!(registry.count(), 0);
}

#[test]
fn test_adapter_registry_names() {
    let mut registry: Registry = AdapterRegistry::new();
    assert!(registry.names().is_empty());

    let adapter1 = MockAdapterImplAdapter::new("Name1", MockAdapterImpl::new("Name1Impl", "N1"));
    let adapter2 = AnotherMockImplAdapter::new("Name2", AnotherMockImpl { value: 1 });

    let name1 = adapter1.name().to_string();
    let name2 = adapter2.name().to_string();

    register(&mut registry, adapter1).unwrap();
    register(&mut registry, adapter2).unwrap();

    let mut got = names(&registry);
    got.sort();
    let mut expected = vec![name1.clone(), name2.clone()];
    expected.sort();
    assert_eq!(got, expected);

    registry.remove_by_name(&name1);
    assert_eq!(names(&registry), vec![name2]);
}

#[test]
fn duplicate_name_under_another_type_is_refused() {
    let mut registry: Registry = AdapterRegistry::new();
    register(&mut registry, MockAdapterImplAdapter::new("shared", MockAdapterImpl::new("i", "g"))).unwrap();
    let err = register(&mut registry, AnotherMockImplAdapter::new("shared", AnotherMockImpl { value: 3 })).unwrap_err();
    assert_eq!(err.to_string(), "Plugin error (deprecated): Adapter already registered with name: shared");
    assert_eq!(registry.count(), 1);
}

#[test]
fn lookup_by_type_id_and_value() {
    let mut registry: Registry = AdapterRegistry::new();
    register(&mut registry, AnotherMockImplAdapter::new("v", AnotherMockImpl { value: 42 })).unwrap();
    let found = registry
        .get_by_type_id(&TypeId::of::<AnotherWrapper>())
        .and_then(|a| a.as_any().downcast_ref::<AnotherWrapper>())
        .map(|w| w.implementation.value());
    assert_eq!(found, Some(42));
    assert!(registry.get_by_type_id(&TypeId::of::<MockWrapper>()).is_none());
}
