use gini_core::dispatcher::EventDispatcher;
use gini_core::event::{Event, SystemEvent, TestEvent};
use gini_core::kernel::{DependencyRegistry, KernelLifecyclePhase};
use std::any::TypeId;

#[test]
fn handler_registration_and_lookup() {
    let mut d: EventDispatcher<&'static str, TestEvent> = EventDispatcher::new();
    let id1 = d.register_handler("test.event", "first");
    let id2 = d.register_handler("other.event", "second");
    let id3 = d.register_handler("test.event", "third");
    assert_eq!((id1, id2, id3), (1, 2, 3));
    let (by_name, by_type) = d.handlers_for("test.event", &TypeId::of::<TestEvent>());
    assert_eq!(by_name, vec![&"first", &"third"]);
    assert!(by_type.is_empty());
}

#[test]
fn typed_handler_registration() {
    let mut d: EventDispatcher<u32, SystemEvent> = EventDispatcher::new();
    let id = d.register_type_handler::<SystemEvent>(10);
    d.register_type_handler::<TestEvent>(20);
    d.register_handler("application.start", 30);
    assert_eq!(id, 1);
    let e = SystemEvent::ApplicationStart;
    let (by_name, by_type) = d.handlers_for(e.name(), &TypeId::of::<SystemEvent>());
    assert_eq!(by_name, vec![&30]);
    assert_eq!(by_type, vec![&10]);
}

#[test]
fn handler_unregistration() {
    let mut d: EventDispatcher<u32, TestEvent> = EventDispatcher::new();
    let id = d.register_handler("test.event", 1);
    let tid = d.register_type_handler::<TestEvent>(2);
    assert!(d.unregister_handler(id));
    assert!(!d.unregister_handler(id));
    assert!(d.unregister_handler(tid));
    assert!(!d.unregister_handler(99));
    let (by_name, by_type) = d.handlers_for("test.event", &TypeId::of::<TestEvent>());
    assert!(by_name.is_empty());
    assert!(by_type.is_empty());
    assert_eq!(d.register_handler("test.event", 3), 3);
}

#[test]
fn event_queue_is_first_in_first_out() {
    let mut d: EventDispatcher<u32, TestEvent> = EventDispatcher::new();
    assert_eq!(d.queue_size(), 0);
    assert!(d.pop_event().is_none());
    d.queue_event(TestEvent::new("one"));
    d.queue_event(TestEvent::new("two"));
    assert_eq!(d.queue_size(), 2);
    assert_eq!(d.pop_event().unwrap().name(), "one");
    assert_eq!(d.pop_event().unwrap().name(), "two");
    assert_eq!(d.queue_size(), 0);
}

#[test]
fn lifecycle_phase_names() {
    assert_eq!(KernelLifecyclePhase::Bootstrap.to_string(), "Bootstrap");
    assert_eq!(KernelLifecyclePhase::Initialize.to_string(), "Initialize");
    assert_eq!(KernelLifecyclePhase::Start.to_string(), "Start");
    assert_eq!(KernelLifecyclePhase::RunPreCheck.to_string(), "RunPreCheck");
    assert_eq!(KernelLifecyclePhase::Shutdown.to_string(), "Shutdown");
}

struct ConfigComponent;
struct StorageComponent;

#[test]
fn dependency_registry_register_and_lookup() {
    let mut r: DependencyRegistry<&'static str> = DependencyRegistry::new();
    assert!(r.get_all_components().is_empty());
    r.register_instance::<ConfigComponent>("config");
    r.register_instance::<StorageComponent>("storage");
    assert_eq!(r.get_component_by_id(&TypeId::of::<ConfigComponent>()), Some(&"config"));
    assert_eq!(r.get_component_by_id(&TypeId::of::<StorageComponent>()), Some(&"storage"));
    assert!(r.get_component_by_id(&TypeId::of::<u8>()).is_none());
    r.register_instance::<ConfigComponent>("config2");
    assert_eq!(r.get_component_by_id(&TypeId::of::<ConfigComponent>()), Some(&"config2"));
    assert_eq!(r.get_all_components().len(), 2);
    assert_eq!(r.get_registered_ids().len(), 2);
    r.clear();
    assert!(r.get_registered_ids().is_empty());
}
