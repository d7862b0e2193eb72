//! Kernel bookkeeping: the phases of the component lifecycle, and the
//! registry of component instances keyed by their concrete type.
use vstd::prelude::*;
use vstd::string::StringExecFns;
use crate::dispatcher::{type_id_of, same_type_id};

verus! {

/// The phases of the kernel's component lifecycle.
#[derive(Debug, Clone, Copy, PartialEq, Eq, Structural)]
pub enum KernelLifecyclePhase {
    Bootstrap,
    Initialize,
    Start,
    RunPreCheck,
    Shutdown,
}

impl KernelLifecyclePhase {
    /// The name of the phase (what `Display` writes).
    pub open spec fn spec_text(self) -> Seq<char> {
        match self {
            KernelLifecyclePhase::Bootstrap => "Bootstrap"@,
            KernelLifecyclePhase::Initialize => "Initialize"@,
            KernelLifecyclePhase::Start => "Start"@,
            KernelLifecyclePhase::RunPreCheck => "RunPreCheck"@,
            KernelLifecyclePhase::Shutdown => "Shutdown"@,
        }
    }

    /// The name of the phase.
    pub fn to_string(&self) -> (r: String)
        ensures
            r@ == self.spec_text(),
    {
        match self {
            KernelLifecyclePhase::Bootstrap => String::from_str("Bootstrap"),
            KernelLifecyclePhase::Initialize => String::from_str("Initialize"),
            KernelLifecyclePhase::Start => String::from_str("Start"),
            KernelLifecyclePhase::RunPreCheck => String::from_str("RunPreCheck"),
            KernelLifecyclePhase::Shutdown => String::from_str("Shutdown"),
        }
    }
}

/// A registered component: the identifier of its concrete type and the instance.
pub struct ComponentEntry<C> {
    pub type_id: std::any::TypeId,
    pub instance: C,
}

/// Whether a component of this type is registered.
pub open spec fn has_type<C>(s: Seq<ComponentEntry<C>>, t: std::any::TypeId) -> bool {
    exists|i: int| 0 <= i < s.len() && #[trigger] s[i].type_id == t
}

/// Whether no type occurs twice.
pub open spec fn types_distinct<C>(s: Seq<ComponentEntry<C>>) -> bool {
    forall|i: int, j: int| 0 <= i < s.len() && 0 <= j < s.len() && i != j ==> #[trigger] s[i].type_id != #[trigger] s[j].type_id
}

/// The entries after registering `c` under type `t`: it replaces the entry
/// of that type in place, or is added at the end.
pub open spec fn registered_under<C>(s: Seq<ComponentEntry<C>>, t: std::any::TypeId, c: C) -> Seq<ComponentEntry<C>> {
    if has_type(s, t) {
        s.update(choose|i: int| 0 <= i < s.len() && #[trigger] s[i].type_id == t, ComponentEntry { type_id: t, instance: c })
    } else {
        s.push(ComponentEntry { type_id: t, instance: c })
    }
}

/// Registry of component instances keyed by the type of the component.
pub struct DependencyRegistry<C> {
    instances: Vec<ComponentEntry<C>>,
}

impl<C> View for DependencyRegistry<C> {
    type V = Seq<ComponentEntry<C>>;

    closed spec fn view(&self) -> Seq<ComponentEntry<C>> {
        self.instances@
    }
}

impl<C> DependencyRegistry<C> {
    /// No type is registered twice.
    #[verifier::type_invariant]
    closed spec fn inv(&self) -> bool {
        types_distinct(self.instances@)
    }

    /// Create a new empty registry.
    pub fn new() -> (r: Self)
        ensures
            r@ == Seq::<ComponentEntry<C>>::empty(),
    {
        DependencyRegistry { instances: Vec::new() }
    }

    /// Position of the entry of a type, if registered.
    fn find(&self, t: &std::any::TypeId) -> (r: Option<usize>)
        ensures
            types_distinct(self@),
            match r {
                Some(i) => i < self@.len() && self@[i as int].type_id == *t,
                None => !has_type(self@, *t),
            },
    {
        proof {
            use_type_invariant(self);
        }
        let mut i: usize = 0;
        while i < self.instances.len()
            invariant
                i <= self.instances@.len(),
                types_distinct(self.instances@),
                forall|k: int| 0 <= k < i ==> #[trigger] self.instances@[k].type_id != *t,
            decreases self.instances.len() - i,
        {
            if same_type_id(&self.instances[i].type_id, t) {
                return Some(i);
            }
            i = i + 1;
        }
        None
    }

    /// Register a component under the type of its concrete type `V`,
    /// replacing any instance registered under that type.
    pub fn register_instance<V: ?Sized + 'static>(&mut self, instance: C)
        ensures
            exists|t: std::any::TypeId| final(self)@ == #[trigger] registered_under(old(self)@, t, instance),
    {
        let t = type_id_of::<V>();
        self.insert_under(t, instance);
    }

    /// Register a component under a given type identifier.
    fn insert_under(&mut self, t: std::any::TypeId, instance: C)
        ensures
            final(self)@ == registered_under(old(self)@, t, instance),
    {
        proof {
            use_type_invariant(&*self);
        }
        let found = self.find(&t);
        let ghost before = self.instances@;
        let mut v: Vec<ComponentEntry<C>> = Vec::new();
        std::mem::swap(&mut v, &mut self.instances);
        match found {
            Some(i) => {
                proof {
                    let j = choose|j: int| 0 <= j < before.len() && #[trigger] before[j].type_id == t;
                    assert(i as int == j);
                }
                v.set(i, ComponentEntry { type_id: t, instance });
                proof {
                    assert forall|a: int, b: int| 0 <= a < v@.len() && 0 <= b < v@.len() && a != b implies #[trigger] v@[a].type_id != #[trigger] v@[b].type_id by {
                        assert(v@[a].type_id == before[a].type_id);
                        assert(v@[b].type_id == before[b].type_id);
                    }
                }
            },
            None => {
                v.push(ComponentEntry { type_id: t, instance });
                proof {
                    assert forall|a: int, b: int| 0 <= a < v@.len() && 0 <= b < v@.len() && a != b implies #[trigger] v@[a].type_id != #[trigger] v@[b].type_id by {
                        if a < before.len() {
                            assert(v@[a] == before[a]);
                        }
                        if b < before.len() {
                            assert(v@[b] == before[b]);
                        }
                    }
                }
            },
        }
        self.instances = v;
    }

    /// The instance registered under a type identifier, if any.
    pub fn get_component_by_id(&self, type_id: &std::any::TypeId) -> (r: Option<&C>)
        ensures
            match r {
                Some(c) => exists|i: int| 0 <= i < self@.len() && #[trigger] self@[i].type_id == *type_id && self@[i].instance == *c,
                None => !has_type(self@, *type_id),
            },
    {
        match self.find(type_id) {
            Some(i) => Some(&self.instances[i].instance),
            None => None,
        }
    }

    /// All registered instances, in registration order.
    pub fn get_all_components(&self) -> (r: Vec<&C>)
        ensures
            r@.len() == self@.len(),
            forall|k: int| 0 <= k < r@.len() ==> *#[trigger] r@[k] == self@[k].instance,
    {
        let mut out: Vec<&C> = Vec::new();
        let mut i: usize = 0;
        while i < self.instances.len()
            invariant
                i <= self.instances@.len(),
                out@.len() == i,
                forall|k: int| 0 <= k < i ==> *#[trigger] out@[k] == self.instances@[k].instance,
            decreases self.instances.len() - i,
        {
            out.push(&self.instances[i].instance);
            i = i + 1;
        }
        out
    }

    /// The type identifiers of all registered instances, in registration order.
    pub fn get_registered_ids(&self) -> (r: Vec<std::any::TypeId>)
        ensures
            r@.len() == self@.len(),
            forall|k: int| 0 <= k < r@.len() ==> #[trigger] r@[k] == self@[k].type_id,
    {
        let mut out: Vec<std::any::TypeId> = Vec::new();
        let mut i: usize = 0;
        while i < self.instances.len()
            invariant
                i <= self.instances@.len(),
                out@.len() == i,
                forall|k: int| 0 <= k < i ==> #[trigger] out@[k] == self.instances@[k].type_id,
            decreases self.instances.len() - i,
        {
            out.push(self.instances[i].type_id);
            i = i + 1;
        }
        out
    }

    /// Remove all instances.
    pub fn clear(&mut self)
        ensures
            final(self)@ == Seq::<ComponentEntry<C>>::empty(),
    {
        self.instances = Vec::new();
    }
}

/// Law: after registering an instance under a type, that type is registered
/// with that instance, and every other registered type keeps its instance.
pub proof fn lemma_register_then_lookup<C>(s: Seq<ComponentEntry<C>>, t: std::any::TypeId, c: C, u: std::any::TypeId)
    requires
        types_distinct(s),
    ensures
        exists|i: int| 0 <= i < registered_under(s, t, c).len() && #[trigger] registered_under(s, t, c)[i].type_id == t
            && registered_under(s, t, c)[i].instance == c,
        u != t ==> (has_type(registered_under(s, t, c), u) == has_type(s, u)),
{
    let r = registered_under(s, t, c);
    if has_type(s, t) {
        let i = choose|i: int| 0 <= i < s.len() && #[trigger] s[i].type_id == t;
        assert(r[i].type_id == t);
        if u != t {
            if has_type(s, u) {
                let j = choose|j: int| 0 <= j < s.len() && #[trigger] s[j].type_id == u;
                assert(r[j].type_id == u);
            }
            if has_type(r, u) {
                let j = choose|j: int| 0 <= j < r.len() && #[trigger] r[j].type_id == u;
                assert(s[j].type_id == u);
            }
        }
    } else {
        assert(r[s.len() as int].type_id == t);
        if u != t {
            if has_type(s, u) {
                let j = choose|j: int| 0 <= j < s.len() && #[trigger] s[j].type_id == u;
                assert(r[j].type_id == u);
            }
            if has_type(r, u) {
                let j = choose|j: int| 0 <= j < r.len() && #[trigger] r[j].type_id == u;
                assert(s[j].type_id == u);
            }
        }
    }
}

} // verus!
