//! The registry of adapters between plugins: one adapter per type and per
//! name.
use vstd::prelude::*;
use vstd::string::StringExecFns;
use crate::dispatcher::{same_type_id, type_id_of};
use crate::event::type_id_debug;

verus! {

/// A registered adapter: the type it was registered for, its name, and the adapter.
pub struct AdapterEntry<V> {
    pub type_id: std::any::TypeId,
    pub name: String,
    pub adapter: V,
}

/// Why an adapter could not be registered.
#[derive(Debug)]
pub enum AdapterRegistrationError {
    /// An adapter of this type is registered already.
    DuplicateType(std::any::TypeId),
    /// An adapter of this name is registered already.
    DuplicateName(String),
}

impl AdapterRegistrationError {
    /// The text that describes the error (as the kernel's plugin error words
    /// it), for the duplicate name; for the duplicate type, its beginning.
    pub open spec fn spec_text(&self) -> Seq<char> {
        match self {
            AdapterRegistrationError::DuplicateType(_) => "Plugin error (deprecated): Adapter already registered for type ID: "@,
            AdapterRegistrationError::DuplicateName(n) => "Plugin error (deprecated): Adapter already registered with name: "@ + n@,
        }
    }

    /// The text that describes the error; for the duplicate type it goes on
    /// with the type's debug form.
    pub fn to_string(&self) -> (r: String)
        ensures
            match self {
                AdapterRegistrationError::DuplicateType(_) => self.spec_text().is_prefix_of(r@),
                AdapterRegistrationError::DuplicateName(_) => r@ == self.spec_text(),
            },
    {
        match self {
            AdapterRegistrationError::DuplicateType(t) => {
                let s = String::from_str("Plugin error (deprecated): Adapter already registered for type ID: ");
                let r = s.concat(type_id_debug(t).as_str());
                proof {
                    assert(self.spec_text() =~= r@.subrange(0, self.spec_text().len() as int));
                }
                r
            },
            AdapterRegistrationError::DuplicateName(n) => String::from_str(
                "Plugin error (deprecated): Adapter already registered with name: ",
            ).concat(n.as_str()),
        }
    }
}

/// Whether an adapter of this type is registered.
pub open spec fn has_adapter_type<V>(s: Seq<AdapterEntry<V>>, t: std::any::TypeId) -> bool {
    exists|i: int| 0 <= i < s.len() && #[trigger] s[i].type_id == t
}

/// Whether an adapter of this name is registered.
pub open spec fn has_adapter_name<V>(s: Seq<AdapterEntry<V>>, n: Seq<char>) -> bool {
    exists|i: int| 0 <= i < s.len() && #[trigger] s[i].name@ == n
}

/// The first position holding an adapter of this type (meaningful when there is one).
pub open spec fn type_position<V>(s: Seq<AdapterEntry<V>>, t: std::any::TypeId) -> int {
    choose|i: int| 0 <= i < s.len() && s[i].type_id == t && forall|j: int| 0 <= j < i ==> #[trigger] s[j].type_id != t
}

/// The first position holding an adapter of this name (meaningful when there is one).
pub open spec fn name_position<V>(s: Seq<AdapterEntry<V>>, n: Seq<char>) -> int {
    choose|i: int| 0 <= i < s.len() && s[i].name@ == n && forall|j: int| 0 <= j < i ==> #[trigger] s[j].name@ != n
}

/// Whether no type and no name occurs twice.
pub open spec fn adapters_distinct<V>(s: Seq<AdapterEntry<V>>) -> bool {
    forall|i: int, j: int| 0 <= i < s.len() && 0 <= j < s.len() && i != j ==> #[trigger] s[i].type_id != #[trigger] s[j].type_id
        && s[i].name@ != s[j].name@
}

/// The key an adapter is registered under.
struct AdapterKey {
    type_id: std::any::TypeId,
    name: String,
}

/// Whether no type and no name occurs twice among the keys.
spec fn keys_distinct(s: Seq<AdapterKey>) -> bool {
    forall|i: int, j: int| 0 <= i < s.len() && 0 <= j < s.len() && i != j ==> #[trigger] s[i].type_id != #[trigger] s[j].type_id
        && s[i].name@ != s[j].name@
}

/// The registered adapters, each with its key.
spec fn entries_of<V>(keys: Seq<AdapterKey>, values: Seq<V>) -> Seq<AdapterEntry<V>> {
    Seq::new(keys.len(), |i: int| AdapterEntry { type_id: keys[i].type_id, name: keys[i].name, adapter: values[i] })
}

/// Distinct keys give distinct entries, whatever the adapters.
proof fn lemma_entries_distinct<V>(keys: Seq<AdapterKey>)
    requires
        keys_distinct(keys),
    ensures
        forall|values: Seq<V>| #[trigger] adapters_distinct(entries_of(keys, values)),
{
    assert forall|values: Seq<V>| #[trigger] adapters_distinct(entries_of(keys, values)) by {
        let e = entries_of(keys, values);
        assert forall|i: int, j: int| 0 <= i < e.len() && 0 <= j < e.len() && i != j implies #[trigger] e[i].type_id
            != #[trigger] e[j].type_id && e[i].name@ != e[j].name@ by {
            assert(e[i].type_id == keys[i].type_id && e[i].name == keys[i].name);
            assert(e[j].type_id == keys[j].type_id && e[j].name == keys[j].name);
        }
    }
}

/// Removing a key keeps the keys distinct, and removes the entry.
proof fn lemma_keys_remove<V>(keys: Seq<AdapterKey>, values: Seq<V>, i: int)
    requires
        keys_distinct(keys),
        keys.len() == values.len(),
        0 <= i < keys.len(),
    ensures
        keys_distinct(keys.remove(i)),
        entries_of(keys.remove(i), values.remove(i)) == entries_of(keys, values).remove(i),
{
    let after = keys.remove(i);
    keys.remove_ensures(i);
    values.remove_ensures(i);
    entries_of(keys, values).remove_ensures(i);
    assert forall|a: int, b: int| 0 <= a < after.len() && 0 <= b < after.len() && a != b implies #[trigger] after[a].type_id
        != #[trigger] after[b].type_id && after[a].name@ != after[b].name@ by {
        let a0 = if a < i { a } else { a + 1 };
        let b0 = if b < i { b } else { b + 1 };
        assert(after[a] == keys[a0]);
        assert(after[b] == keys[b0]);
        assert(a0 != b0);
        assert(keys[a0].type_id != keys[b0].type_id && keys[a0].name@ != keys[b0].name@);
    }
    assert(entries_of(keys.remove(i), values.remove(i)) =~= entries_of(keys, values).remove(i));
}

/// Registry for adapters.
pub struct AdapterRegistry<V> {
    keys: Vec<AdapterKey>,
    values: Vec<V>,
}

impl<V> View for AdapterRegistry<V> {
    type V = Seq<AdapterEntry<V>>;

    closed spec fn view(&self) -> Seq<AdapterEntry<V>> {
        entries_of(self.keys@, self.values@)
    }
}

impl<V> AdapterRegistry<V> {
    /// One adapter per key; no type and no name is registered twice.
    #[verifier::type_invariant]
    closed spec fn wf(&self) -> bool {
        self.keys@.len() == self.values@.len() && keys_distinct(self.keys@)
    }

    /// Create a new, empty adapter registry.
    pub fn new() -> (r: Self)
        ensures
            r@ == Seq::<AdapterEntry<V>>::empty(),
            adapters_distinct(r@),
    {
        let r = AdapterRegistry { keys: Vec::new(), values: Vec::new() };
        assert(r@ =~= Seq::<AdapterEntry<V>>::empty());
        r
    }

    /// The first position of an adapter of this type, if any.
    fn find_type(&self, t: &std::any::TypeId) -> (r: Option<usize>)
        ensures
            match r {
                Some(i) => i < self@.len() && i == type_position(self@, *t) && has_adapter_type(self@, *t)
                    && self@[i as int].type_id == *t,
                None => !has_adapter_type(self@, *t),
            },
    {
        let mut i: usize = 0;
        while i < self.keys.len()
            invariant
                i <= self.keys@.len(),
                self@.len() == self.keys@.len(),
                forall|k: int| 0 <= k < i ==> #[trigger] self@[k].type_id != *t,
            decreases self.keys.len() - i,
        {
            assert(self@[i as int].type_id == self.keys@[i as int].type_id);
            if same_type_id(&self.keys[i].type_id, t) {
                proof {
                    let p = type_position(self@, *t);
                    assert(p == i) by {
                        if p < i {
                            assert(self@[p].type_id != *t);
                        } else if p > i {
                            assert(self@[i as int].type_id != *t);
                        }
                    }
                }
                return Some(i);
            }
            i = i + 1;
        }
        None
    }

    /// The first position of an adapter of this name, if any.
    fn find_name(&self, n: &str) -> (r: Option<usize>)
        ensures
            match r {
                Some(i) => i < self@.len() && i == name_position(self@, n@) && has_adapter_name(self@, n@)
                    && self@[i as int].name@ == n@,
                None => !has_adapter_name(self@, n@),
            },
    {
        let key = String::from_str(n);
        let mut i: usize = 0;
        while i < self.keys.len()
            invariant
                i <= self.keys@.len(),
                self@.len() == self.keys@.len(),
                key@ == n@,
                forall|k: int| 0 <= k < i ==> #[trigger] self@[k].name@ != n@,
            decreases self.keys.len() - i,
        {
            assert(self@[i as int].name == self.keys@[i as int].name);
            if self.keys[i].name == key {
                proof {
                    let p = name_position(self@, n@);
                    assert(p == i) by {
                        if p < i {
                            assert(self@[p].name@ != n@);
                        } else if p > i {
                            assert(self@[i as int].name@ != n@);
                        }
                    }
                }
                return Some(i);
            }
            i = i + 1;
        }
        None
    }

    /// Register an adapter for a type and under a name: refused if an
    /// adapter of the type is registered (checked first) or one of the name.
    pub fn register(&mut self, type_id: std::any::TypeId, name: &str, adapter: V) -> (r: Result<(), AdapterRegistrationError>)
        ensures
            adapters_distinct(final(self)@),
            has_adapter_type(old(self)@, type_id) ==> final(self)@ == old(self)@ && (r matches Err(
                AdapterRegistrationError::DuplicateType(t),
            ) && t == type_id),
            !has_adapter_type(old(self)@, type_id) && has_adapter_name(old(self)@, name@) ==> final(self)@ == old(self)@
                && (r matches Err(AdapterRegistrationError::DuplicateName(n)) && n@ == name@),
            !has_adapter_type(old(self)@, type_id) && !has_adapter_name(old(self)@, name@) ==> r is Ok
                && final(self)@.len() == old(self)@.len() + 1 && final(self)@.drop_last() == old(self)@
                && final(self)@.last().type_id == type_id && final(self)@.last().name@ == name@
                && final(self)@.last().adapter == adapter,
    {
        proof {
            use_type_invariant(&*self);
            lemma_entries_distinct::<V>(self.keys@);
        }
        if self.find_type(&type_id).is_some() {
            return Err(AdapterRegistrationError::DuplicateType(type_id));
        }
        if self.find_name(name).is_some() {
            return Err(AdapterRegistrationError::DuplicateName(String::from_str(name)));
        }
        let mut tmp = AdapterRegistry { keys: Vec::new(), values: Vec::new() };
        std::mem::swap(self, &mut tmp);
        let AdapterRegistry { mut keys, mut values } = tmp;
        let ghost before = keys@;
        keys.push(AdapterKey { type_id, name: String::from_str(name) });
        values.push(adapter);
        proof {
            assert forall|i: int, j: int| 0 <= i < keys@.len() && 0 <= j < keys@.len() && i != j implies #[trigger] keys@[i].type_id
                != #[trigger] keys@[j].type_id && keys@[i].name@ != keys@[j].name@ by {
                let n = before.len() as int;
                if i < n && j < n {
                    assert(keys@[i] == before[i]);
                    assert(keys@[j] == before[j]);
                } else if i == n {
                    assert(keys@[j] == before[j]);
                    assert(old(self)@[j].type_id == before[j].type_id);
                    assert(old(self)@[j].name == before[j].name);
                } else {
                    assert(keys@[i] == before[i]);
                    assert(old(self)@[i].type_id == before[i].type_id);
                    assert(old(self)@[i].name == before[i].name);
                }
            }
        }
        *self = AdapterRegistry { keys, values };
        proof {
            lemma_entries_distinct::<V>(self.keys@);
            assert(self@.drop_last() =~= old(self)@);
        }
        Ok(())
    }

    /// The adapter registered for type `A`, if any.
    pub fn get<A: ?Sized + 'static>(&self) -> (r: Option<&V>)
        ensures
            exists|t: std::any::TypeId| match r {
                Some(v) => #[trigger] has_adapter_type(self@, t) && *v == self@[type_position(self@, t)].adapter,
                None => !#[trigger] has_adapter_type(self@, t),
            },
    {
        let t = type_id_of::<A>();
        self.get_by_type_id(&t)
    }

    /// The adapter registered for a type identifier, if any.
    pub fn get_by_type_id(&self, t: &std::any::TypeId) -> (r: Option<&V>)
        ensures
            match r {
                Some(v) => has_adapter_type(self@, *t) && *v == self@[type_position(self@, *t)].adapter,
                None => !has_adapter_type(self@, *t),
            },
    {
        proof {
            use_type_invariant(self);
        }
        match self.find_type(t) {
            Some(i) => Some(&self.values[i]),
            None => None,
        }
    }

    /// The adapter registered for type `A`, for changing it, if any.
    pub fn get_mut<A: ?Sized + 'static>(&mut self) -> (r: Option<&mut V>)
        ensures
            adapters_distinct(final(self)@),
            exists|t: std::any::TypeId| match r {
                Some(v) => #[trigger] has_adapter_type(old(self)@, t) && *v == old(self)@[type_position(old(self)@, t)].adapter
                    && final(self)@ == old(self)@.update(
                    type_position(old(self)@, t),
                    AdapterEntry { adapter: *final(v), ..old(self)@[type_position(old(self)@, t)] },
                ),
                None => !#[trigger] has_adapter_type(old(self)@, t) && final(self)@ == old(self)@,
            },
    {
        proof {
            use_type_invariant(&*self);
            lemma_entries_distinct::<V>(self.keys@);
        }
        let t = type_id_of::<A>();
        match self.find_type(&t) {
            Some(i) => Some(&mut self.values[i]),
            None => None,
        }
    }

    /// The adapter registered under a name, if any.
    pub fn get_by_name(&self, name: &str) -> (r: Option<&V>)
        ensures
            match r {
                Some(v) => has_adapter_name(self@, name@) && *v == self@[name_position(self@, name@)].adapter,
                None => !has_adapter_name(self@, name@),
            },
    {
        proof {
            use_type_invariant(self);
        }
        match self.find_name(name) {
            Some(i) => Some(&self.values[i]),
            None => None,
        }
    }

    /// The adapter registered under a name, for changing it, if any.
    pub fn get_by_name_mut(&mut self, name: &str) -> (r: Option<&mut V>)
        ensures
            adapters_distinct(final(self)@),
            match r {
                Some(v) => has_adapter_name(old(self)@, name@) && *v == old(self)@[name_position(old(self)@, name@)].adapter
                    && final(self)@ == old(self)@.update(
                    name_position(old(self)@, name@),
                    AdapterEntry { adapter: *final(v), ..old(self)@[name_position(old(self)@, name@)] },
                ),
                None => !has_adapter_name(old(self)@, name@) && final(self)@ == old(self)@,
            },
    {
        proof {
            use_type_invariant(&*self);
            lemma_entries_distinct::<V>(self.keys@);
        }
        match self.find_name(name) {
            Some(i) => Some(&mut self.values[i]),
            None => None,
        }
    }

    /// Whether an adapter of type `A` is registered.
    pub fn has<A: ?Sized + 'static>(&self) -> (r: bool)
        ensures
            exists|t: std::any::TypeId| r == #[trigger] has_adapter_type(self@, t),
    {
        let t = type_id_of::<A>();
        self.find_type(&t).is_some()
    }

    /// Whether an adapter of this name is registered.
    pub fn has_name(&self, name: &str) -> (r: bool)
        ensures
            r == has_adapter_name(self@, name@),
    {
        self.find_name(name).is_some()
    }

    /// Takes the entry at a position out of the registry.
    fn remove_at(&mut self, i: usize) -> (r: V)
        requires
            i < old(self)@.len(),
        ensures
            r == old(self)@[i as int].adapter,
            final(self)@ == old(self)@.remove(i as int),
            adapters_distinct(final(self)@),
    {
        proof {
            use_type_invariant(&*self);
        }
        let mut tmp = AdapterRegistry { keys: Vec::new(), values: Vec::new() };
        std::mem::swap(self, &mut tmp);
        let AdapterRegistry { mut keys, mut values } = tmp;
        let ghost (k0, v0) = (keys@, values@);
        keys.remove(i);
        let v = values.remove(i);
        proof {
            lemma_keys_remove(k0, v0, i as int);
        }
        *self = AdapterRegistry { keys, values };
        proof {
            lemma_entries_distinct::<V>(self.keys@);
        }
        v
    }

    /// Remove the adapter registered for type `A`, handing it back.
    pub fn remove<A: ?Sized + 'static>(&mut self) -> (r: Option<V>)
        ensures
            adapters_distinct(final(self)@),
            exists|t: std::any::TypeId| match r {
                Some(v) => #[trigger] has_adapter_type(old(self)@, t) && v == old(self)@[type_position(old(self)@, t)].adapter
                    && final(self)@ == old(self)@.remove(type_position(old(self)@, t)),
                None => !#[trigger] has_adapter_type(old(self)@, t) && final(self)@ == old(self)@,
            },
    {
        proof {
            use_type_invariant(&*self);
            lemma_entries_distinct::<V>(self.keys@);
        }
        let t = type_id_of::<A>();
        match self.find_type(&t) {
            Some(i) => Some(self.remove_at(i)),
            None => None,
        }
    }

    /// Remove the adapter registered under a name, handing it back.
    pub fn remove_by_name(&mut self, name: &str) -> (r: Option<V>)
        ensures
            adapters_distinct(final(self)@),
            match r {
                Some(v) => has_adapter_name(old(self)@, name@) && v == old(self)@[name_position(old(self)@, name@)].adapter
                    && final(self)@ == old(self)@.remove(name_position(old(self)@, name@)),
                None => !has_adapter_name(old(self)@, name@) && final(self)@ == old(self)@,
            },
    {
        proof {
            use_type_invariant(&*self);
            lemma_entries_distinct::<V>(self.keys@);
        }
        match self.find_name(name) {
            Some(i) => Some(self.remove_at(i)),
            None => None,
        }
    }

    /// The number of registered adapters.
    pub fn count(&self) -> (r: usize)
        ensures
            r == self@.len(),
    {
        self.keys.len()
    }

    /// The names of the registered adapters, in registration order; no name
    /// occurs twice.
    pub fn names(&self) -> (r: Vec<&str>)
        ensures
            r@.len() == self@.len(),
            forall|k: int| 0 <= k < r@.len() ==> (#[trigger] r@[k])@ == self@[k].name@,
            forall|i: int, j: int| 0 <= i < j < r@.len() ==> (#[trigger] r@[i])@ != (#[trigger] r@[j])@,
    {
        proof {
            use_type_invariant(self);
        }
        let mut out: Vec<&str> = Vec::new();
        let mut i: usize = 0;
        while i < self.keys.len()
            invariant
                i <= self.keys@.len(),
                self@.len() == self.keys@.len(),
                out@.len() == i,
                forall|k: int| 0 <= k < i ==> (#[trigger] out@[k])@ == self.keys@[k].name@,
            decreases self.keys.len() - i,
        {
            out.push(self.keys[i].name.as_str());
            i = i + 1;
        }
        proof {
            assert forall|k: int| 0 <= k < out@.len() implies (#[trigger] out@[k])@ == self@[k].name@ by {
                assert(self@[k].name == self.keys@[k].name);
            }
            assert forall|a: int, b: int| 0 <= a < b < out@.len() implies (#[trigger] out@[a])@ != (#[trigger] out@[b])@ by {
                assert(self.keys@[a].type_id != self.keys@[b].type_id && self.keys@[a].name@ != self.keys@[b].name@);
            }
        }
        out
    }
}

impl<V> Default for AdapterRegistry<V> {
    /// An empty adapter registry.
    fn default() -> (r: Self)
        ensures
            r@ == Seq::<AdapterEntry<V>>::empty(),
            adapters_distinct(r@),
    {
        AdapterRegistry::new()
    }
}

/// Law: registering keeps the registry free of repeated types and names.
pub proof fn lemma_register_keeps_distinct<V>(before: Seq<AdapterEntry<V>>, after: Seq<AdapterEntry<V>>)
    requires
        adapters_distinct(before),
        after.len() == before.len() + 1,
        after.drop_last() == before,
        !has_adapter_type(before, after.last().type_id),
        !has_adapter_name(before, after.last().name@),
    ensures
        adapters_distinct(after),
{
    assert forall|i: int, j: int| 0 <= i < after.len() && 0 <= j < after.len() && i != j implies #[trigger] after[i].type_id
        != #[trigger] after[j].type_id && after[i].name@ != after[j].name@ by {
        let n = before.len() as int;
        if i < n && j < n {
            assert(after[i] == before[i]);
            assert(after[j] == before[j]);
        } else if i == n {
            assert(after[j] == before[j]);
        } else {
            assert(after[i] == before[i]);
        }
    }
}

} // verus!
