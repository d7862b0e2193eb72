//! The bookkeeping of event dispatch: handlers registered by event name or
//! by event type, the identifiers they are given, and the queue of events
//! waiting to be dispatched.
use vstd::prelude::*;
use crate::event::EventId;

verus! {

/// `TypeId::of`: the identifier of a type.
#[verifier::external_body]
pub(crate) fn type_id_of<T: ?Sized + 'static>() -> std::any::TypeId {
    std::any::TypeId::of::<T>()
}

/// `TypeId` equality: two identifiers are equal exactly when they are the
/// same value (they name the same type).
#[verifier::external_body]
pub(crate) fn same_type_id(a: &std::any::TypeId, b: &std::any::TypeId) -> (r: bool)
    ensures
        r == (*a == *b),
{
    *a == *b
}

/// A handler registered for events of a given name.
pub struct NamedHandler<H> {
    pub event_name: String,
    pub id: EventId,
    pub handler: H,
}

/// A handler registered for events of a given type.
pub struct TypedHandler<H> {
    pub type_id: std::any::TypeId,
    pub id: EventId,
    pub handler: H,
}

/// Abstract value of an [`EventDispatcher`].
pub struct DispatcherView<H, E> {
    /// Handlers by event name, in registration order.
    pub handlers: Seq<NamedHandler<H>>,
    /// Handlers by event type, in registration order.
    pub type_handlers: Seq<TypedHandler<H>>,
    /// The identifier the next handler gets.
    pub next_handler_id: EventId,
    /// Events waiting to be dispatched, oldest first.
    pub queue: Seq<E>,
}

/// Event dispatcher for managing handlers and queued events.
pub struct EventDispatcher<H, E> {
    handlers: Vec<NamedHandler<H>>,
    type_handlers: Vec<TypedHandler<H>>,
    next_handler_id: EventId,
    event_queue: Vec<E>,
}

impl<H, E> View for EventDispatcher<H, E> {
    type V = DispatcherView<H, E>;

    closed spec fn view(&self) -> DispatcherView<H, E> {
        DispatcherView {
            handlers: self.handlers@,
            type_handlers: self.type_handlers@,
            next_handler_id: self.next_handler_id,
            queue: self.event_queue@,
        }
    }
}

/// The named handlers without the one of identifier `id`.
pub open spec fn named_without<H>(s: Seq<NamedHandler<H>>, id: EventId) -> Seq<NamedHandler<H>>
    decreases s.len(),
{
    if s.len() == 0 {
        s
    } else if s.last().id == id {
        named_without(s.drop_last(), id)
    } else {
        named_without(s.drop_last(), id).push(s.last())
    }
}

/// The typed handlers without the one of identifier `id`.
pub open spec fn typed_without<H>(s: Seq<TypedHandler<H>>, id: EventId) -> Seq<TypedHandler<H>>
    decreases s.len(),
{
    if s.len() == 0 {
        s
    } else if s.last().id == id {
        typed_without(s.drop_last(), id)
    } else {
        typed_without(s.drop_last(), id).push(s.last())
    }
}

/// The handlers of the named handlers registered for a name, in order.
pub open spec fn named_for<H>(s: Seq<NamedHandler<H>>, name: Seq<char>) -> Seq<H>
    decreases s.len(),
{
    if s.len() == 0 {
        Seq::<H>::empty()
    } else if s.last().event_name@ == name {
        named_for(s.drop_last(), name).push(s.last().handler)
    } else {
        named_for(s.drop_last(), name)
    }
}

/// The handlers of the typed handlers registered for a type, in order.
pub open spec fn typed_for<H>(s: Seq<TypedHandler<H>>, t: std::any::TypeId) -> Seq<H>
    decreases s.len(),
{
    if s.len() == 0 {
        Seq::<H>::empty()
    } else if s.last().type_id == t {
        typed_for(s.drop_last(), t).push(s.last().handler)
    } else {
        typed_for(s.drop_last(), t)
    }
}

/// Whether the identifiers of a dispatcher's handlers are those it handed
/// out: at least 1 and below the next one, increasing along each list, and
/// never shared between a named and a typed handler.
pub open spec fn handler_ids_fresh<H>(named: Seq<NamedHandler<H>>, typed: Seq<TypedHandler<H>>, next: EventId) -> bool {
    &&& 1 <= next
    &&& forall|i: int| 0 <= i < named.len() ==> 1 <= #[trigger] named[i].id < next
    &&& forall|i: int| 0 <= i < typed.len() ==> 1 <= #[trigger] typed[i].id < next
    &&& forall|i: int, j: int| 0 <= i < j < named.len() ==> #[trigger] named[i].id < #[trigger] named[j].id
    &&& forall|i: int, j: int| 0 <= i < j < typed.len() ==> #[trigger] typed[i].id < #[trigger] typed[j].id
    &&& forall|i: int, j: int| 0 <= i < named.len() && 0 <= j < typed.len() ==> #[trigger] named[i].id != #[trigger] typed[j].id
}

/// Lemma: removing the named handlers of one identifier keeps the others in
/// order, each one of the handlers before; with increasing identifiers, it
/// removes one handler exactly when one has that identifier.
proof fn lemma_named_without<H>(s: Seq<NamedHandler<H>>, id: EventId)
    requires
        forall|i: int, j: int| 0 <= i < j < s.len() ==> #[trigger] s[i].id < #[trigger] s[j].id,
    ensures
        forall|i: int, j: int| 0 <= i < j < named_without(s, id).len() ==> #[trigger] named_without(s, id)[i].id
            < #[trigger] named_without(s, id)[j].id,
        forall|k: int| 0 <= k < named_without(s, id).len() ==> exists|j: int| 0 <= j < s.len() && #[trigger] named_without(s, id)[k] == s[j],
        (exists|k: int| 0 <= k < s.len() && #[trigger] s[k].id == id) ==> named_without(s, id).len() + 1 == s.len(),
        !(exists|k: int| 0 <= k < s.len() && #[trigger] s[k].id == id) ==> named_without(s, id) == s,
    decreases s.len(),
{
    if s.len() > 0 {
        let init = s.drop_last();
        lemma_named_without(init, id);
        let w = named_without(init, id);
        assert forall|k: int| 0 <= k < w.len() implies exists|j: int| 0 <= j < s.len() && #[trigger] w[k] == s[j] by {
            let j = choose|j: int| 0 <= j < init.len() && w[k] == init[j];
            assert(s[j] == init[j]);
        }
        if s.last().id == id {
            assert forall|k: int| 0 <= k < init.len() implies #[trigger] init[k].id != id by {
                assert(s[k].id < s[s.len() - 1].id);
            }
            assert(!(exists|k: int| 0 <= k < init.len() && #[trigger] init[k].id == id));
        } else {
            let r = w.push(s.last());
            assert forall|k: int| 0 <= k < r.len() implies exists|j: int| 0 <= j < s.len() && #[trigger] r[k] == s[j] by {
                if k < w.len() {
                    assert(r[k] == w[k]);
                } else {
                    assert(r[k] == s[s.len() - 1]);
                }
            }
            assert forall|a: int, b: int| 0 <= a < b < r.len() implies #[trigger] r[a].id < #[trigger] r[b].id by {
                if b == w.len() {
                    let j = choose|j: int| 0 <= j < s.len() && w[a] == s[j];
                    assert(r[a] == w[a]);
                    assert(j < s.len() - 1) by {
                        if j == s.len() - 1 {
                            let i0 = choose|i0: int| 0 <= i0 < init.len() && w[a] == init[i0];
                            assert(init[i0] == s[i0]);
                            assert(s[i0].id < s[j].id);
                        }
                    }
                    assert(s[j].id < s[s.len() - 1].id);
                } else {
                    assert(r[a] == w[a]);
                    assert(r[b] == w[b]);
                }
            }
            if exists|k: int| 0 <= k < s.len() && #[trigger] s[k].id == id {
                let k = choose|k: int| 0 <= k < s.len() && #[trigger] s[k].id == id;
                assert(init[k].id == id);
            } else {
                assert forall|k: int| 0 <= k < init.len() implies #[trigger] init[k].id != id by {
                    assert(s[k] == init[k]);
                }
                assert(w == init);
                assert(s =~= init.push(s.last()));
            }
        }
    }
}

/// Lemma: as [`lemma_named_without`], for the handlers by type.
proof fn lemma_typed_without<H>(s: Seq<TypedHandler<H>>, id: EventId)
    requires
        forall|i: int, j: int| 0 <= i < j < s.len() ==> #[trigger] s[i].id < #[trigger] s[j].id,
    ensures
        forall|i: int, j: int| 0 <= i < j < typed_without(s, id).len() ==> #[trigger] typed_without(s, id)[i].id
            < #[trigger] typed_without(s, id)[j].id,
        forall|k: int| 0 <= k < typed_without(s, id).len() ==> exists|j: int| 0 <= j < s.len() && #[trigger] typed_without(s, id)[k] == s[j],
        (exists|k: int| 0 <= k < s.len() && #[trigger] s[k].id == id) ==> typed_without(s, id).len() + 1 == s.len(),
        !(exists|k: int| 0 <= k < s.len() && #[trigger] s[k].id == id) ==> typed_without(s, id) == s,
    decreases s.len(),
{
    if s.len() > 0 {
        let init = s.drop_last();
        lemma_typed_without(init, id);
        let w = typed_without(init, id);
        assert forall|k: int| 0 <= k < w.len() implies exists|j: int| 0 <= j < s.len() && #[trigger] w[k] == s[j] by {
            let j = choose|j: int| 0 <= j < init.len() && w[k] == init[j];
            assert(s[j] == init[j]);
        }
        if s.last().id == id {
            assert forall|k: int| 0 <= k < init.len() implies #[trigger] init[k].id != id by {
                assert(s[k].id < s[s.len() - 1].id);
            }
            assert(!(exists|k: int| 0 <= k < init.len() && #[trigger] init[k].id == id));
        } else {
            let r = w.push(s.last());
            assert forall|k: int| 0 <= k < r.len() implies exists|j: int| 0 <= j < s.len() && #[trigger] r[k] == s[j] by {
                if k < w.len() {
                    assert(r[k] == w[k]);
                } else {
                    assert(r[k] == s[s.len() - 1]);
                }
            }
            assert forall|a: int, b: int| 0 <= a < b < r.len() implies #[trigger] r[a].id < #[trigger] r[b].id by {
                if b == w.len() {
                    let j = choose|j: int| 0 <= j < s.len() && w[a] == s[j];
                    assert(r[a] == w[a]);
                    assert(j < s.len() - 1) by {
                        if j == s.len() - 1 {
                            let i0 = choose|i0: int| 0 <= i0 < init.len() && w[a] == init[i0];
                            assert(init[i0] == s[i0]);
                            assert(s[i0].id < s[j].id);
                        }
                    }
                    assert(s[j].id < s[s.len() - 1].id);
                } else {
                    assert(r[a] == w[a]);
                    assert(r[b] == w[b]);
                }
            }
            if exists|k: int| 0 <= k < s.len() && #[trigger] s[k].id == id {
                let k = choose|k: int| 0 <= k < s.len() && #[trigger] s[k].id == id;
                assert(init[k].id == id);
            } else {
                assert forall|k: int| 0 <= k < init.len() implies #[trigger] init[k].id != id by {
                    assert(s[k] == init[k]);
                }
                assert(w == init);
                assert(s =~= init.push(s.last()));
            }
        }
    }
}

/// Lemma: removing the handlers of one identifier keeps the identifiers
/// fresh, first by name then by type, and removes one handler exactly when
/// one has that identifier.
proof fn lemma_unregister_keeps_fresh<H>(named: Seq<NamedHandler<H>>, typed: Seq<TypedHandler<H>>, next: EventId, id: EventId)
    requires
        handler_ids_fresh(named, typed, next),
    ensures
        handler_ids_fresh(named_without(named, id), typed, next),
        handler_ids_fresh(named_without(named, id), typed_without(typed, id), next),
        ((exists|k: int| 0 <= k < named.len() && #[trigger] named[k].id == id)
            || (exists|k: int| 0 <= k < typed.len() && #[trigger] typed[k].id == id)) ==> named_without(named, id).len()
            + typed_without(typed, id).len() + 1 == named.len() + typed.len(),
        !((exists|k: int| 0 <= k < named.len() && #[trigger] named[k].id == id)
            || (exists|k: int| 0 <= k < typed.len() && #[trigger] typed[k].id == id)) ==> named_without(named, id) == named
            && typed_without(typed, id) == typed,
{
    lemma_named_without(named, id);
    lemma_typed_without(typed, id);
    let w = named_without(named, id);
    let v = typed_without(typed, id);
    assert forall|i: int| 0 <= i < w.len() implies 1 <= #[trigger] w[i].id < next by {
        let j = choose|j: int| 0 <= j < named.len() && w[i] == named[j];
    }
    assert forall|i: int, j: int| 0 <= i < w.len() && 0 <= j < typed.len() implies #[trigger] w[i].id != #[trigger] typed[j].id by {
        let k = choose|k: int| 0 <= k < named.len() && w[i] == named[k];
    }
    assert forall|i: int| 0 <= i < v.len() implies 1 <= #[trigger] v[i].id < next by {
        let j = choose|j: int| 0 <= j < typed.len() && v[i] == typed[j];
    }
    assert forall|i: int, j: int| 0 <= i < w.len() && 0 <= j < v.len() implies #[trigger] w[i].id != #[trigger] v[j].id by {
        let k = choose|k: int| 0 <= k < named.len() && w[i] == named[k];
        let l = choose|l: int| 0 <= l < typed.len() && v[j] == typed[l];
    }
    if exists|k: int| 0 <= k < named.len() && #[trigger] named[k].id == id {
        let k = choose|k: int| 0 <= k < named.len() && #[trigger] named[k].id == id;
        assert forall|l: int| 0 <= l < typed.len() implies #[trigger] typed[l].id != id by {
            assert(named[k].id != typed[l].id);
        }
    }
    if exists|k: int| 0 <= k < typed.len() && #[trigger] typed[k].id == id {
        let k = choose|k: int| 0 <= k < typed.len() && #[trigger] typed[k].id == id;
        assert forall|l: int| 0 <= l < named.len() implies #[trigger] named[l].id != id by {
            assert(named[l].id != typed[k].id);
        }
    }
}

impl<H, E> EventDispatcher<H, E> {
    /// The identifiers in use are those the dispatcher handed out.
    #[verifier::type_invariant]
    closed spec fn inv(&self) -> bool {
        handler_ids_fresh(self.handlers@, self.type_handlers@, self.next_handler_id)
    }

    /// Create a dispatcher with no handlers and an empty queue; the first
    /// handler gets identifier 1.
    pub fn new() -> (r: Self)
        ensures
            r@.handlers == Seq::<NamedHandler<H>>::empty(),
            r@.type_handlers == Seq::<TypedHandler<H>>::empty(),
            r@.next_handler_id == 1,
            r@.queue == Seq::<E>::empty(),
    {
        EventDispatcher { handlers: Vec::new(), type_handlers: Vec::new(), next_handler_id: 1, event_queue: Vec::new() }
    }

    /// The identifier the next registered handler will get.
    pub fn next_handler_id(&self) -> (r: EventId)
        ensures
            r == self@.next_handler_id,
    {
        self.next_handler_id
    }

    /// Register a handler for events of a name; answers its identifier.
    pub fn register_handler(&mut self, event_name: &str, handler: H) -> (r: EventId)
        requires
            old(self)@.next_handler_id < u64::MAX,
        ensures
            r >= 1,
            r == old(self)@.next_handler_id,
            final(self)@.next_handler_id == r + 1,
            final(self)@.handlers == old(self)@.handlers.push(NamedHandler { event_name: final(self)@.handlers.last().event_name, id: r, handler }),
            final(self)@.handlers.last().event_name@ == event_name@,
            final(self)@.type_handlers == old(self)@.type_handlers,
            final(self)@.queue == old(self)@.queue,
            forall|k: int| 0 <= k < old(self)@.handlers.len() ==> #[trigger] old(self)@.handlers[k].id < r,
            forall|k: int| 0 <= k < old(self)@.type_handlers.len() ==> #[trigger] old(self)@.type_handlers[k].id < r,
    {
        proof {
            use_type_invariant(&*self);
        }
        let id = self.next_handler_id;
        self.next_handler_id = self.next_handler_id + 1;
        let ghost before = self.handlers@;
        let entry = NamedHandler { event_name: event_name.to_owned(), id, handler };
        proof {
            let after = before.push(entry);
            assert forall|i: int, j: int| 0 <= i < j < after.len() implies #[trigger] after[i].id < #[trigger] after[j].id by {
                if j < before.len() {
                    assert(after[i] == before[i]);
                    assert(after[j] == before[j]);
                } else {
                    assert(after[i] == before[i]);
                }
            }
            assert forall|i: int, j: int| 0 <= i < after.len() && 0 <= j < self.type_handlers@.len() implies #[trigger] after[i].id
                != #[trigger] self.type_handlers@[j].id by {
                if i < before.len() {
                    assert(after[i] == before[i]);
                }
            }
            assert forall|i: int| 0 <= i < after.len() implies 1 <= #[trigger] after[i].id < self.next_handler_id by {
                if i < before.len() {
                    assert(after[i] == before[i]);
                }
            }
        }
        let mut v: Vec<NamedHandler<H>> = Vec::new();
        std::mem::swap(&mut v, &mut self.handlers);
        v.push(entry);
        self.handlers = v;
        id
    }

    /// Register a handler for events of type `T`; answers its identifier.
    pub fn register_type_handler<T: ?Sized + 'static>(&mut self, handler: H) -> (r: EventId)
        requires
            old(self)@.next_handler_id < u64::MAX,
        ensures
            r >= 1,
            r == old(self)@.next_handler_id,
            final(self)@.next_handler_id == r + 1,
            final(self)@.type_handlers == old(self)@.type_handlers.push(TypedHandler { type_id: final(self)@.type_handlers.last().type_id, id: r, handler }),
            final(self)@.handlers == old(self)@.handlers,
            final(self)@.queue == old(self)@.queue,
            forall|k: int| 0 <= k < old(self)@.handlers.len() ==> #[trigger] old(self)@.handlers[k].id < r,
            forall|k: int| 0 <= k < old(self)@.type_handlers.len() ==> #[trigger] old(self)@.type_handlers[k].id < r,
    {
        proof {
            use_type_invariant(&*self);
        }
        let id = self.next_handler_id;
        self.next_handler_id = self.next_handler_id + 1;
        let type_id = type_id_of::<T>();
        let ghost before = self.type_handlers@;
        let entry = TypedHandler { type_id, id, handler };
        proof {
            let after = before.push(entry);
            assert forall|i: int, j: int| 0 <= i < j < after.len() implies #[trigger] after[i].id < #[trigger] after[j].id by {
                if j < before.len() {
                    assert(after[i] == before[i]);
                    assert(after[j] == before[j]);
                } else {
                    assert(after[i] == before[i]);
                }
            }
            assert forall|i: int, j: int| 0 <= i < self.handlers@.len() && 0 <= j < after.len() implies #[trigger] self.handlers@[i].id
                != #[trigger] after[j].id by {
                if j < before.len() {
                    assert(after[j] == before[j]);
                }
            }
            assert forall|i: int| 0 <= i < after.len() implies 1 <= #[trigger] after[i].id < self.next_handler_id by {
                if i < before.len() {
                    assert(after[i] == before[i]);
                }
            }
        }
        let mut v: Vec<TypedHandler<H>> = Vec::new();
        std::mem::swap(&mut v, &mut self.type_handlers);
        v.push(entry);
        self.type_handlers = v;
        id
    }

    /// Remove the handler with identifier `id`, by name or by type; answers
    /// whether there was one.
    pub fn unregister_handler(&mut self, id: EventId) -> (r: bool)
        ensures
            final(self)@.handlers == named_without(old(self)@.handlers, id),
            final(self)@.type_handlers == typed_without(old(self)@.type_handlers, id),
            final(self)@.next_handler_id == old(self)@.next_handler_id,
            final(self)@.queue == old(self)@.queue,
            r == ((exists|k: int| 0 <= k < old(self)@.handlers.len() && #[trigger] old(self)@.handlers[k].id == id)
                || (exists|k: int| 0 <= k < old(self)@.type_handlers.len() && #[trigger] old(self)@.type_handlers[k].id == id)),
            r ==> final(self)@.handlers.len() + final(self)@.type_handlers.len() + 1 == old(self)@.handlers.len()
                + old(self)@.type_handlers.len(),
            !r ==> final(self)@.handlers == old(self)@.handlers && final(self)@.type_handlers == old(self)@.type_handlers,
    {
        proof {
            use_type_invariant(&*self);
            lemma_unregister_keeps_fresh(self.handlers@, self.type_handlers@, self.next_handler_id, id);
        }
        let mut found = false;
        let mut kept: Vec<NamedHandler<H>> = Vec::new();
        let ghost all = self.handlers@;
        let mut old_handlers: Vec<NamedHandler<H>> = Vec::new();
        std::mem::swap(&mut old_handlers, &mut self.handlers);
        let mut rest = old_handlers;
        let mut taken: Vec<NamedHandler<H>> = Vec::new();
        let ghost n = all.len();
        proof {
            assert(all.take(0) =~= Seq::<NamedHandler<H>>::empty());
        }
        while rest.len() > 0
            invariant
                rest@ =~= all.skip(n - rest@.len()),
                rest@.len() <= n,
                n == all.len(),
                kept@ == named_without(all.take(n - rest@.len()), id),
                found == exists|k: int| 0 <= k < n - rest@.len() && #[trigger] all[k].id == id,
            decreases rest.len(),
        {
            let ghost i = n - rest@.len();
            let h = rest.remove(0);
            proof {
                assert(all.take(i + 1).drop_last() =~= all.take(i));
                assert(all.take(i + 1).last() == h);
                assert(rest@ =~= all.skip(i + 1));
            }
            if h.id == id {
                found = true;
            } else {
                kept.push(h);
            }
        }
        proof {
            assert(all.take(n as int) =~= all);
        }
        self.handlers = kept;
        let ghost tall = self.type_handlers@;
        let mut old_typed: Vec<TypedHandler<H>> = Vec::new();
        std::mem::swap(&mut old_typed, &mut self.type_handlers);
        let mut trest = old_typed;
        let mut tkept: Vec<TypedHandler<H>> = Vec::new();
        let ghost m = tall.len();
        let mut tfound = false;
        while trest.len() > 0
            invariant
                trest@ =~= tall.skip(m - trest@.len()),
                trest@.len() <= m,
                m == tall.len(),
                tkept@ == typed_without(tall.take(m - trest@.len()), id),
                tfound == exists|k: int| 0 <= k < m - trest@.len() && #[trigger] tall[k].id == id,
                found == exists|k: int| 0 <= k < all.len() && #[trigger] all[k].id == id,
            decreases trest.len(),
        {
            let ghost i = m - trest@.len();
            let h = trest.remove(0);
            proof {
                assert(tall.take(i + 1).drop_last() =~= tall.take(i));
                assert(tall.take(i + 1).last() == h);
                assert(trest@ =~= tall.skip(i + 1));
            }
            if h.id == id {
                tfound = true;
            } else {
                tkept.push(h);
            }
        }
        proof {
            assert(tall.take(m as int) =~= tall);
        }
        self.type_handlers = tkept;
        proof {
            let oh = old(self)@.handlers;
            let ot = old(self)@.type_handlers;
            assert(all == oh);
            assert(tall == ot);
            if exists|k: int| 0 <= k < oh.len() && #[trigger] oh[k].id == id {
                let k = choose|k: int| 0 <= k < oh.len() && #[trigger] oh[k].id == id;
                assert(all[k].id == id);
            }
            if exists|k: int| 0 <= k < ot.len() && #[trigger] ot[k].id == id {
                let k = choose|k: int| 0 <= k < ot.len() && #[trigger] ot[k].id == id;
                assert(tall[k].id == id);
            }
        }
        found || tfound
    }

    /// The handlers to run for an event, in order: those registered for its
    /// name, then those registered for its type.
    pub fn handlers_for(&self, event_name: &str, type_id: &std::any::TypeId) -> (r: (Vec<&H>, Vec<&H>))
        ensures
            r.0@.map_values(|h: &H| *h) == named_for(self@.handlers, event_name@),
            r.1@.map_values(|h: &H| *h) == typed_for(self@.type_handlers, *type_id),
    {
        let key = event_name.to_owned();
        let mut by_name: Vec<&H> = Vec::new();
        let mut i: usize = 0;
        while i < self.handlers.len()
            invariant
                i <= self.handlers@.len(),
                key@ == event_name@,
                by_name@.map_values(|h: &H| *h) == named_for(self.handlers@.take(i as int), event_name@),
            decreases self.handlers.len() - i,
        {
            proof {
                assert(self.handlers@.take(i + 1).drop_last() =~= self.handlers@.take(i as int));
            }
            let ghost before = by_name@;
            if self.handlers[i].event_name == key {
                by_name.push(&self.handlers[i].handler);
                assert(by_name@.map_values(|h: &H| *h) =~= before.map_values(|h: &H| *h).push(self.handlers@[i as int].handler));
            }
            i = i + 1;
        }
        assert(self.handlers@.take(self.handlers@.len() as int) =~= self.handlers@);
        let mut by_type: Vec<&H> = Vec::new();
        let mut j: usize = 0;
        while j < self.type_handlers.len()
            invariant
                j <= self.type_handlers@.len(),
                by_type@.map_values(|h: &H| *h) == typed_for(self.type_handlers@.take(j as int), *type_id),
            decreases self.type_handlers.len() - j,
        {
            proof {
                assert(self.type_handlers@.take(j + 1).drop_last() =~= self.type_handlers@.take(j as int));
            }
            let ghost before = by_type@;
            if same_type_id(&self.type_handlers[j].type_id, type_id) {
                by_type.push(&self.type_handlers[j].handler);
                assert(by_type@.map_values(|h: &H| *h) =~= before.map_values(|h: &H| *h).push(self.type_handlers@[j as int].handler));
            }
            j = j + 1;
        }
        assert(self.type_handlers@.take(self.type_handlers@.len() as int) =~= self.type_handlers@);
        (by_name, by_type)
    }

    /// Add an event at the end of the queue.
    pub fn queue_event(&mut self, event: E)
        ensures
            final(self)@.queue == old(self)@.queue.push(event),
            final(self)@.handlers == old(self)@.handlers,
            final(self)@.type_handlers == old(self)@.type_handlers,
            final(self)@.next_handler_id == old(self)@.next_handler_id,
    {
        proof {
            use_type_invariant(&*self);
        }
        let mut q: Vec<E> = Vec::new();
        std::mem::swap(&mut q, &mut self.event_queue);
        q.push(event);
        self.event_queue = q;
    }

    /// Take the oldest queued event, if any.
    pub fn pop_event(&mut self) -> (r: Option<E>)
        ensures
            old(self)@.queue.len() == 0 ==> r is None && final(self)@.queue == old(self)@.queue,
            old(self)@.queue.len() > 0 ==> r == Some(old(self)@.queue[0]) && final(self)@.queue == old(self)@.queue.drop_first(),
            final(self)@.handlers == old(self)@.handlers,
            final(self)@.type_handlers == old(self)@.type_handlers,
            final(self)@.next_handler_id == old(self)@.next_handler_id,
    {
        proof {
            use_type_invariant(&*self);
        }
        if self.event_queue.len() == 0 {
            None
        } else {
            let mut q: Vec<E> = Vec::new();
            std::mem::swap(&mut q, &mut self.event_queue);
            let e = q.remove(0);
            assert(q@ =~= old(self)@.queue.drop_first());
            self.event_queue = q;
            Some(e)
        }
    }

    /// The number of queued events.
    pub fn queue_size(&self) -> (r: usize)
        ensures
            r == self@.queue.len(),
    {
        self.event_queue.len()
    }
}

/// Law: a handler, once unregistered, is no longer among the handlers, and
/// the other handlers keep their order.
pub proof fn lemma_unregistered_gone<H>(s: Seq<NamedHandler<H>>, id: EventId)
    ensures
        forall|k: int| 0 <= k < named_without(s, id).len() ==> #[trigger] named_without(s, id)[k].id != id,
        named_without(s, id).len() <= s.len(),
        (forall|k: int| 0 <= k < s.len() ==> #[trigger] s[k].id != id) ==> named_without(s, id) == s,
    decreases s.len(),
{
    if s.len() > 0 {
        lemma_unregistered_gone(s.drop_last(), id);
        if (forall|k: int| 0 <= k < s.len() ==> #[trigger] s[k].id != id) {
            assert(forall|k: int| 0 <= k < s.drop_last().len() ==> #[trigger] s.drop_last()[k].id != id) by {
                assert forall|k: int| 0 <= k < s.drop_last().len() implies #[trigger] s.drop_last()[k].id != id by {
                    assert(s.drop_last()[k] == s[k]);
                }
            }
            assert(s.drop_last().push(s.last()) =~= s);
        }
    }
}

/// Law: registering a typed handler adds it after the handlers found
/// before for its own type, and leaves those of every other type as they
/// were.
pub proof fn lemma_typed_for_push<H>(s: Seq<TypedHandler<H>>, h: TypedHandler<H>, t: std::any::TypeId)
    ensures
        typed_for(s.push(h), h.type_id) == typed_for(s, h.type_id).push(h.handler),
        t != h.type_id ==> typed_for(s.push(h), t) == typed_for(s, t),
        typed_for(s.push(h), h.type_id).len() == typed_for(s, h.type_id).len() + 1,
{
    assert(s.push(h).drop_last() =~= s);
}

/// Law: the typed handlers found for a type in two runs of registrations
/// are those of the first run followed by those of the second.
pub proof fn lemma_typed_for_concat<H>(s: Seq<TypedHandler<H>>, u: Seq<TypedHandler<H>>, t: std::any::TypeId)
    ensures
        typed_for(s + u, t) == typed_for(s, t) + typed_for(u, t),
    decreases u.len(),
{
    if u.len() == 0 {
        assert(s + u =~= s);
        assert(typed_for(s, t) + typed_for(u, t) =~= typed_for(s, t));
    } else {
        lemma_typed_for_concat(s, u.drop_last(), t);
        assert((s + u).drop_last() =~= s + u.drop_last());
        assert((s + u).last() == u.last());
        if u.last().type_id == t {
            assert(typed_for(s, t) + typed_for(u, t) =~= (typed_for(s, t) + typed_for(u.drop_last(), t)).push(u.last().handler));
        }
    }
}

/// Law: when every typed handler is registered for one type, all of them
/// are found for it, in registration order; none is found for another type.
pub proof fn lemma_typed_for_all<H>(s: Seq<TypedHandler<H>>, t: std::any::TypeId, other: std::any::TypeId)
    requires
        forall|k: int| 0 <= k < s.len() ==> (#[trigger] s[k]).type_id == t,
    ensures
        typed_for(s, t) == s.map_values(|h: TypedHandler<H>| h.handler),
        other != t ==> typed_for(s, other).len() == 0,
    decreases s.len(),
{
    if s.len() > 0 {
        lemma_typed_for_all(s.drop_last(), t, other);
        assert(s.last() == s[s.len() - 1]);
        assert(s.map_values(|h: TypedHandler<H>| h.handler) =~= s.drop_last().map_values(|h: TypedHandler<H>| h.handler).push(
            s.last().handler,
        ));
    } else {
        assert(s.map_values(|h: TypedHandler<H>| h.handler) =~= Seq::<H>::empty());
    }
}

/// Law: registering a named handler adds it after the handlers found
/// before for its own name, and leaves those of every other name as they
/// were.
pub proof fn lemma_named_for_push<H>(s: Seq<NamedHandler<H>>, h: NamedHandler<H>, name: Seq<char>)
    ensures
        named_for(s.push(h), h.event_name@) == named_for(s, h.event_name@).push(h.handler),
        name != h.event_name@ ==> named_for(s.push(h), name) == named_for(s, name),
{
    assert(s.push(h).drop_last() =~= s);
}

/// Law: when every named handler is registered for one name, all of them
/// are found for it, in registration order.
pub proof fn lemma_named_for_all<H>(s: Seq<NamedHandler<H>>, name: Seq<char>)
    requires
        forall|k: int| 0 <= k < s.len() ==> (#[trigger] s[k]).event_name@ == name,
    ensures
        named_for(s, name) == s.map_values(|h: NamedHandler<H>| h.handler),
    decreases s.len(),
{
    if s.len() > 0 {
        lemma_named_for_all(s.drop_last(), name);
        assert(s.last() == s[s.len() - 1]);
        assert(s.map_values(|h: NamedHandler<H>| h.handler) =~= s.drop_last().map_values(|h: NamedHandler<H>| h.handler).push(
            s.last().handler,
        ));
    } else {
        assert(s.map_values(|h: NamedHandler<H>| h.handler) =~= Seq::<H>::empty());
    }
}

} // verus!
