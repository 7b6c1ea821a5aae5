//! The building blocks of the world: component records, entities, resources
//! and systems.

use vstd::prelude::*;

verus! {

/// Identifies one kind of component out of the fixed set known at build time.
/// It is the index of that kind's array in the registry.
pub type ComponentType = usize;

/// Marks the types whose values can be stored in the registry as components.
pub trait Component {}

/// A singleton service of the world that belongs to no entity, such as an
/// input snapshot or a render context.
pub trait Resource {
    /// The kind of this resource: the reserved component-type slot that every
    /// system touching the resource declares in its footprint. An
    /// implementation states it; where it states nothing, the kind is some
    /// fixed value that is not known.
    open spec fn kind_of(&self) -> ComponentType {
        arbitrary()
    }

    /// Returns the kind of this resource.
    fn kind(&self) -> (k: ComponentType)
        ensures
            k == self.kind_of(),
    ;
}

/// One component value together with the identifier of the entity that owns
/// it and the component type it is stored under.
pub struct ComponentStruct<C> {
    pub component: C,
    pub owner: u32,
    pub component_type: ComponentType,
}

/// The component registry: one growable array of records per component type,
/// indexed by the type.
pub type Registry<C> = Vec<Vec<ComponentStruct<C>>>;

/// An entity's reference to one of its records in the registry: the array the
/// record is stored in and its position there.
#[derive(Clone, Copy, Debug, PartialEq, Eq, Structural)]
pub struct ComponentRef {
    pub component_type: ComponentType,
    pub slot: usize,
}

/// A named handle that owns a list of component references, in the order the
/// components were added.
pub struct Entity {
    pub id: u32,
    pub name: String,
    pub components: Vec<ComponentRef>,
}

/// The phase a system is registered into.
#[derive(Clone, Copy, Debug, PartialEq, Eq, Structural)]
pub enum SystemType {
    Init,
    Update,
    FixedUpdate,
}

/// A unit of per-tick logic. `args` is the declared footprint: every component
/// type (or reserved resource slot) the unit reads or writes during one
/// invocation. `system` is the invocable itself, which the host calls; the
/// scheduler only carries it.
pub struct System<S> {
    pub args: Vec<ComponentType>,
    pub system: S,
}

impl Entity {
    /// The entity owns a component of type `t`.
    pub open spec fn has_component(&self, t: ComponentType) -> bool {
        exists|p: int|
            0 <= p < self.components@.len() && (#[trigger] self.components@[p]).component_type == t
    }

    /// Position `p` holds the first reference of type `t` in the entity's list.
    pub open spec fn is_first_of_type(&self, t: ComponentType, p: int) -> bool {
        &&& 0 <= p < self.components@.len()
        &&& self.components@[p].component_type == t
        &&& forall|q: int| 0 <= q < p ==> (#[trigger] self.components@[q]).component_type != t
    }

    /// The first reference of type `t` in the entity's list, if there is one.
    pub open spec fn first_ref(&self, t: ComponentType) -> Option<ComponentRef> {
        if exists|p: int| self.is_first_of_type(t, p) {
            Some(self.components@[choose|p: int| self.is_first_of_type(t, p)])
        } else {
            None
        }
    }

    /// Every reference of the entity points at a record of the registry.
    pub open spec fn refers_into<C>(&self, registry: Seq<Vec<ComponentStruct<C>>>) -> bool {
        forall|p: int|
            0 <= p < self.components@.len() ==> points_into(#[trigger] self.components@[p], registry)
    }

    /// The component of type `t` that a lookup on this entity yields: the value
    /// of the record behind the first reference of that type. A reference that
    /// points at no record of the registry yields nothing.
    pub open spec fn component_of<C>(
        &self,
        registry: Seq<Vec<ComponentStruct<C>>>,
        t: ComponentType,
    ) -> Option<C> {
        match self.first_ref(t) {
            Some(r) => if points_into(r, registry) {
                Some(registry[r.component_type as int]@[r.slot as int].component)
            } else {
                None
            },
            None => None,
        }
    }

    /// Creates an entity without components.
    pub fn new(id: u32, name: String) -> (entity: Entity)
        ensures
            entity.id == id,
            entity.name == name,
            entity.components@ == Seq::<ComponentRef>::empty(),
    {
        Entity { id, name, components: Vec::new() }
    }

    /// Stores `component` under `component_type`: the record is appended to
    /// the registry's array for that type, and a reference to it to the
    /// entity's own list. Adding a second component of a type is accepted;
    /// lookups keep returning the first.
    pub fn add_component<C: Component>(
        &mut self,
        registry: &mut Registry<C>,
        component: C,
        component_type: ComponentType,
    )
        requires
            component_type < old(registry)@.len(),
        ensures
            component_added(
                *old(self),
                old(registry)@,
                *final(self),
                final(registry)@,
                component,
                component_type,
            ),
    {
        let slot = registry[component_type].len();
        registry[component_type].push(ComponentStruct { component, owner: self.id, component_type });
        self.components.push(ComponentRef { component_type, slot });
        assert(self.components@.drop_last() =~= old(self).components@);
    }

    /// Looks up the entity's component of type `component_type`: the first one
    /// in the order they were added, or nothing if the entity has none (or its
    /// reference points at no record of this registry).
    pub fn get_component<'a, C: Component>(
        &self,
        registry: &'a Registry<C>,
        component_type: ComponentType,
    ) -> (found: Option<&'a C>)
        ensures
            match found {
                Some(c) => self.component_of(registry@, component_type) == Some(*c),
                None => self.component_of(registry@, component_type).is_none(),
            },
    {
        match self.find_component(component_type) {
            Some(r) => {
                if r.component_type < registry.len() && r.slot < registry[r.component_type].len() {
                    Some(&registry[r.component_type][r.slot].component)
                } else {
                    None
                }
            },
            None => None,
        }
    }

    /// The position of the entity's first reference of type `component_type`.
    pub fn find_component(&self, component_type: ComponentType) -> (found: Option<ComponentRef>)
        ensures
            found == self.first_ref(component_type),
    {
        let mut p: usize = 0;
        while p < self.components.len()
            invariant
                p <= self.components@.len(),
                forall|q: int| 0 <= q < p ==> (#[trigger] self.components@[q]).component_type
                    != component_type,
            decreases self.components@.len() - p,
        {
            let r = self.components[p];
            if r.component_type == component_type {
                proof {
                    assert(self.is_first_of_type(component_type, p as int));
                    let w = choose|w: int| self.is_first_of_type(component_type, w);
                    assert(w == p);
                }
                return Some(r);
            }
            p += 1;
        }
        None
    }

    /// Looks up the entity's component of type `component_type` for writing:
    /// the first one in the order they were added, or nothing if the entity
    /// has none. Whatever the caller writes through the handle replaces the
    /// value of that one record; every other record stays as it is.
    pub fn get_component_mut<'a, C: Component>(
        &self,
        registry: &'a mut Registry<C>,
        component_type: ComponentType,
    ) -> (found: Option<&'a mut C>)
        ensures
            match found {
                Some(c) => {
                    &&& self.component_of(old(registry)@, component_type) == Some(*c)
                    &&& record_replaced(
                        old(registry)@,
                        final(registry)@,
                        self.first_ref(component_type).unwrap(),
                        *final(c),
                    )
                },
                None => {
                    &&& self.component_of(old(registry)@, component_type).is_none()
                    &&& final(registry)@ == old(registry)@
                },
            },
    {
        match self.find_component(component_type) {
            Some(r) => {
                if r.component_type < registry.len() && r.slot < registry[r.component_type].len() {
                    Some(&mut registry[r.component_type][r.slot].component)
                } else {
                    None
                }
            },
            None => None,
        }
    }
}

/// The reference `r` points at a record of the registry.
pub open spec fn points_into<C>(r: ComponentRef, registry: Seq<Vec<ComponentStruct<C>>>) -> bool {
    r.component_type < registry.len() && r.slot < registry[r.component_type as int]@.len()
}

/// What adding `component` under type `t` does to an entity and to the
/// registry: the record, owned by the entity, is appended to the array of type
/// `t`, a reference to it is appended to the entity's list, and everything else
/// is as before.
pub open spec fn component_added<C>(
    entity_before: Entity,
    before: Seq<Vec<ComponentStruct<C>>>,
    entity_after: Entity,
    after: Seq<Vec<ComponentStruct<C>>>,
    component: C,
    t: ComponentType,
) -> bool {
    &&& entity_after.id == entity_before.id
    &&& entity_after.name == entity_before.name
    &&& entity_after.components@.len() == entity_before.components@.len() + 1
    &&& entity_after.components@.drop_last() == entity_before.components@
    &&& entity_after.components@.last().component_type == t
    &&& entity_after.components@.last().slot == before[t as int]@.len()
    &&& after.len() == before.len()
    &&& after[t as int]@ == before[t as int]@.push(
        ComponentStruct { component, owner: entity_before.id, component_type: t },
    )
    &&& forall|u: int| 0 <= u < before.len() && u != t ==> #[trigger] after[u] == before[u]
}

/// A component added to an entity that had none of its type is the one a
/// lookup of that type returns afterwards.
pub proof fn lemma_added_component_is_found<C>(
    entity_before: Entity,
    before: Seq<Vec<ComponentStruct<C>>>,
    entity_after: Entity,
    after: Seq<Vec<ComponentStruct<C>>>,
    component: C,
    t: ComponentType,
)
    requires
        t < before.len(),
        !entity_before.has_component(t),
        component_added(entity_before, before, entity_after, after, component, t),
    ensures
        entity_after.component_of(after, t) == Some(component),
{
    let last = entity_before.components@.len() as int;
    assert forall|q: int| 0 <= q < last implies (#[trigger] entity_after.components@[q]).component_type
        != t by {
        assert(entity_after.components@[q] == entity_after.components@.drop_last()[q]);
    }
    assert(entity_after.is_first_of_type(t, last));
    let w = choose|w: int| entity_after.is_first_of_type(t, w);
    assert(w == last);
}

/// A lookup of a type the entity has no component of returns nothing.
pub proof fn lemma_absent_component_is_not_found<C>(
    entity: Entity,
    registry: Seq<Vec<ComponentStruct<C>>>,
    t: ComponentType,
)
    requires
        !entity.has_component(t),
    ensures
        entity.component_of(registry, t).is_none(),
{
}

/// Adding a component changes no lookup that already had an answer, and no
/// lookup of another type: a second component of a type shadows nothing.
pub proof fn lemma_added_component_shadows_nothing<C>(
    entity_before: Entity,
    before: Seq<Vec<ComponentStruct<C>>>,
    entity_after: Entity,
    after: Seq<Vec<ComponentStruct<C>>>,
    component: C,
    t: ComponentType,
    u: ComponentType,
)
    requires
        t < before.len(),
        entity_before.refers_into(before),
        component_added(entity_before, before, entity_after, after, component, t),
        u != t || entity_before.has_component(u),
    ensures
        entity_after.component_of(after, u) == entity_before.component_of(before, u),
        entity_after.refers_into(after),
{
    let refs = entity_before.components@;
    let grown = entity_after.components@;
    assert forall|p: int| 0 <= p < refs.len() implies #[trigger] grown[p] == refs[p] by {
        assert(grown[p] == grown.drop_last()[p]);
    }
    assert forall|p: int| 0 <= p < grown.len() implies points_into(#[trigger] grown[p], after) by {
        if p < refs.len() {
            assert(grown[p] == refs[p]);
        }
    }
    assert forall|p: int| entity_before.is_first_of_type(u, p) <==> entity_after.is_first_of_type(
        u,
        p,
    ) by {
        if entity_before.is_first_of_type(u, p) {
            assert(grown[p] == refs[p]);
            assert forall|q: int| 0 <= q < p implies (#[trigger] grown[q]).component_type != u by {
                assert(grown[q] == refs[q]);
            }
        }
        if entity_after.is_first_of_type(u, p) {
            if p == refs.len() {
                let w = choose|w: int|
                    0 <= w < refs.len() && (#[trigger] refs[w]).component_type == u;
                assert(grown[w] == refs[w]);
            }
            assert(grown[p] == refs[p]);
            assert forall|q: int| 0 <= q < p implies (#[trigger] refs[q]).component_type != u by {
                assert(grown[q] == refs[q]);
            }
        }
    }
    if exists|p: int| entity_before.is_first_of_type(u, p) {
        let w = choose|p: int| entity_before.is_first_of_type(u, p);
        assert(entity_after.is_first_of_type(u, w));
        let x = choose|p: int| entity_after.is_first_of_type(u, p);
        assert(x == w);
        assert(grown[w] == refs[w]);
        let r = refs[w];
        assert(r.slot < before[r.component_type as int]@.len());
    } else {
        assert forall|p: int| !entity_after.is_first_of_type(u, p) by {}
    }
}

/// The registry `after` is the registry `before` with the value of the record
/// behind `r` replaced by `value`; its owner, its type and every other record
/// are the same.
pub open spec fn record_replaced<C>(
    before: Seq<Vec<ComponentStruct<C>>>,
    after: Seq<Vec<ComponentStruct<C>>>,
    r: ComponentRef,
    value: C,
) -> bool {
    let t = r.component_type as int;
    let s = r.slot as int;
    &&& after.len() == before.len()
    &&& forall|u: int| 0 <= u < before.len() && u != t ==> #[trigger] after[u] == before[u]
    &&& after[t]@.len() == before[t]@.len()
    &&& forall|v: int| 0 <= v < before[t]@.len() && v != s ==> #[trigger] after[t]@[v] == before[t]@[v]
    &&& after[t]@[s].component == value
    &&& after[t]@[s].owner == before[t]@[s].owner
    &&& after[t]@[s].component_type == before[t]@[s].component_type
}

} // verus!
