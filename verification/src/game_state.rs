//! The world: the entity list, the component registry and the resource store.

use vstd::prelude::*;
use crate::ecs::{
    component_added, Component, ComponentStruct, ComponentType, Entity, Registry, Resource, System,
    SystemType,
};

verus! {

/// The number of component types, and so of arrays in the registry.
pub const COMPONENT_TYPES: usize = 6;

/// The single object handed to every system invocation. It owns the entities
/// (the index of an entity is its identifier), the component registry, the
/// resources, and the counter the next identifier is taken from. It also
/// collects the systems that running systems ask to have registered; the
/// scheduler takes them from there.
pub struct GameState<C, R, S> {
    pub entities: Vec<Entity>,
    pub components: Registry<C>,
    pub resources: Vec<R>,
    pub next_entity_id: u32,
    pub requested_systems: Vec<(System<S>, SystemType)>,
}

/// Position `p` holds the first resource of kind `kind`.
pub open spec fn is_first_of_kind<R: Resource>(
    resources: Seq<R>,
    kind: ComponentType,
    p: int,
) -> bool {
    &&& 0 <= p < resources.len()
    &&& resources[p].kind_of() == kind
    &&& forall|q: int| 0 <= q < p ==> (#[trigger] resources[q]).kind_of() != kind
}

/// The position of the first resource of kind `kind`, if there is one.
pub open spec fn first_of_kind<R: Resource>(resources: Seq<R>, kind: ComponentType) -> Option<int> {
    if exists|p: int| is_first_of_kind(resources, kind, p) {
        Some(choose|p: int| is_first_of_kind(resources, kind, p))
    } else {
        None
    }
}

impl<C: Component, R: Resource, S> GameState<C, R, S> {
    /// Identifiers are dense: the counter equals the number of entities and
    /// each entity's identifier is its index.
    pub open spec fn ids_dense(&self) -> bool {
        &&& self.next_entity_id == self.entities@.len()
        &&& forall|i: int| 0 <= i < self.entities@.len() ==> (#[trigger] self.entities@[i]).id == i
    }

    /// The two index paths agree: each reference of an entity points at a
    /// record of the registry that names this entity as owner, and each record
    /// is stored under its own type and owned by an entity of the world.
    pub open spec fn paths_agree(&self) -> bool {
        &&& forall|i: int, p: int|
            0 <= i < self.entities@.len() && 0 <= p < self.entities@[i].components@.len() ==> {
                let r = #[trigger] self.entities@[i].components@[p];
                &&& r.component_type < self.components@.len()
                &&& r.slot < self.components@[r.component_type as int]@.len()
                &&& self.components@[r.component_type as int]@[r.slot as int].owner
                    == self.entities@[i].id
            }
        &&& forall|t: int, s: int|
            0 <= t < self.components@.len() && 0 <= s < self.components@[t]@.len() ==> {
                let record = #[trigger] self.components@[t]@[s];
                record.component_type == t && record.owner < self.entities@.len()
            }
    }

    /// The world is well formed.
    pub open spec fn wf(&self) -> bool {
        &&& self.components@.len() == COMPONENT_TYPES
        &&& self.ids_dense()
        &&& self.paths_agree()
    }

    /// Creates a world without entities or resources, with one empty array per
    /// component type.
    pub fn new() -> (world: Self)
        ensures
            world.wf(),
            world.entities@.len() == 0,
            world.resources@.len() == 0,
            world.next_entity_id == 0,
            world.requested_systems@.len() == 0,
            world.components@.len() == COMPONENT_TYPES,
            forall|t: int| 0 <= t < COMPONENT_TYPES ==> (#[trigger] world.components@[t])@.len() == 0,
    {
        let mut components: Registry<C> = Vec::new();
        let mut t: usize = 0;
        while t < COMPONENT_TYPES
            invariant
                t <= COMPONENT_TYPES,
                components@.len() == t,
                forall|u: int| 0 <= u < t ==> (#[trigger] components@[u])@.len() == 0,
            decreases COMPONENT_TYPES - t,
        {
            components.push(Vec::new());
            t += 1;
        }
        GameState {
            entities: Vec::new(),
            components,
            resources: Vec::new(),
            next_entity_id: 0,
            requested_systems: Vec::new(),
        }
    }

    /// Allocates the next identifier, stores an entity of that identifier and
    /// name without components, and hands out the stored entity.
    pub fn create_entity(&mut self, name: String) -> (entity: &mut Entity)
        requires
            old(self).next_entity_id < u32::MAX,
        ensures
            entity.id == old(self).next_entity_id,
            entity.name == name,
            entity.components@ == Seq::<crate::ecs::ComponentRef>::empty(),
            final(self).entities@ == old(self).entities@.push(*final(entity)),
            final(self).next_entity_id == old(self).next_entity_id + 1,
            final(self).components == old(self).components,
            final(self).resources == old(self).resources,
            final(self).requested_systems == old(self).requested_systems,
    {
        let entity = Entity::new(self.next_entity_id, name);
        self.entities.push(entity);
        self.next_entity_id += 1;
        let last = self.entities.len() - 1;
        &mut self.entities[last]
    }

    /// The entity of identifier `id`, or nothing if no such entity exists.
    pub fn get_entity(&self, id: usize) -> (found: Option<&Entity>)
        ensures
            id < self.entities@.len() ==> found == Some(&self.entities@[id as int]),
            id >= self.entities@.len() ==> found.is_none(),
    {
        if id >= self.entities.len() {
            return None;
        }
        Some(&self.entities[id])
    }

    /// The entity of identifier `id` for writing, or nothing if no such entity
    /// exists. What the caller writes through the handle replaces that entity;
    /// the rest of the world stays as it is.
    pub fn get_entity_mut(&mut self, id: usize) -> (found: Option<&mut Entity>)
        ensures
            final(self).components == old(self).components,
            final(self).resources == old(self).resources,
            final(self).requested_systems == old(self).requested_systems,
            final(self).next_entity_id == old(self).next_entity_id,
            match found {
                Some(entity) => {
                    &&& id < old(self).entities@.len()
                    &&& *entity == old(self).entities@[id as int]
                    &&& final(self).entities@ == old(self).entities@.update(id as int, *final(entity))
                },
                None => id >= old(self).entities@.len() && final(self).entities@ == old(
                    self,
                ).entities@,
            },
    {
        if id >= self.entities.len() {
            return None;
        }
        Some(&mut self.entities[id])
    }

    /// Stores `component` under `component_type` for the entity `id`: see
    /// `Entity::add_component`. A well-formed world stays well formed.
    pub fn add_component(&mut self, id: usize, component: C, component_type: ComponentType)
        requires
            id < old(self).entities@.len(),
            component_type < old(self).components@.len(),
        ensures
            final(self).entities@ == old(self).entities@.update(
                id as int,
                final(self).entities@[id as int],
            ),
            component_added(
                old(self).entities@[id as int],
                old(self).components@,
                final(self).entities@[id as int],
                final(self).components@,
                component,
                component_type,
            ),
            final(self).resources == old(self).resources,
            final(self).requested_systems == old(self).requested_systems,
            final(self).next_entity_id == old(self).next_entity_id,
            old(self).wf() ==> final(self).wf(),
    {
        self.entities[id].add_component(&mut self.components, component, component_type);
        proof {
            if old(self).wf() {
                let before = old(self);
                let grown = self.entities@[id as int].components@;
                assert forall|i: int, p: int|
                    0 <= i < self.entities@.len() && 0 <= p < self.entities@[i].components@.len() implies {
                    let r = #[trigger] self.entities@[i].components@[p];
                    &&& r.component_type < self.components@.len()
                    &&& r.slot < self.components@[r.component_type as int]@.len()
                    &&& self.components@[r.component_type as int]@[r.slot as int].owner
                        == self.entities@[i].id
                } by {
                    if i == id && p == grown.len() - 1 {
                    } else {
                        if i == id {
                            assert(grown[p] == grown.drop_last()[p]);
                        }
                        let r = before.entities@[i].components@[p];
                        assert(self.entities@[i].components@[p] == r);
                        if r.component_type != component_type {
                            assert(self.components@[r.component_type as int]
                                == before.components@[r.component_type as int]);
                        }
                    }
                }
                assert forall|t: int, s: int|
                    0 <= t < self.components@.len() && 0 <= s < self.components@[t]@.len() implies {
                    let record = #[trigger] self.components@[t]@[s];
                    record.component_type == t && record.owner < self.entities@.len()
                } by {
                    if t != component_type {
                        assert(self.components@[t] == before.components@[t]);
                        assert(self.components@[t]@[s] == before.components@[t]@[s]);
                    } else if s < before.components@[t]@.len() {
                        assert(self.components@[t]@[s] == before.components@[t]@[s]);
                    } else {
                        assert(before.entities@[id as int].id == id);
                    }
                }
                assert(self.paths_agree());
            }
        }
    }

    /// All records of type `component_type`, in the order they were added.
    pub fn get_components(&self, component_type: ComponentType) -> (records: &Vec<
        ComponentStruct<C>,
    >)
        requires
            component_type < self.components@.len(),
        ensures
            *records == self.components@[component_type as int],
    {
        &self.components[component_type]
    }

    /// The identifiers of the entities that own a component of type
    /// `component_type`: the owner of each record of that type, in the order
    /// the records were added.
    pub fn get_entities_with(&self, component_type: ComponentType) -> (owners: Vec<u32>)
        requires
            component_type < self.components@.len(),
        ensures
            owners@.len() == self.components@[component_type as int]@.len(),
            forall|s: int|
                0 <= s < owners@.len() ==> #[trigger] owners@[s]
                    == self.components@[component_type as int]@[s].owner,
    {
        let records = &self.components[component_type];
        let mut owners: Vec<u32> = Vec::new();
        let mut s: usize = 0;
        while s < records.len()
            invariant
                s <= records@.len(),
                owners@.len() == s,
                forall|v: int| 0 <= v < s ==> #[trigger] owners@[v] == records@[v].owner,
            decreases records@.len() - s,
        {
            owners.push(records[s].owner);
            s += 1;
        }
        owners
    }

    /// Appends `resource` to the resource store. Uniqueness per kind is not
    /// enforced; lookups return the first resource of a kind.
    pub fn add_resource(&mut self, resource: R)
        ensures
            final(self).resources@ == old(self).resources@.push(resource),
            final(self).entities == old(self).entities,
            final(self).components == old(self).components,
            final(self).next_entity_id == old(self).next_entity_id,
            final(self).requested_systems == old(self).requested_systems,
    {
        self.resources.push(resource);
    }

    /// Asks for `system` to be registered into the phase `system_type`. A
    /// running system registers further systems this way: the request waits in
    /// the world until the scheduler takes it.
    pub fn request_system(&mut self, system: System<S>, system_type: SystemType)
        ensures
            final(self).requested_systems@ == old(self).requested_systems@.push(
                (system, system_type),
            ),
            final(self).entities == old(self).entities,
            final(self).components == old(self).components,
            final(self).resources == old(self).resources,
            final(self).next_entity_id == old(self).next_entity_id,
    {
        self.requested_systems.push((system, system_type));
    }

    /// The position of the first resource of kind `kind`.
    pub fn find_resource(&self, kind: ComponentType) -> (found: Option<usize>)
        ensures
            match found {
                Some(p) => first_of_kind(self.resources@, kind) == Some(p as int),
                None => first_of_kind(self.resources@, kind).is_none(),
            },
    {
        let mut p: usize = 0;
        while p < self.resources.len()
            invariant
                p <= self.resources@.len(),
                forall|q: int| 0 <= q < p ==> (#[trigger] self.resources@[q]).kind_of() != kind,
            decreases self.resources@.len() - p,
        {
            if self.resources[p].kind() == kind {
                proof {
                    assert(is_first_of_kind(self.resources@, kind, p as int));
                    let w = choose|w: int| is_first_of_kind(self.resources@, kind, w);
                    assert(w == p);
                }
                return Some(p);
            }
            p += 1;
        }
        None
    }

    /// The first resource of kind `kind`, or nothing if the store holds none.
    pub fn get_resource(&self, kind: ComponentType) -> (found: Option<&R>)
        ensures
            match found {
                Some(r) => {
                    &&& first_of_kind(self.resources@, kind).is_some()
                    &&& *r == self.resources@[first_of_kind(self.resources@, kind).unwrap()]
                },
                None => first_of_kind(self.resources@, kind).is_none(),
            },
    {
        match self.find_resource(kind) {
            Some(p) => Some(&self.resources[p]),
            None => None,
        }
    }

    /// The first resource of kind `kind` for writing, or nothing if the store
    /// holds none. What the caller writes through the handle replaces that
    /// resource; the rest of the world stays as it is.
    pub fn get_resource_mut(&mut self, kind: ComponentType) -> (found: Option<&mut R>)
        ensures
            final(self).entities == old(self).entities,
            final(self).components == old(self).components,
            final(self).next_entity_id == old(self).next_entity_id,
            final(self).requested_systems == old(self).requested_systems,
            match found {
                Some(r) => {
                    &&& first_of_kind(old(self).resources@, kind).is_some()
                    &&& *r == old(self).resources@[first_of_kind(old(self).resources@, kind).unwrap()]
                    &&& final(self).resources@ == old(self).resources@.update(
                        first_of_kind(old(self).resources@, kind).unwrap(),
                        *final(r),
                    )
                },
                None => {
                    &&& first_of_kind(old(self).resources@, kind).is_none()
                    &&& final(self).resources@ == old(self).resources@
                },
            },
    {
        match self.find_resource(kind) {
            Some(p) => Some(&mut self.resources[p]),
            None => None,
        }
    }
}

/// Storing a new entity that takes the next identifier and has no components
/// keeps a well-formed world well formed.
pub proof fn lemma_created_entity_keeps_world_well_formed<C: Component, R: Resource, S>(
    before: GameState<C, R, S>,
    after: GameState<C, R, S>,
    entity: Entity,
)
    requires
        before.wf(),
        entity.id == before.next_entity_id,
        entity.components@.len() == 0,
        after.entities@ == before.entities@.push(entity),
        after.next_entity_id == before.next_entity_id + 1,
        after.components == before.components,
    ensures
        after.wf(),
{
    assert forall|i: int, p: int|
        0 <= i < after.entities@.len() && 0 <= p < after.entities@[i].components@.len() implies {
        let r = #[trigger] after.entities@[i].components@[p];
        &&& r.component_type < after.components@.len()
        &&& r.slot < after.components@[r.component_type as int]@.len()
        &&& after.components@[r.component_type as int]@[r.slot as int].owner
            == after.entities@[i].id
    } by {
        assert(after.entities@[i] == before.entities@[i]);
        assert(before.entities@[i].components@[p] == after.entities@[i].components@[p]);
    }
}

} // verus!
