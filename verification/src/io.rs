//! Process-local descriptors and endpoint-neutral I/O messages.

use std::any::TypeId;
use std::collections::VecDeque;
use std::sync::Arc;

use bevy::ecs::entity::Entity;
use bevy::platform::collections::HashMap;
use bevy::platform::collections::HashSet;
use vstd::prelude::*;

use crate::ecs_types::entity_bits;
use crate::ecs_types::entity_key;
use crate::ecs_types::same_entity;
use crate::ecs_types::same_type;
use crate::ecs_types::share;

verus! {

/// `Some(m[k])` when `m` holds `k`, else `None`.
pub open spec fn lookup<K, V>(m: Map<K, V>, k: K) -> Option<V> {
    if m.contains_key(k) {
        Some(m[k])
    } else {
        None
    }
}

/// A process-local file descriptor number.
#[derive(Clone, Copy, Debug, PartialEq, Eq, Hash, PartialOrd, Ord)]
pub struct FileDescriptor(u16);

impl View for FileDescriptor {
    type V = u16;

    closed spec fn view(&self) -> u16 {
        self.0
    }
}

impl FileDescriptor {
    /// Standard input.
    pub fn stdin() -> (fd: FileDescriptor)
        ensures
            fd@ == 0,
    {
        FileDescriptor(0)
    }

    /// Standard output.
    pub fn stdout() -> (fd: FileDescriptor)
        ensures
            fd@ == 1,
    {
        FileDescriptor(1)
    }

    /// Standard error.
    pub fn stderr() -> (fd: FileDescriptor)
        ensures
            fd@ == 2,
    {
        FileDescriptor(2)
    }

    /// Creates a file descriptor from its process-local number.
    pub fn new(number: u16) -> (fd: FileDescriptor)
        ensures
            fd@ == number,
    {
        FileDescriptor(number)
    }

    /// Returns the process-local descriptor number.
    pub fn number(self) -> (number: u16)
        ensures
            number == self@,
    {
        self.0
    }

    /// Two descriptors are the same value exactly when their numbers agree.
    pub proof fn lemma_number_identifies(a: FileDescriptor, b: FileDescriptor)
        ensures
            (a@ == b@) == (a == b),
    {
    }
}

/// A runtime-typed reference to one registered I/O capability on an entity.
#[derive(Clone, Copy, Debug, PartialEq, Eq, Hash)]
pub struct IoHandle {
    entity: Entity,
    component: TypeId,
}

impl IoHandle {
    /// The endpoint entity this handle refers to.
    pub closed spec fn target(self) -> Entity {
        self.entity
    }

    /// The component type selected as the endpoint capability.
    pub closed spec fn capability(self) -> TypeId {
        self.component
    }

    /// Whether this handle selects `component` on `entity`.
    pub open spec fn selects(self, entity: Entity, component: TypeId) -> bool {
        self.target() == entity && self.capability() == component
    }

    /// Two handles are equal exactly when they select the same capability on
    /// the same entity.
    pub proof fn lemma_fields_identify(a: IoHandle, b: IoHandle)
        ensures
            (a.target() == b.target() && a.capability() == b.capability()) == (a == b),
    {
    }

    pub(crate) fn from_parts(entity: Entity, component: TypeId) -> (h: IoHandle)
        ensures
            h.target() == entity,
            h.capability() == component,
    {
        IoHandle { entity, component }
    }

    /// Returns the endpoint entity.
    pub fn entity(self) -> (e: Entity)
        ensures
            e == self.target(),
    {
        self.entity
    }

    /// Returns the component type selected as the endpoint capability.
    pub fn component_type_id(self) -> (c: TypeId)
        ensures
            c == self.capability(),
    {
        self.component
    }

    /// Whether the two handles are the same handle.
    pub fn same(self, other: IoHandle) -> (r: bool)
        ensures
            r == (self == other),
    {
        same_entity(self.entity, other.entity) && same_type(self.component, other.component)
    }

    /// Whether this handle does not select `component` on `entity`.
    pub fn is_apart_from(&self, entity: Entity, component: TypeId) -> (r: bool)
        ensures
            r == !self.selects(entity, component),
    {
        !(same_entity(self.entity, entity) && same_type(self.component, component))
    }
}

/// An error returned when an operation requires an open file descriptor.
#[derive(Clone, Copy, Debug, PartialEq, Eq)]
pub struct BadFd(pub FileDescriptor);

/// The ECS hash map from descriptor numbers to endpoints.
pub type DescriptorMap = HashMap<u16, IoHandle>;

/// What a descriptor map holds: descriptor numbers and their endpoints.
pub uninterp spec fn descriptor_entries(m: HashMap<u16, IoHandle>) -> Map<u16, IoHandle>;

/// Calls `HashMap::default`, which creates an empty map.
#[verifier::external_body]
fn descriptors_empty() -> (empty: DescriptorMap)
    ensures
        descriptor_entries(empty) =~= Map::empty(),
{
    HashMap::default()
}

/// Calls `HashMap::get`, which returns the value stored under `key`, if any.
#[verifier::external_body]
fn descriptors_get(m: &HashMap<u16, IoHandle>, key: u16) -> (r: Option<IoHandle>)
    ensures
        r == lookup(descriptor_entries(*m), key),
{
    m.get(&key).copied()
}

/// Calls `HashMap::insert`, which stores `value` under `key` and returns the
/// value that was stored there before, if any.
#[verifier::external_body]
fn descriptors_insert(m: &mut HashMap<u16, IoHandle>, key: u16, value: IoHandle) -> (r: Option<
    IoHandle,
>)
    ensures
        descriptor_entries(*final(m)) == descriptor_entries(*old(m)).insert(key, value),
        r == lookup(descriptor_entries(*old(m)), key),
{
    m.insert(key, value)
}

/// Calls `HashMap::remove`, which removes `key` and returns the value that was
/// stored there, if any.
#[verifier::external_body]
fn descriptors_remove(m: &mut HashMap<u16, IoHandle>, key: u16) -> (r: Option<IoHandle>)
    ensures
        descriptor_entries(*final(m)) == descriptor_entries(*old(m)).remove(key),
        r == lookup(descriptor_entries(*old(m)), key),
{
    m.remove(&key)
}

/// The descriptors of `m` whose endpoint is not the capability `component`
/// on `entity`.
pub open spec fn without_endpoint(m: Map<u16, IoHandle>, entity: Entity, component: TypeId) -> Map<
    u16,
    IoHandle,
> {
    Map::new(|k: u16| m.contains_key(k) && !m[k].selects(entity, component), |k: u16| m[k])
}

/// Calls `HashMap::retain`, which keeps exactly the entries for which the
/// predicate holds; the predicate is [`IoHandle::is_apart_from`].
#[verifier::external_body]
fn descriptors_retain_apart_from(
    m: &mut HashMap<u16, IoHandle>,
    entity: Entity,
    component: TypeId,
)
    ensures
        descriptor_entries(*final(m))
            == without_endpoint(descriptor_entries(*old(m)), entity, component),
{
    m.retain(|_, handle| handle.is_apart_from(entity, component))
}

/// Calls `HashMap::clone`, which copies every entry.
#[verifier::external_body]
fn descriptors_clone(m: &HashMap<u16, IoHandle>) -> (copy: DescriptorMap)
    ensures
        descriptor_entries(copy) == descriptor_entries(*m),
{
    m.clone()
}

/// The mutable file descriptor table for one process.
#[derive(Debug)]
pub struct ProcessFdTable {
    descriptors: HashMap<u16, IoHandle>,
}

impl View for ProcessFdTable {
    type V = Map<u16, IoHandle>;

    closed spec fn view(&self) -> Map<u16, IoHandle> {
        descriptor_entries(self.descriptors)
    }
}

impl Clone for ProcessFdTable {
    fn clone(&self) -> (copy: ProcessFdTable)
        ensures
            copy@ == self@,
    {
        ProcessFdTable { descriptors: descriptors_clone(&self.descriptors) }
    }
}

impl Default for ProcessFdTable {
    fn default() -> (table: ProcessFdTable)
        ensures
            table@ == Map::<u16, IoHandle>::empty(),
    {
        ProcessFdTable { descriptors: descriptors_empty() }
    }
}

impl ProcessFdTable {
    /// Returns the endpoint assigned to `fd`.
    pub fn get(&self, fd: FileDescriptor) -> (r: Option<IoHandle>)
        ensures
            r == lookup(self@, fd@),
    {
        descriptors_get(&self.descriptors, fd.number())
    }

    /// Assigns `handle` to `fd`, returning the previous endpoint if present.
    pub fn set(&mut self, fd: FileDescriptor, handle: IoHandle) -> (previous: Option<IoHandle>)
        ensures
            final(self)@ == old(self)@.insert(fd@, handle),
            previous == lookup(old(self)@, fd@),
    {
        descriptors_insert(&mut self.descriptors, fd.number(), handle)
    }

    /// Closes `fd`, returning its previous endpoint if present.
    pub fn close(&mut self, fd: FileDescriptor) -> (previous: Option<IoHandle>)
        ensures
            final(self)@ == old(self)@.remove(fd@),
            previous == lookup(old(self)@, fd@),
    {
        descriptors_remove(&mut self.descriptors, fd.number())
    }

    /// Assigns `to` to the same endpoint as `from`.
    pub fn duplicate(&mut self, from: FileDescriptor, to: FileDescriptor) -> (r: Result<(), BadFd>)
        ensures
            r is Ok <==> old(self)@.contains_key(from@),
            r is Ok ==> final(self)@ == old(self)@.insert(to@, old(self)@[from@]),
            r is Err ==> r == Err::<(), BadFd>(BadFd(from)) && final(self)@ == old(self)@,
    {
        match self.get(from) {
            Some(handle) => {
                self.set(to, handle);
                Ok(())
            },
            None => Err(BadFd(from)),
        }
    }

    /// Closes every descriptor that refers to the capability `component` on
    /// `entity`; other descriptors are unchanged.
    pub fn close_endpoint(&mut self, entity: Entity, component: TypeId)
        ensures
            final(self)@ == without_endpoint(old(self)@, entity, component),
    {
        descriptors_retain_apart_from(&mut self.descriptors, entity, component)
    }
}

} // verus!

verus! {

/// Message types that can travel through process descriptors.
pub trait IoMessage: Send + Sync + 'static {

}

impl IoMessage for Vec<u8> {

}

impl IoMessage for String {

}

/// Implemented by component types that make an entity I/O-capable: `Stdin`
/// is the message type the endpoint supplies, `Stdout` the one it accepts.
pub trait IoComponent {
    type Stdin;

    type Stdout;
}

/// The ECS hash set of capability types carried by one entity.
pub type CapabilitySet = HashSet<TypeId>;

/// What a capability set holds.
pub uninterp spec fn capability_entries(s: HashSet<TypeId>) -> Set<TypeId>;

/// Calls `HashSet::default`, which creates an empty set.
#[verifier::external_body]
fn capabilities_empty() -> (empty: CapabilitySet)
    ensures
        capability_entries(empty) =~= Set::empty(),
{
    HashSet::default()
}

/// Calls `HashSet::contains`, which reports whether `t` is in the set.
#[verifier::external_body]
fn capabilities_contains(s: &HashSet<TypeId>, t: TypeId) -> (r: bool)
    ensures
        r == capability_entries(*s).contains(t),
{
    s.contains(&t)
}

/// Calls `HashSet::insert`, which adds `t` and returns whether it was absent.
#[verifier::external_body]
fn capabilities_insert(s: &mut HashSet<TypeId>, t: TypeId) -> (added: bool)
    ensures
        capability_entries(*final(s)) == capability_entries(*old(s)).insert(t),
        added == !capability_entries(*old(s)).contains(t),
{
    s.insert(t)
}

/// Calls `HashSet::remove`, which removes `t` and returns whether it was
/// present.
#[verifier::external_body]
fn capabilities_remove(s: &mut HashSet<TypeId>, t: TypeId) -> (removed: bool)
    ensures
        capability_entries(*final(s)) == capability_entries(*old(s)).remove(t),
        removed == capability_entries(*old(s)).contains(t),
{
    s.remove(&t)
}

/// Registered endpoint component types currently present on an entity.
///
/// Each type identifies one adapter that can consume writes addressed to that
/// capability; an [`IoHandle`] selects exactly one such type on the entity.
#[derive(Debug)]
pub struct IoCapabilities {
    types: HashSet<TypeId>,
}

impl View for IoCapabilities {
    type V = Set<TypeId>;

    closed spec fn view(&self) -> Set<TypeId> {
        capability_entries(self.types)
    }
}

impl Default for IoCapabilities {
    fn default() -> (caps: IoCapabilities)
        ensures
            caps@ == Set::<TypeId>::empty(),
    {
        IoCapabilities::new()
    }
}

impl IoCapabilities {
    /// No capabilities.
    pub fn new() -> (caps: IoCapabilities)
        ensures
            caps@ == Set::<TypeId>::empty(),
    {
        IoCapabilities { types: capabilities_empty() }
    }

    /// Exactly the capability `component`.
    pub fn with(component: TypeId) -> (caps: IoCapabilities)
        ensures
            caps@ == Set::<TypeId>::empty().insert(component),
    {
        let mut caps = IoCapabilities::new();
        caps.insert(component);
        caps
    }

    /// Whether `component` is present.
    pub fn contains(&self, component: TypeId) -> (r: bool)
        ensures
            r == self@.contains(component),
    {
        capabilities_contains(&self.types, component)
    }

    /// Adds `component`; returns whether it was absent before.
    pub fn insert(&mut self, component: TypeId) -> (added: bool)
        ensures
            final(self)@ == old(self)@.insert(component),
            added == !old(self)@.contains(component),
    {
        capabilities_insert(&mut self.types, component)
    }

    /// Removes `component`; returns whether it was present before.
    pub fn remove(&mut self, component: TypeId) -> (removed: bool)
        ensures
            final(self)@ == old(self)@.remove(component),
            removed == old(self)@.contains(component),
    {
        capabilities_remove(&mut self.types, component)
    }
}

} // verus!

verus! {

/// The ECS hash map from registered component types to the message type
/// (the lane) that each accepts.
pub type LaneMap = HashMap<TypeId, TypeId>;

/// What a lane map holds.
pub uninterp spec fn lane_entries(m: HashMap<TypeId, TypeId>) -> Map<TypeId, TypeId>;

/// Calls `HashMap::default`, which creates an empty map.
#[verifier::external_body]
fn lanes_empty() -> (empty: LaneMap)
    ensures
        lane_entries(empty) =~= Map::empty(),
{
    HashMap::default()
}

/// Calls `HashMap::get`, which returns the value stored under `key`, if any.
#[verifier::external_body]
fn lanes_get(m: &HashMap<TypeId, TypeId>, key: TypeId) -> (r: Option<TypeId>)
    ensures
        r == lookup(lane_entries(*m), key),
{
    m.get(&key).copied()
}

/// Calls `HashMap::insert`, which stores `value` under `key` and returns the
/// value that was stored there before, if any.
#[verifier::external_body]
fn lanes_insert(m: &mut HashMap<TypeId, TypeId>, key: TypeId, value: TypeId) -> (r: Option<TypeId>)
    ensures
        lane_entries(*final(m)) == lane_entries(*old(m)).insert(key, value),
        r == lookup(lane_entries(*old(m)), key),
{
    m.insert(key, value)
}

/// Registered component types that may be selected by an [`IoHandle`], each
/// with the message type (its lane) that writes to it must carry.
#[derive(Debug)]
pub struct IoComponentCache {
    lanes: HashMap<TypeId, TypeId>,
}

impl View for IoComponentCache {
    /// Pairs of a registered component type and the lane it accepts.
    type V = Set<(TypeId, TypeId)>;

    closed spec fn view(&self) -> Set<(TypeId, TypeId)> {
        Set::new(
            |p: (TypeId, TypeId)|
                lane_entries(self.lanes).contains_key(p.0) && lane_entries(self.lanes)[p.0] == p.1,
        )
    }
}

impl Default for IoComponentCache {
    fn default() -> (cache: IoComponentCache)
        ensures
            cache@ == Set::<(TypeId, TypeId)>::empty(),
    {
        IoComponentCache::new()
    }
}

impl IoComponentCache {
    /// Whether `component` is registered, whatever its lane.
    pub open spec fn registers(self, component: TypeId) -> bool {
        exists|lane: TypeId| self@.contains((component, lane))
    }

    /// No registered component types.
    pub fn new() -> (cache: IoComponentCache)
        ensures
            cache@ == Set::<(TypeId, TypeId)>::empty(),
    {
        let cache = IoComponentCache { lanes: lanes_empty() };
        assert(cache@ =~= Set::<(TypeId, TypeId)>::empty());
        cache
    }

    /// The lane registered for `component`, if any.
    fn lane_of(&self, component: TypeId) -> (lane: Option<TypeId>)
        ensures
            lane is None ==> !self.registers(component),
            lane matches Some(l) ==> self@.contains((component, l)),
            lane matches Some(l) ==> forall|other: TypeId|
                #[trigger] self@.contains((component, other)) ==> other == l,
    {
        let lane = lanes_get(&self.lanes, component);
        proof {
            if lane is None {
                assert forall|l: TypeId| !self@.contains((component, l)) by {}
            }
        }
        lane
    }

    /// Whether `component` is registered.
    pub fn contains(&self, component: TypeId) -> (r: bool)
        ensures
            r == self.registers(component),
    {
        self.lane_of(component).is_some()
    }

    /// Registers `component` as accepting messages of type `lane`. Returns
    /// whether `component` was new; a component registered before keeps its
    /// first lane.
    pub fn register(&mut self, component: TypeId, lane: TypeId) -> (added: bool)
        ensures
            added == !old(self).registers(component),
            added ==> final(self)@ == old(self)@.insert((component, lane)),
            !added ==> final(self)@ == old(self)@,
    {
        if self.contains(component) {
            false
        } else {
            lanes_insert(&mut self.lanes, component, lane);
            proof {
                assert(!lane_entries(old(self).lanes).contains_key(component)) by {
                    if lane_entries(old(self).lanes).contains_key(component) {
                        assert(old(self)@.contains((component, lane_entries(old(self).lanes)[component])));
                    }
                }
                assert(self@ =~= old(self)@.insert((component, lane)));
            }
            true
        }
    }

    /// Creates a handle to `component` on `entity` when `component` is
    /// registered and `entity` currently carries it.
    pub fn handle(&self, component: TypeId, entity: Entity, carried: bool) -> (h: Option<IoHandle>)
        ensures
            h is Some <==> (self.registers(component) && carried),
            h matches Some(h) ==> h.target() == entity && h.capability() == component,
    {
        if carried && self.contains(component) {
            Some(IoHandle::from_parts(entity, component))
        } else {
            None
        }
    }

    /// Whether `endpoint` names a registered capability that its entity
    /// carries, given the entity's `capabilities` (if it has any).
    pub open spec fn opens(self, endpoint: IoHandle, capabilities: Option<&IoCapabilities>) -> bool {
        self.registers(endpoint.capability()) && match capabilities {
            Some(caps) => caps@.contains(endpoint.capability()),
            None => false,
        }
    }

    /// Whether `endpoint` names a registered capability that its entity
    /// currently carries; `capabilities` are the endpoint entity's, if it has any.
    pub fn is_open(&self, endpoint: IoHandle, capabilities: Option<&IoCapabilities>) -> (r: bool)
        ensures
            r == self.opens(endpoint, capabilities),
    {
        let component = endpoint.component_type_id();
        match capabilities {
            Some(caps) => self.contains(component) && caps.contains(component),
            None => false,
        }
    }

    /// Whether `endpoint`'s capability accepts messages of type `lane`.
    pub fn accepts(&self, endpoint: IoHandle, lane: TypeId) -> (r: bool)
        ensures
            r == self@.contains((endpoint.capability(), lane)),
    {
        match self.lane_of(endpoint.component_type_id()) {
            Some(l) => {
                same_type(l, lane)
            },
            None => false,
        }
    }
}

} // verus!

verus! {

/// The ECS hash map from process entities (by [`entity_bits`]) to the
/// descriptor tables they held when their process ended.
pub type ClosingMap = HashMap<u64, ProcessFdTable>;

/// What a closing-table map holds.
pub uninterp spec fn closing_entries(m: HashMap<u64, ProcessFdTable>) -> Map<u64, ProcessFdTable>;

/// Calls `HashMap::default`, which creates an empty map.
#[verifier::external_body]
fn closing_empty() -> (empty: ClosingMap)
    ensures
        closing_entries(empty) =~= Map::empty(),
{
    HashMap::default()
}

/// Calls `HashMap::get`, which returns the value stored under `key`, if any.
#[verifier::external_body]
fn closing_get(m: &HashMap<u64, ProcessFdTable>, key: u64) -> (r: Option<&ProcessFdTable>)
    ensures
        r is Some == closing_entries(*m).contains_key(key),
        r matches Some(t) ==> *t == closing_entries(*m)[key],
{
    m.get(&key)
}

/// Calls `HashMap::insert`, which stores `value` under `key`, replacing any
/// earlier value.
#[verifier::external_body]
fn closing_insert(m: &mut HashMap<u64, ProcessFdTable>, key: u64, value: ProcessFdTable)
    ensures
        closing_entries(*final(m)) == closing_entries(*old(m)).insert(key, value),
{
    m.insert(key, value);
}

/// Calls `HashMap::clear`, which removes every entry.
#[verifier::external_body]
fn closing_clear(m: &mut HashMap<u64, ProcessFdTable>)
    ensures
        closing_entries(*final(m)) =~= Map::empty(),
{
    m.clear()
}

/// Calls `HashMap::values_mut` and applies [`ProcessFdTable::close_endpoint`]
/// to every stored table; the keys stay as they are.
#[verifier::external_body]
fn closing_close_endpoint(m: &mut HashMap<u64, ProcessFdTable>, entity: Entity, component: TypeId)
    ensures
        closing_entries(*final(m)).dom() == closing_entries(*old(m)).dom(),
        forall|k: u64|
            #[trigger] closing_entries(*old(m)).contains_key(k) ==> closing_entries(*final(m))[k]@
                == without_endpoint(closing_entries(*old(m))[k]@, entity, component),
{
    m.values_mut().for_each(|table| table.close_endpoint(entity, component))
}

/// Descriptor tables retained until final writes from removed processes are
/// routed.
#[derive(Debug)]
pub struct ClosingProcessIo {
    tables: HashMap<u64, ProcessFdTable>,
}

impl View for ClosingProcessIo {
    /// Process entities, by [`entity_bits`], and their retained tables.
    type V = Map<u64, Map<u16, IoHandle>>;

    closed spec fn view(&self) -> Map<u64, Map<u16, IoHandle>> {
        Map::new(
            |k: u64| closing_entries(self.tables).contains_key(k),
            |k: u64| closing_entries(self.tables)[k]@,
        )
    }
}

impl Default for ClosingProcessIo {
    fn default() -> (closing: ClosingProcessIo)
        ensures
            closing@ == Map::<u64, Map<u16, IoHandle>>::empty(),
    {
        let closing = ClosingProcessIo { tables: closing_empty() };
        assert(closing@ =~= Map::<u64, Map<u16, IoHandle>>::empty());
        closing
    }
}

impl ClosingProcessIo {
    /// Retains `table` for `process`, whose process has just ended; a table
    /// retained earlier for the same entity is replaced.
    pub fn retain_table(&mut self, process: Entity, table: ProcessFdTable)
        ensures
            final(self)@ == old(self)@.insert(entity_bits(process), table@),
    {
        let key = entity_key(process);
        closing_insert(&mut self.tables, key, table);
        assert(self@ =~= old(self)@.insert(entity_bits(process), table@));
    }

    /// The table retained for `process`, if any.
    pub fn get(&self, process: Entity) -> (r: Option<&ProcessFdTable>)
        ensures
            r is Some == self@.contains_key(entity_bits(process)),
            r matches Some(t) ==> t@ == self@[entity_bits(process)],
    {
        closing_get(&self.tables, entity_key(process))
    }

    /// Drops every retained table.
    pub fn clear(&mut self)
        ensures
            final(self)@ == Map::<u64, Map<u16, IoHandle>>::empty(),
    {
        closing_clear(&mut self.tables);
        assert(self@ =~= Map::<u64, Map<u16, IoHandle>>::empty());
    }

    /// Closes the capability `component` on `entity` in every retained table.
    pub fn close_endpoint(&mut self, entity: Entity, component: TypeId)
        ensures
            final(self)@.dom() == old(self)@.dom(),
            forall|k: u64|
                #[trigger] old(self)@.contains_key(k) ==> final(self)@[k] == without_endpoint(
                    old(self)@[k],
                    entity,
                    component,
                ),
    {
        closing_close_endpoint(&mut self.tables, entity, component);
        assert(self@.dom() =~= old(self)@.dom());
    }
}

} // verus!

verus! {

/// A write requested by a program through one of its descriptors.
#[derive(Debug)]
pub struct ProcessWriteMsg<T: IoMessage = Vec<u8>> {
    /// Process requesting the write.
    pub process: Entity,
    /// Descriptor through which to write.
    pub fd: FileDescriptor,
    /// Message to write.
    pub payload: T,
}

impl<T: IoMessage> ProcessWriteMsg<T> {
    /// Creates a process write through `fd`.
    pub fn new(process: Entity, fd: FileDescriptor, payload: T) -> (msg: Self)
        ensures
            msg.process == process,
            msg.fd == fd,
            msg.payload == payload,
    {
        ProcessWriteMsg { process, fd, payload }
    }

    /// Creates a standard-output write.
    pub fn stdout(process: Entity, payload: T) -> (msg: Self)
        ensures
            msg.process == process,
            msg.fd@ == 1,
            msg.payload == payload,
    {
        Self::new(process, FileDescriptor::stdout(), payload)
    }

    /// Creates a standard-error write.
    pub fn stderr(process: Entity, payload: T) -> (msg: Self)
        ensures
            msg.process == process,
            msg.fd@ == 2,
            msg.payload == payload,
    {
        Self::new(process, FileDescriptor::stderr(), payload)
    }

    /// Returns the message to write.
    pub fn payload(&self) -> (payload: &T)
        ensures
            *payload == self.payload,
    {
        &self.payload
    }

    /// Moves the message into a shared allocation, ready to be handed to
    /// several endpoints.
    pub fn into_shared(self) -> (shared: Arc<T>)
        ensures
            *shared == self.payload,
    {
        Arc::new(self.payload)
    }
}

/// What an endpoint write carries.
pub struct EndpointWrite<T> {
    pub process: Entity,
    pub fd: FileDescriptor,
    pub endpoint: IoHandle,
    pub payload: T,
}

/// A process write whose descriptor has been resolved to an endpoint.
#[derive(Debug)]
pub struct EndpointWriteMsg<T: IoMessage = Vec<u8>> {
    process: Entity,
    fd: FileDescriptor,
    endpoint: IoHandle,
    payload: Arc<T>,
}

impl<T: IoMessage> View for EndpointWriteMsg<T> {
    type V = EndpointWrite<T>;

    closed spec fn view(&self) -> EndpointWrite<T> {
        EndpointWrite {
            process: self.process,
            fd: self.fd,
            endpoint: self.endpoint,
            payload: *self.payload,
        }
    }
}

impl<T: IoMessage> EndpointWriteMsg<T> {
    pub(crate) fn new(process: Entity, fd: FileDescriptor, endpoint: IoHandle, payload: Arc<T>) -> (msg: Self)
        ensures
            msg@ == (EndpointWrite { process, fd, endpoint, payload: *payload }),
    {
        EndpointWriteMsg { process, fd, endpoint, payload }
    }

    /// Returns the process that requested the write.
    pub fn process(&self) -> (process: Entity)
        ensures
            process == self@.process,
    {
        self.process
    }

    /// Returns the descriptor through which the process wrote.
    pub fn fd(&self) -> (fd: FileDescriptor)
        ensures
            fd == self@.fd,
    {
        self.fd
    }

    /// Returns the resolved endpoint capability.
    pub fn endpoint(&self) -> (endpoint: IoHandle)
        ensures
            endpoint == self@.endpoint,
    {
        self.endpoint
    }

    /// Returns the message written.
    pub fn payload(&self) -> (payload: &T)
        ensures
            *payload == self@.payload,
    {
        &self.payload
    }
}

impl EndpointWriteMsg<Vec<u8>> {
    /// Returns the uninterpreted bytes written.
    pub fn bytes(&self) -> (bytes: &[u8])
        ensures
            bytes@ == self@.payload@,
    {
        self.payload.as_slice()
    }
}

/// What a process input carries.
pub struct ProcessInput<T> {
    pub process: Entity,
    pub fd: FileDescriptor,
    pub endpoint: IoHandle,
    pub payload: T,
}

/// Messages made available to one process descriptor by an endpoint adapter.
#[derive(Debug)]
pub struct ProcessInputMsg<T: IoMessage = Vec<u8>> {
    /// Process receiving the message.
    pub process: Entity,
    /// Descriptor receiving the message.
    pub fd: FileDescriptor,
    /// Endpoint capability that supplied the message.
    pub endpoint: IoHandle,
    /// Shared message.
    pub payload: Arc<T>,
}

impl<T: IoMessage> View for ProcessInputMsg<T> {
    type V = ProcessInput<T>;

    open spec fn view(&self) -> ProcessInput<T> {
        ProcessInput {
            process: self.process,
            fd: self.fd,
            endpoint: self.endpoint,
            payload: *self.payload,
        }
    }
}

impl<T: IoMessage> ProcessInputMsg<T> {
    /// Creates an input for `fd` of `process`, supplied by `endpoint`.
    pub fn new(process: Entity, fd: FileDescriptor, endpoint: IoHandle, payload: T) -> (msg: Self)
        ensures
            msg.process == process,
            msg.fd == fd,
            msg.endpoint == endpoint,
            *msg.payload == payload,
    {
        ProcessInputMsg { process, fd, endpoint, payload: Arc::new(payload) }
    }

    /// Creates an input whose message is already shared.
    pub fn from_shared(process: Entity, fd: FileDescriptor, endpoint: IoHandle, payload: Arc<T>) -> (msg: Self)
        ensures
            msg.process == process,
            msg.fd == fd,
            msg.endpoint == endpoint,
            *msg.payload == *payload,
    {
        ProcessInputMsg { process, fd, endpoint, payload }
    }

    /// Returns the message delivered.
    pub fn payload(&self) -> (payload: &T)
        ensures
            *payload == *self.payload,
    {
        &self.payload
    }

    /// Returns the shared allocation holding the message.
    pub fn into_shared(self) -> (shared: Arc<T>)
        ensures
            *shared == *self.payload,
    {
        self.payload
    }
}

} // verus!

verus! {

/// The queued input of one descriptor.
#[derive(Debug)]
struct InputQueue<T> {
    fd: FileDescriptor,
    payloads: VecDeque<Arc<T>>,
}

/// Process-local input queues populated before program execution.
#[derive(Debug)]
pub struct ProcessInputBuffer<T: IoMessage = Vec<u8>> {
    queues: Vec<InputQueue<T>>,
}

impl<T: IoMessage> View for ProcessInputBuffer<T> {
    /// Descriptor numbers and the messages queued for each, oldest first.
    type V = Map<u16, Seq<Arc<T>>>;

    closed spec fn view(&self) -> Map<u16, Seq<Arc<T>>> {
        Map::new(
            |k: u16| exists|i: int| 0 <= i < self.queues@.len() && (#[trigger] self.queues@[i]).fd@ == k,
            |k: u16|
                self.queues@[choose|i: int|
                    0 <= i < self.queues@.len() && (#[trigger] self.queues@[i]).fd@ == k].payloads@,
        )
    }
}

impl<T: IoMessage> Default for ProcessInputBuffer<T> {
    fn default() -> (buffer: ProcessInputBuffer<T>)
        ensures
            buffer@ == Map::<u16, Seq<Arc<T>>>::empty(),
    {
        let buffer = ProcessInputBuffer { queues: Vec::new() };
        assert(buffer@ =~= Map::<u16, Seq<Arc<T>>>::empty());
        buffer
    }
}

impl<T: IoMessage> ProcessInputBuffer<T> {
    /// Each descriptor has at most one queue.
    #[verifier::type_invariant]
    spec fn one_queue_per_descriptor(self) -> bool {
        forall|i: int, j: int|
            0 <= i < j < self.queues@.len() ==> (#[trigger] self.queues@[i]).fd@ != (
            #[trigger] self.queues@[j]).fd@
    }

    /// Under distinct descriptors, the queue at index `i` is the one the view
    /// shows for its descriptor.
    proof fn lemma_queue_at(self, i: int)
        requires
            self.one_queue_per_descriptor(),
            0 <= i < self.queues@.len(),
        ensures
            self@.contains_key(self.queues@[i].fd@),
            self@[self.queues@[i].fd@] == self.queues@[i].payloads@,
    {
        let k = self.queues@[i].fd@;
        assert(self@.contains_key(k));
        let j = choose|j: int| 0 <= j < self.queues@.len() && (#[trigger] self.queues@[j]).fd@ == k;
        if j != i {
            if j < i {
                assert(self.queues@[j].fd@ != self.queues@[i].fd@);
            } else {
                assert(self.queues@[i].fd@ != self.queues@[j].fd@);
            }
        }
    }

    /// The index of `fd`'s queue, if it has one.
    fn position(&self, fd: FileDescriptor) -> (index: Option<usize>)
        ensures
            index is None ==> !self@.contains_key(fd@),
            index matches Some(i) ==> i < self.queues@.len() && self.queues@[i as int].fd@ == fd@,
    {
        let mut i: usize = 0;
        while i < self.queues.len()
            invariant
                0 <= i <= self.queues@.len(),
                forall|j: int| 0 <= j < i ==> (#[trigger] self.queues@[j]).fd@ != fd@,
            decreases self.queues@.len() - i,
        {
            if self.queues[i].fd.number() == fd.number() {
                return Some(i);
            }
            i += 1;
        }
        None
    }

    /// Whether no descriptor has a queue.
    pub fn is_empty(&self) -> (r: bool)
        ensures
            r == (self@ == Map::<u16, Seq<Arc<T>>>::empty()),
    {
        proof {
            use_type_invariant(self);
        }
        if self.queues.len() == 0 {
            assert(self@ =~= Map::<u16, Seq<Arc<T>>>::empty());
            true
        } else {
            proof {
                self.lemma_queue_at(0);
            }
            false
        }
    }

    /// Returns the messages queued for `fd`, oldest first.
    pub fn get(&self, fd: FileDescriptor) -> (queue: Option<&VecDeque<Arc<T>>>)
        ensures
            queue is Some == self@.contains_key(fd@),
            queue matches Some(q) ==> q@ == self@[fd@],
    {
        proof {
            use_type_invariant(self);
        }
        match self.position(fd) {
            Some(i) => {
                proof {
                    self.lemma_queue_at(i as int);
                }
                Some(&self.queues[i].payloads)
            },
            None => None,
        }
    }

    /// Replacing the messages of one queue changes only that descriptor's entry.
    proof fn lemma_replace_queue(before: Self, after: Self, i: int)
        requires
            before.one_queue_per_descriptor(),
            0 <= i < before.queues@.len(),
            after.queues@.len() == before.queues@.len(),
            forall|j: int| 0 <= j < before.queues@.len() ==> (#[trigger] after.queues@[j]).fd == before.queues@[j].fd,
            forall|j: int| 0 <= j < before.queues@.len() && j != i ==> (#[trigger] after.queues@[j]).payloads@ == before.queues@[j].payloads@,
        ensures
            after.one_queue_per_descriptor(),
            after@ == before@.insert(before.queues@[i].fd@, after.queues@[i].payloads@),
    {
        assert forall|a: int, b: int|
            0 <= a < b < after.queues@.len() implies (#[trigger] after.queues@[a]).fd@ != (#[trigger] after.queues@[b]).fd@ by {
            assert(after.queues@[a].fd == before.queues@[a].fd);
            assert(after.queues@[b].fd == before.queues@[b].fd);
        }
        let k0 = before.queues@[i].fd@;
        let target = before@.insert(k0, after.queues@[i].payloads@);
        assert forall|k: u16| #[trigger] after@.contains_key(k) == target.contains_key(k) by {
            if after@.contains_key(k) {
                let j = choose|j: int| 0 <= j < after.queues@.len() && (#[trigger] after.queues@[j]).fd@ == k;
                assert(after.queues@[j].fd == before.queues@[j].fd);
                before.lemma_queue_at(j);
            }
            if before@.contains_key(k) {
                let j = choose|j: int| 0 <= j < before.queues@.len() && (#[trigger] before.queues@[j]).fd@ == k;
                assert(after.queues@[j].fd == before.queues@[j].fd);
                after.lemma_queue_at(j);
            }
            if k == k0 {
                after.lemma_queue_at(i);
            }
        }
        assert forall|k: u16| #[trigger] after@.contains_key(k) implies after@[k] == target[k] by {
            let j = choose|j: int| 0 <= j < after.queues@.len() && (#[trigger] after.queues@[j]).fd@ == k;
            after.lemma_queue_at(j);
            assert(after.queues@[j].fd == before.queues@[j].fd);
            before.lemma_queue_at(j);
            if j != i {
                assert(k != k0);
            }
        }
        assert(after@ =~= target);
    }

    /// Appends `payload` to the queue of `fd`, creating the queue if needed.
    pub fn push_back(&mut self, fd: FileDescriptor, payload: Arc<T>)
        ensures
            final(self)@ == old(self)@.insert(
                fd@,
                if old(self)@.contains_key(fd@) { old(self)@[fd@] } else { Seq::empty() }.push(payload),
            ),
    {
        proof {
            use_type_invariant(&*self);
        }
        let position = self.position(fd);
        let mut taken = ProcessInputBuffer { queues: Vec::new() };
        std::mem::swap(self, &mut taken);
        let ghost before = taken;
        let mut queues = taken.queues;
        match position {
            Some(i) => {
                proof {
                    before.lemma_queue_at(i as int);
                }
                queues[i].payloads.push_back(payload);
                let rebuilt = ProcessInputBuffer { queues };
                proof {
                    Self::lemma_replace_queue(before, rebuilt, i as int);
                }
                *self = rebuilt;
            },
            None => {
                let mut payloads = VecDeque::new();
                payloads.push_back(payload);
                queues.push(InputQueue { fd, payloads });
                let rebuilt = ProcessInputBuffer { queues };
                proof {
                    let n = before.queues@.len() as int;
                    let after = rebuilt.queues@;
                    assert forall|a: int, b: int|
                        0 <= a < b < after.len() implies (#[trigger] after[a]).fd@ != (#[trigger] after[b]).fd@ by {
                        if b == n {
                            assert(after[a] == before.queues@[a]);
                            if after[a].fd@ == fd@ {
                                assert(before@.contains_key(fd@));
                            }
                        } else {
                            assert(after[a] == before.queues@[a]);
                            assert(after[b] == before.queues@[b]);
                        }
                    }
                    let target = before@.insert(fd@, Seq::<Arc<T>>::empty().push(payload));
                    assert forall|k: u16| #[trigger] rebuilt@.contains_key(k) == target.contains_key(k) by {
                        if rebuilt@.contains_key(k) && k != fd@ {
                            let j = choose|j: int| 0 <= j < after.len() && (#[trigger] after[j]).fd@ == k;
                            assert(j != n);
                            assert(after[j] == before.queues@[j]);
                            before.lemma_queue_at(j);
                        }
                        if before@.contains_key(k) {
                            let j = choose|j: int| 0 <= j < before.queues@.len() && (#[trigger] before.queues@[j]).fd@ == k;
                            assert(after[j] == before.queues@[j]);
                            rebuilt.lemma_queue_at(j);
                        }
                        if k == fd@ {
                            rebuilt.lemma_queue_at(n);
                        }
                    }
                    assert forall|k: u16| #[trigger] rebuilt@.contains_key(k) implies rebuilt@[k] == target[k] by {
                        let j = choose|j: int| 0 <= j < after.len() && (#[trigger] after[j]).fd@ == k;
                        rebuilt.lemma_queue_at(j);
                        if j < n {
                            assert(after[j] == before.queues@[j]);
                            before.lemma_queue_at(j);
                        } else {
                            assert(after[j].payloads@ =~= Seq::<Arc<T>>::empty().push(payload));
                        }
                    }
                    assert(rebuilt@ =~= target);
                }
                *self = rebuilt;
            },
        }
    }

    /// Removes and returns the oldest message queued for `fd`.
    pub fn pop_front(&mut self, fd: FileDescriptor) -> (payload: Option<Arc<T>>)
        ensures
            payload is Some == (old(self)@.contains_key(fd@) && old(self)@[fd@].len() > 0),
            payload matches Some(p) ==> p == old(self)@[fd@][0] && final(self)@ == old(self)@.insert(
                fd@,
                old(self)@[fd@].drop_first(),
            ),
            payload is None ==> final(self)@ == old(self)@,
    {
        proof {
            use_type_invariant(&*self);
        }
        match self.position(fd) {
            None => None,
            Some(i) => {
                proof {
                    self.lemma_queue_at(i as int);
                }
                if self.queues[i].payloads.len() == 0 {
                    return None;
                }
                let mut taken = ProcessInputBuffer { queues: Vec::new() };
                std::mem::swap(self, &mut taken);
                let ghost before = taken;
                let mut queues = taken.queues;
                let popped = queues[i].payloads.pop_front();
                let rebuilt = ProcessInputBuffer { queues };
                proof {
                    Self::lemma_replace_queue(before, rebuilt, i as int);
                    assert(rebuilt.queues@[i as int].payloads@ =~= before.queues@[i as int].payloads@.drop_first());
                }
                *self = rebuilt;
                popped
            },
        }
    }

    /// Removes and returns the queue of `fd`.
    pub fn remove(&mut self, fd: FileDescriptor) -> (queue: Option<VecDeque<Arc<T>>>)
        ensures
            queue is Some == old(self)@.contains_key(fd@),
            queue matches Some(q) ==> q@ == old(self)@[fd@],
            final(self)@ == old(self)@.remove(fd@),
    {
        proof {
            use_type_invariant(&*self);
        }
        match self.position(fd) {
            Some(i) => {
                proof {
                    self.lemma_queue_at(i as int);
                }
                let ghost before = self.queues@;
                let mut taken = ProcessInputBuffer { queues: Vec::new() };
                std::mem::swap(self, &mut taken);
                let mut queues = taken.queues;
                let removed = queues.remove(i);
                let ghost after = queues@;
                assert(after =~= before.remove(i as int));
                let rebuilt = ProcessInputBuffer { queues };
                proof {
                    assert forall|a: int, b: int|
                        0 <= a < b < after.len() implies (#[trigger] after[a]).fd@ != (#[trigger] after[b]).fd@ by {
                        let oa = if a < i { a } else { a + 1 };
                        let ob = if b < i { b } else { b + 1 };
                        assert(after[a] == before[oa]);
                        assert(after[b] == before[ob]);
                    }
                    assert(rebuilt.one_queue_per_descriptor());
                    assert forall|k: u16| #[trigger] rebuilt@.contains_key(k) == old(self)@.remove(fd@).contains_key(k) by {
                        if rebuilt@.contains_key(k) {
                            let j = choose|j: int| 0 <= j < after.len() && (#[trigger] after[j]).fd@ == k;
                            let oj = if j < i { j } else { j + 1 };
                            assert(before[oj].fd@ == k);
                            assert(oj != i);
                            assert(old(self)@.contains_key(k));
                        }
                        if old(self)@.remove(fd@).contains_key(k) {
                            let j = choose|j: int| 0 <= j < before.len() && (#[trigger] before[j]).fd@ == k;
                            assert(j != i);
                            let nj = if j < i { j } else { j - 1 };
                            assert(after[nj].fd@ == k);
                        }
                    }
                    assert forall|k: u16| #[trigger] rebuilt@.contains_key(k) implies rebuilt@[k] == old(self)@[k] by {
                        let j = choose|j: int| 0 <= j < after.len() && (#[trigger] after[j]).fd@ == k;
                        rebuilt.lemma_queue_at(j);
                        let oj = if j < i { j } else { j + 1 };
                        assert(before[oj] == after[j]);
                        old(self).lemma_queue_at(oj);
                    }
                    assert(rebuilt@ =~= old(self)@.remove(fd@));
                }
                *self = rebuilt;
                Some(removed.payloads)
            },
            None => {
                assert(self@ =~= old(self)@.remove(fd@));
                None
            },
        }
    }
}

} // verus!
