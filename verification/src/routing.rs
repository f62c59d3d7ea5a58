//! Descriptor routing of process writes and demultiplexing of process input.

use std::any::TypeId;
use std::sync::Arc;

use bevy::ecs::entity::Entity;
use vstd::prelude::*;

use crate::ecs_types::entity_bits;
use crate::ecs_types::same_entity;
use crate::ecs_types::same_type;
use crate::ecs_types::share;
use crate::endpoints::PipeEndpoint;
use crate::endpoints::TeeEndpoint;
use crate::io::lookup;
use crate::io::ClosingProcessIo;
use crate::io::EndpointWrite;
use crate::io::EndpointWriteMsg;
use crate::io::FileDescriptor;
use crate::io::IoCapabilities;
use crate::io::IoComponentCache;
use crate::io::IoHandle;
use crate::io::IoMessage;
use crate::io::ProcessFdTable;
use crate::io::ProcessInput;
use crate::io::ProcessInputBuffer;
use crate::io::ProcessInputMsg;
use crate::io::ProcessWriteMsg;

verus! {

/// The type identities of one message lane: the message type itself and the
/// tee and pipe endpoint components that carry it.
#[derive(Clone, Copy, Debug)]
pub struct RouteLane {
    pub message: TypeId,
    pub tee: TypeId,
    pub pipe: TypeId,
}

/// Calls `TypeId::of` for `T`, `TeeEndpoint<T>` and `PipeEndpoint<T>`.
/// std documents a `TypeId` as a globally unique identifier of its type, and
/// these are three different types (`T` cannot be either endpoint type of
/// itself, and the two endpoint types are different type constructors), so
/// the three identities differ. Which identities they are is left unsaid.
#[verifier::external_body]
fn lane_type_ids<T: IoMessage>() -> (ids: (TypeId, TypeId, TypeId))
    ensures
        ids.0 != ids.1,
        ids.0 != ids.2,
        ids.1 != ids.2,
{
    (TypeId::of::<T>(), TypeId::of::<TeeEndpoint<T>>(), TypeId::of::<PipeEndpoint<T>>())
}

impl RouteLane {
    /// Whether the lane's message, tee and pipe identities are pairwise
    /// different, so that a tee, a pipe and the message type are told apart.
    pub open spec fn is_distinct(self) -> bool {
        &&& self.message != self.tee
        &&& self.message != self.pipe
        &&& self.tee != self.pipe
    }

    /// The lane of message type `T`: `T` itself, `TeeEndpoint<T>` and
    /// `PipeEndpoint<T>`, three different type identities.
    pub fn of<T: IoMessage>() -> (lane: RouteLane)
        ensures
            lane.is_distinct(),
    {
        let (message, tee, pipe) = lane_type_ids::<T>();
        RouteLane { message, tee, pipe }
    }
}

/// What routing reads about one entity of the world: its registered
/// capabilities and, on the lane being routed, its tee and pipe components.
pub struct EndpointState<'a, T: IoMessage> {
    pub entity: Entity,
    pub capabilities: Option<&'a IoCapabilities>,
    pub tee: Option<&'a TeeEndpoint<T>>,
    pub pipe: Option<&'a PipeEndpoint<T>>,
}

/// The first state that `world` holds for `entity`.
pub open spec fn find_state<'a, T: IoMessage>(world: Seq<EndpointState<'a, T>>, entity: Entity) -> Option<
    EndpointState<'a, T>,
>
    decreases world.len(),
{
    if world.len() == 0 {
        None
    } else if world[0].entity == entity {
        Some(world[0])
    } else {
        find_state(world.drop_first(), entity)
    }
}

/// Whether `h` names a registered capability that its entity currently carries.
pub open spec fn is_open_in<'a, T: IoMessage>(
    components: IoComponentCache,
    world: Seq<EndpointState<'a, T>>,
    h: IoHandle,
) -> bool {
    &&& components.registers(h.capability())
    &&& find_state(world, h.target()) matches Some(state)
    &&& state.capabilities matches Some(caps)
    &&& caps@.contains(h.capability())
}

/// Whether a write on `lane` may be delivered to `h`: the endpoint is open
/// and its capability accepts the lane's message type.
pub open spec fn deliverable<'a, T: IoMessage>(
    components: IoComponentCache,
    lane: RouteLane,
    world: Seq<EndpointState<'a, T>>,
    h: IoHandle,
) -> bool {
    is_open_in(components, world, h) && components@.contains((h.capability(), lane.message))
}

/// One message handed by a pipe to the descriptor of a reading process.
pub struct PipeDelivery {
    pub process: Entity,
    pub fd: FileDescriptor,
    pub endpoint: IoHandle,
}

/// The endpoints that a write to `h` reaches when tee outputs are not
/// expanded (`h` is itself a tee output): `h` alone, unless it is closed,
/// on another lane, or a nested tee.
pub open spec fn leaf_writes<'a, T: IoMessage>(
    components: IoComponentCache,
    lane: RouteLane,
    world: Seq<EndpointState<'a, T>>,
    h: IoHandle,
) -> Seq<IoHandle> {
    if deliverable(components, lane, world, h) && h.capability() != lane.tee {
        seq![h]
    } else {
        Seq::empty()
    }
}

/// The pipe deliveries that a write to `h` causes when tee outputs are not
/// expanded: one when `h` is an open pipe of the lane whose pipe component is
/// present, none otherwise.
pub open spec fn leaf_inputs<'a, T: IoMessage>(
    components: IoComponentCache,
    lane: RouteLane,
    world: Seq<EndpointState<'a, T>>,
    h: IoHandle,
) -> Seq<PipeDelivery> {
    if deliverable(components, lane, world, h) && h.capability() != lane.tee && h.capability()
        == lane.pipe {
        match find_state(world, h.target()) {
            Some(state) => match state.pipe {
                Some(pipe) => seq![
                    PipeDelivery {
                        process: pipe.spec_process(),
                        fd: pipe.spec_fd(),
                        endpoint: h,
                    },
                ],
                None => Seq::empty(),
            },
            None => Seq::empty(),
        }
    } else {
        Seq::empty()
    }
}

/// The endpoints reached through the outputs of a tee, in output order.
pub open spec fn fanout_writes<'a, T: IoMessage>(
    components: IoComponentCache,
    lane: RouteLane,
    world: Seq<EndpointState<'a, T>>,
    outputs: Seq<IoHandle>,
) -> Seq<IoHandle>
    decreases outputs.len(),
{
    if outputs.len() == 0 {
        Seq::empty()
    } else {
        fanout_writes(components, lane, world, outputs.drop_last()) + leaf_writes(
            components,
            lane,
            world,
            outputs.last(),
        )
    }
}

/// The pipe deliveries caused through the outputs of a tee, in output order.
pub open spec fn fanout_inputs<'a, T: IoMessage>(
    components: IoComponentCache,
    lane: RouteLane,
    world: Seq<EndpointState<'a, T>>,
    outputs: Seq<IoHandle>,
) -> Seq<PipeDelivery>
    decreases outputs.len(),
{
    if outputs.len() == 0 {
        Seq::empty()
    } else {
        fanout_inputs(components, lane, world, outputs.drop_last()) + leaf_inputs(
            components,
            lane,
            world,
            outputs.last(),
        )
    }
}

/// The endpoints that a write to `h` reaches, in order. An open tee of the
/// lane is reached itself and then, when `expand_tee` holds, its outputs are
/// each treated as a leaf; a closed endpoint, one on another lane, or a tee
/// whose component is missing reaches nothing.
pub open spec fn endpoint_writes<'a, T: IoMessage>(
    components: IoComponentCache,
    lane: RouteLane,
    world: Seq<EndpointState<'a, T>>,
    h: IoHandle,
    expand_tee: bool,
) -> Seq<IoHandle> {
    if !deliverable(components, lane, world, h) {
        Seq::empty()
    } else if h.capability() == lane.tee {
        if !expand_tee {
            Seq::empty()
        } else {
            match find_state(world, h.target()) {
                Some(state) => match state.tee {
                    Some(tee) => seq![h] + fanout_writes(components, lane, world, tee@),
                    None => Seq::empty(),
                },
                None => Seq::empty(),
            }
        }
    } else {
        seq![h]
    }
}

/// The pipe deliveries that a write to `h` causes, in order.
pub open spec fn endpoint_inputs<'a, T: IoMessage>(
    components: IoComponentCache,
    lane: RouteLane,
    world: Seq<EndpointState<'a, T>>,
    h: IoHandle,
    expand_tee: bool,
) -> Seq<PipeDelivery> {
    if deliverable(components, lane, world, h) && h.capability() == lane.tee {
        if !expand_tee {
            Seq::empty()
        } else {
            match find_state(world, h.target()) {
                Some(state) => match state.tee {
                    Some(tee) => fanout_inputs(components, lane, world, tee@),
                    None => Seq::empty(),
                },
                None => Seq::empty(),
            }
        }
    } else {
        leaf_inputs(components, lane, world, h)
    }
}

/// The endpoint writes that carry `payload` from `fd` of `process` to each
/// of `endpoints`, in order.
pub open spec fn writes_to<T>(
    process: Entity,
    fd: FileDescriptor,
    payload: T,
    endpoints: Seq<IoHandle>,
) -> Seq<EndpointWrite<T>> {
    endpoints.map_values(
        |h: IoHandle| EndpointWrite { process: process, fd: fd, endpoint: h, payload: payload },
    )
}

/// The inputs that carry `payload` for each of `deliveries`, in order.
pub open spec fn inputs_to<T>(payload: T, deliveries: Seq<PipeDelivery>) -> Seq<ProcessInput<T>> {
    deliveries.map_values(
        |d: PipeDelivery|
            ProcessInput { process: d.process, fd: d.fd, endpoint: d.endpoint, payload: payload },
    )
}

/// The views of a sequence of process inputs.
pub open spec fn input_views<T: IoMessage>(msgs: Seq<ProcessInputMsg<T>>) -> Seq<ProcessInput<T>> {
    msgs.map_values(|m: ProcessInputMsg<T>| m@)
}

/// The views of a sequence of endpoint writes.
pub open spec fn write_views<T: IoMessage>(msgs: Seq<EndpointWriteMsg<T>>) -> Seq<EndpointWrite<T>> {
    msgs.map_values(|m: EndpointWriteMsg<T>| m@)
}

/// The index of the first state that `world` holds for `entity`.
fn position_of<'a, T: IoMessage>(world: &[EndpointState<'a, T>], entity: Entity) -> (index: Option<
    usize,
>)
    ensures
        index is None ==> find_state(world@, entity) is None,
        index matches Some(i) ==> i < world@.len() && find_state(world@, entity) == Some(world@[i as int]),
{
    let mut i: usize = 0;
    assert(world@.skip(0) =~= world@);
    while i < world.len()
        invariant
            0 <= i <= world@.len(),
            find_state(world@, entity) == find_state(world@.skip(i as int), entity),
        decreases world@.len() - i,
    {
        proof {
            assert(world@.skip(i as int).drop_first() =~= world@.skip(i + 1));
            assert(world@.skip(i as int)[0] == world@[i as int]);
        }
        if same_entity(world[i].entity, entity) {
            return Some(i);
        }
        i += 1;
    }
    assert(world@.skip(i as int).len() == 0);
    None
}

/// The message held by a shared allocation.
pub open spec fn shared_value<T>(payload: &Arc<T>) -> T {
    **payload
}

proof fn lemma_writes_to_concat<T>(
    process: Entity,
    fd: FileDescriptor,
    payload: T,
    a: Seq<IoHandle>,
    b: Seq<IoHandle>,
)
    ensures
        writes_to(process, fd, payload, a + b) == writes_to(process, fd, payload, a) + writes_to(
            process,
            fd,
            payload,
            b,
        ),
{
    assert(writes_to(process, fd, payload, a + b) =~= writes_to(process, fd, payload, a)
        + writes_to(process, fd, payload, b));
}

proof fn lemma_inputs_to_concat<T>(payload: T, a: Seq<PipeDelivery>, b: Seq<PipeDelivery>)
    ensures
        inputs_to(payload, a + b) == inputs_to(payload, a) + inputs_to(payload, b),
{
    assert(inputs_to(payload, a + b) =~= inputs_to(payload, a) + inputs_to(payload, b));
}

proof fn lemma_write_views_push<T: IoMessage>(msgs: Seq<EndpointWriteMsg<T>>, m: EndpointWriteMsg<T>)
    ensures
        write_views(msgs.push(m)) == write_views(msgs).push(m@),
{
    assert(write_views(msgs.push(m)) =~= write_views(msgs).push(m@));
}

proof fn lemma_input_views_push<T: IoMessage>(msgs: Seq<ProcessInputMsg<T>>, m: ProcessInputMsg<T>)
    ensures
        input_views(msgs.push(m)) == input_views(msgs).push(m@),
{
    assert(input_views(msgs.push(m)) =~= input_views(msgs).push(m@));
}

/// Routes a write from `fd` of `process` to `endpoint`: appends to `routed`
/// the endpoint writes of [`endpoint_writes`] and to `inputs` the pipe inputs
/// of [`endpoint_inputs`], each carrying `payload`.
pub fn route_endpoint<'a, T: IoMessage>(
    process: Entity,
    fd: FileDescriptor,
    endpoint: IoHandle,
    payload: &Arc<T>,
    expand_tee: bool,
    components: &IoComponentCache,
    lane: &RouteLane,
    world: &[EndpointState<'a, T>],
    routed: &mut Vec<EndpointWriteMsg<T>>,
    inputs: &mut Vec<ProcessInputMsg<T>>,
)
    ensures
        write_views(final(routed)@) == write_views(old(routed)@) + writes_to(
            process,
            fd,
            **payload,
            endpoint_writes(*components, *lane, world@, endpoint, expand_tee),
        ),
        input_views(final(inputs)@) == input_views(old(inputs)@) + inputs_to(
            **payload,
            endpoint_inputs(*components, *lane, world@, endpoint, expand_tee),
        ),
    decreases
            if expand_tee {
                1int
            } else {
                0int
            },
{
    let ghost p: T = shared_value(payload);
    let ghost writes = endpoint_writes(*components, *lane, world@, endpoint, expand_tee);
    let ghost delivered = endpoint_inputs(*components, *lane, world@, endpoint, expand_tee);
    let position = position_of(world, endpoint.entity());
    let capabilities = match position {
        Some(i) => world[i].capabilities,
        None => None,
    };
    if !components.is_open(endpoint, capabilities) || !components.accepts(endpoint, lane.message) {
        assert(writes =~= Seq::<IoHandle>::empty());
        assert(delivered =~= Seq::<PipeDelivery>::empty());
        assert(write_views(routed@) =~= write_views(routed@) + writes_to(process, fd, **payload, writes));
        assert(input_views(inputs@) =~= input_views(inputs@) + inputs_to(**payload, delivered));
        return;
    }
    let component = endpoint.component_type_id();
    if same_type(component, lane.tee) {
        let tee = match position {
            Some(i) => world[i].tee,
            None => None,
        };
        if !expand_tee || tee.is_none() {
            assert(writes =~= Seq::<IoHandle>::empty());
            assert(delivered =~= Seq::<PipeDelivery>::empty());
            assert(write_views(routed@) =~= write_views(routed@) + writes_to(process, fd, **payload, writes));
            assert(input_views(inputs@) =~= input_views(inputs@) + inputs_to(**payload, delivered));
            return;
        }
        let tee = tee.unwrap();
        let ghost start_writes = write_views(routed@);
        let ghost start_inputs = input_views(inputs@);
        let msg = EndpointWriteMsg::new(process, fd, endpoint, share(payload));
        proof {
            lemma_write_views_push(routed@, msg);
        }
        routed.push(msg);
        let outputs = tee.outputs();
        let ghost base = write_views(routed@);
        assert(outputs@.take(0) =~= Seq::<IoHandle>::empty());
        assert(base =~= base + writes_to(process, fd, **payload, fanout_writes(*components, *lane, world@, outputs@.take(0))));
        assert(start_inputs =~= start_inputs + inputs_to(**payload, fanout_inputs(*components, *lane, world@, outputs@.take(0))));
        let mut k: usize = 0;
        while k < outputs.len()
            invariant
                expand_tee,
                0 <= k <= outputs@.len(),
                write_views(routed@) == base + writes_to(
                    process,
                    fd,
                    **payload,
                    fanout_writes(*components, *lane, world@, outputs@.take(k as int)),
                ),
                input_views(inputs@) == start_inputs + inputs_to(
                    **payload,
                    fanout_inputs(*components, *lane, world@, outputs@.take(k as int)),
                ),
            decreases outputs@.len() - k,
        {
            let ghost before_writes = write_views(routed@);
            let ghost before_inputs = input_views(inputs@);
            route_endpoint(process, fd, outputs[k], payload, false, components, lane, world, routed, inputs);
            proof {
                let next = outputs@.take(k + 1);
                assert(next.drop_last() =~= outputs@.take(k as int));
                assert(next.last() == outputs@[k as int]);
                lemma_writes_to_concat(
                    process,
                    fd,
                    p,
                    fanout_writes(*components, *lane, world@, outputs@.take(k as int)),
                    leaf_writes(*components, *lane, world@, outputs@[k as int]),
                );
                lemma_inputs_to_concat(
                    p,
                    fanout_inputs(*components, *lane, world@, outputs@.take(k as int)),
                    leaf_inputs(*components, *lane, world@, outputs@[k as int]),
                );
                assert(write_views(routed@) =~= base + writes_to(
                    process,
                    fd,
                    **payload,
                    fanout_writes(*components, *lane, world@, next),
                ));
                assert(input_views(inputs@) =~= start_inputs + inputs_to(
                    **payload,
                    fanout_inputs(*components, *lane, world@, next),
                ));
            }
            k += 1;
        }
        proof {
            assert(outputs@.take(outputs@.len() as int) =~= outputs@);
            lemma_writes_to_concat(
                process,
                fd,
                p,
                seq![endpoint],
                fanout_writes(*components, *lane, world@, outputs@),
            );
            assert(writes_to(process, fd, **payload, seq![endpoint]) =~= seq![msg@]);
            assert(write_views(routed@) =~= start_writes + writes_to(process, fd, **payload, writes));
            assert(input_views(inputs@) =~= start_inputs + inputs_to(**payload, delivered));
        }
        return;
    }
    let ghost start_writes = write_views(routed@);
    let ghost start_inputs = input_views(inputs@);
    let msg = EndpointWriteMsg::new(process, fd, endpoint, share(payload));
    proof {
        lemma_write_views_push(routed@, msg);
    }
    routed.push(msg);
    assert(writes =~= seq![endpoint]);
    assert(write_views(routed@) =~= start_writes + writes_to(process, fd, **payload, writes));
    if same_type(component, lane.pipe) {
        let pipe = match position {
            Some(i) => world[i].pipe,
            None => None,
        };
        match pipe {
            Some(pipe) => {
                let input = ProcessInputMsg::from_shared(pipe.process(), pipe.fd(), endpoint, share(payload));
                proof {
                    lemma_input_views_push(inputs@, input);
                }
                inputs.push(input);
                assert(input_views(inputs@) =~= start_inputs + inputs_to(**payload, delivered));
            },
            None => {
                assert(input_views(inputs@) =~= start_inputs + inputs_to(**payload, delivered));
            },
        }
    } else {
        assert(input_views(inputs@) =~= start_inputs + inputs_to(**payload, delivered));
    }
}


/// The view of an optional descriptor table.
pub open spec fn table_view(table: Option<&ProcessFdTable>) -> Option<Map<u16, IoHandle>> {
    match table {
        Some(t) => Some(t@),
        None => None,
    }
}

/// The descriptor table through which a write of `process` resolves: its
/// live table when it has one, else, while the entity still exists, the
/// table retained when its process ended.
pub open spec fn resolved_descriptors(
    live: Option<Map<u16, IoHandle>>,
    exists: bool,
    closing: Map<u64, Map<u16, IoHandle>>,
    process: Entity,
) -> Option<Map<u16, IoHandle>> {
    match live {
        Some(table) => Some(table),
        None => if exists && closing.contains_key(entity_bits(process)) {
            Some(closing[entity_bits(process)])
        } else {
            None
        },
    }
}

/// The endpoint that a write of `process` through `fd` resolves to.
pub open spec fn write_target(
    live: Option<Map<u16, IoHandle>>,
    exists: bool,
    closing: Map<u64, Map<u16, IoHandle>>,
    process: Entity,
    fd: FileDescriptor,
) -> Option<IoHandle> {
    match resolved_descriptors(live, exists, closing, process) {
        Some(table) => lookup(table, fd@),
        None => None,
    }
}

/// Routes one process write. `live` is the process entity's descriptor table
/// if it has one, `exists` whether the entity still exists. Returns the
/// endpoint the descriptor resolved to; when it resolved, the writes and pipe
/// inputs of [`route_endpoint`] (with tee expansion) are appended, and when
/// it did not, the write is discarded.
pub fn route_write<'a, T: IoMessage>(
    message: ProcessWriteMsg<T>,
    live: Option<&ProcessFdTable>,
    exists: bool,
    closing: &ClosingProcessIo,
    components: &IoComponentCache,
    lane: &RouteLane,
    world: &[EndpointState<'a, T>],
    routed: &mut Vec<EndpointWriteMsg<T>>,
    inputs: &mut Vec<ProcessInputMsg<T>>,
) -> (endpoint: Option<IoHandle>)
    ensures
        endpoint == write_target(table_view(live), exists, closing@, message.process, message.fd),
        endpoint is None ==> final(routed)@ == old(routed)@ && final(inputs)@ == old(inputs)@,
        endpoint matches Some(h) ==> write_views(final(routed)@) == write_views(old(routed)@)
            + writes_to(
            message.process,
            message.fd,
            message.payload,
            endpoint_writes(*components, *lane, world@, h, true),
        ),
        endpoint matches Some(h) ==> input_views(final(inputs)@) == input_views(old(inputs)@)
            + inputs_to(message.payload, endpoint_inputs(*components, *lane, world@, h, true)),
{
    let descriptors = match live {
        Some(table) => Some(table),
        None => {
            if exists {
                closing.get(message.process)
            } else {
                None
            }
        },
    };
    let endpoint = match descriptors {
        Some(table) => table.get(message.fd),
        None => None,
    };
    match endpoint {
        None => None,
        Some(h) => {
            let process = message.process;
            let fd = message.fd;
            let payload = message.into_shared();
            route_endpoint(process, fd, h, &payload, true, components, lane, world, routed, inputs);
            Some(h)
        },
    }
}

/// One process write waiting to be routed, with what the world holds for
/// its process: the live descriptor table, if any, and whether the entity
/// still exists.
pub struct PendingWrite<'t, T: IoMessage> {
    pub message: ProcessWriteMsg<T>,
    pub live: Option<&'t ProcessFdTable>,
    pub exists: bool,
}

/// The endpoint a pending write resolves to.
pub open spec fn pending_target<'t, T: IoMessage>(
    pending: PendingWrite<'t, T>,
    closing: Map<u64, Map<u16, IoHandle>>,
) -> Option<IoHandle> {
    write_target(
        table_view(pending.live),
        pending.exists,
        closing,
        pending.message.process,
        pending.message.fd,
    )
}

/// The endpoint writes of one pending write: those of [`route_write`].
pub open spec fn pending_writes<'a, 't, T: IoMessage>(
    pending: PendingWrite<'t, T>,
    closing: Map<u64, Map<u16, IoHandle>>,
    components: IoComponentCache,
    lane: RouteLane,
    world: Seq<EndpointState<'a, T>>,
) -> Seq<EndpointWrite<T>> {
    match pending_target(pending, closing) {
        Some(h) => writes_to(
            pending.message.process,
            pending.message.fd,
            pending.message.payload,
            endpoint_writes(components, lane, world, h, true),
        ),
        None => Seq::empty(),
    }
}

/// The pipe inputs of one pending write: those of [`route_write`].
pub open spec fn pending_inputs<'a, 't, T: IoMessage>(
    pending: PendingWrite<'t, T>,
    closing: Map<u64, Map<u16, IoHandle>>,
    components: IoComponentCache,
    lane: RouteLane,
    world: Seq<EndpointState<'a, T>>,
) -> Seq<ProcessInput<T>> {
    match pending_target(pending, closing) {
        Some(h) => inputs_to(
            pending.message.payload,
            endpoint_inputs(components, lane, world, h, true),
        ),
        None => Seq::empty(),
    }
}

/// The endpoint writes of a batch of pending writes, batch order first and
/// then the order of [`endpoint_writes`].
pub open spec fn batch_writes<'a, 't, T: IoMessage>(
    batch: Seq<PendingWrite<'t, T>>,
    closing: Map<u64, Map<u16, IoHandle>>,
    components: IoComponentCache,
    lane: RouteLane,
    world: Seq<EndpointState<'a, T>>,
) -> Seq<EndpointWrite<T>>
    decreases batch.len(),
{
    if batch.len() == 0 {
        Seq::empty()
    } else {
        batch_writes(batch.drop_last(), closing, components, lane, world) + pending_writes(
            batch.last(),
            closing,
            components,
            lane,
            world,
        )
    }
}

/// The pipe inputs of a batch of pending writes, in batch order.
pub open spec fn batch_inputs<'a, 't, T: IoMessage>(
    batch: Seq<PendingWrite<'t, T>>,
    closing: Map<u64, Map<u16, IoHandle>>,
    components: IoComponentCache,
    lane: RouteLane,
    world: Seq<EndpointState<'a, T>>,
) -> Seq<ProcessInput<T>>
    decreases batch.len(),
{
    if batch.len() == 0 {
        Seq::empty()
    } else {
        batch_inputs(batch.drop_last(), closing, components, lane, world) + pending_inputs(
            batch.last(),
            closing,
            components,
            lane,
            world,
        )
    }
}

/// Routes a batch of process writes in order, each as [`route_write`] does:
/// appends to `routed` the endpoint writes of [`batch_writes`] and to
/// `inputs` the pipe inputs of [`batch_inputs`].
pub fn route_writes<'a, 't, T: IoMessage>(
    batch: Vec<PendingWrite<'t, T>>,
    closing: &ClosingProcessIo,
    components: &IoComponentCache,
    lane: &RouteLane,
    world: &[EndpointState<'a, T>],
    routed: &mut Vec<EndpointWriteMsg<T>>,
    inputs: &mut Vec<ProcessInputMsg<T>>,
)
    ensures
        write_views(final(routed)@) == write_views(old(routed)@) + batch_writes(
            batch@,
            closing@,
            *components,
            *lane,
            world@,
        ),
        input_views(final(inputs)@) == input_views(old(inputs)@) + batch_inputs(
            batch@,
            closing@,
            *components,
            *lane,
            world@,
        ),
{
    broadcast use vstd::std_specs::vec::axiom_spec_into_iter;

    let ghost whole = batch@;
    let ghost start_writes = write_views(routed@);
    let ghost start_inputs = input_views(inputs@);
    assert(whole.take(0) =~= Seq::<PendingWrite<'t, T>>::empty());
    for pending in it: batch.into_iter()
        invariant
            it.seq() == whole,
            write_views(routed@) == start_writes + batch_writes(
                whole.take(it.index()),
                closing@,
                *components,
                *lane,
                world@,
            ),
            input_views(inputs@) == start_inputs + batch_inputs(
                whole.take(it.index()),
                closing@,
                *components,
                *lane,
                world@,
            ),
    {
        let ghost k = it.index();
        let ghost before_writes = write_views(routed@);
        let ghost before_inputs = input_views(inputs@);
        let ghost p = pending;
        route_write(pending.message, pending.live, pending.exists, closing, components, lane, world, routed, inputs);
        proof {
            let next = whole.take(k + 1);
            assert(next.drop_last() =~= whole.take(k));
            assert(next.last() == p);
            assert(write_views(routed@) =~= start_writes + batch_writes(
                next,
                closing@,
                *components,
                *lane,
                world@,
            ));
            assert(input_views(inputs@) =~= start_inputs + batch_inputs(
                next,
                closing@,
                *components,
                *lane,
                world@,
            ));
        }
    }
    assert(whole.take(whole.len() as int) =~= whole);
}

/// Whether an input message is accepted into its process's queue: its
/// endpoint is open and the process's descriptor still refers to it.
pub open spec fn accepts_input<T: IoMessage>(
    message: ProcessInputMsg<T>,
    components: IoComponentCache,
    endpoint_capabilities: Option<&IoCapabilities>,
    descriptors: Map<u16, IoHandle>,
) -> bool {
    components.opens(message.endpoint, endpoint_capabilities) && lookup(descriptors, message.fd@)
        == Some(message.endpoint)
}

/// Demultiplexes one input message into the queue of its descriptor.
/// `endpoint_capabilities` are those of the entity the message came from;
/// `descriptors` and `buffer` belong to the receiving process. Returns
/// whether the message was queued; a message from a closed endpoint or for
/// a descriptor that no longer refers to its endpoint is discarded.
pub fn deliver_input<T: IoMessage>(
    message: ProcessInputMsg<T>,
    components: &IoComponentCache,
    endpoint_capabilities: Option<&IoCapabilities>,
    descriptors: &ProcessFdTable,
    buffer: &mut ProcessInputBuffer<T>,
) -> (delivered: bool)
    ensures
        delivered == accepts_input(message, *components, endpoint_capabilities, descriptors@),
        delivered ==> final(buffer)@ == old(buffer)@.insert(
            message.fd@,
            if old(buffer)@.contains_key(message.fd@) {
                old(buffer)@[message.fd@]
            } else {
                Seq::empty()
            }.push(message.payload),
        ),
        !delivered ==> final(buffer)@ == old(buffer)@,
{
    if !components.is_open(message.endpoint, endpoint_capabilities) {
        return false;
    }
    match descriptors.get(message.fd) {
        Some(current) => {
            if !current.same(message.endpoint) {
                return false;
            }
        },
        None => {
            return false;
        },
    }
    let fd = message.fd;
    buffer.push_back(fd, message.into_shared());
    true
}


/// What demultiplexing holds for one process: its entity, its descriptor
/// table, and its input buffer, taken out of the world for the duration.
pub struct ProcessQueues<'d, T: IoMessage> {
    pub process: Entity,
    pub descriptors: &'d ProcessFdTable,
    pub buffer: ProcessInputBuffer<T>,
}

/// The processes of `queues` with their descriptor tables, in order.
pub open spec fn queue_targets<'d, T: IoMessage>(queues: Seq<ProcessQueues<'d, T>>) -> Seq<
    (Entity, Map<u16, IoHandle>),
> {
    queues.map_values(|q: ProcessQueues<'d, T>| (q.process, q.descriptors@))
}

/// Whether `j` is the first position of `targets` that holds `process`.
pub open spec fn first_target(targets: Seq<(Entity, Map<u16, IoHandle>)>, j: int, process: Entity) -> bool {
    &&& 0 <= j < targets.len()
    &&& targets[j].0 == process
    &&& forall|i: int| 0 <= i < j ==> (#[trigger] targets[i]).0 != process
}

/// The capabilities that `world` holds for `entity`, if any.
pub open spec fn capabilities_in<'a, T: IoMessage>(world: Seq<EndpointState<'a, T>>, entity: Entity) -> Option<
    &'a IoCapabilities,
> {
    match find_state(world, entity) {
        Some(state) => state.capabilities,
        None => None,
    }
}

/// Whether `message` is queued for the process at position `j` of
/// `targets`: that is the first position of its process, its endpoint is
/// open and the process's descriptor still refers to it.
pub open spec fn queued_for<'a, T: IoMessage>(
    message: ProcessInputMsg<T>,
    targets: Seq<(Entity, Map<u16, IoHandle>)>,
    j: int,
    components: IoComponentCache,
    world: Seq<EndpointState<'a, T>>,
) -> bool {
    first_target(targets, j, message.process) && accepts_input(
        message,
        components,
        capabilities_in(world, message.endpoint.target()),
        targets[j].1,
    )
}

/// The messages of `messages` queued for descriptor `fd` of the process at
/// position `j` of `targets`, in message order.
pub open spec fn accepted_inputs<'a, T: IoMessage>(
    messages: Seq<ProcessInputMsg<T>>,
    targets: Seq<(Entity, Map<u16, IoHandle>)>,
    j: int,
    fd: u16,
    components: IoComponentCache,
    world: Seq<EndpointState<'a, T>>,
) -> Seq<Arc<T>>
    decreases messages.len(),
{
    if messages.len() == 0 {
        Seq::empty()
    } else {
        let m = messages.last();
        accepted_inputs(messages.drop_last(), targets, j, fd, components, world) + if queued_for(
            m,
            targets,
            j,
            components,
            world,
        ) && m.fd@ == fd {
            seq![m.payload]
        } else {
            Seq::empty()
        }
    }
}

/// The messages a buffer holds for `fd`, oldest first; none when it has no
/// queue for `fd`.
pub open spec fn queued_at<T>(buffer: Map<u16, Seq<Arc<T>>>, fd: u16) -> Seq<Arc<T>> {
    if buffer.contains_key(fd) {
        buffer[fd]
    } else {
        Seq::empty()
    }
}

/// The index of the first queue of `process`.
fn queue_of<'d, T: IoMessage>(queues: &Vec<ProcessQueues<'d, T>>, process: Entity) -> (index: Option<usize>)
    ensures
        index is None ==> forall|j: int| 0 <= j < queues@.len() ==> !first_target(queue_targets(queues@), j, process),
        index matches Some(i) ==> first_target(queue_targets(queues@), i as int, process),
{
    let mut i: usize = 0;
    while i < queues.len()
        invariant
            0 <= i <= queues@.len(),
            forall|j: int| 0 <= j < i ==> (#[trigger] queues@[j]).process != process,
        decreases queues@.len() - i,
    {
        if same_entity(queues[i].process, process) {
            return Some(i);
        }
        i += 1;
    }
    None
}

/// Demultiplexes a queue of input messages, in order, into the buffers of
/// the processes in `queues`: each message goes to the first queue of its
/// process, where it is delivered as [`deliver_input`] delivers it; a
/// message for a process that has no queue is discarded. `world` holds the
/// capabilities of the endpoint entities. Every buffer's queue for a
/// descriptor ends as it was, followed by [`accepted_inputs`].
pub fn demux_inputs<'a, 'd, T: IoMessage>(
    messages: Vec<ProcessInputMsg<T>>,
    components: &IoComponentCache,
    world: &[EndpointState<'a, T>],
    queues: &mut Vec<ProcessQueues<'d, T>>,
)
    ensures
        final(queues)@.len() == old(queues)@.len(),
        queue_targets(final(queues)@) == queue_targets(old(queues)@),
        forall|j: int, fd: u16|
            0 <= j < old(queues)@.len() ==> #[trigger] queued_at(final(queues)@[j].buffer@, fd)
                == queued_at(old(queues)@[j].buffer@, fd) + accepted_inputs(
                messages@,
                queue_targets(old(queues)@),
                j,
                fd,
                *components,
                world@,
            ),
        forall|j: int, fd: u16|
            0 <= j < old(queues)@.len() ==> (#[trigger] final(queues)@[j].buffer@.contains_key(fd)
                <==> (old(queues)@[j].buffer@.contains_key(fd) || accepted_inputs(
                messages@,
                queue_targets(old(queues)@),
                j,
                fd,
                *components,
                world@,
            ).len() > 0)),
{
    broadcast use vstd::std_specs::vec::axiom_spec_into_iter;

    let ghost whole = messages@;
    let ghost start = queues@;
    let ghost targets = queue_targets(queues@);
    assert(whole.take(0) =~= Seq::<ProcessInputMsg<T>>::empty());
    for message in it: messages.into_iter()
        invariant
            it.seq() == whole,
            queues@.len() == start.len(),
            targets == queue_targets(start),
            queue_targets(queues@) == targets,
            forall|j: int, fd: u16|
                0 <= j < start.len() ==> #[trigger] queued_at(queues@[j].buffer@, fd) == queued_at(
                    start[j].buffer@,
                    fd,
                ) + accepted_inputs(whole.take(it.index()), targets, j, fd, *components, world@),
            forall|j: int, fd: u16|
                0 <= j < start.len() ==> (#[trigger] queues@[j].buffer@.contains_key(fd) <==> (
                start[j].buffer@.contains_key(fd) || accepted_inputs(
                    whole.take(it.index()),
                    targets,
                    j,
                    fd,
                    *components,
                    world@,
                ).len() > 0)),
    {
        let ghost k = it.index();
        let ghost m = message;
        let ghost before = queues@;
        let ghost next = whole.take(k + 1);
        proof {
            assert(next.drop_last() =~= whole.take(k));
            assert(next.last() == m);
        }
        let endpoint_capabilities = match position_of(world, message.endpoint.entity()) {
            Some(e) => world[e].capabilities,
            None => None,
        };
        match queue_of(queues, message.process) {
            Some(i) => {
                let descriptors = queues[i].descriptors;
                let fd = message.fd;
                let delivered = deliver_input(
                    message,
                    components,
                    endpoint_capabilities,
                    descriptors,
                    &mut queues[i].buffer,
                );
                proof {
                    assert(targets[i as int].1 == descriptors@);
                    assert(delivered == queued_for(m, targets, i as int, *components, world@));
                    assert forall|j: int| 0 <= j < start.len() implies (#[trigger] queues@[j]).process == before[j].process
                        && queues@[j].descriptors == before[j].descriptors by {
                    }
                    assert(queue_targets(queues@) =~= targets) by {
                        assert forall|j: int| 0 <= j < start.len() implies #[trigger] queue_targets(queues@)[j] == targets[j] by {
                            assert(queue_targets(queues@)[j] == (queues@[j].process, queues@[j].descriptors@));
                            assert(queue_targets(before)[j] == (before[j].process, before[j].descriptors@));
                        }
                    }
                    assert forall|j: int, f: u16| 0 <= j < start.len() implies #[trigger] queued_at(queues@[j].buffer@, f)
                        == queued_at(start[j].buffer@, f) + accepted_inputs(next, targets, j, f, *components, world@)
                        && (queues@[j].buffer@.contains_key(f) <==> (start[j].buffer@.contains_key(f)
                            || accepted_inputs(next, targets, j, f, *components, world@).len() > 0)) by {
                        let prev = accepted_inputs(whole.take(k), targets, j, f, *components, world@);
                        assert(accepted_inputs(next, targets, j, f, *components, world@) == prev + if queued_for(
                            m, targets, j, *components, world@) && m.fd@ == f {
                            seq![m.payload]
                        } else {
                            Seq::empty()
                        });
                        if j != i {
                            assert(queues@[j] == before[j]);
                            if queued_for(m, targets, j, *components, world@) {
                                assert(first_target(targets, i as int, m.process));
                                if j < i {
                                    assert(targets[j].0 != m.process);
                                } else {
                                    assert(targets[i as int].0 != m.process);
                                }
                            }
                            assert(prev + Seq::<Arc<T>>::empty() =~= prev);
                        } else if f != fd@ || !delivered {
                            assert(prev + Seq::<Arc<T>>::empty() =~= prev);
                            assert(queued_at(queues@[j].buffer@, f) == queued_at(before[j].buffer@, f));
                        } else {
                            assert(queued_at(queues@[j].buffer@, f) =~= queued_at(before[j].buffer@, f).push(m.payload));
                            assert(queued_at(start[j].buffer@, f) + (prev + seq![m.payload]) =~= (queued_at(
                                start[j].buffer@,
                                f,
                            ) + prev).push(m.payload));
                        }
                    }
                }
            },
            None => {
                proof {
                    assert forall|j: int, f: u16| 0 <= j < start.len() implies #[trigger] queued_at(queues@[j].buffer@, f)
                        == queued_at(start[j].buffer@, f) + accepted_inputs(next, targets, j, f, *components, world@)
                        && (queues@[j].buffer@.contains_key(f) <==> (start[j].buffer@.contains_key(f)
                            || accepted_inputs(next, targets, j, f, *components, world@).len() > 0)) by {
                        let prev = accepted_inputs(whole.take(k), targets, j, f, *components, world@);
                        assert(!first_target(targets, j, m.process));
                        assert(accepted_inputs(next, targets, j, f, *components, world@) =~= prev);
                    }
                }
            },
        }
    }
    assert(whole.take(whole.len() as int) =~= whole);
}

} // verus!
