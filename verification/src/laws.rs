//! Properties that hold across the library's operations.

use std::any::TypeId;

use bevy::ecs::entity::Entity;
use vstd::prelude::*;

use crate::ecs_types::entity_bits;
use crate::endpoints::kept_outputs;
use crate::endpoints::survives_closing;
use crate::io::lookup;
use crate::io::without_endpoint;
use crate::io::FileDescriptor;
use crate::io::IoComponentCache;
use crate::io::EndpointWrite;
use crate::io::IoHandle;
use crate::io::ProcessInput;
use crate::io::IoCapabilities;
use crate::io::ProcessInputMsg;
use crate::process::is_valid_program_name;
use crate::process::unicode_white_space;
use crate::routing::accepts_input;
use crate::routing::inputs_to;
use crate::routing::table_view;
use crate::routing::deliverable;
use crate::routing::endpoint_inputs;
use crate::routing::endpoint_writes;
use crate::routing::fanout_inputs;
use crate::routing::fanout_writes;
use crate::routing::find_state;
use crate::routing::leaf_writes;
use crate::routing::batch_inputs;
use crate::routing::batch_writes;
use crate::routing::PendingWrite;
use crate::routing::write_target;
use crate::routing::writes_to;
use crate::routing::EndpointState;
use crate::routing::PipeDelivery;
use crate::routing::RouteLane;
use crate::io::IoMessage;

verus! {

/// After a descriptor is assigned an endpoint, reading it gives that
/// endpoint, and every other descriptor reads as before.
pub proof fn law_set_then_get(
    before: Map<u16, IoHandle>,
    fd: FileDescriptor,
    handle: IoHandle,
    other: FileDescriptor,
)
    ensures
        lookup(before.insert(fd@, handle), fd@) == Some(handle),
        other@ != fd@ ==> lookup(before.insert(fd@, handle), other@) == lookup(before, other@),
{
}

/// After a descriptor is closed it reads as closed, every other descriptor
/// reads as before, and closing a descriptor just assigned undoes the
/// assignment when the descriptor was closed before.
pub proof fn law_close_then_get(
    before: Map<u16, IoHandle>,
    fd: FileDescriptor,
    handle: IoHandle,
    other: FileDescriptor,
)
    ensures
        lookup(before.remove(fd@), fd@) is None,
        other@ != fd@ ==> lookup(before.remove(fd@), other@) == lookup(before, other@),
        !before.contains_key(fd@) ==> before.insert(fd@, handle).remove(fd@) == before,
{
    assert(!before.contains_key(fd@) ==> before.insert(fd@, handle).remove(fd@) =~= before);
}

/// A duplicated descriptor refers to the same endpoint as its source, and
/// keeps doing so after the source is closed.
pub proof fn law_duplicate_aliases(
    before: Map<u16, IoHandle>,
    from: FileDescriptor,
    to: FileDescriptor,
)
    requires
        before.contains_key(from@),
    ensures
        lookup(before.insert(to@, before[from@]), to@) == lookup(before, from@),
        lookup(before.insert(to@, before[from@]), from@) == lookup(before, from@),
        to@ != from@ ==> lookup(before.insert(to@, before[from@]).remove(from@), to@) == lookup(
            before,
            from@,
        ),
{
}

/// Once an endpoint capability is closed in a table, no descriptor of the
/// table refers to it; descriptors of other endpoints are kept; closing
/// again changes nothing.
pub proof fn law_closed_endpoint_is_unreachable(
    table: Map<u16, IoHandle>,
    entity: Entity,
    component: TypeId,
    fd: FileDescriptor,
)
    ensures
        lookup(without_endpoint(table, entity, component), fd@) matches Some(h) ==> !h.selects(
            entity,
            component,
        ),
        (lookup(table, fd@) matches Some(h) && !h.selects(entity, component)) ==> lookup(
            without_endpoint(table, entity, component),
            fd@,
        ) == lookup(table, fd@),
        without_endpoint(without_endpoint(table, entity, component), entity, component)
            == without_endpoint(table, entity, component),
{
    assert(without_endpoint(without_endpoint(table, entity, component), entity, component)
        =~= without_endpoint(table, entity, component));
}

/// The outputs a tee keeps when an endpoint closes never refer to that
/// endpoint, and every kept output was an output before.
pub proof fn law_tee_outputs_after_closing(outputs: Seq<IoHandle>, entity: Entity, component: TypeId)
    ensures
        forall|i: int|
            0 <= i < kept_outputs(outputs, entity, component).len() ==> !(
            #[trigger] kept_outputs(outputs, entity, component)[i]).selects(entity, component),
        forall|i: int|
            0 <= i < kept_outputs(outputs, entity, component).len() ==> outputs.contains(
                #[trigger] kept_outputs(outputs, entity, component)[i],
            ),
{
    broadcast use vstd::seq_lib::group_filter_ensures;

    let kept = kept_outputs(outputs, entity, component);
    assert forall|i: int| 0 <= i < kept.len() implies outputs.contains(#[trigger] kept[i]) by {
        assert(kept.contains(kept[i]));
        outputs.lemma_filter_contains_rev(|h: IoHandle| survives_closing(h, entity, component), kept[i]);
    }
}

/// Every routed endpoint write carries the writing process, its descriptor
/// and the written message.
pub proof fn law_routed_writes_keep_their_source<T>(
    process: Entity,
    fd: FileDescriptor,
    payload: T,
    endpoints: Seq<IoHandle>,
)
    ensures
        writes_to(process, fd, payload, endpoints).len() == endpoints.len(),
        forall|i: int|
            0 <= i < endpoints.len() ==> (#[trigger] writes_to(process, fd, payload, endpoints)[i]).process
                == process && writes_to(process, fd, payload, endpoints)[i].fd == fd && writes_to(
                process,
                fd,
                payload,
                endpoints,
            )[i].payload == payload && writes_to(process, fd, payload, endpoints)[i].endpoint
                == endpoints[i],
{
}

/// An endpoint that is closed, or whose capability does not accept the
/// lane's messages, receives nothing.
pub proof fn law_undeliverable_endpoints_receive_nothing<'a, T: IoMessage>(
    components: IoComponentCache,
    lane: RouteLane,
    world: Seq<EndpointState<'a, T>>,
    h: IoHandle,
    expand_tee: bool,
)
    requires
        !deliverable(components, lane, world, h),
    ensures
        endpoint_writes(components, lane, world, h, expand_tee) == Seq::<IoHandle>::empty(),
        endpoint_inputs(components, lane, world, h, expand_tee) == Seq::<PipeDelivery>::empty(),
{
}

/// Every endpoint a tee's fan-out reaches is one of its outputs, is open and
/// accepts the lane, and is never itself a tee of the lane.
pub proof fn law_tee_fanout_reaches_open_non_tee_outputs<'a, T: IoMessage>(
    components: IoComponentCache,
    lane: RouteLane,
    world: Seq<EndpointState<'a, T>>,
    outputs: Seq<IoHandle>,
)
    ensures
        forall|i: int|
            0 <= i < fanout_writes(components, lane, world, outputs).len() ==> {
                let h = #[trigger] fanout_writes(components, lane, world, outputs)[i];
                &&& outputs.contains(h)
                &&& deliverable(components, lane, world, h)
                &&& h.capability() != lane.tee
            },
    decreases outputs.len(),
{
    if outputs.len() > 0 {
        let rest = outputs.drop_last();
        law_tee_fanout_reaches_open_non_tee_outputs(components, lane, world, rest);
        let head = fanout_writes(components, lane, world, rest);
        let tail = leaf_writes(components, lane, world, outputs.last());
        assert forall|i: int| 0 <= i < fanout_writes(components, lane, world, outputs).len() implies {
            let h = #[trigger] fanout_writes(components, lane, world, outputs)[i];
            &&& outputs.contains(h)
            &&& deliverable(components, lane, world, h)
            &&& h.capability() != lane.tee
        } by {
            let all = fanout_writes(components, lane, world, outputs);
            assert(all == head + tail);
            if i < head.len() {
                assert(all[i] == head[i]);
                let j = choose|j: int| 0 <= j < rest.len() && rest[j] == head[i];
                assert(outputs[j] == rest[j]);
            } else {
                assert(all[i] == tail[i - head.len()]);
                assert(outputs[outputs.len() - 1] == outputs.last());
            }
        }
    }
}

/// A write routed anywhere reaches only open endpoints that accept the lane.
pub proof fn law_routed_endpoints_are_deliverable<'a, T: IoMessage>(
    components: IoComponentCache,
    lane: RouteLane,
    world: Seq<EndpointState<'a, T>>,
    h: IoHandle,
    expand_tee: bool,
)
    ensures
        forall|i: int|
            0 <= i < endpoint_writes(components, lane, world, h, expand_tee).len()
                ==> deliverable(
                components,
                lane,
                world,
                #[trigger] endpoint_writes(components, lane, world, h, expand_tee)[i],
            ),
{
    if deliverable(components, lane, world, h) && h.capability() == lane.tee && expand_tee {
        if let Some(state) = find_state(world, h.target()) {
            if let Some(tee) = state.tee {
                law_tee_fanout_reaches_open_non_tee_outputs(components, lane, world, tee@);
                let all = endpoint_writes(components, lane, world, h, expand_tee);
                let fan = fanout_writes(components, lane, world, tee@);
                assert(all == seq![h] + fan);
                assert forall|i: int| 0 <= i < all.len() implies deliverable(
                    components,
                    lane,
                    world,
                    #[trigger] all[i],
                ) by {
                    if i > 0 {
                        assert(all[i] == fan[i - 1]);
                    }
                }
            }
        }
    }
}

/// A write through an open pipe of the lane reaches the pipe and delivers
/// exactly one input, to the descriptor the pipe was configured with.
pub proof fn law_pipe_delivers_once<'a, T: IoMessage>(
    components: IoComponentCache,
    lane: RouteLane,
    world: Seq<EndpointState<'a, T>>,
    h: IoHandle,
    expand_tee: bool,
)
    requires
        deliverable(components, lane, world, h),
        h.capability() == lane.pipe,
        h.capability() != lane.tee,
        find_state(world, h.target()) matches Some(state) && state.pipe is Some,
    ensures
        endpoint_writes(components, lane, world, h, expand_tee) == seq![h],
        endpoint_inputs(components, lane, world, h, expand_tee).len() == 1,
        endpoint_inputs(components, lane, world, h, expand_tee)[0].process == find_state(
            world,
            h.target(),
        )->0.pipe->0.spec_process(),
        endpoint_inputs(components, lane, world, h, expand_tee)[0].fd == find_state(
            world,
            h.target(),
        )->0.pipe->0.spec_fd(),
        endpoint_inputs(components, lane, world, h, expand_tee)[0].endpoint == h,
{
}

/// A write whose process has a live descriptor table resolves through that
/// table; one whose process is gone is discarded; one whose process exists
/// without a live table resolves through the table retained when its
/// process ended, and is discarded once retained tables are cleared.
pub proof fn law_write_resolution(
    live: Map<u16, IoHandle>,
    exists: bool,
    closing: Map<u64, Map<u16, IoHandle>>,
    retained: Map<u16, IoHandle>,
    process: Entity,
    fd: FileDescriptor,
)
    ensures
        write_target(Some(live), exists, closing, process, fd) == lookup(live, fd@),
        write_target(None, false, closing, process, fd) is None,
        write_target(None, true, closing.insert(entity_bits(process), retained), process, fd)
            == lookup(retained, fd@),
        write_target(None, true, Map::<u64, Map<u16, IoHandle>>::empty(), process, fd) is None,
{
}

/// Inputs accepted for one descriptor queue in arrival order, after what was
/// queued before; the oldest queued message is the first one taken out.
pub proof fn law_input_fifo<T>(
    before: Map<u16, Seq<T>>,
    fd: FileDescriptor,
    first: T,
    second: T,
)
    ensures
        ({
            let queued = if before.contains_key(fd@) {
                before[fd@]
            } else {
                Seq::empty()
            };
            let mid = before.insert(fd@, queued.push(first));
            let after = mid.insert(fd@, mid[fd@].push(second));
            &&& after[fd@] == queued + seq![first, second]
            &&& (queued.len() == 0 ==> after[fd@][0] == first)
        }),
{
    let queued = if before.contains_key(fd@) {
        before[fd@]
    } else {
        Seq::empty()
    };
    let mid = before.insert(fd@, queued.push(first));
    let after = mid.insert(fd@, mid[fd@].push(second));
    assert(after[fd@] =~= queued + seq![first, second]);
}

/// Registering a program makes its name resolve to the registering owner,
/// and registering the same program again changes nothing.
pub proof fn law_registration_is_idempotent<D>(
    before: Map<Seq<char>, (TypeId, D)>,
    name: Seq<char>,
    owner: TypeId,
    data: D,
    again: D,
)
    requires
        before.contains_key(name) ==> before[name].0 == owner,
    ensures
        ({
            let after = if before.contains_key(name) {
                before
            } else {
                before.insert(name, (owner, data))
            };
            let twice = if after.contains_key(name) {
                after
            } else {
                after.insert(name, (owner, again))
            };
            &&& after.contains_key(name)
            &&& after[name].0 == owner
            &&& twice == after
        }),
{
}

/// A program name is never empty.
pub proof fn law_program_names_are_nonempty(name: Seq<char>)
    requires
        is_valid_program_name(name),
    ensures
        name.len() > 0,
{
}

/// The first registration of a component decides its lane: registering it
/// again with another lane leaves the cache as it was.
pub proof fn law_first_lane_wins(
    empty: IoComponentCache,
    once: IoComponentCache,
    twice: IoComponentCache,
    component: TypeId,
    first: TypeId,
    second: TypeId,
)
    requires
        empty@ == Set::<(TypeId, TypeId)>::empty(),
        once@ == empty@.insert((component, first)),
        once.registers(component) ==> twice@ == once@,
    ensures
        twice@.contains((component, first)),
        first != second ==> !twice@.contains((component, second)),
{
    assert(once@.contains((component, first)));
}

/// Routing two batches one after the other gives what routing them as one
/// batch gives: writes keep the order in which programs made them.
pub proof fn law_batches_route_in_order<'a, 't, T: IoMessage>(
    first: Seq<PendingWrite<'t, T>>,
    second: Seq<PendingWrite<'t, T>>,
    closing: Map<u64, Map<u16, IoHandle>>,
    components: IoComponentCache,
    lane: RouteLane,
    world: Seq<EndpointState<'a, T>>,
)
    ensures
        batch_writes(first + second, closing, components, lane, world) == batch_writes(
            first,
            closing,
            components,
            lane,
            world,
        ) + batch_writes(second, closing, components, lane, world),
        batch_inputs(first + second, closing, components, lane, world) == batch_inputs(
            first,
            closing,
            components,
            lane,
            world,
        ) + batch_inputs(second, closing, components, lane, world),
    decreases second.len(),
{
    if second.len() == 0 {
        assert(first + second =~= first);
        assert(batch_writes(second, closing, components, lane, world) =~= Seq::empty());
        assert(batch_inputs(second, closing, components, lane, world) =~= Seq::empty());
        assert(batch_writes(first, closing, components, lane, world) + Seq::<EndpointWrite<T>>::empty()
            =~= batch_writes(first, closing, components, lane, world));
        assert(batch_inputs(first, closing, components, lane, world) + Seq::<ProcessInput<T>>::empty()
            =~= batch_inputs(first, closing, components, lane, world));
    } else {
        let rest = second.drop_last();
        law_batches_route_in_order(first, rest, closing, components, lane, world);
        assert((first + second).drop_last() =~= first + rest);
        assert((first + second).last() == second.last());
        assert(batch_writes(first + second, closing, components, lane, world) =~= batch_writes(
            first,
            closing,
            components,
            lane,
            world,
        ) + batch_writes(second, closing, components, lane, world));
        assert(batch_inputs(first + second, closing, components, lane, world) =~= batch_inputs(
            first,
            closing,
            components,
            lane,
            world,
        ) + batch_inputs(second, closing, components, lane, world));
    }
}

/// Filtering by a predicate that holds of every element keeps the sequence.
proof fn lemma_filter_keeps_all(s: Seq<IoHandle>, pred: spec_fn(IoHandle) -> bool)
    requires
        forall|i: int| 0 <= i < s.len() ==> pred(#[trigger] s[i]),
    ensures
        s.filter(pred) == s,
    decreases s.len(),
{
    reveal(Seq::filter);
    if s.len() > 0 {
        lemma_filter_keeps_all(s.drop_last(), pred);
        assert(pred(s[s.len() - 1]));
        assert(s.drop_last().push(s.last()) =~= s);
    }
}

/// Closing the capability `component` on `entity` in a tee drops exactly
/// the outputs whose entity is `entity` and whose component is `component`,
/// keeping every other output in its order: an output on another entity, or
/// of another component on the same entity, is never dropped.
pub proof fn law_closing_drops_only_the_closed_capability(
    outputs: Seq<IoHandle>,
    entity: Entity,
    component: TypeId,
)
    ensures
        kept_outputs(outputs, entity, component) == outputs.filter(
            |h: IoHandle| !(h.target() == entity && h.capability() == component),
        ),
        forall|h: IoHandle|
            #[trigger] kept_outputs(outputs, entity, component).contains(h) <==> (outputs.contains(h)
                && !(h.target() == entity && h.capability() == component)),
        (forall|i: int| 0 <= i < outputs.len() ==> (#[trigger] outputs[i]).target() != entity)
            ==> kept_outputs(outputs, entity, component) == outputs,
{
    broadcast use vstd::seq_lib::group_filter_ensures;

    let keep = |h: IoHandle| survives_closing(h, entity, component);
    let direct = |h: IoHandle| !(h.target() == entity && h.capability() == component);
    assert(keep =~= direct);
    let kept = kept_outputs(outputs, entity, component);
    assert forall|h: IoHandle| #[trigger] kept.contains(h) <==> (outputs.contains(h) && direct(h)) by {
        if kept.contains(h) {
            outputs.lemma_filter_contains_rev(keep, h);
        }
        if outputs.contains(h) && direct(h) {
            let i = choose|i: int| 0 <= i < outputs.len() && outputs[i] == h;
            assert(outputs.filter(keep).contains(outputs[i]));
        }
    }
    if forall|i: int| 0 <= i < outputs.len() ==> (#[trigger] outputs[i]).target() != entity {
        lemma_filter_keeps_all(outputs, keep);
    }
}

/// A program name is accepted only when it is nonempty and no character of
/// it, the first and the last included, is Unicode white space.
pub proof fn law_program_names_have_no_whitespace_anywhere(name: Seq<char>)
    ensures
        is_valid_program_name(name) <==> (name.len() > 0 && forall|i: int|
            0 <= i < name.len() ==> !unicode_white_space(#[trigger] name[i])),
        forall|i: int|
            0 <= i < name.len() && unicode_white_space(#[trigger] name[i]) ==> !is_valid_program_name(
                name,
            ),
        name.len() > 0 && unicode_white_space(name[name.len() - 1]) ==> !is_valid_program_name(name),
{
}

/// An input is queued only when the receiving descriptor currently refers
/// to exactly the handle that sent it, entity and component both: input from
/// another capability of the same entity, or through a closed descriptor, is
/// refused.
pub proof fn law_input_needs_the_exact_sending_handle<T: IoMessage>(
    message: ProcessInputMsg<T>,
    components: IoComponentCache,
    endpoint_capabilities: Option<&IoCapabilities>,
    descriptors: Map<u16, IoHandle>,
)
    ensures
        accepts_input(message, components, endpoint_capabilities, descriptors) <==> (components.opens(
            message.endpoint,
            endpoint_capabilities,
        ) && descriptors.contains_key(message.fd@) && descriptors[message.fd@].target()
            == message.endpoint.target() && descriptors[message.fd@].capability()
            == message.endpoint.capability()),
        descriptors.contains_key(message.fd@) && descriptors[message.fd@].capability()
            != message.endpoint.capability() ==> !accepts_input(
            message,
            components,
            endpoint_capabilities,
            descriptors,
        ),
        !descriptors.contains_key(message.fd@) ==> !accepts_input(
            message,
            components,
            endpoint_capabilities,
            descriptors,
        ),
{
    if descriptors.contains_key(message.fd@) {
        IoHandle::lemma_fields_identify(descriptors[message.fd@], message.endpoint);
    }
}

/// A batch of one pending write routes as [`crate::routing::route_write`]
/// routes that write: through the descriptor it resolves to, whatever the
/// descriptor's number, with tee expansion.
pub proof fn law_a_pending_write_routes_as_a_single_write<'a, 't, T: IoMessage>(
    pending: PendingWrite<'t, T>,
    closing: Map<u64, Map<u16, IoHandle>>,
    components: IoComponentCache,
    lane: RouteLane,
    world: Seq<EndpointState<'a, T>>,
)
    ensures
        batch_writes(seq![pending], closing, components, lane, world) == match write_target(
            table_view(pending.live),
            pending.exists,
            closing,
            pending.message.process,
            pending.message.fd,
        ) {
            Some(h) => writes_to(
                pending.message.process,
                pending.message.fd,
                pending.message.payload,
                endpoint_writes(components, lane, world, h, true),
            ),
            None => Seq::empty(),
        },
        batch_inputs(seq![pending], closing, components, lane, world) == match write_target(
            table_view(pending.live),
            pending.exists,
            closing,
            pending.message.process,
            pending.message.fd,
        ) {
            Some(h) => inputs_to(
                pending.message.payload,
                endpoint_inputs(components, lane, world, h, true),
            ),
            None => Seq::empty(),
        },
{
    let one = seq![pending];
    let none = Seq::<PendingWrite<'t, T>>::empty();
    assert(one.len() == 1);
    assert(one.drop_last() =~= none);
    assert(one.last() == pending);
    assert(batch_writes(none, closing, components, lane, world) == Seq::<EndpointWrite<T>>::empty());
    assert(batch_inputs(none, closing, components, lane, world) == Seq::<ProcessInput<T>>::empty());
    assert(batch_writes(one, closing, components, lane, world) == batch_writes(
        none,
        closing,
        components,
        lane,
        world,
    ) + crate::routing::pending_writes(pending, closing, components, lane, world));
    assert(batch_inputs(one, closing, components, lane, world) == batch_inputs(
        none,
        closing,
        components,
        lane,
        world,
    ) + crate::routing::pending_inputs(pending, closing, components, lane, world));
    assert(batch_writes(one, closing, components, lane, world) =~= Seq::<EndpointWrite<T>>::empty()
        + crate::routing::pending_writes(pending, closing, components, lane, world));
    assert(batch_inputs(one, closing, components, lane, world) =~= Seq::<ProcessInput<T>>::empty()
        + crate::routing::pending_inputs(pending, closing, components, lane, world));
}

/// A write through any descriptor of a live table that refers to an open,
/// non-tee endpoint of the lane reaches that endpoint exactly once, carrying
/// the writing process, the descriptor and the message.
pub proof fn law_writes_through_any_descriptor_reach_their_endpoint<'a, 't, T: IoMessage>(
    pending: PendingWrite<'t, T>,
    closing: Map<u64, Map<u16, IoHandle>>,
    components: IoComponentCache,
    lane: RouteLane,
    world: Seq<EndpointState<'a, T>>,
    h: IoHandle,
)
    requires
        pending.live matches Some(table) && lookup(table@, pending.message.fd@) == Some(h),
        deliverable(components, lane, world, h),
        h.capability() != lane.tee,
    ensures
        batch_writes(seq![pending], closing, components, lane, world) == seq![
            EndpointWrite {
                process: pending.message.process,
                fd: pending.message.fd,
                endpoint: h,
                payload: pending.message.payload,
            },
        ],
{
    law_a_pending_write_routes_as_a_single_write(pending, closing, components, lane, world);
    assert(writes_to(
        pending.message.process,
        pending.message.fd,
        pending.message.payload,
        seq![h],
    ) =~= seq![
        EndpointWrite {
            process: pending.message.process,
            fd: pending.message.fd,
            endpoint: h,
            payload: pending.message.payload,
        },
    ]);
}

} // verus!
