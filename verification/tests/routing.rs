use std::any::TypeId;
use std::sync::Arc;

use bevy::ecs::entity::Entity;
use q_proc::endpoints::PipeEndpoint;
use q_proc::endpoints::TeeEndpoint;
use q_proc::io::ClosingProcessIo;
use q_proc::io::EndpointWriteMsg;
use q_proc::io::FileDescriptor;
use q_proc::io::IoCapabilities;
use q_proc::io::IoComponentCache;
use q_proc::io::IoHandle;
use q_proc::io::IoMessage;
use q_proc::io::ProcessFdTable;
use q_proc::io::ProcessInputBuffer;
use q_proc::io::ProcessInputMsg;
use q_proc::io::ProcessWriteMsg;
use q_proc::routing::deliver_input;
use q_proc::routing::demux_inputs;
use q_proc::routing::ProcessQueues;
use q_proc::routing::route_write;
use q_proc::routing::route_writes;
use q_proc::routing::PendingWrite;
use q_proc::routing::EndpointState;
use q_proc::routing::RouteLane;

struct FirstEndpoint;

struct SecondEndpoint;

#[derive(Debug, Eq, PartialEq)]
struct CustomMessage(&'static str);

impl IoMessage for CustomMessage {}

#[derive(Debug, Eq, PartialEq)]
struct OtherMessage;

impl IoMessage for OtherMessage {}

struct CustomEndpoint;

type BytePipe = PipeEndpoint<Vec<u8>>;
type ByteTee = TeeEndpoint<Vec<u8>>;

fn entity(index: u32) -> Entity {
    Entity::from_raw_u32(index).expect("the test entity index should be valid")
}

/// The registrations a process plugin makes: the byte lane's pipe and tee.
fn plugin_cache() -> IoComponentCache {
    let mut cache = IoComponentCache::new();
    cache.register(TypeId::of::<BytePipe>(), TypeId::of::<Vec<u8>>());
    cache.register(TypeId::of::<ByteTee>(), TypeId::of::<Vec<u8>>());
    cache
}

fn handle_of<C: 'static>(cache: &IoComponentCache, endpoint: Entity) -> IoHandle {
    cache
        .handle(TypeId::of::<C>(), endpoint, true)
        .expect("the registered component on the entity should produce a handle")
}

fn table(descriptors: &[(FileDescriptor, IoHandle)]) -> ProcessFdTable {
    let mut table = ProcessFdTable::default();
    for (fd, handle) in descriptors {
        table.set(*fd, *handle);
    }
    table
}

fn state<'a, T: IoMessage>(entity: Entity, caps: &'a IoCapabilities) -> EndpointState<'a, T> {
    EndpointState {
        entity,
        capabilities: Some(caps),
        tee: None,
        pipe: None,
    }
}

/// Routes each write, whose process has the given live table and existence.
fn route<T: IoMessage>(
    writes: Vec<(ProcessWriteMsg<T>, Option<&ProcessFdTable>, bool)>,
    closing: &ClosingProcessIo,
    cache: &IoComponentCache,
    world: &[EndpointState<'_, T>],
) -> (Vec<EndpointWriteMsg<T>>, Vec<ProcessInputMsg<T>>) {
    let lane = RouteLane::of::<T>();
    let batch = writes
        .into_iter()
        .map(|(message, live, exists)| PendingWrite { message, live, exists })
        .collect();
    let mut routed = Vec::new();
    let mut inputs = Vec::new();
    route_writes(batch, closing, cache, &lane, world, &mut routed, &mut inputs);
    (routed, inputs)
}

fn caps_of<'a, T: IoMessage>(world: &[EndpointState<'a, T>], e: Entity) -> Option<&'a IoCapabilities> {
    world
        .iter()
        .find(|state| state.entity == e)
        .and_then(|state| state.capabilities)
}

/// Demultiplexes `inputs` with `reader` as the only process.
fn demux<T: IoMessage>(
    inputs: Vec<ProcessInputMsg<T>>,
    reader: Entity,
    descriptors: &ProcessFdTable,
    buffer: &mut ProcessInputBuffer<T>,
    cache: &IoComponentCache,
    world: &[EndpointState<'_, T>],
) {
    let mut queues = vec![ProcessQueues {
        process: reader,
        descriptors,
        buffer: std::mem::take(buffer),
    }];
    demux_inputs(inputs, cache, world, &mut queues);
    *buffer = queues.pop().expect("the reader's queue").buffer;
}

fn drained_bytes(buffer: &mut ProcessInputBuffer<Vec<u8>>, fd: FileDescriptor) -> Option<Vec<u8>> {
    buffer.remove(fd).map(|queue| {
        queue
            .into_iter()
            .flat_map(|payload| payload.as_ref().clone())
            .collect::<Vec<_>>()
    })
}

#[test]
fn shared_endpoint_writes_retain_their_source_processes() {
    let mut cache = plugin_cache();
    cache.register(TypeId::of::<FirstEndpoint>(), TypeId::of::<Vec<u8>>());

    let endpoint_entity = entity(1);
    let caps = IoCapabilities::with(TypeId::of::<FirstEndpoint>());
    let endpoint = handle_of::<FirstEndpoint>(&cache, endpoint_entity);
    let first = entity(2);
    let second = entity(3);
    let first_table = table(&[(FileDescriptor::stdout(), endpoint)]);
    let second_table = table(&[(FileDescriptor::stdout(), endpoint)]);
    let world = [state::<Vec<u8>>(endpoint_entity, &caps)];

    let (writes, _) = route(
        vec![
            (ProcessWriteMsg::stdout(first, b"first".to_vec()), Some(&first_table), true),
            (ProcessWriteMsg::stdout(second, b"second".to_vec()), Some(&second_table), true),
        ],
        &ClosingProcessIo::default(),
        &cache,
        &world,
    );

    assert_eq!(writes.len(), 2);
    assert_eq!(writes[0].process(), first);
    assert_eq!(writes[0].bytes(), b"first");
    assert_eq!(writes[1].process(), second);
    assert_eq!(writes[1].bytes(), b"second");
    assert!(writes.iter().all(|write| write.endpoint() == endpoint));
}

#[test]
fn process_despawn_needs_no_shell_cleanup() {
    let mut cache = plugin_cache();
    cache.register(TypeId::of::<FirstEndpoint>(), TypeId::of::<Vec<u8>>());

    let endpoint_entity = entity(1);
    let caps = IoCapabilities::with(TypeId::of::<FirstEndpoint>());
    let endpoint = handle_of::<FirstEndpoint>(&cache, endpoint_entity);
    let process = entity(2);
    let descriptors = table(&[(FileDescriptor::stdout(), endpoint)]);
    let world = [state::<Vec<u8>>(endpoint_entity, &caps)];

    // Despawning removes the process: its table is retained for final
    // writes, and the entity no longer exists.
    let mut closing = ClosingProcessIo::default();
    closing.retain_table(process, descriptors);
    let process_exists = false;

    let (writes, inputs) = route(
        vec![(
            ProcessWriteMsg::<Vec<u8>>::stdout(process, b"late".to_vec()),
            None,
            process_exists,
        )],
        &closing,
        &cache,
        &world,
    );

    // The table is still retained, yet the write of a despawned process is
    // not routed through it.
    assert!(closing.get(process).is_some());
    assert!(writes.is_empty());
    assert!(inputs.is_empty());
}

#[test]
fn program_writes_route_in_cross_descriptor_order() {
    let mut cache = plugin_cache();
    cache.register(TypeId::of::<FirstEndpoint>(), TypeId::of::<Vec<u8>>());
    let endpoint_entity = entity(1);
    let caps = IoCapabilities::with(TypeId::of::<FirstEndpoint>());
    let endpoint = handle_of::<FirstEndpoint>(&cache, endpoint_entity);
    let process = entity(2);
    let descriptors = table(&[
        (FileDescriptor::stdout(), endpoint),
        (FileDescriptor::stderr(), endpoint),
    ]);
    let world = [state::<Vec<u8>>(endpoint_entity, &caps)];

    let (writes, _) = route(
        vec![
            (ProcessWriteMsg::stdout(process, b"a".to_vec()), Some(&descriptors), true),
            (ProcessWriteMsg::stderr(process, b"b".to_vec()), Some(&descriptors), true),
            (ProcessWriteMsg::stdout(process, b"c".to_vec()), Some(&descriptors), true),
        ],
        &ClosingProcessIo::default(),
        &cache,
        &world,
    );

    assert_eq!(writes.len(), 3);
    assert!(writes.iter().all(|write| write.process() == process));
    assert!(writes.iter().all(|write| write.endpoint() == endpoint));
    assert_eq!(
        writes
            .iter()
            .map(|write| (write.fd(), write.bytes()))
            .collect::<Vec<_>>(),
        [
            (FileDescriptor::stdout(), b"a".as_slice()),
            (FileDescriptor::stderr(), b"b".as_slice()),
            (FileDescriptor::stdout(), b"c".as_slice()),
        ]
    );
}

#[test]
fn missing_process_table_and_descriptor_do_not_route() {
    let mut cache = plugin_cache();
    cache.register(TypeId::of::<FirstEndpoint>(), TypeId::of::<Vec<u8>>());
    let endpoint_entity = entity(1);
    let caps = IoCapabilities::with(TypeId::of::<FirstEndpoint>());
    let endpoint = handle_of::<FirstEndpoint>(&cache, endpoint_entity);
    let world = [state::<Vec<u8>>(endpoint_entity, &caps)];

    let missing_descriptor = entity(2);
    let missing_descriptor_table = table(&[]);
    // `missing_table` had its table removed; `missing_process` never had one.
    let missing_table = entity(3);
    let _removed_table = table(&[(FileDescriptor::stdout(), endpoint)]);
    let missing_process = entity(4);

    let (writes, _) = route(
        vec![
            (
                ProcessWriteMsg::stdout(missing_descriptor, b"discarded".to_vec()),
                Some(&missing_descriptor_table),
                true,
            ),
            (ProcessWriteMsg::stdout(missing_table, b"discarded".to_vec()), None, true),
            (ProcessWriteMsg::stdout(missing_process, b"discarded".to_vec()), None, true),
        ],
        &ClosingProcessIo::default(),
        &cache,
        &world,
    );

    assert!(writes.is_empty());
}

#[test]
fn closed_endpoints_do_not_retarget_or_route() {
    let mut cache = plugin_cache();
    cache.register(TypeId::of::<FirstEndpoint>(), TypeId::of::<Vec<u8>>());
    cache.register(TypeId::of::<SecondEndpoint>(), TypeId::of::<Vec<u8>>());

    let multi_endpoint = entity(1);
    let mut multi_caps = IoCapabilities::with(TypeId::of::<FirstEndpoint>());
    multi_caps.insert(TypeId::of::<SecondEndpoint>());
    let selected = handle_of::<FirstEndpoint>(&cache, multi_endpoint);
    let selected_process = entity(2);
    let mut selected_table = table(&[
        (FileDescriptor::stdout(), selected),
        (FileDescriptor::stderr(), selected),
    ]);
    let alias_process = entity(3);
    let mut alias_table = table(&[(FileDescriptor::stdout(), selected)]);

    let despawned_entity = entity(4);
    let despawned = handle_of::<FirstEndpoint>(&cache, despawned_entity);
    let despawned_process = entity(5);
    let mut despawned_table = table(&[(FileDescriptor::stdout(), despawned)]);

    // Removing `FirstEndpoint` from the multi-capability entity closes it in
    // every descriptor table.
    multi_caps.remove(TypeId::of::<FirstEndpoint>());
    for table in [&mut selected_table, &mut alias_table, &mut despawned_table] {
        table.close_endpoint(multi_endpoint, TypeId::of::<FirstEndpoint>());
    }
    assert_eq!(selected_table.get(FileDescriptor::stdout()), None);
    assert_eq!(selected_table.get(FileDescriptor::stderr()), None);
    assert_eq!(alias_table.get(FileDescriptor::stdout()), None);
    multi_caps.insert(TypeId::of::<FirstEndpoint>());

    // Despawning the other endpoint entity closes its component too.
    for table in [&mut selected_table, &mut alias_table, &mut despawned_table] {
        table.close_endpoint(despawned_entity, TypeId::of::<FirstEndpoint>());
    }
    let world = [state::<Vec<u8>>(multi_endpoint, &multi_caps)];

    let (writes, _) = route(
        vec![
            (
                ProcessWriteMsg::stdout(selected_process, b"removed then reinserted".to_vec()),
                Some(&selected_table),
                true,
            ),
            (
                ProcessWriteMsg::stdout(alias_process, b"alias".to_vec()),
                Some(&alias_table),
                true,
            ),
            (
                ProcessWriteMsg::stdout(despawned_process, b"despawned".to_vec()),
                Some(&despawned_table),
                true,
            ),
        ],
        &ClosingProcessIo::default(),
        &cache,
        &world,
    );

    assert!(writes.is_empty());
}

#[test]
fn pipe_forwards_bytes_to_the_configured_process_descriptor() {
    let cache = plugin_cache();

    let reader = entity(1);
    let pipe_entity = entity(2);
    let pipe_component = BytePipe::new(reader, FileDescriptor::stdin());
    let pipe_caps = IoCapabilities::with(TypeId::of::<BytePipe>());
    let pipe = handle_of::<BytePipe>(&cache, pipe_entity);
    let reader_table = table(&[(FileDescriptor::stdin(), pipe)]);
    let mut reader_buffer = ProcessInputBuffer::<Vec<u8>>::default();
    let writer = entity(3);
    let writer_table = table(&[(FileDescriptor::stdout(), pipe)]);
    let world = [EndpointState {
        entity: pipe_entity,
        capabilities: Some(&pipe_caps),
        tee: None,
        pipe: Some(&pipe_component),
    }];

    let (_, inputs) = route(
        vec![
            (ProcessWriteMsg::stdout(writer, b"through ".to_vec()), Some(&writer_table), true),
            (ProcessWriteMsg::stdout(writer, b"pipe".to_vec()), Some(&writer_table), true),
        ],
        &ClosingProcessIo::default(),
        &cache,
        &world,
    );
    demux(inputs, reader, &reader_table, &mut reader_buffer, &cache, &world);

    assert_eq!(
        drained_bytes(&mut reader_buffer, FileDescriptor::stdin())
            .expect("pipe bytes should reach the configured descriptor"),
        b"through pipe"
    );
}

#[test]
fn mixed_direct_and_tee_writes_preserve_pipe_order() {
    let cache = plugin_cache();

    let reader = entity(1);
    let pipe_entity = entity(2);
    let pipe_component = BytePipe::new(reader, FileDescriptor::stdin());
    let pipe_caps = IoCapabilities::with(TypeId::of::<BytePipe>());
    let pipe = handle_of::<BytePipe>(&cache, pipe_entity);
    let reader_table = table(&[(FileDescriptor::stdin(), pipe)]);
    let mut reader_buffer = ProcessInputBuffer::<Vec<u8>>::default();
    let tee_entity = entity(3);
    let tee_component = ByteTee::new(vec![pipe]);
    let tee_caps = IoCapabilities::with(TypeId::of::<ByteTee>());
    let tee = handle_of::<ByteTee>(&cache, tee_entity);
    let writer = entity(4);
    let writer_table = table(&[
        (FileDescriptor::stdout(), pipe),
        (FileDescriptor::stderr(), tee),
    ]);
    let world = [
        EndpointState {
            entity: pipe_entity,
            capabilities: Some(&pipe_caps),
            tee: None,
            pipe: Some(&pipe_component),
        },
        EndpointState {
            entity: tee_entity,
            capabilities: Some(&tee_caps),
            tee: Some(&tee_component),
            pipe: None,
        },
    ];

    let (_, inputs) = route(
        vec![
            (ProcessWriteMsg::stdout(writer, b"a".to_vec()), Some(&writer_table), true),
            (ProcessWriteMsg::stderr(writer, b"b".to_vec()), Some(&writer_table), true),
            (ProcessWriteMsg::stdout(writer, b"c".to_vec()), Some(&writer_table), true),
        ],
        &ClosingProcessIo::default(),
        &cache,
        &world,
    );
    demux(inputs, reader, &reader_table, &mut reader_buffer, &cache, &world);

    let bytes = drained_bytes(&mut reader_buffer, FileDescriptor::stdin())
        .expect("all converging writes should reach the pipe");
    assert_eq!(bytes, b"abc");
}

#[test]
fn tee_duplicates_writes_to_downstream_handles_in_order() {
    let mut cache = plugin_cache();
    cache.register(TypeId::of::<FirstEndpoint>(), TypeId::of::<Vec<u8>>());
    cache.register(TypeId::of::<SecondEndpoint>(), TypeId::of::<Vec<u8>>());

    let first_entity = entity(1);
    let first_caps = IoCapabilities::with(TypeId::of::<FirstEndpoint>());
    let first = handle_of::<FirstEndpoint>(&cache, first_entity);
    let second_entity = entity(2);
    let second_caps = IoCapabilities::with(TypeId::of::<SecondEndpoint>());
    let second = handle_of::<SecondEndpoint>(&cache, second_entity);
    let tee_entity = entity(3);
    let tee_component = ByteTee::new(vec![first, second]);
    let tee_caps = IoCapabilities::with(TypeId::of::<ByteTee>());
    let tee = handle_of::<ByteTee>(&cache, tee_entity);
    let process = entity(4);
    let descriptors = table(&[(FileDescriptor::stdout(), tee)]);
    let world = [
        state::<Vec<u8>>(first_entity, &first_caps),
        state::<Vec<u8>>(second_entity, &second_caps),
        EndpointState {
            entity: tee_entity,
            capabilities: Some(&tee_caps),
            tee: Some(&tee_component),
            pipe: None,
        },
    ];

    let (routed, _) = route(
        vec![(ProcessWriteMsg::stdout(process, b"fan out".to_vec()), Some(&descriptors), true)],
        &ClosingProcessIo::default(),
        &cache,
        &world,
    );
    let writes = routed
        .into_iter()
        .filter(|write| write.endpoint() != tee)
        .collect::<Vec<_>>();
    assert_eq!(writes.len(), 2);
    assert_eq!(writes[0].endpoint(), first);
    assert_eq!(writes[1].endpoint(), second);
    assert!(writes.iter().all(|write| write.process() == process));
    assert!(writes
        .iter()
        .all(|write| write.fd() == FileDescriptor::stdout()));
    assert!(writes.iter().all(|write| write.payload() == b"fan out"));
}

#[test]
fn removed_tee_outputs_do_not_reopen_after_component_reinsertion() {
    let mut cache = plugin_cache();
    cache.register(TypeId::of::<FirstEndpoint>(), TypeId::of::<Vec<u8>>());

    let output_entity = entity(1);
    let mut output_caps = IoCapabilities::with(TypeId::of::<FirstEndpoint>());
    let output = handle_of::<FirstEndpoint>(&cache, output_entity);
    let reader = entity(2);
    let mut reader_buffer = ProcessInputBuffer::<Vec<u8>>::default();
    let pipe_entity = entity(3);
    let mut pipe_caps = IoCapabilities::with(TypeId::of::<BytePipe>());
    let pipe = handle_of::<BytePipe>(&cache, pipe_entity);
    let reader_table = table(&[]);
    let tee_entity = entity(4);
    let mut tee_component = ByteTee::new(vec![output, pipe]);
    let tee_caps = IoCapabilities::with(TypeId::of::<ByteTee>());
    let tee = handle_of::<ByteTee>(&cache, tee_entity);
    let process = entity(5);
    let descriptors = table(&[(FileDescriptor::stdout(), tee)]);

    // Remove both outputs' components, then insert them again.
    output_caps.remove(TypeId::of::<FirstEndpoint>());
    tee_component.close_output(output_entity, TypeId::of::<FirstEndpoint>());
    pipe_caps.remove(TypeId::of::<BytePipe>());
    tee_component.close_output(pipe_entity, TypeId::of::<BytePipe>());
    output_caps.insert(TypeId::of::<FirstEndpoint>());
    pipe_caps.insert(TypeId::of::<BytePipe>());
    let pipe_component = BytePipe::new(reader, FileDescriptor::stdin());

    assert!(tee_component.outputs().is_empty());

    let world = [
        state::<Vec<u8>>(output_entity, &output_caps),
        EndpointState {
            entity: pipe_entity,
            capabilities: Some(&pipe_caps),
            tee: None,
            pipe: Some(&pipe_component),
        },
        EndpointState {
            entity: tee_entity,
            capabilities: Some(&tee_caps),
            tee: Some(&tee_component),
            pipe: None,
        },
    ];
    let (routed, inputs) = route(
        vec![(ProcessWriteMsg::stdout(process, b"stale".to_vec()), Some(&descriptors), true)],
        &ClosingProcessIo::default(),
        &cache,
        &world,
    );
    demux(inputs, reader, &reader_table, &mut reader_buffer, &cache, &world);

    let writes = routed
        .into_iter()
        .filter(|write| write.endpoint() != tee)
        .count();
    assert_eq!(writes, 0);
    assert!(reader_buffer.is_empty());
}

#[test]
fn typed_external_endpoint_rejects_a_different_message_lane() {
    let mut cache = plugin_cache();
    cache.register(TypeId::of::<PipeEndpoint<OtherMessage>>(), TypeId::of::<OtherMessage>());
    cache.register(TypeId::of::<TeeEndpoint<OtherMessage>>(), TypeId::of::<OtherMessage>());
    cache.register(TypeId::of::<CustomEndpoint>(), TypeId::of::<CustomMessage>());

    let endpoint_entity = entity(1);
    let caps = IoCapabilities::with(TypeId::of::<CustomEndpoint>());
    let endpoint = handle_of::<CustomEndpoint>(&cache, endpoint_entity);
    let process = entity(2);
    let descriptors = table(&[(FileDescriptor::stdout(), endpoint)]);

    let (other, _) = route(
        vec![(ProcessWriteMsg::<OtherMessage>::stdout(process, OtherMessage), Some(&descriptors), true)],
        &ClosingProcessIo::default(),
        &cache,
        &[state::<OtherMessage>(endpoint_entity, &caps)],
    );
    assert!(other.is_empty());

    let (accepted, _) = route(
        vec![(
            ProcessWriteMsg::<CustomMessage>::stdout(process, CustomMessage("accepted")),
            Some(&descriptors),
            true,
        )],
        &ClosingProcessIo::default(),
        &cache,
        &[state::<CustomMessage>(endpoint_entity, &caps)],
    );
    assert_eq!(accepted.len(), 1);
    assert_eq!(accepted[0].payload(), &CustomMessage("accepted"));
}

#[test]
fn typed_pipe_rejects_a_different_message_lane() {
    let mut cache = plugin_cache();
    cache.register(TypeId::of::<PipeEndpoint<CustomMessage>>(), TypeId::of::<CustomMessage>());
    cache.register(TypeId::of::<TeeEndpoint<CustomMessage>>(), TypeId::of::<CustomMessage>());
    cache.register(TypeId::of::<PipeEndpoint<OtherMessage>>(), TypeId::of::<OtherMessage>());
    cache.register(TypeId::of::<TeeEndpoint<OtherMessage>>(), TypeId::of::<OtherMessage>());

    let reader = entity(1);
    let pipe_entity = entity(2);
    let pipe_caps = IoCapabilities::with(TypeId::of::<PipeEndpoint<CustomMessage>>());
    let pipe = handle_of::<PipeEndpoint<CustomMessage>>(&cache, pipe_entity);
    // The pipe entity does not carry the other lane's pipe component.
    let incompatible_handle =
        cache.handle(TypeId::of::<PipeEndpoint<OtherMessage>>(), pipe_entity, false);
    assert!(incompatible_handle.is_none());

    let reader_table = table(&[]);
    let mut reader_other_buffer = ProcessInputBuffer::<OtherMessage>::default();
    let writer = entity(3);
    let writer_table = table(&[(FileDescriptor::stdout(), pipe)]);
    let world = [state::<OtherMessage>(pipe_entity, &pipe_caps)];
    let (routed, inputs) = route(
        vec![(ProcessWriteMsg::<OtherMessage>::stdout(writer, OtherMessage), Some(&writer_table), true)],
        &ClosingProcessIo::default(),
        &cache,
        &world,
    );
    demux(inputs, reader, &reader_table, &mut reader_other_buffer, &cache, &world);

    assert!(routed.is_empty());
    assert!(reader_other_buffer.is_empty());
}

#[test]
fn input_is_demultiplexed_before_shared_program_invocations() {
    let mut cache = plugin_cache();
    cache.register(TypeId::of::<FirstEndpoint>(), TypeId::of::<Vec<u8>>());
    let endpoint_entity = entity(1);
    let caps = IoCapabilities::with(TypeId::of::<FirstEndpoint>());
    let endpoint = handle_of::<FirstEndpoint>(&cache, endpoint_entity);
    let first = entity(2);
    let second = entity(3);
    let first_table = table(&[(FileDescriptor::stdin(), endpoint)]);
    let second_table = table(&[(FileDescriptor::stdin(), endpoint)]);
    let mut first_buffer = ProcessInputBuffer::<Vec<u8>>::default();
    let mut second_buffer = ProcessInputBuffer::<Vec<u8>>::default();
    let world = [state::<Vec<u8>>(endpoint_entity, &caps)];

    let messages = vec![
        ProcessInputMsg::<Vec<u8>>::new(first, FileDescriptor::stdin(), endpoint, b"first".to_vec()),
        ProcessInputMsg::<Vec<u8>>::new(
            first,
            FileDescriptor::stdin(),
            endpoint,
            b"-continued".to_vec(),
        ),
        ProcessInputMsg::<Vec<u8>>::new(second, FileDescriptor::stdin(), endpoint, b"second".to_vec()),
    ];
    for message in messages {
        let caps = caps_of(&world, message.endpoint.entity());
        if message.process == first {
            deliver_input(message, &cache, caps, &first_table, &mut first_buffer);
        } else {
            deliver_input(message, &cache, caps, &second_table, &mut second_buffer);
        }
    }

    // Each program invocation consumes its own process's standard input.
    assert_eq!(
        drained_bytes(&mut first_buffer, FileDescriptor::stdin()).as_deref(),
        Some(b"first-continued".as_slice())
    );
    assert_eq!(
        drained_bytes(&mut second_buffer, FileDescriptor::stdin()).as_deref(),
        Some(b"second".as_slice())
    );
}

#[test]
fn input_requires_the_current_descriptor_endpoint() {
    let mut cache = plugin_cache();
    cache.register(TypeId::of::<FirstEndpoint>(), TypeId::of::<Vec<u8>>());
    let current_entity = entity(1);
    let stale_entity = entity(2);
    let current_caps = IoCapabilities::with(TypeId::of::<FirstEndpoint>());
    let stale_caps = IoCapabilities::with(TypeId::of::<FirstEndpoint>());
    let current_endpoint = handle_of::<FirstEndpoint>(&cache, current_entity);
    let stale_endpoint = handle_of::<FirstEndpoint>(&cache, stale_entity);
    let process = entity(3);
    let descriptors = table(&[(FileDescriptor::stdin(), current_endpoint)]);
    let mut input = ProcessInputBuffer::<Vec<u8>>::default();
    let world = [
        state::<Vec<u8>>(current_entity, &current_caps),
        state::<Vec<u8>>(stale_entity, &stale_caps),
    ];

    let message = ProcessInputMsg::<Vec<u8>>::new(
        process,
        FileDescriptor::stdin(),
        stale_endpoint,
        b"stale".to_vec(),
    );
    let caps = caps_of(&world, message.endpoint.entity());
    deliver_input(message, &cache, caps, &descriptors, &mut input);

    assert!(input
        .get(FileDescriptor::stdin())
        .is_none_or(|queue| queue.is_empty()));
}

#[test]
fn final_writes_resolve_through_the_retained_table_until_cleanup() {
    let mut cache = plugin_cache();
    cache.register(TypeId::of::<FirstEndpoint>(), TypeId::of::<Vec<u8>>());
    let endpoint_entity = entity(1);
    let caps = IoCapabilities::with(TypeId::of::<FirstEndpoint>());
    let endpoint = handle_of::<FirstEndpoint>(&cache, endpoint_entity);
    let process = entity(2);
    let world = [state::<Vec<u8>>(endpoint_entity, &caps)];

    let mut closing = ClosingProcessIo::default();
    closing.retain_table(process, table(&[(FileDescriptor::stdout(), endpoint)]));
    assert_eq!(
        closing
            .get(process)
            .and_then(|t| t.get(FileDescriptor::stdout())),
        Some(endpoint)
    );
    let (writes, _) = route(
        vec![(ProcessWriteMsg::stdout(process, b"final".to_vec()), None, true)],
        &closing,
        &cache,
        &world,
    );
    assert_eq!(writes.len(), 1);
    assert_eq!(writes[0].process(), process);
    assert_eq!(writes[0].payload(), b"final");

    closing.clear();
    assert!(closing.get(process).is_none());
    let (late, _) = route(
        vec![(ProcessWriteMsg::stdout(process, b"late".to_vec()), None, true)],
        &closing,
        &cache,
        &world,
    );
    assert!(late.is_empty());
}

#[test]
fn closing_an_endpoint_reaches_retained_tables() {
    let mut cache = plugin_cache();
    cache.register(TypeId::of::<FirstEndpoint>(), TypeId::of::<Vec<u8>>());
    let endpoint_entity = entity(1);
    let endpoint = handle_of::<FirstEndpoint>(&cache, endpoint_entity);
    let process = entity(2);
    let mut closing = ClosingProcessIo::default();
    closing.retain_table(process, table(&[(FileDescriptor::stdout(), endpoint)]));

    closing.close_endpoint(endpoint_entity, TypeId::of::<FirstEndpoint>());
    let retained = closing.get(process).expect("the table stays retained");
    assert_eq!(retained.get(FileDescriptor::stdout()), None);
}

#[test]
fn tee_payloads_are_shared_between_routed_writes() {
    let mut cache = IoComponentCache::new();
    cache.register(TypeId::of::<PipeEndpoint<CustomMessage>>(), TypeId::of::<CustomMessage>());
    cache.register(TypeId::of::<TeeEndpoint<CustomMessage>>(), TypeId::of::<CustomMessage>());
    let first_reader = entity(1);
    let second_reader = entity(2);
    let first_pipe_entity = entity(3);
    let second_pipe_entity = entity(4);
    let pipe_caps = IoCapabilities::with(TypeId::of::<PipeEndpoint<CustomMessage>>());
    let first_pipe_component = PipeEndpoint::<CustomMessage>::new(first_reader, FileDescriptor::stdin());
    let second_pipe_component = PipeEndpoint::<CustomMessage>::new(second_reader, FileDescriptor::stdin());
    let first_pipe = handle_of::<PipeEndpoint<CustomMessage>>(&cache, first_pipe_entity);
    let second_pipe = handle_of::<PipeEndpoint<CustomMessage>>(&cache, second_pipe_entity);
    let tee_entity = entity(5);
    let tee_caps = IoCapabilities::with(TypeId::of::<TeeEndpoint<CustomMessage>>());
    let tee_component = TeeEndpoint::<CustomMessage>::new(vec![first_pipe, second_pipe]);
    let tee = handle_of::<TeeEndpoint<CustomMessage>>(&cache, tee_entity);
    let writer = entity(6);
    let writer_table = table(&[(FileDescriptor::stdout(), tee)]);
    let world = [
        EndpointState {
            entity: first_pipe_entity,
            capabilities: Some(&pipe_caps),
            tee: None,
            pipe: Some(&first_pipe_component),
        },
        EndpointState {
            entity: second_pipe_entity,
            capabilities: Some(&pipe_caps),
            tee: None,
            pipe: Some(&second_pipe_component),
        },
        EndpointState {
            entity: tee_entity,
            capabilities: Some(&tee_caps),
            tee: Some(&tee_component),
            pipe: None,
        },
    ];

    let (routed, inputs) = route(
        vec![(
            ProcessWriteMsg::<CustomMessage>::stdout(writer, CustomMessage("typed")),
            Some(&writer_table),
            true,
        )],
        &ClosingProcessIo::default(),
        &cache,
        &world,
    );
    assert_eq!(routed.len(), 3);
    assert!(routed[1..]
        .iter()
        .all(|message| std::ptr::eq(routed[0].payload(), message.payload())));
    assert_eq!(inputs.len(), 2);
    assert_eq!(inputs[0].process, first_reader);
    assert_eq!(inputs[1].process, second_reader);
    assert_eq!(*inputs[0].payload(), CustomMessage("typed"));
    assert!(Arc::ptr_eq(&inputs[0].payload, &inputs[1].payload));
}

#[test]
fn a_single_write_reports_the_endpoint_it_resolved_to() {
    let mut cache = plugin_cache();
    cache.register(TypeId::of::<FirstEndpoint>(), TypeId::of::<Vec<u8>>());
    let endpoint_entity = entity(1);
    let caps = IoCapabilities::with(TypeId::of::<FirstEndpoint>());
    let endpoint = handle_of::<FirstEndpoint>(&cache, endpoint_entity);
    let process = entity(2);
    let descriptors = table(&[(FileDescriptor::stdout(), endpoint)]);
    let world = [state::<Vec<u8>>(endpoint_entity, &caps)];
    let lane = RouteLane::of::<Vec<u8>>();
    let closing = ClosingProcessIo::default();
    let mut routed = Vec::new();
    let mut inputs = Vec::new();

    let resolved = route_write(
        ProcessWriteMsg::stdout(process, b"out".to_vec()),
        Some(&descriptors),
        true,
        &closing,
        &cache,
        &lane,
        &world,
        &mut routed,
        &mut inputs,
    );
    let unresolved = route_write(
        ProcessWriteMsg::stderr(process, b"err".to_vec()),
        Some(&descriptors),
        true,
        &closing,
        &cache,
        &lane,
        &world,
        &mut routed,
        &mut inputs,
    );

    assert_eq!(resolved, Some(endpoint));
    assert_eq!(unresolved, None);
    assert_eq!(routed.len(), 1);
    assert_eq!(routed[0].bytes(), b"out");
    assert!(inputs.is_empty());
}

#[test]
fn routing_two_batches_in_turn_matches_routing_them_together() {
    let mut cache = plugin_cache();
    cache.register(TypeId::of::<FirstEndpoint>(), TypeId::of::<Vec<u8>>());
    let endpoint_entity = entity(1);
    let caps = IoCapabilities::with(TypeId::of::<FirstEndpoint>());
    let endpoint = handle_of::<FirstEndpoint>(&cache, endpoint_entity);
    let process = entity(2);
    let descriptors = table(&[(FileDescriptor::stdout(), endpoint)]);
    let world = [state::<Vec<u8>>(endpoint_entity, &caps)];
    let closing = ClosingProcessIo::default();
    let writes = |texts: &[&[u8]]| -> Vec<(ProcessWriteMsg<Vec<u8>>, Option<&ProcessFdTable>, bool)> {
        texts
            .iter()
            .map(|text| (ProcessWriteMsg::stdout(process, text.to_vec()), Some(&descriptors), true))
            .collect()
    };

    let (together, _) = route(writes(&[b"a", b"b", b"c"]), &closing, &cache, &world);
    let (first, _) = route(writes(&[b"a"]), &closing, &cache, &world);
    let (second, _) = route(writes(&[b"b", b"c"]), &closing, &cache, &world);

    let bytes = |msgs: &[EndpointWriteMsg<Vec<u8>>]| -> Vec<Vec<u8>> {
        msgs.iter().map(|m| m.bytes().to_vec()).collect()
    };
    let mut in_turn = bytes(&first);
    in_turn.extend(bytes(&second));
    assert_eq!(bytes(&together), in_turn);
    assert_eq!(in_turn, vec![b"a".to_vec(), b"b".to_vec(), b"c".to_vec()]);
}

#[test]
fn a_lane_tells_its_message_tee_and_pipe_apart() {
    let lane = RouteLane::of::<Vec<u8>>();
    assert_eq!(lane.message, TypeId::of::<Vec<u8>>());
    assert_eq!(lane.tee, TypeId::of::<ByteTee>());
    assert_eq!(lane.pipe, TypeId::of::<BytePipe>());
    assert_ne!(lane.message, lane.tee);
    assert_ne!(lane.message, lane.pipe);
    assert_ne!(lane.tee, lane.pipe);
}

#[test]
fn a_queue_of_inputs_reaches_each_process_in_message_order() {
    let mut cache = plugin_cache();
    cache.register(TypeId::of::<FirstEndpoint>(), TypeId::of::<Vec<u8>>());
    let endpoint_entity = entity(1);
    let caps = IoCapabilities::with(TypeId::of::<FirstEndpoint>());
    let endpoint = handle_of::<FirstEndpoint>(&cache, endpoint_entity);
    let closed = handle_of::<BytePipe>(&cache, entity(9));
    let world = [state::<Vec<u8>>(endpoint_entity, &caps)];
    let first = entity(2);
    let second = entity(3);
    let missing = entity(4);
    let first_table = table(&[(FileDescriptor::stdin(), endpoint)]);
    let second_table = table(&[(FileDescriptor::stdin(), endpoint), (FileDescriptor::new(3), endpoint)]);
    let input = |process: Entity, fd: FileDescriptor, from: IoHandle, text: &[u8]| {
        ProcessInputMsg::new(process, fd, from, text.to_vec())
    };

    let mut queues = vec![
        ProcessQueues { process: first, descriptors: &first_table, buffer: ProcessInputBuffer::default() },
        ProcessQueues { process: second, descriptors: &second_table, buffer: ProcessInputBuffer::default() },
    ];
    demux_inputs(
        vec![
            input(first, FileDescriptor::stdin(), endpoint, b"a"),
            input(second, FileDescriptor::new(3), endpoint, b"x"),
            input(missing, FileDescriptor::stdin(), endpoint, b"lost"),
            input(first, FileDescriptor::stdin(), closed, b"closed"),
            input(first, FileDescriptor::new(3), endpoint, b"no descriptor"),
            input(second, FileDescriptor::stdin(), endpoint, b"y"),
            input(first, FileDescriptor::stdin(), endpoint, b"b"),
        ],
        &cache,
        &world,
        &mut queues,
    );

    let mut second_buffer = queues.pop().expect("the second queue").buffer;
    let mut first_buffer = queues.pop().expect("the first queue").buffer;
    assert_eq!(drained_bytes(&mut first_buffer, FileDescriptor::stdin()), Some(b"ab".to_vec()));
    assert!(first_buffer.is_empty());
    assert_eq!(drained_bytes(&mut second_buffer, FileDescriptor::stdin()), Some(b"y".to_vec()));
    assert_eq!(drained_bytes(&mut second_buffer, FileDescriptor::new(3)), Some(b"x".to_vec()));
    assert!(second_buffer.is_empty());
}
