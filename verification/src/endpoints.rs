//! Generic process I/O endpoints.

use std::any::TypeId;
use std::marker::PhantomData;

use bevy::ecs::entity::Entity;
use vstd::prelude::*;

use crate::io::FileDescriptor;
use crate::io::IoComponent;
use crate::io::IoHandle;
use crate::io::IoMessage;

verus! {

/// A pipe write endpoint that forwards messages of type `T` to one process
/// descriptor.
///
/// This adapter does not yet model bounded capacity, blocking, wakeups, or EOF.
#[derive(Debug)]
pub struct PipeEndpoint<T: IoMessage> {
    process: Entity,
    fd: FileDescriptor,
    marker: PhantomData<T>,
}

impl<T: IoMessage> PipeEndpoint<T> {
    /// The process that receives pipe input.
    pub closed spec fn spec_process(self) -> Entity {
        self.process
    }

    /// The descriptor that receives pipe input.
    pub closed spec fn spec_fd(self) -> FileDescriptor {
        self.fd
    }

    /// Creates a pipe endpoint for `process` and `fd`.
    pub fn new(process: Entity, fd: FileDescriptor) -> (pipe: Self)
        ensures
            pipe.spec_process() == process,
            pipe.spec_fd() == fd,
    {
        PipeEndpoint { process, fd, marker: PhantomData }
    }

    /// Returns the process that receives pipe input.
    pub fn process(&self) -> (process: Entity)
        ensures
            process == self.spec_process(),
    {
        self.process
    }

    /// Returns the descriptor that receives pipe input.
    pub fn fd(&self) -> (fd: FileDescriptor)
        ensures
            fd == self.spec_fd(),
    {
        self.fd
    }
}

impl<T: IoMessage> Clone for PipeEndpoint<T> {
    fn clone(&self) -> (copy: Self)
        ensures
            copy == *self,
    {
        PipeEndpoint { process: self.process, fd: self.fd, marker: PhantomData }
    }
}

impl<T: IoMessage> Copy for PipeEndpoint<T> {

}

impl<T: IoMessage> IoComponent for PipeEndpoint<T> {
    type Stdin = T;

    type Stdout = T;
}

/// An endpoint that duplicates each message of type `T` to configured
/// downstream handles.
///
/// Outputs are visited in declaration order. Nested tees are not yet supported.
#[derive(Debug)]
pub struct TeeEndpoint<T: IoMessage> {
    outputs: Vec<IoHandle>,
    marker: PhantomData<T>,
}

impl<T: IoMessage> View for TeeEndpoint<T> {
    /// Downstream handles in forwarding order.
    type V = Seq<IoHandle>;

    closed spec fn view(&self) -> Seq<IoHandle> {
        self.outputs@
    }
}

impl<T: IoMessage> Default for TeeEndpoint<T> {
    fn default() -> (tee: Self)
        ensures
            tee@ == Seq::<IoHandle>::empty(),
    {
        TeeEndpoint { outputs: Vec::new(), marker: PhantomData }
    }
}

/// Whether `handle` stays an output once the capability `component` on
/// `entity` closes.
pub open spec fn survives_closing(handle: IoHandle, entity: Entity, component: TypeId) -> bool {
    !handle.selects(entity, component)
}

/// The outputs, in order, that stay once the capability `component` on
/// `entity` closes.
pub open spec fn kept_outputs(outputs: Seq<IoHandle>, entity: Entity, component: TypeId) -> Seq<IoHandle> {
    outputs.filter(|h: IoHandle| survives_closing(h, entity, component))
}

impl<T: IoMessage> TeeEndpoint<T> {
    /// Creates a tee endpoint with outputs in forwarding order.
    pub fn new(outputs: Vec<IoHandle>) -> (tee: Self)
        ensures
            tee@ == outputs@,
    {
        TeeEndpoint { outputs, marker: PhantomData }
    }

    /// Returns downstream handles in forwarding order.
    pub fn outputs(&self) -> (outputs: &[IoHandle])
        ensures
            outputs@ == self@,
    {
        self.outputs.as_slice()
    }

    /// Drops every output that selects the capability `component` on
    /// `entity`, keeping the others in order.
    pub fn close_output(&mut self, entity: Entity, component: TypeId)
        ensures
            final(self)@ == kept_outputs(old(self)@, entity, component),
    {
        let ghost keep = |h: IoHandle| survives_closing(h, entity, component);
        let mut kept: Vec<IoHandle> = Vec::new();
        let mut i: usize = 0;
        while i < self.outputs.len()
            invariant
                0 <= i <= self.outputs@.len(),
                self.outputs@ == old(self).outputs@,
                keep == (|h: IoHandle| survives_closing(h, entity, component)),
                kept@ == self.outputs@.take(i as int).filter(keep),
            decreases self.outputs@.len() - i,
        {
            let handle = self.outputs[i];
            let ghost kept_before = kept@;
            if handle.is_apart_from(entity, component) {
                kept.push(handle);
            }
            proof {
                let next = self.outputs@.take(i + 1);
                reveal(Seq::filter);
                assert(next.drop_last() =~= self.outputs@.take(i as int));
                assert(next.last() == handle);
                assert(keep(handle) == !handle.selects(entity, component));
                assert(next.filter(keep) == (if keep(next.last()) {
                    next.drop_last().filter(keep).push(next.last())
                } else {
                    next.drop_last().filter(keep)
                }));
                assert(kept@ =~= next.filter(keep));
            }
            i += 1;
        }
        assert(self.outputs@.take(self.outputs@.len() as int) =~= self.outputs@);
        self.outputs = kept;
    }
}

impl<T: IoMessage> IoComponent for TeeEndpoint<T> {
    type Stdin = T;

    type Stdout = T;
}

} // verus!
