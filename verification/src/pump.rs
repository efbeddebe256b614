//! Moving bytes between a link and the mesh.
use crate::mesh::{after_incoming, incoming, mesh_inv, told, Delivery, LinkId, Mesh};
use vstd::prelude::*;

verus! {

/// What to do after a read on a link.
#[derive(Debug, PartialEq, Eq)]
pub enum ReadStep {
    /// Perform what the packet asks for, and read on.
    Deliver(Delivery),
    /// The stream has ended or failed: stop reading.
    Stop,
}

/// How sending the next queued packet of a link turned out.
#[derive(Debug, Clone, Copy, PartialEq, Eq, Structural)]
pub enum WriteEvent {
    Written,
    Failed,
    /// There is no more to send, ever.
    QueueClosed,
}

/// Whether a read brought any bytes. A failed read is `None`, the end of the
/// stream an empty read.
pub open spec fn brings_bytes(read: Option<&[u8]>) -> bool {
    read is Some && read->Some_0@.len() > 0
}

/// Handles the outcome of a read on a link.
pub fn on_read(mesh: &mut Mesh, link: LinkId, read: Option<&[u8]>) -> (step: ReadStep)
    requires
        mesh_inv(old(mesh)@),
    ensures
        mesh_inv(final(mesh)@),
        step is Deliver <==> (read matches Some(data) && data@.len() > 0),
        !brings_bytes(read) ==> step is Stop && final(mesh)@ == old(mesh)@,
        brings_bytes(read) ==> step is Deliver && exists|now: int|
            0 <= now <= u128::MAX && told(old(mesh)@, now) && step->Deliver_0@
                == #[trigger] incoming(
                old(mesh)@,
                link,
                read->Some_0@,
                now,
            ) && final(mesh)@ == after_incoming(old(mesh)@, read->Some_0@, now),
{
    match read {
        Some(data) => if data.len() > 0 {
            ReadStep::Deliver(mesh.handle_incoming(link, data))
        } else {
            ReadStep::Stop
        },
        None => ReadStep::Stop,
    }
}

/// Handles the outcome of a read on a link `now` nanoseconds into the life of
/// the node.
pub fn on_read_at(mesh: &mut Mesh, link: LinkId, read: Option<&[u8]>, now: u128) -> (step: ReadStep)
    requires
        mesh_inv(old(mesh)@),
    ensures
        mesh_inv(final(mesh)@),
        step is Deliver <==> (read matches Some(data) && data@.len() > 0),
        !brings_bytes(read) ==> step is Stop && final(mesh)@ == old(mesh)@,
        brings_bytes(read) ==> step is Deliver && step->Deliver_0@ == incoming(
            old(mesh)@,
            link,
            read->Some_0@,
            now as int,
        ) && final(mesh)@ == after_incoming(old(mesh)@, read->Some_0@, now as int),
{
    match read {
        Some(data) => if data.len() > 0 {
            ReadStep::Deliver(mesh.handle_incoming_at(link, data, now))
        } else {
            ReadStep::Stop
        },
        None => ReadStep::Stop,
    }
}

/// Whether to go on writing to a link: writing stops at the first write that
/// fails, and when there is no more to send.
pub fn on_write(event: WriteEvent) -> (go_on: bool)
    ensures
        go_on == (event == WriteEvent::Written),
{
    match event {
        WriteEvent::Written => true,
        WriteEvent::Failed | WriteEvent::QueueClosed => false,
    }
}

} // verus!
