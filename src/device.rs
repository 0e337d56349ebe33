//! The host's side of a printer session: what the printer can do and the
//! bytes queued for it.
use crate::protocol::Command;
use crate::transmit::{chunk, chunk_spec, TX_UNIT};
use vstd::prelude::*;
use vstd::string::StringSliceAdditionalSpecFns;

verus! {

/// The frames of a sequence of commands, in order.
pub open spec fn frames(commands: Seq<Command>) -> Seq<u8>
    decreases commands.len(),
{
    if commands.len() == 0 {
        Seq::empty()
    } else {
        frames(commands.drop_last()) + commands.last().spec_frame()
    }
}

/// Name of the one printer model that does not take compressed rows.
pub open spec fn uncompressed_model() -> Seq<u8> {
    seq![0x4Du8, 0x58u8, 0x31u8, 0x30u8]
}

/// Whether the printer model named `name` takes compressed rows: all do
/// but the "MX10".
pub fn model_supports_compression(name: &str) -> (r: bool)
    ensures
        r == (name.spec_bytes() != uncompressed_model()),
{
    let b = name.as_bytes();
    if b.len() != 4 {
        return true;
    }
    let same = b[0] == 0x4D && b[1] == 0x58 && b[2] == 0x31 && b[3] == 0x30;
    if same {
        assert(b@ =~= uncompressed_model());
    }
    !same
}

/// A printer session: whether the printer takes compressed rows, and the
/// bytes queued for it and not yet sent.
pub struct Device {
    supports_compression: bool,
    tx_buffer: Vec<u8>,
}

impl Device {
    /// The bytes queued and not yet sent.
    pub closed spec fn queued(&self) -> Seq<u8> {
        self.tx_buffer@
    }

    pub closed spec fn spec_supports_compression(&self) -> bool {
        self.supports_compression
    }

    /// A session with nothing queued.
    pub fn new(supports_compression: bool) -> (r: Device)
        ensures
            r.queued() == Seq::<u8>::empty(),
            r.spec_supports_compression() == supports_compression,
    {
        Device { supports_compression, tx_buffer: Vec::new() }
    }

    pub fn supports_compression(&self) -> (r: bool)
        ensures
            r == self.spec_supports_compression(),
    {
        self.supports_compression
    }

    /// Appends the frame of `command` to the queue.
    pub fn queue_command(&mut self, command: Command)
        requires
            command.wf(),
        ensures
            final(self).queued() == old(self).queued() + command.spec_frame(),
            final(self).spec_supports_compression() == old(self).spec_supports_compression(),
    {
        let mut bytes = command.to_bytes();
        self.tx_buffer.append(&mut bytes);
    }

    /// Appends the frames of `commands` to the queue, in order.
    pub fn queue_commands(&mut self, commands: &[Command])
        requires
            forall|i: int| 0 <= i < commands@.len() ==> (#[trigger] commands@[i]).wf(),
        ensures
            final(self).queued() == old(self).queued() + frames(commands@),
            final(self).spec_supports_compression() == old(self).spec_supports_compression(),
    {
        let mut i: usize = 0;
        while i < commands.len()
            invariant
                i <= commands@.len(),
                forall|k: int| 0 <= k < commands@.len() ==> (#[trigger] commands@[k]).wf(),
                self.queued() == old(self).queued() + frames(commands@.take(i as int)),
                self.spec_supports_compression() == old(self).spec_supports_compression(),
            decreases commands.len() - i,
        {
            let command = commands[i];
            assert(commands@.take(i + 1).drop_last() =~= commands@.take(i as int));
            self.queue_command(command);
            assert(self.queued() =~= old(self).queued() + frames(commands@.take(i + 1)));
            i = i + 1;
        }
        assert(commands@.take(commands@.len() as int) =~= commands@);
    }

    /// The queued bytes as the units of writes to the printer, in order.
    pub fn chunks(&self) -> (r: Vec<Vec<u8>>)
        ensures
            r@.map_values(|c: Vec<u8>| c@) == chunk_spec(self.queued(), TX_UNIT as nat),
    {
        chunk(self.tx_buffer.as_slice(), TX_UNIT)
    }

    /// Empties the queue once everything in it has been sent.
    pub fn clear(&mut self)
        ensures
            final(self).queued() == Seq::<u8>::empty(),
            final(self).spec_supports_compression() == old(self).spec_supports_compression(),
    {
        self.tx_buffer.clear();
    }
}

} // verus!
