//! The sequencer: commands that the GSP has the driver run while it boots.

use vstd::prelude::*;

use crate::error::Error;
use crate::wire::zeros;

verus! {

/// Size of the opcode that every command starts with.
pub const OPCODE_SIZE: usize = 4;

/// A sequencer command. No opcode is supported so far, so nothing makes one.
#[derive(Debug)]
pub struct GspSeqCmd {
    _opcode: (),
}

impl GspSeqCmd {
    /// Decodes a command in the layout of the firmware.
    pub fn from_fw_cmd(_cmd: &[u8]) -> (r: Result<GspSeqCmd, Error>)
        ensures
            r == Err::<GspSeqCmd, Error>(Error::EINVAL),
    {
        Err(Error::EINVAL)
    }

    /// Decodes a command from `data`, which has to hold all of it.
    pub fn new(data: &[u8]) -> (r: Result<GspSeqCmd, Error>)
        ensures
            r == Err::<GspSeqCmd, Error>(Error::EINVAL),
    {
        match GspSeqCmd::from_fw_cmd(data) {
            Ok(cmd) => if data.len() < cmd.size_bytes() {
                Err(Error::EINVAL)
            } else {
                Ok(cmd)
            },
            Err(e) => Err(e),
        }
    }

    /// Size of the command in bytes. While no opcode is supported, no command takes any.
    pub fn size_bytes(&self) -> (n: usize)
        ensures
            n == 0,
    {
        0
    }

    /// Runs the command.
    pub fn run(&self) -> (r: Result<(), Error>)
        ensures
            r == Ok::<(), Error>(()),
    {
        Ok(())
    }
}

/// The bytes of `data` from `offset` on, cut or filled up with zeros to the size of a command.
pub open spec fn padded(data: Seq<u8>, offset: int, cmd_size: int) -> Seq<u8> {
    if offset + cmd_size <= data.len() {
        data.subrange(offset, offset + cmd_size)
    } else {
        data.subrange(offset, data.len() as int) + zeros(
            (cmd_size - (data.len() - offset)) as nat,
        )
    }
}

/// The command at `offset`, filled up with zeros, since the last one may not be of full size.
pub fn command_buffer(data: &[u8], offset: usize, cmd_size: usize) -> (buffer: Vec<u8>)
    requires
        offset <= data@.len(),
    ensures
        buffer@ == padded(data@, offset as int, cmd_size as int),
{
    let len: usize = data.len();
    let mut buffer: Vec<u8> = Vec::new();
    while buffer.len() < cmd_size
        invariant
            offset <= len == data@.len(),
            buffer@.len() <= cmd_size,
            forall|i: int|
                0 <= i < buffer@.len() ==> #[trigger] buffer@[i] == if offset + i < len {
                    data@[offset + i]
                } else {
                    0
                },
        decreases cmd_size - buffer@.len(),
    {
        if buffer.len() < len - offset {
            let byte: u8 = data[offset + buffer.len()];
            buffer.push(byte);
        } else {
            buffer.push(0);
        }
    }
    assert(buffer@ =~= padded(data@, offset as int, cmd_size as int));
    buffer
}

/// Goes through the commands of a message, which says how many there are.
#[derive(Debug)]
pub struct GspSeqIter<'a> {
    pub cmd_data: &'a [u8],
    /// Where the next command starts.
    pub current_offset: usize,
    pub total_cmds: u32,
    pub cmds_processed: u32,
    /// Size of the largest command.
    pub cmd_size: usize,
}

impl<'a> GspSeqIter<'a> {
    /// Whether there is nothing left to go through.
    pub open spec fn done(&self) -> bool {
        self.cmds_processed >= self.total_cmds || self.current_offset >= self.cmd_data@.len()
    }

    /// The next command, an error if not even its opcode is there, and nothing at the end or if the
    /// command cannot be decoded.
    pub fn next(&mut self) -> (r: Option<Result<GspSeqCmd, Error>>)
        ensures
            *final(self) == *old(self),
            r == if !old(self).done() && old(self).cmd_data@.len() - old(self).current_offset
                < OPCODE_SIZE {
                Some(Err::<GspSeqCmd, Error>(Error::EINVAL))
            } else {
                None::<Result<GspSeqCmd, Error>>
            },
    {
        let len: usize = self.cmd_data.len();
        if self.cmds_processed >= self.total_cmds || self.current_offset >= len {
            return None;
        }
        let offset: usize = self.current_offset;
        if len - offset < OPCODE_SIZE {
            return Some(Err(Error::EINVAL));
        }
        let buffer: Vec<u8> = command_buffer(self.cmd_data, offset, self.cmd_size);
        match GspSeqCmd::new(buffer.as_slice()) {
            Ok(cmd) => {
                self.current_offset = offset + cmd.size_bytes();
                self.cmds_processed = self.cmds_processed + 1;
                Some(Ok(cmd))
            },
            Err(_) => None,
        }
    }
}

/// The commands of a message from the GSP.
#[derive(Debug)]
pub struct GspSequencer {
    pub cmd_data: Vec<u8>,
    /// Number of commands.
    pub cmd_index: u32,
    /// Size of the largest command.
    pub cmd_size: usize,
}

impl GspSequencer {
    /// Goes through the commands from the first one on.
    pub fn iter(&self) -> (r: GspSeqIter<'_>)
        ensures
            r.cmd_data@ == self.cmd_data@,
            r.current_offset == 0,
            r.total_cmds == self.cmd_index,
            r.cmds_processed == 0,
            r.cmd_size == self.cmd_size,
    {
        GspSeqIter {
            cmd_data: self.cmd_data.as_slice(),
            current_offset: 0,
            total_cmds: self.cmd_index,
            cmds_processed: 0,
            cmd_size: self.cmd_size,
        }
    }

    /// Runs the commands, up to the first one that cannot be decoded. It is an error if the data
    /// ends inside an opcode.
    pub fn run(&self) -> (r: Result<(), Error>)
        ensures
            r == if self.cmd_index > 0 && 0 < self.cmd_data@.len() < OPCODE_SIZE {
                Err::<(), Error>(Error::EINVAL)
            } else {
                Ok::<(), Error>(())
            },
    {
        let mut cmds: GspSeqIter<'_> = self.iter();
        let ghost start = cmds;
        loop
            invariant
                cmds == start,
                start.cmd_data@ == self.cmd_data@,
                start.current_offset == 0,
                start.cmds_processed == 0,
                start.total_cmds == self.cmd_index,
            decreases 0nat,
        {
            match cmds.next() {
                None => {
                    return Ok(());
                },
                Some(Err(e)) => {
                    return Err(e);
                },
                Some(Ok(cmd)) => match cmd.run() {
                    Ok(_) => {},
                    Err(e) => {
                        return Err(e);
                    },
                },
            }
        }
    }
}

/// A command has its full size, with the bytes of the data as far as they go and zeros behind them.
pub proof fn law_padded_bytes(data: Seq<u8>, offset: int, cmd_size: int, i: int)
    requires
        0 <= offset <= data.len(),
        0 <= i < cmd_size,
    ensures
        padded(data, offset, cmd_size).len() == cmd_size,
        padded(data, offset, cmd_size)[i] == if offset + i < data.len() {
            data[offset + i]
        } else {
            0
        },
{
}

/// There is something to go through exactly while commands are announced and data is left.
pub proof fn law_walk_ends(it: GspSeqIter)
    ensures
        !it.done() <==> it.cmds_processed < it.total_cmds && it.current_offset
            < it.cmd_data@.len(),
        OPCODE_SIZE == 4,
{
}

} // verus!
