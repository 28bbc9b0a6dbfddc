//! The GSP (GPU System Processor).

use vstd::prelude::*;

use vstd::slice::slice_subrange;

use crate::error::Error;
use crate::gsp::cmdq::{Cmdq, GSP_MEM_PTES};
use crate::wire::{
    le_bytes, le_value, lemma_le_bytes_len, lemma_pow256, lemma_value_of_bytes, put_le, put_zeros,
    zeros,
};

pub mod cmdq;
pub mod sequencer;

verus! {

/// Size of a page of the GSP, as a power of two.
pub const GSP_PAGE_SHIFT: usize = 12;

/// Size of a page of the GSP.
pub const GSP_PAGE_SIZE: usize = 0x1000;

/// Page table entries, as the GSP bootloader understands them.
#[derive(Debug, Clone, Copy)]
pub struct PteArray<const NUM_PAGES: usize> {
    pub ptes: [u64; NUM_PAGES],
}

/// Whether all pages of a run of `num_pages` pages that starts at `start` have 64-bit addresses.
pub open spec fn pages_fit(start: u64, num_pages: int) -> bool {
    num_pages > 0 ==> start + (num_pages - 1) * GSP_PAGE_SIZE <= u64::MAX
}

impl<const NUM_PAGES: usize> PteArray<NUM_PAGES> {
    /// Maps `NUM_PAGES` pages from the address `start` on. A 64-bit address space has 2^52 pages.
    pub fn new(start: u64) -> (r: Result<PteArray<NUM_PAGES>, Error>)
        requires
            NUM_PAGES <= 0x10_0000_0000_0000,
        ensures
            r is Ok <==> pages_fit(start, NUM_PAGES as int),
            r matches Err(e) ==> e == Error::EOVERFLOW,
            r matches Ok(array) ==> forall|i: int|
                0 <= i < NUM_PAGES ==> #[trigger] array.ptes[i] == start + i * GSP_PAGE_SIZE,
    {
        let mut ptes: [u64; NUM_PAGES] = [0u64; NUM_PAGES];
        let mut i: usize = 0;
        while i < NUM_PAGES
            invariant
                i <= NUM_PAGES <= 0x10_0000_0000_0000,
                pages_fit(start, i as int),
                forall|j: int| 0 <= j < i ==> #[trigger] ptes@[j] == start + j * GSP_PAGE_SIZE,
            decreases NUM_PAGES - i,
        {
            match start.checked_add((i as u64) * 0x1000) {
                Some(pte) => {
                    ptes[i] = pte;
                },
                None => {
                    return Err(Error::EOVERFLOW);
                },
            }
            i = i + 1;
        }
        Ok(PteArray { ptes })
    }
}

/// Number of pages of a log buffer.
pub const RM_LOG_BUFFER_NUM_PAGES: usize = 0x10;

/// Size of a log buffer in bytes.
pub const LOG_BUFFER_SIZE: usize = 0x10000;

/// The bytes of the page table entries for `n` pages from the address `start` on.
pub open spec fn pte_bytes(start: u64, n: nat) -> Seq<u8>
    decreases n,
{
    if n == 0 {
        Seq::empty()
    } else {
        pte_bytes(start, (n - 1) as nat) + le_bytes(
            (start + (n - 1) * GSP_PAGE_SIZE) as nat,
            8,
        )
    }
}

/// A new log buffer at the address `dma_handle`: the "put" pointer, which is zero, then the page
/// table entries of the buffer itself, then nothing but zeros.
pub open spec fn new_log_buffer(dma_handle: u64) -> Seq<u8> {
    zeros(8) + pte_bytes(dma_handle, RM_LOG_BUFFER_NUM_PAGES as nat) + zeros(
        (LOG_BUFFER_SIZE - 8 - 8 * RM_LOG_BUFFER_NUM_PAGES) as nat,
    )
}

/// The 64-bit number at index `i` of a buffer.
pub open spec fn u64_at(data: Seq<u8>, i: int) -> nat {
    le_value(data.subrange(8 * i, 8 * i + 8))
}

proof fn lemma_pte_bytes(start: u64, n: nat, i: int)
    ensures
        pte_bytes(start, n).len() == 8 * n,
        0 <= i < n ==> pte_bytes(start, n).subrange(8 * i, 8 * i + 8) == le_bytes(
            (start + i * GSP_PAGE_SIZE) as nat,
            8,
        ),
    decreases n,
{
    if n > 0 {
        let init = pte_bytes(start, (n - 1) as nat);
        let last = le_bytes((start + (n - 1) * GSP_PAGE_SIZE) as nat, 8);
        lemma_pte_bytes(start, (n - 1) as nat, i);
        lemma_le_bytes_len((start + (n - 1) * GSP_PAGE_SIZE) as nat, 8);
        if i == n - 1 {
            assert((init + last).subrange(8 * i, 8 * i + 8) =~= last);
        } else if 0 <= i < n - 1 {
            assert((init + last).subrange(8 * i, 8 * i + 8) =~= init.subrange(8 * i, 8 * i + 8));
        }
    }
}

/// A new log buffer holds no logging data, since its "put" pointer is zero, and it holds its own
/// address map from index 1 on.
pub proof fn law_new_log_buffer_maps_itself(dma_handle: u64, i: int)
    requires
        pages_fit(dma_handle, RM_LOG_BUFFER_NUM_PAGES as int),
        0 <= i < RM_LOG_BUFFER_NUM_PAGES,
    ensures
        new_log_buffer(dma_handle).len() == LOG_BUFFER_SIZE,
        u64_at(new_log_buffer(dma_handle), 0) == 0,
        u64_at(new_log_buffer(dma_handle), i + 1) == dma_handle + i * GSP_PAGE_SIZE,
{
    let data = new_log_buffer(dma_handle);
    lemma_pte_bytes(dma_handle, 16, i);
    lemma_pow256();
    reveal_with_fuel(le_bytes, 9);
    assert(data.subrange(0, 8) =~= le_bytes(0, 8));
    lemma_value_of_bytes(0, 8);
    assert(data.subrange(8 * (i + 1), 8 * (i + 1) + 8) =~= pte_bytes(dma_handle, 16).subrange(
        8 * i,
        8 * i + 8,
    ));
    lemma_value_of_bytes((dma_handle + i * GSP_PAGE_SIZE) as nat, 8);
}

/// A log buffer: a queue of bytes in which the GSP encodes messages for a special application.
///
/// Its first 64-bit number is the "put" pointer: the index at which the next entry will be written,
/// or zero while there is no logging data. The address map of the buffer follows.
#[derive(Debug)]
pub struct LogBuffer {
    pub data: Vec<u8>,
}

/// What a read of at most `room` bytes at `offset` gives.
pub open spec fn log_read(data: Seq<u8>, offset: int, room: int) -> Seq<u8> {
    if offset >= data.len() {
        Seq::empty()
    } else if data.len() - offset <= room {
        data.subrange(offset, data.len() as int)
    } else {
        data.subrange(offset, offset + room)
    }
}

/// Two reads, the second where the first ended, give the bytes of one read with the room of both.
pub proof fn law_log_reads_compose(data: Seq<u8>, offset: int, a: int, b: int)
    requires
        0 <= offset,
        0 <= a,
        0 <= b,
    ensures
        log_read(data, offset, a) + log_read(data, offset + log_read(data, offset, a).len(), b)
            == log_read(data, offset, a + b),
{
    assert(log_read(data, offset, a) + log_read(
        data,
        offset + log_read(data, offset, a).len(),
        b,
    ) =~= log_read(data, offset, a + b));
}

impl LogBuffer {
    /// The contents of a new log buffer at the address `dma_handle`.
    pub fn new(dma_handle: u64) -> (r: Result<LogBuffer, Error>)
        ensures
            r is Ok <==> pages_fit(dma_handle, RM_LOG_BUFFER_NUM_PAGES as int),
            r matches Err(e) ==> e == Error::EOVERFLOW,
            r matches Ok(log) ==> log.data@ == new_log_buffer(dma_handle),
    {
        let array: PteArray<RM_LOG_BUFFER_NUM_PAGES> = match PteArray::<
            RM_LOG_BUFFER_NUM_PAGES,
        >::new(dma_handle) {
            Ok(array) => array,
            Err(e) => {
                return Err(e);
            },
        };
        let mut data: Vec<u8> = Vec::new();
        put_zeros(&mut data, 8);
        assert(data@ =~= zeros(8));
        let mut i: usize = 0;
        assert(data@ =~= zeros(8) + pte_bytes(dma_handle, 0));
        while i < RM_LOG_BUFFER_NUM_PAGES
            invariant
                i <= RM_LOG_BUFFER_NUM_PAGES,
                forall|j: int|
                    0 <= j < RM_LOG_BUFFER_NUM_PAGES ==> #[trigger] array.ptes[j] == dma_handle + j
                        * GSP_PAGE_SIZE,
                data@ == zeros(8) + pte_bytes(dma_handle, i as nat),
            decreases RM_LOG_BUFFER_NUM_PAGES - i,
        {
            let pte: u64 = array.ptes[i];
            put_le(&mut data, pte, 8);
            i = i + 1;
            assert(data@ =~= zeros(8) + pte_bytes(dma_handle, i as nat));
        }
        put_zeros(&mut data, LOG_BUFFER_SIZE - 8 - 8 * RM_LOG_BUFFER_NUM_PAGES);
        Ok(LogBuffer { data })
    }

    /// What a reader with room for `room` bytes receives at `offset`, and the offset behind it.
    pub fn write_to_slice(&self, room: usize, offset: i64) -> (r: Result<(&[u8], i64), Error>)
        requires
            self.data@.len() <= i64::MAX,
        ensures
            r is Ok <==> 0 <= offset <= usize::MAX,
            r matches Err(e) ==> e == Error::EINVAL,
            r matches Ok(read) ==> {
                &&& read.0@ == log_read(self.data@, offset as int, room as int)
                &&& read.0@.len() == if offset >= self.data@.len() {
                    0
                } else if self.data@.len() - offset <= room {
                    self.data@.len() - offset
                } else {
                    room as int
                }
                &&& forall|k: int|
                    0 <= k < read.0@.len() ==> #[trigger] read.0@[k] == self.data@[offset + k]
                &&& read.1 == offset + read.0@.len()
            },
    {
        if offset < 0 || offset as u64 > usize::MAX as u64 {
            return Err(Error::EINVAL);
        }
        let from: usize = offset as usize;
        let len: usize = self.data.len();
        if from >= len {
            let read: &[u8] = slice_subrange(self.data.as_slice(), 0, 0);
            assert(read@ =~= Seq::empty());
            return Ok((read, offset));
        }
        let count: usize = if len - from <= room {
            len - from
        } else {
            room
        };
        Ok((slice_subrange(self.data.as_slice(), from, from + count), offset + count as i64))
    }
}

/// A memory region that the GSP is told about when it boots.
#[derive(Debug, Clone, Copy)]
pub struct LibosRegion {
    pub name: &'static str,
    pub address: u64,
    pub size: usize,
}

/// Number of entries of `entry_size` bytes that the page with the table of memory regions has.
pub fn libos_slots(entry_size: usize) -> (n: usize)
    requires
        0 < entry_size,
    ensures
        n == GSP_PAGE_SIZE / entry_size,
{
    GSP_PAGE_SIZE / entry_size
}

/// Addresses of the memory that a [`Gsp`] uses.
#[derive(Debug, Clone, Copy, PartialEq, Eq, Structural)]
pub struct GspHandles {
    pub loginit: u64,
    pub logintr: u64,
    pub logrm: u64,
    pub cmdq: u64,
    pub rmargs: u64,
}

/// Runtime data of the GSP.
#[derive(Debug)]
pub struct Gsp {
    /// Buffer for the logs of the early initialisation.
    pub loginit: LogBuffer,
    /// Buffer for the logs of interrupts.
    pub logintr: LogBuffer,
    /// Buffer for the logs that follow.
    pub logrm: LogBuffer,
    /// Command queue.
    pub cmdq: Cmdq,
    /// The memory regions that the GSP is told about.
    pub libos: [LibosRegion; 4],
}

impl Gsp {
    /// Sets up the log buffers, the command queue and the table of memory regions. The arguments at
    /// the address `rmargs` take `rmargs_size` bytes.
    pub fn new(handles: GspHandles, rmargs_size: usize, rx_hdr_off: u32) -> (r: Result<Gsp, Error>)
        ensures
            r is Ok <==> {
                &&& pages_fit(handles.loginit, RM_LOG_BUFFER_NUM_PAGES as int)
                &&& pages_fit(handles.logintr, RM_LOG_BUFFER_NUM_PAGES as int)
                &&& pages_fit(handles.logrm, RM_LOG_BUFFER_NUM_PAGES as int)
                &&& pages_fit(handles.cmdq, GSP_MEM_PTES as int)
            },
            r matches Err(e) ==> e == Error::EOVERFLOW,
            r matches Ok(gsp) ==> {
                &&& gsp.loginit.data@ == new_log_buffer(handles.loginit)
                &&& gsp.logintr.data@ == new_log_buffer(handles.logintr)
                &&& gsp.logrm.data@ == new_log_buffer(handles.logrm)
                &&& gsp.cmdq.is_new(handles.cmdq, rx_hdr_off)
                &&& gsp.libos[0].name@ == "LOGINIT"@
                &&& gsp.libos[0].address == handles.loginit
                &&& gsp.libos[0].size == LOG_BUFFER_SIZE
                &&& gsp.libos[1].name@ == "LOGINTR"@
                &&& gsp.libos[1].address == handles.logintr
                &&& gsp.libos[1].size == LOG_BUFFER_SIZE
                &&& gsp.libos[2].name@ == "LOGRM"@
                &&& gsp.libos[2].address == handles.logrm
                &&& gsp.libos[2].size == LOG_BUFFER_SIZE
                &&& gsp.libos[3].name@ == "RMARGS"@
                &&& gsp.libos[3].address == handles.rmargs
                &&& gsp.libos[3].size == rmargs_size
            },
    {
        let loginit: LogBuffer = match LogBuffer::new(handles.loginit) {
            Ok(log) => log,
            Err(e) => {
                return Err(e);
            },
        };
        let logintr: LogBuffer = match LogBuffer::new(handles.logintr) {
            Ok(log) => log,
            Err(e) => {
                return Err(e);
            },
        };
        let logrm: LogBuffer = match LogBuffer::new(handles.logrm) {
            Ok(log) => log,
            Err(e) => {
                return Err(e);
            },
        };
        let cmdq: Cmdq = match Cmdq::new(handles.cmdq, rx_hdr_off) {
            Ok(cmdq) => cmdq,
            Err(e) => {
                return Err(e);
            },
        };
        let libos: [LibosRegion; 4] = [
            LibosRegion { name: "LOGINIT", address: handles.loginit, size: LOG_BUFFER_SIZE },
            LibosRegion { name: "LOGINTR", address: handles.logintr, size: LOG_BUFFER_SIZE },
            LibosRegion { name: "LOGRM", address: handles.logrm, size: LOG_BUFFER_SIZE },
            LibosRegion { name: "RMARGS", address: handles.rmargs, size: rmargs_size },
        ];
        Ok(Gsp { loginit, logintr, logrm, cmdq, libos })
    }
}

/// A read below the end of a buffer gives as many bytes as there are and as there is room for, and
/// byte `k` of it is byte `offset + k` of the buffer. At the end and beyond, a read gives nothing.
pub proof fn law_log_read_bytes(data: Seq<u8>, offset: int, room: int)
    requires
        0 <= offset,
        0 <= room,
    ensures
        ({
            let read = log_read(data, offset, room);
            &&& offset >= data.len() ==> read.len() == 0
            &&& offset < data.len() ==> {
                &&& read.len() <= data.len() - offset
                &&& read.len() <= room
                &&& read.len() == data.len() - offset || read.len() == room
            }
            &&& forall|k: int|
                0 <= k < read.len() ==> #[trigger] read[k] == data[offset + k]
        }),
{
}

/// All that a reader receives who reads on from `offset`, with the same room each time, until a read
/// gives nothing.
pub open spec fn read_on(data: Seq<u8>, offset: int, room: int) -> Seq<u8>
    decreases data.len() - offset,
    when 0 <= offset && 0 < room
    via read_on_ends
{
    let read = log_read(data, offset, room);
    if read.len() == 0 {
        Seq::empty()
    } else {
        read + read_on(data, offset + read.len(), room)
    }
}

#[via_fn]
proof fn read_on_ends(data: Seq<u8>, offset: int, room: int) {
    law_log_read_bytes(data, offset, room);
}

/// A reader who reads on from the beginning receives the whole buffer, however little room there is
/// in each read; one who starts later receives all from there on.
pub proof fn law_whole_log_can_be_read(data: Seq<u8>, offset: int, room: int)
    requires
        0 <= offset <= data.len(),
        0 < room,
    ensures
        read_on(data, offset, room) == data.subrange(offset, data.len() as int),
    decreases data.len() - offset,
{
    law_log_read_bytes(data, offset, room);
    let read = log_read(data, offset, room);
    if offset < data.len() {
        law_whole_log_can_be_read(data, offset + read.len(), room);
    }
    assert(read_on(data, offset, room) =~= data.subrange(offset, data.len() as int));
}

/// The pages of a run have 64-bit addresses exactly if each of them has one.
pub proof fn law_pages_fit(start: u64, num_pages: int)
    ensures
        pages_fit(start, num_pages) <==> forall|i: int|
            0 <= i < num_pages ==> #[trigger] page_address(start, i) <= u64::MAX,
{
    if num_pages > 0 {
        if forall|i: int|
            0 <= i < num_pages ==> #[trigger] page_address(start, i) <= u64::MAX {
            assert(page_address(start, num_pages - 1) <= u64::MAX);
        }
    }
}

/// The address of page `i` of a run.
pub open spec fn page_address(start: u64, i: int) -> int {
    start + 0x1000 * i
}

/// A new log buffer has 16 pages. Its first number, the "put" pointer, is zero, the numbers behind it
/// are the addresses of its 16 pages, and all the rest is zero.
pub proof fn law_new_log_buffer_contents(dma_handle: u64, i: int, b: int)
    requires
        pages_fit(dma_handle, 16),
        0 <= i < 16,
        0 <= b < 0x10000,
        b < 8 || 136 <= b,
    ensures
        new_log_buffer(dma_handle).len() == 0x10000,
        u64_at(new_log_buffer(dma_handle), i + 1) == dma_handle + 0x1000 * i,
        new_log_buffer(dma_handle)[b] == 0,
{
    law_new_log_buffer_maps_itself(dma_handle, i);
    lemma_pte_bytes(dma_handle, 16, i);
}

} // verus!
