//! The command queue shared with the GSP.
//!
//! Driver and GSP share two rings of pages. The driver writes commands to one and reads messages
//! from the other. In each ring the pages from the read position up to the write position hold
//! messages; one page always stays free, so that equal positions mean an empty ring.

use vstd::prelude::*;
use vstd::slice::slice_subrange;

use crate::error::Error;
use crate::firmware::patched;
use crate::gsp::{pages_fit, PteArray, GSP_PAGE_SIZE};
use crate::wire::{
    law_u32_bytes, le_bytes, lemma_le_bytes_len, put_le, zeros,
};

verus! {

/// Number of pages of a ring.
pub const MSGQ_NUM_PAGES: u32 = 0x3f;

/// Size of a ring in bytes.
pub const RING_SIZE: usize = 0x3f000;

/// Size of a ring with its headers, which take the page in front of it.
pub const MSGQ_SIZE: u32 = 0x40000;

/// Number of page table entries in front of the rings.
pub const GSP_MEM_PTES: usize = 512;

/// Consecutive pages of a ring, or consecutive bytes of it.
#[derive(Debug, Clone, Copy, PartialEq, Eq, Structural)]
pub struct Span {
    pub start: usize,
    pub len: usize,
}

/// The positions that the GSP moves: where it writes the next message, and where it reads the next
/// command. They count pages and wrap around at the end of the ring.
#[derive(Debug, Clone, Copy, PartialEq, Eq, Structural)]
pub struct GspPtrs {
    pub write_ptr: u32,
    pub read_ptr: u32,
}

/// The page that a position stands for.
pub open spec fn page(ptr: u32) -> int {
    ptr as int % MSGQ_NUM_PAGES as int
}

/// A position moved on by `count` pages.
pub open spec fn advanced(ptr: u32, count: u32) -> int {
    ((page(ptr) + count) % 0x1_0000_0000) % MSGQ_NUM_PAGES as int
}

/// Number of pages that hold messages, with the writer at page `tx` and the reader at page `rx`.
pub open spec fn used_pages(tx: int, rx: int) -> int {
    (tx - rx) % MSGQ_NUM_PAGES as int
}

/// Number of pages that can be written, with the writer at page `tx` and the reader at page `rx`.
pub open spec fn free_pages(tx: int, rx: int) -> int {
    MSGQ_NUM_PAGES - 1 - used_pages(tx, rx)
}

/// The number of pages of a run of `count` pages, from page `from` on, in front of the end of the
/// ring.
pub open spec fn first_part(from: int, count: int) -> int {
    if count <= MSGQ_NUM_PAGES - from {
        count
    } else {
        MSGQ_NUM_PAGES - from
    }
}

/// Whether `area` is the run of `count` pages from page `from` on, split where the ring wraps
/// around.
pub open spec fn is_run(area: (Span, Span), from: int, count: int) -> bool {
    &&& area.0.start == from
    &&& area.0.len == first_part(from, count)
    &&& area.1.start == 0
    &&& area.1.len == count - first_part(from, count)
}

/// `ring` with `bytes` written from offset `start` on, going on at the beginning where the ring
/// ends.
pub open spec fn write_ring(ring: Seq<u8>, start: int, bytes: Seq<u8>) -> Seq<u8> {
    Seq::new(
        ring.len(),
        |j: int|
            {
                let k = (j - start) % ring.len() as int;
                if k < bytes.len() {
                    bytes[k]
                } else {
                    ring[j]
                }
            },
    )
}

/// The `n` bytes of `ring` from offset `start` on, going on at the beginning where the ring ends.
pub open spec fn read_ring(ring: Seq<u8>, start: int, n: nat) -> Seq<u8> {
    Seq::new(n, |k: int| ring[(start + k) % ring.len() as int])
}

/// The free and the used pages of a ring are all of its pages but one.
pub proof fn law_one_page_stays_free(tx: int, rx: int)
    ensures
        0 <= used_pages(tx, rx) < MSGQ_NUM_PAGES,
        0 <= free_pages(tx, rx) < MSGQ_NUM_PAGES,
        free_pages(tx, rx) + used_pages(tx, rx) == MSGQ_NUM_PAGES - 1,
{
}

/// A writer that moves on by no more than the free pages adds exactly those pages to the used ones,
/// so that a ring that holds messages never looks empty. The first page that it adds is the one that
/// it wrote to.
pub proof fn law_write_adds_pages(tx_ptr: u32, rx: int, count: u32)
    requires
        count <= free_pages(page(tx_ptr), rx),
    ensures
        used_pages(advanced(tx_ptr, count), rx) == used_pages(page(tx_ptr), rx) + count,
        (rx + used_pages(page(tx_ptr), rx)) % MSGQ_NUM_PAGES as int == page(tx_ptr),
{
    let tx = page(tx_ptr);
    assert(advanced(tx_ptr, count) == (tx + count) % 63);
    assert(((tx + count) % 63 - rx) % 63 == (tx + count - rx) % 63);
    assert((tx - rx) % 63 + count < 63);
}

/// A reader that moves on by no more than the used pages frees exactly those pages.
pub proof fn law_read_frees_pages(tx: int, rx_ptr: u32, count: u32)
    requires
        count <= used_pages(tx, page(rx_ptr)),
    ensures
        used_pages(tx, advanced(rx_ptr, count)) == used_pages(tx, page(rx_ptr)) - count,
        free_pages(tx, advanced(rx_ptr, count)) == free_pages(tx, page(rx_ptr)) + count,
{
    let rx = page(rx_ptr);
    assert(advanced(rx_ptr, count) == (rx + count) % 63);
    assert((tx - (rx + count) % 63) % 63 == (tx - rx - count) % 63);
}

/// What is written to a ring is read back from the same place.
pub proof fn law_ring_round_trip(ring: Seq<u8>, start: int, bytes: Seq<u8>)
    requires
        0 <= start < ring.len(),
        bytes.len() <= ring.len(),
    ensures
        read_ring(write_ring(ring, start, bytes), start, bytes.len()) == bytes,
{
    let n = ring.len() as int;
    let after = write_ring(ring, start, bytes);
    assert forall|k: int| 0 <= k < bytes.len() implies after[(start + k) % n] == bytes[k] by {
        lemma_wrapped(start, k, n);
    }
    assert(read_ring(after, start, bytes.len()) =~= bytes);
}

proof fn lemma_wrapped(start: int, k: int, n: int)
    requires
        0 <= start < n,
        0 <= k < n,
    ensures
        0 <= (start + k) % n < n,
        (start + k) % n == if start + k < n {
            start + k
        } else {
            start + k - n
        },
        ((start + k) % n - start) % n == k,
{
    if start + k < n {
        vstd::arithmetic::div_mod::lemma_small_mod((start + k) as nat, n as nat);
        vstd::arithmetic::div_mod::lemma_small_mod(k as nat, n as nat);
    } else {
        vstd::arithmetic::div_mod::lemma_small_mod((start + k - n) as nat, n as nat);
        vstd::arithmetic::div_mod::lemma_mod_add_multiples_vanish(start + k - n, n);
        vstd::arithmetic::div_mod::lemma_small_mod(k as nat, n as nat);
        vstd::arithmetic::div_mod::lemma_mod_add_multiples_vanish(k - n, n);
    }
}

/// The bytes of `s`, each moved to its place in a 64-bit number (byte `i` to place `i % 8`), all
/// combined by exclusive or.
pub open spec fn sum64(s: Seq<u8>) -> u64
    decreases s.len(),
{
    if s.len() == 0 {
        0
    } else {
        sum64(s.drop_last()) ^ ((s.last() as u64) << (((s.len() - 1) % 8 * 8) as u64))
    }
}

/// The two halves of a 64-bit number, combined by exclusive or.
pub open spec fn fold64(sum: u64) -> u32 {
    ((sum >> 32) as u32) ^ (sum as u32)
}

/// Checksum of a message.
pub open spec fn checksum(s: Seq<u8>) -> u32 {
    fold64(sum64(s))
}

proof fn lemma_sum64_push(s: Seq<u8>, b: u8)
    ensures
        sum64(s.push(b)) == sum64(s) ^ ((b as u64) << ((s.len() % 8 * 8) as u64)),
{
    assert(s.push(b).drop_last() =~= s);
}

/// Two prefixes of the same size differ by as much as they do with the same bytes behind them.
proof fn lemma_sum64_suffix(u: Seq<u8>, v: Seq<u8>, b: Seq<u8>)
    requires
        u.len() == v.len(),
    ensures
        sum64(u + b) ^ sum64(v + b) == sum64(u) ^ sum64(v),
    decreases b.len(),
{
    if b.len() == 0 {
        assert(u + b =~= u);
        assert(v + b =~= v);
    } else {
        let c = b.drop_last();
        lemma_sum64_suffix(u, v, c);
        assert((u + b).drop_last() =~= u + c);
        assert((v + b).drop_last() =~= v + c);
        let x = sum64(u + c);
        let y = sum64(v + c);
        let z = (b.last() as u64) << (((u + b).len() - 1) % 8 * 8) as u64;
        assert((x ^ z) ^ (y ^ z) == x ^ y) by (bit_vector);
    }
}

/// Four bytes at a multiple of four add the number that they stand for, in one of the two halves.
proof fn lemma_sum64_word(a: Seq<u8>, c: u32)
    requires
        a.len() % 4 == 0,
    ensures
        sum64(a + le_bytes(c as nat, 4)) == if a.len() % 8 == 0 {
            sum64(a) ^ (c as u64)
        } else {
            sum64(a) ^ ((c as u64) << 32)
        },
{
    let c0 = (c % 256) as u8;
    let c1 = (c / 256 % 256) as u8;
    let c2 = (c / 256 / 256 % 256) as u8;
    let c3 = (c / 256 / 256 / 256 % 256) as u8;
    reveal_with_fuel(le_bytes, 5);
    assert(a + le_bytes(c as nat, 4) =~= a.push(c0).push(c1).push(c2).push(c3));
    lemma_sum64_push(a, c0);
    lemma_sum64_push(a.push(c0), c1);
    lemma_sum64_push(a.push(c0).push(c1), c2);
    lemma_sum64_push(a.push(c0).push(c1).push(c2), c3);
    let x = sum64(a);
    let b0 = c0 as u64;
    let b1 = c1 as u64;
    let b2 = c2 as u64;
    let b3 = c3 as u64;
    if a.len() % 8 == 0 {
        assert((((x ^ (b0 << 0u64)) ^ (b1 << 8u64)) ^ (b2 << 16u64)) ^ (b3 << 24u64) == x ^ (
        c as u64)) by (bit_vector)
            requires
                b0 == (c % 256),
                b1 == (c / 256 % 256),
                b2 == (c / 256 / 256 % 256),
                b3 == (c / 256 / 256 / 256 % 256),
        ;
    } else {
        assert((((x ^ (b0 << 32u64)) ^ (b1 << 40u64)) ^ (b2 << 48u64)) ^ (b3 << 56u64) == x ^ ((
        c as u64) << 32)) by (bit_vector)
            requires
                b0 == (c % 256),
                b1 == (c / 256 % 256),
                b2 == (c / 256 / 256 % 256),
                b3 == (c / 256 / 256 / 256 % 256),
        ;
    }
}

/// A message whose checksum field was empty when its checksum was calculated, and then received that
/// checksum, has the checksum zero, wherever in the message the field stands (at a multiple of
/// four).
pub proof fn law_checksum_verifies(msg: Seq<u8>, at: int)
    requires
        0 <= at,
        at + 4 <= msg.len(),
        at % 4 == 0,
        msg.subrange(at, at + 4) == zeros(4),
    ensures
        checksum(patched(msg, at, le_bytes(checksum(msg) as nat, 4))) == 0,
{
    let c = checksum(msg);
    let a = msg.subrange(0, at);
    let b = msg.subrange(at + 4, msg.len() as int);
    let word = le_bytes(c as nat, 4);
    let empty = le_bytes(0, 4);
    lemma_le_bytes_len(c as nat, 4);
    reveal_with_fuel(le_bytes, 5);
    assert(empty =~= zeros(4));
    assert(msg =~= (a + empty) + b);
    assert(patched(msg, at, word) =~= (a + word) + b);
    lemma_sum64_suffix(a + word, a + empty, b);
    lemma_sum64_word(a, c);
    lemma_sum64_word(a, 0);
    let x = sum64(msg);
    let y = sum64(patched(msg, at, word));
    let p = sum64(a);
    if a.len() % 8 == 0 {
        assert(((y >> 32) as u32) ^ (y as u32) == 0) by (bit_vector)
            requires
                y ^ x == (p ^ (c as u64)) ^ (p ^ 0u64),
                c == ((x >> 32) as u32) ^ (x as u32),
        ;
    } else {
        assert(((y >> 32) as u32) ^ (y as u32) == 0) by (bit_vector)
            requires
                y ^ x == (p ^ ((c as u64) << 32)) ^ (p ^ (0u64 << 32)),
                c == ((x >> 32) as u32) ^ (x as u32),
        ;
    }
}

/// The exclusive or of all bytes of `s` whose index is `k` modulo 4.
pub open spec fn lane(s: Seq<u8>, k: int) -> u8
    decreases s.len(),
{
    if s.len() == 0 {
        0
    } else if (s.len() - 1) % 4 == k {
        lane(s.drop_last(), k) ^ s.last()
    } else {
        lane(s.drop_last(), k)
    }
}

/// Byte `k` of a checksum, counted from the least significant one, is the exclusive or of all bytes
/// whose index is `k` modulo 4.
pub proof fn law_checksum_bytes(s: Seq<u8>, k: int)
    requires
        0 <= k < 4,
    ensures
        (checksum(s) >> ((8 * k) as u32)) as u8 == lane(s, k),
    decreases s.len(),
{
    let n = k as u32;
    if s.len() == 0 {
        assert(((((0u64 >> 32) as u32) ^ (0u64 as u32)) >> ((8 * n) as u32)) as u8 == 0)
            by (bit_vector)
            requires
                n < 4,
        ;
    } else {
        law_checksum_bytes(s.drop_last(), k);
        let x = sum64(s.drop_last());
        let b = s.last();
        let p = ((s.len() - 1) % 8) as u64;
        let old_byte = lane(s.drop_last(), k);
        let y = x ^ ((b as u64) << ((p * 8) as u64));
        assert(((((y >> 32) as u32) ^ (y as u32)) >> ((8 * n) as u32)) as u8 == if p % 4 == n {
            old_byte ^ b
        } else {
            old_byte
        }) by (bit_vector)
            requires
                n < 4,
                p < 8,
                y == x ^ ((b as u64) << ((p * 8) as u64)),
                old_byte == ((((x >> 32) as u32) ^ (x as u32)) >> ((8 * n) as u32)) as u8,
        ;
        assert((s.len() - 1) % 4 == p % 4);
    }
}

/// A message with its checksum in the field at offset `at`.
pub open spec fn sealed(msg: Seq<u8>, at: int) -> Seq<u8> {
    patched(msg, at, le_bytes(checksum(msg) as nat, 4))
}

/// A message that was written to a ring with its checksum is read back as it was sent, and its
/// checksum verifies.
pub proof fn law_sent_message_verifies(ring: Seq<u8>, start: int, msg: Seq<u8>, at: int)
    requires
        0 <= start < ring.len(),
        msg.len() <= ring.len(),
        0 <= at,
        at + 4 <= msg.len(),
        at % 4 == 0,
        msg.subrange(at, at + 4) == zeros(4),
    ensures
        read_ring(write_ring(ring, start, sealed(msg, at)), start, msg.len()) == sealed(msg, at),
        checksum(read_ring(write_ring(ring, start, sealed(msg, at)), start, msg.len())) == 0,
{
    lemma_le_bytes_len(checksum(msg) as nat, 4);
    law_ring_round_trip(ring, start, sealed(msg, at));
    law_checksum_verifies(msg, at);
}

/// A writer that stays within the free pages leaves every byte of the used pages as it was.
pub proof fn law_write_keeps_unread(ring: Seq<u8>, tx: int, rx: int, bytes: Seq<u8>)
    requires
        ring.len() == RING_SIZE,
        0 <= tx < MSGQ_NUM_PAGES,
        0 <= rx < MSGQ_NUM_PAGES,
        bytes.len() <= free_pages(tx, rx) * GSP_PAGE_SIZE,
    ensures
        ({
            let unread = (used_pages(tx, rx) * GSP_PAGE_SIZE) as nat;
            let after = write_ring(ring, tx * GSP_PAGE_SIZE, bytes);
            read_ring(after, rx * GSP_PAGE_SIZE, unread) == read_ring(
                ring,
                rx * GSP_PAGE_SIZE,
                unread,
            )
        }),
{
    let n = ring.len() as int;
    let unread = (used_pages(tx, rx) * GSP_PAGE_SIZE) as nat;
    let start = rx * GSP_PAGE_SIZE;
    let after = write_ring(ring, tx * GSP_PAGE_SIZE, bytes);
    let left = read_ring(after, start, unread);
    let right = read_ring(ring, start, unread);
    assert forall|k: int| 0 <= k < unread implies #[trigger] left[k] == right[k] by {
        let j = (start + k) % n;
        assert(used_pages(tx, rx) == if tx >= rx { tx - rx } else { tx - rx + 63 });
        assert(j == if start + k < n { start + k } else { start + k - n });
        assert((j - tx * GSP_PAGE_SIZE) % n >= bytes.len());
    }
    assert(left =~= right);
}

/// All the bytes of `parts`, one part after the other.
pub open spec fn joined(parts: Seq<&[u8]>) -> Seq<u8>
    decreases parts.len(),
{
    if parts.len() == 0 {
        Seq::empty()
    } else {
        joined(parts.drop_last()) + parts.last()@
    }
}

/// Adds the bytes of `part` to the sum of the bytes before it, of which there are `place` modulo 8.
fn add_to_sum(sum: u64, place: u64, part: &[u8], Ghost(before): Ghost<Seq<u8>>) -> (r: (u64, u64))
    requires
        sum == sum64(before),
        place == before.len() % 8,
    ensures
        r.0 == sum64(before + part@),
        r.1 == (before + part@).len() % 8,
{
    let mut sum: u64 = sum;
    let mut place: u64 = place;
    let mut i: usize = 0;
    assert(before + part@.subrange(0, 0) =~= before);
    while i < part.len()
        invariant
            i <= part@.len(),
            sum == sum64(before + part@.subrange(0, i as int)),
            place == (before.len() + i) % 8,
        decreases part@.len() - i,
    {
        let byte: u8 = part[i];
        proof {
            let seen = before + part@.subrange(0, i as int);
            lemma_sum64_push(seen, byte);
            assert(before + part@.subrange(0, i + 1) =~= seen.push(byte));
        }
        let rol: u64 = place * 8;
        sum = sum ^ ((byte as u64) << rol);
        place = (place + 1) % 8;
        i = i + 1;
    }
    assert(part@.subrange(0, i as int) =~= part@);
    (sum, place)
}

/// Header of the ring that the driver writes.
#[derive(Debug, Clone, Copy, PartialEq, Eq, Structural)]
pub struct MsgqTxHeader {
    /// Size of the ring with its headers.
    pub size: u32,
    /// Offset of the header with the read position.
    pub rx_hdr_off: u32,
    /// Number of pages of the ring.
    pub num_pages: u32,
    /// Where the next message is written.
    pub write_ptr: u32,
}

/// What the driver puts into the memory that it shares with the GSP, besides the messages.
#[derive(Debug, Clone, Copy)]
pub struct DmaGspMem {
    /// Address of the shared memory.
    pub dma_handle: u64,
    /// Page table entries for the shared memory.
    pub ptes: PteArray<GSP_MEM_PTES>,
    /// Header of the ring that the driver writes.
    pub tx: MsgqTxHeader,
    /// Where the driver reads the next message.
    pub read_ptr: u32,
}

/// The parts of a command in the ring, as offsets and sizes in bytes.
#[derive(Debug, Clone, Copy, PartialEq, Eq, Structural)]
pub struct CommandRegions {
    pub header: Span,
    pub cmd: Span,
    pub payload_1: Span,
    pub payload_2: Span,
}

/// Whether the header and the structure of a command can be viewed as their types where they are
/// about to be written.
#[derive(Debug, Clone, Copy, PartialEq, Eq, Structural)]
pub struct Views {
    pub header: bool,
    pub cmd: bool,
}

/// What the header of a command is made from.
#[derive(Debug, Clone, Copy, PartialEq, Eq, Structural)]
pub struct HeaderArgs {
    /// Sequence number of the command.
    pub seq: u32,
    /// Size of the structure and the payload of the command.
    pub length: usize,
    /// Function of the command.
    pub function: u32,
}

/// What the header of a message says: the length of the message behind the header, and its function
/// if that is a known one.
#[derive(Debug, Clone, Copy, PartialEq, Eq, Structural)]
pub struct MsgHeader {
    pub length: usize,
    pub function: Option<u32>,
}

/// A message that was found sound.
#[derive(Debug, Clone, Copy, PartialEq, Eq, Structural)]
pub enum Reception {
    /// It has the expected function. Its parts in the ring, as offsets and sizes in bytes.
    Message { cmd: Span, payload_1: Span, payload_2: Span },
    /// It has another function.
    OtherFunction,
}

/// What the receiver made of a message.
#[derive(Debug)]
pub enum Outcome<R> {
    /// Its structure could not be decoded.
    Undecodable,
    /// It was handled, with this result.
    Handled(Result<R, Error>),
    /// It was not the expected message.
    OtherFunction,
}

impl DmaGspMem {
    /// Whether this is new shared memory at the address `dma_handle`: mapped page by page, with both
    /// rings empty.
    pub open spec fn is_new(self, dma_handle: u64, rx_hdr_off: u32) -> bool {
        &&& self.dma_handle == dma_handle
        &&& forall|i: int|
            0 <= i < GSP_MEM_PTES ==> #[trigger] self.ptes.ptes[i] == dma_handle + i
                * GSP_PAGE_SIZE
        &&& self.tx == (MsgqTxHeader {
            size: MSGQ_SIZE,
            rx_hdr_off,
            num_pages: MSGQ_NUM_PAGES,
            write_ptr: 0,
        })
        &&& self.read_ptr == 0
    }

    /// Sets up shared memory at the address `dma_handle`, with the read position at `rx_hdr_off`.
    pub fn new(dma_handle: u64, rx_hdr_off: u32) -> (r: Result<DmaGspMem, Error>)
        ensures
            r is Ok <==> pages_fit(dma_handle, GSP_MEM_PTES as int),
            r matches Err(e) ==> e == Error::EOVERFLOW,
            r matches Ok(mem) ==> mem.is_new(dma_handle, rx_hdr_off),
    {
        match PteArray::<GSP_MEM_PTES>::new(dma_handle) {
            Ok(ptes) => Ok(
                DmaGspMem {
                    dma_handle,
                    ptes,
                    tx: MsgqTxHeader {
                        size: MSGQ_SIZE,
                        rx_hdr_off,
                        num_pages: MSGQ_NUM_PAGES,
                        write_ptr: 0,
                    },
                    read_ptr: 0,
                },
            ),
            Err(e) => Err(e),
        }
    }

    /// The page that the GSP writes the next message to.
    pub fn gsp_write_ptr(gsp: GspPtrs) -> (p: u32)
        ensures
            p == page(gsp.write_ptr),
    {
        gsp.write_ptr % MSGQ_NUM_PAGES
    }

    /// The page that the GSP reads the next command from.
    pub fn gsp_read_ptr(gsp: GspPtrs) -> (p: u32)
        ensures
            p == page(gsp.read_ptr),
    {
        gsp.read_ptr % MSGQ_NUM_PAGES
    }

    /// The page that the driver reads the next message from.
    pub fn cpu_read_ptr(&self) -> (p: u32)
        ensures
            p == page(self.read_ptr),
    {
        self.read_ptr % MSGQ_NUM_PAGES
    }

    /// The page that the driver writes the next command to.
    pub fn cpu_write_ptr(&self) -> (p: u32)
        ensures
            p == page(self.tx.write_ptr),
    {
        self.tx.write_ptr % MSGQ_NUM_PAGES
    }

    /// Gives the next `elem_count` pages of messages back to the GSP.
    pub fn advance_cpu_read_ptr(&mut self, elem_count: u32)
        ensures
            final(self).read_ptr == advanced(old(self).read_ptr, elem_count),
            *final(self) == (DmaGspMem { read_ptr: final(self).read_ptr, ..*old(self) }),
    {
        self.read_ptr = self.cpu_read_ptr().wrapping_add(elem_count) % MSGQ_NUM_PAGES;
    }

    /// Hands the next `elem_count` pages of commands over to the GSP.
    pub fn advance_cpu_write_ptr(&mut self, elem_count: u32)
        ensures
            final(self).tx.write_ptr == advanced(old(self).tx.write_ptr, elem_count),
            *final(self) == (DmaGspMem {
                tx: MsgqTxHeader { write_ptr: final(self).tx.write_ptr, ..old(self).tx },
                ..*old(self)
            }),
    {
        self.tx.write_ptr = self.cpu_write_ptr().wrapping_add(elem_count) % MSGQ_NUM_PAGES;
    }

    /// The pages that the driver may write: from its write position up to the read position of the
    /// GSP, minus one page.
    pub fn driver_write_area(&self, gsp: GspPtrs) -> (area: (Span, Span))
        ensures
            is_run(area, page(self.tx.write_ptr), self.writable(gsp)),
    {
        let pages: usize = MSGQ_NUM_PAGES as usize;
        let tx: usize = self.cpu_write_ptr() as usize;
        let rx: usize = DmaGspMem::gsp_read_ptr(gsp) as usize;
        if rx <= tx {
            if rx == 0 {
                (Span { start: tx, len: pages - tx - 1 }, Span { start: 0, len: 0 })
            } else {
                (Span { start: tx, len: pages - tx }, Span { start: 0, len: rx - 1 })
            }
        } else {
            (Span { start: tx, len: rx - tx - 1 }, Span { start: 0, len: 0 })
        }
    }

    /// The pages that the driver may read: from its read position up to the write position of the
    /// GSP.
    pub fn driver_read_area(&self, gsp: GspPtrs) -> (area: (Span, Span))
        ensures
            is_run(area, page(self.read_ptr), self.readable(gsp)),
    {
        let pages: usize = MSGQ_NUM_PAGES as usize;
        let tx: usize = DmaGspMem::gsp_write_ptr(gsp) as usize;
        let rx: usize = self.cpu_read_ptr() as usize;
        if rx <= tx {
            (Span { start: rx, len: tx - rx }, Span { start: 0, len: 0 })
        } else {
            (Span { start: rx, len: pages - rx }, Span { start: 0, len: tx })
        }
    }

    /// Number of pages that the driver may write.
    pub open spec fn writable(self, gsp: GspPtrs) -> int {
        free_pages(page(self.tx.write_ptr), page(gsp.read_ptr))
    }

    /// Number of bytes that the driver may write without wrapping around.
    pub open spec fn writable_at_once(self, gsp: GspPtrs) -> int {
        first_part(page(self.tx.write_ptr), self.writable(gsp)) * GSP_PAGE_SIZE
    }

    /// Number of pages that the driver may read.
    pub open spec fn readable(self, gsp: GspPtrs) -> int {
        used_pages(page(gsp.write_ptr), page(self.read_ptr))
    }

    /// Number of bytes that the driver may read without wrapping around.
    pub open spec fn readable_at_once(self, gsp: GspPtrs) -> int {
        first_part(page(self.read_ptr), self.readable(gsp)) * GSP_PAGE_SIZE
    }

    /// Whether the pages that the driver may read can hold a message of `length` bytes behind its
    /// header, with a header and a structure that do not wrap around.
    pub open spec fn holds_message(
        self,
        gsp: GspPtrs,
        hdr_size: int,
        cmd_size: int,
        length: int,
    ) -> bool {
        &&& hdr_size + cmd_size <= self.readable_at_once(gsp)
        &&& hdr_size + length <= self.readable(gsp) * GSP_PAGE_SIZE
    }

    /// Whether a command of `size` bytes finds room.
    pub open spec fn has_room(self, gsp: GspPtrs, size: int) -> bool {
        size <= self.writable(gsp) * GSP_PAGE_SIZE
    }

    /// Whether a command can be laid out if it finds room: its header may not wrap around, and its
    /// structure, which is looked at after the header, may not either.
    pub open spec fn can_lay_out(
        self,
        gsp: GspPtrs,
        hdr_size: int,
        cmd_size: int,
        payload_size: int,
        views: Views,
    ) -> bool {
        self.has_room(gsp, hdr_size + cmd_size + payload_size) ==> {
            &&& hdr_size <= self.writable_at_once(gsp)
            &&& views.header ==> hdr_size + cmd_size <= self.writable_at_once(gsp)
        }
    }

    /// Finds room for a command: its header, its structure, and its payload, which wraps around if
    /// it must. There may be too little room while the GSP still works on earlier commands. A place
    /// at which the header or the structure cannot be viewed as its type is refused.
    pub fn allocate_command_regions(
        &self,
        gsp: GspPtrs,
        hdr_size: usize,
        cmd_size: usize,
        payload_size: usize,
        views: Views,
    ) -> (r: Result<CommandRegions, Error>)
        requires
            hdr_size + cmd_size + payload_size <= usize::MAX,
            self.can_lay_out(gsp, hdr_size as int, cmd_size as int, payload_size as int, views),
        ensures
            r is Ok <==> self.has_room(gsp, hdr_size + cmd_size + payload_size) && views.header
                && views.cmd,
            r matches Err(e) ==> e == if self.has_room(gsp, hdr_size + cmd_size + payload_size) {
                Error::EINVAL
            } else {
                Error::EAGAIN
            },
            r matches Ok(regions) ==> {
                let start = page(self.tx.write_ptr) * GSP_PAGE_SIZE;
                let room = self.writable_at_once(gsp) - hdr_size - cmd_size;
                let here = if payload_size <= room {
                    payload_size as int
                } else {
                    room
                };
                &&& regions.header.start == start
                &&& regions.header.len == hdr_size
                &&& regions.cmd.start == start + hdr_size
                &&& regions.cmd.len == cmd_size
                &&& regions.payload_1.start == start + hdr_size + cmd_size
                &&& regions.payload_1.len == here
                &&& regions.payload_2.start == 0
                &&& regions.payload_2.len == payload_size - here
            },
    {
        let area: (Span, Span) = self.driver_write_area(gsp);
        let msg_size: usize = hdr_size + cmd_size + payload_size;
        let area_size: usize = (area.0.len + area.1.len) * 0x1000;
        if msg_size > area_size {
            return Err(Error::EAGAIN);
        }
        if !views.header || !views.cmd {
            return Err(Error::EINVAL);
        }
        let start: usize = area.0.start * 0x1000;
        let room: usize = area.0.len * 0x1000 - hdr_size - cmd_size;
        let here: usize = if room > payload_size {
            payload_size
        } else {
            room
        };
        Ok(
            CommandRegions {
                header: Span { start, len: hdr_size },
                cmd: Span { start: start + hdr_size, len: cmd_size },
                payload_1: Span { start: start + hdr_size + cmd_size, len: here },
                payload_2: Span { start: 0, len: payload_size - here },
            },
        )
    }
}

/// Copies `bytes` into `ring` at offset `at`.
fn copy_into(ring: &mut [u8], at: usize, bytes: &[u8])
    requires
        at + bytes@.len() <= old(ring)@.len(),
    ensures
        final(ring)@ == patched(old(ring)@, at as int, bytes@),
{
    let n: usize = ring.len();
    let mut i: usize = 0;
    assert(patched(ring@, at as int, bytes@.subrange(0, 0)) =~= ring@);
    while i < bytes.len()
        invariant
            i <= bytes@.len(),
            n == ring@.len() == old(ring)@.len(),
            at + bytes@.len() <= n,
            ring@ == patched(old(ring)@, at as int, bytes@.subrange(0, i as int)),
        decreases bytes@.len() - i,
    {
        ring[at + i] = bytes[i];
        i = i + 1;
        assert(ring@ =~= patched(old(ring)@, at as int, bytes@.subrange(0, i as int)));
    }
    assert(bytes@.subrange(0, i as int) =~= bytes@);
}

/// The command queue: the shared memory and the number of the next command.
#[derive(Debug, Clone, Copy)]
pub struct Cmdq {
    /// Sequence number of the next command.
    pub seq: u32,
    /// The memory that is shared with the GSP.
    pub gsp_mem: DmaGspMem,
}

/// Offset of the data behind the page table entries.
pub const POST_PTE_OFFSET: usize = 0x1000;

/// Offset of the ring with the commands, behind the page table entries.
pub const CMDQ_OFFSET: usize = 0x1000;

/// Offset of the ring with the messages, behind the page table entries.
pub const STATQ_OFFSET: usize = 0x41000;

/// Number of page table entries for the shared memory.
pub const NUM_PTES: usize = 129;

impl Cmdq {
    /// Whether this is a new command queue in shared memory at the address `dma_handle`.
    pub open spec fn is_new(self, dma_handle: u64, rx_hdr_off: u32) -> bool {
        &&& self.seq == 0
        &&& self.gsp_mem.is_new(dma_handle, rx_hdr_off)
    }

    /// Sets up a command queue in shared memory at the address `dma_handle`.
    pub fn new(dma_handle: u64, rx_hdr_off: u32) -> (r: Result<Cmdq, Error>)
        ensures
            r is Ok <==> pages_fit(dma_handle, GSP_MEM_PTES as int),
            r matches Err(e) ==> e == Error::EOVERFLOW,
            r matches Ok(cmdq) ==> cmdq.is_new(dma_handle, rx_hdr_off),
    {
        match DmaGspMem::new(dma_handle, rx_hdr_off) {
            Ok(gsp_mem) => Ok(Cmdq { seq: 0, gsp_mem }),
            Err(e) => Err(e),
        }
    }

    /// Address of the shared memory.
    pub fn dma_handle(&self) -> (r: u64)
        ensures
            r == self.gsp_mem.dma_handle,
    {
        self.gsp_mem.dma_handle
    }

    /// Checksum of the bytes of `parts`, one part after the other.
    pub fn calculate_checksum(parts: &[&[u8]]) -> (r: u32)
        ensures
            r == checksum(joined(parts@)),
    {
        let mut sum: u64 = 0;
        let mut place: u64 = 0;
        let mut i: usize = 0;
        assert(parts@.subrange(0, 0) =~= Seq::empty());
        while i < parts.len()
            invariant
                i <= parts@.len(),
                sum == sum64(joined(parts@.subrange(0, i as int))),
                place == joined(parts@.subrange(0, i as int)).len() % 8,
            decreases parts@.len() - i,
        {
            let ghost before = joined(parts@.subrange(0, i as int));
            let r: (u64, u64) = add_to_sum(sum, place, parts[i], Ghost(before));
            sum = r.0;
            place = r.1;
            i = i + 1;
            assert(parts@.subrange(0, i as int).drop_last() =~= parts@.subrange(0, i - 1));
        }
        assert(parts@.subrange(0, i as int) =~= parts@);
        ((sum >> 32) as u32) ^ (sum as u32)
    }

    /// Whether the queue can send a command of these sizes: its sizes are those of memory, its header
    /// and structure do not wrap around, and the sequence numbers have not run out.
    pub open spec fn can_send(
        self,
        gsp: GspPtrs,
        hdr_size: int,
        cmd_size: int,
        payload_size: int,
        views: Views,
    ) -> bool {
        &&& hdr_size + cmd_size + payload_size <= usize::MAX
        &&& self.gsp_mem.can_lay_out(gsp, hdr_size, cmd_size, payload_size, views)
        &&& self.gsp_mem.has_room(gsp, hdr_size + cmd_size + payload_size) && views.header
            && views.cmd ==> self.seq < u32::MAX
    }

    /// What the header of the next command is made from: the sequence number of the queue, the size
    /// of what follows the header, and the function of the command.
    pub fn header_args(&self, cmd_size: usize, payload_size: usize, function: u32) -> (a: HeaderArgs)
        requires
            cmd_size + payload_size <= usize::MAX,
        ensures
            a.seq == self.seq,
            a.length == cmd_size + payload_size,
            a.function == function,
    {
        HeaderArgs { seq: self.seq, length: cmd_size + payload_size, function }
    }

    /// Whether the queue can send a command of these sizes; see [`Cmdq::send_gsp_command`].
    pub fn sendable(
        &self,
        gsp: GspPtrs,
        hdr_size: usize,
        cmd_size: usize,
        payload_size: usize,
        views: Views,
    ) -> (r: bool)
        ensures
            r == self.can_send(
                gsp,
                hdr_size as int,
                cmd_size as int,
                payload_size as int,
                views,
            ),
    {
        let fixed: usize = match hdr_size.checked_add(cmd_size) {
            Some(fixed) => fixed,
            None => {
                return false;
            },
        };
        let size: usize = match fixed.checked_add(payload_size) {
            Some(size) => size,
            None => {
                return false;
            },
        };
        let area: (Span, Span) = self.gsp_mem.driver_write_area(gsp);
        if size > (area.0.len + area.1.len) * 0x1000 {
            true
        } else if !views.header {
            hdr_size <= area.0.len * 0x1000
        } else {
            fixed <= area.0.len * 0x1000 && (!views.cmd || self.seq < u32::MAX)
        }
    }

    /// What sending the command `msg`, with its checksum at offset `at`, does to a queue and to its
    /// ring: a command that finds room is written and handed over, as `elem_count` pages; if it finds
    /// no room, or a place that cannot be viewed as its types, nothing changes.
    pub open spec fn sends(
        self,
        after: Cmdq,
        ring: Seq<u8>,
        ring_after: Seq<u8>,
        gsp: GspPtrs,
        msg: Seq<u8>,
        at: int,
        elem_count: u32,
        views: Views,
        r: Result<(), Error>,
    ) -> bool {
        let room = self.gsp_mem.has_room(gsp, msg.len() as int);
        if room && views.header && views.cmd {
            let start = page(self.gsp_mem.tx.write_ptr) * GSP_PAGE_SIZE;
            &&& r == Ok::<(), Error>(())
            &&& ring_after == write_ring(ring, start, sealed(msg, at))
            &&& after.seq == self.seq + 1
            &&& after.gsp_mem.tx.write_ptr == advanced(self.gsp_mem.tx.write_ptr, elem_count)
            &&& after == (Cmdq {
                seq: after.seq,
                gsp_mem: DmaGspMem {
                    tx: MsgqTxHeader {
                        write_ptr: after.gsp_mem.tx.write_ptr,
                        ..self.gsp_mem.tx
                    },
                    ..self.gsp_mem
                },
            })
        } else {
            &&& r == Err::<(), Error>(
                if room {
                    Error::EINVAL
                } else {
                    Error::EAGAIN
                },
            )
            &&& ring_after == ring
            &&& after == self
        }
    }

    /// Sends a command without a payload.
    pub fn send_gsp_command(
        &mut self,
        gsp: GspPtrs,
        ring: &mut [u8],
        hdr: &[u8],
        checksum_at: usize,
        cmd: &[u8],
        elem_count: u32,
        views: Views,
    ) -> (r: Result<(), Error>)
        requires
            old(ring)@.len() == RING_SIZE,
            checksum_at + 4 <= hdr@.len(),
            old(self).can_send(gsp, hdr@.len() as int, cmd@.len() as int, 0, views),
        ensures
            old(self).sends(
                *final(self),
                old(ring)@,
                final(ring)@,
                gsp,
                hdr@ + cmd@,
                checksum_at as int,
                elem_count,
                views,
                r,
            ),
    {
        assert(hdr@ + cmd@ + Seq::<u8>::empty() =~= hdr@ + cmd@);
        self.send_gsp_command_base_with_payload(
            gsp,
            ring,
            hdr,
            checksum_at,
            cmd,
            &[],
            elem_count,
            views,
        )
    }

    /// Sends a command with a payload.
    pub fn send_gsp_command_with_payload(
        &mut self,
        gsp: GspPtrs,
        ring: &mut [u8],
        hdr: &[u8],
        checksum_at: usize,
        cmd: &[u8],
        payload: &[u8],
        elem_count: u32,
        views: Views,
    ) -> (r: Result<(), Error>)
        requires
            old(ring)@.len() == RING_SIZE,
            checksum_at + 4 <= hdr@.len(),
            old(self).can_send(
                gsp,
                hdr@.len() as int,
                cmd@.len() as int,
                payload@.len() as int,
                views,
            ),
        ensures
            old(self).sends(
                *final(self),
                old(ring)@,
                final(ring)@,
                gsp,
                hdr@ + cmd@ + payload@,
                checksum_at as int,
                elem_count,
                views,
                r,
            ),
    {
        self.send_gsp_command_base_with_payload(
            gsp,
            ring,
            hdr,
            checksum_at,
            cmd,
            payload,
            elem_count,
            views,
        )
    }

    /// Writes a command to `ring` and hands it over to the GSP: its header `hdr`, which receives the
    /// checksum of the whole command at offset `checksum_at`, its structure `cmd` and its payload.
    /// The command takes `elem_count` pages. There may be too little room while the GSP still works
    /// on earlier commands, and the place may not do for the types of the command; then nothing
    /// changes.
    pub fn send_gsp_command_base_with_payload(
        &mut self,
        gsp: GspPtrs,
        ring: &mut [u8],
        hdr: &[u8],
        checksum_at: usize,
        cmd: &[u8],
        payload: &[u8],
        elem_count: u32,
        views: Views,
    ) -> (r: Result<(), Error>)
        requires
            old(ring)@.len() == RING_SIZE,
            checksum_at + 4 <= hdr@.len(),
            old(self).can_send(
                gsp,
                hdr@.len() as int,
                cmd@.len() as int,
                payload@.len() as int,
                views,
            ),
        ensures
            old(self).sends(
                *final(self),
                old(ring)@,
                final(ring)@,
                gsp,
                hdr@ + cmd@ + payload@,
                checksum_at as int,
                elem_count,
                views,
                r,
            ),
    {
        let ghost before = ring@;
        let payload_size: usize = payload.len();
        let hdr_size: usize = hdr.len();
        let cmd_size: usize = cmd.len();
        let regions: CommandRegions = match self.gsp_mem.allocate_command_regions(
            gsp,
            hdr_size,
            cmd_size,
            payload_size,
            views,
        ) {
            Ok(regions) => regions,
            Err(e) => {
                return Err(e);
            },
        };
        let payload_1: &[u8] = slice_subrange(payload, 0, regions.payload_1.len);
        let payload_2: &[u8] = slice_subrange(payload, regions.payload_1.len, payload_size);
        copy_into(ring, regions.header.start, hdr);
        copy_into(ring, regions.cmd.start, cmd);
        copy_into(ring, regions.payload_1.start, payload_1);
        copy_into(ring, regions.payload_2.start, payload_2);

        let parts: [&[u8]; 4] = [hdr, cmd, payload_1, payload_2];
        let sum: u32 = Cmdq::calculate_checksum(&parts);
        let mut field: Vec<u8> = Vec::new();
        put_le(&mut field, sum as u64, 4);
        proof {
            lemma_le_bytes_len(sum as nat, 4);
            assert(field@ =~= le_bytes(sum as nat, 4));
            lemma_joined_parts(hdr, cmd, payload_1, payload_2);
            assert(payload_1@ + payload_2@ =~= payload@);
            assert(joined(parts@) =~= hdr@ + cmd@ + payload@);
            lemma_regions_hold_command(
                before,
                page(self.gsp_mem.tx.write_ptr) * GSP_PAGE_SIZE,
                hdr@,
                cmd@,
                payload@,
                regions.payload_1.len as int,
                checksum_at as int,
                field@,
            );
        }
        copy_into(ring, regions.header.start + checksum_at, field.as_slice());
        self.seq = self.seq + 1;
        self.gsp_mem.advance_cpu_write_ptr(elem_count);
        Ok(())
    }

    /// Where the header of the next message stands, or nothing while no message has arrived.
    pub fn next_message(&self, gsp: GspPtrs, hdr_size: usize) -> (r: Option<Span>)
        requires
            self.gsp_mem.readable(gsp) > 0 ==> hdr_size <= self.gsp_mem.readable_at_once(gsp),
        ensures
            r is Some <==> self.gsp_mem.readable(gsp) > 0,
            r matches Some(span) ==> {
                &&& span.start == page(self.gsp_mem.read_ptr) * GSP_PAGE_SIZE
                &&& span.len == hdr_size
                &&& span.start + span.len <= RING_SIZE
            },
    {
        let area: (Span, Span) = self.gsp_mem.driver_read_area(gsp);
        if area.0.len == 0 {
            None
        } else {
            Some(Span { start: area.0.start * 0x1000, len: hdr_size })
        }
    }

    /// Whether the pages that the driver may read can hold a message of these sizes whose header and
    /// structure do not wrap around.
    pub fn message_fits(
        &self,
        gsp: GspPtrs,
        hdr_size: usize,
        cmd_size: usize,
        length: usize,
    ) -> (r: bool)
        ensures
            r == self.gsp_mem.holds_message(
                gsp,
                hdr_size as int,
                cmd_size as int,
                length as int,
            ),
    {
        let area: (Span, Span) = self.gsp_mem.driver_read_area(gsp);
        let at_once: usize = area.0.len * 0x1000;
        let all: usize = (area.0.len + area.1.len) * 0x1000;
        hdr_size <= at_once && cmd_size <= at_once - hdr_size && hdr_size <= all && length <= all
            - hdr_size
    }

    /// Takes the next message apart, if it is sound: its header was understood, it is long enough
    /// for a structure of `cmd_size` bytes, its function is known, and its checksum is right.
    /// A message with another function than `function` has no parts to offer.
    pub fn receive_msg_from_gsp(
        &self,
        gsp: GspPtrs,
        ring: &[u8],
        hdr_size: usize,
        cmd_size: usize,
        header: Option<MsgHeader>,
        function: u32,
    ) -> (r: Result<Reception, Error>)
        requires
            ring@.len() == RING_SIZE,
            header matches Some(h) ==> h.length >= cmd_size && h.function is Some
                ==> self.gsp_mem.holds_message(
                gsp,
                hdr_size as int,
                cmd_size as int,
                h.length as int,
            ),
        ensures
            ({
                let start = page(self.gsp_mem.read_ptr) * GSP_PAGE_SIZE;
                let sound = {
                    &&& header matches Some(h)
                    &&& h.length >= cmd_size
                    &&& h.function is Some
                    &&& checksum(read_ring(ring@, start, (hdr_size + h.length) as nat)) == 0
                };
                if !sound {
                    r == Err::<Reception, Error>(Error::EIO)
                } else if header->0.function->0 != function {
                    r == Ok::<Reception, Error>(Reception::OtherFunction)
                } else {
                    let length = header->0.length;
                    let room = self.gsp_mem.readable_at_once(gsp) - hdr_size - cmd_size;
                    let here = if length - cmd_size <= room {
                        length - cmd_size
                    } else {
                        room
                    };
                    &&& r matches Ok(Reception::Message { cmd, payload_1, payload_2 })
                    &&& cmd.start == start + hdr_size
                    &&& cmd.len == cmd_size
                    &&& payload_1.start == start + hdr_size + cmd_size
                    &&& payload_1.len == here
                    &&& payload_2.start == 0
                    &&& payload_2.len == length - cmd_size - here
                }
            }),
    {
        let h: MsgHeader = match header {
            Some(h) => h,
            None => {
                return Err(Error::EIO);
            },
        };
        if h.length < cmd_size {
            return Err(Error::EIO);
        }
        let found: u32 = match h.function {
            Some(found) => found,
            None => {
                return Err(Error::EIO);
            },
        };
        let area: (Span, Span) = self.gsp_mem.driver_read_area(gsp);
        let start: usize = area.0.start * 0x1000;
        let cmd: Span = Span { start: start + hdr_size, len: cmd_size };
        let room: usize = area.0.len * 0x1000 - hdr_size - cmd_size;
        let payload_size: usize = h.length - cmd_size;
        let here: usize = if room > payload_size {
            payload_size
        } else {
            room
        };
        let payload_1: Span = Span { start: start + hdr_size + cmd_size, len: here };
        let payload_2: Span = Span { start: 0, len: payload_size - here };
        let hdr_bytes: &[u8] = slice_subrange(ring, start, start + hdr_size);
        let cmd_bytes: &[u8] = slice_subrange(ring, cmd.start, cmd.start + cmd.len);
        let bytes_1: &[u8] = slice_subrange(
            ring,
            payload_1.start,
            payload_1.start + payload_1.len,
        );
        let bytes_2: &[u8] = slice_subrange(ring, 0, payload_2.len);
        let parts: [&[u8]; 4] = [hdr_bytes, cmd_bytes, bytes_1, bytes_2];
        proof {
            lemma_joined_parts(hdr_bytes, cmd_bytes, bytes_1, bytes_2);
            lemma_parts_are_message(
                ring@,
                start as int,
                hdr_size as int,
                cmd_size as int,
                here as int,
                payload_2.len as int,
            );
            assert(parts@ =~= seq![hdr_bytes, cmd_bytes, bytes_1, bytes_2]);
        }
        if Cmdq::calculate_checksum(&parts) != 0 {
            return Err(Error::EIO);
        }
        if found == function {
            Ok(Reception::Message { cmd, payload_1, payload_2 })
        } else {
            Ok(Reception::OtherFunction)
        }
    }

    /// Finishes with a message of `length` bytes behind its header: its pages go back to the GSP,
    /// unless its structure could not be decoded.
    pub fn finish_message<R>(&mut self, length: usize, outcome: Outcome<R>) -> (r: Result<R, Error>)
        ensures
            ({
                let pages = (length + GSP_PAGE_SIZE - 1) / GSP_PAGE_SIZE as int;
                if outcome is Undecodable || pages > u32::MAX {
                    &&& r == Err::<R, Error>(Error::EINVAL)
                    &&& *final(self) == *old(self)
                } else {
                    &&& r == match outcome {
                        Outcome::Handled(handled) => handled,
                        _ => Err::<R, Error>(Error::ERANGE),
                    }
                    &&& final(self).gsp_mem.read_ptr == advanced(
                        old(self).gsp_mem.read_ptr,
                        pages as u32,
                    )
                    &&& *final(self) == (Cmdq {
                        gsp_mem: DmaGspMem {
                            read_ptr: final(self).gsp_mem.read_ptr,
                            ..old(self).gsp_mem
                        },
                        ..*old(self)
                    })
                }
            }),
    {
        let result: Result<R, Error> = match outcome {
            Outcome::Handled(handled) => handled,
            Outcome::OtherFunction => Err(Error::ERANGE),
            Outcome::Undecodable => {
                return Err(Error::EINVAL);
            },
        };
        let whole: usize = length / 0x1000;
        let pages: u64 = if length % 0x1000 == 0 {
            whole as u64
        } else {
            whole as u64 + 1
        };
        if pages > 0xffff_ffff {
            return Err(Error::EINVAL);
        }
        self.gsp_mem.advance_cpu_read_ptr(pages as u32);
        result
    }
}

/// A command that was sent stands whole in the ring where the queue was about to write, its checksum
/// verifies, and the commands that the GSP has not read yet are as they were.
pub proof fn law_sent_command_arrives(
    cmdq: Cmdq,
    after: Cmdq,
    ring: Seq<u8>,
    ring_after: Seq<u8>,
    gsp: GspPtrs,
    msg: Seq<u8>,
    at: int,
    elem_count: u32,
    views: Views,
)
    requires
        ring.len() == RING_SIZE,
        0 <= at,
        at + 4 <= msg.len(),
        at % 4 == 0,
        msg.subrange(at, at + 4) == zeros(4),
        cmdq.sends(after, ring, ring_after, gsp, msg, at, elem_count, views, Ok(())),
    ensures
        ({
            let tx = page(cmdq.gsp_mem.tx.write_ptr);
            let rx = page(gsp.read_ptr);
            let received = read_ring(ring_after, tx * GSP_PAGE_SIZE, msg.len());
            let unread = (used_pages(tx, rx) * GSP_PAGE_SIZE) as nat;
            &&& received == sealed(msg, at)
            &&& checksum(received) == 0
            &&& read_ring(ring_after, rx * GSP_PAGE_SIZE, unread) == read_ring(
                ring,
                rx * GSP_PAGE_SIZE,
                unread,
            )
        }),
{
    let tx = page(cmdq.gsp_mem.tx.write_ptr);
    lemma_le_bytes_len(checksum(msg) as nat, 4);
    law_sent_message_verifies(ring, tx * GSP_PAGE_SIZE, msg, at);
    law_write_keeps_unread(ring, tx, page(gsp.read_ptr), sealed(msg, at));
}

/// The parts of a message, split where the ring wraps around, are the message.
proof fn lemma_parts_are_message(
    ring: Seq<u8>,
    start: int,
    hdr_size: int,
    cmd_size: int,
    here: int,
    rest: int,
)
    requires
        ring.len() == RING_SIZE,
        0 <= start,
        0 <= hdr_size,
        0 <= cmd_size,
        0 <= here,
        0 <= rest <= start,
        start + hdr_size + cmd_size + here <= RING_SIZE,
        rest > 0 ==> start + hdr_size + cmd_size + here == RING_SIZE,
    ensures
        ring.subrange(start, start + hdr_size) + ring.subrange(
            start + hdr_size,
            start + hdr_size + cmd_size,
        ) + ring.subrange(start + hdr_size + cmd_size, start + hdr_size + cmd_size + here)
            + ring.subrange(0, rest) == read_ring(
            ring,
            start,
            (hdr_size + cmd_size + here + rest) as nat,
        ),
{
    let msg = read_ring(ring, start, (hdr_size + cmd_size + here + rest) as nat);
    let parts = ring.subrange(start, start + hdr_size) + ring.subrange(
        start + hdr_size,
        start + hdr_size + cmd_size,
    ) + ring.subrange(start + hdr_size + cmd_size, start + hdr_size + cmd_size + here)
        + ring.subrange(0, rest);
    assert forall|k: int| 0 <= k < msg.len() implies #[trigger] msg[k] == parts[k] by {
        assert((start + k) % RING_SIZE as int == if start + k < RING_SIZE {
            start + k
        } else {
            start + k - RING_SIZE
        });
    }
    assert(msg =~= parts);
}

/// A command whose parts are copied to their regions, with the payload split at `here`, stands in the
/// ring as one piece.
proof fn lemma_regions_hold_command(
    ring: Seq<u8>,
    start: int,
    hdr: Seq<u8>,
    cmd: Seq<u8>,
    payload: Seq<u8>,
    here: int,
    at: int,
    word: Seq<u8>,
)
    requires
        ring.len() == RING_SIZE,
        0 <= start < RING_SIZE,
        0 <= here <= payload.len(),
        start + hdr.len() + cmd.len() + here <= RING_SIZE,
        here < payload.len() ==> start + hdr.len() + cmd.len() + here == RING_SIZE,
        payload.len() - here <= start,
        0 <= at,
        at + word.len() <= hdr.len(),
    ensures
        ({
            let r1 = patched(ring, start, hdr);
            let r2 = patched(r1, start + hdr.len(), cmd);
            let r3 = patched(r2, start + hdr.len() + cmd.len(), payload.subrange(0, here));
            let r4 = patched(r3, 0, payload.subrange(here, payload.len() as int));
            patched(r4, start + at, word) == write_ring(
                ring,
                start,
                patched(hdr + cmd + payload, at, word),
            )
        }),
{
    let msg = hdr + cmd + payload;
    let sent = patched(msg, at, word);
    let r1 = patched(ring, start, hdr);
    let r2 = patched(r1, start + hdr.len(), cmd);
    let r3 = patched(r2, start + hdr.len() + cmd.len(), payload.subrange(0, here));
    let r4 = patched(r3, 0, payload.subrange(here, payload.len() as int));
    let r5 = patched(r4, start + at, word);
    let all = write_ring(ring, start, sent);
    assert(sent.len() == msg.len());
    assert forall|j: int| 0 <= j < RING_SIZE implies #[trigger] r5[j] == all[j] by {
        let k = if j >= start {
            j - start
        } else {
            j - start + RING_SIZE
        };
        assert((j - start) % RING_SIZE as int == k);
        assert(r5[j] == if start + at <= j < start + at + word.len() {
            word[j - start - at]
        } else {
            r4[j]
        });
        if k < msg.len() {
            assert(r4[j] == msg[k]);
            assert(sent[k] == if at <= k < at + word.len() {
                word[k - at]
            } else {
                msg[k]
            });
        } else {
            assert(r4[j] == ring[j]);
        }
    }
    assert(r5 =~= all);
}

proof fn lemma_joined_parts(a: &[u8], b: &[u8], c: &[u8], d: &[u8])
    ensures
        joined(seq![a, b, c, d]) == a@ + b@ + c@ + d@,
{
    reveal_with_fuel(joined, 5);
    assert(seq![a, b, c, d].drop_last() =~= seq![a, b, c]);
    assert(seq![a, b, c].drop_last() =~= seq![a, b]);
    assert(seq![a, b].drop_last() =~= seq![a]);
    assert(seq![a].drop_last() =~= Seq::empty());
    assert(Seq::<u8>::empty() + a@ =~= a@);
}

/// A position stands for one of 63 pages, and positions that differ by 63 stand for the same one.
pub proof fn law_positions_are_pages(ptr: u32, turns: int)
    requires
        0 <= turns,
        ptr + 63 * turns <= u32::MAX,
    ensures
        0 <= page(ptr) < 63,
        ptr < 63 ==> page(ptr) == ptr,
        page((ptr + 63 * turns) as u32) == page(ptr),
{
}

/// Moving on by one page leads to the next page, and from the last one to the first. Moving on by
/// several pages is moving on by one page as often.
pub proof fn law_positions_advance(ptr: u32, count: u32)
    requires
        count < u32::MAX - 63,
    ensures
        advanced(ptr, 0) == page(ptr),
        0 <= advanced(ptr, count) < 63,
        advanced(ptr, (count + 1) as u32) == if advanced(ptr, count) == 62 {
            0
        } else {
            advanced(ptr, count) + 1
        },
{
}

/// The used pages are those from the read position up to the write position: none if both are the
/// same, and one more whenever the writer moves on. Of 63 pages, 62 can be used.
pub proof fn law_used_pages(tx: int, rx: int)
    requires
        0 <= tx < 63,
        0 <= rx < 63,
    ensures
        used_pages(tx, rx) == 0 <==> tx == rx,
        used_pages(tx, rx) == if rx <= tx {
            tx - rx
        } else {
            63 - rx + tx
        },
        free_pages(tx, rx) + used_pages(tx, rx) == 62,
{
}

/// The pages of a run that is split where the ring wraps around: page `k` of the run is the one that
/// is `k` pages further on, and the second part begins only where the first one has reached the end.
pub proof fn law_run_wraps_around(area: (Span, Span), from: int, count: int, k: int)
    requires
        is_run(area, from, count),
        0 <= from < 63,
        0 <= k < count <= 63,
    ensures
        area.0.len + area.1.len == count,
        k < area.0.len ==> area.0.start + k == (from + k) % 63,
        k >= area.0.len ==> area.1.start + (k - area.0.len) == (from + k) % 63,
        area.1.len > 0 ==> area.0.start + area.0.len == 63,
        area.0.start + area.0.len <= 63,
{
}

/// What a write to a ring changes: byte `k` of what is written lands `k` places further on, and the
/// places that are not reached keep what they held. A read takes the bytes from the same places.
pub proof fn law_ring_places(ring: Seq<u8>, start: int, bytes: Seq<u8>, k: int)
    requires
        0 <= start < ring.len(),
        bytes.len() <= ring.len(),
        0 <= k < ring.len(),
    ensures
        ({
            let after = write_ring(ring, start, bytes);
            let place = if start + k < ring.len() {
                start + k
            } else {
                start + k - ring.len()
            };
            &&& after.len() == ring.len()
            &&& k < bytes.len() ==> after[place] == bytes[k]
            &&& k >= bytes.len() ==> after[place] == ring[place]
            &&& read_ring(ring, start, ring.len())[k] == ring[place]
            &&& read_ring(ring, start, bytes.len()).len() == bytes.len()
        }),
{
    lemma_wrapped(start, k, ring.len() as int);
}

/// Bytes that come in several parts are the bytes of the parts, one after the other, however they are
/// grouped.
pub proof fn law_parts_are_joined(a: Seq<&[u8]>, part: &[u8], b: Seq<&[u8]>)
    ensures
        joined(seq![part]) == part@,
        joined(a + b) == joined(a) + joined(b),
    decreases b.len(),
{
    assert(seq![part].drop_last() =~= Seq::<&[u8]>::empty());
    assert(joined(Seq::<&[u8]>::empty()) =~= Seq::empty());
    assert(joined(seq![part]) =~= part@);
    if b.len() == 0 {
        assert(a + b =~= a);
        assert(joined(a) + joined(b) =~= joined(a));
    } else {
        law_parts_are_joined(a, part, b.drop_last());
        assert((a + b).drop_last() =~= a + b.drop_last());
        assert(joined(a + b) =~= joined(a) + joined(b));
    }
}

/// A message with its checksum is the message, but for the four bytes of the field, which hold the
/// exclusive or of its bytes in four lanes.
pub proof fn law_sealed_bytes(msg: Seq<u8>, at: int, i: int)
    requires
        0 <= at,
        at + 4 <= msg.len(),
        0 <= i < msg.len(),
    ensures
        sealed(msg, at).len() == msg.len(),
        i < at || at + 4 <= i ==> sealed(msg, at)[i] == msg[i],
        at <= i < at + 4 ==> sealed(msg, at)[i] == lane(msg, i - at),
{
    let c = checksum(msg);
    law_u32_bytes(c);
    if at <= i < at + 4 {
        let k = (i - at) as u32;
        law_checksum_bytes(msg, i - at);
        assert((c >> ((8 * k) as u32)) as u8 == if k == 0 {
            c % 0x100
        } else if k == 1 {
            c / 0x100 % 0x100
        } else if k == 2 {
            c / 0x1_0000 % 0x100
        } else {
            c / 0x100_0000
        }) by (bit_vector)
            requires
                k < 4,
        ;
    }
}

/// A command finds room exactly if it fits the pages that are free: all but one of those that the GSP
/// has read.
pub proof fn law_room_for_commands(mem: DmaGspMem, gsp: GspPtrs, size: int)
    requires
        mem.tx.write_ptr < 63,
        gsp.read_ptr < 63,
    ensures
        ({
            let tx = mem.tx.write_ptr as int;
            let rx = gsp.read_ptr as int;
            mem.has_room(gsp, size) <==> size <= 4096 * (if rx <= tx {
                62 - (tx - rx)
            } else {
                rx - tx - 1
            })
        }),
{
}

/// How much can be written or read in one piece: all of it, or all up to the end of the ring.
pub proof fn law_pieces(mem: DmaGspMem, gsp: GspPtrs)
    ensures
        mem.writable_at_once(gsp) <= 4096 * mem.writable(gsp),
        mem.writable_at_once(gsp) == 4096 * mem.writable(gsp) || page(mem.tx.write_ptr) * 4096
            + mem.writable_at_once(gsp) == 63 * 4096,
        page(mem.tx.write_ptr) * 4096 + mem.writable_at_once(gsp) <= 63 * 4096,
        mem.readable_at_once(gsp) <= 4096 * mem.readable(gsp),
        mem.readable_at_once(gsp) == 4096 * mem.readable(gsp) || page(mem.read_ptr) * 4096
            + mem.readable_at_once(gsp) == 63 * 4096,
        page(mem.read_ptr) * 4096 + mem.readable_at_once(gsp) <= 63 * 4096,
        mem.readable(gsp) == used_pages(page(gsp.write_ptr), page(mem.read_ptr)),
        mem.writable(gsp) == free_pages(page(mem.tx.write_ptr), page(gsp.read_ptr)),
{
}

/// Every command whose header and structure fit one page can be handed to the queue, whatever its
/// payload and wherever the positions are, as long as the sequence numbers last.
pub proof fn law_small_commands_can_be_sent(
    cmdq: Cmdq,
    gsp: GspPtrs,
    hdr_size: int,
    cmd_size: int,
    payload_size: int,
    views: Views,
)
    requires
        0 <= hdr_size,
        0 <= cmd_size,
        0 <= payload_size,
        hdr_size + cmd_size <= 4096,
        hdr_size + cmd_size + payload_size <= usize::MAX,
        cmdq.seq < u32::MAX,
    ensures
        cmdq.can_send(gsp, hdr_size, cmd_size, payload_size, views),
{
}

/// A message can be received exactly if it lies in the pages that hold messages, with its header and
/// structure in one piece. Every message that lies in one page can be.
pub proof fn law_messages_in_reach(
    mem: DmaGspMem,
    gsp: GspPtrs,
    hdr_size: int,
    cmd_size: int,
    length: int,
)
    requires
        0 <= hdr_size,
        0 <= cmd_size <= length,
    ensures
        mem.readable(gsp) > 0 && hdr_size + length <= 4096 ==> mem.holds_message(
            gsp,
            hdr_size,
            cmd_size,
            length,
        ),
        mem.holds_message(gsp, hdr_size, cmd_size, length) <==> hdr_size + length <= 4096
            * mem.readable(gsp) && hdr_size + cmd_size <= mem.readable_at_once(gsp),
{
}

/// A command can be handed to the queue exactly if its size is one of memory and, in case it finds
/// room, its header stands in one piece, its structure too if the header can be viewed, and there is
/// a sequence number left if it is going to be sent.
pub proof fn law_commands_that_can_be_sent(
    cmdq: Cmdq,
    gsp: GspPtrs,
    hdr_size: int,
    cmd_size: int,
    payload_size: int,
    views: Views,
)
    ensures
        ({
            let size = hdr_size + cmd_size + payload_size;
            let at_once = cmdq.gsp_mem.writable_at_once(gsp);
            cmdq.can_send(gsp, hdr_size, cmd_size, payload_size, views) <==> {
                &&& size <= usize::MAX
                &&& size <= 4096 * cmdq.gsp_mem.writable(gsp) ==> {
                    &&& hdr_size <= at_once
                    &&& views.header ==> hdr_size + cmd_size <= at_once
                    &&& views.header && views.cmd ==> cmdq.seq != u32::MAX
                }
            }
        }),
{
}

/// Sending succeeds exactly if there is room and the place does for the types of the command. It then
/// uses up one sequence number and moves the write position on by the pages of the command. If it
/// fails, queue and ring are as they were; without room it is worth trying again.
pub proof fn law_send_outcome(
    cmdq: Cmdq,
    after: Cmdq,
    ring: Seq<u8>,
    ring_after: Seq<u8>,
    gsp: GspPtrs,
    msg: Seq<u8>,
    at: int,
    elem_count: u32,
    views: Views,
    r: Result<(), Error>,
)
    requires
        cmdq.sends(after, ring, ring_after, gsp, msg, at, elem_count, views, r),
    ensures
        r is Ok <==> msg.len() <= 4096 * cmdq.gsp_mem.writable(gsp) && views.header && views.cmd,
        r is Ok ==> {
            &&& after.seq == cmdq.seq + 1
            &&& elem_count <= 62 ==> after.gsp_mem.tx.write_ptr == (page(
                cmdq.gsp_mem.tx.write_ptr,
            ) + elem_count) % 63
            &&& after.gsp_mem.read_ptr == cmdq.gsp_mem.read_ptr
            &&& after.gsp_mem.dma_handle == cmdq.gsp_mem.dma_handle
            &&& ring_after.len() == ring.len()
        },
        r is Err ==> after == cmdq && ring_after == ring,
        msg.len() > 4096 * cmdq.gsp_mem.writable(gsp) ==> r == Err::<(), Error>(Error::EAGAIN),
        msg.len() <= 4096 * cmdq.gsp_mem.writable(gsp) && !(views.header && views.cmd) ==> r
            == Err::<(), Error>(Error::EINVAL),
{
}

/// A new queue: no command was sent, both rings are empty, and entry `i` of its page table is the
/// address of page `i`.
pub proof fn law_new_queue(cmdq: Cmdq, dma_handle: u64, rx_hdr_off: u32, i: int)
    requires
        cmdq.is_new(dma_handle, rx_hdr_off),
        0 <= i < 512,
    ensures
        cmdq.seq == 0,
        cmdq.gsp_mem.dma_handle == dma_handle,
        cmdq.gsp_mem.ptes.ptes[i] == dma_handle + 4096 * i,
        cmdq.gsp_mem.tx.size == 64 * 4096,
        cmdq.gsp_mem.tx.num_pages == 63,
        cmdq.gsp_mem.tx.rx_hdr_off == rx_hdr_off,
        cmdq.gsp_mem.readable(GspPtrs { write_ptr: 0, read_ptr: 0 }) == 0,
        cmdq.gsp_mem.writable(GspPtrs { write_ptr: 0, read_ptr: 0 }) == 62,
{
}

} // verus!
