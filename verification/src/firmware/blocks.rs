//! Block structure of TLV (type, length, value) firmware images.
//!
//! A payload is a sequence of blocks. Each block has a tag of four ASCII bytes, the size of its
//! value as a little-endian 32-bit number, and the value itself, completed to a multiple of four
//! bytes.

use vstd::prelude::*;
use vstd::slice::slice_subrange;

use crate::wire::{
    get_u32, le_bytes, le_value, lemma_bytes_of_value, lemma_le_bytes_len, lemma_pow256,
    lemma_value_of_bytes,
};

verus! {

/// Size of the header of a block.
pub const HEADER_SIZE: usize = 8;

/// Whether all bytes of `s` are ASCII.
pub open spec fn is_ascii_bytes(s: Seq<u8>) -> bool {
    forall|i: int| 0 <= i < s.len() ==> #[trigger] s[i] < 0x80
}

/// Whether `data` starts with the magic bytes "NVFW".
pub open spec fn has_magic(data: Seq<u8>) -> bool {
    data.len() >= 4 && data.subrange(0, 4) == seq![0x4eu8, 0x56u8, 0x46u8, 0x57u8]
}

/// The bytes after the magic.
pub open spec fn payload_of(data: Seq<u8>) -> Seq<u8> {
    data.subrange(4, data.len() as int)
}

/// The size of the value that the header at the start of `s` announces.
pub open spec fn announced(s: Seq<u8>) -> nat {
    le_value(s.subrange(4, 8))
}

/// `len` rounded up to a multiple of 4.
pub open spec fn stored_size(len: nat) -> nat {
    (len + 3) / 4 * 4
}

/// The number of bytes that the block at the start of `s` takes.
pub open spec fn extent(s: Seq<u8>) -> nat {
    HEADER_SIZE as nat + stored_size(announced(s))
}

/// Whether `s` starts with a complete header.
pub open spec fn starts_header(s: Seq<u8>) -> bool {
    s.len() >= HEADER_SIZE && is_ascii_bytes(s.subrange(0, 4))
}

/// Whether `s` starts with a complete block.
pub open spec fn starts_block(s: Seq<u8>) -> bool {
    starts_header(s) && extent(s) <= s.len()
}

/// What follows the block at the start of `s`.
pub open spec fn after_block(s: Seq<u8>) -> Seq<u8> {
    s.subrange(extent(s) as int, s.len() as int)
}

/// Whether `s` is a sequence of complete blocks, with nothing left over.
pub open spec fn well_formed(s: Seq<u8>) -> bool
    decreases s.len(),
{
    s.len() == 0 || (starts_block(s) && well_formed(after_block(s)))
}

/// A block: its tag and its value.
pub struct Block {
    pub tag: Seq<u8>,
    pub value: Seq<u8>,
}

/// The block at the start of `s`.
pub open spec fn first_block(s: Seq<u8>) -> Block {
    Block { tag: s.subrange(0, 4), value: s.subrange(8, 8 + announced(s) as int) }
}

/// The blocks that `s` consists of.
pub open spec fn blocks(s: Seq<u8>) -> Seq<Block>
    decreases s.len(),
{
    if starts_block(s) {
        seq![first_block(s)] + blocks(after_block(s))
    } else {
        Seq::empty()
    }
}

/// The value of the first block whose tag is `tag`.
pub open spec fn find_value(bs: Seq<Block>, tag: Seq<u8>) -> Option<Seq<u8>>
    decreases bs.len(),
{
    if bs.len() == 0 {
        None
    } else if bs[0].tag == tag {
        Some(bs[0].value)
    } else {
        find_value(bs.drop_first(), tag)
    }
}

/// Whether `o` is the offset at which some block of `s` starts or the last one ends.
pub open spec fn is_boundary(s: Seq<u8>, o: int) -> bool
    decreases s.len(),
{
    o == 0 || (starts_block(s) && extent(s) <= o && is_boundary(after_block(s), o - extent(s)))
}

/// The bytes that a block takes, up to the filler behind its value.
pub open spec fn takes(block: Block) -> nat {
    HEADER_SIZE as nat + stored_size(block.value.len())
}

/// The bytes that blocks take together.
pub open spec fn take_together(bs: Seq<Block>) -> nat
    decreases bs.len(),
{
    if bs.len() == 0 {
        0
    } else {
        takes(bs[0]) + take_together(bs.drop_first())
    }
}

/// In a well-formed payload every block boundary before the end starts a complete block, and the
/// end of that block is a boundary too. What follows a boundary is well-formed.
pub proof fn law_boundary_starts_block(s: Seq<u8>, o: int)
    requires
        well_formed(s),
        is_boundary(s, o),
    ensures
        0 <= o <= s.len(),
        well_formed(s.subrange(o, s.len() as int)),
        o < s.len() ==> {
            let rest = s.subrange(o, s.len() as int);
            &&& starts_block(rest)
            &&& is_boundary(s, o + extent(rest))
        },
    decreases s.len(),
{
    if o == 0 {
        assert(s.subrange(0, s.len() as int) =~= s);
        if s.len() > 0 {
            assert(is_boundary(after_block(s), 0));
        }
    } else {
        let rest = after_block(s);
        let p = o - extent(s);
        law_boundary_starts_block(rest, p);
        assert(rest.subrange(p, rest.len() as int) =~= s.subrange(o, s.len() as int));
        if o < s.len() {
            let next = p + extent(rest.subrange(p, rest.len() as int));
            assert(is_boundary(rest, next));
            assert(next == o + extent(s.subrange(o, s.len() as int)) - extent(s));
        }
    }
}

/// The end of a well-formed payload is a block boundary.
pub proof fn law_end_is_boundary(s: Seq<u8>)
    requires
        well_formed(s),
    ensures
        is_boundary(s, s.len() as int),
    decreases s.len(),
{
    if s.len() > 0 {
        law_end_is_boundary(after_block(s));
    }
}

/// The blocks of a well-formed payload account for all of its bytes, and their tags are four ASCII
/// bytes each.
pub proof fn law_blocks_cover(s: Seq<u8>)
    requires
        well_formed(s),
    ensures
        take_together(blocks(s)) == s.len(),
        forall|i: int|
            0 <= i < blocks(s).len() ==> {
                &&& (#[trigger] blocks(s)[i]).tag.len() == 4
                &&& is_ascii_bytes(blocks(s)[i].tag)
            },
    decreases s.len(),
{
    if s.len() > 0 {
        let rest = blocks(after_block(s));
        law_blocks_cover(after_block(s));
        assert(blocks(s).drop_first() =~= rest);
        assert forall|i: int| 0 <= i < blocks(s).len() implies (#[trigger] blocks(s)[i]).tag.len()
            == 4 && is_ascii_bytes(blocks(s)[i].tag) by {
            if i > 0 {
                assert(blocks(s)[i] == rest[i - 1]);
            }
        }
    }
}

/// Looking up a tag gives the value of the earliest block with that tag, whatever blocks with the
/// same tag follow.
pub proof fn law_first_block_wins(bs: Seq<Block>, tag: Seq<u8>, i: int)
    requires
        0 <= i < bs.len(),
        bs[i].tag == tag,
        forall|j: int| 0 <= j < i ==> (#[trigger] bs[j]).tag != tag,
    ensures
        find_value(bs, tag) == Some(bs[i].value),
    decreases bs.len(),
{
    if i > 0 {
        assert(bs[0].tag != tag);
        let rest = bs.drop_first();
        assert forall|j: int| 0 <= j < i - 1 implies (#[trigger] rest[j]).tag != tag by {
            assert(rest[j] == bs[j + 1]);
        }
        law_first_block_wins(rest, tag, i - 1);
    }
}

/// Looking up a tag that no block has gives nothing.
pub proof fn law_missing_tag(bs: Seq<Block>, tag: Seq<u8>)
    requires
        forall|j: int| 0 <= j < bs.len() ==> (#[trigger] bs[j]).tag != tag,
    ensures
        find_value(bs, tag) is None,
    decreases bs.len(),
{
    if bs.len() > 0 {
        assert(bs[0].tag != tag);
        let rest = bs.drop_first();
        assert forall|j: int| 0 <= j < rest.len() implies (#[trigger] rest[j]).tag != tag by {
            assert(rest[j] == bs[j + 1]);
        }
        law_missing_tag(rest, tag);
    }
}

/// The bytes of a block: header, value, and `filler` up to a multiple of four bytes.
pub open spec fn block_bytes(block: Block, filler: Seq<u8>) -> Seq<u8> {
    block.tag + le_bytes(block.value.len(), 4) + block.value + filler
}

/// A block that is put in front of a payload, with any filler, is read back as the first block,
/// followed by the blocks of that payload. The whole is well-formed exactly when the rest is.
pub proof fn law_block_is_read_back(block: Block, filler: Seq<u8>, rest: Seq<u8>)
    requires
        block.tag.len() == 4,
        is_ascii_bytes(block.tag),
        block.value.len() <= u32::MAX,
        block.value.len() + filler.len() == stored_size(block.value.len()),
    ensures
        well_formed(block_bytes(block, filler) + rest) == well_formed(rest),
        blocks(block_bytes(block, filler) + rest) == seq![block] + blocks(rest),
{
    let n = block.value.len();
    let s = block_bytes(block, filler) + rest;
    lemma_pow256();
    lemma_le_bytes_len(n, 4);
    lemma_value_of_bytes(n, 4);
    assert(s.subrange(0, 4) =~= block.tag);
    assert(s.subrange(4, 8) =~= le_bytes(n, 4));
    assert(s.subrange(8, 8 + n as int) =~= block.value);
    assert(after_block(s) =~= rest);
}

/// The bytes of several blocks, with a filler for each.
pub open spec fn payload_bytes(bs: Seq<Block>, fillers: Seq<Seq<u8>>) -> Seq<u8>
    decreases bs.len(),
{
    if bs.len() == 0 {
        Seq::empty()
    } else {
        block_bytes(bs[0], fillers[0]) + payload_bytes(bs.drop_first(), fillers.drop_first())
    }
}

/// Any blocks, written one after the other with any fillers, make a well-formed payload, and are
/// read back from it.
pub proof fn law_payload_is_read_back(bs: Seq<Block>, fillers: Seq<Seq<u8>>)
    requires
        bs.len() == fillers.len(),
        forall|i: int|
            0 <= i < bs.len() ==> {
                &&& (#[trigger] bs[i]).tag.len() == 4
                &&& is_ascii_bytes(bs[i].tag)
                &&& bs[i].value.len() <= u32::MAX
                &&& bs[i].value.len() + fillers[i].len() == stored_size(bs[i].value.len())
            },
    ensures
        well_formed(payload_bytes(bs, fillers)),
        blocks(payload_bytes(bs, fillers)) == bs,
    decreases bs.len(),
{
    if bs.len() == 0 {
        assert(blocks(payload_bytes(bs, fillers)) =~= bs);
    } else {
        let rest = bs.drop_first();
        let rest_fillers = fillers.drop_first();
        assert forall|i: int| 0 <= i < rest.len() implies {
            &&& (#[trigger] rest[i]).tag.len() == 4
            &&& is_ascii_bytes(rest[i].tag)
            &&& rest[i].value.len() <= u32::MAX
            &&& rest[i].value.len() + rest_fillers[i].len() == stored_size(rest[i].value.len())
        } by {
            assert(rest[i] == bs[i + 1]);
        }
        law_payload_is_read_back(rest, rest_fillers);
        assert(bs[0].tag.len() == 4);
        law_block_is_read_back(bs[0], fillers[0], payload_bytes(rest, rest_fillers));
        assert(seq![bs[0]] + rest =~= bs);
    }
}

/// Whether all of `bytes` are ASCII.
pub fn all_ascii(bytes: &[u8]) -> (r: bool)
    ensures
        r == is_ascii_bytes(bytes@),
{
    let mut i: usize = 0;
    while i < bytes.len()
        invariant
            i <= bytes@.len(),
            forall|j: int| 0 <= j < i ==> #[trigger] bytes@[j] < 0x80,
        decreases bytes@.len() - i,
    {
        if bytes[i] >= 0x80 {
            assert(bytes@[i as int] >= 0x80);
            return false;
        }
        i = i + 1;
    }
    true
}

/// Whether `a` and `b` hold the same bytes.
pub fn same_bytes(a: &[u8], b: &[u8]) -> (r: bool)
    ensures
        r == (a@ == b@),
{
    if a.len() != b.len() {
        return false;
    }
    let mut i: usize = 0;
    while i < a.len()
        invariant
            i <= a@.len(),
            a@.len() == b@.len(),
            forall|j: int| 0 <= j < i ==> a@[j] == b@[j],
        decreases a@.len() - i,
    {
        if a[i] != b[i] {
            return false;
        }
        i = i + 1;
    }
    assert(a@ =~= b@);
    true
}

/// The payload of `data`, or `None` if `data` does not start with the magic.
pub fn strip_magic(data: &[u8]) -> (r: Option<&[u8]>)
    ensures
        r is Some <==> has_magic(data@),
        r matches Some(payload) ==> payload@ == payload_of(data@),
{
    if data.len() < 4 {
        return None;
    }
    let ghost magic = seq![0x4eu8, 0x56u8, 0x46u8, 0x57u8];
    if data[0] != 0x4e || data[1] != 0x56 || data[2] != 0x46 || data[3] != 0x57 {
        proof {
            let head = data@.subrange(0, 4);
            assert(head[0] == data@[0] && head[1] == data@[1] && head[2] == data@[2] && head[3]
                == data@[3]);
            assert(magic[0] == 0x4e && magic[1] == 0x56 && magic[2] == 0x46 && magic[3] == 0x57);
        }
        return None;
    }
    assert(data@.subrange(0, 4) =~= magic);
    Some(slice_subrange(data, 4, data.len()))
}

/// Rounds `len` up to a multiple of 4; `None` if the result does not fit.
pub fn checked_stored_size(len: usize) -> (r: Option<usize>)
    ensures
        r is Some <==> stored_size(len as nat) <= usize::MAX,
        r matches Some(size) ==> size == stored_size(len as nat),
{
    let excess: usize = len % 4;
    if excess == 0 {
        Some(len)
    } else {
        len.checked_add(4 - excess)
    }
}

/// The size of the block at the start of `rest`; `None` if there is no complete block.
pub fn block_extent(rest: &[u8]) -> (r: Option<usize>)
    ensures
        r is Some <==> starts_block(rest@),
        r matches Some(size) ==> size == extent(rest@) && 8 <= size <= rest@.len(),
{
    if rest.len() < HEADER_SIZE {
        return None;
    }
    if !all_ascii(slice_subrange(rest, 0, 4)) {
        return None;
    }
    let length: usize = get_u32(rest, 4) as usize;
    let stored: usize = match checked_stored_size(length) {
        Some(stored) => stored,
        None => {
            return None;
        },
    };
    if stored > rest.len() - HEADER_SIZE {
        return None;
    }
    Some(HEADER_SIZE + stored)
}

/// Whether `payload` is a sequence of complete blocks.
pub fn validate(payload: &[u8]) -> (r: bool)
    ensures
        r == well_formed(payload@),
{
    let mut pos: usize = 0;
    assert(payload@.subrange(0, payload@.len() as int) =~= payload@);
    while pos < payload.len()
        invariant
            pos <= payload@.len(),
            well_formed(payload@) == well_formed(
                payload@.subrange(pos as int, payload@.len() as int),
            ),
        decreases payload@.len() - pos,
    {
        let rest: &[u8] = slice_subrange(payload, pos, payload.len());
        match block_extent(rest) {
            Some(size) => {
                proof {
                    assert(after_block(rest@) =~= payload@.subrange(
                        pos + size,
                        payload@.len() as int,
                    ));
                }
                pos = pos + size;
            },
            None => {
                return false;
            },
        }
    }
    true
}

/// The block at the start of `rest`, as its tag, its value and its size.
pub fn split_block(rest: &[u8]) -> (r: Option<(&[u8], &[u8], usize)>)
    ensures
        r is Some <==> starts_block(rest@),
        r matches Some((tag, value, size)) ==> {
            &&& tag@ == first_block(rest@).tag
            &&& value@ == first_block(rest@).value
            &&& size == extent(rest@)
        },
{
    match block_extent(rest) {
        Some(size) => {
            let length: usize = get_u32(rest, 4) as usize;
            Some(
                (
                    slice_subrange(rest, 0, 4),
                    slice_subrange(rest, HEADER_SIZE, HEADER_SIZE + length),
                    size,
                ),
            )
        },
        None => None,
    }
}

/// Bytes are ASCII exactly if each of them is one of the first 128 values.
pub proof fn law_ascii_bytes(s: Seq<u8>)
    ensures
        (forall|i: int| 0 <= i < s.len() ==> 0 <= #[trigger] s[i] <= 127) <==> is_ascii_bytes(s),
{
}

/// Every payload becomes an image by putting "NVFW" in front of it, and is found again behind it;
/// data that starts otherwise is no image.
pub proof fn law_image_is_magic_and_payload(payload: Seq<u8>, data: Seq<u8>)
    ensures
        ({
            let image = seq!['N' as u8, 'V' as u8, 'F' as u8, 'W' as u8] + payload;
            has_magic(image) && payload_of(image) == payload
        }),
        has_magic(data) ==> data == seq!['N' as u8, 'V' as u8, 'F' as u8, 'W' as u8] + payload_of(
            data,
        ),
{
    let magic = seq!['N' as u8, 'V' as u8, 'F' as u8, 'W' as u8];
    let image = magic + payload;
    assert(image.subrange(0, 4) =~= seq![0x4eu8, 0x56u8, 0x46u8, 0x57u8]);
    assert(payload_of(image) =~= payload);
    if has_magic(data) {
        assert(magic =~= data.subrange(0, 4));
        assert(data =~= magic + payload_of(data));
    }
}

/// The stored size of a value is the least multiple of 4 that is no less than its size.
pub proof fn law_stored_size(len: nat)
    ensures
        stored_size(len) % 4 == 0,
        len <= stored_size(len) < len + 4,
{
}

/// The fillers behind the values of the blocks of `s`.
pub open spec fn fillers(s: Seq<u8>) -> Seq<Seq<u8>>
    decreases s.len(),
{
    if starts_block(s) {
        seq![s.subrange(8 + announced(s) as int, extent(s) as int)] + fillers(after_block(s))
    } else {
        Seq::empty()
    }
}

/// A well-formed payload is nothing but its blocks, one after the other, each with a filler of less
/// than four bytes that completes it.
pub proof fn law_well_formed_is_blocks(s: Seq<u8>)
    requires
        well_formed(s),
    ensures
        payload_bytes(blocks(s), fillers(s)) == s,
        fillers(s).len() == blocks(s).len(),
        forall|i: int|
            0 <= i < blocks(s).len() ==> {
                &&& (#[trigger] fillers(s)[i]).len() < 4
                &&& (blocks(s)[i].value.len() + fillers(s)[i].len()) % 4 == 0
            },
    decreases s.len(),
{
    if s.len() > 0 {
        let rest = after_block(s);
        let n = announced(s);
        law_well_formed_is_blocks(rest);
        lemma_bytes_of_value(s.subrange(4, 8));
        assert(blocks(s).drop_first() =~= blocks(rest));
        assert(fillers(s).drop_first() =~= fillers(rest));
        let first = first_block(s);
        let filler = s.subrange(8 + n as int, extent(s) as int);
        lemma_le_bytes_len(n, 4);
        assert(block_bytes(first, filler) =~= s.subrange(0, extent(s) as int));
        assert(block_bytes(first, filler) + rest =~= s);
        assert forall|i: int| 0 <= i < blocks(s).len() implies {
            &&& (#[trigger] fillers(s)[i]).len() < 4
            &&& (blocks(s)[i].value.len() + fillers(s)[i].len()) % 4 == 0
        } by {
            if i > 0 {
                assert(fillers(s)[i] == fillers(rest)[i - 1]);
                assert(blocks(s)[i] == blocks(rest)[i - 1]);
            }
        }
    }
}

/// A header is four ASCII bytes and a number, eight bytes in all, whatever follows. The number is the
/// size of the value.
pub proof fn law_headers(tag: Seq<u8>, length: u32, rest: Seq<u8>)
    requires
        tag.len() == 4,
    ensures
        ({
            let s = tag + le_bytes(length as nat, 4) + rest;
            &&& starts_header(s) <==> forall|i: int| 0 <= i < 4 ==> 0 <= #[trigger] tag[i] <= 127
            &&& announced(s) == length
        }),
        forall|s: Seq<u8>| #[trigger] starts_header(s) ==> s.len() >= 8,
{
    let s = tag + le_bytes(length as nat, 4) + rest;
    lemma_pow256();
    lemma_le_bytes_len(length as nat, 4);
    lemma_value_of_bytes(length as nat, 4);
    assert(s.subrange(0, 4) =~= tag);
    assert(s.subrange(4, 8) =~= le_bytes(length as nat, 4));
}

} // verus!
