//! TLV firmware images that are looked up by four-byte tags.

use vstd::prelude::*;
use vstd::slice::slice_subrange;
use vstd::string::{StringExecFns, StringSliceAdditionalSpecFns};

use super::blocks::{
    after_block, all_ascii, blocks, find_value, first_block, has_magic, is_ascii_bytes, is_boundary,
    law_boundary_starts_block, law_payload_is_read_back, payload_bytes, payload_of, same_bytes,
    split_block, starts_header, stored_size, strip_magic, validate, well_formed, Block, HEADER_SIZE,
};
use super::text_of_ascii;
use crate::error::Error;
use crate::wire::{get_u32, le_value};

verus! {

/// The path of the firmware image `name` for the chipset `chip_name`.
pub open spec fn tlv_path(chip_name: Seq<char>, name: Seq<char>) -> Seq<char> {
    "nvidia/"@ + chip_name + "/gsp/"@ + name + ".tlv"@
}

/// Whether some byte of `s` is zero.
pub open spec fn has_nul(s: Seq<u8>) -> bool {
    exists|i: int| 0 <= i < s.len() && s[i] == 0
}

fn contains_nul(bytes: &[u8]) -> (r: bool)
    ensures
        r == has_nul(bytes@),
{
    let mut i: usize = 0;
    while i < bytes.len()
        invariant
            i <= bytes@.len(),
            forall|j: int| 0 <= j < i ==> bytes@[j] != 0,
        decreases bytes@.len() - i,
    {
        if bytes[i] == 0 {
            return true;
        }
        i = i + 1;
    }
    false
}

/// The path under which the firmware image `name` for the chipset `chip_name` is requested. A path
/// cannot hold a zero byte.
pub fn request_tlv(chip_name: &str, name: &str) -> (r: Result<String, Error>)
    ensures
        r is Ok <==> !has_nul(chip_name.spec_bytes()) && !has_nul(name.spec_bytes()),
        r matches Err(e) ==> e == Error::EINVAL,
        r matches Ok(path) ==> path@ == tlv_path(chip_name@, name@),
{
    if contains_nul(chip_name.as_bytes()) || contains_nul(name.as_bytes()) {
        return Err(Error::EINVAL);
    }
    let mut path: String = String::new();
    path.append("nvidia/");
    path.append(chip_name);
    path.append("/gsp/");
    path.append(name);
    path.append(".tlv");
    assert(path@ =~= tlv_path(chip_name@, name@));
    Ok(path)
}

/// A block of an image.
#[derive(Debug, Clone, Copy)]
pub struct TlvBlock<'a> {
    pub tag: [u8; 4],
    pub value: &'a [u8],
}

/// The header of a block: its tag, and the size of its value without the filler behind it.
#[derive(Debug, Clone, Copy)]
pub struct TlvBlockHeader {
    pub tag: [u8; 4],
    pub length: usize,
}

/// The first four bytes of `bytes`.
fn tag_of(bytes: &[u8]) -> (tag: [u8; 4])
    requires
        bytes@.len() >= 4,
    ensures
        tag@ == bytes@.subrange(0, 4),
{
    let tag: [u8; 4] = [bytes[0], bytes[1], bytes[2], bytes[3]];
    assert(tag@ =~= bytes@.subrange(0, 4));
    tag
}

impl TlvBlockHeader {
    /// Parses the header at the start of `hdr`, which may be longer. The tag must be ASCII.
    pub fn parse(hdr: &[u8]) -> (r: Option<TlvBlockHeader>)
        ensures
            r is Some <==> starts_header(hdr@),
            r matches Some(header) ==> {
                &&& header.tag@ == hdr@.subrange(0, 4)
                &&& header.length == le_value(hdr@.subrange(4, 8))
            },
    {
        if hdr.len() < HEADER_SIZE {
            return None;
        }
        if !all_ascii(slice_subrange(hdr, 0, 4)) {
            return None;
        }
        Some(TlvBlockHeader { tag: tag_of(hdr), length: get_u32(hdr, 4) as usize })
    }
}

/// The payload of a validated image.
///
/// An image starts with the magic "NVFW", followed by one or more blocks and nothing else. Where
/// several blocks have the same tag, the first one counts.
pub struct Tlv<'a> {
    data: &'a [u8],
}

impl<'a> Tlv<'a> {
    /// The bytes after the magic.
    pub closed spec fn payload(self) -> Seq<u8> {
        self.data@
    }

    #[verifier::type_invariant]
    spec fn inv(self) -> bool {
        well_formed(self.data@)
    }

    /// The blocks of the image.
    pub open spec fn spec_blocks(self) -> Seq<Block> {
        blocks(self.payload())
    }

    /// Parses `data` as an image.
    pub fn new(data: &'a [u8]) -> (r: Result<Tlv<'a>, Error>)
        ensures
            r is Ok <==> has_magic(data@) && payload_of(data@).len() > 0 && well_formed(
                payload_of(data@),
            ),
            r matches Err(e) ==> e == Error::EINVAL,
            r matches Ok(tlv) ==> tlv.payload() == payload_of(data@),
    {
        let payload: &'a [u8] = match strip_magic(data) {
            Some(payload) => payload,
            None => {
                return Err(Error::EINVAL);
            },
        };
        if payload.len() == 0 {
            return Err(Error::EINVAL);
        }
        if !validate(payload) {
            return Err(Error::EINVAL);
        }
        Ok(Tlv { data: payload })
    }

    /// Starts a walk over the blocks.
    pub fn iter<'tlv>(&'tlv self) -> (it: TlvIter<'tlv, 'a>)
        ensures
            it.remaining() == self.spec_blocks(),
    {
        proof {
            use_type_invariant(self);
            assert(self.data@.subrange(0, self.data@.len() as int) =~= self.data@);
        }
        TlvIter { tlv: self, pos: 0 }
    }

    /// The first block with the tag `tag`.
    pub fn find(&self, tag: &[u8; 4]) -> (r: Result<TlvBlock<'a>, Error>)
        ensures
            match find_value(self.spec_blocks(), tag@) {
                Some(value) => r matches Ok(block) && block.tag@ == tag@ && block.value@ == value,
                None => r == Err::<TlvBlock<'a>, Error>(Error::EINVAL),
            },
    {
        let mut it: TlvIter = self.iter();
        loop
            invariant
                find_value(self.spec_blocks(), tag@) == find_value(it.remaining(), tag@),
            decreases it.remaining().len(),
        {
            let ghost before = it.remaining();
            match it.next() {
                Some(block) => {
                    if same_bytes(block.tag.as_slice(), tag.as_slice()) {
                        return Ok(block);
                    }
                    assert(before.drop_first() =~= it.remaining());
                },
                None => {
                    return Err(Error::EINVAL);
                },
            }
        }
    }

    /// The value of the first block with the tag `tag`.
    pub fn get_bytes(&self, tag: &[u8; 4]) -> (r: Result<&'a [u8], Error>)
        ensures
            match find_value(self.spec_blocks(), tag@) {
                Some(value) => r matches Ok(bytes) && bytes@ == value,
                None => r == Err::<&'a [u8], Error>(Error::EINVAL),
            },
    {
        match self.find(tag) {
            Ok(block) => Ok(block.value),
            Err(e) => Err(e),
        }
    }

    /// The value of the first block with the tag `tag`, as a number. It must be four bytes long.
    pub fn get_u32(&self, tag: &[u8; 4]) -> (r: Result<u32, Error>)
        ensures
            match find_value(self.spec_blocks(), tag@) {
                Some(value) => if value.len() == 4 {
                    r matches Ok(v) && v == le_value(value)
                } else {
                    r == Err::<u32, Error>(Error::EINVAL)
                },
                None => r == Err::<u32, Error>(Error::EINVAL),
            },
    {
        match self.find(tag) {
            Ok(block) => {
                if block.value.len() != 4 {
                    return Err(Error::EINVAL);
                }
                assert(block.value@.subrange(0, 4) =~= block.value@);
                Ok(get_u32(block.value, 0))
            },
            Err(e) => Err(e),
        }
    }

    /// The value of the first block with the tag `tag`, as text. It must be ASCII.
    pub fn get_string(&self, tag: &[u8; 4]) -> (r: Result<&'a str, Error>)
        ensures
            match find_value(self.spec_blocks(), tag@) {
                Some(value) => if is_ascii_bytes(value) {
                    r matches Ok(s) && s.spec_bytes() == value
                } else {
                    r == Err::<&'a str, Error>(Error::EINVAL)
                },
                None => r == Err::<&'a str, Error>(Error::EINVAL),
            },
    {
        match self.find(tag) {
            Ok(block) => text_of_ascii(block.value),
            Err(e) => Err(e),
        }
    }
}

/// A walk over the blocks of a [`Tlv`]. Its cursor always stands on a block boundary.
pub struct TlvIter<'tlv, 'a> {
    tlv: &'tlv Tlv<'a>,
    pos: usize,
}

impl<'tlv, 'a> TlvIter<'tlv, 'a> {
    #[verifier::type_invariant]
    spec fn inv(self) -> bool {
        is_boundary(self.tlv.data@, self.pos as int) && well_formed(self.tlv.data@)
    }

    /// The blocks that are still to come.
    pub closed spec fn remaining(self) -> Seq<Block> {
        blocks(self.tlv.data@.subrange(self.pos as int, self.tlv.data@.len() as int))
    }

    /// The next block, or `None` after the last one.
    pub fn next(&mut self) -> (r: Option<TlvBlock<'a>>)
        ensures
            r is None <==> old(self).remaining().len() == 0,
            r is None ==> final(self).remaining() == old(self).remaining(),
            r matches Some(block) ==> {
                &&& block.tag@ == old(self).remaining()[0].tag
                &&& block.value@ == old(self).remaining()[0].value
                &&& final(self).remaining() == old(self).remaining().drop_first()
            },
    {
        proof {
            use_type_invariant(&*self);
            law_boundary_starts_block(self.tlv.data@, self.pos as int);
        }
        let data: &'a [u8] = self.tlv.data;
        if self.pos >= data.len() {
            return None;
        }
        let rest: &'a [u8] = slice_subrange(data, self.pos, data.len());
        match split_block(rest) {
            Some((tag, value, size)) => {
                let tag: [u8; 4] = tag_of(tag);
                proof {
                    let tail = data@.subrange(self.pos + size, data@.len() as int);
                    assert(after_block(rest@) =~= tail);
                    assert(blocks(rest@).drop_first() =~= blocks(tail));
                    assert(tag@ =~= first_block(rest@).tag);
                }
                self.pos = self.pos + size;
                Some(TlvBlock { tag, value })
            },
            None => None,
        }
    }
}

/// The path of an image, and that a path is refused for any zero byte in its parts, wherever it is.
pub proof fn law_paths(chip_name: Seq<char>, name: Seq<char>, bytes: Seq<u8>, i: int)
    ensures
        tlv_path(chip_name, name) == "nvidia/"@ + chip_name + "/gsp/"@ + name + ".tlv"@,
        0 <= i < bytes.len() && bytes[i] == 0 ==> has_nul(bytes),
        (forall|j: int| 0 <= j < bytes.len() ==> #[trigger] bytes[j] != 0) ==> !has_nul(bytes),
{
}

/// The blocks of a validated image are those that it was written with.
pub proof fn law_image_has_its_blocks(tlv: Tlv, bs: Seq<Block>, fillers: Seq<Seq<u8>>)
    requires
        tlv.payload() == payload_bytes(bs, fillers),
        bs.len() == fillers.len(),
        forall|k: int|
            0 <= k < bs.len() ==> {
                &&& (#[trigger] bs[k]).tag.len() == 4
                &&& is_ascii_bytes(bs[k].tag)
                &&& bs[k].value.len() <= u32::MAX
                &&& bs[k].value.len() + fillers[k].len() == stored_size(bs[k].value.len())
            },
    ensures
        tlv.spec_blocks() == bs,
{
    law_payload_is_read_back(bs, fillers);
}

} // verus!
