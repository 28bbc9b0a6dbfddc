//! Firmware for RISC-V cores.

use vstd::prelude::*;

use super::blocks::{
    blocks, find_value, has_magic, is_ascii_bytes, law_first_block_wins,
    law_image_is_magic_and_payload, law_missing_tag, law_payload_is_read_back, payload_bytes,
    payload_of, stored_size, well_formed, Block,
};
use super::Tlv;
use crate::error::Error;
use crate::wire::{
    get_u32, law_u32_value, le_value, lemma_pow256, lemma_value_of_bytes, lemma_words_bytes_index,
    lemma_words_bytes_len, words_bytes,
};

verus! {

/// Size of a descriptor.
pub const RISCV_UCODE_DESC_SIZE: usize = 56;

/// Descriptor of microcode for a RISC-V core.
#[derive(Debug, Clone, Copy, PartialEq, Eq, Structural)]
pub struct RmRiscvUCodeDesc {
    pub version: u32,
    pub bootloader_offset: u32,
    pub bootloader_size: u32,
    pub bootloader_param_offset: u32,
    pub bootloader_param_size: u32,
    pub riscv_elf_offset: u32,
    pub riscv_elf_size: u32,
    pub app_version: u32,
    pub manifest_offset: u32,
    pub manifest_size: u32,
    pub monitor_data_offset: u32,
    pub monitor_data_size: u32,
    pub monitor_code_offset: u32,
    pub monitor_code_size: u32,
}

/// Field `i` of the descriptor that `desc` starts with.
pub open spec fn desc_field(desc: Seq<u8>, i: int) -> nat {
    le_value(desc.subrange(4 * i, 4 * i + 4))
}

impl RmRiscvUCodeDesc {
    /// Whether this is the descriptor that `desc` starts with.
    pub open spec fn stored_in(self, desc: Seq<u8>) -> bool {
        &&& self.version == desc_field(desc, 0)
        &&& self.bootloader_offset == desc_field(desc, 1)
        &&& self.bootloader_size == desc_field(desc, 2)
        &&& self.bootloader_param_offset == desc_field(desc, 3)
        &&& self.bootloader_param_size == desc_field(desc, 4)
        &&& self.riscv_elf_offset == desc_field(desc, 5)
        &&& self.riscv_elf_size == desc_field(desc, 6)
        &&& self.app_version == desc_field(desc, 7)
        &&& self.manifest_offset == desc_field(desc, 8)
        &&& self.manifest_size == desc_field(desc, 9)
        &&& self.monitor_data_offset == desc_field(desc, 10)
        &&& self.monitor_data_size == desc_field(desc, 11)
        &&& self.monitor_code_offset == desc_field(desc, 12)
        &&& self.monitor_code_size == desc_field(desc, 13)
    }

    /// Reads the descriptor that `desc` starts with. Fails if `desc` is too short.
    pub fn new(desc: &[u8]) -> (r: Result<RmRiscvUCodeDesc, Error>)
        ensures
            r is Ok <==> desc@.len() >= RISCV_UCODE_DESC_SIZE,
            r matches Err(e) ==> e == Error::EINVAL,
            r matches Ok(d) ==> d.stored_in(desc@),
    {
        if desc.len() < RISCV_UCODE_DESC_SIZE {
            return Err(Error::EINVAL);
        }
        Ok(
            RmRiscvUCodeDesc {
                version: get_u32(desc, 0),
                bootloader_offset: get_u32(desc, 4),
                bootloader_size: get_u32(desc, 8),
                bootloader_param_offset: get_u32(desc, 12),
                bootloader_param_size: get_u32(desc, 16),
                riscv_elf_offset: get_u32(desc, 20),
                riscv_elf_size: get_u32(desc, 24),
                app_version: get_u32(desc, 28),
                manifest_offset: get_u32(desc, 32),
                manifest_size: get_u32(desc, 36),
                monitor_data_offset: get_u32(desc, 40),
                monitor_data_size: get_u32(desc, 44),
                monitor_code_offset: get_u32(desc, 48),
                monitor_code_size: get_u32(desc, 52),
            },
        )
    }
}

/// A parsed firmware for a RISC-V core.
#[derive(Debug, Clone, Copy)]
pub struct RiscvFirmware<'a> {
    /// Offset of the code in the firmware image.
    pub code_offset: u32,
    /// Offset of the data in the firmware image.
    pub data_offset: u32,
    /// Offset of the manifest in the firmware image.
    pub manifest_offset: u32,
    /// Application version.
    pub app_version: u32,
    /// The firmware image, to be made visible to the device.
    pub ucode: &'a [u8],
}

/// The value of the block `tag` of the image `fw`.
pub open spec fn image_value(fw: Seq<u8>, tag: Seq<char>) -> Option<Seq<u8>> {
    find_value(blocks(payload_of(fw)), vstd::utf8::encode_utf8(tag))
}

/// Whether `fw` is an image with a descriptor and a microcode.
pub open spec fn is_riscv_image(fw: Seq<u8>) -> bool {
    &&& has_magic(fw)
    &&& well_formed(payload_of(fw))
    &&& image_value(fw, "DESC"@) matches Some(desc)
    &&& desc.len() >= RISCV_UCODE_DESC_SIZE
    &&& image_value(fw, "BLOB"@) is Some
}

impl<'a> RiscvFirmware<'a> {
    /// Parses the image `fw`: the descriptor is in its block "DESC", the microcode in "BLOB".
    pub fn new(fw: &'a [u8]) -> (r: Result<RiscvFirmware<'a>, Error>)
        ensures
            r is Ok <==> is_riscv_image(fw@),
            r matches Err(e) ==> e == Error::EINVAL,
            r matches Ok(riscv) ==> {
                let desc = image_value(fw@, "DESC"@)->0;
                &&& riscv.app_version == desc_field(desc, 7)
                &&& riscv.manifest_offset == desc_field(desc, 8)
                &&& riscv.data_offset == desc_field(desc, 10)
                &&& riscv.code_offset == desc_field(desc, 12)
                &&& riscv.ucode@ == image_value(fw@, "BLOB"@)->0
            },
    {
        let tlv: Tlv<'a> = match Tlv::new(fw) {
            Ok(tlv) => tlv,
            Err(e) => {
                return Err(e);
            },
        };
        let desc: &'a [u8] = match tlv.get_bytes("DESC") {
            Ok(desc) => desc,
            Err(e) => {
                return Err(e);
            },
        };
        let riscv_desc: RmRiscvUCodeDesc = match RmRiscvUCodeDesc::new(desc) {
            Ok(riscv_desc) => riscv_desc,
            Err(e) => {
                return Err(e);
            },
        };
        let ucode: &'a [u8] = match tlv.get_bytes("BLOB") {
            Ok(ucode) => ucode,
            Err(e) => {
                return Err(e);
            },
        };
        Ok(
            RiscvFirmware {
                code_offset: riscv_desc.monitor_code_offset,
                data_offset: riscv_desc.monitor_data_offset,
                manifest_offset: riscv_desc.manifest_offset,
                app_version: riscv_desc.app_version,
                ucode,
            },
        )
    }
}

/// Field `i` of a descriptor, from its four bytes.
pub proof fn law_descriptor_fields(desc: Seq<u8>, i: int)
    requires
        0 <= i,
        4 * i + 4 <= desc.len(),
    ensures
        desc_field(desc, i) == desc[4 * i] + 0x100 * desc[4 * i + 1] + 0x1_0000 * desc[4 * i + 2]
            + 0x100_0000 * desc[4 * i + 3],
{
    law_u32_value(desc.subrange(4 * i, 4 * i + 4));
}

/// A descriptor is read back from its 14 words, in the order of its fields, whatever follows them.
pub proof fn law_descriptor_is_read_back(d: RmRiscvUCodeDesc, rest: Seq<u8>)
    ensures
        d.stored_in(
            words_bytes(
                seq![
                    d.version,
                    d.bootloader_offset,
                    d.bootloader_size,
                    d.bootloader_param_offset,
                    d.bootloader_param_size,
                    d.riscv_elf_offset,
                    d.riscv_elf_size,
                    d.app_version,
                    d.manifest_offset,
                    d.manifest_size,
                    d.monitor_data_offset,
                    d.monitor_data_size,
                    d.monitor_code_offset,
                    d.monitor_code_size,
                ],
            ) + rest,
        ),
{
    let words = seq![
        d.version,
        d.bootloader_offset,
        d.bootloader_size,
        d.bootloader_param_offset,
        d.bootloader_param_size,
        d.riscv_elf_offset,
        d.riscv_elf_size,
        d.app_version,
        d.manifest_offset,
        d.manifest_size,
        d.monitor_data_offset,
        d.monitor_data_size,
        d.monitor_code_offset,
        d.monitor_code_size,
    ];
    let desc = words_bytes(words) + rest;
    lemma_words_bytes_len(words);
    assert forall|i: int| 0 <= i < 14 implies #[trigger] desc_field(desc, i) == words[i] by {
        lemma_words_bytes_index(words, i);
        lemma_pow256();
        lemma_value_of_bytes(words[i] as nat, 4);
        assert(desc.subrange(4 * i, 4 * i + 4) =~= words_bytes(words).subrange(4 * i, 4 * i + 4));
    }
}

/// Every payload with a descriptor of at least 56 bytes in its first block "DESC" and with some block
/// "BLOB" makes an image that can be loaded, wherever those blocks are; with a shorter descriptor it
/// cannot.
pub proof fn law_riscv_images(bs: Seq<Block>, fills: Seq<Seq<u8>>, i: int, j: int)
    requires
        bs.len() == fills.len(),
        forall|k: int|
            0 <= k < bs.len() ==> {
                &&& (#[trigger] bs[k]).tag.len() == 4
                &&& is_ascii_bytes(bs[k].tag)
                &&& bs[k].value.len() <= u32::MAX
                &&& bs[k].value.len() + fills[k].len() == stored_size(bs[k].value.len())
            },
        0 <= i < bs.len(),
        bs[i].tag == vstd::utf8::encode_utf8("DESC"@),
        forall|k: int| 0 <= k < i ==> (#[trigger] bs[k]).tag != bs[i].tag,
        0 <= j < bs.len(),
        bs[j].tag == vstd::utf8::encode_utf8("BLOB"@),
        forall|k: int| 0 <= k < j ==> (#[trigger] bs[k]).tag != bs[j].tag,
    ensures
        ({
            let fw = seq!['N' as u8, 'V' as u8, 'F' as u8, 'W' as u8] + payload_bytes(bs, fills);
            &&& is_riscv_image(fw) <==> bs[i].value.len() >= 56
            &&& image_value(fw, "DESC"@) == Some(bs[i].value)
            &&& image_value(fw, "BLOB"@) == Some(bs[j].value)
        }),
{
    let payload = payload_bytes(bs, fills);
    law_payload_is_read_back(bs, fills);
    law_image_is_magic_and_payload(payload, payload);
    law_first_block_wins(bs, bs[i].tag, i);
    law_first_block_wins(bs, bs[j].tag, j);
}

/// An image without a block "DESC" or without a block "BLOB" cannot be loaded.
pub proof fn law_incomplete_riscv_images(fw: Seq<u8>, tag: Seq<char>)
    requires
        tag == "DESC"@ || tag == "BLOB"@,
        forall|k: int|
            0 <= k < blocks(payload_of(fw)).len() ==> (#[trigger] blocks(payload_of(fw))[k]).tag
                != vstd::utf8::encode_utf8(tag),
    ensures
        !is_riscv_image(fw),
{
    law_missing_tag(blocks(payload_of(fw)), vstd::utf8::encode_utf8(tag));
}

} // verus!
