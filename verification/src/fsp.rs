//! Boot handshake with the FSP (Firmware System Processor).
//!
//! The FSP starts the GSP once it has accepted a Chain of Trust message. The driver extracts the
//! signatures of the FMC firmware, builds that message, writes it to the external memory of the
//! FSP falcon, and waits for the answer.

use vstd::prelude::*;

use crate::error::Error;
use crate::falcon::fsp::{
    chunk_count, emem_bytes, emem_words, read_emem, write_emem, EmemRead, EmemWrite,
};
use crate::wire::{
    get_u32, law_byte_of_words, law_u32_bytes, law_u32_value, le_bytes, le_value,
    lemma_le_bytes_len, lemma_pow256, lemma_value_of_bytes, lemma_words_bytes_index,
    lemma_words_bytes_len, lemma_words_of_bytes, put_le, put_slice, put_words, put_zeros,
    words_bytes, zeros,
};

verus! {

/// Version of the Chain of Trust message.
pub const FSP_COT_VERSION: u16 = 2;

/// Size of the SHA-384 hash of the FMC firmware.
pub const FSP_HASH_SIZE: usize = 48;

/// Largest size of the public key.
pub const FSP_PKEY_SIZE: usize = 97;

/// Largest size of the signature.
pub const FSP_SIG_SIZE: usize = 96;

/// How long the FSP may take to answer a message, in milliseconds.
pub const FSP_MSG_TIMEOUT_MS: i64 = 2000;

/// How long secure boot may take, in milliseconds.
pub const FSP_SECURE_BOOT_TIMEOUT_MS: i64 = 4000;

/// Value of the boot status register once secure boot has succeeded.
pub const FSP_BOOT_COMPLETE_STATUS_SUCCESS: u32 = 0x0000_00FF;

/// FSP error code: invalid Chain of Trust payload.
pub const FSP_ERROR_INVALID_COT_PAYLOAD: u32 = 0x00D7;

/// FSP error code: unrecognized microcode descriptor.
pub const FSP_ERROR_UCODE_UNRECOGNIZED_DESCRIPTOR_P1: u32 = 0x0177;

/// Memory that boot parameters point into: coherent system memory.
pub const GSP_DMA_TARGET_COHERENT_SYSTEM: u32 = 1;

/// Memory that boot parameters point into: non-coherent system memory.
pub const GSP_DMA_TARGET_NONCOHERENT_SYSTEM: u32 = 2;

/// MCTP message type of vendor-defined PCI messages.
pub const MCTP_MSG_TYPE_VENDOR_PCI: u32 = 0x7e;

/// PCI vendor of the messages.
pub const MCTP_VENDOR_ID_NV: u32 = 0x10de;

/// NVDM message type: Chain of Trust.
pub const NVDM_TYPE_COT: u32 = 0x14;

/// NVDM message type: answer of the FSP.
pub const NVDM_TYPE_FSP_RESPONSE: u32 = 0x15;

/// Size of a Chain of Trust payload.
pub const COT_SIZE: usize = 860;

/// Size of an answer of the FSP.
pub const FSP_RESPONSE_SIZE: usize = 20;

/// Hash, public key and signature of the FMC firmware, as the Chain of Trust message holds them.
#[derive(Debug, Clone, Copy)]
pub struct FmcSignatures {
    pub hash384: [u32; 12],
    pub public_key: [u32; 96],
    pub signature: [u32; 96],
}

impl Default for FmcSignatures {
    fn default() -> (s: FmcSignatures)
        ensures
            forall|i: int| 0 <= i < 12 ==> s.hash384[i] == 0,
            forall|i: int| 0 <= i < 96 ==> s.public_key[i] == 0,
            forall|i: int| 0 <= i < 96 ==> s.signature[i] == 0,
    {
        FmcSignatures { hash384: [0u32; 12], public_key: [0u32; 96], signature: [0u32; 96] }
    }
}

/// The sections of an FMC firmware image that hold its signatures; `None` stands for a section
/// that the image does not have.
#[derive(Debug, Clone, Copy)]
pub struct FmcSections<'a> {
    /// Section `hash`.
    pub hash: Option<&'a [u8]>,
    /// Section `publickey`.
    pub publickey: Option<&'a [u8]>,
    /// Section `signature`.
    pub signature: Option<&'a [u8]>,
}

/// Whether `fw` starts like a 32-bit ELF image.
pub open spec fn is_elf32(fw: Seq<u8>) -> bool {
    &&& fw.len() >= 16
    &&& fw[0] == 0x7f && fw[1] == 0x45 && fw[2] == 0x4c && fw[3] == 0x46
    &&& fw[4] == 1
}

/// `v` rounded up to a multiple of `a`.
pub open spec fn align_up(v: int, a: int) -> int {
    (v + a - 1) / a * a
}

/// Distance of the FRTS region from the end of video memory.
pub open spec fn frts_distance(blackwell: bool, rsvd_size: u64, resume: bool) -> int {
    if resume {
        0
    } else if blackwell {
        align_up(0x220000 + align_up(0x0800000int + 0x1000000 + 0x0001000, 0x20000), 0x200000)
    } else {
        align_up(rsvd_size as int, 0x200000) % 0x1_0000_0000_0000_0000
    }
}

/// Whether some byte of `s` is not zero.
pub open spec fn has_nonzero(s: Seq<u8>) -> bool {
    exists|i: int| 0 <= i < s.len() && s[i] != 0
}

/// Whether signatures can be taken from the sections: all three are there, have acceptable sizes
/// and are not blank.
pub open spec fn sections_usable(sections: FmcSections) -> bool {
    &&& sections.hash matches Some(hash)
    &&& sections.publickey matches Some(publickey)
    &&& sections.signature matches Some(signature)
    &&& hash@.len() == FSP_HASH_SIZE
    &&& publickey@.len() <= FSP_PKEY_SIZE
    &&& signature@.len() <= FSP_SIG_SIZE
    &&& has_nonzero(hash@)
    &&& has_nonzero(publickey@)
    &&& has_nonzero(signature@)
}

/// Whether `s` holds the contents of the sections, each with zeros behind it.
pub open spec fn extracted(sections: FmcSections, s: FmcSignatures) -> bool {
    let publickey = sections.publickey->0@;
    let signature = sections.signature->0@;
    &&& words_bytes(s.hash384@) == sections.hash->0@
    &&& words_bytes(s.public_key@) == publickey + zeros((384 - publickey.len()) as nat)
    &&& words_bytes(s.signature@) == signature + zeros((384 - signature.len()) as nat)
}

fn any_nonzero(s: &[u8]) -> (r: bool)
    ensures
        r == has_nonzero(s@),
{
    let mut i: usize = 0;
    while i < s.len()
        invariant
            i <= s@.len(),
            forall|j: int| 0 <= j < i ==> s@[j] == 0,
        decreases s@.len() - i,
    {
        if s[i] != 0 {
            return true;
        }
        i = i + 1;
    }
    false
}

/// Copies `section` into `N` words, completed with zeros.
fn section_words<const N: usize>(section: &[u8]) -> (words: [u32; N])
    requires
        section@.len() <= 4 * N <= 0x1000,
    ensures
        words_bytes(words@) == section@ + zeros((4 * N - section@.len()) as nat),
{
    let mut bytes: Vec<u8> = Vec::new();
    put_slice(&mut bytes, section);
    put_zeros(&mut bytes, 4 * N - section.len());
    assert(bytes@ =~= section@ + zeros((4 * N - section@.len()) as nat));
    let mut words: [u32; N] = [0u32; N];
    let mut i: usize = 0;
    while i < N
        invariant
            i <= N,
            4 * N <= 0x1000,
            bytes@.len() == 4 * N,
            forall|j: int|
                0 <= j < i ==> words@[j] == le_value(
                    #[trigger] bytes@.subrange(4 * j, 4 * j + 4),
                ),
        decreases N - i,
    {
        words[i] = get_u32(bytes.as_slice(), 4 * i);
        i = i + 1;
    }
    proof {
        lemma_words_of_bytes(words@, bytes@);
    }
    words
}

/// GSP FMC initialization parameters.
#[derive(Debug, Clone, Copy, PartialEq, Eq, Structural)]
pub struct GspFmcInitParams {
    /// Initialization "registry keys".
    pub regkeys: u32,
}

/// How to boot GSP-RM.
#[derive(Debug, Clone, Copy, PartialEq, Eq, Structural)]
pub struct GspAcrBootGspRmParams {
    /// Memory that holds the GSP-RM descriptor.
    pub target: u32,
    /// Size in bytes of the GSP-RM descriptor.
    pub gsp_rm_desc_size: u32,
    /// Offset of the GSP-RM descriptor in that memory.
    pub gsp_rm_desc_offset: u64,
    /// Start of the write-protected region that holds GSP-RM.
    pub wpr_carveout_offset: u64,
    /// Size in bytes of that region.
    pub wpr_carveout_size: u32,
    /// Whether to boot GSP-RM.
    pub b_is_gsp_rm_boot: u32,
}

/// Arguments for GSP-RM itself.
#[derive(Debug, Clone, Copy, PartialEq, Eq, Structural)]
pub struct GspRmParams {
    /// Memory that holds the arguments.
    pub target: u32,
    /// Offset of the arguments in that memory.
    pub boot_args_offset: u64,
}

/// SPDM (Security Protocol and Data Model) parameters.
#[derive(Debug, Clone, Copy, PartialEq, Eq, Structural)]
pub struct GspSpdmParams {
    /// Memory that holds the payload.
    pub target: u32,
    /// Offset of the payload in that memory.
    pub payload_buffer_offset: u64,
    /// Size in bytes of the payload.
    pub payload_buffer_size: u32,
}

/// Boot parameters that the FSP hands to the FMC.
#[derive(Debug, Clone, Copy, PartialEq, Eq, Structural)]
pub struct GspFmcBootParams {
    pub init_params: GspFmcInitParams,
    pub boot_gsp_rm_params: GspAcrBootGspRmParams,
    pub gsp_rm_params: GspRmParams,
    pub gsp_spdm_params: GspSpdmParams,
}

impl GspFmcBootParams {
    /// The parameters as they stand in memory: 64-bit fields are aligned to 8 bytes, and the gaps
    /// hold zeros.
    pub open spec fn spec_bytes(self) -> Seq<u8> {
        le_bytes(self.init_params.regkeys as nat, 4) + zeros(4)
            + le_bytes(self.boot_gsp_rm_params.target as nat, 4)
            + le_bytes(self.boot_gsp_rm_params.gsp_rm_desc_size as nat, 4)
            + le_bytes(self.boot_gsp_rm_params.gsp_rm_desc_offset as nat, 8)
            + le_bytes(self.boot_gsp_rm_params.wpr_carveout_offset as nat, 8)
            + le_bytes(self.boot_gsp_rm_params.wpr_carveout_size as nat, 4)
            + le_bytes(self.boot_gsp_rm_params.b_is_gsp_rm_boot as nat, 4)
            + le_bytes(self.gsp_rm_params.target as nat, 4) + zeros(4)
            + le_bytes(self.gsp_rm_params.boot_args_offset as nat, 8)
            + le_bytes(self.gsp_spdm_params.target as nat, 4) + zeros(4)
            + le_bytes(self.gsp_spdm_params.payload_buffer_offset as nat, 8)
            + le_bytes(self.gsp_spdm_params.payload_buffer_size as nat, 4) + zeros(4)
    }

    /// The parameters as they stand in memory.
    pub fn as_bytes(&self) -> (bytes: Vec<u8>)
        ensures
            bytes@ == self.spec_bytes(),
            bytes@.len() == 80,
    {
        let mut bytes: Vec<u8> = Vec::new();
        put_le(&mut bytes, self.init_params.regkeys as u64, 4);
        put_zeros(&mut bytes, 4);
        put_le(&mut bytes, self.boot_gsp_rm_params.target as u64, 4);
        put_le(&mut bytes, self.boot_gsp_rm_params.gsp_rm_desc_size as u64, 4);
        put_le(&mut bytes, self.boot_gsp_rm_params.gsp_rm_desc_offset, 8);
        put_le(&mut bytes, self.boot_gsp_rm_params.wpr_carveout_offset, 8);
        put_le(&mut bytes, self.boot_gsp_rm_params.wpr_carveout_size as u64, 4);
        put_le(&mut bytes, self.boot_gsp_rm_params.b_is_gsp_rm_boot as u64, 4);
        put_le(&mut bytes, self.gsp_rm_params.target as u64, 4);
        put_zeros(&mut bytes, 4);
        put_le(&mut bytes, self.gsp_rm_params.boot_args_offset, 8);
        put_le(&mut bytes, self.gsp_spdm_params.target as u64, 4);
        put_zeros(&mut bytes, 4);
        put_le(&mut bytes, self.gsp_spdm_params.payload_buffer_offset, 8);
        put_le(&mut bytes, self.gsp_spdm_params.payload_buffer_size as u64, 4);
        put_zeros(&mut bytes, 4);
        proof {
            assert(bytes@ =~= self.spec_bytes());
            lemma_le_bytes_len(self.init_params.regkeys as nat, 4);
            lemma_le_bytes_len(self.boot_gsp_rm_params.target as nat, 4);
            lemma_le_bytes_len(self.boot_gsp_rm_params.gsp_rm_desc_size as nat, 4);
            lemma_le_bytes_len(self.boot_gsp_rm_params.gsp_rm_desc_offset as nat, 8);
            lemma_le_bytes_len(self.boot_gsp_rm_params.wpr_carveout_offset as nat, 8);
            lemma_le_bytes_len(self.boot_gsp_rm_params.wpr_carveout_size as nat, 4);
            lemma_le_bytes_len(self.boot_gsp_rm_params.b_is_gsp_rm_boot as nat, 4);
            lemma_le_bytes_len(self.gsp_rm_params.target as nat, 4);
            lemma_le_bytes_len(self.gsp_rm_params.boot_args_offset as nat, 8);
            lemma_le_bytes_len(self.gsp_spdm_params.target as nat, 4);
            lemma_le_bytes_len(self.gsp_spdm_params.payload_buffer_offset as nat, 8);
            lemma_le_bytes_len(self.gsp_spdm_params.payload_buffer_size as nat, 4);
        }
        bytes
    }
}

/// Chain of Trust payload.
#[derive(Debug, Clone, Copy)]
pub struct NvdmPayloadCot {
    pub version: u16,
    pub size: u16,
    pub gsp_fmc_sysmem_offset: u64,
    pub frts_sysmem_offset: u64,
    pub frts_sysmem_size: u32,
    pub frts_vidmem_offset: u64,
    pub frts_vidmem_size: u32,
    pub hash384: [u32; 12],
    pub public_key: [u32; 96],
    pub signature: [u32; 96],
    pub gsp_boot_args_sysmem_offset: u64,
}

impl NvdmPayloadCot {
    /// The payload as it is sent: its fields in order, without gaps.
    pub open spec fn spec_bytes(self) -> Seq<u8> {
        le_bytes(self.version as nat, 2) + le_bytes(self.size as nat, 2)
            + le_bytes(self.gsp_fmc_sysmem_offset as nat, 8)
            + le_bytes(self.frts_sysmem_offset as nat, 8)
            + le_bytes(self.frts_sysmem_size as nat, 4)
            + le_bytes(self.frts_vidmem_offset as nat, 8)
            + le_bytes(self.frts_vidmem_size as nat, 4)
            + words_bytes(self.hash384@) + words_bytes(self.public_key@)
            + words_bytes(self.signature@)
            + le_bytes(self.gsp_boot_args_sysmem_offset as nat, 8)
    }
}

/// Where every field of a Chain of Trust payload stands, and the size of the whole.
pub proof fn law_cot_layout(cot: NvdmPayloadCot)
    ensures
        cot.spec_bytes().len() == COT_SIZE,
        cot.spec_bytes().subrange(0x0, 0x2) == le_bytes(cot.version as nat, 2),
        cot.spec_bytes().subrange(0x2, 0x4) == le_bytes(cot.size as nat, 2),
        cot.spec_bytes().subrange(0x4, 0xC) == le_bytes(cot.gsp_fmc_sysmem_offset as nat, 8),
        cot.spec_bytes().subrange(0xC, 0x14) == le_bytes(cot.frts_sysmem_offset as nat, 8),
        cot.spec_bytes().subrange(0x14, 0x18) == le_bytes(cot.frts_sysmem_size as nat, 4),
        cot.spec_bytes().subrange(0x18, 0x20) == le_bytes(cot.frts_vidmem_offset as nat, 8),
        cot.spec_bytes().subrange(0x20, 0x24) == le_bytes(cot.frts_vidmem_size as nat, 4),
        cot.spec_bytes().subrange(0x24, 0x54) == words_bytes(cot.hash384@),
        cot.spec_bytes().subrange(0x54, 0x1D4) == words_bytes(cot.public_key@),
        cot.spec_bytes().subrange(0x1D4, 0x354) == words_bytes(cot.signature@),
        cot.spec_bytes().subrange(0x354, 0x35C) == le_bytes(
            cot.gsp_boot_args_sysmem_offset as nat,
            8,
        ),
{
    lemma_le_bytes_len(cot.version as nat, 2);
    lemma_le_bytes_len(cot.size as nat, 2);
    lemma_le_bytes_len(cot.gsp_fmc_sysmem_offset as nat, 8);
    lemma_le_bytes_len(cot.frts_sysmem_offset as nat, 8);
    lemma_le_bytes_len(cot.frts_sysmem_size as nat, 4);
    lemma_le_bytes_len(cot.frts_vidmem_offset as nat, 8);
    lemma_le_bytes_len(cot.frts_vidmem_size as nat, 4);
    lemma_words_bytes_len(cot.hash384@);
    lemma_words_bytes_len(cot.public_key@);
    lemma_words_bytes_len(cot.signature@);
    lemma_le_bytes_len(cot.gsp_boot_args_sysmem_offset as nat, 8);
}

/// A message to the FSP: MCTP and NVDM headers, then the Chain of Trust payload.
#[derive(Debug, Clone, Copy)]
pub struct FspMessage {
    pub mctp_header: u32,
    pub nvdm_header: u32,
    pub cot: NvdmPayloadCot,
}

impl FspMessage {
    /// The message as it is sent.
    pub open spec fn spec_bytes(self) -> Seq<u8> {
        le_bytes(self.mctp_header as nat, 4) + le_bytes(self.nvdm_header as nat, 4)
            + self.cot.spec_bytes()
    }

    /// The message as it is sent.
    pub fn as_bytes(&self) -> (bytes: Vec<u8>)
        ensures
            bytes@ == self.spec_bytes(),
            bytes@.len() == 8 + COT_SIZE,
    {
        let mut bytes: Vec<u8> = Vec::new();
        put_le(&mut bytes, self.mctp_header as u64, 4);
        put_le(&mut bytes, self.nvdm_header as u64, 4);
        let cot: &NvdmPayloadCot = &self.cot;
        put_le(&mut bytes, cot.version as u64, 2);
        put_le(&mut bytes, cot.size as u64, 2);
        put_le(&mut bytes, cot.gsp_fmc_sysmem_offset, 8);
        put_le(&mut bytes, cot.frts_sysmem_offset, 8);
        put_le(&mut bytes, cot.frts_sysmem_size as u64, 4);
        put_le(&mut bytes, cot.frts_vidmem_offset, 8);
        put_le(&mut bytes, cot.frts_vidmem_size as u64, 4);
        put_words(&mut bytes, cot.hash384.as_slice());
        put_words(&mut bytes, cot.public_key.as_slice());
        put_words(&mut bytes, cot.signature.as_slice());
        put_le(&mut bytes, cot.gsp_boot_args_sysmem_offset, 8);
        proof {
            assert(bytes@ =~= self.spec_bytes());
            law_cot_layout(self.cot);
            lemma_le_bytes_len(self.mctp_header as nat, 4);
            lemma_le_bytes_len(self.nvdm_header as nat, 4);
        }
        bytes
    }
}

/// The Chain of Trust message for a boot.
pub open spec fn spec_cot_message(
    blackwell: bool,
    fmc_addr: u64,
    fmc_boot_params_addr: u64,
    rsvd_size: u64,
    resume: bool,
    signatures: FmcSignatures,
) -> FspMessage {
    FspMessage {
        // A single packet: start and end of message, endpoint 0, sequence number 0.
        mctp_header: 0xC000_0000,
        // Vendor-defined PCI message, of the vendor 0x10de, of type Chain of Trust.
        nvdm_header: 0x1410_DE7E,
        cot: NvdmPayloadCot {
            version: FSP_COT_VERSION,
            size: COT_SIZE as u16,
            gsp_fmc_sysmem_offset: fmc_addr,
            frts_sysmem_offset: 0,
            frts_sysmem_size: 0,
            frts_vidmem_offset: frts_distance(blackwell, rsvd_size, resume) as u64,
            frts_vidmem_size: if resume { 0 } else { 0x100000 },
            hash384: signatures.hash384,
            public_key: signatures.public_key,
            signature: signatures.signature,
            gsp_boot_args_sysmem_offset: fmc_boot_params_addr,
        },
    }
}

/// What was extracted from the sections of a firmware image is what the FSP receives: the message
/// holds the hash, and the public key and the signature with zeros behind them.
pub proof fn law_message_carries_sections(
    blackwell: bool,
    fmc_addr: u64,
    fmc_boot_params_addr: u64,
    rsvd_size: u64,
    resume: bool,
    signatures: FmcSignatures,
    sections: FmcSections,
)
    requires
        sections_usable(sections),
        extracted(sections, signatures),
    ensures
        ({
            let bytes = spec_cot_message(
                blackwell,
                fmc_addr,
                fmc_boot_params_addr,
                rsvd_size,
                resume,
                signatures,
            ).spec_bytes();
            let publickey = sections.publickey->0@;
            let signature = sections.signature->0@;
            &&& bytes.len() == 8 + COT_SIZE
            &&& bytes.subrange(0x2C, 0x5C) == sections.hash->0@
            &&& bytes.subrange(0x5C, 0x1DC) == publickey + zeros((384 - publickey.len()) as nat)
            &&& bytes.subrange(0x1DC, 0x35C) == signature + zeros((384 - signature.len()) as nat)
        }),
{
    let msg = spec_cot_message(
        blackwell,
        fmc_addr,
        fmc_boot_params_addr,
        rsvd_size,
        resume,
        signatures,
    );
    let bytes = msg.spec_bytes();
    let cot = msg.cot.spec_bytes();
    law_cot_layout(msg.cot);
    lemma_le_bytes_len(msg.mctp_header as nat, 4);
    lemma_le_bytes_len(msg.nvdm_header as nat, 4);
    assert(bytes.subrange(0x2C, 0x5C) =~= cot.subrange(0x24, 0x54));
    assert(bytes.subrange(0x5C, 0x1DC) =~= cot.subrange(0x54, 0x1D4));
    assert(bytes.subrange(0x1DC, 0x35C) =~= cot.subrange(0x1D4, 0x354));
}

/// An answer of the FSP.
#[derive(Debug, Clone, Copy, PartialEq, Eq, Structural)]
pub struct FspResponse {
    pub mctp_header: u32,
    pub nvdm_header: u32,
    pub task_id: u32,
    pub command_nvdm_type: u32,
    pub error_code: u32,
}

/// Number `i` of the 32-bit numbers that `data` starts with.
pub open spec fn word_at(data: Seq<u8>, i: int) -> nat {
    le_value(data.subrange(4 * i, 4 * i + 4))
}

impl FspResponse {
    /// Reads the answer that `data` starts with; `None` if `data` is too short.
    pub fn from_bytes(data: &[u8]) -> (r: Option<FspResponse>)
        ensures
            r is Some <==> data@.len() >= FSP_RESPONSE_SIZE,
            r matches Some(resp) ==> {
                &&& resp.mctp_header == word_at(data@, 0)
                &&& resp.nvdm_header == word_at(data@, 1)
                &&& resp.task_id == word_at(data@, 2)
                &&& resp.command_nvdm_type == word_at(data@, 3)
                &&& resp.error_code == word_at(data@, 4)
            },
    {
        if data.len() < FSP_RESPONSE_SIZE {
            return None;
        }
        Some(
            FspResponse {
                mctp_header: get_u32(data, 0),
                nvdm_header: get_u32(data, 4),
                task_id: get_u32(data, 8),
                command_nvdm_type: get_u32(data, 12),
                error_code: get_u32(data, 16),
            },
        )
    }
}

/// Whether an MCTP header is that of a message made of a single packet: its two upper bits, start
/// and end of message, are set.
pub open spec fn mctp_header_ok(header: int) -> bool {
    header / 0x4000_0000 == 3
}

/// Whether an NVDM header is that of an answer of the FSP: message type in bits 0 to 6, vendor in
/// bits 8 to 23, NVDM type in bits 24 to 31.
pub open spec fn nvdm_header_ok(header: int) -> bool {
    &&& header % 0x80 == MCTP_MSG_TYPE_VENDOR_PCI
    &&& (header / 0x100) % 0x1_0000 == MCTP_VENDOR_ID_NV
    &&& header / 0x100_0000 == NVDM_TYPE_FSP_RESPONSE
}

/// Whether `data` is an answer to a command of type `nvdm_type`, be it success or failure.
pub open spec fn answers_command(data: Seq<u8>, nvdm_type: u32) -> bool {
    &&& data.len() >= FSP_RESPONSE_SIZE
    &&& mctp_header_ok(word_at(data, 0) as int)
    &&& nvdm_header_ok(word_at(data, 1) as int)
    &&& word_at(data, 3) == nvdm_type
}

/// Whether `data` is an answer that reports the success of a command of type `nvdm_type`.
pub open spec fn response_ok(data: Seq<u8>, nvdm_type: u32) -> bool {
    answers_command(data, nvdm_type) && word_at(data, 4) == 0
}

/// How many bytes of an answer the message queue holds: its tail points at the last word written.
/// Nothing is reported while the pointers make no sense or leave no sensible size.
pub open spec fn available(head: u32, tail: u32, tail_fresh: u32) -> int {
    if head == tail || tail_fresh < head || tail_fresh - head + 4 > u32::MAX {
        0
    } else {
        tail_fresh - head + 4
    }
}

/// Where an exchange with the FSP stands.
#[derive(Debug, Clone, Copy)]
pub enum Phase {
    /// The queue may still hold an earlier message.
    Queue,
    /// The message can be written.
    Transmit,
    /// The answer has to be polled for; `time` more pauses are allowed.
    Poll { time: i64 },
    /// A pause is due before the next poll.
    Pause { time: i64 },
    /// An answer of the expected size is there.
    Receive,
    /// The exchange is over.
    Finished(Result<(), Error>),
}

/// What the driver has to do next in an exchange with the FSP.
#[derive(Debug)]
pub enum FspAction {
    /// Wait until the queue head equals the queue tail, for [`FSP_MSG_TIMEOUT_MS`] at most.
    AwaitQueueEmpty,
    /// Perform the write, then set the queue tail.
    Transmit { write: EmemWrite, queue_tail: u32 },
    /// Read the head and the tail of the message queue, and the tail again.
    PollMsgq,
    /// Sleep for one millisecond.
    Sleep,
    /// Perform the read, then set the message queue head.
    Receive { read: EmemRead, msgq_head: u32 },
    /// The exchange is over.
    Done(Result<(), Error>),
}

/// What happened when the driver did what it was told.
#[derive(Debug)]
pub enum FspEvent {
    /// The queue is empty.
    QueueEmpty,
    /// The queue did not become empty in time.
    QueueTimedOut,
    /// The message has been written.
    Transmitted,
    /// The message queue pointers. The second look at the tail counts only where the first one
    /// differs from the head.
    Polled { head: u32, tail: u32, tail_fresh: u32 },
    /// The pause is over.
    Slept,
    /// The words that were read.
    Received { words: Vec<u32> },
}

/// Whether `event` is an outcome of what `phase` asks for.
pub open spec fn answers(phase: Phase, event: FspEvent) -> bool {
    match phase {
        Phase::Queue => event is QueueEmpty || event is QueueTimedOut,
        Phase::Transmit => event is Transmitted,
        Phase::Poll { .. } => event is Polled,
        Phase::Pause { .. } => event is Slept,
        Phase::Receive => event matches FspEvent::Received { words } && words@.len()
            == chunk_count(FSP_RESPONSE_SIZE as int, 4),
        Phase::Finished(_) => false,
    }
}

/// The phase that follows `phase` after `event`, in an exchange of a command of type `nvdm_type`.
pub open spec fn next_phase(phase: Phase, nvdm_type: u32, event: FspEvent) -> Phase {
    match (phase, event) {
        (Phase::Queue, FspEvent::QueueEmpty) => Phase::Transmit,
        (Phase::Queue, FspEvent::QueueTimedOut) => Phase::Finished(Err(Error::ETIMEDOUT)),
        (Phase::Transmit, FspEvent::Transmitted) => Phase::Poll { time: FSP_MSG_TIMEOUT_MS },
        (Phase::Poll { time }, FspEvent::Polled { head, tail, tail_fresh }) => {
            let size = available(head, tail, tail_fresh);
            if size == FSP_RESPONSE_SIZE {
                Phase::Receive
            } else if size > 0 {
                Phase::Finished(Err(Error::EIO))
            } else if time <= 0 {
                Phase::Finished(Err(Error::ETIMEDOUT))
            } else {
                Phase::Pause { time }
            }
        },
        (Phase::Pause { time }, FspEvent::Slept) => Phase::Poll { time: (time - 1) as i64 },
        (Phase::Receive, FspEvent::Received { words }) => {
            let data = words_bytes(words@).subrange(0, FSP_RESPONSE_SIZE as int);
            Phase::Finished(
                if response_ok(data, nvdm_type) {
                    Ok(())
                } else {
                    Err(Error::EIO)
                },
            )
        },
        _ => phase,
    }
}

/// A bound on the number of events that an exchange can still take.
pub open spec fn events_left(phase: Phase) -> int {
    match phase {
        Phase::Queue => 2 * FSP_MSG_TIMEOUT_MS + 5,
        Phase::Transmit => 2 * FSP_MSG_TIMEOUT_MS + 4,
        Phase::Poll { time } => 2 * time + 3,
        Phase::Pause { time } => 2 * time + 2,
        Phase::Receive => 1,
        Phase::Finished(_) => 0,
    }
}

/// A command sent to the FSP, from the moment it is handed over until its answer is judged.
pub struct FspExchange {
    nvdm_type: u32,
    packet: Vec<u8>,
    phase: Phase,
}

impl FspExchange {
    /// Type of the command.
    pub closed spec fn spec_nvdm_type(self) -> u32 {
        self.nvdm_type
    }

    /// The message that carries the command.
    pub closed spec fn spec_packet(self) -> Seq<u8> {
        self.packet@
    }

    /// Where the exchange stands.
    pub closed spec fn spec_phase(self) -> Phase {
        self.phase
    }

    /// The time left never exceeds the timeout, and only a pause that is due counts down to zero.
    pub open spec fn wf(self) -> bool {
        match self.spec_phase() {
            Phase::Poll { time } => 0 <= time <= FSP_MSG_TIMEOUT_MS,
            Phase::Pause { time } => 0 < time <= FSP_MSG_TIMEOUT_MS,
            _ => true,
        }
    }

    /// Prepares to send `packet`, which carries a command of type `nvdm_type`. The size of the
    /// packet must be a multiple of 4.
    pub fn new(nvdm_type: u32, packet: Vec<u8>) -> (r: Result<FspExchange, Error>)
        ensures
            r is Ok <==> packet@.len() % 4 == 0,
            r matches Err(e) ==> e == Error::EINVAL,
            r matches Ok(x) ==> {
                &&& x.wf()
                &&& x.spec_nvdm_type() == nvdm_type
                &&& x.spec_packet() == packet@
                &&& x.spec_phase() == Phase::Queue
            },
    {
        if packet.len() % 4 != 0 {
            return Err(Error::EINVAL);
        }
        Ok(FspExchange { nvdm_type, packet, phase: Phase::Queue })
    }

    /// What has to be done next.
    pub fn action(&self) -> (action: FspAction)
        ensures
            match self.spec_phase() {
                Phase::Queue => action is AwaitQueueEmpty,
                Phase::Transmit => action matches FspAction::Transmit { write, queue_tail } && {
                    &&& write.ctl == 0x0100_0000
                    &&& write.words@ == emem_words(self.spec_packet())
                    &&& queue_tail == self.spec_packet().len() % 0x1_0000_0000
                },
                Phase::Poll { .. } => action is PollMsgq,
                Phase::Pause { .. } => action is Sleep,
                Phase::Receive => action matches FspAction::Receive { read, msgq_head } && {
                    &&& read.ctl == 0x0200_0000
                    &&& read.num_words == chunk_count(FSP_RESPONSE_SIZE as int, 4)
                    &&& msgq_head == FSP_RESPONSE_SIZE
                },
                Phase::Finished(result) => action == FspAction::Done(result),
            },
    {
        match self.phase {
            Phase::Queue => FspAction::AwaitQueueEmpty,
            Phase::Transmit => {
                assert(0x0100_0000u32 | 0u32 == 0x0100_0000u32) by (bit_vector);
                let len: u64 = self.packet.len() as u64;
                FspAction::Transmit {
                    write: write_emem(0, self.packet.as_slice()),
                    queue_tail: (len % 0x1_0000_0000) as u32,
                }
            },
            Phase::Poll { .. } => FspAction::PollMsgq,
            Phase::Pause { .. } => FspAction::Sleep,
            Phase::Receive => {
                assert(0x0200_0000u32 | 0u32 == 0x0200_0000u32) by (bit_vector);
                FspAction::Receive {
                    read: read_emem(0, FSP_RESPONSE_SIZE),
                    msgq_head: FSP_RESPONSE_SIZE as u32,
                }
            },
            Phase::Finished(result) => FspAction::Done(result),
        }
    }

    /// Takes the outcome of what had to be done.
    pub fn handle(&mut self, event: FspEvent)
        requires
            old(self).wf(),
            answers(old(self).spec_phase(), event),
        ensures
            final(self).wf(),
            final(self).spec_nvdm_type() == old(self).spec_nvdm_type(),
            final(self).spec_packet() == old(self).spec_packet(),
            final(self).spec_phase() == next_phase(
                old(self).spec_phase(),
                old(self).spec_nvdm_type(),
                event,
            ),
            0 <= events_left(final(self).spec_phase()) < events_left(old(self).spec_phase()),
    {
        let phase: Phase = match (self.phase, event) {
            (Phase::Queue, FspEvent::QueueEmpty) => Phase::Transmit,
            (Phase::Queue, FspEvent::QueueTimedOut) => Phase::Finished(Err(Error::ETIMEDOUT)),
            (Phase::Transmit, FspEvent::Transmitted) => Phase::Poll { time: FSP_MSG_TIMEOUT_MS },
            (Phase::Poll { time }, FspEvent::Polled { head, tail, tail_fresh }) => {
                let size: u32 = Fsp::poll_fsp(head, tail, tail_fresh);
                if size > 0 {
                    match Fsp::recv_fsp(size, FSP_RESPONSE_SIZE) {
                        Ok(_) => Phase::Receive,
                        Err(e) => Phase::Finished(Err(e)),
                    }
                } else if time <= 0 {
                    Phase::Finished(Err(Error::ETIMEDOUT))
                } else {
                    Phase::Pause { time }
                }
            },
            (Phase::Pause { time }, FspEvent::Slept) => Phase::Poll { time: time - 1 },
            (Phase::Receive, FspEvent::Received { words }) => {
                let data: Vec<u8> = emem_bytes(words.as_slice(), FSP_RESPONSE_SIZE);
                Phase::Finished(Fsp::check_response(data.as_slice(), self.nvdm_type))
            },
            (phase, _) => phase,
        };
        self.phase = phase;
    }
}

/// Whether a look at the message queue finds no answer.
pub open spec fn finds_nothing(event: FspEvent) -> bool {
    event matches FspEvent::Polled { head, tail, tail_fresh } && available(head, tail, tail_fresh)
        == 0
}

/// Where an exchange stands after the looks `polls` at the message queue, each followed by a pause.
pub open spec fn after_polls(phase: Phase, nvdm_type: u32, polls: Seq<FspEvent>) -> Phase
    decreases polls.len(),
{
    if polls.len() == 0 {
        phase
    } else {
        let before = after_polls(phase, nvdm_type, polls.drop_last());
        next_phase(next_phase(before, nvdm_type, polls.last()), nvdm_type, FspEvent::Slept)
    }
}

/// While the FSP stays silent, the driver keeps polling with a pause in between, and gives up with
/// a timeout on the poll after the pause number `FSP_MSG_TIMEOUT_MS`, no sooner and no later.
pub proof fn law_silence_times_out(nvdm_type: u32, polls: Seq<FspEvent>, last: FspEvent)
    requires
        polls.len() <= FSP_MSG_TIMEOUT_MS,
        forall|i: int| 0 <= i < polls.len() ==> finds_nothing(#[trigger] polls[i]),
        finds_nothing(last),
    ensures
        ({
            let start = Phase::Poll { time: FSP_MSG_TIMEOUT_MS };
            let then = next_phase(after_polls(start, nvdm_type, polls), nvdm_type, last);
            &&& polls.len() < FSP_MSG_TIMEOUT_MS ==> then is Pause
            &&& polls.len() == FSP_MSG_TIMEOUT_MS ==> then == Phase::Finished(
                Err(Error::ETIMEDOUT),
            )
        }),
{
    lemma_silent_polls(nvdm_type, polls);
}

proof fn lemma_silent_polls(nvdm_type: u32, polls: Seq<FspEvent>)
    requires
        polls.len() <= FSP_MSG_TIMEOUT_MS,
        forall|i: int| 0 <= i < polls.len() ==> finds_nothing(#[trigger] polls[i]),
    ensures
        after_polls(Phase::Poll { time: FSP_MSG_TIMEOUT_MS }, nvdm_type, polls) == (Phase::Poll {
            time: (FSP_MSG_TIMEOUT_MS - polls.len()) as i64,
        }),
    decreases polls.len(),
{
    if polls.len() > 0 {
        lemma_silent_polls(nvdm_type, polls.drop_last());
        assert(finds_nothing(polls[polls.len() - 1]));
    }
}

/// An exchange that is not over succeeds only by receiving an answer that reports the success of
/// the very command that was sent.
pub proof fn law_success_needs_answer(phase: Phase, nvdm_type: u32, event: FspEvent)
    requires
        !(phase is Finished),
        next_phase(phase, nvdm_type, event) == Phase::Finished(Ok(())),
    ensures
        phase is Receive,
        event matches FspEvent::Received { words } && response_ok(
            words_bytes(words@).subrange(0, FSP_RESPONSE_SIZE as int),
            nvdm_type,
        ),
{
}

/// Where an exchange stands after `events`.
pub open spec fn after_events(phase: Phase, nvdm_type: u32, events: Seq<FspEvent>) -> Phase
    decreases events.len(),
{
    if events.len() == 0 {
        phase
    } else {
        next_phase(
            after_events(phase, nvdm_type, events.drop_last()),
            nvdm_type,
            events.last(),
        )
    }
}

/// Whether an exchange has gone past the transmission of its message, and has not failed.
pub open spec fn past_transmission(phase: Phase) -> bool {
    phase is Poll || phase is Pause || phase is Receive || phase == Phase::Finished(Ok(()))
}

/// Whatever happens, an exchange that goes past the transmission of its message, let alone one that
/// succeeds, was told that the queue was empty first, and that the message was written later.
pub proof fn law_success_needs_transmission(nvdm_type: u32, events: Seq<FspEvent>)
    requires
        past_transmission(after_events(Phase::Queue, nvdm_type, events)),
    ensures
        exists|i: int, j: int|
            0 <= i < j < events.len() && #[trigger] events[i] is QueueEmpty
                && #[trigger] events[j] is Transmitted,
    decreases events.len(),
{
    let init = events.drop_last();
    let before = after_events(Phase::Queue, nvdm_type, init);
    if before is Transmit {
        lemma_transmit_needs_empty_queue(nvdm_type, init);
        let i = choose|i: int| 0 <= i < init.len() && #[trigger] init[i] is QueueEmpty;
        assert(events[i] is QueueEmpty && events[events.len() - 1] is Transmitted);
    } else {
        law_success_needs_transmission(nvdm_type, init);
        let (i, j) = choose|i: int, j: int|
            0 <= i < j < init.len() && #[trigger] init[i] is QueueEmpty
                && #[trigger] init[j] is Transmitted;
        assert(events[i] is QueueEmpty && events[j] is Transmitted);
    }
}

proof fn lemma_transmit_needs_empty_queue(nvdm_type: u32, events: Seq<FspEvent>)
    requires
        after_events(Phase::Queue, nvdm_type, events) is Transmit,
    ensures
        exists|i: int| 0 <= i < events.len() && #[trigger] events[i] is QueueEmpty,
    decreases events.len(),
{
    let init = events.drop_last();
    if after_events(Phase::Queue, nvdm_type, init) is Transmit {
        lemma_transmit_needs_empty_queue(nvdm_type, init);
        let i = choose|i: int| 0 <= i < init.len() && #[trigger] init[i] is QueueEmpty;
        assert(events[i] is QueueEmpty);
    } else {
        assert(events[events.len() - 1] is QueueEmpty);
    }
}

/// Where the wait for secure boot stands.
#[derive(Debug, Clone, Copy)]
pub enum BootWait {
    /// The boot status has to be read once, to see that this GPU reports it.
    Probe,
    /// The boot status has to be read until it reports success, for
    /// [`FSP_SECURE_BOOT_TIMEOUT_MS`] at most.
    Poll,
    /// The wait is over.
    Finished(Result<(), Error>),
}

/// What came of an attempt to read the boot status.
#[derive(Debug, Clone, Copy)]
pub enum BootEvent {
    /// The boot status.
    Status(u32),
    /// The boot status could not be read.
    Unreadable(Error),
    /// The time for secure boot is up.
    TimedOut,
}

/// Where the wait for secure boot stands after `event`.
pub open spec fn next_boot_wait(wait: BootWait, event: BootEvent) -> BootWait {
    match (wait, event) {
        (BootWait::Probe, BootEvent::Status(_)) => BootWait::Poll,
        (BootWait::Probe, BootEvent::Unreadable(e)) => BootWait::Finished(Err(e)),
        (BootWait::Poll, BootEvent::Status(status)) => if status
            == FSP_BOOT_COMPLETE_STATUS_SUCCESS {
            BootWait::Finished(Ok(()))
        } else {
            BootWait::Poll
        },
        (BootWait::Poll, BootEvent::TimedOut) => BootWait::Finished(Err(Error::ETIMEDOUT)),
        _ => wait,
    }
}

/// The wait for secure boot succeeds only on a boot status that reports success, and only after the
/// first look.
pub proof fn law_boot_success_needs_status(wait: BootWait, event: BootEvent)
    requires
        !(wait is Finished),
        next_boot_wait(wait, event) == BootWait::Finished(Ok(())),
    ensures
        wait is Poll,
        event == BootEvent::Status(FSP_BOOT_COMPLETE_STATUS_SUCCESS),
{
}

/// Interface to the FSP.
pub struct Fsp;

impl Fsp {
    /// Extracts the signatures of the FMC firmware `fmc_fw_data`, of which `sections` are the
    /// signature sections.
    ///
    /// Anything that is missing, too large or blank is refused with [`Error::EINVAL`].
    pub fn extract_fmc_signatures_static(
        fmc_fw_data: &[u8],
        sections: FmcSections,
    ) -> (r: Result<FmcSignatures, Error>)
        ensures
            r is Ok <==> is_elf32(fmc_fw_data@) && sections_usable(sections),
            r matches Err(e) ==> e == Error::EINVAL,
            r matches Ok(s) ==> extracted(sections, s),
    {
        if fmc_fw_data.len() < 16 {
            return Err(Error::EINVAL);
        }
        if fmc_fw_data[0] != 0x7f || fmc_fw_data[1] != 0x45 || fmc_fw_data[2] != 0x4c
            || fmc_fw_data[3] != 0x46 {
            return Err(Error::EINVAL);
        }
        if fmc_fw_data[4] != 1 {
            return Err(Error::EINVAL);
        }
        let (hash, publickey, signature) = match (
            sections.hash,
            sections.publickey,
            sections.signature,
        ) {
            (Some(hash), Some(publickey), Some(signature)) => (hash, publickey, signature),
            _ => {
                return Err(Error::EINVAL);
            },
        };
        if hash.len() != FSP_HASH_SIZE || publickey.len() > FSP_PKEY_SIZE || signature.len()
            > FSP_SIG_SIZE {
            return Err(Error::EINVAL);
        }
        if !any_nonzero(hash) || !any_nonzero(publickey) || !any_nonzero(signature) {
            return Err(Error::EINVAL);
        }
        let hash384: [u32; 12] = section_words::<12>(hash);
        let public_key: [u32; 96] = section_words::<96>(publickey);
        let signature: [u32; 96] = section_words::<96>(signature);
        assert(words_bytes(hash384@) =~= hash@);
        Ok(FmcSignatures { hash384, public_key, signature })
    }

    /// The boot parameters for a GSP-RM whose descriptor stands at `wpr_meta_addr` and whose
    /// arguments stand at `libos_addr`. The write-protected region is left for the FSP to choose.
    pub fn create_fmc_boot_params(
        wpr_meta_addr: u64,
        wpr_meta_size: u32,
        libos_addr: u64,
    ) -> (params: GspFmcBootParams)
        ensures
            params.init_params.regkeys == 0,
            params.boot_gsp_rm_params == (GspAcrBootGspRmParams {
                target: GSP_DMA_TARGET_COHERENT_SYSTEM,
                gsp_rm_desc_size: wpr_meta_size,
                gsp_rm_desc_offset: wpr_meta_addr,
                wpr_carveout_offset: 0,
                wpr_carveout_size: 0,
                b_is_gsp_rm_boot: 1,
            }),
            params.gsp_rm_params == (GspRmParams {
                target: GSP_DMA_TARGET_NONCOHERENT_SYSTEM,
                boot_args_offset: libos_addr,
            }),
            params.gsp_spdm_params == (GspSpdmParams {
                target: 0,
                payload_buffer_offset: 0,
                payload_buffer_size: 0,
            }),
    {
        GspFmcBootParams {
            init_params: GspFmcInitParams { regkeys: 0 },
            boot_gsp_rm_params: GspAcrBootGspRmParams {
                target: GSP_DMA_TARGET_COHERENT_SYSTEM,
                gsp_rm_desc_size: wpr_meta_size,
                gsp_rm_desc_offset: wpr_meta_addr,
                wpr_carveout_offset: 0,
                wpr_carveout_size: 0,
                b_is_gsp_rm_boot: 1,
            },
            gsp_rm_params: GspRmParams {
                target: GSP_DMA_TARGET_NONCOHERENT_SYSTEM,
                boot_args_offset: libos_addr,
            },
            gsp_spdm_params: GspSpdmParams {
                target: 0,
                payload_buffer_offset: 0,
                payload_buffer_size: 0,
            },
        }
    }

    /// Distance of the FRTS region from the end of video memory: the reserved memory, rounded up
    /// to a multiple of 2 MiB. On resume the region is already in place, and the distance is 0.
    ///
    /// Blackwell reserves fixed amounts for its heap and its PMU; the other architectures reserve
    /// `rsvd_size`. Rounding wraps around to 0 at the upper end of the 64-bit range.
    pub fn frts_offset(blackwell: bool, rsvd_size: u64, resume: bool) -> (offset: u64)
        ensures
            offset == frts_distance(blackwell, rsvd_size, resume),
    {
        if resume {
            return 0;
        }
        let reserved: u64 = if blackwell {
            let pmu: u64 = 0x0800000 + 0x1000000 + 0x0001000;
            let pmu_aligned: u64 = (pmu + 0x20000 - 1) / 0x20000 * 0x20000;
            0x220000 + pmu_aligned
        } else {
            rsvd_size
        };
        reserved.wrapping_add(0x200000 - 1) / 0x200000 * 0x200000
    }

    /// The Chain of Trust message that has the FSP boot the FMC image at `fmc_addr` with the boot
    /// parameters at `fmc_boot_params_addr`.
    pub fn cot_message(
        blackwell: bool,
        fmc_addr: u64,
        fmc_boot_params_addr: u64,
        rsvd_size: u64,
        resume: bool,
        signatures: &FmcSignatures,
    ) -> (msg: FspMessage)
        ensures
            msg == spec_cot_message(
                blackwell,
                fmc_addr,
                fmc_boot_params_addr,
                rsvd_size,
                resume,
                *signatures,
            ),
    {
        let frts_vidmem_size: u32 = if resume {
            0
        } else {
            0x100000
        };
        let mctp_header: u32 = (1u32 << 31) | (1u32 << 30) | (0u32 << 16) | (0u32 << 28);
        let nvdm_header: u32 = MCTP_MSG_TYPE_VENDOR_PCI | (MCTP_VENDOR_ID_NV << 8) | (NVDM_TYPE_COT
            << 24);
        assert((1u32 << 31) | (1u32 << 30) | (0u32 << 16) | (0u32 << 28) == 0xC000_0000u32)
            by (bit_vector);
        assert(0x7eu32 | (0x10deu32 << 8) | (0x14u32 << 24) == 0x1410_DE7Eu32) by (bit_vector);
        FspMessage {
            mctp_header,
            nvdm_header,
            cot: NvdmPayloadCot {
                version: FSP_COT_VERSION,
                size: COT_SIZE as u16,
                gsp_fmc_sysmem_offset: fmc_addr,
                frts_sysmem_offset: 0,
                frts_sysmem_size: 0,
                frts_vidmem_offset: Fsp::frts_offset(blackwell, rsvd_size, resume),
                frts_vidmem_size,
                hash384: signatures.hash384,
                public_key: signatures.public_key,
                signature: signatures.signature,
                gsp_boot_args_sysmem_offset: fmc_boot_params_addr,
            },
        }
    }

    /// How many bytes of an answer can be read, from the head and the tail of the message queue
    /// and from a second look at the tail.
    pub fn poll_fsp(head: u32, tail: u32, tail_fresh: u32) -> (size: u32)
        ensures
            size == available(head, tail, tail_fresh),
    {
        if head == tail {
            return 0;
        }
        if tail_fresh < head {
            return 0;
        }
        match (tail_fresh - head).checked_add(4) {
            Some(size) => size,
            None => 0,
        }
    }

    /// Prepares to receive a packet of `packet_size` bytes, of which `expected_size` are expected.
    pub fn recv_fsp(packet_size: u32, expected_size: usize) -> (r: Result<EmemRead, Error>)
        ensures
            r is Ok <==> packet_size == expected_size,
            r matches Err(e) ==> e == Error::EIO,
            r matches Ok(read) ==> {
                &&& read.ctl == 0x0200_0000
                &&& read.num_words == chunk_count(expected_size as int, 4)
            },
    {
        if packet_size as usize != expected_size {
            return Err(Error::EIO);
        }
        assert(0x0200_0000u32 | 0u32 == 0x0200_0000u32) by (bit_vector);
        Ok(read_emem(0, expected_size))
    }

    /// The error code in the answer `data` to a command of type `nvdm_type`, or nothing if `data` is no
    /// such answer.
    pub fn response_code(data: &[u8], nvdm_type: u32) -> (r: Option<u32>)
        ensures
            r is Some <==> answers_command(data@, nvdm_type),
            r matches Some(code) ==> code == word_at(data@, 4),
    {
        let response: FspResponse = match FspResponse::from_bytes(data) {
            Some(response) => response,
            None => {
                return None;
            },
        };
        let mctp: u32 = response.mctp_header;
        let som: u32 = (mctp >> 31) & 1;
        let eom: u32 = (mctp >> 30) & 1;
        assert((mctp >> 31) & 1 == 1 && (mctp >> 30) & 1 == 1 <==> mctp / 0x4000_0000 == 3)
            by (bit_vector);
        if som != 1 || eom != 1 {
            return None;
        }
        let nvdm: u32 = response.nvdm_header;
        let msg_type: u32 = nvdm & 0x7f;
        let vendor_id: u32 = (nvdm >> 8) & 0xffff;
        let type_resp: u32 = (nvdm >> 24) & 0xff;
        assert(nvdm & 0x7f == nvdm % 0x80 && (nvdm >> 8) & 0xffff == (nvdm / 0x100) % 0x1_0000 && (
        nvdm >> 24) & 0xff == nvdm / 0x100_0000) by (bit_vector);
        if msg_type != MCTP_MSG_TYPE_VENDOR_PCI || vendor_id != MCTP_VENDOR_ID_NV || type_resp
            != NVDM_TYPE_FSP_RESPONSE {
            return None;
        }
        if response.command_nvdm_type != nvdm_type {
            return None;
        }
        Some(response.error_code)
    }

    /// Judges the answer `data` to a command of type `nvdm_type`.
    pub fn check_response(data: &[u8], nvdm_type: u32) -> (r: Result<(), Error>)
        ensures
            r == if response_ok(data@, nvdm_type) {
                Ok::<(), Error>(())
            } else {
                Err(Error::EIO)
            },
            r is Ok <==> answers_command(data@, nvdm_type) && data@[16] == 0 && data@[17] == 0
                && data@[18] == 0 && data@[19] == 0,
    {
        proof {
            law_answer_belongs_to_command(data@, nvdm_type);
            law_answer_succeeds_only_without_error(data@, nvdm_type);
        }
        match Fsp::response_code(data, nvdm_type) {
            Some(0) => Ok(()),
            _ => Err(Error::EIO),
        }
    }

    /// The name of an FSP error code, for log messages.
    pub fn error_name(error_code: u32) -> (name: &'static str)
        ensures
            name@ == if error_code == FSP_ERROR_INVALID_COT_PAYLOAD {
                "INVALID_COT_PAYLOAD"@
            } else if error_code == FSP_ERROR_UCODE_UNRECOGNIZED_DESCRIPTOR_P1 {
                "UCODE_UNRECOGNIZED_DESCRIPTOR_P1"@
            } else {
                "Unknown FSP error"@
            },
    {
        if error_code == FSP_ERROR_INVALID_COT_PAYLOAD {
            "INVALID_COT_PAYLOAD"
        } else if error_code == FSP_ERROR_UCODE_UNRECOGNIZED_DESCRIPTOR_P1 {
            "UCODE_UNRECOGNIZED_DESCRIPTOR_P1"
        } else {
            "Unknown FSP error"
        }
    }

    /// Starts the exchange that has the FSP boot the FMC image at `fmc_addr`.
    pub fn boot_gsp_fmc_with_signatures(
        blackwell: bool,
        fmc_addr: u64,
        fmc_boot_params_addr: u64,
        rsvd_size: u64,
        resume: bool,
        signatures: &FmcSignatures,
    ) -> (r: Result<FspExchange, Error>)
        ensures
            r matches Ok(exchange) && {
                &&& exchange.wf()
                &&& exchange.spec_nvdm_type() == NVDM_TYPE_COT
                &&& exchange.spec_phase() == Phase::Queue
                &&& exchange.spec_packet() == spec_cot_message(
                    blackwell,
                    fmc_addr,
                    fmc_boot_params_addr,
                    rsvd_size,
                    resume,
                    *signatures,
                ).spec_bytes()
            },
    {
        let msg: FspMessage = Fsp::cot_message(
            blackwell,
            fmc_addr,
            fmc_boot_params_addr,
            rsvd_size,
            resume,
            signatures,
        );
        FspExchange::new(NVDM_TYPE_COT, msg.as_bytes())
    }

    /// Takes what came of reading the boot status while waiting for secure boot.
    ///
    /// A GPU whose status cannot be read at all is given up at once. After that first look only
    /// success or the timeout ends the wait.
    pub fn wait_secure_boot(wait: BootWait, event: BootEvent) -> (next: BootWait)
        ensures
            next == next_boot_wait(wait, event),
    {
        match (wait, event) {
            (BootWait::Probe, BootEvent::Status(_)) => BootWait::Poll,
            (BootWait::Probe, BootEvent::Unreadable(e)) => BootWait::Finished(Err(e)),
            (BootWait::Poll, BootEvent::Status(status)) => {
                if status == FSP_BOOT_COMPLETE_STATUS_SUCCESS {
                    BootWait::Finished(Ok(()))
                } else {
                    BootWait::Poll
                }
            },
            (BootWait::Poll, BootEvent::TimedOut) => BootWait::Finished(Err(Error::ETIMEDOUT)),
            (wait, _) => wait,
        }
    }
}

/// Number `i` that `data` starts with, from its four bytes.
pub proof fn law_word_of_bytes(data: Seq<u8>, i: int)
    requires
        0 <= i,
        4 * i + 4 <= data.len(),
    ensures
        word_at(data, i) == data[4 * i] + 0x100 * data[4 * i + 1] + 0x1_0000 * data[4 * i + 2]
            + 0x100_0000 * data[4 * i + 3],
{
    law_u32_value(data.subrange(4 * i, 4 * i + 4));
}

/// An answer belongs to a command of type `nvdm_type` exactly if its bytes say so: it is long enough,
/// its first word has the two upper bits set, its second word is that of an FSP answer (whatever bit
/// 7 is), and its fourth word is the type.
pub proof fn law_answer_belongs_to_command(data: Seq<u8>, nvdm_type: u32)
    ensures
        answers_command(data, nvdm_type) <==> {
            &&& data.len() >= 20
            &&& data[3] >= 0xC0
            &&& data[4] == 0x7E || data[4] == 0xFE
            &&& data[5] == 0xDE
            &&& data[6] == 0x10
            &&& data[7] == 0x15
            &&& data[12] + 0x100 * data[13] + 0x1_0000 * data[14] + 0x100_0000 * data[15]
                == nvdm_type
        },
{
    if data.len() >= 20 {
        law_word_of_bytes(data, 0);
        law_word_of_bytes(data, 1);
        law_word_of_bytes(data, 3);
    }
}

/// An answer is accepted exactly if it belongs to the command and each of the four bytes of its error
/// code is zero: every error code but zero is a failure, whether it has a name or not.
pub proof fn law_answer_succeeds_only_without_error(data: Seq<u8>, nvdm_type: u32)
    ensures
        response_ok(data, nvdm_type) <==> {
            &&& data.len() >= 20
            &&& data[3] >= 0xC0
            &&& data[4] == 0x7E || data[4] == 0xFE
            &&& data[5] == 0xDE
            &&& data[6] == 0x10
            &&& data[7] == 0x15
            &&& data[12] + 0x100 * data[13] + 0x1_0000 * data[14] + 0x100_0000 * data[15]
                == nvdm_type
            &&& data[16] == 0 && data[17] == 0 && data[18] == 0 && data[19] == 0
        },
{
    law_answer_belongs_to_command(data, nvdm_type);
    if data.len() >= 20 {
        law_word_of_bytes(data, 4);
    }
}

/// The end of an exchange, by the five words that were received: success exactly if the answer is for
/// the command that was sent and its last word is zero.
pub proof fn law_exchange_ends_by_answer(nvdm_type: u32, words: Vec<u32>)
    requires
        words@.len() == 5,
    ensures
        ({
            let good = {
                &&& words@[0] >= 0xC000_0000
                &&& words@[1] == 0x1510_DE7E || words@[1] == 0x1510_DEFE
                &&& words@[3] == nvdm_type
                &&& words@[4] == 0
            };
            next_phase(Phase::Receive, nvdm_type, FspEvent::Received { words }) == Phase::Finished(
                if good {
                    Ok::<(), Error>(())
                } else {
                    Err(Error::EIO)
                },
            )
        }),
{
    let data = words_bytes(words@).subrange(0, 20);
    lemma_words_bytes_len(words@);
    assert forall|i: int| 0 <= i < 5 implies word_at(data, i) == words@[i] by {
        lemma_words_bytes_index(words@, i);
        lemma_pow256();
        lemma_value_of_bytes(words@[i] as nat, 4);
        assert(data.subrange(4 * i, 4 * i + 4) =~= words_bytes(words@).subrange(
            4 * i,
            4 * i + 4,
        ));
    }
    assert(word_at(data, 0) == words@[0]);
    assert(word_at(data, 1) == words@[1]);
    assert(word_at(data, 3) == words@[3]);
    assert(word_at(data, 4) == words@[4]);
}

/// What the message queue offers: nothing while head and tail are equal, and otherwise the bytes from
/// the head up to the word that the second look at the tail points at, as long as that makes sense.
pub proof fn law_available_bytes(head: u32, tail: u32, tail_fresh: u32)
    ensures
        0 <= available(head, tail, tail_fresh) <= u32::MAX,
        head == tail ==> available(head, tail, tail_fresh) == 0,
        tail_fresh < head ==> available(head, tail, tail_fresh) == 0,
        head != tail && head <= tail_fresh && tail_fresh - head <= u32::MAX - 4 ==> head
            + available(head, tail, tail_fresh) == tail_fresh + 4,
        tail_fresh - head > u32::MAX - 4 ==> available(head, tail, tail_fresh) == 0,
{
}

/// The steps of an exchange before its answer: it waits for an empty queue, transmits, then polls
/// with 2000 pauses left, and an answer of any size but 20 bytes is an error.
pub proof fn law_exchange_steps(nvdm_type: u32, time: i64, head: u32, tail: u32, tail_fresh: u32)
    ensures
        next_phase(Phase::Queue, nvdm_type, FspEvent::QueueEmpty) == Phase::Transmit,
        next_phase(Phase::Queue, nvdm_type, FspEvent::QueueTimedOut) == Phase::Finished(
            Err(Error::ETIMEDOUT),
        ),
        next_phase(Phase::Transmit, nvdm_type, FspEvent::Transmitted) == (Phase::Poll {
            time: 2000,
        }),
        time > i64::MIN ==> next_phase(Phase::Pause { time }, nvdm_type, FspEvent::Slept) == (
        Phase::Poll { time: (time - 1) as i64 }),
        ({
            let poll = FspEvent::Polled { head, tail, tail_fresh };
            let then = next_phase(Phase::Poll { time }, nvdm_type, poll);
            let something = head != tail && head <= tail_fresh && tail_fresh - head <= u32::MAX - 4;
            &&& something && tail_fresh - head == 16 ==> then == Phase::Receive
            &&& something && tail_fresh - head != 16 ==> then == Phase::Finished(Err(Error::EIO))
            &&& !something && time > 0 ==> then == (Phase::Pause { time })
            &&& !something && time <= 0 ==> then == Phase::Finished(Err(Error::ETIMEDOUT))
        }),
{
}

/// An exchange takes every outcome of what it asks for.
pub proof fn law_exchange_takes_outcomes(
    time: i64,
    head: u32,
    tail: u32,
    tail_fresh: u32,
    words: Vec<u32>,
)
    ensures
        answers(Phase::Queue, FspEvent::QueueEmpty),
        answers(Phase::Queue, FspEvent::QueueTimedOut),
        answers(Phase::Transmit, FspEvent::Transmitted),
        answers(Phase::Poll { time }, FspEvent::Polled { head, tail, tail_fresh }),
        answers(Phase::Pause { time }, FspEvent::Slept),
        words@.len() == 5 ==> answers(Phase::Receive, FspEvent::Received { words }),
{
}

/// An FSP that answers in time is heard: after any number of silent looks up to 2000, an answer of 20
/// bytes is received, whatever stands in it.
pub proof fn law_late_answer_is_received(
    nvdm_type: u32,
    polls: Seq<FspEvent>,
    head: u32,
    tail: u32,
)
    requires
        polls.len() <= 2000,
        forall|i: int| 0 <= i < polls.len() ==> finds_nothing(#[trigger] polls[i]),
        head != tail,
        head <= u32::MAX - 16,
    ensures
        next_phase(
            after_polls(
                next_phase(Phase::Transmit, nvdm_type, FspEvent::Transmitted),
                nvdm_type,
                polls,
            ),
            nvdm_type,
            FspEvent::Polled { head, tail, tail_fresh: (head + 16) as u32 },
        ) == Phase::Receive,
{
    lemma_silent_polls(nvdm_type, polls);
}

/// An FSP that stays silent is given up on the look after the 2000th pause, and not before.
pub proof fn law_silent_fsp_is_given_up(nvdm_type: u32, polls: Seq<FspEvent>, last: FspEvent)
    requires
        polls.len() <= 2000,
        forall|i: int| 0 <= i < polls.len() ==> finds_nothing(#[trigger] polls[i]),
        finds_nothing(last),
    ensures
        ({
            let then = next_phase(
                after_polls(
                    next_phase(Phase::Transmit, nvdm_type, FspEvent::Transmitted),
                    nvdm_type,
                    polls,
                ),
                nvdm_type,
                last,
            );
            if polls.len() < 2000 {
                then is Pause
            } else {
                then == Phase::Finished(Err(Error::ETIMEDOUT))
            }
        }),
{
    lemma_silent_polls(nvdm_type, polls);
}

/// Signatures can be taken from three sections of acceptable sizes as soon as each of them has one
/// byte that is not zero, whatever its other bytes are.
pub proof fn law_sections_with_content_are_usable(
    hash: &[u8],
    publickey: &[u8],
    signature: &[u8],
    i: int,
    j: int,
    k: int,
)
    requires
        hash@.len() == 48,
        publickey@.len() <= 97,
        signature@.len() <= 96,
        0 <= i < hash@.len() && hash@[i] != 0,
        0 <= j < publickey@.len() && publickey@[j] != 0,
        0 <= k < signature@.len() && signature@[k] != 0,
    ensures
        sections_usable(
            FmcSections {
                hash: Some(hash),
                publickey: Some(publickey),
                signature: Some(signature),
            },
        ),
{
}

/// Signatures cannot be taken if a section is missing, has a size that is not acceptable, or is all
/// zeros.
pub proof fn law_bad_sections_are_not_usable(sections: FmcSections)
    requires
        ({
            ||| sections.hash is None
            ||| sections.publickey is None
            ||| sections.signature is None
            ||| sections.hash->0@.len() != 48
            ||| sections.publickey->0@.len() > 97
            ||| sections.signature->0@.len() > 96
            ||| forall|i: int|
                0 <= i < sections.hash->0@.len() ==> #[trigger] sections.hash->0@[i] == 0
            ||| forall|i: int|
                0 <= i < sections.publickey->0@.len() ==> #[trigger] sections.publickey->0@[i] == 0
            ||| forall|i: int|
                0 <= i < sections.signature->0@.len() ==> #[trigger] sections.signature->0@[i] == 0
        }),
    ensures
        !sections_usable(sections),
{
}

/// An image passes for a 32-bit ELF image by its size and its first five bytes alone.
pub proof fn law_elf32_images(fw: Seq<u8>)
    ensures
        is_elf32(fw) <==> fw.len() >= 16 && fw.subrange(0, 5) == seq![
            0x7fu8,
            'E' as u8,
            'L' as u8,
            'F' as u8,
            1u8,
        ],
{
    let start = seq![0x7fu8, 'E' as u8, 'L' as u8, 'F' as u8, 1u8];
    if fw.len() >= 16 {
        let head = fw.subrange(0, 5);
        assert(head[0] == fw[0] && head[1] == fw[1] && head[2] == fw[2] && head[3] == fw[3]
            && head[4] == fw[4]);
        if is_elf32(fw) {
            assert(head =~= start);
        }
        if head == start {
            assert(start[0] == 0x7f && start[1] == 0x45 && start[2] == 0x4c && start[3] == 0x46
                && start[4] == 1);
        }
    }
}

/// The words of extracted signatures, byte by byte: byte `b` is byte `b` of the section, and zero
/// behind its end.
pub proof fn law_extracted_bytes(sections: FmcSections, s: FmcSignatures, b: int)
    requires
        sections_usable(sections),
        extracted(sections, s),
        0 <= b < 384,
    ensures
        b < 48 ==> (s.hash384@[b / 4] >> ((8 * (b % 4)) as u32)) as u8 == sections.hash->0@[b],
        (s.public_key@[b / 4] >> ((8 * (b % 4)) as u32)) as u8 == if b
            < sections.publickey->0@.len() {
            sections.publickey->0@[b]
        } else {
            0
        },
        (s.signature@[b / 4] >> ((8 * (b % 4)) as u32)) as u8 == if b
            < sections.signature->0@.len() {
            sections.signature->0@[b]
        } else {
            0
        },
{
    if b < 48 {
        law_byte_of_words(s.hash384@, b);
    }
    law_byte_of_words(s.public_key@, b);
    law_byte_of_words(s.signature@, b);
}

/// The distance of the FRTS region: nothing on resume; else the least multiple of 2 MiB that is no
/// less than what is reserved, which on Blackwell are fixed 0x220000 bytes for the heap and
/// 0x1820000 bytes for the PMU. Where that multiple has no 64-bit address, the distance is zero.
pub proof fn law_frts_distance(blackwell: bool, rsvd_size: u64, resume: bool)
    ensures
        ({
            let d = frts_distance(blackwell, rsvd_size, resume);
            let reserved = if blackwell {
                0x220000 + 0x1820000int
            } else {
                rsvd_size as int
            };
            &&& resume ==> d == 0
            &&& d % 0x200000 == 0
            &&& 0 <= d <= u64::MAX
            &&& !resume && reserved <= 0xFFFF_FFFF_FFE0_0000 ==> reserved <= d < reserved + 0x200000
            &&& !resume && reserved > 0xFFFF_FFFF_FFE0_0000 ==> d == 0
        }),
{
}

/// Where the fields of the boot parameters stand in memory. The gaps between them hold zeros.
pub proof fn law_boot_params_layout(p: GspFmcBootParams)
    ensures
        p.spec_bytes().len() == 80,
        p.spec_bytes().subrange(0, 4) == le_bytes(p.init_params.regkeys as nat, 4),
        p.spec_bytes().subrange(4, 8) == zeros(4),
        p.spec_bytes().subrange(8, 12) == le_bytes(p.boot_gsp_rm_params.target as nat, 4),
        p.spec_bytes().subrange(12, 16) == le_bytes(
            p.boot_gsp_rm_params.gsp_rm_desc_size as nat,
            4,
        ),
        p.spec_bytes().subrange(16, 24) == le_bytes(
            p.boot_gsp_rm_params.gsp_rm_desc_offset as nat,
            8,
        ),
        p.spec_bytes().subrange(24, 32) == le_bytes(
            p.boot_gsp_rm_params.wpr_carveout_offset as nat,
            8,
        ),
        p.spec_bytes().subrange(32, 36) == le_bytes(
            p.boot_gsp_rm_params.wpr_carveout_size as nat,
            4,
        ),
        p.spec_bytes().subrange(36, 40) == le_bytes(
            p.boot_gsp_rm_params.b_is_gsp_rm_boot as nat,
            4,
        ),
        p.spec_bytes().subrange(40, 44) == le_bytes(p.gsp_rm_params.target as nat, 4),
        p.spec_bytes().subrange(44, 48) == zeros(4),
        p.spec_bytes().subrange(48, 56) == le_bytes(p.gsp_rm_params.boot_args_offset as nat, 8),
        p.spec_bytes().subrange(56, 60) == le_bytes(p.gsp_spdm_params.target as nat, 4),
        p.spec_bytes().subrange(60, 64) == zeros(4),
        p.spec_bytes().subrange(64, 72) == le_bytes(
            p.gsp_spdm_params.payload_buffer_offset as nat,
            8,
        ),
        p.spec_bytes().subrange(72, 76) == le_bytes(
            p.gsp_spdm_params.payload_buffer_size as nat,
            4,
        ),
        p.spec_bytes().subrange(76, 80) == zeros(4),
{
    lemma_le_bytes_len(p.init_params.regkeys as nat, 4);
    lemma_le_bytes_len(p.boot_gsp_rm_params.target as nat, 4);
    lemma_le_bytes_len(p.boot_gsp_rm_params.gsp_rm_desc_size as nat, 4);
    lemma_le_bytes_len(p.boot_gsp_rm_params.gsp_rm_desc_offset as nat, 8);
    lemma_le_bytes_len(p.boot_gsp_rm_params.wpr_carveout_offset as nat, 8);
    lemma_le_bytes_len(p.boot_gsp_rm_params.wpr_carveout_size as nat, 4);
    lemma_le_bytes_len(p.boot_gsp_rm_params.b_is_gsp_rm_boot as nat, 4);
    lemma_le_bytes_len(p.gsp_rm_params.target as nat, 4);
    lemma_le_bytes_len(p.gsp_rm_params.boot_args_offset as nat, 8);
    lemma_le_bytes_len(p.gsp_spdm_params.target as nat, 4);
    lemma_le_bytes_len(p.gsp_spdm_params.payload_buffer_offset as nat, 8);
    lemma_le_bytes_len(p.gsp_spdm_params.payload_buffer_size as nat, 4);
}

/// What a Chain of Trust message says: version 2, its own size, where the image and the boot
/// parameters are, no FRTS region in system memory, and one of 1 MiB in video memory unless the GPU
/// resumes. Its headers announce a single packet of the vendor 0x10de with a Chain of Trust.
pub proof fn law_cot_message_says(
    blackwell: bool,
    fmc_addr: u64,
    fmc_boot_params_addr: u64,
    rsvd_size: u64,
    resume: bool,
    signatures: FmcSignatures,
)
    ensures
        ({
            let msg = spec_cot_message(
                blackwell,
                fmc_addr,
                fmc_boot_params_addr,
                rsvd_size,
                resume,
                signatures,
            );
            let start = msg.spec_bytes().subrange(0, 8);
            &&& start == seq![0u8, 0u8, 0u8, 0xC0u8, 0x7Eu8, 0xDEu8, 0x10u8, 0x14u8]
            &&& msg.spec_bytes().subrange(8, 868) == msg.cot.spec_bytes()
            &&& msg.cot.version == 2
            &&& msg.cot.size == msg.cot.spec_bytes().len()
            &&& msg.cot.gsp_fmc_sysmem_offset == fmc_addr
            &&& msg.cot.frts_sysmem_offset == 0
            &&& msg.cot.frts_sysmem_size == 0
            &&& msg.cot.frts_vidmem_offset == frts_distance(blackwell, rsvd_size, resume)
            &&& msg.cot.frts_vidmem_size == if resume {
                0u32
            } else {
                0x10_0000u32
            }
            &&& msg.cot.hash384 == signatures.hash384
            &&& msg.cot.public_key == signatures.public_key
            &&& msg.cot.signature == signatures.signature
            &&& msg.cot.gsp_boot_args_sysmem_offset == fmc_boot_params_addr
        }),
{
    let msg = spec_cot_message(
        blackwell,
        fmc_addr,
        fmc_boot_params_addr,
        rsvd_size,
        resume,
        signatures,
    );
    law_cot_layout(msg.cot);
    law_u32_bytes(msg.mctp_header);
    law_u32_bytes(msg.nvdm_header);
    law_frts_distance(blackwell, rsvd_size, resume);
    assert(msg.spec_bytes().subrange(0, 8) =~= seq![
        0u8,
        0u8,
        0u8,
        0xC0u8,
        0x7Eu8,
        0xDEu8,
        0x10u8,
        0x14u8,
    ]);
    assert(msg.spec_bytes().subrange(8, 868) =~= msg.cot.spec_bytes());
}

/// Where the wait for secure boot stands after `events`.
pub open spec fn after_boot_events(wait: BootWait, events: Seq<BootEvent>) -> BootWait
    decreases events.len(),
{
    if events.len() == 0 {
        wait
    } else {
        next_boot_wait(after_boot_events(wait, events.drop_last()), events.last())
    }
}

/// Whether `event` leaves a wait for secure boot undecided: a status other than 0xff, or one that could
/// not be read.
pub open spec fn leaves_boot_open(event: BootEvent) -> bool {
    match event {
        BootEvent::Status(status) => status != 0xff,
        BootEvent::Unreadable(_) => true,
        BootEvent::TimedOut => false,
    }
}

/// The first look only shows whether the status can be read: whatever it reads, the wait goes on, and
/// if it cannot read, the wait ends with that very error.
pub proof fn law_first_look_decides_nothing(status: u32, e: Error)
    ensures
        next_boot_wait(BootWait::Probe, BootEvent::Status(status)) == BootWait::Poll,
        next_boot_wait(BootWait::Probe, BootEvent::Unreadable(e)) == BootWait::Finished(Err(e)),
{
}

/// After the first look, whatever it read, the wait goes on as long as nothing decides it. The status
/// 0xff then ends it with success, and the timeout with an error.
pub proof fn law_boot_wait_goes_on_until_decided(first: u32, events: Seq<BootEvent>)
    requires
        forall|i: int| 0 <= i < events.len() ==> leaves_boot_open(#[trigger] events[i]),
    ensures
        ({
            let looked = next_boot_wait(BootWait::Probe, BootEvent::Status(first));
            let wait = after_boot_events(looked, events);
            &&& wait == BootWait::Poll
            &&& next_boot_wait(wait, BootEvent::Status(0xff)) == BootWait::Finished(Ok(()))
            &&& next_boot_wait(wait, BootEvent::TimedOut) == BootWait::Finished(
                Err(Error::ETIMEDOUT),
            )
        }),
    decreases events.len(),
{
    if events.len() > 0 {
        let init = events.drop_last();
        assert forall|i: int| 0 <= i < init.len() implies leaves_boot_open(#[trigger] init[i]) by {
            assert(init[i] == events[i]);
        }
        law_boot_wait_goes_on_until_decided(first, init);
        assert(leaves_boot_open(events[events.len() - 1]));
    }
}

/// A wait that is over stays over, with the same result.
pub proof fn law_finished_boot_wait_stays(r: Result<(), Error>, events: Seq<BootEvent>)
    ensures
        after_boot_events(BootWait::Finished(r), events) == BootWait::Finished(r),
    decreases events.len(),
{
    if events.len() > 0 {
        law_finished_boot_wait_stays(r, events.drop_last());
    }
}

/// How long the FSP may take, in milliseconds, and the codes that it uses.
pub proof fn law_fsp_constants()
    ensures
        FSP_MSG_TIMEOUT_MS == 2000,
        FSP_SECURE_BOOT_TIMEOUT_MS == 4000,
        NVDM_TYPE_COT == 0x14,
        FSP_ERROR_INVALID_COT_PAYLOAD == 0xD7,
        FSP_ERROR_UCODE_UNRECOGNIZED_DESCRIPTOR_P1 == 0x177,
        GSP_DMA_TARGET_COHERENT_SYSTEM == 1,
        GSP_DMA_TARGET_NONCOHERENT_SYSTEM == 2,
        FSP_RESPONSE_SIZE == 20,
{
}

} // verus!
