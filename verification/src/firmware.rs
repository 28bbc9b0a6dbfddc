//! Firmware images.

use vstd::prelude::*;
use vstd::slice::slice_subrange;
use vstd::string::{StringExecFns, StringSliceAdditionalSpecFns};
use vstd::utf8::{
    is_leading_byte_width_1, partial_valid_utf8, partial_valid_utf8_extend_ascii_block, valid_utf8,
};

use core::marker::PhantomData;

use crate::error::Error;
use crate::falcon::FalconDmaLoadTarget;
use crate::wire::{get_u32, le_value};

use self::blocks::{
    after_block, all_ascii, blocks as blocks_of, find_value, has_magic, is_ascii_bytes,
    is_boundary, law_boundary_starts_block, law_first_block_wins, law_missing_tag,
    law_payload_is_read_back, payload_bytes, payload_of, same_bytes, split_block, starts_header,
    stored_size, strip_magic, validate, well_formed, Block, HEADER_SIZE,
};

use self::tlv::tlv_path;

pub mod blocks;
pub mod riscv;
pub mod tlv;

verus! {

/// The error of [`core::str::from_utf8`].
#[verifier::external_type_specification]
#[verifier::external_body]
pub struct ExUtf8Error(core::str::Utf8Error);

/// [`core::str::from_utf8`] accepts exactly the byte slices that are valid UTF-8, and the text that
/// it returns has those very bytes.
pub assume_specification[ core::str::from_utf8 ](v: &[u8]) -> (r: Result<
    &str,
    core::str::Utf8Error,
>)
    ensures
        r is Ok <==> valid_utf8(v@),
        r matches Ok(s) ==> s.spec_bytes() == v@,
;

/// ASCII bytes are valid UTF-8.
proof fn lemma_ascii_is_utf8(s: Seq<u8>)
    requires
        is_ascii_bytes(s),
    ensures
        valid_utf8(s),
{
    assert(s.subrange(0, 0) =~= Seq::<u8>::empty());
    assert(partial_valid_utf8(s, 0));
    assert forall|i: int| 0 <= i < s.len() implies #[trigger] is_leading_byte_width_1(s[i]) by {}
    partial_valid_utf8_extend_ascii_block(s, 0, s.len() as int);
    assert(s.subrange(0, s.len() as int) =~= s);
}

/// The text that `bytes` stand for; they must be ASCII.
fn text_of_ascii(bytes: &[u8]) -> (r: Result<&str, Error>)
    ensures
        if is_ascii_bytes(bytes@) {
            r matches Ok(s) && s.spec_bytes() == bytes@
        } else {
            r == Err::<&str, Error>(Error::EINVAL)
        },
{
    if !all_ascii(bytes) {
        return Err(Error::EINVAL);
    }
    proof {
        lemma_ascii_is_utf8(bytes@);
    }
    match core::str::from_utf8(bytes) {
        Ok(s) => Ok(s),
        Err(_) => Err(Error::EINVAL),
    }
}

/// A descriptor of falcon microcode, in its second version.
#[derive(Debug, Clone, Copy, PartialEq, Eq, Structural)]
pub struct FalconUCodeDescV2 {
    /// Version and size of the descriptor.
    pub hdr: u32,
    /// Size of the microcode after the descriptor, as it is stored.
    pub stored_size: u32,
    /// Size of the microcode once it is uncompressed.
    pub uncompressed_size: u32,
    /// Code entry point.
    pub virtual_entry: u32,
    /// Offset after the code segment at which the application interface table stands.
    pub interface_offset: u32,
    /// Address that the code segment is loaded at.
    pub imem_phys_base: u32,
    /// Size of the code, secure and non-secure.
    pub imem_load_size: u32,
    /// Virtual address of the code.
    pub imem_virt_base: u32,
    /// Virtual address of the secure code.
    pub imem_sec_base: u32,
    /// Size of the secure code.
    pub imem_sec_size: u32,
    /// Offset of the data in the image.
    pub dmem_offset: u32,
    /// Address that the data segment is loaded at.
    pub dmem_phys_base: u32,
    /// Size of the data.
    pub dmem_load_size: u32,
    /// Alternate size of the code.
    pub alt_imem_load_size: u32,
    /// Alternate size of the data.
    pub alt_dmem_load_size: u32,
}

/// A descriptor of falcon microcode, in its third version.
#[derive(Debug, Clone, Copy, PartialEq, Eq, Structural)]
pub struct FalconUCodeDescV3 {
    /// Version and size of the descriptor.
    pub hdr: u32,
    /// Size of the microcode after the descriptor.
    pub stored_size: u32,
    /// Offset in data memory at which the signature is expected.
    pub pkc_data_offset: u32,
    /// Offset after the code segment at which the application headers stand.
    pub interface_offset: u32,
    /// Address that the code segment is loaded at.
    pub imem_phys_base: u32,
    /// Size of the code.
    pub imem_load_size: u32,
    /// Virtual address of the code.
    pub imem_virt_base: u32,
    /// Address that the data segment is loaded at.
    pub dmem_phys_base: u32,
    /// Size of the data.
    pub dmem_load_size: u32,
    /// Mask of the falcon engines that the microcode can run on.
    pub engine_id_mask: u16,
    /// Identifier of the microcode, which tells the fuse register for its signature.
    pub ucode_id: u8,
    /// Number of signatures.
    pub signature_count: u8,
    /// Versions of the signatures.
    pub signature_versions: u16,
}

/// A descriptor of falcon microcode, of either version.
#[derive(Debug, Clone, Copy, PartialEq, Eq, Structural)]
pub enum FalconUCodeDesc {
    V2(FalconUCodeDescV2),
    V3(FalconUCodeDescV3),
}

/// What a descriptor says, whatever its version.
pub struct UCodeView {
    pub hdr: u32,
    pub imem_load_size: u32,
    pub interface_offset: u32,
    pub dmem_load_size: u32,
    pub pkc_data_offset: u32,
    pub engine_id_mask: u16,
    pub ucode_id: u8,
    pub signature_count: u8,
    pub signature_versions: u16,
    pub imem_sec: FalconDmaLoadTarget,
    pub imem_ns: Option<FalconDmaLoadTarget>,
    pub dmem: FalconDmaLoadTarget,
}

/// `a - b`, or 0 where that is negative.
pub open spec fn minus_floor(a: u32, b: u32) -> u32 {
    if a < b {
        0
    } else {
        (a - b) as u32
    }
}

/// `a + b`, or the largest 32-bit number where that is larger.
pub open spec fn plus_ceiling(a: u32, b: u32) -> u32 {
    if a + b > u32::MAX {
        u32::MAX
    } else {
        (a + b) as u32
    }
}

/// Access to what a descriptor says, whatever its version. What a version does not have is zero.
pub trait FalconUCodeDescriptor {
    /// What the descriptor says.
    spec fn desc(&self) -> UCodeView;

    /// Version and size of the descriptor.
    fn hdr(&self) -> (r: u32)
        ensures
            r == self.desc().hdr,
    ;

    /// Size of the code.
    fn imem_load_size(&self) -> (r: u32)
        ensures
            r == self.desc().imem_load_size,
    ;

    /// Offset of the application interface after the code segment.
    fn interface_offset(&self) -> (r: u32)
        ensures
            r == self.desc().interface_offset,
    ;

    /// Size of the data.
    fn dmem_load_size(&self) -> (r: u32)
        ensures
            r == self.desc().dmem_load_size,
    ;

    /// Offset in data memory at which the signature is expected.
    fn pkc_data_offset(&self) -> (r: u32)
        ensures
            r == self.desc().pkc_data_offset,
    ;

    /// Mask of the falcon engines that the microcode can run on.
    fn engine_id_mask(&self) -> (r: u16)
        ensures
            r == self.desc().engine_id_mask,
    ;

    /// Identifier of the microcode.
    fn ucode_id(&self) -> (r: u8)
        ensures
            r == self.desc().ucode_id,
    ;

    /// Number of signatures.
    fn signature_count(&self) -> (r: u8)
        ensures
            r == self.desc().signature_count,
    ;

    /// Versions of the signatures.
    fn signature_versions(&self) -> (r: u16)
        ensures
            r == self.desc().signature_versions,
    ;

    /// Size in bytes of the descriptor: the upper half of its first word.
    fn size(&self) -> (r: usize)
        ensures
            r == self.desc().hdr / 0x1_0000,
    {
        let hdr: u32 = self.hdr();
        assert((hdr & 0xffff0000u32) >> 16 == hdr / 0x1_0000) by (bit_vector);
        ((hdr & 0xffff0000u32) >> 16) as usize
    }

    /// The secure code.
    fn imem_sec_load_params(&self) -> (r: FalconDmaLoadTarget)
        ensures
            r == self.desc().imem_sec,
    ;

    /// The non-secure code.
    fn imem_ns_load_params(&self) -> (r: Option<FalconDmaLoadTarget>)
        ensures
            r == self.desc().imem_ns,
    ;

    /// The data.
    fn dmem_load_params(&self) -> (r: FalconDmaLoadTarget)
        ensures
            r == self.desc().dmem,
    ;
}

impl FalconUCodeDescriptor for FalconUCodeDescV2 {
    open spec fn desc(&self) -> UCodeView {
        // The secure code stands at a virtual address; its place in the image is relative to the
        // virtual address of all the code.
        let sec_start = minus_floor(self.imem_sec_base, self.imem_virt_base);
        UCodeView {
            hdr: self.hdr,
            imem_load_size: self.imem_load_size,
            interface_offset: self.interface_offset,
            dmem_load_size: self.dmem_load_size,
            pkc_data_offset: 0,
            engine_id_mask: 0,
            ucode_id: 0,
            signature_count: 0,
            signature_versions: 0,
            imem_sec: FalconDmaLoadTarget {
                src_start: sec_start,
                dst_start: plus_ceiling(self.imem_phys_base, sec_start),
                len: self.imem_sec_size,
            },
            imem_ns: Some(
                FalconDmaLoadTarget {
                    src_start: 0,
                    dst_start: self.imem_phys_base,
                    len: minus_floor(self.imem_load_size, self.imem_sec_size),
                },
            ),
            dmem: FalconDmaLoadTarget {
                src_start: self.dmem_offset,
                dst_start: self.dmem_phys_base,
                len: self.dmem_load_size,
            },
        }
    }

    fn hdr(&self) -> (r: u32) {
        self.hdr
    }

    fn imem_load_size(&self) -> (r: u32) {
        self.imem_load_size
    }

    fn interface_offset(&self) -> (r: u32) {
        self.interface_offset
    }

    fn dmem_load_size(&self) -> (r: u32) {
        self.dmem_load_size
    }

    fn pkc_data_offset(&self) -> (r: u32) {
        0
    }

    fn engine_id_mask(&self) -> (r: u16) {
        0
    }

    fn ucode_id(&self) -> (r: u8) {
        0
    }

    fn signature_count(&self) -> (r: u8) {
        0
    }

    fn signature_versions(&self) -> (r: u16) {
        0
    }

    fn imem_sec_load_params(&self) -> (r: FalconDmaLoadTarget) {
        let imem_sec_start: u32 = self.imem_sec_base.saturating_sub(self.imem_virt_base);
        FalconDmaLoadTarget {
            src_start: imem_sec_start,
            dst_start: self.imem_phys_base.saturating_add(imem_sec_start),
            len: self.imem_sec_size,
        }
    }

    fn imem_ns_load_params(&self) -> (r: Option<FalconDmaLoadTarget>) {
        Some(
            FalconDmaLoadTarget {
                src_start: 0,
                dst_start: self.imem_phys_base,
                len: self.imem_load_size.saturating_sub(self.imem_sec_size),
            },
        )
    }

    fn dmem_load_params(&self) -> (r: FalconDmaLoadTarget) {
        FalconDmaLoadTarget {
            src_start: self.dmem_offset,
            dst_start: self.dmem_phys_base,
            len: self.dmem_load_size,
        }
    }
}

impl FalconUCodeDescriptor for FalconUCodeDescV3 {
    open spec fn desc(&self) -> UCodeView {
        UCodeView {
            hdr: self.hdr,
            imem_load_size: self.imem_load_size,
            interface_offset: self.interface_offset,
            dmem_load_size: self.dmem_load_size,
            pkc_data_offset: self.pkc_data_offset,
            engine_id_mask: self.engine_id_mask,
            ucode_id: self.ucode_id,
            signature_count: self.signature_count,
            signature_versions: self.signature_versions,
            imem_sec: FalconDmaLoadTarget {
                src_start: 0,
                dst_start: self.imem_phys_base,
                len: self.imem_load_size,
            },
            imem_ns: None,
            dmem: FalconDmaLoadTarget {
                src_start: self.imem_load_size,
                dst_start: self.dmem_phys_base,
                len: self.dmem_load_size,
            },
        }
    }

    fn hdr(&self) -> (r: u32) {
        self.hdr
    }

    fn imem_load_size(&self) -> (r: u32) {
        self.imem_load_size
    }

    fn interface_offset(&self) -> (r: u32) {
        self.interface_offset
    }

    fn dmem_load_size(&self) -> (r: u32) {
        self.dmem_load_size
    }

    fn pkc_data_offset(&self) -> (r: u32) {
        self.pkc_data_offset
    }

    fn engine_id_mask(&self) -> (r: u16) {
        self.engine_id_mask
    }

    fn ucode_id(&self) -> (r: u8) {
        self.ucode_id
    }

    fn signature_count(&self) -> (r: u8) {
        self.signature_count
    }

    fn signature_versions(&self) -> (r: u16) {
        self.signature_versions
    }

    fn imem_sec_load_params(&self) -> (r: FalconDmaLoadTarget) {
        FalconDmaLoadTarget {
            src_start: 0,
            dst_start: self.imem_phys_base,
            len: self.imem_load_size,
        }
    }

    fn imem_ns_load_params(&self) -> (r: Option<FalconDmaLoadTarget>) {
        None
    }

    fn dmem_load_params(&self) -> (r: FalconDmaLoadTarget) {
        FalconDmaLoadTarget {
            src_start: self.imem_load_size,
            dst_start: self.dmem_phys_base,
            len: self.dmem_load_size,
        }
    }
}

impl FalconUCodeDescriptor for FalconUCodeDesc {
    open spec fn desc(&self) -> UCodeView {
        match self {
            FalconUCodeDesc::V2(v2) => v2.desc(),
            FalconUCodeDesc::V3(v3) => v3.desc(),
        }
    }

    fn hdr(&self) -> (r: u32) {
        match self {
            FalconUCodeDesc::V2(v2) => v2.hdr(),
            FalconUCodeDesc::V3(v3) => v3.hdr(),
        }
    }

    fn imem_load_size(&self) -> (r: u32) {
        match self {
            FalconUCodeDesc::V2(v2) => v2.imem_load_size(),
            FalconUCodeDesc::V3(v3) => v3.imem_load_size(),
        }
    }

    fn interface_offset(&self) -> (r: u32) {
        match self {
            FalconUCodeDesc::V2(v2) => v2.interface_offset(),
            FalconUCodeDesc::V3(v3) => v3.interface_offset(),
        }
    }

    fn dmem_load_size(&self) -> (r: u32) {
        match self {
            FalconUCodeDesc::V2(v2) => v2.dmem_load_size(),
            FalconUCodeDesc::V3(v3) => v3.dmem_load_size(),
        }
    }

    fn pkc_data_offset(&self) -> (r: u32) {
        match self {
            FalconUCodeDesc::V2(v2) => v2.pkc_data_offset(),
            FalconUCodeDesc::V3(v3) => v3.pkc_data_offset(),
        }
    }

    fn engine_id_mask(&self) -> (r: u16) {
        match self {
            FalconUCodeDesc::V2(v2) => v2.engine_id_mask(),
            FalconUCodeDesc::V3(v3) => v3.engine_id_mask(),
        }
    }

    fn ucode_id(&self) -> (r: u8) {
        match self {
            FalconUCodeDesc::V2(v2) => v2.ucode_id(),
            FalconUCodeDesc::V3(v3) => v3.ucode_id(),
        }
    }

    fn signature_count(&self) -> (r: u8) {
        match self {
            FalconUCodeDesc::V2(v2) => v2.signature_count(),
            FalconUCodeDesc::V3(v3) => v3.signature_count(),
        }
    }

    fn signature_versions(&self) -> (r: u16) {
        match self {
            FalconUCodeDesc::V2(v2) => v2.signature_versions(),
            FalconUCodeDesc::V3(v3) => v3.signature_versions(),
        }
    }

    fn imem_sec_load_params(&self) -> (r: FalconDmaLoadTarget) {
        match self {
            FalconUCodeDesc::V2(v2) => v2.imem_sec_load_params(),
            FalconUCodeDesc::V3(v3) => v3.imem_sec_load_params(),
        }
    }

    fn imem_ns_load_params(&self) -> (r: Option<FalconDmaLoadTarget>) {
        match self {
            FalconUCodeDesc::V2(v2) => v2.imem_ns_load_params(),
            FalconUCodeDesc::V3(v3) => v3.imem_ns_load_params(),
        }
    }

    fn dmem_load_params(&self) -> (r: FalconDmaLoadTarget) {
        match self {
            FalconUCodeDesc::V2(v2) => v2.dmem_load_params(),
            FalconUCodeDesc::V3(v3) => v3.dmem_load_params(),
        }
    }
}

/// In the second version, the non-secure and the secure code together are all the code, as long as
/// the secure code is no larger than that.
pub proof fn law_v2_code_segments(d: FalconUCodeDescV2)
    requires
        d.imem_sec_size <= d.imem_load_size,
    ensures
        ({
            let v = d.desc();
            &&& v.imem_ns is Some
            &&& v.imem_ns->0.len + v.imem_sec.len == v.imem_load_size
        }),
{
}

/// In the second version, the non-secure and the secure code are moved by the same distance, as long
/// as the secure code does not start before all the code and its address does not overflow.
pub proof fn law_v2_code_moves_together(d: FalconUCodeDescV2)
    requires
        d.imem_virt_base <= d.imem_sec_base,
        d.imem_phys_base + (d.imem_sec_base - d.imem_virt_base) <= u32::MAX,
    ensures
        ({
            let v = d.desc();
            &&& v.imem_ns is Some
            &&& v.imem_sec.dst_start - v.imem_sec.src_start == v.imem_ns->0.dst_start
                - v.imem_ns->0.src_start
        }),
{
}

/// In the third version, the data starts in the image where the code ends.
pub proof fn law_v3_data_follows_code(d: FalconUCodeDescV3)
    ensures
        ({
            let v = d.desc();
            v.dmem.src_start == v.imem_sec.src_start + v.imem_sec.len
        }),
{
}

/// Whether a firmware is signed.
pub trait SignedState {

}

/// The firmware must be signed before it can be used.
pub struct Unsigned;

impl SignedState for Unsigned {

}

/// The firmware is signed and ready to be loaded.
pub struct Signed;

impl SignedState for Signed {

}

/// Microcode to be loaded into the falcon `F`.
///
/// It is [`Unsigned`] at first. [`Self::patch_signature`] and [`Self::no_patch_signature`] make it
/// [`Signed`].
pub struct FirmwareObject<F, S: SignedState> {
    data: Vec<u8>,
    state: PhantomData<(F, S)>,
}

/// A signature for microcode of the falcon `F`. It can be patched into no other microcode.
pub struct FirmwareSignature<F> {
    bytes: Vec<u8>,
    engine: PhantomData<F>,
}

impl<F> FirmwareSignature<F> {
    /// The bytes of the signature.
    pub closed spec fn view(&self) -> Seq<u8> {
        self.bytes@
    }

    /// A signature made of `bytes`.
    pub fn new(bytes: Vec<u8>) -> (signature: FirmwareSignature<F>)
        ensures
            signature@ == bytes@,
    {
        FirmwareSignature { bytes, engine: PhantomData }
    }

    /// The bytes of the signature.
    pub fn bytes(&self) -> (bytes: &[u8])
        ensures
            bytes@ == self@,
    {
        self.bytes.as_slice()
    }
}

/// `data` with `patch` in place of the bytes from `at` on.
pub open spec fn patched(data: Seq<u8>, at: int, patch: Seq<u8>) -> Seq<u8> {
    data.subrange(0, at) + patch + data.subrange(at + patch.len(), data.len() as int)
}

impl<F, S: SignedState> FirmwareObject<F, S> {
    /// The bytes of the microcode.
    pub closed spec fn view(&self) -> Seq<u8> {
        self.data@
    }

    /// The bytes of the microcode.
    pub fn data(&self) -> (bytes: &[u8])
        ensures
            bytes@ == self@,
    {
        self.data.as_slice()
    }
}

impl<F> FirmwareObject<F, Unsigned> {
    /// Microcode that is still to be signed.
    pub fn new(data: Vec<u8>) -> (fw: FirmwareObject<F, Unsigned>)
        ensures
            fw@ == data@,
    {
        FirmwareObject { data, state: PhantomData }
    }

    /// Replaces the bytes from `signature_start` on with `signature`.
    pub fn patch_signature(
        self,
        signature: &FirmwareSignature<F>,
        signature_start: usize,
    ) -> (r: Result<FirmwareObject<F, Signed>, Error>)
        ensures
            match r {
                Ok(fw) => {
                    &&& signature_start + signature@.len() <= self@.len()
                    &&& fw@ == patched(self@, signature_start as int, signature@)
                },
                Err(e) => {
                    &&& signature_start + signature@.len() > self@.len()
                    &&& e == if signature_start + signature@.len() > usize::MAX {
                        Error::EOVERFLOW
                    } else {
                        Error::EINVAL
                    }
                },
            },
    {
        let signature: &[u8] = signature.bytes();
        let mut data: Vec<u8> = self.data;
        let len: usize = data.len();
        let signature_end: usize = match signature_start.checked_add(signature.len()) {
            Some(end) => end,
            None => {
                return Err(Error::EOVERFLOW);
            },
        };
        if signature_end > len {
            return Err(Error::EINVAL);
        }
        let mut i: usize = 0;
        assert(data@ =~= patched(self@, signature_start as int, signature@.subrange(0, 0)));
        while i < signature.len()
            invariant
                i <= signature@.len(),
                signature_end == signature_start + signature@.len(),
                signature_end <= self@.len(),
                data@ == patched(self@, signature_start as int, signature@.subrange(0, i as int)),
            decreases signature@.len() - i,
        {
            data[signature_start + i] = signature[i];
            i = i + 1;
            assert(data@ =~= patched(
                self@,
                signature_start as int,
                signature@.subrange(0, i as int),
            ));
        }
        assert(signature@.subrange(0, i as int) =~= signature@);
        Ok(FirmwareObject { data, state: PhantomData })
    }

    /// Declares the firmware signed without patching it, as development hardware allows.
    pub fn no_patch_signature(self) -> (fw: FirmwareObject<F, Signed>)
        ensures
            fw@ == self@,
    {
        FirmwareObject { data: self.data, state: PhantomData }
    }
}

/// The kind of a GPU, as far as its firmware files go.
#[derive(Debug, Clone, Copy)]
pub struct Chipset<'a> {
    /// The name of the chipset, as its firmware directory is called.
    pub name: &'a str,
    /// Whether FWSEC needs a bootloader of its own.
    pub needs_fwsec_bootloader: bool,
}

/// The firmware files of a chipset.
pub open spec fn firmware_files(needs_fwsec_bootloader: bool) -> Seq<Seq<char>> {
    let common = seq![
        "booter_load.tlv"@,
        "booter_unload.tlv"@,
        "gsp_bootloader.tlv"@,
        "gsp.tlv"@,
        "gsp.bin"@,
    ];
    if needs_fwsec_bootloader {
        common.push("gen_bootloader.tlv"@)
    } else {
        common
    }
}

/// The path of the firmware file `fw` of the chipset `chipset`.
pub open spec fn entry_path(chipset: Seq<char>, fw: Seq<char>) -> Seq<char> {
    "nvidia/"@ + chipset + "/gsp/"@ + fw
}

/// The paths of the firmware files of a chipset.
pub open spec fn chipset_entries(chipset: Chipset) -> Seq<Seq<char>> {
    firmware_files(chipset.needs_fwsec_bootloader).map_values(
        |fw: Seq<char>| entry_path(chipset.name@, fw),
    )
}

/// The paths of the firmware files of several chipsets, in order.
pub open spec fn all_entries(chipsets: Seq<Chipset>) -> Seq<Seq<char>>
    decreases chipsets.len(),
{
    if chipsets.len() == 0 {
        Seq::empty()
    } else {
        all_entries(chipsets.drop_last()) + chipset_entries(chipsets.last())
    }
}

/// Every firmware file of every chipset is listed.
pub proof fn law_all_files_are_listed(chipsets: Seq<Chipset>, i: int, k: int)
    requires
        0 <= i < chipsets.len(),
        0 <= k < firmware_files(chipsets[i].needs_fwsec_bootloader).len(),
    ensures
        all_entries(chipsets).contains(
            entry_path(
                chipsets[i].name@,
                firmware_files(chipsets[i].needs_fwsec_bootloader)[k],
            ),
        ),
    decreases chipsets.len(),
{
    let path = entry_path(
        chipsets[i].name@,
        firmware_files(chipsets[i].needs_fwsec_bootloader)[k],
    );
    let before = all_entries(chipsets.drop_last());
    let last = chipset_entries(chipsets.last());
    if i == chipsets.len() - 1 {
        assert(last[k] == path);
        assert((before + last)[before.len() + k] == path);
    } else {
        law_all_files_are_listed(chipsets.drop_last(), i, k);
        let at = before.index_of(path);
        assert((before + last)[at] == path);
    }
}

/// The path under which an image is requested is the path that is listed for its file.
pub proof fn law_requested_path_is_listed_path(chip_name: Seq<char>, name: Seq<char>)
    ensures
        tlv_path(chip_name, name) == entry_path(chip_name, name + ".tlv"@),
{
    assert(tlv_path(chip_name, name) =~= entry_path(chip_name, name + ".tlv"@));
}

/// Lists the firmware files that the module can ask for.
pub struct ModInfoBuilder {
    entries: Vec<String>,
}

impl ModInfoBuilder {
    /// The paths listed so far.
    pub closed spec fn view(&self) -> Seq<Seq<char>> {
        self.entries@.map_values(|e: String| e@)
    }

    /// An empty list.
    pub fn new() -> (b: ModInfoBuilder)
        ensures
            b@ == Seq::<Seq<char>>::empty(),
    {
        let b: ModInfoBuilder = ModInfoBuilder { entries: Vec::new() };
        assert(b@ =~= Seq::<Seq<char>>::empty());
        b
    }

    /// The paths listed so far.
    pub fn entries(&self) -> (entries: &Vec<String>)
        ensures
            entries@.map_values(|e: String| e@) == self@,
    {
        &self.entries
    }

    /// Adds the file `fw` of the chipset `chipset`.
    pub fn make_entry_file(self, chipset: &str, fw: &str) -> (b: ModInfoBuilder)
        ensures
            b@ == self@.push(entry_path(chipset@, fw@)),
    {
        let mut entries: Vec<String> = self.entries;
        let mut path: String = String::new();
        path.append("nvidia/");
        path.append(chipset);
        path.append("/gsp/");
        path.append(fw);
        assert(path@ =~= entry_path(chipset@, fw@));
        entries.push(path);
        let b: ModInfoBuilder = ModInfoBuilder { entries };
        assert(b@ =~= self@.push(entry_path(chipset@, fw@)));
        b
    }

    /// Adds all files of a chipset.
    pub fn make_entry_chipset(self, chipset: Chipset) -> (b: ModInfoBuilder)
        ensures
            b@ == self@ + chipset_entries(chipset),
    {
        let name: &str = chipset.name;
        let this: ModInfoBuilder = self.make_entry_file(name, "booter_load.tlv").make_entry_file(
            name,
            "booter_unload.tlv",
        ).make_entry_file(name, "gsp_bootloader.tlv").make_entry_file(
            name,
            "gsp.tlv",
        ).make_entry_file(name, "gsp.bin");
        let b: ModInfoBuilder = if chipset.needs_fwsec_bootloader {
            this.make_entry_file(name, "gen_bootloader.tlv")
        } else {
            this
        };
        assert(b@ =~= self@ + chipset_entries(chipset));
        b
    }

    /// Lists all files of all `chipsets`.
    pub fn create(chipsets: &[Chipset]) -> (b: ModInfoBuilder)
        ensures
            b@ == all_entries(chipsets@),
    {
        let mut this: ModInfoBuilder = ModInfoBuilder::new();
        let mut i: usize = 0;
        assert(chipsets@.subrange(0, 0) =~= Seq::<Chipset>::empty());
        while i < chipsets.len()
            invariant
                i <= chipsets@.len(),
                this@ == all_entries(chipsets@.subrange(0, i as int)),
            decreases chipsets@.len() - i,
        {
            this = this.make_entry_chipset(chipsets[i]);
            i = i + 1;
            assert(chipsets@.subrange(0, i as int).drop_last() =~= chipsets@.subrange(
                0,
                i - 1,
            ));
        }
        assert(chipsets@.subrange(0, i as int) =~= chipsets@);
        this
    }
}

/// A block of an image.
#[derive(Debug, Clone, Copy)]
pub struct TlvBlock<'a> {
    pub tag: &'a str,
    pub value: &'a [u8],
}

/// The header of a block: its tag, and the size of its value without the filler behind it.
#[derive(Debug, Clone, Copy)]
pub struct TlvBlockHeader<'a> {
    pub tag: &'a str,
    pub length: usize,
}

impl<'a> TlvBlockHeader<'a> {
    /// Parses the header at the start of `hdr`, which may be longer. The tag must be ASCII.
    pub fn parse(hdr: &'a [u8]) -> (r: Option<TlvBlockHeader<'a>>)
        ensures
            r is Some <==> starts_header(hdr@),
            r matches Some(header) ==> {
                &&& header.tag.spec_bytes() == hdr@.subrange(0, 4)
                &&& header.length == le_value(hdr@.subrange(4, 8))
            },
    {
        if hdr.len() < HEADER_SIZE {
            return None;
        }
        match text_of_ascii(slice_subrange(hdr, 0, 4)) {
            Ok(tag) => Some(TlvBlockHeader { tag, length: get_u32(hdr, 4) as usize }),
            Err(_) => None,
        }
    }
}

/// What comes before the first zero byte of `s`, or all of `s` if there is none.
pub open spec fn until_nul(s: Seq<u8>) -> Seq<u8>
    decreases s.len(),
{
    if s.len() == 0 || s[0] == 0 {
        Seq::empty()
    } else {
        seq![s[0]] + until_nul(s.drop_first())
    }
}

/// What comes before the first zero byte of `bytes`, or all of them if there is none.
fn before_nul(bytes: &[u8]) -> (r: &[u8])
    ensures
        r@ == until_nul(bytes@),
{
    let mut i: usize = 0;
    assert(bytes@.subrange(0, bytes@.len() as int) =~= bytes@);
    assert(until_nul(bytes@) =~= bytes@.subrange(0, 0) + until_nul(bytes@));
    while i < bytes.len()
        invariant
            i <= bytes@.len(),
            until_nul(bytes@) == bytes@.subrange(0, i as int) + until_nul(
                bytes@.subrange(i as int, bytes@.len() as int),
            ),
        decreases bytes@.len() - i,
    {
        let ghost rest = bytes@.subrange(i as int, bytes@.len() as int);
        if bytes[i] == 0 {
            assert(until_nul(rest) =~= Seq::<u8>::empty());
            assert(until_nul(bytes@) =~= bytes@.subrange(0, i as int));
            return slice_subrange(bytes, 0, i);
        }
        i = i + 1;
        proof {
            assert(rest.drop_first() =~= bytes@.subrange(i as int, bytes@.len() as int));
            assert(bytes@.subrange(0, i - 1) + (seq![rest[0]] + until_nul(rest.drop_first()))
                =~= bytes@.subrange(0, i as int) + until_nul(rest.drop_first()));
        }
    }
    assert(until_nul(bytes@) =~= bytes@);
    bytes
}

/// The payload of a validated image that is looked up by text tags.
///
/// An image starts with the magic "NVFW", followed by blocks and nothing else. Where several blocks
/// have the same tag, the first one counts.
pub struct Tlv<'a> {
    data: &'a [u8],
}

impl<'a> Tlv<'a> {
    /// The bytes after the magic.
    pub closed spec fn payload(self) -> Seq<u8> {
        self.data@
    }

    #[verifier::type_invariant]
    spec fn inv(self) -> bool {
        well_formed(self.data@)
    }

    /// The value of the first block with the tag `tag`.
    pub open spec fn lookup(self, tag: Seq<u8>) -> Option<Seq<u8>> {
        find_value(blocks_of(self.payload()), tag)
    }

    /// Parses `data` as an image.
    pub fn new(data: &'a [u8]) -> (r: Result<Tlv<'a>, Error>)
        ensures
            r is Ok <==> has_magic(data@) && well_formed(payload_of(data@)),
            r matches Err(e) ==> e == Error::EINVAL,
            r matches Ok(tlv) ==> tlv.payload() == payload_of(data@),
    {
        let payload: &'a [u8] = match strip_magic(data) {
            Some(payload) => payload,
            None => {
                return Err(Error::EINVAL);
            },
        };
        if !validate(payload) {
            return Err(Error::EINVAL);
        }
        Ok(Tlv { data: payload })
    }

    /// Starts a walk over the blocks.
    pub fn iter<'tlv>(&'tlv self) -> (it: TlvIter<'tlv, 'a>)
        ensures
            it.remaining() == blocks_of(self.payload()),
    {
        proof {
            use_type_invariant(self);
            assert(self.data@.subrange(0, self.data@.len() as int) =~= self.data@);
        }
        TlvIter { tlv: self, pos: 0 }
    }

    /// The size of the value of the first block with the tag `tag`.
    pub fn len(&self, tag: &str) -> (r: Result<usize, Error>)
        ensures
            match self.lookup(tag.spec_bytes()) {
                Some(value) => r matches Ok(len) && len == value.len(),
                None => r == Err::<usize, Error>(Error::EINVAL),
            },
    {
        match self.get_bytes(tag) {
            Ok(value) => Ok(value.len()),
            Err(e) => Err(e),
        }
    }

    /// The value of the first block with the tag `tag`.
    pub fn get_bytes(&self, tag: &str) -> (r: Result<&'a [u8], Error>)
        ensures
            match self.lookup(tag.spec_bytes()) {
                Some(value) => r matches Ok(bytes) && bytes@ == value,
                None => r == Err::<&'a [u8], Error>(Error::EINVAL),
            },
    {
        let mut it: TlvIter = self.iter();
        loop
            invariant
                self.lookup(tag.spec_bytes()) == find_value(it.remaining(), tag.spec_bytes()),
            decreases it.remaining().len(),
        {
            let ghost before = it.remaining();
            match it.next() {
                Some(block) => {
                    if same_bytes(block.tag.as_bytes(), tag.as_bytes()) {
                        return Ok(block.value);
                    }
                    assert(before.drop_first() =~= it.remaining());
                },
                None => {
                    return Err(Error::EINVAL);
                },
            }
        }
    }

    /// The value of the first block with the tag `tag`, as a number. It must be four bytes long.
    pub fn get_u32(&self, tag: &str) -> (r: Result<u32, Error>)
        ensures
            match self.lookup(tag.spec_bytes()) {
                Some(value) => if value.len() == 4 {
                    r matches Ok(v) && v == le_value(value)
                } else {
                    r == Err::<u32, Error>(Error::EINVAL)
                },
                None => r == Err::<u32, Error>(Error::EINVAL),
            },
    {
        match self.get_bytes(tag) {
            Ok(value) => {
                if value.len() != 4 {
                    return Err(Error::EINVAL);
                }
                assert(value@.subrange(0, 4) =~= value@);
                Ok(get_u32(value, 0))
            },
            Err(e) => Err(e),
        }
    }

    /// The value of the first block with the tag `tag`, as text. It ends at the first zero byte, if
    /// there is one, and must be ASCII up to there.
    pub fn get_string(&self, tag: &str) -> (r: Result<&'a str, Error>)
        ensures
            match self.lookup(tag.spec_bytes()) {
                Some(value) => if is_ascii_bytes(until_nul(value)) {
                    r matches Ok(s) && s.spec_bytes() == until_nul(value)
                } else {
                    r == Err::<&'a str, Error>(Error::EINVAL)
                },
                None => r == Err::<&'a str, Error>(Error::EINVAL),
            },
    {
        match self.get_bytes(tag) {
            Ok(value) => text_of_ascii(before_nul(value)),
            Err(e) => Err(e),
        }
    }

    /// Chunk `n` of the value of the first block with the tag `tag`, with chunks of `sigsize` bytes.
    pub fn get_nth_chunk(&self, tag: &str, sigsize: usize, n: usize) -> (r: Result<
        &'a [u8],
        Error,
    >)
        ensures
            match self.lookup(tag.spec_bytes()) {
                Some(value) => if sigsize * n + sigsize <= value.len() {
                    r matches Ok(bytes) && bytes@ == value.subrange(
                        sigsize * n,
                        sigsize * n + sigsize,
                    )
                } else {
                    r == Err::<&'a [u8], Error>(Error::EINVAL)
                },
                None => r == Err::<&'a [u8], Error>(Error::EINVAL),
            },
    {
        let sigs: &'a [u8] = match self.get_bytes(tag) {
            Ok(value) => value,
            Err(e) => {
                return Err(e);
            },
        };
        let len: usize = sigs.len();
        let start: usize = match sigsize.checked_mul(n) {
            Some(start) => start,
            None => {
                return Err(Error::EINVAL);
            },
        };
        let end: usize = match start.checked_add(sigsize) {
            Some(end) => end,
            None => {
                return Err(Error::EINVAL);
            },
        };
        if end > len {
            return Err(Error::EINVAL);
        }
        Ok(slice_subrange(sigs, start, end))
    }
}

/// A walk over the blocks of a [`Tlv`]. Its cursor always stands on a block boundary.
pub struct TlvIter<'tlv, 'a> {
    tlv: &'tlv Tlv<'a>,
    pos: usize,
}

impl<'tlv, 'a> TlvIter<'tlv, 'a> {
    #[verifier::type_invariant]
    spec fn inv(self) -> bool {
        is_boundary(self.tlv.data@, self.pos as int) && well_formed(self.tlv.data@)
    }

    /// The blocks that are still to come.
    pub closed spec fn remaining(self) -> Seq<Block> {
        blocks_of(self.tlv.data@.subrange(self.pos as int, self.tlv.data@.len() as int))
    }

    /// The next block, or `None` after the last one.
    pub fn next(&mut self) -> (r: Option<TlvBlock<'a>>)
        ensures
            r is None <==> old(self).remaining().len() == 0,
            r is None ==> final(self).remaining() == old(self).remaining(),
            r matches Some(block) ==> {
                &&& block.tag.spec_bytes() == old(self).remaining()[0].tag
                &&& block.value@ == old(self).remaining()[0].value
                &&& final(self).remaining() == old(self).remaining().drop_first()
            },
    {
        proof {
            use_type_invariant(&*self);
            law_boundary_starts_block(self.tlv.data@, self.pos as int);
        }
        let data: &'a [u8] = self.tlv.data;
        if self.pos >= data.len() {
            return None;
        }
        let rest: &'a [u8] = slice_subrange(data, self.pos, data.len());
        match split_block(rest) {
            Some((tag, value, size)) => {
                proof {
                    let tail = data@.subrange(self.pos + size, data@.len() as int);
                    assert(after_block(rest@) =~= tail);
                    assert(blocks_of(rest@).drop_first() =~= blocks_of(tail));
                }
                match text_of_ascii(tag) {
                    Ok(tag) => {
                        self.pos = self.pos + size;
                        Some(TlvBlock { tag, value })
                    },
                    Err(_) => None,
                }
            },
            None => None,
        }
    }
}

/// What a descriptor of the second version says: what it has not is zero, the secure code is found in
/// the image at its distance from all the code, and the data at its own offset. Distances that would
/// be negative are zero, and addresses that would be too large are the largest.
pub proof fn law_v2_says(d: FalconUCodeDescV2)
    ensures
        ({
            let v = d.desc();
            &&& v.hdr == d.hdr
            &&& v.imem_load_size == d.imem_load_size
            &&& v.interface_offset == d.interface_offset
            &&& v.dmem_load_size == d.dmem_load_size
            &&& v.pkc_data_offset == 0
            &&& v.engine_id_mask == 0
            &&& v.ucode_id == 0
            &&& v.signature_count == 0
            &&& v.signature_versions == 0
            &&& v.imem_sec.len == d.imem_sec_size
            &&& d.imem_virt_base <= d.imem_sec_base ==> d.imem_virt_base + v.imem_sec.src_start
                == d.imem_sec_base
            &&& d.imem_virt_base > d.imem_sec_base ==> v.imem_sec.src_start == 0
            &&& d.imem_phys_base + v.imem_sec.src_start <= u32::MAX ==> v.imem_sec.dst_start
                == d.imem_phys_base + v.imem_sec.src_start
            &&& d.imem_phys_base + v.imem_sec.src_start > u32::MAX ==> v.imem_sec.dst_start
                == u32::MAX
            &&& v.imem_ns matches Some(ns)
            &&& ns.src_start == 0
            &&& ns.dst_start == d.imem_phys_base
            &&& d.imem_sec_size <= d.imem_load_size ==> ns.len + d.imem_sec_size
                == d.imem_load_size
            &&& d.imem_sec_size > d.imem_load_size ==> ns.len == 0
            &&& v.dmem == (FalconDmaLoadTarget {
                src_start: d.dmem_offset,
                dst_start: d.dmem_phys_base,
                len: d.dmem_load_size,
            })
        }),
{
}

/// What a descriptor of the third version says: all its code is secure, and its data follows.
pub proof fn law_v3_says(d: FalconUCodeDescV3)
    ensures
        ({
            let v = d.desc();
            &&& v.hdr == d.hdr
            &&& v.imem_load_size == d.imem_load_size
            &&& v.interface_offset == d.interface_offset
            &&& v.dmem_load_size == d.dmem_load_size
            &&& v.pkc_data_offset == d.pkc_data_offset
            &&& v.engine_id_mask == d.engine_id_mask
            &&& v.ucode_id == d.ucode_id
            &&& v.signature_count == d.signature_count
            &&& v.signature_versions == d.signature_versions
            &&& v.imem_sec == (FalconDmaLoadTarget {
                src_start: 0,
                dst_start: d.imem_phys_base,
                len: d.imem_load_size,
            })
            &&& v.imem_ns is None
            &&& v.dmem == (FalconDmaLoadTarget {
                src_start: d.imem_load_size,
                dst_start: d.dmem_phys_base,
                len: d.dmem_load_size,
            })
        }),
{
}

/// A descriptor of either version says what the version in it says.
pub proof fn law_either_version_says(v2: FalconUCodeDescV2, v3: FalconUCodeDescV3)
    ensures
        FalconUCodeDesc::V2(v2).desc() == v2.desc(),
        FalconUCodeDesc::V3(v3).desc() == v3.desc(),
{
}

/// Patching puts each byte of the patch where it belongs, keeps every other byte, and can be undone
/// by patching the old bytes back.
pub proof fn law_patch(data: Seq<u8>, at: int, patch: Seq<u8>, i: int)
    requires
        0 <= at,
        at + patch.len() <= data.len(),
        0 <= i < data.len(),
    ensures
        patched(data, at, patch).len() == data.len(),
        patched(data, at, patch)[i] == if at <= i < at + patch.len() {
            patch[i - at]
        } else {
            data[i]
        },
        patched(patched(data, at, patch), at, data.subrange(at, at + patch.len())) == data,
{
    assert(patched(patched(data, at, patch), at, data.subrange(at, at + patch.len())) =~= data);
}

/// The firmware files of a chipset: five, and a sixth if FWSEC needs a bootloader of its own.
pub proof fn law_firmware_files()
    ensures
        firmware_files(false) == seq![
            "booter_load.tlv"@,
            "booter_unload.tlv"@,
            "gsp_bootloader.tlv"@,
            "gsp.tlv"@,
            "gsp.bin"@,
        ],
        firmware_files(true) == firmware_files(false) + seq!["gen_bootloader.tlv"@],
{
    assert(firmware_files(true) =~= firmware_files(false) + seq!["gen_bootloader.tlv"@]);
}

/// The list for several chipsets is the lists for each of them, in order, and the list for one has a
/// path for each of its files, in the directory of the chipset.
pub proof fn law_entries(a: Seq<Chipset>, c: Chipset, b: Seq<Chipset>, k: int)
    ensures
        all_entries(a + b) == all_entries(a) + all_entries(b),
        all_entries(seq![c]).len() == if c.needs_fwsec_bootloader {
            6nat
        } else {
            5nat
        },
        0 <= k < all_entries(seq![c]).len() ==> all_entries(seq![c])[k] == "nvidia/"@ + c.name@
            + "/gsp/"@ + firmware_files(c.needs_fwsec_bootloader)[k],
    decreases b.len(),
{
    assert(seq![c].drop_last() =~= Seq::<Chipset>::empty());
    assert(all_entries(Seq::<Chipset>::empty()) =~= Seq::<Seq<char>>::empty());
    assert(all_entries(seq![c]) =~= chipset_entries(c));
    if b.len() == 0 {
        assert(a + b =~= a);
        assert(all_entries(a) + all_entries(b) =~= all_entries(a));
    } else {
        law_entries(a, c, b.drop_last(), k);
        assert((a + b).drop_last() =~= a + b.drop_last());
        assert(all_entries(a + b) =~= all_entries(a) + all_entries(b));
    }
}

/// Text up to the first zero byte: it holds no zero byte, it is the start of the bytes, and it ends
/// only at a zero byte or at the end of them.
pub proof fn law_text_ends_at_nul(s: Seq<u8>)
    ensures
        until_nul(s).len() <= s.len(),
        until_nul(s) == s.subrange(0, until_nul(s).len() as int),
        forall|i: int| 0 <= i < until_nul(s).len() ==> #[trigger] until_nul(s)[i] != 0,
        until_nul(s).len() < s.len() ==> s[until_nul(s).len() as int] == 0,
    decreases s.len(),
{
    if s.len() > 0 && s[0] != 0 {
        let rest = s.drop_first();
        law_text_ends_at_nul(rest);
        assert(until_nul(s) =~= s.subrange(0, until_nul(s).len() as int));
        assert forall|i: int| 0 <= i < until_nul(s).len() implies #[trigger] until_nul(s)[i]
            != 0 by {
            if i > 0 {
                assert(until_nul(s)[i] == until_nul(rest)[i - 1]);
            }
        }
    } else {
        assert(until_nul(s) =~= s.subrange(0, 0));
    }
}

/// Looking up a tag in a validated image finds the value of the first block with that tag, whatever
/// the blocks are and whatever stands behind their values.
pub proof fn law_lookup_finds_first_block(
    tlv: Tlv,
    bs: Seq<Block>,
    fillers: Seq<Seq<u8>>,
    i: int,
)
    requires
        tlv.payload() == payload_bytes(bs, fillers),
        bs.len() == fillers.len(),
        forall|k: int|
            0 <= k < bs.len() ==> {
                &&& (#[trigger] bs[k]).tag.len() == 4
                &&& is_ascii_bytes(bs[k].tag)
                &&& bs[k].value.len() <= u32::MAX
                &&& bs[k].value.len() + fillers[k].len() == stored_size(bs[k].value.len())
            },
        0 <= i < bs.len(),
        forall|k: int| 0 <= k < i ==> (#[trigger] bs[k]).tag != bs[i].tag,
    ensures
        tlv.lookup(bs[i].tag) == Some(bs[i].value),
{
    law_payload_is_read_back(bs, fillers);
    law_first_block_wins(bs, bs[i].tag, i);
}

/// Looking up a tag that no block of the image has finds nothing.
pub proof fn law_lookup_finds_nothing_else(tlv: Tlv, tag: Seq<u8>)
    requires
        forall|k: int|
            0 <= k < blocks_of(tlv.payload()).len() ==> (#[trigger] blocks_of(
                tlv.payload(),
            )[k]).tag != tag,
    ensures
        tlv.lookup(tag) is None,
{
    law_missing_tag(blocks_of(tlv.payload()), tag);
}

} // verus!
