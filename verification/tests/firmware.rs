use nova_core::error::Error;
use nova_core::falcon::FalconDmaLoadTarget;
use nova_core::firmware::riscv::{RiscvFirmware, RmRiscvUCodeDesc};
use nova_core::firmware::tlv;
use nova_core::firmware::{
    Chipset, FalconUCodeDesc, FalconUCodeDescV2, FalconUCodeDescV3, FalconUCodeDescriptor,
    FirmwareObject, FirmwareSignature, ModInfoBuilder, Tlv, TlvBlockHeader, Unsigned,
};

fn block(tag: &[u8; 4], value: &[u8]) -> Vec<u8> {
    let mut b = tag.to_vec();
    b.extend_from_slice(&(value.len() as u32).to_le_bytes());
    b.extend_from_slice(value);
    while b.len() % 4 != 0 {
        b.push(0xee);
    }
    b
}

fn image(blocks: &[(&[u8; 4], &[u8])]) -> Vec<u8> {
    let mut fw = b"NVFW".to_vec();
    for (tag, value) in blocks {
        fw.extend_from_slice(&block(tag, value));
    }
    fw
}

fn v2() -> FalconUCodeDescV2 {
    FalconUCodeDescV2 {
        hdr: 0x003c_0201,
        stored_size: 1,
        uncompressed_size: 2,
        virtual_entry: 3,
        interface_offset: 4,
        imem_phys_base: 0x1000,
        imem_load_size: 0x900,
        imem_virt_base: 0x5000,
        imem_sec_base: 0x5200,
        imem_sec_size: 0x700,
        dmem_offset: 0xa00,
        dmem_phys_base: 0x2000,
        dmem_load_size: 0x300,
        alt_imem_load_size: 5,
        alt_dmem_load_size: 6,
    }
}

fn v3() -> FalconUCodeDescV3 {
    FalconUCodeDescV3 {
        hdr: 0x002c_0301,
        stored_size: 1,
        pkc_data_offset: 2,
        interface_offset: 3,
        imem_phys_base: 0x4000,
        imem_load_size: 0x800,
        imem_virt_base: 5,
        dmem_phys_base: 0x6000,
        dmem_load_size: 0x700,
        engine_id_mask: 8,
        ucode_id: 9,
        signature_count: 10,
        signature_versions: 11,
    }
}

#[test]
fn second_version_descriptor() {
    let d = v2();
    assert_eq!(d.hdr(), 0x003c_0201);
    assert_eq!(d.size(), 0x3c);
    assert_eq!(d.imem_load_size(), 0x900);
    assert_eq!(d.interface_offset(), 4);
    assert_eq!(d.dmem_load_size(), 0x300);
    assert_eq!(d.pkc_data_offset(), 0);
    assert_eq!(d.engine_id_mask(), 0);
    assert_eq!(d.ucode_id(), 0);
    assert_eq!(d.signature_count(), 0);
    assert_eq!(d.signature_versions(), 0);
    assert_eq!(
        d.imem_sec_load_params(),
        FalconDmaLoadTarget { src_start: 0x200, dst_start: 0x1200, len: 0x700 }
    );
    assert_eq!(
        d.imem_ns_load_params(),
        Some(FalconDmaLoadTarget { src_start: 0, dst_start: 0x1000, len: 0x200 })
    );
    assert_eq!(
        d.dmem_load_params(),
        FalconDmaLoadTarget { src_start: 0xa00, dst_start: 0x2000, len: 0x300 }
    );
}

#[test]
fn second_version_segments() {
    // The sizes add up wherever the secure code stands.
    for imem_sec_base in [0, 0x5000, 0x5200, u32::MAX] {
        let d = FalconUCodeDescV2 { imem_sec_base, ..v2() };
        let ns = d.imem_ns_load_params().unwrap();
        assert_eq!(ns.len + d.imem_sec_load_params().len, d.imem_load_size());
    }
    let d = FalconUCodeDescV2 { imem_sec_size: 0x1000, ..v2() };
    let ns = d.imem_ns_load_params().unwrap();
    let sec = d.imem_sec_load_params();
    assert_eq!(sec.dst_start - sec.src_start, ns.dst_start - ns.src_start);
}

#[test]
fn second_version_saturates() {
    let d = FalconUCodeDescV2 { imem_sec_base: 0x4fff, imem_sec_size: 0x901, ..v2() };
    assert_eq!(
        d.imem_sec_load_params(),
        FalconDmaLoadTarget { src_start: 0, dst_start: 0x1000, len: 0x901 }
    );
    assert_eq!(d.imem_ns_load_params().unwrap().len, 0);
    let d = FalconUCodeDescV2 { imem_phys_base: u32::MAX, ..v2() };
    assert_eq!(d.imem_sec_load_params().dst_start, u32::MAX);
}

#[test]
fn third_version_descriptor() {
    let d = v3();
    assert_eq!(d.size(), 0x2c);
    assert_eq!(d.pkc_data_offset(), 2);
    assert_eq!(d.interface_offset(), 3);
    assert_eq!(d.engine_id_mask(), 8);
    assert_eq!(d.ucode_id(), 9);
    assert_eq!(d.signature_count(), 10);
    assert_eq!(d.signature_versions(), 11);
    assert_eq!(
        d.imem_sec_load_params(),
        FalconDmaLoadTarget { src_start: 0, dst_start: 0x4000, len: 0x800 }
    );
    assert_eq!(d.imem_ns_load_params(), None);
    assert_eq!(
        d.dmem_load_params(),
        FalconDmaLoadTarget { src_start: 0x800, dst_start: 0x6000, len: 0x700 }
    );
}

#[test]
fn either_version_descriptor() {
    let a = FalconUCodeDesc::V2(v2());
    let b = FalconUCodeDesc::V3(v3());
    assert_eq!(a.size(), 0x3c);
    assert_eq!(b.size(), 0x2c);
    assert_eq!(a.imem_sec_load_params(), v2().imem_sec_load_params());
    assert_eq!(b.imem_sec_load_params(), v3().imem_sec_load_params());
    assert_eq!(a.imem_ns_load_params(), v2().imem_ns_load_params());
    assert_eq!(b.dmem_load_params(), v3().dmem_load_params());
    assert_eq!(a.imem_load_size(), 0x900);
    assert_eq!(b.dmem_load_size(), 0x700);
    assert_eq!(b.signature_versions(), 11);
    assert_eq!(a.signature_count(), 0);
    assert_eq!(b.hdr(), 0x002c_0301);
    assert_eq!(b.interface_offset(), 3);
    assert_eq!(b.pkc_data_offset(), 2);
    assert_eq!(b.engine_id_mask(), 8);
    assert_eq!(b.ucode_id(), 9);
}

#[test]
fn signatures_are_patched() {
    let fw = || FirmwareObject::<u8, Unsigned>::new(vec![1, 2, 3, 4, 5, 6]);
    let sig = |bytes: &[u8]| FirmwareSignature::<u8>::new(bytes.to_vec());
    assert_eq!(sig(&[9, 8]).bytes(), &[9, 8]);
    let signed = fw().patch_signature(&sig(&[9, 8]), 2).unwrap();
    assert_eq!(signed.data(), &[1, 2, 9, 8, 5, 6]);
    assert_eq!(fw().patch_signature(&sig(&[9, 8]), 4).unwrap().data(), &[1, 2, 3, 4, 9, 8]);
    assert_eq!(fw().patch_signature(&sig(&[9, 8]), 5).err(), Some(Error::EINVAL));
    assert_eq!(fw().patch_signature(&sig(&[]), 6).unwrap().data(), &[1, 2, 3, 4, 5, 6]);
    assert_eq!(fw().patch_signature(&sig(&[]), 7).err(), Some(Error::EINVAL));
    assert_eq!(fw().patch_signature(&sig(&[9]), usize::MAX).err(), Some(Error::EOVERFLOW));
    assert_eq!(fw().no_patch_signature().data(), &[1, 2, 3, 4, 5, 6]);
}

#[test]
fn module_lists_firmware_files() {
    let chipsets = [
        Chipset { name: "tu102", needs_fwsec_bootloader: true },
        Chipset { name: "ga102", needs_fwsec_bootloader: false },
    ];
    let b = ModInfoBuilder::create(&chipsets);
    assert_eq!(
        b.entries(),
        &vec![
            "nvidia/tu102/gsp/booter_load.tlv",
            "nvidia/tu102/gsp/booter_unload.tlv",
            "nvidia/tu102/gsp/gsp_bootloader.tlv",
            "nvidia/tu102/gsp/gsp.tlv",
            "nvidia/tu102/gsp/gsp.bin",
            "nvidia/tu102/gsp/gen_bootloader.tlv",
            "nvidia/ga102/gsp/booter_load.tlv",
            "nvidia/ga102/gsp/booter_unload.tlv",
            "nvidia/ga102/gsp/gsp_bootloader.tlv",
            "nvidia/ga102/gsp/gsp.tlv",
            "nvidia/ga102/gsp/gsp.bin",
        ]
    );
    assert!(ModInfoBuilder::create(&[]).entries().is_empty());
}

#[test]
fn requested_paths_are_listed() {
    let chipsets = [Chipset { name: "ga102", needs_fwsec_bootloader: false }];
    let b = ModInfoBuilder::create(&chipsets);
    let path = tlv::request_tlv("ga102", "booter_load").unwrap();
    assert_eq!(path, "nvidia/ga102/gsp/booter_load.tlv");
    assert!(b.entries().contains(&path));
    assert_eq!(tlv::request_tlv("ga\0102", "gsp"), Err(Error::EINVAL));
    assert_eq!(tlv::request_tlv("ga102", "g\0"), Err(Error::EINVAL));
}

#[test]
fn block_headers() {
    let h = TlvBlockHeader::parse(b"ABCD\x05\x01\x00\x00rest").unwrap();
    assert_eq!(h.tag, "ABCD");
    assert_eq!(h.length, 0x105);
    assert!(TlvBlockHeader::parse(b"ABCD\x05\x01\x00").is_none());
    assert!(TlvBlockHeader::parse(b"AB\xc3\xa9\x05\x00\x00\x00").is_none());
    let h = tlv::TlvBlockHeader::parse(b"ABCD\x05\x01\x00\x00").unwrap();
    assert_eq!(&h.tag, b"ABCD");
    assert_eq!(h.length, 0x105);
    assert!(tlv::TlvBlockHeader::parse(b"AB\x80D\x05\x00\x00\x00").is_none());
    assert!(tlv::TlvBlockHeader::parse(b"").is_none());
}

#[test]
fn text_tags_are_looked_up() {
    let fw = image(&[
        (b"SIZE", &[0x78, 0x56, 0x34, 0x12]),
        (b"NAME", b"gsp\0junk\xff"),
        (b"SIGS", b"aabbcc"),
        (b"SIZE", &[1, 0, 0, 0]),
        (b"NONE", b""),
        (b"RAW_", b"\xff"),
        (b"TEXT", b"plain"),
    ]);
    let tlv = Tlv::new(&fw).unwrap();
    assert_eq!(tlv.get_u32("SIZE"), Ok(0x1234_5678));
    assert_eq!(tlv.get_string("NAME"), Ok("gsp"));
    assert_eq!(tlv.get_string("TEXT"), Ok("plain"));
    assert_eq!(tlv.get_string("NONE"), Ok(""));
    assert_eq!(tlv.get_string("RAW_"), Err(Error::EINVAL));
    assert_eq!(tlv.len("SIGS"), Ok(6));
    assert_eq!(tlv.len("NONE"), Ok(0));
    assert_eq!(tlv.get_bytes("SIGS"), Ok(&b"aabbcc"[..]));
    assert_eq!(tlv.get_u32("SIGS"), Err(Error::EINVAL));
    assert_eq!(tlv.get_bytes("GONE"), Err(Error::EINVAL));
    assert_eq!(tlv.len("GONE"), Err(Error::EINVAL));
    assert_eq!(tlv.get_u32("GONE"), Err(Error::EINVAL));
    assert_eq!(tlv.get_string("GONE"), Err(Error::EINVAL));
    assert_eq!(tlv.get_bytes("SIG"), Err(Error::EINVAL));
    assert_eq!(tlv.get_nth_chunk("SIGS", 2, 0), Ok(&b"aa"[..]));
    assert_eq!(tlv.get_nth_chunk("SIGS", 2, 2), Ok(&b"cc"[..]));
    assert_eq!(tlv.get_nth_chunk("SIGS", 2, 3), Err(Error::EINVAL));
    assert_eq!(tlv.get_nth_chunk("SIGS", 4, 1), Err(Error::EINVAL));
    assert_eq!(tlv.get_nth_chunk("SIGS", usize::MAX, 2), Err(Error::EINVAL));
    assert_eq!(tlv.get_nth_chunk("SIGS", usize::MAX, 1), Err(Error::EINVAL));
    assert_eq!(tlv.get_nth_chunk("GONE", 2, 0), Err(Error::EINVAL));
}

#[test]
fn walk_gives_blocks_in_order() {
    let fw = image(&[(b"ONE_", b"1"), (b"TWO_", b"22222")]);
    let tlv = Tlv::new(&fw).unwrap();
    let mut it = tlv.iter();
    let a = it.next().unwrap();
    assert_eq!((a.tag, a.value), ("ONE_", &b"1"[..]));
    let b = it.next().unwrap();
    assert_eq!((b.tag, b.value), ("TWO_", &b"22222"[..]));
    assert!(it.next().is_none());
    assert!(it.next().is_none());
}

#[test]
fn malformed_images_are_refused() {
    let good = image(&[(b"ONE_", b"12345")]);
    assert!(Tlv::new(&good).is_ok());
    assert!(tlv::Tlv::new(&good).is_ok());
    let refused = |fw: &[u8]| {
        let a = Tlv::new(fw).err() == Some(Error::EINVAL);
        let b = tlv::Tlv::new(fw).err() == Some(Error::EINVAL);
        assert_eq!(a, b);
        a
    };
    assert!(refused(b""));
    assert!(refused(b"NVF"));
    assert!(refused(b"NVFX"));
    assert!(refused(&good[..good.len() - 1]));
    assert!(refused(&[&good[..], &[0u8][..]].concat()));
    assert!(refused(&[&good[..], b"TAG_\0\0\0"].concat()));
    assert!(!refused(&[&good[..], b"TAG_\0\0\0\0"].concat()));
    assert!(refused(&[&good[..], b"TAG\x80\0\0\0\0"].concat()));
    assert!(refused(&[&good[..], b"TAG_\xff\xff\xff\xff"].concat()));
    assert!(refused(&[&good[..], b"TAG_\x01\0\0\0\0"].concat()));
}

#[test]
fn empty_images() {
    assert!(Tlv::new(b"NVFW").is_ok());
    assert_eq!(tlv::Tlv::new(b"NVFW").err(), Some(Error::EINVAL));
}

#[test]
fn byte_tags_are_looked_up() {
    let fw = image(&[
        (b"SIZE", &[0x78, 0x56, 0x34, 0x12]),
        (b"NAME", b"gsp"),
        (b"ZERO", b"gsp\0"),
        (b"SIZE", &[1, 0, 0, 0]),
        (b"RAW_", b"a\xff"),
    ]);
    let tlv = tlv::Tlv::new(&fw).unwrap();
    assert_eq!(tlv.get_u32(b"SIZE"), Ok(0x1234_5678));
    assert_eq!(tlv.get_u32(b"NAME"), Err(Error::EINVAL));
    assert_eq!(tlv.get_u32(b"GONE"), Err(Error::EINVAL));
    assert_eq!(tlv.get_string(b"NAME"), Ok("gsp"));
    assert_eq!(tlv.get_string(b"ZERO"), Ok("gsp\0"));
    assert_eq!(tlv.get_string(b"RAW_"), Err(Error::EINVAL));
    assert_eq!(tlv.get_bytes(b"RAW_"), Ok(&b"a\xff"[..]));
    assert_eq!(tlv.get_bytes(b"GONE"), Err(Error::EINVAL));
    assert_eq!(&tlv.find(b"NAME").unwrap().tag, b"NAME");
    let mut it = tlv.iter();
    assert_eq!(&it.next().unwrap().tag, b"SIZE");
    assert_eq!(it.next().unwrap().value, b"gsp");
}

fn desc() -> Vec<u8> {
    (0..14u32).flat_map(|i| (i + 100).to_le_bytes()).collect()
}

#[test]
fn riscv_descriptors() {
    let d = RmRiscvUCodeDesc::new(&desc()).unwrap();
    assert_eq!(d.version, 100);
    assert_eq!(d.bootloader_param_size, 104);
    assert_eq!(d.app_version, 107);
    assert_eq!(d.monitor_code_size, 113);
    assert_eq!(RmRiscvUCodeDesc::new(&desc()[..55]), Err(Error::EINVAL));
    let mut long = desc();
    long.push(1);
    assert!(RmRiscvUCodeDesc::new(&long).is_ok());
}

#[test]
fn riscv_firmware_is_parsed() {
    let d = desc();
    let fw = image(&[(b"BLOB", b"code"), (b"DESC", &d)]);
    let r = RiscvFirmware::new(&fw).unwrap();
    assert_eq!(r.app_version, 107);
    assert_eq!(r.manifest_offset, 108);
    assert_eq!(r.data_offset, 110);
    assert_eq!(r.code_offset, 112);
    assert_eq!(r.ucode, b"code");
    let refused = |fw: &[u8]| RiscvFirmware::new(fw).err() == Some(Error::EINVAL);
    assert!(refused(&image(&[(b"DESC", &d)])));
    assert!(refused(&image(&[(b"BLOB", b"code")])));
    assert!(refused(&image(&[(b"BLOB", b"code"), (b"DESC", &d[..52])])));
    assert!(refused(b"NVFX"));
}
