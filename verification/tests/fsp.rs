use nova_core::error::Error;
use nova_core::fsp::{
    BootEvent, BootWait, FmcSections, FmcSignatures, Fsp, FspAction, FspEvent, FspExchange,
    FspResponse, FSP_BOOT_COMPLETE_STATUS_SUCCESS, FSP_MSG_TIMEOUT_MS, NVDM_TYPE_COT,
};

fn elf() -> Vec<u8> {
    let mut fw = vec![0x7f, b'E', b'L', b'F', 1];
    fw.resize(64, 0);
    fw
}

fn words_of(bytes: &[u8]) -> Vec<u32> {
    bytes
        .chunks(4)
        .map(|c| u32::from_le_bytes([c[0], c[1], c[2], c[3]]))
        .collect()
}

fn answer(mctp: u32, nvdm: u32, command: u32, error: u32) -> Vec<u32> {
    vec![mctp, nvdm, 7, command, error]
}

fn answer_bytes(words: &[u32]) -> Vec<u8> {
    words.iter().flat_map(|w| w.to_le_bytes()).collect()
}

const GOOD_MCTP: u32 = 0xc000_0000;
const GOOD_NVDM: u32 = 0x1510_de7e;

#[test]
fn default_signatures_are_zero() {
    let s = FmcSignatures::default();
    assert_eq!(s.hash384, [0u32; 12]);
    assert_eq!(s.public_key, [0u32; 96]);
    assert_eq!(s.signature, [0u32; 96]);
}

#[test]
fn signatures_are_extracted_with_padding() {
    let hash: Vec<u8> = (1..=48u8).collect();
    let pkey: Vec<u8> = (1..=97u8).collect();
    let sig: Vec<u8> = (100..196u8).collect();
    let sections = FmcSections { hash: Some(&hash), publickey: Some(&pkey), signature: Some(&sig) };
    let s = Fsp::extract_fmc_signatures_static(&elf(), sections).unwrap();
    assert_eq!(s.hash384.to_vec(), words_of(&hash));
    assert_eq!(s.public_key[0], 0x0403_0201);
    assert_eq!(s.public_key[24], 97);
    assert!(s.public_key[25..].iter().all(|&w| w == 0));
    assert_eq!(s.signature[..24].to_vec(), words_of(&sig));
    assert!(s.signature[24..].iter().all(|&w| w == 0));
}

#[test]
fn bad_elf_is_refused() {
    let hash = [1u8; 48];
    let key = [1u8; 8];
    let sections = FmcSections { hash: Some(&hash), publickey: Some(&key), signature: Some(&key) };
    assert!(Fsp::extract_fmc_signatures_static(&elf(), sections).is_ok());
    let refused = |fw: &[u8]| {
        Fsp::extract_fmc_signatures_static(fw, sections).err() == Some(Error::EINVAL)
    };
    assert!(refused(&elf()[..15]));
    assert!(!refused(&elf()[..16]));
    let mut fw = elf();
    fw[1] = b'F';
    assert!(refused(&fw));
    let mut fw = elf();
    fw[4] = 2;
    assert!(refused(&fw));
    assert!(refused(&[]));
}

#[test]
fn bad_sections_are_refused() {
    let hash = [1u8; 48];
    let key = [1u8; 8];
    let good = FmcSections { hash: Some(&hash), publickey: Some(&key), signature: Some(&key) };
    let refused = |sections: FmcSections| {
        Fsp::extract_fmc_signatures_static(&elf(), sections).err() == Some(Error::EINVAL)
    };
    assert!(!refused(good));
    assert!(refused(FmcSections { hash: None, ..good }));
    assert!(refused(FmcSections { publickey: None, ..good }));
    assert!(refused(FmcSections { signature: None, ..good }));
    assert!(refused(FmcSections { hash: Some(&hash[..47]), ..good }));
    assert!(refused(FmcSections { hash: Some(&[1u8; 49]), ..good }));
    assert!(!refused(FmcSections { publickey: Some(&[1u8; 97]), ..good }));
    assert!(refused(FmcSections { publickey: Some(&[1u8; 98]), ..good }));
    assert!(!refused(FmcSections { signature: Some(&[1u8; 96]), ..good }));
    assert!(refused(FmcSections { signature: Some(&[1u8; 97]), ..good }));
    assert!(refused(FmcSections { hash: Some(&[0u8; 48]), ..good }));
    assert!(refused(FmcSections { publickey: Some(&[0u8; 97]), ..good }));
    assert!(refused(FmcSections { signature: Some(&[]), ..good }));
}

#[test]
fn boot_params_layout() {
    let p = Fsp::create_fmc_boot_params(0x1122_3344_5566_7788, 0x100, 0x9900);
    assert_eq!(p.boot_gsp_rm_params.target, 1);
    assert_eq!(p.gsp_rm_params.target, 2);
    let b = p.as_bytes();
    assert_eq!(b.len(), 80);
    assert_eq!(b[0..8], [0u8; 8]);
    assert_eq!(b[8..12], [1, 0, 0, 0]);
    assert_eq!(b[12..16], [0, 1, 0, 0]);
    assert_eq!(b[16..24], [0x88, 0x77, 0x66, 0x55, 0x44, 0x33, 0x22, 0x11]);
    assert_eq!(b[24..36], [0u8; 12]);
    assert_eq!(b[36..40], [1, 0, 0, 0]);
    assert_eq!(b[40..44], [2, 0, 0, 0]);
    assert_eq!(b[48..56], [0, 0x99, 0, 0, 0, 0, 0, 0]);
    assert_eq!(b[56..80], [0u8; 24]);
}

#[test]
fn frts_offsets() {
    assert_eq!(Fsp::frts_offset(true, 0, true), 0);
    assert_eq!(Fsp::frts_offset(false, 0x12345, true), 0);
    assert_eq!(Fsp::frts_offset(true, 0xffff_ffff, false), 0x1c0_0000);
    assert_eq!(Fsp::frts_offset(false, 0, false), 0);
    assert_eq!(Fsp::frts_offset(false, 1, false), 0x20_0000);
    assert_eq!(Fsp::frts_offset(false, 0x20_0000, false), 0x20_0000);
    assert_eq!(Fsp::frts_offset(false, 0x20_0001, false), 0x40_0000);
    assert_eq!(Fsp::frts_offset(false, u64::MAX, false), 0);
}

#[test]
fn cot_message_layout() {
    let mut sigs = FmcSignatures::default();
    sigs.hash384[0] = 0xaabb_ccdd;
    sigs.public_key[95] = 0x0102_0304;
    sigs.signature[0] = 0x0506_0708;
    let msg = Fsp::cot_message(true, 0x15f4_0000, 0x7_0000_0001, 0, false, &sigs);
    let b = msg.as_bytes();
    assert_eq!(b.len(), 868);
    assert_eq!(b[0..4], [0x00, 0x00, 0x00, 0xc0]);
    assert_eq!(b[4..8], [0x7e, 0xde, 0x10, 0x14]);
    assert_eq!(b[8..10], [2, 0]);
    assert_eq!(b[10..12], [0x5c, 0x03]);
    assert_eq!(b[12..20], [0, 0, 0xf4, 0x15, 0, 0, 0, 0]);
    assert_eq!(b[20..32], [0u8; 12]);
    assert_eq!(b[32..40], 0x1c0_0000u64.to_le_bytes());
    assert_eq!(b[40..44], [0, 0, 0x10, 0]);
    assert_eq!(b[44..48], [0xdd, 0xcc, 0xbb, 0xaa]);
    assert_eq!(b[0x1d8..0x1dc], [4, 3, 2, 1]);
    assert_eq!(b[0x1dc..0x1e0], [8, 7, 6, 5]);
    assert_eq!(b[0x35c..0x364], [1, 0, 0, 0, 7, 0, 0, 0]);
    let resumed = Fsp::cot_message(true, 0, 0, 0, true, &sigs).as_bytes();
    assert_eq!(resumed[32..44], [0u8; 12]);
}

#[test]
fn message_carries_sections() {
    let hash: Vec<u8> = (1..=48u8).collect();
    let pkey: Vec<u8> = (1..=97u8).collect();
    let sig: Vec<u8> = (1..=50u8).collect();
    let sections = FmcSections { hash: Some(&hash), publickey: Some(&pkey), signature: Some(&sig) };
    let s = Fsp::extract_fmc_signatures_static(&elf(), sections).unwrap();
    let b = Fsp::cot_message(false, 1, 2, 3, false, &s).as_bytes();
    assert_eq!(b[0x2c..0x5c], hash[..]);
    assert_eq!(b[0x5c..0x5c + 97], pkey[..]);
    assert!(b[0x5c + 97..0x1dc].iter().all(|&x| x == 0));
    assert_eq!(b[0x1dc..0x1dc + 50], sig[..]);
    assert!(b[0x1dc + 50..0x35c].iter().all(|&x| x == 0));
}

#[test]
fn poll_sizes() {
    assert_eq!(Fsp::poll_fsp(0x10, 0x10, 0x99), 0);
    assert_eq!(Fsp::poll_fsp(0x10, 0x20, 0x20), 0x14);
    assert_eq!(Fsp::poll_fsp(0, 16, 20), 24);
    assert_eq!(Fsp::poll_fsp(0x10, 0x20, 0x0c), 0);
    assert_eq!(Fsp::poll_fsp(0x10, 0x20, 0x10), 4);
    assert_eq!(Fsp::poll_fsp(0, 4, u32::MAX), 0);
    assert_eq!(Fsp::poll_fsp(0, 4, u32::MAX - 4), u32::MAX);
}

#[test]
fn receive_checks_size() {
    assert_eq!(Fsp::recv_fsp(20, 20).unwrap().num_words, 5);
    assert_eq!(Fsp::recv_fsp(20, 20).unwrap().ctl, 0x0200_0000);
    assert_eq!(Fsp::recv_fsp(24, 20), Err(Error::EIO));
}

#[test]
fn responses_are_parsed() {
    let data = answer_bytes(&answer(1, 2, 4, 5));
    let r = FspResponse::from_bytes(&data).unwrap();
    assert_eq!(
        (r.mctp_header, r.nvdm_header, r.task_id, r.command_nvdm_type, r.error_code),
        (1, 2, 7, 4, 5)
    );
    assert!(FspResponse::from_bytes(&data[..19]).is_none());
}

#[test]
fn responses_are_judged() {
    let judge = |mctp, nvdm, command, error| {
        Fsp::check_response(&answer_bytes(&answer(mctp, nvdm, command, error)), NVDM_TYPE_COT)
    };
    assert_eq!(judge(GOOD_MCTP, GOOD_NVDM, 0x14, 0), Ok(()));
    assert_eq!(judge(0xffff_ffff, GOOD_NVDM, 0x14, 0), Ok(()));
    assert_eq!(judge(0x8000_0000, GOOD_NVDM, 0x14, 0), Err(Error::EIO));
    assert_eq!(judge(0x4000_0000, GOOD_NVDM, 0x14, 0), Err(Error::EIO));
    assert_eq!(judge(GOOD_MCTP, GOOD_NVDM | 0x80, 0x14, 0), Ok(()));
    assert_eq!(judge(GOOD_MCTP, GOOD_NVDM ^ 1, 0x14, 0), Err(Error::EIO));
    assert_eq!(judge(GOOD_MCTP, GOOD_NVDM ^ 0x100, 0x14, 0), Err(Error::EIO));
    assert_eq!(judge(GOOD_MCTP, 0x1410_de7e, 0x14, 0), Err(Error::EIO));
    assert_eq!(judge(GOOD_MCTP, GOOD_NVDM, 0x15, 0), Err(Error::EIO));
    assert_eq!(judge(GOOD_MCTP, GOOD_NVDM, 0x14, 0xd7), Err(Error::EIO));
    assert_eq!(Fsp::check_response(&[], NVDM_TYPE_COT), Err(Error::EIO));
}

#[test]
fn error_codes_of_answers() {
    let code = |mctp, nvdm, command, error| {
        Fsp::response_code(&answer_bytes(&answer(mctp, nvdm, command, error)), NVDM_TYPE_COT)
    };
    assert_eq!(code(GOOD_MCTP, GOOD_NVDM, 0x14, 0), Some(0));
    assert_eq!(code(GOOD_MCTP, GOOD_NVDM, 0x14, 0xd7), Some(0xd7));
    assert_eq!(code(0, GOOD_NVDM, 0x14, 0xd7), None);
    assert_eq!(code(GOOD_MCTP, 0, 0x14, 0xd7), None);
    assert_eq!(code(GOOD_MCTP, GOOD_NVDM, 0x15, 0xd7), None);
    assert_eq!(Fsp::response_code(&[0; 19], NVDM_TYPE_COT), None);
}

#[test]
fn error_names() {
    assert_eq!(Fsp::error_name(0xd7), "INVALID_COT_PAYLOAD");
    assert_eq!(Fsp::error_name(0x177), "UCODE_UNRECOGNIZED_DESCRIPTOR_P1");
    assert_eq!(Fsp::error_name(1), "Unknown FSP error");
}

fn done(x: &FspExchange) -> Option<Result<(), Error>> {
    match x.action() {
        FspAction::Done(r) => Some(r),
        _ => None,
    }
}

#[test]
fn boot_exchange_succeeds() {
    let sigs = FmcSignatures::default();
    let want = Fsp::cot_message(true, 0x1000, 0x2000, 0, false, &sigs).as_bytes();
    let mut x =
        Fsp::boot_gsp_fmc_with_signatures(true, 0x1000, 0x2000, 0, false, &sigs).unwrap();
    assert!(matches!(x.action(), FspAction::AwaitQueueEmpty));
    x.handle(FspEvent::QueueEmpty);
    match x.action() {
        FspAction::Transmit { write, queue_tail } => {
            assert_eq!(write.ctl, 0x0100_0000);
            assert_eq!(write.words, words_of(&want));
            assert_eq!(queue_tail, 868);
        }
        _ => panic!("no transmission"),
    }
    x.handle(FspEvent::Transmitted);
    assert!(matches!(x.action(), FspAction::PollMsgq));
    x.handle(FspEvent::Polled { head: 0, tail: 0, tail_fresh: 0 });
    assert!(matches!(x.action(), FspAction::Sleep));
    x.handle(FspEvent::Slept);
    x.handle(FspEvent::Polled { head: 0, tail: 16, tail_fresh: 16 });
    match x.action() {
        FspAction::Receive { read, msgq_head } => {
            assert_eq!(read.ctl, 0x0200_0000);
            assert_eq!(read.num_words, 5);
            assert_eq!(msgq_head, 20);
        }
        _ => panic!("no reception"),
    }
    x.handle(FspEvent::Received { words: answer(GOOD_MCTP, GOOD_NVDM, 0x14, 0) });
    assert_eq!(done(&x), Some(Ok(())));
}

#[test]
fn exchange_needs_whole_words() {
    assert_eq!(FspExchange::new(1, vec![0; 5]).err(), Some(Error::EINVAL));
    assert!(FspExchange::new(1, vec![0; 8]).is_ok());
}

#[test]
fn exchange_failures() {
    let start = || FspExchange::new(NVDM_TYPE_COT, vec![1, 2, 3, 4]).unwrap();
    let mut x = start();
    x.handle(FspEvent::QueueTimedOut);
    assert_eq!(done(&x), Some(Err(Error::ETIMEDOUT)));

    let mut x = start();
    x.handle(FspEvent::QueueEmpty);
    x.handle(FspEvent::Transmitted);
    x.handle(FspEvent::Polled { head: 0, tail: 20, tail_fresh: 20 });
    assert_eq!(done(&x), Some(Err(Error::EIO)));

    let mut x = start();
    x.handle(FspEvent::QueueEmpty);
    x.handle(FspEvent::Transmitted);
    x.handle(FspEvent::Polled { head: 0, tail: 16, tail_fresh: 16 });
    x.handle(FspEvent::Received { words: answer(GOOD_MCTP, GOOD_NVDM, 0x14, 0x177) });
    assert_eq!(done(&x), Some(Err(Error::EIO)));
}

#[test]
fn silence_times_out() {
    let mut x = FspExchange::new(NVDM_TYPE_COT, vec![]).unwrap();
    x.handle(FspEvent::QueueEmpty);
    x.handle(FspEvent::Transmitted);
    let mut sleeps = 0;
    loop {
        x.handle(FspEvent::Polled { head: 8, tail: 8, tail_fresh: 8 });
        if let Some(r) = done(&x) {
            assert_eq!(r, Err(Error::ETIMEDOUT));
            break;
        }
        x.handle(FspEvent::Slept);
        sleeps += 1;
    }
    assert_eq!(sleeps, FSP_MSG_TIMEOUT_MS);
}

#[test]
fn secure_boot_wait() {
    let ok = FSP_BOOT_COMPLETE_STATUS_SUCCESS;
    let poll = Fsp::wait_secure_boot(BootWait::Probe, BootEvent::Status(ok));
    assert!(matches!(poll, BootWait::Poll));
    assert!(matches!(
        Fsp::wait_secure_boot(BootWait::Probe, BootEvent::Unreadable(Error::EINVAL)),
        BootWait::Finished(Err(Error::EINVAL))
    ));
    assert!(matches!(Fsp::wait_secure_boot(poll, BootEvent::Status(0)), BootWait::Poll));
    assert!(matches!(
        Fsp::wait_secure_boot(poll, BootEvent::Unreadable(Error::EIO)),
        BootWait::Poll
    ));
    assert!(matches!(
        Fsp::wait_secure_boot(poll, BootEvent::Status(0xff)),
        BootWait::Finished(Ok(()))
    ));
    assert!(matches!(
        Fsp::wait_secure_boot(poll, BootEvent::TimedOut),
        BootWait::Finished(Err(Error::ETIMEDOUT))
    ));
}
