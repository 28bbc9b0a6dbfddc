use nova_core::error::Error;
use nova_core::gsp::sequencer::{command_buffer, GspSeqCmd, GspSequencer};
use nova_core::gsp::{libos_slots, Gsp, GspHandles, LogBuffer, PteArray, LOG_BUFFER_SIZE};

#[test]
fn page_tables() {
    let a = PteArray::<3>::new(0x8000).unwrap();
    assert_eq!(a.ptes, [0x8000, 0x9000, 0xa000]);
    assert!(PteArray::<2>::new(u64::MAX - 0x1000).is_ok());
    assert_eq!(PteArray::<2>::new(u64::MAX - 0xfff).err(), Some(Error::EOVERFLOW));
    assert!(PteArray::<0>::new(u64::MAX).is_ok());
}

fn number(data: &[u8], i: usize) -> u64 {
    let mut b = [0u8; 8];
    b.copy_from_slice(&data[8 * i..8 * i + 8]);
    u64::from_le_bytes(b)
}

#[test]
fn log_buffer_maps_itself() {
    let log = LogBuffer::new(0x1_2345_6000).unwrap();
    assert_eq!(log.data.len(), LOG_BUFFER_SIZE);
    assert_eq!(number(&log.data, 0), 0);
    for i in 0..16 {
        assert_eq!(number(&log.data, i + 1), 0x1_2345_6000 + 0x1000 * i as u64);
    }
    assert!(log.data[17 * 8..].iter().all(|&b| b == 0));
    assert_eq!(LogBuffer::new(u64::MAX - 0xefff).err(), Some(Error::EOVERFLOW));
}

#[test]
fn log_buffer_is_read() {
    let log = LogBuffer { data: (0..100).collect() };
    let (bytes, next) = log.write_to_slice(30, 10).unwrap();
    assert_eq!(bytes, (10..40).collect::<Vec<u8>>());
    assert_eq!(next, 40);
    let (bytes, next) = log.write_to_slice(1000, 90).unwrap();
    assert_eq!(bytes, (90..100).collect::<Vec<u8>>());
    assert_eq!(next, 100);
    assert_eq!(log.write_to_slice(10, 100), Ok((&[][..], 100)));
    assert_eq!(log.write_to_slice(10, 5000), Ok((&[][..], 5000)));
    assert_eq!(log.write_to_slice(0, 5), Ok((&[][..], 5)));
    assert_eq!(log.write_to_slice(10, -1), Err(Error::EINVAL));
}

#[test]
fn log_reads_compose() {
    let log = LogBuffer { data: (0..100).collect() };
    let mut all = Vec::new();
    let mut offset = 0;
    loop {
        let (bytes, next) = log.write_to_slice(7, offset).unwrap();
        if bytes.is_empty() {
            break;
        }
        all.extend_from_slice(bytes);
        offset = next;
    }
    assert_eq!(all, log.data);
}

#[test]
fn gsp_is_set_up() {
    let handles = GspHandles {
        loginit: 0x10_0000,
        logintr: 0x20_0000,
        logrm: 0x30_0000,
        cmdq: 0x40_0000,
        rmargs: 0x50_0000,
    };
    let gsp = Gsp::new(handles, 4096, 0x20).unwrap();
    assert_eq!(number(&gsp.loginit.data, 1), 0x10_0000);
    assert_eq!(number(&gsp.logintr.data, 1), 0x20_0000);
    assert_eq!(number(&gsp.logrm.data, 1), 0x30_0000);
    assert_eq!(gsp.cmdq.dma_handle(), 0x40_0000);
    let slots: Vec<(&str, u64, usize)> =
        gsp.libos.iter().map(|r| (r.name, r.address, r.size)).collect();
    assert_eq!(
        slots,
        vec![
            ("LOGINIT", 0x10_0000, 0x10000),
            ("LOGINTR", 0x20_0000, 0x10000),
            ("LOGRM", 0x30_0000, 0x10000),
            ("RMARGS", 0x50_0000, 4096),
        ]
    );
    let bad = GspHandles { logrm: u64::MAX, ..handles };
    assert_eq!(Gsp::new(bad, 4096, 0x20).err(), Some(Error::EOVERFLOW));
    let bad = GspHandles { cmdq: u64::MAX, ..handles };
    assert_eq!(Gsp::new(bad, 4096, 0x20).err(), Some(Error::EOVERFLOW));
}

#[test]
fn commands_are_padded() {
    let data = [1u8, 2, 3, 4, 5, 6];
    assert_eq!(command_buffer(&data, 0, 4), vec![1, 2, 3, 4]);
    assert_eq!(command_buffer(&data, 2, 4), vec![3, 4, 5, 6]);
    assert_eq!(command_buffer(&data, 4, 4), vec![5, 6, 0, 0]);
    assert_eq!(command_buffer(&data, 6, 2), vec![0, 0]);
}

#[test]
fn sequencer_runs() {
    let seq = |cmd_data: Vec<u8>, cmd_index| GspSequencer { cmd_data, cmd_index, cmd_size: 24 };
    assert_eq!(seq(vec![], 3).run(), Ok(()));
    assert_eq!(seq(vec![1, 2], 0).run(), Ok(()));
    assert_eq!(seq(vec![1, 2], 1).run(), Err(Error::EINVAL));
    assert_eq!(seq(vec![1, 2, 3], 1).run(), Err(Error::EINVAL));
    assert_eq!(seq(vec![1, 2, 3, 4], 1).run(), Ok(()));
    assert_eq!(seq(vec![0; 48], 2).run(), Ok(()));
    assert_eq!(GspSeqCmd::new(&[0; 24]).err(), Some(Error::EINVAL));
    assert_eq!(GspSeqCmd::from_fw_cmd(&[0; 24]).err(), Some(Error::EINVAL));
}

#[test]
fn sequencer_iterates() {
    let seq = GspSequencer { cmd_data: vec![1], cmd_index: 1, cmd_size: 24 };
    let mut it = seq.iter();
    assert!(matches!(it.next(), Some(Err(Error::EINVAL))));
    let seq = GspSequencer { cmd_data: vec![1; 30], cmd_index: 2, cmd_size: 24 };
    let mut it = seq.iter();
    assert!(it.next().is_none());
    assert_eq!((it.current_offset, it.cmds_processed, it.total_cmds), (0, 0, 2));
}

#[test]
fn region_table_slots() {
    assert_eq!(libos_slots(32), 128);
    assert_eq!(libos_slots(48), 85);
    assert_eq!(libos_slots(4096), 1);
    assert_eq!(libos_slots(4097), 0);
}
