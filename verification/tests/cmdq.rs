use nova_core::error::Error;
use nova_core::gsp::cmdq::{
    Cmdq, CommandRegions, DmaGspMem, GspPtrs, HeaderArgs, MsgHeader, Outcome, Reception, Span, Views,
    CMDQ_OFFSET,
    GSP_MEM_PTES, MSGQ_NUM_PAGES, MSGQ_SIZE, NUM_PTES, POST_PTE_OFFSET, RING_SIZE, STATQ_OFFSET,
};

const HDR: usize = 80;

const BOTH: Views = Views { header: true, cmd: true };

fn cmdq() -> Cmdq {
    Cmdq::new(0x10_0000, 0x20).unwrap()
}

fn gsp(write_ptr: u32, read_ptr: u32) -> GspPtrs {
    GspPtrs { write_ptr, read_ptr }
}

fn header() -> Vec<u8> {
    let mut h: Vec<u8> = (0..HDR as u8).map(|i| i.wrapping_mul(7)).collect();
    h[32..36].copy_from_slice(&[0; 4]);
    h
}

#[test]
fn new_queue() {
    let q = cmdq();
    assert_eq!(q.seq, 0);
    assert_eq!(q.dma_handle(), 0x10_0000);
    assert_eq!(q.gsp_mem.ptes.ptes[0], 0x10_0000);
    assert_eq!(q.gsp_mem.ptes.ptes[511], 0x10_0000 + 511 * 0x1000);
    assert_eq!(q.gsp_mem.tx.size, 0x40000);
    assert_eq!(q.gsp_mem.tx.rx_hdr_off, 0x20);
    assert_eq!(q.gsp_mem.tx.num_pages, MSGQ_NUM_PAGES);
    assert_eq!(q.gsp_mem.tx.write_ptr, 0);
    assert_eq!(q.gsp_mem.read_ptr, 0);
    assert_eq!(Cmdq::new(u64::MAX - 511 * 0x1000, 0).err(), None);
    assert_eq!(Cmdq::new(u64::MAX - 511 * 0x1000 + 1, 0).err(), Some(Error::EOVERFLOW));
    assert_eq!(DmaGspMem::new(u64::MAX, 0).err(), Some(Error::EOVERFLOW));
}

#[test]
fn checksums() {
    assert_eq!(Cmdq::calculate_checksum(&[]), 0);
    assert_eq!(Cmdq::calculate_checksum(&[&[1, 2, 3, 4]]), 0x0403_0201);
    assert_eq!(Cmdq::calculate_checksum(&[&[1, 2, 3, 4, 5, 6, 7, 8]]), 0x0c04_0404);
    assert_eq!(Cmdq::calculate_checksum(&[&[1, 2, 3], &[], &[4, 5], &[6, 7, 8]]), 0x0c04_0404);
    assert_eq!(Cmdq::calculate_checksum(&[&[0x80; 9]]), 0x80);
}

#[test]
fn positions_wrap() {
    let mut m = cmdq().gsp_mem;
    assert_eq!(DmaGspMem::gsp_write_ptr(gsp(64, 0)), 1);
    assert_eq!(DmaGspMem::gsp_read_ptr(gsp(0, 63)), 0);
    m.advance_cpu_write_ptr(62);
    assert_eq!(m.cpu_write_ptr(), 62);
    m.advance_cpu_write_ptr(2);
    assert_eq!(m.cpu_write_ptr(), 1);
    m.advance_cpu_read_ptr(61);
    assert_eq!(m.cpu_read_ptr(), 61);
    m.advance_cpu_read_ptr(4);
    assert_eq!(m.cpu_read_ptr(), 2);
}

#[test]
fn write_areas() {
    let mut m = cmdq().gsp_mem;
    let span = |start, len| Span { start, len };
    assert_eq!(m.driver_write_area(gsp(0, 0)), (span(0, 62), span(0, 0)));
    assert_eq!(m.driver_write_area(gsp(0, 1)), (span(0, 0), span(0, 0)));
    assert_eq!(m.driver_write_area(gsp(0, 10)), (span(0, 9), span(0, 0)));
    m.tx.write_ptr = 20;
    assert_eq!(m.driver_write_area(gsp(0, 0)), (span(20, 42), span(0, 0)));
    assert_eq!(m.driver_write_area(gsp(0, 5)), (span(20, 43), span(0, 4)));
    assert_eq!(m.driver_write_area(gsp(0, 20)), (span(20, 43), span(0, 19)));
    assert_eq!(m.driver_write_area(gsp(0, 21)), (span(20, 0), span(0, 0)));
}

#[test]
fn read_areas() {
    let mut m = cmdq().gsp_mem;
    let span = |start, len| Span { start, len };
    assert_eq!(m.driver_read_area(gsp(0, 0)), (span(0, 0), span(0, 0)));
    assert_eq!(m.driver_read_area(gsp(7, 0)), (span(0, 7), span(0, 0)));
    m.read_ptr = 60;
    assert_eq!(m.driver_read_area(gsp(62, 0)), (span(60, 2), span(0, 0)));
    assert_eq!(m.driver_read_area(gsp(4, 0)), (span(60, 3), span(0, 4)));
    assert_eq!(m.driver_read_area(gsp(60, 0)), (span(60, 0), span(0, 0)));
}

#[test]
fn one_page_stays_free() {
    let mut m = cmdq().gsp_mem;
    for tx in 0..MSGQ_NUM_PAGES {
        for rx in 0..MSGQ_NUM_PAGES {
            m.tx.write_ptr = tx;
            m.read_ptr = rx;
            let w = m.driver_write_area(gsp(0, rx));
            let r = m.driver_read_area(gsp(tx, 0));
            assert_eq!(w.0.len + w.1.len + r.0.len + r.1.len, 62);
        }
    }
}

#[test]
fn command_regions() {
    let mut m = cmdq().gsp_mem;
    let at = |start, len| Span { start, len };
    assert_eq!(
        m.allocate_command_regions(gsp(0, 0), HDR, 16, 100, BOTH),
        Ok(CommandRegions {
            header: at(0, 80),
            cmd: at(80, 16),
            payload_1: at(96, 100),
            payload_2: at(0, 0),
        })
    );
    m.tx.write_ptr = 62;
    assert_eq!(
        m.allocate_command_regions(gsp(0, 10), HDR, 16, 5000, BOTH),
        Ok(CommandRegions {
            header: at(62 * 4096, 80),
            cmd: at(62 * 4096 + 80, 16),
            payload_1: at(62 * 4096 + 96, 4000),
            payload_2: at(0, 1000),
        })
    );
    assert_eq!(m.allocate_command_regions(gsp(0, 0), HDR, 16, 0, BOTH), Err(Error::EAGAIN));
    assert_eq!(
        m.allocate_command_regions(gsp(0, 1), HDR, 16, 4000, BOTH),
        Ok(CommandRegions {
            header: at(62 * 4096, 80),
            cmd: at(62 * 4096 + 80, 16),
            payload_1: at(62 * 4096 + 96, 4000),
            payload_2: at(0, 0),
        })
    );
    assert_eq!(m.allocate_command_regions(gsp(0, 1), HDR, 16, 4001, BOTH), Err(Error::EAGAIN));
}

#[test]
fn commands_are_sent() {
    let mut q = cmdq();
    let mut ring = vec![0xaa; RING_SIZE];
    let hdr = header();
    let r = q.send_gsp_command(gsp(0, 0), &mut ring, &hdr, 32, &[1, 2, 3, 4], 1, BOTH);
    assert_eq!(r, Ok(()));
    assert_eq!(q.seq, 1);
    assert_eq!(q.gsp_mem.cpu_write_ptr(), 1);
    let sum = Cmdq::calculate_checksum(&[&hdr, &[1, 2, 3, 4]]);
    assert_eq!(ring[32..36], sum.to_le_bytes());
    assert_eq!(ring[..32], hdr[..32]);
    assert_eq!(ring[36..80], hdr[36..]);
    assert_eq!(ring[80..84], [1, 2, 3, 4]);
    assert!(ring[84..].iter().all(|&b| b == 0xaa));
    assert_eq!(Cmdq::calculate_checksum(&[&ring[..84]]), 0);

    let r = q.send_gsp_command_with_payload(gsp(0, 0), &mut ring, &hdr, 32, &[5], &[6, 7], 1, BOTH);
    assert_eq!(r, Ok(()));
    assert_eq!(q.seq, 2);
    assert_eq!(q.gsp_mem.cpu_write_ptr(), 2);
    assert_eq!(ring[4096 + 80..4096 + 83], [5, 6, 7]);
    assert_eq!(Cmdq::calculate_checksum(&[&ring[4096..4096 + 83]]), 0);
    assert_eq!(Cmdq::calculate_checksum(&[&ring[..84]]), 0);
}

#[test]
fn full_queue_refuses_commands() {
    let mut q = cmdq();
    q.gsp_mem.tx.write_ptr = 9;
    let mut ring = vec![0xaa; RING_SIZE];
    let hdr = header();
    let r = q.send_gsp_command(gsp(0, 10), &mut ring, &hdr, 32, &[1, 2, 3, 4], 1, BOTH);
    assert_eq!(r, Err(Error::EAGAIN));
    assert_eq!(q.seq, 0);
    assert_eq!(q.gsp_mem.tx.write_ptr, 9);
    assert!(ring.iter().all(|&b| b == 0xaa));
}

#[test]
fn sent_commands_are_received() {
    let hdr = header();
    let cmd: Vec<u8> = (0..16).collect();
    let payload: Vec<u8> = (0..9000u32).map(|i| (i * 13 + 5) as u8).collect();
    for tx in [0u32, 40, 61, 62] {
        let mut q = cmdq();
        q.gsp_mem.tx.write_ptr = tx;
        let mut ring = vec![0x11; RING_SIZE];
        let r =
            q.send_gsp_command_with_payload(gsp(0, tx), &mut ring, &hdr, 32, &cmd, &payload, 3, BOTH);
        assert_eq!(r, Ok(()));

        let mut peer = cmdq();
        peer.gsp_mem.read_ptr = tx;
        let ptrs = gsp(q.gsp_mem.cpu_write_ptr(), 0);
        let length = cmd.len() + payload.len();
        let found = peer.next_message(ptrs, HDR).unwrap();
        assert_eq!(found, Span { start: tx as usize * 4096, len: HDR });
        assert!(peer.message_fits(ptrs, HDR, cmd.len(), length));
        let head = MsgHeader { length, function: Some(4) };
        let got = peer.receive_msg_from_gsp(ptrs, &ring, HDR, cmd.len(), Some(head), 4);
        match got {
            Ok(Reception::Message { cmd: c, payload_1, payload_2 }) => {
                assert_eq!(ring[c.start..c.start + c.len], cmd[..]);
                let mut all = ring[payload_1.start..payload_1.start + payload_1.len].to_vec();
                all.extend_from_slice(&ring[payload_2.start..payload_2.start + payload_2.len]);
                assert_eq!(all, payload);
            }
            _ => panic!("no message"),
        }
        assert_eq!(
            peer.receive_msg_from_gsp(ptrs, &ring, HDR, cmd.len(), Some(head), 5),
            Ok(Reception::OtherFunction)
        );
        ring[tx as usize * 4096 + 90] ^= 1;
        assert_eq!(
            peer.receive_msg_from_gsp(ptrs, &ring, HDR, cmd.len(), Some(head), 4),
            Err(Error::EIO)
        );
    }
}

#[test]
fn unread_commands_survive() {
    let mut q = cmdq();
    q.gsp_mem.tx.write_ptr = 50;
    let mut ring = vec![0u8; RING_SIZE];
    for (i, b) in ring.iter_mut().enumerate() {
        *b = (i / 4096) as u8;
    }
    let hdr = header();
    // The pages 20 to 49 are unread; the rest but one is free.
    let payload = vec![0xff; 32 * 4096 - 96];
    let r = q.send_gsp_command_with_payload(gsp(0, 20), &mut ring, &hdr, 32, &[9; 16], &payload, 32, BOTH);
    assert_eq!(r, Ok(()));
    assert_eq!(q.gsp_mem.cpu_write_ptr(), 19);
    for page in 19..50usize {
        assert!(ring[page * 4096..(page + 1) * 4096].iter().all(|&b| b == page as u8));
    }
    assert_eq!(ring[18 * 4096], 0xff);
}

#[test]
fn bad_messages_are_refused() {
    let q = cmdq();
    let ring = vec![0u8; RING_SIZE];
    let ptrs = gsp(1, 0);
    let receive = |header| q.receive_msg_from_gsp(ptrs, &ring, HDR, 16, header, 4);
    assert_eq!(receive(None), Err(Error::EIO));
    assert_eq!(receive(Some(MsgHeader { length: 15, function: Some(4) })), Err(Error::EIO));
    assert_eq!(receive(Some(MsgHeader { length: 16, function: None })), Err(Error::EIO));
    assert!(receive(Some(MsgHeader { length: 16, function: Some(4) })).is_ok());
    assert_eq!(q.next_message(gsp(0, 0), HDR), None);
    assert!(!q.message_fits(ptrs, HDR, 16, 4096 - HDR + 1));
    assert!(q.message_fits(ptrs, HDR, 16, 4096 - HDR));
    assert!(!q.message_fits(ptrs, 4090, 16, 6));
    assert!(!q.message_fits(gsp(0, 0), HDR, 16, 16));
    assert!(!q.message_fits(ptrs, usize::MAX, usize::MAX, usize::MAX));
}

#[test]
fn messages_are_finished() {
    let mut q = cmdq();
    assert_eq!(q.finish_message::<u32>(100, Outcome::Undecodable), Err(Error::EINVAL));
    assert_eq!(q.gsp_mem.read_ptr, 0);
    assert_eq!(q.finish_message(4096, Outcome::Handled(Ok(7))), Ok(7));
    assert_eq!(q.gsp_mem.read_ptr, 1);
    assert_eq!(q.finish_message::<u32>(4097, Outcome::OtherFunction), Err(Error::ERANGE));
    assert_eq!(q.gsp_mem.read_ptr, 3);
    assert_eq!(q.finish_message::<u32>(0, Outcome::Handled(Err(Error::EIO))), Err(Error::EIO));
    assert_eq!(q.gsp_mem.read_ptr, 3);
    assert_eq!(q.finish_message(60 * 4096, Outcome::Handled(Ok(()))), Ok(()));
    assert_eq!(q.gsp_mem.read_ptr, 0);
}

#[test]
fn sendable_commands() {
    let mut q = cmdq();
    q.gsp_mem.tx.write_ptr = 62;
    // One page up to the end of the ring, four at its beginning.
    let ptrs = gsp(0, 5);
    assert!(q.sendable(ptrs, HDR, 4096 - HDR, 100, BOTH));
    assert!(!q.sendable(ptrs, HDR, 4096 - HDR + 1, 100, BOTH));
    assert!(q.sendable(ptrs, HDR, 16, 100_000, BOTH));
    assert!(!q.sendable(ptrs, HDR, usize::MAX, 1, BOTH));
    assert!(!q.sendable(ptrs, HDR, 16, usize::MAX, BOTH));
    q.seq = u32::MAX;
    assert!(!q.sendable(ptrs, HDR, 16, 100, BOTH));
    assert!(q.sendable(ptrs, HDR, 16, 100_000, BOTH));
}

#[test]
fn shared_memory_layout() {
    let page = 4096;
    assert_eq!(RING_SIZE, MSGQ_NUM_PAGES as usize * page);
    assert_eq!(MSGQ_SIZE as usize, page + RING_SIZE);
    assert_eq!(POST_PTE_OFFSET, GSP_MEM_PTES * 8);
    assert_eq!(CMDQ_OFFSET, page);
    assert_eq!(STATQ_OFFSET, MSGQ_SIZE as usize + page);
    assert_eq!(NUM_PTES * page, POST_PTE_OFFSET + 2 * MSGQ_SIZE as usize);
}

#[test]
fn unsuitable_places_are_refused() {
    let mut q = cmdq();
    let no_header = Views { header: false, cmd: true };
    let no_cmd = Views { header: true, cmd: false };
    let m = q.gsp_mem;
    assert_eq!(
        m.allocate_command_regions(gsp(0, 0), HDR, 16, 100, no_header),
        Err(Error::EINVAL)
    );
    assert_eq!(m.allocate_command_regions(gsp(0, 0), HDR, 16, 100, no_cmd), Err(Error::EINVAL));
    // Too little room is noticed first.
    assert_eq!(m.allocate_command_regions(gsp(0, 1), HDR, 16, 100, no_cmd), Err(Error::EAGAIN));

    let mut ring = vec![0xaa; RING_SIZE];
    let hdr = header();
    let r = q.send_gsp_command(gsp(0, 0), &mut ring, &hdr, 32, &[1, 2, 3, 4], 1, no_cmd);
    assert_eq!(r, Err(Error::EINVAL));
    assert_eq!(q.seq, 0);
    assert_eq!(q.gsp_mem.tx.write_ptr, 0);
    assert!(ring.iter().all(|&b| b == 0xaa));

    q.gsp_mem.tx.write_ptr = 62;
    let ptrs = gsp(0, 5);
    assert!(q.sendable(ptrs, HDR, 5000, 0, no_header));
    assert!(!q.sendable(ptrs, HDR, 5000, 0, no_cmd));
    q.seq = u32::MAX;
    assert!(q.sendable(ptrs, HDR, 16, 0, no_cmd));
    assert!(!q.sendable(ptrs, HDR, 16, 0, BOTH));
}

#[test]
fn headers_are_made_from_the_queue() {
    let mut q = cmdq();
    q.seq = 7;
    assert_eq!(q.header_args(16, 100, 4), HeaderArgs { seq: 7, length: 116, function: 4 });
    let mut ring = vec![0; RING_SIZE];
    let r = q.send_gsp_command(gsp(0, 0), &mut ring, &header(), 32, &[1], 1, BOTH);
    assert_eq!(r, Ok(()));
    assert_eq!(q.header_args(1, 0, 5), HeaderArgs { seq: 8, length: 1, function: 5 });
}

#[test]
fn checksum_bytes_are_lanes() {
    let data: Vec<u8> = (0..1000u32).map(|i| (i * i + 3 * i) as u8).collect();
    for len in [0usize, 1, 3, 4, 5, 8, 11, 999, 1000] {
        let mut lanes = [0u8; 4];
        for (i, b) in data[..len].iter().enumerate() {
            lanes[i % 4] ^= b;
        }
        assert_eq!(Cmdq::calculate_checksum(&[&data[..len]]).to_le_bytes(), lanes);
    }
}

#[test]
fn long_headers_may_span_pages() {
    let q = cmdq();
    assert_eq!(q.next_message(gsp(2, 0), 5000), Some(Span { start: 0, len: 5000 }));
}
