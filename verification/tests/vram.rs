use nova_core::error::Error;
use nova_core::mm::vram::{
    PraminNum, PraminVram, VramAccess, VramAction, VramEvent, PRAMIN_BASE, PRAMIN_SIZE,
};

/// A device whose window register keeps what is written to it.
struct Device {
    register: u32,
    moves: usize,
    touched: Vec<u64>,
}

fn run(device: &mut Device, access: &mut VramAccess) -> Result<(), Error> {
    loop {
        match access.action() {
            VramAction::ReadWindow => {
                access.handle(VramEvent::Window { window_base: device.register });
            }
            VramAction::WriteWindow { window_base } => {
                device.register = window_base;
                device.moves += 1;
                access.handle(VramEvent::Written);
            }
            VramAction::Item { index, offset } => {
                assert_eq!(index, device.touched.len());
                assert!(offset >= PRAMIN_BASE);
                assert!(offset < PRAMIN_BASE + PRAMIN_SIZE);
                let shown = (offset - PRAMIN_BASE) as u64;
                device.touched.push((u64::from(device.register) << 16) + shown);
                access.handle(VramEvent::ItemDone(Ok(())));
            }
            VramAction::Done(r) => return r,
        }
    }
}

fn device(register: u32) -> Device {
    Device { register, moves: 0, touched: Vec::new() }
}

#[test]
fn sizes_of_numbers() {
    assert_eq!((u8::size_bytes(), u8::alignment()), (1, 1));
    assert_eq!((u16::size_bytes(), u16::alignment()), (2, 2));
    assert_eq!((u32::size_bytes(), u32::alignment()), (4, 4));
    assert_eq!((u64::size_bytes(), u64::alignment()), (8, 8));
}

#[test]
fn four_words_are_written() {
    let mut d = device(0x55);
    let mut a = PraminVram::access_vram::<u32>(0x10000, 4).unwrap();
    assert_eq!(run(&mut d, &mut a), Ok(()));
    assert_eq!(d.touched, vec![0x10000, 0x10004, 0x10008, 0x1000c]);
    assert_eq!(d.register, 1);
    assert_eq!(d.moves, 1);
}

#[test]
fn window_in_place_is_not_moved() {
    let mut d = device(2);
    let mut a = PraminVram::access_vram::<u8>(0x20003, 2).unwrap();
    assert_eq!(run(&mut d, &mut a), Ok(()));
    assert_eq!(d.touched, vec![0x20003, 0x20004]);
    assert_eq!(d.moves, 0);
}

#[test]
fn window_follows_long_transfers() {
    let mut d = device(0);
    let start = 0x1_2340u64;
    let count = 0x6_0000usize;
    let mut a = PraminVram::access_vram::<u64>(start, count).unwrap();
    assert_eq!(run(&mut d, &mut a), Ok(()));
    assert_eq!(d.touched.len(), count);
    for (i, &addr) in d.touched.iter().enumerate() {
        assert_eq!(addr, start + 8 * i as u64);
    }
    // The first window shows 0x10000..0x110000, the following ones 1 MiB each.
    assert_eq!(d.moves, 4);
}

#[test]
fn nothing_to_transfer() {
    let mut d = device(9);
    let mut a = PraminVram::access_vram::<u16>(0x8, 0).unwrap();
    assert_eq!(run(&mut d, &mut a), Ok(()));
    assert_eq!(d.moves, 0);
}

#[test]
fn misaligned_transfers_are_refused() {
    assert_eq!(PraminVram::access_vram::<u32>(0x10002, 1).err(), Some(Error::EINVAL));
    assert_eq!(PraminVram::access_vram::<u64>(0x10004, 0).err(), Some(Error::EINVAL));
    assert!(PraminVram::access_vram::<u16>(0x10002, 1).is_ok());
    assert!(PraminVram::access_vram::<u8>(0x10001, 1).is_ok());
}

#[test]
fn stuck_window_is_an_error() {
    let mut a = PraminVram::access_vram::<u8>(0x30000, 1).unwrap();
    assert_eq!(a.action(), VramAction::ReadWindow);
    a.handle(VramEvent::Window { window_base: 0 });
    assert_eq!(a.action(), VramAction::WriteWindow { window_base: 3 });
    a.handle(VramEvent::Written);
    assert_eq!(a.action(), VramAction::ReadWindow);
    a.handle(VramEvent::Window { window_base: 0 });
    assert_eq!(a.action(), VramAction::Done(Err(Error::EIO)));
}

#[test]
fn failed_item_ends_the_transfer() {
    let mut a = PraminVram::access_vram::<u8>(0, 3).unwrap();
    a.handle(VramEvent::Window { window_base: 0 });
    assert_eq!(a.action(), VramAction::Item { index: 0, offset: 0x700000 });
    a.handle(VramEvent::ItemDone(Ok(())));
    assert_eq!(a.action(), VramAction::Item { index: 1, offset: 0x700001 });
    a.handle(VramEvent::ItemDone(Err(Error::EINVAL)));
    assert_eq!(a.action(), VramAction::Done(Err(Error::EINVAL)));
}

#[test]
fn window_positions() {
    assert_eq!(PraminVram::set_window(0x12_3456_0000), Ok(0x12_3456));
    assert_eq!(PraminVram::set_window(0x7f_ffff_ffff), Err(Error::EINVAL));
    assert_eq!(PraminVram::set_window(0x100_0001_0000), Ok(1));
    assert_eq!(PraminVram::set_window(0x8000), Err(Error::EINVAL));
    assert_eq!(PraminVram::get_window(0xff_ffff), 0xff_ffff_0000);
}

#[test]
fn window_is_put_back() {
    for base in [0u32, 1, 0x55, 0xff_ffff] {
        assert_eq!(PraminVram::new(base).restore(), Ok(base));
    }
}

fn transfer(
    register: &mut u32,
    access: &mut VramAccess,
    mut item: impl FnMut(usize, u64),
) -> Result<(), Error> {
    loop {
        match access.action() {
            VramAction::ReadWindow => {
                access.handle(VramEvent::Window { window_base: *register });
            }
            VramAction::WriteWindow { window_base } => {
                *register = window_base;
                access.handle(VramEvent::Written);
            }
            VramAction::Item { index, offset } => {
                item(index, (u64::from(*register) << 16) + (offset - PRAMIN_BASE) as u64);
                access.handle(VramEvent::ItemDone(Ok(())));
            }
            VramAction::Done(r) => return r,
        }
    }
}

#[test]
fn read_gives_what_was_written() {
    let mut memory = vec![0xeeu8; 0x30_0000];
    let mut register = 7;
    let start = 0x1_fff8u64;
    let data: Vec<u32> = (0..0x5_0000u32).map(|i| i.wrapping_mul(0x9e37_79b9)).collect();
    let mut write = PraminVram::access_vram::<u32>(start, data.len()).unwrap();
    let r = transfer(&mut register, &mut write, |i, at| {
        memory[at as usize..at as usize + 4].copy_from_slice(&data[i].to_le_bytes());
    });
    assert_eq!(r, Ok(()));
    register = 0;
    let mut got = vec![0u32; data.len()];
    let mut read = PraminVram::access_vram::<u32>(start, data.len()).unwrap();
    let r = transfer(&mut register, &mut read, |i, at| {
        let mut b = [0u8; 4];
        b.copy_from_slice(&memory[at as usize..at as usize + 4]);
        got[i] = u32::from_le_bytes(b);
    });
    assert_eq!(r, Ok(()));
    assert_eq!(got, data);
    let end = start as usize + 4 * data.len();
    assert!(memory[..start as usize].iter().all(|&b| b == 0xee));
    assert!(memory[end..].iter().all(|&b| b == 0xee));
}
