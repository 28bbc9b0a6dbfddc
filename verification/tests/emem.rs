use nova_core::falcon::fsp::{emem_bytes, log_emem_data, read_emem, write_emem};
use nova_core::text::dump;

#[test]
fn emem_write_packs_words() {
    let w = write_emem(0x10, &[1, 2, 3, 4, 5, 6]);
    assert_eq!(w.ctl, 0x0100_0010);
    assert_eq!(w.words, vec![0x0403_0201, 0x0605]);
}

#[test]
fn emem_write_of_nothing() {
    let w = write_emem(0, &[]);
    assert_eq!(w.ctl, 0x0100_0000);
    assert!(w.words.is_empty());
}

#[test]
fn emem_read_counts_words() {
    let r = read_emem(4, 20);
    assert_eq!(r.ctl, 0x0200_0004);
    assert_eq!(r.num_words, 5);
    assert_eq!(read_emem(0, 0).num_words, 0);
    assert_eq!(read_emem(0, 21).num_words, 6);
}

#[test]
fn emem_bytes_drop_excess() {
    assert_eq!(emem_bytes(&[0x0403_0201, 0x0807_0605], 6), vec![1, 2, 3, 4, 5, 6]);
    assert_eq!(emem_bytes(&[], 0), Vec::<u8>::new());
}

#[test]
fn emem_round_trip() {
    for len in 0..40usize {
        let data: Vec<u8> = (0..len).map(|i| (i * 37 + 11) as u8).collect();
        let w = write_emem(0, &data);
        assert_eq!(w.words.len(), read_emem(0, len).num_words);
        assert_eq!(emem_bytes(&w.words, len), data);
    }
}

#[test]
fn log_header_line() {
    let data = vec![0u8; 0x364];
    let lines = log_emem_data(0, &data, true);
    assert_eq!(lines[0], "fsp:fsp: emem 00000000 <- 00000364 bytes at 00000000\n");
    assert_eq!(lines.len(), 1 + 0x364 / 16 + 1);
}

#[test]
fn log_full_line_shows_words() {
    let words: [u32; 4] = [0xc000_0000, 0x1410_de7e, 0x035c_0002, 0x15f4_0000];
    let mut data = Vec::new();
    for w in words {
        data.extend_from_slice(&w.to_le_bytes());
    }
    let lines = log_emem_data(0, &data, true);
    assert_eq!(lines[1], "emem 00000000 <- c0000000 1410de7e 035c0002 15f40000\n");
    assert_eq!(lines.len(), 2);
}

#[test]
fn log_partial_lines() {
    let cases: [(usize, &str); 6] = [
        (1, "emem 00000020 -> 00000000\n"),
        (4, "emem 00000020 -> 04030201\n"),
        (5, "emem 00000020 -> 04030201 00000000\n"),
        (8, "emem 00000020 -> 04030201 08070605\n"),
        (12, "emem 00000020 -> 04030201 08070605 0c0b0a09\n"),
        (15, "emem 00000020 -> 04030201 08070605 0c0b0a09 00000000\n"),
    ];
    for (len, want) in cases {
        let data: Vec<u8> = (1..=len as u8).collect();
        let lines = log_emem_data(0x20, &data, false);
        assert_eq!(lines.len(), 2);
        assert_eq!(lines[1], want);
    }
}

#[test]
fn log_addresses_advance() {
    let lines = log_emem_data(0x100, &[0u8; 33], false);
    assert_eq!(lines.len(), 4);
    assert!(lines[2].starts_with("emem 00000110 -> "));
    assert_eq!(lines[3], "emem 00000120 -> 00000000\n");
}

#[test]
fn log_of_nothing_is_the_header() {
    let lines = log_emem_data(0x8, &[], false);
    assert_eq!(lines, vec!["fsp:fsp: emem 00000008 -> 00000000 bytes at 00000008\n"]);
}

#[test]
fn dump_shows_first_bytes() {
    let data: Vec<u8> = (0..80u8).collect();
    let lines = dump(&data);
    assert_eq!(lines.len(), 4);
    assert_eq!(
        lines[1],
        "  0010: 10 11 12 13 14 15 16 17 18 19 1a 1b 1c 1d 1e 1f\n"
    );
    assert_eq!(
        dump(&[0xab])[0],
        "  0000: ab 00 00 00 00 00 00 00 00 00 00 00 00 00 00 00\n"
    );
    assert!(dump(&[]).is_empty());
}
