//! External memory (EMEM) of the FSP falcon, reached word by word through a control and a data
//! register.

use vstd::prelude::*;
use vstd::string::StringExecFns;

use crate::text::{
    hex_padded, hex_value, law_padded_hex_is_read_back, law_padded_hex_width, push_hex_padded,
};
use crate::wire::{
    get_le, get_u32, law_byte_of_words, law_u32_value, le_bytes, le_value, lemma_bytes_of_value,
    lemma_le_bytes_len, lemma_pow256, lemma_words_bytes_index, lemma_words_bytes_len, pow256,
    put_le, words_bytes,
};

verus! {

/// Base address of the FSP falcon registers.
pub const BASE: usize = 0x8f2000;

/// Bit of the control register that starts a write.
pub const EMEM_CTL_WRITE: u32 = 0x0100_0000;

/// Bit of the control register that starts a read.
pub const EMEM_CTL_READ: u32 = 0x0200_0000;

/// Number of chunks of `size` bytes that `len` bytes make, the last one possibly short.
pub open spec fn chunk_count(len: int, size: int) -> int {
    (len + size - 1) / size
}

/// Where chunk `i` of a buffer of `len` bytes ends, with chunks of `size` bytes.
pub open spec fn chunk_end(len: int, size: int, i: int) -> int {
    if size * (i + 1) <= len {
        size * (i + 1)
    } else {
        len
    }
}

/// Chunk `i` of `data`, with chunks of `size` bytes.
pub open spec fn chunk(data: Seq<u8>, size: int, i: int) -> Seq<u8> {
    data.subrange(size * i, chunk_end(data.len() as int, size, i))
}

/// The words that `data` makes: four bytes each, least significant byte first. The last word is
/// completed with zeros.
pub open spec fn emem_words(data: Seq<u8>) -> Seq<u32> {
    Seq::new(
        chunk_count(data.len() as int, 4) as nat,
        |i: int| le_value(chunk(data, 4, i)) as u32,
    )
}

/// A write to EMEM: the value for the control register, then the words for the data register.
#[derive(Debug)]
pub struct EmemWrite {
    pub ctl: u32,
    pub words: Vec<u32>,
}

/// A read from EMEM: the value for the control register, then how many words to take from the
/// data register.
#[derive(Debug, Clone, Copy, PartialEq, Eq, Structural)]
pub struct EmemRead {
    pub ctl: u32,
    pub num_words: usize,
}

proof fn lemma_chunk_value(data: Seq<u8>, i: int)
    requires
        0 <= i < chunk_count(data.len() as int, 4),
    ensures
        chunk(data, 4, i).len() <= 4,
        le_value(chunk(data, 4, i)) <= u32::MAX,
        4 * i + 4 <= data.len() ==> chunk(data, 4, i).len() == 4,
{
    let c = chunk(data, 4, i);
    lemma_bytes_of_value(c);
    lemma_pow256();
    reveal_with_fuel(pow256, 5);
}

/// Prepares the write of `data` to EMEM at byte offset `offset`.
pub fn write_emem(offset: u32, data: &[u8]) -> (w: EmemWrite)
    ensures
        w.ctl == (0x0100_0000u32 | offset),
        w.words@ == emem_words(data@),
{
    let mut words: Vec<u32> = Vec::new();
    let len: usize = data.len();
    let mut pos: usize = 0;
    let ghost mut done: int = 0;
    while pos < len
        invariant
            len == data@.len(),
            done == words@.len(),
            pos == if 4 * done <= len { 4 * done } else { len as int },
            0 <= done <= chunk_count(len as int, 4),
            words@ == emem_words(data@).subrange(0, done),
        decreases len - pos,
    {
        let n: usize = if len - pos >= 4 {
            4
        } else {
            len - pos
        };
        let v: u64 = get_le(data, pos, n);
        proof {
            lemma_chunk_value(data@, done);
            assert(data@.subrange(pos as int, pos + n) =~= chunk(data@, 4, done));
        }
        words.push(v as u32);
        pos = pos + n;
        proof {
            done = done + 1;
            assert(words@ =~= emem_words(data@).subrange(0, done));
        }
    }
    assert(words@ =~= emem_words(data@));
    EmemWrite { ctl: EMEM_CTL_WRITE | offset, words }
}

/// Prepares the read of `len` bytes from EMEM at byte offset `offset`.
pub fn read_emem(offset: u32, len: usize) -> (r: EmemRead)
    ensures
        r.ctl == (0x0200_0000u32 | offset),
        r.num_words == chunk_count(len as int, 4),
{
    let num_words: usize = if len % 4 == 0 {
        len / 4
    } else {
        len / 4 + 1
    };
    EmemRead { ctl: EMEM_CTL_READ | offset, num_words }
}

/// The `len` bytes that `words`, read from EMEM, stand for. The excess bytes of the last word are
/// dropped.
pub fn emem_bytes(words: &[u32], len: usize) -> (data: Vec<u8>)
    requires
        words@.len() == chunk_count(len as int, 4),
    ensures
        data@ == words_bytes(words@).subrange(0, len as int),
{
    let mut data: Vec<u8> = Vec::new();
    let mut i: usize = 0;
    proof {
        lemma_words_bytes_len(words@);
    }
    assert(data@ =~= words_bytes(words@).subrange(0, 0));
    while i < words.len()
        invariant
            i <= words@.len(),
            words@.len() == chunk_count(len as int, 4),
            words_bytes(words@).len() == 4 * words@.len(),
            data@.len() == if 4 * i <= len { 4 * i } else { len as int },
            data@ == words_bytes(words@).subrange(0, data@.len() as int),
        decreases words.len() - i,
    {
        let ghost before = data@;
        let n: usize = if len - data.len() >= 4 {
            4
        } else {
            len - data.len()
        };
        put_le(&mut data, words[i] as u64, n);
        proof {
            let all = words_bytes(words@);
            lemma_words_bytes_index(words@, i as int);
            lemma_le_bytes_prefix(words@[i as int] as nat, n as nat, 4);
            lemma_le_bytes_len(words@[i as int] as nat, n as nat);
            assert(all.subrange(4 * i as int, 4 * i + 4).subrange(0, n as int) =~= all.subrange(
                4 * i as int,
                4 * i + n,
            ));
            assert(data@ =~= all.subrange(0, data@.len() as int));
        }
        i = i + 1;
    }
    data
}

proof fn lemma_le_bytes_prefix(v: nat, n: nat, m: nat)
    requires
        n <= m,
    ensures
        le_bytes(v, n) == le_bytes(v, m).subrange(0, n as int),
    decreases n,
{
    lemma_le_bytes_len(v, n);
    lemma_le_bytes_len(v, m);
    if n > 0 {
        lemma_le_bytes_prefix(v / 256, (n - 1) as nat, (m - 1) as nat);
        lemma_le_bytes_len(v / 256, (n - 1) as nat);
        lemma_le_bytes_len(v / 256, (m - 1) as nat);
        let long = le_bytes(v / 256, (m - 1) as nat);
        assert(le_bytes(v, m) == seq![(v % 256) as u8] + long);
        assert(le_bytes(v, m).subrange(0, n as int) =~= seq![(v % 256) as u8] + long.subrange(
            0,
            n - 1,
        ));
    } else {
        assert(le_bytes(v, 0) =~= le_bytes(v, m).subrange(0, 0));
    }
}

/// Reading back, byte by byte, the words that were written for `data` gives `data`.
pub proof fn law_emem_round_trip(data: Seq<u8>)
    ensures
        emem_words(data).len() == chunk_count(data.len() as int, 4),
        words_bytes(emem_words(data)).subrange(0, data.len() as int) == data,
{
    let words = emem_words(data);
    let all = words_bytes(words);
    lemma_words_bytes_len(words);
    assert forall|j: int| 0 <= j < data.len() implies all[j] == data[j] by {
        let i = j / 4;
        let c = chunk(data, 4, i);
        lemma_chunk_value(data, i);
        lemma_words_bytes_index(words, i);
        lemma_bytes_of_value(c);
        lemma_le_bytes_prefix(le_value(c), c.len(), 4);
        assert(all[j] == all.subrange(4 * i, 4 * i + 4)[j - 4 * i]);
        assert(c[j - 4 * i] == le_bytes(le_value(c), 4)[j - 4 * i]);
    }
    assert(all.subrange(0, data.len() as int) =~= data);
}

/// The arrow that a log line shows: towards the FSP for a write, from it for a read.
pub open spec fn log_direction(is_write: bool) -> Seq<char> {
    if is_write {
        "<-"@
    } else {
        "->"@
    }
}

/// Address that log line `l` shows.
pub open spec fn log_addr(offset: u32, l: int) -> int {
    offset + (16 * l) % 0x1_0000_0000
}

/// Word `k` of a log line for the bytes `line`. A word of which bytes are missing shows as zero.
pub open spec fn log_word(line: Seq<u8>, k: int) -> nat {
    if 4 * k + 4 <= line.len() {
        le_value(line.subrange(4 * k, 4 * k + 4))
    } else {
        0
    }
}

/// The text for the first `n` words of a log line.
pub open spec fn log_words(line: Seq<u8>, n: nat) -> Seq<char>
    decreases n,
{
    if n == 0 {
        Seq::empty()
    } else {
        log_words(line, (n - 1) as nat) + " "@ + hex_padded(log_word(line, n - 1), 8)
    }
}

/// The log line that announces a transfer of `len` bytes.
pub open spec fn log_header(offset: u32, len: nat, is_write: bool) -> Seq<char> {
    "fsp:fsp: emem "@ + hex_padded(offset as nat, 8) + " "@ + log_direction(is_write) + " "@
        + hex_padded(len, 8) + " bytes at "@ + hex_padded(offset as nat, 8) + "\n"@
}

/// The log line for the bytes `line` at address `addr`.
pub open spec fn log_line(addr: int, line: Seq<u8>, is_write: bool) -> Seq<char> {
    "emem "@ + hex_padded(addr as nat, 8) + " "@ + log_direction(is_write) + log_words(
        line,
        chunk_count(line.len() as int, 4) as nat,
    ) + "\n"@
}

fn direction(is_write: bool) -> (s: &'static str)
    ensures
        s@ == log_direction(is_write),
{
    if is_write {
        "<-"
    } else {
        "->"
    }
}

/// The log lines for a transfer of `data` at `offset`: one that announces it, then one for every
/// 16 bytes, shown as 32-bit words.
pub fn log_emem_data(offset: u32, data: &[u8], is_write: bool) -> (lines: Vec<String>)
    requires
        forall|l: int|
            0 <= l < chunk_count(data@.len() as int, 16) ==> #[trigger] log_addr(offset, l)
                <= u32::MAX,
    ensures
        lines@.len() == 1 + chunk_count(data@.len() as int, 16),
        lines@[0]@ == log_header(offset, data@.len(), is_write),
        forall|l: int|
            0 <= l < chunk_count(data@.len() as int, 16) ==> (#[trigger] lines@[l + 1])@
                == log_line(log_addr(offset, l), chunk(data@, 16, l), is_write),
{
    let len: usize = data.len();
    let mut lines: Vec<String> = Vec::new();
    let mut text: String = String::new();
    text.append("fsp:fsp: emem ");
    push_hex_padded(&mut text, offset as u64, 8);
    text.append(" ");
    text.append(direction(is_write));
    text.append(" ");
    push_hex_padded(&mut text, len as u64, 8);
    text.append(" bytes at ");
    push_hex_padded(&mut text, offset as u64, 8);
    text.append("\n");
    assert(text@ =~= log_header(offset, data@.len(), is_write));
    lines.push(text);
    let mut pos: usize = 0;
    let ghost mut done: int = 0;
    while pos < len
        invariant
            len == data@.len(),
            forall|l: int|
                0 <= l < chunk_count(len as int, 16) ==> #[trigger] log_addr(offset, l)
                    <= u32::MAX,
            0 <= done <= chunk_count(len as int, 16),
            pos == if 16 * done <= len { 16 * done } else { len as int },
            lines@.len() == 1 + done,
            lines@[0]@ == log_header(offset, len as nat, is_write),
            forall|l: int|
                0 <= l < done ==> (#[trigger] lines@[l + 1])@ == log_line(
                    log_addr(offset, l),
                    chunk(data@, 16, l),
                    is_write,
                ),
        decreases len - pos,
    {
        let n: usize = if len - pos >= 16 {
            16
        } else {
            len - pos
        };
        assert(log_addr(offset, done) <= u32::MAX);
        let addr: u32 = offset + ((pos as u64) % 0x1_0000_0000) as u32;
        let bytes: &[u8] = &data[pos..pos + n];
        assert(bytes@ == chunk(data@, 16, done));
        lines.push(log_emem_line(addr, bytes, is_write));
        pos = pos + n;
        proof {
            done = done + 1;
        }
    }
    lines
}

fn log_emem_line(addr: u32, line: &[u8], is_write: bool) -> (text: String)
    ensures
        text@ == log_line(addr as int, line@, is_write),
{
    let mut text: String = String::new();
    text.append("emem ");
    push_hex_padded(&mut text, addr as u64, 8);
    text.append(" ");
    text.append(direction(is_write));
    let ghost start = text@;
    let len: usize = line.len();
    let mut pos: usize = 0;
    let ghost mut done: nat = 0;
    assert(text@ =~= start + log_words(line@, 0));
    while pos < len
        invariant
            len == line@.len(),
            done <= chunk_count(len as int, 4),
            pos == if 4 * done <= len { 4 * done } else { len as nat },
            text@ == start + log_words(line@, done),
        decreases len - pos,
    {
        let whole: bool = len - pos >= 4;
        let word: u32 = if whole {
            get_u32(line, pos)
        } else {
            0
        };
        assert(word == log_word(line@, done as int));
        text.append(" ");
        push_hex_padded(&mut text, word as u64, 8);
        pos = if whole {
            pos + 4
        } else {
            len
        };
        proof {
            done = done + 1;
            assert(text@ =~= start + log_words(line@, done));
        }
    }
    text.append("\n");
    text
}

/// A buffer is cut into chunks of one size, of which only the last may be short and none is empty;
/// byte `j` of chunk `i` is byte `size * i + j` of the buffer.
pub proof fn law_chunks(data: Seq<u8>, size: int, i: int)
    requires
        size == 4 || size == 16,
        0 <= i < chunk_count(data.len() as int, size),
    ensures
        0 < chunk(data, size, i).len() <= size,
        i + 1 < chunk_count(data.len() as int, size) ==> chunk(data, size, i).len() == size,
        i + 1 == chunk_count(data.len() as int, size) ==> size * i + chunk(data, size, i).len()
            == data.len(),
        forall|j: int|
            0 <= j < chunk(data, size, i).len() ==> #[trigger] chunk(data, size, i)[j] == data[size
                * i + j],
{
    let len = data.len() as int;
    if size == 4 {
        assert(chunk_count(len, size) == (len + 3) / 4);
        assert(size * i == 4 * i && size * (i + 1) == 4 * i + 4);
    } else {
        assert(chunk_count(len, size) == (len + 15) / 16);
        assert(size * i == 16 * i && size * (i + 1) == 16 * i + 16);
    }
}

/// The words for `data`: byte `b` of the data is byte `b % 4` of word `b / 4`, and the bytes of the
/// last word behind the data are zero.
pub proof fn law_emem_word_bytes(data: Seq<u8>, b: int)
    requires
        0 <= b < 4 * emem_words(data).len(),
    ensures
        4 * emem_words(data).len() < data.len() + 4,
        4 * emem_words(data).len() >= data.len(),
        (emem_words(data)[b / 4] >> ((8 * (b % 4)) as u32)) as u8 == if b < data.len() {
            data[b]
        } else {
            0
        },
{
    let words = emem_words(data);
    let i = b / 4;
    law_emem_round_trip(data);
    law_byte_of_words(words, b);
    let all = words_bytes(words);
    if b < data.len() {
        assert(all.subrange(0, data.len() as int)[b] == data[b]);
    } else {
        let c = chunk(data, 4, i);
        let v = le_value(c);
        lemma_chunk_value(data, i);
        lemma_bytes_of_value(c);
        lemma_words_bytes_index(words, i);
        reveal_with_fuel(pow256, 5);
        reveal_with_fuel(le_bytes, 5);
        let k = b - 4 * i;
        assert(c.len() <= k);
        assert(all[b] == all.subrange(4 * i, 4 * i + 4)[k]);
        assert(le_bytes(v, 4)[k] == 0);
    }
}

proof fn lemma_log_words(line: Seq<u8>, n: nat, k: int)
    requires
        line.len() <= 16,
    ensures
        log_words(line, n).len() == 9 * n,
        0 <= k < n ==> log_words(line, n).subrange(9 * k + 1, 9 * k + 9) == hex_padded(
            log_word(line, k),
            8,
        ),
    decreases n,
{
    reveal_strlit(" ");
    if n > 0 {
        let init = log_words(line, (n - 1) as nat);
        lemma_log_words(line, (n - 1) as nat, k);
        if 4 * (n - 1) + 4 <= line.len() {
            law_u32_value(line.subrange(4 * (n - 1), 4 * (n - 1) + 4));
        }
        law_padded_hex_width(log_word(line, n - 1));
        let all = log_words(line, n);
        if k == n - 1 {
            assert(all.subrange(9 * k + 1, 9 * k + 9) =~= hex_padded(log_word(line, k), 8));
        } else if 0 <= k < n - 1 {
            assert(all.subrange(9 * k + 1, 9 * k + 9) =~= init.subrange(9 * k + 1, 9 * k + 9));
        }
    }
}

/// The text in front of the words of a log line.
proof fn lemma_log_line_start(addr: int, is_write: bool)
    requires
        0 <= addr <= u32::MAX,
    ensures
        ({
            let head = "emem "@ + hex_padded(addr as nat, 8) + " "@ + log_direction(is_write);
            &&& head.len() == 16
            &&& head.subrange(0, 5) == "emem "@
            &&& hex_value(head.subrange(5, 13)) == addr
            &&& head.subrange(14, 16) == log_direction(is_write)
        }),
{
    reveal_strlit("emem ");
    reveal_strlit(" ");
    reveal_strlit("<-");
    reveal_strlit("->");
    let head = "emem "@ + hex_padded(addr as nat, 8) + " "@ + log_direction(is_write);
    law_padded_hex_width(addr as nat);
    law_padded_hex_is_read_back(addr as nat, 8);
    assert(head.subrange(0, 5) =~= "emem "@);
    assert(head.subrange(5, 13) =~= hex_padded(addr as nat, 8));
    assert(head.subrange(14, 16) =~= log_direction(is_write));
}

/// What a log line shows: its address, the direction, and a word for every four bytes begun, from
/// its bytes if all four are there and zero otherwise.
pub proof fn law_log_line_shows_words(addr: int, line: Seq<u8>, is_write: bool, k: int)
    requires
        0 <= addr <= u32::MAX,
        line.len() <= 16,
        0 <= k,
        4 * k < line.len(),
    ensures
        ({
            let text = log_line(addr, line, is_write);
            &&& text.len() == 17 + 9 * ((line.len() + 3) / 4)
            &&& text.subrange(0, 5) == "emem "@
            &&& hex_value(text.subrange(5, 13)) == addr
            &&& text.subrange(14, 16) == if is_write {
                "<-"@
            } else {
                "->"@
            }
            &&& hex_value(text.subrange(17 + 9 * k, 25 + 9 * k)) == if 4 * k + 4 <= line.len() {
                line[4 * k] + 0x100 * line[4 * k + 1] + 0x1_0000 * line[4 * k + 2] + 0x100_0000
                    * line[4 * k + 3]
            } else {
                0
            }
        }),
{
    reveal_strlit("\n");
    let n = chunk_count(line.len() as int, 4) as nat;
    let head = "emem "@ + hex_padded(addr as nat, 8) + " "@ + log_direction(is_write);
    let words = log_words(line, n);
    let text = log_line(addr, line, is_write);
    lemma_log_line_start(addr, is_write);
    lemma_log_words(line, n, k);
    assert(text == head + words + "\n"@);
    assert(text.subrange(0, 5) =~= head.subrange(0, 5));
    assert(text.subrange(5, 13) =~= head.subrange(5, 13));
    assert(text.subrange(14, 16) =~= head.subrange(14, 16));
    assert(text.subrange(17 + 9 * k, 25 + 9 * k) =~= words.subrange(9 * k + 1, 9 * k + 9));
    law_padded_hex_is_read_back(log_word(line, k), 8);
    if 4 * k + 4 <= line.len() {
        law_u32_value(line.subrange(4 * k, 4 * k + 4));
    }
}

/// What the first log line shows: the offset, the direction, the size, and the offset again.
pub proof fn law_log_header_shows_transfer(offset: u32, len: nat, is_write: bool)
    requires
        len <= u32::MAX,
    ensures
        ({
            let text = log_header(offset, len, is_write);
            &&& text.len() == 53
            &&& text.subrange(0, 14) == "fsp:fsp: emem "@
            &&& hex_value(text.subrange(14, 22)) == offset
            &&& text.subrange(23, 25) == if is_write {
                "<-"@
            } else {
                "->"@
            }
            &&& hex_value(text.subrange(26, 34)) == len
            &&& text.subrange(34, 44) == " bytes at "@
            &&& hex_value(text.subrange(44, 52)) == offset
        }),
{
    reveal_strlit("fsp:fsp: emem ");
    reveal_strlit(" ");
    reveal_strlit("<-");
    reveal_strlit("->");
    reveal_strlit(" bytes at ");
    reveal_strlit("\n");
    let text = log_header(offset, len, is_write);
    law_padded_hex_width(offset as nat);
    law_padded_hex_is_read_back(offset as nat, 8);
    law_padded_hex_width(len);
    law_padded_hex_is_read_back(len, 8);
    assert(text.subrange(0, 14) =~= "fsp:fsp: emem "@);
    assert(text.subrange(14, 22) =~= hex_padded(offset as nat, 8));
    assert(text.subrange(23, 25) =~= log_direction(is_write));
    assert(text.subrange(26, 34) =~= hex_padded(len, 8));
    assert(text.subrange(34, 44) =~= " bytes at "@);
    assert(text.subrange(44, 52) =~= hex_padded(offset as nat, 8));
}

/// Each log line shows an address 16 bytes above that of the line before.
pub proof fn law_log_addresses(offset: u32, l: int)
    requires
        0 <= l < 0xfff_ffff,
    ensures
        log_addr(offset, 0) == offset,
        log_addr(offset, l + 1) == log_addr(offset, l) + 16,
{
}

/// There are just as many chunks as it takes to cover a buffer, and just as many words.
pub proof fn law_chunks_cover(data: Seq<u8>)
    ensures
        data.len() <= 4 * chunk_count(data.len() as int, 4) < data.len() + 4,
        data.len() <= 16 * chunk_count(data.len() as int, 16) < data.len() + 16,
        data.len() <= 4 * emem_words(data).len() < data.len() + 4,
{
}

} // verus!
