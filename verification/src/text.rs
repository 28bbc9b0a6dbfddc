//! Text for log lines: fixed strings and hexadecimal numbers.

use vstd::prelude::*;
use vstd::string::StringExecFns;

verus! {

/// The lowercase hexadecimal digit for `d`.
pub open spec fn hex_digit(d: int) -> char {
    if d < 10 {
        (48 + d) as char
    } else {
        (87 + d) as char
    }
}

/// `v` in lowercase hexadecimal, without leading zeros (`0` is `"0"`).
pub open spec fn hex(v: nat) -> Seq<char>
    decreases v,
{
    if v < 16 {
        seq![hex_digit(v as int)]
    } else {
        hex(v / 16) + seq![hex_digit((v % 16) as int)]
    }
}

/// `v` in lowercase hexadecimal, with leading zeros up to `width` digits.
pub open spec fn hex_padded(v: nat, width: nat) -> Seq<char> {
    if hex(v).len() < width {
        Seq::new((width - hex(v).len()) as nat, |i: int| '0') + hex(v)
    } else {
        hex(v)
    }
}

/// The hexadecimal digit for `d`, as text.
fn digit_str(d: u8) -> (s: &'static str)
    requires
        d < 16,
    ensures
        s@ == seq![hex_digit(d as int)],
{
    proof {
        reveal_strlit("0");
        reveal_strlit("1");
        reveal_strlit("2");
        reveal_strlit("3");
        reveal_strlit("4");
        reveal_strlit("5");
        reveal_strlit("6");
        reveal_strlit("7");
        reveal_strlit("8");
        reveal_strlit("9");
        reveal_strlit("a");
        reveal_strlit("b");
        reveal_strlit("c");
        reveal_strlit("d");
        reveal_strlit("e");
        reveal_strlit("f");
    }
    let s: &'static str = match d {
        0 => "0",
        1 => "1",
        2 => "2",
        3 => "3",
        4 => "4",
        5 => "5",
        6 => "6",
        7 => "7",
        8 => "8",
        9 => "9",
        10 => "a",
        11 => "b",
        12 => "c",
        13 => "d",
        14 => "e",
        _ => "f",
    };
    assert(s@ =~= seq![hex_digit(d as int)]);
    s
}

/// Appends `v` in hexadecimal.
fn push_hex(out: &mut String, v: u64)
    ensures
        final(out)@ == old(out)@ + hex(v as nat),
    decreases v,
{
    if v >= 16 {
        push_hex(out, v / 16);
    }
    out.append(digit_str((v % 16) as u8));
    assert(out@ =~= old(out)@ + hex(v as nat));
}

proof fn lemma_hex_len(v: nat)
    requires
        v <= u64::MAX,
    ensures
        1 <= hex(v).len() <= 16,
{
    reveal_with_fuel(hex, 16);
}

/// How many hexadecimal digits `v` takes.
fn hex_len(v: u64) -> (n: usize)
    ensures
        n == hex(v as nat).len(),
{
    let mut rest: u64 = v;
    let mut n: usize = 1;
    proof {
        lemma_hex_len(v as nat);
    }
    while rest >= 16
        invariant
            1 <= n,
            hex(v as nat).len() <= 16,
            hex(v as nat).len() == n - 1 + hex(rest as nat).len(),
        decreases rest,
    {
        proof {
            lemma_hex_len((rest / 16) as nat);
        }
        rest = rest / 16;
        n = n + 1;
    }
    n
}

/// Appends `v` in hexadecimal with leading zeros up to `width` digits.
pub fn push_hex_padded(out: &mut String, v: u64, width: usize)
    ensures
        final(out)@ == old(out)@ + hex_padded(v as nat, width as nat),
{
    let n: usize = hex_len(v);
    let mut k: usize = n;
    let ghost pad = |m: nat| Seq::new(m, |i: int| '0');
    proof {
        reveal_strlit("0");
    }
    assert(out@ =~= old(out)@ + pad(0));
    while k < width
        invariant
            n <= k,
            n < width ==> k <= width,
            n >= width ==> k == n,
            out@ == old(out)@ + Seq::new((k - n) as nat, |i: int| '0'),
            "0"@ == seq!['0'],
        decreases width - k,
    {
        out.append("0");
        k = k + 1;
        assert(out@ =~= old(out)@ + Seq::new((k - n) as nat, |i: int| '0'));
    }
    push_hex(out, v);
    assert(out@ =~= old(out)@ + hex_padded(v as nat, width as nat));
}

/// How many bytes of a structure a dump shows.
pub const DUMP_SIZE: usize = 64;

/// Number of bytes of `len` bytes that a dump shows.
pub open spec fn dump_len(len: int) -> int {
    if len < DUMP_SIZE {
        len
    } else {
        DUMP_SIZE as int
    }
}

/// Byte `i` of the part of `bytes` that a dump shows. Beyond that part it shows zeros.
pub open spec fn dump_byte(bytes: Seq<u8>, i: int) -> nat {
    if i < dump_len(bytes.len() as int) {
        bytes[i] as nat
    } else {
        0
    }
}

/// The text for `n` bytes from byte `from` on.
pub open spec fn dump_bytes(bytes: Seq<u8>, from: int, n: nat) -> Seq<char>
    decreases n,
{
    if n == 0 {
        Seq::empty()
    } else {
        dump_bytes(bytes, from, (n - 1) as nat) + " "@ + hex_padded(
            dump_byte(bytes, from + n - 1),
            2,
        )
    }
}

/// The line of a dump that starts at byte `from`: its offset and 16 bytes.
pub open spec fn dump_line(bytes: Seq<u8>, from: int) -> Seq<char> {
    "  "@ + hex_padded(from as nat, 4) + ":"@ + dump_bytes(bytes, from, 16) + "\n"@
}

/// A dump of the first bytes of a structure, in lines of 16 bytes.
pub fn dump(bytes: &[u8]) -> (lines: Vec<String>)
    ensures
        lines@.len() == (dump_len(bytes@.len() as int) + 15) / 16,
        forall|l: int|
            0 <= l < lines@.len() ==> (#[trigger] lines@[l])@ == dump_line(bytes@, 16 * l),
{
    let shown: usize = if bytes.len() < DUMP_SIZE {
        bytes.len()
    } else {
        DUMP_SIZE
    };
    let mut lines: Vec<String> = Vec::new();
    let mut from: usize = 0;
    while from < shown
        invariant
            shown == dump_len(bytes@.len() as int),
            from == 16 * lines@.len(),
            from < shown + 16,
            forall|l: int|
                0 <= l < lines@.len() ==> (#[trigger] lines@[l])@ == dump_line(bytes@, 16 * l),
        decreases shown + 16 - from,
    {
        let mut text: String = String::new();
        text.append("  ");
        push_hex_padded(&mut text, from as u64, 4);
        text.append(":");
        let ghost start = text@;
        let mut n: usize = 0;
        assert(text@ =~= start + dump_bytes(bytes@, from as int, 0));
        while n < 16
            invariant
                n <= 16,
                from < shown + 16,
                shown == dump_len(bytes@.len() as int),
                text@ == start + dump_bytes(bytes@, from as int, n as nat),
            decreases 16 - n,
        {
            let byte: u8 = if from + n < shown {
                bytes[from + n]
            } else {
                0
            };
            text.append(" ");
            push_hex_padded(&mut text, byte as u64, 2);
            n = n + 1;
            assert(text@ =~= start + dump_bytes(bytes@, from as int, n as nat));
        }
        text.append("\n");
        assert(text@ =~= dump_line(bytes@, from as int));
        lines.push(text);
        from = from + 16;
    }
    lines
}

/// The value of a hexadecimal digit.
pub open spec fn digit_value(c: char) -> int {
    if '0' <= c <= '9' {
        c as int - '0' as int
    } else {
        c as int - 'a' as int + 10
    }
}

/// The number that hexadecimal digits stand for.
pub open spec fn hex_value(s: Seq<char>) -> int
    decreases s.len(),
{
    if s.len() == 0 {
        0
    } else {
        16 * hex_value(s.drop_last()) + digit_value(s.last())
    }
}

/// Whether `c` is a lowercase hexadecimal digit.
pub open spec fn is_hex_digit(c: char) -> bool {
    ('0' <= c <= '9') || ('a' <= c <= 'f')
}

/// A number is read back from its hexadecimal digits, which are lowercase and do not start with a
/// zero, unless they are a single one.
pub proof fn law_hex_is_read_back(v: nat)
    ensures
        hex_value(hex(v)) == v,
        hex(v).len() >= 1,
        forall|i: int| 0 <= i < hex(v).len() ==> is_hex_digit(#[trigger] hex(v)[i]),
        hex(v).len() > 1 ==> hex(v)[0] != '0',
        hex(v)[0] == '0' ==> v == 0,
    decreases v,
{
    let last = seq![hex_digit((v % 16) as int)];
    if v < 16 {
        assert(hex(v).drop_last() =~= Seq::<char>::empty());
        assert(hex_value(Seq::<char>::empty()) == 0);
    } else {
        law_hex_is_read_back(v / 16);
        assert(hex(v).drop_last() =~= hex(v / 16));
        assert(hex(v)[0] == hex(v / 16)[0]);
    }
}

proof fn lemma_leading_zeros(n: nat, s: Seq<char>)
    ensures
        hex_value(Seq::new(n, |i: int| '0') + s) == hex_value(s),
    decreases s.len(), n,
{
    let pad = Seq::new(n, |i: int| '0');
    if s.len() > 0 {
        lemma_leading_zeros(n, s.drop_last());
        assert((pad + s).drop_last() =~= pad + s.drop_last());
    } else if n > 0 {
        let fewer = Seq::new((n - 1) as nat, |i: int| '0');
        lemma_leading_zeros((n - 1) as nat, s);
        assert((pad + s).drop_last() =~= fewer + s);
    } else {
        assert(pad + s =~= s);
    }
}

/// Padding changes neither the number nor the kind of the digits. There are as many of them as asked
/// for, or more if the number needs more.
pub proof fn law_padded_hex_is_read_back(v: nat, width: nat)
    ensures
        hex_value(hex_padded(v, width)) == v,
        hex_padded(v, width).len() >= width,
        hex_padded(v, width).len() == width || hex_padded(v, width) == hex(v),
        forall|i: int|
            0 <= i < hex_padded(v, width).len() ==> is_hex_digit(
                #[trigger] hex_padded(v, width)[i],
            ),
{
    law_hex_is_read_back(v);
    if hex(v).len() < width {
        lemma_leading_zeros((width - hex(v).len()) as nat, hex(v));
        let p = hex_padded(v, width);
        let n = width - hex(v).len();
        assert forall|i: int| 0 <= i < p.len() implies is_hex_digit(#[trigger] p[i]) by {
            if i >= n {
                assert(p[i] == hex(v)[i - n]);
            }
        }
    }
}

/// A 32-bit number padded to 8 digits has 8 digits, one below 0x10000 padded to 4 digits has 4, and a
/// byte padded to 2 digits has 2.
pub proof fn law_padded_hex_width(v: nat)
    ensures
        v <= u32::MAX ==> hex_padded(v, 8).len() == 8,
        v <= 0xffff ==> hex_padded(v, 4).len() == 4,
        v <= 0xff ==> hex_padded(v, 2).len() == 2,
{
    reveal_with_fuel(hex, 8);
}

proof fn lemma_dump_bytes(bytes: Seq<u8>, from: int, n: nat, k: int)
    requires
        0 <= from,
    ensures
        dump_bytes(bytes, from, n).len() == 3 * n,
        0 <= k < n ==> dump_bytes(bytes, from, n).subrange(3 * k + 1, 3 * k + 3) == hex_padded(
            dump_byte(bytes, from + k),
            2,
        ),
    decreases n,
{
    reveal_strlit(" ");
    if n > 0 {
        let init = dump_bytes(bytes, from, (n - 1) as nat);
        lemma_dump_bytes(bytes, from, (n - 1) as nat, k);
        law_padded_hex_width(dump_byte(bytes, from + n - 1));
        let all = dump_bytes(bytes, from, n);
        if k == n - 1 {
            assert(all.subrange(3 * k + 1, 3 * k + 3) =~= hex_padded(
                dump_byte(bytes, from + k),
                2,
            ));
        } else if 0 <= k < n - 1 {
            assert(all.subrange(3 * k + 1, 3 * k + 3) =~= init.subrange(3 * k + 1, 3 * k + 3));
        }
    }
}

/// What a line of a dump shows: its offset in four digits, and sixteen bytes in two digits each, of
/// which those beyond the first 64 bytes or the end of the structure are zero.
pub proof fn law_dump_line_shows_bytes(bytes: Seq<u8>, from: int, k: int)
    requires
        0 <= from <= 0xffff,
        0 <= k < 16,
    ensures
        ({
            let line = dump_line(bytes, from);
            &&& line.len() == 56
            &&& hex_value(line.subrange(2, 6)) == from
            &&& hex_value(line.subrange(8 + 3 * k, 10 + 3 * k)) == if from + k < 64 && from + k
                < bytes.len() {
                bytes[from + k] as int
            } else {
                0
            }
        }),
{
    reveal_strlit("  ");
    reveal_strlit(":");
    reveal_strlit("\n");
    let line = dump_line(bytes, from);
    law_padded_hex_width(from as nat);
    law_padded_hex_is_read_back(from as nat, 4);
    lemma_dump_bytes(bytes, from, 16, k);
    law_padded_hex_is_read_back(dump_byte(bytes, from + k), 2);
    assert(line.subrange(2, 6) =~= hex_padded(from as nat, 4));
    assert(line.subrange(8 + 3 * k, 10 + 3 * k) =~= dump_bytes(bytes, from, 16).subrange(
        3 * k + 1,
        3 * k + 3,
    ));
}

/// How much of a structure a dump shows: all of it, but no more than 64 bytes.
pub proof fn law_dump_len(len: int)
    requires
        0 <= len,
    ensures
        dump_len(len) <= len,
        dump_len(len) <= 64,
        dump_len(len) == len || dump_len(len) == 64,
{
}

} // verus!
