//! Little-endian integers and words, as firmware images and device messages store them.

use vstd::prelude::*;

verus! {

/// `256` to the power `n`: how many values `n` bytes can hold.
pub open spec fn pow256(n: nat) -> nat
    decreases n,
{
    if n == 0 {
        1
    } else {
        256 * pow256((n - 1) as nat)
    }
}

/// The `n` low-order bytes of `v`, least significant byte first.
pub open spec fn le_bytes(v: nat, n: nat) -> Seq<u8>
    decreases n,
{
    if n == 0 {
        Seq::empty()
    } else {
        seq![(v % 256) as u8] + le_bytes(v / 256, (n - 1) as nat)
    }
}

/// The number that the bytes `s` stand for, least significant byte first.
pub open spec fn le_value(s: Seq<u8>) -> nat
    decreases s.len(),
{
    if s.len() == 0 {
        0
    } else {
        s[0] as nat + 256 * le_value(s.drop_first())
    }
}

/// The bytes of a sequence of 32-bit words, one word after the other.
pub open spec fn words_bytes(words: Seq<u32>) -> Seq<u8>
    decreases words.len(),
{
    if words.len() == 0 {
        Seq::empty()
    } else {
        words_bytes(words.drop_last()) + le_bytes(words.last() as nat, 4)
    }
}

/// A run of `n` zero bytes.
pub open spec fn zeros(n: nat) -> Seq<u8> {
    Seq::new(n, |i: int| 0u8)
}

/// Encoding `v` on `n` bytes takes exactly `n` bytes.
pub proof fn lemma_le_bytes_len(v: nat, n: nat)
    ensures
        le_bytes(v, n).len() == n,
    decreases n,
{
    if n > 0 {
        lemma_le_bytes_len(v / 256, (n - 1) as nat);
    }
}

/// A number that fits `n` bytes is read back from its `n`-byte encoding.
pub proof fn lemma_value_of_bytes(v: nat, n: nat)
    requires
        v < pow256(n),
    ensures
        le_value(le_bytes(v, n)) == v,
    decreases n,
{
    if n > 0 {
        let rest = le_bytes(v / 256, (n - 1) as nat);
        assert(le_bytes(v, n).drop_first() =~= rest);
        assert(v / 256 < pow256((n - 1) as nat));
        lemma_value_of_bytes(v / 256, (n - 1) as nat);
    }
}

/// Encoding the number that some bytes stand for gives back those bytes.
pub proof fn lemma_bytes_of_value(s: Seq<u8>)
    ensures
        le_bytes(le_value(s), s.len()) == s,
        le_value(s) < pow256(s.len()),
    decreases s.len(),
{
    if s.len() > 0 {
        let rest = s.drop_first();
        lemma_bytes_of_value(rest);
        assert((s[0] as nat + 256 * le_value(rest)) / 256 == le_value(rest));
        assert((s[0] as nat + 256 * le_value(rest)) % 256 == s[0] as nat);
        assert(s =~= seq![s[0]] + rest);
    }
}

/// The powers that the fixed integer widths need.
pub proof fn lemma_pow256()
    ensures
        pow256(1) == 0x100,
        pow256(2) == 0x1_0000,
        pow256(4) == 0x1_0000_0000,
        pow256(8) == 0x1_0000_0000_0000_0000,
{
    reveal_with_fuel(pow256, 9);
}

/// Adding a byte at the end adds it as the most significant one.
proof fn lemma_le_value_push(s: Seq<u8>, b: u8)
    ensures
        le_value(s.push(b)) == le_value(s) + pow256(s.len()) * b,
    decreases s.len(),
{
    if s.len() == 0 {
        assert(s.push(b).drop_first() =~= Seq::<u8>::empty());
        assert(le_value(Seq::<u8>::empty()) == 0);
        assert(pow256(0) * b == b) by (nonlinear_arith)
            requires
                pow256(0) == 1,
        ;
    } else {
        let rest = s.drop_first();
        assert(s.push(b).drop_first() =~= rest.push(b));
        lemma_le_value_push(rest, b);
        assert(256 * (pow256(rest.len()) * b) == pow256(s.len()) * b) by (nonlinear_arith)
            requires
                pow256(s.len()) == 256 * pow256(rest.len()),
        ;
    }
}

/// Words take four bytes each.
pub proof fn lemma_words_bytes_len(words: Seq<u32>)
    ensures
        words_bytes(words).len() == 4 * words.len(),
    decreases words.len(),
{
    if words.len() > 0 {
        lemma_words_bytes_len(words.drop_last());
        lemma_le_bytes_len(words.last() as nat, 4);
    }
}

/// The bytes of word `i` stand at offset `4 * i`.
pub proof fn lemma_words_bytes_index(words: Seq<u32>, i: int)
    requires
        0 <= i < words.len(),
    ensures
        words_bytes(words).len() == 4 * words.len(),
        words_bytes(words).subrange(4 * i, 4 * i + 4) == le_bytes(words[i] as nat, 4),
    decreases words.len(),
{
    lemma_words_bytes_len(words);
    lemma_words_bytes_len(words.drop_last());
    lemma_le_bytes_len(words.last() as nat, 4);
    let init = words_bytes(words.drop_last());
    if i == words.len() - 1 {
        assert(words_bytes(words).subrange(4 * i, 4 * i + 4) =~= le_bytes(words[i] as nat, 4));
    } else {
        lemma_words_bytes_index(words.drop_last(), i);
        assert(words_bytes(words).subrange(4 * i, 4 * i + 4) =~= init.subrange(4 * i, 4 * i + 4));
    }
}

/// Words that hold, one by one, the numbers stored in `bytes` have `bytes` as their bytes.
pub proof fn lemma_words_of_bytes(words: Seq<u32>, bytes: Seq<u8>)
    requires
        bytes.len() == 4 * words.len(),
        forall|i: int|
            0 <= i < words.len() ==> words[i] == le_value(
                #[trigger] bytes.subrange(4 * i, 4 * i + 4),
            ),
    ensures
        words_bytes(words) == bytes,
    decreases words.len(),
{
    if words.len() > 0 {
        let n = words.len() - 1;
        let init = bytes.subrange(0, 4 * n);
        let last = bytes.subrange(4 * n, 4 * n + 4);
        assert forall|i: int| 0 <= i < n implies words.drop_last()[i] == le_value(
            #[trigger] init.subrange(4 * i, 4 * i + 4),
        ) by {
            assert(init.subrange(4 * i, 4 * i + 4) =~= bytes.subrange(4 * i, 4 * i + 4));
        }
        lemma_words_of_bytes(words.drop_last(), init);
        lemma_bytes_of_value(last);
        assert(bytes =~= init + last);
    }
}

/// Appends the `n` low-order bytes of `v` to `out`.
pub fn put_le(out: &mut Vec<u8>, v: u64, n: usize)
    ensures
        final(out)@ == old(out)@ + le_bytes(v as nat, n as nat),
{
    let mut rest: u64 = v;
    let mut done: usize = 0;
    while done < n
        invariant
            done <= n,
            old(out)@ + le_bytes(v as nat, n as nat) == out@ + le_bytes(
                rest as nat,
                (n - done) as nat,
            ),
        decreases n - done,
    {
        let ghost before = out@;
        let low: u8 = (rest % 256) as u8;
        out.push(low);
        proof {
            let tail = le_bytes((rest / 256) as nat, (n - done - 1) as nat);
            assert(le_bytes(rest as nat, (n - done) as nat) == seq![low] + tail);
            assert(before + (seq![low] + tail) =~= before.push(low) + tail);
        }
        rest = rest / 256;
        done = done + 1;
    }
    assert(out@ + Seq::<u8>::empty() =~= out@);
}

/// Reads the `n`-byte number at offset `at`.
pub fn get_le(bytes: &[u8], at: usize, n: usize) -> (v: u64)
    requires
        n <= 8,
        at + n <= bytes@.len(),
    ensures
        v == le_value(bytes@.subrange(at as int, at + n)),
        v < pow256(n as nat),
{
    let len: usize = bytes.len();
    let mut v: u64 = 0;
    let mut scale: u64 = 1;
    let mut done: usize = 0;
    while done < n
        invariant
            done <= n <= 8,
            len == bytes@.len(),
            at + n <= len,
            v == le_value(bytes@.subrange(at as int, at + done)),
            v < pow256(done as nat),
            done < n ==> scale == pow256(done as nat),
        decreases n - done,
    {
        let b: u8 = bytes[at + done];
        proof {
            reveal_with_fuel(pow256, 9);
            let s = bytes@.subrange(at as int, at + done);
            lemma_le_value_push(s, b);
            assert(bytes@.subrange(at as int, at + done + 1) =~= s.push(b));
            assert(v + scale * b < 256 * scale) by (nonlinear_arith)
                requires
                    v < scale,
                    b <= 255,
            ;
        }
        v = v + scale * (b as u64);
        done = done + 1;
        if done < n {
            scale = scale * 256;
        }
    }
    v
}

/// Reads the 32-bit number at offset `at`.
pub fn get_u32(bytes: &[u8], at: usize) -> (v: u32)
    requires
        at + 4 <= bytes@.len(),
    ensures
        v == le_value(bytes@.subrange(at as int, at + 4)),
{
    let v: u64 = get_le(bytes, at, 4);
    proof {
        lemma_pow256();
    }
    v as u32
}

/// Appends the bytes of `words` to `out`.
pub fn put_words(out: &mut Vec<u8>, words: &[u32])
    ensures
        final(out)@ == old(out)@ + words_bytes(words@),
{
    let mut i: usize = 0;
    assert(words@.subrange(0, 0) =~= Seq::<u32>::empty());
    assert(out@ =~= out@ + words_bytes(words@.subrange(0, 0)));
    while i < words.len()
        invariant
            i <= words.len(),
            out@ == old(out)@ + words_bytes(words@.subrange(0, i as int)),
        decreases words.len() - i,
    {
        let ghost seen = words@.subrange(0, i as int);
        put_le(out, words[i] as u64, 4);
        i = i + 1;
        proof {
            let more = words@.subrange(0, i as int);
            assert(more.drop_last() =~= seen);
            assert(out@ =~= old(out)@ + words_bytes(more));
        }
    }
    assert(words@.subrange(0, i as int) =~= words@);
}

/// Appends `src` to `out`.
pub fn put_slice(out: &mut Vec<u8>, src: &[u8])
    ensures
        final(out)@ == old(out)@ + src@,
{
    let mut i: usize = 0;
    assert(out@ =~= out@ + src@.subrange(0, 0));
    while i < src.len()
        invariant
            i <= src.len(),
            out@ == old(out)@ + src@.subrange(0, i as int),
        decreases src.len() - i,
    {
        out.push(src[i]);
        i = i + 1;
        assert(out@ =~= old(out)@ + src@.subrange(0, i as int));
    }
    assert(src@.subrange(0, i as int) =~= src@);
}

/// Appends `n` zero bytes to `out`.
pub fn put_zeros(out: &mut Vec<u8>, n: usize)
    ensures
        final(out)@ == old(out)@ + zeros(n as nat),
{
    let mut i: usize = 0;
    assert(out@ =~= out@ + zeros(0));
    while i < n
        invariant
            i <= n,
            out@ == old(out)@ + zeros(i as nat),
        decreases n - i,
    {
        out.push(0);
        i = i + 1;
        assert(out@ =~= old(out)@ + zeros(i as nat));
    }
}

/// The four bytes of a 32-bit number, from the ones digit to base 256 upwards.
pub proof fn law_u32_bytes(v: u32)
    ensures
        le_bytes(v as nat, 4).len() == 4,
        le_bytes(v as nat, 4)[0] == v as int % 0x100,
        le_bytes(v as nat, 4)[1] == v as int / 0x100 % 0x100,
        le_bytes(v as nat, 4)[2] == v as int / 0x1_0000 % 0x100,
        le_bytes(v as nat, 4)[3] == v as int / 0x100_0000,
{
    reveal_with_fuel(le_bytes, 5);
}

/// The eight bytes of a 64-bit number are those of its lower half, then those of its upper half.
pub proof fn law_u64_bytes(v: u64)
    ensures
        le_bytes(v as nat, 8) == le_bytes((v as int % 0x1_0000_0000) as nat, 4) + le_bytes(
            (v as int / 0x1_0000_0000) as nat,
            4,
        ),
{
    reveal_with_fuel(le_bytes, 9);
    assert(le_bytes(v as nat, 8) =~= le_bytes((v as int % 0x1_0000_0000) as nat, 4) + le_bytes(
        (v as int / 0x1_0000_0000) as nat,
        4,
    ));
}

/// The two bytes of a 16-bit number.
pub proof fn law_u16_bytes(v: u16)
    ensures
        le_bytes(v as nat, 2) == seq![(v as int % 0x100) as u8, (v as int / 0x100) as u8],
{
    reveal_with_fuel(le_bytes, 3);
    assert(le_bytes(v as nat, 2) =~= seq![(v as int % 0x100) as u8, (v as int / 0x100) as u8]);
}

/// The number that four bytes stand for.
pub proof fn law_u32_value(s: Seq<u8>)
    requires
        s.len() == 4,
    ensures
        le_value(s) == s[0] + 0x100 * s[1] + 0x1_0000 * s[2] + 0x100_0000 * s[3],
{
    reveal_with_fuel(le_value, 5);
}

/// Byte `b` of a sequence of words is byte `b % 4` of word `b / 4`.
pub proof fn law_byte_of_words(words: Seq<u32>, b: int)
    requires
        0 <= b < 4 * words.len(),
    ensures
        words_bytes(words).len() == 4 * words.len(),
        words_bytes(words)[b] == (words[b / 4] >> ((8 * (b % 4)) as u32)) as u8,
{
    let i = b / 4;
    let k = (b % 4) as u32;
    let w = words[i];
    lemma_words_bytes_index(words, i);
    law_u32_bytes(w);
    let all = words_bytes(words);
    assert(all.subrange(4 * i, 4 * i + 4)[k as int] == all[b]);
    assert((w >> ((8 * k) as u32)) as u8 == if k == 0 {
        w % 0x100
    } else if k == 1 {
        w / 0x100 % 0x100
    } else if k == 2 {
        w / 0x1_0000 % 0x100
    } else {
        w / 0x100_0000
    }) by (bit_vector)
        requires
            k < 4,
    ;
}

/// A run of zeros holds nothing but zeros.
pub proof fn law_zeros(n: nat, i: int)
    ensures
        zeros(n).len() == n,
        0 <= i < n ==> zeros(n)[i] == 0,
{
}

} // verus!
