//! RFC 1321 MD5, used to sign Baidu translation requests.

use vstd::prelude::*;

use crate::text::push_char;

verus! {

/// Per-step left-rotation amounts (RFC 1321, section 3.4).
pub open spec fn md5_s_table() -> Seq<u32> {
    seq![
        7u32, 12, 17, 22, 7, 12, 17, 22, 7, 12, 17, 22, 7, 12, 17, 22,
        5, 9, 14, 20, 5, 9, 14, 20, 5, 9, 14, 20, 5, 9, 14, 20,
        4, 11, 16, 23, 4, 11, 16, 23, 4, 11, 16, 23, 4, 11, 16, 23,
        6, 10, 15, 21, 6, 10, 15, 21, 6, 10, 15, 21, 6, 10, 15, 21,
    ]
}

/// Per-step additive constants T[i] = floor(2^32 * |sin(i + 1)|) (RFC 1321, section 3.4).
pub open spec fn md5_k_table() -> Seq<u32> {
    seq![
        0xd76aa478u32, 0xe8c7b756, 0x242070db, 0xc1bdceee, 0xf57c0faf, 0x4787c62a, 0xa8304613, 0xfd469501,
        0x698098d8, 0x8b44f7af, 0xffff5bb1, 0x895cd7be, 0x6b901122, 0xfd987193, 0xa679438e, 0x49b40821,
        0xf61e2562, 0xc040b340, 0x265e5a51, 0xe9b6c7aa, 0xd62f105d, 0x02441453, 0xd8a1e681, 0xe7d3fbc8,
        0x21e1cde6, 0xc33707d6, 0xf4d50d87, 0x455a14ed, 0xa9e3e905, 0xfcefa3f8, 0x676f02d9, 0x8d2a4c8a,
        0xfffa3942, 0x8771f681, 0x6d9d6122, 0xfde5380c, 0xa4beea44, 0x4bdecfa9, 0xf6bb4b60, 0xbebfbc70,
        0x289b7ec6, 0xeaa127fa, 0xd4ef3085, 0x04881d05, 0xd9d4d039, 0xe6db99e5, 0x1fa27cf8, 0xc4ac5665,
        0xf4292244, 0x432aff97, 0xab9423a7, 0xfc93a039, 0x655b59c3, 0x8f0ccc92, 0xffeff47d, 0x85845dd1,
        0x6fa87e4f, 0xfe2ce6e0, 0xa3014314, 0x4e0811a1, 0xf7537e82, 0xbd3af235, 0x2ad7d2bb, 0xeb86d391,
    ]
}

/// The four-word chaining state (A, B, C, D).
pub type Md5State = (u32, u32, u32, u32);

/// Initial chaining state (RFC 1321, section 3.3).
pub open spec fn md5_init() -> Md5State {
    (0x67452301u32, 0xefcdab89u32, 0x98badcfeu32, 0x10325476u32)
}

/// Number of zero bytes appended after the 0x80 byte so that the padded
/// length is 56 modulo 64.
pub open spec fn md5_zero_pad(len: nat) -> nat {
    let r = (len + 1) % 64;
    if r <= 56 { (56 - r) as nat } else { (120 - r) as nat }
}

/// Little-endian bytes of a 64-bit word.
pub open spec fn le64(x: u64) -> Seq<u8> {
    Seq::new(8, |i: int| ((x >> (8 * i) as u64) & 0xff) as u8)
}

/// Little-endian bytes of a 32-bit word.
pub open spec fn le32(x: u32) -> Seq<u8> {
    seq![(x & 0xff) as u8, ((x >> 8u32) & 0xff) as u8, ((x >> 16u32) & 0xff) as u8, ((x >> 24u32) & 0xff) as u8]
}

/// The message after padding: the input, a 0x80 byte, zero bytes, and the
/// input's bit length modulo 2^64 as a little-endian 64-bit word (RFC 1321,
/// sections 3.1-3.2).
pub open spec fn md5_padded(msg: Seq<u8>) -> Seq<u8> {
    msg + seq![0x80u8] + Seq::new(md5_zero_pad(msg.len()), |i: int| 0u8) + le64(((msg.len() * 8) % 0x1_0000_0000_0000_0000) as u64)
}

/// The little-endian word that starts at byte `4 * j` of `block`.
pub open spec fn md5_word(block: Seq<u8>, j: int) -> u32 {
    (block[4 * j] as u32) | ((block[4 * j + 1] as u32) << 8u32) | ((block[4 * j + 2] as u32) << 16u32) | ((block[4 * j + 3] as u32) << 24u32)
}

/// The sixteen words of a 64-byte block.
pub open spec fn md5_words(block: Seq<u8>) -> Seq<u32> {
    Seq::new(16, |j: int| md5_word(block, j))
}

/// The auxiliary function of step `i` (F, G, H or I).
pub open spec fn md5_f(i: int, b: u32, c: u32, d: u32) -> u32 {
    if i < 16 {
        (b & c) | ((!b) & d)
    } else if i < 32 {
        (d & b) | ((!d) & c)
    } else if i < 48 {
        b ^ c ^ d
    } else {
        c ^ (b | (!d))
    }
}

/// Which message word step `i` reads.
pub open spec fn md5_g(i: int) -> int {
    if i < 16 {
        i
    } else if i < 32 {
        (5 * i + 1) % 16
    } else if i < 48 {
        (3 * i + 5) % 16
    } else {
        (7 * i) % 16
    }
}

/// Left rotation of a 32-bit word by `s` bits, for `0 < s < 32`.
pub open spec fn rotl32(x: u32, s: u32) -> u32 {
    (x << s) | (x >> (32 - s) as u32)
}

/// One of the 64 steps of a block.
pub open spec fn md5_step(st: Md5State, m: Seq<u32>, i: int) -> Md5State {
    let (a, b, c, d) = st;
    let f = md5_f(i, b, c, d);
    let sum = a.wrapping_add(f).wrapping_add(md5_k_table()[i]).wrapping_add(m[md5_g(i)]);
    (d, b.wrapping_add(rotl32(sum, md5_s_table()[i])), b, c)
}

/// The state after the first `n` steps of a block.
pub open spec fn md5_steps(st: Md5State, m: Seq<u32>, n: nat) -> Md5State
    decreases n,
{
    if n == 0 {
        st
    } else {
        md5_step(md5_steps(st, m, (n - 1) as nat), m, n - 1)
    }
}

/// The chaining state after one 64-byte block.
pub open spec fn md5_block(st: Md5State, block: Seq<u8>) -> Md5State {
    let r = md5_steps(st, md5_words(block), 64);
    (st.0.wrapping_add(r.0), st.1.wrapping_add(r.1), st.2.wrapping_add(r.2), st.3.wrapping_add(r.3))
}

/// The chaining state after the first `n` blocks of `msg`.
pub open spec fn md5_blocks(msg: Seq<u8>, n: nat) -> Md5State
    decreases n,
{
    if n == 0 {
        md5_init()
    } else {
        md5_block(md5_blocks(msg, (n - 1) as nat), msg.subrange(64 * (n - 1), 64 * (n as int)))
    }
}

/// The 16-byte MD5 digest of `msg`.
pub open spec fn md5_digest(msg: Seq<u8>) -> Seq<u8> {
    let p = md5_padded(msg);
    let st = md5_blocks(p, p.len() / 64);
    le32(st.0) + le32(st.1) + le32(st.2) + le32(st.3)
}

/// Lower-case hexadecimal digit of a nibble.
pub open spec fn hex_digit(n: u8) -> char {
    if n < 10 {
        ((n + 48) as u8) as char
    } else {
        ((n + 87) as u8) as char
    }
}

/// Two lower-case hexadecimal digits per byte.
pub open spec fn hex_lower(bytes: Seq<u8>) -> Seq<char>
    decreases bytes.len(),
{
    if bytes.len() == 0 {
        Seq::empty()
    } else {
        hex_lower(bytes.drop_last()) + seq![hex_digit(bytes.last() / 16), hex_digit(bytes.last() % 16)]
    }
}

fn hex_char(n: u8) -> (c: char)
    requires
        n < 16,
    ensures
        c == hex_digit(n),
{
    if n < 10 {
        (n + 48) as char
    } else {
        (n + 87) as char
    }
}

fn push_le64(msg: &mut Vec<u8>, x: u64)
    ensures
        final(msg)@ == old(msg)@ + le64(x),
{
    let ghost start = msg@;
    let mut i: u64 = 0;
    while i < 8
        invariant
            i <= 8,
            msg@ == start + le64(x).take(i as int),
        decreases 8 - i,
    {
        let byte = ((x >> (8 * i)) & 0xff) as u8;
        msg.push(byte);
        proof {
            assert(le64(x).take(i + 1) =~= le64(x).take(i as int).push(byte));
        }
        i = i + 1;
    }
    assert(le64(x).take(8) =~= le64(x));
}

fn push_le32(out: &mut Vec<u8>, x: u32)
    ensures
        final(out)@ == old(out)@ + le32(x),
{
    let ghost start = out@;
    out.push((x & 0xff) as u8);
    out.push(((x >> 8) & 0xff) as u8);
    out.push(((x >> 16) & 0xff) as u8);
    out.push(((x >> 24) & 0xff) as u8);
    assert(out@ =~= start + le32(x));
}

fn read_words(msg: &Vec<u8>, start: usize) -> (m: Vec<u32>)
    requires
        start + 64 <= msg@.len(),
    ensures
        m@ == md5_words(msg@.subrange(start as int, start + 64)),
{
    let ghost block = msg@.subrange(start as int, start + 64);
    let mut m: Vec<u32> = Vec::new();
    let mut j: usize = 0;
    while j < 16
        invariant
            j <= 16,
            start + 64 <= msg.len(),
            block == msg@.subrange(start as int, start + 64),
            m@.len() == j,
            forall|t: int| 0 <= t < j ==> m@[t] == md5_word(block, t),
        decreases 16 - j,
    {
        let p = start + 4 * j;
        let w = (msg[p] as u32) | ((msg[p + 1] as u32) << 8) | ((msg[p + 2] as u32) << 16) | ((msg[p + 3] as u32) << 24);
        assert(w == md5_word(block, j as int));
        m.push(w);
        j = j + 1;
    }
    assert(m@ =~= md5_words(block));
    m
}

fn compress(st: Md5State, m: &Vec<u32>) -> (r: Md5State)
    requires
        m@.len() == 16,
    ensures
        r == md5_steps(st, m@, 64),
{
    let s: [u32; 64] = [
        7, 12, 17, 22, 7, 12, 17, 22, 7, 12, 17, 22, 7, 12, 17, 22,
        5, 9, 14, 20, 5, 9, 14, 20, 5, 9, 14, 20, 5, 9, 14, 20,
        4, 11, 16, 23, 4, 11, 16, 23, 4, 11, 16, 23, 4, 11, 16, 23,
        6, 10, 15, 21, 6, 10, 15, 21, 6, 10, 15, 21, 6, 10, 15, 21,
    ];
    let k: [u32; 64] = [
        0xd76aa478, 0xe8c7b756, 0x242070db, 0xc1bdceee, 0xf57c0faf, 0x4787c62a, 0xa8304613, 0xfd469501,
        0x698098d8, 0x8b44f7af, 0xffff5bb1, 0x895cd7be, 0x6b901122, 0xfd987193, 0xa679438e, 0x49b40821,
        0xf61e2562, 0xc040b340, 0x265e5a51, 0xe9b6c7aa, 0xd62f105d, 0x02441453, 0xd8a1e681, 0xe7d3fbc8,
        0x21e1cde6, 0xc33707d6, 0xf4d50d87, 0x455a14ed, 0xa9e3e905, 0xfcefa3f8, 0x676f02d9, 0x8d2a4c8a,
        0xfffa3942, 0x8771f681, 0x6d9d6122, 0xfde5380c, 0xa4beea44, 0x4bdecfa9, 0xf6bb4b60, 0xbebfbc70,
        0x289b7ec6, 0xeaa127fa, 0xd4ef3085, 0x04881d05, 0xd9d4d039, 0xe6db99e5, 0x1fa27cf8, 0xc4ac5665,
        0xf4292244, 0x432aff97, 0xab9423a7, 0xfc93a039, 0x655b59c3, 0x8f0ccc92, 0xffeff47d, 0x85845dd1,
        0x6fa87e4f, 0xfe2ce6e0, 0xa3014314, 0x4e0811a1, 0xf7537e82, 0xbd3af235, 0x2ad7d2bb, 0xeb86d391,
    ];
    assert(s@ =~= md5_s_table());
    assert(k@ =~= md5_k_table());
    let (mut a, mut b, mut c, mut d) = st;
    let mut i: usize = 0;
    while i < 64
        invariant
            i <= 64,
            m@.len() == 16,
            s@ == md5_s_table(),
            k@ == md5_k_table(),
            (a, b, c, d) == md5_steps(st, m@, i as nat),
        decreases 64 - i,
    {
        let (f, g) = if i < 16 {
            ((b & c) | ((!b) & d), i)
        } else if i < 32 {
            ((d & b) | ((!d) & c), (5 * i + 1) % 16)
        } else if i < 48 {
            (b ^ c ^ d, (3 * i + 5) % 16)
        } else {
            (c ^ (b | (!d)), (7 * i) % 16)
        };
        assert(f == md5_f(i as int, b, c, d));
        assert(g == md5_g(i as int));
        let sh = s[i];
        assert(0 < sh < 32) by {
            assert(sh == md5_s_table()[i as int]);
        }
        let sum = a.wrapping_add(f).wrapping_add(k[i]).wrapping_add(m[g]);
        let rot = (sum << sh) | (sum >> (32 - sh));
        let temp = d;
        d = c;
        c = b;
        b = b.wrapping_add(rot);
        a = temp;
        i = i + 1;
    }
    (a, b, c, d)
}

/// Lower-case hexadecimal MD5 digest of `input` (RFC 1321).
pub fn md5_hex(input: &[u8]) -> (r: String)
    ensures
        r@ == hex_lower(md5_digest(input@)),
{
    let bit_len = (input.len() as u64).wrapping_mul(8);
    let mut msg = vstd::slice::slice_to_vec(input);
    msg.push(0x80);
    let ghost zeros_needed = md5_zero_pad(input@.len());
    let ghost head = input@ + seq![0x80u8];
    let mut zeros: usize = 0;
    while msg.len() % 64 != 56
        invariant
            head == input@ + seq![0x80u8],
            zeros_needed == md5_zero_pad(input@.len()),
            zeros <= zeros_needed,
            msg@ == head + Seq::new(zeros as nat, |i: int| 0u8),
            (msg@.len() % 64 == 56) == (zeros == zeros_needed),
        decreases zeros_needed - zeros,
    {
        msg.push(0);
        proof {
            assert(msg@ =~= head + Seq::new((zeros + 1) as nat, |i: int| 0u8));
        }
        zeros = zeros + 1;
    }
    push_le64(&mut msg, bit_len);
    assert(msg@ =~= md5_padded(input@));
    let ghost padded = md5_padded(input@);
    let nblocks = msg.len() / 64;
    let mut st: Md5State = (0x67452301, 0xefcdab89, 0x98badcfe, 0x10325476);
    let mut blk: usize = 0;
    while blk < nblocks
        invariant
            msg@ == padded,
            padded == md5_padded(input@),
            nblocks == msg@.len() / 64,
            blk <= nblocks,
            st == md5_blocks(padded, blk as nat),
        decreases nblocks - blk,
    {
        assert(64 * blk + 64 <= msg.len()) by (nonlinear_arith)
            requires
                blk < nblocks,
                nblocks == msg.len() / 64,
        ;
        let m = read_words(&msg, 64 * blk);
        let r = compress(st, &m);
        st = (st.0.wrapping_add(r.0), st.1.wrapping_add(r.1), st.2.wrapping_add(r.2), st.3.wrapping_add(r.3));
        blk = blk + 1;
    }
    let mut digest: Vec<u8> = Vec::new();
    push_le32(&mut digest, st.0);
    push_le32(&mut digest, st.1);
    push_le32(&mut digest, st.2);
    push_le32(&mut digest, st.3);
    assert(digest@ =~= md5_digest(input@));
    let mut hex = String::new();
    let mut i: usize = 0;
    while i < 16
        invariant
            i <= 16,
            digest@.len() == 16,
            hex@ == hex_lower(digest@.take(i as int)),
        decreases 16 - i,
    {
        let byte = digest[i];
        push_char(&mut hex, hex_char(byte / 16));
        push_char(&mut hex, hex_char(byte % 16));
        proof {
            assert(digest@.take(i + 1).drop_last() =~= digest@.take(i as int));
        }
        i = i + 1;
    }
    assert(digest@.take(16) =~= digest@);
    hex
}

} // verus!
