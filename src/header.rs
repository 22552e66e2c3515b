//! The unencrypted frame header.
//!
//! Layout of the first byte, most significant bit first: `R LLL X KKK`.
//! `R` is reserved and ignored. The frame counter follows as a big-endian
//! integer of `LLL + 1` bytes. When `X` is clear the key id is `KKK` itself;
//! when it is set, a big-endian key id of `KKK + 1` bytes stands between the
//! first byte and the counter.
use vstd::prelude::*;

use crate::error::{KeyId, SframeError};

verus! {

/// A parsed header: key id, frame counter and the number of bytes it took.
#[derive(Debug, Clone, Copy, PartialEq, Eq, Structural)]
pub struct Header {
    pub key_id: KeyId,
    pub frame_counter: u64,
    pub size: usize,
}

/// The value of `s` read as a big-endian unsigned integer.
pub open spec fn be_value(s: Seq<u8>) -> nat
    decreases s.len(),
{
    if s.len() == 0 {
        0
    } else {
        be_value(s.drop_last()) * 256 + s.last() as nat
    }
}

/// `256` to the power `n`.
pub open spec fn pow256(n: nat) -> nat
    decreases n,
{
    if n == 0 {
        1
    } else {
        256 * pow256((n - 1) as nat)
    }
}

/// The `LLL` field of the first byte.
pub open spec fn counter_len_field(b0: u8) -> nat {
    ((b0 / 16) % 8) as nat
}

/// The `X` flag of the first byte.
pub open spec fn extended_flag(b0: u8) -> bool {
    (b0 / 8) % 2 == 1
}

/// The `KKK` field of the first byte.
pub open spec fn key_field(b0: u8) -> nat {
    (b0 % 8) as nat
}

/// Number of key id bytes after the first byte.
pub open spec fn key_id_len(b0: u8) -> nat {
    if extended_flag(b0) {
        key_field(b0) + 1
    } else {
        0
    }
}

/// Number of frame counter bytes.
pub open spec fn counter_len(b0: u8) -> nat {
    counter_len_field(b0) + 1
}

/// Size of the whole header that starts with `b0`.
pub open spec fn header_len(b0: u8) -> nat {
    1 + key_id_len(b0) + counter_len(b0)
}

/// The header at the start of `s`, or `None` when `s` is too short for it.
pub open spec fn parse_header(s: Seq<u8>) -> Option<Header> {
    if s.len() == 0 || s.len() < header_len(s[0]) {
        None
    } else {
        let b0 = s[0];
        let kl = key_id_len(b0) as int;
        let key_id = if extended_flag(b0) {
            be_value(s.subrange(1, 1 + kl as int)) as u64
        } else {
            key_field(b0) as u64
        };
        let counter = be_value(s.subrange(1 + kl, header_len(b0) as int)) as u64;
        Some(Header { key_id, frame_counter: counter, size: header_len(b0) as usize })
    }
}

/// The header that starts at offset `skip` of `frame`.
pub open spec fn header_at(frame: Seq<u8>, skip: int) -> Option<Header> {
    if skip < 0 || skip > frame.len() {
        None
    } else {
        parse_header(frame.subrange(skip, frame.len() as int))
    }
}

/// Powers of 256 are positive.
pub proof fn lemma_pow256_positive(n: nat)
    ensures
        pow256(n) > 0,
    decreases n,
{
    if n > 0 {
        lemma_pow256_positive((n - 1) as nat);
    }
}

proof fn lemma_pow256_8()
    ensures
        pow256(8) == 0x1_0000_0000_0000_0000,
{
    reveal_with_fuel(pow256, 9);
}

proof fn lemma_pow256_monotone(a: nat, b: nat)
    requires
        a <= b,
    ensures
        pow256(a) <= pow256(b),
    decreases b,
{
    if a < b {
        lemma_pow256_monotone(a, (b - 1) as nat);
    }
}

/// Reads `data[lo..hi]` as a big-endian integer of at most eight bytes.
fn read_be(data: &[u8], lo: usize, hi: usize) -> (r: u64)
    requires
        lo <= hi <= data@.len(),
        hi - lo <= 8,
    ensures
        r as nat == be_value(data@.subrange(lo as int, hi as int)),
{
    let mut acc: u64 = 0;
    let mut i: usize = lo;
    proof {
        assert(data@.subrange(lo as int, lo as int) =~= Seq::<u8>::empty());
    }
    while i < hi
        invariant
            lo <= i <= hi <= data@.len(),
            hi - lo <= 8,
            acc as nat == be_value(data@.subrange(lo as int, i as int)),
            (acc as nat) < pow256((i - lo) as nat),
        decreases hi - i,
    {
        let ghost prev = data@.subrange(lo as int, i as int);
        let ghost next = data@.subrange(lo as int, i + 1);
        proof {
            assert(next.drop_last() =~= prev);
            assert(next.last() == data@[i as int]);
            lemma_pow256_monotone((i - lo + 1) as nat, 8);
            lemma_pow256_8();
            assert(pow256((i - lo + 1) as nat) == pow256((i - lo) as nat) * 256);
            let a = acc as nat;
            let b = pow256((i - lo) as nat);
            let c = data@[i as int] as nat;
            assert(a * 256 + c < b * 256) by (nonlinear_arith)
                requires
                    a < b,
                    c < 256,
            ;
        }
        acc = acc * 256 + data[i] as u64;
        i = i + 1;
    }
    acc
}

impl Header {
    /// Parses the header at offset `start` of `data`.
    pub fn deserialize_at(data: &[u8], start: usize) -> (r: Result<Header, SframeError>)
        ensures
            match header_at(data@, start as int) {
                Some(h) => r == Ok::<Header, SframeError>(h),
                None => r == Err::<Header, SframeError>(SframeError::MalformedHeader),
            },
    {
        if start >= data.len() {
            return Err(SframeError::MalformedHeader);
        }
        let ghost s = data@.subrange(start as int, data@.len() as int);
        let b0 = data[start];
        assert(s[0] == b0);
        let ctr_len: usize = ((b0 / 16) % 8) as usize + 1;
        let extended = (b0 / 8) % 2 == 1;
        let kid_len: usize = if extended {
            (b0 % 8) as usize + 1
        } else {
            0
        };
        let size: usize = 1 + kid_len + ctr_len;
        if data.len() - start < size {
            return Err(SframeError::MalformedHeader);
        }
        let key_id: u64 = if extended {
            read_be(data, start + 1, start + 1 + kid_len)
        } else {
            (b0 % 8) as u64
        };
        let frame_counter = read_be(data, start + 1 + kid_len, start + size);
        proof {
            assert(s.subrange(1, 1 + kid_len) =~= data@.subrange(
                start + 1,
                start + 1 + kid_len,
            ));
            assert(s.subrange(1 + kid_len, size as int) =~= data@.subrange(
                start + 1 + kid_len,
                start + size,
            ));
        }
        Ok(Header { key_id, frame_counter, size })
    }

    /// Parses the header at the start of `data`.
    pub fn deserialize(data: &[u8]) -> (r: Result<Header, SframeError>)
        ensures
            match parse_header(data@) {
                Some(h) => r == Ok::<Header, SframeError>(h),
                None => r == Err::<Header, SframeError>(SframeError::MalformedHeader),
            },
    {
        proof {
            assert(data@.subrange(0, data@.len() as int) =~= data@);
        }
        Self::deserialize_at(data, 0)
    }
}

/// The `n` least significant bytes of `v`, most significant first.
pub open spec fn be_bytes(v: nat, n: nat) -> Seq<u8>
    decreases n,
{
    if n == 0 {
        Seq::empty()
    } else {
        be_bytes(v / 256, (n - 1) as nat).push((v % 256) as u8)
    }
}

/// Length of the shortest big-endian form of `v`, at least one byte.
pub open spec fn byte_len(v: nat) -> nat
    decreases v,
{
    if v < 256 {
        1
    } else {
        1 + byte_len(v / 256)
    }
}

/// The encoding of a header with key id `key_id` and frame counter `ctr`:
/// the shortest counter, and the key id in the first byte when it is below 8.
pub open spec fn encode_header(key_id: u64, ctr: u64) -> Seq<u8> {
    let cl = byte_len(ctr as nat);
    if key_id < 8 {
        seq![((cl - 1) * 16 + key_id) as u8] + be_bytes(ctr as nat, cl)
    } else {
        let kl = byte_len(key_id as nat);
        seq![((cl - 1) * 16 + 8 + (kl - 1)) as u8] + be_bytes(key_id as nat, kl) + be_bytes(
            ctr as nat,
            cl,
        )
    }
}

proof fn lemma_be_bytes_value(v: nat, n: nat)
    ensures
        be_bytes(v, n).len() == n,
        be_value(be_bytes(v, n)) == v % pow256(n),
    decreases n,
{
    if n == 0 {
        assert(v % 1 == 0);
    } else {
        lemma_be_bytes_value(v / 256, (n - 1) as nat);
        let s = be_bytes(v, n);
        assert(s.drop_last() =~= be_bytes(v / 256, (n - 1) as nat));
        lemma_pow256_positive((n - 1) as nat);
        vstd::arithmetic::div_mod::lemma_mod_breakdown(v as int, 256, pow256((n - 1) as nat) as int);
        assert(pow256(n) == 256 * pow256((n - 1) as nat));
    }
}

proof fn lemma_byte_len_bounds(v: u64)
    ensures
        1 <= byte_len(v as nat) <= 8,
        (v as nat) < pow256(byte_len(v as nat)),
{
    lemma_pow256_8();
    lemma_byte_len_fits(v as nat, 8);
}

proof fn lemma_byte_len_fits(v: nat, k: nat)
    requires
        1 <= k,
        v < pow256(k),
    ensures
        1 <= byte_len(v) <= k,
        v < pow256(byte_len(v)),
    decreases v,
{
    reveal_with_fuel(pow256, 2);
    if v >= 256 {
        let q = v / 256;
        let p = pow256((k - 1) as nat);
        assert(pow256(k) == 256 * p);
        assert(q < p) by (nonlinear_arith)
            requires
                v < 256 * p,
                q == v / 256,
        ;
        lemma_pow256_positive((k - 1) as nat);
        if k == 1 {
            assert(p == 1);
        }
        lemma_byte_len_fits(q, (k - 1) as nat);
        let b = pow256(byte_len(q));
        assert(pow256(byte_len(v)) == 256 * b);
        assert(v < 256 * b) by (nonlinear_arith)
            requires
                q < b,
                q == v / 256,
        ;
    }
}

/// Computes `byte_len(v)`.
fn byte_len_of(v: u64) -> (n: usize)
    ensures
        n == byte_len(v as nat),
        1 <= n <= 8,
{
    proof {
        lemma_byte_len_bounds(v);
    }
    let mut t = v;
    let mut n: usize = 1;
    while t >= 256
        invariant
            1 <= n,
            n - 1 + byte_len(t as nat) == byte_len(v as nat),
            byte_len(v as nat) <= 8,
        decreases t,
    {
        t = t / 256;
        n = n + 1;
    }
    n
}

/// Appends `be_bytes(v, n)` to `out`.
fn push_be(out: &mut Vec<u8>, v: u64, n: usize)
    ensures
        final(out)@ == old(out)@ + be_bytes(v as nat, n as nat),
    decreases n,
{
    if n > 0 {
        push_be(out, v / 256, n - 1);
        out.push((v % 256) as u8);
        proof {
            assert(be_bytes(v as nat, n as nat) == be_bytes((v / 256) as nat, (n - 1) as nat).push(
                (v % 256) as u8,
            ));
            assert(final(out)@ =~= old(out)@ + be_bytes(v as nat, n as nat));
        }
    } else {
        assert(old(out)@ + be_bytes(v as nat, 0) =~= old(out)@);
    }
}

/// Parsing undoes encoding: the encoding of a key id and a frame counter,
/// followed by any bytes, parses back to that key id and counter, with the
/// encoding's length as the header size.
pub proof fn lemma_parse_encoded_header(key_id: u64, ctr: u64, rest: Seq<u8>)
    ensures
        parse_header(encode_header(key_id, ctr) + rest) == Some(
            Header {
                key_id,
                frame_counter: ctr,
                size: encode_header(key_id, ctr).len() as usize,
            },
        ),
{
    let e = encode_header(key_id, ctr);
    let s = e + rest;
    let cl = byte_len(ctr as nat);
    lemma_byte_len_bounds(ctr);
    lemma_be_bytes_value(ctr as nat, cl);
    vstd::arithmetic::div_mod::lemma_small_mod(ctr as nat, pow256(cl));
    let c1 = (cl - 1) as nat;
    if key_id < 8 {
        let k = key_id as nat;
        let b0 = s[0];
        assert(b0 == (c1 * 16 + k) as u8);
        assert(b0 / 16 == c1 && (b0 / 8) % 2 == 0 && b0 % 8 == k) by (nonlinear_arith)
            requires
                b0 == c1 * 16 + k,
                c1 < 8,
                k < 8,
        ;
        assert(s.subrange(1, 1 + cl as int) =~= be_bytes(ctr as nat, cl));
    } else {
        let kl = byte_len(key_id as nat);
        lemma_byte_len_bounds(key_id);
        lemma_be_bytes_value(key_id as nat, kl);
        vstd::arithmetic::div_mod::lemma_small_mod(key_id as nat, pow256(kl));
        let k1 = (kl - 1) as nat;
        let b0 = s[0];
        assert(b0 == (c1 * 16 + 8 + k1) as u8);
        assert(b0 / 16 == c1 && (b0 / 8) % 2 == 1 && b0 % 8 == k1) by (nonlinear_arith)
            requires
                b0 == c1 * 16 + 8 + k1,
                c1 < 8,
                k1 < 8,
        ;
        assert(s.subrange(1, 1 + kl as int) =~= be_bytes(key_id as nat, kl));
        assert(s.subrange(1 + kl as int, 1 + kl + cl as int) =~= be_bytes(ctr as nat, cl));
    }
}

impl Header {
    /// The header of a frame with key id `key_id` and frame counter
    /// `frame_counter`, with the size of its shortest encoding.
    pub fn new(key_id: KeyId, frame_counter: u64) -> (r: Header)
        ensures
            r.key_id == key_id,
            r.frame_counter == frame_counter,
            r.size == encode_header(key_id, frame_counter).len(),
    {
        let cl = byte_len_of(frame_counter);
        let size = if key_id < 8 {
            1 + cl
        } else {
            1 + byte_len_of(key_id) + cl
        };
        proof {
            lemma_be_bytes_value(frame_counter as nat, cl as nat);
            lemma_be_bytes_value(key_id as nat, byte_len(key_id as nat));
        }
        Header { key_id, frame_counter, size }
    }

    /// The shortest encoding of this header's key id and frame counter.
    pub fn serialize(&self) -> (r: Vec<u8>)
        ensures
            r@ == encode_header(self.key_id, self.frame_counter),
    {
        let cl = byte_len_of(self.frame_counter);
        let mut out: Vec<u8> = Vec::new();
        if self.key_id < 8 {
            let b0 = ((cl - 1) * 16) as u8 + self.key_id as u8;
            out.push(b0);
            push_be(&mut out, self.frame_counter, cl);
            proof {
                assert(out@ =~= encode_header(self.key_id, self.frame_counter));
            }
        } else {
            let kl = byte_len_of(self.key_id);
            let b0 = ((cl - 1) * 16 + 8 + (kl - 1)) as u8;
            out.push(b0);
            push_be(&mut out, self.key_id, kl);
            push_be(&mut out, self.frame_counter, cl);
            proof {
                assert(out@ =~= encode_header(self.key_id, self.frame_counter));
            }
        }
        out
    }
}

} // verus!
