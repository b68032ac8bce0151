//! Fixed-width unsigned integers encoded in big-endian byte order.
//!
//! SCALE encodes primitive integers little-endian, so their encodings do not
//! sort like the numbers. These wrappers encode most significant byte first:
//! for values of one width, the lexicographic order of the encodings is the
//! numeric order, which is what storage keys iterated in byte order need.
use vstd::prelude::*;

verus! {

/// `256^n`.
pub open spec fn pow256(n: nat) -> nat
    decreases n,
{
    if n == 0 {
        1
    } else {
        256 * pow256((n - 1) as nat)
    }
}

/// The `n` low-order bytes of `x`, most significant first.
pub open spec fn be_bytes(x: nat, n: nat) -> Seq<u8>
    decreases n,
{
    if n == 0 {
        Seq::empty()
    } else {
        be_bytes(x / 256, (n - 1) as nat).push((x % 256) as u8)
    }
}

/// The number that the bytes `s` denote, most significant first.
pub open spec fn be_value(s: Seq<u8>) -> nat
    decreases s.len(),
{
    if s.len() == 0 {
        0
    } else {
        be_value(s.drop_last()) * 256 + s.last() as nat
    }
}

/// Lexicographic "less than" on byte strings of one length, the order in which
/// `Vec<u8>` and `[u8]` compare: at the first index where they differ, `a`
/// holds the smaller byte.
pub open spec fn lex_lt(a: Seq<u8>, b: Seq<u8>) -> bool {
    &&& a.len() == b.len()
    &&& exists|i: int|
        0 <= i < a.len() && a[i] < b[i] && forall|j: int| 0 <= j < i ==> #[trigger] a[j] == b[j]
}

proof fn lemma_pow256_pos(n: nat)
    ensures
        pow256(n) >= 1,
    decreases n,
{
    if n > 0 {
        lemma_pow256_pos((n - 1) as nat);
    }
}

proof fn lemma_be_bytes_len(x: nat, n: nat)
    ensures
        be_bytes(x, n).len() == n,
    decreases n,
{
    if n > 0 {
        lemma_be_bytes_len(x / 256, (n - 1) as nat);
    }
}

proof fn lemma_be_value_bound(s: Seq<u8>)
    ensures
        be_value(s) < pow256(s.len()),
    decreases s.len(),
{
    if s.len() > 0 {
        lemma_be_value_bound(s.drop_last());
    }
}

/// Decoding the `n`-byte big-endian encoding of `x < 256^n` gives back `x`.
pub proof fn lemma_be_roundtrip(x: nat, n: nat)
    requires
        x < pow256(n),
    ensures
        be_value(be_bytes(x, n)) == x,
    decreases n,
{
    if n > 0 {
        let m = (n - 1) as nat;
        assert(x / 256 < pow256(m));
        lemma_be_roundtrip(x / 256, m);
        let s = be_bytes(x, n);
        assert(s.drop_last() =~= be_bytes(x / 256, m));
    }
}

/// Encoding the value of an `n`-byte string as `n` bytes gives back the string.
pub proof fn lemma_be_value_inverse(s: Seq<u8>)
    ensures
        be_bytes(be_value(s), s.len()) == s,
    decreases s.len(),
{
    if s.len() > 0 {
        lemma_be_value_inverse(s.drop_last());
        let v = be_value(s);
        assert(v / 256 == be_value(s.drop_last()));
        assert(v % 256 == s.last() as nat);
        assert(be_bytes(v, s.len()) =~= s.drop_last().push(s.last()));
    }
}

proof fn lemma_lex_lt_asym(a: Seq<u8>, b: Seq<u8>)
    requires
        lex_lt(a, b),
    ensures
        !lex_lt(b, a),
{
    let i = choose|i: int|
        0 <= i < a.len() && a[i] < b[i] && forall|j: int| 0 <= j < i ==> #[trigger] a[j] == b[j];
    if lex_lt(b, a) {
        let k = choose|k: int|
            0 <= k < b.len() && b[k] < a[k] && forall|j: int| 0 <= j < k ==> #[trigger] b[j] == a[j];
        if i < k {
            assert(b[i] == a[i]);
        } else if k < i {
            assert(a[k] == b[k]);
        }
    }
}

proof fn lemma_be_order_forward(x: nat, y: nat, n: nat)
    requires
        x < y < pow256(n),
    ensures
        lex_lt(be_bytes(x, n), be_bytes(y, n)),
    decreases n,
{
    let m = (n - 1) as nat;
    lemma_be_bytes_len(x, n);
    lemma_be_bytes_len(y, n);
    lemma_be_bytes_len(x / 256, m);
    lemma_be_bytes_len(y / 256, m);
    let a = be_bytes(x, n);
    let b = be_bytes(y, n);
    let pa = be_bytes(x / 256, m);
    let pb = be_bytes(y / 256, m);
    assert(a == pa.push((x % 256) as u8));
    assert(b == pb.push((y % 256) as u8));
    if x / 256 < y / 256 {
        lemma_be_order_forward(x / 256, y / 256, m);
        let i = choose|i: int|
            0 <= i < pa.len() && pa[i] < pb[i] && forall|j: int|
                0 <= j < i ==> #[trigger] pa[j] == pb[j];
        assert(a[i] == pa[i] && b[i] == pb[i]);
        assert forall|j: int| 0 <= j < i implies #[trigger] a[j] == b[j] by {
            assert(a[j] == pa[j] && b[j] == pb[j]);
        }
    } else {
        assert(x / 256 == y / 256);
        assert(pa == pb);
        assert(x % 256 < y % 256);
        assert forall|j: int| 0 <= j < m implies #[trigger] a[j] == b[j] by {
            assert(a[j] == pa[j] && b[j] == pb[j]);
        }
        assert(a[m as int] < b[m as int]);
    }
}

/// For numbers below `256^n`, comparing their `n`-byte big-endian encodings
/// lexicographically is comparing the numbers.
pub proof fn lemma_be_order(x: nat, y: nat, n: nat)
    requires
        x < pow256(n),
        y < pow256(n),
    ensures
        x < y <==> lex_lt(be_bytes(x, n), be_bytes(y, n)),
{
    if x < y {
        lemma_be_order_forward(x, y, n);
    } else if y < x {
        lemma_be_order_forward(y, x, n);
        lemma_lex_lt_asym(be_bytes(y, n), be_bytes(x, n));
    } else {
        let a = be_bytes(x, n);
        if lex_lt(a, a) {
            let i = choose|i: int|
                0 <= i < a.len() && a[i] < a[i] && forall|j: int| 0 <= j < i ==> #[trigger] a[j] == a[j];
        }
    }
}

/// Error of a decoding that runs out of input.
#[derive(Clone, Copy, Debug, PartialEq, Eq)]
pub enum DecodeError {
    /// Fewer bytes remain than the encoding needs.
    NotEnoughData,
}

/// The `n` low-order bytes of `x`, most significant first.
fn encode_be(x: u64, n: usize) -> (r: Vec<u8>)
    requires
        n <= 8,
    ensures
        r@ == be_bytes(x as nat, n as nat),
    decreases n,
{
    if n == 0 {
        Vec::new()
    } else {
        let mut v = encode_be(x / 256, n - 1);
        v.push((x % 256) as u8);
        v
    }
}

/// The number that `input[0..n]` denotes, most significant byte first.
fn decode_be(input: &[u8], n: usize) -> (r: u64)
    requires
        n <= 8,
        n <= input@.len(),
    ensures
        r as nat == be_value(input@.subrange(0, n as int)),
{
    let mut acc: u64 = 0;
    let mut i: usize = 0;
    proof {
        assert(pow256(8) == 18446744073709551616nat) by {
            reveal_with_fuel(pow256, 9);
        }
    }
    while i < n
        invariant
            i <= n <= 8,
            n <= input@.len(),
            acc as nat == be_value(input@.subrange(0, i as int)),
            acc as nat <= pow256(i as nat) - 1,
            pow256(8) == 18446744073709551616nat,
        decreases n - i,
    {
        proof {
            lemma_pow_mono(i as nat + 1, 8);
            assert(input@.subrange(0, i + 1).drop_last() =~= input@.subrange(0, i as int));
        }
        acc = acc * 256 + input[i] as u64;
        i += 1;
    }
    acc
}

/// The number that `input[start..start + n]` denotes, most significant byte
/// first.
fn decode_be_at(input: &[u8], start: usize, n: usize) -> (r: u64)
    requires
        n <= 8,
        start + n <= input@.len(),
    ensures
        r as nat == be_value(input@.subrange(start as int, start + n)),
{
    let len = input.len();
    let mut acc: u64 = 0;
    let mut i: usize = 0;
    proof {
        assert(pow256(8) == 18446744073709551616nat) by {
            reveal_with_fuel(pow256, 9);
        }
    }
    while i < n
        invariant
            i <= n <= 8,
            start + n <= input@.len(),
            len == input@.len(),
            acc as nat == be_value(input@.subrange(start as int, start + i)),
            acc as nat <= pow256(i as nat) - 1,
            pow256(8) == 18446744073709551616nat,
        decreases n - i,
    {
        proof {
            lemma_pow_mono(i as nat + 1, 8);
            assert(input@.subrange(start as int, start + i + 1).drop_last() =~= input@.subrange(start as int, start + i));
        }
        acc = acc * 256 + input[start + i] as u64;
        i += 1;
    }
    acc
}

proof fn lemma_pow_mono(a: nat, b: nat)
    requires
        a <= b,
    ensures
        pow256(a) <= pow256(b),
    decreases b,
{
    if a < b {
        lemma_pow_mono(a, (b - 1) as nat);
        lemma_pow256_pos((b - 1) as nat);
    }
}

/// A `u32` encoded in big-endian byte order, so that the lexicographic order
/// of encodings matches the numeric order.
#[derive(PartialEq, Eq, Clone, Copy, Debug)]
pub struct BigEndianU32(pub u32);

impl BigEndianU32 {
    /// The four bytes that encode this value.
    pub open spec fn encoded(self) -> Seq<u8> {
        be_bytes(self.0 as nat, 4)
    }

    /// Encodes the value as its four bytes, most significant first.
    pub fn encode(&self) -> (r: Vec<u8>)
        ensures
            r@ == self.encoded(),
    {
        encode_be(self.0 as u64, 4)
    }

    /// Appends the encoding of the value to `dest`.
    pub fn encode_to(&self, dest: &mut Vec<u8>)
        ensures
            final(dest)@ == old(dest)@ + self.encoded(),
    {
        let mut e = self.encode();
        dest.append(&mut e);
    }

    /// The number of bytes that the encoding takes.
    pub fn size_hint(&self) -> (r: usize)
        ensures
            r == 4,
    {
        4
    }

    /// The largest number of bytes that an encoding takes.
    pub fn max_encoded_len() -> (r: usize)
        ensures
            r == 4,
    {
        4
    }

    /// Decodes a value from the first four bytes of `input`; fails when
    /// `input` is shorter than that. Bytes past the fourth are left unread.
    pub fn decode(input: &[u8]) -> (r: Result<BigEndianU32, DecodeError>)
        ensures
            input@.len() < 4 ==> r == Err::<BigEndianU32, DecodeError>(DecodeError::NotEnoughData),
            input@.len() >= 4 ==> (r matches Ok(v) && v.0 as nat == be_value(input@.subrange(0, 4))),
    {
        if input.len() < 4 {
            return Err(DecodeError::NotEnoughData);
        }
        let v = decode_be(input, 4);
        proof {
            lemma_be_value_bound(input@.subrange(0, 4));
            reveal_with_fuel(pow256, 5);
        }
        Ok(BigEndianU32(v as u32))
    }
}

/// A `u64` encoded in big-endian byte order, so that the lexicographic order
/// of encodings matches the numeric order.
#[derive(PartialEq, Eq, Clone, Copy, Debug)]
pub struct BigEndianU64(pub u64);

impl BigEndianU64 {
    /// The eight bytes that encode this value.
    pub open spec fn encoded(self) -> Seq<u8> {
        be_bytes(self.0 as nat, 8)
    }

    /// Encodes the value as its eight bytes, most significant first.
    pub fn encode(&self) -> (r: Vec<u8>)
        ensures
            r@ == self.encoded(),
    {
        encode_be(self.0, 8)
    }

    /// Appends the encoding of the value to `dest`.
    pub fn encode_to(&self, dest: &mut Vec<u8>)
        ensures
            final(dest)@ == old(dest)@ + self.encoded(),
    {
        let mut e = self.encode();
        dest.append(&mut e);
    }

    /// The number of bytes that the encoding takes.
    pub fn size_hint(&self) -> (r: usize)
        ensures
            r == 8,
    {
        8
    }

    /// The largest number of bytes that an encoding takes.
    pub fn max_encoded_len() -> (r: usize)
        ensures
            r == 8,
    {
        8
    }

    /// Decodes a value from the first eight bytes of `input`; fails when
    /// `input` is shorter than that. Bytes past the eighth are left unread.
    pub fn decode(input: &[u8]) -> (r: Result<BigEndianU64, DecodeError>)
        ensures
            input@.len() < 8 ==> r == Err::<BigEndianU64, DecodeError>(DecodeError::NotEnoughData),
            input@.len() >= 8 ==> (r matches Ok(v) && v.0 as nat == be_value(input@.subrange(0, 8))),
    {
        if input.len() < 8 {
            return Err(DecodeError::NotEnoughData);
        }
        let v = decode_be(input, 8);
        Ok(BigEndianU64(v))
    }
}

/// Decoding the encoding of a `BigEndianU32` gives back the value.
pub proof fn lemma_u32_roundtrip(v: BigEndianU32)
    ensures
        be_value(v.encoded()) == v.0,
        v.encoded().len() == 4,
{
    reveal_with_fuel(pow256, 5);
    lemma_be_roundtrip(v.0 as nat, 4);
    lemma_be_bytes_len(v.0 as nat, 4);
}

/// Decoding the encoding of a `BigEndianU64` gives back the value.
pub proof fn lemma_u64_roundtrip(v: BigEndianU64)
    ensures
        be_value(v.encoded()) == v.0,
        v.encoded().len() == 8,
{
    reveal_with_fuel(pow256, 9);
    lemma_be_roundtrip(v.0 as nat, 8);
    lemma_be_bytes_len(v.0 as nat, 8);
}

/// The encodings of two `BigEndianU32` values compare lexicographically as
/// the values compare numerically.
pub proof fn lemma_u32_order(a: BigEndianU32, b: BigEndianU32)
    ensures
        a.0 < b.0 <==> lex_lt(a.encoded(), b.encoded()),
        a.0 == b.0 <==> a.encoded() == b.encoded(),
{
    reveal_with_fuel(pow256, 5);
    lemma_be_order(a.0 as nat, b.0 as nat, 4);
    lemma_be_roundtrip(a.0 as nat, 4);
    lemma_be_roundtrip(b.0 as nat, 4);
}

/// The encodings of two `BigEndianU64` values compare lexicographically as
/// the values compare numerically.
pub proof fn lemma_u64_order(a: BigEndianU64, b: BigEndianU64)
    ensures
        a.0 < b.0 <==> lex_lt(a.encoded(), b.encoded()),
        a.0 == b.0 <==> a.encoded() == b.encoded(),
{
    reveal_with_fuel(pow256, 9);
    lemma_be_order(a.0 as nat, b.0 as nat, 8);
    lemma_be_roundtrip(a.0 as nat, 8);
    lemma_be_roundtrip(b.0 as nat, 8);
}

impl From<u32> for BigEndianU32 {
    fn from(v: u32) -> (r: BigEndianU32) {
        BigEndianU32(v)
    }
}

impl vstd::std_specs::convert::FromSpecImpl<u32> for BigEndianU32 {
    open spec fn obeys_from_spec() -> bool {
        true
    }

    open spec fn from_spec(v: u32) -> BigEndianU32 {
        BigEndianU32(v)
    }
}

impl From<BigEndianU32> for u32 {
    fn from(v: BigEndianU32) -> (r: u32) {
        v.0
    }
}

impl vstd::std_specs::convert::FromSpecImpl<BigEndianU32> for u32 {
    open spec fn obeys_from_spec() -> bool {
        true
    }

    open spec fn from_spec(v: BigEndianU32) -> u32 {
        v.0
    }
}

impl From<u64> for BigEndianU64 {
    fn from(v: u64) -> (r: BigEndianU64) {
        BigEndianU64(v)
    }
}

impl vstd::std_specs::convert::FromSpecImpl<u64> for BigEndianU64 {
    open spec fn obeys_from_spec() -> bool {
        true
    }

    open spec fn from_spec(v: u64) -> BigEndianU64 {
        BigEndianU64(v)
    }
}

impl From<BigEndianU64> for u64 {
    fn from(v: BigEndianU64) -> (r: u64) {
        v.0
    }
}

impl vstd::std_specs::convert::FromSpecImpl<BigEndianU64> for u64 {
    open spec fn obeys_from_spec() -> bool {
        true
    }

    open spec fn from_spec(v: BigEndianU64) -> u64 {
        v.0
    }
}

/// Splitting a number at a byte boundary splits its big-endian encoding:
/// the high part's `n` bytes, then the low part's `m` bytes.
proof fn lemma_be_bytes_split(a: nat, b: nat, n: nat, m: nat)
    requires
        b < pow256(m),
    ensures
        be_bytes(a * pow256(m) + b, n + m) == be_bytes(a, n) + be_bytes(b, m),
    decreases m,
{
    if m == 0 {
        assert(be_bytes(a, n) + be_bytes(b, m) =~= be_bytes(a, n));
    } else {
        let k = (m - 1) as nat;
        let p = pow256(k);
        let q = b / 256;
        let r = b % 256;
        assert(b == q * 256 + r);
        assert(q < p) by (nonlinear_arith)
            requires
                b < 256 * p,
                b == q * 256 + r,
                0 <= r < 256,
        ;
        let x = a * pow256(m) + b;
        assert(x == (a * p + q) * 256 + r) by (nonlinear_arith)
            requires
                x == a * pow256(m) + b,
                pow256(m) == 256 * p,
                b == q * 256 + r,
        ;
        vstd::arithmetic::div_mod::lemma_fundamental_div_mod_converse(x as int, 256, (a * p + q) as int, r as int);
        lemma_be_bytes_split(a, q, n, k);
        assert(be_bytes(x, n + m) == be_bytes(a * p + q, (n + k) as nat).push(r as u8));
        assert(be_bytes(b, m) == be_bytes(q, k).push(r as u8));
        assert(be_bytes(a, n) + be_bytes(b, m) =~= (be_bytes(a, n) + be_bytes(q, k)).push(r as u8));
    }
}

/// The value of a concatenation: the first part shifted past the second.
proof fn lemma_be_value_concat(a: Seq<u8>, b: Seq<u8>)
    ensures
        be_value(a + b) == be_value(a) * pow256(b.len()) + be_value(b),
    decreases b.len(),
{
    if b.len() == 0 {
        assert(a + b =~= a);
        assert(pow256(0) == 1);
        assert(be_value(b) == 0);
        assert(be_value(a) * 1 == be_value(a));
    } else {
        let b1 = b.drop_last();
        lemma_be_value_concat(a, b1);
        assert((a + b).drop_last() =~= a + b1);
        assert((a + b).last() == b.last());
        let va = be_value(a);
        let p = pow256(b1.len());
        let v1 = be_value(b1);
        let z = b.last() as nat;
        assert(be_value(a + b) == be_value(a + b1) * 256 + z);
        assert(be_value(b) == v1 * 256 + z);
        assert(pow256(b.len()) == 256 * p);
        assert((va * p + v1) * 256 + z == va * (256 * p) + (v1 * 256 + z)) by (nonlinear_arith);
        assert(be_value(a + b) == va * pow256(b.len()) + be_value(b));
    }
}

/// The number that four 64-bit limbs denote, the least significant first.
pub open spec fn limbs_value(l: [u64; 4]) -> nat {
    ((l[3] as nat * pow256(8) + l[2] as nat) * pow256(8) + l[1] as nat) * pow256(8) + l[0] as nat
}

/// `A * P + a < B * P + b` exactly when `(A, a)` precedes `(B, b)`, for
/// digits `a, b` below `P`.
proof fn lemma_digit_order(hi_a: nat, lo_a: nat, hi_b: nat, lo_b: nat, p: nat)
    requires
        lo_a < p,
        lo_b < p,
    ensures
        hi_a * p + lo_a < hi_b * p + lo_b <==> (hi_a < hi_b || (hi_a == hi_b && lo_a < lo_b)),
        hi_a * p + lo_a == hi_b * p + lo_b <==> (hi_a == hi_b && lo_a == lo_b),
{
    if hi_a < hi_b {
        assert(hi_a * p + lo_a < hi_b * p + lo_b) by (nonlinear_arith)
            requires
                hi_a < hi_b,
                lo_a < p,
        ;
    } else if hi_b < hi_a {
        assert(hi_b * p + lo_b < hi_a * p + lo_a) by (nonlinear_arith)
            requires
                hi_b < hi_a,
                lo_b < p,
        ;
    }
}

/// A 256-bit unsigned integer encoded as 32 big-endian bytes, so that the
/// lexicographic order of encodings matches the numeric order. The value is
/// held as four 64-bit limbs, the least significant first.
#[derive(PartialEq, Eq, Clone, Copy, Debug)]
pub struct BigEndianU256(pub [u64; 4]);

impl BigEndianU256 {
    /// The number this value denotes.
    pub open spec fn value(self) -> nat {
        limbs_value(self.0)
    }

    /// The 32 bytes that encode this value.
    pub open spec fn encoded(self) -> Seq<u8> {
        be_bytes(self.value(), 32)
    }

    /// Encodes the value as its 32 bytes, most significant first.
    pub fn encode(&self) -> (r: Vec<u8>)
        ensures
            r@ == self.encoded(),
    {
        let l = self.0;
        let mut out = encode_be(l[3], 8);
        let mut b2 = encode_be(l[2], 8);
        let mut b1 = encode_be(l[1], 8);
        let mut b0 = encode_be(l[0], 8);
        let ghost e3 = out@;
        let ghost e2 = b2@;
        let ghost e1 = b1@;
        let ghost e0 = b0@;
        out.append(&mut b2);
        out.append(&mut b1);
        out.append(&mut b0);
        proof {
            reveal_with_fuel(pow256, 9);
            let p = pow256(8);
            let v2 = l[3] as nat * p + l[2] as nat;
            let v1 = v2 * p + l[1] as nat;
            lemma_be_bytes_split(l[3] as nat, l[2] as nat, 8, 8);
            lemma_be_bytes_split(v2, l[1] as nat, 16, 8);
            lemma_be_bytes_split(v1, l[0] as nat, 24, 8);
            assert(out@ =~= e3 + e2 + e1 + e0);
        }
        out
    }

    /// Appends the encoding of the value to `dest`.
    pub fn encode_to(&self, dest: &mut Vec<u8>)
        ensures
            final(dest)@ == old(dest)@ + self.encoded(),
    {
        let mut e = self.encode();
        dest.append(&mut e);
    }

    /// The number of bytes that the encoding takes.
    pub fn size_hint(&self) -> (r: usize)
        ensures
            r == 32,
    {
        32
    }

    /// The largest number of bytes that an encoding takes.
    pub fn max_encoded_len() -> (r: usize)
        ensures
            r == 32,
    {
        32
    }

    /// The value whose encoding is the 32 bytes `input[start..start + 32]`.
    fn from_be_at(input: &[u8], start: usize) -> (r: BigEndianU256)
        requires
            start + 32 <= input@.len(),
        ensures
            r.value() == be_value(input@.subrange(start as int, start + 32)),
    {
        let len = input.len();
        let l3 = decode_be_at(input, start, 8);
        let l2 = decode_be_at(input, start + 8, 8);
        let l1 = decode_be_at(input, start + 16, 8);
        let l0 = decode_be_at(input, start + 24, 8);
        proof {
            reveal_with_fuel(pow256, 9);
            let s = input@.subrange(start as int, start + 32);
            let s3 = input@.subrange(start as int, start + 8);
            let s2 = input@.subrange(start + 8, start + 16);
            let s1 = input@.subrange(start + 16, start + 24);
            let s0 = input@.subrange(start + 24, start + 32);
            assert(s =~= s3 + s2 + s1 + s0);
            lemma_be_value_concat(s3, s2);
            lemma_be_value_concat(s3 + s2, s1);
            lemma_be_value_concat(s3 + s2 + s1, s0);
        }
        BigEndianU256([l0, l1, l2, l3])
    }

    /// The value whose big-endian encoding is `bytes`.
    pub fn from_be_bytes(bytes: &[u8; 32]) -> (r: BigEndianU256)
        ensures
            r.value() == be_value(bytes@),
    {
        let r = Self::from_be_at(bytes.as_slice(), 0);
        proof {
            assert(bytes@.subrange(0, 32) =~= bytes@);
        }
        r
    }

    /// Decodes a value from the first 32 bytes of `input`; fails when `input`
    /// is shorter than that. Bytes past the 32nd are left unread.
    pub fn decode(input: &[u8]) -> (r: Result<BigEndianU256, DecodeError>)
        ensures
            input@.len() < 32 ==> r == Err::<BigEndianU256, DecodeError>(DecodeError::NotEnoughData),
            input@.len() >= 32 ==> (r matches Ok(v) && v.value() == be_value(input@.subrange(0, 32))),
    {
        if input.len() < 32 {
            return Err(DecodeError::NotEnoughData);
        }
        Ok(Self::from_be_at(input, 0))
    }

    /// Whether this value is numerically below `other`.
    pub fn lt(&self, other: &BigEndianU256) -> (r: bool)
        ensures
            r == (self.value() < other.value()),
    {
        let a = self.0;
        let b = other.0;
        proof {
            reveal_with_fuel(pow256, 9);
            let p = pow256(8);
            let a2 = a[3] as nat * p + a[2] as nat;
            let b2 = b[3] as nat * p + b[2] as nat;
            let a1 = a2 * p + a[1] as nat;
            let b1 = b2 * p + b[1] as nat;
            lemma_digit_order(a[3] as nat, a[2] as nat, b[3] as nat, b[2] as nat, p);
            lemma_digit_order(a2, a[1] as nat, b2, b[1] as nat, p);
            lemma_digit_order(a1, a[0] as nat, b1, b[0] as nat, p);
        }
        if a[3] != b[3] {
            a[3] < b[3]
        } else if a[2] != b[2] {
            a[2] < b[2]
        } else if a[1] != b[1] {
            a[1] < b[1]
        } else {
            a[0] < b[0]
        }
    }
}

/// Every value is below `2^256`.
proof fn lemma_u256_bound(v: BigEndianU256)
    ensures
        v.value() < pow256(32),
{
    reveal_with_fuel(pow256, 9);
    let p = pow256(8);
    let l = v.0;
    let v2 = l[3] as nat * p + l[2] as nat;
    let v1 = v2 * p + l[1] as nat;
    assert(v2 < p * p) by (nonlinear_arith)
        requires
            l[3] < p,
            l[2] < p,
            v2 == l[3] as nat * p + l[2] as nat,
    ;
    assert(v1 < p * p * p) by (nonlinear_arith)
        requires
            v2 < p * p,
            l[1] < p,
            v1 == v2 * p + l[1] as nat,
    ;
    assert(v.value() < p * p * p * p) by (nonlinear_arith)
        requires
            v1 < p * p * p,
            l[0] < p,
            v.value() == v1 * p + l[0] as nat,
    ;
    lemma_pow256_add(8, 8);
    lemma_pow256_add(16, 8);
    lemma_pow256_add(24, 8);
}

/// `256^(a + b) == 256^a * 256^b`.
proof fn lemma_pow256_add(a: nat, b: nat)
    ensures
        pow256(a + b) == pow256(a) * pow256(b),
    decreases b,
{
    if b > 0 {
        lemma_pow256_add(a, (b - 1) as nat);
        let x = pow256(a);
        let y = pow256((b - 1) as nat);
        assert((a + b - 1) as nat == a + (b - 1) as nat);
        assert(pow256(a + b) == 256 * pow256((a + b - 1) as nat));
        assert(pow256(b) == 256 * y);
        assert(256 * (x * y) == x * (256 * y)) by (nonlinear_arith);
        assert(pow256(a + b) == x * pow256(b));
    } else {
        assert(pow256(0) == 1);
        assert(a + b == a);
        assert(pow256(a) * 1 == pow256(a));
    }
}

/// Decoding the encoding of a `BigEndianU256` gives back its value.
pub proof fn lemma_u256_roundtrip(v: BigEndianU256)
    ensures
        be_value(v.encoded()) == v.value(),
        v.encoded().len() == 32,
{
    lemma_u256_bound(v);
    lemma_be_roundtrip(v.value(), 32);
    lemma_be_bytes_len(v.value(), 32);
}

/// The encodings of two `BigEndianU256` values compare lexicographically as
/// the values compare numerically.
pub proof fn lemma_u256_order(a: BigEndianU256, b: BigEndianU256)
    ensures
        a.value() < b.value() <==> lex_lt(a.encoded(), b.encoded()),
        a.value() == b.value() <==> a.encoded() == b.encoded(),
{
    lemma_u256_bound(a);
    lemma_u256_bound(b);
    lemma_be_order(a.value(), b.value(), 32);
    lemma_be_roundtrip(a.value(), 32);
    lemma_be_roundtrip(b.value(), 32);
}

/// The `u32` whose little-endian bytes open `seed`: the draw from a random
/// seed.
pub fn u32_from_seed(seed: &[u8; 32]) -> (r: u32)
    ensures
        r == seed[0] + 256 * seed[1] + 65536 * seed[2] + 16777216 * seed[3],
{
    seed[0] as u32 + 256 * (seed[1] as u32) + 65536 * (seed[2] as u32) + 16777216 * (seed[3] as u32)
}

} // verus!
