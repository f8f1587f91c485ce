//! Endian-aware scalar codec.
//!
//! Converts between byte slices and fixed-width integers under an explicit
//! byte order, and produces the reverse direction as a lazy byte sequence
//! ([`IntegerEndianIter`]) that never materializes an intermediate buffer.
//!
//! The mathematical model is arithmetic: a little-endian byte sequence
//! denotes the number [`le_value`], a big-endian one [`be_value`], and the
//! byte images of a number are [`le_bytes_of`] and [`be_bytes_of`]. Signed
//! values go through their two's-complement unsigned image
//! ([`unsigned_of`] / [`signed_of`]).

use vstd::arithmetic::div_mod::lemma_div_denominator;
use vstd::arithmetic::div_mod::lemma_fundamental_div_mod;
use vstd::prelude::*;

verus! {

/// The codec's only failure: a byte slice whose length differs from the
/// target integer's byte width.
#[derive(Clone, Copy, PartialEq, Eq, Structural, Debug)]
pub struct LengthMismatch;

/// The byte order applied at a conversion boundary. `Native` performs no
/// reordering; this library targets little-endian platforms, where the
/// native layout coincides with `Little`.
#[derive(Clone, Copy, PartialEq, Eq, Structural, Debug)]
pub enum ByteOrder {
    Little,
    Big,
    Native,
}

/// `256^n`: the number of values a sequence of `n` bytes can denote.
pub open spec fn pow256(n: nat) -> nat
    decreases n,
{
    if n == 0 {
        1
    } else {
        256 * pow256((n - 1) as nat)
    }
}

/// The number a byte sequence denotes in little-endian order: the first
/// byte is the least significant.
pub open spec fn le_value(s: Seq<u8>) -> nat
    decreases s.len(),
{
    if s.len() == 0 {
        0
    } else {
        s[0] as nat + 256 * le_value(s.drop_first())
    }
}

/// The number a byte sequence denotes in big-endian order: the last byte is
/// the least significant.
pub open spec fn be_value(s: Seq<u8>) -> nat
    decreases s.len(),
{
    if s.len() == 0 {
        0
    } else {
        256 * be_value(s.drop_last()) + s.last() as nat
    }
}

/// The `n`-byte little-endian image of `v`.
pub open spec fn le_bytes_of(v: nat, n: nat) -> Seq<u8>
    decreases n,
{
    if n == 0 {
        Seq::empty()
    } else {
        seq![(v % 256) as u8] + le_bytes_of(v / 256, (n - 1) as nat)
    }
}

/// The `n`-byte big-endian image of `v`.
pub open spec fn be_bytes_of(v: nat, n: nat) -> Seq<u8>
    decreases n,
{
    if n == 0 {
        Seq::empty()
    } else {
        be_bytes_of(v / 256, (n - 1) as nat).push((v % 256) as u8)
    }
}

/// The signed reading of an unsigned `n`-byte value: two's complement.
pub open spec fn signed_of(v: nat, n: nat) -> int {
    if 2 * v < pow256(n) {
        v as int
    } else {
        v as int - pow256(n)
    }
}

/// The unsigned `n`-byte image of a signed value: two's complement.
pub open spec fn unsigned_of(x: int, n: nat) -> nat {
    if x >= 0 {
        x as nat
    } else {
        (x + pow256(n)) as nat
    }
}

pub proof fn lemma_pow256_pos(n: nat)
    ensures
        pow256(n) >= 1,
    decreases n,
{
    if n > 0 {
        lemma_pow256_pos((n - 1) as nat);
    }
}

pub proof fn lemma_pow256_monotone(a: nat, b: nat)
    requires
        a <= b,
    ensures
        pow256(a) <= pow256(b),
    decreases b,
{
    if a < b {
        lemma_pow256_monotone(a, (b - 1) as nat);
        lemma_pow256_pos((b - 1) as nat);
    }
}

pub proof fn lemma_pow256_values()
    ensures
        pow256(0) == 1,
        pow256(1) == 0x100,
        pow256(2) == 0x10000,
        pow256(4) == 0x1_0000_0000,
        pow256(8) == 0x1_0000_0000_0000_0000,
        pow256(15) == 0x1000000_0000_0000_0000_0000_0000_0000,
        pow256(16) == 0x1_0000_0000_0000_0000_0000_0000_0000_0000,
{
    reveal_with_fuel(pow256, 17);
}

/// A byte sequence denotes fewer than `256^len` values, little-endian.
pub proof fn lemma_le_value_bound(s: Seq<u8>)
    ensures
        le_value(s) < pow256(s.len()),
    decreases s.len(),
{
    if s.len() > 0 {
        lemma_le_value_bound(s.drop_first());
    }
}

/// A byte sequence denotes fewer than `256^len` values, big-endian.
pub proof fn lemma_be_value_bound(s: Seq<u8>)
    ensures
        be_value(s) < pow256(s.len()),
    decreases s.len(),
{
    if s.len() > 0 {
        lemma_be_value_bound(s.drop_last());
    }
}

pub proof fn lemma_le_bytes_of_len(v: nat, n: nat)
    ensures
        le_bytes_of(v, n).len() == n,
    decreases n,
{
    if n > 0 {
        lemma_le_bytes_of_len(v / 256, (n - 1) as nat);
    }
}

pub proof fn lemma_be_bytes_of_len(v: nat, n: nat)
    ensures
        be_bytes_of(v, n).len() == n,
    decreases n,
{
    if n > 0 {
        lemma_be_bytes_of_len(v / 256, (n - 1) as nat);
    }
}

/// Decoding the little-endian image of `v` yields `v` again.
pub proof fn lemma_le_round_trip(v: nat, n: nat)
    requires
        v < pow256(n),
    ensures
        le_value(le_bytes_of(v, n)) == v,
    decreases n,
{
    if n > 0 {
        assert(v / 256 < pow256((n - 1) as nat)) by {
            lemma_fundamental_div_mod(v as int, 256);
        }
        lemma_le_round_trip(v / 256, (n - 1) as nat);
        lemma_le_bytes_of_len(v / 256, (n - 1) as nat);
        let s = le_bytes_of(v, n);
        assert(s.drop_first() =~= le_bytes_of(v / 256, (n - 1) as nat));
        lemma_fundamental_div_mod(v as int, 256);
    }
}

/// Decoding the big-endian image of `v` yields `v` again.
pub proof fn lemma_be_round_trip(v: nat, n: nat)
    requires
        v < pow256(n),
    ensures
        be_value(be_bytes_of(v, n)) == v,
    decreases n,
{
    if n > 0 {
        assert(v / 256 < pow256((n - 1) as nat)) by {
            lemma_fundamental_div_mod(v as int, 256);
        }
        lemma_be_round_trip(v / 256, (n - 1) as nat);
        lemma_be_bytes_of_len(v / 256, (n - 1) as nat);
        let s = be_bytes_of(v, n);
        assert(s.drop_last() =~= be_bytes_of(v / 256, (n - 1) as nat));
        lemma_fundamental_div_mod(v as int, 256);
    }
}

/// Byte `i` of the little-endian image of `v`.
pub proof fn lemma_le_bytes_of_index(v: nat, n: nat, i: int)
    requires
        0 <= i < n,
    ensures
        le_bytes_of(v, n)[i] == ((v / pow256(i as nat)) % 256) as u8,
    decreases i,
{
    lemma_le_bytes_of_len(v / 256, (n - 1) as nat);
    if i == 0 {
        assert(v / pow256(0) == v) by {
            vstd::arithmetic::div_mod::lemma_div_basics(v as int);
        }
    } else {
        lemma_le_bytes_of_index(v / 256, (n - 1) as nat, i - 1);
        lemma_pow256_pos((i - 1) as nat);
        lemma_div_denominator(v as int, 256, pow256((i - 1) as nat) as int);
        assert(256 * pow256((i - 1) as nat) == pow256(i as nat));
    }
}

/// Byte `i` of the big-endian image of `v`.
pub proof fn lemma_be_bytes_of_index(v: nat, n: nat, i: int)
    requires
        0 <= i < n,
    ensures
        be_bytes_of(v, n)[i] == ((v / pow256((n - 1 - i) as nat)) % 256) as u8,
    decreases n,
{
    lemma_be_bytes_of_len(v / 256, (n - 1) as nat);
    if i == n - 1 {
        assert(v / pow256(0) == v) by {
            vstd::arithmetic::div_mod::lemma_div_basics(v as int);
        }
    } else {
        lemma_be_bytes_of_index(v / 256, (n - 1) as nat, i);
        lemma_pow256_pos((n - 2 - i) as nat);
        lemma_div_denominator(v as int, 256, pow256((n - 2 - i) as nat) as int);
        assert(256 * pow256((n - 2 - i) as nat) == pow256((n - 1 - i) as nat));
    }
}

/// Two's complement round trip: folding the unsigned image back to a signed
/// reading recovers the value, for values of the `n`-byte signed range.
pub proof fn lemma_signed_round_trip(x: int, n: nat)
    requires
        -(pow256(n) as int) <= 2 * x < pow256(n),
    ensures
        unsigned_of(x, n) < pow256(n),
        signed_of(unsigned_of(x, n), n) == x,
{
    lemma_pow256_pos(n);
}

/// Decodes up to 16 little-endian bytes into their value.
fn le_decode(bytes: &[u8]) -> (r: u128)
    requires
        bytes@.len() <= 16,
    ensures
        r as nat == le_value(bytes@),
{
    let n = bytes.len();
    let mut acc: u128 = 0;
    let mut j: usize = n;
    while j > 0
        invariant
            j <= n,
            n == bytes@.len(),
            n <= 16,
            acc as nat == le_value(bytes@.skip(j as int)),
            (acc as nat) < pow256((n - j) as nat),
        decreases j,
    {
        j = j - 1;
        let b = bytes[j];
        proof {
            assert(bytes@.skip(j as int).drop_first() =~= bytes@.skip(j as int + 1));
            lemma_pow256_monotone((n - j) as nat, 16);
            lemma_pow256_values();
        }
        acc = acc * 256 + b as u128;
    }
    proof {
        assert(bytes@.skip(0) =~= bytes@);
    }
    acc
}

/// Decodes up to 16 big-endian bytes into their value.
fn be_decode(bytes: &[u8]) -> (r: u128)
    requires
        bytes@.len() <= 16,
    ensures
        r as nat == be_value(bytes@),
{
    let n = bytes.len();
    let mut acc: u128 = 0;
    let mut i: usize = 0;
    while i < n
        invariant
            i <= n,
            n == bytes@.len(),
            n <= 16,
            acc as nat == be_value(bytes@.take(i as int)),
            (acc as nat) < pow256(i as nat),
        decreases n - i,
    {
        let b = bytes[i];
        proof {
            assert(bytes@.take(i as int + 1).drop_last() =~= bytes@.take(i as int));
            assert(bytes@.take(i as int + 1).last() == bytes@[i as int]);
            lemma_pow256_monotone((i + 1) as nat, 16);
            lemma_pow256_values();
        }
        acc = acc * 256 + b as u128;
        i = i + 1;
    }
    proof {
        assert(bytes@.take(n as int) =~= bytes@);
    }
    acc
}

/// Computes `256^k` for the byte offsets an encoder reads at.
fn pow256_exec(k: usize) -> (r: u128)
    requires
        k <= 15,
    ensures
        r as nat == pow256(k as nat),
{
    let mut r: u128 = 1;
    let mut j: usize = 0;
    while j < k
        invariant
            j <= k,
            k <= 15,
            r as nat == pow256(j as nat),
        decreases k - j,
    {
        proof {
            lemma_pow256_monotone((j + 1) as nat, 15);
            lemma_pow256_values();
        }
        r = r * 256;
        j = j + 1;
    }
    r
}

/// A lazy, finite byte sequence: the byte-order-transformed image of one
/// integer value, produced one byte at a time by reading the image at the
/// cursor's offset, without an intermediate buffer. Single-use: it terminates
/// for good after exactly `width` bytes.
pub struct IntegerEndianIter {
    data: u128,
    width: usize,
    idx: usize,
    big: bool,
}

impl IntegerEndianIter {
    /// The full byte image being produced.
    pub closed spec fn full(self) -> Seq<u8> {
        if self.big {
            be_bytes_of(self.data as nat, self.width as nat)
        } else {
            le_bytes_of(self.data as nat, self.width as nat)
        }
    }

    /// The bytes not yet handed out.
    pub closed spec fn pending(self) -> Seq<u8> {
        self.full().skip(self.idx as int)
    }

    /// The cursor never leaves the image, which covers the whole value.
    pub closed spec fn wf(self) -> bool {
        &&& self.idx <= self.width
        &&& self.width <= 16
        &&& (self.data as nat) < pow256(self.width as nat)
    }

    /// Builds the sequence over the `width`-byte image of `data`,
    /// big-endian when `big` is set, else little-endian.
    fn make(data: u128, width: usize, big: bool) -> (r: IntegerEndianIter)
        requires
            width <= 16,
            (data as nat) < pow256(width as nat),
        ensures
            r.wf(),
            big ==> r.pending() == be_bytes_of(data as nat, width as nat),
            !big ==> r.pending() == le_bytes_of(data as nat, width as nat),
    {
        let r = IntegerEndianIter { data, width, idx: 0, big };
        proof {
            assert(r.pending() =~= r.full());
        }
        r
    }

    /// Hands out the next byte of the image, or nothing once all `width`
    /// bytes are out.
    pub fn next(&mut self) -> (r: Option<u8>)
        requires
            old(self).wf(),
        ensures
            final(self).wf(),
            final(self).full() == old(self).full(),
            old(self).pending().len() == 0 ==> r is None && final(self).pending() == old(
                self,
            ).pending(),
            old(self).pending().len() > 0 ==> r == Some(old(self).pending()[0])
                && final(self).pending() == old(self).pending().drop_first(),
    {
        proof {
            lemma_le_bytes_of_len(self.data as nat, self.width as nat);
            lemma_be_bytes_of_len(self.data as nat, self.width as nat);
        }
        if self.idx >= self.width {
            None
        } else {
            let shift = if self.big {
                self.width - 1 - self.idx
            } else {
                self.idx
            };
            let p = pow256_exec(shift);
            proof {
                lemma_pow256_pos(shift as nat);
                if self.big {
                    lemma_be_bytes_of_index(self.data as nat, self.width as nat, self.idx as int);
                } else {
                    lemma_le_bytes_of_index(self.data as nat, self.width as nat, self.idx as int);
                }
                assert(self.full().skip(self.idx as int).drop_first() =~= self.full().skip(
                    self.idx as int + 1,
                ));
            }
            let byte = ((self.data / p) % 256) as u8;
            self.idx = self.idx + 1;
            Some(byte)
        }
    }
}

/// Access to a value's little-endian image as a lazy byte sequence.
pub trait IntoLeIter: Sized {
    /// The little-endian byte image of the value.
    spec fn le_bytes(self) -> Seq<u8>;

    /// Starts the lazy byte sequence of the value's little-endian image.
    fn into_leiter(self) -> (r: IntegerEndianIter)
        ensures
            r.wf(),
            r.pending() == self.le_bytes(),
    ;
}

/// Access to a value's big-endian image as a lazy byte sequence.
pub trait IntoBeIter: Sized {
    /// The big-endian byte image of the value.
    spec fn be_bytes(self) -> Seq<u8>;

    /// Starts the lazy byte sequence of the value's big-endian image.
    fn into_beiter(self) -> (r: IntegerEndianIter)
        ensures
            r.wf(),
            r.pending() == self.be_bytes(),
    ;
}

/// A fixed-width integer that decodes from a byte slice whose length equals
/// the type's byte width exactly; any other length is a [`LengthMismatch`],
/// never a truncation or padding.
pub trait Endian: Sized {
    /// The type's byte width.
    spec fn width() -> nat;

    /// The value whose unsigned `width()`-byte reading is `v`.
    spec fn of_unsigned(v: nat) -> Self;

    /// Decodes a little-endian byte slice.
    fn try_from_le_bytes(bytes: &[u8]) -> (r: Result<Self, LengthMismatch>)
        ensures
            bytes@.len() == Self::width() ==> r == Ok::<Self, LengthMismatch>(
                Self::of_unsigned(le_value(bytes@)),
            ),
            bytes@.len() != Self::width() ==> r == Err::<Self, LengthMismatch>(LengthMismatch),
    ;

    /// Decodes a big-endian byte slice.
    fn try_from_be_bytes(bytes: &[u8]) -> (r: Result<Self, LengthMismatch>)
        ensures
            bytes@.len() == Self::width() ==> r == Ok::<Self, LengthMismatch>(
                Self::of_unsigned(be_value(bytes@)),
            ),
            bytes@.len() != Self::width() ==> r == Err::<Self, LengthMismatch>(LengthMismatch),
    ;
}

impl Endian for u8 {
    open spec fn width() -> nat {
        1
    }

    open spec fn of_unsigned(v: nat) -> u8 {
        v as u8
    }

    fn try_from_le_bytes(bytes: &[u8]) -> (r: Result<u8, LengthMismatch>) {
        if bytes.len() != 1 {
            Err(LengthMismatch)
        } else {
            let v = le_decode(bytes);
            proof {
                lemma_le_value_bound(bytes@);
                lemma_pow256_values();
            }
            Ok(v as u8)
        }
    }

    fn try_from_be_bytes(bytes: &[u8]) -> (r: Result<u8, LengthMismatch>) {
        if bytes.len() != 1 {
            Err(LengthMismatch)
        } else {
            let v = be_decode(bytes);
            proof {
                lemma_be_value_bound(bytes@);
                lemma_pow256_values();
            }
            Ok(v as u8)
        }
    }
}

impl Endian for u32 {
    open spec fn width() -> nat {
        4
    }

    open spec fn of_unsigned(v: nat) -> u32 {
        v as u32
    }

    fn try_from_le_bytes(bytes: &[u8]) -> (r: Result<u32, LengthMismatch>) {
        if bytes.len() != 4 {
            Err(LengthMismatch)
        } else {
            let v = le_decode(bytes);
            proof {
                lemma_le_value_bound(bytes@);
                lemma_pow256_values();
            }
            Ok(v as u32)
        }
    }

    fn try_from_be_bytes(bytes: &[u8]) -> (r: Result<u32, LengthMismatch>) {
        if bytes.len() != 4 {
            Err(LengthMismatch)
        } else {
            let v = be_decode(bytes);
            proof {
                lemma_be_value_bound(bytes@);
                lemma_pow256_values();
            }
            Ok(v as u32)
        }
    }
}

impl Endian for i32 {
    open spec fn width() -> nat {
        4
    }

    open spec fn of_unsigned(v: nat) -> i32 {
        signed_of(v, 4) as i32
    }

    fn try_from_le_bytes(bytes: &[u8]) -> (r: Result<i32, LengthMismatch>) {
        if bytes.len() != 4 {
            Err(LengthMismatch)
        } else {
            let v = le_decode(bytes);
            proof {
                lemma_le_value_bound(bytes@);
                lemma_pow256_values();
            }
            Ok(fold_signed_32(v))
        }
    }

    fn try_from_be_bytes(bytes: &[u8]) -> (r: Result<i32, LengthMismatch>) {
        if bytes.len() != 4 {
            Err(LengthMismatch)
        } else {
            let v = be_decode(bytes);
            proof {
                lemma_be_value_bound(bytes@);
                lemma_pow256_values();
            }
            Ok(fold_signed_32(v))
        }
    }
}

/// Folds an unsigned 4-byte value to its two's-complement signed reading.
fn fold_signed_32(v: u128) -> (r: i32)
    requires
        v < 0x1_0000_0000,
    ensures
        r as int == signed_of(v as nat, 4),
{
    proof {
        lemma_pow256_values();
    }
    if v < 0x8000_0000 {
        v as i32
    } else {
        let d = 0x1_0000_0000u128 - v;
        if d == 0x8000_0000 {
            i32::MIN
        } else {
            -(d as i32)
        }
    }
}

impl IntoLeIter for u8 {
    open spec fn le_bytes(self) -> Seq<u8> {
        le_bytes_of(self as nat, 1)
    }

    fn into_leiter(self) -> (r: IntegerEndianIter) {
        proof {
            lemma_pow256_values();
        }
        IntegerEndianIter::make(self as u128, 1, false)
    }
}

impl IntoBeIter for u8 {
    open spec fn be_bytes(self) -> Seq<u8> {
        be_bytes_of(self as nat, 1)
    }

    fn into_beiter(self) -> (r: IntegerEndianIter) {
        proof {
            lemma_pow256_values();
        }
        IntegerEndianIter::make(self as u128, 1, true)
    }
}

impl IntoLeIter for u32 {
    open spec fn le_bytes(self) -> Seq<u8> {
        le_bytes_of(self as nat, 4)
    }

    fn into_leiter(self) -> (r: IntegerEndianIter) {
        proof {
            lemma_pow256_values();
        }
        IntegerEndianIter::make(self as u128, 4, false)
    }
}

impl IntoBeIter for u32 {
    open spec fn be_bytes(self) -> Seq<u8> {
        be_bytes_of(self as nat, 4)
    }

    fn into_beiter(self) -> (r: IntegerEndianIter) {
        proof {
            lemma_pow256_values();
        }
        IntegerEndianIter::make(self as u128, 4, true)
    }
}

/// The two's-complement unsigned 4-byte image of a signed value.
fn unsigned_rep_32(x: i32) -> (r: u128)
    ensures
        r as nat == unsigned_of(x as int, 4),
        r < 0x1_0000_0000,
{
    proof {
        lemma_pow256_values();
    }
    if x >= 0 {
        x as u128
    } else {
        let y = -(x + 1);
        0xffff_ffffu128 - (y as u128)
    }
}

impl IntoLeIter for i32 {
    open spec fn le_bytes(self) -> Seq<u8> {
        le_bytes_of(unsigned_of(self as int, 4), 4)
    }

    fn into_leiter(self) -> (r: IntegerEndianIter) {
        let u = unsigned_rep_32(self);
        proof {
            lemma_pow256_values();
        }
        IntegerEndianIter::make(u, 4, false)
    }
}

impl IntoBeIter for i32 {
    open spec fn be_bytes(self) -> Seq<u8> {
        be_bytes_of(unsigned_of(self as int, 4), 4)
    }

    fn into_beiter(self) -> (r: IntegerEndianIter) {
        let u = unsigned_rep_32(self);
        proof {
            lemma_pow256_values();
        }
        IntegerEndianIter::make(u, 4, true)
    }
}

impl Endian for u16 {
    open spec fn width() -> nat {
        2
    }

    open spec fn of_unsigned(v: nat) -> u16 {
        v as u16
    }

    fn try_from_le_bytes(bytes: &[u8]) -> (r: Result<u16, LengthMismatch>) {
        if bytes.len() != 2 {
            Err(LengthMismatch)
        } else {
            let v = le_decode(bytes);
            proof {
                lemma_le_value_bound(bytes@);
                lemma_pow256_values();
            }
            Ok(v as u16)
        }
    }

    fn try_from_be_bytes(bytes: &[u8]) -> (r: Result<u16, LengthMismatch>) {
        if bytes.len() != 2 {
            Err(LengthMismatch)
        } else {
            let v = be_decode(bytes);
            proof {
                lemma_be_value_bound(bytes@);
                lemma_pow256_values();
            }
            Ok(v as u16)
        }
    }
}

impl IntoLeIter for u16 {
    open spec fn le_bytes(self) -> Seq<u8> {
        le_bytes_of(self as nat, 2)
    }

    fn into_leiter(self) -> (r: IntegerEndianIter) {
        proof {
            lemma_pow256_values();
        }
        IntegerEndianIter::make(self as u128, 2, false)
    }
}

impl IntoBeIter for u16 {
    open spec fn be_bytes(self) -> Seq<u8> {
        be_bytes_of(self as nat, 2)
    }

    fn into_beiter(self) -> (r: IntegerEndianIter) {
        proof {
            lemma_pow256_values();
        }
        IntegerEndianIter::make(self as u128, 2, true)
    }
}

impl Endian for u64 {
    open spec fn width() -> nat {
        8
    }

    open spec fn of_unsigned(v: nat) -> u64 {
        v as u64
    }

    fn try_from_le_bytes(bytes: &[u8]) -> (r: Result<u64, LengthMismatch>) {
        if bytes.len() != 8 {
            Err(LengthMismatch)
        } else {
            let v = le_decode(bytes);
            proof {
                lemma_le_value_bound(bytes@);
                lemma_pow256_values();
            }
            Ok(v as u64)
        }
    }

    fn try_from_be_bytes(bytes: &[u8]) -> (r: Result<u64, LengthMismatch>) {
        if bytes.len() != 8 {
            Err(LengthMismatch)
        } else {
            let v = be_decode(bytes);
            proof {
                lemma_be_value_bound(bytes@);
                lemma_pow256_values();
            }
            Ok(v as u64)
        }
    }
}

impl IntoLeIter for u64 {
    open spec fn le_bytes(self) -> Seq<u8> {
        le_bytes_of(self as nat, 8)
    }

    fn into_leiter(self) -> (r: IntegerEndianIter) {
        proof {
            lemma_pow256_values();
        }
        IntegerEndianIter::make(self as u128, 8, false)
    }
}

impl IntoBeIter for u64 {
    open spec fn be_bytes(self) -> Seq<u8> {
        be_bytes_of(self as nat, 8)
    }

    fn into_beiter(self) -> (r: IntegerEndianIter) {
        proof {
            lemma_pow256_values();
        }
        IntegerEndianIter::make(self as u128, 8, true)
    }
}

impl Endian for u128 {
    open spec fn width() -> nat {
        16
    }

    open spec fn of_unsigned(v: nat) -> u128 {
        v as u128
    }

    fn try_from_le_bytes(bytes: &[u8]) -> (r: Result<u128, LengthMismatch>) {
        if bytes.len() != 16 {
            Err(LengthMismatch)
        } else {
            let v = le_decode(bytes);
            proof {
                lemma_le_value_bound(bytes@);
                lemma_pow256_values();
            }
            Ok(v)
        }
    }

    fn try_from_be_bytes(bytes: &[u8]) -> (r: Result<u128, LengthMismatch>) {
        if bytes.len() != 16 {
            Err(LengthMismatch)
        } else {
            let v = be_decode(bytes);
            proof {
                lemma_be_value_bound(bytes@);
                lemma_pow256_values();
            }
            Ok(v)
        }
    }
}

impl IntoLeIter for u128 {
    open spec fn le_bytes(self) -> Seq<u8> {
        le_bytes_of(self as nat, 16)
    }

    fn into_leiter(self) -> (r: IntegerEndianIter) {
        proof {
            lemma_pow256_values();
        }
        IntegerEndianIter::make(self as u128, 16, false)
    }
}

impl IntoBeIter for u128 {
    open spec fn be_bytes(self) -> Seq<u8> {
        be_bytes_of(self as nat, 16)
    }

    fn into_beiter(self) -> (r: IntegerEndianIter) {
        proof {
            lemma_pow256_values();
        }
        IntegerEndianIter::make(self as u128, 16, true)
    }
}

impl Endian for i8 {
    open spec fn width() -> nat {
        1
    }

    open spec fn of_unsigned(v: nat) -> i8 {
        signed_of(v, 1) as i8
    }

    fn try_from_le_bytes(bytes: &[u8]) -> (r: Result<i8, LengthMismatch>) {
        if bytes.len() != 1 {
            Err(LengthMismatch)
        } else {
            let v = le_decode(bytes);
            proof {
                lemma_le_value_bound(bytes@);
                lemma_pow256_values();
            }
            Ok(fold_signed_8(v))
        }
    }

    fn try_from_be_bytes(bytes: &[u8]) -> (r: Result<i8, LengthMismatch>) {
        if bytes.len() != 1 {
            Err(LengthMismatch)
        } else {
            let v = be_decode(bytes);
            proof {
                lemma_be_value_bound(bytes@);
                lemma_pow256_values();
            }
            Ok(fold_signed_8(v))
        }
    }
}

/// Folds an unsigned 1-byte value to its two's-complement signed reading.
fn fold_signed_8(v: u128) -> (r: i8)
    requires
        v < 0x100,
    ensures
        r as int == signed_of(v as nat, 1),
{
    proof {
        lemma_pow256_values();
    }
    if v < 0x80 {
        v as i8
    } else {
        let d = 0x100u128 - v;
        if d == 0x80 {
            i8::MIN
        } else {
            -(d as i8)
        }
    }
}

/// The two's-complement unsigned 1-byte image of a signed value.
fn unsigned_rep_8(x: i8) -> (r: u128)
    ensures
        r as nat == unsigned_of(x as int, 1),
        r < 0x100,
{
    proof {
        lemma_pow256_values();
    }
    if x >= 0 {
        x as u128
    } else {
        let y = -(x + 1);
        0xffu128 - (y as u128)
    }
}

impl IntoLeIter for i8 {
    open spec fn le_bytes(self) -> Seq<u8> {
        le_bytes_of(unsigned_of(self as int, 1), 1)
    }

    fn into_leiter(self) -> (r: IntegerEndianIter) {
        let u = unsigned_rep_8(self);
        proof {
            lemma_pow256_values();
        }
        IntegerEndianIter::make(u, 1, false)
    }
}

impl IntoBeIter for i8 {
    open spec fn be_bytes(self) -> Seq<u8> {
        be_bytes_of(unsigned_of(self as int, 1), 1)
    }

    fn into_beiter(self) -> (r: IntegerEndianIter) {
        let u = unsigned_rep_8(self);
        proof {
            lemma_pow256_values();
        }
        IntegerEndianIter::make(u, 1, true)
    }
}

impl Endian for i16 {
    open spec fn width() -> nat {
        2
    }

    open spec fn of_unsigned(v: nat) -> i16 {
        signed_of(v, 2) as i16
    }

    fn try_from_le_bytes(bytes: &[u8]) -> (r: Result<i16, LengthMismatch>) {
        if bytes.len() != 2 {
            Err(LengthMismatch)
        } else {
            let v = le_decode(bytes);
            proof {
                lemma_le_value_bound(bytes@);
                lemma_pow256_values();
            }
            Ok(fold_signed_16(v))
        }
    }

    fn try_from_be_bytes(bytes: &[u8]) -> (r: Result<i16, LengthMismatch>) {
        if bytes.len() != 2 {
            Err(LengthMismatch)
        } else {
            let v = be_decode(bytes);
            proof {
                lemma_be_value_bound(bytes@);
                lemma_pow256_values();
            }
            Ok(fold_signed_16(v))
        }
    }
}

/// Folds an unsigned 2-byte value to its two's-complement signed reading.
fn fold_signed_16(v: u128) -> (r: i16)
    requires
        v < 0x1_0000,
    ensures
        r as int == signed_of(v as nat, 2),
{
    proof {
        lemma_pow256_values();
    }
    if v < 0x8000 {
        v as i16
    } else {
        let d = 0x1_0000u128 - v;
        if d == 0x8000 {
            i16::MIN
        } else {
            -(d as i16)
        }
    }
}

/// The two's-complement unsigned 2-byte image of a signed value.
fn unsigned_rep_16(x: i16) -> (r: u128)
    ensures
        r as nat == unsigned_of(x as int, 2),
        r < 0x1_0000,
{
    proof {
        lemma_pow256_values();
    }
    if x >= 0 {
        x as u128
    } else {
        let y = -(x + 1);
        0xffffu128 - (y as u128)
    }
}

impl IntoLeIter for i16 {
    open spec fn le_bytes(self) -> Seq<u8> {
        le_bytes_of(unsigned_of(self as int, 2), 2)
    }

    fn into_leiter(self) -> (r: IntegerEndianIter) {
        let u = unsigned_rep_16(self);
        proof {
            lemma_pow256_values();
        }
        IntegerEndianIter::make(u, 2, false)
    }
}

impl IntoBeIter for i16 {
    open spec fn be_bytes(self) -> Seq<u8> {
        be_bytes_of(unsigned_of(self as int, 2), 2)
    }

    fn into_beiter(self) -> (r: IntegerEndianIter) {
        let u = unsigned_rep_16(self);
        proof {
            lemma_pow256_values();
        }
        IntegerEndianIter::make(u, 2, true)
    }
}

impl Endian for i64 {
    open spec fn width() -> nat {
        8
    }

    open spec fn of_unsigned(v: nat) -> i64 {
        signed_of(v, 8) as i64
    }

    fn try_from_le_bytes(bytes: &[u8]) -> (r: Result<i64, LengthMismatch>) {
        if bytes.len() != 8 {
            Err(LengthMismatch)
        } else {
            let v = le_decode(bytes);
            proof {
                lemma_le_value_bound(bytes@);
                lemma_pow256_values();
            }
            Ok(fold_signed_64(v))
        }
    }

    fn try_from_be_bytes(bytes: &[u8]) -> (r: Result<i64, LengthMismatch>) {
        if bytes.len() != 8 {
            Err(LengthMismatch)
        } else {
            let v = be_decode(bytes);
            proof {
                lemma_be_value_bound(bytes@);
                lemma_pow256_values();
            }
            Ok(fold_signed_64(v))
        }
    }
}

/// Folds an unsigned 8-byte value to its two's-complement signed reading.
fn fold_signed_64(v: u128) -> (r: i64)
    requires
        v < 0x1_0000_0000_0000_0000,
    ensures
        r as int == signed_of(v as nat, 8),
{
    proof {
        lemma_pow256_values();
    }
    if v < 0x8000_0000_0000_0000 {
        v as i64
    } else {
        let d = 0x1_0000_0000_0000_0000u128 - v;
        if d == 0x8000_0000_0000_0000 {
            i64::MIN
        } else {
            -(d as i64)
        }
    }
}

/// The two's-complement unsigned 8-byte image of a signed value.
fn unsigned_rep_64(x: i64) -> (r: u128)
    ensures
        r as nat == unsigned_of(x as int, 8),
        r < 0x1_0000_0000_0000_0000,
{
    proof {
        lemma_pow256_values();
    }
    if x >= 0 {
        x as u128
    } else {
        let y = -(x + 1);
        0xffff_ffff_ffff_ffffu128 - (y as u128)
    }
}

impl IntoLeIter for i64 {
    open spec fn le_bytes(self) -> Seq<u8> {
        le_bytes_of(unsigned_of(self as int, 8), 8)
    }

    fn into_leiter(self) -> (r: IntegerEndianIter) {
        let u = unsigned_rep_64(self);
        proof {
            lemma_pow256_values();
        }
        IntegerEndianIter::make(u, 8, false)
    }
}

impl IntoBeIter for i64 {
    open spec fn be_bytes(self) -> Seq<u8> {
        be_bytes_of(unsigned_of(self as int, 8), 8)
    }

    fn into_beiter(self) -> (r: IntegerEndianIter) {
        let u = unsigned_rep_64(self);
        proof {
            lemma_pow256_values();
        }
        IntegerEndianIter::make(u, 8, true)
    }
}

impl Endian for i128 {
    open spec fn width() -> nat {
        16
    }

    open spec fn of_unsigned(v: nat) -> i128 {
        signed_of(v, 16) as i128
    }

    fn try_from_le_bytes(bytes: &[u8]) -> (r: Result<i128, LengthMismatch>) {
        if bytes.len() != 16 {
            Err(LengthMismatch)
        } else {
            let v = le_decode(bytes);
            proof {
                lemma_le_value_bound(bytes@);
                lemma_pow256_values();
            }
            Ok(fold_signed_128(v))
        }
    }

    fn try_from_be_bytes(bytes: &[u8]) -> (r: Result<i128, LengthMismatch>) {
        if bytes.len() != 16 {
            Err(LengthMismatch)
        } else {
            let v = be_decode(bytes);
            proof {
                lemma_be_value_bound(bytes@);
                lemma_pow256_values();
            }
            Ok(fold_signed_128(v))
        }
    }
}

/// Folds an unsigned 16-byte value to its two's-complement signed reading.
fn fold_signed_128(v: u128) -> (r: i128)
    ensures
        r as int == signed_of(v as nat, 16),
{
    proof {
        lemma_pow256_values();
    }
    if v < 0x8000_0000_0000_0000_0000_0000_0000_0000 {
        v as i128
    } else {
        let d = (u128::MAX - v) + 1;
        if d == 0x8000_0000_0000_0000_0000_0000_0000_0000 {
            i128::MIN
        } else {
            -(d as i128)
        }
    }
}

/// The two's-complement unsigned 16-byte image of a signed value.
fn unsigned_rep_128(x: i128) -> (r: u128)
    ensures
        r as nat == unsigned_of(x as int, 16),
{
    proof {
        lemma_pow256_values();
    }
    if x >= 0 {
        x as u128
    } else {
        let y = -(x + 1);
        u128::MAX - (y as u128)
    }
}

impl IntoLeIter for i128 {
    open spec fn le_bytes(self) -> Seq<u8> {
        le_bytes_of(unsigned_of(self as int, 16), 16)
    }

    fn into_leiter(self) -> (r: IntegerEndianIter) {
        let u = unsigned_rep_128(self);
        proof {
            lemma_pow256_values();
        }
        IntegerEndianIter::make(u, 16, false)
    }
}

impl IntoBeIter for i128 {
    open spec fn be_bytes(self) -> Seq<u8> {
        be_bytes_of(unsigned_of(self as int, 16), 16)
    }

    fn into_beiter(self) -> (r: IntegerEndianIter) {
        let u = unsigned_rep_128(self);
        proof {
            lemma_pow256_values();
        }
        IntegerEndianIter::make(u, 16, true)
    }
}

/// What decoding returns, as a function of the bytes and the order: the
/// order's reading of the bytes when the length equals the type's byte
/// width, and a `LengthMismatch` on every other length.
pub open spec fn decode_spec<T: Endian>(bytes: Seq<u8>, order: ByteOrder) -> Result<
    T,
    LengthMismatch,
> {
    if bytes.len() == T::width() {
        if order is Big {
            Ok(T::of_unsigned(be_value(bytes)))
        } else {
            Ok(T::of_unsigned(le_value(bytes)))
        }
    } else {
        Err(LengthMismatch)
    }
}

/// Decodes a byte slice into a fixed-width integer under `order`. Succeeds
/// exactly when the slice's length equals the type's byte width.
pub fn decode<T: Endian>(bytes: &[u8], order: ByteOrder) -> (r: Result<T, LengthMismatch>)
    ensures
        r == decode_spec::<T>(bytes@, order),
{
    match order {
        ByteOrder::Big => T::try_from_be_bytes(bytes),
        _ => T::try_from_le_bytes(bytes),
    }
}

/// The byte image encoding produces, as a function of the value and the
/// order.
pub open spec fn encode_spec<T: IntoLeIter + IntoBeIter>(v: T, order: ByteOrder) -> Seq<u8> {
    if order is Big {
        v.be_bytes()
    } else {
        v.le_bytes()
    }
}

/// Encodes a fixed-width integer as a lazy byte sequence of exactly the
/// type's byte width under `order`, without materializing a buffer.
pub fn encode_sequence<T: IntoLeIter + IntoBeIter>(v: T, order: ByteOrder) -> (r:
    IntegerEndianIter)
    ensures
        r.wf(),
        r.pending() == encode_spec(v, order),
{
    match order {
        ByteOrder::Big => v.into_beiter(),
        _ => v.into_leiter(),
    }
}

/// Native order is a pure bit reinterpretation: on the little-endian
/// platforms this library targets it decodes exactly as `Little` does.
pub proof fn lemma_native_decodes_as_little<T: Endian>(bytes: Seq<u8>)
    ensures
        decode_spec::<T>(bytes, ByteOrder::Native) == decode_spec::<T>(bytes, ByteOrder::Little),
{
}

/// A value tagged as little-endian at conversion boundaries; the wrapped
/// value itself always stays in native form.
#[derive(Debug)]
pub struct Le<T>(pub T);

/// A value tagged as big-endian at conversion boundaries; the wrapped value
/// itself always stays in native form.
#[derive(Debug)]
pub struct Be<T>(pub T);

impl<T: Endian> Le<T> {
    /// Decodes a little-endian byte slice into a tagged value.
    pub fn try_from(bytes: &[u8]) -> (r: Result<Le<T>, LengthMismatch>)
        ensures
            bytes@.len() == T::width() ==> (r matches Ok(v) && v.0 == T::of_unsigned(
                le_value(bytes@),
            )),
            bytes@.len() != T::width() ==> (r matches Err(e) && e == LengthMismatch),
    {
        match T::try_from_le_bytes(bytes) {
            Ok(v) => Ok(Le(v)),
            Err(e) => Err(e),
        }
    }
}

impl<T: Endian> Be<T> {
    /// Decodes a big-endian byte slice into a tagged value.
    pub fn try_from(bytes: &[u8]) -> (r: Result<Be<T>, LengthMismatch>)
        ensures
            bytes@.len() == T::width() ==> (r matches Ok(v) && v.0 == T::of_unsigned(
                be_value(bytes@),
            )),
            bytes@.len() != T::width() ==> (r matches Err(e) && e == LengthMismatch),
    {
        match T::try_from_be_bytes(bytes) {
            Ok(v) => Ok(Be(v)),
            Err(e) => Err(e),
        }
    }
}

impl<T: IntoLeIter> Le<T> {
    /// Starts the lazy byte sequence of the tagged value's little-endian
    /// image.
    pub fn into_iter(self) -> (r: IntegerEndianIter)
        ensures
            r.wf(),
            r.pending() == self.0.le_bytes(),
    {
        self.0.into_leiter()
    }
}

impl<T: IntoBeIter> Be<T> {
    /// Starts the lazy byte sequence of the tagged value's big-endian image.
    pub fn into_iter(self) -> (r: IntegerEndianIter)
        ensures
            r.wf(),
            r.pending() == self.0.be_bytes(),
    {
        self.0.into_beiter()
    }
}

/// Round trip: decoding the encoded image of a `u8` under the same byte
/// order reproduces the value exactly.
pub proof fn lemma_round_trip_u8(v: u8, order: ByteOrder)
    ensures
        decode_spec::<u8>(encode_spec(v, order), order) == Ok::<u8, LengthMismatch>(v),
{
    lemma_pow256_values();
    lemma_le_bytes_of_len(v as nat, 1);
    lemma_be_bytes_of_len(v as nat, 1);
    lemma_le_round_trip(v as nat, 1);
    lemma_be_round_trip(v as nat, 1);
}

/// Round trip: decoding the encoded image of a `u16` under the same byte
/// order reproduces the value exactly.
pub proof fn lemma_round_trip_u16(v: u16, order: ByteOrder)
    ensures
        decode_spec::<u16>(encode_spec(v, order), order) == Ok::<u16, LengthMismatch>(v),
{
    lemma_pow256_values();
    lemma_le_bytes_of_len(v as nat, 2);
    lemma_be_bytes_of_len(v as nat, 2);
    lemma_le_round_trip(v as nat, 2);
    lemma_be_round_trip(v as nat, 2);
}

/// Round trip: decoding the encoded image of a `u32` under the same byte
/// order reproduces the value exactly.
pub proof fn lemma_round_trip_u32(v: u32, order: ByteOrder)
    ensures
        decode_spec::<u32>(encode_spec(v, order), order) == Ok::<u32, LengthMismatch>(v),
{
    lemma_pow256_values();
    lemma_le_bytes_of_len(v as nat, 4);
    lemma_be_bytes_of_len(v as nat, 4);
    lemma_le_round_trip(v as nat, 4);
    lemma_be_round_trip(v as nat, 4);
}

/// Round trip: decoding the encoded image of a `u64` under the same byte
/// order reproduces the value exactly.
pub proof fn lemma_round_trip_u64(v: u64, order: ByteOrder)
    ensures
        decode_spec::<u64>(encode_spec(v, order), order) == Ok::<u64, LengthMismatch>(v),
{
    lemma_pow256_values();
    lemma_le_bytes_of_len(v as nat, 8);
    lemma_be_bytes_of_len(v as nat, 8);
    lemma_le_round_trip(v as nat, 8);
    lemma_be_round_trip(v as nat, 8);
}

/// Round trip: decoding the encoded image of a `u128` under the same byte
/// order reproduces the value exactly.
pub proof fn lemma_round_trip_u128(v: u128, order: ByteOrder)
    ensures
        decode_spec::<u128>(encode_spec(v, order), order) == Ok::<u128, LengthMismatch>(v),
{
    lemma_pow256_values();
    lemma_le_bytes_of_len(v as nat, 16);
    lemma_be_bytes_of_len(v as nat, 16);
    lemma_le_round_trip(v as nat, 16);
    lemma_be_round_trip(v as nat, 16);
}

/// Round trip: decoding the encoded image of an `i8` under the same byte
/// order reproduces the value exactly.
pub proof fn lemma_round_trip_i8(v: i8, order: ByteOrder)
    ensures
        decode_spec::<i8>(encode_spec(v, order), order) == Ok::<i8, LengthMismatch>(v),
{
    lemma_pow256_values();
    lemma_signed_round_trip(v as int, 1);
    let u = unsigned_of(v as int, 1);
    lemma_le_bytes_of_len(u, 1);
    lemma_be_bytes_of_len(u, 1);
    lemma_le_round_trip(u, 1);
    lemma_be_round_trip(u, 1);
}

/// Round trip: decoding the encoded image of an `i16` under the same byte
/// order reproduces the value exactly.
pub proof fn lemma_round_trip_i16(v: i16, order: ByteOrder)
    ensures
        decode_spec::<i16>(encode_spec(v, order), order) == Ok::<i16, LengthMismatch>(v),
{
    lemma_pow256_values();
    lemma_signed_round_trip(v as int, 2);
    let u = unsigned_of(v as int, 2);
    lemma_le_bytes_of_len(u, 2);
    lemma_be_bytes_of_len(u, 2);
    lemma_le_round_trip(u, 2);
    lemma_be_round_trip(u, 2);
}

/// Round trip: decoding the encoded image of an `i32` under the same byte
/// order reproduces the value exactly.
pub proof fn lemma_round_trip_i32(v: i32, order: ByteOrder)
    ensures
        decode_spec::<i32>(encode_spec(v, order), order) == Ok::<i32, LengthMismatch>(v),
{
    lemma_pow256_values();
    lemma_signed_round_trip(v as int, 4);
    let u = unsigned_of(v as int, 4);
    lemma_le_bytes_of_len(u, 4);
    lemma_be_bytes_of_len(u, 4);
    lemma_le_round_trip(u, 4);
    lemma_be_round_trip(u, 4);
}

/// Round trip: decoding the encoded image of an `i64` under the same byte
/// order reproduces the value exactly.
pub proof fn lemma_round_trip_i64(v: i64, order: ByteOrder)
    ensures
        decode_spec::<i64>(encode_spec(v, order), order) == Ok::<i64, LengthMismatch>(v),
{
    lemma_pow256_values();
    lemma_signed_round_trip(v as int, 8);
    let u = unsigned_of(v as int, 8);
    lemma_le_bytes_of_len(u, 8);
    lemma_be_bytes_of_len(u, 8);
    lemma_le_round_trip(u, 8);
    lemma_be_round_trip(u, 8);
}

/// Round trip: decoding the encoded image of an `i128` under the same byte
/// order reproduces the value exactly.
pub proof fn lemma_round_trip_i128(v: i128, order: ByteOrder)
    ensures
        decode_spec::<i128>(encode_spec(v, order), order) == Ok::<i128, LengthMismatch>(v),
{
    lemma_pow256_values();
    lemma_signed_round_trip(v as int, 16);
    let u = unsigned_of(v as int, 16);
    lemma_le_bytes_of_len(u, 16);
    lemma_be_bytes_of_len(u, 16);
    lemma_le_round_trip(u, 16);
    lemma_be_round_trip(u, 16);
}

} // verus!
