//! Unsigned integers of an exact number of bytes, least significant byte first.
//!
//! The number that a byte string stands for is [`le_value`]. Everything that
//! [`LeBytes`] computes is stated over that number.
use crate::math::{CheckedMath, Math, Max, Min, One, OverflowError, Zero};
use core::cmp::Ordering;
use vstd::prelude::*;

verus! {

/// `256` to the power `n`: the weight of byte `n` of a little-endian number.
pub open spec fn pow256(n: nat) -> nat
    decreases n,
{
    if n == 0 {
        1
    } else {
        256 * pow256((n - 1) as nat)
    }
}

/// The number that the bytes `s` stand for, least significant byte first.
pub open spec fn le_value(s: Seq<u8>) -> nat
    decreases s.len(),
{
    if s.len() == 0 {
        0
    } else {
        le_value(s.drop_last()) + (s.last() as nat) * pow256((s.len() - 1) as nat)
    }
}

/// Every byte weight is positive.
pub proof fn lemma_pow256_positive(n: nat)
    ensures
        pow256(n) > 0,
    decreases n,
{
    if n > 0 {
        lemma_pow256_positive((n - 1) as nat);
    }
}

/// Byte weights grow with the position.
pub proof fn lemma_pow256_monotonic(a: nat, b: nat)
    requires
        a <= b,
    ensures
        pow256(a) <= pow256(b),
    decreases b,
{
    if a < b {
        lemma_pow256_monotonic(a, (b - 1) as nat);
        lemma_pow256_positive((b - 1) as nat);
    }
}

/// A number of `n` bytes is less than `256^n`.
pub proof fn lemma_le_value_bound(s: Seq<u8>)
    ensures
        le_value(s) < pow256(s.len()),
    decreases s.len(),
{
    if s.len() > 0 {
        let p = pow256((s.len() - 1) as nat);
        let top = s.last() as nat;
        lemma_le_value_bound(s.drop_last());
        assert(top * p <= 255 * p) by (nonlinear_arith)
            requires
                top <= 255,
        ;
    }
}

/// Taking one more byte adds that byte at its weight.
pub proof fn lemma_le_value_take_step(s: Seq<u8>, i: int)
    requires
        0 <= i < s.len(),
    ensures
        le_value(s.take(i + 1)) == le_value(s.take(i)) + (s[i] as nat) * pow256(i as nat),
{
    assert(s.take(i + 1).drop_last() =~= s.take(i));
}

/// The number is at least what any single byte contributes.
pub proof fn lemma_le_value_ge_term(s: Seq<u8>, j: int)
    requires
        0 <= j < s.len(),
    ensures
        le_value(s) >= (s[j] as nat) * pow256(j as nat),
    decreases s.len(),
{
    if j < s.len() - 1 {
        lemma_le_value_ge_term(s.drop_last(), j);
    }
}

/// Zero bytes at the top do not change the number.
pub proof fn lemma_le_value_zero_tail(s: Seq<u8>, k: int)
    requires
        0 <= k <= s.len(),
        forall|i: int| k <= i < s.len() ==> s[i] == 0,
    ensures
        le_value(s) == le_value(s.take(k)),
    decreases s.len(),
{
    if k == s.len() {
        assert(s.take(k) =~= s);
    } else {
        lemma_le_value_zero_tail(s.drop_last(), k);
        assert(s.drop_last().take(k) =~= s.take(k));
    }
}

/// Byte strings of one length that stand for the same number are equal.
pub proof fn lemma_le_value_injective(a: Seq<u8>, b: Seq<u8>)
    requires
        a.len() == b.len(),
        le_value(a) == le_value(b),
    ensures
        a == b,
    decreases a.len(),
{
    if a.len() == 0 {
        assert(a =~= b);
    } else {
        let p = pow256((a.len() - 1) as nat);
        let x = le_value(a.drop_last());
        let y = le_value(b.drop_last());
        let m = a.last() as nat;
        let n = b.last() as nat;
        lemma_le_value_bound(a.drop_last());
        lemma_le_value_bound(b.drop_last());
        assert(m == n) by (nonlinear_arith)
            requires
                x + m * p == y + n * p,
                x < p,
                y < p,
        ;
        lemma_le_value_injective(a.drop_last(), b.drop_last());
        assert(a =~= a.drop_last().push(a.last()));
        assert(b =~= b.drop_last().push(b.last()));
    }
}

/// Of two byte strings that agree above position `j`, the one with the smaller
/// byte at `j` stands for the smaller number.
pub proof fn lemma_le_value_top_byte_decides(a: Seq<u8>, b: Seq<u8>, j: int)
    requires
        a.len() == b.len(),
        0 <= j < a.len(),
        forall|i: int| j < i < a.len() ==> a[i] == b[i],
        a[j] < b[j],
    ensures
        le_value(a) < le_value(b),
    decreases a.len(),
{
    let p = pow256((a.len() - 1) as nat);
    if j == a.len() - 1 {
        let m = a[j] as nat;
        let n = b[j] as nat;
        lemma_le_value_bound(a.drop_last());
        assert(m * p + p <= n * p) by (nonlinear_arith)
            requires
                m + 1 <= n,
        ;
    } else {
        lemma_le_value_top_byte_decides(a.drop_last(), b.drop_last(), j);
    }
}

/// An unsigned integer of exactly `N` bytes, least significant byte first.
#[derive(Clone, Copy, Debug, Hash)]
pub struct LeBytes<const N: usize>([u8; N]);

impl<const N: usize> View for LeBytes<N> {
    type V = Seq<u8>;

    /// The `N` bytes, least significant first.
    closed spec fn view(&self) -> Seq<u8> {
        self.0@
    }
}

impl<const N: usize> LeBytes<N> {
    /// The number that `self` stands for.
    pub open spec fn value(self) -> nat {
        le_value(self@)
    }

    /// A value has exactly `N` bytes, and its bytes determine it.
    pub proof fn lemma_view(self, other: Self)
        ensures
            self@.len() == N,
            self@ == other@ ==> self == other,
    {
        if self@ == other@ {
            assert(self.0 =~= other.0);
        }
    }

    /// The integer made of `bytes`, least significant byte first.
    pub fn new(bytes: [u8; N]) -> (r: Self)
        ensures
            r@ == bytes@,
    {
        Self(bytes)
    }

    /// The bytes of `self`, least significant first.
    pub fn as_bytes(&self) -> (r: &[u8; N])
        ensures
            r@ == self@,
    {
        &self.0
    }

    /// The bytes of `self`, least significant first.
    pub fn into_inner(self) -> (r: [u8; N])
        ensures
            r@ == self@,
    {
        self.0
    }
}

/// `n` bytes of `0xff` stand for `256^n - 1`.
pub proof fn lemma_le_value_all_ones(s: Seq<u8>)
    requires
        forall|i: int| 0 <= i < s.len() ==> s[i] == 0xff,
    ensures
        le_value(s) == pow256(s.len()) - 1,
    decreases s.len(),
{
    if s.len() > 0 {
        lemma_le_value_all_ones(s.drop_last());
    }
}

impl<const N: usize> Zero for LeBytes<N> {
    /// `N` zero bytes.
    closed spec fn zero_spec() -> Self {
        LeBytes([0u8; N])
    }

    fn zero() -> (z: Self) {
        let z = LeBytes([0u8; N]);
        proof {
            assert(z@ =~= Self::zero_spec()@);
            z.lemma_view(Self::zero_spec());
        }
        z
    }

    fn is_zero(&self) -> (b: bool) {
        let mut i: usize = 0;
        while i < N
            invariant
                i <= N,
                forall|j: int| 0 <= j < i ==> self@[j] == 0,
            decreases N - i,
        {
            if self.0[i] != 0 {
                proof {
                    Self::lemma_constant_bytes();
                }
                return false;
            }
            i += 1;
        }
        proof {
            Self::lemma_constant_bytes();
            assert(self@ =~= Self::zero_spec()@);
            self.lemma_view(Self::zero_spec());
        }
        true
    }
}

impl<const N: usize> Min for LeBytes<N> {
    /// `N` zero bytes.
    closed spec fn min_spec() -> Self {
        Self::zero_spec()
    }

    fn min_value() -> (m: Self) {
        Self::zero()
    }

    fn is_min(&self) -> (b: bool) {
        self.is_zero()
    }
}

impl<const N: usize> Max for LeBytes<N> {
    /// `N` bytes of `0xff`.
    closed spec fn max_spec() -> Self {
        LeBytes([0xffu8; N])
    }

    fn max_value() -> (m: Self) {
        let m = LeBytes([0xffu8; N]);
        proof {
            assert(m@ =~= Self::max_spec()@);
            m.lemma_view(Self::max_spec());
        }
        m
    }

    fn is_max(&self) -> (b: bool) {
        let mut i: usize = 0;
        while i < N
            invariant
                i <= N,
                forall|j: int| 0 <= j < i ==> self@[j] == 0xff,
            decreases N - i,
        {
            if self.0[i] != 0xff {
                proof {
                    Self::lemma_constant_bytes();
                }
                return false;
            }
            i += 1;
        }
        proof {
            Self::lemma_constant_bytes();
            assert(self@ =~= Self::max_spec()@);
            self.lemma_view(Self::max_spec());
        }
        true
    }
}

impl<const N: usize> One for LeBytes<N> {
    /// The byte `1` followed by zero bytes; of no bytes, the only value there is.
    closed spec fn one_spec() -> Self {
        if N == 0 {
            LeBytes([0u8; N])
        } else {
            LeBytes(vstd::array::spec_array_update([0u8; N], 0, 1u8))
        }
    }

    fn one() -> (o: Self) {
        let mut bytes = [0u8; N];
        if N > 0 {
            bytes[0] = 1;
        }
        let o = LeBytes(bytes);
        proof {
            assert(o@ =~= Self::one_spec()@);
            o.lemma_view(Self::one_spec());
        }
        o
    }

    fn is_one(&self) -> (b: bool) {
        let mut i: usize = 0;
        while i < N
            invariant
                i <= N,
                forall|j: int| 0 <= j < i ==> self@[j] == (if j == 0 { 1u8 } else { 0u8 }),
            decreases N - i,
        {
            let expected: u8 = if i == 0 {
                1
            } else {
                0
            };
            if self.0[i] != expected {
                proof {
                    Self::lemma_constant_bytes();
                }
                return false;
            }
            i += 1;
        }
        proof {
            Self::lemma_constant_bytes();
            assert(self@ =~= Self::one_spec()@);
            self.lemma_view(Self::one_spec());
        }
        true
    }
}

impl<const N: usize> LeBytes<N> {
    /// What the distinguished values hold, byte by byte.
    pub proof fn lemma_constant_bytes()
        ensures
            Self::zero_spec()@ == Seq::new(N as nat, |i: int| 0u8),
            Self::min_spec() == Self::zero_spec(),
            Self::max_spec()@ == Seq::new(N as nat, |i: int| 0xffu8),
            Self::one_spec()@ == Seq::new(N as nat, |i: int| if i == 0 { 1u8 } else { 0u8 }),
    {
        vstd::array::axiom_spec_array_fill_for_copy_type::<u8, N>(0u8);
        vstd::array::axiom_spec_array_fill_for_copy_type::<u8, N>(0xffu8);
        let zeros: [u8; N] = [0u8; N];
        let ones: [u8; N] = [0xffu8; N];
        vstd::array::array_len_matches_n(&zeros);
        vstd::array::array_len_matches_n(&ones);
        assert(Self::zero_spec()@ == zeros@);
        assert(Self::max_spec()@ == ones@);
        assert(zeros@ =~= Seq::new(N as nat, |i: int| 0u8));
        assert(ones@ =~= Seq::new(N as nat, |i: int| 0xffu8));
        if N > 0 {
            vstd::array::axiom_spec_array_update(zeros, 0, 1u8);
            assert(Self::one_spec()@ == zeros@.update(0, 1u8));
        }
        assert(Self::one_spec()@ =~= Seq::new(
            N as nat,
            |i: int| if i == 0 { 1u8 } else { 0u8 },
        ));
    }
}

impl<const N: usize> CheckedMath for LeBytes<N> {
    open spec fn as_int(self) -> int {
        self.value() as int
    }

    open spec fn min_int() -> int {
        0
    }

    open spec fn max_int() -> int {
        pow256(N as nat) - 1
    }

    proof fn lemma_in_range(self) {
        lemma_le_value_bound(self@);
    }

    proof fn lemma_as_int_injective(a: Self, b: Self) {
        lemma_le_value_injective(a@, b@);
        a.lemma_view(b);
    }

    /// Adds byte by byte from the least significant end, carrying upwards; a
    /// carry out of the last byte is the overflow.
    fn checked_add(self, rhs: Self) -> (r: Option<Self>) {
        let mut result = [0u8; N];
        let mut carry: u16 = 0;
        let mut i: usize = 0;
        while i < N
            invariant
                i <= N,
                carry <= 1,
                le_value(result@.take(i as int)) + carry * pow256(i as nat) == le_value(
                    self@.take(i as int),
                ) + le_value(rhs@.take(i as int)),
            decreases N - i,
        {
            let ghost before = result@;
            let ghost p = pow256(i as nat);
            let ghost carry_in = carry as nat;
            let a = self.0[i];
            let b = rhs.0[i];
            let sum: u16 = a as u16 + b as u16 + carry;
            let digit: u8 = (sum % 256) as u8;
            result[i] = digit;
            carry = sum / 256;
            proof {
                assert(result@.take(i as int) =~= before.take(i as int));
                lemma_le_value_take_step(result@, i as int);
                lemma_le_value_take_step(self@, i as int);
                lemma_le_value_take_step(rhs@, i as int);
                assert(pow256((i + 1) as nat) == 256 * p);
                let c = carry as nat;
                let d = digit as nat;
                let x = a as nat;
                let y = b as nat;
                assert(d * p + c * (256 * p) == x * p + y * p + carry_in * p)
                    by (nonlinear_arith)
                    requires
                        d + 256 * c == x + y + carry_in,
                ;
            }
            i += 1;
        }
        proof {
            assert(result@.take(N as int) =~= result@);
            assert(self@.take(N as int) =~= self@);
            assert(rhs@.take(N as int) =~= rhs@);
            lemma_le_value_bound(result@);
        }
        if carry == 0 {
            Some(LeBytes(result))
        } else {
            None
        }
    }

    /// Subtracts byte by byte from the least significant end, borrowing
    /// upwards; a borrow out of the last byte is the underflow.
    fn checked_sub(self, rhs: Self) -> (r: Option<Self>) {
        let mut result = [0u8; N];
        let mut borrow: u16 = 0;
        let mut i: usize = 0;
        while i < N
            invariant
                i <= N,
                borrow <= 1,
                le_value(result@.take(i as int)) + le_value(rhs@.take(i as int)) == le_value(
                    self@.take(i as int),
                ) + borrow * pow256(i as nat),
            decreases N - i,
        {
            let ghost before = result@;
            let ghost p = pow256(i as nat);
            let ghost borrow_in = borrow as nat;
            let a = self.0[i];
            let b = rhs.0[i];
            let take: u16 = b as u16 + borrow;
            let digit: u8 = if a as u16 >= take {
                borrow = 0;
                (a as u16 - take) as u8
            } else {
                borrow = 1;
                (a as u16 + 256 - take) as u8
            };
            result[i] = digit;
            proof {
                assert(result@.take(i as int) =~= before.take(i as int));
                lemma_le_value_take_step(result@, i as int);
                lemma_le_value_take_step(self@, i as int);
                lemma_le_value_take_step(rhs@, i as int);
                assert(pow256((i + 1) as nat) == 256 * p);
                let c = borrow as nat;
                let d = digit as nat;
                let x = a as nat;
                let y = b as nat;
                assert(d * p + y * p + borrow_in * p == x * p + c * (256 * p))
                    by (nonlinear_arith)
                    requires
                        d + y + borrow_in == x + 256 * c,
                ;
            }
            i += 1;
        }
        proof {
            assert(result@.take(N as int) =~= result@);
            assert(self@.take(N as int) =~= self@);
            assert(rhs@.take(N as int) =~= rhs@);
            lemma_le_value_bound(result@);
            lemma_le_value_bound(self@);
        }
        if borrow == 0 {
            Some(LeBytes(result))
        } else {
            None
        }
    }
}

impl<const N: usize> Math for LeBytes<N> {
    proof fn lemma_constants() {
        Self::lemma_constant_bytes();
        lemma_le_value_zero_tail(Self::zero_spec()@, 0);
        lemma_le_value_all_ones(Self::max_spec()@);
        if N > 0 {
            let one = Self::one_spec()@;
            lemma_le_value_zero_tail(one, 1);
            let low = one.take(1);
            assert(low.len() == 1);
            assert(low.last() == 1u8);
            assert(low.drop_last().len() == 0);
            assert(le_value(low.drop_last()) == 0);
            assert(pow256(0) == 1);
            assert(le_value(low) == le_value(low.drop_last()) + (low.last() as nat) * pow256(
                (low.len() - 1) as nat,
            ));
        }
    }

    /// Compares from the most significant byte down: the first byte that
    /// differs decides.
    fn at_least(&self, floor: &Self) -> (b: bool) {
        let mut i: usize = N;
        while i > 0
            invariant
                i <= N,
                forall|j: int| i <= j < N ==> self@[j] == floor@[j],
            decreases i,
        {
            i -= 1;
            let a = self.0[i];
            let b = floor.0[i];
            if a < b {
                proof {
                    lemma_le_value_top_byte_decides(self@, floor@, i as int);
                }
                return false;
            }
            if a > b {
                proof {
                    lemma_le_value_top_byte_decides(floor@, self@, i as int);
                }
                return true;
            }
        }
        proof {
            assert(self@ =~= floor@);
        }
        true
    }
}

impl<const N: usize> LeBytes<N> {
    /// The value of this width that stands for `v`, where there is one.
    pub open spec fn with_value(v: nat) -> Self {
        choose|x: Self| x.value() == v
    }

    /// A value is the one that stands for its own number.
    pub proof fn lemma_with_value(self)
        ensures
            Self::with_value(self.value()) == self,
    {
        let chosen = Self::with_value(self.value());
        assert(chosen.value() == self.value());
        lemma_le_value_injective(chosen@, self@);
        chosen.lemma_view(self);
        self.lemma_view(chosen);
    }

    /// Changes the width from `M` bytes to `N`. Widening pads with zero bytes
    /// and always succeeds; narrowing succeeds where every byte that is cut
    /// off is zero, that is where the number fits in `N` bytes.
    pub fn try_convert_from<const M: usize>(value: LeBytes<M>) -> (r: Result<Self, OverflowError>)
        ensures
            r is Ok <==> value.value() < pow256(N as nat),
            r is Ok ==> r->Ok_0.value() == value.value(),
            r is Err ==> r->Err_0 == OverflowError,
            M <= N ==> r is Ok,
    {
        let mut out = [0u8; N];
        let mut i: usize = 0;
        while i < M
            invariant
                i <= M,
                value@.len() == M,
                forall|j: int| 0 <= j < N && j < i ==> out@[j] == value@[j],
                forall|j: int| 0 <= j < N && j >= i ==> out@[j] == 0,
                forall|j: int| N <= j < i ==> value@[j] == 0,
            decreases M - i,
        {
            let byte = value.0[i];
            if i < N {
                out[i] = byte;
            } else if byte != 0 {
                proof {
                    let p = pow256(i as nat);
                    let b = byte as nat;
                    lemma_le_value_ge_term(value@, i as int);
                    lemma_pow256_monotonic(N as nat, i as nat);
                    assert(b * p >= p) by (nonlinear_arith)
                        requires
                            b >= 1,
                    ;
                }
                return Err(OverflowError);
            }
            i += 1;
        }
        proof {
            let k: int = if M <= N {
                M as int
            } else {
                N as int
            };
            lemma_le_value_zero_tail(value@, k);
            lemma_le_value_zero_tail(out@, k);
            assert(out@.take(k) =~= value@.take(k));
            lemma_le_value_bound(value@.take(k));
            lemma_pow256_monotonic(k as nat, N as nat);
        }
        Ok(LeBytes(out))
    }

    /// Changes the width from `N` bytes to `M`: see
    /// [`try_convert_from`](LeBytes::try_convert_from).
    pub fn try_convert_into<const M: usize>(self) -> (r: Result<LeBytes<M>, OverflowError>)
        ensures
            r is Ok <==> self.value() < pow256(M as nat),
            r is Ok ==> r->Ok_0.value() == self.value(),
            r is Err ==> r->Err_0 == OverflowError,
            N <= M ==> r is Ok,
    {
        LeBytes::<M>::try_convert_from(self)
    }

    /// Changes the width from `N` bytes to `M`: see
    /// [`try_convert_from`](LeBytes::try_convert_from).
    pub fn try_resize<const M: usize>(self) -> (r: Result<LeBytes<M>, OverflowError>)
        ensures
            r is Ok <==> self.value() < pow256(M as nat),
            r is Ok ==> r->Ok_0.value() == self.value(),
            r is Err ==> r->Err_0 == OverflowError,
            N <= M ==> r is Ok,
    {
        LeBytes::<M>::try_convert_from(self)
    }

    /// The stored form of `self`: exactly its `N` bytes, least significant
    /// first, with nothing before or after them.
    pub open spec fn encode_spec(self) -> Seq<u8> {
        self@
    }

    /// The value that the first `N` bytes of `input` are the stored form of;
    /// none where `input` is shorter than that.
    pub open spec fn decode_spec(input: Seq<u8>) -> Option<Self> {
        if input.len() >= N {
            Some(Self::with_bytes(input.take(N as int)))
        } else {
            None
        }
    }

    /// The value whose bytes are `bytes`, where there are `N` of them.
    pub open spec fn with_bytes(bytes: Seq<u8>) -> Self {
        choose|x: Self| x@ == bytes
    }

    /// A value is the one with its own bytes.
    pub proof fn lemma_with_bytes(self)
        ensures
            Self::with_bytes(self@) == self,
    {
        let chosen = Self::with_bytes(self@);
        chosen.lemma_view(self);
    }

    /// Reading back what was written gives the value that was written, and
    /// what is written is `N` bytes long. Bytes after the stored form do not
    /// matter.
    pub proof fn lemma_encode_decode(self, rest: Seq<u8>)
        ensures
            self.encode_spec().len() == N,
            Self::decode_spec(self.encode_spec()) == Some(self),
            Self::decode_spec(self.encode_spec() + rest) == Some(self),
    {
        self.lemma_view(self);
        self.lemma_with_bytes();
        assert(self@.take(N as int) =~= self@);
        assert((self@ + rest).take(N as int) =~= self@);
    }

    /// The value read from `input` is the one whose bytes are the first `N`
    /// of `input`, and writing it gives those bytes back.
    pub proof fn lemma_decode_encode(self, input: Seq<u8>)
        requires
            input.len() >= N,
            self@ == input.take(N as int),
        ensures
            Self::decode_spec(input) == Some(self),
            self.encode_spec() == input.take(N as int),
    {
        self.lemma_with_bytes();
    }

    /// The stored form: exactly the `N` bytes, least significant first, with
    /// nothing before or after them.
    pub fn encode(&self) -> (out: Vec<u8>)
        ensures
            out@ == self.encode_spec(),
            out@.len() == N,
    {
        let mut out: Vec<u8> = Vec::new();
        let mut i: usize = 0;
        while i < N
            invariant
                i <= N,
                out@ == self@.take(i as int),
            decreases N - i,
        {
            out.push(self.0[i]);
            assert(out@ =~= self@.take(i + 1));
            i += 1;
        }
        assert(self@.take(N as int) =~= self@);
        out
    }

    /// Reads a value from the first `N` bytes of `input`; there is none where
    /// `input` is shorter than that.
    pub fn decode(input: &[u8]) -> (r: Option<Self>)
        ensures
            r == Self::decode_spec(input@),
            r is Some <==> input@.len() >= N,
            r is Some ==> r->0@ == input@.take(N as int),
    {
        if input.len() < N {
            return None;
        }
        let mut bytes = [0u8; N];
        let mut i: usize = 0;
        while i < N
            invariant
                i <= N,
                N <= input@.len(),
                forall|j: int| 0 <= j < i ==> bytes@[j] == input@[j],
            decreases N - i,
        {
            bytes[i] = input[i];
            i += 1;
        }
        let r = LeBytes(bytes);
        proof {
            assert(r@ =~= input@.take(N as int));
            r.lemma_with_bytes();
        }
        Some(r)
    }

    /// The number of bytes that [`encode`](LeBytes::encode) writes.
    pub fn size_hint(&self) -> (n: usize)
        ensures
            n == N,
    {
        N
    }
}

/// Sixteen bytes hold exactly the numbers below `2^128`.
pub proof fn lemma_pow256_16()
    ensures
        pow256(16) == 0x1_0000_0000_0000_0000_0000_0000_0000_0000,
        pow256(8) == 0x1_0000_0000_0000_0000,
{
    reveal_with_fuel(pow256, 17);
}

impl<const N: usize> LeBytes<N> {
    /// The value that stands for `v`, or [`OverflowError`] where `v` does not
    /// fit in `N` bytes.
    pub fn try_from_u128(v: u128) -> (r: Result<Self, OverflowError>)
        ensures
            r is Ok <==> v < pow256(N as nat),
            r is Ok ==> r->Ok_0.value() == v,
            r is Err ==> r->Err_0 == OverflowError,
    {
        let mut bytes = [0u8; 16];
        let mut rest: u128 = v;
        let mut i: usize = 0;
        assert(le_value(bytes@.take(0)) == 0 && pow256(0) == 1);
        while i < 16
            invariant
                i <= 16,
                le_value(bytes@.take(i as int)) + rest * pow256(i as nat) == v,
            decreases 16 - i,
        {
            let ghost before = bytes@;
            let ghost p = pow256(i as nat);
            let ghost rest_in = rest as nat;
            let digit: u8 = (rest % 256) as u8;
            bytes[i] = digit;
            rest = rest / 256;
            proof {
                assert(bytes@.take(i as int) =~= before.take(i as int));
                lemma_le_value_take_step(bytes@, i as int);
                assert(pow256((i + 1) as nat) == 256 * p);
                let d = digit as nat;
                let q = rest as nat;
                assert(d * p + q * (256 * p) == rest_in * p) by (nonlinear_arith)
                    requires
                        d + 256 * q == rest_in,
                ;
            }
            i += 1;
        }
        proof {
            assert(bytes@.take(16) =~= bytes@);
            lemma_pow256_16();
            let q = rest as nat;
            let p = pow256(16);
            assert(q == 0) by (nonlinear_arith)
                requires
                    q * p <= v,
                    v < p,
                    p > 0,
            ;
        }
        Self::try_convert_from(LeBytes::<16>(bytes))
    }

    /// The number that `self` stands for, or [`OverflowError`] where it does
    /// not fit in 128 bits.
    pub fn try_into_u128(self) -> (r: Result<u128, OverflowError>)
        ensures
            r is Ok <==> self.value() <= u128::MAX,
            r is Ok ==> r->Ok_0 == self.value(),
            r is Err ==> r->Err_0 == OverflowError,
    {
        proof {
            lemma_pow256_16();
        }
        let low = match LeBytes::<16>::try_convert_from(self) {
            Ok(low) => low,
            Err(_) => {
                return Err(OverflowError);
            },
        };
        let mut acc: u128 = 0;
        let mut weight: u128 = 1;
        let mut i: usize = 0;
        assert(le_value(low@.take(0)) == 0 && pow256(0) == 1);
        while i < 16
            invariant
                i <= 16,
                low@.len() == 16,
                acc == le_value(low@.take(i as int)),
                i < 16 ==> weight == pow256(i as nat),
            decreases 16 - i,
        {
            let byte = low.0[i];
            proof {
                let p = pow256(i as nat);
                let b = byte as nat;
                lemma_le_value_take_step(low@, i as int);
                lemma_le_value_bound(low@.take(i + 1));
                lemma_pow256_monotonic((i + 1) as nat, 16);
                lemma_pow256_16();
                assert(pow256((i + 1) as nat) == 256 * p);
                assert(b * p >= 0) by (nonlinear_arith);
            }
            acc = acc + (byte as u128) * weight;
            if i < 15 {
                proof {
                    lemma_pow256_monotonic((i + 1) as nat, 15);
                    assert(pow256(16) == 256 * pow256(15));
                }
                weight = weight * 256;
            }
            i += 1;
        }
        assert(low@.take(16) =~= low@);
        Ok(acc)
    }

    /// The number that `self` stands for, or [`OverflowError`] where it does
    /// not fit in 64 bits.
    pub fn try_into_u64(self) -> (r: Result<u64, OverflowError>)
        ensures
            r is Ok <==> self.value() <= u64::MAX,
            r is Ok ==> r->Ok_0 == self.value(),
            r is Err ==> r->Err_0 == OverflowError,
    {
        match self.try_into_u128() {
            Ok(wide) => {
                if wide <= u64::MAX as u128 {
                    Ok(wide as u64)
                } else {
                    Err(OverflowError)
                }
            },
            Err(_) => Err(OverflowError),
        }
    }
}

impl<const N: usize> Default for LeBytes<N> {
    /// Zero.
    fn default() -> (r: Self)
        ensures
            r == Self::zero_spec(),
    {
        Self::zero()
    }
}

impl<const N: usize> PartialEq for LeBytes<N> {
    /// Whether two values have the same bytes.
    fn eq(&self, other: &Self) -> (r: bool) {
        let r = self.at_least(other) && other.at_least(self);
        proof {
            if self.value() == other.value() {
                Self::lemma_as_int_injective(*self, *other);
            }
        }
        r
    }
}

impl<const N: usize> vstd::std_specs::cmp::PartialEqSpecImpl for LeBytes<N> {
    open spec fn obeys_eq_spec() -> bool {
        true
    }

    open spec fn eq_spec(&self, other: &Self) -> bool {
        *self == *other
    }
}

impl<const N: usize> Eq for LeBytes<N> {

}

impl<const N: usize> PartialOrd for LeBytes<N> {
    /// The order of the numbers that the values stand for, found from the
    /// most significant byte down.
    fn partial_cmp(&self, other: &Self) -> (r: Option<Ordering>) {
        let not_less = self.at_least(other);
        let not_greater = other.at_least(self);
        if not_less && not_greater {
            Some(Ordering::Equal)
        } else if not_less {
            Some(Ordering::Greater)
        } else {
            Some(Ordering::Less)
        }
    }
}

impl<const N: usize> vstd::std_specs::cmp::PartialOrdSpecImpl for LeBytes<N> {
    open spec fn obeys_partial_cmp_spec() -> bool {
        true
    }

    open spec fn partial_cmp_spec(&self, other: &Self) -> Option<Ordering> {
        if self.value() == other.value() {
            Some(Ordering::Equal)
        } else if self.value() < other.value() {
            Some(Ordering::Less)
        } else {
            Some(Ordering::Greater)
        }
    }
}

impl<const N: usize> TryFrom<u128> for LeBytes<N> {
    type Error = OverflowError;

    /// The value that stands for `v`, or [`OverflowError`] where `v` does not
    /// fit in `N` bytes.
    fn try_from(v: u128) -> (r: Result<Self, OverflowError>) {
        let r = Self::try_from_u128(v);
        proof {
            if r is Ok {
                r->Ok_0.lemma_with_value();
            }
        }
        r
    }
}

impl<const N: usize> vstd::std_specs::convert::TryFromSpecImpl<u128> for LeBytes<N> {
    open spec fn obeys_try_from_spec() -> bool {
        true
    }

    open spec fn try_from_spec(v: u128) -> Result<Self, Self::Error> {
        if v < pow256(N as nat) {
            Ok(Self::with_value(v as nat))
        } else {
            Err(OverflowError)
        }
    }
}

impl<const N: usize> TryFrom<LeBytes<N>> for u128 {
    type Error = OverflowError;

    /// The number that `v` stands for, or [`OverflowError`] where it does not
    /// fit in 128 bits.
    fn try_from(v: LeBytes<N>) -> (r: Result<Self, OverflowError>) {
        v.try_into_u128()
    }
}

impl<const N: usize> vstd::std_specs::convert::TryFromSpecImpl<LeBytes<N>> for u128 {
    open spec fn obeys_try_from_spec() -> bool {
        true
    }

    open spec fn try_from_spec(v: LeBytes<N>) -> Result<Self, Self::Error> {
        if v.value() <= u128::MAX {
            Ok(v.value() as u128)
        } else {
            Err(OverflowError)
        }
    }
}

impl<const N: usize> TryFrom<LeBytes<N>> for u64 {
    type Error = OverflowError;

    /// The number that `v` stands for, or [`OverflowError`] where it does not
    /// fit in 64 bits.
    fn try_from(v: LeBytes<N>) -> (r: Result<Self, OverflowError>) {
        v.try_into_u64()
    }
}

impl<const N: usize> vstd::std_specs::convert::TryFromSpecImpl<LeBytes<N>> for u64 {
    open spec fn obeys_try_from_spec() -> bool {
        true
    }

    open spec fn try_from_spec(v: LeBytes<N>) -> Result<Self, Self::Error> {
        if v.value() <= u64::MAX {
            Ok(v.value() as u64)
        } else {
            Err(OverflowError)
        }
    }
}

} // verus!
