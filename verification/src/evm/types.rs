//! Machine words and addresses of the EVM.

use vstd::arithmetic::div_mod::lemma_breakdown;
use vstd::arithmetic::power::{lemma_pow0, lemma_pow_increases, lemma_pow_positive, pow};
use vstd::prelude::*;

use crate::collections::Key;

verus! {

/// Two to the power of 128: the weight of the high half of a word.
#[verifier::inline]
pub open spec fn half() -> nat {
    0x1_0000_0000_0000_0000_0000_0000_0000_0000nat
}

/// The natural number that `s` denotes, most significant byte first.
pub open spec fn big_endian(s: Seq<u8>) -> nat
    decreases s.len(),
{
    if s.len() == 0 {
        0
    } else {
        big_endian(s.drop_last()) * 256 + s.last() as nat
    }
}

/// A 256-bit unsigned word.
#[derive(Clone, Copy, Debug, PartialEq, Eq, Hash, Structural)]
pub struct EVMU256 {
    /// The 128 most significant bits.
    pub hi: u128,
    /// The 128 least significant bits.
    pub lo: u128,
}

impl EVMU256 {
    /// The number that the word denotes.
    pub open spec fn value(self) -> nat {
        self.hi as nat * half() + self.lo as nat
    }

    /// The thirty-two bytes of the word, most significant first.
    pub open spec fn bytes(self) -> Seq<u8> {
        be_bytes(self.hi as nat, 16) + be_bytes(self.lo as nat, 16)
    }

    /// The thirty-two bytes of the word, least significant first: four limbs of
    /// eight bytes, the lowest limb first.
    pub open spec fn limb_bytes(self) -> Seq<u8> {
        self.bytes().reverse()
    }

    /// The largest number that a word can denote.
    pub open spec fn max_nat() -> nat {
        (half() * half() - 1) as nat
    }

    /// The word that denotes `n`.
    pub open spec fn of(n: nat) -> EVMU256
        recommends
            n <= EVMU256::max_nat(),
    {
        EVMU256 { hi: (n / half()) as u128, lo: (n % half()) as u128 }
    }

    /// The word in thirty-two bytes, most significant byte first.
    pub open spec fn read(bytes: Seq<u8>) -> EVMU256 {
        EVMU256 {
            hi: big_endian(bytes.subrange(0, 16)) as u128,
            lo: big_endian(bytes.subrange(16, 32)) as u128,
        }
    }

    /// A word denotes a number below two to the power of 256, and is the only
    /// word that denotes it.
    pub proof fn lemma_value(self)
        ensures
            self.value() <= EVMU256::max_nat(),
            EVMU256::of(self.value()) == self,
    {
        let n = self.value();
        assert(n / half() == self.hi as nat && n % half() == self.lo as nat) by (nonlinear_arith)
            requires
                n == self.hi as nat * half() + self.lo as nat,
                self.lo < half(),
                half() > 0,
        ;
        assert(n <= half() * half() - 1) by (nonlinear_arith)
            requires
                n == self.hi as nat * half() + self.lo as nat,
                self.lo <= half() - 1,
                self.hi <= half() - 1,
        ;
    }

    /// Words are ordered by their high halves, then by their low halves.
    pub proof fn lemma_order(self, other: EVMU256)
        ensures
            self.value() < other.value() <==> (self.hi < other.hi || (self.hi == other.hi && self.lo
                < other.lo)),
            self.value() == other.value() <==> (self.hi == other.hi && self.lo == other.lo),
    {
        if self.hi < other.hi {
            assert(self.hi * half() + half() <= other.hi * half());
        } else if other.hi < self.hi {
            assert(other.hi * half() + half() <= self.hi * half());
        }
    }

    /// The word zero.
    pub fn zero() -> (r: EVMU256)
        ensures
            r.value() == 0,
            r == EVMU256::of(0),
    {
        EVMU256 { hi: 0, lo: 0 }
    }

    /// The word with all bits set.
    pub fn max_value() -> (r: EVMU256)
        ensures
            r.value() == EVMU256::max_nat(),
            r == EVMU256::of(EVMU256::max_nat()),
    {
        let r = EVMU256 { hi: u128::MAX, lo: u128::MAX };
        proof {
            r.lemma_value();
        }
        r
    }

    /// The sum, or the largest word where the sum does not fit.
    pub fn saturating_add(self, other: EVMU256) -> (r: EVMU256)
        ensures
            r.value() == if self.value() + other.value() <= EVMU256::max_nat() {
                self.value() + other.value()
            } else {
                EVMU256::max_nat()
            },
    {
        let (lo, carry): (u128, bool) = if self.lo <= u128::MAX - other.lo {
            (self.lo + other.lo, false)
        } else {
            (self.lo - (u128::MAX - other.lo) - 1, true)
        };
        let room: u128 = u128::MAX - other.hi;
        if self.hi > room || (carry && self.hi == room) {
            EVMU256::max_value()
        } else {
            let hi: u128 = if carry {
                self.hi + other.hi + 1
            } else {
                self.hi + other.hi
            };
            let r = EVMU256 { hi, lo };
            proof {
                r.lemma_value();
            }
            r
        }
    }

    /// The bytes of the word, most significant first.
    pub fn to_bytes(self) -> (r: Vec<u8>)
        ensures
            r@ == self.bytes(),
    {
        let mut r = to_be_bytes(self.hi, 16);
        let mut low = to_be_bytes(self.lo, 16);
        r.append(&mut low);
        r
    }

    /// The bytes of the word, least significant first.
    pub fn to_limb_bytes(self) -> (r: Vec<u8>)
        ensures
            r@ == self.limb_bytes(),
    {
        reversed(&self.to_bytes())
    }

    /// Whether the word denotes a larger number than `other`.
    pub fn exceeds(&self, other: &EVMU256) -> (r: bool)
        ensures
            r == (self.value() > other.value()),
    {
        proof {
            other.lemma_order(*self);
        }
        other.hi < self.hi || (other.hi == self.hi && other.lo < self.lo)
    }

    /// The low 128 bits where the word fits in them, all bits set otherwise.
    pub fn saturating_to_u128(self) -> (r: u128)
        ensures
            r == if self.value() <= u128::MAX {
                self.value()
            } else {
                u128::MAX as nat
            },
    {
        if self.hi == 0 {
            self.lo
        } else {
            u128::MAX
        }
    }
}

impl From<u64> for EVMU256 {
    fn from(v: u64) -> (r: EVMU256) {
        EVMU256 { hi: 0, lo: v as u128 }
    }
}

impl vstd::std_specs::convert::FromSpecImpl<u64> for EVMU256 {
    open spec fn obeys_from_spec() -> bool {
        true
    }

    open spec fn from_spec(v: u64) -> EVMU256 {
        EVMU256 { hi: 0, lo: v as u128 }
    }
}

/// The number in sixteen bytes of `v`, most significant byte first.
fn read_u128(v: &[u8; 32], start: usize) -> (r: u128)
    requires
        start <= 16,
    ensures
        r == big_endian(v@.subrange(start as int, start + 16)),
{
    let mut r: u128 = 0;
    let mut k: usize = 0;
    proof {
        lemma_pow0(256);
    }
    while k < 16
        invariant
            k <= 16,
            start <= 16,
            r == big_endian(v@.subrange(start as int, start + k)),
            r < pow(256, k as nat),
        decreases 16 - k,
    {
        assert(v@.subrange(start as int, start + k + 1).drop_last() =~= v@.subrange(
            start as int,
            start + k,
        ));
        assert(pow(256, (k + 1) as nat) == 256 * pow(256, k as nat)) by {
            reveal(pow);
        }
        assert(pow(256, (k + 1) as nat) <= half()) by {
            lemma_pow_increases(256, (k + 1) as nat, 16);
            lemma_pow_256_16();
        }
        r = r * 256 + v[start + k] as u128;
        k = k + 1;
    }
    r
}

impl From<[u8; 32]> for EVMU256 {
    fn from(v: [u8; 32]) -> (r: EVMU256) {
        EVMU256 { hi: read_u128(&v, 0), lo: read_u128(&v, 16) }
    }
}

impl vstd::std_specs::convert::FromSpecImpl<[u8; 32]> for EVMU256 {
    open spec fn obeys_from_spec() -> bool {
        true
    }

    open spec fn from_spec(v: [u8; 32]) -> EVMU256 {
        EVMU256::read(v@)
    }
}

impl core::ops::Sub for EVMU256 {
    type Output = EVMU256;

    /// The difference modulo two to the power of 256.
    fn sub(self, rhs: EVMU256) -> (r: EVMU256) {
        let lo: u128 = self.lo.wrapping_sub(rhs.lo);
        let hi: u128 = self.hi.wrapping_sub(rhs.hi);
        EVMU256 {
            hi: if self.lo < rhs.lo {
                hi.wrapping_sub(1)
            } else {
                hi
            },
            lo,
        }
    }
}

impl vstd::std_specs::ops::SubSpecImpl for EVMU256 {
    open spec fn obeys_sub_spec() -> bool {
        true
    }

    open spec fn sub_req(self, rhs: EVMU256) -> bool {
        true
    }

    open spec fn sub_spec(self, rhs: EVMU256) -> EVMU256 {
        if self.value() >= rhs.value() {
            EVMU256::of((self.value() - rhs.value()) as nat)
        } else {
            EVMU256::of((EVMU256::max_nat() + 1 + self.value() - rhs.value()) as nat)
        }
    }
}

/// The `width` lowest bytes of `n`, most significant byte first.
pub open spec fn be_bytes(n: nat, width: nat) -> Seq<u8>
    decreases width,
{
    if width == 0 {
        Seq::empty()
    } else {
        be_bytes(n / 256, (width - 1) as nat).push((n % 256) as u8)
    }
}

/// Writing a number in `width` bytes and reading it back gives the number
/// modulo 256 to the power of `width`.
pub proof fn lemma_be_bytes_round_trip(n: nat, width: nat)
    ensures
        be_bytes(n, width).len() == width,
        big_endian(be_bytes(n, width)) == n % (pow(256, width) as nat),
    decreases width,
{
    lemma_pow_positive(256, width);
    if width == 0 {
        lemma_pow0(256);
    } else {
        let w = (width - 1) as nat;
        lemma_be_bytes_round_trip(n / 256, w);
        lemma_pow_positive(256, w);
        assert(be_bytes(n, width).drop_last() =~= be_bytes(n / 256, w));
        assert(pow(256, width) == 256 * pow(256, w)) by {
            reveal(pow);
        }
        lemma_breakdown(n as int, 256, pow(256, w));
    }
}

/// Big-endian bytes of `x`.
pub fn to_be_bytes(x: u128, width: usize) -> (r: Vec<u8>)
    ensures
        r@ == be_bytes(x as nat, width as nat),
    decreases width,
{
    if width == 0 {
        Vec::new()
    } else {
        let mut r = to_be_bytes(x / 256, width - 1);
        r.push((x % 256) as u8);
        r
    }
}

/// The `width` lowest bytes of `n`, least significant byte first.
pub open spec fn le_bytes(n: nat, width: nat) -> Seq<u8> {
    be_bytes(n, width).reverse()
}

/// The bytes in the opposite order.
fn reversed(bytes: &Vec<u8>) -> (r: Vec<u8>)
    ensures
        r@ == bytes@.reverse(),
{
    let mut r: Vec<u8> = Vec::new();
    let mut i: usize = bytes.len();
    while i > 0
        invariant
            i <= bytes@.len(),
            r@.len() == bytes@.len() - i,
            forall|j: int| 0 <= j < r@.len() ==> r@[j] == bytes@[bytes@.len() - 1 - j],
        decreases i,
    {
        i = i - 1;
        r.push(bytes[i]);
    }
    assert(r@ =~= bytes@.reverse());
    r
}

/// Little-endian bytes of `x`.
pub fn to_le_bytes(x: u128, width: usize) -> (r: Vec<u8>)
    ensures
        r@ == le_bytes(x as nat, width as nat),
{
    reversed(&to_be_bytes(x, width))
}

/// A 20-byte account address.
#[derive(Clone, Copy, Debug, PartialEq, Eq, Hash, Structural)]
pub struct EVMAddress {
    /// The four leading bytes.
    pub hi: u32,
    /// The sixteen trailing bytes.
    pub lo: u128,
}

impl EVMAddress {
    /// The address read as a number, its first byte the most significant.
    pub open spec fn value(self) -> nat {
        self.hi as nat * half() + self.lo as nat
    }

    /// The twenty bytes of the address.
    pub open spec fn bytes(self) -> Seq<u8> {
        be_bytes(self.hi as nat, 4) + be_bytes(self.lo as nat, 16)
    }

    /// The bytes of the address, in order.
    pub fn to_bytes(self) -> (r: Vec<u8>)
        ensures
            r@ == self.bytes(),
    {
        let mut r = to_be_bytes(self.hi as u128, 4);
        let mut low = to_be_bytes(self.lo, 16);
        r.append(&mut low);
        r
    }

    /// Only equal addresses have equal values.
    pub proof fn lemma_value_injective(self, other: EVMAddress)
        ensures
            self.value() == other.value() ==> self == other,
    {
    }
}

impl Default for EVMAddress {
    /// The zero address.
    fn default() -> (r: EVMAddress)
        ensures
            r.value() == 0,
    {
        EVMAddress { hi: 0, lo: 0 }
    }
}

impl From<[u8; 20]> for EVMAddress {
    fn from(v: [u8; 20]) -> (r: EVMAddress) {
        let mut hi: u32 = 0;
        let mut i: usize = 0;
        while i < 4
            invariant
                i <= 4,
                hi == big_endian(v@.subrange(0, i as int)),
                i == 0 ==> hi == 0,
                i == 1 ==> hi < 0x100,
                i == 2 ==> hi < 0x1_0000,
                i == 3 ==> hi < 0x100_0000,
            decreases 4 - i,
        {
            assert(v@.subrange(0, i + 1).drop_last() =~= v@.subrange(0, i as int));
            hi = hi * 256 + v[i] as u32;
            i = i + 1;
        }
        let mut lo: u128 = 0;
        let mut k: usize = 4;
        proof {
            lemma_pow0(256);
        }
        while k < 20
            invariant
                4 <= k <= 20,
                lo == big_endian(v@.subrange(4, k as int)),
                lo < pow(256, (k - 4) as nat),
            decreases 20 - k,
        {
            assert(v@.subrange(4, k + 1).drop_last() =~= v@.subrange(4, k as int));
            assert(pow(256, (k + 1 - 4) as nat) == 256 * pow(256, (k - 4) as nat)) by {
                reveal(pow);
            }
            assert(pow(256, (k + 1 - 4) as nat) <= half()) by {
                lemma_pow_increases(256, (k + 1 - 4) as nat, 16);
                lemma_pow_256_16();
            }
            lo = lo * 256 + v[k] as u128;
            k = k + 1;
        }
        EVMAddress { hi, lo }
    }
}

impl vstd::std_specs::convert::FromSpecImpl<[u8; 20]> for EVMAddress {
    open spec fn obeys_from_spec() -> bool {
        true
    }

    open spec fn from_spec(v: [u8; 20]) -> EVMAddress {
        EVMAddress {
            hi: big_endian(v@.subrange(0, 4)) as u32,
            lo: big_endian(v@.subrange(4, 20)) as u128,
        }
    }
}

proof fn lemma_pow_256_16()
    ensures
        pow(256, 16) == half(),
{
    reveal_with_fuel(pow, 17);
}

/// The address in the 160 low bits of a word.
pub open spec fn account_in(v: EVMU256) -> EVMAddress {
    EVMAddress { hi: (v.hi % 0x1_0000_0000) as u32, lo: v.lo }
}

/// The address in the 160 low bits of a word.
pub fn convert_u256_to_h160(v: EVMU256) -> (r: EVMAddress)
    ensures
        r == account_in(v),
        r.value() == v.value() % (0x1_0000_0000nat * half()),
{
    let r = EVMAddress { hi: (v.hi % 0x1_0000_0000) as u32, lo: v.lo };
    assert(r.value() == v.value() % (0x1_0000_0000nat * half())) by (nonlinear_arith)
        requires
            r.value() == (v.hi as nat % 0x1_0000_0000nat) * half() + v.lo as nat,
            v.value() == v.hi as nat * half() + v.lo as nat,
            v.lo < half(),
            half() == 0x1_0000_0000_0000_0000_0000_0000_0000_0000nat,
    ;
    r
}

impl Key for EVMU256 {
    open spec fn rank(self) -> nat {
        self.value()
    }

    proof fn lemma_rank_injective(self, other: EVMU256) {
        self.lemma_value();
        other.lemma_value();
    }

    fn precedes(&self, other: &EVMU256) -> (r: bool) {
        other.exceeds(self)
    }
}

impl Key for EVMAddress {
    open spec fn rank(self) -> nat {
        self.value()
    }

    proof fn lemma_rank_injective(self, other: EVMAddress) {
        self.lemma_value_injective(other);
    }

    fn precedes(&self, other: &EVMAddress) -> (r: bool) {
        self.hi < other.hi || (self.hi == other.hi && self.lo < other.lo)
    }
}

// ----------------------------------------------------------------------- laws

/// A number is the bytes in front of it, shifted, and the bytes behind.
proof fn lemma_big_endian_adds(s: Seq<u8>, t: Seq<u8>)
    ensures
        big_endian(s + t) == big_endian(s) * pow(256, t.len()) + big_endian(t),
    decreases t.len(),
{
    if t.len() == 0 {
        lemma_pow0(256);
        assert(s + t =~= s);
    } else {
        let init = t.drop_last();
        lemma_big_endian_adds(s, init);
        assert((s + t).drop_last() =~= s + init);
        let p = pow(256, init.len());
        assert(pow(256, t.len()) == 256 * p) by {
            reveal(pow);
        }
        let a = big_endian(s);
        let b = big_endian(init);
        assert((a * p + b) * 256 == a * (256 * p) + b * 256) by (nonlinear_arith);
    }
}

/// A number below 256 to the power of `width` is written and read back as it is.
proof fn lemma_written_reads_back(n: nat, width: nat)
    requires
        n < pow(256, width),
    ensures
        be_bytes(n, width).len() == width,
        big_endian(be_bytes(n, width)) == n,
{
    lemma_be_bytes_round_trip(n, width);
    vstd::arithmetic::div_mod::lemma_small_mod(n, pow(256, width) as nat);
}

/// The thirty-two bytes of a word denote its number, most significant byte
/// first; its limbs hold the same bytes from the last to the first; and reading
/// the bytes gives the word back.
pub proof fn law_word_in_bytes(w: EVMU256)
    ensures
        w.bytes().len() == 32,
        big_endian(w.bytes()) == w.value(),
        w.limb_bytes().len() == 32,
        forall|i: int| 0 <= i < 32 ==> #[trigger] w.limb_bytes()[i] == w.bytes()[31 - i],
        EVMU256::read(w.bytes()) == w,
{
    lemma_pow_256_16();
    lemma_written_reads_back(w.hi as nat, 16);
    lemma_written_reads_back(w.lo as nat, 16);
    let hi = be_bytes(w.hi as nat, 16);
    let lo = be_bytes(w.lo as nat, 16);
    lemma_big_endian_adds(hi, lo);
    assert(w.bytes().subrange(0, 16) =~= hi);
    assert(w.bytes().subrange(16, 32) =~= lo);
}

/// The number of the word in thirty-two bytes is the number that they denote.
pub proof fn law_word_from_bytes(bytes: Seq<u8>)
    requires
        bytes.len() == 32,
    ensures
        EVMU256::read(bytes).value() == big_endian(bytes),
{
    let hi = bytes.subrange(0, 16);
    let lo = bytes.subrange(16, 32);
    assert(bytes =~= hi + lo);
    lemma_big_endian_adds(hi, lo);
    lemma_pow_256_16();
    lemma_big_endian_bounded(hi);
    lemma_big_endian_bounded(lo);
}

proof fn lemma_big_endian_bounded(s: Seq<u8>)
    ensures
        big_endian(s) < pow(256, s.len()),
    decreases s.len(),
{
    if s.len() == 0 {
        lemma_pow0(256);
    } else {
        lemma_big_endian_bounded(s.drop_last());
        assert(pow(256, s.len()) == 256 * pow(256, (s.len() - 1) as nat)) by {
            reveal(pow);
        }
    }
}

/// The twenty bytes of an address denote its number, most significant byte
/// first.
pub proof fn law_address_in_bytes(a: EVMAddress)
    ensures
        a.bytes().len() == 20,
        big_endian(a.bytes()) == a.value(),
{
    lemma_pow_256_16();
    assert(pow(256, 4) == 0x1_0000_0000) by {
        reveal_with_fuel(pow, 5);
    }
    lemma_written_reads_back(a.hi as nat, 4);
    lemma_written_reads_back(a.lo as nat, 16);
    lemma_big_endian_adds(be_bytes(a.hi as nat, 4), be_bytes(a.lo as nat, 16));
}

/// The account in a word is its number modulo two to the power of 160.
pub proof fn law_account_is_the_low_part(w: EVMU256)
    ensures
        account_in(w).value() == w.value() % (0x1_0000_0000nat * half()),
{
    let hi = w.hi as nat;
    let lo = w.lo as nat;
    assert((hi % 0x1_0000_0000nat) * half() + lo == (hi * half() + lo) % (0x1_0000_0000nat
        * half())) by (nonlinear_arith)
        requires
            lo < half(),
            half() == 0x1_0000_0000_0000_0000_0000_0000_0000_0000nat,
    ;
}

/// The little-endian bytes of a number are its big-endian bytes from the last to
/// the first: the first of them is the number modulo 256.
pub proof fn law_little_endian_turns_the_bytes(n: nat, width: nat)
    ensures
        le_bytes(n, width).len() == width,
        forall|i: int|
            0 <= i < width ==> #[trigger] le_bytes(n, width)[i] == be_bytes(
                n,
                width,
            )[width - 1 - i],
        width > 0 ==> le_bytes(n, width)[0] == n % 256,
        big_endian(be_bytes(n, width)) == n % (pow(256, width) as nat),
{
    lemma_be_bytes_round_trip(n, width);
}

/// The number of the address in twenty bytes is the number that they denote, and
/// that of the word for a small number is that number.
pub proof fn law_made_from_parts(v: [u8; 20], n: u64)
    ensures
        <EVMAddress as vstd::std_specs::convert::FromSpec<[u8; 20]>>::from_spec(v).value()
            == big_endian(v@),
        <EVMU256 as vstd::std_specs::convert::FromSpec<u64>>::from_spec(n).value() == n,
{
    let hi = v@.subrange(0, 4);
    let lo = v@.subrange(4, 20);
    assert(v@ =~= hi + lo);
    lemma_big_endian_adds(hi, lo);
    lemma_pow_256_16();
    assert(pow(256, 4) == 0x1_0000_0000) by {
        reveal_with_fuel(pow, 5);
    }
    lemma_big_endian_bounded(hi);
    lemma_big_endian_bounded(lo);
}

/// A difference and what was taken add up to what there was, modulo two to the
/// power of 256.
pub proof fn law_difference_adds_up(a: EVMU256, b: EVMU256)
    ensures
        ({
            let d = vstd::std_specs::ops::SubSpec::sub_spec(a, b);
            ||| d.value() + b.value() == a.value()
            ||| d.value() + b.value() == a.value() + EVMU256::max_nat() + 1 && a.value() < b.value()
        }),
{
    a.lemma_value();
    b.lemma_value();
    let d = vstd::std_specs::ops::SubSpec::sub_spec(a, b);
    d.lemma_value();
    if a.value() >= b.value() {
        lemma_word_of((a.value() - b.value()) as nat);
    } else {
        lemma_word_of((EVMU256::max_nat() + 1 + a.value() - b.value()) as nat);
    }
}

proof fn lemma_word_of(n: nat)
    requires
        n <= EVMU256::max_nat(),
    ensures
        EVMU256::of(n).value() == n,
{
}

/// Words and addresses are ordered by the numbers that they denote.
pub proof fn law_keys_are_ordered_by_number(v: EVMU256, w: EVMU256, a: EVMAddress, b: EVMAddress)
    ensures
        v.rank() < w.rank() <==> v.value() < w.value(),
        a.rank() < b.rank() <==> a.value() < b.value(),
{
}

} // verus!
