//! Points in time as integers that keep the order of seconds.
use vstd::arithmetic::power::{lemma_pow_increases, lemma_pow_positive, pow};
use vstd::prelude::*;

verus! {

/// The magnitude bits of positive infinity in the 64-bit interchange format.
pub const INFINITY_BITS: u64 = 0x7ff0_0000_0000_0000;

/// The bit that holds the sign in the 64-bit interchange format.
pub const SIGN_BIT: u64 = 0x8000_0000_0000_0000;

/// Whether the bit pattern stands for a number at all: a magnitude above
/// infinity stands for none, and has no place in the order.
pub open spec fn is_number(bits: u64) -> bool {
    magnitude(bits) <= INFINITY_BITS
}

/// The bit pattern without its sign.
pub open spec fn magnitude(bits: u64) -> int {
    if bits >= SIGN_BIT {
        bits - SIGN_BIT
    } else {
        bits as int
    }
}

/// The signed magnitude. Between two numbers it is ordered as the numbers are,
/// because the exponent stands above the fraction; both zeros map to 0.
pub open spec fn signed_magnitude(bits: u64) -> int {
    if bits >= SIGN_BIT {
        -magnitude(bits)
    } else {
        magnitude(bits)
    }
}

/// How many fractions there are between two powers of two in the 64-bit
/// interchange format.
pub const FRACTIONS: i64 = 0x10_0000_0000_0000;

/// A point in time, or a span of it, on the axis of seconds.
///
/// It holds the signed magnitude of the 64-bit pattern of the seconds, so that
/// `<`, `<=` and `==` on `key` are those of the seconds.
#[derive(Debug, Clone, Copy, PartialEq, Eq, Structural)]
pub struct Timestamp {
    pub key: i64,
}

/// The key of the time before every other.
pub const BEGINNING_KEY: i64 = -0x7ff0_0000_0000_0000;

impl Timestamp {
    /// The keys that stand for a number of seconds.
    pub open spec fn wf(self) -> bool {
        -(INFINITY_BITS as int) <= self.key <= INFINITY_BITS
    }

    /// The time whose seconds have the given bit pattern, unless the pattern is
    /// no number.
    pub fn from_bits(bits: u64) -> (res: Option<Timestamp>)
        ensures
            res is Some <==> is_number(bits),
            res matches Some(t) ==> t.wf() && t.key == signed_magnitude(bits),
    {
        if bits >= SIGN_BIT {
            let mag: u64 = bits - SIGN_BIT;
            if mag <= INFINITY_BITS {
                Some(Timestamp { key: -(mag as i64) })
            } else {
                None
            }
        } else if bits <= INFINITY_BITS {
            Some(Timestamp { key: bits as i64 })
        } else {
            None
        }
    }

    /// The bit pattern of the seconds that the time stands for.
    pub fn to_bits(self) -> (bits: u64)
        requires
            self.wf(),
        ensures
            is_number(bits),
            signed_magnitude(bits) == self.key,
            bits != SIGN_BIT,
    {
        if self.key < 0 {
            let mag: i64 = -self.key;
            SIGN_BIT + mag as u64
        } else {
            self.key as u64
        }
    }

    /// The significand of the seconds of a time behind zero. The smallest numbers
    /// of the format have no leading one.
    pub open spec fn significand(self) -> int {
        if self.key as int / FRACTIONS as int == 0 {
            self.key as int % FRACTIONS as int
        } else {
            FRACTIONS + self.key as int % FRACTIONS as int
        }
    }

    /// How often the significand is doubled, beginning at the smallest unit of
    /// the format, to get the seconds of a time behind zero.
    pub open spec fn doublings(self) -> int {
        if self.key as int / FRACTIONS as int == 0 {
            0
        } else {
            self.key as int / FRACTIONS as int - 1
        }
    }

    /// The exact seconds of a time behind zero, in the smallest unit of the
    /// format, of which `units_per_second` make one second.
    pub open spec fn units(self) -> int {
        self.significand() * pow(2, self.doublings() as nat)
    }

    /// Whether a time lies at the end of all times.
    pub open spec fn is_infinite(self) -> bool {
        self.key >= INFINITY_BITS
    }

    /// The significand of the seconds of a time, and how often it is doubled.
    pub(crate) fn parts(self) -> (res: (u64, u32))
        requires
            self.key > 0,
            !self.is_infinite(),
        ensures
            res.0 == self.significand(),
            res.1 == self.doublings(),
            0 < res.0 < 2 * FRACTIONS,
            res.1 <= 2045,
    {
        let exponent: i64 = self.key / FRACTIONS;
        let fraction: i64 = self.key % FRACTIONS;
        if exponent == 0 {
            (fraction as u64, 0)
        } else {
            ((FRACTIONS + fraction) as u64, (exponent - 1) as u32)
        }
    }

    /// The later of two times.
    pub fn max(self, other: Timestamp) -> (res: Timestamp)
        ensures
            res == latest(self, other),
    {
        if self.key < other.key {
            other
        } else {
            self
        }
    }
}

/// How often the smallest unit of the 64-bit interchange format is doubled to
/// get one.
pub const UNIT_DOUBLINGS: u32 = 1074;

/// How many of the smallest units of the format make one second.
pub open spec fn units_per_second() -> int {
    pow(2, UNIT_DOUBLINGS as nat)
}

/// The later of two times.
pub open spec fn latest(a: Timestamp, b: Timestamp) -> Timestamp {
    if a.key < b.key {
        b
    } else {
        a
    }
}

/// Of two times behind zero the later is that of more seconds.
pub proof fn later_times_are_more_seconds(a: Timestamp, b: Timestamp)
    requires
        0 < a.key < b.key,
    ensures
        0 < a.units() < b.units(),
{
    let i = a.doublings() as nat;
    let j = b.doublings() as nat;
    let s = a.significand();
    let t = b.significand();
    let x = pow(2, i);
    let y = pow(2, j);
    lemma_pow_positive(2, i);
    assert(s * x > 0) by (nonlinear_arith)
        requires
            s > 0,
            x > 0,
    ;
    if i == j {
        assert(s * x < t * x) by (nonlinear_arith)
            requires
                s < t,
                x > 0,
        ;
    } else {
        let k = (j - 1) as nat;
        let z = pow(2, k);
        reveal(pow);
        lemma_pow_increases(2, i, k);
        assert(s * x < t * y) by (nonlinear_arith)
            requires
                s < 2 * t,
                0 < x <= z,
                y == 2 * z,
                t > 0,
        ;
    }
}

/// Reading back the bits of a time gives that time, and only a negative zero
/// comes back as another pattern, that of zero.
pub proof fn bits_round_trip(bits: u64)
    requires
        is_number(bits),
    ensures
        forall|back: u64|
            is_number(back) && back != SIGN_BIT && signed_magnitude(back) == signed_magnitude(bits)
                ==> back == (if bits == SIGN_BIT { 0u64 } else { bits }),
{
}

/// Some binary places of the key hold how often a number is doubled: one more
/// there doubles the seconds.
pub proof fn higher_exponents_double_the_seconds(time: Timestamp, twice: Timestamp)
    requires
        time.key >= 0x10_0000_0000_0000,
        twice.key == time.key + 0x10_0000_0000_0000,
    ensures
        twice.units() == 2 * time.units(),
{
    reveal(pow);
    let s = time.significand();
    let i = time.doublings() as nat;
    let x = pow(2, i);
    assert(twice.significand() == s);
    assert(twice.doublings() == i + 1);
    assert(pow(2, (i + 1) as nat) == 2 * x);
    assert(s * (2 * x) == 2 * (s * x)) by (nonlinear_arith);
}

/// Of two times of the same exponent the one whose key is larger by one has as many
/// units more as the last place stands for; the smallest times are as many units as
/// their key.
pub proof fn last_place_stands_for_equal_steps(time: Timestamp, next: Timestamp)
    requires
        time.key > 0,
        next.key == time.key + 1,
        next.key as int / 0x10_0000_0000_0000 == time.key as int / 0x10_0000_0000_0000,
    ensures
        next.units() - time.units() == pow(2, time.doublings() as nat),
        time.key < 0x10_0000_0000_0000 ==> time.units() == time.key,
{
    reveal(pow);
    let s = time.significand();
    let x = pow(2, time.doublings() as nat);
    assert(next.significand() == s + 1);
    assert(next.doublings() == time.doublings());
    assert((s + 1) * x == s * x + x) by (nonlinear_arith);
    if time.key < 0x10_0000_0000_0000 {
        assert(pow(2, 0) == 1);
        assert(s * 1 == s);
    }
}

/// The time whose key is the pattern of one is one second.
pub proof fn one_is_one_second(time: Timestamp)
    requires
        time.key == 0x3ff0_0000_0000_0000,
    ensures
        time.units() == units_per_second(),
{
    let fractions = pow(2, 52);
    vstd::arithmetic::power2::lemma_pow2(52);
    vstd::arithmetic::power2::lemma2_to64_rest();
    assert(fractions == 0x10_0000_0000_0000);
    assert(time.significand() == fractions);
    assert(time.doublings() == 1022);
    vstd::arithmetic::power::lemma_pow_adds(2, 52, 1022);
}

/// The later of two times is one of them, and neither is later.
pub proof fn latest_is_not_before_either(a: Timestamp, b: Timestamp)
    ensures
        latest(a, b) == a || latest(a, b) == b,
        a.key <= latest(a, b).key,
        b.key <= latest(a, b).key,
{
}

/// Seconds are ordered by their key: a pattern without the sign is as large as it
/// is, and the same pattern with the sign as far on the other side of zero.
pub proof fn sign_turns_the_order_round(bits: u64)
    requires
        bits < 0x8000_0000_0000_0000,
    ensures
        signed_magnitude(bits) == bits,
        signed_magnitude((bits + 0x8000_0000_0000_0000) as u64) == -(bits as int),
        is_number(bits) <==> bits <= 0x7ff0_0000_0000_0000,
{
}

} // verus!
