use vstd::prelude::*;
use vstd::arithmetic::power2::*;

verus! {

/// A width in bits.
pub type BitSize = u64;

/// The widest bit-vector that can hold a concrete value.
pub const MAX_WIDTH: u64 = 128;

/// Binary operations on bit-vectors.
#[derive(Clone, Copy, Debug, PartialEq, Eq, Structural)]
pub enum BinOpType {
    PLUS,
    MINUS,
    AND,
    OR,
    XOR,
    EQ,
    NEQ,
    LT,
    LE,
}

/// Unary operations on bit-vectors.
#[derive(Clone, Copy, Debug, PartialEq, Eq, Structural)]
pub enum UnOpType {
    NEG,
    NOT,
}

/// Ways of changing the width of a bit-vector.
#[derive(Clone, Copy, Debug, PartialEq, Eq, Structural)]
pub enum CastType {
    UNSIGNED,
    SIGNED,
    HIGH,
    LOW,
}

/// A concrete bit-vector: `value` read as an unsigned number of `width` bits.
#[derive(Clone, Copy, Debug, PartialEq, Eq, Structural, Hash)]
pub struct Bitvector {
    pub width: BitSize,
    pub value: u128,
}

/// The largest unsigned number of `k` bits.
pub open spec fn ones(k: nat) -> int {
    pow2(k) - 1
}

pub open spec fn wrap_add(a: int, b: int, m: int) -> int {
    if a + b < m {
        a + b
    } else {
        a + b - m
    }
}

pub open spec fn wrap_sub(a: int, b: int, m: int) -> int {
    if a >= b {
        a - b
    } else {
        a - b + m
    }
}

proof fn lemma_pow2_128()
    ensures
        pow2(128) == u128::MAX + 1,
        pow2(64) == u64::MAX + 1,
{
    lemma2_to64();
    lemma_pow2_adds(64, 64);
}

/// `ones(k)` computed for `k` up to the widest bit-vector.
fn low_mask(k: u64) -> (r: u128)
    requires
        k <= MAX_WIDTH,
    ensures
        r == ones(k as nat),
{
    proof {
        lemma_pow2_128();
    }
    if k == MAX_WIDTH {
        return u128::MAX;
    }
    let mut p: u128 = 1;
    let mut i: u64 = 0;
    proof {
        lemma_pow2(0);
        vstd::arithmetic::power::lemma_pow0(2);
    }
    while i < k
        invariant
            i <= k,
            k < 128,
            p == pow2(i as nat),
            pow2(128) == u128::MAX + 1,
        decreases k - i,
    {
        proof {
            lemma_pow2_unfold((i + 1) as nat);
            lemma_pow2_strictly_increases((i + 1) as nat, 128);
        }
        p = p * 2;
        i = i + 1;
    }
    proof {
        lemma_pow2_pos(k as nat);
    }
    p - 1
}

impl Bitvector {
    /// Width between one and the widest, and a value that fits the width.
    pub open spec fn wf(self) -> bool {
        1 <= self.width <= MAX_WIDTH && self.value <= ones(self.width as nat)
    }

    /// The 64-bit two's complement encoding of `v`.
    pub fn from_i64(v: i64) -> (r: Bitvector)
        ensures
            r.wf(),
            r.width == 64,
            r.value == (if v >= 0 { v as int } else { v + pow2(64) }),
    {
        proof {
            lemma_pow2_128();
        }
        let u: u128 = if v >= 0 {
            v as u128
        } else {
            (u64::MAX as u128) - ((-(v + 1)) as u128)
        };
        Bitvector { width: 64, value: u }
    }

    /// The 32-bit two's complement encoding of `v`.
    pub fn from_i32(v: i32) -> (r: Bitvector)
        ensures
            r.wf(),
            r.width == 32,
            r.value == (if v >= 0 { v as int } else { v + pow2(32) }),
    {
        proof {
            lemma2_to64();
        }
        let u: u128 = if v >= 0 {
            v as u128
        } else {
            (u32::MAX as u128) - ((-(v + 1)) as u128)
        };
        Bitvector { width: 32, value: u }
    }
}


/// The exact-or-unknown domain over bit-vectors of a fixed width.
#[derive(Clone, Copy, Debug, PartialEq, Eq, Structural, Hash)]
pub enum BitvectorDomain {
    /// Any value of the given width.
    Top(BitSize),
    /// Exactly this value.
    Value(Bitvector),
}

/// Comparisons give a single bit; the other operations keep the width.
pub open spec fn bin_op_width(op: BinOpType, w: BitSize) -> BitSize {
    match op {
        BinOpType::EQ | BinOpType::NEQ | BinOpType::LT | BinOpType::LE => 1,
        _ => w,
    }
}

pub open spec fn bool_bit(b: bool) -> u128 {
    if b {
        1
    } else {
        0
    }
}

/// The result of a binary operation on two concrete bit-vectors.
pub open spec fn spec_bv_bin_op(a: Bitvector, op: BinOpType, b: Bitvector) -> BitvectorDomain {
    let w = a.width;
    let m = pow2(w as nat) as int;
    if a.width != b.width {
        BitvectorDomain::Top(bin_op_width(op, w))
    } else {
        BitvectorDomain::Value(
            match op {
                BinOpType::PLUS => Bitvector { width: w, value: wrap_add(a.value as int, b.value as int, m) as u128 },
                BinOpType::MINUS => Bitvector { width: w, value: wrap_sub(a.value as int, b.value as int, m) as u128 },
                BinOpType::AND => Bitvector { width: w, value: a.value & b.value },
                BinOpType::OR => Bitvector { width: w, value: (a.value | b.value) & (ones(w as nat) as u128) },
                BinOpType::XOR => Bitvector { width: w, value: (a.value ^ b.value) & (ones(w as nat) as u128) },
                BinOpType::EQ => Bitvector { width: 1, value: bool_bit(a.value == b.value) },
                BinOpType::NEQ => Bitvector { width: 1, value: bool_bit(a.value != b.value) },
                BinOpType::LT => Bitvector { width: 1, value: bool_bit(a.value < b.value) },
                BinOpType::LE => Bitvector { width: 1, value: bool_bit(a.value <= b.value) },
            },
        )
    }
}

/// The result of a unary operation on a concrete bit-vector.
pub open spec fn spec_bv_un_op(a: Bitvector, op: UnOpType) -> Bitvector {
    match op {
        UnOpType::NEG => Bitvector { width: a.width, value: wrap_sub(0, a.value as int, pow2(a.width as nat) as int) as u128 },
        UnOpType::NOT => Bitvector { width: a.width, value: (ones(a.width as nat) - a.value) as u128 },
    }
}

/// Bits `low` to `high` of a concrete bit-vector, when they lie inside it.
pub open spec fn spec_bv_extract(a: Bitvector, low: BitSize, high: BitSize) -> BitvectorDomain {
    let n = (high - low + 1) as BitSize;
    if high < a.width {
        BitvectorDomain::Value(Bitvector { width: n, value: (a.value >> (low as u32)) & (ones(n as nat) as u128) })
    } else {
        BitvectorDomain::Top(n)
    }
}

/// A concrete bit-vector brought to `width` bits.
pub open spec fn spec_bv_cast(a: Bitvector, kind: CastType, width: BitSize) -> BitvectorDomain {
    let w = a.width;
    match kind {
        CastType::UNSIGNED => if w <= width <= MAX_WIDTH {
            BitvectorDomain::Value(Bitvector { width, value: a.value })
        } else {
            BitvectorDomain::Top(width)
        },
        CastType::SIGNED => if w <= width <= MAX_WIDTH {
            BitvectorDomain::Value(Bitvector {
                width,
                value: if a.value > ones((w - 1) as nat) {
                    (a.value + ones(width as nat) - ones(w as nat)) as u128
                } else {
                    a.value
                },
            })
        } else {
            BitvectorDomain::Top(width)
        },
        CastType::LOW => if 1 <= width <= w {
            BitvectorDomain::Value(Bitvector { width, value: a.value & (ones(width as nat) as u128) })
        } else {
            BitvectorDomain::Top(width)
        },
        CastType::HIGH => if 1 <= width <= w {
            BitvectorDomain::Value(Bitvector { width, value: (a.value >> ((w - width) as u32)) & (ones(width as nat) as u128) })
        } else {
            BitvectorDomain::Top(width)
        },
    }
}

/// `hi` as the more significant and `lo` as the less significant bits.
pub open spec fn spec_bv_concat(hi: Bitvector, lo: Bitvector) -> BitvectorDomain {
    if hi.width + lo.width <= MAX_WIDTH {
        BitvectorDomain::Value(Bitvector { width: (hi.width + lo.width) as BitSize, value: (hi.value * pow2(lo.width as nat) + lo.value) as u128 })
    } else {
        BitvectorDomain::Top((hi.width + lo.width) as BitSize)
    }
}

proof fn lemma_and_bounded(x: u128, m: u128)
    ensures
        x & m <= m,
        x & m <= x,
{
    assert(x & m <= m) by (bit_vector);
    assert(x & m <= x) by (bit_vector);
}

/// Adding and then subtracting the same number of the same width changes nothing.
pub proof fn lemma_add_sub_inverse_bv(a: Bitvector, b: Bitvector)
    requires
        a.wf(),
        b.wf(),
        a.width == b.width,
    ensures
        spec_bv_bin_op(a, BinOpType::PLUS, b) is Value,
        spec_bv_bin_op(a, BinOpType::PLUS, b)->Value_0.wf(),
        spec_bv_bin_op(spec_bv_bin_op(a, BinOpType::PLUS, b)->Value_0, BinOpType::MINUS, b)
            == BitvectorDomain::Value(a),
{
    lemma_pow2_128();
    if a.width < 128 {
        lemma_pow2_strictly_increases(a.width as nat, 128);
    }
}

impl BitvectorDomain {
    pub open spec fn wf(self) -> bool {
        match self {
            BitvectorDomain::Top(_) => true,
            BitvectorDomain::Value(b) => b.wf(),
        }
    }

    pub open spec fn spec_bitsize(self) -> BitSize {
        match self {
            BitvectorDomain::Top(n) => n,
            BitvectorDomain::Value(b) => b.width,
        }
    }

    /// The join: equal values stay, different ones become unknown.
    pub open spec fn spec_merge(self, other: BitvectorDomain) -> BitvectorDomain {
        if self == other {
            self
        } else {
            BitvectorDomain::Top(self.spec_bitsize())
        }
    }

    pub open spec fn spec_bin_op(self, op: BinOpType, rhs: BitvectorDomain) -> BitvectorDomain {
        match (self, rhs) {
            (BitvectorDomain::Value(a), BitvectorDomain::Value(b)) => spec_bv_bin_op(a, op, b),
            _ => BitvectorDomain::Top(bin_op_width(op, self.spec_bitsize())),
        }
    }

    pub open spec fn spec_un_op(self, op: UnOpType) -> BitvectorDomain {
        match self {
            BitvectorDomain::Value(a) => BitvectorDomain::Value(spec_bv_un_op(a, op)),
            BitvectorDomain::Top(n) => BitvectorDomain::Top(n),
        }
    }

    pub open spec fn spec_extract(self, low: BitSize, high: BitSize) -> BitvectorDomain {
        match self {
            BitvectorDomain::Value(a) => spec_bv_extract(a, low, high),
            BitvectorDomain::Top(_) => BitvectorDomain::Top((high - low + 1) as BitSize),
        }
    }

    pub open spec fn spec_cast(self, kind: CastType, width: BitSize) -> BitvectorDomain {
        match self {
            BitvectorDomain::Value(a) => spec_bv_cast(a, kind, width),
            BitvectorDomain::Top(_) => BitvectorDomain::Top(width),
        }
    }

    pub open spec fn spec_concat(self, lo: BitvectorDomain) -> BitvectorDomain {
        match (self, lo) {
            (BitvectorDomain::Value(a), BitvectorDomain::Value(b)) => spec_bv_concat(a, b),
            _ => BitvectorDomain::Top((self.spec_bitsize() + lo.spec_bitsize()) as BitSize),
        }
    }

    pub fn new_top(bitsize: BitSize) -> (r: BitvectorDomain)
        ensures
            r == BitvectorDomain::Top(bitsize),
    {
        BitvectorDomain::Top(bitsize)
    }

    pub fn bitsize(&self) -> (r: BitSize)
        ensures
            r == self.spec_bitsize(),
    {
        match self {
            BitvectorDomain::Top(n) => *n,
            BitvectorDomain::Value(b) => b.width,
        }
    }

    pub fn merge(&self, other: &BitvectorDomain) -> (r: BitvectorDomain)
        requires
            self.wf(),
            other.wf(),
        ensures
            r == self.spec_merge(*other),
            r.wf(),
    {
        if *self == *other {
            *self
        } else {
            BitvectorDomain::Top(self.bitsize())
        }
    }

    pub fn bin_op(&self, op: BinOpType, rhs: &BitvectorDomain) -> (r: BitvectorDomain)
        requires
            self.wf(),
            rhs.wf(),
        ensures
            r == self.spec_bin_op(op, *rhs),
            r.wf(),
            r.spec_bitsize() == bin_op_width(op, self.spec_bitsize()),
    {
        match (self, rhs) {
            (BitvectorDomain::Value(a), BitvectorDomain::Value(b)) => {
                let w = a.width;
                let x = a.value;
                let y = b.value;
                if w != b.width {
                    let rw: BitSize = match op {
                        BinOpType::EQ | BinOpType::NEQ | BinOpType::LT | BinOpType::LE => 1,
                        _ => w,
                    };
                    return BitvectorDomain::Top(rw);
                }
                let mask = low_mask(w);
                proof {
                    lemma_pow2_128();
                    if w < 128 {
                        lemma_pow2_strictly_increases(w as nat, 128);
                    }
                    lemma_pow2_pos(1);
                    lemma_pow2_unfold(1);
                    vstd::arithmetic::power::lemma_pow0(2);
                    lemma_pow2(0);
                }
                let v: Bitvector = match op {
                    BinOpType::PLUS => {
                        let s: u128 = if x <= mask - y { x + y } else { x - (mask - y) - 1 };
                        Bitvector { width: w, value: s }
                    },
                    BinOpType::MINUS => {
                        let s: u128 = if x >= y { x - y } else { mask - (y - x) + 1 };
                        Bitvector { width: w, value: s }
                    },
                    BinOpType::AND => {
                        proof {
                            lemma_and_bounded(x, y);
                        }
                        Bitvector { width: w, value: x & y }
                    },
                    BinOpType::OR => {
                        proof {
                            lemma_and_bounded(x | y, mask);
                        }
                        Bitvector { width: w, value: (x | y) & mask }
                    },
                    BinOpType::XOR => {
                        proof {
                            lemma_and_bounded(x ^ y, mask);
                        }
                        Bitvector { width: w, value: (x ^ y) & mask }
                    },
                    BinOpType::EQ => Bitvector { width: 1, value: if x == y { 1 } else { 0 } },
                    BinOpType::NEQ => Bitvector { width: 1, value: if x != y { 1 } else { 0 } },
                    BinOpType::LT => Bitvector { width: 1, value: if x < y { 1 } else { 0 } },
                    BinOpType::LE => Bitvector { width: 1, value: if x <= y { 1 } else { 0 } },
                };
                BitvectorDomain::Value(v)
            },
            _ => {
                let w = self.bitsize();
                let rw: BitSize = match op {
                    BinOpType::EQ | BinOpType::NEQ | BinOpType::LT | BinOpType::LE => 1,
                    _ => w,
                };
                BitvectorDomain::Top(rw)
            },
        }
    }

    pub fn un_op(&self, op: UnOpType) -> (r: BitvectorDomain)
        requires
            self.wf(),
        ensures
            r == self.spec_un_op(op),
            r.wf(),
            r.spec_bitsize() == self.spec_bitsize(),
    {
        match self {
            BitvectorDomain::Value(a) => {
                let mask = low_mask(a.width);
                let x = a.value;
                let value: u128 = match op {
                    UnOpType::NEG => if x == 0 { 0 } else { mask - x + 1 },
                    UnOpType::NOT => mask - x,
                };
                BitvectorDomain::Value(Bitvector { width: a.width, value })
            },
            BitvectorDomain::Top(n) => BitvectorDomain::Top(*n),
        }
    }

    /// Bits `low_bit` to `high_bit`, both included.
    pub fn extract(&self, low_bit: BitSize, high_bit: BitSize) -> (r: BitvectorDomain)
        requires
            self.wf(),
            low_bit <= high_bit < u64::MAX,
        ensures
            r == self.spec_extract(low_bit, high_bit),
            r.wf(),
            r.spec_bitsize() == high_bit - low_bit + 1,
    {
        let n: BitSize = high_bit - low_bit + 1;
        match self {
            BitvectorDomain::Value(a) => {
                if high_bit < a.width {
                    let mask = low_mask(n);
                    proof {
                        lemma_and_bounded(a.value >> (low_bit as u32), mask);
                    }
                    BitvectorDomain::Value(Bitvector { width: n, value: (a.value >> (low_bit as u32)) & mask })
                } else {
                    BitvectorDomain::Top(n)
                }
            },
            BitvectorDomain::Top(_) => BitvectorDomain::Top(n),
        }
    }

    /// Extend or truncate to `width` bits.
    pub fn cast(&self, kind: CastType, width: BitSize) -> (r: BitvectorDomain)
        requires
            self.wf(),
        ensures
            r == self.spec_cast(kind, width),
            r.wf(),
            r.spec_bitsize() == width,
    {
        match self {
            BitvectorDomain::Value(a) => {
                let w = a.width;
                let x = a.value;
                match kind {
                    CastType::UNSIGNED => {
                        if w <= width && width <= MAX_WIDTH {
                            proof {
                                if w < width {
                                    lemma_pow2_strictly_increases(w as nat, width as nat);
                                }
                            }
                            BitvectorDomain::Value(Bitvector { width, value: x })
                        } else {
                            BitvectorDomain::Top(width)
                        }
                    },
                    CastType::SIGNED => {
                        if w <= width && width <= MAX_WIDTH {
                            let wide = low_mask(width);
                            let narrow = low_mask(w);
                            let half = low_mask(w - 1);
                            proof {
                                if w < width {
                                    lemma_pow2_strictly_increases(w as nat, width as nat);
                                }
                            }
                            let value: u128 = if x > half { x + (wide - narrow) } else { x };
                            BitvectorDomain::Value(Bitvector { width, value })
                        } else {
                            BitvectorDomain::Top(width)
                        }
                    },
                    CastType::LOW => {
                        if 1 <= width && width <= w {
                            let mask = low_mask(width);
                            proof {
                                lemma_and_bounded(x, mask);
                            }
                            BitvectorDomain::Value(Bitvector { width, value: x & mask })
                        } else {
                            BitvectorDomain::Top(width)
                        }
                    },
                    CastType::HIGH => {
                        if 1 <= width && width <= w {
                            let mask = low_mask(width);
                            let shift: u32 = (w - width) as u32;
                            proof {
                                lemma_and_bounded(x >> shift, mask);
                            }
                            BitvectorDomain::Value(Bitvector { width, value: (x >> shift) & mask })
                        } else {
                            BitvectorDomain::Top(width)
                        }
                    },
                }
            },
            BitvectorDomain::Top(_) => BitvectorDomain::Top(width),
        }
    }

    /// `self` as the more significant and `lo` as the less significant bits.
    pub fn concat(&self, lo: &BitvectorDomain) -> (r: BitvectorDomain)
        requires
            self.wf(),
            lo.wf(),
            self.spec_bitsize() + lo.spec_bitsize() <= u64::MAX,
        ensures
            r == self.spec_concat(*lo),
            r.wf(),
            r.spec_bitsize() == self.spec_bitsize() + lo.spec_bitsize(),
    {
        match (self, lo) {
            (BitvectorDomain::Value(a), BitvectorDomain::Value(b)) => {
                let wh = a.width;
                let wl = b.width;
                if wh <= MAX_WIDTH - wl {
                    proof {
                        lemma_pow2_128();
                        lemma_pow2_strictly_increases(wl as nat, 128);
                    }
                    let scale: u128 = low_mask(wl) + 1;
                    let h = a.value;
                    let l = b.value;
                    proof {
                        lemma_pow2_128();
                        lemma_pow2_adds(wh as nat, wl as nat);
                        if wh + wl < 128 {
                            lemma_pow2_strictly_increases((wh + wl) as nat, 128);
                        }
                        let ph = pow2(wh as nat) as int;
                        let pl = pow2(wl as nat) as int;
                        assert(h * pl <= (ph - 1) * pl) by (nonlinear_arith)
                            requires h <= ph - 1, pl > 0;
                        assert((ph - 1) * pl == ph * pl - pl) by (nonlinear_arith);
                    }
                    BitvectorDomain::Value(Bitvector { width: wh + wl, value: h * scale + l })
                } else {
                    BitvectorDomain::Top(wh + wl)
                }
            },
            _ => BitvectorDomain::Top(self.bitsize() + lo.bitsize()),
        }
    }
}

} // verus!
