use vstd::prelude::*;
use crate::bitvector::{
    BinOpType, BitSize, Bitvector, BitvectorDomain, CastType, UnOpType,
};
use crate::pointer::{IdentifierView, PointerDomain, join_maps, lemma_entries_map_values, shift_map};

verus! {

/// An abstract value: unknown, a pointer, or a plain bit-vector.
#[derive(Clone, Debug, PartialEq, Eq, Hash)]
pub enum Data {
    /// Any value of the given width.
    Top(BitSize),
    /// A pointer into one of several abstract objects.
    Pointer(PointerDomain),
    /// A plain bit-vector value.
    Value(BitvectorDomain),
}

/// What a `Data` stands for: a pointer is seen as its map from identifier to offset.
pub enum DataView {
    Top(BitSize),
    Pointer(Map<IdentifierView, BitvectorDomain>),
    Value(BitvectorDomain),
}

impl View for Data {
    type V = DataView;

    open spec fn view(&self) -> DataView {
        match self {
            Data::Top(n) => DataView::Top(*n),
            Data::Pointer(p) => DataView::Pointer(p@),
            Data::Value(v) => DataView::Value(*v),
        }
    }
}

impl Data {
    pub open spec fn wf(self) -> bool {
        match self {
            Data::Top(_) => true,
            Data::Pointer(p) => p.wf(),
            Data::Value(v) => v.wf(),
        }
    }

    pub open spec fn spec_bitsize(self) -> BitSize {
        match self {
            Data::Top(n) => n,
            Data::Pointer(p) => p.spec_bitsize(),
            Data::Value(v) => v.spec_bitsize(),
        }
    }

    /// The join: equal kinds join their contents, anything else is unknown.
    pub open spec fn spec_merge(self, other: Data) -> DataView {
        match (self, other) {
            (Data::Top(n), _) => DataView::Top(n),
            (_, Data::Top(n)) => DataView::Top(n),
            (Data::Pointer(p), Data::Pointer(q)) => DataView::Pointer(join_maps(p@, q@)),
            (Data::Value(v), Data::Value(w)) => DataView::Value(v.spec_merge(w)),
            _ => DataView::Top(self.spec_bitsize()),
        }
    }

    /// Numbers combine exactly; a pointer plus or minus a number moves its offsets;
    /// anything else is unknown at the width of `self`.
    pub open spec fn spec_bin_op(self, op: BinOpType, rhs: Data) -> DataView {
        match (self, op, rhs) {
            (Data::Value(l), _, Data::Value(r)) => DataView::Value(l.spec_bin_op(op, r)),
            (Data::Pointer(p), BinOpType::PLUS, Data::Value(v)) => DataView::Pointer(
                shift_map(p@, BinOpType::PLUS, v),
            ),
            (Data::Value(v), BinOpType::PLUS, Data::Pointer(p)) => DataView::Pointer(
                shift_map(p@, BinOpType::PLUS, v),
            ),
            (Data::Pointer(p), BinOpType::MINUS, Data::Value(v)) => DataView::Pointer(
                shift_map(p@, BinOpType::MINUS, v),
            ),
            _ => DataView::Top(self.spec_bitsize()),
        }
    }

    pub open spec fn spec_un_op(self, op: UnOpType) -> DataView {
        match self {
            Data::Value(v) => DataView::Value(v.spec_un_op(op)),
            _ => DataView::Top(self.spec_bitsize()),
        }
    }

    pub open spec fn spec_extract(self, low_bit: BitSize, high_bit: BitSize) -> DataView {
        match self {
            Data::Value(v) => DataView::Value(v.spec_extract(low_bit, high_bit)),
            _ => DataView::Top((high_bit - low_bit + 1) as BitSize),
        }
    }

    pub open spec fn spec_cast(self, kind: CastType, width: BitSize) -> DataView {
        match self {
            Data::Value(v) => DataView::Value(v.spec_cast(kind, width)),
            _ => DataView::Top(width),
        }
    }

    pub open spec fn spec_concat(self, other: Data) -> DataView {
        match (self, other) {
            (Data::Value(hi), Data::Value(lo)) => DataView::Value(hi.spec_concat(lo)),
            _ => DataView::Top((self.spec_bitsize() + other.spec_bitsize()) as BitSize),
        }
    }

    /// A plain value holding exactly `bitv`.
    pub fn bitvector(bitv: Bitvector) -> (r: Data)
        requires
            bitv.wf(),
        ensures
            r == Data::Value(BitvectorDomain::Value(bitv)),
            r.wf(),
    {
        Data::Value(BitvectorDomain::Value(bitv))
    }

    pub fn bitsize(&self) -> (r: BitSize)
        requires
            self.wf(),
        ensures
            r == self.spec_bitsize(),
    {
        match self {
            Data::Top(n) => *n,
            Data::Pointer(p) => p.bitsize(),
            Data::Value(v) => v.bitsize(),
        }
    }

    pub fn new_top(bitsize: BitSize) -> (r: Data)
        ensures
            r == Data::Top(bitsize),
    {
        Data::Top(bitsize)
    }

    /// Unknown, at the width of `self`.
    pub fn top(&self) -> (r: Data)
        requires
            self.wf(),
        ensures
            r == Data::Top(self.spec_bitsize()),
    {
        Data::Top(self.bitsize())
    }

    /// The join of two values of one width.
    pub fn merge(&self, other: &Data) -> (r: Data)
        requires
            self.wf(),
            other.wf(),
            self.spec_bitsize() == other.spec_bitsize(),
        ensures
            r.wf(),
            r@ == self.spec_merge(*other),
            r.spec_bitsize() == self.spec_bitsize(),
    {
        match (self, other) {
            (Data::Top(n), _) => Data::Top(*n),
            (_, Data::Top(n)) => Data::Top(*n),
            (Data::Pointer(p), Data::Pointer(q)) => Data::Pointer(p.merge(q)),
            (Data::Value(v), Data::Value(w)) => Data::Value(v.merge(w)),
            _ => Data::Top(self.bitsize()),
        }
    }

    pub fn bin_op(&self, op: BinOpType, rhs: &Data) -> (r: Data)
        requires
            self.wf(),
            rhs.wf(),
        ensures
            r.wf(),
            r@ == self.spec_bin_op(op, *rhs),
    {
        match (self, op, rhs) {
            (Data::Value(l), _, Data::Value(r)) => Data::Value(l.bin_op(op, r)),
            (Data::Pointer(p), BinOpType::PLUS, Data::Value(v)) => Data::Pointer(p.add_to_offset(v)),
            (Data::Value(v), BinOpType::PLUS, Data::Pointer(p)) => Data::Pointer(p.add_to_offset(v)),
            (Data::Pointer(p), BinOpType::MINUS, Data::Value(v)) => Data::Pointer(p.sub_from_offset(v)),
            _ => Data::Top(self.bitsize()),
        }
    }

    pub fn un_op(&self, op: UnOpType) -> (r: Data)
        requires
            self.wf(),
        ensures
            r.wf(),
            r@ == self.spec_un_op(op),
            r.spec_bitsize() == self.spec_bitsize(),
    {
        match self {
            Data::Value(v) => Data::Value(v.un_op(op)),
            _ => Data::Top(self.bitsize()),
        }
    }

    /// Bits `low_bit` to `high_bit`, both included.
    pub fn extract(&self, low_bit: BitSize, high_bit: BitSize) -> (r: Data)
        requires
            self.wf(),
            low_bit <= high_bit < u64::MAX,
        ensures
            r.wf(),
            r@ == self.spec_extract(low_bit, high_bit),
            r.spec_bitsize() == high_bit - low_bit + 1,
    {
        match self {
            Data::Value(v) => Data::Value(v.extract(low_bit, high_bit)),
            _ => Data::Top(high_bit - low_bit + 1),
        }
    }

    /// Extend or truncate to `width` bits.
    pub fn cast(&self, kind: CastType, width: BitSize) -> (r: Data)
        requires
            self.wf(),
        ensures
            r.wf(),
            r@ == self.spec_cast(kind, width),
            r.spec_bitsize() == width,
    {
        match self {
            Data::Value(v) => Data::Value(v.cast(kind, width)),
            _ => Data::Top(width),
        }
    }

    /// `self` as the more significant and `other` as the less significant bits.
    pub fn concat(&self, other: &Data) -> (r: Data)
        requires
            self.wf(),
            other.wf(),
            self.spec_bitsize() + other.spec_bitsize() <= u64::MAX,
        ensures
            r.wf(),
            r@ == self.spec_concat(*other),
            r.spec_bitsize() == self.spec_bitsize() + other.spec_bitsize(),
    {
        match (self, other) {
            (Data::Value(hi), Data::Value(lo)) => Data::Value(hi.concat(lo)),
            _ => Data::Top(self.bitsize() + other.bitsize()),
        }
    }
}

/// Joining a value with itself gives the value back.
pub proof fn lemma_merge_idempotent(x: Data)
    requires
        x.wf(),
    ensures
        x.spec_merge(x) == x@,
{
    if let Data::Pointer(p) = x {
        assert(join_maps(p@, p@) =~= p@);
    }
}

/// The join does not depend on the order of its operands.
pub proof fn lemma_merge_commutative(x: Data, y: Data)
    requires
        x.wf(),
        y.wf(),
        x.spec_bitsize() == y.spec_bitsize(),
    ensures
        x.spec_merge(y) == y.spec_merge(x),
{
    if let (Data::Pointer(p), Data::Pointer(q)) = (x, y) {
        lemma_entries_map_values(p.entries(), p.spec_bitsize());
        lemma_entries_map_values(q.entries(), q.spec_bitsize());
        assert(join_maps(p@, q@) =~= join_maps(q@, p@));
    }
}

/// Unknown absorbs every value of its width.
pub proof fn lemma_top_absorbs(x: Data, n: BitSize)
    requires
        x.wf(),
        x.spec_bitsize() == n,
    ensures
        x.spec_merge(Data::Top(n)) == DataView::Top(n),
        Data::Top(n).spec_merge(x) == DataView::Top(n),
{
}

/// A pointer joined with a plain value of its width is unknown.
pub proof fn lemma_merge_pointer_value(p: PointerDomain, v: BitvectorDomain)
    requires
        p.wf(),
        v.wf(),
        p.spec_bitsize() == v.spec_bitsize(),
    ensures
        Data::Pointer(p).spec_merge(Data::Value(v)) == DataView::Top(p.spec_bitsize()),
        Data::Value(v).spec_merge(Data::Pointer(p)) == DataView::Top(p.spec_bitsize()),
{
}

/// A pointer plus a number is the number plus the pointer.
pub proof fn lemma_plus_commutes(p: PointerDomain, v: BitvectorDomain)
    ensures
        Data::Pointer(p).spec_bin_op(BinOpType::PLUS, Data::Value(v)) == Data::Value(v).spec_bin_op(
            BinOpType::PLUS,
            Data::Pointer(p),
        ),
{
}

/// Subtracting a pointer never gives a pointer: the result is unknown.
pub proof fn lemma_minus_pointer_is_top(x: Data, p: PointerDomain)
    ensures
        x.spec_bin_op(BinOpType::MINUS, Data::Pointer(p)) == DataView::Top(x.spec_bitsize()),
{
}

/// Extraction, casts and concatenation of anything but a plain value give unknown of
/// the width asked for.
pub proof fn lemma_non_value_ops_are_top(
    x: Data,
    y: Data,
    low_bit: BitSize,
    high_bit: BitSize,
    kind: CastType,
    width: BitSize,
)
    requires
        !(x is Value),
    ensures
        x.spec_extract(low_bit, high_bit) == DataView::Top((high_bit - low_bit + 1) as BitSize),
        x.spec_cast(kind, width) == DataView::Top(width),
        x.spec_concat(y) == DataView::Top((x.spec_bitsize() + y.spec_bitsize()) as BitSize),
        y.spec_concat(x) == DataView::Top((y.spec_bitsize() + x.spec_bitsize()) as BitSize),
{
}

} // verus!
