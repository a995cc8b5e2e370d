use vstd::prelude::*;
use crate::bitvector::{BinOpType, BitSize, Bitvector, BitvectorDomain, lemma_add_sub_inverse_bv};
use crate::identifier::{
    AbstractIdentifier, id_lt, lemma_id_lt_irreflexive, lemma_id_lt_total,
    lemma_id_lt_transitive,
};

verus! {

/// What an identifier stands for in contracts.
pub type IdentifierView = (Seq<char>, Seq<char>);

/// One possible target of a pointer, with the offset into it.
pub type Target = (AbstractIdentifier, BitvectorDomain);

/// The targets as a map from identifier to offset.
pub open spec fn entries_map(s: Seq<Target>) -> Map<IdentifierView, BitvectorDomain>
    decreases s.len(),
{
    if s.len() == 0 {
        Map::empty()
    } else {
        entries_map(s.skip(1)).insert(s[0].0@, s[0].1)
    }
}

/// Identifiers strictly increase along the sequence.
pub open spec fn keys_sorted(s: Seq<Target>) -> bool {
    forall|i: int, j: int| 0 <= i < j < s.len() ==> id_lt(#[trigger] s[i].0@, #[trigger] s[j].0@)
}

/// Every offset is well formed and `n` bits wide.
pub open spec fn offsets_ok(s: Seq<Target>, n: BitSize) -> bool {
    forall|i: int| 0 <= i < s.len() ==> (#[trigger] s[i]).1.wf() && s[i].1.spec_bitsize() == n
}

/// The join of two pointer maps: the union of the targets, where a target of both
/// gets the join of its two offsets.
pub open spec fn join_maps(
    a: Map<IdentifierView, BitvectorDomain>,
    b: Map<IdentifierView, BitvectorDomain>,
) -> Map<IdentifierView, BitvectorDomain> {
    Map::new(
        |k: IdentifierView| a.contains_key(k) || b.contains_key(k),
        |k: IdentifierView|
            if a.contains_key(k) && b.contains_key(k) {
                a[k].spec_merge(b[k])
            } else if a.contains_key(k) {
                a[k]
            } else {
                b[k]
            },
    )
}

/// Two sorted target sequences merged in order, joining the offsets of a shared target.
pub open spec fn merge_entries(a: Seq<Target>, b: Seq<Target>) -> Seq<Target>
    decreases a.len() + b.len(),
{
    if a.len() == 0 {
        b
    } else if b.len() == 0 {
        a
    } else if id_lt(a[0].0@, b[0].0@) {
        seq![a[0]] + merge_entries(a.skip(1), b)
    } else if id_lt(b[0].0@, a[0].0@) {
        seq![b[0]] + merge_entries(a, b.skip(1))
    } else {
        seq![(a[0].0, a[0].1.spec_merge(b[0].1))] + merge_entries(a.skip(1), b.skip(1))
    }
}

/// Every offset replaced by the result of `op` with `v`.
pub open spec fn shift_entries(s: Seq<Target>, op: BinOpType, v: BitvectorDomain) -> Seq<Target> {
    s.map_values(|e: Target| (e.0, e.1.spec_bin_op(op, v)))
}

/// Every offset of a map replaced by the result of `op` with `v`.
pub open spec fn shift_map(
    m: Map<IdentifierView, BitvectorDomain>,
    op: BinOpType,
    v: BitvectorDomain,
) -> Map<IdentifierView, BitvectorDomain> {
    m.map_values(|o: BitvectorDomain| o.spec_bin_op(op, v))
}

pub proof fn lemma_entries_map_dom(s: Seq<Target>, k: IdentifierView)
    ensures
        entries_map(s).contains_key(k) <==> exists|i: int| 0 <= i < s.len() && s[i].0@ == k,
    decreases s.len(),
{
    if s.len() > 0 {
        lemma_entries_map_dom(s.skip(1), k);
        if exists|i: int| 0 <= i < s.len() && s[i].0@ == k {
            let i = choose|i: int| 0 <= i < s.len() && s[i].0@ == k;
            if i > 0 {
                assert(s.skip(1)[i - 1].0@ == k);
            }
        }
        if exists|i: int| 0 <= i < s.len() - 1 && s.skip(1)[i].0@ == k {
            let i = choose|i: int| 0 <= i < s.len() - 1 && s.skip(1)[i].0@ == k;
            assert(s[i + 1].0@ == k);
        }
    }
}

/// The first identifier of a sorted sequence comes before all the others.
proof fn lemma_sorted_head(s: Seq<Target>)
    requires
        keys_sorted(s),
        s.len() > 0,
    ensures
        keys_sorted(s.skip(1)),
        forall|k: IdentifierView| #[trigger] entries_map(s.skip(1)).contains_key(k) ==> id_lt(s[0].0@, k),
{
    assert forall|k: IdentifierView| #[trigger] entries_map(s.skip(1)).contains_key(k) implies id_lt(s[0].0@, k) by {
        lemma_entries_map_dom(s.skip(1), k);
        let i = choose|i: int| 0 <= i < s.len() - 1 && s.skip(1)[i].0@ == k;
        assert(s[i + 1].0@ == k);
    }
    assert forall|i: int, j: int| 0 <= i < j < s.len() - 1 implies id_lt(#[trigger] s.skip(1)[i].0@, #[trigger] s.skip(1)[j].0@) by {
        assert(s.skip(1)[i] == s[i + 1]);
        assert(s.skip(1)[j] == s[j + 1]);
    }
}

/// A head that comes before every identifier of a sorted tail keeps the sequence sorted.
proof fn lemma_sorted_cons(x: Target, s: Seq<Target>)
    requires
        keys_sorted(s),
        forall|k: IdentifierView| #[trigger] entries_map(s).contains_key(k) ==> id_lt(x.0@, k),
    ensures
        keys_sorted(seq![x] + s),
{
    let t = seq![x] + s;
    assert forall|i: int, j: int| 0 <= i < j < t.len() implies id_lt(#[trigger] t[i].0@, #[trigger] t[j].0@) by {
        if i == 0 {
            lemma_entries_map_dom(s, t[j].0@);
            assert(t[j] == s[j - 1]);
        } else {
            assert(t[i] == s[i - 1]);
            assert(t[j] == s[j - 1]);
        }
    }
}

/// Merging sorted sequences gives a sorted sequence whose map is the join, with
/// offsets of the common width.
pub proof fn lemma_merge_entries(a: Seq<Target>, b: Seq<Target>, n: BitSize)
    requires
        keys_sorted(a),
        keys_sorted(b),
        offsets_ok(a, n),
        offsets_ok(b, n),
    ensures
        keys_sorted(merge_entries(a, b)),
        offsets_ok(merge_entries(a, b), n),
        entries_map(merge_entries(a, b)) == join_maps(entries_map(a), entries_map(b)),
        a.len() > 0 ==> merge_entries(a, b).len() > 0,
    decreases a.len() + b.len(),
{
    let m = merge_entries(a, b);
    if a.len() == 0 {
        assert(entries_map(a) =~= Map::empty());
        assert(join_maps(entries_map(a), entries_map(b)) =~= entries_map(b));
    } else if b.len() == 0 {
        assert(entries_map(b) =~= Map::empty());
        assert(join_maps(entries_map(a), entries_map(b)) =~= entries_map(a));
    } else {
        let ka = a[0].0@;
        let kb = b[0].0@;
        lemma_sorted_head(a);
        lemma_sorted_head(b);
        assert(offsets_ok(a.skip(1), n)) by {
            assert forall|i: int| 0 <= i < a.len() - 1 implies (#[trigger] a.skip(1)[i]).1.wf() && a.skip(1)[i].1.spec_bitsize() == n by {
                assert(a.skip(1)[i] == a[i + 1]);
            }
        }
        assert(offsets_ok(b.skip(1), n)) by {
            assert forall|i: int| 0 <= i < b.len() - 1 implies (#[trigger] b.skip(1)[i]).1.wf() && b.skip(1)[i].1.spec_bitsize() == n by {
                assert(b.skip(1)[i] == b[i + 1]);
            }
        }
        lemma_id_lt_irreflexive(ka);
        lemma_id_lt_irreflexive(kb);
        if id_lt(ka, kb) {
            let x = a[0];
            let r = merge_entries(a.skip(1), b);
            lemma_merge_entries(a.skip(1), b, n);
            assert forall|k: IdentifierView| #[trigger] entries_map(r).contains_key(k) implies id_lt(ka, k) by {
                if entries_map(b).contains_key(k) && k != kb {
                    assert(entries_map(b.skip(1)).contains_key(k));
                    lemma_id_lt_transitive(ka, kb, k);
                }
            }
            lemma_sorted_cons(x, r);
            assert(m == seq![x] + r);
            assert((seq![x] + r).skip(1) =~= r);
            assert(!entries_map(b).contains_key(ka)) by {
                if entries_map(b).contains_key(ka) && ka != kb {
                    assert(entries_map(b.skip(1)).contains_key(ka));
                    lemma_id_lt_transitive(ka, kb, ka);
                }
            }
            assert(entries_map(m) =~= join_maps(entries_map(a), entries_map(b)));
            assert forall|i: int| 0 <= i < m.len() implies (#[trigger] m[i]).1.wf() && m[i].1.spec_bitsize() == n by {
                if i > 0 {
                    assert(m[i] == r[i - 1]);
                }
            }
        } else if id_lt(kb, ka) {
            let x = b[0];
            let r = merge_entries(a, b.skip(1));
            lemma_merge_entries(a, b.skip(1), n);
            assert forall|k: IdentifierView| #[trigger] entries_map(r).contains_key(k) implies id_lt(kb, k) by {
                if entries_map(a).contains_key(k) && k != ka {
                    assert(entries_map(a.skip(1)).contains_key(k));
                    lemma_id_lt_transitive(kb, ka, k);
                }
            }
            lemma_sorted_cons(x, r);
            assert(m == seq![x] + r);
            assert((seq![x] + r).skip(1) =~= r);
            assert(!entries_map(a).contains_key(kb)) by {
                if entries_map(a).contains_key(kb) && kb != ka {
                    assert(entries_map(a.skip(1)).contains_key(kb));
                    lemma_id_lt_transitive(kb, ka, kb);
                }
            }
            assert(entries_map(m) =~= join_maps(entries_map(a), entries_map(b)));
            assert forall|i: int| 0 <= i < m.len() implies (#[trigger] m[i]).1.wf() && m[i].1.spec_bitsize() == n by {
                if i > 0 {
                    assert(m[i] == r[i - 1]);
                }
            }
        } else {
            lemma_id_lt_total(ka, kb);
            assert(ka == kb);
            let x = (a[0].0, a[0].1.spec_merge(b[0].1));
            let r = merge_entries(a.skip(1), b.skip(1));
            lemma_merge_entries(a.skip(1), b.skip(1), n);
            lemma_sorted_cons(x, r);
            assert(m == seq![x] + r);
            assert((seq![x] + r).skip(1) =~= r);
            assert(entries_map(m) =~= join_maps(entries_map(a), entries_map(b)));
            assert forall|i: int| 0 <= i < m.len() implies (#[trigger] m[i]).1.wf() && m[i].1.spec_bitsize() == n by {
                if i > 0 {
                    assert(m[i] == r[i - 1]);
                }
            }
        }
    }
}

/// Changing every offset keeps the identifiers, and the map changes offset by offset.
pub proof fn lemma_shift_entries(s: Seq<Target>, op: BinOpType, v: BitvectorDomain)
    ensures
        shift_entries(s, op, v).len() == s.len(),
        forall|i: int| 0 <= i < s.len() ==> (#[trigger] shift_entries(s, op, v)[i]).0 == s[i].0,
        keys_sorted(s) ==> keys_sorted(shift_entries(s, op, v)),
        entries_map(shift_entries(s, op, v)) == shift_map(entries_map(s), op, v),
    decreases s.len(),
{
    let t = shift_entries(s, op, v);
    if s.len() == 0 {
        assert(entries_map(t) =~= shift_map(entries_map(s), op, v));
    } else {
        lemma_shift_entries(s.skip(1), op, v);
        assert(t.skip(1) =~= shift_entries(s.skip(1), op, v));
        assert(entries_map(t) =~= shift_map(entries_map(s), op, v));
    }
}

/// A pointer: one of several abstract objects, each with the offset into it.
///
/// The targets are kept sorted by identifier, without repetition, and never empty;
/// all offsets have the pointer's width.
#[derive(Clone, Debug, PartialEq, Eq, Hash)]
pub struct PointerDomain {
    targets: Vec<Target>,
}

impl View for PointerDomain {
    type V = Map<IdentifierView, BitvectorDomain>;

    open spec fn view(&self) -> Map<IdentifierView, BitvectorDomain> {
        entries_map(self.entries())
    }
}

impl PointerDomain {
    /// The targets in identifier order.
    pub closed spec fn entries(self) -> Seq<Target> {
        self.targets@
    }

    pub open spec fn wf(self) -> bool {
        &&& self.entries().len() > 0
        &&& keys_sorted(self.entries())
        &&& offsets_ok(self.entries(), self.spec_bitsize())
    }

    pub open spec fn spec_bitsize(self) -> BitSize {
        self.entries()[0].1.spec_bitsize()
    }

    /// A pointer to exactly one object.
    pub fn new(target: AbstractIdentifier, offset: BitvectorDomain) -> (r: PointerDomain)
        requires
            offset.wf(),
        ensures
            r.wf(),
            r.entries() == seq![(target, offset)],
            r@ == Map::<IdentifierView, BitvectorDomain>::empty().insert(target@, offset),
            r.spec_bitsize() == offset.spec_bitsize(),
    {
        let ghost k = target@;
        let mut targets: Vec<Target> = Vec::new();
        targets.push((target, offset));
        let r = PointerDomain { targets };
        proof {
            assert(r.entries() =~= seq![(target, offset)]);
            assert(r.entries().skip(1) =~= Seq::<Target>::empty());
            assert(entries_map(r.entries().skip(1)) =~= Map::<IdentifierView, BitvectorDomain>::empty());
            assert(entries_map(r.entries()) == entries_map(r.entries().skip(1)).insert(k, offset));
            assert(r@ =~= Map::<IdentifierView, BitvectorDomain>::empty().insert(k, offset));
        }
        r
    }

    /// The width of the pointer: that of any of its offsets.
    pub fn bitsize(&self) -> (r: BitSize)
        requires
            self.wf(),
        ensures
            r == self.spec_bitsize(),
    {
        self.targets[0].1.bitsize()
    }

    /// The join: every target of either pointer; a target of both gets the join of
    /// its two offsets, one of only one keeps its offset.
    pub fn merge(&self, other: &PointerDomain) -> (r: PointerDomain)
        requires
            self.wf(),
            other.wf(),
            self.spec_bitsize() == other.spec_bitsize(),
        ensures
            r.wf(),
            r.entries() == merge_entries(self.entries(), other.entries()),
            r@ == join_maps(self@, other@),
            r.spec_bitsize() == self.spec_bitsize(),
    {
        let ghost a = self.targets@;
        let ghost b = other.targets@;
        let ghost n = self.spec_bitsize();
        proof {
            lemma_merge_entries(a, b, n);
            assert(a.skip(0) =~= a);
            assert(b.skip(0) =~= b);
        }
        let mut out: Vec<Target> = Vec::new();
        let mut i: usize = 0;
        let mut j: usize = 0;
        while i < self.targets.len() || j < other.targets.len()
            invariant
                a == self.targets@,
                b == other.targets@,
                offsets_ok(a, n),
                offsets_ok(b, n),
                i <= a.len(),
                j <= b.len(),
                out@ + merge_entries(a.skip(i as int), b.skip(j as int)) == merge_entries(a, b),
            decreases a.len() + b.len() - i - j,
        {
            let ghost rest = merge_entries(a.skip(i as int), b.skip(j as int));
            let ghost old_out = out@;
            if i == self.targets.len() {
                let e = (other.targets[j].0.duplicate(), other.targets[j].1);
                proof {
                    assert(e == b.skip(j as int)[0]);
                    assert(rest == b.skip(j as int));
                    assert(merge_entries(a.skip(i as int), b.skip(j as int + 1)) == b.skip(j as int + 1));
                }
                out.push(e);
                j = j + 1;
                proof {
                    assert(rest =~= seq![e] + b.skip(j as int));
                    assert(out@ + b.skip(j as int) =~= old_out + rest);
                }
            } else if j == other.targets.len() {
                let e = (self.targets[i].0.duplicate(), self.targets[i].1);
                proof {
                    assert(e == a.skip(i as int)[0]);
                    assert(rest == a.skip(i as int));
                }
                out.push(e);
                i = i + 1;
                proof {
                    assert(merge_entries(a.skip(i as int), b.skip(j as int)) == a.skip(i as int));
                    assert(rest =~= seq![e] + a.skip(i as int));
                    assert(out@ + a.skip(i as int) =~= old_out + rest);
                }
            } else {
                let c = self.targets[i].0.compare(&other.targets[j].0);
                proof {
                    assert(a.skip(i as int)[0] == a[i as int]);
                    assert(b.skip(j as int)[0] == b[j as int]);
                    assert(a.skip(i as int).skip(1) =~= a.skip(i as int + 1));
                    assert(b.skip(j as int).skip(1) =~= b.skip(j as int + 1));
                }
                if c < 0 {
                    let e = (self.targets[i].0.duplicate(), self.targets[i].1);
                    out.push(e);
                    i = i + 1;
                    proof {
                        assert(rest == seq![e] + merge_entries(a.skip(i as int), b.skip(j as int)));
                        assert(out@ + merge_entries(a.skip(i as int), b.skip(j as int)) =~= old_out + rest);
                    }
                } else if c > 0 {
                    let e = (other.targets[j].0.duplicate(), other.targets[j].1);
                    out.push(e);
                    j = j + 1;
                    proof {
                        assert(rest == seq![e] + merge_entries(a.skip(i as int), b.skip(j as int)));
                        assert(out@ + merge_entries(a.skip(i as int), b.skip(j as int)) =~= old_out + rest);
                    }
                } else {
                    proof {
                        lemma_id_lt_irreflexive(a[i as int].0@);
                    }
                    let e = (self.targets[i].0.duplicate(), self.targets[i].1.merge(&other.targets[j].1));
                    out.push(e);
                    i = i + 1;
                    j = j + 1;
                    proof {
                        assert(rest == seq![e] + merge_entries(a.skip(i as int), b.skip(j as int)));
                        assert(out@ + merge_entries(a.skip(i as int), b.skip(j as int)) =~= old_out + rest);
                    }
                }
            }
        }
        proof {
            assert(a.skip(i as int) =~= Seq::<Target>::empty());
            assert(b.skip(j as int) =~= Seq::<Target>::empty());
            assert(out@ =~= merge_entries(a, b));
        }
        PointerDomain { targets: out }
    }

    /// Every offset replaced by the result of `op` with `value`; `op` keeps the width.
    fn shift_offsets(&self, op: BinOpType, value: &BitvectorDomain) -> (r: PointerDomain)
        requires
            self.wf(),
            value.wf(),
            op == BinOpType::PLUS || op == BinOpType::MINUS,
        ensures
            r.wf(),
            r.entries() == shift_entries(self.entries(), op, *value),
            r@ == shift_map(self@, op, *value),
            r.spec_bitsize() == self.spec_bitsize(),
    {
        let ghost s = self.targets@;
        let ghost n = self.spec_bitsize();
        let ghost t = shift_entries(s, op, *value);
        let mut out: Vec<Target> = Vec::new();
        let mut i: usize = 0;
        while i < self.targets.len()
            invariant
                s == self.targets@,
                offsets_ok(s, n),
                op == BinOpType::PLUS || op == BinOpType::MINUS,
                value.wf(),
                t == shift_entries(s, op, *value),
                i <= s.len(),
                out@ == t.subrange(0, i as int),
                offsets_ok(out@, n),
            decreases s.len() - i,
        {
            let e = (self.targets[i].0.duplicate(), self.targets[i].1.bin_op(op, value));
            out.push(e);
            i = i + 1;
            proof {
                assert(out@ =~= t.subrange(0, i as int));
            }
        }
        proof {
            lemma_shift_entries(s, op, *value);
            assert(out@ =~= t);
        }
        PointerDomain { targets: out }
    }

    /// Every offset increased by `value`: the pointer plus a number.
    pub fn add_to_offset(&self, value: &BitvectorDomain) -> (r: PointerDomain)
        requires
            self.wf(),
            value.wf(),
        ensures
            r.wf(),
            r.entries() == shift_entries(self.entries(), BinOpType::PLUS, *value),
            r@ == shift_map(self@, BinOpType::PLUS, *value),
            r.spec_bitsize() == self.spec_bitsize(),
    {
        self.shift_offsets(BinOpType::PLUS, value)
    }

    /// Every offset decreased by `value`: the pointer minus a number.
    pub fn sub_from_offset(&self, value: &BitvectorDomain) -> (r: PointerDomain)
        requires
            self.wf(),
            value.wf(),
        ensures
            r.wf(),
            r.entries() == shift_entries(self.entries(), BinOpType::MINUS, *value),
            r@ == shift_map(self@, BinOpType::MINUS, *value),
            r.spec_bitsize() == self.spec_bitsize(),
    {
        self.shift_offsets(BinOpType::MINUS, value)
    }

    /// The targets with their offsets, in identifier order.
    pub fn iter_targets(&self) -> (r: Vec<Target>)
        ensures
            r@ == self.entries(),
    {
        let mut out: Vec<Target> = Vec::new();
        let mut i: usize = 0;
        while i < self.targets.len()
            invariant
                i <= self.targets@.len(),
                out@ == self.targets@.subrange(0, i as int),
            decreases self.targets@.len() - i,
        {
            out.push((self.targets[i].0.duplicate(), self.targets[i].1));
            i = i + 1;
            proof {
                assert(out@ =~= self.targets@.subrange(0, i as int));
            }
        }
        proof {
            assert(out@ =~= self.targets@);
        }
        out
    }
}

/// The map of a target sequence is finite, and holds only the sequence's offsets.
pub proof fn lemma_entries_map_values(s: Seq<Target>, n: BitSize)
    requires
        offsets_ok(s, n),
    ensures
        entries_map(s).dom().finite(),
        forall|k: IdentifierView| #[trigger] entries_map(s).contains_key(k) ==> entries_map(s)[k].wf()
            && entries_map(s)[k].spec_bitsize() == n,
    decreases s.len(),
{
    if s.len() > 0 {
        assert(offsets_ok(s.skip(1), n)) by {
            assert forall|i: int| 0 <= i < s.len() - 1 implies (#[trigger] s.skip(1)[i]).1.wf() && s.skip(1)[i].1.spec_bitsize() == n by {
                assert(s.skip(1)[i] == s[i + 1]);
            }
        }
        lemma_entries_map_values(s.skip(1), n);
    }
}

/// Merging pointers with no target in common keeps every target with its offset, so
/// the number of targets is the sum of the two.
pub proof fn lemma_merge_disjoint(a: PointerDomain, b: PointerDomain)
    requires
        a.wf(),
        b.wf(),
        a.spec_bitsize() == b.spec_bitsize(),
        a@.dom().disjoint(b@.dom()),
    ensures
        join_maps(a@, b@).dom().len() == a@.dom().len() + b@.dom().len(),
        forall|k: IdentifierView| #[trigger] a@.contains_key(k) ==> join_maps(a@, b@)[k] == a@[k],
        forall|k: IdentifierView| #[trigger] b@.contains_key(k) ==> join_maps(a@, b@)[k] == b@[k],
{
    lemma_entries_map_values(a.entries(), a.spec_bitsize());
    lemma_entries_map_values(b.entries(), b.spec_bitsize());
    assert(join_maps(a@, b@).dom() =~= a@.dom() + b@.dom());
    vstd::set_lib::lemma_set_disjoint_lens(a@.dom(), b@.dom());
}

/// Merging pointers joins the offsets of a target of both.
pub proof fn lemma_merge_shared(a: PointerDomain, b: PointerDomain, k: IdentifierView)
    requires
        a@.contains_key(k),
        b@.contains_key(k),
    ensures
        join_maps(a@, b@).contains_key(k),
        join_maps(a@, b@)[k] == a@[k].spec_merge(b@[k]),
{
}

/// Adding a number to every offset and then subtracting it gives back the pointer,
/// where the offsets and the number are exact values of the pointer's width.
pub proof fn lemma_add_sub_inverse(p: PointerDomain, v: Bitvector)
    requires
        p.wf(),
        v.wf(),
        v.width == p.spec_bitsize(),
        forall|i: int| 0 <= i < p.entries().len() ==> (#[trigger] p.entries()[i]).1 is Value,
    ensures
        shift_entries(
            shift_entries(p.entries(), BinOpType::PLUS, BitvectorDomain::Value(v)),
            BinOpType::MINUS,
            BitvectorDomain::Value(v),
        ) == p.entries(),
{
    let s = p.entries();
    let d = BitvectorDomain::Value(v);
    let t = shift_entries(shift_entries(s, BinOpType::PLUS, d), BinOpType::MINUS, d);
    assert forall|i: int| 0 <= i < s.len() implies #[trigger] t[i] == s[i] by {
        let o = s[i].1;
        if let BitvectorDomain::Value(x) = o {
            lemma_add_sub_inverse_bv(x, v);
        }
    }
    assert(t =~= s);
}

} // verus!
