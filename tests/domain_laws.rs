use cwe_checker_rs::bitvector::{
    BinOpType, Bitvector, BitvectorDomain, CastType, UnOpType,
};
use cwe_checker_rs::data::Data;
use cwe_checker_rs::identifier::AbstractIdentifier;
use cwe_checker_rs::pointer::PointerDomain;

fn value64(v: i64) -> BitvectorDomain {
    BitvectorDomain::Value(Bitvector::from_i64(v))
}

fn value32(v: i32) -> BitvectorDomain {
    BitvectorDomain::Value(Bitvector::from_i32(v))
}

fn id(name: &str) -> AbstractIdentifier {
    AbstractIdentifier::new("time0".to_string(), name.to_string())
}

fn pointer(name: &str, offset: i64) -> PointerDomain {
    PointerDomain::new(id(name), value64(offset))
}

fn sample_values() -> Vec<Data> {
    vec![
        Data::Top(64),
        Data::Value(value64(7)),
        Data::Value(BitvectorDomain::new_top(64)),
        Data::Pointer(pointer("Rax", 0)),
        Data::Pointer(pointer("Rax", 0).merge(&pointer("Rbx", 8))),
    ]
}

#[test]
fn merge_is_idempotent() {
    for x in sample_values() {
        assert_eq!(x.merge(&x), x);
    }
}

#[test]
fn merge_is_commutative() {
    let values = sample_values();
    for x in &values {
        for y in &values {
            assert_eq!(x.merge(y), y.merge(x));
        }
    }
}

#[test]
fn top_absorbs() {
    for x in sample_values() {
        assert_eq!(x.merge(&Data::Top(64)), Data::Top(64));
        assert_eq!(Data::Top(64).merge(&x), Data::Top(64));
    }
}

#[test]
fn pointer_merged_with_value_is_top() {
    let p = Data::Pointer(pointer("Rax", 4));
    let v = Data::Value(value64(4));
    assert_eq!(p.merge(&v), Data::Top(64));
    assert_eq!(v.merge(&p), Data::Top(64));
}

#[test]
fn merge_of_disjoint_pointers_keeps_offsets() {
    let a = pointer("Rax", 0).merge(&pointer("Rcx", 16));
    let b = pointer("Rbx", 5);
    let merged = a.merge(&b);
    let targets = merged.iter_targets();
    assert_eq!(targets.len(), 3);
    assert_eq!(targets[0], (id("Rax"), value64(0)));
    assert_eq!(targets[1], (id("Rbx"), value64(5)));
    assert_eq!(targets[2], (id("Rcx"), value64(16)));
}

#[test]
fn merge_of_shared_target_joins_offsets() {
    let a = pointer("Rax", 0).merge(&pointer("Rbx", 5));
    let b = pointer("Rax", 8).merge(&pointer("Rbx", 5));
    let targets = a.merge(&b).iter_targets();
    assert_eq!(targets.len(), 2);
    assert_eq!(targets[0], (id("Rax"), BitvectorDomain::Top(64)));
    assert_eq!(targets[1], (id("Rbx"), value64(5)));
}

#[test]
fn targets_are_ordered_by_time_then_location() {
    let late = AbstractIdentifier::new("time1".to_string(), "Rax".to_string());
    let p = PointerDomain::new(late.clone(), value64(1)).merge(&pointer("Rsp", 2));
    let targets = p.iter_targets();
    assert_eq!(targets[0].0, id("Rsp"));
    assert_eq!(targets[1].0, late);
    assert_eq!(p.bitsize(), 64);
}

#[test]
fn add_then_sub_offset_is_identity() {
    let p = pointer("Rax", -4).merge(&pointer("Rbx", 100));
    let v = value64(-9);
    let moved = p.add_to_offset(&v);
    let targets = moved.iter_targets();
    assert_eq!(targets[0].1, value64(-13));
    assert_eq!(targets[1].1, value64(91));
    assert_eq!(moved.sub_from_offset(&v), p);
}

#[test]
fn plus_commutes_across_pointer_and_value() {
    let p = Data::Pointer(pointer("Rax", 0));
    let v = Data::Value(value64(3));
    assert_eq!(p.bin_op(BinOpType::PLUS, &v), v.bin_op(BinOpType::PLUS, &p));
    assert_eq!(p.bin_op(BinOpType::PLUS, &v), Data::Pointer(pointer("Rax", 3)));
}

#[test]
fn minus_pointer_is_top() {
    let p = Data::Pointer(pointer("Rax", 0));
    let v = Data::Value(value64(3));
    assert_eq!(v.bin_op(BinOpType::MINUS, &p), Data::Top(64));
    assert_eq!(p.bin_op(BinOpType::MINUS, &p), Data::Top(64));
    assert_eq!(p.bin_op(BinOpType::MINUS, &v), Data::Pointer(pointer("Rax", -3)));
}

#[test]
fn non_additive_pointer_ops_are_top() {
    let p = Data::Pointer(pointer("Rax", 0));
    let v = Data::Value(value64(0xff));
    assert_eq!(p.bin_op(BinOpType::AND, &v), Data::Top(64));
    assert_eq!(p.bin_op(BinOpType::OR, &v), Data::Top(64));
    assert_eq!(p.un_op(UnOpType::NOT), Data::Top(64));
    assert_eq!(Data::Top(32).bin_op(BinOpType::PLUS, &v), Data::Top(32));
}

#[test]
fn extract_cast_concat_of_non_values_are_top() {
    let p = Data::Pointer(pointer("Rax", 0));
    let t = Data::Top(64);
    let v = Data::Value(value32(1));
    for x in [&p, &t] {
        assert_eq!(x.extract(8, 15), Data::Top(8));
        assert_eq!(x.cast(CastType::UNSIGNED, 128), Data::Top(128));
        assert_eq!(x.cast(CastType::LOW, 16), Data::Top(16));
        assert_eq!(x.concat(&v), Data::Top(96));
        assert_eq!(v.concat(x), Data::Top(96));
    }
}

#[test]
fn different_scalars_merge_to_value_top() {
    let a = Data::Value(value64(42));
    let b = Data::Value(value64(41));
    assert_eq!(a.merge(&b), Data::Value(BitvectorDomain::Top(64)));
}

#[test]
fn pointer_plus_three() {
    let p = Data::Pointer(pointer("Rax", 0));
    let three = Data::bitvector(Bitvector::from_i64(3));
    assert_eq!(p.bin_op(BinOpType::PLUS, &three), Data::Pointer(pointer("Rax", 3)));
}

#[test]
fn two_singleton_pointers_merge() {
    let merged = Data::Pointer(pointer("Rax", 0)).merge(&Data::Pointer(pointer("Rbx", 5)));
    let expected = pointer("Rax", 0).merge(&pointer("Rbx", 5));
    assert_eq!(merged, Data::Pointer(expected.clone()));
    let targets = expected.iter_targets();
    assert_eq!(targets, vec![(id("Rax"), value64(0)), (id("Rbx"), value64(5))]);
}

#[test]
fn concat_two_words() {
    let one = Data::Value(value32(1));
    let two = Data::Value(value32(2));
    assert_eq!(one.concat(&two), Data::Value(value64((1 << 32) + 2)));
    assert_eq!(two.concat(&one), Data::Value(value64((2 << 32) + 1)));
}

#[test]
fn value_arithmetic_wraps() {
    let max = Data::Value(value64(-1));
    let one = Data::Value(value64(1));
    assert_eq!(max.bin_op(BinOpType::PLUS, &one), Data::Value(value64(0)));
    let zero = Data::Value(value64(0));
    assert_eq!(zero.bin_op(BinOpType::MINUS, &one), Data::Value(value64(-1)));
    assert_eq!(zero.un_op(UnOpType::NEG), zero);
    assert_eq!(one.un_op(UnOpType::NOT), Data::Value(value64(-2)));
}

#[test]
fn value_bitwise_and_comparisons() {
    let a = Data::Value(value64(0b1100));
    let b = Data::Value(value64(0b1010));
    assert_eq!(a.bin_op(BinOpType::AND, &b), Data::Value(value64(0b1000)));
    assert_eq!(a.bin_op(BinOpType::OR, &b), Data::Value(value64(0b1110)));
    assert_eq!(a.bin_op(BinOpType::XOR, &b), Data::Value(value64(0b0110)));
    let t = BitvectorDomain::Value(Bitvector { width: 1, value: 1 });
    let f = BitvectorDomain::Value(Bitvector { width: 1, value: 0 });
    assert_eq!(a.bin_op(BinOpType::EQ, &b), Data::Value(f));
    assert_eq!(a.bin_op(BinOpType::NEQ, &b), Data::Value(t));
    assert_eq!(b.bin_op(BinOpType::LT, &a), Data::Value(t));
    assert_eq!(a.bin_op(BinOpType::LE, &b), Data::Value(f));
    // Unsigned comparison: -1 is the largest 64-bit value.
    let minus_one = Data::Value(value64(-1));
    assert_eq!(a.bin_op(BinOpType::LT, &minus_one), Data::Value(t));
}

#[test]
fn mismatched_widths_give_value_top() {
    let a = Data::Value(value64(1));
    let b = Data::Value(value32(1));
    assert_eq!(a.bin_op(BinOpType::PLUS, &b), Data::Value(BitvectorDomain::Top(64)));
    assert_eq!(a.bin_op(BinOpType::EQ, &b), Data::Value(BitvectorDomain::Top(1)));
}

#[test]
fn extract_bits() {
    let v = Data::Value(value64(0x1234_5678_9abc_def0));
    assert_eq!(v.extract(0, 31), Data::Value(value32(0x9abc_def0_u32 as i32)));
    assert_eq!(
        v.extract(8, 15),
        Data::Value(BitvectorDomain::Value(Bitvector { width: 8, value: 0xde }))
    );
    assert_eq!(v.extract(60, 70), Data::Value(BitvectorDomain::Top(11)));
}

#[test]
fn casts() {
    let minus_two = Data::Value(value32(-2));
    assert_eq!(minus_two.cast(CastType::SIGNED, 64), Data::Value(value64(-2)));
    assert_eq!(
        minus_two.cast(CastType::UNSIGNED, 64),
        Data::Value(value64(0xffff_fffe))
    );
    let v = Data::Value(value64(0x1234_5678_9abc_def0));
    assert_eq!(v.cast(CastType::LOW, 32), Data::Value(value32(0x9abc_def0_u32 as i32)));
    assert_eq!(v.cast(CastType::HIGH, 32), Data::Value(value32(0x1234_5678)));
    assert_eq!(v.cast(CastType::SIGNED, 32), Data::Value(BitvectorDomain::Top(32)));
    assert_eq!(v.cast(CastType::UNSIGNED, 200), Data::Value(BitvectorDomain::Top(200)));
    let wide = minus_two.cast(CastType::SIGNED, 128);
    assert_eq!(
        wide,
        Data::Value(BitvectorDomain::Value(Bitvector { width: 128, value: u128::MAX - 1 }))
    );
}

#[test]
fn concat_too_wide_is_value_top() {
    let wide = Data::Value(value64(1)).cast(CastType::UNSIGNED, 128);
    assert_eq!(wide.concat(&Data::Value(value32(1))), Data::Value(BitvectorDomain::Top(160)));
}

#[test]
fn top_and_bitsize() {
    let p = Data::Pointer(pointer("Rax", 0));
    assert_eq!(p.bitsize(), 64);
    assert_eq!(p.top(), Data::Top(64));
    assert_eq!(Data::Top(16).bitsize(), 16);
    assert_eq!(Data::new_top(8), Data::Top(8));
    assert_eq!(Data::Value(value32(5)).top(), Data::Top(32));
}
