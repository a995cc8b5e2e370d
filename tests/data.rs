use cwe_checker_rs::bitvector::{
    BinOpType, Bitvector, BitvectorDomain, CastType, UnOpType,
};
use cwe_checker_rs::data::Data;
use cwe_checker_rs::identifier::AbstractIdentifier;
use cwe_checker_rs::pointer::PointerDomain;

fn bv(value: i64) -> BitvectorDomain {
    BitvectorDomain::Value(Bitvector::from_i64(value))
}

fn new_id(name: String) -> AbstractIdentifier {
    AbstractIdentifier::new("time0".to_string(), name)
}

fn new_pointer_domain(location: String, offset: i64) -> PointerDomain {
    let id = new_id(location);
    PointerDomain::new(id, bv(offset))
}

fn new_pointer(location: String, offset: i64) -> Data {
    Data::Pointer(new_pointer_domain(location, offset))
}

fn new_value(value: i64) -> Data {
    Data::Value(bv(value))
}

fn offset_of(pointer: &PointerDomain, name: &str) -> Option<BitvectorDomain> {
    let id = new_id(name.to_string());
    pointer
        .iter_targets()
        .into_iter()
        .find(|(target, _)| *target == id)
        .map(|(_, offset)| offset)
}

#[test]
fn data_abstract_domain() {
    let pointer = new_pointer("Rax".into(), 0);
    let data = new_value(42);
    assert_eq!(pointer.merge(&pointer), pointer);
    assert_eq!(pointer.merge(&data), Data::new_top(64));
    assert_eq!(
        data.merge(&new_value(41)),
        Data::Value(BitvectorDomain::new_top(64))
    );

    let other_pointer = new_pointer("Rbx".into(), 0);
    match pointer.merge(&other_pointer) {
        Data::Pointer(_) => (),
        _ => panic!(),
    }
}

#[test]
fn data_value_domain() {
    let data = new_value(42);
    assert_eq!(data.bitsize(), 64);

    let three = new_value(3);
    let pointer = new_pointer("Rax".into(), 0);
    assert_eq!(data.bin_op(BinOpType::PLUS, &three), new_value(45));
    assert_eq!(pointer.bin_op(BinOpType::PLUS, &three), new_pointer("Rax".into(), 3));
    assert_eq!(three.un_op(UnOpType::NEG), new_value(-3));

    assert_eq!(three.extract(0, 31), Data::Value(BitvectorDomain::Value(Bitvector::from_i32(3))));

    assert_eq!(data.cast(CastType::SIGNED, 128).bitsize(), 128);

    let one = Data::Value(BitvectorDomain::Value(Bitvector::from_i32(1)));
    let two = Data::Value(BitvectorDomain::Value(Bitvector::from_i32(2)));
    let concat = new_value((1 << 32) + 2);
    assert_eq!(one.concat(&two), concat);
}

#[test]
fn pointer_domain() {
    let pointer = new_pointer_domain("Rax".into(), 0);
    let offset = bv(3);

    let pointer_plus = new_pointer_domain("Rax".into(), 3);
    let pointer_minus = new_pointer_domain("Rax".into(), -3);
    assert_eq!(pointer.add_to_offset(&offset), pointer_plus);
    assert_eq!(pointer.sub_from_offset(&offset), pointer_minus);

    let other_pointer = new_pointer_domain("Rbx".into(), 5);
    let merged = pointer.merge(&other_pointer);
    assert_eq!(merged.iter_targets().len(), 2);
    assert_eq!(offset_of(&merged, "Rax"), Some(bv(0)));
    assert_eq!(offset_of(&merged, "Rbx"), Some(bv(5)));
}
