use svd_compile::bits::{extract_bits, field_mask, insert_bits};
use svd_compile::error::ErrorKind;
use svd_compile::field::{
    compile_field, compile_values, resolve_access, Decoded, Fallback, Variant,
};
use svd_compile::model::{Access, EnumeratedValue, Field};

fn value(name: &str, raw: u64) -> EnumeratedValue {
    EnumeratedValue { name: name.to_string(), value: raw, is_default: false }
}

fn catch_all(name: &str) -> EnumeratedValue {
    EnumeratedValue { name: name.to_string(), value: 0, is_default: true }
}

fn field(name: &str, offset: u32, width: u32, values: Vec<EnumeratedValue>) -> Field {
    Field { name: name.to_string(), offset, width, access: None, values }
}

fn path(names: &[&str]) -> Vec<String> {
    names.iter().map(|n| n.to_string()).collect()
}

#[test]
fn mask_is_ones_shifted_to_the_offset() {
    assert_eq!(field_mask(4, 4), 0xF0);
    assert_eq!(field_mask(0, 1), 0x1);
    assert_eq!(field_mask(31, 1), 0x8000_0000);
    assert_eq!(field_mask(8, 16), 0x00FF_FF00);
    assert_eq!(field_mask(63, 1), 1u64 << 63);
}

#[test]
fn mask_of_a_full_width_field_does_not_overflow() {
    assert_eq!(field_mask(0, 64), u64::MAX);
    assert_eq!(field_mask(0, 32), 0xFFFF_FFFF);
}

#[test]
fn mask_of_no_bits_is_zero() {
    assert_eq!(field_mask(7, 0), 0);
}

#[test]
fn mask_matches_the_formula_for_every_field_of_sixteen_bits() {
    for offset in 0u32..16 {
        for width in 1u32..=(16 - offset) {
            let expected = ((1u64 << width) - 1) << offset;
            assert_eq!(field_mask(offset, width), expected);
        }
    }
}

#[test]
fn bits_are_taken_out_and_put_in() {
    assert_eq!(extract_bits(0xAB, 4, 0xF0), 0xA);
    assert_eq!(insert_bits(0xAB, 4, 0xF0, 0x5), 0x5B);
    assert_eq!(insert_bits(0xFFFF_FFFF_FFFF_FFFF, 0, 0xFF, 0), 0xFFFF_FFFF_FFFF_FF00);
}

#[test]
fn field_compiles_to_mask_and_access() {
    let f = field("MODE", 4, 4, vec![]);
    let c = compile_field(&f, 32, Access::ReadWrite).unwrap();
    assert_eq!(c.name, "MODE");
    assert_eq!(c.offset, 4);
    assert_eq!(c.width, 4);
    assert_eq!(c.mask, 0xF0);
    assert_eq!(c.access, Access::ReadWrite);
    assert_eq!(c.enumeration, None);
    assert_eq!(c.decode(3), None);
}

#[test]
fn field_as_wide_as_its_register_starts_at_bit_zero() {
    let ok = compile_field(&field("ALL", 0, 32, vec![]), 32, Access::ReadOnly).unwrap();
    assert_eq!(ok.offset, 0);
    assert_eq!(ok.mask, 0xFFFF_FFFF);
    let err = compile_field(&field("ALL", 1, 32, vec![]), 32, Access::ReadOnly).unwrap_err();
    assert_eq!(err.kind, ErrorKind::FieldOutOfBounds);
}

#[test]
fn field_override_takes_precedence_over_register_access() {
    let mut f = field("F", 0, 1, vec![]);
    f.access = Some(Access::ReadOnly);
    assert_eq!(compile_field(&f, 8, Access::ReadWrite).unwrap().access, Access::ReadOnly);
    f.access = None;
    assert_eq!(compile_field(&f, 8, Access::WriteOnly).unwrap().access, Access::WriteOnly);
    assert_eq!(resolve_access(Some(Access::WriteOnly), Access::ReadOnly), Access::WriteOnly);
    assert_eq!(resolve_access(None, Access::ReadOnly), Access::ReadOnly);
}

#[test]
fn field_beyond_the_register_is_out_of_bounds() {
    let err = compile_field(&field("HI", 30, 4, vec![]), 32, Access::ReadWrite).unwrap_err();
    assert_eq!(err.kind, ErrorKind::FieldOutOfBounds);
    assert_eq!(err.path, path(&["HI"]));
    assert!(compile_field(&field("HI", 28, 4, vec![]), 32, Access::ReadWrite).is_ok());
}

#[test]
fn field_without_bits_is_malformed() {
    let err = compile_field(&field("Z", 3, 0, vec![]), 32, Access::ReadWrite).unwrap_err();
    assert_eq!(err.kind, ErrorKind::MalformedDescription);
    assert_eq!(err.path, path(&["Z"]));
}

#[test]
fn duplicate_raw_value_is_reported_at_the_second_name() {
    let f = field("F", 0, 2, vec![value("A", 1), value("B", 2), value("C", 1)]);
    let err = compile_field(&f, 8, Access::ReadWrite).unwrap_err();
    assert_eq!(err.kind, ErrorKind::DuplicateEnumValue);
    assert_eq!(err.path, path(&["F", "C"]));
}

#[test]
fn raw_value_too_large_for_the_field_is_malformed() {
    let f = field("F", 0, 2, vec![value("A", 1), value("X", 4)]);
    let err = compile_field(&f, 8, Access::ReadWrite).unwrap_err();
    assert_eq!(err.kind, ErrorKind::MalformedDescription);
    assert_eq!(err.path, path(&["F", "X"]));
}

#[test]
fn second_catch_all_is_malformed() {
    let f = field("F", 0, 2, vec![catch_all("D1"), value("A", 1), catch_all("D2")]);
    let err = compile_field(&f, 8, Access::ReadWrite).unwrap_err();
    assert_eq!(err.kind, ErrorKind::MalformedDescription);
    assert_eq!(err.path, path(&["F", "D2"]));
}

#[test]
fn first_fault_in_declared_order_wins() {
    let values = vec![value("A", 1), value("B", 1), value("X", 9)];
    assert_eq!(compile_values(&values, 2), Err((1, ErrorKind::DuplicateEnumValue)));
    let values = vec![value("A", 1), value("X", 9), value("B", 1)];
    assert_eq!(compile_values(&values, 2), Err((1, ErrorKind::MalformedDescription)));
}

#[test]
fn values_that_cover_the_field_need_no_fallback() {
    let e = compile_values(&vec![value("OFF", 0), value("ON", 1)], 1).unwrap().unwrap();
    assert_eq!(e.fallback, Fallback::Unneeded);
    assert_eq!(
        e.variants,
        vec![
            Variant { name: "OFF".to_string(), value: 0 },
            Variant { name: "ON".to_string(), value: 1 },
        ]
    );
    assert_eq!(e.decode(0), Decoded::Named(0));
    assert_eq!(e.decode(1), Decoded::Named(1));
}

#[test]
fn partial_values_get_a_synthesized_fallback() {
    let e = compile_values(&vec![value("A", 0), value("B", 2)], 2).unwrap().unwrap();
    assert_eq!(e.fallback, Fallback::Synthesized);
    assert_eq!(e.decode(0), Decoded::Named(0));
    assert_eq!(e.decode(1), Decoded::Unspecified(1));
    assert_eq!(e.decode(2), Decoded::Named(1));
    assert_eq!(e.decode(3), Decoded::Unspecified(3));
}

#[test]
fn declared_catch_all_is_the_fallback() {
    let e = compile_values(&vec![value("A", 0), catch_all("OTHER")], 2).unwrap().unwrap();
    assert_eq!(e.fallback, Fallback::Declared("OTHER".to_string()));
    assert_eq!(e.variants.len(), 1);
    assert_eq!(e.decode(0), Decoded::Named(0));
    assert_eq!(e.decode(3), Decoded::Default);
}

#[test]
fn declared_catch_all_stays_even_where_values_cover_the_field() {
    let e = compile_values(&vec![value("A", 0), value("B", 1), catch_all("OTHER")], 1)
        .unwrap()
        .unwrap();
    assert_eq!(e.fallback, Fallback::Declared("OTHER".to_string()));
    assert_eq!(e.decode(1), Decoded::Named(1));
}

#[test]
fn no_values_give_no_enumeration() {
    assert_eq!(compile_values(&vec![], 4), Ok(None));
}

#[test]
fn every_raw_value_of_a_field_decodes() {
    let f = field("F", 2, 3, vec![value("A", 0), value("B", 5), value("C", 7)]);
    let c = compile_field(&f, 8, Access::ReadWrite).unwrap();
    for raw in 0u64..8 {
        let decoded = c.decode(raw).unwrap();
        match raw {
            0 => assert_eq!(decoded, Decoded::Named(0)),
            5 => assert_eq!(decoded, Decoded::Named(1)),
            7 => assert_eq!(decoded, Decoded::Named(2)),
            _ => assert_eq!(decoded, Decoded::Unspecified(raw)),
        }
    }
}

#[test]
fn full_width_enumeration_of_64_bits_is_never_exhaustive() {
    let e = compile_values(&vec![value("A", u64::MAX)], 64).unwrap().unwrap();
    assert_eq!(e.fallback, Fallback::Synthesized);
}

#[test]
fn field_is_read_and_written_through_its_mask() {
    let c = compile_field(&field("F", 4, 4, vec![]), 32, Access::ReadWrite).unwrap();
    assert_eq!(c.read(0xAB), 0xA);
    assert_eq!(c.write(0xAB, 0x5), Some(0x5B));
    assert_eq!(c.write(0xAB, 0x10), None);
    assert_eq!(c.read(c.write(0xFFFF, 0x3).unwrap()), 0x3);
}

#[test]
fn field_of_a_register_wider_than_64_bits_is_malformed() {
    let err = compile_field(&field("F", 0, 1, vec![]), 65, Access::ReadWrite).unwrap_err();
    assert_eq!(err.kind, ErrorKind::MalformedDescription);
    assert_eq!(err.path, path(&["F"]));
}
