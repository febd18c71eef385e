use svd_compile::error::ErrorKind;
use svd_compile::model::{Access, Dimension, EnumeratedValue, Field, Register};
use svd_compile::register::{compile_register, FieldUpdate};
use svd_compile::span::{find_conflict, Span};

fn field(name: &str, offset: u32, width: u32) -> Field {
    Field { name: name.to_string(), offset, width, access: None, values: vec![] }
}

fn register(name: &str, width: u32, access: Option<Access>, fields: Vec<Field>) -> Register {
    Register {
        name: name.to_string(),
        offset: 0,
        width,
        access,
        reset: 0,
        fields,
        dim: None,
        alias: false,
    }
}

fn path(names: &[&str]) -> Vec<String> {
    names.iter().map(|n| n.to_string()).collect()
}

#[test]
fn overlapping_fields_fail_with_field_overlap() {
    let r = register("R", 32, None, vec![field("A", 0, 4), field("B", 2, 4)]);
    let err = compile_register(&r, Access::ReadWrite).unwrap_err();
    assert_eq!(err.kind, ErrorKind::FieldOverlap);
    assert_eq!(err.path, path(&["R", "A", "B"]));
}

#[test]
fn adjacent_fields_do_not_overlap() {
    let r = register("R", 32, None, vec![field("A", 0, 4), field("B", 4, 4), field("C", 8, 24)]);
    let c = compile_register(&r, Access::ReadWrite).unwrap();
    assert_eq!(c.fields.len(), 3);
    assert_eq!(c.fields[0].mask, 0xF);
    assert_eq!(c.fields[1].mask, 0xF0);
    assert_eq!(c.fields[2].mask, 0xFFFF_FF00);
}

#[test]
fn first_overlap_in_declared_order_is_reported() {
    let r = register(
        "R",
        32,
        None,
        vec![field("A", 0, 4), field("B", 8, 4), field("C", 9, 1), field("D", 0, 1)],
    );
    let err = compile_register(&r, Access::ReadWrite).unwrap_err();
    assert_eq!(err.path, path(&["R", "B", "C"]));
}

#[test]
fn field_errors_come_before_overlaps() {
    let r = register("R", 8, None, vec![field("A", 0, 4), field("B", 2, 4), field("C", 6, 4)]);
    let err = compile_register(&r, Access::ReadWrite).unwrap_err();
    assert_eq!(err.kind, ErrorKind::FieldOutOfBounds);
    assert_eq!(err.path, path(&["R", "C"]));
}

#[test]
fn value_errors_are_located_in_register_and_field() {
    let mut f = field("F", 0, 1);
    f.values = vec![
        EnumeratedValue { name: "A".to_string(), value: 0, is_default: false },
        EnumeratedValue { name: "B".to_string(), value: 0, is_default: false },
    ];
    let r = register("R", 8, None, vec![f]);
    let err = compile_register(&r, Access::ReadWrite).unwrap_err();
    assert_eq!(err.kind, ErrorKind::DuplicateEnumValue);
    assert_eq!(err.path, path(&["R", "F", "B"]));
}

#[test]
fn register_width_must_be_one_to_sixty_four() {
    let err = compile_register(&register("R", 0, None, vec![]), Access::ReadWrite).unwrap_err();
    assert_eq!(err.kind, ErrorKind::MalformedDescription);
    let err = compile_register(&register("R", 65, None, vec![]), Access::ReadWrite).unwrap_err();
    assert_eq!(err.kind, ErrorKind::MalformedDescription);
    assert!(compile_register(&register("R", 64, None, vec![field("ALL", 0, 64)]), Access::ReadWrite)
        .is_ok());
}

#[test]
fn repeated_register_must_be_expanded_first() {
    let mut r = register("R%s", 32, None, vec![]);
    r.dim = Some(Dimension { count: 2, stride: 4, labels: None });
    let err = compile_register(&r, Access::ReadWrite).unwrap_err();
    assert_eq!(err.kind, ErrorKind::MalformedDescription);
    assert_eq!(err.path, path(&["R%s"]));
}

#[test]
fn access_mode_selects_the_operations() {
    let ro = compile_register(&register("R", 32, Some(Access::ReadOnly), vec![]), Access::ReadWrite)
        .unwrap();
    assert!(ro.readable() && !ro.writable() && !ro.modifiable());
    let wo = compile_register(&register("R", 32, Some(Access::WriteOnly), vec![]), Access::ReadWrite)
        .unwrap();
    assert!(!wo.readable() && wo.writable() && !wo.modifiable());
    let rw = compile_register(&register("R", 32, None, vec![]), Access::ReadWrite).unwrap();
    assert!(rw.readable() && rw.writable() && rw.modifiable());
}

#[test]
fn register_access_falls_back_to_the_peripheral() {
    let r = compile_register(&register("R", 32, None, vec![field("F", 0, 1)]), Access::ReadOnly)
        .unwrap();
    assert_eq!(r.access, Access::ReadOnly);
    assert_eq!(r.fields[0].access, Access::ReadOnly);
    let r = compile_register(
        &register("R", 32, Some(Access::WriteOnly), vec![field("F", 0, 1)]),
        Access::ReadOnly,
    )
    .unwrap();
    assert_eq!(r.access, Access::WriteOnly);
    assert_eq!(r.fields[0].access, Access::WriteOnly);
}

#[test]
fn modify_applies_all_updates_to_the_value_read() {
    let r = compile_register(
        &register("R", 8, None, vec![field("EN", 0, 1), field("MODE", 1, 2)]),
        Access::ReadWrite,
    )
    .unwrap();
    let updates = vec![FieldUpdate { field: 1, value: 3 }, FieldUpdate { field: 0, value: 1 }];
    assert_eq!(r.modify(0b1111_0000, &updates), Some(0b1111_0111));
    assert_eq!(r.modify(0b1111_0111, &vec![FieldUpdate { field: 1, value: 0 }]), Some(0b1111_0001));
    assert_eq!(r.modify(0x5A, &vec![]), Some(0x5A));
}

#[test]
fn later_update_of_a_field_wins() {
    let r = compile_register(&register("R", 8, None, vec![field("F", 2, 3)]), Access::ReadWrite)
        .unwrap();
    let updates = vec![FieldUpdate { field: 0, value: 7 }, FieldUpdate { field: 0, value: 2 }];
    assert_eq!(r.modify(0, &updates), Some(0b0000_1000));
}

#[test]
fn modify_refuses_what_the_register_does_not_allow() {
    let rw = register("R", 8, None, vec![field("F", 0, 2)]);
    let r = compile_register(&rw, Access::ReadWrite).unwrap();
    assert_eq!(r.modify(0, &vec![FieldUpdate { field: 1, value: 0 }]), None);
    assert_eq!(r.modify(0, &vec![FieldUpdate { field: 0, value: 4 }]), None);
    let ro = compile_register(&rw, Access::ReadOnly).unwrap();
    assert_eq!(ro.modify(0, &vec![]), None);
    let mut locked = field("F", 0, 2);
    locked.access = Some(Access::ReadOnly);
    let r = compile_register(&register("R", 8, None, vec![locked]), Access::ReadWrite).unwrap();
    assert_eq!(r.modify(0, &vec![FieldUpdate { field: 0, value: 1 }]), None);
}

#[test]
fn conflict_search_finds_the_first_pair() {
    let span = |start: u128, size: u128| Span { start, size, shared: false };
    assert_eq!(find_conflict(&vec![span(0, 4), span(4, 4), span(8, 4)]), None);
    assert_eq!(find_conflict(&vec![span(0, 4), span(8, 4), span(3, 6)]), Some((0, 2)));
    assert_eq!(find_conflict(&vec![span(0, 4), span(2, 0)]), None);
    let shared = Span { start: 2, size: 4, shared: true };
    assert_eq!(find_conflict(&vec![span(0, 4), shared]), None);
}
