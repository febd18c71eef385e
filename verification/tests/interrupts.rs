use svd_compile::error::ErrorKind;
use svd_compile::interrupt::{build_vector_table, VectorEntry};
use svd_compile::model::Interrupt;

fn interrupt(name: &str, vector: i32) -> Interrupt {
    Interrupt { name: name.to_string(), vector }
}

fn handler(name: &str) -> VectorEntry {
    VectorEntry::Handler(name.to_string())
}

#[test]
fn sparse_vectors_are_padded_with_reserved_entries() {
    let table = build_vector_table(&vec![interrupt("V0", 0), interrupt("V3", 3)]).unwrap();
    assert_eq!(
        table,
        vec![handler("V0"), VectorEntry::Reserved, VectorEntry::Reserved, handler("V3")]
    );
}

#[test]
fn table_is_ordered_by_vector_number_whatever_the_declared_order() {
    let table =
        build_vector_table(&vec![interrupt("C", 2), interrupt("A", 0), interrupt("B", 1)]).unwrap();
    assert_eq!(table, vec![handler("A"), handler("B"), handler("C")]);
}

#[test]
fn table_starts_at_vector_zero() {
    let table = build_vector_table(&vec![interrupt("ONLY", 2)]).unwrap();
    assert_eq!(table, vec![VectorEntry::Reserved, VectorEntry::Reserved, handler("ONLY")]);
}

#[test]
fn no_interrupts_give_an_empty_table() {
    assert_eq!(build_vector_table(&vec![]).unwrap(), vec![]);
}

#[test]
fn index_equals_vector_number() {
    let interrupts = vec![interrupt("A", 5), interrupt("B", 1), interrupt("C", 9)];
    let table = build_vector_table(&interrupts).unwrap();
    assert_eq!(table.len(), 10);
    for (v, entry) in table.iter().enumerate() {
        match interrupts.iter().find(|i| i.vector as usize == v) {
            Some(i) => assert_eq!(*entry, handler(&i.name)),
            None => assert_eq!(*entry, VectorEntry::Reserved),
        }
    }
}

#[test]
fn shared_vector_number_is_reported_with_both_names() {
    let err = build_vector_table(&vec![interrupt("A", 1), interrupt("X", 0), interrupt("B", 1)])
        .unwrap_err();
    assert_eq!(err.kind, ErrorKind::DuplicateInterruptVector);
    assert_eq!(err.path, vec!["A".to_string(), "B".to_string()]);
}

#[test]
fn negative_vector_number_is_rejected() {
    let err = build_vector_table(&vec![interrupt("A", 1), interrupt("N", -1)]).unwrap_err();
    assert_eq!(err.kind, ErrorKind::MalformedDescription);
    assert_eq!(err.path, vec!["N".to_string()]);
}

#[test]
fn first_fault_in_declared_order_is_reported() {
    let err = build_vector_table(&vec![
        interrupt("A", 1),
        interrupt("N", -3),
        interrupt("B", 1),
    ])
    .unwrap_err();
    assert_eq!(err.kind, ErrorKind::MalformedDescription);
    let err = build_vector_table(&vec![
        interrupt("A", 1),
        interrupt("B", 1),
        interrupt("N", -3),
    ])
    .unwrap_err();
    assert_eq!(err.kind, ErrorKind::DuplicateInterruptVector);
}
