use svd_compile::error::ErrorKind;
use svd_compile::model::{Access, Cluster, Entry, Peripheral, Register};
use svd_compile::resolve::{merge_entries, resolve_peripherals};

fn register(name: &str, offset: u64) -> Entry {
    Entry::Register(Register {
        name: name.to_string(),
        offset,
        width: 32,
        access: None,
        reset: 0,
        fields: vec![],
        dim: None,
        alias: false,
    })
}

fn peripheral(name: &str, base: u64, from: Option<&str>, entries: Vec<Entry>) -> Peripheral {
    Peripheral {
        name: name.to_string(),
        base,
        derived_from: from.map(|n| n.to_string()),
        access: None,
        entries,
    }
}

fn chain() -> Vec<Peripheral> {
    vec![
        peripheral("A", 0x1000, None, vec![register("R1", 0), register("R2", 4)]),
        peripheral("B", 0x2000, Some("A"), vec![register("R2", 8), register("R3", 12)]),
        peripheral("C", 0x3000, Some("B"), vec![register("R1", 16)]),
    ]
}

#[test]
fn derived_peripheral_inherits_along_the_whole_chain() {
    let out = resolve_peripherals(&chain()).unwrap();
    assert_eq!(out.len(), 3);
    assert_eq!(out[0].entries, vec![register("R1", 0), register("R2", 4)]);
    assert_eq!(out[1].entries, vec![register("R2", 8), register("R3", 12), register("R1", 0)]);
    assert_eq!(out[2].entries, vec![register("R1", 16), register("R2", 8), register("R3", 12)]);
}

#[test]
fn resolved_peripherals_keep_name_and_base_and_derive_from_nothing() {
    let out = resolve_peripherals(&chain()).unwrap();
    for (p, (name, base)) in out.iter().zip([("A", 0x1000u64), ("B", 0x2000), ("C", 0x3000)]) {
        assert_eq!(p.name, name);
        assert_eq!(p.base, base);
        assert_eq!(p.derived_from, None);
    }
}

#[test]
fn cycle_of_derivations_is_reported() {
    let mut ps = chain();
    ps[0].derived_from = Some("C".to_string());
    let err = resolve_peripherals(&ps).unwrap_err();
    assert_eq!(err.kind, ErrorKind::CyclicDerivation);
    assert_eq!(err.path, vec!["B".to_string()]);
}

#[test]
fn peripheral_that_derives_from_itself_is_a_cycle() {
    let ps = vec![peripheral("A", 0, Some("A"), vec![])];
    let err = resolve_peripherals(&ps).unwrap_err();
    assert_eq!(err.kind, ErrorKind::CyclicDerivation);
    assert_eq!(err.path, vec!["A".to_string()]);
}

#[test]
fn unknown_base_is_reported_with_both_names() {
    let ps = vec![peripheral("A", 0, None, vec![]), peripheral("B", 0, Some("Z"), vec![])];
    let err = resolve_peripherals(&ps).unwrap_err();
    assert_eq!(err.kind, ErrorKind::UnknownDerivedFrom);
    assert_eq!(err.path, vec!["B".to_string(), "Z".to_string()]);
}

#[test]
fn unknown_base_deep_in_a_chain_is_found() {
    let ps = vec![
        peripheral("A", 0, Some("B"), vec![]),
        peripheral("B", 0, Some("C"), vec![]),
        peripheral("C", 0, Some("NOPE"), vec![]),
    ];
    let err = resolve_peripherals(&ps).unwrap_err();
    assert_eq!(err.kind, ErrorKind::UnknownDerivedFrom);
    assert_eq!(err.path, vec!["C".to_string(), "NOPE".to_string()]);
}

#[test]
fn base_may_be_declared_after_the_derived_peripheral() {
    let ps = vec![
        peripheral("B", 0x2000, Some("A"), vec![]),
        peripheral("A", 0x1000, None, vec![register("R", 0)]),
    ];
    let out = resolve_peripherals(&ps).unwrap();
    assert_eq!(out[0].entries, vec![register("R", 0)]);
    assert_eq!(out[0].base, 0x2000);
}

#[test]
fn access_mode_is_inherited_unless_stated() {
    let mut ps = chain();
    ps[0].access = Some(Access::ReadOnly);
    ps[2].access = Some(Access::WriteOnly);
    let out = resolve_peripherals(&ps).unwrap();
    assert_eq!(out[0].access, Some(Access::ReadOnly));
    assert_eq!(out[1].access, Some(Access::ReadOnly));
    assert_eq!(out[2].access, Some(Access::WriteOnly));
}

#[test]
fn merge_keeps_own_entries_first_and_appends_the_inherited_only() {
    let own = vec![register("B", 1), register("A", 2)];
    let base = vec![register("A", 10), register("C", 11), register("B", 12), register("D", 13)];
    assert_eq!(
        merge_entries(&own, &base),
        vec![register("B", 1), register("A", 2), register("C", 11), register("D", 13)]
    );
    assert_eq!(merge_entries(&vec![], &base), base);
    assert_eq!(merge_entries(&own, &vec![]), own);
}

#[test]
fn cluster_overrides_a_register_of_the_same_name() {
    let cluster = Entry::Cluster(Cluster {
        name: "X".to_string(),
        offset: 0,
        dim: None,
        registers: vec![],
    });
    let merged = merge_entries(&vec![cluster.clone()], &vec![register("X", 4), register("Y", 8)]);
    assert_eq!(merged, vec![cluster, register("Y", 8)]);
}

#[test]
fn resolution_leaves_the_description_as_it_was() {
    let ps = chain();
    let before = ps.clone();
    let _ = resolve_peripherals(&ps);
    assert_eq!(ps, before);
}
