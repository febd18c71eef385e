use svd_compile::error::ErrorKind;
use svd_compile::expand::{expand_cluster, expand_entries, expand_register};
use svd_compile::model::{Cluster, Dimension, Entry, Field, Register};
use svd_compile::text::{chars_of, string_of, substitute_label};

fn register(name: &str, offset: u64, dim: Option<Dimension>) -> Register {
    Register {
        name: name.to_string(),
        offset,
        width: 32,
        access: None,
        reset: 7,
        fields: vec![Field {
            name: "F".to_string(),
            offset: 0,
            width: 1,
            access: None,
            values: vec![],
        }],
        dim,
        alias: false,
    }
}

fn dim(count: u32, stride: u32) -> Option<Dimension> {
    Some(Dimension { count, stride, labels: None })
}

fn labelled(count: u32, stride: u32, labels: &[&str]) -> Option<Dimension> {
    Some(Dimension {
        count,
        stride,
        labels: Some(labels.iter().map(|l| l.to_string()).collect()),
    })
}

fn placed(rs: &[Register]) -> Vec<(String, u64)> {
    rs.iter().map(|r| (r.name.clone(), r.offset)).collect()
}

fn at(name: &str, offset: u64) -> (String, u64) {
    (name.to_string(), offset)
}

#[test]
fn array_of_three_registers_is_laid_out_by_stride() {
    let out = expand_register(&register("REG%s", 0x10, dim(3, 4))).unwrap();
    assert_eq!(placed(&out), vec![at("REG0", 0x10), at("REG1", 0x14), at("REG2", 0x18)]);
    for r in &out {
        assert_eq!(r.dim, None);
        assert_eq!(r.width, 32);
        assert_eq!(r.reset, 7);
        assert_eq!(r.fields.len(), 1);
    }
}

#[test]
fn instances_are_named_by_the_list_of_labels() {
    let out = expand_register(&register("CH_%s_CTRL", 0, labelled(2, 8, &["A", "B"]))).unwrap();
    assert_eq!(placed(&out), vec![at("CH_A_CTRL", 0), at("CH_B_CTRL", 8)]);
}

#[test]
fn list_of_labels_of_the_wrong_length_is_a_mismatch() {
    let err = expand_register(&register("R%s", 0, labelled(3, 4, &["A", "B"]))).unwrap_err();
    assert_eq!(err.kind, ErrorKind::DimensionMismatch);
    assert_eq!(err.path, vec!["R%s".to_string()]);
}

#[test]
fn single_register_passes_through_unchanged() {
    let r = register("STATUS", 0x24, None);
    assert_eq!(expand_register(&r).unwrap(), vec![r]);
}

#[test]
fn count_of_zero_gives_no_register() {
    assert_eq!(expand_register(&register("R%s", 0, dim(0, 4))).unwrap(), vec![]);
}

#[test]
fn numbering_goes_past_nine() {
    let out = expand_register(&register("R%s", 0, dim(12, 1))).unwrap();
    assert_eq!(out[9].name, "R9");
    assert_eq!(out[10].name, "R10");
    assert_eq!(out[11].name, "R11");
    assert_eq!(out[11].offset, 11);
}

#[test]
fn instance_beyond_the_address_space_is_malformed() {
    let err = expand_register(&register("R%s", u64::MAX - 4, dim(3, 4))).unwrap_err();
    assert_eq!(err.kind, ErrorKind::MalformedDescription);
    let ok = expand_register(&register("R%s", u64::MAX - 8, dim(3, 4))).unwrap();
    assert_eq!(ok[2].offset, u64::MAX);
}

#[test]
fn cluster_multiplies_its_registers_and_then_their_own_dimensions() {
    let c = Cluster {
        name: "CL%s".to_string(),
        offset: 0x100,
        dim: dim(2, 0x20),
        registers: vec![register("DATA", 0, None), register("BUF%s", 4, dim(2, 4))],
    };
    let out = expand_cluster(&c).unwrap();
    assert_eq!(
        placed(&out),
        vec![
            at("CL0_DATA", 0x100),
            at("CL0_BUF0", 0x104),
            at("CL0_BUF1", 0x108),
            at("CL1_DATA", 0x120),
            at("CL1_BUF0", 0x124),
            at("CL1_BUF1", 0x128),
        ]
    );
}

#[test]
fn single_cluster_prefixes_and_places_its_registers() {
    let c = Cluster {
        name: "DMA".to_string(),
        offset: 0x40,
        dim: None,
        registers: vec![register("SRC", 0, None), register("DST", 4, None)],
    };
    assert_eq!(placed(&expand_cluster(&c).unwrap()), vec![at("DMA_SRC", 0x40), at("DMA_DST", 0x44)]);
}

#[test]
fn error_in_a_cluster_names_cluster_and_register() {
    let c = Cluster {
        name: "CL".to_string(),
        offset: 0,
        dim: None,
        registers: vec![register("OK", 0, None), register("BAD%s", 4, labelled(2, 4, &["X"]))],
    };
    let err = expand_cluster(&c).unwrap_err();
    assert_eq!(err.kind, ErrorKind::DimensionMismatch);
    assert_eq!(err.path, vec!["CL".to_string(), "BAD%s".to_string()]);
    let c = Cluster { name: "CL%s".to_string(), offset: 0, dim: labelled(2, 4, &[]), registers: vec![] };
    let err = expand_cluster(&c).unwrap_err();
    assert_eq!(err.kind, ErrorKind::DimensionMismatch);
    assert_eq!(err.path, vec!["CL%s".to_string()]);
}

#[test]
fn entries_expand_in_declared_order() {
    let entries = vec![
        Entry::Register(register("A", 0, None)),
        Entry::Cluster(Cluster {
            name: "C".to_string(),
            offset: 0x10,
            dim: None,
            registers: vec![register("X", 0, None)],
        }),
        Entry::Register(register("B%s", 0x20, dim(2, 4))),
    ];
    let out = expand_entries(&entries).unwrap();
    assert_eq!(placed(&out), vec![at("A", 0), at("C_X", 0x10), at("B0", 0x20), at("B1", 0x24)]);
}

#[test]
fn first_failing_entry_ends_the_expansion() {
    let entries = vec![
        Entry::Register(register("A", 0, None)),
        Entry::Register(register("B%s", 0, labelled(1, 4, &[]))),
        Entry::Register(register("C%s", 0, labelled(5, 4, &[]))),
    ];
    let err = expand_entries(&entries).unwrap_err();
    assert_eq!(err.path, vec!["B%s".to_string()]);
}

#[test]
fn every_placeholder_is_replaced() {
    let sub = |pattern: &str, label: &str| {
        string_of(&substitute_label(&chars_of(pattern), &chars_of(label)))
    };
    assert_eq!(sub("A%sB%s", "1"), "A1B1");
    assert_eq!(sub("NONE", "1"), "NONE");
    assert_eq!(sub("%", "1"), "%");
    assert_eq!(sub("%%s", "xy"), "%xy");
    assert_eq!(sub("", "1"), "");
    assert_eq!(sub("R[%s]", "12"), "R[12]");
}
