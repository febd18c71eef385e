use svd_compile::address::{check_peripherals, extent_of};
use svd_compile::device::{compile_device, compile_peripherals, LinkStub, Target};
use svd_compile::emit::{Declaration, Item};
use svd_compile::error::{CompileError, ErrorKind};
use svd_compile::interrupt::VectorEntry;
use svd_compile::model::{
    Access, Cpu, Device, Dimension, Entry, EnumeratedValue, Field, Interrupt, Peripheral, Register,
};
use svd_compile::peripheral::compile_peripheral;

fn value(name: &str, raw: u64) -> EnumeratedValue {
    EnumeratedValue { name: name.to_string(), value: raw, is_default: false }
}

fn field(name: &str, offset: u32, width: u32, values: Vec<EnumeratedValue>) -> Field {
    Field { name: name.to_string(), offset, width, access: None, values }
}

fn register(name: &str, offset: u64, width: u32, fields: Vec<Field>) -> Register {
    Register {
        name: name.to_string(),
        offset,
        width,
        access: None,
        reset: 0,
        fields,
        dim: None,
        alias: false,
    }
}

fn peripheral(name: &str, base: u64, registers: Vec<Register>) -> Peripheral {
    Peripheral {
        name: name.to_string(),
        base,
        derived_from: None,
        access: None,
        entries: registers.into_iter().map(Entry::Register).collect(),
    }
}

fn interrupt(name: &str, vector: i32) -> Interrupt {
    Interrupt { name: name.to_string(), vector }
}

fn path(names: &[&str]) -> Vec<String> {
    names.iter().map(|n| n.to_string()).collect()
}

fn decl(names: &[&str], item: Item) -> Declaration {
    Declaration { path: path(names), item }
}

fn timer_chip() -> Device {
    Device {
        name: "Chip".to_string(),
        cpu: None,
        peripherals: vec![peripheral(
            "TIMER",
            0x4000_0000,
            vec![register(
                "CTRL",
                0,
                32,
                vec![
                    field("EN", 0, 1, vec![value("DISABLED", 0), value("ENABLED", 1)]),
                    field("MODE", 1, 2, vec![value("ONE_SHOT", 0)]),
                ],
            )],
        )],
        interrupts: vec![interrupt("TIM0", 0), interrupt("TIM3", 3)],
    }
}

#[test]
fn device_compiles_to_declarations_in_declared_order() {
    let out = compile_device(&timer_chip(), Target::Generic, false).unwrap();
    let ctrl = ["TIMER", "ctrl"];
    let en = ["TIMER", "ctrl", "en"];
    let mode = ["TIMER", "ctrl", "mode"];
    assert_eq!(
        out.declarations,
        vec![
            decl(&["chip"], Item::Preamble { nightly: false }),
            decl(&["TIMER"], Item::PeripheralBase { address: 0x4000_0000 }),
            decl(&ctrl, Item::RegisterType { offset: 0, width: 32, reset: 0 }),
            decl(&ctrl, Item::Read),
            decl(&ctrl, Item::Write),
            decl(&ctrl, Item::Modify),
            decl(&en, Item::FieldRead { offset: 0, mask: 0x1 }),
            decl(&en, Item::FieldWrite { offset: 0, mask: 0x1 }),
            decl(&["TIMER", "ctrl", "en", "Disabled"], Item::Variant { value: 0 }),
            decl(&["TIMER", "ctrl", "en", "Enabled"], Item::Variant { value: 1 }),
            decl(&mode, Item::FieldRead { offset: 1, mask: 0x6 }),
            decl(&mode, Item::FieldWrite { offset: 1, mask: 0x6 }),
            decl(&["TIMER", "ctrl", "mode", "OneShot"], Item::Variant { value: 0 }),
            decl(&["TIMER", "ctrl", "mode", "Unspecified"], Item::RawVariant),
            decl(&["TIM0"], Item::Interrupt { vector: 0 }),
            decl(&["TIM3"], Item::Interrupt { vector: 3 }),
        ]
    );
    assert_eq!(out.vector_table, None);
    assert_eq!(out.link_stub, None);
}

#[test]
fn vector_table_and_link_stub_are_made_for_cortex_m_only() {
    let out = compile_device(&timer_chip(), Target::CortexM, false).unwrap();
    assert_eq!(
        out.vector_table,
        Some(vec![
            VectorEntry::Handler("TIM0".to_string()),
            VectorEntry::Reserved,
            VectorEntry::Reserved,
            VectorEntry::Handler("TIM3".to_string()),
        ])
    );
    assert_eq!(out.link_stub, Some(LinkStub { symbols: path(&["TIM0", "TIM3"]) }));
    for target in [Target::Msp430, Target::RiscV, Target::Generic] {
        let out = compile_device(&timer_chip(), target, false).unwrap();
        assert_eq!(out.vector_table, None);
        assert_eq!(out.link_stub, None);
    }
}

#[test]
fn declarations_do_not_depend_on_the_target() {
    let a = compile_device(&timer_chip(), Target::CortexM, true).unwrap();
    let b = compile_device(&timer_chip(), Target::RiscV, true).unwrap();
    assert_eq!(a.declarations, b.declarations);
}

#[test]
fn nightly_flag_is_carried_into_the_preamble() {
    let out = compile_device(&timer_chip(), Target::Generic, true).unwrap();
    assert_eq!(out.declarations[0], decl(&["chip"], Item::Preamble { nightly: true }));
    let plain = compile_device(&timer_chip(), Target::Generic, false).unwrap();
    assert_eq!(out.declarations[1..], plain.declarations[1..]);
}

#[test]
fn processor_gives_a_constant_for_its_priority_bits() {
    let mut dev = timer_chip();
    dev.cpu = Some(Cpu { name: "CM4".to_string(), priority_bits: 4 });
    let out = compile_device(&dev, Target::CortexM, false).unwrap();
    assert_eq!(out.declarations[0], decl(&["chip"], Item::Preamble { nightly: false }));
    assert_eq!(out.declarations[1], decl(&["chip"], Item::PriorityBits { bits: 4 }));
    assert_eq!(out.declarations[2], decl(&["TIMER"], Item::PeripheralBase { address: 0x4000_0000 }));
    let plain = compile_device(&timer_chip(), Target::CortexM, false).unwrap();
    assert_eq!(out.declarations[2..], plain.declarations[1..]);
}

#[test]
fn compiling_twice_gives_the_same_result() {
    let dev = timer_chip();
    let first = compile_device(&dev, Target::CortexM, false);
    let second = compile_device(&dev, Target::CortexM, false);
    assert_eq!(first, second);
    let copy = dev.clone();
    assert_eq!(compile_device(&copy, Target::CortexM, false), first);
}

#[test]
fn colliding_registers_get_distinct_identifiers() {
    let dev = Device {
        name: "D".to_string(),
        cpu: None,
        peripherals: vec![peripheral(
            "P",
            0,
            vec![register("CTRL", 0, 32, vec![]), register("ctrl", 4, 32, vec![])],
        )],
        interrupts: vec![],
    };
    let out = compile_device(&dev, Target::Generic, false).unwrap();
    let types: Vec<Vec<String>> = out
        .declarations
        .iter()
        .filter(|d| matches!(d.item, Item::RegisterType { .. }))
        .map(|d| d.path.clone())
        .collect();
    assert_eq!(types, vec![path(&["P", "ctrl"]), path(&["P", "ctrl_2"])]);
}

#[test]
fn identifiers_are_unique_within_each_scope_only() {
    let dev = Device {
        name: "D".to_string(),
        cpu: None,
        peripherals: vec![
            peripheral("P", 0x00, vec![register("CTRL", 0, 32, vec![field("EN", 0, 1, vec![])])]),
            peripheral("Q", 0x10, vec![register("CTRL", 0, 32, vec![field("EN", 0, 1, vec![])])]),
        ],
        interrupts: vec![interrupt("P", 0)],
    };
    let out = compile_device(&dev, Target::Generic, false).unwrap();
    let paths: Vec<Vec<String>> = out.declarations.iter().map(|d| d.path.clone()).collect();
    assert!(paths.contains(&path(&["P", "ctrl", "en"])));
    assert!(paths.contains(&path(&["Q", "ctrl", "en"])));
    assert_eq!(out.declarations.last().unwrap(), &decl(&["P"], Item::Interrupt { vector: 0 }));
}

#[test]
fn access_mode_selects_the_declared_methods() {
    let mut p = peripheral("P", 0, vec![register("STATUS", 0, 8, vec![field("F", 0, 1, vec![])])]);
    p.access = Some(Access::ReadOnly);
    let dev = Device { name: "D".to_string(), cpu: None, peripherals: vec![p], interrupts: vec![] };
    let out = compile_device(&dev, Target::Generic, false).unwrap();
    assert_eq!(
        out.declarations[1..],
        [
            decl(&["P"], Item::PeripheralBase { address: 0 }),
            decl(&["P", "status"], Item::RegisterType { offset: 0, width: 8, reset: 0 }),
            decl(&["P", "status"], Item::Read),
            decl(&["P", "status", "f"], Item::FieldRead { offset: 0, mask: 1 }),
        ]
    );
}

#[test]
fn declared_catch_all_shares_the_scope_of_the_variants() {
    let values = vec![
        value("other", 1),
        EnumeratedValue { name: "OTHER".to_string(), value: 0, is_default: true },
    ];
    let dev = Device {
        name: "D".to_string(),
        cpu: None,
        peripherals: vec![peripheral("P", 0, vec![register("R", 0, 8, vec![field("F", 0, 2, values)])])],
        interrupts: vec![],
    };
    let out = compile_device(&dev, Target::Generic, false).unwrap();
    let n = out.declarations.len();
    assert_eq!(
        out.declarations[n - 2..],
        [
            decl(&["P", "r", "f", "Other"], Item::Variant { value: 1 }),
            decl(&["P", "r", "f", "Other_2"], Item::DefaultVariant),
        ]
    );
}

#[test]
fn overlapping_peripherals_are_reported() {
    let dev = Device {
        name: "D".to_string(),
        cpu: None,
        peripherals: vec![
            peripheral("PA", 0x1000, vec![register("R", 0, 32, vec![])]),
            peripheral("PB", 0x2000, vec![register("R", 0, 32, vec![])]),
            peripheral("PC", 0x1002, vec![register("R", 0, 32, vec![])]),
        ],
        interrupts: vec![],
    };
    let err = compile_device(&dev, Target::Generic, false).unwrap_err();
    assert_eq!(err.kind, ErrorKind::PeripheralOverlap);
    assert_eq!(err.path, path(&["D", "PA", "PC"]));
}

#[test]
fn peripherals_side_by_side_do_not_overlap() {
    let ps = vec![
        peripheral("PA", 0x1000, vec![register("R", 0, 32, vec![])]),
        peripheral("PB", 0x1004, vec![register("R", 0, 32, vec![])]),
        peripheral("EMPTY", 0x1000, vec![]),
    ];
    let compiled = compile_peripherals(&ps).unwrap();
    assert_eq!(check_peripherals(&compiled), Ok(()));
    assert_eq!(extent_of(&compiled[0].registers), 4);
    assert_eq!(extent_of(&compiled[2].registers), 0);
}

#[test]
fn extent_reaches_the_end_of_the_last_register() {
    let p = peripheral(
        "P",
        0,
        vec![register("A", 0x10, 16, vec![]), register("B", 0x4, 64, vec![]), register("C", 0, 1, vec![])],
    );
    let c = compile_peripheral(&p).unwrap();
    assert_eq!(extent_of(&c.registers), 0x12);
}

#[test]
fn overlapping_registers_are_reported_unless_marked_as_aliases() {
    let a = register("A", 0, 32, vec![]);
    let mut b = register("B", 2, 16, vec![]);
    let p = peripheral("P", 0, vec![a.clone(), b.clone()]);
    let err = compile_peripheral(&p).unwrap_err();
    assert_eq!(err.kind, ErrorKind::RegisterOverlap);
    assert_eq!(err.path, path(&["P", "A", "B"]));
    b.alias = true;
    let p = peripheral("P", 0, vec![a, b]);
    assert!(compile_peripheral(&p).is_ok());
}

#[test]
fn expanded_registers_are_checked_for_overlap() {
    let mut r = register("R%s", 0, 32, vec![]);
    r.dim = Some(Dimension { count: 2, stride: 2, labels: None });
    let p = peripheral("P", 0, vec![r]);
    let err = compile_peripheral(&p).unwrap_err();
    assert_eq!(err.kind, ErrorKind::RegisterOverlap);
    assert_eq!(err.path, path(&["P", "R0", "R1"]));
}

#[test]
fn unresolved_peripheral_is_not_compiled() {
    let mut p = peripheral("P", 0, vec![]);
    p.derived_from = Some("Q".to_string());
    let err = compile_peripheral(&p).unwrap_err();
    assert_eq!(err.kind, ErrorKind::MalformedDescription);
}

#[test]
fn derived_peripheral_is_compiled_with_what_it_inherits() {
    let base = peripheral("UART0", 0x1000, vec![register("DATA", 0, 8, vec![])]);
    let mut derived = peripheral("UART1", 0x2000, vec![]);
    derived.derived_from = Some("UART0".to_string());
    let compiled = compile_peripherals(&vec![derived, base]).unwrap();
    assert_eq!(compiled[0].name, "UART1");
    assert_eq!(compiled[0].base, 0x2000);
    assert_eq!(compiled[0].registers.len(), 1);
    assert_eq!(compiled[0].registers[0].name, "DATA");
}

#[test]
fn errors_carry_the_path_from_the_device_down() {
    let mut dev = timer_chip();
    dev.peripherals[0].entries = vec![Entry::Register(register(
        "CTRL",
        0,
        32,
        vec![field("A", 0, 4, vec![]), field("B", 2, 4, vec![])],
    ))];
    let err = compile_device(&dev, Target::CortexM, false).unwrap_err();
    assert_eq!(err.kind, ErrorKind::FieldOverlap);
    assert_eq!(err.path, path(&["Chip", "TIMER", "CTRL", "A", "B"]));
    assert_eq!(err.kind_name(), "FieldOverlap");
}

#[test]
fn interrupt_faults_fail_the_whole_compilation_for_every_target() {
    let mut dev = timer_chip();
    dev.interrupts.push(interrupt("AGAIN", 3));
    for target in [Target::CortexM, Target::Generic] {
        let err = compile_device(&dev, target, false).unwrap_err();
        assert_eq!(err.kind, ErrorKind::DuplicateInterruptVector);
        assert_eq!(err.path, path(&["Chip", "TIM3", "AGAIN"]));
    }
}

#[test]
fn peripheral_errors_come_before_interrupt_errors() {
    let mut dev = timer_chip();
    dev.interrupts.push(interrupt("NEG", -1));
    dev.peripherals[0].derived_from = Some("MISSING".to_string());
    let err = compile_device(&dev, Target::Generic, false).unwrap_err();
    assert_eq!(err.kind, ErrorKind::UnknownDerivedFrom);
    assert_eq!(err.path, path(&["Chip", "TIMER", "MISSING"]));
}

#[test]
fn handler_symbols_are_identifiers() {
    let dev = Device {
        name: "D".to_string(),
        cpu: None,
        peripherals: vec![],
        interrupts: vec![interrupt("uart-rx", 1), interrupt("UART_RX", 0)],
    };
    let out = compile_device(&dev, Target::CortexM, false).unwrap();
    assert_eq!(
        out.vector_table,
        Some(vec![
            VectorEntry::Handler("UART_RX_2".to_string()),
            VectorEntry::Handler("UART_RX".to_string()),
        ])
    );
    assert_eq!(out.link_stub, Some(LinkStub { symbols: path(&["UART_RX_2", "UART_RX"]) }));
}

#[test]
fn target_names_are_parsed() {
    assert_eq!(Target::parse("cortex-m"), Some(Target::CortexM));
    assert_eq!(Target::parse("msp430"), Some(Target::Msp430));
    assert_eq!(Target::parse("riscv"), Some(Target::RiscV));
    assert_eq!(Target::parse("none"), Some(Target::Generic));
    assert_eq!(Target::parse("Cortex-M"), None);
    assert_eq!(Target::parse(""), None);
}

#[test]
fn error_constructors_build_the_path() {
    let a = "a".to_string();
    let b = "b".to_string();
    let e = CompileError::at(ErrorKind::MalformedDescription, &a);
    assert_eq!(e.path, path(&["a"]));
    let e = CompileError::between(ErrorKind::FieldOverlap, &a, &b).within(&"r".to_string());
    assert_eq!(e.path, path(&["r", "a", "b"]));
    assert_eq!(e.kind_name(), "FieldOverlap");
}
