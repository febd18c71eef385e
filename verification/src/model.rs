//! The device description that the compiler reads, and its mathematical
//! model.

use crate::text::{lemma_texts_push, texts};
use vstd::prelude::*;

verus! {

/// The views of the items of a sequence.
pub open spec fn views<T: View>(items: Seq<T>) -> Seq<T::V> {
    Seq::new(items.len(), |i: int| items[i]@)
}

/// Appending an item appends its view to the list of views.
pub proof fn lemma_views_push<T: View>(items: Seq<T>, item: T)
    ensures
        views(items.push(item)) == views(items).push(item@),
{
    assert(views(items.push(item)) =~= views(items).push(item@));
}

/// Joining two lists joins their views.
pub proof fn lemma_views_add<T: View>(a: Seq<T>, b: Seq<T>)
    ensures
        views(a + b) == views(a) + views(b),
{
    assert(views(a + b) =~= views(a) + views(b));
}

/// How software may access a register or a field.
#[derive(Clone, Copy, Debug, PartialEq, Eq, Structural)]
pub enum Access {
    ReadOnly,
    WriteOnly,
    ReadWrite,
}

/// A name for one raw value of a field, or the marker of the field's
/// catch-all value.
#[derive(Clone, Debug, PartialEq, Eq)]
pub struct EnumeratedValue {
    pub name: String,
    /// The raw value; without meaning where `is_default` is set.
    pub value: u64,
    /// Marks the name that stands for every raw value not named otherwise.
    pub is_default: bool,
}

/// The mathematical value of an `EnumeratedValue`.
pub struct EnumeratedValueView {
    pub name: Seq<char>,
    pub value: u64,
    pub is_default: bool,
}

impl View for EnumeratedValue {
    type V = EnumeratedValueView;

    open spec fn view(&self) -> EnumeratedValueView {
        EnumeratedValueView { name: self.name@, value: self.value, is_default: self.is_default }
    }
}

/// A range of bits of a register.
#[derive(Clone, Debug, PartialEq, Eq)]
pub struct Field {
    pub name: String,
    /// The position of the lowest bit.
    pub offset: u32,
    /// The number of bits.
    pub width: u32,
    /// The field's own access mode, where it differs from the register's.
    pub access: Option<Access>,
    pub values: Vec<EnumeratedValue>,
}

/// The mathematical value of a `Field`.
pub struct FieldView {
    pub name: Seq<char>,
    pub offset: u32,
    pub width: u32,
    pub access: Option<Access>,
    pub values: Seq<EnumeratedValueView>,
}

impl View for Field {
    type V = FieldView;

    open spec fn view(&self) -> FieldView {
        FieldView {
            name: self.name@,
            offset: self.offset,
            width: self.width,
            access: self.access,
            values: views(self.values@),
        }
    }
}

/// A repetition of a register or a cluster.
#[derive(Clone, Debug, PartialEq, Eq)]
pub struct Dimension {
    /// The number of instances.
    pub count: u32,
    /// The distance between the addresses of two neighbours.
    pub stride: u32,
    /// The instances' labels; where absent they are numbered from 0.
    pub labels: Option<Vec<String>>,
}

/// The mathematical value of a `Dimension`.
pub struct DimensionView {
    pub count: u32,
    pub stride: u32,
    pub labels: Option<Seq<Seq<char>>>,
}

impl View for Dimension {
    type V = DimensionView;

    open spec fn view(&self) -> DimensionView {
        DimensionView {
            count: self.count,
            stride: self.stride,
            labels: match self.labels {
                Some(l) => Some(texts(l@)),
                None => None,
            },
        }
    }
}

/// A memory-mapped register, or a repeated group of them.
#[derive(Clone, Debug, PartialEq, Eq)]
pub struct Register {
    pub name: String,
    /// The address relative to the enclosing cluster or peripheral.
    pub offset: u64,
    /// The width in bits.
    pub width: u32,
    pub access: Option<Access>,
    pub reset: u64,
    pub fields: Vec<Field>,
    pub dim: Option<Dimension>,
    /// Set where the register may share its address with another one.
    pub alias: bool,
}

/// The mathematical value of a `Register`.
pub struct RegisterView {
    pub name: Seq<char>,
    pub offset: u64,
    pub width: u32,
    pub access: Option<Access>,
    pub reset: u64,
    pub fields: Seq<FieldView>,
    pub dim: Option<DimensionView>,
    pub alias: bool,
}

impl View for Register {
    type V = RegisterView;

    open spec fn view(&self) -> RegisterView {
        RegisterView {
            name: self.name@,
            offset: self.offset,
            width: self.width,
            access: self.access,
            reset: self.reset,
            fields: views(self.fields@),
            dim: match self.dim {
                Some(d) => Some(d@),
                None => None,
            },
            alias: self.alias,
        }
    }
}

/// A named group of registers with an address of its own.
#[derive(Clone, Debug, PartialEq, Eq)]
pub struct Cluster {
    pub name: String,
    /// The address relative to the peripheral.
    pub offset: u64,
    pub dim: Option<Dimension>,
    pub registers: Vec<Register>,
}

/// The mathematical value of a `Cluster`.
pub struct ClusterView {
    pub name: Seq<char>,
    pub offset: u64,
    pub dim: Option<DimensionView>,
    pub registers: Seq<RegisterView>,
}

impl View for Cluster {
    type V = ClusterView;

    open spec fn view(&self) -> ClusterView {
        ClusterView {
            name: self.name@,
            offset: self.offset,
            dim: match self.dim {
                Some(d) => Some(d@),
                None => None,
            },
            registers: views(self.registers@),
        }
    }
}

/// What a peripheral holds: registers and clusters.
#[derive(Clone, Debug, PartialEq, Eq)]
pub enum Entry {
    Register(Register),
    Cluster(Cluster),
}

/// The mathematical value of an `Entry`.
pub enum EntryView {
    Register(RegisterView),
    Cluster(ClusterView),
}

impl EntryView {
    /// The name that the entry is declared under.
    pub open spec fn name(self) -> Seq<char> {
        match self {
            EntryView::Register(r) => r.name,
            EntryView::Cluster(c) => c.name,
        }
    }
}

impl View for Entry {
    type V = EntryView;

    open spec fn view(&self) -> EntryView {
        match self {
            Entry::Register(r) => EntryView::Register(r@),
            Entry::Cluster(c) => EntryView::Cluster(c@),
        }
    }
}

/// A hardware block at a base address.
#[derive(Clone, Debug, PartialEq, Eq)]
pub struct Peripheral {
    pub name: String,
    pub base: u64,
    /// The name of the peripheral whose entries this one inherits.
    pub derived_from: Option<String>,
    /// The access mode of the registers that state none.
    pub access: Option<Access>,
    pub entries: Vec<Entry>,
}

/// The mathematical value of a `Peripheral`.
pub struct PeripheralView {
    pub name: Seq<char>,
    pub base: u64,
    pub derived_from: Option<Seq<char>>,
    pub access: Option<Access>,
    pub entries: Seq<EntryView>,
}

impl View for Peripheral {
    type V = PeripheralView;

    open spec fn view(&self) -> PeripheralView {
        PeripheralView {
            name: self.name@,
            base: self.base,
            derived_from: match self.derived_from {
                Some(n) => Some(n@),
                None => None,
            },
            access: self.access,
            entries: views(self.entries@),
        }
    }
}

/// An interrupt line of the device.
#[derive(Clone, Debug, PartialEq, Eq)]
pub struct Interrupt {
    pub name: String,
    /// The position in the vector table.
    pub vector: i32,
}

/// The mathematical value of an `Interrupt`.
pub struct InterruptView {
    pub name: Seq<char>,
    pub vector: i32,
}

impl View for Interrupt {
    type V = InterruptView;

    open spec fn view(&self) -> InterruptView {
        InterruptView { name: self.name@, vector: self.vector }
    }
}

/// The processor of a device.
#[derive(Clone, Debug, PartialEq, Eq)]
pub struct Cpu {
    pub name: String,
    /// The number of bits of an interrupt's priority.
    pub priority_bits: u32,
}

/// The mathematical value of a `Cpu`.
pub struct CpuView {
    pub name: Seq<char>,
    pub priority_bits: u32,
}

impl View for Cpu {
    type V = CpuView;

    open spec fn view(&self) -> CpuView {
        CpuView { name: self.name@, priority_bits: self.priority_bits }
    }
}

/// A whole device.
#[derive(Clone, Debug, PartialEq, Eq)]
pub struct Device {
    pub name: String,
    pub cpu: Option<Cpu>,
    pub peripherals: Vec<Peripheral>,
    pub interrupts: Vec<Interrupt>,
}

/// The mathematical value of a `Device`.
pub struct DeviceView {
    pub name: Seq<char>,
    pub cpu: Option<CpuView>,
    pub peripherals: Seq<PeripheralView>,
    pub interrupts: Seq<InterruptView>,
}

impl View for Device {
    type V = DeviceView;

    open spec fn view(&self) -> DeviceView {
        DeviceView {
            name: self.name@,
            cpu: match self.cpu {
                Some(c) => Some(c@),
                None => None,
            },
            peripherals: views(self.peripherals@),
            interrupts: views(self.interrupts@),
        }
    }
}

/// A copy of a list of strings.
pub fn copy_strings(items: &Vec<String>) -> (out: Vec<String>)
    ensures
        texts(out@) == texts(items@),
{
    let mut out: Vec<String> = Vec::new();
    let mut i: usize = 0;
    while i < items.len()
        invariant
            i <= items.len(),
            texts(out@) == texts(items@).take(i as int),
        decreases items.len() - i,
    {
        proof {
            lemma_texts_push(out@, items@[i as int]);
        }
        out.push(items[i].clone());
        i = i + 1;
        assert(texts(out@) =~= texts(items@).take(i as int));
    }
    assert(texts(items@).take(items.len() as int) =~= texts(items@));
    out
}

impl EnumeratedValue {
    /// A copy of the value.
    pub fn duplicate(&self) -> (out: EnumeratedValue)
        ensures
            out@ == self@,
    {
        EnumeratedValue { name: self.name.clone(), value: self.value, is_default: self.is_default }
    }
}

impl Field {
    /// A copy of the field.
    pub fn duplicate(&self) -> (out: Field)
        ensures
            out@ == self@,
    {
        let mut values: Vec<EnumeratedValue> = Vec::new();
        let mut i: usize = 0;
        while i < self.values.len()
            invariant
                i <= self.values.len(),
                views(values@) == views(self.values@).take(i as int),
            decreases self.values.len() - i,
        {
            let value = self.values[i].duplicate();
            proof {
                lemma_views_push(values@, value);
            }
            values.push(value);
            i = i + 1;
            assert(views(values@) =~= views(self.values@).take(i as int));
        }
        assert(views(self.values@).take(self.values.len() as int) =~= views(self.values@));
        Field {
            name: self.name.clone(),
            offset: self.offset,
            width: self.width,
            access: self.access,
            values,
        }
    }
}

impl Dimension {
    /// A copy of the dimension.
    pub fn duplicate(&self) -> (out: Dimension)
        ensures
            out@ == self@,
    {
        let labels = match &self.labels {
            Some(l) => Some(copy_strings(l)),
            None => None,
        };
        Dimension { count: self.count, stride: self.stride, labels }
    }
}

/// A copy of a list of fields.
pub fn copy_fields(fields: &Vec<Field>) -> (out: Vec<Field>)
    ensures
        views(out@) == views(fields@),
{
    let mut out: Vec<Field> = Vec::new();
    let mut i: usize = 0;
    while i < fields.len()
        invariant
            i <= fields.len(),
            views(out@) == views(fields@).take(i as int),
        decreases fields.len() - i,
    {
        let field = fields[i].duplicate();
        proof {
            lemma_views_push(out@, field);
        }
        out.push(field);
        i = i + 1;
        assert(views(out@) =~= views(fields@).take(i as int));
    }
    assert(views(fields@).take(fields.len() as int) =~= views(fields@));
    out
}

impl Register {
    /// A copy of the register.
    pub fn duplicate(&self) -> (out: Register)
        ensures
            out@ == self@,
    {
        let dim = match &self.dim {
            Some(d) => Some(d.duplicate()),
            None => None,
        };
        Register {
            name: self.name.clone(),
            offset: self.offset,
            width: self.width,
            access: self.access,
            reset: self.reset,
            fields: copy_fields(&self.fields),
            dim,
            alias: self.alias,
        }
    }
}

impl Cluster {
    /// A copy of the cluster.
    pub fn duplicate(&self) -> (out: Cluster)
        ensures
            out@ == self@,
    {
        let dim = match &self.dim {
            Some(d) => Some(d.duplicate()),
            None => None,
        };
        let mut registers: Vec<Register> = Vec::new();
        let mut i: usize = 0;
        while i < self.registers.len()
            invariant
                i <= self.registers.len(),
                views(registers@) == views(self.registers@).take(i as int),
            decreases self.registers.len() - i,
        {
            let register = self.registers[i].duplicate();
            proof {
                lemma_views_push(registers@, register);
            }
            registers.push(register);
            i = i + 1;
            assert(views(registers@) =~= views(self.registers@).take(i as int));
        }
        assert(views(self.registers@).take(self.registers.len() as int) =~= views(
            self.registers@,
        ));
        Cluster { name: self.name.clone(), offset: self.offset, dim, registers }
    }
}

impl Entry {
    /// A copy of the entry.
    pub fn duplicate(&self) -> (out: Entry)
        ensures
            out@ == self@,
    {
        match self {
            Entry::Register(r) => Entry::Register(r.duplicate()),
            Entry::Cluster(c) => Entry::Cluster(c.duplicate()),
        }
    }

    /// The name that the entry is declared under.
    pub fn name(&self) -> (name: &String)
        ensures
            name@ == self@.name(),
    {
        match self {
            Entry::Register(r) => &r.name,
            Entry::Cluster(c) => &c.name,
        }
    }
}

} // verus!
