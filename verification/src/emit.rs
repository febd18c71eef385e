//! Lays the compiled device out as a flat list of declarations, each under
//! the chain of identifiers that leads to it.

use crate::field::{CompiledField, CompiledFieldView, Enumeration, EnumerationView, Fallback, FallbackView};
use crate::ident::{assign_all, assigned, lemma_assigned_distinct, Convention};
use crate::model::{copy_strings, lemma_views_push, views, Access};
use crate::peripheral::{CompiledPeripheral, CompiledPeripheralView};
use crate::register::{CompiledRegister, CompiledRegisterView};
use crate::text::{lemma_texts_push, texts};
use vstd::prelude::*;

verus! {

/// What a declaration declares.
#[derive(Clone, Copy, Debug, PartialEq, Eq, Structural)]
pub enum Item {
    /// What the whole set of declarations is written for: with or without
    /// the features of the language that are not stable yet.
    Preamble { nightly: bool },
    /// A constant: the number of bits of an interrupt's priority.
    PriorityBits { bits: u32 },
    /// A constant: the base address of a peripheral.
    PeripheralBase { address: u64 },
    /// A type: a register at an offset from the peripheral's base.
    RegisterType { offset: u64, width: u32, reset: u64 },
    /// A method that reads the register.
    Read,
    /// A method that writes the register.
    Write,
    /// A method that reads the register, updates fields, and writes it
    /// back, as one step.
    Modify,
    /// A method that takes the field's bits out of a value read.
    FieldRead { offset: u32, mask: u64 },
    /// A method that puts the field's bits into a value to write.
    FieldWrite { offset: u32, mask: u64 },
    /// A variant that names one raw value of a field.
    Variant { value: u64 },
    /// The variant that the description names for all other raw values.
    DefaultVariant,
    /// The variant that carries a raw value that no other variant names.
    RawVariant,
    /// A constant: the vector number of an interrupt.
    Interrupt { vector: i32 },
}

/// A declaration, and the identifiers from the outermost scope down to
/// its own.
#[derive(Clone, Debug, PartialEq, Eq)]
pub struct Declaration {
    pub path: Vec<String>,
    pub item: Item,
}

/// The mathematical value of a `Declaration`.
pub struct DeclarationView {
    pub path: Seq<Seq<char>>,
    pub item: Item,
}

impl View for Declaration {
    type V = DeclarationView;

    open spec fn view(&self) -> DeclarationView {
        DeclarationView { path: texts(self.path@), item: self.item }
    }
}

/// The lists `f(0)`, `f(1)`, up to `f(n - 1)`, joined.
pub open spec fn join<B>(n: nat, f: spec_fn(int) -> Seq<B>) -> Seq<B>
    decreases n,
{
    if n == 0 {
        Seq::empty()
    } else {
        join((n - 1) as nat, f) + f(n - 1)
    }
}

/// The names that share the scope of a field's variants: those of the
/// variants, then that of the catch-all, which is called `Unspecified`
/// where the description names none.
pub open spec fn variant_scope(e: EnumerationView) -> Seq<Seq<char>> {
    let names = Seq::new(e.variants.len(), |k: int| e.variants[k].name);
    match e.fallback {
        FallbackView::Unneeded => names,
        FallbackView::Declared(name) => names.push(name),
        FallbackView::Synthesized => names.push("Unspecified"@),
    }
}

/// What the name at position `k` of a field's scope of variants declares.
pub open spec fn variant_item(e: EnumerationView, k: int) -> Item {
    if k < e.variants.len() {
        Item::Variant { value: e.variants[k].value }
    } else if e.fallback is Declared {
        Item::DefaultVariant
    } else {
        Item::RawVariant
    }
}

/// The declarations of the variants of a field.
pub open spec fn variant_declarations(here: Seq<Seq<char>>, e: EnumerationView) -> Seq<
    DeclarationView,
> {
    let names = variant_scope(e);
    let ids = assigned(Convention::Pascal, names);
    Seq::new(
        names.len(),
        |k: int| DeclarationView { path: here.push(ids[k]), item: variant_item(e, k) },
    )
}

/// The declarations of a field whose identifier is `ident`, within the
/// register at `path`.
pub open spec fn field_declarations(path: Seq<Seq<char>>, ident: Seq<char>, f: CompiledFieldView)
    -> Seq<DeclarationView> {
    let here = path.push(ident);
    let read = if f.access != Access::WriteOnly {
        seq![DeclarationView { path: here, item: Item::FieldRead { offset: f.offset, mask: f.mask } }]
    } else {
        Seq::empty()
    };
    let write = if f.access != Access::ReadOnly {
        seq![
            DeclarationView { path: here, item: Item::FieldWrite { offset: f.offset, mask: f.mask } },
        ]
    } else {
        Seq::empty()
    };
    let variants = match f.enumeration {
        Some(e) => variant_declarations(here, e),
        None => Seq::empty(),
    };
    read + write + variants
}

/// The names of fields, in order.
pub open spec fn field_names(fields: Seq<CompiledFieldView>) -> Seq<Seq<char>> {
    Seq::new(fields.len(), |k: int| fields[k].name)
}

/// The declarations of the field at a position of a register.
pub open spec fn field_emitter(here: Seq<Seq<char>>, r: CompiledRegisterView) -> spec_fn(int) -> Seq<
    DeclarationView,
> {
    |k: int|
        field_declarations(
            here,
            assigned(Convention::Snake, field_names(r.fields))[k],
            r.fields[k],
        )
}

/// The declarations of a register whose identifier is `ident`, within the
/// peripheral at `path`: its type, the methods that its access mode
/// allows, and the declarations of its fields.
pub open spec fn register_declarations(
    path: Seq<Seq<char>>,
    ident: Seq<char>,
    r: CompiledRegisterView,
) -> Seq<DeclarationView> {
    let here = path.push(ident);
    let head = seq![
        DeclarationView {
            path: here,
            item: Item::RegisterType { offset: r.offset, width: r.width, reset: r.reset },
        },
    ];
    let read = if r.readable() {
        seq![DeclarationView { path: here, item: Item::Read }]
    } else {
        Seq::empty()
    };
    let write = if r.writable() {
        seq![DeclarationView { path: here, item: Item::Write }]
    } else {
        Seq::empty()
    };
    let modify = if r.modifiable() {
        seq![DeclarationView { path: here, item: Item::Modify }]
    } else {
        Seq::empty()
    };
    head + read + write + modify + join(r.fields.len(), field_emitter(here, r))
}

/// The names of registers, in order.
pub open spec fn register_names(registers: Seq<CompiledRegisterView>) -> Seq<Seq<char>> {
    Seq::new(registers.len(), |k: int| registers[k].name)
}

/// The declarations of the register at a position of a peripheral.
pub open spec fn register_emitter(here: Seq<Seq<char>>, p: CompiledPeripheralView) -> spec_fn(
    int,
) -> Seq<DeclarationView> {
    |k: int|
        register_declarations(
            here,
            assigned(Convention::Snake, register_names(p.registers))[k],
            p.registers[k],
        )
}

/// The declarations of a peripheral whose identifier is `ident`: its base
/// address, and the declarations of its registers.
pub open spec fn peripheral_declarations(ident: Seq<char>, p: CompiledPeripheralView) -> Seq<
    DeclarationView,
> {
    let here = seq![ident];
    seq![DeclarationView { path: here, item: Item::PeripheralBase { address: p.base } }] + join(
        p.registers.len(),
        register_emitter(here, p),
    )
}

/// The names of peripherals, in order.
pub open spec fn peripheral_names(ps: Seq<CompiledPeripheralView>) -> Seq<Seq<char>> {
    Seq::new(ps.len(), |k: int| ps[k].name)
}

/// The declarations of the peripheral at a position of a device.
pub open spec fn peripheral_emitter(ps: Seq<CompiledPeripheralView>) -> spec_fn(int) -> Seq<
    DeclarationView,
> {
    |k: int| peripheral_declarations(assigned(Convention::Constant, peripheral_names(ps))[k], ps[k])
}

/// The declarations of all peripherals of a device, in declared order.
pub open spec fn device_declarations(ps: Seq<CompiledPeripheralView>) -> Seq<DeclarationView> {
    join(ps.len(), peripheral_emitter(ps))
}

fn declaration(path: &Vec<String>, item: Item) -> (d: Declaration)
    ensures
        d@ == (DeclarationView { path: texts(path@), item }),
{
    Declaration { path: copy_strings(path), item }
}

fn extended(path: &Vec<String>, ident: &String) -> (here: Vec<String>)
    ensures
        texts(here@) == texts(path@).push(ident@),
{
    let mut here = copy_strings(path);
    proof {
        lemma_texts_push(here@, *ident);
    }
    here.push(ident.clone());
    here
}

fn put(out: &mut Vec<Declaration>, d: Declaration)
    ensures
        views(final(out)@) == views(old(out)@).push(d@),
{
    proof {
        lemma_views_push(out@, d);
    }
    out.push(d);
}

fn emit_variants(out: &mut Vec<Declaration>, here: &Vec<String>, e: &Enumeration)
    ensures
        views(final(out)@) == views(old(out)@) + variant_declarations(texts(here@), e@),
{
    let ghost start = views(out@);
    let ghost scope = variant_scope(e@);
    let mut names: Vec<String> = Vec::new();
    let mut k: usize = 0;
    assert(texts(names@) =~= scope.take(0));
    while k < e.variants.len()
        invariant
            k <= e.variants.len(),
            scope == variant_scope(e@),
            texts(names@) == scope.take(k as int),
        decreases e.variants.len() - k,
    {
        proof {
            lemma_texts_push(names@, e.variants@[k as int].name);
            assert(views(e.variants@)[k as int] == e.variants@[k as int]@);
        }
        names.push(e.variants[k].name.clone());
        k = k + 1;
        assert(texts(names@) =~= scope.take(k as int));
    }
    match &e.fallback {
        Fallback::Unneeded => {},
        Fallback::Declared(name) => {
            proof {
                lemma_texts_push(names@, *name);
            }
            names.push(name.clone());
        },
        Fallback::Synthesized => {
            let name = "Unspecified".to_owned();
            proof {
                lemma_texts_push(names@, name);
            }
            names.push(name);
        },
    }
    assert(texts(names@) =~= scope);
    let ids = assign_all(Convention::Pascal, &names);
    proof {
        lemma_assigned_distinct(Convention::Pascal, scope);
    }
    let ghost want = variant_declarations(texts(here@), e@);
    let mut j: usize = 0;
    assert(views(out@) =~= start + want.take(0));
    while j < ids.len()
        invariant
            j <= ids.len(),
            ids.len() == scope.len(),
            scope == variant_scope(e@),
            texts(ids@) == assigned(Convention::Pascal, scope),
            want == variant_declarations(texts(here@), e@),
            views(out@) == start + want.take(j as int),
        decreases ids.len() - j,
    {
        let item = if j < e.variants.len() {
            assert(views(e.variants@)[j as int] == e.variants@[j as int]@);
            Item::Variant { value: e.variants[j].value }
        } else {
            match &e.fallback {
                Fallback::Declared(_) => Item::DefaultVariant,
                _ => Item::RawVariant,
            }
        };
        let path = extended(here, &ids[j]);
        assert(texts(ids@)[j as int] == ids@[j as int]@);
        put(out, Declaration { path, item });
        j = j + 1;
        assert(views(out@) =~= start + want.take(j as int));
    }
    assert(want.take(ids.len() as int) =~= want);
}

fn emit_field(out: &mut Vec<Declaration>, path: &Vec<String>, ident: &String, f: &CompiledField)
    ensures
        views(final(out)@) == views(old(out)@) + field_declarations(texts(path@), ident@, f@),
{
    let ghost start = views(out@);
    let here = extended(path, ident);
    let item_read = Item::FieldRead { offset: f.offset, mask: f.mask };
    let item_write = Item::FieldWrite { offset: f.offset, mask: f.mask };
    match f.access {
        Access::WriteOnly => {},
        _ => {
            put(out, declaration(&here, item_read));
        },
    }
    match f.access {
        Access::ReadOnly => {},
        _ => {
            put(out, declaration(&here, item_write));
        },
    }
    match &f.enumeration {
        Some(e) => {
            emit_variants(out, &here, e);
        },
        None => {},
    }
    assert(views(out@) =~= start + field_declarations(texts(path@), ident@, f@));
}

fn names_of_fields(fields: &Vec<CompiledField>) -> (names: Vec<String>)
    ensures
        texts(names@) == field_names(views(fields@)),
{
    let ghost want = field_names(views(fields@));
    let mut names: Vec<String> = Vec::new();
    let mut k: usize = 0;
    assert(texts(names@) =~= want.take(0));
    while k < fields.len()
        invariant
            k <= fields.len(),
            want == field_names(views(fields@)),
            texts(names@) == want.take(k as int),
        decreases fields.len() - k,
    {
        proof {
            lemma_texts_push(names@, fields@[k as int].name);
            assert(views(fields@)[k as int] == fields@[k as int]@);
        }
        names.push(fields[k].name.clone());
        k = k + 1;
        assert(texts(names@) =~= want.take(k as int));
    }
    assert(want.take(fields.len() as int) =~= want);
    names
}

fn names_of_registers(registers: &Vec<CompiledRegister>) -> (names: Vec<String>)
    ensures
        texts(names@) == register_names(views(registers@)),
{
    let ghost want = register_names(views(registers@));
    let mut names: Vec<String> = Vec::new();
    let mut k: usize = 0;
    assert(texts(names@) =~= want.take(0));
    while k < registers.len()
        invariant
            k <= registers.len(),
            want == register_names(views(registers@)),
            texts(names@) == want.take(k as int),
        decreases registers.len() - k,
    {
        proof {
            lemma_texts_push(names@, registers@[k as int].name);
            assert(views(registers@)[k as int] == registers@[k as int]@);
        }
        names.push(registers[k].name.clone());
        k = k + 1;
        assert(texts(names@) =~= want.take(k as int));
    }
    assert(want.take(registers.len() as int) =~= want);
    names
}

fn names_of_peripherals(ps: &Vec<CompiledPeripheral>) -> (names: Vec<String>)
    ensures
        texts(names@) == peripheral_names(views(ps@)),
{
    let ghost want = peripheral_names(views(ps@));
    let mut names: Vec<String> = Vec::new();
    let mut k: usize = 0;
    assert(texts(names@) =~= want.take(0));
    while k < ps.len()
        invariant
            k <= ps.len(),
            want == peripheral_names(views(ps@)),
            texts(names@) == want.take(k as int),
        decreases ps.len() - k,
    {
        proof {
            lemma_texts_push(names@, ps@[k as int].name);
            assert(views(ps@)[k as int] == ps@[k as int]@);
        }
        names.push(ps[k].name.clone());
        k = k + 1;
        assert(texts(names@) =~= want.take(k as int));
    }
    assert(want.take(ps.len() as int) =~= want);
    names
}

fn emit_register(
    out: &mut Vec<Declaration>,
    path: &Vec<String>,
    ident: &String,
    r: &CompiledRegister,
)
    ensures
        views(final(out)@) == views(old(out)@) + register_declarations(texts(path@), ident@, r@),
{
    let ghost start = views(out@);
    let here = extended(path, ident);
    put(
        out,
        declaration(&here, Item::RegisterType { offset: r.offset, width: r.width, reset: r.reset }),
    );
    if r.readable() {
        put(out, declaration(&here, Item::Read));
    }
    if r.writable() {
        put(out, declaration(&here, Item::Write));
    }
    if r.modifiable() {
        put(out, declaration(&here, Item::Modify));
    }
    let ghost head = views(out@);
    let names = names_of_fields(&r.fields);
    let ids = assign_all(Convention::Snake, &names);
    let ghost f = field_emitter(texts(here@), r@);
    proof {
        lemma_assigned_distinct(Convention::Snake, field_names(r@.fields));
        assert(head + join(0, f) =~= head);
    }
    let mut k: usize = 0;
    while k < r.fields.len()
        invariant
            k <= r.fields.len(),
            ids.len() == r.fields.len(),
            texts(ids@) == assigned(Convention::Snake, field_names(r@.fields)),
            f == field_emitter(texts(here@), r@),
            views(out@) == head + join(k as nat, f),
        decreases r.fields.len() - k,
    {
        proof {
            assert(texts(ids@)[k as int] == ids@[k as int]@);
            assert(r@.fields[k as int] == r.fields@[k as int]@);
            assert(f(k as int) == field_declarations(
                texts(here@),
                ids@[k as int]@,
                r.fields@[k as int]@,
            ));
        }
        emit_field(out, &here, &ids[k], &r.fields[k]);
        k = k + 1;
        assert(views(out@) =~= head + join(k as nat, f));
    }
    assert(views(out@) =~= start + register_declarations(texts(path@), ident@, r@));
}

fn emit_peripheral(out: &mut Vec<Declaration>, ident: &String, p: &CompiledPeripheral)
    ensures
        views(final(out)@) == views(old(out)@) + peripheral_declarations(ident@, p@),
{
    let ghost start = views(out@);
    let mut here: Vec<String> = Vec::new();
    proof {
        lemma_texts_push(here@, *ident);
    }
    here.push(ident.clone());
    assert(texts(here@) =~= seq![ident@]);
    put(out, declaration(&here, Item::PeripheralBase { address: p.base }));
    let ghost head = views(out@);
    let names = names_of_registers(&p.registers);
    let ids = assign_all(Convention::Snake, &names);
    let ghost f = register_emitter(texts(here@), p@);
    proof {
        lemma_assigned_distinct(Convention::Snake, register_names(p@.registers));
        assert(head + join(0, f) =~= head);
    }
    let mut k: usize = 0;
    while k < p.registers.len()
        invariant
            k <= p.registers.len(),
            ids.len() == p.registers.len(),
            texts(ids@) == assigned(Convention::Snake, register_names(p@.registers)),
            f == register_emitter(texts(here@), p@),
            views(out@) == head + join(k as nat, f),
        decreases p.registers.len() - k,
    {
        proof {
            assert(texts(ids@)[k as int] == ids@[k as int]@);
            assert(p@.registers[k as int] == p.registers@[k as int]@);
            assert(f(k as int) == register_declarations(
                texts(here@),
                ids@[k as int]@,
                p.registers@[k as int]@,
            ));
        }
        emit_register(out, &here, &ids[k], &p.registers[k]);
        k = k + 1;
        assert(views(out@) =~= head + join(k as nat, f));
    }
    assert(views(out@) =~= start + peripheral_declarations(ident@, p@));
}

/// Appends the declarations of all peripherals, in declared order.
pub fn emit_peripherals(out: &mut Vec<Declaration>, ps: &Vec<CompiledPeripheral>)
    ensures
        views(final(out)@) == views(old(out)@) + device_declarations(views(ps@)),
{
    let ghost start = views(out@);
    let names = names_of_peripherals(ps);
    let ids = assign_all(Convention::Constant, &names);
    let ghost f = peripheral_emitter(views(ps@));
    proof {
        lemma_assigned_distinct(Convention::Constant, peripheral_names(views(ps@)));
        assert(start + join(0, f) =~= start);
    }
    let mut k: usize = 0;
    while k < ps.len()
        invariant
            k <= ps.len(),
            ids.len() == ps.len(),
            texts(ids@) == assigned(Convention::Constant, peripheral_names(views(ps@))),
            f == peripheral_emitter(views(ps@)),
            views(out@) == start + join(k as nat, f),
        decreases ps.len() - k,
    {
        proof {
            assert(texts(ids@)[k as int] == ids@[k as int]@);
            assert(views(ps@)[k as int] == ps@[k as int]@);
            assert(f(k as int) == peripheral_declarations(ids@[k as int]@, ps@[k as int]@));
        }
        emit_peripheral(out, &ids[k], &ps[k]);
        k = k + 1;
        assert(views(out@) =~= start + join(k as nat, f));
    }
}

} // verus!
