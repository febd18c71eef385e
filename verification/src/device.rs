//! Compiles a whole device: resolves and compiles its peripherals, checks
//! their addresses, assigns identifiers, and builds the vector table.

use crate::address::{address_fault, check_peripherals};
use crate::emit::{
    device_declarations, emit_peripherals, Declaration, DeclarationView, Item,
};
use crate::error::{CompileError, CompileErrorView};
use crate::expand::indices;
use crate::fallible::{lemma_try_map_err, lemma_try_map_first_err, lemma_try_map_step, try_map};
use crate::ident::{
    assign_all, assigned, lemma_assigned_distinct, normalize, normalized, Convention,
};
use crate::interrupt::{
    build_vector_table, dense_table, first_interrupt_fault, lemma_fault_by_vectors,
    lemma_interrupt_fault_is_located,
    VectorEntry, VectorEntryView,
};
use crate::model::{
    lemma_views_push, views, Device, DeviceView, Interrupt, InterruptView, Peripheral,
    PeripheralView,
};
use crate::peripheral::{
    compile_peripheral, compiled_peripheral, CompiledPeripheral, CompiledPeripheralView,
};
use crate::resolve::{
    lemma_resolution_error_is_located, resolve_peripherals, resolved, resolved_from, resolver,
};
use crate::text::{chars_of, lemma_texts_push, same_chars, texts};
use vstd::prelude::*;

verus! {

/// The family of architectures that the declarations are compiled for.
#[derive(Clone, Copy, Debug, PartialEq, Eq, Structural)]
pub enum Target {
    CortexM,
    Msp430,
    RiscV,
    /// No particular architecture.
    Generic,
}

/// The target that a name selects.
pub open spec fn target_named(name: Seq<char>) -> Option<Target> {
    if name == "cortex-m"@ {
        Some(Target::CortexM)
    } else if name == "msp430"@ {
        Some(Target::Msp430)
    } else if name == "riscv"@ {
        Some(Target::RiscV)
    } else if name == "none"@ {
        Some(Target::Generic)
    } else {
        None
    }
}

impl Target {
    /// Reads the name of a target; `None` where it names no target.
    pub fn parse(name: &str) -> (target: Option<Target>)
        ensures
            target == target_named(name@),
    {
        let chars = chars_of(name);
        if same_chars(&chars, &chars_of("cortex-m")) {
            Some(Target::CortexM)
        } else if same_chars(&chars, &chars_of("msp430")) {
            Some(Target::Msp430)
        } else if same_chars(&chars, &chars_of("riscv")) {
            Some(Target::RiscV)
        } else if same_chars(&chars, &chars_of("none")) {
            Some(Target::Generic)
        } else {
            None
        }
    }

    /// Whether a vector table and a link stub are made for the target.
    pub open spec fn has_vector_table(self) -> bool {
        self == Target::CortexM
    }
}

/// What tells the build where the vector table goes: the handler symbols
/// that it must provide, in the order of their vector numbers.
#[derive(Clone, Debug, PartialEq, Eq)]
pub struct LinkStub {
    pub symbols: Vec<String>,
}

/// All that a compilation gives.
#[derive(Clone, Debug, PartialEq, Eq)]
pub struct Compilation {
    pub declarations: Vec<Declaration>,
    pub vector_table: Option<Vec<VectorEntry>>,
    pub link_stub: Option<LinkStub>,
}

/// The mathematical value of a `Compilation`.
pub struct CompilationView {
    pub declarations: Seq<DeclarationView>,
    pub vector_table: Option<Seq<VectorEntryView>>,
    pub link_stub: Option<Seq<Seq<char>>>,
}

impl View for Compilation {
    type V = CompilationView;

    open spec fn view(&self) -> CompilationView {
        CompilationView {
            declarations: views(self.declarations@),
            vector_table: match self.vector_table {
                Some(t) => Some(views(t@)),
                None => None,
            },
            link_stub: match self.link_stub {
                Some(s) => Some(texts(s.symbols@)),
                None => None,
            },
        }
    }
}

/// The compiler of peripherals, as a function.
pub open spec fn peripheral_compiler() -> spec_fn(PeripheralView) -> Result<
    CompiledPeripheralView,
    CompileErrorView,
> {
    |p: PeripheralView| compiled_peripheral(p)
}

/// The compiled peripherals of a device: derivations are resolved, each
/// peripheral is compiled in declared order, and then the address ranges
/// of the peripheral are checked against each other.
pub open spec fn compiled_peripherals(ps: Seq<PeripheralView>) -> Result<
    Seq<CompiledPeripheralView>,
    CompileErrorView,
> {
    match resolved(ps) {
        Err(e) => Err(e),
        Ok(flat) => match try_map(flat, peripheral_compiler()) {
            Err(e) => Err(e),
            Ok(cs) => match address_fault(cs) {
                Some(e) => Err(e),
                None => Ok(cs),
            },
        },
    }
}

/// The names of interrupts, in order.
pub open spec fn interrupt_names(interrupts: Seq<InterruptView>) -> Seq<Seq<char>> {
    Seq::new(interrupts.len(), |k: int| interrupts[k].name)
}

/// The interrupts under the identifiers that they are assigned.
pub open spec fn renamed(interrupts: Seq<InterruptView>) -> Seq<InterruptView> {
    let ids = assigned(Convention::Constant, interrupt_names(interrupts));
    Seq::new(
        interrupts.len(),
        |k: int| InterruptView { name: ids[k], vector: interrupts[k].vector },
    )
}

/// The declarations of the interrupts: a constant for each.
pub open spec fn interrupt_declarations(interrupts: Seq<InterruptView>) -> Seq<DeclarationView> {
    let named = renamed(interrupts);
    Seq::new(
        named.len(),
        |k: int|
            DeclarationView {
                path: seq![named[k].name],
                item: Item::Interrupt { vector: named[k].vector },
            },
    )
}

/// The names of the handlers of a vector table, in the table's order.
pub open spec fn handler_symbols(table: Seq<VectorEntryView>) -> Seq<Seq<char>>
    decreases table.len(),
{
    if table.len() == 0 {
        Seq::empty()
    } else {
        let before = handler_symbols(table.drop_last());
        match table.last() {
            VectorEntryView::Handler(name) => before.push(name),
            VectorEntryView::Reserved => before,
        }
    }
}

/// What is declared at the top of the set: what it is written for, and
/// the processor's priority bits where the description names a processor.
pub open spec fn head_declarations(dev: DeviceView, nightly: bool) -> Seq<DeclarationView> {
    let here = seq![normalized(Convention::Snake, dev.name)];
    let preamble = DeclarationView { path: here, item: Item::Preamble { nightly } };
    match dev.cpu {
        Some(cpu) => seq![
            preamble,
            DeclarationView { path: here, item: Item::PriorityBits { bits: cpu.priority_bits } },
        ],
        None => seq![preamble],
    }
}

/// What compiling a device gives. Any failure of a stage is the failure of
/// the whole, located within the device; nothing is given then.
pub open spec fn compilation(dev: DeviceView, target: Target, nightly: bool) -> Result<
    CompilationView,
    CompileErrorView,
> {
    match compiled_peripherals(dev.peripherals) {
        Err(e) => Err(e.within(dev.name)),
        Ok(cs) => match first_interrupt_fault(dev.interrupts) {
            Some(e) => Err(e.within(dev.name)),
            None => {
                let table = dense_table(renamed(dev.interrupts));
                Ok(
                    CompilationView {
                        declarations: head_declarations(dev, nightly) + device_declarations(cs)
                            + interrupt_declarations(dev.interrupts),
                        vector_table: if target.has_vector_table() {
                            Some(table)
                        } else {
                            None
                        },
                        link_stub: if target.has_vector_table() {
                            Some(handler_symbols(table))
                        } else {
                            None
                        },
                    },
                )
            },
        },
    }
}

/// The view of the outcome of compiling peripherals.
pub open spec fn compiled_peripherals_outcome(out: Result<Vec<CompiledPeripheral>, CompileError>)
    -> Result<Seq<CompiledPeripheralView>, CompileErrorView> {
    match out {
        Ok(cs) => Ok(views(cs@)),
        Err(e) => Err(e@),
    }
}

/// Resolves and compiles the peripherals of a device and checks their
/// addresses.
pub fn compile_peripherals(ps: &Vec<Peripheral>) -> (out: Result<
    Vec<CompiledPeripheral>,
    CompileError,
>)
    ensures
        compiled_peripherals_outcome(out) == compiled_peripherals(views(ps@)),
        out matches Ok(cs) ==> forall|i: int| 0 <= i < cs.len() ==> (#[trigger] cs@[i])@.wf(),
{
    let flat = match resolve_peripherals(ps) {
        Err(e) => {
            return Err(e);
        },
        Ok(flat) => flat,
    };
    let ghost fs = views(flat@);
    let ghost f = peripheral_compiler();
    let mut compiled: Vec<CompiledPeripheral> = Vec::new();
    let mut i: usize = 0;
    proof {
        assert(fs.take(0) =~= Seq::<PeripheralView>::empty());
        assert(views(compiled@) =~= Seq::<CompiledPeripheralView>::empty());
    }
    while i < flat.len()
        invariant
            i <= flat.len(),
            fs == views(flat@),
            resolved(views(ps@)) == Ok::<Seq<PeripheralView>, CompileErrorView>(fs),
            f == peripheral_compiler(),
            try_map(fs.take(i as int), f) == Ok::<Seq<CompiledPeripheralView>, CompileErrorView>(
                views(compiled@),
            ),
            forall|k: int| 0 <= k < compiled.len() ==> (#[trigger] compiled@[k])@.wf(),
        decreases flat.len() - i,
    {
        proof {
            lemma_try_map_step(fs, f, i as int);
            assert(fs[i as int] == flat@[i as int]@);
            assert(f(fs[i as int]) == compiled_peripheral(fs[i as int]));
        }
        match compile_peripheral(&flat[i]) {
            Err(e) => {
                proof {
                    lemma_try_map_err(fs, f, i + 1);
                }
                return Err(e);
            },
            Ok(c) => {
                proof {
                    lemma_views_push(compiled@, c);
                }
                compiled.push(c);
            },
        }
        i = i + 1;
    }
    assert(fs.take(flat.len() as int) =~= fs);
    match check_peripherals(&compiled) {
        Err(e) => Err(e),
        Ok(_) => Ok(compiled),
    }
}

fn top_path(name: &String) -> (path: Vec<String>)
    ensures
        texts(path@) == seq![name@],
{
    let mut path: Vec<String> = Vec::new();
    proof {
        lemma_texts_push(path@, *name);
    }
    path.push(name.clone());
    assert(texts(path@) =~= seq![name@]);
    path
}

fn rename_interrupts(interrupts: &Vec<Interrupt>) -> (named: Vec<Interrupt>)
    ensures
        views(named@) == renamed(views(interrupts@)),
{
    let ghost all = views(interrupts@);
    let ghost want = renamed(all);
    let mut names: Vec<String> = Vec::new();
    let mut k: usize = 0;
    assert(texts(names@) =~= interrupt_names(all).take(0));
    while k < interrupts.len()
        invariant
            k <= interrupts.len(),
            all == views(interrupts@),
            texts(names@) == interrupt_names(all).take(k as int),
        decreases interrupts.len() - k,
    {
        proof {
            lemma_texts_push(names@, interrupts@[k as int].name);
            assert(all[k as int] == interrupts@[k as int]@);
        }
        names.push(interrupts[k].name.clone());
        k = k + 1;
        assert(texts(names@) =~= interrupt_names(all).take(k as int));
    }
    assert(interrupt_names(all).take(interrupts.len() as int) =~= interrupt_names(all));
    let ids = assign_all(Convention::Constant, &names);
    proof {
        lemma_assigned_distinct(Convention::Constant, interrupt_names(all));
    }
    let mut named: Vec<Interrupt> = Vec::new();
    let mut j: usize = 0;
    assert(views(named@) =~= want.take(0));
    while j < interrupts.len()
        invariant
            j <= interrupts.len(),
            ids.len() == interrupts.len(),
            all == views(interrupts@),
            want == renamed(all),
            texts(ids@) == assigned(Convention::Constant, interrupt_names(all)),
            views(named@) == want.take(j as int),
        decreases interrupts.len() - j,
    {
        let x = Interrupt { name: ids[j].clone(), vector: interrupts[j].vector };
        proof {
            assert(texts(ids@)[j as int] == ids@[j as int]@);
            assert(all[j as int] == interrupts@[j as int]@);
            lemma_views_push(named@, x);
        }
        named.push(x);
        j = j + 1;
        assert(views(named@) =~= want.take(j as int));
    }
    assert(want.take(interrupts.len() as int) =~= want);
    named
}

fn symbols_of(table: &Vec<VectorEntry>) -> (symbols: Vec<String>)
    ensures
        texts(symbols@) == handler_symbols(views(table@)),
{
    let ghost t = views(table@);
    let mut symbols: Vec<String> = Vec::new();
    let mut i: usize = 0;
    proof {
        assert(t.take(0) =~= Seq::<VectorEntryView>::empty());
        assert(texts(symbols@) =~= Seq::<Seq<char>>::empty());
    }
    while i < table.len()
        invariant
            i <= table.len(),
            t == views(table@),
            texts(symbols@) == handler_symbols(t.take(i as int)),
        decreases table.len() - i,
    {
        proof {
            assert(t.take(i + 1).drop_last() =~= t.take(i as int));
            assert(t.take(i + 1).last() == table@[i as int]@);
        }
        match &table[i] {
            VectorEntry::Handler(name) => {
                proof {
                    lemma_texts_push(symbols@, *name);
                }
                symbols.push(name.clone());
            },
            VectorEntry::Reserved => {},
        }
        i = i + 1;
    }
    assert(t.take(table.len() as int) =~= t);
    symbols
}

/// The view of the outcome of compiling a device.
pub open spec fn compilation_outcome(out: Result<Compilation, CompileError>) -> Result<
    CompilationView,
    CompileErrorView,
> {
    match out {
        Ok(c) => Ok(c@),
        Err(e) => Err(e@),
    }
}

/// Compiles a device for a target. The result is complete or there is
/// none: the first failure of a stage ends the compilation.
pub fn compile_device(dev: &Device, target: Target, nightly: bool) -> (out: Result<
    Compilation,
    CompileError,
>)
    ensures
        compilation_outcome(out) == compilation(dev@, target, nightly),
{
    let compiled = match compile_peripherals(&dev.peripherals) {
        Err(e) => {
            return Err(e.within(&dev.name));
        },
        Ok(cs) => cs,
    };
    match build_vector_table(&dev.interrupts) {
        Err(e) => {
            return Err(e.within(&dev.name));
        },
        Ok(_) => {},
    }
    let named = rename_interrupts(&dev.interrupts);
    proof {
        let a = views(dev.interrupts@);
        let b = renamed(a);
        assert forall|i: int| 0 <= i < a.len() implies (#[trigger] a[i]).vector == b[i].vector by {}
        lemma_fault_by_vectors(a, b);
    }
    let table = match build_vector_table(&named) {
        Err(e) => {
            return Err(e);
        },
        Ok(t) => t,
    };
    let mut declarations: Vec<Declaration> = Vec::new();
    let crate_name = normalize(Convention::Snake, dev.name.as_str());
    let preamble = Declaration { path: top_path(&crate_name), item: Item::Preamble { nightly } };
    proof {
        lemma_views_push(declarations@, preamble);
    }
    declarations.push(preamble);
    match &dev.cpu {
        Some(cpu) => {
            let bits = Declaration {
                path: top_path(&crate_name),
                item: Item::PriorityBits { bits: cpu.priority_bits },
            };
            proof {
                lemma_views_push(declarations@, bits);
            }
            declarations.push(bits);
        },
        None => {},
    }
    assert(views(declarations@) =~= head_declarations(dev@, nightly));
    emit_peripherals(&mut declarations, &compiled);
    let ghost head = views(declarations@);
    let ghost want = interrupt_declarations(views(dev.interrupts@));
    let mut k: usize = 0;
    assert(views(declarations@) =~= head + want.take(0));
    while k < named.len()
        invariant
            k <= named.len(),
            named.len() == want.len(),
            views(named@) == renamed(views(dev.interrupts@)),
            want == interrupt_declarations(views(dev.interrupts@)),
            views(declarations@) == head + want.take(k as int),
        decreases named.len() - k,
    {
        let mut path: Vec<String> = Vec::new();
        proof {
            lemma_texts_push(path@, named@[k as int].name);
            assert(views(named@)[k as int] == named@[k as int]@);
        }
        path.push(named[k].name.clone());
        assert(texts(path@) =~= seq![named@[k as int].name@]);
        let d = Declaration { path, item: Item::Interrupt { vector: named[k].vector } };
        proof {
            lemma_views_push(declarations@, d);
        }
        declarations.push(d);
        k = k + 1;
        assert(views(declarations@) =~= head + want.take(k as int));
    }
    assert(want.take(named.len() as int) =~= want);
    let (vector_table, link_stub) = match target {
        Target::CortexM => {
            let symbols = symbols_of(&table);
            (Some(table), Some(LinkStub { symbols }))
        },
        _ => (None, None),
    };
    Ok(Compilation { declarations, vector_table, link_stub })
}


/// Compiling is a function of the description: two runs on descriptions
/// with the same content, for the same target and with the same flag,
/// give the same declarations, the same identifiers and the same table,
/// or the same error.
pub proof fn lemma_compilation_is_deterministic(
    a: Device,
    b: Device,
    target: Target,
    nightly: bool,
    first: Result<Compilation, CompileError>,
    second: Result<Compilation, CompileError>,
)
    requires
        a@ == b@,
        compilation_outcome(first) == compilation(a@, target, nightly),
        compilation_outcome(second) == compilation(b@, target, nightly),
    ensures
        compilation_outcome(first) == compilation_outcome(second),
        first is Ok <==> second is Ok,
{
}

/// A compilation gives its result exactly if every stage succeeds: the
/// peripherals compile and the interrupts have no fault. Then it gives the
/// declarations whatever the target is, and the vector table and the link
/// stub exactly for a target that has a vector table.
pub proof fn lemma_all_or_nothing(dev: DeviceView, target: Target, nightly: bool)
    ensures
        compilation(dev, target, nightly) is Ok <==> compiled_peripherals(dev.peripherals) is Ok
            && first_interrupt_fault(dev.interrupts) is None,
        compilation(dev, target, nightly) matches Ok(c) ==> {
            &&& c.vector_table is Some <==> target.has_vector_table()
            &&& c.link_stub is Some <==> target.has_vector_table()
            &&& c.declarations == compilation(dev, Target::Generic, nightly)->Ok_0.declarations
        },
        compilation(dev, target, nightly) matches Err(e) ==> e.path.len() >= 2 && e.path[0]
            == dev.name,
{
    match compiled_peripherals(dev.peripherals) {
        Err(e) => {
            assert(e.within(dev.name).path[0] == dev.name);
            lemma_peripheral_error_is_located(dev.peripherals);
        },
        Ok(_) => match first_interrupt_fault(dev.interrupts) {
            Some(e) => {
                assert(e.within(dev.name).path[0] == dev.name);
                lemma_interrupt_fault_is_located(dev.interrupts);
            },
            None => {},
        },
    }
}


/// An error of the peripherals' compilation names where it was found.
pub proof fn lemma_peripheral_error_is_located(ps: Seq<PeripheralView>)
    ensures
        compiled_peripherals(ps) matches Err(e) ==> e.path.len() >= 1,
{
    match resolved(ps) {
        Err(e) => {
            let f = resolver(ps);
            let ks = indices(ps.len());
            lemma_try_map_first_err(ks, f);
            let i = choose|i: int|
                0 <= i < ks.len() && f(#[trigger] ks[i]) == Err::<PeripheralView, CompileErrorView>(
                    e,
                ) && forall|j: int| 0 <= j < i ==> f(#[trigger] ks[j]) is Ok;
            assert(f(ks[i]) == resolved_from(ps, ks[i], Seq::empty()));
            lemma_resolution_error_is_located(ps, ks[i], Seq::empty());
        },
        Ok(flat) => {
            let f = peripheral_compiler();
            match try_map(flat, f) {
                Err(e) => {
                    lemma_try_map_first_err(flat, f);
                    let i = choose|i: int|
                        0 <= i < flat.len() && f(#[trigger] flat[i]) == Err::<
                            CompiledPeripheralView,
                            CompileErrorView,
                        >(e) && forall|j: int| 0 <= j < i ==> f(#[trigger] flat[j]) is Ok;
                    assert(f(flat[i]) == compiled_peripheral(flat[i]));
                },
                Ok(cs) => {},
            }
        },
    }
}

} // verus!
