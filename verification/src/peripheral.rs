//! Compiles a peripheral: expands its entries, compiles its registers, and
//! checks that no two registers take the same address.

use crate::error::{error_at, error_between, CompileError, CompileErrorView, ErrorKind};
use crate::expand::{expand_entries, expanded};
use crate::fallible::{lemma_try_map_err, lemma_try_map_step, try_map};
use crate::model::{lemma_views_push, views, Access, Peripheral, PeripheralView, RegisterView};
use crate::register::{
    compile_register, compiled_register, CompiledRegister, CompiledRegisterView,
};
use crate::address::{register_spans, spans_of_registers};
use crate::span::{find_conflict, first_conflict};
use vstd::prelude::*;

verus! {

/// A compiled peripheral.
#[derive(Clone, Debug, PartialEq, Eq)]
pub struct CompiledPeripheral {
    pub name: String,
    pub base: u64,
    pub registers: Vec<CompiledRegister>,
}

/// The mathematical value of a `CompiledPeripheral`.
pub struct CompiledPeripheralView {
    pub name: Seq<char>,
    pub base: u64,
    pub registers: Seq<CompiledRegisterView>,
}

impl View for CompiledPeripheral {
    type V = CompiledPeripheralView;

    open spec fn view(&self) -> CompiledPeripheralView {
        CompiledPeripheralView {
            name: self.name@,
            base: self.base,
            registers: views(self.registers@),
        }
    }
}

impl CompiledPeripheralView {
    /// The registers are well formed, and no two of them take the same
    /// address unless one is marked as an alias.
    pub open spec fn wf(self) -> bool {
        &&& forall|i: int| 0 <= i < self.registers.len() ==> (#[trigger] self.registers[i]).wf()
        &&& first_conflict(register_spans(self.registers)) is None
    }
}

/// The access mode of the registers of a peripheral that states none:
/// reading and writing.
pub open spec fn default_access(own: Option<Access>) -> Access {
    match own {
        Some(a) => a,
        None => Access::ReadWrite,
    }
}

/// The compiler of the registers of a peripheral whose access mode is
/// `access`.
pub open spec fn register_compiler(access: Access) -> spec_fn(RegisterView) -> Result<
    CompiledRegisterView,
    CompileErrorView,
> {
    |r: RegisterView| compiled_register(r, access)
}

/// What compiling a peripheral gives. Its derivation must be resolved. Its
/// entries are expanded, the registers are compiled in order, and then the
/// first two registers that take the same address are reported.
pub open spec fn compiled_peripheral(p: PeripheralView) -> Result<
    CompiledPeripheralView,
    CompileErrorView,
> {
    if p.derived_from is Some {
        Err(error_at(ErrorKind::MalformedDescription, p.name))
    } else {
        match expanded(p.entries) {
            Err(e) => Err(e.within(p.name)),
            Ok(rs) => match try_map(rs, register_compiler(default_access(p.access))) {
                Err(e) => Err(e.within(p.name)),
                Ok(cs) => match first_conflict(register_spans(cs)) {
                    Some((i, j)) => Err(
                        error_between(ErrorKind::RegisterOverlap, cs[i].name, cs[j].name).within(
                            p.name,
                        ),
                    ),
                    None => Ok(CompiledPeripheralView { name: p.name, base: p.base, registers: cs }),
                },
            },
        }
    }
}

/// The view of the outcome of compiling a peripheral.
pub open spec fn compiled_peripheral_outcome(out: Result<CompiledPeripheral, CompileError>)
    -> Result<CompiledPeripheralView, CompileErrorView> {
    match out {
        Ok(p) => Ok(p@),
        Err(e) => Err(e@),
    }
}

/// Compiles a peripheral whose derivation is resolved.
pub fn compile_peripheral(p: &Peripheral) -> (out: Result<CompiledPeripheral, CompileError>)
    ensures
        compiled_peripheral_outcome(out) == compiled_peripheral(p@),
        out matches Ok(c) ==> c@.wf(),
{
    if p.derived_from.is_some() {
        return Err(CompileError::at(ErrorKind::MalformedDescription, &p.name));
    }
    let access = match p.access {
        Some(a) => a,
        None => Access::ReadWrite,
    };
    let singles = match expand_entries(&p.entries) {
        Err(e) => {
            return Err(e.within(&p.name));
        },
        Ok(rs) => rs,
    };
    let ghost rs = views(singles@);
    let ghost f = register_compiler(access);
    let mut registers: Vec<CompiledRegister> = Vec::new();
    let mut i: usize = 0;
    proof {
        assert(rs.take(0) =~= Seq::<RegisterView>::empty());
        assert(views(registers@) =~= Seq::<CompiledRegisterView>::empty());
    }
    while i < singles.len()
        invariant
            i <= singles.len(),
            p.derived_from is None,
            access == default_access(p.access),
            rs == views(singles@),
            expanded(p@.entries) == Ok::<Seq<RegisterView>, CompileErrorView>(rs),
            f == register_compiler(access),
            try_map(rs.take(i as int), f) == Ok::<Seq<CompiledRegisterView>, CompileErrorView>(
                views(registers@),
            ),
            forall|k: int| 0 <= k < registers.len() ==> (#[trigger] registers@[k])@.wf(),
        decreases singles.len() - i,
    {
        proof {
            lemma_try_map_step(rs, f, i as int);
            assert(rs[i as int] == singles@[i as int]@);
            assert(f(rs[i as int]) == compiled_register(rs[i as int], access));
        }
        match compile_register(&singles[i], access) {
            Err(e) => {
                proof {
                    lemma_try_map_err(rs, f, i + 1);
                }
                return Err(e.within(&p.name));
            },
            Ok(r) => {
                proof {
                    lemma_views_push(registers@, r);
                }
                registers.push(r);
            },
        }
        i = i + 1;
    }
    assert(rs.take(singles.len() as int) =~= rs);
    let spans = spans_of_registers(&registers);
    match find_conflict(&spans) {
        Some((a, b)) => Err(
            CompileError::between(
                ErrorKind::RegisterOverlap,
                &registers[a].name,
                &registers[b].name,
            ).within(&p.name),
        ),
        None => {
            let out = CompiledPeripheral { name: p.name.clone(), base: p.base, registers };
            assert forall|k: int| 0 <= k < out@.registers.len() implies (
            #[trigger] out@.registers[k]).wf() by {
                assert(out.registers@[k]@.wf());
            }
            Ok(out)
        },
    }
}

} // verus!
