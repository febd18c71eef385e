//! The address ranges of registers and peripherals, and the check that
//! no two peripherals take the same address.

use crate::error::{error_between, CompileError, CompileErrorView, ErrorKind};
use crate::model::views;
use crate::peripheral::{CompiledPeripheral, CompiledPeripheralView};
use crate::register::{CompiledRegister, CompiledRegisterView};
use crate::span::{find_conflict, first_conflict, Span};
use vstd::prelude::*;

verus! {

/// The number of bytes that a register of `width` bits takes.
pub open spec fn byte_size(width: u32) -> int {
    (width + 7) / 8
}

/// The addresses that a register takes, relative to its peripheral.
pub open spec fn register_span(r: CompiledRegisterView) -> Span {
    Span { start: r.offset as u128, size: byte_size(r.width) as u128, shared: r.alias }
}

/// The address ranges of registers, in order.
pub open spec fn register_spans(rs: Seq<CompiledRegisterView>) -> Seq<Span> {
    Seq::new(rs.len(), |i: int| register_span(rs[i]))
}

/// The number of bytes from a peripheral's base to the end of its last
/// register: 0 where it has no register.
pub open spec fn extent(rs: Seq<CompiledRegisterView>) -> int
    decreases rs.len(),
{
    if rs.len() == 0 {
        0
    } else {
        let before = extent(rs.drop_last());
        let end = rs.last().offset + byte_size(rs.last().width);
        if end > before {
            end
        } else {
            before
        }
    }
}

/// The extent reaches the end of every register, and is the end of one of
/// them unless there is none.
pub proof fn lemma_extent(rs: Seq<CompiledRegisterView>)
    ensures
        0 <= extent(rs) <= 0x1_0000_0000_2000_0000,
        forall|i: int|
            0 <= i < rs.len() ==> (#[trigger] rs[i]).offset + byte_size(rs[i].width) <= extent(rs),
        rs.len() > 0 ==> exists|i: int|
            0 <= i < rs.len() && (#[trigger] rs[i]).offset + byte_size(rs[i].width) == extent(rs),
        rs.len() == 0 ==> extent(rs) == 0,
    decreases rs.len(),
{
    if rs.len() > 0 {
        let head = rs.drop_last();
        lemma_extent(head);
        let end = rs.last().offset + byte_size(rs.last().width);
        assert forall|i: int| 0 <= i < rs.len() implies (#[trigger] rs[i]).offset + byte_size(
            rs[i].width,
        ) <= extent(rs) by {
            if i < head.len() {
                assert(rs[i] == head[i]);
            }
        }
        if end > extent(head) || head.len() == 0 {
            assert(rs[rs.len() - 1].offset + byte_size(rs[rs.len() - 1].width) == extent(rs));
        } else {
            let i = choose|i: int|
                0 <= i < head.len() && (#[trigger] head[i]).offset + byte_size(head[i].width)
                    == extent(head);
            assert(rs[i] == head[i]);
        }
    }
}

/// The addresses that a peripheral takes: from its base to the end of its
/// last register.
pub open spec fn peripheral_span(p: CompiledPeripheralView) -> Span {
    Span { start: p.base as u128, size: extent(p.registers) as u128, shared: false }
}

/// The address ranges of peripherals, in order.
pub open spec fn peripheral_spans(ps: Seq<CompiledPeripheralView>) -> Seq<Span> {
    Seq::new(ps.len(), |i: int| peripheral_span(ps[i]))
}

/// The first two peripherals whose address ranges intersect, as an error.
pub open spec fn address_fault(ps: Seq<CompiledPeripheralView>) -> Option<CompileErrorView> {
    match first_conflict(peripheral_spans(ps)) {
        Some((i, j)) => Some(error_between(ErrorKind::PeripheralOverlap, ps[i].name, ps[j].name)),
        None => None,
    }
}

fn bytes_of(width: u32) -> (n: u128)
    ensures
        n == byte_size(width),
{
    (width as u128 + 7) / 8
}

/// The address ranges of the registers, in order.
pub fn spans_of_registers(registers: &Vec<CompiledRegister>) -> (spans: Vec<Span>)
    ensures
        spans@ == register_spans(views(registers@)),
        forall|i: int| 0 <= i < spans.len() ==> (#[trigger] spans@[i]).fits(),
{
    let ghost want = register_spans(views(registers@));
    let mut spans: Vec<Span> = Vec::new();
    let mut i: usize = 0;
    while i < registers.len()
        invariant
            i <= registers.len(),
            want == register_spans(views(registers@)),
            spans@ == want.take(i as int),
            forall|k: int| 0 <= k < spans.len() ==> (#[trigger] spans@[k]).fits(),
        decreases registers.len() - i,
    {
        let r = &registers[i];
        assert(views(registers@)[i as int] == r@);
        spans.push(Span { start: r.offset as u128, size: bytes_of(r.width), shared: r.alias });
        i = i + 1;
        assert(spans@ =~= want.take(i as int));
    }
    assert(want.take(registers.len() as int) =~= want);
    spans
}

/// The number of bytes from a peripheral's base to the end of its last
/// register.
pub fn extent_of(registers: &Vec<CompiledRegister>) -> (n: u128)
    ensures
        n == extent(views(registers@)),
{
    let ghost rs = views(registers@);
    let mut n: u128 = 0;
    let mut i: usize = 0;
    assert(rs.take(0) =~= Seq::<CompiledRegisterView>::empty());
    while i < registers.len()
        invariant
            i <= registers.len(),
            rs == views(registers@),
            n == extent(rs.take(i as int)),
        decreases registers.len() - i,
    {
        proof {
            assert(rs.take(i + 1).drop_last() =~= rs.take(i as int));
            assert(rs.take(i + 1).last() == registers@[i as int]@);
            lemma_extent(rs.take(i as int));
        }
        let end: u128 = registers[i].offset as u128 + bytes_of(registers[i].width);
        if end > n {
            n = end;
        }
        i = i + 1;
    }
    assert(rs.take(registers.len() as int) =~= rs);
    n
}

/// Checks that the address ranges of the peripherals do not intersect,
/// and reports the first two that do.
pub fn check_peripherals(ps: &Vec<CompiledPeripheral>) -> (out: Result<(), CompileError>)
    ensures
        match out {
            Ok(_) => address_fault(views(ps@)) is None,
            Err(e) => address_fault(views(ps@)) == Some(e@),
        },
{
    let ghost want = peripheral_spans(views(ps@));
    let mut spans: Vec<Span> = Vec::new();
    let mut i: usize = 0;
    while i < ps.len()
        invariant
            i <= ps.len(),
            want == peripheral_spans(views(ps@)),
            spans@ == want.take(i as int),
            forall|k: int| 0 <= k < spans.len() ==> (#[trigger] spans@[k]).fits(),
        decreases ps.len() - i,
    {
        let p = &ps[i];
        proof {
            assert(views(ps@)[i as int] == p@);
            lemma_extent(p@.registers);
        }
        spans.push(Span { start: p.base as u128, size: extent_of(&p.registers), shared: false });
        i = i + 1;
        assert(spans@ =~= want.take(i as int));
    }
    assert(want.take(ps.len() as int) =~= want);
    match find_conflict(&spans) {
        Some((a, b)) => {
            assert(views(ps@)[a as int] == ps@[a as int]@);
            assert(views(ps@)[b as int] == ps@[b as int]@);
            Err(CompileError::between(ErrorKind::PeripheralOverlap, &ps[a].name, &ps[b].name))
        },
        None => Ok(()),
    }
}

} // verus!
