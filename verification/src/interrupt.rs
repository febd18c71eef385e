//! Builds the vector table: one entry for every vector number from 0 to
//! the highest one declared, with the numbers that no interrupt uses
//! marked as reserved.

use crate::error::{error_at, error_between, CompileError, CompileErrorView, ErrorKind};
use crate::model::{views, Interrupt, InterruptView};
use vstd::prelude::*;

verus! {

/// An entry of the vector table.
#[derive(Clone, Debug, PartialEq, Eq)]
pub enum VectorEntry {
    /// The handler of the interrupt of this name.
    Handler(String),
    /// No interrupt uses this vector number.
    Reserved,
}

/// The mathematical value of a `VectorEntry`.
pub enum VectorEntryView {
    Handler(Seq<char>),
    Reserved,
}

impl View for VectorEntry {
    type V = VectorEntryView;

    open spec fn view(&self) -> VectorEntryView {
        match self {
            VectorEntry::Handler(name) => VectorEntryView::Handler(name@),
            VectorEntry::Reserved => VectorEntryView::Reserved,
        }
    }
}

/// The position of the first interrupt with the vector number `v`.
pub open spec fn holder(interrupts: Seq<InterruptView>, v: int) -> Option<int>
    decreases interrupts.len(),
{
    if interrupts.len() == 0 {
        None
    } else {
        match holder(interrupts.drop_last(), v) {
            Some(i) => Some(i),
            None => if interrupts.last().vector == v {
                Some(interrupts.len() - 1)
            } else {
                None
            },
        }
    }
}

/// What is wrong with the interrupt `x`, declared after `before`: a
/// negative vector number, or one that an earlier interrupt has.
pub open spec fn interrupt_fault(before: Seq<InterruptView>, x: InterruptView) -> Option<
    CompileErrorView,
> {
    if x.vector < 0 {
        Some(error_at(ErrorKind::MalformedDescription, x.name))
    } else {
        match holder(before, x.vector as int) {
            Some(i) => Some(
                error_between(ErrorKind::DuplicateInterruptVector, before[i].name, x.name),
            ),
            None => None,
        }
    }
}

/// The fault of the first interrupt, in declared order, that has one.
pub open spec fn first_interrupt_fault(interrupts: Seq<InterruptView>) -> Option<CompileErrorView>
    decreases interrupts.len(),
{
    if interrupts.len() == 0 {
        None
    } else {
        match first_interrupt_fault(interrupts.drop_last()) {
            Some(e) => Some(e),
            None => interrupt_fault(interrupts.drop_last(), interrupts.last()),
        }
    }
}

/// The length of the table: one more than the highest vector number, 0
/// where there is no interrupt.
pub open spec fn table_len(interrupts: Seq<InterruptView>) -> int
    decreases interrupts.len(),
{
    if interrupts.len() == 0 {
        0
    } else {
        let before = table_len(interrupts.drop_last());
        if interrupts.last().vector + 1 > before {
            interrupts.last().vector + 1
        } else {
            before
        }
    }
}

/// The entry for the vector number `v`.
pub open spec fn entry_at(interrupts: Seq<InterruptView>, v: int) -> VectorEntryView {
    match holder(interrupts, v) {
        Some(i) => VectorEntryView::Handler(interrupts[i].name),
        None => VectorEntryView::Reserved,
    }
}

/// The table with an entry for every vector number up to the highest.
pub open spec fn dense_table(interrupts: Seq<InterruptView>) -> Seq<VectorEntryView> {
    Seq::new(table_len(interrupts) as nat, |v: int| entry_at(interrupts, v))
}

/// The vector table of a device: the entry at each position is that of
/// the interrupt whose vector number is the position.
pub open spec fn vector_table(interrupts: Seq<InterruptView>) -> Result<
    Seq<VectorEntryView>,
    CompileErrorView,
> {
    match first_interrupt_fault(interrupts) {
        Some(e) => Err(e),
        None => Ok(dense_table(interrupts)),
    }
}

/// Whether interrupts have a fault depends on their vector numbers alone.
pub proof fn lemma_fault_by_vectors(a: Seq<InterruptView>, b: Seq<InterruptView>)
    requires
        a.len() == b.len(),
        forall|i: int| 0 <= i < a.len() ==> (#[trigger] a[i]).vector == b[i].vector,
    ensures
        first_interrupt_fault(a) is None <==> first_interrupt_fault(b) is None,
        forall|v: int| holder(a, v) == holder(b, v),
    decreases a.len(),
{
    if a.len() > 0 {
        let ha = a.drop_last();
        let hb = b.drop_last();
        assert forall|i: int| 0 <= i < ha.len() implies (#[trigger] ha[i]).vector == hb[i].vector by {
            assert(ha[i] == a[i]);
            assert(hb[i] == b[i]);
        }
        lemma_fault_by_vectors(ha, hb);
        assert(a[a.len() - 1].vector == b[a.len() - 1].vector);
        assert forall|v: int| holder(a, v) == holder(b, v) by {
            assert(holder(ha, v) == holder(hb, v));
        }
        assert(holder(ha, a.last().vector as int) == holder(hb, b.last().vector as int));
    } else {
        assert forall|v: int| holder(a, v) == holder(b, v) by {}
    }
}

/// The holder of a vector number is the first interrupt that has it.
pub proof fn lemma_holder(interrupts: Seq<InterruptView>, v: int)
    ensures
        match holder(interrupts, v) {
            Some(i) => 0 <= i < interrupts.len() && interrupts[i].vector == v && v < table_len(
                interrupts,
            ) && forall|j: int| 0 <= j < i ==> (#[trigger] interrupts[j]).vector != v,
            None => forall|j: int|
                0 <= j < interrupts.len() ==> (#[trigger] interrupts[j]).vector != v,
        },
        table_len(interrupts) >= 0,
        table_len(interrupts) <= 0x8000_0000,
    decreases interrupts.len(),
{
    if interrupts.len() > 0 {
        let head = interrupts.drop_last();
        lemma_holder(head, v);
        match holder(head, v) {
            Some(i) => {
                assert(interrupts[i] == head[i]);
                assert forall|j: int| 0 <= j < i implies (#[trigger] interrupts[j]).vector
                    != v by {
                    assert(interrupts[j] == head[j]);
                }
            },
            None => {
                assert forall|j: int| 0 <= j < head.len() implies (#[trigger] interrupts[j]).vector
                    != v by {
                    assert(interrupts[j] == head[j]);
                }
            },
        }
    }
}

/// A fault among the first `n` interrupts is the first fault of all.
pub proof fn lemma_interrupt_fault_prefix(interrupts: Seq<InterruptView>, n: int)
    requires
        0 <= n <= interrupts.len(),
        first_interrupt_fault(interrupts.take(n)) is Some,
    ensures
        first_interrupt_fault(interrupts) == first_interrupt_fault(interrupts.take(n)),
    decreases interrupts.len() - n,
{
    if n < interrupts.len() {
        assert(interrupts.take(n + 1).drop_last() =~= interrupts.take(n));
        lemma_interrupt_fault_prefix(interrupts, n + 1);
    } else {
        assert(interrupts.take(n) =~= interrupts);
    }
}

/// Where no interrupt has a fault, the vector numbers are not negative
/// and pairwise different.
pub proof fn lemma_faultless_interrupts(interrupts: Seq<InterruptView>)
    requires
        first_interrupt_fault(interrupts) is None,
    ensures
        forall|i: int| 0 <= i < interrupts.len() ==> (#[trigger] interrupts[i]).vector >= 0,
        forall|i: int, j: int|
            0 <= i < j < interrupts.len() ==> (#[trigger] interrupts[i]).vector != (
            #[trigger] interrupts[j]).vector,
    decreases interrupts.len(),
{
    if interrupts.len() > 0 {
        let head = interrupts.drop_last();
        let x = interrupts.last();
        lemma_faultless_interrupts(head);
        lemma_holder(head, x.vector as int);
        assert forall|i: int| 0 <= i < interrupts.len() implies (#[trigger] interrupts[i]).vector
            >= 0 by {
            if i < head.len() {
                assert(interrupts[i] == head[i]);
            }
        }
        assert forall|i: int, j: int| 0 <= i < j < interrupts.len() implies (
        #[trigger] interrupts[i]).vector != (#[trigger] interrupts[j]).vector by {
            assert(interrupts[i] == head[i]);
            if j < head.len() {
                assert(interrupts[j] == head[j]);
            }
        }
    }
}

/// Where the table is built, the position of every entry is the vector
/// number of its interrupt: each interrupt's handler stands at its vector
/// number, every other position is reserved, and the table ends with the
/// highest vector number.
pub proof fn lemma_vector_table(interrupts: Seq<InterruptView>)
    requires
        vector_table(interrupts) is Ok,
    ensures
        ({
            let table = vector_table(interrupts)->Ok_0;
            &&& forall|i: int|
                0 <= i < interrupts.len() ==> 0 <= (#[trigger] interrupts[i]).vector < table.len()
                    && table[interrupts[i].vector as int] == VectorEntryView::Handler(
                    interrupts[i].name,
                )
            &&& forall|v: int|
                0 <= v < table.len() && (forall|i: int|
                    0 <= i < interrupts.len() ==> (#[trigger] interrupts[i]).vector != v)
                    ==> #[trigger] table[v] == VectorEntryView::Reserved
            &&& interrupts.len() > 0 ==> table.len() > 0 && table[table.len() - 1] is Handler
            &&& interrupts.len() == 0 ==> table.len() == 0
        }),
{
    let table = vector_table(interrupts)->Ok_0;
    lemma_faultless_interrupts(interrupts);
    lemma_holder(interrupts, 0);
    assert forall|i: int| 0 <= i < interrupts.len() implies 0 <= (#[trigger] interrupts[i]).vector
        < table.len() && table[interrupts[i].vector as int] == VectorEntryView::Handler(
        interrupts[i].name,
    ) by {
        let v = interrupts[i].vector as int;
        lemma_holder(interrupts, v);
        let h = holder(interrupts, v)->Some_0;
        if h < i {
            assert(interrupts[h].vector != interrupts[i].vector);
        }
    }
    assert forall|v: int|
        0 <= v < table.len() && (forall|i: int|
            0 <= i < interrupts.len() ==> (#[trigger] interrupts[i]).vector != v) implies (
    #[trigger] table[v]) == VectorEntryView::Reserved by {
        lemma_holder(interrupts, v);
    }
    if interrupts.len() > 0 {
        lemma_table_len_attained(interrupts);
        let i = choose|i: int|
            0 <= i < interrupts.len() && (#[trigger] interrupts[i]).vector + 1 == table_len(
                interrupts,
            );
        assert(table[interrupts[i].vector as int] is Handler);
    }
}

/// The length of a table that is not empty is one more than the vector
/// number of some interrupt.
pub proof fn lemma_table_len_attained(interrupts: Seq<InterruptView>)
    requires
        interrupts.len() > 0,
        forall|i: int| 0 <= i < interrupts.len() ==> (#[trigger] interrupts[i]).vector >= 0,
    ensures
        exists|i: int|
            0 <= i < interrupts.len() && (#[trigger] interrupts[i]).vector + 1 == table_len(
                interrupts,
            ),
    decreases interrupts.len(),
{
    let head = interrupts.drop_last();
    let last = interrupts.len() - 1;
    if head.len() == 0 {
        assert(table_len(head) == 0);
        assert(interrupts[last].vector + 1 == table_len(interrupts));
    } else if interrupts[last].vector + 1 > table_len(head) {
        assert(interrupts[last].vector + 1 == table_len(interrupts));
    } else {
        assert forall|i: int| 0 <= i < head.len() implies (#[trigger] head[i]).vector >= 0 by {
            assert(head[i] == interrupts[i]);
        }
        lemma_table_len_attained(head);
        let i = choose|i: int|
            0 <= i < head.len() && (#[trigger] head[i]).vector + 1 == table_len(head);
        assert(interrupts[i] == head[i]);
    }
}

/// Calls `cast::usize` on a vector number. The conversion fails on a
/// negative number and keeps the value of any other.
#[verifier::external_body]
fn vector_index(vector: i32) -> (index: Option<usize>)
    ensures
        vector < 0 ==> index is None,
        vector >= 0 ==> index == Some(vector as usize),
{
    cast::usize(vector).ok()
}

/// The view of the outcome of building the table.
pub open spec fn table_outcome(out: Result<Vec<VectorEntry>, CompileError>) -> Result<
    Seq<VectorEntryView>,
    CompileErrorView,
> {
    match out {
        Ok(t) => Ok(views(t@)),
        Err(e) => Err(e@),
    }
}

/// Builds the vector table of the interrupts. It fails on the first
/// interrupt, in declared order, whose vector number is negative or used
/// by an earlier one.
pub fn build_vector_table(interrupts: &Vec<Interrupt>) -> (out: Result<
    Vec<VectorEntry>,
    CompileError,
>)
    ensures
        table_outcome(out) == vector_table(views(interrupts@)),
{
    let ghost all = views(interrupts@);
    let mut table: Vec<VectorEntry> = Vec::new();
    let mut i: usize = 0;
    proof {
        assert(all.take(0) =~= Seq::<InterruptView>::empty());
        assert(views(table@) =~= dense_table(all.take(0)));
    }
    while i < interrupts.len()
        invariant
            i <= interrupts.len(),
            all == views(interrupts@),
            first_interrupt_fault(all.take(i as int)) is None,
            table.len() == table_len(all.take(i as int)),
            views(table@) == dense_table(all.take(i as int)),
        decreases interrupts.len() - i,
    {
        let x = &interrupts[i];
        let ghost before = all.take(i as int);
        let ghost now = all.take(i + 1);
        proof {
            assert(now.drop_last() =~= before);
            assert(now.last() == x@);
            lemma_holder(before, x.vector as int);
        }
        let index: usize = match vector_index(x.vector) {
            None => {
                proof {
                    lemma_interrupt_fault_prefix(all, i + 1);
                }
                return Err(CompileError::at(ErrorKind::MalformedDescription, &x.name));
            },
            Some(index) => index,
        };
        if index < table.len() {
            match &table[index] {
                VectorEntry::Handler(first) => {
                    proof {
                        assert(views(table@)[index as int] == table@[index as int]@);
                        lemma_interrupt_fault_prefix(all, i + 1);
                    }
                    return Err(
                        CompileError::between(ErrorKind::DuplicateInterruptVector, first, &x.name),
                    );
                },
                VectorEntry::Reserved => {
                    assert(views(table@)[index as int] == table@[index as int]@);
                },
            }
        }
        let ghost old_len = table.len();
        while table.len() <= index
            invariant
                old_len <= table.len(),
                table.len() <= index + 1 || table.len() == old_len,
                index == x.vector,
                x.vector >= 0,
                old_len == table_len(before),
                views(table@).take(old_len as int) == dense_table(before),
                forall|v: int| old_len <= v < table.len() ==> table@[v]@ == VectorEntryView::Reserved,
            decreases index + 1 - table.len(),
        {
            let ghost prev = views(table@);
            table.push(VectorEntry::Reserved);
            assert(views(table@).take(old_len as int) =~= prev.take(old_len as int));
        }
        let ghost grown = views(table@);
        table.set(index, VectorEntry::Handler(x.name.clone()));
        i = i + 1;
        proof {
            assert(table.len() == table_len(now));
            let want = dense_table(now);
            assert forall|v: int| 0 <= v < table.len() implies views(table@)[v] == want[v] by {
                lemma_holder(before, v);
                if v == index {
                } else {
                    assert(views(table@)[v] == grown[v]);
                    if v < old_len {
                        assert(grown[v] == grown.take(old_len as int)[v]);
                    } else {
                        assert(grown[v] == VectorEntryView::Reserved);
                    }
                }
            }
            assert(views(table@) =~= want);
        }
    }
    assert(all.take(interrupts.len() as int) =~= all);
    Ok(table)
}


/// A fault of the interrupts names the interrupt it was found at.
pub proof fn lemma_interrupt_fault_is_located(interrupts: Seq<InterruptView>)
    ensures
        first_interrupt_fault(interrupts) matches Some(e) ==> e.path.len() >= 1,
    decreases interrupts.len(),
{
    if interrupts.len() > 0 {
        lemma_interrupt_fault_is_located(interrupts.drop_last());
    }
}

} // verus!
