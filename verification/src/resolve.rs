//! Resolves derivations between peripherals: a derived peripheral gets the
//! entries of its base that it does not declare itself.

use crate::error::{error_at, error_between, CompileError, CompileErrorView, ErrorKind};
use crate::expand::indices;
use crate::fallible::{lemma_try_map_err, lemma_try_map_step, try_map};
use crate::model::{
    lemma_views_push, views, Access, Entry, EntryView, Peripheral, PeripheralView,
};
use vstd::prelude::*;

verus! {

/// The position of the first peripheral called `name`.
pub open spec fn position(ps: Seq<PeripheralView>, name: Seq<char>) -> Option<int>
    decreases ps.len(),
{
    if ps.len() == 0 {
        None
    } else {
        match position(ps.drop_last(), name) {
            Some(i) => Some(i),
            None => if ps.last().name == name {
                Some(ps.len() - 1)
            } else {
                None
            },
        }
    }
}

/// `position` finds the first peripheral of that name, and finds one
/// wherever there is one.
pub proof fn lemma_position(ps: Seq<PeripheralView>, name: Seq<char>)
    ensures
        match position(ps, name) {
            Some(i) => 0 <= i < ps.len() && ps[i].name == name && forall|j: int|
                0 <= j < i ==> (#[trigger] ps[j]).name != name,
            None => forall|j: int| 0 <= j < ps.len() ==> (#[trigger] ps[j]).name != name,
        },
    decreases ps.len(),
{
    if ps.len() > 0 {
        let head = ps.drop_last();
        lemma_position(head, name);
        match position(head, name) {
            Some(i) => {
                assert(ps[i] == head[i]);
                assert forall|j: int| 0 <= j < i implies (#[trigger] ps[j]).name != name by {
                    assert(ps[j] == head[j]);
                }
            },
            None => {
                assert forall|j: int| 0 <= j < ps.len() - 1 implies (#[trigger] ps[j]).name
                    != name by {
                    assert(ps[j] == head[j]);
                }
            },
        }
    }
}

/// One of the entries is declared under `name`.
pub open spec fn declares(entries: Seq<EntryView>, name: Seq<char>) -> bool {
    exists|i: int| 0 <= i < entries.len() && (#[trigger] entries[i]).name() == name
}

/// The test for an entry's name not being declared among `own`.
pub open spec fn not_declared_in(own: Seq<EntryView>) -> spec_fn(EntryView) -> bool {
    |e: EntryView| !declares(own, e.name())
}

/// The entries of a derived peripheral: its own in declared order, then
/// those of its base whose names it does not declare, in the base's order.
pub open spec fn merged(own: Seq<EntryView>, base: Seq<EntryView>) -> Seq<EntryView> {
    own + base.filter(not_declared_in(own))
}

/// The access mode of an entity that may state one of its own, over one
/// that its base may state.
pub open spec fn inherited_access(own: Option<Access>, base: Option<Access>) -> Option<Access> {
    match own {
        Some(a) => Some(a),
        None => base,
    }
}

/// The peripheral at position `i` with its derivation resolved, where the
/// chain of derivations that led to it went through `visited`. It fails
/// where a peripheral derives from an unknown name, and where the chain
/// comes back to a peripheral it went through.
pub open spec fn resolved_from(ps: Seq<PeripheralView>, i: int, visited: Seq<int>) -> Result<
    PeripheralView,
    CompileErrorView,
>
    decreases ps.len() - visited.len(),
{
    let p = ps[i];
    match p.derived_from {
        None => Ok(p),
        Some(base) => match position(ps, base) {
            None => Err(error_between(ErrorKind::UnknownDerivedFrom, p.name, base)),
            Some(j) => if j == i || visited.contains(j) || visited.len() >= ps.len() {
                Err(error_at(ErrorKind::CyclicDerivation, p.name))
            } else {
                match resolved_from(ps, j, visited.push(i)) {
                    Err(e) => Err(e),
                    Ok(b) => Ok(
                        PeripheralView {
                            name: p.name,
                            base: p.base,
                            derived_from: None,
                            access: inherited_access(p.access, b.access),
                            entries: merged(p.entries, b.entries),
                        },
                    ),
                }
            },
        },
    }
}

/// The resolution of the peripheral at a position, as a function.
pub open spec fn resolver(ps: Seq<PeripheralView>) -> spec_fn(int) -> Result<
    PeripheralView,
    CompileErrorView,
> {
    |i: int| resolved_from(ps, i, Seq::empty())
}

/// All peripherals with their derivations resolved, in declared order.
pub open spec fn resolved(ps: Seq<PeripheralView>) -> Result<Seq<PeripheralView>, CompileErrorView> {
    try_map(indices(ps.len()), resolver(ps))
}

/// The positions in a list, as mathematical integers.
pub open spec fn ints(v: Seq<usize>) -> Seq<int> {
    Seq::new(v.len(), |i: int| v[i] as int)
}

fn find_peripheral(ps: &Vec<Peripheral>, name: &String) -> (found: Option<usize>)
    ensures
        match found {
            Some(i) => position(views(ps@), name@) == Some(i as int) && i < ps.len(),
            None => position(views(ps@), name@) is None,
        },
{
    let ghost vs = views(ps@);
    let mut i: usize = 0;
    while i < ps.len()
        invariant
            i <= ps.len(),
            vs == views(ps@),
            forall|j: int| 0 <= j < i ==> (#[trigger] vs[j]).name != name@,
        decreases ps.len() - i,
    {
        if ps[i].name == *name {
            proof {
                assert(vs[i as int].name == name@);
                lemma_position(vs, name@);
            }
            return Some(i);
        }
        assert(vs[i as int].name != name@);
        i = i + 1;
    }
    proof {
        lemma_position(vs, name@);
    }
    None
}

fn declared_in(own: &Vec<Entry>, name: &String) -> (found: bool)
    ensures
        found == declares(views(own@), name@),
{
    let mut i: usize = 0;
    while i < own.len()
        invariant
            i <= own.len(),
            forall|j: int| 0 <= j < i ==> (#[trigger] views(own@)[j]).name() != name@,
        decreases own.len() - i,
    {
        if *own[i].name() == *name {
            assert(views(own@)[i as int].name() == name@);
            return true;
        }
        assert(views(own@)[i as int].name() != name@);
        i = i + 1;
    }
    false
}

/// Merges the entries of a derived peripheral with those of its base.
pub fn merge_entries(own: &Vec<Entry>, base: &Vec<Entry>) -> (out: Vec<Entry>)
    ensures
        views(out@) == merged(views(own@), views(base@)),
{
    let ghost keep = not_declared_in(views(own@));
    let ghost os = views(own@);
    let ghost bs = views(base@);
    let mut out: Vec<Entry> = Vec::new();
    let mut i: usize = 0;
    assert(views(out@) =~= os.take(0));
    while i < own.len()
        invariant
            i <= own.len(),
            os == views(own@),
            views(out@) == os.take(i as int),
        decreases own.len() - i,
    {
        let e = own[i].duplicate();
        proof {
            lemma_views_push(out@, e);
        }
        out.push(e);
        i = i + 1;
        assert(views(out@) =~= os.take(i as int));
    }
    assert(os.take(own.len() as int) =~= os);
    let mut k: usize = 0;
    proof {
        reveal(Seq::filter);
        assert(bs.take(0) =~= Seq::<EntryView>::empty());
        assert(views(out@) =~= os + bs.take(0).filter(keep));
    }
    while k < base.len()
        invariant
            k <= base.len(),
            os == views(own@),
            bs == views(base@),
            keep == not_declared_in(os),
            views(out@) == os + bs.take(k as int).filter(keep),
        decreases base.len() - k,
    {
        proof {
            reveal(Seq::filter);
            assert(bs.take(k + 1).drop_last() =~= bs.take(k as int));
            assert(bs.take(k + 1).last() == base@[k as int]@);
            assert(keep(base@[k as int]@) == !declares(os, base@[k as int]@.name()));
        }
        if !declared_in(own, base[k].name()) {
            let e = base[k].duplicate();
            proof {
                lemma_views_push(out@, e);
            }
            out.push(e);
        }
        k = k + 1;
        assert(views(out@) =~= os + bs.take(k as int).filter(keep));
    }
    assert(bs.take(base.len() as int) =~= bs);
    out
}

/// The view of the outcome of resolving a peripheral.
pub open spec fn peripheral_outcome(out: Result<Peripheral, CompileError>) -> Result<
    PeripheralView,
    CompileErrorView,
> {
    match out {
        Ok(p) => Ok(p@),
        Err(e) => Err(e@),
    }
}

fn copy_entries(entries: &Vec<Entry>) -> (out: Vec<Entry>)
    ensures
        views(out@) == views(entries@),
{
    let mut out: Vec<Entry> = Vec::new();
    let mut i: usize = 0;
    assert(views(out@) =~= views(entries@).take(0));
    while i < entries.len()
        invariant
            i <= entries.len(),
            views(out@) == views(entries@).take(i as int),
        decreases entries.len() - i,
    {
        let e = entries[i].duplicate();
        proof {
            lemma_views_push(out@, e);
        }
        out.push(e);
        i = i + 1;
        assert(views(out@) =~= views(entries@).take(i as int));
    }
    assert(views(entries@).take(entries.len() as int) =~= views(entries@));
    out
}

fn went_through(visited: &Vec<usize>, j: usize) -> (found: bool)
    ensures
        found == ints(visited@).contains(j as int),
{
    let mut k: usize = 0;
    while k < visited.len()
        invariant
            k <= visited.len(),
            forall|a: int| 0 <= a < k ==> ints(visited@)[a] != j,
        decreases visited.len() - k,
    {
        if visited[k] == j {
            assert(ints(visited@)[k as int] == j);
            return true;
        }
        k = k + 1;
    }
    false
}

fn resolve_from(ps: &Vec<Peripheral>, i: usize, visited: &Vec<usize>) -> (out: Result<
    Peripheral,
    CompileError,
>)
    requires
        i < ps.len(),
    ensures
        peripheral_outcome(out) == resolved_from(views(ps@), i as int, ints(visited@)),
    decreases ps.len() - visited.len(),
{
    let p = &ps[i];
    assert(views(ps@)[i as int] == p@);
    match &p.derived_from {
        None => Ok(
            Peripheral {
                name: p.name.clone(),
                base: p.base,
                derived_from: None,
                access: p.access,
                entries: copy_entries(&p.entries),
            },
        ),
        Some(base) => match find_peripheral(ps, base) {
            None => Err(CompileError::between(ErrorKind::UnknownDerivedFrom, &p.name, base)),
            Some(j) => {
                if j == i || went_through(visited, j) || visited.len() >= ps.len() {
                    return Err(CompileError::at(ErrorKind::CyclicDerivation, &p.name));
                }
                let mut longer: Vec<usize> = Vec::new();
                let mut k: usize = 0;
                while k < visited.len()
                    invariant
                        k <= visited.len(),
                        longer@ == visited@.take(k as int),
                    decreases visited.len() - k,
                {
                    longer.push(visited[k]);
                    k = k + 1;
                    assert(longer@ =~= visited@.take(k as int));
                }
                assert(visited@.take(visited.len() as int) =~= visited@);
                longer.push(i);
                assert(ints(longer@) =~= ints(visited@).push(i as int));
                match resolve_from(ps, j, &longer) {
                    Err(e) => Err(e),
                    Ok(b) => Ok(
                        Peripheral {
                            name: p.name.clone(),
                            base: p.base,
                            derived_from: None,
                            access: match p.access {
                                Some(a) => Some(a),
                                None => b.access,
                            },
                            entries: merge_entries(&p.entries, &b.entries),
                        },
                    ),
                }
            },
        },
    }
}

/// The view of the outcome of resolving all peripherals.
pub open spec fn peripherals_outcome(out: Result<Vec<Peripheral>, CompileError>) -> Result<
    Seq<PeripheralView>,
    CompileErrorView,
> {
    match out {
        Ok(ps) => Ok(views(ps@)),
        Err(e) => Err(e@),
    }
}

/// Resolves the derivations of all peripherals. In the result no
/// peripheral derives from another.
pub fn resolve_peripherals(ps: &Vec<Peripheral>) -> (out: Result<Vec<Peripheral>, CompileError>)
    ensures
        peripherals_outcome(out) == resolved(views(ps@)),
        out matches Ok(rs) ==> rs.len() == ps.len() && forall|i: int|
            0 <= i < rs.len() ==> (#[trigger] rs@[i]).derived_from is None,
{
    let ghost f = resolver(views(ps@));
    let ghost ks = indices(ps.len() as nat);
    let visited: Vec<usize> = Vec::new();
    assert(ints(visited@) =~= Seq::<int>::empty());
    let mut out: Vec<Peripheral> = Vec::new();
    let mut i: usize = 0;
    proof {
        assert(ks.take(0) =~= Seq::<int>::empty());
        assert(views(out@) =~= Seq::<PeripheralView>::empty());
    }
    while i < ps.len()
        invariant
            i <= ps.len(),
            out.len() == i,
            f == resolver(views(ps@)),
            ks == indices(ps.len() as nat),
            ints(visited@) == Seq::<int>::empty(),
            try_map(ks.take(i as int), f) == Ok::<Seq<PeripheralView>, CompileErrorView>(
                views(out@),
            ),
            forall|k: int| 0 <= k < out.len() ==> (#[trigger] out@[k]).derived_from is None,
        decreases ps.len() - i,
    {
        proof {
            lemma_try_map_step(ks, f, i as int);
            assert(ks[i as int] == i);
            assert(f(ks[i as int]) == resolved_from(views(ps@), i as int, Seq::empty()));
        }
        match resolve_from(ps, i, &visited) {
            Err(e) => {
                proof {
                    lemma_try_map_err(ks, f, i + 1);
                }
                return Err(e);
            },
            Ok(p) => {
                proof {
                    lemma_views_push(out@, p);
                    lemma_resolved_is_flat(views(ps@), i as int, Seq::empty());
                    assert(p@.derived_from is None);
                }
                out.push(p);
            },
        }
        i = i + 1;
    }
    assert(ks.take(ps.len() as int) =~= ks);
    Ok(out)
}

/// A resolved peripheral derives from no other.
pub proof fn lemma_resolved_is_flat(ps: Seq<PeripheralView>, i: int, visited: Seq<int>)
    ensures
        resolved_from(ps, i, visited) matches Ok(p) ==> p.derived_from is None && p.name
            == ps[i].name && p.base == ps[i].base,
{
}


/// A derived peripheral keeps its own entries, in declared order and
/// first; after them come exactly the entries of its base whose names it
/// does not declare. So a name is declared in the result exactly if the
/// peripheral or its base declares it.
pub proof fn lemma_merged(own: Seq<EntryView>, base: Seq<EntryView>)
    ensures
        merged(own, base).len() >= own.len(),
        merged(own, base).take(own.len() as int) == own,
        forall|k: int|
            own.len() <= k < merged(own, base).len() ==> base.contains(
                #[trigger] merged(own, base)[k],
            ) && !declares(own, merged(own, base)[k].name()),
        forall|k: int|
            0 <= k < base.len() && !declares(own, (#[trigger] base[k]).name()) ==> merged(
                own,
                base,
            ).contains(base[k]),
        forall|name: Seq<char>|
            declares(merged(own, base), name) <==> declares(own, name) || declares(base, name),
{
    let keep = not_declared_in(own);
    let rest = base.filter(keep);
    let all = merged(own, base);
    base.filter_lemma(keep);
    assert(all.take(own.len() as int) =~= own);
    assert forall|k: int| own.len() <= k < all.len() implies base.contains(#[trigger] all[k])
        && !declares(own, all[k].name()) by {
        let e = rest[k - own.len()];
        assert(all[k] == e);
        assert(keep(e));
        assert(rest.contains(e));
        lemma_filter_source(base, keep, k - own.len());
    }
    assert forall|k: int| 0 <= k < base.len() && !declares(own, (#[trigger] base[k]).name())
        implies all.contains(base[k]) by {
        assert(keep(base[k]));
        assert(rest.contains(base[k]));
        let m = rest.index_of(base[k]);
        assert(all[own.len() + m] == base[k]);
    }
    assert forall|name: Seq<char>|
        declares(all, name) <==> declares(own, name) || declares(base, name) by {
        if declares(all, name) {
            let k = choose|k: int| 0 <= k < all.len() && (#[trigger] all[k]).name() == name;
            if k < own.len() {
                assert(own[k] == all[k]);
            } else {
                assert(base.contains(all[k]));
                let m = base.index_of(all[k]);
                assert(base[m].name() == name);
            }
        }
        if declares(own, name) {
            let k = choose|k: int| 0 <= k < own.len() && (#[trigger] own[k]).name() == name;
            assert(all[k] == own[k]);
        } else if declares(base, name) {
            let k = choose|k: int| 0 <= k < base.len() && (#[trigger] base[k]).name() == name;
            assert(all.contains(base[k]));
            let m = all.index_of(base[k]);
            assert(all[m].name() == name);
        }
    }
}

proof fn lemma_filter_source<A>(s: Seq<A>, pred: spec_fn(A) -> bool, k: int)
    requires
        0 <= k < s.filter(pred).len(),
    ensures
        s.contains(s.filter(pred)[k]),
    decreases s.len(),
{
    reveal(Seq::filter);
    if s.len() > 0 {
        let head = s.drop_last();
        if k < head.filter(pred).len() {
            lemma_filter_source(head, pred, k);
            let m = head.index_of(head.filter(pred)[k]);
            assert(s[m] == head[m]);
        } else {
            assert(s.filter(pred)[k] == s[s.len() - 1]);
        }
    }
}

/// The resolution of a derived peripheral is the merge of its own entries
/// with those of its resolved base, however long the chain is.
pub proof fn lemma_derived_inherits(ps: Seq<PeripheralView>, i: int, visited: Seq<int>)
    requires
        resolved_from(ps, i, visited) is Ok,
        ps[i].derived_from is Some,
    ensures
        ({
            let j = position(ps, ps[i].derived_from->Some_0)->Some_0;
            let base = resolved_from(ps, j, visited.push(i));
            &&& position(ps, ps[i].derived_from->Some_0) is Some
            &&& j != i && !visited.contains(j)
            &&& base is Ok
            &&& resolved_from(ps, i, visited)->Ok_0.entries == merged(
                ps[i].entries,
                base->Ok_0.entries,
            )
        }),
{
}

/// A peripheral that derives from itself, or from one that the chain went
/// through, is reported as a cyclic derivation.
pub proof fn lemma_revisit_is_cyclic(ps: Seq<PeripheralView>, i: int, visited: Seq<int>)
    requires
        ps[i].derived_from is Some,
        position(ps, ps[i].derived_from->Some_0) matches Some(j) && (j == i || visited.contains(j)),
    ensures
        resolved_from(ps, i, visited) == Err::<PeripheralView, CompileErrorView>(
            error_at(ErrorKind::CyclicDerivation, ps[i].name),
        ),
{
}

/// A chain that went through different peripherals, none of them the
/// current one, is shorter than the list of peripherals: the bound on its
/// length in `resolved_from` never decides an outcome.
pub proof fn lemma_chain_is_short(ps: Seq<PeripheralView>, i: int, visited: Seq<int>)
    requires
        0 <= i < ps.len(),
        visited.no_duplicates(),
        !visited.contains(i),
        forall|k: int| 0 <= k < visited.len() ==> 0 <= #[trigger] visited[k] < ps.len(),
    ensures
        visited.len() < ps.len(),
{
    let longer = visited.push(i);
    assert forall|a: int, b: int| 0 <= a < longer.len() && 0 <= b < longer.len() && a
        != b implies longer[a] != longer[b] by {
        if a < visited.len() && b < visited.len() {
            assert(visited[a] != visited[b]);
        } else if a < visited.len() {
            assert(visited.contains(visited[a]));
        } else {
            assert(visited.contains(visited[b]));
        }
    }
    crate::counting::lemma_distinct_bounded(longer, ps.len() as int);
}


/// An error of the resolution names the peripheral it was found at.
pub proof fn lemma_resolution_error_is_located(ps: Seq<PeripheralView>, i: int, visited: Seq<int>)
    ensures
        resolved_from(ps, i, visited) matches Err(e) ==> e.path.len() >= 1,
    decreases ps.len() - visited.len(),
{
    let p = ps[i];
    if p.derived_from is Some {
        if let Some(j) = position(ps, p.derived_from->Some_0) {
            if !(j == i || visited.contains(j) || visited.len() >= ps.len()) {
                lemma_resolution_error_is_located(ps, j, visited.push(i));
            }
        }
    }
}

} // verus!
