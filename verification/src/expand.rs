//! Expands repeated registers and clusters into single registers, each
//! with its own name and address.

use crate::error::{error_at, CompileError, CompileErrorView, ErrorKind};
use crate::fallible::{lemma_try_flat_map_err, lemma_try_flat_map_step, try_flat_map};
use crate::model::{
    copy_fields, lemma_views_add, lemma_views_push, views, Cluster, ClusterView, Dimension, DimensionView, Entry,
    EntryView, Register, RegisterView,
};
use crate::text::{chars_of, decimal, push_decimal, string_of, substitute, substitute_label, texts};
use vstd::prelude::*;

verus! {

/// The list of labels, where there is one, has one label for each instance.
pub open spec fn labels_match(dim: Option<DimensionView>) -> bool {
    match dim {
        Some(d) => match d.labels {
            Some(l) => l.len() == d.count,
            None => true,
        },
        None => true,
    }
}

/// The number of instances: one where nothing is repeated.
pub open spec fn instance_count(dim: Option<DimensionView>) -> nat {
    match dim {
        Some(d) => d.count as nat,
        None => 1,
    }
}

/// The label of instance `i`: taken from the list of labels, else the
/// decimal numeral of `i`.
pub open spec fn instance_label(d: DimensionView, i: int) -> Seq<char> {
    match d.labels {
        Some(l) => l[i],
        None => decimal(i as nat),
    }
}

/// The name of instance `i`: the pattern with its placeholders replaced by
/// the instance's label.
pub open spec fn instance_name(pattern: Seq<char>, dim: Option<DimensionView>, i: int) -> Seq<
    char,
> {
    match dim {
        Some(d) => substitute(pattern, instance_label(d, i)),
        None => pattern,
    }
}

/// The address of instance `i`: `i` strides after the first.
pub open spec fn instance_offset(offset: int, dim: Option<DimensionView>, i: int) -> int {
    match dim {
        Some(d) => offset + i * d.stride,
        None => offset,
    }
}

/// Instance `i` of a register that stands at `base` within its peripheral
/// and whose name is prefixed by `prefix`.
pub open spec fn register_instance(r: RegisterView, prefix: Seq<char>, base: int, i: int)
    -> RegisterView {
    RegisterView {
        name: prefix + instance_name(r.name, r.dim, i),
        offset: (base + instance_offset(r.offset as int, r.dim, i)) as u64,
        width: r.width,
        access: r.access,
        reset: r.reset,
        fields: r.fields,
        dim: None,
        alias: r.alias,
    }
}

/// The single registers that a register stands for. It fails where the
/// list of labels has the wrong length, or where an instance would lie
/// beyond the 64-bit address space.
pub open spec fn expanded_register(r: RegisterView, prefix: Seq<char>, base: int) -> Result<
    Seq<RegisterView>,
    CompileErrorView,
> {
    let n = instance_count(r.dim);
    if !labels_match(r.dim) {
        Err(error_at(ErrorKind::DimensionMismatch, r.name))
    } else if n > 0 && base + instance_offset(r.offset as int, r.dim, n - 1) > u64::MAX {
        Err(error_at(ErrorKind::MalformedDescription, r.name))
    } else {
        Ok(Seq::new(n, |i: int| register_instance(r, prefix, base, i)))
    }
}

/// The expansion of the registers of instance `k` of a cluster: their
/// names are prefixed by the instance's name and an underscore, their
/// addresses are relative to the instance's.
pub open spec fn child_expander(c: ClusterView, k: int) -> spec_fn(RegisterView) -> Result<
    Seq<RegisterView>,
    CompileErrorView,
> {
    |r: RegisterView|
        expanded_register(
            r,
            instance_name(c.name, c.dim, k).push('_'),
            instance_offset(c.offset as int, c.dim, k),
        )
}

/// The expansion of the instances of a cluster.
pub open spec fn instance_expander(c: ClusterView) -> spec_fn(int) -> Result<
    Seq<RegisterView>,
    CompileErrorView,
> {
    |k: int| try_flat_map(c.registers, child_expander(c, k))
}

/// The numbers below `n`, in order.
pub open spec fn indices(n: nat) -> Seq<int> {
    Seq::new(n, |k: int| k)
}

/// The single registers that a cluster stands for: for each instance of
/// the cluster in turn, the expansion of each of its registers.
pub open spec fn expanded_cluster(c: ClusterView) -> Result<Seq<RegisterView>, CompileErrorView> {
    if !labels_match(c.dim) {
        Err(error_at(ErrorKind::DimensionMismatch, c.name))
    } else {
        match try_flat_map(indices(instance_count(c.dim)), instance_expander(c)) {
            Err(e) => Err(e.within(c.name)),
            Ok(rs) => Ok(rs),
        }
    }
}

/// The single registers that an entry of a peripheral stands for.
pub open spec fn expanded_entry(e: EntryView) -> Result<Seq<RegisterView>, CompileErrorView> {
    match e {
        EntryView::Register(r) => expanded_register(r, Seq::empty(), 0),
        EntryView::Cluster(c) => expanded_cluster(c),
    }
}

/// The expansion of entries, as a function.
pub open spec fn entry_expander() -> spec_fn(EntryView) -> Result<
    Seq<RegisterView>,
    CompileErrorView,
> {
    |e: EntryView| expanded_entry(e)
}

/// The single registers that the entries of a peripheral stand for, in
/// declared order.
pub open spec fn expanded(entries: Seq<EntryView>) -> Result<Seq<RegisterView>, CompileErrorView> {
    try_flat_map(entries, entry_expander())
}

/// The view of the outcome of an expansion.
pub open spec fn registers_outcome(out: Result<Vec<Register>, CompileError>) -> Result<
    Seq<RegisterView>,
    CompileErrorView,
> {
    match out {
        Ok(rs) => Ok(views(rs@)),
        Err(e) => Err(e@),
    }
}

/// The view of a dimension that may be absent.
pub open spec fn dimension_view(dim: Option<Dimension>) -> Option<DimensionView> {
    match dim {
        Some(d) => Some(d@),
        None => None,
    }
}

fn labels_fit(dim: &Option<Dimension>) -> (b: bool)
    ensures
        b == labels_match(dimension_view(*dim)),
{
    match dim {
        Some(d) => match &d.labels {
            Some(l) => l.len() as u64 == d.count as u64,
            None => true,
        },
        None => true,
    }
}

fn count_of(dim: &Option<Dimension>) -> (n: u32)
    ensures
        n == instance_count(dimension_view(*dim)),
{
    match dim {
        Some(d) => d.count,
        None => 1,
    }
}

fn offset_of(offset: u64, dim: &Option<Dimension>, i: u32) -> (at: u128)
    ensures
        at == instance_offset(offset as int, dimension_view(*dim), i as int),
        at <= 0x2_0000_0000_0000_0000,
{
    match dim {
        Some(d) => {
            assert(0 <= (i as int) * (d.stride as int) <= 0xFFFF_FFFF * 0xFFFF_FFFF)
                by (nonlinear_arith)
                requires
                    0 <= i <= 0xFFFF_FFFF,
                    0 <= d.stride <= 0xFFFF_FFFF,
            ;
            let step: u128 = (i as u128) * (d.stride as u128);
            offset as u128 + step
        },
        None => offset as u128,
    }
}

fn name_of(pattern: &String, dim: &Option<Dimension>, i: u32) -> (name: Vec<char>)
    requires
        labels_match(dimension_view(*dim)),
        i < instance_count(dimension_view(*dim)),
    ensures
        name@ == instance_name(pattern@, dimension_view(*dim), i as int),
{
    let chars = chars_of(pattern.as_str());
    match dim {
        Some(d) => {
            let label: Vec<char> = match &d.labels {
                Some(l) => {
                    assert(texts(l@)[i as int] == l@[i as int]@);
                    chars_of(l[i as usize].as_str())
                },
                None => {
                    let mut digits: Vec<char> = Vec::new();
                    push_decimal(&mut digits, i as u128);
                    assert(digits@ =~= decimal(i as nat));
                    digits
                },
            };
            substitute_label(&chars, &label)
        },
        None => chars,
    }
}

/// Expands a register that stands at `base` within its peripheral and
/// whose name is prefixed by `prefix`.
fn expand_register_at(r: &Register, prefix: &Vec<char>, base: u128) -> (out: Result<
    Vec<Register>,
    CompileError,
>)
    requires
        base <= 0x2_0000_0000_0000_0000,
    ensures
        registers_outcome(out) == expanded_register(r@, prefix@, base as int),
{
    if !labels_fit(&r.dim) {
        return Err(CompileError::at(ErrorKind::DimensionMismatch, &r.name));
    }
    let n: u32 = count_of(&r.dim);
    if n > 0 && base + offset_of(r.offset, &r.dim, n - 1) > u64::MAX as u128 {
        return Err(CompileError::at(ErrorKind::MalformedDescription, &r.name));
    }
    let ghost want = Seq::new(n as nat, |i: int| register_instance(r@, prefix@, base as int, i));
    let mut out: Vec<Register> = Vec::new();
    let mut i: u32 = 0;
    assert(views(out@) =~= want.take(0));
    while i < n
        invariant
            i <= n,
            n == instance_count(dimension_view(r.dim)),
            labels_match(dimension_view(r.dim)),
            base <= 0x2_0000_0000_0000_0000,
            n > 0 ==> base + instance_offset(r.offset as int, dimension_view(r.dim), n - 1)
                <= u64::MAX,
            want == Seq::new(n as nat, |i: int| register_instance(r@, prefix@, base as int, i)),
            views(out@) == want.take(i as int),
        decreases n - i,
    {
        let at: u128 = base + offset_of(r.offset, &r.dim, i);
        proof {
            let d = dimension_view(r.dim);
            assert(instance_offset(r.offset as int, d, i as int) <= instance_offset(
                r.offset as int,
                d,
                n - 1,
            )) by (nonlinear_arith)
                requires
                    i <= n - 1,
                    d matches Some(dd) ==> instance_offset(r.offset as int, d, i as int)
                        == r.offset + i * dd.stride && instance_offset(r.offset as int, d, n - 1)
                        == r.offset + (n - 1) * dd.stride && dd.stride >= 0,
                    d is None ==> instance_offset(r.offset as int, d, i as int) == r.offset
                        && instance_offset(r.offset as int, d, n - 1) == r.offset,
            ;
        }
        let mut name: Vec<char> = Vec::new();
        let mut j: usize = 0;
        while j < prefix.len()
            invariant
                j <= prefix.len(),
                name@ == prefix@.take(j as int),
            decreases prefix.len() - j,
        {
            name.push(prefix[j]);
            j = j + 1;
            assert(name@ =~= prefix@.take(j as int));
        }
        assert(prefix@.take(prefix.len() as int) =~= prefix@);
        let mut own = name_of(&r.name, &r.dim, i);
        name.append(&mut own);
        let instance = Register {
            name: string_of(&name),
            offset: at as u64,
            width: r.width,
            access: r.access,
            reset: r.reset,
            fields: copy_fields(&r.fields),
            dim: None,
            alias: r.alias,
        };
        proof {
            assert(instance@ == register_instance(r@, prefix@, base as int, i as int));
            lemma_views_push(out@, instance);
        }
        out.push(instance);
        i = i + 1;
        assert(views(out@) =~= want.take(i as int));
    }
    assert(want.take(n as int) =~= want);
    Ok(out)
}

/// Expands a register of a peripheral into the single registers that it
/// stands for.
pub fn expand_register(r: &Register) -> (out: Result<Vec<Register>, CompileError>)
    ensures
        registers_outcome(out) == expanded_register(r@, Seq::empty(), 0),
{
    let prefix: Vec<char> = Vec::new();
    expand_register_at(r, &prefix, 0)
}

fn expand_cluster_instance(c: &Cluster, k: u32) -> (out: Result<Vec<Register>, CompileError>)
    requires
        labels_match(dimension_view(c.dim)),
        k < instance_count(dimension_view(c.dim)),
    ensures
        registers_outcome(out) == instance_expander(c@)(k as int),
{
    let mut prefix = name_of(&c.name, &c.dim, k);
    prefix.push('_');
    let base = offset_of(c.offset, &c.dim, k);
    let ghost g = child_expander(c@, k as int);
    let ghost rs = views(c.registers@);
    let mut out: Vec<Register> = Vec::new();
    let mut j: usize = 0;
    proof {
        assert(rs.take(0) =~= Seq::<RegisterView>::empty());
        assert(views(out@) =~= Seq::<RegisterView>::empty());
    }
    while j < c.registers.len()
        invariant
            j <= c.registers.len(),
            rs == views(c.registers@),
            g == child_expander(c@, k as int),
            prefix@ == instance_name(c@.name, c@.dim, k as int).push('_'),
            base == instance_offset(c.offset as int, c@.dim, k as int),
            base <= 0x2_0000_0000_0000_0000,
            try_flat_map(rs.take(j as int), g) == Ok::<Seq<RegisterView>, CompileErrorView>(
                views(out@),
            ),
        decreases c.registers.len() - j,
    {
        proof {
            lemma_try_flat_map_step(rs, g, j as int);
            assert(rs[j as int] == c.registers@[j as int]@);
            assert(g(rs[j as int]) == expanded_register(rs[j as int], prefix@, base as int));
        }
        match expand_register_at(&c.registers[j], &prefix, base) {
            Err(e) => {
                proof {
                    lemma_try_flat_map_err(rs, g, j + 1);
                }
                return Err(e);
            },
            Ok(mut more) => {
                proof {
                    lemma_views_add(out@, more@);
                }
                out.append(&mut more);
            },
        }
        j = j + 1;
    }
    assert(rs.take(c.registers.len() as int) =~= rs);
    Ok(out)
}

/// Expands a cluster into the single registers that it stands for.
pub fn expand_cluster(c: &Cluster) -> (out: Result<Vec<Register>, CompileError>)
    ensures
        registers_outcome(out) == expanded_cluster(c@),
{
    if !labels_fit(&c.dim) {
        return Err(CompileError::at(ErrorKind::DimensionMismatch, &c.name));
    }
    let n: u32 = count_of(&c.dim);
    let ghost f = instance_expander(c@);
    let ghost ks = indices(n as nat);
    let mut out: Vec<Register> = Vec::new();
    let mut k: u32 = 0;
    proof {
        assert(ks.take(0) =~= Seq::<int>::empty());
        assert(views(out@) =~= Seq::<RegisterView>::empty());
    }
    while k < n
        invariant
            k <= n,
            n == instance_count(dimension_view(c.dim)),
            labels_match(dimension_view(c.dim)),
            f == instance_expander(c@),
            ks == indices(n as nat),
            try_flat_map(ks.take(k as int), f) == Ok::<Seq<RegisterView>, CompileErrorView>(
                views(out@),
            ),
        decreases n - k,
    {
        proof {
            lemma_try_flat_map_step(ks, f, k as int);
            assert(ks[k as int] == k);
        }
        match expand_cluster_instance(c, k) {
            Err(e) => {
                proof {
                    lemma_try_flat_map_err(ks, f, k + 1);
                }
                return Err(e.within(&c.name));
            },
            Ok(mut more) => {
                proof {
                    lemma_views_add(out@, more@);
                }
                out.append(&mut more);
            },
        }
        k = k + 1;
    }
    assert(ks.take(n as int) =~= ks);
    Ok(out)
}

/// Expands the entries of a peripheral into single registers, in declared
/// order.
pub fn expand_entries(entries: &Vec<Entry>) -> (out: Result<Vec<Register>, CompileError>)
    ensures
        registers_outcome(out) == expanded(views(entries@)),
{
    let ghost f = entry_expander();
    let ghost es = views(entries@);
    let mut out: Vec<Register> = Vec::new();
    let mut i: usize = 0;
    proof {
        assert(es.take(0) =~= Seq::<EntryView>::empty());
        assert(views(out@) =~= Seq::<RegisterView>::empty());
    }
    while i < entries.len()
        invariant
            i <= entries.len(),
            f == entry_expander(),
            es == views(entries@),
            try_flat_map(es.take(i as int), f) == Ok::<Seq<RegisterView>, CompileErrorView>(
                views(out@),
            ),
        decreases entries.len() - i,
    {
        proof {
            lemma_try_flat_map_step(es, f, i as int);
            assert(es[i as int] == entries@[i as int]@);
            assert(f(es[i as int]) == expanded_entry(es[i as int]));
        }
        let step = match &entries[i] {
            Entry::Register(r) => expand_register(r),
            Entry::Cluster(c) => expand_cluster(c),
        };
        match step {
            Err(e) => {
                proof {
                    lemma_try_flat_map_err(es, f, i + 1);
                }
                return Err(e);
            },
            Ok(mut more) => {
                proof {
                    lemma_views_add(out@, more@);
                }
                out.append(&mut more);
            },
        }
        i = i + 1;
    }
    assert(es.take(entries.len() as int) =~= es);
    Ok(out)
}

/// A repeated register becomes as many registers as its count says, at
/// addresses one stride apart, named by the pattern and the labels.
pub proof fn lemma_expanded_register(r: RegisterView, i: int)
    requires
        r.dim is Some,
        expanded_register(r, Seq::empty(), 0) is Ok,
        0 <= i < r.dim->Some_0.count,
    ensures
        ({
            let d = r.dim->Some_0;
            let out = expanded_register(r, Seq::empty(), 0)->Ok_0;
            &&& out.len() == d.count
            &&& out[i].offset == r.offset + i * d.stride
            &&& out[i].name == substitute(r.name, instance_label(d, i))
            &&& out[i].dim is None
            &&& out[i].fields == r.fields
            &&& out[i].width == r.width
        }),
{
    let d = r.dim->Some_0;
    let n = d.count as int;
    assert(Seq::<char>::empty() + instance_name(r.name, r.dim, i) =~= instance_name(
        r.name,
        r.dim,
        i,
    ));
    assert(r.offset + i * d.stride <= r.offset + (n - 1) * d.stride) by (nonlinear_arith)
        requires
            0 <= i <= n - 1,
            d.stride >= 0,
    ;
    assert(0 <= i * d.stride) by (nonlinear_arith)
        requires
            0 <= i,
            d.stride >= 0,
    ;
}

/// An entry that is not repeated passes through unchanged.
pub proof fn lemma_single_register_unchanged(r: RegisterView)
    requires
        r.dim is None,
    ensures
        expanded_register(r, Seq::empty(), 0) == Ok::<Seq<RegisterView>, CompileErrorView>(
            seq![r],
        ),
{
    let out = Seq::new(1, |i: int| register_instance(r, Seq::empty(), 0, i));
    assert(Seq::<char>::empty() + r.name =~= r.name);
    assert(out[0] == r);
    assert(out =~= seq![r]);
}

} // verus!
