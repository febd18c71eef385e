//! Compiles a register: its fields, the check that no two of them share a
//! bit, and the operations that its access mode allows.

use crate::error::{error_at, error_between, CompileError, CompileErrorView, ErrorKind};
use crate::fallible::{lemma_try_map_err, lemma_try_map_ok, lemma_try_map_step, try_map};
use crate::field::{
    compile_field, compiled_field, resolve_access, resolved_access, CompiledField,
    CompiledFieldView,
};
use crate::model::{lemma_views_push, views, Access, Field, FieldView, Register, RegisterView};
use crate::bits::{
    extracted, inserted, lemma_insert_extract, lemma_insert_keeps_others, lemma_mask_fits,
};
use crate::field::{fits, lemma_compiled_field};
use crate::span::{
    conflict, conflict_free, find_conflict, first_conflict, intersect, lemma_first_conflict,
    pair_before, Span,
};
use vstd::prelude::*;

verus! {

/// A compiled register.
#[derive(Clone, Debug, PartialEq, Eq)]
pub struct CompiledRegister {
    pub name: String,
    /// The address relative to the peripheral's base.
    pub offset: u64,
    pub width: u32,
    pub access: Access,
    pub reset: u64,
    pub fields: Vec<CompiledField>,
    pub alias: bool,
}

/// The mathematical value of a `CompiledRegister`.
pub struct CompiledRegisterView {
    pub name: Seq<char>,
    pub offset: u64,
    pub width: u32,
    pub access: Access,
    pub reset: u64,
    pub fields: Seq<CompiledFieldView>,
    pub alias: bool,
}

impl View for CompiledRegister {
    type V = CompiledRegisterView;

    open spec fn view(&self) -> CompiledRegisterView {
        CompiledRegisterView {
            name: self.name@,
            offset: self.offset,
            width: self.width,
            access: self.access,
            reset: self.reset,
            fields: views(self.fields@),
            alias: self.alias,
        }
    }
}

/// The bits that a field takes in its register.
pub open spec fn bits_of(offset: u32, width: u32) -> Span {
    Span { start: offset as u128, size: width as u128, shared: false }
}

/// The bit ranges of the fields of a description, in declared order.
pub open spec fn field_spans(fields: Seq<FieldView>) -> Seq<Span> {
    Seq::new(fields.len(), |i: int| bits_of(fields[i].offset, fields[i].width))
}

impl CompiledRegisterView {
    /// The register has 1 to 64 bits, its fields are well formed and lie
    /// within it, and no two fields share a bit.
    pub open spec fn wf(self) -> bool {
        &&& 1 <= self.width <= 64
        &&& forall|i: int|
            0 <= i < self.fields.len() ==> (#[trigger] self.fields[i]).wf() && self.fields[i].offset
                + self.fields[i].width <= self.width
        &&& forall|i: int, j: int|
            0 <= i < j < self.fields.len() ==> !intersect(
                bits_of((#[trigger] self.fields[i]).offset, self.fields[i].width),
                bits_of((#[trigger] self.fields[j]).offset, self.fields[j].width),
            )
    }

    /// A type of the register's value as read is generated.
    pub open spec fn readable(self) -> bool {
        self.access != Access::WriteOnly
    }

    /// A proxy for writing the register is generated.
    pub open spec fn writable(self) -> bool {
        self.access != Access::ReadOnly
    }

    /// A read-modify-write operation is generated.
    pub open spec fn modifiable(self) -> bool {
        self.access == Access::ReadWrite
    }
}

impl CompiledRegister {
    /// Whether software may read the register.
    pub fn readable(&self) -> (b: bool)
        ensures
            b == self@.readable(),
            b == (self.access == Access::ReadOnly || self.access == Access::ReadWrite),
    {
        match self.access {
            Access::WriteOnly => false,
            _ => true,
        }
    }

    /// Whether software may write the register.
    pub fn writable(&self) -> (b: bool)
        ensures
            b == self@.writable(),
            b == (self.access == Access::WriteOnly || self.access == Access::ReadWrite),
    {
        match self.access {
            Access::ReadOnly => false,
            _ => true,
        }
    }

    /// Whether software may update single fields of the register, reading
    /// it and writing it back.
    pub fn modifiable(&self) -> (b: bool)
        ensures
            b == self@.modifiable(),
            b == (self@.readable() && self@.writable()),
    {
        match self.access {
            Access::ReadWrite => true,
            _ => false,
        }
    }
}

/// The compiler of the fields of a register of `width` bits whose access
/// mode is `access`.
pub open spec fn field_compiler(width: u32, access: Access) -> spec_fn(FieldView) -> Result<
    CompiledFieldView,
    CompileErrorView,
> {
    |f: FieldView| compiled_field(f, width, access)
}

/// What compiling a register gives. The register must be a single one: a
/// repeated register is expanded first. Its fields are compiled in declared
/// order; then the first two fields that share a bit are reported.
pub open spec fn compiled_register(r: RegisterView, inherited: Access) -> Result<
    CompiledRegisterView,
    CompileErrorView,
> {
    if r.width == 0 || r.width > 64 || r.dim is Some {
        Err(error_at(ErrorKind::MalformedDescription, r.name))
    } else {
        let access = resolved_access(r.access, inherited);
        match try_map(r.fields, field_compiler(r.width, access)) {
            Err(e) => Err(e.within(r.name)),
            Ok(fields) => match first_conflict(field_spans(r.fields)) {
                Some((i, j)) => Err(
                    error_between(ErrorKind::FieldOverlap, r.fields[i].name, r.fields[j].name).within(
                        r.name,
                    ),
                ),
                None => Ok(
                    CompiledRegisterView {
                        name: r.name,
                        offset: r.offset,
                        width: r.width,
                        access,
                        reset: r.reset,
                        fields,
                        alias: r.alias,
                    },
                ),
            },
        }
    }
}

/// The view of the outcome of compiling a register.
pub open spec fn register_outcome(out: Result<CompiledRegister, CompileError>) -> Result<
    CompiledRegisterView,
    CompileErrorView,
> {
    match out {
        Ok(r) => Ok(r@),
        Err(e) => Err(e@),
    }
}

fn spans_of_fields(fields: &Vec<Field>) -> (spans: Vec<Span>)
    ensures
        spans@ == field_spans(views(fields@)),
{
    let mut spans: Vec<Span> = Vec::new();
    let mut i: usize = 0;
    while i < fields.len()
        invariant
            i <= fields.len(),
            spans@ == field_spans(views(fields@)).take(i as int),
        decreases fields.len() - i,
    {
        spans.push(
            Span { start: fields[i].offset as u128, size: fields[i].width as u128, shared: false },
        );
        i = i + 1;
        assert(spans@ =~= field_spans(views(fields@)).take(i as int));
    }
    assert(field_spans(views(fields@)).take(fields.len() as int) =~= field_spans(views(fields@)));
    spans
}

/// Compiles a single register whose peripheral gives it the access mode
/// `inherited` where it states none.
pub fn compile_register(register: &Register, inherited: Access) -> (out: Result<
    CompiledRegister,
    CompileError,
>)
    ensures
        register_outcome(out) == compiled_register(register@, inherited),
        out matches Ok(r) ==> r@.wf(),
{
    if register.width == 0 || register.width > 64 || register.dim.is_some() {
        return Err(CompileError::at(ErrorKind::MalformedDescription, &register.name));
    }
    let access = resolve_access(register.access, inherited);
    let ghost fs = views(register.fields@);
    let ghost f = field_compiler(register.width, access);
    let mut fields: Vec<CompiledField> = Vec::new();
    let mut i: usize = 0;
    proof {
        assert(fs.take(0) =~= Seq::<FieldView>::empty());
        assert(views(fields@) =~= Seq::<CompiledFieldView>::empty());
    }
    while i < register.fields.len()
        invariant
            i <= register.fields.len(),
            1 <= register.width <= 64,
            register.dim is None,
            access == resolved_access(register.access, inherited),
            fs == views(register.fields@),
            f == field_compiler(register.width, access),
            try_map(fs.take(i as int), f) == Ok::<Seq<CompiledFieldView>, CompileErrorView>(
                views(fields@),
            ),
            forall|k: int|
                0 <= k < fields.len() ==> (#[trigger] fields@[k])@.wf() && fields@[k].offset
                    + fields@[k].width <= register.width,
        decreases register.fields.len() - i,
    {
        proof {
            lemma_try_map_step(fs, f, i as int);
            assert(fs[i as int] == register.fields@[i as int]@);
            assert(f(fs[i as int]) == compiled_field(fs[i as int], register.width, access));
        }
        match compile_field(&register.fields[i], register.width, access) {
            Err(e) => {
                proof {
                    lemma_try_map_err(fs, f, i + 1);
                }
                return Err(e.within(&register.name));
            },
            Ok(field) => {
                proof {
                    lemma_views_push(fields@, field);
                }
                fields.push(field);
            },
        }
        i = i + 1;
    }
    proof {
        assert(fs.take(register.fields.len() as int) =~= fs);
        lemma_try_map_ok(fs, f);
    }
    let spans = spans_of_fields(&register.fields);
    assert forall|k: int| 0 <= k < spans.len() implies (#[trigger] spans@[k]).fits() by {
        assert(spans@[k] == bits_of(fs[k].offset, fs[k].width));
    }
    match find_conflict(&spans) {
        Some((a, b)) => Err(
            CompileError::between(
                ErrorKind::FieldOverlap,
                &register.fields[a].name,
                &register.fields[b].name,
            ).within(&register.name),
        ),
        None => {
            let out = CompiledRegister {
                name: register.name.clone(),
                offset: register.offset,
                width: register.width,
                access,
                reset: register.reset,
                fields,
                alias: register.alias,
            };
            proof {
                let cs = out@.fields;
                assert forall|a: int| 0 <= a < cs.len() implies (#[trigger] cs[a]).wf() && cs[a].offset
                    + cs[a].width <= out@.width by {
                    assert(out.fields@[a]@.wf());
                }
                assert forall|a: int, b: int| 0 <= a < b < cs.len() implies !intersect(
                    bits_of((#[trigger] cs[a]).offset, cs[a].width),
                    bits_of((#[trigger] cs[b]).offset, cs[b].width),
                ) by {
                    assert(f(fs[a]) == Ok::<CompiledFieldView, CompileErrorView>(cs[a]));
                    assert(f(fs[b]) == Ok::<CompiledFieldView, CompileErrorView>(cs[b]));
                    assert(f(fs[a]) == compiled_field(fs[a], register.width, access));
                    assert(f(fs[b]) == compiled_field(fs[b], register.width, access));
                    assert(conflict_free(spans@));
                    assert(!conflict(spans@[a], spans@[b]));
                    assert(spans@[a] == bits_of(fs[a].offset, fs[a].width));
                    assert(spans@[b] == bits_of(fs[b].offset, fs[b].width));
                }
            }
            Ok(out)
        },
    }
}


/// A compiled register is well formed: no two of its fields share a bit,
/// and each lies within the register.
pub proof fn lemma_compiled_register(r: RegisterView, inherited: Access)
    requires
        compiled_register(r, inherited) is Ok,
    ensures
        ({
            let c = compiled_register(r, inherited)->Ok_0;
            &&& c.wf()
            &&& c.fields.len() == r.fields.len()
            &&& c.name == r.name && c.offset == r.offset && c.width == r.width
            &&& c.access == resolved_access(r.access, inherited)
        }),
{
    let access = resolved_access(r.access, inherited);
    let f = field_compiler(r.width, access);
    let c = compiled_register(r, inherited)->Ok_0;
    lemma_try_map_ok(r.fields, f);
    lemma_first_conflict(field_spans(r.fields));
    assert forall|i: int| 0 <= i < c.fields.len() implies (#[trigger] c.fields[i]).wf()
        && c.fields[i].offset + c.fields[i].width <= c.width by {
        assert(f(r.fields[i]) == compiled_field(r.fields[i], r.width, access));
        lemma_compiled_field(r.fields[i], r.width, access);
    }
    assert forall|i: int, j: int| 0 <= i < j < c.fields.len() implies !intersect(
        bits_of((#[trigger] c.fields[i]).offset, c.fields[i].width),
        bits_of((#[trigger] c.fields[j]).offset, c.fields[j].width),
    ) by {
        assert(f(r.fields[i]) == compiled_field(r.fields[i], r.width, access));
        assert(f(r.fields[j]) == compiled_field(r.fields[j], r.width, access));
        lemma_compiled_field(r.fields[i], r.width, access);
        lemma_compiled_field(r.fields[j], r.width, access);
        let spans = field_spans(r.fields);
        assert(!conflict(spans[i], spans[j]));
    }
}

/// Two fields that share a bit make the compilation of their register
/// fail: where every field compiles by itself, the error is `FieldOverlap`
/// and names the register and the first two fields in conflict.
pub proof fn lemma_field_overlap_detected(r: RegisterView, inherited: Access, i: int, j: int)
    requires
        1 <= r.width <= 64,
        r.dim is None,
        try_map(r.fields, field_compiler(r.width, resolved_access(r.access, inherited))) is Ok,
        0 <= i < j < r.fields.len(),
        intersect(
            bits_of(r.fields[i].offset, r.fields[i].width),
            bits_of(r.fields[j].offset, r.fields[j].width),
        ),
    ensures
        ({
            let out = compiled_register(r, inherited);
            &&& out is Err
            &&& out->Err_0.kind == ErrorKind::FieldOverlap
            &&& exists|a: int, b: int|
                0 <= a < b < r.fields.len() && b <= j && out->Err_0.path == seq![
                    r.name,
                    r.fields[a].name,
                    r.fields[b].name,
                ]
        }),
{
    let spans = field_spans(r.fields);
    assert(conflict(spans[i], spans[j]));
    lemma_first_conflict(spans);
    let (a, b) = first_conflict(spans)->Some_0;
    if j < b {
        assert(pair_before(i, j, a, b));
    }
    let e = error_between(ErrorKind::FieldOverlap, r.fields[a].name, r.fields[b].name).within(
        r.name,
    );
    assert(e.path =~= seq![r.name, r.fields[a].name, r.fields[b].name]);
}


/// A new value for one field of a register.
#[derive(Clone, Copy, Debug, PartialEq, Eq, Structural)]
pub struct FieldUpdate {
    /// The position of the field among the register's fields.
    pub field: usize,
    /// The raw value that the field is to hold.
    pub value: u64,
}

impl CompiledRegisterView {
    /// The update names a field of the register that may be written, and
    /// its value fits the field.
    pub open spec fn accepts(self, u: FieldUpdate) -> bool {
        &&& u.field < self.fields.len()
        &&& self.fields[u.field as int].access != Access::ReadOnly
        &&& fits(u.value, self.fields[u.field as int].width)
    }

    /// The value of the register after the updates, applied in order to
    /// the value `word`.
    pub open spec fn updated(self, word: u64, updates: Seq<FieldUpdate>) -> u64
        decreases updates.len(),
    {
        if updates.len() == 0 {
            word
        } else {
            let before = self.updated(word, updates.drop_last());
            let u = updates.last();
            let f = self.fields[u.field as int];
            inserted(before, f.offset, f.mask, u.value)
        }
    }
}

impl CompiledRegister {
    /// The value to write back to the register, given the value read from
    /// it and the updates of its fields: all updates are applied to the one
    /// value read, in order. `None` where the register cannot be both read
    /// and written, or where an update is not accepted.
    pub fn modify(&self, current: u64, updates: &Vec<FieldUpdate>) -> (out: Option<u64>)
        requires
            self@.wf(),
        ensures
            out is Some <==> self@.modifiable() && forall|i: int|
                0 <= i < updates.len() ==> self@.accepts(#[trigger] updates@[i]),
            out matches Some(w) ==> w == self@.updated(current, updates@),
    {
        if !self.modifiable() {
            return None;
        }
        let mut word: u64 = current;
        let mut i: usize = 0;
        assert(updates@.take(0) =~= Seq::<FieldUpdate>::empty());
        while i < updates.len()
            invariant
                i <= updates.len(),
                self@.wf(),
                self@.modifiable(),
                word == self@.updated(current, updates@.take(i as int)),
                forall|k: int| 0 <= k < i ==> self@.accepts(#[trigger] updates@[k]),
            decreases updates.len() - i,
        {
            let u = updates[i];
            if u.field >= self.fields.len() {
                assert(!self@.accepts(updates@[i as int]));
                return None;
            }
            let f = &self.fields[u.field];
            proof {
                assert(self@.fields[u.field as int] == f@);
                assert(f@.wf());
                assert(updates@.take(i + 1).drop_last() =~= updates@.take(i as int));
                assert(updates@.take(i + 1).last() == u);
            }
            match f.access {
                Access::ReadOnly => {
                    assert(!self@.accepts(updates@[i as int]));
                    return None;
                },
                _ => {},
            }
            match f.write(word, u.value) {
                None => {
                    assert(!self@.accepts(updates@[i as int]));
                    return None;
                },
                Some(w) => {
                    word = w;
                },
            }
            i = i + 1;
        }
        assert(updates@.take(updates.len() as int) =~= updates@);
        Some(word)
    }
}

/// In a well-formed register, an update of one field is read back from
/// that field and leaves the value of every other field as it was.
pub proof fn lemma_update_is_local(r: CompiledRegisterView, word: u64, u: FieldUpdate, other: int)
    requires
        r.wf(),
        r.accepts(u),
        0 <= other < r.fields.len(),
    ensures
        ({
            let after = r.updated(word, seq![u]);
            let f = r.fields[u.field as int];
            let g = r.fields[other];
            &&& extracted(after, f.offset, f.mask) == u.value
            &&& other != u.field ==> extracted(after, g.offset, g.mask) == extracted(
                word,
                g.offset,
                g.mask,
            )
        }),
{
    let f = r.fields[u.field as int];
    let g = r.fields[other];
    let ups = seq![u];
    assert(ups.drop_last() =~= Seq::<FieldUpdate>::empty());
    assert(r.updated(word, ups.drop_last()) == word);
    assert(r.updated(word, ups) == inserted(word, f.offset, f.mask, u.value));
    assert(f.wf() && g.wf());
    lemma_mask_fits(f.offset as nat, f.width as nat);
    lemma_mask_fits(g.offset as nat, g.width as nat);
    lemma_insert_extract(word, f.offset, f.width, u.value);
    if other != u.field {
        if other < u.field {
            assert(!intersect(bits_of(g.offset, g.width), bits_of(f.offset, f.width)));
        } else {
            assert(!intersect(bits_of(f.offset, f.width), bits_of(g.offset, g.width)));
        }
        lemma_insert_keeps_others(word, f.offset, f.width, u.value, g.offset, g.width);
    }
}

} // verus!
