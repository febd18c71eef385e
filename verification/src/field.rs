//! Compiles a bit field: its mask, its access mode, and a mapping from
//! every raw value the hardware can report to a symbolic variant.

use crate::bits::{
    extract_bits, extracted, field_mask, insert_bits, inserted, lemma_insert_extract, mask_of,
};
use crate::counting::{lemma_distinct_bounded, lemma_distinct_covers, lemma_pigeonhole};
use crate::error::{error_at, CompileError, CompileErrorView, ErrorKind};
use crate::model::{
    lemma_views_push, views, Access, EnumeratedValue, EnumeratedValueView, Field, FieldView,
};
use vstd::arithmetic::power2::{lemma2_to64, lemma_pow2_strictly_increases, pow2};
use vstd::bits::lemma_u64_shl_is_mul;
use vstd::prelude::*;

verus! {

/// A named raw value of a field.
#[derive(Clone, Debug, PartialEq, Eq)]
pub struct Variant {
    pub name: String,
    pub value: u64,
}

/// The mathematical value of a `Variant`.
pub struct VariantView {
    pub name: Seq<char>,
    pub value: u64,
}

impl View for Variant {
    type V = VariantView;

    open spec fn view(&self) -> VariantView {
        VariantView { name: self.name@, value: self.value }
    }
}

/// What stands for the raw values that no variant names.
#[derive(Clone, Debug, PartialEq, Eq)]
pub enum Fallback {
    /// The variants name every raw value of the field.
    Unneeded,
    /// The description names a catch-all value.
    Declared(String),
    /// A variant that carries the raw bits is added.
    Synthesized,
}

/// The mathematical value of a `Fallback`.
pub enum FallbackView {
    Unneeded,
    Declared(Seq<char>),
    Synthesized,
}

impl View for Fallback {
    type V = FallbackView;

    open spec fn view(&self) -> FallbackView {
        match self {
            Fallback::Unneeded => FallbackView::Unneeded,
            Fallback::Declared(name) => FallbackView::Declared(name@),
            Fallback::Synthesized => FallbackView::Synthesized,
        }
    }
}

/// The symbolic values of a field.
#[derive(Clone, Debug, PartialEq, Eq)]
pub struct Enumeration {
    pub variants: Vec<Variant>,
    pub fallback: Fallback,
}

/// The mathematical value of an `Enumeration`.
pub struct EnumerationView {
    pub variants: Seq<VariantView>,
    pub fallback: FallbackView,
}

impl View for Enumeration {
    type V = EnumerationView;

    open spec fn view(&self) -> EnumerationView {
        EnumerationView { variants: views(self.variants@), fallback: self.fallback@ }
    }
}

/// What a raw value of a field decodes to.
#[derive(Clone, Copy, Debug, PartialEq, Eq, Structural)]
pub enum Decoded {
    /// The variant at this position names the value.
    Named(usize),
    /// The declared catch-all stands for the value.
    Default,
    /// No variant names the value; it is carried as it is.
    Unspecified(u64),
}

/// What a raw value decodes to, with the variant's position as a
/// mathematical integer.
pub enum DecodedView {
    Named(int),
    Default,
    Unspecified(u64),
}

impl View for Decoded {
    type V = DecodedView;

    open spec fn view(&self) -> DecodedView {
        match self {
            Decoded::Named(i) => DecodedView::Named(*i as int),
            Decoded::Default => DecodedView::Default,
            Decoded::Unspecified(raw) => DecodedView::Unspecified(*raw),
        }
    }
}

/// The raw value can be held in `width` bits.
pub open spec fn fits(value: u64, width: u32) -> bool {
    value < pow2(width as nat)
}

/// Some variant names the raw value.
pub open spec fn names_value(variants: Seq<VariantView>, raw: u64) -> bool {
    exists|i: int| 0 <= i < variants.len() && (#[trigger] variants[i]).value == raw
}

/// The variants name every raw value of `width` bits.
pub open spec fn exhaustive(variants: Seq<VariantView>, width: u32) -> bool {
    forall|raw: u64| fits(raw, width) ==> #[trigger] names_value(variants, raw)
}

/// No two variants name the same raw value.
pub open spec fn distinct_values(variants: Seq<VariantView>) -> bool {
    forall|i: int, j: int|
        0 <= i < j < variants.len() ==> (#[trigger] variants[i]).value != (
        #[trigger] variants[j]).value
}

impl EnumerationView {
    /// Every raw value of `width` bits decodes: to a variant, or to the
    /// fallback.
    pub open spec fn total(self, width: u32) -> bool {
        self.fallback is Unneeded ==> exhaustive(self.variants, width)
    }

    /// The variants name different raw values, each of `width` bits.
    pub open spec fn wf(self, width: u32) -> bool {
        &&& distinct_values(self.variants)
        &&& forall|i: int|
            0 <= i < self.variants.len() ==> fits((#[trigger] self.variants[i]).value, width)
        &&& self.total(width)
    }

    /// What the raw value decodes to.
    pub open spec fn decode(self, raw: u64) -> DecodedView {
        if names_value(self.variants, raw) {
            DecodedView::Named(
                choose|i: int|
                    0 <= i < self.variants.len() && (#[trigger] self.variants[i]).value == raw,
            )
        } else if self.fallback is Declared {
            DecodedView::Default
        } else {
            DecodedView::Unspecified(raw)
        }
    }
}

/// The values of a description that carry a raw value, as variants, in
/// declared order.
pub open spec fn named_values(values: Seq<EnumeratedValueView>) -> Seq<VariantView>
    decreases values.len(),
{
    if values.len() == 0 {
        Seq::empty()
    } else {
        let before = named_values(values.drop_last());
        let v = values.last();
        if v.is_default {
            before
        } else {
            before.push(VariantView { name: v.name, value: v.value })
        }
    }
}

/// The name of the last value marked as the catch-all, if any is.
pub open spec fn default_name(values: Seq<EnumeratedValueView>) -> Option<Seq<char>>
    decreases values.len(),
{
    if values.len() == 0 {
        None
    } else if values.last().is_default {
        Some(values.last().name)
    } else {
        default_name(values.drop_last())
    }
}

/// What is wrong with the value `v`, declared after the values `before`:
/// a second catch-all, a raw value too large for the field, or a raw
/// value named before.
pub open spec fn value_fault(before: Seq<EnumeratedValueView>, v: EnumeratedValueView, width: u32)
    -> Option<ErrorKind> {
    if v.is_default {
        if default_name(before) is Some {
            Some(ErrorKind::MalformedDescription)
        } else {
            None
        }
    } else if !fits(v.value, width) {
        Some(ErrorKind::MalformedDescription)
    } else if names_value(named_values(before), v.value) {
        Some(ErrorKind::DuplicateEnumValue)
    } else {
        None
    }
}

/// The first value, in declared order, with which something is wrong, and
/// what.
pub open spec fn first_value_fault(values: Seq<EnumeratedValueView>, width: u32) -> Option<
    (int, ErrorKind),
>
    decreases values.len(),
{
    if values.len() == 0 {
        None
    } else {
        match first_value_fault(values.drop_last(), width) {
            Some(f) => Some(f),
            None => match value_fault(values.drop_last(), values.last(), width) {
                Some(kind) => Some((values.len() - 1, kind)),
                None => None,
            },
        }
    }
}

/// The fallback of a field with the given values.
pub open spec fn fallback_of(values: Seq<EnumeratedValueView>, width: u32) -> FallbackView {
    match default_name(values) {
        Some(name) => FallbackView::Declared(name),
        None => if exhaustive(named_values(values), width) {
            FallbackView::Unneeded
        } else {
            FallbackView::Synthesized
        },
    }
}

/// The enumeration of a field with the given values: none where the
/// description names no value at all.
pub open spec fn enumeration_of(values: Seq<EnumeratedValueView>, width: u32) -> Option<
    EnumerationView,
> {
    if values.len() == 0 {
        None
    } else {
        Some(
            EnumerationView {
                variants: named_values(values),
                fallback: fallback_of(values, width),
            },
        )
    }
}

/// A variant names a raw value exactly if the description gives that raw
/// value a name.
pub proof fn lemma_named_values(values: Seq<EnumeratedValueView>, raw: u64)
    ensures
        names_value(named_values(values), raw) <==> exists|i: int|
            0 <= i < values.len() && !(#[trigger] values[i]).is_default && values[i].value == raw,
        named_values(values).len() <= values.len(),
    decreases values.len(),
{
    if values.len() > 0 {
        let before = values.drop_last();
        let v = values.last();
        lemma_named_values(before, raw);
        let nb = named_values(before);
        let nv = named_values(values);
        if names_value(nv, raw) {
            let i = choose|i: int| 0 <= i < nv.len() && (#[trigger] nv[i]).value == raw;
            if i < nb.len() {
                assert(nb[i].value == raw);
                assert(names_value(nb, raw));
                let k = choose|k: int|
                    0 <= k < before.len() && !(#[trigger] before[k]).is_default && before[k].value
                        == raw;
                assert(values[k] == before[k]);
            } else {
                assert(!values[values.len() - 1].is_default);
            }
        }
        if exists|i: int|
            0 <= i < values.len() && !(#[trigger] values[i]).is_default && values[i].value == raw {
            let i = choose|i: int|
                0 <= i < values.len() && !(#[trigger] values[i]).is_default && values[i].value
                    == raw;
            if i < before.len() {
                assert(before[i] == values[i]);
                assert(names_value(nb, raw));
                let k = choose|k: int| 0 <= k < nb.len() && (#[trigger] nb[k]).value == raw;
                assert(nv[k] == nb[k]);
            } else {
                assert(nv[nv.len() - 1].value == raw);
            }
        }
    }
}

/// Where nothing is wrong with the values, the variants name different
/// raw values that all fit the field.
pub proof fn lemma_faultless_values(values: Seq<EnumeratedValueView>, width: u32)
    requires
        first_value_fault(values, width) is None,
    ensures
        distinct_values(named_values(values)),
        forall|i: int|
            0 <= i < named_values(values).len() ==> fits(
                (#[trigger] named_values(values)[i]).value,
                width,
            ),
    decreases values.len(),
{
    if values.len() > 0 {
        let before = values.drop_last();
        let v = values.last();
        lemma_faultless_values(before, width);
        let nb = named_values(before);
        let nv = named_values(values);
        if !v.is_default {
            assert forall|i: int, j: int| 0 <= i < j < nv.len() implies (#[trigger] nv[i]).value
                != (#[trigger] nv[j]).value by {
                if j < nb.len() {
                    assert(nb[i].value != nb[j].value);
                } else {
                    assert(nv[i] == nb[i]);
                    if nb[i].value == v.value {
                        assert(names_value(nb, v.value));
                    }
                }
            }
            assert forall|i: int| 0 <= i < nv.len() implies fits((#[trigger] nv[i]).value, width) by {
                if i < nb.len() {
                    assert(nv[i] == nb[i]);
                }
            }
        }
    }
}

/// Variants with different raw values that all fit `width` bits name every
/// raw value exactly if there are `2^width` of them.
pub proof fn lemma_exhaustive_count(variants: Seq<VariantView>, width: u32)
    requires
        width <= 64,
        distinct_values(variants),
        forall|i: int| 0 <= i < variants.len() ==> fits((#[trigger] variants[i]).value, width),
    ensures
        variants.len() <= pow2(width as nat),
        exhaustive(variants, width) <==> variants.len() == pow2(width as nat),
{
    let n = pow2(width as nat) as int;
    let s = Seq::new(variants.len(), |i: int| variants[i].value as int);
    assert forall|i: int, j: int| 0 <= i < s.len() && 0 <= j < s.len() && i != j implies s[i]
        != s[j] by {
        if i < j {
            assert(variants[i].value != variants[j].value);
        } else {
            assert(variants[j].value != variants[i].value);
        }
    }
    assert forall|i: int| 0 <= i < s.len() implies 0 <= #[trigger] s[i] < n by {
        assert(fits(variants[i].value, width));
    }
    lemma_distinct_bounded(s, n);
    if variants.len() == n {
        assert forall|raw: u64| fits(raw, width) implies #[trigger] names_value(variants, raw) by {
            lemma_distinct_covers(s, n, raw as int);
            let i = s.index_of(raw as int);
            assert(s[i] == raw);
            assert(variants[i].value == raw);
        }
    }
    if exhaustive(variants, width) {
        lemma2_to64();
        if width < 64 {
            lemma_pow2_strictly_increases(width as nat, 64);
        }
        assert(n <= 0x1_0000_0000_0000_0000);
        // Send each raw value to the position of a variant that names it:
        // different raw values go to different positions.
        let f = |raw: int|
            choose|i: int| 0 <= i < variants.len() && (#[trigger] variants[i]).value as int == raw;
        assert forall|raw: int| 0 <= raw < n implies 0 <= #[trigger] f(raw) < variants.len()
            && variants[f(raw)].value as int == raw by {
            let r = raw as u64;
            assert(fits(r, width));
            assert(names_value(variants, r));
            let i = choose|i: int| 0 <= i < variants.len() && (#[trigger] variants[i]).value == r;
            assert(variants[i].value as int == raw);
        }
        assert forall|a: int, b: int| 0 <= a < b < n implies #[trigger] f(a) != #[trigger] f(b) by {
            assert(variants[f(a)].value as int == a);
            assert(variants[f(b)].value as int == b);
        }
        lemma_pigeonhole(f, n, variants.len() as int);
    }
}

/// A fault found in a prefix of the values is the first fault of all of
/// them.
pub proof fn lemma_fault_prefix(values: Seq<EnumeratedValueView>, width: u32, n: int)
    requires
        0 <= n <= values.len(),
        first_value_fault(values.take(n), width) is Some,
    ensures
        first_value_fault(values, width) == first_value_fault(values.take(n), width),
    decreases values.len() - n,
{
    if n < values.len() {
        assert(values.take(n + 1).drop_last() =~= values.take(n));
        lemma_fault_prefix(values, width, n + 1);
    } else {
        assert(values.take(n) =~= values);
    }
}

/// The view of an enumeration that may be absent.
pub open spec fn enumeration_view(e: Option<Enumeration>) -> Option<EnumerationView> {
    match e {
        Some(e) => Some(e@),
        None => None,
    }
}

fn value_fits(value: u64, width: u32) -> (b: bool)
    requires
        width <= 64,
    ensures
        b == fits(value, width),
{
    proof {
        lemma2_to64();
    }
    if width >= 64 {
        true
    } else {
        proof {
            lemma_pow2_strictly_increases(width as nat, 64);
            lemma_u64_shl_is_mul(1u64, width as u64);
        }
        value < (1u64 << (width as u64))
    }
}

fn has_value(variants: &Vec<Variant>, raw: u64) -> (found: Option<usize>)
    ensures
        match found {
            Some(i) => i < variants.len() && variants@[i as int].value == raw && forall|j: int|
                0 <= j < i ==> variants@[j].value != raw,
            None => !names_value(views(variants@), raw),
        },
{
    let mut i: usize = 0;
    while i < variants.len()
        invariant
            i <= variants.len(),
            forall|j: int| 0 <= j < i ==> variants@[j].value != raw,
        decreases variants.len() - i,
    {
        if variants[i].value == raw {
            return Some(i);
        }
        i = i + 1;
    }
    assert forall|j: int| 0 <= j < views(variants@).len() implies (#[trigger] views(
        variants@,
    )[j]).value != raw by {
        assert(variants@[j].value != raw);
    }
    None
}

/// Builds the enumeration of a field from the values that the description
/// names, or reports the first value with which something is wrong.
pub fn compile_values(values: &Vec<EnumeratedValue>, width: u32) -> (out: Result<
    Option<Enumeration>,
    (usize, ErrorKind),
>)
    requires
        width <= 64,
    ensures
        match out {
            Ok(e) => first_value_fault(views(values@), width) is None && enumeration_view(e)
                == enumeration_of(views(values@), width),
            Err((j, kind)) => first_value_fault(views(values@), width) == Some((j as int, kind)),
        },
        out matches Ok(Some(e)) ==> e@.wf(width),
{
    let ghost vs = views(values@);
    let mut variants: Vec<Variant> = Vec::new();
    let mut default: Option<String> = None;
    let mut i: usize = 0;
    proof {
        assert(vs.take(0) =~= Seq::<EnumeratedValueView>::empty());
        assert(views(variants@) =~= Seq::<VariantView>::empty());
    }
    while i < values.len()
        invariant
            i <= values.len(),
            width <= 64,
            vs == views(values@),
            first_value_fault(vs.take(i as int), width) is None,
            views(variants@) == named_values(vs.take(i as int)),
            match default {
                Some(name) => default_name(vs.take(i as int)) == Some(name@),
                None => default_name(vs.take(i as int)) is None,
            },
        decreases values.len() - i,
    {
        let v = &values[i];
        let ghost before = vs.take(i as int);
        proof {
            assert(vs.take(i + 1).drop_last() =~= before);
            assert(vs.take(i + 1).last() == v@);
        }
        if v.is_default {
            if default.is_some() {
                proof {
                    lemma_fault_prefix(vs, width, i + 1);
                }
                return Err((i, ErrorKind::MalformedDescription));
            }
            default = Some(v.name.clone());
        } else if !value_fits(v.value, width) {
            proof {
                lemma_fault_prefix(vs, width, i + 1);
            }
            return Err((i, ErrorKind::MalformedDescription));
        } else if let Some(k) = has_value(&variants, v.value) {
            proof {
                assert(views(variants@)[k as int].value == v.value);
                lemma_fault_prefix(vs, width, i + 1);
            }
            return Err((i, ErrorKind::DuplicateEnumValue));
        } else {
            let variant = Variant { name: v.name.clone(), value: v.value };
            proof {
                lemma_views_push(variants@, variant);
            }
            variants.push(variant);
        }
        i = i + 1;
    }
    proof {
        assert(vs.take(values.len() as int) =~= vs);
        lemma_faultless_values(vs, width);
        lemma_exhaustive_count(named_values(vs), width);
        lemma2_to64();
    }
    if values.len() == 0 {
        return Ok(None);
    }
    let mut full: bool = false;
    if width < 64 {
        proof {
            lemma_pow2_strictly_increases(width as nat, 64);
            lemma_u64_shl_is_mul(1u64, width as u64);
        }
        full = variants.len() as u64 == (1u64 << (width as u64));
    }
    assert(views(variants@).len() == variants.len());
    assert(full == exhaustive(named_values(vs), width));
    let fallback = match default {
        Some(name) => Fallback::Declared(name),
        None => if full {
            Fallback::Unneeded
        } else {
            Fallback::Synthesized
        },
    };
    assert(fallback@ == fallback_of(vs, width));
    Ok(Some(Enumeration { variants, fallback }))
}

impl Enumeration {
    /// Decodes a raw value: to the variant that names it, else to the
    /// fallback.
    pub fn decode(&self, raw: u64) -> (d: Decoded)
        requires
            distinct_values(self@.variants),
            names_value(self@.variants, raw) || !(self@.fallback is Unneeded),
        ensures
            d@ == self@.decode(raw),
            d matches Decoded::Named(i) ==> i < self.variants.len() && self.variants[i as int].value
                == raw,
    {
        match has_value(&self.variants, raw) {
            Some(i) => {
                proof {
                    let vs = self@.variants;
                    assert(vs[i as int].value == raw);
                    let k = choose|k: int| 0 <= k < vs.len() && (#[trigger] vs[k]).value == raw;
                    if k < i {
                        assert(vs[k].value != vs[i as int].value);
                    } else if i < k {
                        assert(vs[i as int].value != vs[k].value);
                    }
                }
                Decoded::Named(i)
            },
            None => match &self.fallback {
                Fallback::Declared(_) => Decoded::Default,
                _ => Decoded::Unspecified(raw),
            },
        }
    }
}

/// A compiled field: where its bits are, how they may be accessed, and
/// what their values mean.
#[derive(Clone, Debug, PartialEq, Eq)]
pub struct CompiledField {
    pub name: String,
    pub offset: u32,
    pub width: u32,
    pub mask: u64,
    pub access: Access,
    pub enumeration: Option<Enumeration>,
}

/// The mathematical value of a `CompiledField`.
pub struct CompiledFieldView {
    pub name: Seq<char>,
    pub offset: u32,
    pub width: u32,
    pub mask: u64,
    pub access: Access,
    pub enumeration: Option<EnumerationView>,
}

impl View for CompiledField {
    type V = CompiledFieldView;

    open spec fn view(&self) -> CompiledFieldView {
        CompiledFieldView {
            name: self.name@,
            offset: self.offset,
            width: self.width,
            mask: self.mask,
            access: self.access,
            enumeration: enumeration_view(self.enumeration),
        }
    }
}

impl CompiledFieldView {
    /// The field has at least one bit, lies within 64 bits, carries the
    /// mask of its bits, and its enumeration decodes every raw value.
    pub open spec fn wf(self) -> bool {
        &&& 1 <= self.width
        &&& self.offset + self.width <= 64
        &&& self.mask == mask_of(self.offset as nat, self.width as nat)
        &&& self.enumeration matches Some(e) ==> e.wf(self.width)
    }
}

/// The access mode of an entity that may state one of its own.
pub open spec fn resolved_access(own: Option<Access>, inherited: Access) -> Access {
    match own {
        Some(a) => a,
        None => inherited,
    }
}

/// The access mode of an entity: its own where it states one, else the
/// one it inherits.
pub fn resolve_access(own: Option<Access>, inherited: Access) -> (a: Access)
    ensures
        a == resolved_access(own, inherited),
{
    match own {
        Some(a) => a,
        None => inherited,
    }
}

/// What compiling a field of a register of `register_width` bits gives.
/// A field without bits, or in a register of more than 64 bits, is
/// malformed; a field that reaches beyond its register is out of bounds;
/// then the first fault among its values decides.
pub open spec fn compiled_field(f: FieldView, register_width: u32, inherited: Access) -> Result<
    CompiledFieldView,
    CompileErrorView,
> {
    if f.width == 0 || register_width > 64 {
        Err(error_at(ErrorKind::MalformedDescription, f.name))
    } else if f.offset + f.width > register_width {
        Err(error_at(ErrorKind::FieldOutOfBounds, f.name))
    } else {
        match first_value_fault(f.values, f.width) {
            Some((j, kind)) => Err(error_at(kind, f.values[j].name).within(f.name)),
            None => Ok(
                CompiledFieldView {
                    name: f.name,
                    offset: f.offset,
                    width: f.width,
                    mask: mask_of(f.offset as nat, f.width as nat) as u64,
                    access: resolved_access(f.access, inherited),
                    enumeration: enumeration_of(f.values, f.width),
                },
            ),
        }
    }
}

/// The view of the outcome of compiling a field.
pub open spec fn field_outcome(out: Result<CompiledField, CompileError>) -> Result<
    CompiledFieldView,
    CompileErrorView,
> {
    match out {
        Ok(f) => Ok(f@),
        Err(e) => Err(e@),
    }
}

/// Compiles a field of a register of `register_width` bits whose access
/// mode is `inherited`.
pub fn compile_field(field: &Field, register_width: u32, inherited: Access) -> (out: Result<
    CompiledField,
    CompileError,
>)
    ensures
        field_outcome(out) == compiled_field(field@, register_width, inherited),
        out matches Ok(f) ==> f@.wf() && f.offset + f.width <= register_width,
{
    if field.width == 0 || register_width > 64 {
        return Err(CompileError::at(ErrorKind::MalformedDescription, &field.name));
    }
    if field.width > register_width || field.offset > register_width - field.width {
        return Err(CompileError::at(ErrorKind::FieldOutOfBounds, &field.name));
    }
    match compile_values(&field.values, field.width) {
        Err((j, kind)) => {
            proof {
                lemma_first_fault_index(field@.values, field.width);
            }
            Err(CompileError::at(kind, &field.values[j].name).within(&field.name))
        },
        Ok(enumeration) => {
            let mask = field_mask(field.offset, field.width);
            Ok(
                CompiledField {
                    name: field.name.clone(),
                    offset: field.offset,
                    width: field.width,
                    mask,
                    access: resolve_access(field.access, inherited),
                    enumeration,
                },
            )
        },
    }
}

/// The first fault is at a position of the list.
pub proof fn lemma_first_fault_index(values: Seq<EnumeratedValueView>, width: u32)
    ensures
        first_value_fault(values, width) matches Some((j, kind)) ==> 0 <= j < values.len(),
    decreases values.len(),
{
    if values.len() > 0 {
        lemma_first_fault_index(values.drop_last(), width);
    }
}

impl CompiledField {
    /// Decodes a raw value of the field; `None` where the field has no
    /// enumeration.
    pub fn decode(&self, raw: u64) -> (d: Option<Decoded>)
        requires
            self@.wf(),
            fits(raw, self.width),
        ensures
            match d {
                Some(d) => self@.enumeration matches Some(e) && d@ == e.decode(raw),
                None => self@.enumeration is None,
            },
    {
        match &self.enumeration {
            Some(e) => Some(e.decode(raw)),
            None => None,
        }
    }
}

/// Every raw value that fits a compiled field decodes: a variant names
/// it, or the field's enumeration has a catch-all, declared or added.
pub proof fn lemma_decode_total(f: FieldView, register_width: u32, inherited: Access, raw: u64)
    requires
        compiled_field(f, register_width, inherited) is Ok,
        f.values.len() > 0,
        fits(raw, f.width),
    ensures
        ({
            let c = compiled_field(f, register_width, inherited)->Ok_0;
            let e = c.enumeration->Some_0;
            &&& c.enumeration is Some
            &&& e.wf(f.width)
            &&& match e.decode(raw) {
                DecodedView::Named(i) => 0 <= i < e.variants.len() && e.variants[i].value == raw,
                DecodedView::Default => e.fallback is Declared && !names_value(e.variants, raw),
                DecodedView::Unspecified(r) => r == raw && e.fallback is Synthesized
                    && !names_value(e.variants, raw),
            }
        }),
{
    lemma_faultless_values(f.values, f.width);
    lemma_exhaustive_count(named_values(f.values), f.width);
    let e = enumeration_of(f.values, f.width)->Some_0;
}


/// A compiled field is well formed: it lies within its register, so that
/// a field as wide as the register starts at bit 0, and its mask is
/// `(2^width - 1) * 2^offset`.
pub proof fn lemma_compiled_field(f: FieldView, register_width: u32, inherited: Access)
    requires
        compiled_field(f, register_width, inherited) is Ok,
    ensures
        ({
            let c = compiled_field(f, register_width, inherited)->Ok_0;
            &&& c.wf()
            &&& c.offset == f.offset && c.width == f.width && c.name == f.name
            &&& c.offset + c.width <= register_width
            &&& c.width == register_width ==> c.offset == 0
            &&& c.mask == (pow2(c.width as nat) - 1) * pow2(c.offset as nat)
            &&& c.access == resolved_access(f.access, inherited)
        }),
{
    crate::bits::lemma_mask_fits(f.offset as nat, f.width as nat);
    lemma_faultless_values(f.values, f.width);
    lemma_exhaustive_count(named_values(f.values), f.width);
}


impl CompiledField {
    /// The value of the field in a value read from its register.
    pub fn read(&self, word: u64) -> (raw: u64)
        requires
            self@.wf(),
        ensures
            raw == extracted(word, self.offset, self.mask),
            fits(raw, self.width),
    {
        proof {
            vstd::arithmetic::power2::lemma_pow2_pos(self.width as nat);
            lemma_insert_extract(word, self.offset, self.width, 0);
        }
        extract_bits(word, self.offset, self.mask)
    }

    /// The value to write to the register so that the field holds `raw`
    /// and every other bit is as in `word`. `None` where `raw` does not fit
    /// the field.
    pub fn write(&self, word: u64, raw: u64) -> (out: Option<u64>)
        requires
            self@.wf(),
        ensures
            out is Some <==> fits(raw, self.width),
            out matches Some(w) ==> w == inserted(word, self.offset, self.mask, raw) && extracted(
                w,
                self.offset,
                self.mask,
            ) == raw && w & !self.mask == word & !self.mask,
    {
        if !value_fits(raw, self.width) {
            return None;
        }
        proof {
            lemma_insert_extract(word, self.offset, self.width, raw);
        }
        Some(insert_bits(word, self.offset, self.mask, raw))
    }
}

} // verus!
