//! Turns names taken from a device description into valid identifiers that
//! follow a naming convention and are unique within their scope.

use crate::counting::lemma_pigeonhole;
use crate::text::{
    chars_of, decimal, lemma_decimal_digits, lemma_decimal_injective, lemma_decimal_len,
    push_decimal, same_chars, string_of, texts,
};
use vstd::prelude::*;
use vstd::string::*;

verus! {

/// The letter case that a kind of declaration is written in.
#[derive(Clone, Copy, Debug, PartialEq, Eq, Structural)]
pub enum Convention {
    /// Lower case words joined by underscores: modules, accessors.
    Snake,
    /// Capitalised words without separators: types, variants.
    Pascal,
    /// Upper case words joined by underscores: constants, handlers.
    Constant,
}

/// What `inflections::case::to_snake_case` returns for a string.
pub uninterp spec fn snake_case_of(s: Seq<char>) -> Seq<char>;

/// What `inflections::case::to_pascal_case` returns for a string.
pub uninterp spec fn pascal_case_of(s: Seq<char>) -> Seq<char>;

/// What `inflections::case::to_constant_case` returns for a string.
pub uninterp spec fn constant_case_of(s: Seq<char>) -> Seq<char>;

/// Calls `inflections::case::to_snake_case`. The result depends on the
/// characters of the argument alone; nothing else is claimed of it.
#[verifier::external_body]
fn to_snake_case(s: &str) -> (out: String)
    ensures
        out@ == snake_case_of(s@),
{
    inflections::case::to_snake_case(s)
}

/// Calls `inflections::case::to_pascal_case`. The result depends on the
/// characters of the argument alone; nothing else is claimed of it.
#[verifier::external_body]
fn to_pascal_case(s: &str) -> (out: String)
    ensures
        out@ == pascal_case_of(s@),
{
    inflections::case::to_pascal_case(s)
}

/// Calls `inflections::case::to_constant_case`. The result depends on the
/// characters of the argument alone; nothing else is claimed of it.
#[verifier::external_body]
fn to_constant_case(s: &str) -> (out: String)
    ensures
        out@ == constant_case_of(s@),
{
    inflections::case::to_constant_case(s)
}

/// The name rewritten in the letter case of the convention.
pub open spec fn cased(convention: Convention, name: Seq<char>) -> Seq<char> {
    match convention {
        Convention::Snake => snake_case_of(name),
        Convention::Pascal => pascal_case_of(name),
        Convention::Constant => constant_case_of(name),
    }
}

/// Rewrites a name in the letter case of the convention.
pub fn apply_case(convention: Convention, name: &str) -> (out: String)
    ensures
        out@ == cased(convention, name@),
{
    match convention {
        Convention::Snake => to_snake_case(name),
        Convention::Pascal => to_pascal_case(name),
        Convention::Constant => to_constant_case(name),
    }
}

/// An ASCII letter.
pub open spec fn is_letter(c: char) -> bool {
    ('a' <= c && c <= 'z') || ('A' <= c && c <= 'Z')
}

/// An ASCII decimal digit.
pub open spec fn is_digit(c: char) -> bool {
    '0' <= c && c <= '9'
}

/// A character that may stand inside an identifier.
pub open spec fn is_ident_char(c: char) -> bool {
    is_letter(c) || is_digit(c) || c == '_'
}

/// The words that cannot be used as identifiers, and the lone underscore.
pub open spec fn reserved_words() -> Seq<Seq<char>> {
    seq![
        "_"@,
        "abstract"@,
        "as"@,
        "async"@,
        "await"@,
        "become"@,
        "box"@,
        "break"@,
        "const"@,
        "continue"@,
        "crate"@,
        "do"@,
        "dyn"@,
        "else"@,
        "enum"@,
        "extern"@,
        "false"@,
        "final"@,
        "fn"@,
        "for"@,
        "if"@,
        "impl"@,
        "in"@,
        "let"@,
        "loop"@,
        "macro"@,
        "match"@,
        "mod"@,
        "move"@,
        "mut"@,
        "override"@,
        "priv"@,
        "pub"@,
        "ref"@,
        "return"@,
        "self"@,
        "Self"@,
        "static"@,
        "struct"@,
        "super"@,
        "trait"@,
        "true"@,
        "try"@,
        "type"@,
        "typeof"@,
        "unsafe"@,
        "unsized"@,
        "use"@,
        "virtual"@,
        "where"@,
        "while"@,
        "yield"@,
    ]
}

/// Whether a name is one of the reserved words.
pub open spec fn is_reserved(name: Seq<char>) -> bool {
    reserved_words().contains(name)
}

/// A valid identifier: not empty, made of letters, digits and underscores,
/// not starting with a digit, and not reserved.
pub open spec fn is_identifier(name: Seq<char>) -> bool {
    &&& name.len() > 0
    &&& !is_digit(name[0])
    &&& forall|i: int| 0 <= i < name.len() ==> is_ident_char(#[trigger] name[i])
    &&& !is_reserved(name)
}

fn ident_char(c: char) -> (b: bool)
    ensures
        b == is_ident_char(c),
{
    ('a' <= c && c <= 'z') || ('A' <= c && c <= 'Z') || ('0' <= c && c <= '9') || c == '_'
}

fn reserved_list() -> (words: Vec<&'static str>)
    ensures
        words@.len() == reserved_words().len(),
        forall|i: int| 0 <= i < words@.len() ==> (#[trigger] words@[i])@ == reserved_words()[i],
{
    vec![
        "_", "abstract", "as", "async", "await", "become", "box", "break", "const", "continue",
        "crate", "do", "dyn", "else", "enum", "extern", "false", "final", "fn", "for", "if",
        "impl", "in", "let", "loop", "macro", "match", "mod", "move", "mut", "override", "priv",
        "pub", "ref", "return", "self", "Self", "static", "struct", "super", "trait", "true",
        "try", "type", "typeof", "unsafe", "unsized", "use", "virtual", "where", "while", "yield",
    ]
}

/// Tells whether a name is a reserved word.
pub fn is_reserved_name(name: &Vec<char>) -> (b: bool)
    ensures
        b == is_reserved(name@),
{
    let words = reserved_list();
    let mut i: usize = 0;
    while i < words.len()
        invariant
            i <= words.len(),
            words@.len() == reserved_words().len(),
            forall|j: int| 0 <= j < words@.len() ==> (#[trigger] words@[j])@ == reserved_words()[j],
            forall|j: int| 0 <= j < i ==> reserved_words()[j] != name@,
        decreases words.len() - i,
    {
        let word = chars_of(words[i]);
        if same_chars(&word, name) {
            assert(reserved_words()[i as int] == name@);
            return true;
        }
        i = i + 1;
    }
    false
}

/// A reserved word is not empty, and one of two or more characters ends in
/// a letter.
pub proof fn lemma_reserved_shape(word: Seq<char>)
    requires
        is_reserved(word),
    ensures
        word.len() >= 1,
        word.len() >= 2 ==> is_letter(word.last()),
{
    reveal_strlit("_");
    reveal_strlit("abstract");
    reveal_strlit("as");
    reveal_strlit("async");
    reveal_strlit("await");
    reveal_strlit("become");
    reveal_strlit("box");
    reveal_strlit("break");
    reveal_strlit("const");
    reveal_strlit("continue");
    reveal_strlit("crate");
    reveal_strlit("do");
    reveal_strlit("dyn");
    reveal_strlit("else");
    reveal_strlit("enum");
    reveal_strlit("extern");
    reveal_strlit("false");
    reveal_strlit("final");
    reveal_strlit("fn");
    reveal_strlit("for");
    reveal_strlit("if");
    reveal_strlit("impl");
    reveal_strlit("in");
    reveal_strlit("let");
    reveal_strlit("loop");
    reveal_strlit("macro");
    reveal_strlit("match");
    reveal_strlit("mod");
    reveal_strlit("move");
    reveal_strlit("mut");
    reveal_strlit("override");
    reveal_strlit("priv");
    reveal_strlit("pub");
    reveal_strlit("ref");
    reveal_strlit("return");
    reveal_strlit("self");
    reveal_strlit("Self");
    reveal_strlit("static");
    reveal_strlit("struct");
    reveal_strlit("super");
    reveal_strlit("trait");
    reveal_strlit("true");
    reveal_strlit("try");
    reveal_strlit("type");
    reveal_strlit("typeof");
    reveal_strlit("unsafe");
    reveal_strlit("unsized");
    reveal_strlit("use");
    reveal_strlit("virtual");
    reveal_strlit("where");
    reveal_strlit("while");
    reveal_strlit("yield");
    let i = choose|i: int| 0 <= i < reserved_words().len() && reserved_words()[i] == word;
    assert(0 <= i < 52);
}

/// The name without the characters that cannot stand in an identifier.
pub open spec fn kept(name: Seq<char>) -> Seq<char> {
    name.filter(|c: char| is_ident_char(c))
}

/// The name made into an identifier: characters that cannot stand in one
/// are dropped, a leading underscore is put before a digit or an empty
/// name, and a reserved word gets an underscore appended.
pub open spec fn sanitized(name: Seq<char>) -> Seq<char> {
    let k = kept(name);
    let led = if k.len() == 0 || is_digit(k[0]) {
        seq!['_'] + k
    } else {
        k
    };
    if is_reserved(led) {
        led.push('_')
    } else {
        led
    }
}

/// Whatever the name, its sanitized form is a valid identifier.
pub proof fn lemma_sanitized_is_identifier(name: Seq<char>)
    ensures
        is_identifier(sanitized(name)),
{
    let k = kept(name);
    let led = if k.len() == 0 || is_digit(k[0]) {
        seq!['_'] + k
    } else {
        k
    };
    assert forall|i: int| 0 <= i < k.len() implies is_ident_char(#[trigger] k[i]) by {
        name.lemma_filter_pred(|c: char| is_ident_char(c), i);
    }
    assert(led.len() > 0);
    assert(!is_digit(led[0]));
    assert forall|i: int| 0 <= i < led.len() implies is_ident_char(#[trigger] led[i]) by {
        if k.len() == 0 || is_digit(k[0]) {
            if i > 0 {
                assert(led[i] == k[i - 1]);
            }
        }
    }
    if is_reserved(led) {
        let out = led.push('_');
        assert(out[0] == led[0]);
        assert forall|i: int| 0 <= i < out.len() implies is_ident_char(#[trigger] out[i]) by {
            if i < led.len() {
                assert(out[i] == led[i]);
            }
        }
        lemma_reserved_shape(led);
        if is_reserved(out) {
            lemma_reserved_shape(out);
            assert(out.last() == '_');
        }
    }
}

/// Makes an identifier of a name that is already in the right letter case.
pub fn sanitize(name: &Vec<char>) -> (out: Vec<char>)
    ensures
        out@ == sanitized(name@),
        is_identifier(out@),
{
    let ghost pred = |c: char| is_ident_char(c);
    let mut k: Vec<char> = Vec::new();
    let mut i: usize = 0;
    proof {
        reveal(Seq::filter);
        assert(name@.take(0) =~= Seq::<char>::empty());
    }
    while i < name.len()
        invariant
            i <= name.len(),
            pred == (|c: char| is_ident_char(c)),
            k@ == name@.take(i as int).filter(pred),
        decreases name.len() - i,
    {
        proof {
            reveal(Seq::filter);
            assert(name@.take(i + 1).drop_last() =~= name@.take(i as int));
            assert(name@.take(i + 1).last() == name@[i as int]);
        }
        if ident_char(name[i]) {
            k.push(name[i]);
        }
        i = i + 1;
    }
    assert(name@.take(name.len() as int) =~= name@);
    assert(k@ == kept(name@));
    let mut led: Vec<char> = Vec::new();
    if k.len() == 0 || ('0' <= k[0] && k[0] <= '9') {
        led.push('_');
    }
    let ghost head = led@;
    let mut j: usize = 0;
    while j < k.len()
        invariant
            j <= k.len(),
            led@ == head + k@.take(j as int),
        decreases k.len() - j,
    {
        led.push(k[j]);
        j = j + 1;
        assert(led@ =~= head + k@.take(j as int));
    }
    assert(k@.take(k.len() as int) =~= k@);
    assert(led@ =~= (if k@.len() == 0 || is_digit(k@[0]) {
        seq!['_'] + k@
    } else {
        k@
    }));
    if is_reserved_name(&led) {
        led.push('_');
    }
    proof {
        lemma_sanitized_is_identifier(name@);
    }
    led
}

/// The identifier that a name is given before uniqueness is considered.
pub open spec fn normalized(convention: Convention, name: Seq<char>) -> Seq<char> {
    sanitized(cased(convention, name))
}

fn normalized_chars(convention: Convention, name: &str) -> (out: Vec<char>)
    ensures
        out@ == normalized(convention, name@),
        is_identifier(out@),
{
    let c = apply_case(convention, name);
    let chars = chars_of(c.as_str());
    sanitize(&chars)
}

/// Rewrites a name in the convention's letter case and makes it a valid
/// identifier.
pub fn normalize(convention: Convention, name: &str) -> (out: String)
    ensures
        out@ == normalized(convention, name@),
        is_identifier(out@),
{
    string_of(&normalized_chars(convention, name))
}

/// The `k`-th spelling tried for a base name: the name itself first, then
/// the name with `_2`, `_3`, and so on appended.
pub open spec fn candidate(base: Seq<char>, k: nat) -> Seq<char> {
    if k <= 1 {
        base
    } else {
        base.push('_') + decimal(k)
    }
}

/// `k` numbers the first spelling of `base` that is not taken yet.
pub open spec fn is_first_free(base: Seq<char>, taken: Seq<Seq<char>>, k: nat) -> bool {
    &&& k >= 1
    &&& !taken.contains(candidate(base, k))
    &&& forall|j: nat| 1 <= j < k ==> taken.contains(#[trigger] candidate(base, j))
}

/// The number of the first spelling of `base` that is not taken yet.
pub open spec fn first_free(base: Seq<char>, taken: Seq<Seq<char>>) -> nat {
    choose|k: nat| is_first_free(base, taken, k)
}

/// The name that `base` gets in a scope where `taken` are assigned already.
pub open spec fn unique_name(base: Seq<char>, taken: Seq<Seq<char>>) -> Seq<char> {
    candidate(base, first_free(base, taken))
}

/// Different numbers give different spellings.
pub proof fn lemma_candidate_injective(base: Seq<char>, j: nat, k: nat)
    requires
        j >= 1,
        k >= 1,
        candidate(base, j) == candidate(base, k),
    ensures
        j == k,
{
    lemma_decimal_len(j);
    lemma_decimal_len(k);
    let p = base.push('_');
    if j >= 2 && k >= 2 {
        assert((p + decimal(j)).skip(p.len() as int) =~= decimal(j));
        assert((p + decimal(k)).skip(p.len() as int) =~= decimal(k));
        lemma_decimal_injective(j, k);
    } else if j >= 2 {
        assert(candidate(base, j).len() > base.len());
    } else if k >= 2 {
        assert(candidate(base, k).len() > base.len());
    }
}

/// If the first `k` spellings are all taken, at least `k` names are taken.
pub proof fn lemma_taken_bound(base: Seq<char>, taken: Seq<Seq<char>>, k: nat)
    requires
        forall|j: nat| 1 <= j <= k ==> taken.contains(#[trigger] candidate(base, j)),
    ensures
        k <= taken.len(),
{
    let f = |i: int| taken.index_of(candidate(base, (i + 1) as nat));
    assert forall|i: int| 0 <= i < k implies 0 <= #[trigger] f(i) < taken.len() by {
        assert(taken.contains(candidate(base, (i + 1) as nat)));
    }
    assert forall|a: int, b: int| 0 <= a < b < k implies #[trigger] f(a) != #[trigger] f(b) by {
        assert(taken.contains(candidate(base, (a + 1) as nat)));
        assert(taken.contains(candidate(base, (b + 1) as nat)));
        if f(a) == f(b) {
            assert(taken[f(a)] == candidate(base, (a + 1) as nat));
            assert(taken[f(b)] == candidate(base, (b + 1) as nat));
            lemma_candidate_injective(base, (a + 1) as nat, (b + 1) as nat);
        }
    }
    lemma_pigeonhole(f, k as int, taken.len() as int);
}

/// Some spelling is free, and the first free one is among the first
/// `taken.len() + 1`.
pub proof fn lemma_first_free(base: Seq<char>, taken: Seq<Seq<char>>)
    ensures
        is_first_free(base, taken, first_free(base, taken)),
        first_free(base, taken) <= taken.len() + 1,
{
    lemma_first_free_from(base, taken, 1);
    let k = choose|k: nat| is_first_free(base, taken, k);
    assert(is_first_free(base, taken, k));
    if k > taken.len() + 1 {
        lemma_taken_bound(base, taken, (k - 1) as nat);
    }
}

proof fn lemma_first_free_from(base: Seq<char>, taken: Seq<Seq<char>>, k: nat)
    requires
        k >= 1,
        forall|j: nat| 1 <= j < k ==> taken.contains(#[trigger] candidate(base, j)),
    ensures
        exists|n: nat| is_first_free(base, taken, n),
    decreases taken.len() + 1 - k,
{
    if !taken.contains(candidate(base, k)) {
        assert(is_first_free(base, taken, k));
    } else {
        lemma_taken_bound(base, taken, k);
        lemma_first_free_from(base, taken, k + 1);
    }
}

/// Only one number is that of the first free spelling.
pub proof fn lemma_first_free_unique(base: Seq<char>, taken: Seq<Seq<char>>, k: nat)
    requires
        is_first_free(base, taken, k),
    ensures
        first_free(base, taken) == k,
{
    lemma_first_free(base, taken);
    let n = first_free(base, taken);
    if n < k {
        assert(taken.contains(candidate(base, n)));
    } else if k < n {
        assert(taken.contains(candidate(base, k)));
    }
}

/// A spelling of an identifier is an identifier too.
pub proof fn lemma_candidate_is_identifier(base: Seq<char>, k: nat)
    requires
        is_identifier(base),
    ensures
        is_identifier(candidate(base, k)),
{
    if k >= 2 {
        let out = candidate(base, k);
        let p = base.push('_');
        lemma_decimal_len(k);
        lemma_decimal_digits(k);
        assert(out[0] == base[0]);
        assert forall|i: int| 0 <= i < out.len() implies is_ident_char(#[trigger] out[i]) by {
            if i < base.len() {
                assert(out[i] == base[i]);
            } else if i == base.len() {
                assert(out[i] == '_');
            } else {
                assert(out[i] == decimal(k)[i - p.len()]);
            }
        }
        if is_reserved(out) {
            lemma_reserved_shape(out);
            assert(out.last() == decimal(k).last());
            assert(is_digit(out.last()));
        }
    }
}

/// The names assigned so far within one scope of a compilation.
pub struct Scope {
    names: Vec<String>,
}

impl View for Scope {
    type V = Seq<Seq<char>>;

    closed spec fn view(&self) -> Seq<Seq<char>> {
        texts(self.names@)
    }
}

impl Scope {
    /// No name occurs twice, and every name is a valid identifier.
    pub open spec fn wf(&self) -> bool {
        &&& self@.no_duplicates()
        &&& forall|i: int| 0 <= i < self@.len() ==> is_identifier(#[trigger] self@[i])
    }

    /// A scope in which no name is assigned yet.
    pub fn new() -> (scope: Scope)
        ensures
            scope@ == Seq::<Seq<char>>::empty(),
            scope.wf(),
    {
        let scope = Scope { names: Vec::new() };
        assert(scope@ =~= Seq::<Seq<char>>::empty());
        scope
    }

    /// The number of names assigned.
    pub fn len(&self) -> (n: usize)
        ensures
            n == self@.len(),
    {
        self.names.len()
    }

    /// Whether the identifier is assigned in this scope.
    pub fn contains(&self, name: &str) -> (found: bool)
        ensures
            found == self@.contains(name@),
    {
        let target = chars_of(name);
        self.holds(&target)
    }

    fn holds(&self, name: &Vec<char>) -> (found: bool)
        ensures
            found == self@.contains(name@),
    {
        let mut i: usize = 0;
        while i < self.names.len()
            invariant
                i <= self.names.len(),
                forall|j: int| 0 <= j < i ==> self@[j] != name@,
            decreases self.names.len() - i,
        {
            let other = chars_of(self.names[i].as_str());
            if same_chars(&other, name) {
                assert(self@[i as int] == name@);
                return true;
            }
            i = i + 1;
        }
        false
    }

    /// Assigns an identifier to a name of the description: the normalized
    /// name if it is free in this scope, else the first of its spellings
    /// with a numeric suffix that is.
    pub fn assign(&mut self, convention: Convention, name: &str) -> (out: String)
        requires
            old(self).wf(),
        ensures
            out@ == unique_name(normalized(convention, name@), old(self)@),
            final(self)@ == old(self)@.push(out@),
            final(self).wf(),
            is_identifier(out@),
            !old(self)@.contains(out@),
    {
        let base = normalized_chars(convention, name);
        let ghost taken = self@;
        let mut k: u128 = 1;
        let mut spelling: Vec<char> = copy_chars(&base);
        assert(spelling@ == candidate(base@, 1));
        assert(taken.len() == self.names.len());
        while self.holds(&spelling)
            invariant
                self@ == taken,
                1 <= k <= taken.len() + 1,
                taken.len() <= usize::MAX,
                spelling@ == candidate(base@, k as nat),
                forall|j: nat| 1 <= j < k ==> taken.contains(#[trigger] candidate(base@, j)),
            decreases taken.len() + 1 - k,
        {
            proof {
                lemma_taken_bound(base@, taken, k as nat);
            }
            k = k + 1;
            spelling = copy_chars(&base);
            spelling.push('_');
            push_decimal(&mut spelling, k);
        }
        proof {
            assert(is_first_free(base@, taken, k as nat));
            lemma_first_free_unique(base@, taken, k as nat);
            lemma_candidate_is_identifier(base@, k as nat);
        }
        let out = string_of(&spelling);
        self.names.push(string_of(&spelling));
        proof {
            assert(self@ =~= taken.push(out@));
            assert forall|i: int, j: int|
                0 <= i < self@.len() && 0 <= j < self@.len() && i != j implies self@[i]
                != self@[j] by {
                if i < taken.len() && j < taken.len() {
                    assert(taken[i] != taken[j]);
                } else if i < taken.len() {
                    assert(taken.contains(taken[i]));
                } else {
                    assert(taken.contains(taken[j]));
                }
            }
            assert forall|i: int| 0 <= i < self@.len() implies is_identifier(
                #[trigger] self@[i],
            ) by {
                if i < taken.len() {
                    assert(self@[i] == taken[i]);
                }
            }
        }
        out
    }
}

/// The identifiers given to the names of one scope, taken in declared order.
pub open spec fn assigned(convention: Convention, names: Seq<Seq<char>>) -> Seq<Seq<char>>
    decreases names.len(),
{
    if names.len() == 0 {
        Seq::empty()
    } else {
        let before = assigned(convention, names.drop_last());
        before.push(unique_name(normalized(convention, names.last()), before))
    }
}

/// Assigns identifiers to all names of one scope, in declared order.
pub fn assign_all(convention: Convention, names: &Vec<String>) -> (out: Vec<String>)
    ensures
        texts(out@) == assigned(convention, texts(names@)),
{
    let mut scope = Scope::new();
    let mut out: Vec<String> = Vec::new();
    let mut i: usize = 0;
    let ghost all = texts(names@);
    assert(all.take(0) =~= Seq::<Seq<char>>::empty());
    assert(texts(out@) =~= Seq::<Seq<char>>::empty());
    while i < names.len()
        invariant
            i <= names.len(),
            all == texts(names@),
            scope.wf(),
            scope@ == assigned(convention, all.take(i as int)),
            texts(out@) == scope@,
        decreases names.len() - i,
    {
        let ghost before = scope@;
        let name = scope.assign(convention, names[i].as_str());
        out.push(name);
        proof {
            assert(all.take(i + 1).drop_last() =~= all.take(i as int));
            assert(all.take(i + 1).last() == names@[i as int]@);
            assert(texts(out@) =~= before.push(name@));
        }
        i = i + 1;
    }
    assert(all.take(names.len() as int) =~= all);
    out
}

/// Every name gets an identifier; the identifiers of a scope are valid and
/// pairwise different.
pub proof fn lemma_assigned_distinct(convention: Convention, names: Seq<Seq<char>>)
    ensures
        assigned(convention, names).len() == names.len(),
        assigned(convention, names).no_duplicates(),
        forall|i: int|
            0 <= i < names.len() ==> is_identifier(#[trigger] assigned(convention, names)[i]),
    decreases names.len(),
{
    if names.len() > 0 {
        let before = assigned(convention, names.drop_last());
        lemma_assigned_distinct(convention, names.drop_last());
        let base = normalized(convention, names.last());
        lemma_sanitized_is_identifier(cased(convention, names.last()));
        lemma_first_free(base, before);
        lemma_candidate_is_identifier(base, first_free(base, before));
        let name = unique_name(base, before);
        let all = before.push(name);
        assert forall|i: int, j: int| 0 <= i < all.len() && 0 <= j < all.len() && i != j implies all[i]
            != all[j] by {
            if i < before.len() && j < before.len() {
                assert(before[i] != before[j]);
            } else if i < before.len() {
                assert(before.contains(before[i]));
            } else {
                assert(before.contains(before[j]));
            }
        }
        assert forall|i: int| 0 <= i < all.len() implies is_identifier(#[trigger] all[i]) by {
            if i < before.len() {
                assert(all[i] == before[i]);
            }
        }
    }
}

/// The identifier of a name depends only on the names declared up to it:
/// it is the first free spelling of its normalized form among the
/// identifiers of the names before it.
pub proof fn lemma_assigned_at(convention: Convention, names: Seq<Seq<char>>, i: int)
    requires
        0 <= i < names.len(),
    ensures
        assigned(convention, names).len() == names.len(),
        assigned(convention, names).take(i) == assigned(convention, names.take(i)),
        assigned(convention, names)[i] == unique_name(
            normalized(convention, names[i]),
            assigned(convention, names.take(i)),
        ),
    decreases names.len(),
{
    lemma_assigned_distinct(convention, names);
    lemma_assigned_distinct(convention, names.drop_last());
    let before = assigned(convention, names.drop_last());
    if i == names.len() - 1 {
        assert(names.take(i) =~= names.drop_last());
        assert(assigned(convention, names).take(i) =~= before);
    } else {
        lemma_assigned_at(convention, names.drop_last(), i);
        assert(names.drop_last().take(i) =~= names.take(i));
        assert(assigned(convention, names).take(i) =~= before.take(i));
    }
}

/// The first name of a scope that normalizes to a given identifier keeps
/// that identifier without a suffix.
pub proof fn lemma_first_keeps_base(convention: Convention, names: Seq<Seq<char>>, i: int)
    requires
        0 <= i < names.len(),
        !assigned(convention, names.take(i)).contains(normalized(convention, names[i])),
    ensures
        assigned(convention, names)[i] == normalized(convention, names[i]),
{
    lemma_assigned_at(convention, names, i);
    let base = normalized(convention, names[i]);
    let taken = assigned(convention, names.take(i));
    assert(is_first_free(base, taken, 1));
    lemma_first_free_unique(base, taken, 1);
}

/// A name whose normalized form is taken already gets a numeric suffix:
/// the smallest one, from 2 up, that makes it free.
pub proof fn lemma_collision_gets_suffix(convention: Convention, names: Seq<Seq<char>>, i: int)
    requires
        0 <= i < names.len(),
        assigned(convention, names.take(i)).contains(normalized(convention, names[i])),
    ensures
        ({
            let base = normalized(convention, names[i]);
            let taken = assigned(convention, names.take(i));
            let k = first_free(base, taken);
            &&& k >= 2
            &&& assigned(convention, names)[i] == base.push('_') + decimal(k)
            &&& !taken.contains(base.push('_') + decimal(k))
            &&& forall|j: nat| 2 <= j < k ==> taken.contains(#[trigger] (base.push('_') + decimal(j)))
        }),
{
    lemma_assigned_at(convention, names, i);
    let base = normalized(convention, names[i]);
    let taken = assigned(convention, names.take(i));
    lemma_first_free(base, taken);
    let k = first_free(base, taken);
    assert(candidate(base, 1) == base);
    assert forall|j: nat| 2 <= j < k implies taken.contains(
        #[trigger] (base.push('_') + decimal(j)),
    ) by {
        assert(taken.contains(candidate(base, j)));
    }
}

fn copy_chars(chars: &Vec<char>) -> (out: Vec<char>)
    ensures
        out@ == chars@,
{
    let mut out: Vec<char> = Vec::new();
    let mut i: usize = 0;
    while i < chars.len()
        invariant
            i <= chars.len(),
            out@ == chars@.take(i as int),
        decreases chars.len() - i,
    {
        out.push(chars[i]);
        i = i + 1;
        assert(out@ =~= chars@.take(i as int));
    }
    assert(chars@.take(chars.len() as int) =~= chars@);
    out
}

} // verus!
