use vstd::prelude::*;
use crate::ast::{members_of, ContainerKind, Field, MemberUnraw};
use crate::attr::{is_punct_view, token_view, tokens_view, TokenView};
use crate::generics::texts;
use crate::attr::{Binding, Display, Token, Trait, Wrap};
use crate::diag::{Error, ErrorKind};
use crate::text::{chars_of, decimal, push_char, push_chars, push_decimal};
use crate::unraw::{local_form, raw_prefix, same_ident, to_local, unraw, unraw_of};
use vstd::string::StringExecFns;

verus! {

pub open spec fn is_digit(c: char) -> bool {
    '0' <= c <= '9'
}

pub open spec fn is_ident_start(c: char) -> bool {
    ('a' <= c <= 'z') || ('A' <= c <= 'Z') || c == '_'
}

pub open spec fn is_ident_char(c: char) -> bool {
    is_ident_start(c) || is_digit(c)
}

/// The end of the run of digits that starts at `i`.
pub open spec fn digits_end(s: Seq<char>, i: int) -> int
    decreases s.len() - i,
{
    if 0 <= i < s.len() && is_digit(s[i]) {
        digits_end(s, i + 1)
    } else {
        i
    }
}

/// The end of the run of identifier characters that starts at `i`.
pub open spec fn ident_end(s: Seq<char>, i: int) -> int
    decreases s.len() - i,
{
    if 0 <= i < s.len() && is_ident_char(s[i]) {
        ident_end(s, i + 1)
    } else {
        i
    }
}

/// The number that a run of decimal digits denotes.
pub open spec fn digits_value(s: Seq<char>) -> nat
    decreases s.len(),
{
    if s.len() == 0 {
        0
    } else {
        digits_value(s.drop_last()) * 10 + ((s.last() as nat) - ('0' as nat)) as nat
    }
}

/// The first position at or after `i` that holds `c`.
pub open spec fn find_from(s: Seq<char>, i: int, c: char) -> Option<int>
    decreases s.len() - i,
{
    if i < 0 || i >= s.len() {
        None
    } else if s[i] == c {
        Some(i)
    } else {
        find_from(s, i + 1, c)
    }
}

/// The capability that a format specifier ending in `c` asks for.
pub open spec fn trait_of(c: char) -> Trait {
    if c == '?' {
        Trait::Debug
    } else if c == 'o' {
        Trait::Octal
    } else if c == 'x' {
        Trait::LowerHex
    } else if c == 'X' {
        Trait::UpperHex
    } else if c == 'p' {
        Trait::Pointer
    } else if c == 'b' {
        Trait::Binary
    } else if c == 'e' {
        Trait::LowerExp
    } else if c == 'E' {
        Trait::UpperExp
    } else {
        Trait::Display
    }
}

/// A template's reference to a field: by name (as written) or by position.
pub enum MemberKey {
    Named(Seq<char>),
    Unnamed(u32),
}

pub open spec fn key_of(m: MemberUnraw) -> MemberKey {
    match m {
        MemberUnraw::Named(s) => MemberKey::Named(s@),
        MemberUnraw::Unnamed(i) => MemberKey::Unnamed(i),
    }
}

pub open spec fn key_matches(m: MemberUnraw, k: MemberKey) -> bool {
    match (m, k) {
        (MemberUnraw::Named(s), MemberKey::Named(t)) => unraw(s@) == unraw(t),
        (MemberUnraw::Unnamed(i), MemberKey::Unnamed(j)) => i == j,
        _ => false,
    }
}

/// The index of the first field that the reference denotes.
pub open spec fn find_member(members: Seq<MemberUnraw>, k: MemberKey, i: int) -> Option<int>
    decreases members.len() - i,
{
    if i < 0 || i >= members.len() {
        None
    } else if key_matches(members[i], k) {
        Some(i)
    } else {
        find_member(members, k, i + 1)
    }
}

/// How a reference that denotes no field is written back into the template.
pub open spec fn key_text(k: MemberKey) -> Seq<char> {
    match k {
        MemberKey::Named(s) => unraw(s),
        MemberKey::Unnamed(i) => decimal(i as nat),
    }
}

/// Whether some user-written argument name equals `x` once unraw.
pub open spec fn names_contain(names: Seq<Seq<char>>, x: Seq<char>) -> bool {
    exists|i: int| 0 <= i < names.len() && unraw(names[i]) == unraw(x)
}

pub open spec fn prefix_for(bonus: bool, bound: Trait) -> Seq<char> {
    if bonus {
        "__display"@
    } else if bound == Trait::Pointer {
        "__pointer"@
    } else {
        "__field"@
    }
}

pub open spec fn wrap_for(bonus: bool, bound: Trait) -> Wrap {
    if bonus {
        Wrap::AsDisplay
    } else if bound == Trait::Pointer {
        Wrap::Pointer
    } else {
        Wrap::Plain
    }
}

/// The placeholder name before disambiguation: the prefix, then the position
/// or `_` and the unraw name.
pub open spec fn placeholder_base(k: MemberKey, prefix: Seq<char>) -> Seq<char> {
    match k {
        MemberKey::Unnamed(i) => prefix + decimal(i as nat),
        MemberKey::Named(s) => prefix + seq!['_'] + unraw(s),
    }
}

/// The placeholder name, with `_` put in front for as long as a
/// user-written argument has that name (at most `fuel` times).
pub open spec fn disambiguate(base: Seq<char>, names: Seq<Seq<char>>, fuel: nat) -> Seq<char>
    decreases fuel,
{
    if fuel > 0 && names_contain(names, base) {
        disambiguate(seq!['_'] + base, names, (fuel - 1) as nat)
    } else {
        base
    }
}

/// The variable that holds the field in the rendering code.
pub open spec fn field_var(k: MemberKey) -> Seq<char> {
    match k {
        MemberKey::Unnamed(i) => seq!['_'] + decimal(i as nat),
        MemberKey::Named(s) => local_form(s),
    }
}

/// A binding, as texts.
pub type BindingModel = (Seq<char>, Seq<char>, Wrap);

/// What the compiler has found so far.
pub struct ScanModel {
    pub out: Seq<char>,
    pub bonus: bool,
    pub recursive: bool,
    pub bounds: Seq<(usize, Trait)>,
    pub bindings: Seq<BindingModel>,
    pub named: Seq<Seq<char>>,
}

/// What the compiler reads: the template's characters, the members of the
/// fields, and the argument names the user wrote.
pub struct TemplateCtx {
    pub chars: Seq<char>,
    pub members: Seq<MemberUnraw>,
    pub user_named: Seq<Seq<char>>,
}

pub enum Step {
    Next(int, ScanModel),
    Finish(ScanModel),
    /// The template is left as written.
    Abort,
    /// A positional reference among fields that are all named, where the
    /// user also wrote named arguments.
    Ambiguous,
}

pub enum Outcome {
    Done(ScanModel),
    Abort,
    Ambiguous,
}

pub open spec fn all_named(members: Seq<MemberUnraw>) -> bool {
    forall|i: int| 0 <= i < members.len() ==> members[i] is Named
}

pub open spec fn insert_bound(b: Seq<(usize, Trait)>, x: (usize, Trait)) -> Seq<(usize, Trait)> {
    if b.contains(x) {
        b
    } else {
        b.push(x)
    }
}

/// The step for a reference `k` whose text ends at `q`; `out` is the output
/// so far, up to and including the opening brace.
pub open spec fn reference_step(
    ctx: TemplateCtx,
    q: int,
    out: Seq<char>,
    st: ScanModel,
    k: MemberKey,
) -> Step {
    match find_from(ctx.chars, q, '}') {
        None => Step::Abort,
        Some(end) => {
            let bonus = end == q;
            let bound = if bonus {
                Trait::Display
            } else {
                trait_of(ctx.chars[end - 1])
            };
            let recursive = st.recursive || (k matches MemberKey::Named(s) && s == "self"@ && bound
                == Trait::Display);
            let has_bonus = st.bonus || bonus;
            match find_member(ctx.members, k, 0) {
                None => Step::Next(
                    q,
                    ScanModel { out: out + key_text(k), bonus: has_bonus, recursive, ..st },
                ),
                Some(f) => {
                    let var = disambiguate(
                        placeholder_base(k, prefix_for(bonus, bound)),
                        ctx.user_named,
                        ctx.user_named.len() as nat,
                    );
                    let bounds = insert_bound(st.bounds, (f as usize, bound));
                    if st.named.contains(var) {
                        Step::Next(
                            q,
                            ScanModel { out: out + var, bonus: has_bonus, recursive, bounds, ..st },
                        )
                    } else {
                        Step::Next(
                            q,
                            ScanModel {
                                out: out + var,
                                bonus: has_bonus,
                                recursive,
                                bounds,
                                bindings: st.bindings.push(
                                    (local_form(var), field_var(k), wrap_for(bonus, bound)),
                                ),
                                named: st.named.push(var),
                            },
                        )
                    }
                },
            }
        },
    }
}

/// One step of the compiler from position `pos`: copy up to the next `{`,
/// then handle the escape or the reference that it opens.
pub open spec fn step(ctx: TemplateCtx, pos: int, st: ScanModel) -> Step {
    let s = ctx.chars;
    match find_from(s, pos, '{') {
        None => Step::Finish(ScanModel { out: st.out + s.subrange(pos, s.len() as int), ..st }),
        Some(b) => {
            let out = st.out + s.subrange(pos, b + 1);
            let p = b + 1;
            if p < s.len() && s[p] == '{' {
                Step::Next(p + 1, ScanModel { out: out.push('{'), ..st })
            } else if p >= s.len() {
                Step::Abort
            } else if is_digit(s[p]) {
                let e = digits_end(s, p);
                if all_named(ctx.members) && ctx.user_named.len() > 0 {
                    Step::Ambiguous
                } else if digits_value(s.subrange(p, e)) > u32::MAX {
                    Step::Abort
                } else {
                    reference_step(
                        ctx,
                        e,
                        out,
                        st,
                        MemberKey::Unnamed(digits_value(s.subrange(p, e)) as u32),
                    )
                }
            } else if is_ident_start(s[p]) {
                if p + 1 < s.len() && s[p] == 'r' && s[p + 1] == '#' {
                    Step::Next(p, ScanModel { out, ..st })
                } else {
                    let e = ident_end(s, p);
                    let repr = s.subrange(p, e);
                    if repr == seq!['_'] || names_contain(ctx.user_named, repr) {
                        Step::Next(e, ScanModel { out: out + repr, ..st })
                    } else {
                        reference_step(ctx, e, out, st, MemberKey::Named(repr))
                    }
                }
            } else {
                Step::Next(p, ScanModel { out, ..st })
            }
        },
    }
}

/// The compiler's run from position `pos`.
pub open spec fn run(ctx: TemplateCtx, pos: int, st: ScanModel) -> Outcome
    decreases ctx.chars.len() - pos,
{
    if pos < 0 || pos > ctx.chars.len() {
        Outcome::Abort
    } else {
        match step(ctx, pos, st) {
            Step::Next(p, next) => if pos < p <= ctx.chars.len() {
                run(ctx, p, next)
            } else {
                Outcome::Abort
            },
            Step::Finish(last) => Outcome::Done(last),
            Step::Abort => Outcome::Abort,
            Step::Ambiguous => Outcome::Ambiguous,
        }
    }
}

pub open spec fn initial_scan() -> ScanModel {
    ScanModel {
        out: Seq::empty(),
        bonus: false,
        recursive: false,
        bounds: Seq::empty(),
        bindings: Seq::empty(),
        named: Seq::empty(),
    }
}

} // verus!

verus! {

pub(crate) fn find_char(s: &Vec<char>, i: usize, c: char) -> (r: Option<usize>)
    ensures
        r matches Some(j) ==> find_from(s@, i as int, c) == Some(j as int) && i <= j < s@.len()
            && s@[j as int] == c,
        r is None ==> find_from(s@, i as int, c) is None,
    decreases s@.len() - i,
{
    if i >= s.len() {
        None
    } else if s[i] == c {
        Some(i)
    } else {
        find_char(s, i + 1, c)
    }
}

/// The end of the run of digits that starts at `i`.
pub fn take_int(read: &Vec<char>, i: usize) -> (r: usize)
    requires
        i <= read@.len(),
    ensures
        r == digits_end(read@, i as int),
        i <= r <= read@.len(),
    decreases read@.len() - i,
{
    if i < read.len() && '0' <= read[i] && read[i] <= '9' {
        take_int(read, i + 1)
    } else {
        i
    }
}

/// The end of the run of identifier characters that starts at `i`.
pub fn take_ident(read: &Vec<char>, i: usize) -> (r: usize)
    requires
        i <= read@.len(),
    ensures
        r == ident_end(read@, i as int),
        i <= r <= read@.len(),
    decreases read@.len() - i,
{
    if i < read.len() && (('a' <= read[i] && read[i] <= 'z') || ('A' <= read[i] && read[i] <= 'Z')
        || read[i] == '_' || ('0' <= read[i] && read[i] <= '9')) {
        take_ident(read, i + 1)
    } else {
        i
    }
}

/// The number that the digits `s[from..to]` denote, if it fits in a `u32`.
pub(crate) fn parse_u32(s: &Vec<char>, from: usize, to: usize) -> (r: Option<u32>)
    requires
        from <= to <= s@.len(),
        forall|k: int| from <= k < to ==> is_digit(s@[k]),
    ensures
        r matches Some(v) ==> v as nat == digits_value(s@.subrange(from as int, to as int)),
        r is None ==> digits_value(s@.subrange(from as int, to as int)) > u32::MAX,
{
    let mut v: u32 = 0;
    let mut i: usize = from;
    while i < to
        invariant
            from <= i <= to <= s@.len(),
            forall|k: int| from <= k < to ==> is_digit(s@[k]),
            v as nat == digits_value(s@.subrange(from as int, i as int)),
        decreases to - i,
    {
        let d = (s[i] as u32) - ('0' as u32);
        let ghost sub = s@.subrange(from as int, i + 1);
        assert(sub.drop_last() =~= s@.subrange(from as int, i as int));
        assert(digits_value(sub) == digits_value(s@.subrange(from as int, i as int)) * 10 + d);
        if v > 429496729 || (v == 429496729 && d > 5) {
            proof {
                lemma_digits_grow(s@, from as int, (i + 1) as int, to as int);
            }
            return None;
        }
        v = v * 10 + d;
        i = i + 1;
    }
    Some(v)
}

proof fn lemma_digits_grow(s: Seq<char>, from: int, i: int, to: int)
    requires
        0 <= from <= i <= to <= s.len(),
        forall|k: int| from <= k < to ==> is_digit(s[k]),
    ensures
        digits_value(s.subrange(from, to)) >= digits_value(s.subrange(from, i)),
    decreases to - i,
{
    if i < to {
        lemma_digits_grow(s, from, i + 1, to);
        assert(s.subrange(from, i + 1).drop_last() =~= s.subrange(from, i));
    }
}

fn trait_for(c: char) -> (r: Trait)
    ensures
        r == trait_of(c),
{
    if c == '?' {
        Trait::Debug
    } else if c == 'o' {
        Trait::Octal
    } else if c == 'x' {
        Trait::LowerHex
    } else if c == 'X' {
        Trait::UpperHex
    } else if c == 'p' {
        Trait::Pointer
    } else if c == 'b' {
        Trait::Binary
    } else if c == 'e' {
        Trait::LowerExp
    } else if c == 'E' {
        Trait::UpperExp
    } else {
        Trait::Display
    }
}

fn member_matches(m: &MemberUnraw, k: &MemberUnraw) -> (r: bool)
    ensures
        r == key_matches(*m, key_of(*k)),
{
    match (m, k) {
        (MemberUnraw::Named(s), MemberUnraw::Named(t)) => same_ident(s, t),
        (MemberUnraw::Unnamed(i), MemberUnraw::Unnamed(j)) => *i == *j,
        _ => false,
    }
}

fn position_of(fields: &Vec<Field>, k: &MemberUnraw) -> (r: Option<usize>)
    ensures
        r matches Some(j) ==> find_member(members_of(fields@), key_of(*k), 0) == Some(j as int)
            && j < fields@.len(),
        r is None ==> find_member(members_of(fields@), key_of(*k), 0) is None,
{
    let mut i: usize = 0;
    while i < fields.len()
        invariant
            i <= fields@.len(),
            find_member(members_of(fields@), key_of(*k), 0) == find_member(
                members_of(fields@),
                key_of(*k),
                i as int,
            ),
        decreases fields.len() - i,
    {
        if member_matches(&fields[i].member, k) {
            return Some(i);
        }
        i = i + 1;
    }
    None
}

fn user_names_contain(names: &Vec<String>, x: &String) -> (r: bool)
    ensures
        r == names_contain(texts(names@), x@),
{
    let mut i: usize = 0;
    while i < names.len()
        invariant
            i <= names@.len(),
            forall|j: int| 0 <= j < i ==> unraw(names@[j]@) != unraw(x@),
        decreases names.len() - i,
    {
        if same_ident(&names[i], x) {
            assert(texts(names@)[i as int] == names@[i as int]@);
            return true;
        }
        i = i + 1;
    }
    false
}

fn disambiguate_exec(base: String, names: &Vec<String>) -> (r: String)
    ensures
        r@ == disambiguate(base@, texts(names@), names@.len() as nat),
{
    let mut var = base;
    let mut fuel: usize = names.len();
    while fuel > 0 && user_names_contain(names, &var)
        invariant
            fuel <= names@.len(),
            disambiguate(var@, texts(names@), fuel as nat) == disambiguate(
                base@,
                texts(names@),
                names@.len() as nat,
            ),
        decreases fuel,
    {
        let mut next = String::new();
        push_char(&mut next, '_');
        let cs = chars_of(var.as_str());
        push_chars(&mut next, &cs, 0, cs.len());
        assert(cs@.subrange(0, cs@.len() as int) =~= cs@);
        assert(next@ =~= seq!['_'] + var@);
        var = next;
        fuel = fuel - 1;
    }
    var
}

fn contains_string(v: &Vec<String>, x: &String) -> (r: bool)
    ensures
        r == crate::generics::texts(v@).contains(x@),
{
    let mut i: usize = 0;
    while i < v.len()
        invariant
            i <= v@.len(),
            forall|j: int| 0 <= j < i ==> v@[j]@ != x@,
        decreases v.len() - i,
    {
        if v[i] == *x {
            assert(crate::generics::texts(v@)[i as int] == x@);
            return true;
        }
        i = i + 1;
    }
    false
}

} // verus!

verus! {

/// An `=` that is not the first half of `==`: at `i`, with what follows.
pub open spec fn lone_eq(args: Seq<TokenView>, i: int) -> bool {
    0 <= i < args.len() && (args[i] matches TokenView::Punct(c, joint) && c == '=' && !(joint && i
        + 1 < args.len() && is_punct_view(args[i + 1], '=')))
}

/// `, name =` at position `i`, where the `=` is not part of `==`.
pub open spec fn named_at(args: Seq<TokenView>, i: int) -> bool {
    0 <= i && i + 2 < args.len() && is_punct_view(args[i], ',') && args[i + 1] is Ident && lone_eq(
        args,
        i + 2,
    )
}

/// The names of `, name =` found anywhere in the top-level tokens from `i`.
pub open spec fn scanned_names(args: Seq<TokenView>, i: int) -> Seq<Seq<char>>
    decreases args.len() - i,
{
    if i < 0 || i >= args.len() {
        Seq::empty()
    } else if named_at(args, i) {
        seq![args[i + 1]->Ident_0] + scanned_names(args, i + 1)
    } else {
        scanned_names(args, i + 1)
    }
}

/// The first top-level comma at or after `i`, or the end.
pub open spec fn next_comma(args: Seq<TokenView>, i: int) -> int
    decreases args.len() - i,
{
    if i < 0 || i >= args.len() {
        args.len() as int
    } else if is_punct_view(args[i], ',') {
        i
    } else {
        next_comma(args, i + 1)
    }
}

/// The arguments after the template, read as comma-separated expressions
/// from position `i` (just after a comma): the names of `name = expr`
/// arguments, and whether an argument without a name occurs. `None` where an
/// argument is missing.
pub open spec fn split_args(args: Seq<TokenView>, i: int) -> Option<(Seq<Seq<char>>, bool)>
    decreases args.len() - i,
{
    if i < 0 || i > args.len() {
        None
    } else {
        let j = next_comma(args, i);
        if j < i {
            None
        } else if j == i {
            if j >= args.len() {
                Some((Seq::empty(), false))
            } else {
                None
            }
        } else {
            let named = args[i] is Ident && lone_eq(args, i + 1);
            if named && i + 2 >= j {
                None
            } else {
                let here: (Seq<Seq<char>>, bool) = if named {
                    (seq![args[i]->Ident_0], false)
                } else {
                    (Seq::empty(), true)
                };
                if j >= args.len() {
                    Some(here)
                } else {
                    match split_args(args, j + 1) {
                        Some(rest) => Some((here.0 + rest.0, here.1 || rest.1)),
                        None => None,
                    }
                }
            }
        }
    }
}

/// The argument names the user wrote, and whether an unnamed argument occurs.
/// Arguments are read as comma-separated expressions after a leading comma;
/// where they cannot be read so, the names are those of every `, name =`
/// and no unnamed argument is assumed.
pub open spec fn user_args(args: Seq<TokenView>) -> (Seq<Seq<char>>, bool) {
    if args.len() == 0 {
        (Seq::empty(), false)
    } else if is_punct_view(args[0], ',') && split_args(args, 1) is Some {
        split_args(args, 1)->0
    } else {
        (scanned_names(args, 0), false)
    }
}

/// The user's arguments as the compiler reads them.
pub struct FmtArguments {
    pub named: Vec<String>,
    pub has_unnamed: bool,
}

fn tok_is_punct(t: &Token, c: char) -> (r: bool)
    ensures
        r == is_punct_view(token_view(*t), c),
{
    match t {
        Token::Punct(p, _) => *p == c,
        _ => false,
    }
}

fn tok_lone_eq(args: &Vec<Token>, i: usize) -> (r: bool)
    ensures
        r == lone_eq(tokens_view(args@), i as int),
{
    proof {
        crate::attr::lemma_tokens_view(args@);
    }
    if i >= args.len() {
        return false;
    }
    match &args[i] {
        Token::Punct(c, joint) => *c == '=' && !(*joint && i + 1 < args.len() && tok_is_punct(
            &args[i + 1],
            '=',
        )),
        _ => false,
    }
}

fn fallback_explicit_named_args(args: &Vec<Token>) -> (r: Vec<String>)
    ensures
        texts(r@) == scanned_names(tokens_view(args@), 0),
{
    proof {
        crate::attr::lemma_tokens_view(args@);
    }
    let ghost ts = tokens_view(args@);
    let mut names: Vec<String> = Vec::new();
    let mut i: usize = args.len();
    while i > 0
        invariant
            i <= args@.len(),
            ts == tokens_view(args@),
            ts.len() == args@.len(),
            forall|j: int| 0 <= j < args@.len() ==> ts[j] == token_view(args@[j]),
            texts(names@) == scanned_names(ts, i as int),
        decreases i,
    {
        i = i - 1;
        if args.len() >= 3 && i < args.len() - 2 && tok_is_punct(&args[i], ',') && tok_lone_eq(args, i + 2) {
            if let Token::Ident(x) = &args[i + 1] {
                let mut v: Vec<String> = Vec::new();
                v.push(x.clone());
                let ghost rest = names@;
                v.append(&mut names);
                names = v;
                assert(named_at(ts, i as int));
                assert(texts(names@) =~= seq![ts[i + 1]->Ident_0] + texts(rest));
            }
        }
    }
    names
}

fn comma_from(args: &Vec<Token>, i: usize) -> (r: usize)
    requires
        i <= args@.len(),
    ensures
        r == next_comma(tokens_view(args@), i as int),
        i <= r <= args@.len(),
    decreases args@.len() - i,
{
    proof {
        crate::attr::lemma_tokens_view(args@);
    }
    if i >= args.len() {
        args.len()
    } else if tok_is_punct(&args[i], ',') {
        i
    } else {
        comma_from(args, i + 1)
    }
}

fn try_explicit_named_args(args: &Vec<Token>, i: usize) -> (r: Option<FmtArguments>)
    requires
        i <= args@.len(),
    ensures
        r matches Some(a) ==> split_args(tokens_view(args@), i as int) == Some(
            (texts(a.named@), a.has_unnamed),
        ),
        r is None ==> split_args(tokens_view(args@), i as int) is None,
    decreases args@.len() - i,
{
    proof {
        crate::attr::lemma_tokens_view(args@);
    }
    let ghost ts = tokens_view(args@);
    let j = comma_from(args, i);
    if j == i {
        if j >= args.len() {
            let r = FmtArguments { named: Vec::new(), has_unnamed: false };
            assert(texts(r.named@) =~= Seq::empty());
            return Some(r);
        }
        return None;
    }
    let named = matches!(args[i], Token::Ident(_)) && tok_lone_eq(args, i + 1);
    if named && j - i <= 2 {
        return None;
    }
    let mut here = FmtArguments { named: Vec::new(), has_unnamed: !named };
    if named {
        if let Token::Ident(x) = &args[i] {
            here.named.push(x.clone());
        }
    }
    assert(texts(here.named@) =~= (if named { seq![ts[i as int]->Ident_0] } else { Seq::empty() }));
    if j >= args.len() {
        return Some(here);
    }
    match try_explicit_named_args(args, j + 1) {
        Some(mut rest) => {
            let ghost a = texts(here.named@);
            let ghost b = texts(rest.named@);
            here.named.append(&mut rest.named);
            assert(texts(here.named@) =~= a + b);
            here.has_unnamed = here.has_unnamed || rest.has_unnamed;
            Some(here)
        },
        None => None,
    }
}

/// The user's arguments (see `user_args`).
pub fn explicit_named_args(args: &Vec<Token>) -> (r: FmtArguments)
    ensures
        (texts(r.named@), r.has_unnamed) == user_args(tokens_view(args@)),
{
    proof {
        crate::attr::lemma_tokens_view(args@);
    }
    if args.len() == 0 {
        let r = FmtArguments { named: Vec::new(), has_unnamed: false };
        assert(texts(r.named@) =~= Seq::empty());
        return r;
    }
    if tok_is_punct(&args[0], ',') {
        if let Some(a) = try_explicit_named_args(args, 1) {
            return a;
        }
    }
    FmtArguments { named: fallback_explicit_named_args(args), has_unnamed: false }
}

} // verus!

verus! {

pub open spec fn binding_model(b: Binding) -> BindingModel {
    (b.local@, b.value@, b.wrap)
}

pub open spec fn bindings_model(v: Seq<Binding>) -> Seq<BindingModel> {
    Seq::new(v.len(), |i: int| binding_model(v[i]))
}

/// The compiler's state while it runs.
struct Scan {
    out: String,
    bonus: bool,
    recursive: bool,
    bounds: Vec<(usize, Trait)>,
    bindings: Vec<Binding>,
    named: Vec<String>,
}

impl Scan {
    spec fn model(&self) -> ScanModel {
        ScanModel {
            out: self.out@,
            bonus: self.bonus,
            recursive: self.recursive,
            bounds: self.bounds@,
            bindings: bindings_model(self.bindings@),
            named: crate::generics::texts(self.named@),
        }
    }
}

enum StepResult {
    Next(usize),
    Finish,
    Abort,
    Ambiguous,
}

pub open spec fn ctx_of(
    chars: Seq<char>,
    members: Seq<MemberUnraw>,
    user: (Seq<Seq<char>>, bool),
) -> TemplateCtx {
    TemplateCtx { chars, members, user_named: user.0 }
}

fn substring(cs: &Vec<char>, from: usize, to: usize) -> (r: String)
    requires
        from <= to <= cs@.len(),
    ensures
        r@ == cs@.subrange(from as int, to as int),
{
    let mut r = String::new();
    push_chars(&mut r, cs, from, to);
    assert(r@ =~= cs@.subrange(from as int, to as int));
    r
}

fn push_string(s: &mut String, t: &String)
    ensures
        final(s)@ == old(s)@ + t@,
{
    s.append(t.as_str());
}

fn insert_bound_exec(bounds: &mut Vec<(usize, Trait)>, x: (usize, Trait))
    ensures
        final(bounds)@ == insert_bound(old(bounds)@, x),
{
    let mut i: usize = 0;
    while i < bounds.len()
        invariant
            i <= bounds@.len(),
            *bounds == *old(bounds),
            forall|j: int| 0 <= j < i ==> bounds@[j] != x,
        decreases bounds.len() - i,
    {
        if bounds[i].0 == x.0 && bounds[i].1 == x.1 {
            assert(bounds@[i as int] == x);
            return;
        }
        i = i + 1;
    }
    bounds.push(x);
}

/// The step for a reference `k` whose text ends at `q`, with the output so far
/// in `st.out`.
fn reference(
    chars: &Vec<char>,
    fields: &Vec<Field>,
    user: &FmtArguments,
    q: usize,
    k: MemberUnraw,
    st: &mut Scan,
) -> (r: StepResult)
    requires
        q <= chars@.len(),
    ensures
        match reference_step(
            ctx_of(chars@, members_of(fields@), (texts(user.named@), user.has_unnamed)),
            q as int,
            old(st).out@,
            old(st).model(),
            key_of(k),
        ) {
            Step::Next(p, m) => r == StepResult::Next(q) && p == q && final(st).model() == m,
            Step::Abort => r is Abort,
            _ => false,
        },
{
    let ghost st0 = st.model();
    let end = match find_char(chars, q, '}') {
        None => return StepResult::Abort,
        Some(e) => e,
    };
    let bonus = end == q;
    let bound = if bonus {
        Trait::Display
    } else {
        trait_for(chars[end - 1])
    };
    let is_self = match &k {
        MemberUnraw::Named(s) => crate::text::eq_str(s.as_str(), "self"),
        _ => false,
    };
    st.recursive = st.recursive || (is_self && bound == Trait::Display);
    st.bonus = st.bonus || bonus;
    match position_of(fields, &k) {
        None => {
            match &k {
                MemberUnraw::Named(s) => {
                    let u = unraw_of(s);
                    push_string(&mut st.out, &u);
                },
                MemberUnraw::Unnamed(i) => push_decimal(&mut st.out, *i),
            }
            StepResult::Next(q)
        },
        Some(f) => {
            let mut base = if bonus {
                String::from_str("__display")
            } else if bound == Trait::Pointer {
                String::from_str("__pointer")
            } else {
                String::from_str("__field")
            };
            match &k {
                MemberUnraw::Named(s) => {
                    push_char(&mut base, '_');
                    let u = unraw_of(s);
                    push_string(&mut base, &u);
                    assert(base@ =~= prefix_for(bonus, bound) + seq!['_'] + unraw(s@));
                },
                MemberUnraw::Unnamed(i) => push_decimal(&mut base, *i),
            }
            let var = disambiguate_exec(base, &user.named);
            push_string(&mut st.out, &var);
            insert_bound_exec(&mut st.bounds, (f, bound));
            if contains_string(&st.named, &var) {
                return StepResult::Next(q);
            }
            let local = to_local(&var);
            let value = match &k {
                MemberUnraw::Named(s) => to_local(s),
                MemberUnraw::Unnamed(i) => {
                    let mut v = String::new();
                    push_char(&mut v, '_');
                    push_decimal(&mut v, *i);
                    assert(v@ =~= seq!['_'] + decimal(*i as nat));
                    v
                },
            };
            let wrap = if bonus {
                Wrap::AsDisplay
            } else if bound == Trait::Pointer {
                Wrap::Pointer
            } else {
                Wrap::Plain
            };
            let ghost before = st.bindings@;
            st.bindings.push(Binding { local, value, wrap });
            assert(bindings_model(st.bindings@) =~= bindings_model(before).push(
                (local_form(var@), field_var(key_of(k)), wrap_for(bonus, bound)),
            ));
            let ghost named_before = st.named@;
            st.named.push(var);
            assert(crate::generics::texts(st.named@) =~= crate::generics::texts(named_before).push(
                var@,
            ));
            StepResult::Next(q)
        },
    }
}

} // verus!

verus! {

proof fn lemma_digits_end(s: Seq<char>, i: int)
    requires
        0 <= i <= s.len(),
    ensures
        i <= digits_end(s, i) <= s.len(),
        forall|k: int| i <= k < digits_end(s, i) ==> is_digit(s[k]),
    decreases s.len() - i,
{
    if i < s.len() && is_digit(s[i]) {
        lemma_digits_end(s, i + 1);
    }
}

fn all_fields_named(fields: &Vec<Field>) -> (r: bool)
    ensures
        r == all_named(members_of(fields@)),
{
    let mut i: usize = 0;
    while i < fields.len()
        invariant
            i <= fields@.len(),
            forall|j: int| 0 <= j < i ==> fields@[j].member is Named,
        decreases fields.len() - i,
    {
        if let MemberUnraw::Unnamed(_) = &fields[i].member {
            assert(!(members_of(fields@)[i as int] is Named));
            return false;
        }
        i = i + 1;
    }
    true
}

/// One step of the compiler (see `step`).
fn scan_step(
    chars: &Vec<char>,
    fields: &Vec<Field>,
    user: &FmtArguments,
    named_only: bool,
    pos: usize,
    st: &mut Scan,
) -> (r: StepResult)
    requires
        pos <= chars@.len(),
        named_only == all_named(members_of(fields@)),
    ensures
        match step(
            ctx_of(chars@, members_of(fields@), (texts(user.named@), user.has_unnamed)),
            pos as int,
            old(st).model(),
        ) {
            Step::Next(p, m) => r == StepResult::Next(p as usize) && pos < p <= chars@.len()
                && final(st).model() == m,
            Step::Finish(m) => r is Finish && final(st).model() == m,
            Step::Abort => r is Abort,
            Step::Ambiguous => r is Ambiguous,
        },
{
    let b = match find_char(chars, pos, '{') {
        None => {
            push_chars(&mut st.out, chars, pos, chars.len());
            return StepResult::Finish;
        },
        Some(b) => b,
    };
    let n = chars.len();
    assert(b < n);
    push_chars(&mut st.out, chars, pos, b + 1);
    let p = b + 1;
    if p < chars.len() && chars[p] == '{' {
        push_char(&mut st.out, '{');
        return StepResult::Next(p + 1);
    }
    if p >= chars.len() {
        return StepResult::Abort;
    }
    let c = chars[p];
    if '0' <= c && c <= '9' {
        let e = take_int(chars, p);
        if named_only && user.named.len() > 0 {
            return StepResult::Ambiguous;
        }
        proof {
            lemma_digits_end(chars@, p as int);
        }
        match parse_u32(chars, p, e) {
            None => StepResult::Abort,
            Some(v) => reference(chars, fields, user, e, MemberUnraw::Unnamed(v), st),
        }
    } else if ('a' <= c && c <= 'z') || ('A' <= c && c <= 'Z') || c == '_' {
        if p + 1 < chars.len() && chars[p] == 'r' && chars[p + 1] == '#' {
            return StepResult::Next(p);
        }
        let e = take_ident(chars, p);
        let repr = substring(chars, p, e);
        let is_underscore = e == p + 1 && chars[p] == '_';
        assert(is_underscore == (repr@ == seq!['_'])) by {
            if repr@ == seq!['_'] {
                assert(repr@.len() == 1);
                assert(repr@[0] == chars@[p as int]);
            }
            if is_underscore {
                assert(repr@ =~= seq!['_']);
            }
        }
        if is_underscore || user_names_contain(&user.named, &repr) {
            push_string(&mut st.out, &repr);
            return StepResult::Next(e);
        }
        reference(chars, fields, user, e, MemberUnraw::Named(repr), st)
    } else {
        StepResult::Next(p)
    }
}

/// `new` is the template `old` compiled against `fields`, with result `r`.
pub open spec fn expanded(
    old: Display,
    new: Display,
    r: Result<(), Error>,
    fields: Seq<Field>,
    container: ContainerKind,
) -> bool {
    &&& new.requires_fmt_machinery == (old.requires_fmt_machinery || old.fmt@.contains('{')
        || old.fmt@.contains('}'))
    &&& new.loc == old.loc
    &&& new.args == old.args
    &&& match run(
        ctx_of(old.fmt@, members_of(fields), user_args(tokens_view(old.args@))),
        0,
        initial_scan(),
    ) {
        Outcome::Done(m) => r is Ok && new.fmt@ == m.out && new.has_bonus_display == m.bonus
            && new.infinite_recursive == m.recursive && new.implied_bounds@ == m.bounds
            && bindings_model(new.bindings@) == m.bindings,
        Outcome::Abort => r is Ok && new.fmt == old.fmt && new.has_bonus_display
            == old.has_bonus_display && new.infinite_recursive == old.infinite_recursive
            && new.implied_bounds == old.implied_bounds && new.bindings == old.bindings,
        Outcome::Ambiguous => r == Err::<(), Error>(
            Error { loc: old.loc, kind: ErrorKind::AmbiguousPositional(container) },
        ),
    }
}

impl Display {
    /// Compiles the template against the fields of its type or variant:
    /// every reference to a field is replaced by a placeholder that a
    /// synthesized binding provides, and the capability that each reference
    /// asks of its field is recorded. See `run` for the exact result; where
    /// it is `Abort` the template is left as written.
    pub fn expand_shorthand(&mut self, fields: &Vec<Field>, container: ContainerKind) -> (r: Result<
        (),
        Error,
    >)
        ensures
            expanded(*old(self), *final(self), r, fields@, container),
    {
        let user = explicit_named_args(&self.args);
        let chars = chars_of(self.fmt.as_str());
        let named_only = all_fields_named(fields);
        let ghost ctx = ctx_of(chars@, members_of(fields@), (texts(user.named@), user.has_unnamed));
        let mut st = Scan {
            out: String::new(),
            bonus: false,
            recursive: false,
            bounds: Vec::new(),
            bindings: Vec::new(),
            named: Vec::new(),
        };
        assert(st.model() =~= initial_scan()) by {
            assert(bindings_model(st.bindings@) =~= Seq::empty());
            assert(crate::generics::texts(st.named@) =~= Seq::empty());
        }
        let has_close = contains_char(&chars, '}');
        let has_open = contains_char(&chars, '{');
        self.requires_fmt_machinery = self.requires_fmt_machinery || has_close || has_open;
        let mut pos: usize = 0;
        loop
            invariant
                pos <= chars@.len(),
                named_only == all_named(members_of(fields@)),
                chars@ == old(self).fmt@,
                (texts(user.named@), user.has_unnamed) == user_args(tokens_view(old(self).args@)),
                ctx == ctx_of(
                    old(self).fmt@,
                    members_of(fields@),
                    user_args(tokens_view(old(self).args@)),
                ),
                self.requires_fmt_machinery == (old(self).requires_fmt_machinery || old(
                    self,
                ).fmt@.contains('{') || old(self).fmt@.contains('}')),
                self.fmt == old(self).fmt,
                self.loc == old(self).loc,
                self.args == old(self).args,
                self.has_bonus_display == old(self).has_bonus_display,
                self.infinite_recursive == old(self).infinite_recursive,
                self.implied_bounds == old(self).implied_bounds,
                self.bindings == old(self).bindings,
                run(ctx, pos as int, st.model()) == run(ctx, 0, initial_scan()),
            decreases chars@.len() - pos,
        {
            let ghost m0 = st.model();
            match scan_step(&chars, fields, &user, named_only, pos, &mut st) {
                StepResult::Next(p) => {
                    assert(step(ctx, pos as int, m0) == Step::Next(p as int, st.model()));
                    assert(run(ctx, pos as int, m0) == run(ctx, p as int, st.model()));
                    pos = p;
                },
                StepResult::Finish => {
                    self.fmt = st.out;
                    self.has_bonus_display = st.bonus;
                    self.infinite_recursive = st.recursive;
                    self.implied_bounds = st.bounds;
                    self.bindings = st.bindings;
                    return Ok(());
                },
                StepResult::Abort => {
                    return Ok(());
                },
                StepResult::Ambiguous => {
                    return Err(Error { loc: self.loc, kind: ErrorKind::AmbiguousPositional(container) });
                },
            }
        }
    }
}

fn contains_char(cs: &Vec<char>, c: char) -> (r: bool)
    ensures
        r == cs@.contains(c),
{
    let mut i: usize = 0;
    while i < cs.len()
        invariant
            i <= cs@.len(),
            forall|j: int| 0 <= j < i ==> cs@[j] != c,
        decreases cs.len() - i,
    {
        if cs[i] == c {
            return true;
        }
        i = i + 1;
    }
    false
}

} // verus!

verus! {

/// From `i` on, every `{` of the template is the first of an escape pair `{{`:
/// the template refers to nothing.
pub open spec fn escaped_only(s: Seq<char>, i: int) -> bool
    decreases s.len() - i,
{
    if i < 0 || i >= s.len() {
        true
    } else if s[i] == '{' {
        i + 1 < s.len() && s[i + 1] == '{' && escaped_only(s, i + 2)
    } else {
        escaped_only(s, i + 1)
    }
}

proof fn lemma_find_from(s: Seq<char>, i: int, c: char)
    requires
        0 <= i,
    ensures
        find_from(s, i, c) matches Some(b) ==> i <= b < s.len() && s[b] == c && forall|k: int|
            i <= k < b ==> s[k] != c,
        find_from(s, i, c) is None ==> forall|k: int| i <= k < s.len() ==> s[k] != c,
    decreases s.len() - i,
{
    if i < s.len() {
        lemma_find_from(s, i + 1, c);
    }
}

proof fn lemma_escaped_skip(s: Seq<char>, i: int, b: int)
    requires
        0 <= i <= b <= s.len(),
        forall|k: int| i <= k < b ==> s[k] != '{',
        escaped_only(s, i),
    ensures
        escaped_only(s, b),
    decreases b - i,
{
    if i < b {
        lemma_escaped_skip(s, i + 1, b);
    }
}

proof fn lemma_escaped_run(ctx: TemplateCtx, pos: int, st: ScanModel)
    requires
        0 <= pos <= ctx.chars.len(),
        escaped_only(ctx.chars, pos),
        st.out == ctx.chars.subrange(0, pos),
    ensures
        run(ctx, pos, st) == Outcome::Done(ScanModel { out: ctx.chars, ..st }),
    decreases ctx.chars.len() - pos,
{
    let s = ctx.chars;
    lemma_find_from(s, pos, '{');
    match find_from(s, pos, '{') {
        None => {
            assert(st.out + s.subrange(pos, s.len() as int) =~= s);
        },
        Some(b) => {
            lemma_escaped_skip(s, pos, b);
            let out = (st.out + s.subrange(pos, b + 1)).push('{');
            assert(out =~= s.subrange(0, b + 2));
            lemma_escaped_run(ctx, b + 2, ScanModel { out, ..st });
        },
    }
}

/// A template that refers to nothing (every `{` is part of an escape pair
/// `{{`) compiles to itself: each escape pair and every other character is
/// kept as written, and no capability is asked of any field and no binding
/// is made.
pub proof fn lemma_no_reference_unchanged(
    fmt: Seq<char>,
    members: Seq<MemberUnraw>,
    user: (Seq<Seq<char>>, bool),
)
    requires
        escaped_only(fmt, 0),
    ensures
        run(ctx_of(fmt, members, user), 0, initial_scan()) == Outcome::Done(
            ScanModel { out: fmt, ..initial_scan() },
        ),
{
    assert(initial_scan().out =~= fmt.subrange(0, 0));
    lemma_escaped_run(ctx_of(fmt, members, user), 0, initial_scan());
}

} // verus!

verus! {

pub open spec fn underscores(k: nat) -> Seq<char> {
    Seq::new(k, |i: int| '_')
}

proof fn lemma_disambiguate_tries(base: Seq<char>, names: Seq<Seq<char>>, fuel: nat)
    ensures
        !names_contain(names, disambiguate(base, names, fuel)) || forall|j: nat|
            j <= fuel ==> names_contain(names, #[trigger] (underscores(j) + base)),
    decreases fuel,
{
    if fuel > 0 && names_contain(names, base) {
        let next = seq!['_'] + base;
        lemma_disambiguate_tries(next, names, (fuel - 1) as nat);
        if names_contain(names, disambiguate(base, names, fuel)) {
            assert forall|j: nat| j <= fuel implies names_contain(
                names,
                #[trigger] (underscores(j) + base),
            ) by {
                if j == 0 {
                    assert(underscores(0) + base =~= base);
                } else {
                    let i = (j - 1) as nat;
                    assert(underscores(i) + next =~= underscores(j) + base);
                    assert(names_contain(names, underscores(i) + next));
                }
            }
        }
    } else {
        if names_contain(names, base) {
            assert forall|j: nat| j <= fuel implies names_contain(
                names,
                #[trigger] (underscores(j) + base),
            ) by {
                assert(underscores(j) + base =~= base);
            }
        }
    }
}

/// The placeholder given to a reference is never the name of an argument the
/// user wrote (names compared without `r#`), whenever the name before
/// disambiguation starts with `_`, as every such name does.
pub proof fn lemma_placeholder_is_not_user_name(base: Seq<char>, names: Seq<Seq<char>>)
    requires
        base.len() > 0,
        base[0] == '_',
    ensures
        !names_contain(names, disambiguate(base, names, names.len() as nat)),
{
    let n = names.len() as nat;
    lemma_disambiguate_tries(base, names, n);
    if names_contain(names, disambiguate(base, names, n)) {
        let cand = |k: int| underscores(k as nat) + base;
        let ks = vstd::set_lib::set_int_range(0, n as int + 1);
        let idx = vstd::set_lib::set_int_range(0, n as int);
        vstd::set_lib::lemma_int_range(0, n as int + 1);
        vstd::set_lib::lemma_int_range(0, n as int);
        let found = |i: int| unraw(names[i]);
        let present = idx.map(found);
        vstd::set_lib::lemma_map_size_bound(idx, present, found);
        let wanted = ks.map(cand);
        assert(vstd::relations::injective_on(cand, ks)) by {
            assert forall|a: int, b: int| ks.contains(a) && ks.contains(b) && #[trigger] cand(a)
                == #[trigger] cand(b) implies a == b by {
                assert(cand(a).len() == a + base.len());
                assert(cand(b).len() == b + base.len());
            }
        }
        vstd::set_lib::lemma_map_size(ks, wanted, cand);
        assert(wanted.subset_of(present)) by {
            assert forall|x: Seq<char>| wanted.contains(x) implies present.contains(x) by {
                let k = choose|k: int| ks.contains(k) && cand(k) == x;
                assert(names_contain(names, underscores(k as nat) + base));
                let i = choose|i: int| 0 <= i < names.len() && unraw(names[i]) == unraw(
                    underscores(k as nat) + base,
                );
                assert((underscores(k as nat) + base)[0] == '_');
                assert(unraw(x) == x);
                assert(idx.contains(i));
                assert(found(i) == x);
            }
        }
        vstd::set_lib::lemma_len_subset(wanted, present);
        assert(false);
    }
}

} // verus!

verus! {

/// From `i` on, the template refers to no field: every `{` either starts an
/// escape pair `{{`, or opens a reference that is not a position and whose
/// name denotes no field (or is `_` or a user-written argument).
pub open spec fn refers_to_no_field(ctx: TemplateCtx, i: int) -> bool
    decreases ctx.chars.len() - i,
{
    let s = ctx.chars;
    if i < 0 || i >= s.len() {
        true
    } else if s[i] != '{' {
        refers_to_no_field(ctx, i + 1)
    } else if i + 1 < s.len() && s[i + 1] == '{' {
        refers_to_no_field(ctx, i + 2)
    } else if i + 1 >= s.len() {
        true
    } else if is_digit(s[i + 1]) {
        false
    } else if is_ident_start(s[i + 1]) && !(i + 2 < s.len() && s[i + 1] == 'r' && s[i + 2] == '#') {
        let e = ident_end(s, i + 1);
        let repr = s.subrange(i + 1, e);
        if i + 1 < e <= s.len() {
            (repr == seq!['_'] || names_contain(ctx.user_named, repr) || find_member(
                ctx.members,
                MemberKey::Named(repr),
                0,
            ) is None) && refers_to_no_field(ctx, e)
        } else {
            false
        }
    } else {
        refers_to_no_field(ctx, i + 1)
    }
}

proof fn lemma_refless_skip(ctx: TemplateCtx, i: int, b: int)
    requires
        0 <= i <= b <= ctx.chars.len(),
        forall|k: int| i <= k < b ==> ctx.chars[k] != '{',
        refers_to_no_field(ctx, i),
    ensures
        refers_to_no_field(ctx, b),
    decreases b - i,
{
    if i < b {
        lemma_refless_skip(ctx, i + 1, b);
    }
}

proof fn lemma_ident_end(s: Seq<char>, i: int)
    requires
        0 <= i <= s.len(),
    ensures
        i <= ident_end(s, i) <= s.len(),
        forall|k: int| i <= k < ident_end(s, i) ==> is_ident_char(s[k]),
    decreases s.len() - i,
{
    if i < s.len() && is_ident_char(s[i]) {
        lemma_ident_end(s, i + 1);
    }
}

proof fn lemma_refless_run(ctx: TemplateCtx, pos: int, st: ScanModel)
    requires
        0 <= pos <= ctx.chars.len(),
        refers_to_no_field(ctx, pos),
        st.out == ctx.chars.subrange(0, pos),
        st.bounds.len() == 0,
        st.bindings.len() == 0,
    ensures
        match run(ctx, pos, st) {
            Outcome::Done(m) => m.out == ctx.chars && m.bounds.len() == 0 && m.bindings.len() == 0,
            Outcome::Abort => true,
            Outcome::Ambiguous => false,
        },
    decreases ctx.chars.len() - pos,
{
    let s = ctx.chars;
    lemma_find_from(s, pos, '{');
    match find_from(s, pos, '{') {
        None => {
            assert(st.out + s.subrange(pos, s.len() as int) =~= s);
        },
        Some(b) => {
            lemma_refless_skip(ctx, pos, b);
            let out = st.out + s.subrange(pos, b + 1);
            assert(out =~= s.subrange(0, b + 1));
            let p = b + 1;
            if p < s.len() && s[p] == '{' {
                assert(out.push('{') =~= s.subrange(0, p + 1));
                lemma_refless_run(ctx, p + 1, ScanModel { out: out.push('{'), ..st });
            } else if p >= s.len() {
            } else if is_digit(s[p]) {
            } else if is_ident_start(s[p]) {
                if p + 1 < s.len() && s[p] == 'r' && s[p + 1] == '#' {
                    lemma_refless_run(ctx, p, ScanModel { out, ..st });
                } else {
                    let e = ident_end(s, p);
                    let repr = s.subrange(p, e);
                    lemma_ident_end(s, p);
                    assert(out + repr =~= s.subrange(0, e));
                    if repr == seq!['_'] || names_contain(ctx.user_named, repr) {
                        lemma_refless_run(ctx, e, ScanModel { out: out + repr, ..st });
                    } else {
                        let k = MemberKey::Named(repr);
                        lemma_find_from(s, e, '}');
                        if find_from(s, e, '}') is Some {
                            assert(!(repr.len() >= 2 && repr.subrange(0, 2) == raw_prefix())) by {
                                if repr.len() >= 2 && repr.subrange(0, 2) == raw_prefix() {
                                    assert(repr.subrange(0, 2)[1] == repr[1]);
                                    assert(is_ident_char(s[p + 1]));
                                }
                            }
                            assert(key_text(k) == repr);
                            let end = find_from(s, e, '}')->0;
                            let bonus = end == e;
                            let bound = if bonus {
                                Trait::Display
                            } else {
                                trait_of(s[end - 1])
                            };
                            let recursive = st.recursive || (repr == "self"@ && bound == Trait::Display);
                            lemma_refless_run(
                                ctx,
                                e,
                                ScanModel { out: out + repr, bonus: st.bonus || bonus, recursive, ..st },
                            );
                        }
                    }
                }
            } else {
                lemma_refless_run(ctx, p, ScanModel { out, ..st });
            }
        },
    }
}

/// A template without earlier compilation results that refers to no field
/// (see `refers_to_no_field`) compiles to itself: the result is `Ok`, the
/// template is unchanged, and no capability is asked of any field and no
/// binding is made.
pub proof fn lemma_unreferenced_template_unchanged(
    old: Display,
    new: Display,
    r: Result<(), Error>,
    fields: Seq<Field>,
    container: ContainerKind,
)
    requires
        expanded(old, new, r, fields, container),
        refers_to_no_field(
            ctx_of(old.fmt@, members_of(fields), user_args(tokens_view(old.args@))),
            0,
        ),
        old.implied_bounds@.len() == 0,
        old.bindings@.len() == 0,
    ensures
        r is Ok,
        new.fmt@ == old.fmt@,
        new.implied_bounds@.len() == 0,
        new.bindings@.len() == 0,
{
    let ctx = ctx_of(old.fmt@, members_of(fields), user_args(tokens_view(old.args@)));
    assert(initial_scan().out =~= old.fmt@.subrange(0, 0));
    lemma_refless_run(ctx, 0, initial_scan());
}

} // verus!

verus! {

/// Wherever it stands, an escape pair `{{` is copied as written and read as
/// no reference: the step that meets it appends the text up to and including
/// both braces, and changes no binding, capability or flag.
pub proof fn lemma_escape_pair_copied(ctx: TemplateCtx, pos: int, st: ScanModel, b: int)
    requires
        0 <= pos,
        find_from(ctx.chars, pos, '{') == Some(b),
        b + 1 < ctx.chars.len(),
        ctx.chars[b + 1] == '{',
    ensures
        step(ctx, pos, st) == Step::Next(
            b + 2,
            ScanModel { out: st.out + ctx.chars.subrange(pos, b + 2), ..st },
        ),
{
    lemma_find_from(ctx.chars, pos, '{');
    assert((st.out + ctx.chars.subrange(pos, b + 1)).push('{') =~= st.out + ctx.chars.subrange(
        pos,
        b + 2,
    ));
}

} // verus!
