use vstd::prelude::*;
use crate::ty::{GenericArg, PathArgs, Segment, Type, TypeKind};

verus! {

/// The generic parameters of the annotated type, as far as the analysis needs
/// them: the names of its type parameters, and its written where-clause.
pub struct Generics {
    pub type_params: Vec<String>,
    pub where_clause: Vec<Predicate>,
}

/// One predicate of a where-clause.
pub enum Predicate {
    /// A predicate as the user wrote it, kept as text.
    Written(String),
    /// `ty: b1 + b2 + ...`
    Bound { ty: String, bounds: Vec<String> },
}

pub struct WhereClause {
    pub predicates: Vec<Predicate>,
}

/// The type parameters that a field type may mention.
pub struct ParamsInScope {
    names: Vec<String>,
}

pub open spec fn in_names(names: Seq<String>, x: Seq<char>) -> bool {
    exists|i: int| 0 <= i < names.len() && names[i]@ == x
}

/// Whether the type mentions one of `names` as a type: a path whose first
/// segment is such a name without arguments, or a type argument anywhere in a
/// path, or the qualified self type of a path, that does.
pub open spec fn type_mentions(ty: Type, names: Seq<String>) -> bool
    decreases ty,
{
    match ty.kind {
        TypeKind::Path { qself, segments } => {
            (match qself {
                Some(q) => type_mentions(*q, names),
                None => segments.len() > 0 && segments@[0].args is Bare && in_names(
                    names,
                    segments@[0].ident@,
                ),
            }) || segments_mention(segments@, names)
        },
        _ => false,
    }
}

pub open spec fn segments_mention(segments: Seq<Segment>, names: Seq<String>) -> bool
    decreases segments,
{
    if segments.len() == 0 {
        false
    } else {
        segments_mention(segments.drop_last(), names) || match segments.last().args {
            PathArgs::Angle(args) => args_mention(args@, names),
            _ => false,
        }
    }
}

pub open spec fn args_mention(args: Seq<GenericArg>, names: Seq<String>) -> bool
    decreases args,
{
    if args.len() == 0 {
        false
    } else {
        args_mention(args.drop_last(), names) || match args.last() {
            GenericArg::Type(t) => type_mentions(t, names),
            _ => false,
        }
    }
}

impl ParamsInScope {
    pub closed spec fn names(&self) -> Seq<String> {
        self.names@
    }

    pub fn new(generics: &Generics) -> (r: ParamsInScope)
        ensures
            r.names() == generics.type_params@,
    {
        ParamsInScope { names: clone_strings(&generics.type_params) }
    }

    fn contains(&self, name: &String) -> (r: bool)
        ensures
            r == in_names(self.names(), name@),
    {
        let mut i: usize = 0;
        while i < self.names.len()
            invariant
                i <= self.names@.len(),
                forall|j: int| 0 <= j < i ==> self.names@[j]@ != name@,
            decreases self.names.len() - i,
        {
            if self.names[i] == *name {
                return true;
            }
            i = i + 1;
        }
        false
    }

    /// Whether the type mentions one of the parameters in scope.
    pub fn intersects(&self, ty: &Type) -> (r: bool)
        ensures
            r == type_mentions(*ty, self.names()),
    {
        crawl(self, ty)
    }
}

pub(crate) fn clone_strings(v: &Vec<String>) -> (r: Vec<String>)
    ensures
        r@ == v@,
{
    let mut r: Vec<String> = Vec::new();
    let mut i: usize = 0;
    while i < v.len()
        invariant
            i <= v@.len(),
            r@ == v@.subrange(0, i as int),
        decreases v.len() - i,
    {
        r.push(v[i].clone());
        assert(v@.subrange(0, i + 1) =~= v@.subrange(0, i as int).push(v@[i as int]));
        i = i + 1;
    }
    assert(v@.subrange(0, i as int) =~= v@);
    r
}

fn crawl(in_scope: &ParamsInScope, ty: &Type) -> (r: bool)
    ensures
        r == type_mentions(*ty, in_scope.names()),
    decreases ty, 0nat,
{
    match &ty.kind {
        TypeKind::Path { qself, segments } => {
            let head = match qself {
                Some(q) => {
                    proof {
                        assert(decreases_to!(*ty => ty.kind));
                        assert(decreases_to!(ty.kind => ty.kind->qself));
                        assert(decreases_to!(ty.kind->qself => ty.kind->qself->0));
                    }
                    crawl(in_scope, q)
                },
                None => segments.len() > 0 && matches!(segments[0].args, PathArgs::Bare)
                    && in_scope.contains(&segments[0].ident),
            };
            proof {
                assert(decreases_to!(*ty => ty.kind));
                assert(decreases_to!(ty.kind => ty.kind->segments));
                assert(decreases_to!(ty.kind->segments => ty.kind->segments@));
            }
            let rest = crawl_segments(in_scope, segments, segments.len());
            assert(segments@.subrange(0, segments@.len() as int) =~= segments@);
            head || rest
        },
        _ => false,
    }
}

fn crawl_segments(in_scope: &ParamsInScope, segments: &Vec<Segment>, n: usize) -> (r: bool)
    requires
        n <= segments@.len(),
    ensures
        r == segments_mention(segments@.subrange(0, n as int), in_scope.names()),
    decreases segments@, n,
{
    if n == 0 {
        return false;
    }
    let prev = crawl_segments(in_scope, segments, n - 1);
    let ghost s = segments@.subrange(0, n as int);
    assert(s.drop_last() =~= segments@.subrange(0, n - 1));
    let here = match &segments[n - 1].args {
        PathArgs::Angle(args) => {
            proof {
                assert(decreases_to!(segments@ => segments@[n - 1]));
                assert(decreases_to!(segments@[n - 1] => segments@[n - 1].args));
                assert(decreases_to!(segments@[n - 1].args => segments@[n - 1].args->Angle_0));
                assert(decreases_to!(segments@[n - 1].args->Angle_0 => args@));
            }
            assert(args@.subrange(0, args@.len() as int) =~= args@);
            crawl_args(in_scope, args, args.len())
        },
        _ => false,
    };
    prev || here
}

fn crawl_args(in_scope: &ParamsInScope, args: &Vec<GenericArg>, n: usize) -> (r: bool)
    requires
        n <= args@.len(),
    ensures
        r == args_mention(args@.subrange(0, n as int), in_scope.names()),
    decreases args@, n,
{
    if n == 0 {
        return false;
    }
    let prev = crawl_args(in_scope, args, n - 1);
    let ghost s = args@.subrange(0, n as int);
    assert(s.drop_last() =~= args@.subrange(0, n - 1));
    let here = match &args[n - 1] {
        GenericArg::Type(t) => {
            proof {
                assert(decreases_to!(args@ => args@[n - 1]));
                assert(decreases_to!(args@[n - 1] => args@[n - 1]->Type_0));
            }
            crawl(in_scope, t)
        },
        _ => false,
    };
    prev || here
}

} // verus!

verus! {

/// The texts of a sequence of strings.
pub open spec fn texts(v: Seq<String>) -> Seq<Seq<char>> {
    Seq::new(v.len(), |i: int| v[i]@)
}

/// An insertion-ordered store of the bounds that type expressions must meet:
/// each distinct type text once, in the order it was first inserted, with its
/// distinct bounds in the order they were first inserted.
pub struct InferredBounds {
    entries: Vec<(String, Vec<String>)>,
}

pub type BoundsModel = Seq<(Seq<char>, Seq<Seq<char>>)>;

/// The first index whose type text is `ty`.
pub open spec fn key_index(m: BoundsModel, ty: Seq<char>) -> Option<int>
    decreases m.len(),
{
    if m.len() == 0 {
        None
    } else {
        match key_index(m.drop_last(), ty) {
            Some(i) => Some(i),
            None => if m.last().0 == ty {
                Some(m.len() - 1)
            } else {
                None
            },
        }
    }
}

/// The store after recording that `ty` must meet `bound`.
pub open spec fn bounds_insert(m: BoundsModel, ty: Seq<char>, bound: Seq<char>) -> BoundsModel {
    match key_index(m, ty) {
        Some(i) => if m[i].1.contains(bound) {
            m
        } else {
            m.update(i, (ty, m[i].1.push(bound)))
        },
        None => m.push((ty, seq![bound])),
    }
}

pub proof fn lemma_key_index(m: BoundsModel, ty: Seq<char>)
    ensures
        key_index(m, ty) matches Some(i) ==> 0 <= i < m.len() && m[i].0 == ty && forall|j: int|
            0 <= j < i ==> m[j].0 != ty,
        key_index(m, ty) is None ==> forall|j: int| 0 <= j < m.len() ==> m[j].0 != ty,
    decreases m.len(),
{
    if m.len() > 0 {
        lemma_key_index(m.drop_last(), ty);
        assert(forall|j: int| 0 <= j < m.len() - 1 ==> m.drop_last()[j] == m[j]);
    }
}

/// The store's invariant: each type text once, each bound once per type.
pub open spec fn bounds_wf(m: BoundsModel) -> bool {
    &&& forall|i: int, j: int| 0 <= i < j < m.len() ==> m[i].0 != m[j].0
    &&& forall|i: int, a: int, b: int|
        0 <= i < m.len() && 0 <= a < b < m[i].1.len() ==> m[i].1[a] != m[i].1[b]
}

/// Recording a bound keeps the store's invariant.
pub proof fn lemma_insert_keeps_wf(m: BoundsModel, ty: Seq<char>, bound: Seq<char>)
    requires
        bounds_wf(m),
    ensures
        bounds_wf(bounds_insert(m, ty, bound)),
{
    lemma_key_index(m, ty);
    let r = bounds_insert(m, ty, bound);
    match key_index(m, ty) {
        Some(k) => {
            if !m[k].1.contains(bound) {
                assert forall|i: int, a: int, b: int|
                    0 <= i < r.len() && 0 <= a < b < r[i].1.len() implies r[i].1[a] != r[i].1[b] by {
                    if i == k && b == m[k].1.len() {
                        assert(r[i].1[b] == bound);
                        assert(r[i].1[a] == m[k].1[a]);
                    }
                }
            }
        },
        None => {},
    }
}

/// Recording the same bound on the same type twice leaves the store as
/// recording it once does.
pub proof fn lemma_insert_idempotent(m: BoundsModel, ty: Seq<char>, bound: Seq<char>)
    ensures
        bounds_insert(bounds_insert(m, ty, bound), ty, bound) == bounds_insert(m, ty, bound),
{
    let m1 = bounds_insert(m, ty, bound);
    lemma_key_index(m, ty);
    lemma_key_index(m1, ty);
    match key_index(m, ty) {
        Some(i) => {
            assert(forall|j: int| 0 <= j < m.len() ==> m1[j].0 == m[j].0);
            assert(key_index(m1, ty) == Some(i));
            assert(m1[i].1.contains(bound)) by {
                if !m[i].1.contains(bound) {
                    assert(m1[i].1[m[i].1.len() as int] == bound);
                }
            }
        },
        None => {
            assert(m1[m.len() as int].1[0] == bound);
            assert(key_index(m1, ty) == Some(m.len() as int));
        },
    }
}

impl View for InferredBounds {
    type V = BoundsModel;

    closed spec fn view(&self) -> BoundsModel {
        Seq::new(self.entries@.len(), |i: int| (self.entries@[i].0@, texts(self.entries@[i].1@)))
    }
}

/// The where-clause holds the written predicates of `g`, then one predicate
/// per entry of `m`, in order.
pub open spec fn augments(w: WhereClause, g: Generics, m: BoundsModel) -> bool {
    &&& w.predicates@.len() == g.where_clause@.len() + m.len()
    &&& forall|i: int|
        0 <= i < g.where_clause@.len() ==> same_predicate(w.predicates@[i], g.where_clause@[i])
    &&& forall|i: int|
        0 <= i < m.len() ==> (#[trigger] w.predicates@[g.where_clause@.len() + i] matches Predicate::Bound {
            ty,
            bounds,
        } && ty@ == m[i].0 && texts(bounds@) == m[i].1)
}

impl InferredBounds {
    pub fn new() -> (r: InferredBounds)
        ensures
            r@ == Seq::<(Seq<char>, Seq<Seq<char>>)>::empty(),
            bounds_wf(r@),
    {
        let r = InferredBounds { entries: Vec::new() };
        assert(r@ =~= Seq::<(Seq<char>, Seq<Seq<char>>)>::empty());
        r
    }

    /// The index of the entry for the type text `ty`.
    fn position(&self, ty: &String) -> (r: Option<usize>)
        ensures
            r matches Some(i) ==> key_index(self@, ty@) == Some(i as int),
            r is None ==> key_index(self@, ty@) is None,
    {
        proof {
            lemma_key_index(self@, ty@);
        }
        let mut i: usize = 0;
        while i < self.entries.len()
            invariant
                i <= self.entries@.len(),
                forall|j: int| 0 <= j < i ==> self.entries@[j].0@ != ty@,
            decreases self.entries.len() - i,
        {
            if self.entries[i].0 == *ty {
                proof {
                    lemma_key_index(self@, ty@);
                    assert(self@[i as int].0 == ty@);
                    assert(forall|j: int| 0 <= j < i ==> self@[j].0 != ty@);
                }
                return Some(i);
            }
            i = i + 1;
        }
        None
    }

    /// Records that the type with text `ty` must meet `bound`.
    pub fn insert(&mut self, ty: String, bound: String)
        ensures
            final(self)@ == bounds_insert(old(self)@, ty@, bound@),
            bounds_wf(old(self)@) ==> bounds_wf(final(self)@),
    {
        proof {
            if bounds_wf(self@) {
                lemma_insert_keeps_wf(self@, ty@, bound@);
            }
        }
        proof {
            lemma_key_index(self@, ty@);
        }
        let found = self.position(&ty);
        if found.is_none() {
            let ghost before = self@;
            let mut v: Vec<String> = Vec::new();
            v.push(bound);
            self.entries.push((ty, v));
            assert(self@ =~= bounds_insert(before, ty@, bound@)) by {
                assert(key_index(before, ty@) is None);
                assert(texts(v@) =~= seq![bound@]);
            }
            return;
        }
        let i = found.unwrap();
        let mut k: usize = 0;
        let n = self.entries[i].1.len();
        while k < n
            invariant
                i < self.entries@.len(),
                n == self.entries@[i as int].1@.len(),
                k <= n,
                key_index(self@, ty@) == Some(i as int),
                *self == *old(self),
                forall|j: int| 0 <= j < k ==> self.entries@[i as int].1@[j]@ != bound@,
            decreases n - k,
        {
            if self.entries[i].1[k] == bound {
                assert(self@[i as int].1[k as int] == bound@);
                assert(self@[i as int].1.contains(bound@));
                return;
            }
            k = k + 1;
        }
        let ghost before = self@;
        assert(!before[i as int].1.contains(bound@));
        self.entries[i].1.push(bound);
        assert(self@ =~= bounds_insert(before, ty@, bound@)) by {
            assert(self@[i as int].1 =~= before[i as int].1.push(bound@));
        }
    }

    /// The where-clause of `generics`, with one predicate appended for each
    /// type in the store, in insertion order, carrying its bounds in order.
    pub fn augment_where_clause(&self, generics: &Generics) -> (r: WhereClause)
        ensures
            augments(r, *generics, self@),
    {
        let mut predicates: Vec<Predicate> = Vec::new();
        let g = generics.where_clause.len();
        let mut i: usize = 0;
        while i < g
            invariant
                g == generics.where_clause@.len(),
                i <= g,
                predicates@.len() == i,
                forall|k: int|
                    0 <= k < i ==> same_predicate(predicates@[k], generics.where_clause@[k]),
            decreases g - i,
        {
            predicates.push(clone_predicate(&generics.where_clause[i]));
            i = i + 1;
        }
        let mut j: usize = 0;
        while j < self.entries.len()
            invariant
                g == generics.where_clause@.len(),
                j <= self.entries@.len(),
                predicates@.len() == g + j,
                forall|k: int|
                    0 <= k < g ==> same_predicate(predicates@[k], generics.where_clause@[k]),
                forall|i: int|
                    0 <= i < j ==> (#[trigger] predicates@[g + i] matches Predicate::Bound {
                        ty,
                        bounds,
                    } && ty@ == self@[i].0 && texts(bounds@) == self@[i].1),
            decreases self.entries.len() - j,
        {
            let bounds = clone_strings(&self.entries[j].1);
            predicates.push(Predicate::Bound { ty: self.entries[j].0.clone(), bounds });
            assert(texts(bounds@) =~= self@[j as int].1);
            j = j + 1;
        }
        WhereClause { predicates }
    }
}

/// Two predicates with the same text.
pub open spec fn same_predicate(a: Predicate, b: Predicate) -> bool {
    match (a, b) {
        (Predicate::Written(x), Predicate::Written(y)) => x@ == y@,
        (Predicate::Bound { ty: t1, bounds: b1 }, Predicate::Bound { ty: t2, bounds: b2 }) => t1@
            == t2@ && texts(b1@) == texts(b2@),
        _ => false,
    }
}

fn clone_predicate(p: &Predicate) -> (r: Predicate)
    ensures
        same_predicate(r, *p),
{
    match p {
        Predicate::Written(t) => Predicate::Written(t.clone()),
        Predicate::Bound { ty, bounds } => Predicate::Bound {
            ty: ty.clone(),
            bounds: clone_strings(bounds),
        },
    }
}

} // verus!
