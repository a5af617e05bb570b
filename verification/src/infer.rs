//! Unification of types over a table of type nodes. A type variable is one
//! node of the table, shared by every type that mentions it by index, so
//! that binding it binds every occurrence.

use vstd::prelude::*;
use crate::value::EngineError;

verus! {

/// Index of a type in the table.
pub type TypeId = usize;

/// A type constructor.
#[derive(Debug, Clone, Copy, PartialEq, Eq, Structural)]
pub enum Tycon {
    Unit,
    Bool,
    Int,
    Float,
    Option,
    Char,
    String,
    List,
    Mapping,
    Bytes,
    File,
    Struct,
    Enum,
    Intf,
}

/// A type.
#[derive(Debug, PartialEq, Eq)]
pub enum Type {
    /// A constructor applied to type arguments.
    App(Tycon, Vec<TypeId>),
    /// A named association with a type and, it may be, a default type.
    Assoc { name: String, ty: TypeId, default: Option<TypeId> },
    /// A type variable, with the type it is bound to once it is bound.
    Meta(Option<TypeId>),
}

/// What a `Type` holds.
pub enum TypeView {
    App(Tycon, Seq<TypeId>),
    Assoc(Seq<char>, TypeId, Option<TypeId>),
    Meta(Option<TypeId>),
}

impl View for Type {
    type V = TypeView;

    open spec fn view(&self) -> TypeView {
        match self {
            Type::App(con, args) => TypeView::App(*con, args@),
            Type::Assoc { name, ty, default } => TypeView::Assoc(name@, *ty, *default),
            Type::Meta(binding) => TypeView::Meta(*binding),
        }
    }
}

/// The table has a type variable at `id`.
pub open spec fn is_variable(types: Seq<TypeView>, id: TypeId) -> bool {
    id < types.len() && types[id as int] is Meta
}

/// The type that `id` stands for: the type that is reached from `id` by
/// following the bindings of variables, over at most `fuel` bindings, up
/// to a type that is no variable or a variable that is not bound. Nothing
/// where that leaves the table or takes more bindings.
pub open spec fn resolve(types: Seq<TypeView>, id: TypeId, fuel: nat) -> Option<TypeId>
    decreases fuel,
{
    if id >= types.len() {
        None
    } else {
        match types[id as int] {
            TypeView::Meta(Some(x)) => if fuel == 0 {
                None
            } else {
                resolve(types, x, (fuel - 1) as nat)
            },
            _ => Some(id),
        }
    }
}

/// Unifies the expected type `ex` with the actual type `ac` in the table
/// `types`, descending at most `fuel` levels, and gives the table
/// afterwards.
///
/// - Two variables: where one is bound, the other takes its binding,
///   unless it is that binding itself; where both are, their bindings are
///   unified; where neither is, they are joined: the expected one is bound
///   to the actual one, unless they are the same variable.
/// - A variable and a type that is none: a variable that is bound to
///   another variable hands the type on to that variable, so that joined
///   variables are bound together; any other variable is bound to the
///   type.
/// - A type that is no variable and a variable: nothing happens.
/// - Two applications: the constructors and the numbers of arguments must
///   be the same, and the arguments are unified in turn.
/// - Two associations: the names must be the same, and the types are
///   unified.
/// - Anything else, and a descent below `fuel` levels, is a `TypeConflict`;
///   an index that is not in the table is `IndexOutOfRange`.
///
/// What was bound before a failure stays bound.
pub open spec fn unify(types: Seq<TypeView>, ex: TypeId, ac: TypeId, fuel: nat) -> (
    Seq<TypeView>,
    Result<(), EngineError>,
)
    decreases fuel, 0nat, 0nat,
{
    if ex >= types.len() || ac >= types.len() {
        (types, Err(EngineError::IndexOutOfRange))
    } else {
        match (types[ex as int], types[ac as int]) {
            (TypeView::Meta(Some(x)), TypeView::Meta(Some(y))) => if fuel == 0 {
                (types, Err(EngineError::TypeConflict))
            } else {
                unify(types, x, y, (fuel - 1) as nat)
            },
            (TypeView::Meta(Some(x)), TypeView::Meta(None)) => if x == ac {
                (types, Ok(()))
            } else {
                (types.update(ac as int, TypeView::Meta(Some(x))), Ok(()))
            },
            (TypeView::Meta(None), TypeView::Meta(Some(y))) => if y == ex {
                (types, Ok(()))
            } else {
                (types.update(ex as int, TypeView::Meta(Some(y))), Ok(()))
            },
            (TypeView::Meta(None), TypeView::Meta(None)) => if ex == ac {
                (types, Ok(()))
            } else {
                (types.update(ex as int, TypeView::Meta(Some(ac))), Ok(()))
            },
            (TypeView::Meta(Some(x)), _) => if !is_variable(types, x) {
                (types.update(ex as int, TypeView::Meta(Some(ac))), Ok(()))
            } else if fuel == 0 {
                (types, Err(EngineError::TypeConflict))
            } else {
                unify(types, x, ac, (fuel - 1) as nat)
            },
            (TypeView::Meta(None), _) => (
                types.update(ex as int, TypeView::Meta(Some(ac))),
                Ok(()),
            ),
            (_, TypeView::Meta(_)) => (types, Ok(())),
            (TypeView::App(c1, a1), TypeView::App(c2, a2)) => if c1 != c2 || a1.len() != a2.len()
                || fuel == 0 {
                (types, Err(EngineError::TypeConflict))
            } else {
                unify_all(types, a1, a2, (fuel - 1) as nat)
            },
            (TypeView::Assoc(n1, t1, _), TypeView::Assoc(n2, t2, _)) => if n1 != n2 || fuel == 0 {
                (types, Err(EngineError::TypeConflict))
            } else {
                unify(types, t1, t2, (fuel - 1) as nat)
            },
            _ => (types, Err(EngineError::TypeConflict)),
        }
    }
}

/// Unifies each of `xs` with the type at its position in `ys`, the first
/// first, up to the first failure.
pub open spec fn unify_all(types: Seq<TypeView>, xs: Seq<TypeId>, ys: Seq<TypeId>, fuel: nat) -> (
    Seq<TypeView>,
    Result<(), EngineError>,
)
    decreases fuel, 1nat, xs.len(),
{
    if xs.len() == 0 {
        (types, Ok(()))
    } else {
        let (after, result) = unify(types, xs[0], ys[0], fuel);
        match result {
            Err(e) => (after, Err(e)),
            Ok(_) => unify_all(after, xs.drop_first(), ys.drop_first(), fuel),
        }
    }
}

/// The models of a list of types.
pub open spec fn type_views(types: Seq<Type>) -> Seq<TypeView> {
    Seq::new(types.len(), |i: int| types[i]@)
}

/// A table of types, and the unifier that works on it.
#[derive(Debug)]
pub struct Infer {
    types: Vec<Type>,
}

impl View for Infer {
    type V = Seq<TypeView>;

    closed spec fn view(&self) -> Seq<TypeView> {
        type_views(self.types@)
    }
}

/// A copy of a list of indices.
fn copy_ids(src: &Vec<TypeId>) -> (r: Vec<TypeId>)
    ensures
        r@ == src@,
{
    let mut out: Vec<TypeId> = Vec::new();
    let mut i: usize = 0;
    while i < src.len()
        invariant
            i <= src.len(),
            out@ == src@.take(i as int),
        decreases src.len() - i,
    {
        out.push(src[i]);
        assert(src@.take(i + 1) =~= src@.take(i as int).push(src@[i as int]));
        i += 1;
    }
    assert(src@.take(src.len() as int) =~= src@);
    out
}

/// What `unify` has to do once it has looked at the two types.
enum Plan {
    Done(Result<(), EngineError>),
    Bind(TypeId, TypeId),
    Pair(TypeId, TypeId),
    Lists(Vec<TypeId>, Vec<TypeId>),
}

impl Infer {
    /// An empty table.
    pub fn new() -> (r: Infer)
        ensures
            r@ == Seq::<TypeView>::empty(),
    {
        let r = Infer { types: Vec::new() };
        assert(r@ =~= Seq::<TypeView>::empty());
        r
    }

    /// Adds `ty` to the table and returns its index.
    pub fn add(&mut self, ty: Type) -> (r: TypeId)
        ensures
            r == old(self)@.len(),
            final(self)@ == old(self)@.push(ty@),
    {
        let id = self.types.len();
        self.types.push(ty);
        assert(self@ =~= old(self)@.push(ty@));
        id
    }

    /// The type at `id`, if the table has one there.
    pub fn get(&self, id: TypeId) -> (r: Option<&Type>)
        ensures
            match r {
                Some(ty) => id < self@.len() && ty@ == self@[id as int],
                None => id >= self@.len(),
            },
    {
        if id < self.types.len() {
            Some(&self.types[id])
        } else {
            None
        }
    }

    /// Whether the table has a type variable at `id`.
    fn holds_variable(&self, id: TypeId) -> (r: bool)
        ensures
            r == is_variable(self@, id),
    {
        if id < self.types.len() {
            assert(self@[id as int] == self.types@[id as int]@);
            match &self.types[id] {
                Type::Meta(_) => true,
                _ => false,
            }
        } else {
            false
        }
    }

    /// Looks at the types at `ex` and `ac` and says what is to be done.
    fn plan(&self, ex: TypeId, ac: TypeId, fuel: usize) -> (r: Plan)
        ensures
            ex >= self@.len() || ac >= self@.len() ==> r == Plan::Done(
                Err(EngineError::IndexOutOfRange),
            ),
            ex < self@.len() && ac < self@.len() ==> match r {
                Plan::Done(result) => unify(self@, ex, ac, fuel as nat) == (self@, result),
                Plan::Bind(at, to) => at < self@.len() && unify(self@, ex, ac, fuel as nat) == (
                    self@.update(at as int, TypeView::Meta(Some(to))),
                    Ok::<(), EngineError>(()),
                ),
                Plan::Pair(x, y) => fuel > 0 && unify(self@, ex, ac, fuel as nat) == unify(
                    self@,
                    x,
                    y,
                    (fuel - 1) as nat,
                ),
                Plan::Lists(xs, ys) => fuel > 0 && xs@.len() == ys@.len() && unify(
                    self@,
                    ex,
                    ac,
                    fuel as nat,
                ) == unify_all(self@, xs@, ys@, (fuel - 1) as nat),
            },
    {
        if ex >= self.types.len() || ac >= self.types.len() {
            return Plan::Done(Err(EngineError::IndexOutOfRange));
        }
        assert(self@[ex as int] == self.types@[ex as int]@);
        assert(self@[ac as int] == self.types@[ac as int]@);
        match (&self.types[ex], &self.types[ac]) {
            (Type::Meta(Some(x)), Type::Meta(Some(y))) => {
                if fuel == 0 {
                    Plan::Done(Err(EngineError::TypeConflict))
                } else {
                    Plan::Pair(*x, *y)
                }
            },
            (Type::Meta(Some(x)), Type::Meta(None)) => {
                if *x == ac {
                    Plan::Done(Ok(()))
                } else {
                    Plan::Bind(ac, *x)
                }
            },
            (Type::Meta(None), Type::Meta(Some(y))) => {
                if *y == ex {
                    Plan::Done(Ok(()))
                } else {
                    Plan::Bind(ex, *y)
                }
            },
            (Type::Meta(None), Type::Meta(None)) => {
                if ex == ac {
                    Plan::Done(Ok(()))
                } else {
                    Plan::Bind(ex, ac)
                }
            },
            (Type::Meta(Some(x)), _) => {
                if !self.holds_variable(*x) {
                    Plan::Bind(ex, ac)
                } else if fuel == 0 {
                    Plan::Done(Err(EngineError::TypeConflict))
                } else {
                    Plan::Pair(*x, ac)
                }
            },
            (Type::Meta(None), _) => Plan::Bind(ex, ac),
            (_, Type::Meta(_)) => Plan::Done(Ok(())),
            (Type::App(c1, a1), Type::App(c2, a2)) => {
                if *c1 != *c2 || a1.len() != a2.len() || fuel == 0 {
                    Plan::Done(Err(EngineError::TypeConflict))
                } else {
                    Plan::Lists(copy_ids(a1), copy_ids(a2))
                }
            },
            (Type::Assoc { name: n1, ty: t1, .. }, Type::Assoc { name: n2, ty: t2, .. }) => {
                if *n1 != *n2 || fuel == 0 {
                    Plan::Done(Err(EngineError::TypeConflict))
                } else {
                    Plan::Pair(*t1, *t2)
                }
            },
            _ => Plan::Done(Err(EngineError::TypeConflict)),
        }
    }

    /// Unifies the types at `ex` and `ac`, descending at most `fuel`
    /// levels.
    fn unify_within(&mut self, ex: TypeId, ac: TypeId, fuel: usize) -> (r: Result<(), EngineError>)
        ensures
            (final(self)@, r) == unify(old(self)@, ex, ac, fuel as nat),
        decreases fuel, 0nat, 0nat,
    {
        match self.plan(ex, ac, fuel) {
            Plan::Done(result) => result,
            Plan::Bind(at, to) => {
                self.types.set(at, Type::Meta(Some(to)));
                assert(self@ =~= old(self)@.update(at as int, TypeView::Meta(Some(to))));
                Ok(())
            },
            Plan::Pair(x, y) => self.unify_within(x, y, fuel - 1),
            Plan::Lists(xs, ys) => {
                assert(xs@.skip(0) =~= xs@);
                assert(ys@.skip(0) =~= ys@);
                self.unify_lists(&xs, &ys, 0, fuel - 1)
            },
        }
    }

    /// Unifies each of `xs` from position `from` on with the type at its
    /// position in `ys`, up to the first failure.
    fn unify_lists(&mut self, xs: &Vec<TypeId>, ys: &Vec<TypeId>, from: usize, fuel: usize) -> (r:
        Result<(), EngineError>)
        requires
            xs@.len() == ys@.len(),
            from <= xs@.len(),
        ensures
            (final(self)@, r) == unify_all(
                old(self)@,
                xs@.skip(from as int),
                ys@.skip(from as int),
                fuel as nat,
            ),
        decreases fuel, 1nat, xs@.len() - from,
    {
        if from >= xs.len() {
            return Ok(());
        }
        assert(xs@.skip(from as int).drop_first() =~= xs@.skip(from + 1));
        assert(ys@.skip(from as int).drop_first() =~= ys@.skip(from + 1));
        match self.unify_within(xs[from], ys[from], fuel) {
            Err(e) => Err(e),
            Ok(()) => self.unify_lists(xs, ys, from + 1, fuel),
        }
    }

    /// Unifies the expected type at `ex` with the actual type at `ac`.
    /// The descent is no deeper than the table is long, which is deep
    /// enough for every type that does not contain itself.
    pub fn infer(&mut self, ex: TypeId, ac: TypeId) -> (r: Result<(), EngineError>)
        ensures
            (final(self)@, r) == unify(old(self)@, ex, ac, old(self)@.len()),
    {
        let fuel = self.types.len();
        self.unify_within(ex, ac, fuel)
    }
}

/// Joined variables are bound together: once two unbound variables were
/// unified, unifying either of them with a type that is no variable makes
/// both stand for that type.
pub proof fn lemma_joined_variables_bind_together(
    types: Seq<TypeView>,
    e: TypeId,
    a: TypeId,
    chosen: TypeId,
    t: TypeId,
    joining: nat,
    binding: nat,
)
    requires
        e < types.len(),
        a < types.len(),
        t < types.len(),
        e != a,
        types[e as int] == TypeView::Meta(None),
        types[a as int] == TypeView::Meta(None),
        !(types[t as int] is Meta),
        chosen == e || chosen == a,
        binding >= 1,
    ensures
        unify(types, e, a, joining).1 is Ok,
        ({
            let joined = unify(types, e, a, joining).0;
            let (bound, result) = unify(joined, chosen, t, binding);
            &&& result is Ok
            &&& resolve(bound, e, 2) == Some(t)
            &&& resolve(bound, a, 2) == Some(t)
        }),
{
    let joined = types.update(e as int, TypeView::Meta(Some(a)));
    assert(unify(types, e, a, joining).0 == joined);
    let bound = joined.update(a as int, TypeView::Meta(Some(t)));
    assert(is_variable(joined, a));
    assert(unify(joined, a, t, (binding - 1) as nat) == (bound, Ok::<(), EngineError>(())));
    assert(unify(joined, chosen, t, binding) == (bound, Ok::<(), EngineError>(())));
    reveal_with_fuel(resolve, 3);
}

} // verus!
