use vstd::prelude::*;

use crate::language::{Language, Seed};

verus! {

/// An arithmetic expression: integer literals, named variables, sums and
/// products. Each composite node owns its two children.
#[derive(Debug, PartialEq, Eq, PartialOrd, Ord)]
pub enum Expr {
    Int(i64),
    Var(String),
    Add(Box<Expr>, Box<Expr>),
    Mul(Box<Expr>, Box<Expr>),
}

/// One layer of an expression, with its child positions holding `T`.
#[derive(Debug, Clone, PartialEq, Eq, PartialOrd, Ord)]
pub enum ExprF<T> {
    Int(i64),
    Var(String),
    Add(T, T),
    Mul(T, T),
}

/// The value built from one layer whose children are expressions.
pub open spec fn from_layer(layer: ExprF<Expr>) -> Expr {
    match layer {
        ExprF::Int(n) => Expr::Int(n),
        ExprF::Var(s) => Expr::Var(s),
        ExprF::Add(a, b) => Expr::Add(Box::new(a), Box::new(b)),
        ExprF::Mul(a, b) => Expr::Mul(Box::new(a), Box::new(b)),
    }
}

/// `out` is `layer` with each child `c` replaced by a possible result of `f(c)`.
pub open spec fn mapped_layer<T, S, F: Fn(T) -> S>(f: F, layer: ExprF<T>, out: ExprF<S>) -> bool {
    match (layer, out) {
        (ExprF::Int(n), ExprF::Int(m)) => n == m,
        (ExprF::Var(s), ExprF::Var(t)) => s == t,
        (ExprF::Add(a, b), ExprF::Add(x, y)) => call_ensures(f, (a,), x) && call_ensures(f, (b,), y),
        (ExprF::Mul(a, b), ExprF::Mul(x, y)) => call_ensures(f, (a,), x) && call_ensures(f, (b,), y),
        _ => false,
    }
}

/// `f` accepts every child of `layer`.
pub open spec fn accepts_children<T, S, F: Fn(T) -> S>(f: F, layer: ExprF<T>) -> bool {
    match layer {
        ExprF::Add(a, b) => call_requires(f, (a,)) && call_requires(f, (b,)),
        ExprF::Mul(a, b) => call_requires(f, (a,)) && call_requires(f, (b,)),
        _ => true,
    }
}

/// The fold of `e` by a layer aggregation `g` given as a mathematical function.
pub open spec fn cata<T>(e: Expr, g: spec_fn(ExprF<T>) -> T) -> T
    decreases e,
{
    match e {
        Expr::Int(n) => g(ExprF::Int(n)),
        Expr::Var(s) => g(ExprF::Var(s)),
        Expr::Add(a, b) => g(ExprF::Add(cata(*a, g), cata(*b, g))),
        Expr::Mul(a, b) => g(ExprF::Mul(cata(*a, g), cata(*b, g))),
    }
}

/// `r` is a possible result of folding `e` with the aggregation `f`: children
/// are folded first, then `f` is applied to the layer of their results.
pub open spec fn folds_to<T, F: Fn(ExprF<T>) -> T>(e: Expr, f: F, r: T) -> bool
    decreases e,
{
    match e {
        Expr::Int(n) => call_ensures(f, (ExprF::Int(n),), r),
        Expr::Var(s) => call_ensures(f, (ExprF::Var(s),), r),
        Expr::Add(a, b) => exists|x: T, y: T|
            folds_to(*a, f, x) && folds_to(*b, f, y) && call_ensures(f, (ExprF::Add(x, y),), r),
        Expr::Mul(a, b) => exists|x: T, y: T|
            folds_to(*a, f, x) && folds_to(*b, f, y) && call_ensures(f, (ExprF::Mul(x, y),), r),
    }
}

/// `e` is a possible result of unfolding `seed` with the generator `f`: `f`
/// gives the top layer, and each child seed unfolds into the matching child.
pub open spec fn unfolds_to<T, F: Fn(T) -> ExprF<T>>(f: F, seed: T, e: Expr) -> bool
    decreases e,
{
    match e {
        Expr::Int(n) => call_ensures(f, (seed,), ExprF::Int(n)),
        Expr::Var(s) => call_ensures(f, (seed,), ExprF::Var(s)),
        Expr::Add(a, b) => exists|x: T, y: T|
            call_ensures(f, (seed,), ExprF::Add(x, y)) && unfolds_to(f, x, *a) && unfolds_to(f, y, *b),
        Expr::Mul(a, b) => exists|x: T, y: T|
            call_ensures(f, (seed,), ExprF::Mul(x, y)) && unfolds_to(f, x, *a) && unfolds_to(f, y, *b),
    }
}

/// Every seed of every layer that `f` may generate from `seed` has a smaller rank.
pub open spec fn shrinks<T: Seed, F: Fn(T) -> ExprF<T>>(f: F) -> bool {
    forall|seed: T, layer: ExprF<T>| #[trigger] call_ensures(f, (seed,), layer) ==> match layer {
        ExprF::Add(x, y) => x.rank() < seed.rank() && y.rank() < seed.rank(),
        ExprF::Mul(x, y) => x.rank() < seed.rank() && y.rank() < seed.rank(),
        _ => true,
    }
}

/// An integer that `i64` can hold.
pub open spec fn fits_i64(v: int) -> bool {
    i64::MIN <= v <= i64::MAX
}

/// The expression that stands for one evaluation result.
pub open spec fn residual(r: Result<i64, Expr>) -> Expr {
    match r {
        Ok(n) => Expr::Int(n),
        Err(e) => e,
    }
}

/// One evaluation step: a literal has its value, a variable has none, and a
/// sum or product has a value when both operands have one and the exact
/// result fits in `i64`; otherwise it is rebuilt from the operands' residuals.
pub open spec fn eval_layer(layer: ExprF<Result<i64, Expr>>) -> Result<i64, Expr> {
    match layer {
        ExprF::Int(n) => Ok(n),
        ExprF::Var(s) => Err(Expr::Var(s)),
        ExprF::Add(a, b) => if a is Ok && b is Ok && fits_i64(a->Ok_0 + b->Ok_0) {
            Ok((a->Ok_0 + b->Ok_0) as i64)
        } else {
            Err(Expr::Add(Box::new(residual(a)), Box::new(residual(b))))
        },
        ExprF::Mul(a, b) => if a is Ok && b is Ok && fits_i64(a->Ok_0 * b->Ok_0) {
            Ok((a->Ok_0 * b->Ok_0) as i64)
        } else {
            Err(Expr::Mul(Box::new(residual(a)), Box::new(residual(b))))
        },
    }
}

/// The result of evaluating `e`: the fold of `e` by one evaluation step.
pub open spec fn evaluated(e: Expr) -> Result<i64, Expr> {
    cata(e, |l: ExprF<Result<i64, Expr>>| eval_layer(l))
}

/// `e` holds no variable.
pub open spec fn is_constant(e: Expr) -> bool
    decreases e,
{
    match e {
        Expr::Int(_) => true,
        Expr::Var(_) => false,
        Expr::Add(a, b) => is_constant(*a) && is_constant(*b),
        Expr::Mul(a, b) => is_constant(*a) && is_constant(*b),
    }
}

/// The value of `e` in unbounded integers, variables counted as zero.
pub open spec fn value(e: Expr) -> int
    decreases e,
{
    match e {
        Expr::Int(n) => n as int,
        Expr::Var(_) => 0,
        Expr::Add(a, b) => value(*a) + value(*b),
        Expr::Mul(a, b) => value(*a) * value(*b),
    }
}

/// The value of every subtree of `e` that holds no variable fits in `i64`.
pub open spec fn in_range(e: Expr) -> bool
    decreases e,
{
    match e {
        Expr::Int(_) => true,
        Expr::Var(_) => true,
        Expr::Add(a, b) => in_range(*a) && in_range(*b) && (is_constant(e) ==> fits_i64(value(e))),
        Expr::Mul(a, b) => in_range(*a) && in_range(*b) && (is_constant(e) ==> fits_i64(value(e))),
    }
}

/// `e` with each subtree that holds no variable replaced by its literal value.
pub open spec fn reduced(e: Expr) -> Expr
    decreases e,
{
    if is_constant(e) {
        Expr::Int(value(e) as i64)
    } else {
        match e {
            Expr::Add(a, b) => Expr::Add(Box::new(reduced(*a)), Box::new(reduced(*b))),
            Expr::Mul(a, b) => Expr::Mul(Box::new(reduced(*a)), Box::new(reduced(*b))),
            _ => e,
        }
    }
}

/// Taking an expression apart into one layer and building it back gives the
/// same expression, and building an expression from a layer and taking it
/// apart gives the same layer.
pub proof fn lemma_wrap_unwrap(e: Expr, layer: ExprF<Expr>)
    ensures
        from_layer(e.layer_of()) == e,
        from_layer(layer).layer_of() == layer,
{
}

/// A fold of a sum is the aggregation applied to the sum of the folds of its
/// operands, the left operand folded first.
pub proof fn lemma_fold_structural<T, F: Fn(ExprF<T>) -> T>(
    e1: Expr,
    e2: Expr,
    f: F,
    g: spec_fn(ExprF<T>) -> T,
    r: T,
)
    ensures
        folds_to(Expr::Add(Box::new(e1), Box::new(e2)), f, r) <==> exists|x: T, y: T|
            folds_to(e1, f, x) && folds_to(e2, f, y) && call_ensures(f, (ExprF::Add(x, y),), r),
        cata(Expr::Add(Box::new(e1), Box::new(e2)), g) == g(ExprF::Add(cata(e1, g), cata(e2, g))),
{
}

/// Folding with an aggregation that agrees with a mathematical function `g`
/// gives the fold by `g`.
pub proof fn lemma_fold_computes<T, F: Fn(ExprF<T>) -> T>(
    e: Expr,
    f: F,
    g: spec_fn(ExprF<T>) -> T,
    r: T,
)
    requires
        forall|l: ExprF<T>, t: T| call_ensures(f, (l,), t) ==> t == g(l),
        folds_to(e, f, r),
    ensures
        r == cata(e, g),
    decreases e,
{
    match e {
        Expr::Add(a, b) => {
            let (x, y) = choose|x: T, y: T|
                folds_to(*a, f, x) && folds_to(*b, f, y) && call_ensures(f, (ExprF::Add(x, y),), r);
            lemma_fold_computes(*a, f, g, x);
            lemma_fold_computes(*b, f, g, y);
        },
        Expr::Mul(a, b) => {
            let (x, y) = choose|x: T, y: T|
                folds_to(*a, f, x) && folds_to(*b, f, y) && call_ensures(f, (ExprF::Mul(x, y),), r);
            lemma_fold_computes(*a, f, g, x);
            lemma_fold_computes(*b, f, g, y);
        },
        _ => {},
    }
}

/// Unfolding a seed with a generator `g` and folding the result with an
/// aggregation `f` that undoes `g` on every layer gives the seed back.
pub proof fn lemma_unfold_fold<T, G: Fn(T) -> ExprF<T>, F: Fn(ExprF<T>) -> T>(
    g: G,
    f: F,
    seed: T,
    e: Expr,
    r: T,
)
    requires
        forall|x: T, l: ExprF<T>, t: T|
            call_ensures(g, (x,), l) && call_ensures(f, (l,), t) ==> t == x,
        unfolds_to(g, seed, e),
        folds_to(e, f, r),
    ensures
        r == seed,
    decreases e,
{
    match e {
        Expr::Add(a, b) => {
            let (x, y) = choose|x: T, y: T|
                call_ensures(g, (seed,), ExprF::Add(x, y)) && unfolds_to(g, x, *a) && unfolds_to(g, y, *b);
            let (u, v) = choose|u: T, v: T|
                folds_to(*a, f, u) && folds_to(*b, f, v) && call_ensures(f, (ExprF::Add(u, v),), r);
            lemma_unfold_fold(g, f, x, *a, u);
            lemma_unfold_fold(g, f, y, *b, v);
        },
        Expr::Mul(a, b) => {
            let (x, y) = choose|x: T, y: T|
                call_ensures(g, (seed,), ExprF::Mul(x, y)) && unfolds_to(g, x, *a) && unfolds_to(g, y, *b);
            let (u, v) = choose|u: T, v: T|
                folds_to(*a, f, u) && folds_to(*b, f, v) && call_ensures(f, (ExprF::Mul(u, v),), r);
            lemma_unfold_fold(g, f, x, *a, u);
            lemma_unfold_fold(g, f, y, *b, v);
        },
        _ => {},
    }
}

/// Both evaluation laws at once, by induction on the expression.
proof fn lemma_evaluated(e: Expr)
    requires
        in_range(e),
    ensures
        is_constant(e) ==> fits_i64(value(e)),
        is_constant(e) ==> evaluated(e) == Ok::<i64, Expr>(value(e) as i64),
        !is_constant(e) ==> evaluated(e) == Err::<i64, Expr>(reduced(e)),
    decreases e,
{
    match e {
        Expr::Add(a, b) => {
            lemma_evaluated(*a);
            lemma_evaluated(*b);
        },
        Expr::Mul(a, b) => {
            lemma_evaluated(*a);
            lemma_evaluated(*b);
        },
        _ => {},
    }
}

/// An expression without variables, whose constant subtrees all fit in
/// `i64`, evaluates to its arithmetic value.
pub proof fn lemma_eval_constant(e: Expr)
    requires
        is_constant(e),
        in_range(e),
    ensures
        evaluated(e) == Ok::<i64, Expr>(value(e) as i64),
{
    lemma_evaluated(e);
}

/// An expression with a variable, whose constant subtrees all fit in `i64`,
/// evaluates to the expression of the same shape in which each subtree
/// without variables is replaced by its literal value.
pub proof fn lemma_eval_residual(e: Expr)
    requires
        !is_constant(e),
        in_range(e),
    ensures
        evaluated(e) == Err::<i64, Expr>(reduced(e)),
{
    lemma_evaluated(e);
}

/// The expression that stands for one evaluation result.
fn to_residual(r: Result<i64, Expr>) -> (e: Expr)
    ensures
        e == residual(r),
{
    match r {
        Ok(n) => Expr::from(n),
        Err(e) => e,
    }
}

/// The number of nodes of `e`.
pub open spec fn size(e: Expr) -> nat
    decreases e,
{
    match e {
        Expr::Int(_) => 1,
        Expr::Var(_) => 1,
        Expr::Add(a, b) => 1 + size(*a) + size(*b),
        Expr::Mul(a, b) => 1 + size(*a) + size(*b),
    }
}

/// An expression seeds an unfold by its number of nodes: its children are
/// smaller.
impl Seed for Expr {
    open spec fn rank(&self) -> nat {
        size(*self)
    }
}

/// A generator that takes each seed apart into its top layer generates seeds
/// of smaller rank.
pub proof fn lemma_unwrap_shrinks<F: Fn(Expr) -> ExprF<Expr>>(f: F)
    requires
        forall|x: Expr, l: ExprF<Expr>| call_ensures(f, (x,), l) ==> l == x.layer_of(),
    ensures
        shrinks::<Expr, F>(f),
{
}

/// Unfolding a seed with a generator that takes each seed apart into its top
/// layer builds the seed back.
pub proof fn lemma_unfold_unwrap<F: Fn(Expr) -> ExprF<Expr>>(f: F, seed: Expr, e: Expr)
    requires
        forall|x: Expr, l: ExprF<Expr>| call_ensures(f, (x,), l) ==> l == x.layer_of(),
        unfolds_to(f, seed, e),
    ensures
        e == seed,
    decreases e,
{
    match e {
        Expr::Add(a, b) => {
            let (x, y) = choose|x: Expr, y: Expr|
                call_ensures(f, (seed,), ExprF::Add(x, y)) && unfolds_to(f, x, *a) && unfolds_to(f, y, *b);
            lemma_unfold_unwrap(f, x, *a);
            lemma_unfold_unwrap(f, y, *b);
        },
        Expr::Mul(a, b) => {
            let (x, y) = choose|x: Expr, y: Expr|
                call_ensures(f, (seed,), ExprF::Mul(x, y)) && unfolds_to(f, x, *a) && unfolds_to(f, y, *b);
            lemma_unfold_unwrap(f, x, *a);
            lemma_unfold_unwrap(f, y, *b);
        },
        _ => {},
    }
}

impl Language for Expr {
    type Layer = ExprF<Expr>;

    open spec fn layer_of(self) -> ExprF<Expr> {
        match self {
            Expr::Int(n) => ExprF::Int(n),
            Expr::Var(s) => ExprF::Var(s),
            Expr::Add(a, b) => ExprF::Add(*a, *b),
            Expr::Mul(a, b) => ExprF::Mul(*a, *b),
        }
    }

    fn wrap(layer: ExprF<Expr>) -> (r: Expr)
        ensures
            r == from_layer(layer),
    {
        match layer {
            ExprF::Int(n) => Expr::Int(n),
            ExprF::Var(s) => Expr::Var(s),
            ExprF::Add(a, b) => a + b,
            ExprF::Mul(a, b) => a * b,
        }
    }

    fn unwrap(self) -> (r: ExprF<Expr>) {
        match self {
            Expr::Int(n) => ExprF::Int(n),
            Expr::Var(s) => ExprF::Var(s),
            Expr::Add(a, b) => ExprF::Add(*a, *b),
            Expr::Mul(a, b) => ExprF::Mul(*a, *b),
        }
    }
}

impl Clone for Expr {
    fn clone(&self) -> (r: Expr)
        ensures
            r == *self,
    {
        self.copy_tree()
    }
}

impl core::ops::Add for Expr {
    type Output = Expr;

    fn add(self, other: Expr) -> (r: Expr) {
        Expr::Add(Box::new(self), Box::new(other))
    }
}

impl vstd::std_specs::ops::AddSpecImpl for Expr {
    open spec fn obeys_add_spec() -> bool {
        true
    }

    open spec fn add_req(self, rhs: Expr) -> bool {
        true
    }

    open spec fn add_spec(self, rhs: Expr) -> Expr {
        Expr::Add(Box::new(self), Box::new(rhs))
    }
}

impl core::ops::Mul for Expr {
    type Output = Expr;

    fn mul(self, other: Expr) -> (r: Expr) {
        Expr::Mul(Box::new(self), Box::new(other))
    }
}

impl vstd::std_specs::ops::MulSpecImpl for Expr {
    open spec fn obeys_mul_spec() -> bool {
        true
    }

    open spec fn mul_req(self, rhs: Expr) -> bool {
        true
    }

    open spec fn mul_spec(self, rhs: Expr) -> Expr {
        Expr::Mul(Box::new(self), Box::new(rhs))
    }
}

impl From<i64> for Expr {
    fn from(n: i64) -> (r: Expr) {
        Expr::Int(n)
    }
}

impl vstd::std_specs::convert::FromSpecImpl<i64> for Expr {
    open spec fn obeys_from_spec() -> bool {
        true
    }

    open spec fn from_spec(n: i64) -> Expr {
        Expr::Int(n)
    }
}

impl From<&str> for Expr {
    fn from(s: &str) -> (r: Expr)
        ensures
            r is Var && r->Var_0@ == s@,
    {
        Expr::Var(s.to_string())
    }
}

/// A `String` has no constructor in specifications, so `from` on a `&str`
/// states its result in its own `ensures` instead of through `from_spec`.
impl vstd::std_specs::convert::FromSpecImpl<&str> for Expr {
    open spec fn obeys_from_spec() -> bool {
        false
    }

    open spec fn from_spec(s: &str) -> Expr {
        arbitrary()
    }
}

impl From<String> for Expr {
    fn from(s: String) -> (r: Expr) {
        Expr::Var(s)
    }
}

impl vstd::std_specs::convert::FromSpecImpl<String> for Expr {
    open spec fn obeys_from_spec() -> bool {
        true
    }

    open spec fn from_spec(s: String) -> Expr {
        Expr::Var(s)
    }
}

impl Expr {
    fn copy_tree(&self) -> (r: Expr)
        ensures
            r == *self,
        decreases self,
    {
        match self {
            Expr::Int(n) => Expr::Int(*n),
            Expr::Var(s) => Expr::Var(s.clone()),
            Expr::Add(a, b) => Expr::Add(Box::new(a.copy_tree()), Box::new(b.copy_tree())),
            Expr::Mul(a, b) => Expr::Mul(Box::new(a.copy_tree()), Box::new(b.copy_tree())),
        }
    }

    /// Applies `f` to each child of one layer, left child first, and keeps
    /// the rest of the layer as it is.
    pub fn fmap<T, S, F: Fn(T) -> S>(f: F, layer: ExprF<T>) -> (r: ExprF<S>)
        requires
            accepts_children(f, layer),
        ensures
            mapped_layer(f, layer, r),
    {
        match layer {
            ExprF::Int(n) => ExprF::Int(n),
            ExprF::Var(s) => ExprF::Var(s),
            ExprF::Add(a, b) => {
                let x = f(a);
                let y = f(b);
                ExprF::Add(x, y)
            },
            ExprF::Mul(a, b) => {
                let x = f(a);
                let y = f(b);
                ExprF::Mul(x, y)
            },
        }
    }

    /// Folds the expression into one value: each child is folded first, left
    /// before right, and `f` is applied once per node to the layer of the
    /// children's results.
    pub fn fold<T, F: Fn(ExprF<T>) -> T>(self, f: &F) -> (r: T)
        requires
            forall|l: ExprF<T>| call_requires(*f, (l,)),
        ensures
            folds_to(self, *f, r),
        decreases self,
    {
        let whole: Ghost<Expr> = Ghost(self);
        let recur = |me: Expr| -> (t: T)
            requires
                (whole@ is Add && (me == *whole@->Add_0 || me == *whole@->Add_1)) || (whole@ is Mul && (
                    me == *whole@->Mul_0 || me == *whole@->Mul_1)),
            ensures
                folds_to(me, *f, t),
        {
            me.fold(f)
        };
        let ft = Self::fmap(recur, self.unwrap());
        f(ft)
    }

    /// Builds an expression from a seed: `f` gives the top layer, and each
    /// child seed of that layer is unfolded in turn, left before right.
    pub fn unfold<T: Seed, F: Fn(T) -> ExprF<T>>(f: &F, a: T) -> (r: Expr)
        requires
            forall|x: T| call_requires(*f, (x,)),
            shrinks::<T, F>(*f),
        ensures
            unfolds_to(*f, a, r),
        decreases a.rank(),
    {
        let bound: Ghost<nat> = Ghost(a.rank());
        let layer = f(a);
        let recur = |x: T| -> (e: Expr)
            requires
                x.rank() < bound@,
            ensures
                unfolds_to(*f, x, e),
        {
            Self::unfold(f, x)
        };
        let children = Self::fmap(recur, layer);
        let ghost built = children;
        let r = Self::wrap(children);
        proof {
            match built {
                ExprF::Add(x, y) => {
                    assert(unfolds_to(*f, layer->Add_0, x));
                    assert(unfolds_to(*f, layer->Add_1, y));
                },
                ExprF::Mul(x, y) => {
                    assert(unfolds_to(*f, layer->Mul_0, x));
                    assert(unfolds_to(*f, layer->Mul_1, y));
                },
                _ => {},
            }
        }
        r
    }

    /// Evaluates the expression as far as it can: the integer value where it
    /// holds no variable, else the expression with each subtree that has a
    /// value replaced by its literal.
    pub fn eval(self) -> (r: Result<i64, Expr>)
        ensures
            r == evaluated(self),
    {
        let whole: Ghost<Expr> = Ghost(self);
        let step = |layer: ExprF<Result<i64, Expr>>| -> (r: Result<i64, Expr>)
            ensures
                r == eval_layer(layer),
        {
            match layer {
                ExprF::Int(n) => Ok(n),
                ExprF::Var(s) => Err(Expr::Var(s)),
                ExprF::Add(a, b) => match (a, b) {
                    (Ok(x), Ok(y)) => match x.checked_add(y) {
                        Some(z) => Ok(z),
                        None => Err(Expr::from(x) + Expr::from(y)),
                    },
                    (a, b) => Err(to_residual(a) + to_residual(b)),
                },
                ExprF::Mul(a, b) => match (a, b) {
                    (Ok(x), Ok(y)) => match x.checked_mul(y) {
                        Some(z) => Ok(z),
                        None => Err(Expr::from(x) * Expr::from(y)),
                    },
                    (a, b) => Err(to_residual(a) * to_residual(b)),
                },
            }
        };
        let r = self.fold(&step);
        proof {
            lemma_fold_computes(whole@, step, |l: ExprF<Result<i64, Expr>>| eval_layer(l), r);
        }
        r
    }
}

} // verus!
