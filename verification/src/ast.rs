//! The abstract syntax of the language: expressions, distributions and
//! statements, together with the mathematical views (`ExprV`, `DistV`,
//! `StatementV`) that every contract in this crate is stated over, and the
//! error kinds that parsing and evaluation can report.

use vstd::prelude::*;

verus! {

/// An expression tree. Each composite node exclusively owns its children;
/// the grammar never produces sharing or cycles.
#[derive(Debug, PartialEq)]
pub enum Expr {
    /// A signed 64-bit integer literal.
    Int(i64),
    /// A reference to a named variable.
    Var(String),
    /// Unary negation.
    Neg(Box<Expr>),
    /// Addition. On two distribution-bound variables this is read as
    /// convolution by the runtime, not as numeric addition.
    Add(Box<Expr>, Box<Expr>),
    /// Subtraction.
    Sub(Box<Expr>, Box<Expr>),
    /// Multiplication.
    Mul(Box<Expr>, Box<Expr>),
    /// Division. Division by zero follows the non-trapping rules described
    /// in [`crate::num`].
    Div(Box<Expr>, Box<Expr>),
    /// A distribution literal used as a value.
    Dist(Dist),
    /// A query on a bound distribution, written `var:method(args)`.
    DistMethodCall { var: String, method: String, args: Vec<Expr> },
}

/// A distribution expression. Parameters are plain numeric expressions,
/// evaluated at use time against the current variable bindings.
#[derive(Debug, PartialEq)]
pub enum Dist {
    /// The uniform distribution over an inclusive integer range.
    Uniform(Box<Expr>, Box<Expr>),
    /// Explicit value-to-probability pairs; no normalization is enforced
    /// and duplicate values are kept as declared (queries take the first
    /// matching pair).
    Discrete(Vec<(Expr, Expr)>),
    /// The convolution of two independent distributions under addition.
    CombinedDist(Box<Dist>, Box<Dist>),
    /// Reserved: repeat a distribution a number of times, then join a
    /// continuation distribution. Its semantics are an open design
    /// question, so every use reports [`Error::UnimplementedFeature`].
    ChainDist(Box<Dist>, u64, Box<Dist>),
}

/// A statement of the language.
#[derive(Debug, PartialEq)]
pub enum Statement {
    /// `let x;` — declares a numeric variable initialized to zero. The
    /// payload must be an [`Expr::Var`]; anything else is a shape error
    /// at execution time.
    Decl(Expr),
    /// `x = e;` — binds a variable to a number or to a distribution,
    /// depending on the evaluated shape of `value`.
    Assign { name: Expr, value: Expr },
    /// `let x = e;` — declaration combined with an assignment; the runtime
    /// treats it exactly as [`Statement::Assign`].
    DeclAssign { name: Expr, value: Expr },
    /// `output(e);` — evaluates the expression and emits one line of text.
    HardcodedOutput(Expr),
}

/// The mathematical view of an [`Expr`]: names become character sequences
/// and vectors become sequences.
pub enum ExprV {
    Int(i64),
    Var(Seq<char>),
    Neg(Box<ExprV>),
    Add(Box<ExprV>, Box<ExprV>),
    Sub(Box<ExprV>, Box<ExprV>),
    Mul(Box<ExprV>, Box<ExprV>),
    Div(Box<ExprV>, Box<ExprV>),
    Dist(Box<DistV>),
    DistMethodCall { var: Seq<char>, method: Seq<char>, args: Seq<ExprV> },
}

/// The mathematical view of a [`Dist`].
pub enum DistV {
    Uniform(Box<ExprV>, Box<ExprV>),
    Discrete(Seq<(ExprV, ExprV)>),
    CombinedDist(Box<DistV>, Box<DistV>),
    ChainDist(Box<DistV>, u64, Box<DistV>),
}

/// The mathematical view of a [`Statement`].
pub enum StatementV {
    Decl(ExprV),
    Assign { name: ExprV, value: ExprV },
    DeclAssign { name: ExprV, value: ExprV },
    HardcodedOutput(ExprV),
}

/// The view of an expression tree.
pub open spec fn expr_view(e: Expr) -> ExprV
    decreases e,
{
    match e {
        Expr::Int(n) => ExprV::Int(n),
        Expr::Var(s) => ExprV::Var(s@),
        Expr::Neg(a) => ExprV::Neg(Box::new(expr_view(*a))),
        Expr::Add(a, b) => ExprV::Add(Box::new(expr_view(*a)), Box::new(expr_view(*b))),
        Expr::Sub(a, b) => ExprV::Sub(Box::new(expr_view(*a)), Box::new(expr_view(*b))),
        Expr::Mul(a, b) => ExprV::Mul(Box::new(expr_view(*a)), Box::new(expr_view(*b))),
        Expr::Div(a, b) => ExprV::Div(Box::new(expr_view(*a)), Box::new(expr_view(*b))),
        Expr::Dist(d) => ExprV::Dist(Box::new(dist_view(d))),
        Expr::DistMethodCall { var, method, args } => ExprV::DistMethodCall {
            var: var@,
            method: method@,
            args: exprs_view(args@),
        },
    }
}

/// The element-wise view of a sequence of expressions.
pub open spec fn exprs_view(s: Seq<Expr>) -> Seq<ExprV>
    decreases s,
{
    if s.len() == 0 {
        Seq::empty()
    } else {
        exprs_view(s.drop_last()).push(expr_view(s.last()))
    }
}

/// The element-wise view of a sequence of value-probability pairs.
pub open spec fn pairs_view(s: Seq<(Expr, Expr)>) -> Seq<(ExprV, ExprV)>
    decreases s,
{
    if s.len() == 0 {
        Seq::empty()
    } else {
        pairs_view(s.drop_last()).push((expr_view(s.last().0), expr_view(s.last().1)))
    }
}

/// The element-wise view acts pointwise on a sequence of expressions.
pub proof fn lemma_exprs_view(s: Seq<Expr>)
    ensures
        exprs_view(s).len() == s.len(),
        forall|i: int|
            0 <= i < s.len() ==> #[trigger] exprs_view(s)[i] == expr_view(s[i]),
    decreases s.len(),
{
    if s.len() > 0 {
        lemma_exprs_view(s.drop_last());
        assert(forall|i: int|
            0 <= i < s.len() - 1 ==> #[trigger] s.drop_last()[i] == s[i]);
    }
}

/// The element-wise view acts pointwise on a sequence of pairs.
pub proof fn lemma_pairs_view(s: Seq<(Expr, Expr)>)
    ensures
        pairs_view(s).len() == s.len(),
        forall|i: int|
            0 <= i < s.len() ==> #[trigger] pairs_view(s)[i] == (
                expr_view(s[i].0),
                expr_view(s[i].1),
            ),
    decreases s.len(),
{
    if s.len() > 0 {
        lemma_pairs_view(s.drop_last());
        assert(forall|i: int|
            0 <= i < s.len() - 1 ==> #[trigger] s.drop_last()[i] == s[i]);
    }
}

/// The view of a distribution expression.
pub open spec fn dist_view(d: Dist) -> DistV
    decreases d,
{
    match d {
        Dist::Uniform(lo, hi) => DistV::Uniform(
            Box::new(expr_view(*lo)),
            Box::new(expr_view(*hi)),
        ),
        Dist::Discrete(pairs) => DistV::Discrete(pairs_view(pairs@)),
        Dist::CombinedDist(a, b) => DistV::CombinedDist(
            Box::new(dist_view(*a)),
            Box::new(dist_view(*b)),
        ),
        Dist::ChainDist(a, n, b) => DistV::ChainDist(
            Box::new(dist_view(*a)),
            n,
            Box::new(dist_view(*b)),
        ),
    }
}

/// The view of a statement.
pub open spec fn stmt_view(s: Statement) -> StatementV {
    match s {
        Statement::Decl(e) => StatementV::Decl(expr_view(e)),
        Statement::Assign { name, value } => StatementV::Assign {
            name: expr_view(name),
            value: expr_view(value),
        },
        Statement::DeclAssign { name, value } => StatementV::DeclAssign {
            name: expr_view(name),
            value: expr_view(value),
        },
        Statement::HardcodedOutput(e) => StatementV::HardcodedOutput(expr_view(e)),
    }
}

impl View for Expr {
    type V = ExprV;

    open spec fn view(&self) -> ExprV {
        expr_view(*self)
    }
}

impl View for Dist {
    type V = DistV;

    open spec fn view(&self) -> DistV {
        dist_view(*self)
    }
}

impl View for Statement {
    type V = StatementV;

    open spec fn view(&self) -> StatementV {
        stmt_view(*self)
    }
}

/// The element-wise view of a statement list.
pub open spec fn stmts_view(s: Seq<Statement>) -> Seq<StatementV> {
    s.map_values(|st: Statement| stmt_view(st))
}

/// Everything that parsing or running a program can report. Every
/// operation that can fail returns one of these rather than aborting, so
/// a host can report a precise message and decide whether to halt.
#[derive(Debug, PartialEq)]
pub enum Error {
    /// Malformed syntax, or unconsumed trailing input; carries the number
    /// of characters consumed before the failure was noticed.
    ParseError(usize),
    /// A variable was read as a number while no numeric binding exists.
    UndefinedVariable(String),
    /// A distribution query named a variable with no distribution binding.
    UndefinedDistribution(String),
    /// A distribution query used a method other than `expect`.
    UnknownMethod(String),
    /// A distribution query passed the wrong number of arguments.
    ArityError,
    /// A value of the wrong kind: a distribution read as a number, a
    /// non-variable assignment target, a non-integral distribution
    /// parameter, or an empty (high below low) uniform range.
    TypeMismatch,
    /// The statement exercises reserved syntax with no semantics yet.
    UnimplementedFeature,
    /// An outcome set grew past [`crate::interpreter::MAX_OUTCOMES`], or an
    /// exact value's canonical form left the 64-bit range.
    ResourceExhausted,
}

/// The mathematical view of an [`Error`].
pub enum ErrorV {
    ParseError(int),
    UndefinedVariable(Seq<char>),
    UndefinedDistribution(Seq<char>),
    UnknownMethod(Seq<char>),
    ArityError,
    TypeMismatch,
    UnimplementedFeature,
    ResourceExhausted,
}

impl View for Error {
    type V = ErrorV;

    open spec fn view(&self) -> ErrorV {
        match self {
            Error::ParseError(p) => ErrorV::ParseError(*p as int),
            Error::UndefinedVariable(s) => ErrorV::UndefinedVariable(s@),
            Error::UndefinedDistribution(s) => ErrorV::UndefinedDistribution(s@),
            Error::UnknownMethod(s) => ErrorV::UnknownMethod(s@),
            Error::ArityError => ErrorV::ArityError,
            Error::TypeMismatch => ErrorV::TypeMismatch,
            Error::UnimplementedFeature => ErrorV::UnimplementedFeature,
            Error::ResourceExhausted => ErrorV::ResourceExhausted,
        }
    }
}

/// Deep clone of an expression; the copy has the same view.
#[verifier::loop_isolation(false)]
pub fn clone_expr(e: &Expr) -> (r: Expr)
    ensures
        r@ == e@,
    decreases e,
{
    match e {
        Expr::Int(n) => Expr::Int(*n),
        Expr::Var(s) => Expr::Var(s.clone()),
        Expr::Neg(a) => Expr::Neg(Box::new(clone_expr(a))),
        Expr::Add(a, b) => Expr::Add(Box::new(clone_expr(a)), Box::new(clone_expr(b))),
        Expr::Sub(a, b) => Expr::Sub(Box::new(clone_expr(a)), Box::new(clone_expr(b))),
        Expr::Mul(a, b) => Expr::Mul(Box::new(clone_expr(a)), Box::new(clone_expr(b))),
        Expr::Div(a, b) => Expr::Div(Box::new(clone_expr(a)), Box::new(clone_expr(b))),
        Expr::Dist(d) => Expr::Dist(clone_dist(d)),
        Expr::DistMethodCall { var, method, args } => {
            let mut cloned_args: Vec<Expr> = Vec::new();
            let mut i: usize = 0;
            while i < args.len()
                invariant
                    i <= args.len(),
                    cloned_args@.len() == i as int,
                    exprs_view(cloned_args@) == exprs_view(args@.subrange(0, i as int)),
                decreases args.len() - i,
            {
                proof {
                    assert(*args == e->args);
                    assert(decreases_to!(*e => e->args));
                    assert(decreases_to!(*args => args[i as int]));
                }
                let ghost pre = cloned_args@;
                let c = clone_expr(&args[i]);
                cloned_args.push(c);
                proof {
                    assert(cloned_args@.drop_last() =~= pre);
                    assert(exprs_view(cloned_args@) == exprs_view(pre).push(c@));
                    assert(args@.subrange(0, i as int + 1).drop_last() =~= args@.subrange(
                        0,
                        i as int,
                    ));
                    assert(args@.subrange(0, i as int + 1).last() == args@[i as int]);
                }
                i = i + 1;
            }
            proof {
                assert(args@.subrange(0, args@.len() as int) =~= args@);
            }
            Expr::DistMethodCall { var: var.clone(), method: method.clone(), args: cloned_args }
        },
    }
}

/// Deep clone of a distribution; the copy has the same view.
#[verifier::loop_isolation(false)]
pub fn clone_dist(d: &Dist) -> (r: Dist)
    ensures
        r@ == d@,
    decreases d,
{
    match d {
        Dist::Uniform(lo, hi) => Dist::Uniform(
            Box::new(clone_expr(lo)),
            Box::new(clone_expr(hi)),
        ),
        Dist::Discrete(pairs) => {
            let mut cloned_pairs: Vec<(Expr, Expr)> = Vec::new();
            let mut i: usize = 0;
            while i < pairs.len()
                invariant
                    i <= pairs.len(),
                    cloned_pairs@.len() == i as int,
                    pairs_view(cloned_pairs@) == pairs_view(pairs@.subrange(0, i as int)),
                decreases pairs.len() - i,
            {
                proof {
                    assert(*pairs == d->Discrete_0);
                    assert(decreases_to!(*d => d->Discrete_0));
                    assert(decreases_to!(*pairs => pairs[i as int]));
                    assert(decreases_to!(pairs[i as int] => pairs[i as int].0));
                    assert(decreases_to!(pairs[i as int] => pairs[i as int].1));
                }
                let ghost pre = cloned_pairs@;
                let v = clone_expr(&pairs[i].0);
                let p = clone_expr(&pairs[i].1);
                cloned_pairs.push((v, p));
                proof {
                    assert(cloned_pairs@.drop_last() =~= pre);
                    assert(pairs_view(cloned_pairs@) == pairs_view(pre).push((v@, p@)));
                    assert(pairs@.subrange(0, i as int + 1).drop_last() =~= pairs@.subrange(
                        0,
                        i as int,
                    ));
                    assert(pairs@.subrange(0, i as int + 1).last() == pairs@[i as int]);
                }
                i = i + 1;
            }
            proof {
                assert(pairs@.subrange(0, pairs@.len() as int) =~= pairs@);
            }
            Dist::Discrete(cloned_pairs)
        },
        Dist::CombinedDist(a, b) => Dist::CombinedDist(
            Box::new(clone_dist(a)),
            Box::new(clone_dist(b)),
        ),
        Dist::ChainDist(a, n, b) => Dist::ChainDist(
            Box::new(clone_dist(a)),
            *n,
            Box::new(clone_dist(b)),
        ),
    }
}

impl Clone for Expr {
    /// The clone of an expression has the same view.
    fn clone(&self) -> (r: Expr)
        ensures
            r@ == self@,
    {
        clone_expr(self)
    }
}

impl Clone for Dist {
    /// The clone of a distribution has the same view.
    fn clone(&self) -> (r: Dist)
        ensures
            r@ == self@,
    {
        clone_dist(self)
    }
}

impl Clone for Statement {
    /// The clone of a statement has the same view.
    fn clone(&self) -> (r: Statement)
        ensures
            r@ == self@,
    {
        match self {
            Statement::Decl(e) => Statement::Decl(clone_expr(e)),
            Statement::Assign { name, value } => Statement::Assign {
                name: clone_expr(name),
                value: clone_expr(value),
            },
            Statement::DeclAssign { name, value } => Statement::DeclAssign {
                name: clone_expr(name),
                value: clone_expr(value),
            },
            Statement::HardcodedOutput(e) => Statement::HardcodedOutput(clone_expr(e)),
        }
    }
}

} // verus!
