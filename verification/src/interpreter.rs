//! The evaluator, the runtime environment and the distribution algebra.
//!
//! A program runs against one flat environment holding numeric bindings
//! and distribution bindings; a name resolves in at most one of the two at
//! any time. Every public function is proved equal to a functional
//! specification of the language: [`spec_eval_expr`] for expressions,
//! [`spec_outcomes`] and [`spec_expect`] for the distribution algebra, and
//! [`spec_run`] for whole programs.
//!
//! A distribution's parameters are plain numeric expressions over the
//! variable bindings, evaluated at use time; a distribution literal or a
//! distribution query inside a parameter is a type mismatch. Convolution
//! materializes outcome sets, so their size is capped by [`MAX_OUTCOMES`];
//! past the cap the algebra reports [`Error::ResourceExhausted`].

use vstd::prelude::*;

verus! {

use crate::ast::{
    dist_view,
    expr_view,
    exprs_view,
    pairs_view,
    stmts_view,
    clone_dist,
    Dist,
    DistV,
    Error,
    ErrorV,
    Expr,
    ExprV,
    Statement,
    StatementV,
};
use crate::num::{spec_add, spec_div, spec_mul, spec_neg, spec_sub, Num};
use crate::text::{num_text, spec_num_text};

/// The most entries an outcome set may hold. Convolution multiplies the
/// outcome counts of its operands, so enumeration is capped to guard
/// against the combinatorial blow-up of nested combined distributions.
pub const MAX_OUTCOMES: usize = 65536;

/// Numeric bindings: names to exact values.
pub type VarsV = Map<Seq<char>, Num>;

/// Distribution bindings: names to distribution views.
pub type DistsV = Map<Seq<char>, DistV>;

/// An outcome set: integer values, each with its exact weight.
pub type OutcomesV = Seq<(i64, Num)>;

/// Carries a numeric operation's failure into an evaluation result; the
/// numeric operations fail only by resource exhaustion.
pub open spec fn lift_num(r: Result<Num, Error>) -> Result<Num, ErrorV> {
    match r {
        Ok(v) => Ok(v),
        Err(_) => Err(ErrorV::ResourceExhausted),
    }
}

/// The view of an evaluation result.
pub open spec fn res_num(r: Result<Num, Error>) -> Result<Num, ErrorV> {
    match r {
        Ok(v) => Ok(v),
        Err(e) => Err(e@),
    }
}

/// The value of a distribution parameter: a plain numeric expression over
/// the numeric bindings. A distribution literal or a distribution query
/// is not a value here, so either is a type mismatch.
pub open spec fn spec_eval_param(e: ExprV, vars: VarsV) -> Result<Num, ErrorV>
    decreases e,
{
    match e {
        ExprV::Int(n) => Ok(Num::Rat { num: n, den: 1 }),
        ExprV::Var(s) => if vars.dom().contains(s) {
            Ok(vars[s])
        } else {
            Err(ErrorV::UndefinedVariable(s))
        },
        ExprV::Neg(a) => match spec_eval_param(*a, vars) {
            Err(er) => Err(er),
            Ok(v) => lift_num(spec_neg(v)),
        },
        ExprV::Add(a, b) => match (spec_eval_param(*a, vars), spec_eval_param(*b, vars)) {
            (Err(er), _) => Err(er),
            (_, Err(er)) => Err(er),
            (Ok(va), Ok(vb)) => lift_num(spec_add(va, vb)),
        },
        ExprV::Sub(a, b) => match (spec_eval_param(*a, vars), spec_eval_param(*b, vars)) {
            (Err(er), _) => Err(er),
            (_, Err(er)) => Err(er),
            (Ok(va), Ok(vb)) => lift_num(spec_sub(va, vb)),
        },
        ExprV::Mul(a, b) => match (spec_eval_param(*a, vars), spec_eval_param(*b, vars)) {
            (Err(er), _) => Err(er),
            (_, Err(er)) => Err(er),
            (Ok(va), Ok(vb)) => lift_num(spec_mul(va, vb)),
        },
        ExprV::Div(a, b) => match (spec_eval_param(*a, vars), spec_eval_param(*b, vars)) {
            (Err(er), _) => Err(er),
            (_, Err(er)) => Err(er),
            (Ok(va), Ok(vb)) => lift_num(spec_div(va, vb)),
        },
        ExprV::Dist(_) => Err(ErrorV::TypeMismatch),
        ExprV::DistMethodCall { .. } => Err(ErrorV::TypeMismatch),
    }
}

/// A parameter that must name a single outcome: its value must be an
/// integer, or the parameter is a type mismatch.
pub open spec fn spec_eval_int_param(e: ExprV, vars: VarsV) -> Result<i64, ErrorV> {
    match spec_eval_param(e, vars) {
        Err(er) => Err(er),
        Ok(v) => match v.int_value() {
            Some(k) => Ok(k),
            None => Err(ErrorV::TypeMismatch),
        },
    }
}

/// The bounds of a uniform distribution: two integer parameters, with an
/// empty range (high below low) rejected explicitly.
pub open spec fn spec_uniform_bounds(lo: ExprV, hi: ExprV, vars: VarsV) -> Result<
    (i64, i64),
    ErrorV,
> {
    match spec_eval_int_param(lo, vars) {
        Err(er) => Err(er),
        Ok(a) => match spec_eval_int_param(hi, vars) {
            Err(er) => Err(er),
            Ok(b) => if b < a {
                Err(ErrorV::TypeMismatch)
            } else {
                Ok((a, b))
            },
        },
    }
}

/// The declared outcomes of a discrete distribution from index `i` on:
/// each pair evaluated independently, in order, with no merging of
/// duplicate values.
pub open spec fn spec_discrete_outcomes(
    pairs: Seq<(ExprV, ExprV)>,
    vars: VarsV,
    i: int,
) -> Result<OutcomesV, ErrorV>
    decreases pairs.len() - i,
{
    if i < 0 || i >= pairs.len() {
        Ok(Seq::empty())
    } else {
        match spec_eval_int_param(pairs[i].0, vars) {
            Err(er) => Err(er),
            Ok(k) => match spec_eval_param(pairs[i].1, vars) {
                Err(er) => Err(er),
                Ok(p) => match spec_discrete_outcomes(pairs, vars, i + 1) {
                    Err(er) => Err(er),
                    Ok(rest) => Ok(seq![(k, p)] + rest),
                },
            },
        }
    }
}

/// One row of a convolution's cross product, from index `j` of the right
/// outcome set on: values add and weights multiply.
pub open spec fn spec_cross_row(v1: i64, p1: Num, o2: OutcomesV, j: int) -> Result<
    OutcomesV,
    ErrorV,
>
    decreases o2.len() - j,
{
    if j < 0 || j >= o2.len() {
        Ok(Seq::empty())
    } else {
        let v2 = o2[j].0;
        let p2 = o2[j].1;
        if v1 + v2 < i64::MIN || v1 + v2 > i64::MAX {
            Err(ErrorV::ResourceExhausted)
        } else {
            match lift_num(spec_mul(p1, p2)) {
                Err(er) => Err(er),
                Ok(p) => match spec_cross_row(v1, p1, o2, j + 1) {
                    Err(er) => Err(er),
                    Ok(rest) => Ok(seq![((v1 + v2) as i64, p)] + rest),
                },
            }
        }
    }
}

/// The full cross product of two outcome sets, row-major, from row `i` on.
pub open spec fn spec_cross(o1: OutcomesV, o2: OutcomesV, i: int) -> Result<OutcomesV, ErrorV>
    decreases o1.len() - i,
{
    if i < 0 || i >= o1.len() {
        Ok(Seq::empty())
    } else {
        match spec_cross_row(o1[i].0, o1[i].1, o2, 0) {
            Err(er) => Err(er),
            Ok(row) => match spec_cross(o1, o2, i + 1) {
                Err(er) => Err(er),
                Ok(rest) => Ok(row + rest),
            },
        }
    }
}

/// The ordered outcome set of a distribution: for `uniform(a, b)` the
/// values `a..=b` each weighted `1/(b-a+1)`; for a discrete distribution
/// exactly the declared pairs; for a combined distribution the full cross
/// product of its operands' outcome sets (convolution under addition);
/// and an explicit failure for the reserved chain form.
pub open spec fn spec_outcomes(d: DistV, vars: VarsV) -> Result<OutcomesV, ErrorV>
    decreases d,
{
    match d {
        DistV::Uniform(lo, hi) => match spec_uniform_bounds(*lo, *hi, vars) {
            Err(er) => Err(er),
            Ok((a, b)) => {
                let w = b - a + 1;
                if w > MAX_OUTCOMES as int {
                    Err(ErrorV::ResourceExhausted)
                } else {
                    Ok(
                        Seq::new(
                            w as nat,
                            |i: int| ((a + i) as i64, Num::Rat { num: 1, den: w as i64 }),
                        ),
                    )
                }
            },
        },
        DistV::Discrete(pairs) => spec_discrete_outcomes(pairs, vars, 0),
        DistV::CombinedDist(d1, d2) => match spec_outcomes(*d1, vars) {
            Err(er) => Err(er),
            Ok(o1) => match spec_outcomes(*d2, vars) {
                Err(er) => Err(er),
                Ok(o2) => if o1.len() * o2.len() > MAX_OUTCOMES as int {
                    Err(ErrorV::ResourceExhausted)
                } else {
                    spec_cross(o1, o2, 0)
                },
            },
        },
        DistV::ChainDist(_, _, _) => Err(ErrorV::UnimplementedFeature),
    }
}

/// The probability a discrete distribution's declared pairs put at `k`,
/// scanning from index `i`: the first matching pair's probability, or zero
/// when no declared value matches.
pub open spec fn spec_expect_discrete(
    pairs: Seq<(ExprV, ExprV)>,
    k: i64,
    vars: VarsV,
    i: int,
) -> Result<Num, ErrorV>
    decreases pairs.len() - i,
{
    if i < 0 || i >= pairs.len() {
        Ok(Num::Rat { num: 0, den: 1 })
    } else {
        match spec_eval_int_param(pairs[i].0, vars) {
            Err(er) => Err(er),
            Ok(kv) => if kv == k {
                spec_eval_param(pairs[i].1, vars)
            } else {
                spec_expect_discrete(pairs, k, vars, i + 1)
            },
        }
    }
}

/// Folds into `acc` the mass one left outcome contributes at `k` against
/// the right outcomes from index `j` on.
pub open spec fn spec_mass_row(
    acc: Num,
    v1: i64,
    p1: Num,
    o2: OutcomesV,
    k: i64,
    j: int,
) -> Result<Num, ErrorV>
    decreases o2.len() - j,
{
    if j < 0 || j >= o2.len() {
        Ok(acc)
    } else {
        let v2 = o2[j].0;
        let p2 = o2[j].1;
        if v1 + v2 == k {
            match lift_num(spec_mul(p1, p2)) {
                Err(er) => Err(er),
                Ok(p) => match lift_num(spec_add(acc, p)) {
                    Err(er) => Err(er),
                    Ok(acc2) => spec_mass_row(acc2, v1, p1, o2, k, j + 1),
                },
            }
        } else {
            spec_mass_row(acc, v1, p1, o2, k, j + 1)
        }
    }
}

/// Folds into `acc` the total mass the cross product of two outcome sets
/// puts at `k`, row-major from row `i` on.
pub open spec fn spec_mass(acc: Num, o1: OutcomesV, o2: OutcomesV, k: i64, i: int) -> Result<
    Num,
    ErrorV,
>
    decreases o1.len() - i,
{
    if i < 0 || i >= o1.len() {
        Ok(acc)
    } else {
        match spec_mass_row(acc, o1[i].0, o1[i].1, o2, k, 0) {
            Err(er) => Err(er),
            Ok(acc2) => spec_mass(acc2, o1, o2, k, i + 1),
        }
    }
}

/// The probability mass a distribution puts at the single outcome `k`:
/// for `uniform(a, b)`, zero outside `[a, b]` and `1/(b-a+1)` inside; for
/// a discrete distribution, the first matching declared pair's probability
/// or zero; for a combined distribution, the sum of `p1*p2` over all
/// cross-product pairs whose values sum to `k`; and an explicit failure
/// for the reserved chain form.
pub open spec fn spec_expect(d: DistV, k: i64, vars: VarsV) -> Result<Num, ErrorV>
    decreases d,
{
    match d {
        DistV::Uniform(lo, hi) => match spec_uniform_bounds(*lo, *hi, vars) {
            Err(er) => Err(er),
            Ok((a, b)) => {
                let w = b - a + 1;
                if k < a || k > b {
                    Ok(Num::Rat { num: 0, den: 1 })
                } else if w > i64::MAX as int {
                    Err(ErrorV::ResourceExhausted)
                } else {
                    Ok(Num::Rat { num: 1, den: w as i64 })
                }
            },
        },
        DistV::Discrete(pairs) => spec_expect_discrete(pairs, k, vars, 0),
        DistV::CombinedDist(d1, d2) => match spec_outcomes(*d1, vars) {
            Err(er) => Err(er),
            Ok(o1) => match spec_outcomes(*d2, vars) {
                Err(er) => Err(er),
                Ok(o2) => if o1.len() * o2.len() > MAX_OUTCOMES as int {
                    Err(ErrorV::ResourceExhausted)
                } else {
                    spec_mass(Num::Rat { num: 0, den: 1 }, o1, o2, k, 0)
                },
            },
        },
        DistV::ChainDist(_, _, _) => Err(ErrorV::UnimplementedFeature),
    }
}

/// The value of an expression: literals and arithmetic over the numeric
/// bindings, a type mismatch for a bare distribution literal, and the
/// query path for `var:method(args)` — the variable must name a bound
/// distribution, the method must be `expect` with exactly one argument,
/// and the argument must evaluate to an integer outcome.
pub open spec fn spec_eval_expr(e: ExprV, vars: VarsV, dists: DistsV) -> Result<Num, ErrorV>
    decreases e,
{
    match e {
        ExprV::Int(n) => Ok(Num::Rat { num: n, den: 1 }),
        ExprV::Var(s) => if vars.dom().contains(s) {
            Ok(vars[s])
        } else {
            Err(ErrorV::UndefinedVariable(s))
        },
        ExprV::Neg(a) => match spec_eval_expr(*a, vars, dists) {
            Err(er) => Err(er),
            Ok(v) => lift_num(spec_neg(v)),
        },
        ExprV::Add(a, b) => match (spec_eval_expr(*a, vars, dists), spec_eval_expr(
            *b,
            vars,
            dists,
        )) {
            (Err(er), _) => Err(er),
            (_, Err(er)) => Err(er),
            (Ok(va), Ok(vb)) => lift_num(spec_add(va, vb)),
        },
        ExprV::Sub(a, b) => match (spec_eval_expr(*a, vars, dists), spec_eval_expr(
            *b,
            vars,
            dists,
        )) {
            (Err(er), _) => Err(er),
            (_, Err(er)) => Err(er),
            (Ok(va), Ok(vb)) => lift_num(spec_sub(va, vb)),
        },
        ExprV::Mul(a, b) => match (spec_eval_expr(*a, vars, dists), spec_eval_expr(
            *b,
            vars,
            dists,
        )) {
            (Err(er), _) => Err(er),
            (_, Err(er)) => Err(er),
            (Ok(va), Ok(vb)) => lift_num(spec_mul(va, vb)),
        },
        ExprV::Div(a, b) => match (spec_eval_expr(*a, vars, dists), spec_eval_expr(
            *b,
            vars,
            dists,
        )) {
            (Err(er), _) => Err(er),
            (_, Err(er)) => Err(er),
            (Ok(va), Ok(vb)) => lift_num(spec_div(va, vb)),
        },
        ExprV::Dist(_) => Err(ErrorV::TypeMismatch),
        ExprV::DistMethodCall { var, method, args } => if !dists.dom().contains(var) {
            Err(ErrorV::UndefinedDistribution(var))
        } else if method != "expect"@ {
            Err(ErrorV::UnknownMethod(method))
        } else if args.len() != 1 {
            Err(ErrorV::ArityError)
        } else {
            match spec_eval_expr(args[0], vars, dists) {
                Err(er) => Err(er),
                Ok(v) => match v.int_value() {
                    None => Err(ErrorV::TypeMismatch),
                    Some(k) => spec_expect(dists[var], k, vars),
                },
            }
        },
    }
}

/// A binding's effect when the value is neither a distribution literal nor
/// a convolution of two distribution-bound variables: the value is
/// evaluated numerically and bound as a number, displacing any
/// distribution binding of the same name.
pub open spec fn spec_bind_plain(n: Seq<char>, value: ExprV, vars: VarsV, dists: DistsV) -> Result<
    (VarsV, DistsV, Option<Seq<char>>),
    ErrorV,
> {
    match spec_eval_expr(value, vars, dists) {
        Err(er) => Err(er),
        Ok(v) => Ok((vars.insert(n, v), dists.remove(n), None)),
    }
}

/// A binding's effect. The structural special case runs before numeric
/// evaluation: when the value is `a + b` and both operands are
/// distribution-bound variables, the target is bound to their convolution.
/// A distribution literal binds as a distribution; anything else binds as
/// a number. A non-variable target is a shape error.
pub open spec fn spec_bind(name: ExprV, value: ExprV, vars: VarsV, dists: DistsV) -> Result<
    (VarsV, DistsV, Option<Seq<char>>),
    ErrorV,
> {
    match name {
        ExprV::Var(n) => match value {
            ExprV::Add(va, vb) => match (*va, *vb) {
                (ExprV::Var(a), ExprV::Var(b)) => if dists.dom().contains(a)
                    && dists.dom().contains(b) {
                    Ok(
                        (
                            vars.remove(n),
                            dists.insert(
                                n,
                                DistV::CombinedDist(Box::new(dists[a]), Box::new(dists[b])),
                            ),
                            None,
                        ),
                    )
                } else {
                    spec_bind_plain(n, value, vars, dists)
                },
                _ => spec_bind_plain(n, value, vars, dists),
            },
            ExprV::Dist(d) => Ok((vars.remove(n), dists.insert(n, *d), None)),
            _ => spec_bind_plain(n, value, vars, dists),
        },
        _ => Err(ErrorV::TypeMismatch),
    }
}

/// The effect of one statement: the updated bindings, and the line of
/// text an `output` statement prints.
pub open spec fn spec_exec_stmt(s: StatementV, vars: VarsV, dists: DistsV) -> Result<
    (VarsV, DistsV, Option<Seq<char>>),
    ErrorV,
> {
    match s {
        StatementV::Decl(target) => match target {
            ExprV::Var(name) => Ok(
                (vars.insert(name, Num::Rat { num: 0, den: 1 }), dists.remove(name), None),
            ),
            _ => Err(ErrorV::TypeMismatch),
        },
        StatementV::Assign { name, value } => spec_bind(name, value, vars, dists),
        StatementV::DeclAssign { name, value } => spec_bind(name, value, vars, dists),
        StatementV::HardcodedOutput(e) => match spec_eval_expr(e, vars, dists) {
            Err(er) => Err(er),
            Ok(v) => Ok((vars, dists, Some(spec_num_text(v)))),
        },
    }
}

/// Runs the statements from index `i` on against the given bindings: the
/// lines printed up to the first failure, paired with that failure if one
/// occurs. A failing statement stops the run, prints nothing itself, and
/// leaves the lines of the statements before it intact.
pub open spec fn spec_run_from(
    stmts: Seq<StatementV>,
    i: int,
    vars: VarsV,
    dists: DistsV,
) -> (Seq<Seq<char>>, Option<ErrorV>)
    decreases stmts.len() - i,
{
    if i < 0 || i >= stmts.len() {
        (Seq::empty(), None)
    } else {
        match spec_exec_stmt(stmts[i], vars, dists) {
            Err(er) => (Seq::empty(), Some(er)),
            Ok((v2, d2, out)) => {
                let rest = spec_run_from(stmts, i + 1, v2, d2);
                (
                    match out {
                        Some(line) => seq![line] + rest.0,
                        None => rest.0,
                    },
                    rest.1,
                )
            },
        }
    }
}

/// Running a whole program: the statements in order, from empty bindings.
pub open spec fn spec_run(stmts: Seq<StatementV>) -> (Seq<Seq<char>>, Option<ErrorV>) {
    spec_run_from(stmts, 0, Map::empty(), Map::empty())
}

impl View for Num {
    type V = Num;

    open spec fn view(&self) -> Num {
        *self
    }
}

/// The map behind an association list; a later entry for a key shadows an
/// earlier one, though the environment keeps keys unique.
pub open spec fn assoc_map<V: View>(s: Seq<(String, V)>) -> Map<Seq<char>, V::V>
    decreases s.len(),
{
    if s.len() == 0 {
        Map::empty()
    } else {
        assoc_map(s.drop_last()).insert(s.last().0@, s.last().1@)
    }
}

/// Each name appears at most once.
pub open spec fn akeys_unique<V>(s: Seq<(String, V)>) -> bool {
    forall|i: int, j: int| 0 <= i < j < s.len() ==> (#[trigger] s[i]).0@ != (#[trigger] s[j]).0@
}

/// A name is in the association list's map exactly when an entry holds it.
proof fn lemma_assoc_dom<V: View>(s: Seq<(String, V)>, k: Seq<char>)
    ensures
        assoc_map(s).dom().contains(k) <==> exists|i: int| 0 <= i < s.len() && (#[trigger] s[i]).0@
            == k,
    decreases s.len(),
{
    if s.len() > 0 {
        lemma_assoc_dom(s.drop_last(), k);
        if s.last().0@ == k {
            assert(s[s.len() - 1].0@ == k);
        } else {
            if exists|i: int| 0 <= i < s.len() && (#[trigger] s[i]).0@ == k {
                let i = choose|i: int| 0 <= i < s.len() && (#[trigger] s[i]).0@ == k;
                assert(s.drop_last()[i] == s[i]);
            }
            if exists|i: int| 0 <= i < s.drop_last().len() && (#[trigger] s.drop_last()[i]).0@
                == k {
                let i = choose|i: int|
                    0 <= i < s.drop_last().len() && (#[trigger] s.drop_last()[i]).0@ == k;
                assert(s[i] == s.drop_last()[i]);
            }
        }
    }
}

/// With unique keys, the entry at `i` gives the map's value at its name.
proof fn lemma_assoc_get<V: View>(s: Seq<(String, V)>, i: int)
    requires
        akeys_unique(s),
        0 <= i < s.len(),
    ensures
        assoc_map(s).dom().contains(s[i].0@),
        assoc_map(s)[s[i].0@] == s[i].1@,
    decreases s.len(),
{
    if i == s.len() - 1 {
    } else {
        assert(s.drop_last()[i] == s[i]);
        assert(akeys_unique(s.drop_last())) by {
            assert(forall|x: int, y: int|
                0 <= x < y < s.drop_last().len() ==> s.drop_last()[x] == s[x] && s.drop_last()[y]
                    == s[y]);
        }
        lemma_assoc_get(s.drop_last(), i);
        assert(s[i].0@ != s.last().0@);
    }
}

/// Appending a fresh entry inserts its binding.
proof fn lemma_assoc_push<V: View>(s: Seq<(String, V)>, e: (String, V))
    ensures
        assoc_map(s.push(e)) == assoc_map(s).insert(e.0@, e.1@),
{
    assert(s.push(e).drop_last() =~= s);
    assert(s.push(e).last() == e);
}

/// With unique keys, removing the entry at `i` removes its binding.
proof fn lemma_assoc_remove<V: View>(s: Seq<(String, V)>, i: int)
    requires
        akeys_unique(s),
        0 <= i < s.len(),
    ensures
        assoc_map(s.remove(i)) == assoc_map(s).remove(s[i].0@),
        akeys_unique(s.remove(i)),
    decreases s.len(),
{
    let k = s[i].0@;
    assert(akeys_unique(s.remove(i))) by {
        assert(forall|x: int|
            0 <= x < s.remove(i).len() ==> s.remove(i)[x] == (if x < i {
                s[x]
            } else {
                s[x + 1]
            }));
    }
    if i == s.len() - 1 {
        assert(s.remove(i) =~= s.drop_last());
        lemma_assoc_dom(s.drop_last(), k);
        assert(forall|j: int| 0 <= j < s.drop_last().len() ==> (#[trigger] s.drop_last()[j])
            == s[j]);
        assert(!assoc_map(s.drop_last()).dom().contains(k));
        assert(assoc_map(s.drop_last()).insert(k, s[i].1@).remove(k) =~= assoc_map(
            s.drop_last(),
        ));
    } else {
        assert(akeys_unique(s.drop_last())) by {
            assert(forall|x: int|
                0 <= x < s.drop_last().len() ==> (#[trigger] s.drop_last()[x]) == s[x]);
        }
        lemma_assoc_remove(s.drop_last(), i);
        assert(s.remove(i).drop_last() =~= s.drop_last().remove(i));
        assert(s.remove(i).last() == s.last());
        assert(s.drop_last()[i] == s[i]);
        let lastk = s.last().0@;
        assert(lastk != k);
        assert(assoc_map(s.drop_last()).remove(k).insert(lastk, s.last().1@) =~= assoc_map(
            s.drop_last(),
        ).insert(lastk, s.last().1@).remove(k));
    }
}

/// The numeric bindings are well formed: unique names, and each value a
/// well-formed number.
pub open spec fn vars_wf(s: Seq<(String, Num)>) -> bool {
    akeys_unique(s) && forall|i: int| 0 <= i < s.len() ==> (#[trigger] s[i]).1.wf()
}

/// One program run's environment: the numeric bindings and the
/// distribution bindings. A name resolves in at most one of the two at
/// any time.
pub struct RuntimeEnv {
    vars: Vec<(String, Num)>,
    dists: Vec<(String, Dist)>,
}

impl RuntimeEnv {
    /// The numeric bindings, as a map.
    pub closed spec fn vars_map(&self) -> VarsV {
        assoc_map(self.vars@)
    }

    /// The distribution bindings, as a map.
    pub closed spec fn dists_map(&self) -> DistsV {
        assoc_map(self.dists@)
    }

    /// The environment's invariant: unique names on both sides, numeric
    /// values well formed, and no name bound on both sides at once.
    pub closed spec fn wf(&self) -> bool {
        &&& vars_wf(self.vars@)
        &&& akeys_unique(self.dists@)
        &&& self.vars_map().dom().disjoint(self.dists_map().dom())
    }

    /// A fresh environment, with nothing bound.
    pub fn new() -> (r: RuntimeEnv)
        ensures
            r.wf(),
            r.vars_map() == Map::<Seq<char>, Num>::empty(),
            r.dists_map() == Map::<Seq<char>, DistV>::empty(),
    {
        RuntimeEnv { vars: Vec::new(), dists: Vec::new() }
    }

    /// Looks a name up among the numeric bindings.
    fn lookup_var(&self, name: &String) -> (r: Option<Num>)
        requires
            self.wf(),
        ensures
            match r {
                Some(v) => self.vars_map().dom().contains(name@) && v == self.vars_map()[name@]
                    && v.wf(),
                None => !self.vars_map().dom().contains(name@),
            },
    {
        lookup_num(&self.vars, name)
    }

    /// Finds the index of a name among the distribution bindings.
    fn find_dist(&self, name: &String) -> (r: Option<usize>)
        requires
            self.wf(),
        ensures
            match r {
                Some(i) => i < self.dists@.len() && self.dists@[i as int].0@ == name@
                    && self.dists_map().dom().contains(name@) && dist_view(
                    self.dists@[i as int].1,
                ) == self.dists_map()[name@],
                None => !self.dists_map().dom().contains(name@),
            },
    {
        let mut i: usize = 0;
        while i < self.dists.len()
            invariant
                self.wf(),
                i <= self.dists@.len(),
                forall|j: int| 0 <= j < i ==> (#[trigger] self.dists@[j]).0@ != name@,
            decreases self.dists@.len() - i,
        {
            if self.dists[i].0 == *name {
                proof {
                    lemma_assoc_get(self.dists@, i as int);
                }
                return Some(i);
            }
            i = i + 1;
        }
        proof {
            lemma_assoc_dom(self.dists@, name@);
        }
        None
    }

    /// Removes a numeric binding, leaving the distribution bindings alone.
    fn remove_var_entry(&mut self, name: &String)
        requires
            old(self).wf(),
        ensures
            final(self).wf(),
            final(self).vars_map() == old(self).vars_map().remove(name@),
            final(self).dists@ == old(self).dists@,
            forall|j: int|
                0 <= j < final(self).vars@.len() ==> (#[trigger] final(self).vars@[j]).0@ != name@,
    {
        let mut i: usize = 0;
        while i < self.vars.len()
            invariant
                self.wf(),
                *self == *old(self),
                i <= self.vars@.len(),
                forall|j: int| 0 <= j < i ==> (#[trigger] self.vars@[j]).0@ != name@,
            decreases self.vars@.len() - i,
        {
            if self.vars[i].0 == *name {
                proof {
                    lemma_assoc_remove(self.vars@, i as int);
                    lemma_assoc_dom(self.vars@, name@);
                }
                let ghost pre = self.vars@;
                self.vars.remove(i);
                proof {
                    assert(forall|j: int|
                        0 <= j < self.vars@.len() ==> (#[trigger] self.vars@[j]) == (if j < i {
                            pre[j]
                        } else {
                            pre[j + 1]
                        }));
                }
                return ;
            }
            i = i + 1;
        }
        proof {
            lemma_assoc_dom(self.vars@, name@);
            assert(self.vars_map().remove(name@) =~= self.vars_map());
        }
    }

    /// Removes a distribution binding, leaving the numeric bindings alone.
    fn remove_dist_entry(&mut self, name: &String)
        requires
            old(self).wf(),
        ensures
            final(self).wf(),
            final(self).dists_map() == old(self).dists_map().remove(name@),
            final(self).vars@ == old(self).vars@,
            forall|j: int|
                0 <= j < final(self).dists@.len() ==> (#[trigger] final(self).dists@[j]).0@
                    != name@,
    {
        let mut i: usize = 0;
        while i < self.dists.len()
            invariant
                self.wf(),
                *self == *old(self),
                i <= self.dists@.len(),
                forall|j: int| 0 <= j < i ==> (#[trigger] self.dists@[j]).0@ != name@,
            decreases self.dists@.len() - i,
        {
            if self.dists[i].0 == *name {
                proof {
                    lemma_assoc_remove(self.dists@, i as int);
                    lemma_assoc_dom(self.dists@, name@);
                }
                let ghost pre = self.dists@;
                self.dists.remove(i);
                proof {
                    assert(forall|j: int|
                        0 <= j < self.dists@.len() ==> (#[trigger] self.dists@[j]) == (if j < i {
                            pre[j]
                        } else {
                            pre[j + 1]
                        }));
                }
                return ;
            }
            i = i + 1;
        }
        proof {
            lemma_assoc_dom(self.dists@, name@);
            assert(self.dists_map().remove(name@) =~= self.dists_map());
        }
    }

    /// Binds a name to a number, displacing any distribution binding.
    fn set_var(&mut self, name: &String, v: Num)
        requires
            old(self).wf(),
            v.wf(),
        ensures
            final(self).wf(),
            final(self).vars_map() == old(self).vars_map().insert(name@, v),
            final(self).dists_map() == old(self).dists_map().remove(name@),
    {
        self.remove_var_entry(name);
        self.remove_dist_entry(name);
        let entry = (name.clone(), v);
        let ghost e = entry;
        let ghost pre = self.vars@;
        self.vars.push(entry);
        proof {
            lemma_assoc_push(pre, e);
            assert(self.vars_map() =~= old(self).vars_map().insert(name@, v)) by {
                assert(old(self).vars_map().remove(name@).insert(name@, v) =~= old(self).vars_map().insert(name@, v));
            }
            assert(forall|j: int|
                0 <= j < pre.len() ==> (#[trigger] self.vars@[j]) == pre[j]);
            lemma_assoc_dom(self.dists@, name@);
        }
    }

    /// Binds a name to a distribution, displacing any numeric binding.
    fn set_dist(&mut self, name: &String, d: Dist)
        requires
            old(self).wf(),
        ensures
            final(self).wf(),
            final(self).dists_map() == old(self).dists_map().insert(name@, dist_view(d)),
            final(self).vars_map() == old(self).vars_map().remove(name@),
    {
        self.remove_dist_entry(name);
        self.remove_var_entry(name);
        let entry = (name.clone(), d);
        let ghost e = entry;
        let ghost pre = self.dists@;
        self.dists.push(entry);
        proof {
            lemma_assoc_push(pre, e);
            assert(self.dists_map() =~= old(self).dists_map().insert(name@, dist_view(d))) by {
                assert(old(self).dists_map().remove(name@).insert(name@, dist_view(d)) =~= old(self).dists_map().insert(name@, dist_view(d)));
            }
            assert(forall|j: int|
                0 <= j < pre.len() ==> (#[trigger] self.dists@[j]) == pre[j]);
            lemma_assoc_dom(self.vars@, name@);
        }
    }
}

/// Evaluates a distribution parameter against the numeric bindings.
fn eval_param(vars: &Vec<(String, Num)>, e: &Expr) -> (r: Result<Num, Error>)
    requires
        vars_wf(vars@),
    ensures
        res_num(r) == spec_eval_param(e@, assoc_map(vars@)),
        r matches Ok(v) ==> v.wf(),
    decreases e,
{
    match e {
        Expr::Int(n) => Ok(Num::from_int(*n)),
        Expr::Var(s) => match lookup_num(vars, s) {
            Some(v) => Ok(v),
            None => Err(Error::UndefinedVariable(s.clone())),
        },
        Expr::Neg(a) => match eval_param(vars, a) {
            Err(er) => Err(er),
            Ok(v) => v.neg(),
        },
        Expr::Add(a, b) => match eval_param(vars, a) {
            Err(er) => Err(er),
            Ok(va) => match eval_param(vars, b) {
                Err(er) => Err(er),
                Ok(vb) => va.add(&vb),
            },
        },
        Expr::Sub(a, b) => match eval_param(vars, a) {
            Err(er) => Err(er),
            Ok(va) => match eval_param(vars, b) {
                Err(er) => Err(er),
                Ok(vb) => va.sub(&vb),
            },
        },
        Expr::Mul(a, b) => match eval_param(vars, a) {
            Err(er) => Err(er),
            Ok(va) => match eval_param(vars, b) {
                Err(er) => Err(er),
                Ok(vb) => va.mul(&vb),
            },
        },
        Expr::Div(a, b) => match eval_param(vars, a) {
            Err(er) => Err(er),
            Ok(va) => match eval_param(vars, b) {
                Err(er) => Err(er),
                Ok(vb) => va.div(&vb),
            },
        },
        Expr::Dist(_) => Err(Error::TypeMismatch),
        Expr::DistMethodCall { .. } => Err(Error::TypeMismatch),
    }
}

/// Evaluates a parameter that must name a single integer outcome.
fn eval_int_param(vars: &Vec<(String, Num)>, e: &Expr) -> (r: Result<i64, Error>)
    requires
        vars_wf(vars@),
    ensures
        match r {
            Ok(k) => spec_eval_int_param(e@, assoc_map(vars@)) == Ok::<i64, ErrorV>(k),
            Err(er) => spec_eval_int_param(e@, assoc_map(vars@)) == Err::<i64, ErrorV>(er@),
        },
{
    match eval_param(vars, e) {
        Err(er) => Err(er),
        Ok(v) => match v.as_integer() {
            Some(k) => Ok(k),
            None => Err(Error::TypeMismatch),
        },
    }
}

/// Evaluates a uniform distribution's bounds, rejecting an empty range.
fn uniform_bounds(vars: &Vec<(String, Num)>, lo: &Expr, hi: &Expr) -> (r: Result<
    (i64, i64),
    Error,
>)
    requires
        vars_wf(vars@),
    ensures
        match r {
            Ok(ab) => spec_uniform_bounds(lo@, hi@, assoc_map(vars@)) == Ok::<(i64, i64), ErrorV>(
                ab,
            ),
            Err(er) => spec_uniform_bounds(lo@, hi@, assoc_map(vars@)) == Err::<
                (i64, i64),
                ErrorV,
            >(er@),
        },
{
    match eval_int_param(vars, lo) {
        Err(er) => Err(er),
        Ok(a) => match eval_int_param(vars, hi) {
            Err(er) => Err(er),
            Ok(b) => if b < a {
                Err(Error::TypeMismatch)
            } else {
                Ok((a, b))
            },
        },
    }
}

/// Materializes a distribution's ordered outcome set.
#[verifier::loop_isolation(false)]
#[verifier::rlimit(100)]
fn dist_outcomes(vars: &Vec<(String, Num)>, d: &Dist) -> (r: Result<Vec<(i64, Num)>, Error>)
    requires
        vars_wf(vars@),
    ensures
        match r {
            Ok(v) => spec_outcomes(d@, assoc_map(vars@)) == Ok::<OutcomesV, ErrorV>(v@) && forall|
                i: int,
            |
                0 <= i < v@.len() ==> (#[trigger] v@[i]).1.wf(),
            Err(er) => spec_outcomes(d@, assoc_map(vars@)) == Err::<OutcomesV, ErrorV>(er@),
        },
    decreases d,
{
    let ghost am = assoc_map(vars@);
    match d {
        Dist::Uniform(lo, hi) => {
            match uniform_bounds(vars, lo, hi) {
                Err(er) => Err(er),
                Ok((a, b)) => {
                    let w128: i128 = (b as i128) - (a as i128) + 1;
                    if w128 > MAX_OUTCOMES as i128 {
                        Err(Error::ResourceExhausted)
                    } else {
                        let w: i64 = w128 as i64;
                        let mut out: Vec<(i64, Num)> = Vec::new();
                        let mut idx: i64 = 0;
                        while idx < w
                            invariant
                                0 <= idx <= w,
                                out@.len() == idx as int,
                                forall|j: int|
                                    0 <= j < idx ==> (#[trigger] out@[j]) == (
                                        (a + j) as i64,
                                        Num::Rat { num: 1, den: w },
                                    ),
                            decreases w - idx,
                        {
                            out.push((a + idx, Num::Rat { num: 1, den: w }));
                            idx = idx + 1;
                        }
                        proof {
                            assert(out@ =~= Seq::new(
                                (b - a + 1) as nat,
                                |i: int| ((a + i) as i64, Num::Rat { num: 1, den: (b - a + 1) as i64 }),
                            ));
                        }
                        Ok(out)
                    }
                },
            }
        },
        Dist::Discrete(pairs) => {
            proof {
                crate::ast::lemma_pairs_view(pairs@);
            }
            let ghost pv = pairs_view(pairs@);
            let mut out: Vec<(i64, Num)> = Vec::new();
            let mut i: usize = 0;
            while i < pairs.len()
                invariant
                    i <= pairs@.len(),
                    forall|j: int| 0 <= j < out@.len() ==> (#[trigger] out@[j]).1.wf(),
                    match spec_discrete_outcomes(pv, am, i as int) {
                        Ok(rest) => spec_discrete_outcomes(pv, am, 0) == Ok::<OutcomesV, ErrorV>(
                            out@ + rest,
                        ),
                        Err(er) => spec_discrete_outcomes(pv, am, 0) == Err::<OutcomesV, ErrorV>(
                            er,
                        ),
                    },
                decreases pairs@.len() - i,
            {
                let k = match eval_int_param(vars, &pairs[i].0) {
                    Err(er) => {
                        return Err(er);
                    },
                    Ok(k) => k,
                };
                let p = match eval_param(vars, &pairs[i].1) {
                    Err(er) => {
                        return Err(er);
                    },
                    Ok(p) => p,
                };
                let ghost pre = out@;
                out.push((k, p));
                proof {
                    assert(out@ =~= pre + seq![(k, p)]);
                    if spec_discrete_outcomes(pv, am, i + 1) is Ok {
                        let rest = spec_discrete_outcomes(pv, am, i + 1)->Ok_0;
                        assert(pre + (seq![(k, p)] + rest) =~= (pre + seq![(k, p)]) + rest);
                    }
                }
                i = i + 1;
            }
            proof {
                assert(out@ + Seq::<(i64, Num)>::empty() =~= out@);
            }
            Ok(out)
        },
        Dist::CombinedDist(d1, d2) => {
            let o1 = match dist_outcomes(vars, d1) {
                Err(er) => {
                    return Err(er);
                },
                Ok(o1) => o1,
            };
            let o2 = match dist_outcomes(vars, d2) {
                Err(er) => {
                    return Err(er);
                },
                Ok(o2) => o2,
            };
            proof {
                assert((o1@.len() as int) * (o2@.len() as int)
                    < 0x100000000000000000000000000000000) by (nonlinear_arith)
                    requires
                        o1@.len() < 0x10000000000000000,
                        o2@.len() < 0x10000000000000000,
                ;
            }
            if (o1.len() as u128) * (o2.len() as u128) > MAX_OUTCOMES as u128 {
                return Err(Error::ResourceExhausted);
            }
            let mut out: Vec<(i64, Num)> = Vec::new();
            let mut i: usize = 0;
            while i < o1.len()
                invariant
                    i <= o1@.len(),
                    forall|j: int| 0 <= j < out@.len() ==> (#[trigger] out@[j]).1.wf(),
                    match spec_cross(o1@, o2@, i as int) {
                        Ok(rest) => spec_cross(o1@, o2@, 0) == Ok::<OutcomesV, ErrorV>(
                            out@ + rest,
                        ),
                        Err(er) => spec_cross(o1@, o2@, 0) == Err::<OutcomesV, ErrorV>(er),
                    },
                decreases o1@.len() - i,
            {
                let v1 = o1[i].0;
                let p1 = o1[i].1;
                proof {
                    if spec_cross_row(v1, p1, o2@, 0) is Ok && spec_cross(o1@, o2@, i + 1) is Ok {
                        let row = spec_cross_row(v1, p1, o2@, 0)->Ok_0;
                        let rest = spec_cross(o1@, o2@, i + 1)->Ok_0;
                        assert(out@ + (row + rest) =~= out@ + row + rest);
                    }
                }
                let mut j: usize = 0;
                while j < o2.len()
                    invariant
                        i < o1@.len(),
                        j <= o2@.len(),
                        v1 == o1@[i as int].0,
                        p1 == o1@[i as int].1,
                        forall|m: int| 0 <= m < out@.len() ==> (#[trigger] out@[m]).1.wf(),
                        match spec_cross_row(v1, p1, o2@, j as int) {
                            Ok(rrest) => match spec_cross(o1@, o2@, i + 1) {
                                Ok(rest) => spec_cross(o1@, o2@, 0) == Ok::<OutcomesV, ErrorV>(
                                    out@ + rrest + rest,
                                ),
                                Err(er) => spec_cross(o1@, o2@, 0) == Err::<OutcomesV, ErrorV>(
                                    er,
                                ),
                            },
                            Err(er) => spec_cross(o1@, o2@, 0) == Err::<OutcomesV, ErrorV>(er),
                        },
                    decreases o2@.len() - j,
                {
                    let v2 = o2[j].0;
                    let p2 = o2[j].1;
                    let sum128: i128 = (v1 as i128) + (v2 as i128);
                    if sum128 < i64::MIN as i128 || sum128 > i64::MAX as i128 {
                        return Err(Error::ResourceExhausted);
                    }
                    let p = match p1.mul(&p2) {
                        Err(er) => {
                            return Err(er);
                        },
                        Ok(p) => p,
                    };
                    let ghost pre = out@;
                    out.push((sum128 as i64, p));
                    proof {
                        assert(out@ =~= pre + seq![(sum128 as i64, p)]);
                        if spec_cross_row(v1, p1, o2@, j + 1) is Ok && spec_cross(
                            o1@,
                            o2@,
                            i + 1,
                        ) is Ok {
                            let rrest = spec_cross_row(v1, p1, o2@, j + 1)->Ok_0;
                            let rest = spec_cross(o1@, o2@, i + 1)->Ok_0;
                            assert(pre + (seq![(sum128 as i64, p)] + rrest) + rest =~= (pre
                                + seq![(sum128 as i64, p)]) + rrest + rest);
                        }
                    }
                    j = j + 1;
                }
                i = i + 1;
                proof {
                    if spec_cross(o1@, o2@, i as int) is Ok {
                        let rest = spec_cross(o1@, o2@, i as int)->Ok_0;
                        assert(out@ + Seq::<(i64, Num)>::empty() + rest =~= out@ + rest);
                    }
                }
            }
            proof {
                assert(out@ + Seq::<(i64, Num)>::empty() =~= out@);
            }
            Ok(out)
        },
        Dist::ChainDist(_, _, _) => Err(Error::UnimplementedFeature),
    }
}

/// The probability mass `d` puts at the single outcome `k`, computed
/// against the numeric bindings.
#[verifier::loop_isolation(false)]
#[verifier::rlimit(100)]
fn expect_dist(vars: &Vec<(String, Num)>, d: &Dist, k: i64) -> (r: Result<Num, Error>)
    requires
        vars_wf(vars@),
    ensures
        res_num(r) == spec_expect(d@, k, assoc_map(vars@)),
        r matches Ok(v) ==> v.wf(),
    decreases d,
{
    let ghost am = assoc_map(vars@);
    match d {
        Dist::Uniform(lo, hi) => match uniform_bounds(vars, lo, hi) {
            Err(er) => Err(er),
            Ok((a, b)) => {
                if k < a || k > b {
                    Ok(Num::Rat { num: 0, den: 1 })
                } else {
                    let w128: i128 = (b as i128) - (a as i128) + 1;
                    if w128 > i64::MAX as i128 {
                        Err(Error::ResourceExhausted)
                    } else {
                        Ok(Num::Rat { num: 1, den: w128 as i64 })
                    }
                }
            },
        },
        Dist::Discrete(pairs) => {
            proof {
                crate::ast::lemma_pairs_view(pairs@);
            }
            let ghost pv = pairs_view(pairs@);
            let mut i: usize = 0;
            while i < pairs.len()
                invariant
                    i <= pairs@.len(),
                    spec_expect_discrete(pv, k, am, 0) == spec_expect_discrete(pv, k, am, i as int),
                decreases pairs@.len() - i,
            {
                let kv = match eval_int_param(vars, &pairs[i].0) {
                    Err(er) => {
                        return Err(er);
                    },
                    Ok(kv) => kv,
                };
                if kv == k {
                    return eval_param(vars, &pairs[i].1);
                }
                i = i + 1;
            }
            Ok(Num::Rat { num: 0, den: 1 })
        },
        Dist::CombinedDist(d1, d2) => {
            let o1 = match dist_outcomes(vars, d1) {
                Err(er) => {
                    return Err(er);
                },
                Ok(o1) => o1,
            };
            let o2 = match dist_outcomes(vars, d2) {
                Err(er) => {
                    return Err(er);
                },
                Ok(o2) => o2,
            };
            proof {
                assert((o1@.len() as int) * (o2@.len() as int)
                    < 0x100000000000000000000000000000000) by (nonlinear_arith)
                    requires
                        o1@.len() < 0x10000000000000000,
                        o2@.len() < 0x10000000000000000,
                ;
            }
            if (o1.len() as u128) * (o2.len() as u128) > MAX_OUTCOMES as u128 {
                return Err(Error::ResourceExhausted);
            }
            let ghost zero = Num::Rat { num: 0, den: 1 };
            let mut acc: Num = Num::Rat { num: 0, den: 1 };
            let mut i: usize = 0;
            while i < o1.len()
                invariant
                    i <= o1@.len(),
                    acc.wf(),
                    forall|m: int| 0 <= m < o1@.len() ==> (#[trigger] o1@[m]).1.wf(),
                    forall|m: int| 0 <= m < o2@.len() ==> (#[trigger] o2@[m]).1.wf(),
                    spec_mass(zero, o1@, o2@, k, 0) == spec_mass(acc, o1@, o2@, k, i as int),
                decreases o1@.len() - i,
            {
                let v1 = o1[i].0;
                let p1 = o1[i].1;
                let mut j: usize = 0;
                while j < o2.len()
                    invariant
                        i < o1@.len(),
                        j <= o2@.len(),
                        acc.wf(),
                        v1 == o1@[i as int].0,
                        p1 == o1@[i as int].1,
                        match spec_mass_row(acc, v1, p1, o2@, k, j as int) {
                            Ok(acc2) => spec_mass(zero, o1@, o2@, k, 0) == spec_mass(
                                acc2,
                                o1@,
                                o2@,
                                k,
                                i + 1,
                            ),
                            Err(er) => spec_mass(zero, o1@, o2@, k, 0) == Err::<Num, ErrorV>(er),
                        },
                    decreases o2@.len() - j,
                {
                    let v2 = o2[j].0;
                    let p2 = o2[j].1;
                    if (v1 as i128) + (v2 as i128) == (k as i128) {
                        let p = match p1.mul(&p2) {
                            Err(er) => {
                                return Err(er);
                            },
                            Ok(p) => p,
                        };
                        acc = match acc.add(&p) {
                            Err(er) => {
                                return Err(er);
                            },
                            Ok(acc2) => acc2,
                        };
                    }
                    j = j + 1;
                }
                i = i + 1;
            }
            Ok(acc)
        },
        Dist::ChainDist(_, _, _) => Err(Error::UnimplementedFeature),
    }
}

impl RuntimeEnv {
    /// The ordered outcome set of a distribution, with its parameters
    /// evaluated against this environment's numeric bindings.
    pub fn get_dist_outcomes(&self, d: &Dist) -> (r: Result<Vec<(i64, Num)>, Error>)
        requires
            self.wf(),
        ensures
            match r {
                Ok(v) => spec_outcomes(d@, self.vars_map()) == Ok::<OutcomesV, ErrorV>(v@)
                    && forall|i: int| 0 <= i < v@.len() ==> (#[trigger] v@[i]).1.wf(),
                Err(er) => spec_outcomes(d@, self.vars_map()) == Err::<OutcomesV, ErrorV>(er@),
            },
    {
        dist_outcomes(&self.vars, d)
    }

    /// A query on a bound distribution: the variable must name a bound
    /// distribution, the method must be `expect` with exactly one
    /// argument, and the argument must evaluate to an integer outcome.
    pub fn eval_dist_method(&self, var: &String, method: &String, args: &Vec<Expr>) -> (r: Result<
        Num,
        Error,
    >)
        requires
            self.wf(),
        ensures
            res_num(r) == spec_eval_expr(
                ExprV::DistMethodCall { var: var@, method: method@, args: exprs_view(args@) },
                self.vars_map(),
                self.dists_map(),
            ),
            r matches Ok(v) ==> v.wf(),
        decreases args,
    {
        proof {
            crate::ast::lemma_exprs_view(args@);
        }
        match self.find_dist(var) {
            None => Err(Error::UndefinedDistribution(var.clone())),
            Some(di) => {
                let expect_name = String::from_str("expect");
                if !(*method == expect_name) {
                    Err(Error::UnknownMethod(method.clone()))
                } else if args.len() != 1 {
                    Err(Error::ArityError)
                } else {
                    proof {
                        assert(decreases_to!(*args => args[0int]));
                    }
                    match self.eval_expr(&args[0]) {
                        Err(er) => Err(er),
                        Ok(v) => match v.as_integer() {
                            None => Err(Error::TypeMismatch),
                            Some(k) => expect_dist(&self.vars, &self.dists[di].1, k),
                        },
                    }
                }
            },
        }
    }

    /// The value of an expression against this environment.
    pub fn eval_expr(&self, expr: &Expr) -> (r: Result<Num, Error>)
        requires
            self.wf(),
        ensures
            res_num(r) == spec_eval_expr(expr@, self.vars_map(), self.dists_map()),
            r matches Ok(v) ==> v.wf(),
        decreases expr,
    {
        match expr {
            Expr::Int(n) => Ok(Num::from_int(*n)),
            Expr::Var(s) => match self.lookup_var(s) {
                Some(v) => Ok(v),
                None => Err(Error::UndefinedVariable(s.clone())),
            },
            Expr::Neg(a) => match self.eval_expr(a) {
                Err(er) => Err(er),
                Ok(v) => v.neg(),
            },
            Expr::Add(a, b) => match self.eval_expr(a) {
                Err(er) => Err(er),
                Ok(va) => match self.eval_expr(b) {
                    Err(er) => Err(er),
                    Ok(vb) => va.add(&vb),
                },
            },
            Expr::Sub(a, b) => match self.eval_expr(a) {
                Err(er) => Err(er),
                Ok(va) => match self.eval_expr(b) {
                    Err(er) => Err(er),
                    Ok(vb) => va.sub(&vb),
                },
            },
            Expr::Mul(a, b) => match self.eval_expr(a) {
                Err(er) => Err(er),
                Ok(va) => match self.eval_expr(b) {
                    Err(er) => Err(er),
                    Ok(vb) => va.mul(&vb),
                },
            },
            Expr::Div(a, b) => match self.eval_expr(a) {
                Err(er) => Err(er),
                Ok(va) => match self.eval_expr(b) {
                    Err(er) => Err(er),
                    Ok(vb) => va.div(&vb),
                },
            },
            Expr::Dist(_) => Err(Error::TypeMismatch),
            Expr::DistMethodCall { var, method, args } => {
                proof {
                    assert(decreases_to!(*expr => expr->args));
                }
                self.eval_dist_method(var, method, args)
            },
        }
    }

    /// Binds an evaluated value as a numeric binding.
    fn bind_plain(&mut self, n: &String, value: &Expr) -> (r: Result<Option<String>, Error>)
        requires
            old(self).wf(),
        ensures
            final(self).wf(),
            ({
                let res = spec_bind_plain(
                    n@,
                    value@,
                    old(self).vars_map(),
                    old(self).dists_map(),
                );
                match r {
                    Ok(out) => res matches Ok(t) && final(self).vars_map() == t.0 && final(self).dists_map() == t.1 && out is None && t.2 is None,
                    Err(er) => res == Err::<(VarsV, DistsV, Option<Seq<char>>), ErrorV>(er@)
                        && final(self).vars_map() == old(self).vars_map() && final(self).dists_map() == old(self).dists_map(),
                }
            }),
    {
        match self.eval_expr(value) {
            Err(er) => Err(er),
            Ok(v) => {
                self.set_var(n, v);
                Ok(None)
            },
        }
    }

    /// Binds the convolution of the distributions at the two given indexes
    /// to a name.
    fn bind_combined(&mut self, n: &String, i: usize, j: usize)
        requires
            old(self).wf(),
            i < old(self).dists@.len(),
            j < old(self).dists@.len(),
        ensures
            final(self).wf(),
            final(self).vars_map() == old(self).vars_map().remove(n@),
            final(self).dists_map() == old(self).dists_map().insert(
                n@,
                DistV::CombinedDist(
                    Box::new(dist_view(old(self).dists@[i as int].1)),
                    Box::new(dist_view(old(self).dists@[j as int].1)),
                ),
            ),
    {
        let ghost d1v = dist_view(self.dists@[i as int].1);
        let ghost d2v = dist_view(self.dists@[j as int].1);
        let d1 = clone_dist(&self.dists[i].1);
        let d2 = clone_dist(&self.dists[j].1);
        let nd = Dist::CombinedDist(Box::new(d1), Box::new(d2));
        proof {
            assert(dist_view(nd) == DistV::CombinedDist(Box::new(d1v), Box::new(d2v)));
        }
        self.set_dist(n, nd);
    }

    /// Binds `value` to the target `name`, with the convolution special
    /// case checked before numeric evaluation.
    #[verifier::rlimit(100)]
    fn bind_value(&mut self, name: &Expr, value: &Expr) -> (r: Result<Option<String>, Error>)
        requires
            old(self).wf(),
        ensures
            final(self).wf(),
            ({
                let res = spec_bind(name@, value@, old(self).vars_map(), old(self).dists_map());
                match r {
                    Ok(out) => res matches Ok(t) && final(self).vars_map() == t.0 && final(self).dists_map() == t.1 && out is None && t.2 is None,
                    Err(er) => res == Err::<(VarsV, DistsV, Option<Seq<char>>), ErrorV>(er@)
                        && final(self).vars_map() == old(self).vars_map() && final(self).dists_map() == old(self).dists_map(),
                }
            }),
    {
        match name {
            Expr::Var(n) => {
                match value {
                    Expr::Add(ba, bb) => {
                        match (&**ba, &**bb) {
                            (Expr::Var(a), Expr::Var(b)) => {
                                let ia = self.find_dist(a);
                                let ib = self.find_dist(b);
                                match (ia, ib) {
                                    (Some(i), Some(j)) => {
                                        proof {
                                            reveal_with_fuel(expr_view, 3);
                                            assert(value@ == ExprV::Add(
                                                Box::new(ExprV::Var(a@)),
                                                Box::new(ExprV::Var(b@)),
                                            ));
                                        }
                                        self.bind_combined(n, i, j);
                                        Ok(None)
                                    },
                                    _ => self.bind_plain(n, value),
                                }
                            },
                            _ => self.bind_plain(n, value),
                        }
                    },
                    Expr::Dist(dl) => {
                        let dc = clone_dist(dl);
                        self.set_dist(n, dc);
                        Ok(None)
                    },
                    _ => self.bind_plain(n, value),
                }
            },
            _ => Err(Error::TypeMismatch),
        }
    }

    /// Executes one statement, returning the line of text an `output`
    /// statement prints. On failure the environment is unchanged.
    pub fn exec_stmt(&mut self, stmt: &Statement) -> (r: Result<Option<String>, Error>)
        requires
            old(self).wf(),
        ensures
            final(self).wf(),
            ({
                let res = spec_exec_stmt(stmt@, old(self).vars_map(), old(self).dists_map());
                match r {
                    Ok(out) => res matches Ok(t) && final(self).vars_map() == t.0 && final(self).dists_map() == t.1 && (match out {
                        Some(line) => t.2 matches Some(lv) && line@ == lv,
                        None => t.2 is None,
                    }),
                    Err(er) => res == Err::<(VarsV, DistsV, Option<Seq<char>>), ErrorV>(er@)
                        && final(self).vars_map() == old(self).vars_map() && final(self).dists_map() == old(self).dists_map(),
                }
            }),
    {
        match stmt {
            Statement::Decl(target) => match target {
                Expr::Var(name) => {
                    self.set_var(name, Num::from_int(0));
                    Ok(None)
                },
                _ => Err(Error::TypeMismatch),
            },
            Statement::Assign { name, value } => self.bind_value(name, value),
            Statement::DeclAssign { name, value } => self.bind_value(name, value),
            Statement::HardcodedOutput(e) => match self.eval_expr(e) {
                Err(er) => Err(er),
                Ok(v) => Ok(Some(num_text(&v))),
            },
        }
    }
}

/// The views of a sequence of output lines.
pub open spec fn strings_view(s: Seq<String>) -> Seq<Seq<char>> {
    s.map_values(|x: String| x@)
}

/// Runs a program: executes the statements in order against a fresh
/// environment. Returns the lines the `output` statements printed up to
/// the first failure, together with that failure if one occurred, so a
/// host can report both the partial output and a precise error. A
/// failing statement prints nothing itself and stops the run.
#[verifier::loop_isolation(false)]
#[verifier::rlimit(100)]
pub fn run(stmts: &[Statement]) -> (r: (Vec<String>, Option<Error>))
    ensures
        ({
            let res = spec_run(stmts_view(stmts@));
            strings_view(r.0@) == res.0 && (match r.1 {
                Some(er) => res.1 == Some(er@),
                None => res.1 is None,
            })
        }),
{
    let ghost sv = stmts_view(stmts@);
    let mut env = RuntimeEnv::new();
    let mut outputs: Vec<String> = Vec::new();
    let mut i: usize = 0;
    while i < stmts.len()
        invariant
            env.wf(),
            i <= stmts@.len(),
            ({
                let rest = spec_run_from(sv, i as int, env.vars_map(), env.dists_map());
                spec_run(sv).0 == strings_view(outputs@) + rest.0 && spec_run(sv).1 == rest.1
            }),
        decreases stmts@.len() - i,
    {
        assert(sv[i as int] == stmts@[i as int]@);
        match env.exec_stmt(&stmts[i]) {
            Err(er) => {
                proof {
                    assert(strings_view(outputs@) + Seq::<Seq<char>>::empty() =~= strings_view(
                        outputs@,
                    ));
                }
                return (outputs, Some(er));
            },
            Ok(out) => {
                let ghost pre = outputs@;
                match out {
                    Some(line) => {
                        let ghost lv = line@;
                        outputs.push(line);
                        proof {
                            assert(strings_view(outputs@) =~= strings_view(pre).push(lv));
                            let rest = spec_run_from(sv, i + 1, env.vars_map(), env.dists_map());
                            assert(strings_view(pre) + (seq![lv] + rest.0) =~= strings_view(
                                outputs@,
                            ) + rest.0);
                        }
                    },
                    None => {},
                }
            },
        }
        i = i + 1;
    }
    proof {
        assert(strings_view(outputs@) + Seq::<Seq<char>>::empty() =~= strings_view(outputs@));
    }
    (outputs, None)
}

/// Looks a name up in a numeric association list.
fn lookup_num(vars: &Vec<(String, Num)>, name: &String) -> (r: Option<Num>)
    requires
        vars_wf(vars@),
    ensures
        match r {
            Some(v) => assoc_map(vars@).dom().contains(name@) && v == assoc_map(vars@)[name@]
                && v.wf(),
            None => !assoc_map(vars@).dom().contains(name@),
        },
{
    let mut i: usize = 0;
    while i < vars.len()
        invariant
            vars_wf(vars@),
            i <= vars@.len(),
            forall|j: int| 0 <= j < i ==> (#[trigger] vars@[j]).0@ != name@,
        decreases vars@.len() - i,
    {
        if vars[i].0 == *name {
            proof {
                lemma_assoc_get(vars@, i as int);
            }
            return Some(vars[i].1);
        }
        i = i + 1;
    }
    proof {
        lemma_assoc_dom(vars@, name@);
    }
    None
}

} // verus!
