//! General laws of the distribution algebra, stated and proved once for
//! all inputs.

use vstd::prelude::*;

verus! {

use crate::ast::{DistV, ErrorV, ExprV};
use crate::interpreter::{
    spec_eval_int_param,
    spec_eval_param,
    spec_expect,
    spec_expect_discrete,
    spec_outcomes,
    OutcomesV,
    VarsV,
    MAX_OUTCOMES,
};
use crate::num::Num;

/// The exact sum of the weights of the outcomes from index `i` on, as an
/// unreduced fraction `(numerator, denominator)`; a non-finite weight
/// contributes nothing.
pub open spec fn weights_sum(o: OutcomesV, i: int) -> (int, int)
    decreases o.len() - i,
{
    if i < 0 || i >= o.len() {
        (0, 1)
    } else {
        let rest = weights_sum(o, i + 1);
        match o[i].1 {
            Num::Rat { num, den } => (num * rest.1 + rest.0 * den, den * rest.1),
            _ => rest,
        }
    }
}

/// The weight sum of a run of identical weights `1/w` cross-multiplies to
/// `(count)/w`.
proof fn lemma_weights_sum_const(o: OutcomesV, i: int, w: int)
    requires
        0 <= i <= o.len(),
        1 <= w <= i64::MAX as int,
        forall|j: int| i <= j < o.len() ==> (#[trigger] o[j]).1 == (Num::Rat {
            num: 1,
            den: w as i64,
        }),
    ensures
        ({
            let sm = weights_sum(o, i);
            sm.1 >= 1 && sm.0 * w == (o.len() - i) * sm.1
        }),
    decreases o.len() - i,
{
    if i < o.len() {
        lemma_weights_sum_const(o, i + 1, w);
        let rest = weights_sum(o, i + 1);
        let sm = weights_sum(o, i);
        assert(sm.0 == rest.1 + rest.0 * w && sm.1 == w * rest.1);
        assert(sm.0 * w == (o.len() - i) * sm.1) by (nonlinear_arith)
            requires
                sm.0 == rest.1 + rest.0 * w,
                sm.1 == w * rest.1,
                rest.0 * w == (o.len() - i - 1) * rest.1,
        ;
        assert(sm.1 >= 1) by (nonlinear_arith)
            requires
                sm.1 == w * rest.1,
                w >= 1,
                rest.1 >= 1,
        ;
    }
}

/// The law of uniform outcome sets: for every inclusive integer range
/// `a..=b` within the outcome cap, enumerating `uniform(a, b)` succeeds
/// and yields exactly `b-a+1` outcomes — the values `a..=b` in order,
/// each weighted exactly `1/(b-a+1)` — and the weights sum to exactly
/// one.
pub proof fn lemma_uniform_outcomes(a: i64, b: i64, vars: VarsV)
    requires
        a <= b,
        b - a + 1 <= MAX_OUTCOMES as int,
    ensures
        ({
            let r = spec_outcomes(
                DistV::Uniform(Box::new(ExprV::Int(a)), Box::new(ExprV::Int(b))),
                vars,
            );
            let w = b - a + 1;
            &&& r is Ok
            &&& r->Ok_0.len() == w
            &&& forall|i: int|
                0 <= i < w ==> (#[trigger] r->Ok_0[i]) == (
                    (a + i) as i64,
                    Num::Rat { num: 1, den: w as i64 },
                )
            &&& weights_sum(r->Ok_0, 0).0 == weights_sum(r->Ok_0, 0).1
        }),
{
    let d = DistV::Uniform(Box::new(ExprV::Int(a)), Box::new(ExprV::Int(b)));
    let w = b - a + 1;
    assert(spec_eval_param(ExprV::Int(a), vars) == Ok::<Num, ErrorV>(Num::Rat { num: a, den: 1 }));
    assert(spec_eval_int_param(ExprV::Int(a), vars) == Ok::<i64, ErrorV>(a));
    assert(spec_eval_int_param(ExprV::Int(b), vars) == Ok::<i64, ErrorV>(b));
    let r = spec_outcomes(d, vars);
    let o = r->Ok_0;
    assert(o == Seq::new(w as nat, |i: int| ((a + i) as i64, Num::Rat { num: 1, den: w as i64 })));
    lemma_weights_sum_const(o, 0, w);
    let sm = weights_sum(o, 0);
    assert(sm.0 == sm.1) by (nonlinear_arith)
        requires
            sm.0 * w == (o.len() - 0) * sm.1,
            o.len() == w,
            w >= 1,
    ;
}

/// The law of uniform mass queries, for every range with `a <= b`: the
/// query at an outcome outside `[a, b]` returns exactly zero; at an
/// outcome inside it returns exactly `1/(b-a+1)` whenever that weight's
/// denominator is representable in 64 bits, and reports resource
/// exhaustion otherwise.
pub proof fn lemma_uniform_expect(a: i64, b: i64, k: i64, vars: VarsV)
    requires
        a <= b,
    ensures
        ({
            let r = spec_expect(
                DistV::Uniform(Box::new(ExprV::Int(a)), Box::new(ExprV::Int(b))),
                k,
                vars,
            );
            let w = b - a + 1;
            &&& ((k < a || k > b) ==> r == Ok::<Num, ErrorV>(Num::Rat { num: 0, den: 1 }))
            &&& ((a <= k <= b && w <= i64::MAX as int) ==> r == Ok::<Num, ErrorV>(
                Num::Rat { num: 1, den: w as i64 },
            ))
            &&& ((a <= k <= b && w > i64::MAX as int) ==> r == Err::<Num, ErrorV>(
                ErrorV::ResourceExhausted,
            ))
        }),
{
    assert(spec_eval_param(ExprV::Int(a), vars) == Ok::<Num, ErrorV>(Num::Rat { num: a, den: 1 }));
    assert(spec_eval_int_param(ExprV::Int(a), vars) == Ok::<i64, ErrorV>(a));
    assert(spec_eval_int_param(ExprV::Int(b), vars) == Ok::<i64, ErrorV>(b));
}

/// First-match lookup from index `i` on: no matching value from `i` on
/// means zero mass.
proof fn lemma_discrete_undeclared_from(
    pairs: Seq<(ExprV, ExprV)>,
    k: i64,
    vars: VarsV,
    i: int,
)
    requires
        forall|j: int|
            0 <= j < pairs.len() ==> (#[trigger] spec_eval_int_param(pairs[j].0, vars)) is Ok
                && spec_eval_int_param(pairs[j].0, vars)->Ok_0 != k,
    ensures
        spec_expect_discrete(pairs, k, vars, i) == Ok::<Num, ErrorV>(Num::Rat { num: 0, den: 1 }),
    decreases pairs.len() - i,
{
    if 0 <= i < pairs.len() {
        lemma_discrete_undeclared_from(pairs, k, vars, i + 1);
    }
}

/// The law of undeclared outcomes: when every declared value of a
/// discrete distribution evaluates to an integer other than `k`, the mass
/// query at `k` returns exactly zero.
pub proof fn lemma_discrete_undeclared(pairs: Seq<(ExprV, ExprV)>, k: i64, vars: VarsV)
    requires
        forall|j: int|
            0 <= j < pairs.len() ==> (#[trigger] spec_eval_int_param(pairs[j].0, vars)) is Ok
                && spec_eval_int_param(pairs[j].0, vars)->Ok_0 != k,
    ensures
        spec_expect(DistV::Discrete(pairs), k, vars) == Ok::<Num, ErrorV>(
            Num::Rat { num: 0, den: 1 },
        ),
{
    lemma_discrete_undeclared_from(pairs, k, vars, 0);
}

/// First-match lookup from index `i` on, when the first match sits at
/// `m`.
proof fn lemma_discrete_declared_from(
    pairs: Seq<(ExprV, ExprV)>,
    k: i64,
    vars: VarsV,
    i: int,
    m: int,
)
    requires
        0 <= i <= m < pairs.len(),
        spec_eval_int_param(pairs[m].0, vars) == Ok::<i64, ErrorV>(k),
        forall|j: int|
            0 <= j < m ==> (#[trigger] spec_eval_int_param(pairs[j].0, vars)) is Ok
                && spec_eval_int_param(pairs[j].0, vars)->Ok_0 != k,
    ensures
        spec_expect_discrete(pairs, k, vars, i) == spec_eval_param(pairs[m].1, vars),
    decreases pairs.len() - i,
{
    if i < m {
        lemma_discrete_declared_from(pairs, k, vars, i + 1, m);
    }
}

/// The law of declared outcomes: when the declared values of a discrete
/// distribution evaluate to integers and the first pair declaring `k`
/// sits at index `m`, the mass query at `k` returns exactly that pair's
/// probability.
pub proof fn lemma_discrete_declared(pairs: Seq<(ExprV, ExprV)>, k: i64, vars: VarsV, m: int)
    requires
        0 <= m < pairs.len(),
        spec_eval_int_param(pairs[m].0, vars) == Ok::<i64, ErrorV>(k),
        forall|j: int|
            0 <= j < m ==> (#[trigger] spec_eval_int_param(pairs[j].0, vars)) is Ok
                && spec_eval_int_param(pairs[j].0, vars)->Ok_0 != k,
    ensures
        spec_expect(DistV::Discrete(pairs), k, vars) == spec_eval_param(pairs[m].1, vars),
{
    lemma_discrete_declared_from(pairs, k, vars, 0, m);
}

} // verus!
