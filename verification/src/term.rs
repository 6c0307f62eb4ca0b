//! Symbolic integer and boolean terms.
//!
//! The shadow interpreter mirrors concrete execution with terms drawn from a
//! small integer algebra: constants, named variables, ring operations,
//! comparisons and if-then-else.  There are no native bit vectors; bitwise
//! instructions are emulated with division and remainder by powers of two.
//! The ghost side gives every term a mathematical reading (`it_view`,
//! `eval_int`) that the emulation proofs and the issue detectors are stated
//! over.

use crate::coverage::fnv64_step;
use crate::u256::{fp_bits, U256};
use vstd::arithmetic::power2::pow2;
use vstd::prelude::*;

verus! {

/// The mathematical reading of an integer term.
pub enum TermV {
    Const(nat),
    Pow2(nat),
    Var(u64),
    Add(Box<TermV>, Box<TermV>),
    Sub(Box<TermV>, Box<TermV>),
    Mul(Box<TermV>, Box<TermV>),
    Div(Box<TermV>, Box<TermV>),
    Mod(Box<TermV>, Box<TermV>),
    Ite(Box<PredV>, Box<TermV>, Box<TermV>),
}

/// The mathematical reading of a boolean term.
pub enum PredV {
    Eq(Box<TermV>, Box<TermV>),
    Ne(Box<TermV>, Box<TermV>),
    Lt(Box<TermV>, Box<TermV>),
    Le(Box<TermV>, Box<TermV>),
    Gt(Box<TermV>, Box<TermV>),
    Ge(Box<TermV>, Box<TermV>),
    Not(Box<PredV>),
}

/// A symbolic integer value.
#[derive(Debug)]
pub enum IntTerm {
    Const(U256),
    Pow2(u32),
    Var(u64),
    Add(Box<IntTerm>, Box<IntTerm>),
    Sub(Box<IntTerm>, Box<IntTerm>),
    Mul(Box<IntTerm>, Box<IntTerm>),
    Div(Box<IntTerm>, Box<IntTerm>),
    Mod(Box<IntTerm>, Box<IntTerm>),
    Ite(Box<BoolTerm>, Box<IntTerm>, Box<IntTerm>),
}

/// A symbolic boolean value: a comparison of integer terms, possibly negated.
#[derive(Debug)]
pub enum BoolTerm {
    Eq(Box<IntTerm>, Box<IntTerm>),
    Ne(Box<IntTerm>, Box<IntTerm>),
    Lt(Box<IntTerm>, Box<IntTerm>),
    Le(Box<IntTerm>, Box<IntTerm>),
    Gt(Box<IntTerm>, Box<IntTerm>),
    Ge(Box<IntTerm>, Box<IntTerm>),
    Not(Box<BoolTerm>),
}

/// The reading of an integer term.
pub open spec fn it_view(t: IntTerm) -> TermV
    decreases t,
{
    match t {
        IntTerm::Const(u) => TermV::Const(u.value()),
        IntTerm::Pow2(e) => TermV::Pow2(e as nat),
        IntTerm::Var(v) => TermV::Var(v),
        IntTerm::Add(a, b) => TermV::Add(Box::new(it_view(*a)), Box::new(it_view(*b))),
        IntTerm::Sub(a, b) => TermV::Sub(Box::new(it_view(*a)), Box::new(it_view(*b))),
        IntTerm::Mul(a, b) => TermV::Mul(Box::new(it_view(*a)), Box::new(it_view(*b))),
        IntTerm::Div(a, b) => TermV::Div(Box::new(it_view(*a)), Box::new(it_view(*b))),
        IntTerm::Mod(a, b) => TermV::Mod(Box::new(it_view(*a)), Box::new(it_view(*b))),
        IntTerm::Ite(c, a, b) => TermV::Ite(
            Box::new(bt_view(*c)),
            Box::new(it_view(*a)),
            Box::new(it_view(*b)),
        ),
    }
}

/// The reading of a boolean term.
pub open spec fn bt_view(t: BoolTerm) -> PredV
    decreases t,
{
    match t {
        BoolTerm::Eq(a, b) => PredV::Eq(Box::new(it_view(*a)), Box::new(it_view(*b))),
        BoolTerm::Ne(a, b) => PredV::Ne(Box::new(it_view(*a)), Box::new(it_view(*b))),
        BoolTerm::Lt(a, b) => PredV::Lt(Box::new(it_view(*a)), Box::new(it_view(*b))),
        BoolTerm::Le(a, b) => PredV::Le(Box::new(it_view(*a)), Box::new(it_view(*b))),
        BoolTerm::Gt(a, b) => PredV::Gt(Box::new(it_view(*a)), Box::new(it_view(*b))),
        BoolTerm::Ge(a, b) => PredV::Ge(Box::new(it_view(*a)), Box::new(it_view(*b))),
        BoolTerm::Not(a) => PredV::Not(Box::new(bt_view(*a))),
    }
}

/// Every 256-bit constant in the term is well formed.
pub open spec fn it_wf(t: IntTerm) -> bool
    decreases t,
{
    match t {
        IntTerm::Const(u) => u.wf(),
        IntTerm::Pow2(_) => true,
        IntTerm::Var(_) => true,
        IntTerm::Add(a, b) => it_wf(*a) && it_wf(*b),
        IntTerm::Sub(a, b) => it_wf(*a) && it_wf(*b),
        IntTerm::Mul(a, b) => it_wf(*a) && it_wf(*b),
        IntTerm::Div(a, b) => it_wf(*a) && it_wf(*b),
        IntTerm::Mod(a, b) => it_wf(*a) && it_wf(*b),
        IntTerm::Ite(c, a, b) => bt_wf(*c) && it_wf(*a) && it_wf(*b),
    }
}

/// Every 256-bit constant in the boolean term is well formed.
pub open spec fn bt_wf(t: BoolTerm) -> bool
    decreases t,
{
    match t {
        BoolTerm::Eq(a, b) => it_wf(*a) && it_wf(*b),
        BoolTerm::Ne(a, b) => it_wf(*a) && it_wf(*b),
        BoolTerm::Lt(a, b) => it_wf(*a) && it_wf(*b),
        BoolTerm::Le(a, b) => it_wf(*a) && it_wf(*b),
        BoolTerm::Gt(a, b) => it_wf(*a) && it_wf(*b),
        BoolTerm::Ge(a, b) => it_wf(*a) && it_wf(*b),
        BoolTerm::Not(a) => bt_wf(*a),
    }
}

/// The value of an integer term under a variable assignment.
pub open spec fn eval_int(t: TermV, env: Map<u64, int>) -> int
    decreases t,
{
    match t {
        TermV::Const(c) => c as int,
        TermV::Pow2(e) => pow2(e) as int,
        TermV::Var(v) => env[v],
        TermV::Add(a, b) => eval_int(*a, env) + eval_int(*b, env),
        TermV::Sub(a, b) => eval_int(*a, env) - eval_int(*b, env),
        TermV::Mul(a, b) => eval_int(*a, env) * eval_int(*b, env),
        TermV::Div(a, b) => eval_int(*a, env) / eval_int(*b, env),
        TermV::Mod(a, b) => eval_int(*a, env) % eval_int(*b, env),
        TermV::Ite(c, a, b) => if eval_bool(*c, env) {
            eval_int(*a, env)
        } else {
            eval_int(*b, env)
        },
    }
}

/// The value of a boolean term under a variable assignment.
pub open spec fn eval_bool(t: PredV, env: Map<u64, int>) -> bool
    decreases t,
{
    match t {
        PredV::Eq(a, b) => eval_int(*a, env) == eval_int(*b, env),
        PredV::Ne(a, b) => eval_int(*a, env) != eval_int(*b, env),
        PredV::Lt(a, b) => eval_int(*a, env) < eval_int(*b, env),
        PredV::Le(a, b) => eval_int(*a, env) <= eval_int(*b, env),
        PredV::Gt(a, b) => eval_int(*a, env) > eval_int(*b, env),
        PredV::Ge(a, b) => eval_int(*a, env) >= eval_int(*b, env),
        PredV::Not(a) => !eval_bool(*a, env),
    }
}

/// The node count of an integer term.
pub open spec fn it_size(t: TermV) -> nat
    decreases t,
{
    match t {
        TermV::Const(_) => 1,
        TermV::Pow2(_) => 1,
        TermV::Var(_) => 1,
        TermV::Add(a, b) => 1 + it_size(*a) + it_size(*b),
        TermV::Sub(a, b) => 1 + it_size(*a) + it_size(*b),
        TermV::Mul(a, b) => 1 + it_size(*a) + it_size(*b),
        TermV::Div(a, b) => 1 + it_size(*a) + it_size(*b),
        TermV::Mod(a, b) => 1 + it_size(*a) + it_size(*b),
        TermV::Ite(c, a, b) => 1 + bt_size(*c) + it_size(*a) + it_size(*b),
    }
}

/// The node count of a boolean term.
pub open spec fn bt_size(t: PredV) -> nat
    decreases t,
{
    match t {
        PredV::Eq(a, b) => 1 + it_size(*a) + it_size(*b),
        PredV::Ne(a, b) => 1 + it_size(*a) + it_size(*b),
        PredV::Lt(a, b) => 1 + it_size(*a) + it_size(*b),
        PredV::Le(a, b) => 1 + it_size(*a) + it_size(*b),
        PredV::Gt(a, b) => 1 + it_size(*a) + it_size(*b),
        PredV::Ge(a, b) => 1 + it_size(*a) + it_size(*b),
        PredV::Not(a) => 1 + bt_size(*a),
    }
}

/// Whether an integer term contains a division node.
pub open spec fn it_has_div(t: TermV) -> bool
    decreases t,
{
    match t {
        TermV::Const(_) => false,
        TermV::Pow2(_) => false,
        TermV::Var(_) => false,
        TermV::Add(a, b) => it_has_div(*a) || it_has_div(*b),
        TermV::Sub(a, b) => it_has_div(*a) || it_has_div(*b),
        TermV::Mul(a, b) => it_has_div(*a) || it_has_div(*b),
        TermV::Div(_, _) => true,
        TermV::Mod(a, b) => it_has_div(*a) || it_has_div(*b),
        TermV::Ite(c, a, b) => bt_has_div(*c) || it_has_div(*a) || it_has_div(*b),
    }
}

/// Whether a boolean term contains a division node.
pub open spec fn bt_has_div(t: PredV) -> bool
    decreases t,
{
    match t {
        PredV::Eq(a, b) => it_has_div(*a) || it_has_div(*b),
        PredV::Ne(a, b) => it_has_div(*a) || it_has_div(*b),
        PredV::Lt(a, b) => it_has_div(*a) || it_has_div(*b),
        PredV::Le(a, b) => it_has_div(*a) || it_has_div(*b),
        PredV::Gt(a, b) => it_has_div(*a) || it_has_div(*b),
        PredV::Ge(a, b) => it_has_div(*a) || it_has_div(*b),
        PredV::Not(a) => bt_has_div(*a),
    }
}

/// Whether an integer term contains a free variable.
pub open spec fn it_has_var(t: TermV) -> bool
    decreases t,
{
    match t {
        TermV::Const(_) => false,
        TermV::Pow2(_) => false,
        TermV::Var(_) => true,
        TermV::Add(a, b) => it_has_var(*a) || it_has_var(*b),
        TermV::Sub(a, b) => it_has_var(*a) || it_has_var(*b),
        TermV::Mul(a, b) => it_has_var(*a) || it_has_var(*b),
        TermV::Div(a, b) => it_has_var(*a) || it_has_var(*b),
        TermV::Mod(a, b) => it_has_var(*a) || it_has_var(*b),
        TermV::Ite(c, a, b) => bt_has_var(*c) || it_has_var(*a) || it_has_var(*b),
    }
}

/// Whether a boolean term contains a free variable.
pub open spec fn bt_has_var(t: PredV) -> bool
    decreases t,
{
    match t {
        PredV::Eq(a, b) => it_has_var(*a) || it_has_var(*b),
        PredV::Ne(a, b) => it_has_var(*a) || it_has_var(*b),
        PredV::Lt(a, b) => it_has_var(*a) || it_has_var(*b),
        PredV::Le(a, b) => it_has_var(*a) || it_has_var(*b),
        PredV::Gt(a, b) => it_has_var(*a) || it_has_var(*b),
        PredV::Ge(a, b) => it_has_var(*a) || it_has_var(*b),
        PredV::Not(a) => bt_has_var(*a),
    }
}

impl Clone for IntTerm {
    /// A clone reads the same and keeps its constants well formed.
    fn clone(&self) -> (r: Self)
        ensures
            it_view(r) == it_view(*self),
            it_wf(r) == it_wf(*self),
        decreases *self,
    {
        match self {
            IntTerm::Const(u) => IntTerm::Const(u.clone()),
            IntTerm::Pow2(e) => IntTerm::Pow2(*e),
            IntTerm::Var(v) => IntTerm::Var(*v),
            IntTerm::Add(a, b) => IntTerm::Add(Box::new((**a).clone()), Box::new((**b).clone())),
            IntTerm::Sub(a, b) => IntTerm::Sub(Box::new((**a).clone()), Box::new((**b).clone())),
            IntTerm::Mul(a, b) => IntTerm::Mul(Box::new((**a).clone()), Box::new((**b).clone())),
            IntTerm::Div(a, b) => IntTerm::Div(Box::new((**a).clone()), Box::new((**b).clone())),
            IntTerm::Mod(a, b) => IntTerm::Mod(Box::new((**a).clone()), Box::new((**b).clone())),
            IntTerm::Ite(c, a, b) => IntTerm::Ite(
                Box::new((**c).clone()),
                Box::new((**a).clone()),
                Box::new((**b).clone()),
            ),
        }
    }
}

impl Clone for BoolTerm {
    /// A clone reads the same and keeps its constants well formed.
    fn clone(&self) -> (r: Self)
        ensures
            bt_view(r) == bt_view(*self),
            bt_wf(r) == bt_wf(*self),
        decreases *self,
    {
        match self {
            BoolTerm::Eq(a, b) => BoolTerm::Eq(Box::new((**a).clone()), Box::new((**b).clone())),
            BoolTerm::Ne(a, b) => BoolTerm::Ne(Box::new((**a).clone()), Box::new((**b).clone())),
            BoolTerm::Lt(a, b) => BoolTerm::Lt(Box::new((**a).clone()), Box::new((**b).clone())),
            BoolTerm::Le(a, b) => BoolTerm::Le(Box::new((**a).clone()), Box::new((**b).clone())),
            BoolTerm::Gt(a, b) => BoolTerm::Gt(Box::new((**a).clone()), Box::new((**b).clone())),
            BoolTerm::Ge(a, b) => BoolTerm::Ge(Box::new((**a).clone()), Box::new((**b).clone())),
            BoolTerm::Not(a) => BoolTerm::Not(Box::new((**a).clone())),
        }
    }
}

/// Node budget for the bounded term walks.
pub const WALK_BUDGET: u64 = 10000;

/// Bounded search for a division node.  Visits at most `budget` nodes.
fn div_walk(t: &IntTerm, budget: u64) -> (r: (bool, u64))
    ensures
        r.1 <= budget,
        r.0 ==> it_has_div(it_view(*t)),
        it_size(it_view(*t)) <= budget ==> r.0 == it_has_div(it_view(*t)),
        (!r.0 && it_size(it_view(*t)) <= budget) ==> r.1 == budget - it_size(it_view(*t)),
    decreases it_size(it_view(*t)), 0int,
{
    if budget == 0 {
        return (false, 0);
    }
    let b0 = budget - 1;
    match t {
        IntTerm::Const(_) => (false, b0),
        IntTerm::Pow2(_) => (false, b0),
        IntTerm::Var(_) => (false, b0),
        IntTerm::Div(_, _) => (true, b0),
        IntTerm::Add(a, b) => div_walk2(&**a, &**b, b0),
        IntTerm::Sub(a, b) => div_walk2(&**a, &**b, b0),
        IntTerm::Mul(a, b) => div_walk2(&**a, &**b, b0),
        IntTerm::Mod(a, b) => div_walk2(&**a, &**b, b0),
        IntTerm::Ite(c, a, b) => {
            let (f1, b1) = bt_div_walk(&**c, b0);
            if f1 {
                return (true, b1);
            }
            let (f2, b2) = div_walk(&**a, b1);
            if f2 {
                return (true, b2);
            }
            div_walk(&**b, b2)
        },
    }
}

/// Bounded search for a division node in two sibling terms.
fn div_walk2(a: &IntTerm, b: &IntTerm, budget: u64) -> (r: (bool, u64))
    ensures
        r.1 <= budget,
        r.0 ==> (it_has_div(it_view(*a)) || it_has_div(it_view(*b))),
        it_size(it_view(*a)) + it_size(it_view(*b)) <= budget ==> r.0 == (it_has_div(it_view(*a))
            || it_has_div(it_view(*b))),
        (!r.0 && it_size(it_view(*a)) + it_size(it_view(*b)) <= budget) ==> r.1 == budget - it_size(
            it_view(*a),
        ) - it_size(it_view(*b)),
    decreases it_size(it_view(*a)) + it_size(it_view(*b)), 1int,
{
    let (f1, b1) = div_walk(a, budget);
    if f1 {
        return (true, b1);
    }
    div_walk(b, b1)
}

/// Bounded search for a division node below a boolean term.
fn bt_div_walk(t: &BoolTerm, budget: u64) -> (r: (bool, u64))
    ensures
        r.1 <= budget,
        r.0 ==> bt_has_div(bt_view(*t)),
        bt_size(bt_view(*t)) <= budget ==> r.0 == bt_has_div(bt_view(*t)),
        (!r.0 && bt_size(bt_view(*t)) <= budget) ==> r.1 == budget - bt_size(bt_view(*t)),
    decreases bt_size(bt_view(*t)), 0int,
{
    if budget == 0 {
        return (false, 0);
    }
    let b0 = budget - 1;
    match t {
        BoolTerm::Eq(a, b) => div_walk2(&**a, &**b, b0),
        BoolTerm::Ne(a, b) => div_walk2(&**a, &**b, b0),
        BoolTerm::Lt(a, b) => div_walk2(&**a, &**b, b0),
        BoolTerm::Le(a, b) => div_walk2(&**a, &**b, b0),
        BoolTerm::Gt(a, b) => div_walk2(&**a, &**b, b0),
        BoolTerm::Ge(a, b) => div_walk2(&**a, &**b, b0),
        BoolTerm::Not(a) => bt_div_walk(&**a, b0),
    }
}

/// Whether a term's tree contains a division, searched with a bounded walk.
///
/// Within the node budget the answer is exact; past it the walk reports
/// "not found".
pub fn contains_division(expr: &IntTerm) -> (r: bool)
    ensures
        r ==> it_has_div(it_view(*expr)),
        it_size(it_view(*expr)) <= WALK_BUDGET ==> r == it_has_div(it_view(*expr)),
{
    div_walk(expr, WALK_BUDGET).0
}

/// Bounded search for a free variable.  `None` means the budget ran out.
fn var_walk(t: &IntTerm, budget: u64) -> (r: (Option<bool>, u64))
    ensures
        r.1 <= budget,
        r.0 == Some(true) ==> it_has_var(it_view(*t)),
        r.0 == Some(false) ==> !it_has_var(it_view(*t)),
        it_size(it_view(*t)) <= budget ==> r.0 == Some(it_has_var(it_view(*t))),
        r.0 == Some(false) ==> r.1 == budget - it_size(it_view(*t)) && it_size(it_view(*t))
            <= budget,
    decreases it_size(it_view(*t)), 0int,
{
    if budget == 0 {
        return (None, 0);
    }
    let b0 = budget - 1;
    match t {
        IntTerm::Const(_) => (Some(false), b0),
        IntTerm::Pow2(_) => (Some(false), b0),
        IntTerm::Var(_) => (Some(true), b0),
        IntTerm::Add(a, b) => var_walk2(&**a, &**b, b0),
        IntTerm::Sub(a, b) => var_walk2(&**a, &**b, b0),
        IntTerm::Mul(a, b) => var_walk2(&**a, &**b, b0),
        IntTerm::Div(a, b) => var_walk2(&**a, &**b, b0),
        IntTerm::Mod(a, b) => var_walk2(&**a, &**b, b0),
        IntTerm::Ite(c, a, b) => {
            let (f1, b1) = bt_var_walk(&**c, b0);
            match f1 {
                None => (None, b1),
                Some(true) => (Some(true), b1),
                Some(false) => {
                    let (f2, b2) = var_walk(&**a, b1);
                    match f2 {
                        None => (None, b2),
                        Some(true) => (Some(true), b2),
                        Some(false) => var_walk(&**b, b2),
                    }
                },
            }
        },
    }
}

/// Bounded search for a free variable in two sibling terms.
fn var_walk2(a: &IntTerm, b: &IntTerm, budget: u64) -> (r: (Option<bool>, u64))
    ensures
        r.1 <= budget,
        r.0 == Some(true) ==> (it_has_var(it_view(*a)) || it_has_var(it_view(*b))),
        r.0 == Some(false) ==> !(it_has_var(it_view(*a)) || it_has_var(it_view(*b))),
        it_size(it_view(*a)) + it_size(it_view(*b)) <= budget ==> r.0 == Some(
            it_has_var(it_view(*a)) || it_has_var(it_view(*b)),
        ),
        r.0 == Some(false) ==> r.1 == budget - it_size(it_view(*a)) - it_size(it_view(*b))
            && it_size(it_view(*a)) + it_size(it_view(*b)) <= budget,
    decreases it_size(it_view(*a)) + it_size(it_view(*b)), 1int,
{
    let (f1, b1) = var_walk(a, budget);
    match f1 {
        None => (None, b1),
        Some(true) => (Some(true), b1),
        Some(false) => var_walk(b, b1),
    }
}

/// Bounded search for a free variable below a boolean term.
fn bt_var_walk(t: &BoolTerm, budget: u64) -> (r: (Option<bool>, u64))
    ensures
        r.1 <= budget,
        r.0 == Some(true) ==> bt_has_var(bt_view(*t)),
        r.0 == Some(false) ==> !bt_has_var(bt_view(*t)),
        bt_size(bt_view(*t)) <= budget ==> r.0 == Some(bt_has_var(bt_view(*t))),
        r.0 == Some(false) ==> r.1 == budget - bt_size(bt_view(*t)) && bt_size(bt_view(*t))
            <= budget,
    decreases bt_size(bt_view(*t)), 0int,
{
    if budget == 0 {
        return (None, 0);
    }
    let b0 = budget - 1;
    match t {
        BoolTerm::Eq(a, b) => var_walk2(&**a, &**b, b0),
        BoolTerm::Ne(a, b) => var_walk2(&**a, &**b, b0),
        BoolTerm::Lt(a, b) => var_walk2(&**a, &**b, b0),
        BoolTerm::Le(a, b) => var_walk2(&**a, &**b, b0),
        BoolTerm::Gt(a, b) => var_walk2(&**a, &**b, b0),
        BoolTerm::Ge(a, b) => var_walk2(&**a, &**b, b0),
        BoolTerm::Not(a) => bt_var_walk(&**a, b0),
    }
}

/// Whether a term's tree holds a free variable, searched with a bounded walk.
///
/// `Some` answers are exact; `None` means the walk ran out of budget.
pub fn int_has_variable(expr: &IntTerm) -> (r: Option<bool>)
    ensures
        r == Some(true) ==> it_has_var(it_view(*expr)),
        r == Some(false) ==> !it_has_var(it_view(*expr)) && it_size(it_view(*expr))
            <= WALK_BUDGET,
        it_size(it_view(*expr)) <= WALK_BUDGET ==> r == Some(it_has_var(it_view(*expr))),
{
    var_walk(expr, WALK_BUDGET).0
}


/// Evaluation of a constant node.
pub proof fn lemma_eval_const(c: nat, env: Map<u64, int>)
    ensures
        eval_int(TermV::Const(c), env) == c as int,
{
}

/// Evaluation of a power-of-two node.
pub proof fn lemma_eval_pow2(e: nat, env: Map<u64, int>)
    ensures
        eval_int(TermV::Pow2(e), env) == pow2(e) as int,
{
}

/// Evaluation of a sum node.
pub proof fn lemma_eval_add(a: TermV, b: TermV, env: Map<u64, int>)
    ensures
        eval_int(TermV::Add(Box::new(a), Box::new(b)), env) == eval_int(a, env) + eval_int(b, env),
{
}

/// Evaluation of a difference node.
pub proof fn lemma_eval_sub(a: TermV, b: TermV, env: Map<u64, int>)
    ensures
        eval_int(TermV::Sub(Box::new(a), Box::new(b)), env) == eval_int(a, env) - eval_int(b, env),
{
}

/// Evaluation of a product node.
pub proof fn lemma_eval_mul(a: TermV, b: TermV, env: Map<u64, int>)
    ensures
        eval_int(TermV::Mul(Box::new(a), Box::new(b)), env) == eval_int(a, env) * eval_int(b, env),
{
}

/// Evaluation of a quotient node.
pub proof fn lemma_eval_div(a: TermV, b: TermV, env: Map<u64, int>)
    ensures
        eval_int(TermV::Div(Box::new(a), Box::new(b)), env) == eval_int(a, env) / eval_int(b, env),
{
}

/// Evaluation of a remainder node.
pub proof fn lemma_eval_mod(a: TermV, b: TermV, env: Map<u64, int>)
    ensures
        eval_int(TermV::Mod(Box::new(a), Box::new(b)), env) == eval_int(a, env) % eval_int(b, env),
{
}


/// Structural fingerprint of an integer term: an FNV-1a fold over a tagged
/// preorder walk.  Equal terms always fingerprint equally.
pub open spec fn it_fp(t: TermV) -> u64
    decreases t,
{
    let seed: u64 = 0xcbf29ce484222325u64;
    match t {
        TermV::Const(c) => fp_bits(fnv64_step(seed, 1), c, 256),
        TermV::Pow2(e) => fnv64_step(fnv64_step(seed, 2), e as u64),
        TermV::Var(v) => fnv64_step(fnv64_step(seed, 3), v),
        TermV::Add(a, b) => fnv64_step(fnv64_step(fnv64_step(seed, 4), it_fp(*a)), it_fp(*b)),
        TermV::Sub(a, b) => fnv64_step(fnv64_step(fnv64_step(seed, 5), it_fp(*a)), it_fp(*b)),
        TermV::Mul(a, b) => fnv64_step(fnv64_step(fnv64_step(seed, 6), it_fp(*a)), it_fp(*b)),
        TermV::Div(a, b) => fnv64_step(fnv64_step(fnv64_step(seed, 7), it_fp(*a)), it_fp(*b)),
        TermV::Mod(a, b) => fnv64_step(fnv64_step(fnv64_step(seed, 8), it_fp(*a)), it_fp(*b)),
        TermV::Ite(c, a, b) => fnv64_step(
            fnv64_step(fnv64_step(fnv64_step(seed, 9), bt_fp(*c)), it_fp(*a)),
            it_fp(*b),
        ),
    }
}

/// Structural fingerprint of a boolean term.
pub open spec fn bt_fp(t: PredV) -> u64
    decreases t,
{
    let seed: u64 = 0xcbf29ce484222325u64;
    match t {
        PredV::Eq(a, b) => fnv64_step(fnv64_step(fnv64_step(seed, 10), it_fp(*a)), it_fp(*b)),
        PredV::Ne(a, b) => fnv64_step(fnv64_step(fnv64_step(seed, 11), it_fp(*a)), it_fp(*b)),
        PredV::Lt(a, b) => fnv64_step(fnv64_step(fnv64_step(seed, 12), it_fp(*a)), it_fp(*b)),
        PredV::Le(a, b) => fnv64_step(fnv64_step(fnv64_step(seed, 13), it_fp(*a)), it_fp(*b)),
        PredV::Gt(a, b) => fnv64_step(fnv64_step(fnv64_step(seed, 14), it_fp(*a)), it_fp(*b)),
        PredV::Ge(a, b) => fnv64_step(fnv64_step(fnv64_step(seed, 15), it_fp(*a)), it_fp(*b)),
        PredV::Not(a) => fnv64_step(fnv64_step(seed, 16), bt_fp(*a)),
    }
}

/// One executable FNV-1a step.
fn fnv_step(h: u64, v: u64) -> (r: u64)
    ensures
        r == fnv64_step(h, v),
{
    (h ^ v).wrapping_mul(0x100000001b3u64)
}

/// Fingerprint of an integer term's canonical form.
pub fn term_fingerprint(t: &IntTerm) -> (r: u64)
    requires
        it_wf(*t),
    ensures
        r == it_fp(it_view(*t)),
    decreases *t,
{
    let seed: u64 = 0xcbf29ce484222325u64;
    match t {
        IntTerm::Const(u) => u.fp_fold(fnv_step(seed, 1)),
        IntTerm::Pow2(e) => fnv_step(fnv_step(seed, 2), *e as u64),
        IntTerm::Var(v) => fnv_step(fnv_step(seed, 3), *v),
        IntTerm::Add(a, b) => fnv_step(
            fnv_step(fnv_step(seed, 4), term_fingerprint(&**a)),
            term_fingerprint(&**b),
        ),
        IntTerm::Sub(a, b) => fnv_step(
            fnv_step(fnv_step(seed, 5), term_fingerprint(&**a)),
            term_fingerprint(&**b),
        ),
        IntTerm::Mul(a, b) => fnv_step(
            fnv_step(fnv_step(seed, 6), term_fingerprint(&**a)),
            term_fingerprint(&**b),
        ),
        IntTerm::Div(a, b) => fnv_step(
            fnv_step(fnv_step(seed, 7), term_fingerprint(&**a)),
            term_fingerprint(&**b),
        ),
        IntTerm::Mod(a, b) => fnv_step(
            fnv_step(fnv_step(seed, 8), term_fingerprint(&**a)),
            term_fingerprint(&**b),
        ),
        IntTerm::Ite(c, a, b) => fnv_step(
            fnv_step(
                fnv_step(fnv_step(seed, 9), bool_term_fingerprint(&**c)),
                term_fingerprint(&**a),
            ),
            term_fingerprint(&**b),
        ),
    }
}

/// Fingerprint of a boolean term's canonical form.
pub fn bool_term_fingerprint(t: &BoolTerm) -> (r: u64)
    requires
        bt_wf(*t),
    ensures
        r == bt_fp(bt_view(*t)),
    decreases *t,
{
    let seed: u64 = 0xcbf29ce484222325u64;
    match t {
        BoolTerm::Eq(a, b) => fnv_step(
            fnv_step(fnv_step(seed, 10), term_fingerprint(&**a)),
            term_fingerprint(&**b),
        ),
        BoolTerm::Ne(a, b) => fnv_step(
            fnv_step(fnv_step(seed, 11), term_fingerprint(&**a)),
            term_fingerprint(&**b),
        ),
        BoolTerm::Lt(a, b) => fnv_step(
            fnv_step(fnv_step(seed, 12), term_fingerprint(&**a)),
            term_fingerprint(&**b),
        ),
        BoolTerm::Le(a, b) => fnv_step(
            fnv_step(fnv_step(seed, 13), term_fingerprint(&**a)),
            term_fingerprint(&**b),
        ),
        BoolTerm::Gt(a, b) => fnv_step(
            fnv_step(fnv_step(seed, 14), term_fingerprint(&**a)),
            term_fingerprint(&**b),
        ),
        BoolTerm::Ge(a, b) => fnv_step(
            fnv_step(fnv_step(seed, 15), term_fingerprint(&**a)),
            term_fingerprint(&**b),
        ),
        BoolTerm::Not(a) => fnv_step(fnv_step(seed, 16), bool_term_fingerprint(&**a)),
    }
}


/// Bounded evaluation of an integer term: the value under an assignment,
/// or nothing when a variable is unbound, a divisor is zero, or any
/// intermediate leaves `[0, 2^128)`.
pub open spec fn eval_chk(t: TermV, env: Map<u64, int>) -> Option<int>
    decreases t,
{
    match t {
        TermV::Const(c) => if c < pow2(128) {
            Some(c as int)
        } else {
            None
        },
        TermV::Pow2(e) => if pow2(e as nat) < pow2(128) {
            Some(pow2(e as nat) as int)
        } else {
            None
        },
        TermV::Var(v) => if env.contains_key(v) && 0 <= env[v] < pow2(128) {
            Some(env[v])
        } else {
            None
        },
        TermV::Add(a, b) => match (eval_chk(*a, env), eval_chk(*b, env)) {
            (Some(x), Some(y)) => if x + y < pow2(128) {
                Some(x + y)
            } else {
                None
            },
            _ => None,
        },
        TermV::Sub(a, b) => match (eval_chk(*a, env), eval_chk(*b, env)) {
            (Some(x), Some(y)) => if x - y >= 0 {
                Some(x - y)
            } else {
                None
            },
            _ => None,
        },
        TermV::Mul(a, b) => match (eval_chk(*a, env), eval_chk(*b, env)) {
            (Some(x), Some(y)) => if x * y < pow2(128) {
                Some(x * y)
            } else {
                None
            },
            _ => None,
        },
        TermV::Div(a, b) => match (eval_chk(*a, env), eval_chk(*b, env)) {
            (Some(x), Some(y)) => if y > 0 {
                Some(x / y)
            } else {
                None
            },
            _ => None,
        },
        TermV::Mod(a, b) => match (eval_chk(*a, env), eval_chk(*b, env)) {
            (Some(x), Some(y)) => if y > 0 {
                Some(x % y)
            } else {
                None
            },
            _ => None,
        },
        TermV::Ite(c, a, b) => match eval_chk_bool(*c, env) {
            Some(cv) => if cv {
                eval_chk(*a, env)
            } else {
                eval_chk(*b, env)
            },
            None => None,
        },
    }
}

/// Bounded evaluation of a boolean term.
pub open spec fn eval_chk_bool(t: PredV, env: Map<u64, int>) -> Option<bool>
    decreases t,
{
    match t {
        PredV::Eq(a, b) => match (eval_chk(*a, env), eval_chk(*b, env)) {
            (Some(x), Some(y)) => Some(x == y),
            _ => None,
        },
        PredV::Ne(a, b) => match (eval_chk(*a, env), eval_chk(*b, env)) {
            (Some(x), Some(y)) => Some(x != y),
            _ => None,
        },
        PredV::Lt(a, b) => match (eval_chk(*a, env), eval_chk(*b, env)) {
            (Some(x), Some(y)) => Some(x < y),
            _ => None,
        },
        PredV::Le(a, b) => match (eval_chk(*a, env), eval_chk(*b, env)) {
            (Some(x), Some(y)) => Some(x <= y),
            _ => None,
        },
        PredV::Gt(a, b) => match (eval_chk(*a, env), eval_chk(*b, env)) {
            (Some(x), Some(y)) => Some(x > y),
            _ => None,
        },
        PredV::Ge(a, b) => match (eval_chk(*a, env), eval_chk(*b, env)) {
            (Some(x), Some(y)) => Some(x >= y),
            _ => None,
        },
        PredV::Not(a) => match eval_chk_bool(*a, env) {
            Some(x) => Some(!x),
            None => None,
        },
    }
}

/// A bounded evaluation that lands agrees with the unbounded reading.
pub proof fn lemma_eval_chk_agrees(t: TermV, env: Map<u64, int>)
    ensures
        eval_chk(t, env) matches Some(v) ==> v == eval_int(t, env),
    decreases t,
{
    match t {
        TermV::Const(_) | TermV::Pow2(_) | TermV::Var(_) => {},
        TermV::Add(a, b) | TermV::Sub(a, b) | TermV::Mul(a, b) | TermV::Div(a, b) | TermV::Mod(
            a,
            b,
        ) => {
            lemma_eval_chk_agrees(*a, env);
            lemma_eval_chk_agrees(*b, env);
        },
        TermV::Ite(c, a, b) => {
            lemma_eval_chk_bool_agrees(*c, env);
            lemma_eval_chk_agrees(*a, env);
            lemma_eval_chk_agrees(*b, env);
        },
    }
}

/// A bounded boolean evaluation that lands agrees with the unbounded
/// reading.
pub proof fn lemma_eval_chk_bool_agrees(t: PredV, env: Map<u64, int>)
    ensures
        eval_chk_bool(t, env) matches Some(v) ==> v == eval_bool(t, env),
    decreases t,
{
    match t {
        PredV::Eq(a, b) | PredV::Ne(a, b) | PredV::Lt(a, b) | PredV::Le(a, b) | PredV::Gt(a, b)
            | PredV::Ge(a, b) => {
            lemma_eval_chk_agrees(*a, env);
            lemma_eval_chk_agrees(*b, env);
        },
        PredV::Not(a) => {
            lemma_eval_chk_bool_agrees(*a, env);
        },
    }
}

/// The single-variable assignment the evaluator runs under.
pub open spec fn single_env(var: u64, value: u128) -> Map<u64, int> {
    Map::empty().insert(var, value as int)
}

/// Evaluate an integer term under one bound variable, within `u128`.
pub fn eval_with_var(t: &IntTerm, var: u64, value: u128) -> (r: Option<u128>)
    requires
        it_wf(*t),
    ensures
        (match r {
            Some(v) => eval_chk(it_view(*t), single_env(var, value)) == Some(v as int),
            None => eval_chk(it_view(*t), single_env(var, value)) is None,
        }),
    decreases *t,
{
    match t {
        IntTerm::Const(u) => {
            proof {
                crate::u256::lemma_bits256_bound(*u);
            }
            if u.fits_u128() {
                Some(u.to_u128())
            } else {
                None
            }
        },
        IntTerm::Pow2(e) => {
            proof {
                vstd::arithmetic::power2::lemma2_to64();
            }
            if *e < 128 {
                let mut p: u128 = 1;
                let mut k: u32 = 0;
                while k < *e
                    invariant
                        k <= *e < 128,
                        p == pow2(k as nat),
                    decreases *e - k,
                {
                    proof {
                        vstd::arithmetic::power2::lemma_pow2_adds(k as nat, 1);
                        vstd::arithmetic::power2::lemma2_to64();
                        vstd::arithmetic::power2::lemma_pow2_strictly_increases(
                            (k + 1) as nat,
                            128,
                        );
                        vstd::arithmetic::power2::lemma_pow2_adds(64, 64);
                        vstd::arithmetic::power2::lemma2_to64_rest();
                        assert(0x10000000000000000nat * 0x10000000000000000nat
                            == 0x100000000000000000000000000000000nat) by (nonlinear_arith);
                    }
                    p = p * 2;
                    k = k + 1;
                }
                proof {
                    vstd::arithmetic::power2::lemma_pow2_strictly_increases(*e as nat, 128);
                    vstd::arithmetic::power2::lemma_pow2_adds(64, 64);
                    vstd::arithmetic::power2::lemma2_to64_rest();
                    assert(0x10000000000000000nat * 0x10000000000000000nat
                        == 0x100000000000000000000000000000000nat) by (nonlinear_arith);
                }
                Some(p)
            } else {
                proof {
                    if pow2(*e as nat) < pow2(128) {
                        if *e > 128 {
                            vstd::arithmetic::power2::lemma_pow2_strictly_increases(
                                128,
                                *e as nat,
                            );
                        }
                        assert(false);
                    }
                }
                None
            }
        },
        IntTerm::Var(v) => {
            if *v == var {
                proof {
                    vstd::arithmetic::power2::lemma_pow2_adds(64, 64);
                    vstd::arithmetic::power2::lemma2_to64_rest();
                    assert(0x10000000000000000nat * 0x10000000000000000nat
                        == 0x100000000000000000000000000000000nat) by (nonlinear_arith);
                }
                Some(value)
            } else {
                None
            }
        },
        IntTerm::Add(a, b) => {
            let x = eval_with_var(&**a, var, value);
            let y = eval_with_var(&**b, var, value);
            match (x, y) {
                (Some(xv), Some(yv)) => {
                    proof {
                        vstd::arithmetic::power2::lemma_pow2_adds(64, 64);
                        vstd::arithmetic::power2::lemma2_to64_rest();
                        assert(0x10000000000000000nat * 0x10000000000000000nat
                            == 0x100000000000000000000000000000000nat) by (nonlinear_arith);
                    }
                    if xv <= u128::MAX - yv {
                        Some(xv + yv)
                    } else {
                        None
                    }
                },
                _ => None,
            }
        },
        IntTerm::Sub(a, b) => {
            let x = eval_with_var(&**a, var, value);
            let y = eval_with_var(&**b, var, value);
            match (x, y) {
                (Some(xv), Some(yv)) => {
                    if xv >= yv {
                        Some(xv - yv)
                    } else {
                        None
                    }
                },
                _ => None,
            }
        },
        IntTerm::Mul(a, b) => {
            let x = eval_with_var(&**a, var, value);
            let y = eval_with_var(&**b, var, value);
            match (x, y) {
                (Some(xv), Some(yv)) => {
                    proof {
                        vstd::arithmetic::power2::lemma_pow2_adds(64, 64);
                        vstd::arithmetic::power2::lemma2_to64_rest();
                        assert(0x10000000000000000nat * 0x10000000000000000nat
                            == 0x100000000000000000000000000000000nat) by (nonlinear_arith);
                    }
                    if yv == 0 {
                        proof {
                            assert((xv as int) * (yv as int) == 0) by (nonlinear_arith)
                                requires
                                    yv == 0,
                            ;
                        }
                        Some(0)
                    } else if xv <= u128::MAX / yv {
                        proof {
                            let m: int = u128::MAX as int;
                            let q: int = m / (yv as int);
                            vstd::arithmetic::div_mod::lemma_fundamental_div_mod(m, yv as int);
                            assert((xv as int) * (yv as int) <= m) by (nonlinear_arith)
                                requires
                                    xv as int <= q,
                                    yv as int > 0,
                                    q * (yv as int) + m % (yv as int) == m,
                                    0 <= m % (yv as int),
                            ;
                        }
                        Some(xv * yv)
                    } else {
                        proof {
                            let m: int = u128::MAX as int;
                            let q: int = m / (yv as int);
                            vstd::arithmetic::div_mod::lemma_fundamental_div_mod(m, yv as int);
                            assert((xv as int) * (yv as int) > m) by (nonlinear_arith)
                                requires
                                    xv as int >= q + 1,
                                    yv as int > 0,
                                    q * (yv as int) + m % (yv as int) == m,
                                    m % (yv as int) < yv as int,
                            ;
                        }
                        None
                    }
                },
                _ => None,
            }
        },
        IntTerm::Div(a, b) => {
            let x = eval_with_var(&**a, var, value);
            let y = eval_with_var(&**b, var, value);
            match (x, y) {
                (Some(xv), Some(yv)) => {
                    if yv > 0 {
                        Some(xv / yv)
                    } else {
                        None
                    }
                },
                _ => None,
            }
        },
        IntTerm::Mod(a, b) => {
            let x = eval_with_var(&**a, var, value);
            let y = eval_with_var(&**b, var, value);
            match (x, y) {
                (Some(xv), Some(yv)) => {
                    if yv > 0 {
                        Some(xv % yv)
                    } else {
                        None
                    }
                },
                _ => None,
            }
        },
        IntTerm::Ite(c, a, b) => {
            let cv = eval_bool_with_var(&**c, var, value);
            match cv {
                Some(true) => eval_with_var(&**a, var, value),
                Some(false) => eval_with_var(&**b, var, value),
                None => None,
            }
        },
    }
}

/// Evaluate a boolean term under one bound variable.
pub fn eval_bool_with_var(t: &BoolTerm, var: u64, value: u128) -> (r: Option<bool>)
    requires
        bt_wf(*t),
    ensures
        (match r {
            Some(v) => eval_chk_bool(bt_view(*t), single_env(var, value)) == Some(v),
            None => eval_chk_bool(bt_view(*t), single_env(var, value)) is None,
        }),
    decreases *t,
{
    match t {
        BoolTerm::Eq(a, b) => match (eval_with_var(&**a, var, value), eval_with_var(
            &**b,
            var,
            value,
        )) {
            (Some(x), Some(y)) => Some(x == y),
            _ => None,
        },
        BoolTerm::Ne(a, b) => match (eval_with_var(&**a, var, value), eval_with_var(
            &**b,
            var,
            value,
        )) {
            (Some(x), Some(y)) => Some(x != y),
            _ => None,
        },
        BoolTerm::Lt(a, b) => match (eval_with_var(&**a, var, value), eval_with_var(
            &**b,
            var,
            value,
        )) {
            (Some(x), Some(y)) => Some(x < y),
            _ => None,
        },
        BoolTerm::Le(a, b) => match (eval_with_var(&**a, var, value), eval_with_var(
            &**b,
            var,
            value,
        )) {
            (Some(x), Some(y)) => Some(x <= y),
            _ => None,
        },
        BoolTerm::Gt(a, b) => match (eval_with_var(&**a, var, value), eval_with_var(
            &**b,
            var,
            value,
        )) {
            (Some(x), Some(y)) => Some(x > y),
            _ => None,
        },
        BoolTerm::Ge(a, b) => match (eval_with_var(&**a, var, value), eval_with_var(
            &**b,
            var,
            value,
        )) {
            (Some(x), Some(y)) => Some(x >= y),
            _ => None,
        },
        BoolTerm::Not(a) => match eval_bool_with_var(&**a, var, value) {
            Some(x) => Some(!x),
            None => None,
        },
    }
}

} // verus!
