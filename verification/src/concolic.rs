//! The concolic shadow interpreter.
//!
//! While the virtual machine executes a call, the tracer mirrors the
//! evaluation stack and locals with symbolic terms, without altering
//! execution.  Values with no tracked meaning are `Unknown`; aggregates
//! always collapse to one `Unknown`.  Three detectors watch the trace:
//! precision loss (a multiplication over a quotient), unnecessary boolean
//! judgements (comparisons of fully concrete terms), and potential infinite
//! loops (the same symbolic branch condition seen many times in a row).

use crate::bitwise::{
    bv_and, bv_or, bv_xor, int_bvand_const, int_bvnot, int_bvor_const, int_bvxor_const,
    max_u_bits, mk_add, mk_const, mk_div, mk_mod, mk_mul, mk_pow2, mk_sub,
};
use crate::term::{
    bt_view, bt_wf, contains_division, eval_bool, eval_int, int_has_variable, it_fp, it_has_div,
    it_has_var, it_size, it_view, it_wf, term_fingerprint, BoolTerm, IntTerm, PredV, TermV,
    WALK_BUDGET,
};
use crate::u256::{Order, U256};
use crate::values::{
    compare_value, value_bitwidth, value_is_bool, value_low_u32, value_to_u256, RuntimeValue,
};
use vstd::prelude::*;

verus! {

use vstd::string::{StringExecFns, StrSliceExecFns};

/// The shapes of runtime issue the tracer reports.
#[derive(Clone, Copy, Debug, PartialEq, Eq, Structural)]
pub enum RuntimeIssueKind {
    PrecisionLoss,
    BoolJudgement,
    InfiniteLoop,
}

/// One issue found during shadow interpretation.
#[derive(Clone, Debug)]
pub struct RuntimeIssue {
    pub kind: RuntimeIssueKind,
    pub module: String,
    pub function: String,
    pub pc: u16,
    pub message: String,
}

impl RuntimeIssue {
    /// Record an issue with its location.
    pub fn new(kind: RuntimeIssueKind, module: String, function: String, pc: u16, message: String)
        -> (r: RuntimeIssue)
        ensures
            r.kind == kind,
            r.module@ == module@,
            r.function@ == function@,
            r.pc == pc,
            r.message@ == message@,
    {
        RuntimeIssue { kind, module, function, pc, message }
    }
}

/// The text of an issue message: a fixed prefix, then `module::function`.
pub open spec fn issue_message_spec(prefix: Seq<char>, module: Seq<char>, function: Seq<char>)
    -> Seq<char> {
    prefix + module + "::"@ + function
}

/// Build an issue message from its parts.
fn issue_message(prefix: &str, module: &str, function: &str) -> (r: String)
    ensures
        r@ == issue_message_spec(prefix@, module@, function@),
{
    let mut s = String::new();
    s.append(prefix);
    s.append(module);
    s.append("::");
    s.append(function);
    s
}

/// A symbolic stack or local slot.
#[derive(Debug)]
pub enum SymbolValue {
    Value(IntTerm),
    Unknown,
}

impl Clone for SymbolValue {
    /// A clone reads the same.
    fn clone(&self) -> (r: Self)
        ensures
            r.wf() == self.wf(),
            r.view_opt() == self.view_opt(),
    {
        match self {
            SymbolValue::Value(t) => SymbolValue::Value(t.clone()),
            SymbolValue::Unknown => SymbolValue::Unknown,
        }
    }
}

impl SymbolValue {
    /// Whether the slot's term, if any, is well formed.
    pub open spec fn wf(self) -> bool {
        match self {
            SymbolValue::Value(t) => it_wf(t),
            SymbolValue::Unknown => true,
        }
    }

    /// The slot's reading: the term's view, or nothing.
    pub open spec fn view_opt(self) -> Option<TermV> {
        match self {
            SymbolValue::Value(t) => Some(it_view(t)),
            SymbolValue::Unknown => None,
        }
    }
}

/// Every slot of a symbolic stack is well formed.
pub open spec fn stack_wf(s: Seq<SymbolValue>) -> bool {
    forall|i: int| 0 <= i < s.len() ==> (#[trigger] s[i]).wf()
}

/// The per-`(function, pc)` branch counter of the infinite-loop detector.
#[derive(Debug)]
pub struct BranchSite {
    pub function: String,
    pub pc: u16,
    pub last_hash: u64,
    pub count: usize,
}

impl Clone for BranchSite {
    /// A clone is the same site.
    fn clone(&self) -> (r: Self)
        ensures
            r == *self,
    {
        BranchSite {
            function: self.function.clone(),
            pc: self.pc,
            last_hash: self.last_hash,
            count: self.count,
        }
    }
}

/// Repeat threshold at which the infinite-loop detector fires.
pub const INFINITE_LOOP_THRESHOLD: usize = 1000;

/// One observation of a branch condition hash at a known site: the updated
/// counter, and whether the detector fires.
pub open spec fn branch_site_step(last_hash: u64, count: nat, h: u64) -> (u64, nat, bool) {
    if last_hash != h {
        (h, 1, false)
    } else if count + 1 >= INFINITE_LOOP_THRESHOLD {
        (h, 0, true)
    } else {
        (h, count + 1, false)
    }
}

/// Counter sites carry distinct `(function, pc)` keys and bounded counts.
pub open spec fn sites_wf(s: Seq<BranchSite>) -> bool {
    &&& forall|i: int, j: int|
        0 <= i < j < s.len() ==> !((#[trigger] s[i]).function@ == (#[trigger] s[j]).function@
            && s[i].pc == s[j].pc)
    &&& forall|i: int| 0 <= i < s.len() ==> (#[trigger] s[i]).count < INFINITE_LOOP_THRESHOLD
}

/// The counter sites that survive clearing one function's counters.
pub open spec fn remove_sites(s: Seq<BranchSite>, key: Seq<char>) -> Seq<BranchSite>
    decreases s.len(),
{
    if s.len() == 0 {
        s
    } else {
        let rest = remove_sites(s.drop_last(), key);
        if s.last().function@ != key {
            rest.push(s.last())
        } else {
            rest
        }
    }
}

/// Whether some site matches the key.
pub open spec fn has_site(s: Seq<BranchSite>, f: Seq<char>, pc: u16) -> bool {
    exists|i: int| 0 <= i < s.len() && (#[trigger] s[i]).function@ == f && s[i].pc == pc
}

/// The symbolic mirror of one call's execution.
#[derive(Debug)]
pub struct ConcolicState {
    pub stack: Vec<SymbolValue>,
    pub locals: Vec<Vec<SymbolValue>>,
    pub args: Vec<Vec<(usize, IntTerm)>>,
    pub disable: bool,
    pub runtime_issues: Vec<RuntimeIssue>,
    pub branch_counts: Vec<BranchSite>,
}

impl ConcolicState {
    /// Structural invariant: all tracked terms well formed, counter sites
    /// unique and bounded.
    pub open spec fn inv(self) -> bool {
        &&& stack_wf(self.stack@)
        &&& forall|i: int| 0 <= i < self.locals@.len() ==> stack_wf((#[trigger] self.locals@[i])@)
        &&& forall|i: int, j: int|
            0 <= i < self.args@.len() && 0 <= j < self.args@[i]@.len() ==> it_wf(
                (#[trigger] self.args@[i]@[j]).1,
            )
        &&& sites_wf(self.branch_counts@)
    }

    /// The recorded issues, oldest first.
    pub open spec fn issues(self) -> Seq<RuntimeIssue> {
        self.runtime_issues@
    }

    /// The branch counter sites.
    pub open spec fn sites(self) -> Seq<BranchSite> {
        self.branch_counts@
    }

    /// A fresh, empty mirror.
    pub fn new() -> (r: ConcolicState)
        ensures
            r.inv(),
            r.stack@.len() == 0,
            r.locals@.len() == 0,
            r.args@.len() == 0,
            !r.disable,
            r.issues().len() == 0,
            r.sites().len() == 0,
    {
        ConcolicState {
            stack: Vec::new(),
            locals: Vec::new(),
            args: Vec::new(),
            disable: false,
            runtime_issues: Vec::new(),
            branch_counts: Vec::new(),
        }
    }

    /// Drain the issues recorded so far.
    pub fn take_issues(&mut self) -> (r: Vec<RuntimeIssue>)
        requires
            old(self).inv(),
        ensures
            final(self).inv(),
            r@ == old(self).issues(),
            final(self).issues().len() == 0,
            final(self).stack@ == old(self).stack@,
            final(self).locals@ == old(self).locals@,
            final(self).args@ == old(self).args@,
            final(self).disable == old(self).disable,
            final(self).sites() == old(self).sites(),
    {
        let mut out: Vec<RuntimeIssue> = Vec::new();
        core::mem::swap(&mut out, &mut self.runtime_issues);
        out
    }

    /// Record one issue.
    fn record_issue(&mut self, issue: RuntimeIssue)
        requires
            old(self).inv(),
        ensures
            final(self).inv(),
            final(self).runtime_issues@ == old(self).runtime_issues@.push(issue),
            final(self).stack@ == old(self).stack@,
            final(self).locals@ == old(self).locals@,
            final(self).args@ == old(self).args@,
            final(self).disable == old(self).disable,
            final(self).branch_counts@ == old(self).branch_counts@,
    {
        self.runtime_issues.push(issue);
    }

    /// Watch a multiplication for precision loss: fire when a resolved
    /// operand's tree holds a division, searched within the walk budget.
    fn check_precision_loss(
        &mut self,
        module: &str,
        function: &str,
        pc: u16,
        lhs: &IntTerm,
        rhs: &IntTerm,
    )
        requires
            old(self).inv(),
            it_wf(*lhs),
            it_wf(*rhs),
        ensures
            final(self).inv(),
            final(self).stack@ == old(self).stack@,
            final(self).locals@ == old(self).locals@,
            final(self).args@ == old(self).args@,
            final(self).disable == old(self).disable,
            final(self).branch_counts@ == old(self).branch_counts@,
            precision_post(
                it_view(*lhs),
                it_view(*rhs),
                old(self).runtime_issues@,
                final(self).runtime_issues@,
                pc,
                module@,
                function@,
            ),
    {
        if contains_division(lhs) || contains_division(rhs) {
            let message = issue_message("Precision loss detected at ", module, function);
            let issue = RuntimeIssue::new(
                RuntimeIssueKind::PrecisionLoss,
                String::from_str(module),
                String::from_str(function),
                pc,
                message,
            );
            self.record_issue(issue);
        }
    }
}


/// A term is fully concrete when the bounded walk can certify that it has
/// no free variable.
pub open spec fn term_concrete(t: TermV) -> bool {
    it_size(t) <= WALK_BUDGET && !it_has_var(t)
}

/// When the unnecessary-boolean-judgement detector fires: both compared
/// slots carry fully concrete terms, or (for an equality) one side is a
/// concrete boolean literal and the other a fully concrete term.
pub open spec fn judgement_fires(
    l: SymbolValue,
    r: SymbolValue,
    eqneq: bool,
    last_is_bool: bool,
) -> bool {
    let lc = l matches SymbolValue::Value(t) && term_concrete(it_view(t));
    let rc = r matches SymbolValue::Value(t) && term_concrete(it_view(t));
    (lc && rc) || (eqneq && last_is_bool && (lc || rc))
}

/// How the issue list moves when the boolean-judgement detector looks at a
/// comparison over shadow stack `stk`.
pub open spec fn judgement_post(
    stk: Seq<SymbolValue>,
    eqneq: bool,
    ops: Seq<RuntimeValue>,
    pre: Seq<RuntimeIssue>,
    post: Seq<RuntimeIssue>,
    pc: u16,
    module: Seq<char>,
    function: Seq<char>,
) -> bool {
    let fires = stk.len() >= 2 && judgement_fires(
        stk[stk.len() - 2],
        stk[stk.len() - 1],
        eqneq,
        ops.len() > 0 && ops.last() matches RuntimeValue::Bool(_),
    );
    &&& pre.is_prefix_of(post)
    &&& (post.len() == pre.len() + 1 <==> fires)
    &&& (!fires ==> post == pre)
    &&& (fires ==> {
        let iss = post.last();
        &&& iss.kind == RuntimeIssueKind::BoolJudgement
        &&& iss.module@ == module
        &&& iss.function@ == function
        &&& iss.pc == pc
    })
}

/// How the counter sites and the issue list move when the infinite-loop
/// detector looks at a conditional branch over shadow stack `stk`.
pub open spec fn infinite_loop_post(
    stk: Seq<SymbolValue>,
    s0: Seq<BranchSite>,
    s1: Seq<BranchSite>,
    pre: Seq<RuntimeIssue>,
    post: Seq<RuntimeIssue>,
    pc: u16,
    module: Seq<char>,
    function: Seq<char>,
) -> bool {
    let key = function_key_spec(module, function);
    if stk.len() > 0 && stk.last() is Value {
        let h = it_fp(it_view(stk.last()->Value_0));
        if has_site(s0, key, pc) {
            forall|i: int|
                0 <= i < s0.len() && (#[trigger] s0[i]).function@ == key && s0[i].pc == pc ==> {
                    let st = branch_site_step(s0[i].last_hash, s0[i].count as nat, h);
                    &&& s1.len() == s0.len()
                    &&& s1[i].function@ == key
                    &&& s1[i].pc == pc
                    &&& s1[i].last_hash == st.0
                    &&& s1[i].count as nat == st.1
                    &&& (forall|j: int| 0 <= j < s0.len() && j != i ==> s1[j] == s0[j])
                    &&& (st.2 ==> post.len() == pre.len() + 1 && pre.is_prefix_of(post)
                        && post.last().kind == RuntimeIssueKind::InfiniteLoop
                        && post.last().module@ == module && post.last().function@ == function
                        && post.last().pc == pc)
                    &&& (!st.2 ==> post == pre)
                }
        } else {
            &&& s1.len() == s0.len() + 1
            &&& s0.is_prefix_of(s1)
            &&& s1.last().function@ == key
            &&& s1.last().pc == pc
            &&& s1.last().last_hash == h
            &&& s1.last().count == 1
            &&& post == pre
        }
    } else {
        s1 == s0 && post == pre
    }
}

/// How the issue list moves when the precision-loss detector looks at the
/// resolved operands of a multiplication.
pub open spec fn precision_post(
    a: TermV,
    b: TermV,
    pre: Seq<RuntimeIssue>,
    post: Seq<RuntimeIssue>,
    pc: u16,
    module: Seq<char>,
    function: Seq<char>,
) -> bool {
    &&& pre.is_prefix_of(post)
    &&& post.len() <= pre.len() + 1
    &&& ((it_size(a) <= WALK_BUDGET && it_size(b) <= WALK_BUDGET) ==> (post.len() == pre.len() + 1
        <==> (it_has_div(a) || it_has_div(b))))
    &&& (post.len() == pre.len() + 1 ==> {
        let iss = post.last();
        &&& iss.kind == RuntimeIssueKind::PrecisionLoss
        &&& iss.module@ == module
        &&& iss.function@ == function
        &&& iss.pc == pc
        &&& (it_has_div(a) || it_has_div(b))
    })
}

/// `module::function`, the key of a branch counter site.
pub open spec fn function_key_spec(module: Seq<char>, function: Seq<char>) -> Seq<char> {
    module + "::"@ + function
}

/// Build the key of a branch counter site.
fn function_key(module: &str, function: &str) -> (r: String)
    ensures
        r@ == function_key_spec(module@, function@),
{
    let mut s = String::new();
    s.append(module);
    s.append("::");
    s.append(function);
    proof {
        assert(Seq::<char>::empty() + module@ =~= module@);
    }
    s
}

/// How many times `n` further observations of one unchanged hash fire the
/// detector, starting from repeat count `c`.
pub open spec fn fires_in(c: nat, n: nat) -> nat
    decreases n,
{
    if n == 0 {
        0
    } else if c + 1 >= INFINITE_LOOP_THRESHOLD {
        1 + fires_in(0, (n - 1) as nat)
    } else {
        fires_in(c + 1, (n - 1) as nat)
    }
}

/// Starting from repeat count `c`, `n` unchanged observations fire the
/// detector exactly `(c + n) / threshold` times: in particular a fresh
/// condition (count 1 after its first sighting) fires exactly once on its
/// thousandth consecutive repeat, and not before.
pub proof fn lemma_fires_in_exact(c: nat, n: nat)
    requires
        c < INFINITE_LOOP_THRESHOLD,
    ensures
        fires_in(c, n) as int == (c + n) as int / (INFINITE_LOOP_THRESHOLD as int),
    decreases n,
{
    if n == 0 {
        vstd::arithmetic::div_mod::lemma_small_div_converse(c as int, INFINITE_LOOP_THRESHOLD as int);
    } else if c + 1 >= INFINITE_LOOP_THRESHOLD {
        lemma_fires_in_exact(0, (n - 1) as nat);
        assert((c + n) == INFINITE_LOOP_THRESHOLD + (n - 1));
        vstd::arithmetic::div_mod::lemma_div_plus_one(
            (n - 1) as int,
            INFINITE_LOOP_THRESHOLD as int,
        );
    } else {
        lemma_fires_in_exact(c + 1, (n - 1) as nat);
    }
}

impl ConcolicState {
    /// Watch a comparison for an unnecessary boolean judgement.
    fn check_bool_judgement(
        &mut self,
        eqneq: bool,
        module: &str,
        function: &str,
        pc: u16,
        operands: &Vec<RuntimeValue>,
    )
        requires
            old(self).inv(),
        ensures
            final(self).inv(),
            final(self).stack@ == old(self).stack@,
            final(self).locals@ == old(self).locals@,
            final(self).args@ == old(self).args@,
            final(self).disable == old(self).disable,
            final(self).branch_counts@ == old(self).branch_counts@,
            judgement_post(
                old(self).stack@,
                eqneq,
                operands@,
                old(self).runtime_issues@,
                final(self).runtime_issues@,
                pc,
                module@,
                function@,
            ),
    {
        if self.stack.len() < 2 {
            return ;
        }
        let n = self.stack.len();
        let lc = match &self.stack[n - 2] {
            SymbolValue::Value(t) => {
                let r = int_has_variable(t);
                proof {
                    if r == Some(false) {
                        assert(term_concrete(it_view(*t)));
                    }
                    if term_concrete(it_view(*t)) {
                        assert(r == Some(it_has_var(it_view(*t))));
                    }
                }
                matches!(r, Some(false))
            },
            SymbolValue::Unknown => false,
        };
        proof {
            assert(lc == (self.stack@[n - 2] matches SymbolValue::Value(t) && term_concrete(
                it_view(t),
            )));
        }
        let rc = match &self.stack[n - 1] {
            SymbolValue::Value(t) => {
                let r = int_has_variable(t);
                proof {
                    if r == Some(false) {
                        assert(term_concrete(it_view(*t)));
                    }
                    if term_concrete(it_view(*t)) {
                        assert(r == Some(it_has_var(it_view(*t))));
                    }
                }
                matches!(r, Some(false))
            },
            SymbolValue::Unknown => false,
        };
        proof {
            assert(rc == (self.stack@[n - 1] matches SymbolValue::Value(t) && term_concrete(
                it_view(t),
            )));
        }
        let mut loss = lc && rc;
        if eqneq {
            let last_is_bool = if operands.len() > 0 {
                let b = value_is_bool(&operands[operands.len() - 1]);
                b.is_some()
            } else {
                false
            };
            if last_is_bool && (lc || rc) {
                loss = true;
            }
        }
        if loss {
            let message = issue_message("Unnecessary bool judgement at ", module, function);
            let issue = RuntimeIssue::new(
                RuntimeIssueKind::BoolJudgement,
                String::from_str(module),
                String::from_str(function),
                pc,
                message,
            );
            self.record_issue(issue);
        }
    }

    /// One observation of condition hash `h` at a known counter site.
    fn bump_site(&mut self, i: usize, h: u64, pc: u16, module: &str, function: &str)
        requires
            old(self).inv(),
            i < old(self).branch_counts@.len(),
            old(self).branch_counts@[i as int].pc == pc,
        ensures
            final(self).inv(),
            final(self).stack@ == old(self).stack@,
            final(self).locals@ == old(self).locals@,
            final(self).args@ == old(self).args@,
            final(self).disable == old(self).disable,
            ({
                let pre = old(self).runtime_issues@;
                let post = final(self).runtime_issues@;
                let s0 = old(self).branch_counts@;
                let s1 = final(self).branch_counts@;
                let st = branch_site_step(s0[i as int].last_hash, s0[i as int].count as nat, h);
                &&& s1.len() == s0.len()
                &&& s1[i as int].function@ == s0[i as int].function@
                &&& s1[i as int].pc == pc
                &&& s1[i as int].last_hash == st.0
                &&& s1[i as int].count as nat == st.1
                &&& (forall|j: int| 0 <= j < s0.len() && j != i as int ==> s1[j] == s0[j])
                &&& (st.2 ==> post.len() == pre.len() + 1 && pre.is_prefix_of(post) && post.last().kind
                    == RuntimeIssueKind::InfiniteLoop && post.last().module@ == module@
                    && post.last().function@ == function@ && post.last().pc == pc)
                &&& (!st.2 ==> post == pre)
            }),
    {
        let site_hash = self.branch_counts[i].last_hash;
        let site_count = self.branch_counts[i].count;
        let site_fn = self.branch_counts[i].function.clone();
        if site_hash != h {
            let updated = BranchSite { function: site_fn, pc, last_hash: h, count: 1 };
            self.branch_counts.set(i, updated);
        } else if site_count + 1 >= INFINITE_LOOP_THRESHOLD {
            let updated = BranchSite { function: site_fn, pc, last_hash: h, count: 0 };
            self.branch_counts.set(i, updated);
            let message = issue_message("Potential infinite loop at ", module, function);
            let issue = RuntimeIssue::new(
                RuntimeIssueKind::InfiniteLoop,
                String::from_str(module),
                String::from_str(function),
                pc,
                message,
            );
            self.record_issue(issue);
        } else {
            let updated = BranchSite {
                function: site_fn,
                pc,
                last_hash: h,
                count: site_count + 1,
            };
            self.branch_counts.set(i, updated);
        }
    }

    /// Watch a conditional branch for a potential infinite loop: count
    /// consecutive sightings of one condition fingerprint per site, and fire
    /// on the threshold.
    #[verifier::rlimit(100)]
    #[verifier::loop_isolation(false)]
    fn check_infinite_loop(&mut self, pc: u16, module: &str, function: &str)
        requires
            old(self).inv(),
        ensures
            final(self).inv(),
            final(self).stack@ == old(self).stack@,
            final(self).locals@ == old(self).locals@,
            final(self).args@ == old(self).args@,
            final(self).disable == old(self).disable,
            infinite_loop_post(
                old(self).stack@,
                old(self).branch_counts@,
                final(self).branch_counts@,
                old(self).runtime_issues@,
                final(self).runtime_issues@,
                pc,
                module@,
                function@,
            ),
    {
        let n = self.stack.len();
        if n == 0 {
            return ;
        }
        let maybe_h: Option<u64> = match &self.stack[n - 1] {
            SymbolValue::Value(cond) => Some(term_fingerprint(cond)),
            SymbolValue::Unknown => None,
        };
        if maybe_h.is_none() {
            return ;
        }
        let h = maybe_h.unwrap();
        proof {
            assert(old(self).stack@[n - 1] is Value);
            assert(h == it_fp(it_view(old(self).stack@[n - 1]->Value_0)));
        }
        let key = function_key(module, function);
        let m = self.branch_counts.len();
        let mut i: usize = 0;
        while i < m
            invariant
                old(self).inv(),
                self == old(self),
                m == self.branch_counts@.len(),
                i <= m,
                forall|j: int|
                    0 <= j < i ==> !((#[trigger] self.branch_counts@[j]).function@ == key@
                        && self.branch_counts@[j].pc == pc),
            decreases m - i,
        {
            let hit = self.branch_counts[i].pc == pc && self.branch_counts[i].function.eq(&key);
            if hit {
                proof {
                    assert forall|j: int|
                        0 <= j < self.branch_counts@.len() && (#[trigger] self.branch_counts@[j]).function@
                            == key@ && self.branch_counts@[j].pc == pc implies j == i as int by {
                        if j != i as int {
                            assert(!(self.branch_counts@[i as int].function@
                                == self.branch_counts@[j].function@ && self.branch_counts@[i as int].pc
                                == self.branch_counts@[j].pc));
                        }
                    }
                }
                let ghost s0 = old(self).branch_counts@;
                let ghost key_s = function_key_spec(module@, function@);
                self.bump_site(i, h, pc, module, function);
                proof {
                    let stk = old(self).stack@;
                    assert(stk.last() is Value);
                    assert(h == it_fp(it_view(stk.last()->Value_0)));
                    assert(has_site(s0, key_s, pc));
                    let s1 = self.branch_counts@;
                    assert forall|i0: int|
                        0 <= i0 < s0.len() && (#[trigger] s0[i0]).function@ == key_s && s0[i0].pc
                            == pc implies ({
                        let st = branch_site_step(s0[i0].last_hash, s0[i0].count as nat, h);
                        &&& s1.len() == s0.len()
                        &&& s1[i0].function@ == key_s
                        &&& s1[i0].pc == pc
                        &&& s1[i0].last_hash == st.0
                        &&& s1[i0].count as nat == st.1
                        &&& (forall|j: int| 0 <= j < s0.len() && j != i0 ==> s1[j] == s0[j])
                    }) by {
                        assert(i0 == i as int);
                    }
                }
                return ;
            }
            i = i + 1;
        }
        let site = BranchSite { function: key, pc, last_hash: h, count: 1 };
        self.branch_counts.push(site);
    }
}


/// The declared type of one parameter, as the tracer classifies it.
#[derive(Clone, Copy, Debug, PartialEq, Eq, Structural)]
pub enum ParamTy {
    Bool,
    U8,
    U16,
    U32,
    U64,
    U128,
    U256,
    Other,
}

impl ParamTy {
    /// Whether the tracer gives this parameter a symbolic variable.
    pub open spec fn is_scalar(self) -> bool {
        self != ParamTy::Other
    }
}

/// What the tracer sees when a frame opens.
pub struct FrameInfo {
    pub module: String,
    pub function: String,
    pub param_tys: Vec<ParamTy>,
    pub return_count: usize,
    pub is_native: bool,
}

/// The name of the fresh symbolic variable for parameter `idx` of
/// invocation `cmd`: both indices packed into one word, reduced to 32 bits
/// each.
pub open spec fn symbol_name_spec(cmd: nat, idx: nat) -> u64 {
    (((cmd % 0x100000000) * 0x100000000) + (idx % 0x100000000)) as u64
}

/// Pack an invocation and parameter index into a variable name.
fn symbol_name(cmd: usize, idx: usize) -> (r: u64)
    ensures
        r == symbol_name_spec(cmd as nat, idx as nat),
{
    let hi: u64 = (cmd as u64) % 0x100000000;
    let lo: u64 = (idx as u64) % 0x100000000;
    proof {
        assert(hi * 0x100000000 + lo < 0x10000000000000000) by (nonlinear_arith)
            requires
                hi < 0x100000000,
                lo < 0x100000000,
        ;
    }
    hi * 0x100000000 + lo
}

/// Lift a concrete scalar into an equal constant term.
fn resolve_value(value: &RuntimeValue) -> (r: IntTerm)
    requires
        value.is_primitive(),
    ensures
        it_wf(r),
        it_view(r) == TermV::Const(value.as_nat()),
{
    mk_const(value_to_u256(value))
}

/// The symbolic slot a fresh parameter gets: a named variable for scalars,
/// `Unknown` for everything else.
fn resolve_arg(cmd_index: usize, param_index: usize, ty: ParamTy) -> (r: SymbolValue)
    ensures
        r.wf(),
        ty.is_scalar() ==> r == (SymbolValue::Value(
            IntTerm::Var(symbol_name_spec(cmd_index as nat, param_index as nat)),
        )),
        !ty.is_scalar() ==> r == SymbolValue::Unknown,
{
    match ty {
        ParamTy::Other => SymbolValue::Unknown,
        _ => SymbolValue::Value(IntTerm::Var(symbol_name(cmd_index, param_index))),
    }
}

impl ConcolicState {
    /// A frame opens.
    ///
    /// The outermost call binds fresh symbolic variables to its scalar
    /// parameters and records them; a nested call moves its arguments from
    /// the symbolic stack into a new locals frame, and a native call pushes
    /// one `Unknown` per declared return.  Fewer stack slots than declared
    /// parameters clears all tracking and disables the mirror.  The
    /// function's branch counters are cleared either way.
    #[verifier::rlimit(100)]
    #[verifier::loop_isolation(false)]
    pub fn open_frame(&mut self, frame: &FrameInfo)
        requires
            old(self).inv(),
        ensures
            final(self).inv(),
            final(self).runtime_issues@ == old(self).runtime_issues@,
            final(self).branch_counts@ == remove_sites(
                old(self).branch_counts@,
                function_key_spec(frame.module@, frame.function@),
            ),
            ({
                let k = frame.param_tys@.len();
                let n = old(self).stack@.len();
                if old(self).locals@.len() == 0 {
                    &&& final(self).stack@ == old(self).stack@
                    &&& final(self).disable == old(self).disable
                    &&& final(self).locals@.len() == 1
                    &&& final(self).locals@[0]@.len() == k
                    &&& (forall|j: int|
                        0 <= j < k ==> (#[trigger] final(self).locals@[0]@[j]) == (
                        if frame.param_tys@[j].is_scalar() {
                            SymbolValue::Value(
                                IntTerm::Var(
                                    symbol_name_spec(old(self).args@.len() as nat, j as nat),
                                ),
                            )
                        } else {
                            SymbolValue::Unknown
                        }))
                    &&& final(self).args@.len() == old(self).args@.len() + 1
                    &&& old(self).args@.is_prefix_of(final(self).args@)
                    &&& (forall|p: int|
                        0 <= p < final(self).args@.last()@.len() ==> {
                            let pr = #[trigger] final(self).args@.last()@[p];
                            &&& pr.0 < k
                            &&& frame.param_tys@[pr.0 as int].is_scalar()
                            &&& it_view(pr.1) == TermV::Var(
                                symbol_name_spec(old(self).args@.len() as nat, pr.0 as nat),
                            )
                        })
                    &&& (forall|j: int|
                        0 <= j < k && (#[trigger] frame.param_tys@[j]).is_scalar() ==> exists|
                            p: int,
                        |
                            0 <= p < final(self).args@.last()@.len() && (
                            #[trigger] final(self).args@.last()@[p]).0 == j)
                    &&& (forall|p1: int, p2: int|
                        0 <= p1 < p2 < final(self).args@.last()@.len() ==> (
                        #[trigger] final(self).args@.last()@[p1]).0 < (
                        #[trigger] final(self).args@.last()@[p2]).0)
                } else if k > n {
                    &&& final(self).stack@.len() == 0
                    &&& final(self).locals@.len() == 0
                    &&& final(self).args@ == old(self).args@
                    &&& final(self).disable == true
                } else {
                    &&& final(self).args@ == old(self).args@
                    &&& final(self).disable == old(self).disable
                    &&& final(self).locals@.len() == old(self).locals@.len() + 1
                    &&& old(self).locals@.is_prefix_of(final(self).locals@)
                    &&& final(self).locals@.last()@ == old(self).stack@.skip(n - k)
                    &&& (if frame.is_native {
                        final(self).stack@ == old(self).stack@.take(n - k) + Seq::new(
                            frame.return_count as nat,
                            |q: int| SymbolValue::Unknown,
                        )
                    } else {
                        final(self).stack@ == old(self).stack@.take(n - k)
                    })
                }
            }),
    {
        let key = function_key(frame.module.as_str(), frame.function.as_str());
        let m = self.branch_counts.len();
        let mut kept: Vec<BranchSite> = Vec::new();
        let mut i: usize = 0;
        proof {
            assert(self.branch_counts@.take(0) =~= Seq::<BranchSite>::empty());
        }
        while i < m
            invariant
                m == self.branch_counts@.len(),
                i <= m,
                kept@ == remove_sites(
                    self.branch_counts@.take(i as int),
                    function_key_spec(frame.module@, frame.function@),
                ),
            decreases m - i,
        {
            let ghost pre = self.branch_counts@.take(i as int);
            proof {
                assert(self.branch_counts@.take(i + 1) =~= pre.push(
                    self.branch_counts@[i as int],
                ));
                assert(pre.push(self.branch_counts@[i as int]).drop_last() =~= pre);
            }
            let keep = !self.branch_counts[i].function.eq(&key);
            if keep {
                let site = self.branch_counts[i].clone();
                kept.push(site);
            }
            i = i + 1;
        }
        proof {
            assert(self.branch_counts@.take(m as int) =~= self.branch_counts@);
            lemma_remove_sites_wf(
                self.branch_counts@,
                function_key_spec(frame.module@, frame.function@),
            );
        }
        self.branch_counts = kept;
        if self.locals.len() == 0 {
            let k = frame.param_tys.len();
            let cmd = self.args.len();
            let mut new_locals: Vec<SymbolValue> = Vec::new();
            let mut pairs: Vec<(usize, IntTerm)> = Vec::new();
            let mut j: usize = 0;
            while j < k
                invariant
                    k == frame.param_tys@.len(),
                    j <= k,
                    new_locals@.len() == j,
                    forall|q: int|
                        0 <= q < j ==> (#[trigger] new_locals@[q]) == (
                        if frame.param_tys@[q].is_scalar() {
                            SymbolValue::Value(
                                IntTerm::Var(symbol_name_spec(cmd as nat, q as nat)),
                            )
                        } else {
                            SymbolValue::Unknown
                        }),
                    forall|p: int|
                        0 <= p < pairs@.len() ==> {
                            let pr = #[trigger] pairs@[p];
                            &&& pr.0 < j
                            &&& frame.param_tys@[pr.0 as int].is_scalar()
                            &&& it_wf(pr.1)
                            &&& it_view(pr.1) == TermV::Var(
                                symbol_name_spec(cmd as nat, pr.0 as nat),
                            )
                        },
                    forall|q: int|
                        0 <= q < j && (#[trigger] frame.param_tys@[q]).is_scalar() ==> exists|
                            p: int,
                        | 0 <= p < pairs@.len() && (#[trigger] pairs@[p]).0 == q,
                    forall|p1: int, p2: int|
                        0 <= p1 < p2 < pairs@.len() ==> (#[trigger] pairs@[p1]).0 < (
                        #[trigger] pairs@[p2]).0,
                decreases k - j,
            {
                let ghost pairs_pre = pairs@;
                let slot = resolve_arg(cmd, j, frame.param_tys[j]);
                match &slot {
                    SymbolValue::Value(t) => {
                        let tc = t.clone();
                        pairs.push((j, tc));
                        proof {
                            assert(pairs@[pairs@.len() - 1].0 == j);
                        }
                    },
                    SymbolValue::Unknown => {},
                }
                new_locals.push(slot);
                j = j + 1;
                proof {
                    assert forall|q: int|
                        0 <= q < j && (#[trigger] frame.param_tys@[q]).is_scalar() implies exists|
                        p: int,
                    | 0 <= p < pairs@.len() && (#[trigger] pairs@[p]).0 == q by {
                        if q == j - 1 {
                            assert(slot is Value);
                            assert(pairs@[pairs@.len() - 1].0 == q);
                        } else {
                            assert(exists|p: int|
                                0 <= p < pairs_pre.len() && (#[trigger] pairs_pre[p]).0 == q);
                            let p0 = choose|p: int|
                                0 <= p < pairs_pre.len() && (#[trigger] pairs_pre[p]).0 == q;
                            assert(pairs@[p0] == pairs_pre[p0]);
                        }
                    }
                }
            }
            self.args.push(pairs);
            self.locals.push(new_locals);
            proof {
                assert(stack_wf(self.locals@.last()@)) by {
                    assert forall|q: int|
                        0 <= q < self.locals@.last()@.len() implies (#[trigger] self.locals@.last()@[q]).wf() by {
                        assert(self.locals@.last()@[q] == new_locals@[q]);
                    }
                }
                assert forall|a: int, b: int|
                    0 <= a < self.args@.len() && 0 <= b < self.args@[a]@.len() implies it_wf(
                    (#[trigger] self.args@[a]@[b]).1,
                ) by {
                    if a < old(self).args@.len() {
                        assert(self.args@[a] == old(self).args@[a]);
                        assert(it_wf(old(self).args@[a]@[b].1));
                    } else {
                        assert(self.args@[a]@ == pairs@);
                    }
                }
                assert forall|a: int|
                    0 <= a < self.locals@.len() implies stack_wf((#[trigger] self.locals@[a])@) by {
                    if a < old(self).locals@.len() {
                        assert(self.locals@[a] == old(self).locals@[a]);
                        assert(stack_wf(old(self).locals@[a]@));
                    }
                }
            }
        } else {
            let k = frame.param_tys.len();
            let n = self.stack.len();
            if k > n {
                self.stack.clear();
                self.locals.clear();
                self.disable = true;
                return ;
            }
            let tail = self.stack.split_off(n - k);
            self.locals.push(tail);
            proof {
                assert forall|a: int|
                    0 <= a < self.locals@.len() implies stack_wf((#[trigger] self.locals@[a])@) by {
                    if a < old(self).locals@.len() {
                        assert(self.locals@[a] == old(self).locals@[a]);
                        assert(stack_wf(old(self).locals@[a]@));
                    } else {
                        assert forall|q: int|
                            0 <= q < self.locals@[a]@.len() implies (#[trigger] self.locals@[a]@[q]).wf() by {
                            assert(self.locals@[a]@[q] == old(self).stack@[n - k + q]);
                        }
                    }
                }
                assert forall|q: int|
                    0 <= q < self.stack@.len() implies (#[trigger] self.stack@[q]).wf() by {
                    assert(self.stack@[q] == old(self).stack@[q]);
                }
            }
            if frame.is_native {
                let mut q: usize = 0;
                let ghost base = self.stack@;
                let ghost snap = *self;
                while q < frame.return_count
                    invariant
                        q <= frame.return_count,
                        self.stack@ == base + Seq::new(q as nat, |z: int| SymbolValue::Unknown),
                        self.locals@ == snap.locals@,
                        self.args@ == snap.args@,
                        self.disable == snap.disable,
                        self.runtime_issues@ == snap.runtime_issues@,
                        self.branch_counts@ == snap.branch_counts@,
                    decreases frame.return_count - q,
                {
                    proof {
                        assert(base + Seq::new((q + 1) as nat, |z: int| SymbolValue::Unknown)
                            =~= (base + Seq::new(q as nat, |z: int| SymbolValue::Unknown)).push(
                            SymbolValue::Unknown,
                        ));
                    }
                    self.stack.push(SymbolValue::Unknown);
                    q = q + 1;
                }
            } else {
                proof {
                    assert(self.stack@ + Seq::new(0, |z: int| SymbolValue::Unknown)
                        =~= self.stack@);
                }
            }
        }
    }

    /// A frame closes: drop its symbolic locals.
    pub fn close_frame(&mut self)
        requires
            old(self).inv(),
        ensures
            final(self).inv(),
            final(self).stack@ == old(self).stack@,
            final(self).args@ == old(self).args@,
            final(self).disable == old(self).disable,
            final(self).runtime_issues@ == old(self).runtime_issues@,
            final(self).branch_counts@ == old(self).branch_counts@,
            old(self).locals@.len() > 0 ==> final(self).locals@ == old(self).locals@.drop_last(),
            old(self).locals@.len() == 0 ==> final(self).locals@ == old(self).locals@,
    {
        let _ = self.locals.pop();
    }
}

/// Clearing one function's counters keeps a subset; well-formed sites stay
/// well formed.
proof fn lemma_remove_sites_wf(s: Seq<BranchSite>, key: Seq<char>)
    ensures
        forall|i: int|
            0 <= i < remove_sites(s, key).len() ==> exists|j: int|
                0 <= j < s.len() && s[j] == #[trigger] remove_sites(s, key)[i],
        sites_wf(s) ==> sites_wf(remove_sites(s, key)),
    decreases s.len(),
{
    if s.len() > 0 {
        lemma_remove_sites_wf(s.drop_last(), key);
        let f = remove_sites(s.drop_last(), key);
        assert forall|i: int|
            0 <= i < remove_sites(s, key).len() implies exists|j: int|
            0 <= j < s.len() && s[j] == #[trigger] remove_sites(s, key)[i] by {
            if i < f.len() {
                let j0 = choose|j0: int|
                    0 <= j0 < s.drop_last().len() && s.drop_last()[j0] == f[i];
                assert(s[j0] == remove_sites(s, key)[i]);
            } else {
                assert(s[s.len() - 1] == remove_sites(s, key)[i]);
            }
        }
        if sites_wf(s) {
            assert(sites_wf(s.drop_last())) by {
                assert(forall|i: int|
                    0 <= i < s.drop_last().len() ==> s.drop_last()[i] == s[i]);
            }
            assert forall|i: int|
                0 <= i < remove_sites(s, key).len() implies (#[trigger] remove_sites(s, key)[i]).count
                < INFINITE_LOOP_THRESHOLD by {
                let j0 = choose|j0: int| 0 <= j0 < s.len() && s[j0] == remove_sites(s, key)[i];
                assert(s[j0].count < INFINITE_LOOP_THRESHOLD);
            }
            if s.last().function@ != key {
                assert forall|i: int, j: int|
                    0 <= i < j < remove_sites(s, key).len() implies !((#[trigger] remove_sites(
                    s,
                    key,
                )[i]).function@ == (#[trigger] remove_sites(s, key)[j]).function@ && remove_sites(
                    s,
                    key,
                )[i].pc == remove_sites(s, key)[j].pc) by {
                    if j < f.len() {
                    } else {
                        let j0 = choose|j0: int|
                            0 <= j0 < s.drop_last().len() && s.drop_last()[j0] == f[i];
                        assert(!(s[j0].function@ == s[s.len() - 1].function@ && s[j0].pc == s[s.len()
                            - 1].pc));
                    }
                }
            }
        }
    }
}


/// The bytecode instructions the tracer distinguishes; everything else
/// falls under `Other` and leaves the mirror untouched.
#[derive(Clone, Copy, Debug, PartialEq, Eq, Structural)]
pub enum Instr {
    Pop,
    BrTrue,
    BrFalse,
    Abort,
    VecImmBorrow,
    VecMutBorrow,
    LdU8,
    LdU16,
    LdU32,
    LdU64,
    LdU128,
    LdU256,
    LdConst,
    LdFalse,
    LdTrue,
    CastU8,
    CastU16,
    CastU32,
    CastU64,
    CastU128,
    Add,
    Sub,
    Mul,
    Div,
    Mod,
    And,
    BitAnd,
    Or,
    BitOr,
    Xor,
    Shl,
    Shr,
    Not,
    CopyLoc(u8),
    MutBorrowLoc(u8),
    ImmBorrowLoc(u8),
    MoveLoc(u8),
    StLoc(u8),
    WriteRef,
    VecPushBack,
    Eq,
    Neq,
    Lt,
    Le,
    Gt,
    Ge,
    VecPack(u64),
    VecUnpack(u64),
    VecSwap,
    Pack,
    PackGeneric,
    Unpack,
    UnpackGeneric,
    PackVariant,
    PackVariantGeneric,
    UnpackVariant,
    UnpackVariantGeneric,
    Other,
}

/// Aggregate field counts the virtual machine reports alongside pack and
/// unpack instructions.
#[derive(Clone, Copy, Debug, PartialEq, Eq, Structural)]
pub enum ExtraInfo {
    Pack(usize),
    PackGeneric(usize),
    Unpack(usize),
    UnpackGeneric(usize),
    PackVariant(usize),
    PackVariantGeneric(usize),
    UnpackVariant(usize),
    UnpackVariantGeneric(usize),
}

/// What the tracer sees before one instruction executes.
pub struct InstrContext {
    pub instruction: Instr,
    pub pc: u16,
    pub operands: Vec<RuntimeValue>,
    pub extra: Option<ExtraInfo>,
    pub module: String,
    pub function: String,
}

/// The stack the step works on: the shadow stack when it agrees with the
/// concrete operand stack in length, the empty stack after a resync.
pub open spec fn eff_stack(pre: Seq<SymbolValue>, ops: Seq<RuntimeValue>) -> Seq<SymbolValue> {
    if pre.len() == ops.len() {
        pre
    } else {
        Seq::empty()
    }
}

/// Two shadow operands resolved for a binary operation: a tracked term is
/// kept, a single untracked side is lifted to a constant equal to its
/// concrete runtime value, and two untracked sides resolve to nothing.
pub open spec fn resolved_pair(
    l: SymbolValue,
    r: SymbolValue,
    cl: RuntimeValue,
    cr: RuntimeValue,
) -> Option<(TermV, TermV)> {
    match (l, r) {
        (SymbolValue::Value(a), SymbolValue::Value(b)) => Some((it_view(a), it_view(b))),
        (SymbolValue::Value(a), SymbolValue::Unknown) => Some(
            (it_view(a), TermV::Const(cr.as_nat())),
        ),
        (SymbolValue::Unknown, SymbolValue::Value(b)) => Some(
            (TermV::Const(cl.as_nat()), it_view(b)),
        ),
        (SymbolValue::Unknown, SymbolValue::Unknown) => None,
    }
}

/// The integer node a binary arithmetic instruction builds.
pub open spec fn arith_node(i: Instr, a: TermV, b: TermV) -> TermV {
    match i {
        Instr::Add => TermV::Add(Box::new(a), Box::new(b)),
        Instr::Sub => TermV::Sub(Box::new(a), Box::new(b)),
        Instr::Mul => TermV::Mul(Box::new(a), Box::new(b)),
        Instr::Div => TermV::Div(Box::new(a), Box::new(b)),
        _ => TermV::Mod(Box::new(a), Box::new(b)),
    }
}

/// The target width of a cast instruction.
pub open spec fn cast_width(i: Instr) -> nat {
    match i {
        Instr::CastU8 => 8,
        Instr::CastU16 => 16,
        Instr::CastU32 => 32,
        Instr::CastU64 => 64,
        _ => 128,
    }
}

/// The predicate a comparison instruction asserts when the concrete
/// comparison of `x` and `y` comes out as it did.
pub open spec fn cmp_pred(i: Instr, a: TermV, b: TermV, x: nat, y: nat) -> PredV {
    let base = match i {
        Instr::Eq => PredV::Eq(Box::new(a), Box::new(b)),
        Instr::Neq => PredV::Ne(Box::new(a), Box::new(b)),
        Instr::Lt => PredV::Lt(Box::new(a), Box::new(b)),
        Instr::Le => PredV::Le(Box::new(a), Box::new(b)),
        Instr::Gt => PredV::Gt(Box::new(a), Box::new(b)),
        _ => PredV::Ge(Box::new(a), Box::new(b)),
    };
    let holds = match i {
        Instr::Eq => x == y,
        Instr::Neq => x != y,
        Instr::Lt => x < y,
        Instr::Le => x <= y,
        Instr::Gt => x > y,
        _ => x >= y,
    };
    if holds {
        base
    } else {
        PredV::Not(Box::new(base))
    }
}

/// What the step needs of its inputs so that it never panics: concrete
/// operands are present and scalar wherever the instruction reads them.
pub open spec fn ctx_ok(st: ConcolicState, ctx: InstrContext) -> bool {
    let s = eff_stack(st.stack@, ctx.operands@);
    let ops = ctx.operands@;
    let m = ops.len() as int;
    let n = s.len() as int;
    &&& ((ctx.instruction == Instr::And || ctx.instruction == Instr::BitAnd || ctx.instruction
        == Instr::Or || ctx.instruction == Instr::BitOr || ctx.instruction == Instr::Xor
        || ctx.instruction == Instr::Shl || ctx.instruction == Instr::Shr) ==> m >= 2 && ops[m
        - 2].is_primitive() && ops[m - 1].is_primitive())
    &&& ((ctx.instruction == Instr::Not && n >= 1 && s.last() is Value) ==> m >= 1 && ops[m
        - 1].is_primitive())
    &&& ((ctx.instruction == Instr::Eq || ctx.instruction == Instr::Neq || ctx.instruction
        == Instr::Lt || ctx.instruction == Instr::Le || ctx.instruction == Instr::Gt
        || ctx.instruction == Instr::Ge) && n >= 2 && !(s[n - 2] is Unknown && s[n - 1] is Unknown)
        ==> m >= 2 && ops[m - 2].is_primitive() && ops[m - 1].is_primitive() && ops[m - 2].width()
        == ops[m - 1].width())
    &&& ((ctx.instruction == Instr::Add || ctx.instruction == Instr::Sub || ctx.instruction
        == Instr::Mul || ctx.instruction == Instr::Div || ctx.instruction == Instr::Mod) && n >= 2
        ==> ((s[n - 2] is Unknown && s[n - 1] is Value) ==> m >= 2 && ops[m - 2].is_primitive())
        && ((s[n - 2] is Value && s[n - 1] is Unknown) ==> m >= 2 && ops[m - 1].is_primitive()))
}


/// A boolean comparison node.
fn mk_cmp(i: Instr, a: IntTerm, b: IntTerm) -> (r: BoolTerm)
    requires
        i == Instr::Eq || i == Instr::Neq || i == Instr::Lt || i == Instr::Le || i == Instr::Gt
            || i == Instr::Ge,
    ensures
        bt_wf(r) == (it_wf(a) && it_wf(b)),
        bt_view(r) == (match i {
            Instr::Eq => PredV::Eq(Box::new(it_view(a)), Box::new(it_view(b))),
            Instr::Neq => PredV::Ne(Box::new(it_view(a)), Box::new(it_view(b))),
            Instr::Lt => PredV::Lt(Box::new(it_view(a)), Box::new(it_view(b))),
            Instr::Le => PredV::Le(Box::new(it_view(a)), Box::new(it_view(b))),
            Instr::Gt => PredV::Gt(Box::new(it_view(a)), Box::new(it_view(b))),
            _ => PredV::Ge(Box::new(it_view(a)), Box::new(it_view(b))),
        }),
{
    match i {
        Instr::Eq => BoolTerm::Eq(Box::new(a), Box::new(b)),
        Instr::Neq => BoolTerm::Ne(Box::new(a), Box::new(b)),
        Instr::Lt => BoolTerm::Lt(Box::new(a), Box::new(b)),
        Instr::Le => BoolTerm::Le(Box::new(a), Box::new(b)),
        Instr::Gt => BoolTerm::Gt(Box::new(a), Box::new(b)),
        _ => BoolTerm::Ge(Box::new(a), Box::new(b)),
    }
}

/// A boolean negation node.
fn mk_not_b(a: BoolTerm) -> (r: BoolTerm)
    ensures
        bt_wf(r) == bt_wf(a),
        bt_view(r) == PredV::Not(Box::new(bt_view(a))),
{
    BoolTerm::Not(Box::new(a))
}

/// A conditional node choosing between two constants.
fn mk_indicator(c: BoolTerm) -> (r: IntTerm)
    ensures
        it_wf(r) == bt_wf(c),
        it_view(r) == TermV::Ite(
            Box::new(bt_view(c)),
            Box::new(TermV::Const(1)),
            Box::new(TermV::Const(0)),
        ),
{
    let one = U256::from_u64(1);
    let zero = U256::zero();
    let one_t = IntTerm::Const(one);
    let zero_t = IntTerm::Const(zero);
    proof {
        assert(it_view(one_t) == TermV::Const(1));
        assert(it_view(zero_t) == TermV::Const(0));
        assert(it_wf(one_t) && it_wf(zero_t));
    }
    let ghost cv = bt_view(c);
    let ghost cw = bt_wf(c);
    let r = IntTerm::Ite(Box::new(c), Box::new(one_t), Box::new(zero_t));
    proof {
        assert(it_view(r) == TermV::Ite(
            Box::new(cv),
            Box::new(TermV::Const(1)),
            Box::new(TermV::Const(0)),
        ));
        assert(it_wf(r) == cw);
    }
    r
}

/// The constraint a comparison returns always agrees with the concrete
/// path taken: under any assignment that reproduces the concrete operand
/// values, the asserted predicate holds.
pub proof fn lemma_cmp_pred_agrees(
    i: Instr,
    a: TermV,
    b: TermV,
    x: nat,
    y: nat,
    env: Map<u64, int>,
)
    requires
        i == Instr::Eq || i == Instr::Neq || i == Instr::Lt || i == Instr::Le || i == Instr::Gt
            || i == Instr::Ge,
        eval_int(a, env) == x as int,
        eval_int(b, env) == y as int,
    ensures
        eval_bool(cmp_pred(i, a, b, x, y), env),
{
    let ea = eval_int(a, env);
    let eb = eval_int(b, env);
    match i {
        Instr::Eq => {
            let base = PredV::Eq(Box::new(a), Box::new(b));
            assert(eval_bool(base, env) == (ea == eb));
            if x != y {
                assert(eval_bool(PredV::Not(Box::new(base)), env) == !eval_bool(base, env));
            }
        },
        Instr::Neq => {
            let base = PredV::Ne(Box::new(a), Box::new(b));
            assert(eval_bool(base, env) == (ea != eb));
            if x == y {
                assert(eval_bool(PredV::Not(Box::new(base)), env) == !eval_bool(base, env));
            }
        },
        Instr::Lt => {
            let base = PredV::Lt(Box::new(a), Box::new(b));
            assert(eval_bool(base, env) == (ea < eb));
            if !(x < y) {
                assert(eval_bool(PredV::Not(Box::new(base)), env) == !eval_bool(base, env));
            }
        },
        Instr::Le => {
            let base = PredV::Le(Box::new(a), Box::new(b));
            assert(eval_bool(base, env) == (ea <= eb));
            if !(x <= y) {
                assert(eval_bool(PredV::Not(Box::new(base)), env) == !eval_bool(base, env));
            }
        },
        Instr::Gt => {
            let base = PredV::Gt(Box::new(a), Box::new(b));
            assert(eval_bool(base, env) == (ea > eb));
            if !(x > y) {
                assert(eval_bool(PredV::Not(Box::new(base)), env) == !eval_bool(base, env));
            }
        },
        _ => {
            let base = PredV::Ge(Box::new(a), Box::new(b));
            assert(eval_bool(base, env) == (ea >= eb));
            if !(x >= y) {
                assert(eval_bool(PredV::Not(Box::new(base)), env) == !eval_bool(base, env));
            }
        },
    }
}


/// The full specification of one shadow step: given the effective stack
/// (after any resync), how the mirror's stack, locals, counters and issues
/// move, and what side constraint comes back, for every instruction.
pub open spec fn step_post(
    pre: ConcolicState,
    post: ConcolicState,
    ctx: InstrContext,
    r: Option<BoolTerm>,
) -> bool {
    let s = eff_stack(pre.stack@, ctx.operands@);
    let ops = ctx.operands@;
    let m = ops.len() as int;
    let n = s.len() as int;
    let same_locals = post.locals@ == pre.locals@;
    let same_sites = post.branch_counts@ == pre.branch_counts@;
    let same_issues = post.runtime_issues@ == pre.runtime_issues@;
    let same_disable = post.disable == pre.disable;
    match ctx.instruction {
        Instr::Pop | Instr::Abort | Instr::VecImmBorrow | Instr::VecMutBorrow => {
            &&& post.stack@ == (if n >= 1 { s.take(n - 1) } else { s })
            &&& same_locals && same_sites && same_issues && same_disable
            &&& r is None
        },
        Instr::BrTrue | Instr::BrFalse => {
            &&& post.stack@ == (if n >= 1 { s.take(n - 1) } else { s })
            &&& same_locals && same_disable
            &&& infinite_loop_post(
                s,
                pre.branch_counts@,
                post.branch_counts@,
                pre.runtime_issues@,
                post.runtime_issues@,
                ctx.pc,
                ctx.module@,
                ctx.function@,
            )
            &&& r is None
        },
        Instr::LdU8 | Instr::LdU16 | Instr::LdU32 | Instr::LdU64 | Instr::LdU128 | Instr::LdU256
            | Instr::LdConst => {
            &&& post.stack@ == s.push(SymbolValue::Unknown)
            &&& same_locals && same_sites && same_issues && same_disable
            &&& r is None
        },
        Instr::LdFalse | Instr::LdTrue => {
            let c: nat = if ctx.instruction == Instr::LdTrue {
                1
            } else {
                0
            };
            &&& post.stack@.len() == n + 1
            &&& post.stack@.take(n) == s
            &&& post.stack@.last() is Value
            &&& it_view(post.stack@.last()->Value_0) == TermV::Const(c)
            &&& same_locals && same_sites && same_issues && same_disable
            &&& r is None
        },
        Instr::CastU8 | Instr::CastU16 | Instr::CastU32 | Instr::CastU64 | Instr::CastU128 => {
            let w = cast_width(ctx.instruction);
            &&& post.stack@ == s
            &&& same_locals && same_sites && same_issues && same_disable
            &&& (if n >= 1 && s.last() is Value {
                &&& r is Some
                &&& bt_view(r->0) == PredV::Le(
                    Box::new(it_view(s.last()->Value_0)),
                    Box::new(TermV::Const((vstd::arithmetic::power2::pow2(w) - 1) as nat)),
                )
            } else {
                r is None
            })
        },
        Instr::Add | Instr::Sub | Instr::Mul | Instr::Div | Instr::Mod => {
            &&& same_locals && same_sites && same_disable
            &&& (if n >= 2 {
                match resolved_pair(s[n - 2], s[n - 1], ops[m - 2], ops[m - 1]) {
                    Some((a, b)) => {
                        &&& post.stack@.len() == n - 1
                        &&& post.stack@.take(n - 2) == s.take(n - 2)
                        &&& post.stack@.last() is Value
                        &&& it_view(post.stack@.last()->Value_0) == arith_node(
                            ctx.instruction,
                            a,
                            b,
                        )
                        &&& (if ctx.instruction == Instr::Mul {
                            precision_post(
                                a,
                                b,
                                pre.runtime_issues@,
                                post.runtime_issues@,
                                ctx.pc,
                                ctx.module@,
                                ctx.function@,
                            )
                        } else {
                            same_issues
                        })
                    },
                    None => {
                        &&& post.stack@ == s.take(n - 2).push(SymbolValue::Unknown)
                        &&& same_issues
                    },
                }
            } else {
                post.stack@ == seq![SymbolValue::Unknown] && same_issues
            })
            &&& r is None
        },
        Instr::And | Instr::BitAnd | Instr::Or | Instr::BitOr | Instr::Xor => {
            &&& same_locals && same_sites && same_issues && same_disable
            &&& r is None
            &&& (if n >= 2 {
                let w = ops[m - 2].width();
                match (s[n - 2], s[n - 1]) {
                    (SymbolValue::Value(a), SymbolValue::Unknown) => {
                        &&& post.stack@.len() == n - 1
                        &&& post.stack@.take(n - 2) == s.take(n - 2)
                        &&& post.stack@.last() is Value
                        &&& (forall|env: Map<u64, int>| #[trigger] eval_int(
                            it_view(post.stack@.last()->Value_0),
                            env,
                        ) == bv_apply(
                            ctx.instruction,
                            (eval_int(it_view(a), env) % (
                            vstd::arithmetic::power2::pow2(w) as int)) as nat,
                            ops[m - 1].as_nat() % vstd::arithmetic::power2::pow2(w),
                        ))
                    },
                    (SymbolValue::Unknown, SymbolValue::Value(b)) => {
                        &&& post.stack@.len() == n - 1
                        &&& post.stack@.take(n - 2) == s.take(n - 2)
                        &&& post.stack@.last() is Value
                        &&& (forall|env: Map<u64, int>| #[trigger] eval_int(
                            it_view(post.stack@.last()->Value_0),
                            env,
                        ) == bv_apply(
                            ctx.instruction,
                            (eval_int(it_view(b), env) % (
                            vstd::arithmetic::power2::pow2(w) as int)) as nat,
                            ops[m - 2].as_nat() % vstd::arithmetic::power2::pow2(w),
                        ))
                    },
                    _ => post.stack@ == s.take(n - 2).push(SymbolValue::Unknown),
                }
            } else {
                post.stack@ == seq![SymbolValue::Unknown]
            })
        },
        Instr::Shl => {
            &&& same_locals && same_sites && same_issues && same_disable
            &&& (if n >= 2 {
                let w = ops[m - 2].width();
                let sh = ops[m - 1].as_nat() % 0x100000000;
                match (s[n - 2], s[n - 1]) {
                    (SymbolValue::Value(a), SymbolValue::Unknown) => {
                        &&& post.stack@.len() == n - 1
                        &&& post.stack@.take(n - 2) == s.take(n - 2)
                        &&& post.stack@.last() is Value
                        &&& it_view(post.stack@.last()->Value_0) == TermV::Mod(
                            Box::new(
                                TermV::Mul(Box::new(it_view(a)), Box::new(TermV::Pow2(sh))),
                            ),
                            Box::new(TermV::Pow2(w)),
                        )
                        &&& r is Some
                        &&& bt_view(r->0) == PredV::Gt(
                            Box::new(
                                TermV::Mul(Box::new(it_view(a)), Box::new(TermV::Pow2(sh))),
                            ),
                            Box::new(
                                TermV::Const((vstd::arithmetic::power2::pow2(w) - 1) as nat),
                            ),
                        )
                    },
                    _ => post.stack@ == s.take(n - 2).push(SymbolValue::Unknown) && r is None,
                }
            } else {
                post.stack@ == seq![SymbolValue::Unknown] && r is None
            })
        },
        Instr::Shr => {
            &&& same_locals && same_sites && same_issues && same_disable
            &&& r is None
            &&& (if n >= 2 {
                let sh = ops[m - 1].as_nat() % 0x100000000;
                match (s[n - 2], s[n - 1]) {
                    (SymbolValue::Value(a), SymbolValue::Unknown) => {
                        &&& post.stack@.len() == n - 1
                        &&& post.stack@.take(n - 2) == s.take(n - 2)
                        &&& post.stack@.last() is Value
                        &&& it_view(post.stack@.last()->Value_0) == TermV::Div(
                            Box::new(it_view(a)),
                            Box::new(TermV::Pow2(sh)),
                        )
                    },
                    _ => post.stack@ == s.take(n - 2).push(SymbolValue::Unknown),
                }
            } else {
                post.stack@ == seq![SymbolValue::Unknown]
            })
        },
        Instr::Not => {
            &&& same_locals && same_sites && same_issues && same_disable
            &&& r is None
            &&& (if n >= 1 {
                match s.last() {
                    SymbolValue::Value(t0) => {
                        let w = ops[m - 1].width();
                        &&& post.stack@.len() == n
                        &&& post.stack@.take(n - 1) == s.take(n - 1)
                        &&& post.stack@.last() is Value
                        &&& (forall|env: Map<u64, int>| #[trigger] eval_int(
                            it_view(post.stack@.last()->Value_0),
                            env,
                        ) == crate::bitwise::bv_not(
                            (eval_int(it_view(t0), env) % (
                            vstd::arithmetic::power2::pow2(w) as int)) as nat,
                            w,
                        ))
                    },
                    SymbolValue::Unknown => post.stack@ == s.take(n - 1).push(
                        SymbolValue::Unknown,
                    ),
                }
            } else {
                post.stack@ == s
            })
        },
        Instr::CopyLoc(idx) | Instr::MutBorrowLoc(idx) | Instr::ImmBorrowLoc(idx) => {
            &&& same_locals && same_sites && same_issues && same_disable
            &&& r is None
            &&& post.stack@.len() == n + 1
            &&& post.stack@.take(n) == s
            &&& (if pre.locals@.len() > 0 && (idx as int) < pre.locals@.last()@.len() {
                post.stack@.last().view_opt() == pre.locals@.last()@[idx as int].view_opt()
            } else {
                post.stack@.last() == SymbolValue::Unknown
            })
        },
        Instr::MoveLoc(idx) => {
            &&& same_sites && same_issues && same_disable
            &&& r is None
            &&& (if pre.locals@.len() > 0 && (idx as int) < pre.locals@.last()@.len() {
                &&& post.stack@.len() == n + 1
                &&& post.stack@.take(n) == s
                &&& post.stack@.last().view_opt() == pre.locals@.last()@[idx as int].view_opt()
                &&& post.locals@.len() == pre.locals@.len()
                &&& post.locals@.take(pre.locals@.len() - 1) == pre.locals@.take(
                    pre.locals@.len() - 1,
                )
                &&& post.locals@.last()@ == pre.locals@.last()@.update(
                    idx as int,
                    SymbolValue::Unknown,
                )
            } else {
                post.stack@ == s.push(SymbolValue::Unknown) && same_locals
            })
        },
        Instr::StLoc(idx) => {
            &&& same_sites && same_issues && same_disable
            &&& r is None
            &&& (if n >= 1 {
                &&& post.stack@ == s.take(n - 1)
                &&& (if pre.locals@.len() > 0 {
                    &&& post.locals@.len() == pre.locals@.len()
                    &&& post.locals@.take(pre.locals@.len() - 1) == pre.locals@.take(
                        pre.locals@.len() - 1,
                    )
                    &&& (if (idx as int) < pre.locals@.last()@.len() {
                        post.locals@.last()@ == pre.locals@.last()@.update(
                            idx as int,
                            s.last(),
                        )
                    } else {
                        &&& post.locals@.last()@.len() == idx + 1
                        &&& (forall|j: int|
                            0 <= j < pre.locals@.last()@.len()
                                ==> post.locals@.last()@[j] == pre.locals@.last()@[j])
                        &&& (forall|j: int|
                            pre.locals@.last()@.len() <= j < idx as int
                                ==> post.locals@.last()@[j] == SymbolValue::Unknown)
                        &&& post.locals@.last()@[idx as int] == s.last()
                    })
                } else {
                    same_locals
                })
            } else {
                post.stack@ == s && same_locals
            })
        },
        Instr::WriteRef | Instr::VecPushBack => {
            &&& same_locals && same_sites && same_issues && same_disable
            &&& r is None
            &&& post.stack@ == s.take(if n >= 2 {
                n - 2
            } else {
                0
            })
        },
        Instr::Eq | Instr::Neq | Instr::Lt | Instr::Le | Instr::Gt | Instr::Ge => {
            &&& same_locals && same_sites && same_disable
            &&& judgement_post(
                s,
                ctx.instruction == Instr::Eq || ctx.instruction == Instr::Neq,
                ops,
                pre.runtime_issues@,
                post.runtime_issues@,
                ctx.pc,
                ctx.module@,
                ctx.function@,
            )
            &&& (if n >= 2 {
                match resolved_pair(s[n - 2], s[n - 1], ops[m - 2], ops[m - 1]) {
                    Some((a, b)) => {
                        let p = cmp_pred(
                            ctx.instruction,
                            a,
                            b,
                            ops[m - 2].as_nat(),
                            ops[m - 1].as_nat(),
                        );
                        &&& post.stack@.len() == n - 1
                        &&& post.stack@.take(n - 2) == s.take(n - 2)
                        &&& post.stack@.last() is Value
                        &&& it_view(post.stack@.last()->Value_0) == TermV::Ite(
                            Box::new(p),
                            Box::new(TermV::Const(1)),
                            Box::new(TermV::Const(0)),
                        )
                        &&& r is Some
                        &&& bt_view(r->0) == p
                    },
                    None => {
                        &&& post.stack@ == s.take(n - 2).push(SymbolValue::Unknown)
                        &&& r is None
                    },
                }
            } else {
                post.stack@ == seq![SymbolValue::Unknown] && r is None
            })
        },
        Instr::VecPack(len) => {
            let k: int = if len as int <= n {
                len as int
            } else {
                n
            };
            &&& same_locals && same_sites && same_issues && same_disable
            &&& r is None
            &&& post.stack@ == s.take(n - k).push(SymbolValue::Unknown)
        },
        Instr::VecUnpack(len) => {
            &&& same_locals && same_sites && same_issues && same_disable
            &&& r is None
            &&& post.stack@ == (if n >= 1 {
                s.take(n - 1)
            } else {
                s
            }) + Seq::new(len as nat, |z: int| SymbolValue::Unknown)
        },
        Instr::VecSwap => {
            let k: int = if 3 <= n {
                3
            } else {
                n
            };
            &&& same_locals && same_sites && same_issues && same_disable
            &&& r is None
            &&& post.stack@ == s.take(n - k)
        },
        Instr::Pack | Instr::PackGeneric => {
            &&& same_locals && same_sites && same_issues
            &&& r is None
            &&& (match ctx.extra {
                Some(ExtraInfo::Pack(c)) | Some(ExtraInfo::PackGeneric(c)) => {
                    let k: int = if c as int <= n {
                        c as int
                    } else {
                        n
                    };
                    &&& post.stack@ == s.take(n - k).push(SymbolValue::Unknown)
                    &&& same_disable
                },
                Some(_) => post.stack@ == s && same_disable,
                None => post.stack@ == s && post.disable == true,
            })
        },
        Instr::PackVariant | Instr::PackVariantGeneric => {
            &&& same_locals && same_sites && same_issues
            &&& r is None
            &&& (match ctx.extra {
                Some(ExtraInfo::PackVariant(c)) | Some(ExtraInfo::PackVariantGeneric(c)) => {
                    let k: int = if c as int <= n {
                        c as int
                    } else {
                        n
                    };
                    &&& post.stack@ == s.take(n - k).push(SymbolValue::Unknown)
                    &&& same_disable
                },
                Some(_) => post.stack@ == s && same_disable,
                None => post.stack@ == s && post.disable == true,
            })
        },
        Instr::Unpack | Instr::UnpackGeneric => {
            let s1 = if n >= 1 {
                s.take(n - 1)
            } else {
                s
            };
            &&& same_locals && same_sites && same_issues
            &&& r is None
            &&& (match ctx.extra {
                Some(ExtraInfo::Unpack(c)) | Some(ExtraInfo::UnpackGeneric(c)) => {
                    &&& post.stack@ == s1 + Seq::new(c as nat, |z: int| SymbolValue::Unknown)
                    &&& same_disable
                },
                Some(_) => post.stack@ == s1 && same_disable,
                None => post.stack@ == s1 && post.disable == true,
            })
        },
        Instr::UnpackVariant | Instr::UnpackVariantGeneric => {
            let s1 = if n >= 1 {
                s.take(n - 1)
            } else {
                s
            };
            &&& same_locals && same_sites && same_issues
            &&& r is None
            &&& (match ctx.extra {
                Some(ExtraInfo::UnpackVariant(c)) | Some(ExtraInfo::UnpackVariantGeneric(c)) => {
                    &&& post.stack@ == s1 + Seq::new(c as nat, |z: int| SymbolValue::Unknown)
                    &&& same_disable
                },
                Some(_) => post.stack@ == s1 && same_disable,
                None => post.stack@ == s1 && post.disable == true,
            })
        },
        Instr::Other => {
            &&& post.stack@ == s
            &&& same_locals && same_sites && same_issues && same_disable
            &&& r is None
        },
    }
}

/// Which bitwise operation an instruction computes.
pub open spec fn bv_apply(i: Instr, x: nat, mm: nat) -> nat {
    match i {
        Instr::And | Instr::BitAnd => bv_and(x, mm),
        Instr::Or | Instr::BitOr => bv_or(x, mm),
        _ => bv_xor(x, mm),
    }
}


/// The integer node an arithmetic instruction builds.
fn build_arith(i: Instr, a: IntTerm, b: IntTerm) -> (r: IntTerm)
    requires
        i == Instr::Add || i == Instr::Sub || i == Instr::Mul || i == Instr::Div || i
            == Instr::Mod,
    ensures
        it_wf(r) == (it_wf(a) && it_wf(b)),
        it_view(r) == arith_node(i, it_view(a), it_view(b)),
{
    match i {
        Instr::Add => mk_add(a, b),
        Instr::Sub => mk_sub(a, b),
        Instr::Mul => mk_mul(a, b),
        Instr::Div => mk_div(a, b),
        _ => mk_mod(a, b),
    }
}

/// Shared contract of the per-instruction helpers: the step specification,
/// relative to the state each helper starts from (the dispatcher has
/// already resynced the stack, so the helper's own stack is the effective
/// one).
impl ConcolicState {
    /// Plain pops: one operand leaves the stack.
    #[verifier::rlimit(100)]
    #[verifier::loop_isolation(false)]
    fn step_pop(&mut self, ctx: &InstrContext) -> (r: Option<BoolTerm>)
        requires
            old(self).inv(),
            ctx.instruction == Instr::Pop || ctx.instruction == Instr::Abort || ctx.instruction
                == Instr::VecImmBorrow || ctx.instruction == Instr::VecMutBorrow,
            old(self).stack@ == eff_stack(old(self).stack@, ctx.operands@),
        ensures
            final(self).inv(),
            final(self).args@ == old(self).args@,
            step_post(*old(self), *final(self), *ctx, r),
    {
        let ghost s = old(self).stack@;
        let n = self.stack.len();
        let _ = self.stack.pop();
        proof {
            if n >= 1 {
                assert(self.stack@ =~= s.take(n - 1));
            }
        }
        None
    }

    /// A conditional branch: run the infinite-loop detector, then pop the
    /// condition.
    #[verifier::rlimit(100)]
    #[verifier::loop_isolation(false)]
    fn step_branch(&mut self, ctx: &InstrContext) -> (r: Option<BoolTerm>)
        requires
            old(self).inv(),
            ctx.instruction == Instr::BrTrue || ctx.instruction == Instr::BrFalse,
            old(self).stack@ == eff_stack(old(self).stack@, ctx.operands@),
        ensures
            final(self).inv(),
            final(self).args@ == old(self).args@,
            step_post(*old(self), *final(self), *ctx, r),
    {
        let ghost s = old(self).stack@;
        let n = self.stack.len();
        self.check_infinite_loop(ctx.pc, ctx.module.as_str(), ctx.function.as_str());
        let _ = self.stack.pop();
        proof {
            if n >= 1 {
                assert(self.stack@ =~= s.take(n - 1));
            }
        }
        None
    }

    /// Loads: an untracked slot for a constant of unknown meaning, a
    /// tracked constant for a boolean literal.
    #[verifier::rlimit(100)]
    #[verifier::loop_isolation(false)]
    fn step_load(&mut self, ctx: &InstrContext) -> (r: Option<BoolTerm>)
        requires
            old(self).inv(),
            ctx.instruction == Instr::LdU8 || ctx.instruction == Instr::LdU16 || ctx.instruction
                == Instr::LdU32 || ctx.instruction == Instr::LdU64 || ctx.instruction
                == Instr::LdU128 || ctx.instruction == Instr::LdU256 || ctx.instruction
                == Instr::LdConst || ctx.instruction == Instr::LdFalse || ctx.instruction
                == Instr::LdTrue,
            old(self).stack@ == eff_stack(old(self).stack@, ctx.operands@),
        ensures
            final(self).inv(),
            final(self).args@ == old(self).args@,
            step_post(*old(self), *final(self), *ctx, r),
    {
        let ghost s = old(self).stack@;
        let n = self.stack.len();
        match ctx.instruction {
            Instr::LdFalse => {
                let t = mk_const(U256::zero());
                self.stack.push(SymbolValue::Value(t));
                proof {
                    assert(self.stack@.take(n as int) =~= s);
                }
            },
            Instr::LdTrue => {
                let t = mk_const(U256::from_u64(1));
                self.stack.push(SymbolValue::Value(t));
                proof {
                    assert(self.stack@.take(n as int) =~= s);
                }
            },
            _ => {
                self.stack.push(SymbolValue::Unknown);
            },
        }
        None
    }

    /// A narrowing cast: the tracked operand must fit the target width.
    #[verifier::rlimit(100)]
    #[verifier::loop_isolation(false)]
    fn step_cast(&mut self, ctx: &InstrContext) -> (r: Option<BoolTerm>)
        requires
            old(self).inv(),
            ctx.instruction == Instr::CastU8 || ctx.instruction == Instr::CastU16
                || ctx.instruction == Instr::CastU32 || ctx.instruction == Instr::CastU64
                || ctx.instruction == Instr::CastU128,
            old(self).stack@ == eff_stack(old(self).stack@, ctx.operands@),
        ensures
            final(self).inv(),
            final(self).args@ == old(self).args@,
            r matches Some(c) ==> bt_wf(c),
            step_post(*old(self), *final(self), *ctx, r),
    {
        let n = self.stack.len();
        let w: u32 = match ctx.instruction {
            Instr::CastU8 => 8,
            Instr::CastU16 => 16,
            Instr::CastU32 => 32,
            Instr::CastU64 => 64,
            _ => 128,
        };
        if n >= 1 {
            proof {
                assert(self.stack@[n - 1] == old(self).stack@.last());
                assert(stack_wf(old(self).stack@));
                assert(old(self).stack@.last().wf());
            }
            match &self.stack[n - 1] {
                SymbolValue::Value(t) => {
                    let ghost tv = it_view(*t);
                    let tc = t.clone();
                    let mx = max_u_bits(w);
                    let out = mk_cmp(Instr::Le, tc, mx);
                    proof {
                        assert(bt_view(out) == PredV::Le(
                            Box::new(tv),
                            Box::new(
                                TermV::Const(
                                    (vstd::arithmetic::power2::pow2(cast_width(ctx.instruction))
                                        - 1) as nat,
                                ),
                            ),
                        ));
                    }
                    Some(out)
                },
                SymbolValue::Unknown => None,
            }
        } else {
            None
        }
    }

    /// Ring arithmetic: combine the resolved operands into one node; a
    /// multiplication first runs the precision-loss detector.
    #[verifier::rlimit(100)]
    #[verifier::loop_isolation(false)]
    fn step_arith(&mut self, ctx: &InstrContext) -> (r: Option<BoolTerm>)
        requires
            old(self).inv(),
            ctx_ok(*old(self), *ctx),
            ctx.instruction == Instr::Add || ctx.instruction == Instr::Sub || ctx.instruction
                == Instr::Mul || ctx.instruction == Instr::Div || ctx.instruction == Instr::Mod,
            old(self).stack@ == eff_stack(old(self).stack@, ctx.operands@),
        ensures
            final(self).inv(),
            final(self).args@ == old(self).args@,
            step_post(*old(self), *final(self), *ctx, r),
    {
        let ghost s = old(self).stack@;
        let n = self.stack.len();
        let m = ctx.operands.len();
        if n < 2 {
            self.stack.clear();
            self.stack.push(SymbolValue::Unknown);
            proof {
                assert(self.stack@ =~= seq![SymbolValue::Unknown]);
            }
            return None;
        }
        let rhs = self.stack.pop().unwrap();
        let lhs = self.stack.pop().unwrap();
        proof {
            assert(self.stack@ =~= s.take(n - 2));
            assert(rhs == s[n - 1]);
            assert(lhs == s[n - 2]);
            assert(stack_wf(s));
            assert(s[n - 1].wf() && s[n - 2].wf());
        }
        match (lhs, rhs) {
            (SymbolValue::Value(a), SymbolValue::Value(b)) => {
                let ghost av = it_view(a);
                let ghost bv = it_view(b);
                if matches!(ctx.instruction, Instr::Mul) {
                    self.check_precision_loss(
                        ctx.module.as_str(),
                        ctx.function.as_str(),
                        ctx.pc,
                        &a,
                        &b,
                    );
                }
                let t = build_arith(ctx.instruction, a, b);
                self.stack.push(SymbolValue::Value(t));
                proof {
                    assert(self.stack@.take(n - 2) =~= s.take(n - 2));
                    assert(it_view(self.stack@.last()->Value_0) == arith_node(
                        ctx.instruction,
                        av,
                        bv,
                    ));
                }
            },
            (SymbolValue::Value(a), SymbolValue::Unknown) => {
                let ghost av = it_view(a);
                let b = resolve_value(&ctx.operands[m - 1]);
                let ghost bv = it_view(b);
                if matches!(ctx.instruction, Instr::Mul) {
                    self.check_precision_loss(
                        ctx.module.as_str(),
                        ctx.function.as_str(),
                        ctx.pc,
                        &a,
                        &b,
                    );
                }
                let t = build_arith(ctx.instruction, a, b);
                self.stack.push(SymbolValue::Value(t));
                proof {
                    assert(self.stack@.take(n - 2) =~= s.take(n - 2));
                    assert(it_view(self.stack@.last()->Value_0) == arith_node(
                        ctx.instruction,
                        av,
                        bv,
                    ));
                }
            },
            (SymbolValue::Unknown, SymbolValue::Value(b)) => {
                let a = resolve_value(&ctx.operands[m - 2]);
                let ghost av = it_view(a);
                let ghost bv = it_view(b);
                if matches!(ctx.instruction, Instr::Mul) {
                    self.check_precision_loss(
                        ctx.module.as_str(),
                        ctx.function.as_str(),
                        ctx.pc,
                        &a,
                        &b,
                    );
                }
                let t = build_arith(ctx.instruction, a, b);
                self.stack.push(SymbolValue::Value(t));
                proof {
                    assert(self.stack@.take(n - 2) =~= s.take(n - 2));
                    assert(it_view(self.stack@.last()->Value_0) == arith_node(
                        ctx.instruction,
                        av,
                        bv,
                    ));
                }
            },
            (SymbolValue::Unknown, SymbolValue::Unknown) => {
                self.stack.push(SymbolValue::Unknown);
                proof {
                    assert(self.stack@ =~= s.take(n - 2).push(SymbolValue::Unknown));
                }
            },
        }
        None
    }

    /// Bitwise operators against one known side, emulated over integers.
    #[verifier::rlimit(100)]
    #[verifier::loop_isolation(false)]
    fn step_bitwise(&mut self, ctx: &InstrContext) -> (r: Option<BoolTerm>)
        requires
            old(self).inv(),
            ctx_ok(*old(self), *ctx),
            ctx.instruction == Instr::And || ctx.instruction == Instr::BitAnd || ctx.instruction
                == Instr::Or || ctx.instruction == Instr::BitOr || ctx.instruction == Instr::Xor,
            old(self).stack@ == eff_stack(old(self).stack@, ctx.operands@),
        ensures
            final(self).inv(),
            final(self).args@ == old(self).args@,
            step_post(*old(self), *final(self), *ctx, r),
    {
        let ghost s = old(self).stack@;
        let n = self.stack.len();
        let m = ctx.operands.len();
        if n < 2 {
            self.stack.clear();
            self.stack.push(SymbolValue::Unknown);
            proof {
                assert(self.stack@ =~= seq![SymbolValue::Unknown]);
            }
            return None;
        }
        let rhs = self.stack.pop().unwrap();
        let lhs = self.stack.pop().unwrap();
        proof {
            assert(self.stack@ =~= s.take(n - 2));
            assert(rhs == s[n - 1]);
            assert(lhs == s[n - 2]);
            assert(stack_wf(s));
            assert(s[n - 1].wf() && s[n - 2].wf());
            assert(ctx.operands@[m - 2].width() >= 1);
        }
        let bw = value_bitwidth(&ctx.operands[m - 2]);
        match (lhs, rhs) {
            (SymbolValue::Value(a), SymbolValue::Unknown) => {
                let ghost av = it_view(a);
                let mask = value_to_u256(&ctx.operands[m - 1]);
                let t = match ctx.instruction {
                    Instr::And | Instr::BitAnd => int_bvand_const(&a, &mask, bw),
                    Instr::Or | Instr::BitOr => int_bvor_const(&a, &mask, bw),
                    _ => int_bvxor_const(&a, &mask, bw),
                };
                self.stack.push(SymbolValue::Value(t));
                proof {
                    assert(self.stack@.take(n - 2) =~= s.take(n - 2));
                    let w = ctx.operands@[m - 2].width();
                    assert forall|env: Map<u64, int>| #[trigger] eval_int(
                        it_view(self.stack@.last()->Value_0),
                        env,
                    ) == bv_apply(
                        ctx.instruction,
                        (eval_int(av, env) % (vstd::arithmetic::power2::pow2(w) as int)) as nat,
                        ctx.operands@[m - 1].as_nat() % vstd::arithmetic::power2::pow2(w),
                    ) by {
                        assert(eval_int(it_view(t), env) == bv_apply(
                            ctx.instruction,
                            (eval_int(av, env) % (vstd::arithmetic::power2::pow2(w) as int)) as nat,
                            mask.value() % vstd::arithmetic::power2::pow2(w),
                        ));
                    }
                }
            },
            (SymbolValue::Unknown, SymbolValue::Value(b)) => {
                let ghost bvv = it_view(b);
                let mask = value_to_u256(&ctx.operands[m - 2]);
                let t = match ctx.instruction {
                    Instr::And | Instr::BitAnd => int_bvand_const(&b, &mask, bw),
                    Instr::Or | Instr::BitOr => int_bvor_const(&b, &mask, bw),
                    _ => int_bvxor_const(&b, &mask, bw),
                };
                self.stack.push(SymbolValue::Value(t));
                proof {
                    assert(self.stack@.take(n - 2) =~= s.take(n - 2));
                    let w = ctx.operands@[m - 2].width();
                    assert forall|env: Map<u64, int>| #[trigger] eval_int(
                        it_view(self.stack@.last()->Value_0),
                        env,
                    ) == bv_apply(
                        ctx.instruction,
                        (eval_int(bvv, env) % (vstd::arithmetic::power2::pow2(w) as int)) as nat,
                        ctx.operands@[m - 2].as_nat() % vstd::arithmetic::power2::pow2(w),
                    ) by {
                        assert(eval_int(it_view(t), env) == bv_apply(
                            ctx.instruction,
                            (eval_int(bvv, env) % (vstd::arithmetic::power2::pow2(w) as int)) as nat,
                            mask.value() % vstd::arithmetic::power2::pow2(w),
                        ));
                    }
                }
            },
            _ => {
                self.stack.push(SymbolValue::Unknown);
                proof {
                    assert(self.stack@ =~= s.take(n - 2).push(SymbolValue::Unknown));
                }
            },
        }
        None
    }

    /// A left shift by a known amount: multiply and reduce, and return the
    /// overflow side constraint.
    #[verifier::rlimit(100)]
    #[verifier::loop_isolation(false)]
    fn step_shl(&mut self, ctx: &InstrContext) -> (r: Option<BoolTerm>)
        requires
            old(self).inv(),
            ctx_ok(*old(self), *ctx),
            ctx.instruction == Instr::Shl,
            old(self).stack@ == eff_stack(old(self).stack@, ctx.operands@),
        ensures
            final(self).inv(),
            final(self).args@ == old(self).args@,
            r matches Some(c) ==> bt_wf(c),
            step_post(*old(self), *final(self), *ctx, r),
    {
        let ghost s = old(self).stack@;
        let n = self.stack.len();
        let m = ctx.operands.len();
        if n < 2 {
            self.stack.clear();
            self.stack.push(SymbolValue::Unknown);
            proof {
                assert(self.stack@ =~= seq![SymbolValue::Unknown]);
            }
            return None;
        }
        let rhs = self.stack.pop().unwrap();
        let lhs = self.stack.pop().unwrap();
        proof {
            assert(self.stack@ =~= s.take(n - 2));
            assert(rhs == s[n - 1]);
            assert(lhs == s[n - 2]);
            assert(stack_wf(s));
            assert(s[n - 1].wf() && s[n - 2].wf());
            assert(ctx.operands@[m - 2].width() >= 1);
        }
        match (lhs, rhs) {
            (SymbolValue::Value(a), SymbolValue::Unknown) => {
                let ghost av = it_view(a);
                let sh = value_low_u32(&ctx.operands[m - 1]);
                let bw = value_bitwidth(&ctx.operands[m - 2]);
                let shl = mk_mul(a, mk_pow2(sh));
                let ghost shlv = it_view(shl);
                let shl_c = shl.clone();
                let shl_mod = mk_mod(shl, mk_pow2(bw));
                self.stack.push(SymbolValue::Value(shl_mod));
                let mx = max_u_bits(bw);
                let out = mk_cmp(Instr::Gt, shl_c, mx);
                proof {
                    assert(self.stack@.take(n - 2) =~= s.take(n - 2));
                    assert(shlv == TermV::Mul(Box::new(av), Box::new(TermV::Pow2(sh as nat))));
                    assert(it_view(self.stack@.last()->Value_0) == TermV::Mod(
                        Box::new(shlv),
                        Box::new(TermV::Pow2(bw as nat)),
                    ));
                    assert(bt_view(out) == PredV::Gt(
                        Box::new(shlv),
                        Box::new(
                            TermV::Const(
                                (vstd::arithmetic::power2::pow2(bw as nat) - 1) as nat,
                            ),
                        ),
                    ));
                }
                Some(out)
            },
            _ => {
                self.stack.push(SymbolValue::Unknown);
                proof {
                    assert(self.stack@ =~= s.take(n - 2).push(SymbolValue::Unknown));
                }
                None
            },
        }
    }

    /// A right shift by a known amount: divide by the power of two.
    #[verifier::rlimit(100)]
    #[verifier::loop_isolation(false)]
    fn step_shr(&mut self, ctx: &InstrContext) -> (r: Option<BoolTerm>)
        requires
            old(self).inv(),
            ctx_ok(*old(self), *ctx),
            ctx.instruction == Instr::Shr,
            old(self).stack@ == eff_stack(old(self).stack@, ctx.operands@),
        ensures
            final(self).inv(),
            final(self).args@ == old(self).args@,
            step_post(*old(self), *final(self), *ctx, r),
    {
        let ghost s = old(self).stack@;
        let n = self.stack.len();
        let m = ctx.operands.len();
        if n < 2 {
            self.stack.clear();
            self.stack.push(SymbolValue::Unknown);
            proof {
                assert(self.stack@ =~= seq![SymbolValue::Unknown]);
            }
            return None;
        }
        let rhs = self.stack.pop().unwrap();
        let lhs = self.stack.pop().unwrap();
        proof {
            assert(self.stack@ =~= s.take(n - 2));
            assert(rhs == s[n - 1]);
            assert(lhs == s[n - 2]);
            assert(stack_wf(s));
            assert(s[n - 1].wf() && s[n - 2].wf());
        }
        match (lhs, rhs) {
            (SymbolValue::Value(a), SymbolValue::Unknown) => {
                let ghost av = it_view(a);
                let sh = value_low_u32(&ctx.operands[m - 1]);
                let t = mk_div(a, mk_pow2(sh));
                self.stack.push(SymbolValue::Value(t));
                proof {
                    assert(self.stack@.take(n - 2) =~= s.take(n - 2));
                    assert(it_view(self.stack@.last()->Value_0) == TermV::Div(
                        Box::new(av),
                        Box::new(TermV::Pow2(sh as nat)),
                    ));
                }
            },
            _ => {
                self.stack.push(SymbolValue::Unknown);
                proof {
                    assert(self.stack@ =~= s.take(n - 2).push(SymbolValue::Unknown));
                }
            },
        }
        None
    }

    /// Logical or bitwise negation of the tracked top of stack.
    #[verifier::rlimit(100)]
    #[verifier::loop_isolation(false)]
    fn step_not(&mut self, ctx: &InstrContext) -> (r: Option<BoolTerm>)
        requires
            old(self).inv(),
            ctx_ok(*old(self), *ctx),
            ctx.instruction == Instr::Not,
            old(self).stack@ == eff_stack(old(self).stack@, ctx.operands@),
        ensures
            final(self).inv(),
            final(self).args@ == old(self).args@,
            step_post(*old(self), *final(self), *ctx, r),
    {
        let ghost s = old(self).stack@;
        let n = self.stack.len();
        let m = ctx.operands.len();
        if n >= 1 {
            let v = self.stack.pop().unwrap();
            proof {
                assert(self.stack@ =~= s.take(n - 1));
            }
            proof {
                assert(v == s[n - 1]);
                assert(stack_wf(s));
                assert(s[n - 1].wf());
            }
            match v {
                SymbolValue::Value(t0) => {
                    let ghost tv = it_view(t0);
                    proof {
                        assert(ctx.operands@[m - 1].width() >= 1);
                    }
                    let bw = value_bitwidth(&ctx.operands[m - 1]);
                    let t = int_bvnot(&t0, bw);
                    self.stack.push(SymbolValue::Value(t));
                    proof {
                        assert(self.stack@.take(n - 1) =~= s.take(n - 1));
                        let w = ctx.operands@[m - 1].width();
                        assert forall|env: Map<u64, int>| #[trigger] eval_int(
                            it_view(self.stack@.last()->Value_0),
                            env,
                        ) == crate::bitwise::bv_not(
                            (eval_int(tv, env) % (
                            vstd::arithmetic::power2::pow2(w) as int)) as nat,
                            w,
                        ) by {
                            assert(eval_int(it_view(t), env) == crate::bitwise::bv_not(
                                (eval_int(tv, env) % (
                                vstd::arithmetic::power2::pow2(w) as int)) as nat,
                                w,
                            ));
                        }
                    }
                },
                SymbolValue::Unknown => {
                    self.stack.push(SymbolValue::Unknown);
                    proof {
                        assert(self.stack@ =~= s.take(n - 1).push(SymbolValue::Unknown));
                    }
                },
            }
        }
        None
    }

    /// Reads and writes of locals.
    #[verifier::rlimit(100)]
    #[verifier::loop_isolation(false)]
    fn step_locals(&mut self, ctx: &InstrContext) -> (r: Option<BoolTerm>)
        requires
            old(self).inv(),
            ctx.instruction matches Instr::CopyLoc(_) || ctx.instruction matches
                Instr::MutBorrowLoc(_) || ctx.instruction matches Instr::ImmBorrowLoc(_)
                || ctx.instruction matches Instr::MoveLoc(_) || ctx.instruction matches
                Instr::StLoc(_),
            old(self).stack@ == eff_stack(old(self).stack@, ctx.operands@),
        ensures
            final(self).inv(),
            final(self).args@ == old(self).args@,
            step_post(*old(self), *final(self), *ctx, r),
    {
        let ghost s = old(self).stack@;
        let n = self.stack.len();
        match ctx.instruction {
            Instr::CopyLoc(idx) | Instr::MutBorrowLoc(idx) | Instr::ImmBorrowLoc(idx) => {
                let li = self.locals.len();
                if li > 0 && (idx as usize) < self.locals[li - 1].len() {
                    let v = self.locals[li - 1][idx as usize].clone();
                    self.stack.push(v);
                } else {
                    self.stack.push(SymbolValue::Unknown);
                }
                proof {
                    assert(self.stack@.take(n as int) =~= s);
                }
            },
            Instr::MoveLoc(idx) => {
                let li = self.locals.len();
                if li > 0 && (idx as usize) < self.locals[li - 1].len() {
                    let mut inner = self.locals.pop().unwrap();
                    let v = inner[idx as usize].clone();
                    inner.set(idx as usize, SymbolValue::Unknown);
                    self.locals.push(inner);
                    self.stack.push(v);
                    proof {
                        assert(self.locals@.take(li - 1) =~= old(self).locals@.take(li - 1));
                        assert(self.stack@.take(n as int) =~= s);
                        assert forall|a: int|
                            0 <= a < self.locals@.len() implies stack_wf(
                            (#[trigger] self.locals@[a])@,
                        ) by {
                            if a < li - 1 {
                                assert(self.locals@[a] == old(self).locals@[a]);
                                assert(stack_wf(old(self).locals@[a]@));
                            } else {
                                assert forall|q: int|
                                    0 <= q < self.locals@[a]@.len() implies (
                                #[trigger] self.locals@[a]@[q]).wf() by {
                                    if q != idx as int {
                                        assert(self.locals@[a]@[q] == old(self).locals@.last()@[q]);
                                        assert(stack_wf(old(self).locals@.last()@));
                                    }
                                }
                            }
                        }
                    }
                } else {
                    self.stack.push(SymbolValue::Unknown);
                    proof {
                        assert(self.stack@.take(n as int) =~= s);
                    }
                }
            },
            Instr::StLoc(idx) => {
                if n >= 1 {
                    let v = self.stack.pop().unwrap();
                    proof {
                        assert(self.stack@ =~= s.take(n - 1));
                        assert(v.wf()) by {
                            assert(stack_wf(s));
                        }
                    }
                    let li = self.locals.len();
                    if li > 0 {
                        let mut inner = self.locals.pop().unwrap();
                        proof {
                            assert(stack_wf(inner@)) by {
                                assert(inner@ == old(self).locals@.last()@);
                            }
                        }
                        if (idx as usize) < inner.len() {
                            inner.set(idx as usize, v);
                        } else {
                            while inner.len() < idx as usize
                                invariant
                                    old(self).locals@.last()@.len() <= inner@.len() <= idx as int,
                                    inner@.take(old(self).locals@.last()@.len() as int)
                                        == old(self).locals@.last()@,
                                    forall|j: int|
                                        old(self).locals@.last()@.len() <= j < inner@.len()
                                            ==> inner@[j] == SymbolValue::Unknown,
                                decreases idx as int - inner@.len(),
                            {
                                inner.push(SymbolValue::Unknown);
                            }
                            inner.push(v);
                        }
                        self.locals.push(inner);
                        proof {
                            assert(self.locals@.take(li - 1) =~= old(self).locals@.take(li - 1));
                            assert forall|a: int|
                                0 <= a < self.locals@.len() implies stack_wf(
                                (#[trigger] self.locals@[a])@,
                            ) by {
                                if a < li - 1 {
                                    assert(self.locals@[a] == old(self).locals@[a]);
                                    assert(stack_wf(old(self).locals@[a]@));
                                } else {
                                    assert forall|q: int|
                                        0 <= q < self.locals@[a]@.len() implies (
                                    #[trigger] self.locals@[a]@[q]).wf() by {
                                        let pre_len = old(self).locals@.last()@.len() as int;
                                        if q < pre_len && q != idx as int {
                                            assert(self.locals@[a]@[q] == old(
                                                self,
                                            ).locals@.last()@[q]);
                                            assert(stack_wf(old(self).locals@.last()@));
                                        }
                                    }
                                }
                            }
                        }
                    }
                }
            },
            _ => {},
        }
        None
    }

    /// Comparisons: pick the predicate matching the concrete outcome and
    /// push its indicator.
    #[verifier::rlimit(100)]
    #[verifier::loop_isolation(false)]
    fn step_cmp(&mut self, ctx: &InstrContext) -> (r: Option<BoolTerm>)
        requires
            old(self).inv(),
            ctx_ok(*old(self), *ctx),
            ctx.instruction == Instr::Eq || ctx.instruction == Instr::Neq || ctx.instruction
                == Instr::Lt || ctx.instruction == Instr::Le || ctx.instruction == Instr::Gt
                || ctx.instruction == Instr::Ge,
            old(self).stack@ == eff_stack(old(self).stack@, ctx.operands@),
        ensures
            final(self).inv(),
            final(self).args@ == old(self).args@,
            r matches Some(c) ==> bt_wf(c),
            step_post(*old(self), *final(self), *ctx, r),
    {
        let ghost s = old(self).stack@;
        let n = self.stack.len();
        let m = ctx.operands.len();
        let eqneq = matches!(ctx.instruction, Instr::Eq | Instr::Neq);
        self.check_bool_judgement(
            eqneq,
            ctx.module.as_str(),
            ctx.function.as_str(),
            ctx.pc,
            &ctx.operands,
        );
        if n < 2 {
            self.stack.clear();
            self.stack.push(SymbolValue::Unknown);
            proof {
                assert(self.stack@ =~= seq![SymbolValue::Unknown]);
            }
            return None;
        }
        let rhs = self.stack.pop().unwrap();
        let lhs = self.stack.pop().unwrap();
        proof {
            assert(self.stack@ =~= s.take(n - 2));
            assert(rhs == s[n - 1]);
            assert(lhs == s[n - 2]);
            assert(stack_wf(s));
            assert(s[n - 1].wf() && s[n - 2].wf());
        }
        match (lhs, rhs) {
            (SymbolValue::Unknown, SymbolValue::Unknown) => {
                self.stack.push(SymbolValue::Unknown);
                proof {
                    assert(self.stack@ =~= s.take(n - 2).push(SymbolValue::Unknown));
                }
                None
            },
            (lh, rh) => {
                let a = match lh {
                    SymbolValue::Value(t) => t,
                    SymbolValue::Unknown => resolve_value(&ctx.operands[m - 2]),
                };
                let b = match rh {
                    SymbolValue::Value(t) => t,
                    SymbolValue::Unknown => resolve_value(&ctx.operands[m - 1]),
                };
                let ghost av = it_view(a);
                let ghost bvv = it_view(b);
                let ord = compare_value(&ctx.operands[m - 2], &ctx.operands[m - 1]);
                let holds = match ctx.instruction {
                    Instr::Eq => matches!(ord, Order::Equal),
                    Instr::Neq => !matches!(ord, Order::Equal),
                    Instr::Lt => matches!(ord, Order::Less),
                    Instr::Le => !matches!(ord, Order::Greater),
                    Instr::Gt => matches!(ord, Order::Greater),
                    _ => !matches!(ord, Order::Less),
                };
                let base = mk_cmp(ctx.instruction, a, b);
                let cons = if holds {
                    base
                } else {
                    mk_not_b(base)
                };
                proof {
                    assert(bt_view(cons) == cmp_pred(
                        ctx.instruction,
                        av,
                        bvv,
                        ctx.operands@[m - 2].as_nat(),
                        ctx.operands@[m - 1].as_nat(),
                    ));
                }
                let cc = cons.clone();
                let ind = mk_indicator(cons);
                self.stack.push(SymbolValue::Value(ind));
                proof {
                    assert(self.stack@.take(n - 2) =~= s.take(n - 2));
                    assert(resolved_pair(
                        s[n - 2],
                        s[n - 1],
                        ctx.operands@[m - 2],
                        ctx.operands@[m - 1],
                    ) == Some((av, bvv)));
                }
                Some(cc)
            },
        }
    }

    /// Vector bookkeeping: packs, unpacks and swaps of vector elements.
    #[verifier::rlimit(100)]
    #[verifier::loop_isolation(false)]
    fn step_vec(&mut self, ctx: &InstrContext) -> (r: Option<BoolTerm>)
        requires
            old(self).inv(),
            ctx.instruction matches Instr::VecPack(_) || ctx.instruction matches
                Instr::VecUnpack(_) || ctx.instruction == Instr::VecSwap || ctx.instruction
                == Instr::WriteRef || ctx.instruction == Instr::VecPushBack,
            old(self).stack@ == eff_stack(old(self).stack@, ctx.operands@),
        ensures
            final(self).inv(),
            final(self).args@ == old(self).args@,
            step_post(*old(self), *final(self), *ctx, r),
    {
        let ghost s = old(self).stack@;
        let n = self.stack.len();
        match ctx.instruction {
            Instr::WriteRef | Instr::VecPushBack => {
                let _ = self.stack.pop();
                let _ = self.stack.pop();
                proof {
                    assert(self.stack@ =~= s.take(
                        if n >= 2 {
                            n - 2
                        } else {
                            0int
                        },
                    ));
                }
            },
            Instr::VecPack(len) => {
                let ghost k: int = if len as int <= n {
                    len as int
                } else {
                    n as int
                };
                let mut c: u64 = 0;
                while c < len && self.stack.len() > 0
                    invariant
                        c <= len as nat,
                        self.locals@ == old(self).locals@,
                        self.args@ == old(self).args@,
                        self.disable == old(self).disable,
                        self.runtime_issues@ == old(self).runtime_issues@,
                        self.branch_counts@ == old(self).branch_counts@,
                        self.stack@ == s.take(
                            n - (if c as int <= n {
                                c as int
                            } else {
                                n as int
                            }),
                        ),
                    decreases len - c,
                {
                    let _ = self.stack.pop();
                    c = c + 1;
                    proof {
                        assert(self.stack@ =~= s.take(
                            n - (if c as int <= n {
                                c as int
                            } else {
                                n as int
                            }),
                        ));
                    }
                }
                proof {
                    assert(self.stack@ =~= s.take(n - k));
                }
                self.stack.push(SymbolValue::Unknown);
            },
            Instr::VecUnpack(len) => {
                let _ = self.stack.pop();
                proof {
                    if n >= 1 {
                        assert(self.stack@ =~= s.take(n - 1));
                    }
                }
                let ghost s1 = self.stack@;
                let mut c: u64 = 0;
                while c < len
                    invariant
                        c <= len as nat,
                        self.locals@ == old(self).locals@,
                        self.args@ == old(self).args@,
                        self.disable == old(self).disable,
                        self.runtime_issues@ == old(self).runtime_issues@,
                        self.branch_counts@ == old(self).branch_counts@,
                        self.stack@ == s1 + Seq::new(c as nat, |z: int| SymbolValue::Unknown),
                    decreases len - c,
                {
                    proof {
                        assert(s1 + Seq::new((c + 1) as nat, |z: int| SymbolValue::Unknown)
                            =~= (s1 + Seq::new(c as nat, |z: int| SymbolValue::Unknown)).push(
                            SymbolValue::Unknown,
                        ));
                    }
                    self.stack.push(SymbolValue::Unknown);
                    c = c + 1;
                }
            },
            _ => {
                let _ = self.stack.pop();
                let _ = self.stack.pop();
                let _ = self.stack.pop();
                proof {
                    assert(self.stack@ =~= s.take(
                        n - (if 3 <= n {
                            3int
                        } else {
                            n as int
                        }),
                    ));
                }
            },
        }
        None
    }

    /// Aggregate packs: pop the reported field count, push one opaque slot.
    #[verifier::rlimit(100)]
    #[verifier::loop_isolation(false)]
    fn step_pack(&mut self, ctx: &InstrContext) -> (r: Option<BoolTerm>)
        requires
            old(self).inv(),
            ctx.instruction == Instr::Pack || ctx.instruction == Instr::PackGeneric
                || ctx.instruction == Instr::PackVariant || ctx.instruction
                == Instr::PackVariantGeneric,
            old(self).stack@ == eff_stack(old(self).stack@, ctx.operands@),
        ensures
            final(self).inv(),
            final(self).args@ == old(self).args@,
            step_post(*old(self), *final(self), *ctx, r),
    {
        let ghost s = old(self).stack@;
        let n = self.stack.len();
        let count_opt: Option<usize> = match (ctx.instruction, &ctx.extra) {
            (Instr::Pack, Some(ExtraInfo::Pack(c))) => Some(*c),
            (Instr::Pack, Some(ExtraInfo::PackGeneric(c))) => Some(*c),
            (Instr::PackGeneric, Some(ExtraInfo::Pack(c))) => Some(*c),
            (Instr::PackGeneric, Some(ExtraInfo::PackGeneric(c))) => Some(*c),
            (Instr::PackVariant, Some(ExtraInfo::PackVariant(c))) => Some(*c),
            (Instr::PackVariant, Some(ExtraInfo::PackVariantGeneric(c))) => Some(*c),
            (Instr::PackVariantGeneric, Some(ExtraInfo::PackVariant(c))) => Some(*c),
            (Instr::PackVariantGeneric, Some(ExtraInfo::PackVariantGeneric(c))) => Some(*c),
            _ => None,
        };
        match (count_opt, ctx.extra.is_none()) {
            (Some(cnt), _) => {
                let ghost k: int = if cnt as int <= n {
                    cnt as int
                } else {
                    n as int
                };
                let mut c: usize = 0;
                while c < cnt && self.stack.len() > 0
                    invariant
                        c <= cnt,
                        self.locals@ == old(self).locals@,
                        self.args@ == old(self).args@,
                        self.disable == old(self).disable,
                        self.runtime_issues@ == old(self).runtime_issues@,
                        self.branch_counts@ == old(self).branch_counts@,
                        self.stack@ == s.take(
                            n - (if c as int <= n {
                                c as int
                            } else {
                                n as int
                            }),
                        ),
                    decreases cnt - c,
                {
                    let _ = self.stack.pop();
                    c = c + 1;
                    proof {
                        assert(self.stack@ =~= s.take(
                            n - (if c as int <= n {
                                c as int
                            } else {
                                n as int
                            }),
                        ));
                    }
                }
                proof {
                    assert(self.stack@ =~= s.take(n - k));
                }
                self.stack.push(SymbolValue::Unknown);
            },
            (None, true) => {
                self.disable = true;
            },
            (None, false) => {},
        }
        None
    }

    /// Aggregate unpacks: pop the aggregate, push one opaque slot per
    /// reported field.
    #[verifier::rlimit(100)]
    #[verifier::loop_isolation(false)]
    fn step_unpack(&mut self, ctx: &InstrContext) -> (r: Option<BoolTerm>)
        requires
            old(self).inv(),
            ctx.instruction == Instr::Unpack || ctx.instruction == Instr::UnpackGeneric
                || ctx.instruction == Instr::UnpackVariant || ctx.instruction
                == Instr::UnpackVariantGeneric,
            old(self).stack@ == eff_stack(old(self).stack@, ctx.operands@),
        ensures
            final(self).inv(),
            final(self).args@ == old(self).args@,
            step_post(*old(self), *final(self), *ctx, r),
    {
        let ghost s = old(self).stack@;
        let n = self.stack.len();
        let _ = self.stack.pop();
        proof {
            if n >= 1 {
                assert(self.stack@ =~= s.take(n - 1));
            }
        }
        let count_opt: Option<usize> = match (ctx.instruction, &ctx.extra) {
            (Instr::Unpack, Some(ExtraInfo::Unpack(c))) => Some(*c),
            (Instr::Unpack, Some(ExtraInfo::UnpackGeneric(c))) => Some(*c),
            (Instr::UnpackGeneric, Some(ExtraInfo::Unpack(c))) => Some(*c),
            (Instr::UnpackGeneric, Some(ExtraInfo::UnpackGeneric(c))) => Some(*c),
            (Instr::UnpackVariant, Some(ExtraInfo::UnpackVariant(c))) => Some(*c),
            (Instr::UnpackVariant, Some(ExtraInfo::UnpackVariantGeneric(c))) => Some(*c),
            (Instr::UnpackVariantGeneric, Some(ExtraInfo::UnpackVariant(c))) => Some(*c),
            (Instr::UnpackVariantGeneric, Some(ExtraInfo::UnpackVariantGeneric(c))) => Some(*c),
            _ => None,
        };
        match (count_opt, ctx.extra.is_none()) {
            (Some(cnt), _) => {
                let ghost s1 = self.stack@;
                let mut c: usize = 0;
                while c < cnt
                    invariant
                        c <= cnt,
                        self.locals@ == old(self).locals@,
                        self.args@ == old(self).args@,
                        self.disable == old(self).disable,
                        self.runtime_issues@ == old(self).runtime_issues@,
                        self.branch_counts@ == old(self).branch_counts@,
                        self.stack@ == s1 + Seq::new(c as nat, |z: int| SymbolValue::Unknown),
                    decreases cnt - c,
                {
                    proof {
                        assert(s1 + Seq::new((c + 1) as nat, |z: int| SymbolValue::Unknown)
                            =~= (s1 + Seq::new(c as nat, |z: int| SymbolValue::Unknown)).push(
                            SymbolValue::Unknown,
                        ));
                    }
                    self.stack.push(SymbolValue::Unknown);
                    c = c + 1;
                }
            },
            (None, true) => {
                self.disable = true;
                proof {
                    assert(self.stack@ =~= self.stack@ + Seq::new(
                        0,
                        |z: int| SymbolValue::Unknown,
                    ));
                }
            },
            (None, false) => {
                proof {
                    assert(self.stack@ =~= self.stack@ + Seq::new(
                        0,
                        |z: int| SymbolValue::Unknown,
                    ));
                }
            },
        }
        None
    }

    /// One instruction is about to execute: mirror its stack effect, run
    /// the issue detectors, and hand back a side constraint where the
    /// instruction implies one (a cast bound, a shift overflow, or the
    /// branch of a comparison actually taken).
    ///
    /// A shadow stack whose length disagrees with the concrete operand
    /// stack resyncs to empty first; nothing here panics.
    #[verifier::rlimit(100)]
    pub fn before_instruction(&mut self, ctx: &InstrContext) -> (r: Option<BoolTerm>)
        requires
            old(self).inv(),
            ctx_ok(*old(self), *ctx),
        ensures
            final(self).inv(),
            final(self).args@ == old(self).args@,
            r matches Some(c) ==> bt_wf(c),
            step_post(*old(self), *final(self), *ctx, r),
    {
        if self.stack.len() != ctx.operands.len() {
            self.stack.clear();
        }
        proof {
            assert(self.stack@ == eff_stack(old(self).stack@, ctx.operands@));
            assert(eff_stack(self.stack@, ctx.operands@) == self.stack@);
        }
        let ghost mid = *self;
        let r = match ctx.instruction {
            Instr::Pop | Instr::Abort | Instr::VecImmBorrow | Instr::VecMutBorrow => self.step_pop(
                ctx,
            ),
            Instr::BrTrue | Instr::BrFalse => self.step_branch(ctx),
            Instr::LdU8 | Instr::LdU16 | Instr::LdU32 | Instr::LdU64 | Instr::LdU128
                | Instr::LdU256 | Instr::LdConst | Instr::LdFalse | Instr::LdTrue => self.step_load(
                ctx,
            ),
            Instr::CastU8 | Instr::CastU16 | Instr::CastU32 | Instr::CastU64 | Instr::CastU128 =>
                self.step_cast(ctx),
            Instr::Add | Instr::Sub | Instr::Mul | Instr::Div | Instr::Mod => self.step_arith(ctx),
            Instr::And | Instr::BitAnd | Instr::Or | Instr::BitOr | Instr::Xor => self.step_bitwise(
                ctx,
            ),
            Instr::Shl => self.step_shl(ctx),
            Instr::Shr => self.step_shr(ctx),
            Instr::Not => self.step_not(ctx),
            Instr::CopyLoc(_) | Instr::MutBorrowLoc(_) | Instr::ImmBorrowLoc(_) | Instr::MoveLoc(
                _,
            ) | Instr::StLoc(_) => self.step_locals(ctx),
            Instr::WriteRef | Instr::VecPushBack | Instr::VecPack(_) | Instr::VecUnpack(_)
                | Instr::VecSwap => self.step_vec(ctx),
            Instr::Eq | Instr::Neq | Instr::Lt | Instr::Le | Instr::Gt | Instr::Ge => self.step_cmp(
                ctx,
            ),
            Instr::Pack | Instr::PackGeneric | Instr::PackVariant | Instr::PackVariantGeneric =>
                self.step_pack(ctx),
            Instr::Unpack | Instr::UnpackGeneric | Instr::UnpackVariant
                | Instr::UnpackVariantGeneric => self.step_unpack(ctx),
            Instr::Other => None,
        };
        proof {
            assert(eff_stack(old(self).stack@, ctx.operands@) == eff_stack(
                mid.stack@,
                ctx.operands@,
            ));
            assert(step_post(mid, *self, *ctx, r) ==> step_post(*old(self), *self, *ctx, r));
        }
        r
    }
}


/// The tracer the virtual machine drives: a thin owner of the mirror
/// state, reset once per run.
#[derive(Debug)]
pub struct SymbolicMoveTracer {
    pub state: ConcolicState,
}

impl SymbolicMoveTracer {
    /// A fresh tracer.
    pub fn new() -> (r: SymbolicMoveTracer)
        ensures
            r.state.inv(),
            r.state.issues().len() == 0,
    {
        SymbolicMoveTracer { state: ConcolicState::new() }
    }

    /// The mirror state.
    pub fn state(&self) -> (r: &ConcolicState)
        ensures
            *r == self.state,
    {
        &self.state
    }

    /// The mirror state, for the tracer callbacks.
    pub fn state_mut(&mut self) -> (r: &mut ConcolicState)
        ensures
            *r == old(self).state,
            final(self).state == *final(r),
    {
        &mut self.state
    }

    /// Start a fresh run: drop all tracking.
    pub fn reset(&mut self)
        ensures
            final(self).state.inv(),
            final(self).state.issues().len() == 0,
            final(self).state.stack@.len() == 0,
            final(self).state.locals@.len() == 0,
            final(self).state.args@.len() == 0,
            final(self).state.sites().len() == 0,
            !final(self).state.disable,
    {
        self.state = ConcolicState::new();
    }

    /// Drain the issues found during the run.
    pub fn take_issues(&mut self) -> (r: Vec<RuntimeIssue>)
        requires
            old(self).state.inv(),
        ensures
            final(self).state.inv(),
            r@ == old(self).state.issues(),
            final(self).state.issues().len() == 0,
    {
        self.state.take_issues()
    }
}

} // verus!
