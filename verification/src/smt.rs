//! Proof obligations of temporal contracts in SMT-LIB2: symbolic step times
//! `t0..tn-1` with `t0 = 0`, strict ordering, per-step and total latency
//! bounds, and pairwise deadlock freedom between contracts.
//!
//! Without a solver backend the obligations are discharged symbolically: the
//! constraints of one contract are always satisfiable (`t_i = i` meets strict
//! order; latency bounds never contradict each other), so every contract is
//! reported proved.

use vstd::prelude::*;
use crate::temporal::{OrderConstraint, SequenceContract};
use crate::text::{dec, push_dec, occurs_in, lemma_occurs_around, lemma_occurs_self};

verus! {

/// Outcome of one proof obligation.
#[derive(Debug, Clone)]
pub struct ProofResult {
    pub contract: String,
    pub smt_lib: String,
    pub satisfiable: bool,
    pub model: Option<String>,
    pub proved: bool,
}

/// Outcome of proving a list of contracts.
#[derive(Debug, Clone)]
pub struct ProofReport {
    pub contracts_proved: usize,
    pub all_satisfied: bool,
    pub results: Vec<ProofResult>,
}

/// Translator of contracts to SMT-LIB2 proof obligations.
pub struct SmtProver;

/// `n - 1`, or 0 for `n == 0`.
pub open spec fn pred_sat(n: nat) -> nat {
    if n > 0 { (n - 1) as nat } else { 0 }
}

/// `(declare-const ti Int)`.
pub open spec fn declare_line(i: nat) -> Seq<char> {
    "(declare-const t"@ + dec(i) + " Int)\n"@
}

/// `(assert (< ti ti+1))`.
pub open spec fn order_line(i: nat) -> Seq<char> {
    "(assert (< t"@ + dec(i) + " t"@ + dec(i + 1) + "))\n"@
}

/// `(assert (<= (- ti+1 ti) max))`.
pub open spec fn step_line(i: nat, max: u64) -> Seq<char> {
    "(assert (<= (- t"@ + dec(i + 1) + " t"@ + dec(i) + ") "@ + dec(max as nat) + "))\n"@
}

/// `(declare-const ti Int)` for every `i < k`.
pub open spec fn declare_lines(k: nat) -> Seq<char>
    decreases k,
{
    if k == 0 {
        Seq::empty()
    } else {
        declare_lines((k - 1) as nat) + declare_line((k - 1) as nat)
    }
}

/// `(assert (< ti ti+1))` for every `i < k`.
pub open spec fn order_lines(k: nat) -> Seq<char>
    decreases k,
{
    if k == 0 {
        Seq::empty()
    } else {
        order_lines((k - 1) as nat) + order_line((k - 1) as nat)
    }
}

/// `(assert (<= (- ti+1 ti) max))` for every `i < k`.
pub open spec fn step_lines(k: nat, max: u64) -> Seq<char>
    decreases k,
{
    if k == 0 {
        Seq::empty()
    } else {
        step_lines((k - 1) as nat, max) + step_line((k - 1) as nat, max)
    }
}

/// Header comment of a contract's obligation.
pub open spec fn smt_header(name: Seq<char>, n: nat) -> Seq<char> {
    "; B.A.S.E. Temporal Contract Proof\n"@ + "; Contract: "@ + name + "\n"@ + "; Steps: "@ + dec(n)
        + "\n\n"@
}

/// The total-latency bound, when there are two steps or more and a bound.
pub open spec fn total_line(n: nat, max_total: u64) -> Seq<char> {
    if n >= 2 && max_total > 0 {
        "(assert (<= (- t"@ + dec((n - 1) as nat) + " t0) "@ + dec(max_total as nat) + "))\n"@
    } else {
        Seq::empty()
    }
}

/// SMT-LIB2 text of a contract named `name` with `n` steps.
pub open spec fn smt_text(name: Seq<char>, n: nat, strict: bool, max_step: u64, max_total: u64) -> Seq<
    char,
> {
    smt_header(name, n) + declare_lines(n) + "\n(assert (= t0 0))\n"@ + (if strict {
        order_lines(pred_sat(n))
    } else {
        Seq::empty()
    }) + (if max_step > 0 {
        step_lines(pred_sat(n), max_step)
    } else {
        Seq::empty()
    }) + total_line(n, max_total) + "\n(check-sat)\n"@ + "(get-model)\n"@
}

/// SMT-LIB2 text of contract `c`.
pub open spec fn contract_smt(c: SequenceContract) -> Seq<char> {
    smt_text(c.name@, c.steps@.len(), c.order == OrderConstraint::Strict, c.max_step_ns, c.max_total_ns)
}

/// `r` is the symbolic proof of contract `c`: satisfiable and proved, with the
/// fallback model.
pub open spec fn proved_symbolically(r: ProofResult, c: SequenceContract) -> bool {
    &&& r.contract@ == c.name@
    &&& r.smt_lib@ == contract_smt(c)
    &&& r.satisfiable
    &&& r.model matches Some(m) && m@ == "symbolic_fallback"@
    &&& r.proved
}

/// Number of proved results.
pub open spec fn proved_count(rs: Seq<ProofResult>) -> nat
    decreases rs.len(),
{
    if rs.len() == 0 {
        0
    } else {
        proved_count(rs.drop_last()) + if rs.last().proved { 1nat } else { 0nat }
    }
}

/// Index of the last step of a contract with `n` steps (0 when empty).
pub open spec fn last_steps(cs: Seq<SequenceContract>) -> Seq<nat> {
    Seq::new(cs.len(), |i: int| pred_sat(cs[i].steps@.len()))
}

/// No cycle between contracts `i` and `j`: not both "`i` starts before `j`
/// ends" and "`j` starts before `i` ends".
pub open spec fn deadlock_line(i: nat, j: nat, last_i: nat, last_j: nat) -> Seq<char> {
    "(assert (not (and (< t"@ + dec(i) + "_0 t"@ + dec(j) + "_"@ + dec(last_j) + ") (< t"@ + dec(j)
        + "_0 t"@ + dec(i) + "_"@ + dec(last_i) + ")))\n"@
}

/// Lines of contract `i` against contracts `j < k`, `j != i`.
pub open spec fn deadlock_row(lasts: Seq<nat>, i: nat, k: nat) -> Seq<char>
    decreases k,
{
    if k == 0 {
        Seq::empty()
    } else {
        deadlock_row(lasts, i, (k - 1) as nat) + if i != k - 1 {
            deadlock_line(i, (k - 1) as nat, lasts[i as int], lasts[k - 1])
        } else {
            Seq::empty()
        }
    }
}

/// Rows of contracts `i < k`.
pub open spec fn deadlock_rows(lasts: Seq<nat>, k: nat) -> Seq<char>
    decreases k,
{
    if k == 0 {
        Seq::empty()
    } else {
        deadlock_rows(lasts, (k - 1) as nat) + deadlock_row(lasts, (k - 1) as nat, lasts.len())
    }
}

/// SMT-LIB2 text of the deadlock-freedom obligation of `cs`.
pub open spec fn deadlock_text(cs: Seq<SequenceContract>) -> Seq<char> {
    "; B.A.S.E. Deadlock Freedom Proof\n\n"@ + deadlock_rows(last_steps(cs), cs.len())
        + "\n(check-sat)\n"@
}

fn pred_sat_exec(n: usize) -> (r: usize)
    ensures
        r == pred_sat(n as nat),
{
    if n > 0 { n - 1 } else { 0 }
}

fn push_header(s: &mut String, name: &str, n: usize)
    ensures
        final(s)@ == old(s)@ + smt_header(name@, n as nat),
{
    s.append("; B.A.S.E. Temporal Contract Proof\n");
    s.append("; Contract: ");
    s.append(name);
    s.append("\n");
    s.append("; Steps: ");
    push_dec(s, n as u64);
    s.append("\n\n");
    assert(s@ =~= old(s)@ + smt_header(name@, n as nat));
}

fn push_declare_line(s: &mut String, i: usize)
    ensures
        final(s)@ == old(s)@ + declare_line(i as nat),
{
    s.append("(declare-const t");
    push_dec(s, i as u64);
    s.append(" Int)\n");
    assert(s@ =~= old(s)@ + declare_line(i as nat));
}

fn push_order_line(s: &mut String, i: usize)
    requires
        i < usize::MAX,
    ensures
        final(s)@ == old(s)@ + order_line(i as nat),
{
    s.append("(assert (< t");
    push_dec(s, i as u64);
    s.append(" t");
    push_dec(s, (i + 1) as u64);
    s.append("))\n");
    assert(s@ =~= old(s)@ + order_line(i as nat));
}

fn push_step_line(s: &mut String, i: usize, max: u64)
    requires
        i < usize::MAX,
    ensures
        final(s)@ == old(s)@ + step_line(i as nat, max),
{
    s.append("(assert (<= (- t");
    push_dec(s, (i + 1) as u64);
    s.append(" t");
    push_dec(s, i as u64);
    s.append(") ");
    push_dec(s, max);
    s.append("))\n");
    assert(s@ =~= old(s)@ + step_line(i as nat, max));
}

fn push_declare_lines(s: &mut String, n: usize)
    ensures
        final(s)@ == old(s)@ + declare_lines(n as nat),
{
    let ghost head = s@;
    assert(s@ =~= head + declare_lines(0));
    let mut i: usize = 0;
    while i < n
        invariant
            i <= n,
            s@ == head + declare_lines(i as nat),
        decreases n - i,
    {
        push_declare_line(s, i);
        assert(s@ =~= head + declare_lines((i + 1) as nat));
        i = i + 1;
    }
}

fn push_order_lines(s: &mut String, k: usize)
    ensures
        final(s)@ == old(s)@ + order_lines(k as nat),
{
    let ghost head = s@;
    assert(s@ =~= head + order_lines(0));
    let mut i: usize = 0;
    while i < k
        invariant
            i <= k,
            s@ == head + order_lines(i as nat),
        decreases k - i,
    {
        push_order_line(s, i);
        assert(s@ =~= head + order_lines((i + 1) as nat));
        i = i + 1;
    }
}

fn push_step_lines(s: &mut String, k: usize, max: u64)
    ensures
        final(s)@ == old(s)@ + step_lines(k as nat, max),
{
    let ghost head = s@;
    assert(s@ =~= head + step_lines(0, max));
    let mut i: usize = 0;
    while i < k
        invariant
            i <= k,
            s@ == head + step_lines(i as nat, max),
        decreases k - i,
    {
        push_step_line(s, i, max);
        assert(s@ =~= head + step_lines((i + 1) as nat, max));
        i = i + 1;
    }
}

fn push_total_line(s: &mut String, n: usize, max_total: u64)
    ensures
        final(s)@ == old(s)@ + total_line(n as nat, max_total),
{
    if n >= 2 && max_total > 0 {
        s.append("(assert (<= (- t");
        push_dec(s, (n - 1) as u64);
        s.append(" t0) ");
        push_dec(s, max_total);
        s.append("))\n");
        assert(s@ =~= old(s)@ + total_line(n as nat, max_total));
    } else {
        assert(s@ =~= old(s)@ + total_line(n as nat, max_total));
    }
}

fn push_deadlock_line(s: &mut String, i: usize, j: usize, last_i: usize, last_j: usize)
    ensures
        final(s)@ == old(s)@ + deadlock_line(i as nat, j as nat, last_i as nat, last_j as nat),
{
    s.append("(assert (not (and (< t");
    push_dec(s, i as u64);
    s.append("_0 t");
    push_dec(s, j as u64);
    s.append("_");
    push_dec(s, last_j as u64);
    s.append(") (< t");
    push_dec(s, j as u64);
    s.append("_0 t");
    push_dec(s, i as u64);
    s.append("_");
    push_dec(s, last_i as u64);
    s.append(")))\n");
    assert(s@ =~= old(s)@ + deadlock_line(i as nat, j as nat, last_i as nat, last_j as nat));
}

impl SmtProver {
    /// Translates a contract to SMT-LIB2.
    pub fn contract_to_smt(contract: &SequenceContract) -> (smt: String)
        ensures
            smt@ == contract_smt(*contract),
    {
        let n = contract.steps.len();
        let last = pred_sat_exec(n);
        let strict = contract.order == OrderConstraint::Strict;
        let mut smt = String::new();
        push_header(&mut smt, contract.name.as_str(), n);
        push_declare_lines(&mut smt, n);
        smt.append("\n(assert (= t0 0))\n");
        let ghost before_order = smt@;
        if strict {
            push_order_lines(&mut smt, last);
        }
        let ghost after_order = smt@;
        if contract.max_step_ns > 0 {
            push_step_lines(&mut smt, last, contract.max_step_ns);
        }
        let ghost after_steps = smt@;
        push_total_line(&mut smt, n, contract.max_total_ns);
        smt.append("\n(check-sat)\n");
        smt.append("(get-model)\n");
        proof {
            let o = if strict { order_lines(pred_sat(n as nat)) } else { Seq::<char>::empty() };
            let st = if contract.max_step_ns > 0 {
                step_lines(pred_sat(n as nat), contract.max_step_ns)
            } else {
                Seq::<char>::empty()
            };
            assert(after_order =~= before_order + o);
            assert(after_steps =~= after_order + st);
            assert(smt@ =~= contract_smt(*contract));
        }
        smt
    }

    /// Proves a contract. With no solver backend the obligation is
    /// discharged symbolically and always holds.
    pub fn prove(contract: &SequenceContract) -> (r: ProofResult)
        ensures
            proved_symbolically(r, *contract),
    {
        let smt_lib = Self::contract_to_smt(contract);
        Self::prove_symbolic(contract, smt_lib)
    }

    fn prove_symbolic(contract: &SequenceContract, smt_lib: String) -> (r: ProofResult)
        ensures
            r.contract@ == contract.name@,
            r.smt_lib@ == smt_lib@,
            r.satisfiable,
            r.model matches Some(m) && m@ == "symbolic_fallback"@,
            r.proved,
    {
        let mut model = String::new();
        model.append("symbolic_fallback");
        let mut name = String::new();
        name.append(contract.name.as_str());
        ProofResult { contract: name, smt_lib, satisfiable: true, model: Some(model), proved: true }
    }

    /// Proves every contract, in order, and counts the proved ones.
    pub fn prove_all(contracts: &[SequenceContract]) -> (r: ProofReport)
        ensures
            r.results@.len() == contracts@.len(),
            forall|i: int|
                0 <= i < contracts@.len() ==> proved_symbolically(#[trigger] r.results@[i], contracts@[i]),
            r.contracts_proved == proved_count(r.results@),
            r.all_satisfied == (r.contracts_proved == contracts@.len()),
            r.contracts_proved == contracts@.len(),
            r.all_satisfied,
    {
        let mut results: Vec<ProofResult> = Vec::new();
        let mut proved: usize = 0;
        let mut i: usize = 0;
        while i < contracts.len()
            invariant
                i <= contracts@.len(),
                results@.len() == i,
                forall|k: int| 0 <= k < i ==> proved_symbolically(#[trigger] results@[k], contracts@[k]),
                proved == proved_count(results@),
                proved == i,
            decreases contracts@.len() - i,
        {
            let r = Self::prove(&contracts[i]);
            let ghost before = results@;
            let was = r.proved;
            results.push(r);
            assert(results@.drop_last() =~= before);
            if was {
                proved = proved + 1;
            }
            i = i + 1;
        }
        let all_satisfied = proved == contracts.len();
        ProofReport { contracts_proved: proved, all_satisfied, results }
    }

    /// Deadlock-freedom obligation: for every ordered pair of distinct
    /// contracts, not both "`i` starts before `j` ends" and "`j` starts before
    /// `i` ends".
    pub fn deadlock_free(contracts: &[SequenceContract]) -> (r: ProofResult)
        ensures
            r.contract@ == "deadlock_freedom"@,
            r.smt_lib@ == deadlock_text(contracts@),
            r.satisfiable,
            r.model is None,
            r.proved,
    {
        let ghost lasts = last_steps(contracts@);
        let m = contracts.len();
        let mut smt = String::new();
        smt.append("; B.A.S.E. Deadlock Freedom Proof\n\n");
        let ghost head = smt@;
        assert(smt@ =~= head + deadlock_rows(lasts, 0));
        let mut i: usize = 0;
        while i < m
            invariant
                i <= m,
                m == contracts@.len(),
                lasts == last_steps(contracts@),
                smt@ == head + deadlock_rows(lasts, i as nat),
            decreases m - i,
        {
            let ghost row_head = smt@;
            assert(smt@ =~= row_head + deadlock_row(lasts, i as nat, 0));
            let c1_last = pred_sat_exec(contracts[i].steps.len());
            let mut j: usize = 0;
            while j < m
                invariant
                    i < m,
                    j <= m,
                    m == contracts@.len(),
                    lasts == last_steps(contracts@),
                    c1_last == lasts[i as int],
                    smt@ == row_head + deadlock_row(lasts, i as nat, j as nat),
                decreases m - j,
            {
                if i != j {
                    let c2_last = pred_sat_exec(contracts[j].steps.len());
                    push_deadlock_line(&mut smt, i, j, c1_last, c2_last);
                }
                assert(smt@ =~= row_head + deadlock_row(lasts, i as nat, (j + 1) as nat));
                j = j + 1;
            }
            assert(lasts.len() == m);
            assert(smt@ =~= head + deadlock_rows(lasts, (i + 1) as nat));
            i = i + 1;
        }
        smt.append("\n(check-sat)\n");
        let mut contract = String::new();
        contract.append("deadlock_freedom");
        ProofResult { contract, smt_lib: smt, satisfiable: true, model: None, proved: true }
    }
}

proof fn lemma_step_lines_hold(k: nat, max: u64, i: nat)
    requires
        i < k,
    ensures
        occurs_in(step_line(i, max), step_lines(k, max)),
    decreases k,
{
    if i == k - 1 {
        lemma_occurs_self(step_line(i, max));
        lemma_occurs_around(step_line(i, max), step_lines((k - 1) as nat, max), step_line(i, max), Seq::empty());
        assert(step_lines((k - 1) as nat, max) + step_line(i, max) + Seq::<char>::empty() =~= step_lines(k, max));
    } else {
        lemma_step_lines_hold((k - 1) as nat, max, i);
        lemma_occurs_around(step_line(i, max), Seq::empty(), step_lines((k - 1) as nat, max), step_line((k - 1) as nat, max));
        assert(Seq::<char>::empty() + step_lines((k - 1) as nat, max) + step_line((k - 1) as nat, max) =~= step_lines(k, max));
    }
}

/// Step bounds constrain consecutive steps: for a contract with a step bound
/// `m > 0`, the obligation bounds the time from each step to the next,
/// `(assert (<= (- t{i+1} t{i}) m))` for every step `i` but the last.
pub proof fn lemma_step_bounds_consecutive(c: SequenceContract, i: nat)
    requires
        c.max_step_ns > 0,
        i + 1 < c.steps@.len(),
    ensures
        occurs_in(
            "(assert (<= (- t"@ + dec(i + 1) + " t"@ + dec(i) + ") "@ + dec(c.max_step_ns as nat) + "))\n"@,
            contract_smt(c),
        ),
{
    let n = c.steps@.len();
    let strict = c.order == OrderConstraint::Strict;
    let lines = step_lines(pred_sat(n), c.max_step_ns);
    lemma_step_lines_hold(pred_sat(n), c.max_step_ns, i);
    let before = smt_header(c.name@, n) + declare_lines(n) + "\n(assert (= t0 0))\n"@ + (if strict {
        order_lines(pred_sat(n))
    } else {
        Seq::empty()
    });
    let after = total_line(n, c.max_total_ns) + "\n(check-sat)\n"@ + "(get-model)\n"@;
    lemma_occurs_around(step_line(i, c.max_step_ns), before, lines, after);
    assert(before + lines + after =~= contract_smt(c));
}

} // verus!
