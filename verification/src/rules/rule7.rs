//! Rule 7: paired signals exclude each other. For each configured pair, a
//! routine is reported where both signals are set active along one path.
//!
//! The walk is sensitive to branches: what a branch of a conditional sets
//! holds inside that branch only, and a signal that is reset is idle again.
//! This is the rule as the report runs it.
//!
//! A flat scan stands beside it, rejected for the report but kept for
//! comparison: it asks only whether a routine sets each signal of a pair
//! active anywhere, whatever the branch and whatever follows. It is the
//! stricter of the two and the noisier: whatever the walk reports, the scan
//! reports too, and it also reports signals that are set in branches that
//! exclude each other.

use crate::ast::{
    Function, FunctionModel, lemma_stmts_view_step, Program, ProgramModel, Statement, StmtModel,
    stmts_view,
};
use crate::rules::{
    lemma_over_functions_step, outcome, over_functions, report, RuleResult, Violation, violation,
    ViolationModel, violations_view,
};
use crate::rules::policy::{pairs_view, Policy, PolicyModel};
use crate::rules::render::{is_true_expr, truthy};
use crate::text::{chars_of, push_str, same_text, upper, upper_of};
use vstd::prelude::*;

verus! {

/// What is known of a pair along one path: which of its two signals is
/// active, and whether the pair has been reported on this path.
pub struct PairState {
    pub first_active: bool,
    pub second_active: bool,
    pub reported: bool,
}

/// The state in which neither signal is active and nothing is reported.
pub open spec fn idle() -> PairState {
    PairState { first_active: false, second_active: false, reported: false }
}

/// The finding for a pair at a line.
pub open spec fn pair_violation(line: usize, pair: (Seq<char>, Seq<char>)) -> ViolationModel {
    ViolationModel {
        rule_no: 7,
        rule_name: "Validate paired inputs/outputs"@,
        line,
        reason: "Signals '"@ + pair.0 + "' and '"@ + pair.1
            + "' are active concurrently in the same logical path"@,
        suggestion: "Ensure paired signals are in mutually exclusive conditions."@,
    }
}

/// The state after an assignment to `target`: a signal of the pair, named
/// in any case, becomes active with a value that is true and idle with any
/// other value.
pub open spec fn after_assign(
    s: PairState,
    pair: (Seq<char>, Seq<char>),
    target: Seq<char>,
    active: bool,
) -> PairState {
    if upper(target) == upper(pair.0) {
        PairState {
            first_active: active,
            second_active: if upper(pair.0) == upper(pair.1) {
                active
            } else {
                s.second_active
            },
            ..s
        }
    } else if upper(target) == upper(pair.1) {
        PairState { second_active: active, ..s }
    } else {
        s
    }
}

/// The findings of one statement and the state after it. Once the pair has
/// been reported on a path, nothing more is looked at on that path. Each
/// branch of a conditional starts from the state before the conditional,
/// and what it changes is forgotten after it.
pub open spec fn pair_step(
    st: StmtModel,
    pair: (Seq<char>, Seq<char>),
    s: PairState) -> (Seq<ViolationModel>, PairState,
)
    decreases st,
{
    if s.reported {
        (Seq::empty(), s)
    } else {
        match st {
            StmtModel::Assign { target, value, line } => {
                let t = after_assign(s, pair, target, truthy(value));
                if t.first_active && t.second_active {
                    (seq![pair_violation(line, pair)], PairState { reported: true, ..t })
                } else {
                    (Seq::empty(), t)
                }
            },
            StmtModel::IfStmt { then_branch, else_branch, .. } => (
                pair_walk(then_branch, pair, s).0 + pair_walk(else_branch, pair, s).0,
                s,
            ),
            _ => (Seq::empty(), s),
        }
    }
}

/// The findings of a sequence of statements and the state after it.
pub open spec fn pair_walk(
    stmts: Seq<StmtModel>,
    pair: (Seq<char>, Seq<char>),
    s: PairState) -> (Seq<ViolationModel>, PairState,
)
    decreases stmts,
{
    if stmts.len() == 0 {
        (Seq::empty(), s)
    } else {
        let (found, t) = pair_walk(stmts.drop_last(), pair, s);
        let (more, u) = pair_step(stmts.last(), pair, t);
        (found + more, u)
    }
}

/// The findings for one routine: those of each pair, in the order of the
/// pairs, each pair starting idle.
pub open spec fn function_violations(
    f: FunctionModel,
    pairs: Seq<(Seq<char>, Seq<char>)>,
) -> Seq<ViolationModel>
    decreases pairs.len(),
{
    if pairs.len() == 0 {
        Seq::empty()
    } else {
        function_violations(f, pairs.drop_last()) + pair_walk(f.statements, pairs.last(), idle()).0
    }
}

/// The findings of the rule for a program under a policy.
pub open spec fn rule_violations(p: ProgramModel, policy: PolicyModel) -> Seq<ViolationModel> {
    over_functions(p.functions, |f: FunctionModel| function_violations(f, policy.pairs))
}

/// Without pairs, no routine has a finding.
pub proof fn lemma_no_pairs(functions: Seq<FunctionModel>, pairs: Seq<(Seq<char>, Seq<char>)>)
    requires
        pairs.len() == 0,
    ensures
        over_functions(functions, |f: FunctionModel| function_violations(f, pairs))
            == Seq::<ViolationModel>::empty(),
    decreases functions.len(),
{
    if functions.len() > 0 {
        lemma_no_pairs(functions.drop_last(), pairs);
    }
}

#[derive(Clone, Copy)]
struct Tracker {
    first_active: bool,
    second_active: bool,
    reported: bool,
}

impl View for Tracker {
    type V = PairState;

    closed spec fn view(&self) -> PairState {
        PairState {
            first_active: self.first_active,
            second_active: self.second_active,
            reported: self.reported,
        }
    }
}

fn find_concurrent_activations(
    stmts: &Vec<Statement>,
    pair: &[String; 2],
    state: Tracker,
    violations: &mut Vec<Violation>,
) -> (after: Tracker)
    ensures
        violations_view(final(violations)@) == violations_view(old(violations)@) + pair_walk(
            stmts_view(stmts@),
            (pair[0]@, pair[1]@),
            state@,
        ).0,
        after@ == pair_walk(stmts_view(stmts@), (pair[0]@, pair[1]@), state@).1,
    decreases stmts,
{
    let ghost sv = stmts_view(stmts@);
    let ghost names = (pair[0]@, pair[1]@);
    let first = upper_of(pair[0].as_str());
    let second = upper_of(pair[1].as_str());
    let mut s = state;
    let mut i: usize = 0;
    assert(violations_view(violations@) =~= violations_view(old(violations)@) + pair_walk(
        sv.take(0),
        names,
        state@,
    ).0);
    while i < stmts.len()
        invariant
            i <= stmts.len(),
            sv == stmts_view(stmts@),
            names == (pair[0]@, pair[1]@),
            first@ == upper(pair[0]@),
            second@ == upper(pair[1]@),
            violations_view(violations@) == violations_view(old(violations)@) + pair_walk(
                sv.take(i as int),
                names,
                state@,
            ).0,
            s@ == pair_walk(sv.take(i as int), names, state@).1,
        decreases stmts.len() - i,
    {
        proof {
            lemma_stmts_view_step(stmts@, i as int);
        }
        let ghost before = violations_view(violations@);
        let ghost prior = s@;
        if !s.reported {
            match &stmts[i] {
                Statement::Assign { target, value, line } => {
                    let target_up = upper_of(target.name.as_str());
                    let active = is_true_expr(value);
                    if same_text(&target_up, &first) {
                        s.first_active = active;
                        if same_text(&first, &second) {
                            s.second_active = active;
                        }
                    } else if same_text(&target_up, &second) {
                        s.second_active = active;
                    }
                    if s.first_active && s.second_active {
                        let mut reason = chars_of("Signals '");
                        push_str(&mut reason, pair[0].as_str());
                        push_str(&mut reason, "' and '");
                        push_str(&mut reason, pair[1].as_str());
                        push_str(
                            &mut reason,
                            "' are active concurrently in the same logical path",
                        );
                        report(
                            violations,
                            violation(
                                7,
                                "Validate paired inputs/outputs",
                                *line,
                                &reason,
                                "Ensure paired signals are in mutually exclusive conditions.",
                            ),
                        );
                        s.reported = true;
                    }
                },
                Statement::IfStmt { then_branch, else_branch, .. } => {
                    let _t = find_concurrent_activations(then_branch, pair, s, violations);
                    let _e = find_concurrent_activations(else_branch, pair, s, violations);
                },
                _ => {},
            }
        }
        assert(violations_view(violations@) =~= before + pair_step(
            stmts@[i as int]@,
            names,
            prior,
        ).0);
        assert(s@ == pair_step(stmts@[i as int]@, names, prior).1);
        i += 1;
        assert(violations_view(violations@) =~= violations_view(old(violations)@) + pair_walk(
            sv.take(i as int),
            names,
            state@,
        ).0);
    }
    proof {
        if stmts.len() > 0 {
            lemma_stmts_view_step(stmts@, 0);
        } else {
            assert(sv.take(0) =~= sv);
        }
    }
    s
}

/// Checks every routine of the program against every pair of the policy.
/// Without pairs the rule is followed.
pub fn check(program: &Program, policy: &Policy) -> (r: RuleResult)
    ensures
        r@ == outcome(rule_violations(program@, policy@)),
        policy@.pairs.len() == 0 ==> r@ == outcome(Seq::empty()),
{
    proof {
        if policy@.pairs.len() == 0 {
            lemma_no_pairs(program@.functions, policy@.pairs);
        }
    }
    let pairs = match &policy.pairs {
        Some(pairs) => pairs,
        None => {
            return RuleResult::ok(7, "Validate paired inputs/outputs");
        },
    };
    if pairs.len() == 0 {
        return RuleResult::ok(7, "Validate paired inputs/outputs");
    }
    let mut out: Vec<Violation> = Vec::new();
    let ghost per = |f: FunctionModel| function_violations(f, policy@.pairs);
    let mut i: usize = 0;
    while i < program.functions.len()
        invariant
            i <= program.functions.len(),
            policy@.pairs == pairs_view(pairs@),
            per == (|f: FunctionModel| function_violations(f, policy@.pairs)),
            violations_view(out@) == over_functions(program@.functions.take(i as int), per),
        decreases program.functions.len() - i,
    {
        proof {
            lemma_over_functions_step(program@.functions, per, i as int);
        }
        let f = &program.functions[i];
        let ghost before = violations_view(out@);
        let ghost all = pairs_view(pairs@);
        let mut k: usize = 0;
        assert(violations_view(out@) =~= before + function_violations(f@, all.take(0)));
        while k < pairs.len()
            invariant
                k <= pairs.len(),
                all == pairs_view(pairs@),
                violations_view(out@) == before + function_violations(f@, all.take(k as int)),
            decreases pairs.len() - k,
        {
            assert(all.take(k as int + 1).drop_last() =~= all.take(k as int));
            assert(all.take(k as int + 1).last() == (pairs@[k as int][0]@, pairs@[k as int][1]@));
            let start = Tracker { first_active: false, second_active: false, reported: false };
            let _s = find_concurrent_activations(&f.statements, &pairs[k], start, &mut out);
            k += 1;
            assert(violations_view(out@) =~= before + function_violations(f@, all.take(k as int)));
        }
        assert(all.take(pairs.len() as int) =~= all);
        i += 1;
    }
    assert(program@.functions.take(program.functions.len() as int) =~= program@.functions);
    RuleResult::violations(out)
}

/// The lines of the assignments, at any depth, that set the signal active.
/// The signal is given in upper case.
pub open spec fn activation_lines(stmts: Seq<StmtModel>, signal: Seq<char>) -> Seq<usize>
    decreases stmts,
{
    if stmts.len() == 0 {
        Seq::empty()
    } else {
        activation_lines(stmts.drop_last(), signal) + activation_lines_of(stmts.last(), signal)
    }
}

/// The lines of the assignments that one statement is or holds, and that
/// set the signal active.
pub open spec fn activation_lines_of(st: StmtModel, signal: Seq<char>) -> Seq<usize>
    decreases st,
{
    match st {
        StmtModel::Assign { target, value, line } => if upper(target) == signal && truthy(value) {
            seq![line]
        } else {
            Seq::empty()
        },
        StmtModel::IfStmt { then_branch, else_branch, .. } => activation_lines(then_branch, signal)
            + activation_lines(else_branch, signal),
        _ => Seq::empty(),
    }
}

/// The finding of the flat scan for a pair at a line.
pub open spec fn flat_violation(line: usize, pair: (Seq<char>, Seq<char>)) -> ViolationModel {
    ViolationModel {
        rule_no: 7,
        rule_name: "Validate paired inputs/outputs"@,
        line,
        reason: "Signals '"@ + pair.0 + "' and '"@ + pair.1 + "' may be active concurrently"@,
        suggestion: "Guard with mutually exclusive conditions or interlocks."@,
    }
}

/// The finding of the flat scan for one routine and one pair, if there is
/// one: the routine sets both signals active somewhere. The finding stands
/// at the earlier of the two first lines.
pub open spec fn flat_pair_violations(f: FunctionModel, pair: (Seq<char>, Seq<char>)) -> Seq<
    ViolationModel,
> {
    let first = activation_lines(f.statements, upper(pair.0));
    let second = activation_lines(f.statements, upper(pair.1));
    if first.len() > 0 && second.len() > 0 {
        seq![
            flat_violation(
                if first[0] <= second[0] {
                    first[0]
                } else {
                    second[0]
                },
                pair,
            ),
        ]
    } else {
        Seq::empty()
    }
}

/// The findings of the flat scan for one pair: those of the routines, in
/// order.
pub open spec fn flat_routines_violations(
    functions: Seq<FunctionModel>,
    pair: (Seq<char>, Seq<char>),
) -> Seq<ViolationModel>
    decreases functions.len(),
{
    if functions.len() == 0 {
        Seq::empty()
    } else {
        flat_routines_violations(functions.drop_last(), pair) + flat_pair_violations(
            functions.last(),
            pair,
        )
    }
}

/// The findings of the flat scan for a program under a policy: those of
/// each pair, in the order of the pairs.
pub open spec fn flat_violations(p: ProgramModel, pairs: Seq<(Seq<char>, Seq<char>)>) -> Seq<
    ViolationModel,
>
    decreases pairs.len(),
{
    if pairs.len() == 0 {
        Seq::empty()
    } else {
        flat_violations(p, pairs.drop_last()) + flat_routines_violations(p.functions, pairs.last())
    }
}

/// What the walk knows of a pair, it has from the state before or from an
/// assignment that the flat scan sees.
proof fn lemma_step_is_justified(st: StmtModel, pair: (Seq<char>, Seq<char>), s: PairState)
    ensures
        pair_step(st, pair, s).1.first_active ==> s.first_active || activation_lines_of(
            st,
            upper(pair.0),
        ).len() > 0,
        pair_step(st, pair, s).1.second_active ==> s.second_active || activation_lines_of(
            st,
            upper(pair.1),
        ).len() > 0,
        pair_step(st, pair, s).0.len() > 0 ==> (s.first_active || activation_lines_of(
            st,
            upper(pair.0),
        ).len() > 0) && (s.second_active || activation_lines_of(st, upper(pair.1)).len() > 0),
    decreases st,
{
    if !s.reported {
        match st {
            StmtModel::IfStmt { then_branch, else_branch, .. } => {
                lemma_walk_is_justified(then_branch, pair, s);
                lemma_walk_is_justified(else_branch, pair, s);
            },
            _ => {},
        }
    }
}

/// What the walk knows of a pair after a sequence of statements, it has
/// from the state before or from assignments that the flat scan sees.
proof fn lemma_walk_is_justified(stmts: Seq<StmtModel>, pair: (Seq<char>, Seq<char>), s: PairState)
    ensures
        pair_walk(stmts, pair, s).1.first_active ==> s.first_active || activation_lines(
            stmts,
            upper(pair.0),
        ).len() > 0,
        pair_walk(stmts, pair, s).1.second_active ==> s.second_active || activation_lines(
            stmts,
            upper(pair.1),
        ).len() > 0,
        pair_walk(stmts, pair, s).0.len() > 0 ==> (s.first_active || activation_lines(
            stmts,
            upper(pair.0),
        ).len() > 0) && (s.second_active || activation_lines(stmts, upper(pair.1)).len() > 0),
    decreases stmts,
{
    if stmts.len() > 0 {
        lemma_walk_is_justified(stmts.drop_last(), pair, s);
        let t = pair_walk(stmts.drop_last(), pair, s).1;
        lemma_step_is_justified(stmts.last(), pair, t);
    }
}

/// The flat scan is the stricter design: where the walk reports a pair in
/// a routine, the flat scan reports that pair in that routine.
pub proof fn lemma_flat_scan_is_stricter(f: FunctionModel, pair: (Seq<char>, Seq<char>))
    requires
        pair_walk(f.statements, pair, idle()).0.len() > 0,
    ensures
        flat_pair_violations(f, pair).len() == 1,
{
    lemma_walk_is_justified(f.statements, pair, idle());
}

/// Appends the lines of the assignments, at any depth, that set the signal
/// active.
pub fn collect_assigns(stmts: &Vec<Statement>, target_up: &Vec<char>, lines: &mut Vec<usize>)
    ensures
        final(lines)@ == old(lines)@ + activation_lines(stmts_view(stmts@), target_up@),
    decreases stmts,
{
    let ghost sv = stmts_view(stmts@);
    let mut i: usize = 0;
    assert(lines@ =~= old(lines)@ + activation_lines(sv.take(0), target_up@));
    while i < stmts.len()
        invariant
            i <= stmts.len(),
            sv == stmts_view(stmts@),
            lines@ == old(lines)@ + activation_lines(sv.take(i as int), target_up@),
        decreases stmts.len() - i,
    {
        proof {
            lemma_stmts_view_step(stmts@, i as int);
        }
        let ghost before = lines@;
        match &stmts[i] {
            Statement::Assign { target, value, line } => {
                if same_text(&upper_of(target.name.as_str()), target_up) && is_true_expr(value) {
                    lines.push(*line);
                }
            },
            Statement::IfStmt { then_branch, else_branch, .. } => {
                collect_assigns(then_branch, target_up, lines);
                collect_assigns(else_branch, target_up, lines);
            },
            _ => {},
        }
        assert(lines@ =~= before + activation_lines_of(stmts@[i as int]@, target_up@));
        i += 1;
        assert(lines@ =~= old(lines)@ + activation_lines(sv.take(i as int), target_up@));
    }
    proof {
        if stmts.len() > 0 {
            lemma_stmts_view_step(stmts@, 0);
        } else {
            assert(sv.take(0) =~= sv);
        }
    }
}

fn check_flat_pair(f: &Function, pair: &[String; 2], out: &mut Vec<Violation>)
    ensures
        violations_view(final(out)@) == violations_view(old(out)@) + flat_pair_violations(
            f@,
            (pair[0]@, pair[1]@),
        ),
{
    let mut first: Vec<usize> = Vec::new();
    let mut second: Vec<usize> = Vec::new();
    collect_assigns(&f.statements, &upper_of(pair[0].as_str()), &mut first);
    collect_assigns(&f.statements, &upper_of(pair[1].as_str()), &mut second);
    assert(first@ =~= activation_lines(f@.statements, upper(pair[0]@)));
    assert(second@ =~= activation_lines(f@.statements, upper(pair[1]@)));
    if first.len() > 0 && second.len() > 0 {
        let line = if first[0] <= second[0] {
            first[0]
        } else {
            second[0]
        };
        let mut reason = chars_of("Signals '");
        push_str(&mut reason, pair[0].as_str());
        push_str(&mut reason, "' and '");
        push_str(&mut reason, pair[1].as_str());
        push_str(&mut reason, "' may be active concurrently");
        report(
            out,
            violation(
                7,
                "Validate paired inputs/outputs",
                line,
                &reason,
                "Guard with mutually exclusive conditions or interlocks.",
            ),
        );
    }
    assert(violations_view(out@) =~= violations_view(old(out)@) + flat_pair_violations(
        f@,
        (pair[0]@, pair[1]@),
    ));
}

/// The flat scan: checks every pair of the policy against every routine of
/// the program, whatever the branches. Without pairs there is no finding.
pub fn check_flat(program: &Program, policy: &Policy) -> (r: RuleResult)
    ensures
        r@ == outcome(flat_violations(program@, policy@.pairs)),
{
    let mut out: Vec<Violation> = Vec::new();
    assert(violations_view(out@) =~= Seq::empty());
    let pairs = match &policy.pairs {
        Some(pairs) => pairs,
        None => {
            return RuleResult::violations(out);
        },
    };
    let ghost all = pairs_view(pairs@);
    let ghost fs = program@.functions;
    let mut k: usize = 0;
    assert(all.take(0) =~= Seq::empty());
    while k < pairs.len()
        invariant
            k <= pairs.len(),
            all == pairs_view(pairs@),
            fs == program@.functions,
            violations_view(out@) == flat_violations(program@, all.take(k as int)),
        decreases pairs.len() - k,
    {
        assert(all.take(k as int + 1).drop_last() =~= all.take(k as int));
        assert(all.take(k as int + 1).last() == (pairs@[k as int][0]@, pairs@[k as int][1]@));
        let ghost pair = (pairs@[k as int][0]@, pairs@[k as int][1]@);
        let ghost before = violations_view(out@);
        let mut i: usize = 0;
        assert(violations_view(out@) =~= before + flat_routines_violations(fs.take(0), pair));
        while i < program.functions.len()
            invariant
                i <= program.functions.len(),
                k < pairs.len(),
                fs == program@.functions,
                pair == (pairs@[k as int][0]@, pairs@[k as int][1]@),
                violations_view(out@) == before + flat_routines_violations(
                    fs.take(i as int),
                    pair,
                ),
            decreases program.functions.len() - i,
        {
            assert(fs.take(i as int + 1).drop_last() =~= fs.take(i as int));
            assert(fs.take(i as int + 1).last() == program.functions[i as int]@);
            check_flat_pair(&program.functions[i], &pairs[k], &mut out);
            i += 1;
            assert(violations_view(out@) =~= before + flat_routines_violations(
                fs.take(i as int),
                pair,
            ));
        }
        assert(fs.take(program.functions.len() as int) =~= fs);
        k += 1;
    }
    assert(all.take(pairs.len() as int) =~= all);
    RuleResult::violations(out)
}

} // verus!
