//! Rule 10: memory areas are written as the policy allows. An assignment
//! to an address inside a read-only area is reported.

use crate::ast::{
    flatten, flattened, FunctionModel, lemma_stmts_view_step, Program, ProgramModel, Statement,
    StmtModel, stmts_view,
};
use crate::rules::{
    lemma_over_functions_step, outcome, over_functions, report, RuleResult, Violation, violation,
    ViolationModel, violations_view,
};
use crate::rules::policy::{
    area_holds, areas_view, MemoryArea, MemoryAreaModel, Policy, PolicyModel,
};
use crate::text::{
    chars_of, decimal_text, is_digit, is_digit_char, is_letter, is_letter_char, lower, parse_i64,
    parse_number, push_all, push_i64, same_text, string_of, to_lower,
};
use vstd::prelude::*;

verus! {

/// The letters and the digits of a symbolic address, gathered from
/// position `i` on: letters join the tag, which begins with `%`; digits join
/// the number; any other character ends the address once a digit has been
/// seen.
pub open spec fn address_scan(
    s: Seq<char>,
    i: int,
    tag: Seq<char>,
    digits: Seq<char>,
) -> (Seq<char>, Seq<char>)
    decreases s.len() - i,
{
    if 0 <= i < s.len() {
        let c = s[i];
        if is_letter(c) {
            address_scan(
                s,
                i + 1,
                (if tag.len() == 0 {
                    seq!['%']
                } else {
                    tag
                }).push(c),
                digits,
            )
        } else if is_digit(c) {
            address_scan(s, i + 1, tag, digits.push(c))
        } else if digits.len() > 0 {
            (tag, digits)
        } else {
            address_scan(s, i + 1, tag, digits)
        }
    } else {
        (tag, digits)
    }
}

/// The symbolic address that a name writes: `%`, then the letters of the
/// area and the digits of the number. A name that does not begin with `%`,
/// or lacks letters or digits, or whose digits write no number of 64 bits,
/// is no address.
pub open spec fn mem_address(s: Seq<char>) -> Option<(Seq<char>, i64)> {
    if s.len() > 0 && s[0] == '%' {
        let (tag, digits) = address_scan(s, 1, Seq::empty(), Seq::empty());
        if tag.len() > 1 && digits.len() > 0 {
            match parse_i64(digits) {
                Some(n) => Some((tag, n)),
                None => None,
            }
        } else {
            None
        }
    } else {
        None
    }
}

/// The symbolic address that a name writes, if it writes one.
pub fn parse_mem_address(s: &str) -> (r: Option<(String, i64)>)
    ensures
        match r {
            Some((tag, n)) => mem_address(s@) == Some((tag@, n)),
            None => mem_address(s@) is None,
        },
{
    let text = chars_of(s);
    if text.len() == 0 || text[0] != '%' {
        return None;
    }
    let mut tag: Vec<char> = Vec::new();
    let mut digits: Vec<char> = Vec::new();
    let mut i: usize = 1;
    let mut ended = false;
    while i < text.len() && !ended
        invariant
            1 <= i <= text.len(),
            address_scan(text@, 1, Seq::empty(), Seq::empty()) == (if ended {
                (tag@, digits@)
            } else {
                address_scan(text@, i as int, tag@, digits@)
            }),
        decreases text.len() - i,
    {
        let c = text[i];
        if is_letter_char(c) {
            if tag.len() == 0 {
                tag.push('%');
                assert(tag@ =~= seq!['%']);
            }
            tag.push(c);
        } else if is_digit_char(c) {
            digits.push(c);
        } else if digits.len() > 0 {
            ended = true;
        }
        i += 1;
    }
    if tag.len() > 1 && digits.len() > 0 {
        match parse_number(&digits) {
            Some(n) => Some((string_of(&tag), n)),
            None => None,
        }
    } else {
        None
    }
}

/// Whether an area is read-only: its access is `ReadOnly`, in any case.
pub open spec fn is_read_only(area: MemoryAreaModel) -> bool {
    lower(area.access) == "readonly"@
}

/// The finding for a write to the given address.
pub open spec fn write_violation(line: usize, tag: Seq<char>, number: i64) -> ViolationModel {
    ViolationModel {
        rule_no: 10,
        rule_name: "Assign designated register blocks"@,
        line,
        reason: "Write to read-only region "@ + tag + decimal_text(number as int),
        suggestion: "Move this write to an allowed area or update policy.json"@,
    }
}

/// The findings for one write: one for each read-only area that holds the
/// address, in the order of the areas.
pub open spec fn write_violations(
    areas: Seq<MemoryAreaModel>,
    line: usize,
    tag: Seq<char>,
    number: i64,
) -> Seq<ViolationModel>
    decreases areas.len(),
{
    if areas.len() == 0 {
        Seq::empty()
    } else {
        write_violations(areas.drop_last(), line, tag, number) + (if is_read_only(areas.last())
            && area_holds(areas.last(), tag, number) {
            seq![write_violation(line, tag, number)]
        } else {
            Seq::empty()
        })
    }
}

/// The findings of one statement: those of an assignment whose target is
/// a symbolic address.
pub open spec fn stmt_violations(
    st: StmtModel,
    areas: Seq<MemoryAreaModel>,
) -> Seq<ViolationModel> {
    match st {
        StmtModel::Assign { target, line, .. } => match mem_address(target) {
            Some((tag, number)) => write_violations(areas, line, tag, number),
            None => Seq::empty(),
        },
        _ => Seq::empty(),
    }
}

/// The findings of a sequence of statements, each taken as it stands.
pub open spec fn body_violations(
    stmts: Seq<StmtModel>,
    areas: Seq<MemoryAreaModel>,
) -> Seq<ViolationModel>
    decreases stmts.len(),
{
    if stmts.len() == 0 {
        Seq::empty()
    } else {
        body_violations(stmts.drop_last(), areas) + stmt_violations(stmts.last(), areas)
    }
}

/// The findings of the rule for a program under a policy: those of the
/// statements of its routines, at every depth.
pub open spec fn rule_violations(p: ProgramModel, policy: PolicyModel) -> Seq<ViolationModel> {
    over_functions(
        p.functions,
        |f: FunctionModel| body_violations(flattened(f.statements), policy.memory_areas),
    )
}

/// Without areas, no write has a finding.
pub proof fn lemma_no_areas_body(stmts: Seq<StmtModel>, areas: Seq<MemoryAreaModel>)
    requires
        areas.len() == 0,
    ensures
        body_violations(stmts, areas) == Seq::<ViolationModel>::empty(),
    decreases stmts.len(),
{
    if stmts.len() > 0 {
        lemma_no_areas_body(stmts.drop_last(), areas);
    }
}

/// Without areas, no routine has a finding.
pub proof fn lemma_no_areas(functions: Seq<FunctionModel>, areas: Seq<MemoryAreaModel>)
    requires
        areas.len() == 0,
    ensures
        over_functions(
            functions,
            |f: FunctionModel| body_violations(flattened(f.statements), areas),
        ) == Seq::<ViolationModel>::empty(),
    decreases functions.len(),
{
    if functions.len() > 0 {
        lemma_no_areas(functions.drop_last(), areas);
        lemma_no_areas_body(flattened(functions.last().statements), areas);
    }
}

fn check_write(
    areas: &Vec<MemoryArea>,
    line: usize,
    tag: &String,
    number: i64,
    out: &mut Vec<Violation>,
)
    ensures
        violations_view(final(out)@) == violations_view(old(out)@) + write_violations(
            areas_view(areas@),
            line,
            tag@,
            number,
        ),
{
    let ghost all = areas_view(areas@);
    let read_only = chars_of("readonly");
    let mut k: usize = 0;
    assert(violations_view(out@) =~= violations_view(old(out)@) + write_violations(
        all.take(0),
        line,
        tag@,
        number,
    ));
    while k < areas.len()
        invariant
            k <= areas.len(),
            all == areas_view(areas@),
            read_only@ == "readonly"@,
            violations_view(out@) == violations_view(old(out)@) + write_violations(
                all.take(k as int),
                line,
                tag@,
                number,
            ),
        decreases areas.len() - k,
    {
        assert(all.take(k as int + 1).drop_last() =~= all.take(k as int));
        assert(all.take(k as int + 1).last() == areas@[k as int]@);
        let area = &areas[k];
        let access = to_lower(&chars_of(area.access.as_str()));
        if same_text(&access, &read_only) && area.applies(tag.as_str(), number) {
            let mut reason = chars_of("Write to read-only region ");
            push_all(&mut reason, &chars_of(tag.as_str()));
            push_i64(&mut reason, number);
            report(
                out,
                violation(
                    10,
                    "Assign designated register blocks",
                    line,
                    &reason,
                    "Move this write to an allowed area or update policy.json",
                ),
            );
        }
        k += 1;
        assert(violations_view(out@) =~= violations_view(old(out)@) + write_violations(
            all.take(k as int),
            line,
            tag@,
            number,
        ));
    }
    assert(all.take(areas.len() as int) =~= all);
}

fn check_body(stmts: &Vec<Statement>, areas: &Vec<MemoryArea>, out: &mut Vec<Violation>)
    ensures
        violations_view(final(out)@) == violations_view(old(out)@) + body_violations(
            stmts_view(stmts@),
            areas_view(areas@),
        ),
{
    let ghost sv = stmts_view(stmts@);
    let mut i: usize = 0;
    assert(violations_view(out@) =~= violations_view(old(out)@) + body_violations(
        sv.take(0),
        areas_view(areas@),
    ));
    while i < stmts.len()
        invariant
            i <= stmts.len(),
            sv == stmts_view(stmts@),
            violations_view(out@) == violations_view(old(out)@) + body_violations(
                sv.take(i as int),
                areas_view(areas@),
            ),
        decreases stmts.len() - i,
    {
        proof {
            lemma_stmts_view_step(stmts@, i as int);
        }
        let ghost before = violations_view(out@);
        match &stmts[i] {
            Statement::Assign { target, line, .. } => {
                match parse_mem_address(target.name.as_str()) {
                    Some((tag, number)) => {
                        check_write(areas, *line, &tag, number, out);
                    },
                    None => {},
                }
            },
            _ => {},
        }
        assert(violations_view(out@) =~= before + stmt_violations(
            stmts@[i as int]@,
            areas_view(areas@),
        ));
        i += 1;
        assert(violations_view(out@) =~= violations_view(old(out)@) + body_violations(
            sv.take(i as int),
            areas_view(areas@),
        ));
    }
    proof {
        if stmts.len() > 0 {
            lemma_stmts_view_step(stmts@, 0);
        } else {
            assert(sv.take(0) =~= sv);
        }
    }
}

/// Checks every write of the program against the areas of the policy.
/// Without areas the rule is followed.
pub fn check(program: &Program, policy: &Policy) -> (r: RuleResult)
    ensures
        r@ == outcome(rule_violations(program@, policy@)),
        policy@.memory_areas.len() == 0 ==> r@ == outcome(Seq::empty()),
{
    proof {
        if policy@.memory_areas.len() == 0 {
            lemma_no_areas(program@.functions, policy@.memory_areas);
        }
    }
    let areas = match &policy.memory_areas {
        Some(areas) => areas,
        None => {
            return RuleResult::ok(10, "Assign designated register blocks");
        },
    };
    if areas.len() == 0 {
        return RuleResult::ok(10, "Assign designated register blocks");
    }
    let mut out: Vec<Violation> = Vec::new();
    let ghost per = |f: FunctionModel|
        body_violations(flattened(f.statements), policy@.memory_areas);
    let mut i: usize = 0;
    while i < program.functions.len()
        invariant
            i <= program.functions.len(),
            policy@.memory_areas == areas_view(areas@),
            per == (|f: FunctionModel|
                body_violations(flattened(f.statements), policy@.memory_areas)),
            violations_view(out@) == over_functions(program@.functions.take(i as int), per),
        decreases program.functions.len() - i,
    {
        proof {
            lemma_over_functions_step(program@.functions, per, i as int);
        }
        check_body(&flatten(&program.functions[i].statements), areas, &mut out);
        i += 1;
    }
    assert(program@.functions.take(program.functions.len() as int) =~= program@.functions);
    RuleResult::violations(out)
}

} // verus!
