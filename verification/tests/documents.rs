//! The text form of a log.

use miplog::document::Part;
use miplog::printed::{Literal, Printed, PrintedRow};
use miplog::quantity::{Real, Unit};
use miplog::{autodetect, from_text, NodeEvent, NodeSnapshot, Solver, SolverLog, Status};

const EXAMPLE: &str = "orlog-text 1
solver: name=scip version=10.0.0 git=-
problem: p_30n20b8
status: optimal reason=\"optimal solution found\"
timing: wall=448.93 cpu=- reading=- presolve=10.16 root_relax=-
bounds: primal=302 dual=302 gap=0
tree: nodes=- simplex_iters=- sols=4
presolve: rows=576/487 cols=18380/4579 nnz=-/-
cuts:
progress: rows=3 last_time=120
  # cols: time nodes primal dual gap depth lp event
  0 0 553 302 0.4539 - - -
  0 38 402 302 0.249 - - heuristic
  120 53747 302 302 0 - - -
parser: version=0.1.0 git=-
";

const GUROBI: &str = "Gurobi Optimizer version 13.0.0 build v13.0.0rc1

    Nodes    |    Current Node    |     Objective Bounds      |     Work
 Expl Unexpl |  Obj  Depth IntInf | Incumbent    BestBd   Gap | It/Node Time

H    0     0                     130.0000000  118.50000  8.85%     -    0s
     0     0  120.00000    0   12  124.00000  120.00000  3.23%     -    1s

Explored 1 nodes (12 simplex iterations) in 0.02 seconds (0.00 work units)
Best objective 1.240000000000e+02, best bound 1.200000000000e+02, gap 3.2258%
";

fn number(s: &str) -> Real {
    let chars: Vec<char> = s.chars().collect();
    Real::read(&chars).unwrap()
}

fn written(log: &SolverLog) -> String {
    log.to_text(&log.literals().unwrap())
}

#[test]
fn example_document_is_read() {
    let log = from_text(EXAMPLE).unwrap();
    assert_eq!(log.solver, Solver::Scip);
    assert_eq!(log.version.as_deref(), Some("10.0.0"));
    assert_eq!(log.solver_git_hash, None);
    assert_eq!(log.problem.as_deref(), Some("p_30n20b8"));
    assert_eq!(log.termination.status, Status::Optimal);
    assert_eq!(log.termination.raw_reason.as_deref(), Some("optimal solution found"));
    assert_eq!(log.timing.wall_seconds, Some(number("448.93")));
    assert_eq!(log.timing.cpu_seconds, None);
    assert_eq!(log.timing.presolve_seconds, Some(number("10.16")));
    assert_eq!(log.bounds.gap, Some(number("0")));
    assert_eq!(log.tree.solutions_found, Some(4));
    assert_eq!(log.presolve.rows_before, Some(576));
    assert_eq!(log.presolve.rows_after, Some(487));
    assert_eq!(log.presolve.cols_before, Some(18380));
    assert_eq!(log.presolve.nonzeros_after, None);
    assert!(log.cuts.is_empty());
    assert_eq!(log.progress.len(), 3);
    assert_eq!(log.progress.nodes_explored, [Some(0), Some(38), Some(53747)]);
    assert_eq!(log.progress.event[1], Some(NodeEvent::Heuristic));
    assert_eq!(log.progress.last_time(), Some(number("120")));
    assert_eq!(log.parser.version, "0.1.0");
    assert_eq!(log.parser.git_hash, "");
}

#[test]
fn example_document_is_written_again() {
    assert_eq!(written(&from_text(EXAMPLE).unwrap()), EXAMPLE);
}

fn full_log() -> SolverLog {
    let mut log = SolverLog::new(Solver::Optverse);
    log.version = Some("2.0 beta".to_string());
    log.solver_git_hash = Some("-".to_string());
    log.problem = Some("a \"quoted\\ name\" = x".to_string());
    log.termination.status = Status::InfeasibleOrUnbounded;
    log.termination.raw_reason = Some(String::new());
    log.timing.wall_seconds = Some(number("+1.5e-3"));
    log.bounds.primal = Some(number("-inf"));
    log.bounds.dual = Some(number("NaN"));
    log.tree.nodes_explored = Some(u64::MAX);
    log.presolve.nonzeros_after = Some(0);
    log.cuts.insert("Lift and project".to_string(), 25);
    log.cuts.insert("Gomory".to_string(), 9);
    log.progress.push(NodeSnapshot {
        time_seconds: number("0.5"),
        nodes_explored: Some(7),
        primal: None,
        dual: Some(number("12.5")),
        gap: Some(number("inf")),
        depth: Some(u32::MAX),
        lp_iterations: Some(3),
        event: Some(NodeEvent::Other("heuristic".to_string())),
    });
    log.progress.push(NodeSnapshot {
        time_seconds: number("1"),
        nodes_explored: None,
        primal: None,
        dual: None,
        gap: None,
        depth: None,
        lp_iterations: None,
        event: Some(NodeEvent::BranchSolution),
    });
    log.parser.git_hash = "abc123".to_string();
    log
}

#[test]
fn written_document_is_read_back() {
    let log = full_log();
    let text = written(&log);
    assert_eq!(from_text(&text).unwrap(), log);
    assert_eq!(written(&from_text(&text).unwrap()), text);
}

#[test]
fn sums_and_percents_are_not_plain() {
    let mut log = full_log();
    assert!(log.literals().is_some());
    log.timing.presolve_seconds = Some(number("1").plus(&number("2")));
    assert!(log.literals().is_none());
    log.timing.presolve_seconds = None;
    assert!(log.literals().is_some());
    log.progress.gap[1] = Real::read_in(&['5'], Unit::Percent);
    assert!(log.literals().is_none());
    assert!(log.is_writable());
}

fn printed(s: &str) -> Option<Literal> {
    let out = Literal::read(s);
    assert!(out.is_some());
    out
}

#[test]
fn log_of_a_search_is_read_back() {
    let log = autodetect(GUROBI).unwrap();
    // The gap is a percentage, which the log keeps as it was written.
    assert!(log.literals().is_none());
    assert!(log.is_writable());
    assert_eq!(log.progress.len(), 2);
    let mut numbers = Printed {
        wall: printed("0.02"),
        cpu: None,
        reading: None,
        presolve: None,
        root_relaxation: None,
        primal: printed("124"),
        dual: printed("120"),
        gap: printed("0.032258"),
        rows: vec![
            PrintedRow {
                time: printed("0").unwrap(),
                primal: printed("130"),
                dual: printed("118.5"),
                gap: printed("0.0885"),
            },
            PrintedRow {
                time: printed("1").unwrap(),
                primal: printed("124"),
                dual: printed("120"),
                gap: printed("0.0323"),
            },
        ],
    };
    assert!(numbers.fits(&log));
    let text = log.to_text(&numbers);
    assert!(text.starts_with("orlog-text 1\nsolver: name=gurobi "));
    assert!(text.contains("\nbounds: primal=124 dual=120 gap=0.032258\n"));
    assert!(text.contains("\nprogress: rows=2 last_time=1\n"));
    assert!(text.lines().last().unwrap().starts_with("parser: "));
    assert!(text.ends_with('\n'));
    let back = from_text(&text).unwrap();
    assert_eq!(back.bounds.gap, Some(number("0.032258")));
    assert_eq!(back.progress.gap, [Some(number("0.0885")), Some(number("0.0323"))]);
    assert_eq!(back.literals().as_ref(), Some(&numbers));
    assert_eq!(written(&back), text);
    // Numbers that the log does not have, or not as many rows, are not its own.
    numbers.cpu = printed("1");
    assert!(!numbers.fits(&log));
    numbers.cpu = None;
    numbers.rows.pop();
    assert!(!numbers.fits(&log));
}

#[test]
fn only_real_numbers_are_literals() {
    assert_eq!(Literal::read("-1.5e3").unwrap().as_str(), "-1.5e3");
    assert!(Literal::read("").is_none());
    assert!(Literal::read("5%").is_none());
    assert!(Literal::read("1 2").is_none());
}

#[test]
fn texts_of_two_lines_do_not_come_back() {
    let mut log = full_log();
    log.problem = Some("a\nb".to_string());
    assert!(!log.is_writable());
    assert!(from_text(&written(&log)).is_err());
    let mut log = full_log();
    log.cuts.insert("\n".to_string(), 1);
    assert!(!log.is_writable());
    let mut log = full_log();
    log.progress.event[0] = Some(NodeEvent::Other("\n".to_string()));
    assert!(!log.is_writable());
}

#[test]
fn texts_are_quoted_where_they_must_be() {
    let text = written(&full_log());
    let lines: Vec<&str> = text.lines().collect();
    assert_eq!(lines[0], "orlog-text 1");
    assert_eq!(lines[1], "solver: name=optverse version=\"2.0 beta\" git=\"-\"");
    assert_eq!(lines[2], "problem: \"a \\\"quoted\\\\ name\\\" = x\"");
    assert_eq!(lines[3], "status: infeasible_or_unbounded reason=\"\"");
    assert_eq!(lines[4], "timing: wall=+1.5e-3 cpu=- reading=- presolve=- root_relax=-");
    assert_eq!(lines[5], "bounds: primal=-inf dual=NaN gap=-");
    assert_eq!(lines[6], "tree: nodes=18446744073709551615 simplex_iters=- sols=-");
    assert_eq!(lines[7], "presolve: rows=-/- cols=-/- nnz=-/0");
    assert_eq!(lines[8], "cuts: Gomory=9 \"Lift and project\"=25");
    assert_eq!(lines[9], "progress: rows=2 last_time=1");
    assert_eq!(lines[11], "  0.5 7 - 12.5 inf 4294967295 3 \"heuristic\"");
    assert_eq!(lines[12], "  1 - - - - - - branch_solution");
    assert_eq!(lines[13], "parser: version=0.1.0 git=abc123");
    assert_eq!(lines.len(), 14);
    assert!(text.ends_with('\n'));
}

#[test]
fn comments_and_blanks_say_nothing() {
    let mut text = String::from("\n  # made by hand\n");
    for line in EXAMPLE.lines() {
        text.push_str(line);
        text.push_str("  \r\n# in between\r\n\n");
    }
    text.push_str("\n \t\n");
    assert_eq!(from_text(&text).unwrap(), from_text(EXAMPLE).unwrap());
}

#[test]
fn last_count_of_a_family_stays() {
    let text = EXAMPLE.replace("cuts:", "cuts: MIR=3 Cover=0 \"a b\"=1 MIR=5");
    let log = from_text(&text).unwrap();
    assert_eq!(log.cuts.get("MIR"), Some(5));
    assert_eq!(log.cuts.get("Cover"), Some(0));
    assert_eq!(log.cuts.get("a b"), Some(1));
    assert_eq!(log.cuts.len(), 3);
    let again = written(&log);
    assert!(again.contains("\ncuts: Cover=0 MIR=5 \"a b\"=1\n"));
    assert_eq!(from_text(&again).unwrap(), log);
}

#[test]
fn copies_are_equal() {
    let log = full_log();
    assert_eq!(log.clone(), log);
    let log = autodetect(GUROBI).unwrap();
    assert_eq!(log.clone(), log);
    let literals = full_log().literals().unwrap();
    assert_eq!(literals.clone(), literals);
}

#[test]
fn each_part_can_be_at_fault() {
    let fault = |from: &str, to: &str| from_text(&EXAMPLE.replace(from, to)).unwrap_err().part;
    assert_eq!(from_text("").unwrap_err().part, Part::Magic);
    assert_eq!(fault("orlog-text 1", "orlog-text 2"), Part::Magic);
    assert_eq!(fault("name=scip", "name=glpk"), Part::Solver);
    assert_eq!(fault("problem: p_30n20b8", "problem: p 30"), Part::Problem);
    assert_eq!(fault("status: optimal", "status: best"), Part::Status);
    assert_eq!(fault("solution found\"", "solution found"), Part::Status);
    assert_eq!(fault("optimal solution", "optimal \\n solution"), Part::Status);
    assert_eq!(fault("wall=448.93", "wall=\"448.93\""), Part::Timing);
    assert_eq!(fault(" cpu=-", ""), Part::Timing);
    assert_eq!(fault("primal=302", "primal=1.2.3"), Part::Bounds);
    assert_eq!(fault("sols=4", "sols=-4"), Part::Tree);
    assert_eq!(fault("sols=4", "sols=18446744073709551616"), Part::Tree);
    assert_eq!(fault("rows=576/487", "rows=576"), Part::Presolve);
    assert_eq!(fault("cuts:", "cuts: Gomory"), Part::Cuts);
    assert_eq!(fault("rows=3 ", "rows=- "), Part::Progress);
    assert_eq!(fault("rows=3 ", "rows=9 "), Part::Rows);
    assert_eq!(fault("  0 38", "  - 38"), Part::Rows);
    assert_eq!(fault("heuristic", "guess"), Part::Rows);
    assert_eq!(fault("0.249 - -", "0.249 4294967296 -"), Part::Rows);
    assert_eq!(fault("parser: version=0.1.0", "parser: version=-"), Part::Parser);
    assert_eq!(fault("rows=3 ", "rows=2 "), Part::Parser);
    assert_eq!(fault("git=-\n", "git=-\nmore: here\n"), Part::Status);
    assert_eq!(
        from_text(&format!("{EXAMPLE}more: here\n")).unwrap_err().part,
        Part::End
    );
    assert_eq!(
        from_text("no document").unwrap_err().message(),
        "missing or malformed: magic"
    );
}

#[test]
fn problem_may_be_absent() {
    let text = EXAMPLE.replace("problem: p_30n20b8\n", "");
    let log = from_text(&text).unwrap();
    assert_eq!(log.problem, None);
    assert_eq!(written(&log), text);
}
