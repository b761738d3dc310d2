//! The schema, its parts and the tools below it.

use miplog::doubles::apart;
use miplog::input::split_concatenated;
use miplog::json::JsonValue;
use miplog::numbers::{
    add_wrapping, finite, past_sentinel, positive, read_i64, read_u32, read_u64, real_ok,
    write_u64, zero,
};
use miplog::output::{choose_format, infer_format, OutputFormat};
use miplog::quantity::{Real, Unit};
use miplog::schema::solver_from_str;
use miplog::solvers::progress::{event_from_marker, parse_gap, parse_or_dash, parse_time_token};
use miplog::{
    Bounds, Gap, NamedValue, NodeEvent, NodeSnapshot, ParserInfo, ProgressTable, Solver, SolverLog,
    Status, Termination,
};

fn chars(s: &str) -> Vec<char> {
    s.chars().collect()
}

fn number(s: &str) -> Real {
    Real::read(&chars(s)).unwrap()
}

const SOLVERS: [(Solver, &str); 9] = [
    (Solver::Gurobi, "gurobi"),
    (Solver::Xpress, "xpress"),
    (Solver::Scip, "scip"),
    (Solver::Highs, "highs"),
    (Solver::Cplex, "cplex"),
    (Solver::Cbc, "cbc"),
    (Solver::Copt, "copt"),
    (Solver::Optverse, "optverse"),
    (Solver::Mosek, "mosek"),
];

#[test]
fn keys_find_their_solvers() {
    for (solver, key) in SOLVERS {
        assert_eq!(solver.key(), key);
        assert_eq!(solver_from_str(key), Ok(solver));
        assert_eq!(solver_from_str(&key.to_uppercase()), Ok(solver));
    }
}

#[test]
fn unknown_keys_are_named_in_lower_case() {
    assert_eq!(solver_from_str("GLPK"), Err("unknown solver: glpk".to_string()));
    assert_eq!(solver_from_str(""), Err("unknown solver: ".to_string()));
    // Lower case of a Turkish capital I with a dot takes two characters.
    assert_eq!(
        solver_from_str("SC\u{130}P"),
        Err("unknown solver: sci\u{307}p".to_string())
    );
}

#[test]
fn parser_info_is_that_of_this_crate() {
    let info = ParserInfo::current();
    assert_eq!(info.version, "0.1.0");
    assert_eq!(info.git_hash, "");
}

#[test]
fn new_log_is_empty() {
    let log = SolverLog::new(Solver::Cbc);
    assert_eq!(log.solver, Solver::Cbc);
    assert_eq!(log.termination.status, Status::Unknown);
    assert_eq!(log.bounds, Bounds::default());
    assert!(log.progress.is_empty());
    assert!(log.cuts.is_empty());
    assert!(log.other_data.is_empty());
}

#[test]
fn missing_core_fields_are_named() {
    let mut log = SolverLog::new(Solver::Cbc);
    assert_eq!(
        log.verify_common(),
        Err(vec!["termination.status", "timing.wall_seconds"])
    );
    log.termination.status = Status::Optimal;
    log.timing.wall_seconds = Some(number("1"));
    assert_eq!(log.verify_common(), Err(vec!["bounds.primal", "bounds.dual"]));
    log.bounds.primal = Some(number("1"));
    log.bounds.dual = Some(number("1"));
    assert_eq!(log.verify_common(), Ok(()));
    log.termination.status = Status::TimeLimit;
    log.bounds = Bounds::default();
    assert_eq!(log.verify_common(), Ok(()));
}

#[test]
fn answers_complete_a_run() {
    let done = |status: Status| Termination { status, raw_reason: None }.solved_to_completion();
    assert!(done(Status::Optimal));
    assert!(done(Status::Infeasible));
    assert!(done(Status::Unbounded));
    assert!(done(Status::InfeasibleOrUnbounded));
    assert!(!done(Status::TimeLimit));
    assert!(!done(Status::MemoryLimit));
    assert!(!done(Status::OtherLimit));
    assert!(!done(Status::UserInterrupt));
    assert!(!done(Status::NumericalError));
    assert!(!done(Status::Unknown));
}

#[test]
fn reported_gap_comes_first() {
    let mut b = Bounds::default();
    assert_eq!(b.effective_gap(), None);
    b.primal = Some(number("10"));
    assert_eq!(b.effective_gap(), Some(Gap::Open));
    b.primal = None;
    b.dual = Some(number("8"));
    assert_eq!(b.effective_gap(), Some(Gap::Open));
    b.primal = Some(number("10"));
    b.dual = Some(number("8"));
    assert_eq!(
        b.effective_gap(),
        Some(Gap::Derived { primal: number("10"), dual: number("8") })
    );
    b.gap = Some(number("0.5"));
    assert_eq!(b.effective_gap(), Some(Gap::Reported(number("0.5"))));
}

#[test]
fn rows_come_back_in_order() {
    let mut table = ProgressTable::default();
    assert_eq!(table.last_time(), None);
    for i in 0..3u64 {
        table.push(NodeSnapshot {
            time_seconds: number(&i.to_string()),
            nodes_explored: Some(i),
            primal: None,
            dual: None,
            gap: None,
            depth: None,
            lp_iterations: None,
            event: None,
        });
    }
    assert_eq!(table.len(), 3);
    assert!(!table.is_empty());
    assert_eq!(table.row(1).nodes_explored, Some(1));
    let nodes: Vec<Option<u64>> = table.iter().iter().map(|r| r.nodes_explored).collect();
    assert_eq!(nodes, [Some(0), Some(1), Some(2)]);
    assert_eq!(table.last_time(), Some(number("2")));
}

#[test]
fn named_values_keep_what_they_are_given() {
    let v = NamedValue::new("a.b", JsonValue::Count(3));
    assert_eq!(v.name, "a.b");
    assert_eq!(v.value, JsonValue::Count(3));
}

#[test]
fn counts_by_name_stay_in_order() {
    let mut log = SolverLog::new(Solver::Cplex);
    for (name, n) in [("MIR", 3), ("Cover", 2), ("Gomory", 9), ("MIR", 5), ("M", 1)] {
        log.cuts.insert(name.to_string(), n);
    }
    let entries: Vec<(&str, u64)> =
        log.cuts.entries.iter().map(|e| (e.0.as_str(), e.1)).collect();
    assert_eq!(entries, [("Cover", 2), ("Gomory", 9), ("M", 1), ("MIR", 5)]);
    assert_eq!(log.cuts.get("MIR"), Some(5));
    assert_eq!(log.cuts.get("mir"), None);
}

#[test]
fn counts_are_read_and_written() {
    assert_eq!(read_u64(&chars("18446744073709551615")), Some(u64::MAX));
    assert_eq!(read_u64(&chars("18446744073709551616")), None);
    assert_eq!(read_u64(&chars("+07")), Some(7));
    assert_eq!(read_u64(&chars("-7")), None);
    assert_eq!(read_u64(&chars("")), None);
    assert_eq!(read_u64(&chars("+")), None);
    assert_eq!(read_u32(&chars("4294967295")), Some(u32::MAX));
    assert_eq!(read_u32(&chars("4294967296")), None);
    assert_eq!(read_i64(&chars("-9223372036854775808")), Some(i64::MIN));
    assert_eq!(read_i64(&chars("9223372036854775808")), None);
    assert_eq!(write_u64(0), chars("0"));
    assert_eq!(write_u64(1203), chars("1203"));
    for n in [0, 9, 10, 99, 100, u64::MAX] {
        assert_eq!(read_u64(&write_u64(n)), Some(n));
    }
    assert_eq!(add_wrapping(u64::MAX, 3), 2);
}

#[test]
fn literals_are_those_of_doubles() {
    for s in [
        "0", "-1", "+1.5", ".5", "5.", "1e5", "1E-5", "1.e+5", "inf", "-Infinity", "NaN", "+nan",
        "", ".", "e5", "1e", "1e+", "--1", "1_0", " 1", "1 ", "infin", "0x1", "1.2.3", "1,5",
    ] {
        assert_eq!(real_ok(&chars(s)), s.parse::<f64>().is_ok(), "{s:?}");
    }
}

#[test]
fn size_of_literals() {
    for s in ["1e308", "1.8e308", "-1.8e308", "1e309", "inf", "nan", "0e999", "1e-999", "0"] {
        assert_eq!(finite(&chars(s)), s.parse::<f64>().unwrap().is_finite(), "{s:?}");
        assert_eq!(zero(&chars(s)), s.parse::<f64>().unwrap() == 0.0, "{s:?}");
        assert_eq!(positive(&chars(s)), s.parse::<f64>().unwrap() > 0.0, "{s:?}");
    }
    for s in [
        "1e40",
        "-1e50",
        "9.9e39",
        "1.1e40",
        "inf",
        "10000000000000000908248938234318254243839",
        "10000000000000000908248938234318254243840",
    ] {
        let v: f64 = s.parse().unwrap();
        assert_eq!(past_sentinel(&chars(s)), v.abs() > 1e40, "{s:?}");
    }
    assert!(apart(&chars("1"), &chars("1.00000001")));
    assert!(!apart(&chars("1"), &chars("1.0000000001")));
    assert!(apart(&chars("-1"), &chars("1")));
    assert!(!apart(&chars("302"), &chars("3.02e2")));
}

#[test]
fn distances_are_those_of_doubles() {
    let literals = [
        "0",
        "-0",
        "1",
        "-1",
        "1.000000001",
        "1.0000000009999999",
        "0.999999999",
        "1e-9",
        "-1e-9",
        "1.0000000000000001e-9",
        "1.00000000000000003e-9",
        "1.0000000000000002e-9",
        "1.0000000000000004e-9",
        "2e-9",
        "5e-10",
        "-5.0000000000000003e-10",
        "1e17",
        "100000000000000001",
        "100000000000000008",
        "100000000000000009",
        "9007199254740992",
        "9007199254740993",
        "9007199254740993.0000000001",
        "9007199254740994",
        "4.9406564584124654e-324",
        "2.4703282292062327e-324",
        "2.2250738585072014e-308",
        "2.2250738585072011e-308",
        "1.7976931348623157e308",
        "-1.7976931348623157e308",
        "1.7976931348623158e308",
        "1e999999999999999999999999999999999999999999",
        "-inf",
        "nan",
        "1e-99999999999999999999999999999999999999999",
        "0e99999999999999999999999999999999999999999",
        "302.123456789012345678",
        "302.12345678901234",
        "302.1234567900123",
        "302.12345679001237",
        "0.1",
        "0.10000000000000001",
        "0.100000001",
        "123456789.12345678",
        "123456789.123456789",
    ];
    for a in literals {
        for b in literals {
            let (x, y): (f64, f64) = (a.parse().unwrap(), b.parse().unwrap());
            assert_eq!(apart(&chars(a), &chars(b)), (x - y).abs() > 1e-9, "{a} {b}");
        }
    }
    assert!(apart(&chars("1"), &chars("1.000000001")));
    assert!(!apart(&chars("1e17"), &chars("100000000000000001")));
}

#[test]
fn long_literals_are_numbers_too() {
    let zeros = "0".repeat(1_000_001);
    assert!(!apart(&chars("302"), &chars(&format!("302.{zeros}"))));
    assert!(apart(&chars("302"), &chars(&format!("302.00001{zeros}"))));
    assert!(!apart(&chars("302"), &chars(&format!("302{zeros}e-1000001"))));
}

#[test]
fn sums_keep_their_literals() {
    let sum = number("0.25").plus(&number("1e1"));
    assert_eq!(sum.literals(), &["0.25".to_string(), "1e1".to_string()]);
    assert_eq!(sum.unit(), Unit::One);
    assert!(number("-0.0").is_zero());
    assert!(!number("1e-400").is_positive());
    assert!(number("1").is_positive());
    assert_eq!(Real::zero(), number("0"));
}

#[test]
fn tokens_of_tables() {
    assert_eq!(parse_time_token(&chars("12s")), Some(number("12")));
    assert_eq!(parse_time_token(&chars("-")), None);
    assert_eq!(parse_or_dash(&chars("-")), None);
    assert_eq!(parse_or_dash(&chars("1.5")), Some(number("1.5")));
    let gap = parse_gap(&chars("2.82%")).unwrap();
    assert_eq!(gap.literals(), &["2.82".to_string()]);
    assert_eq!(gap.unit(), Unit::Percent);
    assert_eq!(parse_gap(&chars("-")), None);
    assert_eq!(event_from_marker('H'), Some(NodeEvent::Heuristic));
    assert_eq!(event_from_marker('*'), Some(NodeEvent::BranchSolution));
    assert_eq!(event_from_marker('a'), Some(NodeEvent::Other("a".to_string())));
    assert_eq!(event_from_marker(' '), None);
}

#[test]
fn output_format_follows_the_name() {
    assert_eq!(infer_format(None), OutputFormat::Summary);
    assert_eq!(infer_format(Some("run.json.gz")), OutputFormat::JsonGz);
    assert_eq!(infer_format(Some("run.json")), OutputFormat::Json);
    assert_eq!(infer_format(Some("run.JSON")), OutputFormat::Summary);
    assert_eq!(infer_format(Some("")), OutputFormat::Summary);
}

#[test]
fn gzip_needs_a_file() {
    assert_eq!(
        choose_format(Some(OutputFormat::JsonGz), None),
        Err("--format json-gz requires --output (gzip to stdout is rarely useful)")
    );
    assert_eq!(
        choose_format(Some(OutputFormat::JsonPretty), None),
        Ok(OutputFormat::JsonPretty)
    );
    assert_eq!(
        choose_format(Some(OutputFormat::Summary), Some("a.json.gz")),
        Ok(OutputFormat::Summary)
    );
    assert_eq!(choose_format(None, Some("a.json.gz")), Ok(OutputFormat::JsonGz));
}

#[test]
fn runs_cover_the_text_behind_the_first_marker() {
    let text = "before\n@01 a.mps ====\none\n\n@01  b = c ==\r\ntwo";
    let runs = split_concatenated(text);
    assert_eq!(runs.len(), 2);
    assert_eq!(runs[0].instance, "a.mps");
    assert_eq!(runs[1].instance, "b = c");
    assert_eq!(runs[0].text, "@01 a.mps ====\none\n\n");
    assert_eq!(
        format!("before\n{}{}", runs[0].text, runs[1].text),
        text
    );
}
