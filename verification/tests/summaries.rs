//! The summary of a log.

use miplog::quantity::{Real, Unit};
use miplog::text::{
    column_points, fmt_dim_change, fmt_opt_u, spark_points, summary_status_word, Figures, GapSource,
    RowFigures,
};
use miplog::{NodeEvent, NodeSnapshot, Solver, SolverLog, Status};

fn number(s: &str) -> Real {
    let chars: Vec<char> = s.chars().collect();
    Real::read(&chars).unwrap()
}

fn no_figures() -> Figures {
    Figures {
        wall: None,
        primal: None,
        dual: None,
        bounds_meet: false,
        gap: None,
        heights: None,
        rows: Vec::new(),
    }
}

#[test]
fn empty_log_has_two_lines() {
    let log = SolverLog::new(Solver::Gurobi);
    assert_eq!(log.summary(&no_figures()), "solver: gurobi\nstatus: unknown\n");
    assert_eq!(
        log.summary_no_table().render(&no_figures()),
        "solver: gurobi\nstatus: unknown\n"
    );
}

fn solved() -> (SolverLog, Figures) {
    let mut log = SolverLog::new(Solver::Scip);
    log.version = Some("11.0.0".to_string());
    log.problem = Some("p0201".to_string());
    log.termination.status = Status::Optimal;
    log.timing.wall_seconds = Some(number("0.55"));
    log.bounds.primal = Some(number("7615"));
    log.bounds.dual = Some(number("7615"));
    log.tree.solutions_found = Some(13);
    log.presolve.rows_before = Some(133);
    log.presolve.rows_after = Some(107);
    log.presolve.cols_before = Some(201);
    log.presolve.cols_after = Some(183);
    let figures = Figures {
        wall: Some("0.55".to_string()),
        primal: Some("7615".to_string()),
        dual: Some("7615".to_string()),
        bounds_meet: true,
        gap: Some("0.00".to_string()),
        heights: None,
        rows: Vec::new(),
    };
    (log, figures)
}

fn row(time: &str, dual: &str, event: Option<NodeEvent>) -> NodeSnapshot {
    NodeSnapshot {
        time_seconds: number(time),
        nodes_explored: Some(1),
        primal: Some(number("10")),
        dual: Some(number(dual)),
        gap: None,
        depth: None,
        lp_iterations: None,
        event,
    }
}

fn cells(time: &str, dual: &str) -> RowFigures {
    RowFigures {
        time: time.to_string(),
        dual: dual.to_string(),
        primal: "1.000000e1".to_string(),
        gap: "-".to_string(),
        primal_key: Some(1),
        dual_key: Some(dual.len() as u64),
    }
}

#[test]
fn solved_run_has_one_objective() {
    let (log, figures) = solved();
    assert_eq!(
        log.summary(&figures),
        "solver: scip 11.0.0\nproblem: p0201\nstatus: optimal in 0.55s\nobj: 7615\nsols: 13\npresolve: 133\u{2192}107 rows, 201\u{2192}183 cols\n"
    );
}

#[test]
fn bounds_stand_apart_where_they_do_not_meet() {
    let (mut log, mut figures) = solved();
    figures.bounds_meet = false;
    figures.dual = Some("7600.5".to_string());
    log.presolve.rows_after = None;
    log.presolve.cols_before = None;
    log.presolve.cols_after = None;
    let text = log.summary(&figures);
    assert!(text.contains("\nprimal: 7615\ndual: 7600.5\nsols: 13\npresolve: 133 rows\n"));
    log.termination.status = Status::TimeLimit;
    let text = log.summary(&figures);
    assert!(text.contains("\nstatus: time-limit in 0.55s\nprimal: 7615\ndual: 7600.5\ngap: 0.00%\n"));
}

#[test]
fn gap_without_a_bound_is_open() {
    let (mut log, mut figures) = solved();
    log.termination.status = Status::TimeLimit;
    log.bounds.gap = None;
    log.bounds.dual = None;
    figures.dual = None;
    figures.gap = Some("inf".to_string());
    let text = log.summary(&figures);
    assert!(text.contains("\nprimal: 7615\ngap: inf%\n"));
}

fn long_run() -> (SolverLog, Figures) {
    let (mut log, mut figures) = solved();
    let duals = ["1", "1", "1", "1", "22", "22", "333", "333"];
    for (i, dual) in duals.iter().enumerate() {
        let event = if i == 7 { Some(NodeEvent::Heuristic) } else { None };
        log.progress.push(row(&format!("{i}"), dual, event));
        figures.rows.push(cells(&format!("{i}.00"), dual));
    }
    figures.heights = Some(vec![7, 7, 6, 6, 5, 5, 4, 4, 3, 3, 2, 2, 1, 1, 0, 0, 0, 0, 0, 99]);
    (log, figures)
}

fn line(time: &str, nodes: &str, dual: &str, primal: &str, gap: &str, event: &str) -> String {
    format!("    {time:>7}  {nodes:>8}  {dual:>13}  {primal:>13}  {gap:>6}  {event}")
}

#[test]
fn rows_that_say_nothing_new_are_left_out() {
    let (log, figures) = long_run();
    let text = log.summary(&figures);
    let table: Vec<&str> = text.split("\n\n").nth(1).unwrap().lines().collect();
    assert_eq!(
        table,
        [
            line("time", "nodes", "dual", "primal", "gap", "event"),
            line("0.00", "1", "1", "1.000000e1", "-", ""),
            "    \u{2026} same for 3 more rows \u{2026}".to_string(),
            line("4.00", "1", "22", "1.000000e1", "-", ""),
            line("5.00", "1", "22", "1.000000e1", "-", ""),
            line("6.00", "1", "333", "1.000000e1", "-", ""),
            line("7.00", "1", "333", "1.000000e1", "-", "H"),
        ]
    );
}

#[test]
fn table_tells_of_every_row() {
    let (log, figures) = long_run();
    let text = log.summary(&figures);
    let mut told = 0;
    for line in text.split("\n\n").nth(1).unwrap().lines().skip(1) {
        told += match line.strip_prefix("    \u{2026} same for ") {
            Some(rest) => rest.split(' ').next().unwrap().parse().unwrap(),
            None => 1,
        };
    }
    assert_eq!(told, log.progress.len());
    // The rows at 4 and 6 seconds change the dual bound.
    assert!(text.contains(&line("4.00", "1", "22", "1.000000e1", "-", "")));
    assert!(text.contains(&line("6.00", "1", "333", "1.000000e1", "-", "")));
}

#[test]
fn sparkline_stays_without_the_table() {
    let (log, figures) = long_run();
    let short = log.summary_no_table().render(&figures);
    assert!(short.ends_with(
        "convergence: \u{2588}\u{2588}\u{2587}\u{2587}\u{2586}\u{2586}\u{2585}\u{2585}\u{2584}\u{2584}\u{2583}\u{2583}\u{2582}\u{2582}\u{2581}\u{2581}\u{2581}\u{2581}\u{2581}\u{2588}\n"
    ));
    let long = log.summary(&figures);
    assert!(long.starts_with(&short));
    assert!(long.len() > short.len());
}

#[test]
fn short_tables_are_not_shown() {
    let (mut log, mut figures) = solved();
    for i in 0..5 {
        log.progress.push(row(&format!("{i}"), "1", None));
        figures.rows.push(cells(&format!("{i}.00"), "1"));
    }
    figures.heights = Some(vec![0; 20]);
    assert_eq!(log.summary(&figures), log.summary_no_table().render(&figures));
}

#[test]
fn points_of_the_sparkline() {
    let (mut log, _) = solved();
    let mut add = |primal: Option<&str>, dual: Option<&str>, gap: Option<&str>| {
        let mut r = row("0", "1", None);
        r.primal = primal.map(number);
        r.dual = dual.map(number);
        r.gap = gap.map(number);
        log.progress.push(r);
    };
    add(None, Some("1"), None);
    add(Some("10"), Some("-inf"), None);
    add(Some("10"), Some("1"), None);
    add(Some("10"), None, None);
    add(None, None, Some("0.5"));
    add(None, Some("1"), Some("inf"));
    add(Some("10"), Some("1"), Some("1e400"));
    let points = spark_points(&log.progress).unwrap();
    assert_eq!(
        points,
        [
            (1, GapSource::Unbounded),
            (2, GapSource::Derived),
            (3, GapSource::Unbounded),
            (4, GapSource::Reported),
            (6, GapSource::Unbounded),
        ]
    );
    let (short, _) = solved();
    assert!(spark_points(&short.progress).is_none());
}

#[test]
fn columns_of_the_sparkline_run_over_the_points() {
    let mut even = vec![0; 10];
    even.extend([1; 9]);
    even.push(2);
    assert_eq!(column_points(3, None), even);
    let huge = column_points(usize::MAX, None);
    assert_eq!(huge[0], 0);
    assert_eq!(huge[19], usize::MAX - 1);
    // Points at the times 0, 2, 2 and 20 under columns at 0 to 19.
    let distances: Vec<Vec<u64>> = (0..20)
        .map(|i: u64| [0u64, 2, 2, 20].iter().map(|t| i.abs_diff(*t)).collect())
        .collect();
    let near = column_points(4, Some(&distances));
    assert_eq!(near[..3], [0, 0, 1]);
    assert_eq!(near[11], 1);
    assert_eq!(near[12], 3);
    assert_eq!(near[19], 3);
}

#[test]
fn words_and_cells() {
    assert_eq!(summary_status_word(Status::OtherLimit), "limit");
    assert_eq!(summary_status_word(Status::InfeasibleOrUnbounded), "infeasible_or_unbounded");
    assert_eq!(fmt_dim_change(Some(3), Some(3)).as_deref(), Some("3"));
    assert_eq!(fmt_dim_change(Some(30), Some(4)).as_deref(), Some("30\u{2192}4"));
    assert_eq!(fmt_dim_change(None, Some(4)).as_deref(), Some("4"));
    assert_eq!(fmt_dim_change(None, None), None);
    assert_eq!(fmt_opt_u(Some(u64::MAX)), "18446744073709551615");
    assert_eq!(fmt_opt_u(Some(0)), "0");
    assert_eq!(fmt_opt_u(None), "-");
    assert_eq!(number("5").unit(), Unit::One);
}
