//! What the readers make of several reports, of pure LP runs and of odd rows.

use miplog::quantity::{Real, Unit};
use miplog::{parse, NodeEvent, Solver, Status};

fn value(r: &Option<Real>) -> f64 {
    let r = r.as_ref().unwrap();
    let sum: f64 = r.literals().iter().map(|s| s.parse::<f64>().unwrap()).sum();
    match r.unit() {
        Unit::One => sum,
        Unit::Percent => sum / 100.0,
        Unit::Minute => sum * 60.0,
        Unit::Hour => sum * 3600.0,
    }
}

#[test]
fn cbc_optimal_run_mirrors_its_bound() {
    let log = parse(
        "Welcome to the CBC MILP Solver\nResult - Optimal solution found\n\nObjective value:                7615.00000000\nMaximum depth 10\n",
        Solver::Cbc,
    )
    .unwrap();
    assert_eq!(log.termination.status, Status::Optimal);
    assert_eq!(value(&log.bounds.primal), 7615.0);
    assert_eq!(log.bounds.dual, log.bounds.primal);
    assert_eq!(value(&log.bounds.gap), 0.0);
    assert_eq!(log.tree.max_depth, Some(10));
}

#[test]
fn cbc_sentinel_is_no_solution() {
    let log = parse(
        "Welcome to the CBC MILP Solver\nCbc0010I After 0 nodes, 1 on tree, 1e+50 best solution, best possible -112145.45 (12.35 seconds)\n",
        Solver::Cbc,
    )
    .unwrap();
    assert_eq!(log.progress.len(), 1);
    assert_eq!(log.progress.primal[0], None);
    assert_eq!(value(&log.progress.dual[0]), -112145.45);
}

#[test]
fn highs_lp_objective_is_both_bounds() {
    let log = parse(
        "Running HiGHS 1.12.0 (git hash: 62f9c446a): Copyright\nModel status        : Optimal\nSimplex   iterations: 1,234\nObjective value     : -5.0000000000e+00\nHiGHS run time      :          0.28\n",
        Solver::Highs,
    )
    .unwrap();
    assert_eq!(log.termination.status, Status::Optimal);
    assert_eq!(log.termination.raw_reason.as_deref(), Some("Optimal"));
    assert_eq!(value(&log.bounds.primal), -5.0);
    assert_eq!(log.bounds.dual, log.bounds.primal);
    assert_eq!(value(&log.bounds.gap), 0.0);
    assert_eq!(log.tree.simplex_iterations, Some(1234));
    assert_eq!(value(&log.timing.wall_seconds), 0.28);
    assert_eq!(log.tree.restarts, None);
}

#[test]
fn highs_restarts_come_in_pairs() {
    let restarts = |lines: &str| {
        parse(&format!("Running HiGHS 1.12.0\n{lines}"), Solver::Highs)
            .unwrap()
            .tree
            .restarts
    };
    assert_eq!(restarts(""), None);
    assert_eq!(restarts("10.2% inactive, restarting\n"), Some(0));
    assert_eq!(restarts("restarting\nModel after restart has 5 rows\n"), Some(1));
    assert_eq!(
        restarts("restarting\nModel after restart has 5 rows\nrestarting\nModel after restart\n"),
        Some(2)
    );
    assert_eq!(restarts(" Model after restart\n"), None);
}

#[test]
fn copt_lp_optimum_is_both_bounds() {
    let log = parse(
        "Cardinal Optimizer v8.0.3. Build date Jan 13 2026\nSolving finished\nStatus: Optimal  Objective: -5.0e+00  Iterations: 7  Time: 0.25s\n",
        Solver::Copt,
    )
    .unwrap();
    assert_eq!(log.termination.status, Status::Optimal);
    assert_eq!(value(&log.bounds.primal), -5.0);
    assert_eq!(log.bounds.dual, log.bounds.primal);
    assert_eq!(value(&log.bounds.gap), 0.0);
    assert_eq!(log.tree.simplex_iterations, Some(7));
    assert_eq!(value(&log.timing.wall_seconds), 0.25);
}

#[test]
fn copt_solved_run_without_a_proof_is_optimal() {
    let log = parse(
        "Cardinal Optimizer v8.0.3\nMIP status      : solved\nSolution status : integer feasible\n",
        Solver::Copt,
    )
    .unwrap();
    assert_eq!(log.termination.status, Status::Optimal);
    assert_eq!(log.termination.raw_reason.as_deref(), Some("solved"));
    let log = parse(
        "Cardinal Optimizer v8.0.3\nSolution status : integer feasible\nMIP status      : stopped (node limit reached)\n",
        Solver::Copt,
    )
    .unwrap();
    assert_eq!(log.termination.status, Status::OtherLimit);
    assert_eq!(log.termination.raw_reason.as_deref(), Some("stopped (node limit reached)"));
}

#[test]
fn xpress_solved_lp_has_no_gap() {
    let log = parse(
        "FICO Xpress v9.8.1\nDual solved problem\n  1 simplex iterations in 0.25 seconds at time 0\nFinal objective : -5.0e+00\n",
        Solver::Xpress,
    )
    .unwrap();
    assert_eq!(log.termination.status, Status::Optimal);
    assert_eq!(value(&log.bounds.primal), -5.0);
    assert_eq!(log.bounds.dual, log.bounds.primal);
    assert_eq!(value(&log.bounds.gap), 0.0);
    assert_eq!(value(&log.timing.wall_seconds), 0.25);
    assert_eq!(log.tree.simplex_iterations, Some(1));
    // The root LP of a search for integer solutions closes nothing.
    let log = parse(
        "FICO Xpress v9.8.1\nMinimizing MILP p\nDual solved problem\nFinal objective : -5.0e+00\n",
        Solver::Xpress,
    )
    .unwrap();
    assert_eq!(value(&log.bounds.primal), -5.0);
    assert_eq!(log.bounds.gap, None);
}

#[test]
fn copt_last_presolved_problem_counts() {
    let log = parse(
        "Cardinal Optimizer v8.0.3\nThe original problem has:\n    576 rows, 18380 columns and 109706 non-zero elements\nThe presolved problem has:\n    487 rows, 4,579 columns and 40000 non-zero elements\nThe presolved problem has:\n    377 rows, 4,109 columns and 39,999 non-zero elements\n",
        Solver::Copt,
    )
    .unwrap();
    assert_eq!(log.presolve.rows_before, Some(576));
    assert_eq!(log.presolve.rows_after, Some(377));
    assert_eq!(log.presolve.cols_after, Some(4109));
    assert_eq!(log.presolve.nonzeros_after, Some(39999));
}

#[test]
fn copt_rows_are_marked_by_letters() {
    let log = parse(
        "Cardinal Optimizer v8.0.3\n     Nodes    Active  LPit/n  IntInf     BestBound  BestSolution     Gap   Time\n         0         1      --       0  0.000000e+00            --     Inf  0.67s\nH        0         1      --       0  1.510000e+02  9.060000e+02  83.33%  0.71s\n\u{e9}        1         1      --       0  1.520000e+02  8.060000e+02  81.14%  0.80s\n\u{20ac}        2         1      --       0  1.530000e+02  7.060000e+02  78.33%  0.90s\n",
        Solver::Copt,
    )
    .unwrap();
    assert_eq!(log.progress.len(), 4);
    assert_eq!(log.progress.event[0], None);
    assert_eq!(log.progress.event[1], Some(NodeEvent::Heuristic));
    assert_eq!(log.progress.event[2], Some(NodeEvent::Other("\u{e9}".to_string())));
    // A sign that is no letter is read as a part of the row.
    assert_eq!(log.progress.event[3], None);
    assert_eq!(log.progress.nodes_explored[3], None);
    assert_eq!(log.tree.solutions_found, Some(2));
    // The first bound that is not zero, and the first row with an incumbent.
    assert_eq!(value(&log.bounds.root_dual), 151.0);
    assert_eq!(value(&log.bounds.first_primal), 906.0);
    assert_eq!(value(&log.bounds.first_primal_time_seconds), 0.71);
}

#[test]
fn cplex_last_reports_count() {
    let log = parse(
        "CPLEX(R) Interactive Optimizer 12.8.0.0\nReduced MIP has 4665 rows, 21600 columns, and 155520 nonzeros.\nPresolve time = 0.25 sec. (2.20 ticks)\nReduced MIP has 4,509 rows, 21,151 columns, and 163,311 nonzeros.\nPresolve time = 0.50 sec. (2.20 ticks)\n\n        Nodes                                         Cuts/\n   Node  Left     Objective  IInf  Best Integer    Best Bound    ItCnt     Gap\n\n      0     0  -114235.0679   346                 -114235.0679    17625         \n*     0+    0                      -102451.6002  -108398.9052             5.80%\n     35    33  -106238.6135   180  -106025.2642  -108376.0418    28161    2.22%\nElapsed time = 5.02 sec. (7373.09 ticks, tree = 0.01 MB, solutions = 3)\n    135    33  -106238.6135   180  -106025.2642  -108300.0000    28161    2.15%\n\nMIP - Time limit exceeded, integer feasible:  Objective = -1.0602526420e+05\nSolution time =    0.00 sec.  Iterations = 4932561  Nodes = 51737\nTotal (root+branch&cut) =    6.50 sec. (3325.32 ticks)\n",
        Solver::Cplex,
    )
    .unwrap();
    assert_eq!(log.presolve.rows_before, None);
    assert_eq!(log.presolve.rows_after, Some(4509));
    assert_eq!(log.presolve.cols_after, Some(21151));
    assert_eq!(log.presolve.nonzeros_after, Some(163311));
    assert_eq!(value(&log.timing.presolve_seconds), 0.75);
    assert_eq!(value(&log.timing.wall_seconds), 6.5);
    assert_eq!(log.termination.status, Status::TimeLimit);
    assert_eq!(log.progress.len(), 4);
    assert_eq!(value(&log.bounds.dual), -108300.0);
    assert!((value(&log.bounds.gap) - 0.0215).abs() < 1e-12);
    assert_eq!(value(&log.bounds.root_dual), -114235.0679);
    assert_eq!(value(&Some(log.progress.time_seconds[2].copy())), 0.0);
    assert_eq!(value(&Some(log.progress.time_seconds[3].copy())), 5.02);
    assert_eq!(log.progress.event[1], Some(NodeEvent::Heuristic));
}

#[test]
fn cplex_elapsed_time_is_the_last_resort() {
    let log = parse(
        "CPXPARAM_TimeLimit 10\nElapsed time = 5.02 sec. (1 ticks)\nElapsed time = 7.25 sec. (2 ticks)\nSolution time =    0.00 sec.  Iterations = 1  Nodes = 2\n",
        Solver::Cplex,
    )
    .unwrap();
    assert_eq!(value(&log.timing.wall_seconds), 7.25);
    assert_eq!(log.tree.nodes_explored, Some(2));
}

#[test]
fn mosek_basic_solution_counts() {
    let log = parse(
        "MOSEK Version 11.0.13\nBasic solution summary\n  Problem status  : PRIMAL_AND_DUAL_FEASIBLE\n  Solution status : OPTIMAL\n  Primal.  obj: 2.5e+01   nrm: 1e+00\n  Dual.    obj: 2.4e+01   nrm: 1e+00\nInterior-point solution summary\n  Problem status  : UNKNOWN\n  Solution status : UNKNOWN\n  Primal.  obj: 9.0e+01   nrm: 1e+00\n  Dual.    obj: 8.0e+01   nrm: 1e+00\nReturn code - 0  [MSK_RES_OK]\n",
        Solver::Mosek,
    )
    .unwrap();
    assert_eq!(log.termination.status, Status::Optimal);
    assert_eq!(log.termination.raw_reason.as_deref(), Some("OPTIMAL"));
    assert_eq!(value(&log.bounds.primal), 25.0);
    assert_eq!(value(&log.bounds.dual), 24.0);
}

#[test]
fn optverse_margin_marks_the_row() {
    let log = parse(
        "OptVerse Optimizer version 2.0.1\n    Time    Solved      Open    It/Node    BestBound       BestSol       Gap\n     0.5s         0          0       --   0.000000e+00        --          --\n H   1.3s         0          0       --   1.235086e+02   3.530000e+02   65.01%\n *   9.0s       100         15      112   1.252192e+02   3.020000e+02   58.54%\n",
        Solver::Optverse,
    )
    .unwrap();
    assert_eq!(log.progress.len(), 3);
    assert_eq!(log.progress.event[0], None);
    assert_eq!(log.progress.event[1], Some(NodeEvent::Heuristic));
    assert_eq!(log.progress.event[2], Some(NodeEvent::BranchSolution));
    assert_eq!(log.progress.nodes_explored[2], Some(100));
    assert!((value(&log.progress.gap[2]) - 0.5854).abs() < 1e-12);
}
