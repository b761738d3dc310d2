//! Longer logs of Gurobi, Xpress and SCIP, with all that is found in them.

use miplog::json::JsonValue;
use miplog::quantity::{Real, Unit};
use miplog::solvers::gurobi::GurobiParser;
use miplog::solvers::scip::ScipParser;
use miplog::solvers::xpress::XpressParser;
use miplog::{autodetect, parse, LogParser, NodeEvent, ParseError, Solver, SolverLog, Status};

fn value(r: &Option<Real>) -> f64 {
    let r = r.as_ref().unwrap();
    let sum: f64 = r.literals().iter().map(|s| s.parse::<f64>().unwrap()).sum();
    match r.unit() {
        Unit::One => sum,
        Unit::Percent => sum / 100.0,
        Unit::Minute => sum * 60.0,
        Unit::Hour => sum * 3600.0,
    }
}

fn other<'a>(log: &'a SolverLog, name: &str) -> Option<&'a JsonValue> {
    log.other_data.iter().find(|v| v.name == name).map(|v| &v.value)
}

fn entry<'a>(v: &'a JsonValue, name: &str) -> &'a JsonValue {
    match v {
        JsonValue::Object(entries) => &entries.iter().find(|e| e.0 == name).unwrap().1,
        _ => panic!("no object"),
    }
}

fn number(s: &str) -> JsonValue {
    JsonValue::Real(s.to_string())
}

fn text(s: &str) -> JsonValue {
    JsonValue::Text(s.to_string())
}

const GUROBI: &str = "Gurobi Optimizer version 12.0.1 build v12.0.1rc0 (linux64)

CPU model: AMD EPYC 7763, instruction set [SSE2|AVX]
Thread count: 8 physical cores, 16 logical processors, using up to 8 threads

Optimize a model with 133 rows, 201 columns and 1,923 nonzeros
Model fingerprint: 0x5f6d0a2c
Variable types: 0 continuous, 201 integer (201 binary)
Coefficient statistics:
  Matrix range     [1e+00, 6e+01]
  Objective range  [5e+01, 1e+04]
  Bounds range     [1e+00, 1e+00]
  RHS range        [1e+00, 5e+01]

Found heuristic solution: objective 10170.000000
Found heuristic solution: objective 9990.0000000
Presolve time: 0.01s
Presolved: 107 rows, 183 columns, 1,691 nonzeros
Variable types: 0 continuous, 183 integer (180 binary)

Root relaxation: objective 7.155000e+03, 114 iterations, 0.02 seconds (0.00 work units)

    Nodes    |    Current Node    |     Objective Bounds      |     Work
 Expl Unexpl |  Obj  Depth IntInf | Incumbent    BestBd   Gap | It/Node Time

     0     0 7155.00000    0   35 9990.00000 7155.00000  28.4%     -    0s
H    0     0                    8115.0000000 7155.00000  11.8%     -    0s
     0     2 7185.00000    0   40 8115.00000 7185.00000  11.5%     -    1s
*   31    12               7    7615.0000000 7400.00000  2.82%   9.1    1s
*   35    12                    7615.0000000 7400.00000  2.82%   9.1    1s
    40     4 7600.00000    6   12 7615.00000 7500.00000  1.51%   8.7    2s

Cutting planes:
  Learned: 1
  Gomory: 9
  Cover: 0
  MIR: 24

Explored 1,143 nodes (12,204 simplex iterations) in 2.41 seconds (1.10 work units)
Thread count was 8 (of 16 available processors)

Solution count 4: 7615 7865 8115 ... 9990

Optimal solution found (tolerance 1.00e-04)
Best objective 7.615000000000e+03, best bound 7.614500000000e+03, gap 0.0066%
";

#[test]
fn gurobi_log_is_read() {
    let log = GurobiParser.parse(GUROBI).unwrap();
    assert_eq!(log.solver, Solver::Gurobi);
    assert_eq!(log.version.as_deref(), Some("12.0.1"));
    assert_eq!(log.parser.version, "0.1.0");
    assert_eq!(log.parser.git_hash, "");
    assert_eq!(log.problem, None);
    assert_eq!(log.termination.status, Status::Optimal);
    assert_eq!(log.termination.raw_reason, None);
    assert_eq!(value(&log.timing.wall_seconds), 2.41);
    assert_eq!(value(&log.timing.presolve_seconds), 0.01);
    assert_eq!(value(&log.timing.root_relaxation_seconds), 0.02);
    assert_eq!(value(&log.bounds.primal), 7615.0);
    assert_eq!(value(&log.bounds.dual), 7614.5);
    assert!((value(&log.bounds.gap) - 0.000066).abs() < 1e-12);
    assert_eq!(value(&log.bounds.root_dual), 7155.0);
    assert_eq!(value(&log.bounds.first_primal), 10170.0);
    assert_eq!(log.tree.nodes_explored, Some(1143));
    assert_eq!(log.tree.simplex_iterations, Some(12204));
    assert_eq!(log.tree.solutions_found, Some(4));
    assert_eq!(log.tree.max_depth, Some(6));
    assert_eq!(log.tree.restarts, None);
    assert_eq!(log.presolve.rows_before, Some(133));
    assert_eq!(log.presolve.cols_before, Some(201));
    assert_eq!(log.presolve.nonzeros_before, Some(1923));
    assert_eq!(log.presolve.rows_after, Some(107));
    assert_eq!(log.presolve.cols_after, Some(183));
    assert_eq!(log.presolve.nonzeros_after, Some(1691));
    assert!(log.verify_common().is_ok());
}

#[test]
fn gurobi_cuts_are_named_and_positive() {
    let log = GurobiParser.parse(GUROBI).unwrap();
    assert_eq!(log.cuts.len(), 3);
    assert_eq!(log.cuts.get("Gomory"), Some(9));
    assert_eq!(log.cuts.get("MIR"), Some(24));
    assert_eq!(log.cuts.get("Learned"), Some(1));
    assert_eq!(log.cuts.get("Cover"), None);
    let names: Vec<&str> = log.cuts.entries.iter().map(|e| e.0.as_str()).collect();
    assert_eq!(names, ["Gomory", "Learned", "MIR"]);
}

#[test]
fn gurobi_rows_are_read() {
    let log = GurobiParser.parse(GUROBI).unwrap();
    // The row with a marker and a depth has eight columns: it is no row.
    assert_eq!(log.progress.len(), 5);
    let rows = log.progress.iter();
    assert_eq!(rows[0].nodes_explored, Some(0));
    assert_eq!(rows[0].depth, Some(0));
    assert_eq!(value(&rows[0].primal), 9990.0);
    assert_eq!(value(&rows[0].dual), 7155.0);
    assert!((value(&rows[0].gap) - 0.284).abs() < 1e-12);
    assert_eq!(rows[0].lp_iterations, None);
    assert_eq!(rows[0].event, None);
    assert_eq!(rows[1].event, Some(NodeEvent::Heuristic));
    assert_eq!(value(&rows[1].primal), 8115.0);
    assert_eq!(rows[1].depth, None);
    assert_eq!(rows[3].event, Some(NodeEvent::BranchSolution));
    assert_eq!(rows[3].nodes_explored, Some(35));
    assert_eq!(rows[4].depth, Some(6));
    assert_eq!(value(&Some(log.progress.last_time().unwrap())), 2.0);
}

#[test]
fn gurobi_other_data_is_read() {
    let log = GurobiParser.parse(GUROBI).unwrap();
    let names: Vec<&str> = log.other_data.iter().map(|v| v.name.as_str()).collect();
    assert_eq!(
        names,
        [
            "gurobi.coefficient_ranges",
            "gurobi.variable_types_before_presolve",
            "gurobi.variable_types_after_presolve",
            "gurobi.machine",
            "gurobi.pre_bb_heuristic_solutions",
            "gurobi.solution_pool",
            "gurobi.model_fingerprint",
            "gurobi.optimality_tolerance",
            "gurobi.work_units",
        ]
    );
    let ranges = other(&log, "gurobi.coefficient_ranges").unwrap();
    assert_eq!(entry(entry(ranges, "matrix"), "min"), &number("1e+00"));
    assert_eq!(entry(entry(ranges, "rhs"), "max"), &number("5e+01"));
    let after = other(&log, "gurobi.variable_types_after_presolve").unwrap();
    assert_eq!(entry(after, "binary"), &JsonValue::Count(180));
    let machine = other(&log, "gurobi.machine").unwrap();
    assert_eq!(entry(machine, "cpu"), &text("AMD EPYC 7763, instruction set [SSE2|AVX]"));
    assert_eq!(entry(machine, "threads_used"), &JsonValue::Count(8));
    assert_eq!(
        other(&log, "gurobi.pre_bb_heuristic_solutions"),
        Some(&JsonValue::Array(vec![number("10170.000000"), number("9990.0000000")]))
    );
    let pool = other(&log, "gurobi.solution_pool").unwrap();
    assert_eq!(entry(pool, "count"), &JsonValue::Count(4));
    assert_eq!(
        entry(pool, "top_values"),
        &JsonValue::Array(vec![number("7615"), number("7865"), number("8115"), number("9990")])
    );
    assert_eq!(other(&log, "gurobi.model_fingerprint"), Some(&text("0x5f6d0a2c")));
    assert_eq!(other(&log, "gurobi.optimality_tolerance"), Some(&number("1.00e-04")));
    assert_eq!(other(&log, "gurobi.work_units"), Some(&number("0.00")));
}

#[test]
fn gurobi_lp_optimum_is_both_bounds() {
    let log = parse(
        "Gurobi Optimizer version 12.0.1\n\nSolved in 1 iterations and 0.03 seconds (0.00 work units)\nOptimal objective -5.000000000e+00\n",
        Solver::Gurobi,
    )
    .unwrap();
    assert_eq!(log.termination.status, Status::Optimal);
    assert_eq!(value(&log.bounds.primal), -5.0);
    assert_eq!(log.bounds.primal, log.bounds.dual);
    assert_eq!(value(&log.bounds.gap), 0.0);
    assert_eq!(value(&log.timing.wall_seconds), 0.03);
    assert_eq!(log.tree.simplex_iterations, Some(1));
}

#[test]
fn gurobi_limits_give_their_reason() {
    let status = |end: &str| {
        let log = autodetect(&format!("Gurobi Optimizer version 11.0\n{end}\n")).unwrap();
        (log.termination.status, log.termination.raw_reason)
    };
    assert_eq!(
        status("Time limit reached"),
        (Status::TimeLimit, Some("Time limit reached".to_string()))
    );
    assert_eq!(
        status("Work limit reached"),
        (Status::OtherLimit, Some("Work limit reached".to_string()))
    );
    assert_eq!(status("Out of memory"), (Status::MemoryLimit, None));
    assert_eq!(status("Model is infeasible"), (Status::Infeasible, None));
    assert_eq!(
        status("Model is infeasible or unbounded"),
        (Status::InfeasibleOrUnbounded, None)
    );
    assert_eq!(status("Model is unbounded"), (Status::Unbounded, None));
    assert_eq!(status("cut off here"), (Status::Unknown, None));
}

const XPRESS: &str = "FICO Xpress Solver 64bit v9.8.0 Oct 22 2025
Reading Problem p0201
Minimizing MILP p0201 using up to 14 threads and up to 24GB memory
Original problem has:
       133 rows          201 cols         1923 elements
Presolved problem has:
       107 rows          183 cols         1691 elements
Presolve finished in 3 seconds
Coefficient range                    original                 solved
  Coefficients   [min,max] : [ 1.00e+00,  6.00e+01] / [ 1.25e-01,  1.50e+00]
  RHS and bounds [min,max] : [ 1.00e+00,  5.00e+01] / [ 2.50e-01,  8.00e+00]
  Objective      [min,max] : [ 5.00e+01,  1.00e+04] / [ 6.25e+00,  1.25e+03]

Symmetric problem: generators: 2, support set: 178
 Number of orbits: 52, largest orbit: 4
 Row orbits: 39, row support: 96

Final objective                       : 7.185000000000000e+03
  Max primal violation      (abs/rel) : 1.0e-15 / 1.0e-15
  Max dual violation        (abs/rel) : 2.0e-14 / 2.0e-14
*** Solution found: 10170.00000 Time: 0.01 Heuristic: e ***
*** Solution found: 8115.000000 Time: 0.02 Heuristic: L ***

Starting root cutting & heuristics
 Its Type    BestSoln    BestBound   Sols    Add    Del     Gap     GInf   Time
   1  K    7995.000000  7265.200000     2     15      0    9.13%      24      0
P          7865.000000  7265.200000     3                  7.63%       0      1
   2  K    7865.000000  7300.000000     3      8      4    7.18%      20      2
 *** Search completed ***
STOPPING - MIPRELSTOP target reached (MIPRELSTOP=0.0001  gap=0).
Cuts in the matrix         : 29
Final MIP objective                   : 7.615000000000000e+03
Final MIP bound                       : 7.614900000000000e+03
  Solution time / primaldual integral :         0.13s/ 21.48%
  Work / work units per second :      0.32 /      2.45
  Number of solutions found / nodes   :         4 /         1
";

#[test]
fn xpress_log_is_read() {
    let log = XpressParser.parse(XPRESS).unwrap();
    assert_eq!(log.version.as_deref(), Some("9.8.0"));
    assert_eq!(log.problem.as_deref(), Some("p0201"));
    assert_eq!(log.termination.status, Status::Optimal);
    assert_eq!(value(&log.timing.wall_seconds), 0.13);
    assert_eq!(value(&log.timing.presolve_seconds), 3.0);
    assert_eq!(value(&log.bounds.primal), 7615.0);
    assert_eq!(value(&log.bounds.dual), 7614.9);
    assert_eq!(log.bounds.gap, None);
    assert_eq!(value(&log.bounds.root_dual), 7185.0);
    assert_eq!(value(&log.bounds.first_primal), 10170.0);
    assert_eq!(value(&log.bounds.first_primal_time_seconds), 0.01);
    assert!((value(&log.bounds.primal_dual_integral) - 0.2148).abs() < 1e-12);
    assert_eq!(log.tree.solutions_found, Some(4));
    assert_eq!(log.tree.nodes_explored, Some(1));
    assert_eq!(log.presolve.rows_before, Some(133));
    assert_eq!(log.presolve.cols_before, Some(201));
    assert_eq!(log.presolve.nonzeros_before, Some(1923));
    assert_eq!(log.presolve.rows_after, Some(107));
    assert_eq!(log.presolve.cols_after, Some(183));
    assert_eq!(log.presolve.nonzeros_after, Some(1691));
    assert_eq!(log.cuts.get("total"), Some(29));
    assert_eq!(log.progress.len(), 3);
    assert_eq!(log.progress.lp_iterations, [Some(1), None, Some(2)]);
    assert_eq!(log.progress.event[1], Some(NodeEvent::BranchSolution));
    assert_eq!(value(&log.progress.primal[1]), 7865.0);
    assert!((value(&log.progress.gap[2]) - 0.0718).abs() < 1e-12);
}

#[test]
fn xpress_original_dimensions_on_one_line() {
    let log = parse(
        "FICO Xpress v9.8.1, Community\nOriginal problem has: 133 rows 201 cols 1923 elements\n",
        Solver::Xpress,
    )
    .unwrap();
    assert_eq!(log.version.as_deref(), Some("9.8.1"));
    assert_eq!(log.presolve.rows_before, Some(133));
    assert_eq!(log.presolve.cols_before, Some(201));
    assert_eq!(log.presolve.nonzeros_before, Some(1923));
}

#[test]
fn xpress_other_data_is_read() {
    let log = XpressParser.parse(XPRESS).unwrap();
    let ranges = other(&log, "xpress.coefficient_ranges").unwrap();
    let rhs = entry(ranges, "rhs_and_bounds");
    assert_eq!(entry(entry(rhs, "original"), "max"), &number("5.00e+01"));
    assert_eq!(entry(entry(rhs, "solved"), "min"), &number("2.50e-01"));
    assert_eq!(
        entry(entry(entry(ranges, "coefficients"), "solved"), "max"),
        &number("1.50e+00")
    );
    let symmetry = other(&log, "xpress.symmetry").unwrap();
    assert_eq!(entry(symmetry, "generators"), &number("2"));
    assert_eq!(entry(symmetry, "support_set"), &number("178"));
    assert_eq!(entry(symmetry, "orbits"), &number("52"));
    assert_eq!(entry(symmetry, "largest_orbit"), &number("4"));
    assert_eq!(entry(symmetry, "row_orbits"), &number("39"));
    assert_eq!(entry(symmetry, "row_support"), &number("96"));
    let config = other(&log, "xpress.run_config").unwrap();
    assert_eq!(entry(config, "threads"), &number("14"));
    assert_eq!(entry(config, "memory_limit"), &text("24GB"));
    match other(&log, "xpress.pre_bb_heuristic_solutions").unwrap() {
        JsonValue::Array(found) => {
            assert_eq!(found.len(), 2);
            assert_eq!(entry(&found[1], "heuristic"), &text("L"));
            assert_eq!(entry(&found[1], "value"), &number("8115.000000"));
        }
        _ => panic!("no array"),
    }
    let work = other(&log, "xpress.work").unwrap();
    assert_eq!(entry(work, "work_units_per_second"), &number("2.45"));
    let stopping = other(&log, "xpress.stopping_reason").unwrap();
    assert_eq!(entry(stopping, "reason"), &text("MIPRELSTOP target reached"));
    assert_eq!(entry(stopping, "detail"), &text("MIPRELSTOP=0.0001  gap=0"));
    let quality = other(&log, "xpress.solution_quality").unwrap();
    assert_eq!(entry(quality, "max_primal_violation"), &number("1.0e-15"));
    assert_eq!(entry(quality, "max_dual_violation"), &number("2.0e-14"));
}

#[test]
fn xpress_lp_and_limits() {
    let lp = parse(
        "FICO Xpress v9.8.1, Community\nDual solved problem\n  85 simplex iterations in 0.25 seconds at time 0\n\nFinal objective : -5.0e+00\n",
        Solver::Xpress,
    )
    .unwrap();
    assert_eq!(lp.termination.status, Status::Optimal);
    assert_eq!(value(&lp.timing.wall_seconds), 0.25);
    assert_eq!(lp.tree.simplex_iterations, Some(85));
    assert_eq!(value(&lp.bounds.primal), -5.0);
    assert_eq!(lp.bounds.primal, lp.bounds.dual);
    assert_eq!(value(&lp.bounds.gap), 0.0);

    let status = |end: &str| {
        let log = autodetect(&format!("FICO Xpress v9.8.1\nMILP\n{end}\n")).unwrap();
        (log.termination.status, log.termination.raw_reason)
    };
    assert_eq!(
        status("STOPPING - MAXTIME limit reached"),
        (Status::TimeLimit, Some("MAXTIME".to_string()))
    );
    assert_eq!(
        status("STOPPING - MAXNODE limit reached"),
        (Status::OtherLimit, Some("MAXNODE".to_string()))
    );
    assert_eq!(
        status(" *** Search unfinished ***"),
        (Status::TimeLimit, Some("Search unfinished".to_string()))
    );
    assert_eq!(
        status(" *** Search completed ***\nProblem is integer infeasible"),
        (Status::Infeasible, None)
    );
}

#[test]
fn xpress_tree_rows_are_read() {
    let log = parse(
        "FICO Xpress v9.8.1\n    Node     BestSoln    BestBound   Sols Active  Depth     Gap     GInf   Time\n       1  7865.000000  7300.000000      3      2      1    7.18%      20      0\na     14  7615.000000  7400.000000      4      6      9    2.82%       0      1\n      20               7450.000000      4      3      5             12      2\n\n",
        Solver::Xpress,
    )
    .unwrap();
    assert_eq!(log.progress.len(), 3);
    assert_eq!(log.progress.nodes_explored, [Some(1), Some(14), Some(20)]);
    assert_eq!(log.progress.depth, [Some(1), Some(9), Some(5)]);
    assert_eq!(log.progress.event[1], Some(NodeEvent::Other("a".to_string())));
    assert_eq!(log.progress.primal[2], None);
    assert_eq!(log.tree.max_depth, Some(9));
}

const SCIP: &str = "SCIP version 11.0.0 [precision: 8 byte] [memory: block] [mode: optimized] [GitHash: 4f4f68fb97-dirty]

read problem <instances/p0201.mps.gz>
original problem has 201 variables (201 bin, 0 int, 0 impl, 0 cont) and 133 constraints
presolved problem has 183 variables (180 bin, 3 int, 0 impl, 0 cont) and 107 constraints
     81 constraints of type <knapsack>
     26 constraints of type <setppc>
Presolving Time: 0.02

 time | node  | left  |LP iter|LP it/n|mem/heur|mdpt |vars |cons |rows |cuts |sepa|confs|strbr|  dualbound   | primalbound  |  gap   | compl.
p 0.0s|     1 |     0 |     0 |     - |   locks|   0 | 183 | 107 | 107 |   0 |  0 |   0 |   0 | 6.875000e+03 | 1.208500e+04 |  75.78%| unknown
  0.1s|     1 |     0 |   136 |     - |  2500k |   0 | 183 | 107 | 107 |   0 |  0 |   0 |   0 | 7.115000e+03 |      -       |    Inf | unknown
* 0.3s|    28 |     4 |  1868 |  36.1 |    LP  |   7 | 183 | 110 | 120 |  44 |  1 |   3 |  20 | 7.371592e+03 | 7.615000e+03 |   3.30%|  12.5%

SCIP Status        : problem is solved [optimal solution found]
Solving Time (sec) : 0.55
Solving Nodes      : 31
Primal Bound       : +7.61500000000000e+03 (13 solutions)
Dual Bound         : +7.61500000000000e+03
Gap                : 0.00 %

Integrals          :      Total       Avg%
  primal-dual      :       5.29      12.61
  primal-ref       :          -          - (not evaluated)

Conflict Analysis  :       Time      Calls    Success    DomReds  Conflicts   Literals
  propagation      :       0.00         12          3          -          2       14.5
Separators         :   ExecTime  SetupTime      Calls  RootCalls    Cutoffs    DomReds  FoundCuts ViaPoolAdd  DirectAdd    Applied ViaPoolApp  DirectApp      Conss
  cut pool         :       0.00          -         20         20          -          -        100        100          -          -          -          -          -
  aggregation      :       0.02       0.00         21         21          0          0        196         50          0         17         17          0          0
  > cmir           :          -          -          -          -          -          -         90         20          0         12         12          0          -
  gomory           :       0.05       0.00         21         21          0          0        250         88          0          0          0          0          0
Branching Rules    :   ExecTime  SetupTime   BranchLP  BranchExt   BranchPS    Cutoffs    DomReds       Cuts      Conss   Children
  relpscost        :       0.10       0.00         14          0          0          1         20          0          0         28
Primal Heuristics  :   ExecTime  SetupTime      Calls      Found       Best
  LP solutions     :       0.00          -          -          4          2
  locks            :       0.00       0.00          1          1          1
LP                 :       Time      Calls Iterations  Iter/call   Iter/sec  Time-0-It Calls-0-It    ItLimit
  primal LP        :       0.00          1          0       0.00          -       0.00          1
  dual LP          :       0.03         60      1,868      31.13   62266.67       0.00          0
  barrier LP       :       0.00          0          0          -          -
B&B Tree           :
  number of runs   :          1
  nodes            :         29 (15 internal, 14 leaves)
  max depth        :          7
  avg switch length:       3.21
Root Node          :
  First LP value   : +7.11500000000000e+03
  First LP Iters   :        136
  First LP Time    :       0.04
  Final Dual Bound : +7.37159226382289e+03
Solution           :
  First Solution   : +1.20850000000000e+04   (in run 1, after 1 nodes, 0.01 seconds, depth 26, found by <locks>)
  Primal Bound     : +7.61500000000000e+03   (in run 1, after 28 nodes, 0.43 seconds, depth 6, found by <relaxation>)
";

#[test]
fn scip_log_is_read() {
    let log = ScipParser.parse(SCIP).unwrap();
    assert_eq!(log.version.as_deref(), Some("11.0.0"));
    assert_eq!(log.solver_git_hash.as_deref(), Some("4f4f68fb97-dirty"));
    assert_eq!(log.problem.as_deref(), Some("p0201"));
    assert_eq!(log.termination.status, Status::Optimal);
    assert_eq!(log.termination.raw_reason.as_deref(), Some("optimal solution found"));
    assert_eq!(value(&log.timing.wall_seconds), 0.55);
    assert_eq!(value(&log.timing.presolve_seconds), 0.02);
    assert_eq!(value(&log.timing.root_relaxation_seconds), 0.04);
    assert_eq!(value(&log.bounds.primal), 7615.0);
    assert_eq!(value(&log.bounds.dual), 7615.0);
    assert_eq!(value(&log.bounds.gap), 0.0);
    assert_eq!(value(&log.bounds.root_dual), 7371.59226382289);
    assert_eq!(value(&log.bounds.first_primal), 12085.0);
    assert_eq!(value(&log.bounds.first_primal_time_seconds), 0.01);
    assert_eq!(value(&log.bounds.primal_dual_integral), 5.29);
    assert_eq!(log.tree.solutions_found, Some(13));
    assert_eq!(log.tree.nodes_explored, Some(31));
    assert_eq!(log.tree.simplex_iterations, Some(1868));
    assert_eq!(log.tree.max_depth, Some(7));
    assert_eq!(log.tree.restarts, Some(1));
    assert_eq!(log.presolve.cols_before, Some(201));
    assert_eq!(log.presolve.rows_before, Some(133));
    assert_eq!(log.presolve.cols_after, Some(183));
    assert_eq!(log.presolve.rows_after, Some(107));
    assert_eq!(log.cuts.len(), 1);
    assert_eq!(log.cuts.get("aggregation"), Some(17));
}

#[test]
fn scip_rows_are_read() {
    let log = ScipParser.parse(SCIP).unwrap();
    assert_eq!(log.progress.len(), 3);
    let rows = log.progress.iter();
    assert_eq!(rows[0].event, Some(NodeEvent::Heuristic));
    assert_eq!(value(&rows[0].primal), 12085.0);
    assert!((value(&rows[0].gap) - 0.7578).abs() < 1e-12);
    assert_eq!(rows[1].event, None);
    assert_eq!(rows[1].primal, None);
    assert_eq!(rows[1].gap, None);
    assert_eq!(rows[1].lp_iterations, Some(136));
    assert_eq!(rows[2].event, Some(NodeEvent::BranchSolution));
    assert_eq!(rows[2].nodes_explored, Some(28));
    assert_eq!(rows[2].depth, Some(7));
    assert_eq!(value(&Some(rows[2].time_seconds.copy())), 0.3);
}

#[test]
fn scip_other_data_is_read() {
    let log = ScipParser.parse(SCIP).unwrap();
    let names: Vec<&str> = log.other_data.iter().map(|v| v.name.as_str()).collect();
    assert_eq!(
        names,
        [
            "scip.root_node",
            "scip.tree",
            "scip.solution_attribution",
            "scip.heuristics",
            "scip.separators",
            "scip.branching_rules",
            "scip.lp_breakdown",
            "scip.conflict_analysis",
            "scip.constraints_by_type",
            "scip.integrals",
        ]
    );
    let root = other(&log, "scip.root_node").unwrap();
    assert_eq!(entry(root, "first_lp_iters"), &JsonValue::Integer(136));
    assert_eq!(entry(root, "first_lp_value"), &number("7.11500000000000e+03"));
    let tree = other(&log, "scip.tree").unwrap();
    assert_eq!(entry(tree, "nodes"), &JsonValue::Integer(29));
    assert_eq!(entry(tree, "avg_switch_length"), &number("3.21"));
    let attribution = other(&log, "scip.solution_attribution").unwrap();
    assert_eq!(entry(entry(attribution, "first"), "heuristic"), &text("locks"));
    assert_eq!(entry(entry(attribution, "best"), "nodes"), &JsonValue::Integer(28));
    assert_eq!(entry(entry(attribution, "best"), "time_seconds"), &number("0.43"));
    match other(&log, "scip.separators").unwrap() {
        JsonValue::Array(rows) => {
            assert_eq!(rows.len(), 3);
            assert_eq!(entry(&rows[0], "name"), &text("cut pool"));
            assert_eq!(entry(&rows[0], "setup_time"), &JsonValue::Null);
            assert_eq!(entry(&rows[1], "applied"), &JsonValue::Integer(17));
        }
        _ => panic!("no array"),
    }
    match other(&log, "scip.heuristics").unwrap() {
        JsonValue::Array(rows) => {
            assert_eq!(rows.len(), 2);
            assert_eq!(entry(&rows[0], "name"), &text("LP solutions"));
            assert_eq!(entry(&rows[0], "found"), &JsonValue::Integer(4));
        }
        _ => panic!("no array"),
    }
    let types = other(&log, "scip.constraints_by_type").unwrap();
    assert_eq!(entry(types, "knapsack"), &JsonValue::Count(81));
    let integrals = other(&log, "scip.integrals").unwrap();
    assert_eq!(entry(entry(integrals, "primal_dual"), "avg_pct"), &number("12.61"));
    assert_eq!(entry(entry(integrals, "primal_ref"), "total"), &JsonValue::Null);
}

#[test]
fn scip_status_ignores_case() {
    let status = |reason: &str| {
        autodetect(&format!("SCIP Status        : solving was interrupted [{reason}]\n"))
            .unwrap()
            .termination
            .status
    };
    assert_eq!(status("Time Limit reached"), Status::TimeLimit);
    assert_eq!(status("INFEASIBLE or UNBOUNDED"), Status::InfeasibleOrUnbounded);
    assert_eq!(status("user interrupt"), Status::UserInterrupt);
    assert_eq!(status("node limit reached"), Status::OtherLimit);
    assert_eq!(status("memory limit reached"), Status::MemoryLimit);
    assert_eq!(status("\u{130}nfeasible"), Status::Unknown);
}

#[test]
fn other_data_are_named_after_the_solver() {
    for (text, key) in [(GUROBI, "gurobi."), (XPRESS, "xpress."), (SCIP, "scip.")] {
        let log = autodetect(text).unwrap();
        assert!(log.other_data.len() > 1);
        let mut names: Vec<&str> = log.other_data.iter().map(|v| v.name.as_str()).collect();
        assert!(names.iter().all(|n| n.starts_with(key)));
        names.sort();
        let n = names.len();
        names.dedup();
        assert_eq!(names.len(), n);
    }
}

#[test]
fn empty_text_is_an_error() {
    assert_eq!(parse(" \n\t", Solver::Scip).unwrap_err(), ParseError::Empty);
    let e = autodetect("").unwrap_err();
    assert_eq!(e, ParseError::Empty);
    assert_eq!(e.message(), "log appears empty or truncated");
}

#[test]
fn wrong_solver_is_named() {
    let e = parse("Gurobi Optimizer version 11", Solver::Highs).unwrap_err();
    assert_eq!(e, ParseError::WrongSolver("highs"));
    assert_eq!(e.message(), "log does not look like a highs log");
}

#[test]
fn unrecognized_text_is_an_error() {
    let e = autodetect("nothing that a solver wrote").unwrap_err();
    assert_eq!(e, ParseError::Other("no parser recognized the log".to_string()));
    assert_eq!(e.message(), "no parser recognized the log");
}

#[test]
fn detection_agrees_with_the_named_reader() {
    for text in [GUROBI, XPRESS, SCIP] {
        let found = autodetect(text).unwrap();
        let named = parse(text, found.solver).unwrap();
        assert_eq!(found, named);
    }
    assert_eq!(autodetect(GUROBI).unwrap().solver, Solver::Gurobi);
    assert_eq!(autodetect(XPRESS).unwrap().solver, Solver::Xpress);
    assert_eq!(autodetect(SCIP).unwrap().solver, Solver::Scip);
    // A text that two readers recognize goes to the first in order.
    let both = format!("{SCIP}{GUROBI}");
    assert_eq!(autodetect(&both).unwrap().solver, Solver::Gurobi);
}
