//! The readers on short logs.

use miplog::quantity::{Real, Unit};
use miplog::solvers::cbc::CbcParser;
use miplog::solvers::copt::CoptParser;
use miplog::solvers::cplex::CplexParser;
use miplog::solvers::highs::HighsParser;
use miplog::solvers::mosek::MosekParser;
use miplog::solvers::optverse::OptverseParser;
use miplog::{LogParser, Solver, Status};

/// The double-precision value of a number in a log.
fn value(r: &Option<Real>) -> f64 {
    let r = r.as_ref().unwrap();
    let sum: f64 = r.literals().iter().map(|s| s.parse::<f64>().unwrap()).sum();
    match r.unit() {
        Unit::One => sum,
        Unit::Percent => sum / 100.0,
        Unit::Minute => sum * 60.0,
        Unit::Hour => sum * 3600.0,
    }
}

#[test]
fn sniff_cbc() {
    let p = CbcParser;
    assert!(p.sniff("Welcome to the CBC MILP Solver\nVersion: 2.9.8"));
    assert!(!p.sniff("Gurobi Optimizer version 11"));
}

#[test]
fn parse_cbc_log() {
    let text = r#"Welcome to the CBC MILP Solver
Version: 2.9.8
Build Date: Jun 10 2016

Problem bab5 has 4964 rows, 21600 columns and 155520 elements
Cgl0004I processed model has 4509 rows, 21151 columns (21151 integer (21151 of which binary)) and 163311 elements
Cbc0010I After 0 nodes, 1 on tree, 1e+50 best solution, best possible -112145.45 (12.35 seconds)
Cbc0004I Integer solution of -95115.013 found after 266658 iterations and 2044 nodes (119.43 seconds)
Cbc0010I After 100 nodes, 61 on tree, 1e+50 best solution, best possible -112145.45 (23.02 seconds)

Probing was tried 42091 times and created 33082 cuts of which 0 were active
Gomory was tried 39729 times and created 13630 cuts of which 0 were active

Result - Stopped on time limit

Objective value:                -104286.92120000
Lower bound:                    -111273.306
Gap:                            0.06
Enumerated nodes:               162253
Total iterations:               20695956
Time (CPU seconds):             7194.70
Time (Wallclock seconds):       7199.35

Total time (CPU seconds):       7194.79   (Wallclock seconds):       7199.45
"#;
    let log = CbcParser.parse(text).unwrap();
    assert_eq!(log.solver, Solver::Cbc);
    assert_eq!(log.version.as_deref(), Some("2.9.8"));
    assert_eq!(log.problem.as_deref(), Some("bab5"));
    assert_eq!(log.termination.status, Status::TimeLimit);
    assert!((value(&log.bounds.primal) - (-104286.9212)).abs() < 0.01);
    assert!((value(&log.bounds.dual) - (-111273.306)).abs() < 0.01);
    assert!((value(&log.bounds.gap) - 0.06).abs() < 0.001);
    assert!((value(&log.timing.wall_seconds) - 7199.45).abs() < 0.01);
    assert_eq!(log.tree.nodes_explored, Some(162253));
    assert_eq!(log.tree.simplex_iterations, Some(20695956));
    assert_eq!(log.presolve.rows_before, Some(4964));
    assert_eq!(log.presolve.rows_after, Some(4509));
    assert_eq!(log.progress.len(), 3); // 2 Cbc0010I + 1 Cbc0004I
    assert_eq!(log.cuts.get("Probing").unwrap_or(0), 33082);
    assert_eq!(log.cuts.get("Gomory").unwrap_or(0), 13630);
}

#[test]
fn sniff_copt() {
    let p = CoptParser;
    assert!(p.sniff("Cardinal Optimizer v8.0.3. Build date Jan 13 2026"));
    assert!(!p.sniff("Gurobi Optimizer version 11"));
}

#[test]
fn parse_copt_log() {
    let text = r#"Cardinal Optimizer v8.0.3. Build date Jan 13 2026
Copyright Cardinal Operations 2026. All Rights Reserved

Reading from '/home/beck/miplib2017/modified/p_30n20b8.mps.gz'

The original problem has:
    576 rows, 18380 columns and 109706 non-zero elements
    11036 binaries and 7344 integers

The presolved problem has:
    377 rows, 4113 columns and 34546 non-zero elements
    4065 binaries and 48 integers

     Nodes    Active  LPit/n  IntInf     BestBound  BestSolution     Gap   Time
         0         1      --       0  1.510000e+02            --     Inf  0.67s
H        0         1      --       0  1.510000e+02  9.060000e+02  83.33%  0.71s
         1         1   14858     144  3.020000e+02  3.020000e+02  0.000%  2.82s

Best solution   : 302.000000000
Best bound      : 302.000000000
Best gap        : 0.0000%
Solve time      : 2.83
Solve node      : 1
MIP status      : solved
Solution status : integer optimal (relative gap limit 0)
"#;
    let log = CoptParser.parse(text).unwrap();
    assert_eq!(log.solver, Solver::Copt);
    assert_eq!(log.version.as_deref(), Some("8.0.3"));
    assert_eq!(log.problem.as_deref(), Some("p_30n20b8"));
    assert_eq!(log.termination.status, Status::Optimal);
    assert!((value(&log.bounds.primal) - 302.0).abs() < 0.01);
    assert!((value(&log.bounds.dual) - 302.0).abs() < 0.01);
    assert!((value(&log.timing.wall_seconds) - 2.83).abs() < 0.01);
    assert_eq!(log.tree.nodes_explored, Some(1));
    assert_eq!(log.presolve.rows_before, Some(576));
    assert_eq!(log.presolve.cols_before, Some(18380));
    assert_eq!(log.presolve.rows_after, Some(377));
    assert_eq!(log.progress.len(), 3);
}

#[test]
fn parse_copt_infeasible() {
    let text = r#"Cardinal Optimizer v8.0.3.
Reading from 'test.mps'

The original problem has:
    10 rows, 20 columns and 50 non-zero elements

Best solution   : +inf
Best bound      : +inf
Best gap        : 0.0000%
Solve time      : 7.24
Solve node      : 63
MIP status      : solved
Solution status : infeasible
"#;
    let log = CoptParser.parse(text).unwrap();
    assert_eq!(log.termination.status, Status::Infeasible);
    assert!(log.bounds.primal.is_none());
}

#[test]
fn parse_copt_timelimit() {
    let text = r#"Cardinal Optimizer v8.0.3.

Best solution   : 212.000000000
Best bound      : 206.355726603
Best gap        : 2.6624%
Solve time      : 7200.07
Solve node      : 56948817
MIP status      : stopped (time limit reached)
Solution status : integer feasible
"#;
    let log = CoptParser.parse(text).unwrap();
    assert_eq!(log.termination.status, Status::TimeLimit);
    assert!((value(&log.bounds.primal) - 212.0).abs() < 0.01);
}

#[test]
fn sniff_cplex() {
    let p = CplexParser;
    assert!(p.sniff(
        "Welcome to IBM(R) ILOG(R) CPLEX(R) Interactive Optimizer 12.8.0.0\nCPXPARAM_TimeLimit"
    ));
    assert!(!p.sniff("Gurobi Optimizer version 11"));
}

#[test]
fn parse_cplex_log() {
    let text = r#"
Welcome to IBM(R) ILOG(R) CPLEX(R) Interactive Optimizer 12.8.0.0
  with Simplex, Mixed Integer & Barrier Optimizers

CPLEX> CPXPARAM_TimeLimit                               7200
Problem 'instances/miplib2010/bab5.mps.gz' read.
Read time = 0.04 sec. (12.97 ticks)
Reduced MIP has 4665 rows, 21379 columns, and 91629 nonzeros.
Root relaxation solution time = 0.63 sec. (910.97 ticks)

        Nodes                                         Cuts/
   Node  Left     Objective  IInf  Best Integer    Best Bound    ItCnt     Gap

*     0+    0                      -102451.6002  -108398.9052             5.80%
*     0+    0                      -105884.5712  -108398.9052             2.37%
      0     2  -108398.9052   401  -106025.2642  -108398.9052    24130    2.24%
Elapsed time = 5.02 sec. (7373.09 ticks, tree = 0.01 MB, solutions = 3)
     35    33  -106238.6135   180  -106025.2642  -108376.0418    28161    2.22%

  Gomory fractional cuts applied:  21
  Lift and project cuts applied:  25

Solution pool: 10 solutions saved.

MIP - Integer optimal solution:  Objective = -1.0641184010e+05
Solution time = 1551.53 sec.  Iterations = 4932561  Nodes = 51737
"#;
    let log = CplexParser.parse(text).unwrap();
    assert_eq!(log.solver, Solver::Cplex);
    assert_eq!(log.version.as_deref(), Some("12.8.0.0"));
    assert_eq!(log.problem.as_deref(), Some("bab5"));
    assert_eq!(log.termination.status, Status::Optimal);
    assert!((value(&log.bounds.primal) - (-1.064118401e+05)).abs() < 1.0);
    assert!((value(&log.timing.wall_seconds) - 1551.53).abs() < 0.01);
    assert_eq!(log.tree.nodes_explored, Some(51737));
    assert_eq!(log.tree.simplex_iterations, Some(4932561));
    assert_eq!(log.tree.solutions_found, Some(10));
    assert_eq!(log.presolve.rows_after, Some(4665));
    assert_eq!(log.progress.len(), 4); // 2 incumbent + 1 standard + 1 after elapsed
    assert_eq!(log.cuts.get("Gomory fractional").unwrap_or(0), 21);
}

#[test]
fn sniff_highs() {
    let p = HighsParser;
    assert!(p.sniff("Running HiGHS 1.12.0 (git hash: 62f9c446a): Copyright"));
    assert!(!p.sniff("Gurobi Optimizer version 11"));
}

#[test]
fn parse_mip_log() {
    let text = r#"Running HiGHS 1.12.0 (git hash: 62f9c446a): Copyright (c) 2025 HiGHS under MIT licence terms
MIP bell5 has 91 rows; 104 cols; 266 nonzeros
Presolve reductions: rows 81(-10); columns 98(-6); nonzeros 242(-24)

Solving MIP model with:
   81 rows
   98 cols (28 binary, 28 integer, 0 implied int., 42 continuous, 0 domain fixed)
   242 nonzeros

Src: B => Branching; C => Central rounding;

        Nodes      |    B&B Tree     |            Objective Bounds              |  Dynamic Constraints |       Work
Src  Proc. InQueue |  Leaves   Expl. | BestBound       BestSol              Gap |   Cuts   InLp Confl. | LpIters     Time

         0       0         0   0.00%   245121.59       inf                  inf        0      0      0         0     0.0s
 C       0       0         0   0.00%   8659293.449101  57124437.1918     84.84%       75     21     24        76     0.0s
 L       0       0         0   0.00%   8660780.823234  8974250.01376      3.49%       80     27     24        84     0.1s
       405       0       106 100.00%   8965513.731286  8966406.49152      0.01%      108     25    358      2796     0.2s

Solving report
  Model             bell5
  Status            Optimal
  Primal bound      8966406.49152
  Dual bound        8965513.73129
  Gap               0.00996% (tolerance: 0.01%)
  Timing            0.25
  Nodes             405
  LP iterations     2796
Model name          : bell5
Model status        : Optimal
Simplex   iterations: 2796
Objective value     :  8.9664064915e+06
HiGHS run time      :          0.25
"#;
    let log = HighsParser.parse(text).unwrap();
    assert_eq!(log.solver, Solver::Highs);
    assert_eq!(log.version.as_deref(), Some("1.12.0"));
    assert_eq!(log.solver_git_hash.as_deref(), Some("62f9c446a"));
    assert_eq!(log.problem.as_deref(), Some("bell5"));
    assert_eq!(log.termination.status, Status::Optimal);
    assert!((value(&log.bounds.primal) - 8966406.49152).abs() < 1.0);
    assert!((value(&log.bounds.dual) - 8965513.73129).abs() < 1.0);
    assert!((value(&log.timing.wall_seconds) - 0.25).abs() < 0.01);
    assert_eq!(log.tree.nodes_explored, Some(405));
    assert_eq!(log.tree.simplex_iterations, Some(2796));
    assert_eq!(log.presolve.rows_before, Some(91));
    assert_eq!(log.presolve.cols_before, Some(104));
    assert_eq!(log.presolve.rows_after, Some(81));
    assert_eq!(log.presolve.cols_after, Some(98));
    assert_eq!(log.progress.len(), 4);
}

#[test]
fn sniff_mosek() {
    let p = MosekParser;
    assert!(p.sniff("MOSEK Version 11.0.13 (Build date: 2025-3-17)"));
    assert!(!p.sniff("Gurobi Optimizer version 11"));
}

#[test]
fn parse_mosek_lp() {
    let text = "
MOSEK Version 11.0.13 (Build date: 2025-3-17 10:00:42)
Copyright (c) MOSEK ApS, Denmark WWW: mosek.com
Platform: Linux/64-X86

Problem
  Name                   : a2864-99blp.mps.gz
  Objective sense        : minimize
  Type                   : LO (linear optimization problem)
  Constraints            : 22117
  Scalar variables       : 200787

Optimizer terminated. Time: 1307.17

Interior-point solution summary
  Problem status  : PRIMAL_AND_DUAL_FEASIBLE
  Solution status : OPTIMAL
  Primal.  obj: -2.8296047432e+02   nrm: 2e+01    Viol.  con: 6e-10    var: 0e+00
  Dual.    obj: -2.8296047432e+02   nrm: 2e+01    Viol.  con: 0e+00    var: 5e-11

Basic solution summary
  Problem status  : PRIMAL_AND_DUAL_FEASIBLE
  Solution status : OPTIMAL
  Primal.  obj: -2.8296047431e+02   nrm: 2e+01    Viol.  con: 2e-11    var: 0e+00
  Dual.    obj: -2.8296047431e+02   nrm: 2e+01    Viol.  con: 7e-15    var: 8e-15

Optimizer summary
  Optimizer                 -                        time: 1307.17
    Interior-point          - iterations : 11        time: 1307.11
    Simplex                 - iterations : 0         time: 0.00
    Mixed integer           - relaxations: 0         time: 0.00

Return code - 0  [MSK_RES_OK]
";
    let log = MosekParser.parse(text).unwrap();
    assert_eq!(log.solver, Solver::Mosek);
    assert_eq!(log.version.as_deref(), Some("11.0.13"));
    assert_eq!(log.problem.as_deref(), Some("a2864-99blp"));
    assert_eq!(log.termination.status, Status::Optimal);
    assert!((value(&log.bounds.primal) - (-282.96047431)).abs() < 0.001);
    assert!((value(&log.bounds.dual) - (-282.96047431)).abs() < 0.001);
    assert!((value(&log.timing.wall_seconds) - 1307.17).abs() < 0.01);
    assert_eq!(log.tree.simplex_iterations, Some(11));
    assert_eq!(log.presolve.rows_before, Some(22117));
    assert_eq!(log.presolve.cols_before, Some(200787));
}

#[test]
fn parse_mosek_unknown() {
    let text = "
MOSEK Version 11.0.13

Problem
  Name                   : test
  Constraints            : 100
  Scalar variables       : 200

Interior-point solution summary
  Problem status  : UNKNOWN
  Solution status : UNKNOWN
  Primal.  obj: 1.3973568392e+16    nrm: 4e+10    Viol.  con: 6e+02    var: 1e+04
  Dual.    obj: -5.6480379543e+14   nrm: 4e+08    Viol.  con: 0e+00    var: 9e+04

Optimizer summary
  Optimizer                 -                        time: 15485.75
    Interior-point          - iterations : 25        time: 15484.56

Return code - 100006  [MSK_RES_TRM_STALL]
";
    let log = MosekParser.parse(text).unwrap();
    assert_eq!(log.termination.status, Status::Unknown);
    assert!((value(&log.timing.wall_seconds) - 15485.75).abs() < 0.01);
}

#[test]
fn sniff_optverse() {
    let p = OptverseParser;
    assert!(p.sniff("OptVerse Optimizer version 2.0.1"));
    assert!(p.sniff("Optverse license - expires"));
    assert!(!p.sniff("Gurobi Optimizer version 11"));
}

#[test]
fn parse_optverse_log() {
    let text = r#"Optverse license - expires in 2026-07-23
OptVerse Optimizer version 2.0.1
Copyright (c) Huawei Technologies Co., Ltd. 2022-2025. All rights reserved.

Read problem /home/beck/miplib2017/modified/p_30n20b8.mps.gz
Read time: 0.04s

Optimize a(n) MILP model
  576 rows, 18380 columns (11036 binary, 7344 integer, 0 continuous) and 109706 nonzeros
  Model fingerprint: 0x8a10608d7e44d8ce

Presolve problem
Presolve time: 0.53s
After presolve:
  463 rows, 4613 columns (4551 binary, 62 integer, 0 continuous) and 41349 nonzeros

Start parallel solving, using up to 12 threads

    Time    Solved      Open    It/Node    BestBound       BestSol       Gap  
     0.5s         0          0       --   0.000000e+00        --          --  
 H   1.3s         0          0       --   1.235086e+02   3.530000e+02   65.01%
 *   9.0s       100         15      112   1.252192e+02   3.020000e+02   58.54%
    53.0s     17374          0      129   3.020000e+02   3.020000e+02    0.00%

Solve results
  Status               Optimal solution found
  Best solution        3.020000000000e+02
  Best bound           3.020000000000e+02
  Gap                  0.0000%
  Node                 17374
  LP iteration         2250377
  Time                 52.98
"#;
    let log = OptverseParser.parse(text).unwrap();
    assert_eq!(log.solver, Solver::Optverse);
    assert_eq!(log.version.as_deref(), Some("2.0.1"));
    assert_eq!(log.problem.as_deref(), Some("p_30n20b8"));
    assert_eq!(log.termination.status, Status::Optimal);
    assert!((value(&log.bounds.primal) - 302.0).abs() < 0.01);
    assert!((value(&log.bounds.dual) - 302.0).abs() < 0.01);
    assert!((value(&log.timing.wall_seconds) - 52.98).abs() < 0.01);
    assert_eq!(log.tree.nodes_explored, Some(17374));
    assert_eq!(log.tree.simplex_iterations, Some(2250377));
    assert_eq!(log.presolve.rows_before, Some(576));
    assert_eq!(log.presolve.rows_after, Some(463));
    assert!((value(&log.timing.presolve_seconds) - 0.53).abs() < 0.01);
    assert_eq!(log.progress.len(), 4);
    // Check event parsing
    let rows = log.progress.iter();
    assert!(rows[1].event.is_some()); // H
    assert!(rows[2].event.is_some()); // *
}
