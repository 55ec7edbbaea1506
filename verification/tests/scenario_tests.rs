use flare::bitset::Bitset;
use flare::chunk::{Chunk, Column};
use flare::expr::{AggType, ArithOp, Expr, ExprGraph, ExprKey, ExprProp, RelOp};
use flare::flow::Flow;
use flare::graph::Graph;
use flare::includes::QunCol;
use flare::lop::{LOPGraph, LOPKey, LOPProps, PartDesc, PartType, LOP};
use flare::metadata::{CSVDesc, TableType};
use flare::pop::{POPKey, POP};
use flare::pop_csv::split_file;
use flare::pop_repartition::RepartitionReadContext;
use flare::pop_run::{set_up, LeafInput, TaskOutput};
use flare::qgm::{QGMMetadata, QueryBlockGraph, QueryBlockKey, QGM};
use flare::row::{DataType, Datum};
use flare::task::{OldStage, Scheduler, SchedulerStep, Task};
use std::collections::BTreeMap;

const EMP: &str = "name,age,dept_id\na,20,1\nb,30,2\nc,25,1\n";
const DEPT: &str = "1|eng\n2|sales\n";

fn lines(text: &str) -> Vec<String> {
    text.lines().map(|l| l.to_string()).collect()
}

fn prop(t: DataType) -> ExprProp {
    ExprProp { data_type: t }
}

fn cols(list: &[(usize, usize)]) -> Bitset<QunCol> {
    let mut set: Bitset<QunCol> = Bitset::new();
    for (q, c) in list {
        set.set(QunCol(*q, *c));
    }
    set
}

fn exprs(list: &[usize]) -> Bitset<ExprKey> {
    let mut set: Bitset<ExprKey> = Bitset::new();
    for id in list {
        set.set(ExprKey { id: *id });
    }
    set
}

fn quns(list: &[usize]) -> Bitset<usize> {
    let mut set: Bitset<usize> = Bitset::new();
    for q in list {
        set.set(*q);
    }
    set
}

/// Expressions: 0 = emp.age, 1 = 22, 2 = age > 22, 3 = emp.name, 4 = age + name,
/// 5 = emp.dept_id, 6 = dept.dept_id, 7 = 1.
fn query() -> QGM {
    let mut graph = ExprGraph::new();
    graph.add_node_with_props(Expr::CID(0, 1), prop(DataType::INT), None);
    graph.add_node_with_props(Expr::Literal(Datum::INT(22)), prop(DataType::INT), None);
    graph.add_node_with_props(Expr::RelExpr(RelOp::Gt), prop(DataType::BOOL), Some(vec![0, 1]));
    graph.add_node_with_props(Expr::CID(0, 0), prop(DataType::STR), None);
    graph.add_node_with_props(Expr::BinaryExpr(ArithOp::Add), prop(DataType::INT), Some(vec![0, 3]));
    graph.add_node_with_props(Expr::CID(0, 2), prop(DataType::INT), None);
    graph.add_node_with_props(Expr::CID(1, 0), prop(DataType::INT), None);
    graph.add_node_with_props(Expr::Literal(Datum::INT(1)), prop(DataType::INT), None);
    let mut metadata = QGMMetadata::new();
    metadata.add_tabledesc(0, TableType::CSV, CSVDesc::new("emp.csv".to_string(), ',', true, &lines(EMP)));
    metadata.add_tabledesc(1, TableType::CSV, CSVDesc::new("dept.csv".to_string(), '|', false, &lines(&format!("x|y\n{}", DEPT))));
    QGM {
        main_qblock_key: QueryBlockKey { id: 0 },
        cte_list: vec![],
        qblock_graph: QueryBlockGraph::new(),
        expr_graph: graph,
        metadata,
    }
}

fn scan(lops: &mut LOPGraph, qun: usize, width: usize, out: &[(usize, usize)], preds: &[usize], npartitions: usize) -> usize {
    let all: Vec<(usize, usize)> = (0..width).map(|c| (qun, c)).collect();
    lops.add_node_with_props(
        LOP::TableScan { input_projection: cols(&all) },
        LOPProps {
            quns: quns(&[qun]),
            cols: cols(out),
            virtcols: None,
            preds: exprs(preds),
            partdesc: PartDesc { npartitions, part_type: PartType::RAW },
        },
        None,
    )
}

/// The lines of partition `p` of a file read in `np` partitions, without the header.
fn partition_lines(text: &str, header: bool, np: usize, p: usize) -> Vec<String> {
    let bytes = text.as_bytes().to_vec();
    let part = split_file(&bytes, np)[p];
    let piece = &text[part.0 as usize..part.1 as usize];
    let mut out = lines(piece);
    if header && part.0 == 0 && !out.is_empty() {
        out.remove(0);
    }
    out
}

/// Reads the leaves of the stage rooted at `root` for partition `p`: scans parse their
/// partition of the text, the read side of a shuffle takes what was spilled for it.
fn read_leaves(flow: &Flow, root: usize, p: usize, files: &BTreeMap<String, Vec<Chunk>>) -> Vec<LeafInput> {
    let mut inputs = vec![];
    let mut todo = vec![root];
    while let Some(key) = todo.pop() {
        let (pop, _, children) = flow.pop_graph.get3(key);
        match pop {
            POP::CSV(csv) => {
                let text = if csv.pathname == "emp.csv" { EMP } else { DEPT };
                let rows = partition_lines(text, csv.header, csv.npartitions, p);
                inputs.push(LeafInput { pop_key: POPKey { id: key }, chunks: vec![csv.parse_lines(&rows).unwrap()] });
            }
            POP::RepartitionRead(read) => {
                let dir = flare::pop_repartition::get_partition_dir("tmp", flow.id, *read.stage_link(), p);
                let found: Vec<String> = files.keys().filter(|f| f.starts_with(&format!("{}/", dir))).cloned().collect();
                let listing = if found.is_empty() {
                    Err(format!("Os {{ code: 2, kind: NotFound, message: \"No such file or directory\" }}: {}", dir))
                } else {
                    Ok(found)
                };
                let mut ctx = RepartitionReadContext::new(POPKey { id: key }, p, listing).unwrap();
                let chunks: Vec<Chunk> = ctx.files.iter().flat_map(|f| files[f].clone()).collect();
                ctx.load(chunks.clone());
                inputs.push(LeafInput { pop_key: POPKey { id: key }, chunks });
            }
            _ => {
                if let Some(children) = children {
                    todo.extend(children.iter());
                }
            }
        }
    }
    inputs
}

/// Runs a flow the way the scheduler asks for and returns the chunks of the root stage.
fn run(flow: &Flow, nworkers: usize) -> Vec<Chunk> {
    run_counting(flow, nworkers).0
}

/// As `run`; also counts the tasks of the root stage whose stream ended at once.
fn run_counting(flow: &Flow, nworkers: usize) -> (Vec<Chunk>, usize) {
    let mut silent = 0;
    let mut files: BTreeMap<String, Vec<Chunk>> = BTreeMap::new();
    let mut result = vec![];
    let mut sched = Scheduler::new(flow, nworkers);
    loop {
        match sched.schedule(flow) {
            SchedulerStep::Dispatch(stage_id, tasks) => {
                let stage = flow.stage_graph.get_stage(stage_id);
                let root = stage.root_pop_key.unwrap();
                assert_eq!(tasks.len(), stage.npartitions);
                for d in tasks {
                    assert_eq!(d.thread_id, d.partition_id % nworkers);
                    let inputs = read_leaves(flow, root.id, d.partition_id, &files);
                    let mut task = Task::new(d.partition_id);
                    let out: TaskOutput = task.run(flow, &OldStage::new(flow, root), "tmp", &inputs).unwrap();
                    for w in out.writes {
                        assert_eq!(w.create, !files.contains_key(&w.path));
                        files.entry(w.path).or_default().push(w.chunk);
                    }
                    for path in out.closed {
                        assert!(files.contains_key(&path));
                    }
                    if stage_id == 0 {
                        assert!(out.chunks.iter().all(|c| c.len() > 0));
                        if out.chunks.is_empty() {
                            silent += 1;
                        }
                        result.extend(out.chunks);
                    }
                    assert_eq!(sched.schedule(flow), SchedulerStep::Wait);
                    sched.on_ack(flow);
                }
            }
            SchedulerStep::Finish => break,
            other => panic!("unexpected step {:?}", other),
        }
    }
    (result, silent)
}

fn rows(chunks: &[Chunk]) -> Vec<Vec<Datum>> {
    let mut out = vec![];
    for chunk in chunks {
        for i in 0..chunk.len() {
            out.push(chunk.arrays.iter().map(|c| c.get(i)).collect());
        }
    }
    out.sort_by_key(|r| format!("{:?}", r));
    out
}

fn s(text: &str) -> Datum {
    Datum::STR(text.to_string())
}

#[test]
fn scenario_filter_and_project() {
    let qgm = query();
    let mut lops: LOPGraph = Graph::new();
    let root = scan(&mut lops, 0, 3, &[(0, 2), (0, 1), (0, 0)], &[2], 2);
    let flow = POP::compile(&qgm, &lops, LOPKey { id: root }).unwrap();
    assert_eq!(
        rows(&run(&flow, 4)),
        vec![vec![Datum::INT(1), Datum::INT(25), s("c")], vec![Datum::INT(2), Datum::INT(30), s("b")]]
    );
}

fn grouped(child: usize, lops: &mut LOPGraph, npartitions: usize) -> usize {
    lops.add_node_with_props(
        LOP::Aggregation {
            group_by: vec![ExprKey { id: 5 }],
            aggs: vec![
                (AggType::COUNT, ExprKey { id: 7 }),
                (AggType::SUM, ExprKey { id: 0 }),
                (AggType::MIN, ExprKey { id: 0 }),
                (AggType::MAX, ExprKey { id: 0 }),
            ],
        },
        LOPProps {
            quns: quns(&[0]),
            cols: cols(&[(0, 2)]),
            virtcols: None,
            preds: exprs(&[]),
            partdesc: PartDesc { npartitions, part_type: PartType::ANY },
        },
        Some(vec![child]),
    )
}

fn by_dept() -> Vec<Vec<Datum>> {
    vec![
        vec![Datum::INT(1), Datum::INT(2), Datum::INT(45), Datum::INT(20), Datum::INT(25)],
        vec![Datum::INT(2), Datum::INT(1), Datum::INT(30), Datum::INT(30), Datum::INT(30)],
    ]
}

#[test]
fn scenario_grouped_aggregate() {
    let qgm = query();
    let mut lops: LOPGraph = Graph::new();
    let emp = scan(&mut lops, 0, 3, &[(0, 0), (0, 1), (0, 2)], &[], 1);
    let root = grouped(emp, &mut lops, 1);
    let flow = POP::compile(&qgm, &lops, LOPKey { id: root }).unwrap();
    assert_eq!(rows(&run(&flow, 1)), by_dept());
}

#[test]
fn scenario_hash_join() {
    let qgm = query();
    let mut lops: LOPGraph = Graph::new();
    let emp = scan(&mut lops, 0, 3, &[(0, 0), (0, 1), (0, 2)], &[], 1);
    let dept = scan(&mut lops, 1, 2, &[(1, 0), (1, 1)], &[], 1);
    let join = lops.add_node_with_props(
        LOP::HashJoin { keys: vec![(ExprKey { id: 5 }, ExprKey { id: 6 })] },
        LOPProps {
            quns: quns(&[0, 1]),
            cols: cols(&[(0, 0), (1, 1)]),
            virtcols: None,
            preds: exprs(&[]),
            partdesc: PartDesc { npartitions: 1, part_type: PartType::ANY },
        },
        Some(vec![emp, dept]),
    );
    let flow = POP::compile(&qgm, &lops, LOPKey { id: join }).unwrap();
    assert_eq!(
        rows(&run(&flow, 2)),
        vec![vec![s("a"), s("eng")], vec![s("b"), s("sales")], vec![s("c"), s("eng")]]
    );
}

fn shuffled(cpartitions: usize) -> Flow {
    let qgm = query();
    let mut lops: LOPGraph = Graph::new();
    let emp = scan(&mut lops, 0, 3, &[(0, 0), (0, 1), (0, 2)], &[], 4);
    let shuffle = lops.add_node_with_props(
        LOP::Repartition { part_type: PartType::HASHEXPR(vec![ExprKey { id: 5 }]) },
        LOPProps {
            quns: quns(&[0]),
            cols: cols(&[(0, 0), (0, 1), (0, 2)]),
            virtcols: None,
            preds: exprs(&[]),
            partdesc: PartDesc { npartitions: cpartitions, part_type: PartType::HASHEXPR(vec![ExprKey { id: 5 }]) },
        },
        Some(vec![emp]),
    );
    let root = grouped(shuffle, &mut lops, cpartitions);
    POP::compile(&qgm, &lops, LOPKey { id: root }).unwrap()
}

#[test]
fn scenario_repartitioned_aggregate() {
    let flow = shuffled(3);
    assert_eq!(flow.stage_graph.execution_order(), vec![1, 0]);
    assert_eq!(rows(&run(&flow, 2)), by_dept());
}

#[test]
fn scenario_missing_producer_files() {
    // Two departments over sixteen consumers: most consumers find no directory at all.
    let flow = shuffled(16);
    let (chunks, silent) = run_counting(&flow, 3);
    assert_eq!(rows(&chunks), by_dept());
    assert!(silent >= 14);
    // A consumer without a directory hands on the chunk without rows, again and again.
    let listing = Err("Os { code: 2, kind: NotFound, message: \"No such file or directory\" }".to_string());
    let mut reader = RepartitionReadContext::new(POPKey { id: 2 }, 5, listing).unwrap();
    assert!(reader.files.is_empty());
    reader.load(vec![]);
    let mut rt = set_up(&flow.pop_graph, flow.stage_graph.get_stage(0).root_pop_key.unwrap(), 5, &vec![]);
    assert_eq!(rt.next().unwrap().len(), 0);
    assert_eq!(rt.next().unwrap().len(), 0);
}

#[test]
fn a_failed_task_stops_the_scheduler() {
    let flow = shuffled(3);
    let mut sched = Scheduler::new(&flow, 2);
    assert!(matches!(sched.schedule(&flow), SchedulerStep::Dispatch(1, _)));
    sched.on_error("spill write failure".to_string());
    sched.on_error("second".to_string());
    assert_eq!(sched.schedule(&flow), SchedulerStep::Fail("spill write failure".to_string()));
    assert_eq!(sched.current, 1);
}

#[test]
fn the_consumer_stage_waits_for_every_producer_task() {
    let flow = shuffled(3);
    let mut sched = Scheduler::new(&flow, 2);
    match sched.schedule(&flow) {
        SchedulerStep::Dispatch(stage, tasks) => {
            assert_eq!(stage, 1);
            let threads: Vec<usize> = tasks.iter().map(|t| t.thread_id).collect();
            assert_eq!(threads, vec![0, 1, 0, 1]);
        }
        other => panic!("unexpected step {:?}", other),
    }
    for _ in 0..4 {
        assert_eq!(sched.schedule(&flow), SchedulerStep::Wait);
        sched.on_ack(&flow);
    }
    assert!(matches!(sched.schedule(&flow), SchedulerStep::Dispatch(0, _)));
    for _ in 0..3 {
        assert_eq!(sched.schedule(&flow), SchedulerStep::Wait);
        sched.on_ack(&flow);
    }
    assert_eq!(sched.schedule(&flow), SchedulerStep::Finish);
    assert_eq!(sched.acked, vec![3, 4]);
}

#[test]
fn task_faults() {
    let flow = shuffled(3);
    let mut task = Task::new(0);
    let nowhere = OldStage::new(&flow, POPKey { id: 99 });
    assert_eq!(
        task.run(&flow, &nowhere, "tmp", &vec![]),
        Err("Task: an operator or one of its inputs is not in the plan".to_string())
    );
    let ragged = Chunk { arrays: vec![Column::Int(vec![1]), Column::Int(vec![])] };
    let inputs = vec![LeafInput { pop_key: POPKey { id: 0 }, chunks: vec![ragged] }];
    let producer = OldStage::new(&flow, POPKey { id: 1 });
    assert_eq!(
        task.run(&flow, &producer, "tmp", &inputs),
        Err("Task: a chunk has arrays of different lengths".to_string())
    );
    // Without input a producer writes nothing.
    let out = task.run(&flow, &producer, "tmp", &vec![]).unwrap();
    assert_eq!(out, TaskOutput { chunks: vec![], writes: vec![], closed: vec![] });
    assert_eq!(OldStage::new(&flow, POPKey { id: 1 }).run(&flow, 3).len(), 4);
}

#[test]
fn the_write_side_must_be_the_root_of_its_stage() {
    let flow = shuffled(3);
    let mut task = Task::new(0);
    // the read side reads from the write side, which no task may run as an inner operator
    let reader_with_writer_below = {
        let mut copy = shuffled(3);
        copy.pop_graph.nodes[2].value = POP::HashJoin(flare::pop_hashjoin::HashJoin::new(vec![], vec![]));
        copy.pop_graph.nodes[2].children = Some(vec![1, 1]);
        copy
    };
    assert_eq!(
        task.run(&reader_with_writer_below, &OldStage::new(&flow, POPKey { id: 2 }), "tmp", &vec![]),
        Err("Task: the write side of a shuffle can only be the root of a stage".to_string())
    );
    assert_eq!(flow.stage_graph.get_stage(1).stage_link(), Some(flare::stage::StageLink(1, 0)));
    assert_eq!(flow.stage_graph.get_stage(0).stage_link(), None);
}

#[test]
fn a_producer_writes_every_row_for_exactly_one_consumer() {
    let flow = shuffled(3);
    let root = flow.stage_graph.get_stage(1).root_pop_key.unwrap();
    let none: BTreeMap<String, Vec<Chunk>> = BTreeMap::new();
    let mut written = 0;
    let mut read = 0;
    for p in 0..4 {
        let inputs = read_leaves(&flow, root.id, p, &none);
        read += inputs.iter().flat_map(|i| i.chunks.iter()).map(|c| c.len()).sum::<usize>();
        let out = Task::new(p).run(&flow, &OldStage::new(&flow, root), "tmp", &inputs).unwrap();
        assert!(out.chunks.is_empty());
        for w in &out.writes {
            assert!(w.chunk.len() > 0);
            written += w.chunk.len();
            // Every row of a write has keys that hash to the consumer it is written for.
            let keys = Chunk::new(vec![w.chunk.arrays[2].clone()]);
            let hashes = flare::pop_repartition::RepartitionWriteContext::hash_chunk(&keys);
            let parts = flare::pop_repartition::RepartitionWriteContext::compute_partitions(&hashes, 3);
            assert!(parts.iter().all(|part| *part == w.cpartition as u64));
        }
    }
    assert_eq!(read, 3);
    assert_eq!(written, 3);
}

#[test]
fn an_aggregate_does_not_depend_on_the_order_or_the_cut_of_its_input() {
    let qgm = query();
    let mut lops: LOPGraph = Graph::new();
    let emp = scan(&mut lops, 0, 3, &[(0, 0), (0, 1), (0, 2)], &[], 1);
    let root = grouped(emp, &mut lops, 1);
    let flow = POP::compile(&qgm, &lops, LOPKey { id: root }).unwrap();
    let stage = OldStage::new(&flow, flow.stage_graph.get_stage(0).root_pop_key.unwrap());
    let csv = match flow.pop_graph.get_value(0) {
        POP::CSV(csv) => csv,
        other => panic!("unexpected operator {:?}", other),
    };
    let chunk = |rows: &[&str]| csv.parse_lines(&rows.iter().map(|r| r.to_string()).collect()).unwrap();
    let one = vec![LeafInput { pop_key: POPKey { id: 0 }, chunks: vec![chunk(&["a,20,1", "b,30,2", "c,25,1"])] }];
    let other = vec![LeafInput {
        pop_key: POPKey { id: 0 },
        chunks: vec![chunk(&["c,25,1"]), chunk(&[]), chunk(&["b,30,2", "a,20,1"])],
    }];
    let first = Task::new(0).run(&flow, &stage, "tmp", &one).unwrap();
    let second = Task::new(0).run(&flow, &stage, "tmp", &other).unwrap();
    assert_eq!(rows(&first.chunks), by_dept());
    assert_eq!(rows(&second.chunks), by_dept());
}
