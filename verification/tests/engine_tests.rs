use flare::chunk::{Chunk, Column, Field};
use flare::expr::{AggType, RelOp};
use flare::graph::Graph;
use flare::pcode::{PCode, PInstruction};
use flare::pop::{POPGraph, POPKey, POPProps, POP};
use flare::pop_aggregation::Aggregation;
use flare::pop_context::{NodeRuntime, POPContext};
use flare::pop_csv::CSV;
use flare::pop_hashjoin::HashJoin;
use flare::pop_run::{set_up, LeafInput};
use flare::row::{DataType, Datum};

fn code(insts: &[PInstruction]) -> PCode {
    let mut pcode = PCode::new();
    for inst in insts {
        pcode.push(inst.clone());
    }
    pcode
}

fn col(ix: usize) -> PCode {
    code(&[PInstruction::PushColumn(ix)])
}

fn ints(values: &[i64]) -> Column {
    Column::Int(values.to_vec())
}

fn scan_of(name: &str) -> POP {
    POP::CSV(CSV::new(
        name.to_string(),
        vec![
            Field { name: "K".to_string(), data_type: DataType::INT },
            Field { name: "V".to_string(), data_type: DataType::INT },
        ],
        false,
        ',',
        1,
        vec![0, 1],
    ))
}

fn plain() -> POPProps {
    POPProps::new(None, None, None, 1)
}

fn leaf(key: usize, chunks: Vec<Chunk>) -> LeafInput {
    LeafInput { pop_key: POPKey { id: key }, chunks }
}

fn pairs(k: &[i64], v: &[i64]) -> Chunk {
    Chunk::new(vec![ints(k), ints(v)])
}

fn none() -> Chunk {
    Chunk::new(vec![ints(&[]), ints(&[])])
}

/// Pulls until the chunk without rows comes.
fn drain(rt: &mut NodeRuntime) -> Result<Vec<Chunk>, String> {
    let mut out = vec![];
    loop {
        let chunk = rt.next()?;
        if chunk.len() == 0 {
            return Ok(out);
        }
        out.push(chunk);
    }
}

#[test]
fn a_scan_hands_on_its_chunks_one_by_one() {
    let mut pops: POPGraph = Graph::new();
    let positive = code(&[PInstruction::PushColumn(1), PInstruction::PushLit(Datum::INT(0)), PInstruction::Compare(RelOp::Gt)]);
    let scan = pops.add_node_with_props(scan_of("t.csv"), POPProps::new(Some(vec![positive]), Some(vec![1]), None, 1), None);
    let inputs = vec![leaf(
        scan,
        vec![none(), pairs(&[1, 2], &[5, -5]), pairs(&[3], &[-1]), none(), pairs(&[4, 5], &[7, 8])],
    )];
    let mut rt = set_up(&pops, POPKey { id: scan }, 0, &inputs);
    // Chunks that are empty, or empty once filtered, are passed over.
    assert_eq!(rt.next(), Ok(Chunk::new(vec![ints(&[5])])));
    assert_eq!(rt.next(), Ok(Chunk::new(vec![ints(&[7, 8])])));
    let end = rt.next().unwrap();
    assert_eq!(end.len(), 0);
    assert_eq!(rt.next().unwrap().len(), 0);
}

#[test]
fn a_scan_without_input_is_at_its_end() {
    let mut pops: POPGraph = Graph::new();
    let scan = pops.add_node_with_props(scan_of("t.csv"), plain(), None);
    let mut rt = set_up(&pops, POPKey { id: scan }, 3, &vec![leaf(7, vec![pairs(&[1], &[1])])]);
    assert_eq!(drain(&mut rt), Ok(vec![]));
    // The first input for an operator is the one that counts.
    let inputs = vec![leaf(scan, vec![pairs(&[1], &[2])]), leaf(scan, vec![pairs(&[3], &[4])])];
    let mut rt = set_up(&pops, POPKey { id: scan }, 3, &inputs);
    assert_eq!(drain(&mut rt), Ok(vec![pairs(&[1], &[2])]));
}

#[test]
fn a_fault_comes_after_what_was_handed_on_before_it() {
    let mut pops: POPGraph = Graph::new();
    let scan = pops.add_node_with_props(scan_of("t.csv"), plain(), None);
    let ragged = Chunk { arrays: vec![ints(&[1]), ints(&[])] };
    let inputs = vec![leaf(scan, vec![pairs(&[1], &[2]), ragged, pairs(&[3], &[4])])];
    let mut rt = set_up(&pops, POPKey { id: scan }, 0, &inputs);
    assert_eq!(rt.next(), Ok(pairs(&[1], &[2])));
    assert_eq!(rt.next(), Err("Task: a chunk has arrays of different lengths".to_string()));
}

#[test]
fn a_join_builds_from_the_left_and_probes_chunk_by_chunk() {
    let mut pops: POPGraph = Graph::new();
    let left = pops.add_node_with_props(scan_of("l.csv"), plain(), None);
    let right = pops.add_node_with_props(scan_of("r.csv"), plain(), None);
    let join = pops.add_node_with_props(
        POP::HashJoin(HashJoin::new(vec![col(0)], vec![col(0)])),
        plain(),
        Some(vec![left, right]),
    );
    let inputs = vec![
        leaf(left, vec![pairs(&[1, 2], &[10, 20]), pairs(&[1], &[11])]),
        leaf(right, vec![pairs(&[2, 9], &[200, 900]), pairs(&[8], &[800]), pairs(&[1], &[100])]),
    ];
    let mut rt = set_up(&pops, POPKey { id: join }, 0, &inputs);
    // One chunk for every chunk of the right side that finds a partner; build columns first.
    assert_eq!(rt.next(), Ok(Chunk::new(vec![ints(&[2]), ints(&[20]), ints(&[2]), ints(&[200])])));
    let second = rt.next().unwrap();
    assert_eq!(second.len(), 2);
    let mut got: Vec<(i64, i64, i64, i64)> = (0..2)
        .map(|r| match (&second.arrays[0], &second.arrays[1], &second.arrays[2], &second.arrays[3]) {
            (Column::Int(a), Column::Int(b), Column::Int(c), Column::Int(d)) => (a[r], b[r], c[r], d[r]),
            other => panic!("unexpected columns {:?}", other),
        })
        .collect();
    got.sort();
    assert_eq!(got, vec![(1, 10, 1, 100), (1, 11, 1, 100)]);
    assert_eq!(rt.next().unwrap().len(), 0);
}

#[test]
fn a_join_fails_where_its_build_side_fails() {
    let mut pops: POPGraph = Graph::new();
    let left = pops.add_node_with_props(scan_of("l.csv"), plain(), None);
    let right = pops.add_node_with_props(scan_of("r.csv"), plain(), None);
    let join = pops.add_node_with_props(
        POP::HashJoin(HashJoin::new(vec![col(0)], vec![col(0)])),
        plain(),
        Some(vec![left, right]),
    );
    let ragged = Chunk { arrays: vec![ints(&[1]), ints(&[])] };
    let inputs = vec![leaf(left, vec![pairs(&[1], &[10]), ragged]), leaf(right, vec![pairs(&[1], &[100])])];
    let mut rt = set_up(&pops, POPKey { id: join }, 0, &inputs);
    assert_eq!(rt.next(), Err("Task: a chunk has arrays of different lengths".to_string()));
    // A join that lacks an input cannot run.
    let mut short: POPGraph = Graph::new();
    let only = short.add_node_with_props(scan_of("l.csv"), plain(), None);
    let lone = short.add_node_with_props(POP::HashJoin(HashJoin::new(vec![], vec![])), plain(), Some(vec![only]));
    let mut rt = set_up(&short, POPKey { id: lone }, 0, &vec![]);
    assert_eq!(rt.next(), Err("Task: an operator or one of its inputs is not in the plan".to_string()));
}

#[test]
fn an_aggregation_takes_in_everything_before_it_hands_on() {
    let mut pops: POPGraph = Graph::new();
    let scan = pops.add_node_with_props(scan_of("t.csv"), plain(), None);
    let agg = pops.add_node_with_props(
        POP::Aggregation(Aggregation::new(vec![col(0)], vec![AggType::SUM, AggType::COUNT], vec![col(1), col(1)])),
        plain(),
        Some(vec![scan]),
    );
    let inputs = vec![leaf(scan, vec![pairs(&[1, 2], &[10, 20]), none(), pairs(&[1, 1], &[1, 2])])];
    let mut rt = set_up(&pops, POPKey { id: agg }, 0, &inputs);
    assert_eq!(rt.next(), Ok(Chunk::new(vec![ints(&[1, 2]), ints(&[13, 20]), ints(&[3, 1])])));
    assert_eq!(rt.next().unwrap().len(), 0);
    assert_eq!(rt.next().unwrap().len(), 0);
    // Over no rows at all, grouped, there is nothing to hand on.
    let mut rt = set_up(&pops, POPKey { id: agg }, 0, &vec![]);
    assert_eq!(drain(&mut rt), Ok(vec![]));
}

#[test]
fn operators_are_pulled_through_their_common_interface() {
    fn pull_all<C: POPContext>(ctx: &mut C) -> usize {
        let mut rows = 0;
        loop {
            let chunk = ctx.next().unwrap();
            if chunk.len() == 0 {
                return rows;
            }
            rows += chunk.len();
        }
    }
    let mut pops: POPGraph = Graph::new();
    let scan = pops.add_node_with_props(scan_of("t.csv"), plain(), None);
    let inputs = vec![leaf(scan, vec![pairs(&[1, 2], &[10, 20]), pairs(&[3], &[30])])];
    let mut rt = set_up(&pops, POPKey { id: scan }, 0, &inputs);
    assert_eq!(pull_all(&mut rt), 3);
}

#[test]
fn an_input_that_does_not_precede_its_operator_counts_as_missing() {
    let mut pops: POPGraph = Graph::new();
    let scan = pops.add_node_with_props(scan_of("t.csv"), plain(), None);
    let agg = pops.add_node_with_props(
        POP::Aggregation(Aggregation::new(vec![col(0)], vec![AggType::COUNT], vec![col(1)])),
        plain(),
        Some(vec![scan]),
    );
    pops.nodes[agg].children = Some(vec![agg]);
    let mut rt = set_up(&pops, POPKey { id: agg }, 0, &vec![leaf(scan, vec![pairs(&[1], &[2])])]);
    assert_eq!(rt.next(), Err("Task: an operator or one of its inputs is not in the plan".to_string()));
}
