use flare::chunk::{Chunk, Column, Field};
use flare::expr::{AggType, RelOp};
use flare::includes::TextFilePartition;
use flare::pcode::{PCode, PInstruction};
use flare::pop::{POPKey, POPProps};
use flare::pop_aggregation::{Accumulator, Aggregation, AggregationContext};
use flare::pop_csv::{split_file, CSV};
use flare::pop_hashjoin::{HashJoin, HashJoinContext};
use flare::row::{DataType, Datum};

fn push(code: &[PInstruction]) -> PCode {
    let mut pcode = PCode::new();
    for inst in code {
        pcode.push(inst.clone());
    }
    pcode
}

fn column(ix: usize) -> PCode {
    push(&[PInstruction::PushColumn(ix)])
}

fn strs(values: &[&str]) -> Column {
    Column::Str(values.iter().map(|s| s.to_string()).collect())
}

fn emp() -> Chunk {
    Chunk::new(vec![strs(&["a", "b", "c"]), Column::Int(vec![20, 30, 25]), Column::Int(vec![1, 2, 1])])
}

fn dept() -> Chunk {
    Chunk::new(vec![Column::Int(vec![1, 2]), strs(&["eng", "sales"])])
}

#[test]
fn apply_filters_then_computes_then_orders() {
    // age > 22, project [dept_id, age, name], plus age + dept_id
    let props = POPProps::new(
        Some(vec![push(&[
            PInstruction::PushColumn(1),
            PInstruction::PushLit(Datum::INT(22)),
            PInstruction::Compare(RelOp::Gt),
        ])]),
        Some(vec![2, 1, 0]),
        Some(vec![push(&[
            PInstruction::PushColumn(1),
            PInstruction::PushColumn(2),
            PInstruction::Arith(flare::expr::ArithOp::Add),
        ])]),
        1,
    );
    let out = props.apply(&emp()).unwrap();
    assert_eq!(
        out,
        Chunk::new(vec![Column::Int(vec![2, 1]), Column::Int(vec![30, 25]), strs(&["b", "c"]), Column::Int(vec![32, 26])])
    );
    // Without anything to do the chunk is handed on as it is.
    assert_eq!(POPProps::new(None, None, None, 1).apply(&emp()), Ok(emp()));
    // Several predicates must all hold.
    let both = POPProps::new(
        Some(vec![
            push(&[PInstruction::PushColumn(1), PInstruction::PushLit(Datum::INT(22)), PInstruction::Compare(RelOp::Gt)]),
            push(&[PInstruction::PushColumn(2), PInstruction::PushLit(Datum::INT(1)), PInstruction::Compare(RelOp::Eq)]),
        ]),
        Some(vec![0]),
        None,
        1,
    );
    assert_eq!(both.apply(&emp()), Ok(Chunk::new(vec![strs(&["c"])])));
}

#[test]
fn apply_faults() {
    let not_bool = POPProps::new(Some(vec![column(1)]), None, None, 1);
    assert_eq!(not_bool.apply(&emp()), Err("PCode: runtime type error".to_string()));
    let malformed = POPProps::new(None, None, Some(vec![push(&[PInstruction::Not])]), 1);
    assert_eq!(malformed.apply(&emp()), Err("PCode: malformed program".to_string()));
    let far = POPProps::new(None, Some(vec![0, 3]), None, 1);
    assert_eq!(far.apply(&emp()), Err("Operator: column position out of range".to_string()));
    let mistyped = POPProps::new(None, None, Some(vec![push(&[PInstruction::PushColumn(0), PInstruction::Neg])]), 1);
    assert_eq!(mistyped.apply(&emp()), Err("PCode: runtime type error".to_string()));
}

#[test]
fn accumulators_count_sum_and_bound() {
    let mut acc = Accumulator::new();
    assert_eq!(acc.finalize(AggType::COUNT), Some(0));
    assert_eq!(acc.finalize(AggType::SUM), None);
    assert_eq!(acc.finalize(AggType::MIN), None);
    assert_eq!(acc.finalize(AggType::AVG), None);
    for v in [20, 25, -7] {
        assert!(acc.update(v));
    }
    assert_eq!(acc.finalize(AggType::COUNT), Some(3));
    assert_eq!(acc.finalize(AggType::SUM), Some(38));
    assert_eq!(acc.finalize(AggType::MIN), Some(-7));
    assert_eq!(acc.finalize(AggType::MAX), Some(25));
    assert_eq!(acc.finalize(AggType::AVG), Some(12));
    let mut neg = Accumulator::new();
    neg.update(-7);
    neg.update(0);
    assert_eq!(neg.finalize(AggType::AVG), Some(-3));
    // The sum is exact even where it leaves 64 bits; only its delivery fails.
    let mut big = Accumulator::new();
    big.update(i64::MAX);
    big.update(i64::MAX);
    assert_eq!(big.finalize(AggType::SUM), None);
    assert_eq!(big.finalize(AggType::AVG), Some(i64::MAX));
    big.update(i64::MIN);
    big.update(i64::MIN);
    assert_eq!(big.finalize(AggType::SUM), Some(-2));
    let mut full = Accumulator { count: u64::MAX, sum: 0, min: 0, max: 0 };
    assert!(!full.update(1));
    assert_eq!(full.count, u64::MAX);
}

#[test]
fn aggregates_do_not_depend_on_the_order_of_the_rows() {
    let orders: [[i64; 4]; 3] = [[5, -3, 9, 5], [9, 5, 5, -3], [-3, 5, 9, 5]];
    let mut results = vec![];
    for order in orders {
        let mut acc = Accumulator::new();
        for v in order {
            acc.update(v);
        }
        results.push((
            acc.finalize(AggType::COUNT),
            acc.finalize(AggType::SUM),
            acc.finalize(AggType::MIN),
            acc.finalize(AggType::MAX),
            acc.finalize(AggType::AVG),
        ));
    }
    assert_eq!(results[0], (Some(4), Some(16), Some(-3), Some(9), Some(4)));
    assert_eq!(results[0], results[1]);
    assert_eq!(results[0], results[2]);
}

fn by_dept() -> Aggregation {
    Aggregation::new(
        vec![column(2)],
        vec![AggType::COUNT, AggType::SUM, AggType::MIN, AggType::MAX],
        vec![push(&[PInstruction::PushLit(Datum::NULL)]), column(1), column(1), column(1)],
    )
}

#[test]
fn grouped_aggregate() {
    let agg = by_dept();
    let mut ctx = AggregationContext::new(POPKey { id: 0 }, 0);
    assert_eq!(ctx.update(&agg, &emp()), Ok(()));
    assert_eq!(ctx.rows_seen, 3);
    let out = ctx.finish(&agg).unwrap();
    assert_eq!(
        out,
        Chunk::new(vec![
            Column::Int(vec![1, 2]),
            Column::Int(vec![2, 1]),
            Column::Int(vec![45, 30]),
            Column::Int(vec![20, 30]),
            Column::Int(vec![25, 30]),
        ])
    );
    // A second chunk adds to the groups met and opens new ones at the end.
    let more = Chunk::new(vec![strs(&["d", "e"]), Column::Int(vec![40, 10]), Column::Int(vec![3, 1])]);
    assert_eq!(ctx.update(&agg, &more), Ok(()));
    assert_eq!(
        ctx.finish(&agg).unwrap(),
        Chunk::new(vec![
            Column::Int(vec![1, 2, 3]),
            Column::Int(vec![3, 1, 1]),
            Column::Int(vec![55, 30, 40]),
            Column::Int(vec![10, 30, 40]),
            Column::Int(vec![25, 30, 40]),
        ])
    );
}

#[test]
fn aggregate_without_keys_and_without_rows() {
    let total = Aggregation::new(vec![], vec![AggType::SUM, AggType::AVG], vec![column(1), column(1)]);
    let mut ctx = AggregationContext::new(POPKey { id: 0 }, 0);
    assert_eq!(ctx.finish(&total).unwrap().len(), 0);
    ctx.update(&total, &emp()).unwrap();
    assert_eq!(ctx.finish(&total), Ok(Chunk::new(vec![Column::Int(vec![75]), Column::Int(vec![25])])));
}

#[test]
fn aggregate_faults() {
    let mut ctx = AggregationContext::new(POPKey { id: 0 }, 0);
    let lopsided = Aggregation::new(vec![], vec![AggType::SUM], vec![]);
    assert_eq!(ctx.update(&lopsided, &emp()), Err("Aggregation: kinds and arguments differ in number".to_string()));
    let of_names = Aggregation::new(vec![], vec![AggType::SUM], vec![column(0)]);
    assert_eq!(ctx.update(&of_names, &emp()), Err("PCode: runtime type error".to_string()));
    let counted = Aggregation::new(vec![], vec![AggType::COUNT], vec![column(0)]);
    assert_eq!(ctx.update(&counted, &emp()), Ok(()));
    let malformed = Aggregation::new(vec![push(&[PInstruction::Neg])], vec![], vec![]);
    assert_eq!(ctx.update(&malformed, &emp()), Err("PCode: malformed program".to_string()));
    let mut late = AggregationContext { pop_key: POPKey { id: 0 }, partition_id: 0, groups: vec![], rows_seen: u64::MAX - 2, done: false };
    assert_eq!(late.update(&counted, &emp()), Err("Aggregation: too many rows".to_string()));
    // Keys of different types cannot share a column.
    let mut mixed = AggregationContext::new(POPKey { id: 0 }, 0);
    let by_first = Aggregation::new(vec![column(0)], vec![], vec![]);
    mixed.update(&by_first, &Chunk::new(vec![Column::Int(vec![1])])).unwrap();
    mixed.update(&by_first, &Chunk::new(vec![strs(&["x"])])).unwrap();
    assert_eq!(mixed.finish(&by_first), Err("Aggregation: result out of range or keys of mixed types".to_string()));
}

#[test]
fn hash_join_pairs_rows_with_equal_keys() {
    // emp joins dept on emp.dept_id = dept.dept_id; emp is the build side
    let join = HashJoin::new(vec![column(2)], vec![column(0)]);
    let mut ctx = HashJoinContext::new(POPKey { id: 0 }, 0);
    assert_eq!(ctx.build(&join, &emp()), Ok(()));
    let out = ctx.probe(&join, &dept()).unwrap();
    assert_eq!(
        out,
        Chunk::new(vec![
            strs(&["a", "c", "b"]),
            Column::Int(vec![20, 25, 30]),
            Column::Int(vec![1, 1, 2]),
            Column::Int(vec![1, 1, 2]),
            strs(&["eng", "eng", "sales"]),
        ])
    );
    // More build rows, and a probe row without partner.
    let more = Chunk::new(vec![strs(&["d"]), Column::Int(vec![50]), Column::Int(vec![2])]);
    assert_eq!(ctx.build(&join, &more), Ok(()));
    let probe = Chunk::new(vec![Column::Int(vec![2, 9]), strs(&["sales", "void"])]);
    assert_eq!(
        ctx.probe(&join, &probe),
        Ok(Chunk::new(vec![
            strs(&["b", "d"]),
            Column::Int(vec![30, 50]),
            Column::Int(vec![2, 2]),
            Column::Int(vec![2, 2]),
            strs(&["sales", "sales"]),
        ]))
    );
    assert_eq!(ctx.hashes.len(), 4);
}

#[test]
fn hash_join_on_strings_and_on_an_empty_build_side() {
    let join = HashJoin::new(vec![column(0)], vec![column(1)]);
    let ctx = HashJoinContext::new(POPKey { id: 0 }, 0);
    let out = ctx.probe(&join, &dept()).unwrap();
    assert_eq!(out.len(), 0);
    assert_eq!(out.width(), 2);
    let mut ctx = HashJoinContext::new(POPKey { id: 0 }, 0);
    ctx.build(&join, &Chunk::new(vec![strs(&["sales", "eng", "sales"])])).unwrap();
    let out = ctx.probe(&join, &dept()).unwrap();
    assert_eq!(out, Chunk::new(vec![strs(&["eng", "sales", "sales"]), Column::Int(vec![1, 2, 2]), strs(&["eng", "sales", "sales"])]));
}

#[test]
fn hash_join_faults() {
    let keyless = HashJoin::new(vec![], vec![]);
    let mut ctx = HashJoinContext::new(POPKey { id: 0 }, 0);
    assert_eq!(ctx.build(&keyless, &emp()), Err("HashJoin: no keys".to_string()));
    assert_eq!(ctx.probe(&keyless, &emp()), Err("HashJoin: no keys".to_string()));
    let join = HashJoin::new(vec![column(2)], vec![push(&[PInstruction::PushColumn(1), PInstruction::Neg])]);
    assert_eq!(ctx.build(&join, &emp()), Ok(()));
    assert_eq!(ctx.probe(&join, &dept()), Err("PCode: runtime type error".to_string()));
    assert_eq!(ctx.build(&join, &dept()), Err("HashJoin: chunks of the build side differ in shape".to_string()));
    let other = Chunk::new(vec![Column::Int(vec![1]), Column::Int(vec![2]), Column::Int(vec![3])]);
    assert_eq!(ctx.build(&join, &other), Err("HashJoin: chunks of the build side differ in shape".to_string()));
    assert_eq!(ctx.hashes.len(), 3);
}

#[test]
fn files_are_split_where_lines_begin() {
    let text = b"name,age\na,20\nb,30\nc,25\n".to_vec();
    assert_eq!(text.len(), 24);
    assert_eq!(
        split_file(&text, 3),
        vec![TextFilePartition(0, 9), TextFilePartition(9, 19), TextFilePartition(19, 24)]
    );
    assert_eq!(split_file(&text, 1), vec![TextFilePartition(0, 24)]);
    // More partitions than lines leave some empty.
    let parts = split_file(&text, 8);
    assert_eq!(parts.len(), 8);
    assert_eq!(parts[0].0, 0);
    assert_eq!(parts[7].1, 24);
    for k in 0..7 {
        assert_eq!(parts[k].1, parts[k + 1].0);
        assert!(parts[k].0 <= parts[k].1);
        let at = parts[k].1 as usize;
        assert!(at == 24 || text[at - 1] == b'\n');
    }
    assert_eq!(split_file(&vec![], 2), vec![TextFilePartition(0, 0), TextFilePartition(0, 0)]);
    // A file without line feed goes to the first partition whole.
    assert_eq!(split_file(&b"abcdef".to_vec(), 2), vec![TextFilePartition(0, 6), TextFilePartition(6, 6)]);
}

fn emp_scan(projection: Vec<usize>) -> CSV {
    CSV::new(
        "emp.csv".to_string(),
        vec![
            Field { name: "NAME".to_string(), data_type: DataType::STR },
            Field { name: "AGE".to_string(), data_type: DataType::INT },
            Field { name: "OK".to_string(), data_type: DataType::BOOL },
        ],
        true,
        ',',
        4,
        projection,
    )
}

#[test]
fn lines_are_parsed_by_the_schema() {
    let lines: Vec<String> = ["a,20,true", "b,-30,false", ",+7,true"].iter().map(|s| s.to_string()).collect();
    assert_eq!(
        emp_scan(vec![1, 0, 2]).parse_lines(&lines),
        Ok(Chunk::new(vec![Column::Int(vec![20, -30, 7]), strs(&["a", "b", ""]), Column::Bool(vec![true, false, true])]))
    );
    assert_eq!(emp_scan(vec![0]).parse_lines(&vec![]), Ok(Chunk::new(vec![strs(&[])])));
    assert_eq!(emp_scan(vec![]).parse_lines(&lines).unwrap().width(), 0);
    let fault = Err("CSV: a line does not fit the schema".to_string());
    assert_eq!(emp_scan(vec![1]).parse_lines(&vec!["a,x,true".to_string()]), fault);
    assert_eq!(emp_scan(vec![2]).parse_lines(&vec!["a,1,TRUE".to_string()]), fault);
    assert_eq!(emp_scan(vec![2]).parse_lines(&vec!["a,1".to_string()]), fault);
    assert_eq!(emp_scan(vec![3]).parse_lines(&vec!["a,1,true".to_string()]), fault);
    assert_eq!(emp_scan(vec![1]).parse_lines(&vec!["a,9223372036854775808,true".to_string()]), fault);
    assert_eq!(
        emp_scan(vec![1]).parse_lines(&vec!["a,9223372036854775807,true".to_string()]),
        Ok(Chunk::new(vec![Column::Int(vec![i64::MAX])]))
    );
    assert_eq!(
        emp_scan(vec![1]).parse_lines(&vec!["a,-9223372036854775808,true".to_string()]),
        Ok(Chunk::new(vec![Column::Int(vec![i64::MIN])]))
    );
    assert_eq!(emp_scan(vec![1]).parse_lines(&vec!["a,-9223372036854775809,true".to_string()]), fault);
}

#[test]
fn partial_aggregates_merge_to_the_whole() {
    let parts: [&[i64]; 3] = [&[20, 25], &[], &[30, -4, 9]];
    let mut whole = Accumulator::new();
    let mut merged = Accumulator::new();
    let (mut sum, mut count) = (0i64, 0i64);
    for part in parts {
        let mut partial = Accumulator::new();
        for v in part {
            whole.update(*v);
            partial.update(*v);
        }
        sum += partial.finalize(AggType::SUM).unwrap_or(0);
        count += partial.finalize(AggType::COUNT).unwrap();
        assert!(merged.merge(&partial));
    }
    assert_eq!(merged, whole);
    assert_eq!(merged.finalize(AggType::AVG), Some(sum / count));
    assert_eq!(merged.finalize(AggType::AVG), Some(16));
    assert_eq!(merged.finalize(AggType::MIN), Some(-4));
    assert_eq!(merged.finalize(AggType::MAX), Some(30));
    let mut full = Accumulator { count: u64::MAX, sum: 0, min: 0, max: 0 };
    assert!(!full.merge(&whole));
    assert_eq!(full.count, u64::MAX);
}

#[test]
fn an_aggregation_hands_on_its_result_once() {
    let agg = by_dept();
    let mut ctx = AggregationContext::new(POPKey { id: 0 }, 0);
    ctx.update(&agg, &emp()).unwrap();
    assert!(!ctx.done);
    let first = ctx.emit(&agg).unwrap();
    assert_eq!(first.len(), 2);
    assert_eq!(first, ctx.finish(&agg).unwrap());
    assert!(ctx.done);
    assert_eq!(ctx.emit(&agg).unwrap().len(), 0);
    assert_eq!(ctx.emit(&agg).unwrap().width(), 0);
}
