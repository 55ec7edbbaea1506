use flare::chunk::{filter_chunk, Chunk, Column};
use flare::pcode::{PCode, PInstruction};
use flare::pop::{POPKey, POPProps};
use flare::pop_repartition::{
    get_partition_dir, list_files, DirEntry, RepartitionRead, RepartitionReadContext, RepartitionWrite,
    RepartitionWriteContext,
};
use flare::chunk::Schema;
use flare::stage::StageLink;

fn emp_chunk() -> Chunk {
    Chunk::new(vec![
        Column::Str(vec!["a".to_string(), "b".to_string(), "c".to_string(), "d".to_string()]),
        Column::Int(vec![20, 30, 25, 41]),
        Column::Int(vec![1, 2, 1, 3]),
    ])
}

fn key_on(col: usize) -> Vec<PCode> {
    let mut code = PCode::new();
    code.push(PInstruction::PushColumn(col));
    vec![code]
}

fn plain() -> POPProps {
    POPProps::new(None, None, None, 1)
}

fn writer(cpartitions: usize) -> RepartitionWrite {
    RepartitionWrite::new(key_on(2), Schema::new(vec![]), StageLink(1, 0), cpartitions)
}

#[test]
fn filter_chunk_keeps_masked_rows_in_order() {
    let kept = filter_chunk(&emp_chunk(), &vec![true, false, true, true]).unwrap();
    assert_eq!(
        kept,
        Chunk::new(vec![
            Column::Str(vec!["a".to_string(), "c".to_string(), "d".to_string()]),
            Column::Int(vec![20, 25, 41]),
            Column::Int(vec![1, 1, 3]),
        ])
    );
    let none = filter_chunk(&emp_chunk(), &vec![false, false, false, false]).unwrap();
    assert_eq!(none.len(), 0);
    assert_eq!(none.width(), 3);
    let nulls = filter_chunk(&Chunk::new(vec![Column::Null(3), Column::Bool(vec![true, false, true])]), &vec![false, true, true]).unwrap();
    assert_eq!(nulls, Chunk::new(vec![Column::Null(2), Column::Bool(vec![false, true])]));
    assert_eq!(
        filter_chunk(&emp_chunk(), &vec![true]),
        Err("Filter: the mask must have one entry per row".to_string())
    );
}

#[test]
fn hashes_depend_on_the_values_alone() {
    let a = Column::Int(vec![1, 2, 1, 3]).hash();
    assert_eq!(a.len(), 4);
    assert_eq!(a[0], a[2]);
    assert_ne!(a[0], a[1]);
    assert_ne!(a[0], 1);
    let s = Column::Str(vec!["x".to_string(), "y".to_string(), "x".to_string()]).hash();
    assert_eq!(s[0], s[2]);
    assert_ne!(s[0], s[1]);
    let b = Column::Bool(vec![true, false, true]).hash();
    assert_eq!(b[0], b[2]);
    assert_ne!(b[0], b[1]);
    assert_eq!(Column::Null(2).hash(), vec![0, 0]);
    // The hash of a row of one key is the hash of the key.
    let rows = RepartitionWriteContext::hash_chunk(&Chunk::new(vec![Column::Int(vec![1, 2, 1, 3])]));
    assert_eq!(rows, a);
    // The order of the keys matters.
    let ab = RepartitionWriteContext::hash_chunk(&Chunk::new(vec![Column::Int(vec![1]), Column::Int(vec![2])]));
    let ba = RepartitionWriteContext::hash_chunk(&Chunk::new(vec![Column::Int(vec![2]), Column::Int(vec![1])]));
    assert_ne!(ab, ba);
    assert_eq!(ab[0], a[0].wrapping_mul(31).wrapping_add(a[1]));
}

#[test]
fn partitions_are_hashes_modulo_the_count() {
    let parts = RepartitionWriteContext::compute_partitions(&vec![0, 1, 2, 3, 4, u64::MAX], 3);
    assert_eq!(parts, vec![0, 1, 2, 0, 1, 0]);
    let share = RepartitionWriteContext::filter_partition(&emp_chunk(), &vec![0, 1, 0, 2], 0).unwrap();
    assert_eq!(share.arrays[0], Column::Str(vec!["a".to_string(), "c".to_string()]));
}

#[test]
fn every_row_goes_to_exactly_one_consumer() {
    let rpw = writer(3);
    let chunk = emp_chunk();
    let mut ctx = RepartitionWriteContext::new(POPKey { id: 7 }, &rpw, 5);
    assert_eq!(ctx.writers, vec![false, false, false]);
    let writes = ctx.next("/tmp/flare", 42, &rpw, &plain(), &chunk).unwrap();
    let hashes = Column::Int(vec![1, 2, 1, 3]).hash();
    let mut seen = 0;
    for w in &writes {
        assert!(w.chunk.len() > 0);
        assert!(w.create);
        assert_eq!(w.dirname, format!("/tmp/flare/flow-42/pipeline-1-0/consumer-{}", w.cpartition));
        assert_eq!(w.path, format!("/tmp/flare/flow-42/pipeline-1-0/consumer-{}/producer-5.arrow", w.cpartition));
        let expected: Vec<bool> = hashes.iter().map(|h| h % 3 == w.cpartition as u64).collect();
        assert_eq!(w.chunk, filter_chunk(&chunk, &expected).unwrap());
        assert!(ctx.writers[w.cpartition]);
        seen += w.chunk.len();
    }
    assert_eq!(seen, 4);
    for c in 0..3 {
        assert_eq!(ctx.writers[c], writes.iter().any(|w| w.cpartition == c));
    }
    // A second chunk does not create the files again.
    let again = ctx.next("/tmp/flare", 42, &rpw, &plain(), &chunk).unwrap();
    assert_eq!(again.len(), writes.len());
    assert!(again.iter().all(|w| !w.create));
    let closed = ctx.finish_writers("/tmp/flare", 42, &rpw);
    let paths: Vec<String> = writes.iter().map(|w| w.path.clone()).collect();
    assert_eq!(closed, paths);
}

#[test]
fn a_consumer_without_rows_gets_no_file() {
    let rpw = writer(64);
    let chunk = Chunk::new(vec![Column::Str(vec!["a".to_string()]), Column::Int(vec![20]), Column::Int(vec![1])]);
    let mut ctx = RepartitionWriteContext::new(POPKey { id: 0 }, &rpw, 0);
    let writes = ctx.next("t", 1, &rpw, &plain(), &chunk).unwrap();
    assert_eq!(writes.len(), 1);
    assert_eq!(ctx.writers.iter().filter(|w| **w).count(), 1);
    assert_eq!(ctx.finish_writers("t", 1, &rpw).len(), 1);
    // No rows at all: nothing is written and nothing is closed.
    let mut idle = RepartitionWriteContext::new(POPKey { id: 0 }, &rpw, 0);
    let empty = Chunk::new(vec![Column::Str(vec![]), Column::Int(vec![]), Column::Int(vec![])]);
    assert_eq!(idle.next("t", 1, &rpw, &plain(), &empty).unwrap().len(), 0);
    assert_eq!(idle.finish_writers("t", 1, &rpw).len(), 0);
}

#[test]
fn repartition_faults() {
    let chunk = emp_chunk();
    let none = writer(0);
    let mut ctx = RepartitionWriteContext::new(POPKey { id: 0 }, &none, 0);
    assert_eq!(ctx.next("t", 1, &none, &plain(), &chunk), Err("Repartition: no consumer partitions".to_string()));
    let keyless = RepartitionWrite::new(vec![], Schema::new(vec![]), StageLink(1, 0), 2);
    let mut ctx = RepartitionWriteContext::new(POPKey { id: 0 }, &keyless, 0);
    assert_eq!(ctx.next("t", 1, &keyless, &plain(), &chunk), Err("Repartition: no partitioning keys".to_string()));
    let mut bad = PCode::new();
    bad.push(PInstruction::Neg);
    let malformed = RepartitionWrite::new(vec![bad], Schema::new(vec![]), StageLink(1, 0), 2);
    let mut ctx = RepartitionWriteContext::new(POPKey { id: 0 }, &malformed, 0);
    assert_eq!(ctx.next("t", 1, &malformed, &plain(), &chunk), Err("PCode: malformed program".to_string()));
    let mut neg = PCode::new();
    neg.push(PInstruction::PushColumn(0));
    neg.push(PInstruction::Neg);
    let mistyped = RepartitionWrite::new(vec![neg], Schema::new(vec![]), StageLink(1, 0), 2);
    let mut ctx = RepartitionWriteContext::new(POPKey { id: 0 }, &mistyped, 0);
    assert_eq!(ctx.next("t", 1, &mistyped, &plain(), &chunk), Err("PCode: runtime type error".to_string()));
    assert_eq!(ctx.writers, vec![false, false]);
}

#[test]
fn partition_dir_layout() {
    assert_eq!(get_partition_dir("/tmp", 0, StageLink(12, 3), 7), "/tmp/flow-0/pipeline-12-3/consumer-7");
    assert_eq!(
        get_partition_dir("out", 1234567890, StageLink(1, 0), 100),
        "out/flow-1234567890/pipeline-1-0/consumer-100"
    );
}

#[test]
fn list_files_skips_directories() {
    let entries = vec![
        DirEntry { path: "d/producer-0.arrow".to_string(), is_dir: false },
        DirEntry { path: "d/sub".to_string(), is_dir: true },
        DirEntry { path: "d/producer-2.arrow".to_string(), is_dir: false },
    ];
    assert_eq!(list_files(&entries), vec!["d/producer-0.arrow".to_string(), "d/producer-2.arrow".to_string()]);
    assert_eq!(list_files(&vec![]), Vec::<String>::new());
}

#[test]
fn missing_directory_is_an_empty_stream() {
    let missing = Err("Os { code: 2, kind: NotFound, message: \"No such file or directory\" }: dir".to_string());
    let mut ctx = RepartitionReadContext::new(POPKey { id: 3 }, 0, missing).unwrap();
    assert_eq!(ctx.files, Vec::<String>::new());
    assert_eq!(ctx.next().len(), 0);
    assert_eq!(ctx.next().len(), 0);
    let denied = Err("Os { code: 13, kind: PermissionDenied, message: \"Permission denied\" }: dir".to_string());
    assert_eq!(
        RepartitionReadContext::new(POPKey { id: 3 }, 0, denied),
        Err("Os { code: 13, kind: PermissionDenied, message: \"Permission denied\" }: dir".to_string())
    );
}

#[test]
fn read_side_hands_on_the_chunks_in_order() {
    let files = vec!["a".to_string(), "b".to_string()];
    let mut ctx = RepartitionReadContext::new(POPKey { id: 3 }, 1, Ok(files.clone())).unwrap();
    assert_eq!(ctx.files, files);
    assert_eq!(ctx.partition_id, 1);
    let first = Chunk::new(vec![Column::Int(vec![1, 2])]);
    let empty = Chunk::new(vec![Column::Int(vec![])]);
    let second = Chunk::new(vec![Column::Int(vec![3])]);
    ctx.load(vec![first.clone(), empty, second.clone()]);
    assert_eq!(ctx.next(), first);
    assert_eq!(ctx.next(), second);
    assert_eq!(ctx.next().len(), 0);
    assert_eq!(ctx.next().width(), 0);
}

#[test]
fn shuffle_descriptors_keep_what_they_are_given() {
    let schema = Schema::new(vec![]);
    let rpw = RepartitionWrite::new(key_on(0), Schema::new(vec![]), StageLink(2, 1), 8);
    assert_eq!(*rpw.cpartitions(), 8);
    assert_eq!(*rpw.stage_link(), StageLink(2, 1));
    assert_eq!(rpw.repart_key().len(), 1);
    assert_eq!(*rpw.schema(), schema);
    let rpr = RepartitionRead::new(Schema::new(vec![]), StageLink(2, 1));
    assert_eq!(*rpr.stage_link(), StageLink(2, 1));
    assert_eq!(*rpr.schema(), schema);
}

#[test]
fn the_write_side_shapes_the_rows_it_writes() {
    let rpw = writer(1);
    let chunk = emp_chunk();
    let mut doubled = PCode::new();
    doubled.push(PInstruction::PushColumn(1));
    doubled.push(PInstruction::PushColumn(1));
    doubled.push(PInstruction::Arith(flare::expr::ArithOp::Add));
    let props = POPProps::new(None, Some(vec![2, 0]), Some(vec![doubled]), 1);
    let mut ctx = RepartitionWriteContext::new(POPKey { id: 0 }, &rpw, 0);
    let writes = ctx.next("t", 1, &rpw, &props, &chunk).unwrap();
    assert_eq!(writes.len(), 1);
    assert_eq!(
        writes[0].chunk,
        Chunk::new(vec![
            Column::Int(vec![1, 2, 1, 3]),
            Column::Str(vec!["a".to_string(), "b".to_string(), "c".to_string(), "d".to_string()]),
            Column::Int(vec![40, 60, 50, 82]),
        ])
    );
    // Properties that drop rows cannot be matched with the keys.
    let mut never = PCode::new();
    never.push(PInstruction::PushLit(flare::row::Datum::BOOL(false)));
    let dropping = POPProps::new(Some(vec![never]), None, None, 1);
    assert_eq!(
        ctx.next("t", 1, &rpw, &dropping, &chunk),
        Err("Filter: the mask must have one entry per row".to_string())
    );
}
