use kamu::chain::build_chain;
use kamu::chain_store::ChainStore;
use kamu::dependency::{dependency_order, DatasetGraph, DatasetNode, DependencyError};
use kamu::ingest::{EngineOutput, IngestError, IngestResult, IngestServiceImpl};
use kamu::metadata::{DatasetKind, MetadataBlock, MetadataEvent, RemoteAliasKind};
use kamu::pull::{PullError, PullResult, PullServiceImpl, RefreshTask};
use kamu::transform::{TransformError, TransformResult};
use kamu::watermark::{set_watermark, CLIError, SetWatermarkCommand, SetWatermarkError};

const A: u64 = 1;
const B: u64 = 2;
const C: u64 = 3;

fn add_root(s: &mut ChainStore, id: u64) {
    let blocks = build_chain(vec![(0, MetadataEvent::Seed { dataset_id: id, kind: DatasetKind::Root })]);
    s.append_blocks(id, None, blocks).unwrap();
}

fn add_derivative(s: &mut ChainStore, id: u64, inputs: Vec<u64>) {
    let blocks = build_chain(vec![
        (0, MetadataEvent::Seed { dataset_id: id, kind: DatasetKind::Derivative }),
        (1, MetadataEvent::SetTransform { inputs, engine: "spark".to_string(), query: "select *".to_string() }),
    ]);
    s.append_blocks(id, None, blocks).unwrap();
}

fn abc_store() -> ChainStore {
    let mut s = ChainStore::new();
    add_derivative(&mut s, C, vec![B]);
    add_root(&mut s, A);
    add_derivative(&mut s, B, vec![A]);
    s
}

fn new_data(s: &ChainStore, id: u64, t: i64) -> EngineOutput {
    let head = s.read_ref(id).unwrap();
    EngineOutput::NewBlocks {
        blocks: vec![MetadataBlock::new(Some(head), t, MetadataEvent::AddData { offset_start: 0, offset_end: 9 })],
    }
}

#[test]
fn recursive_pull_of_c_orders_a_b_c() {
    let s = abc_store();
    let g = s.dependency_graph();
    assert_eq!(dependency_order(&g, &vec![C], true), Ok(vec![A, B, C]));
    let p = PullServiceImpl::plan(&s, &vec![C], true, false).unwrap();
    assert_eq!(p.job_ids(), vec![A, B, C]);
}

#[test]
fn non_recursive_pull_keeps_requested_in_dependency_order() {
    let s = abc_store();
    let g = s.dependency_graph();
    assert_eq!(dependency_order(&g, &vec![C, A], false), Ok(vec![A, C]));
    let mut p = PullServiceImpl::plan(&s, &vec![A, C], false, false).unwrap();
    assert_eq!(p.job_ids(), vec![A, C]);
    let mut s = s;
    match p.next_task(&s) {
        Some(RefreshTask::Ingest { index, id, head }) => {
            assert_eq!((index, id), (0, A));
            let out = new_data(&s, A, 5);
            let r = IngestServiceImpl::new("/tmp/vol").commit(&mut s, A, head, Ok(out));
            assert!(p.complete(index, PullServiceImpl::convert_ingest_result(r)));
        },
        other => panic!("unexpected {:?}", other),
    }
    match p.next_task(&s) {
        Some(RefreshTask::Transform { index, id, inputs, .. }) => {
            assert_eq!((index, id, inputs), (1, C, vec![B]));
            assert!(p.complete(index, Ok(PullResult::UpToDate)));
        },
        other => panic!("unexpected {:?}", other),
    }
    assert!(p.next_task(&s).is_none());
    let results = p.results().unwrap();
    assert_eq!(results.len(), 2);
    assert_eq!(results[0].0, A);
    assert!(matches!(results[0].1, Ok(PullResult::Updated { .. })));
    assert_eq!(results[1].0, C);
    assert_eq!(s.chain(B).unwrap().len(), 2);
}

#[test]
fn all_pull_covers_every_dataset() {
    let s = abc_store();
    let p = PullServiceImpl::plan(&s, &vec![], false, true).unwrap();
    assert_eq!(p.job_ids(), vec![A, B, C]);
}

#[test]
fn dependent_waits_for_its_inputs() {
    let s = abc_store();
    let mut p = PullServiceImpl::plan(&s, &vec![C], true, false).unwrap();
    let first = p.next_task(&s).unwrap();
    assert!(matches!(first, RefreshTask::Ingest { index: 0, .. }));
    assert!(p.next_task(&s).is_none());
    assert!(p.results().is_none());
    assert!(!p.complete(1, Ok(PullResult::UpToDate)));
    assert!(p.complete(0, Err(PullError::IngestError { error: IngestError::internal("boom".to_string()) })));
    assert!(!p.complete(0, Ok(PullResult::UpToDate)));
    let second = p.next_task(&s).unwrap();
    assert!(matches!(second, RefreshTask::Transform { index: 1, .. }));
}

#[test]
fn unknown_and_cyclic_graphs_are_refused() {
    let s = abc_store();
    assert!(matches!(PullServiceImpl::plan(&s, &vec![42], false, false), Err(PullError::NotFound { id: 42 })));
    let g = DatasetGraph {
        nodes: vec![
            DatasetNode { id: 1, kind: DatasetKind::Derivative, inputs: vec![2] },
            DatasetNode { id: 2, kind: DatasetKind::Derivative, inputs: vec![1] },
            DatasetNode { id: 3, kind: DatasetKind::Derivative, inputs: vec![9] },
        ],
    };
    assert_eq!(dependency_order(&g, &vec![1], true), Err(DependencyError::CyclicDependency));
    assert_eq!(dependency_order(&g, &vec![3], false), Err(DependencyError::DatasetNotFound { id: 9 }));
}

#[test]
fn one_failed_ingest_of_five_roots_fails_alone() {
    let mut s = ChainStore::new();
    for id in 1..=5 {
        add_root(&mut s, id);
    }
    let mut p = PullServiceImpl::plan(&s, &vec![1, 2, 3, 4, 5], false, false).unwrap();
    let mut tasks = Vec::new();
    while let Some(t) = p.next_task(&s) {
        tasks.push(t);
    }
    assert_eq!(tasks.len(), 5);
    let svc = IngestServiceImpl::new("/tmp/vol");
    for t in tasks {
        match t {
            RefreshTask::Ingest { index, id, head } => {
                let out = if id == 3 { Err(IngestError::not_found("/data/3.csv")) } else { Ok(new_data(&s, id, 7)) };
                let r = svc.commit(&mut s, id, head, out);
                assert!(p.complete(index, PullServiceImpl::convert_ingest_result(r)));
            },
            other => panic!("unexpected {:?}", other),
        }
    }
    let results = p.results().unwrap();
    assert_eq!(results.len(), 5);
    for (id, r) in &results {
        if *id == 3 {
            assert!(matches!(r, Err(PullError::IngestError { error: IngestError::NotFound { .. } })));
        } else {
            assert!(matches!(r, Ok(PullResult::Updated { .. })));
        }
    }
    assert_eq!(s.chain(3).unwrap().len(), 1);
    assert_eq!(s.chain(4).unwrap().len(), 2);
}

#[test]
fn results_convert_one_for_one() {
    let h = build_chain(vec![(0, MetadataEvent::Seed { dataset_id: 1, kind: DatasetKind::Root })])[0].hash;
    assert_eq!(
        PullServiceImpl::convert_ingest_result(Ok(IngestResult::Updated { block_hash: h })).unwrap(),
        PullResult::Updated { new_head: h }
    );
    assert_eq!(PullServiceImpl::convert_ingest_result(Ok(IngestResult::UpToDate)).unwrap(), PullResult::UpToDate);
    assert_eq!(
        PullServiceImpl::convert_transform_result(Ok(TransformResult::Updated { block_hash: h })).unwrap(),
        PullResult::Updated { new_head: h }
    );
    assert!(matches!(
        PullServiceImpl::convert_transform_result(Err(TransformError::EngineError)),
        Err(PullError::TransformError { error: TransformError::EngineError })
    ));
}

#[test]
fn watermark_on_pulled_dataset_is_refused_before_appending() {
    let mut s = ChainStore::new();
    let blocks = build_chain(vec![
        (0, MetadataEvent::Seed { dataset_id: 1, kind: DatasetKind::Root }),
        (1, MetadataEvent::SetRemoteAlias { url: "https://example.com/x".to_string(), kind: RemoteAliasKind::Pull }),
    ]);
    s.append_blocks(1, None, blocks).unwrap();
    let head = s.read_ref(1);
    assert_eq!(set_watermark(&mut s, 1, 1000, 5), Err(SetWatermarkError::IsRemote));
    let cmd = SetWatermarkCommand::new(vec![1], false, false, "2020-01-01T12:00:00Z");
    match cmd.run(&mut s, 5) {
        Err(CLIError::UsageError { message }) => assert_eq!(
            message,
            "Setting watermark on a remote dataset will cause histories to diverge. Existing pull aliases:\nhttps://example.com/x"
        ),
        other => panic!("unexpected {:?}", other),
    }
    assert_eq!(s.read_ref(1), head);
    assert_eq!(s.chain(1).unwrap().len(), 2);
}

#[test]
fn watermark_is_set_once() {
    let mut s = ChainStore::new();
    add_root(&mut s, 1);
    add_derivative(&mut s, 2, vec![1]);
    let cmd = SetWatermarkCommand::new(vec![1], false, false, "2020-01-01T12:00:00Z");
    let r = cmd.run(&mut s, 5).unwrap();
    assert_eq!(r, PullResult::Updated { new_head: s.read_ref(1).unwrap() });
    match &s.chain(1).unwrap()[1].event {
        MetadataEvent::SetWatermark { watermark } => assert_eq!(*watermark, 1_577_880_000_000),
        other => panic!("unexpected {:?}", other),
    }
    assert_eq!(cmd.run(&mut s, 6).unwrap(), PullResult::UpToDate);
    assert_eq!(set_watermark(&mut s, 2, 1, 5), Err(SetWatermarkError::IsDerivative));
    assert_eq!(set_watermark(&mut s, 9, 1, 5), Err(SetWatermarkError::NotFound));
}

#[test]
fn watermark_command_rejects_bad_requests() {
    let mut s = ChainStore::new();
    add_root(&mut s, 1);
    let cases = vec![
        (
            SetWatermarkCommand::new(vec![1, 2], false, false, "2020-01-01T12:00:00Z"),
            "Only one dataset can be provided when setting a watermark".to_string(),
        ),
        (
            SetWatermarkCommand::new(vec![1], true, false, "2020-01-01T12:00:00Z"),
            "Can't use --all or --recursive flags when setting a watermark".to_string(),
        ),
        (
            SetWatermarkCommand::new(vec![1], false, true, "2020-01-01T12:00:00Z"),
            "Can't use --all or --recursive flags when setting a watermark".to_string(),
        ),
        (
            SetWatermarkCommand::new(vec![1], false, false, "yesterday"),
            "Invalid timestamp yesterday should follow RFC3339 format, e.g. 2020-01-01T12:00:00Z".to_string(),
        ),
    ];
    for (c, expected) in cases {
        match c.run(&mut s, 5) {
            Err(CLIError::UsageError { message }) => assert_eq!(message, expected),
            other => panic!("unexpected {:?}", other),
        }
    }
    assert_eq!(s.chain(1).unwrap().len(), 1);
    let c = SetWatermarkCommand::new(vec![4], false, false, "2020-01-01T12:00:00Z");
    assert!(matches!(c.run(&mut s, 5), Err(CLIError::Failure { error: SetWatermarkError::NotFound })));
}

#[test]
fn cancelled_refresh_commits_nothing() {
    let mut s = ChainStore::new();
    add_root(&mut s, 1);
    add_root(&mut s, 2);
    let mut p = PullServiceImpl::plan(&s, &vec![1, 2], false, false).unwrap();
    let t = p.next_task(&s).unwrap();
    assert!(matches!(t, RefreshTask::Ingest { index: 0, id: 1, .. }));
    assert!(p.cancel(0));
    assert!(!p.cancel(0));
    assert!(!p.complete(0, Ok(PullResult::UpToDate)));
    assert!(p.cancel(1));
    assert!(p.next_task(&s).is_none());
    let results = p.results().unwrap();
    assert!(matches!(results[0].1, Err(PullError::Cancelled)));
    assert!(matches!(results[1].1, Err(PullError::Cancelled)));
    assert_eq!(s.chain(1).unwrap().len(), 1);
}

#[test]
fn remote_alias_message_lists_every_pull_alias() {
    let mut s = ChainStore::new();
    let blocks = build_chain(vec![
        (0, MetadataEvent::Seed { dataset_id: 1, kind: DatasetKind::Root }),
        (1, MetadataEvent::SetRemoteAlias { url: "https://a.example/x".to_string(), kind: RemoteAliasKind::Pull }),
        (2, MetadataEvent::SetRemoteAlias { url: "https://b.example/x".to_string(), kind: RemoteAliasKind::Push }),
        (3, MetadataEvent::SetRemoteAlias { url: "https://c.example/x".to_string(), kind: RemoteAliasKind::Pull }),
    ]);
    s.append_blocks(1, None, blocks).unwrap();
    let cmd = SetWatermarkCommand::new(vec![1], false, false, "2020-01-01T12:00:00Z");
    match cmd.run(&mut s, 5) {
        Err(CLIError::UsageError { message }) => assert_eq!(
            message,
            "Setting watermark on a remote dataset will cause histories to diverge. Existing pull aliases:\nhttps://a.example/x\n- https://c.example/x"
        ),
        other => panic!("unexpected {:?}", other),
    }
    assert_eq!(s.chain(1).unwrap().len(), 4);
}
