use kamu::defaults::{DatasetVocabulary, ReadStepCsv};
use kamu::engine::{EngineFactoryImpl, EngineFactoryNull, EngineKind, ImageAction, FLINK_IMAGE, SPARK_IMAGE};
use kamu::ingest::{EngineError, EngineOutput, IngestError, IngestMultiListener, NullIngestMultiListener};
use kamu::repository::{Repository, RepositoryError};
use kamu::resource::{ResourceError, ResourceLoaderImpl, SnapshotSource};
use kamu::sql_server::SqlServerCommand;
use kamu::text::{parse_env_var, resolve_env_vars};
use kamu::transform::{TransformError, TransformServiceImpl};

#[test]
fn engine_ids_map_to_engines() {
    assert_eq!(EngineKind::from_id("spark").unwrap(), EngineKind::Spark);
    assert_eq!(EngineKind::from_id("flink").unwrap(), EngineKind::Flink);
    match EngineKind::from_id("datafusion") {
        Err(EngineError::ImageNotFound { image_name }) => assert_eq!(image_name, "datafusion"),
        other => panic!("unexpected {:?}", other),
    }
    assert_eq!(EngineKind::Spark.image(), SPARK_IMAGE);
    assert_eq!(EngineKind::Flink.image(), FLINK_IMAGE);
    assert!(matches!(EngineFactoryNull.get_engine("spark"), Err(EngineError::ImageNotFound { .. })));
}

#[test]
fn image_is_pulled_at_most_once() {
    let mut f = EngineFactoryImpl::new();
    assert_eq!(f.image_action(EngineKind::Spark), ImageAction::CheckLocal);
    assert_eq!(f.record_local_check(EngineKind::Spark, false), ImageAction::Pull);
    assert_eq!(f.image_action(EngineKind::Spark), ImageAction::CheckLocal);
    assert_eq!(f.record_pull(EngineKind::Spark, true).unwrap(), EngineKind::Spark);
    assert_eq!(f.image_action(EngineKind::Spark), ImageAction::Ready);
    assert_eq!(f.image_action(EngineKind::Flink), ImageAction::CheckLocal);
    assert_eq!(f.record_local_check(EngineKind::Flink, true), ImageAction::Ready);
    assert_eq!(f.image_action(EngineKind::Flink), ImageAction::Ready);
}

#[test]
fn failed_pull_names_the_image() {
    let mut f = EngineFactoryImpl::new();
    match f.record_pull(EngineKind::Flink, false) {
        Err(EngineError::ImageNotFound { image_name }) => assert_eq!(image_name, FLINK_IMAGE),
        other => panic!("unexpected {:?}", other),
    }
    assert_eq!(f.image_action(EngineKind::Flink), ImageAction::CheckLocal);
}

#[test]
fn env_vars_split_at_first_equals() {
    assert_eq!(parse_env_var("HOME"), ("HOME".to_string(), None));
    assert_eq!(parse_env_var("A=b=c"), ("A".to_string(), Some("b=c".to_string())));
    assert_eq!(parse_env_var("X="), ("X".to_string(), Some(String::new())));
    assert_eq!(parse_env_var("=v"), (String::new(), Some("v".to_string())));
}

#[test]
fn env_vars_resolve_from_environment() {
    let vars = vec![("A".to_string(), Some("1".to_string())), ("B".to_string(), None)];
    assert_eq!(
        resolve_env_vars(&vars, &vec![None, Some("2".to_string())]),
        Ok(vec![("A".to_string(), "1".to_string()), ("B".to_string(), "2".to_string())])
    );
    assert_eq!(resolve_env_vars(&vars, &vec![None, None]), Err("B".to_string()));
}

#[test]
fn snapshot_sources_follow_the_reference() {
    let l = ResourceLoaderImpl::new();
    assert!(matches!(l.source_for_ref("a.yaml", true), Ok(SnapshotSource::Path { path }) if path == "a.yaml"));
    assert!(matches!(l.source_for_ref("a.yaml", false), Ok(SnapshotSource::Path { path }) if path == "a.yaml"));
    assert!(matches!(l.source_for_ref("file:///tmp/a.yaml", false), Ok(SnapshotSource::FileUrl { .. })));
    assert!(matches!(l.source_for_ref("https://h/a.yaml", false), Ok(SnapshotSource::HttpUrl { .. })));
    assert!(matches!(l.source_for_url("http://h/a.yaml"), Ok(SnapshotSource::HttpUrl { url }) if url == "http://h/a.yaml"));
    assert!(matches!(l.source_for_url("ftp://h/a.yaml"), Err(ResourceError::UnsupportedScheme { scheme }) if scheme == "ftp"));
    assert!(matches!(l.source_for_url("not a url"), Err(ResourceError::InvalidUrl { .. })));
}

#[test]
fn repository_errors_keep_their_messages() {
    assert!(matches!(RepositoryError::credentials("bad token".to_string()), RepositoryError::CredentialsError { source } if source == "bad token"));
    assert!(matches!(RepositoryError::protocol("bad frame".to_string()), RepositoryError::ProtocolError { source } if source == "bad frame"));
    assert!(matches!(RepositoryError::corrupted("m".to_string()), RepositoryError::Corrupted { message, source: None } if message == "m"));
    assert!(matches!(
        RepositoryError::corrupted_from("m".to_string(), "s".to_string()),
        RepositoryError::Corrupted { message, source: Some(s) } if message == "m" && s == "s"
    ));
    assert!(Repository::from_url("https://repo.example.com/").is_some());
    assert!(Repository::from_url("repo").is_none());
}

#[test]
fn ingest_errors_carry_their_details() {
    assert!(matches!(IngestError::not_found("/a/b"), IngestError::NotFound { path } if path == "/a/b"));
    assert!(matches!(IngestError::internal("x".to_string()), IngestError::InternalError { message } if message == "x"));
    assert!(NullIngestMultiListener.begin_ingest(1).is_none());
}

#[test]
fn defaults_leave_every_option_unset() {
    let v = DatasetVocabulary::default();
    assert!(v.system_time_column.is_none() && v.event_time_column.is_none());
    let c = ReadStepCsv::default();
    assert!(c.separator.is_none() && c.header.is_none() && c.multi_line.is_none() && c.schema.is_none());
}

#[test]
fn simulated_transform_follows_the_draws() {
    let t = TransformServiceImpl::new(42);
    assert!(matches!(t.simulated_output(0, u32::MAX, None), Err(TransformError::EngineError)));
    assert!(matches!(t.simulated_output(u32::MAX, 0, None), Ok(EngineOutput::UpToDate)));
    match t.simulated_output(u32::MAX, u32::MAX, None) {
        Ok(EngineOutput::NewBlocks { blocks }) => {
            assert_eq!(blocks.len(), 1);
            assert_eq!(blocks[0].system_time, 42);
            assert!(blocks[0].verify_hash());
        },
        other => panic!("unexpected {:?}", other),
    }
    let _ = t.do_transform(1, None);
}

#[test]
fn sql_server_command_keeps_address() {
    let c = SqlServerCommand::new("127.0.0.1", 8080);
    assert_eq!(c.address, "127.0.0.1");
    assert_eq!(c.port, 8080);
}
