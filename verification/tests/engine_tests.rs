use bc_core::engine::{after_engine, after_import, importer_failure, EngineCall, FailureStage, ImportEngine, Mode, ProfileFailure, ProfileRef};
use bc_core::model::ProfileId;

#[test]
fn failure_stage_labels_are_stable() {
    assert_eq!(FailureStage::UnknownImporter.label(), "unknown_importer");
    assert_eq!(FailureStage::Importer.label(), "importer");
    assert_eq!(FailureStage::Engine.label(), "engine");
}

fn profile(name: &str, importer: &str) -> ProfileRef {
    ProfileRef { id: ProfileId(7), name: name.to_owned(), importer: importer.to_owned() }
}

#[test]
fn an_unknown_importer_is_a_failure_not_an_error() {
    let engine = ImportEngine::new(vec!["stub".to_owned(), "failing".to_owned()], true);
    let failure = engine.select_importer(&profile("orphan", "missing")).expect_err("a failure");
    assert_eq!(failure.stage, FailureStage::UnknownImporter);
    assert_eq!(failure.to_string(), "unknown importer 'missing' for profile 'orphan'");
}

#[test]
fn the_first_registered_importer_of_a_name_serves_the_profile() {
    let engine = ImportEngine::new(vec!["csv".to_owned(), "stub".to_owned(), "stub".to_owned()], false);
    assert_eq!(engine.select_importer(&profile("nightly", "stub")), Ok(1));
    assert!(!engine.snapshot_before_write());
}

#[test]
fn an_importer_error_is_a_failure_at_the_importer_stage() {
    let failure = after_import(Mode::Commit, Err("bad value for field 'source_dir': no such directory".to_owned()))
        .expect_err("a failure");
    assert_eq!(failure.stage, FailureStage::Importer);
    assert_eq!(failure.to_string(), "import error: bad value for field 'source_dir': no such directory");
}

#[test]
fn a_dry_run_plans_and_a_commit_executes() {
    assert_eq!(after_import(Mode::DryRun, Ok(())), Ok(EngineCall::Plan));
    assert_eq!(after_import(Mode::Commit, Ok(())), Ok(EngineCall::Execute));
}

#[test]
fn an_engine_error_is_a_failure_at_the_engine_stage() {
    let failure = after_engine::<u32>(Err("database is locked".to_owned())).expect_err("a failure");
    assert_eq!(failure, ProfileFailure { stage: FailureStage::Engine, message: "database is locked".to_owned() });
    assert_eq!(failure.to_string(), "database is locked");
    assert_eq!(after_engine::<u32>(Ok(3)), Ok(3));
    assert_eq!(importer_failure("x".to_owned()).stage, FailureStage::Importer);
}
