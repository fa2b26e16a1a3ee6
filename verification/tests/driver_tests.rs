use faster_all::acquire::{AcquireAction, acquire_action};
use faster_all::config::{Config, Data};
use faster_all::driver::{Phase, PipelineDriver};

fn strings(names: &[&str]) -> Vec<String> {
    names.iter().map(|n| String::from(*n)).collect()
}

#[test]
fn test_full_run() {
    let mut d = PipelineDriver::new(strings(&["en"]), strings(&["g1", "g2"]));
    assert_eq!(d.phase, Phase::Idle);
    d.on_model_ready();
    assert_eq!(d.phase, Phase::LoadingMessages);
    assert_eq!(d.group_idx, 0);
    d.on_messages_loaded();
    assert_eq!(d.phase, Phase::Embedding);
    d.on_embedded();
    assert_eq!(d.phase, Phase::Scoring);
    d.on_scored();
    assert_eq!(d.phase, Phase::Writing);
    d.on_write_complete(3);
    assert_eq!(d.phase, Phase::LoadingMessages);
    assert_eq!(d.group_idx, 1);
    d.on_messages_loaded();
    d.on_embedded();
    d.on_scored();
    d.on_write_complete(2);
    assert_eq!(d.phase, Phase::Done);
    assert_eq!(d.committed, 5);
    assert_eq!(d.skipped_groups, 0);
    assert!(d.skipped_langs.is_empty());
}

#[test]
fn test_write_failure_stops_run() {
    let mut d = PipelineDriver::new(strings(&["en"]), strings(&["g1", "g2", "g3"]));
    d.on_model_ready();
    d.on_messages_loaded();
    d.on_embedded();
    d.on_scored();
    d.on_write_complete(4);
    d.on_messages_loaded();
    d.on_embedded();
    d.on_scored();
    d.on_write_failed(2);
    assert_eq!(d.phase, Phase::Failed);
    assert_eq!(d.committed, 6);
    assert_eq!(d.group_idx, 1);
}

#[test]
fn test_model_unavailable_skips_language() {
    let mut d = PipelineDriver::new(strings(&["aa", "bb"]), strings(&["g1"]));
    d.on_model_unavailable();
    assert_eq!(d.phase, Phase::Idle);
    assert_eq!(d.lang_idx, 1);
    assert_eq!(d.skipped_langs, strings(&["aa"]));
    d.on_model_ready();
    d.on_messages_loaded();
    d.on_embedded();
    d.on_scored();
    d.on_write_complete(1);
    assert_eq!(d.phase, Phase::Done);
    assert_eq!(d.committed, 1);
}

#[test]
fn test_unscorable_group_is_skipped() {
    let mut d = PipelineDriver::new(strings(&["en"]), strings(&["g1", "g2"]));
    d.on_model_ready();
    d.on_messages_loaded();
    d.on_embedded();
    d.on_group_unscorable();
    assert_eq!(d.skipped_groups, 1);
    assert_eq!(d.phase, Phase::LoadingMessages);
    assert_eq!(d.group_idx, 1);
    d.on_messages_loaded();
    d.on_embedded();
    d.on_scored();
    d.on_write_complete(1);
    assert_eq!(d.phase, Phase::Done);
}

#[test]
fn test_no_languages_is_done() {
    let d = PipelineDriver::new(Vec::new(), strings(&["g1"]));
    assert_eq!(d.phase, Phase::Done);
}

#[test]
fn test_no_groups_advances_language() {
    let mut d = PipelineDriver::new(strings(&["en"]), Vec::new());
    d.on_model_ready();
    assert_eq!(d.phase, Phase::Done);
    assert_eq!(d.committed, 0);
}

#[test]
fn test_acquisition_idempotent() {
    // First acquisition: nothing cached, so download and extract.
    assert_eq!(acquire_action(false, false), AcquireAction::DownloadAndExtract);
    // A second acquisition for the same language finds the extracted model
    // and performs neither step again, whatever became of the archive.
    assert_eq!(acquire_action(true, false), AcquireAction::UseCached);
    assert_eq!(acquire_action(true, true), AcquireAction::UseCached);
    // Only the archive cached: extraction without a download.
    assert_eq!(acquire_action(false, true), AcquireAction::ExtractOnly);
}

#[test]
fn test_config_holds_languages() {
    let data = Data { config: Config { langs: strings(&["en", "tr"]) } };
    assert_eq!(data.config.langs.len(), 2);
    assert_eq!(data.config.langs[0], "en");
}
