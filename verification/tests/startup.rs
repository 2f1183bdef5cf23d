use pi_matrix_transport::config::{Config, ConfigError, Environment, FileFacts, Variable};
use pi_matrix_transport::files::{
    judge_directory, may_hold_secret, media_prefix, secret_of, sweep_entry, DirectoryError,
    EntryKind, SecretError, Sweep, PRIVATE_DIRECTORY_MODE, PRIVATE_FILE_MODE,
};
use pi_matrix_transport::trust::{
    begin_vetting, resume_vetting, TrustOutcome, TrustRefusal, TrustStage, TrustStep,
};

const COMMAND: Option<FileFacts> = Some(FileFacts { is_file: true, mode: 0o100755 });

fn environment(changes: &[(&str, Option<&str>)]) -> Environment {
    let mut pairs = vec![
        ("MATRIX_AGENT_ENABLED", "1"),
        ("MATRIX_AGENT_HOMESERVER", "https://matrix.example.org"),
        ("MATRIX_AGENT_USER_ID", "@bot:example.org"),
        ("MATRIX_AGENT_DEVICE_ID", "DEVICE"),
        ("MATRIX_AGENT_ACCESS_TOKEN_FILE", "/secrets/one"),
        ("MATRIX_AGENT_STORE_PATH", "/state/crypto"),
        ("MATRIX_AGENT_STORE_PASSPHRASE_FILE", "/secrets/two"),
        ("MATRIX_AGENT_STATE_DB", "/state/state.sqlite"),
        ("MATRIX_AGENT_SOCKET", "/run/agent.sock"),
        ("MATRIX_AGENT_MEDIA_TEMP_PATH", "/state/media-tmp"),
        ("MATRIX_AGENT_TRANSCRIBE_COMMAND", "/bin/transcribe"),
        ("MATRIX_AGENT_TTS_COMMAND", "/bin/speak"),
        ("MATRIX_AGENT_TTS_VOICE", "voice"),
        ("MATRIX_AGENT_ROOM_ID", "!main:example.org"),
        ("MATRIX_AGENT_SENDER_ID", "@me:example.org"),
    ];
    for (name, value) in changes {
        pairs.retain(|(old, _)| old != name);
        if let Some(value) = value {
            pairs.push((name, value));
        }
    }
    Environment {
        values: pairs.into_iter().map(|(k, v)| (k.to_owned(), v.to_owned())).collect(),
        transcriber: COMMAND,
        synthesizer: COMMAND,
    }
}

fn refusal(changes: &[(&str, Option<&str>)]) -> ConfigError {
    Config::from_env(&environment(changes)).unwrap_err()
}

#[test]
fn a_complete_environment_is_accepted() {
    let config = Config::from_env(&environment(&[])).unwrap();
    assert_eq!(config.homeserver, "https://matrix.example.org");
    assert_eq!(config.user_id, "@bot:example.org");
    assert_eq!(config.device_id, "DEVICE");
    assert_eq!(config.access_token_file, "/secrets/one");
    assert_eq!(config.store_path, "/state/crypto");
    assert_eq!(config.store_passphrase_file, "/secrets/two");
    assert_eq!(config.state_db, "/state/state.sqlite");
    assert_eq!(config.socket, "/run/agent.sock");
    assert_eq!(config.media_temp_path, "/state/media-tmp");
    assert_eq!(config.transcribe_command, "/bin/transcribe");
    assert_eq!(config.tts_command, "/bin/speak");
    assert_eq!(config.tts_voice, "voice");
    assert_eq!(config.room_id, "!main:example.org");
    assert_eq!(config.room_ids, vec!["!main:example.org".to_owned()]);
    assert_eq!(config.sender_id, "@me:example.org");
    assert!(!config.require_verified_device);
    assert!(!config.allow_cross_signing_repair);
}

#[test]
fn it_is_off_unless_switched_on() {
    assert_eq!(refusal(&[("MATRIX_AGENT_ENABLED", None)]), ConfigError::Disabled);
    assert_eq!(refusal(&[("MATRIX_AGENT_ENABLED", Some("true"))]), ConfigError::Disabled);
    let nothing = Environment { values: vec![], transcriber: None, synthesizer: None };
    assert_eq!(Config::from_env(&nothing).unwrap_err(), ConfigError::Disabled);
}

#[test]
fn every_required_variable_is_asked_for() {
    for variable in [
        Variable::StateDb,
        Variable::MediaTempPath,
        Variable::RoomId,
        Variable::Homeserver,
        Variable::UserId,
        Variable::DeviceId,
        Variable::AccessTokenFile,
        Variable::StorePath,
        Variable::StorePassphraseFile,
        Variable::Socket,
        Variable::TranscribeCommand,
        Variable::TtsCommand,
        Variable::TtsVoice,
        Variable::SenderId,
    ] {
        let name = variable.name();
        assert_eq!(refusal(&[(name, None)]), ConfigError::Missing(variable));
        assert_eq!(refusal(&[(name, Some(" "))]), ConfigError::Empty(variable));
    }
}

#[test]
fn the_first_failing_check_is_the_error() {
    assert_eq!(
        refusal(&[("MATRIX_AGENT_STATE_DB", None), ("MATRIX_AGENT_TTS_VOICE", None)]),
        ConfigError::Missing(Variable::StateDb)
    );
    assert_eq!(
        refusal(&[("MATRIX_AGENT_SENDER_ID", None), ("MATRIX_AGENT_USER_ID", Some("bot"))]),
        ConfigError::InvalidUserId
    );
}

#[test]
fn media_must_be_the_sibling_of_the_database() {
    assert_eq!(
        refusal(&[("MATRIX_AGENT_MEDIA_TEMP_PATH", Some("/state/media"))]),
        ConfigError::NotSibling
    );
    assert_eq!(refusal(&[("MATRIX_AGENT_STATE_DB", Some("/"))]), ConfigError::NoParent);
    let odd = [("MATRIX_AGENT_MEDIA_TEMP_PATH", Some("/state//./media-tmp/"))];
    assert!(Config::from_env(&environment(&odd)).is_ok());
}

#[test]
fn identifiers_must_be_well_formed() {
    assert_eq!(refusal(&[("MATRIX_AGENT_ROOM_ID", Some("main"))]), ConfigError::InvalidRoomId);
    assert_eq!(refusal(&[("MATRIX_AGENT_USER_ID", Some("bot"))]), ConfigError::InvalidUserId);
    assert_eq!(refusal(&[("MATRIX_AGENT_USER_ID", Some("@bot"))]), ConfigError::InvalidUserId);
    assert_eq!(refusal(&[("MATRIX_AGENT_SENDER_ID", Some("me"))]), ConfigError::InvalidSenderId);
    assert_eq!(
        refusal(&[("MATRIX_AGENT_ROOM_IDS", Some("!a:x, b ,c"))]),
        ConfigError::InvalidRoomEntry("b".to_owned())
    );
    let env = environment(&[]);
    assert_eq!(Config::from_values(&env, false, true).unwrap_err(), ConfigError::InvalidUserId);
    assert_eq!(Config::from_values(&env, true, false).unwrap_err(), ConfigError::InvalidSenderId);
    assert!(Config::from_values(&env, true, true).is_ok());
}

#[test]
fn rooms_are_sorted_and_listed_once() {
    let list = Some(" !z:x ,,!main:example.org, !a:x,!z:x ");
    let config = Config::from_env(&environment(&[("MATRIX_AGENT_ROOM_IDS", list)])).unwrap();
    assert_eq!(config.room_ids, vec!["!a:x", "!main:example.org", "!z:x"]);
    assert_eq!(config.room_id, "!main:example.org");
}

#[test]
fn commands_must_be_executable_files() {
    let mut env = environment(&[]);
    env.transcriber = None;
    assert_eq!(
        Config::from_env(&env).unwrap_err(),
        ConfigError::Unreadable(Variable::TranscribeCommand)
    );
    env.transcriber = Some(FileFacts { is_file: false, mode: 0o755 });
    assert_eq!(
        Config::from_env(&env).unwrap_err(),
        ConfigError::NotExecutable(Variable::TranscribeCommand)
    );
    env.transcriber = Some(FileFacts { is_file: true, mode: 0o100001 });
    env.synthesizer = Some(FileFacts { is_file: true, mode: 0o100644 });
    assert_eq!(
        Config::from_env(&env).unwrap_err(),
        ConfigError::NotExecutable(Variable::TtsCommand)
    );
}

#[test]
fn switches_are_on_only_at_one() {
    let config = Config::from_env(&environment(&[
        ("MATRIX_AGENT_REQUIRE_VERIFIED_DEVICE", Some("1")),
        ("MATRIX_AGENT_ALLOW_CROSS_SIGNING_REPAIR", Some("yes")),
    ]))
    .unwrap();
    assert!(config.require_verified_device);
    assert!(!config.allow_cross_signing_repair);
}

#[test]
fn directories_must_be_private() {
    assert_eq!(judge_directory(false, true, 0o755), Ok(true));
    assert_eq!(judge_directory(true, true, 0o40700), Ok(false));
    assert_eq!(judge_directory(true, true, 0o40750), Err(DirectoryError::Exposed));
    assert_eq!(judge_directory(true, true, 0o40701), Err(DirectoryError::Exposed));
    assert_eq!(judge_directory(true, false, 0o600), Err(DirectoryError::NotDirectory));
}

#[test]
fn secrets_must_be_private_and_not_blank() {
    assert_eq!(secret_of(true, 0o100600, " value\n"), Ok("value".to_owned()));
    assert_eq!(secret_of(true, 0o100400, "value"), Ok("value".to_owned()));
    assert_eq!(secret_of(true, 0o100640, "value"), Err(SecretError::NotPrivate));
    assert_eq!(secret_of(false, 0o600, "value"), Err(SecretError::NotPrivate));
    assert_eq!(secret_of(true, 0o600, " \n"), Err(SecretError::Empty));
    assert!(!may_hold_secret(true, 0o604));
}

#[test]
fn only_media_directories_are_swept() {
    assert_eq!(media_prefix(), "matrix-media-");
    assert_eq!(sweep_entry("matrix-media-abc", EntryKind::Directory), Sweep::RemoveTree);
    assert_eq!(sweep_entry("matrix-media-abc", EntryKind::File), Sweep::RemoveFile);
    assert_eq!(sweep_entry("matrix-media-abc", EntryKind::Symlink), Sweep::RemoveFile);
    assert_eq!(sweep_entry("matrix-media-abc", EntryKind::Other), Sweep::Keep);
    assert_eq!(sweep_entry("matrix-medi", EntryKind::Directory), Sweep::Keep);
    assert_eq!(sweep_entry("other", EntryKind::File), Sweep::Keep);
}

fn found(complete: bool, verified: bool) -> TrustOutcome {
    TrustOutcome::Found { complete, verified }
}

fn run(allow_repair: bool, outcomes: &[TrustOutcome]) -> Vec<TrustStep> {
    let (mut stage, step) = begin_vetting(true);
    let mut steps = vec![step];
    for outcome in outcomes {
        let (next, step) = resume_vetting(stage, *outcome, allow_repair);
        stage = next;
        steps.push(step);
    }
    assert_eq!(stage, TrustStage::Finished);
    steps
}

#[test]
fn every_device_passes_without_enforcement() {
    assert_eq!(begin_vetting(false), (TrustStage::Finished, TrustStep::Pass));
}

#[test]
fn trusted_devices_pass() {
    let steps = run(false, &[TrustOutcome::Done, found(true, true), found(true, true)]);
    assert_eq!(
        steps,
        vec![
            TrustStep::BootstrapIfNeeded,
            TrustStep::Inspect,
            TrustStep::Inspect,
            TrustStep::Pass
        ]
    );
}

#[test]
fn untrusted_devices_are_refused_without_repair() {
    let steps = run(false, &[TrustOutcome::Done, found(true, false)]);
    assert_eq!(steps.last(), Some(&TrustStep::Refuse(TrustRefusal::Incomplete)));
}

#[test]
fn repair_signs_or_bootstraps_and_looks_again() {
    let signed = run(
        true,
        &[TrustOutcome::Done, found(true, false), TrustOutcome::Done, found(true, true)],
    );
    assert_eq!(signed[2], TrustStep::SignDevice);
    assert_eq!(signed.last(), Some(&TrustStep::Pass));
    let renewed = run(
        true,
        &[TrustOutcome::Done, found(false, true), TrustOutcome::Done, found(false, true)],
    );
    assert_eq!(renewed[2], TrustStep::Bootstrap);
    assert_eq!(renewed.last(), Some(&TrustStep::Refuse(TrustRefusal::RepairFailed)));
}

#[test]
fn failed_work_refuses_the_device() {
    let steps = run(true, &[TrustOutcome::Failed]);
    assert_eq!(steps.last(), Some(&TrustStep::Refuse(TrustRefusal::WorkFailed)));
}

#[test]
fn private_modes_are_private() {
    assert!(may_hold_secret(true, PRIVATE_FILE_MODE));
    assert_eq!(judge_directory(true, true, PRIVATE_DIRECTORY_MODE), Ok(false));
}
