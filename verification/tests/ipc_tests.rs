use dcreel::host::{next_revision, parse_options, supervisor_step, HostOptions, SupervisorStep};
use dcreel::ipc::{
    answer_hello, handshake_outcome, parse_external_commands, ExternalCommand, GhostModeTrigger,
    HandshakeOutcome, HandshakeReply, PROTOCOL_VERSION, ARG_MAP_FOLDER,
    ARG_NEW_MAPPED_FENCE, ARG_QUIT, ARG_SHOW,
};

#[test]
fn parser_keeps_paths_with_spaces_as_one_argument() {
    let args: Vec<String> = vec![
        "creel.exe".into(),
        ARG_MAP_FOLDER.into(),
        r"C:\Users\Creel\Desktop\项目 资料".into(),
        ARG_SHOW.into(),
    ];
    assert_eq!(
        parse_external_commands(&args),
        vec![
            ExternalCommand::MapFolder(r"C:\Users\Creel\Desktop\项目 资料".to_string()),
            ExternalCommand::Show,
        ]
    );
}

#[test]
fn parser_ignores_map_without_a_path() {
    assert!(parse_external_commands(&[ARG_MAP_FOLDER.into()]).is_empty());
}

#[test]
fn parser_accepts_the_mapped_folder_shortcut() {
    assert_eq!(parse_external_commands(&[ARG_NEW_MAPPED_FENCE.into()]), vec![ExternalCommand::NewMappedBox]);
}

#[test]
fn parser_accepts_explicit_quit_without_showing_the_window() {
    assert_eq!(parse_external_commands(&[ARG_QUIT.into()]), vec![ExternalCommand::Quit]);
}

#[test]
fn parser_skips_unknown_arguments_and_takes_any_folder_text() {
    let args: Vec<String> = vec!["--toggle-fences".into(), "stray".into(), "--map-folder".into(), "--quit".into(), "--silent".into(), "--new-fence".into()];
    assert_eq!(
        parse_external_commands(&args),
        vec![
            ExternalCommand::ToggleFences,
            ExternalCommand::MapFolder("--quit".to_string()),
            ExternalCommand::Silent,
            ExternalCommand::NewStorageBox,
        ]
    );
}

fn strings(values: &[&str]) -> Vec<String> {
    values.iter().map(|value| value.to_string()).collect()
}

#[test]
fn parser_keeps_folder_paths_with_spaces() {
    assert_eq!(
        parse_options(&strings(&["creel-desktop-host.exe", "--folder", r"C:\Temp Dir", "--probe-seconds", "5"])),
        Ok(HostOptions::FolderProbe { folder: r"C:\Temp Dir".to_string(), probe_seconds: Some(5) })
    );
}

#[test]
fn parser_rejects_missing_folder() {
    assert_eq!(parse_options(&strings(&["creel-desktop-host.exe"])), Err("缺少 --folder <真实文件夹>".into()));
}

#[test]
fn parser_accepts_ipc_mode_by_itself() {
    assert_eq!(parse_options(&strings(&["creel-desktop-host.exe", "--ipc-stdio"])), Ok(HostOptions::IpcStdio));
}

#[test]
fn host_options_report_each_mistake() {
    assert_eq!(parse_options(&strings(&["h", "--folder"])), Err("--folder 后面需要一个目录路径".into()));
    assert_eq!(parse_options(&strings(&["h", "--probe-seconds"])), Err("--probe-seconds 后面需要秒数".into()));
    assert_eq!(parse_options(&strings(&["h", "--probe-seconds", "-1"])), Err("--probe-seconds 必须是非负整数".into()));
    assert_eq!(parse_options(&strings(&["h", "--what"])), Err("无法识别参数：--what".into()));
    assert_eq!(
        parse_options(&strings(&["h", "--ipc-stdio", "--folder", "x"])),
        Err("--ipc-stdio 不能与文件夹探针参数一起使用".into())
    );
}

#[test]
fn revisions_skip_zero() {
    assert_eq!(next_revision(1), 2);
    assert_eq!(next_revision(u64::MAX), 1);
    assert_eq!(next_revision(0), 1);
}

#[test]
fn supervisor_backs_off_and_recovers() {
    let mut failures = 0;
    let mut waits = Vec::new();
    for _ in 0..8 {
        let step = supervisor_step(failures, true, false);
        assert!(step.retry);
        waits.push(step.wait_ms);
        failures = step.failures;
    }
    assert_eq!(waits, vec![250, 500, 1000, 1000, 2000, 3000, 5000, 5000]);
    assert_eq!(supervisor_step(failures, true, true), SupervisorStep { failures: 0, wait_ms: 5000, retry: false });
    assert_eq!(supervisor_step(3, false, false), SupervisorStep { failures: 3, wait_ms: 5000, retry: false });
    assert_eq!(supervisor_step(usize::MAX, true, false).failures, usize::MAX);
}

#[test]
fn ghost_mode_is_automatic_by_default() {
    assert_eq!(GhostModeTrigger::default(), GhostModeTrigger::Automatic);
}

#[test]
fn host_answers_its_own_version_with_ready() {
    assert_eq!(answer_hello(PROTOCOL_VERSION), HandshakeReply::Ready(PROTOCOL_VERSION));
    assert_eq!(handshake_outcome(&answer_hello(PROTOCOL_VERSION)), HandshakeOutcome::Completed);
}

#[test]
fn host_refuses_another_version_naming_both() {
    let reply = answer_hello(14);
    assert_eq!(reply, HandshakeReply::Error("Desktop Host 协议不匹配：主程序 14，Host 15".to_string()));
    assert_eq!(
        handshake_outcome(&reply),
        HandshakeOutcome::Refused("Desktop Host 协议不匹配：主程序 14，Host 15".to_string())
    );
}

#[test]
fn ready_of_another_version_or_another_event_is_an_invalid_handshake() {
    assert_eq!(handshake_outcome(&HandshakeReply::Ready(PROTOCOL_VERSION + 1)), HandshakeOutcome::Invalid);
    assert_eq!(handshake_outcome(&HandshakeReply::Other), HandshakeOutcome::Invalid);
}
