use zeitop::default_services::{
    asset_reply, AssetRequest, LibService, MpdCommand, MpdService, ObsCommand, ObsService,
    PageAssetsService, PageRequest, PageService, PulseAudioService, PulseCommand, SysInfoQuery,
    SysInfoService,
};
use zeitop::device::{DeviceHandler, DevicePlan};
use zeitop::service::Reply;

fn cv(s: &str) -> Vec<char> {
    s.chars().collect()
}

#[test]
fn sysinfo_queries() {
    assert_eq!(SysInfoService::classify(&cv("user")), SysInfoQuery::User);
    assert_eq!(SysInfoService::classify(&cv("host")), SysInfoQuery::Host);
    assert_eq!(SysInfoService::classify(&cv("cpu")), SysInfoQuery::Cpu);
    assert_eq!(SysInfoService::classify(&cv("total_mem")), SysInfoQuery::TotalMem);
    assert_eq!(SysInfoService::classify(&cv("used_mem")), SysInfoQuery::UsedMem);
    assert_eq!(SysInfoService::classify(&cv("uptime")), SysInfoQuery::Uptime);
    assert_eq!(SysInfoService::classify(&cv("moonphase")), SysInfoQuery::Invalid);
    assert_eq!(SysInfoService::classify(&cv("Uptime")), SysInfoQuery::Invalid);
}

#[test]
fn mpd_commands() {
    assert_eq!(MpdService::classify(&cv("play")), MpdCommand::Play);
    assert_eq!(MpdService::classify(&cv("pause")), MpdCommand::Pause);
    assert_eq!(MpdService::classify(&cv("next")), MpdCommand::Next);
    assert_eq!(MpdService::classify(&cv("prev")), MpdCommand::Prev);
    assert_eq!(MpdService::classify(&cv("currentsong")), MpdCommand::CurrentSong);
    assert_eq!(MpdService::classify(&cv("status")), MpdCommand::Status);
    assert_eq!(MpdService::classify(&cv("stop")), MpdCommand::Invalid);
}

#[test]
fn pulse_commands() {
    assert!(matches!(PulseAudioService::classify(&cv("vol_get_sink")), PulseCommand::VolGetSink));
    match PulseAudioService::classify(&cv("vol_set_sink 40")) {
        PulseCommand::VolSetSink(Some(arg)) => assert_eq!(arg, cv("40")),
        _ => panic!("expected set with argument"),
    }
    assert!(matches!(
        PulseAudioService::classify(&cv("vol_set_sink")),
        PulseCommand::VolSetSink(None)
    ));
    match PulseAudioService::classify(&cv("  vol_inc_sink   5  ")) {
        PulseCommand::VolIncSink(Some(arg)) => assert_eq!(arg, cv("5")),
        _ => panic!("expected inc with argument"),
    }
    assert!(matches!(PulseAudioService::classify(&cv("vol_mute_mic")), PulseCommand::VolMuteMic));
    match PulseAudioService::classify(&cv("fizz buzz")) {
        PulseCommand::Unknown(cmd) => assert_eq!(cmd, cv("fizz")),
        _ => panic!("expected unknown"),
    }
}

#[test]
fn pulse_volume_parse() {
    let out = cv("Volume: front-left: 32768 /  50% / -18.06 dB,   front-right: 32768 /  50%");
    assert_eq!(PulseAudioService::parse_sink_volume(&out), Ok(50));
    assert_eq!(
        PulseAudioService::parse_sink_volume(&cv("no slashes here")),
        Err(cv("parse error"))
    );
    assert_eq!(
        PulseAudioService::parse_sink_volume(&cv("Volume: x / y%")),
        Err(cv("parse int"))
    );
}

#[test]
fn obs_commands() {
    assert!(matches!(ObsService::classify(&cv("record_state")), ObsCommand::RecordState));
    assert!(matches!(ObsService::classify(&cv("record_start")), ObsCommand::RecordStart));
    assert!(matches!(ObsService::classify(&cv("record_stop")), ObsCommand::RecordStop));
    match ObsService::classify(&cv("scene Some Scene Name")) {
        ObsCommand::Scene(name) => assert_eq!(name, cv("Some Scene Name")),
        _ => panic!("expected scene"),
    }
    // token runs collapse to single spaces, as the joined collection does
    match ObsService::classify(&cv("scene  Big\tRoom")) {
        ObsCommand::Scene(name) => assert_eq!(name, cv("Big Room")),
        _ => panic!("expected scene"),
    }
    assert!(matches!(ObsService::classify(&cv("scene")), ObsCommand::SceneMissing));
    assert!(matches!(ObsService::classify(&cv("mic_mute")), ObsCommand::SetMicMuted(true)));
    assert!(matches!(ObsService::classify(&cv("mic_unmute")), ObsCommand::SetMicMuted(false)));
    assert!(matches!(
        ObsService::classify(&cv("desktop_mute")),
        ObsCommand::SetDesktopMuted(true)
    ));
    assert!(matches!(
        ObsService::classify(&cv("desktop_unmute")),
        ObsCommand::SetDesktopMuted(false)
    ));
    match ObsService::classify(&cv("dance")) {
        ObsCommand::Unknown(cmd) => assert_eq!(cmd, cv("dance")),
        _ => panic!("expected unknown"),
    }
}

#[test]
fn page_requests() {
    match PageService::classify(&cv("home")) {
        PageRequest::Load(name) => assert_eq!(name, cv("home")),
        _ => panic!("expected load"),
    }
    match PageService::classify(&cv("home/img/bg.png")) {
        PageRequest::Asset { page, path } => {
            assert_eq!(page, cv("home"));
            assert_eq!(path, cv("img/bg.png"));
        },
        _ => panic!("expected asset"),
    }
    match PageService::classify(&cv("home/img?")) {
        PageRequest::Query { page, path } => {
            assert_eq!(page, cv("home"));
            assert_eq!(path, cv("img"));
        },
        _ => panic!("expected query"),
    }
}

#[test]
fn asset_requests() {
    assert!(matches!(PageAssetsService::classify(&cv("noslash")), AssetRequest::Invalid));
    match PageAssetsService::classify(&cv("home/style.css")) {
        AssetRequest::Asset { page, path } => {
            assert_eq!(page, cv("home"));
            assert_eq!(path, cv("style.css"));
        },
        _ => panic!("expected asset"),
    }
}

#[test]
fn path_fragments() {
    assert_eq!(zeitop::default_services::page_dir_fragment(&cv("home")), cv("pages/home/"));
    assert_eq!(zeitop::default_services::asset_fragment(&cv("a/b.png")), cv("assets/a/b.png"));
    assert_eq!(LibService::lib_file_name(&cv("clock")), cv("clock.js"));
}

#[test]
fn asset_replies_are_base64() {
    match asset_reply(b"abc") {
        Reply::Text(t) => assert_eq!(t, cv("YWJj")),
        _ => panic!("expected text"),
    }
    match asset_reply(&[0u8]) {
        Reply::Text(t) => assert_eq!(t, cv("AA==")),
        _ => panic!("expected text"),
    }
    match asset_reply(b"") {
        Reply::Text(t) => assert_eq!(t, cv("")),
        _ => panic!("expected text"),
    }
}

#[test]
fn device_plans() {
    assert_eq!(DeviceHandler::plan(0, true, true), DevicePlan::Skip);
    assert_eq!(DeviceHandler::plan(1, false, true), DevicePlan::NoSerial);
    assert_eq!(DeviceHandler::plan(1, true, false), DevicePlan::BringUp { install_helper: true });
    assert_eq!(DeviceHandler::plan(2, true, true), DevicePlan::BringUp { install_helper: false });
}

#[test]
fn device_cli_arguments() {
    let args = DeviceHandler::reverse_args(6969, 6969);
    let words: Vec<String> = args.into_iter().map(|a| a.into_iter().collect()).collect();
    assert_eq!(words, vec!["reverse".to_string(), "tcp:6969".to_string(), "tcp:6969".to_string()]);
    let args = DeviceHandler::reverse_args(1234, 4321);
    let words: Vec<String> = args.into_iter().map(|a| a.into_iter().collect()).collect();
    assert_eq!(words, vec!["reverse".to_string(), "tcp:4321".to_string(), "tcp:1234".to_string()]);
    let activity: String = DeviceHandler::activity_arg().into_iter().collect();
    assert_eq!(activity, "com.z3phyrl.zeitop/com.z3phyrl.zeitop.MainActivity");
}
