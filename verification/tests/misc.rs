use hermes_studio::board::{ArduinoType, BoardType};
use hermes_studio::entity::EntityType;
use hermes_studio::group::Group;
use hermes_studio::interface::Interface;
use hermes_studio::logger::{HermesEncoder, Level, Logger};
use hermes_studio::mp3::{Mp3Command, Mp3Player, Mp3PlayerEvent};
use hermes_studio::rest::{Pagination, Version};
use hermes_studio::text::format_number;
use hermes_studio::utils::is_default;

#[test]
fn a_new_group_is_an_empty_composite() {
    let g = Group::new("arm".to_string());
    assert_eq!(g.id, 0);
    assert_eq!(g.name, Some("arm".to_string()));
    assert_eq!(g.order, 0);
    assert!(g.children.is_empty());
    assert_eq!(g.device, None);
    let w = Group::wrapping(4);
    assert_eq!(w.device, Some(4));
    assert_eq!(w.name, None);
}

#[test]
fn defaults() {
    assert_eq!(ArduinoType::default(), ArduinoType::OTHER);
    assert_eq!(BoardType::default(), BoardType::Unknown);
    assert_eq!(Mp3Command::default(), Mp3Command::STOP);
    let p = Pagination::default();
    assert_eq!(p.offset, None);
    assert_eq!(p.limit, None);
    assert_eq!(HermesEncoder::default().ansi_support, false);
}

#[test]
fn is_default_compares_with_the_default() {
    assert!(is_default(&0u8));
    assert!(!is_default(&3u8));
    assert!(is_default(&false));
    assert!(!is_default(&true));
    assert!(is_default(&String::new()));
    assert!(!is_default(&"x".to_string()));
    assert!(is_default(&BoardType::Unknown));
    assert!(!is_default(&BoardType::Arduino(ArduinoType::UNO)));
}

#[test]
fn categories_have_names_and_files() {
    assert_eq!(EntityType::Board.name(), "Board");
    assert_eq!(EntityType::Device.name(), "Device");
    assert_eq!(EntityType::Group.name(), "Group");
    assert_eq!(EntityType::Animation.name(), "Animation");
    assert_eq!(EntityType::Posture.name(), "Posture");
    assert_eq!(EntityType::Board.file_name(), "Boards.json");
    assert_eq!(EntityType::Posture.file_name(), "Postures.json");
    assert_eq!(EntityType::from_file_name("Groups.json"), Some(EntityType::Group));
    assert_eq!(EntityType::from_file_name("Animations.json"), Some(EntityType::Animation));
    assert_eq!(EntityType::from_file_name("Group.json"), None);
    assert_eq!(EntityType::from_file_name("interface.json"), None);
}

#[test]
fn numbers_are_written_in_decimal() {
    assert_eq!(format_number(0), "0");
    assert_eq!(format_number(7), "7");
    assert_eq!(format_number(10), "10");
    assert_eq!(format_number(9081726354), "9081726354");
    assert_eq!(format_number(usize::MAX), usize::MAX.to_string());
}

#[test]
fn a_health_check_names_the_versions() {
    let v = Version::new("0.3.1".to_string());
    assert_eq!(v.semver, "0.3.1");
    assert_eq!(v.current, "v1");
    assert_eq!(v.latest, "v1");
}

#[test]
fn the_interface_settings_default_to_an_empty_object() {
    assert_eq!(Interface::get_config_from_db(None), "{}");
    assert_eq!(Interface::get_config_from_db(Some("{\"a\":1}".to_string())), "{\"a\":1}");
    assert_eq!(Interface::file_name(), "interface.json");
}

#[test]
fn the_logger_says_where_it_writes() {
    let logger = Logger { console: true, logfile: true, loglevel: Level::Trace };
    assert_eq!(logger.summary(), Some("activated console,logfile (level=TRACE)".to_string()));
    let logger = Logger { console: true, logfile: false, loglevel: Level::Error };
    assert_eq!(logger.summary(), Some("activated console (level=ERROR)".to_string()));
    let logger = Logger { console: false, logfile: true, loglevel: Level::Warn };
    assert_eq!(logger.summary(), Some("activated logfile (level=WARN)".to_string()));
    let logger = Logger { console: false, logfile: false, loglevel: Level::Trace };
    assert_eq!(logger.summary(), None);
    assert!(!logger.is_enabled());
}

#[test]
fn a_log_line_without_colours() {
    let line = HermesEncoder::line("2024-05-01 10:00:00", "src/app.rs", 42, Level::Info, "ready");
    assert_eq!(line, "2024-05-01 10:00:00 \u{2014} src/app.rs:42 | INFO  | ready\n");
    let line = HermesEncoder::line("t", "f", 0, Level::Debug, "");
    assert_eq!(line, "t \u{2014} f:0 | DEBUG | \n");
    assert_eq!(Level::Warn.as_str(), "WARN");
    assert_eq!(Level::Warn.column(), "WARN ");
    assert_eq!(Level::Error.column(), "ERROR");
}

#[test]
fn the_encoder_switches_colours() {
    assert_eq!(HermesEncoder::default().with_ansi(true).ansi_support, true);
    assert_eq!(HermesEncoder::default().with_ansi(true).with_ansi(false).ansi_support, false);
}

#[test]
fn audio_commands_and_events() {
    assert_eq!(Mp3Command::from_code(-5), Mp3Command::STOP);
    assert_eq!(Mp3Command::from_code(0), Mp3Command::PAUSE);
    assert_eq!(Mp3Command::from_code(3), Mp3Command::PLAY);
    assert_eq!(Mp3Command::PLAY.code(), 1);
    assert_eq!(Mp3Command::PAUSE.code(), 0);
    assert_eq!(Mp3Command::STOP.code(), -1);
    assert_eq!(Mp3PlayerEvent::OnStart.name(), "start");
    assert_eq!(Mp3PlayerEvent::OnEnd.name(), "end");
}

#[test]
fn an_audio_player_keeps_its_file_and_status() {
    let mut player = Mp3Player::new();
    assert_eq!(player.get_path(), "");
    assert_eq!(player.status, Mp3Command::STOP);
    player = player.set_path("song.mp3".to_string());
    assert_eq!(player.get_path(), "song.mp3");
    assert_eq!(player.status, Mp3Command::STOP);
    player.play();
    assert_eq!(player.status, Mp3Command::PLAY);
    player.pause();
    assert_eq!(player.status, Mp3Command::PAUSE);
    player.change_track("other.mp3".to_string());
    assert_eq!(player.get_path(), "other.mp3");
    assert_eq!(player.status, Mp3Command::PLAY);
    player.stop();
    assert_eq!(player.status, Mp3Command::STOP);
    player.command(1);
    assert_eq!(player.status, Mp3Command::PLAY);
    player.command(-1);
    assert_eq!(player.status, Mp3Command::STOP);
}
