use stratepig::room::{CliConfig, WinType};
use stratepig::settings::{
    get_pig_config_for_mode, get_settings_vars, sanitize_setting, settings_from_request, settings_group,
    step_setting, validate_placement, ConfigError, GameMode, PlacementError,
};
use stratepig::util::{gen_game_room_code, id_string, number_string, numbered_name, to_double_digit, unix_timestamp_to};

#[test]
fn util_values() {
    for _ in 0..10 {
        let code = gen_game_room_code();
        assert_eq!(code.len(), 4);
        assert!(code.chars().all(|c| c.is_ascii_uppercase()));
    }
}

#[test]
fn timestamps_and_labels() {
    assert_eq!(unix_timestamp_to(1000, 5), 6000);
    assert_eq!(to_double_digit(7), "07");
    assert_eq!(to_double_digit(42), "42");
    assert_eq!(to_double_digit(100), "00");
}

#[test]
fn presets_and_vars() {
    let classic = get_pig_config_for_mode(GameMode::Original).unwrap();
    assert_eq!(classic.iter().map(|c| *c as u32).sum::<u32>(), 40);
    let infiltrator = get_pig_config_for_mode(GameMode::Infiltrator).unwrap();
    assert_eq!((infiltrator[2], infiltrator[4]), (1, 7));
    let duel = get_pig_config_for_mode(GameMode::Duel).unwrap();
    assert_eq!(duel, vec![2, 1, 0, 1, 2, 2, 0, 0, 0, 0, 0, 1, 1]);
    assert!(get_pig_config_for_mode(GameMode::Custom).is_none());
    assert_eq!(get_settings_vars(GameMode::Duel).buffer_time, 180);
    assert_eq!(get_settings_vars(GameMode::Original).buffer_time, 300);
    assert_eq!(GameMode::from(3), GameMode::Duel);
    assert_eq!(GameMode::from(9), GameMode::Custom);
}

#[test]
fn time_settings() {
    let placement = settings_group(1).unwrap();
    assert_eq!(sanitize_setting(120, &placement), 120);
    assert_eq!(sanitize_setting(125, &placement), 300);
    assert_eq!(sanitize_setting(630, &placement), 300);
    let turn = settings_group(2).unwrap();
    assert_eq!(step_setting(30, &turn, true), Some(0));
    assert_eq!(step_setting(0, &turn, false), Some(30));
    assert_eq!(step_setting(600, &placement, true), None);
    assert_eq!(step_setting(30, &placement, false), None);
    assert!(settings_group(4).is_none());
}

#[test]
fn request_settings() {
    let s = settings_from_request(3, 60, 10, 33, &vec![]).unwrap();
    assert_eq!(s.game_mode, GameMode::Duel);
    assert_eq!((s.placement_time, s.turn_time, s.buffer_time), (60, 10, 300));
    assert_eq!(s.pig_config[0], 2);
    let custom = settings_from_request(4, 300, 15, 300, &vec![(3, 1), (5, 2), (5, 3)]).unwrap();
    assert_eq!(custom.pig_config[5], 3);
    assert_eq!(
        settings_from_request(4, 300, 15, 300, &vec![(13, 1), (3, 1)]).unwrap_err(),
        ConfigError::InvalidConfig
    );
    assert!(settings_from_request(4, 300, 15, 300, &vec![]).is_err());
    assert!(settings_from_request(4, 300, 15, 300, &vec![(4, 41)]).is_err());
    assert_eq!(settings_from_request(0, 300, 15, 300, &vec![]).unwrap().game_mode, GameMode::Original);
}

#[test]
fn placement_validation() {
    let mut config = vec![0u8; 13];
    config[3] = 1;
    config[6] = 1;
    assert!(validate_placement(&vec![(3, 40), (6, 1)], &config).is_ok());
    assert_eq!(validate_placement(&vec![(14, 40)], &config).unwrap_err(), PlacementError::InvalidPig);
    assert_eq!(validate_placement(&vec![(3, 0)], &config).unwrap_err(), PlacementError::OutOfBounds);
    assert_eq!(validate_placement(&vec![(3, 9), (6, 9)], &config).unwrap_err(), PlacementError::Duplicate);
    assert_eq!(validate_placement(&vec![(3, 9)], &config).unwrap_err(), PlacementError::ConfigMismatch);
}

#[test]
fn win_types_and_config() {
    assert!(!WinType::FlagCapture.immediate());
    assert!(WinType::Surrender.immediate());
    assert_eq!(WinType::OutOfTime.to_wire(), 4);
    assert!(CliConfig::default().is_default());
}

#[test]
fn decimal_names() {
    assert_eq!(id_string(0), "0");
    assert_eq!(id_string(4096), "4096");
    assert_eq!(number_string(u64::MAX), u64::MAX.to_string());
    assert_eq!(numbered_name("hog", 12), "hog 12");
}
