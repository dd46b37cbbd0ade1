use hermes_studio::converter::{
    is_convertible, is_finite_bits, json_to_toml, toml_to_json, ConversionError, Json, JsonNumber,
    Toml,
};
use hermes_studio::media::{accepts_upload, files_dir, is_mp3_file};
use hermes_studio::mp3::{Mp3Action, Mp3Command, Mp3Player, Mp3Request};

fn integer(i: i64) -> Json {
    Json::Number(JsonNumber { as_i64: Some(i), as_f64: Some((i as f64).to_bits()) })
}

#[test]
fn toml_becomes_json() {
    let toml = Toml::Table(vec![
        ("name".to_string(), Toml::String("hermes".to_string())),
        ("port".to_string(), Toml::Integer(4000)),
        ("ratio".to_string(), Toml::Float(1.5f64.to_bits())),
        ("debug".to_string(), Toml::Boolean(true)),
        ("since".to_string(), Toml::Datetime("1979-05-27T07:32:00Z".to_string())),
        ("tags".to_string(), Toml::Array(vec![Toml::Integer(1), Toml::Integer(-2)])),
    ]);
    assert!(is_convertible(&toml));
    let json = toml_to_json(&toml);
    let expected = "Object([(\"name\", String(\"hermes\")), \
        (\"port\", Number(JsonNumber { as_i64: Some(4000), as_f64: None })), \
        (\"ratio\", Number(JsonNumber { as_i64: None, as_f64: Some(4609434218613702656) })), \
        (\"debug\", Bool(true)), \
        (\"since\", String(\"1979-05-27T07:32:00Z\")), \
        (\"tags\", Array([Number(JsonNumber { as_i64: Some(1), as_f64: None }), \
        Number(JsonNumber { as_i64: Some(-2), as_f64: None })]))])";
    assert_eq!(format!("{:?}", json), expected);
}

#[test]
fn a_number_that_is_not_finite_has_no_json_form() {
    assert!(is_finite_bits(0f64.to_bits()));
    assert!(is_finite_bits(f64::MAX.to_bits()));
    assert!(is_finite_bits((-1.25f64).to_bits()));
    assert!(!is_finite_bits(f64::INFINITY.to_bits()));
    assert!(!is_finite_bits(f64::NEG_INFINITY.to_bits()));
    assert!(!is_finite_bits(f64::NAN.to_bits()));
    assert!(!is_convertible(&Toml::Array(vec![
        Toml::Integer(1),
        Toml::Table(vec![("x".to_string(), Toml::Float(f64::NAN.to_bits()))]),
    ])));
    assert!(is_convertible(&Toml::Array(vec![])));
}

#[test]
fn json_becomes_toml() {
    let json = Json::Object(vec![
        ("name".to_string(), Json::String("hermes".to_string())),
        ("port".to_string(), integer(4000)),
        (
            "ratio".to_string(),
            Json::Number(JsonNumber { as_i64: None, as_f64: Some(0.5f64.to_bits()) }),
        ),
        ("debug".to_string(), Json::Bool(false)),
        ("tags".to_string(), Json::Array(vec![integer(1), Json::Array(vec![])])),
    ]);
    let toml = json_to_toml(&json).unwrap();
    let expected = "Table([(\"name\", String(\"hermes\")), (\"port\", Integer(4000)), \
        (\"ratio\", Float(4602678819172646912)), (\"debug\", Boolean(false)), \
        (\"tags\", Array([Integer(1), Array([])]))])";
    assert_eq!(format!("{:?}", toml), expected);
}

#[test]
fn the_first_value_without_a_toml_form_decides_the_error() {
    assert_eq!(json_to_toml(&Json::Null).err(), Some(ConversionError::UnsupportedValue));
    let neither = Json::Number(JsonNumber { as_i64: None, as_f64: None });
    assert_eq!(json_to_toml(&neither).err(), Some(ConversionError::NeitherIntegerNorFloat));
    let json = Json::Array(vec![
        integer(1),
        Json::Object(vec![(
            "x".to_string(),
            Json::Number(JsonNumber { as_i64: None, as_f64: None }),
        )]),
        Json::Null,
    ]);
    assert_eq!(json_to_toml(&json).err(), Some(ConversionError::NeitherIntegerNorFloat));
    let json = Json::Array(vec![Json::Null, Json::Number(JsonNumber { as_i64: None, as_f64: None })]);
    assert_eq!(json_to_toml(&json).err(), Some(ConversionError::UnsupportedValue));
    assert_eq!(ConversionError::UnsupportedValue.message(), "Unsupported JSON value");
    assert_eq!(
        ConversionError::NeitherIntegerNorFloat.message(),
        "Number is neither integer nor float"
    );
}

#[test]
fn audio_files() {
    assert_eq!(files_dir(12), "./misc/files/12/");
    assert_eq!(files_dir(0), "./misc/files/0/");
    assert!(accepts_upload("audio/mpeg"));
    assert!(!accepts_upload("audio/wav"));
    assert!(!accepts_upload(""));
    assert!(is_mp3_file("song.mp3"));
    assert!(is_mp3_file(".mp3"));
    assert!(!is_mp3_file("song.mp4"));
    assert!(!is_mp3_file("mp3"));
    assert!(!is_mp3_file("song.MP3"));
}

#[test]
fn a_state_is_set_on_an_audio_player() {
    let mut player = Mp3Player::new();
    assert_eq!(player.set_state(&Mp3Request::Nothing), Mp3Action::Nothing);
    assert_eq!(player.status, Mp3Command::STOP);
    assert_eq!(
        player.set_state(&Mp3Request::Unsigned(1)),
        Mp3Action::Play { duration: u64::MAX }
    );
    assert_eq!(player.status, Mp3Command::PLAY);
    assert_eq!(player.set_state(&Mp3Request::Unsigned(0)), Mp3Action::Pause);
    assert_eq!(player.status, Mp3Command::PAUSE);
    assert_eq!(player.set_state(&Mp3Request::Signed(-1)), Mp3Action::Stop);
    assert_eq!(player.status, Mp3Command::STOP);
    assert_eq!(player.set_state(&Mp3Request::Unsigned(255)), Mp3Action::Stop);
    assert_eq!(player.set_state(&Mp3Request::Unsigned(256)), Mp3Action::Pause);
    assert_eq!(player.set_state(&Mp3Request::Signed(-256)), Mp3Action::Pause);
    assert_eq!(player.set_state(&Mp3Request::Path("a.mp3".to_string())), Mp3Action::Nothing);
    assert_eq!(player.get_path(), "a.mp3");
    assert_eq!(player.status, Mp3Command::PAUSE);
    let settings = Mp3Request::Settings {
        path: Some("b.mp3".to_string()),
        status: Some(Box::new(Mp3Request::Signed(7))),
    };
    assert_eq!(player.set_state(&settings), Mp3Action::Play { duration: u64::MAX });
    assert_eq!(player.get_path(), "b.mp3");
    assert_eq!(player.status, Mp3Command::PLAY);
    let settings = Mp3Request::Settings { path: None, status: None };
    assert_eq!(player.set_state(&settings), Mp3Action::Nothing);
    assert_eq!(player.get_path(), "b.mp3");
    assert_eq!(Mp3Command::from_unsigned(128), Mp3Command::STOP);
    assert_eq!(Mp3Command::from_signed(i64::MIN), Mp3Command::PAUSE);
}

#[test]
fn an_audio_player_is_animated() {
    let mut player = Mp3Player::new();
    let settings = Mp3Request::Settings { path: Some("c.mp3".to_string()), status: None };
    assert_eq!(player.animate(&settings, 1500), Mp3Action::Play { duration: 1500 });
    assert_eq!(player.get_path(), "c.mp3");
    assert_eq!(player.status, Mp3Command::PLAY);
    assert_eq!(player.animate(&Mp3Request::Signed(0), 1500), Mp3Action::Pause);
    assert_eq!(player.status, Mp3Command::PAUSE);
    assert_eq!(player.apply(Mp3Command::STOP), Mp3Action::Stop);
}
