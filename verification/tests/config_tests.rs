use terminal_player::config::{parse_width, Config, ConfigError, DecoderInfo};
use terminal_player::globals::{get_sample_mp4, DEF_WIDTH, FRAME_BACKLOG};

fn args(items: &[&str]) -> Vec<String> {
    items.iter().map(|s| String::from(*s)).collect()
}

#[test]
fn sample_path_is_joined() {
    assert_eq!(
        get_sample_mp4(),
        "/home/klaudiusz/Desktop/Projects/rust/terminal_player/samples/sample.mp4"
    );
    assert_eq!(DEF_WIDTH, 72);
    assert_eq!(FRAME_BACKLOG, 300);
}

#[test]
fn file_alone_gets_default_width() {
    let cfg = Config::from_args(&args(&["player", "movie.mp4"])).unwrap();
    assert_eq!(cfg.file_name, "movie.mp4");
    assert_eq!(cfg.width_chars, 72);
    assert_eq!(cfg.video_size, (0, 0));
    assert_eq!(cfg.sampling_rate, (0, 0));
    assert_eq!(cfg.frame_rate, 30);
    assert_eq!(cfg.frame_size, 0);
    assert_eq!(cfg.delta_t_ms, 0);
}

#[test]
fn width_flag_sets_width() {
    let cfg = Config::from_args(&args(&["player", "movie.mp4", "--width", "120"])).unwrap();
    assert_eq!(cfg.file_name, "movie.mp4");
    assert_eq!(cfg.width_chars, 120);
    let cfg = Config::from_args(&args(&["player", "-w", "40", "clip.mkv"])).unwrap();
    assert_eq!(cfg.file_name, "clip.mkv");
    assert_eq!(cfg.width_chars, 40);
}

#[test]
fn last_file_and_last_width_win() {
    let cfg =
        Config::from_args(&args(&["player", "a.mp4", "-w", "10", "b.mp4", "-w", "20"])).unwrap();
    assert_eq!(cfg.file_name, "b.mp4");
    assert_eq!(cfg.width_chars, 20);
}

#[test]
fn missing_file_is_an_error() {
    assert_eq!(Config::from_args(&args(&["player"])).unwrap_err(), ConfigError::MissingFile);
    assert_eq!(Config::from_args(&args(&[])).unwrap_err(), ConfigError::MissingFile);
    assert_eq!(
        Config::from_args(&args(&["player", "-w", "80"])).unwrap_err(),
        ConfigError::MissingFile
    );
}

#[test]
fn unknown_flag_is_an_error() {
    assert_eq!(
        Config::from_args(&args(&["player", "movie.mp4", "--fast"])).unwrap_err(),
        ConfigError::UnknownFlag { index: 2 }
    );
    assert_eq!(
        Config::from_args(&args(&["player", "-", "movie.mp4"])).unwrap_err(),
        ConfigError::UnknownFlag { index: 1 }
    );
}

#[test]
fn width_flag_needs_a_value() {
    assert_eq!(
        Config::from_args(&args(&["player", "movie.mp4", "-w"])).unwrap_err(),
        ConfigError::MissingWidthValue { index: 2 }
    );
}

#[test]
fn invalid_width_is_an_error() {
    assert_eq!(
        Config::from_args(&args(&["player", "movie.mp4", "-w", "wide"])).unwrap_err(),
        ConfigError::InvalidWidth { index: 3 }
    );
    assert_eq!(
        Config::from_args(&args(&["player", "movie.mp4", "--width", "0"])).unwrap_err(),
        ConfigError::InvalidWidth { index: 3 }
    );
}

#[test]
fn widths_are_positive_decimals() {
    assert_eq!(parse_width("72"), Some(72));
    assert_eq!(parse_width("+72"), Some(72));
    assert_eq!(parse_width("007"), Some(7));
    assert_eq!(parse_width("1"), Some(1));
    assert_eq!(parse_width("0"), None);
    assert_eq!(parse_width(""), None);
    assert_eq!(parse_width("+"), None);
    assert_eq!(parse_width("-5"), None);
    assert_eq!(parse_width("12a"), None);
    assert_eq!(parse_width(" 12"), None);
    assert_eq!(parse_width("١٢"), None);
    assert_eq!(parse_width(&usize::MAX.to_string()), Some(usize::MAX));
    assert_eq!(parse_width("99999999999999999999999999999999"), None);
    assert_eq!(parse_width("18446744073709551616"), None);
}

#[test]
fn error_messages_and_exit_code() {
    assert_eq!(ConfigError::MissingFile.message(), "Provide a path to the file.");
    assert_eq!(ConfigError::UnknownFlag { index: 1 }.message(), "Unknown flag.");
    assert_eq!(
        ConfigError::MissingWidthValue { index: 1 }.message(),
        "Flag \"width\" needs a value."
    );
    assert_eq!(
        ConfigError::InvalidWidth { index: 2 }.message(),
        "Invalid value for flag \"width\"."
    );
    assert_eq!(ConfigError::MissingFile.exit_code(), 1);
    assert_eq!(ConfigError::InvalidWidth { index: 2 }.exit_code(), 1);
}

#[test]
fn decoder_info_completes_the_config() {
    let mut cfg = Config::from_args(&args(&["player", "movie.mp4"])).unwrap();
    cfg.add_decoder_info(&DecoderInfo { width: 720, height: 480, frame_rate_millis: 30_000 });
    assert_eq!(cfg.file_name, "movie.mp4");
    assert_eq!(cfg.width_chars, 72);
    assert_eq!(cfg.video_size, (720, 480));
    assert_eq!(cfg.sampling_rate, (10, 6));
    assert_eq!(cfg.frame_rate, 30);
    assert_eq!(cfg.frame_size, 73 * 80);
    assert_eq!(cfg.delta_t_ms, 33);
}

#[test]
fn fractional_frame_rate() {
    let mut cfg = Config::from_args(&args(&["player", "movie.mp4", "-w", "100"])).unwrap();
    cfg.add_decoder_info(&DecoderInfo { width: 1920, height: 1080, frame_rate_millis: 29_970 });
    assert_eq!(cfg.sampling_rate, (19, 10));
    assert_eq!(cfg.frame_rate, 29);
    assert_eq!(cfg.delta_t_ms, 33);
    assert_eq!(cfg.frame_size, (102 + 1) * 108);
}

#[test]
fn strides_and_interval_stay_positive() {
    let mut cfg = Config::from_args(&args(&["player", "movie.mp4", "-w", "200"])).unwrap();
    cfg.add_decoder_info(&DecoderInfo { width: 100, height: 2, frame_rate_millis: 5_000_000 });
    assert_eq!(cfg.sampling_rate, (1, 1));
    assert_eq!(cfg.delta_t_ms, 1);
    assert_eq!(cfg.frame_rate, 5000);
    assert_eq!(cfg.frame_size, 101 * 2);
    cfg.add_decoder_info(&DecoderInfo { width: 100, height: 2, frame_rate_millis: 0 });
    assert_eq!(cfg.delta_t_ms, u64::MAX);
    assert_eq!(cfg.frame_rate, 0);
}

#[test]
fn source_without_size_is_accepted() {
    let mut cfg = Config::from_args(&args(&["player", "movie.mp4"])).unwrap();
    cfg.add_decoder_info(&DecoderInfo { width: 0, height: 0, frame_rate_millis: 25_000 });
    assert_eq!(cfg.file_name, "movie.mp4");
    assert_eq!(cfg.width_chars, 72);
    assert_eq!(cfg.video_size, (0, 0));
    assert_eq!(cfg.sampling_rate, (1, 1));
    assert_eq!(cfg.frame_rate, 25);
    assert_eq!(cfg.frame_size, 0);
    assert_eq!(cfg.delta_t_ms, 40);
    cfg.add_decoder_info(&DecoderInfo { width: 0, height: 9, frame_rate_millis: 25_000 });
    assert_eq!(cfg.sampling_rate, (1, 1));
    assert_eq!(cfg.frame_size, 9);
    cfg.add_decoder_info(&DecoderInfo { width: 144, height: 0, frame_rate_millis: 25_000 });
    assert_eq!(cfg.sampling_rate, (2, 1));
    assert_eq!(cfg.frame_size, 0);
}

#[test]
fn clone_keeps_every_field() {
    let mut cfg = Config::from_args(&args(&["player", "movie.mp4"])).unwrap();
    cfg.add_decoder_info(&DecoderInfo { width: 720, height: 480, frame_rate_millis: 30_000 });
    let copy = cfg.clone();
    assert_eq!(copy.file_name, cfg.file_name);
    assert_eq!(copy.video_size, cfg.video_size);
    assert_eq!(copy.width_chars, cfg.width_chars);
    assert_eq!(copy.sampling_rate, cfg.sampling_rate);
    assert_eq!(copy.frame_rate, cfg.frame_rate);
    assert_eq!(copy.frame_size, cfg.frame_size);
    assert_eq!(copy.delta_t_ms, cfg.delta_t_ms);
}
