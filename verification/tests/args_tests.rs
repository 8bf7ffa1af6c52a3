use mp3_normalizer::args::{parse_args, refused_thread_count, ArgEvent, ArgParser, Pending, ALBUM_BIT, REMOVE_BIT,
    SET_ALBUM_BIT, SET_TRACK_BIT, SHOW_BIT, SLEEP_BIT};
use mp3_normalizer::text::{has_mp3_extension, parse_i32, same_text};

fn line(words: &[&str]) -> Vec<String> {
    words.iter().map(|w| w.to_string()).collect()
}

fn inputs(events: &[ArgEvent]) -> Vec<String> {
    events
        .iter()
        .filter_map(|e| match e {
            ArgEvent::Inputs(p) => Some(p.clone()),
            _ => None,
        })
        .collect()
}

#[test]
fn defaults_without_arguments() {
    let scan = parse_args(&line(&["mp3_normalizer"]));
    assert_eq!(scan.settings.dest, "$$$");
    assert_eq!(scan.settings.num_th, 1);
    assert_eq!(scan.settings.actions, 0);
    assert_eq!(scan.settings.loudness, None);
    assert_eq!(scan.settings.rg_set, None);
    assert!(scan.events.is_empty());
}

#[test]
fn readme_example_with_output_threads_and_album() {
    let scan = parse_args(&line(&[
        "mp3_normalizer", "-i", "music_folder1", "music_folder2", "input.mp3", "-o",
        "music_output_folder", "-nt", "4", "-a",
    ]));
    assert_eq!(inputs(&scan.events), vec!["music_folder1", "music_folder2", "input.mp3"]);
    assert_eq!(scan.settings.dest, "music_output_folder");
    assert_eq!(scan.settings.num_th, 4);
    assert_eq!(scan.settings.actions, ALBUM_BIT);
}

#[test]
fn switches_accumulate_bits() {
    let scan = parse_args(&line(&["prog", "-r", "-show", "-sl", "-r"]));
    assert_eq!(scan.settings.actions, REMOVE_BIT | SHOW_BIT | SLEEP_BIT);
}

#[test]
fn gain_settings_set_their_bits_and_value() {
    let scan = parse_args(&line(&["prog", "-st", "-3.5"]));
    assert_eq!(scan.settings.actions, SET_TRACK_BIT);
    assert_eq!(scan.settings.rg_set, Some("-3.5".to_string()));
    assert!(matches!(&scan.events[0], ArgEvent::TrackGain(t) if t == "-3.5"));
    let scan = parse_args(&line(&["prog", "-sa", "2"]));
    assert_eq!(scan.settings.actions, SET_ALBUM_BIT);
    assert!(matches!(&scan.events[0], ArgEvent::AlbumGain(t) if t == "2"));
}

#[test]
fn loudness_is_kept_as_written() {
    let scan = parse_args(&line(&["prog", "-l", "89.0"]));
    assert_eq!(scan.settings.loudness, Some("89.0".to_string()));
    assert!(matches!(&scan.events[0], ArgEvent::Loudness(t) if t == "89.0"));
    assert_eq!(scan.settings.pending, Pending::Nothing);
}

#[test]
fn help_option_prints_on_next_argument() {
    let scan = parse_args(&line(&["prog", "-h", "anything", "more"]));
    assert_eq!(scan.events.len(), 1);
    assert!(matches!(scan.events[0], ArgEvent::Help));
}

#[test]
fn bad_thread_count_stops_reading() {
    let args = line(&["prog", "-r", "-nt", "four", "-a"]);
    assert_eq!(refused_thread_count(&args), Some(3));
    let scan = parse_args(&args[..3].to_vec());
    assert_eq!(scan.settings.actions, REMOVE_BIT);
    assert_eq!(scan.settings.num_th, 1);
    assert_eq!(refused_thread_count(&line(&["prog", "-nt", "4", "-nt", "-2"])), None);
    assert_eq!(refused_thread_count(&line(&["prog", "-i", "four"])), None);
}

#[test]
fn inputs_continue_until_another_option() {
    let scan = parse_args(&line(&["prog", "-i", "a", "b", "-r", "c", "-o", "out", "d"]));
    assert_eq!(inputs(&scan.events), vec!["a", "b", "c"]);
    assert_eq!(scan.settings.dest, "out");
}

#[test]
fn step_by_step_matches_whole_line() {
    let mut parser = ArgParser::new();
    assert!(parser.step("-i".to_string()).is_none());
    assert!(matches!(parser.step("song.mp3".to_string()), Some(ArgEvent::Inputs(p)) if p == "song.mp3"));
    assert!(parser.step("-nt".to_string()).is_none());
    assert!(!parser.accepts("x7"));
    assert!(parser.accepts("-r"));
    assert!(parser.accepts("12"));
    assert_eq!(parser.pending, Pending::Threads);
    assert!(parser.step("12".to_string()).is_none());
    assert_eq!(parser.num_th, 12);
}

#[test]
fn parse_i32_like_std() {
    for text in ["0", "42", "-17", "+5", "2147483647", "-2147483648", "2147483648", "-2147483649",
        "", "-", "+", "4x", " 4", "007", "99999999999999999999"] {
        assert_eq!(parse_i32(text), text.parse::<i32>().ok(), "{}", text);
    }
}

#[test]
fn mp3_extension_like_path() {
    for name in ["a.mp3", "a.MP3", ".mp3", "a.b.mp3", "mp3", "a.mp3.wav", "..", "a.", "x.mp33"] {
        let expected = std::path::Path::new(name).extension().map(|e| e == "mp3").unwrap_or(false);
        assert_eq!(has_mp3_extension(name), expected, "{}", name);
    }
}

#[test]
fn same_text_compares_characters() {
    assert!(same_text("-ad", "-ad"));
    assert!(!same_text("-a", "-ad"));
    assert!(!same_text("é", "e"));
}
