use taiko::config::Config;
use taiko::info::{Edda, Editors};
use taiko::taiko_app::{output_file_name, ComboBoxConversion, Difficulty, TaikoApp};

#[test]
fn default_config_maps_four_lanes() {
    let c = Config::default();
    assert_eq!(c.drum_map, vec![60, 61, 62, 63]);
    assert_eq!(c.batch_output_extension, ".dat");
}

#[test]
fn from_config_starts_fresh() {
    let c = Config { drum_map: vec![36, 38], batch_output_extension: String::from(".json") };
    let app = TaikoApp::from_config(c);
    assert_eq!(app.config.drum_map, vec![36, 38]);
    assert_eq!(app.config.batch_output_extension, ".json");
    assert!(app.source_path.is_none());
    assert!(app.output_path.is_none());
    assert_eq!(app.output_type, ComboBoxConversion::SingleOutput);
    assert_eq!(app.difficulty, Difficulty::Easy);
    assert!(app.log.is_empty());
}

#[test]
fn log_keeps_three_latest_lines() {
    let mut app = TaikoApp::from_config(Config::default());
    for line in ["a", "b", "c", "d", "e"] {
        app.log_str(String::from(line));
    }
    assert_eq!(app.log, vec!["c", "d", "e"]);
}

#[test]
fn labels() {
    assert_eq!(ComboBoxConversion::SingleOutput.label(), "Single");
    assert_eq!(ComboBoxConversion::MultiOutput.label(), "Multi");
    assert_eq!(Difficulty::Easy.label(), "Easy");
    assert_eq!(Difficulty::Normal.label(), "Normal");
    assert_eq!(Difficulty::Hard.label(), "Hard");
    assert_eq!(ComboBoxConversion::default(), ComboBoxConversion::SingleOutput);
    assert_eq!(Difficulty::default(), Difficulty::Easy);
}

#[test]
fn output_file_name_appends_extension() {
    assert_eq!(output_file_name(&String::from("Hard"), &String::from(".dat")), "Hard.dat");
    assert_eq!(output_file_name(&String::from("Easy"), &String::new()), "Easy");
}

#[test]
fn editor_info_holds_its_fields() {
    let e = Editors { edda: Edda { version: String::from("1.0") }, last_edited_by: String::from("Edda") };
    assert_eq!(e.edda.version, "1.0");
    assert_eq!(e.last_edited_by, "Edda");
}
