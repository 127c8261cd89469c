use iff_editor::project::{read_project_paths, relative_asset_path, ProjectFileError};

fn err(text: &str) -> ProjectFileError {
    match read_project_paths(text) {
        Ok(_) => panic!("accepted {text}"),
        Err(e) => e,
    }
}

#[test]
fn project_paths_are_read() {
    let p = read_project_paths(
        r#"{"chart_path": "assets/chart.spc", "audio_path": "music.wav", "last_music_time_ms": 1250.0}"#,
    )
    .unwrap();
    assert_eq!(p.chart_path, "assets/chart.spc");
    assert_eq!(p.audio_path, "music.wav");
}

#[test]
fn empty_audio_path_stays_empty() {
    let p = read_project_paths(r#"{"chart_path":"c.spc","audio_path":""}"#).unwrap();
    assert_eq!(p.chart_path, "c.spc");
    assert_eq!(p.audio_path, "");
}

#[test]
fn project_file_errors() {
    assert_eq!(err("not json"), ProjectFileError::InvalidJson);
    assert_eq!(err(""), ProjectFileError::InvalidJson);
    assert_eq!(err("{}"), ProjectFileError::MissingChartPath);
    assert_eq!(err("[1,2]"), ProjectFileError::MissingChartPath);
    assert_eq!(err(r#"{"chart_path": 3, "audio_path": ""}"#), ProjectFileError::MissingChartPath);
    assert_eq!(err(r#"{"chart_path": "", "audio_path": "a"}"#), ProjectFileError::EmptyChartPath);
    assert_eq!(err(r#"{"chart_path": "c"}"#), ProjectFileError::MissingAudioPath);
    assert_eq!(err(r#"{"chart_path": "c", "audio_path": null}"#), ProjectFileError::MissingAudioPath);
}

fn parts(v: &[&str]) -> Vec<String> {
    v.iter().map(|s| s.to_string()).collect()
}

#[test]
fn assets_inside_the_project_are_relative() {
    let dir = parts(&["/", "home", "me", "proj"]);
    assert_eq!(
        relative_asset_path(&dir, &parts(&["/", "home", "me", "proj", "assets", "chart.spc"])),
        parts(&["assets", "chart.spc"])
    );
    assert_eq!(relative_asset_path(&dir, &parts(&["/", "home", "me", "proj"])), parts(&[]));
}

#[test]
fn assets_elsewhere_stay_absolute() {
    let dir = parts(&["/", "home", "me", "proj", "assets"]);
    let music = parts(&["/", "home", "me", "proj", "music.wav"]);
    assert_eq!(relative_asset_path(&dir, &music), music);
    let other = parts(&["/", "home", "me", "projx", "a"]);
    assert_eq!(relative_asset_path(&parts(&["/", "home", "me", "proj"]), &other), other);
}
