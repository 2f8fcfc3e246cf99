use game_case::staging::{
    organize_paths, AppConfig, AppState, BuildState, BuildStep, PathEntry, PathKind,
};

fn entry(name: &str, path: &str, kind: PathKind) -> PathEntry {
    PathEntry { name: name.to_string(), path: path.to_string(), kind }
}

#[test]
fn organize_paths_splits_files_from_directories_in_order() {
    let input = vec![
        entry("b.rom", "/r/b.rom", PathKind::File),
        entry("saves", "/r/saves", PathKind::Directory),
        entry("a.rom", "/r/a.rom", PathKind::File),
        entry("pipe", "/r/pipe", PathKind::Other),
    ];
    let (files, dirs) = organize_paths(&input);
    assert_eq!(files.len(), 2);
    assert_eq!(dirs.len(), 1);
    assert_eq!(files[0].0, "b.rom/");
    assert_eq!(files[0].1, "/r/b.rom");
    assert_eq!(files[1].0, "a.rom/");
    assert_eq!(dirs[0].0, "saves/");
    assert_eq!(dirs[0].1, "/r/saves");
}

#[test]
fn organize_paths_of_nothing_is_nothing() {
    let (files, dirs) = organize_paths(&Vec::new());
    assert!(files.is_empty());
    assert!(dirs.is_empty());
}

#[test]
fn config_defaults_to_united_states_and_home() {
    let cfg = AppConfig::default();
    assert_eq!(cfg.region, "United States");
    assert_eq!(cfg.default_browse_directory, "~");
    let copy = cfg.clone();
    assert_eq!(copy.region, cfg.region);
}

#[test]
fn build_flow_stages_files_per_step_and_advances() {
    let mut state = BuildState::default();
    assert_eq!(state.current_step, BuildStep::RomSelection);
    state.stage_file("/games/one.rom".to_string());
    state.stage_file("/games/two.rom".to_string());
    assert_eq!(state.staged_roms, vec!["/games/one.rom", "/games/two.rom"]);
    assert!(state.staged_manuals.is_empty());
    state.advance_step();
    assert_eq!(state.current_step, BuildStep::ManualSelection);
    state.stage_file("/games/one.pdf".to_string());
    assert_eq!(state.staged_manuals, vec!["/games/one.pdf"]);
    assert_eq!(state.staged_roms.len(), 2);
    // the last screen repeats
    state.advance_step();
    assert_eq!(state.current_step, BuildStep::ManualSelection);
}

#[test]
fn app_state_default_combines_both() {
    let st = AppState::default();
    assert_eq!(st.config.region, "United States");
    assert_eq!(st.build_state.current_step, BuildStep::RomSelection);
    assert!(st.build_state.staged_roms.is_empty());
}
