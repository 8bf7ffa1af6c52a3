use mp3_normalizer::albums::AlbumGroups;
use mp3_normalizer::args::{parse_args, ALBUM_BIT, ALBUM_DIR_BIT, HELP_BIT, HIBERNATE_BIT,
    REMOVE_BIT, SET_ALBUM_BIT, SET_TRACK_BIT, SHOW_BIT, SHUTDOWN_BIT, SLEEP_BIT};
use mp3_normalizer::plan::{album_key, copy_step, plan_run, CopyStep, Mode, PlanError};
use mp3_normalizer::task::{PathSet, PowerAction, Task};

fn task_with_actions(actions: i32) -> Task {
    Task {
        loudness: None,
        paths: Vec::new(),
        dest: "$$$".to_string(),
        num_th: 1,
        actions,
        rg_set: None,
    }
}

#[test]
fn finish_plans_power_actions_in_order() {
    let plan = task_with_actions(SHOW_BIT | SLEEP_BIT | SHUTDOWN_BIT).finish();
    assert!(plan.open_output);
    assert_eq!(plan.power, vec![PowerAction::Shutdown, PowerAction::Sleep]);
    let plan = task_with_actions(HIBERNATE_BIT).finish();
    assert!(!plan.open_output);
    assert_eq!(plan.power, vec![PowerAction::Hibernate]);
    assert_eq!(PowerAction::Hibernate.number(), 2);
    let plan = task_with_actions(0).finish();
    assert!(!plan.open_output && plan.power.is_empty());
}

#[test]
fn path_set_keeps_first_occurrence_once() {
    let mut set = PathSet::new();
    assert!(set.insert("/a.mp3".to_string()));
    assert!(set.insert("/b.mp3".to_string()));
    assert!(!set.insert("/a.mp3".to_string()));
    assert!(set.contains(&"/b.mp3".to_string()));
    assert!(!set.contains(&"/c.mp3".to_string()));
    assert_eq!(set.into_vec(), vec!["/a.mp3", "/b.mp3"]);
}

#[test]
fn task_from_settings_carries_everything() {
    let scan = parse_args(&vec!["p".to_string(), "-o".to_string(), "out".to_string(), "-a".to_string()]);
    let mut paths = PathSet::new();
    paths.insert("/x.mp3".to_string());
    let task = Task::from_settings(scan.settings, paths);
    assert_eq!(task.dest, "out");
    assert_eq!(task.actions, ALBUM_BIT);
    assert_eq!(task.paths, vec!["/x.mp3"]);
    assert_eq!(task.num_th, 1);
}

#[test]
fn plan_rejects_conflicting_options() {
    assert_eq!(plan_run(SET_TRACK_BIT | SET_ALBUM_BIT, "$$$"), Err(PlanError::BothGainSettings));
    assert_eq!(plan_run(REMOVE_BIT | SET_ALBUM_BIT, "$$$"), Err(PlanError::RemoveWithSet));
    assert_eq!(plan_run(ALBUM_BIT | ALBUM_DIR_BIT, "$$$"), Err(PlanError::BothAlbumModes));
}

#[test]
fn plan_chooses_mode_and_copy() {
    let p = plan_run(0, "$$$").unwrap();
    assert_eq!(p.mode, Mode::TrackGain);
    assert!(!p.copy_to_output && !p.help);
    let p = plan_run(ALBUM_BIT, "out").unwrap();
    assert_eq!(p.mode, Mode::AlbumGainByTag);
    assert!(p.copy_to_output);
    assert_eq!(plan_run(ALBUM_DIR_BIT, "$$$").unwrap().mode, Mode::AlbumGainByFolder);
    assert_eq!(plan_run(REMOVE_BIT | ALBUM_BIT, "$$$").unwrap().mode, Mode::RemoveTags);
    assert_eq!(plan_run(SET_TRACK_BIT, "$$$").unwrap().mode, Mode::SetTrackGain);
    assert_eq!(plan_run(SET_ALBUM_BIT | ALBUM_BIT, "$$$").unwrap().mode, Mode::SetAlbumGain);
    assert!(plan_run(HELP_BIT, "$$$").unwrap().help);
}

#[test]
fn album_keys_and_copy_steps() {
    assert_eq!(album_key(false, Some("Abbey Road".to_string())), "Abbey Road");
    assert_eq!(album_key(false, None), "__None__");
    assert_eq!(album_key(true, Some("Abbey Road".to_string())), "");
    assert_eq!(copy_step(None), CopyStep::Copy);
    assert_eq!(copy_step(Some(true)), CopyStep::SkipExistingFile);
    assert_eq!(copy_step(Some(false)), CopyStep::SkipOther);
}

#[test]
fn album_groups_collect_files_per_album() {
    let mut groups = AlbumGroups::new();
    groups.add("A".to_string(), "/1.mp3".to_string());
    groups.add("B".to_string(), "/2.mp3".to_string());
    groups.add("A".to_string(), "/3.mp3".to_string());
    let albums = groups.into_albums();
    assert_eq!(albums, vec![vec!["/1.mp3", "/3.mp3"], vec!["/2.mp3"]]);
}
