use flac2mp3::RunError;
use flac2mp3::album::Album;
use flac2mp3::convert::{collect_album_tasks, flatten_tasks, plan_run, transcoder_args, transcoder_program, Task};
use flac2mp3::paths::{file_name_of, is_lossless_file, is_lossy_file, join_path, parent_of, strip_prefix_of, with_extension_str};
use flac2mp3::tally::{tally_outcomes, Tally};

fn album(path: &str, files: &[&str]) -> Album {
    Album::new(path.to_string(), files.iter().map(|f| f.to_string()).collect())
}

// --- path model ---

#[test]
fn file_name_basic() {
    assert_eq!(file_name_of("music/a.flac").as_deref(), Some("a.flac"));
    assert_eq!(file_name_of("a.flac").as_deref(), Some("a.flac"));
    assert_eq!(file_name_of("music/"), None);
}

#[test]
fn parent_basic() {
    assert_eq!(parent_of("music/sub/a.flac").as_deref(), Some("music/sub"));
    assert_eq!(parent_of("a.flac"), None);
}

#[test]
fn extension_detection() {
    assert!(is_lossless_file("m/a.flac"));
    assert!(is_lossless_file("m/a.FLAC"));
    assert!(is_lossless_file("m/a.FlAc"));
    assert!(!is_lossless_file("m/a.mp3"));
    assert!(!is_lossless_file("m/aflac"));
    // a dot-leading file name has no extension
    assert!(!is_lossless_file("m/.flac"));
    assert!(is_lossless_file("m/a.tar.flac"));
    assert!(is_lossy_file("m/a.MP3"));
    assert!(!is_lossy_file("m/a.ogg"));
}

#[test]
fn join_and_strip() {
    assert_eq!(join_path("out", "album"), "out/album");
    assert_eq!(join_path("out", ""), "out");
    assert_eq!(strip_prefix_of("in/album", "in").as_deref(), Some("album"));
    assert_eq!(strip_prefix_of("in", "in").as_deref(), Some(""));
    assert_eq!(strip_prefix_of("inx/album", "in"), None);
    assert_eq!(strip_prefix_of("elsewhere/album", "in"), None);
}

#[test]
fn with_extension_replaces() {
    assert_eq!(with_extension_str("x.flac", "mp3"), "x.mp3");
    assert_eq!(with_extension_str("x.tar.flac", "mp3"), "x.tar.mp3");
    assert_eq!(with_extension_str("x", "mp3"), "x.mp3");
    assert_eq!(with_extension_str(".hidden", "mp3"), ".hidden.mp3");
}

// --- validation (single-format albums valid, mixed invalid) ---

#[test]
fn validate_single_format_albums() {
    assert!(album("m/a", &["m/a/1.flac", "m/a/2.flac"]).validate());
    assert!(album("m/b", &["m/b/1.mp3", "m/b/2.mp3"]).validate());
    assert!(album("m/c", &[]).validate());
    // other file types never invalidate an album
    assert!(album("m/d", &["m/d/1.flac", "m/d/cover.jpg"]).validate());
}

#[test]
fn validate_mixed_albums_any_casing() {
    assert!(!album("m/a", &["m/a/1.flac", "m/a/2.mp3"]).validate());
    assert!(!album("m/b", &["m/b/1.FLAC", "m/b/2.mp3"]).validate());
    assert!(!album("m/c", &["m/c/1.Flac", "m/c/2.MP3"]).validate());
    assert!(!album("m/d", &["m/d/x.jpg", "m/d/1.mp3", "m/d/2.flac"]).validate());
}

// --- grouping ---

#[test]
fn group_partitions_by_parent() {
    let files: Vec<String> = [
        "r/a/1.flac",
        "r/a/2.flac",
        "r/b/3.mp3",
        "r/b/sub.d/4.mp3",
    ]
    .iter()
    .map(|f| f.to_string())
    .collect();
    let albums = Album::group_by_parent(&files);
    assert_eq!(albums.len(), 3);
    // every file appears in exactly one album, and in the album of its parent
    for f in &files {
        let holders: Vec<&Album> = albums.iter().filter(|a| a.files.contains(f)).collect();
        assert_eq!(holders.len(), 1);
        assert_eq!(parent_of(f).as_deref(), Some(holders[0].path.as_str()));
    }
    // no two albums share a path
    for i in 0..albums.len() {
        for j in (i + 1)..albums.len() {
            assert_ne!(albums[i].path, albums[j].path);
        }
    }
    let a = albums.iter().find(|a| a.path == "r/a").expect("album r/a");
    assert_eq!(a.files.len(), 2);
    let b = albums.iter().find(|a| a.path == "r/b").expect("album r/b");
    assert_eq!(b.files.len(), 1);
}

#[test]
fn group_drops_files_without_parent() {
    let files = vec!["orphan.flac".to_string()];
    let albums = Album::group_by_parent(&files);
    assert_eq!(albums.len(), 0);
}

#[test]
fn group_of_empty_input_is_empty() {
    let albums = Album::group_by_parent(&Vec::new());
    assert_eq!(albums.len(), 0);
}

// --- planning ---

#[test]
fn plan_album_tasks_and_outputs() {
    let a = album(
        "in/AlbumX",
        &["in/AlbumX/one.FLAC", "in/AlbumX/two.flac", "in/AlbumX/cover.jpg"],
    );
    let plan = collect_album_tasks(&a, "in", "out", 2).expect("plan");
    assert_eq!(plan.output_dir, "out/AlbumX");
    assert_eq!(plan.tasks.len(), 3);
    match &plan.tasks[0] {
        Task::Convert { input, output, quality } => {
            assert_eq!(input.as_str(), "in/AlbumX/one.FLAC");
            // the output extension is the lossy one whatever the input casing
            assert_eq!(output.as_str(), "out/AlbumX/one.mp3");
            assert_eq!(*quality, 2);
        }
        _ => panic!("expected a conversion"),
    }
    match &plan.tasks[1] {
        Task::Convert { output, .. } => assert_eq!(output.as_str(), "out/AlbumX/two.mp3"),
        _ => panic!("expected a conversion"),
    }
    match &plan.tasks[2] {
        Task::Copy { input, output } => {
            assert_eq!(input.as_str(), "in/AlbumX/cover.jpg");
            assert_eq!(output.as_str(), "out/AlbumX/cover.jpg");
        }
        _ => panic!("expected a copy"),
    }
}

#[test]
fn plan_album_at_root_itself() {
    let a = album("in", &["in/solo.flac"]);
    let plan = collect_album_tasks(&a, "in", "out", 0).expect("plan");
    assert_eq!(plan.output_dir, "out");
    match &plan.tasks[0] {
        Task::Convert { output, .. } => assert_eq!(output.as_str(), "out/solo.mp3"),
        _ => panic!("expected a conversion"),
    }
}

#[test]
fn plan_fails_outside_root() {
    let a = album("elsewhere/X", &["elsewhere/X/a.flac"]);
    let r = collect_album_tasks(&a, "in", "out", 0);
    assert_eq!(r.unwrap_err(), RunError::PathError);
}

#[test]
fn plan_fails_on_empty_file_name() {
    let a = album("in/X", &["in/X/"]);
    let r = collect_album_tasks(&a, "in", "out", 0);
    assert_eq!(r.unwrap_err(), RunError::PathError);
}

// --- transcoder invocation contract ---

#[test]
fn transcoder_invocation_contract() {
    assert_eq!(transcoder_program(), "ffmpeg");
    let args = transcoder_args("in/a.flac", "out/a.mp3", 3);
    let expected = [
        "-i",
        "in/a.flac",
        "-codec:a",
        "libmp3lame",
        "-q:a",
        "3",
        "-map_metadata",
        "0",
        "-y",
        "out/a.mp3",
        "-hide_banner",
        "-loglevel",
        "error",
    ];
    assert_eq!(args.len(), expected.len());
    for (got, want) in args.iter().zip(expected.iter()) {
        assert_eq!(got.as_str(), *want);
    }
}

#[test]
fn invocation_args_per_task() {
    let convert = Task::Convert {
        input: "in/a.flac".to_string(),
        output: "out/a.mp3".to_string(),
        quality: 0,
    };
    let args = convert.invocation_args().expect("arguments");
    assert_eq!(args.len(), 13);
    assert_eq!(args[5].as_str(), "0");
    let copy = Task::Copy { input: "in/c.jpg".to_string(), output: "out/c.jpg".to_string() };
    assert!(copy.invocation_args().is_none());
}

// --- tallying ---

#[test]
fn tally_counts_all_outcomes() {
    let t = tally_outcomes(&vec![true, false, true], 0);
    assert_eq!(t.succeeded, 2);
    assert_eq!(t.failed, 1);
    let empty = tally_outcomes(&Vec::new(), 4);
    assert_eq!(empty.succeeded, 0);
    assert_eq!(empty.failed, 0);
    assert_eq!(empty.skipped, 4);
}

#[test]
fn tally_increments_and_snapshot() {
    let mut t = Tally::new();
    t.record_success();
    t.record_success();
    t.record_failure();
    t.record_skip();
    assert_eq!(t.snapshot(), (2, 1, 1));
}

// --- whole-run scenarios ---

#[test]
fn scenario_mixed_album_is_skipped_others_planned() {
    // album X: two lossless; album Y: mixed; album Z: three lossy
    let files: Vec<String> = [
        "in/X/1.flac",
        "in/X/2.flac",
        "in/Y/1.flac",
        "in/Y/2.mp3",
        "in/Z/1.mp3",
        "in/Z/2.mp3",
        "in/Z/3.mp3",
    ]
    .iter()
    .map(|f| f.to_string())
    .collect();
    let albums = Album::group_by_parent(&files);
    assert_eq!(albums.len(), 3);
    let run = plan_run(&albums, "in", "out", 0);
    assert_eq!(run.skipped.len(), 1);
    assert_eq!(run.skipped[0].as_str(), "in/Y");
    assert_eq!(run.failed.len(), 0);
    assert_eq!(run.plans.len(), 2);
    let tasks = flatten_tasks(run.plans);
    assert_eq!(tasks.len(), 5);
    let converts = tasks.iter().filter(|t| matches!(t, Task::Convert { .. })).count();
    let copies = tasks.iter().filter(|t| matches!(t, Task::Copy { .. })).count();
    assert_eq!(converts, 2);
    assert_eq!(copies, 3);
    // all five tasks succeed: the final tally reports 5/0/1
    let outcomes = vec![true; tasks.len()];
    let t = tally_outcomes(&outcomes, run.skipped.len());
    assert_eq!(t.snapshot(), (5, 0, 1));
}

#[test]
fn scenario_one_failing_task_still_counts_the_rest() {
    // one conversion fails; every other task still executes and is counted
    let outcomes = vec![true, true, false, true, true];
    let t = tally_outcomes(&outcomes, 0);
    assert_eq!(t.succeeded, 4);
    assert_eq!(t.failed, 1);
    assert_eq!(t.succeeded + t.failed, outcomes.len());
}
