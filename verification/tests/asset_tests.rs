use food_inspections::assets::{Asset, AssetPipeline, FileForStep, ManifestFile};

fn strings(v: &[&str]) -> Vec<String> {
    v.iter().map(|s| s.to_string()).collect()
}

fn entry(path: &str, commands: &[&str], watch: &[&str]) -> ManifestFile {
    ManifestFile { path: path.to_string(), commands: strings(commands), watch: strings(watch) }
}

fn pipeline() -> AssetPipeline {
    AssetPipeline::new(vec![
        entry("app.js", &["frontend", "build.sh"], &["frontend/src/*.js"]),
        entry("app.css", &["styles", "sass"], &["styles/*.scss"]),
    ])
}

#[test]
fn new_asset_is_not_built() {
    let a = Asset::new("app.js".to_string(), strings(&["src/*.js"]), strings(&["web", "make"]));
    assert_eq!(a.path(), "app.js");
    assert_eq!(a.watchers(), &strings(&["src/*.js"]));
    assert_eq!(a.commands(), &strings(&["web", "make"]));
    assert_eq!(a.last_modified(), None);
}

#[test]
fn first_request_builds() {
    let p = pipeline();
    match p.file_for("app.js") {
        FileForStep::Build { commands } => assert_eq!(commands, strings(&["frontend", "build.sh"])),
        _ => panic!("an asset never built is built"),
    }
}

#[test]
fn unknown_paths_are_not_registered() {
    let p = pipeline();
    assert!(matches!(p.file_for("missing.js"), FileForStep::NotRegistered));
    assert!(matches!(AssetPipeline::new(Vec::new()).file_for("app.js"), FileForStep::NotRegistered));
}

#[test]
fn built_assets_check_their_watchers() {
    let mut p = pipeline();
    p.record_first_build("app.js", 1_000);
    match p.file_for("app.js") {
        FileForStep::CheckWatchers { watchers, commands, last_modified } => {
            assert_eq!(watchers, strings(&["frontend/src/*.js"]));
            assert_eq!(commands, strings(&["frontend", "build.sh"]));
            assert_eq!(last_modified, 1_000);
        }
        _ => panic!("a built asset checks its watchers"),
    }
    assert!(matches!(p.file_for("app.css"), FileForStep::Build { .. }));
    p.record_first_build("missing.js", 5);
    assert!(matches!(p.file_for("missing.js"), FileForStep::NotRegistered));
}

#[test]
fn registering_again_replaces_and_resets() {
    let mut p = pipeline();
    p.record_first_build("app.js", 1_000);
    let r = p.register_file(Asset::new("app.js".to_string(), strings(&["x/*"]), strings(&["x", "y"])));
    assert_eq!(r, None);
    match p.file_for("app.js") {
        FileForStep::Build { commands } => assert_eq!(commands, strings(&["x", "y"])),
        _ => panic!("a replaced asset is built again"),
    }
}

#[test]
fn later_manifest_entries_win() {
    let p = AssetPipeline::new(vec![
        entry("a", &["d1", "p1"], &[]),
        entry("a", &["d2", "p2"], &[]),
    ]);
    match p.file_for("a") {
        FileForStep::Build { commands } => assert_eq!(commands, strings(&["d2", "p2"])),
        _ => panic!("registered"),
    }
}

#[test]
fn rebuild_only_when_a_file_is_newer() {
    assert!(AssetPipeline::needs_rebuild(10, Some(11)));
    assert!(!AssetPipeline::needs_rebuild(10, Some(10)));
    assert!(!AssetPipeline::needs_rebuild(10, Some(-3)));
    assert!(!AssetPipeline::needs_rebuild(10, None));
}

#[test]
fn newest_of_the_watched_files() {
    assert_eq!(AssetPipeline::last_modified_file(&vec![]), None);
    assert_eq!(AssetPipeline::last_modified_file(&vec![5, -2, 9, 9, 1]), Some(9));
    assert_eq!(AssetPipeline::last_modified_file(&vec![-7]), Some(-7));
}

#[test]
fn rebuilt_at_newest_settles() {
    let times = vec![3, 8, 6];
    let newest = AssetPipeline::last_modified_file(&times);
    assert!(AssetPipeline::needs_rebuild(7, newest));
    let mut p = pipeline();
    p.record_first_build("app.css", 7);
    assert_eq!(p.record_scan("app.css", newest), Some(strings(&["styles", "sass"])));
    match p.file_for("app.css") {
        FileForStep::CheckWatchers { last_modified, .. } => {
            assert_eq!(last_modified, 8);
            assert_eq!(p.record_scan("app.css", AssetPipeline::last_modified_file(&times)), None);
            assert!(!AssetPipeline::needs_rebuild(last_modified, AssetPipeline::last_modified_file(&times)));
        }
        _ => panic!("built"),
    }
}

#[test]
fn recorded_times_never_go_back() {
    let mut p = pipeline();
    p.record_first_build("app.js", 100);
    p.record_first_build("app.js", 50);
    assert!(matches!(p.file_for("app.js"), FileForStep::CheckWatchers { last_modified: 100, .. }));
    assert_eq!(p.record_scan("app.js", Some(90)), None);
    assert_eq!(p.record_scan("app.js", None), None);
    assert!(matches!(p.file_for("app.js"), FileForStep::CheckWatchers { last_modified: 100, .. }));
    assert_eq!(p.record_scan("app.js", Some(120)), Some(strings(&["frontend", "build.sh"])));
    assert!(matches!(p.file_for("app.js"), FileForStep::CheckWatchers { last_modified: 120, .. }));
    assert_eq!(p.record_scan("app.css", Some(500)), None);
    assert!(matches!(p.file_for("app.css"), FileForStep::Build { .. }));
    assert_eq!(p.record_scan("missing.js", Some(500)), None);
}
