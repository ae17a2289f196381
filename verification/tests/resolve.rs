use diskzap::config::{parse_args, ArgsOutcome, Config};
use diskzap::resolve::{
    home_dir_candidates, is_named_dir, lookups, stale_versions, version_candidates, walk_action,
    walk_candidates, Lookup, VersionDir, WalkStep,
};
use diskzap::targets::{catalog, Target};

fn config(a: &[&str]) -> Config {
    let v: Vec<String> = a.iter().map(|s| s.to_string()).collect();
    match parse_args(&v) {
        ArgsOutcome::Run(c) => c,
        _ => panic!("bad test arguments"),
    }
}

fn target(id: &str) -> (usize, Target) {
    catalog().into_iter().enumerate().find(|(_, t)| t.id == id).unwrap()
}

fn names(a: &[&str]) -> Vec<String> {
    a.iter().map(|s| s.to_string()).collect()
}

#[test]
fn home_dirs_resolve_every_location() {
    let c = home_dir_candidates(4, "/home/a", &[".cache/uv", "Library/Caches/uv"]);
    assert_eq!(c.len(), 2);
    assert_eq!(c[0].path, "/home/a/.cache/uv");
    assert_eq!(c[1].path, "/home/a/Library/Caches/uv");
    assert_eq!(c[1].root, c[1].path);
    assert_eq!(c[0].target_idx, 4);
}

#[test]
fn target_dir_needs_a_build_manifest() {
    let req = ["Cargo.toml", "pom.xml", "build.gradle", "build.gradle.kts"];
    assert!(!is_named_dir("target", "target", &req, &names(&["target", "data.csv"])));
    assert!(is_named_dir("target", "target", &req, &names(&["target", "Cargo.toml"])));
    assert!(is_named_dir("target", "target", &req, &names(&["pom.xml", "target"])));
    assert!(!is_named_dir("targets", "target", &req, &names(&["Cargo.toml"])));
    assert!(is_named_dir("node_modules", "node_modules", &[], &names(&[])));
}

fn dir(name: &str, modified: u64) -> VersionDir {
    VersionDir {
        name: name.to_string(),
        modified,
    }
}

#[test]
fn keeps_newest_version_per_product() {
    let children = vec![
        dir("chromium-1100", 10),
        dir("firefox-1500", 40),
        dir("chromium-1200", 20),
        dir("firefox-1400", 30),
    ];
    assert_eq!(stale_versions(&children, 1), vec![0, 3]);
    assert_eq!(stale_versions(&children, 2), Vec::<usize>::new());
    assert_eq!(stale_versions(&children, 0), vec![0, 1, 2, 3]);
}

#[test]
fn undashed_names_are_their_own_product() {
    let children = vec![dir("chrome", 1), dir("firefox", 2), dir("linux-1", 3), dir("linux-2", 4)];
    assert_eq!(stale_versions(&children, 1), vec![2]);
}

#[test]
fn equal_times_keep_the_first_listed() {
    let children = vec![dir("x-1", 5), dir("x-2", 5), dir("x-3", 5)];
    assert_eq!(stale_versions(&children, 1), vec![1, 2]);
}

#[test]
fn build_artifacts_only_scanned_with_root() {
    let (idx, nm) = target("node_modules");
    assert!(lookups(&config(&[]), "/h", idx, &nm).is_empty());
    let found = lookups(&config(&["--root", "/h/code", "--root", "/w"]), "/h", idx, &nm);
    assert_eq!(found.len(), 2);
    match &found[1] {
        Lookup::Walk { target_idx, root, name, requires_sibling } => {
            assert_eq!(*target_idx, idx);
            assert_eq!(root, "/w");
            assert_eq!(*name, "node_modules");
            assert!(requires_sibling.is_empty());
        }
        _ => panic!("a named directory is found by walking"),
    }
}

#[test]
fn lookups_by_kind() {
    let plain = config(&[]);
    let (idx, pnpm) = target("pnpm");
    match &lookups(&plain, "/h", idx, &pnpm)[..] {
        [Lookup::Fixed(c)] => {
            let paths: Vec<&str> = c.iter().map(|c| c.path.as_str()).collect();
            assert_eq!(paths, vec!["/h/.local/share/pnpm/store", "/h/Library/pnpm/store"]);
        }
        _ => panic!("pnpm is a fixed location"),
    }
    let (idx, pw) = target("playwright");
    match &lookups(&plain, "/h", idx, &pw)[..] {
        [Lookup::Versions { dir: a, keep: 1, .. }, Lookup::Versions { dir: b, .. }] => {
            assert_eq!(a, "/h/Library/Caches/ms-playwright");
            assert_eq!(b, "/h/.cache/ms-playwright");
        }
        _ => panic!("playwright is a versioned directory"),
    }
    let (idx, docker) = target("docker");
    assert!(lookups(&plain, "/h", idx, &docker).is_empty());
    let (idx, spotify) = target("spotify-cache");
    assert!(lookups(&plain, "/h", idx, &spotify).is_empty());
    assert_eq!(lookups(&config(&["--include-os-caches"]), "/h", idx, &spotify).len(), 1);
    let (idx, vm) = target("docker-desktop-disk");
    assert_eq!(lookups(&plain, "/h", idx, &vm).len(), 1);
    assert!(lookups(&config(&["--only-roots"]), "/h", idx, &vm).is_empty());
}

#[test]
fn stale_installs_become_candidates_inside_their_directory() {
    let children = vec![dir("chromium-1100", 10), dir("chromium-1200", 20)];
    let c = version_candidates(7, "/h/pw", &children, 1);
    assert_eq!(c.len(), 1);
    assert_eq!(c[0].path, "/h/pw/chromium-1100");
    assert_eq!(c[0].root, "/h/pw");
    assert_eq!(c[0].target_idx, 7);
}

#[test]
fn walked_paths_stay_with_their_root() {
    let c = walk_candidates(2, "/h/code", &names(&["/h/code/a/node_modules"]));
    assert_eq!(c.len(), 1);
    assert_eq!(c[0].path, "/h/code/a/node_modules");
    assert_eq!(c[0].root, "/h/code");
}

#[test]
fn the_walk_prunes_at_a_match_and_descends_otherwise() {
    let manifests: &[&str] = &["Cargo.toml", "pom.xml"];
    let with = names(&["Cargo.toml", "target", "src"]);
    let without = names(&["target", "source"]);
    // A proven build directory is collected and not walked into.
    assert_eq!(walk_action(true, "target", "target", manifests, &with), WalkStep::Collect);
    // Without its manifest it is a data directory: walk into it instead.
    assert_eq!(walk_action(true, "target", "target", manifests, &without), WalkStep::Descend);
    // Any other directory is walked; a plain file or a symlink is ignored.
    assert_eq!(walk_action(true, "src", "target", manifests, &with), WalkStep::Descend);
    assert_eq!(walk_action(false, "target", "target", manifests, &with), WalkStep::Skip);
    assert_eq!(walk_action(true, "node_modules", "node_modules", &[], &names(&["node_modules"])), WalkStep::Collect);
}
