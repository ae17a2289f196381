use diskzap::targets::{catalog, home_path, version_group, Kind, Tier};

#[test]
fn groups_versioned_names_by_product() {
    assert_eq!(version_group("chromium-1187"), "chromium");
    assert_eq!(
        version_group("chromium_headless_shell-1228"),
        "chromium_headless_shell"
    );
    assert_eq!(version_group("mac_arm-121.0.6167.85"), "mac_arm");
    assert_eq!(version_group("firefox-1490"), "firefox");
}

#[test]
fn undashed_name_is_its_own_group() {
    // An unrecognised layout must not collapse into one group and lose files.
    assert_eq!(version_group("chrome"), "chrome");
    assert_eq!(version_group(""), "");
}

#[test]
fn target_dir_requires_a_build_manifest() {
    let cat = catalog();
    let t = cat.iter().find(|t| t.id == "cargo-target").unwrap();
    match t.kind {
        Kind::NamedDirUnder {
            requires_sibling, ..
        } => assert!(
            requires_sibling.contains(&"Cargo.toml"),
            "target/ must be manifest-gated or it eats plain data dirs"
        ),
        _ => panic!("cargo-target should be NamedDirUnder"),
    }
}

#[test]
fn vm_disks_are_reported_but_not_default_deletable() {
    assert!(Tier::VmDisk.always_reported());
    assert!(!Tier::VmDisk.default_on());
    assert!(Tier::PackageCache.default_on());
    assert!(!Tier::OsCache.default_on());
}

#[test]
fn bun_never_targets_bun_home_itself() {
    // Same trap as pnpm: ~/.bun holds the bun binary and global installs,
    // so only the install cache underneath it is reclaimable.
    let cat = catalog();
    let t = cat.iter().find(|t| t.id == "bun").unwrap();
    match t.kind {
        Kind::HomeDirs(paths) => {
            for p in paths {
                assert!(
                    p.ends_with("install/cache"),
                    "~/.bun holds the bun binary and global installs; only the install cache is reclaimable, got {p}"
                );
            }
        }
        _ => panic!("bun should be HomeDirs"),
    }
}

#[test]
fn pnpm_never_targets_pnpm_home_itself() {
    let cat = catalog();
    let t = cat.iter().find(|t| t.id == "pnpm").unwrap();
    match t.kind {
        Kind::HomeDirs(paths) => {
            for p in paths {
                assert!(
                    p.ends_with("store"),
                    "PNPM_HOME holds the pnpm binary and global installs; only the store is a cache"
                );
            }
        }
        _ => panic!("pnpm should be HomeDirs"),
    }
}

#[test]
fn tier_names_are_the_report_strings() {
    assert_eq!(Tier::PackageCache.as_str(), "package-cache");
    assert_eq!(Tier::BuildArtifact.as_str(), "build-artifact");
    assert_eq!(Tier::Docker.as_str(), "docker");
    assert_eq!(Tier::OsCache.as_str(), "os-cache");
    assert_eq!(Tier::VmDisk.as_str(), "vm-disk");
}

#[test]
fn tier_defaults_and_reporting() {
    assert!(Tier::BuildArtifact.default_on());
    assert!(Tier::Docker.default_on());
    assert!(!Tier::PackageCache.always_reported());
    assert!(!Tier::OsCache.always_reported());
}

#[test]
fn home_path_joins_like_pathbuf_push() {
    assert_eq!(home_path("/home/a", ".cache/uv"), "/home/a/.cache/uv");
    assert_eq!(home_path("/home/a/", ".cache/uv"), "/home/a/.cache/uv");
    assert_eq!(home_path("", ".cache/uv"), ".cache/uv");
    assert_eq!(home_path("/home/a", "/etc"), "/etc");
    for (h, s) in [("/home/a", ".cache/uv"), ("/home/a/", "x"), ("/h", "/abs"), ("", "y"), ("/", "z")] {
        let mut p = std::path::PathBuf::from(h);
        p.push(s);
        assert_eq!(home_path(h, s), p.display().to_string());
    }
}

#[test]
fn version_group_uses_the_last_dash() {
    assert_eq!(version_group("a-b-c"), "a-b");
    assert_eq!(version_group("-1"), "");
    assert_eq!(version_group("x-"), "x");
}

#[test]
fn catalog_has_every_entry_once() {
    let cat = catalog();
    assert_eq!(cat.len(), 31);
    for (i, a) in cat.iter().enumerate() {
        for b in cat.iter().skip(i + 1) {
            assert_ne!(a.id, b.id);
        }
    }
}

#[test]
fn home_locations_are_relative_and_stay_in_home() {
    for t in catalog() {
        let subs: &[&str] = match t.kind {
            Kind::HomeDirs(p) => p,
            Kind::VersionedDirs { subpaths, .. } => subpaths,
            _ => &[],
        };
        for s in subs {
            assert!(!s.starts_with('/'), "{} has an absolute location {s}", t.id);
            let p = home_path("/home/a", s);
            assert!(std::path::Path::new(&p).starts_with("/home/a"), "{p}");
        }
    }
}

#[test]
fn versioned_dirs_keep_at_least_one() {
    for t in catalog() {
        if let Kind::VersionedDirs { keep, .. } = t.kind {
            assert!(keep >= 1, "{}", t.id);
        }
    }
}

#[test]
fn maven_never_targets_the_m2_directory_itself() {
    // ~/.m2 also holds settings.xml with repository credentials: only the
    // local repository underneath it is a cache.
    let cat = catalog();
    let t = cat.iter().find(|t| t.id == "maven").unwrap();
    assert_eq!(t.tier, Tier::PackageCache);
    assert!(t.tier.default_on());
    match t.kind {
        Kind::HomeDirs(paths) => assert_eq!(paths, &[".m2/repository"]),
        _ => panic!("maven should be HomeDirs"),
    }
}

#[test]
fn derived_data_is_build_output_at_a_fixed_path() {
    let cat = catalog();
    let t = cat.iter().find(|t| t.id == "xcode-derived-data").unwrap();
    assert_eq!(t.tier, Tier::BuildArtifact);
    assert!(t.tier.default_on());
    match t.kind {
        Kind::HomeDirs(paths) => assert_eq!(paths, &["Library/Developer/Xcode/DerivedData"]),
        _ => panic!("DerivedData is found at one known path, without walking"),
    }
    assert!(t.regenerates.contains("a cold build, not a download"));
}
