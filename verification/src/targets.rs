//! The catalog of what diskzap is willing to touch.
//!
//! This module is the trust boundary. Everything diskzap deletes must be
//! declared here with an explicit regeneration story, so a reader can audit
//! exactly what the tool will ever remove. There is no "delete an arbitrary
//! path" code path anywhere else: deletion only ever operates on paths that
//! a `Target` in this catalog resolved.
use vstd::prelude::*;

use crate::paths::{comps_prefix, components, is_rooted, lemma_relative_join_stays_inside};

verus! {

/// Risk tier controls default inclusion. We never surprise the user: only
/// fully-regenerable caches are deletable by default.
#[derive(Debug, Clone, Copy, PartialEq, Eq, Structural)]
pub enum Tier {
    /// Package-manager download caches. Deleting these only forces a re-download.
    PackageCache,
    /// Build artifacts inside project dirs. Regenerate from a build command.
    BuildArtifact,
    /// Container engine cache. Delegated to the engine's own prune command.
    Docker,
    /// OS/application caches. Some apps keep semi-durable state here, so this
    /// tier is OFF unless the user opts in with --include-os-caches.
    OsCache,
    /// Container/VM machine disk images: always sized and reported, never
    /// deleted without --include-vm-disks.
    VmDisk,
}

/// The name a tier is reported under.
pub open spec fn tier_name(t: Tier) -> Seq<char> {
    match t {
        Tier::PackageCache => "package-cache"@,
        Tier::BuildArtifact => "build-artifact"@,
        Tier::Docker => "docker"@,
        Tier::OsCache => "os-cache"@,
        Tier::VmDisk => "vm-disk"@,
    }
}

impl Tier {
    /// Deletable without an explicit opt-in flag?
    pub fn default_on(self) -> (r: bool)
        ensures
            r == !(self is OsCache || self is VmDisk),
    {
        !matches!(self, Tier::OsCache | Tier::VmDisk)
    }

    /// Sized and shown in the report even when not deletable. VM disks qualify
    /// because their size is the number the user most needs to see.
    pub fn always_reported(self) -> (r: bool)
        ensures
            r == (self is VmDisk),
    {
        matches!(self, Tier::VmDisk)
    }

    pub fn as_str(self) -> (r: &'static str)
        ensures
            r@ == tier_name(self),
    {
        match self {
            Tier::PackageCache => "package-cache",
            Tier::BuildArtifact => "build-artifact",
            Tier::Docker => "docker",
            Tier::OsCache => "os-cache",
            Tier::VmDisk => "vm-disk",
        }
    }
}

/// How a target's paths are discovered.
pub enum Kind {
    /// Fixed cache locations under $HOME, tried in order; all that exist are
    /// reported. A list rather than a single path because the same tool stores
    /// its cache somewhere else per platform (pnpm's store is under
    /// ~/.local/share on Linux but ~/Library/pnpm on macOS).
    HomeDirs(&'static [&'static str]),
    /// A directory named `name`, found by walking under each root, pruned at
    /// first match so we never descend into (e.g.) node_modules/node_modules.
    ///
    /// `requires_sibling` guards names that are only *sometimes* build output.
    /// `target/` is Cargo's build dir, but it is also an ordinary data
    /// directory name, so such a target only matches when one of these
    /// manifest files sits next to it. Empty means match on name.
    NamedDirUnder { name: &'static str, requires_sibling: &'static [&'static str] },
    /// A directory whose children are versioned installs: keep the newest
    /// `keep` of each product, reclaim the rest. Children are grouped by the
    /// text before their last `-` (see `version_group`).
    VersionedDirs { subpaths: &'static [&'static str], keep: usize },
    /// Handled by running the tool's own cleanup command. Never a raw rm.
    External {
        probe: &'static str,
        apply_args: &'static [&'static str],
        /// What the delegated command does and does not cover, surfaced verbatim.
        note: &'static str,
    },
}

pub struct Target {
    pub id: &'static str,
    pub tier: Tier,
    /// Plain-English reason it is safe to delete, surfaced to the user.
    pub regenerates: &'static str,
    pub kind: Kind,
}

/// A kind, as text values.
#[verifier::ext_equal]
pub enum KindModel {
    HomeDirs(Seq<Seq<char>>),
    NamedDirUnder { name: Seq<char>, requires_sibling: Seq<Seq<char>> },
    VersionedDirs { subpaths: Seq<Seq<char>>, keep: nat },
    External { probe: Seq<char>, apply_args: Seq<Seq<char>>, note: Seq<char> },
}

/// A target, as text values.
#[verifier::ext_equal]
pub struct TargetModel {
    pub id: Seq<char>,
    pub tier: Tier,
    pub regenerates: Seq<char>,
    pub kind: KindModel,
}

/// The texts of a list of string slices.
pub open spec fn texts(s: &[&str]) -> Seq<Seq<char>> {
    s@.map_values(|x: &str| x@)
}

impl View for Kind {
    type V = KindModel;

    open spec fn view(&self) -> KindModel {
        match *self {
            Kind::HomeDirs(p) => KindModel::HomeDirs(texts(p)),
            Kind::NamedDirUnder { name, requires_sibling } => KindModel::NamedDirUnder {
                name: name@,
                requires_sibling: texts(requires_sibling),
            },
            Kind::VersionedDirs { subpaths, keep } => KindModel::VersionedDirs {
                subpaths: texts(subpaths),
                keep: keep as nat,
            },
            Kind::External { probe, apply_args, note } => KindModel::External {
                probe: probe@,
                apply_args: texts(apply_args),
                note: note@,
            },
        }
    }
}

impl View for Target {
    type V = TargetModel;

    open spec fn view(&self) -> TargetModel {
        TargetModel { id: self.id@, tier: self.tier, regenerates: self.regenerates@, kind: self.kind@ }
    }
}

/// The catalog's entries, in order.
pub open spec fn spec_catalog() -> Seq<TargetModel> {
    seq![
        TargetModel {
            id: "uv"@,
            tier: Tier::PackageCache,
            regenerates: "re-downloaded on next `uv sync`/`uv pip install`"@,
            kind: KindModel::HomeDirs(seq![".cache/uv"@, "Library/Caches/uv"@]),
        },
        TargetModel {
            id: "pip"@,
            tier: Tier::PackageCache,
            regenerates: "re-downloaded on next `pip install`"@,
            kind: KindModel::HomeDirs(seq![".cache/pip"@, "Library/Caches/pip"@]),
        },
        TargetModel {
            id: "npm"@,
            tier: Tier::PackageCache,
            regenerates: "re-downloaded on next `npm install`"@,
            kind: KindModel::HomeDirs(seq![".npm/_cacache"@]),
        },
        TargetModel {
            id: "npx"@,
            tier: Tier::PackageCache,
            regenerates: "re-installed on next `npx <pkg>` run"@,
            kind: KindModel::HomeDirs(seq![".npm/_npx"@]),
        },
        TargetModel {
            id: "yarn"@,
            tier: Tier::PackageCache,
            regenerates: "re-downloaded on next `yarn install`"@,
            kind: KindModel::HomeDirs(seq![".cache/yarn"@, "Library/Caches/Yarn"@]),
        },
        TargetModel {
            id: "pnpm"@,
            tier: Tier::PackageCache,
            regenerates: "re-fetched into the pnpm store on next install"@,
            kind: KindModel::HomeDirs(seq![".local/share/pnpm/store"@, "Library/pnpm/store"@]),
        },
        TargetModel {
            id: "bun"@,
            tier: Tier::PackageCache,
            regenerates: "re-downloaded on next `bun install`"@,
            kind: KindModel::HomeDirs(seq![".bun/install/cache"@]),
        },
        TargetModel {
            id: "cargo-registry"@,
            tier: Tier::PackageCache,
            regenerates: "re-downloaded on next `cargo build`"@,
            kind: KindModel::HomeDirs(seq![".cargo/registry/cache"@]),
        },
        TargetModel {
            id: "go-mod"@,
            tier: Tier::PackageCache,
            regenerates: "re-downloaded on next `go build`"@,
            kind: KindModel::HomeDirs(seq!["go/pkg/mod/cache/download"@]),
        },
        TargetModel {
            id: "gradle"@,
            tier: Tier::PackageCache,
            regenerates: "re-downloaded on next Gradle build"@,
            kind: KindModel::HomeDirs(seq![".gradle/caches"@]),
        },
        TargetModel {
            id: "maven"@,
            tier: Tier::PackageCache,
            regenerates: "re-downloaded on next Maven build"@,
            kind: KindModel::HomeDirs(seq![".m2/repository"@]),
        },
        TargetModel {
            id: "huggingface"@,
            tier: Tier::PackageCache,
            regenerates: "re-downloaded from the HF hub on next use"@,
            kind: KindModel::HomeDirs(seq![".cache/huggingface"@]),
        },
        TargetModel {
            id: "puppeteer"@,
            tier: Tier::PackageCache,
            regenerates: "re-downloaded by puppeteer on next run"@,
            kind: KindModel::VersionedDirs { subpaths: seq![".cache/puppeteer/chrome"@, ".cache/puppeteer/chrome-headless-shell"@, ".cache/puppeteer/firefox"@], keep: 1 },
        },
        TargetModel {
            id: "playwright"@,
            tier: Tier::PackageCache,
            regenerates: "re-downloaded by `playwright install`"@,
            kind: KindModel::VersionedDirs { subpaths: seq!["Library/Caches/ms-playwright"@, ".cache/ms-playwright"@], keep: 1 },
        },
        TargetModel {
            id: "node_modules"@,
            tier: Tier::BuildArtifact,
            regenerates: "`npm install` / `pnpm install`"@,
            kind: KindModel::NamedDirUnder { name: "node_modules"@, requires_sibling: seq![] },
        },
        TargetModel {
            id: "venv"@,
            tier: Tier::BuildArtifact,
            regenerates: "`uv sync` / `python -m venv`"@,
            kind: KindModel::NamedDirUnder { name: ".venv"@, requires_sibling: seq![] },
        },
        TargetModel {
            id: "next"@,
            tier: Tier::BuildArtifact,
            regenerates: "`next build`"@,
            kind: KindModel::NamedDirUnder { name: ".next"@, requires_sibling: seq![] },
        },
        TargetModel {
            id: "cargo-target"@,
            tier: Tier::BuildArtifact,
            regenerates: "`cargo build` / `mvn package`"@,
            kind: KindModel::NamedDirUnder { name: "target"@, requires_sibling: seq!["Cargo.toml"@, "pom.xml"@, "build.gradle"@, "build.gradle.kts"@] },
        },
        TargetModel {
            id: "pycache"@,
            tier: Tier::BuildArtifact,
            regenerates: "recompiled by Python on next import"@,
            kind: KindModel::NamedDirUnder { name: "__pycache__"@, requires_sibling: seq![] },
        },
        TargetModel {
            id: "xcode-derived-data"@,
            tier: Tier::BuildArtifact,
            regenerates: "rebuilt by Xcode on next build (a cold build, not a download)"@,
            kind: KindModel::HomeDirs(seq!["Library/Developer/Xcode/DerivedData"@]),
        },
        TargetModel {
            id: "docker"@,
            tier: Tier::Docker,
            regenerates: "images/layers rebuilt or re-pulled"@,
            kind: KindModel::External { probe: "docker"@, apply_args: seq!["system"@, "prune"@, "-f"@], note: "prunes dangling images + build cache inside the VM; does NOT shrink the VM disk file — see the docker-desktop-disk item for that"@ },
        },
        TargetModel {
            id: "homebrew"@,
            tier: Tier::PackageCache,
            regenerates: "re-downloaded on next `brew install`/`brew upgrade`"@,
            kind: KindModel::External { probe: "brew"@, apply_args: seq!["cleanup"@, "--prune=all"@], note: "removes stale downloads and old installed versions"@ },
        },
        TargetModel {
            id: "docker-desktop-disk"@,
            tier: Tier::VmDisk,
            regenerates: "Docker Desktop recreates an empty disk on next launch; ALL local images, containers and named volumes are lost"@,
            kind: KindModel::HomeDirs(seq!["Library/Containers/com.docker.docker/Data/vms/0/data/Docker.raw"@]),
        },
        TargetModel {
            id: "finch-disk"@,
            tier: Tier::VmDisk,
            regenerates: "`finch vm init` recreates it; all images in the VM are lost"@,
            kind: KindModel::HomeDirs(seq![".finch/.disks"@]),
        },
        TargetModel {
            id: "lima-disk"@,
            tier: Tier::VmDisk,
            regenerates: "`limactl start` recreates the machine; its images are lost"@,
            kind: KindModel::HomeDirs(seq![".lima"@]),
        },
        TargetModel {
            id: "colima-disk"@,
            tier: Tier::VmDisk,
            regenerates: "`colima start` recreates the machine; its images are lost"@,
            kind: KindModel::HomeDirs(seq![".colima"@]),
        },
        TargetModel {
            id: "podman-disk"@,
            tier: Tier::VmDisk,
            regenerates: "`podman machine init` recreates it; its images are lost"@,
            kind: KindModel::HomeDirs(seq![".local/share/containers/podman"@]),
        },
        TargetModel {
            id: "spotify-cache"@,
            tier: Tier::OsCache,
            regenerates: "re-streamed/re-cached by Spotify on next play"@,
            kind: KindModel::HomeDirs(seq!["Library/Caches/com.spotify.client"@]),
        },
        TargetModel {
            id: "firefox-cache"@,
            tier: Tier::OsCache,
            regenerates: "refetched by Firefox as you browse"@,
            kind: KindModel::HomeDirs(seq!["Library/Caches/Firefox"@]),
        },
        TargetModel {
            id: "chrome-cache"@,
            tier: Tier::OsCache,
            regenerates: "refetched by Chrome as you browse"@,
            kind: KindModel::HomeDirs(seq!["Library/Caches/Google"@]),
        },
        TargetModel {
            id: "jsii-cache"@,
            tier: Tier::OsCache,
            regenerates: "rebuilt by the AWS CDK toolchain on next synth"@,
            kind: KindModel::HomeDirs(seq!["Library/Caches/com.amazonaws.jsii"@]),
        },
    ]
}

/// The full catalog. Adding an entry here is the ONLY way to make diskzap
/// aware of a new deletable thing; keep it auditable.
///
/// Deliberately absent: site-specific and corporate-internal caches. They do
/// not belong in a public catalog.
pub fn catalog() -> (r: Vec<Target>)
    ensures
        r@.map_values(|t: Target| t@) == spec_catalog(),
{
    let r = vec![
            // --- Language / package-manager caches (fully regenerable) ---
            Target {
                id: "uv",
                tier: Tier::PackageCache,
                regenerates: "re-downloaded on next `uv sync`/`uv pip install`",
                kind: Kind::HomeDirs(&[".cache/uv", "Library/Caches/uv"]),
            },
            Target {
                id: "pip",
                tier: Tier::PackageCache,
                regenerates: "re-downloaded on next `pip install`",
                kind: Kind::HomeDirs(&[".cache/pip", "Library/Caches/pip"]),
            },
            Target {
                id: "npm",
                tier: Tier::PackageCache,
                regenerates: "re-downloaded on next `npm install`",
                kind: Kind::HomeDirs(&[".npm/_cacache"]),
            },
            Target {
                id: "npx",
                tier: Tier::PackageCache,
                // Separate from the npm cache: _npx holds fully-installed throwaway
                // package trees, and outgrew _cacache 7:1 on a real machine.
                regenerates: "re-installed on next `npx <pkg>` run",
                kind: Kind::HomeDirs(&[".npm/_npx"]),
            },
            Target {
                id: "yarn",
                tier: Tier::PackageCache,
                regenerates: "re-downloaded on next `yarn install`",
                kind: Kind::HomeDirs(&[".cache/yarn", "Library/Caches/Yarn"]),
            },
            Target {
                id: "pnpm",
                tier: Tier::PackageCache,
                // Only ever the store subdir. PNPM_HOME (~/Library/pnpm) also holds
                // the pnpm binary and global installs, so the parent is off-limits.
                regenerates: "re-fetched into the pnpm store on next install",
                kind: Kind::HomeDirs(&[".local/share/pnpm/store", "Library/pnpm/store"]),
            },
            Target {
                id: "bun",
                tier: Tier::PackageCache,
                // Only the install cache. ~/.bun itself holds the bun binary and
                // global installs, same trap as PNPM_HOME above, so the parent is
                // off-limits. $BUN_INSTALL can relocate this; the default covers
                // almost everyone and a relocated cache reports as absent rather
                // than resolving to something wrong.
                regenerates: "re-downloaded on next `bun install`",
                kind: Kind::HomeDirs(&[".bun/install/cache"]),
            },
            Target {
                id: "cargo-registry",
                tier: Tier::PackageCache,
                regenerates: "re-downloaded on next `cargo build`",
                kind: Kind::HomeDirs(&[".cargo/registry/cache"]),
            },
            Target {
                id: "go-mod",
                tier: Tier::PackageCache,
                regenerates: "re-downloaded on next `go build`",
                kind: Kind::HomeDirs(&["go/pkg/mod/cache/download"]),
            },
            Target {
                id: "gradle",
                tier: Tier::PackageCache,
                regenerates: "re-downloaded on next Gradle build",
                kind: Kind::HomeDirs(&[".gradle/caches"]),
            },
            Target {
                id: "maven",
                tier: Tier::PackageCache,
                // Only the repository. ~/.m2 also holds settings.xml, which
                // carries credentials, so the parent is off-limits.
                regenerates: "re-downloaded on next Maven build",
                kind: Kind::HomeDirs(&[".m2/repository"]),
            },
            Target {
                id: "huggingface",
                tier: Tier::PackageCache,
                regenerates: "re-downloaded from the HF hub on next use",
                kind: Kind::HomeDirs(&[".cache/huggingface"]),
            },
            // --- Versioned tool installs (keep the newest, drop the rest) ---
            Target {
                id: "puppeteer",
                tier: Tier::PackageCache,
                regenerates: "re-downloaded by puppeteer on next run",
                kind: Kind::VersionedDirs {
                    subpaths: &[
                        ".cache/puppeteer/chrome",
                        ".cache/puppeteer/chrome-headless-shell",
                        ".cache/puppeteer/firefox",
                    ],
                    keep: 1,
                },
            },
            Target {
                id: "playwright",
                tier: Tier::PackageCache,
                regenerates: "re-downloaded by `playwright install`",
                kind: Kind::VersionedDirs {
                    subpaths: &["Library/Caches/ms-playwright", ".cache/ms-playwright"],
                    keep: 1,
                },
            },
            // --- Project build artifacts (regenerate from a build) ---
            // These walk the scan roots; deletion requires the dir be under a root.
            Target {
                id: "node_modules",
                tier: Tier::BuildArtifact,
                regenerates: "`npm install` / `pnpm install`",
                kind: Kind::NamedDirUnder {
                    name: "node_modules",
                    requires_sibling: &[],
                },
            },
            Target {
                id: "venv",
                tier: Tier::BuildArtifact,
                regenerates: "`uv sync` / `python -m venv`",
                kind: Kind::NamedDirUnder {
                    name: ".venv",
                    requires_sibling: &[],
                },
            },
            Target {
                id: "next",
                tier: Tier::BuildArtifact,
                regenerates: "`next build`",
                kind: Kind::NamedDirUnder {
                    name: ".next",
                    requires_sibling: &[],
                },
            },
            Target {
                id: "cargo-target",
                tier: Tier::BuildArtifact,
                regenerates: "`cargo build` / `mvn package`",
                kind: Kind::NamedDirUnder {
                    name: "target",
                    requires_sibling: &["Cargo.toml", "pom.xml", "build.gradle", "build.gradle.kts"],
                },
            },
            Target {
                id: "pycache",
                tier: Tier::BuildArtifact,
                regenerates: "recompiled by Python on next import",
                kind: Kind::NamedDirUnder {
                    name: "__pycache__",
                    requires_sibling: &[],
                },
            },
            // --- Build output at a fixed path (no --root, no walking) ---
            Target {
                id: "xcode-derived-data",
                tier: Tier::BuildArtifact,
                // Regenerates by rebuilding, which is slower than any download,
                // so the report says so rather than letting it look cheap.
                regenerates: "rebuilt by Xcode on next build (a cold build, not a download)",
                kind: Kind::HomeDirs(&["Library/Developer/Xcode/DerivedData"]),
            },
            // --- Delegated cleanups (the tool's own command, never a raw rm) ---
            Target {
                id: "docker",
                tier: Tier::Docker,
                regenerates: "images/layers rebuilt or re-pulled",
                kind: Kind::External {
                    probe: "docker",
                    apply_args: &["system", "prune", "-f"],
                    note: "prunes dangling images + build cache inside the VM; does NOT shrink the VM disk file — see the docker-desktop-disk item for that",
                },
            },
            Target {
                id: "homebrew",
                tier: Tier::PackageCache,
                regenerates: "re-downloaded on next `brew install`/`brew upgrade`",
                kind: Kind::External {
                    probe: "brew",
                    apply_args: &["cleanup", "--prune=all"],
                    note: "removes stale downloads and old installed versions",
                },
            },
            // --- Container/VM disk images (always reported, opt-in to delete) ---
            Target {
                id: "docker-desktop-disk",
                tier: Tier::VmDisk,
                regenerates: "Docker Desktop recreates an empty disk on next launch; ALL local images, containers and named volumes are lost",
                kind: Kind::HomeDirs(&["Library/Containers/com.docker.docker/Data/vms/0/data/Docker.raw"]),
            },
            Target {
                id: "finch-disk",
                tier: Tier::VmDisk,
                regenerates: "`finch vm init` recreates it; all images in the VM are lost",
                kind: Kind::HomeDirs(&[".finch/.disks"]),
            },
            Target {
                id: "lima-disk",
                tier: Tier::VmDisk,
                regenerates: "`limactl start` recreates the machine; its images are lost",
                kind: Kind::HomeDirs(&[".lima"]),
            },
            Target {
                id: "colima-disk",
                tier: Tier::VmDisk,
                regenerates: "`colima start` recreates the machine; its images are lost",
                kind: Kind::HomeDirs(&[".colima"]),
            },
            Target {
                id: "podman-disk",
                tier: Tier::VmDisk,
                regenerates: "`podman machine init` recreates it; its images are lost",
                kind: Kind::HomeDirs(&[".local/share/containers/podman"]),
            },
            // --- OS / app caches (opt-in only) ---
            // Named individually rather than as one blanket ~/Library/Caches entry.
            // The blanket version could only ever be all-or-nothing over a directory
            // where some apps keep semi-durable state, so nobody could reasonably
            // opt in and the whole tier went unused. Naming the big, plainly
            // regenerable ones makes the opt-in a decision someone can actually make.
            Target {
                id: "spotify-cache",
                tier: Tier::OsCache,
                regenerates: "re-streamed/re-cached by Spotify on next play",
                kind: Kind::HomeDirs(&["Library/Caches/com.spotify.client"]),
            },
            Target {
                id: "firefox-cache",
                tier: Tier::OsCache,
                regenerates: "refetched by Firefox as you browse",
                kind: Kind::HomeDirs(&["Library/Caches/Firefox"]),
            },
            Target {
                id: "chrome-cache",
                tier: Tier::OsCache,
                regenerates: "refetched by Chrome as you browse",
                kind: Kind::HomeDirs(&["Library/Caches/Google"]),
            },
            Target {
                id: "jsii-cache",
                tier: Tier::OsCache,
                regenerates: "rebuilt by the AWS CDK toolchain on next synth",
                kind: Kind::HomeDirs(&["Library/Caches/com.amazonaws.jsii"]),
            },
    ];
    proof {
        assert(r@.len() == 31);
        assert(r@[0]@ =~~= spec_catalog()[0]);
        assert(r@[1]@ =~~= spec_catalog()[1]);
        assert(r@[2]@ =~~= spec_catalog()[2]);
        assert(r@[3]@ =~~= spec_catalog()[3]);
        assert(r@[4]@ =~~= spec_catalog()[4]);
        assert(r@[5]@ =~~= spec_catalog()[5]);
        assert(r@[6]@ =~~= spec_catalog()[6]);
        assert(r@[7]@ =~~= spec_catalog()[7]);
        assert(r@[8]@ =~~= spec_catalog()[8]);
        assert(r@[9]@ =~~= spec_catalog()[9]);
        assert(r@[10]@ =~~= spec_catalog()[10]);
        assert(r@[11]@ =~~= spec_catalog()[11]);
        assert(r@[12]@ =~~= spec_catalog()[12]);
        assert(r@[13]@ =~~= spec_catalog()[13]);
        assert(r@[14]@ =~~= spec_catalog()[14]);
        assert(r@[15]@ =~~= spec_catalog()[15]);
        assert(r@[16]@ =~~= spec_catalog()[16]);
        assert(r@[17]@ =~~= spec_catalog()[17]);
        assert(r@[18]@ =~~= spec_catalog()[18]);
        assert(r@[19]@ =~~= spec_catalog()[19]);
        assert(r@[20]@ =~~= spec_catalog()[20]);
        assert(r@[21]@ =~~= spec_catalog()[21]);
        assert(r@[22]@ =~~= spec_catalog()[22]);
        assert(r@[23]@ =~~= spec_catalog()[23]);
        assert(r@[24]@ =~~= spec_catalog()[24]);
        assert(r@[25]@ =~~= spec_catalog()[25]);
        assert(r@[26]@ =~~= spec_catalog()[26]);
        assert(r@[27]@ =~~= spec_catalog()[27]);
        assert(r@[28]@ =~~= spec_catalog()[28]);
        assert(r@[29]@ =~~= spec_catalog()[29]);
        assert(r@[30]@ =~~= spec_catalog()[30]);
        assert(r@.map_values(|t: Target| t@) =~~= spec_catalog());
    }
    r
}

/// The text of `subpath` pushed onto `home` (as `PathBuf::push` does on Unix):
/// an absolute `subpath` replaces `home`; otherwise a `/` is put between them
/// unless `home` is empty or already ends with one.
pub open spec fn joined(home: Seq<char>, subpath: Seq<char>) -> Seq<char> {
    if is_rooted(subpath) {
        subpath
    } else if home.len() > 0 && home.last() != '/' {
        home + seq!['/'] + subpath
    } else {
        home + subpath
    }
}

/// Resolve a HomeDir target to an absolute path, given $HOME.
pub fn home_path(home: &str, subpath: &str) -> (r: String)
    ensures
        r@ == joined(home@, subpath@),
{
    let sub_len = subpath.unicode_len();
    if sub_len > 0 && subpath.get_char(0) == '/' {
        return subpath.to_string();
    }
    let home_len = home.unicode_len();
    let mut p = home.to_string();
    if home_len > 0 && home.get_char(home_len - 1) != '/' {
        p.append("/");
        proof {
            reveal_strlit("/");
        }
    }
    p.append(subpath);
    p
}

/// Position of the last `c` in `s`, or -1.
pub open spec fn last_index_of(s: Seq<char>, c: char) -> int
    decreases s.len(),
{
    if s.len() == 0 {
        -1
    } else if s.last() == c {
        s.len() - 1
    } else {
        last_index_of(s.drop_last(), c)
    }
}

/// Group key of a versioned install directory: everything before the last `-`.
pub open spec fn group_of(name: Seq<char>) -> Seq<char> {
    let i = last_index_of(name, '-');
    if i < 0 {
        name
    } else {
        name.subrange(0, i)
    }
}

proof fn lemma_last_index_of(s: Seq<char>, c: char)
    ensures
        -1 <= last_index_of(s, c) < s.len(),
        last_index_of(s, c) >= 0 ==> s[last_index_of(s, c)] == c,
        forall|k: int| last_index_of(s, c) < k < s.len() ==> s[k] != c,
    decreases s.len(),
{
    if s.len() > 0 && s.last() != c {
        lemma_last_index_of(s.drop_last(), c);
        assert forall|k: int| last_index_of(s, c) < k < s.len() implies s[k] != c by {
            if k < s.len() - 1 {
                assert(s[k] == s.drop_last()[k]);
            }
        }
    }
}

/// Group key for a versioned install directory: everything before the last `-`.
/// `chromium-1187` -> `chromium`, `mac_arm-121.0.6167.85` -> `mac_arm`.
/// A name with no `-` is its own group, so unfamiliar layouts keep everything.
pub fn version_group(name: &str) -> (r: &str)
    ensures
        r@ == group_of(name@),
        r@.len() <= name@.len(),
        r@ == name@.subrange(0, r@.len() as int),
        (forall|k: int| 0 <= k < name@.len() ==> name@[k] != '-') ==> r@ == name@,
        r@.len() < name@.len() ==> name@[r@.len() as int] == '-' && forall|k: int|
            r@.len() < k < name@.len() ==> name@[k] != '-',
{
    let n = name.unicode_len();
    let mut i = n;
    assert(name@.subrange(0, n as int) =~= name@);
    while i > 0 && name.get_char(i - 1) != '-'
        invariant
            n == name@.len(),
            i <= n,
            last_index_of(name@, '-') == last_index_of(name@.subrange(0, i as int), '-'),
        decreases i,
    {
        proof {
            assert(name@.subrange(0, i as int).drop_last() =~= name@.subrange(0, i - 1));
        }
        i = i - 1;
    }
    proof {
        lemma_last_index_of(name@, '-');
        assert(name@.subrange(0, n as int) =~= name@);
        if i > 0 {
            assert(name@.subrange(0, i as int).last() == name@[i - 1]);
        } else {
            assert(name@.subrange(0, 0) =~= Seq::<char>::empty());
        }
    }
    if i == 0 {
        assert(name@.subrange(0, name@.len() as int) =~= name@);
        name
    } else {
        let r = name.substring_char(0, i - 1);
        assert(r@.subrange(0, r@.len() as int) =~= r@);
        r
    }
}

/// The kinds whose paths are subpaths of `$HOME`.
pub open spec fn home_subpaths(k: KindModel) -> Seq<Seq<char>> {
    match k {
        KindModel::HomeDirs(p) => p,
        KindModel::VersionedDirs { subpaths, .. } => subpaths,
        _ => seq![],
    }
}

/// Every home-anchored location is relative, so it resolves inside `$HOME`
/// rather than replacing it.
pub proof fn lemma_home_locations_are_relative()
    ensures
        forall|i: int, k: int|
            0 <= i < spec_catalog().len() && 0 <= k < home_subpaths(spec_catalog()[i].kind).len()
                ==> !is_rooted(#[trigger] home_subpaths(spec_catalog()[i].kind)[k]),
{
    reveal_strlit(".cache/uv");
    reveal_strlit("Library/Caches/uv");
    reveal_strlit(".cache/pip");
    reveal_strlit("Library/Caches/pip");
    reveal_strlit(".npm/_cacache");
    reveal_strlit(".npm/_npx");
    reveal_strlit(".cache/yarn");
    reveal_strlit("Library/Caches/Yarn");
    reveal_strlit(".local/share/pnpm/store");
    reveal_strlit("Library/pnpm/store");
    reveal_strlit(".bun/install/cache");
    reveal_strlit(".cargo/registry/cache");
    reveal_strlit("go/pkg/mod/cache/download");
    reveal_strlit(".gradle/caches");
    reveal_strlit(".m2/repository");
    reveal_strlit("Library/Developer/Xcode/DerivedData");
    reveal_strlit(".cache/huggingface");
    reveal_strlit(".cache/puppeteer/chrome");
    reveal_strlit(".cache/puppeteer/chrome-headless-shell");
    reveal_strlit(".cache/puppeteer/firefox");
    reveal_strlit("Library/Caches/ms-playwright");
    reveal_strlit(".cache/ms-playwright");
    reveal_strlit("Library/Containers/com.docker.docker/Data/vms/0/data/Docker.raw");
    reveal_strlit(".finch/.disks");
    reveal_strlit(".lima");
    reveal_strlit(".colima");
    reveal_strlit(".local/share/containers/podman");
    reveal_strlit("Library/Caches/com.spotify.client");
    reveal_strlit("Library/Caches/Firefox");
    reveal_strlit("Library/Caches/Google");
    reveal_strlit("Library/Caches/com.amazonaws.jsii");
}

/// A versioned directory always keeps at least its newest install of each product.
pub proof fn lemma_versioned_dirs_keep_one()
    ensures
        forall|i: int|
            0 <= i < spec_catalog().len() ==> match (#[trigger] spec_catalog()[i]).kind {
                KindModel::VersionedDirs { keep, .. } => keep >= 1,
                _ => true,
            },
{
}

/// Every location a home-anchored catalog entry resolves to lies inside
/// `$HOME`, whatever `$HOME` is.
pub proof fn lemma_home_targets_stay_in_home(home: Seq<char>, i: int, k: int)
    requires
        0 <= i < spec_catalog().len(),
        0 <= k < home_subpaths(spec_catalog()[i].kind).len(),
    ensures
        comps_prefix(components(home), components(joined(home, home_subpaths(spec_catalog()[i].kind)[k]))),
{
    lemma_home_locations_are_relative();
    let sub = home_subpaths(spec_catalog()[i].kind)[k];
    assert(!is_rooted(sub));
    lemma_relative_join_stays_inside(home, sub, joined(home, sub));
}

} // verus!
