//! Command-line configuration: parsing the arguments, and what the flags allow.
use vstd::prelude::*;

use crate::targets::Tier;
use crate::text::{concat, text_eq};

verus! {

/// The flags of one run.
pub struct Config {
    pub apply: bool,
    pub include_os_caches: bool,
    pub include_vm_disks: bool,
    pub min_age_days: u64,
    pub scan_roots: Vec<String>,
    /// Report only what is found under a `--root`, skipping every home-anchored
    /// target (sizing the global caches dominates a run).
    pub only_roots: bool,
    pub json: bool,
    pub top: usize,
    /// Skip delegated cleanups entirely: they are subprocesses that reach the
    /// real machine whatever `$HOME` says.
    pub no_external: bool,
}

/// A configuration as values.
#[verifier::ext_equal]
pub struct ConfigModel {
    pub apply: bool,
    pub include_os_caches: bool,
    pub include_vm_disks: bool,
    pub min_age_days: u64,
    pub scan_roots: Seq<Seq<char>>,
    pub only_roots: bool,
    pub json: bool,
    pub top: usize,
    pub no_external: bool,
}

impl View for Config {
    type V = ConfigModel;

    open spec fn view(&self) -> ConfigModel {
        ConfigModel {
            apply: self.apply,
            include_os_caches: self.include_os_caches,
            include_vm_disks: self.include_vm_disks,
            min_age_days: self.min_age_days,
            scan_roots: self.scan_roots@.map_values(|r: String| r@),
            only_roots: self.only_roots,
            json: self.json,
            top: self.top,
            no_external: self.no_external,
        }
    }
}

/// The configuration before any argument: report only, 12 paths listed.
pub open spec fn default_config() -> ConfigModel {
    ConfigModel {
        apply: false,
        include_os_caches: false,
        include_vm_disks: false,
        min_age_days: 0,
        scan_roots: Seq::empty(),
        only_roots: false,
        json: false,
        top: 12,
        no_external: false,
    }
}

/// What the arguments ask for.
pub enum ArgsOutcome {
    /// Run with this configuration.
    Run(Config),
    /// Print the version and exit.
    Version,
    /// Print the help and exit.
    Help,
    /// Refuse, with this message.
    Error(String),
}

/// What the arguments ask for, as values.
#[verifier::ext_equal]
pub enum ArgsModel {
    Run(ConfigModel),
    Version,
    Help,
    Error(Seq<char>),
}

impl View for ArgsOutcome {
    type V = ArgsModel;

    open spec fn view(&self) -> ArgsModel {
        match self {
            ArgsOutcome::Run(c) => ArgsModel::Run(c@),
            ArgsOutcome::Version => ArgsModel::Version,
            ArgsOutcome::Help => ArgsModel::Help,
            ArgsOutcome::Error(e) => ArgsModel::Error(e@),
        }
    }
}

pub open spec fn is_digit(c: char) -> bool {
    '0' <= c && c <= '9'
}

pub open spec fn digits_value(s: Seq<char>) -> nat
    decreases s.len(),
{
    if s.len() == 0 {
        0
    } else {
        digits_value(s.drop_last()) * 10 + (s.last() as int - '0' as int) as nat
    }
}

/// The digits of an unsigned number: the text less one leading `+`.
pub open spec fn unsigned_digits(s: Seq<char>) -> Seq<char> {
    if s.len() > 0 && s[0] == '+' {
        s.drop_first()
    } else {
        s
    }
}

/// The value of an unsigned decimal number (as `str::parse` reads one), if the text is one.
pub open spec fn parse_unsigned(s: Seq<char>) -> Option<nat> {
    let d = unsigned_digits(s);
    if d.len() > 0 && forall|i: int| 0 <= i < d.len() ==> is_digit(#[trigger] d[i]) {
        Some(digits_value(d))
    } else {
        None
    }
}

/// The value of the number in `s`, where it is one and at most `max`.
pub open spec fn parse_at_most(s: Seq<char>, max: nat) -> Option<nat> {
    match parse_unsigned(s) {
        Some(v) => if v <= max {
            Some(v)
        } else {
            None
        },
        None => None,
    }
}

proof fn lemma_digits_value_grows(s: Seq<char>, k: int)
    requires
        0 <= k <= s.len(),
        forall|i: int| 0 <= i < s.len() ==> is_digit(#[trigger] s[i]),
    ensures
        digits_value(s) >= digits_value(s.subrange(0, k)),
    decreases s.len() - k,
{
    if k < s.len() {
        assert(s.drop_last().len() == s.len() - 1);
        if k == s.len() - 1 {
            assert(s.subrange(0, k) =~= s.drop_last());
        } else {
            assert(s.drop_last().subrange(0, k) =~= s.subrange(0, k));
            assert forall|i: int| 0 <= i < s.drop_last().len() implies is_digit(#[trigger] s.drop_last()[i]) by {
                assert(s.drop_last()[i] == s[i]);
            }
            lemma_digits_value_grows(s.drop_last(), k);
        }
        assert(is_digit(s[s.len() - 1]));
    } else {
        assert(s.subrange(0, k) =~= s);
    }
}

/// Reads an unsigned decimal number (as `str::parse` does) no larger than `max`.
pub fn parse_chars(t: &Vec<char>, max: u64) -> (r: Option<u64>)
    ensures
        match r {
            Some(v) => parse_at_most(t@, max as nat) == Some(v as nat),
            None => parse_at_most(t@, max as nat) is None,
        },
{
    let n = t.len();
    let start: usize = if n > 0 && t[0] == '+' {
        1
    } else {
        0
    };
    let ghost d = unsigned_digits(t@);
    assert(d =~= t@.subrange(start as int, n as int));
    if start >= n {
        return None;
    }
    let mut acc: u64 = 0;
    let mut i = start;
    while i < n
        invariant
            n == t@.len(),
            start <= i <= n,
            d == unsigned_digits(t@),
            d =~= t@.subrange(start as int, n as int),
            acc as nat == digits_value(d.subrange(0, i - start)),
            forall|k: int| 0 <= k < i - start ==> is_digit(#[trigger] d[k]),
            acc <= max,
        decreases n - i,
    {
        let c = t[i];
        assert(c == d[i - start]);
        if !(c >= '0' && c <= '9') {
            assert(!is_digit(d[i - start]));
            assert(unsigned_digits(t@) == d);
            assert(parse_unsigned(t@) is None);
            return None;
        }
        let digit: u64 = (c as u32 - '0' as u32) as u64;
        proof {
            assert(d.subrange(0, i - start + 1).drop_last() =~= d.subrange(0, i - start));
        }
        if digit > max || acc > (max - digit) / 10 {
            proof {
                let next = d.subrange(0, i - start + 1);
                assert(digits_value(next) == acc * 10 + digit);
                assert(acc * 10 + digit > max) by (nonlinear_arith)
                    requires digit > max || acc > (max - digit) / 10, acc >= 0, digit >= 0;
                // the rest only adds digits, so the whole number is larger still,
                // or a later character is not a digit at all
                assert(unsigned_digits(t@) == d);
                if forall|k: int| 0 <= k < d.len() ==> is_digit(#[trigger] d[k]) {
                    lemma_digits_value_grows(d, i - start + 1);
                    assert(parse_unsigned(t@) == Some(digits_value(d)));
                    assert(digits_value(d) > max);
                } else {
                    assert(parse_unsigned(t@) is None);
                }
            }
            return None;
        }
        proof {
            assert(acc * 10 + digit <= max) by (nonlinear_arith)
                requires acc <= (max - digit) / 10, digit <= max;
        }
        acc = acc * 10 + digit;
        i = i + 1;
    }
    assert(d.subrange(0, n - start) =~= d);
    Some(acc)
}

fn parse_number(s: &str, max: u64) -> (r: Option<u64>)
    ensures
        match r {
            Some(v) => parse_at_most(s@, max as nat) == Some(v as nat),
            None => parse_at_most(s@, max as nat) is None,
        },
{
    let t = crate::paths::chars_of(s);
    parse_chars(&t, max)
}

/// Parses the command line (without the program name).
///
/// Arguments are read in order; `--version`/`-V` and `-h`/`--help` end the
/// reading where they stand, and the first bad argument is the error.
pub open spec fn parse_from(args: Seq<Seq<char>>, i: int, cfg: ConfigModel) -> ArgsModel
    decreases args.len() - i,
{
    if i < 0 || i >= args.len() {
        ArgsModel::Run(cfg)
    } else {
        let a = args[i];
        if a == "--version"@ || a == "-V"@ {
            ArgsModel::Version
        } else if a == "--apply"@ {
            parse_from(args, i + 1, ConfigModel { apply: true, ..cfg })
        } else if a == "--include-os-caches"@ {
            parse_from(args, i + 1, ConfigModel { include_os_caches: true, ..cfg })
        } else if a == "--include-vm-disks"@ {
            parse_from(args, i + 1, ConfigModel { include_vm_disks: true, ..cfg })
        } else if a == "--no-external"@ {
            parse_from(args, i + 1, ConfigModel { no_external: true, ..cfg })
        } else if a == "--only-roots"@ {
            parse_from(args, i + 1, ConfigModel { only_roots: true, ..cfg })
        } else if a == "--json"@ {
            parse_from(args, i + 1, ConfigModel { json: true, ..cfg })
        } else if a == "--min-age-days"@ {
            if i + 1 >= args.len() {
                ArgsModel::Error("--min-age-days needs a value"@)
            } else {
                match parse_at_most(args[i + 1], u64::MAX as nat) {
                    Some(v) => parse_from(args, i + 2, ConfigModel { min_age_days: v as u64, ..cfg }),
                    None => ArgsModel::Error("invalid --min-age-days"@),
                }
            }
        } else if a == "--top"@ {
            if i + 1 >= args.len() {
                ArgsModel::Error("--top needs a value"@)
            } else {
                match parse_at_most(args[i + 1], usize::MAX as nat) {
                    Some(v) => parse_from(args, i + 2, ConfigModel { top: v as usize, ..cfg }),
                    None => ArgsModel::Error("invalid --top"@),
                }
            }
        } else if a == "--root"@ {
            if i + 1 >= args.len() {
                ArgsModel::Error("--root needs a path"@)
            } else {
                parse_from(
                    args,
                    i + 2,
                    ConfigModel { scan_roots: cfg.scan_roots.push(args[i + 1]), ..cfg },
                )
            }
        } else if a == "-h"@ || a == "--help"@ {
            ArgsModel::Help
        } else {
            ArgsModel::Error("unknown argument: "@ + a)
        }
    }
}

/// Reads the command-line arguments (without the program name).
pub fn parse_args(args: &Vec<String>) -> (r: ArgsOutcome)
    ensures
        r@ == parse_from(args@.map_values(|a: String| a@), 0, default_config()),
{
    let ghost views = args@.map_values(|a: String| a@);
    let mut cfg = Config {
        apply: false,
        include_os_caches: false,
        include_vm_disks: false,
        min_age_days: 0,
        scan_roots: Vec::new(),
        only_roots: false,
        json: false,
        top: 12,
        no_external: false,
    };
    assert(cfg@ =~= default_config());
    let mut i: usize = 0;
    while i < args.len()
        invariant
            views == args@.map_values(|a: String| a@),
            i <= args.len(),
            parse_from(views, i as int, cfg@) == parse_from(views, 0, default_config()),
        decreases args.len() - i,
    {
        let a = args[i].as_str();
        assert(a@ == views[i as int]);
        let ghost before = cfg@;
        if text_eq(a, "--version") || text_eq(a, "-V") {
            return ArgsOutcome::Version;
        } else if text_eq(a, "--apply") {
            cfg.apply = true;
            assert(cfg@ =~= ConfigModel { apply: true, ..before });
        } else if text_eq(a, "--include-os-caches") {
            cfg.include_os_caches = true;
            assert(cfg@ =~= ConfigModel { include_os_caches: true, ..before });
        } else if text_eq(a, "--include-vm-disks") {
            cfg.include_vm_disks = true;
            assert(cfg@ =~= ConfigModel { include_vm_disks: true, ..before });
        } else if text_eq(a, "--no-external") {
            cfg.no_external = true;
            assert(cfg@ =~= ConfigModel { no_external: true, ..before });
        } else if text_eq(a, "--only-roots") {
            cfg.only_roots = true;
            assert(cfg@ =~= ConfigModel { only_roots: true, ..before });
        } else if text_eq(a, "--json") {
            cfg.json = true;
            assert(cfg@ =~= ConfigModel { json: true, ..before });
        } else if text_eq(a, "--min-age-days") {
            if i + 1 >= args.len() {
                return ArgsOutcome::Error("--min-age-days needs a value".to_string());
            }
            match parse_number(args[i + 1].as_str(), u64::MAX) {
                Some(v) => {
                    cfg.min_age_days = v;
                    assert(cfg@ =~= ConfigModel { min_age_days: v, ..before });
                    i = i + 1;
                },
                None => {
                    return ArgsOutcome::Error("invalid --min-age-days".to_string());
                },
            }
        } else if text_eq(a, "--top") {
            if i + 1 >= args.len() {
                return ArgsOutcome::Error("--top needs a value".to_string());
            }
            match parse_number(args[i + 1].as_str(), usize::MAX as u64) {
                Some(v) => {
                    cfg.top = v as usize;
                    assert(cfg@ =~= ConfigModel { top: v as usize, ..before });
                    i = i + 1;
                },
                None => {
                    return ArgsOutcome::Error("invalid --top".to_string());
                },
            }
        } else if text_eq(a, "--root") {
            if i + 1 >= args.len() {
                return ArgsOutcome::Error("--root needs a path".to_string());
            }
            let root = args[i + 1].clone();
            cfg.scan_roots.push(root);
            assert(cfg@ =~= ConfigModel { scan_roots: before.scan_roots.push(views[i + 1]), ..before });
            i = i + 1;
        } else if text_eq(a, "-h") || text_eq(a, "--help") {
            return ArgsOutcome::Help;
        } else {
            return ArgsOutcome::Error(concat("unknown argument: ", a));
        }
        i = i + 1;
    }
    ArgsOutcome::Run(cfg)
}

/// Is a tier deletable under these flags?
pub open spec fn tier_deletable(tier: Tier, cfg: ConfigModel) -> bool {
    match tier {
        Tier::OsCache => cfg.include_os_caches,
        Tier::VmDisk => cfg.include_vm_disks,
        _ => true,
    }
}

/// Is this tier deletable under the current flags?
pub fn deletable(tier: Tier, cfg: &Config) -> (r: bool)
    ensures
        r == tier_deletable(tier, cfg@),
{
    match tier {
        Tier::OsCache => cfg.include_os_caches,
        Tier::VmDisk => cfg.include_vm_disks,
        t => t.default_on(),
    }
}

/// Does `$HOME` look redirected away from the login home of `user`?
pub open spec fn home_overridden(home: Seq<char>, user: Option<Seq<char>>) -> bool {
    match user {
        None => false,
        Some(u) => u.len() > 0 && !(home == "/Users/"@ + u || home == "/home/"@ + u || home
            == "/var/root"@ || home == "/root"@),
    }
}

/// Does `$HOME` look redirected away from this user's login home?
///
/// A convention check rather than a passwd lookup: the cost of being wrong is
/// only a warning. An unknown `$USER` (`None`) means no opinion.
pub fn home_is_overridden(home: &str, user: Option<&str>) -> (r: bool)
    ensures
        r == home_overridden(home@, match user {
            Some(u) => Some(u@),
            None => None,
        }),
{
    match user {
        None => false,
        Some(u) => {
            if u.unicode_len() == 0 {
                return false;
            }
            let mac = concat("/Users/", u);
            let linux = concat("/home/", u);
            !(text_eq(home, mac.as_str()) || text_eq(home, linux.as_str()) || text_eq(
                home,
                "/var/root",
            ) || text_eq(home, "/root"))
        },
    }
}

/// Where each of the three permission flags comes from.
proof fn lemma_flag_sources(args: Seq<Seq<char>>, i: int, cfg: ConfigModel)
    requires
        0 <= i,
    ensures
        parse_from(args, i, cfg) matches ArgsModel::Run(c) ==> {
            &&& c.apply ==> cfg.apply || exists|j: int| i <= j < args.len() && args[j] == "--apply"@
            &&& c.include_os_caches ==> cfg.include_os_caches || exists|j: int|
                i <= j < args.len() && args[j] == "--include-os-caches"@
            &&& c.include_vm_disks ==> cfg.include_vm_disks || exists|j: int|
                i <= j < args.len() && args[j] == "--include-vm-disks"@
            &&& c.only_roots ==> cfg.only_roots || exists|j: int| i <= j < args.len() && args[j] == "--only-roots"@
            &&& c.no_external ==> cfg.no_external || exists|j: int|
                i <= j < args.len() && args[j] == "--no-external"@
            &&& c.json ==> cfg.json || exists|j: int| i <= j < args.len() && args[j] == "--json"@
            &&& c.scan_roots.len() > cfg.scan_roots.len() ==> exists|j: int|
                i <= j < args.len() && args[j] == "--root"@
        },
    decreases args.len() - i,
{
    if i < args.len() {
        let a = args[i];
        if a == "--version"@ || a == "-V"@ {
        } else if a == "--apply"@ {
            lemma_flag_sources(args, i + 1, ConfigModel { apply: true, ..cfg });
        } else if a == "--include-os-caches"@ {
            lemma_flag_sources(args, i + 1, ConfigModel { include_os_caches: true, ..cfg });
        } else if a == "--include-vm-disks"@ {
            lemma_flag_sources(args, i + 1, ConfigModel { include_vm_disks: true, ..cfg });
        } else if a == "--no-external"@ {
            lemma_flag_sources(args, i + 1, ConfigModel { no_external: true, ..cfg });
        } else if a == "--only-roots"@ {
            lemma_flag_sources(args, i + 1, ConfigModel { only_roots: true, ..cfg });
        } else if a == "--json"@ {
            lemma_flag_sources(args, i + 1, ConfigModel { json: true, ..cfg });
        } else if a == "--min-age-days"@ {
            if i + 1 < args.len() {
                match parse_at_most(args[i + 1], u64::MAX as nat) {
                    Some(v) => lemma_flag_sources(args, i + 2, ConfigModel { min_age_days: v as u64, ..cfg }),
                    None => {},
                }
            }
        } else if a == "--top"@ {
            if i + 1 < args.len() {
                match parse_at_most(args[i + 1], usize::MAX as nat) {
                    Some(v) => lemma_flag_sources(args, i + 2, ConfigModel { top: v as usize, ..cfg }),
                    None => {},
                }
            }
        } else if a == "--root"@ {
            if i + 1 < args.len() {
                lemma_flag_sources(args, i + 2, ConfigModel { scan_roots: cfg.scan_roots.push(args[i + 1]), ..cfg });
            }
        }
    }
}

/// Nothing is deleted unless asked: a run removes files only when `--apply`
/// was given, and OS caches and VM disks only with their own flags.
pub proof fn lemma_permissions_come_from_flags(args: Seq<Seq<char>>)
    ensures
        parse_from(args, 0, default_config()) matches ArgsModel::Run(c) ==> {
            &&& c.apply ==> args.contains("--apply"@)
            &&& c.include_os_caches ==> args.contains("--include-os-caches"@)
            &&& c.include_vm_disks ==> args.contains("--include-vm-disks"@)
        },
{
    lemma_flag_sources(args, 0, default_config());
}

/// Every switch of a run comes from its own flag: --only-roots, --no-external
/// and --json are set only when given, and roots to scan only come with
/// --root (which touches nothing else; see `lemma_each_flag_sets_its_own_field`).
pub proof fn lemma_switches_come_from_their_flags(args: Seq<Seq<char>>)
    ensures
        parse_from(args, 0, default_config()) matches ArgsModel::Run(c) ==> {
            &&& c.only_roots ==> args.contains("--only-roots"@)
            &&& c.no_external ==> args.contains("--no-external"@)
            &&& c.json ==> args.contains("--json"@)
            &&& c.scan_roots.len() > 0 ==> args.contains("--root"@)
        },
{
    lemma_flag_sources(args, 0, default_config());
}

/// Each flag sets its own field and nothing else: reading a flag (with its
/// value) and going on is reading the rest from the configuration with just
/// that field changed.
pub proof fn lemma_each_flag_sets_its_own_field(args: Seq<Seq<char>>, i: int, cfg: ConfigModel)
    requires
        0 <= i < args.len(),
    ensures
        args[i] == "--apply"@ ==> parse_from(args, i, cfg) == parse_from(args, i + 1, ConfigModel { apply: true, ..cfg }),
        args[i] == "--include-os-caches"@ ==> parse_from(args, i, cfg) == parse_from(
            args,
            i + 1,
            ConfigModel { include_os_caches: true, ..cfg },
        ),
        args[i] == "--include-vm-disks"@ ==> parse_from(args, i, cfg) == parse_from(
            args,
            i + 1,
            ConfigModel { include_vm_disks: true, ..cfg },
        ),
        args[i] == "--no-external"@ ==> parse_from(args, i, cfg) == parse_from(
            args,
            i + 1,
            ConfigModel { no_external: true, ..cfg },
        ),
        args[i] == "--only-roots"@ ==> parse_from(args, i, cfg) == parse_from(
            args,
            i + 1,
            ConfigModel { only_roots: true, ..cfg },
        ),
        args[i] == "--json"@ ==> parse_from(args, i, cfg) == parse_from(args, i + 1, ConfigModel { json: true, ..cfg }),
        args[i] == "--root"@ && i + 1 < args.len() ==> parse_from(args, i, cfg) == parse_from(
            args,
            i + 2,
            ConfigModel { scan_roots: cfg.scan_roots.push(args[i + 1]), ..cfg },
        ),
{
    reveal_strlit("--version");
    reveal_strlit("-V");
    reveal_strlit("--apply");
    reveal_strlit("--include-os-caches");
    reveal_strlit("--include-vm-disks");
    reveal_strlit("--no-external");
    reveal_strlit("--only-roots");
    reveal_strlit("--json");
    reveal_strlit("--min-age-days");
    reveal_strlit("--top");
    reveal_strlit("--root");
    let a = args[i];
    if a == "--apply"@ {
        assert(a.len() == 7);
        assert(a != "--version"@ && a != "-V"@);
    }
    if a == "--include-os-caches"@ {
        assert(a.len() == 19);
        assert(a != "--version"@ && a != "-V"@ && a != "--apply"@);
    }
    if a == "--include-vm-disks"@ {
        assert(a.len() == 18);
        assert(a != "--version"@ && a != "-V"@ && a != "--apply"@ && a != "--include-os-caches"@);
    }
    if a == "--no-external"@ {
        assert(a.len() == 13);
        assert(a != "--version"@ && a != "-V"@ && a != "--apply"@ && a != "--include-os-caches"@ && a != "--include-vm-disks"@);
    }
    if a == "--only-roots"@ {
        assert(a.len() == 12);
        assert(a != "--version"@ && a != "-V"@ && a != "--apply"@ && a != "--include-os-caches"@ && a != "--include-vm-disks"@ && a != "--no-external"@);
    }
    if a == "--json"@ {
        assert(a.len() == 6);
        assert(a != "--version"@ && a != "-V"@ && a != "--apply"@ && a != "--include-os-caches"@ && a != "--include-vm-disks"@ && a != "--no-external"@ && a != "--only-roots"@);
    }
    if a == "--min-age-days"@ {
        assert(a.len() == 14);
        assert(a != "--version"@ && a != "-V"@ && a != "--apply"@ && a != "--include-os-caches"@ && a != "--include-vm-disks"@ && a != "--no-external"@ && a != "--only-roots"@ && a != "--json"@);
    }
    if a == "--top"@ {
        assert(a.len() == 5);
        assert(a != "--version"@ && a != "-V"@ && a != "--apply"@ && a != "--include-os-caches"@ && a != "--include-vm-disks"@ && a != "--no-external"@ && a != "--only-roots"@ && a != "--json"@ && a != "--min-age-days"@);
    }
    if a == "--root"@ {
        assert(a.len() == 6);
        assert(a[2] == 'r' && "--json"@[2] == 'j');
        assert(a != "--version"@ && a != "-V"@ && a != "--apply"@ && a != "--include-os-caches"@ && a != "--include-vm-disks"@ && a != "--no-external"@ && a != "--only-roots"@ && a != "--json"@ && a != "--min-age-days"@ && a != "--top"@);
    }
}

} // verus!
