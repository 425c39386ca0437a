//! Command-line parsing: verbs, their aliases, options and stat goals.
//!
//! Verbs and option names match ASCII case-insensitively; option values keep
//! their casing. `--help`, `-h` or `help` anywhere wins. Paths are kept as the
//! text given; defaults that depend on the install directory are left to the
//! caller.
use vstd::prelude::*;

use crate::stat::{abbreviation_spec, display_name_spec, parse_goal, parse_goal_spec, tracked_stats, tracked_stats_spec, abbreviation_for, StatGoal};
use crate::text::{ascii_lower, concat3, str_eq, to_ascii_lowercase};
use crate::report::{pad_right, pad_right_spec};

verus! {

/// The subcommands that take options.
#[derive(Debug, Clone, Copy, PartialEq, Eq, Structural)]
pub enum CliKind {
    Optimize,
    ScrapGear,
    BaseStats,
    ResolveSlots,
    BuildDb,
}

/// The options a subcommand understands.
#[derive(Debug, Clone, Copy, PartialEq, Eq, Structural)]
pub enum CliOption {
    Character,
    File,
    BuildsFile,
    Build,
    SaveBuild,
    ToFile,
    Force,
    Items,
    Out,
}

/// The option an argument names for a subcommand (after ASCII lowercasing).
pub open spec fn option_of(kind: CliKind, l: Seq<char>) -> Option<CliOption> {
    match kind {
        CliKind::Optimize => if l == "--character"@ || l == "-c"@ {
            Some(CliOption::Character)
        } else if l == "--file"@ || l == "-f"@ {
            Some(CliOption::File)
        } else if l == "--builds-file"@ {
            Some(CliOption::BuildsFile)
        } else if l == "--build"@ {
            Some(CliOption::Build)
        } else if l == "--save-build"@ {
            Some(CliOption::SaveBuild)
        } else if l == "--to-file"@ {
            Some(CliOption::ToFile)
        } else {
            None
        },
        CliKind::ScrapGear => if l == "--character"@ || l == "-c"@ {
            Some(CliOption::Character)
        } else if l == "--file"@ || l == "-f"@ {
            Some(CliOption::File)
        } else if l == "--builds-file"@ {
            Some(CliOption::BuildsFile)
        } else {
            None
        },
        CliKind::BaseStats => if l == "--character"@ || l == "-c"@ {
            Some(CliOption::Character)
        } else if l == "--file"@ || l == "-f"@ {
            Some(CliOption::File)
        } else {
            None
        },
        CliKind::ResolveSlots => if l == "--character"@ || l == "-c"@ {
            Some(CliOption::Character)
        } else if l == "--force"@ || l == "-f"@ {
            Some(CliOption::Force)
        } else {
            None
        },
        CliKind::BuildDb => if l == "--items"@ {
            Some(CliOption::Items)
        } else if l == "--out"@ {
            Some(CliOption::Out)
        } else {
            None
        },
    }
}

fn option_for(kind: CliKind, arg: &str) -> (r: Option<CliOption>)
    ensures
        r == option_of(kind, ascii_lower(arg@)),
{
    let lower = to_ascii_lowercase(arg);
    let l = lower.as_str();
    match kind {
        CliKind::Optimize => if str_eq(l, "--character") || str_eq(l, "-c") {
            Some(CliOption::Character)
        } else if str_eq(l, "--file") || str_eq(l, "-f") {
            Some(CliOption::File)
        } else if str_eq(l, "--builds-file") {
            Some(CliOption::BuildsFile)
        } else if str_eq(l, "--build") {
            Some(CliOption::Build)
        } else if str_eq(l, "--save-build") {
            Some(CliOption::SaveBuild)
        } else if str_eq(l, "--to-file") {
            Some(CliOption::ToFile)
        } else {
            None
        },
        CliKind::ScrapGear => if str_eq(l, "--character") || str_eq(l, "-c") {
            Some(CliOption::Character)
        } else if str_eq(l, "--file") || str_eq(l, "-f") {
            Some(CliOption::File)
        } else if str_eq(l, "--builds-file") {
            Some(CliOption::BuildsFile)
        } else {
            None
        },
        CliKind::BaseStats => if str_eq(l, "--character") || str_eq(l, "-c") {
            Some(CliOption::Character)
        } else if str_eq(l, "--file") || str_eq(l, "-f") {
            Some(CliOption::File)
        } else {
            None
        },
        CliKind::ResolveSlots => if str_eq(l, "--character") || str_eq(l, "-c") {
            Some(CliOption::Character)
        } else if str_eq(l, "--force") || str_eq(l, "-f") {
            Some(CliOption::Force)
        } else {
            None
        },
        CliKind::BuildDb => if str_eq(l, "--items") {
            Some(CliOption::Items)
        } else if str_eq(l, "--out") {
            Some(CliOption::Out)
        } else {
            None
        },
    }
}

/// Whether an option is a switch (takes no value).
pub open spec fn is_switch(o: CliOption) -> bool {
    o == CliOption::ToFile || o == CliOption::Force
}

/// The error for an option given without its value.
pub open spec fn missing_value_message(o: CliOption) -> Seq<char> {
    match o {
        CliOption::Character => "--character requires a value"@,
        CliOption::File => "--file requires a path"@,
        CliOption::BuildsFile => "--builds-file requires a path"@,
        CliOption::Build => "--build requires a value"@,
        CliOption::SaveBuild => "--save-build requires a value"@,
        CliOption::Items => "--items requires a path"@,
        CliOption::Out => "--out requires a path"@,
        _ => ""@,
    }
}

fn missing_value(o: CliOption) -> (r: String)
    ensures
        r@ == missing_value_message(o),
{
    match o {
        CliOption::Character => "--character requires a value".to_owned(),
        CliOption::File => "--file requires a path".to_owned(),
        CliOption::BuildsFile => "--builds-file requires a path".to_owned(),
        CliOption::Build => "--build requires a value".to_owned(),
        CliOption::SaveBuild => "--save-build requires a value".to_owned(),
        CliOption::Items => "--items requires a path".to_owned(),
        CliOption::Out => "--out requires a path".to_owned(),
        _ => "".to_owned(),
    }
}

/// The error for a positional argument to a subcommand that takes none.
pub open spec fn no_positional_message(kind: CliKind) -> Seq<char> {
    match kind {
        CliKind::ScrapGear => "'scrap-gear' takes no positional arguments"@,
        CliKind::BaseStats => "'base-stats' takes no positional arguments"@,
        CliKind::ResolveSlots => "'resolve-slots' takes no positional arguments"@,
        CliKind::BuildDb => "'build-db' takes no positional arguments"@,
        CliKind::Optimize => ""@,
    }
}

fn no_positional(kind: CliKind) -> (r: String)
    ensures
        r@ == no_positional_message(kind),
{
    match kind {
        CliKind::ScrapGear => "'scrap-gear' takes no positional arguments".to_owned(),
        CliKind::BaseStats => "'base-stats' takes no positional arguments".to_owned(),
        CliKind::ResolveSlots => "'resolve-slots' takes no positional arguments".to_owned(),
        CliKind::BuildDb => "'build-db' takes no positional arguments".to_owned(),
        CliKind::Optimize => "".to_owned(),
    }
}

/// Everything the options of a command line set.
pub struct CliArgsView {
    pub character: Option<Seq<char>>,
    pub file: Option<Seq<char>>,
    pub builds_file: Option<Seq<char>>,
    pub build: Option<Seq<char>>,
    pub save_build: Option<Seq<char>>,
    pub items: Option<Seq<char>>,
    pub out: Option<Seq<char>>,
    pub to_file: bool,
    pub force: bool,
    pub goals: Seq<StatGoal>,
}

/// Nothing set.
pub open spec fn no_args() -> CliArgsView {
    CliArgsView {
        character: None,
        file: None,
        builds_file: None,
        build: None,
        save_build: None,
        items: None,
        out: None,
        to_file: false,
        force: false,
        goals: Seq::empty(),
    }
}

/// `acc` with option `o` set (to `v` for a valued option).
pub open spec fn set_option(acc: CliArgsView, o: CliOption, v: Seq<char>) -> CliArgsView {
    match o {
        CliOption::Character => CliArgsView { character: Some(v), ..acc },
        CliOption::File => CliArgsView { file: Some(v), ..acc },
        CliOption::BuildsFile => CliArgsView { builds_file: Some(v), ..acc },
        CliOption::Build => CliArgsView { build: Some(v), ..acc },
        CliOption::SaveBuild => CliArgsView { save_build: Some(v), ..acc },
        CliOption::Items => CliArgsView { items: Some(v), ..acc },
        CliOption::Out => CliArgsView { out: Some(v), ..acc },
        CliOption::ToFile => CliArgsView { to_file: true, ..acc },
        CliOption::Force => CliArgsView { force: true, ..acc },
    }
}

/// Reads the arguments from position `i` on, left to right; later options
/// override earlier ones.
pub open spec fn scan_args(kind: CliKind, args: Seq<Seq<char>>, i: int, acc: CliArgsView) -> Result<CliArgsView, Seq<char>>
    decreases args.len() - i,
{
    if i < 0 || i >= args.len() {
        Ok(acc)
    } else {
        let a = args[i];
        match option_of(kind, ascii_lower(a)) {
            Some(o) => if is_switch(o) {
                scan_args(kind, args, i + 1, set_option(acc, o, Seq::empty()))
            } else if i + 1 < args.len() {
                scan_args(kind, args, i + 2, set_option(acc, o, args[i + 1]))
            } else {
                Err(missing_value_message(o))
            },
            None => if a.len() > 0 && a[0] == '-' {
                Err("Unknown option: '"@ + a + "'"@)
            } else if kind == CliKind::Optimize {
                match parse_goal_spec(a) {
                    Ok(g) => scan_args(kind, args, i + 1, CliArgsView { goals: acc.goals.push(g), ..acc }),
                    Err(e) => Err("Invalid stat goal '"@ + a + "': "@ + e),
                }
            } else {
                Err(no_positional_message(kind))
            },
        }
    }
}

/// What parsing a subcommand's arguments gives; for `optimize`, `--build`
/// excludes goals and `--save-build` needs goals.
pub open spec fn parse_args_spec(kind: CliKind, args: Seq<Seq<char>>) -> Result<CliArgsView, Seq<char>> {
    match scan_args(kind, args, 0, no_args()) {
        Err(e) => Err(e),
        Ok(a) => if kind == CliKind::Optimize && a.build is Some && a.goals.len() > 0 {
            Err("Cannot supply stat goals when using --build <name>."@)
        } else if kind == CliKind::Optimize && a.save_build is Some && a.goals.len() == 0 && a.build is None {
            Err("--save-build requires at least one stat goal."@)
        } else {
            Ok(a)
        },
    }
}

/// The text of an optional string.
pub open spec fn opt_view(o: Option<String>) -> Option<Seq<char>> {
    match o {
        Some(s) => Some(s@),
        None => None,
    }
}

struct ParsedArgs {
    character: Option<String>,
    file: Option<String>,
    builds_file: Option<String>,
    build: Option<String>,
    save_build: Option<String>,
    items: Option<String>,
    out: Option<String>,
    to_file: bool,
    force: bool,
    goals: Vec<StatGoal>,
}

spec fn parsed_view(p: ParsedArgs) -> CliArgsView {
    CliArgsView {
        character: opt_view(p.character),
        file: opt_view(p.file),
        builds_file: opt_view(p.builds_file),
        build: opt_view(p.build),
        save_build: opt_view(p.save_build),
        items: opt_view(p.items),
        out: opt_view(p.out),
        to_file: p.to_file,
        force: p.force,
        goals: p.goals@,
    }
}

/// The string views of a list of arguments.
pub open spec fn arg_views(args: Seq<String>) -> Seq<Seq<char>> {
    args.map_values(|s: String| s@)
}

fn set_parsed(p: &mut ParsedArgs, o: CliOption, v: &String)
    ensures
        parsed_view(*final(p)) == set_option(parsed_view(*old(p)), o, v@),
{
    match o {
        CliOption::Character => p.character = Some(v.clone()),
        CliOption::File => p.file = Some(v.clone()),
        CliOption::BuildsFile => p.builds_file = Some(v.clone()),
        CliOption::Build => p.build = Some(v.clone()),
        CliOption::SaveBuild => p.save_build = Some(v.clone()),
        CliOption::Items => p.items = Some(v.clone()),
        CliOption::Out => p.out = Some(v.clone()),
        CliOption::ToFile => p.to_file = true,
        CliOption::Force => p.force = true,
    }
}

fn scan(kind: CliKind, args: &[String]) -> (r: Result<ParsedArgs, String>)
    ensures
        match scan_args(kind, arg_views(args@), 0, no_args()) {
            Ok(a) => r matches Ok(p) && parsed_view(p) == a,
            Err(e) => r matches Err(m) && m@ == e,
        },
{
    let ghost av = arg_views(args@);
    let mut p = ParsedArgs {
        character: None,
        file: None,
        builds_file: None,
        build: None,
        save_build: None,
        items: None,
        out: None,
        to_file: false,
        force: false,
        goals: Vec::new(),
    };
    assert(parsed_view(p) =~= no_args());
    let mut i: usize = 0;
    while i < args.len()
        invariant
            i <= args@.len(),
            av == arg_views(args@),
            scan_args(kind, av, 0, no_args()) == scan_args(kind, av, i as int, parsed_view(p)),
        decreases args@.len() - i,
    {
        let arg = args[i].as_str();
        assert(av[i as int] == args@[i as int]@);
        match option_for(kind, arg) {
            Some(o) => {
                if o == CliOption::ToFile || o == CliOption::Force {
                    let empty = String::new();
                    set_parsed(&mut p, o, &empty);
                    i += 1;
                } else if i + 1 < args.len() {
                    assert(av[i + 1] == args@[i + 1]@);
                    set_parsed(&mut p, o, &args[i + 1]);
                    i += 2;
                } else {
                    return Err(missing_value(o));
                }
            },
            None => {
                let n = arg.unicode_len();
                if n > 0 && arg.get_char(0) == '-' {
                    return Err(concat3("Unknown option: '", arg, "'"));
                } else if kind == CliKind::Optimize {
                    match parse_goal(arg) {
                        Ok(g) => {
                            p.goals.push(g);
                            i += 1;
                        },
                        Err(e) => {
                            let mut msg = concat3("Invalid stat goal '", arg, "': ");
                            msg.append(e.as_str());
                            return Err(msg);
                        },
                    }
                } else {
                    return Err(no_positional(kind));
                }
            },
        }
    }
    Ok(p)
}

// ── Commands ─────────────────────────────────────────────────────────────────

#[derive(Debug)]
pub struct OptimizeCli {
    pub character: Option<String>,
    pub file: Option<String>,
    pub builds_file: Option<String>,
    pub build: Option<String>,
    pub save_build: Option<String>,
    pub to_file: bool,
    pub goals: Vec<StatGoal>,
}

#[derive(Debug)]
pub struct ScrapGearCli {
    pub character: Option<String>,
    pub file: Option<String>,
    pub builds_file: Option<String>,
}

/// `lgo base-stats`: show the raw innate Base stats and the tracked-stat
/// contributions derived from them.
#[derive(Debug)]
pub struct BaseStatsCli {
    pub character: Option<String>,
    pub file: Option<String>,
}

#[derive(Debug)]
pub struct ResolveSlotsCli {
    pub character: Option<String>,
    /// `--force` / `-f`: prompt per item before overwriting or removing
    /// entries in the canonical gear file.
    pub force: bool,
}

/// `lgo build-db`; a path left `None` defaults to the install directory's
/// `data/items.xml` or `data/lgo_items.json`.
#[derive(Debug)]
pub struct BuildDbCli {
    pub items: Option<String>,
    pub out: Option<String>,
}

#[derive(Debug)]
pub enum Command {
    Help,
    StatList,
    Optimize(OptimizeCli),
    ScrapGear(ScrapGearCli),
    BaseStats(BaseStatsCli),
    ResolveSlots(ResolveSlotsCli),
    BuildDb(BuildDbCli),
}

#[derive(Debug)]
pub enum CliParseError {
    MissingSubcommand,
    Message(String),
}

/// `cmd` is the subcommand `kind` with the options `a`.
pub open spec fn command_holds(cmd: Command, kind: CliKind, a: CliArgsView) -> bool {
    match cmd {
        Command::Optimize(c) => kind == CliKind::Optimize && opt_view(c.character) == a.character && opt_view(c.file)
            == a.file && opt_view(c.builds_file) == a.builds_file && opt_view(c.build) == a.build && opt_view(
            c.save_build,
        ) == a.save_build && c.to_file == a.to_file && c.goals@ == a.goals,
        Command::ScrapGear(c) => kind == CliKind::ScrapGear && opt_view(c.character) == a.character && opt_view(
            c.file,
        ) == a.file && opt_view(c.builds_file) == a.builds_file,
        Command::BaseStats(c) => kind == CliKind::BaseStats && opt_view(c.character) == a.character && opt_view(c.file)
            == a.file,
        Command::ResolveSlots(c) => kind == CliKind::ResolveSlots && opt_view(c.character) == a.character && c.force
            == a.force,
        Command::BuildDb(c) => kind == CliKind::BuildDb && opt_view(c.items) == a.items && opt_view(c.out) == a.out,
        _ => false,
    }
}

/// A help token: `--help`, `-h` or `help`, in any ASCII case.
pub open spec fn is_help_token(a: Seq<char>) -> bool {
    let l = ascii_lower(a);
    l == "--help"@ || l == "-h"@ || l == "help"@
}

/// The subcommand a verb names (after ASCII lowercasing).
pub open spec fn verb_kind(v: Seq<char>) -> Option<CliKind> {
    if v == "optimize"@ || v == "--optimize"@ || v == "-o"@ {
        Some(CliKind::Optimize)
    } else if v == "scrap-gear"@ || v == "scrapgear"@ || v == "--scrap-gear"@ || v == "-s"@ {
        Some(CliKind::ScrapGear)
    } else if v == "base-stats"@ || v == "--base-stats"@ {
        Some(CliKind::BaseStats)
    } else if v == "resolve-slots"@ || v == "--resolve-slots"@ || v == "-r"@ {
        Some(CliKind::ResolveSlots)
    } else if v == "build-db"@ || v == "--build-db"@ || v == "-b"@ {
        Some(CliKind::BuildDb)
    } else {
        None
    }
}

/// Whether a verb asks for the stat list.
pub open spec fn is_statlist_verb(v: Seq<char>) -> bool {
    v == "statlist"@ || v == "--statlist"@
}

fn kind_of_verb(v: &str) -> (r: Option<CliKind>)
    ensures
        r == verb_kind(v@),
{
    if str_eq(v, "optimize") || str_eq(v, "--optimize") || str_eq(v, "-o") {
        Some(CliKind::Optimize)
    } else if str_eq(v, "scrap-gear") || str_eq(v, "scrapgear") || str_eq(v, "--scrap-gear") || str_eq(v, "-s") {
        Some(CliKind::ScrapGear)
    } else if str_eq(v, "base-stats") || str_eq(v, "--base-stats") {
        Some(CliKind::BaseStats)
    } else if str_eq(v, "resolve-slots") || str_eq(v, "--resolve-slots") || str_eq(v, "-r") {
        Some(CliKind::ResolveSlots)
    } else if str_eq(v, "build-db") || str_eq(v, "--build-db") || str_eq(v, "-b") {
        Some(CliKind::BuildDb)
    } else {
        None
    }
}

fn parse_args(kind: CliKind, args: &[String]) -> (r: Result<ParsedArgs, String>)
    ensures
        match parse_args_spec(kind, arg_views(args@)) {
            Ok(a) => r matches Ok(p) && parsed_view(p) == a,
            Err(e) => r matches Err(m) && m@ == e,
        },
{
    let p = scan(kind, args)?;
    if kind == CliKind::Optimize && p.build.is_some() && p.goals.len() > 0 {
        return Err("Cannot supply stat goals when using --build <name>.".to_owned());
    }
    if kind == CliKind::Optimize && p.save_build.is_some() && p.goals.len() == 0 && p.build.is_none() {
        return Err("--save-build requires at least one stat goal.".to_owned());
    }
    Ok(p)
}

/// Parses `optimize` options and goals.
pub fn parse_optimize_args(args: &[String]) -> (r: Result<OptimizeCli, String>)
    ensures
        match parse_args_spec(CliKind::Optimize, arg_views(args@)) {
            Ok(a) => r matches Ok(c) && command_holds(Command::Optimize(c), CliKind::Optimize, a),
            Err(e) => r matches Err(m) && m@ == e,
        },
{
    let p = parse_args(CliKind::Optimize, args)?;
    Ok(
        OptimizeCli {
            character: p.character,
            file: p.file,
            builds_file: p.builds_file,
            build: p.build,
            save_build: p.save_build,
            to_file: p.to_file,
            goals: p.goals,
        },
    )
}

/// Parses `scrap-gear` options.
pub fn parse_scrap_gear_args(args: &[String]) -> (r: Result<ScrapGearCli, String>)
    ensures
        match parse_args_spec(CliKind::ScrapGear, arg_views(args@)) {
            Ok(a) => r matches Ok(c) && command_holds(Command::ScrapGear(c), CliKind::ScrapGear, a),
            Err(e) => r matches Err(m) && m@ == e,
        },
{
    let p = parse_args(CliKind::ScrapGear, args)?;
    Ok(ScrapGearCli { character: p.character, file: p.file, builds_file: p.builds_file })
}

/// Parses `base-stats` options.
pub fn parse_base_stats_args(args: &[String]) -> (r: Result<BaseStatsCli, String>)
    ensures
        match parse_args_spec(CliKind::BaseStats, arg_views(args@)) {
            Ok(a) => r matches Ok(c) && command_holds(Command::BaseStats(c), CliKind::BaseStats, a),
            Err(e) => r matches Err(m) && m@ == e,
        },
{
    let p = parse_args(CliKind::BaseStats, args)?;
    Ok(BaseStatsCli { character: p.character, file: p.file })
}

/// Parses `resolve-slots` options.
pub fn parse_resolve_slots_args(args: &[String]) -> (r: Result<ResolveSlotsCli, String>)
    ensures
        match parse_args_spec(CliKind::ResolveSlots, arg_views(args@)) {
            Ok(a) => r matches Ok(c) && command_holds(Command::ResolveSlots(c), CliKind::ResolveSlots, a),
            Err(e) => r matches Err(m) && m@ == e,
        },
{
    let p = parse_args(CliKind::ResolveSlots, args)?;
    Ok(ResolveSlotsCli { character: p.character, force: p.force })
}

/// Parses `build-db` options.
pub fn parse_build_db_args(args: &[String]) -> (r: Result<BuildDbCli, String>)
    ensures
        match parse_args_spec(CliKind::BuildDb, arg_views(args@)) {
            Ok(a) => r matches Ok(c) && command_holds(Command::BuildDb(c), CliKind::BuildDb, a),
            Err(e) => r matches Err(m) && m@ == e,
        },
{
    let p = parse_args(CliKind::BuildDb, args)?;
    Ok(BuildDbCli { items: p.items, out: p.out })
}

fn any_help_token(args: &[String]) -> (r: bool)
    ensures
        r == exists|i: int| 0 <= i < args@.len() && is_help_token(#[trigger] args@[i]@),
{
    let mut k: usize = 0;
    while k < args.len()
        invariant
            k <= args@.len(),
            forall|i: int| 0 <= i < k ==> !is_help_token(#[trigger] args@[i]@),
        decreases args@.len() - k,
    {
        let l = to_ascii_lowercase(args[k].as_str());
        if str_eq(l.as_str(), "--help") || str_eq(l.as_str(), "-h") || str_eq(l.as_str(), "help") {
            assert(is_help_token(args@[k as int]@));
            return true;
        }
        k += 1;
    }
    false
}

/// The arguments after the first.
fn tail_args(args: &[String]) -> (r: Vec<String>)
    requires
        args@.len() > 0,
    ensures
        arg_views(r@) == arg_views(args@.subrange(1, args@.len() as int)),
{
    let mut r: Vec<String> = Vec::new();
    let mut k: usize = 1;
    while k < args.len()
        invariant
            1 <= k <= args@.len(),
            arg_views(r@) == arg_views(args@.subrange(1, k as int)),
        decreases args@.len() - k,
    {
        let ghost old_r = r@;
        r.push(args[k].clone());
        assert(arg_views(r@) =~= arg_views(old_r).push(args@[k as int]@));
        assert(arg_views(args@.subrange(1, k + 1)) =~= arg_views(args@.subrange(1, k as int)).push(args@[k as int]@));
        k += 1;
    }
    r
}

/// Parses a full command line (without the program name). A help token
/// anywhere gives `Help`; otherwise the first argument names the verb.
pub fn parse_command(args: &[String]) -> (r: Result<Command, CliParseError>)
    requires
        args@.len() > 0,
    ensures
        (exists|i: int| 0 <= i < args@.len() && is_help_token(#[trigger] args@[i]@)) ==> r matches Ok(Command::Help),
        !(exists|i: int| 0 <= i < args@.len() && is_help_token(#[trigger] args@[i]@)) ==> {
            let v = ascii_lower(args@[0]@);
            let rest = arg_views(args@.subrange(1, args@.len() as int));
            if is_statlist_verb(v) {
                r matches Ok(Command::StatList)
            } else {
                match verb_kind(v) {
                    None => r matches Err(CliParseError::MissingSubcommand),
                    Some(kind) => match parse_args_spec(kind, rest) {
                        Ok(a) => r matches Ok(c) && command_holds(c, kind, a),
                        Err(e) => r matches Err(CliParseError::Message(m)) && m@ == e,
                    },
                }
            }
        },
{
    if any_help_token(args) {
        return Ok(Command::Help);
    }
    let verb = to_ascii_lowercase(args[0].as_str());
    let rest_vec = tail_args(args);
    let rest = rest_vec.as_slice();
    if str_eq(verb.as_str(), "statlist") || str_eq(verb.as_str(), "--statlist") {
        return Ok(Command::StatList);
    }
    match kind_of_verb(verb.as_str()) {
        None => Err(CliParseError::MissingSubcommand),
        Some(CliKind::Optimize) => match parse_optimize_args(rest) {
            Ok(c) => Ok(Command::Optimize(c)),
            Err(m) => Err(CliParseError::Message(m)),
        },
        Some(CliKind::ScrapGear) => match parse_scrap_gear_args(rest) {
            Ok(c) => Ok(Command::ScrapGear(c)),
            Err(m) => Err(CliParseError::Message(m)),
        },
        Some(CliKind::BaseStats) => match parse_base_stats_args(rest) {
            Ok(c) => Ok(Command::BaseStats(c)),
            Err(m) => Err(CliParseError::Message(m)),
        },
        Some(CliKind::ResolveSlots) => match parse_resolve_slots_args(rest) {
            Ok(c) => Ok(Command::ResolveSlots(c)),
            Err(m) => Err(CliParseError::Message(m)),
        },
        Some(CliKind::BuildDb) => match parse_build_db_args(rest) {
            Ok(c) => Ok(Command::BuildDb(c)),
            Err(m) => Err(CliParseError::Message(m)),
        },
    }
}

// ── Help and stat list ───────────────────────────────────────────────────────

/// The usage text printed for `--help`.
pub open spec fn usage_spec() -> Seq<char> {
    "LGO - Thalya's LOTRO Gear Optimizer\n\nUsage:\n  lgo optimize      [options] <stat:min> [<stat:min> ...]\n  lgo optimize      [options] --build <name>\n  lgo scrap-gear    [options]\n  lgo base-stats    [options]\n  lgo resolve-slots [options]\n  lgo build-db      [options]\n  lgo --statlist\n  lgo --help | -h | help\n\nTop-level commands:\n  --statlist          Print stat abbreviations and full stat names\n\nOptions (optimize):\n  --character <name>  Character name; selects the <name>_Gear folder\n                      (auto-detected when only one exists)\n  --file      <path>  Explicit canonical gear TOML to optimize instead of auto-detect\n  --builds-file <path> Explicit saved-builds TOML path (overrides discovery)\n  --build     <name>  Load saved goals from lgo_<character>_builds.toml\n  --save-build <name> Save these goals to lgo_<character>_builds.toml\n  --to-file            Also write .txt and .html reports for this run\n\n  `--build` may not be combined with positional goals.\n\n  All paths resolve from the install directory (the folder containing lgo.exe).\n  Characters live in <install>\\<CharacterName>_Gear folders; when several\n  exist the most recently updated is chosen and announced. optimize requires\n  data\\base_stat_derivations.json in <install>\\data to derive Base-stat\n  contributions before optimization. If [Virtues] contains any non-empty\n  selections, optimize also resolves them against data\\lgo_virtues.json.\n  By default optimize prints only to the terminal; add --to-file to also write\n  matching .txt and .html reports into <install>\\<CharacterName>_Gear\\\n  <CharacterName>_Reports.\n\nOptions (scrap-gear):\n  --character <name>  Character name; selects the <name>_Gear folder\n                      (auto-detected when only one exists)\n  --file      <path>  Explicit canonical gear TOML whose sibling builds file will be used\n  --builds-file <path> Explicit saved-builds TOML path (overrides discovery)\n\n  scrap-gear reruns optimize once per saved build and lists items not used\n  in any saved build. Save builds with:\n    lgo optimize --save-build <name> <stat:min> [<stat:min> ...]\n\nOptions (base-stats):\n  --character <name>  Character name; selects the <name>_Gear folder\n                      (auto-detected when only one exists)\n  --file      <path>  Explicit canonical gear TOML to read instead of auto-detect\n\n  base-stats prints the five raw innate Base stats from [InnateStats] and the\n  tracked-stat contributions derived from them (already included in optimize\n  totals). It does not run an optimization.\n\nOptions (resolve-slots):\n  --character <name>  Character name; selects or creates the <name>_Gear folder\n                      (auto-detected when only one exists)\n  --force, -f         Prompt per item before overwriting or removing entries\n                      in the canonical gear file. Without --force, existing\n                      entries are preserved on every iteration.\n\n  resolve-slots creates <install>\\<CharacterName>_Gear if needed. A\n  lgo_<character>_gearStats.toml left loose in the install root is moved into\n  its character folder automatically before resolving.\n\nOptions (build-db):\n  --items        <path>  Items XML  (default: <install>\\data\\items.xml)\n  --out          <path>  Output JSON  (default: <install>\\data\\lgo_items.json)\n\nWorkflow:\n  1) Place candidate items in a Shared Storage chest named 'lgo'\n  2) Run /lgo export in-game\n  3) Navigate to https://lotro-wiki.com in your browser\n  4) Click the LGO bookmarklet\n  5) Paste the contents of lgo_<character-name>_gearNames_<timestamp>.plugindata when prompted\n  6) Save the generated lgo_<character>_gearStats.toml into <install>\\<CharacterName>_Gear\n     (or the install root — resolve-slots will move it into the folder)\n  7) Run: lgo resolve-slots   (writes lgo_<character>_gearReady.toml)\n  8) Run: lgo optimize <stat:min> [<stat:min> ...]\n     Optional: add --save-build <name> to save those goals for later\n  9) Run: lgo scrap-gear   (reruns all saved builds and lists items not used\n     in any saved build)\n\nStat goals:\n  Each goal is a stat name and a minimum value, separated by ':'.\n  Goals are listed in priority order.\n  The optimizer first meets higher-priority goals, then gets\n  still-unmet goals as close to target as possible.\n  A minimum of 0 means 'no floor, but maximise as later polish'.\n\n  Examples:\n    lgo optimize TacticalMastery:450000 CriticalRating:350000 Finesse:0\n    lgo optimize tm:450000 cr:350000 fn:0\n    lgo optimize --character Thalya tm:450000 oh:100000\n    lgo optimize --save-build healer oh:200000 cr:350000 ml:0\n    lgo optimize --to-file tm:450000 cr:350000 fn:0\n    lgo optimize --build healer\n    lgo optimize --file path/to/lgo_Thalya_gearReady.toml tm:450000 cr:350000\n    lgo scrap-gear\n    lgo scrap-gear --file path/to/lgo_Thalya_gearReady.toml\n    lgo base-stats\n    lgo base-stats --character Thalya\n    lgo resolve-slots\n    lgo resolve-slots --force\n    lgo build-db\n    lgo build-db --items data/items.xml --out data/lgo_items.json\n"@
}

/// The usage text printed for `--help` (and when no arguments are given).
pub fn usage_text() -> (r: String)
    ensures
        r@ == usage_spec(),
{
    "LGO - Thalya's LOTRO Gear Optimizer\n\nUsage:\n  lgo optimize      [options] <stat:min> [<stat:min> ...]\n  lgo optimize      [options] --build <name>\n  lgo scrap-gear    [options]\n  lgo base-stats    [options]\n  lgo resolve-slots [options]\n  lgo build-db      [options]\n  lgo --statlist\n  lgo --help | -h | help\n\nTop-level commands:\n  --statlist          Print stat abbreviations and full stat names\n\nOptions (optimize):\n  --character <name>  Character name; selects the <name>_Gear folder\n                      (auto-detected when only one exists)\n  --file      <path>  Explicit canonical gear TOML to optimize instead of auto-detect\n  --builds-file <path> Explicit saved-builds TOML path (overrides discovery)\n  --build     <name>  Load saved goals from lgo_<character>_builds.toml\n  --save-build <name> Save these goals to lgo_<character>_builds.toml\n  --to-file            Also write .txt and .html reports for this run\n\n  `--build` may not be combined with positional goals.\n\n  All paths resolve from the install directory (the folder containing lgo.exe).\n  Characters live in <install>\\<CharacterName>_Gear folders; when several\n  exist the most recently updated is chosen and announced. optimize requires\n  data\\base_stat_derivations.json in <install>\\data to derive Base-stat\n  contributions before optimization. If [Virtues] contains any non-empty\n  selections, optimize also resolves them against data\\lgo_virtues.json.\n  By default optimize prints only to the terminal; add --to-file to also write\n  matching .txt and .html reports into <install>\\<CharacterName>_Gear\\\n  <CharacterName>_Reports.\n\nOptions (scrap-gear):\n  --character <name>  Character name; selects the <name>_Gear folder\n                      (auto-detected when only one exists)\n  --file      <path>  Explicit canonical gear TOML whose sibling builds file will be used\n  --builds-file <path> Explicit saved-builds TOML path (overrides discovery)\n\n  scrap-gear reruns optimize once per saved build and lists items not used\n  in any saved build. Save builds with:\n    lgo optimize --save-build <name> <stat:min> [<stat:min> ...]\n\nOptions (base-stats):\n  --character <name>  Character name; selects the <name>_Gear folder\n                      (auto-detected when only one exists)\n  --file      <path>  Explicit canonical gear TOML to read instead of auto-detect\n\n  base-stats prints the five raw innate Base stats from [InnateStats] and the\n  tracked-stat contributions derived from them (already included in optimize\n  totals). It does not run an optimization.\n\nOptions (resolve-slots):\n  --character <name>  Character name; selects or creates the <name>_Gear folder\n                      (auto-detected when only one exists)\n  --force, -f         Prompt per item before overwriting or removing entries\n                      in the canonical gear file. Without --force, existing\n                      entries are preserved on every iteration.\n\n  resolve-slots creates <install>\\<CharacterName>_Gear if needed. A\n  lgo_<character>_gearStats.toml left loose in the install root is moved into\n  its character folder automatically before resolving.\n\nOptions (build-db):\n  --items        <path>  Items XML  (default: <install>\\data\\items.xml)\n  --out          <path>  Output JSON  (default: <install>\\data\\lgo_items.json)\n\nWorkflow:\n  1) Place candidate items in a Shared Storage chest named 'lgo'\n  2) Run /lgo export in-game\n  3) Navigate to https://lotro-wiki.com in your browser\n  4) Click the LGO bookmarklet\n  5) Paste the contents of lgo_<character-name>_gearNames_<timestamp>.plugindata when prompted\n  6) Save the generated lgo_<character>_gearStats.toml into <install>\\<CharacterName>_Gear\n     (or the install root — resolve-slots will move it into the folder)\n  7) Run: lgo resolve-slots   (writes lgo_<character>_gearReady.toml)\n  8) Run: lgo optimize <stat:min> [<stat:min> ...]\n     Optional: add --save-build <name> to save those goals for later\n  9) Run: lgo scrap-gear   (reruns all saved builds and lists items not used\n     in any saved build)\n\nStat goals:\n  Each goal is a stat name and a minimum value, separated by ':'.\n  Goals are listed in priority order.\n  The optimizer first meets higher-priority goals, then gets\n  still-unmet goals as close to target as possible.\n  A minimum of 0 means 'no floor, but maximise as later polish'.\n\n  Examples:\n    lgo optimize TacticalMastery:450000 CriticalRating:350000 Finesse:0\n    lgo optimize tm:450000 cr:350000 fn:0\n    lgo optimize --character Thalya tm:450000 oh:100000\n    lgo optimize --save-build healer oh:200000 cr:350000 ml:0\n    lgo optimize --to-file tm:450000 cr:350000 fn:0\n    lgo optimize --build healer\n    lgo optimize --file path/to/lgo_Thalya_gearReady.toml tm:450000 cr:350000\n    lgo scrap-gear\n    lgo scrap-gear --file path/to/lgo_Thalya_gearReady.toml\n    lgo base-stats\n    lgo base-stats --character Thalya\n    lgo resolve-slots\n    lgo resolve-slots --force\n    lgo build-db\n    lgo build-db --items data/items.xml --out data/lgo_items.json\n".to_owned()
}

/// One stat-list row per tracked stat, for the first `n`.
pub open spec fn stat_list_rows(n: int) -> Seq<char>
    decreases n,
{
    if n <= 0 {
        Seq::empty()
    } else {
        let st = tracked_stats_spec()[n - 1];
        stat_list_rows(n - 1) + "     "@ + pad_right_spec(abbreviation_spec(st).unwrap(), 12) + "  "@ + display_name_spec(st)
            + "\n"@
    }
}

/// The `--statlist` table: abbreviation and full name of every tracked stat.
pub open spec fn stat_list_spec() -> Seq<char> {
    pad_right_spec("Stat Abbreviation"@, 17) + "  Stat Name\n"@ + pad_right_spec("-----------------"@, 17)
        + "  ------------------\n"@ + stat_list_rows(16)
}

/// The `--statlist` table.
pub fn format_stat_list() -> (r: String)
    ensures
        r@ == stat_list_spec(),
{
    let stats = tracked_stats();
    let mut rows = String::new();
    let mut k: usize = 0;
    while k < stats.len()
        invariant
            stats@ == tracked_stats_spec(),
            k <= stats@.len(),
            rows@ == stat_list_rows(k as int),
        decreases stats@.len() - k,
    {
        let st = stats[k];
        assert(abbreviation_spec(st) is Some);
        let abbreviation = abbreviation_for(st).unwrap();
        let abbr_col = pad_right(abbreviation, 12);
        rows.append("     ");
        rows.append(abbr_col.as_str());
        rows.append("  ");
        rows.append(st.display_name());
        rows.append("\n");
        k += 1;
    }
    let head = pad_right("Stat Abbreviation", 17);
    let rule = pad_right("-----------------", 17);
    let mut out = head;
    out.append("  Stat Name\n");
    out.append(rule.as_str());
    out.append("  ------------------\n");
    out.append(rows.as_str());
    out
}

// ── Report routing ───────────────────────────────────────────────────────────

/// The file name begins with `lgo_` and ends with `_gearready.toml`, ignoring
/// ASCII case.
pub open spec fn has_canonical_affixes(file_name: Seq<char>) -> bool {
    let lower = ascii_lower(file_name);
    &&& lower.len() >= 15
    &&& lower.subrange(0, 4) == "lgo_"@
    &&& lower.subrange(lower.len() - 15, lower.len() as int) == "_gearready.toml"@
}

/// The `<character>` of a canonical `lgo_<character>_gearReady.toml` file
/// name: the text between the prefix and the suffix.
pub open spec fn canonical_character_segment(file_name: Seq<char>) -> Option<Seq<char>> {
    if has_canonical_affixes(file_name) {
        Some(file_name.subrange(4, file_name.len() - 15))
    } else {
        None
    }
}

/// The `<character>` segment of a canonical gear file name. (The one name
/// whose prefix and suffix overlap, `lgo_gearready.toml`, is left out.)
pub fn extract_character_segment_from_canonical_gear_filename(file_name: &str) -> (r: Option<String>)
    requires
        !(has_canonical_affixes(file_name@) && file_name@.len() < 19),
    ensures
        opt_view(r) == canonical_character_segment(file_name@),
{
    let lower = to_ascii_lowercase(file_name);
    let n = file_name.unicode_len();
    proof {
        reveal_strlit("lgo_");
        reveal_strlit("_gearready.toml");
    }
    if n < 15 || !crate::text::starts_with(lower.as_str(), "lgo_") || !crate::text::ends_with(lower.as_str(), "_gearready.toml") {
        return None;
    }
    Some(crate::text::substring(file_name, 4, n - 15))
}

/// The character reports are routed to: the gear file's `character`
/// field, else the `--character` option, else the discovered folder's
/// character, else `Unknown`.
pub open spec fn report_character_spec(
    gear_doc_character: Option<Seq<char>>,
    cli_character: Option<Seq<char>>,
    auto_discovered: Option<Seq<char>>,
) -> Seq<char> {
    match gear_doc_character {
        Some(c) => c,
        None => match cli_character {
            Some(c) => c,
            None => match auto_discovered {
                Some(c) => c,
                None => "Unknown"@,
            },
        },
    }
}

/// The character reports are routed to.
pub fn resolve_report_character(
    gear_doc_character: Option<String>,
    cli_character: Option<&str>,
    auto_discovered_character: Option<String>,
) -> (r: String)
    ensures
        r@ == report_character_spec(
            opt_view(gear_doc_character),
            match cli_character {
                Some(c) => Some(c@),
                None => None,
            },
            opt_view(auto_discovered_character),
        ),
{
    match gear_doc_character {
        Some(c) => c,
        None => match cli_character {
            Some(c) => c.to_owned(),
            None => match auto_discovered_character {
                Some(c) => c,
                None => "Unknown".to_owned(),
            },
        },
    }
}

} // verus!
