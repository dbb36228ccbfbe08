//! The application's settings: where Dota 2 is installed and how much to log.
use vstd::prelude::*;
use vstd::string::*;
use crate::dotatypes::{clone_opt, opt_view};

verus! {

/// The logger level used when the configuration names none.
pub open spec fn default_logger_level() -> Seq<char> {
    seq!['I', 'N', 'F', 'O']
}

/// The logger level a fresh configuration starts with: `INFO`.
pub fn default_logger() -> (r: String)
    ensures
        r@ == default_logger_level(),
{
    let s = String::from_str("INFO");
    proof {
        reveal_strlit("INFO");
        assert(s@ =~= default_logger_level());
    }
    s
}

/// The model of the settings.
pub struct ConfigModel {
    pub dota_directory: Option<Seq<char>>,
    pub logger_lvl: Seq<char>,
}

/// The settings: the Dota 2 directory, if known, and the logger level.
pub struct Config {
    pub dota_directory: Option<String>,
    pub logger_lvl: String,
}

impl View for Config {
    type V = ConfigModel;

    open spec fn view(&self) -> ConfigModel {
        ConfigModel { dota_directory: opt_view(self.dota_directory), logger_lvl: self.logger_lvl@ }
    }
}

impl Default for Config {
    fn default() -> (r: Self)
        ensures
            r@ == (ConfigModel { dota_directory: None, logger_lvl: default_logger_level() }),
    {
        Config { dota_directory: None, logger_lvl: default_logger() }
    }
}

impl Clone for Config {
    fn clone(&self) -> (r: Self)
        ensures
            r@ == self@,
    {
        Config {
            dota_directory: clone_opt(&self.dota_directory),
            logger_lvl: self.logger_lvl.clone(),
        }
    }
}

/// Where the localization archive lies below the Dota 2 directory.
pub open spec fn vpk_suffix() -> Seq<char> {
    "/game/dota_russian/pak01_dir.vpk"@
}

/// The path of the localization archive inside a Dota 2 directory.
pub open spec fn vpk_path_of(dir: Seq<char>) -> Seq<char> {
    dir + vpk_suffix()
}

impl Config {
    /// The localization archive of the configured Dota 2 directory, if one is set.
    pub fn vpk_path(&self) -> (r: Option<String>)
        ensures
            opt_view(r) == match self@.dota_directory {
                Some(d) => Some(vpk_path_of(d)),
                None => None,
            },
    {
        match &self.dota_directory {
            Some(dir) => {
                let mut s = dir.clone();
                s.append("/game/dota_russian/pak01_dir.vpk");
                Some(s)
            },
            None => None,
        }
    }
}

/// `base` joined with the relative path `part`, the way `Path::join` does it
/// with `/` as the separator: a `/` goes between them unless `base` is empty
/// or already ends with one.
pub open spec fn join_path(base: Seq<char>, part: Seq<char>) -> Seq<char> {
    if base.len() == 0 || base.last() == '/' {
        base + part
    } else {
        base + seq!['/'] + part
    }
}

/// The application's own directory inside the user's configuration
/// directory, or inside `.` when there is none.
pub open spec fn app_dir_of(config_dir: Option<Seq<char>>) -> Seq<char> {
    join_path(
        match config_dir {
            Some(d) => d,
            None => seq!['.'],
        },
        "dota-localization-changer"@,
    )
}

/// Where the settings file lies.
pub open spec fn config_path_of(config_dir: Option<Seq<char>>) -> Seq<char> {
    join_path(app_dir_of(config_dir), "config.json"@)
}

/// Where the log file lies.
pub open spec fn log_path_of(config_dir: Option<Seq<char>>) -> Seq<char> {
    join_path(join_path(app_dir_of(config_dir), "logs"@), "app.log"@)
}

/// `base` joined with the relative path `part`.
fn join_path_exec(base: String, part: &str) -> (r: String)
    ensures
        r@ == join_path(base@, part@),
{
    let cs = crate::text::to_chars(base.as_str());
    let mut r = base;
    if cs.len() > 0 && cs[cs.len() - 1] != '/' {
        crate::text::push_char(&mut r, '/');
    }
    r.append(part);
    r
}

/// The application's own directory, given the user's configuration directory.
fn app_dir_in(config_dir: Option<String>) -> (r: String)
    ensures
        r@ == app_dir_of(opt_view(config_dir)),
{
    let base = match config_dir {
        Some(d) => d,
        None => {
            let dot = String::from_str(".");
            proof {
                reveal_strlit(".");
                assert(dot@ =~= seq!['.']);
            }
            dot
        },
    };
    join_path_exec(base, "dota-localization-changer")
}

/// The settings file, given the user's configuration directory, if any.
pub fn config_path_in(config_dir: Option<String>) -> (r: String)
    ensures
        r@ == config_path_of(opt_view(config_dir)),
{
    join_path_exec(app_dir_in(config_dir), "config.json")
}

/// The log file, given the user's configuration directory, if any.
pub fn log_path_in(config_dir: Option<String>) -> (r: String)
    ensures
        r@ == log_path_of(opt_view(config_dir)),
{
    join_path_exec(join_path_exec(app_dir_in(config_dir), "logs"), "app.log")
}

/// How much the application logs, from nothing to everything.
#[derive(Clone, Copy, Debug, PartialEq, Eq, Structural)]
pub enum LogLevel {
    Off,
    Error,
    Warn,
    Info,
    Debug,
    Trace,
}

/// The name of a level, as the logging crate spells it.
pub open spec fn level_name(l: LogLevel) -> Seq<char> {
    match l {
        LogLevel::Off => seq!['O', 'F', 'F'],
        LogLevel::Error => seq!['E', 'R', 'R', 'O', 'R'],
        LogLevel::Warn => seq!['W', 'A', 'R', 'N'],
        LogLevel::Info => seq!['I', 'N', 'F', 'O'],
        LogLevel::Debug => seq!['D', 'E', 'B', 'U', 'G'],
        LogLevel::Trace => seq!['T', 'R', 'A', 'C', 'E'],
    }
}

/// `c` with an ASCII capital letter made small.
pub open spec fn ascii_lower(c: char) -> char {
    if 'A' <= c <= 'Z' {
        ((c as u32) + 32) as char
    } else {
        c
    }
}

/// `a` and `b` are equal when ASCII letters are compared without case.
pub open spec fn eq_ignore_ascii_case(a: Seq<char>, b: Seq<char>) -> bool {
    a.len() == b.len() && forall|i: int| 0 <= i < a.len() ==> ascii_lower(#[trigger] a[i]) == ascii_lower(b[i])
}

/// The level that `s` names, case aside, if it names one.
pub open spec fn parsed_level(s: Seq<char>) -> Option<LogLevel> {
    if eq_ignore_ascii_case(level_name(LogLevel::Off), s) {
        Some(LogLevel::Off)
    } else if eq_ignore_ascii_case(level_name(LogLevel::Error), s) {
        Some(LogLevel::Error)
    } else if eq_ignore_ascii_case(level_name(LogLevel::Warn), s) {
        Some(LogLevel::Warn)
    } else if eq_ignore_ascii_case(level_name(LogLevel::Info), s) {
        Some(LogLevel::Info)
    } else if eq_ignore_ascii_case(level_name(LogLevel::Debug), s) {
        Some(LogLevel::Debug)
    } else if eq_ignore_ascii_case(level_name(LogLevel::Trace), s) {
        Some(LogLevel::Trace)
    } else {
        None
    }
}

/// Parses a level filter with `log::LevelFilter`'s `FromStr`, which compares
/// `s` without ASCII case against `OFF`, `ERROR`, `WARN`, `INFO`, `DEBUG` and
/// `TRACE`, in that order; the contract claims exactly that.
#[verifier::external_body]
fn parse_level_filter(s: &str) -> (r: Option<LogLevel>)
    ensures
        r == parsed_level(s@),
{
    match s.parse::<log::LevelFilter>() {
        Ok(log::LevelFilter::Off) => Some(LogLevel::Off),
        Ok(log::LevelFilter::Error) => Some(LogLevel::Error),
        Ok(log::LevelFilter::Warn) => Some(LogLevel::Warn),
        Ok(log::LevelFilter::Info) => Some(LogLevel::Info),
        Ok(log::LevelFilter::Debug) => Some(LogLevel::Debug),
        Ok(log::LevelFilter::Trace) => Some(LogLevel::Trace),
        Err(_) => None,
    }
}

/// The level the logger runs at for a configured level name: the level it
/// names, or `Info` when it names none.
pub fn logger_level(level: &str) -> (r: LogLevel)
    ensures
        r == match parsed_level(level@) {
            Some(l) => l,
            None => LogLevel::Info,
        },
{
    match parse_level_filter(level) {
        Some(l) => l,
        None => LogLevel::Info,
    }
}

} // verus!
