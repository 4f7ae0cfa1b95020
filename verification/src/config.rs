use vstd::prelude::*;
use vstd::string::*;
use crate::error::LofError;
use crate::text::{str_chars, str_eq};

verus! {

/// The type system a program is checked and run in.
#[derive(Debug, Clone, Copy, PartialEq, Eq, Structural)]
pub enum TypeSystem {
    Cic,
    Fol,
}

/// Literal selection function of the saturation prover.
#[derive(Debug, Clone, Copy, PartialEq, Eq, Structural)]
pub enum SelectionFunction {
    Maximal,
    All,
}

/// Strategy picking the next given clause of the saturation prover.
#[derive(Debug, Clone, Copy, PartialEq, Eq, Structural)]
pub enum GivingClause {
    Fifo,
    Weighted,
}

/// Verbosity of the program's log.
#[derive(Debug, Clone, Copy, PartialEq, Eq, Structural)]
pub enum LogLevel {
    Error,
    Warn,
    Info,
    Debug,
    Trace,
}

/// Configuration of a run.
#[derive(Debug, Clone, Copy, PartialEq, Eq, Structural)]
pub struct Config {
    pub system: TypeSystem,
    pub log_level: LogLevel,
    pub selection_fn: SelectionFunction,
    pub giving_clause_fn: GivingClause,
}

/// The configuration used when nothing is overridden.
pub open spec fn spec_default_config() -> Config {
    Config {
        system: TypeSystem::Cic,
        log_level: LogLevel::Info,
        selection_fn: SelectionFunction::Maximal,
        giving_clause_fn: GivingClause::Weighted,
    }
}

impl Default for Config {
    fn default() -> (r: Self)
        ensures
            r == spec_default_config(),
    {
        Config {
            system: TypeSystem::Cic,
            log_level: LogLevel::Info,
            selection_fn: SelectionFunction::Maximal,
            giving_clause_fn: GivingClause::Weighted,
        }
    }
}

impl Config {
    /// The default configuration for the given type system.
    pub fn new(type_system: TypeSystem) -> (r: Self)
        ensures
            r == (Config { system: type_system, ..spec_default_config() }),
    {
        Config {
            system: type_system,
            log_level: LogLevel::Info,
            selection_fn: SelectionFunction::Maximal,
            giving_clause_fn: GivingClause::Weighted,
        }
    }
}

/// The lowercase of an ASCII letter, any other character unchanged.
pub open spec fn ascii_lower(c: char) -> char {
    if 'A' <= c && c <= 'Z' { ((c as u8) + 32u8) as char } else { c }
}

/// `s`, lowercased, is the lowercase ASCII word `word` (for words without a
/// `k` this is exactly comparing the Unicode lowercase of `s` with `word`).
pub open spec fn lower_is(s: Seq<char>, word: Seq<char>) -> bool {
    s.len() == word.len() && forall|i: int| 0 <= i < s.len() ==> ascii_lower(#[trigger] s[i]) == word[i]
}

fn lower_char(c: char) -> (r: char)
    ensures
        r == ascii_lower(c),
{
    if 'A' <= c && c <= 'Z' {
        ((c as u8) + 32u8) as char
    } else {
        c
    }
}

/// Case-insensitive comparison of `s` with the lowercase word `word`.
fn lower_eq(s: &Vec<char>, word: &str) -> (r: bool)
    ensures
        r == lower_is(s@, word@),
{
    let w = str_chars(word);
    if s.len() != w.len() {
        return false;
    }
    let mut i: usize = 0;
    while i < s.len()
        invariant
            w@ == word@,
            s@.len() == w@.len(),
            i <= s@.len(),
            forall|j: int| 0 <= j < i ==> ascii_lower(#[trigger] s@[j]) == word@[j],
        decreases s@.len() - i,
    {
        if lower_char(s[i]) != w[i] {
            return false;
        }
        i = i + 1;
    }
    true
}

pub open spec fn spec_map_type_system(system: Seq<char>) -> Option<TypeSystem> {
    if system == "cic"@ {
        Some(TypeSystem::Cic)
    } else if system == "fol"@ {
        Some(TypeSystem::Fol)
    } else {
        None
    }
}

/// Maps a type system identifier to the type system.
pub fn id_to_system(system_id: &str) -> (r: Result<TypeSystem, LofError>)
    ensures
        spec_map_type_system(system_id@) matches Some(s) ==> r == Ok::<TypeSystem, LofError>(s),
        spec_map_type_system(system_id@) is None ==> (r matches Err(e) && e.is_invalid_config_value("system"@, system_id@, "cic, fol"@)),
{
    map_type_system(system_id)
}

/// Maps the `system` field of a configuration to the type system.
pub fn map_type_system(system: &str) -> (r: Result<TypeSystem, LofError>)
    ensures
        spec_map_type_system(system@) matches Some(s) ==> r == Ok::<TypeSystem, LofError>(s),
        spec_map_type_system(system@) is None ==> (r matches Err(e) && e.is_invalid_config_value("system"@, system@, "cic, fol"@)),
{
    proof {
        reveal_strlit("cic");
        reveal_strlit("fol");
    }
    if str_eq(system, "cic") {
        Ok(TypeSystem::Cic)
    } else if str_eq(system, "fol") {
        Ok(TypeSystem::Fol)
    } else {
        Err(LofError::invalid_config_value("system", system, "cic, fol"))
    }
}

pub open spec fn spec_map_log_level(level: Seq<char>) -> Option<LogLevel> {
    if lower_is(level, "info"@) {
        Some(LogLevel::Info)
    } else if lower_is(level, "error"@) {
        Some(LogLevel::Error)
    } else if lower_is(level, "debug"@) {
        Some(LogLevel::Debug)
    } else if lower_is(level, "trace"@) {
        Some(LogLevel::Trace)
    } else if lower_is(level, "warn"@) {
        Some(LogLevel::Warn)
    } else {
        None
    }
}

/// Maps the `log_level` field of a configuration, case-insensitively, to a log level.
pub fn map_log_level(log_level: &str) -> (r: Result<LogLevel, LofError>)
    ensures
        spec_map_log_level(log_level@) matches Some(l) ==> r == Ok::<LogLevel, LofError>(l),
        spec_map_log_level(log_level@) is None ==> (r matches Err(e) && e.is_invalid_config_value("log_level"@, log_level@, "info, error, debug, trace, warn"@)),
{
    let s = str_chars(log_level);
    if lower_eq(&s, "info") {
        Ok(LogLevel::Info)
    } else if lower_eq(&s, "error") {
        Ok(LogLevel::Error)
    } else if lower_eq(&s, "debug") {
        Ok(LogLevel::Debug)
    } else if lower_eq(&s, "trace") {
        Ok(LogLevel::Trace)
    } else if lower_eq(&s, "warn") {
        Ok(LogLevel::Warn)
    } else {
        Err(LofError::invalid_config_value("log_level", log_level, "info, error, debug, trace, warn"))
    }
}

pub open spec fn spec_map_selection_fn(s: Seq<char>) -> Option<SelectionFunction> {
    if lower_is(s, "maximal"@) {
        Some(SelectionFunction::Maximal)
    } else if lower_is(s, "all"@) {
        Some(SelectionFunction::All)
    } else {
        None
    }
}

/// Maps the `selection_fn` field of a configuration, case-insensitively, to a selection function.
pub fn map_selection_fn(selection_fn: &str) -> (r: Result<SelectionFunction, LofError>)
    ensures
        spec_map_selection_fn(selection_fn@) matches Some(l) ==> r == Ok::<SelectionFunction, LofError>(l),
        spec_map_selection_fn(selection_fn@) is None ==> (r matches Err(e) && e.is_invalid_config_value("selection_fn"@, selection_fn@, "maximal, all"@)),
{
    let s = str_chars(selection_fn);
    if lower_eq(&s, "maximal") {
        Ok(SelectionFunction::Maximal)
    } else if lower_eq(&s, "all") {
        Ok(SelectionFunction::All)
    } else {
        Err(LofError::invalid_config_value("selection_fn", selection_fn, "maximal, all"))
    }
}

pub open spec fn spec_map_giving_clause_fn(s: Seq<char>) -> Option<GivingClause> {
    if lower_is(s, "fifo"@) {
        Some(GivingClause::Fifo)
    } else if lower_is(s, "weighted"@) {
        Some(GivingClause::Weighted)
    } else {
        None
    }
}

/// Maps the `giving_clause_fn` field of a configuration, case-insensitively, to a strategy.
pub fn map_giving_clause_fn(giving_clause_fn: &str) -> (r: Result<GivingClause, LofError>)
    ensures
        spec_map_giving_clause_fn(giving_clause_fn@) matches Some(l) ==> r == Ok::<GivingClause, LofError>(l),
        spec_map_giving_clause_fn(giving_clause_fn@) is None ==> (r matches Err(e) && e.is_invalid_config_value("giving_clause_fn"@, giving_clause_fn@, "fifo, weighted"@)),
{
    let s = str_chars(giving_clause_fn);
    if lower_eq(&s, "fifo") {
        Ok(GivingClause::Fifo)
    } else if lower_eq(&s, "weighted") {
        Ok(GivingClause::Weighted)
    } else {
        Err(LofError::invalid_config_value("giving_clause_fn", giving_clause_fn, "fifo, weighted"))
    }
}

/// The values a configuration file gives, as text, for the fields it sets.
#[derive(Debug, Clone, PartialEq, Eq, Default)]
pub struct ConfigOverrides {
    pub system: Option<String>,
    pub log_level: Option<String>,
    pub selection_fn: Option<String>,
    pub giving_clause_fn: Option<String>,
}

/// The configuration the overrides give, or the first field, in the order
/// system, log level, selection function, giving clause, whose value is not
/// allowed. An empty `system` keeps the default.
pub open spec fn spec_config_from_overrides(
    system: Option<Seq<char>>,
    log_level: Option<Seq<char>>,
    selection_fn: Option<Seq<char>>,
    giving_clause_fn: Option<Seq<char>>,
) -> Result<Config, Seq<char>> {
    let d = spec_default_config();
    let sys = match system {
        Some(s) => if s.len() == 0 { Ok(d.system) } else {
            match spec_map_type_system(s) {
                Some(t) => Ok(t),
                None => Err("system"@),
            }
        },
        None => Ok(d.system),
    };
    let level = match log_level {
        Some(s) => match spec_map_log_level(s) {
            Some(l) => Ok(l),
            None => Err("log_level"@),
        },
        None => Ok(d.log_level),
    };
    let selection = match selection_fn {
        Some(s) => match spec_map_selection_fn(s) {
            Some(l) => Ok(l),
            None => Err("selection_fn"@),
        },
        None => Ok(d.selection_fn),
    };
    let giving = match giving_clause_fn {
        Some(s) => match spec_map_giving_clause_fn(s) {
            Some(l) => Ok(l),
            None => Err("giving_clause_fn"@),
        },
        None => Ok(d.giving_clause_fn),
    };
    match (sys, level, selection, giving) {
        (Err(f), _, _, _) => Err(f),
        (Ok(_), Err(f), _, _) => Err(f),
        (Ok(_), Ok(_), Err(f), _) => Err(f),
        (Ok(_), Ok(_), Ok(_), Err(f)) => Err(f),
        (Ok(a), Ok(b), Ok(c), Ok(e)) => Ok(Config { system: a, log_level: b, selection_fn: c, giving_clause_fn: e }),
    }
}

/// The model of an optional text.
pub open spec fn view_opt_string(o: Option<String>) -> Option<Seq<char>> {
    match o {
        Some(s) => Some(s@),
        None => None,
    }
}

/// The configuration that `overrides` give over the defaults; the first
/// field whose value is not allowed is reported as an invalid value.
pub fn config_from_overrides(overrides: &ConfigOverrides) -> (r: Result<Config, LofError>)
    ensures
        match spec_config_from_overrides(
            view_opt_string(overrides.system),
            view_opt_string(overrides.log_level),
            view_opt_string(overrides.selection_fn),
            view_opt_string(overrides.giving_clause_fn),
        ) {
            Ok(c) => r == Ok::<Config, LofError>(c),
            Err(field) => r matches Err(LofError::InvalidConfigValue { field: f, .. }) && f@ == field,
        },
{
    let mut config = Config::default();
    if let Some(system) = &overrides.system {
        if system.as_str().unicode_len() != 0 {
            config.system = map_type_system(system.as_str())?;
        }
    }
    if let Some(level) = &overrides.log_level {
        config.log_level = map_log_level(level.as_str())?;
    }
    if let Some(selection) = &overrides.selection_fn {
        config.selection_fn = map_selection_fn(selection.as_str())?;
    }
    if let Some(giving) = &overrides.giving_clause_fn {
        config.giving_clause_fn = map_giving_clause_fn(giving.as_str())?;
    }
    Ok(config)
}

} // verus!
