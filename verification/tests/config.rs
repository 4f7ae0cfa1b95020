use lof::config::{
    config_from_overrides, id_to_system, map_giving_clause_fn, map_log_level, map_selection_fn, map_type_system, Config,
    ConfigOverrides, GivingClause, LogLevel, SelectionFunction, TypeSystem,
};
use lof::error::LofError;

fn overrides(system: Option<&str>, log_level: Option<&str>, selection: Option<&str>, giving: Option<&str>) -> ConfigOverrides {
    ConfigOverrides {
        system: system.map(str::to_string),
        log_level: log_level.map(str::to_string),
        selection_fn: selection.map(str::to_string),
        giving_clause_fn: giving.map(str::to_string),
    }
}

#[test]
fn test_defaults() {
    let config = Config::default();
    assert_eq!(config.system, TypeSystem::Cic);
    assert_eq!(config.log_level, LogLevel::Info);
    assert_eq!(config.selection_fn, SelectionFunction::Maximal);
    assert_eq!(config.giving_clause_fn, GivingClause::Weighted);
    assert_eq!(Config::new(TypeSystem::Fol).system, TypeSystem::Fol);
    assert_eq!(Config::new(TypeSystem::Fol).giving_clause_fn, GivingClause::Weighted);
}

#[test]
fn test_mapping_values() {
    assert_eq!(map_type_system("fol"), Ok(TypeSystem::Fol));
    assert_eq!(id_to_system("cic"), Ok(TypeSystem::Cic));
    assert!(map_type_system("CIC").is_err(), "type system names are case sensitive");
    assert_eq!(map_log_level("WaRn"), Ok(LogLevel::Warn));
    assert_eq!(map_log_level("trace"), Ok(LogLevel::Trace));
    assert_eq!(map_selection_fn("ALL"), Ok(SelectionFunction::All));
    assert_eq!(map_giving_clause_fn("Fifo"), Ok(GivingClause::Fifo));
}

#[test]
fn test_invalid_values_name_the_field() {
    let err = map_log_level("loud").unwrap_err();
    assert_eq!(
        err.message(),
        "Invalid value 'loud' for config field 'log_level'. Must be one of: info, error, debug, trace, warn"
    );
    let err = map_type_system("hol").unwrap_err();
    assert_eq!(err.message(), "Invalid value 'hol' for config field 'system'. Must be one of: cic, fol");
    assert!(matches!(map_selection_fn("some"), Err(LofError::InvalidConfigValue { .. })));
    assert!(matches!(map_giving_clause_fn("lifo"), Err(LofError::InvalidConfigValue { .. })));
}

#[test]
fn test_config_from_overrides() {
    let config = config_from_overrides(&overrides(Some("fol"), Some("DEBUG"), None, Some("fifo"))).unwrap();
    assert_eq!(config.system, TypeSystem::Fol);
    assert_eq!(config.log_level, LogLevel::Debug);
    assert_eq!(config.selection_fn, SelectionFunction::Maximal);
    assert_eq!(config.giving_clause_fn, GivingClause::Fifo);

    // an empty system keeps the default
    let config = config_from_overrides(&overrides(Some(""), None, None, None)).unwrap();
    assert_eq!(config.system, TypeSystem::Cic);

    // the first invalid field is reported
    let err = config_from_overrides(&overrides(Some("cic"), Some("loud"), Some("bad"), None)).unwrap_err();
    assert!(err.message().contains("'log_level'"));
}
