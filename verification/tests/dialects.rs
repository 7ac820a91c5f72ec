use models_parser::dialect::{
    Dialect as ParserDialect, GenericDialect, MsSqlDialect, MySqlDialect, PostgreSqlDialect,
    SQLiteDialect,
};
use sql_from_models::dialect::{Dialect, dialect_of_scheme};

#[test]
fn requires_move_only_for_limited_alter_dialects() {
    assert!(Dialect::SQLite.requires_move());
    assert!(Dialect::Any.requires_move());
    assert!(!Dialect::PostgreSQL.requires_move());
    assert!(!Dialect::MySQL.requires_move());
    assert!(!Dialect::MsSQL.requires_move());
}

#[test]
fn only_sqlite_lacks_cascade() {
    assert!(!Dialect::SQLite.supports_cascade());
    assert!(Dialect::PostgreSQL.supports_cascade());
    assert!(Dialect::MySQL.supports_cascade());
    assert!(Dialect::MsSQL.supports_cascade());
    assert!(Dialect::Any.supports_cascade());
}

#[test]
fn only_postgres_defaults_constraint_names() {
    assert!(Dialect::PostgreSQL._has_default_constr_name());
    assert!(!Dialect::SQLite._has_default_constr_name());
    assert!(!Dialect::MySQL._has_default_constr_name());
    assert!(!Dialect::MsSQL._has_default_constr_name());
    assert!(!Dialect::Any._has_default_constr_name());
}

#[test]
fn schemes_select_dialects() {
    assert_eq!(dialect_of_scheme("sqlite"), Dialect::SQLite);
    assert_eq!(dialect_of_scheme("postgres"), Dialect::PostgreSQL);
    assert_eq!(dialect_of_scheme("mysql"), Dialect::MySQL);
    assert_eq!(dialect_of_scheme("mssql"), Dialect::MsSQL);
    assert_eq!(dialect_of_scheme("oracle"), Dialect::Any);
    assert_eq!(dialect_of_scheme(""), Dialect::Any);
}

fn check_against<P: ParserDialect>(ours: Dialect, theirs: P) {
    let mut probes: Vec<char> = (0u32..256).filter_map(char::from_u32).collect();
    probes.extend(['\u{7f}', '\u{80}', '\u{100}', '\u{ffff}', '\u{10000}', '€', 'é']);
    for c in probes {
        assert_eq!(
            ours.is_delimited_identifier_start(c),
            theirs.is_delimited_identifier_start(c),
            "delimited start differs at {:?} for {:?}",
            c,
            ours
        );
        assert_eq!(
            ours.is_identifier_start(c),
            theirs.is_identifier_start(c),
            "identifier start differs at {:?} for {:?}",
            c,
            ours
        );
        assert_eq!(
            ours.is_identifier_part(c),
            theirs.is_identifier_part(c),
            "identifier part differs at {:?} for {:?}",
            c,
            ours
        );
    }
}

#[test]
fn lexing_rules_match_the_parser() {
    check_against(Dialect::SQLite, SQLiteDialect {});
    check_against(Dialect::PostgreSQL, PostgreSqlDialect {});
    check_against(Dialect::MySQL, MySqlDialect {});
    check_against(Dialect::MsSQL, MsSqlDialect {});
    check_against(Dialect::Any, GenericDialect {});
}
