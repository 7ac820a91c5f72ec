use sql_from_models::constraint::{Constraint, Constraints, ForeignKey, NamedConstraint, Unique, is_valid};
use sql_from_models::dialect::Dialect;
use sql_from_models::eq::table_eq;
use sql_from_models::error::Error;
use sql_from_models::literal::DefaultExpr;
use sql_from_models::table::{Column, ColumnOption, DataType, Table};
use sql_from_models::types::{BigSerial, IntoSQL, Json};

#[test]
fn derived_names_are_lower_cased() {
    let nc = NamedConstraint {
        name: String::new(),
        field_name: "ID".to_string(),
        constr: Constraint::Primary(Unique::new()),
    };
    let cols: Vec<String> = Vec::new();
    assert_eq!(nc.constr_name("Profile", &cols, "primary"), "profile_primary_id");
    let extra = vec!["Email".to_string(), "Phone".to_string()];
    assert_eq!(
        nc.constr_name("User", &extra, "unique"),
        "user_unique_id_email_phone"
    );
}

#[test]
fn foreign_key_clause_carries_actions() {
    let fk = ForeignKey::new(
        "author",
        "id",
        Some("cascade".to_string()),
        Some("set null".to_string()),
    )
    .unwrap();
    let clause = fk.into_tokens("book_foreign_author_id", "author");
    assert_eq!(
        clause,
        "CONSTRAINT book_foreign_author_id FOREIGN KEY (author) REFERENCES author (id) \
         ON DELETE CASCADE ON UPDATE SET NULL"
    );
}

#[test]
fn named_constraint_renders_with_derived_name() {
    let nc = NamedConstraint {
        name: String::new(),
        field_name: "id".to_string(),
        constr: Constraint::Primary(Unique::new()),
    };
    assert_eq!(
        nc.into_tokens("profile"),
        "CONSTRAINT profile_primary_id PRIMARY KEY (id)"
    );
    let nc2 = NamedConstraint {
        name: String::new(),
        field_name: "email".to_string(),
        constr: Constraint::Unique(Unique::with_columns(vec!["tenant".to_string()])),
    };
    assert_eq!(
        nc2.into_tokens("account"),
        "CONSTRAINT account_unique_email_tenant UNIQUE (email, tenant)"
    );
}

#[test]
fn constraint_columns_and_method() {
    let u = Constraint::Unique(Unique::with_columns(vec!["a".to_string()]));
    assert_eq!(u.column_names(), vec!["a".to_string()]);
    assert_eq!(u.method(), "unique");
    let p = Constraint::Primary(Unique::new());
    assert!(p.column_names().is_empty());
    assert_eq!(p.method(), "primary");
    let f = Constraint::ForeignKey(ForeignKey::new("t", "c", None, None).unwrap());
    assert_eq!(f.column_names(), vec!["c".to_string()]);
    assert_eq!(f.method(), "foreign_key");
}

#[test]
fn referential_actions_are_checked() {
    for good in ["cascade", "set null", "restrict", "no action"] {
        assert!(is_valid(&Some(good.to_string())).is_ok());
    }
    assert!(is_valid(&None).is_ok());
    let err = is_valid(&Some("explode".to_string())).unwrap_err();
    assert_eq!(err.kind(), "error");
    assert!(err.message().contains("explode"));
    assert!(ForeignKey::new("t", "c", Some("explode".to_string()), None).is_err());
}

#[test]
fn column_names_are_lower_cased() {
    let c = Column::new("CreatedAt", DataType::Timestamp, ColumnOption::NotNull);
    assert_eq!(c.name(), "createdat");
    assert_eq!(c.render(), "createdat TIMESTAMP NOT NULL");
}

#[test]
fn duplicate_column_names_fail_validation() {
    let mut t = Table::new("post");
    t.add_column(Column::new("id", DataType::BigInt, ColumnOption::NotNull));
    t.add_column(Column::new("ID", DataType::Integer, ColumnOption::NotNull));
    assert!(t.validate(Dialect::PostgreSQL).is_err());
}

#[test]
fn constraint_on_missing_column_fails_validation() {
    let mut t = Table::new("post");
    t.add_column(Column::new("id", DataType::BigInt, ColumnOption::NotNull));
    t.add_constraint(NamedConstraint {
        name: String::new(),
        field_name: "slug".to_string(),
        constr: Constraint::Primary(Unique::new()),
    });
    let err = t.validate(Dialect::PostgreSQL).unwrap_err();
    assert!(err.message().contains("missing column"));
}

#[test]
fn colliding_derived_names_fail_validation() {
    let mut t = Table::new("post");
    t.add_column(Column::new("id", DataType::BigInt, ColumnOption::NotNull));
    let pk = NamedConstraint {
        name: String::new(),
        field_name: "id".to_string(),
        constr: Constraint::Primary(Unique::new()),
    };
    t.add_constraint(pk.clone());
    t.add_constraint(pk);
    let err = t.validate(Dialect::PostgreSQL).unwrap_err();
    assert!(err.message().contains("duplicate derived constraint name"));
}

#[test]
fn valid_table_passes_validation() {
    let mut t = Table::new("post");
    t.add_column(Column::new("id", DataType::BigInt, ColumnOption::NotNull));
    t.add_constraint(NamedConstraint {
        name: String::new(),
        field_name: "id".to_string(),
        constr: Constraint::Primary(Unique::new()),
    });
    assert!(t.validate(Dialect::PostgreSQL).is_ok());
}

#[test]
fn default_column_validates_its_literal() {
    let col = Column::new_with_default(
        "active",
        DataType::Boolean,
        ColumnOption::NotNull,
        DefaultExpr::from_bool(true),
    )
    .unwrap();
    assert_eq!(col.render(), "active BOOLEAN NOT NULL DEFAULT true");
    assert!(Column::new_with_default(
        "broken",
        DataType::Text,
        ColumnOption::NotNull,
        DefaultExpr::from_number(")"),
    )
    .is_err());
}

#[test]
fn error_kinds_cover_the_taxonomy() {
    assert_eq!(Error::Syntax(String::new()).kind(), "SyntaxError");
    assert_eq!(Error::SyntaxAtFile(String::new(), String::new()).kind(), "SyntaxAtFile");
    assert_eq!(Error::Message(String::new()).kind(), "error");
    assert_eq!(Error::IO(String::new()).kind(), "IOError");
    assert_eq!(Error::Cycle(Vec::new()).kind(), "CycleError");
}

#[test]
fn error_as_json_is_exact() {
    let e = Error::IO("disk full".to_string());
    assert_eq!(
        e.as_json(),
        "{\"kind\":\"IOError\",\"message\":\"could not read or create migration file. disk full\"}"
    );
}

#[test]
fn field_types_map_to_sql_types() {
    let b = BigSerial::from(7i64);
    assert_eq!(b.value(), 7);
    assert!(matches!(BigSerial::into_sql(), DataType::BigSerial));
    let j: Json<i64> = Json(5);
    assert_eq!(*j.value(), 5);
    assert_eq!(j.into_inner(), 5);
    assert!(matches!(<Json<i64> as IntoSQL>::into_sql(), DataType::Json));
}

#[test]
fn table_equality_is_structural() {
    let mut a = Table::new("post");
    a.add_column(Column::new("id", DataType::BigInt, ColumnOption::NotNull));
    let mut b = Table::new("post");
    b.add_column(Column::new("ID", DataType::BigInt, ColumnOption::NotNull));
    assert!(table_eq(&a, &b));
    b.add_column(Column::new("slug", DataType::Text, ColumnOption::NotNull));
    assert!(!table_eq(&a, &b));
}

#[test]
fn collected_constraints_take_their_field() {
    let collected = Constraints(vec![
        Constraint::Primary(Unique::new()),
        Constraint::Unique(Unique::with_columns(vec!["b".to_string()])),
    ]);
    let named = collected.into_named("id");
    assert_eq!(named.len(), 2);
    assert!(named.iter().all(|nc| nc.field_name == "id"));
    assert_eq!(named[0].into_tokens("post"), "CONSTRAINT post_primary_id PRIMARY KEY (id)");
}

#[test]
fn syntax_at_file_message_names_the_file() {
    let e = Error::SyntaxAtFile(
        "unexpected token".to_string(),
        "migrations/0001.sql".to_string(),
    );
    assert_eq!(
        e.message(),
        "syntax error: unexpected token. found at file migrations/0001.sql"
    );
}
