use sql_from_models::constraint::{Constraint, NamedConstraint, Unique};
use sql_from_models::diff::diff;
use sql_from_models::dialect::Dialect;
use sql_from_models::graph::order;
use sql_from_models::schema::Schema;
use sql_from_models::literal::DefaultExpr;
use sql_from_models::table::{Column, ColumnOption, DataType, Table};

fn primary(field: &str) -> NamedConstraint {
    NamedConstraint {
        name: String::new(),
        field_name: field.to_string(),
        constr: Constraint::Primary(Unique::new()),
    }
}

fn profile() -> Table {
    let mut t = Table::new("Profile");
    t.add_column(Column::new("id", DataType::BigSerial, ColumnOption::NotNull));
    t.add_constraint(primary("id"));
    t
}

#[test]
fn first_migration_creates_table_and_constraint() {
    let prev = Schema::new();
    let mut cur = Schema::new();
    cur.insert(profile());
    let ordered = order(&cur).unwrap();
    let migration = diff(&prev, &cur, &ordered, Dialect::PostgreSQL, false);
    let up = migration.up_sql();
    assert_eq!(
        up,
        vec![
            "CREATE TABLE profile (id BIGSERIAL NOT NULL);".to_string(),
            "ALTER TABLE profile ADD CONSTRAINT profile_primary_id PRIMARY KEY (id);".to_string(),
        ]
    );
    assert_eq!(migration.down_sql().len(), 0);
}

#[test]
fn diff_of_identical_schemas_is_empty() {
    let mut cur = Schema::new();
    cur.insert(profile());
    let mut book = Table::new("book");
    book.add_column(Column::new("id", DataType::BigInt, ColumnOption::NotNull));
    book.add_column(Column::new("title", DataType::Text, ColumnOption::NotNull));
    cur.insert(book);
    let ordered = order(&cur).unwrap();
    let migration = diff(&cur, &cur, &ordered, Dialect::PostgreSQL, true);
    assert_eq!(migration.len(), 0);
    assert_eq!(migration.up_sql().len(), 0);
    assert_eq!(migration.down_sql().len(), 0);
}

#[test]
fn added_column_has_drop_as_inverse() {
    let mut prev = Schema::new();
    let mut old_profile = Table::new("profile");
    old_profile.add_column(Column::new("id", DataType::BigSerial, ColumnOption::NotNull));
    prev.insert(old_profile);

    let mut cur = Schema::new();
    let mut new_profile = Table::new("profile");
    new_profile.add_column(Column::new("id", DataType::BigSerial, ColumnOption::NotNull));
    new_profile.add_column(Column::new("bio", DataType::Text, ColumnOption::Null));
    cur.insert(new_profile);

    let ordered = order(&cur).unwrap();
    let migration = diff(&prev, &cur, &ordered, Dialect::PostgreSQL, true);
    assert_eq!(migration.up_sql(), vec![
        "ALTER TABLE profile ADD COLUMN bio TEXT NULL;".to_string(),
    ]);
    assert_eq!(migration.down_sql(), vec![
        "ALTER TABLE profile DROP COLUMN bio;".to_string(),
    ]);
}

#[test]
fn dropped_table_is_recreated_by_the_inverse() {
    let mut prev = Schema::new();
    prev.insert(profile());
    let cur = Schema::new();
    let ordered = order(&cur).unwrap();
    let migration = diff(&prev, &cur, &ordered, Dialect::PostgreSQL, true);
    assert_eq!(migration.up_sql(), vec!["DROP TABLE profile;".to_string()]);
    assert_eq!(migration.down_sql(), vec![
        "CREATE TABLE profile (id BIGSERIAL NOT NULL);".to_string(),
        "ALTER TABLE profile ADD CONSTRAINT profile_primary_id PRIMARY KEY (id);".to_string(),
    ]);
}

#[test]
fn changed_column_becomes_a_replacement() {
    let mut prev = Schema::new();
    let mut t0 = Table::new("post");
    t0.add_column(Column::new("id", DataType::Integer, ColumnOption::NotNull));
    prev.insert(t0);

    let mut cur = Schema::new();
    let mut t1 = Table::new("post");
    t1.add_column(Column::new("id", DataType::BigInt, ColumnOption::NotNull));
    cur.insert(t1);

    let ordered = order(&cur).unwrap();
    let migration = diff(&prev, &cur, &ordered, Dialect::PostgreSQL, false);
    assert_eq!(migration.up_sql(), vec![
        "ALTER TABLE post DROP COLUMN id;".to_string(),
        "ALTER TABLE post ADD COLUMN id BIGINT NOT NULL;".to_string(),
    ]);
}

#[test]
fn down_statements_come_out_in_reverse() {
    let prev = Schema::new();
    let mut cur = Schema::new();
    let mut author = Table::new("author");
    author.add_column(Column::new("id", DataType::BigSerial, ColumnOption::NotNull));
    cur.insert(author);
    let mut book = Table::new("book");
    book.add_column(Column::new("id", DataType::BigSerial, ColumnOption::NotNull));
    cur.insert(book);
    let ordered = order(&cur).unwrap();
    let migration = diff(&prev, &cur, &ordered, Dialect::PostgreSQL, true);
    let up = migration.up_sql();
    let down = migration.down_sql();
    assert_eq!(up.len(), 2);
    assert_eq!(down.len(), 2);
    let up_author = up.iter().position(|s| s.contains("author")).unwrap();
    let up_book = up.iter().position(|s| s.contains("book")).unwrap();
    let down_author = down.iter().position(|s| s.contains("author")).unwrap();
    let down_book = down.iter().position(|s| s.contains("book")).unwrap();
    assert!((up_author < up_book) == (down_book < down_author));
}

#[test]
fn default_literal_appears_in_rendered_column() {
    let col = Column::new_with_default(
        "nickname",
        DataType::Text,
        ColumnOption::NotNull,
        DefaultExpr::from_text("it's"),
    )
    .unwrap();
    assert_eq!(col.render(), "nickname TEXT NOT NULL DEFAULT 'it''s'");
}
