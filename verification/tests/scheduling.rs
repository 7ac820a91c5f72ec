use sql_from_models::constraint::{Constraint, ForeignKey, NamedConstraint};
use sql_from_models::dialect::Dialect;
use sql_from_models::error::Error;
use sql_from_models::schema::Schema;
use sql_from_models::scheduler::{Report, Scheduler};
use sql_from_models::table::{Column, ColumnOption, DataType, Table};

fn author() -> Table {
    let mut t = Table::new("author");
    t.add_column(Column::new("id", DataType::BigSerial, ColumnOption::NotNull));
    t
}

fn book(on_delete: Option<String>) -> Table {
    let mut t = Table::new("book");
    t.add_column(Column::new("id", DataType::BigSerial, ColumnOption::NotNull));
    t.add_column(Column::new("author", DataType::BigInt, ColumnOption::NotNull));
    t.add_constraint(NamedConstraint {
        name: String::new(),
        field_name: "author".to_string(),
        constr: Constraint::ForeignKey(
            ForeignKey::new("Author", "id", on_delete, None).unwrap(),
        ),
    });
    t
}

#[test]
fn cascade_on_sqlite_is_rejected_at_registration() {
    let mut scheduler = Scheduler::new(Dialect::SQLite, false);
    let err = scheduler
        .register(book(Some("cascade".to_string())))
        .unwrap_err();
    match err {
        Error::Message(msg) => assert!(msg.contains("cascad")),
        other => panic!("expected a validation error, got {:?}", other),
    }
    // nothing was queued, so a later registrant still opens the batch
    assert_eq!(scheduler.register(author()).unwrap(), true);
}

#[test]
fn cascade_on_postgres_is_accepted() {
    let mut scheduler = Scheduler::new(Dialect::PostgreSQL, false);
    assert!(scheduler.register(book(Some("cascade".to_string()))).is_ok());
}

#[test]
fn one_commit_per_batch_with_dependency_order() {
    // the two registrations arrive within one debounce window, in either
    // order; only the batch opener commits, and the dependency order wins
    for flipped in [false, true] {
        let mut scheduler = Scheduler::new(Dialect::PostgreSQL, false);
        let (first_table, second_table) = if flipped {
            (book(None), author())
        } else {
            (author(), book(None))
        };
        let opener = scheduler.register(first_table).unwrap();
        let follower = scheduler.register(second_table).unwrap();
        assert_eq!(opener, true);
        assert_eq!(follower, false);
        let commits = [opener, follower].iter().filter(|b| **b).count();
        assert_eq!(commits, 1);
        let prev = Schema::new();
        let migration = scheduler.commit(&prev).unwrap();
        let up = migration.up_sql();
        let author_pos = up.iter().position(|s| s.contains("CREATE TABLE author")).unwrap();
        let book_pos = up.iter().position(|s| s.contains("CREATE TABLE book")).unwrap();
        assert!(author_pos < book_pos);
    }
}

#[test]
fn commit_resets_the_queue() {
    let mut scheduler = Scheduler::new(Dialect::PostgreSQL, false);
    scheduler.register(author()).unwrap();
    scheduler.commit(&Schema::new()).unwrap();
    // a new batch begins afterwards
    assert_eq!(scheduler.register(author()).unwrap(), true);
}

#[test]
fn reregistration_replaces_the_table() {
    let mut scheduler = Scheduler::new(Dialect::PostgreSQL, false);
    scheduler.register(author()).unwrap();
    let mut richer = author();
    richer.add_column(Column::new("name", DataType::Text, ColumnOption::NotNull));
    scheduler.register(richer).unwrap();
    let migration = scheduler.commit(&Schema::new()).unwrap();
    let up = migration.up_sql();
    assert_eq!(up.len(), 1);
    assert!(up[0].contains("name TEXT NOT NULL"));
}

#[test]
fn cyclic_batch_aborts_with_a_cycle() {
    let mut scheduler = Scheduler::new(Dialect::PostgreSQL, false);
    let mut a = Table::new("a");
    a.add_column(Column::new("id", DataType::BigInt, ColumnOption::NotNull));
    a.add_column(Column::new("b", DataType::BigInt, ColumnOption::NotNull));
    a.add_constraint(NamedConstraint {
        name: String::new(),
        field_name: "b".to_string(),
        constr: Constraint::ForeignKey(ForeignKey::new("b", "id", None, None).unwrap()),
    });
    let mut b = Table::new("b");
    b.add_column(Column::new("id", DataType::BigInt, ColumnOption::NotNull));
    b.add_column(Column::new("a", DataType::BigInt, ColumnOption::NotNull));
    b.add_constraint(NamedConstraint {
        name: String::new(),
        field_name: "a".to_string(),
        constr: Constraint::ForeignKey(ForeignKey::new("a", "id", None, None).unwrap()),
    });
    scheduler.register(a).unwrap();
    scheduler.register(b).unwrap();
    let outcome = scheduler.commit(&Schema::new());
    let report = Report::of_outcome(&outcome);
    assert!(!report.success);
    let line = report.line();
    assert!(line.starts_with("{\"success\":false,\"error\":{\"kind\":\"CycleError\""));
}

#[test]
fn successful_commit_reports_success() {
    let mut scheduler = Scheduler::new(Dialect::PostgreSQL, false);
    scheduler.register(author()).unwrap();
    let outcome = scheduler.commit(&Schema::new());
    let report = Report::of_outcome(&outcome);
    assert!(report.success);
    assert_eq!(report.line(), "{\"success\":true,\"error\":null}");
}

#[test]
fn status_line_escapes_the_message() {
    let report = Report {
        success: false,
        error: Some(Error::Message("a \"quoted\" name".to_string())),
    };
    assert_eq!(
        report.line(),
        "{\"success\":false,\"error\":{\"kind\":\"error\",\"message\":\"a \\\"quoted\\\" name\"}}"
    );
}

#[test]
fn status_line_escapes_control_characters() {
    let report = Report {
        success: false,
        error: Some(Error::Message("a\tb\u{1}c".to_string())),
    };
    assert_eq!(
        report.line(),
        "{\"success\":false,\"error\":{\"kind\":\"error\",\"message\":\"a\\u0009b\\u0001c\"}}"
    );
}
