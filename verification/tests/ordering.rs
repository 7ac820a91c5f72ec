use sql_from_models::constraint::{Constraint, ForeignKey, NamedConstraint};
use sql_from_models::error::Error;
use sql_from_models::graph::order;
use sql_from_models::schema::Schema;
use sql_from_models::table::{Column, ColumnOption, DataType, Table};

fn fk(field: &str, foreign_table: &str, foreign_col: &str) -> NamedConstraint {
    NamedConstraint {
        name: String::new(),
        field_name: field.to_string(),
        constr: Constraint::ForeignKey(
            ForeignKey::new(foreign_table, foreign_col, None, None).unwrap(),
        ),
    }
}

fn table_with(name: &str, columns: &[&str], fks: Vec<NamedConstraint>) -> Table {
    let mut t = Table::new(name);
    for c in columns {
        t.add_column(Column::new(c, DataType::BigInt, ColumnOption::NotNull));
    }
    for nc in fks {
        t.add_constraint(nc);
    }
    t
}

fn pos(names: &[String], wanted: &str) -> usize {
    names.iter().position(|n| n == wanted).unwrap()
}

#[test]
fn referenced_tables_come_first() {
    let mut schema = Schema::new();
    schema.insert(table_with("book", &["id", "author"], vec![fk("author", "Author", "id")]));
    schema.insert(table_with("author", &["id"], vec![]));
    schema.insert(table_with("review", &["id", "book"], vec![fk("book", "Book", "id")]));
    let names = order(&schema).unwrap();
    assert_eq!(names.len(), 3);
    assert!(pos(&names, "author") < pos(&names, "book"));
    assert!(pos(&names, "book") < pos(&names, "review"));
    // reversed, dependents come first: a safe drop order
    let reversed: Vec<String> = names.iter().rev().cloned().collect();
    assert!(pos(&reversed, "review") < pos(&reversed, "book"));
    assert!(pos(&reversed, "book") < pos(&reversed, "author"));
}

#[test]
fn two_table_cycle_names_exactly_both() {
    let mut schema = Schema::new();
    schema.insert(table_with("a", &["id", "b"], vec![fk("b", "b", "id")]));
    schema.insert(table_with("b", &["id", "a"], vec![fk("a", "a", "id")]));
    match order(&schema) {
        Err(Error::Cycle(mut names)) => {
            names.sort();
            assert_eq!(names, vec!["a".to_string(), "b".to_string()]);
        }
        other => panic!("expected a cycle, got {:?}", other),
    }
}

#[test]
fn cycle_error_kind_and_message() {
    let mut schema = Schema::new();
    schema.insert(table_with("a", &["id", "b"], vec![fk("b", "b", "id")]));
    schema.insert(table_with("b", &["id", "a"], vec![fk("a", "a", "id")]));
    let err = order(&schema).unwrap_err();
    assert_eq!(err.kind(), "CycleError");
    let msg = err.message();
    assert!(msg.contains("dependency cycle"));
    assert!(msg.contains("a, b") || msg.contains("b, a"));
    assert!(msg.contains("removing redundant foreign key"));
}

#[test]
fn self_reference_is_not_a_cycle() {
    let mut schema = Schema::new();
    schema.insert(table_with(
        "employee",
        &["id", "manager"],
        vec![fk("manager", "Employee", "id")],
    ));
    let names = order(&schema).unwrap();
    assert_eq!(names, vec!["employee".to_string()]);
}

#[test]
fn reference_to_unknown_table_is_ignored() {
    let mut schema = Schema::new();
    schema.insert(table_with("book", &["id", "author"], vec![fk("author", "Author", "id")]));
    let names = order(&schema).unwrap();
    assert_eq!(names, vec!["book".to_string()]);
}

#[test]
fn empty_schema_orders_to_nothing() {
    let schema = Schema::new();
    assert_eq!(order(&schema).unwrap().len(), 0);
}

#[test]
fn three_table_cycle_reports_all_members() {
    let mut schema = Schema::new();
    schema.insert(table_with("x", &["id", "y"], vec![fk("y", "y", "id")]));
    schema.insert(table_with("y", &["id", "z"], vec![fk("z", "z", "id")]));
    schema.insert(table_with("z", &["id", "x"], vec![fk("x", "x", "id")]));
    match order(&schema) {
        Err(Error::Cycle(mut names)) => {
            names.sort();
            assert_eq!(names, vec!["x".to_string(), "y".to_string(), "z".to_string()]);
        }
        other => panic!("expected a cycle, got {:?}", other),
    }
}
