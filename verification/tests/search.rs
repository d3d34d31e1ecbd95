//! The scope of a text search.

use beads::error::BeadsError;
use beads::model::search::{SearchField, SearchScope};

fn scope(input: &str) -> SearchScope {
    input.parse().expect("valid scope")
}

fn reason(err: BeadsError) -> String {
    match err {
        BeadsError::Validation { reason, .. } => reason,
        other => panic!("not a refused value: {other:?}"),
    }
}

#[test]
fn default_scope_covers_every_field_br_show_renders() {
    assert_eq!(SearchScope::default_scope().fields(), SearchField::ALL);
}

#[test]
fn default_scope_reaches_the_prose_fields_search_used_to_miss() {
    let fields = SearchScope::default_scope();
    for field in [
        SearchField::Design,
        SearchField::AcceptanceCriteria,
        SearchField::Notes,
    ] {
        assert!(
            fields.fields().contains(&field),
            "{} must be searched by default",
            field.canonical_name()
        );
    }
}

#[test]
fn match_sql_emits_one_placeholder_per_field() {
    let sql = scope("title,design").match_sql();
    assert_eq!(
        sql,
        "(instr(lower(title), ?) > 0 OR instr(lower(design), ?) > 0)"
    );
    assert_eq!(sql.matches('?').count(), 2);
}

#[test]
fn placeholder_count_matches_what_match_sql_emits() {
    for input in ["title", "title,design", "id,title,description,design,notes"] {
        let scope = scope(input);
        assert_eq!(
            scope.placeholder_count(),
            scope.match_sql().matches('?').count(),
            "bind count must match placeholder count for '{input}'"
        );
    }
    let all = SearchScope::default_scope();
    assert_eq!(
        all.placeholder_count(),
        all.match_sql().matches('?').count()
    );
}

#[test]
fn search_aliases_resolve() {
    assert_eq!(scope("desc"), scope("description"));
    assert_eq!(scope("ac"), scope("acceptance_criteria"));
    assert_eq!(scope("acceptance-criteria"), scope("acceptance_criteria"));
    assert_eq!(scope("criteria"), scope("acceptance_criteria"));
}

#[test]
fn parsing_is_case_insensitive() {
    assert_eq!(scope("Title,DESIGN"), scope("title,design"));
}

#[test]
fn duplicates_collapse_and_order_normalises() {
    assert_eq!(scope("design,title,design"), scope("title,design"));
    assert_eq!(scope("notes,id"), scope("id,notes"));
}

#[test]
fn an_empty_scope_is_rejected_rather_than_matching_nothing() {
    assert!("".parse::<SearchScope>().is_err());
    assert!("   ".parse::<SearchScope>().is_err());
    assert!("title,,design".parse::<SearchScope>().is_err());
}

#[test]
fn an_unknown_field_names_the_valid_ones() {
    let err = reason("assignee".parse::<SearchScope>().unwrap_err());
    assert!(
        err.contains("assignee"),
        "error must quote the bad name: {err}"
    );
    assert!(
        err.contains("acceptance_criteria"),
        "error must list valid fields: {err}"
    );
}

#[test]
fn every_refused_scope_says_why() {
    for (input, words) in [
        ("", "search scope is empty"),
        (" \t ", "search scope is empty"),
        (
            "title,,design",
            "empty field in 'title,,design' — check for a stray comma",
        ),
        (
            "title, ",
            "empty field in 'title, ' — check for a stray comma",
        ),
    ] {
        match input.parse::<SearchScope>() {
            Err(BeadsError::Validation { field, reason }) => {
                assert_eq!(field, "--in");
                assert_eq!(reason, words);
            }
            other => panic!("{input:?} must be refused: {other:?}"),
        }
    }
    assert_eq!(
        reason("title,Owner".parse::<SearchScope>().unwrap_err()),
        "unknown search field 'Owner'. Valid fields: id, title, description, design, \
         acceptance_criteria, notes"
    );
}

#[test]
fn spelling_does_not_matter() {
    assert_eq!(scope(" NOTES , Acceptance-Criteria "), scope("ac,notes"));
}
