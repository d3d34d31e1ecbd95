//! The order of a listing.

use beads::error::BeadsError;
use beads::model::sort::{SortDirection, SortField, SortKey, SortSpec};

fn spec(input: &str) -> SortSpec {
    input.parse().expect("valid spec")
}

fn fields(keys: &[SortKey]) -> Vec<(SortField, SortDirection)> {
    keys.iter().map(|k| (k.field, k.direction)).collect()
}

#[test]
fn bare_fields_take_their_natural_direction() {
    assert_eq!(
        fields(&spec("updated").resolved(false)),
        vec![
            (SortField::UpdatedAt, SortDirection::Desc),
            (SortField::Id, SortDirection::Asc),
        ]
    );
    assert_eq!(
        fields(&spec("title").resolved(false)),
        vec![
            (SortField::Title, SortDirection::Asc),
            (SortField::Id, SortDirection::Asc),
        ]
    );
}

#[test]
fn sort_aliases_resolve() {
    assert_eq!(spec("created"), spec("created_at"));
    assert_eq!(spec("updated"), spec("updated_at"));
}

#[test]
fn direction_prefixes_override_the_natural_direction() {
    assert_eq!(
        fields(&spec("-priority,+updated").resolved(false)),
        vec![
            (SortField::Priority, SortDirection::Desc),
            (SortField::UpdatedAt, SortDirection::Asc),
            (SortField::Id, SortDirection::Asc),
        ]
    );
}

#[test]
fn multi_key_specs_are_literal() {
    assert_eq!(
        fields(&spec("priority,updated").resolved(false)),
        vec![
            (SortField::Priority, SortDirection::Asc),
            (SortField::UpdatedAt, SortDirection::Desc),
            (SortField::Id, SortDirection::Asc),
        ]
    );
}

#[test]
fn a_single_bare_priority_keeps_the_legacy_created_at_tiebreaker() {
    assert_eq!(
        fields(&spec("priority").resolved(false)),
        vec![
            (SortField::Priority, SortDirection::Asc),
            (SortField::CreatedAt, SortDirection::Desc),
            (SortField::Id, SortDirection::Asc),
        ]
    );
}

#[test]
fn an_explicit_direction_disables_the_legacy_carve_out() {
    assert_eq!(
        fields(&spec("+priority").resolved(false)),
        vec![
            (SortField::Priority, SortDirection::Asc),
            (SortField::Id, SortDirection::Asc),
        ]
    );
}

#[test]
fn reverse_flips_every_key_but_not_the_id_terminator() {
    assert_eq!(
        fields(&spec("priority,updated").resolved(true)),
        vec![
            (SortField::Priority, SortDirection::Desc),
            (SortField::UpdatedAt, SortDirection::Asc),
            (SortField::Id, SortDirection::Asc),
        ]
    );
}

#[test]
fn reverse_flips_the_legacy_carve_outs_inherited_key_too() {
    assert_eq!(
        fields(&spec("priority").resolved(true)),
        vec![
            (SortField::Priority, SortDirection::Desc),
            (SortField::CreatedAt, SortDirection::Asc),
            (SortField::Id, SortDirection::Asc),
        ]
    );
}

#[test]
fn every_documented_field_parses() {
    for name in [
        "priority",
        "status",
        "type",
        "assignee",
        "created_at",
        "updated_at",
        "title",
    ] {
        assert!(name.parse::<SortSpec>().is_ok(), "{name} must parse");
    }
}

#[test]
fn invalid_specs_are_rejected() {
    for input in [
        "",                   // empty
        "   ",                // blank
        "nonsense",           // unknown field
        "id",                 // internal terminator, not user-facing
        "priority,,title",    // empty segment
        ",priority",          // leading comma
        "priority,",          // trailing comma
        "priority,-priority", // duplicate field
        "created,created_at", // duplicate via alias
        "-",                  // prefix with no field
    ] {
        assert!(
            input.parse::<SortSpec>().is_err(),
            "{input:?} must be rejected"
        );
    }
}

#[test]
fn the_error_names_the_sort_field() {
    let err = "nonsense".parse::<SortSpec>().unwrap_err();
    let rendered = match err {
        BeadsError::Validation { field, reason } => format!("{field}: {reason}"),
        other => panic!("not a refused value: {other:?}"),
    };
    assert!(
        rendered.contains("nonsense"),
        "error should quote the input: {rendered}"
    );
}

#[test]
fn every_refused_order_says_why() {
    for (input, words) in [
        ("", "sort spec is empty"),
        ("  ", "sort spec is empty"),
        (
            "priority,,title",
            "empty sort key in 'priority,,title' — check for a stray comma",
        ),
        ("id", "invalid sort field 'id'"),
        (
            "created,-created_at",
            "duplicate sort field 'created_at' in 'created,-created_at'",
        ),
    ] {
        match input.parse::<SortSpec>() {
            Err(BeadsError::Validation { field, reason }) => {
                assert_eq!(field, "sort");
                assert_eq!(reason, words);
            }
            other => panic!("{input:?} must be refused: {other:?}"),
        }
    }
}
