use harmonia_core::error::CoreError;
use harmonia_core::models::{SmartRule, SmartRules};
use harmonia_core::smart::{smart_playlist_where, validate_rules, SqlValue};

fn rule(field: &str, op: &str, value: &str) -> SmartRule {
    SmartRule {
        field: field.into(),
        op: op.into(),
        value: value.into(),
    }
}

#[test]
fn smart_rules_build_valid_sql() {
    let rules = SmartRules {
        match_all: true,
        rules: vec![
            SmartRule {
                field: "genre".into(),
                op: "eq".into(),
                value: "Jazz".into(),
            },
            SmartRule {
                field: "year".into(),
                op: "gte".into(),
                value: "2000".into(),
            },
        ],
    };
    let (sql, params) = smart_playlist_where(&rules).unwrap();
    assert!(sql.contains("genre = ?"));
    assert!(sql.contains("year >= ?"));
    assert_eq!(params.len(), 2);
    assert_eq!(params[0], SqlValue::Text("Jazz".into()));
    assert_eq!(params[1], SqlValue::Integer(2000));
}

#[test]
fn smart_rules_join_with_or_when_not_match_all() {
    let rules = SmartRules {
        match_all: false,
        rules: vec![rule("genre", "eq", "Jazz"), rule("genre", "eq", "Rock")],
    };
    let (sql, params) = smart_playlist_where(&rules).unwrap();
    assert!(sql.contains(" OR "), "expected OR join, got: {sql}");
    assert!(!sql.contains(" AND "), "expected no AND join, got: {sql}");
    assert_eq!(params.len(), 2);
}

#[test]
fn smart_rules_support_all_comparison_operators() {
    for op in ["eq", "ne", "gt", "gte", "lt", "lte"] {
        let rules = SmartRules {
            match_all: true,
            rules: vec![rule("year", op, "2000")],
        };
        let (sql, _) = smart_playlist_where(&rules).unwrap();
        let expected = match op {
            "eq" => "year = ?",
            "ne" => "year != ?",
            "gt" => "year > ?",
            "gte" => "year >= ?",
            "lt" => "year < ?",
            _ => "year <= ?",
        };
        assert!(
            sql.contains(expected),
            "op {op}: expected {expected:?} in {sql:?}"
        );
    }
}

#[test]
fn smart_rules_contains_escapes_like_wildcards() {
    let rules = SmartRules {
        match_all: true,
        rules: vec![rule("album", "contains", "50%_off")],
    };
    let (sql, params) = smart_playlist_where(&rules).unwrap();
    assert!(sql.contains("album LIKE ? ESCAPE '\\'"));
    assert_eq!(params[0], SqlValue::Text("%50\\%\\_off%".into()));
}

#[test]
fn smart_rules_contains_on_numeric_uses_cast() {
    let rules = SmartRules {
        match_all: true,
        rules: vec![rule("year", "contains", "200")],
    };
    let (sql, params) = smart_playlist_where(&rules).unwrap();
    assert!(sql.contains("CAST(year AS TEXT) LIKE ? ESCAPE '\\'"));
    assert_eq!(params[0], SqlValue::Text("%200%".into()));
}

#[test]
fn smart_rules_contains_escapes_backslashes() {
    let rules = SmartRules {
        match_all: true,
        rules: vec![rule("album", "contains", "a\\b")],
    };
    let (_, params) = smart_playlist_where(&rules).unwrap();
    assert_eq!(params[0], SqlValue::Text("%a\\\\b%".into()));
}

#[test]
fn smart_rules_coerce_favorite_values() {
    for raw in ["true", "1", "yes", "TRUE", " Yes "] {
        let rules = SmartRules {
            match_all: true,
            rules: vec![rule("favorite", "eq", raw)],
        };
        let (_, params) = smart_playlist_where(&rules).unwrap();
        assert_eq!(params[0], SqlValue::Integer(1), "{raw:?} should be truthy");
    }
    for raw in ["false", "0", "no", "FALSE", " No "] {
        let rules = SmartRules {
            match_all: true,
            rules: vec![rule("favorite", "eq", raw)],
        };
        let (_, params) = smart_playlist_where(&rules).unwrap();
        assert_eq!(params[0], SqlValue::Integer(0), "{raw:?} should be falsy");
    }
}

#[test]
fn smart_rules_coerce_unparseable_numbers_to_zero() {
    let rules = SmartRules {
        match_all: true,
        rules: vec![rule("year", "eq", "not-a-year")],
    };
    let (_, params) = smart_playlist_where(&rules).unwrap();
    assert_eq!(params[0], SqlValue::Integer(0));
}

#[test]
fn smart_rules_text_fields_keep_string_values() {
    let rules = SmartRules {
        match_all: true,
        rules: vec![rule("genre", "eq", "Jazz"), rule("artist", "eq", "Miles")],
    };
    let (_, params) = smart_playlist_where(&rules).unwrap();
    assert_eq!(params[0], SqlValue::Text("Jazz".into()));
    assert_eq!(params[1], SqlValue::Text("Miles".into()));
}

#[test]
fn smart_rules_reject_unknown_fields() {
    let rules = SmartRules {
        match_all: true,
        rules: vec![SmartRule {
            field: "nope; DROP TABLE tracks".into(),
            op: "eq".into(),
            value: "x".into(),
        }],
    };
    assert!(smart_playlist_where(&rules).is_err());
}

#[test]
fn smart_rules_reject_unsupported_operators() {
    let rules = SmartRules {
        match_all: true,
        rules: vec![rule("genre", "regex", "Jazz")],
    };
    assert!(smart_playlist_where(&rules).is_err());
}

#[test]
fn smart_rules_reject_empty_rule_sets() {
    let rules = SmartRules {
        match_all: true,
        rules: vec![],
    };
    assert!(smart_playlist_where(&rules).is_err());
}

#[test]
fn validate_rules_accepts_valid_and_rejects_invalid() {
    let ok = SmartRules {
        match_all: true,
        rules: vec![rule("genre", "contains", "Jazz")],
    };
    assert!(validate_rules(&ok).is_ok());
    let bad = SmartRules {
        match_all: true,
        rules: vec![rule("unknown", "eq", "x")],
    };
    assert!(validate_rules(&bad).is_err());
    let empty = SmartRules {
        match_all: true,
        rules: vec![],
    };
    assert!(validate_rules(&empty).is_err());
}

fn invalid_message(r: Result<(String, Vec<SqlValue>), CoreError>) -> String {
    match r {
        Err(CoreError::Invalid(m)) => m,
        other => panic!("expected an Invalid error, got {other:?}"),
    }
}

#[test]
fn smart_rule_errors_name_the_offending_part() {
    let empty = SmartRules { match_all: true, rules: vec![] };
    assert_eq!(
        invalid_message(smart_playlist_where(&empty)),
        "smart playlist requires at least one rule"
    );
    let field = SmartRules { match_all: true, rules: vec![rule("mood", "eq", "x")] };
    assert_eq!(
        invalid_message(smart_playlist_where(&field)),
        "unknown smart playlist field: mood"
    );
    let op = SmartRules { match_all: true, rules: vec![rule("genre", "gt", "x")] };
    assert_eq!(
        invalid_message(smart_playlist_where(&op)),
        "unsupported smart playlist operator: gt"
    );
    // The first rejected rule decides the message.
    let both = SmartRules {
        match_all: true,
        rules: vec![rule("genre", "eq", "x"), rule("year", "like", "1"), rule("mood", "eq", "y")],
    };
    assert_eq!(
        invalid_message(smart_playlist_where(&both)),
        "unsupported smart playlist operator: like"
    );
}

#[test]
fn smart_rules_exact_where_clause() {
    let rules = SmartRules {
        match_all: true,
        rules: vec![
            rule("playCount", "gt", " 3 "),
            rule("durationMs", "lte", "+240000"),
            rule("favorite", "ne", "yes"),
            rule("composer", "contains", "fla"),
        ],
    };
    let (sql, params) = smart_playlist_where(&rules).unwrap();
    assert_eq!(
        sql,
        "play_count > ? AND duration_ms <= ? AND favorite != ? AND composer LIKE ? ESCAPE '\\'"
    );
    assert_eq!(
        params,
        vec![
            SqlValue::Integer(3),
            SqlValue::Integer(240000),
            SqlValue::Integer(1),
            SqlValue::Text("%fla%".into()),
        ]
    );
}

#[test]
fn rule_values_never_reach_the_sql() {
    let a = SmartRules {
        match_all: false,
        rules: vec![rule("genre", "contains", "x'; DROP TABLE tracks; --"), rule("year", "lt", "1")],
    };
    let b = SmartRules {
        match_all: false,
        rules: vec![rule("genre", "contains", "Jazz"), rule("year", "lt", "abc")],
    };
    let (sql_a, params_a) = smart_playlist_where(&a).unwrap();
    let (sql_b, params_b) = smart_playlist_where(&b).unwrap();
    assert_eq!(sql_a, sql_b);
    assert_eq!(params_a.len(), params_b.len());
    assert!(!sql_a.contains("DROP"));
}

#[test]
fn format_is_not_a_smart_rule_field() {
    let rules = SmartRules { match_all: true, rules: vec![rule("format", "eq", "flac")] };
    assert_eq!(
        invalid_message(smart_playlist_where(&rules)),
        "unknown smart playlist field: format"
    );
}
