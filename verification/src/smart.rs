//! Smart playlists: JSON-stored rule sets compiled into a parameterised SQL
//! WHERE clause. Field names and operators are whitelisted, so user input
//! only ever reaches the query as a bound parameter.

use vstd::prelude::*;

use crate::error::CoreError;
use crate::models::{SmartRule, SmartRules};
use crate::text::{
    ascii_lowercase, parse_i64, push_str, spec_ascii_lowercase, spec_join, spec_parse_i64,
    spec_trim, str_equal, string_views, trim, join,
};
use crate::util::{escape_like, spec_escape_like};

verus! {

/// A value bound to a `?` placeholder of a query.
#[derive(Debug, Clone, PartialEq)]
pub enum SqlValue {
    Integer(i64),
    Text(String),
}

/// The mathematical value of a bound parameter.
pub enum SqlParam {
    Integer(i64),
    Text(Seq<char>),
}

impl View for SqlValue {
    type V = SqlParam;

    open spec fn view(&self) -> SqlParam {
        match self {
            SqlValue::Integer(n) => SqlParam::Integer(*n),
            SqlValue::Text(s) => SqlParam::Text(s@),
        }
    }
}

/// The views of a list of bound values.
pub open spec fn param_views(v: Seq<SqlValue>) -> Seq<SqlParam> {
    v.map_values(|x: SqlValue| x@)
}

/// The column a rule field maps to; `None` for a field that is not on the
/// whitelist.
pub open spec fn spec_field_column(field: Seq<char>) -> Option<Seq<char>> {
    if field == "genre"@ {
        Some("genre"@)
    } else if field == "artist"@ {
        Some("artist"@)
    } else if field == "album"@ {
        Some("album"@)
    } else if field == "composer"@ {
        Some("composer"@)
    } else if field == "year"@ {
        Some("year"@)
    } else if field == "playCount"@ {
        Some("play_count"@)
    } else if field == "favorite"@ {
        Some("favorite"@)
    } else if field == "durationMs"@ {
        Some("duration_ms"@)
    } else if field == "bitrate"@ {
        Some("bitrate"@)
    } else {
        None
    }
}

/// Fields compared as integers.
pub open spec fn spec_is_numeric_field(field: Seq<char>) -> bool {
    field == "year"@ || field == "playCount"@ || field == "favorite"@ || field == "durationMs"@
        || field == "bitrate"@
}

/// Maps a rule field name to its SQL column.
pub fn field_column(field: &str) -> (r: Option<&'static str>)
    ensures
        match r {
            Some(c) => spec_field_column(field@) == Some(c@),
            None => spec_field_column(field@) is None,
        },
{
    if str_equal(field, "genre") {
        Some("genre")
    } else if str_equal(field, "artist") {
        Some("artist")
    } else if str_equal(field, "album") {
        Some("album")
    } else if str_equal(field, "composer") {
        Some("composer")
    } else if str_equal(field, "year") {
        Some("year")
    } else if str_equal(field, "playCount") {
        Some("play_count")
    } else if str_equal(field, "favorite") {
        Some("favorite")
    } else if str_equal(field, "durationMs") {
        Some("duration_ms")
    } else if str_equal(field, "bitrate") {
        Some("bitrate")
    } else {
        None
    }
}

/// Whether a rule field is compared as an integer.
pub fn is_numeric_field(field: &str) -> (r: bool)
    ensures
        r == spec_is_numeric_field(field@),
{
    str_equal(field, "year") || str_equal(field, "playCount") || str_equal(field, "favorite")
        || str_equal(field, "durationMs") || str_equal(field, "bitrate")
}

/// Whether a raw `favorite` value reads as true: "true", "1" or "yes",
/// ignoring surrounding whitespace and ASCII case.
pub open spec fn spec_is_truthy(raw: Seq<char>) -> bool {
    let t = spec_ascii_lowercase(spec_trim(raw));
    t == "true"@ || t == "1"@ || t == "yes"@
}

/// The value a rule compares against: an integer for numeric fields
/// (`favorite` as 1/0, others parsed, 0 when unparseable), the raw text
/// otherwise.
pub open spec fn spec_coerce_value(field: Seq<char>, raw: Seq<char>) -> SqlParam {
    if spec_is_numeric_field(field) {
        if field == "favorite"@ {
            SqlParam::Integer(
                if spec_is_truthy(raw) {
                    1
                } else {
                    0
                },
            )
        } else {
            SqlParam::Integer(
                match spec_parse_i64(spec_trim(raw)) {
                    Some(n) => n,
                    None => 0,
                },
            )
        }
    } else {
        SqlParam::Text(raw)
    }
}

/// Converts a rule value to the parameter bound for its field.
pub fn coerce_value(field: &str, raw: &str) -> (r: SqlValue)
    ensures
        r@ == spec_coerce_value(field@, raw@),
{
    if is_numeric_field(field) {
        if str_equal(field, "favorite") {
            let t = trim(raw);
            let low = ascii_lowercase(t.as_str());
            let yes = str_equal(low.as_str(), "true") || str_equal(low.as_str(), "1") || str_equal(
                low.as_str(),
                "yes",
            );
            SqlValue::Integer(
                if yes {
                    1
                } else {
                    0
                },
            )
        } else {
            let t = trim(raw);
            SqlValue::Integer(
                match parse_i64(t.as_str()) {
                    Some(n) => n,
                    None => 0,
                },
            )
        }
    } else {
        let mut s = String::new();
        push_str(&mut s, raw);
        SqlValue::Text(s)
    }
}

/// SQL comparison symbol of an ordering operator.
pub open spec fn spec_order_symbol(op: Seq<char>) -> Option<Seq<char>> {
    if op == "gt"@ {
        Some(">"@)
    } else if op == "gte"@ {
        Some(">="@)
    } else if op == "lt"@ {
        Some("<"@)
    } else if op == "lte"@ {
        Some("<="@)
    } else {
        None
    }
}

/// The SQL condition and bound value of one rule, or the message of the
/// error that rejects it.
pub open spec fn spec_rule_clause(rule: SmartRule) -> Result<(Seq<char>, SqlParam), Seq<char>> {
    let field = rule.field@;
    let op = rule.op@;
    match spec_field_column(field) {
        None => Err("unknown smart playlist field: "@ + field),
        Some(col) => {
            let numeric = spec_is_numeric_field(field);
            if op == "eq"@ {
                Ok((col + " = ?"@, spec_coerce_value(field, rule.value@)))
            } else if op == "ne"@ {
                Ok((col + " != ?"@, spec_coerce_value(field, rule.value@)))
            } else if op == "contains"@ {
                Ok(
                    (
                        if numeric {
                            "CAST("@ + col + " AS TEXT) LIKE ? ESCAPE '\\'"@
                        } else {
                            col + " LIKE ? ESCAPE '\\'"@
                        },
                        SqlParam::Text("%"@ + spec_escape_like(rule.value@) + "%"@),
                    ),
                )
            } else if numeric && spec_order_symbol(op) is Some {
                Ok(
                    (
                        col + " "@ + spec_order_symbol(op)->0 + " ?"@,
                        spec_coerce_value(field, rule.value@),
                    ),
                )
            } else {
                Err("unsupported smart playlist operator: "@ + op)
            }
        },
    }
}

/// The clauses of a rule list, or the message of the first rule rejected.
pub open spec fn spec_rule_clauses(rules: Seq<SmartRule>) -> Result<
    Seq<(Seq<char>, SqlParam)>,
    Seq<char>,
>
    decreases rules.len(),
{
    if rules.len() == 0 {
        Ok(Seq::empty())
    } else {
        match spec_rule_clauses(rules.drop_last()) {
            Err(e) => Err(e),
            Ok(parts) => match spec_rule_clause(rules.last()) {
                Err(e) => Err(e),
                Ok(p) => Ok(parts.push(p)),
            },
        }
    }
}

/// The WHERE clause and its parameters for a rule set: the rules' conditions
/// joined by AND (match all) or OR (match any), one parameter per rule in
/// rule order; an empty rule set, an unknown field or an operator that the
/// field does not support is rejected with its message.
pub open spec fn spec_smart_playlist_where(rules: SmartRules) -> Result<
    (Seq<char>, Seq<SqlParam>),
    Seq<char>,
> {
    if rules.rules@.len() == 0 {
        Err("smart playlist requires at least one rule"@)
    } else {
        match spec_rule_clauses(rules.rules@) {
            Err(e) => Err(e),
            Ok(parts) => Ok(
                (
                    spec_join(
                        parts.map_values(|p: (Seq<char>, SqlParam)| p.0),
                        if rules.match_all {
                            " AND "@
                        } else {
                            " OR "@
                        },
                    ),
                    parts.map_values(|p: (Seq<char>, SqlParam)| p.1),
                ),
            ),
        }
    }
}

/// Compiles one rule.
fn rule_clause(rule: &SmartRule) -> (r: Result<(String, SqlValue), String>)
    ensures
        match r {
            Ok((sql, v)) => spec_rule_clause(*rule) == Ok::<(Seq<char>, SqlParam), Seq<char>>(
                (sql@, v@),
            ),
            Err(m) => spec_rule_clause(*rule) == Err::<(Seq<char>, SqlParam), Seq<char>>(m@),
        },
{
    let field = rule.field.as_str();
    let op = rule.op.as_str();
    let col = match field_column(field) {
        Some(c) => c,
        None => {
            let mut m = String::new();
            push_str(&mut m, "unknown smart playlist field: ");
            push_str(&mut m, field);
            return Err(m);
        },
    };
    let numeric = is_numeric_field(field);
    let mut sql = String::new();
    if str_equal(op, "eq") {
        push_str(&mut sql, col);
        push_str(&mut sql, " = ?");
        Ok((sql, coerce_value(field, rule.value.as_str())))
    } else if str_equal(op, "ne") {
        push_str(&mut sql, col);
        push_str(&mut sql, " != ?");
        Ok((sql, coerce_value(field, rule.value.as_str())))
    } else if str_equal(op, "contains") {
        if numeric {
            push_str(&mut sql, "CAST(");
            push_str(&mut sql, col);
            push_str(&mut sql, " AS TEXT) LIKE ? ESCAPE '\\'");
        } else {
            push_str(&mut sql, col);
            push_str(&mut sql, " LIKE ? ESCAPE '\\'");
        }
        let mut like = String::new();
        push_str(&mut like, "%");
        let escaped = escape_like(rule.value.as_str());
        push_str(&mut like, escaped.as_str());
        push_str(&mut like, "%");
        proof {
            assert(Seq::<char>::empty() + "CAST("@ =~= "CAST("@);
            assert(Seq::<char>::empty() + col@ =~= col@);
            assert(Seq::<char>::empty() + "%"@ =~= "%"@);
        }
        Ok((sql, SqlValue::Text(like)))
    } else {
        let sym: Option<&str> = if str_equal(op, "gt") {
            Some(">")
        } else if str_equal(op, "gte") {
            Some(">=")
        } else if str_equal(op, "lt") {
            Some("<")
        } else if str_equal(op, "lte") {
            Some("<=")
        } else {
            None
        };
        match sym {
            Some(s) if numeric => {
                push_str(&mut sql, col);
                push_str(&mut sql, " ");
                push_str(&mut sql, s);
                push_str(&mut sql, " ?");
                proof {
                    assert(Seq::<char>::empty() + col@ =~= col@);
                }
                Ok((sql, coerce_value(field, rule.value.as_str())))
            },
            _ => {
                let mut m = String::new();
                push_str(&mut m, "unsupported smart playlist operator: ");
                push_str(&mut m, op);
                Err(m)
            },
        }
    }
}

/// Builds a parameterised WHERE clause for a set of smart playlist rules.
pub fn smart_playlist_where(rules: &SmartRules) -> (r: Result<(String, Vec<SqlValue>), CoreError>)
    ensures
        match r {
            Ok((sql, params)) => spec_smart_playlist_where(*rules) == Ok::<
                (Seq<char>, Seq<SqlParam>),
                Seq<char>,
            >((sql@, param_views(params@))),
            Err(CoreError::Invalid(m)) => spec_smart_playlist_where(*rules) == Err::<
                (Seq<char>, Seq<SqlParam>),
                Seq<char>,
            >(m@),
            Err(_) => false,
        },
{
    if rules.rules.len() == 0 {
        let mut m = String::new();
        push_str(&mut m, "smart playlist requires at least one rule");
        proof {
            assert(Seq::<char>::empty() + "smart playlist requires at least one rule"@
                =~= "smart playlist requires at least one rule"@);
        }
        return Err(CoreError::Invalid(m));
    }
    let ghost all = rules.rules@;
    let mut clauses: Vec<String> = Vec::new();
    let mut params: Vec<SqlValue> = Vec::new();
    let ghost mut parts: Seq<(Seq<char>, SqlParam)> = Seq::empty();
    let mut i: usize = 0;
    while i < rules.rules.len()
        invariant
            i <= all.len(),
            all == rules.rules@,
            spec_rule_clauses(all.take(i as int)) == Ok::<
                Seq<(Seq<char>, SqlParam)>,
                Seq<char>,
            >(parts),
            string_views(clauses@) == parts.map_values(|p: (Seq<char>, SqlParam)| p.0),
            param_views(params@) == parts.map_values(|p: (Seq<char>, SqlParam)| p.1),
        decreases all.len() - i,
    {
        proof {
            assert(all.take(i + 1).drop_last() =~= all.take(i as int));
            assert(all.take(i + 1).last() == all[i as int]);
        }
        match rule_clause(&rules.rules[i]) {
            Ok((sql, v)) => {
                let ghost old_parts = parts;
                let ghost old_clauses = clauses@;
                let ghost old_params = params@;
                proof {
                    parts = parts.push((sql@, v@));
                }
                clauses.push(sql);
                params.push(v);
                proof {
                    assert(clauses@ == old_clauses.push(sql));
                    assert(params@ == old_params.push(v));
                    assert(string_views(clauses@) =~= string_views(old_clauses).push(sql@));
                    assert(param_views(params@) =~= param_views(old_params).push(v@));
                    assert(parts.map_values(|p: (Seq<char>, SqlParam)| p.0) =~= old_parts.map_values(
                        |p: (Seq<char>, SqlParam)| p.0,
                    ).push(sql@));
                    assert(parts.map_values(|p: (Seq<char>, SqlParam)| p.1) =~= old_parts.map_values(
                        |p: (Seq<char>, SqlParam)| p.1,
                    ).push(v@));
                }
            },
            Err(m) => {
                proof {
                    lemma_rule_clauses_error_persists(all, i as int + 1);
                }
                return Err(CoreError::Invalid(m));
            },
        }
        i += 1;
    }
    proof {
        assert(all.take(all.len() as int) =~= all);
    }
    let sep = if rules.match_all {
        " AND "
    } else {
        " OR "
    };
    Ok((join(&clauses, sep), params))
}

/// Once a prefix of the rules is rejected, the whole list is rejected with
/// the same message.
proof fn lemma_rule_clauses_error_persists(rules: Seq<SmartRule>, i: int)
    requires
        0 <= i <= rules.len(),
        spec_rule_clauses(rules.take(i)) is Err,
    ensures
        spec_rule_clauses(rules) == spec_rule_clauses(rules.take(i)),
    decreases rules.len() - i,
{
    if i == rules.len() {
        assert(rules.take(i) =~= rules);
    } else {
        assert(rules.take(i + 1).drop_last() =~= rules.take(i));
        lemma_rule_clauses_error_persists(rules, i + 1);
    }
}

/// Validates a rule set without running it (used before persisting): it is
/// accepted exactly when `smart_playlist_where` accepts it, and rejected
/// with the same message otherwise.
pub fn validate_rules(rules: &SmartRules) -> (r: Result<(), CoreError>)
    ensures
        r is Ok <==> spec_smart_playlist_where(*rules) is Ok,
        r matches Err(CoreError::Invalid(m)) ==> spec_smart_playlist_where(*rules) == Err::<
            (Seq<char>, Seq<SqlParam>),
            Seq<char>,
        >(m@),
        r matches Err(e) ==> e is Invalid,
{
    match smart_playlist_where(rules) {
        Ok(_) => Ok(()),
        Err(e) => Err(e),
    }
}

/// Rule lists that name the same fields and operators in the same order.
pub open spec fn same_shape(a: Seq<SmartRule>, b: Seq<SmartRule>) -> bool {
    &&& a.len() == b.len()
    &&& forall|i: int|
        0 <= i < a.len() ==> (#[trigger] a[i]).field@ == b[i].field@ && a[i].op@ == b[i].op@
}

proof fn lemma_rule_clause_shape(r1: SmartRule, r2: SmartRule)
    requires
        r1.field@ == r2.field@,
        r1.op@ == r2.op@,
    ensures
        spec_rule_clause(r1) is Ok <==> spec_rule_clause(r2) is Ok,
        spec_rule_clause(r1) is Ok ==> spec_rule_clause(r1)->Ok_0.0 == spec_rule_clause(
            r2,
        )->Ok_0.0,
        spec_rule_clause(r1) is Err ==> spec_rule_clause(r1) == spec_rule_clause(r2),
{
}

proof fn lemma_rule_clauses_shape(a: Seq<SmartRule>, b: Seq<SmartRule>)
    requires
        same_shape(a, b),
    ensures
        spec_rule_clauses(a) is Ok <==> spec_rule_clauses(b) is Ok,
        spec_rule_clauses(a) is Err ==> spec_rule_clauses(a) == spec_rule_clauses(b),
        spec_rule_clauses(a) is Ok ==> {
            let pa = spec_rule_clauses(a)->Ok_0;
            let pb = spec_rule_clauses(b)->Ok_0;
            &&& pa.len() == pb.len()
            &&& pa.map_values(|p: (Seq<char>, SqlParam)| p.0) == pb.map_values(
                |p: (Seq<char>, SqlParam)| p.0,
            )
        },
    decreases a.len(),
{
    if a.len() > 0 {
        let a1 = a.drop_last();
        let b1 = b.drop_last();
        assert(same_shape(a1, b1)) by {
            assert forall|i: int| 0 <= i < a1.len() implies (#[trigger] a1[i]).field@
                == b1[i].field@ && a1[i].op@ == b1[i].op@ by {
                assert(a1[i] == a[i]);
                assert(b1[i] == b[i]);
            }
        }
        lemma_rule_clauses_shape(a1, b1);
        assert(a.last() == a[a.len() - 1]);
        assert(b.last() == b[b.len() - 1]);
        lemma_rule_clause_shape(a.last(), b.last());
        if spec_rule_clauses(a) is Ok {
            let pa1 = spec_rule_clauses(a1)->Ok_0;
            let pb1 = spec_rule_clauses(b1)->Ok_0;
            let ca = spec_rule_clause(a.last())->Ok_0;
            let cb = spec_rule_clause(b.last())->Ok_0;
            assert(pa1.push(ca).map_values(|p: (Seq<char>, SqlParam)| p.0) =~= pa1.map_values(
                |p: (Seq<char>, SqlParam)| p.0,
            ).push(ca.0));
            assert(pb1.push(cb).map_values(|p: (Seq<char>, SqlParam)| p.0) =~= pb1.map_values(
                |p: (Seq<char>, SqlParam)| p.0,
            ).push(cb.0));
        }
    }
}

/// Rule values never reach the SQL text: two rule sets that differ only in
/// their values are accepted or rejected alike (with the same message),
/// and when accepted they give the same WHERE clause and the same number
/// of parameters.
pub proof fn lemma_where_ignores_values(r1: SmartRules, r2: SmartRules)
    requires
        r1.match_all == r2.match_all,
        same_shape(r1.rules@, r2.rules@),
    ensures
        spec_smart_playlist_where(r1) is Ok <==> spec_smart_playlist_where(r2) is Ok,
        spec_smart_playlist_where(r1) is Err ==> spec_smart_playlist_where(r1)
            == spec_smart_playlist_where(r2),
        spec_smart_playlist_where(r1) is Ok ==> spec_smart_playlist_where(r1)->Ok_0.0
            == spec_smart_playlist_where(r2)->Ok_0.0 && spec_smart_playlist_where(r1)->Ok_0.1.len()
            == spec_smart_playlist_where(r2)->Ok_0.1.len(),
{
    lemma_rule_clauses_shape(r1.rules@, r2.rules@);
}


/// The column of a numeric rule field.
pub open spec fn numeric_column(f: Seq<char>) -> Seq<char> {
    if f == "year"@ {
        "year"@
    } else if f == "playCount"@ {
        "play_count"@
    } else if f == "favorite"@ {
        "favorite"@
    } else if f == "durationMs"@ {
        "duration_ms"@
    } else {
        "bitrate"@
    }
}

/// The SQL comparison of an equality or ordering operator.
pub open spec fn comparison_symbol(op: Seq<char>) -> Seq<char> {
    if op == "eq"@ {
        "="@
    } else if op == "ne"@ {
        "!="@
    } else if op == "gt"@ {
        ">"@
    } else if op == "gte"@ {
        ">="@
    } else if op == "lt"@ {
        "<"@
    } else {
        "<="@
    }
}

/// The numeric rule fields are year, playCount, favorite, durationMs and
/// bitrate: a single rule on one of them with an equality or ordering
/// operator compiles to `column op ?` bound to an integer (for `favorite`
/// 1 or 0 by the value's truthiness, else the value parsed, 0 when it does
/// not parse). The text fields genre, artist, album and composer refuse the
/// ordering operators.
pub proof fn lemma_numeric_fields_compare_as_integers(rules: SmartRules)
    requires
        rules.rules@.len() == 1,
    ensures
        ({
            let rule = rules.rules@[0];
            let f = rule.field@;
            let op = rule.op@;
            let v = rule.value@;
            let numeric = f == "year"@ || f == "playCount"@ || f == "favorite"@ || f
                == "durationMs"@ || f == "bitrate"@;
            let compare = op == "eq"@ || op == "ne"@ || op == "gt"@ || op == "gte"@ || op
                == "lt"@ || op == "lte"@;
            let ordering = op == "gt"@ || op == "gte"@ || op == "lt"@ || op == "lte"@;
            let text = f == "genre"@ || f == "artist"@ || f == "album"@ || f == "composer"@;
            let n: i64 = if f == "favorite"@ {
                if spec_is_truthy(v) {
                    1
                } else {
                    0
                }
            } else {
                match spec_parse_i64(spec_trim(v)) {
                    Some(k) => k,
                    None => 0,
                }
            };
            &&& numeric && compare ==> spec_smart_playlist_where(rules) == Ok::<
                (Seq<char>, Seq<SqlParam>),
                Seq<char>,
            >((numeric_column(f) + " "@ + comparison_symbol(op) + " ?"@, seq![SqlParam::Integer(n)]))
            &&& text && ordering ==> spec_smart_playlist_where(rules) == Err::<
                (Seq<char>, Seq<SqlParam>),
                Seq<char>,
            >("unsupported smart playlist operator: "@ + op)
            &&& text && (op == "eq"@ || op == "ne"@) ==> spec_smart_playlist_where(rules) == Ok::<
                (Seq<char>, Seq<SqlParam>),
                Seq<char>,
            >((f + " "@ + comparison_symbol(op) + " ?"@, seq![SqlParam::Text(v)]))
            &&& (text || numeric) && op == "contains"@ ==> spec_smart_playlist_where(rules)
                == Ok::<(Seq<char>, Seq<SqlParam>), Seq<char>>(
                (
                    if numeric {
                        "CAST("@ + numeric_column(f) + " AS TEXT) LIKE ? ESCAPE '\\'"@
                    } else {
                        f + " LIKE ? ESCAPE '\\'"@
                    },
                    seq![SqlParam::Text("%"@ + spec_escape_like(v) + "%"@)],
                ),
            )
        }),
{
    let rule = rules.rules@[0];
    let f = rule.field@;
    let op = rule.op@;
    reveal_strlit("year");
    reveal_strlit("playCount");
    reveal_strlit("play_count");
    reveal_strlit("favorite");
    reveal_strlit("durationMs");
    reveal_strlit("duration_ms");
    reveal_strlit("bitrate");
    reveal_strlit("genre");
    reveal_strlit("artist");
    reveal_strlit("album");
    reveal_strlit("composer");
    reveal_strlit("eq");
    reveal_strlit("ne");
    reveal_strlit("gt");
    reveal_strlit("gte");
    reveal_strlit("lt");
    reveal_strlit("lte");
    reveal_strlit("contains");
    reveal_strlit(" = ?");
    reveal_strlit(" != ?");
    reveal_strlit(" ?");
    reveal_strlit(" ");
    reveal_strlit("=");
    reveal_strlit("!=");
    reveal_strlit(">");
    reveal_strlit(">=");
    reveal_strlit("<");
    reveal_strlit("<=");
    assert("eq"@.len() == 2 && "ne"@.len() == 2 && "gt"@.len() == 2 && "lt"@.len() == 2);
    assert("gte"@.len() == 3 && "lte"@.len() == 3 && "contains"@.len() == 8);
    assert("eq"@[0] == 'e' && "ne"@[0] == 'n' && "gt"@[0] == 'g' && "lt"@[0] == 'l');
    assert("gte"@[0] == 'g' && "lte"@[0] == 'l');
    assert("year"@.len() == 4 && "playCount"@.len() == 9 && "favorite"@.len() == 8);
    assert("durationMs"@.len() == 10 && "bitrate"@.len() == 7 && "genre"@.len() == 5);
    assert("artist"@.len() == 6 && "album"@.len() == 5 && "composer"@.len() == 8);
    assert("favorite"@[0] == 'f' && "composer"@[0] == 'c' && "genre"@[0] == 'g' && "album"@[0]
        == 'a');
    let rs = rules.rules@;
    assert(rs.drop_last() =~= Seq::<SmartRule>::empty());
    assert(rs.last() == rule);
    assert(spec_rule_clauses(rs.drop_last()) == Ok::<Seq<(Seq<char>, SqlParam)>, Seq<char>>(
        Seq::empty(),
    ));
    match spec_rule_clause(rule) {
        Ok(p) => {
            assert(Seq::<(Seq<char>, SqlParam)>::empty().push(p) =~= seq![p]);
            assert(spec_rule_clauses(rs) == Ok::<Seq<(Seq<char>, SqlParam)>, Seq<char>>(seq![p]));
            let parts = seq![p];
            assert(parts.map_values(|q: (Seq<char>, SqlParam)| q.0) =~= seq![p.0]);
            assert(parts.map_values(|q: (Seq<char>, SqlParam)| q.1) =~= seq![p.1]);
            let numeric = f == "year"@ || f == "playCount"@ || f == "favorite"@ || f
                == "durationMs"@ || f == "bitrate"@;
            if numeric && op == "eq"@ {
                assert(numeric_column(f) + " = ?"@ =~= numeric_column(f) + " "@
                    + comparison_symbol(op) + " ?"@);
            } else if numeric && op == "ne"@ {
                assert(numeric_column(f) + " != ?"@ =~= numeric_column(f) + " "@
                    + comparison_symbol(op) + " ?"@);
            } else if op == "eq"@ {
                assert(f + " = ?"@ =~= f + " "@ + comparison_symbol(op) + " ?"@);
            } else if op == "ne"@ {
                assert(f + " != ?"@ =~= f + " "@ + comparison_symbol(op) + " ?"@);
            }
        },
        Err(e) => {
            assert(spec_rule_clauses(rs) == Err::<Seq<(Seq<char>, SqlParam)>, Seq<char>>(e));
        },
    }
}
} // verus!
