use dataflow::security::Policy;

#[test]
fn it_parses() {
    let policy_text = r#"[{ "table": "posts", "predicate": "WHERE posts.type = ?" },
                          { "table": "posts", "predicate": "WHERE posts.author = ?" }]"#;

    let policies = Policy::parse(policy_text).unwrap();

    assert_eq!(policies.len(), 2);
}

#[test]
fn parse_keeps_the_rendered_table_field() {
    let policy_text = r#"[{ "table": "posts", "predicate": "WHERE posts.type = ?" }]"#;
    let policies = Policy::parse(policy_text).unwrap();
    // The table field is the JSON rendering of the value, quotes included.
    assert_eq!(policies[0].table, "\"posts\"");
}

#[test]
fn parse_rejects_text_that_is_no_json_array() {
    assert!(Policy::parse("not json at all").is_none());
    assert!(Policy::parse("{\"table\": \"posts\"}").is_none());
}

#[test]
fn parse_rejects_a_missing_field() {
    assert!(Policy::parse(r#"[{ "table": "posts" }]"#).is_none());
    assert!(Policy::parse(r#"[{ "predicate": "WHERE posts.type = ?" }]"#).is_none());
}

#[test]
fn parse_rejects_a_non_string_field() {
    assert!(Policy::parse(r#"[{ "table": 3, "predicate": "WHERE posts.type = ?" }]"#).is_none());
}

#[test]
fn parse_rejects_an_unparseable_predicate() {
    assert!(Policy::parse(r#"[{ "table": "posts", "predicate": ")(" }]"#).is_none());
}

#[test]
fn parse_accepts_an_empty_array() {
    assert_eq!(Policy::parse("[]").unwrap().len(), 0);
}

#[test]
fn parse_accepts_short_numeric_literals() {
    let policy_text = r#"[{ "table": "posts", "predicate": "WHERE posts.votes = 9999" }]"#;
    assert_eq!(Policy::parse(policy_text).unwrap().len(), 1);
}

#[test]
fn parse_accepts_wide_plain_literals() {
    // A plain integer literal converts through sixty-four bits: five digits
    // are fine outside a parenthesized length.
    let policy_text = r#"[{ "table": "posts", "predicate": "WHERE posts.votes = 70000" }]"#;
    assert_eq!(Policy::parse(policy_text).unwrap().len(), 1);
}

#[test]
fn parse_rejects_a_type_length_the_sql_parser_cannot_convert() {
    // A digit run right after an opening parenthesis can be a type length,
    // which the parser converts through sixteen bits; five digits overflow.
    let policy_text =
        r#"[{ "table": "posts", "predicate": "WHERE CAST(posts.t AS char(70000)) = ?" }]"#;
    assert!(Policy::parse(policy_text).is_none());
}

#[test]
fn parse_rejects_a_fixed_point_half_the_sql_parser_cannot_convert() {
    // Either half of a fixed-point literal converts through thirty-two bits;
    // ten digits overflow.
    let policy_text = r#"[{ "table": "posts", "predicate": "WHERE posts.score = 0.9999999999" }]"#;
    assert!(Policy::parse(policy_text).is_none());
}

#[test]
fn parse_survives_an_overflowing_integer_literal() {
    // Twenty digits overflow the widest integer conversion the SQL parser
    // unwraps; the policy is rejected instead.
    let policy_text =
        r#"[{ "table": "posts", "predicate": "WHERE posts.id = 9223372036854775808" }]"#;
    assert!(Policy::parse(policy_text).is_none());
}
