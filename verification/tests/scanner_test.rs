use ais::parser::{parse_tables, DeclKind};

const SCHEMA: &str = r#"ActiveRecord::Schema[7.0].define(version: 2024_02_11_123456) do
  create_table "contacts" do |t|
    t.string "email"
    t.timestamps
  end

  create_table "matters" do |t|
    t.string "title"
    t.timestamps
  end

  create_table "notes" do |t|
    t.text "content"
    t.timestamps
  end

  create_view "charges", sql_definition: <<-SQL
      SELECT 1; -- the end of the charges
      SELECT time_entries.actual_hours
      FROM time_entries;
  SQL
end"#;

#[test]
fn test_scan_finds_all_in_source_order() {
    let defs = parse_tables(SCHEMA);
    let names: Vec<&str> = defs.iter().map(|d| d.name.as_str()).collect();
    assert_eq!(names, vec!["contacts", "matters", "notes", "charges"]);
    for w in defs.windows(2) {
        assert!(w[0].order_index < w[1].order_index);
    }
}

#[test]
fn test_span_starts_at_keyword_and_matches_input() {
    let defs = parse_tables(SCHEMA);
    for d in &defs {
        let span: String = SCHEMA
            .chars()
            .skip(d.order_index)
            .take(d.content.chars().count())
            .collect();
        assert_eq!(span, d.content);
        assert!(d.content.starts_with("create_table") || d.content.starts_with("create_view"));
    }
}

#[test]
fn test_table_span_ends_at_its_end_keyword() {
    let defs = parse_tables(SCHEMA);
    let contacts = &defs[0];
    assert_eq!(contacts.kind, DeclKind::Table);
    assert!(contacts.content.ends_with("end"));
    assert!(!contacts.content.contains("matters"));
}

#[test]
fn test_literal_safety_end_inside_sql_text() {
    // The literal content holds the word "end" in a comment-like SQL line;
    // the view must still be captured through the closing SQL sentinel.
    let defs = parse_tables(SCHEMA);
    let charges = defs.iter().find(|d| d.name == "charges").unwrap();
    assert_eq!(charges.kind, DeclKind::View);
    assert!(charges.content.contains("the end of the charges"));
    assert!(charges.content.contains("FROM time_entries;"));
    assert!(charges.content.trim_end().ends_with("SQL"));
}

#[test]
fn test_rescan_of_emitted_definition_is_idempotent() {
    // Emitting one definition twice, blank-line separated as the writer
    // does, and re-scanning yields two identical definitions.
    let defs = parse_tables(SCHEMA);
    for d in &defs {
        let doubled = format!("{}\n\n{}", d.content, d.content);
        let again = parse_tables(&doubled);
        assert_eq!(again.len(), 2, "definition {} did not rescan in pairs", d.name);
        for r in &again {
            assert_eq!(r.name, d.name);
            assert_eq!(r.content, d.content);
        }
    }
}

#[test]
fn test_name_normalization_quoted_and_symbol() {
    let quoted = "create_table \"users\" do |t|\n  t.string \"name\"\nend";
    let symbol = "create_table :users do |t|\n  t.string \"name\"\nend";
    let a = parse_tables(quoted);
    let b = parse_tables(symbol);
    assert_eq!(a.len(), 1);
    assert_eq!(b.len(), 1);
    assert_eq!(a[0].name, b[0].name);
    assert_eq!(a[0].name, "users");
}

#[test]
fn test_nested_do_blocks_close_at_matching_end() {
    let schema = "create_table :jobs do |t|\n  t.items.each do |x|\n    x.note\n  end\n  t.string \"kind\"\nend\nafter";
    let defs = parse_tables(schema);
    assert_eq!(defs.len(), 1);
    assert!(defs[0].content.ends_with("\nend"));
    assert!(defs[0].content.contains("t.string \"kind\""));
    assert!(!defs[0].content.contains("after"));
}

#[test]
fn test_brace_view_literal() {
    let schema = "create_view :totals {\n  SELECT sum(x) FROM t;\n}\nrest";
    let defs = parse_tables(schema);
    assert_eq!(defs.len(), 1);
    assert_eq!(defs[0].name, "totals");
    assert_eq!(defs[0].kind, DeclKind::View);
    assert!(defs[0].content.ends_with("}"));
    assert!(!defs[0].content.contains("rest"));
}

#[test]
fn test_crlf_input_tolerated() {
    let schema = "create_table \"logs\" do |t|\r\n  t.string \"line\"\r\nend\r\n";
    let defs = parse_tables(schema);
    assert_eq!(defs.len(), 1);
    assert_eq!(defs[0].name, "logs");
    assert!(defs[0].content.ends_with("end"));
}

#[test]
fn test_unterminated_declaration_is_skipped() {
    let schema = "create_table \"broken\" do |t|\n  t.string \"x\"\n";
    let defs = parse_tables(schema);
    assert_eq!(defs.len(), 0);
}

#[test]
fn test_keyword_without_name_is_skipped() {
    let schema = "create_table do |t|\nend\ncreate_table \"ok\" do |t|\nend";
    let defs = parse_tables(schema);
    assert_eq!(defs.len(), 1);
    assert_eq!(defs[0].name, "ok");
}

#[test]
fn test_unterminated_tail_keeps_earlier_definitions() {
    let schema = "create_table \"a\" do |t|\n  t.x\nend\ncreate_table \"broken\" do |t|\n  t.y\n";
    let defs = parse_tables(schema);
    assert_eq!(defs.len(), 1);
    assert_eq!(defs[0].name, "a");
}

#[test]
fn test_unterminated_outer_emits_no_partial_record() {
    // The outer candidate swallows the inner block while looking for its
    // own terminator, reaches the end of the input, and the scan stops.
    let schema = "create_table \"x\" do |t|\n  create_table \"y\" do |t|\n  end\n";
    let defs = parse_tables(schema);
    assert_eq!(defs.len(), 0);
}

#[test]
fn test_empty_input_yields_nothing() {
    let defs = parse_tables("");
    assert_eq!(defs.len(), 0);
}

#[test]
fn test_duplicate_names_all_kept() {
    let schema = "create_table \"t1\" do |t|\n  t.a\nend\ncreate_table \"t1\" do |t|\n  t.b\nend";
    let defs = parse_tables(schema);
    assert_eq!(defs.len(), 2);
    assert_eq!(defs[0].name, "t1");
    assert_eq!(defs[1].name, "t1");
    assert!(defs[0].content.contains("t.a"));
    assert!(defs[1].content.contains("t.b"));
}
