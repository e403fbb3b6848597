use ais::emit::render_output;
use ais::parser::parse_tables;
use ais::selector::select;

const SCHEMA: &str = r#"ActiveRecord::Schema[7.0].define(version: 2024_02_11_123456) do
  create_table "contacts" do |t|
    t.string "email"
  end

  create_table "matters" do |t|
    t.string "title"
  end

  create_table "notes" do |t|
    t.text "content"
  end

  create_view "charges", sql_definition: <<-SQL
      SELECT 1; -- the end marker appears here
      FROM time_entries;
  SQL
end"#;

#[test]
fn test_scenario_contacts_and_charges() {
    let defs = parse_tables(SCHEMA);
    let req = vec!["contacts".to_string(), "charges".to_string()];
    let sel = select(defs, &req);
    let names: Vec<&str> = sel.matched.iter().map(|d| d.name.as_str()).collect();
    assert_eq!(names, vec!["contacts", "charges"]);
    assert!(sel.missing.is_empty());
}

#[test]
fn test_scenario_contacts_and_ghost() {
    let defs = parse_tables(SCHEMA);
    let req = vec!["contacts".to_string(), "ghost".to_string()];
    let sel = select(defs, &req);
    let names: Vec<&str> = sel.matched.iter().map(|d| d.name.as_str()).collect();
    assert_eq!(names, vec!["contacts"]);
    assert_eq!(sel.missing, vec!["ghost".to_string()]);
}

#[test]
fn test_scenario_only_ghosts() {
    let defs = parse_tables(SCHEMA);
    let req = vec!["ghost1".to_string(), "ghost2".to_string()];
    let sel = select(defs, &req);
    assert!(sel.matched.is_empty());
    assert_eq!(sel.missing, vec!["ghost1".to_string(), "ghost2".to_string()]);
    // zero matches is the caller's no-match exit path
    assert!(sel.found.is_empty());
}

#[test]
fn test_empty_request_yields_empty_partition() {
    let defs = parse_tables(SCHEMA);
    let req: Vec<String> = vec![];
    let sel = select(defs, &req);
    assert!(sel.matched.is_empty());
    assert!(sel.found.is_empty());
    assert!(sel.missing.is_empty());
}

#[test]
fn test_matched_keeps_source_order_not_request_order() {
    let defs = parse_tables(SCHEMA);
    let req = vec!["notes".to_string(), "contacts".to_string()];
    let sel = select(defs, &req);
    let names: Vec<&str> = sel.matched.iter().map(|d| d.name.as_str()).collect();
    assert_eq!(names, vec!["contacts", "notes"]);
}

#[test]
fn test_duplicate_definitions_all_selected() {
    let schema = "create_table \"t1\" do |t|\n  t.a\nend\ncreate_table \"t1\" do |t|\n  t.b\nend";
    let defs = parse_tables(schema);
    let req = vec!["t1".to_string()];
    let sel = select(defs, &req);
    assert_eq!(sel.matched.len(), 2);
}

#[test]
fn test_render_output_blank_line_separated() {
    let schema = "create_table \"a\" do |t|\nend\ncreate_table \"b\" do |t|\nend";
    let defs = parse_tables(schema);
    let req = vec!["a".to_string(), "b".to_string()];
    let sel = select(defs, &req);
    let out = render_output(&sel.matched);
    assert_eq!(out, "create_table \"a\" do |t|\nend\n\ncreate_table \"b\" do |t|\nend");
}

#[test]
fn test_render_output_empty() {
    let defs = parse_tables("");
    let out = render_output(&defs);
    assert_eq!(out, "");
}
