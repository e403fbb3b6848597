use ais::cli::Cli;
use ais::emit::render_output;
use ais::parser::parse_tables;
use ais::selector::select;

pub const TEST_SCHEMA: &str = r#"ActiveRecord::Schema[7.0].define(version: 2024_02_11_123456) do
  create_table "contacts" do |t|
    t.string "email"
    t.string "first_name"
    t.string "last_name"
    t.timestamps
  end

  create_table "matters" do |t|
    t.string "title"
    t.text "description"
    t.references "contact", null: false
    t.timestamps
  end

  create_table "notes" do |t|
    t.text "content"
    t.references "matter", null: false
    t.timestamps
  end

  create_view "charges", sql_definition: <<-SQL
      SELECT time_entries.actual_hours
      FROM time_entries;
  SQL
end"#;

#[test]
fn test_cli_carries_request() {
    let cli = Cli::new(
        "db/schema.rb".to_string(),
        "ai_context_schema.rb".to_string(),
        vec!["contacts".to_string()],
    );
    assert_eq!(cli.schema_path, "db/schema.rb");
    assert_eq!(cli.output_path, "ai_context_schema.rb");
    assert_eq!(cli.tables, vec!["contacts".to_string()]);
}

#[test]
fn test_extract_specific_tables() {
    let tables = parse_tables(TEST_SCHEMA);

    let requested_tables = vec!["contacts".to_string(), "matters".to_string()];
    let sel = select(tables, &requested_tables);

    let output_content = render_output(&sel.matched);
    assert!(output_content.contains("create_table \"contacts\""));
    assert!(output_content.contains("create_table \"matters\""));
    assert!(!output_content.contains("create_table \"notes\""));
}

#[test]
fn test_extract_specific_views() {
    let tables = parse_tables(TEST_SCHEMA);

    let requested_views = vec!["charges".to_string()];
    let sel = select(tables, &requested_views);

    let output_content = render_output(&sel.matched);
    assert!(output_content.contains("create_view \"charges\""));
}

#[test]
fn test_mixed_existing_and_nonexistent_tables() {
    let tables = parse_tables(TEST_SCHEMA);

    let requested_tables = vec!["contacts".to_string(), "nonexistent".to_string()];
    let sel = select(tables, &requested_tables);

    assert_eq!(sel.matched.len(), 1);
    assert_eq!(sel.matched[0].name, "contacts");

    let output_content = render_output(&sel.matched);
    assert!(output_content.contains("create_table \"contacts\""));
    assert!(!output_content.contains("nonexistent"));
}

#[test]
fn test_list_available_tables() {
    let tables = parse_tables(TEST_SCHEMA);

    let table_names: Vec<_> = tables.iter().map(|td| td.name.clone()).collect();
    assert!(table_names.contains(&"contacts".to_string()));
    assert!(table_names.contains(&"matters".to_string()));
    assert!(table_names.contains(&"notes".to_string()));
    assert!(table_names.contains(&"charges".to_string()));

    assert_eq!(table_names.len(), 4, "Expected exactly 4 tables/views");
}

#[test]
fn test_no_matching_tables() {
    let tables = parse_tables(TEST_SCHEMA);

    let requested_tables = vec!["nonexistent1".to_string(), "nonexistent2".to_string()];
    let sel = select(tables, &requested_tables);

    assert_eq!(sel.matched.len(), 0);
}

#[test]
fn test_extract_single_view() {
    let tables = parse_tables(TEST_SCHEMA);

    let requested_views = vec!["charges".to_string()];
    let sel = select(tables, &requested_views);

    assert_eq!(sel.matched.len(), 1, "Expected exactly one view");
    assert_eq!(sel.matched[0].name, "charges");

    let output_content = render_output(&sel.matched);
    assert!(output_content.contains("create_view \"charges\""));
    assert!(!output_content.contains("create_table"));
}

#[test]
fn test_parse_table_with_schema_variations() {
    let test_schema = r#"ActiveRecord::Schema[7.0].define(version: 2025_02_11_123456) do
        create_table "contacts" do |t|
            t.string "email"
        end

        create_table(:users, force: :cascade) do |t|
            t.string "name"
        end

        create_table "members", force: :cascade do |t|
            t.string "title"
        end

        create_table(:tasks) do |t|
            t.string "description"
        end
    end"#;

    let tables = parse_tables(test_schema);

    let table_names: Vec<_> = tables.iter().map(|td| td.name.clone()).collect();
    assert!(table_names.contains(&"contacts".to_string()));
    assert!(table_names.contains(&"users".to_string()));
    assert!(table_names.contains(&"members".to_string()));
    assert!(table_names.contains(&"tasks".to_string()));
}
