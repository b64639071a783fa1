use scat::json::{int_text, row_display, Row, Value};
use scat::output::{
    canonical_script_field, canonicalize_row_keys, checkout_label, contributors_from_script,
    csv_escape, dep_entry_to_json, display_script_field, format_size, json_array_field,
    json_script_field, mtime_field, render_csv_row, render_script_csv, script_field_header,
    script_rows_to_json, script_table_rows, selected_script_fields, size_field, str_field,
    used_by_row_to_json, warning_kinds, DependencyEntry,
};
use scat::table::{
    fit_column_widths, render_table_with_width, table_cells, truncate_left_with_ellipsis,
    truncate_with_ellipsis,
};

fn text(s: &str) -> Value {
    Value::Text(s.to_string())
}

fn texts(list: &[&str]) -> Vec<String> {
    list.iter().map(|s| s.to_string()).collect()
}

fn text_at<'a>(row: &'a Row, key: &str) -> Option<&'a str> {
    match row.get(key) {
        Some(Value::Text(s)) => Some(s.as_str()),
        _ => None,
    }
}

fn sample_row() -> Row {
    let mut row = Row::new();
    row.insert("logical_path", text("/catalog/scripts/checkmc.py"));
    row.insert("language", text("python"));
    row.insert("owner", text("Alice, Inc."));
    // Includes quotes and a newline so CSV escaping is exercised explicitly.
    row.insert("purpose", text("Checks \"mc\"\nquickly"));
    row.insert("size", Value::Int(1536));
    row.insert(
        "mtime",
        Value::Real { whole: 1_715_000_000, notation: "1715000000.0".to_string() },
    );
    row.insert("tags", text(r#"["ops","nightly"]"#));
    row.insert("entry_points", text(r#"["main"]"#));
    row.insert("related", text(r#"["/catalog/scripts/helper.py"]"#));
    row
}

#[test]
fn csv_export_escapes_quotes_commas_and_newlines() {
    let csv = render_script_csv(
        &vec![sample_row()],
        &texts(&["path", "owner", "purpose"]),
    );
    assert_eq!(
        csv,
        "path,owner,purpose\n/catalog/scripts/checkmc.py,\"Alice, Inc.\",\"Checks \"\"mc\"\"\nquickly\"\n"
    );
}

#[test]
fn json_export_uses_canonical_keys_when_no_fields_specified() {
    let rows = script_rows_to_json(&vec![sample_row()], &Vec::new());
    assert_eq!(rows.len(), 1);
    assert!(
        rows[0].get("path").is_some(),
        "should use canonical 'path' key"
    );
    assert!(
        rows[0].get("logical_path").is_none(),
        "should not expose raw 'logical_path' key"
    );
}

#[test]
fn json_export_filters_and_converts_selected_fields() {
    let rows = script_rows_to_json(
        &vec![sample_row()],
        &texts(&["path", "tags", "size"]),
    );
    assert_eq!(rows.len(), 1);
    assert_eq!(rows[0].len(), 3);
    assert_eq!(
        text_at(&rows[0], "path"),
        Some("/catalog/scripts/checkmc.py")
    );
    assert!(matches!(rows[0].get("size"), Some(Value::Int(1536))));
    let Some(Value::Json(tags)) = rows[0].get("tags") else {
        panic!("tags must be an array");
    };
    assert_eq!(
        serde_json::from_str::<Vec<String>>(tags).unwrap(),
        vec!["ops", "nightly"]
    );
}

#[test]
fn script_table_rows_use_selected_headers() {
    let (headers, rows, truncate_left) =
        script_table_rows(&vec![sample_row()], &texts(&["path", "size"]));
    assert_eq!(headers, vec!["Path".to_string(), "Size".to_string()]);
    assert_eq!(
        rows,
        vec![vec![
            "/catalog/scripts/checkmc.py".to_string(),
            "1.5 KB".to_string()
        ]]
    );
    assert_eq!(truncate_left, vec![true, false]);
}

#[test]
fn table_rendering_truncates_long_values() {
    let table = render_table_with_width(
        &texts(&["Path", "Owner"]),
        &vec![vec![
            "/really/long/path/that/should/truncate.py".to_string(),
            "A".to_string(),
        ]],
        32,
        &Vec::new(),
    );

    assert!(table.contains('…'));
    assert!(table.contains("┌"));
}

#[test]
fn table_rendering_no_color_has_no_ansi_escape_codes() {
    let table = render_table_with_width(
        &texts(&["Path", "Owner"]),
        &vec![vec![
            "/catalog/scripts/foo.py".to_string(),
            "Alice".to_string(),
        ]],
        80,
        &Vec::new(),
    );
    assert!(!table.contains("\u{1b}["));
    assert!(table.contains("/catalog/scripts/foo.py"));
}

#[test]
fn canonicalize_row_keys_renames_db_columns() {
    let mut row = Row::new();
    row.insert("logical_path", text("/foo/bar.py"));
    row.insert("indexed_at", text("2025-01-01T00:00:00"));
    row.insert("symlink_target", text("/foo/actual.py"));
    row.insert("language", text("python"));

    let canonical = canonicalize_row_keys(&row);
    assert_eq!(text_at(&canonical, "path"), Some("/foo/bar.py"));
    assert_eq!(text_at(&canonical, "indexed"), Some("2025-01-01T00:00:00"));
    assert_eq!(text_at(&canonical, "symlink"), Some("/foo/actual.py"));
    assert_eq!(text_at(&canonical, "language"), Some("python"));
    assert!(canonical.get("logical_path").is_none());
    assert!(canonical.get("indexed_at").is_none());
    assert!(canonical.get("symlink_target").is_none());
}

#[test]
fn canonicalize_row_keys_preserves_non_renamed_fields() {
    let mut row = Row::new();
    row.insert("checkout_user", text("alice"));
    row.insert("checkout_os", text("linux"));
    row.insert("logical_path", text("/foo/bar.py"));

    let canonical = canonicalize_row_keys(&row);
    assert_eq!(text_at(&canonical, "path"), Some("/foo/bar.py"));
    assert_eq!(text_at(&canonical, "checkout_user"), Some("alice"));
    assert_eq!(text_at(&canonical, "checkout_os"), Some("linux"));
}

#[test]
fn sizes_are_shown_in_the_largest_unit() {
    assert_eq!(format_size(0), "0 B");
    assert_eq!(format_size(1023), "1023 B");
    assert_eq!(format_size(1024), "1.0 KB");
    assert_eq!(format_size(1536), "1.5 KB");
    assert_eq!(format_size(1024 * 1024), "1.0 MB");
    assert_eq!(format_size(5 * 1024 * 1024 * 1024), "5.0 GB");
    for bytes in [1025u64, 1075, 1076, 1100, 123_456, 1_048_575, 999_999_999, 87_654_321_000] {
        let unit = if bytes >= 1 << 30 {
            (1u64 << 30, "GB")
        } else if bytes >= 1 << 20 {
            (1 << 20, "MB")
        } else {
            (1 << 10, "KB")
        };
        assert_eq!(format_size(bytes), format!("{:.1} {}", bytes as f64 / unit.0 as f64, unit.1));
    }
}

#[test]
fn fields_are_shown_or_dashed() {
    let row = sample_row();
    assert_eq!(str_field(&row, "owner"), "Alice, Inc.");
    assert_eq!(str_field(&row, "missing"), "—");
    assert_eq!(size_field(&row), "1.5 KB");
    assert_eq!(size_field(&Row::new()), "—");
    assert_eq!(mtime_field(&row), "2024-05-06T12:53:20Z");
    assert_eq!(mtime_field(&Row::new()), "—");
    assert_eq!(json_array_field(&row, "tags"), "ops, nightly");
    assert_eq!(json_array_field(&row, "owner"), "—");
    assert_eq!(display_script_field(&row, "path"), "/catalog/scripts/checkmc.py");
    assert_eq!(display_script_field(&row, "tags"), "ops, nightly");
    assert_eq!(row_display(&row, "size"), "1536");
    assert_eq!(int_text(i64::MIN), "-9223372036854775808");
    assert_eq!(int_text(0), "0");
}

#[test]
fn checkouts_and_warnings_are_summed_up() {
    let mut row = Row::new();
    assert_eq!(checkout_label(&row), "clean");
    row.insert("checkout_user", text("bob"));
    assert_eq!(checkout_label(&row), "checked out by bob");
    row.insert("checkout_timestamp", text("20240101_0900"));
    assert_eq!(checkout_label(&row), "checked out by bob since 20240101_0900");
    row.insert(
        "vc_warnings",
        text(r#"[{"kind":"stale","message":"m"},{"message":"n"},{"kind":"drift"}]"#),
    );
    assert_eq!(warning_kinds(&row), "stale; drift");
}

#[test]
fn field_names_are_canonical() {
    assert_eq!(canonical_script_field("logical_path"), Some("path"));
    assert_eq!(canonical_script_field("path"), Some("path"));
    assert_eq!(canonical_script_field("nonsense"), None);
    assert_eq!(script_field_header("path"), "Path");
    let shown = selected_script_fields(&texts(&["logical_path", "nonsense", "size"]));
    assert_eq!(shown, texts(&["path", "size"]));
    assert!(selected_script_fields(&Vec::new()).contains(&"path".to_string()));
    assert!(matches!(json_script_field(&sample_row(), "size"), Value::Int(1536)));
    assert!(matches!(json_script_field(&Row::new(), "owner"), Value::Null));
}

#[test]
fn a_symlink_has_a_line_of_its_own() {
    let mut row = sample_row();
    row.insert("symlink_target", text("/catalog/scripts/real.py"));
    let (_, rows, _) = script_table_rows(&vec![row], &texts(&["path", "size"]));
    assert_eq!(rows.len(), 2);
    assert!(rows[1][0].contains("/catalog/scripts/real.py"));
}

fn read_csv_line(line: &str) -> Vec<String> {
    let mut out = vec![String::new()];
    let mut quoted = false;
    let mut chars = line.chars().peekable();
    while let Some(c) = chars.next() {
        if quoted && c == '"' && chars.peek() == Some(&'"') {
            chars.next();
            out.last_mut().unwrap().push('"');
        } else if c == '"' {
            quoted = !quoted;
        } else if c == ',' && !quoted {
            out.push(String::new());
        } else {
            out.last_mut().unwrap().push(c);
        }
    }
    out
}

#[test]
fn csv_can_be_read_back() {
    let values = texts(&["plain", "a,b", "say \"hi\"", "two\nlines", ""]);
    assert_eq!(read_csv_line(&render_csv_row(&values)), values);
    assert_eq!(csv_escape("plain"), "plain");
    assert_eq!(csv_escape("a\r"), "\"a\r\"");
}

#[test]
fn dependency_entries_become_objects() {
    let entry = DependencyEntry {
        logical_path: "/a.py".to_string(),
        depends_on_path: Some("os".to_string()),
        language: Some("python".to_string()),
        owner: None,
        purpose: None,
        indexed: true,
    };
    let row = dep_entry_to_json(&entry);
    assert_eq!(text_at(&row, "path"), Some("/a.py"));
    assert_eq!(text_at(&row, "depends_on_path"), Some("os"));
    assert!(matches!(row.get("owner"), Some(Value::Null)));
    assert!(matches!(row.get("indexed"), Some(Value::Bool(true))));
    let used = used_by_row_to_json(&sample_row());
    assert_eq!(used.len(), 4);
    assert_eq!(text_at(&used, "path"), Some("/catalog/scripts/checkmc.py"));
}

#[test]
fn contributors_are_sorted_and_unique() {
    let mut row = Row::new();
    row.insert("owner", text("carol"));
    row.insert(
        "metadata_json",
        text(
            r#"{"history_entries":[{"author":"bob"},{"author":null},{"author":"carol"},{"author":"alice"}]}"#,
        ),
    );
    let names = contributors_from_script(&row);
    let mut sorted = names.clone();
    sorted.sort();
    sorted.dedup();
    assert_eq!(names, sorted);
    assert!(names.contains(&"alice".to_string()));
    assert!(names.contains(&"bob".to_string()));
}

#[test]
fn cuts_count_columns_not_bytes() {
    assert_eq!(truncate_with_ellipsis("abcdef", 6), "abcdef");
    assert_eq!(truncate_with_ellipsis("abcdef", 4), "abc…");
    assert_eq!(truncate_with_ellipsis("abcdef", 1), "…");
    assert_eq!(truncate_left_with_ellipsis("abcdef", 4), "…def");
    // A wide character takes two columns.
    assert_eq!(truncate_with_ellipsis("日本語", 6), "日本語");
    assert_eq!(truncate_with_ellipsis("日本語", 5), "日本…");
    assert_eq!(truncate_with_ellipsis("日本語", 4), "日…");
}

#[test]
fn columns_fit_the_table() {
    let headers = texts(&["Path", "Owner"]);
    let rows = vec![texts(&["/a/b", "x"])];
    assert_eq!(fit_column_widths(&headers, &rows, 80), vec![4, 5]);
    let wide = vec![texts(&["/really/long/path/that/should/truncate.py", "A"])];
    let widths = fit_column_widths(&headers, &wide, 32);
    assert!(widths[0] < 41);
    let (_, cells) = table_cells(&headers, &wide, 32, &vec![true, false]);
    assert!(cells[0][0].starts_with('…'));
    assert!(cells[0][0].ends_with("truncate.py"));
}
