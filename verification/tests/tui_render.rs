use scat::json::{Row, Value};
use scat::tui::app::TuiApp;
use scat::tui::clipboard::{base64_encode, copy_sequence};
use scat::tui::highlight::{
    highlight_lines, lines_in_time, lines_of_steps, plain_lines, style_for, HighlightStep,
};
use scat::tui::mouse::{MouseAction, TerminalEvent};
use scat::tui::render::{
    clamp_scroll_offset, focus_border, format_revision_row, left_truncate_path, line_count,
    result_line, revision_lines, spinner_char,
};
use scat::tui::styled::{Color, Line, Style};
use scat::tui::{Area, Focus, Key, KeyCode, Modifiers, ViewMode};

fn line_text(line: &Line) -> String {
    line.iter().map(|s| s.text.as_str()).collect()
}

fn plain() -> Style {
    Style { fg: Color::Default, bg: Color::Default, bold: false }
}

fn revision_row(revision_type: &str, os: &str, user: &str, timestamp: &str) -> Row {
    let mut row = Row::new();
    row.insert("revision_type", Value::Text(revision_type.to_string()));
    row.insert("os_flavor", Value::Text(os.to_string()));
    row.insert("user", Value::Text(user.to_string()));
    row.insert("timestamp", Value::Text(timestamp.to_string()));
    row
}

#[test]
fn base64_matches_known_vectors() {
    // RFC 4648 test vectors.
    assert_eq!(base64_encode(b""), "");
    assert_eq!(base64_encode(b"f"), "Zg==");
    assert_eq!(base64_encode(b"fo"), "Zm8=");
    assert_eq!(base64_encode(b"foo"), "Zm9v");
    assert_eq!(base64_encode(b"foob"), "Zm9vYg==");
    assert_eq!(base64_encode(b"fooba"), "Zm9vYmE=");
    assert_eq!(base64_encode(b"foobar"), "Zm9vYmFy");
}

#[test]
fn base64_encodes_a_logical_path() {
    assert_eq!(
        base64_encode(b"/catalog/scripts/tools/foo.py"),
        "L2NhdGFsb2cvc2NyaXB0cy90b29scy9mb28ucHk="
    );
}

#[test]
fn empty_content_returns_no_lines() {
    assert!(highlight_lines("", "python").is_empty());
    assert!(highlight_lines("", "shell").is_empty());
}

#[test]
fn unsupported_language_falls_back_to_plain_unstyled_lines() {
    let lines = highlight_lines("SELECT 1", "sql");
    assert_eq!(lines.len(), 1);
    assert_eq!(line_text(&lines[0]), "SELECT 1");
    assert_eq!(lines[0].len(), 1);
    assert_eq!(lines[0][0].style, plain());
}

#[test]
fn python_keyword_and_string_are_styled() {
    let lines = highlight_lines("import os\nx = \"hi\"", "python");
    assert_eq!(lines.len(), 2);
    assert_eq!(line_text(&lines[0]), "import os");
    assert_eq!(line_text(&lines[1]), "x = \"hi\"");
    assert!(
        lines[0].iter()
            .any(|s| s.text == "import" && s.style == style_for("keyword")),
        "expected a styled `import` keyword span: {:?}",
        lines[0]
    );
    assert!(
        lines[1].iter()
            .any(|s| s.text.contains("hi") && s.style == style_for("string")),
        "expected a styled string span: {:?}",
        lines[1]
    );
}

#[test]
fn bash_keyword_and_comment_are_styled() {
    let lines = highlight_lines("# comment\nif true; then echo hi; fi", "shell");
    assert_eq!(lines.len(), 2);
    assert!(
        lines[0].iter()
            .any(|s| s.style == style_for("comment")),
        "expected a styled comment span: {:?}",
        lines[0]
    );
    assert!(
        lines[1].iter()
            .any(|s| s.text == "if" && s.style == style_for("keyword")),
        "expected a styled `if` keyword span: {:?}",
        lines[1]
    );
}

#[test]
fn json_string_and_number_are_styled() {
    let lines = highlight_lines("{\n  \"name\": \"hi\",\n  \"n\": 1\n}", "json");
    assert_eq!(lines.len(), 4);
    // Keys render with the same `string` style as values — see the
    // `JSON_CONFIG` doc comment for why the bundled query's own
    // `@string.special.key` capture never wins for a key node.
    assert!(
        lines[1].iter()
            .any(|s| s.text.contains("name") && s.style == style_for("string")),
        "expected a styled key span: {:?}",
        lines[1]
    );
    assert!(
        lines[1].iter()
            .any(|s| s.text.contains("hi") && s.style == style_for("string")),
        "expected a styled string value span: {:?}",
        lines[1]
    );
    assert!(
        lines[2].iter()
            .any(|s| s.text == "1" && s.style == style_for("number")),
        "expected a styled number span: {:?}",
        lines[2]
    );
}

#[test]
fn yaml_key_comment_and_boolean_are_styled() {
    let lines = highlight_lines("# comment\nname: hi\nenabled: true", "yaml");
    assert_eq!(lines.len(), 3);
    assert!(
        lines[0].iter()
            .any(|s| s.style == style_for("comment")),
        "expected a styled comment span: {:?}",
        lines[0]
    );
    assert!(
        lines[1].iter()
            .any(|s| s.text == "name" && s.style == style_for("property")),
        "expected a styled key span: {:?}",
        lines[1]
    );
    assert!(
        lines[2].iter()
            .any(|s| s.text == "true" && s.style == style_for("boolean")),
        "expected a styled boolean span: {:?}",
        lines[2]
    );
}

#[test]
fn line_count_matches_source_lines_exactly() {
    let source = "def f():\n    return 1\n\nf()";
    let lines = highlight_lines(source, "python");
    assert_eq!(lines.len(), source.lines().count());
    for (line, expected) in lines.iter().zip(source.lines()) {
        assert_eq!(line_text(line), expected);
    }
}

#[test]
fn malformed_source_does_not_panic() {
    // Unterminated strings/blocks — tree-sitter's error recovery must
    // not crash the highlighter or our event handling.
    assert!(!highlight_lines("def f(:\n    x = \"unterminated\n", "python").is_empty());
    assert!(!highlight_lines("if [ -z \"\n", "shell").is_empty());
    assert!(!highlight_lines("{\"a\": [1, 2,\n", "json").is_empty());
    assert!(!highlight_lines("key: [1, 2\n  bad indent\n", "yaml").is_empty());
    assert!(!highlight_lines("\u{0}\u{1}\u{2} not really code", "python").is_empty());
}

#[test]
fn revision_lines_group_develop_and_archive_rows() {
    let lines = revision_lines(&vec![
        revision_row("DEVELOP", "LINUX", "alice", "20240102_1200"),
        revision_row("ARCHIVE", "ZOS", "bob", "20231231_0900"),
    ]);

    let texts: Vec<String> = lines.iter().map(line_text).collect();
    assert!(texts.iter().any(|t| t == "DEVELOP"));
    assert!(
        texts
            .iter()
            .any(|t| t == "  LINUX   alice        20240102_1200")
    );
    assert!(texts.iter().any(|t| t == "ARCHIVE"));
    assert!(
        texts
            .iter()
            .any(|t| t == "  ZOS     bob          20231231_0900")
    );
    assert!(!texts.iter().any(|t| t == "  (no archive entries.)"));
}

#[test]
fn line_count_treats_empty_text_as_one_rendered_line() {
    assert_eq!(line_count(""), 1);
    assert_eq!(line_count("a\nb\nc"), 3);
}

#[test]
fn clamp_scroll_offset_uses_inner_height() {
    let scroll = clamp_scroll_offset(99, 10, Area { x: 0, y: 0, width: 20, height: 5 });
    assert_eq!(scroll, 7);

    let scroll = clamp_scroll_offset(99, 2, Area { x: 0, y: 0, width: 20, height: 5 });
    assert_eq!(scroll, 0);
}

#[test]
fn left_truncate_path_short_path_unchanged() {
    assert_eq!(left_truncate_path("/a/b.py", 20), "/a/b.py");
}

#[test]
fn left_truncate_path_shows_parent_and_file() {
    let path = "/very/long/catalog/scripts/tools/myscript.py";
    let result = left_truncate_path(path, 25);
    assert!(
        result.starts_with('…'),
        "should start with ellipsis: {result}"
    );
    assert!(
        result.contains("myscript.py"),
        "should contain filename: {result}"
    );
    // use chars().count() since '…' is 1 display column but 3 bytes
    assert!(
        result.chars().count() <= 25,
        "should fit in max_chars: {result}"
    );
}

#[test]
fn left_truncate_path_falls_back_to_filename() {
    // parent/file together too long, but file alone fits
    let path = "/a/very_long_parent_dir/short.py";
    let result = left_truncate_path(path, 12);
    assert!(
        result.starts_with('…'),
        "should start with ellipsis: {result}"
    );
    assert!(
        result.chars().count() <= 12,
        "should fit in max_chars: {result}"
    );
}

#[test]
fn left_truncate_path_no_slash_falls_back_gracefully() {
    // Path with no slashes: should still return a truncated string
    let path = "noslashpath.py";
    let result = left_truncate_path(path, 8);
    assert!(
        result.chars().count() <= 8,
        "should fit in max_chars: {result}"
    );
}

#[test]
fn left_truncate_path_handles_multibyte_characters() {
    let path = "/catalog/scripts/工具/分析🚀.py";
    let result = left_truncate_path(path, 8);
    assert!(
        result.starts_with('…'),
        "should start with ellipsis: {result}"
    );
    assert!(
        result.chars().count() <= 8,
        "should fit in max_chars: {result}"
    );
}

#[test]
fn left_truncate_path_zero_width_returns_empty() {
    assert_eq!(left_truncate_path("/catalog/scripts/分析🚀.py", 0), "");
}

#[test]
fn lines_end_as_those_of_the_source() {
    for source in ["a\n", "a\r\nb", "\n\n", "x = 1\r\n", "last"] {
        for language in ["python", "sql"] {
            let shown: Vec<String> =
                highlight_lines(source, language).iter().map(line_text).collect();
            let expected: Vec<String> = source.lines().map(|l| l.to_string()).collect();
            assert_eq!(shown, expected, "{source:?} in {language}");
        }
    }
}

#[test]
fn a_source_out_of_time_stays_plain() {
    let lines = lines_in_time("import os", "python", false);
    assert_eq!(lines.len(), 1);
    assert_eq!(lines[0][0].style, plain());
    assert_eq!(line_text(&lines[0]), "import os");
    assert_eq!(plain_lines("a\nb").len(), 2);
    assert_eq!(lines_in_time("import os", "python", true)[0][0].style, style_for("keyword"));
}

#[test]
fn the_clipboard_sequence_holds_the_encoded_text() {
    assert_eq!(copy_sequence(b"foo"), "\u{1b}]52;c;Zm9v\u{7}");
}

#[test]
fn the_spinner_goes_round() {
    assert_eq!(spinner_char(0), '⠋');
    assert_eq!(spinner_char(10), spinner_char(0));
    assert_ne!(spinner_char(1), spinner_char(0));
}

#[test]
fn the_focused_pane_has_a_bright_border() {
    assert_eq!(focus_border(Focus::Deps, Focus::Deps).fg, Color::Yellow);
    assert_eq!(focus_border(Focus::Deps, Focus::Search).fg, Color::DarkGray);
}

#[test]
fn revisions_show_their_age() {
    let mut row = revision_row("DEVELOP", "LINUX", "alice", "20240102_1200");
    assert_eq!(format_revision_row(&row), "  LINUX   alice        20240102_1200");
    row.insert("age", Value::Text("3d".to_string()));
    assert!(format_revision_row(&row).contains("3d"));
}

#[test]
fn an_empty_browser_says_so() {
    let mut app = TuiApp::new();
    assert_eq!(app.metadata().title, "Metadata");
    assert!(line_text(&app.header_line(80)).contains("scat"));
    assert!(line_text(&app.footer_line()).contains("search"));
    app.mode = ViewMode::Detail;
    assert!(line_text(&app.footer_line()).contains("diff"));
    app.mode = ViewMode::DetailDiff;
    assert!(line_text(&app.footer_line()).contains("page"));
    let none = Row::new();
    assert!(result_line(&none, 40).chars().count() <= 60);
}

#[test]
fn results_are_counted() {
    let mut app = TuiApp::new();
    let mut row = Row::new();
    row.insert("logical_path", Value::Text("/catalog/scripts/a.py".to_string()));
    row.insert("language", Value::Text("python".to_string()));
    app.results = vec![row];
    let pane = app.results_list(60);
    assert_eq!(pane.title, "Results (1)");
    assert!(line_text(&pane.lines[0]).contains("/catalog/scripts/a.py"));
}

#[test]
fn cut_paths_fit() {
    for width in 0..40 {
        let cut = left_truncate_path("/very/long/catalog/scripts/tools/myscript.py", width);
        assert!(cut.chars().count() <= width);
    }
}

#[test]
fn steps_that_leave_text_out_are_not_shown() {
    let source = "a = 1\nb\n";
    let whole = vec![
        HighlightStep::Text(0, 1),
        HighlightStep::Start(0),
        HighlightStep::Text(1, 8),
        HighlightStep::End,
    ];
    let lines = lines_of_steps(source, &whole).unwrap();
    let shown: Vec<String> =
        lines.iter().map(|l| l.iter().map(|s| s.text.as_str()).collect()).collect();
    assert_eq!(shown, vec!["a = 1", "b"]);
    assert!(lines_of_steps(source, &vec![HighlightStep::Text(0, 5)]).is_none());
    assert!(lines_of_steps(source, &vec![HighlightStep::Text(1, 8)]).is_none());
}

#[test]
fn a_copy_is_told_until_the_next_input() {
    let key = Key { code: KeyCode::Down, modifiers: Modifiers::Plain };
    let inputs = [
        TerminalEvent::KeyPress(key),
        TerminalEvent::Mouse(MouseAction::LeftClick, 3, 3),
        TerminalEvent::Mouse(MouseAction::ScrollDown, 3, 3),
        TerminalEvent::Mouse(MouseAction::ScrollUp, 3, 3),
    ];
    for input in inputs {
        for mode in [ViewMode::Browse, ViewMode::Detail, ViewMode::DetailDiff] {
            let mut app = TuiApp::new();
            app.mode = mode;
            let keys = line_text(&app.footer_line());
            app.apply_copy_result("/catalog/a.py", None);
            assert_eq!(line_text(&app.footer_line()), "Copied /catalog/a.py");
            app.handle_event(TerminalEvent::Mouse(MouseAction::Other, 3, 3), 900);
            app.handle_event(TerminalEvent::Resize, 950);
            assert_eq!(line_text(&app.footer_line()), "Copied /catalog/a.py");
            app.take_paint();
            app.handle_event(input, 1_000);
            assert_eq!(line_text(&app.footer_line()), keys);
            assert!(app.take_paint().1);
        }
    }
}
