use scat::extractor::{
    extract, hash_bytes, parse_header_comments, parse_block_keyword, parse_history_entry,
    parse_python_docstring,
    ExtractedMetadata, FieldValue, HistoryEntry,
};

fn parse_headers(content: &str) -> ExtractedMetadata {
    parse_header_comments(content, ExtractedMetadata::empty())
}

fn text_field<'a>(meta: &'a ExtractedMetadata, key: &str) -> Option<&'a str> {
    match meta.fields.get(key) {
        Some(FieldValue::Text(s)) => Some(s.as_str()),
        _ => None,
    }
}

fn list_field<'a>(meta: &'a ExtractedMetadata, key: &str) -> Option<&'a Vec<String>> {
    match meta.fields.get(key) {
        Some(FieldValue::List(v)) => Some(v),
        _ => None,
    }
}

fn entries_field<'a>(meta: &'a ExtractedMetadata, key: &str) -> Option<&'a Vec<HistoryEntry>> {
    match meta.fields.get(key) {
        Some(FieldValue::Entries(v)) => Some(v),
        _ => None,
    }
}

#[test]
fn parses_at_brief() {
    let meta = parse_headers("# @brief Does something useful");
    assert_eq!(meta.purpose, "Does something useful");
}

#[test]
fn parses_author_field() {
    let meta = parse_headers("# @author alice@example.com");
    assert_eq!(meta.owner, "alice@example.com");
}

#[test]
fn first_match_wins_for_owner() {
    let meta = parse_headers("# @author first\n# @author second");
    assert_eq!(meta.owner, "first");
}

#[test]
fn parses_scripttype_into_fields() {
    let meta = parse_headers("# @scripttype shell");
    assert_eq!(
        text_field(&meta, "scripttype"),
        Some("shell")
    );
}

#[test]
fn ignores_metadata_markers_in_the_body_after_executable_code() {
    let meta = parse_headers(
        "# @brief Header purpose\n\
         echo running\n\
         # @scripttype shell\n\
         # @childfile /catalog/scripts/worker.sh\n\
         # @usage\n\
         # ./body-only.sh\n\
         # @endusage\n\
         # @description\n\
         # Body-only description\n\
         # @enddescription\n",
    );

    assert_eq!(meta.purpose, "Header purpose");
    assert!(!meta.fields.contains_key("scripttype"));
    assert!(!meta.fields.contains_key("usage"));
    assert!(!meta.fields.contains_key("description"));
    assert!(meta.related.is_empty());
    assert!(!meta.fields.contains_key("childfile"));
}

#[test]
fn parses_usage_block_into_a_joined_string() {
    let content = "\
# @usage
# ./deploy.sh <env> <version>
#   env: target environment
#   version: release tag
# @endusage
";
    let meta = parse_headers(content);
    let usage = text_field(&meta, "usage").unwrap();
    assert_eq!(
        usage,
        "./deploy.sh <env> <version>\nenv: target environment\nversion: release tag"
    );
}

#[test]
fn parses_description_block_and_fills_purpose_from_first_line() {
    let content = "\
# @description
# Deploys the release to production.
#
# Retries on transient failures.
# @enddescription
";
    let meta = parse_headers(content);
    let description = text_field(&meta, "description")
        .unwrap();
    assert_eq!(
        description,
        "Deploys the release to production.\n\nRetries on transient failures."
    );
    assert_eq!(meta.purpose, "Deploys the release to production.");
}

#[test]
fn description_block_does_not_overwrite_an_explicit_brief() {
    let content = "\
# @brief The real one-line purpose
# @description
# A longer explanation that should not replace @brief.
# @enddescription
";
    let meta = parse_headers(content);
    assert_eq!(meta.purpose, "The real one-line purpose");
}

#[test]
fn block_keyword_without_closing_marker_is_ignored() {
    let content = "\
# @usage
# ./deploy.sh <env>
# (no closing marker)
";
    let meta = parse_headers(content);
    assert!(
        !meta.fields.contains_key("usage"),
        "an unterminated block must not be guessed at"
    );
}

#[test]
fn block_keyword_is_case_insensitive_and_ignores_partial_matches() {
    let content = "\
# @USAGE
# some text mentioning @usage inline should not close the block
# @EndUsage
";
    let meta = parse_headers(content);
    let usage = text_field(&meta, "usage").unwrap();
    assert_eq!(
        usage,
        "some text mentioning @usage inline should not close the block"
    );
}

#[test]
fn parses_parentfile_into_related() {
    let meta = parse_headers("# @parentfile launcher.sh");
    assert_eq!(meta.related, vec!["launcher.sh".to_string()]);
    assert_eq!(
        list_field(&meta, "parentfile")
            .unwrap()
            .len(),
        1
    );
}

#[test]
fn collects_all_five_related_file_keywords() {
    let content = "\
# @parentfile launcher.sh
# @childfile worker.sh
# @inputfile config.yaml
# @outputfile report.csv
# @paramfile defaults.json
";
    let meta = parse_headers(content);
    assert_eq!(
        meta.related,
        vec![
            "launcher.sh".to_string(),
            "worker.sh".to_string(),
            "config.yaml".to_string(),
            "report.csv".to_string(),
            "defaults.json".to_string(),
        ]
    );
}

#[test]
fn keeps_multiple_lines_of_the_same_related_file_keyword() {
    // Unlike @author/@brief, these are not first-match-wins: a script can
    // declare several inputs.
    let meta = parse_headers("# @inputfile a.csv\n# @inputfile b.csv\n");
    assert_eq!(meta.related, vec!["a.csv".to_string(), "b.csv".to_string()]);
    let arr = list_field(&meta, "inputfile").unwrap();
    assert_eq!(arr.len(), 2);
}

#[test]
fn dedupes_identical_related_file_values() {
    let meta = parse_headers("# @parentfile shared.sh\n# @childfile shared.sh\n");
    assert_eq!(meta.related, vec!["shared.sh".to_string()]);
}

#[test]
fn ignores_empty_related_file_value() {
    let meta = parse_headers("# @parentfile   \n");
    assert!(meta.related.is_empty());
    assert!(!meta.fields.contains_key("parentfile"));
}

#[test]
fn no_related_file_keywords_leaves_related_empty() {
    let meta = parse_headers("# @brief Nothing declared here\n");
    assert!(meta.related.is_empty());
}

#[test]
fn docstring_sets_purpose() {
    let mut meta = ExtractedMetadata::empty();
    parse_python_docstring(r#""""Verify patch freeze consistency.""""#, &mut meta);
    assert_eq!(meta.purpose, "Verify patch freeze consistency.");
}

#[test]
fn docstring_does_not_overwrite_purpose() {
    let mut meta = ExtractedMetadata::empty();
    meta.purpose = "from header".to_string();
    parse_python_docstring(r#""""From docstring.""""#, &mut meta);
    assert_eq!(meta.purpose, "from header");
}

#[test]
fn history_entry_date_author_summary() {
    let e = parse_history_entry("2024-05-10 alice Fixed timeout handling");
    assert_eq!(e.raw, "2024-05-10 alice Fixed timeout handling");
    assert_eq!(e.date.as_deref(), Some("2024-05-10"));
    assert_eq!(e.author.as_deref(), Some("alice"));
    assert_eq!(e.version, None);
    assert_eq!(e.summary.as_deref(), Some("Fixed timeout handling"));
}

#[test]
fn history_entry_author_date_summary() {
    let e = parse_history_entry("alice 2024-05-10 Fixed timeout handling");
    assert_eq!(e.date.as_deref(), Some("2024-05-10"));
    assert_eq!(e.author.as_deref(), Some("alice"));
    assert_eq!(e.version, None);
    assert_eq!(e.summary.as_deref(), Some("Fixed timeout handling"));
}

#[test]
fn history_entry_version_date_author_summary() {
    let e = parse_history_entry("1.2.3 2024-05-10 alice Fixed timeout handling");
    assert_eq!(e.date.as_deref(), Some("2024-05-10"));
    assert_eq!(e.author.as_deref(), Some("alice"));
    assert_eq!(e.version.as_deref(), Some("1.2.3"));
    assert_eq!(e.summary.as_deref(), Some("Fixed timeout handling"));
}

#[test]
fn history_entry_summary_only() {
    let e = parse_history_entry("Fixed timeout handling");
    assert_eq!(e.raw, "Fixed timeout handling");
    assert_eq!(e.date, None);
    assert_eq!(e.author, None);
    assert_eq!(e.version, None);
    assert_eq!(e.summary.as_deref(), Some("Fixed timeout handling"));
}

#[test]
fn history_entry_date_only() {
    let e = parse_history_entry("2024-05-10");
    assert_eq!(e.date.as_deref(), Some("2024-05-10"));
    assert_eq!(e.author, None);
    assert_eq!(e.version, None);
    assert_eq!(e.summary, None);
}

#[test]
fn history_entry_empty_string() {
    let e = parse_history_entry("  ");
    assert_eq!(e.raw, "");
    assert_eq!(e.date, None);
    assert_eq!(e.author, None);
    assert_eq!(e.version, None);
    assert_eq!(e.summary, None);
}

#[test]
fn history_entry_raw_preserved() {
    let raw = "gibberish :: not a real entry ??";
    let e = parse_history_entry(raw);
    assert_eq!(e.raw, raw);
    assert_eq!(e.summary.as_deref(), Some(raw));
}

#[test]
fn history_entry_version_without_date_not_extracted() {
    // When there is no date, version should NOT be extracted to avoid
    // misclassifying numbers in a summary.
    let e = parse_history_entry("1.2.3 Some summary text");
    assert_eq!(e.date, None);
    assert_eq!(e.version, None);
    assert_eq!(e.summary.as_deref(), Some("1.2.3 Some summary text"));
}

#[test]
fn multiple_history_lines_stored_as_array() {
    let content = "\
# @history 2024-05-10 alice Fixed timeout handling
# @history 2024-04-01 bob Initial implementation
";
    let meta = parse_headers(content);

    let arr = list_field(&meta, "history").expect("history must be an array");
    assert_eq!(arr.len(), 2);
    assert_eq!(
        arr[0].as_str(),
        "2024-05-10 alice Fixed timeout handling"
    );
    assert_eq!(
        arr[1].as_str(),
        "2024-04-01 bob Initial implementation"
    );
}

#[test]
fn multiple_history_lines_produce_history_entries() {
    let content = "\
# @history 2024-05-10 alice Fixed timeout handling
# @history 2024-04-01 bob Initial implementation
";
    let meta = parse_headers(content);

    let arr = entries_field(&meta, "history_entries")
        .expect("history_entries must be an array of entries");
    assert_eq!(arr.len(), 2);

    let first = &arr[0];
    assert_eq!(
        first.raw.as_str(),
        "2024-05-10 alice Fixed timeout handling"
    );
    assert_eq!(first.date.as_deref().unwrap(), "2024-05-10");
    assert_eq!(first.author.as_deref().unwrap(), "alice");
    assert!(first.version.is_none());
    assert_eq!(first.summary.as_deref().unwrap(), "Fixed timeout handling");

    let second = &arr[1];
    assert_eq!(second.date.as_deref().unwrap(), "2024-04-01");
    assert_eq!(second.author.as_deref().unwrap(), "bob");
    assert_eq!(
        second.summary.as_deref().unwrap(),
        "Initial implementation"
    );
}

#[test]
fn no_history_lines_produces_no_history_keys() {
    let meta = parse_headers("# @brief No history here\n");
    assert!(!meta.fields.contains_key("history"));
    assert!(!meta.fields.contains_key("history_entries"));
}

#[test]
fn single_history_line_is_wrapped_in_array() {
    let meta = parse_headers("# @history 2024-01-15 carol Deploy fix\n");
    let arr = list_field(&meta, "history")
        .expect("history must be array even with one entry");
    assert_eq!(arr.len(), 1);
    assert_eq!(arr[0].as_str(), "2024-01-15 carol Deploy fix");
}

#[test]
fn malformed_history_line_does_not_panic() {
    // Ensures the parser survives unexpected input without crashing.
    // The empty-value check in parse_header_comments skips blank-after-trim
    // lines, so "# @history " (just whitespace) is dropped.
    let meta = parse_headers("# @history !!!\n# @history 2024-13-99 bad date\n");
    let entries = entries_field(&meta, "history_entries")
        .expect("history_entries array must be present");
    assert_eq!(entries.len(), 2);
    assert_eq!(entries[0].raw.as_str(), "!!!");
    assert_eq!(entries[1].raw.as_str(), "2024-13-99 bad date");
}

#[test]
fn content_and_digest_come_from_the_bytes() {
    let meta = extract("shell", b"# @author bob\necho hi\n");
    assert_eq!(meta.content, "# @author bob\necho hi\n");
    assert_eq!(meta.owner, "bob");
    assert_eq!(
        hash_bytes(b"abc"),
        "ba7816bf8f01cfea414140de5dae2223b00361a396177a9cb410ff61f20015ad"
    );
    assert_eq!(meta.content_hash.len(), 64);
    assert_eq!(meta.content_hash, hash_bytes(b"# @author bob\necho hi\n"));
}

#[test]
fn invalid_utf8_becomes_replacement_characters() {
    let meta = extract("shell", &[b'#', b' ', 0xff, b'\n']);
    assert_eq!(meta.content, "# \u{fffd}\n");
}

#[test]
fn docstring_is_read_for_python_only() {
    let source = b"\"\"\"Rotate the logs.\"\"\"\n";
    assert_eq!(extract("python", source).purpose, "Rotate the logs.");
    assert_eq!(extract("shell", source).purpose, "");
}

#[test]
fn brief_wins_over_docstring() {
    let source = b"# @brief From the header\n\"\"\"From the docstring.\"\"\"\n";
    assert_eq!(extract("python", source).purpose, "From the header");
}

#[test]
fn a_doubled_comment_mark_opens_and_closes_a_block() {
    assert_eq!(
        parse_block_keyword("## @usage\n## @endusage\n", "@usage", "@endusage"),
        Some(Vec::new())
    );
    assert_eq!(
        parse_block_keyword("### @Usage\n# run it\n\n## @ENDUSAGE\n", "@usage", "@endusage"),
        Some(vec!["run it".to_string(), String::new()])
    );
    assert_eq!(
        parse_block_keyword("## some usage text\n## @endusage\n", "@usage", "@endusage"),
        None
    );
    let meta = extract("shell", b"## @description\n# Restores a host\n## @enddescription\n");
    assert_eq!(meta.purpose, "Restores a host");
}
