use omnisql::stream::StreamingSqlReader;

/// Feeds the lines of `input` (each with its line feed) and collects the statements in the
/// order the reader gives them out, ending with what `finish` returns.
fn split_all(input: &str) -> Vec<String> {
    let mut reader = StreamingSqlReader::new();
    let mut out = Vec::new();
    for line in input.split_inclusive('\n') {
        while let Some(s) = reader.poll_statement() {
            out.push(s);
        }
        if let Some(s) = reader.push_line(line) {
            out.push(s);
        }
    }
    while let Some(s) = reader.poll_statement() {
        out.push(s);
    }
    if let Some(s) = reader.finish() {
        out.push(s);
    }
    out
}

#[test]
fn splits_at_top_level_semicolons() {
    let out = split_all("SELECT 1;\nSELECT 2; SELECT 3;\n");
    assert_eq!(out, vec!["SELECT 1;".to_string(), "SELECT 2;".to_string(), " SELECT 3;".to_string()]);
}

#[test]
fn semicolons_in_quotes_and_comments_do_not_split() {
    let input = "SELECT 'a;b', \"c;d\" -- e;f\n FROM t /* g;\n h; */ WHERE x = 'it''s;';\n";
    let out = split_all(input);
    assert_eq!(out, vec![input.trim_end().to_string()]);
}

#[test]
fn trailing_text_without_semicolon_comes_out_at_the_end() {
    assert_eq!(split_all("SELECT 1;\nSELECT 2\n"), vec!["SELECT 1;".to_string(), "SELECT 2\n".to_string()]);
    assert!(split_all("   \n\n").is_empty());
}

#[test]
fn unsupported_statements_are_dropped() {
    let input = "CREATE SEQUENCE s START 1;\nALTER TABLE t OWNER TO admin;\nSELECT 1;\nCREATE AGGREGATE agg (int)\n";
    assert_eq!(split_all(input), vec!["SELECT 1;".to_string()]);
}

#[test]
fn copy_data_blocks_are_skipped() {
    let input = "SELECT 1;\nCOPY users (id) FROM stdin;\n1\n2\n\\.\nSELECT 2;\n";
    let out = split_all(input);
    assert_eq!(
        out,
        vec!["SELECT 1;".to_string(), "COPY users (id) FROM stdin;\n".to_string(), "SELECT 2;".to_string()]
    );
}

#[test]
fn copy_line_returns_pending_text_with_it() {
    let mut reader = StreamingSqlReader::new();
    assert_eq!(reader.push_line("SELECT\n"), None);
    assert_eq!(reader.push_line("copy t from STDIN;  \r\n"), Some("SELECT\ncopy t from STDIN;  \r\n".to_string()));
    assert_eq!(reader.push_line("SELECT 9;\n"), None);
    assert_eq!(reader.push_line("\\.  \n"), None);
    assert_eq!(reader.push_line("SELECT 3;\n"), None);
    assert_eq!(reader.poll_statement(), Some("SELECT 3;".to_string()));
    assert_eq!(reader.poll_statement(), None);
    assert_eq!(reader.finish(), None);
}

#[test]
fn blank_rest_is_dropped_after_a_statement() {
    let mut reader = StreamingSqlReader::new();
    reader.push_line("SELECT 1;   \n");
    assert_eq!(reader.poll_statement(), Some("SELECT 1;".to_string()));
    assert_eq!(reader.finish(), None);
}

#[test]
fn unsupported_text_at_the_end_is_dropped() {
    let mut reader = StreamingSqlReader::new();
    reader.push_line("CREATE SEQUENCE s\n");
    assert_eq!(reader.poll_statement(), None);
    assert_eq!(reader.finish(), None);
}

#[test]
fn finished_reader_keeps_returning_nothing() {
    let mut reader = StreamingSqlReader::new();
    reader.push_line("SELECT 1\n");
    assert_eq!(reader.poll_statement(), None);
    assert_eq!(reader.finish(), Some("SELECT 1\n".to_string()));
    assert_eq!(reader.poll_statement(), None);
    assert_eq!(reader.finish(), None);
    assert_eq!(reader.finish(), None);
}

#[test]
fn statements_hold_the_input_but_white_space() {
    let input = "SELECT 1;  SELECT 'a;' ; \n-- c;\nSELECT 2\n";
    let out = split_all(input);
    let strip = |s: &str| s.chars().filter(|c| !c.is_whitespace()).collect::<String>();
    assert_eq!(strip(&out.concat()), strip(input));
    assert_eq!(out.len(), 3);
}
