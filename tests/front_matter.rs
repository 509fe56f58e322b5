use sitegen::front_matter::{parse_front_matter, parse_metadata, split_block, Date, FrontMatterError};

#[test]
fn test_parse_front_matter_with_all_fields() {
    let input = r#"+++
title = "Test Post"
description = "A test"
date = "2025-01-15"
summary = "Summary here"
template = "custom.html"
sort_by = "date"
+++
Content here"#;

    let result = parse_front_matter(input);
    assert!(result.is_ok());
    let (fm, body) = result.unwrap();

    assert_eq!(fm.title, Some("Test Post".to_string()));
    assert_eq!(fm.description, Some("A test".to_string()));
    assert_eq!(fm.date, Some(Date { year: 2025, month: 1, day: 15 }));
    assert_eq!(fm.summary, Some("Summary here".to_string()));
    assert_eq!(fm.template, Some("custom.html".to_string()));
    assert_eq!(body.trim(), "Content here");
}

#[test]
fn test_parse_front_matter_minimal() {
    let input = r#"+++
title = "Minimal"
+++
Body"#;

    let result = parse_front_matter(input);
    assert!(result.is_ok());
    let (fm, body) = result.unwrap();

    assert_eq!(fm.title, Some("Minimal".to_string()));
    assert_eq!(fm.description, None);
    assert_eq!(body.trim(), "Body");
}

#[test]
fn test_parse_front_matter_no_frontmatter() {
    let input = "Just content, no frontmatter";

    let result = parse_front_matter(input);
    assert!(result.is_ok());
    let (fm, body) = result.unwrap();

    assert_eq!(fm.title, None);
    assert_eq!(body, input);
}

#[test]
fn no_block_keeps_text_unchanged() {
    for input in ["", "\n\n", "++\n+++\nx", "text\n+++\ntitle = \"x\"\n+++\n", "a\r\nb\r\n"] {
        let (fm, body) = parse_front_matter(input).unwrap();
        assert_eq!(body, input);
        assert_eq!(fm.title, None);
        assert_eq!(fm.description, None);
        assert_eq!(fm.template, None);
        assert_eq!(fm.date, None);
        assert_eq!(fm.summary, None);
        assert_eq!(fm.sort_by, None);
    }
}

#[test]
fn body_lines_each_end_with_newline() {
    let (_, body) = parse_front_matter("+++\n+++\nline one\nline two").unwrap();
    assert_eq!(body, "line one\nline two\n");
    let (_, body) = parse_front_matter("+++\n+++\n").unwrap();
    assert_eq!(body, "");
    let (_, body) = parse_front_matter("+++\n+++\n\n").unwrap();
    assert_eq!(body, "\n");
}

#[test]
fn delimiter_is_trimmed_and_crlf_accepted() {
    let (fm, body) = parse_front_matter("  +++ \r\ntitle = \"T\"\r\n\t+++\r\nBody\r\n").unwrap();
    assert_eq!(fm.title, Some("T".to_string()));
    assert_eq!(body, "Body\n");
}

#[test]
fn unclosed_block_is_all_metadata() {
    let (fm, body) = parse_front_matter("+++\ntitle = \"Open\"\n").unwrap();
    assert_eq!(fm.title, Some("Open".to_string()));
    assert_eq!(body, "");
    let (meta, body) = split_block("+++\na = 1\nb = 2").unwrap();
    assert_eq!(meta, "a = 1\nb = 2\n");
    assert_eq!(body, "");
}

#[test]
fn split_stops_at_first_closing_delimiter() {
    let (meta, body) = split_block("+++\nx = 1\n+++\nbody\n+++\nmore").unwrap();
    assert_eq!(meta, "x = 1\n");
    assert_eq!(body, "body\n+++\nmore\n");
    assert!(split_block("no block").is_none());
}

#[test]
fn malformed_block_is_a_syntax_error() {
    let r = parse_front_matter("+++\ntitle = \n+++\nBody");
    assert!(matches!(r, Err(FrontMatterError::Syntax(_))));
}

#[test]
fn non_string_value_is_refused() {
    let r = parse_front_matter("+++\ntitle = 5\n+++\n");
    assert_eq!(r.unwrap_err(), FrontMatterError::NotText("title".to_string()));
    let r = parse_front_matter("+++\nsummary = true\n+++\n");
    assert_eq!(r.unwrap_err(), FrontMatterError::NotText("summary".to_string()));
}

#[test]
fn bad_date_is_refused() {
    let r = parse_front_matter("+++\ndate = \"2025-02-30\"\n+++\n");
    assert_eq!(r.unwrap_err(), FrontMatterError::BadDate("2025-02-30".to_string()));
    let r = parse_front_matter("+++\ndate = \"soon\"\n+++\n");
    assert_eq!(r.unwrap_err(), FrontMatterError::BadDate("soon".to_string()));
}

#[test]
fn unknown_keys_are_ignored() {
    let fm = parse_metadata("title = \"A\"\nweight = 3\n[extra]\nk = 1\n").unwrap();
    assert_eq!(fm.title, Some("A".to_string()));
    assert_eq!(fm.sort_by, None);
}

#[test]
fn metadata_round_trips_through_key_value_form() {
    let title = "Round \"trip\"";
    let description = "line\\with backslash";
    let template = "post.html";
    let summary = "Short";
    let sort_by = "date";
    let text = format!(
        "title = {:?}\ndescription = {:?}\ntemplate = {:?}\ndate = \"2024-12-31\"\nsummary = {:?}\nsort_by = {:?}\n",
        title, description, template, summary, sort_by
    );
    let fm = parse_metadata(&text).unwrap();
    assert_eq!(fm.title.as_deref(), Some(title));
    assert_eq!(fm.description.as_deref(), Some(description));
    assert_eq!(fm.template.as_deref(), Some(template));
    assert_eq!(fm.date, Some(Date { year: 2024, month: 12, day: 31 }));
    assert_eq!(fm.summary.as_deref(), Some(summary));
    assert_eq!(fm.sort_by.as_deref(), Some(sort_by));
    let file = format!("+++\n{}+++\nBody", text);
    let (again, body) = parse_front_matter(&file).unwrap();
    assert_eq!(again.title, fm.title);
    assert_eq!(again.date, fm.date);
    assert_eq!(body, "Body\n");
}
