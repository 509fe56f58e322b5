use sitegen::content::{load_content, SourceFile};
use sitegen::validate::{validate_content, Warning};

fn file(path: &str, text: &str) -> SourceFile {
    SourceFile { path: path.split('/').map(|s| s.to_string()).collect(), text: text.to_string() }
}

#[test]
fn warnings_for_titles_dates_and_duplicate_slugs() {
    let files = vec![
        file("blog/_index.md", "+++\ntitle = \"Blog\"\n+++\n"),
        file("blog/hello.md", "+++\ndate = \"2024-01-01\"\n+++\n"),
        file("notes/hello.md", "no date"),
        file("notes/other.md", "no date either"),
    ];
    let site = load_content(&files, "").unwrap();
    let ws = validate_content(&site.sections);
    assert_eq!(
        ws,
        vec![
            Warning::MissingTitle("notes".to_string()),
            Warning::UndatedPages("notes".to_string(), 2),
            Warning::DuplicateSlug(
                "hello".to_string(),
                vec!["blog/hello".to_string(), "notes/hello".to_string()]
            ),
        ]
    );
}

#[test]
fn clean_model_has_no_warnings() {
    let files = vec![
        file("blog/_index.md", "+++\ntitle = \"Blog\"\n+++\n"),
        file("blog/a.md", "+++\ndate = \"2024-01-01\"\n+++\n"),
    ];
    let site = load_content(&files, "").unwrap();
    assert!(validate_content(&site.sections).is_empty());
    assert!(validate_content(&Vec::new()).is_empty());
}

#[test]
fn slug_in_three_sections_is_one_warning() {
    let files = vec![
        file("a/_index.md", "+++\ntitle = \"A\"\n+++\n"),
        file("b/_index.md", "+++\ntitle = \"B\"\n+++\n"),
        file("c/_index.md", "+++\ntitle = \"C\"\n+++\n"),
        file("a/x.md", "+++\ndate = \"2024-01-01\"\n+++\n"),
        file("b/x.md", "+++\ndate = \"2024-01-01\"\n+++\n"),
        file("c/x.md", "+++\ndate = \"2024-01-01\"\n+++\n"),
    ];
    let site = load_content(&files, "").unwrap();
    let ws = validate_content(&site.sections);
    assert_eq!(
        ws,
        vec![Warning::DuplicateSlug(
            "x".to_string(),
            vec!["a/x".to_string(), "b/x".to_string(), "c/x".to_string()]
        )]
    );
}
