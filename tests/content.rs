use sitegen::content::{load_content, sort_pages, ContentError, PageData, SourceFile};
use sitegen::front_matter::{Date, FrontMatterError};

fn file(path: &str, text: &str) -> SourceFile {
    SourceFile { path: path.split('/').map(|s| s.to_string()).collect(), text: text.to_string() }
}

fn page(slug: &str, date: Option<(i32, u32, u32)>) -> PageData {
    PageData {
        title: slug.to_string(),
        date: date.map(|(year, month, day)| Date { year, month, day }),
        summary: None,
        content: String::new(),
        permalink: String::new(),
        relative_path: String::new(),
        template: None,
        slug: slug.to_string(),
    }
}

fn slugs(ps: &[PageData]) -> Vec<String> {
    ps.iter().map(|p| p.slug.clone()).collect()
}

#[test]
fn sort_is_newest_first_and_stable() {
    let mut ps = vec![
        page("u1", None),
        page("a", Some((2024, 1, 1))),
        page("b", Some((2025, 3, 1))),
        page("u2", None),
        page("c", Some((2024, 1, 1))),
        page("d", Some((2024, 12, 31))),
    ];
    sort_pages(&mut ps);
    assert_eq!(slugs(&ps), vec!["b", "d", "a", "c", "u1", "u2"]);
}

#[test]
fn sort_of_empty_and_undated_lists() {
    let mut ps: Vec<PageData> = Vec::new();
    sort_pages(&mut ps);
    assert!(ps.is_empty());
    let mut ps = vec![page("x", None), page("y", None), page("z", None)];
    sort_pages(&mut ps);
    assert_eq!(slugs(&ps), vec!["x", "y", "z"]);
}

#[test]
fn model_from_files() {
    let files = vec![
        file("_index.md", "+++\ntitle = \"My Site\"\n+++\nWelcome"),
        file("writing/old.md", "+++\ndate = \"2023-05-01\"\n+++\nOld"),
        file("writing/_index.md", "+++\ntitle = \"Writing\"\ntemplate = \"list.html\"\n+++\n"),
        file("writing/my-post.md", "+++\ndate = \"2024-05-01\"\n+++\n# Hi"),
        file("about.md", "+++\ntitle = \"About\"\n+++\nMe"),
        file("notes.txt", "not markdown"),
    ];
    let site = load_content(&files, "https://x.org").unwrap();
    assert_eq!(site.root.title, "My Site");
    assert!(site.root.content.contains("Welcome"));
    assert!(site.root.pages.is_empty());
    assert_eq!(site.sections.len(), 2);

    let writing = &site.sections[0];
    assert_eq!(writing.key, "writing");
    assert_eq!(writing.meta.title, Some("Writing".to_string()));
    assert_eq!(writing.meta.template, Some("list.html".to_string()));
    assert_eq!(slugs(&writing.pages), vec!["my-post", "old"]);
    let post = &writing.pages[0];
    assert_eq!(post.title, "MY POST");
    assert_eq!(post.permalink, "https://x.org/writing/my-post/");
    assert_eq!(post.relative_path, "writing/my-post/index.html");
    assert_eq!(post.date, Some(Date { year: 2024, month: 5, day: 1 }));
    assert!(post.content.contains("<h1>"));

    let loose = &site.sections[1];
    assert_eq!(loose.key, "");
    assert_eq!(loose.meta.title, None);
    assert_eq!(loose.pages[0].title, "About");
    assert_eq!(loose.pages[0].permalink, "https://x.org/about/");
    assert_eq!(loose.pages[0].relative_path, "about/index.html");
}

#[test]
fn root_defaults_to_home() {
    let site = load_content(&vec![file("a.md", "text")], "http://h").unwrap();
    assert_eq!(site.root.title, "Home");
    assert_eq!(site.root.description, None);
    assert_eq!(site.root.content, "");
}

#[test]
fn later_index_keeps_earlier_pages() {
    let files = vec![
        file("docs/guide.md", "Guide"),
        file("docs/_index.md", "+++\ntitle = \"Docs\"\n+++\nIntro"),
        file("docs/_index.md", "+++\ntitle = \"Docs 2\"\n+++\n"),
    ];
    let site = load_content(&files, "").unwrap();
    assert_eq!(site.sections.len(), 1);
    assert_eq!(site.sections[0].meta.title, Some("Docs 2".to_string()));
    assert_eq!(slugs(&site.sections[0].pages), vec!["guide"]);
}

#[test]
fn nested_section_key_and_deep_index() {
    let files = vec![
        file("a/b/_index.md", "+++\ntitle = \"B\"\n+++\n"),
        file("a/b/c-d.md", "x"),
    ];
    let site = load_content(&files, "https://s").unwrap();
    assert_eq!(site.root.title, "Home");
    assert_eq!(site.sections[0].key, "a/b");
    assert_eq!(site.sections[0].pages[0].title, "C D");
    assert_eq!(site.sections[0].pages[0].relative_path, "a/b/c-d/index.html");
}

#[test]
fn refused_front_matter_names_the_file() {
    let files = vec![file("ok.md", "fine"), file("blog/bad.md", "+++\ntitle = [\n+++\n"), file("z.md", "+++\ntitle = 1\n+++\n")];
    let err: ContentError = load_content(&files, "").unwrap_err();
    assert_eq!(err.path, "blog/bad.md");
    assert!(matches!(err.error, FrontMatterError::Syntax(_)));
}
