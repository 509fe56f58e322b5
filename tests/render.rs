use sitegen::content::{load_content, SourceFile};
use sitegen::render::{plan_site, RenderContext, RenderJob};

fn file(path: &str, text: &str) -> SourceFile {
    SourceFile { path: path.split('/').map(|s| s.to_string()).collect(), text: text.to_string() }
}

fn outputs(jobs: &[RenderJob]) -> Vec<String> {
    jobs.iter().map(|j| j.output.clone()).collect()
}

#[test]
fn plan_order_templates_and_prefixes() {
    let files = vec![
        file("writing/_index.md", "+++\ntitle = \"Writing\"\n+++\n"),
        file("writing/p.md", "+++\ndate = \"2024-01-01\"\n+++\n"),
        file("writing/q.md", "+++\ntemplate = \"special.html\"\n+++\n"),
        file("about.md", "About"),
    ];
    let site = load_content(&files, "https://x.org").unwrap();
    let jobs = plan_site(&site, "https://x.org");
    assert_eq!(
        outputs(&jobs),
        vec![
            "index.html",
            "writing/index.html",
            "index.html",
            "writing/p/index.html",
            "writing/q/index.html",
            "about/index.html",
            "404.html"
        ]
    );
    assert_eq!(jobs[0].template, "index.html");
    assert_eq!(jobs[0].path_prefix, "");
    match &jobs[0].context {
        RenderContext::Home { section, writing_pages } => {
            assert_eq!(section.title, "Home");
            assert_eq!(writing_pages.len(), 2);
            assert_eq!(writing_pages[0].slug, "p");
        }
        other => panic!("unexpected {:?}", other),
    }
    assert_eq!(jobs[1].template, "section.html");
    assert_eq!(jobs[1].path_prefix, "../");
    assert!(matches!(&jobs[1].context, RenderContext::Section { key, .. } if key == "writing"));
    assert_eq!(jobs[2].path_prefix, "");
    assert_eq!(jobs[3].template, "page.html");
    assert_eq!(jobs[3].path_prefix, "../../");
    assert_eq!(jobs[4].template, "special.html");
    assert_eq!(jobs[5].path_prefix, "../");
    assert_eq!(jobs[6].template, "404.html");
    assert!(matches!(jobs[6].context, RenderContext::NotFound));
}

#[test]
fn home_without_writing_section_has_no_pages() {
    let site = load_content(&vec![file("blog/a.md", "x")], "").unwrap();
    let jobs = plan_site(&site, "");
    match &jobs[0].context {
        RenderContext::Home { writing_pages, .. } => assert!(writing_pages.is_empty()),
        other => panic!("unexpected {:?}", other),
    }
}

#[test]
fn section_with_page_template_renders_as_one_page() {
    let files = vec![
        file("about/_index.md", "+++\ntitle = \"About us\"\ntemplate = \"page.html\"\n+++\nWho"),
        file("about/team.md", "+++\ntitle = \"Team\"\n+++\n"),
    ];
    let site = load_content(&files, "https://x.org").unwrap();
    let jobs = plan_site(&site, "https://x.org");
    let at_section: Vec<&RenderJob> = jobs.iter().filter(|j| j.output == "about/index.html").collect();
    assert_eq!(at_section.len(), 1);
    assert_eq!(at_section[0].template, "page.html");
    match &at_section[0].context {
        RenderContext::Page { page } => {
            assert_eq!(page.title, "About us");
            assert_eq!(page.permalink, "https://x.org/about/");
            assert_eq!(page.relative_path, "about/index.html");
            assert_eq!(page.slug, "about");
            assert!(page.content.contains("Who"));
        }
        other => panic!("unexpected {:?}", other),
    }
    assert!(!jobs.iter().any(|j| matches!(j.context, RenderContext::Section { .. })));
    let team = jobs.iter().find(|j| j.output == "about/team/index.html").unwrap();
    assert_eq!(team.template, "page.html");
}

#[test]
fn duplicate_slugs_render_to_distinct_places() {
    let files = vec![file("a/same.md", "one"), file("b/same.md", "two")];
    let site = load_content(&files, "").unwrap();
    let jobs = plan_site(&site, "");
    let outs = outputs(&jobs);
    assert!(outs.contains(&"a/same/index.html".to_string()));
    assert!(outs.contains(&"b/same/index.html".to_string()));
}

#[test]
fn empty_site_has_home_and_error_page_only() {
    let site = load_content(&Vec::new(), "https://x.org").unwrap();
    assert_eq!(site.root.title, "Home");
    assert!(site.sections.is_empty());
    let jobs = plan_site(&site, "https://x.org");
    assert_eq!(outputs(&jobs), vec!["index.html", "404.html"]);
}

#[test]
fn section_template_is_inherited_by_its_pages() {
    let files = vec![
        file("docs/_index.md", "+++\ntemplate = \"doc.html\"\n+++\n"),
        file("docs/intro.md", "x"),
    ];
    let site = load_content(&files, "").unwrap();
    let jobs = plan_site(&site, "");
    assert_eq!(jobs[1].template, "doc.html");
    match &jobs[1].context {
        RenderContext::Section { key, section } => {
            assert_eq!(key, "docs");
            assert_eq!(section.title, "docs");
            assert_eq!(section.pages.len(), 1);
        }
        other => panic!("unexpected {:?}", other),
    }
    assert_eq!(jobs[2].output, "docs/intro/index.html");
    assert_eq!(jobs[2].template, "doc.html");
}
