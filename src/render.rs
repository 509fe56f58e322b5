//! The render plan: every document of the site, in render order (home,
//! sections, pages, error page), with its template, output path, relative
//! link prefix and template data.
use vstd::prelude::*;
use crate::content::{
    PageData, PageView, SectionContent, SectionData, SectionDataView, SectionView, Site,
    duplicate_pages, find_section, has_key, key_index, keys_unique, page_views, section_views,
};
use crate::front_matter::{copy_opt, opt_view};
use crate::paths::{
    calculate_path_depth, page_relative_path, path_depth, path_prefix_for_depth, prefix_of,
    relative_path_of,
};
use crate::text::{copy_str, push_all, same_text};

verus! {

/// The data that a template receives besides the configuration and prefix.
#[derive(Debug)]
pub enum RenderContext {
    /// The home page: the root section and the pages of the `writing` section.
    Home { section: SectionData, writing_pages: Vec<PageData> },
    /// A section listing its pages; the key names it in messages.
    Section { key: String, section: SectionData },
    /// A page, or a section rendered as a single page.
    Page { page: PageData },
    /// The error page.
    NotFound,
}

pub enum ContextView {
    Home { section: SectionDataView, writing_pages: Seq<PageView> },
    Section { key: Seq<char>, section: SectionDataView },
    Page { page: PageView },
    NotFound,
}

impl View for RenderContext {
    type V = ContextView;

    open spec fn view(&self) -> ContextView {
        match self {
            RenderContext::Home { section, writing_pages } => ContextView::Home {
                section: section@,
                writing_pages: page_views(writing_pages@),
            },
            RenderContext::Section { key, section } => ContextView::Section {
                key: key@,
                section: section@,
            },
            RenderContext::Page { page } => ContextView::Page { page: page@ },
            RenderContext::NotFound => ContextView::NotFound,
        }
    }
}

/// One document to render.
#[derive(Debug)]
pub struct RenderJob {
    /// The template's name.
    pub template: String,
    /// Where the document goes, relative to the output root.
    pub output: String,
    /// The `../` prefix from the document back to the output root.
    pub path_prefix: String,
    pub context: RenderContext,
}

pub struct JobView {
    pub template: Seq<char>,
    pub output: Seq<char>,
    pub path_prefix: Seq<char>,
    pub context: ContextView,
}

impl View for RenderJob {
    type V = JobView;

    open spec fn view(&self) -> JobView {
        JobView {
            template: self.template@,
            output: self.output@,
            path_prefix: self.path_prefix@,
            context: self.context@,
        }
    }
}

pub open spec fn job_views(js: Seq<RenderJob>) -> Seq<JobView> {
    js.map_values(|j: RenderJob| j@)
}

// ---------------------------------------------------------------------------
// What each document is.

/// Where a section's document goes.
pub open spec fn section_output(key: Seq<char>) -> Seq<char> {
    if key.len() == 0 {
        "index.html"@
    } else {
        key + "/index.html"@
    }
}

/// The template a section asks for: its own, else the section template.
pub open spec fn section_template(s: SectionView) -> Seq<char> {
    match s.meta.template {
        Some(t) => t,
        None => "section.html"@,
    }
}

/// A section whose template is the page template is rendered as one page.
pub open spec fn renders_as_page(s: SectionView) -> bool {
    section_template(s) == "page.html"@
}

/// A section's title: its own, else its key.
pub open spec fn section_title(s: SectionView) -> Seq<char> {
    match s.meta.title {
        Some(t) => t,
        None => s.key,
    }
}

/// A section standing in for a page: its record gives the page's fields.
pub open spec fn section_as_page(s: SectionView, base: Seq<char>) -> PageView {
    PageView {
        title: section_title(s),
        date: s.meta.date,
        summary: s.meta.summary,
        content: s.body_html,
        permalink: base + "/"@ + s.key + "/"@,
        relative_path: s.key + "/index.html"@,
        template: s.meta.template,
        slug: s.key,
    }
}

/// A section with its list of pages, as its template sees it.
pub open spec fn section_data_of(s: SectionView) -> SectionDataView {
    SectionDataView {
        title: section_title(s),
        description: s.meta.description,
        pages: s.pages,
        content: s.body_html,
    }
}

pub open spec fn section_job(s: SectionView, base: Seq<char>) -> JobView {
    JobView {
        template: section_template(s),
        output: section_output(s.key),
        path_prefix: prefix_of(path_depth(s.key, false)),
        context: if renders_as_page(s) {
            ContextView::Page { page: section_as_page(s, base) }
        } else {
            ContextView::Section { key: s.key, section: section_data_of(s) }
        },
    }
}

/// The template a page asks for: its own, else its section's, else the page template.
pub open spec fn page_template(s: SectionView, p: PageView) -> Seq<char> {
    match p.template {
        Some(t) => t,
        None => match s.meta.template {
            Some(t) => t,
            None => "page.html"@,
        },
    }
}

pub open spec fn page_job(s: SectionView, p: PageView) -> JobView {
    JobView {
        template: page_template(s, p),
        output: relative_path_of(s.key, p.slug),
        path_prefix: prefix_of(path_depth(s.key, true)),
        context: ContextView::Page { page: p },
    }
}

/// The pages of the section keyed `writing`, if there is one.
pub open spec fn writing_pages_of(ss: Seq<SectionView>) -> Seq<PageView> {
    if has_key(ss, "writing"@) {
        ss[key_index(ss, "writing"@)].pages
    } else {
        Seq::empty()
    }
}

pub open spec fn home_job(root: SectionDataView, ss: Seq<SectionView>) -> JobView {
    JobView {
        template: "index.html"@,
        output: "index.html"@,
        path_prefix: Seq::empty(),
        context: ContextView::Home { section: root, writing_pages: writing_pages_of(ss) },
    }
}

pub open spec fn not_found_job() -> JobView {
    JobView {
        template: "404.html"@,
        output: "404.html"@,
        path_prefix: Seq::empty(),
        context: ContextView::NotFound,
    }
}

/// The jobs of the pages of the sections, section by section.
pub open spec fn page_jobs(ss: Seq<SectionView>) -> Seq<JobView>
    decreases ss.len(),
{
    if ss.len() == 0 {
        Seq::empty()
    } else {
        page_jobs(ss.drop_last()) + ss.last().pages.map_values(|p: PageView| page_job(ss.last(), p))
    }
}

/// The whole plan: home, then each section, then each page, then the error page.
pub open spec fn plan_of(root: SectionDataView, ss: Seq<SectionView>, base: Seq<char>) -> Seq<JobView> {
    seq![home_job(root, ss)] + ss.map_values(|s: SectionView| section_job(s, base)) + page_jobs(ss)
        + seq![not_found_job()]
}

} // verus!

verus! {

fn section_data(s: &SectionContent) -> (r: SectionData)
    ensures
        r@ == section_data_of(s@),
{
    SectionData {
        title: match &s.meta.title {
            Some(t) => copy_str(t.as_str()),
            None => copy_str(s.key.as_str()),
        },
        description: copy_opt(&s.meta.description),
        pages: duplicate_pages(&s.pages),
        content: copy_str(s.body_html.as_str()),
    }
}

fn section_page(s: &SectionContent, base_url: &str) -> (r: PageData)
    ensures
        r@ == section_as_page(s@, base_url@),
{
    let mut permalink = copy_str(base_url);
    push_all(&mut permalink, "/");
    push_all(&mut permalink, s.key.as_str());
    push_all(&mut permalink, "/");
    let mut relative_path = copy_str(s.key.as_str());
    push_all(&mut relative_path, "/index.html");
    PageData {
        title: match &s.meta.title {
            Some(t) => copy_str(t.as_str()),
            None => copy_str(s.key.as_str()),
        },
        date: s.meta.date,
        summary: copy_opt(&s.meta.summary),
        content: copy_str(s.body_html.as_str()),
        permalink,
        relative_path,
        template: copy_opt(&s.meta.template),
        slug: copy_str(s.key.as_str()),
    }
}

/// The document of one section: a page when its template is the page
/// template, else a section listing its pages.
pub fn plan_section(s: &SectionContent, base_url: &str) -> (r: RenderJob)
    requires
        s.key@.len() + 1 < usize::MAX,
    ensures
        r@ == section_job(s@, base_url@),
{
    let template = match &s.meta.template {
        Some(t) => copy_str(t.as_str()),
        None => copy_str("section.html"),
    };
    let output = if s.key.unicode_len() == 0 {
        copy_str("index.html")
    } else {
        let mut o = copy_str(s.key.as_str());
        push_all(&mut o, "/index.html");
        o
    };
    let path_prefix = path_prefix_for_depth(calculate_path_depth(s.key.as_str(), false));
    let context = if same_text(template.as_str(), "page.html") {
        RenderContext::Page { page: section_page(s, base_url) }
    } else {
        RenderContext::Section { key: copy_str(s.key.as_str()), section: section_data(s) }
    };
    RenderJob { template, output, path_prefix, context }
}

/// The document of one page of section `s`.
pub fn plan_page(s: &SectionContent, p: &PageData) -> (r: RenderJob)
    requires
        s.key@.len() + 1 < usize::MAX,
    ensures
        r@ == page_job(s@, p@),
{
    let template = match &p.template {
        Some(t) => copy_str(t.as_str()),
        None => match &s.meta.template {
            Some(t) => copy_str(t.as_str()),
            None => copy_str("page.html"),
        },
    };
    RenderJob {
        template,
        output: page_relative_path(s.key.as_str(), p.slug.as_str()),
        path_prefix: path_prefix_for_depth(calculate_path_depth(s.key.as_str(), true)),
        context: RenderContext::Page { page: p.duplicate() },
    }
}

/// Every document of the site, in render order: home, each section, each
/// page of each section, the error page.
pub fn plan_site(site: &Site, base_url: &str) -> (r: Vec<RenderJob>)
    requires
        keys_unique(section_views(site.sections@)),
        forall|i: int| 0 <= i < site.sections.len() ==> (#[trigger] site.sections@[i]).key@.len() + 1 < usize::MAX,
    ensures
        job_views(r@) == plan_of(site.root@, section_views(site.sections@), base_url@),
{
    let ghost ss = section_views(site.sections@);
    let mut jobs: Vec<RenderJob> = Vec::new();
    let writing_pages = match find_section(&site.sections, "writing") {
        Some(i) => duplicate_pages(&site.sections[i].pages),
        None => Vec::new(),
    };
    assert(page_views(writing_pages@) =~= writing_pages_of(ss));
    let home = RenderJob {
        template: copy_str("index.html"),
        output: copy_str("index.html"),
        path_prefix: String::new(),
        context: RenderContext::Home {
            section: SectionData {
                title: copy_str(site.root.title.as_str()),
                description: copy_opt(&site.root.description),
                pages: duplicate_pages(&site.root.pages),
                content: copy_str(site.root.content.as_str()),
            },
            writing_pages,
        },
    };
    jobs.push(home);
    let ghost sjobs = ss.map_values(|s: SectionView| section_job(s, base_url@));
    let mut i: usize = 0;
    assert(job_views(jobs@) =~= seq![home_job(site.root@, ss)] + sjobs.take(0));
    while i < site.sections.len()
        invariant
            i <= site.sections.len(),
            ss == section_views(site.sections@),
            sjobs == ss.map_values(|s: SectionView| section_job(s, base_url@)),
            forall|k: int| 0 <= k < site.sections.len() ==> (#[trigger] site.sections@[k]).key@.len() + 1 < usize::MAX,
            job_views(jobs@) == seq![home_job(site.root@, ss)] + sjobs.take(i as int),
        decreases site.sections.len() - i,
    {
        let ghost before = job_views(jobs@);
        let j = plan_section(&site.sections[i], base_url);
        jobs.push(j);
        assert(job_views(jobs@) =~= before.push(sjobs[i as int]));
        assert(sjobs.take(i + 1) =~= sjobs.take(i as int).push(sjobs[i as int]));
        i = i + 1;
    }
    assert(sjobs.take(site.sections.len() as int) =~= sjobs);
    let ghost head = job_views(jobs@);
    let mut i: usize = 0;
    assert(ss.take(0) =~= Seq::<SectionView>::empty());
    assert(head =~= head + page_jobs(ss.take(0)));
    while i < site.sections.len()
        invariant
            i <= site.sections.len(),
            ss == section_views(site.sections@),
            forall|k: int| 0 <= k < site.sections.len() ==> (#[trigger] site.sections@[k]).key@.len() + 1 < usize::MAX,
            job_views(jobs@) == head + page_jobs(ss.take(i as int)),
        decreases site.sections.len() - i,
    {
        let s = &site.sections[i];
        let ghost sv = ss[i as int];
        let ghost m = sv.pages.map_values(|p: PageView| page_job(sv, p));
        let ghost start = job_views(jobs@);
        let mut j: usize = 0;
        assert(start + m.take(0) =~= start);
        while j < s.pages.len()
            invariant
                j <= s.pages.len(),
                sv == s@,
                s.key@.len() + 1 < usize::MAX,
                m == sv.pages.map_values(|p: PageView| page_job(sv, p)),
                job_views(jobs@) == start + m.take(j as int),
            decreases s.pages.len() - j,
        {
            let ghost before = job_views(jobs@);
            let job = plan_page(s, &s.pages[j]);
            jobs.push(job);
            proof {
                assert(sv.pages[j as int] == s.pages@[j as int]@);
                assert(job_views(jobs@) =~= before.push(m[j as int]));
                assert(m.take(j + 1) =~= m.take(j as int).push(m[j as int]));
            }
            j = j + 1;
        }
        proof {
            assert(m.take(s.pages.len() as int) =~= m);
            assert(ss.take(i + 1).drop_last() =~= ss.take(i as int));
            assert(ss.take(i + 1).last() == sv);
            assert(start =~= head + page_jobs(ss.take(i as int)));
        }
        i = i + 1;
    }
    assert(ss.take(site.sections.len() as int) =~= ss);
    let ghost before = job_views(jobs@);
    jobs.push(RenderJob {
        template: copy_str("404.html"),
        output: copy_str("404.html"),
        path_prefix: String::new(),
        context: RenderContext::NotFound,
    });
    assert(job_views(jobs@) =~= before.push(not_found_job()));
    jobs
}

} // verus!

verus! {

proof fn lemma_section_output_injective(a: Seq<char>, b: Seq<char>)
    requires
        section_output(a) == section_output(b),
    ensures
        a == b,
{
    reveal_strlit("index.html");
    reveal_strlit("/index.html");
    if a.len() > 0 && b.len() > 0 {
        let suffix = "/index.html"@;
        assert((a + suffix).len() == (b + suffix).len());
        assert(a =~= (a + suffix).subrange(0, a.len() as int));
        assert(b =~= (b + suffix).subrange(0, b.len() as int));
    } else if a.len() > 0 {
        assert((a + "/index.html"@).len() != "index.html"@.len());
    } else if b.len() > 0 {
        assert((b + "/index.html"@).len() != "index.html"@.len());
    } else {
        assert(a =~= b);
    }
}

proof fn lemma_page_jobs_are_pages(ss: Seq<SectionView>)
    ensures
        forall|j: int| 0 <= j < page_jobs(ss).len() ==> (#[trigger] page_jobs(ss)[j]).context is Page,
    decreases ss.len(),
{
    if ss.len() > 0 {
        lemma_page_jobs_are_pages(ss.drop_last());
        let m = ss.last().pages.map_values(|p: PageView| page_job(ss.last(), p));
        assert forall|j: int| 0 <= j < page_jobs(ss).len() implies (#[trigger] page_jobs(ss)[j]).context is Page by {
            let prev = page_jobs(ss.drop_last());
            if j >= prev.len() {
                assert(page_jobs(ss)[j] == m[j - prev.len()]);
            } else {
                assert(page_jobs(ss)[j] == prev[j]);
            }
        }
    }
}

/// A section whose chosen template is the page template is rendered as a
/// single page at its own `index.html`, built from its own record, and no
/// document listing its pages is rendered at that place.
pub proof fn lemma_page_template_section_renders_once(
    root: SectionDataView,
    ss: Seq<SectionView>,
    base: Seq<char>,
    i: int,
)
    requires
        keys_unique(ss),
        0 <= i < ss.len(),
        renders_as_page(ss[i]),
    ensures
        plan_of(root, ss, base)[1 + i].output == section_output(ss[i].key),
        plan_of(root, ss, base)[1 + i].context == (ContextView::Page { page: section_as_page(ss[i], base) }),
        forall|j: int|
            0 <= j < plan_of(root, ss, base).len() && (#[trigger] plan_of(root, ss, base)[j]).output
                == section_output(ss[i].key) ==> !(plan_of(root, ss, base)[j].context is Section),
{
    let plan = plan_of(root, ss, base);
    let sj = ss.map_values(|s: SectionView| section_job(s, base));
    let pj = page_jobs(ss);
    assert(plan =~= seq![home_job(root, ss)] + sj + pj + seq![not_found_job()]);
    assert(plan[1 + i] == sj[i]);
    lemma_page_jobs_are_pages(ss);
    assert forall|j: int|
        0 <= j < plan.len() && (#[trigger] plan[j]).output == section_output(ss[i].key) implies !(
        plan[j].context is Section) by {
        if 1 <= j < 1 + ss.len() {
            let k = j - 1;
            assert(plan[j] == sj[k]);
            if k != i {
                lemma_section_output_injective(ss[k].key, ss[i].key);
                if k < i {
                    assert(ss[k].key != ss[i].key);
                } else {
                    assert(ss[i].key != ss[k].key);
                }
            }
        } else if 1 + ss.len() <= j < 1 + ss.len() + pj.len() {
            assert(plan[j] == pj[j - 1 - ss.len()]);
        }
    }
}

} // verus!

verus! {

proof fn lemma_distinct_outputs(ka: Seq<char>, kb: Seq<char>, slug: Seq<char>)
    requires
        ka != kb,
    ensures
        relative_path_of(ka, slug) != relative_path_of(kb, slug),
{
    reveal_strlit("/");
    let tail = slug + "/index.html"@;
    if ka.len() > 0 && kb.len() > 0 {
        let x = ka + "/"@ + slug + "/index.html"@;
        let y = kb + "/"@ + slug + "/index.html"@;
        if x == y {
            assert(x =~= ka + ("/"@ + tail));
            assert(y =~= kb + ("/"@ + tail));
            assert(ka =~= x.subrange(0, ka.len() as int));
            assert(kb =~= y.subrange(0, kb.len() as int));
        }
    } else if ka.len() > 0 {
        assert((ka + "/"@ + slug + "/index.html"@).len() > tail.len());
    } else if kb.len() > 0 {
        assert((kb + "/"@ + slug + "/index.html"@).len() > tail.len());
    } else {
        assert(ka =~= kb);
    }
}

proof fn lemma_page_job_listed(ss: Seq<SectionView>, a: int, k: int)
    requires
        0 <= a < ss.len(),
        0 <= k < ss[a].pages.len(),
    ensures
        page_jobs(ss).contains(page_job(ss[a], ss[a].pages[k])),
    decreases ss.len(),
{
    let prev = page_jobs(ss.drop_last());
    let m = ss.last().pages.map_values(|p: PageView| page_job(ss.last(), p));
    assert(page_jobs(ss) == prev + m);
    if a == ss.len() - 1 {
        assert(page_jobs(ss)[prev.len() + k] == m[k]);
    } else {
        assert(ss.drop_last()[a] == ss[a]);
        lemma_page_job_listed(ss.drop_last(), a, k);
        let w = choose|w: int| 0 <= w < prev.len() && prev[w] == page_job(ss[a], ss[a].pages[k]);
        assert(page_jobs(ss)[w] == prev[w]);
    }
}

/// Two pages of different sections that share a slug are both rendered,
/// each to its own destination.
pub proof fn lemma_shared_slug_pages_both_rendered(
    root: SectionDataView,
    ss: Seq<SectionView>,
    base: Seq<char>,
    a: int,
    pa: int,
    b: int,
    pb: int,
)
    requires
        keys_unique(ss),
        0 <= a < ss.len(),
        0 <= b < ss.len(),
        a != b,
        0 <= pa < ss[a].pages.len(),
        0 <= pb < ss[b].pages.len(),
        ss[a].pages[pa].slug == ss[b].pages[pb].slug,
    ensures
        plan_of(root, ss, base).contains(page_job(ss[a], ss[a].pages[pa])),
        plan_of(root, ss, base).contains(page_job(ss[b], ss[b].pages[pb])),
        page_job(ss[a], ss[a].pages[pa]).output != page_job(ss[b], ss[b].pages[pb]).output,
{
    let plan = plan_of(root, ss, base);
    let sj = ss.map_values(|s: SectionView| section_job(s, base));
    let pj = page_jobs(ss);
    assert(plan =~= seq![home_job(root, ss)] + sj + pj + seq![not_found_job()]);
    lemma_page_job_listed(ss, a, pa);
    lemma_page_job_listed(ss, b, pb);
    let wa = choose|w: int| 0 <= w < pj.len() && pj[w] == page_job(ss[a], ss[a].pages[pa]);
    let wb = choose|w: int| 0 <= w < pj.len() && pj[w] == page_job(ss[b], ss[b].pages[pb]);
    assert(plan[1 + ss.len() + wa] == pj[wa]);
    assert(plan[1 + ss.len() + wb] == pj[wb]);
    if a < b {
        assert(ss[a].key != ss[b].key);
    } else {
        assert(ss[b].key != ss[a].key);
    }
    lemma_distinct_outputs(ss[a].key, ss[b].key, ss[a].pages[pa].slug);
}

} // verus!
