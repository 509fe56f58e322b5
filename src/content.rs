//! The content model: pages, sections and the order of pages in a section.
use vstd::prelude::*;
use crate::front_matter::{
    Date, FrontMatter, FrontMatterError, FrontMatterErrorKind, FrontMatterView, copy_opt,
    empty_front_matter, front_matter_of, opt_view, parse_front_matter,
};
use crate::markdown::{html_of, markdown_to_html};
use crate::paths::{page_permalink, page_relative_path, permalink_of, relative_path_of};
use crate::text::{chars_of, copy_str, same_text, dashes_to_spaces, push_all, replace_dashes, string_of, to_upper, upper_of};

verus! {

broadcast use vstd::seq_lib::group_filter_ensures;

/// One content leaf, ready to render.
#[derive(Debug)]
pub struct PageData {
    pub title: String,
    pub date: Option<Date>,
    pub summary: Option<String>,
    pub content: String,
    pub permalink: String,
    pub relative_path: String,
    pub template: Option<String>,
    pub slug: String,
}

/// The mathematical content of a `PageData`.
pub struct PageView {
    pub title: Seq<char>,
    pub date: Option<Date>,
    pub summary: Option<Seq<char>>,
    pub content: Seq<char>,
    pub permalink: Seq<char>,
    pub relative_path: Seq<char>,
    pub template: Option<Seq<char>>,
    pub slug: Seq<char>,
}

impl View for PageData {
    type V = PageView;

    open spec fn view(&self) -> PageView {
        PageView {
            title: self.title@,
            date: self.date,
            summary: opt_view(self.summary),
            content: self.content@,
            permalink: self.permalink@,
            relative_path: self.relative_path@,
            template: opt_view(self.template),
            slug: self.slug@,
        }
    }
}

impl PageData {
    /// A field-by-field copy.
    pub fn duplicate(&self) -> (r: PageData)
        ensures
            r@ == self@,
    {
        PageData {
            title: copy_str(self.title.as_str()),
            date: self.date,
            summary: copy_opt(&self.summary),
            content: copy_str(self.content.as_str()),
            permalink: copy_str(self.permalink.as_str()),
            relative_path: copy_str(self.relative_path.as_str()),
            template: copy_opt(&self.template),
            slug: copy_str(self.slug.as_str()),
        }
    }
}

/// The views of a sequence of pages.
pub open spec fn page_views(ps: Seq<PageData>) -> Seq<PageView> {
    ps.map_values(|p: PageData| p@)
}

pub fn duplicate_pages(ps: &Vec<PageData>) -> (r: Vec<PageData>)
    ensures
        page_views(r@) == page_views(ps@),
{
    let mut out: Vec<PageData> = Vec::new();
    let mut i: usize = 0;
    while i < ps.len()
        invariant
            i <= ps.len(),
            out@.len() == i,
            forall|j: int| 0 <= j < i ==> (#[trigger] out@[j])@ == ps@[j]@,
        decreases ps.len() - i,
    {
        let d = ps[i].duplicate();
        out.push(d);
        i = i + 1;
    }
    assert(page_views(out@) =~= page_views(ps@));
    out
}

// ---------------------------------------------------------------------------
// Date order.

/// Dates in calendar order.
pub open spec fn date_before(a: Date, b: Date) -> bool {
    a.year < b.year || (a.year == b.year && (a.month < b.month || (a.month == b.month
        && a.day < b.day)))
}

/// Optional dates in `Option` order: no date comes before every date.
pub open spec fn opt_date_before(a: Option<Date>, b: Option<Date>) -> bool {
    match (a, b) {
        (None, Some(_)) => true,
        (Some(x), Some(y)) => date_before(x, y),
        _ => false,
    }
}

pub fn is_opt_date_before(a: Option<Date>, b: Option<Date>) -> (r: bool)
    ensures
        r == opt_date_before(a, b),
{
    match (a, b) {
        (None, Some(_)) => true,
        (Some(x), Some(y)) => x.year < y.year || (x.year == y.year && (x.month < y.month || (
        x.month == y.month && x.day < y.day))),
        _ => false,
    }
}

/// Newest first: no page comes before a page with a later date.
pub open spec fn newest_first(ps: Seq<PageView>) -> bool {
    forall|i: int, j: int|
        0 <= i < j < ps.len() ==> !opt_date_before(#[trigger] ps[i].date, #[trigger] ps[j].date)
}

/// The pages of `ps` with date `d`, in their order in `ps`.
pub open spec fn with_date(ps: Seq<PageView>, d: Option<Date>) -> Seq<PageView> {
    ps.filter(date_is(d))
}

/// Whether a page has date `d`.
pub open spec fn date_is(d: Option<Date>) -> spec_fn(PageView) -> bool {
    |p: PageView| p.date == d
}

/// `sorted` is `orig` sorted newest first, pages of one date keeping their
/// order: the one stable sort by descending date.
pub open spec fn stable_date_sort(sorted: Seq<PageView>, orig: Seq<PageView>) -> bool {
    newest_first(sorted) && forall|d: Option<Date>| #[trigger] with_date(sorted, d) == with_date(orig, d)
}

proof fn lemma_opt_date_order(a: Option<Date>, b: Option<Date>, c: Option<Date>)
    ensures
        opt_date_before(a, b) && opt_date_before(b, c) ==> opt_date_before(a, c),
        !opt_date_before(a, b) && !opt_date_before(b, a) ==> a == b,
        !opt_date_before(a, a),
{
}

/// Sorts pages newest first; pages of one date keep their order.
pub fn sort_pages(pages: &mut Vec<PageData>)
    ensures
        stable_date_sort(page_views(final(pages)@), page_views(old(pages)@)),
{
    let mut src: Vec<PageData> = Vec::new();
    std::mem::swap(&mut src, pages);
    let ghost orig = page_views(src@);
    let mut out: Vec<PageData> = Vec::new();
    let mut i: usize = 0;
    while i < src.len()
        invariant
            i <= src.len(),
            orig == page_views(src@),
            newest_first(page_views(out@)),
            forall|d: Option<Date>| #[trigger] with_date(page_views(out@), d) == with_date(orig.take(i as int), d),
        decreases src.len() - i,
    {
        let x = src[i].duplicate();
        let xd = x.date;
        let ghost before = page_views(out@);
        // the first page strictly older than x
        let mut k: usize = 0;
        while k < out.len() && !is_opt_date_before(out[k].date, xd)
            invariant
                k <= out.len(),
                before == page_views(out@),
                forall|m: int| 0 <= m < k ==> !opt_date_before(#[trigger] before[m].date, xd),
            decreases out.len() - k,
        {
            k = k + 1;
        }
        out.insert(k, x);
        proof {
            let after = page_views(out@);
            let head = before.take(k as int);
            let tail = before.skip(k as int);
            assert(after =~= head + seq![x@] + tail);
            assert(before =~= head + tail);
            // everything from k on is strictly older than x
            assert forall|m: int| k <= m < before.len() implies opt_date_before(
                #[trigger] before[m].date,
                xd,
            ) by {
                if m > k {
                    lemma_opt_date_order(before[k as int].date, before[m].date, xd);
                    lemma_opt_date_order(before[m].date, before[k as int].date, xd);
                    assert(!opt_date_before(before[k as int].date, before[m].date));
                }
            }
            assert forall|a: int, b: int| 0 <= a < b < after.len() implies !opt_date_before(
                #[trigger] after[a].date,
                #[trigger] after[b].date,
            ) by {
                if a < k && b == k {
                } else if a < k && b > k {
                    assert(after[b] == before[b - 1]);
                } else if a == k && b > k {
                    assert(after[b] == before[b - 1]);
                    lemma_opt_date_order(before[b - 1].date, xd, before[b - 1].date);
                    lemma_opt_date_order(xd, before[b - 1].date, xd);
                } else if a > k {
                    assert(after[a] == before[a - 1]);
                    assert(after[b] == before[b - 1]);
                }
            }
            assert(orig.take(i + 1) =~= orig.take(i as int).push(x@));
            assert forall|d: Option<Date>| #[trigger] with_date(after, d) == with_date(
                orig.take(i + 1),
                d,
            ) by {
                let pred = date_is(d);
                Seq::filter_distributes_over_add(head + seq![x@], tail, pred);
                Seq::filter_distributes_over_add(head, seq![x@], pred);
                Seq::filter_distributes_over_add(head, tail, pred);
                orig.take(i as int).lemma_filter_push(x@, pred);
                Seq::<PageView>::empty().lemma_filter_push(x@, pred);
                assert(Seq::<PageView>::empty().push(x@) =~= seq![x@]);
                assert(Seq::<PageView>::empty().filter(pred) =~= Seq::<PageView>::empty()) by {
                    reveal(Seq::filter);
                }
                assert(with_date(before, d) == head.filter(pred) + tail.filter(pred));
                if d == xd {
                    assert forall|m: int| 0 <= m < tail.len() implies !pred(#[trigger] tail[m]) by {
                        assert(tail[m] == before[k + m]);
                        lemma_opt_date_order(before[k + m].date, xd, xd);
                    }
                    tail.lemma_all_neg_filter_empty(pred);
                    assert(seq![x@].filter(pred) =~= seq![x@]);
                    assert(tail.filter(pred) =~= Seq::<PageView>::empty());
                    assert(with_date(after, d) =~= head.filter(pred).push(x@));
                    assert(with_date(before, d) =~= head.filter(pred));
                } else {
                    assert(seq![x@].filter(pred) =~= Seq::<PageView>::empty());
                    assert(with_date(after, d) =~= head.filter(pred) + tail.filter(pred));
                }
            }
        }
        i = i + 1;
    }
    assert(orig.take(src.len() as int) =~= orig);
    *pages = out;
}

} // verus!

verus! {

// ---------------------------------------------------------------------------
// Sections and the site.

/// One directory's content: its key (the directory's path, `/`-joined), the
/// record and HTML body of its index file, and its pages.
#[derive(Debug)]
pub struct SectionContent {
    pub key: String,
    pub meta: FrontMatter,
    pub body_html: String,
    pub pages: Vec<PageData>,
}

pub struct SectionView {
    pub key: Seq<char>,
    pub meta: FrontMatterView,
    pub body_html: Seq<char>,
    pub pages: Seq<PageView>,
}

impl View for SectionContent {
    type V = SectionView;

    open spec fn view(&self) -> SectionView {
        SectionView {
            key: self.key@,
            meta: self.meta@,
            body_html: self.body_html@,
            pages: page_views(self.pages@),
        }
    }
}

pub open spec fn section_views(ss: Seq<SectionContent>) -> Seq<SectionView> {
    ss.map_values(|s: SectionContent| s@)
}

/// What a template sees of a section (or of the root).
#[derive(Debug)]
pub struct SectionData {
    pub title: String,
    pub description: Option<String>,
    pub pages: Vec<PageData>,
    pub content: String,
}

pub struct SectionDataView {
    pub title: Seq<char>,
    pub description: Option<Seq<char>>,
    pub pages: Seq<PageView>,
    pub content: Seq<char>,
}

impl View for SectionData {
    type V = SectionDataView;

    open spec fn view(&self) -> SectionDataView {
        SectionDataView {
            title: self.title@,
            description: opt_view(self.description),
            pages: page_views(self.pages@),
            content: self.content@,
        }
    }
}

/// A content file: its path below the content root, one entry per
/// component, and its text.
#[derive(Debug)]
pub struct SourceFile {
    pub path: Vec<String>,
    pub text: String,
}

pub struct SourceView {
    pub path: Seq<Seq<char>>,
    pub text: Seq<char>,
}

impl View for SourceFile {
    type V = SourceView;

    open spec fn view(&self) -> SourceView {
        SourceView { path: self.path@.map_values(|c: String| c@), text: self.text@ }
    }
}

pub open spec fn source_views(fs: Seq<SourceFile>) -> Seq<SourceView> {
    fs.map_values(|f: SourceFile| f@)
}

/// The whole assembled content: the root section and the others, each
/// once, in the order in which they were first met.
#[derive(Debug)]
pub struct Site {
    pub root: SectionData,
    pub sections: Vec<SectionContent>,
}

/// A content file that could not be read into the model.
#[derive(Debug)]
pub struct ContentError {
    /// The file's path below the content root, `/`-joined.
    pub path: String,
    pub error: FrontMatterError,
}

// ---------------------------------------------------------------------------
// File names and paths.

/// The reserved name of a section's index file.
pub open spec fn index_name() -> Seq<char> {
    seq!['_', 'i', 'n', 'd', 'e', 'x', '.', 'm', 'd']
}

/// A name with the markdown extension and a non-empty stem.
pub open spec fn is_markdown_name(name: Seq<char>) -> bool {
    name.len() > 3 && name.subrange(name.len() - 3, name.len() as int) == seq!['.', 'm', 'd']
}

/// The name without its `.md` extension.
pub open spec fn stem_of(name: Seq<char>) -> Seq<char> {
    name.subrange(0, name.len() - 3)
}

/// Path components joined with `/`.
pub open spec fn join_slash(cs: Seq<Seq<char>>) -> Seq<char>
    decreases cs.len(),
{
    if cs.len() == 0 {
        Seq::empty()
    } else if cs.len() == 1 {
        cs[0]
    } else {
        join_slash(cs.drop_last()) + seq!['/'] + cs.last()
    }
}

/// A path that the model reads: a markdown file.
pub open spec fn is_content_path(path: Seq<Seq<char>>) -> bool {
    path.len() > 0 && is_markdown_name(path.last())
}

pub fn is_markdown_file_name(name: &str) -> (r: bool)
    ensures
        r == is_markdown_name(name@),
{
    let cs = chars_of(name);
    let n = cs.len();
    if n <= 3 {
        return false;
    }
    let r = cs[n - 3] == '.' && cs[n - 2] == 'm' && cs[n - 1] == 'd';
    assert(r == (name@.subrange(n - 3, n as int) =~= seq!['.', 'm', 'd']));
    r
}

fn is_index_file_name(name: &str) -> (r: bool)
    ensures
        r == (name@ == index_name()),
{
    let cs = chars_of(name);
    if cs.len() != 9 {
        return false;
    }
    let r = cs[0] == '_' && cs[1] == 'i' && cs[2] == 'n' && cs[3] == 'd' && cs[4] == 'e' && cs[5]
        == 'x' && cs[6] == '.' && cs[7] == 'm' && cs[8] == 'd';
    assert(r == (name@ =~= index_name()));
    r
}

fn file_stem(name: &str) -> (r: String)
    requires
        is_markdown_name(name@),
    ensures
        r@ == stem_of(name@),
{
    let cs = chars_of(name);
    let mut out = String::new();
    let mut i: usize = 0;
    while i < cs.len() - 3
        invariant
            cs@ == name@,
            cs.len() > 3,
            i <= cs.len() - 3,
            out@ == name@.take(i as int),
        decreases cs.len() - 3 - i,
    {
        out.push(cs[i]);
        i = i + 1;
        assert(out@ =~= name@.take(i as int));
    }
    assert(out@ =~= stem_of(name@));
    out
}

/// Joins the first `n` components of a path with `/`.
fn join_components(path: &Vec<String>, n: usize) -> (r: String)
    requires
        n <= path.len(),
    ensures
        r@ == join_slash(path@.map_values(|c: String| c@).take(n as int)),
{
    let ghost cs = path@.map_values(|c: String| c@);
    let mut out = String::new();
    let mut i: usize = 0;
    while i < n
        invariant
            i <= n <= path.len(),
            cs == path@.map_values(|c: String| c@),
            out@ == join_slash(cs.take(i as int)),
        decreases n - i,
    {
        if i > 0 {
            push_all(&mut out, "/");
            proof { reveal_strlit("/"); }
        }
        push_all(&mut out, path[i].as_str());
        i = i + 1;
        proof {
            assert(cs.take(i as int).drop_last() =~= cs.take(i - 1));
            if i == 1 {
                assert(out@ =~= cs.take(1)[0]);
            } else {
                assert(out@ =~= join_slash(cs.take(i - 1)) + seq!['/'] + cs[i - 1]);
            }
        }
    }
    out
}

} // verus!

verus! {

// ---------------------------------------------------------------------------
// Assembling the model.

/// The model while files are read: the root's record and body, and the
/// sections met so far.
pub struct ScanState {
    pub root_meta: FrontMatterView,
    pub root_body: Seq<char>,
    pub sections: Seq<SectionView>,
}

pub open spec fn initial_state() -> ScanState {
    ScanState { root_meta: empty_front_matter(), root_body: Seq::empty(), sections: Seq::empty() }
}

/// No two sections share a key.
pub open spec fn keys_unique(ss: Seq<SectionView>) -> bool {
    forall|i: int, j: int| 0 <= i < j < ss.len() ==> (#[trigger] ss[i]).key != (#[trigger] ss[j]).key
}

pub open spec fn has_key(ss: Seq<SectionView>, key: Seq<char>) -> bool {
    exists|i: int| 0 <= i < ss.len() && (#[trigger] ss[i]).key == key
}

/// The position of the section with `key` (meaningful when there is one).
pub open spec fn key_index(ss: Seq<SectionView>, key: Seq<char>) -> int {
    choose|i: int| 0 <= i < ss.len() && (#[trigger] ss[i]).key == key
}

/// The title of a page without one: its slug, dashes as spaces, upper-cased.
pub open spec fn fallback_title(slug: Seq<char>) -> Seq<char> {
    upper_of(dashes_to_spaces(slug))
}

/// The page that a leaf file makes.
pub open spec fn page_of(
    parent: Seq<char>,
    slug: Seq<char>,
    fm: FrontMatterView,
    html: Seq<char>,
    base: Seq<char>,
) -> PageView {
    PageView {
        title: match fm.title {
            Some(t) => t,
            None => fallback_title(slug),
        },
        date: fm.date,
        summary: fm.summary,
        content: html,
        permalink: permalink_of(base, parent, slug),
        relative_path: relative_path_of(parent, slug),
        template: fm.template,
        slug,
    }
}

/// An index file sets its section's record and body, creating the section
/// if it is new; its pages stay.
pub open spec fn with_index(ss: Seq<SectionView>, key: Seq<char>, fm: FrontMatterView, html: Seq<char>) -> Seq<SectionView> {
    if has_key(ss, key) {
        let i = key_index(ss, key);
        ss.update(i, SectionView { meta: fm, body_html: html, ..ss[i] })
    } else {
        ss.push(SectionView { key, meta: fm, body_html: html, pages: Seq::empty() })
    }
}

/// A page joins the end of its section's list, creating the section (with
/// the empty record and body) if it is new.
pub open spec fn with_page(ss: Seq<SectionView>, key: Seq<char>, p: PageView) -> Seq<SectionView> {
    if has_key(ss, key) {
        let i = key_index(ss, key);
        ss.update(i, SectionView { pages: ss[i].pages.push(p), ..ss[i] })
    } else {
        ss.push(
            SectionView { key, meta: empty_front_matter(), body_html: Seq::empty(), pages: seq![p] },
        )
    }
}

/// The model after one more content file with record `fm` and HTML body `html`.
pub open spec fn add_file(
    st: ScanState,
    path: Seq<Seq<char>>,
    fm: FrontMatterView,
    html: Seq<char>,
    base: Seq<char>,
) -> ScanState {
    let name = path.last();
    let parent = join_slash(path.drop_last());
    if name == index_name() {
        if path.len() == 1 {
            ScanState { root_meta: fm, root_body: html, ..st }
        } else {
            ScanState { sections: with_index(st.sections, parent, fm, html), ..st }
        }
    } else {
        ScanState {
            sections: with_page(st.sections, parent, page_of(parent, stem_of(name), fm, html, base)),
            ..st
        }
    }
}

/// The model that a sequence of files builds, before pages are sorted, or
/// the first content file whose front matter is refused (its `/`-joined
/// path and why). Files that are not markdown are passed over.
pub open spec fn scan(files: Seq<SourceView>, base: Seq<char>) -> Result<ScanState, (Seq<char>, FrontMatterErrorKind)>
    decreases files.len(),
{
    if files.len() == 0 {
        Ok(initial_state())
    } else {
        match scan(files.drop_last(), base) {
            Err(e) => Err(e),
            Ok(st) => {
                let f = files.last();
                if !is_content_path(f.path) {
                    Ok(st)
                } else {
                    match front_matter_of(f.text) {
                        Err(k) => Err((join_slash(f.path), k)),
                        Ok((fm, body)) => Ok(add_file(st, f.path, fm, html_of(body), base)),
                    }
                }
            },
        }
    }
}

/// The root as templates see it: titled "Home" unless its index file says otherwise.
pub open spec fn root_of(st: ScanState) -> SectionDataView {
    SectionDataView {
        title: match st.root_meta.title {
            Some(t) => t,
            None => "Home"@,
        },
        description: st.root_meta.description,
        pages: Seq::empty(),
        content: st.root_body,
    }
}

/// The assembled site: the scanned sections, in order, each with its pages
/// sorted newest first.
pub open spec fn is_site_of(root: SectionDataView, ss: Seq<SectionView>, st: ScanState) -> bool {
    root == root_of(st) && ss.len() == st.sections.len() && forall|i: int|
        0 <= i < ss.len() ==> {
            &&& (#[trigger] ss[i]).key == st.sections[i].key
            &&& ss[i].meta == st.sections[i].meta
            &&& ss[i].body_html == st.sections[i].body_html
            &&& stable_date_sort(ss[i].pages, st.sections[i].pages)
        }
}

pub fn find_section(ss: &Vec<SectionContent>, key: &str) -> (r: Option<usize>)
    requires
        keys_unique(section_views(ss@)),
    ensures
        match r {
            Some(i) => has_key(section_views(ss@), key@) && i == key_index(section_views(ss@), key@),
            None => !has_key(section_views(ss@), key@),
        },
{
    let ghost sv = section_views(ss@);
    let mut i: usize = 0;
    while i < ss.len()
        invariant
            i <= ss.len(),
            sv == section_views(ss@),
            keys_unique(sv),
            forall|j: int| 0 <= j < i ==> (#[trigger] sv[j]).key != key@,
        decreases ss.len() - i,
    {
        if same_text(ss[i].key.as_str(), key) {
            proof {
                assert(sv[i as int].key == key@);
                let k = key_index(sv, key@);
                assert(sv[k].key == key@);
                if k < i {
                    assert(sv[k].key != sv[i as int].key);
                } else if k > i {
                    assert(sv[i as int].key != sv[k].key);
                }
            }
            return Some(i);
        }
        i = i + 1;
    }
    None
}

} // verus!

verus! {

fn build_page(parent: &str, slug: String, fm: &FrontMatter, html: String, base_url: &str) -> (r: PageData)
    ensures
        r@ == page_of(parent@, slug@, fm@, html@, base_url@),
{
    let title = match &fm.title {
        Some(t) => copy_str(t.as_str()),
        None => {
            let spaced = replace_dashes(slug.as_str());
            to_upper(spaced.as_str())
        },
    };
    PageData {
        title,
        date: fm.date,
        summary: copy_opt(&fm.summary),
        content: html,
        permalink: page_permalink(base_url, parent, slug.as_str()),
        relative_path: page_relative_path(parent, slug.as_str()),
        template: copy_opt(&fm.template),
        slug,
    }
}

fn set_section_index(ss: &mut Vec<SectionContent>, key: String, fm: FrontMatter, html: String)
    requires
        keys_unique(section_views(old(ss)@)),
    ensures
        section_views(final(ss)@) == with_index(section_views(old(ss)@), key@, fm@, html@),
        keys_unique(section_views(final(ss)@)),
{
    let ghost sv = section_views(ss@);
    match find_section(ss, key.as_str()) {
        Some(i) => {
            ss[i].meta = fm;
            ss[i].body_html = html;
            assert(section_views(ss@) =~= with_index(sv, key@, fm@, html@));
        },
        None => {
            let pages: Vec<PageData> = Vec::new();
            assert(page_views(pages@) =~= Seq::<PageView>::empty());
            ss.push(SectionContent { key, meta: fm, body_html: html, pages });
            assert(section_views(ss@) =~= with_index(sv, key@, fm@, html@));
        },
    }
}

fn add_section_page(ss: &mut Vec<SectionContent>, key: String, p: PageData)
    requires
        keys_unique(section_views(old(ss)@)),
    ensures
        section_views(final(ss)@) == with_page(section_views(old(ss)@), key@, p@),
        keys_unique(section_views(final(ss)@)),
{
    let ghost sv = section_views(ss@);
    let ghost pv = p@;
    match find_section(ss, key.as_str()) {
        Some(i) => {
            let ghost before = ss[i as int].pages@;
            ss[i].pages.push(p);
            assert(page_views(ss[i as int].pages@) =~= page_views(before).push(pv));
            assert(section_views(ss@) =~= with_page(sv, key@, pv));
        },
        None => {
            let mut pages: Vec<PageData> = Vec::new();
            pages.push(p);
            assert(page_views(pages@) =~= seq![pv]);
            ss.push(SectionContent { key, meta: FrontMatter::empty(), body_html: String::new(), pages });
            assert(section_views(ss@) =~= with_page(sv, key@, pv));
        },
    }
}

} // verus!

verus! {

/// Once a file is refused, later files do not change the outcome.
proof fn lemma_scan_error_stays(files: Seq<SourceView>, base: Seq<char>, k: int)
    requires
        0 <= k <= files.len(),
        scan(files.take(k), base) is Err,
    ensures
        scan(files, base) == scan(files.take(k), base),
    decreases files.len() - k,
{
    if k < files.len() {
        assert(files.drop_last().take(k) =~= files.take(k));
        lemma_scan_error_stays(files.drop_last(), base, k);
    } else {
        assert(files.take(k) =~= files);
    }
}

/// Builds the site model from the content files: the root from the index
/// file directly under the content root, one section per directory that
/// holds content, pages sorted newest first. Fails on the first file whose
/// front matter is refused, naming it.
pub fn load_content(files: &Vec<SourceFile>, base_url: &str) -> (r: Result<Site, ContentError>)
    ensures
        match r {
            Ok(site) => scan(source_views(files@), base_url@) is Ok && keys_unique(
                section_views(site.sections@),
            ) && is_site_of(
                site.root@,
                section_views(site.sections@),
                scan(source_views(files@), base_url@)->Ok_0,
            ),
            Err(e) => scan(source_views(files@), base_url@) == Err::<
                ScanState,
                (Seq<char>, FrontMatterErrorKind),
            >((e.path@, e.error.kind())),
        },
{
    let ghost fv = source_views(files@);
    let mut root_meta = FrontMatter::empty();
    let mut root_body = String::new();
    let mut sections: Vec<SectionContent> = Vec::new();
    assert(section_views(sections@) =~= Seq::<SectionView>::empty());
    assert(fv.take(0) =~= Seq::<SourceView>::empty());
    let mut i: usize = 0;
    while i < files.len()
        invariant
            i <= files.len(),
            fv == source_views(files@),
            scan(fv.take(i as int), base_url@) == Ok::<ScanState, (Seq<char>, FrontMatterErrorKind)>(
                ScanState {
                    root_meta: root_meta@,
                    root_body: root_body@,
                    sections: section_views(sections@),
                },
            ),
            keys_unique(section_views(sections@)),
        decreases files.len() - i,
    {
        let f = &files[i];
        let ghost cs = f@.path;
        assert(fv.take(i + 1).drop_last() =~= fv.take(i as int));
        assert(fv.take(i + 1).last() == f@);
        let n = f.path.len();
        if n == 0 || !is_markdown_file_name(f.path[n - 1].as_str()) {
            i = i + 1;
            continue;
        }
        let (fm, body) = match parse_front_matter(f.text.as_str()) {
            Ok(v) => v,
            Err(e) => {
                let path = join_components(&f.path, n);
                assert(cs.take(n as int) =~= cs);
                proof {
                    lemma_scan_error_stays(fv, base_url@, i + 1);
                }
                return Err(ContentError { path, error: e });
            },
        };
        let html = markdown_to_html(body.as_str());
        let parent = join_components(&f.path, n - 1);
        assert(cs.take(n - 1) =~= cs.drop_last());
        let name = f.path[n - 1].as_str();
        if is_index_file_name(name) {
            if n == 1 {
                root_meta = fm;
                root_body = html;
            } else {
                set_section_index(&mut sections, parent, fm, html);
            }
        } else {
            let slug = file_stem(name);
            let page = build_page(parent.as_str(), slug, &fm, html, base_url);
            add_section_page(&mut sections, parent, page);
        }
        i = i + 1;
    }
    assert(fv.take(files.len() as int) =~= fv);
    let ghost st = scan(fv, base_url@)->Ok_0;
    let mut j: usize = 0;
    while j < sections.len()
        invariant
            j <= sections.len(),
            st.sections.len() == sections.len(),
            forall|k: int| 0 <= k < sections.len() ==> {
                &&& (#[trigger] sections@[k])@.key == st.sections[k].key
                &&& sections@[k]@.meta == st.sections[k].meta
                &&& sections@[k]@.body_html == st.sections[k].body_html
            },
            forall|k: int| 0 <= k < j ==> stable_date_sort(#[trigger] sections@[k]@.pages, st.sections[k].pages),
            keys_unique(st.sections),
            forall|k: int| j <= k < sections.len() ==> #[trigger] sections@[k]@.pages == st.sections[k].pages,
        decreases sections.len() - j,
    {
        let ghost before = sections@;
        assert(before[j as int]@.pages == st.sections[j as int].pages);
        let mut pages: Vec<PageData> = Vec::new();
        std::mem::swap(&mut pages, &mut sections[j].pages);
        sort_pages(&mut pages);
        sections[j].pages = pages;
        assert(forall|k: int| 0 <= k < sections.len() && k != j ==> sections@[k] == before[k]);
        assert(stable_date_sort(sections@[j as int]@.pages, st.sections[j as int].pages));
        j = j + 1;
    }
    let title = match root_meta.title {
        Some(t) => t,
        None => {
            let h = "Home";
            proof { reveal_strlit("Home"); }
            copy_str(h)
        },
    };
    let root = SectionData {
        title,
        description: root_meta.description,
        pages: Vec::new(),
        content: root_body,
    };
    assert(page_views(root.pages@) =~= Seq::<PageView>::empty());
    let site = Site { root, sections };
    assert(keys_unique(section_views(site.sections@))) by {
        assert forall|a: int, b: int| 0 <= a < b < site.sections.len() implies (#[trigger] section_views(site.sections@)[a]).key
            != (#[trigger] section_views(site.sections@)[b]).key by {
            assert(site.sections@[a]@.key == st.sections[a].key);
            assert(site.sections@[b]@.key == st.sections[b].key);
        }
    }
    assert(is_site_of(site.root@, section_views(site.sections@), st));
    Ok(site)
}

} // verus!
