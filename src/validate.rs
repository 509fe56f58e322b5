//! Advisory checks on the assembled model: sections without a title,
//! sections with undated pages, and slugs used in more than one place.
use vstd::prelude::*;
use crate::content::{PageView, SectionContent, SectionView, keys_unique, page_views, section_views};
use crate::text::{copy_str, push_all, same_text};

verus! {

broadcast use vstd::seq_lib::group_filter_ensures;

/// One integrity warning. None of them stops a build.
#[derive(Debug, PartialEq, Eq)]
pub enum Warning {
    /// The section (by key) has no title.
    MissingTitle(String),
    /// The section (by key) has this many pages without a date.
    UndatedPages(String, usize),
    /// The slug appears at each of these `section/slug` locations.
    DuplicateSlug(String, Vec<String>),
}

pub enum WarningView {
    MissingTitle(Seq<char>),
    UndatedPages(Seq<char>, nat),
    DuplicateSlug(Seq<char>, Seq<Seq<char>>),
}

impl View for Warning {
    type V = WarningView;

    open spec fn view(&self) -> WarningView {
        match self {
            Warning::MissingTitle(k) => WarningView::MissingTitle(k@),
            Warning::UndatedPages(k, n) => WarningView::UndatedPages(k@, *n as nat),
            Warning::DuplicateSlug(s, ls) => WarningView::DuplicateSlug(
                s@,
                ls@.map_values(|l: String| l@),
            ),
        }
    }
}

pub open spec fn warning_views(ws: Seq<Warning>) -> Seq<WarningView> {
    ws.map_values(|w: Warning| w@)
}

/// The pages of a section without a date.
pub open spec fn undated(ps: Seq<PageView>) -> Seq<PageView> {
    ps.filter(|p: PageView| p.date is None)
}

/// The warnings that one section raises on its own.
pub open spec fn section_warnings(s: SectionView) -> Seq<WarningView> {
    (if s.meta.title is None {
        seq![WarningView::MissingTitle(s.key)]
    } else {
        Seq::empty()
    }) + (if undated(s.pages).len() > 0 {
        seq![WarningView::UndatedPages(s.key, undated(s.pages).len())]
    } else {
        Seq::empty()
    })
}

/// The per-section warnings of all sections, in section order.
pub open spec fn all_section_warnings(ss: Seq<SectionView>) -> Seq<WarningView>
    decreases ss.len(),
{
    if ss.len() == 0 {
        Seq::empty()
    } else {
        all_section_warnings(ss.drop_last()) + section_warnings(ss.last())
    }
}

/// Where a page of section `key` lives, as `key/slug`.
pub open spec fn location_of(key: Seq<char>, slug: Seq<char>) -> Seq<char> {
    key + seq!['/'] + slug
}

/// Each page's slug and location, in section order and page order.
pub open spec fn slug_locations(ss: Seq<SectionView>) -> Seq<(Seq<char>, Seq<char>)>
    decreases ss.len(),
{
    if ss.len() == 0 {
        Seq::empty()
    } else {
        slug_locations(ss.drop_last()) + ss.last().pages.map_values(
            |p: PageView| (p.slug, location_of(ss.last().key, p.slug)),
        )
    }
}

/// The locations at which `slug` occurs.
pub open spec fn locations_of(all: Seq<(Seq<char>, Seq<char>)>, slug: Seq<char>) -> Seq<Seq<char>> {
    all.filter(|e: (Seq<char>, Seq<char>)| e.0 == slug).map_values(
        |e: (Seq<char>, Seq<char>)| e.1,
    )
}

/// The slugs of `all`, each once, in the order of their first occurrence.
pub open spec fn distinct_slugs(all: Seq<(Seq<char>, Seq<char>)>) -> Seq<Seq<char>>
    decreases all.len(),
{
    if all.len() == 0 {
        Seq::empty()
    } else {
        let prev = distinct_slugs(all.drop_last());
        if prev.contains(all.last().0) {
            prev
        } else {
            prev.push(all.last().0)
        }
    }
}

/// One warning per slug that occurs more than once, naming every location.
pub open spec fn duplicate_warnings(all: Seq<(Seq<char>, Seq<char>)>) -> Seq<WarningView> {
    distinct_slugs(all).filter(|s: Seq<char>| locations_of(all, s).len() > 1).map_values(
        |s: Seq<char>| WarningView::DuplicateSlug(s, locations_of(all, s)),
    )
}

/// Every warning about a model: per-section ones first, in section order,
/// then the duplicate slugs in the order of their first occurrence.
pub open spec fn warnings_of(ss: Seq<SectionView>) -> Seq<WarningView> {
    all_section_warnings(ss) + duplicate_warnings(slug_locations(ss))
}

} // verus!

verus! {

pub open spec fn pair_views(v: Seq<(String, String)>) -> Seq<(Seq<char>, Seq<char>)> {
    v.map_values(|e: (String, String)| (e.0@, e.1@))
}

pub open spec fn string_views(v: Seq<String>) -> Seq<Seq<char>> {
    v.map_values(|s: String| s@)
}

fn count_undated(ps: &Vec<crate::content::PageData>) -> (r: usize)
    ensures
        r == undated(page_views(ps@)).len(),
{
    let ghost pv = page_views(ps@);
    let mut n: usize = 0;
    let mut j: usize = 0;
    assert(pv.take(0) =~= Seq::<PageView>::empty());
    assert(Seq::<PageView>::empty().filter(|p: PageView| p.date is None) =~= Seq::<PageView>::empty())
        by {
        reveal(Seq::filter);
    }
    while j < ps.len()
        invariant
            j <= ps.len(),
            pv == page_views(ps@),
            n == undated(pv.take(j as int)).len(),
            n <= j,
        decreases ps.len() - j,
    {
        proof {
            assert(pv.take(j + 1) =~= pv.take(j as int).push(pv[j as int]));
            pv.take(j as int).lemma_filter_push(pv[j as int], |p: PageView| p.date is None);
        }
        if ps[j].date.is_none() {
            n = n + 1;
        }
        j = j + 1;
    }
    assert(pv.take(ps.len() as int) =~= pv);
    n
}

fn location_string(key: &str, slug: &str) -> (r: String)
    ensures
        r@ == location_of(key@, slug@),
{
    let mut s = copy_str(key);
    s.push('/');
    push_all(&mut s, slug);
    s
}

fn collect_locations(ss: &Vec<SectionContent>) -> (r: Vec<(String, String)>)
    ensures
        pair_views(r@) == slug_locations(section_views(ss@)),
{
    let ghost sv = section_views(ss@);
    let mut all: Vec<(String, String)> = Vec::new();
    let mut i: usize = 0;
    assert(sv.take(0) =~= Seq::<SectionView>::empty());
    assert(pair_views(all@) =~= Seq::<(Seq<char>, Seq<char>)>::empty());
    while i < ss.len()
        invariant
            i <= ss.len(),
            sv == section_views(ss@),
            pair_views(all@) == slug_locations(sv.take(i as int)),
        decreases ss.len() - i,
    {
        let s = &ss[i];
        let ghost sec = sv[i as int];
        let ghost m = sec.pages.map_values(|p: PageView| (p.slug, location_of(sec.key, p.slug)));
        let ghost start = pair_views(all@);
        let mut j: usize = 0;
        assert(start + m.take(0) =~= start);
        while j < s.pages.len()
            invariant
                j <= s.pages.len(),
                sec == s@,
                m == sec.pages.map_values(|p: PageView| (p.slug, location_of(sec.key, p.slug))),
                pair_views(all@) == start + m.take(j as int),
            decreases s.pages.len() - j,
        {
            let p = &s.pages[j];
            let slug = copy_str(p.slug.as_str());
            let loc = location_string(s.key.as_str(), p.slug.as_str());
            let ghost before = all@;
            all.push((slug, loc));
            proof {
                assert(sec.pages[j as int] == p@);
                assert(pair_views(all@) =~= pair_views(before).push(m[j as int]));
                assert(m.take(j + 1) =~= m.take(j as int).push(m[j as int]));
            }
            j = j + 1;
        }
        proof {
            assert(m.take(s.pages.len() as int) =~= m);
            assert(sv.take(i + 1).drop_last() =~= sv.take(i as int));
            assert(sv.take(i + 1).last() == sec);
        }
        i = i + 1;
    }
    assert(sv.take(ss.len() as int) =~= sv);
    all
}

fn contains_text(v: &Vec<String>, t: &str) -> (r: bool)
    ensures
        r == string_views(v@).contains(t@),
{
    let mut i: usize = 0;
    while i < v.len()
        invariant
            i <= v.len(),
            forall|j: int| 0 <= j < i ==> (#[trigger] v@[j])@ != t@,
        decreases v.len() - i,
    {
        if same_text(v[i].as_str(), t) {
            assert(string_views(v@)[i as int] == t@);
            return true;
        }
        i = i + 1;
    }
    proof {
        if string_views(v@).contains(t@) {
            let k = choose|k: int| 0 <= k < string_views(v@).len() && string_views(v@)[k] == t@;
            assert(v@[k]@ == t@);
        }
    }
    false
}

fn distinct_of(all: &Vec<(String, String)>) -> (r: Vec<String>)
    ensures
        string_views(r@) == distinct_slugs(pair_views(all@)),
{
    let ghost av = pair_views(all@);
    let mut out: Vec<String> = Vec::new();
    let mut k: usize = 0;
    assert(av.take(0) =~= Seq::<(Seq<char>, Seq<char>)>::empty());
    assert(string_views(out@) =~= Seq::<Seq<char>>::empty());
    while k < all.len()
        invariant
            k <= all.len(),
            av == pair_views(all@),
            string_views(out@) == distinct_slugs(av.take(k as int)),
        decreases all.len() - k,
    {
        proof {
            assert(av.take(k + 1).drop_last() =~= av.take(k as int));
            assert(av.take(k + 1).last() == av[k as int]);
        }
        if !contains_text(&out, all[k].0.as_str()) {
            let ghost before = out@;
            out.push(copy_str(all[k].0.as_str()));
            assert(string_views(out@) =~= string_views(before).push(av[k as int].0));
        }
        k = k + 1;
    }
    assert(av.take(all.len() as int) =~= av);
    out
}

fn locations_for(all: &Vec<(String, String)>, slug: &str) -> (r: Vec<String>)
    ensures
        string_views(r@) == locations_of(pair_views(all@), slug@),
{
    let ghost av = pair_views(all@);
    let ghost pred = |e: (Seq<char>, Seq<char>)| e.0 == slug@;
    let ghost f = |e: (Seq<char>, Seq<char>)| e.1;
    let mut out: Vec<String> = Vec::new();
    let mut k: usize = 0;
    assert(av.take(0) =~= Seq::<(Seq<char>, Seq<char>)>::empty());
    assert(Seq::<(Seq<char>, Seq<char>)>::empty().filter(pred) =~= Seq::<(Seq<char>, Seq<char>)>::empty()) by {
        reveal(Seq::filter);
    }
    assert(string_views(out@) =~= Seq::<Seq<char>>::empty());
    while k < all.len()
        invariant
            k <= all.len(),
            av == pair_views(all@),
            pred == (|e: (Seq<char>, Seq<char>)| e.0 == slug@),
            f == (|e: (Seq<char>, Seq<char>)| e.1),
            string_views(out@) == av.take(k as int).filter(pred).map_values(f),
        decreases all.len() - k,
    {
        proof {
            assert(av.take(k + 1) =~= av.take(k as int).push(av[k as int]));
            av.take(k as int).lemma_filter_push(av[k as int], pred);
        }
        if same_text(all[k].0.as_str(), slug) {
            let ghost before = out@;
            out.push(copy_str(all[k].1.as_str()));
            assert(string_views(out@) =~= string_views(before).push(av[k as int].1));
            assert(av.take(k as int).filter(pred).push(av[k as int]).map_values(f) =~= av.take(
                k as int,
            ).filter(pred).map_values(f).push(av[k as int].1));
        }
        k = k + 1;
    }
    assert(av.take(all.len() as int) =~= av);
    out
}

/// The warnings about a model: for each section, in order, a missing title
/// and then undated pages; after them, each slug found at more than one
/// location, with all of its locations.
pub fn validate_content(sections: &Vec<SectionContent>) -> (r: Vec<Warning>)
    ensures
        warning_views(r@) == warnings_of(section_views(sections@)),
{
    let ghost sv = section_views(sections@);
    let mut out: Vec<Warning> = Vec::new();
    let mut i: usize = 0;
    assert(sv.take(0) =~= Seq::<SectionView>::empty());
    assert(warning_views(out@) =~= Seq::<WarningView>::empty());
    while i < sections.len()
        invariant
            i <= sections.len(),
            sv == section_views(sections@),
            warning_views(out@) == all_section_warnings(sv.take(i as int)),
        decreases sections.len() - i,
    {
        let s = &sections[i];
        let ghost before = warning_views(out@);
        if s.meta.title.is_none() {
            out.push(Warning::MissingTitle(copy_str(s.key.as_str())));
        }
        let ghost mid = warning_views(out@);
        let n = count_undated(&s.pages);
        if n > 0 {
            out.push(Warning::UndatedPages(copy_str(s.key.as_str()), n));
        }
        proof {
            assert(sv.take(i + 1).drop_last() =~= sv.take(i as int));
            assert(sv.take(i + 1).last() == s@);
            assert(warning_views(out@) =~= before + section_warnings(s@));
        }
        i = i + 1;
    }
    assert(sv.take(sections.len() as int) =~= sv);
    let all = collect_locations(sections);
    let ghost av = pair_views(all@);
    let slugs = distinct_of(&all);
    let ghost ds = string_views(slugs@);
    let ghost keep = |s: Seq<char>| locations_of(av, s).len() > 1;
    let ghost mk = |s: Seq<char>| WarningView::DuplicateSlug(s, locations_of(av, s));
    let ghost head = warning_views(out@);
    let mut m: usize = 0;
    assert(ds.take(0) =~= Seq::<Seq<char>>::empty());
    assert(Seq::<Seq<char>>::empty().filter(keep) =~= Seq::<Seq<char>>::empty()) by {
        reveal(Seq::filter);
    }
    assert(warning_views(out@) =~= head + ds.take(0).filter(keep).map_values(mk));
    while m < slugs.len()
        invariant
            m <= slugs.len(),
            av == pair_views(all@),
            ds == string_views(slugs@),
            keep == (|s: Seq<char>| locations_of(av, s).len() > 1),
            mk == (|s: Seq<char>| WarningView::DuplicateSlug(s, locations_of(av, s))),
            warning_views(out@) == head + ds.take(m as int).filter(keep).map_values(mk),
        decreases slugs.len() - m,
    {
        proof {
            assert(ds.take(m + 1) =~= ds.take(m as int).push(ds[m as int]));
            ds.take(m as int).lemma_filter_push(ds[m as int], keep);
        }
        let locs = locations_for(&all, slugs[m].as_str());
        if locs.len() > 1 {
            let ghost before = out@;
            let ghost lv = string_views(locs@);
            out.push(Warning::DuplicateSlug(copy_str(slugs[m].as_str()), locs));
            proof {
                assert(out@.last()@ == mk(ds[m as int]));
                assert(warning_views(out@) =~= warning_views(before).push(mk(ds[m as int])));
                assert(ds.take(m as int).filter(keep).push(ds[m as int]).map_values(mk) =~= ds.take(
                    m as int,
                ).filter(keep).map_values(mk).push(mk(ds[m as int])));
            }
        }
        m = m + 1;
    }
    assert(ds.take(slugs.len() as int) =~= ds);
    out
}

} // verus!

verus! {

proof fn lemma_location_listed(ss: Seq<SectionView>, a: int, k: int)
    requires
        0 <= a < ss.len(),
        0 <= k < ss[a].pages.len(),
    ensures
        slug_locations(ss).contains(
            (ss[a].pages[k].slug, location_of(ss[a].key, ss[a].pages[k].slug)),
        ),
    decreases ss.len(),
{
    let prev = slug_locations(ss.drop_last());
    let m = ss.last().pages.map_values(
        |p: PageView| (p.slug, location_of(ss.last().key, p.slug)),
    );
    assert(slug_locations(ss) == prev + m);
    if a == ss.len() - 1 {
        assert(slug_locations(ss)[prev.len() + k] == m[k]);
    } else {
        assert(ss.drop_last()[a] == ss[a]);
        lemma_location_listed(ss.drop_last(), a, k);
        let e = (ss[a].pages[k].slug, location_of(ss[a].key, ss[a].pages[k].slug));
        let w = choose|w: int| 0 <= w < prev.len() && prev[w] == e;
        assert(slug_locations(ss)[w] == prev[w]);
    }
}

proof fn lemma_location_found(all: Seq<(Seq<char>, Seq<char>)>, e: (Seq<char>, Seq<char>))
    requires
        all.contains(e),
    ensures
        locations_of(all, e.0).contains(e.1),
{
    let pred = |x: (Seq<char>, Seq<char>)| x.0 == e.0;
    let w = choose|w: int| 0 <= w < all.len() && all[w] == e;
    all.lemma_filter_contains(pred, w);
    let f = all.filter(pred);
    let v = choose|v: int| 0 <= v < f.len() && f[v] == e;
    assert(locations_of(all, e.0)[v] == e.1);
}

proof fn lemma_first_seen(all: Seq<(Seq<char>, Seq<char>)>, w: int)
    requires
        0 <= w < all.len(),
    ensures
        distinct_slugs(all).contains(all[w].0),
    decreases all.len(),
{
    let prev = distinct_slugs(all.drop_last());
    if w == all.len() - 1 {
        if !prev.contains(all.last().0) {
            assert(distinct_slugs(all)[prev.len() as int] == all.last().0);
        }
    } else {
        assert(all.drop_last()[w] == all[w]);
        lemma_first_seen(all.drop_last(), w);
        if !prev.contains(all.last().0) {
            let v = choose|v: int| 0 <= v < prev.len() && prev[v] == all[w].0;
            assert(distinct_slugs(all)[v] == prev[v]);
        }
    }
}

proof fn lemma_locations_differ(ka: Seq<char>, kb: Seq<char>, slug: Seq<char>)
    requires
        ka != kb,
    ensures
        location_of(ka, slug) != location_of(kb, slug),
{
    if ka.len() == kb.len() {
        if location_of(ka, slug) == location_of(kb, slug) {
            assert(ka =~= location_of(ka, slug).subrange(0, ka.len() as int));
            assert(kb =~= location_of(kb, slug).subrange(0, kb.len() as int));
        }
    } else {
        assert(location_of(ka, slug).len() != location_of(kb, slug).len());
    }
}

/// A slug shared by pages of two different sections draws a warning that
/// names both locations.
pub proof fn lemma_shared_slug_warned(ss: Seq<SectionView>, a: int, pa: int, b: int, pb: int)
    requires
        keys_unique(ss),
        0 <= a < ss.len(),
        0 <= b < ss.len(),
        a != b,
        0 <= pa < ss[a].pages.len(),
        0 <= pb < ss[b].pages.len(),
        ss[a].pages[pa].slug == ss[b].pages[pb].slug,
    ensures
        warnings_of(ss).contains(
            WarningView::DuplicateSlug(
                ss[a].pages[pa].slug,
                locations_of(slug_locations(ss), ss[a].pages[pa].slug),
            ),
        ),
        locations_of(slug_locations(ss), ss[a].pages[pa].slug).contains(
            location_of(ss[a].key, ss[a].pages[pa].slug),
        ),
        locations_of(slug_locations(ss), ss[a].pages[pa].slug).contains(
            location_of(ss[b].key, ss[a].pages[pa].slug),
        ),
{
    let slug = ss[a].pages[pa].slug;
    let all = slug_locations(ss);
    let la = location_of(ss[a].key, slug);
    let lb = location_of(ss[b].key, slug);
    lemma_location_listed(ss, a, pa);
    lemma_location_listed(ss, b, pb);
    lemma_location_found(all, (slug, la));
    lemma_location_found(all, (slug, lb));
    if a < b {
        assert(ss[a].key != ss[b].key);
    } else {
        assert(ss[b].key != ss[a].key);
    }
    lemma_locations_differ(ss[a].key, ss[b].key, slug);
    let locs = locations_of(all, slug);
    assert(locs.len() > 1) by {
        let ia = choose|i: int| 0 <= i < locs.len() && locs[i] == la;
        let ib = choose|i: int| 0 <= i < locs.len() && locs[i] == lb;
        assert(ia != ib);
    }
    let w = choose|w: int| 0 <= w < all.len() && all[w] == (slug, la);
    lemma_first_seen(all, w);
    let ds = distinct_slugs(all);
    let keep = |s: Seq<char>| locations_of(all, s).len() > 1;
    let mk = |s: Seq<char>| WarningView::DuplicateSlug(s, locations_of(all, s));
    let v = choose|v: int| 0 <= v < ds.len() && ds[v] == slug;
    ds.lemma_filter_contains(keep, v);
    let kept = ds.filter(keep);
    let u = choose|u: int| 0 <= u < kept.len() && kept[u] == slug;
    let dw = duplicate_warnings(all);
    assert(dw == kept.map_values(mk));
    assert(dw[u] == mk(slug));
    let sw = all_section_warnings(ss);
    assert(warnings_of(ss)[sw.len() + u] == dw[u]);
}

} // verus!
