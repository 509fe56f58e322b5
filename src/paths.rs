//! Site-relative addressing: how deep an output lives and the `../` prefix
//! that leads back to the output root, plus page paths and permalinks.
use vstd::prelude::*;
use crate::text::push_all;

verus! {

/// Number of `/`-separated segments of a section key; the empty key has none.
pub open spec fn segment_count(key: Seq<char>) -> nat {
    if key.len() == 0 {
        0
    } else {
        key.filter(|c: char| c == '/').len() + 1
    }
}

/// Parent-directory hops from an output document back to the output root.
pub open spec fn path_depth(key: Seq<char>, is_page: bool) -> nat {
    segment_count(key) + if is_page { 1nat } else { 0nat }
}

/// `n` repetitions of `../`.
pub open spec fn prefix_of(n: nat) -> Seq<char>
    decreases n,
{
    if n == 0 {
        Seq::empty()
    } else {
        prefix_of((n - 1) as nat) + seq!['.', '.', '/']
    }
}

/// Where a page's document lands, relative to the output root.
pub open spec fn relative_path_of(parent: Seq<char>, slug: Seq<char>) -> Seq<char> {
    if parent.len() == 0 {
        slug + "/index.html"@
    } else {
        parent + "/"@ + slug + "/index.html"@
    }
}

/// The site-relative address of a page: its section key and slug.
pub open spec fn url_path_of(parent: Seq<char>, slug: Seq<char>) -> Seq<char> {
    if parent.len() == 0 {
        slug
    } else {
        parent + "/"@ + slug
    }
}

/// The absolute address of a page under the base URL, ending in `/`.
pub open spec fn permalink_of(base: Seq<char>, parent: Seq<char>, slug: Seq<char>) -> Seq<char> {
    base + "/"@ + url_path_of(parent, slug) + "/"@
}

/// Depth of a section (or of a page one level below it) under the output root.
pub fn calculate_path_depth(path: &str, is_page: bool) -> (r: usize)
    requires
        path@.len() + 1 < usize::MAX,
    ensures
        r == path_depth(path@, is_page),
{
    let n = path.unicode_len();
    let mut slashes: usize = 0;
    let mut i: usize = 0;
    while i < n
        invariant
            n == path@.len(),
            i <= n,
            slashes == path@.subrange(0, i as int).filter(|c: char| c == '/').len(),
            slashes <= i,
        decreases n - i,
    {
        let c = path.get_char(i);
        proof {
            let pred = |c: char| c == '/';
            assert(path@.subrange(0, i + 1) =~= path@.subrange(0, i as int).push(c));
            path@.subrange(0, i as int).lemma_filter_push(c, pred);
        }
        if c == '/' {
            slashes = slashes + 1;
        }
        i = i + 1;
    }
    assert(path@.subrange(0, n as int) =~= path@);
    let base: usize = if n == 0 { 0 } else { slashes + 1 };
    if is_page { base + 1 } else { base }
}

/// The `../` prefix that climbs `depth` directories.
pub fn path_prefix_for_depth(depth: usize) -> (r: String)
    ensures
        r@ == prefix_of(depth as nat),
{
    let mut s = String::new();
    let mut i: usize = 0;
    while i < depth
        invariant
            i <= depth,
            s@ == prefix_of(i as nat),
        decreases depth - i,
    {
        s.push('.');
        s.push('.');
        s.push('/');
        i = i + 1;
        assert(s@ =~= prefix_of(i as nat));
    }
    s
}

/// The output path of a page, relative to the output root.
pub fn page_relative_path(parent_key: &str, slug: &str) -> (r: String)
    ensures
        r@ == relative_path_of(parent_key@, slug@),
{
    let mut s = String::new();
    if parent_key.unicode_len() > 0 {
        push_all(&mut s, parent_key);
        push_all(&mut s, "/");
    }
    push_all(&mut s, slug);
    push_all(&mut s, "/index.html");
    s
}

/// The absolute permalink of a page.
pub fn page_permalink(base_url: &str, parent_key: &str, slug: &str) -> (r: String)
    ensures
        r@ == permalink_of(base_url@, parent_key@, slug@),
{
    let mut s = String::new();
    push_all(&mut s, base_url);
    push_all(&mut s, "/");
    if parent_key.unicode_len() > 0 {
        push_all(&mut s, parent_key);
        push_all(&mut s, "/");
    }
    push_all(&mut s, slug);
    push_all(&mut s, "/");
    s
}

} // verus!

verus! {

/// A page's output path never begins with a path separator, when neither
/// the section key nor the slug does (the slug is never empty).
pub proof fn lemma_relative_path_is_relative(parent: Seq<char>, slug: Seq<char>)
    requires
        slug.len() > 0,
        slug[0] != '/',
        parent.len() > 0 ==> parent[0] != '/',
    ensures
        relative_path_of(parent, slug).len() > 0,
        relative_path_of(parent, slug)[0] != '/',
{
    if parent.len() == 0 {
        assert((slug + "/index.html"@)[0] == slug[0]);
    } else {
        assert((parent + "/"@ + slug + "/index.html"@)[0] == parent[0]);
    }
}

} // verus!

verus! {

/// `s` without the `/` characters at its end.
pub open spec fn trim_trailing_slashes(s: Seq<char>) -> Seq<char>
    decreases s.len(),
{
    if s.len() > 0 && s.last() == '/' {
        trim_trailing_slashes(s.drop_last())
    } else {
        s
    }
}

/// The base URL as permalinks use it: with no trailing `/`.
pub fn normalize_base_url(url: &str) -> (r: String)
    ensures
        r@ == trim_trailing_slashes(url@),
{
    let cs = crate::text::chars_of(url);
    let mut end: usize = cs.len();
    assert(url@.take(end as int) =~= url@);
    while end > 0 && cs[end - 1] == '/'
        invariant
            end <= cs.len(),
            cs@ == url@,
            trim_trailing_slashes(url@) == trim_trailing_slashes(url@.take(end as int)),
        decreases end,
    {
        assert(url@.take(end as int).drop_last() =~= url@.take(end - 1));
        end = end - 1;
    }
    assert(trim_trailing_slashes(url@.take(end as int)) == url@.take(end as int));
    let mut out = String::new();
    let mut i: usize = 0;
    while i < end
        invariant
            i <= end <= cs.len(),
            cs@ == url@,
            out@ == url@.take(i as int),
        decreases end - i,
    {
        out.push(cs[i]);
        i = i + 1;
        assert(out@ =~= url@.take(i as int));
    }
    out
}

} // verus!
