//! Front matter: the `+++`-delimited metadata block at the top of a content
//! file, and the record read from it.
use vstd::prelude::*;
use crate::text::{chars_of, copy_str, is_delimiter, is_delimiter_line, lines_of, split_lines, string_of, views};

verus! {

/// A calendar date.
#[derive(Clone, Copy, Debug, PartialEq, Eq, Structural)]
pub struct Date {
    pub year: i32,
    pub month: u32,
    pub day: u32,
}

/// The metadata of a content file. Every field is optional.
#[derive(Debug)]
pub struct FrontMatter {
    pub title: Option<String>,
    pub description: Option<String>,
    pub template: Option<String>,
    pub date: Option<Date>,
    pub summary: Option<String>,
    pub sort_by: Option<String>,
}

/// The mathematical content of a `FrontMatter`.
pub struct FrontMatterView {
    pub title: Option<Seq<char>>,
    pub description: Option<Seq<char>>,
    pub template: Option<Seq<char>>,
    pub date: Option<Date>,
    pub summary: Option<Seq<char>>,
    pub sort_by: Option<Seq<char>>,
}

pub open spec fn opt_view(o: Option<String>) -> Option<Seq<char>> {
    match o {
        Some(s) => Some(s@),
        None => None,
    }
}

impl View for FrontMatter {
    type V = FrontMatterView;

    open spec fn view(&self) -> FrontMatterView {
        FrontMatterView {
            title: opt_view(self.title),
            description: opt_view(self.description),
            template: opt_view(self.template),
            date: self.date,
            summary: opt_view(self.summary),
            sort_by: opt_view(self.sort_by),
        }
    }
}

/// The record with no field set.
pub open spec fn empty_front_matter() -> FrontMatterView {
    FrontMatterView {
        title: None,
        description: None,
        template: None,
        date: None,
        summary: None,
        sort_by: None,
    }
}

impl FrontMatter {
    pub fn empty() -> (r: FrontMatter)
        ensures
            r@ == empty_front_matter(),
    {
        FrontMatter {
            title: None,
            description: None,
            template: None,
            date: None,
            summary: None,
            sort_by: None,
        }
    }
}

pub fn copy_opt(o: &Option<String>) -> (r: Option<String>)
    ensures
        opt_view(r) == opt_view(*o),
{
    match o {
        Some(s) => Some(copy_str(s.as_str())),
        None => None,
    }
}

impl FrontMatter {
    /// A field-by-field copy.
    pub fn duplicate(&self) -> (r: FrontMatter)
        ensures
            r@ == self@,
    {
        FrontMatter {
            title: copy_opt(&self.title),
            description: copy_opt(&self.description),
            template: copy_opt(&self.template),
            date: self.date,
            summary: copy_opt(&self.summary),
            sort_by: copy_opt(&self.sort_by),
        }
    }
}

// ---------------------------------------------------------------------------
// Splitting a file into its metadata block and its body.

/// Each line followed by a newline, concatenated.
pub open spec fn join_lines(ls: Seq<Seq<char>>) -> Seq<char>
    decreases ls.len(),
{
    if ls.len() == 0 {
        Seq::empty()
    } else {
        join_lines(ls.drop_last()) + ls.last() + seq!['\n']
    }
}

/// Index of the first delimiter line at or after `k`, or the number of lines.
pub open spec fn closing_from(ls: Seq<Seq<char>>, k: int) -> int
    decreases ls.len() - k,
{
    if k >= ls.len() || k < 0 {
        ls.len() as int
    } else if is_delimiter(ls[k]) {
        k
    } else {
        closing_from(ls, k + 1)
    }
}

/// Whether the file opens a metadata block: its first line is a delimiter.
pub open spec fn opens_block(content: Seq<char>) -> bool {
    lines_of(content).len() > 0 && is_delimiter(lines_of(content)[0])
}

/// The metadata text of a file that opens a block: the lines between the
/// opening delimiter and the first closing one (or the end of the file).
pub open spec fn block_text(content: Seq<char>) -> Seq<char> {
    let ls = lines_of(content);
    join_lines(ls.subrange(1, closing_from(ls, 1)))
}

/// The body of a file that opens a block: the lines after the closing
/// delimiter, each with a newline; empty when no closing delimiter is found.
pub open spec fn block_body(content: Seq<char>) -> Seq<char> {
    let ls = lines_of(content);
    let c = closing_from(ls, 1);
    if c < ls.len() {
        join_lines(ls.subrange(c + 1, ls.len() as int))
    } else {
        Seq::empty()
    }
}

fn join_range(ls: &Vec<Vec<char>>, from: usize, to: usize) -> (r: Vec<char>)
    requires
        from <= to <= ls.len(),
    ensures
        r@ == join_lines(views(ls@).subrange(from as int, to as int)),
{
    let mut out: Vec<char> = Vec::new();
    let mut k: usize = from;
    while k < to
        invariant
            from <= k <= to <= ls.len(),
            out@ == join_lines(views(ls@).subrange(from as int, k as int)),
        decreases to - k,
    {
        let line = &ls[k];
        let mut j: usize = 0;
        let ghost start = out@;
        while j < line.len()
            invariant
                j <= line.len(),
                out@ == start + line@.take(j as int),
            decreases line.len() - j,
        {
            out.push(line[j]);
            j = j + 1;
            assert(out@ =~= start + line@.take(j as int));
        }
        out.push('\n');
        k = k + 1;
        proof {
            let sub = views(ls@).subrange(from as int, k as int);
            assert(sub.drop_last() =~= views(ls@).subrange(from as int, k - 1));
            assert(line@.take(line.len() as int) =~= line@);
            assert(out@ =~= join_lines(sub));
        }
    }
    out
}

/// Splits a file into its metadata text and body; `None` when the first
/// line is not a delimiter.
pub fn split_block(content: &str) -> (r: Option<(String, String)>)
    ensures
        match r {
            None => !opens_block(content@),
            Some((meta, body)) => opens_block(content@) && meta@ == block_text(content@)
                && body@ == block_body(content@),
        },
{
    let chars = chars_of(content);
    let ls = split_lines(&chars);
    if ls.len() == 0 || !is_delimiter_line(&ls[0]) {
        return None;
    }
    let ghost lv = views(ls@);
    let mut c: usize = 1;
    while c < ls.len() && !is_delimiter_line(&ls[c])
        invariant
            1 <= c <= ls.len(),
            lv == views(ls@),
            closing_from(lv, c as int) == closing_from(lv, 1),
        decreases ls.len() - c,
    {
        c = c + 1;
    }
    let meta = join_range(&ls, 1, c);
    let body = if c < ls.len() {
        join_range(&ls, c + 1, ls.len())
    } else {
        Vec::new()
    };
    proof {
        assert(body@ == block_body(content@));
    }
    Some((string_of(&meta), string_of(&body)))
}

} // verus!

verus! {

// ---------------------------------------------------------------------------
// Reading the record out of the metadata text.

/// `toml::map::Map`, the table type of `toml` (`toml::Table`), held opaque.
#[verifier::external_type_specification]
#[verifier::external_body]
#[verifier::reject_recursive_types(K)]
#[verifier::reject_recursive_types(V)]
pub struct ExTomlMap<K, V>(toml::map::Map<K, V>);

/// `toml::Value`, a value of a TOML table, held opaque.
#[verifier::external_type_specification]
#[verifier::external_body]
pub struct ExTomlValue(toml::Value);

/// The top-level table of a TOML document, when the text parses: each key
/// maps to its string value, or to `None` for a value of another kind.
pub uninterp spec fn toml_document_of(text: Seq<char>) -> Option<Map<Seq<char>, Option<Seq<char>>>>;

/// What a parsed TOML table holds, in the form of `toml_document_of`.
pub uninterp spec fn table_entries(t: toml::Table) -> Map<Seq<char>, Option<Seq<char>>>;

/// The date that `text` denotes in `YYYY-MM-DD` form, as (year, month, day).
pub uninterp spec fn calendar_date_of(text: Seq<char>) -> Option<(i32, u32, u32)>;

/// Relies on `toml::from_str` into a `toml::Table`: the document's top-level
/// table when the text is valid TOML, else its error message.
#[verifier::external_body]
fn parse_toml_table(text: &str) -> (r: Result<toml::Table, String>)
    ensures
        (r is Ok) <==> (toml_document_of(text@) is Some),
        r is Ok ==> table_entries(r->Ok_0) == toml_document_of(text@)->0,
{
    toml::from_str::<toml::Table>(text).map_err(|e| e.to_string())
}

/// Relies on `toml::map::Map::get`: the value under `key`; a string value is
/// handed out as such, any other kind as `Some(None)`.
#[verifier::external_body]
fn table_text(t: &toml::Table, key: &str) -> (r: Option<Option<String>>)
    ensures
        match r {
            None => !table_entries(*t).contains_key(key@),
            Some(v) => table_entries(*t).contains_key(key@) && table_entries(*t)[key@]
                == opt_view(v),
        },
{
    match t.get(key) {
        None => None,
        Some(toml::Value::String(s)) => Some(Some(s.clone())),
        Some(_) => Some(None),
    }
}

/// Relies on chrono's `FromStr` for `NaiveDate` and its `Datelike` accessors.
#[verifier::external_body]
fn parse_calendar_date(text: &str) -> (r: Option<Date>)
    ensures
        match r {
            Some(d) => calendar_date_of(text@) == Some((d.year, d.month, d.day)),
            None => calendar_date_of(text@) is None,
        },
{
    match text.parse::<chrono::NaiveDate>() {
        Ok(d) => Some(
            Date {
                year: chrono::Datelike::year(&d),
                month: chrono::Datelike::month(&d),
                day: chrono::Datelike::day(&d),
            },
        ),
        Err(_) => None,
    }
}

/// Why a metadata block was refused.
#[derive(Debug, PartialEq, Eq)]
pub enum FrontMatterError {
    /// The block is not valid TOML; the parser's message.
    Syntax(String),
    /// The value under this key is not a string.
    NotText(String),
    /// The `date` value is not a `YYYY-MM-DD` date.
    BadDate(String),
}

/// A date from its (year, month, day).
pub open spec fn date_from(ymd: (i32, u32, u32)) -> Date {
    let (year, month, day) = ymd;
    Date { year, month, day }
}

/// A key whose value is of another kind than a string.
pub open spec fn not_text(m: Map<Seq<char>, Option<Seq<char>>>, key: Seq<char>) -> bool {
    m.contains_key(key) && m[key] is None
}

/// A string field of the record: absent keys give `None`.
pub open spec fn text_field(m: Map<Seq<char>, Option<Seq<char>>>, key: Seq<char>) -> Option<Seq<char>> {
    if m.contains_key(key) {
        m[key]
    } else {
        None
    }
}

/// The outcome of reading the record out of a table: the first recognized
/// key (in reading order) whose value is not a string, else a date that
/// does not parse, else the record.
pub open spec fn record_of(m: Map<Seq<char>, Option<Seq<char>>>) -> Result<FrontMatterView, FrontMatterErrorKind> {
    if not_text(m, "title"@) {
        Err(FrontMatterErrorKind::NotText("title"@))
    } else if not_text(m, "description"@) {
        Err(FrontMatterErrorKind::NotText("description"@))
    } else if not_text(m, "template"@) {
        Err(FrontMatterErrorKind::NotText("template"@))
    } else if not_text(m, "date"@) {
        Err(FrontMatterErrorKind::NotText("date"@))
    } else if text_field(m, "date"@) is Some && calendar_date_of(text_field(m, "date"@)->0) is None {
        Err(FrontMatterErrorKind::BadDate(text_field(m, "date"@)->0))
    } else if not_text(m, "summary"@) {
        Err(FrontMatterErrorKind::NotText("summary"@))
    } else if not_text(m, "sort_by"@) {
        Err(FrontMatterErrorKind::NotText("sort_by"@))
    } else {
        Ok(
            FrontMatterView {
                title: text_field(m, "title"@),
                description: text_field(m, "description"@),
                template: text_field(m, "template"@),
                date: match text_field(m, "date"@) {
                    Some(t) => Some(date_from(calendar_date_of(t)->0)),
                    None => None,
                },
                summary: text_field(m, "summary"@),
                sort_by: text_field(m, "sort_by"@),
            },
        )
    }
}

/// The mathematical content of a `FrontMatterError`; a syntax error keeps no message.
pub enum FrontMatterErrorKind {
    Syntax,
    NotText(Seq<char>),
    BadDate(Seq<char>),
}

impl FrontMatterError {
    pub open spec fn kind(&self) -> FrontMatterErrorKind {
        match self {
            FrontMatterError::Syntax(_) => FrontMatterErrorKind::Syntax,
            FrontMatterError::NotText(k) => FrontMatterErrorKind::NotText(k@),
            FrontMatterError::BadDate(t) => FrontMatterErrorKind::BadDate(t@),
        }
    }
}

/// The record that a metadata text gives, or why it gives none.
pub open spec fn metadata_of(text: Seq<char>) -> Result<FrontMatterView, FrontMatterErrorKind> {
    match toml_document_of(text) {
        None => Err(FrontMatterErrorKind::Syntax),
        Some(m) => record_of(m),
    }
}

fn read_text(t: &toml::Table, key: &str) -> (r: Result<Option<String>, FrontMatterError>)
    ensures
        match r {
            Ok(v) => !not_text(table_entries(*t), key@) && opt_view(v) == text_field(
                table_entries(*t),
                key@,
            ),
            Err(e) => not_text(table_entries(*t), key@) && e.kind()
                == FrontMatterErrorKind::NotText(key@),
        },
{
    match table_text(t, key) {
        None => Ok(None),
        Some(Some(s)) => Ok(Some(s)),
        Some(None) => Err(FrontMatterError::NotText(copy_str(key))),
    }
}

/// Reads the record out of a metadata text.
pub fn parse_metadata(text: &str) -> (r: Result<FrontMatter, FrontMatterError>)
    ensures
        match r {
            Ok(fm) => metadata_of(text@) == Ok::<FrontMatterView, FrontMatterErrorKind>(fm@),
            Err(e) => metadata_of(text@) == Err::<FrontMatterView, FrontMatterErrorKind>(e.kind()),
        },
{
    let t = match parse_toml_table(text) {
        Ok(t) => t,
        Err(msg) => {
            return Err(FrontMatterError::Syntax(msg));
        },
    };
    let ghost m = table_entries(t);
    let title = read_text(&t, "title")?;
    let description = read_text(&t, "description")?;
    let template = read_text(&t, "template")?;
    let date_text = read_text(&t, "date")?;
    let date = match date_text {
        Some(s) => match parse_calendar_date(s.as_str()) {
            Some(d) => Some(d),
            None => {
                return Err(FrontMatterError::BadDate(s));
            },
        },
        None => None,
    };
    let summary = read_text(&t, "summary")?;
    let sort_by = read_text(&t, "sort_by")?;
    Ok(FrontMatter { title, description, template, date, summary, sort_by })
}

} // verus!

verus! {

/// What a content file parses into: its record and body, or why its
/// metadata block was refused. A file that opens no block has the empty
/// record and is all body.
pub open spec fn front_matter_of(content: Seq<char>) -> Result<(FrontMatterView, Seq<char>), FrontMatterErrorKind> {
    if !opens_block(content) {
        Ok((empty_front_matter(), content))
    } else {
        match metadata_of(block_text(content)) {
            Ok(fm) => Ok((fm, block_body(content))),
            Err(e) => Err(e),
        }
    }
}

/// Splits a content file into its front matter record and its body.
pub fn parse_front_matter(content: &str) -> (r: Result<(FrontMatter, String), FrontMatterError>)
    ensures
        match r {
            Ok((fm, body)) => front_matter_of(content@) == Ok::<
                (FrontMatterView, Seq<char>),
                FrontMatterErrorKind,
            >((fm@, body@)),
            Err(e) => front_matter_of(content@) == Err::<
                (FrontMatterView, Seq<char>),
                FrontMatterErrorKind,
            >(e.kind()),
        },
{
    match split_block(content) {
        None => Ok((FrontMatter::empty(), copy_str(content))),
        Some((meta, body)) => match parse_metadata(meta.as_str()) {
            Ok(fm) => Ok((fm, body)),
            Err(e) => Err(e),
        },
    }
}

/// A file whose first line is not `+++` parses into the empty record, with
/// the whole file, unchanged, as its body.
pub proof fn lemma_no_block_is_all_body(content: Seq<char>)
    requires
        lines_of(content).len() == 0 || !is_delimiter(lines_of(content)[0]),
    ensures
        front_matter_of(content) == Ok::<(FrontMatterView, Seq<char>), FrontMatterErrorKind>(
            (empty_front_matter(), content),
        ),
{
}

} // verus!

verus! {

/// A table whose recognized keys all hold strings, the date a valid one,
/// reads into the record that holds exactly those values.
pub proof fn lemma_record_keeps_values(
    m: Map<Seq<char>, Option<Seq<char>>>,
    title: Seq<char>,
    description: Seq<char>,
    template: Seq<char>,
    date: Seq<char>,
    summary: Seq<char>,
    sort_by: Seq<char>,
)
    requires
        m.contains_key("title"@) && m["title"@] == Some(title),
        m.contains_key("description"@) && m["description"@] == Some(description),
        m.contains_key("template"@) && m["template"@] == Some(template),
        m.contains_key("date"@) && m["date"@] == Some(date),
        m.contains_key("summary"@) && m["summary"@] == Some(summary),
        m.contains_key("sort_by"@) && m["sort_by"@] == Some(sort_by),
        calendar_date_of(date) is Some,
    ensures
        record_of(m) is Ok,
        record_of(m)->Ok_0.title == Some(title),
        record_of(m)->Ok_0.description == Some(description),
        record_of(m)->Ok_0.template == Some(template),
        record_of(m)->Ok_0.summary == Some(summary),
        record_of(m)->Ok_0.sort_by == Some(sort_by),
        record_of(m)->Ok_0.date == Some(date_from(calendar_date_of(date)->0)),
{
}

} // verus!
