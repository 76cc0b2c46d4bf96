//! A note: one tracked text file, with the bibliographic metadata that its
//! header may carry.

use vstd::prelude::*;

use crate::bibtex::{parse_entry, BibtexEntry, ParseError};
use crate::paths::{file_name, file_name_of, rel_path, relative_path};
use crate::text::{
    all_digits, chars_of, contains, is_uppercase, lower_of, lowercase, opt_view, range_equals,
    seq_contains, substring, upper_char,
};
use crate::tokenizer::{count_words, token_count};

verus! {

/// What a note's header holds.
pub struct PaperMeta {
    pub tags: Option<Vec<String>>,
    pub bibtex: BibtexEntry,
    /// Path of the associated document, relative to the note.
    pub pdf: String,
}

impl PaperMeta {
    /// The metadata from a deserialized header: its tags, its citation
    /// record as text, and the path of its document. Fails exactly when the
    /// citation record does not parse.
    pub fn from_header(tags: Option<Vec<String>>, bibtex: &str, pdf: String) -> (r: Result<
        PaperMeta,
        ParseError,
    >)
        ensures
            match parse_entry(bibtex@) {
                Ok(e) => r matches Ok(m) && m.bibtex@ == e && m.tags == tags && m.pdf == pdf,
                Err(e) => r == Err::<PaperMeta, ParseError>(e),
            },
    {
        match BibtexEntry::try_from_str(bibtex) {
            Ok(entry) => Ok(PaperMeta { tags, bibtex: entry, pdf }),
            Err(e) => Err(e),
        }
    }
}

/// One tracked note.
pub struct File {
    /// Modification time, in nanoseconds since the Unix epoch.
    pub modified: u64,
    pub path: String,
    pub content: String,
    pub num_words: usize,
    pub meta: Option<PaperMeta>,
}

/// Two notes are the same entity when their paths and modification times
/// match.
impl PartialEq for File {
    fn eq(&self, other: &File) -> bool {
        self.path == other.path && self.modified == other.modified
    }
}

impl vstd::std_specs::cmp::PartialEqSpecImpl for File {
    open spec fn obeys_eq_spec() -> bool {
        true
    }

    open spec fn eq_spec(&self, other: &File) -> bool {
        self.path@ == other.path@ && self.modified == other.modified
    }
}

/// The opening and closing line of a header, without its line break.
pub open spec fn fence() -> Seq<char> {
    seq!['-', '-', '-']
}

/// A line ends at `i` in `r`: at the end of the text, a line feed, or a
/// carriage return followed by a line feed.
pub open spec fn line_ends_at(r: Seq<char>, i: int) -> bool {
    i == r.len() || (0 <= i < r.len() && r[i] == '\n') || (0 <= i && i + 1 < r.len() && r[i]
        == '\r' && r[i + 1] == '\n')
}

/// The length of the line break at `i`: 1 for a line feed, 2 for a carriage
/// return and line feed, 0 otherwise.
pub open spec fn break_len(r: Seq<char>, i: int) -> int {
    if 0 <= i < r.len() && r[i] == '\n' {
        1
    } else if 0 <= i && i + 1 < r.len() && r[i] == '\r' && r[i + 1] == '\n' {
        2
    } else {
        0
    }
}

/// `---` stands at `i` in `r` and its line ends right after it.
pub open spec fn fence_line_at(r: Seq<char>, i: int) -> bool {
    &&& 0 <= i
    &&& i + 3 <= r.len()
    &&& r.subrange(i, i + 3) == fence()
    &&& line_ends_at(r, i + 3)
}

/// A line that is exactly `---` starts at `i` in `r`.
pub open spec fn closing_at(r: Seq<char>, i: int) -> bool {
    &&& i == 0 || (0 < i <= r.len() && r[i - 1] == '\n')
    &&& fence_line_at(r, i)
}

/// The first position at or after `i` where a closing line starts, or the
/// length of `r`.
pub open spec fn header_end(r: Seq<char>, i: int) -> int
    decreases r.len() - i,
{
    if i >= r.len() {
        r.len() as int
    } else if closing_at(r, i) {
        i
    } else {
        header_end(r, i + 1)
    }
}

/// The text after the opening line of a header.
pub open spec fn after_opening(c: Seq<char>) -> Seq<char> {
    c.skip(3 + break_len(c, 3))
}

/// The header of a note's text: present when the first line is exactly
/// `---`; it runs up to the next line that is exactly `---`, or to the end.
pub open spec fn front_matter(c: Seq<char>) -> Option<Seq<char>> {
    if fence_line_at(c, 0) {
        let r = after_opening(c);
        Some(r.take(header_end(r, 0)))
    } else {
        None
    }
}

/// The text of a note after its header: everything after the closing line,
/// or the whole text when it has no header.
pub open spec fn note_body(c: Seq<char>) -> Seq<char> {
    if fence_line_at(c, 0) {
        let r = after_opening(c);
        let e = header_end(r, 0);
        if e < r.len() {
            r.skip(e + 3 + break_len(r, e + 3))
        } else {
            Seq::empty()
        }
    } else {
        c
    }
}

fn break_len_exec(r: &Vec<char>, i: usize) -> (n: usize)
    requires
        i <= r@.len(),
    ensures
        n == break_len(r@, i as int),
        line_ends_at(r@, i as int) <==> (i == r@.len() || n > 0),
        i + n <= r@.len(),
{
    let len = r.len();
    if i < len && r[i] == '\n' {
        1
    } else if i < len && len - i >= 2 && r[i] == '\r' && r[i + 1] == '\n' {
        2
    } else {
        0
    }
}

/// Whether `---` stands at `i` in `r` with its line ending right after it.
fn fence_line_at_exec(r: &Vec<char>, i: usize) -> (b: bool)
    requires
        i <= r@.len(),
    ensures
        b == fence_line_at(r@, i as int),
{
    let len = r.len();
    if len - i < 3 {
        return false;
    }
    if !range_equals(r, i, i + 3, &vec!['-', '-', '-']) {
        return false;
    }
    i + 3 == len || break_len_exec(r, i + 3) > 0
}

/// Whether a closing line starts at `i` in `r`.
fn closing_at_exec(r: &Vec<char>, i: usize) -> (b: bool)
    requires
        i <= r@.len(),
    ensures
        b == closing_at(r@, i as int),
{
    if i > 0 && r[i - 1] != '\n' {
        return false;
    }
    fence_line_at_exec(r, i)
}

/// The text after the opening line and where the closing line starts, when
/// the text has a header.
fn split_header(c: &Vec<char>) -> (r: Option<(Vec<char>, usize)>)
    ensures
        match r {
            None => !fence_line_at(c@, 0),
            Some((rc, e)) => fence_line_at(c@, 0) && rc@ == after_opening(c@) && e == header_end(
                rc@,
                0,
            ) && e <= rc@.len() && (e < rc@.len() ==> closing_at(rc@, e as int)),
        },
{
    if !fence_line_at_exec(c, 0) {
        return None;
    }
    let start = 3 + break_len_exec(c, 3);
    let r = substring(c, start, c.len());
    let rc = chars_of(r.as_str());
    assert(rc@ =~= after_opening(c@));
    let mut i: usize = 0;
    while i < rc.len() && !closing_at_exec(&rc, i)
        invariant
            i <= rc@.len(),
            header_end(rc@, i as int) == header_end(rc@, 0),
        decreases rc@.len() - i,
    {
        i = i + 1;
    }
    Some((rc, i))
}

/// The header of a note's text, if it has one.
pub fn front_matter_of(content: &str) -> (r: Option<String>)
    ensures
        opt_view(r) == front_matter(content@),
{
    let c = chars_of(content);
    match split_header(&c) {
        None => None,
        Some((rc, e)) => Some(substring(&rc, 0, e)),
    }
}

/// The text of a note after its header.
pub fn body_of(content: &str) -> (r: String)
    ensures
        r@ == note_body(content@),
{
    let c = chars_of(content);
    match split_header(&c) {
        None => content.to_owned(),
        Some((rc, e)) => {
            if e < rc.len() {
                let start = e + 3 + break_len_exec(&rc, e + 3);
                assert(rc@.skip(start as int) =~= rc@.subrange(start as int, rc@.len() as int));
                substring(&rc, start, rc.len())
            } else {
                String::new()
            }
        },
    }
}

/// A link target as notes are served: web links, absolute paths and
/// fragments stay as they are; any other target is taken from the root.
pub open spec fn served_link(url: Seq<char>) -> Seq<char> {
    if (url.len() >= 4 && url.take(4) == seq!['h', 't', 't', 'p']) || (url.len() >= 1 && (url[0]
        == '/' || url[0] == '#')) {
        url
    } else {
        seq!['/'] + url
    }
}

/// The link target `url` as notes are served.
pub fn transform_url(url: &str) -> (r: String)
    ensures
        r@ == served_link(url@),
{
    let u = chars_of(url);
    let web = u.len() >= 4 && range_equals(&u, 0, 4, &vec!['h', 't', 't', 'p']);
    proof {
        if u@.len() >= 4 {
            assert(u@.subrange(0, 4) =~= u@.take(4));
        }
    }
    if web || (u.len() >= 1 && (u[0] == '/' || u[0] == '#')) {
        return url.to_owned();
    }
    let mut out = String::new();
    out.append("/");
    out.append(url);
    proof {
        reveal_strlit("/");
    }
    assert(out@ =~= seq!['/'] + url@);
    out
}

/// The tags in brackets, separated by commas.
pub open spec fn join_tags(tags: Seq<String>) -> Seq<char>
    decreases tags.len(),
{
    if tags.len() == 0 {
        Seq::empty()
    } else if tags.len() == 1 {
        tags[0]@
    } else {
        join_tags(tags.drop_last()) + seq![','] + tags.last()@
    }
}

/// The tags written as `[a,b,c]`.
pub fn tags_arr(in_tags: &[String]) -> (r: String)
    ensures
        r@ == seq!['['] + join_tags(in_tags@) + seq![']'],
{
    let mut tags = String::new();
    tags.append("[");
    let ghost open = tags@;
    let mut i: usize = 0;
    while i < in_tags.len()
        invariant
            i <= in_tags@.len(),
            tags@ == open + join_tags(in_tags@.take(i as int)),
        decreases in_tags@.len() - i,
    {
        assert(in_tags@.take(i + 1).drop_last() =~= in_tags@.take(i as int));
        if i > 0 {
            tags.append(",");
        }
        tags.append(in_tags[i].as_str());
        proof {
            reveal_strlit(",");
            if i == 0 {
                assert(open + join_tags(in_tags@.take(1)) =~= open + in_tags@[0]@);
            } else {
                assert(join_tags(in_tags@.take(i + 1)) == join_tags(in_tags@.take(i as int)) + seq![
                    ',',
                ] + in_tags@[i as int]@);
            }
        }
        i = i + 1;
    }
    assert(in_tags@.take(i as int) =~= in_tags@);
    tags.append("]");
    proof {
        reveal_strlit("[");
        reveal_strlit("]");
    }
    assert(tags@ =~= seq!['['] + join_tags(in_tags@) + seq![']']);
    tags
}

/// The list item that stands for a note in an index page or a search
/// result: with its record's title, year and authors when it has one, and a
/// link to the note, shown by its path below `base` or by its file name.
pub open spec fn index_entry(f: File, base: Seq<char>, with_parent: bool) -> Seq<char> {
    let rel = rel_path(base, f.path@)->0;
    let shown = if with_parent {
        rel
    } else {
        file_name(f.path@)
    };
    match f.meta {
        Some(m) => "<li><strong>"@ + m.bibtex.title@ + "</strong><br/>"@ + m.bibtex.year@
            + " <em>"@ + m.bibtex.author@ + "</em><br/><a href=\"/"@ + rel + "\">"@ + shown
            + "</a></li>\n"@,
        None => "<li><a href='/"@ + rel + "'>"@ + shown + "</a></li>\n"@,
    }
}

/// The query contains an uppercase character, so matching is
/// case-sensitive.
pub open spec fn has_upper(q: Seq<char>) -> bool {
    exists|i: int| 0 <= i < q.len() && upper_char(q[i])
}

/// The query holds an ASCII uppercase letter.
pub open spec fn has_ascii_upper(q: Seq<char>) -> bool {
    exists|i: int| 0 <= i < q.len() && 'A' <= #[trigger] q[i] <= 'Z'
}

/// The query as it is compared: lowercased unless matching is
/// case-sensitive.
pub open spec fn query_form(q: Seq<char>) -> Seq<char> {
    if has_upper(q) {
        q
    } else {
        lower_of(q)
    }
}

/// A text field as it is compared against the query `q`.
pub open spec fn field_form(q: Seq<char>, t: Seq<char>) -> Seq<char> {
    if has_upper(q) {
        t
    } else {
        lower_of(t)
    }
}

pub open spec fn bonus(hit: bool, points: int) -> int {
    if hit {
        points
    } else {
        0
    }
}

/// How well a note matches the query `q`: 1 when the citation key contains
/// it, 5 when the year equals it, 2 each when the title or the authors
/// contain it, and 3 when the note's path below `prefix` contains it.
pub open spec fn score(f: File, q: Seq<char>, prefix: Seq<char>) -> int {
    let eq = query_form(q);
    let meta_score = match f.meta {
        Some(m) => bonus(seq_contains(field_form(q, m.bibtex.name@), eq), 1) + bonus(
            field_form(q, m.bibtex.year@) == eq,
            5,
        ) + bonus(seq_contains(field_form(q, m.bibtex.title@), eq), 2) + bonus(
            seq_contains(field_form(q, m.bibtex.author@), eq),
            2,
        ),
        None => 0,
    };
    meta_score + bonus(seq_contains(field_form(q, rel_path(prefix, f.path@)->0), eq), 3)
}

/// `t` as it is compared, given whether matching is case-sensitive.
fn compared(t: &str, match_case: bool) -> (r: String)
    ensures
        r@ == (if match_case {
            t@
        } else {
            lower_of(t@)
        }),
        all_digits(t@) ==> r@ == t@,
{
    if match_case {
        t.to_owned()
    } else {
        lowercase(t)
    }
}

impl File {
    /// A note read from disk: its path, modification time, text and the
    /// metadata from its header. Its words are counted.
    pub fn load(path: String, modified: u64, content: String, meta: Option<PaperMeta>) -> (r: File)
        ensures
            r.path == path,
            r.modified == modified,
            r.content == content,
            r.meta == meta,
            r.num_words == token_count(content@, 0),
    {
        let num_words = count_words(content.as_str());
        File { modified, path, content, num_words, meta }
    }

    /// The list item for this note, linked by its path below `base`.
    pub fn write_index_entry(&self, base: &str, with_parent: bool) -> (r: String)
        requires
            rel_path(base@, self.path@) is Some,
        ensures
            r@ == index_entry(*self, base@, with_parent),
    {
        let rel = match relative_path(base, self.path.as_str()) {
            Some(p) => p,
            None => {
                return String::new();
            },
        };
        let shown = if with_parent {
            rel.clone()
        } else {
            file_name_of(self.path.as_str())
        };
        let mut page = String::new();
        match &self.meta {
            Some(meta) => {
                page.append("<li><strong>");
                page.append(meta.bibtex.title.as_str());
                page.append("</strong><br/>");
                page.append(meta.bibtex.year.as_str());
                page.append(" <em>");
                page.append(meta.bibtex.author.as_str());
                page.append("</em><br/><a href=\"/");
                page.append(rel.as_str());
                page.append("\">");
                page.append(shown.as_str());
                page.append("</a></li>\n");
            },
            None => {
                page.append("<li><a href='/");
                page.append(rel.as_str());
                page.append("'>");
                page.append(shown.as_str());
                page.append("</a></li>\n");
            },
        }
        page
    }

    /// This note's score for the query `any`, with its path taken below
    /// `prefix`.
    pub fn matches_any(&self, any: &str, prefix: &str) -> (r: u32)
        requires
            rel_path(prefix@, self.path@) is Some,
        ensures
            r == score(*self, any@, prefix@),
            self.meta is Some && all_digits(any@) && self.meta->0.bibtex.year@ == any@ ==> r >= 5,
            self.meta is Some && has_ascii_upper(any@) && seq_contains(
                self.meta->0.bibtex.author@,
                any@,
            ) ==> r >= 2,
    {
        let q = chars_of(any);
        let mut match_case = false;
        let mut i: usize = 0;
        while i < q.len()
            invariant
                q@ == any@,
                i <= q@.len(),
                match_case == exists|j: int| 0 <= j < i && upper_char(q@[j]),
                all_digits(any@) ==> !match_case,
                (exists|j: int| 0 <= j < i && 'A' <= #[trigger] q@[j] <= 'Z') ==> match_case,
            decreases q@.len() - i,
        {
            if is_uppercase(q[i]) {
                match_case = true;
            }
            i = i + 1;
        }
        let query = compared(any, match_case);
        assert(all_digits(any@) ==> query@ == any@);
        let mut score: u32 = 0;
        match &self.meta {
            Some(meta) => {
                if contains(compared(meta.bibtex.name.as_str(), match_case).as_str(), query.as_str()) {
                    score = score + 1;
                }
                if compared(meta.bibtex.year.as_str(), match_case) == query {
                    score = score + 5;
                }
                if contains(compared(meta.bibtex.title.as_str(), match_case).as_str(), query.as_str()) {
                    score = score + 2;
                }
                if contains(compared(meta.bibtex.author.as_str(), match_case).as_str(), query.as_str()) {
                    score = score + 2;
                }
            },
            None => {},
        }
        let rel = match relative_path(prefix, self.path.as_str()) {
            Some(p) => p,
            None => {
                return score;
            },
        };
        if contains(compared(rel.as_str(), match_case).as_str(), query.as_str()) {
            score = score + 3;
        }
        score
    }
}

/// A note whose record's year equals the query, both as they are compared,
/// scores at least 5 for it.
pub proof fn law_year_match_scores(f: File, q: Seq<char>, prefix: Seq<char>)
    requires
        f.meta is Some,
        field_form(q, f.meta->0.bibtex.year@) == query_form(q),
    ensures
        score(f, q, prefix) >= 5,
{
}

/// A query with an uppercase letter is matched as written: a note whose
/// authors contain it earns the authors' bonus, whatever the case of the
/// rest of the note.
pub proof fn law_case_sensitive_author_match(f: File, q: Seq<char>, prefix: Seq<char>)
    requires
        f.meta is Some,
        has_upper(q),
        seq_contains(f.meta->0.bibtex.author@, q),
    ensures
        score(f, q, prefix) >= 2,
{
}

/// The group of a note depends on the root and its path alone: two notes at
/// the same path fall in the same group, whatever they hold.
pub proof fn law_grouping_by_path(root: Seq<char>, a: File, b: File)
    requires
        a.path@ == b.path@,
    ensures
        crate::paths::grouping(root, a.path@) == crate::paths::grouping(root, b.path@),
{
}

} // verus!
