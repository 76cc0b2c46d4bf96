//! Parsing of a single BibTeX-style citation record.

use vstd::prelude::*;

use crate::text::{chars_of, find_char, opt_view, range_equals, substring};

verus! {

/// The kinds of citation record that are recognised.
#[derive(PartialEq, Eq, Structural, Debug, Clone, Copy)]
pub enum EntryKind {
    Article,
    Book,
    Booklet,
    Conference,
    Inbook,
    Incollection,
    Inproceedings,
    Manual,
    PhdThesis,
    Misc,
    Proceedings,
    Techreport,
    Unpublished,
}

/// Why a citation record could not be parsed.
#[derive(PartialEq, Eq, Structural, Debug, Clone, Copy)]
pub enum ParseError {
    /// The first non-whitespace character is not `@`.
    BadStart,
    /// No `{` follows the record kind.
    UnterminatedKind,
    /// The record kind is not one of the known kinds.
    InvalidKind,
    /// No `,` ends the record name.
    UnterminatedName,
    /// No `=` follows a field key.
    UnterminatedKey,
    /// A `}` closes more braces than were opened in a value.
    UnmatchedBrace,
    /// The input ends inside a field value.
    UnterminatedValue,
    /// The input ends before the record's closing `}`.
    PrematureEnd,
    /// The record has no `title` field.
    MissingTitle,
    /// The record has no `author` field.
    MissingAuthor,
    /// The record has no `year` field.
    MissingYear,
}

/// The spelling of each record kind.
pub open spec fn kind_name(k: EntryKind) -> Seq<char> {
    match k {
        EntryKind::Article => seq!['a', 'r', 't', 'i', 'c', 'l', 'e'],
        EntryKind::Book => seq!['b', 'o', 'o', 'k'],
        EntryKind::Booklet => seq!['b', 'o', 'o', 'k', 'l', 'e', 't'],
        EntryKind::Conference => seq!['c', 'o', 'n', 'f', 'e', 'r', 'e', 'n', 'c', 'e'],
        EntryKind::Inbook => seq!['i', 'n', 'b', 'o', 'o', 'k'],
        EntryKind::Incollection => seq![
            'i', 'n', 'c', 'o', 'l', 'l', 'e', 'c', 't', 'i', 'o', 'n',
        ],
        EntryKind::Inproceedings => seq![
            'i', 'n', 'p', 'r', 'o', 'c', 'e', 'e', 'd', 'i', 'n', 'g', 's',
        ],
        EntryKind::Manual => seq!['m', 'a', 'n', 'u', 'a', 'l'],
        EntryKind::PhdThesis => seq!['p', 'h', 'd', 't', 'h', 'e', 's', 'i', 's'],
        EntryKind::Misc => seq!['m', 'i', 's', 'c'],
        EntryKind::Proceedings => seq![
            'p', 'r', 'o', 'c', 'e', 'e', 'd', 'i', 'n', 'g', 's',
        ],
        EntryKind::Techreport => seq!['t', 'e', 'c', 'h', 'r', 'e', 'p', 'o', 'r', 't'],
        EntryKind::Unpublished => seq![
            'u', 'n', 'p', 'u', 'b', 'l', 'i', 's', 'h', 'e', 'd',
        ],
    }
}

impl EntryKind {
    /// The spelling of this kind.
    pub fn name_chars(&self) -> (r: Vec<char>)
        ensures
            r@ == kind_name(*self),
    {
        match self {
            EntryKind::Article => vec!['a', 'r', 't', 'i', 'c', 'l', 'e'],
            EntryKind::Book => vec!['b', 'o', 'o', 'k'],
            EntryKind::Booklet => vec!['b', 'o', 'o', 'k', 'l', 'e', 't'],
            EntryKind::Conference => vec!['c', 'o', 'n', 'f', 'e', 'r', 'e', 'n', 'c', 'e'],
            EntryKind::Inbook => vec!['i', 'n', 'b', 'o', 'o', 'k'],
            EntryKind::Incollection => vec![
                'i', 'n', 'c', 'o', 'l', 'l', 'e', 'c', 't', 'i', 'o', 'n',
            ],
            EntryKind::Inproceedings => vec![
                'i', 'n', 'p', 'r', 'o', 'c', 'e', 'e', 'd', 'i', 'n', 'g', 's',
            ],
            EntryKind::Manual => vec!['m', 'a', 'n', 'u', 'a', 'l'],
            EntryKind::PhdThesis => vec!['p', 'h', 'd', 't', 'h', 'e', 's', 'i', 's'],
            EntryKind::Misc => vec!['m', 'i', 's', 'c'],
            EntryKind::Proceedings => vec![
                'p', 'r', 'o', 'c', 'e', 'e', 'd', 'i', 'n', 'g', 's',
            ],
            EntryKind::Techreport => vec!['t', 'e', 'c', 'h', 'r', 'e', 'p', 'o', 'r', 't'],
            EntryKind::Unpublished => vec![
                'u', 'n', 'p', 'u', 'b', 'l', 'i', 's', 'h', 'e', 'd',
            ],
        }
    }
}


/// `data` spells `text`, one ASCII byte for each character.
pub open spec fn spells(data: Seq<u8>, text: Seq<char>) -> bool {
    &&& data.len() == text.len()
    &&& forall|i: int| 0 <= i < data.len() ==> data[i] as u32 == text[i] as u32
}

/// The kind whose name is `text`, if there is one.
pub open spec fn kind_of_text(text: Seq<char>) -> Option<EntryKind> {
    if exists|k: EntryKind| kind_name(k) == text {
        Some(choose|k: EntryKind| kind_name(k) == text)
    } else {
        None
    }
}

/// No two kinds share a name.
pub proof fn lemma_kind_name_injective(k1: EntryKind, k2: EntryKind)
    requires
        kind_name(k1) == kind_name(k2),
    ensures
        k1 == k2,
{
    lemma_kind_name_shape(k1);
    lemma_kind_name_shape(k2);
}

/// The length of a kind's name together with its first letter.
spec fn kind_shape(k: EntryKind) -> (nat, char) {
    match k {
        EntryKind::Article => (7, 'a'),
        EntryKind::Book => (4, 'b'),
        EntryKind::Booklet => (7, 'b'),
        EntryKind::Conference => (10, 'c'),
        EntryKind::Inbook => (6, 'i'),
        EntryKind::Incollection => (12, 'i'),
        EntryKind::Inproceedings => (13, 'i'),
        EntryKind::Manual => (6, 'm'),
        EntryKind::PhdThesis => (9, 'p'),
        EntryKind::Misc => (4, 'm'),
        EntryKind::Proceedings => (11, 'p'),
        EntryKind::Techreport => (10, 't'),
        EntryKind::Unpublished => (11, 'u'),
    }
}

proof fn lemma_kind_name_shape(k: EntryKind)
    ensures
        kind_shape(k) == (kind_name(k).len(), kind_name(k)[0]),
{
    match k {
        EntryKind::Article => {},
        EntryKind::Book => {},
        EntryKind::Booklet => {},
        EntryKind::Conference => {},
        EntryKind::Inbook => {},
        EntryKind::Incollection => {},
        EntryKind::Inproceedings => {},
        EntryKind::Manual => {},
        EntryKind::PhdThesis => {},
        EntryKind::Misc => {},
        EntryKind::Proceedings => {},
        EntryKind::Techreport => {},
        EntryKind::Unpublished => {},
    }
}

/// Every kind name is spelled in ASCII.
pub proof fn lemma_kind_name_ascii(k: EntryKind)
    ensures
        forall|i: int| 0 <= i < kind_name(k).len() ==> (kind_name(k)[i] as u32) < 128,
{
}

/// The kind named `text` is `k`.
pub proof fn lemma_kind_of_text(text: Seq<char>, k: EntryKind)
    requires
        kind_name(k) == text,
    ensures
        kind_of_text(text) == Some(k),
{
    let c = choose|c: EntryKind| kind_name(c) == text;
    lemma_kind_name_injective(c, k);
}

fn spells_exec(data: &[u8], text: &Vec<char>) -> (r: bool)
    ensures
        r == spells(data@, text@),
{
    if data.len() != text.len() {
        return false;
    }
    let mut i: usize = 0;
    while i < data.len()
        invariant
            data@.len() == text@.len(),
            i <= data.len(),
            forall|j: int| 0 <= j < i ==> data@[j] as u32 == text@[j] as u32,
        decreases data.len() - i,
    {
        if data[i] as u32 != text[i] as u32 {
            return false;
        }
        i = i + 1;
    }
    true
}

impl EntryKind {
    /// The kind spelled by the ASCII bytes `data`.
    pub fn try_from_ascii_u8(data: &[u8]) -> (r: Result<Self, ParseError>)
        ensures
            match r {
                Ok(k) => spells(data@, kind_name(k)),
                Err(e) => e == ParseError::InvalidKind && forall|k: EntryKind|
                    !spells(data@, #[trigger] kind_name(k)),
            },
    {
        let kinds = [
            EntryKind::Article,
            EntryKind::Book,
            EntryKind::Booklet,
            EntryKind::Conference,
            EntryKind::Inbook,
            EntryKind::Incollection,
            EntryKind::Inproceedings,
            EntryKind::Manual,
            EntryKind::PhdThesis,
            EntryKind::Misc,
            EntryKind::Proceedings,
            EntryKind::Techreport,
            EntryKind::Unpublished,
        ];
        let mut i: usize = 0;
        while i < 13
            invariant
                kinds@.len() == 13,
                forall|j: int| 0 <= j < i ==> !spells(data@, #[trigger] kind_name(kinds@[j])),
            decreases 13 - i,
        {
            let k = kinds[i];
            if spells_exec(data, &k.name_chars()) {
                return Ok(k);
            }
            i = i + 1;
        }
        assert forall|k: EntryKind| !spells(data@, #[trigger] kind_name(k)) by {
            let j: int = match k {
                EntryKind::Article => 0,
                EntryKind::Book => 1,
                EntryKind::Booklet => 2,
                EntryKind::Conference => 3,
                EntryKind::Inbook => 4,
                EntryKind::Incollection => 5,
                EntryKind::Inproceedings => 6,
                EntryKind::Manual => 7,
                EntryKind::PhdThesis => 8,
                EntryKind::Misc => 9,
                EntryKind::Proceedings => 10,
                EntryKind::Techreport => 11,
                EntryKind::Unpublished => 12,
            };
            assert(kinds@[j] == k);
        }
        Err(ParseError::InvalidKind)
    }
}


/// ASCII whitespace: space, tab, line feed, form feed and carriage return.
pub open spec fn is_ws(c: char) -> bool {
    c == ' ' || c == '\t' || c == '\n' || c == '\x0C' || c == '\r'
}

/// The first position at or after `pos` that holds no whitespace.
pub open spec fn skip_ws(s: Seq<char>, pos: int) -> int
    decreases s.len() - pos,
{
    if 0 <= pos < s.len() && is_ws(s[pos]) {
        skip_ws(s, pos + 1)
    } else {
        pos
    }
}

/// The end of a field key starting at `pos`: the first `=` or whitespace.
pub open spec fn key_end(s: Seq<char>, pos: int) -> int
    decreases s.len() - pos,
{
    if pos >= s.len() {
        s.len() as int
    } else if 0 <= pos && (s[pos] == '=' || is_ws(s[pos])) {
        pos
    } else {
        key_end(s, pos + 1)
    }
}

/// `@kind{` at `pos`: the kind, and the position after the `{`.
pub open spec fn parse_kind(s: Seq<char>, pos: int) -> Result<(EntryKind, int), ParseError> {
    if !(0 <= pos < s.len()) || s[pos] != '@' {
        Err(ParseError::BadStart)
    } else {
        let j = find_char(s, pos + 1, '{');
        if j >= s.len() {
            Err(ParseError::UnterminatedKind)
        } else {
            match kind_of_text(s.subrange(pos + 1, j)) {
                Some(k) => Ok((k, j + 1)),
                None => Err(ParseError::InvalidKind),
            }
        }
    }
}

/// The record name at `pos`, up to the first `,`, and the position after that `,`.
pub open spec fn parse_name(s: Seq<char>, pos: int) -> Result<(Seq<char>, int), ParseError> {
    let j = find_char(s, pos, ',');
    if j >= s.len() {
        Err(ParseError::UnterminatedName)
    } else {
        Ok((s.subrange(pos, j), j + 1))
    }
}

/// A field key at `pos`, and the position after the `=` that follows it.
pub open spec fn parse_key(s: Seq<char>, pos: int) -> Result<(Seq<char>, int), ParseError> {
    let e = key_end(s, pos);
    let p = skip_ws(s, e);
    if 0 <= p < s.len() && s[p] == '=' {
        Ok((s.subrange(pos, e), p + 1))
    } else {
        Err(ParseError::UnterminatedKey)
    }
}

/// How a character changes the brace depth.
pub open spec fn brace_delta(c: char) -> int {
    if c == '{' {
        1
    } else if c == '}' {
        -1
    } else {
        0
    }
}

/// Scanning a value that began at `start`, now at `i` with brace depth `d`:
/// the value and the position where the scan stops.
pub open spec fn scan_value(s: Seq<char>, start: int, i: int, d: int) -> Result<
    (Seq<char>, int),
    ParseError,
>
    decreases s.len() - i,
{
    if !(0 <= i < s.len()) {
        Err(ParseError::UnterminatedValue)
    } else {
        let c = s[i];
        let nd = d + brace_delta(c);
        if nd < 0 {
            Err(ParseError::UnmatchedBrace)
        } else if nd == 0 && c == ',' {
            Ok((s.subrange(start, i), i + 1))
        } else if nd == 0 && c == '}' {
            let p = skip_ws(s, i + 1);
            if 0 <= p < s.len() && s[p] == ',' {
                Ok((s.subrange(start, i), p + 1))
            } else if 0 <= p < s.len() && s[p] == '}' {
                Ok((s.subrange(start, i), p))
            } else {
                scan_value(s, start, i + 1, nd)
            }
        } else {
            scan_value(s, start, i + 1, nd)
        }
    }
}

/// A field value at `pos`, braced or not, and the position after it: past
/// the `,` that ends it, or at the `}` that ends the record.
pub open spec fn parse_value(s: Seq<char>, pos: int) -> Result<(Seq<char>, int), ParseError> {
    if 0 <= pos < s.len() && s[pos] == '{' {
        scan_value(s, pos + 1, pos + 1, 1)
    } else {
        scan_value(s, pos, pos, 0)
    }
}

pub open spec fn author_key() -> Seq<char> {
    seq!['a', 'u', 't', 'h', 'o', 'r']
}

pub open spec fn year_key() -> Seq<char> {
    seq!['y', 'e', 'a', 'r']
}

pub open spec fn title_key() -> Seq<char> {
    seq!['t', 'i', 't', 'l', 'e']
}

/// The author, year and title after one more field `key = value`.
pub open spec fn record_field(
    acc: (Option<Seq<char>>, Option<Seq<char>>, Option<Seq<char>>),
    key: Seq<char>,
    value: Seq<char>,
) -> (Option<Seq<char>>, Option<Seq<char>>, Option<Seq<char>>) {
    if key == author_key() {
        (Some(value), acc.1, acc.2)
    } else if key == year_key() {
        (acc.0, Some(value), acc.2)
    } else if key == title_key() {
        (acc.0, acc.1, Some(value))
    } else {
        acc
    }
}

pub proof fn lemma_skip_ws_ge(s: Seq<char>, pos: int)
    ensures
        skip_ws(s, pos) >= pos,
        pos <= s.len() ==> skip_ws(s, pos) <= s.len(),
    decreases s.len() - pos,
{
    if 0 <= pos < s.len() && is_ws(s[pos]) {
        lemma_skip_ws_ge(s, pos + 1);
    }
}

pub proof fn lemma_key_end_ge(s: Seq<char>, pos: int)
    ensures
        pos <= s.len() ==> pos <= key_end(s, pos) <= s.len(),
    decreases s.len() - pos,
{
    if pos < s.len() && !(0 <= pos && (s[pos] == '=' || is_ws(s[pos]))) {
        lemma_key_end_ge(s, pos + 1);
    }
}

pub proof fn lemma_scan_value_progress(s: Seq<char>, start: int, i: int, d: int)
    ensures
        scan_value(s, start, i, d) matches Ok((v, p)) ==> p > i,
    decreases s.len() - i,
{
    if 0 <= i < s.len() {
        lemma_skip_ws_ge(s, i + 1);
        lemma_scan_value_progress(s, start, i + 1, d + brace_delta(s[i]));
    }
}

pub proof fn lemma_field_progress(s: Seq<char>, pos: int)
    ensures
        parse_key(s, pos) matches Ok((k, p)) ==> (p > pos && (parse_value(s, skip_ws(s, p))
            matches Ok((v, q)) ==> q > pos)),
{
    lemma_key_end_ge(s, pos);
    lemma_skip_ws_ge(s, key_end(s, pos));
    if let Ok((k, p)) = parse_key(s, pos) {
        let p3 = skip_ws(s, p);
        lemma_skip_ws_ge(s, p);
        if 0 <= p3 < s.len() && s[p3] == '{' {
            lemma_scan_value_progress(s, p3 + 1, p3 + 1, 1);
        } else {
            lemma_scan_value_progress(s, p3, p3, 0);
        }
    }
}

/// The fields from `pos` on, given what earlier fields set: the author, year
/// and title once the record's closing `}` is reached.
pub open spec fn parse_fields(
    s: Seq<char>,
    pos: int,
    acc: (Option<Seq<char>>, Option<Seq<char>>, Option<Seq<char>>),
) -> Result<(Option<Seq<char>>, Option<Seq<char>>, Option<Seq<char>>), ParseError>
    decreases s.len() - pos,
{
    let p1 = skip_ws(s, pos);
    match parse_key(s, p1) {
        Err(e) => Err(e),
        Ok((key, p2)) => {
            let p3 = skip_ws(s, p2);
            match parse_value(s, p3) {
                Err(e) => Err(e),
                Ok((value, p4)) => {
                    let next = record_field(acc, key, value);
                    let p5 = skip_ws(s, p4);
                    if !(0 <= p5 < s.len()) {
                        Err(ParseError::PrematureEnd)
                    } else if s[p5] == '}' {
                        Ok(next)
                    } else {
                        proof {
                            lemma_skip_ws_ge(s, pos);
                            lemma_field_progress(s, p1);
                            lemma_skip_ws_ge(s, p4);
                        }
                        parse_fields(s, p5, next)
                    }
                }
            }
        }
    }
}

/// What a parsed record holds, in mathematical terms.
pub struct EntryView {
    pub kind: EntryKind,
    pub name: Seq<char>,
    pub author: Seq<char>,
    pub year: Seq<char>,
    pub title: Seq<char>,
}

/// The record with the given kind and name, once its fields are read.
pub open spec fn finish_entry(
    kind: EntryKind,
    name: Seq<char>,
    fields: Result<(Option<Seq<char>>, Option<Seq<char>>, Option<Seq<char>>), ParseError>,
) -> Result<EntryView, ParseError> {
    match fields {
        Err(e) => Err(e),
        Ok((author, year, title)) => {
            if title is None {
                Err(ParseError::MissingTitle)
            } else if author is None {
                Err(ParseError::MissingAuthor)
            } else if year is None {
                Err(ParseError::MissingYear)
            } else {
                Ok(EntryView { kind, name, author: author->0, year: year->0, title: title->0 })
            }
        },
    }
}

/// The record that the text `s` holds, or why it holds none.
pub open spec fn parse_entry(s: Seq<char>) -> Result<EntryView, ParseError> {
    match parse_kind(s, skip_ws(s, 0)) {
        Err(e) => Err(e),
        Ok((kind, p1)) => match parse_name(s, p1) {
            Err(e) => Err(e),
            Ok((name, p2)) => finish_entry(kind, name, parse_fields(s, p2, (None, None, None))),
        },
    }
}

/// Whether `c` is ASCII whitespace.
fn is_ws_exec(c: char) -> (r: bool)
    ensures
        r == is_ws(c),
{
    c == ' ' || c == '\t' || c == '\n' || c == '\x0C' || c == '\r'
}

/// A cursor over the characters of one citation record.
struct BibtexParser {
    data: Vec<char>,
    cursor: usize,
}

/// Which of the fields that a record keeps a key names.
enum FieldName {
    Author,
    Year,
    Title,
    Other,
}

impl BibtexParser {
    spec fn wf(&self) -> bool {
        self.cursor <= self.data@.len()
    }

    fn new(data: Vec<char>) -> (r: Self)
        ensures
            r.wf(),
            r.data@ == data@,
            r.cursor == 0,
    {
        Self { data, cursor: 0 }
    }

    fn advance(&mut self)
        requires
            old(self).cursor < old(self).data.len(),
        ensures
            final(self).data == old(self).data,
            final(self).cursor == old(self).cursor + 1,
    {
        self.cursor = self.cursor + 1;
    }

    fn skip_whitespace(&mut self)
        requires
            old(self).wf(),
        ensures
            final(self).wf(),
            final(self).data == old(self).data,
            final(self).cursor == skip_ws(old(self).data@, old(self).cursor as int),
    {
        while self.cursor < self.data.len() && is_ws_exec(self.data[self.cursor])
            invariant
                self.wf(),
                self.data == old(self).data,
                skip_ws(self.data@, self.cursor as int) == skip_ws(
                    old(self).data@,
                    old(self).cursor as int,
                ),
            decreases self.data@.len() - self.cursor,
        {
            self.cursor = self.cursor + 1;
        }
    }

    fn peek(&self) -> (r: Option<char>)
        requires
            self.wf(),
        ensures
            r == (if self.cursor < self.data@.len() {
                Some(self.data@[self.cursor as int])
            } else {
                None
            }),
    {
        if self.cursor < self.data.len() {
            Some(self.data[self.cursor])
        } else {
            None
        }
    }

    fn consume(&mut self) -> (r: Option<char>)
        requires
            old(self).wf(),
        ensures
            final(self).wf(),
            final(self).data == old(self).data,
            r == (if old(self).cursor < old(self).data@.len() {
                Some(old(self).data@[old(self).cursor as int])
            } else {
                None
            }),
            final(self).cursor == (if r is Some {
                old(self).cursor + 1
            } else {
                old(self).cursor as int
            }),
    {
        let c = self.peek();
        if c.is_some() {
            self.advance();
        }
        c
    }

    fn parse_kind(&mut self) -> (r: Result<EntryKind, ParseError>)
        requires
            old(self).wf(),
        ensures
            final(self).wf(),
            final(self).data == old(self).data,
            match parse_kind(old(self).data@, old(self).cursor as int) {
                Ok((k, p)) => r == Ok::<EntryKind, ParseError>(k) && final(self).cursor == p,
                Err(e) => r == Err::<EntryKind, ParseError>(e),
            },
    {
        let ghost s = self.data@;
        match self.consume() {
            Some(c) => {
                if c != '@' {
                    return Err(ParseError::BadStart);
                }
            },
            None => {
                return Err(ParseError::BadStart);
            },
        }
        let type_start = self.cursor;
        while self.cursor < self.data.len() && self.data[self.cursor] != '{'
            invariant
                self.wf(),
                self.data == old(self).data,
                self.data@ == s,
                type_start <= self.cursor,
                find_char(s, self.cursor as int, '{') == find_char(s, type_start as int, '{'),
            decreases self.data@.len() - self.cursor,
        {
            self.cursor = self.cursor + 1;
        }
        if self.cursor == self.data.len() {
            return Err(ParseError::UnterminatedKind);
        }
        let ghost text = s.subrange(type_start as int, self.cursor as int);
        let mut bytes: Vec<u8> = Vec::new();
        let mut ascii = true;
        let mut i: usize = type_start;
        while i < self.cursor
            invariant
                self.wf(),
                self.data == old(self).data,
                self.data@ == s,
                text == s.subrange(type_start as int, self.cursor as int),
                type_start <= i <= self.cursor,
                bytes@.len() == i - type_start,
                ascii ==> forall|j: int| 0 <= j < bytes@.len() ==> bytes@[j] as u32 == text[j] as u32,
                !ascii ==> exists|j: int| 0 <= j < text.len() && (text[j] as u32) >= 128,
            decreases self.cursor - i,
        {
            let c = self.data[i];
            let code = c as u32;
            assert(text[i - type_start] == c);
            if code < 128 {
                assert((code as u8) as u32 == code);
                bytes.push(code as u8);
            } else {
                ascii = false;
                bytes.push(0);
                assert((text[i - type_start] as u32) >= 128);
            }
            i = i + 1;
        }
        let kind = if ascii {
            EntryKind::try_from_ascii_u8(bytes.as_slice())
        } else {
            Err(ParseError::InvalidKind)
        };
        match kind {
            Ok(k) => {
                proof {
                    assert forall|j: int| 0 <= j < text.len() implies kind_name(k)[j] == text[j] by {
                        let u = text[j] as u32;
                        assert(bytes@[j] as u32 == u);
                        assert(kind_name(k)[j] as u32 == u);
                        vstd::utf8::char_u32_cast(text[j], u);
                        vstd::utf8::char_u32_cast(kind_name(k)[j], u);
                    }
                    assert(kind_name(k) =~= text);
                    lemma_kind_of_text(text, k);
                }
                self.cursor = self.cursor + 1;
                Ok(k)
            },
            Err(e) => {
                proof {
                    assert forall|k: EntryKind| kind_name(k) != text by {
                        lemma_kind_name_ascii(k);
                        if ascii {
                            if kind_name(k) == text {
                                assert(spells(bytes@, kind_name(k)));
                            }
                        }
                    }
                }
                Err(e)
            },
        }
    }

    fn parse_name(&mut self) -> (r: Result<String, ParseError>)
        requires
            old(self).wf(),
        ensures
            final(self).wf(),
            final(self).data == old(self).data,
            match parse_name(old(self).data@, old(self).cursor as int) {
                Ok((n, p)) => r is Ok && r->Ok_0@ == n && final(self).cursor == p,
                Err(e) => r == Err::<String, ParseError>(e),
            },
    {
        let ghost s = self.data@;
        let start = self.cursor;
        while self.cursor < self.data.len() && self.data[self.cursor] != ','
            invariant
                self.wf(),
                self.data == old(self).data,
                self.data@ == s,
                start <= self.cursor,
                find_char(s, self.cursor as int, ',') == find_char(s, start as int, ','),
            decreases self.data@.len() - self.cursor,
        {
            self.cursor = self.cursor + 1;
        }
        if self.cursor == self.data.len() {
            return Err(ParseError::UnterminatedName);
        }
        let name = substring(&self.data, start, self.cursor);
        self.cursor = self.cursor + 1;
        Ok(name)
    }

    /// The key's position in the data.
    fn parse_key(&mut self) -> (r: Result<(usize, usize), ParseError>)
        requires
            old(self).wf(),
        ensures
            final(self).wf(),
            final(self).data == old(self).data,
            match parse_key(old(self).data@, old(self).cursor as int) {
                Ok((k, p)) => r is Ok && r->Ok_0.0 <= r->Ok_0.1 <= old(self).data@.len()
                    && old(self).data@.subrange(r->Ok_0.0 as int, r->Ok_0.1 as int) == k
                    && final(self).cursor == p,
                Err(e) => r == Err::<(usize, usize), ParseError>(e),
            },
    {
        let ghost s = self.data@;
        let key_start = self.cursor;
        while self.cursor < self.data.len() && self.data[self.cursor] != '=' && !is_ws_exec(
            self.data[self.cursor],
        )
            invariant
                self.wf(),
                self.data == old(self).data,
                self.data@ == s,
                key_start <= self.cursor,
                key_end(s, self.cursor as int) == key_end(s, key_start as int),
            decreases self.data@.len() - self.cursor,
        {
            self.cursor = self.cursor + 1;
        }
        let end = self.cursor;
        self.skip_whitespace();
        match self.consume() {
            Some(c) => {
                if c == '=' {
                    Ok((key_start, end))
                } else {
                    Err(ParseError::UnterminatedKey)
                }
            },
            None => Err(ParseError::UnterminatedKey),
        }
    }

    fn parse_value(&mut self) -> (r: Result<String, ParseError>)
        requires
            old(self).wf(),
        ensures
            final(self).wf(),
            final(self).data == old(self).data,
            match parse_value(old(self).data@, old(self).cursor as int) {
                Ok((v, p)) => r is Ok && r->Ok_0@ == v && final(self).cursor == p,
                Err(e) => r == Err::<String, ParseError>(e),
            },
    {
        let ghost s = self.data@;
        let mut depth: usize = 0;
        if self.cursor < self.data.len() && self.data[self.cursor] == '{' {
            self.advance();
            depth = 1;
        }
        let start = self.cursor;
        loop
            invariant
                self.wf(),
                self.data == old(self).data,
                self.data@ == s,
                start <= self.cursor,
                depth <= self.cursor,
                parse_value(s, old(self).cursor as int) == scan_value(
                    s,
                    start as int,
                    self.cursor as int,
                    depth as int,
                ),
            decreases self.data@.len() - self.cursor,
        {
            if self.cursor >= self.data.len() {
                return Err(ParseError::UnterminatedValue);
            }
            let c = self.data[self.cursor];
            self.cursor = self.cursor + 1;
            if c == '{' {
                depth = depth + 1;
            } else if c == '}' {
                if depth == 0 {
                    return Err(ParseError::UnmatchedBrace);
                }
                depth = depth - 1;
            }
            if depth == 0 {
                if c == ',' {
                    return Ok(substring(&self.data, start, self.cursor - 1));
                }
                if c == '}' {
                    let reset = self.cursor;
                    let end = self.cursor - 1;
                    self.skip_whitespace();
                    match self.peek() {
                        Some(n) => {
                            if n == ',' {
                                self.advance();
                                return Ok(substring(&self.data, start, end));
                            } else if n == '}' {
                                return Ok(substring(&self.data, start, end));
                            }
                        },
                        None => {},
                    }
                    self.cursor = reset;
                }
            }
        }
    }

    /// Which kept field the key at `data[start..end]` names.
    fn field_name(&self, start: usize, end: usize) -> (r: FieldName)
        requires
            start <= end <= self.data@.len(),
        ensures
            ({
                let k = self.data@.subrange(start as int, end as int);
                match r {
                    FieldName::Author => k == author_key(),
                    FieldName::Year => k != author_key() && k == year_key(),
                    FieldName::Title => k != author_key() && k != year_key() && k == title_key(),
                    FieldName::Other => k != author_key() && k != year_key() && k != title_key(),
                }
            }),
    {
        if range_equals(&self.data, start, end, &vec!['a', 'u', 't', 'h', 'o', 'r']) {
            FieldName::Author
        } else if range_equals(&self.data, start, end, &vec!['y', 'e', 'a', 'r']) {
            FieldName::Year
        } else if range_equals(&self.data, start, end, &vec!['t', 'i', 't', 'l', 'e']) {
            FieldName::Title
        } else {
            FieldName::Other
        }
    }
}


/// A parsed citation record: its kind, its citation key (`name`) and the
/// three fields that are kept.
#[derive(Debug)]
pub struct BibtexEntry {
    pub kind: EntryKind,
    pub name: String,
    pub author: String,
    pub year: String,
    pub title: String,
}

impl View for BibtexEntry {
    type V = EntryView;

    open spec fn view(&self) -> EntryView {
        EntryView {
            kind: self.kind,
            name: self.name@,
            author: self.author@,
            year: self.year@,
            title: self.title@,
        }
    }
}

impl BibtexEntry {
    /// Parses one citation record. On success the record holds the values of
    /// the last `author`, `year` and `title` fields; any other field is read
    /// and dropped.
    pub fn try_from_str(content: &str) -> (r: Result<Self, ParseError>)
        ensures
            match parse_entry(content@) {
                Ok(e) => r is Ok && r->Ok_0@ == e,
                Err(e) => r == Err::<BibtexEntry, ParseError>(e),
            },
    {
        let ghost s = content@;
        let mut parser = BibtexParser::new(chars_of(content));
        parser.skip_whitespace();
        let kind = match parser.parse_kind() {
            Ok(k) => k,
            Err(e) => {
                return Err(e);
            },
        };
        let name = match parser.parse_name() {
            Ok(n) => n,
            Err(e) => {
                return Err(e);
            },
        };
        let ghost fields_start = parser.cursor as int;
        let mut author: Option<String> = None;
        let mut year: Option<String> = None;
        let mut title: Option<String> = None;
        loop
            invariant_except_break
                parse_entry(s) == finish_entry(
                    kind,
                    name@,
                    parse_fields(
                        s,
                        parser.cursor as int,
                        (opt_view(author), opt_view(year), opt_view(title)),
                    ),
                ),
            invariant
                parser.wf(),
                parser.data@ == s,
                s == content@,
            ensures
                parse_entry(s) == finish_entry(
                    kind,
                    name@,
                    Ok((opt_view(author), opt_view(year), opt_view(title))),
                ),
            decreases s.len() - parser.cursor,
        {
            let ghost pos = parser.cursor as int;
            proof {
                lemma_skip_ws_ge(s, pos);
                lemma_field_progress(s, skip_ws(s, pos));
            }
            parser.skip_whitespace();
            let (key_start, key_stop) = match parser.parse_key() {
                Ok(k) => k,
                Err(e) => {
                    return Err(e);
                },
            };
            parser.skip_whitespace();
            let field = parser.field_name(key_start, key_stop);
            let value = match parser.parse_value() {
                Ok(v) => v,
                Err(e) => {
                    return Err(e);
                },
            };
            match field {
                FieldName::Author => {
                    author = Some(value);
                },
                FieldName::Year => {
                    year = Some(value);
                },
                FieldName::Title => {
                    title = Some(value);
                },
                FieldName::Other => {},
            }
            proof {
                lemma_skip_ws_ge(s, parser.cursor as int);
            }
            parser.skip_whitespace();
            match parser.peek() {
                Some(c) => {
                    if c == '}' {
                        break ;
                    }
                },
                None => {
                    return Err(ParseError::PrematureEnd);
                },
            }
        }
        let title = match title {
            Some(t) => t,
            None => {
                return Err(ParseError::MissingTitle);
            },
        };
        let author = match author {
            Some(a) => a,
            None => {
                return Err(ParseError::MissingAuthor);
            },
        };
        let year = match year {
            Some(y) => y,
            None => {
                return Err(ParseError::MissingYear);
            },
        };
        Ok(BibtexEntry { kind, name, author, year, title })
    }
}


} // verus!
