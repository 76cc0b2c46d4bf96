//! Splitting a text into words: runs of alphanumeric characters.

use vstd::prelude::*;

use crate::text::{alnum_char, chars_of, is_alphanumeric, substring};

verus! {

/// The first position at or after `pos` whose character is alphanumeric
/// exactly when `alnum` holds, or the length of `s`.
pub open spec fn find_class(s: Seq<char>, pos: int, alnum: bool) -> int
    decreases s.len() - pos,
{
    if pos >= s.len() {
        s.len() as int
    } else if 0 <= pos && alnum_char(s[pos]) == alnum {
        pos
    } else {
        find_class(s, pos + 1, alnum)
    }
}

pub proof fn lemma_find_class_bounds(s: Seq<char>, pos: int, alnum: bool)
    ensures
        0 <= pos <= s.len() ==> pos <= find_class(s, pos, alnum) <= s.len(),
    decreases s.len() - pos,
{
    if 0 <= pos < s.len() && alnum_char(s[pos]) != alnum {
        lemma_find_class_bounds(s, pos + 1, alnum);
    }
}

/// One step of the lexer at `pos`: the next token, if any, and where the next
/// step starts. A word is a run of alphanumeric characters; a word that runs
/// to the end of the text comes out together with whatever precedes it since
/// `pos`.
pub open spec fn lex_step(s: Seq<char>, pos: int) -> (Option<Seq<char>>, int) {
    if pos >= s.len() {
        (None, pos)
    } else {
        let ws = find_class(s, pos, true);
        if ws >= s.len() {
            (None, s.len() as int)
        } else {
            let we = find_class(s, ws + 1, false);
            if we >= s.len() {
                (Some(s.subrange(pos, s.len() as int)), s.len() as int)
            } else {
                (Some(s.subrange(ws, we)), we + 1)
            }
        }
    }
}

/// The number of tokens that the lexer yields from `pos` on.
pub open spec fn token_count(s: Seq<char>, pos: int) -> nat
    decreases s.len() - pos,
{
    if 0 <= pos < s.len() {
        let (t, p) = lex_step(s, pos);
        if t is Some {
            proof {
                lemma_lex_step_progress(s, pos);
            }
            1 + token_count(s, p)
        } else {
            0
        }
    } else {
        0
    }
}

pub proof fn lemma_lex_step_progress(s: Seq<char>, pos: int)
    requires
        0 <= pos < s.len(),
    ensures
        pos < lex_step(s, pos).1 <= s.len(),
{
    lemma_find_class_bounds(s, pos, true);
    let ws = find_class(s, pos, true);
    if ws < s.len() {
        lemma_find_class_bounds(s, ws + 1, false);
    }
}

/// A cursor over the words of a text.
pub struct Lexer {
    text: Vec<char>,
    cursor: usize,
}

impl Lexer {
    /// The characters being split.
    pub closed spec fn text(&self) -> Seq<char> {
        self.text@
    }

    /// Where the next step starts.
    pub closed spec fn position(&self) -> int {
        self.cursor as int
    }

    pub closed spec fn wf(&self) -> bool {
        self.cursor <= self.text@.len()
    }

    pub fn new(text: &str) -> (r: Self)
        ensures
            r.wf(),
            r.text() == text@,
            r.position() == 0,
    {
        Lexer { text: chars_of(text), cursor: 0 }
    }

    /// The next token, or `None` once the text holds no more words.
    pub fn next_token(&mut self) -> (r: Option<String>)
        requires
            old(self).wf(),
        ensures
            final(self).wf(),
            final(self).text() == old(self).text(),
            crate::text::opt_view(r) == lex_step(old(self).text(), old(self).position()).0,
            final(self).position() == lex_step(old(self).text(), old(self).position()).1,
    {
        let len = self.text.len();
        if self.cursor >= len {
            return None;
        }
        let start = self.cursor;
        let ghost s = self.text@;
        let mut i: usize = start;
        while i < len && !is_alphanumeric(self.text[i])
            invariant
                start <= i <= len,
                len == s.len(),
                self.text@ == s,
                find_class(s, i as int, true) == find_class(s, start as int, true),
            decreases len - i,
        {
            i = i + 1;
        }
        if i == len {
            self.cursor = len;
            return None;
        }
        let ws = i;
        i = i + 1;
        while i < len && is_alphanumeric(self.text[i])
            invariant
                ws < i <= len,
                len == s.len(),
                self.text@ == s,
                find_class(s, i as int, false) == find_class(s, ws + 1, false),
            decreases len - i,
        {
            i = i + 1;
        }
        if i == len {
            self.cursor = len;
            Some(substring(&self.text, start, len))
        } else {
            self.cursor = i + 1;
            Some(substring(&self.text, ws, i))
        }
    }
}

/// The number of words in `text`, as the lexer counts them.
pub fn count_words(text: &str) -> (r: usize)
    ensures
        r == token_count(text@, 0),
{
    let mut lexer = Lexer::new(text);
    let mut n: usize = 0;
    loop
        invariant
            lexer.wf(),
            lexer.text() == text@,
            n + token_count(text@, lexer.position()) == token_count(text@, 0),
            n <= lexer.position(),
            lexer.position() <= text@.len(),
        decreases text@.len() - lexer.position(),
    {
        let ghost pos = lexer.position();
        proof {
            if pos < text@.len() {
                lemma_lex_step_progress(text@, pos);
            }
        }
        match lexer.next_token() {
            Some(_) => {
                n = n + 1;
            },
            None => {
                return n;
            },
        }
    }
}

} // verus!
