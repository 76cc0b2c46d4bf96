//! What the citation parser makes of well-formed records: a record written
//! out from its parts parses back to exactly those parts, and one that lacks
//! a required field does not parse.

use vstd::prelude::*;

use crate::bibtex::{
    author_key, brace_delta, finish_entry, is_ws, key_end, kind_name, lemma_kind_of_text,
    parse_entry, parse_fields, parse_key, parse_value, record_field, scan_value, skip_ws, title_key,
    year_key, EntryKind, EntryView, ParseError,
};
use crate::text::find_char;

verus! {

/// One field as written in a record: `key = {value}` with whitespace
/// allowed before the key, around the `=` and after the closing brace.
pub struct FieldSource {
    pub lead: Seq<char>,
    pub key: Seq<char>,
    pub before_eq: Seq<char>,
    pub after_eq: Seq<char>,
    pub value: Seq<char>,
    pub trail: Seq<char>,
}

/// The brace depth at the end of `v`: opened minus closed braces.
pub open spec fn brace_depth(v: Seq<char>) -> int
    decreases v.len(),
{
    if v.len() == 0 {
        0
    } else {
        brace_depth(v.drop_last()) + brace_delta(v.last())
    }
}

/// Every `}` in `v` closes a `{` before it, and every `{` is closed.
pub open spec fn balanced(v: Seq<char>) -> bool {
    &&& brace_depth(v) == 0
    &&& forall|k: int| 0 <= k <= v.len() ==> brace_depth(#[trigger] v.take(k)) >= 0
}

/// A key is a non-empty word without whitespace, `=`, braces or commas.
pub open spec fn valid_key(k: Seq<char>) -> bool {
    &&& k.len() > 0
    &&& forall|i: int|
        0 <= i < k.len() ==> {
            let c = #[trigger] k[i];
            !is_ws(c) && c != '=' && c != '{' && c != '}' && c != ','
        }
}

pub open spec fn all_ws(w: Seq<char>) -> bool {
    forall|i: int| 0 <= i < w.len() ==> is_ws(#[trigger] w[i])
}

pub open spec fn valid_field(f: FieldSource) -> bool {
    &&& all_ws(f.lead)
    &&& valid_key(f.key)
    &&& all_ws(f.before_eq)
    &&& all_ws(f.after_eq)
    &&& balanced(f.value)
    &&& all_ws(f.trail)
}

/// One field as text, without the separator that follows it.
pub open spec fn render_field(f: FieldSource) -> Seq<char> {
    f.lead + f.key + f.before_eq + seq!['='] + f.after_eq + seq!['{'] + f.value + seq!['}']
        + f.trail
}

/// The fields separated by commas, then the `}` that closes the record.
pub open spec fn render_fields(fs: Seq<FieldSource>) -> Seq<char>
    decreases fs.len(),
{
    if fs.len() == 0 {
        seq!['}']
    } else {
        let rest = if fs.len() == 1 {
            seq!['}']
        } else {
            seq![','] + render_fields(fs.drop_first())
        };
        render_field(fs[0]) + rest
    }
}

/// The text of a record: whitespace, `@kind{name,`, then the fields.
pub open spec fn render_entry(
    lead: Seq<char>,
    kind: EntryKind,
    name: Seq<char>,
    fs: Seq<FieldSource>,
) -> Seq<char> {
    lead + seq!['@'] + kind_name(kind) + seq!['{'] + name + seq![','] + render_fields(fs)
}

/// The value of the last field in `fs` whose key is `key`.
pub open spec fn last_value(fs: Seq<FieldSource>, key: Seq<char>) -> Option<Seq<char>>
    decreases fs.len(),
{
    if fs.len() == 0 {
        None
    } else {
        match last_value(fs.drop_first(), key) {
            Some(v) => Some(v),
            None => if fs[0].key == key {
                Some(fs[0].value)
            } else {
                None
            },
        }
    }
}

/// The author, year and title after reading the fields `fs` in order.
pub open spec fn fold_fields(
    acc: (Option<Seq<char>>, Option<Seq<char>>, Option<Seq<char>>),
    fs: Seq<FieldSource>,
) -> (Option<Seq<char>>, Option<Seq<char>>, Option<Seq<char>>)
    decreases fs.len(),
{
    if fs.len() == 0 {
        acc
    } else {
        fold_fields(record_field(acc, fs[0].key, fs[0].value), fs.drop_first())
    }
}

proof fn lemma_skip_ws_run(s: Seq<char>, pos: int, end: int)
    requires
        0 <= pos <= end < s.len(),
        forall|j: int| pos <= j < end ==> is_ws(#[trigger] s[j]),
        !is_ws(s[end]),
    ensures
        skip_ws(s, pos) == end,
    decreases end - pos,
{
    if pos < end {
        lemma_skip_ws_run(s, pos + 1, end);
    }
}

proof fn lemma_skip_ws_idempotent(s: Seq<char>, pos: int)
    requires
        0 <= pos,
    ensures
        skip_ws(s, skip_ws(s, pos)) == skip_ws(s, pos),
    decreases s.len() - pos,
{
    if 0 <= pos < s.len() && is_ws(s[pos]) {
        lemma_skip_ws_idempotent(s, pos + 1);
    }
}

proof fn lemma_find_char_run(s: Seq<char>, pos: int, end: int, c: char)
    requires
        0 <= pos <= end < s.len(),
        forall|j: int| pos <= j < end ==> #[trigger] s[j] != c,
        s[end] == c,
    ensures
        find_char(s, pos, c) == end,
    decreases end - pos,
{
    if pos < end {
        lemma_find_char_run(s, pos + 1, end, c);
    }
}

proof fn lemma_key_end_run(s: Seq<char>, pos: int, end: int)
    requires
        0 <= pos <= end < s.len(),
        forall|j: int| pos <= j < end ==> #[trigger] s[j] != '=' && !is_ws(s[j]),
        s[end] == '=' || is_ws(s[end]),
    ensures
        key_end(s, pos) == end,
    decreases end - pos,
{
    if pos < end {
        lemma_key_end_run(s, pos + 1, end);
    }
}

proof fn lemma_brace_depth_step(v: Seq<char>, k: int)
    requires
        0 <= k < v.len(),
    ensures
        brace_depth(v.take(k + 1)) == brace_depth(v.take(k)) + brace_delta(v[k]),
{
    assert(v.take(k + 1).drop_last() =~= v.take(k));
}

/// Scanning a braced balanced value `v` that starts at `start` and is closed
/// by a `}`, whitespace up to `p`, and a `,` or `}` at `p`.
proof fn lemma_scan_braced(s: Seq<char>, start: int, v: Seq<char>, p: int, i: int)
    requires
        0 <= start,
        start + v.len() < p < s.len(),
        s.subrange(start, start + v.len()) == v,
        s[start + v.len()] == '}',
        forall|j: int| start + v.len() < j < p ==> is_ws(#[trigger] s[j]),
        s[p] == ',' || s[p] == '}',
        balanced(v),
        start <= i <= start + v.len(),
    ensures
        scan_value(s, start, i, 1 + brace_depth(v.take(i - start))) == Ok::<
            (Seq<char>, int),
            ParseError,
        >(
            (
                v,
                if s[p] == ',' {
                    p + 1
                } else {
                    p
                },
            ),
        ),
    decreases start + v.len() - i,
{
    let e = start + v.len();
    if i < e {
        let k = i - start;
        lemma_brace_depth_step(v, k);
        assert(s[i] == v[k]);
        assert(brace_depth(v.take(k + 1)) >= 0);
        lemma_scan_braced(s, start, v, p, i + 1);
    } else {
        assert(v.take(v.len() as int) =~= v);
        lemma_skip_ws_run(s, e + 1, p);
        assert(s.subrange(start, i) == v);
    }
}

/// Where each part of a rendered field stands.
proof fn lemma_field_layout(f: FieldSource)
    ensures
        ({
            let r = render_field(f);
            let k0 = f.lead.len() as int;
            let k1 = k0 + f.key.len();
            let eq = k1 + f.before_eq.len();
            let v0 = eq + 1 + f.after_eq.len();
            let e = v0 + 1 + f.value.len();
            &&& r.len() == e + 1 + f.trail.len()
            &&& forall|j: int| 0 <= j < k0 ==> r[j] == f.lead[j]
            &&& forall|j: int| k0 <= j < k1 ==> r[j] == f.key[j - k0]
            &&& forall|j: int| k1 <= j < eq ==> r[j] == f.before_eq[j - k1]
            &&& r[eq] == '='
            &&& forall|j: int| eq < j < v0 ==> r[j] == f.after_eq[j - eq - 1]
            &&& r[v0] == '{'
            &&& forall|j: int| v0 < j < e ==> r[j] == f.value[j - v0 - 1]
            &&& r[e] == '}'
            &&& forall|j: int| e < j < r.len() ==> r[j] == f.trail[j - e - 1]
        }),
{
}

/// Reading the rendered fields `fs`, found at `pos`, gives what folding them
/// gives.
#[verifier::rlimit(80)]
proof fn lemma_parse_fields_rendered(
    s: Seq<char>,
    pos: int,
    acc: (Option<Seq<char>>, Option<Seq<char>>, Option<Seq<char>>),
    fs: Seq<FieldSource>,
)
    requires
        0 <= pos <= s.len(),
        s.subrange(pos, s.len() as int) == render_fields(fs),
        fs.len() >= 1,
        forall|i: int| 0 <= i < fs.len() ==> valid_field(#[trigger] fs[i]),
    ensures
        parse_fields(s, pos, acc) == Ok::<
            (Option<Seq<char>>, Option<Seq<char>>, Option<Seq<char>>),
            ParseError,
        >(fold_fields(acc, fs)),
    decreases fs.len(),
{
    let f = fs[0];
    assert(valid_field(f));
    let t = s.subrange(pos, s.len() as int);
    let rf = render_field(f);
    lemma_field_layout(f);
    let k0 = pos + f.lead.len();
    let k1 = k0 + f.key.len();
    let eq = k1 + f.before_eq.len();
    let v0 = eq + 1 + f.after_eq.len();
    let vs = v0 + 1;
    let e = vs + f.value.len();
    let p = e + 1 + f.trail.len();
    let rest = if fs.len() == 1 {
        seq!['}']
    } else {
        seq![','] + render_fields(fs.drop_first())
    };
    assert(t == rf + rest);
    assert(s.len() == p + rest.len());
    assert forall|j: int| pos <= j < p implies #[trigger] s[j] == rf[j - pos] by {
        assert(s[j] == t[j - pos]);
    }
    assert(s[p] == t[p - pos]);
    assert(s[p] == rest[0]);
    assert forall|j: int| pos <= j < k0 implies is_ws(#[trigger] s[j]) by {
        assert(s[j] == rf[j - pos]);
    }
    assert(s[k0] == rf[k0 - pos]);
    assert(s[k0] == f.key[0]);
    lemma_skip_ws_run(s, pos, k0);
    assert forall|j: int| k0 <= j < k1 implies #[trigger] s[j] != '=' && !is_ws(s[j]) by {
        assert(s[j] == rf[j - pos]);
        assert(s[j] == f.key[j - k0]);
    }
    assert(s[k1] == rf[k1 - pos]);
    if f.before_eq.len() > 0 {
        assert(s[k1] == f.before_eq[0]);
    }
    lemma_key_end_run(s, k0, k1);
    assert forall|j: int| k1 <= j < eq implies is_ws(#[trigger] s[j]) by {
        assert(s[j] == rf[j - pos]);
        assert(s[j] == f.before_eq[j - k1]);
    }
    assert(s[eq] == rf[eq - pos]);
    lemma_skip_ws_run(s, k1, eq);
    assert forall|j: int| 0 <= j < f.key.len() implies s.subrange(k0, k1)[j] == f.key[j] by {
        assert(s[k0 + j] == rf[k0 + j - pos]);
    }
    assert(s.subrange(k0, k1) =~= f.key);
    assert forall|j: int| eq + 1 <= j < v0 implies is_ws(#[trigger] s[j]) by {
        assert(s[j] == rf[j - pos]);
        assert(s[j] == f.after_eq[j - eq - 1]);
    }
    assert(s[v0] == rf[v0 - pos]);
    lemma_skip_ws_run(s, eq + 1, v0);
    assert forall|j: int| 0 <= j < f.value.len() implies s.subrange(vs, e)[j] == f.value[j] by {
        assert(s[vs + j] == rf[vs + j - pos]);
    }
    assert(s.subrange(vs, e) =~= f.value);
    assert(s[e] == rf[e - pos]);
    assert forall|j: int| e < j < p implies is_ws(#[trigger] s[j]) by {
        assert(s[j] == rf[j - pos]);
        assert(s[j] == f.trail[j - e - 1]);
    }
    assert(f.value.take(0) =~= Seq::<char>::empty());
    lemma_scan_braced(s, vs, f.value, p, vs);
    let next = record_field(acc, f.key, f.value);
    let q = if fs.len() == 1 {
        p
    } else {
        p + 1
    };
    assert(skip_ws(s, pos) == k0);
    assert(parse_key(s, k0) == Ok::<(Seq<char>, int), ParseError>((f.key, eq + 1)));
    assert(parse_value(s, v0) == Ok::<(Seq<char>, int), ParseError>((f.value, q)));
    assert(fold_fields(acc, fs) == fold_fields(next, fs.drop_first()));
    if fs.len() == 1 {
        lemma_skip_ws_run(s, p, p);
        assert(fs.drop_first().len() == 0);
        assert(fold_fields(next, fs.drop_first()) == next);
    } else {
        let tail = fs.drop_first();
        assert(rest == seq![','] + render_fields(tail));
        assert forall|j: int| 0 <= j < render_fields(tail).len() implies s.subrange(
            q,
            s.len() as int,
        )[j] == render_fields(tail)[j] by {
            assert(s[q + j] == t[q + j - pos]);
            assert(t[q + j - pos] == rest[j + 1]);
        }
        assert(s.subrange(q, s.len() as int) =~= render_fields(tail));
        lemma_parse_fields_rendered(s, q, next, tail);
        let g = tail[0];
        assert(valid_field(g));
        let r = render_fields(tail);
        let rg = render_field(g);
        lemma_field_layout(g);
        assert(r == rg + (if tail.len() == 1 {
            seq!['}']
        } else {
            seq![','] + render_fields(tail.drop_first())
        }));
        assert forall|j: int| q <= j < q + g.lead.len() implies is_ws(#[trigger] s[j]) by {
            assert(s[j] == r[j - q]);
            assert(r[j - q] == rg[j - q]);
        }
        assert(s[q + g.lead.len()] == r[g.lead.len() as int]);
        assert(r[g.lead.len() as int] == rg[g.lead.len() as int]);
        lemma_skip_ws_run(s, q, q + g.lead.len());
        lemma_skip_ws_idempotent(s, q);
        let p5 = q + g.lead.len();
        assert(s[p5] != '}');
        assert(parse_fields(s, p5, next) == parse_fields(s, q, next));
        assert(parse_fields(s, pos, acc) == parse_fields(s, p5, next));
    }
}

/// The kind names hold no `{`.
proof fn lemma_kind_name_no_brace(k: EntryKind)
    ensures
        forall|i: int| 0 <= i < kind_name(k).len() ==> kind_name(k)[i] != '{',
{
}

/// Parsing a rendered record reads its kind and its name, then its fields.
proof fn lemma_parse_rendered(lead: Seq<char>, kind: EntryKind, name: Seq<char>, fs: Seq<FieldSource>)
    requires
        all_ws(lead),
        forall|i: int| 0 <= i < name.len() ==> name[i] != ',',
    ensures
        ({
            let s = render_entry(lead, kind, name, fs);
            let p2 = (lead.len() + kind_name(kind).len() + name.len() + 3) as int;
            &&& s.subrange(p2, s.len() as int) == render_fields(fs)
            &&& parse_entry(s) == finish_entry(kind, name, parse_fields(s, p2, (None, None, None)))
        }),
{
    let s = render_entry(lead, kind, name, fs);
    let kn = kind_name(kind);
    let l = lead.len() as int;
    let kl = kn.len() as int;
    let nl = name.len() as int;
    let p1: int = l + 2 + kl;
    let p2: int = p1 + nl + 1;
    assert forall|j: int| 0 <= j < l implies is_ws(#[trigger] s[j]) by {
        assert(s[j] == lead[j]);
    }
    assert(s[l] == '@');
    lemma_skip_ws_run(s, 0, l);
    lemma_kind_name_no_brace(kind);
    assert forall|j: int| l + 1 <= j < l + 1 + kl implies #[trigger] s[j] != '{' by {
        assert(s[j] == kn[j - l - 1]);
    }
    assert(s[l + 1 + kl] == '{');
    lemma_find_char_run(s, l + 1, l + 1 + kl, '{');
    assert(s.subrange(l + 1, l + 1 + kl) =~= kn);
    lemma_kind_of_text(kn, kind);
    assert forall|j: int| p1 <= j < p1 + nl implies #[trigger] s[j] != ',' by {
        assert(s[j] == name[j - p1]);
    }
    assert(s[p1 + nl] == ',');
    lemma_find_char_run(s, p1, p1 + nl, ',');
    assert(s.subrange(p1, p1 + nl) =~= name);
    assert(s.subrange(p2, s.len() as int) =~= render_fields(fs));
}

/// Keeps `o` if it holds a value, else `d`.
pub open spec fn or_else(o: Option<Seq<char>>, d: Option<Seq<char>>) -> Option<Seq<char>> {
    if o is Some {
        o
    } else {
        d
    }
}

proof fn lemma_fold_fields(
    acc: (Option<Seq<char>>, Option<Seq<char>>, Option<Seq<char>>),
    fs: Seq<FieldSource>,
)
    ensures
        fold_fields(acc, fs) == (
            or_else(last_value(fs, author_key()), acc.0),
            or_else(last_value(fs, year_key()), acc.1),
            or_else(last_value(fs, title_key()), acc.2),
        ),
    decreases fs.len(),
{
    if fs.len() > 0 {
        assert(author_key().len() == 6);
        assert(year_key().len() == 4);
        assert(title_key().len() == 5);
        lemma_fold_fields(record_field(acc, fs[0].key, fs[0].value), fs.drop_first());
    }
}

/// A record written as `@kind{name,`, then well-formed `key = {value}`
/// fields separated by commas, then `}`, with whitespace around its parts,
/// parses whenever `author`, `year` and `title` are among its fields, in any
/// order; the result holds the kind, the name, and the value of the last
/// field of each of those three keys, exactly as written between the braces.
pub proof fn law_parse_complete_record(
    lead: Seq<char>,
    kind: EntryKind,
    name: Seq<char>,
    fs: Seq<FieldSource>,
)
    requires
        all_ws(lead),
        forall|i: int| 0 <= i < name.len() ==> name[i] != ',',
        forall|i: int| 0 <= i < fs.len() ==> valid_field(#[trigger] fs[i]),
        last_value(fs, author_key()) is Some,
        last_value(fs, year_key()) is Some,
        last_value(fs, title_key()) is Some,
    ensures
        parse_entry(render_entry(lead, kind, name, fs)) == Ok::<EntryView, ParseError>(
            EntryView {
                kind,
                name,
                author: last_value(fs, author_key())->0,
                year: last_value(fs, year_key())->0,
                title: last_value(fs, title_key())->0,
            },
        ),
{
    let s = render_entry(lead, kind, name, fs);
    let p2: int = (lead.len() + kind_name(kind).len() + name.len() + 3) as int;
    lemma_parse_rendered(lead, kind, name, fs);
    lemma_parse_fields_rendered(s, p2, (None, None, None), fs);
    lemma_fold_fields((None, None, None), fs);
}

/// A record written the same way that lacks an `author`, a `year` or a
/// `title` field does not parse: no partial record comes out.
pub proof fn law_parse_incomplete_record(
    lead: Seq<char>,
    kind: EntryKind,
    name: Seq<char>,
    fs: Seq<FieldSource>,
)
    requires
        all_ws(lead),
        forall|i: int| 0 <= i < name.len() ==> name[i] != ',',
        forall|i: int| 0 <= i < fs.len() ==> valid_field(#[trigger] fs[i]),
        last_value(fs, author_key()) is None || last_value(fs, year_key()) is None
            || last_value(fs, title_key()) is None,
    ensures
        parse_entry(render_entry(lead, kind, name, fs)) is Err,
{
    let s = render_entry(lead, kind, name, fs);
    let p2: int = (lead.len() + kind_name(kind).len() + name.len() + 3) as int;
    lemma_parse_rendered(lead, kind, name, fs);
    if fs.len() == 0 {
        assert(s.len() == p2 + 1);
        assert(s[p2] == render_fields(fs)[0]);
        assert(key_end(s, p2 + 1) == s.len());
        assert(key_end(s, p2) == s.len());
    } else {
        lemma_parse_fields_rendered(s, p2, (None, None, None), fs);
        lemma_fold_fields((None, None, None), fs);
    }
}

} // verus!
