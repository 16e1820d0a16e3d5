//! The memory record codec: how a title and a search snippet are derived from
//! the Markdown text stored for a memory.
use vstd::prelude::*;

use crate::text::{
    all_ws, chars_of, contains, contains_chars, is_ws, lemma_trim_all_ws, lemma_trim_end_append,
    lemma_trim_of_trim_end, lower_of, lowercase, slice_of, string_of, trim, trim_bounds, trim_end,
    trim_end_bound, trim_start,
};

verus! {

/// The most characters a snippet keeps before it is cut and marked with an ellipsis.
pub const SNIPPET_MAX_CHARS: usize = 160;

/// The title given to a memory whose text has no non-blank line.
pub open spec fn untitled() -> Seq<char> {
    "Untitled memory"@
}

/// A text with no non-blank line has the untitled title.
pub proof fn lemma_blank_is_untitled(body: Seq<char>)
    requires
        all_ws(body),
    ensures
        title_of(body) == untitled(),
    decreases body.len(),
{
    lemma_line_len(body);
    let e = line_len(body) as int;
    let line = body.subrange(0, e);
    assert(all_ws(line)) by {
        assert forall|i: int| 0 <= i < line.len() implies is_ws(#[trigger] line[i]) by {
            assert(line[i] == body[i]);
        }
    }
    lemma_trim_all_ws(line);
    if e < body.len() {
        let rest = body.subrange(e + 1, body.len() as int);
        assert(all_ws(rest)) by {
            assert forall|i: int| 0 <= i < rest.len() implies is_ws(#[trigger] rest[i]) by {
                assert(rest[i] == body[e + 1 + i]);
            }
        }
        lemma_blank_is_untitled(rest);
    }
}

proof fn lemma_line_len_of_first_line(p: Seq<char>, q: Seq<char>)
    requires
        forall|i: int| 0 <= i < p.len() ==> p[i] != '\n',
    ensures
        line_len(p + seq!['\n'] + q) == p.len(),
    decreases p.len(),
{
    let s = p + seq!['\n'] + q;
    if p.len() > 0 {
        assert(s.drop_first() =~= p.drop_first() + seq!['\n'] + q);
        lemma_line_len_of_first_line(p.drop_first(), q);
    }
}

/// A text that opens with the heading line `# title` has the trimmed `title`
/// as its title, whatever follows the line break.
pub proof fn lemma_heading_title(title: Seq<char>, rest: Seq<char>)
    requires
        forall|i: int| 0 <= i < title.len() ==> title[i] != '\n',
        trim(title).len() > 0,
    ensures
        title_of("# "@ + title + seq!['\n'] + rest) == trim(title),
{
    reveal_strlit("# ");
    let h = "# "@ + title;
    let s = h + seq!['\n'] + rest;
    assert(forall|i: int| 0 <= i < h.len() ==> h[i] != '\n') by {
        assert forall|i: int| 0 <= i < h.len() implies h[i] != '\n' by {
            if i >= 2 {
                assert(h[i] == title[i - 2]);
            }
        }
    }
    lemma_line_len_of_first_line(h, rest);
    assert(s.subrange(0, h.len() as int) =~= h);
    assert(trim_start(h) == h);
    if all_ws(title) {
        lemma_trim_all_ws(title);
    }
    lemma_trim_end_append("# "@, title);
    let t = trim(h);
    assert(t.subrange(2, t.len() as int) =~= trim_end(title));
    lemma_trim_of_trim_end(title);
}

/// The number of characters before the first line break of `s` (all of them if none).
pub open spec fn line_len(s: Seq<char>) -> nat
    decreases s.len(),
{
    if s.len() == 0 {
        0
    } else if s[0] == '\n' {
        0
    } else {
        1 + line_len(s.drop_first())
    }
}

/// A line ends at its line break, and holds none before it.
pub proof fn lemma_line_len(s: Seq<char>)
    ensures
        line_len(s) <= s.len(),
        line_len(s) < s.len() ==> s[line_len(s) as int] == '\n',
        forall|i: int| 0 <= i < line_len(s) ==> s[i] != '\n',
    decreases s.len(),
{
    if s.len() > 0 && s[0] != '\n' {
        lemma_line_len(s.drop_first());
        assert forall|i: int| 0 <= i < line_len(s) implies s[i] != '\n' by {
            if i > 0 {
                assert(s[i] == s.drop_first()[i - 1]);
            }
        }
    }
}

/// A trimmed line with a leading `# ` heading marker removed (and trimmed again).
pub open spec fn strip_heading(t: Seq<char>) -> Seq<char> {
    if t.len() >= 2 && t[0] == '#' && t[1] == ' ' {
        trim(t.subrange(2, t.len() as int))
    } else {
        t
    }
}

/// The title of a memory: its first non-blank line, trimmed and without a
/// leading `# `; the fixed untitled text where every line is blank.
pub open spec fn title_of(s: Seq<char>) -> Seq<char>
    decreases s.len(),
    via title_of_decreases
{
    let e = line_len(s) as int;
    let t = trim(s.subrange(0, e));
    if t.len() > 0 {
        strip_heading(t)
    } else if e >= s.len() {
        untitled()
    } else {
        title_of(s.subrange(e + 1, s.len() as int))
    }
}

#[via_fn]
proof fn title_of_decreases(s: Seq<char>) {
    lemma_line_len(s);
}

/// A line of text without the carriage return that ends it, if any.
pub open spec fn strip_cr(l: Seq<char>) -> Seq<char> {
    if l.len() > 0 && l.last() == '\r' {
        l.drop_last()
    } else {
        l
    }
}

/// The first line of `s` whose lowercase form contains `needle`. Lines are
/// split at `\n`; a line ended by `\n` loses a trailing `\r`.
pub open spec fn matching_line(s: Seq<char>, needle: Seq<char>) -> Option<Seq<char>>
    decreases s.len(),
    via matching_line_decreases
{
    if s.len() == 0 {
        None
    } else {
        let e = line_len(s) as int;
        if e < s.len() {
            let l = strip_cr(s.subrange(0, e));
            if contains(lower_of(l), needle) {
                Some(l)
            } else {
                matching_line(s.subrange(e + 1, s.len() as int), needle)
            }
        } else if contains(lower_of(s), needle) {
            Some(s)
        } else {
            None
        }
    }
}

#[via_fn]
proof fn matching_line_decreases(s: Seq<char>, needle: Seq<char>) {
    lemma_line_len(s);
}

/// `s` with every line break turned into a space.
pub open spec fn flatten(s: Seq<char>) -> Seq<char> {
    s.map_values(|c: char| if c == '\n' { ' ' } else { c })
}

/// The ellipsized form of `text`: trimmed, line breaks turned into spaces, and,
/// beyond the maximum length, cut to it, trimmed at the end and marked with `…`.
pub open spec fn ellipsis_of(text: Seq<char>) -> Seq<char> {
    let cleaned = flatten(trim(text));
    if cleaned.len() <= SNIPPET_MAX_CHARS {
        cleaned
    } else {
        trim_end(cleaned.take(SNIPPET_MAX_CHARS as int)).push('\u{2026}')
    }
}

/// The snippet shown for a body match: the first matching line, ellipsized, or
/// the ellipsized whole body where no line matches.
pub open spec fn snippet_of(body: Seq<char>, needle: Seq<char>) -> Seq<char> {
    match matching_line(body, needle) {
        Some(l) => ellipsis_of(l),
        None => ellipsis_of(body),
    }
}

/// The end of the line that starts at `start`.
fn line_end(v: &Vec<char>, start: usize) -> (e: usize)
    requires
        start <= v.len(),
    ensures
        start <= e <= v.len(),
        e - start == line_len(v@.subrange(start as int, v.len() as int)),
{
    let mut i = start;
    while i < v.len() && v[i] != '\n'
        invariant
            start <= i <= v.len(),
            line_len(v@.subrange(start as int, v.len() as int)) == (i - start) + line_len(
                v@.subrange(i as int, v.len() as int),
            ),
        decreases v.len() - i,
    {
        assert(v@.subrange(i as int, v.len() as int).drop_first() =~= v@.subrange(
            i + 1,
            v.len() as int,
        ));
        i = i + 1;
    }
    i
}

/// Derives the title of a memory from its text.
pub fn extract_title(body: &str) -> (r: String)
    ensures
        r@ == title_of(body@),
{
    let v = chars_of(body);
    let len = v.len();
    let mut start: usize = 0;
    assert(v@.subrange(0, len as int) =~= v@);
    loop
        invariant
            v@ == body@,
            len == v.len(),
            start <= len,
            title_of(v@) == title_of(v@.subrange(start as int, len as int)),
        decreases len - start,
    {
        let ghost rest = v@.subrange(start as int, len as int);
        let e = line_end(&v, start);
        assert(rest.subrange(0, e - start) =~= v@.subrange(start as int, e as int));
        let (a, b) = trim_bounds(&v, start, e);
        if a < b {
            if b - a >= 2 && v[a] == '#' && v[a + 1] == ' ' {
                let ghost t = v@.subrange(a as int, b as int);
                assert(t.subrange(2, t.len() as int) =~= v@.subrange(a + 2, b as int));
                let (c, d) = trim_bounds(&v, a + 2, b);
                return string_of(&slice_of(&v, c, d));
            }
            return string_of(&slice_of(&v, a, b));
        }
        if e == len {
            return String::from_str("Untitled memory");
        }
        assert(rest.subrange(e - start + 1, rest.len() as int) =~= v@.subrange(
            e + 1,
            len as int,
        ));
        start = e + 1;
    }
}

/// The ellipsized form of `v[lo..hi]`.
fn ellipsize_range(v: &Vec<char>, lo: usize, hi: usize) -> (r: String)
    requires
        lo <= hi <= v.len(),
    ensures
        r@ == ellipsis_of(v@.subrange(lo as int, hi as int)),
{
    let (a, b) = trim_bounds(v, lo, hi);
    let ghost t = v@.subrange(a as int, b as int);
    let mut cleaned: Vec<char> = Vec::new();
    let mut i = a;
    while i < b
        invariant
            a <= i <= b <= v.len(),
            t == v@.subrange(a as int, b as int),
            cleaned@ == flatten(t.take(i - a)),
        decreases b - i,
    {
        let c = v[i];
        if c == '\n' {
            cleaned.push(' ');
        } else {
            cleaned.push(c);
        }
        assert(t.take(i - a + 1) =~= t.take(i - a).push(c));
        assert(cleaned@ =~= flatten(t.take(i - a + 1)));
        i = i + 1;
    }
    assert(t.take(b - a) =~= t);
    if cleaned.len() <= SNIPPET_MAX_CHARS {
        return string_of(&cleaned);
    }
    let t_end = trim_end_bound(&cleaned, 0, SNIPPET_MAX_CHARS);
    assert(cleaned@.subrange(0, SNIPPET_MAX_CHARS as int) =~= cleaned@.take(
        SNIPPET_MAX_CHARS as int,
    ));
    let mut out = slice_of(&cleaned, 0, t_end);
    out.push('\u{2026}');
    string_of(&out)
}

/// Trims `text`, turns its line breaks into spaces and cuts it to the maximum
/// snippet length, counted in characters, marking a cut with `…`.
pub fn ellipsize(text: &str) -> (r: String)
    ensures
        r@ == ellipsis_of(text@),
{
    let v = chars_of(text);
    assert(v@.subrange(0, v.len() as int) =~= v@);
    ellipsize_range(&v, 0, v.len())
}

/// Whether the lowercase form of `v[lo..hi]` contains `needle`.
fn lowered_contains(v: &Vec<char>, lo: usize, hi: usize, needle: &Vec<char>) -> (r: bool)
    requires
        lo <= hi <= v.len(),
    ensures
        r == contains(lower_of(v@.subrange(lo as int, hi as int)), needle@),
{
    let line = string_of(&slice_of(v, lo, hi));
    let lowered = chars_of(lowercase(line.as_str()).as_str());
    contains_chars(&lowered, needle)
}

/// The snippet for a memory whose body matched `needle_lower`: the first line
/// whose lowercase form contains it, ellipsized, or else the whole body, ellipsized.
pub fn extract_snippet(body: &str, needle_lower: &str) -> (r: String)
    ensures
        r@ == snippet_of(body@, needle_lower@),
{
    let v = chars_of(body);
    let needle = chars_of(needle_lower);
    let len = v.len();
    let mut start: usize = 0;
    assert(v@.subrange(0, len as int) =~= v@);
    loop
        invariant
            v@ == body@,
            needle@ == needle_lower@,
            len == v.len(),
            v@.subrange(0, len as int) == v@,
            start <= len,
            matching_line(v@, needle@) == matching_line(
                v@.subrange(start as int, len as int),
                needle@,
            ),
        decreases len - start,
    {
        let ghost rest = v@.subrange(start as int, len as int);
        if start == len {
            assert(rest.len() == 0);
            assert(matching_line(rest, needle@) == None::<Seq<char>>);
            return ellipsize_range(&v, 0, len);
        }
        let e = line_end(&v, start);
        if e < len {
            let cut = if e > start && v[e - 1] == '\r' {
                e - 1
            } else {
                e
            };
            assert(strip_cr(rest.subrange(0, e - start)) =~= v@.subrange(
                start as int,
                cut as int,
            ));
            if lowered_contains(&v, start, cut, &needle) {
                return ellipsize_range(&v, start, cut);
            }
            assert(rest.subrange(e - start + 1, rest.len() as int) =~= v@.subrange(
                e + 1,
                len as int,
            ));
            start = e + 1;
        } else {
            if lowered_contains(&v, start, len, &needle) {
                return ellipsize_range(&v, start, len);
            }
            assert(matching_line(rest, needle@) == None::<Seq<char>>);
            return ellipsize_range(&v, 0, len);
        }
    }
}

} // verus!
