//! The identifier policy: slugs derived from titles, decimal timestamps, and the
//! probe that makes an identifier unique among those already in the store.
use vstd::prelude::*;
use vstd::relations::injective_on;
use vstd::seq_lib::seq_to_set_is_finite;
use vstd::set_lib::{lemma_int_range, lemma_len_subset, lemma_map_size, set_int_range};

use crate::text::{chars_of, slice_of, string_of};

verus! {

/// An ASCII letter or digit.
pub open spec fn is_alnum(c: char) -> bool {
    ('a' <= c && c <= 'z') || ('A' <= c && c <= 'Z') || ('0' <= c && c <= '9')
}

/// A character that may stand in a slug: a lowercase ASCII letter, a digit or `-`.
pub open spec fn is_slug_char(c: char) -> bool {
    ('a' <= c && c <= 'z') || ('0' <= c && c <= '9') || c == '-'
}

/// `c` with an ASCII capital letter turned into lowercase.
pub open spec fn ascii_lower(c: char) -> char {
    if 'A' <= c && c <= 'Z' {
        ((c as u32) + 32) as char
    } else {
        c
    }
}

/// The slug built from `s` so far, and whether a separator is owed before the
/// next letter or digit: each run of other characters becomes one `-`, and
/// separators never lead.
pub open spec fn slug_scan(s: Seq<char>) -> (Seq<char>, bool)
    decreases s.len(),
{
    if s.len() == 0 {
        (Seq::empty(), false)
    } else {
        let (o, p) = slug_scan(s.drop_last());
        let c = s.last();
        if is_alnum(c) {
            let o2 = if p && o.len() > 0 {
                o.push('-')
            } else {
                o
            };
            (o2.push(ascii_lower(c)), false)
        } else {
            (o, true)
        }
    }
}

/// The slug of a title; `memory` where the title has no ASCII letter or digit.
pub open spec fn slug_of(s: Seq<char>) -> Seq<char> {
    if slug_scan(s).0.len() == 0 {
        "memory"@
    } else {
        slug_scan(s).0
    }
}

/// A well-formed slug: non-empty, of slug characters, with no `-` at either
/// end and no two `-` in a row.
pub open spec fn is_slug(t: Seq<char>) -> bool {
    &&& t.len() > 0
    &&& forall|i: int| 0 <= i < t.len() ==> is_slug_char(#[trigger] t[i])
    &&& t[0] != '-'
    &&& t.last() != '-'
    &&& forall|i: int| 0 <= i < t.len() - 1 ==> !(#[trigger] t[i] == '-' && t[i + 1] == '-')
}

/// The text a slug scan has produced so far is a well-formed slug, or empty.
pub open spec fn scan_ok(o: Seq<char>) -> bool {
    o.len() == 0 || is_slug(o)
}

proof fn lemma_scan_ok(s: Seq<char>)
    ensures
        scan_ok(slug_scan(s).0),
    decreases s.len(),
{
    if s.len() > 0 {
        lemma_scan_ok(s.drop_last());
        let (o, p) = slug_scan(s.drop_last());
        let c = s.last();
        if is_alnum(c) {
            let o2 = if p && o.len() > 0 {
                o.push('-')
            } else {
                o
            };
            let l = ascii_lower(c);
            assert(is_slug_char(l) && l != '-');
            let r = o2.push(l);
            assert(forall|i: int| 0 <= i < o2.len() ==> r[i] == o2[i]);
            assert(forall|i: int| 0 <= i < o.len() ==> o2[i] == o[i]);
            assert(is_slug(r));
        }
    }
}

proof fn lemma_scan_of_slug(t: Seq<char>, k: int)
    requires
        is_slug(t),
        0 <= k <= t.len(),
    ensures
        slug_scan(t.take(k)) == (if k > 0 && t[k - 1] == '-' {
            (t.take(k - 1), true)
        } else {
            (t.take(k), false)
        }),
    decreases k,
{
    if k > 0 {
        lemma_scan_of_slug(t, k - 1);
        assert(t.take(k).drop_last() =~= t.take(k - 1));
        let c = t[k - 1];
        if c != '-' {
            if k >= 2 && t[k - 2] == '-' {
                assert(t.take(k - 2).push('-').push(c) =~= t.take(k));
            } else {
                assert(t.take(k - 1).push(c) =~= t.take(k));
            }
        } else {
            assert(k >= 2);
            assert(!(t[k - 2] == '-' && t[k - 1] == '-'));
        }
    }
}

/// The slug of a well-formed slug is the slug itself.
pub proof fn lemma_slug_of_slug(t: Seq<char>)
    requires
        is_slug(t),
    ensures
        slug_of(t) == t,
{
    lemma_scan_of_slug(t, t.len() as int);
    assert(t.take(t.len() as int) =~= t);
}

/// Every slug is well formed.
pub proof fn lemma_slug_is_slug(s: Seq<char>)
    ensures
        is_slug(slug_of(s)),
{
    lemma_scan_ok(s);
    if slug_scan(s).0.len() == 0 {
        reveal_strlit("memory");
    }
}

/// Slugifying is idempotent: the slug of a slug is that slug.
pub proof fn lemma_slugify_idempotent(s: Seq<char>)
    ensures
        slug_of(slug_of(s)) == slug_of(s),
{
    lemma_slug_is_slug(s);
    lemma_slug_of_slug(slug_of(s));
}

fn is_ascii_alnum(c: char) -> (r: bool)
    ensures
        r == is_alnum(c),
{
    ('a' <= c && c <= 'z') || ('A' <= c && c <= 'Z') || ('0' <= c && c <= '9')
}

fn lower_ascii(c: char) -> (r: char)
    ensures
        r == ascii_lower(c),
{
    if 'A' <= c && c <= 'Z' {
        let b = c as u8;
        assert(b as u32 == c as u32);
        (b + 32) as char
    } else {
        c
    }
}

/// Turns a title into a filesystem-safe identifier: ASCII letters and digits
/// are kept (lowercased), every run of other characters becomes one `-`, and
/// `-` is trimmed from both ends; `memory` if nothing is left.
pub fn slugify(text: &str) -> (r: String)
    ensures
        r@ == slug_of(text@),
        is_slug(r@),
{
    proof {
        lemma_slug_is_slug(text@);
    }
    let v = chars_of(text);
    let mut out: Vec<char> = Vec::new();
    let mut pending = false;
    for i in 0..v.len()
        invariant
            v@ == text@,
            (out@, pending) == slug_scan(v@.take(i as int)),
    {
        assert(v@.take(i + 1).drop_last() =~= v@.take(i as int));
        let c = v[i];
        if is_ascii_alnum(c) {
            if pending && out.len() > 0 {
                out.push('-');
            }
            out.push(lower_ascii(c));
            pending = false;
        } else {
            pending = true;
        }
    }
    assert(v@.take(v.len() as int) =~= v@);
    if out.len() == 0 {
        String::from_str("memory")
    } else {
        string_of(&out)
    }
}

/// The character of the decimal digit `d`.
pub open spec fn digit_char(d: nat) -> char {
    ((48 + d) as u8) as char
}

/// The decimal numeral of `n`, without leading zeros.
pub open spec fn decimal(n: nat) -> Seq<char>
    decreases n,
{
    if n < 10 {
        seq![digit_char(n)]
    } else {
        decimal(n / 10).push(digit_char(n % 10))
    }
}

proof fn lemma_decimal_len(n: nat)
    ensures
        decimal(n).len() >= 1,
        n >= 10 ==> decimal(n).len() >= 2,
    decreases n,
{
    if n >= 10 {
        lemma_decimal_len(n / 10);
    }
}

/// Distinct numbers have distinct numerals.
pub proof fn lemma_decimal_injective(a: nat, b: nat)
    requires
        decimal(a) == decimal(b),
    ensures
        a == b,
    decreases a,
{
    lemma_decimal_len(a);
    lemma_decimal_len(b);
    let da = decimal(a);
    assert(digit_char(a % 10) as u32 == 48 + a % 10);
    assert(digit_char(b % 10) as u32 == 48 + b % 10);
    if a >= 10 && b >= 10 {
        assert(decimal(a / 10) =~= da.drop_last());
        assert(decimal(b / 10) =~= da.drop_last());
        lemma_decimal_injective(a / 10, b / 10);
        assert(da.last() == digit_char(a % 10));
        assert(da.last() == digit_char(b % 10));
        assert(a % 10 == b % 10);
        assert(a == (a / 10) * 10 + a % 10);
        assert(b == (b / 10) * 10 + b % 10);
    } else if a < 10 && b < 10 {
        assert(digit_char(a) as u32 == 48 + a);
        assert(digit_char(b) as u32 == 48 + b);
        assert(decimal(a)[0] == digit_char(a));
        assert(decimal(b)[0] == digit_char(b));
    } else if a < 10 {
        assert(decimal(a).len() == 1);
    } else {
        assert(decimal(b).len() == 1);
    }
}

fn digit(d: u64) -> (r: char)
    requires
        d < 10,
    ensures
        r == digit_char(d as nat),
{
    (48u8 + d as u8) as char
}

/// The decimal numeral of `n`.
pub fn decimal_string(n: u64) -> (r: Vec<char>)
    ensures
        r@ == decimal(n as nat),
    decreases n,
{
    if n < 10 {
        let mut r: Vec<char> = Vec::new();
        r.push(digit(n));
        r
    } else {
        let mut r = decimal_string(n / 10);
        r.push(digit(n % 10));
        r
    }
}

/// `base` with the numeric suffix `-k`.
pub open spec fn candidate(base: Seq<char>, k: nat) -> Seq<char> {
    base + seq!['-'] + decimal(k)
}

/// Some identifier in `existing` is `id`.
pub open spec fn is_taken(existing: Seq<String>, id: Seq<char>) -> bool {
    exists|i: int| 0 <= i < existing.len() && #[trigger] existing[i]@ == id
}

/// `r` is what the uniqueness probe settles on for `base`: `base` itself if
/// it is free, else `base-k` for the least `k >= 1` that is free.
pub open spec fn probed(existing: Seq<String>, base: Seq<char>, r: Seq<char>) -> bool {
    &&& !is_taken(existing, r)
    &&& !is_taken(existing, base) ==> r == base
    &&& is_taken(existing, base) ==> exists|k: nat|
        k >= 1 && r == #[trigger] candidate(base, k) && forall|j: nat|
            1 <= j < k ==> is_taken(existing, #[trigger] candidate(base, j))
}

/// Distinct suffixes give distinct candidates.
pub proof fn lemma_candidate_injective(base: Seq<char>, a: nat, b: nat)
    requires
        candidate(base, a) == candidate(base, b),
    ensures
        a == b,
{
    let n = base.len() + 1int;
    assert(candidate(base, a).subrange(n, candidate(base, a).len() as int) =~= decimal(a));
    assert(candidate(base, b).subrange(n, candidate(base, b).len() as int) =~= decimal(b));
    lemma_decimal_injective(a, b);
}

/// If `base` and its first `k` suffixed candidates are all taken, there are
/// more than `k` identifiers: the probe ends within as many steps as there are
/// identifiers.
proof fn lemma_probe_bound(existing: Seq<String>, base: Seq<char>, k: int)
    requires
        k >= 1,
        is_taken(existing, base),
        forall|j: nat| 1 <= j <= k ==> is_taken(existing, #[trigger] candidate(base, j)),
    ensures
        k < existing.len(),
{
    broadcast use seq_to_set_is_finite;

    let ids = existing.map_values(|s: String| s@);
    let x = set_int_range(1, k + 1);
    let f = |j: int| candidate(base, j as nat);
    let y = x.map(f);
    lemma_int_range(1, k + 1);
    assert(injective_on(f, x)) by {
        assert forall|a: int, b: int|
            x.contains(a) && x.contains(b) && #[trigger] f(a) == #[trigger] f(b) implies a
            == b by {
            lemma_candidate_injective(base, a as nat, b as nat);
        }
    }
    lemma_map_size(x, y, f);
    assert(y.subset_of(ids.to_set())) by {
        assert forall|v: Seq<char>| y.contains(v) implies ids.to_set().contains(v) by {
            let j = choose|j: int| x.contains(j) && f(j) == v;
            assert(is_taken(existing, candidate(base, j as nat)));
            let i = choose|i: int| 0 <= i < existing.len() && #[trigger] existing[i]@ == v;
            assert(ids[i] == v);
        }
    }
    assert(!y.contains(base)) by {
        if y.contains(base) {
            let j = choose|j: int| x.contains(j) && f(j) == base;
            assert(f(j).len() > base.len());
        }
    }
    assert(ids.to_set().contains(base)) by {
        let i = choose|i: int| 0 <= i < existing.len() && #[trigger] existing[i]@ == base;
        assert(ids[i] == base);
    }
    lemma_len_subset(y.insert(base), ids.to_set());
    ids.lemma_cardinality_of_set();
}

fn taken(existing: &Vec<String>, id: &String) -> (r: bool)
    ensures
        r == is_taken(existing@, id@),
{
    for i in 0..existing.len()
        invariant
            forall|j: int| 0 <= j < i ==> existing@[j]@ != id@,
    {
        if existing[i] == *id {
            return true;
        }
    }
    false
}

fn candidate_string(base: &str, k: u64) -> (r: String)
    ensures
        r@ == candidate(base@, k as nat),
{
    let mut s = String::from_str(base);
    s.append("-");
    let digits = string_of(&decimal_string(k));
    s.append(digits.as_str());
    proof {
        reveal_strlit("-");
    }
    s
}

/// Makes `base` unique among the identifiers `existing`: `base` if it is free,
/// else `base-1`, `base-2`, ... up to the first one that is free.
pub fn uniquify(existing: &Vec<String>, base: &str) -> (r: String)
    ensures
        probed(existing@, base@, r@),
{
    let b = String::from_str(base);
    if !taken(existing, &b) {
        return b;
    }
    let mut counter: usize = 1;
    loop
        invariant
            is_taken(existing@, base@),
            1 <= counter <= existing.len(),
            forall|j: nat| 1 <= j < counter ==> is_taken(existing@, #[trigger] candidate(base@, j)),
        decreases existing.len() - counter,
    {
        let c = candidate_string(base, counter as u64);
        if !taken(existing, &c) {
            assert(c@ == candidate(base@, counter as nat));
            return c;
        }
        proof {
            lemma_probe_bound(existing@, base@, counter as int);
        }
        counter = counter + 1;
    }
}

/// Makes an identifier from the milliseconds since the epoch, unique among
/// `existing` by the same probe as titles.
pub fn generate_timestamp_id(existing: &Vec<String>, now_millis: u64) -> (r: String)
    ensures
        probed(existing@, decimal(now_millis as nat), r@),
{
    let base = string_of(&decimal_string(now_millis));
    uniquify(existing, base.as_str())
}

/// The name of the file that holds the memory `id`.
pub open spec fn file_name_of(id: Seq<char>) -> Seq<char> {
    id + ".md"@
}

/// The identifier of the memory that a file of this name holds: its name
/// without the `.md` extension, where it has that extension and a non-empty stem.
pub open spec fn id_of_file(name: Seq<char>) -> Option<Seq<char>> {
    if name.len() > 3 && name.subrange(name.len() - 3, name.len() as int) == ".md"@ {
        Some(name.subrange(0, name.len() - 3))
    } else {
        None
    }
}

/// The name of the file that holds the memory `id`: `<id>.md`.
pub fn file_name(id: &str) -> (r: String)
    ensures
        r@ == file_name_of(id@),
{
    let mut s = String::from_str(id);
    s.append(".md");
    s
}

/// The identifier of the memory held in a file named `name`, or `None` where
/// the file is not a memory file.
pub fn id_from_file_name(name: &str) -> (r: Option<String>)
    ensures
        r matches Some(id) ==> id_of_file(name@) == Some(id@),
        r is None ==> id_of_file(name@) is None,
{
    proof {
        reveal_strlit(".md");
    }
    let v = chars_of(name);
    let n = v.len();
    if n > 3 && v[n - 3] == '.' && v[n - 2] == 'm' && v[n - 1] == 'd' {
        assert(v@.subrange(n - 3, n as int) =~= ".md"@);
        Some(string_of(&slice_of(&v, 0, n - 3)))
    } else {
        if n > 3 {
            assert(v@.subrange(n - 3, n as int)[0] == v@[n - 3]);
            assert(v@.subrange(n - 3, n as int)[1] == v@[n - 2]);
            assert(v@.subrange(n - 3, n as int)[2] == v@[n - 1]);
        }
        None
    }
}

/// The identifier read back from a memory's file name is the identifier it was
/// saved under.
pub proof fn lemma_file_name_round_trip(id: Seq<char>)
    requires
        id.len() > 0,
    ensures
        id_of_file(file_name_of(id)) == Some(id),
{
    reveal_strlit(".md");
    let f = file_name_of(id);
    assert(f.subrange(f.len() - 3, f.len() as int) =~= ".md"@);
    assert(f.subrange(0, f.len() - 3) =~= id);
}

} // verus!
