//! The records of the memory store and the decisions behind its operations:
//! what a listing and a search return for the memory files read from the store
//! directory, and what a save writes and where.
use vstd::prelude::*;

use crate::codec::{
    ellipsis_of, ellipsize, extract_snippet, extract_title, snippet_of, title_of, untitled,
};
use crate::ident::{
    candidate, file_name_of, id_of_file, is_taken, lemma_file_name_round_trip, lemma_slug_is_slug,
    probed, slug_of, slugify, uniquify,
};
use crate::recency::{newest_first, sort_by_recency, views, Recency};
use crate::text::{
    chars_of, contains, contains_chars, lower_of, lowercase, slice_of, string_of, trim,
    trim_bounds,
};

verus! {

/// One memory file as read from the store directory: its identifier (the file
/// name without `.md`), its full text, and its modification time in seconds
/// since the epoch.
#[derive(Debug)]
pub struct MemoryFile {
    pub id: String,
    pub body: String,
    pub updated_at: i64,
}

/// The listing projection of a memory.
#[derive(Debug)]
pub struct MemorySummary {
    pub id: String,
    pub title: String,
    pub updated_at: i64,
}

/// The full projection of a memory.
#[derive(Debug)]
pub struct MemoryDetail {
    pub id: String,
    pub title: String,
    pub body: String,
    pub updated_at: i64,
}

/// What a caller asks to save: an existing id to overwrite, or none to create.
#[derive(Debug)]
pub struct SaveMemoryPayload {
    pub id: Option<String>,
    pub title: String,
    pub body: String,
}

/// A search hit with the excerpt that matched.
#[derive(Debug)]
pub struct MemorySearchResult {
    pub id: String,
    pub title: String,
    pub snippet: String,
    pub updated_at: i64,
}

/// The change notification sent after a successful save or delete.
#[derive(Clone, Debug)]
pub struct MemoryChangedPayload {
    pub action: &'static str,
    pub id: Option<String>,
}

/// The model of a memory file.
pub struct FileModel {
    pub id: Seq<char>,
    pub body: Seq<char>,
    pub updated_at: i64,
}

/// The model of a summary.
pub struct SummaryModel {
    pub id: Seq<char>,
    pub title: Seq<char>,
    pub updated_at: i64,
}

/// The model of a detail.
pub struct DetailModel {
    pub id: Seq<char>,
    pub title: Seq<char>,
    pub body: Seq<char>,
    pub updated_at: i64,
}

/// The model of a search result.
pub struct ResultModel {
    pub id: Seq<char>,
    pub title: Seq<char>,
    pub snippet: Seq<char>,
    pub updated_at: i64,
}

impl View for MemoryFile {
    type V = FileModel;

    open spec fn view(&self) -> FileModel {
        FileModel { id: self.id@, body: self.body@, updated_at: self.updated_at }
    }
}

impl View for MemorySummary {
    type V = SummaryModel;

    open spec fn view(&self) -> SummaryModel {
        SummaryModel { id: self.id@, title: self.title@, updated_at: self.updated_at }
    }
}

impl View for MemoryDetail {
    type V = DetailModel;

    open spec fn view(&self) -> DetailModel {
        DetailModel {
            id: self.id@,
            title: self.title@,
            body: self.body@,
            updated_at: self.updated_at,
        }
    }
}

impl View for MemorySearchResult {
    type V = ResultModel;

    open spec fn view(&self) -> ResultModel {
        ResultModel {
            id: self.id@,
            title: self.title@,
            snippet: self.snippet@,
            updated_at: self.updated_at,
        }
    }
}

impl Recency for MemorySummary {
    open spec fn recency_of(v: SummaryModel) -> i64 {
        v.updated_at
    }

    fn recency(&self) -> (r: i64) {
        self.updated_at
    }
}

impl Recency for MemorySearchResult {
    open spec fn recency_of(v: ResultModel) -> i64 {
        v.updated_at
    }

    fn recency(&self) -> (r: i64) {
        self.updated_at
    }
}

impl MemoryChangedPayload {
    /// The notification that the memory `id` was saved.
    pub fn saved(id: String) -> (r: Self)
        ensures
            r.action@ == "saved"@,
            r.id == Some(id),
    {
        MemoryChangedPayload { action: "saved", id: Some(id) }
    }

    /// The notification that the memory `id` was deleted.
    pub fn deleted(id: String) -> (r: Self)
        ensures
            r.action@ == "deleted"@,
            r.id == Some(id),
    {
        MemoryChangedPayload { action: "deleted", id: Some(id) }
    }
}

/// The summary of a memory file: its id, the title derived from its text, and its time.
pub open spec fn summary_of(f: FileModel) -> SummaryModel {
    SummaryModel { id: f.id, title: title_of(f.body), updated_at: f.updated_at }
}

/// The summaries of memory files, in the same order.
pub open spec fn summaries(files: Seq<FileModel>) -> Seq<SummaryModel> {
    files.map_values(|f: FileModel| summary_of(f))
}

/// The detail of the memory `id` whose file holds `body` and was modified at `updated_at`.
pub open spec fn detail_of(id: Seq<char>, body: Seq<char>, updated_at: i64) -> DetailModel {
    DetailModel { id, title: title_of(body), body, updated_at }
}

/// The detail of a memory, from its id, its stored text and its modification
/// time; the title is derived from the text, never stored apart from it.
pub fn memory_detail(id: String, body: String, updated_at: i64) -> (r: MemoryDetail)
    ensures
        r@ == detail_of(id@, body@, updated_at),
{
    let title = extract_title(body.as_str());
    MemoryDetail { id, title, body, updated_at }
}

/// The listing of a store whose memory files are `files`: one summary per
/// file, newest first.
pub fn list_memories(files: &Vec<MemoryFile>) -> (r: Vec<MemorySummary>)
    ensures
        views(r@).to_multiset() == summaries(views(files@)).to_multiset(),
        forall|i: int, j: int| 0 <= i < j < r@.len() ==> r@[i].updated_at >= r@[j].updated_at,
{
    let mut out: Vec<MemorySummary> = Vec::new();
    for i in 0..files.len()
        invariant
            views(out@) == summaries(views(files@.take(i as int))),
    {
        let f = &files[i];
        let title = extract_title(f.body.as_str());
        let ghost before = out@;
        let item = MemorySummary { id: f.id.clone(), title, updated_at: f.updated_at };
        assert(item@ == summary_of(f@));
        out.push(item);
        assert(views(out@) =~= views(before).push(item@));
        assert(views(files@.take(i + 1)) =~= views(files@.take(i as int)).push(files@[i as int]@));
        assert(views(out@) =~= summaries(views(files@.take(i + 1))));
    }
    assert(files@.take(files.len() as int) =~= files@);
    let r = sort_by_recency(out);
    assert(forall|i: int, j: int|
        0 <= i < j < r@.len() ==> #[trigger] r@[i].updated_at >= #[trigger] r@[j].updated_at) by {
        assert(newest_first(r@));
        assert forall|i: int, j: int| 0 <= i < j < r@.len() implies #[trigger] r@[i].updated_at
            >= #[trigger] r@[j].updated_at by {
            assert(MemorySummary::recency_of(r@[i]@) >= MemorySummary::recency_of(r@[j]@));
        }
    }
    r
}

/// The needle a query searches for: the trimmed query, lowercased.
pub open spec fn needle_of(query: Seq<char>) -> Seq<char> {
    lower_of(trim(query))
}

/// The lowercase title of the memory contains the needle.
pub open spec fn title_hit(f: FileModel, needle: Seq<char>) -> bool {
    contains(lower_of(title_of(f.body)), needle)
}

/// The memory matches the needle, by its title or by its text.
pub open spec fn is_hit(f: FileModel, needle: Seq<char>) -> bool {
    title_hit(f, needle) || contains(lower_of(f.body), needle)
}

/// The search result for a matching memory: a title match shows the
/// ellipsized title, a match in the text alone shows the matching line.
pub open spec fn hit_of(f: FileModel, needle: Seq<char>) -> ResultModel {
    ResultModel {
        id: f.id,
        title: title_of(f.body),
        snippet: if title_hit(f, needle) {
            ellipsis_of(title_of(f.body))
        } else {
            snippet_of(f.body, needle)
        },
        updated_at: f.updated_at,
    }
}

/// The results for the memory files that match the needle, in their order.
pub open spec fn hits(files: Seq<FileModel>, needle: Seq<char>) -> Seq<ResultModel>
    decreases files.len(),
{
    if files.len() == 0 {
        Seq::empty()
    } else {
        let rest = hits(files.drop_last(), needle);
        if is_hit(files.last(), needle) {
            rest.push(hit_of(files.last(), needle))
        } else {
            rest
        }
    }
}

/// Whether the lowercase form of `s` contains `needle`.
fn lowered_contains(s: &str, needle: &Vec<char>) -> (r: bool)
    ensures
        r == contains(lower_of(s@), needle@),
{
    let lowered = lowercase(s);
    contains_chars(&chars_of(lowered.as_str()), needle)
}

/// Searches the memory files `files` for `query`: nothing for a blank query;
/// else every memory whose title or text contains the trimmed query, compared
/// in lowercase, newest first.
pub fn search_memories(query: &str, files: &Vec<MemoryFile>) -> (r: Vec<MemorySearchResult>)
    ensures
        trim(query@).len() == 0 ==> r@.len() == 0,
        trim(query@).len() > 0 ==> views(r@).to_multiset() == hits(
            views(files@),
            needle_of(query@),
        ).to_multiset(),
        forall|i: int, j: int| 0 <= i < j < r@.len() ==> r@[i].updated_at >= r@[j].updated_at,
{
    let q = chars_of(query);
    let (a, b) = trim_bounds(&q, 0, q.len());
    assert(q@.subrange(0, q.len() as int) =~= q@);
    if a == b {
        return Vec::new();
    }
    let needle_text = lowercase(string_of(&slice_of(&q, a, b)).as_str());
    let needle = chars_of(needle_text.as_str());
    let ghost nd = needle_of(query@);
    let mut out: Vec<MemorySearchResult> = Vec::new();
    for i in 0..files.len()
        invariant
            needle@ == nd,
            needle_text@ == nd,
            views(out@) == hits(views(files@.take(i as int)), nd),
    {
        let f = &files[i];
        let title = extract_title(f.body.as_str());
        let title_match = lowered_contains(title.as_str(), &needle);
        let body_match = !title_match && lowered_contains(f.body.as_str(), &needle);
        let ghost before = out@;
        assert(views(files@.take(i + 1)) =~= views(files@.take(i as int)).push(files@[i as int]@));
        assert(views(files@.take(i + 1)).drop_last() =~= views(files@.take(i as int)));
        if title_match || body_match {
            let snippet = if title_match {
                ellipsize(title.as_str())
            } else {
                extract_snippet(f.body.as_str(), needle_text.as_str())
            };
            let item = MemorySearchResult {
                id: f.id.clone(),
                title,
                snippet,
                updated_at: f.updated_at,
            };
            assert(item@ == hit_of(f@, nd));
            out.push(item);
            assert(views(out@) =~= views(before).push(item@));
        }
    }
    assert(files@.take(files.len() as int) =~= files@);
    let r = sort_by_recency(out);
    assert(forall|i: int, j: int|
        0 <= i < j < r@.len() ==> #[trigger] r@[i].updated_at >= #[trigger] r@[j].updated_at) by {
        assert(newest_first(r@));
        assert forall|i: int, j: int| 0 <= i < j < r@.len() implies #[trigger] r@[i].updated_at
            >= #[trigger] r@[j].updated_at by {
            assert(MemorySearchResult::recency_of(r@[i]@) >= MemorySearchResult::recency_of(
                r@[j]@,
            ));
        }
    }
    r
}

/// The title a save resolves: the trimmed title, or the untitled text where it is blank.
pub open spec fn resolved_title(title: Seq<char>) -> Seq<char> {
    if trim(title).len() == 0 {
        untitled()
    } else {
        trim(title)
    }
}

/// The text a save writes: the body as given, or, where it is blank, a
/// heading line of the resolved title followed by an empty line.
pub open spec fn stored_body(body: Seq<char>, title: Seq<char>) -> Seq<char> {
    if trim(body).len() == 0 {
        "# "@ + resolved_title(title) + "\n\n"@
    } else {
        body
    }
}

/// Resolves the title of a save: trimmed, or the untitled text where blank.
pub fn resolve_title(title: &str) -> (r: String)
    ensures
        r@ == resolved_title(title@),
{
    let v = chars_of(title);
    let (a, b) = trim_bounds(&v, 0, v.len());
    assert(v@.subrange(0, v.len() as int) =~= v@);
    if a == b {
        String::from_str("Untitled memory")
    } else {
        string_of(&slice_of(&v, a, b))
    }
}

/// Decides what a save writes and under which id, given the ids of the memories
/// already stored: the id given, or else the slug of the resolved title made
/// unique among `existing`; and the body, with a blank one replaced by a
/// heading of the resolved title. Returns the id and the text to write.
pub fn plan_save(payload: SaveMemoryPayload, existing: &Vec<String>) -> (r: (String, String))
    ensures
        r.1@ == stored_body(payload.body@, payload.title@),
        payload.id matches Some(id) ==> r.0@ == id@,
        payload.id is None ==> probed(existing@, slug_of(resolved_title(payload.title@)), r.0@),
{
    let SaveMemoryPayload { id, title, body } = payload;
    let resolved = resolve_title(title.as_str());
    let id = match id {
        Some(id) => id,
        None => {
            let slug = slugify(resolved.as_str());
            uniquify(existing, slug.as_str())
        },
    };
    let b = chars_of(body.as_str());
    let (lo, hi) = trim_bounds(&b, 0, b.len());
    assert(b@.subrange(0, b.len() as int) =~= b@);
    if lo == hi {
        let mut text = String::from_str("# ");
        text.append(resolved.as_str());
        text.append("\n\n");
        (id, text)
    } else {
        (id, body)
    }
}

/// The save that updates the stored memory `existing` under its id: each of
/// the title and body given replaces the stored one, and each one left out keeps it.
pub fn update_payload(existing: MemoryDetail, title: Option<String>, body: Option<String>) -> (r:
    SaveMemoryPayload)
    ensures
        r.id == Some(existing.id),
        r.title@ == (match title {
            Some(t) => t@,
            None => existing.title@,
        }),
        r.body@ == (match body {
            Some(b) => b@,
            None => existing.body@,
        }),
{
    let MemoryDetail { id, title: old_title, body: old_body, updated_at: _ } = existing;
    let title = match title {
        Some(t) => t,
        None => old_title,
    };
    let body = match body {
        Some(b) => b,
        None => old_body,
    };
    SaveMemoryPayload { id: Some(id), title, body }
}

/// What a save returns is what a later load of the same file returns, the
/// modification time aside; and an id the store assigned is never empty, so a
/// listing reads it back from the file name unchanged.
pub proof fn lemma_save_then_load(
    existing: Seq<String>,
    title: Seq<char>,
    id: Seq<char>,
    body: Seq<char>,
    saved_at: i64,
    loaded_at: i64,
)
    requires
        probed(existing, slug_of(resolved_title(title)), id),
    ensures
        detail_of(id, body, saved_at).id == detail_of(id, body, loaded_at).id,
        detail_of(id, body, saved_at).title == detail_of(id, body, loaded_at).title,
        detail_of(id, body, saved_at).body == detail_of(id, body, loaded_at).body,
        id_of_file(file_name_of(id)) == Some(id),
{
    let base = slug_of(resolved_title(title));
    lemma_slug_is_slug(resolved_title(title));
    if is_taken(existing, base) {
        let k = choose|k: nat| k >= 1 && id == #[trigger] candidate(base, k);
        assert(id.len() > 0);
    }
    lemma_file_name_round_trip(id);
}

} // verus!
