//! Shaping answers from the Hugging Face Hub model-listing API: search
//! ordering, per-model summaries, and the GGUF files of a repository.

use vstd::prelude::*;
use crate::text::{decimal, ends_with, has_suffix, push_str, str_equal, u64_to_string};

verus! {

/// How search results are ordered.
#[derive(Debug, Clone, Copy, PartialEq, Eq, Structural)]
pub enum SortBy {
    Downloads,
    Likes,
    Trending,
    RecentlyUpdated,
}

/// The API's name for an ordering.
pub open spec fn spec_query_value(sort: SortBy) -> Seq<char> {
    match sort {
        SortBy::Downloads => "downloads"@,
        SortBy::Likes => "likes"@,
        SortBy::Trending => "trendingScore"@,
        SortBy::RecentlyUpdated => "lastModified"@,
    }
}

impl SortBy {
    /// The API's name for this ordering, as sent in the `sort` parameter.
    pub fn as_query_value(self) -> (r: &'static str)
        ensures
            r@ == spec_query_value(self),
    {
        match self {
            SortBy::Downloads => "downloads",
            SortBy::Likes => "likes",
            SortBy::Trending => "trendingScore",
            SortBy::RecentlyUpdated => "lastModified",
        }
    }
}

/// The query parameters of a model search, in the order they are sent:
/// the search text, only GGUF text-generation models, the ordering,
/// descending, at most `limit` results, with full details.
pub open spec fn spec_search_query(query: Seq<char>, sort: SortBy, limit: nat) -> Seq<(Seq<char>, Seq<char>)> {
    seq![
        ("search"@, query),
        ("filter"@, "gguf"@),
        ("filter"@, "text-generation"@),
        ("sort"@, spec_query_value(sort)),
        ("direction"@, "-1"@),
        ("limit"@, decimal(limit)),
        ("full"@, "true"@),
    ]
}

/// The query parameters of a model search for `query`, ordered by `sort`,
/// at most `limit` results.
pub fn search_query(query: &str, sort: SortBy, limit: usize) -> (r: Vec<(String, String)>)
    ensures
        r@.len() == 7,
        forall|i: int|
            0 <= i < 7 ==> (#[trigger] r@[i]).0@ == spec_search_query(query@, sort, limit as nat)[i].0
                && r@[i].1@ == spec_search_query(query@, sort, limit as nat)[i].1,
{
    let mut r: Vec<(String, String)> = Vec::new();
    r.push((String::from_str("search"), query.to_owned()));
    r.push((String::from_str("filter"), String::from_str("gguf")));
    r.push((String::from_str("filter"), String::from_str("text-generation")));
    r.push((String::from_str("sort"), sort.as_query_value().to_owned()));
    r.push((String::from_str("direction"), String::from_str("-1")));
    r.push((String::from_str("limit"), u64_to_string(limit as u64)));
    r.push((String::from_str("full"), String::from_str("true")));
    r
}

/// The ordering a frontend option names: `downloads`, `likes`, `trending`
/// or `recent`.
pub open spec fn spec_sort_option(option: Seq<char>) -> Option<SortBy> {
    if option == "downloads"@ {
        Some(SortBy::Downloads)
    } else if option == "likes"@ {
        Some(SortBy::Likes)
    } else if option == "trending"@ {
        Some(SortBy::Trending)
    } else if option == "recent"@ {
        Some(SortBy::RecentlyUpdated)
    } else {
        None
    }
}

/// Reads a frontend sort option; any other option is refused with
/// `unknown sort option '<option>'`.
pub fn sort_from_option(option: &str) -> (r: Result<SortBy, String>)
    ensures
        match spec_sort_option(option@) {
            Some(s) => r == Ok::<SortBy, String>(s),
            None => r matches Err(m) && m@ == "unknown sort option '"@ + option@ + "'"@,
        },
{
    if str_equal(option, "downloads") {
        Ok(SortBy::Downloads)
    } else if str_equal(option, "likes") {
        Ok(SortBy::Likes)
    } else if str_equal(option, "trending") {
        Ok(SortBy::Trending)
    } else if str_equal(option, "recent") {
        Ok(SortBy::RecentlyUpdated)
    } else {
        let mut m = String::from_str("unknown sort option '");
        push_str(&mut m, option);
        push_str(&mut m, "'");
        Err(m)
    }
}

/// A file of a repository, as the search endpoint lists it.
#[derive(Debug, Clone)]
pub struct RawSibling {
    pub rfilename: String,
}

/// One search result as the search endpoint returns it.
#[derive(Debug, Clone)]
pub struct RawModel {
    pub id: String,
    pub pipeline_tag: Option<String>,
    pub downloads: u64,
    pub likes: u64,
    pub last_modified: Option<String>,
    pub siblings: Vec<RawSibling>,
}

/// The GGUF metadata the Hub extracted for a repository.
pub struct RawGgufInfo {
    pub total: Option<u64>,
    pub architecture: Option<String>,
    pub context_length: Option<u64>,
}

/// A repository's detail record, as the model endpoint returns it.
pub struct RawModelDetail {
    pub gguf: Option<RawGgufInfo>,
}

/// The detail fields a search result is enriched with.
#[derive(Debug, Clone)]
pub struct DetailFields {
    pub total: Option<u64>,
    pub architecture: Option<String>,
    pub context_length: Option<u64>,
}

/// The detail fields of a detail record, present only when the Hub
/// extracted GGUF metadata for the repository.
pub fn detail_fields(raw: RawModelDetail) -> (r: Option<DetailFields>)
    ensures
        r is Some <==> raw.gguf is Some,
        r matches Some(d) ==> d.total == raw.gguf->0.total && d.architecture == raw.gguf->0.architecture
            && d.context_length == raw.gguf->0.context_length,
{
    let gguf = raw.gguf?;
    Some(DetailFields { total: gguf.total, architecture: gguf.architecture, context_length: gguf.context_length })
}

/// One search result, enriched with the repository's parameter count,
/// architecture and context length where the Hub knows them.
#[derive(Debug, Clone, PartialEq, Eq)]
pub struct ModelSummary {
    pub id: String,
    pub pipeline_tag: Option<String>,
    pub downloads: u64,
    pub likes: u64,
    pub last_modified: Option<String>,
    pub gguf_file_count: usize,
    pub parameter_count: Option<u64>,
    pub architecture: Option<String>,
    pub context_length: Option<u64>,
}

/// Whether a file name has the `.gguf` extension.
pub open spec fn is_gguf_name(name: Seq<char>) -> bool {
    has_suffix(name, ".gguf"@)
}

/// How many of the first `n` siblings are GGUF files.
pub open spec fn gguf_count(siblings: Seq<RawSibling>, n: int) -> nat
    decreases n,
{
    if n <= 0 {
        0
    } else {
        gguf_count(siblings, n - 1) + if is_gguf_name(siblings[n - 1].rfilename@) {
            1nat
        } else {
            0nat
        }
    }
}

proof fn lemma_gguf_count_bound(siblings: Seq<RawSibling>, n: int)
    requires
        0 <= n,
    ensures
        gguf_count(siblings, n) <= n,
    decreases n,
{
    if n > 0 {
        lemma_gguf_count_bound(siblings, n - 1);
    }
}

/// A search result with its detail fields (when fetched) folded in, and the
/// number of its files that are GGUF files.
pub fn summarize_model(raw: RawModel, detail: Option<DetailFields>) -> (r: ModelSummary)
    ensures
        r.id == raw.id,
        r.pipeline_tag == raw.pipeline_tag,
        r.downloads == raw.downloads,
        r.likes == raw.likes,
        r.last_modified == raw.last_modified,
        r.gguf_file_count == gguf_count(raw.siblings@, raw.siblings@.len() as int),
        match detail {
            Some(d) => r.parameter_count == d.total && r.architecture == d.architecture && r.context_length
                == d.context_length,
            None => r.parameter_count is None && r.architecture is None && r.context_length is None,
        },
{
    let mut count: usize = 0;
    let mut i: usize = 0;
    while i < raw.siblings.len()
        invariant
            i <= raw.siblings.len(),
            count == gguf_count(raw.siblings@, i as int),
        decreases raw.siblings.len() - i,
    {
        proof {
            lemma_gguf_count_bound(raw.siblings@, i as int);
        }
        if ends_with(raw.siblings[i].rfilename.as_str(), ".gguf") {
            count = count + 1;
        }
        i = i + 1;
    }
    let (parameter_count, architecture, context_length) = match detail {
        Some(d) => (d.total, d.architecture, d.context_length),
        None => (None, None, None),
    };
    ModelSummary {
        id: raw.id,
        pipeline_tag: raw.pipeline_tag,
        downloads: raw.downloads,
        likes: raw.likes,
        last_modified: raw.last_modified,
        gguf_file_count: count,
        parameter_count,
        architecture,
        context_length,
    }
}

/// One entry of a repository's file tree.
pub struct RawTreeEntry {
    /// `file` or `directory`.
    pub kind: String,
    pub path: String,
    pub size: u64,
}

/// A GGUF file of a repository, with its size.
#[derive(Debug, Clone, PartialEq, Eq)]
pub struct GgufFile {
    pub filename: String,
    pub size_bytes: u64,
}

/// Whether a tree entry is a GGUF file.
pub open spec fn is_gguf_file_entry(e: RawTreeEntry) -> bool {
    e.kind@ == "file"@ && is_gguf_name(e.path@)
}

/// The entries of the tree that are GGUF files, in tree order.
pub open spec fn gguf_entries(entries: Seq<RawTreeEntry>) -> Seq<RawTreeEntry>
    decreases entries.len(),
{
    if entries.len() == 0 {
        seq![]
    } else {
        gguf_entries(entries.drop_last()) + if is_gguf_file_entry(entries.last()) {
            seq![entries.last()]
        } else {
            seq![]
        }
    }
}

/// Every GGUF file in a repository's file tree, with its size, in tree order.
pub fn gguf_files_from_tree(entries: Vec<RawTreeEntry>) -> (r: Vec<GgufFile>)
    ensures
        r.len() == gguf_entries(entries@).len(),
        forall|i: int|
            0 <= i < r.len() ==> (#[trigger] r@[i]).filename == gguf_entries(entries@)[i].path && r@[i].size_bytes
                == gguf_entries(entries@)[i].size,
{
    let mut r: Vec<GgufFile> = Vec::new();
    let mut i: usize = 0;
    let ghost all = entries@;
    let mut entries = entries;
    assert(entries@.len() == entries.len());
    assert(all.skip(0) =~= all);
    while entries.len() > 0
        invariant
            all.len() <= usize::MAX,
            i + entries.len() == all.len(),
            entries@ == all.skip(i as int),
            r.len() == gguf_entries(all.take(i as int)).len(),
            forall|k: int|
                0 <= k < r.len() ==> (#[trigger] r@[k]).filename == gguf_entries(all.take(i as int))[k].path
                    && r@[k].size_bytes == gguf_entries(all.take(i as int))[k].size,
        decreases entries.len(),
    {
        let e = entries.remove(0);
        proof {
            assert(e == all[i as int]);
            assert(all.take(i + 1).drop_last() =~= all.take(i as int));
            assert(all.take(i + 1).last() == e);
            assert(entries@ =~= all.skip(i + 1));
        }
        let keep = str_equal(e.kind.as_str(), "file") && ends_with(e.path.as_str(), ".gguf");
        if keep {
            r.push(GgufFile { filename: e.path, size_bytes: e.size });
        }
        i = i + 1;
    }
    assert(all.take(i as int) =~= all);
    r
}

} // verus!
