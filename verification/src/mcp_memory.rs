//! A memory service that is queried over HTTP.
use crate::calendar::{
    in_month, law_day_lies_in_one_month, law_month_text_is_injective, month_of, month_text,
};
use crate::fragment::{
    entry_score, entry_text, freshly_stamped, knowledge_of, lemma_present_concat,
    lemma_present_members, lemma_present_of_kept, present, score_of, shared_knowledge,
    source_name, text_of, FragmentView, Knowledge, MemoryFragment, MemorySource,
};
use crate::http::{Exchange, Request};
use crate::ids::{hyphenated, law_id_text_is_injective, AgentId, MemoryId};
use crate::json::{
    documents, member, named_documents, parse_document, parsed_document, Json, JsonView,
};
use crate::text::{
    at_most, decimal, decimal_numeral, decimal_value, first_chars, first_line, first_line_of,
    is_decimal, law_first_line_is_one_line, law_numeral_reads_back, law_trailing_run_is_ignored,
    lemma_line_end_at, run_of, trim_trailing, without_trailing,
};
use crate::time::{rfc3339_text, utc_day, utc_month_text, Timestamp};
use vstd::prelude::*;

verus! {

/// A title and a snippet as one text, with an empty line between the two where both
/// are there. There is no text where both are empty.
pub open spec fn combined(title: Seq<char>, snippet: Seq<char>) -> Option<Seq<char>> {
    if title.len() == 0 && snippet.len() == 0 {
        None
    } else if title.len() == 0 {
        Some(snippet)
    } else if snippet.len() == 0 {
        Some(title)
    } else {
        Some(title + "\n\n"@ + snippet)
    }
}

/// What the fragment says that an entry of a service's answer becomes. An entry
/// without title and without snippet becomes none.
pub open spec fn recalled(entry: JsonView, service: Seq<char>) -> Option<Knowledge> {
    match combined(text_of(entry, "title"@), text_of(entry, "snippet"@)) {
        Some(content) => Some(
            shared_knowledge(
                content,
                seq![
                    ("source_path"@, JsonView::Text(text_of(entry, "file"@))),
                    ("docid"@, JsonView::Text(text_of(entry, "docid"@))),
                    ("mcp_service"@, JsonView::Text(service)),
                ],
                score_of(entry),
                "mcp"@,
            ),
        ),
        None => None,
    }
}

/// What the fragments say that a list of entries becomes.
pub open spec fn recalled_all(entries: Seq<JsonView>, service: Seq<char>) -> Seq<Knowledge> {
    present(Seq::new(entries.len(), |i: int| recalled(entries[i], service)))
}

/// The entries of an answer: the array under `results`, where there is one.
pub open spec fn entries_of(document: JsonView) -> Seq<JsonView> {
    match document.get_array("results"@) {
        Some(items) => items,
        None => seq![],
    }
}

/// The entries of the answer in the bytes; none where they are not a JSON document.
pub open spec fn answered_entries(bytes: Seq<u8>) -> Seq<JsonView> {
    match parsed_document(bytes) {
        Some(document) => entries_of(document),
        None => seq![],
    }
}

/// A title and a snippet as one text, with an empty line between the two where both
/// are there. There is no text where both are empty.
fn combine(title: &str, snippet: &str) -> (content: Option<String>)
    ensures
        match content {
            Some(text) => combined(title@, snippet@) == Some(text@),
            None => combined(title@, snippet@) is None,
        },
{
    if title.is_empty() && snippet.is_empty() {
        None
    } else if title.is_empty() {
        Some(snippet.to_owned())
    } else if snippet.is_empty() {
        Some(title.to_owned())
    } else {
        let mut content: String = title.to_owned();
        content.append("\n\n");
        content.append(snippet);
        Some(content)
    }
}

/// The fragment that an entry of a service's answer becomes, with the identifier and
/// the times given. An entry without title and without snippet becomes none.
pub fn fragment_from_entry(
    entry: &Json,
    service: &str,
    id: MemoryId,
    created_at: Timestamp,
    accessed_at: Timestamp,
) -> (fragment: Option<MemoryFragment>)
    ensures
        match fragment {
            Some(f) => f@.id == id && f@.created_at == created_at && f@.accessed_at == accessed_at
                && recalled(entry@, service@) == Some(f@.knowledge),
            None => recalled(entry@, service@) is None,
        },
{
    let title = entry_text(entry, "title");
    let snippet = entry_text(entry, "snippet");
    match combine(title, snippet) {
        None => None,
        Some(content) => {
            let mut metadata: Vec<(String, Json)> = Vec::new();
            metadata.push(("source_path".to_owned(), Json::text(entry_text(entry, "file"))));
            metadata.push(("docid".to_owned(), Json::text(entry_text(entry, "docid"))));
            metadata.push(("mcp_service".to_owned(), Json::text(service)));
            proof {
                assert(named_documents(metadata@) =~= recalled(entry@, service@)->0.metadata);
            }
            let score: String = entry_score(entry).to_owned();
            Some(
                MemoryFragment::from_document(
                    id,
                    created_at,
                    accessed_at,
                    content,
                    metadata,
                    score,
                    "mcp",
                ),
            )
        },
    }
}

/// The fragments that a service's answer becomes, in the order of its entries. Each
/// gets a fresh identifier and the time of the clock.
pub fn fragments_from_answer(document: &Json, service: &str) -> (fragments: Vec<MemoryFragment>)
    ensures
        knowledge_of(fragments@) == recalled_all(entries_of(document@), service@),
        freshly_stamped(fragments@),
{
    let mut fragments: Vec<MemoryFragment> = Vec::new();
    match document.get_array("results") {
        None => {
            proof {
                assert(knowledge_of(fragments@) =~= recalled_all(entries_of(document@), service@));
            }
        },
        Some(entries) => {
            let ghost all = entries_of(document@);
            let ghost outcomes = Seq::new(all.len(), |i: int| recalled(all[i], service@));
            let mut i: usize = 0;
            proof {
                assert(knowledge_of(fragments@) =~= present(outcomes.take(0)));
            }
            while i < entries.len()
                invariant
                    i <= entries@.len(),
                    all == documents(entries@),
                    outcomes == Seq::new(all.len(), |k: int| recalled(all[k], service@)),
                    knowledge_of(fragments@) == present(outcomes.take(i as int)),
                    freshly_stamped(fragments@),
                decreases entries.len() - i,
            {
                let id = MemoryId::new();
                let created_at = Timestamp::now();
                let accessed_at = Timestamp::now();
                let ghost before = fragments@;
                proof {
                    assert(outcomes.take(i + 1).drop_last() =~= outcomes.take(i as int));
                    assert(outcomes.take(i + 1).last() == recalled(entries@[i as int]@, service@));
                }
                if let Some(fragment) = fragment_from_entry(
                    &entries[i],
                    service,
                    id,
                    created_at,
                    accessed_at,
                ) {
                    fragments.push(fragment);
                    proof {
                        assert(knowledge_of(fragments@) =~= knowledge_of(before).push(
                            fragment@.knowledge,
                        ));
                    }
                }
                i += 1;
            }
            proof {
                assert(outcomes.take(i as int) =~= outcomes);
            }
        },
    }
    fragments
}

/// Configuration of one external memory service.
#[derive(Debug)]
pub struct McpMemoryServiceConfig {
    /// Human-readable name.
    pub name: String,
    /// Base URL of the service, with or without slashes at its end.
    pub mcp_url: String,
    /// Time limit of a request, in milliseconds.
    pub timeout_ms: u64,
    /// Rank in the fallback chain; a lower rank comes first.
    pub rank: u32,
}

/// The URL of an endpoint: the base URL without the slashes at its end, and the path.
pub open spec fn endpoint(url: Seq<char>, path: Seq<char>) -> Seq<char> {
    without_trailing(url, '/') + path
}

/// One search of a query: its kind and the text to look for.
pub open spec fn search(kind: Seq<char>, query: Seq<char>) -> JsonView {
    JsonView::Object(seq![("type"@, JsonView::Text(kind)), ("query"@, JsonView::Text(query))])
}

/// The document that asks a service for memories: a semantic search and a keyword
/// search for the same text.
pub open spec fn query_document(query: Seq<char>, limit: nat) -> JsonView {
    JsonView::Object(
        seq![
            ("searches"@, JsonView::Array(seq![search("vec"@, query), search("lex"@, query)])),
            ("limit"@, JsonView::Number(decimal_numeral(limit))),
        ],
    )
}

/// The title of a memory: at most sixty characters of the first line of its content.
pub open spec fn title_of(content: Seq<char>) -> Seq<char> {
    match first_line_of(content) {
        Some(line) => at_most(line, 60),
        None => "Memory Fragment"@,
    }
}

/// A memory as a document in Markdown, with the given texts for the confidence in it
/// and for the time of its creation.
pub open spec fn markdown_of(
    told: Knowledge,
    confidence: Seq<char>,
    created: Seq<char>,
) -> Seq<char> {
    "# "@ + title_of(told.content) + "\n\n**Agent**: "@ + hyphenated(told.agent_id.0)
        + "\n**Source**: "@ + source_name(told.source) + "\n**Scope**: "@ + told.scope
        + "\n**Confidence**: "@ + confidence + "\n**Created**: "@ + created + "\n\n"@ + told.content
        + "\n"@
}

/// A memory as a document in Markdown, with the given text for the confidence in it.
pub open spec fn markdown(fragment: FragmentView, confidence: Seq<char>) -> Seq<char> {
    markdown_of(fragment.knowledge, confidence, created_text(fragment))
}

/// The time of a memory's creation as text.
pub open spec fn created_text(fragment: FragmentView) -> Seq<char> {
    rfc3339_text(fragment.created_at@.0, fragment.created_at@.1)
}

/// Where a service keeps the document of a memory: by agent, then by month, under the
/// memory's identifier.
pub open spec fn path_of(agent_id: AgentId, month: Seq<char>, id: MemoryId) -> Seq<char> {
    hyphenated(agent_id.0) + "/"@ + month + "/"@ + hyphenated(id.0) + ".md"@
}

/// Where a service keeps the document of a memory: by agent, then by the month of
/// its creation, under its identifier.
pub open spec fn memory_path(fragment: FragmentView) -> Seq<char> {
    path_of(fragment.knowledge.agent_id, utc_month_text(fragment.created_at@.0), fragment.id)
}

/// The document that hands a memory over to a service: where to keep it, its document
/// in Markdown and the time of its creation.
pub open spec fn ingest_of(path: Seq<char>, content: Seq<char>, created: Seq<char>) -> JsonView {
    JsonView::Object(
        seq![
            ("collection"@, JsonView::Text("openfang-memories"@)),
            ("path"@, JsonView::Text(path)),
            ("content"@, JsonView::Text(content)),
            ("created_at"@, JsonView::Text(created)),
        ],
    )
}

/// The document that hands a memory over to a service, with the given text for the
/// confidence in it.
pub open spec fn ingest_document(fragment: FragmentView, confidence: Seq<char>) -> JsonView {
    ingest_of(memory_path(fragment), markdown(fragment, confidence), created_text(fragment))
}

/// Writes a memory as a document in Markdown, with the given texts for the confidence
/// in it and for the time of its creation.
pub fn markdown_document(f: &MemoryFragment, confidence: &str, created: &str) -> (document: String)
    ensures
        document@ == markdown_of(f@.knowledge, confidence@, created@),
{
    let title: &str = match first_line(f.content.as_str()) {
        Some(line) => first_chars(line, 60),
        None => "Memory Fragment",
    };
    let agent: String = f.agent_id.to_text();
    let mut document: String = "# ".to_owned();
    document.append(title);
    document.append("\n\n**Agent**: ");
    document.append(agent.as_str());
    document.append("\n**Source**: ");
    document.append(f.source.name());
    document.append("\n**Scope**: ");
    document.append(f.scope.as_str());
    document.append("\n**Confidence**: ");
    document.append(confidence);
    document.append("\n**Created**: ");
    document.append(created);
    document.append("\n\n");
    document.append(f.content.as_str());
    document.append("\n");
    document
}

/// Writes a memory as a document in Markdown. The confidence in it is given as the
/// text to show.
pub fn format_fragment_as_markdown(f: &MemoryFragment, confidence: &str) -> (document: String)
    ensures
        document@ == markdown(f@, confidence@),
{
    let created: String = f.created_at.to_rfc3339();
    markdown_document(f, confidence, created.as_str())
}

/// Where a service keeps the document of a memory, with the given text for the month
/// of its creation.
pub fn path_in_month(f: &MemoryFragment, month: &str) -> (path: String)
    ensures
        path@ == path_of(f.agent_id, month@, f.id),
{
    let id: String = f.id.to_text();
    let mut path: String = f.agent_id.to_text();
    path.append("/");
    path.append(month);
    path.append("/");
    path.append(id.as_str());
    path.append(".md");
    path
}

/// Where a service keeps the document of a memory.
pub fn fragment_path(f: &MemoryFragment) -> (path: String)
    ensures
        path@ == memory_path(f@),
{
    let month: String = f.created_at.year_month();
    path_in_month(f, month.as_str())
}

/// The document that hands a memory over to a service.
pub fn ingest_body(path: String, content: String, created: String) -> (body: Json)
    ensures
        body@ == ingest_of(path@, content@, created@),
{
    let mut members: Vec<(String, Json)> = Vec::new();
    members.push(("collection".to_owned(), Json::text("openfang-memories")));
    members.push(("path".to_owned(), Json::Text(path)));
    members.push(("content".to_owned(), Json::Text(content)));
    members.push(("created_at".to_owned(), Json::Text(created)));
    proof {
        assert(named_documents(members@) =~= ingest_of(path@, content@, created@)->Object_0);
    }
    Json::object(members)
}

/// One external memory service.
pub struct McpMemoryBackend {
    /// Human-readable name.
    pub name: String,
    /// Rank in the fallback chain.
    pub rank: u32,
    /// Time limit of a request, in milliseconds.
    pub timeout_ms: u64,
    /// The URL that queries are posted to.
    pub query_endpoint: String,
    /// The URL that memories are posted to.
    pub ingest_endpoint: String,
    /// The URL that tells whether the service is up.
    pub health_endpoint: String,
}

impl Clone for McpMemoryBackend {
    fn clone(&self) -> (copy: McpMemoryBackend)
        ensures
            copy == *self,
    {
        McpMemoryBackend {
            name: self.name.clone(),
            rank: self.rank,
            timeout_ms: self.timeout_ms,
            query_endpoint: self.query_endpoint.clone(),
            ingest_endpoint: self.ingest_endpoint.clone(),
            health_endpoint: self.health_endpoint.clone(),
        }
    }
}

/// The URL of an endpoint: a base URL that was trimmed, and a path.
fn join(base: &str, path: &str) -> (url: String)
    ensures
        url@ == base@ + path@,
{
    let mut url: String = base.to_owned();
    url.append(path);
    url
}

/// One search of a query.
fn search_json(kind: &str, query: &str) -> (json: Json)
    ensures
        json@ == search(kind@, query@),
{
    let mut members: Vec<(String, Json)> = Vec::new();
    members.push(("type".to_owned(), Json::text(kind)));
    members.push(("query".to_owned(), Json::text(query)));
    proof {
        assert(named_documents(members@) =~= search(kind@, query@)->Object_0);
    }
    Json::object(members)
}

impl McpMemoryBackend {
    /// The service that a configuration describes.
    pub fn new(cfg: &McpMemoryServiceConfig) -> (backend: McpMemoryBackend)
        ensures
            backend.name@ == cfg.name@,
            backend.rank == cfg.rank,
            backend.timeout_ms == cfg.timeout_ms,
            backend.query_endpoint@ == endpoint(cfg.mcp_url@, "/query"@),
            backend.ingest_endpoint@ == endpoint(cfg.mcp_url@, "/ingest"@),
            backend.health_endpoint@ == endpoint(cfg.mcp_url@, "/health"@),
    {
        let base = trim_trailing(cfg.mcp_url.as_str(), '/');
        McpMemoryBackend {
            name: cfg.name.clone(),
            rank: cfg.rank,
            timeout_ms: cfg.timeout_ms,
            query_endpoint: join(base, "/query"),
            ingest_endpoint: join(base, "/ingest"),
            health_endpoint: join(base, "/health"),
        }
    }

    /// The URL that tells whether the service is up.
    pub fn health_endpoint(&self) -> (url: &str)
        ensures
            url@ == self.health_endpoint@,
    {
        self.health_endpoint.as_str()
    }

    /// The request that asks the service for memories on `query`, at most `limit` of them.
    pub fn query_request(&self, query: &str, limit: usize) -> (request: Request)
        ensures
            request.url@ == self.query_endpoint@,
            request.body@ == query_document(query@, limit as nat),
    {
        let mut searches: Vec<Json> = Vec::new();
        searches.push(search_json("vec", query));
        searches.push(search_json("lex", query));
        let mut members: Vec<(String, Json)> = Vec::new();
        proof {
            assert(documents(searches@) =~= seq![search("vec"@, query@), search("lex"@, query@)]);
        }
        members.push(("searches".to_owned(), Json::array(searches)));
        members.push(("limit".to_owned(), Json::Number(decimal(limit))));
        proof {
            assert(named_documents(members@) =~= query_document(query@, limit as nat)->Object_0);
        }
        Request { url: self.query_endpoint.clone(), body: Json::object(members) }
    }

    /// What a query comes to, given how the exchange went.
    ///
    /// `None` means that the next rank is to be tried: the service was not reached, did
    /// not answer to the end in time, or reported an error status. `Some` ends the chain,
    /// also where the service found nothing or its answer holds nothing that can be read.
    pub fn query_reply(&self, exchange: &Exchange) -> (reply: Option<Vec<MemoryFragment>>)
        ensures
            reply is Some <==> exchange.accepted() && exchange.received() is Some,
            reply matches Some(fragments) ==> knowledge_of(fragments@) == recalled_all(
                answered_entries(exchange.received()->0),
                self.name@,
            ),
            reply matches Some(fragments) ==> freshly_stamped(fragments@),
    {
        if !exchange.is_accepted() {
            return None;
        }
        match exchange.body() {
            None => None,
            Some(bytes) => match parse_document(bytes) {
                None => {
                    let nothing: Vec<MemoryFragment> = Vec::new();
                    proof {
                        assert(knowledge_of(nothing@) =~= recalled_all(seq![], self.name@));
                    }
                    Some(nothing)
                },
                Some(document) => Some(fragments_from_answer(&document, self.name.as_str())),
            },
        }
    }

    /// The request that hands a memory over to the service. The confidence in it is given
    /// as the text to show.
    pub fn push_request(&self, fragment: &MemoryFragment, confidence: &str) -> (request: Request)
        ensures
            request.url@ == self.ingest_endpoint@,
            request.body@ == ingest_document(fragment@, confidence@),
    {
        let path: String = fragment_path(fragment);
        let content: String = format_fragment_as_markdown(fragment, confidence);
        let created: String = fragment.created_at.to_rfc3339();
        Request { url: self.ingest_endpoint.clone(), body: ingest_body(path, content, created) }
    }

    /// Whether the service took the memory, given how the exchange went. Where it did
    /// not, the memory is to be kept and pushed again later.
    pub fn push_reply(&self, exchange: &Exchange) -> (accepted: bool)
        ensures
            accepted == exchange.accepted(),
    {
        exchange.is_accepted()
    }
}

/// Slashes at the end of a base URL make no difference to its endpoints.
pub proof fn law_trailing_slashes_do_not_matter(url: Seq<char>, slashes: nat, path: Seq<char>)
    ensures
        endpoint(url + run_of('/', slashes), path) == endpoint(url, path),
{
    law_trailing_run_is_ignored(url, '/', slashes);
}

/// A service reads the text to look for, once for each kind of search, and the limit
/// out of the document that it is sent.
pub proof fn law_query_is_readable(query: Seq<char>, limit: nat)
    ensures
        query_document(query, limit) matches JsonView::Object(members) && members.len() == 2,
        query_document(query, limit).get_number("limit"@) matches Some(numeral) && {
            &&& is_decimal(numeral)
            &&& decimal_value(numeral) == limit
        },
        query_document(query, limit).get_number("limit"@) == Some(decimal_numeral(limit)),
        query_document(query, limit).get_array("searches"@) matches Some(searches) && {
            &&& searches.len() == 2
            &&& searches[0].get_text("type"@) == Some("vec"@)
            &&& searches[1].get_text("type"@) == Some("lex"@)
            &&& searches[0].get_text("query"@) == Some(query)
            &&& searches[1].get_text("query"@) == Some(query)
            &&& searches[0] matches JsonView::Object(members) && members.len() == 2
            &&& searches[1] matches JsonView::Object(members) && members.len() == 2
        },
{
    law_numeral_reads_back(limit);
    reveal_strlit("limit");
    reveal_strlit("searches");
    reveal_strlit("type");
    reveal_strlit("query");
    reveal_with_fuel(member, 3);
    assert("limit"@.len() != "searches"@.len());
    assert("type"@.len() != "query"@.len());
}

/// An entry becomes a fragment exactly where it has a title or a snippet. The content
/// of the fragment then begins with the title, ends with the snippet, and is not empty.
/// Between the two stand two line feeds where both are there, and nothing else.
pub proof fn law_usable_entries_are_kept(entry: JsonView, service: Seq<char>)
    ensures
        ({
            let title = text_of(entry, "title"@);
            let snippet = text_of(entry, "snippet"@);
            &&& recalled(entry, service) is Some <==> title.len() > 0 || snippet.len() > 0
            &&& recalled(entry, service) matches Some(told) ==> {
                &&& told.content.len() > 0
                &&& title.is_prefix_of(told.content)
                &&& snippet.is_suffix_of(told.content)
                &&& title.len() == 0 || snippet.len() == 0 ==> told.content.len() == title.len()
                    + snippet.len()
                &&& title.len() > 0 && snippet.len() > 0 ==> {
                    &&& told.content.len() == title.len() + 2 + snippet.len()
                    &&& told.content[title.len() as int] == '\n'
                    &&& told.content[title.len() as int + 1] == '\n'
                }
            }
        }),
{
    reveal_strlit("\n\n");
    let title = text_of(entry, "title"@);
    let snippet = text_of(entry, "snippet"@);
    if let Some(told) = recalled(entry, service) {
        let content = told.content;
        assert(title =~= content.subrange(0, title.len() as int));
        assert(snippet =~= content.subrange(content.len() - snippet.len(), content.len() as int));
    }
}

/// Whatever an entry holds, the fragment that it becomes is a document that belongs to
/// no agent and was not read yet. It names the file, the document and the service that
/// it came from.
pub proof fn law_recalled_knowledge_is_shared(entry: JsonView, service: Seq<char>)
    ensures
        recalled(entry, service) matches Some(told) ==> {
            &&& told.agent_id == AgentId(0)
            &&& told.source == MemorySource::Document
            &&& told.embedding is None
            &&& told.access_count == 0
            &&& told.scope == "mcp"@
            &&& told.metadata.len() == 3
            &&& member(told.metadata, "source_path"@) == Some(
                JsonView::Text(text_of(entry, "file"@)),
            )
            &&& member(told.metadata, "docid"@) == Some(JsonView::Text(text_of(entry, "docid"@)))
            &&& member(told.metadata, "mcp_service"@) == Some(JsonView::Text(service))
        },
{
    reveal_strlit("source_path");
    reveal_strlit("docid");
    reveal_strlit("mcp_service");
    reveal_with_fuel(member, 4);
    assert("source_path"@.len() != "docid"@.len());
    assert("docid"@.len() != "mcp_service"@.len());
    assert("source_path"@[0] != "mcp_service"@[0]);
}

/// Entries become fragments one by one: the answer to two lists put together is the
/// two answers put together, and there are never more fragments than entries.
pub proof fn law_entries_are_independent(
    first: Seq<JsonView>,
    second: Seq<JsonView>,
    service: Seq<char>,
)
    ensures
        recalled_all(first + second, service) == recalled_all(first, service) + recalled_all(
            second,
            service,
        ),
        recalled_all(first, service).len() <= first.len(),
{
    let a = Seq::new(first.len(), |i: int| recalled(first[i], service));
    let b = Seq::new(second.len(), |i: int| recalled(second[i], service));
    let both = first + second;
    assert(Seq::new(both.len(), |i: int| recalled(both[i], service)) =~= a + b);
    lemma_present_concat(a, b);
    lemma_present_members(a);
}

/// Every fragment of an answer is what one of its entries becomes.
pub proof fn law_fragments_come_from_entries(entries: Seq<JsonView>, service: Seq<char>, i: int)
    requires
        0 <= i < recalled_all(entries, service).len(),
    ensures
        exists|k: int|
            0 <= k < entries.len() && recalled(#[trigger] entries[k], service) == Some(
                recalled_all(entries, service)[i],
            ),
{
    let outcomes = Seq::new(entries.len(), |k: int| recalled(entries[k], service));
    lemma_present_members(outcomes);
    assert(outcomes.contains(Some(present(outcomes)[i])));
    let k = choose|k: int|
        0 <= k < outcomes.len() && outcomes[k] == Some(present(outcomes)[i]);
    assert(recalled(entries[k], service) == Some(recalled_all(entries, service)[i]));
}

/// The title of a memory is at most sixty characters of one line, and begins its
/// content where there is content. It is cut short of sixty characters only where the
/// line, or the content, ends, and takes in nothing of a line ending. A memory without
/// content has a title of its own.
pub proof fn law_title_is_short(content: Seq<char>)
    ensures
        title_of(content).len() <= 60,
        !title_of(content).contains('\n'),
        content.len() > 0 ==> title_of(content).is_prefix_of(content),
        content.len() == 0 ==> title_of(content) == "Memory Fragment"@,
        ({
            let n = title_of(content).len() as int;
            0 < n < content.len() && content[n] == '\n' ==> content[n - 1] != '\r'
        }),
        content.len() > 0 && title_of(content).len() < 60 ==> {
            let n = title_of(content).len() as int;
            ||| n == content.len()
            ||| content[n] == '\n'
            ||| n + 1 < content.len() && content[n] == '\r' && content[n + 1] == '\n'
        },
{
    reveal_strlit("Memory Fragment");
    law_first_line_is_one_line(content);
    if let Some(line) = first_line_of(content) {
        let title = title_of(content);
        assert(title =~= content.subrange(0, title.len() as int));
        assert forall|i: int| 0 <= i < title.len() implies title[i] != '\n' by {
            assert(line.contains(line[i]));
        }
        if title.len() < line.len() {
            assert(line.contains(line[title.len() as int]));
        }
    }
}

/// The first line of a memory's document is its title as a heading. A title that ends
/// with a carriage return is left out: in front of the line feed it would count as part
/// of the line's ending.
pub proof fn law_document_begins_with_title(fragment: FragmentView, confidence: Seq<char>)
    requires
        title_of(fragment.knowledge.content).len() > 0 ==> title_of(
            fragment.knowledge.content,
        ).last() != '\r',
    ensures
        first_line_of(markdown(fragment, confidence)) == Some(
            "# "@ + title_of(fragment.knowledge.content),
        ),
{
    reveal_strlit("# ");
    reveal_strlit("\n\n**Agent**: ");
    let title = title_of(fragment.knowledge.content);
    let document = markdown(fragment, confidence);
    let end = 2 + title.len() as int;
    law_title_is_short(fragment.knowledge.content);
    assert(document[0] == '#' && document[1] == ' ');
    assert(document[end] == '\n');
    assert(document.take(end) =~= "# "@ + title);
    assert forall|i: int| 0 <= i < end implies document[i] != '\n' by {
        assert(document[i] == document.take(end)[i]);
        if i >= 2 {
            assert(title.contains(title[i - 2]));
        }
    }
    assert(title.len() > 0 ==> document[end - 1] == title.last());
    lemma_line_end_at(document, end);
}

/// The document of a memory ends with the whole content of the memory and a line feed.
pub proof fn law_document_ends_with_content(fragment: FragmentView, confidence: Seq<char>)
    ensures
        (fragment.knowledge.content + "\n"@).is_suffix_of(markdown(fragment, confidence)),
{
    let document = markdown(fragment, confidence);
    let ending = fragment.knowledge.content + "\n"@;
    assert(ending =~= document.subrange(document.len() - ending.len(), document.len() as int));
}

/// A service reads the place, the document and the time of creation of a memory out
/// of the document that hands it over, and nothing else. The time is that of the creation,
/// whenever the memory was read since, and however often.
pub proof fn law_ingest_is_readable(fragment: FragmentView, confidence: Seq<char>)
    ensures
        ({
            let document = ingest_document(fragment, confidence);
            let (seconds, nanos) = fragment.created_at@;
            &&& document.get_text("collection"@) == Some("openfang-memories"@)
            &&& document.get_text("path"@) == Some(memory_path(fragment))
            &&& document.get_text("content"@) == Some(markdown(fragment, confidence))
            &&& document.get_text("created_at"@) == Some(created_text(fragment))
            &&& document.get_text("created_at"@) == Some(rfc3339_text(seconds, nanos))
            &&& document matches JsonView::Object(members) && members.len() == 4
        }),
{
    reveal_strlit("collection");
    reveal_strlit("path");
    reveal_strlit("content");
    reveal_strlit("created_at");
    reveal_with_fuel(member, 5);
    assert("collection"@.len() != "path"@.len());
    assert("collection"@.len() != "content"@.len());
    assert("path"@.len() != "content"@.len());
    assert("path"@.len() != "created_at"@.len());
    assert("content"@.len() != "created_at"@.len());
    assert("collection"@[1] != "created_at"@[1]);
}

/// Two memories are kept in one place exactly where they are one memory of one agent,
/// created in one month of Coordinated Universal Time.
pub proof fn law_paths_tell_memories_apart(a: FragmentView, b: FragmentView)
    ensures
        memory_path(a) == memory_path(b) <==> {
            &&& a.id == b.id
            &&& a.knowledge.agent_id == b.knowledge.agent_id
            &&& month_of(utc_day(a.created_at@.0)) == month_of(utc_day(b.created_at@.0))
        },
{
    reveal_strlit("/");
    reveal_strlit(".md");
    let p = memory_path(a);
    let q = memory_path(b);
    let agent_a = a.knowledge.agent_id.0;
    let agent_b = b.knowledge.agent_id.0;
    law_id_text_is_injective(agent_a, agent_b);
    law_id_text_is_injective(agent_b, agent_a);
    law_id_text_is_injective(a.id.0, b.id.0);
    law_id_text_is_injective(b.id.0, a.id.0);
    if p == q {
        let n = p.len() as int;
        assert(p.subrange(0, 36) =~= hyphenated(agent_a));
        assert(q.subrange(0, 36) =~= hyphenated(agent_b));
        assert(p.subrange(n - 39, n - 3) =~= hyphenated(a.id.0));
        assert(q.subrange(n - 39, n - 3) =~= hyphenated(b.id.0));
        assert(p.subrange(37, n - 40) =~= utc_month_text(a.created_at@.0));
        assert(q.subrange(37, n - 40) =~= utc_month_text(b.created_at@.0));
        let (year_a, month_a) = month_of(utc_day(a.created_at@.0));
        let (year_b, month_b) = month_of(utc_day(b.created_at@.0));
        law_day_lies_in_one_month(utc_day(a.created_at@.0), year_a, month_a);
        law_day_lies_in_one_month(utc_day(b.created_at@.0), year_b, month_b);
        law_month_text_is_injective(year_a, month_a, year_b, month_b);
    }
}

/// Whatever a memory of an agent comes to say, it is kept in the same place.
pub proof fn law_edits_keep_the_path(fragment: FragmentView, told: Knowledge)
    requires
        told.agent_id == fragment.knowledge.agent_id,
    ensures
        memory_path(FragmentView { knowledge: told, ..fragment }) == memory_path(fragment),
{
}

/// The score of a fragment is the number that its entry gives, whatever else the entry
/// holds, and one half only where it gives none.
pub proof fn law_recall_keeps_the_score(entry: JsonView, service: Seq<char>)
    ensures
        recalled(entry, service) matches Some(told) ==> {
            &&& entry.get_number("score"@) matches Some(numeral) ==> told.score == numeral
            &&& entry.get_number("score"@) is None ==> told.score == "0.5"@
        },
{
}

/// The fragments of an answer are those of the entries whose title or snippet is a text
/// that is not empty: one for each of these, in their order, and no other.
pub proof fn law_answer_is_its_usable_entries(entries: Seq<JsonView>, service: Seq<char>)
    ensures
        ({
            let usable = entries.filter(
                |entry: JsonView|
                    (entry.get_text("title"@) matches Some(title) && title.len() > 0) || (
                    entry.get_text("snippet"@) matches Some(snippet) && snippet.len() > 0),
            );
            let all = recalled_all(entries, service);
            &&& all.len() == usable.len()
            &&& forall|i: int|
                0 <= i < usable.len() ==> recalled(#[trigger] usable[i], service) == Some(all[i])
        }),
{
    lemma_present_of_kept(
        entries,
        |entry: JsonView| recalled(entry, service),
        |entry: JsonView|
            (entry.get_text("title"@) matches Some(title) && title.len() > 0) || (entry.get_text(
                "snippet"@,
            ) matches Some(snippet) && snippet.len() > 0),
    );
    assert(Seq::new(
        entries.len(),
        |i: int| (|entry: JsonView| recalled(entry, service))(entries[i]),
    ) =~= Seq::new(entries.len(), |i: int| recalled(entries[i], service)));
}

/// The entries of an answer are all the items of the array under `results`, as they are.
/// There are none where nothing of that name is an array, or the bytes are no document.
pub proof fn law_entries_are_the_results(bytes: Seq<u8>)
    ensures
        parsed_document(bytes) is None ==> answered_entries(bytes).len() == 0,
        parsed_document(bytes) matches Some(document) ==> {
            &&& answered_entries(bytes) == entries_of(document)
            &&& document.get("results"@) matches Some(JsonView::Array(items)) ==> entries_of(
                document,
            ) == items
            &&& !(document.get("results"@) matches Some(JsonView::Array(_))) ==> entries_of(
                document,
            ).len() == 0
        },
{
}

/// The endpoint of a base URL that does not end with a slash is the URL and the path,
/// however long they are. Slashes at the end of the base URL make no difference.
pub proof fn law_endpoint_is_base_and_path(base: Seq<char>, slashes: nat, path: Seq<char>)
    requires
        base.len() > 0 ==> base.last() != '/',
    ensures
        endpoint(base, path) == base + path,
        endpoint(base + Seq::new(slashes, |i: int| '/'), path) == base + path,
{
    law_trailing_slashes_do_not_matter(base, slashes, path);
    assert(run_of('/', slashes) =~= Seq::new(slashes, |i: int| '/'));
}

/// Five texts that follow each other can be read off one after the other.
proof fn lemma_five_lines(
    a: Seq<char>,
    b: Seq<char>,
    c: Seq<char>,
    d: Seq<char>,
    e: Seq<char>,
    rest: Seq<char>,
)
    ensures
        ({
            let all = a + b + c + d + e + rest;
            let after_a = all.skip(a.len() as int);
            let after_b = after_a.skip(b.len() as int);
            let after_c = after_b.skip(c.len() as int);
            let after_d = after_c.skip(d.len() as int);
            &&& a.is_prefix_of(all)
            &&& b.is_prefix_of(after_a)
            &&& c.is_prefix_of(after_b)
            &&& d.is_prefix_of(after_c)
            &&& e.is_prefix_of(after_d)
            &&& after_d.skip(e.len() as int) == rest
        }),
{
    let all = a + b + c + d + e + rest;
    let after_a = all.skip(a.len() as int);
    let after_b = after_a.skip(b.len() as int);
    let after_c = after_b.skip(c.len() as int);
    let after_d = after_c.skip(d.len() as int);
    assert(after_a =~= b + c + d + e + rest);
    assert(after_b =~= c + d + e + rest);
    assert(after_c =~= d + e + rest);
    assert(after_d =~= e + rest);
    assert(after_d.skip(e.len() as int) =~= rest);
    assert(a =~= all.subrange(0, a.len() as int));
    assert(b =~= after_a.subrange(0, b.len() as int));
    assert(c =~= after_b.subrange(0, c.len() as int));
    assert(d =~= after_c.subrange(0, d.len() as int));
    assert(e =~= after_d.subrange(0, e.len() as int));
}

/// Read from its front, a document of a memory is the title as a heading, an empty line, a
/// line for each of agent, source, scope, confidence and creation that shows just that,
/// an empty line, and the content with a line feed at its end. So it is whatever the
/// memory holds and wherever it comes from.
pub proof fn law_document_shows_each_field(
    told: Knowledge,
    confidence: Seq<char>,
    created: Seq<char>,
)
    ensures
        ({
            let document = markdown_of(told, confidence, created);
            let heading = "# "@ + title_of(told.content) + "\n\n"@;
            let agent = "**Agent**: "@ + hyphenated(told.agent_id.0) + "\n"@;
            let source = "**Source**: "@ + source_name(told.source) + "\n"@;
            let scope = "**Scope**: "@ + told.scope + "\n"@;
            let sureness = "**Confidence**: "@ + confidence + "\n"@;
            let creation = "**Created**: "@ + created + "\n"@;
            let block = document.skip(heading.len() as int);
            let after_agent = block.skip(agent.len() as int);
            let after_source = after_agent.skip(source.len() as int);
            let after_scope = after_source.skip(scope.len() as int);
            let after_sureness = after_scope.skip(sureness.len() as int);
            &&& heading.is_prefix_of(document)
            &&& agent.is_prefix_of(block)
            &&& source.is_prefix_of(after_agent)
            &&& scope.is_prefix_of(after_source)
            &&& sureness.is_prefix_of(after_scope)
            &&& creation.is_prefix_of(after_sureness)
            &&& after_sureness.skip(creation.len() as int) == "\n"@ + told.content + "\n"@
        }),
{
    reveal_strlit("\n");
    reveal_strlit("\n\n");
    reveal_strlit("**Agent**: ");
    reveal_strlit("**Source**: ");
    reveal_strlit("**Scope**: ");
    reveal_strlit("**Confidence**: ");
    reveal_strlit("**Created**: ");
    reveal_strlit("\n\n**Agent**: ");
    reveal_strlit("\n**Source**: ");
    reveal_strlit("\n**Scope**: ");
    reveal_strlit("\n**Confidence**: ");
    reveal_strlit("\n**Created**: ");
    let document = markdown_of(told, confidence, created);
    let heading = "# "@ + title_of(told.content) + "\n\n"@;
    let agent = "**Agent**: "@ + hyphenated(told.agent_id.0) + "\n"@;
    let source = "**Source**: "@ + source_name(told.source) + "\n"@;
    let scope = "**Scope**: "@ + told.scope + "\n"@;
    let sureness = "**Confidence**: "@ + confidence + "\n"@;
    let creation = "**Created**: "@ + created + "\n"@;
    let rest = "\n"@ + told.content + "\n"@;
    assert("\n\n**Agent**: "@ =~= "\n\n"@ + "**Agent**: "@);
    assert("\n**Source**: "@ =~= "\n"@ + "**Source**: "@);
    assert("\n**Scope**: "@ =~= "\n"@ + "**Scope**: "@);
    assert("\n**Confidence**: "@ =~= "\n"@ + "**Confidence**: "@);
    assert("\n**Created**: "@ =~= "\n"@ + "**Created**: "@);
    assert("\n\n"@ =~= "\n"@ + "\n"@);
    let block = agent + source + scope + sureness + creation + rest;
    assert(document =~= heading + block);
    assert(heading =~= document.subrange(0, heading.len() as int));
    assert(document.skip(heading.len() as int) =~= block);
    lemma_five_lines(agent, source, scope, sureness, creation, rest);
}

/// The document of a memory, and what hands it over, show the text of its creation, not of
/// its last reading. Memories that agree in agent, content, source, scope and creation have
/// one document; with one identifier they are handed over alike. When they were read, how
/// often, their metadata, embedding and score make no difference.
pub proof fn law_only_what_is_shown_matters(
    a: FragmentView,
    b: FragmentView,
    confidence: Seq<char>,
)
    requires
        a.created_at == b.created_at,
        a.knowledge.agent_id == b.knowledge.agent_id,
        a.knowledge.content == b.knowledge.content,
        a.knowledge.source == b.knowledge.source,
        a.knowledge.scope == b.knowledge.scope,
    ensures
        markdown(a, confidence) == markdown(b, confidence),
        markdown(a, confidence) == markdown_of(
            a.knowledge,
            confidence,
            rfc3339_text(a.created_at@.0, a.created_at@.1),
        ),
        a.id == b.id ==> ingest_document(a, confidence) == ingest_document(b, confidence),
{
}

/// A service reads each of the texts that a memory is handed over with under its name, and
/// nothing else.
pub proof fn law_ingest_keeps_the_given_texts(
    path: Seq<char>,
    content: Seq<char>,
    created: Seq<char>,
)
    ensures
        ({
            let document = ingest_of(path, content, created);
            &&& document.get_text("collection"@) == Some("openfang-memories"@)
            &&& document.get_text("path"@) == Some(path)
            &&& document.get_text("content"@) == Some(content)
            &&& document.get_text("created_at"@) == Some(created)
            &&& document matches JsonView::Object(members) && members.len() == 4
        }),
{
    reveal_strlit("collection");
    reveal_strlit("path");
    reveal_strlit("content");
    reveal_strlit("created_at");
    reveal_with_fuel(member, 5);
    assert("collection"@.len() != "path"@.len());
    assert("collection"@.len() != "content"@.len());
    assert("path"@.len() != "content"@.len());
    assert("path"@.len() != "created_at"@.len());
    assert("content"@.len() != "created_at"@.len());
    assert("collection"@[1] != "created_at"@[1]);
}

/// The place of a memory is three steps: the agent, then the given month, then the memory's
/// identifier with the ending of a Markdown file.
pub proof fn law_path_goes_by_agent_month_and_id(
    agent_id: AgentId,
    month: Seq<char>,
    id: MemoryId,
)
    ensures
        ({
            let path = path_of(agent_id, month, id);
            let n = path.len() as int;
            &&& n == 36 + 1 + month.len() + 1 + 36 + 3
            &&& path.take(36) == hyphenated(agent_id.0)
            &&& path[36] == '/'
            &&& path.subrange(37, n - 40) == month
            &&& path[n - 40] == '/'
            &&& path.subrange(n - 39, n - 3) == hyphenated(id.0)
            &&& path.skip(n - 3) == ".md"@
        }),
{
    reveal_strlit("/");
    reveal_strlit(".md");
    law_id_text_is_injective(agent_id.0, agent_id.0);
    law_id_text_is_injective(id.0, id.0);
    let path = path_of(agent_id, month, id);
    let n = path.len() as int;
    assert(path.take(36) =~= hyphenated(agent_id.0));
    assert(path.subrange(37, n - 40) =~= month);
    assert(path.subrange(n - 39, n - 3) =~= hyphenated(id.0));
    assert(path.skip(n - 3) =~= ".md"@);
}

/// A memory is kept under its own agent and identifier, in the month that the day of its
/// creation lies in.
pub proof fn law_memory_is_kept_in_its_month(fragment: FragmentView, year: int, month: int)
    requires
        in_month(fragment.created_at@.0 as int / 86_400, year, month),
    ensures
        memory_path(fragment) == path_of(
            fragment.knowledge.agent_id,
            month_text(year, month),
            fragment.id,
        ),
{
    law_day_lies_in_one_month(utc_day(fragment.created_at@.0), year, month);
}

}
