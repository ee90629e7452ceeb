//! A qmd server that is queried over its MCP endpoint.
use crate::fragment::{
    entry_score, entry_text, freshly_stamped, knowledge_of, lemma_present_concat,
    lemma_present_members, lemma_present_of_kept, present, score_of, shared_knowledge, text_of,
    Knowledge, MemoryFragment, MemorySource,
};
use crate::http::{Exchange, Request};
use crate::ids::{AgentId, MemoryId};
use crate::json::{
    documents, json_from_value, member, named_documents, parse_list, parsed_document, parsed_list,
    value_contents, value_from_slice, Json, JsonView,
};
use crate::text::{
    decimal, decimal_numeral, decimal_value, is_decimal, law_numeral_reads_back,
};
use crate::time::Timestamp;
use vstd::prelude::*;

verus! {

/// Configuration for connecting to a running qmd MCP server.
#[derive(Debug)]
pub struct QmdConfig {
    /// Base URL of the server, such as `"http://127.0.0.1:7384"`.
    pub base_url: String,
    /// Time limit of a request, in milliseconds.
    pub timeout_ms: u64,
}

impl Default for QmdConfig {
    fn default() -> (config: QmdConfig)
        ensures
            config.base_url@ == "http://127.0.0.1:7384"@,
            config.timeout_ms == 2000,
    {
        QmdConfig { base_url: "http://127.0.0.1:7384".to_owned(), timeout_ms: 2000 }
    }
}

impl Clone for QmdConfig {
    fn clone(&self) -> (copy: QmdConfig)
        ensures
            copy == *self,
    {
        QmdConfig { base_url: self.base_url.clone(), timeout_ms: self.timeout_ms }
    }
}

/// The document that calls the `query` tool of a server.
pub open spec fn call_document(query: Seq<char>, limit: nat) -> JsonView {
    JsonView::Object(
        seq![
            ("jsonrpc"@, JsonView::Text("2.0"@)),
            ("id"@, JsonView::Number("1"@)),
            ("method"@, JsonView::Text("tools/call"@)),
            (
                "params"@,
                JsonView::Object(
                    seq![
                        ("name"@, JsonView::Text("query"@)),
                        (
                            "arguments"@,
                            JsonView::Object(
                                seq![
                                    ("query"@, JsonView::Text(query)),
                                    ("limit"@, JsonView::Number(decimal_numeral(limit))),
                                ],
                            ),
                        ),
                    ],
                ),
            ),
        ],
    )
}

/// One step of a pointer into a document: the member of that name of an object, or
/// the first item of an array where the step is `0`.
pub open spec fn pointer_step(document: Option<JsonView>, step: Seq<char>) -> Option<JsonView> {
    match document {
        Some(JsonView::Object(members)) => member(members, step),
        Some(JsonView::Array(items)) => if step == "0"@ && items.len() > 0 {
            Some(items[0])
        } else {
            None
        },
        _ => None,
    }
}

/// The part of a server's answer that holds the listing, at `/result/content/0/text`.
pub open spec fn listing_node(document: JsonView) -> Option<JsonView> {
    pointer_step(
        pointer_step(pointer_step(pointer_step(Some(document), "result"@), "content"@), "0"@),
        "text"@,
    )
}

/// The text of a listing: that of its node, or an empty list where it has no text.
pub open spec fn listing_text(node: Option<JsonView>) -> Seq<char> {
    match node {
        Some(JsonView::Text(text)) => text,
        _ => "[]"@,
    }
}

/// The entries that a listing names; none where it is not a list in JSON.
pub open spec fn listed_entries(text: Seq<char>) -> Seq<JsonView> {
    match parsed_list(text) {
        Some(entries) => entries,
        None => seq![],
    }
}

/// The entries of the answer that an exchange brought; none where it brought no JSON document.
pub open spec fn answered_entries(exchange: &Exchange) -> Seq<JsonView> {
    match exchange.received() {
        Some(bytes) => match parsed_document(bytes) {
            Some(document) => listed_entries(listing_text(listing_node(document))),
            None => seq![],
        },
        None => seq![],
    }
}

/// What the fragment says that an entry of a listing becomes. An entry whose content
/// is no text becomes none.
pub open spec fn recalled(entry: JsonView) -> Option<Knowledge> {
    match entry.get_text("content"@) {
        Some(content) => Some(
            shared_knowledge(
                content,
                seq![
                    ("source_path"@, JsonView::Text(text_of(entry, "path"@))),
                    ("backend"@, JsonView::Text("qmd"@)),
                ],
                score_of(entry),
                "qmd"@,
            ),
        ),
        None => None,
    }
}

/// What the fragments say that a list of entries becomes.
pub open spec fn recalled_all(entries: Seq<JsonView>) -> Seq<Knowledge> {
    present(Seq::new(entries.len(), |i: int| recalled(entries[i])))
}

/// At most the first `limit` of what the entries of a listing become.
pub open spec fn recalled_up_to(entries: Seq<JsonView>, limit: nat) -> Seq<Knowledge> {
    let all = recalled_all(entries);
    if all.len() <= limit {
        all
    } else {
        all.take(limit as int)
    }
}

/// `serde_json::Value::pointer`, with the pointer to the listing of a server's answer.
/// It descends step by step: in an object to the member of that name, in an array to
/// the item of that number. What it finds is handed out as a copy.
#[verifier::external_body]
fn value_at(value: &serde_json::Value, pointer: &str) -> (found: Option<serde_json::Value>)
    requires
        pointer@ == "/result/content/0/text"@,
    ensures
        match found {
            Some(node) => listing_node(value_contents(*value)) == Some(value_contents(node)),
            None => listing_node(value_contents(*value)) is None,
        },
{
    value.pointer(pointer).cloned()
}

/// The text of a listing: that of its node, or an empty list where it has no text.
pub fn listing_of(node: Option<Json>) -> (text: String)
    ensures
        text@ == listing_text(
            match node {
                Some(json) => Some(json@),
                None => None,
            },
        ),
{
    match node {
        Some(Json::Text(text)) => text,
        _ => "[]".to_owned(),
    }
}

/// The fragment that an entry of a listing becomes, with the identifier and the times
/// given. An entry whose content is no text becomes none.
pub fn fragment_from_entry(
    entry: &Json,
    id: MemoryId,
    created_at: Timestamp,
    accessed_at: Timestamp,
) -> (fragment: Option<MemoryFragment>)
    ensures
        match fragment {
            Some(f) => f@.id == id && f@.created_at == created_at && f@.accessed_at == accessed_at
                && recalled(entry@) == Some(f@.knowledge),
            None => recalled(entry@) is None,
        },
{
    match entry.get_text("content") {
        None => None,
        Some(content) => {
            let mut metadata: Vec<(String, Json)> = Vec::new();
            metadata.push(("source_path".to_owned(), Json::text(entry_text(entry, "path"))));
            metadata.push(("backend".to_owned(), Json::text("qmd")));
            proof {
                assert(named_documents(metadata@) =~= recalled(entry@)->0.metadata);
            }
            let score: String = entry_score(entry).to_owned();
            Some(
                MemoryFragment::from_document(
                    id,
                    created_at,
                    accessed_at,
                    content.to_owned(),
                    metadata,
                    score,
                    "qmd",
                ),
            )
        },
    }
}

/// The fragments that the entries of a listing become, in their order, at most `limit`
/// of them. Each gets a fresh identifier and the time of the clock.
pub fn fragments_from_entries(entries: &Vec<Json>, limit: usize) -> (fragments: Vec<MemoryFragment>)
    ensures
        knowledge_of(fragments@) == recalled_up_to(documents(entries@), limit as nat),
        freshly_stamped(fragments@),
        fragments@.len() <= limit,
{
    let ghost all = documents(entries@);
    let ghost outcomes = Seq::new(all.len(), |i: int| recalled(all[i]));
    let mut fragments: Vec<MemoryFragment> = Vec::new();
    let mut i: usize = 0;
    proof {
        assert(knowledge_of(fragments@) =~= present(outcomes.take(0)));
    }
    while i < entries.len()
        invariant
            i <= entries@.len(),
            all == documents(entries@),
            outcomes == Seq::new(all.len(), |k: int| recalled(all[k])),
            knowledge_of(fragments@) == present(outcomes.take(i as int)),
            freshly_stamped(fragments@),
        decreases entries.len() - i,
    {
        let id = MemoryId::new();
        let created_at = Timestamp::now();
        let accessed_at = Timestamp::now();
        let ghost before = fragments@;
        proof {
            assert(outcomes.take(i + 1).drop_last() =~= outcomes.take(i as int));
            assert(outcomes.take(i + 1).last() == recalled(entries@[i as int]@));
        }
        if let Some(fragment) = fragment_from_entry(&entries[i], id, created_at, accessed_at) {
            fragments.push(fragment);
            proof {
                assert(knowledge_of(fragments@) =~= knowledge_of(before).push(fragment@.knowledge));
            }
        }
        i += 1;
    }
    proof {
        assert(outcomes.take(i as int) =~= outcomes);
    }
    fragments.truncate(limit);
    proof {
        assert(knowledge_of(fragments@) =~= recalled_up_to(all, limit as nat));
    }
    fragments
}

/// A qmd server.
pub struct QmdRecallBackend {
    pub config: QmdConfig,
}

impl Clone for QmdRecallBackend {
    fn clone(&self) -> (copy: QmdRecallBackend)
        ensures
            copy == *self,
    {
        QmdRecallBackend { config: self.config.clone() }
    }
}

impl QmdRecallBackend {
    /// The server that a configuration describes.
    pub fn new(config: QmdConfig) -> (backend: QmdRecallBackend)
        ensures
            backend.config == config,
    {
        QmdRecallBackend { config }
    }

    /// The request that asks the server for memories on `query`, at most `limit` of them.
    pub fn query_request(&self, query: &str, limit: usize) -> (request: Request)
        ensures
            request.url@ == self.config.base_url@ + "/mcp"@,
            request.body@ == call_document(query@, limit as nat),
    {
        let mut url: String = self.config.base_url.clone();
        url.append("/mcp");
        let ghost whole = call_document(query@, limit as nat)->Object_0;
        let ghost inner = whole[3].1->Object_0;
        let mut arguments: Vec<(String, Json)> = Vec::new();
        arguments.push(("query".to_owned(), Json::text(query)));
        arguments.push(("limit".to_owned(), Json::Number(decimal(limit))));
        proof {
            assert(named_documents(arguments@) =~= inner[1].1->Object_0);
        }
        let mut params: Vec<(String, Json)> = Vec::new();
        params.push(("name".to_owned(), Json::text("query")));
        params.push(("arguments".to_owned(), Json::object(arguments)));
        proof {
            assert(named_documents(params@) =~= inner);
        }
        let mut members: Vec<(String, Json)> = Vec::new();
        members.push(("jsonrpc".to_owned(), Json::text("2.0")));
        members.push(("id".to_owned(), Json::Number("1".to_owned())));
        members.push(("method".to_owned(), Json::text("tools/call")));
        members.push(("params".to_owned(), Json::object(params)));
        proof {
            assert(named_documents(members@) =~= whole);
        }
        Request { url, body: Json::object(members) }
    }

    /// The fragments that a query comes to, at most `limit` of them, given how the
    /// exchange went. There are none where no answer came, or none that can be read.
    pub fn query_reply(&self, limit: usize, exchange: &Exchange) -> (fragments: Vec<MemoryFragment>)
        ensures
            knowledge_of(fragments@) == recalled_up_to(answered_entries(exchange), limit as nat),
            freshly_stamped(fragments@),
            fragments@.len() <= limit,
            exchange.received() matches Some(bytes) && parsed_document(bytes) matches Some(document)
                && !(listing_node(document) matches Some(JsonView::Text(_))) ==> fragments@.len()
                == 0,
    {
        let nothing: Vec<Json> = Vec::new();
        proof {
            assert(documents(nothing@) =~= seq![]);
        }
        match exchange.body() {
            None => fragments_from_entries(&nothing, limit),
            Some(bytes) => match value_from_slice(bytes) {
                Err(_) => fragments_from_entries(&nothing, limit),
                Ok(value) => {
                    let node: Option<Json> = match value_at(&value, "/result/content/0/text") {
                        Some(found) => Some(json_from_value(found)),
                        None => None,
                    };
                    let text: String = listing_of(node);
                    match parse_list(text.as_str()) {
                        Some(entries) => fragments_from_entries(&entries, limit),
                        None => fragments_from_entries(&nothing, limit),
                    }
                },
            },
        }
    }
}

/// A server reads the tool to call, the text to look for and the limit out of the
/// document that it is sent.
pub proof fn law_call_is_readable(query: Seq<char>, limit: nat)
    ensures
        ({
            let document = call_document(query, limit);
            &&& document.get_text("jsonrpc"@) == Some("2.0"@)
            &&& document.get_number("id"@) == Some("1"@)
            &&& document.get_text("method"@) == Some("tools/call"@)
            &&& document.get("params"@) matches Some(params) && {
                &&& params.get_text("name"@) == Some("query"@)
                &&& params.get("arguments"@) matches Some(arguments) && {
                    &&& arguments.get_text("query"@) == Some(query)
                    &&& arguments.get_number("limit"@) == Some(decimal_numeral(limit))
                    &&& arguments.get_number("limit"@) matches Some(numeral) && {
                        &&& is_decimal(numeral)
                        &&& decimal_value(numeral) == limit
                    }
                    &&& arguments matches JsonView::Object(members) && members.len() == 2
                }
                &&& params matches JsonView::Object(members) && members.len() == 2
            }
            &&& document matches JsonView::Object(members) && members.len() == 4
        }),
{
    law_numeral_reads_back(limit);
    reveal_strlit("jsonrpc");
    reveal_strlit("id");
    reveal_strlit("method");
    reveal_strlit("params");
    reveal_strlit("name");
    reveal_strlit("arguments");
    reveal_strlit("query");
    reveal_strlit("limit");
    reveal_with_fuel(member, 5);
    assert("jsonrpc"@.len() != "id"@.len());
    assert("jsonrpc"@.len() != "method"@.len());
    assert("jsonrpc"@.len() != "params"@.len());
    assert("id"@.len() != "method"@.len());
    assert("id"@.len() != "params"@.len());
    assert("method"@[0] != "params"@[0]);
    assert("name"@.len() != "arguments"@.len());
    assert("query"@[0] != "limit"@[0]);
}

/// Without an answer nothing is recalled.
pub proof fn law_no_answer_recalls_nothing(exchange: Exchange, limit: nat)
    requires
        exchange.received() is None,
    ensures
        recalled_up_to(answered_entries(&exchange), limit) == Seq::<Knowledge>::empty(),
{
}

/// An entry becomes a fragment exactly where its content is a text, and the content of
/// the fragment is that text. The fragment is a document that belongs to no agent and
/// was not read yet. It names the file and the kind of server that it came from.
pub proof fn law_recalled_knowledge_is_shared(entry: JsonView)
    ensures
        recalled(entry) is Some <==> entry.get_text("content"@) is Some,
        recalled(entry) matches Some(told) ==> {
            &&& entry.get_text("content"@) == Some(told.content)
            &&& told.agent_id == AgentId(0)
            &&& told.source == MemorySource::Document
            &&& told.embedding is None
            &&& told.access_count == 0
            &&& told.scope == "qmd"@
            &&& told.metadata.len() == 2
            &&& member(told.metadata, "source_path"@) == Some(
                JsonView::Text(text_of(entry, "path"@)),
            )
            &&& member(told.metadata, "backend"@) == Some(JsonView::Text("qmd"@))
        },
{
    reveal_strlit("source_path");
    reveal_strlit("backend");
    reveal_with_fuel(member, 3);
    assert("source_path"@.len() != "backend"@.len());
}

/// At most `limit` fragments are recalled, and no more than there are entries. A
/// greater limit recalls the same fragments first.
pub proof fn law_limit_bounds_the_recall(entries: Seq<JsonView>, limit: nat, greater: nat)
    requires
        limit <= greater,
    ensures
        recalled_up_to(entries, limit).len() <= limit,
        recalled_up_to(entries, limit).len() <= entries.len(),
        recalled_up_to(entries, limit).is_prefix_of(recalled_up_to(entries, greater)),
{
    lemma_present_members(Seq::new(entries.len(), |i: int| recalled(entries[i])));
    let few = recalled_up_to(entries, limit);
    let more = recalled_up_to(entries, greater);
    assert(few =~= more.subrange(0, few.len() as int));
}

/// Entries become fragments one by one: what two lists put together become is what
/// the first becomes, followed by what the second becomes.
pub proof fn law_entries_are_independent(first: Seq<JsonView>, second: Seq<JsonView>)
    ensures
        recalled_all(first + second) == recalled_all(first) + recalled_all(second),
{
    let a = Seq::new(first.len(), |i: int| recalled(first[i]));
    let b = Seq::new(second.len(), |i: int| recalled(second[i]));
    let both = first + second;
    assert(Seq::new(both.len(), |i: int| recalled(both[i])) =~= a + b);
    lemma_present_concat(a, b);
}

/// Every fragment of a recall is what one of the entries becomes.
pub proof fn law_fragments_come_from_entries(entries: Seq<JsonView>, limit: nat, i: int)
    requires
        0 <= i < recalled_up_to(entries, limit).len(),
    ensures
        exists|k: int|
            0 <= k < entries.len() && recalled(#[trigger] entries[k]) == Some(
                recalled_up_to(entries, limit)[i],
            ),
{
    let outcomes = Seq::new(entries.len(), |k: int| recalled(entries[k]));
    lemma_present_members(outcomes);
    assert(recalled_up_to(entries, limit)[i] == present(outcomes)[i]);
    assert(outcomes.contains(Some(present(outcomes)[i])));
    let k = choose|k: int|
        0 <= k < outcomes.len() && outcomes[k] == Some(present(outcomes)[i]);
    assert(recalled(entries[k]) == Some(recalled_up_to(entries, limit)[i]));
}

/// The score of a fragment is the number that its entry gives, whatever else the entry
/// holds, and one half only where it gives none.
pub proof fn law_recall_keeps_the_score(entry: JsonView)
    ensures
        recalled(entry) matches Some(told) ==> {
            &&& entry.get_number("score"@) matches Some(numeral) ==> told.score == numeral
            &&& entry.get_number("score"@) is None ==> told.score == "0.5"@
        },
{
}

/// The entries of a listing whose content is a text become a fragment each, in their order,
/// and no other does. As many of these fragments come back as the limit allows: all of them
/// where it is not exceeded, and else the first `limit`.
pub proof fn law_recall_is_as_much_as_the_limit_allows(entries: Seq<JsonView>, limit: nat)
    ensures
        ({
            let usable = entries.filter(|entry: JsonView| entry.get_text("content"@) is Some);
            let all = recalled_all(entries);
            let recall = recalled_up_to(entries, limit);
            &&& all.len() == usable.len()
            &&& usable.len() <= limit ==> recall == all
            &&& usable.len() > limit ==> recall.len() == limit
            &&& recall.len() <= usable.len()
            &&& forall|i: int|
                0 <= i < recall.len() ==> recalled(#[trigger] usable[i]) == Some(recall[i])
        }),
{
    let keep = |entry: JsonView| entry.get_text("content"@) is Some;
    let outcome = |entry: JsonView| recalled(entry);
    lemma_present_of_kept(entries, outcome, keep);
    assert(Seq::new(entries.len(), |i: int| outcome(entries[i])) =~= Seq::new(
        entries.len(),
        |i: int| recalled(entries[i]),
    ));
    let usable = entries.filter(keep);
    let recall = recalled_up_to(entries, limit);
    assert forall|i: int| 0 <= i < recall.len() implies recalled(#[trigger] usable[i]) == Some(
        recall[i],
    ) by {
        assert(outcome(usable[i]) == Some(recalled_all(entries)[i]));
    }
}

/// The listing of an answer stands under `text`, in the first item of the array under
/// `content`, in what stands under `result`. Where an object stands in place of the array,
/// its member `0` is taken for the first item. Anywhere else there is no listing.
pub proof fn law_listing_stands_in_the_first_content(document: JsonView)
    ensures
        document.get("result"@) is None ==> listing_node(document) is None,
        document.get("result"@) matches Some(result) ==> {
            &&& result.get("content"@) matches Some(JsonView::Array(items)) ==> listing_node(
                document,
            ) == if items.len() > 0 {
                items[0].get("text"@)
            } else {
                None
            }
            &&& result.get("content"@) matches Some(JsonView::Object(members)) ==> listing_node(
                document,
            ) == match member(members, "0"@) {
                Some(first) => first.get("text"@),
                None => None,
            }
            &&& !(result.get("content"@) matches Some(JsonView::Array(_))) && !(result.get(
                "content"@,
            ) matches Some(JsonView::Object(_))) ==> listing_node(document) is None
        },
{
    reveal_strlit("0");
    reveal_strlit("result");
    reveal_strlit("content");
    reveal_strlit("text");
    assert("0"@.len() != "result"@.len());
    assert("0"@.len() != "content"@.len());
    assert("0"@.len() != "text"@.len());
}

/// The entries of an answer are all those that its listing names, as they are, whatever the
/// status of the response. There are none where nothing was received, where what was
/// received is no document, and where the listing is no list.
pub proof fn law_entries_are_those_listed(exchange: Exchange)
    ensures
        exchange.received() is None ==> answered_entries(&exchange).len() == 0,
        exchange.received() matches Some(bytes) ==> {
            &&& parsed_document(bytes) is None ==> answered_entries(&exchange).len() == 0
            &&& parsed_document(bytes) matches Some(document) ==> {
                let text = match listing_node(document) {
                    Some(JsonView::Text(listing)) => listing,
                    _ => "[]"@,
                };
                &&& parsed_list(text) matches Some(entries) ==> answered_entries(&exchange)
                    == entries
                &&& parsed_list(text) is None ==> answered_entries(&exchange).len() == 0
            }
        },
{
}

}
