//! Memory fragments: what they hold, and how a document of an external service becomes one.
use crate::ids::{is_random_id, AgentId, MemoryId};
use crate::json::{named_documents, Json, JsonView};
use crate::time::{is_clock_time, Timestamp};
use vstd::prelude::*;

verus! {

/// Where a memory comes from.
#[derive(Debug, Clone, Copy, PartialEq, Eq, Structural)]
pub enum MemorySource {
    Conversation,
    Document,
    System,
}

/// The name of a source, as documents show it.
pub open spec fn source_name(source: MemorySource) -> Seq<char> {
    match source {
        MemorySource::Conversation => "Conversation"@,
        MemorySource::Document => "Document"@,
        MemorySource::System => "System"@,
    }
}

impl MemorySource {
    /// The name of the source, as documents show it.
    pub fn name(&self) -> (name: &'static str)
        ensures
            name@ == source_name(*self),
    {
        match self {
            MemorySource::Conversation => "Conversation",
            MemorySource::Document => "Document",
            MemorySource::System => "System",
        }
    }
}

/// One piece of memory.
#[derive(Debug)]
pub struct MemoryFragment {
    pub id: MemoryId,
    pub agent_id: AgentId,
    pub content: String,
    /// The bit patterns of the embedding's components, where there is an embedding.
    pub embedding: Option<Vec<u32>>,
    pub metadata: Vec<(String, Json)>,
    pub source: MemorySource,
    /// The score as a decimal numeral. The confidence in the memory is this number,
    /// narrowed to single precision and clamped to the unit interval.
    pub score: String,
    pub created_at: Timestamp,
    pub accessed_at: Timestamp,
    pub access_count: u64,
    pub scope: String,
}

/// What a fragment says, apart from the identifier and the times it was given.
pub struct Knowledge {
    pub agent_id: AgentId,
    pub content: Seq<char>,
    pub embedding: Option<Seq<u32>>,
    pub metadata: Seq<(Seq<char>, JsonView)>,
    pub source: MemorySource,
    pub score: Seq<char>,
    pub access_count: u64,
    pub scope: Seq<char>,
}

/// The mathematical content of a [`MemoryFragment`].
pub struct FragmentView {
    pub id: MemoryId,
    pub created_at: Timestamp,
    pub accessed_at: Timestamp,
    pub knowledge: Knowledge,
}

impl View for MemoryFragment {
    type V = FragmentView;

    open spec fn view(&self) -> FragmentView {
        FragmentView {
            id: self.id,
            created_at: self.created_at,
            accessed_at: self.accessed_at,
            knowledge: Knowledge {
                agent_id: self.agent_id,
                content: self.content@,
                embedding: match self.embedding {
                    Some(components) => Some(components@),
                    None => None,
                },
                metadata: named_documents(self.metadata@),
                source: self.source,
                score: self.score@,
                access_count: self.access_count,
                scope: self.scope@,
            },
        }
    }
}

/// What each fragment of a list says.
pub open spec fn knowledge_of(fragments: Seq<MemoryFragment>) -> Seq<Knowledge> {
    Seq::new(fragments.len(), |i: int| fragments[i]@.knowledge)
}

/// Whether every fragment of a list has an identifier drawn at random and times that
/// a clock can show.
pub open spec fn freshly_stamped(fragments: Seq<MemoryFragment>) -> bool {
    forall|i: int|
        0 <= i < fragments.len() ==> {
            &&& is_random_id((#[trigger] fragments[i]).id.0)
            &&& is_clock_time(fragments[i].created_at)
            &&& is_clock_time(fragments[i].accessed_at)
        }
}

/// What a fragment says that holds a document of an external service. Such a service
/// offers knowledge that is shared, so the fragment belongs to no agent.
pub open spec fn shared_knowledge(
    content: Seq<char>,
    metadata: Seq<(Seq<char>, JsonView)>,
    score: Seq<char>,
    scope: Seq<char>,
) -> Knowledge {
    Knowledge {
        agent_id: AgentId(0),
        content,
        embedding: None,
        metadata,
        source: MemorySource::Document,
        score,
        access_count: 0,
        scope,
    }
}

impl MemoryFragment {
    /// The fragment that holds a document of an external service.
    pub fn from_document(
        id: MemoryId,
        created_at: Timestamp,
        accessed_at: Timestamp,
        content: String,
        metadata: Vec<(String, Json)>,
        score: String,
        scope: &str,
    ) -> (fragment: MemoryFragment)
        ensures
            fragment@ == (FragmentView {
                id,
                created_at,
                accessed_at,
                knowledge: shared_knowledge(
                    content@,
                    named_documents(metadata@),
                    score@,
                    scope@,
                ),
            }),
    {
        MemoryFragment {
            id,
            agent_id: AgentId::nil(),
            content,
            embedding: None,
            metadata,
            source: MemorySource::Document,
            score,
            created_at,
            accessed_at,
            access_count: 0,
            scope: scope.to_owned(),
        }
    }
}

/// The score of an entry as its decimal numeral; one half where the entry gives no number.
pub open spec fn score_of(entry: JsonView) -> Seq<char> {
    match entry.get_number("score"@) {
        Some(numeral) => numeral,
        None => "0.5"@,
    }
}

/// The text of the named member of an entry; empty where the entry gives no text.
pub open spec fn text_of(entry: JsonView, name: Seq<char>) -> Seq<char> {
    match entry.get_text(name) {
        Some(text) => text,
        None => seq![],
    }
}

/// The score of an entry as its decimal numeral; one half where the entry gives no number.
pub fn entry_score(entry: &Json) -> (numeral: &str)
    ensures
        numeral@ == score_of(entry@),
{
    match entry.get_number("score") {
        Some(numeral) => numeral,
        None => "0.5",
    }
}

/// The text of the named member of an entry; empty where the entry gives no text.
pub fn entry_text<'a>(entry: &'a Json, name: &str) -> (text: &'a str)
    ensures
        text@ == text_of(entry@, name@),
{
    match entry.get_text(name) {
        Some(text) => text,
        None => {
            proof {
                reveal_strlit("");
            }
            ""
        },
    }
}

/// The values that are there, in their order.
pub open spec fn present<A>(s: Seq<Option<A>>) -> Seq<A>
    decreases s.len(),
{
    if s.len() == 0 {
        seq![]
    } else {
        match s.last() {
            Some(a) => present(s.drop_last()).push(a),
            None => present(s.drop_last()),
        }
    }
}

/// No more values are present than there are places, and each of them stands at some place.
pub proof fn lemma_present_members<A>(s: Seq<Option<A>>)
    ensures
        present(s).len() <= s.len(),
        forall|i: int|
            0 <= i < present(s).len() ==> s.contains(Some(#[trigger] present(s)[i])),
    decreases s.len(),
{
    if s.len() > 0 {
        let front = s.drop_last();
        lemma_present_members(front);
        assert forall|i: int| 0 <= i < present(s).len() implies s.contains(
            Some(#[trigger] present(s)[i]),
        ) by {
            if i < present(front).len() {
                let k = choose|k: int| 0 <= k < front.len() && front[k] == Some(present(front)[i]);
                assert(s[k] == Some(present(s)[i]));
            } else {
                assert(s[s.len() - 1] == Some(present(s)[i]));
            }
        }
    }
}

/// The values present in two lists put together are those of the first, followed by
/// those of the second.
pub proof fn lemma_present_concat<A>(s: Seq<Option<A>>, t: Seq<Option<A>>)
    ensures
        present(s + t) == present(s) + present(t),
    decreases t.len(),
{
    if t.len() == 0 {
        assert(s + t =~= s);
        assert(present(s) + present(t) =~= present(s));
    } else {
        lemma_present_concat(s, t.drop_last());
        assert((s + t).drop_last() =~= s + t.drop_last());
        assert(present(s + t) =~= present(s) + present(t));
    }
}

/// Every source is shown by its own name.
pub proof fn law_sources_go_by_their_names(source: MemorySource)
    ensures
        source is Conversation <==> source_name(source) == "Conversation"@,
        source is Document <==> source_name(source) == "Document"@,
        source is System <==> source_name(source) == "System"@,
{
    reveal_strlit("Conversation");
    reveal_strlit("Document");
    reveal_strlit("System");
    assert("Conversation"@.len() == 12 && "Document"@.len() == 8 && "System"@.len() == 6);
}

/// Of a list of fragments nothing is left out and nothing changed: what each of them says
/// is what it holds, in its place.
pub proof fn law_fragments_say_what_they_hold(fragments: Seq<MemoryFragment>, i: int)
    requires
        0 <= i < fragments.len(),
    ensures
        knowledge_of(fragments).len() == fragments.len(),
        ({
            let f = fragments[i];
            let told = knowledge_of(fragments)[i];
            &&& told.agent_id == f.agent_id
            &&& told.content == f.content@
            &&& told.embedding is None <==> f.embedding is None
            &&& f.embedding matches Some(components) ==> told.embedding == Some(components@)
            &&& told.metadata.len() == f.metadata@.len()
            &&& forall|k: int|
                0 <= k < f.metadata@.len() ==> #[trigger] told.metadata[k] == (
                    f.metadata@[k].0@,
                    f.metadata@[k].1@,
                )
            &&& told.source == f.source
            &&& told.score == f.score@
            &&& told.access_count == f.access_count
            &&& told.scope == f.scope@
            &&& f@.knowledge == told
            &&& f@.id == f.id
            &&& f@.created_at == f.created_at
            &&& f@.accessed_at == f.accessed_at
        }),
{
}

/// Fragments that are freshly stamped carry the marks of an identifier drawn at random in
/// their bits, and times since the start of the year 1970.
pub proof fn law_fresh_stamps(fragments: Seq<MemoryFragment>, i: int)
    requires
        freshly_stamped(fragments),
        0 <= i < fragments.len(),
    ensures
        (fragments[i].id.0 >> 76) & 0xf == 4,
        (fragments[i].id.0 >> 62) & 0x3 == 2,
        fragments[i].created_at@.0 >= 0,
        fragments[i].created_at@.1 < 1_000_000_000,
        fragments[i].accessed_at@.0 >= 0,
        fragments[i].accessed_at@.1 < 1_000_000_000,
{
    let id: u128 = fragments[i].id.0;
    assert(is_random_id(id));
    assert((id / 0x1000_0000_0000_0000_0000) % 16 == 4 ==> (id >> 76) & 0xf == 4) by (bit_vector);
    assert((id / 0x4000_0000_0000_0000) % 4 == 2 ==> (id >> 62) & 0x3 == 2) by (bit_vector);
}

/// A document of an external service is knowledge that belongs to no agent and was not
/// read yet. Its content, metadata, score and scope are kept as they are.
pub proof fn law_shared_knowledge_keeps_what_it_is_given(
    content: Seq<char>,
    metadata: Seq<(Seq<char>, JsonView)>,
    score: Seq<char>,
    scope: Seq<char>,
)
    ensures
        ({
            let told = shared_knowledge(content, metadata, score, scope);
            &&& told.content == content
            &&& told.metadata == metadata
            &&& told.score == score
            &&& told.scope == scope
            &&& told.agent_id.0 == 0
            &&& told.source is Document
            &&& told.embedding is None
            &&& told.access_count == 0
        }),
{
}

/// The score of an entry is the number that the entry gives, whatever else it holds, and
/// one half only where it gives none.
pub proof fn law_score_is_the_given_number(entry: JsonView, numeral: Seq<char>)
    ensures
        entry.get("score"@) == Some(JsonView::Number(numeral)) ==> score_of(entry) == numeral,
        !(entry.get("score"@) matches Some(JsonView::Number(_))) ==> score_of(entry) == "0.5"@,
{
}

/// The text of a member is the text that the entry gives, whatever else it holds, and
/// empty only where it gives none.
pub proof fn law_text_is_the_given_text(entry: JsonView, name: Seq<char>, text: Seq<char>)
    ensures
        entry.get(name) == Some(JsonView::Text(text)) ==> text_of(entry, name) == text,
        !(entry.get(name) matches Some(JsonView::Text(_))) ==> text_of(entry, name).len() == 0,
{
}

/// One more place at the end adds its value at the end where there is one, and changes
/// nothing where there is none.
pub proof fn law_present_values_keep_their_order<A>(s: Seq<Option<A>>, a: A)
    ensures
        present(Seq::<Option<A>>::empty()).len() == 0,
        present(s.push(Some(a))) == present(s).push(a),
        present(s.push(None)) == present(s),
{
    assert(s.push(Some(a)).drop_last() =~= s);
    assert(s.push(None).drop_last() =~= s);
}

/// Where each item that is kept becomes one value and the others become none, the values
/// are those of the items kept, one for each, in their order.
pub proof fn lemma_present_of_kept<E, A>(
    items: Seq<E>,
    outcome: spec_fn(E) -> Option<A>,
    keep: spec_fn(E) -> bool,
)
    requires
        forall|e: E| (#[trigger] outcome(e)) is Some <==> keep(e),
    ensures
        ({
            let values = present(Seq::new(items.len(), |i: int| outcome(items[i])));
            let kept = items.filter(keep);
            &&& values.len() == kept.len()
            &&& forall|i: int|
                0 <= i < kept.len() ==> outcome(#[trigger] kept[i]) == Some(values[i])
        }),
    decreases items.len(),
{
    reveal(Seq::filter);
    if items.len() > 0 {
        let front = items.drop_last();
        lemma_present_of_kept(front, outcome, keep);
        let outcomes = Seq::new(items.len(), |i: int| outcome(items[i]));
        assert(outcomes.drop_last() =~= Seq::new(front.len(), |i: int| outcome(front[i])));
        assert(outcomes.last() == outcome(items.last()));
        let kept = items.filter(keep);
        let values = present(outcomes);
        assert forall|i: int| 0 <= i < kept.len() implies outcome(#[trigger] kept[i]) == Some(
            values[i],
        ) by {
            if i < front.filter(keep).len() {
                assert(kept[i] == front.filter(keep)[i]);
            }
        }
    }
}

}
