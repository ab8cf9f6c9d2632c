//! Memory corroboration: a direct ranked search over the repository's recorded memories, with no
//! model involved. Retrieval and ranking live in the index; what is asked of it, and what its answer
//! is held to, is here.

use vstd::prelude::*;
use vstd::string::StringExecFns;

use crate::error::NodeError;
use crate::text;
use crate::tools::Argument;
use crate::tools::ArgumentView;
use crate::tools::ToolRequest;

verus! {

broadcast use vstd::string::group_string_axioms;

/// The most of the query text, in bytes, that is sent to a search.
pub const MAX_QUERY_CHARS: usize = 2000;

/// How many memories a search asks for.
pub const MEMORY_LIMIT: u32 = 10;

/// The tool that searches the memories.
pub const MEMORY_SEARCH: &'static str = "memory_search";

/// Input to the memory node: the issue plus what narrows it, used as the search query.
#[derive(Clone, Debug)]
pub struct MemoryInput {
    pub issue: String,
    pub context: String,
}

/// One repo memory the ranking returned.
#[derive(Clone, Debug)]
pub struct MemoryRecord {
    pub memory_id: String,
    pub kind: String,
    pub title: String,
    pub confidence: String,
    pub status: String,
    /// Full body, when the index hands it out.
    pub body: String,
    /// Compacted summary, when the index hands that out instead.
    pub summary: Option<String>,
}

impl MemoryRecord {
    /// What a memory says: its summary where there is one, else its body.
    pub open spec fn detail(self) -> Seq<char> {
        match self.summary {
            Some(summary) => summary@,
            None => self.body@,
        }
    }

    /// What a memory says: its summary where there is one, else its body.
    pub fn text(&self) -> (r: &str)
        ensures
            r@ == self.detail(),
    {
        match &self.summary {
            Some(summary) => summary.as_str(),
            None => self.body.as_str(),
        }
    }
}

/// The ranked memories.
#[derive(Clone, Debug)]
pub struct MemoryOutput {
    pub memories: Vec<MemoryRecord>,
}

impl Default for MemoryOutput {
    fn default() -> (r: MemoryOutput)
        ensures
            r.memories@.len() == 0,
    {
        MemoryOutput { memories: Vec::new() }
    }
}

/// The query a search is made with: the issue and what narrows it, cut back to what is sent.
pub fn search_query(issue: &str, context: &str) -> (r: String)
    ensures
        text::clipped(issue@ + "\n"@ + context@, MAX_QUERY_CHARS as int, r@),
        text::byte_len(r@) <= 2000,
        text::byte_len(issue@ + "\n"@ + context@) <= 2000 ==> r@ == issue@ + "\n"@ + context@,
{
    let mut query = issue.to_owned();
    query.append("\n");
    query.append(context);
    text::clip(query.as_str(), MAX_QUERY_CHARS)
}

/// The search as it is made: its tool, the query, and how many memories it asks for.
pub fn search_request(issue: &str, context: &str) -> (r: ToolRequest)
    ensures
        r.tool@ == MEMORY_SEARCH@,
        r.arguments@.len() == 2,
        r.arguments@[0].0@ == "query"@,
        r.arguments@[0].1 matches Argument::Text(query) && text::clipped(
            issue@ + "\n"@ + context@,
            MAX_QUERY_CHARS as int,
            query@,
        ),
        r.arguments@[1].0@ == "limit"@,
        r.arguments@[1].1@ == ArgumentView::Number(MEMORY_LIMIT as int),
        r.arguments@[1].1@ == ArgumentView::Number(10),
{
    ToolRequest {
        tool: MEMORY_SEARCH,
        arguments: vec![
            ("query", Argument::Text(search_query(issue, context))),
            ("limit", Argument::Number(MEMORY_LIMIT)),
        ],
    }
}

/// What a search that was answered comes to: the JSON the memories are read from, or why there is
/// none.
pub open spec fn answered(said: Seq<char>, is_error: bool, result: Result<String, NodeError>) -> bool {
    if is_error {
        result matches Err(NodeError::Failed(why)) && why@ == "memory_search returned an error: "@
            + said
    } else {
        wrapped(said, result)
    }
}

/// A bare JSON array as the object the memories are read from; nothing at all is an error.
pub open spec fn wrapped(array_json: Seq<char>, result: Result<String, NodeError>) -> bool {
    let trimmed = text::trimmed(array_json);
    if trimmed.len() == 0 {
        result matches Err(NodeError::Failed(why)) && why@
            == "memory_search returned no content (is rag-rat running with `--json`?)"@
    } else {
        result matches Ok(json) && json@ == "{\"memories\":"@ + trimmed + "}"@
    }
}

/// Takes a search's answer: the parts of its text, and whether it says it is an error.
pub fn search_result(parts: &[String], is_error: bool) -> (r: Result<String, NodeError>)
    ensures
        answered(text::joined(text::views(parts@), ""@), is_error, r),
{
    let said = text::join(parts, "");
    if is_error {
        let mut m = "memory_search returned an error: ".to_owned();
        m.append(said.as_str());
        return Err(NodeError::Failed(m));
    }
    wrap_memory_result(said.as_str())
}

/// Wrap a search's bare JSON array as `{"memories": [...]}`, the shape it is read in.
pub fn wrap_memory_result(array_json: &str) -> (r: Result<String, NodeError>)
    ensures
        wrapped(array_json@, r),
{
    let trimmed = text::trim(array_json);
    if trimmed.as_str().is_empty() {
        return Err(
            NodeError::Failed(
                "memory_search returned no content (is rag-rat running with `--json`?)".to_owned(),
            ),
        );
    }
    let mut json = "{\"memories\":".to_owned();
    json.append(trimmed.as_str());
    json.append("}");
    Ok(json)
}

/// The failure of a search that could not be made.
pub fn search_failed(error: &str) -> (r: NodeError)
    ensures
        r matches NodeError::Failed(why) && why@ == "memory_search call failed: "@ + error@,
{
    let mut m = "memory_search call failed: ".to_owned();
    m.append(error);
    NodeError::Failed(m)
}

/// A search came to something exactly where it was no error and said more than white space; and then
/// it is what was said, without the space around it, as the memories of an object.
pub proof fn a_search_comes_to_what_was_said(
    said: Seq<char>,
    is_error: bool,
    result: Result<String, NodeError>,
)
    requires
        answered(said, is_error, result),
    ensures
        result is Ok <==> !is_error && !text::blank(said),
        result is Ok ==> result->Ok_0@ == "{\"memories\":"@ + text::trimmed(said) + "}"@,
        is_error ==> result->Err_0 is Failed && result->Err_0->Failed_0@
            == "memory_search returned an error: "@ + said,
{
}

/// What a memory says is its summary where it has one, whatever its body is, and its body otherwise.
pub proof fn a_summary_stands_for_its_body(memory: MemoryRecord)
    ensures
        memory.summary is Some ==> memory.detail() == memory.summary->0@,
        memory.summary is None ==> memory.detail() == memory.body@,
{
}

/// A search that found something is that, but for the space around it, under the memories' own name;
/// one that found no text at all is a failure, and so is one the index refused.
pub proof fn a_search_is_wrapped_whole(found: Seq<char>, result: Result<String, NodeError>)
    requires
        wrapped(found, result),
    ensures
        result is Err <==> text::blank(found),
        result is Err ==> result->Err_0 is Failed,
        result is Ok ==> result->Ok_0@ == "{\"memories\":"@ + text::trimmed(found) + "}"@,
{
}

} // verus!
