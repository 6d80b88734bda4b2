//! The prompts of requests.
use crate::api::types::{
    ChatMessage, ChatRequest, EditPayload, JsonSchemaFormat, NextEditPayload, ResponseFormat,
    MERCURY_EDIT_MODEL,
};
use crate::api::types;
use crate::json::Json;
use crate::text::chars::{concat3, own};
use crate::text::find;
use vstd::prelude::*;
use vstd::string::*;

verus! {

/// What a model is asked for when it assesses code.
pub const THERMAL_ANALYSIS_PROMPT: &'static str = "You are a code analysis agent in the Mercury CLI swarm.\nAnalyze the provided code and return a thermal assessment as JSON.\nYour assessment must include:\n- complexity_score (0-1): cyclomatic complexity normalized\n- dependency_score (0-1): coupling density\n- risk_score (0-1): likelihood of bugs or regressions\n- churn_score (0-1): rate of recent changes\n- suggested_action: one of [\\\"lock\\\", \\\"refactor\\\", \\\"test\\\", \\\"monitor\\\", \\\"ignore\\\"]\n- reasoning: brief explanation\nRespond ONLY with valid JSON, no markdown, no preamble.";

/// A text inside its tag.
pub open spec fn tagged(tag: Seq<char>, content: Seq<char>) -> Seq<char> {
    "<|"@ + tag + "|>\n"@ + content + "\n<|/"@ + tag + "|>"@
}

/// Puts a text inside its tag.
pub fn wrap_tag(tag: &str, content: &str) -> (r: String)
    ensures
        r@ == tagged(tag@, content@),
{
    let mut r = concat3("<|", tag, "|>\n");
    r.append(content);
    r.append("\n<|/");
    r.append(tag);
    r.append("|>");
    r
}

/// The prompt that applies a snippet to a code region.
pub open spec fn apply_prompt(original: Seq<char>, update: Seq<char>) -> Seq<char> {
    tagged("original_code"@, original) + "\n\n"@ + tagged("update_snippet"@, update)
}

/// The prompt that applies a snippet to a code region.
pub fn format_apply_prompt(payload: &EditPayload) -> (r: String)
    ensures
        r@ == apply_prompt(payload.original_code@, payload.update_snippet@),
{
    concat3(
        wrap_tag("original_code", payload.original_code.as_str()).as_str(),
        "\n\n",
        wrap_tag("update_snippet", payload.update_snippet.as_str()).as_str(),
    )
}

/// The prompt that asks for the next edit of a file.
pub open spec fn next_edit_prompt(path: Seq<char>, p: NextEditPayload) -> Seq<char> {
    tagged("recently_viewed_code_snippets"@, p.recent_snippets@) + "\n\n"@ + tagged(
        "current_file_content"@,
        "current_file_path: "@ + path + "\n"@ + p.file_content@ + "\n"@ + tagged(
            "code_to_edit"@,
            p.code_to_edit@ + "\n"@ + tagged("cursor"@, p.cursor@),
        ),
    ) + "\n\n"@ + tagged("edit_diff_history"@, p.edit_history@)
}

/// The prompt that asks for the next edit of a file.
pub fn format_next_edit_prompt(current_file_path: &str, payload: &NextEditPayload) -> (r: String)
    ensures
        r@ == next_edit_prompt(current_file_path@, *payload),
{
    let region = concat3(
        payload.code_to_edit.as_str(),
        "\n",
        wrap_tag("cursor", payload.cursor.as_str()).as_str(),
    );
    let mut file = concat3("current_file_path: ", current_file_path, "\n");
    file.append(payload.file_content.as_str());
    file.append("\n");
    file.append(wrap_tag("code_to_edit", region.as_str()).as_str());
    let mut out = wrap_tag("recently_viewed_code_snippets", payload.recent_snippets.as_str());
    out.append("\n\n");
    out.append(wrap_tag("current_file_content", file.as_str()).as_str());
    out.append("\n\n");
    out.append(wrap_tag("edit_diff_history", payload.edit_history.as_str()).as_str());
    out
}

/// Whether a request is one message to the edit model.
pub open spec fn is_edit_request(r: ChatRequest, content: Seq<char>, max_tokens: u32) -> bool {
    &&& r.model@ == "mercury-edit"@
    &&& types::messages_view(r.messages@) == seq![("user"@, content)]
    &&& r.max_tokens == max_tokens
    &&& r.response_format is None
    &&& r.reasoning_effort is None
    &&& r.tools is None
    &&& r.tool_choice is None
}

fn edit_request(content: String, max_tokens: u32) -> (r: ChatRequest)
    ensures
        is_edit_request(r, content@, max_tokens),
{
    let r = ChatRequest {
        model: own(MERCURY_EDIT_MODEL),
        messages: vec![ChatMessage { role: own("user"), content }],
        max_tokens,
        response_format: None,
        reasoning_effort: None,
        tools: None,
        tool_choice: None,
    };
    proof {
        assert(types::messages_view(r.messages@) =~= seq![("user"@, content@)]);
    }
    r
}

/// The request that applies a snippet to a code region.
pub fn build_apply_request(payload: &EditPayload) -> (r: ChatRequest)
    ensures
        is_edit_request(
            r,
            apply_prompt(payload.original_code@, payload.update_snippet@),
            payload.max_tokens,
        ),
{
    edit_request(format_apply_prompt(payload), payload.max_tokens)
}

/// The request that asks for the next edit of a file.
pub fn build_next_edit_request(current_file_path: &str, payload: &NextEditPayload) -> (r:
    ChatRequest)
    ensures
        is_edit_request(r, next_edit_prompt(current_file_path@, *payload), 4096),
{
    edit_request(format_next_edit_prompt(current_file_path, payload), 4096)
}

/// The format that holds an answer to a schema.
pub fn strict_json_schema_response_format(name: &str, schema: Json) -> (r: ResponseFormat)
    ensures
        r.kind@ == "json_schema"@,
        r.json_schema.name@ == name@,
        r.json_schema.strict,
        r.json_schema.schema == schema,
{
    ResponseFormat {
        kind: own("json_schema"),
        json_schema: JsonSchemaFormat { name: own(name), strict: true, schema },
    }
}

/// What is wrapped in a tag can be read back: it stands between the marks of the tag.
pub proof fn law_tags_hold_their_content(tag: Seq<char>, content: Seq<char>)
    ensures
        tagged(tag, content).subrange(
            ("<|"@ + tag + "|>\n"@).len() as int,
            ("<|"@ + tag + "|>\n"@ + content).len() as int,
        ) == content,
{
    let head = "<|"@ + tag + "|>\n"@;
    assert(tagged(tag, content).subrange(head.len() as int, (head + content).len() as int)
        =~= content);
}

proof fn lemma_holds_middle(a: Seq<char>, m: Seq<char>, b: Seq<char>)
    ensures
        find::has_text(a + m + b, m),
{
    let s = a + m + b;
    assert(s.subrange(a.len() as int, a.len() as int + m.len()) =~= m);
    assert(find::occurs_at(s, m, a.len() as int));
}

proof fn lemma_holds_more(a: Seq<char>, m: Seq<char>, b: Seq<char>, t: Seq<char>)
    requires
        find::has_text(m, t),
    ensures
        find::has_text(a + m + b, t),
{
    let s = a + m + b;
    let i = choose|i: int| find::occurs_at(m, t, i);
    assert(s.subrange(a.len() + i, a.len() + i + t.len()) =~= m.subrange(i, i + t.len()));
    assert(find::occurs_at(s, t, a.len() + i));
}

proof fn lemma_tag_holds(tag: Seq<char>, content: Seq<char>)
    ensures
        find::has_text(tagged(tag, content), content),
{
    lemma_holds_middle("<|"@ + tag + "|>\n"@, content, "\n<|/"@ + tag + "|>"@);
    assert(tagged(tag, content) =~= ("<|"@ + tag + "|>\n"@) + content + ("\n<|/"@ + tag + "|>"@));
}

/// A prompt for applying an update holds the code and the update.
pub proof fn law_apply_prompts_hold_both(original: Seq<char>, update: Seq<char>)
    ensures
        find::has_text(apply_prompt(original, update), original),
        find::has_text(apply_prompt(original, update), update),
{
    let e = Seq::<char>::empty();
    let a = tagged("original_code"@, original);
    let b = tagged("update_snippet"@, update);
    lemma_tag_holds("original_code"@, original);
    lemma_tag_holds("update_snippet"@, update);
    lemma_holds_more(e, a, "\n\n"@ + b, original);
    assert(e + a + ("\n\n"@ + b) =~= apply_prompt(original, update));
    lemma_holds_more(a + "\n\n"@, b, e, update);
    assert(a + "\n\n"@ + b + e =~= apply_prompt(original, update));
}

/// A prompt for the next edit holds the path and the content of the file, the code to edit, the
/// cursor, the recent snippets and the history.
pub proof fn law_next_edit_prompts_hold_all(path: Seq<char>, p: NextEditPayload)
    ensures
        find::has_text(next_edit_prompt(path, p), path),
        find::has_text(next_edit_prompt(path, p), p.file_content@),
        find::has_text(next_edit_prompt(path, p), p.code_to_edit@),
        find::has_text(next_edit_prompt(path, p), p.cursor@),
        find::has_text(next_edit_prompt(path, p), p.recent_snippets@),
        find::has_text(next_edit_prompt(path, p), p.edit_history@),
{
    let e = Seq::<char>::empty();
    let cursor = tagged("cursor"@, p.cursor@);
    let inner = p.code_to_edit@ + "\n"@ + cursor;
    let code = tagged("code_to_edit"@, inner);
    let head = "current_file_path: "@ + path + "\n"@ + p.file_content@ + "\n"@;
    let body = head + code;
    let file = tagged("current_file_content"@, body);
    let seen = tagged("recently_viewed_code_snippets"@, p.recent_snippets@);
    let past = tagged("edit_diff_history"@, p.edit_history@);
    let all = next_edit_prompt(path, p);
    let front = seen + "\n\n"@;
    let back = "\n\n"@ + past;
    assert(all =~= front + file + back);
    assert(all =~= e + seen + ("\n\n"@ + file + back));
    assert(all =~= (front + file + "\n\n"@) + past + e);
    lemma_tag_holds("recently_viewed_code_snippets"@, p.recent_snippets@);
    lemma_holds_more(e, seen, "\n\n"@ + file + back, p.recent_snippets@);
    lemma_tag_holds("edit_diff_history"@, p.edit_history@);
    lemma_holds_more(front + file + "\n\n"@, past, e, p.edit_history@);
    lemma_tag_parts("current_file_content"@, body);
    lemma_holds_middle(
        "current_file_path: "@,
        path,
        "\n"@ + p.file_content@ + "\n"@ + code,
    );
    assert(body =~= "current_file_path: "@ + path + ("\n"@ + p.file_content@ + "\n"@ + code));
    lemma_in_tag("current_file_content"@, body, path);
    lemma_holds_more(front, file, back, path);
    lemma_holds_middle(
        "current_file_path: "@ + path + "\n"@,
        p.file_content@,
        "\n"@ + code,
    );
    assert(body =~= "current_file_path: "@ + path + "\n"@ + p.file_content@ + ("\n"@ + code));
    lemma_in_tag("current_file_content"@, body, p.file_content@);
    lemma_holds_more(front, file, back, p.file_content@);
    lemma_holds_middle(e, p.code_to_edit@, "\n"@ + cursor);
    assert(inner =~= e + p.code_to_edit@ + ("\n"@ + cursor));
    lemma_in_tag("code_to_edit"@, inner, p.code_to_edit@);
    lemma_holds_more(head, code, e, p.code_to_edit@);
    assert(body =~= head + code + e);
    lemma_in_tag("current_file_content"@, body, p.code_to_edit@);
    lemma_holds_more(front, file, back, p.code_to_edit@);
    lemma_tag_holds("cursor"@, p.cursor@);
    lemma_holds_more(p.code_to_edit@ + "\n"@, cursor, e, p.cursor@);
    assert(inner =~= p.code_to_edit@ + "\n"@ + cursor + e);
    lemma_in_tag("code_to_edit"@, inner, p.cursor@);
    lemma_holds_more(head, code, e, p.cursor@);
    lemma_in_tag("current_file_content"@, body, p.cursor@);
    lemma_holds_more(front, file, back, p.cursor@);
}

proof fn lemma_tag_parts(tag: Seq<char>, content: Seq<char>)
    ensures
        tagged(tag, content) == ("<|"@ + tag + "|>\n"@) + content + ("\n<|/"@ + tag + "|>"@),
{
    assert(tagged(tag, content) =~= ("<|"@ + tag + "|>\n"@) + content + ("\n<|/"@ + tag + "|>"@));
}

proof fn lemma_in_tag(tag: Seq<char>, content: Seq<char>, t: Seq<char>)
    requires
        find::has_text(content, t),
    ensures
        find::has_text(tagged(tag, content), t),
{
    lemma_tag_parts(tag, content);
    lemma_holds_more("<|"@ + tag + "|>\n"@, content, "\n<|/"@ + tag + "|>"@, t);
}

} // verus!
