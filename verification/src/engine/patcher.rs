//! What the edit service is asked for.
use crate::api::types::{CompletePayload, EditPayload, NextEditPayload};
use crate::text::chars::own;
use vstd::prelude::*;

verus! {

/// How long a patched file can be, in tokens.
pub const PATCH_MAX_TOKENS: u32 = 8192;

/// How long a completion can be, in tokens.
pub const COMPLETION_MAX_TOKENS: u32 = 256;

/// Words requests to the edit service.
#[derive(Debug, Clone, Copy, PartialEq, Eq, Structural)]
pub struct Patcher {}

impl Patcher {
    /// A patcher.
    pub fn new() -> (r: Patcher)
        ensures
            r == (Patcher {  }),
    {
        Patcher {  }
    }

    /// Asks to apply a snippet to code.
    pub fn patch(&self, original_code: &str, update_snippet: &str) -> (r: EditPayload)
        ensures
            r.original_code@ == original_code@,
            r.update_snippet@ == update_snippet@,
            r.max_tokens == 8192,
    {
        EditPayload {
            original_code: own(original_code),
            update_snippet: own(update_snippet),
            max_tokens: PATCH_MAX_TOKENS,
        }
    }

    /// Asks for what stands between two pieces of code.
    pub fn complete(&self, prompt: &str, suffix: &str) -> (r: CompletePayload)
        ensures
            r.prompt@ == prompt@,
            r.suffix@ == suffix@,
            r.max_tokens == 256,
    {
        CompletePayload {
            prompt: own(prompt),
            suffix: own(suffix),
            max_tokens: COMPLETION_MAX_TOKENS,
        }
    }

    /// Asks for the next edit of a file at a cursor.
    pub fn next_edit_with_context(
        &self,
        file_content: &str,
        code_to_edit: &str,
        cursor: &str,
        recent_snippets: &str,
        edit_history: &str,
    ) -> (r: NextEditPayload)
        ensures
            r.file_content@ == file_content@,
            r.code_to_edit@ == code_to_edit@,
            r.cursor@ == cursor@,
            r.recent_snippets@ == recent_snippets@,
            r.edit_history@ == edit_history@,
    {
        NextEditPayload {
            file_content: own(file_content),
            code_to_edit: own(code_to_edit),
            cursor: own(cursor),
            recent_snippets: own(recent_snippets),
            edit_history: own(edit_history),
        }
    }

    /// Asks for the next edit of a file, given what was edited before.
    pub fn next_edit(&self, file_content: &str, edit_history: &str) -> (r: NextEditPayload)
        ensures
            r.file_content@ == file_content@,
            r.code_to_edit@ == Seq::<char>::empty(),
            r.cursor@ == Seq::<char>::empty(),
            r.recent_snippets@ == Seq::<char>::empty(),
            r.edit_history@ == edit_history@,
    {
        proof {
            reveal_strlit("");
        }
        self.next_edit_with_context(file_content, "", "", "", edit_history)
    }
}

} // verus!
