//! Fetching and merging a user's upstream sources: limits, the screening of
//! fetch targets, the handling of upstream responses, HTML-to-text
//! conversion and the in-order merge of fetched parts.

pub mod fetch;
pub mod html;
pub mod merge;
pub mod target;

use vstd::prelude::*;
use crate::text::{decimal, decimal_chars, string_of, trim, trim_chars};

verus! {

/// Largest upstream body, in bytes, that a fetch accepts.
pub const MAX_FETCH_BYTES: usize = 10 * 1024 * 1024;

/// Byte length after which HTML-to-text conversion stops adding text.
pub const MAX_BUFFER: usize = 1024 * 1024;

/// Number of redirects a fetch follows.
pub const MAX_REDIRECTS: usize = 5;

pub open spec fn too_large_message(max_bytes: nat) -> Seq<char> {
    "content too large: exceeds "@ + decimal(max_bytes) + " bytes limit while streaming body"@
}

/// Appends a body chunk unless the body would then exceed `max_bytes`; a
/// refused chunk leaves the buffer as it was.
pub fn append_limited(buffer: &mut Vec<u8>, chunk: &[u8], max_bytes: usize) -> (r: Result<(), String>)
    requires
        old(buffer)@.len() + chunk@.len() <= usize::MAX,
    ensures
        old(buffer)@.len() + chunk@.len() > max_bytes ==> {
            &&& r matches Err(e) && e@ == too_large_message(max_bytes as nat)
            &&& final(buffer)@ == old(buffer)@
        },
        old(buffer)@.len() + chunk@.len() <= max_bytes ==> {
            &&& r is Ok
            &&& final(buffer)@ == old(buffer)@ + chunk@
        },
{
    let next_len = buffer.len().saturating_add(chunk.len());
    if next_len > max_bytes {
        let mut m = "content too large: exceeds ".to_owned();
        let digits = decimal_chars(max_bytes as u64);
        let digits_text = string_of(&digits);
        m.append(digits_text.as_str());
        m.append(" bytes limit while streaming body");
        return Err(m);
    }
    buffer.extend_from_slice(chunk);
    proof {
        assert(buffer@ =~= old(buffer)@ + chunk@);
    }
    Ok(())
}

/// The merged text after adding one part: an empty part changes nothing,
/// and parts are separated by a blank line.
pub open spec fn merged_with(merged: Seq<char>, content: Seq<char>) -> Seq<char> {
    if content.len() == 0 {
        merged
    } else if merged.len() == 0 {
        content
    } else {
        merged + "\n\n"@ + content
    }
}

/// Adds one fetched part to the merged text.
pub fn append_merged_content(merged: &mut String, content: &str)
    ensures
        final(merged)@ == merged_with(old(merged)@, content@),
        content@.len() == 0 ==> final(merged)@ == old(merged)@,
        content@.len() > 0 && old(merged)@.len() == 0 ==> final(merged)@ == content@,
        content@.len() > 0 && old(merged)@.len() > 0 ==> final(merged)@ == old(merged)@ + "\n\n"@ + content@,
{
    proof {
        lemma_merge_appends_part(merged@, content@);
    }
    if content.is_empty() {
        return;
    }
    if !merged.as_str().is_empty() {
        merged.append("\n\n");
    }
    merged.append(content);
}

/// Text produced for an upstream body: trimmed, and absent when nothing is left.
pub open spec fn finished_content(text: Seq<char>) -> Option<Seq<char>> {
    if trim(text).len() == 0 {
        None
    } else {
        Some(trim(text))
    }
}

/// Trims the text produced for an upstream body and drops it when empty.
pub fn finish_fetch_content(text: &str) -> (r: Option<String>)
    ensures
        match r {
            Some(s) => finished_content(text@) == Some(s@),
            None => finished_content(text@) is None,
        },
{
    let chars = crate::text::chars_of(text);
    let trimmed = trim_chars(&chars);
    if trimmed.len() == 0 {
        None
    } else {
        Some(string_of(&trimmed))
    }
}

/// Adding a part to the merged text: an empty part changes nothing; a part
/// added to an empty text is the whole text; otherwise the part is appended
/// after a blank line, so the text grows by the part's length plus two.
pub proof fn lemma_merge_appends_part(merged: Seq<char>, content: Seq<char>)
    ensures
        content.len() == 0 ==> merged_with(merged, content) == merged,
        content.len() > 0 && merged.len() == 0 ==> merged_with(merged, content) == content,
        content.len() > 0 && merged.len() > 0 ==> merged_with(merged, content) == merged + "\n\n"@ + content,
        content.len() > 0 && merged.len() > 0 ==> merged_with(merged, content).len() == merged.len()
            + content.len() + 2,
{
    reveal_strlit("\n\n");
}

} // verus!
