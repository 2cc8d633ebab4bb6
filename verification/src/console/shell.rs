//! The page shell and the not-found page.

use vstd::prelude::*;
use crate::text::{chars_of, join_char, join_chars, string_of, views};

verus! {

/// Style classes of the page, the shell and the content, for a compact
/// (logged-out) or a full (logged-in) layout.
pub fn shell_classes(compact: bool) -> (r: (&'static str, &'static str, &'static str))
    ensures
        compact ==> r.0@ == "shell-page shell-page--compact"@ && r.1@ == "shell shell--compact"@
            && r.2@ == "content content--compact"@,
        !compact ==> r.0@ == "shell-page shell-page--app"@ && r.1@ == "shell shell--app"@
            && r.2@ == "content"@,
{
    if compact {
        ("shell-page shell-page--compact", "shell shell--compact", "content content--compact")
    } else {
        ("shell-page shell-page--app", "shell shell--app", "content")
    }
}

/// The path shown on the not-found page: `/` and the segments joined by `/`.
pub fn not_found_route(segments: &Vec<String>) -> (r: String)
    ensures
        r@ == "/"@ + join_char(segments@.map_values(|s: String| s@), '/'),
{
    let mut pieces: Vec<Vec<char>> = Vec::new();
    let mut i: usize = 0;
    while i < segments.len()
        invariant
            i <= segments.len(),
            views(pieces@) == segments@.map_values(|s: String| s@).take(i as int),
        decreases segments.len() - i,
    {
        let ghost before = pieces@;
        let piece = chars_of(segments[i].as_str());
        pieces.push(piece);
        proof {
            assert(views(pieces@) =~= views(before).push(piece@));
            assert(segments@.map_values(|s: String| s@).take(i + 1) =~= segments@.map_values(|s: String| s@).take(i as int).push(segments@[i as int]@));
        }
        i += 1;
    }
    proof {
        assert(segments@.map_values(|s: String| s@).take(segments.len() as int) =~= segments@.map_values(|s: String| s@));
    }
    let joined = join_chars(&pieces, '/');
    let mut r = "/".to_owned();
    let joined_text = string_of(&joined);
    r.append(joined_text.as_str());
    r
}

} // verus!
