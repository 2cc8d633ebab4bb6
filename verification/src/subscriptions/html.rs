//! Conversion of an HTML page into plain text.
//!
//! The `scraper` crate parses the page; the root element's subtree reaches
//! the conversion as the sequence of open and close events of a depth-first
//! walk.  The conversion keeps the text of the visible elements, puts block
//! elements on lines of their own, and stops adding text once the output
//! holds `max_len` bytes, leaving a truncation marker.

use ego_tree::iter::Edge;
use scraper::{Html, Node, Selector};
use vstd::prelude::*;
use vstd::utf8::encode_utf8;
use crate::subscriptions::{MAX_BUFFER, MAX_FETCH_BYTES};
use crate::text::{chars_of, is_whitespace, is_ws, string_of, trim, trim_chars};

verus! {

/// One event of a depth-first walk over a subtree of the document.
#[derive(Clone, Debug)]
pub enum HtmlEvent {
    /// An element opens; its tag name.
    Open(String),
    /// The innermost open element closes.
    Close,
    /// A text node.
    Text(String),
    /// A node that is neither an element nor text (a comment, for instance).
    Other,
    /// The end of a text node or of another non-element node.
    LeafEnd,
}

pub enum HtmlEventView {
    Open(Seq<char>),
    Close,
    Text(Seq<char>),
    Other,
    LeafEnd,
}

pub open spec fn event_view(e: HtmlEvent) -> HtmlEventView {
    match e {
        HtmlEvent::Open(n) => HtmlEventView::Open(n@),
        HtmlEvent::Close => HtmlEventView::Close,
        HtmlEvent::Text(t) => HtmlEventView::Text(t@),
        HtmlEvent::Other => HtmlEventView::Other,
        HtmlEvent::LeafEnd => HtmlEventView::LeafEnd,
    }
}

pub open spec fn event_views(v: Seq<HtmlEvent>) -> Seq<HtmlEventView> {
    v.map_values(|e: HtmlEvent| event_view(e))
}

/// The walk events of the `:root` element's subtree of the document that
/// `scraper::Html::parse_document` builds from a text (none when no element
/// matches `:root`).
pub uninterp spec fn html_event_stream(s: Seq<char>) -> Seq<HtmlEventView>;

/// Parses a page with `scraper` and walks the subtree of its `:root`
/// element (`ego_tree`'s `traverse`), converting each open and close edge
/// into an event.  The contract names the events and claims only that they
/// are a function of the text.
#[verifier::external_body]
pub(crate) fn html_events(input: &str) -> (r: Vec<HtmlEvent>)
    ensures
        event_views(r@) == html_event_stream(input@),
{
    let document = Html::parse_document(input);
    let Ok(selector) = Selector::parse(":root") else { return Vec::new() };
    let Some(root) = document.select(&selector).next() else { return Vec::new() };
    root.traverse().map(|edge| match edge {
        Edge::Open(node) => match node.value() {
            Node::Element(e) => HtmlEvent::Open(e.name().to_string()),
            Node::Text(t) => HtmlEvent::Text(t.to_string()),
            _ => HtmlEvent::Other,
        },
        Edge::Close(node) => match node.value() {
            Node::Element(_) => HtmlEvent::Close,
            _ => HtmlEvent::LeafEnd,
        },
    }).collect()
}

/// Number of bytes in the UTF-8 encoding of `c`.
pub open spec fn utf8_width(c: char) -> nat {
    if (c as u32) < 0x80 {
        1
    } else if (c as u32) < 0x800 {
        2
    } else if (c as u32) < 0x10000 {
        3
    } else {
        4
    }
}

/// Number of bytes in the UTF-8 encoding of `s` (what `str::len` reports).
pub open spec fn byte_len(s: Seq<char>) -> nat
    decreases s.len(),
{
    if s.len() == 0 {
        0
    } else {
        byte_len(s.drop_last()) + utf8_width(s.last())
    }
}

pub proof fn lemma_byte_len_concat(a: Seq<char>, b: Seq<char>)
    ensures
        byte_len(a + b) == byte_len(a) + byte_len(b),
    decreases b.len(),
{
    if b.len() == 0 {
        assert(a + b =~= a);
    } else {
        lemma_byte_len_concat(a, b.drop_last());
        assert((a + b).drop_last() =~= a + b.drop_last());
        assert((a + b).last() == b.last());
    }
}

/// `byte_len` is the length of the UTF-8 encoding, so the walk's limit is
/// the byte length that `String::len` reports.
pub proof fn lemma_byte_len_is_utf8_len(s: Seq<char>)
    ensures
        byte_len(s) == encode_utf8(s).len(),
    decreases s.len(),
{
    if s.len() > 0 {
        let c = s[0];
        lemma_byte_len_is_utf8_len(s.drop_first());
        lemma_byte_len_concat(seq![c], s.drop_first());
        assert(seq![c] + s.drop_first() =~= s);
        assert(seq![c].drop_last() =~= Seq::<char>::empty());
        assert(byte_len(Seq::<char>::empty()) == 0);
        assert(seq![c].last() == c);
        assert(byte_len(seq![c]) == utf8_width(c));
        vstd::utf8::char_is_scalar(c);
    }
}

/// Tags whose element starts and ends a block of text.
pub open spec fn block_tag(t: Seq<char>) -> bool {
    ||| t == "address"@ ||| t == "article"@ ||| t == "aside"@ ||| t == "blockquote"@
    ||| t == "canvas"@ ||| t == "dd"@ ||| t == "div"@ ||| t == "dl"@ ||| t == "dt"@
    ||| t == "fieldset"@ ||| t == "figcaption"@ ||| t == "figure"@ ||| t == "footer"@
    ||| t == "form"@ ||| t == "h1"@ ||| t == "h2"@ ||| t == "h3"@ ||| t == "h4"@
    ||| t == "h5"@ ||| t == "h6"@ ||| t == "header"@ ||| t == "hr"@ ||| t == "li"@
    ||| t == "main"@ ||| t == "nav"@ ||| t == "ol"@ ||| t == "p"@ ||| t == "pre"@
    ||| t == "section"@ ||| t == "table"@ ||| t == "tfoot"@ ||| t == "ul"@
    ||| t == "video"@ ||| t == "tr"@
}

/// Tags whose element contributes no text.
pub open spec fn hidden_tag(t: Seq<char>) -> bool {
    t == "script"@ || t == "style"@ || t == "head"@ || t == "noscript"@
}

fn text_is(t: &String, lit: &str) -> (r: bool)
    ensures
        r == (t@ == lit@),
{
    *t == lit.to_owned()
}

/// Whether `tag` names a block element.
pub fn is_block_element(tag: &str) -> (r: bool)
    ensures
        r == block_tag(tag@),
{
    let t = tag.to_owned();
    text_is(&t, "address") || text_is(&t, "article") || text_is(&t, "aside") || text_is(
        &t,
        "blockquote",
    ) || text_is(&t, "canvas") || text_is(&t, "dd") || text_is(&t, "div") || text_is(&t, "dl")
        || text_is(&t, "dt") || text_is(&t, "fieldset") || text_is(&t, "figcaption") || text_is(
        &t,
        "figure",
    ) || text_is(&t, "footer") || text_is(&t, "form") || text_is(&t, "h1") || text_is(&t, "h2")
        || text_is(&t, "h3") || text_is(&t, "h4") || text_is(&t, "h5") || text_is(&t, "h6")
        || text_is(&t, "header") || text_is(&t, "hr") || text_is(&t, "li") || text_is(&t, "main")
        || text_is(&t, "nav") || text_is(&t, "ol") || text_is(&t, "p") || text_is(&t, "pre")
        || text_is(&t, "section") || text_is(&t, "table") || text_is(&t, "tfoot") || text_is(
        &t,
        "ul",
    ) || text_is(&t, "video") || text_is(&t, "tr")
}

fn is_hidden_element(tag: &String) -> (r: bool)
    ensures
        r == hidden_tag(tag@),
{
    text_is(tag, "script") || text_is(tag, "style") || text_is(tag, "head") || text_is(
        tag,
        "noscript",
    )
}

/// Number of `'\n'` characters that end `s`.
pub open spec fn trailing_newlines(s: Seq<char>) -> nat
    decreases s.len(),
{
    if s.len() > 0 && s.last() == '\n' {
        trailing_newlines(s.drop_last()) + 1
    } else {
        0
    }
}

/// `n` newline characters.
pub open spec fn newlines(n: nat) -> Seq<char> {
    Seq::new(n, |i: int| '\n')
}

/// `s` extended so that it ends with at least `count` newlines; an empty
/// `s` stays empty.
pub open spec fn with_newlines(s: Seq<char>, count: nat) -> Seq<char> {
    if s.len() == 0 || trailing_newlines(s) >= count {
        s
    } else {
        s + newlines((count - trailing_newlines(s)) as nat)
    }
}

proof fn lemma_trailing_newlines_bound(s: Seq<char>)
    ensures
        trailing_newlines(s) <= s.len(),
    decreases s.len(),
{
    if s.len() > 0 && s.last() == '\n' {
        lemma_trailing_newlines_bound(s.drop_last());
    }
}

/// Extends a character buffer to end with at least `count` newlines.
pub fn ensure_newlines_chars(buffer: &mut Vec<char>, count: usize)
    ensures
        final(buffer)@ == with_newlines(old(buffer)@, count as nat),
{
    if buffer.len() == 0 {
        return;
    }
    let ghost s = buffer@;
    let mut existing: usize = 0;
    while existing < buffer.len() && buffer[buffer.len() - 1 - existing] == '\n'
        invariant
            buffer@ == s,
            existing <= s.len(),
            forall|j: int| s.len() - existing <= j < s.len() ==> s[j] == '\n',
        decreases s.len() - existing,
    {
        existing += 1;
    }
    proof {
        lemma_trailing_count(s, existing as int);
    }
    let mut k = existing;
    while k < count
        invariant
            existing <= k,
            k <= count || k == existing,
            trailing_newlines(s) == existing,
            buffer@ == s + newlines((k - existing) as nat),
        decreases count - k,
    {
        buffer.push('\n');
        k += 1;
        proof {
            assert(buffer@ =~= s + newlines((k - existing) as nat));
        }
    }
    proof {
        if count <= existing {
            assert(s + newlines(0) =~= s);
        }
    }
}

/// The trailing newline count of `s` is `k` when its last `k` characters
/// are newlines and the one before (if any) is not.
proof fn lemma_trailing_count(s: Seq<char>, k: int)
    requires
        0 <= k <= s.len(),
        forall|j: int| s.len() - k <= j < s.len() ==> s[j] == '\n',
        k == s.len() || s[s.len() - 1 - k] != '\n',
    ensures
        trailing_newlines(s) == k,
    decreases k,
{
    if k == 0 {
    } else {
        let t = s.drop_last();
        assert forall|j: int| t.len() - (k - 1) <= j < t.len() implies t[j] == '\n' by {
            assert(t[j] == s[j]);
        }
        if k - 1 < t.len() {
            assert(t[t.len() - 1 - (k - 1)] == s[s.len() - 1 - k]);
        }
        lemma_trailing_count(t, k - 1);
    }
}

/// Extends a buffer to end with at least `count` newlines; an empty
/// buffer stays empty.
pub fn ensure_newlines(buffer: &mut String, count: usize)
    ensures
        final(buffer)@ == with_newlines(old(buffer)@, count as nat),
{
    let mut chars = chars_of(buffer.as_str());
    ensure_newlines_chars(&mut chars, count);
    *buffer = string_of(&chars);
}

/// The marker left where the conversion stopped adding text.
pub open spec fn truncation_marker() -> Seq<char> {
    "\n<!-- content truncated -->"@
}

/// An open element of the walk: whether it still adds text (`active`) and
/// whether it is a block element.
pub type Frame = (bool, bool);

/// The walk's state: the text so far and the open elements, innermost last.
pub type WalkState = (Seq<char>, Seq<Frame>);

/// The walk visits an element: it stops with a marker once the text holds
/// `max_len` bytes, skips hidden elements, starts a block with a blank line
/// and a `br` with a newline.
pub open spec fn visit(st: WalkState, name: Seq<char>, max_len: nat) -> WalkState {
    let (buf, frames) = st;
    if byte_len(buf) >= max_len {
        (buf + truncation_marker(), frames.push((false, false)))
    } else if hidden_tag(name) {
        (buf, frames.push((false, false)))
    } else if block_tag(name) {
        (with_newlines(buf, 2), frames.push((true, true)))
    } else if name == "br"@ {
        (buf.push('\n'), frames.push((true, false)))
    } else {
        (buf, frames.push((true, false)))
    }
}

/// Text added for a text node: trimmed, empty text adds nothing, and a
/// space separates it from preceding non-whitespace.
pub open spec fn with_text(buf: Seq<char>, t: Seq<char>) -> Seq<char> {
    let t2 = trim(t);
    if t2.len() == 0 {
        buf
    } else if buf.len() > 0 && !is_ws(buf.last()) {
        buf.push(' ') + t2
    } else {
        buf + t2
    }
}

/// Before each child of an active element the walk checks the limit; once
/// the text holds `max_len` bytes it leaves a marker and the element adds
/// nothing more, its closing newlines included.
pub open spec fn limit_reached(st: WalkState, max_len: nat) -> bool {
    byte_len(st.0) >= max_len
}

pub open spec fn stop_parent(st: WalkState) -> WalkState {
    (st.0 + truncation_marker(), st.1.update(st.1.len() - 1, (false, st.1.last().1)))
}

/// One event of the walk.
pub open spec fn walk_step(st: WalkState, ev: HtmlEventView, max_len: nat) -> WalkState {
    let (buf, frames) = st;
    let parent_active = frames.len() > 0 && frames.last().0;
    match ev {
        HtmlEventView::Open(name) => if frames.len() == 0 {
            visit(st, name, max_len)
        } else if !parent_active {
            (buf, frames.push((false, false)))
        } else if limit_reached(st, max_len) {
            let s2 = stop_parent(st);
            (s2.0, s2.1.push((false, false)))
        } else {
            visit(st, name, max_len)
        },
        HtmlEventView::Close => if frames.len() == 0 {
            st
        } else {
            let f = frames.last();
            let rest = frames.drop_last();
            if f.0 && f.1 {
                (with_newlines(buf, 2), rest)
            } else {
                (buf, rest)
            }
        },
        HtmlEventView::Text(t) => if !parent_active {
            st
        } else if limit_reached(st, max_len) {
            stop_parent(st)
        } else {
            (with_text(buf, t), frames)
        },
        HtmlEventView::Other => if !parent_active {
            st
        } else if limit_reached(st, max_len) {
            stop_parent(st)
        } else {
            st
        },
        HtmlEventView::LeafEnd => st,
    }
}

/// The walk over a sequence of events.
pub open spec fn walk_all(events: Seq<HtmlEventView>, st: WalkState, max_len: nat) -> WalkState
    decreases events.len(),
{
    if events.len() == 0 {
        st
    } else {
        walk_step(walk_all(events.drop_last(), st, max_len), events.last(), max_len)
    }
}

/// The text that walking `events` appends to `buffer`.
pub open spec fn walk_text(events: Seq<HtmlEventView>, buffer: Seq<char>, max_len: nat) -> Seq<char> {
    walk_all(events, (buffer, Seq::empty()), max_len).0
}

/// These elements each start and end a block of text: address, article,
/// aside, blockquote, canvas, dd, div, dl, dt, fieldset, figcaption, figure,
/// footer, form, h1 to h6, header, hr, li, main, nav, ol, p, pre, section,
/// table, tfoot, ul, video and tr.  None of them is hidden or a line break.
pub proof fn lemma_listed_tags_are_blocks(t: Seq<char>)
    requires
        t == "address"@ || t == "article"@ || t == "aside"@ || t == "blockquote"@ || t == "canvas"@
            || t == "dd"@ || t == "div"@ || t == "dl"@ || t == "dt"@ || t == "fieldset"@
            || t == "figcaption"@ || t == "figure"@ || t == "footer"@ || t == "form"@ || t == "h1"@
            || t == "h2"@ || t == "h3"@ || t == "h4"@ || t == "h5"@ || t == "h6"@ || t == "header"@
            || t == "hr"@ || t == "li"@ || t == "main"@ || t == "nav"@ || t == "ol"@ || t == "p"@
            || t == "pre"@ || t == "section"@ || t == "table"@ || t == "tfoot"@ || t == "ul"@
            || t == "video"@ || t == "tr"@,
    ensures
        block_tag(t),
        !hidden_tag(t),
        t != "br"@,
{
    reveal_strlit("address");
    reveal_strlit("article");
    reveal_strlit("aside");
    reveal_strlit("blockquote");
    reveal_strlit("canvas");
    reveal_strlit("dd");
    reveal_strlit("div");
    reveal_strlit("dl");
    reveal_strlit("dt");
    reveal_strlit("fieldset");
    reveal_strlit("figcaption");
    reveal_strlit("figure");
    reveal_strlit("footer");
    reveal_strlit("form");
    reveal_strlit("h1");
    reveal_strlit("h2");
    reveal_strlit("h3");
    reveal_strlit("h4");
    reveal_strlit("h5");
    reveal_strlit("h6");
    reveal_strlit("header");
    reveal_strlit("hr");
    reveal_strlit("li");
    reveal_strlit("main");
    reveal_strlit("nav");
    reveal_strlit("ol");
    reveal_strlit("p");
    reveal_strlit("pre");
    reveal_strlit("section");
    reveal_strlit("table");
    reveal_strlit("tfoot");
    reveal_strlit("ul");
    reveal_strlit("video");
    reveal_strlit("tr");
    reveal_strlit("br");
    reveal_strlit("script");
    reveal_strlit("style");
    reveal_strlit("head");
    reveal_strlit("noscript");
    assert(t.len() != 2 || t[0] != 'b');
    assert(t.len() != 6 || t[0] != 's');
    assert(t.len() != 5 || t[0] != 's');
    assert(t.len() != 4 || t[0] != 'h');
    assert(t.len() != 8 || t[0] != 'n');
    assert("br"@[0] == 'b' && "script"@[0] == 's' && "style"@[0] == 's' && "head"@[0] == 'h'
        && "noscript"@[0] == 'n');
}

proof fn lemma_walk_all_push(events: Seq<HtmlEventView>, ev: HtmlEventView, st: WalkState, max_len: nat)
    ensures
        walk_all(events.push(ev), st, max_len) == walk_step(walk_all(events, st, max_len), ev, max_len),
{
    assert(events.push(ev).drop_last() =~= events);
}

/// A text that ends in a visible character ends a block with exactly one
/// blank line, and a text that already ends so is left as it is.
proof fn lemma_block_end(s: Seq<char>)
    requires
        s.len() > 0,
        !is_ws(s.last()),
    ensures
        with_newlines(s, 2) == s + "\n\n"@,
        with_newlines(s + "\n\n"@, 2) == s + "\n\n"@,
        byte_len(s + "\n\n"@) == byte_len(s) + 2,
        (s + "\n\n"@).last() == '\n',
{
    reveal_strlit("\n\n");
    let nn = "\n\n"@;
    assert(trailing_newlines(s) == 0);
    assert(newlines(2) =~= nn);
    let t = s + nn;
    assert(t.drop_last() =~= s.push('\n'));
    assert(t.drop_last().drop_last() =~= s);
    assert(trailing_newlines(t.drop_last()) == 1);
    assert(trailing_newlines(t) == 2);
    lemma_byte_len_concat(s, nn);
    assert(nn =~= seq!['\n', '\n']);
    assert(nn.drop_last() =~= seq!['\n']);
    assert(nn.drop_last().drop_last() =~= Seq::<char>::empty());
    assert(('\n' as u32) < 0x80);
    assert(utf8_width('\n') == 1);
    let one = seq!['\n'];
    assert(one.drop_last() =~= Seq::<char>::empty());
    assert(one.last() == '\n');
    assert(byte_len(Seq::<char>::empty()) == 0);
    assert(byte_len(one) == byte_len(one.drop_last()) + utf8_width(one.last()));
    assert(byte_len(one) == 1);
    assert(byte_len(nn.drop_last()) == 1);
}

/// Block elements stand on lines of their own: two block elements in a row,
/// each holding some text, give each text trimmed, each followed by a blank
/// line, so the second never runs on after the first.
pub proof fn lemma_blocks_stand_apart(a: Seq<char>, b: Seq<char>, x: Seq<char>, y: Seq<char>, max_len: nat)
    requires
        block_tag(a),
        block_tag(b),
        trim(x).len() > 0,
        trim(y).len() > 0,
        byte_len(trim(x)) + byte_len(trim(y)) + 4 < max_len,
    ensures
        walk_text(
            seq![
                HtmlEventView::Open(a),
                HtmlEventView::Text(x),
                HtmlEventView::Close,
                HtmlEventView::Open(b),
                HtmlEventView::Text(y),
                HtmlEventView::Close,
            ],
            Seq::empty(),
            max_len,
        ) == trim(x) + "\n\n"@ + trim(y) + "\n\n"@,
{
    reveal_strlit("\n\n");
    let nn = "\n\n"@;
    lemma_listed_tags_are_blocks(a);
    lemma_listed_tags_are_blocks(b);
    crate::text::lemma_trim_shape(x);
    crate::text::lemma_trim_shape(y);
    let tx = trim(x);
    let ty = trim(y);
    let e0 = Seq::<HtmlEventView>::empty();
    let e1 = e0.push(HtmlEventView::Open(a));
    let e2 = e1.push(HtmlEventView::Text(x));
    let e3 = e2.push(HtmlEventView::Close);
    let e4 = e3.push(HtmlEventView::Open(b));
    let e5 = e4.push(HtmlEventView::Text(y));
    let e6 = e5.push(HtmlEventView::Close);
    let st0: WalkState = (Seq::empty(), Seq::empty());
    lemma_walk_all_push(e0, HtmlEventView::Open(a), st0, max_len);
    lemma_walk_all_push(e1, HtmlEventView::Text(x), st0, max_len);
    lemma_walk_all_push(e2, HtmlEventView::Close, st0, max_len);
    lemma_walk_all_push(e3, HtmlEventView::Open(b), st0, max_len);
    lemma_walk_all_push(e4, HtmlEventView::Text(y), st0, max_len);
    lemma_walk_all_push(e5, HtmlEventView::Close, st0, max_len);
    assert(byte_len(Seq::<char>::empty()) == 0);
    assert(with_newlines(Seq::<char>::empty(), 2) == Seq::<char>::empty());
    let s1 = walk_all(e1, st0, max_len);
    assert(s1 == (Seq::<char>::empty(), seq![(true, true)]));
    let s2 = walk_all(e2, st0, max_len);
    assert(Seq::<char>::empty() + tx =~= tx);
    assert(s2 == (tx, seq![(true, true)]));
    lemma_block_end(tx);
    let s3 = walk_all(e3, st0, max_len);
    assert(seq![(true, true)].drop_last() =~= Seq::<Frame>::empty());
    assert(s3 == (tx + nn, Seq::<Frame>::empty()));
    let s4 = walk_all(e4, st0, max_len);
    assert(s4 == (tx + nn, seq![(true, true)]));
    let s5 = walk_all(e5, st0, max_len);
    lemma_byte_len_concat(tx + nn, ty);
    assert(s5 == (tx + nn + ty, seq![(true, true)]));
    assert((tx + nn + ty).last() == ty.last());
    lemma_block_end(tx + nn + ty);
    let s6 = walk_all(e6, st0, max_len);
    assert(s6.0 == tx + nn + ty + nn);
    assert(e6 =~= seq![
        HtmlEventView::Open(a),
        HtmlEventView::Text(x),
        HtmlEventView::Close,
        HtmlEventView::Open(b),
        HtmlEventView::Text(y),
        HtmlEventView::Close,
    ]);
}

/// Element events opened minus element events closed.
pub open spec fn depth(events: Seq<HtmlEventView>) -> int
    decreases events.len(),
{
    if events.len() == 0 {
        0
    } else {
        depth(events.drop_last()) + match events.last() {
            HtmlEventView::Open(_) => 1int,
            HtmlEventView::Close => -1int,
            _ => 0int,
        }
    }
}

/// No prefix of the events closes more elements than it opened: the events
/// stay inside the element they start in.
pub open spec fn stays_inside(events: Seq<HtmlEventView>) -> bool {
    forall|i: int| 0 <= i <= events.len() ==> depth(#[trigger] events.take(i)) >= 0
}

/// `n` open elements that add no text.
pub open spec fn inactive_frames(n: nat) -> Seq<Frame> {
    Seq::new(n, |i: int| (false, false))
}

/// Walking events one after another is walking the first, then the second.
pub proof fn lemma_walk_all_concat(a: Seq<HtmlEventView>, b: Seq<HtmlEventView>, st: WalkState, max_len: nat)
    ensures
        walk_all(a + b, st, max_len) == walk_all(b, walk_all(a, st, max_len), max_len),
    decreases b.len(),
{
    if b.len() == 0 {
        assert(a + b =~= a);
    } else {
        lemma_walk_all_concat(a, b.drop_last(), st, max_len);
        assert((a + b).drop_last() =~= a + b.drop_last());
        assert((a + b).last() == b.last());
    }
}

/// Inside an element that adds no text, events that stay inside it leave
/// the text as it is and only open and close further silent elements.
proof fn lemma_silent_walk(events: Seq<HtmlEventView>, buf: Seq<char>, frames: Seq<Frame>, max_len: nat)
    requires
        stays_inside(events),
    ensures
        depth(events) >= 0,
        walk_all(events, (buf, frames.push((false, false))), max_len) == (
            buf,
            frames.push((false, false)) + inactive_frames(depth(events) as nat),
        ),
    decreases events.len(),
{
    let base = frames.push((false, false));
    assert(events.take(events.len() as int) =~= events);
    if events.len() == 0 {
        assert(base + inactive_frames(0) =~= base);
    } else {
        let e = events.drop_last();
        assert forall|i: int| 0 <= i <= e.len() implies depth(#[trigger] e.take(i)) >= 0 by {
            assert(e.take(i) =~= events.take(i));
        }
        lemma_silent_walk(e, buf, frames, max_len);
        let d = depth(e) as nat;
        let fs = base + inactive_frames(d);
        assert(fs.len() > 0);
        assert(fs.last() == (false, false)) by {
            if d > 0 {
                assert(fs.last() == inactive_frames(d)[d - 1]);
            } else {
                assert(fs.last() == base.last());
            }
        }
        match events.last() {
            HtmlEventView::Open(_) => {
                assert(fs.push((false, false)) =~= base + inactive_frames(d + 1));
            },
            HtmlEventView::Close => {
                assert(depth(events) == depth(e) - 1);
                assert(d >= 1);
                assert(fs.drop_last() =~= base + inactive_frames((d - 1) as nat));
            },
            _ => {},
        }
    }
}

/// The text of `script`, `style`, `head` and `noscript` elements never
/// reaches the output: below the length limit, walking such an element (its
/// opening, any events that stay inside it and end at its own depth, and its
/// closing) leaves the text and the open elements as they were.
pub proof fn lemma_hidden_elements_add_no_text(
    buf: Seq<char>,
    frames: Seq<Frame>,
    name: Seq<char>,
    inner: Seq<HtmlEventView>,
    max_len: nat,
)
    requires
        hidden_tag(name),
        byte_len(buf) < max_len,
        stays_inside(inner),
        depth(inner) == 0,
    ensures
        walk_all(seq![HtmlEventView::Open(name)] + inner + seq![HtmlEventView::Close], (buf, frames), max_len) == (
            buf,
            frames,
        ),
{
    let open = seq![HtmlEventView::Open(name)];
    let close = seq![HtmlEventView::Close];
    lemma_walk_all_concat(open + inner, close, (buf, frames), max_len);
    lemma_walk_all_concat(open, inner, (buf, frames), max_len);
    assert(open.drop_last() =~= Seq::<HtmlEventView>::empty());
    assert(close.drop_last() =~= Seq::<HtmlEventView>::empty());
    let st1 = walk_all(open, (buf, frames), max_len);
    assert(walk_all(open.drop_last(), (buf, frames), max_len) == (buf, frames));
    assert(open.last() == HtmlEventView::Open(name));
    assert(visit((buf, frames), name, max_len) == (buf, frames.push((false, false))));
    assert(!limit_reached((buf, frames), max_len));
    assert(st1 == walk_step((buf, frames), HtmlEventView::Open(name), max_len));
    assert(st1 == (buf, frames.push((false, false))));
    lemma_silent_walk(inner, buf, frames, max_len);
    assert(frames.push((false, false)) + inactive_frames(0) =~= frames.push((false, false)));
    let st2 = walk_all(open + inner, (buf, frames), max_len);
    assert(st2 == (buf, frames.push((false, false))));
    assert(walk_all(close.drop_last(), st2, max_len) == st2);
    assert(close.last() == HtmlEventView::Close);
    assert(frames.push((false, false)).drop_last() =~= frames);
    assert(walk_step(st2, HtmlEventView::Close, max_len) == (buf, frames));
}

fn char_width(c: char) -> (r: usize)
    ensures
        r == utf8_width(c),
{
    let u = c as u32;
    if u < 0x80 {
        1
    } else if u < 0x800 {
        2
    } else if u < 0x10000 {
        3
    } else {
        4
    }
}

pub open spec fn min_nat(a: nat, b: nat) -> nat {
    if a <= b {
        a
    } else {
        b
    }
}

/// The byte length of `s`, or `limit` when that is smaller.
fn bytes_capped(s: &Vec<char>, limit: usize) -> (r: usize)
    ensures
        r == min_nat(byte_len(s@), limit as nat),
{
    let mut total: usize = 0;
    let mut i: usize = 0;
    while i < s.len()
        invariant
            i <= s.len(),
            total == min_nat(byte_len(s@.take(i as int)), limit as nat),
        decreases s.len() - i,
    {
        let w = char_width(s[i]);
        proof {
            assert(s@.take(i + 1).drop_last() =~= s@.take(i as int));
        }
        if total >= limit || w >= limit - total {
            total = limit;
        } else {
            total = total + w;
        }
        i += 1;
    }
    proof {
        assert(s@.take(s.len() as int) =~= s@);
    }
    total
}

/// The walk's working state: the text, its byte length capped at the
/// limit, and the open elements.
struct Walker {
    buffer: Vec<char>,
    capped: usize,
    frames: Vec<(bool, bool)>,
}

impl Walker {
    spec fn state(&self) -> WalkState {
        (self.buffer@, self.frames@)
    }

    spec fn inv(&self, max_len: usize) -> bool {
        self.capped == min_nat(byte_len(self.buffer@), max_len as nat)
    }

    fn append(&mut self, t: &Vec<char>, max_len: usize)
        requires
            old(self).inv(max_len),
        ensures
            final(self).inv(max_len),
            final(self).buffer@ == old(self).buffer@ + t@,
            final(self).frames == old(self).frames,
    {
        let added = bytes_capped(t, max_len);
        proof {
            lemma_byte_len_concat(self.buffer@, t@);
        }
        self.buffer.extend_from_slice(t.as_slice());
        if self.capped >= max_len || added >= max_len - self.capped {
            self.capped = max_len;
        } else {
            self.capped = self.capped + added;
        }
        proof {
            assert(self.buffer@ =~= old(self).buffer@ + t@);
        }
    }

    fn push_char(&mut self, c: char, max_len: usize)
        requires
            old(self).inv(max_len),
        ensures
            final(self).inv(max_len),
            final(self).buffer@ == old(self).buffer@.push(c),
            final(self).frames == old(self).frames,
    {
        let mut one: Vec<char> = Vec::new();
        one.push(c);
        self.append(&one, max_len);
        proof {
            assert(old(self).buffer@ + one@ =~= old(self).buffer@.push(c));
        }
    }

    fn newlines(&mut self, max_len: usize)
        requires
            old(self).inv(max_len),
        ensures
            final(self).inv(max_len),
            final(self).buffer@ == with_newlines(old(self).buffer@, 2),
            final(self).frames == old(self).frames,
    {
        let ghost before = self.buffer@;
        ensure_newlines_chars(&mut self.buffer, 2);
        proof {
            if self.buffer@ != before {
                assert(self.buffer@ == before + newlines((2 - trailing_newlines(before)) as nat));
                lemma_byte_len_concat(before, newlines((2 - trailing_newlines(before)) as nat));
            }
        }
        let b = bytes_capped(&self.buffer, max_len);
        self.capped = b;
    }

    fn mark(&mut self, max_len: usize)
        requires
            old(self).inv(max_len),
        ensures
            final(self).inv(max_len),
            final(self).buffer@ == old(self).buffer@ + truncation_marker(),
            final(self).frames == old(self).frames,
    {
        let m = chars_of("\n<!-- content truncated -->");
        self.append(&m, max_len);
    }

    fn visit(&mut self, name: &String, max_len: usize)
        requires
            old(self).inv(max_len),
        ensures
            final(self).inv(max_len),
            final(self).state() == visit(old(self).state(), name@, max_len as nat),
    {
        if self.capped >= max_len {
            self.mark(max_len);
            self.frames.push((false, false));
        } else if is_hidden_element(name) {
            self.frames.push((false, false));
        } else if is_block_element(name.as_str()) {
            self.newlines(max_len);
            self.frames.push((true, true));
        } else if text_is(name, "br") {
            self.push_char('\n', max_len);
            self.frames.push((true, false));
        } else {
            self.frames.push((true, false));
        }
    }

    fn stop_parent(&mut self, max_len: usize)
        requires
            old(self).inv(max_len),
            old(self).frames.len() > 0,
        ensures
            final(self).inv(max_len),
            final(self).state() == stop_parent(old(self).state()),
    {
        self.mark(max_len);
        let last = self.frames.len() - 1;
        let block = self.frames[last].1;
        self.frames.set(last, (false, block));
    }

    fn add_text(&mut self, t: &String, max_len: usize)
        requires
            old(self).inv(max_len),
        ensures
            final(self).inv(max_len),
            final(self).buffer@ == with_text(old(self).buffer@, t@),
            final(self).frames == old(self).frames,
    {
        let raw = chars_of(t.as_str());
        let t2 = trim_chars(&raw);
        if t2.len() == 0 {
            return;
        }
        let n = self.buffer.len();
        if n > 0 && !is_whitespace(self.buffer[n - 1]) {
            self.push_char(' ', max_len);
        }
        self.append(&t2, max_len);
    }

    fn step(&mut self, ev: &HtmlEvent, max_len: usize)
        requires
            old(self).inv(max_len),
        ensures
            final(self).inv(max_len),
            final(self).state() == walk_step(old(self).state(), event_view(*ev), max_len as nat),
    {
        let depth = self.frames.len();
        let parent_active = depth > 0 && self.frames[depth - 1].0;
        match ev {
            HtmlEvent::Open(name) => {
                if depth == 0 {
                    self.visit(name, max_len);
                } else if !parent_active {
                    self.frames.push((false, false));
                } else if self.capped >= max_len {
                    self.stop_parent(max_len);
                    self.frames.push((false, false));
                } else {
                    self.visit(name, max_len);
                }
            },
            HtmlEvent::Close => {
                if depth > 0 {
                    let f = self.frames[depth - 1];
                    self.frames.pop();
                    if f.0 && f.1 {
                        self.newlines(max_len);
                    }
                }
            },
            HtmlEvent::Text(t) => {
                if parent_active {
                    if self.capped >= max_len {
                        self.stop_parent(max_len);
                    } else {
                        self.add_text(t, max_len);
                    }
                }
            },
            HtmlEvent::Other => {
                if parent_active && self.capped >= max_len {
                    self.stop_parent(max_len);
                }
            },
            HtmlEvent::LeafEnd => {},
        }
    }
}

/// Appends to `buffer` the text of the walked subtree.
pub fn walk_element_limited(events: &Vec<HtmlEvent>, buffer: &mut Vec<char>, max_len: usize)
    ensures
        final(buffer)@ == walk_text(event_views(events@), old(buffer)@, max_len as nat),
{
    let start = buffer.clone();
    let capped = bytes_capped(&start, max_len);
    let mut w = Walker { buffer: start, capped, frames: Vec::new() };
    let ghost evs = event_views(events@);
    let ghost init: WalkState = (old(buffer)@, Seq::empty());
    proof {
        assert(w.state() =~= init);
    }
    let mut i: usize = 0;
    while i < events.len()
        invariant
            i <= events.len(),
            evs == event_views(events@),
            w.inv(max_len),
            w.state() == walk_all(evs.take(i as int), init, max_len as nat),
        decreases events.len() - i,
    {
        proof {
            assert(evs.take(i + 1).drop_last() =~= evs.take(i as int));
            assert(evs.take(i + 1).last() == event_view(events@[i as int]));
        }
        w.step(&events[i], max_len);
        i += 1;
    }
    proof {
        assert(evs.take(events.len() as int) =~= evs);
    }
    *buffer = w.buffer;
}

/// The plain text of an HTML page: nothing for a page whose UTF-8 length
/// (as `str::len` reports it) is over the fetch limit; otherwise the walk's
/// text with a `MAX_BUFFER` limit, trimmed.
pub open spec fn html_text(s: Seq<char>) -> Seq<char> {
    if encode_utf8(s).len() as usize > MAX_FETCH_BYTES {
        Seq::empty()
    } else {
        trim(walk_text(html_event_stream(s), Seq::empty(), MAX_BUFFER as nat))
    }
}

/// Converts an HTML page into plain text.
pub fn html_to_text(input: &str) -> (r: String)
    ensures
        r@ == html_text(input@),
{
    if input.len() > MAX_FETCH_BYTES {
        return String::new();
    }
    let events = html_events(input);
    let mut buffer: Vec<char> = Vec::new();
    walk_element_limited(&events, &mut buffer, MAX_BUFFER);
    let trimmed = trim_chars(&buffer);
    string_of(&trimmed)
}

} // verus!
