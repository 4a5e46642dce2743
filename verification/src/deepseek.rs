//! The model client's logic: the request it sends, the streamed reply it
//! reads (server-sent-event lines, `<LMTHINK>` pseudo-reasoning spread over
//! chunks), and the "pick" — the move the model is currently considering —
//! read from the text received so far.
//!
//! Sending the request and reading the byte stream are I/O and stay with the
//! caller, which hands each chunk to [`StreamState`] and performs what it
//! returns.

use vstd::prelude::*;
use vstd::string::StringSliceAdditionalSpecFns;
use crate::text::{
    chars_of, contains_chars, contains_seq, find_chars, find_from, is_alphanumeric, alphanumeric,
    lemma_find_from_props, lemma_find_from_suffix, lowercase_of, occurs_at, owned, rfind,
    rfind_chars, same_text, slice_chars, starts_with, starts_with_chars, string_of, to_lowercase,
    trim, trim_chars, trim_start, append_chars,
};
use crate::chess_engine::{is_file_char, is_rank_char};
use crate::move_parser::{is_promo_char, opt_text};

verus! {

// ---------------------------------------------------------------------------
// Request
// ---------------------------------------------------------------------------

/// Token counts the service reports for a reply.
#[derive(Debug, Clone)]
pub struct Usage {
    pub prompt_tokens: u64,
    pub completion_tokens: u64,
    pub total_tokens: u64,
    pub prompt_cache_hit_tokens: u64,
    pub prompt_cache_miss_tokens: u64,
}

impl Default for Usage {
    fn default() -> (r: Usage)
        ensures
            r.prompt_tokens == 0,
            r.completion_tokens == 0,
            r.total_tokens == 0,
            r.prompt_cache_hit_tokens == 0,
            r.prompt_cache_miss_tokens == 0,
    {
        Usage {
            prompt_tokens: 0,
            completion_tokens: 0,
            total_tokens: 0,
            prompt_cache_hit_tokens: 0,
            prompt_cache_miss_tokens: 0,
        }
    }
}

/// One chat message: a role (`system`, `user`, `assistant`) and its text.
#[derive(Clone)]
pub struct ChatMessage {
    pub role: String,
    pub content: String,
}

/// Settings of the model client: the key, the model name, whether the
/// service's own reasoning mode is on, and its effort (`high` or `max`).
pub struct DeepSeekClient {
    pub api_key: String,
    pub model: String,
    pub thinking: bool,
    pub reasoning_effort: String,
}

/// The effort setting kept by a client: `max` stays `max`, anything else
/// becomes `high`.
pub open spec fn effort_setting(e: Seq<char>) -> Seq<char> {
    if e == "max"@ {
        "max"@
    } else {
        "high"@
    }
}

/// The body of a chat request, apart from the sampling temperature, which
/// the caller adds.
pub struct ChatRequest {
    pub model: String,
    pub messages: Vec<ChatMessage>,
    pub stream: bool,
    /// `enabled` or `disabled`: the service reasons by default, so turning it
    /// off must be said.
    pub thinking_type: String,
    /// Sent only with reasoning on.
    pub reasoning_effort: Option<String>,
    /// A large limit in pseudo-reasoning mode, so that the reasoning written
    /// into the content is not cut off; otherwise unset.
    pub max_tokens: Option<u32>,
    /// Ask for token counts in the last chunk of a streamed reply.
    pub include_usage: bool,
}

impl DeepSeekClient {
    /// A client; an effort other than `max` is taken as `high`.
    pub fn new(api_key: String, model: String, thinking: bool, reasoning_effort: String) -> (r:
        DeepSeekClient)
        ensures
            r.api_key == api_key,
            r.model == model,
            r.thinking == thinking,
            r.reasoning_effort@ == effort_setting(reasoning_effort@),
    {
        let effort = if same_text(reasoning_effort.as_str(), "max") {
            owned("max")
        } else {
            owned("high")
        };
        DeepSeekClient { api_key, model, thinking, reasoning_effort: effort }
    }

    /// The request body for a conversation.
    pub fn build_request(&self, messages: Vec<ChatMessage>, stream: bool, pseudo: bool) -> (r:
        ChatRequest)
        ensures
            r.model@ == self.model@,
            r.messages@ == messages@,
            r.stream == stream,
            r.thinking_type@ == (if self.thinking {
                "enabled"@
            } else {
                "disabled"@
            }),
            opt_text(r.reasoning_effort) == (if self.thinking {
                Some(self.reasoning_effort@)
            } else {
                None
            }),
            r.max_tokens == (if pseudo {
                Some(8192u32)
            } else {
                None
            }),
            r.include_usage == stream,
    {
        ChatRequest {
            model: self.model.clone(),
            messages,
            stream,
            thinking_type: if self.thinking {
                owned("enabled")
            } else {
                owned("disabled")
            },
            reasoning_effort: if self.thinking {
                Some(self.reasoning_effort.clone())
            } else {
                None
            },
            max_tokens: if pseudo {
                Some(8192)
            } else {
                None
            },
            include_usage: stream,
        }
    }
}

// ---------------------------------------------------------------------------
// Cutting a buffer where a tag may begin
// ---------------------------------------------------------------------------

/// Whether the last `k` characters of `b` are the first `k` of `t`.
pub open spec fn ends_with_start_of<A>(b: Seq<A>, t: Seq<A>, k: int) -> bool {
    0 <= k <= b.len() && k <= t.len() && b.subrange(b.len() - k, b.len() as int) == t.subrange(
        0,
        k,
    )
}

/// Trying overlaps `k`, `k - 1`, …, `1`: the start of the first one at which
/// the buffer ends with the start of the tag; the buffer's length if none.
pub open spec fn safe_split_from<A>(b: Seq<A>, t: Seq<A>, k: int) -> int
    decreases k,
{
    if k <= 0 {
        b.len() as int
    } else if ends_with_start_of(b, t, k) {
        b.len() - k
    } else {
        safe_split_from(b, t, k - 1)
    }
}

/// Where a buffer can safely be cut: everything before the result holds no
/// beginning of `t`; what follows may be the beginning of `t`, to be kept
/// until more text arrives. Overlaps shorter than the tag are tried, longest
/// first.
pub open spec fn safe_split<A>(b: Seq<A>, t: Seq<A>) -> int {
    safe_split_from(b, t, if b.len() < t.len() - 1 {
        b.len() as int
    } else {
        t.len() - 1
    })
}

/// The byte position up to which a buffer holds no beginning of `tag`:
/// what follows it may be the start of `tag` and is kept for the next chunk.
pub fn find_safe_split(buffer: &str, tag: &str) -> (r: usize)
    requires
        tag.spec_bytes().len() >= 1,
    ensures
        r == safe_split(buffer.spec_bytes(), tag.spec_bytes()),
{
    let buf_bytes = buffer.as_bytes();
    let tag_bytes = tag.as_bytes();
    let n = buf_bytes.len();
    let max_overlap = if n < tag_bytes.len() - 1 {
        n
    } else {
        tag_bytes.len() - 1
    };
    let mut overlap = max_overlap;
    while overlap >= 1
        invariant
            overlap <= max_overlap,
            max_overlap <= n,
            max_overlap < tag_bytes@.len(),
            n == buf_bytes@.len(),
            buf_bytes@ == buffer.spec_bytes(),
            tag_bytes@ == tag.spec_bytes(),
            safe_split(buf_bytes@, tag_bytes@) == safe_split_from(
                buf_bytes@,
                tag_bytes@,
                overlap as int,
            ),
        decreases overlap,
    {
        let mut k: usize = 0;
        let mut same = true;
        while k < overlap
            invariant
                k <= overlap,
                overlap <= n,
                overlap < tag_bytes@.len(),
                n == buf_bytes@.len(),
                same == (forall|m: int|
                    0 <= m < k ==> buf_bytes@[n - overlap + m] == tag_bytes@[m]),
            decreases overlap - k,
        {
            if buf_bytes[n - overlap + k] != tag_bytes[k] {
                same = false;
            }
            k = k + 1;
        }
        if same {
            assert(buf_bytes@.subrange(n - overlap, n as int) =~= tag_bytes@.subrange(
                0,
                overlap as int,
            ));
            return n - overlap;
        } else {
            assert(!ends_with_start_of(buf_bytes@, tag_bytes@, overlap as int)) by {
                if ends_with_start_of(buf_bytes@, tag_bytes@, overlap as int) {
                    assert forall|m: int| 0 <= m < overlap implies buf_bytes@[n - overlap + m]
                        == tag_bytes@[m] by {
                        assert(buf_bytes@.subrange(n - overlap, n as int)[m]
                            == tag_bytes@.subrange(0, overlap as int)[m]);
                    }
                }
            }
        }
        overlap = overlap - 1;
    }
    n
}

/// For an ASCII tag, the part kept at the end of a buffer is the same
/// whether the buffer is read as characters or as UTF-8 bytes.
proof fn lemma_safe_split_ascii(cs: Seq<char>, t: Seq<char>)
    requires
        vstd::utf8::is_ascii_chars(t),
        t.len() >= 1,
    ensures
        vstd::utf8::encode_utf8(cs).len() - safe_split(
            vstd::utf8::encode_utf8(cs),
            vstd::utf8::encode_utf8(t),
        ) == cs.len() - safe_split(cs, t),
{
    let e = vstd::utf8::encode_utf8(cs);
    let te = vstd::utf8::encode_utf8(t);
    vstd::utf8::is_ascii_chars_encode_utf8(t);
    assert(te.len() == t.len());
    lemma_safe_split_props(e, te);
    lemma_safe_split_props(cs, t);
    let ke = e.len() - safe_split(e, te);
    let kc = cs.len() - safe_split(cs, t);
    assert forall|m: int| 1 <= m < t.len() implies (ends_with_start_of(e, te, m)
        <==> ends_with_start_of(cs, t, m)) by {
        let u = t.subrange(0, m);
        assert(vstd::utf8::is_ascii_chars(u)) by {
            assert forall|i: int| 0 <= i < u.len() implies '\0' <= #[trigger] u[i] <= '\u{7f}' by {
                assert(u[i] == t[i]);
            }
        }
        vstd::utf8::is_ascii_chars_encode_utf8(u);
        assert(vstd::utf8::encode_utf8(u) =~= te.subrange(0, m)) by {
            assert forall|i: int| 0 <= i < m implies vstd::utf8::encode_utf8(u)[i] == te.subrange(
                0,
                m,
            )[i] by {
                assert(u[i] == t[i]);
            }
        }
        crate::text::lemma_ends_with_ascii(cs, u);
    }
    if kc > 0 {
        assert(ends_with_start_of(cs, t, kc));
        assert(ends_with_start_of(e, te, kc));
    }
    if ke > 0 {
        assert(ends_with_start_of(e, te, ke));
        assert(ends_with_start_of(cs, t, ke));
    }
}

// ---------------------------------------------------------------------------
// `@e2e4` marks
// ---------------------------------------------------------------------------

/// A coordinate-notation file letter.
pub fn is_uci_char(c: char) -> (r: bool)
    ensures
        r == is_file_char(c),
{
    'a' <= c && c <= 'h'
}

/// A coordinate-notation rank digit.
pub fn is_uci_digit(c: char) -> (r: bool)
    ensures
        r == is_rank_char(c),
{
    '1' <= c && c <= '8'
}

/// No letter or digit at position `i` (or the text ends before it).
pub open spec fn word_ends_at(cs: Seq<char>, i: int) -> bool {
    i >= cs.len() || !alphanumeric(cs[i])
}

/// `@` at `i` followed by a promotion move (`@e7e8q`) that ends a word.
pub open spec fn at_five(cs: Seq<char>, i: int) -> bool {
    &&& 0 <= i && i + 5 < cs.len()
    &&& cs[i] == '@'
    &&& is_file_char(cs[i + 1]) && is_rank_char(cs[i + 2])
    &&& is_file_char(cs[i + 3]) && is_rank_char(cs[i + 4])
    &&& is_promo_char(cs[i + 5])
    &&& word_ends_at(cs, i + 6)
}

/// `@` at `i` followed by a move (`@e2e4`) that ends a word.
pub open spec fn at_four(cs: Seq<char>, i: int) -> bool {
    &&& 0 <= i && i + 4 < cs.len()
    &&& cs[i] == '@'
    &&& is_file_char(cs[i + 1]) && is_rank_char(cs[i + 2])
    &&& is_file_char(cs[i + 3]) && is_rank_char(cs[i + 4])
    &&& word_ends_at(cs, i + 5)
}

/// Scanning from `i`: the last `@move` mark, marks being read left to right
/// without overlap.
pub open spec fn at_pick_from(cs: Seq<char>, i: nat, best: Option<Seq<char>>) -> Option<Seq<char>>
    decreases cs.len() - i,
{
    if i >= cs.len() {
        best
    } else if at_five(cs, i as int) {
        at_pick_from(cs, i + 6, Some(cs.subrange(i + 1 as int, i + 6 as int)))
    } else if at_four(cs, i as int) {
        at_pick_from(cs, i + 5, Some(cs.subrange(i + 1 as int, i + 5 as int)))
    } else {
        at_pick_from(cs, i + 1, best)
    }
}

/// The last `@move` mark of a text, read after lower-casing it.
pub open spec fn at_pick(text: Seq<char>) -> Option<Seq<char>> {
    at_pick_from(lowercase_of(text), 0, None)
}

fn word_ends(cs: &[char], i: usize) -> (r: bool)
    ensures
        r == word_ends_at(cs@, i as int),
{
    i >= cs.len() || !is_alphanumeric(cs[i])
}

/// The move of the last `@e2e4` / `@e7e8q` mark in a text (case ignored); a
/// mark counts only when no letter or digit follows it.
pub fn extract_at_pick(text: &str) -> (r: Option<String>)
    ensures
        opt_text(r) == at_pick(text@),
{
    let lower = to_lowercase(text);
    let cs = chars_of(lower.as_str());
    let n = cs.len();
    let mut best: Option<String> = None;
    let mut i: usize = 0;
    while i < n
        invariant
            i <= n,
            n == cs@.len(),
            cs@ == lowercase_of(text@),
            at_pick(text@) == at_pick_from(cs@, i as nat, opt_text(best)),
        decreases n - i,
    {
        if cs[i] == '@' {
            if n - i > 5 && is_uci_char(cs[i + 1]) && is_uci_digit(cs[i + 2]) && is_uci_char(
                cs[i + 3],
            ) && is_uci_digit(cs[i + 4]) && (cs[i + 5] == 'q' || cs[i + 5] == 'r' || cs[i + 5]
                == 'b' || cs[i + 5] == 'n') && word_ends(cs.as_slice(), i + 6) {
                let mv = slice_chars(cs.as_slice(), i + 1, i + 6);
                best = Some(string_of(mv.as_slice()));
                i = i + 6;
                continue ;
            }
            if n - i > 4 && is_uci_char(cs[i + 1]) && is_uci_digit(cs[i + 2]) && is_uci_char(
                cs[i + 3],
            ) && is_uci_digit(cs[i + 4]) && word_ends(cs.as_slice(), i + 5) {
                let mv = slice_chars(cs.as_slice(), i + 1, i + 5);
                best = Some(string_of(mv.as_slice()));
                i = i + 5;
                continue ;
            }
        }
        i = i + 1;
    }
    best
}

// ---------------------------------------------------------------------------
// `!!` notes
// ---------------------------------------------------------------------------

/// Characters that end a note: a line break or the start of a tag or mark.
pub open spec fn is_note_stop(c: char) -> bool {
    c == '\n' || c == '<' || c == '@'
}

/// Length of the text before the first note-ending character.
pub open spec fn note_end(s: Seq<char>) -> nat
    decreases s.len(),
{
    if s.len() == 0 {
        0
    } else if is_note_stop(s[0]) {
        0
    } else {
        1 + note_end(s.drop_first())
    }
}

/// Scanning for `!!` from `from`: the last non-blank note, each note being
/// the trimmed text after a `!!` up to a line break, `<` or `@`.
pub open spec fn notes_from(t: Seq<char>, from: nat, best: Option<Seq<char>>) -> Option<Seq<char>>
    decreases t.len() - from,
{
    match find_from(t, seq!['!', '!'], from as int) {
        None => best,
        Some(p) => {
            let st = p + 2;
            let rest = t.subrange(st, t.len() as int);
            let note = trim(rest.subrange(0, note_end(rest) as int));
            proof {
                lemma_find_from_props(t, seq!['!', '!'], from as int);
            }
            notes_from(
                t,
                st as nat,
                if note.len() > 0 {
                    Some(note)
                } else {
                    best
                },
            )
        },
    }
}

/// The notes a reply leaves for the next move: from the content, else from
/// the reasoning, else empty.
pub open spec fn notes_of(content: Seq<char>, reasoning: Seq<char>) -> Seq<char> {
    match notes_from(content, 0, None) {
        Some(n) => n,
        None => match notes_from(reasoning, 0, None) {
            Some(n) => n,
            None => seq![],
        },
    }
}

proof fn lemma_note_end(s: Seq<char>, k: int)
    requires
        0 <= k <= s.len(),
        forall|m: int| 0 <= m < k ==> !is_note_stop(#[trigger] s[m]),
        k == s.len() || is_note_stop(s[k]),
    ensures
        note_end(s) == k,
    decreases k,
{
    if k > 0 {
        let t = s.drop_first();
        assert forall|m: int| 0 <= m < k - 1 implies !is_note_stop(#[trigger] t[m]) by {
            assert(t[m] == s[m + 1]);
        }
        if k < s.len() {
            assert(t[k - 1] == s[k]);
        }
        lemma_note_end(t, k - 1);
    }
}

/// The last note (`!!…`) of a text, if any.
pub fn extract_notes_from_text(text: &str) -> (r: Option<String>)
    ensures
        opt_text(r) == notes_from(text@, 0, None),
{
    let cs = chars_of(text);
    let n = cs.len();
    let bang: [char; 2] = ['!', '!'];
    assert(bang@ == seq!['!', '!']);
    let mut best: Option<String> = None;
    let mut search_from: usize = 0;
    loop
        invariant
            search_from <= n,
            n == cs@.len(),
            cs@ == text@,
            bang@ == seq!['!', '!'],
            notes_from(text@, 0, None) == notes_from(cs@, search_from as nat, opt_text(best)),
        decreases n - search_from,
    {
        let f = find_chars(cs.as_slice(), bang.as_slice(), search_from);
        proof {
            lemma_find_from_props(cs@, seq!['!', '!'], search_from as int);
        }
        let pos = match f {
            None => {
                return best;
            },
            Some(p) => p,
        };
        let start = pos + 2;
        let rest = slice_chars(cs.as_slice(), start, n);
        let mut end: usize = 0;
        while end < rest.len() && !(rest[end] == '\n' || rest[end] == '<' || rest[end] == '@')
            invariant
                end <= rest@.len(),
                forall|m: int| 0 <= m < end ==> !is_note_stop(#[trigger] rest@[m]),
            decreases rest.len() - end,
        {
            end = end + 1;
        }
        proof {
            lemma_note_end(rest@, end as int);
        }
        let body = slice_chars(rest.as_slice(), 0, end);
        let note = trim_chars(body.as_slice());
        if note.len() > 0 {
            best = Some(string_of(note.as_slice()));
        }
        search_from = start;
    }
}

/// The notes a reply leaves (`!!` followed by the summary, up to a line
/// break, `<` or `@`; the last one counts): from the content, else from the
/// reasoning, else empty.
pub fn extract_notes(content: &str, reasoning: &str) -> (r: String)
    ensures
        r@ == notes_of(content@, reasoning@),
{
    match extract_notes_from_text(content) {
        Some(n) => {
            return n;
        },
        None => {},
    }
    match extract_notes_from_text(reasoning) {
        Some(n) => {
            return n;
        },
        None => {},
    }
    String::new()
}

// ---------------------------------------------------------------------------
// Picks from `<move>` tags and from mentions of legal moves
// ---------------------------------------------------------------------------

pub open spec fn move_open_chars() -> Seq<char> {
    seq!['<', 'm', 'o', 'v', 'e', '>']
}

pub open spec fn move_close_chars() -> Seq<char> {
    seq!['<', '/', 'm', 'o', 'v', 'e', '>']
}

/// The first `n` characters (all of them if fewer).
pub open spec fn take_chars(s: Seq<char>, n: int) -> Seq<char> {
    if s.len() <= n {
        s
    } else {
        s.subrange(0, n)
    }
}

/// The first legal move (lower-cased) that `rem` begins with.
pub open spec fn first_prefix_move(rem: Seq<char>, legal: Seq<Seq<char>>) -> Option<Seq<char>>
    decreases legal.len(),
{
    if legal.len() == 0 {
        None
    } else if starts_with(rem, lowercase_of(legal[0])) {
        Some(lowercase_of(legal[0]))
    } else {
        first_prefix_move(rem, legal.drop_first())
    }
}

/// The first legal move (lower-cased) equal to `m`.
pub open spec fn first_equal_move(m: Seq<char>, legal: Seq<Seq<char>>) -> Option<Seq<char>>
    decreases legal.len(),
{
    if legal.len() == 0 {
        None
    } else if m == lowercase_of(legal[0]) {
        Some(lowercase_of(legal[0]))
    } else {
        first_equal_move(m, legal.drop_first())
    }
}

/// A `<move>` tag that is still open at the end of the text (case ignored):
/// the first legal move that its first five non-blank characters begin with.
pub open spec fn open_tag_pick(text: Seq<char>, legal: Seq<Seq<char>>) -> Option<Seq<char>> {
    if legal.len() == 0 {
        None
    } else {
        let l = lowercase_of(text);
        match rfind(l, move_open_chars()) {
            None => None,
            Some(p) => {
                let after = l.subrange(p + 6, l.len() as int);
                if contains_seq(after, move_close_chars()) {
                    None
                } else {
                    first_prefix_move(lowercase_of(take_chars(trim(after), 5)), legal)
                }
            },
        }
    }
}

/// Scanning closed tag pairs from `from`: the last one whose first five
/// trimmed characters are a legal move.
pub open spec fn closed_from(l: Seq<char>, from: nat, legal: Seq<Seq<char>>, best: Option<Seq<char>>) -> Option<
    Seq<char>,
>
    decreases l.len() - from,
{
    match find_from(l, move_open_chars(), from as int) {
        None => best,
        Some(p) => {
            let cs = p + 6;
            match find_from(l, move_close_chars(), cs) {
                None => best,
                Some(q) => {
                    let m = take_chars(trim(l.subrange(cs, q)), 5);
                    let next = match first_equal_move(m, legal) {
                        Some(x) => Some(x),
                        None => best,
                    };
                    proof {
                        lemma_find_from_props(l, move_open_chars(), from as int);
                        lemma_find_from_props(l, move_close_chars(), cs);
                    }
                    closed_from(l, (q + 7) as nat, legal, next)
                },
            }
        },
    }
}

/// The legal move of the last closed `<move>…</move>` pair (case ignored).
pub open spec fn closed_tag_pick(text: Seq<char>, legal: Seq<Seq<char>>) -> Option<Seq<char>> {
    if legal.len() == 0 {
        None
    } else {
        closed_from(lowercase_of(text), 0, legal, None)
    }
}

/// The last 200 characters of a text.
pub open spec fn tail_window(cs: Seq<char>) -> Seq<char> {
    if cs.len() > 200 {
        cs.subrange(cs.len() - 200, cs.len() as int)
    } else {
        cs
    }
}

/// Going through the legal moves in order: the one whose last mention in
/// `w` lies furthest on (an earlier move wins a tie), with that position.
pub open spec fn latest_mention(w: Seq<char>, legal: Seq<Seq<char>>, best: Option<(int, Seq<char>)>) -> Option<
    (int, Seq<char>),
>
    decreases legal.len(),
{
    if legal.len() == 0 {
        best
    } else {
        let m = lowercase_of(legal[0]);
        let next = match rfind(w, m) {
            Some(pos) => if (best matches Some(b) ==> pos > b.0) {
                Some((pos, m))
            } else {
                best
            },
            None => best,
        };
        latest_mention(w, legal.drop_first(), next)
    }
}

/// The legal move mentioned last within the final 200 characters of a text
/// (case ignored).
pub open spec fn last_legal_pick(text: Seq<char>, legal: Seq<Seq<char>>) -> Option<Seq<char>> {
    if legal.len() == 0 {
        None
    } else {
        match latest_mention(lowercase_of(tail_window(text)), legal, None) {
            Some(b) => Some(b.1),
            None => None,
        }
    }
}

/// The lower-cased legal moves, in order.
fn lowered_moves(legal_moves: &[String]) -> (r: Vec<Vec<char>>)
    ensures
        r@.len() == legal_moves@.len(),
        forall|i: int| 0 <= i < r@.len() ==> #[trigger] r@[i]@ == lowercase_of(legal_moves@[i]@),
{
    let mut out: Vec<Vec<char>> = Vec::new();
    let mut i: usize = 0;
    while i < legal_moves.len()
        invariant
            i <= legal_moves@.len(),
            out@.len() == i,
            forall|k: int| 0 <= k < i ==> #[trigger] out@[k]@ == lowercase_of(legal_moves@[k]@),
        decreases legal_moves.len() - i,
    {
        let l = to_lowercase(legal_moves[i].as_str());
        out.push(chars_of(l.as_str()));
        i = i + 1;
    }
    out
}

pub open spec fn texts_of(v: Seq<String>) -> Seq<Seq<char>> {
    Seq::new(v.len(), |i: int| v[i]@)
}

/// A tag that is still open: the first legal move that the first five
/// non-blank characters after the last `<move>` begin with, when no
/// `</move>` follows it (case ignored).
pub fn extract_open_move_tag(text: &str, legal_moves: &[String]) -> (r: Option<String>)
    ensures
        opt_text(r) == open_tag_pick(text@, texts_of(legal_moves@)),
{
    if legal_moves.len() == 0 {
        return None;
    }
    let lower = to_lowercase(text);
    let l = chars_of(lower.as_str());
    let open: [char; 6] = ['<', 'm', 'o', 'v', 'e', '>'];
    let close: [char; 7] = ['<', '/', 'm', 'o', 'v', 'e', '>'];
    assert(open@ == move_open_chars());
    assert(close@ == move_close_chars());
    let last_open = match rfind_chars(l.as_slice(), open.as_slice()) {
        None => {
            return None;
        },
        Some(p) => p,
    };
    proof {
        crate::text::lemma_rfind_upto_props(l@, move_open_chars(), l@.len() - 6);
    }
    let n = l.len();
    let after = slice_chars(l.as_slice(), last_open + 6, n);
    if contains_chars(after.as_slice(), close.as_slice()) {
        return None;
    }
    let t = trim_chars(after.as_slice());
    let k = if t.len() <= 5 {
        t.len()
    } else {
        5
    };
    let head = slice_chars(t.as_slice(), 0, k);
    assert(head@ =~= take_chars(trim(after@), 5));
    let remaining = string_of(head.as_slice());
    let remaining_lower = to_lowercase(remaining.as_str());
    let rem = chars_of(remaining_lower.as_str());
    let lowered = lowered_moves(legal_moves);
    let ghost legal = texts_of(legal_moves@);
    let mut i: usize = 0;
    assert(legal.subrange(0, legal.len() as int) =~= legal);
    while i < lowered.len()
        invariant
            i <= lowered@.len(),
            lowered@.len() == legal.len(),
            legal == texts_of(legal_moves@),
            forall|j: int| 0 <= j < lowered@.len() ==> #[trigger] lowered@[j]@ == lowercase_of(legal[j]),
            open_tag_pick(text@, legal) == first_prefix_move(rem@, legal.subrange(i as int, legal.len() as int)),
        decreases lowered.len() - i,
    {
        let ghost sub = legal.subrange(i as int, legal.len() as int);
        assert(sub[0] == legal[i as int]);
        assert(sub.drop_first() =~= legal.subrange(i + 1, legal.len() as int));
        if starts_with_chars(rem.as_slice(), lowered[i].as_slice()) {
            return Some(string_of(lowered[i].as_slice()));
        }
        i = i + 1;
    }
    None
}

fn first_equal_in(m: &[char], lowered: &Vec<Vec<char>>, Ghost(legal): Ghost<Seq<Seq<char>>>) -> (r: Option<String>)
    requires
        lowered@.len() == legal.len(),
        forall|j: int| 0 <= j < lowered@.len() ==> #[trigger] lowered@[j]@ == lowercase_of(legal[j]),
    ensures
        opt_text(r) == first_equal_move(m@, legal),
{
    let mut i: usize = 0;
    assert(legal.subrange(0, legal.len() as int) =~= legal);
    while i < lowered.len()
        invariant
            i <= lowered@.len(),
            lowered@.len() == legal.len(),
            forall|j: int| 0 <= j < lowered@.len() ==> #[trigger] lowered@[j]@ == lowercase_of(legal[j]),
            first_equal_move(m@, legal) == first_equal_move(m@, legal.subrange(i as int, legal.len() as int)),
        decreases lowered.len() - i,
    {
        let ghost sub = legal.subrange(i as int, legal.len() as int);
        assert(sub[0] == legal[i as int]);
        assert(sub.drop_first() =~= legal.subrange(i + 1, legal.len() as int));
        if crate::text::chars_eq(m, lowered[i].as_slice()) {
            return Some(string_of(lowered[i].as_slice()));
        }
        i = i + 1;
    }
    None
}

/// The legal move of the last closed `<move>…</move>` pair whose first five
/// trimmed characters name one (case ignored).
pub fn extract_closed_move_tag(text: &str, legal_moves: &[String]) -> (r: Option<String>)
    ensures
        opt_text(r) == closed_tag_pick(text@, texts_of(legal_moves@)),
{
    if legal_moves.len() == 0 {
        return None;
    }
    let lower = to_lowercase(text);
    let l = chars_of(lower.as_str());
    let n = l.len();
    let open: [char; 6] = ['<', 'm', 'o', 'v', 'e', '>'];
    let close: [char; 7] = ['<', '/', 'm', 'o', 'v', 'e', '>'];
    assert(open@ == move_open_chars());
    assert(close@ == move_close_chars());
    let lowered = lowered_moves(legal_moves);
    let ghost legal = texts_of(legal_moves@);
    let mut best: Option<String> = None;
    let mut search_from: usize = 0;
    loop
        invariant
            search_from <= n,
            n == l@.len(),
            l@ == lowercase_of(text@),
            open@ == move_open_chars(),
            close@ == move_close_chars(),
            legal == texts_of(legal_moves@),
            legal.len() > 0,
            lowered@.len() == legal.len(),
            forall|j: int| 0 <= j < lowered@.len() ==> #[trigger] lowered@[j]@ == lowercase_of(legal[j]),
            closed_tag_pick(text@, legal) == closed_from(l@, search_from as nat, legal, opt_text(best)),
        decreases n - search_from,
    {
        let open_pos = match find_chars(l.as_slice(), open.as_slice(), search_from) {
            None => {
                return best;
            },
            Some(p) => p,
        };
        proof {
            lemma_find_from_props(l@, move_open_chars(), search_from as int);
        }
        let content_start = open_pos + 6;
        let close_pos = match find_chars(l.as_slice(), close.as_slice(), content_start) {
            None => {
                return best;
            },
            Some(q) => q,
        };
        proof {
            lemma_find_from_props(l@, move_close_chars(), content_start as int);
        }
        let inner = slice_chars(l.as_slice(), content_start, close_pos);
        let t = trim_chars(inner.as_slice());
        let k = if t.len() <= 5 {
            t.len()
        } else {
            5
        };
        let m = slice_chars(t.as_slice(), 0, k);
        assert(m@ =~= take_chars(trim(inner@), 5));
        match first_equal_in(m.as_slice(), &lowered, Ghost(legal)) {
            Some(x) => {
                best = Some(x);
            },
            None => {},
        }
        search_from = close_pos + 7;
    }
}

/// The legal move mentioned last within the final 200 characters of a text
/// (case ignored); an earlier legal move wins a tie.
pub fn extract_last_legal_move(text: &str, legal_moves: &[String]) -> (r: Option<String>)
    ensures
        opt_text(r) == last_legal_pick(text@, texts_of(legal_moves@)),
{
    if legal_moves.len() == 0 {
        return None;
    }
    let chars = chars_of(text);
    let start = if chars.len() > 200 {
        chars.len() - 200
    } else {
        0
    };
    let window = slice_chars(chars.as_slice(), start, chars.len());
    assert(window@ =~= tail_window(text@));
    let ws = string_of(window.as_slice());
    let window_lower = to_lowercase(ws.as_str());
    let w = chars_of(window_lower.as_str());
    let lowered = lowered_moves(legal_moves);
    let ghost legal = texts_of(legal_moves@);
    let mut best_pos: usize = 0;
    let mut best: Option<String> = None;
    let mut i: usize = 0;
    assert(legal.subrange(0, legal.len() as int) =~= legal);
    while i < lowered.len()
        invariant
            i <= lowered@.len(),
            lowered@.len() == legal.len(),
            legal == texts_of(legal_moves@),
            legal.len() > 0,
            w@ == lowercase_of(tail_window(text@)),
            forall|j: int| 0 <= j < lowered@.len() ==> #[trigger] lowered@[j]@ == lowercase_of(legal[j]),
            latest_mention(w@, legal, None) == latest_mention(
                w@,
                legal.subrange(i as int, legal.len() as int),
                match best {
                    Some(b) => Some((best_pos as int, b@)),
                    None => None,
                },
            ),
        decreases lowered.len() - i,
    {
        let ghost sub = legal.subrange(i as int, legal.len() as int);
        assert(sub[0] == legal[i as int]);
        assert(sub.drop_first() =~= legal.subrange(i + 1, legal.len() as int));
        match rfind_chars(w.as_slice(), lowered[i].as_slice()) {
            Some(pos) => {
                let better = match &best {
                    Some(_) => pos > best_pos,
                    None => true,
                };
                if better {
                    best_pos = pos;
                    best = Some(string_of(lowered[i].as_slice()));
                }
            },
            None => {},
        }
        i = i + 1;
    }
    assert(legal.subrange(i as int, legal.len() as int) =~= Seq::<Seq<char>>::empty());
    best
}

// ---------------------------------------------------------------------------
// `<LMTHINK>` pseudo-reasoning in streamed content
// ---------------------------------------------------------------------------

/// `<LMTHINK>`
pub open spec fn lm_start() -> Seq<char> {
    seq!['<', 'L', 'M', 'T', 'H', 'I', 'N', 'K', '>']
}

/// `</LMTHINK>`
pub open spec fn lm_end() -> Seq<char> {
    seq!['<', '/', 'L', 'M', 'T', 'H', 'I', 'N', 'K', '>']
}

/// The pseudo-reasoning parser run over its pending text: the reasoning it
/// gives out, whether it is inside a tag afterwards, and the text it keeps
/// for the next chunk (a possible beginning of a tag). Inside a tag, text up
/// to `</LMTHINK>` is reasoning; outside, text up to `<LMTHINK>` is dropped.
pub open spec fn lm_run(inside: bool, buf: Seq<char>) -> (Seq<char>, bool, Seq<char>)
    decreases buf.len(),
{
    if inside {
        match find_from(buf, lm_end(), 0) {
            Some(p) => {
                proof {
                    lemma_find_from_props(buf, lm_end(), 0);
                }
                let r = lm_run(false, buf.subrange(p + 10, buf.len() as int));
                (buf.subrange(0, p) + r.0, r.1, r.2)
            },
            None => {
                let s = safe_split(buf, lm_end());
                (buf.subrange(0, s), true, buf.subrange(s, buf.len() as int))
            },
        }
    } else {
        match find_from(buf, lm_start(), 0) {
            Some(p) => {
                proof {
                    lemma_find_from_props(buf, lm_start(), 0);
                }
                lm_run(true, buf.subrange(p + 9, buf.len() as int))
            },
            None => {
                let s = safe_split(buf, lm_start());
                (seq![], false, buf.subrange(s, buf.len() as int))
            },
        }
    }
}

proof fn lemma_safe_split_from<A>(b: Seq<A>, t: Seq<A>, kk: int)
    requires
        0 <= kk <= b.len(),
        kk < t.len(),
    ensures
        0 <= b.len() - safe_split_from(b, t, kk) <= kk,
        b.len() - safe_split_from(b, t, kk) > 0 ==> ends_with_start_of(
            b,
            t,
            b.len() - safe_split_from(b, t, kk),
        ),
        forall|m: int|
            b.len() - safe_split_from(b, t, kk) < m <= kk ==> !#[trigger] ends_with_start_of(b, t, m),
    decreases kk,
{
    if kk > 0 && !ends_with_start_of(b, t, kk) {
        lemma_safe_split_from(b, t, kk - 1);
    }
}

/// The cut point keeps the longest possible beginning of the tag, shorter
/// than the tag.
proof fn lemma_safe_split_props<A>(b: Seq<A>, t: Seq<A>)
    requires
        t.len() >= 1,
    ensures
        0 <= b.len() - safe_split(b, t) <= b.len(),
        b.len() - safe_split(b, t) < t.len(),
        b.len() - safe_split(b, t) > 0 ==> ends_with_start_of(b, t, b.len() - safe_split(b, t)),
        forall|m: int|
            b.len() - safe_split(b, t) < m <= b.len() && m < t.len() ==> !#[trigger] ends_with_start_of(
                b,
                t,
                m,
            ),
{
    let kk = if b.len() < t.len() - 1 {
        b.len() as int
    } else {
        t.len() - 1
    };
    lemma_safe_split_from(b, t, kk);
}

/// A first occurrence stays the first when text is appended.
proof fn lemma_find_prefix_stable(x: Seq<char>, y: Seq<char>, t: Seq<char>)
    requires
        find_from(x, t, 0) is Some,
    ensures
        find_from(x + y, t, 0) == find_from(x, t, 0),
{
    let z = x + y;
    let p = find_from(x, t, 0)->0;
    lemma_find_from_props(x, t, 0);
    lemma_find_from_props(z, t, 0);
    assert(z.subrange(p, p + t.len()) =~= x.subrange(p, p + t.len()));
    assert(occurs_at(z, p, t));
    match find_from(z, t, 0) {
        Some(q) => {
            if q < p {
                assert(z.subrange(q, q + t.len()) =~= x.subrange(q, q + t.len()));
                assert(occurs_at(x, q, t));
            }
        },
        None => {},
    }
}

/// Positions that hold no occurrence can be skipped by the search.
proof fn lemma_find_skip(z: Seq<char>, t: Seq<char>, i: int, s: int)
    requires
        0 <= i <= s,
        forall|j: int| i <= j < s ==> !#[trigger] occurs_at(z, j, t),
    ensures
        find_from(z, t, i) == find_from(z, t, s),
    decreases s - i,
{
    if i < s {
        if i > z.len() || i + t.len() > z.len() {
            assert(find_from(z, t, s) is None);
        } else {
            assert(!occurs_at(z, i, t));
            lemma_find_skip(z, t, i + 1, s);
        }
    }
}

/// With no tag in `x`, no tag of `x + y` starts before the cut point of `x`.
proof fn lemma_no_early_match(x: Seq<char>, y: Seq<char>, t: Seq<char>)
    requires
        t.len() >= 1,
        find_from(x, t, 0) is None,
    ensures
        forall|j: int| 0 <= j < safe_split(x, t) ==> !#[trigger] occurs_at(x + y, j, t),
{
    let z = x + y;
    let s = safe_split(x, t);
    lemma_safe_split_props(x, t);
    lemma_find_from_props(x, t, 0);
    assert forall|j: int| 0 <= j < s implies !#[trigger] occurs_at(z, j, t) by {
        if occurs_at(z, j, t) {
            if j + t.len() <= x.len() {
                assert(z.subrange(j, j + t.len()) =~= x.subrange(j, j + t.len()));
                assert(occurs_at(x, j, t));
            } else {
                let m = x.len() - j;
                assert forall|i: int| 0 <= i < m implies x.subrange(j, x.len() as int)[i]
                    == t.subrange(0, m)[i] by {
                    assert(z.subrange(j, j + t.len())[i] == t[i]);
                }
                assert(x.subrange(j, x.len() as int) =~= t.subrange(0, m));
                assert(ends_with_start_of(x, t, m));
            }
        }
    }
}

/// Where neither `x` nor `x + y` holds the tag, cutting `x` first leaves the
/// same tail to keep.
proof fn lemma_safe_split_concat(x: Seq<char>, y: Seq<char>, t: Seq<char>)
    requires
        t.len() >= 1,
        find_from(x, t, 0) is None,
    ensures
        ({
            let z = x + y;
            let w = z.subrange(safe_split(x, t), z.len() as int);
            z.len() - safe_split(z, t) == w.len() - safe_split(w, t)
        }),
{
    let z = x + y;
    let s = safe_split(x, t);
    lemma_safe_split_props(x, t);
    let w = z.subrange(s, z.len() as int);
    lemma_safe_split_props(z, t);
    lemma_safe_split_props(w, t);
    let kz = z.len() - safe_split(z, t);
    let kw = w.len() - safe_split(w, t);
    if kw > 0 {
        assert(ends_with_start_of(w, t, kw));
        assert(z.subrange(z.len() - kw, z.len() as int) =~= w.subrange(
            w.len() - kw,
            w.len() as int,
        ));
        assert(ends_with_start_of(z, t, kw));
    }
    if kz > 0 {
        assert(ends_with_start_of(z, t, kz));
        if kz <= w.len() {
            assert(z.subrange(z.len() - kz, z.len() as int) =~= w.subrange(
                w.len() - kz,
                w.len() as int,
            ));
            assert(ends_with_start_of(w, t, kz));
        } else {
            let j = z.len() - kz;
            let m = x.len() - j;
            assert forall|i: int| 0 <= i < m implies x.subrange(j, x.len() as int)[i] == t.subrange(
                0,
                m,
            )[i] by {
                assert(z.subrange(j, z.len() as int)[i] == t.subrange(0, kz)[i]);
            }
            assert(x.subrange(j, x.len() as int) =~= t.subrange(0, m));
            assert(ends_with_start_of(x, t, m));
        }
    }
}

/// Parsing pending text `x + y` where `x` holds no tag: the part of `x`
/// before its cut point is dealt with at once (given out inside a tag,
/// dropped outside), and the rest is parsed with `y`.
proof fn lemma_lm_run_after_cut(inside: bool, x: Seq<char>, y: Seq<char>)
    requires
        find_from(x, if inside {
            lm_end()
        } else {
            lm_start()
        }, 0) is None,
    ensures
        ({
            let t = if inside {
                lm_end()
            } else {
                lm_start()
            };
            let s = safe_split(x, t);
            let w = x.subrange(s, x.len() as int) + y;
            let head = if inside {
                x.subrange(0, s)
            } else {
                seq![]
            };
            let a = lm_run(inside, w);
            lm_run(inside, x + y) == (head + a.0, a.1, a.2)
        }),
{
    let t = if inside {
        lm_end()
    } else {
        lm_start()
    };
    let z = x + y;
    let s = safe_split(x, t);
    lemma_safe_split_props(x, t);
    let w = x.subrange(s, x.len() as int) + y;
    assert(w =~= z.subrange(s, z.len() as int));
    lemma_no_early_match(x, y, t);
    lemma_find_skip(z, t, 0, s);
    lemma_find_from_suffix(z, t, s, 0);
    lemma_find_from_props(z, t, s);
    let head = if inside {
        x.subrange(0, s)
    } else {
        seq![]
    };
    let tl = if inside {
        10int
    } else {
        9int
    };
    match find_from(z, t, 0) {
        Some(q) => {
            assert(find_from(w, t, 0) == Some(q - s));
            assert(w.subrange(q - s + tl, w.len() as int) =~= z.subrange(q + tl, z.len() as int));
            if inside {
                assert(z.subrange(0, q) =~= x.subrange(0, s) + w.subrange(0, q - s));
            }
        },
        None => {
            assert(find_from(w, t, 0) is None);
            lemma_safe_split_concat(x, y, t);
            lemma_safe_split_props(z, t);
            lemma_safe_split_props(w, t);
            let sz = safe_split(z, t);
            let sw = safe_split(w, t);
            assert(z.subrange(sz, z.len() as int) =~= w.subrange(sw, w.len() as int));
            if inside {
                assert(z.subrange(0, sz) =~= x.subrange(0, s) + w.subrange(0, sw));
            }
        },
    }
}

/// Parsing `x + y` at once gives what parsing `x` and then, from the state it
/// leaves, the kept text followed by `y` gives.
proof fn lemma_lm_run_concat(inside: bool, x: Seq<char>, y: Seq<char>)
    ensures
        ({
            let a = lm_run(inside, x);
            let b = lm_run(a.1, a.2 + y);
            lm_run(inside, x + y) == (a.0 + b.0, b.1, b.2)
        }),
    decreases x.len(),
{
    let z = x + y;
    let t = if inside {
        lm_end()
    } else {
        lm_start()
    };
    let tl = if inside {
        10int
    } else {
        9int
    };
    match find_from(x, t, 0) {
        Some(p) => {
            lemma_find_prefix_stable(x, y, t);
            lemma_find_from_props(x, t, 0);
            let rest = x.subrange(p + tl, x.len() as int);
            assert(z.subrange(p + tl, z.len() as int) =~= rest + y);
            lemma_lm_run_concat(!inside, rest, y);
            if inside {
                assert(z.subrange(0, p) =~= x.subrange(0, p));
                let r = lm_run(false, rest);
                let b = lm_run(r.1, r.2 + y);
                assert(x.subrange(0, p) + r.0 + b.0 =~= x.subrange(0, p) + (r.0 + b.0));
            }
        },
        None => {
            lemma_lm_run_after_cut(inside, x, y);
            lemma_safe_split_props(x, t);
            let s = safe_split(x, t);
            if inside {
                assert(lm_run(inside, x) == (x.subrange(0, s), true, x.subrange(s, x.len() as int)));
            } else {
                assert(lm_run(inside, x) == (Seq::<char>::empty(), false, x.subrange(
                    s,
                    x.len() as int,
                )));
                let a = lm_run(inside, x.subrange(s, x.len() as int) + y);
                assert(Seq::<char>::empty() + a.0 =~= a.0);
            }
        },
    }
}

/// Pseudo-reasoning does not depend on how the streamed content is cut into
/// chunks: from any parser state, feeding `x` and then `y` gives out, in
/// total, what feeding `x + y` at once gives out, and leaves the same state.
pub proof fn law_lmthink_chunking(inside: bool, pending: Seq<char>, x: Seq<char>, y: Seq<char>)
    ensures
        ({
            let a = lm_run(inside, pending + x);
            let b = lm_run(a.1, a.2 + y);
            let c = lm_run(inside, pending + x + y);
            c.0 == a.0 + b.0 && c.1 == b.1 && c.2 == b.2
        }),
{
    lemma_lm_run_concat(inside, pending + x, y);
}

/// `find_safe_split` on a character buffer, as a character position (the
/// tags are ASCII, so the kept tail has as many characters as bytes).
fn char_safe_split(buf: &Vec<char>, tag: &str) -> (r: usize)
    requires
        tag@ == lm_start() || tag@ == lm_end(),
    ensures
        r == safe_split(buf@, tag@),
{
    let text = string_of(buf.as_slice());
    proof {
        assert(vstd::utf8::is_ascii_chars(tag@));
        vstd::utf8::is_ascii_chars_encode_utf8(tag@);
    }
    let ts = text.as_str();
    let cut = find_safe_split(ts, tag);
    let n_bytes = ts.as_bytes().len();
    proof {
        lemma_safe_split_ascii(buf@, tag@);
        lemma_safe_split_props(ts.spec_bytes(), tag.spec_bytes());
        lemma_safe_split_props(buf@, tag@);
    }
    buf.len() - (n_bytes - cut)
}

/// One pass of the pseudo-reasoning parser over its pending text.
fn lmthink_step(inside_at_start: bool, pending: Vec<char>) -> (r: (Vec<char>, bool, Vec<char>))
    ensures
        r.0@ == lm_run(inside_at_start, pending@).0,
        r.1 == lm_run(inside_at_start, pending@).1,
        r.2@ == lm_run(inside_at_start, pending@).2,
{
    let start_tag: [char; 9] = ['<', 'L', 'M', 'T', 'H', 'I', 'N', 'K', '>'];
    let end_tag: [char; 10] = ['<', '/', 'L', 'M', 'T', 'H', 'I', 'N', 'K', '>'];
    assert(start_tag@ == lm_start());
    assert(end_tag@ == lm_end());
    let ghost run0 = lm_run(inside_at_start, pending@);
    let mut inside = inside_at_start;
    let mut buf = pending;
    let mut delta: Vec<char> = Vec::new();
    loop
        invariant
            start_tag@ == lm_start(),
            end_tag@ == lm_end(),
            run0 == lm_run(inside_at_start, pending@),
            run0 == (delta@ + lm_run(inside, buf@).0, lm_run(inside, buf@).1, lm_run(
                inside,
                buf@,
            ).2),
        decreases buf.len(),
    {
        let n = buf.len();
        if inside {
            match find_chars(buf.as_slice(), end_tag.as_slice(), 0) {
                Some(pos) => {
                    proof {
                        lemma_find_from_props(buf@, lm_end(), 0);
                    }
                    let ghost old_delta = delta@;
                    let ghost old_buf = buf@;
                    let head = slice_chars(buf.as_slice(), 0, pos);
                    append_chars(&mut delta, head.as_slice());
                    buf = slice_chars(buf.as_slice(), pos + 10, n);
                    inside = false;
                    assert(old_delta + (old_buf.subrange(0, pos as int) + lm_run(false, buf@).0)
                        =~= delta@ + lm_run(false, buf@).0);
                },
                None => {
                    proof {
                        reveal_strlit("</LMTHINK>");
                    }
                    assert("</LMTHINK>"@ =~= lm_end());
                    let safe_end = char_safe_split(&buf, "</LMTHINK>");
                    proof {
                        lemma_safe_split_props(buf@, lm_end());
                    }
                    let ghost old_delta = delta@;
                    let ghost old_buf = buf@;
                    if safe_end > 0 {
                        let head = slice_chars(buf.as_slice(), 0, safe_end);
                        append_chars(&mut delta, head.as_slice());
                        buf = slice_chars(buf.as_slice(), safe_end, n);
                    } else {
                        assert(buf@.subrange(0, 0) =~= Seq::<char>::empty());
                        assert(buf@.subrange(0, n as int) =~= buf@);
                    }
                    assert(delta@ =~= old_delta + old_buf.subrange(0, safe_end as int));
                    assert(buf@ =~= old_buf.subrange(safe_end as int, n as int));
                    assert(run0 == (delta@, inside, buf@));
                    return (delta, inside, buf);
                },
            }
        } else {
            match find_chars(buf.as_slice(), start_tag.as_slice(), 0) {
                Some(pos) => {
                    proof {
                        lemma_find_from_props(buf@, lm_start(), 0);
                    }
                    buf = slice_chars(buf.as_slice(), pos + 9, n);
                    inside = true;
                },
                None => {
                    proof {
                        reveal_strlit("<LMTHINK>");
                    }
                    assert("<LMTHINK>"@ =~= lm_start());
                    let safe_end = char_safe_split(&buf, "<LMTHINK>");
                    proof {
                        lemma_safe_split_props(buf@, lm_start());
                    }
                    buf = slice_chars(buf.as_slice(), safe_end, n);
                    assert(delta@ + Seq::<char>::empty() =~= delta@);
                    assert(run0 == (delta@, inside, buf@));
                    return (delta, inside, buf);
                },
            }
        }
    }
}

// ---------------------------------------------------------------------------
// The streamed reply
// ---------------------------------------------------------------------------

/// What `String::from_utf8_lossy` gives for some bytes.
pub uninterp spec fn lossy_text(b: Seq<u8>) -> Seq<char>;

/// Decodes received bytes with `String::from_utf8_lossy`.
///
/// Trusted: the result is named `lossy_text` of the bytes; for valid UTF-8
/// it is the decoded text, as the documentation of `from_utf8_lossy` says
/// (invalid sequences are replaced by U+FFFD; that case is left unstated).
#[verifier::external_body]
fn utf8_lossy(b: &[u8]) -> (r: String)
    ensures
        r@ == lossy_text(b@),
        vstd::utf8::valid_utf8(b@) ==> r@ == vstd::utf8::decode_utf8(b@),
{
    String::from_utf8_lossy(b).into_owned()
}

/// A server-sent-event line, as the reply loop reads it.
pub enum SseLine {
    /// Blank, or not a `data:` line.
    Skip,
    /// `data: [DONE]`: the reply is complete.
    Done,
    /// The payload of a `data:` line.
    Data(String),
}

/// What the caller is asked to send to the window.
pub enum StreamEmit {
    /// A piece of reasoning text (`ai-thinking`).
    Thinking(String),
    /// A new pick (`ai-pick`).
    Pick(String),
}

pub open spec fn emit_views(v: Seq<StreamEmit>) -> Seq<(bool, Seq<char>)> {
    Seq::new(
        v.len(),
        |i: int|
            match v[i] {
                StreamEmit::Thinking(t) => (true, t@),
                StreamEmit::Pick(p) => (false, p@),
            },
    )
}

pub open spec fn data_prefix() -> Seq<char> {
    seq!['d', 'a', 't', 'a', ':']
}

pub open spec fn data_space_prefix() -> Seq<char> {
    seq!['d', 'a', 't', 'a', ':', ' ']
}

pub open spec fn done_marker() -> Seq<char> {
    seq!['[', 'D', 'O', 'N', 'E', ']']
}

/// The payload of a trimmed line: after `data: `, or after `data:` with
/// leading whitespace removed; `None` for a blank line or any other line.
pub open spec fn sse_payload(l: Seq<char>) -> Option<Seq<char>> {
    if l.len() == 0 {
        None
    } else if starts_with(l, data_space_prefix()) {
        Some(l.subrange(6, l.len() as int))
    } else if starts_with(l, data_prefix()) {
        Some(trim_start(l.subrange(5, l.len() as int)))
    } else {
        None
    }
}

/// Reads one (trimmed) line of the event stream.
pub fn sse_data(line: &str) -> (r: SseLine)
    ensures
        match sse_payload(line@) {
            None => r is Skip,
            Some(d) => if d == done_marker() {
                r is Done
            } else {
                r matches SseLine::Data(x) && x@ == d
            },
        },
{
    let l = chars_of(line);
    let n = l.len();
    if n == 0 {
        return SseLine::Skip;
    }
    let with_space: [char; 6] = ['d', 'a', 't', 'a', ':', ' '];
    let bare: [char; 5] = ['d', 'a', 't', 'a', ':'];
    let done: [char; 6] = ['[', 'D', 'O', 'N', 'E', ']'];
    assert(with_space@ == data_space_prefix());
    assert(bare@ == data_prefix());
    assert(done@ == done_marker());
    let data = if starts_with_chars(l.as_slice(), with_space.as_slice()) {
        slice_chars(l.as_slice(), 6, n)
    } else if starts_with_chars(l.as_slice(), bare.as_slice()) {
        let rest = slice_chars(l.as_slice(), 5, n);
        crate::text::trim_start_chars(rest.as_slice())
    } else {
        return SseLine::Skip;
    };
    if crate::text::chars_eq(data.as_slice(), done.as_slice()) {
        SseLine::Done
    } else {
        SseLine::Data(string_of(data.as_slice()))
    }
}

/// `a`, else `b`.
pub open spec fn first_some(a: Option<Seq<char>>, b: Option<Seq<char>>) -> Option<Seq<char>> {
    match a {
        Some(x) => Some(x),
        None => b,
    }
}

/// The move the model is considering, from the text received so far: a
/// closed `<move>` pair (content, then reasoning), else the last `@move` mark
/// (reasoning, then content), else an open `<move>` tag (reasoning, then
/// content), else the legal move mentioned last near the end of the
/// reasoning (of the content when there is no reasoning).
pub open spec fn pick_of(content: Seq<char>, reasoning: Seq<char>, legal: Seq<Seq<char>>) -> Option<
    Seq<char>,
> {
    first_some(
        closed_tag_pick(content, legal),
        first_some(
            closed_tag_pick(reasoning, legal),
            first_some(
                at_pick(reasoning),
                first_some(
                    at_pick(content),
                    first_some(
                        open_tag_pick(reasoning, legal),
                        first_some(
                            open_tag_pick(content, legal),
                            last_legal_pick(
                                if reasoning.len() > 0 {
                                    reasoning
                                } else {
                                    content
                                },
                                legal,
                            ),
                        ),
                    ),
                ),
            ),
        ),
    )
}

/// A closed `<move>` pair naming a legal move in the content decides the
/// pick, whatever the reasoning holds, so the pick shown before the move is
/// made is the move given as the answer.
pub proof fn law_closed_tag_decides_pick(
    content: Seq<char>,
    reasoning: Seq<char>,
    legal: Seq<Seq<char>>,
    m: Seq<char>,
)
    requires
        closed_tag_pick(content, legal) == Some(m),
    ensures
        pick_of(content, reasoning, legal) == Some(m),
{
}

/// The current pick (see `pick_of`).
pub fn current_pick(content: &str, reasoning: &str, legal_moves: &[String]) -> (r: Option<String>)
    ensures
        opt_text(r) == pick_of(content@, reasoning@, texts_of(legal_moves@)),
{
    match extract_closed_move_tag(content, legal_moves) {
        Some(m) => {
            return Some(m);
        },
        None => {},
    }
    match extract_closed_move_tag(reasoning, legal_moves) {
        Some(m) => {
            return Some(m);
        },
        None => {},
    }
    match extract_at_pick(reasoning) {
        Some(m) => {
            return Some(m);
        },
        None => {},
    }
    match extract_at_pick(content) {
        Some(m) => {
            return Some(m);
        },
        None => {},
    }
    match extract_open_move_tag(reasoning, legal_moves) {
        Some(m) => {
            return Some(m);
        },
        None => {},
    }
    match extract_open_move_tag(content, legal_moves) {
        Some(m) => {
            return Some(m);
        },
        None => {},
    }
    let text = if !reasoning.is_empty() {
        reasoning
    } else {
        content
    };
    extract_last_legal_move(text, legal_moves)
}

/// The reader's state while a reply streams in.
pub struct StreamState {
    /// Received text not yet split into lines.
    pub buffer: String,
    /// All answer text so far.
    pub full_content: String,
    /// All reasoning so far (the service's own, and in pseudo-reasoning
    /// mode what the content holds inside `<LMTHINK>` tags).
    pub full_reasoning: String,
    pub usage: Usage,
    /// The pick last reported.
    pub last_pick: Option<String>,
    /// Inside an `<LMTHINK>` tag (pseudo-reasoning mode).
    pub in_lmthink: bool,
    /// Content kept because it may begin a tag.
    pub pseudo_buffer: String,
    pub legal_moves: Vec<String>,
    pub pseudo: bool,
    /// No reasoning or pick is reported (sampling runs).
    pub silent: bool,
}

/// What a reader sends for one parsed chunk.
pub open spec fn expected_emits(
    silent: bool,
    reasoning: Seq<char>,
    pseudo_delta: Seq<char>,
    pick: Option<Seq<char>>,
    last_pick: Option<Seq<char>>,
) -> Seq<(bool, Seq<char>)> {
    if silent {
        seq![]
    } else {
        (if reasoning.len() > 0 {
            seq![(true, reasoning)]
        } else {
            seq![]
        }) + (if pseudo_delta.len() > 0 {
            seq![(true, pseudo_delta)]
        } else {
            seq![]
        }) + (match pick {
            Some(p) => if Some(p) != last_pick {
                seq![(false, p)]
            } else {
                seq![]
            },
            None => seq![],
        })
    }
}

/// The pseudo-reasoning parse of a chunk's content: run only in
/// pseudo-reasoning mode and on non-empty content.
pub open spec fn pseudo_parse(st: StreamState, c: Seq<char>) -> (Seq<char>, bool, Seq<char>) {
    if st.pseudo && c.len() > 0 {
        lm_run(st.in_lmthink, st.pseudo_buffer@ + c)
    } else {
        (seq![], st.in_lmthink, st.pseudo_buffer@)
    }
}

impl StreamState {
    /// A reader with nothing received yet.
    pub fn new(legal_moves: Vec<String>, pseudo: bool, silent: bool) -> (r: StreamState)
        ensures
            r.buffer@ == Seq::<char>::empty(),
            r.full_content@ == Seq::<char>::empty(),
            r.full_reasoning@ == Seq::<char>::empty(),
            r.usage.prompt_tokens == 0 && r.usage.completion_tokens == 0 && r.usage.total_tokens
                == 0 && r.usage.prompt_cache_hit_tokens == 0 && r.usage.prompt_cache_miss_tokens == 0,
            r.last_pick is None,
            !r.in_lmthink,
            r.pseudo_buffer@ == Seq::<char>::empty(),
            r.legal_moves == legal_moves,
            r.pseudo == pseudo,
            r.silent == silent,
    {
        StreamState {
            buffer: String::new(),
            full_content: String::new(),
            full_reasoning: String::new(),
            usage: Usage::default(),
            last_pick: None,
            in_lmthink: false,
            pseudo_buffer: String::new(),
            legal_moves,
            pseudo,
            silent,
        }
    }

    /// Adds received bytes (decoded leniently) to the line buffer.
    pub fn feed(&mut self, chunk: &[u8])
        ensures
            final(self).buffer@ == old(self).buffer@ + lossy_text(chunk@),
            final(self).full_content == old(self).full_content,
            final(self).full_reasoning == old(self).full_reasoning,
            final(self).usage == old(self).usage,
            final(self).last_pick == old(self).last_pick,
            final(self).in_lmthink == old(self).in_lmthink,
            final(self).pseudo_buffer == old(self).pseudo_buffer,
            final(self).legal_moves == old(self).legal_moves,
            final(self).pseudo == old(self).pseudo,
            final(self).silent == old(self).silent,
    {
        let text = utf8_lossy(chunk);
        self.buffer = crate::text::concat_str(self.buffer.as_str(), text.as_str());
    }

    /// Takes the next complete line (through its `\n`) off the buffer,
    /// trimmed; `None`, with the buffer unchanged, when no line is complete.
    pub fn next_line(&mut self) -> (r: Option<String>)
        ensures
            match find_from(old(self).buffer@, seq!['\n'], 0) {
                None => r is None && final(self).buffer == old(self).buffer,
                Some(p) => r matches Some(l) && l@ == trim(old(self).buffer@.subrange(0, p + 1))
                    && final(self).buffer@ == old(self).buffer@.subrange(
                    p + 1,
                    old(self).buffer@.len() as int,
                ),
            },
            final(self).full_content == old(self).full_content,
            final(self).full_reasoning == old(self).full_reasoning,
            final(self).usage == old(self).usage,
            final(self).last_pick == old(self).last_pick,
            final(self).in_lmthink == old(self).in_lmthink,
            final(self).pseudo_buffer == old(self).pseudo_buffer,
            final(self).legal_moves == old(self).legal_moves,
            final(self).pseudo == old(self).pseudo,
            final(self).silent == old(self).silent,
    {
        let b = chars_of(self.buffer.as_str());
        let nl: [char; 1] = ['\n'];
        assert(nl@ == seq!['\n']);
        match find_chars(b.as_slice(), nl.as_slice(), 0) {
            None => None,
            Some(p) => {
                proof {
                    lemma_find_from_props(b@, seq!['\n'], 0);
                }
                let n = b.len();
                let line = slice_chars(b.as_slice(), 0, p + 1);
                let rest = slice_chars(b.as_slice(), p + 1, n);
                self.buffer = string_of(rest.as_slice());
                let t = trim_chars(line.as_slice());
                Some(string_of(t.as_slice()))
            },
        }
    }

    /// Takes in one parsed chunk: its token counts (if any) and the text of
    /// its first choice (content and reasoning, absent ones read as empty).
    /// Reasoning and content are added; in pseudo-reasoning mode the content
    /// also goes through the `<LMTHINK>` parser; when anything was added the
    /// pick is read again. Returns what to send to the window, in order.
    pub fn apply_chunk(&mut self, usage: Option<Usage>, delta: Option<(String, String)>) -> (r: Vec<
        StreamEmit,
    >)
        ensures
            final(self).usage == (match usage {
                Some(u) => u,
                None => old(self).usage,
            }),
            final(self).buffer == old(self).buffer,
            final(self).legal_moves == old(self).legal_moves,
            final(self).pseudo == old(self).pseudo,
            final(self).silent == old(self).silent,
            delta is None ==> r@.len() == 0 && final(self).full_content == old(self).full_content
                && final(self).full_reasoning == old(self).full_reasoning && final(self).last_pick
                == old(self).last_pick && final(self).in_lmthink == old(self).in_lmthink
                && final(self).pseudo_buffer == old(self).pseudo_buffer,
            delta matches Some(d) ==> ({
                let c = d.0@;
                let rs = d.1@;
                let lm = pseudo_parse(*old(self), c);
                let content = old(self).full_content@ + c;
                let reasoning = old(self).full_reasoning@ + rs + lm.0;
                let pick = if c.len() > 0 || rs.len() > 0 {
                    pick_of(content, reasoning, texts_of(old(self).legal_moves@))
                } else {
                    None
                };
                &&& final(self).full_content@ == content
                &&& final(self).full_reasoning@ == reasoning
                &&& final(self).in_lmthink == lm.1
                &&& final(self).pseudo_buffer@ == lm.2
                &&& opt_text(final(self).last_pick) == first_some(pick, opt_text(old(self).last_pick))
                &&& emit_views(r@) == expected_emits(
                    old(self).silent,
                    rs,
                    lm.0,
                    pick,
                    opt_text(old(self).last_pick),
                )
            }),
    {
        match usage {
            Some(u) => {
                self.usage = u;
            },
            None => {},
        }
        let (c, rtext) = match delta {
            None => {
                return Vec::new();
            },
            Some(d) => d,
        };
        let ghost old_pick = opt_text(self.last_pick);
        let mut emits: Vec<StreamEmit> = Vec::new();
        let mut reasoning_changed = false;
        if !rtext.as_str().is_empty() {
            self.full_reasoning = crate::text::concat_str(
                self.full_reasoning.as_str(),
                rtext.as_str(),
            );
            if !self.silent {
                emits.push(StreamEmit::Thinking(rtext.clone()));
            }
            reasoning_changed = true;
        } else {
            assert(self.full_reasoning@ + rtext@ =~= self.full_reasoning@);
        }
        let ghost after_r = emit_views(emits@);
        let ghost lm = pseudo_parse(*old(self), c@);
        let mut content_changed = false;
        let mut pseudo_delta: Vec<char> = Vec::new();
        if !c.as_str().is_empty() {
            self.full_content = crate::text::concat_str(self.full_content.as_str(), c.as_str());
            content_changed = true;
            if self.pseudo {
                let mut pending = chars_of(self.pseudo_buffer.as_str());
                let cc = chars_of(c.as_str());
                append_chars(&mut pending, cc.as_slice());
                let (d, ins, keep) = lmthink_step(self.in_lmthink, pending);
                self.in_lmthink = ins;
                self.pseudo_buffer = string_of(keep.as_slice());
                pseudo_delta = d;
                if pseudo_delta.len() > 0 {
                    let ds = string_of(pseudo_delta.as_slice());
                    self.full_reasoning = crate::text::concat_str(
                        self.full_reasoning.as_str(),
                        ds.as_str(),
                    );
                    if !self.silent {
                        emits.push(StreamEmit::Thinking(ds));
                    }
                    reasoning_changed = true;
                }
            }
        } else {
            assert(self.full_content@ + c@ =~= self.full_content@);
        }
        assert(pseudo_delta@ == lm.0);
        if pseudo_delta.len() == 0 {
            assert(self.full_reasoning@ + lm.0 =~= self.full_reasoning@);
        }
        let ghost after_lm = emit_views(emits@);
        assert(after_lm == after_r + (if !old(self).silent && lm.0.len() > 0 {
            seq![(true, lm.0)]
        } else {
            seq![]
        })) by {
            assert(after_lm =~= after_r + (if !old(self).silent && lm.0.len() > 0 {
                seq![(true, lm.0)]
            } else {
                seq![]
            }));
        }
        if reasoning_changed || content_changed {
            let new_pick = current_pick(
                self.full_content.as_str(),
                self.full_reasoning.as_str(),
                self.legal_moves.as_slice(),
            );
            match new_pick {
                Some(pick) => {
                    let same = match &self.last_pick {
                        Some(lp) => same_text(lp.as_str(), pick.as_str()),
                        None => false,
                    };
                    if !same {
                        self.last_pick = Some(pick.clone());
                        if !self.silent {
                            emits.push(StreamEmit::Pick(pick));
                        }
                    }
                },
                None => {},
            }
        }
        assert(emit_views(emits@) =~= expected_emits(
            old(self).silent,
            rtext@,
            lm.0,
            if c@.len() > 0 || rtext@.len() > 0 {
                pick_of(self.full_content@, self.full_reasoning@, texts_of(self.legal_moves@))
            } else {
                None
            },
            old_pick,
        ));
        emits
    }
}

/// When the content has no closed `<move>` pair naming a legal move, a
/// closed pair naming a legal move in the reasoning decides the pick,
/// whatever `@` marks or other mentions the texts hold: the pick shown
/// before the move is made is the move of the reasoning's last such pair.
pub proof fn law_reasoning_closed_tag_decides_pick(
    content: Seq<char>,
    reasoning: Seq<char>,
    legal: Seq<Seq<char>>,
    m: Seq<char>,
)
    requires
        closed_tag_pick(content, legal) is None,
        closed_tag_pick(reasoning, legal) == Some(m),
    ensures
        pick_of(content, reasoning, legal) == Some(m),
{
}

} // verus!
