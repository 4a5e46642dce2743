//! Reading a move (and its score) out of the model's reply text.
//!
//! A reply names its move in `<move>…</move>` tags; failing that, the whole
//! reply may be a bare move, and as a last resort the last plain line that
//! holds a square pair is taken. Scores are read from `@<move> … 分:N` or
//! `@<move> … score:N` lines.

use vstd::prelude::*;
use crate::text::{
    all_ascii, ascii_lower_char, chars_of, contains_chars, contains_seq, find_from,
    lemma_find_from_props, lines_of, lowercase_of, owned,
    parse_i32, parse_i32_chars, remove_all, remove_all_chars, split_lines, starts_with,
    starts_with_chars, string_of, to_lowercase, trim, trim_chars, trim_str, find_chars, occurs_at, slice_chars,
};
use crate::chess_engine::{
    is_file_char, is_rank_char, coord_move_of, legal_moves_of, move_coord, parse_coord_move, ChessGame,
    ChessMove,
};

verus! {

/// Why a reply gave no playable move.
#[derive(Debug)]
pub enum ParseError {
    /// No move could be read; holds the text that was examined.
    InvalidFormat(String),
    /// A move was read but it is not legal; holds the move text and the legal
    /// moves in coordinate notation, for a retry.
    IllegalMove(String, Vec<String>),
}

// ---------------------------------------------------------------------------
// `<move>…</move>` tags
// ---------------------------------------------------------------------------

/// `<move>`.
pub open spec fn tag_open() -> Seq<char> {
    seq!['<', 'm', 'o', 'v', 'e', '>']
}

/// `</move>`.
pub open spec fn tag_close() -> Seq<char> {
    seq!['<', '/', 'm', 'o', 'v', 'e', '>']
}

/// The text with ASCII letters lower-cased: tags are looked for in it, so
/// that `<MOVE>` counts too. It has the text's length, position for position.
pub open spec fn folded(text: Seq<char>) -> Seq<char> {
    text.map_values(|c: char| ascii_lower_char(c))
}

/// Scanning for tags from position `start`: each `<move>` (of any case) is
/// paired with the next `</move>`, pairs taken left to right, and the
/// content is cut out of the text at the same character positions. The
/// trimmed content of the last pair whose content is not blank is kept.
pub open spec fn tag_scan(f: Seq<char>, cs: Seq<char>, start: nat, last: Option<Seq<char>>) -> Option<
    Seq<char>,
>
    decreases f.len() - start,
{
    match find_from(f, tag_open(), start as int) {
        None => last,
        Some(p) => {
            let c = p + 6;
            match find_from(f, tag_close(), c) {
                None => last,
                Some(q) => {
                    let cleaned = trim(cs.subrange(c, q));
                    let next = if cleaned.len() > 0 {
                        Some(cleaned)
                    } else {
                        last
                    };
                    proof {
                        lemma_find_from_props(f, tag_open(), start as int);
                        lemma_find_from_props(f, tag_close(), c);
                    }
                    tag_scan(f, cs, (q + 7) as nat, next)
                },
            }
        },
    }
}

/// The content of the last non-blank `<move>` tag pair, trimmed, in the
/// text's own case.
pub open spec fn tagged_move(text: Seq<char>) -> Option<Seq<char>> {
    tag_scan(folded(text), text, 0, None)
}

pub open spec fn opt_text(o: Option<String>) -> Option<Seq<char>> {
    match o {
        Some(s) => Some(s@),
        None => None,
    }
}

/// ASCII lower-casing of one character.
fn ascii_lower(c: char) -> (r: char)
    ensures
        r == ascii_lower_char(c),
{
    if 'A' <= c && c <= 'Z' {
        let u = c as u32;
        proof {
            vstd::utf8::char_u32_cast(c, u);
        }
        let l = (u as u8 + 32) as char;
        l
    } else {
        c
    }
}

/// The characters with ASCII letters lower-cased (see `folded`).
fn fold_chars(cs: &[char]) -> (r: Vec<char>)
    ensures
        r@ == folded(cs@),
{
    let mut r: Vec<char> = Vec::new();
    let mut i: usize = 0;
    while i < cs.len()
        invariant
            i <= cs@.len(),
            r@ == folded(cs@.subrange(0, i as int)),
        decreases cs.len() - i,
    {
        let l = ascii_lower(cs[i]);
        r.push(l);
        assert(folded(cs@.subrange(0, i + 1)) =~= folded(cs@.subrange(0, i as int)).push(l));
        i = i + 1;
    }
    assert(cs@.subrange(0, cs@.len() as int) =~= cs@);
    r
}

/// The move in the last non-blank `<move>…</move>` pair (tags of any case),
/// trimmed, in the text's own case.
pub fn extract_from_move_tags(text: &str) -> (r: Option<String>)
    ensures
        opt_text(r) == tagged_move(text@),
{
    let cs = chars_of(text);
    let f = fold_chars(cs.as_slice());
    let open: [char; 6] = ['<', 'm', 'o', 'v', 'e', '>'];
    let close: [char; 7] = ['<', '/', 'm', 'o', 'v', 'e', '>'];
    assert(open@ == tag_open());
    assert(close@ == tag_close());
    let mut last: Option<String> = None;
    let mut start: usize = 0;
    loop
        invariant
            cs@ == text@,
            f@ == folded(cs@),
            f@.len() == cs@.len(),
            open@ == tag_open(),
            close@ == tag_close(),
            start <= f@.len(),
            tagged_move(text@) == tag_scan(f@, cs@, start as nat, opt_text(last)),
        decreases f.len() - start,
    {
        proof {
            lemma_find_from_props(f@, tag_open(), start as int);
        }
        let p = match find_chars(f.as_slice(), open.as_slice(), start) {
            None => {
                return last;
            },
            Some(p) => p,
        };
        let c = p + 6;
        proof {
            lemma_find_from_props(f@, tag_close(), c as int);
        }
        let q = match find_chars(f.as_slice(), close.as_slice(), c) {
            None => {
                return last;
            },
            Some(q) => q,
        };
        let content = slice_chars(cs.as_slice(), c, q);
        let cleaned = trim_chars(content.as_slice());
        if cleaned.len() > 0 {
            last = Some(string_of(cleaned.as_slice()));
        }
        start = q + 7;
    }
}

// ---------------------------------------------------------------------------
// Bare moves and moves inside a line
// ---------------------------------------------------------------------------

pub open spec fn is_promo_char(c: char) -> bool {
    c == 'q' || c == 'r' || c == 'b' || c == 'n'
}

/// A bare move in lower-case coordinate notation: `e2e4` or `e7e8q`.
pub open spec fn pure_move(s: Seq<char>) -> bool {
    &&& s.len() == 4 || s.len() == 5
    &&& is_file_char(s[0]) && is_rank_char(s[1]) && is_file_char(s[2]) && is_rank_char(s[3])
    &&& s.len() == 5 ==> is_promo_char(s[4])
}

/// Separators accepted between the two squares of a move in a line.
pub open spec fn is_sep(c: char) -> bool {
    c == '-' || c == ' ' || c == ','
}

/// A four-character move, with the promotion letter at `k` appended if
/// there is one.
pub open spec fn with_promo(tok: Seq<char>, cs: Seq<char>, k: int) -> Seq<char> {
    if 0 <= k < cs.len() && is_promo_char(cs[k]) {
        tok.push(cs[k])
    } else {
        tok
    }
}

/// The move that starts at position `i` of a line (`i + 3` is inside it):
/// two squares, written together (`e2e4`) or with one separator between
/// them (`e2-e4`, `e2 e4`, `e2,e4`), then an optional promotion letter.
pub open spec fn token_at(cs: Seq<char>, i: int) -> Option<Seq<char>> {
    if is_file_char(cs[i]) && is_rank_char(cs[i + 1]) {
        if is_sep(cs[i + 2]) && i + 4 < cs.len() && is_file_char(cs[i + 3]) && is_rank_char(
            cs[i + 4],
        ) {
            Some(with_promo(seq![cs[i], cs[i + 1], cs[i + 3], cs[i + 4]], cs, i + 5))
        } else if is_file_char(cs[i + 2]) && is_rank_char(cs[i + 3]) {
            Some(with_promo(seq![cs[i], cs[i + 1], cs[i + 2], cs[i + 3]], cs, i + 4))
        } else {
            None
        }
    } else {
        None
    }
}

/// The first move in `cs` starting at or after `i`.
pub open spec fn first_token_from(cs: Seq<char>, i: nat) -> Option<Seq<char>>
    decreases cs.len() - i,
{
    if i + 3 >= cs.len() {
        None
    } else {
        match token_at(cs, i as int) {
            Some(t) => Some(t),
            None => first_token_from(cs, i + 1),
        }
    }
}

/// The first move in a line, read after lower-casing it.
pub open spec fn line_move(line: Seq<char>) -> Option<Seq<char>> {
    first_token_from(lowercase_of(line), 0)
}

/// A line that reads as reasoning rather than a conclusion: it holds a
/// full-width colon, `legal` or `Legal`.
pub open spec fn reasoning_line(l: Seq<char>) -> bool {
    ||| contains_seq(l, seq!['\u{ff1a}'])
    ||| contains_seq(l, seq!['l', 'e', 'g', 'a', 'l'])
    ||| contains_seq(l, seq!['L', 'e', 'g', 'a', 'l'])
}

/// Scanning lines from the last: the first move of the last trimmed,
/// non-blank, non-reasoning line that has one.
pub open spec fn last_line_move(ls: Seq<Seq<char>>) -> Option<Seq<char>>
    decreases ls.len(),
{
    if ls.len() == 0 {
        None
    } else {
        let l = trim(ls.last());
        if l.len() > 0 && !reasoning_line(l) && line_move(l) is Some {
            line_move(l)
        } else {
            last_line_move(ls.drop_last())
        }
    }
}

/// The move text a reply names: the last tagged move; else the whole reply,
/// without code fences and trimmed, when it is a bare move; else the move in
/// the last plain line that has one.
pub open spec fn move_token(text: Seq<char>) -> Option<Seq<char>> {
    match tagged_move(text) {
        Some(m) => Some(m),
        None => {
            let t = trim(remove_all(text, seq!['`', '`', '`']));
            if pure_move(t) {
                Some(t)
            } else {
                last_line_move(lines_of(text))
            }
        },
    }
}

pub fn is_file(c: char) -> (r: bool)
    ensures
        r == is_file_char(c),
{
    'a' <= c && c <= 'h'
}

pub fn is_rank(c: char) -> (r: bool)
    ensures
        r == is_rank_char(c),
{
    '1' <= c && c <= '8'
}

pub fn is_promo(c: char) -> (r: bool)
    ensures
        r == is_promo_char(c),
{
    c == 'q' || c == 'r' || c == 'b' || c == 'n'
}

fn pure_move_chars(chars: &[char]) -> (r: bool)
    ensures
        r == pure_move(chars@),
{
    let len = chars.len();
    if len != 4 && len != 5 {
        return false;
    }
    if !is_file(chars[0]) || !is_rank(chars[1]) || !is_file(chars[2]) || !is_rank(chars[3]) {
        return false;
    }
    if len == 5 && !is_promo(chars[4]) {
        return false;
    }
    true
}

/// Whether a text is exactly one bare move (`e2e4`, `e7e8q`).
pub fn is_pure_move(s: &str) -> (r: bool)
    ensures
        r == pure_move(s@),
{
    let chars = chars_of(s);
    pure_move_chars(chars.as_slice())
}

fn token_at_chars(chars: &[char], i: usize) -> (r: Option<Vec<char>>)
    requires
        i + 3 < chars@.len(),
    ensures
        match token_at(chars@, i as int) {
            None => r is None,
            Some(t) => r matches Some(v) && v@ == t,
        },
{
    let n = chars.len();
    let c0 = chars[i];
    let c1 = chars[i + 1];
    let c2 = chars[i + 2];
    let c3 = chars[i + 3];
    if is_file(c0) && is_rank(c1) {
        if (c2 == '-' || c2 == ' ' || c2 == ',') && i + 4 < n {
            let c4 = chars[i + 4];
            if is_file(c3) && is_rank(c4) {
                let mut token: Vec<char> = Vec::new();
                token.push(c0);
                token.push(c1);
                token.push(c3);
                token.push(c4);
                if i + 5 < n && is_promo(chars[i + 5]) {
                    token.push(chars[i + 5]);
                }
                assert(token@ =~= with_promo(seq![c0, c1, c3, c4], chars@, i + 5));
                return Some(token);
            }
        }
        if is_file(c2) && is_rank(c3) {
            let mut token: Vec<char> = Vec::new();
            token.push(c0);
            token.push(c1);
            token.push(c2);
            token.push(c3);
            if i + 4 < n && is_promo(chars[i + 4]) {
                token.push(chars[i + 4]);
            }
            assert(token@ =~= with_promo(seq![c0, c1, c2, c3], chars@, i + 4));
            return Some(token);
        }
    }
    None
}

/// The first move in a line, read after lower-casing it: two squares written
/// together or with one separator (`-`, space, comma), and an optional
/// promotion letter.
pub fn scan_line_for_first_move(line: &str) -> (r: Option<String>)
    ensures
        opt_text(r) == line_move(line@),
{
    let lower = to_lowercase(line);
    let chars = chars_of(lower.as_str());
    let n = chars.len();
    let mut i: usize = 0;
    while n > 3 && i < n - 3
        invariant
            n == chars@.len(),
            chars@ == lowercase_of(line@),
            line_move(line@) == first_token_from(chars@, i as nat),
        decreases n - i,
    {
        match token_at_chars(chars.as_slice(), i) {
            Some(t) => {
                return Some(string_of(t.as_slice()));
            },
            None => {},
        }
        i = i + 1;
    }
    None
}

fn scan_line_chars(line: &[char]) -> (r: Option<String>)
    ensures
        opt_text(r) == line_move(line@),
{
    let s = string_of(line);
    scan_line_for_first_move(s.as_str())
}

fn is_reasoning_line(l: &[char]) -> (r: bool)
    ensures
        r == reasoning_line(l@),
{
    let colon: [char; 1] = ['\u{ff1a}'];
    let legal: [char; 5] = ['l', 'e', 'g', 'a', 'l'];
    let cap_legal: [char; 5] = ['L', 'e', 'g', 'a', 'l'];
    assert(colon@ == seq!['\u{ff1a}']);
    assert(legal@ == seq!['l', 'e', 'g', 'a', 'l']);
    assert(cap_legal@ == seq!['L', 'e', 'g', 'a', 'l']);
    contains_chars(l, colon.as_slice()) || contains_chars(l, legal.as_slice()) || contains_chars(
        l,
        cap_legal.as_slice(),
    )
}

/// Reads the move a reply names (see `move_token`).
pub fn extract_move_token(text: &str) -> (r: Option<String>)
    ensures
        opt_text(r) == move_token(text@),
{
    match extract_from_move_tags(text) {
        Some(mv) => {
            return Some(mv);
        },
        None => {},
    }
    let chars = chars_of(text);
    let fence: [char; 3] = ['`', '`', '`'];
    assert(fence@ == seq!['`', '`', '`']);
    let unfenced = remove_all_chars(chars.as_slice(), fence.as_slice());
    let trimmed = trim_chars(unfenced.as_slice());
    if pure_move_chars(trimmed.as_slice()) {
        let t = string_of(trimmed.as_slice());
        let lowered = to_lowercase(t.as_str());
        proof {
            assert(all_ascii(t@));
            assert(lowered@ =~= t@);
        }
        return Some(lowered);
    }
    let lines = split_lines(chars.as_slice());
    let ghost ls = lines_of(text@);
    let mut j: usize = lines.len();
    assert(ls.subrange(0, j as int) =~= ls);
    while j > 0
        invariant
            j <= lines@.len(),
            lines@.len() == ls.len(),
            forall|i: int| 0 <= i < lines@.len() ==> #[trigger] lines@[i]@ == ls[i],
            move_token(text@) == last_line_move(ls.subrange(0, j as int)),
        decreases j,
    {
        let ghost sub = ls.subrange(0, j as int);
        assert(sub.last() == lines@[j - 1]@);
        assert(sub.drop_last() =~= ls.subrange(0, j - 1));
        let line = trim_chars(lines[j - 1].as_slice());
        if line.len() > 0 && !is_reasoning_line(line.as_slice()) {
            match scan_line_chars(line.as_slice()) {
                Some(mv) => {
                    return Some(mv);
                },
                None => {},
            }
        }
        j = j - 1;
    }
    None
}

// ---------------------------------------------------------------------------
// Validating the move against the game
// ---------------------------------------------------------------------------

/// What `parse_and_validate` gives for a reply in a position: `Ok` with the
/// move when the reply names a legal move; `InvalidFormat` with the whole
/// reply when no move text is found, or with the move text when it is not
/// coordinate notation; `IllegalMove` with the move text and the legal moves
/// when the move is not legal.
pub open spec fn validated(response: Seq<char>, fen: Seq<char>, r: Result<ChessMove, ParseError>) -> bool {
    match move_token(response) {
        None => r matches Err(ParseError::InvalidFormat(s)) && s@ == response,
        Some(c) => match coord_move_of(c) {
            None => r matches Err(ParseError::InvalidFormat(s)) && s@ == c,
            Some(mv) => if legal_moves_of(fen).contains(mv) {
                r == Ok::<ChessMove, ParseError>(mv)
            } else {
                &&& r matches Err(ParseError::IllegalMove(s, l))
                &&& s@ == c
                &&& l@.len() == legal_moves_of(fen).len()
                &&& forall|i: int| 0 <= i < l@.len() ==> #[trigger] l@[i]@ == move_coord(legal_moves_of(fen)[i])
            },
        },
    }
}

/// Reads the move a reply names and checks it against the game.
pub fn parse_and_validate(response: &str, game: &ChessGame) -> (r: Result<ChessMove, ParseError>)
    ensures
        validated(response@, game.board@, r),
{
    let candidate = match extract_move_token(response) {
        Some(c) => c,
        None => {
            return Err(ParseError::InvalidFormat(owned(response)));
        },
    };
    let mv = match parse_coord_move(candidate.as_str()) {
        Some(m) => m,
        None => {
            return Err(ParseError::InvalidFormat(candidate));
        },
    };
    if game.is_legal(&mv) {
        Ok(mv)
    } else {
        Err(ParseError::IllegalMove(candidate, game.legal_moves_str()))
    }
}

// ---------------------------------------------------------------------------
// Scores
// ---------------------------------------------------------------------------

/// Characters that may make up a score: ASCII digits and signs.
pub open spec fn num_char(c: char) -> bool {
    ('0' <= c && c <= '9') || c == '+' || c == '-'
}

/// The longest prefix made of score characters.
pub open spec fn num_prefix(s: Seq<char>) -> Seq<char>
    decreases s.len(),
{
    if s.len() > 0 && num_char(s[0]) {
        seq![s[0]] + num_prefix(s.drop_first())
    } else {
        seq![]
    }
}

/// The integer right after the first `key` in a line, if it parses.
pub open spec fn score_after(line: Seq<char>, key: Seq<char>) -> Option<i32> {
    match find_from(line, key, 0) {
        None => None,
        Some(p) => parse_i32(num_prefix(line.subrange(p + key.len(), line.len() as int))),
    }
}

pub open spec fn score_key_cn() -> Seq<char> {
    seq!['\u{5206}', ':']
}

pub open spec fn score_key_en() -> Seq<char> {
    seq!['s', 'c', 'o', 'r', 'e', ':']
}

/// The score a line states: after `分:`, else after `score:`.
pub open spec fn line_score(line: Seq<char>) -> Option<i32> {
    match score_after(line, score_key_cn()) {
        Some(n) => Some(n),
        None => score_after(line, score_key_en()),
    }
}

/// The score on a line that begins (after trimming) with `prefix`: read from
/// what follows the prefix, else from the whole trimmed line.
pub open spec fn scored_line(l: Seq<char>, prefix: Seq<char>) -> Option<i32> {
    let t = trim(l);
    if starts_with(t, prefix) {
        match line_score(t.subrange(prefix.len() as int, t.len() as int)) {
            Some(n) => Some(n),
            None => line_score(t),
        }
    } else {
        None
    }
}

/// The score of the last line that has one.
pub open spec fn last_score(ls: Seq<Seq<char>>, prefix: Seq<char>) -> Option<i32>
    decreases ls.len(),
{
    if ls.len() == 0 {
        None
    } else {
        match scored_line(ls.last(), prefix) {
            Some(n) => Some(n),
            None => last_score(ls.drop_last(), prefix),
        }
    }
}

/// The score of a move: from the last `@<move>` line of the lower-cased text
/// that states one.
pub open spec fn score_for_move(text: Seq<char>, mv: Seq<char>) -> Option<i32> {
    last_score(lines_of(lowercase_of(text)), seq!['@'] + lowercase_of(mv))
}

fn num_prefix_chars(s: &[char]) -> (r: Vec<char>)
    ensures
        r@ == num_prefix(s@),
{
    let n = s.len();
    let mut k: usize = 0;
    assert(s@.subrange(0, n as int) =~= s@);
    while k < n && (('0' <= s[k] && s[k] <= '9') || s[k] == '+' || s[k] == '-')
        invariant
            k <= n,
            n == s@.len(),
            num_prefix(s@) == s@.subrange(0, k as int) + num_prefix(s@.subrange(k as int, n as int)),
        decreases n - k,
    {
        let ghost rest = s@.subrange(k as int, n as int);
        assert(rest.drop_first() =~= s@.subrange(k + 1, n as int));
        assert(s@.subrange(0, k + 1) =~= s@.subrange(0, k as int) + seq![s@[k as int]]);
        k = k + 1;
    }
    proof {
        let rest = s@.subrange(k as int, n as int);
        if k < n {
            assert(rest[0] == s@[k as int]);
        }
        assert(num_prefix(rest) =~= seq![]);
    }
    let mut r: Vec<char> = Vec::new();
    let mut i: usize = 0;
    while i < k
        invariant
            i <= k <= n,
            n == s@.len(),
            r@ =~= s@.subrange(0, i as int),
        decreases k - i,
    {
        r.push(s[i]);
        i = i + 1;
    }
    r
}

fn score_after_chars(line: &[char], key: &[char]) -> (r: Option<i32>)
    ensures
        r == score_after(line@, key@),
{
    let n = line.len();
    match find_chars(line, key, 0) {
        None => None,
        Some(p) => {
            proof {
                lemma_find_from_props(line@, key@, 0);
                assert(occurs_at(line@, p as int, key@));
                assert(p + key@.len() <= line@.len());
            }
            let after = slice_chars(line, p + key.len(), n);
            let digits = num_prefix_chars(after.as_slice());
            parse_i32_chars(digits.as_slice())
        },
    }
}

/// Reads the score a line states: the integer (with an optional sign) right
/// after `分:`, else right after `score:`.
pub fn extract_score_from_line(line: &str) -> (r: Option<i32>)
    ensures
        r == line_score(line@),
{
    let chars = chars_of(line);
    line_score_chars(chars.as_slice())
}

fn line_score_chars(line: &[char]) -> (r: Option<i32>)
    ensures
        r == line_score(line@),
{
    let cn: [char; 2] = ['\u{5206}', ':'];
    let en: [char; 6] = ['s', 'c', 'o', 'r', 'e', ':'];
    assert(cn@ == score_key_cn());
    assert(en@ == score_key_en());
    match score_after_chars(line, cn.as_slice()) {
        Some(n) => Some(n),
        None => score_after_chars(line, en.as_slice()),
    }
}

/// The score of a move in a text: from the last line that begins with
/// `@<move>` (after lower-casing and trimming) and states a score.
pub fn extract_score_for_move(text: &str, move_uci: &str) -> (r: Option<i32>)
    ensures
        r == score_for_move(text@, move_uci@),
{
    let lower = to_lowercase(text);
    let move_lower = to_lowercase(move_uci);
    let mut prefix: Vec<char> = Vec::new();
    prefix.push('@');
    let mv = chars_of(move_lower.as_str());
    let mut k: usize = 0;
    while k < mv.len()
        invariant
            k <= mv@.len(),
            prefix@ =~= seq!['@'] + mv@.subrange(0, k as int),
        decreases mv.len() - k,
    {
        prefix.push(mv[k]);
        k = k + 1;
    }
    assert(mv@.subrange(0, mv@.len() as int) =~= mv@);
    let chars = chars_of(lower.as_str());
    let lines = split_lines(chars.as_slice());
    let ghost ls = lines_of(lowercase_of(text@));
    let mut best: Option<i32> = None;
    let mut i: usize = 0;
    assert(ls.subrange(0, 0) =~= Seq::<Seq<char>>::empty());
    while i < lines.len()
        invariant
            i <= lines@.len(),
            lines@.len() == ls.len(),
            forall|j: int| 0 <= j < lines@.len() ==> #[trigger] lines@[j]@ == ls[j],
            prefix@ == seq!['@'] + lowercase_of(move_uci@),
            best == last_score(ls.subrange(0, i as int), prefix@),
        decreases lines.len() - i,
    {
        let ghost sub = ls.subrange(0, i + 1);
        assert(sub.last() == lines@[i as int]@);
        assert(sub.drop_last() =~= ls.subrange(0, i as int));
        let trimmed = trim_chars(lines[i].as_slice());
        if starts_with_chars(trimmed.as_slice(), prefix.as_slice()) {
            let rest = slice_chars(trimmed.as_slice(), prefix.len(), trimmed.len());
            let score = match line_score_chars(rest.as_slice()) {
                Some(n) => Some(n),
                None => line_score_chars(trimmed.as_slice()),
            };
            match score {
                Some(s) => {
                    best = Some(s);
                },
                None => {},
            }
        }
        i = i + 1;
    }
    assert(ls.subrange(0, ls.len() as int) =~= ls);
    best
}

/// What `extract_move_and_score` gives: the tagged move of the content (else
/// of the reasoning), lower-cased, with its score from the reasoning (else
/// from the content, else 0); an empty move and 0 when neither has one.
pub open spec fn move_and_score(content: Seq<char>, reasoning: Seq<char>) -> (Seq<char>, i32) {
    let mv = match tagged_move(content) {
        Some(m) => m,
        None => match tagged_move(reasoning) {
            Some(m) => m,
            None => seq![],
        },
    };
    if mv.len() == 0 {
        (seq![], 0)
    } else {
        let ml = lowercase_of(mv);
        let s = match score_for_move(reasoning, ml) {
            Some(n) => n,
            None => match score_for_move(content, ml) {
                Some(n) => n,
                None => 0,
            },
        };
        (ml, s)
    }
}

/// Reads the final move of a sampled reply and its score.
pub fn extract_move_and_score(content: &str, reasoning: &str) -> (r: (String, i32))
    ensures
        r.0@ == move_and_score(content@, reasoning@).0,
        r.1 == move_and_score(content@, reasoning@).1,
{
    let mv = match extract_from_move_tags(content) {
        Some(m) => m,
        None => match extract_from_move_tags(reasoning) {
            Some(m) => m,
            None => String::new(),
        },
    };
    if mv.as_str().is_empty() {
        return (String::new(), 0);
    }
    let mv_lower = to_lowercase(mv.as_str());
    let score = match extract_score_for_move(reasoning, mv_lower.as_str()) {
        Some(n) => n,
        None => match extract_score_for_move(content, mv_lower.as_str()) {
            Some(n) => n,
            None => 0,
        },
    };
    (mv_lower, score)
}

/// Line `l` (of a lower-cased text) is an `@<move>` line for `mv` that
/// states the score `s`: trimmed, it begins with `@` and the lower-cased
/// move, and `分:s` or `score:s` stands after that beginning or in the line.
pub open spec fn states_score_of(l: Seq<char>, mv: Seq<char>, s: i32) -> bool {
    let t = trim(l);
    let p = seq!['@'] + lowercase_of(mv);
    &&& starts_with(t, p)
    &&& (line_score(t.subrange(p.len() as int, t.len() as int)) == Some(s) || line_score(t) == Some(s))
}

/// The last line of the lower-cased text that states a score for `mv`
/// states `s`.
pub open spec fn last_line_states(text: Seq<char>, mv: Seq<char>, s: i32) -> bool {
    let ls = lines_of(lowercase_of(text));
    exists|j: int|
        0 <= j < ls.len() && #[trigger] states_score_of(ls[j], mv, s) && forall|k: int, s2: i32|
            j < k < ls.len() ==> !#[trigger] states_score_of(ls[k], mv, s2)
}

/// No line of the lower-cased text states a score for `mv`.
pub open spec fn states_no_score(text: Seq<char>, mv: Seq<char>) -> bool {
    let ls = lines_of(lowercase_of(text));
    forall|k: int, s2: i32| 0 <= k < ls.len() ==> !#[trigger] states_score_of(ls[k], mv, s2)
}

proof fn lemma_last_score_line(ls: Seq<Seq<char>>, mv: Seq<char>)
    ensures
        last_score(ls, seq!['@'] + lowercase_of(mv)) matches Some(s) ==> exists|j: int|
            0 <= j < ls.len() && #[trigger] states_score_of(ls[j], mv, s) && forall|k: int, s2: i32|
                j < k < ls.len() ==> !#[trigger] states_score_of(ls[k], mv, s2),
        last_score(ls, seq!['@'] + lowercase_of(mv)) is None ==> forall|k: int, s2: i32|
            0 <= k < ls.len() ==> !#[trigger] states_score_of(ls[k], mv, s2),
    decreases ls.len(),
{
    let p = seq!['@'] + lowercase_of(mv);
    if ls.len() > 0 {
        let n = ls.len() - 1;
        let front = ls.drop_last();
        lemma_last_score_line(front, mv);
        assert forall|k: int| 0 <= k < n implies ls[k] == front[k] by {}
        match scored_line(ls.last(), p) {
            Some(s) => {
                assert(states_score_of(ls[n], mv, s));
            },
            None => {
                assert forall|s2: i32| !states_score_of(ls[n], mv, s2) by {}
                match last_score(front, p) {
                    Some(s) => {
                        let j = choose|j: int|
                            0 <= j < front.len() && #[trigger] states_score_of(front[j], mv, s)
                                && forall|k: int, s2: i32|
                                j < k < front.len() ==> !#[trigger] states_score_of(front[k], mv, s2);
                        assert(states_score_of(ls[j], mv, s));
                        assert forall|k: int, s2: i32| j < k < ls.len() implies !#[trigger] states_score_of(
                            ls[k],
                            mv,
                            s2,
                        ) by {
                            if k < n {
                                assert(ls[k] == front[k]);
                            }
                        }
                    },
                    None => {
                        assert forall|k: int, s2: i32| 0 <= k < ls.len() implies !#[trigger] states_score_of(
                            ls[k],
                            mv,
                            s2,
                        ) by {
                            if k < n {
                                assert(ls[k] == front[k]);
                            }
                        }
                    },
                }
            },
        }
    }
}

/// The score read with a sampled move belongs to that move: it is the
/// score stated on the last `@<move>` line of that very move in the
/// reasoning, or, when no line of the reasoning states one for the move, on
/// the last such line of the content; 0 when neither text states one.
/// Scores on other moves' lines are never taken. A reply without a tagged
/// move gives an empty move and 0.
pub proof fn law_score_belongs_to_move(content: Seq<char>, reasoning: Seq<char>)
    ensures
        ({
            let (m, s) = move_and_score(content, reasoning);
            m.len() > 0 ==> {
                ||| last_line_states(reasoning, m, s)
                ||| states_no_score(reasoning, m) && last_line_states(content, m, s)
                ||| states_no_score(reasoning, m) && states_no_score(content, m) && s == 0
            }
        }),
        tagged_move(content) is None && tagged_move(reasoning) is None ==> move_and_score(
            content,
            reasoning,
        ).0.len() == 0 && move_and_score(content, reasoning).1 == 0,
{
    let (m, s) = move_and_score(content, reasoning);
    lemma_last_score_line(lines_of(lowercase_of(reasoning)), m);
    lemma_last_score_line(lines_of(lowercase_of(content)), m);
}

/// Trimmed, `l` holds neither `legal`, `Legal` nor a full-width colon, and
/// its first move is `m`.
pub open spec fn plain_line_naming(l: Seq<char>, m: Seq<char>) -> bool {
    let t = trim(l);
    &&& !contains_seq(t, seq!['l', 'e', 'g', 'a', 'l'])
    &&& !contains_seq(t, seq!['L', 'e', 'g', 'a', 'l'])
    &&& !contains_seq(t, seq!['\u{ff1a}'])
    &&& line_move(t) == Some(m)
}

proof fn lemma_last_line_move_plain(ls: Seq<Seq<char>>, m: Seq<char>)
    requires
        last_line_move(ls) == Some(m),
    ensures
        exists|j: int| 0 <= j < ls.len() && #[trigger] plain_line_naming(ls[j], m),
    decreases ls.len(),
{
    let l = trim(ls.last());
    if l.len() > 0 && !reasoning_line(l) && line_move(l) is Some {
        assert(plain_line_naming(ls[ls.len() - 1], m));
    } else {
        lemma_last_line_move_plain(ls.drop_last(), m);
        let j = choose|j: int| 0 <= j < ls.drop_last().len() && #[trigger] plain_line_naming(ls.drop_last()[j], m);
        assert(ls[j] == ls.drop_last()[j]);
        assert(plain_line_naming(ls[j], m));
    }
}

/// When a reply has no tagged move and is not itself a bare move, the move
/// read from it comes from one of its lines that holds neither `legal`,
/// `Legal` nor a full-width colon: a line listing the legal moves, or a line
/// of reasoning, is never where the move is taken from.
pub proof fn law_fallback_skips_legal_lines(text: Seq<char>, m: Seq<char>)
    requires
        move_token(text) == Some(m),
        tagged_move(text) is None,
        !pure_move(trim(remove_all(text, seq!['`', '`', '`']))),
    ensures
        exists|j: int| 0 <= j < lines_of(text).len() && #[trigger] plain_line_naming(lines_of(text)[j], m),
{
    lemma_last_line_move_plain(lines_of(text), m);
}

} // verus!
