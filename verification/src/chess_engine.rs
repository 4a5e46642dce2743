//! The game record: the position (held as the FEN text that the `chess`
//! crate writes), the moves played and the positions before each of them, and
//! the coordinate notation of squares, pieces, colours and moves.
//!
//! Move generation, move application and position queries are done by the
//! `chess` crate; each such call is a small trusted wrapper whose result is
//! named over the FEN text it was given. The wrappers are handed only texts
//! with eight full ranks and one king of each colour (`Position` keeps its
//! text so), since the crate's reader looks up the side to move's king before
//! it checks the position.

use vstd::prelude::*;
use crate::text::{
    trim, trim_str, chars_of, concat_str, insert_sorted_unique, lowercase_of, owned, strictly_sorted, string_of,
    string_views, to_lowercase, views_of, split_on, split_chars, decimal, u64_to_decimal,
    is_ascii_digit_char, digit_value, chars_eq, append_chars,
};
use std::str::FromStr;
use vstd::utf8::{decode_utf8, encode_utf8, is_char_boundary};
use vstd::string::StringSliceAdditionalSpecFns;

verus! {

// ---------------------------------------------------------------------------
// Colours, pieces, squares, moves
// ---------------------------------------------------------------------------

#[derive(Clone, Copy, PartialEq, Eq, Debug, Structural)]
pub enum Color {
    White,
    Black,
}

#[derive(Clone, Copy, PartialEq, Eq, Debug, Structural)]
pub enum Piece {
    Pawn,
    Knight,
    Bishop,
    Rook,
    Queen,
    King,
}

/// The state of a position, as the `chess` crate reports it.
#[derive(Clone, Copy, PartialEq, Eq, Debug, Structural)]
pub enum BoardStatus {
    Ongoing,
    Stalemate,
    Checkmate,
}

/// A square of the board, numbered 0 (a1) to 63 (h8), rank by rank.
#[derive(Clone, Copy, PartialEq, Eq, Debug, Structural)]
pub struct Square {
    idx: u8,
}

impl Square {
    #[verifier::type_invariant]
    spec fn inv(self) -> bool {
        self.idx < 64
    }

    /// The square's number: file + 8 * rank.
    pub closed spec fn index(self) -> int {
        self.idx as int
    }

    pub closed spec fn at(i: int) -> Square {
        Square { idx: i as u8 }
    }

    pub proof fn lemma_at(i: int)
        requires
            0 <= i < 64,
        ensures
            Square::at(i).index() == i,
    {
    }

    pub proof fn lemma_index_eq(a: Square, b: Square)
        requires
            a.index() == b.index(),
        ensures
            a == b,
    {
    }

    pub fn from_index(i: u8) -> (r: Square)
        requires
            i < 64,
        ensures
            r.index() == i,
            r == Square::at(i as int),
    {
        Square { idx: i }
    }

    pub fn to_index(&self) -> (r: u8)
        ensures
            r as int == self.index(),
            r < 64,
    {
        proof {
            use_type_invariant(self);
        }
        self.idx
    }
}

/// A move in coordinate terms: source, destination and promotion piece.
#[derive(Clone, Copy, PartialEq, Eq, Debug, Structural)]
pub struct ChessMove {
    pub source: Square,
    pub dest: Square,
    pub promotion: Option<Piece>,
}

impl ChessMove {
    pub fn new(source: Square, dest: Square, promotion: Option<Piece>) -> (r: ChessMove)
        ensures
            r == (ChessMove { source, dest, promotion }),
    {
        ChessMove { source, dest, promotion }
    }

    pub fn get_source(&self) -> (r: Square)
        ensures
            r == self.source,
    {
        self.source
    }

    pub fn get_dest(&self) -> (r: Square)
        ensures
            r == self.dest,
    {
        self.dest
    }

    pub fn get_promotion(&self) -> (r: Option<Piece>)
        ensures
            r == self.promotion,
    {
        self.promotion
    }
}

// ---------------------------------------------------------------------------
// Notation
// ---------------------------------------------------------------------------

pub open spec fn is_file_char(c: char) -> bool {
    'a' <= c && c <= 'h'
}

pub open spec fn is_rank_char(c: char) -> bool {
    '1' <= c && c <= '8'
}

pub open spec fn file_char_of(i: int) -> char {
    (('a' as int) + i % 8) as char
}

pub open spec fn rank_char_of(i: int) -> char {
    (('1' as int) + i / 8) as char
}

/// `e4`-style name of a square.
pub open spec fn square_name(sq: Square) -> Seq<char> {
    seq![file_char_of(sq.index()), rank_char_of(sq.index())]
}

/// Lower-case letter of a piece.
pub open spec fn piece_letter(p: Piece) -> char {
    match p {
        Piece::Pawn => 'p',
        Piece::Knight => 'n',
        Piece::Bishop => 'b',
        Piece::Rook => 'r',
        Piece::Queen => 'q',
        Piece::King => 'k',
    }
}

/// Piece named by a letter of either case.
pub open spec fn piece_of_letter(c: char) -> Option<Piece> {
    if c == 'p' || c == 'P' {
        Some(Piece::Pawn)
    } else if c == 'n' || c == 'N' {
        Some(Piece::Knight)
    } else if c == 'b' || c == 'B' {
        Some(Piece::Bishop)
    } else if c == 'r' || c == 'R' {
        Some(Piece::Rook)
    } else if c == 'q' || c == 'Q' {
        Some(Piece::Queen)
    } else if c == 'k' || c == 'K' {
        Some(Piece::King)
    } else {
        None
    }
}

/// Coordinate notation of a move: `e2e4`, or `e7e8q` with a promotion.
pub open spec fn move_coord(mv: ChessMove) -> Seq<char> {
    match mv.promotion {
        Some(p) => square_name(mv.source) + square_name(mv.dest) + seq![piece_letter(p)],
        None => square_name(mv.source) + square_name(mv.dest),
    }
}

/// The square named by the first two characters, as `Square::from_str` reads it.
pub open spec fn square_of_name(s: Seq<char>) -> Option<Square> {
    if s.len() >= 2 && is_file_char(s[0]) && is_rank_char(s[1]) {
        Some(Square::at(((s[1] as int) - ('1' as int)) * 8 + ((s[0] as int) - ('a' as int))))
    } else {
        None
    }
}

pub open spec fn color_name(c: Color) -> Seq<char> {
    match c {
        Color::White => seq!['w', 'h', 'i', 't', 'e'],
        Color::Black => seq!['b', 'l', 'a', 'c', 'k'],
    }
}

/// Colour named by text, compared after Unicode lower-casing.
pub open spec fn color_of_name(s: Seq<char>) -> Option<Color> {
    let l = lowercase_of(s);
    if l == seq!['w', 'h', 'i', 't', 'e'] || l == seq!['w'] {
        Some(Color::White)
    } else if l == seq!['b', 'l', 'a', 'c', 'k'] || l == seq!['b'] {
        Some(Color::Black)
    } else {
        None
    }
}

pub open spec fn opposite(c: Color) -> Color {
    match c {
        Color::White => Color::Black,
        Color::Black => Color::White,
    }
}

fn file_char(i: u8) -> (c: char)
    requires
        i < 8,
    ensures
        c == file_char_of(i as int),
{
    let cs = ['a', 'b', 'c', 'd', 'e', 'f', 'g', 'h'];
    assert(cs@ =~= seq!['a', 'b', 'c', 'd', 'e', 'f', 'g', 'h']);
    cs[i as usize]
}

fn rank_char(i: u8) -> (c: char)
    requires
        i < 8,
    ensures
        c == (('1' as int) + i) as char,
{
    let cs = ['1', '2', '3', '4', '5', '6', '7', '8'];
    assert(cs@ =~= seq!['1', '2', '3', '4', '5', '6', '7', '8']);
    cs[i as usize]
}

fn square_chars(sq: Square) -> (r: Vec<char>)
    ensures
        r@ == square_name(sq),
{
    let idx = sq.to_index();
    let mut v: Vec<char> = Vec::new();
    v.push(file_char(idx % 8));
    v.push(rank_char(idx / 8));
    assert(v@ =~= square_name(sq));
    v
}

/// Square name such as `e4`.
pub fn square_to_str(sq: Square) -> (r: String)
    ensures
        r@ == square_name(sq),
{
    let v = square_chars(sq);
    string_of(v.as_slice())
}

/// Reads a square name such as `e4`.
pub fn parse_square(s: &str) -> (r: Option<Square>)
    ensures
        r == square_of_name(s@),
{
    let v = chars_of(s);
    parse_square_chars(v.as_slice())
}

pub fn parse_square_chars(v: &[char]) -> (r: Option<Square>)
    ensures
        r == square_of_name(v@),
{
    if v.len() >= 2 && 'a' <= v[0] && v[0] <= 'h' && '1' <= v[1] && v[1] <= '8' {
        let f = (v[0] as u32 - 'a' as u32) as u8;
        let rk = (v[1] as u32 - '1' as u32) as u8;
        Some(Square::from_index(rk * 8 + f))
    } else {
        None
    }
}

/// Lower-case letter of a piece (promotion notation, black pieces in FEN).
pub fn piece_to_char(p: Piece) -> (c: char)
    ensures
        c == piece_letter(p),
{
    match p {
        Piece::Pawn => 'p',
        Piece::Knight => 'n',
        Piece::Bishop => 'b',
        Piece::Rook => 'r',
        Piece::Queen => 'q',
        Piece::King => 'k',
    }
}

/// Piece named by a letter, case ignored.
pub fn char_to_piece(c: char) -> (r: Option<Piece>)
    ensures
        r == piece_of_letter(c),
{
    if c == 'p' || c == 'P' {
        Some(Piece::Pawn)
    } else if c == 'n' || c == 'N' {
        Some(Piece::Knight)
    } else if c == 'b' || c == 'B' {
        Some(Piece::Bishop)
    } else if c == 'r' || c == 'R' {
        Some(Piece::Rook)
    } else if c == 'q' || c == 'Q' {
        Some(Piece::Queen)
    } else if c == 'k' || c == 'K' {
        Some(Piece::King)
    } else {
        None
    }
}

pub fn move_to_coord_chars(mv: &ChessMove) -> (r: Vec<char>)
    ensures
        r@ == move_coord(*mv),
{
    let mut v = square_chars(mv.source);
    let to = square_chars(mv.dest);
    v.push(to[0]);
    v.push(to[1]);
    match mv.promotion {
        Some(p) => {
            v.push(piece_to_char(p));
        },
        None => {},
    }
    assert(v@ =~= move_coord(*mv));
    v
}

/// Coordinate notation of a move (`e2e4`, `e7e8q`).
pub fn move_to_coord(mv: &ChessMove) -> (r: String)
    ensures
        r@ == move_coord(*mv),
{
    let v = move_to_coord_chars(mv);
    string_of(v.as_slice())
}

/// UTF-8 bytes of the trimmed text that `parse_coord_move` reads.
pub open spec fn coord_bytes(s: Seq<char>) -> Seq<u8> {
    encode_utf8(trim(s))
}

/// The move that coordinate text names, legality not considered: after
/// trimming, 4 or 5 bytes; two square names; with 5 bytes, the last byte is
/// a piece letter of either case. Text whose bytes 2 or 4 fall inside a
/// character is malformed and names no move.
pub open spec fn coord_move_of(s: Seq<char>) -> Option<ChessMove> {
    let b = coord_bytes(s);
    if b.len() < 4 || b.len() > 5 {
        None
    } else if !is_char_boundary(b, 2) || !is_char_boundary(b, 4) {
        None
    } else {
        match square_of_name(decode_utf8(b.subrange(0, 2))) {
            None => None,
            Some(from) => match square_of_name(decode_utf8(b.subrange(2, 4))) {
                None => None,
                Some(to) => {
                    if b.len() == 5 {
                        match piece_of_letter(b[4] as char) {
                            None => None,
                            Some(p) => Some(ChessMove { source: from, dest: to, promotion: Some(p) }),
                        }
                    } else {
                        Some(ChessMove { source: from, dest: to, promotion: None })
                    }
                },
            },
        }
    }
}

/// Reads coordinate notation (`e2e4`, `e7e8q`) after trimming whitespace;
/// legality is not checked.
pub fn parse_coord_move(s: &str) -> (r: Option<ChessMove>)
    ensures
        r == coord_move_of(s@),
{
    broadcast use vstd::utf8::encode_utf8_decode_utf8;
    broadcast use vstd::utf8::encode_utf8_valid_utf8;

    let t = trim_str(s);
    let ts = t.as_str();
    let bytes = ts.as_bytes();
    let n = bytes.len();
    assert(bytes@ == coord_bytes(s@));
    if n < 4 || n > 5 {
        return None;
    }
    if !ts.is_char_boundary(2) {
        return None;
    }
    let (head, rest) = ts.split_at(2);
    assert(head@ == decode_utf8(coord_bytes(s@).subrange(0, 2))) by {
        assert(head.spec_bytes() =~= coord_bytes(s@).subrange(0, 2));
    }
    let from = match parse_square(head) {
        Some(sq) => sq,
        None => {
            return None;
        },
    };
    proof {
        crate::text::lemma_char_boundary_in_suffix(coord_bytes(s@), 2, 4);
    }
    if !rest.is_char_boundary(2) {
        return None;
    }
    let (mid, _) = rest.split_at(2);
    assert(mid@ == decode_utf8(coord_bytes(s@).subrange(2, 4))) by {
        assert(mid.spec_bytes() =~= coord_bytes(s@).subrange(2, 4));
    }
    let to = match parse_square(mid) {
        Some(sq) => sq,
        None => {
            return None;
        },
    };
    if n == 5 {
        let c = bytes[4] as char;
        match char_to_piece(c) {
            Some(p) => Some(ChessMove { source: from, dest: to, promotion: Some(p) }),
            None => None,
        }
    } else {
        Some(ChessMove { source: from, dest: to, promotion: None })
    }
}

// ---------------------------------------------------------------------------
// Colours by name
// ---------------------------------------------------------------------------

/// `white` or `black`.
pub fn color_to_str(c: Color) -> (r: String)
    ensures
        r@ == color_name(c),
{
    match c {
        Color::White => {
            proof {
                reveal_strlit("white");
            }
            owned("white")
        },
        Color::Black => {
            proof {
                reveal_strlit("black");
            }
            owned("black")
        },
    }
}

/// Reads a colour: `white`/`w` or `black`/`b`, after lower-casing.
pub fn str_to_color(s: &str) -> (r: Option<Color>)
    ensures
        r == color_of_name(s@),
{
    let l = to_lowercase(s);
    let v = chars_of(l.as_str());
    let white: [char; 5] = ['w', 'h', 'i', 't', 'e'];
    let w: [char; 1] = ['w'];
    let black: [char; 5] = ['b', 'l', 'a', 'c', 'k'];
    let b: [char; 1] = ['b'];
    assert(white@ == seq!['w', 'h', 'i', 't', 'e']);
    assert(w@ == seq!['w']);
    assert(black@ == seq!['b', 'l', 'a', 'c', 'k']);
    assert(b@ == seq!['b']);
    if chars_eq(v.as_slice(), white.as_slice()) || chars_eq(v.as_slice(), w.as_slice()) {
        Some(Color::White)
    } else if chars_eq(v.as_slice(), black.as_slice()) || chars_eq(v.as_slice(), b.as_slice()) {
        Some(Color::Black)
    } else {
        None
    }
}

/// The other colour.
pub fn color_opposite(c: Color) -> (r: Color)
    ensures
        r == opposite(c),
{
    match c {
        Color::White => Color::Black,
        Color::Black => Color::White,
    }
}

// ---------------------------------------------------------------------------
// Position texts the `chess` crate can read
// ---------------------------------------------------------------------------

pub open spec fn is_piece_char(c: char) -> bool {
    ||| c == 'p' || c == 'n' || c == 'b' || c == 'r' || c == 'q' || c == 'k'
    ||| c == 'P' || c == 'N' || c == 'B' || c == 'R' || c == 'Q' || c == 'K'
}

pub open spec fn is_width_digit(c: char) -> bool {
    '1' <= c && c <= '8'
}

/// The squares a character of a placement field fills: a digit that many,
/// a piece letter one.
pub open spec fn cell_width(c: char) -> int {
    if is_width_digit(c) {
        (c as int) - ('0' as int)
    } else {
        1
    }
}

/// The squares a rank field fills.
pub open spec fn rank_width(r: Seq<char>) -> int
    decreases r.len(),
{
    if r.len() == 0 {
        0
    } else {
        rank_width(r.drop_last()) + cell_width(r.last())
    }
}

/// A rank field of piece letters and digits 1–8 that fills exactly eight
/// squares.
pub open spec fn full_rank(r: Seq<char>) -> bool {
    &&& forall|i: int| 0 <= i < r.len() ==> is_piece_char(#[trigger] r[i]) || is_width_digit(r[i])
    &&& rank_width(r) == 8
}

/// How often `c` occurs in `s`.
pub open spec fn count_char(s: Seq<char>, c: char) -> nat
    decreases s.len(),
{
    if s.len() == 0 {
        0
    } else {
        count_char(s.drop_last(), c) + if s.last() == c {
            1nat
        } else {
            0nat
        }
    }
}

/// A position text whose placement field (before the first space) has
/// eight rank fields of eight squares each and one king of each colour: the
/// `chess` crate reads such a text without going off the board, whatever
/// the rest of it says.
pub open spec fn sound_position_text(fen: Seq<char>) -> bool {
    let placement = split_on(fen, ' ')[0];
    let rk = split_on(placement, '/');
    &&& rk.len() == 8
    &&& forall|i: int| 0 <= i < 8 ==> full_rank(#[trigger] rk[i])
    &&& count_char(placement, 'K') == 1
    &&& count_char(placement, 'k') == 1
}

proof fn lemma_rank_width_prefix(r: Seq<char>, i: int)
    requires
        0 <= i <= r.len(),
        forall|k: int| 0 <= k < r.len() ==> is_piece_char(#[trigger] r[k]) || is_width_digit(r[k]),
    ensures
        rank_width(r.subrange(0, i)) <= rank_width(r),
    decreases r.len(),
{
    if i < r.len() {
        assert(r.drop_last() =~= r.subrange(0, r.len() - 1));
        assert(r.subrange(0, r.len() - 1).subrange(0, i) =~= r.subrange(0, i));
        assert(is_piece_char(r[r.len() - 1]) || is_width_digit(r[r.len() - 1]));
        lemma_rank_width_prefix(r.drop_last(), i);
    } else {
        assert(r.subrange(0, i) =~= r);
    }
}

fn full_rank_chars(r: &[char]) -> (b: bool)
    ensures
        b == full_rank(r@),
{
    let mut w: u32 = 0;
    let mut i: usize = 0;
    while i < r.len()
        invariant
            0 <= i <= r@.len(),
            w == rank_width(r@.subrange(0, i as int)),
            w <= 8,
            forall|k: int| 0 <= k < i ==> is_piece_char(#[trigger] r@[k]) || is_width_digit(r@[k]),
        decreases r.len() - i,
    {
        let c = r[i];
        let piece = c == 'p' || c == 'n' || c == 'b' || c == 'r' || c == 'q' || c == 'k' || c
            == 'P' || c == 'N' || c == 'B' || c == 'R' || c == 'Q' || c == 'K';
        let digit = '1' <= c && c <= '8';
        if !piece && !digit {
            return false;
        }
        assert(r@.subrange(0, i + 1).drop_last() =~= r@.subrange(0, i as int));
        assert(r@.subrange(0, i + 1).last() == c);
        let cw: u32 = if digit {
            (c as u32) - ('0' as u32)
        } else {
            1
        };
        w = w + cw;
        i = i + 1;
        if w > 8 {
            proof {
                if full_rank(r@) {
                    lemma_rank_width_prefix(r@, i as int);
                }
            }
            return false;
        }
    }
    assert(r@.subrange(0, i as int) =~= r@);
    w == 8
}

fn count_chars(s: &[char], c: char) -> (r: usize)
    ensures
        r == count_char(s@, c),
{
    let mut n: usize = 0;
    let mut i: usize = 0;
    while i < s.len()
        invariant
            0 <= i <= s@.len(),
            n == count_char(s@.subrange(0, i as int), c),
            n <= i,
        decreases s.len() - i,
    {
        assert(s@.subrange(0, i + 1).drop_last() =~= s@.subrange(0, i as int));
        if s[i] == c {
            n = n + 1;
        }
        i = i + 1;
    }
    assert(s@.subrange(0, i as int) =~= s@);
    n
}

/// Whether a position text is one the `chess` crate can read safely (see
/// `sound_position_text`).
pub fn is_sound_position_text(fen: &str) -> (r: bool)
    ensures
        r == sound_position_text(fen@),
{
    let cs = chars_of(fen);
    let fields = split_chars(cs.as_slice(), ' ');
    assert(views_of(fields@).len() > 0) by {
        reveal_with_fuel(split_on, 2);
    }
    assert(views_of(fields@)[0] == fields@[0]@);
    let placement = &fields[0];
    let ranks = split_chars(placement.as_slice(), '/');
    let ghost rk = split_on(split_on(fen@, ' ')[0], '/');
    assert(views_of(ranks@) == rk);
    if ranks.len() != 8 {
        return false;
    }
    let mut i: usize = 0;
    while i < 8
        invariant
            0 <= i <= 8,
            ranks@.len() == 8,
            rk == split_on(split_on(fen@, ' ')[0], '/'),
            views_of(ranks@) == rk,
            forall|k: int| 0 <= k < i ==> full_rank(#[trigger] rk[k]),
        decreases 8 - i,
    {
        assert(views_of(ranks@)[i as int] == ranks@[i as int]@);
        if !full_rank_chars(ranks[i].as_slice()) {
            assert(!full_rank(rk[i as int]));
            return false;
        }
        i = i + 1;
    }
    count_chars(placement.as_slice(), 'K') == 1 && count_chars(placement.as_slice(), 'k') == 1
}

/// A position text that the `chess` crate can read (see
/// `sound_position_text`).
pub struct Position {
    fen: String,
}

impl Position {
    #[verifier::type_invariant]
    spec fn readable(self) -> bool {
        sound_position_text(self.fen@)
    }

    /// The position given by a text, where the text is sound (see
    /// `sound_position_text`); `None` otherwise.
    pub fn from_text(s: &str) -> (r: Option<Position>)
        ensures
            r is Some <==> sound_position_text(s@),
            r matches Some(p) ==> p@ == s@,
    {
        if is_sound_position_text(s) {
            Some(Position { fen: owned(s) })
        } else {
            None
        }
    }

    fn from_written(fen: String) -> (r: Position)
        requires
            sound_position_text(fen@),
        ensures
            r@ == fen@,
    {
        Position { fen }
    }

    /// The text.
    pub fn as_str(&self) -> (r: &str)
        ensures
            r@ == self@,
            sound_position_text(r@),
    {
        proof {
            use_type_invariant(self);
        }
        self.fen.as_str()
    }
}

impl View for Position {
    type V = Seq<char>;

    closed spec fn view(&self) -> Seq<char> {
        self.fen@
    }
}

// ---------------------------------------------------------------------------
// Positions, by way of the `chess` crate
// ---------------------------------------------------------------------------

/// A move as the `chess` crate numbers it: source and destination square
/// indices (`Square::to_index`) and the promotion piece's index
/// (`Piece::to_index`: pawn 0, knight 1, bishop 2, rook 3, queen 4, king 5).
pub open spec fn valid_code(c: (u8, u8, Option<u8>)) -> bool {
    &&& c.0 < 64
    &&& c.1 < 64
    &&& c.2 matches Some(p) ==> p < 6
}

pub open spec fn piece_of_index(i: u8) -> Piece {
    if i == 0 {
        Piece::Pawn
    } else if i == 1 {
        Piece::Knight
    } else if i == 2 {
        Piece::Bishop
    } else if i == 3 {
        Piece::Rook
    } else if i == 4 {
        Piece::Queen
    } else {
        Piece::King
    }
}

pub open spec fn piece_index(p: Piece) -> u8 {
    match p {
        Piece::Pawn => 0,
        Piece::Knight => 1,
        Piece::Bishop => 2,
        Piece::Rook => 3,
        Piece::Queen => 4,
        Piece::King => 5,
    }
}

/// The move that a code stands for.
pub open spec fn code_move(c: (u8, u8, Option<u8>)) -> ChessMove {
    ChessMove {
        source: Square::at(c.0 as int),
        dest: Square::at(c.1 as int),
        promotion: match c.2 {
            Some(p) => Some(piece_of_index(p)),
            None => None,
        },
    }
}

/// The code of a move.
pub open spec fn move_code(mv: ChessMove) -> (u8, u8, Option<u8>) {
    (
        mv.source.index() as u8,
        mv.dest.index() as u8,
        match mv.promotion {
            Some(p) => Some(piece_index(p)),
            None => None,
        },
    )
}

proof fn lemma_code_roundtrip(c: (u8, u8, Option<u8>))
    requires
        valid_code(c),
    ensures
        move_code(code_move(c)) == c,
{
    Square::lemma_at(c.0 as int);
    Square::lemma_at(c.1 as int);
}

/// What `MoveGen::new_legal` generates, in order, for the position that
/// `Board::from_str` reads from a FEN text, each move as its code; `None`
/// where the text is not a position.
pub uninterp spec fn legal_move_codes(fen: Seq<char>) -> Option<Seq<(u8, u8, Option<u8>)>>;

/// Legal moves of a position, with `Board::from_str` and `MoveGen::new_legal`.
///
/// Trusted: the result is named `legal_move_codes` of the text; every code
/// holds square indices below 64 and a piece index below 6, as
/// `Square::to_index` and `Piece::to_index` give.
#[verifier::external_body]
fn position_legal_moves(fen: &str) -> (r: Option<Vec<(u8, u8, Option<u8>)>>)
    requires
        sound_position_text(fen@),
    ensures
        match legal_move_codes(fen@) {
            None => r is None,
            Some(cs) => r matches Some(v) && v@ == cs,
        },
        r matches Some(v) ==> forall|i: int| 0 <= i < v@.len() ==> valid_code(#[trigger] v@[i]),
{
    let board = chess::Board::from_str(fen).ok()?;
    Some(
        chess::MoveGen::new_legal(&board).map(
            |m: chess::ChessMove|
                (
                    m.get_source().to_index() as u8,
                    m.get_dest().to_index() as u8,
                    m.get_promotion().map(|p: chess::Piece| p.to_index() as u8),
                ),
        ).collect(),
    )
}

/// What `Board::piece_on` reports for a square (as a piece index) of the
/// position read from a FEN text; `None` where the text is not a position.
pub uninterp spec fn piece_index_on(fen: Seq<char>, sq: u8) -> Option<Option<u8>>;

/// The piece on a square, with `Board::from_str` and `Board::piece_on`.
///
/// Trusted: the result is named `piece_index_on`; a piece index is below 6.
#[verifier::external_body]
fn position_piece_on(fen: &str, sq: u8) -> (r: Option<Option<u8>>)
    requires
        sq < 64,
        sound_position_text(fen@),
    ensures
        r == piece_index_on(fen@, sq),
        r matches Some(Some(p)) ==> p < 6,
{
    let board = chess::Board::from_str(fen).ok()?;
    Some(board.piece_on(chess::ALL_SQUARES[sq as usize]).map(|p: chess::Piece| p.to_index() as u8))
}

/// What `Board::color_on` reports for a square of the position read from a
/// FEN text; `None` where the text is not a position.
pub uninterp spec fn color_on_square(fen: Seq<char>, sq: u8) -> Option<Option<Color>>;

/// The colour of the piece on a square, with `Board::from_str` and
/// `Board::color_on`.
///
/// Trusted: the result is named `color_on_square`.
#[verifier::external_body]
fn position_color_on(fen: &str, sq: u8) -> (r: Option<Option<Color>>)
    requires
        sq < 64,
        sound_position_text(fen@),
    ensures
        r == color_on_square(fen@, sq),
{
    let board = chess::Board::from_str(fen).ok()?;
    Some(
        board.color_on(chess::ALL_SQUARES[sq as usize]).map(
            |c: chess::Color|
                match c {
                    chess::Color::White => Color::White,
                    chess::Color::Black => Color::Black,
                },
        ),
    )
}

/// What `Board::side_to_move` reports for the position read from a FEN
/// text; `None` where the text is not a position.
pub uninterp spec fn side_to_move_of(fen: Seq<char>) -> Option<Color>;

/// The side to move, with `Board::from_str` and `Board::side_to_move`.
///
/// Trusted: the result is named `side_to_move_of`.
#[verifier::external_body]
fn position_side_to_move(fen: &str) -> (r: Option<Color>)
    requires
        sound_position_text(fen@),
    ensures
        r == side_to_move_of(fen@),
{
    let board = chess::Board::from_str(fen).ok()?;
    match board.side_to_move() {
        chess::Color::White => Some(Color::White),
        chess::Color::Black => Some(Color::Black),
    }
}

/// What `Board::status` reports for the position read from a FEN text;
/// `None` where the text is not a position.
pub uninterp spec fn status_of_position(fen: Seq<char>) -> Option<BoardStatus>;

/// The state of the position, with `Board::from_str` and `Board::status`.
///
/// Trusted: the result is named `status_of_position`.
#[verifier::external_body]
fn position_status(fen: &str) -> (r: Option<BoardStatus>)
    requires
        sound_position_text(fen@),
    ensures
        r == status_of_position(fen@),
{
    let board = chess::Board::from_str(fen).ok()?;
    match board.status() {
        chess::BoardStatus::Ongoing => Some(BoardStatus::Ongoing),
        chess::BoardStatus::Stalemate => Some(BoardStatus::Stalemate),
        chess::BoardStatus::Checkmate => Some(BoardStatus::Checkmate),
    }
}

/// The number of pieces giving check (`Board::checkers` and
/// `BitBoard::popcnt`) in the position read from a FEN text; `None` where
/// the text is not a position.
pub uninterp spec fn checkers_count(fen: Seq<char>) -> Option<u32>;

/// Pieces giving check, with `Board::from_str`, `Board::checkers` and
/// `BitBoard::popcnt`.
///
/// Trusted: the result is named `checkers_count`.
#[verifier::external_body]
fn position_checkers(fen: &str) -> (r: Option<u32>)
    requires
        sound_position_text(fen@),
    ensures
        r == checkers_count(fen@),
{
    let board = chess::Board::from_str(fen).ok()?;
    Some(board.checkers().popcnt())
}

/// The FEN text (`Display`) of the position that `Board::make_move_new`
/// gives for a move code in the position read from a FEN text.
pub uninterp spec fn fen_after_move(fen: Seq<char>, code: (u8, u8, Option<u8>)) -> Seq<char>;

/// Plays a legal move, with `Board::from_str`, `Board::make_move_new` and
/// the board's `Display`.
///
/// Trusted: the result is named `fen_after_move`; a FEN text written by the
/// crate has at most 85 characters (64 squares and 7 separators at most,
/// then side, 4 castling letters, an en-passant square and two counters).
#[verifier::external_body]
fn position_after_move(fen: &str, code: (u8, u8, Option<u8>)) -> (r: String)
    requires
        sound_position_text(fen@),
        valid_code(code),
        legal_move_codes(fen@) matches Some(cs) && cs.contains(code),
    ensures
        r@ == fen_after_move(fen@, code),
        r@.len() <= 85,
        sound_position_text(r@),
{
    let board = chess::Board::from_str(fen).unwrap();
    let m = chess::ChessMove::new(
        chess::ALL_SQUARES[code.0 as usize],
        chess::ALL_SQUARES[code.1 as usize],
        code.2.map(|p: u8| chess::ALL_PIECES[p as usize]),
    );
    board.make_move_new(m).to_string()
}

/// The FEN text of the position that `Board::null_move` gives (the turn
/// passed) for the position read from a FEN text; `None` where the text is
/// not a position or the side to move is in check.
pub uninterp spec fn fen_after_null_move(fen: Seq<char>) -> Option<Seq<char>>;

/// Passes the turn, with `Board::from_str`, `Board::null_move` and the
/// board's `Display`.
///
/// Trusted: the result is named `fen_after_null_move`.
#[verifier::external_body]
fn position_null_move(fen: &str) -> (r: Option<String>)
    requires
        sound_position_text(fen@),
    ensures
        match fen_after_null_move(fen@) {
            None => r is None,
            Some(s) => r matches Some(t) && t@ == s,
        },
        r matches Some(t) ==> sound_position_text(t@),
{
    let board = chess::Board::from_str(fen).ok()?;
    board.null_move().map(|b: chess::Board| b.to_string())
}

/// The initial position, with `Board::default` and the board's `Display`.
///
/// Trusted: the text is the standard initial FEN, as the crate writes it.
#[verifier::external_body]
fn initial_position() -> (r: String)
    ensures
        r@ == "rnbqkbnr/pppppppp/8/8/8/8/PPPPPPPP/RNBQKBNR w KQkq - 0 1"@,
        sound_position_text(r@),
{
    chess::Board::default().to_string()
}

/// The legal moves of a position, in generation order (none where the text
/// is not a position).
pub open spec fn legal_moves_of(fen: Seq<char>) -> Seq<ChessMove> {
    match legal_move_codes(fen) {
        Some(cs) => cs.map_values(|c: (u8, u8, Option<u8>)| code_move(c)),
        None => seq![],
    }
}

/// The position after a move.
pub open spec fn board_after(fen: Seq<char>, mv: ChessMove) -> Seq<char> {
    fen_after_move(fen, move_code(mv))
}

/// The side to move (white where the text is not a position).
pub open spec fn side_of(fen: Seq<char>) -> Color {
    match side_to_move_of(fen) {
        Some(c) => c,
        None => Color::White,
    }
}

/// The state of the position (ongoing where the text is not a position).
pub open spec fn status_of(fen: Seq<char>) -> BoardStatus {
    match status_of_position(fen) {
        Some(s) => s,
        None => BoardStatus::Ongoing,
    }
}

/// Whether the side to move is in check.
pub open spec fn in_check_of(fen: Seq<char>) -> bool {
    match checkers_count(fen) {
        Some(n) => n > 0,
        None => false,
    }
}

fn piece_from_index(i: u8) -> (r: Piece)
    ensures
        r == piece_of_index(i),
{
    if i == 0 {
        Piece::Pawn
    } else if i == 1 {
        Piece::Knight
    } else if i == 2 {
        Piece::Bishop
    } else if i == 3 {
        Piece::Rook
    } else if i == 4 {
        Piece::Queen
    } else {
        Piece::King
    }
}

fn code_to_move(c: (u8, u8, Option<u8>)) -> (r: ChessMove)
    requires
        valid_code(c),
    ensures
        r == code_move(c),
{
    let promotion = match c.2 {
        Some(p) => Some(piece_from_index(p)),
        None => None,
    };
    ChessMove { source: Square::from_index(c.0), dest: Square::from_index(c.1), promotion }
}

/// The legal moves of a position, in generation order.
fn legal_moves_in(fen: &str) -> (r: Vec<ChessMove>)
    requires
        sound_position_text(fen@),
    ensures
        r@ == legal_moves_of(fen@),
{
    let codes = match position_legal_moves(fen) {
        None => {
            return Vec::new();
        },
        Some(v) => v,
    };
    let mut out: Vec<ChessMove> = Vec::new();
    let mut i: usize = 0;
    while i < codes.len()
        invariant
            0 <= i <= codes@.len(),
            forall|k: int| 0 <= k < codes@.len() ==> valid_code(#[trigger] codes@[k]),
            out@ == codes@.subrange(0, i as int).map_values(|c: (u8, u8, Option<u8>)| code_move(c)),
        decreases codes.len() - i,
    {
        let m = code_to_move(codes[i]);
        out.push(m);
        assert(codes@.subrange(0, i + 1).map_values(|c: (u8, u8, Option<u8>)| code_move(c))
            =~= codes@.subrange(0, i as int).map_values(|c: (u8, u8, Option<u8>)| code_move(c)).push(m));
        i = i + 1;
    }
    assert(codes@.subrange(0, codes@.len() as int) =~= codes@);
    out
}

/// Plays a move in a position: the new position where the move is legal,
/// `None` where it is not.
fn try_play_move(fen: &str, mv: &ChessMove) -> (r: Option<String>)
    requires
        sound_position_text(fen@),
    ensures
        r is Some <==> legal_moves_of(fen@).contains(*mv),
        r matches Some(s) ==> s@ == board_after(fen@, *mv) && s@.len() <= 85 && sound_position_text(s@),
{
    let codes = match position_legal_moves(fen) {
        None => {
            return None;
        },
        Some(v) => v,
    };
    let ghost moves = legal_moves_of(fen@);
    let mut i: usize = 0;
    while i < codes.len()
        invariant
            0 <= i <= codes@.len(),
            legal_move_codes(fen@) == Some(codes@),
            sound_position_text(fen@),
            moves == codes@.map_values(|c: (u8, u8, Option<u8>)| code_move(c)),
            forall|k: int| 0 <= k < codes@.len() ==> valid_code(#[trigger] codes@[k]),
            forall|k: int| 0 <= k < i ==> code_move(#[trigger] codes@[k]) != *mv,
        decreases codes.len() - i,
    {
        let c = codes[i];
        let m = code_to_move(c);
        if m == *mv {
            proof {
                lemma_code_roundtrip(c);
                assert(moves[i as int] == *mv);
                assert(codes@.contains(c)) by {
                    assert(codes@[i as int] == c);
                }
            }
            return Some(position_after_move(fen, c));
        }
        i = i + 1;
    }
    proof {
        if moves.contains(*mv) {
            let k = choose|k: int| 0 <= k < moves.len() && moves[k] == *mv;
            assert(code_move(codes@[k]) == *mv);
        }
    }
    None
}

// ---------------------------------------------------------------------------
// Hanging pieces
// ---------------------------------------------------------------------------

/// Upper-case letter of a piece (white pieces in FEN).
pub open spec fn upper_letter(p: Piece) -> char {
    match p {
        Piece::Pawn => 'P',
        Piece::Knight => 'N',
        Piece::Bishop => 'B',
        Piece::Rook => 'R',
        Piece::Queen => 'Q',
        Piece::King => 'K',
    }
}

/// A legal move that captures for nothing: its destination holds a piece,
/// and after it no legal move goes back to that square.
pub open spec fn free_capture(fen: Seq<char>, mv: ChessMove) -> bool {
    &&& piece_index_on(fen, mv.dest.index() as u8) matches Some(Some(_))
    &&& forall|j: int|
        0 <= j < legal_moves_of(board_after(fen, mv)).len() ==> (#[trigger] legal_moves_of(
            board_after(fen, mv),
        )[j]).dest != mv.dest
}

/// The entry listed for a capture: the captured piece's letter, then its
/// square. The letter is upper case when the piece is white (`by_color`),
/// or else when `white` is set.
pub open spec fn capture_entry(fen: Seq<char>, mv: ChessMove, by_color: bool, white: bool) -> Seq<char> {
    let sq = mv.dest.index() as u8;
    let p = match piece_index_on(fen, sq) {
        Some(Some(i)) => piece_of_index(i),
        _ => Piece::Pawn,
    };
    let upper = if by_color {
        color_on_square(fen, sq) == Some(Some(Color::White))
    } else {
        white
    };
    seq![if upper { upper_letter(p) } else { piece_letter(p) }] + square_name(mv.dest)
}

/// The entries of the free captures among `moves`.
pub open spec fn capture_entries_of(
    fen: Seq<char>,
    moves: Seq<ChessMove>,
    by_color: bool,
    white: bool,
) -> Set<Seq<char>>
    decreases moves.len(),
{
    if moves.len() == 0 {
        Set::empty()
    } else {
        let rest = capture_entries_of(fen, moves.drop_last(), by_color, white);
        if free_capture(fen, moves.last()) {
            rest.insert(capture_entry(fen, moves.last(), by_color, white))
        } else {
            rest
        }
    }
}

/// The entries of the free captures of the side to move.
pub open spec fn free_capture_entries(fen: Seq<char>, by_color: bool, white: bool) -> Set<Seq<char>> {
    capture_entries_of(fen, legal_moves_of(fen), by_color, white)
}

/// Whether a move of the list goes to `sq`.
fn reaches(moves: &Vec<ChessMove>, sq: Square) -> (r: bool)
    ensures
        r == exists|k: int| 0 <= k < moves@.len() && (#[trigger] moves@[k]).dest == sq,
{
    let mut i: usize = 0;
    while i < moves.len()
        invariant
            0 <= i <= moves@.len(),
            forall|k: int| 0 <= k < i ==> (#[trigger] moves@[k]).dest != sq,
        decreases moves.len() - i,
    {
        if moves[i].dest == sq {
            assert(moves@[i as int].dest == sq);
            return true;
        }
        i = i + 1;
    }
    false
}

/// The sorted entries of the free captures of the side to move (see
/// `capture_entry` for `by_color` and `white`).
fn free_captures(fen: &str, by_color: bool, white: bool) -> (r: Vec<Vec<char>>)
    requires
        sound_position_text(fen@),
    ensures
        strictly_sorted(views_of(r@)),
        views_of(r@).to_set() == free_capture_entries(fen@, by_color, white),
{
    let moves = legal_moves_in(fen);
    let mut out: Vec<Vec<char>> = Vec::new();
    let mut i: usize = 0;
    assert(views_of(out@).to_set() =~= Set::<Seq<char>>::empty());
    while i < moves.len()
        invariant
            0 <= i <= moves@.len(),
            moves@ == legal_moves_of(fen@),
            sound_position_text(fen@),
            strictly_sorted(views_of(out@)),
            views_of(out@).to_set() == capture_entries_of(
                fen@,
                moves@.subrange(0, i as int),
                by_color,
                white,
            ),
        decreases moves.len() - i,
    {
        let mv = moves[i];
        let ghost sub = moves@.subrange(0, i + 1);
        assert(sub.drop_last() =~= moves@.subrange(0, i as int));
        assert(sub.last() == mv);
        let dest = mv.dest.to_index();
        assert(dest == mv.dest.index() as u8);
        match position_piece_on(fen, dest) {
            Some(Some(pi)) => {
                assert(moves@.contains(mv)) by {
                    assert(moves@[i as int] == mv);
                }
                let after = match try_play_move(fen, &mv) {
                    Some(a) => a,
                    None => {
                        return out;
                    },
                };
                let replies = legal_moves_in(after.as_str());
                if !reaches(&replies, mv.dest) {
                    let p = piece_from_index(pi);
                    let upper = if by_color {
                        match position_color_on(fen, dest) {
                            Some(Some(Color::White)) => true,
                            _ => false,
                        }
                    } else {
                        white
                    };
                    let letter = if upper {
                        upper_char(p)
                    } else {
                        piece_to_char(p)
                    };
                    let mut entry: Vec<char> = Vec::new();
                    entry.push(letter);
                    let sqc = square_chars(mv.dest);
                    append_chars(&mut entry, sqc.as_slice());
                    assert(entry@ =~= capture_entry(fen@, mv, by_color, white));
                    assert(free_capture(fen@, mv));
                    insert_sorted_unique(&mut out, entry);
                } else {
                    proof {
                        let k = choose|k: int| 0 <= k < replies@.len() && (#[trigger] replies@[k]).dest == mv.dest;
                        assert(legal_moves_of(board_after(fen@, mv))[k].dest == mv.dest);
                    }
                }
            },
            _ => {},
        }
        i = i + 1;
    }
    assert(moves@.subrange(0, moves@.len() as int) =~= moves@);
    out
}

/// Upper-case letter of a piece.
fn upper_char(p: Piece) -> (c: char)
    ensures
        c == upper_letter(p),
{
    match p {
        Piece::Pawn => 'P',
        Piece::Knight => 'N',
        Piece::Bishop => 'B',
        Piece::Rook => 'R',
        Piece::Queen => 'Q',
        Piece::King => 'K',
    }
}

/// The character vectors as strings.
fn strings_of(v: &Vec<Vec<char>>) -> (r: Vec<String>)
    ensures
        string_views(r@) == views_of(v@),
{
    let mut out: Vec<String> = Vec::new();
    let mut i: usize = 0;
    while i < v.len()
        invariant
            0 <= i <= v@.len(),
            out@.len() == i,
            forall|k: int| 0 <= k < i ==> #[trigger] out@[k]@ == v@[k]@,
        decreases v.len() - i,
    {
        out.push(string_of(v[i].as_slice()));
        i = i + 1;
    }
    assert(string_views(out@) =~= views_of(v@));
    out
}

// ---------------------------------------------------------------------------
// The board drawing
// ---------------------------------------------------------------------------

/// The files line above and below the board.
pub open spec fn files_line() -> Seq<char> {
    seq![' ', ' ', 'a', ' ', 'b', ' ', 'c', ' ', 'd', ' ', 'e', ' ', 'f', ' ', 'g', ' ', 'h']
}

fn files_line_chars() -> (r: Vec<char>)
    ensures
        r@ == files_line(),
{
    let a: [char; 17] = [' ', ' ', 'a', ' ', 'b', ' ', 'c', ' ', 'd', ' ', 'e', ' ', 'f', ' ', 'g', ' ', 'h'];
    let mut v: Vec<char> = Vec::new();
    append_chars(&mut v, a.as_slice());
    assert(v@ =~= files_line());
    v
}

/// A number as `{}` writes a signed integer.
pub open spec fn signed(n: int) -> Seq<char> {
    if n < 0 {
        seq!['-'] + decimal((-n) as nat)
    } else {
        decimal(n as nat)
    }
}

/// Appends the number of row `i` of the drawing (counted from the top):
/// `8 - i`.
fn push_rank_number(out: &mut Vec<char>, i: usize)
    ensures
        final(out)@ == old(out)@ + signed(8 - i),
{
    if i <= 8 {
        let d = u64_to_decimal((8 - i) as u64);
        append_chars(out, d.as_slice());
    } else {
        let d = u64_to_decimal((i - 8) as u64);
        out.push('-');
        append_chars(out, d.as_slice());
        assert(final(out)@ =~= old(out)@ + signed(8 - i));
    }
}

/// `n` empty cells.
pub open spec fn dots(n: int) -> Seq<char>
    decreases n,
{
    if n <= 0 {
        seq![]
    } else {
        dots(n - 1) + seq!['.', ' ']
    }
}

/// The cells of one FEN rank field: a digit stands for that many empty
/// cells, any other character is written as it is; each cell is followed by
/// a space.
pub open spec fn rank_cells(r: Seq<char>) -> Seq<char>
    decreases r.len(),
{
    if r.len() == 0 {
        seq![]
    } else {
        let c = r.last();
        rank_cells(r.drop_last()) + if is_ascii_digit_char(c) {
            dots(digit_value(c))
        } else {
            seq![c, ' ']
        }
    }
}

/// Row `i` of the drawing (counted from the top): the rank number, the
/// cells and the number again.
pub open spec fn board_row(r: Seq<char>, i: int) -> Seq<char> {
    signed(8 - i) + seq![' '] + rank_cells(r) + signed(8 - i) + seq!['\n']
}

/// The first `n` rows of the drawing.
pub open spec fn board_rows(rk: Seq<Seq<char>>, n: int) -> Seq<char>
    decreases n,
{
    if n <= 0 {
        seq![]
    } else {
        board_rows(rk, n - 1) + board_row(rk[n - 1], n - 1)
    }
}

/// The drawing of a position from its FEN text: the files line, a row for
/// each `/`-separated field of the placement (the text before the first
/// space), and the files line again.
pub open spec fn visual_of(fen: Seq<char>) -> Seq<char> {
    let rk = split_on(split_on(fen, ' ')[0], '/');
    files_line() + seq!['\n'] + board_rows(rk, rk.len() as int) + files_line()
}

// ---------------------------------------------------------------------------
// The game record
// ---------------------------------------------------------------------------

/// A game in progress: the current position (FEN), the moves played, the
/// position before each of them (for taking moves back), the side the person
/// plays and who plays each colour (`"human"`, `"stockfish"` or `"deepseek"`).
pub struct ChessGame {
    pub board: Position,
    pub move_history: Vec<ChessMove>,
    pub board_history: Vec<Position>,
    pub player_side: Color,
    pub white_player: String,
    pub black_player: String,
}

/// Replaying saved moves from a position: the final position, the moves, and
/// the position before each move; or the refusal text for the first move that
/// does not parse (`无法解析走法: <text>`) or is not legal
/// (`存档含非法走法: <text>`).
pub open spec fn replay(fen: Seq<char>, moves: Seq<Seq<char>>) -> Result<
    (Seq<char>, Seq<ChessMove>, Seq<Seq<char>>),
    Seq<char>,
>
    decreases moves.len(),
{
    if moves.len() == 0 {
        Ok((fen, seq![], seq![]))
    } else {
        match coord_move_of(moves[0]) {
            None => Err("无法解析走法: "@ + moves[0]),
            Some(mv) => {
                if !legal_moves_of(fen).contains(mv) {
                    Err("存档含非法走法: "@ + moves[0])
                } else {
                    match replay(board_after(fen, mv), moves.drop_first()) {
                        Ok(t) => Ok((t.0, seq![mv] + t.1, seq![fen] + t.2)),
                        Err(e) => Err(e),
                    }
                }
            },
        }
    }
}

/// The texts of a list of positions.
pub open spec fn position_texts(v: Seq<Position>) -> Seq<Seq<char>> {
    Seq::new(v.len(), |i: int| v[i]@)
}

/// The strings held by a vector, as character sequences.
pub open spec fn texts(v: Seq<String>) -> Seq<Seq<char>> {
    string_views(v)
}

/// What rebuilding a game from saved moves gives: the game the replay
/// reaches (with the given sides and players), or the replay's refusal.
pub open spec fn rebuilt(
    player_side: Color,
    white_player: String,
    black_player: String,
    moves: Seq<Seq<char>>,
    r: Result<ChessGame, String>,
) -> bool {
    match replay(start_fen(), moves) {
        Ok(t) => r matches Ok(g) && g.board@ == t.0 && g.move_history@ == t.1 && position_texts(
            g.board_history@,
        ) == t.2 && g.player_side == player_side && g.white_player == white_player
            && g.black_player == black_player,
        Err(e) => r matches Err(m) && m@ == e,
    }
}

/// The game after `mv` was played in `old`.
pub open spec fn moved(old: ChessGame, mv: ChessMove, new: ChessGame) -> bool {
    &&& new.board@ == board_after(old.board@, mv)
    &&& new.move_history@ == old.move_history@.push(mv)
    &&& new.board_history@ == old.board_history@.push(old.board)
    &&& new.player_side == old.player_side
    &&& new.white_player == old.white_player
    &&& new.black_player == old.black_player
}

/// The game after the last move of `old` was taken back.
pub open spec fn taken_back(old: ChessGame, new: ChessGame) -> bool {
    &&& new.board == old.board_history@.last()
    &&& new.board_history@ == old.board_history@.drop_last()
    &&& new.move_history@ == (if old.move_history@.len() > 0 {
        old.move_history@.drop_last()
    } else {
        old.move_history@
    })
    &&& new.player_side == old.player_side
    &&& new.white_player == old.white_player
    &&& new.black_player == old.black_player
}

/// Taking back a move that was just played restores the game as it was:
/// the same position, move list and position history.
pub proof fn law_undo_takes_back_move(g0: ChessGame, mv: ChessMove, g1: ChessGame, g2: ChessGame)
    requires
        moved(g0, mv, g1),
        taken_back(g1, g2),
    ensures
        g2.board == g0.board,
        g2.move_history@ == g0.move_history@,
        g2.board_history@ == g0.board_history@,
        g2.player_side == g0.player_side,
{
    assert(g1.move_history@.drop_last() =~= g0.move_history@);
    assert(g1.board_history@.drop_last() =~= g0.board_history@);
}

proof fn lemma_ascii_byte_char(c: char)
    requires
        '\0' <= c <= '\u{7f}',
    ensures
        (c as u8) as char == c,
{
    let u = c as u32;
    assert(u < 128);
    assert((c as u8) as u32 == u);
    vstd::utf8::char_u32_cast(c, u);
}

proof fn lemma_square_name_reads_back(sq: Square)
    requires
        0 <= sq.index() < 64,
    ensures
        square_of_name(square_name(sq)) == Some(sq),
        is_file_char(square_name(sq)[0]),
        is_rank_char(square_name(sq)[1]),
{
    let i = sq.index();
    let n = square_name(sq);
    assert(n[0] as int == 'a' as int + i % 8);
    assert(n[1] as int == '1' as int + i / 8);
    assert((i / 8) * 8 + i % 8 == i);
    Square::lemma_at(i);
    Square::lemma_index_eq(Square::at(i), sq);
}

proof fn lemma_trim_plain(s: Seq<char>)
    requires
        s.len() > 0,
        !crate::text::is_ws(s[0]),
        !crate::text::is_ws(s.last()),
    ensures
        trim(s) == s,
{
}

/// Coordinate notation reads back as the move it was written from.
pub proof fn law_coord_roundtrip(mv: ChessMove)
    requires
        0 <= mv.source.index() < 64,
        0 <= mv.dest.index() < 64,
    ensures
        coord_move_of(move_coord(mv)) == Some(mv),
{
    broadcast use vstd::utf8::encode_utf8_decode_utf8;
    broadcast use vstd::utf8::encode_utf8_valid_utf8;

    let c = move_coord(mv);
    lemma_square_name_reads_back(mv.source);
    lemma_square_name_reads_back(mv.dest);
    let a = square_name(mv.source);
    let d = square_name(mv.dest);
    assert(c.subrange(0, 2) =~= a);
    assert(c.subrange(2, 4) =~= d);
    assert(c[0] == a[0]);
    assert(c.last() != ' ');
    lemma_trim_plain(c);
    assert(vstd::utf8::is_ascii_chars(c));
    vstd::utf8::is_ascii_chars_encode_utf8(c);
    let b = encode_utf8(c);
    assert(b == coord_bytes(c));
    let c01 = c.subrange(0, 2);
    let c23 = c.subrange(2, 4);
    assert(vstd::utf8::is_ascii_chars(c01));
    assert(vstd::utf8::is_ascii_chars(c23));
    vstd::utf8::is_ascii_chars_encode_utf8(c01);
    vstd::utf8::is_ascii_chars_encode_utf8(c23);
    assert(b.subrange(0, 2) =~= encode_utf8(c01));
    assert(b.subrange(2, 4) =~= encode_utf8(c23));
    vstd::utf8::is_char_boundary_iff_not_is_continuation_byte(b, 2);
    if b.len() == 5 {
        vstd::utf8::is_char_boundary_iff_not_is_continuation_byte(b, 4);
        lemma_ascii_byte_char(c[4]);
        assert(b[4] as char == c[4]);
    } else {
        vstd::utf8::is_char_boundary_start_end_of_seq(b);
    }
}

/// The moves were played one after another from `fen`, each legal in the
/// position where it was played.
pub open spec fn played_line(fen: Seq<char>, moves: Seq<ChessMove>) -> bool
    decreases moves.len(),
{
    moves.len() == 0 || (legal_moves_of(fen).contains(moves[0]) && played_line(
        board_after(fen, moves[0]),
        moves.drop_first(),
    ))
}

/// The position reached by a line of moves.
pub open spec fn line_end(fen: Seq<char>, moves: Seq<ChessMove>) -> Seq<char>
    decreases moves.len(),
{
    if moves.len() == 0 {
        fen
    } else {
        line_end(board_after(fen, moves[0]), moves.drop_first())
    }
}

/// The position before each move of a line.
pub open spec fn line_positions(fen: Seq<char>, moves: Seq<ChessMove>) -> Seq<Seq<char>>
    decreases moves.len(),
{
    if moves.len() == 0 {
        seq![]
    } else {
        seq![fen] + line_positions(board_after(fen, moves[0]), moves.drop_first())
    }
}

pub open spec fn squares_valid(moves: Seq<ChessMove>) -> bool {
    forall|i: int|
        0 <= i < moves.len() ==> 0 <= (#[trigger] moves[i]).source.index() < 64 && 0
            <= moves[i].dest.index() < 64
}

pub open spec fn coords_of(moves: Seq<ChessMove>) -> Seq<Seq<char>> {
    moves.map_values(|m: ChessMove| move_coord(m))
}

/// Coordinate notation of the legal moves, in generation order.
pub open spec fn legal_coords(fen: Seq<char>) -> Seq<Seq<char>> {
    coords_of(legal_moves_of(fen))
}

/// The initial position's FEN.
pub open spec fn start_fen() -> Seq<char> {
    "rnbqkbnr/pppppppp/8/8/8/8/PPPPPPPP/RNBQKBNR w KQkq - 0 1"@
}

/// Replaying the coordinate notation of a line of legal moves gives back the
/// same moves, positions and final position.
pub proof fn law_replay_of_played_line(fen: Seq<char>, moves: Seq<ChessMove>)
    requires
        played_line(fen, moves),
        squares_valid(moves),
    ensures
        replay(fen, coords_of(moves)) == Ok::<(Seq<char>, Seq<ChessMove>, Seq<Seq<char>>), Seq<char>>((line_end(fen, moves), moves, line_positions(fen, moves))),
    decreases moves.len(),
{
    if moves.len() > 0 {
        let m = moves[0];
        let rest = moves.drop_first();
        law_coord_roundtrip(m);
        assert(coords_of(moves)[0] == move_coord(m));
        assert(coords_of(moves).drop_first() =~= coords_of(rest));
        assert forall|i: int| 0 <= i < rest.len() implies 0 <= (#[trigger] rest[i]).source.index() < 64
            && 0 <= rest[i].dest.index() < 64 by {
            assert(rest[i] == moves[i + 1]);
        }
        law_replay_of_played_line(board_after(fen, m), rest);
        assert(seq![m] + rest =~= moves);
        assert(coord_move_of(coords_of(moves)[0]) == Some(m));
        assert(replay(fen, coords_of(moves)) == (match replay(board_after(fen, m), coords_of(moves).drop_first()) {
            Ok(t) => Ok((t.0, seq![m] + t.1, seq![fen] + t.2)),
            Err(e) => Err(e),
        }));
    } else {
        assert(coords_of(moves) =~= Seq::<Seq<char>>::empty());
        assert(moves =~= Seq::<ChessMove>::empty());
    }
}

/// A game record that was built from the initial position by playing legal
/// moves: its position, move list and position history agree.
pub open spec fn recorded_from_start(g: ChessGame) -> bool {
    &&& played_line(start_fen(), g.move_history@)
    &&& squares_valid(g.move_history@)
    &&& g.board@ == line_end(start_fen(), g.move_history@)
    &&& position_texts(g.board_history@) == line_positions(start_fen(), g.move_history@)
}

proof fn lemma_line_push(fen: Seq<char>, moves: Seq<ChessMove>, mv: ChessMove)
    requires
        played_line(fen, moves),
        legal_moves_of(line_end(fen, moves)).contains(mv),
    ensures
        played_line(fen, moves.push(mv)),
        line_end(fen, moves.push(mv)) == board_after(line_end(fen, moves), mv),
        line_positions(fen, moves.push(mv)) == line_positions(fen, moves).push(line_end(fen, moves)),
    decreases moves.len(),
{
    if moves.len() == 0 {
        assert(moves.push(mv).drop_first() =~= Seq::<ChessMove>::empty());
        assert(moves.push(mv)[0] == mv);
        assert(played_line(board_after(fen, mv), Seq::<ChessMove>::empty()));
        assert(line_end(board_after(fen, mv), Seq::<ChessMove>::empty()) == board_after(fen, mv));
        assert(line_positions(board_after(fen, mv), Seq::<ChessMove>::empty()) =~= Seq::<Seq<char>>::empty());
        assert(line_positions(fen, moves) =~= Seq::<Seq<char>>::empty());
        assert(seq![fen] + Seq::<Seq<char>>::empty() =~= Seq::<Seq<char>>::empty().push(fen));
    } else {
        assert(moves.push(mv).drop_first() =~= moves.drop_first().push(mv));
        assert(moves.push(mv)[0] == moves[0]);
        lemma_line_push(board_after(fen, moves[0]), moves.drop_first(), mv);
        assert(seq![fen] + line_positions(board_after(fen, moves[0]), moves.drop_first()).push(
            line_end(fen, moves),
        ) =~= (seq![fen] + line_positions(board_after(fen, moves[0]), moves.drop_first())).push(
            line_end(fen, moves),
        ));
    }
}

proof fn lemma_line_pop(fen: Seq<char>, moves: Seq<ChessMove>)
    requires
        played_line(fen, moves),
        moves.len() > 0,
    ensures
        played_line(fen, moves.drop_last()),
        line_end(fen, moves.drop_last()) == line_positions(fen, moves).last(),
        line_positions(fen, moves.drop_last()) == line_positions(fen, moves).drop_last(),
        line_positions(fen, moves).len() == moves.len(),
    decreases moves.len(),
{
    if moves.len() == 1 {
        assert(moves.drop_last() =~= Seq::<ChessMove>::empty());
        assert(moves.drop_first() =~= Seq::<ChessMove>::empty());
    } else {
        assert(moves.drop_last().drop_first() =~= moves.drop_first().drop_last());
        lemma_line_pop(board_after(fen, moves[0]), moves.drop_first());
        assert(moves.drop_last()[0] == moves[0]);
        assert((seq![fen] + line_positions(board_after(fen, moves[0]), moves.drop_first())).drop_last()
            =~= seq![fen] + line_positions(board_after(fen, moves[0]), moves.drop_first()).drop_last());
    }
}

/// Playing a legal move keeps a game record built from the initial position.
pub proof fn law_move_keeps_record(g0: ChessGame, mv: ChessMove, g1: ChessGame)
    requires
        recorded_from_start(g0),
        0 <= mv.source.index() < 64,
        0 <= mv.dest.index() < 64,
        legal_moves_of(g0.board@).contains(mv),
        moved(g0, mv, g1),
    ensures
        recorded_from_start(g1),
{
    assert forall|i: int| 0 <= i < g1.move_history@.len() implies 0 <= (
    #[trigger] g1.move_history@[i]).source.index() < 64 && 0 <= g1.move_history@[i].dest.index()
        < 64 by {
        if i < g0.move_history@.len() {
            assert(g1.move_history@[i] == g0.move_history@[i]);
        }
    }
    lemma_line_push(start_fen(), g0.move_history@, mv);
    assert(position_texts(g1.board_history@) =~= position_texts(g0.board_history@).push(g0.board@));
}

/// Taking back a move keeps a game record built from the initial position.
pub proof fn law_undo_keeps_record(g0: ChessGame, g1: ChessGame)
    requires
        recorded_from_start(g0),
        g0.board_history@.len() > 0,
        taken_back(g0, g1),
    ensures
        recorded_from_start(g1),
{
    lemma_line_pop(start_fen(), g0.move_history@);
    assert forall|i: int| 0 <= i < g1.move_history@.len() implies 0 <= (
    #[trigger] g1.move_history@[i]).source.index() < 64 && 0 <= g1.move_history@[i].dest.index()
        < 64 by {
        assert(g1.move_history@[i] == g0.move_history@[i]);
    }
    assert(position_texts(g0.board_history@).len() == g0.board_history@.len());
    assert(position_texts(g1.board_history@) =~= position_texts(g0.board_history@).drop_last());
    assert(position_texts(g0.board_history@).last() == g0.board_history@.last()@);
}

/// A game built from the initial position is rebuilt exactly from the
/// coordinate notation of its moves (what the save file keeps): rebuilding
/// succeeds with the same position, moves and position history, and the
/// side and players it was given.
pub proof fn law_saved_moves_rebuild_game(g: ChessGame, r: Result<ChessGame, String>)
    requires
        recorded_from_start(g),
        rebuilt(g.player_side, g.white_player, g.black_player, coords_of(g.move_history@), r),
    ensures
        replay(start_fen(), coords_of(g.move_history@)) == Ok::<(Seq<char>, Seq<ChessMove>, Seq<Seq<char>>), Seq<char>>((g.board@, g.move_history@, position_texts(g.board_history@))),
        r matches Ok(g2) && g2.board@ == g.board@ && g2.move_history@ == g.move_history@ && position_texts(
            g2.board_history@,
        ) == position_texts(g.board_history@) && g2.player_side == g.player_side && g2.white_player
            == g.white_player && g2.black_player == g.black_player,
{
    law_replay_of_played_line(start_fen(), g.move_history@);
}

impl ChessGame {
    /// A new game from the initial position.
    pub fn new(player_side: Color, white_player: String, black_player: String) -> (r: ChessGame)
        ensures
            r.board@ == "rnbqkbnr/pppppppp/8/8/8/8/PPPPPPPP/RNBQKBNR w KQkq - 0 1"@,
            r.move_history@ == Seq::<ChessMove>::empty(),
            r.board_history@ == Seq::<Position>::empty(),
            r.player_side == player_side,
            r.white_player == white_player,
            r.black_player == black_player,
            recorded_from_start(r),
    {
        let r = ChessGame {
            board: Position::from_written(initial_position()),
            move_history: Vec::new(),
            board_history: Vec::new(),
            player_side,
            white_player,
            black_player,
        };
        assert(position_texts(r.board_history@) =~= Seq::<Seq<char>>::empty());
        proof {
            reveal_strlit("rnbqkbnr/pppppppp/8/8/8/8/PPPPPPPP/RNBQKBNR w KQkq - 0 1");
        }
        r
    }

    /// FEN of the current position.
    pub fn to_fen(&self) -> (r: String)
        ensures
            r@ == self.board@,
    {
        owned(self.board.as_str())
    }

    /// Text picture of the board built from the FEN placement field: a files
    /// line, then for each rank field its number, its cells (`.` for empty,
    /// the FEN letter for a piece, each followed by a space) and its number
    /// again, then the files line.
    pub fn to_visual_string(&self) -> (r: String)
        ensures
            r@ == visual_of(self.board@),
    {
        let fen = chars_of(self.board.as_str());
        let fields = split_chars(fen.as_slice(), ' ');
        assert(views_of(fields@).len() > 0) by {
            reveal_with_fuel(split_on, 2);
        }
        let ranks = split_chars(fields[0].as_slice(), '/');
        let ghost rk = split_on(split_on(self.board@, ' ')[0], '/');
        assert(views_of(fields@)[0] == fields@[0]@);
        assert(views_of(ranks@) == rk);
        let mut out = files_line_chars();
        out.push('\n');
        let mut i: usize = 0;
        while i < ranks.len()
            invariant
                0 <= i <= ranks@.len(),
                views_of(ranks@) == rk,
                out@ == files_line() + seq!['\n'] + board_rows(rk, i as int),
            decreases ranks.len() - i,
        {
            let ghost before = out@;
            push_rank_number(&mut out, i);
            out.push(' ');
            let r = &ranks[i];
            assert(r@ == rk[i as int]);
            let mut j: usize = 0;
            let ghost mid = out@;
            while j < r.len()
                invariant
                    0 <= j <= r@.len(),
                    out@ == mid + rank_cells(r@.subrange(0, j as int)),
                decreases r.len() - j,
            {
                let c = r[j];
                let ghost pre = out@;
                if '0' <= c && c <= '9' {
                    let n = (c as u32 - '0' as u32) as u32;
                    let mut t: u32 = 0;
                    while t < n
                        invariant
                            0 <= t <= n,
                            n as int == digit_value(c),
                            out@ == pre + dots(t as int),
                        decreases n - t,
                    {
                        out.push('.');
                        out.push(' ');
                        t = t + 1;
                    }
                } else {
                    out.push(c);
                    out.push(' ');
                }
                assert(r@.subrange(0, j + 1).drop_last() =~= r@.subrange(0, j as int));
                assert(r@.subrange(0, j + 1).last() == c);
                j = j + 1;
            }
            assert(r@.subrange(0, r@.len() as int) =~= r@);
            push_rank_number(&mut out, i);
            out.push('\n');
            assert(out@ =~= before + board_row(rk[i as int], i as int));
            i = i + 1;
        }
        append_chars(&mut out, files_line_chars().as_slice());
        string_of(out.as_slice())
    }

    /// All legal moves, in generation order.
    pub fn legal_moves(&self) -> (r: Vec<ChessMove>)
        ensures
            r@ == legal_moves_of(self.board@),
    {
        legal_moves_in(self.board.as_str())
    }

    /// Coordinate notation of every legal move, in generation order.
    pub fn legal_moves_str(&self) -> (r: Vec<String>)
        ensures
            r@.len() == legal_moves_of(self.board@).len(),
            forall|i: int|
                0 <= i < r@.len() ==> #[trigger] r@[i]@ == move_coord(legal_moves_of(self.board@)[i]),
    {
        let moves = self.legal_moves();
        let mut out: Vec<String> = Vec::new();
        let mut i: usize = 0;
        while i < moves.len()
            invariant
                0 <= i <= moves@.len(),
                out@.len() == i,
                forall|k: int| 0 <= k < i ==> #[trigger] out@[k]@ == move_coord(moves@[k]),
            decreases moves.len() - i,
        {
            out.push(move_to_coord(&moves[i]));
            i = i + 1;
        }
        out
    }

    /// Whether a move is legal in the current position.
    pub fn is_legal(&self, mv: &ChessMove) -> (r: bool)
        ensures
            r == legal_moves_of(self.board@).contains(*mv),
    {
        let moves = self.legal_moves();
        let mut i: usize = 0;
        while i < moves.len()
            invariant
                0 <= i <= moves@.len(),
                moves@ == legal_moves_of(self.board@),
                forall|k: int| 0 <= k < i ==> moves@[k] != *mv,
            decreases moves.len() - i,
        {
            if moves[i] == *mv {
                assert(moves@[i as int] == *mv);
                return true;
            }
            i = i + 1;
        }
        false
    }

    /// Plays a move: refused with `"非法走法"` unless it is legal; otherwise the
    /// position before it is kept for `undo`.
    pub fn make_move(&mut self, mv: ChessMove) -> (r: Result<(), String>)
        ensures
            r is Ok <==> legal_moves_of(old(self).board@).contains(mv),
            r is Ok ==> moved(*old(self), mv, *final(self)),
            r matches Err(e) ==> *final(self) == *old(self) && e@ == "非法走法"@,
            r is Ok ==> final(self).board@.len() <= 85,
            recorded_from_start(*old(self)) ==> recorded_from_start(*final(self)),
    {
        let ghost g0 = *self;
        proof {
            use_type_invariant(&mv.source);
            use_type_invariant(&mv.dest);
        }
        match try_play_move(self.board.as_str(), &mv) {
            None => Err(owned("非法走法")),
            Some(next) => {
                let mut prev = Position::from_written(next);
                std::mem::swap(&mut self.board, &mut prev);
                self.board_history.push(prev);
                self.move_history.push(mv);
                proof {
                    if recorded_from_start(g0) {
                        law_move_keeps_record(g0, mv, *self);
                    }
                }
                Ok(())
            },
        }
    }

    /// The side to move.
    pub fn side_to_move(&self) -> (r: Color)
        ensures
            r == side_of(self.board@),
    {
        match position_side_to_move(self.board.as_str()) {
            Some(c) => c,
            None => Color::White,
        }
    }

    /// Ongoing, checkmate or stalemate.
    pub fn status(&self) -> (r: BoardStatus)
        ensures
            r == status_of(self.board@),
    {
        match position_status(self.board.as_str()) {
            Some(st) => st,
            None => BoardStatus::Ongoing,
        }
    }

    /// Whether the side to move is in check.
    pub fn in_check(&self) -> (r: bool)
        ensures
            r == in_check_of(self.board@),
    {
        match position_checkers(self.board.as_str()) {
            Some(n) => n > 0,
            None => false,
        }
    }

    /// Takes back the last move: restores the position before it; `false`
    /// and no change when there is nothing to take back.
    pub fn undo(&mut self) -> (r: bool)
        ensures
            r == (old(self).board_history@.len() > 0),
            r ==> taken_back(*old(self), *final(self)),
            !r ==> *final(self) == *old(self),
            recorded_from_start(*old(self)) ==> recorded_from_start(*final(self)),
    {
        let ghost g0 = *self;
        if self.board_history.len() == 0 {
            return false;
        }
        match self.board_history.pop() {
            Some(prev) => {
                self.board = prev;
                self.move_history.pop();
                proof {
                    if recorded_from_start(g0) {
                        law_undo_keeps_record(g0, *self);
                    }
                }
                true
            },
            None => false,
        }
    }

    /// Opponent pieces that the side to move can capture for nothing: for
    /// each legal capture, the opponent has no legal move back onto the
    /// captured piece's square.  Listed as letter (upper case for white) and
    /// square, e.g. `Qd5`, sorted and without repeats.
    pub fn enemy_hanging(&self) -> (r: Vec<String>)
        ensures
            strictly_sorted(string_views(r@)),
            string_views(r@).to_set() == free_capture_entries(self.board@, true, false),
    {
        let v = free_captures(self.board.as_str(), true, false);
        strings_of(&v)
    }

    /// Own pieces that the opponent could capture for nothing if it were the
    /// opponent's turn (the turn is passed with a null move, which is not
    /// possible while in check; then the list is empty).  Letters are upper
    /// case when the side to move is white.  Sorted, without repeats.
    pub fn own_hanging(&self) -> (r: Vec<String>)
        ensures
            strictly_sorted(string_views(r@)),
            string_views(r@).to_set() == (match fen_after_null_move(self.board@) {
                Some(opp) => free_capture_entries(opp, false, side_of(self.board@) == Color::White),
                None => Set::<Seq<char>>::empty(),
            }),
    {
        let white = match self.side_to_move() {
            Color::White => true,
            Color::Black => false,
        };
        match position_null_move(self.board.as_str()) {
            Some(opp) => {
                let v = free_captures(opp.as_str(), false, white);
                strings_of(&v)
            },
            None => {
                let r: Vec<String> = Vec::new();
                assert(string_views(r@).to_set() =~= Set::<Seq<char>>::empty());
                r
            },
        }
    }

    /// Rebuilds a game by replaying saved moves (coordinate notation) from
    /// the initial position; refused at the first move that does not parse or
    /// is not legal.
    pub fn rebuild_from_history(
        player_side: Color,
        white_player: String,
        black_player: String,
        moves: Vec<String>,
    ) -> (r: Result<ChessGame, String>)
        ensures
            rebuilt(player_side, white_player, black_player, texts(moves@), r),
            r matches Ok(g) ==> recorded_from_start(g),
    {
        let mut game = ChessGame::new(player_side, white_player, black_player);
        let ghost start = game.board@;
        let mut i: usize = 0;
        assert(texts(moves@).subrange(0, texts(moves@).len() as int) =~= texts(moves@));
        while i < moves.len()
            invariant
                0 <= i <= moves@.len(),
                start == "rnbqkbnr/pppppppp/8/8/8/8/PPPPPPPP/RNBQKBNR w KQkq - 0 1"@,
                game.player_side == player_side,
                game.white_player == white_player,
                game.black_player == black_player,
                game.move_history@.len() == i,
                position_texts(game.board_history@).len() == i,
                recorded_from_start(game),
                replay(start, texts(moves@)) == (match replay(
                    game.board@,
                    texts(moves@).subrange(i as int, moves@.len() as int),
                ) {
                    Ok(t) => Ok((t.0, game.move_history@ + t.1, position_texts(game.board_history@) + t.2)),
                    Err(e) => Err(e),
                }),
            decreases moves.len() - i,
        {
            let ghost rest = texts(moves@).subrange(i as int, moves@.len() as int);
            let ghost tail = texts(moves@).subrange(i + 1, moves@.len() as int);
            assert(rest[0] == moves@[i as int]@);
            assert(rest.drop_first() =~= tail);
            let mv_str = &moves[i];
            let mv = match parse_coord_move(mv_str.as_str()) {
                Some(m) => m,
                None => {
                    let msg = concat_str("无法解析走法: ", mv_str.as_str());
                    assert(replay(game.board@, rest) == Err::<(Seq<char>, Seq<ChessMove>, Seq<Seq<char>>), Seq<char>>("无法解析走法: "@ + rest[0]));
                    return Err(msg);
                },
            };
            if !game.is_legal(&mv) {
                let msg = concat_str("存档含非法走法: ", mv_str.as_str());
                assert(replay(game.board@, rest) == Err::<(Seq<char>, Seq<ChessMove>, Seq<Seq<char>>), Seq<char>>("存档含非法走法: "@ + rest[0]));
                return Err(msg);
            }
            let ghost prev_board = game.board;
            let ghost prev_moves = game.move_history@;
            let ghost prev_hist = position_texts(game.board_history@);
            match game.make_move(mv) {
                Ok(()) => {},
                Err(e) => {
                    return Err(e);
                },
            }
            assert(position_texts(game.board_history@) =~= prev_hist.push(prev_board@));
            assert(prev_moves.push(mv) =~= prev_moves + seq![mv]);
            proof {
                match replay(game.board@, tail) {
                    Ok(t) => {
                        assert(game.move_history@ + t.1 =~= prev_moves + (seq![mv] + t.1));
                        assert(position_texts(game.board_history@) + t.2 =~= prev_hist + (seq![prev_board@] + t.2));
                    },
                    Err(e) => {},
                }
            }
            i = i + 1;
        }
        assert(texts(moves@).subrange(i as int, moves@.len() as int) =~= Seq::<Seq<char>>::empty());
        assert(game.move_history@ + Seq::<ChessMove>::empty() =~= game.move_history@);
        assert(position_texts(game.board_history@) + Seq::<Seq<char>>::empty() =~= position_texts(game.board_history@));
        Ok(game)
    }

    /// Number of moves played.
    pub fn ply_count(&self) -> (r: usize)
        ensures
            r == self.move_history@.len(),
    {
        self.move_history.len()
    }
}

} // verus!
