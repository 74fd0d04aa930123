//! Tokenizer: scans a character sequence and produces one classified lexical
//! token at a time, tracking the source position.
//!
//! The whole behaviour of `Lexer::consume` is pinned down by the spec-level
//! model `spec_next`, which says, for any input and cursor position, which
//! token (or lexical error) comes next and where the cursor lands.

use vstd::prelude::*;

verus! {

/// Single- and double-character operator tokens.
#[derive(Debug, Clone, Copy, PartialEq, Eq, Structural)]
pub enum Symbol {
    Plus,          // +
    Minus,         // -
    Equals,        // =
    DoubleEquals,  // ==
    NotEquals,     // !=
    Star,          // *
    Slash,         // /
    GreaterThan,   // >
    GreaterEquals, // >=
    LessThan,      // <
    LessEquals,    // <=
    LParen,        // (
    RParen,        // )
    Dot,           // .
    Comma,         // ,
}

/// Reserved words; case-sensitive, never identifiers.
#[derive(Debug, Clone, Copy, PartialEq, Eq, Structural)]
pub enum Keyword {
    If,
    Else,
}

/// A source location: absolute character offset (0-based), line (1-based)
/// and column (1-based).
#[derive(Debug, Clone, Copy, PartialEq, Eq, Structural)]
pub struct Position {
    pub index: usize,
    pub line: usize,
    pub column: usize,
}

/// The classification of one token.  A float literal keeps its source text
/// (digits with exactly one interior dot); turning it into a machine float is
/// a presentation concern left to callers.
#[derive(Debug, Clone, PartialEq, Eq)]
pub enum TokenType {
    Identifier(String),
    Integer(i64),
    Float(String),
    Symbol(Symbol),
    Keyword(Keyword),
    EOF,
}

/// A classified token together with the position of its first character.
#[derive(Debug, Clone, PartialEq, Eq)]
pub struct Token {
    pub token_type: TokenType,
    pub position: Position,
}

/// A recoverable lexical fault, always carrying the offending position.
#[derive(Debug, Clone, Copy, PartialEq, Eq)]
pub enum LexError {
    /// A numeric literal with more than one interior dot, or one whose value
    /// does not fit in `i64`.
    MalformedNumber { position: Position },
    /// A character that starts no token.
    UnexpectedChar { character: char, position: Position },
}

/// The tokenizer: the input characters and the cursor.
pub struct Lexer {
    input: Vec<char>,
    position: Position,
}

/// Spec-level image of `TokenType`, over mathematical sequences and integers.
pub enum TokenTypeView {
    Identifier(Seq<char>),
    Integer(int),
    Float(Seq<char>),
    Symbol(Symbol),
    Keyword(Keyword),
    EOF,
}

/// Spec-level image of `Token`.
pub struct TokenView {
    pub token_type: TokenTypeView,
    pub position: Position,
}

impl View for TokenType {
    type V = TokenTypeView;

    open spec fn view(&self) -> TokenTypeView {
        match self {
            TokenType::Identifier(name) => TokenTypeView::Identifier(name@),
            TokenType::Integer(value) => TokenTypeView::Integer(*value as int),
            TokenType::Float(text) => TokenTypeView::Float(text@),
            TokenType::Symbol(symbol) => TokenTypeView::Symbol(*symbol),
            TokenType::Keyword(keyword) => TokenTypeView::Keyword(*keyword),
            TokenType::EOF => TokenTypeView::EOF,
        }
    }
}

impl View for Token {
    type V = TokenView;

    open spec fn view(&self) -> TokenView {
        TokenView { token_type: self.token_type@, position: self.position }
    }
}

/// A position consistent with an input of `len` characters: the offset is in
/// range, line and column start at one, and each advanced character has bumped
/// exactly one of them.
pub open spec fn pos_wf(p: Position, len: nat) -> bool {
    &&& p.index <= len
    &&& 1 <= p.line
    &&& 1 <= p.column
    &&& p.line + p.column <= p.index + 2
}

/// The position after one character: a newline opens a fresh line, anything
/// else moves along the current one.
pub open spec fn pos_after(p: Position, c: char) -> Position {
    if c == '\n' {
        Position { index: (p.index + 1) as usize, line: (p.line + 1) as usize, column: 1 }
    } else {
        Position { index: (p.index + 1) as usize, line: p.line, column: (p.column + 1) as usize }
    }
}

/// A decimal digit.
pub open spec fn is_digit_char(c: char) -> bool {
    '0' <= c && c <= '9'
}

/// What `char::is_whitespace` holds of a character.
pub uninterp spec fn is_space_char(c: char) -> bool;

/// What `char::is_alphabetic` holds of a character.
pub uninterp spec fn is_alpha_char(c: char) -> bool;

/// What `char::is_alphanumeric` holds of a character.
pub uninterp spec fn is_alnum_char(c: char) -> bool;

/// Relies on char::is_whitespace: the answer depends on the character alone.
#[verifier::external_body]
fn char_is_space(c: char) -> (r: bool)
    ensures
        r == is_space_char(c),
{
    c.is_whitespace()
}

/// Relies on char::is_alphabetic: the answer depends on the character alone.
#[verifier::external_body]
fn char_is_alpha(c: char) -> (r: bool)
    ensures
        r == is_alpha_char(c),
{
    c.is_alphabetic()
}

/// Relies on char::is_alphanumeric: the answer depends on the character alone.
#[verifier::external_body]
fn char_is_alnum(c: char) -> (r: bool)
    ensures
        r == is_alnum_char(c),
{
    c.is_alphanumeric()
}

/// Where the cursor lands after skipping what never starts a token:
/// whitespace (newlines included) and `//` comments, which run to the next
/// newline.  With `in_comment` the cursor stands inside a comment.
pub open spec fn spec_skip_from(s: Seq<char>, p: Position, in_comment: bool) -> Position
    decreases s.len() - p.index, (if in_comment { 1int } else { 0int }), when p.index <= s.len() <= usize::MAX
{
    if p.index >= s.len() {
        p
    } else {
        let c = s[p.index as int];
        if in_comment {
            if c == '\n' {
                spec_skip_from(s, p, false)
            } else {
                spec_skip_from(s, pos_after(p, c), true)
            }
        } else {
            if is_space_char(c) {
                spec_skip_from(s, pos_after(p, c), false)
            } else if c == '/' && p.index + 1 < s.len() && s[p.index + 1] == '/' {
                spec_skip_from(s, pos_after(pos_after(p, c), '/'), true)
            } else {
                p
            }
        }
    }
}

/// Where the next token (or fault) starts.
pub open spec fn spec_skip(s: Seq<char>, p: Position) -> Position {
    spec_skip_from(s, p, false)
}

/// End of the maximal run of digits and dots that starts at `i`.
pub open spec fn spec_num_end(s: Seq<char>, i: int) -> int
    decreases s.len() - i, when 0 <= i <= s.len()
{
    if i < s.len() && (is_digit_char(s[i]) || s[i] == '.') {
        spec_num_end(s, i + 1)
    } else {
        i
    }
}

/// End of the maximal run of identifier characters that starts at `i`.
pub open spec fn spec_ident_end(s: Seq<char>, i: int) -> int
    decreases s.len() - i, when 0 <= i <= s.len()
{
    if i < s.len() && (is_alnum_char(s[i]) || s[i] == '_') {
        spec_ident_end(s, i + 1)
    } else {
        i
    }
}

/// The value of a run of decimal digits.
pub open spec fn digits_val(s: Seq<char>) -> int
    decreases s.len(),
{
    if s.len() == 0 {
        0
    } else {
        10 * digits_val(s.drop_last()) + (s.last() as int - '0' as int)
    }
}

/// How many dots a literal holds.
pub open spec fn dots_in(s: Seq<char>) -> int
    decreases s.len(),
{
    if s.len() == 0 {
        0
    } else {
        dots_in(s.drop_last()) + (if s.last() == '.' {
            1int
        } else {
            0int
        })
    }
}

/// The reserved word spelled by `s`, if any.
pub open spec fn spec_keyword(s: Seq<char>) -> Option<Keyword> {
    if s == seq!['i', 'f'] {
        Some(Keyword::If)
    } else if s == seq!['e', 'l', 's', 'e'] {
        Some(Keyword::Else)
    } else {
        None
    }
}

/// The symbol a single character spells, if any.
pub open spec fn one_char_symbol(c: char) -> Option<Symbol> {
    if c == '+' {
        Some(Symbol::Plus)
    } else if c == '-' {
        Some(Symbol::Minus)
    } else if c == '=' {
        Some(Symbol::Equals)
    } else if c == '*' {
        Some(Symbol::Star)
    } else if c == '/' {
        Some(Symbol::Slash)
    } else if c == '>' {
        Some(Symbol::GreaterThan)
    } else if c == '<' {
        Some(Symbol::LessThan)
    } else if c == '.' {
        Some(Symbol::Dot)
    } else if c == ',' {
        Some(Symbol::Comma)
    } else if c == '(' {
        Some(Symbol::LParen)
    } else if c == ')' {
        Some(Symbol::RParen)
    } else {
        None
    }
}

/// The symbol a pair of characters spells, if any; maximal munch prefers
/// these over the one-character reading.
pub open spec fn two_char_symbol(c1: char, c2: char) -> Option<Symbol> {
    if c1 == '=' && c2 == '=' {
        Some(Symbol::DoubleEquals)
    } else if c1 == '!' && c2 == '=' {
        Some(Symbol::NotEquals)
    } else if c1 == '<' && c2 == '=' {
        Some(Symbol::LessEquals)
    } else if c1 == '>' && c2 == '=' {
        Some(Symbol::GreaterEquals)
    } else {
        None
    }
}

/// The cursor moved forward to offset `e`, character by character.
pub open spec fn spec_advance_to(s: Seq<char>, p: Position, e: int) -> Position
    decreases e - p.index, when p.index <= e <= s.len() <= usize::MAX
{
    if p.index < e {
        spec_advance_to(s, pos_after(p, s[p.index as int]), e)
    } else {
        p
    }
}

/// The digit-and-dot run stays within the input and covers digits and dots
/// only.
proof fn lemma_num_end(s: Seq<char>, i: int)
    requires
        0 <= i <= s.len(),
    ensures
        i <= spec_num_end(s, i) <= s.len(),
        forall|k: int| i <= k < spec_num_end(s, i) ==> is_digit_char(s[k]) || s[k] == '.',
    decreases s.len() - i,
{
    if i < s.len() && (is_digit_char(s[i]) || s[i] == '.') {
        lemma_num_end(s, i + 1);
    }
}

/// The identifier run stays within the input and covers identifier
/// characters only.
proof fn lemma_ident_end(s: Seq<char>, i: int)
    requires
        0 <= i <= s.len(),
    ensures
        i <= spec_ident_end(s, i) <= s.len(),
        forall|k: int| i <= k < spec_ident_end(s, i) ==> is_alnum_char(s[k]) || s[k] == '_',
    decreases s.len() - i,
{
    if i < s.len() && (is_alnum_char(s[i]) || s[i] == '_') {
        lemma_ident_end(s, i + 1);
    }
}

/// Appending one character adds its dot count.
proof fn lemma_dots_push(s: Seq<char>, c: char)
    ensures
        dots_in(s.push(c)) == dots_in(s) + (if c == '.' {
            1int
        } else {
            0int
        }),
{
    assert(s.push(c).drop_last() =~= s);
}

/// A literal holds no negative number of dots.
proof fn lemma_dots_nonneg(s: Seq<char>)
    ensures
        dots_in(s) >= 0,
    decreases s.len(),
{
    if s.len() > 0 {
        lemma_dots_nonneg(s.drop_last());
    }
}

/// A literal without dots is made of other characters entirely.
proof fn lemma_dots_zero(s: Seq<char>)
    requires
        dots_in(s) == 0,
    ensures
        forall|k: int| 0 <= k < s.len() ==> s[k] != '.',
    decreases s.len(),
{
    if s.len() > 0 {
        lemma_dots_nonneg(s.drop_last());
        lemma_dots_zero(s.drop_last());
        assert(forall|k: int| 0 <= k < s.len() - 1 ==> s[k] == s.drop_last()[k]);
    }
}

/// Appending one digit multiplies the value by ten and adds the digit.
proof fn lemma_digits_push(s: Seq<char>, c: char)
    ensures
        digits_val(s.push(c)) == 10 * digits_val(s) + (c as int - '0' as int),
{
    assert(s.push(c).drop_last() =~= s);
}

/// A run of digits has a non-negative value.
proof fn lemma_digits_nonneg(s: Seq<char>)
    requires
        forall|k: int| 0 <= k < s.len() ==> is_digit_char(s[k]),
    ensures
        digits_val(s) >= 0,
    decreases s.len(),
{
    if s.len() > 0 {
        assert(forall|k: int| 0 <= k < s.len() - 1 ==> s.drop_last()[k] == s[k]);
        lemma_digits_nonneg(s.drop_last());
    }
}

/// Dropping digits from the right never raises the value.
proof fn lemma_digits_prefix_le(s: Seq<char>, j: int)
    requires
        forall|k: int| 0 <= k < s.len() ==> is_digit_char(s[k]),
        0 <= j <= s.len(),
    ensures
        digits_val(s.subrange(0, j)) <= digits_val(s),
    decreases s.len() - j,
{
    if j == s.len() {
        assert(s.subrange(0, j) =~= s);
    } else {
        assert(s.subrange(0, j + 1) =~= s.subrange(0, j).push(s[j]));
        lemma_digits_push(s.subrange(0, j), s[j]);
        assert(forall|k: int| 0 <= k < j ==> s.subrange(0, j)[k] == s[k]);
        lemma_digits_nonneg(s.subrange(0, j));
        lemma_digits_prefix_le(s, j + 1);
    }
}

/// One advanced character keeps the position valid and bumps the offset.
proof fn lemma_pos_after_wf(p: Position, c: char, len: nat)
    requires
        pos_wf(p, len),
        p.index < len,
        len < usize::MAX,
    ensures
        pos_wf(pos_after(p, c), len),
        pos_after(p, c).index == p.index + 1,
{
}

/// Skipping trivia never moves the cursor backwards and keeps it valid.
proof fn lemma_skip_props(s: Seq<char>, p: Position, in_comment: bool)
    requires
        s.len() < usize::MAX,
        pos_wf(p, s.len()),
    ensures
        pos_wf(spec_skip_from(s, p, in_comment), s.len()),
        p.index <= spec_skip_from(s, p, in_comment).index,
    decreases s.len() - p.index, (if in_comment {
        1int
    } else {
        0int
    }),
{
    if p.index < s.len() {
        let c = s[p.index as int];
        if in_comment {
            if c == '\n' {
                lemma_skip_props(s, p, false);
            } else {
                lemma_pos_after_wf(p, c, s.len());
                lemma_skip_props(s, pos_after(p, c), true);
            }
        } else {
            if is_space_char(c) {
                lemma_pos_after_wf(p, c, s.len());
                lemma_skip_props(s, pos_after(p, c), false);
            } else if c == '/' && p.index + 1 < s.len() && s[p.index + 1] == '/' {
                lemma_pos_after_wf(p, c, s.len());
                lemma_pos_after_wf(pos_after(p, c), '/', s.len());
                lemma_skip_props(s, pos_after(pos_after(p, c), '/'), true);
            }
        }
    }
}

/// Walking the cursor to an offset lands exactly there and keeps it valid.
proof fn lemma_advance_to_props(s: Seq<char>, p: Position, e: int)
    requires
        pos_wf(p, s.len()),
        s.len() < usize::MAX,
        p.index <= e <= s.len(),
    ensures
        pos_wf(spec_advance_to(s, p, e), s.len()),
        spec_advance_to(s, p, e).index == e,
    decreases e - p.index,
{
    if p.index < e {
        lemma_pos_after_wf(p, s[p.index as int], s.len());
        lemma_advance_to_props(s, pos_after(p, s[p.index as int]), e);
    }
}

/// What every outcome of `spec_next` satisfies: the cursor stays valid and
/// moves forward; a token starts no earlier than the old cursor; any token
/// but `EOF` moves the cursor strictly past its start; `EOF` comes exactly
/// at the end of input, and leaves the cursor on its own position.
pub proof fn lemma_next_props(s: Seq<char>, p: Position)
    requires
        s.len() < usize::MAX,
        pos_wf(p, s.len()),
    ensures
        match spec_next(s, p) {
            LexStep::Tok { token, next } => {
                &&& pos_wf(next, s.len())
                &&& p.index <= token.position.index <= next.index
                &&& (token.token_type is EOF ==> next == token.position && next.index == s.len())
                &&& (!(token.token_type is EOF) ==> token.position.index < next.index)
            },
            LexStep::Fail { error, next } => {
                &&& pos_wf(next, s.len())
                &&& p.index <= next.index
            },
        },
{
    lemma_skip_props(s, p, false);
    let q = spec_skip(s, p);
    if q.index < s.len() {
        let c = s[q.index as int];
        let pair = if q.index + 1 < s.len() {
            two_char_symbol(c, s[q.index + 1])
        } else {
            None
        };
        if pair is Some {
        } else if one_char_symbol(c) is Some {
        } else if is_digit_char(c) {
            lemma_num_end(s, q.index as int);
            lemma_num_end(s, q.index + 1);
            let end = spec_num_end(s, q.index as int);
            assert(end == spec_num_end(s, q.index + 1));
            let trimmed = if q.index < end && s[end - 1] == '.' {
                end - 1
            } else {
                end
            };
            assert(trimmed > q.index);
            lemma_advance_to_props(s, q, trimmed);
            lemma_advance_to_props(s, q, end);
        } else if is_alpha_char(c) || c == '_' {
            lemma_ident_end(s, q.index + 1);
            lemma_advance_to_props(s, q, spec_ident_end(s, q.index + 1));
        }
    }
}

/// Position monotonicity: of two consecutive non-`EOF` tokens taken from the
/// same input, the second starts strictly after the first.
pub proof fn lemma_position_monotonic(
    s: Seq<char>,
    p: Position,
    t1: TokenView,
    n1: Position,
    t2: TokenView,
    n2: Position,
)
    requires
        s.len() < usize::MAX,
        pos_wf(p, s.len()),
        spec_next(s, p) == (LexStep::Tok { token: t1, next: n1 }),
        spec_next(s, n1) == (LexStep::Tok { token: t2, next: n2 }),
        !(t1.token_type is EOF),
        !(t2.token_type is EOF),
    ensures
        t2.position.index > t1.position.index,
{
    lemma_next_props(s, p);
    lemma_next_props(s, n1);
}

/// Idempotent EOF: once the tokenizer has produced `EOF`, every further step
/// produces `EOF` again, at the same position, without moving the cursor.
pub proof fn lemma_eof_idempotent(s: Seq<char>, p: Position, t: TokenView, n: Position)
    requires
        s.len() < usize::MAX,
        pos_wf(p, s.len()),
        spec_next(s, p) == (LexStep::Tok { token: t, next: n }),
        t.token_type is EOF,
    ensures
        t.position == n,
        spec_next(s, n) == (LexStep::Tok {
            token: TokenView { token_type: TokenTypeView::EOF, position: n },
            next: n,
        }),
{
    lemma_next_props(s, p);
}

/// Relies on String's FromIterator over char: the collected string holds
/// exactly the given characters.
#[verifier::external_body]
fn chars_to_string(v: &Vec<char>) -> (s: String)
    ensures
        s@ == v@,
{
    v.iter().collect()
}

/// The symbol `c` spells on its own, if any.
fn match_one_char(c: char) -> (r: Option<Symbol>)
    ensures
        r == one_char_symbol(c),
{
    if c == '+' {
        Some(Symbol::Plus)
    } else if c == '-' {
        Some(Symbol::Minus)
    } else if c == '=' {
        Some(Symbol::Equals)
    } else if c == '*' {
        Some(Symbol::Star)
    } else if c == '/' {
        Some(Symbol::Slash)
    } else if c == '>' {
        Some(Symbol::GreaterThan)
    } else if c == '<' {
        Some(Symbol::LessThan)
    } else if c == '.' {
        Some(Symbol::Dot)
    } else if c == ',' {
        Some(Symbol::Comma)
    } else if c == '(' {
        Some(Symbol::LParen)
    } else if c == ')' {
        Some(Symbol::RParen)
    } else {
        None
    }
}

/// The symbol the pair `c1 c2` spells, if any.
fn match_two_char(c1: char, c2: char) -> (r: Option<Symbol>)
    ensures
        r == two_char_symbol(c1, c2),
{
    if c2 == '=' {
        if c1 == '=' {
            Some(Symbol::DoubleEquals)
        } else if c1 == '!' {
            Some(Symbol::NotEquals)
        } else if c1 == '<' {
            Some(Symbol::LessEquals)
        } else if c1 == '>' {
            Some(Symbol::GreaterEquals)
        } else {
            None
        }
    } else {
        None
    }
}

/// The reserved word the characters spell, if any.
fn keyword_of(v: &Vec<char>) -> (r: Option<Keyword>)
    ensures
        r == spec_keyword(v@),
{
    if v.len() == 2 && v[0] == 'i' && v[1] == 'f' {
        proof {
            assert(v@ =~= seq!['i', 'f']);
        }
        Some(Keyword::If)
    } else if v.len() == 4 && v[0] == 'e' && v[1] == 'l' && v[2] == 's' && v[3] == 'e' {
        proof {
            assert(v@ =~= seq!['e', 'l', 's', 'e']);
        }
        Some(Keyword::Else)
    } else {
        proof {
            assert(v@ != seq!['i', 'f'] && v@ != seq!['e', 'l', 's', 'e']) by {
                if v@ == seq!['i', 'f'] {
                    assert(v@.len() == 2 && v@[0] == 'i' && v@[1] == 'f');
                }
                if v@ == seq!['e', 'l', 's', 'e'] {
                    assert(v@.len() == 4 && v@[0] == 'e' && v@[1] == 'l' && v@[2] == 's' && v@[3]
                        == 'e');
                }
            }
        }
        None
    }
}

/// How many dots the characters hold.
fn count_dots(v: &Vec<char>) -> (r: usize)
    ensures
        r as int == dots_in(v@),
{
    let mut count: usize = 0;
    let mut i: usize = 0;
    while i < v.len()
        invariant
            0 <= i <= v@.len(),
            count <= i,
            count as int == dots_in(v@.subrange(0, i as int)),
        decreases v@.len() - i,
    {
        proof {
            assert(v@.subrange(0, i + 1) =~= v@.subrange(0, i as int).push(v@[i as int]));
            lemma_dots_push(v@.subrange(0, i as int), v@[i as int]);
        }
        if v[i] == '.' {
            count = count + 1;
        }
        i = i + 1;
    }
    proof {
        assert(v@.subrange(0, v@.len() as int) =~= v@);
    }
    count
}

/// The value of a run of digits, where it fits in `i64`.
fn digits_to_i64(v: &Vec<char>) -> (r: Option<i64>)
    requires
        forall|k: int| 0 <= k < v@.len() ==> is_digit_char(v@[k]),
    ensures
        match r {
            Some(n) => n as int == digits_val(v@) && digits_val(v@) <= i64::MAX,
            None => digits_val(v@) > i64::MAX,
        },
{
    let mut val: u64 = 0;
    let mut j: usize = 0;
    while j < v.len()
        invariant
            forall|k: int| 0 <= k < v@.len() ==> is_digit_char(v@[k]),
            0 <= j <= v@.len(),
            val as int == digits_val(v@.subrange(0, j as int)),
            val <= i64::MAX as u64,
        decreases v@.len() - j,
    {
        let c = v[j];
        let d: u64 = (c as u32 - '0' as u32) as u64;
        proof {
            assert(v@.subrange(0, j + 1) =~= v@.subrange(0, j as int).push(c));
            lemma_digits_push(v@.subrange(0, j as int), c);
        }
        if val > (i64::MAX as u64 - d) / 10 {
            proof {
                assert(10 * val + d > i64::MAX as u64) by (nonlinear_arith)
                    requires
                        val > (i64::MAX as u64 - d) / 10,
                        d <= 9,
                ;
                lemma_digits_prefix_le(v@, j + 1);
            }
            return None;
        }
        proof {
            assert(10 * val + d <= i64::MAX as u64) by (nonlinear_arith)
                requires
                    val <= (i64::MAX as u64 - d) / 10,
                    d <= 9,
            ;
        }
        val = val * 10 + d;
        j = j + 1;
    }
    proof {
        assert(v@.subrange(0, v@.len() as int) =~= v@);
    }
    Some(val as i64)
}

/// What one call of `consume` yields: a token and the position after it, or
/// a lexical error and the position from which scanning would go on.
pub enum LexStep {
    Tok { token: TokenView, next: Position },
    Fail { error: LexError, next: Position },
}

/// The numeric literal starting at `q` (a digit stands there).  The maximal
/// digit-and-dot run is taken; a single trailing dot is excluded from the
/// literal.  One interior dot makes a float, none an integer; anything else,
/// or an integer beyond `i64`, is a malformed-literal error.
pub open spec fn spec_lex_number(s: Seq<char>, q: Position) -> LexStep {
    let end = spec_num_end(s, q.index as int);
    let trimmed = if q.index < end && s[end - 1] == '.' {
        end - 1
    } else {
        end
    };
    let lit = s.subrange(q.index as int, trimmed);
    if dots_in(lit) >= 2 {
        LexStep::Fail {
            error: LexError::MalformedNumber { position: q },
            next: spec_advance_to(s, q, end),
        }
    } else if dots_in(lit) == 1 {
        LexStep::Tok {
            token: TokenView { token_type: TokenTypeView::Float(lit), position: q },
            next: spec_advance_to(s, q, trimmed),
        }
    } else if digits_val(lit) > i64::MAX {
        LexStep::Fail {
            error: LexError::MalformedNumber { position: q },
            next: spec_advance_to(s, q, end),
        }
    } else {
        LexStep::Tok {
            token: TokenView { token_type: TokenTypeView::Integer(digits_val(lit)), position: q },
            next: spec_advance_to(s, q, trimmed),
        }
    }
}

/// The word starting at `q` (a letter or underscore stands there): the first
/// character followed by the maximal run of identifier characters, read as a
/// keyword where it spells one.
pub open spec fn spec_lex_word(s: Seq<char>, q: Position) -> LexStep {
    let end = spec_ident_end(s, q.index + 1);
    let lit = s.subrange(q.index as int, end);
    let token_type = match spec_keyword(lit) {
        Some(kw) => TokenTypeView::Keyword(kw),
        None => TokenTypeView::Identifier(lit),
    };
    LexStep::Tok {
        token: TokenView { token_type, position: q },
        next: spec_advance_to(s, q, end),
    }
}

/// The next token of `s` when the cursor stands at `p`: skip whitespace and
/// comments, then classify what the first character opens.  Exhausted input
/// yields `EOF`, forever, at the final position.
pub open spec fn spec_next(s: Seq<char>, p: Position) -> LexStep {
    let q = spec_skip(s, p);
    if q.index >= s.len() {
        LexStep::Tok {
            token: TokenView { token_type: TokenTypeView::EOF, position: q },
            next: q,
        }
    } else {
        let c = s[q.index as int];
        let pair = if q.index + 1 < s.len() {
            two_char_symbol(c, s[q.index + 1])
        } else {
            None
        };
        if pair is Some {
            LexStep::Tok {
                token: TokenView { token_type: TokenTypeView::Symbol(pair->0), position: q },
                next: pos_after(pos_after(q, c), s[q.index + 1]),
            }
        } else if one_char_symbol(c) is Some {
            LexStep::Tok {
                token: TokenView {
                    token_type: TokenTypeView::Symbol(one_char_symbol(c)->0),
                    position: q,
                },
                next: pos_after(q, c),
            }
        } else if is_digit_char(c) {
            spec_lex_number(s, q)
        } else if is_alpha_char(c) || c == '_' {
            spec_lex_word(s, q)
        } else {
            LexStep::Fail {
                error: LexError::UnexpectedChar { character: c, position: q },
                next: pos_after(q, c),
            }
        }
    }
}

impl Lexer {
    /// The characters still to be read, as a sequence.
    pub closed spec fn input_seq(&self) -> Seq<char> {
        self.input@
    }

    /// The cursor.
    pub closed spec fn pos(&self) -> Position {
        self.position
    }

    /// Internal consistency: the cursor is a valid position of the input.
    pub open spec fn wf(&self) -> bool {
        &&& pos_wf(self.pos(), self.input_seq().len())
        &&& self.input_seq().len() < usize::MAX
    }

    /// A tokenizer at the start of `input`.
    pub fn new(input: Vec<char>) -> (lexer: Lexer)
        requires
            input@.len() < usize::MAX,
        ensures
            lexer.wf(),
            lexer.input_seq() == input@,
            lexer.pos() == (Position { index: 0, line: 1, column: 1 }),
    {
        Lexer { input, position: Position { index: 0, line: 1, column: 1 } }
    }

    /// The character under the cursor, if any.
    fn current(&self) -> (c: Option<char>)
        requires
            self.wf(),
        ensures
            c == (if self.pos().index < self.input_seq().len() {
                Some(self.input_seq()[self.pos().index as int])
            } else {
                Option::<char>::None
            }),
    {
        if self.position.index < self.input.len() {
            Some(self.input[self.position.index])
        } else {
            None
        }
    }

    /// The character one past the cursor, if any.
    fn peek(&self) -> (c: Option<char>)
        requires
            self.wf(),
        ensures
            c == (if self.pos().index + 1 < self.input_seq().len() {
                Some(self.input_seq()[self.pos().index + 1])
            } else {
                Option::<char>::None
            }),
    {
        if self.position.index < self.input.len() && self.position.index + 1 < self.input.len() {
            Some(self.input[self.position.index + 1])
        } else {
            None
        }
    }

    /// Move the cursor one character forward; at the end of input, do nothing.
    fn advance(&mut self)
        requires
            old(self).wf(),
        ensures
            final(self).wf(),
            final(self).input_seq() == old(self).input_seq(),
            old(self).pos().index < old(self).input_seq().len() ==> final(self).pos() == pos_after(
                old(self).pos(),
                old(self).input_seq()[old(self).pos().index as int],
            ),
            old(self).pos().index >= old(self).input_seq().len() ==> *final(self) == *old(self),
    {
        if self.position.index < self.input.len() {
            let c = self.input[self.position.index];
            if c == '\n' {
                self.position.line = self.position.line + 1;
                self.position.column = 1;
            } else {
                self.position.column = self.position.column + 1;
            }
            self.position.index = self.position.index + 1;
        }
    }

    /// Skip whitespace and `//` comments, landing where the next token starts.
    fn skip_trivia(&mut self)
        requires
            old(self).wf(),
        ensures
            final(self).wf(),
            final(self).input_seq() == old(self).input_seq(),
            final(self).pos() == spec_skip(old(self).input_seq(), old(self).pos()),
            spec_skip(final(self).input_seq(), final(self).pos()) == final(self).pos(),
    {
        let ghost s = self.input_seq();
        let ghost target = spec_skip(s, self.pos());
        loop
            invariant
                self.wf(),
                self.input_seq() == s,
                spec_skip_from(s, self.pos(), false) == target,
            ensures
                self.wf(),
                self.input_seq() == s,
                self.pos() == target,
                spec_skip_from(s, self.pos(), false) == self.pos(),
            decreases s.len() - self.pos().index,
        {
            match self.current() {
                None => {
                    break;
                },
                Some(c) => {
                    if char_is_space(c) {
                        self.advance();
                    } else if c == '/' {
                        match self.peek() {
                            Some(d) if d == '/' => {
                                let ghost i0 = self.pos().index;
                                self.advance();
                                self.advance();
                                loop
                                    invariant
                                        self.wf(),
                                        self.input_seq() == s,
                                        spec_skip_from(s, self.pos(), true) == target,
                                        self.pos().index > i0,
                                    ensures
                                        self.wf(),
                                        self.input_seq() == s,
                                        spec_skip_from(s, self.pos(), false) == target,
                                        self.pos().index > i0,
                                        self.pos().index < s.len() ==> s[self.pos().index as int]
                                            == '\n',
                                    decreases s.len() - self.pos().index,
                                {
                                    match self.current() {
                                        None => {
                                            break;
                                        },
                                        Some(e) => {
                                            if e == '\n' {
                                                break;
                                            }
                                            self.advance();
                                        },
                                    }
                                }
                            },
                            _ => {
                                break;
                            },
                        }
                    } else {
                        break;
                    }
                },
            }
        }
    }

    /// End of the digit-and-dot run under the cursor.
    fn scan_number_end(&self) -> (end: usize)
        requires
            self.wf(),
        ensures
            end as int == spec_num_end(self.input_seq(), self.pos().index as int),
            self.pos().index <= end <= self.input_seq().len(),
    {
        let ghost s = self.input_seq();
        let mut j: usize = self.position.index;
        loop
            invariant
                self.wf(),
                self.pos().index <= j <= s.len(),
                s == self.input_seq(),
                spec_num_end(s, j as int) == spec_num_end(s, self.pos().index as int),
            ensures
                self.pos().index <= j <= s.len(),
                j as int == spec_num_end(s, self.pos().index as int),
            decreases s.len() - j,
        {
            if j >= self.input.len() {
                break;
            }
            let c = self.input[j];
            if !(('0' <= c && c <= '9') || c == '.') {
                break;
            }
            j = j + 1;
        }
        j
    }

    /// End of the identifier run that starts at `from`.
    fn scan_ident_end(&self, from: usize) -> (end: usize)
        requires
            self.wf(),
            from <= self.input_seq().len(),
        ensures
            end as int == spec_ident_end(self.input_seq(), from as int),
            from <= end <= self.input_seq().len(),
    {
        let ghost s = self.input_seq();
        let mut j: usize = from;
        loop
            invariant
                self.wf(),
                from <= j <= s.len(),
                s == self.input_seq(),
                spec_ident_end(s, j as int) == spec_ident_end(s, from as int),
            ensures
                from <= j <= s.len(),
                j as int == spec_ident_end(s, from as int),
            decreases s.len() - j,
        {
            if j >= self.input.len() {
                break;
            }
            let c = self.input[j];
            if !(char_is_alnum(c) || c == '_') {
                break;
            }
            j = j + 1;
        }
        j
    }

    /// The characters between two offsets, copied out.
    fn collect_range(&self, from: usize, to: usize) -> (v: Vec<char>)
        requires
            self.wf(),
            from <= to <= self.input_seq().len(),
        ensures
            v@ == self.input_seq().subrange(from as int, to as int),
    {
        let mut v: Vec<char> = Vec::new();
        let mut j: usize = from;
        while j < to
            invariant
                self.wf(),
                from <= j <= to <= self.input_seq().len(),
                v@ == self.input_seq().subrange(from as int, j as int),
            decreases to - j,
        {
            proof {
                assert(self.input_seq().subrange(from as int, j + 1) =~= self.input_seq().subrange(
                    from as int,
                    j as int,
                ).push(self.input_seq()[j as int]));
            }
            v.push(self.input[j]);
            j = j + 1;
        }
        v
    }

    /// Move the cursor forward to the given offset.
    fn update(&mut self, new_index: usize)
        requires
            old(self).wf(),
            old(self).pos().index <= new_index <= old(self).input_seq().len(),
        ensures
            final(self).wf(),
            final(self).input_seq() == old(self).input_seq(),
            final(self).pos() == spec_advance_to(
                old(self).input_seq(),
                old(self).pos(),
                new_index as int,
            ),
            final(self).pos().index == new_index,
    {
        let ghost s = self.input_seq();
        let ghost p0 = self.pos();
        while self.position.index < new_index
            invariant
                self.wf(),
                self.input_seq() == s,
                self.pos().index <= new_index <= s.len(),
                spec_advance_to(s, self.pos(), new_index as int) == spec_advance_to(
                    s,
                    p0,
                    new_index as int,
                ),
            decreases new_index - self.pos().index,
        {
            self.advance();
        }
    }

    /// Read the numeric literal under the cursor (a digit stands there).
    fn lex_number(&mut self) -> (r: Result<Token, LexError>)
        requires
            old(self).wf(),
            old(self).pos().index < old(self).input_seq().len(),
            is_digit_char(old(self).input_seq()[old(self).pos().index as int]),
        ensures
            final(self).wf(),
            final(self).input_seq() == old(self).input_seq(),
            ({
                let step = spec_lex_number(old(self).input_seq(), old(self).pos());
                match step {
                    LexStep::Tok { token, next } => r matches Ok(t) && t@ == token && final(self).pos() == next,
                    LexStep::Fail { error, next } => r matches Err(e) && e == error && final(self).pos() == next,
                }
            }),
    {
        let ghost s = self.input_seq();
        let start = self.position;
        let end = self.scan_number_end();
        proof {
            lemma_num_end(s, start.index as int);
            lemma_num_end(s, start.index + 1);
            // the first character is a digit, so the run is not empty
            assert(spec_num_end(s, start.index as int) == spec_num_end(s, start.index + 1));
            assert(end >= start.index + 1);
        }
        let trimmed = if self.input[end - 1] == '.' {
            end - 1
        } else {
            end
        };
        proof {
            if trimmed < start.index + 1 {
                assert(s[trimmed as int] == '.');
            }
        }
        let lit = self.collect_range(start.index, trimmed);
        let dots = count_dots(&lit);
        if dots >= 2 {
            self.update(end);
            Err(LexError::MalformedNumber { position: start })
        } else if dots == 1 {
            let text = chars_to_string(&lit);
            self.update(trimmed);
            Ok(Token { token_type: TokenType::Float(text), position: start })
        } else {
            proof {
                lemma_dots_nonneg(lit@);
                lemma_dots_zero(lit@);
            }
            match digits_to_i64(&lit) {
                Some(value) => {
                    self.update(trimmed);
                    Ok(Token { token_type: TokenType::Integer(value), position: start })
                },
                None => {
                    self.update(end);
                    Err(LexError::MalformedNumber { position: start })
                },
            }
        }
    }

    /// Read the identifier or keyword under the cursor (a letter or an
    /// underscore stands there).
    fn lex_word(&mut self) -> (r: Result<Token, LexError>)
        requires
            old(self).wf(),
            old(self).pos().index < old(self).input_seq().len(),
            is_alpha_char(old(self).input_seq()[old(self).pos().index as int]) || old(
                self,
            ).input_seq()[old(self).pos().index as int] == '_',
        ensures
            final(self).wf(),
            final(self).input_seq() == old(self).input_seq(),
            ({
                let step = spec_lex_word(old(self).input_seq(), old(self).pos());
                match step {
                    LexStep::Tok { token, next } => r matches Ok(t) && t@ == token && final(self).pos() == next,
                    LexStep::Fail { error, next } => r matches Err(e) && e == error && final(self).pos() == next,
                }
            }),
    {
        let ghost s = self.input_seq();
        let start = self.position;
        let end = self.scan_ident_end(start.index + 1);
        let lit = self.collect_range(start.index, end);
        let token_type = match keyword_of(&lit) {
            Some(kw) => TokenType::Keyword(kw),
            None => TokenType::Identifier(chars_to_string(&lit)),
        };
        self.update(end);
        Ok(Token { token_type, position: start })
    }

    /// Return the next token, advancing the cursor; past the end of input it
    /// returns `EOF` forever, never a fault.  The result and the new cursor
    /// are exactly what `spec_next` says of the old state.
    pub fn consume(&mut self) -> (r: Result<Token, LexError>)
        requires
            old(self).wf(),
        ensures
            final(self).wf(),
            final(self).input_seq() == old(self).input_seq(),
            ({
                let step = spec_next(old(self).input_seq(), old(self).pos());
                match step {
                    LexStep::Tok { token, next } => r matches Ok(t) && t@ == token && final(self).pos() == next,
                    LexStep::Fail { error, next } => r matches Err(e) && e == error && final(self).pos() == next,
                }
            }),
    {
        self.skip_trivia();
        let start = self.position;
        match self.current() {
            None => Ok(Token { token_type: TokenType::EOF, position: start }),
            Some(c) => {
                let pair = match self.peek() {
                    Some(c2) => match_two_char(c, c2),
                    None => None,
                };
                if let Some(symbol) = pair {
                    self.advance();
                    self.advance();
                    Ok(Token { token_type: TokenType::Symbol(symbol), position: start })
                } else if let Some(symbol) = match_one_char(c) {
                    self.advance();
                    Ok(Token { token_type: TokenType::Symbol(symbol), position: start })
                } else if '0' <= c && c <= '9' {
                    self.lex_number()
                } else if char_is_alpha(c) || c == '_' {
                    self.lex_word()
                } else {
                    self.advance();
                    Err(LexError::UnexpectedChar { character: c, position: start })
                }
            },
        }
    }
}


/// The text a symbol is written as.
pub open spec fn symbol_str(sym: Symbol) -> Seq<char> {
    match sym {
        Symbol::Plus => "+"@,
        Symbol::Minus => "-"@,
        Symbol::Equals => "="@,
        Symbol::DoubleEquals => "=="@,
        Symbol::NotEquals => "!="@,
        Symbol::Star => "*"@,
        Symbol::Slash => "/"@,
        Symbol::GreaterThan => ">"@,
        Symbol::GreaterEquals => ">="@,
        Symbol::LessThan => "<"@,
        Symbol::LessEquals => "<="@,
        Symbol::LParen => "("@,
        Symbol::RParen => ")"@,
        Symbol::Dot => "."@,
        Symbol::Comma => ","@,
    }
}

/// The text a keyword is written as.
pub open spec fn keyword_str(kw: Keyword) -> Seq<char> {
    match kw {
        Keyword::If => "if"@,
        Keyword::Else => "else"@,
    }
}

/// The decimal digits of a non-negative number, most significant first.
pub open spec fn dec_digits(n: int) -> Seq<char>
    decreases n, when n >= 0
{
    if 0 <= n < 10 {
        seq![digit_char_of(n)]
    } else {
        dec_digits(n / 10).push(digit_char_of(n % 10))
    }
}

/// The character of one decimal digit.
pub open spec fn digit_char_of(d: int) -> char {
    ((d + '0' as int) as u8) as char
}

/// The decimal rendering of an integer, with a leading minus where negative.
pub open spec fn int_str(n: int) -> Seq<char> {
    if n < 0 {
        seq!['-'] + dec_digits(-n)
    } else {
        dec_digits(n)
    }
}

/// The display text of a token classification: a literal or identifier shows
/// its own text, a symbol or keyword its spelling, and `EOF` its name.
pub open spec fn token_type_str(t: TokenTypeView) -> Seq<char> {
    match t {
        TokenTypeView::Identifier(name) => name,
        TokenTypeView::Integer(value) => int_str(value),
        TokenTypeView::Float(text) => text,
        TokenTypeView::Symbol(sym) => symbol_str(sym),
        TokenTypeView::Keyword(kw) => keyword_str(kw),
        TokenTypeView::EOF => "EOF"@,
    }
}

/// The decimal digits of `n`, as characters.
fn dec_chars(n: u64) -> (v: Vec<char>)
    ensures
        v@ == dec_digits(n as int),
    decreases n,
{
    let d: u8 = (n % 10) as u8;
    let c: char = (d + 48) as char;
    proof {
        assert(c == digit_char_of(n as int % 10));
    }
    if n < 10 {
        let mut v: Vec<char> = Vec::new();
        v.push(c);
        proof {
            assert(v@ =~= seq![digit_char_of(n as int)]);
        }
        v
    } else {
        let mut v = dec_chars(n / 10);
        v.push(c);
        v
    }
}

impl Symbol {
    /// The symbol's spelling.
    pub fn as_string(&self) -> (r: String)
        ensures
            r@ == symbol_str(*self),
    {
        match self {
            Symbol::Plus => "+".to_owned(),
            Symbol::Minus => "-".to_owned(),
            Symbol::Equals => "=".to_owned(),
            Symbol::DoubleEquals => "==".to_owned(),
            Symbol::NotEquals => "!=".to_owned(),
            Symbol::Star => "*".to_owned(),
            Symbol::Slash => "/".to_owned(),
            Symbol::GreaterThan => ">".to_owned(),
            Symbol::GreaterEquals => ">=".to_owned(),
            Symbol::LessThan => "<".to_owned(),
            Symbol::LessEquals => "<=".to_owned(),
            Symbol::LParen => "(".to_owned(),
            Symbol::RParen => ")".to_owned(),
            Symbol::Dot => ".".to_owned(),
            Symbol::Comma => ",".to_owned(),
        }
    }
}

impl Keyword {
    /// The keyword's spelling.
    pub fn as_string(&self) -> (r: String)
        ensures
            r@ == keyword_str(*self),
    {
        match self {
            Keyword::If => "if".to_owned(),
            Keyword::Else => "else".to_owned(),
        }
    }
}

impl TokenType {
    /// The display text of the classification.
    pub fn as_string(&self) -> (r: String)
        ensures
            r@ == token_type_str(self@),
    {
        match self {
            TokenType::Identifier(name) => name.clone(),
            TokenType::Integer(value) => {
                let v = *value;
                let magnitude: u64 = if v < 0 {
                    (-(v + 1)) as u64 + 1
                } else {
                    v as u64
                };
                let digits = dec_chars(magnitude);
                if v < 0 {
                    let mut all: Vec<char> = Vec::new();
                    all.push('-');
                    let mut k: usize = 0;
                    while k < digits.len()
                        invariant
                            0 <= k <= digits@.len(),
                            all@ == seq!['-'] + digits@.subrange(0, k as int),
                        decreases digits@.len() - k,
                    {
                        all.push(digits[k]);
                        proof {
                            assert(all@ =~= seq!['-'] + digits@.subrange(0, k + 1));
                        }
                        k = k + 1;
                    }
                    proof {
                        assert(digits@.subrange(0, digits@.len() as int) =~= digits@);
                    }
                    chars_to_string(&all)
                } else {
                    chars_to_string(&digits)
                }
            },
            TokenType::Float(text) => text.clone(),
            TokenType::Symbol(symbol) => symbol.as_string(),
            TokenType::Keyword(keyword) => keyword.as_string(),
            TokenType::EOF => "EOF".to_owned(),
        }
    }
}

} // verus!
