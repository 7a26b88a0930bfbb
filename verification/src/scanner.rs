//! The lexer: source text to tokens, one at a time or all at once.
use vstd::prelude::*;
use vstd::string::*;
use crate::token::{Token, TokenType, TokenView, keyword, word_type};

verus! {

pub open spec fn is_digit(c: char) -> bool {
    '0' <= c && c <= '9'
}

pub open spec fn is_alpha(c: char) -> bool {
    ('a' <= c && c <= 'z') || ('A' <= c && c <= 'Z') || c == '_'
}

pub open spec fn is_blank(c: char) -> bool {
    c == ' ' || c == '\r' || c == '\t' || c == '\n'
}

/// The number of line feeds among the first `pos` characters of `src`.
pub open spec fn newlines(src: Seq<char>, pos: int) -> nat
    decreases pos,
{
    if pos <= 0 || pos > src.len() {
        0
    } else {
        newlines(src, pos - 1) + if src[pos - 1] == '\n' {
            1nat
        } else {
            0nat
        }
    }
}

/// The line on which position `pos` of `src` lies: lines count from one, and
/// the counter stops at the largest `usize`.
pub open spec fn line_at(src: Seq<char>, pos: int) -> nat {
    if 1 + newlines(src, pos) <= usize::MAX {
        1 + newlines(src, pos)
    } else {
        usize::MAX as nat
    }
}

/// Where the run of blanks and `//` comments that starts at `pos` ends.
/// `in_comment` says that `pos` lies inside a comment.
pub open spec fn blank_end(src: Seq<char>, pos: int, in_comment: bool) -> int
    decreases src.len() - pos, (if in_comment { 1int } else { 0int }),
{
    if pos < 0 || pos >= src.len() {
        pos
    } else if in_comment {
        if src[pos] == '\n' {
            blank_end(src, pos, false)
        } else {
            blank_end(src, pos + 1, true)
        }
    } else if is_blank(src[pos]) {
        blank_end(src, pos + 1, false)
    } else if src[pos] == '/' && pos + 1 < src.len() && src[pos + 1] == '/' {
        blank_end(src, pos + 2, true)
    } else {
        pos
    }
}

/// Where the run of letters, digits and underscores that starts at `pos` ends.
pub open spec fn ident_end(src: Seq<char>, pos: int) -> int
    decreases src.len() - pos,
{
    if 0 <= pos < src.len() && (is_alpha(src[pos]) || is_digit(src[pos])) {
        ident_end(src, pos + 1)
    } else {
        pos
    }
}

/// Where the run of digits that starts at `pos` ends.
pub open spec fn digits_end(src: Seq<char>, pos: int) -> int
    decreases src.len() - pos,
{
    if 0 <= pos < src.len() && is_digit(src[pos]) {
        digits_end(src, pos + 1)
    } else {
        pos
    }
}

/// Where the number literal whose digits start at `pos` ends: digits, then
/// a dot only if a digit follows it, then digits.
pub open spec fn number_end(src: Seq<char>, pos: int) -> int {
    let d = digits_end(src, pos);
    if 0 <= d && d + 1 < src.len() && src[d] == '.' && is_digit(src[d + 1]) {
        digits_end(src, d + 1)
    } else {
        d
    }
}

/// The position of the first double quote at or after `pos`, or the length
/// of `src` if there is none.
pub open spec fn quote_pos(src: Seq<char>, pos: int) -> int
    decreases src.len() - pos,
{
    if 0 <= pos < src.len() && src[pos] != '"' {
        quote_pos(src, pos + 1)
    } else {
        pos
    }
}

/// What the lexer reads at a position: the kind, the text kept as the
/// lexeme, and where the token ends.
pub struct Lexed {
    pub tpe: TokenType,
    pub text: Seq<char>,
    pub end: int,
}

/// The one- and two-character operators and the punctuation: the kind and
/// the length of the token that starts with `c` when `next` follows it.
pub open spec fn symbol(c: char, next: Option<char>) -> Option<(TokenType, int)> {
    let eq = next == Some('=');
    if c == '(' {
        Some((TokenType::LeftParen, 1))
    } else if c == ')' {
        Some((TokenType::RightParen, 1))
    } else if c == '{' {
        Some((TokenType::LeftBrace, 1))
    } else if c == '}' {
        Some((TokenType::RightBrace, 1))
    } else if c == ',' {
        Some((TokenType::Comma, 1))
    } else if c == '.' {
        Some((TokenType::Dot, 1))
    } else if c == '-' {
        Some((TokenType::Minus, 1))
    } else if c == '+' {
        Some((TokenType::Plus, 1))
    } else if c == ';' {
        Some((TokenType::Semicolon, 1))
    } else if c == '/' {
        Some((TokenType::Slash, 1))
    } else if c == '*' {
        Some((TokenType::Star, 1))
    } else if c == '!' {
        if eq { Some((TokenType::BangEqual, 2)) } else { Some((TokenType::Bang, 1)) }
    } else if c == '=' {
        if eq { Some((TokenType::EqualEqual, 2)) } else { Some((TokenType::Equal, 1)) }
    } else if c == '<' {
        if eq { Some((TokenType::LessEqual, 2)) } else { Some((TokenType::Less, 1)) }
    } else if c == '>' {
        if eq { Some((TokenType::GreaterEqual, 2)) } else { Some((TokenType::Greater, 1)) }
    } else {
        None
    }
}

/// The character of `src` at `pos`, if there is one.
pub open spec fn char_or_none(src: Seq<char>, pos: int) -> Option<char> {
    if 0 <= pos < src.len() {
        Some(src[pos])
    } else {
        None
    }
}

/// The token that starts at `p`, a position that holds no blank and opens
/// no comment.
pub open spec fn lex_at(src: Seq<char>, p: int) -> Lexed {
    if p < 0 || p >= src.len() {
        Lexed { tpe: TokenType::EOF, text: Seq::empty(), end: p }
    } else if is_alpha(src[p]) {
        let e = ident_end(src, p + 1);
        Lexed { tpe: word_type(src.subrange(p, e)), text: src.subrange(p, e), end: e }
    } else if is_digit(src[p]) {
        let e = number_end(src, p + 1);
        Lexed { tpe: TokenType::Number, text: src.subrange(p, e), end: e }
    } else if src[p] == '"' {
        let q = quote_pos(src, p + 1);
        if q >= src.len() {
            Lexed { tpe: TokenType::Error, text: "Unterminated string."@, end: q }
        } else {
            Lexed { tpe: TokenType::String, text: src.subrange(p + 1, q), end: q + 1 }
        }
    } else {
        match symbol(src[p], char_or_none(src, p + 1)) {
            Some((tpe, n)) => Lexed { tpe, text: src.subrange(p, p + n), end: p + n },
            None => Lexed { tpe: TokenType::Error, text: "Unexpected character."@, end: p + 1 },
        }
    }
}

/// The token that the lexer hands out when it stands at `pos`, and the
/// position at which it stands afterwards.
pub open spec fn next_token(src: Seq<char>, pos: int) -> (TokenView, int) {
    let p = blank_end(src, pos, false);
    let lx = lex_at(src, p);
    (TokenView { tpe: lx.tpe, lexeme: lx.text, line: line_at(src, lx.end) }, lx.end)
}

/// All the tokens from `pos` on, the end-of-input token last.
pub open spec fn tokens_from(src: Seq<char>, pos: int) -> Seq<TokenView>
    decreases src.len() - pos,
{
    let (token, end) = next_token(src, pos);
    if token.tpe == TokenType::EOF || end <= pos || end > src.len() {
        seq![token]
    } else {
        seq![token] + tokens_from(src, end)
    }
}

pub proof fn lemma_blank_end_bounds(src: Seq<char>, pos: int, in_comment: bool)
    requires
        0 <= pos <= src.len(),
    ensures
        pos <= blank_end(src, pos, in_comment) <= src.len(),
    decreases src.len() - pos, (if in_comment { 1int } else { 0int }),
{
    if pos >= src.len() {
    } else if in_comment {
        if src[pos] == '\n' {
            lemma_blank_end_bounds(src, pos, false);
        } else {
            lemma_blank_end_bounds(src, pos + 1, true);
        }
    } else if is_blank(src[pos]) {
        lemma_blank_end_bounds(src, pos + 1, false);
    } else if src[pos] == '/' && pos + 1 < src.len() && src[pos + 1] == '/' {
        lemma_blank_end_bounds(src, pos + 2, true);
    }
}

pub proof fn lemma_ident_end_bounds(src: Seq<char>, pos: int)
    requires
        0 <= pos <= src.len(),
    ensures
        pos <= ident_end(src, pos) <= src.len(),
    decreases src.len() - pos,
{
    if pos < src.len() && (is_alpha(src[pos]) || is_digit(src[pos])) {
        lemma_ident_end_bounds(src, pos + 1);
    }
}

pub proof fn lemma_digits_end_bounds(src: Seq<char>, pos: int)
    requires
        0 <= pos <= src.len(),
    ensures
        pos <= digits_end(src, pos) <= src.len(),
    decreases src.len() - pos,
{
    if pos < src.len() && is_digit(src[pos]) {
        lemma_digits_end_bounds(src, pos + 1);
    }
}

pub proof fn lemma_quote_pos_bounds(src: Seq<char>, pos: int)
    requires
        0 <= pos <= src.len(),
    ensures
        pos <= quote_pos(src, pos) <= src.len(),
    decreases src.len() - pos,
{
    if pos < src.len() && src[pos] != '"' {
        lemma_quote_pos_bounds(src, pos + 1);
    }
}

/// A token other than the end of input ends after the position at which the
/// lexer stood, and within the source.
pub proof fn lemma_next_token_advances(src: Seq<char>, pos: int)
    requires
        0 <= pos <= src.len(),
    ensures
        pos <= next_token(src, pos).1 <= src.len(),
        next_token(src, pos).0.tpe != TokenType::EOF ==> pos < next_token(src, pos).1,
        next_token(src, pos).0.tpe == TokenType::EOF ==> next_token(src, pos).1 == src.len(),
{
    lemma_blank_end_bounds(src, pos, false);
    let p = blank_end(src, pos, false);
    if p < src.len() {
        lemma_ident_end_bounds(src, p + 1);
        lemma_digits_end_bounds(src, p + 1);
        lemma_quote_pos_bounds(src, p + 1);
        let d = digits_end(src, p + 1);
        if d + 1 < src.len() {
            lemma_digits_end_bounds(src, d + 1);
        }
        lemma_word_type_not_eof(src.subrange(p, ident_end(src, p + 1)));
    }
}

/// The text of a token is a piece of the source: what lies between the
/// blanks and comments before the token and the position behind it, for a
/// string without its quotes. An error token carries its message instead.
/// So the source is, piece by piece, blanks and comments, then a token's
/// text, then blanks and comments again.
pub proof fn lemma_lexeme_in_source(src: Seq<char>, pos: int)
    requires
        0 <= pos <= src.len(),
    ensures
        ({
            let start = blank_end(src, pos, false);
            let (token, end) = next_token(src, pos);
            &&& pos <= start <= end <= src.len()
            &&& token.tpe == TokenType::String ==> start + 2 <= end && src[start] == '"' && src[end
                - 1] == '"' && token.lexeme == src.subrange(start + 1, end - 1)
            &&& token.tpe != TokenType::String && token.tpe != TokenType::Error ==> token.lexeme
                == src.subrange(start, end)
            &&& token.tpe == TokenType::EOF <==> start == src.len()
        }),
{
    lemma_next_token_advances(src, pos);
    lemma_blank_end_bounds(src, pos, false);
    let p = blank_end(src, pos, false);
    if p < src.len() {
        lemma_ident_end_bounds(src, p + 1);
        lemma_digits_end_bounds(src, p + 1);
        lemma_quote_pos_bounds(src, p + 1);
        lemma_quote_pos_finds(src, p + 1);
        let d = digits_end(src, p + 1);
        if d + 1 < src.len() {
            lemma_digits_end_bounds(src, d + 1);
        }
        lemma_word_type_not_eof(src.subrange(p, ident_end(src, p + 1)));
    }
}

/// Where `quote_pos` stops inside the source, a double quote stands.
pub proof fn lemma_quote_pos_finds(src: Seq<char>, pos: int)
    requires
        0 <= pos <= src.len(),
    ensures
        quote_pos(src, pos) < src.len() ==> src[quote_pos(src, pos)] == '"',
    decreases src.len() - pos,
{
    if pos < src.len() && src[pos] != '"' {
        lemma_quote_pos_finds(src, pos + 1);
    }
}

/// The tokens of a source end with the end-of-input token, and no token
/// before it is one.
pub proof fn lemma_tokens_end(src: Seq<char>, pos: int)
    requires
        0 <= pos <= src.len(),
    ensures
        tokens_from(src, pos).len() >= 1,
        tokens_from(src, pos).last().tpe == TokenType::EOF,
        forall|i: int|
            0 <= i < tokens_from(src, pos).len() - 1 ==> (#[trigger] tokens_from(src, pos)[i]).tpe
                != TokenType::EOF,
    decreases src.len() - pos,
{
    lemma_next_token_advances(src, pos);
    let (token, end) = next_token(src, pos);
    if !(token.tpe == TokenType::EOF || end <= pos || end > src.len()) {
        lemma_tokens_end(src, end);
        let rest = tokens_from(src, end);
        let all = tokens_from(src, pos);
        assert(all =~= seq![token] + rest);
        assert forall|i: int| 0 <= i < all.len() - 1 implies (#[trigger] all[i]).tpe
            != TokenType::EOF by {
            if i > 0 {
                assert(all[i] == rest[i - 1]);
            }
        }
    }
}

pub proof fn lemma_word_type_not_eof(text: Seq<char>)
    ensures
        word_type(text) != TokenType::EOF,
        word_type(text) != TokenType::Error,
{
}


/// A lexer over one source text.
pub struct Scanner {
    source: String,
    chars: Vec<char>,
    start: usize,
    current: usize,
    line: usize,
}

impl Scanner {
    /// The source text.
    pub closed spec fn text(&self) -> Seq<char> {
        self.chars@
    }

    /// The position at which the lexer stands.
    pub closed spec fn position(&self) -> int {
        self.current as int
    }

    /// The lexer stands inside its source, between two tokens, and its line
    /// counter agrees with its position.
    pub closed spec fn wf(&self) -> bool {
        &&& self.source@ == self.chars@
        &&& self.start <= self.current <= self.chars.len()
        &&& self.line == line_at(self.chars@, self.current as int)
    }

    spec fn inside(&self) -> bool {
        &&& self.source@ == self.chars@
        &&& self.start <= self.current <= self.chars.len()
    }

    spec fn same_source(&self, other: &Scanner) -> bool {
        &&& self.source == other.source
        &&& self.chars == other.chars
    }

    /// A lexer stands inside its source.
    pub proof fn lemma_position(&self)
        requires
            self.wf(),
        ensures
            0 <= self.position() <= self.text().len(),
    {
    }

    pub fn new(source: &str) -> (r: Scanner)
        ensures
            r.wf(),
            r.text() == source@,
            r.position() == 0,
    {
        let n = source.unicode_len();
        let mut chars: Vec<char> = Vec::new();
        let mut i: usize = 0;
        while i < n
            invariant
                i <= n,
                n == source@.len(),
                chars@ == source@.subrange(0, i as int),
            decreases n - i,
        {
            chars.push(source.get_char(i));
            i += 1;
        }
        assert(chars@ == source@);
        Scanner { source: source.to_owned(), chars, start: 0, current: 0, line: 1 }
    }

    fn is_alpha(&self, c: char) -> (r: bool)
        ensures
            r == is_alpha(c),
    {
        (c >= 'a' && c <= 'z') || (c >= 'A' && c <= 'Z') || c == '_'
    }

    fn is_digit(&self, c: char) -> (r: bool)
        ensures
            r == is_digit(c),
    {
        c >= '0' && c <= '9'
    }

    fn is_at_end(&self) -> (r: bool)
        ensures
            r == (self.current >= self.chars.len()),
    {
        self.current >= self.chars.len()
    }

    fn char_at(&self, i: usize) -> (c: char)
        ensures
            c == (if i < self.chars.len() { self.chars[i as int] } else { '\0' }),
    {
        if i < self.chars.len() {
            self.chars[i]
        } else {
            '\0'
        }
    }

    fn peek(&self) -> (c: char)
        ensures
            c == (if self.current < self.chars.len() { self.chars[self.current as int] } else { '\0' }),
    {
        self.char_at(self.current)
    }

    fn peek_next(&self) -> (c: char)
        ensures
            c == (if self.current + 1 < self.chars.len() { self.chars[self.current + 1] } else { '\0' }),
    {
        if self.current >= self.chars.len() {
            '\0'
        } else {
            self.char_at(self.current + 1)
        }
    }

    fn advance(&mut self) -> (c: char)
        requires
            old(self).current < old(self).chars.len(),
        ensures
            c == old(self).chars[old(self).current as int],
            final(self).current == old(self).current + 1,
            final(self).same_source(old(self)),
            final(self).start == old(self).start,
            final(self).line == old(self).line,
    {
        self.current += 1;
        self.chars[self.current - 1]
    }

    fn matches(&mut self, expected: char) -> (r: bool)
        requires
            old(self).current <= old(self).chars.len(),
        ensures
            r == (char_or_none(old(self).chars@, old(self).current as int) == Some(expected)),
            final(self).current == old(self).current + if r { 1int } else { 0int },
            final(self).same_source(old(self)),
            final(self).start == old(self).start,
            final(self).line == old(self).line,
    {
        if self.is_at_end() {
            return false;
        }
        if self.peek() != expected {
            return false;
        }
        self.current += 1;
        true
    }

    fn bump_line(&mut self)
        ensures
            final(self).line == (if old(self).line < usize::MAX { old(self).line + 1 } else { old(self).line as int }),
            final(self).current == old(self).current,
            final(self).same_source(old(self)),
            final(self).start == old(self).start,
    {
        if self.line < usize::MAX {
            self.line += 1;
        }
    }

    fn make_token(&self, typ: TokenType) -> (t: Token)
        requires
            self.inside(),
        ensures
            t@ == (TokenView {
                tpe: typ,
                lexeme: self.chars@.subrange(self.start as int, self.current as int),
                line: self.line as nat,
            }),
    {
        let text = self.source.as_str().substring_char(self.start, self.current);
        Token::new(typ, text, self.line)
    }

    fn error_token(&self, message: &'static str) -> (t: Token)
        ensures
            t@ == (TokenView { tpe: TokenType::Error, lexeme: message@, line: self.line as nat }),
    {
        Token::new(TokenType::Error, message, self.line)
    }

    fn skip_whitespace(&mut self)
        requires
            old(self).wf(),
        ensures
            final(self).wf(),
            final(self).same_source(old(self)),
            final(self).current == blank_end(old(self).chars@, old(self).current as int, false),
            final(self).current < final(self).chars.len() ==> !is_blank(
                final(self).chars[final(self).current as int],
            ),
    {
        loop
            invariant
                self.wf(),
                self.same_source(old(self)),
                blank_end(self.chars@, self.current as int, false) == blank_end(
                    old(self).chars@,
                    old(self).current as int,
                    false,
                ),
            decreases self.chars.len() - self.current,
        {
            if self.is_at_end() {
                return ;
            }
            let c: char = self.peek();
            if c == ' ' || c == '\r' || c == '\t' {
                self.advance();
            } else if c == '\n' {
                self.bump_line();
                self.advance();
            } else if c == '/' {
                if self.peek_next() == '/' {
                    let ghost opened = self.current;
                    self.advance();
                    assert(self.wf());
                    self.advance();
                    assert(self.wf());
                    // A comment goes until the end of the line.
                    while self.peek() != '\n' && !self.is_at_end()
                        invariant
                            self.wf(),
                            self.current > opened,
                            self.same_source(old(self)),
                            blank_end(self.chars@, self.current as int, true) == blank_end(
                                old(self).chars@,
                                old(self).current as int,
                                false,
                            ),
                        decreases self.chars.len() - self.current,
                    {
                        self.advance();
                    }
                    if self.is_at_end() {
                        return ;
                    }
                } else {
                    return ;
                }
            } else {
                return ;
            }
        }
    }

    /// Compares what follows the first `skip` characters of the word just
    /// read with `rest`.
    fn check_keyword<const N: usize>(&self, skip: usize, rest: [char; N], typ: TokenType) -> (r:
        TokenType)
        requires
            self.inside(),
            self.start + skip <= self.current,
        ensures
            r == (if self.current - self.start == skip + N && self.chars@.subrange(
                self.start + skip,
                self.current as int,
            ) == rest@ {
                typ
            } else {
                TokenType::Identifier
            }),
    {
        if self.current - self.start - skip != N {
            return TokenType::Identifier;
        }
        let mut i: usize = 0;
        while i < N
            invariant
                self.inside(),
                self.current - self.start == skip + N,
                i <= N,
                forall|j: int| 0 <= j < i ==> self.chars[self.start + skip + j] == rest@[j],
            decreases N - i,
        {
            if self.chars[self.start + skip + i] != rest[i] {
                assert(self.chars@.subrange(self.start + skip, self.current as int)[i as int]
                    != rest@[i as int]);
                return TokenType::Identifier;
            }
            i += 1;
        }
        assert(self.chars@.subrange(self.start + skip, self.current as int) =~= rest@);
        typ
    }

    /// Tells a reserved word from an identifier by walking the letters of
    /// the word just read.
    fn identifier_type(&self) -> (r: TokenType)
        requires
            self.inside(),
            self.start < self.current,
        ensures
            r == word_type(self.chars@.subrange(self.start as int, self.current as int)),
    {
        let ghost text = self.chars@.subrange(self.start as int, self.current as int);
        let r = match self.char_at(self.start) {
            'a' => self.check_keyword(1, ['n', 'd'], TokenType::And),
            'c' => self.check_keyword(1, ['l', 'a', 's', 's'], TokenType::Class),
            'e' => self.check_keyword(1, ['l', 's', 'e'], TokenType::Else),
            'f' => {
                if self.current - self.start > 1 {
                    match self.char_at(self.start + 1) {
                        'a' => self.check_keyword(2, ['l', 's', 'e'], TokenType::False),
                        'o' => self.check_keyword(2, ['r'], TokenType::For),
                        'u' => self.check_keyword(2, ['n'], TokenType::Fun),
                        _ => TokenType::Identifier,
                    }
                } else {
                    TokenType::Identifier
                }
            },
            'i' => self.check_keyword(1, ['f'], TokenType::If),
            'n' => self.check_keyword(1, ['i', 'l'], TokenType::Nil),
            'o' => self.check_keyword(1, ['r'], TokenType::Or),
            'p' => self.check_keyword(1, ['r', 'i', 'n', 't'], TokenType::Print),
            'r' => self.check_keyword(1, ['e', 't', 'u', 'r', 'n'], TokenType::Return),
            's' => self.check_keyword(1, ['u', 'p', 'e', 'r'], TokenType::Super),
            't' => {
                if self.current - self.start > 1 {
                    match self.char_at(self.start + 1) {
                        'h' => self.check_keyword(2, ['i', 's'], TokenType::This),
                        'r' => self.check_keyword(2, ['u', 'e'], TokenType::True),
                        _ => TokenType::Identifier,
                    }
                } else {
                    TokenType::Identifier
                }
            },
            'v' => self.check_keyword(1, ['a', 'r'], TokenType::Var),
            'w' => self.check_keyword(1, ['h', 'i', 'l', 'e'], TokenType::While),
            _ => TokenType::Identifier,
        };
        proof {
            lemma_keyword_letters(text);
            assert(text.subrange(1, text.len() as int) =~= self.chars@.subrange(
                self.start + 1,
                self.current as int,
            ));
            if text.len() >= 2 {
                assert(text.subrange(2, text.len() as int) =~= self.chars@.subrange(
                    self.start + 2,
                    self.current as int,
                ));
            }
        }
        r
    }

    fn identifier(&mut self) -> (t: Token)
        requires
            old(self).wf(),
            old(self).start < old(self).current,
            old(self).current == old(self).start + 1,
        ensures
            final(self).wf(),
            final(self).same_source(old(self)),
            final(self).start == old(self).start,
            final(self).current == ident_end(old(self).chars@, old(self).current as int),
            t@ == (TokenView {
                tpe: word_type(
                    old(self).chars@.subrange(old(self).start as int, final(self).current as int),
                ),
                lexeme: old(self).chars@.subrange(old(self).start as int, final(self).current as int),
                line: final(self).line as nat,
            }),
    {
        while self.is_alpha(self.peek()) || self.is_digit(self.peek())
            invariant
                self.wf(),
                self.same_source(old(self)),
                self.start == old(self).start,
                self.start < self.current,
                ident_end(self.chars@, self.current as int) == ident_end(
                    old(self).chars@,
                    old(self).current as int,
                ),
            decreases self.chars.len() - self.current,
        {
            self.advance();
        }
        let typ = self.identifier_type();
        self.make_token(typ)
    }

    fn number(&mut self) -> (t: Token)
        requires
            old(self).wf(),
            old(self).current == old(self).start + 1,
        ensures
            final(self).wf(),
            final(self).same_source(old(self)),
            final(self).start == old(self).start,
            final(self).current == number_end(old(self).chars@, old(self).current as int),
            t@ == (TokenView {
                tpe: TokenType::Number,
                lexeme: old(self).chars@.subrange(old(self).start as int, final(self).current as int),
                line: final(self).line as nat,
            }),
    {
        while self.is_digit(self.peek())
            invariant
                self.wf(),
                self.same_source(old(self)),
                self.start == old(self).start,
                digits_end(self.chars@, self.current as int) == digits_end(
                    old(self).chars@,
                    old(self).current as int,
                ),
            decreases self.chars.len() - self.current,
        {
            self.advance();
        }
        // Look for a fractional part.
        if self.peek() == '.' && self.is_digit(self.peek_next()) {
            // Consume the ".".
            self.advance();
            let ghost dot = self.current as int;
            while self.is_digit(self.peek())
                invariant
                    self.wf(),
                    self.same_source(old(self)),
                    self.start == old(self).start,
                    digits_end(self.chars@, self.current as int) == digits_end(self.chars@, dot),
                decreases self.chars.len() - self.current,
            {
                self.advance();
            }
        }
        self.make_token(TokenType::Number)
    }

    fn string(&mut self) -> (t: Token)
        requires
            old(self).wf(),
            old(self).current == old(self).start + 1,
        ensures
            final(self).wf(),
            final(self).same_source(old(self)),
            final(self).start == old(self).start,
            ({
                let src = old(self).chars@;
                let q = quote_pos(src, old(self).current as int);
                if q >= src.len() {
                    &&& final(self).current == q
                    &&& t@ == (TokenView {
                        tpe: TokenType::Error,
                        lexeme: "Unterminated string."@,
                        line: final(self).line as nat,
                    })
                } else {
                    &&& final(self).current == q + 1
                    &&& t@ == (TokenView {
                        tpe: TokenType::String,
                        lexeme: src.subrange(old(self).current as int, q),
                        line: final(self).line as nat,
                    })
                }
            }),
    {
        while self.peek() != '"' && !self.is_at_end()
            invariant
                self.wf(),
                self.same_source(old(self)),
                self.start == old(self).start,
                self.start < self.current,
                quote_pos(self.chars@, self.current as int) == quote_pos(
                    old(self).chars@,
                    old(self).current as int,
                ),
            decreases self.chars.len() - self.current,
        {
            if self.peek() == '\n' {
                self.bump_line();
            }
            self.advance();
        }
        if self.is_at_end() {
            return self.error_token("Unterminated string.");
        }
        // The closing quote.
        self.advance();
        // Trim the surrounding quotes.
        let text = self.source.as_str().substring_char(self.start + 1, self.current - 1);
        Token::new(TokenType::String, text, self.line)
    }

    /// Skips blanks and comments, then reads one token. At the end of the
    /// source every call hands out the end-of-input token.
    pub fn scan_token(&mut self) -> (t: Token)
        requires
            old(self).wf(),
        ensures
            final(self).wf(),
            final(self).text() == old(self).text(),
            t@ == next_token(old(self).text(), old(self).position()).0,
            final(self).position() == next_token(old(self).text(), old(self).position()).1,
    {
        self.skip_whitespace();
        self.start = self.current;
        if self.is_at_end() {
            assert(self.chars@.subrange(self.start as int, self.current as int) =~= Seq::empty());
            return self.make_token(TokenType::EOF);
        }
        let c: char = self.advance();
        assert(self.wf());
        if self.is_alpha(c) {
            return self.identifier();
        }
        if self.is_digit(c) {
            return self.number();
        }
        match c {
            '(' => self.make_token(TokenType::LeftParen),
            ')' => self.make_token(TokenType::RightParen),
            '{' => self.make_token(TokenType::LeftBrace),
            '}' => self.make_token(TokenType::RightBrace),
            ';' => self.make_token(TokenType::Semicolon),
            ',' => self.make_token(TokenType::Comma),
            '.' => self.make_token(TokenType::Dot),
            '-' => self.make_token(TokenType::Minus),
            '+' => self.make_token(TokenType::Plus),
            '/' => self.make_token(TokenType::Slash),
            '*' => self.make_token(TokenType::Star),
            '!' => {
                let typ = if self.matches('=') {
                    TokenType::BangEqual
                } else {
                    TokenType::Bang
                };
                self.make_token(typ)
            },
            '=' => {
                let typ = if self.matches('=') {
                    TokenType::EqualEqual
                } else {
                    TokenType::Equal
                };
                self.make_token(typ)
            },
            '<' => {
                let typ = if self.matches('=') {
                    TokenType::LessEqual
                } else {
                    TokenType::Less
                };
                self.make_token(typ)
            },
            '>' => {
                let typ = if self.matches('=') {
                    TokenType::GreaterEqual
                } else {
                    TokenType::Greater
                };
                self.make_token(typ)
            },
            '"' => self.string(),
            _ => self.error_token("Unexpected character."),
        }
    }

    /// Reads the rest of the source: every token from where the lexer
    /// stands, the end-of-input token last.
    pub fn scan_tokens(&mut self) -> (tokens: Vec<Token>)
        requires
            old(self).wf(),
        ensures
            final(self).wf(),
            final(self).text() == old(self).text(),
            final(self).position() == old(self).text().len(),
            tokens.deep_view() == tokens_from(old(self).text(), old(self).position()),
    {
        let mut tokens: Vec<Token> = Vec::new();
        let ghost src = self.chars@;
        let ghost first = self.current as int;
        loop
            invariant
                self.wf(),
                self.chars@ == src,
                src == old(self).chars@,
                first == old(self).current,
                first <= self.current,
                tokens_from(src, first) == tokens.deep_view() + tokens_from(src, self.current as int),
            decreases self.chars.len() - self.current,
        {
            let ghost before = self.current as int;
            let ghost seen = tokens.deep_view();
            proof {
                lemma_next_token_advances(src, before);
            }
            let token = self.scan_token();
            let done = token.tpe == TokenType::EOF;
            let ghost view = token@;
            tokens.push(token);
            proof {
                assert(tokens.deep_view() =~= seen + seq![view]);
                if !done {
                    assert(tokens_from(src, before) == seq![view] + tokens_from(
                        src,
                        self.current as int,
                    ));
                    assert(seen + (seq![view] + tokens_from(src, self.current as int)) =~= (seen
                        + seq![view]) + tokens_from(src, self.current as int));
                }
            }
            if done {
                return tokens;
            }
        }
    }
}

/// `text` spells `word` exactly when it has the length of `word`, begins
/// as `word` does, and goes on with `rest`, the letters of `word` after the
/// first `skip`.
proof fn lemma_spelling(text: Seq<char>, word: Seq<char>, skip: int, rest: Seq<char>)
    requires
        0 < skip <= word.len(),
        rest =~= word.subrange(skip, word.len() as int),
    ensures
        (text == word) <==> (text.len() == word.len() && text.subrange(0, skip) =~= word.subrange(
            0,
            skip,
        ) && text.subrange(skip, text.len() as int) == rest),
{
    if text.len() == word.len() && text.subrange(0, skip) =~= word.subrange(0, skip)
        && text.subrange(skip, text.len() as int) == rest {
        assert(text =~= text.subrange(0, skip) + text.subrange(skip, text.len() as int));
        assert(word =~= word.subrange(0, skip) + word.subrange(skip, word.len() as int));
    }
}

/// Each reserved word, told by its length, its first letters and the
/// letters that follow them.
proof fn lemma_keyword_letters(text: Seq<char>)
    ensures
        keyword(text) == Some(TokenType::And) <==> (text.len() == 3 && text[0] == 'a'
            && text.subrange(1, 3) == ['n', 'd']@),
        keyword(text) == Some(TokenType::Class) <==> (text.len() == 5 && text[0] == 'c'
            && text.subrange(1, 5) == ['l', 'a', 's', 's']@),
        keyword(text) == Some(TokenType::Else) <==> (text.len() == 4 && text[0] == 'e'
            && text.subrange(1, 4) == ['l', 's', 'e']@),
        keyword(text) == Some(TokenType::False) <==> (text.len() == 5 && text[0] == 'f' && text[1]
            == 'a' && text.subrange(2, 5) == ['l', 's', 'e']@),
        keyword(text) == Some(TokenType::For) <==> (text.len() == 3 && text[0] == 'f' && text[1]
            == 'o' && text.subrange(2, 3) == ['r']@),
        keyword(text) == Some(TokenType::Fun) <==> (text.len() == 3 && text[0] == 'f' && text[1]
            == 'u' && text.subrange(2, 3) == ['n']@),
        keyword(text) == Some(TokenType::If) <==> (text.len() == 2 && text[0] == 'i'
            && text.subrange(1, 2) == ['f']@),
        keyword(text) == Some(TokenType::Nil) <==> (text.len() == 3 && text[0] == 'n'
            && text.subrange(1, 3) == ['i', 'l']@),
        keyword(text) == Some(TokenType::Or) <==> (text.len() == 2 && text[0] == 'o'
            && text.subrange(1, 2) == ['r']@),
        keyword(text) == Some(TokenType::Print) <==> (text.len() == 5 && text[0] == 'p'
            && text.subrange(1, 5) == ['r', 'i', 'n', 't']@),
        keyword(text) == Some(TokenType::Return) <==> (text.len() == 6 && text[0] == 'r'
            && text.subrange(1, 6) == ['e', 't', 'u', 'r', 'n']@),
        keyword(text) == Some(TokenType::Super) <==> (text.len() == 5 && text[0] == 's'
            && text.subrange(1, 5) == ['u', 'p', 'e', 'r']@),
        keyword(text) == Some(TokenType::This) <==> (text.len() == 4 && text[0] == 't' && text[1]
            == 'h' && text.subrange(2, 4) == ['i', 's']@),
        keyword(text) == Some(TokenType::True) <==> (text.len() == 4 && text[0] == 't' && text[1]
            == 'r' && text.subrange(2, 4) == ['u', 'e']@),
        keyword(text) == Some(TokenType::Var) <==> (text.len() == 3 && text[0] == 'v'
            && text.subrange(1, 3) == ['a', 'r']@),
        keyword(text) == Some(TokenType::While) <==> (text.len() == 5 && text[0] == 'w'
            && text.subrange(1, 5) == ['h', 'i', 'l', 'e']@),
{
    lemma_spelling(text, seq!['a', 'n', 'd'], 1, ['n', 'd']@);
    lemma_spelling(text, seq!['c', 'l', 'a', 's', 's'], 1, ['l', 'a', 's', 's']@);
    lemma_spelling(text, seq!['e', 'l', 's', 'e'], 1, ['l', 's', 'e']@);
    lemma_spelling(text, seq!['f', 'a', 'l', 's', 'e'], 2, ['l', 's', 'e']@);
    lemma_spelling(text, seq!['f', 'o', 'r'], 2, ['r']@);
    lemma_spelling(text, seq!['f', 'u', 'n'], 2, ['n']@);
    lemma_spelling(text, seq!['i', 'f'], 1, ['f']@);
    lemma_spelling(text, seq!['n', 'i', 'l'], 1, ['i', 'l']@);
    lemma_spelling(text, seq!['o', 'r'], 1, ['r']@);
    lemma_spelling(text, seq!['p', 'r', 'i', 'n', 't'], 1, ['r', 'i', 'n', 't']@);
    lemma_spelling(text, seq!['r', 'e', 't', 'u', 'r', 'n'], 1, ['e', 't', 'u', 'r', 'n']@);
    lemma_spelling(text, seq!['s', 'u', 'p', 'e', 'r'], 1, ['u', 'p', 'e', 'r']@);
    lemma_spelling(text, seq!['t', 'h', 'i', 's'], 2, ['i', 's']@);
    lemma_spelling(text, seq!['t', 'r', 'u', 'e'], 2, ['u', 'e']@);
    lemma_spelling(text, seq!['v', 'a', 'r'], 1, ['a', 'r']@);
    lemma_spelling(text, seq!['w', 'h', 'i', 'l', 'e'], 1, ['h', 'i', 'l', 'e']@);
    if text.len() >= 1 {
        assert(text.subrange(0, 1) =~= seq![text[0]]);
    }
    if text.len() >= 2 {
        assert(text.subrange(0, 2) =~= seq![text[0], text[1]]);
    }
    assert(seq!['a', 'n', 'd'].subrange(0, 1) =~= seq!['a']);
    assert(seq!['c', 'l', 'a', 's', 's'].subrange(0, 1) =~= seq!['c']);
    assert(seq!['e', 'l', 's', 'e'].subrange(0, 1) =~= seq!['e']);
    assert(seq!['f', 'a', 'l', 's', 'e'].subrange(0, 2) =~= seq!['f', 'a']);
    assert(seq!['f', 'o', 'r'].subrange(0, 2) =~= seq!['f', 'o']);
    assert(seq!['f', 'u', 'n'].subrange(0, 2) =~= seq!['f', 'u']);
    assert(seq!['i', 'f'].subrange(0, 1) =~= seq!['i']);
    assert(seq!['n', 'i', 'l'].subrange(0, 1) =~= seq!['n']);
    assert(seq!['o', 'r'].subrange(0, 1) =~= seq!['o']);
    assert(seq!['p', 'r', 'i', 'n', 't'].subrange(0, 1) =~= seq!['p']);
    assert(seq!['r', 'e', 't', 'u', 'r', 'n'].subrange(0, 1) =~= seq!['r']);
    assert(seq!['s', 'u', 'p', 'e', 'r'].subrange(0, 1) =~= seq!['s']);
    assert(seq!['t', 'h', 'i', 's'].subrange(0, 2) =~= seq!['t', 'h']);
    assert(seq!['t', 'r', 'u', 'e'].subrange(0, 2) =~= seq!['t', 'r']);
    assert(seq!['v', 'a', 'r'].subrange(0, 1) =~= seq!['v']);
    assert(seq!['w', 'h', 'i', 'l', 'e'].subrange(0, 1) =~= seq!['w']);
}

} // verus!
