use vstd::prelude::*;

use crate::chars::{
    alphabetic_char, alphanumeric_char, char_is_alphabetic, char_is_alphanumeric,
    char_is_devanagari_mark, char_is_digit, char_is_whitespace, is_devanagari_mark, is_digit,
    whitespace_char,
};
use crate::text::{chars_of, decimal, push_char, push_decimal};
use crate::token::{token_views, Token, TokenType, TokenView};

verus! {

// ---------------------------------------------------------------------------
// The lexical grammar, over the characters of the source text.
// ---------------------------------------------------------------------------

/// Line and column (both 1-based) of the character at index `j` of `s`.
pub open spec fn position(s: Seq<char>, j: int) -> (nat, nat)
    decreases j,
{
    if j <= 0 {
        (1, 1)
    } else {
        let p = position(s, j - 1);
        if s[j - 1] == '\n' {
            (p.0 + 1, 1)
        } else {
            (p.0, p.1 + 1)
        }
    }
}

/// A token of category `t` and text `v` that starts at index `i` of `s`.
pub open spec fn token_at(t: TokenType, v: Seq<char>, s: Seq<char>, i: int) -> TokenView {
    TokenView { token_type: t, value: v, line: position(s, i).0, column: position(s, i).1 }
}

/// Number of whitespace characters other than newline starting at `i`.
pub open spec fn whitespace_len(s: Seq<char>, i: int) -> nat
    decreases s.len() - i,
{
    if 0 <= i < s.len() && whitespace_char(s[i]) && s[i] != '\n' {
        1 + whitespace_len(s, i + 1)
    } else {
        0
    }
}

/// Number of characters from `i` up to the next newline or the end of the text.
pub open spec fn line_rest_len(s: Seq<char>, i: int) -> nat
    decreases s.len() - i,
{
    if 0 <= i < s.len() && s[i] != '\n' {
        1 + line_rest_len(s, i + 1)
    } else {
        0
    }
}

/// Number of characters from `i` that continue a number literal: digits, and one
/// `.` unless `seen_dot`.
pub open spec fn number_len(s: Seq<char>, i: int, seen_dot: bool) -> nat
    decreases s.len() - i,
{
    if 0 <= i < s.len() && is_digit(s[i]) {
        1 + number_len(s, i + 1, seen_dot)
    } else if 0 <= i < s.len() && s[i] == '.' && !seen_dot {
        1 + number_len(s, i + 1, true)
    } else {
        0
    }
}

/// A number literal starts with a digit, or with a `.` that a digit follows or that
/// follows a digit or `.` (so the second `.` of `1.2.3` or of `1.2.` starts a new
/// number).
pub open spec fn is_number_start(s: Seq<char>, i: int) -> bool {
    0 <= i < s.len() && (is_digit(s[i]) || (s[i] == '.' && (dot_before_digit(s, i)
        || dot_after_number(s, i))))
}

/// A `.` with a digit right after it.
pub open spec fn dot_before_digit(s: Seq<char>, i: int) -> bool {
    i + 1 < s.len() && is_digit(s[i + 1])
}

/// A `.` right after a digit or another `.`, where a number literal before it
/// ended.
pub open spec fn dot_after_number(s: Seq<char>, i: int) -> bool {
    0 < i <= s.len() && (is_digit(s[i - 1]) || s[i - 1] == '.')
}

/// A character that may continue an identifier: a letter or digit, `_`, or a
/// Devanagari combining mark (the virama, for one), so that words of the script
/// stay whole.
pub open spec fn is_ident_char(c: char) -> bool {
    alphanumeric_char(c) || c == '_' || is_devanagari_mark(c)
}

/// A character that may start an identifier.
pub open spec fn is_ident_start(c: char) -> bool {
    alphabetic_char(c) || c == '_'
}

/// Number of identifier characters starting at `i`.
pub open spec fn ident_len(s: Seq<char>, i: int) -> nat
    decreases s.len() - i,
{
    if 0 <= i < s.len() && is_ident_char(s[i]) {
        1 + ident_len(s, i + 1)
    } else {
        0
    }
}

/// The character that an escape `\c` inside a string literal stands for.
pub open spec fn escaped(c: char) -> char {
    if c == 'n' {
        '\n'
    } else if c == 't' {
        '\t'
    } else if c == 'r' {
        '\r'
    } else {
        c
    }
}

/// The body of a string literal whose opening quote stands just before index `i`:
/// the characters it denotes and how many characters, closing quote included, it
/// spans from `i`; `None` where it is unterminated or holds a raw newline.
pub open spec fn string_body(s: Seq<char>, i: int) -> Option<(Seq<char>, nat)>
    decreases s.len() - i,
{
    if !(0 <= i < s.len()) {
        None
    } else if s[i] == '"' {
        Some((Seq::empty(), 1))
    } else if s[i] == '\\' {
        if i + 1 >= s.len() {
            None
        } else {
            match string_body(s, i + 2) {
                Some((v, n)) => Some((seq![escaped(s[i + 1])] + v, n + 2)),
                None => None,
            }
        }
    } else if s[i] == '\n' {
        None
    } else {
        match string_body(s, i + 1) {
            Some((v, n)) => Some((seq![s[i]] + v, n + 1)),
            None => None,
        }
    }
}

/// A character that starts an operator.
pub open spec fn is_operator_start(c: char) -> bool {
    c == '=' || c == '!' || c == '>' || c == '<' || c == '+' || c == '-' || c == '*' || c == '/'
        || c == '%'
}

/// Length of the operator starting at `i`: two where `=`, `!`, `>` or `<` is
/// followed by `=`, else one.
pub open spec fn operator_len(s: Seq<char>, i: int) -> nat {
    if (s[i] == '=' || s[i] == '!' || s[i] == '>' || s[i] == '<') && i + 1 < s.len() && s[i + 1]
        == '=' {
        2
    } else {
        1
    }
}

/// The token category of a one-character delimiter.
pub open spec fn delimiter_type(c: char) -> Option<TokenType> {
    if c == '{' {
        Some(TokenType::LBrace)
    } else if c == '}' {
        Some(TokenType::RBrace)
    } else if c == '(' {
        Some(TokenType::LParen)
    } else if c == ')' {
        Some(TokenType::RParen)
    } else if c == '[' {
        Some(TokenType::LBracket)
    } else if c == ']' {
        Some(TokenType::RBracket)
    } else if c == ',' {
        Some(TokenType::Comma)
    } else if c == ':' {
        Some(TokenType::Colon)
    } else {
        None
    }
}

/// The reserved words of the language.
pub open spec fn keyword_list() -> Seq<Seq<char>> {
    seq![
        "maanau"@, "yedi"@, "bhane"@, "natra"@, "jaba"@, "samma"@, "pratyek"@, "ma"@, "kaam"@,
        "pathau"@, "bhan"@, "sodha"@, "rok"@, "jane"@, "ra"@, "wa"@, "hoina"@, "sahi"@, "galat"@,
        "aayaat"@,
    ]
}

pub open spec fn is_keyword(w: Seq<char>) -> bool {
    keyword_list().contains(w)
}

/// The message for a character that starts no token.
pub open spec fn unexpected_char_message(c: char, line: nat, column: nat) -> Seq<char> {
    "Unexpected character '"@.push(c) + "' at line "@ + decimal(line) + ", column "@ + decimal(
        column,
    )
}

pub open spec fn unterminated_message() -> Seq<char> {
    "Unterminated string literal"@
}

/// `r` with the tokens `p` put in front.
pub open spec fn tokens_prefixed(p: Seq<TokenView>, r: Result<Seq<TokenView>, Seq<char>>) -> Result<
    Seq<TokenView>,
    Seq<char>,
> {
    match r {
        Ok(ts) => Ok(p + ts),
        Err(e) => Err(e),
    }
}

/// The tokens of `s` from index `i` on, ending with the end-of-input token, or the
/// message of the first lexical error.
pub open spec fn lex_from(s: Seq<char>, i: int) -> Result<Seq<TokenView>, Seq<char>>
    decreases if 0 <= i < s.len() { s.len() - i } else { 0 },
{
    if i < 0 || i >= s.len() {
        Ok(seq![token_at(TokenType::EOF, Seq::empty(), s, s.len() as int)])
    } else {
        let c = s[i];
        if whitespace_char(c) && c != '\n' {
            lex_from(s, i + 1 + whitespace_len(s, i + 1))
        } else if c == '\n' {
            tokens_prefixed(seq![token_at(TokenType::Newline, seq!['\n'], s, i)], lex_from(s, i + 1))
        } else if c == '/' && i + 1 < s.len() && s[i + 1] == '/' {
            lex_from(s, i + 2 + line_rest_len(s, i + 2))
        } else if c == '"' {
            match string_body(s, i + 1) {
                None => Err(unterminated_message()),
                Some((v, n)) => tokens_prefixed(
                    seq![token_at(TokenType::String, v, s, i)],
                    lex_from(s, i + 1 + n),
                ),
            }
        } else if is_number_start(s, i) {
            let e = i + 1 + number_len(s, i + 1, c == '.');
            tokens_prefixed(seq![token_at(TokenType::Number, s.subrange(i, e), s, i)], lex_from(s, e))
        } else if is_ident_start(c) {
            let e = i + 1 + ident_len(s, i + 1);
            let w = s.subrange(i, e);
            let t = if is_keyword(w) {
                TokenType::Keyword
            } else {
                TokenType::Identifier
            };
            tokens_prefixed(seq![token_at(t, w, s, i)], lex_from(s, e))
        } else if is_operator_start(c) {
            let e = i + operator_len(s, i);
            tokens_prefixed(
                seq![token_at(TokenType::Operator, s.subrange(i, e), s, i)],
                lex_from(s, e),
            )
        } else if delimiter_type(c) is Some {
            tokens_prefixed(
                seq![token_at(delimiter_type(c)->0, seq![c], s, i)],
                lex_from(s, i + 1),
            )
        } else {
            Err(unexpected_char_message(c, position(s, i).0, position(s, i).1))
        }
    }
}

/// The tokens of a whole source text.
pub open spec fn tokens_of(s: Seq<char>) -> Result<Seq<TokenView>, Seq<char>> {
    lex_from(s, 0)
}

pub proof fn lemma_position_bounds(s: Seq<char>, j: int)
    requires
        0 <= j,
    ensures
        1 <= position(s, j).0 <= j + 1,
        1 <= position(s, j).1 <= j + 1,
    decreases j,
{
    if j > 0 {
        lemma_position_bounds(s, j - 1);
    }
}

proof fn lemma_tokens_prefixed_assoc(
    p: Seq<TokenView>,
    q: Seq<TokenView>,
    r: Result<Seq<TokenView>, Seq<char>>,
)
    ensures
        tokens_prefixed(p, tokens_prefixed(q, r)) == tokens_prefixed(p + q, r),
{
    if let Ok(ts) = r {
        assert(p + (q + ts) =~= (p + q) + ts);
    }
}

// ---------------------------------------------------------------------------
// The lexer.
// ---------------------------------------------------------------------------

/// Turns source text into tokens.
pub struct Lexer {
    code: Vec<char>,
    pos: usize,
    line: usize,
    column: usize,
    keywords: Vec<String>,
}

impl Lexer {
    /// The text being lexed.
    pub closed spec fn source(&self) -> Seq<char> {
        self.code@
    }

    /// Index of the next character to read.
    pub closed spec fn offset(&self) -> int {
        self.pos as int
    }

    pub closed spec fn wf(&self) -> bool {
        &&& self.pos <= self.code.len() < usize::MAX
        &&& position(self.code@, self.pos as int) == (self.line as nat, self.column as nat)
        &&& self.keywords@.map_values(|k: String| k@) == keyword_list()
    }

    pub fn new(code: String) -> (r: Lexer)
        requires
            code@.len() < usize::MAX,
        ensures
            r.wf(),
            r.source() == code@,
            r.offset() == 0,
    {
        let chars = chars_of(code.as_str());
        let mut keywords: Vec<String> = Vec::new();
        keywords.push(String::from_str("maanau"));
        keywords.push(String::from_str("yedi"));
        keywords.push(String::from_str("bhane"));
        keywords.push(String::from_str("natra"));
        keywords.push(String::from_str("jaba"));
        keywords.push(String::from_str("samma"));
        keywords.push(String::from_str("pratyek"));
        keywords.push(String::from_str("ma"));
        keywords.push(String::from_str("kaam"));
        keywords.push(String::from_str("pathau"));
        keywords.push(String::from_str("bhan"));
        keywords.push(String::from_str("sodha"));
        keywords.push(String::from_str("rok"));
        keywords.push(String::from_str("jane"));
        keywords.push(String::from_str("ra"));
        keywords.push(String::from_str("wa"));
        keywords.push(String::from_str("hoina"));
        keywords.push(String::from_str("sahi"));
        keywords.push(String::from_str("galat"));
        keywords.push(String::from_str("aayaat"));
        assert(keywords@.map_values(|k: String| k@) =~= keyword_list());
        Lexer { code: chars, pos: 0, line: 1, column: 1, keywords }
    }

    fn advance(&mut self)
        requires
            old(self).wf(),
            old(self).pos < old(self).code.len(),
        ensures
            final(self).wf(),
            final(self).pos == old(self).pos + 1,
            final(self).code == old(self).code,
            final(self).keywords == old(self).keywords,
    {
        proof {
            lemma_position_bounds(self.code@, self.pos as int);
        }
        if self.code[self.pos] == '\n' {
            self.line = self.line + 1;
            self.column = 1;
        } else {
            self.column = self.column + 1;
        }
        self.pos = self.pos + 1;
    }

    fn peek(&self) -> (r: Option<char>)
        requires
            self.wf(),
        ensures
            self.pos + 1 < self.code.len() ==> r == Some(self.code@[self.pos + 1]),
            self.pos + 1 >= self.code.len() ==> r is None,
    {
        if self.pos + 1 < self.code.len() {
            Some(self.code[self.pos + 1])
        } else {
            None
        }
    }
}


proof fn lemma_subrange_push(s: Seq<char>, a: int, b: int)
    requires
        0 <= a <= b < s.len(),
    ensures
        s.subrange(a, b).push(s[b]) == s.subrange(a, b + 1),
{
    assert(s.subrange(a, b).push(s[b]) =~= s.subrange(a, b + 1));
}

impl Lexer {
    /// Skips whitespace other than newline, starting at such a character.
    fn skip_whitespace(&mut self)
        requires
            old(self).wf(),
            old(self).pos < old(self).code.len(),
            whitespace_char(old(self).code@[old(self).pos as int]),
            old(self).code@[old(self).pos as int] != '\n',
        ensures
            final(self).wf(),
            final(self).pos == old(self).pos + 1 + whitespace_len(old(self).code@, old(self).pos + 1),
            final(self).code == old(self).code,
            final(self).keywords == old(self).keywords,
    {
        let ghost start = self.pos as int;
        let ghost s = self.code@;
        self.advance();
        while self.pos < self.code.len()
            invariant
                self.wf(),
                self.code@ == s,
                start == old(self).pos,
                self.code == old(self).code,
                self.keywords == old(self).keywords,
                start < self.pos,
                start + 1 + whitespace_len(s, start + 1) == self.pos + whitespace_len(
                    s,
                    self.pos as int,
                ),
            ensures
                self.wf(),
                self.code == old(self).code,
                self.keywords == old(self).keywords,
                self.pos == start + 1 + whitespace_len(s, start + 1),
            decreases self.code.len() - self.pos,
        {
            let ch = self.code[self.pos];
            if !(char_is_whitespace(ch) && ch != '\n') {
                break;
            }
            self.advance();
        }
    }

    /// Skips a `//` comment up to the end of its line.
    fn skip_comment(&mut self)
        requires
            old(self).wf(),
            old(self).pos + 1 < old(self).code.len(),
            old(self).code@[old(self).pos as int] == '/',
            old(self).code@[old(self).pos + 1] == '/',
        ensures
            final(self).wf(),
            final(self).pos == old(self).pos + 2 + line_rest_len(old(self).code@, old(self).pos + 2),
            final(self).code == old(self).code,
            final(self).keywords == old(self).keywords,
    {
        let ghost start = self.pos as int;
        let ghost s = self.code@;
        assert(line_rest_len(s, start + 1) == 1 + line_rest_len(s, start + 2));
        assert(line_rest_len(s, start) == 1 + line_rest_len(s, start + 1));
        while self.pos < self.code.len()
            invariant
                self.wf(),
                self.code@ == s,
                start == old(self).pos,
                self.code == old(self).code,
                self.keywords == old(self).keywords,
                start <= self.pos,
                start + 2 + line_rest_len(s, start + 2) == self.pos + line_rest_len(
                    s,
                    self.pos as int,
                ),
            ensures
                self.wf(),
                self.code == old(self).code,
                self.keywords == old(self).keywords,
                self.pos == start + 2 + line_rest_len(s, start + 2),
            decreases self.code.len() - self.pos,
        {
            if self.code[self.pos] == '\n' {
                break;
            }
            self.advance();
        }
    }

    /// Reads a number literal: digits with at most one `.`.
    fn read_number(&mut self) -> (r: String)
        requires
            old(self).wf(),
            old(self).pos < old(self).code.len(),
            is_digit(old(self).code@[old(self).pos as int]) || old(self).code@[old(self).pos as int]
                == '.',
        ensures
            final(self).wf(),
            final(self).pos == old(self).pos + 1 + number_len(
                old(self).code@,
                old(self).pos + 1,
                old(self).code@[old(self).pos as int] == '.',
            ),
            r@ == old(self).code@.subrange(old(self).pos as int, final(self).pos as int),
            final(self).code == old(self).code,
            final(self).keywords == old(self).keywords,
    {
        let ghost start = self.pos as int;
        let ghost s = self.code@;
        let mut number = String::new();
        let mut has_dot = false;
        while self.pos < self.code.len()
            invariant
                self.wf(),
                self.code@ == s,
                start == old(self).pos,
                self.code == old(self).code,
                self.keywords == old(self).keywords,
                start <= self.pos,
                start + 1 + number_len(s, start + 1, s[start] == '.') == self.pos + number_len(
                    s,
                    self.pos as int,
                    has_dot,
                ),
                number@ == s.subrange(start, self.pos as int),
            ensures
                self.wf(),
                self.code == old(self).code,
                self.keywords == old(self).keywords,
                self.pos == start + 1 + number_len(s, start + 1, s[start] == '.'),
                number@ == s.subrange(start, self.pos as int),
            decreases self.code.len() - self.pos,
        {
            let ch = self.code[self.pos];
            if char_is_digit(ch) {
            } else if ch == '.' && !has_dot {
                has_dot = true;
            } else {
                break;
            }
            push_char(&mut number, ch);
            proof {
                lemma_subrange_push(s, start, self.pos as int);
            }
            self.advance();
        }
        number
    }

    /// Reads an identifier or keyword spelling.
    fn read_identifier(&mut self) -> (r: String)
        requires
            old(self).wf(),
            old(self).pos < old(self).code.len(),
            is_ident_start(old(self).code@[old(self).pos as int]),
        ensures
            final(self).wf(),
            final(self).pos == old(self).pos + 1 + ident_len(old(self).code@, old(self).pos + 1),
            r@ == old(self).code@.subrange(old(self).pos as int, final(self).pos as int),
            final(self).code == old(self).code,
            final(self).keywords == old(self).keywords,
    {
        let ghost start = self.pos as int;
        let ghost s = self.code@;
        let mut identifier = String::new();
        while self.pos < self.code.len()
            invariant
                self.wf(),
                self.code@ == s,
                start == old(self).pos,
                self.code == old(self).code,
                self.keywords == old(self).keywords,
                start <= self.pos,
                start + 1 + ident_len(s, start + 1) == self.pos + ident_len(s, self.pos as int),
                identifier@ == s.subrange(start, self.pos as int),
            ensures
                self.wf(),
                self.code == old(self).code,
                self.keywords == old(self).keywords,
                self.pos == start + 1 + ident_len(s, start + 1),
                identifier@ == s.subrange(start, self.pos as int),
            decreases self.code.len() - self.pos,
        {
            let ch = self.code[self.pos];
            if !(char_is_alphanumeric(ch) || ch == '_' || char_is_devanagari_mark(ch)) {
                break;
            }
            push_char(&mut identifier, ch);
            proof {
                lemma_subrange_push(s, start, self.pos as int);
            }
            self.advance();
        }
        identifier
    }

    /// Reads a string literal from its opening quote.
    fn read_string(&mut self) -> (r: Result<String, String>)
        requires
            old(self).wf(),
            old(self).pos < old(self).code.len(),
            old(self).code@[old(self).pos as int] == '"',
        ensures
            final(self).wf(),
            final(self).code == old(self).code,
            final(self).keywords == old(self).keywords,
            match string_body(old(self).code@, old(self).pos + 1) {
                Some((v, n)) => r is Ok && r->Ok_0@ == v && final(self).pos == old(self).pos + 1 + n,
                None => r is Err && r->Err_0@ == unterminated_message(),
            },
    {
        let ghost start = self.pos as int;
        let ghost s = self.code@;
        let mut string = String::new();
        self.advance();
        while self.pos < self.code.len()
            invariant
                self.wf(),
                self.code@ == s,
                start == old(self).pos,
                self.code == old(self).code,
                self.keywords == old(self).keywords,
                start < self.pos,
                match string_body(s, self.pos as int) {
                    Some((v, n)) => string_body(s, start + 1) == Some(
                        (string@ + v, (self.pos - (start + 1) + n) as nat),
                    ),
                    None => string_body(s, start + 1) is None,
                },
            decreases self.code.len() - self.pos,
        {
            let ghost i = self.pos as int;
            let ch = self.code[self.pos];
            if ch == '"' {
                self.advance();
                assert(string@ + Seq::empty() =~= string@);
                return Ok(string);
            } else if ch == '\\' {
                self.advance();
                if self.pos >= self.code.len() {
                    return Err(String::from_str("Unterminated string literal"));
                }
                let e = self.code[self.pos];
                let c = if e == 'n' {
                    '\n'
                } else if e == 't' {
                    '\t'
                } else if e == 'r' {
                    '\r'
                } else {
                    e
                };
                let ghost prev = string@;
                push_char(&mut string, c);
                self.advance();
                proof {
                    if let Some((v, n)) = string_body(s, i + 2) {
                        assert(string@ + v =~= prev + (seq![c] + v));
                    }
                }
            } else if ch == '\n' {
                return Err(String::from_str("Unterminated string literal"));
            } else {
                let ghost prev = string@;
                push_char(&mut string, ch);
                self.advance();
                proof {
                    if let Some((v, n)) = string_body(s, i + 1) {
                        assert(string@ + v =~= prev + (seq![ch] + v));
                    }
                }
            }
        }
        Err(String::from_str("Unterminated string literal"))
    }
}


proof fn lemma_push_token(ts: Seq<Token>, t: Token, r: Result<Seq<TokenView>, Seq<char>>)
    ensures
        tokens_prefixed(token_views(ts), tokens_prefixed(seq![t@], r)) == tokens_prefixed(
            token_views(ts.push(t)),
            r,
        ),
{
    lemma_tokens_prefixed_assoc(token_views(ts), seq![t@], r);
    assert(token_views(ts) + seq![t@] =~= token_views(ts.push(t)));
}

/// The token category of a one-character delimiter.
fn delimiter_of(c: char) -> (r: Option<TokenType>)
    ensures
        r == delimiter_type(c),
{
    if c == '{' {
        Some(TokenType::LBrace)
    } else if c == '}' {
        Some(TokenType::RBrace)
    } else if c == '(' {
        Some(TokenType::LParen)
    } else if c == ')' {
        Some(TokenType::RParen)
    } else if c == '[' {
        Some(TokenType::LBracket)
    } else if c == ']' {
        Some(TokenType::RBracket)
    } else if c == ',' {
        Some(TokenType::Comma)
    } else if c == ':' {
        Some(TokenType::Colon)
    } else {
        None
    }
}

fn is_operator_char(c: char) -> (r: bool)
    ensures
        r == is_operator_start(c),
{
    c == '=' || c == '!' || c == '>' || c == '<' || c == '+' || c == '-' || c == '*' || c == '/'
        || c == '%'
}

/// The message for a character that starts no token.
fn unexpected_char_error(c: char, line: usize, column: usize) -> (r: String)
    ensures
        r@ == unexpected_char_message(c, line as nat, column as nat),
{
    let mut m = String::from_str("Unexpected character '");
    push_char(&mut m, c);
    m.append("' at line ");
    push_decimal(&mut m, line);
    m.append(", column ");
    push_decimal(&mut m, column);
    m
}

impl Lexer {
    /// Reads an operator, taking a following `=` where it forms `==`, `!=`, `>=` or `<=`.
    fn read_operator(&mut self) -> (r: String)
        requires
            old(self).wf(),
            old(self).pos < old(self).code.len(),
            is_operator_start(old(self).code@[old(self).pos as int]),
        ensures
            final(self).wf(),
            final(self).pos == old(self).pos + operator_len(old(self).code@, old(self).pos as int),
            r@ == old(self).code@.subrange(old(self).pos as int, final(self).pos as int),
            final(self).code == old(self).code,
            final(self).keywords == old(self).keywords,
    {
        let ghost s = self.code@;
        let ghost start = self.pos as int;
        let ch = self.code[self.pos];
        let mut operator = String::new();
        push_char(&mut operator, ch);
        self.advance();
        assert(operator@ =~= s.subrange(start, start + 1));
        if (ch == '=' || ch == '!' || ch == '>' || ch == '<') && self.pos < self.code.len()
            && self.code[self.pos] == '=' {
            push_char(&mut operator, '=');
            self.advance();
            assert(operator@ =~= s.subrange(start, start + 2));
        }
        operator
    }

    /// Whether `w` is one of the reserved words.
    fn is_keyword(&self, w: &String) -> (r: bool)
        requires
            self.wf(),
        ensures
            r == is_keyword(w@),
    {
        let mut i: usize = 0;
        while i < self.keywords.len()
            invariant
                self.wf(),
                i <= self.keywords.len(),
                forall|j: int| 0 <= j < i ==> keyword_list()[j] != w@,
            decreases self.keywords.len() - i,
        {
            assert(self.keywords@.map_values(|k: String| k@)[i as int] == self.keywords@[i as int]@);
            if self.keywords[i] == *w {
                return true;
            }
            i = i + 1;
        }
        assert(self.keywords@.map_values(|k: String| k@).len() == self.keywords@.len());
        false
    }

    /// Whether the character before the current one is a digit or a `.`.
    fn follows_number(&self) -> (r: bool)
        requires
            self.wf(),
        ensures
            r == (0 < self.pos <= self.code.len() && (is_digit(self.code@[self.pos - 1])
                || self.code@[self.pos - 1] == '.')),
    {
        self.pos > 0 && (char_is_digit(self.code[self.pos - 1]) || self.code[self.pos - 1] == '.')
    }

    /// Whether the character after the current one is a digit.
    fn next_is_digit(&self) -> (r: bool)
        requires
            self.wf(),
        ensures
            r == (self.pos + 1 < self.code.len() && is_digit(self.code@[self.pos + 1])),
    {
        match self.peek() {
            Some(n) => char_is_digit(n),
            None => false,
        }
    }

    /// Whether the character after the current one is `c`.
    fn next_is(&self, c: char) -> (r: bool)
        requires
            self.wf(),
        ensures
            r == (self.pos + 1 < self.code.len() && self.code@[self.pos + 1] == c),
    {
        match self.peek() {
            Some(n) => n == c,
            None => false,
        }
    }

    /// Splits the rest of the text into tokens, ending with an end-of-input token.
    pub fn tokenize(&mut self) -> (r: Result<Vec<Token>, String>)
        requires
            old(self).wf(),
        ensures
            final(self).wf(),
            final(self).source() == old(self).source(),
            match r {
                Ok(ts) => lex_from(old(self).source(), old(self).offset()) == Ok::<
                    Seq<TokenView>,
                    Seq<char>,
                >(token_views(ts@)),
                Err(e) => lex_from(old(self).source(), old(self).offset()) == Err::<
                    Seq<TokenView>,
                    Seq<char>,
                >(e@),
            },
    {
        let ghost s = self.code@;
        let ghost start = self.pos as int;
        let mut tokens: Vec<Token> = Vec::new();
        assert(token_views(tokens@) =~= Seq::<TokenView>::empty());
        proof {
            match lex_from(s, start) {
                Ok(ts) => {
                    assert(Seq::<TokenView>::empty() + ts =~= ts);
                },
                Err(_) => {},
            }
        }
        while self.pos < self.code.len()
            invariant
                self.wf(),
                self.code@ == s,
                start == old(self).pos,
                self.code == old(self).code,
                self.keywords == old(self).keywords,
                lex_from(s, start) == tokens_prefixed(token_views(tokens@), lex_from(s, self.pos as int)),
            decreases self.code.len() - self.pos,
        {
            let ghost i = self.pos as int;
            let ghost before = tokens@;
            let ch = self.code[self.pos];
            let token_line = self.line;
            let token_column = self.column;
            if char_is_whitespace(ch) && ch != '\n' {
                self.skip_whitespace();
            } else if ch == '\n' {
                let mut v = String::new();
                push_char(&mut v, '\n');
                let t = Token::new(TokenType::Newline, v, token_line, token_column);
                assert(t@ == token_at(TokenType::Newline, seq!['\n'], s, i));
                tokens.push(t);
                self.advance();
                proof {
                    lemma_push_token(before, t, lex_from(s, i + 1));
                }
            } else if ch == '/' && self.next_is('/') {
                self.skip_comment();
            } else if ch == '"' {
                match self.read_string() {
                    Ok(v) => {
                        let t = Token::new(TokenType::String, v, token_line, token_column);
                        tokens.push(t);
                        proof {
                            lemma_push_token(before, t, lex_from(s, self.pos as int));
                        }
                    },
                    Err(e) => {
                        return Err(e);
                    },
                }
            } else if char_is_digit(ch) || (ch == '.' && (self.next_is_digit()
                || self.follows_number())) {
                let v = self.read_number();
                let t = Token::new(TokenType::Number, v, token_line, token_column);
                tokens.push(t);
                proof {
                    lemma_push_token(before, t, lex_from(s, self.pos as int));
                }
            } else if char_is_alphabetic(ch) || ch == '_' {
                let w = self.read_identifier();
                let tt = if self.is_keyword(&w) {
                    TokenType::Keyword
                } else {
                    TokenType::Identifier
                };
                let t = Token::new(tt, w, token_line, token_column);
                tokens.push(t);
                proof {
                    lemma_push_token(before, t, lex_from(s, self.pos as int));
                }
            } else if is_operator_char(ch) {
                let v = self.read_operator();
                let t = Token::new(TokenType::Operator, v, token_line, token_column);
                tokens.push(t);
                proof {
                    lemma_push_token(before, t, lex_from(s, self.pos as int));
                }
            } else {
                match delimiter_of(ch) {
                    Some(tt) => {
                        let mut v = String::new();
                        push_char(&mut v, ch);
                        let t = Token::new(tt, v, token_line, token_column);
                        tokens.push(t);
                        self.advance();
                        proof {
                            lemma_push_token(before, t, lex_from(s, i + 1));
                        }
                    },
                    None => {
                        return Err(unexpected_char_error(ch, token_line, token_column));
                    },
                }
            }
        }
        let ghost prev = tokens@;
        let t = Token::new(TokenType::EOF, String::new(), self.line, self.column);
        assert(t@ == token_at(TokenType::EOF, Seq::empty(), s, s.len() as int));
        assert(lex_from(s, self.pos as int) == Ok::<Seq<TokenView>, Seq<char>>(seq![t@]));
        tokens.push(t);
        assert(token_views(prev) + seq![t@] =~= token_views(tokens@));
        Ok(tokens)
    }
}

} // verus!
