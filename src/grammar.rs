//! Tokenizer and parser of the protobuf subset that declares packages,
//! services and enums.
use vstd::prelude::*;
use vstd::std_specs::iter::IteratorSpec;

verus! {

broadcast use vstd::string::axiom_spec_iter;

/// Token kinds of the subset.
#[derive(Clone, Copy, PartialEq, Eq, Structural, Debug)]
pub enum TokenKind {
    /// Initial token of a fresh analyzer.
    Start,
    /// Marker placed after the last token.
    End,
    Package,
    Service,
    Rpc,
    Returns,
    Enum,
    Identifier,
    Number(u8),
    Equal,
    LeftParenthesis,
    RightParenthesis,
    LeftBrace,
    RightBrace,
    Semicolon,
}

/// A token: its kind, and the name of an identifier.
#[derive(Clone, Debug)]
pub struct Token {
    pub kind: TokenKind,
    pub value: Option<String>,
}

/// Why a definition could not be tokenized or parsed.
#[derive(Clone, Copy, PartialEq, Eq, Structural, Debug)]
pub enum SyntaxError {
    /// A character that starts no token.
    UnrecognizedCharacter(char),
    /// A number that does not fit in a byte.
    NumberTooLarge,
    /// A token of another kind than the grammar asks for.
    Unexpected { expected: TokenKind, found: TokenKind },
    /// A definition that is neither a package, a service nor an enum.
    UnexpectedStatement,
}

/// The white space characters of Unicode.
pub open spec fn is_white_space(c: char) -> bool {
    ||| ('\t' <= c && c <= '\r')
    ||| c == ' '
    ||| c == '\u{85}'
    ||| c == '\u{a0}'
    ||| c == '\u{1680}'
    ||| ('\u{2000}' <= c && c <= '\u{200a}')
    ||| c == '\u{2028}'
    ||| c == '\u{2029}'
    ||| c == '\u{202f}'
    ||| c == '\u{205f}'
    ||| c == '\u{3000}'
}

pub open spec fn is_digit(c: char) -> bool {
    '0' <= c && c <= '9'
}

pub open spec fn is_alphabetic(c: char) -> bool {
    ('a' <= c && c <= 'z') || ('A' <= c && c <= 'Z')
}

pub open spec fn is_upper(c: char) -> bool {
    'A' <= c && c <= 'Z'
}

pub open spec fn is_lower(c: char) -> bool {
    'a' <= c && c <= 'z'
}

/// A character that may continue an identifier.
pub open spec fn is_identifier_char(c: char) -> bool {
    is_alphabetic(c) || is_digit(c) || c == '_' || c == '.'
}

pub open spec fn to_lower(c: char) -> char {
    if is_upper(c) {
        (((c as u8) + 32) as u8) as char
    } else {
        c
    }
}

/// What the character at `i > 0` of a camel-case name contributes to its
/// snake-case form: an uppercase letter followed by a lowercase letter starts
/// a new word (`_` then the lowered letter), any other uppercase letter is
/// lowered, and every other character is kept.
pub open spec fn snake_piece(s: Seq<char>, i: int) -> Seq<char> {
    if is_upper(s[i]) {
        if i + 1 < s.len() && is_lower(s[i + 1]) {
            seq!['_', to_lower(s[i])]
        } else {
            seq![to_lower(s[i])]
        }
    } else {
        seq![s[i]]
    }
}

/// The snake-case form of the first `n` characters of a camel-case name: its
/// first character lowered, then the contribution of each later character.
pub open spec fn snake_prefix(s: Seq<char>, n: int) -> Seq<char>
    decreases n,
{
    if n <= 1 {
        seq![to_lower(s[0])]
    } else {
        snake_prefix(s, n - 1) + snake_piece(s, n - 1)
    }
}

/// The snake-case form of a camel-case name.
pub open spec fn snake_case(s: Seq<char>) -> Seq<char> {
    snake_prefix(s, s.len() as int)
}

/// The value of a decimal digit.
pub open spec fn digit_value(c: char) -> int {
    (c as u32) - ('0' as u32)
}

/// The first position at or after `i` whose character is not white space.
pub open spec fn skip_spaces(s: Seq<char>, i: int) -> int
    decreases s.len() - i,
{
    if i < 0 || i >= s.len() || !is_white_space(s[i]) {
        i
    } else {
        skip_spaces(s, i + 1)
    }
}

/// The end of `s[..j]` once trailing white space is dropped.
pub open spec fn trim_end(s: Seq<char>, j: int) -> int
    decreases j,
{
    if j <= 0 || j > s.len() || !is_white_space(s[j - 1]) {
        j
    } else {
        trim_end(s, j - 1)
    }
}

/// `s` without its leading and trailing white space.
pub open spec fn trimmed(s: Seq<char>) -> Seq<char> {
    let a = skip_spaces(s, 0);
    let b = trim_end(s, s.len() as int);
    if a >= b {
        Seq::empty()
    } else {
        s.subrange(a, b)
    }
}

/// The end of the identifier that starts at `i`.
pub open spec fn identifier_end(s: Seq<char>, i: int) -> int
    decreases s.len() - i,
{
    if i < 0 || i >= s.len() || !is_identifier_char(s[i]) {
        i
    } else {
        identifier_end(s, i + 1)
    }
}

/// The end of the run of digits that starts at `i`.
pub open spec fn digits_end(s: Seq<char>, i: int) -> int
    decreases s.len() - i,
{
    if i < 0 || i >= s.len() || !is_digit(s[i]) {
        i
    } else {
        digits_end(s, i + 1)
    }
}

/// The decimal value of the digits `s[i..j]`.
pub open spec fn decimal(s: Seq<char>, i: int, j: int) -> int
    decreases j - i,
{
    if j <= i {
        0
    } else {
        decimal(s, i, j - 1) * 10 + digit_value(s[j - 1])
    }
}

/// The kind of the token that the word `w` makes.
pub open spec fn word_kind(w: Seq<char>) -> TokenKind {
    if w == "package"@ {
        TokenKind::Package
    } else if w == "service"@ {
        TokenKind::Service
    } else if w == "rpc"@ {
        TokenKind::Rpc
    } else if w == "returns"@ {
        TokenKind::Returns
    } else if w == "enum"@ {
        TokenKind::Enum
    } else {
        TokenKind::Identifier
    }
}

/// The kind of the token made of the single character `c`, if any.
pub open spec fn punctuation_kind(c: char) -> Option<TokenKind> {
    if c == '(' {
        Some(TokenKind::LeftParenthesis)
    } else if c == ')' {
        Some(TokenKind::RightParenthesis)
    } else if c == '{' {
        Some(TokenKind::LeftBrace)
    } else if c == '}' {
        Some(TokenKind::RightBrace)
    } else if c == ';' {
        Some(TokenKind::Semicolon)
    } else if c == '=' {
        Some(TokenKind::Equal)
    } else {
        None
    }
}

/// The outcome of reading one token: its kind, the name it carries (for an
/// identifier) and the position after it; or the error.
pub enum Lexed {
    Read(TokenKind, Option<Seq<char>>, int),
    Failed(SyntaxError),
}

/// The token that starts at or after position `c` of `s`, skipping white
/// space: `End` once the input is exhausted, a keyword or identifier, a
/// number that fits in a byte, or a punctuation mark.
pub open spec fn lex(s: Seq<char>, c: int) -> Lexed {
    let p = skip_spaces(s, c);
    if p >= s.len() {
        Lexed::Read(TokenKind::End, None, p)
    } else if is_alphabetic(s[p]) {
        let e = identifier_end(s, p);
        let w = s.subrange(p, e);
        Lexed::Read(word_kind(w), if word_kind(w) == TokenKind::Identifier { Some(w) } else { None }, e)
    } else if is_digit(s[p]) {
        let e = digits_end(s, p);
        let n = decimal(s, p, e);
        if n < 256 {
            Lexed::Read(TokenKind::Number(n as u8), None, e)
        } else {
            Lexed::Failed(SyntaxError::NumberTooLarge)
        }
    } else {
        match punctuation_kind(s[p]) {
            Some(k) => Lexed::Read(k, None, p + 1),
            None => Lexed::Failed(SyntaxError::UnrecognizedCharacter(s[p])),
        }
    }
}

/// The token read after `n` further tokens from position `c`.
pub open spec fn lex_after(s: Seq<char>, c: int, n: nat) -> Lexed
    decreases n,
{
    if n == 0 {
        lex(s, c)
    } else {
        match lex(s, c) {
            Lexed::Read(_, _, e) => lex_after(s, e, (n - 1) as nat),
            Lexed::Failed(x) => Lexed::Failed(x),
        }
    }
}

/// The characters of an optional name.
pub open spec fn name_view(o: Option<String>) -> Option<Seq<char>> {
    match o {
        Some(v) => Some(v@),
        None => None,
    }
}

/// `r` is the token that `l` reads, and `cursor` stands after it.
pub open spec fn lexed(l: Lexed, r: Result<Token, SyntaxError>, cursor: int) -> bool {
    match l {
        Lexed::Read(k, v, e) => r matches Ok(t) && t.kind == k && name_view(t.value) == v && cursor == e,
        Lexed::Failed(x) => r == Err::<Token, SyntaxError>(x),
    }
}

/// `l` reads a token of kind `k`.
pub open spec fn reads(l: Lexed, k: TokenKind) -> bool {
    l matches Lexed::Read(lk, _, _) && lk == k
}

/// The name that `l` reads (for an identifier).
pub open spec fn read_name(l: Lexed) -> Seq<char> {
    match l {
        Lexed::Read(_, Some(v), _) => v,
        _ => Seq::empty(),
    }
}

/// The token that a word makes: a reserved keyword, or an identifier that
/// keeps the word as its value.
pub open spec fn word_token_ok(w: Seq<char>, t: Token) -> bool {
    &&& t.kind == word_kind(w)
    &&& t.kind == TokenKind::Identifier ==> (t.value matches Some(v) && v@ == w)
    &&& t.kind != TokenKind::Identifier ==> t.value is None
}

/// The characters of a string, in order.
fn chars_of(s: &str) -> (r: Vec<char>)
    ensures
        r@ == s@,
{
    let mut it = s.chars();
    let mut out: Vec<char> = Vec::new();
    loop
        invariant
            out@ + it.remaining() == s@,
            it.decrease() is Some,
        ensures
            out@ == s@,
        decreases it.decrease()->0,
    {
        match it.next() {
            Some(c) => {
                out.push(c);
                assert(out@ + it.remaining() =~= s@);
            },
            None => {
                assert(out@ =~= s@);
                break;
            },
        }
    }
    out
}

/// Relies on `String::push`: appends one character.
#[verifier::external_body]
fn push_char(s: &mut String, c: char)
    ensures
        final(s)@ == old(s)@.push(c),
{
    s.push(c)
}

fn lower(c: char) -> (r: char)
    ensures
        r == to_lower(c),
{
    if 'A' <= c && c <= 'Z' {
        ((c as u8) + 32) as char
    } else {
        c
    }
}

/// Converts a camel-case name (`OrderService`) into snake case (`order_service`).
pub fn camel_to_snake(camel: &str) -> (r: String)
    requires
        camel@.len() > 0,
    ensures
        r@ == snake_case(camel@),
{
    let chars = chars_of(camel);
    let mut snake = String::new();
    push_char(&mut snake, lower(chars[0]));
    let mut i: usize = 1;
    while i < chars.len()
        invariant
            1 <= i <= chars@.len(),
            chars@ == camel@,
            snake@ == snake_prefix(chars@, i as int),
        decreases chars@.len() - i,
    {
        let ch = chars[i];
        if 'A' <= ch && ch <= 'Z' {
            if i + 1 < chars.len() && 'a' <= chars[i + 1] && chars[i + 1] <= 'z' {
                push_char(&mut snake, '_');
                push_char(&mut snake, lower(ch));
                assert(snake@ =~= snake_prefix(chars@, i as int) + snake_piece(chars@, i as int));
            } else {
                push_char(&mut snake, lower(ch));
                assert(snake@ =~= snake_prefix(chars@, i as int) + snake_piece(chars@, i as int));
            }
        } else {
            push_char(&mut snake, ch);
            assert(snake@ =~= snake_prefix(chars@, i as int) + snake_piece(chars@, i as int));
        }
        i = i + 1;
    }
    snake
}

/// Whether `c` is white space.
pub fn white_space(c: char) -> (r: bool)
    ensures
        r == is_white_space(c),
{
    ('\t' <= c && c <= '\r') || c == ' ' || c == '\u{85}' || c == '\u{a0}' || c == '\u{1680}' || ('\u{2000}' <= c
        && c <= '\u{200a}') || c == '\u{2028}' || c == '\u{2029}' || c == '\u{202f}' || c == '\u{205f}' || c
        == '\u{3000}'
}

/// Whether `c` may continue an identifier.
pub fn identifier_char(c: char) -> (r: bool)
    ensures
        r == is_identifier_char(c),
{
    ('a' <= c && c <= 'z') || ('A' <= c && c <= 'Z') || ('0' <= c && c <= '9') || c == '_' || c == '.'
}

/// Converts a word into its token: a reserved keyword, or an identifier.
pub fn identifier_to_token(identifier: String) -> (t: Token)
    ensures
        word_token_ok(identifier@, t),
{
    if identifier == String::from_str("package") {
        Token::new(TokenKind::Package, None)
    } else if identifier == String::from_str("service") {
        Token::new(TokenKind::Service, None)
    } else if identifier == String::from_str("rpc") {
        Token::new(TokenKind::Rpc, None)
    } else if identifier == String::from_str("returns") {
        Token::new(TokenKind::Returns, None)
    } else if identifier == String::from_str("enum") {
        Token::new(TokenKind::Enum, None)
    } else {
        Token::new(TokenKind::Identifier, Some(identifier))
    }
}

impl Token {
    /// A token of the given kind and value.
    pub fn new(kind: TokenKind, value: Option<String>) -> (t: Token)
        ensures
            t.kind == kind,
            t.value == value,
    {
        Token { kind, value }
    }
}

/// Tokenizer over the characters of a definition.
pub struct Tokenizer {
    /// Position of the next character to read.
    pub cursor: usize,
    pub input: Vec<char>,
}

impl Tokenizer {
    /// A tokenizer positioned at the first character of `line` with its
    /// leading and trailing white space removed.
    pub fn new(line: &str) -> (t: Tokenizer)
        ensures
            t.cursor == 0,
            t.input@ == trimmed(line@),
    {
        let chars = chars_of(line);
        let ghost s = chars@;
        let mut a: usize = 0;
        while a < chars.len() && white_space(chars[a])
            invariant
                s == chars@,
                a <= chars@.len(),
                skip_spaces(s, a as int) == skip_spaces(s, 0),
            decreases chars@.len() - a,
        {
            a = a + 1;
        }
        let mut b: usize = chars.len();
        while b > a && white_space(chars[b - 1])
            invariant
                s == chars@,
                a <= b <= chars@.len(),
                a == s.len() || !is_white_space(s[a as int]),
                trim_end(s, b as int) == trim_end(s, s.len() as int),
                forall|k: int| b <= k < s.len() ==> is_white_space(#[trigger] s[k]),
            decreases b,
        {
            b = b - 1;
        }
        proof {
            lemma_trim_end_bounds(s, b as int, a as int);
        }
        let mut input: Vec<char> = Vec::new();
        let mut i: usize = a;
        while i < b
            invariant
                s == chars@,
                a <= i <= b <= chars@.len(),
                input@ == s.subrange(a as int, i as int),
            decreases b - i,
        {
            input.push(chars[i]);
            i = i + 1;
            assert(input@ =~= s.subrange(a as int, i as int));
        }
        assert(input@ =~= trimmed(line@));
        Tokenizer { cursor: 0, input }
    }

    pub open spec fn wf(&self) -> bool {
        self.cursor <= self.input@.len()
    }

    /// The character under the cursor, if any.
    pub open spec fn spec_peek(&self) -> Option<char> {
        if self.cursor < self.input@.len() {
            Some(self.input@[self.cursor as int])
        } else {
            None
        }
    }

    fn peek(&self) -> (r: Option<char>)
        requires
            self.wf(),
        ensures
            r == self.spec_peek(),
    {
        if self.cursor < self.input.len() {
            Some(self.input[self.cursor])
        } else {
            None
        }
    }

    /// Moves the cursor past one character and returns that character.
    pub fn advance(&mut self) -> (r: Option<char>)
        requires
            old(self).wf(),
        ensures
            final(self).wf(),
            final(self).input == old(self).input,
            r == old(self).spec_peek(),
            final(self).cursor == if r is Some { old(self).cursor + 1 } else { old(self).cursor as int },
    {
        if self.cursor < self.input.len() {
            let c = self.input[self.cursor];
            self.cursor = self.cursor + 1;
            Some(c)
        } else {
            None
        }
    }

    /// Moves the cursor past the white space under it.
    pub fn skip_whitespace(&mut self)
        requires
            old(self).wf(),
        ensures
            final(self).wf(),
            final(self).input == old(self).input,
            final(self).cursor == skip_spaces(old(self).input@, old(self).cursor as int),
    {
        while self.cursor < self.input.len() && white_space(self.input[self.cursor])
            invariant
                self.wf(),
                self.input == old(self).input,
                skip_spaces(self.input@, self.cursor as int) == skip_spaces(old(self).input@, old(self).cursor as int),
            decreases self.input@.len() - self.cursor,
        {
            self.cursor = self.cursor + 1;
        }
    }

    /// Reads an identifier or a reserved keyword from the cursor on.
    pub fn tokenize_identifier(&mut self) -> (t: Token)
        requires
            old(self).wf(),
        ensures
            final(self).wf(),
            final(self).input == old(self).input,
            final(self).cursor == identifier_end(old(self).input@, old(self).cursor as int),
            word_token_ok(old(self).input@.subrange(old(self).cursor as int, final(self).cursor as int), t),
    {
        let ghost start = self.cursor as int;
        let mut identifier = String::new();
        while self.cursor < self.input.len() && identifier_char(self.input[self.cursor])
            invariant
                self.wf(),
                self.input == old(self).input,
                start == old(self).cursor,
                start <= self.cursor,
                identifier@ == self.input@.subrange(start, self.cursor as int),
                identifier_end(self.input@, self.cursor as int) == identifier_end(self.input@, start),
            decreases self.input@.len() - self.cursor,
        {
            let c = self.input[self.cursor];
            let ghost before = identifier@;
            let ghost at = self.cursor as int;
            push_char(&mut identifier, c);
            self.cursor = self.cursor + 1;
            assert(self.input@.subrange(start, at + 1) =~= self.input@.subrange(start, at).push(c));
        }
        identifier_to_token(identifier)
    }

    /// Reads a decimal number from the cursor on.
    pub fn tokenize_number(&mut self) -> (r: Result<Token, SyntaxError>)
        requires
            old(self).wf(),
        ensures
            final(self).wf(),
            final(self).input == old(self).input,
            final(self).cursor >= old(self).cursor,
            ({
                let end = digits_end(old(self).input@, old(self).cursor as int);
                let n = decimal(old(self).input@, old(self).cursor as int, end);
                match r {
                    Ok(t) => n < 256 && final(self).cursor == end && t.kind == TokenKind::Number(n as u8)
                        && t.value is None,
                    Err(e) => n >= 256 && e == SyntaxError::NumberTooLarge,
                }
            }),
    {
        let ghost start = self.cursor as int;
        let mut number: u32 = 0;
        while self.cursor < self.input.len() && '0' <= self.input[self.cursor] && self.input[self.cursor] <= '9'
            invariant
                self.wf(),
                self.input == old(self).input,
                start == old(self).cursor,
                start <= self.cursor,
                number == decimal(self.input@, start, self.cursor as int),
                number < 256,
                digits_end(self.input@, self.cursor as int) == digits_end(self.input@, start),
                forall|k: int| start <= k < self.cursor ==> is_digit(#[trigger] self.input@[k]),
            decreases self.input@.len() - self.cursor,
        {
            let c = self.input[self.cursor];
            number = number * 10 + (c as u32 - '0' as u32);
            self.cursor = self.cursor + 1;
            if number >= 256 {
                proof {
                    lemma_digits_end(self.input@, self.cursor as int);
                    lemma_digits_end(self.input@, start);
                    lemma_decimal_grows(self.input@, start, self.cursor as int,
                        digits_end(self.input@, start));
                }
                return Err(SyntaxError::NumberTooLarge);
            }
        }
        Ok(Token::new(TokenKind::Number(number as u8), None))
    }

    /// Reads the next token, skipping white space; `End` once the input is
    /// exhausted.
    pub fn next_token(&mut self) -> (r: Result<Token, SyntaxError>)
        requires
            old(self).wf(),
        ensures
            final(self).wf(),
            final(self).input == old(self).input,
            final(self).cursor >= old(self).cursor,
            (r matches Ok(t) && t.kind != TokenKind::End) ==> final(self).cursor > old(self).cursor,
            lexed(lex(old(self).input@, old(self).cursor as int), r, final(self).cursor as int),
    {
        proof {
            lemma_skip_spaces(self.input@, self.cursor as int);
            let p = skip_spaces(self.input@, self.cursor as int);
            lemma_identifier_end(self.input@, p);
            lemma_digits_end(self.input@, p);
            lemma_identifier_end(self.input@, p + 1);
            lemma_digits_end(self.input@, p + 1);
        }
        self.skip_whitespace();
        match self.peek() {
            None => Ok(Token::new(TokenKind::End, None)),
            Some(c) => {
                if ('a' <= c && c <= 'z') || ('A' <= c && c <= 'Z') {
                    Ok(self.tokenize_identifier())
                } else if '0' <= c && c <= '9' {
                    self.tokenize_number()
                } else if c == '(' {
                    self.advance();
                    Ok(Token::new(TokenKind::LeftParenthesis, None))
                } else if c == ')' {
                    self.advance();
                    Ok(Token::new(TokenKind::RightParenthesis, None))
                } else if c == '{' {
                    self.advance();
                    Ok(Token::new(TokenKind::LeftBrace, None))
                } else if c == '}' {
                    self.advance();
                    Ok(Token::new(TokenKind::RightBrace, None))
                } else if c == ';' {
                    self.advance();
                    Ok(Token::new(TokenKind::Semicolon, None))
                } else if c == '=' {
                    self.advance();
                    Ok(Token::new(TokenKind::Equal, None))
                } else {
                    Err(SyntaxError::UnrecognizedCharacter(c))
                }
            },
        }
    }
}

/// Skipping white space never moves backwards.
proof fn lemma_skip_spaces(s: Seq<char>, i: int)
    requires
        0 <= i,
    ensures
        i <= skip_spaces(s, i),
    decreases s.len() - i,
{
    if i < s.len() && is_white_space(s[i]) {
        lemma_skip_spaces(s, i + 1);
    }
}

/// The bounds that `Tokenizer::new` finds are those of the trimmed text.
proof fn lemma_trim_end_bounds(s: Seq<char>, b: int, a: int)
    requires
        0 <= a <= b <= s.len(),
        skip_spaces(s, a) == skip_spaces(s, 0),
        a == s.len() || !is_white_space(s[a]),
        b == a || !is_white_space(s[b - 1]),
        forall|k: int| b <= k < s.len() ==> is_white_space(#[trigger] s[k]),
        trim_end(s, b) == trim_end(s, s.len() as int),
    ensures
        trimmed(s) == if a < b { s.subrange(a, b) } else { Seq::<char>::empty() },
{
    assert(skip_spaces(s, a) == a);
    lemma_trim_end_le(s, b);
    if b == a && a < s.len() {
        assert(is_white_space(s[a]));
    }
}

/// Dropping trailing white space never lengthens the text.
proof fn lemma_trim_end_le(s: Seq<char>, j: int)
    ensures
        trim_end(s, j) <= j,
    decreases j,
{
    if j > 0 && j <= s.len() && is_white_space(s[j - 1]) {
        lemma_trim_end_le(s, j - 1);
    }
}

/// An identifier ends at or after its start.
proof fn lemma_identifier_end(s: Seq<char>, i: int)
    requires
        0 <= i,
    ensures
        i <= identifier_end(s, i),
    decreases s.len() - i,
{
    if i < s.len() && is_identifier_char(s[i]) {
        lemma_identifier_end(s, i + 1);
    }
}

/// A run of digits ends at or after its start, and holds only digits.
proof fn lemma_digits_end(s: Seq<char>, i: int)
    requires
        0 <= i,
    ensures
        i <= digits_end(s, i),
        forall|k: int| i <= k < digits_end(s, i) ==> is_digit(#[trigger] s[k]),
    decreases s.len() - i,
{
    if i < s.len() && is_digit(s[i]) {
        lemma_digits_end(s, i + 1);
    }
}

/// Definition of a remote procedure: `rpc method(request) returns (response);`
#[derive(Clone, Debug)]
pub struct RpcDefinition {
    pub method: String,
    pub request: String,
    pub response: String,
}

/// A parsed definition.
#[derive(Clone, Debug)]
pub enum Node {
    /// `package name;`
    Package(String),
    /// A service: its name, the message types its procedures use (without
    /// `google.protobuf.Empty`, each once, in increasing order) and its
    /// procedures.
    Service { name: String, messages: Vec<String>, rpcs: Vec<RpcDefinition> },
    /// An enum: its name and its elements in order.
    Enum { name: String, elements: Vec<String> },
}

/// The message type that stands for "no message".
pub open spec fn empty_message_name() -> Seq<char> {
    "google.protobuf.Empty"@
}

/// A list of names in which no name occurs twice.
pub open spec fn names_unique(v: Seq<String>) -> bool {
    forall|i: int, j: int| 0 <= i < j < v.len() ==> v[i]@ != v[j]@
}

/// The names of `v`, as a set.
pub open spec fn name_set(v: Seq<String>) -> Set<Seq<char>> {
    Set::new(|n: Seq<char>| exists|i: int| 0 <= i < v.len() && v[i]@ == n)
}

/// `names` after adding the message type `m`, unless it is the empty message.
pub open spec fn with_message(names: Set<Seq<char>>, m: Seq<char>) -> Set<Seq<char>> {
    if m == empty_message_name() {
        names
    } else {
        names.insert(m)
    }
}

/// Strict lexicographic order of character sequences (the order of
/// `String`'s `Ord`).
pub open spec fn seq_less(a: Seq<char>, b: Seq<char>) -> bool
    decreases a.len(),
{
    if b.len() == 0 {
        false
    } else if a.len() == 0 {
        true
    } else if a[0] != b[0] {
        a[0] < b[0]
    } else {
        seq_less(a.drop_first(), b.drop_first())
    }
}

/// Names in strictly increasing order.
pub open spec fn names_sorted(v: Seq<String>) -> bool {
    forall|i: int, j: int| 0 <= i < j < v.len() ==> seq_less(v[i]@, v[j]@)
}

proof fn lemma_less_irreflexive(a: Seq<char>)
    ensures
        !seq_less(a, a),
    decreases a.len(),
{
    if a.len() > 0 {
        lemma_less_irreflexive(a.drop_first());
    }
}

proof fn lemma_less_transitive(a: Seq<char>, b: Seq<char>, c: Seq<char>)
    requires
        seq_less(a, b),
        seq_less(b, c),
    ensures
        seq_less(a, c),
    decreases a.len(),
{
    if a.len() > 0 && b.len() > 0 && c.len() > 0 && a[0] == b[0] && b[0] == c[0] {
        lemma_less_transitive(a.drop_first(), b.drop_first(), c.drop_first());
    }
}

proof fn lemma_less_total(a: Seq<char>, b: Seq<char>)
    requires
        a != b,
    ensures
        seq_less(a, b) || seq_less(b, a),
    decreases a.len(),
{
    if a.len() > 0 && b.len() > 0 && a[0] == b[0] {
        if a.drop_first() == b.drop_first() {
            assert(a =~= seq![a[0]] + a.drop_first());
            assert(b =~= seq![b[0]] + b.drop_first());
        }
        lemma_less_total(a.drop_first(), b.drop_first());
    } else if a.len() == 0 && b.len() == 0 {
        assert(a =~= b);
    }
}

/// Whether `a` comes before `b` in lexicographic order.
fn str_less(a: &String, b: &String) -> (r: bool)
    ensures
        r == seq_less(a@, b@),
{
    let x = chars_of(a.as_str());
    let y = chars_of(b.as_str());
    let mut i: usize = 0;
    assert(x@.skip(0) =~= x@);
    assert(y@.skip(0) =~= y@);
    while i < x.len() && i < y.len() && x[i] == y[i]
        invariant
            x@ == a@,
            y@ == b@,
            i <= x@.len(),
            i <= y@.len(),
            seq_less(a@, b@) == seq_less(x@.skip(i as int), y@.skip(i as int)),
        decreases x@.len() - i,
    {
        assert(x@.skip(i as int).drop_first() =~= x@.skip(i as int + 1));
        assert(y@.skip(i as int).drop_first() =~= y@.skip(i as int + 1));
        i = i + 1;
    }
    if i == y.len() {
        false
    } else if i == x.len() {
        true
    } else {
        x[i] < y[i]
    }
}

/// Adds the message type `name` to `messages`, kept in increasing order,
/// unless it is already there or is the empty message.
fn note_message(messages: &mut Vec<String>, name: &String)
    requires
        names_sorted(old(messages)@),
    ensures
        names_sorted(final(messages)@),
        names_unique(final(messages)@),
        name_set(final(messages)@) == with_message(name_set(old(messages)@), name@),
{
    proof {
        lemma_sorted_unique(messages@);
    }
    if *name == String::from_str("google.protobuf.Empty") {
        return;
    }
    let mut i: usize = 0;
    while i < messages.len() && str_less(&messages[i], name)
        invariant
            i <= messages@.len(),
            forall|k: int| 0 <= k < i ==> seq_less(#[trigger] messages@[k]@, name@),
            names_sorted(messages@),
            messages@ == old(messages)@,
        decreases messages@.len() - i,
    {
        i = i + 1;
    }
    if i < messages.len() && messages[i] == *name {
        proof {
            assert(name_set(messages@) =~= name_set(messages@).insert(name@));
        }
        return;
    }
    let ghost before = messages@;
    proof {
        if i < before.len() {
            lemma_less_total(before[i as int]@, name@);
        }
        assert forall|k: int| i <= k < before.len() implies seq_less(name@, #[trigger] before[k]@) by {
            if k > i {
                lemma_less_transitive(name@, before[i as int]@, before[k]@);
            }
        }
    }
    messages.insert(i, name.clone());
    proof {
        assert forall|x: int, y: int| 0 <= x < y < messages@.len() implies seq_less(messages@[x]@, messages@[y]@) by {
            if x < i && y == i {
            } else if x < i && y > i {
                lemma_less_transitive(before[x]@, name@, before[y - 1]@);
            } else if x == i {
            } else {
            }
        }
        lemma_sorted_unique(messages@);
        assert forall|n: Seq<char>| name_set(messages@).contains(n) <==> name_set(before).insert(name@).contains(n) by {
            if name_set(before).contains(n) {
                let k = choose|k: int| 0 <= k < before.len() && before[k]@ == n;
                if k < i {
                    assert(messages@[k] == before[k]);
                } else {
                    assert(messages@[k + 1] == before[k]);
                }
            }
            if n == name@ {
                assert(messages@[i as int]@ == n);
            }
            if name_set(messages@).contains(n) {
                let k = choose|k: int| 0 <= k < messages@.len() && messages@[k]@ == n;
                if k < i {
                    assert(before[k] == messages@[k]);
                } else if k > i {
                    assert(before[k - 1] == messages@[k]);
                }
            }
        }
        assert(name_set(messages@) =~= name_set(before).insert(name@));
    }
}

/// Names in strictly increasing order are distinct.
proof fn lemma_sorted_unique(v: Seq<String>)
    requires
        names_sorted(v),
    ensures
        names_unique(v),
{
    assert forall|i: int, j: int| 0 <= i < j < v.len() implies v[i]@ != v[j]@ by {
        lemma_less_irreflexive(v[i]@);
    }
}

/// The message types that procedures use, without the empty message.
pub open spec fn rpc_messages(rpcs: Seq<RpcDefinition>) -> Set<Seq<char>>
    decreases rpcs.len(),
{
    if rpcs.len() == 0 {
        Set::empty()
    } else {
        with_message(with_message(rpc_messages(rpcs.drop_last()), rpcs.last().request@), rpcs.last().response@)
    }
}

/// The analyzer stands on a well-formed `rpc m(q) returns (p);` line:
/// the current token and the ten tokens after it have the kinds the grammar
/// asks for.
pub open spec fn rpc_line(a: SemanticAnalyzer) -> bool {
    &&& a.token.kind == TokenKind::Rpc
    &&& reads(a.after(0), TokenKind::Identifier)
    &&& reads(a.after(1), TokenKind::LeftParenthesis)
    &&& reads(a.after(2), TokenKind::Identifier)
    &&& reads(a.after(3), TokenKind::RightParenthesis)
    &&& reads(a.after(4), TokenKind::Returns)
    &&& reads(a.after(5), TokenKind::LeftParenthesis)
    &&& reads(a.after(6), TokenKind::Identifier)
    &&& reads(a.after(7), TokenKind::RightParenthesis)
    &&& reads(a.after(8), TokenKind::Semicolon)
    &&& a.after(9) is Read
}

/// Once an analyzer has advanced past one token, the tokens after the new
/// current one are those that came one later before.
proof fn lemma_shift(a: SemanticAnalyzer)
    ensures
        forall|b: SemanticAnalyzer, n: nat|
            SemanticAnalyzer::advanced(a, b) && (#[trigger] lex(a.tokenizer.input@, a.tokenizer.cursor as int)) is Read
                ==> #[trigger] b.after(n) == a.after(n + 1),
{
    assert forall|b: SemanticAnalyzer, n: nat|
        SemanticAnalyzer::advanced(a, b) && (#[trigger] lex(a.tokenizer.input@, a.tokenizer.cursor as int)) is Read
            implies #[trigger] b.after(n) == a.after(n + 1) by {
        assert(lex_after(a.tokenizer.input@, a.tokenizer.cursor as int, n + 1) == lex_after(
            a.tokenizer.input@,
            lex(a.tokenizer.input@, a.tokenizer.cursor as int)->Read_2,
            n,
        ));
    }
}

/// Builds the syntax tree of one definition from its tokens.
pub struct SemanticAnalyzer {
    pub tokenizer: Tokenizer,
    /// The current token.
    pub token: Token,
}

impl SemanticAnalyzer {
    /// The tokenizer is in range and an identifier token carries its name.
    pub open spec fn wf(&self) -> bool {
        &&& self.tokenizer.wf()
        &&& self.token.kind == TokenKind::Identifier ==> self.token.value is Some
    }

    /// Decreases with every token consumed: twice the characters left to
    /// read, plus one while the current token is not `End`.
    pub open spec fn progress(&self) -> int {
        2 * (self.tokenizer.input@.len() - self.tokenizer.cursor) + if self.token.kind == TokenKind::End {
            0int
        } else {
            1int
        }
    }

    /// The token read after `n` further tokens from the tokenizer's position:
    /// `after(0)` is the token that follows the current one.
    pub open spec fn after(&self, n: nat) -> Lexed {
        lex_after(self.tokenizer.input@, self.tokenizer.cursor as int, n)
    }

    /// `next` holds the token that `prev`'s tokenizer reads next, with the
    /// tokenizer positioned after it.
    pub open spec fn advanced(prev: SemanticAnalyzer, next: SemanticAnalyzer) -> bool {
        &&& next.tokenizer.input == prev.tokenizer.input
        &&& match lex(prev.tokenizer.input@, prev.tokenizer.cursor as int) {
            Lexed::Read(k, v, e) => next.token.kind == k && name_view(next.token.value) == v && next.tokenizer.cursor == e,
            Lexed::Failed(_) => true,
        }
    }

    /// An analyzer over `input` with its leading and trailing white space
    /// removed; its current token is the first token, and it fails exactly
    /// when reading that token fails.
    pub fn new(input: &str) -> (r: Result<SemanticAnalyzer, SyntaxError>)
        ensures
            match lex(trimmed(input@), 0) {
                Lexed::Read(k, v, e) => r matches Ok(a) && a.wf() && a.tokenizer.input@ == trimmed(input@)
                    && a.token.kind == k && name_view(a.token.value) == v && a.tokenizer.cursor == e,
                Lexed::Failed(x) => r matches Err(y) && y == x,
            },
    {
        let mut instance = SemanticAnalyzer { tokenizer: Tokenizer::new(input), token: Token::new(TokenKind::Start, None) };
        instance.token = instance.tokenizer.next_token()?;
        Ok(instance)
    }

    /// Consumes the current token if it is of the given kind, reads the next
    /// token, and returns the name the consumed token carries when it is an
    /// identifier. On a kind mismatch nothing changes.
    pub fn consume_token(&mut self, kind: TokenKind) -> (r: Result<Option<String>, SyntaxError>)
        requires
            old(self).wf(),
        ensures
            final(self).wf(),
            final(self).tokenizer.input == old(self).tokenizer.input,
            old(self).token.kind != kind ==> r == Err::<Option<String>, SyntaxError>(
                SyntaxError::Unexpected { expected: kind, found: old(self).token.kind },
            ) && *final(self) == *old(self),
            old(self).token.kind == kind ==> match lex(old(self).tokenizer.input@, old(self).tokenizer.cursor as int) {
                Lexed::Read(_, _, _) => r == Ok::<Option<String>, SyntaxError>(
                    if kind == TokenKind::Identifier {
                        old(self).token.value
                    } else {
                        None
                    },
                ) && SemanticAnalyzer::advanced(*old(self), *final(self)),
                Lexed::Failed(x) => r == Err::<Option<String>, SyntaxError>(x),
            },
            r matches Ok(v) ==> old(self).token.kind == kind && (if kind == TokenKind::Identifier {
                v == old(self).token.value && v is Some
            } else {
                v is None
            }),
            r is Ok && old(self).token.kind != TokenKind::End ==> final(self).progress() < old(self).progress(),
    {
        if self.token.kind == kind {
            if kind == TokenKind::Identifier {
                let identifier = self.token.value.clone();
                let next = self.tokenizer.next_token()?;
                self.token = next;
                Ok(identifier)
            } else {
                let next = self.tokenizer.next_token()?;
                self.token = next;
                Ok(None)
            }
        } else {
            Err(SyntaxError::Unexpected { expected: kind, found: self.token.kind })
        }
    }

    /// Consumes an identifier and returns its name.
    fn identifier(&mut self) -> (r: Result<String, SyntaxError>)
        requires
            old(self).wf(),
        ensures
            final(self).wf(),
            final(self).tokenizer.input == old(self).tokenizer.input,
            old(self).token.kind != TokenKind::Identifier ==> r == Err::<String, SyntaxError>(
                SyntaxError::Unexpected { expected: TokenKind::Identifier, found: old(self).token.kind },
            ),
            old(self).token.kind == TokenKind::Identifier ==> match lex(old(self).tokenizer.input@, old(self).tokenizer.cursor as int) {
                Lexed::Read(_, _, _) => (r matches Ok(v) && old(self).token.value == Some(v))
                    && SemanticAnalyzer::advanced(*old(self), *final(self)),
                Lexed::Failed(x) => r == Err::<String, SyntaxError>(x),
            },
            r matches Ok(v) ==> old(self).token.kind == TokenKind::Identifier && old(self).token.value == Some(v),
            r is Ok ==> final(self).progress() < old(self).progress(),
    {
        match self.consume_token(TokenKind::Identifier)? {
            Some(v) => Ok(v),
            None => Err(SyntaxError::Unexpected { expected: TokenKind::Identifier, found: TokenKind::Identifier }),
        }
    }

    /// Parses `rpc method(request) returns (response);` and records the
    /// request and response types in `messages`. On a well-formed line the
    /// definition holds the three names read.
    pub fn parse_rpc(&mut self, messages: &mut Vec<String>) -> (r: Result<RpcDefinition, SyntaxError>)
        requires
            old(self).wf(),
            names_sorted(old(messages)@),
        ensures
            final(self).wf(),
            final(self).tokenizer.input == old(self).tokenizer.input,
            names_unique(final(messages)@),
            names_sorted(final(messages)@),
            old(self).token.kind != TokenKind::Rpc ==> r == Err::<RpcDefinition, SyntaxError>(
                SyntaxError::Unexpected { expected: TokenKind::Rpc, found: old(self).token.kind },
            ),
            r is Ok ==> final(self).progress() < old(self).progress(),
            r matches Ok(d) ==> name_set(final(messages)@) == with_message(
                with_message(name_set(old(messages)@), d.request@),
                d.response@,
            ),
            r matches Ok(d) ==> d.method@ == read_name(old(self).after(0)) && d.request@ == read_name(old(self).after(2))
                && d.response@ == read_name(old(self).after(6)),
            rpc_line(*old(self)) ==> r is Ok,
    {
        proof {
            lemma_sorted_unique(messages@);
        }
        let ghost a0 = *self;
        proof {
            lemma_shift(a0);
        }
        self.consume_token(TokenKind::Rpc)?;
        let ghost a1 = *self;
        proof {
            lemma_shift(a1);
            if a0.after(9) is Read {
                assert(a1.after(0) == a0.after(1));
                assert(a1.after(1) == a0.after(2));
                assert(a1.after(2) == a0.after(3));
                assert(a1.after(3) == a0.after(4));
                assert(a1.after(4) == a0.after(5));
                assert(a1.after(5) == a0.after(6));
                assert(a1.after(6) == a0.after(7));
                assert(a1.after(7) == a0.after(8));
                assert(a1.after(8) == a0.after(9));
            }
        }
        let method = self.identifier()?;
        let ghost a2 = *self;
        proof {
            lemma_shift(a2);
            if a0.after(9) is Read {
                assert(a2.after(0) == a0.after(2));
                assert(a2.after(1) == a0.after(3));
                assert(a2.after(2) == a0.after(4));
                assert(a2.after(3) == a0.after(5));
                assert(a2.after(4) == a0.after(6));
                assert(a2.after(5) == a0.after(7));
                assert(a2.after(6) == a0.after(8));
                assert(a2.after(7) == a0.after(9));
            }
        }
        self.consume_token(TokenKind::LeftParenthesis)?;
        let ghost a3 = *self;
        proof {
            lemma_shift(a3);
            if a0.after(9) is Read {
                assert(a3.after(0) == a0.after(3));
                assert(a3.after(1) == a0.after(4));
                assert(a3.after(2) == a0.after(5));
                assert(a3.after(3) == a0.after(6));
                assert(a3.after(4) == a0.after(7));
                assert(a3.after(5) == a0.after(8));
                assert(a3.after(6) == a0.after(9));
            }
        }
        let request = self.identifier()?;
        let ghost a4 = *self;
        proof {
            lemma_shift(a4);
            if a0.after(9) is Read {
                assert(a4.after(0) == a0.after(4));
                assert(a4.after(1) == a0.after(5));
                assert(a4.after(2) == a0.after(6));
                assert(a4.after(3) == a0.after(7));
                assert(a4.after(4) == a0.after(8));
                assert(a4.after(5) == a0.after(9));
            }
        }
        note_message(messages, &request);
        self.consume_token(TokenKind::RightParenthesis)?;
        let ghost a5 = *self;
        proof {
            lemma_shift(a5);
            if a0.after(9) is Read {
                assert(a5.after(0) == a0.after(5));
                assert(a5.after(1) == a0.after(6));
                assert(a5.after(2) == a0.after(7));
                assert(a5.after(3) == a0.after(8));
                assert(a5.after(4) == a0.after(9));
            }
        }
        self.consume_token(TokenKind::Returns)?;
        let ghost a6 = *self;
        proof {
            lemma_shift(a6);
            if a0.after(9) is Read {
                assert(a6.after(0) == a0.after(6));
                assert(a6.after(1) == a0.after(7));
                assert(a6.after(2) == a0.after(8));
                assert(a6.after(3) == a0.after(9));
            }
        }
        self.consume_token(TokenKind::LeftParenthesis)?;
        let ghost a7 = *self;
        proof {
            lemma_shift(a7);
            if a0.after(9) is Read {
                assert(a7.after(0) == a0.after(7));
                assert(a7.after(1) == a0.after(8));
                assert(a7.after(2) == a0.after(9));
            }
        }
        let response = self.identifier()?;
        let ghost a8 = *self;
        proof {
            lemma_shift(a8);
            if a0.after(9) is Read {
                assert(a8.after(0) == a0.after(8));
                assert(a8.after(1) == a0.after(9));
            }
        }
        note_message(messages, &response);
        self.consume_token(TokenKind::RightParenthesis)?;
        let ghost a9 = *self;
        proof {
            lemma_shift(a9);
            if a0.after(9) is Read {
                assert(a9.after(0) == a0.after(9));
            }
        }
        self.consume_token(TokenKind::Semicolon)?;
        Ok(RpcDefinition { method, request, response })
    }

    /// Parses the enum element `name = field_index;` and returns its name; an
    /// element numbered otherwise fails with the number found.
    pub fn parse_enum(&mut self, field_index: u8) -> (r: Result<String, SyntaxError>)
        requires
            old(self).wf(),
        ensures
            final(self).wf(),
            final(self).tokenizer.input == old(self).tokenizer.input,
            old(self).token.kind != TokenKind::Identifier ==> r == Err::<String, SyntaxError>(
                SyntaxError::Unexpected { expected: TokenKind::Identifier, found: old(self).token.kind },
            ),
            r matches Ok(v) ==> old(self).token.value == Some(v),
            r is Ok ==> final(self).progress() < old(self).progress(),
            (old(self).token.kind == TokenKind::Identifier && reads(old(self).after(0), TokenKind::Equal) && reads(
                old(self).after(1),
                TokenKind::Number(field_index),
            ) && reads(old(self).after(2), TokenKind::Semicolon) && old(self).after(3) is Read) ==> r is Ok,
            (old(self).token.kind == TokenKind::Identifier && reads(old(self).after(0), TokenKind::Equal) && (old(
                self,
            ).after(1) matches Lexed::Read(TokenKind::Number(k), _, _) && k != field_index)) ==> r
                == Err::<String, SyntaxError>(
                SyntaxError::Unexpected {
                    expected: TokenKind::Number(field_index),
                    found: old(self).after(1)->Read_0,
                },
            ),
    {
        let ghost a0 = *self;
        proof {
            lemma_shift(a0);
        }
        let field = self.identifier()?;
        let ghost a1 = *self;
        proof {
            lemma_shift(a1);
            if a0.after(3) is Read {
                assert(a1.after(0) == a0.after(1));
                assert(a1.after(1) == a0.after(2));
                assert(a1.after(2) == a0.after(3));
            }
        }
        self.consume_token(TokenKind::Equal)?;
        let ghost a2 = *self;
        proof {
            lemma_shift(a2);
            if a0.after(3) is Read {
                assert(a2.after(0) == a0.after(2));
                assert(a2.after(1) == a0.after(3));
            }
        }
        self.consume_token(TokenKind::Number(field_index))?;
        let ghost a3 = *self;
        proof {
            lemma_shift(a3);
            if a0.after(3) is Read {
                assert(a3.after(0) == a0.after(3));
            }
        }
        self.consume_token(TokenKind::Semicolon)?;
        Ok(field)
    }

    /// Parses a package statement, a service definition or an enum definition.
    pub fn parse(&mut self) -> (r: Result<Node, SyntaxError>)
        requires
            old(self).wf(),
        ensures
            final(self).wf(),
            r matches Ok(Node::Package(_)) ==> old(self).token.kind == TokenKind::Package,
            r matches Ok(Node::Service { .. }) ==> old(self).token.kind == TokenKind::Service,
            r matches Ok(Node::Enum { .. }) ==> old(self).token.kind == TokenKind::Enum,
            !(old(self).token.kind == TokenKind::Package || old(self).token.kind == TokenKind::Service
                || old(self).token.kind == TokenKind::Enum) ==> r == Err::<Node, SyntaxError>(
                SyntaxError::UnexpectedStatement,
            ),
            r matches Ok(Node::Service { messages, .. }) ==> names_sorted(messages@) && names_unique(messages@),
            !(old(self).token.kind == TokenKind::Package || old(self).token.kind == TokenKind::Service
                || old(self).token.kind == TokenKind::Enum) ==> *final(self) == *old(self),
            r matches Ok(Node::Package(p)) ==> p@ == read_name(old(self).after(0)),
            (old(self).token.kind == TokenKind::Package && reads(old(self).after(0), TokenKind::Identifier) && reads(
                old(self).after(1),
                TokenKind::Semicolon,
            ) && old(self).after(2) is Read) ==> r is Ok,
            r matches Ok(Node::Service { name, messages, rpcs }) ==> name@ == read_name(old(self).after(0)) && name_set(
                messages@,
            ) == rpc_messages(rpcs@),
            r matches Ok(Node::Enum { name, elements }) ==> name@ == read_name(old(self).after(0)) && elements@.len()
                <= 256,
    {
        match self.token.kind {
            TokenKind::Package => {
                let ghost a0 = *self;
                proof {
                    lemma_shift(a0);
                }
                self.consume_token(TokenKind::Package)?;
                let ghost a1 = *self;
                proof {
                    lemma_shift(a1);
                    if a0.after(2) is Read {
                        assert(a1.after(0) == a0.after(1));
                        assert(a1.after(1) == a0.after(2));
                    }
                }
                let package = self.identifier()?;
                let ghost a2 = *self;
                proof {
                    lemma_shift(a2);
                    if a0.after(2) is Read {
                        assert(a2.after(0) == a0.after(2));
                    }
                }
                self.consume_token(TokenKind::Semicolon)?;
                Ok(Node::Package(package))
            },
            TokenKind::Service => {
                let ghost a0 = *self;
                proof {
                    lemma_shift(a0);
                }
                self.consume_token(TokenKind::Service)?;
                let name = self.identifier()?;
                self.consume_token(TokenKind::LeftBrace)?;
                let mut rpcs: Vec<RpcDefinition> = Vec::new();
                let mut messages: Vec<String> = Vec::new();
                assert(name_set(messages@) =~= rpc_messages(rpcs@));
                while self.token.kind == TokenKind::Rpc
                    invariant
                        self.wf(),
                        names_unique(messages@),
                        names_sorted(messages@),
                        name_set(messages@) == rpc_messages(rpcs@),
                        old(self).token.kind == TokenKind::Service,
                        name@ == read_name(old(self).after(0)),
                    decreases self.progress(),
                {
                    let rpc = self.parse_rpc(&mut messages)?;
                    let ghost before = rpcs@;
                    rpcs.push(rpc);
                    assert(rpcs@.drop_last() =~= before);
                }
                self.consume_token(TokenKind::RightBrace)?;
                Ok(Node::Service { name, messages, rpcs })
            },
            TokenKind::Enum => {
                let ghost a0 = *self;
                proof {
                    lemma_shift(a0);
                }
                self.consume_token(TokenKind::Enum)?;
                let name = self.identifier()?;
                self.consume_token(TokenKind::LeftBrace)?;
                let mut index: u8 = 0;
                let mut elements: Vec<String> = Vec::new();
                while self.token.kind == TokenKind::Identifier
                    invariant_except_break
                        elements@.len() == index as int,
                    invariant
                        self.wf(),
                        old(self).token.kind == TokenKind::Enum,
                        name@ == read_name(old(self).after(0)),
                    ensures
                        elements@.len() <= 256,
                    decreases self.progress(),
                {
                    elements.push(self.parse_enum(index)?);
                    if index == 255 {
                        break;
                    }
                    index = index + 1;
                }
                self.consume_token(TokenKind::RightBrace)?;
                Ok(Node::Enum { name, elements })
            },
            _ => Err(SyntaxError::UnexpectedStatement),
        }
    }
}

/// Appending digits never makes a decimal number smaller.
proof fn lemma_decimal_grows(s: Seq<char>, i: int, j: int, k: int)
    requires
        i <= j <= k,
        forall|x: int| i <= x < k ==> 0 <= #[trigger] digit_value(s[x]) <= 9,
    ensures
        decimal(s, i, j) <= decimal(s, i, k),
    decreases k - j,
{
    if j < k {
        lemma_decimal_grows(s, i, j, k - 1);
        assert(decimal(s, i, k - 1) >= 0) by {
            lemma_decimal_nonneg(s, i, k - 1);
        }
    }
}

proof fn lemma_decimal_nonneg(s: Seq<char>, i: int, j: int)
    requires
        forall|x: int| i <= x < j ==> 0 <= #[trigger] digit_value(s[x]) <= 9,
    ensures
        decimal(s, i, j) >= 0,
    decreases j - i,
{
    if j > i {
        lemma_decimal_nonneg(s, i, j - 1);
    }
}

} // verus!
