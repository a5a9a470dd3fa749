use vstd::prelude::*;

verus! {

/// The kind of a token.
#[derive(PartialEq, Eq, Structural, Clone, Copy, Debug)]
pub enum TOT {
    IDENTIFIER,
    KEYWORD,
    NUMBER,
    STRING,
    OPERATOR,
    DELIMITER,
    COMMENT,
    NEWLINE,
}

impl TOT {
    pub open spec fn spec_name(self) -> Seq<char> {
        match self {
            TOT::IDENTIFIER => "identifier"@,
            TOT::KEYWORD => "keyword"@,
            TOT::NUMBER => "number"@,
            TOT::STRING => "string"@,
            TOT::OPERATOR => "operator"@,
            TOT::DELIMITER => "delimiter"@,
            TOT::COMMENT => "comment"@,
            TOT::NEWLINE => "newline"@,
        }
    }

    /// The lowercase noun that names this kind in diagnostics.
    pub fn as_str(&self) -> (r: &'static str)
        ensures
            r@ == self.spec_name(),
    {
        match self {
            TOT::IDENTIFIER => "identifier",
            TOT::KEYWORD => "keyword",
            TOT::NUMBER => "number",
            TOT::STRING => "string",
            TOT::OPERATOR => "operator",
            TOT::DELIMITER => "delimiter",
            TOT::COMMENT => "comment",
            TOT::NEWLINE => "newline",
        }
    }
}

/// A token as a value: its lexeme, its kind, and the 1-based line and column where it
/// starts in the source (0 and 0 for a token made without a source).
pub type Tok = (Seq<char>, TOT, int, int);

#[derive(Clone)]
pub struct Token {
    pub value: String,
    pub tot: TOT,
    pub line: usize,
    pub column: usize,
}

impl View for Token {
    type V = Tok;

    open spec fn view(&self) -> Tok {
        (self.value@, self.tot, self.line as int, self.column as int)
    }
}

impl Token {
    /// A token with no place in a source text.
    pub fn new(value: String, tot: TOT) -> (r: Self)
        ensures
            r@ == (value@, tot, 0int, 0int),
    {
        Token { value, tot, line: 0, column: 0 }
    }

    /// A token that starts at `line` and `column` of its source text.
    pub fn at(value: String, tot: TOT, line: usize, column: usize) -> (r: Self)
        ensures
            r@ == (value@, tot, line as int, column as int),
    {
        Token { value, tot, line, column }
    }
}

pub open spec fn token_views(ts: Seq<Token>) -> Seq<Tok> {
    ts.map_values(|t: Token| t@)
}

#[derive(PartialEq, Eq, Structural, Clone, Copy, Debug)]
pub enum LexErrorKind {
    /// A character that starts no token.
    UnknownCharacter(char),
    /// The input ends inside a string literal.
    UnterminatedString,
}

/// What went wrong, and the 1-based line and column where it was found.
#[derive(PartialEq, Eq, Structural, Clone, Copy, Debug)]
pub struct LexError {
    pub kind: LexErrorKind,
    pub line: usize,
    pub column: usize,
}

impl View for LexError {
    type V = (LexErrorKind, int, int);

    open spec fn view(&self) -> (LexErrorKind, int, int) {
        (self.kind, self.line as int, self.column as int)
    }
}

/// Whether `c` has Unicode's White_Space property: tab through carriage return, space,
/// next line, no-break space, ogham space mark, the spaces from en quad to hair space,
/// line and paragraph separators, narrow no-break space, medium mathematical space and
/// ideographic space.
pub open spec fn whitespace_char(c: char) -> bool {
    let u = c as u32;
    (0x09 <= u <= 0x0D) || u == 0x20 || u == 0x85 || u == 0xA0 || u == 0x1680 || (0x2000 <= u
        <= 0x200A) || u == 0x2028 || u == 0x2029 || u == 0x202F || u == 0x205F || u == 0x3000
}

/// Whether the non-ASCII character `c` is in one of Unicode's number categories.
pub uninterp spec fn nonascii_numeric(c: char) -> bool;

/// Whether the non-ASCII character `c` is alphabetic or numeric in Unicode's sense.
pub uninterp spec fn nonascii_alphanumeric(c: char) -> bool;

pub open spec fn ascii_digit(c: char) -> bool {
    0x30 <= (c as u32) <= 0x39
}

pub open spec fn ascii_letter(c: char) -> bool {
    0x41 <= (c as u32) <= 0x5A || 0x61 <= (c as u32) <= 0x7A
}

/// Whether `c` is in one of Unicode's number categories: among ASCII characters, the digits.
pub open spec fn numeric_char(c: char) -> bool {
    if (c as u32) < 0x80 {
        ascii_digit(c)
    } else {
        nonascii_numeric(c)
    }
}

/// Whether `c` is alphabetic or numeric in Unicode's sense: among ASCII characters, the
/// digits and the letters.
pub open spec fn alphanumeric_char(c: char) -> bool {
    if (c as u32) < 0x80 {
        ascii_digit(c) || ascii_letter(c)
    } else {
        nonascii_alphanumeric(c)
    }
}

/// Whether `c` is whitespace, as `char::is_whitespace` decides it.
pub fn is_whitespace(c: char) -> (r: bool)
    ensures
        r == whitespace_char(c),
{
    let u = c as u32;
    (0x09 <= u && u <= 0x0D) || u == 0x20 || u == 0x85 || u == 0xA0 || u == 0x1680 || (0x2000
        <= u && u <= 0x200A) || u == 0x2028 || u == 0x2029 || u == 0x202F || u == 0x205F || u
        == 0x3000
}

/// Relies on char::is_numeric, which depends on the character alone; among ASCII
/// characters exactly the digits are numeric.
#[verifier::external_body]
fn is_numeric(c: char) -> (r: bool)
    ensures
        r == numeric_char(c),
        (c as u32) >= 0x80 ==> r == nonascii_numeric(c),
{
    c.is_numeric()
}

/// Relies on char::is_alphanumeric, which depends on the character alone; among ASCII
/// characters exactly the digits and the letters are alphanumeric.
#[verifier::external_body]
fn is_alphanumeric(c: char) -> (r: bool)
    ensures
        r == alphanumeric_char(c),
        (c as u32) >= 0x80 ==> r == nonascii_alphanumeric(c),
{
    c.is_alphanumeric()
}

/// Relies on str::chars, collected into a vector: the characters of `s` in order.
#[verifier::external_body]
fn chars_of(s: &str) -> (r: Vec<char>)
    ensures
        r@ == s@,
{
    s.chars().collect()
}

/// Relies on collecting characters into a String: the text of `cs[start..end]`.
#[verifier::external_body]
fn text_of(cs: &Vec<char>, start: usize, end: usize) -> (r: String)
    requires
        start <= end <= cs@.len(),
    ensures
        r@ == cs@.subrange(start as int, end as int),
{
    cs[start..end].iter().collect()
}

pub open spec fn is_delimiter(c: char) -> bool {
    c == '(' || c == ')' || c == '{' || c == '}' || c == '.' || c == ',' || c == ';'
}

pub open spec fn is_operator_char(c: char) -> bool {
    c == '+' || c == '-' || c == '*' || c == '/' || c == '='
}

pub open spec fn is_keyword(w: Seq<char>) -> bool {
    w == "if"@ || w == "else"@ || w == "elseif"@ || w == "var"@ || w == "const"@ || w == "fn"@
        || w == "return"@ || w == "for"@ || w == "in"@ || w == "while"@ || w == "once"@
        || w == "true"@ || w == "false"@
}

/// The character `k` places ahead, or NUL past the end.
pub open spec fn peek_at(s: Seq<char>, k: int) -> char {
    if 0 <= k < s.len() {
        s[k]
    } else {
        '\0'
    }
}

/// Line and column after moving over the character `c`.
pub open spec fn next_pos(c: char, line: int, col: int) -> (int, int) {
    if c == '\n' {
        (line + 1, 1)
    } else {
        (line, col + 1)
    }
}

/// Line and column after moving over `s[i..j]` from `(line, col)`.
pub open spec fn advance(s: Seq<char>, i: int, j: int, line: int, col: int) -> (int, int)
    decreases j - i,
{
    if j <= i {
        (line, col)
    } else {
        let p = advance(s, i, j - 1, line, col);
        next_pos(s[j - 1], p.0, p.1)
    }
}

/// The classes of characters that make up a run.
pub enum Run {
    Digits,
    Word,
    StringBody,
    LineComment,
}

pub open spec fn in_run(k: Run, c: char) -> bool {
    match k {
        Run::Digits => numeric_char(c),
        Run::Word => alphanumeric_char(c),
        Run::StringBody => c != '"',
        Run::LineComment => c != '\n',
    }
}

/// End of the longest run of class `k` that starts at `i`.
pub open spec fn run_end(s: Seq<char>, i: nat, k: Run) -> nat
    decreases s.len() - i,
{
    if i < s.len() && in_run(k, s[i as int]) {
        run_end(s, i + 1, k)
    } else {
        i
    }
}

/// End of a block comment's text that starts at `i`: the first `*/`, or the end.
pub open spec fn block_end(s: Seq<char>, i: nat) -> nat
    decreases s.len() - i,
{
    if i < s.len() && !(s[i as int] == '*' && peek_at(s, i + 1 as int) == '/') {
        block_end(s, i + 1)
    } else {
        i
    }
}

pub proof fn lemma_run_end(s: Seq<char>, i: nat, k: Run)
    ensures
        i <= run_end(s, i, k),
        i <= s.len() ==> run_end(s, i, k) <= s.len(),
        i < s.len() && in_run(k, s[i as int]) ==> i < run_end(s, i, k),
    decreases s.len() - i,
{
    if i < s.len() && in_run(k, s[i as int]) {
        lemma_run_end(s, i + 1, k);
    }
}

pub proof fn lemma_block_end(s: Seq<char>, i: nat)
    ensures
        i <= block_end(s, i),
        i <= s.len() ==> block_end(s, i) <= s.len(),
    decreases s.len() - i,
{
    if i < s.len() && !(s[i as int] == '*' && peek_at(s, i + 1 as int) == '/') {
        lemma_block_end(s, i + 1);
    }
}

pub open spec fn prepend<E>(t: Tok, r: Result<Seq<Tok>, E>) -> Result<Seq<Tok>, E> {
    match r {
        Ok(ts) => Ok(seq![t] + ts),
        Err(e) => Err(e),
    }
}

pub open spec fn prepend_all<E>(pre: Seq<Tok>, r: Result<Seq<Tok>, E>) -> Result<Seq<Tok>, E> {
    match r {
        Ok(ts) => Ok(pre + ts),
        Err(e) => Err(e),
    }
}

pub type LexResult = Result<Seq<Tok>, (LexErrorKind, int, int)>;

/// The token read from `s[i..j]`, followed by the tokens of the rest.
pub open spec fn emit(s: Seq<char>, i: nat, j: nat, t: Tok, line: int, col: int) -> LexResult
    decreases s.len() - i, 0nat,
{
    if i < j <= s.len() {
        let p = advance(s, i as int, j as int, line, col);
        prepend(t, lex_from(s, j, p.0, p.1))
    } else {
        Ok(seq![])
    }
}

/// The tokens of `s` from position `i`, where the scan stands at `(line, col)`;
/// or the first error met.
pub open spec fn lex_from(s: Seq<char>, i: nat, line: int, col: int) -> LexResult
    decreases s.len() - i, 1nat,
{
    if i >= s.len() {
        Ok(seq![])
    } else {
        let c = s[i as int];
        if whitespace_char(c) {
            let p = advance(s, i as int, i + 1 as int, line, col);
            if c == '\n' {
                prepend(("[newline]"@, TOT::NEWLINE, line, col), lex_from(s, i + 1, p.0, p.1))
            } else {
                lex_from(s, i + 1, p.0, p.1)
            }
        } else if numeric_char(c) {
            let j = run_end(s, i, Run::Digits);
            emit(s, i, j, (s.subrange(i as int, j as int), TOT::NUMBER, line, col), line, col)
        } else if alphanumeric_char(c) {
            let j = run_end(s, i, Run::Word);
            let w = s.subrange(i as int, j as int);
            emit(s, i, j, (w, if is_keyword(w) { TOT::KEYWORD } else { TOT::IDENTIFIER }, line, col), line, col)
        } else if is_delimiter(c) {
            emit(s, i, i + 1, (seq![c], TOT::DELIMITER, line, col), line, col)
        } else if c == '"' {
            let j = run_end(s, i + 1, Run::StringBody);
            if j >= s.len() {
                let p = advance(s, i as int, j as int, line, col);
                Err((LexErrorKind::UnterminatedString, p.0, p.1))
            } else {
                emit(s, i, j + 1, (s.subrange(i + 1 as int, j as int), TOT::STRING, line, col), line, col)
            }
        } else if c == '/' {
            if peek_at(s, i + 1 as int) == '/' {
                let j = run_end(s, i + 2, Run::LineComment);
                emit(s, i, j, (s.subrange(i + 2 as int, j as int), TOT::COMMENT, line, col), line, col)
            } else if peek_at(s, i + 1 as int) == '*' {
                let j = block_end(s, i + 2);
                emit(s, i, j, (s.subrange(i + 2 as int, j as int), TOT::COMMENT, line, col), line, col)
            } else {
                emit(s, i, i + 1, (seq!['/'], TOT::OPERATOR, line, col), line, col)
            }
        } else if is_operator_char(c) {
            if peek_at(s, i + 1 as int) == '=' {
                emit(s, i, i + 2, (seq![c, '='], TOT::OPERATOR, line, col), line, col)
            } else {
                emit(s, i, i + 1, (seq![c], TOT::OPERATOR, line, col), line, col)
            }
        } else {
            Err((LexErrorKind::UnknownCharacter(c), line, col))
        }
    }
}

/// The tokens of the source text `s`, or the first lexical error.
pub open spec fn lex(s: Seq<char>) -> LexResult {
    lex_from(s, 0, 1, 1)
}

pub open spec fn lex_result_view(r: Result<Vec<Token>, LexError>) -> LexResult {
    match r {
        Ok(ts) => Ok(token_views(ts@)),
        Err(e) => Err(e@),
    }
}

proof fn lemma_prepend_one(ts: Seq<Tok>, t: Tok, r: LexResult)
    ensures
        prepend_all(ts, prepend(t, r)) == prepend_all(ts.push(t), r),
{
    if let Ok(x) = r {
        assert(ts + (seq![t] + x) =~= ts.push(t) + x);
    }
}

proof fn lemma_views_push(v: Seq<Token>, t: Token)
    ensures
        token_views(v.push(t)) == token_views(v).push(t@),
{
    assert(token_views(v.push(t)) =~= token_views(v).push(t@));
}

/// Whether the text `a` reads exactly `b`.
pub fn same_text(a: &String, b: &str) -> (r: bool)
    ensures
        r == (a@ == b@),
{
    let b = String::from_str(b);
    a.eq(&b)
}

fn is_keyword_text(w: &String) -> (r: bool)
    ensures
        r == is_keyword(w@),
{
    same_text(w, "if") || same_text(w, "else") || same_text(w, "elseif") || same_text(w, "var")
        || same_text(w, "const") || same_text(w, "fn") || same_text(w, "return") || same_text(
        w,
        "for",
    ) || same_text(w, "in") || same_text(w, "while") || same_text(w, "once") || same_text(
        w,
        "true",
    ) || same_text(w, "false")
}

/// A single-pass scanner over the characters of a source text.
pub struct Lexer {
    chars: Vec<char>,
    index: usize,
    line: usize,
    column: usize,
}

impl Lexer {
    /// The characters being scanned.
    pub closed spec fn source(&self) -> Seq<char> {
        self.chars@
    }

    /// The position of the next character to scan.
    pub closed spec fn pos(&self) -> nat {
        self.index as nat
    }

    /// The 1-based line of the next character.
    pub closed spec fn line(&self) -> int {
        self.line as int
    }

    /// The 1-based column of the next character.
    pub closed spec fn column(&self) -> int {
        self.column as int
    }

    pub closed spec fn wf(&self) -> bool {
        &&& self.chars@.len() < usize::MAX
        &&& self.index <= self.chars@.len()
        &&& 1 <= self.line <= self.index + 1
        &&& 1 <= self.column <= self.index + 1
    }

    /// `after` is `self` moved forward to position `j`.
    spec fn moved_to(&self, after: &Lexer, j: nat) -> bool {
        &&& after.wf()
        &&& after.chars@ == self.chars@
        &&& after.index == j
        &&& (after.line as int, after.column as int) == advance(
            self.chars@,
            self.index as int,
            j as int,
            self.line as int,
            self.column as int,
        )
    }

    pub fn new(src: String) -> (r: Self)
        requires
            src@.len() < usize::MAX,
        ensures
            r.wf(),
            r.source() == src@,
            r.pos() == 0,
            r.line() == 1,
            r.column() == 1,
    {
        Lexer { chars: chars_of(src.as_str()), index: 0, line: 1, column: 1 }
    }

    fn is_eof(&self) -> (r: bool)
        ensures
            r == (self.index >= self.chars@.len()),
    {
        self.index >= self.chars.len()
    }

    /// The character `offset` places ahead, or NUL past the end.
    fn peek(&self, offset: usize) -> (c: char)
        requires
            self.wf(),
            offset <= 1,
        ensures
            c == peek_at(self.chars@, self.index + offset),
    {
        if offset < self.chars.len() - self.index {
            self.chars[self.index + offset]
        } else {
            '\0'
        }
    }

    fn next_char(&mut self) -> (c: char)
        requires
            old(self).wf(),
            old(self).index < old(self).chars@.len(),
        ensures
            final(self).wf(),
            final(self).chars@ == old(self).chars@,
            final(self).index == old(self).index + 1,
            c == old(self).chars@[old(self).index as int],
            (final(self).line as int, final(self).column as int) == next_pos(
                c,
                old(self).line as int,
                old(self).column as int,
            ),
    {
        let c = self.chars[self.index];
        if c == '\n' {
            self.line = self.line + 1;
            self.column = 1;
        } else {
            self.column = self.column + 1;
        }
        self.index = self.index + 1;
        c
    }

    fn read_number(&mut self) -> (t: Token)
        requires
            old(self).wf(),
            old(self).index < old(self).chars@.len(),
        ensures
            ({
                let s = old(self).chars@;
                let i = old(self).index as nat;
                let j = run_end(s, i, Run::Digits);
                &&& old(self).moved_to(final(self), j)
                &&& t@ == (s.subrange(i as int, j as int), TOT::NUMBER, old(self).line as int, old(self).column as int)
            }),
    {
        let ghost s = self.chars@;
        let ghost l0 = self.line as int;
        let ghost c0 = self.column as int;
        let start = self.index;
        let sl = self.line;
        let sc = self.column;
        while self.index < self.chars.len() && is_numeric(self.chars[self.index])
            invariant
                self.wf(),
                self.chars@ == s,
                start <= self.index,
                run_end(s, start as nat, Run::Digits) == run_end(s, self.index as nat, Run::Digits),
                (self.line as int, self.column as int) == advance(s, start as int, self.index as int, l0, c0),
            decreases self.chars@.len() - self.index,
        {
            self.next_char();
        }
        let value = text_of(&self.chars, start, self.index);
        Token::at(value, TOT::NUMBER, sl, sc)
    }

    fn read_identifier_or_keyword(&mut self) -> (t: Token)
        requires
            old(self).wf(),
            old(self).index < old(self).chars@.len(),
        ensures
            ({
                let s = old(self).chars@;
                let i = old(self).index as nat;
                let j = run_end(s, i, Run::Word);
                let w = s.subrange(i as int, j as int);
                &&& old(self).moved_to(final(self), j)
                &&& t@ == (w, if is_keyword(w) { TOT::KEYWORD } else { TOT::IDENTIFIER }, old(self).line as int, old(self).column as int)
            }),
    {
        let ghost s = self.chars@;
        let ghost l0 = self.line as int;
        let ghost c0 = self.column as int;
        let start = self.index;
        let sl = self.line;
        let sc = self.column;
        while self.index < self.chars.len() && is_alphanumeric(self.chars[self.index])
            invariant
                self.wf(),
                self.chars@ == s,
                start <= self.index,
                run_end(s, start as nat, Run::Word) == run_end(s, self.index as nat, Run::Word),
                (self.line as int, self.column as int) == advance(s, start as int, self.index as int, l0, c0),
            decreases self.chars@.len() - self.index,
        {
            self.next_char();
        }
        let value = text_of(&self.chars, start, self.index);
        if is_keyword_text(&value) {
            Token::at(value, TOT::KEYWORD, sl, sc)
        } else {
            Token::at(value, TOT::IDENTIFIER, sl, sc)
        }
    }

    fn read_string(&mut self) -> (r: Result<Token, LexError>)
        requires
            old(self).wf(),
            old(self).index < old(self).chars@.len(),
        ensures
            final(self).wf(),
            final(self).chars@ == old(self).chars@,
            ({
                let s = old(self).chars@;
                let i = old(self).index as nat;
                let j = run_end(s, i + 1, Run::StringBody);
                let p = advance(s, i as int, j as int, old(self).line as int, old(self).column as int);
                match r {
                    Ok(t) => {
                        &&& j < s.len()
                        &&& old(self).moved_to(final(self), j + 1)
                        &&& t@ == (s.subrange(i + 1 as int, j as int), TOT::STRING, old(self).line as int, old(self).column as int)
                    },
                    Err(e) => j >= s.len() && e@ == (LexErrorKind::UnterminatedString, p.0, p.1),
                }
            }),
    {
        let ghost s = self.chars@;
        let ghost l0 = self.line as int;
        let ghost c0 = self.column as int;
        let start = self.index;
        let sl = self.line;
        let sc = self.column;
        assert(advance(s, start as int, start as int, l0, c0) == (l0, c0));
        self.next_char();
        while self.index < self.chars.len() && self.chars[self.index] != '"'
            invariant
                self.wf(),
                self.chars@ == s,
                start < self.index,
                run_end(s, (start + 1) as nat, Run::StringBody) == run_end(s, self.index as nat, Run::StringBody),
                (self.line as int, self.column as int) == advance(s, start as int, self.index as int, l0, c0),
            decreases self.chars@.len() - self.index,
        {
            self.next_char();
        }
        if self.is_eof() {
            return Err(LexError { kind: LexErrorKind::UnterminatedString, line: self.line, column: self.column });
        }
        let end = self.index;
        self.next_char();
        let value = text_of(&self.chars, start + 1, end);
        Ok(Token::at(value, TOT::STRING, sl, sc))
    }

    fn read_operator(&mut self) -> (t: Token)
        requires
            old(self).wf(),
            old(self).index < old(self).chars@.len(),
        ensures
            ({
                let s = old(self).chars@;
                let i = old(self).index as int;
                let c = s[i];
                if peek_at(s, i + 1) == '=' {
                    &&& old(self).moved_to(final(self), (i + 2) as nat)
                    &&& t@ == (seq![c, '='], TOT::OPERATOR, old(self).line as int, old(self).column as int)
                } else {
                    &&& old(self).moved_to(final(self), (i + 1) as nat)
                    &&& t@ == (seq![c], TOT::OPERATOR, old(self).line as int, old(self).column as int)
                }
            }),
    {
        let ghost s = self.chars@;
        let ghost l0 = self.line as int;
        let ghost c0 = self.column as int;
        let start = self.index;
        let sl = self.line;
        let sc = self.column;
        assert(advance(s, start as int, start as int, l0, c0) == (l0, c0));
        let second = self.peek(1);
        self.next_char();
        assert((self.line as int, self.column as int) == advance(s, start as int, start + 1, l0, c0));
        if second == '=' {
            self.next_char();
            assert((self.line as int, self.column as int) == advance(s, start as int, start + 2, l0, c0));
            let value = text_of(&self.chars, start, start + 2);
            assert(s.subrange(start as int, start + 2) =~= seq![s[start as int], '=']);
            Token::at(value, TOT::OPERATOR, sl, sc)
        } else {
            let value = text_of(&self.chars, start, start + 1);
            assert(s.subrange(start as int, start + 1) =~= seq![s[start as int]]);
            Token::at(value, TOT::OPERATOR, sl, sc)
        }
    }

    fn read_comment(&mut self) -> (t: Token)
        requires
            old(self).wf(),
            old(self).index < old(self).chars@.len(),
            old(self).chars@[old(self).index as int] == '/',
        ensures
            ({
                let s = old(self).chars@;
                let i = old(self).index as nat;
                if peek_at(s, i + 1 as int) == '/' {
                    let j = run_end(s, i + 2, Run::LineComment);
                    &&& old(self).moved_to(final(self), j)
                    &&& t@ == (s.subrange(i + 2 as int, j as int), TOT::COMMENT, old(self).line as int, old(self).column as int)
                } else if peek_at(s, i + 1 as int) == '*' {
                    let j = block_end(s, i + 2);
                    &&& old(self).moved_to(final(self), j)
                    &&& t@ == (s.subrange(i + 2 as int, j as int), TOT::COMMENT, old(self).line as int, old(self).column as int)
                } else {
                    &&& old(self).moved_to(final(self), i + 1)
                    &&& t@ == (seq!['/'], TOT::OPERATOR, old(self).line as int, old(self).column as int)
                }
            }),
    {
        let ghost s = self.chars@;
        let ghost l0 = self.line as int;
        let ghost c0 = self.column as int;
        let start = self.index;
        let sl = self.line;
        let sc = self.column;
        assert(advance(s, start as int, start as int, l0, c0) == (l0, c0));
        let next = self.peek(1);
        if next == '/' {
            self.next_char();
            assert((self.line as int, self.column as int) == advance(s, start as int, start + 1, l0, c0));
            self.next_char();
            assert((self.line as int, self.column as int) == advance(s, start as int, start + 2, l0, c0));
            while self.index < self.chars.len() && self.chars[self.index] != '\n'
                invariant
                    self.wf(),
                    self.chars@ == s,
                    start + 2 <= self.index,
                    run_end(s, (start + 2) as nat, Run::LineComment) == run_end(s, self.index as nat, Run::LineComment),
                    (self.line as int, self.column as int) == advance(s, start as int, self.index as int, l0, c0),
                decreases self.chars@.len() - self.index,
            {
                self.next_char();
            }
            let value = text_of(&self.chars, start + 2, self.index);
            Token::at(value, TOT::COMMENT, sl, sc)
        } else if next == '*' {
            self.next_char();
            assert((self.line as int, self.column as int) == advance(s, start as int, start + 1, l0, c0));
            self.next_char();
            assert((self.line as int, self.column as int) == advance(s, start as int, start + 2, l0, c0));
            while self.index < self.chars.len() && !(self.chars[self.index] == '*' && self.peek(1) == '/')
                invariant
                    self.wf(),
                    self.chars@ == s,
                    start + 2 <= self.index,
                    block_end(s, (start + 2) as nat) == block_end(s, self.index as nat),
                    (self.line as int, self.column as int) == advance(s, start as int, self.index as int, l0, c0),
                decreases self.chars@.len() - self.index,
            {
                self.next_char();
            }
            let value = text_of(&self.chars, start + 2, self.index);
            Token::at(value, TOT::COMMENT, sl, sc)
        } else {
            self.next_char();
            let value = text_of(&self.chars, start, start + 1);
            assert(s.subrange(start as int, start + 1) =~= seq!['/']);
            Token::at(value, TOT::OPERATOR, sl, sc)
        }
    }

    /// Scans the rest of the text into tokens, in source order; fails on the
    /// first character that starts no token, or on an unterminated string.
    pub fn tokenize(&mut self) -> (r: Result<Vec<Token>, LexError>)
        requires
            old(self).wf(),
        ensures
            final(self).wf(),
            final(self).source() == old(self).source(),
            lex_result_view(r) == lex_from(
                old(self).source(),
                old(self).pos(),
                old(self).line(),
                old(self).column(),
            ),
    {
        let ghost s = self.chars@;
        let ghost i0 = self.index as nat;
        let ghost l0 = self.line as int;
        let ghost c0 = self.column as int;
        let mut tokens: Vec<Token> = Vec::new();
        proof {
            if let Ok(x) = lex_from(s, i0, l0, c0) {
                assert(token_views(tokens@) + x =~= x);
            }
        }
        while !self.is_eof()
            invariant
                self.wf(),
                self.chars@ == s,
                s == old(self).chars@,
                i0 == old(self).index,
                l0 == old(self).line,
                c0 == old(self).column,
                lex_from(s, i0, l0, c0) == prepend_all(
                    token_views(tokens@),
                    lex_from(s, self.index as nat, self.line as int, self.column as int),
                ),
            decreases s.len() - self.index,
        {
            let ghost ts = token_views(tokens@);
            let ghost i = self.index as nat;
            let ghost l = self.line as int;
            let ghost c = self.column as int;
            assert(advance(s, i as int, i as int, l, c) == (l, c));
            proof {
                reveal_with_fuel(lex_from, 2);
            }
            let ch = self.peek(0);
            let sl = self.line;
            let sc = self.column;
            let t: Token;
            if is_whitespace(ch) {
                if ch == '\n' {
                    self.next_char();
                    t = Token::at(String::from_str("[newline]"), TOT::NEWLINE, sl, sc);
                    assert(lex_from(s, i, l, c) == prepend(t@, lex_from(s, self.index as nat, self.line as int, self.column as int)));
                } else {
                    self.next_char();
                    continue;
                }
            } else if is_numeric(ch) {
                proof {
                    lemma_run_end(s, i, Run::Digits);
                }
                t = self.read_number();
            } else if is_alphanumeric(ch) {
                proof {
                    lemma_run_end(s, i, Run::Word);
                }
                t = self.read_identifier_or_keyword();
            } else if ch == '(' || ch == ')' || ch == '{' || ch == '}' || ch == '.' || ch == ','
                || ch == ';' {
                self.next_char();
                let value = text_of(&self.chars, self.index - 1, self.index);
                assert(s.subrange(i as int, i + 1 as int) =~= seq![ch]);
                t = Token::at(value, TOT::DELIMITER, sl, sc);
            } else if ch == '"' {
                proof {
                    lemma_run_end(s, i + 1, Run::StringBody);
                }
                match self.read_string() {
                    Ok(tok) => {
                        t = tok;
                    },
                    Err(e) => {
                        return Err(e);
                    },
                }
            } else if ch == '/' {
                proof {
                    lemma_run_end(s, i + 2, Run::LineComment);
                    lemma_block_end(s, i + 2);
                }
                t = self.read_comment();
            } else if ch == '+' || ch == '-' || ch == '*' || ch == '=' {
                t = self.read_operator();
            } else {
                return Err(LexError { kind: LexErrorKind::UnknownCharacter(ch), line: self.line, column: self.column });
            }
            assert(lex_from(s, i, l, c) == prepend(t@, lex_from(s, self.index as nat, self.line as int, self.column as int)));
            proof {
                lemma_prepend_one(ts, t@, lex_from(s, self.index as nat, self.line as int, self.column as int));
                lemma_views_push(tokens@, t);
            }
            tokens.push(t);
        }
        assert(token_views(tokens@) + seq![] =~= token_views(tokens@));
        Ok(tokens)
    }
}

/// Tokenizing is deterministic: two scanners over the same text, standing at the same
/// place, produce the same tokens or the same error.
pub proof fn lemma_tokenize_deterministic(a: Lexer, b: Lexer)
    requires
        a.source() == b.source(),
        a.pos() == b.pos(),
        a.line() == b.line(),
        a.column() == b.column(),
    ensures
        lex_from(a.source(), a.pos(), a.line(), a.column()) == lex_from(
            b.source(),
            b.pos(),
            b.line(),
            b.column(),
        ),
{
}

} // verus!
