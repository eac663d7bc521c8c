use vstd::prelude::*;
use vstd::string::StringExecFns;

verus! {

/// A position in the source text: the line (from 1) and the column of the
/// last character consumed on that line (0 before the first one).
#[derive(Debug, Clone, Copy, PartialEq, Eq, Structural)]
pub struct Loc {
    pub col: usize,
    pub line: usize,
}

#[derive(Debug)]
pub enum TokenKind {
    OpenBracket,
    ClosedBracket,
    OpenSqBracket,
    ClosedSqBracket,
    Comma,
    Colon,
    Ident(String),
    Val(String),
    End,
}

#[derive(Debug)]
pub struct Token {
    pub kind: TokenKind,
    pub loc: Loc,
}

#[derive(Debug, Clone, Copy, PartialEq, Eq, Structural)]
pub enum ParsingErrorKind {
    InvalidTrailingComma,
    MissingEndingComma,
    UnsupportedToken,
    UnexpectedToken,
    InvalidStartingToken,
    InvalidIdentInArray,
    InvalidToken,
    UnterminatedString,
}

#[derive(Debug, Clone, Copy, PartialEq, Eq, Structural)]
pub struct ParsingError {
    pub kind: ParsingErrorKind,
    pub loc: Loc,
}

/// The abstract kind of a token: raw texts as character sequences.
pub enum TokKind {
    OpenBracket,
    ClosedBracket,
    OpenSqBracket,
    ClosedSqBracket,
    Comma,
    Colon,
    Ident(Seq<char>),
    Val(Seq<char>),
    End,
}

pub struct Tok {
    pub kind: TokKind,
    pub loc: Loc,
}

impl TokenKind {
    pub open spec fn view(&self) -> TokKind {
        match self {
            TokenKind::OpenBracket => TokKind::OpenBracket,
            TokenKind::ClosedBracket => TokKind::ClosedBracket,
            TokenKind::OpenSqBracket => TokKind::OpenSqBracket,
            TokenKind::ClosedSqBracket => TokKind::ClosedSqBracket,
            TokenKind::Comma => TokKind::Comma,
            TokenKind::Colon => TokKind::Colon,
            TokenKind::Ident(s) => TokKind::Ident(s@),
            TokenKind::Val(s) => TokKind::Val(s@),
            TokenKind::End => TokKind::End,
        }
    }
}

impl Token {
    pub open spec fn view(&self) -> Tok {
        Tok { kind: self.kind@, loc: self.loc }
    }
}

pub open spec fn lexed(r: Result<Token, ParsingError>) -> Result<Tok, ParsingError> {
    match r {
        Ok(t) => Ok(t@),
        Err(e) => Err(e),
    }
}

/// Where the tokenizer stands in its input.
pub struct Cursor {
    pub pos: int,
    pub line: int,
    pub col: int,
}

pub open spec fn cursor_ok(s: Seq<char>, c: Cursor) -> bool {
    &&& s.len() < usize::MAX
    &&& 0 <= c.pos <= s.len()
    &&& 0 <= c.col
    &&& 1 <= c.line
    &&& c.col + c.line <= c.pos + 1
}

pub open spec fn loc_of(c: Cursor) -> Loc {
    Loc { col: c.col as usize, line: c.line as usize }
}

pub open spec fn err_at(kind: ParsingErrorKind, c: Cursor) -> ParsingError {
    ParsingError { kind, loc: loc_of(c) }
}

pub open spec fn tok_at(kind: TokKind, c: Cursor) -> Tok {
    Tok { kind, loc: loc_of(c) }
}

/// Consumes one character that is not skipped as whitespace.
pub open spec fn adv(c: Cursor) -> Cursor {
    Cursor { pos: c.pos + 1, line: c.line, col: c.col + 1 }
}

/// Consumes one whitespace character: a newline starts the next line.
pub open spec fn adv_ws(s: Seq<char>, c: Cursor) -> Cursor {
    if s[c.pos] == '\n' {
        Cursor { pos: c.pos + 1, line: c.line + 1, col: 0 }
    } else {
        adv(c)
    }
}

/// Unicode's White_Space property, which `char::is_whitespace` tests.
pub open spec fn white_space(c: char) -> bool {
    ('\u{9}' <= c && c <= '\u{d}') || c == ' ' || c == '\u{85}' || c == '\u{a0}' || c == '\u{1680}'
        || ('\u{2000}' <= c && c <= '\u{200a}') || c == '\u{2028}' || c == '\u{2029}' || c
        == '\u{202f}' || c == '\u{205f}' || c == '\u{3000}'
}

pub open spec fn skip_ws(s: Seq<char>, c: Cursor) -> Cursor
    decreases s.len() - c.pos,
{
    if 0 <= c.pos < s.len() && white_space(s[c.pos]) {
        skip_ws(s, adv_ws(s, c))
    } else {
        c
    }
}

pub open spec fn is_delim(c: char) -> bool {
    c == ',' || c == '}' || c == ']'
}

/// A character that may continue a number: a digit, an exponent marker or
/// one of `.`, `-`, `+`.
pub open spec fn is_num(c: char) -> bool {
    ('0' <= c && c <= '9') || c == 'e' || c == 'E' || c == '.' || c == '-' || c == '+'
}

/// The end of a quoted run: the first `"` not preceded by a backslash.
pub open spec fn scan_str(s: Seq<char>, c: Cursor, esc: bool) -> Cursor
    decreases s.len() - c.pos,
{
    if 0 <= c.pos < s.len() && (s[c.pos] != '"' || esc) {
        scan_str(s, adv(c), s[c.pos] == '\\')
    } else {
        c
    }
}

pub open spec fn scan_num(s: Seq<char>, c: Cursor) -> Cursor
    decreases s.len() - c.pos,
{
    if 0 <= c.pos < s.len() && is_num(s[c.pos]) {
        scan_num(s, adv(c))
    } else {
        c
    }
}

/// A bare word runs to the next delimiter; whitespace inside it is dropped.
pub open spec fn scan_bare(s: Seq<char>, c: Cursor) -> (Cursor, Seq<char>)
    decreases s.len() - c.pos,
{
    let t = skip_ws(s, c);
    if 0 <= c.pos <= t.pos < s.len() && !is_delim(s[t.pos]) {
        let r = scan_bare(s, adv(t));
        (r.0, seq![s[t.pos]] + r.1)
    } else {
        (t, Seq::empty())
    }
}

/// A literal must be followed by a delimiter; otherwise the error points at
/// the character that stands in its place.
pub open spec fn finish_val(s: Seq<char>, text: Seq<char>, at: Loc, c: Cursor) -> (
    Result<Tok, ParsingError>,
    Cursor,
) {
    let p = skip_ws(s, c);
    if 0 <= p.pos < s.len() && is_delim(s[p.pos]) {
        (Ok(Tok { kind: TokKind::Val(text), loc: at }), p)
    } else {
        (Err(err_at(ParsingErrorKind::MissingEndingComma, adv(p))), p)
    }
}

pub open spec fn finish_str(s: Seq<char>, text: Seq<char>, at: Loc, c: Cursor) -> (
    Result<Tok, ParsingError>,
    Cursor,
) {
    let p = skip_ws(s, c);
    if 0 <= p.pos < s.len() && s[p.pos] == ':' {
        (Ok(Tok { kind: TokKind::Ident(text), loc: at }), p)
    } else {
        (Ok(Tok { kind: TokKind::Val(seq!['"'] + text + seq!['"']), loc: at }), p)
    }
}

/// The next token, which must be of kind `k`.
pub open spec fn expect_tok(s: Seq<char>, c: Cursor, k: TokKind) -> (Result<Tok, ParsingError>, Cursor) {
    let (r, c1) = next_tok(s, c);
    match r {
        Ok(t) => if t.kind == k {
            (Ok(t), c1)
        } else {
            (Err(ParsingError { kind: ParsingErrorKind::UnexpectedToken, loc: t.loc }), c1)
        },
        Err(e) => (Err(e), c1),
    }
}

/// Prepends `p` to a successful result.
pub open spec fn prepend(p: Seq<Tok>, r: Result<Seq<Tok>, ParsingError>) -> Result<
    Seq<Tok>,
    ParsingError,
> {
    match r {
        Ok(rest) => Ok(p + rest),
        Err(e) => Err(e),
    }
}

/// All tokens of `s` from cursor `c`, up to and including the end token, or
/// the first error.
pub open spec fn lex_all(s: Seq<char>, c: Cursor) -> Result<Seq<Tok>, ParsingError>
    decreases s.len() - c.pos,
{
    let (r, c1) = next_tok(s, c);
    match r {
        Err(e) => Err(e),
        Ok(t) => if !(t.kind is End) && c.pos < c1.pos <= s.len() {
            prepend(seq![t], lex_all(s, c1))
        } else {
            Ok(seq![t])
        },
    }
}

pub open spec fn tok_views(v: Seq<Token>) -> Seq<Tok> {
    v.map_values(|t: Token| t@)
}

/// The next token of `s` from cursor `c`, and the cursor after it.
pub open spec fn next_tok(s: Seq<char>, c: Cursor) -> (Result<Tok, ParsingError>, Cursor) {
    let t = skip_ws(s, c);
    if !(0 <= t.pos < s.len()) {
        (Ok(tok_at(TokKind::End, t)), t)
    } else {
        let ch = s[t.pos];
        let a = adv(t);
        if ch == '{' {
            (Ok(tok_at(TokKind::OpenBracket, a)), a)
        } else if ch == '}' {
            (Ok(tok_at(TokKind::ClosedBracket, a)), a)
        } else if ch == '[' {
            (Ok(tok_at(TokKind::OpenSqBracket, a)), a)
        } else if ch == ']' {
            (Ok(tok_at(TokKind::ClosedSqBracket, a)), a)
        } else if ch == ':' {
            (Ok(tok_at(TokKind::Colon, a)), a)
        } else if ch == ',' {
            let p = skip_ws(s, a);
            if 0 <= p.pos < s.len() && (s[p.pos] == '}' || s[p.pos] == ']') {
                (Err(err_at(ParsingErrorKind::InvalidTrailingComma, a)), p)
            } else {
                (Ok(tok_at(TokKind::Comma, a)), p)
            }
        } else if ch == '"' {
            let e = scan_str(s, a, false);
            if 0 <= e.pos < s.len() {
                finish_str(s, s.subrange(a.pos, e.pos), loc_of(a), adv(e))
            } else {
                (Err(err_at(ParsingErrorKind::UnterminatedString, a)), e)
            }
        } else if '0' <= ch && ch <= '9' {
            let e = scan_num(s, a);
            finish_val(s, s.subrange(t.pos, e.pos), loc_of(a), e)
        } else if ch <= '\x7f' {
            let r = scan_bare(s, a);
            finish_val(s, seq![ch] + r.1, loc_of(a), r.0)
        } else {
            (Err(err_at(ParsingErrorKind::UnsupportedToken, a)), a)
        }
    }
}

fn is_whitespace(c: char) -> (r: bool)
    ensures
        r == white_space(c),
{
    ('\u{9}' <= c && c <= '\u{d}') || c == ' ' || c == '\u{85}' || c == '\u{a0}' || c == '\u{1680}'
        || ('\u{2000}' <= c && c <= '\u{200a}') || c == '\u{2028}' || c == '\u{2029}' || c
        == '\u{202f}' || c == '\u{205f}' || c == '\u{3000}'
}

/// Relies on `String::push`: appends one character.
#[verifier::external_body]
pub(crate) fn push_char(s: &mut String, c: char)
    ensures
        final(s)@ == old(s)@.push(c),
{
    s.push(c)
}

/// Relies on `str::chars`, collected: the characters of the string in order.
#[verifier::external_body]
pub(crate) fn chars_of(s: &str) -> (r: Vec<char>)
    ensures
        r@ == s@,
{
    s.chars().collect()
}

pub fn is_num_char(c: &char) -> (r: bool)
    ensures
        r == is_num(*c),
{
    let c = *c;
    ('0' <= c && c <= '9') || c == 'e' || c == 'E' || c == '.' || c == '-' || c == '+'
}

/// A lazy tokenizer over a character sequence.
#[derive(Clone)]
pub struct Tokenizer {
    chars: Vec<char>,
    pos: usize,
    col: usize,
    line: usize,
}

impl Tokenizer {
    pub closed spec fn input(&self) -> Seq<char> {
        self.chars@
    }

    pub closed spec fn cursor(&self) -> Cursor {
        Cursor { pos: self.pos as int, line: self.line as int, col: self.col as int }
    }

    pub open spec fn wf(&self) -> bool {
        cursor_ok(self.input(), self.cursor())
    }

    pub fn from_str(s: &str) -> (r: Tokenizer)
        requires
            s@.len() < usize::MAX,
        ensures
            r.wf(),
            r.input() == s@,
            r.cursor() == (Cursor { pos: 0, line: 1, col: 0 }),
    {
        Tokenizer::from_iter(chars_of(s))
    }

    pub fn from_iter(iter: Vec<char>) -> (r: Tokenizer)
        requires
            iter@.len() < usize::MAX,
        ensures
            r.wf(),
            r.input() == iter@,
            r.cursor() == (Cursor { pos: 0, line: 1, col: 0 }),
    {
        Tokenizer { chars: iter, pos: 0, col: 0, line: 1 }
    }

    fn cur_loc(&self) -> (r: Loc)
        ensures
            r == loc_of(self.cursor()),
    {
        Loc { col: self.col, line: self.line }
    }

    /// Consumes one character that is not skipped as whitespace.
    fn bump(&mut self)
        requires
            old(self).wf(),
            old(self).cursor().pos < old(self).input().len(),
        ensures
            final(self).wf(),
            final(self).input() == old(self).input(),
            final(self).cursor() == adv(old(self).cursor()),
    {
        self.pos = self.pos + 1;
        self.col = self.col + 1;
    }

    fn skip_whitespace(&mut self)
        requires
            old(self).wf(),
        ensures
            final(self).wf(),
            final(self).input() == old(self).input(),
            final(self).cursor() == skip_ws(old(self).input(), old(self).cursor()),
            final(self).cursor().pos >= old(self).cursor().pos,
    {
        while self.pos < self.chars.len() && is_whitespace(self.chars[self.pos])
            invariant
                self.wf(),
                self.input() == old(self).input(),
                self.pos >= old(self).pos,
                skip_ws(self.input(), self.cursor()) == skip_ws(
                    old(self).input(),
                    old(self).cursor(),
                ),
            decreases self.chars.len() - self.pos,
        {
            if self.chars[self.pos] == '\n' {
                self.col = 0;
                self.line = self.line + 1;
            } else {
                self.col = self.col + 1;
            }
            self.pos = self.pos + 1;
        }
    }

    /// Skips whitespace and shows the next character without consuming it.
    fn peek(&mut self) -> (r: Option<char>)
        requires
            old(self).wf(),
        ensures
            final(self).wf(),
            final(self).input() == old(self).input(),
            final(self).cursor() == skip_ws(old(self).input(), old(self).cursor()),
            final(self).cursor().pos >= old(self).cursor().pos,
            r == (if final(self).cursor().pos < final(self).input().len() {
                Some(final(self).input()[final(self).cursor().pos])
            } else {
                None::<char>
            }),
    {
        self.skip_whitespace();
        if self.pos < self.chars.len() {
            Some(self.chars[self.pos])
        } else {
            None
        }
    }

    fn tokenize_val(&mut self, text: String, loc: Loc) -> (r: Result<Token, ParsingError>)
        requires
            old(self).wf(),
        ensures
            final(self).wf(),
            final(self).input() == old(self).input(),
            final(self).cursor().pos >= old(self).cursor().pos,
            finish_val(old(self).input(), text@, loc, old(self).cursor()) == (
                lexed(r),
                final(self).cursor(),
            ),
    {
        match self.peek() {
            Some(c) => {
                if c == ',' || c == '}' || c == ']' {
                    return Ok(Token { kind: TokenKind::Val(text), loc });
                }
            },
            None => {},
        }
        Err(
            ParsingError {
                kind: ParsingErrorKind::MissingEndingComma,
                loc: Loc { col: self.col + 1, line: self.line },
            },
        )
    }

    /// Reads a quoted run whose opening quote was just consumed at `loc`.
    fn scan_string(&mut self, loc: Loc) -> (r: Result<Token, ParsingError>)
        requires
            old(self).wf(),
            loc == loc_of(old(self).cursor()),
        ensures
            final(self).wf(),
            final(self).input() == old(self).input(),
            final(self).cursor().pos >= old(self).cursor().pos,
            ({
                let s = old(self).input();
                let a = old(self).cursor();
                let e = scan_str(s, a, false);
                (if 0 <= e.pos < s.len() {
                    finish_str(s, s.subrange(a.pos, e.pos), loc, adv(e))
                } else {
                    (Err(err_at(ParsingErrorKind::UnterminatedString, a)), e)
                }) == (lexed(r), final(self).cursor())
            }),
    {
        let ghost s = self.input();
        let ghost a = self.cursor();
        let mut text = String::new();
        let mut esc = false;
        while self.pos < self.chars.len() && (self.chars[self.pos] != '"' || esc)
            invariant
                self.wf(),
                self.input() == s,
                0 <= a.pos <= self.pos,
                scan_str(s, self.cursor(), esc) == scan_str(s, a, false),
                text@ == s.subrange(a.pos, self.pos as int),
            decreases self.chars.len() - self.pos,
        {
            let ch = self.chars[self.pos];
            esc = ch == '\\';
            push_char(&mut text, ch);
            assert(s.subrange(a.pos, self.pos + 1) =~= s.subrange(a.pos, self.pos as int).push(ch));
            self.bump();
        }
        if self.pos >= self.chars.len() {
            return Err(ParsingError { kind: ParsingErrorKind::UnterminatedString, loc });
        }
        self.bump();
        match self.peek() {
            Some(c) => {
                if c == ':' {
                    return Ok(Token { kind: TokenKind::Ident(text), loc });
                }
            },
            None => {},
        }
        let mut quoted = String::new();
        push_char(&mut quoted, '"');
        quoted.append(text.as_str());
        push_char(&mut quoted, '"');
        assert(quoted@ =~= seq!['"'] + text@ + seq!['"']);
        Ok(Token { kind: TokenKind::Val(quoted), loc })
    }

    /// Reads a number whose first digit `c` was just consumed at `loc`.
    fn scan_number(&mut self, c: char, loc: Loc) -> (r: Result<Token, ParsingError>)
        requires
            old(self).wf(),
            loc == loc_of(old(self).cursor()),
            1 <= old(self).cursor().pos,
            old(self).input()[old(self).cursor().pos - 1] == c,
        ensures
            final(self).wf(),
            final(self).input() == old(self).input(),
            final(self).cursor().pos >= old(self).cursor().pos,
            ({
                let s = old(self).input();
                let a = old(self).cursor();
                finish_val(s, s.subrange(a.pos - 1, scan_num(s, a).pos), loc, scan_num(s, a))
                    == (lexed(r), final(self).cursor())
            }),
    {
        let ghost s = self.input();
        let ghost start = self.cursor().pos - 1;
        let mut text = String::new();
        push_char(&mut text, c);
        let ghost a = self.cursor();
        assert(text@ =~= s.subrange(start, a.pos));
        while self.pos < self.chars.len() && is_num_char(&self.chars[self.pos])
            invariant
                self.wf(),
                self.input() == s,
                a.pos <= self.pos,
                a.pos == start + 1,
                0 <= start,
                scan_num(s, self.cursor()) == scan_num(s, a),
                text@ == s.subrange(start, self.pos as int),
            decreases self.chars.len() - self.pos,
        {
            let ch = self.chars[self.pos];
            push_char(&mut text, ch);
            assert(s.subrange(start, self.pos + 1) =~= s.subrange(start, self.pos as int).push(ch));
            self.bump();
        }
        self.tokenize_val(text, loc)
    }

    /// Reads a bare word whose first character `c` was just consumed at `loc`.
    fn scan_word(&mut self, c: char, loc: Loc) -> (r: Result<Token, ParsingError>)
        requires
            old(self).wf(),
            loc == loc_of(old(self).cursor()),
        ensures
            final(self).wf(),
            final(self).input() == old(self).input(),
            final(self).cursor().pos >= old(self).cursor().pos,
            ({
                let s = old(self).input();
                let w = scan_bare(s, old(self).cursor());
                finish_val(s, seq![c] + w.1, loc, w.0) == (lexed(r), final(self).cursor())
            }),
    {
        let ghost s = self.input();
        let mut text = String::new();
        push_char(&mut text, c);
        let ghost a = self.cursor();
        loop
            invariant_except_break
                scan_bare(s, self.cursor()).0 == scan_bare(s, a).0,
                seq![c] + scan_bare(s, a).1 == text@ + scan_bare(s, self.cursor()).1,
            invariant
                self.wf(),
                self.input() == s,
                a.pos <= self.pos,
            ensures
                self.wf(),
                self.input() == s,
                scan_bare(s, a).0 == self.cursor(),
                seq![c] + scan_bare(s, a).1 == text@,
            decreases self.chars.len() - self.pos,
        {
            let ghost before = self.cursor();
            self.skip_whitespace();
            if self.pos < self.chars.len() && !(self.chars[self.pos] == ','
                || self.chars[self.pos] == '}' || self.chars[self.pos] == ']') {
                let ch = self.chars[self.pos];
                let ghost t0 = text@;
                push_char(&mut text, ch);
                assert(seq![ch] + scan_bare(s, adv(self.cursor())).1 == scan_bare(s, before).1);
                assert(text@ + scan_bare(s, adv(self.cursor())).1 =~= t0 + (seq![ch]
                    + scan_bare(s, adv(self.cursor())).1));
                self.bump();
            } else {
                break;
            }
        }
        self.tokenize_val(text, loc)
    }

    /// Produces the next token, or the error at the first character that
    /// cannot start or end one.
    pub fn next_token(&mut self) -> (r: Result<Token, ParsingError>)
        requires
            old(self).wf(),
        ensures
            final(self).wf(),
            final(self).input() == old(self).input(),
            final(self).cursor().pos >= old(self).cursor().pos,
            (r is Ok && !(r->Ok_0.kind is End)) ==> final(self).cursor().pos > old(self).cursor().pos,
            next_tok(old(self).input(), old(self).cursor()) == (lexed(r), final(self).cursor()),
    {
        let ghost s = self.input();
        self.skip_whitespace();
        let ghost t = self.cursor();
        if self.pos >= self.chars.len() {
            return Ok(Token { kind: TokenKind::End, loc: self.cur_loc() });
        }
        let c = self.chars[self.pos];
        self.bump();
        let loc = self.cur_loc();
        if c == '{' {
            Ok(Token { kind: TokenKind::OpenBracket, loc })
        } else if c == '}' {
            Ok(Token { kind: TokenKind::ClosedBracket, loc })
        } else if c == '[' {
            Ok(Token { kind: TokenKind::OpenSqBracket, loc })
        } else if c == ']' {
            Ok(Token { kind: TokenKind::ClosedSqBracket, loc })
        } else if c == ':' {
            Ok(Token { kind: TokenKind::Colon, loc })
        } else if c == ',' {
            match self.peek() {
                Some(d) => {
                    if d == '}' || d == ']' {
                        return Err(ParsingError { kind: ParsingErrorKind::InvalidTrailingComma, loc });
                    }
                },
                None => {},
            }
            Ok(Token { kind: TokenKind::Comma, loc })
        } else if c == '"' {
            self.scan_string(loc)
        } else if '0' <= c && c <= '9' {
            self.scan_number(c, loc)
        } else if c <= '\x7f' {
            self.scan_word(c, loc)
        } else {
            Err(ParsingError { kind: ParsingErrorKind::UnsupportedToken, loc })
        }
    }

    /// Drains the token sequence: every token up to and including the end
    /// token, or the first error.
    pub fn tokens(&mut self) -> (r: Result<Vec<Token>, ParsingError>)
        requires
            old(self).wf(),
        ensures
            final(self).wf(),
            final(self).input() == old(self).input(),
            match r {
                Ok(v) => lex_all(old(self).input(), old(self).cursor()) == Ok::<
                    Seq<Tok>,
                    ParsingError,
                >(tok_views(v@)),
                Err(e) => lex_all(old(self).input(), old(self).cursor()) == Err::<
                    Seq<Tok>,
                    ParsingError,
                >(e),
            },
    {
        let ghost s = self.input();
        let ghost c0 = self.cursor();
        let mut out: Vec<Token> = Vec::new();
        loop
            invariant
                self.wf(),
                self.input() == s,
                s == old(self).input(),
                c0 == old(self).cursor(),
                lex_all(s, c0) == prepend(tok_views(out@), lex_all(s, self.cursor())),
            decreases s.len() - self.cursor().pos,
        {
            let ghost before = tok_views(out@);
            let token = match self.next_token() {
                Ok(t) => t,
                Err(e) => return Err(e),
            };
            let ghost t = token@;
            let is_end = match token.kind {
                TokenKind::End => true,
                _ => false,
            };
            out.push(token);
            assert(tok_views(out@) =~= before + seq![t]);
            if is_end {
                return Ok(out);
            }
            assert(prepend(before, prepend(seq![t], lex_all(s, self.cursor()))) == prepend(
                tok_views(out@),
                lex_all(s, self.cursor()),
            )) by {
                assert(before + seq![t] =~= tok_views(out@));
                match lex_all(s, self.cursor()) {
                    Ok(rest) => {
                        assert(before + (seq![t] + rest) =~= tok_views(out@) + rest);
                    },
                    Err(_) => {},
                }
            }
        }
    }

    /// Reads the next token and requires it to be of kind `kind`.
    pub fn expect_token(&mut self, kind: TokenKind) -> (r: Result<Token, ParsingError>)
        requires
            old(self).wf(),
        ensures
            final(self).wf(),
            final(self).input() == old(self).input(),
            final(self).cursor().pos >= old(self).cursor().pos,
            (r is Ok && !(kind@ is End)) ==> final(self).cursor().pos > old(self).cursor().pos,
            expect_tok(old(self).input(), old(self).cursor(), kind@) == (lexed(r), final(self).cursor()),
    {
        match self.next_token() {
            Ok(token) => {
                if same_kind(&token.kind, &kind) {
                    Ok(token)
                } else {
                    Err(ParsingError { kind: ParsingErrorKind::UnexpectedToken, loc: token.loc })
                }
            },
            Err(e) => Err(e),
        }
    }
}

fn same_kind(a: &TokenKind, b: &TokenKind) -> (r: bool)
    ensures
        r == (a@ == b@),
{
    match a {
        TokenKind::OpenBracket => match b {
            TokenKind::OpenBracket => true,
            _ => false,
        },
        TokenKind::ClosedBracket => match b {
            TokenKind::ClosedBracket => true,
            _ => false,
        },
        TokenKind::OpenSqBracket => match b {
            TokenKind::OpenSqBracket => true,
            _ => false,
        },
        TokenKind::ClosedSqBracket => match b {
            TokenKind::ClosedSqBracket => true,
            _ => false,
        },
        TokenKind::Comma => match b {
            TokenKind::Comma => true,
            _ => false,
        },
        TokenKind::Colon => match b {
            TokenKind::Colon => true,
            _ => false,
        },
        TokenKind::Ident(x) => match b {
            TokenKind::Ident(y) => x.eq(y),
            _ => false,
        },
        TokenKind::Val(x) => match b {
            TokenKind::Val(y) => x.eq(y),
            _ => false,
        },
        TokenKind::End => match b {
            TokenKind::End => true,
            _ => false,
        },
    }
}

} // verus!
