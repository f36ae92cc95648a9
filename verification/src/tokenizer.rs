//! The lexer: a greedy single-pass scanner from source text to a token
//! stream terminated by `Eof`. The spec-level lexer `lex_from` states the
//! exact token stream (tags, lexeme spans, line/column positions) for every
//! input; `Tokenizer::tokenize` is proved to produce exactly that stream.
use vstd::prelude::*;

verus! {

/// The tag of a token.
#[derive(Clone, Copy, Debug, PartialEq, Eq, Structural)]
pub enum TokenType {
    Sym,
    Str,
    Num,
    OpPlus,
    OpMinus,
    OpMul,
    OpDiv,
    OpMod,
    OpOr,
    OpAnd,
    OpNot,
    OpLs,
    OpGt,
    OpLsEq,
    OpGtEq,
    OpEq,
    OpNotEq,
    Assign,
    Comma,
    Dot,
    Colon,
    End,
    LBr,
    RBr,
    LBlock,
    RBlock,
    LPar,
    RPar,
    Comment,
    Empty,
    Eof,
}

/// One token: its tag, the original lexeme, and the line/column it was
/// recorded at. `num` is the 32-bit value payload of a `Num` token,
/// supplied by the embedding before parsing: the verified core treats a
/// number literal as an opaque 32-bit pattern and never interprets it.
#[derive(Debug)]
pub struct Token {
    pub type_: TokenType,
    pub text: String,
    pub line: usize,
    pub col: usize,
    pub num: u32,
}

impl Token {
    pub fn new(t: TokenType, text: String, line: usize, col: usize) -> (r: Token)
        ensures
            r.type_ == t,
            r.text == text,
            r.line == line,
            r.col == col,
            r.num == 0,
    {
        Token { type_: t, text, line, col, num: 0 }
    }

    pub fn new_empty() -> (r: Token)
        ensures
            r.type_ == TokenType::Empty,
            r.text@ == Seq::<char>::empty(),
            r.line == 0,
            r.col == 0,
            r.num == 0,
    {
        Token { type_: TokenType::Empty, text: String::new(), line: 0, col: 0, num: 0 }
    }

    /// The lexeme when this token is a symbol, `None` otherwise.
    pub fn as_sym(&self) -> (r: Option<&str>)
        ensures
            match r {
                Some(s) => self.type_ == TokenType::Sym && s@ == self.text@,
                None => self.type_ != TokenType::Sym,
            },
    {
        if self.type_ == TokenType::Sym {
            Some(self.text.as_str())
        } else {
            None
        }
    }
}

/// Spec-level token: tag, lexeme span `[start, end)` in the source, and the
/// line/column the scanner records for it.
pub struct TokenM {
    pub kind: TokenType,
    pub start: int,
    pub end: int,
    pub line: int,
    pub col: int,
}

/// A lexing failure: the position and the offending character
/// (`None` stands for end of input).
#[derive(Debug, PartialEq, Eq)]
pub struct LexError {
    pub line: usize,
    pub col: usize,
    pub ch: Option<char>,
}

/// Spec-level lexing failure.
pub struct LexErrorM {
    pub line: int,
    pub col: int,
    pub ch: Option<char>,
}

pub open spec fn is_ws(c: char) -> bool {
    c == ' ' || c == '\t' || c == '\n'
}

pub open spec fn is_alpha(c: char) -> bool {
    ('A' <= c && c <= 'Z') || ('a' <= c && c <= 'z')
}

pub open spec fn is_digit(c: char) -> bool {
    '0' <= c && c <= '9'
}

/// Characters that may continue an identifier.
pub open spec fn is_sym_char(c: char) -> bool {
    is_alpha(c) || is_digit(c) || c == '_'
}

/// End of the identifier whose continuation starts at `i`.
pub open spec fn sym_end(s: Seq<char>, i: int) -> int
    decreases s.len() - i,
{
    if i < 0 || i >= s.len() || !is_sym_char(s[i]) {
        i
    } else {
        sym_end(s, i + 1)
    }
}

/// End of the number whose continuation starts at `i`; `seen_dot` records
/// whether the digits scanned so far already hold a decimal point.
pub open spec fn num_end(s: Seq<char>, i: int, seen_dot: bool) -> int
    decreases s.len() - i,
{
    if i < 0 || i >= s.len() {
        i
    } else if is_digit(s[i]) {
        num_end(s, i + 1, seen_dot)
    } else if s[i] == '.' && !seen_dot {
        num_end(s, i + 1, true)
    } else {
        i
    }
}

/// First position of `c` at or after `i`, or `None`.
pub open spec fn find_char_from(s: Seq<char>, c: char, i: int) -> Option<int>
    decreases s.len() - i,
{
    if i < 0 || i >= s.len() {
        None
    } else if s[i] == c {
        Some(i)
    } else {
        find_char_from(s, c, i + 1)
    }
}

/// Line and column after scanning the span `[i, j)`: a newline bumps the
/// line and resets the column, any other character advances the column.
pub open spec fn adv(s: Seq<char>, i: int, j: int, line: int, col: int) -> (int, int)
    decreases j - i,
{
    if i >= j {
        (line, col)
    } else if s[i] == '\n' {
        adv(s, i + 1, j, line + 1, 0)
    } else {
        adv(s, i + 1, j, line, col + 1)
    }
}

/// One token of kind `k` spanning `[i, j)`, recorded at `(line, col)`,
/// followed by the rest of the stream.
pub open spec fn lex_cons(k: TokenType, i: int, j: int, line: int, col: int, rest: Result<
    Seq<TokenM>,
    LexErrorM,
>) -> Result<Seq<TokenM>, LexErrorM> {
    match rest {
        Ok(ms) => Ok(seq![TokenM { kind: k, start: i, end: j, line, col }] + ms),
        Err(e) => Err(e),
    }
}

/// The stream closed off by the `Eof` token. A token still under
/// construction when the input ends is never committed: its span is
/// swallowed into the `Eof` token's lexeme, so `start` may lie below the
/// end of input here.
pub open spec fn lex_eof(s: Seq<char>, start: int, line: int, col: int) -> Result<
    Seq<TokenM>,
    LexErrorM,
> {
    let (l, c) = adv(s, start, s.len() as int, line, col);
    Ok(seq![TokenM { kind: TokenType::Eof, start, end: s.len() as int, line: l, col: c }])
}

/// The token stream of `s` from position `i` on, with the scanner at
/// `(line, col)`; `i` must be a point between tokens. Greedy and
/// deterministic; `Err` carries the position of the first unscannable
/// character.
pub open spec fn lex_from(s: Seq<char>, i: int, line: int, col: int) -> Result<
    Seq<TokenM>,
    LexErrorM,
>
    decreases s.len() - i, 1int,
{
    if i < 0 {
        Err(LexErrorM { line, col, ch: None })
    } else if i >= s.len() {
        lex_eof(s, s.len() as int, line, col)
    } else {
        let c = s[i];
        if is_ws(c) {
            if c == '\n' {
                lex_from(s, i + 1, line + 1, 0)
            } else {
                lex_from(s, i + 1, line, col + 1)
            }
        } else if is_alpha(c) {
            let j = sym_end(s, i + 1);
            if j >= s.len() {
                lex_eof(s, i, line, col)
            } else {
                lex_cons(TokenType::Sym, i, j, line, col, lex_span(s, i, j, line, col))
            }
        } else if is_digit(c) {
            let j = num_end(s, i + 1, false);
            if j >= s.len() {
                lex_eof(s, i, line, col)
            } else {
                lex_cons(TokenType::Num, i, j, line, col, lex_span(s, i, j, line, col))
            }
        } else if c == '\'' {
            match find_char_from(s, '\'', i + 1) {
                None => lex_eof(s, i, line, col),
                Some(q) => lex_cons(TokenType::Str, i, q + 1, line, col, lex_span(s, i, q + 1, line, col)),
            }
        } else if c == '/' {
            if i + 1 < s.len() && s[i + 1] == '/' {
                match find_char_from(s, '\n', i + 2) {
                    None => lex_eof(s, i, line, col),
                    Some(n) => {
                        // the clamps only discharge termination: the
                        // newline found lies within `[i + 2, len)`
                        let na = if n < i + 1 {
                            i + 1
                        } else {
                            n
                        };
                        let n1 = if na + 1 > s.len() {
                            s.len() as int
                        } else {
                            na + 1
                        };
                        lex_from(s, n1, line + 1, 0)
                    },
                }
            } else {
                // the scanner records a lone slash one column late
                lex_cons(TokenType::OpDiv, i, i + 1, line, col + 1, lex_span(s, i, i + 1, line, col))
            }
        } else if c == '=' || c == '!' || c == '<' || c == '>' {
            let one = if c == '=' {
                TokenType::Assign
            } else if c == '!' {
                TokenType::OpNot
            } else if c == '<' {
                TokenType::OpLs
            } else {
                TokenType::OpGt
            };
            let two = if c == '=' {
                TokenType::OpEq
            } else if c == '!' {
                TokenType::OpNotEq
            } else if c == '<' {
                TokenType::OpLsEq
            } else {
                TokenType::OpGtEq
            };
            if i + 1 < s.len() && s[i + 1] == '=' {
                // a two-character token is recorded two columns late
                lex_cons(two, i, i + 2, line, col + 2, lex_span(s, i, i + 2, line, col))
            } else {
                lex_cons(one, i, i + 1, line, col, lex_span(s, i, i + 1, line, col))
            }
        } else if c == '|' || c == '&' {
            if i + 1 < s.len() && s[i + 1] == c {
                let two = if c == '|' {
                    TokenType::OpOr
                } else {
                    TokenType::OpAnd
                };
                lex_cons(two, i, i + 2, line, col + 2, lex_span(s, i, i + 2, line, col))
            } else {
                // a lone `|` or `&` is a lex error, reported one column late
                Err(
                    LexErrorM {
                        line,
                        col: col + 1,
                        ch: if i + 1 < s.len() {
                            Some(s[i + 1])
                        } else {
                            None
                        },
                    },
                )
            }
        } else {
            match single_char_token(c) {
                Some(k) => lex_cons(k, i, i + 1, line, col, lex_span(s, i, i + 1, line, col)),
                None => Err(LexErrorM { line, col, ch: Some(c) }),
            }
        }
    }
}

/// The rest of the stream after a token spanning `[i, j)`: the scanner's
/// line/column advance across the span, then the stream from `j` on.
/// The clamp to `i + 1` only discharges termination; every caller hands
/// a `j` above `i`.
pub open spec fn lex_span(s: Seq<char>, i: int, j: int, line: int, col: int) -> Result<
    Seq<TokenM>,
    LexErrorM,
>
    decreases s.len() - i, 0int,
{
    if i < 0 || i >= s.len() {
        lex_eof(s, s.len() as int, line, col)
    } else {
        let ja = if j < i + 1 {
            i + 1
        } else {
            j
        };
        let j1 = if ja > s.len() {
            s.len() as int
        } else {
            ja
        };
        let (l, c) = adv(s, i, j1, line, col);
        lex_from(s, j1, l, c)
    }
}

/// The tag of a token made of the one character `c`, for the characters
/// that form one by themselves.
pub open spec fn single_char_token(c: char) -> Option<TokenType> {
    if c == '+' {
        Some(TokenType::OpPlus)
    } else if c == '-' {
        Some(TokenType::OpMinus)
    } else if c == '*' {
        Some(TokenType::OpMul)
    } else if c == '%' {
        Some(TokenType::OpMod)
    } else if c == '(' {
        Some(TokenType::LPar)
    } else if c == ')' {
        Some(TokenType::RPar)
    } else if c == '[' {
        Some(TokenType::LBr)
    } else if c == ']' {
        Some(TokenType::RBr)
    } else if c == '{' {
        Some(TokenType::LBlock)
    } else if c == '}' {
        Some(TokenType::RBlock)
    } else if c == '.' {
        Some(TokenType::Dot)
    } else if c == ';' {
        Some(TokenType::End)
    } else if c == ':' {
        Some(TokenType::Colon)
    } else if c == ',' {
        Some(TokenType::Comma)
    } else {
        None
    }
}

/// The whole token stream of `s`: scanning starts at line 1, column 0.
pub open spec fn lex(s: Seq<char>) -> Result<Seq<TokenM>, LexErrorM> {
    lex_from(s, 0, 1, 0)
}

/// The exec tokens `ts` carry exactly the stream `ms`: same tags, the
/// lexemes are the spans cut from `s`, same positions.
pub open spec fn toks_match(s: Seq<char>, ts: Seq<Token>, ms: Seq<TokenM>) -> bool {
    &&& ts.len() == ms.len()
    &&& forall|k: int|
        0 <= k < ms.len() ==> {
            &&& (#[trigger] ts[k]).type_ == ms[k].kind
            &&& ts[k].text@ == s.subrange(ms[k].start, ms[k].end)
            &&& ts[k].line == ms[k].line
            &&& ts[k].col == ms[k].col
        }
}

/// The scanner over one source text.
pub struct Tokenizer {
    pub text: String,
    pub chars: Vec<char>,
}

impl Tokenizer {
    /// The character buffer is the text, decoded once.
    pub open spec fn wf(&self) -> bool {
        self.chars@ == self.text@
    }

    pub fn new(text: &str) -> (t: Tokenizer)
        ensures
            t.wf(),
            t.text@ == text@,
    {
        let n = text.unicode_len();
        let mut chars: Vec<char> = Vec::new();
        let mut k: usize = 0;
        while k < n
            invariant
                n == text@.len(),
                0 <= k <= n,
                chars@ == text@.subrange(0, k as int),
            decreases n - k,
        {
            chars.push(text.get_char(k));
            proof {
                assert(chars@ =~= text@.subrange(0, k + 1 as int));
            }
            k = k + 1;
        }
        proof {
            assert(chars@ =~= text@);
        }
        Tokenizer { text: String::from_str(text), chars }
    }

    /// Scan the whole text. On success the returned tokens are exactly the
    /// stream `lex` states, ending with `Eof`; on failure the error carries
    /// the position and character `lex` states, and no tokens are returned.
    #[verifier::rlimit(100)]
    pub fn tokenize(&mut self) -> (r: Result<Vec<Token>, LexError>)
        requires
            old(self).wf(),
            old(self).text@.len() + 1 < usize::MAX,
        ensures
            *final(self) == *old(self),
            match r {
                Ok(ts) => lex(old(self).text@) is Ok && toks_match(
                    old(self).text@,
                    ts@,
                    lex(old(self).text@)->Ok_0,
                ),
                Err(e) => lex(old(self).text@) is Err && {
                    let m = lex(old(self).text@)->Err_0;
                    e.line == m.line && e.col == m.col && e.ch == m.ch
                },
            },
    {
        let len = self.chars.len();
        let mut toks: Vec<Token> = Vec::new();
        let ghost mut emitted: Seq<TokenM> = Seq::empty();
        let mut i: usize = 0;
        let mut line: usize = 1;
        let mut col: usize = 0;
        loop
            invariant
                self.wf(),
                *self == *old(self),
                len == self.chars@.len(),
                len + 1 < usize::MAX,
                0 <= i <= len,
                1 <= line <= i + 1,
                col <= i,
                toks_match(self.chars@, toks@, emitted),
                forall|ms: Seq<TokenM>|
                    lex_from(self.chars@, i as int, line as int, col as int) == Ok::<
                        _,
                        LexErrorM,
                    >(ms) ==> lex(self.chars@) == Ok::<Seq<TokenM>, LexErrorM>(emitted + ms),
                forall|e: LexErrorM|
                    lex_from(self.chars@, i as int, line as int, col as int) == Err::<
                        Seq<TokenM>,
                        _,
                    >(e) ==> lex(self.chars@) == Err::<Seq<TokenM>, LexErrorM>(e),
            decreases len - i,
        {
            let ghost s = self.chars@;
            let ghost r_old = lex_from(s, i as int, line as int, col as int);
            if i >= len {
                let t = Token::new(TokenType::Eof, String::new(), line, col);
                proof {
                    let m = TokenM {
                        kind: TokenType::Eof,
                        start: len as int,
                        end: len as int,
                        line: line as int,
                        col: col as int,
                    };
                    assert(adv(s, len as int, len as int, line as int, col as int) == (
                    line as int,
                    col as int,
                    ));
                    assert(r_old == Ok::<_, LexErrorM>(seq![m]));
                    assert(t.text@ =~= s.subrange(len as int, len as int));
                    assert(toks_match(s, toks@.push(t), emitted + seq![m]));
                    emitted = emitted + seq![m];
                }
                toks.push(t);
                return Ok(toks);
            }
            let c = self.chars[i];
            if c == ' ' || c == '\t' || c == '\n' {
                if c == '\n' {
                    line = line + 1;
                    col = 0;
                } else {
                    col = col + 1;
                }
                i = i + 1;
            } else if is_alpha_c(c) {
                let j = scan_sym(&self.chars, i + 1);
                if j >= len {
                    proof {
                        assert(r_old == lex_eof(s, i as int, line as int, col as int));
                    }
                    return Ok(self.finish_eof(toks, Ghost(emitted), i, line, col));
                }
                let (l2, c2) = advance(&self.chars, i, j, line, col);
                let t = self.make_token(TokenType::Sym, i, j, line, col);
                proof {
                    let m = TokenM {
                        kind: TokenType::Sym,
                        start: i as int,
                        end: j as int,
                        line: line as int,
                        col: col as int,
                    };
                    let r_new = lex_from(s, j as int, l2 as int, c2 as int);
                    assert(lex_span(s, i as int, j as int, line as int, col as int) == r_new);
                    assert(r_old == lex_cons(m.kind, m.start, m.end, m.line, m.col, r_new));
                    lemma_emit_step(s, emitted, m, r_old, r_new);
                    assert(toks_match(s, toks@.push(t), emitted + seq![m]));
                    emitted = emitted + seq![m];
                }
                toks.push(t);
                line = l2;
                col = c2;
                i = j;
            } else if is_digit_c(c) {
                let j = scan_num(&self.chars, i + 1, false);
                if j >= len {
                    proof {
                        assert(r_old == lex_eof(s, i as int, line as int, col as int));
                    }
                    return Ok(self.finish_eof(toks, Ghost(emitted), i, line, col));
                }
                let (l2, c2) = advance(&self.chars, i, j, line, col);
                let t = self.make_token(TokenType::Num, i, j, line, col);
                proof {
                    let m = TokenM {
                        kind: TokenType::Num,
                        start: i as int,
                        end: j as int,
                        line: line as int,
                        col: col as int,
                    };
                    let r_new = lex_from(s, j as int, l2 as int, c2 as int);
                    assert(lex_span(s, i as int, j as int, line as int, col as int) == r_new);
                    assert(r_old == lex_cons(m.kind, m.start, m.end, m.line, m.col, r_new));
                    lemma_emit_step(s, emitted, m, r_old, r_new);
                    assert(toks_match(s, toks@.push(t), emitted + seq![m]));
                    emitted = emitted + seq![m];
                }
                toks.push(t);
                line = l2;
                col = c2;
                i = j;
            } else if c == '\'' {
                match scan_char(&self.chars, '\'', i + 1) {
                    None => {
                        proof {
                            assert(r_old == lex_eof(s, i as int, line as int, col as int));
                        }
                        return Ok(self.finish_eof(toks, Ghost(emitted), i, line, col));
                    },
                    Some(q) => {
                        let j = q + 1;
                        let (l2, c2) = advance(&self.chars, i, j, line, col);
                        let t = self.make_token(TokenType::Str, i, j, line, col);
                        proof {
                            let m = TokenM {
                                kind: TokenType::Str,
                                start: i as int,
                                end: j as int,
                                line: line as int,
                                col: col as int,
                            };
                            let r_new = lex_from(s, j as int, l2 as int, c2 as int);
                            assert(lex_span(s, i as int, j as int, line as int, col as int)
                                == r_new);
                            assert(r_old == lex_cons(m.kind, m.start, m.end, m.line, m.col, r_new));
                            lemma_emit_step(s, emitted, m, r_old, r_new);
                            assert(toks_match(s, toks@.push(t), emitted + seq![m]));
                            emitted = emitted + seq![m];
                        }
                        toks.push(t);
                        line = l2;
                        col = c2;
                        i = j;
                    },
                }
            } else if c == '/' {
                if i + 1 < len && self.chars[i + 1] == '/' {
                    match scan_char(&self.chars, '\n', i + 2) {
                        None => {
                            proof {
                                assert(r_old == lex_eof(s, i as int, line as int, col as int));
                            }
                            return Ok(self.finish_eof(toks, Ghost(emitted), i, line, col));
                        },
                        Some(n) => {
                            proof {
                                assert(r_old == lex_from(s, n + 1 as int, line + 1 as int, 0));
                            }
                            line = line + 1;
                            col = 0;
                            i = n + 1;

                        },
                    }
                } else {
                    let t = self.make_token_at(TokenType::OpDiv, i, i + 1, line, col, line, col + 1);
                    proof {
                        reveal_with_fuel(adv, 3);
                        let m = TokenM {
                            kind: TokenType::OpDiv,
                            start: i as int,
                            end: i + 1 as int,
                            line: line as int,
                            col: col + 1 as int,
                        };
                        let r_new = lex_from(s, i + 1 as int, line as int, col + 1 as int);
                        assert(lex_span(s, i as int, i + 1 as int, line as int, col as int)
                            == r_new);
                        assert(r_old == lex_cons(m.kind, m.start, m.end, m.line, m.col, r_new));
                        lemma_emit_step(s, emitted, m, r_old, r_new);
                        assert(toks_match(s, toks@.push(t), emitted + seq![m]));
                        emitted = emitted + seq![m];
                    }
                    toks.push(t);
                    col = col + 1;
                    i = i + 1;
                }
            } else if c == '=' || c == '!' || c == '<' || c == '>' {
                let one = if c == '=' {
                    TokenType::Assign
                } else if c == '!' {
                    TokenType::OpNot
                } else if c == '<' {
                    TokenType::OpLs
                } else {
                    TokenType::OpGt
                };
                let two = if c == '=' {
                    TokenType::OpEq
                } else if c == '!' {
                    TokenType::OpNotEq
                } else if c == '<' {
                    TokenType::OpLsEq
                } else {
                    TokenType::OpGtEq
                };
                if i + 1 < len && self.chars[i + 1] == '=' {
                    let t = self.make_token_at(two, i, i + 2, line, col, line, col + 2);
                    proof {
                        reveal_with_fuel(adv, 3);
                        let m = TokenM {
                            kind: two,
                            start: i as int,
                            end: i + 2 as int,
                            line: line as int,
                            col: col + 2 as int,
                        };
                        let r_new = lex_from(s, i + 2 as int, line as int, col + 2 as int);
                        assert(lex_span(s, i as int, i + 2 as int, line as int, col as int)
                            == r_new);
                        assert(r_old == lex_cons(m.kind, m.start, m.end, m.line, m.col, r_new));
                        lemma_emit_step(s, emitted, m, r_old, r_new);
                        assert(toks_match(s, toks@.push(t), emitted + seq![m]));
                        emitted = emitted + seq![m];
                    }
                    toks.push(t);
                    col = col + 2;
                    i = i + 2;
                } else {
                    let t = self.make_token(one, i, i + 1, line, col);
                    proof {
                        reveal_with_fuel(adv, 3);
                        let m = TokenM {
                            kind: one,
                            start: i as int,
                            end: i + 1 as int,
                            line: line as int,
                            col: col as int,
                        };
                        let r_new = lex_from(s, i + 1 as int, line as int, col + 1 as int);
                        assert(lex_span(s, i as int, i + 1 as int, line as int, col as int)
                            == r_new);
                        assert(r_old == lex_cons(m.kind, m.start, m.end, m.line, m.col, r_new));
                        lemma_emit_step(s, emitted, m, r_old, r_new);
                        assert(toks_match(s, toks@.push(t), emitted + seq![m]));
                        emitted = emitted + seq![m];
                    }
                    toks.push(t);
                    col = col + 1;
                    i = i + 1;
                }
            } else if c == '|' || c == '&' {
                if i + 1 < len && self.chars[i + 1] == c {
                    let two = if c == '|' {
                        TokenType::OpOr
                    } else {
                        TokenType::OpAnd
                    };
                    let t = self.make_token_at(two, i, i + 2, line, col, line, col + 2);
                    proof {
                        reveal_with_fuel(adv, 3);
                        let m = TokenM {
                            kind: two,
                            start: i as int,
                            end: i + 2 as int,
                            line: line as int,
                            col: col + 2 as int,
                        };
                        let r_new = lex_from(s, i + 2 as int, line as int, col + 2 as int);
                        assert(lex_span(s, i as int, i + 2 as int, line as int, col as int)
                            == r_new);
                        assert(r_old == lex_cons(m.kind, m.start, m.end, m.line, m.col, r_new));
                        lemma_emit_step(s, emitted, m, r_old, r_new);
                        assert(toks_match(s, toks@.push(t), emitted + seq![m]));
                        emitted = emitted + seq![m];
                    }
                    toks.push(t);
                    col = col + 2;
                    i = i + 2;
                } else {
                    let ch = if i + 1 < len {
                        Some(self.chars[i + 1])
                    } else {
                        None
                    };
                    return Err(LexError { line, col: col + 1, ch });
                }
            } else {
                match single_char_token_c(c) {
                    Some(k) => {
                        let t = self.make_token(k, i, i + 1, line, col);
                        proof {
                            reveal_with_fuel(adv, 3);
                            let m = TokenM {
                                kind: k,
                                start: i as int,
                                end: i + 1 as int,
                                line: line as int,
                                col: col as int,
                            };
                            let r_new = lex_from(s, i + 1 as int, line as int, col + 1 as int);
                            assert(lex_span(s, i as int, i + 1 as int, line as int, col as int)
                                == r_new);
                            assert(r_old == lex_cons(m.kind, m.start, m.end, m.line, m.col, r_new));
                            lemma_emit_step(s, emitted, m, r_old, r_new);
                            assert(toks_match(s, toks@.push(t), emitted + seq![m]));
                            emitted = emitted + seq![m];
                        }
                        toks.push(t);
                        col = col + 1;
                        i = i + 1;
                    },
                    None => {
                        return Err(LexError { line, col, ch: Some(c) });
                    },
                }
            }
        }
    }

    /// Commit the trailing `Eof` token when the input ends while a token is
    /// still under construction: its lexeme swallows the pending span.
    fn finish_eof(&self, toks: Vec<Token>, emitted: Ghost<Seq<TokenM>>, start: usize, line: usize, col: usize) -> (r: Vec<Token>)
        requires
            self.wf(),
            start <= self.chars@.len(),
            line + (self.chars@.len() - start) <= usize::MAX,
            col + (self.chars@.len() - start) <= usize::MAX,
            toks_match(self.chars@, toks@, emitted@),
            lex_eof(self.chars@, start as int, line as int, col as int) is Ok,
            forall|ms: Seq<TokenM>|
                lex_eof(self.chars@, start as int, line as int, col as int) == Ok::<
                    _,
                    LexErrorM,
                >(ms) ==> lex(self.chars@) == Ok::<Seq<TokenM>, LexErrorM>(emitted@ + ms),
        ensures
            lex(self.chars@) is Ok,
            toks_match(self.chars@, r@, lex(self.chars@)->Ok_0),
    {
        let s = &self.chars;
        let len = s.len();
        let (l2, c2) = advance(s, start, len, line, col);
        let text = String::from_str(self.text.as_str().substring_char(start, len));
        let mut toks = toks;
        let mut t = Token::new(TokenType::Eof, text, l2, c2);
        toks.push(t);
        proof {
            let m = TokenM {
                kind: TokenType::Eof,
                start: start as int,
                end: len as int,
                line: l2 as int,
                col: c2 as int,
            };
            assert(lex_eof(s@, start as int, line as int, col as int) == Ok::<_, LexErrorM>(
                seq![m],
            ));
            assert(toks_match(s@, toks@, emitted@ + seq![m]));
        }
        toks
    }

    /// Build the token for the span `[i, j)`, recorded at `(line, col)`.
    fn make_token(&self, k: TokenType, i: usize, j: usize, line: usize, col: usize) -> (t: Token)
        requires
            self.wf(),
            i <= j <= self.chars@.len(),
        ensures
            t.type_ == k,
            t.text@ == self.chars@.subrange(i as int, j as int),
            t.line == line,
            t.col == col,
    {
        self.make_token_at(k, i, j, line, col, line, col)
    }

    /// Build the token for the span `[i, j)`, recorded at `(tline, tcol)`
    /// (the scanner records some tokens a column or two late).
    fn make_token_at(&self, k: TokenType, i: usize, j: usize, line: usize, col: usize, tline: usize, tcol: usize) -> (t: Token)
        requires
            self.wf(),
            i <= j <= self.chars@.len(),
        ensures
            t.type_ == k,
            t.text@ == self.chars@.subrange(i as int, j as int),
            t.line == tline,
            t.col == tcol,
    {
        let text = String::from_str(self.text.as_str().substring_char(i, j));
        Token::new(k, text, tline, tcol)
    }
}

fn is_alpha_c(c: char) -> (r: bool)
    ensures
        r == is_alpha(c),
{
    ('A' <= c && c <= 'Z') || ('a' <= c && c <= 'z')
}

fn is_digit_c(c: char) -> (r: bool)
    ensures
        r == is_digit(c),
{
    '0' <= c && c <= '9'
}

fn is_sym_char_c(c: char) -> (r: bool)
    ensures
        r == is_sym_char(c),
{
    is_alpha_c(c) || is_digit_c(c) || c == '_'
}

fn single_char_token_c(c: char) -> (r: Option<TokenType>)
    ensures
        r == single_char_token(c),
{
    if c == '+' {
        Some(TokenType::OpPlus)
    } else if c == '-' {
        Some(TokenType::OpMinus)
    } else if c == '*' {
        Some(TokenType::OpMul)
    } else if c == '%' {
        Some(TokenType::OpMod)
    } else if c == '(' {
        Some(TokenType::LPar)
    } else if c == ')' {
        Some(TokenType::RPar)
    } else if c == '[' {
        Some(TokenType::LBr)
    } else if c == ']' {
        Some(TokenType::RBr)
    } else if c == '{' {
        Some(TokenType::LBlock)
    } else if c == '}' {
        Some(TokenType::RBlock)
    } else if c == '.' {
        Some(TokenType::Dot)
    } else if c == ';' {
        Some(TokenType::End)
    } else if c == ':' {
        Some(TokenType::Colon)
    } else if c == ',' {
        Some(TokenType::Comma)
    } else {
        None
    }
}

/// End of the identifier continuing at `i`.
fn scan_sym(s: &Vec<char>, i: usize) -> (j: usize)
    requires
        i <= s@.len(),
    ensures
        j == sym_end(s@, i as int),
        i <= j <= s@.len(),
{
    let mut k = i;
    loop
        invariant
            i <= k <= s@.len(),
            sym_end(s@, i as int) == sym_end(s@, k as int),
        decreases s@.len() - k,
    {
        if k >= s.len() {
            return k;
        }
        if !is_sym_char_c(s[k]) {
            return k;
        }
        k = k + 1;
    }
}

/// End of the number continuing at `i`.
fn scan_num(s: &Vec<char>, i: usize, seen_dot: bool) -> (j: usize)
    requires
        i <= s@.len(),
    ensures
        j == num_end(s@, i as int, seen_dot),
        i <= j <= s@.len(),
{
    let mut k = i;
    let mut seen = seen_dot;
    loop
        invariant
            i <= k <= s@.len(),
            num_end(s@, i as int, seen_dot) == num_end(s@, k as int, seen),
        decreases s@.len() - k,
    {
        if k >= s.len() {
            return k;
        }
        let c = s[k];
        if is_digit_c(c) {
            k = k + 1;
        } else if c == '.' && !seen {
            seen = true;
            k = k + 1;
        } else {
            return k;
        }
    }
}

/// First position of `c` at or after `i`.
fn scan_char(s: &Vec<char>, c: char, i: usize) -> (r: Option<usize>)
    requires
        i <= s@.len(),
    ensures
        match r {
            Some(q) => i <= q < s@.len() && find_char_from(s@, c, i as int) == Some(q as int),
            None => find_char_from(s@, c, i as int) is None,
        },
{
    let mut k = i;
    loop
        invariant
            i <= k <= s@.len(),
            find_char_from(s@, c, i as int) == find_char_from(s@, c, k as int),
        decreases s@.len() - k,
    {
        if k >= s.len() {
            return None;
        }
        if s[k] == c {
            return Some(k);
        }
        k = k + 1;
    }
}

/// Line and column after scanning the span `[i, j)`.
fn advance(s: &Vec<char>, i: usize, j: usize, line: usize, col: usize) -> (r: (usize, usize))
    requires
        i <= j <= s@.len(),
        line + (j - i) <= usize::MAX,
        col + (j - i) <= usize::MAX,
    ensures
        (r.0 as int, r.1 as int) == adv(s@, i as int, j as int, line as int, col as int),
        line <= r.0 <= line + (j - i),
        r.1 <= col + (j - i),
    {
    let mut k = i;
    let mut l = line;
    let mut c = col;
    loop
        invariant
            i <= k <= j <= s@.len(),
            line <= l,
            l + (j - k) <= line + (j - i),
            c + (j - k) <= col + (j - i),
            line + (j - i) <= usize::MAX,
            col + (j - i) <= usize::MAX,
            adv(s@, i as int, j as int, line as int, col as int) == adv(
                s@,
                k as int,
                j as int,
                l as int,
                c as int,
            ),
        decreases j - k,
    {
        if k >= j {
            return (l, c);
        }
        if s[k] == '\n' {
            l = l + 1;
            c = 0;
        } else {
            c = c + 1;
        }
        k = k + 1;
    }
}


/// One committed token extends the emitted prefix: whatever the rest of the
/// stream turns out to be, the whole stream is the prefix, the token, then
/// the rest.
proof fn lemma_emit_step(
    s: Seq<char>,
    emitted: Seq<TokenM>,
    m: TokenM,
    r_old: Result<Seq<TokenM>, LexErrorM>,
    r_new: Result<Seq<TokenM>, LexErrorM>,
)
    requires
        forall|ms: Seq<TokenM>|
            r_old == Ok::<_, LexErrorM>(ms) ==> lex(s) == Ok::<Seq<TokenM>, LexErrorM>(
                emitted + ms,
            ),
        forall|e: LexErrorM|
            r_old == Err::<Seq<TokenM>, _>(e) ==> lex(s) == Err::<Seq<TokenM>, LexErrorM>(e),
        r_old == lex_cons(m.kind, m.start, m.end, m.line, m.col, r_new),
    ensures
        forall|ms: Seq<TokenM>|
            r_new == Ok::<_, LexErrorM>(ms) ==> lex(s) == Ok::<Seq<TokenM>, LexErrorM>(
                (emitted + seq![m]) + ms,
            ),
        forall|e: LexErrorM|
            r_new == Err::<Seq<TokenM>, _>(e) ==> lex(s) == Err::<Seq<TokenM>, LexErrorM>(e),
{
    assert forall|ms: Seq<TokenM>| r_new == Ok::<_, LexErrorM>(ms) implies lex(s) == Ok::<
        Seq<TokenM>,
        LexErrorM,
    >((emitted + seq![m]) + ms) by {
        assert(m == (TokenM { kind: m.kind, start: m.start, end: m.end, line: m.line, col: m.col }));
        assert(r_old == Ok::<_, LexErrorM>(seq![m] + ms));
        assert(emitted + (seq![m] + ms) =~= (emitted + seq![m]) + ms);
    }
}

/// The source text rebuilt from a token stream: the gap before each token
/// (whitespace and comments the scanner skipped), then the token's lexeme,
/// and so on to the end.
pub open spec fn rebuild(s: Seq<char>, i: int, ms: Seq<TokenM>) -> Seq<char>
    decreases ms.len(),
{
    if ms.len() == 0 {
        Seq::empty()
    } else {
        s.subrange(i, ms[0].start) + s.subrange(ms[0].start, ms[0].end) + rebuild(
            s,
            ms[0].end,
            ms.drop_first(),
        )
    }
}

/// A tail already rebuilding `s` from `k` on also rebuilds it from any
/// earlier point `i`: the first gap simply grows leftward.
proof fn lemma_rebuild_skip(s: Seq<char>, i: int, k: int, ms: Seq<TokenM>)
    requires
        0 <= i <= k <= s.len(),
        ms.len() >= 1,
        k <= ms[0].start <= s.len(),
        rebuild(s, k, ms) =~= s.subrange(k, s.len() as int),
    ensures
        rebuild(s, i, ms) =~= s.subrange(i, s.len() as int),
{
    assert(s.subrange(i, ms[0].start) =~= s.subrange(i, k) + s.subrange(k, ms[0].start));
    assert(rebuild(s, i, ms) =~= s.subrange(i, k) + rebuild(s, k, ms));
    assert(s.subrange(i, k) + s.subrange(k, s.len() as int) =~= s.subrange(i, s.len() as int));
}

/// Tokenizer totality: when lexing succeeds, the token lexemes, concatenated
/// in order with the skipped whitespace and comments re-inserted between
/// them, reconstruct the source text exactly.
pub proof fn lemma_lex_rebuilds_from(s: Seq<char>, i: int, line: int, col: int)
    requires
        0 <= i <= s.len(),
        lex_from(s, i, line, col) is Ok,
    ensures
        ({
            let ms = lex_from(s, i, line, col)->Ok_0;
            &&& ms.len() >= 1
            &&& i <= ms[0].start <= s.len()
            &&& rebuild(s, i, ms) =~= s.subrange(i, s.len() as int)
        }),
    decreases s.len() - i, 1int,
{
    reveal_with_fuel(rebuild, 3);
    let ms = lex_from(s, i, line, col)->Ok_0;
    if i >= s.len() {
        assert(rebuild(s, i, ms) =~= s.subrange(i, s.len() as int));
    } else {
        let c = s[i];
        if is_ws(c) {
            let (l2, c2) = if c == '\n' {
                (line + 1, 0int)
            } else {
                (line, col + 1)
            };
            lemma_lex_rebuilds_from(s, i + 1, l2, c2);
            lemma_rebuild_skip(s, i, i + 1, ms);
        } else if is_alpha(c) {
            let j = sym_end(s, i + 1);
            lemma_sym_end_range(s, i + 1);
            if j >= s.len() {
                assert(rebuild(s, i, ms) =~= s.subrange(i, s.len() as int));
            } else {
                lemma_lex_token_step(s, i, j, line, col, ms);
            }
        } else if is_digit(c) {
            let j = num_end(s, i + 1, false);
            lemma_num_end_range(s, i + 1, false);
            if j >= s.len() {
                assert(rebuild(s, i, ms) =~= s.subrange(i, s.len() as int));
            } else {
                lemma_lex_token_step(s, i, j, line, col, ms);
            }
        } else if c == '\'' {
            match find_char_from(s, '\'', i + 1) {
                None => {
                    assert(rebuild(s, i, ms) =~= s.subrange(i, s.len() as int));
                },
                Some(q) => {
                    lemma_find_char_from_in_range(s, '\'', i + 1);
                    lemma_lex_token_step(s, i, q + 1, line, col, ms);
                },
            }
        } else if c == '/' {
            if i + 1 < s.len() && s[i + 1] == '/' {
                match find_char_from(s, '\n', i + 2) {
                    None => {
                        assert(rebuild(s, i, ms) =~= s.subrange(i, s.len() as int));
                    },
                    Some(n) => {
                        lemma_find_char_from_in_range(s, '\n', i + 2);
                        lemma_lex_rebuilds_from(s, n + 1, line + 1, 0);
                        lemma_rebuild_skip(s, i, n + 1, ms);
                    },
                }
            } else {
                lemma_lex_token_step(s, i, i + 1, line, col, ms);
            }
        } else if c == '=' || c == '!' || c == '<' || c == '>' {
            if i + 1 < s.len() && s[i + 1] == '=' {
                lemma_lex_token_step(s, i, i + 2, line, col, ms);
            } else {
                lemma_lex_token_step(s, i, i + 1, line, col, ms);
            }
        } else if c == '|' || c == '&' {
            if i + 1 < s.len() && s[i + 1] == c {
                lemma_lex_token_step(s, i, i + 2, line, col, ms);
            }
        } else {
            if single_char_token(c) is Some {
                lemma_lex_token_step(s, i, i + 1, line, col, ms);
            }
        }
    }
}

/// An identifier's end lies between its start and the end of the text.
proof fn lemma_sym_end_range(s: Seq<char>, i: int)
    requires
        0 <= i <= s.len(),
    ensures
        i <= sym_end(s, i) <= s.len(),
    decreases s.len() - i,
{
    if !(i >= s.len() || !is_sym_char(s[i])) {
        lemma_sym_end_range(s, i + 1);
    }
}

/// A number's end lies between its start and the end of the text.
proof fn lemma_num_end_range(s: Seq<char>, i: int, seen_dot: bool)
    requires
        0 <= i <= s.len(),
    ensures
        i <= num_end(s, i, seen_dot) <= s.len(),
    decreases s.len() - i,
{
    if i < s.len() {
        if is_digit(s[i]) {
            lemma_num_end_range(s, i + 1, seen_dot);
        } else if s[i] == '.' && !seen_dot {
            lemma_num_end_range(s, i + 1, true);
        }
    }
}

/// A found character lies at or past the scan start and inside the text.
proof fn lemma_find_char_from_in_range(s: Seq<char>, c: char, i: int)
    requires
        find_char_from(s, c, i) is Some,
    ensures
        i <= find_char_from(s, c, i)->Some_0 < s.len(),
    decreases s.len() - i,
{
    if !(i < 0 || i >= s.len()) && s[i] != c {
        lemma_find_char_from_in_range(s, c, i + 1);
    }
}

/// The token-emitting step of the rebuild proof: one token spans `[i, j)`
/// with no gap before it, and the rest of the stream rebuilds from `j`.
proof fn lemma_lex_token_step(s: Seq<char>, i: int, j: int, line: int, col: int, ms: Seq<TokenM>)
    requires
        0 <= i < s.len(),
        i + 1 <= j <= s.len(),
        ms.len() >= 1,
        ms[0].start == i,
        ms[0].end == j,
        ({
            let rest = lex_span(s, i, j, line, col);
            rest is Ok && ms =~= seq![ms[0]] + rest->Ok_0
        }),
    ensures
        i <= ms[0].start <= s.len(),
        rebuild(s, i, ms) =~= s.subrange(i, s.len() as int),
    decreases s.len() - i, 0int,
{
    reveal_with_fuel(rebuild, 3);
    let rest = lex_span(s, i, j, line, col);
    let ms2 = rest->Ok_0;
    let (l2, c2) = adv(s, i, j, line, col);
    assert(lex_from(s, j, l2, c2) == rest);
    lemma_lex_rebuilds_from(s, j, l2, c2);
    assert(ms.drop_first() =~= ms2);
    assert(s.subrange(i, i) + s.subrange(i, j) + rebuild(s, j, ms2) =~= s.subrange(i, j)
        + rebuild(s, j, ms2));
    assert(s.subrange(i, j) + s.subrange(j, s.len() as int) =~= s.subrange(i, s.len() as int));
}

/// Tokenizer totality over a whole text: rebuilding from the full token
/// stream yields the text itself.
pub proof fn lemma_lex_rebuilds(s: Seq<char>)
    requires
        lex(s) is Ok,
    ensures
        rebuild(s, 0, lex(s)->Ok_0) == s,
{
    lemma_lex_rebuilds_from(s, 0, 1, 0);
    assert(s.subrange(0, s.len() as int) =~= s);
}

/// The region `[a, b)` holds nothing but whitespace and `//`-comments
/// (each comment closed off by its newline inside the region).
pub open spec fn blank_region(s: Seq<char>, a: int, b: int) -> bool
    decreases b - a,
{
    if a >= b {
        true
    } else if 0 <= a < s.len() && is_ws(s[a]) {
        blank_region(s, a + 1, b)
    } else if 0 <= a && a + 1 < s.len() && s[a] == '/' && s[a + 1] == '/' {
        match find_char_from(s, '\n', a + 2) {
            Some(n) => if a + 2 <= n && n + 1 <= b {
                blank_region(s, if n + 1 < a + 1 {
                    a + 1
                } else {
                    n + 1
                }, b)
            } else {
                false
            },
            None => false,
        }
    } else {
        false
    }
}

/// Tokenizer totality, span form: on success the token lexemes are
/// in-order, pairwise disjoint slices of the source, and every gap
/// between them (and before the first) holds only whitespace and
/// comments.
pub proof fn lemma_lex_spans_tile(s: Seq<char>, i: int, line: int, col: int)
    requires
        0 <= i <= s.len(),
        lex_from(s, i, line, col) is Ok,
    ensures
        ({
            let ms = lex_from(s, i, line, col)->Ok_0;
            &&& ms.len() >= 1
            &&& i <= ms[0].start <= s.len()
            &&& forall|k: int|
                0 <= k < ms.len() ==> (#[trigger] ms[k].start) <= ms[k].end <= s.len()
            &&& blank_region(s, i, ms[0].start)
            &&& forall|k: int|
                0 <= k < ms.len() - 1 ==> (#[trigger] ms[k].end) <= ms[k + 1].start
                    && blank_region(s, ms[k].end, ms[k + 1].start)
        }),
    decreases s.len() - i, 1int,
{
    let ms = lex_from(s, i, line, col)->Ok_0;
    if i >= s.len() {
        assert(ms =~= seq![ms[0]]);
        assert(ms[0].start == s.len() && ms[0].end == s.len());
    } else {
        let c = s[i];
        if is_ws(c) {
            let (l2, c2) = if c == '\n' {
                (line + 1, 0int)
            } else {
                (line, col + 1)
            };
            lemma_lex_spans_tile(s, i + 1, l2, c2);
        } else if is_alpha(c) {
            let j = sym_end(s, i + 1);
            lemma_sym_end_range(s, i + 1);
            if j >= s.len() {
                assert(ms =~= seq![ms[0]]);
                assert(ms[0].start == i && ms[0].end == s.len());
            } else {
                lemma_lex_spans_step(s, i, j, line, col, ms);
            }
        } else if is_digit(c) {
            let j = num_end(s, i + 1, false);
            lemma_num_end_range(s, i + 1, false);
            if j >= s.len() {
                assert(ms =~= seq![ms[0]]);
                assert(ms[0].start == i && ms[0].end == s.len());
            } else {
                lemma_lex_spans_step(s, i, j, line, col, ms);
            }
        } else if c == '\'' {
            match find_char_from(s, '\'', i + 1) {
                None => {
                    assert(ms =~= seq![ms[0]]);
                    assert(ms[0].start == i && ms[0].end == s.len());
                },
                Some(q) => {
                    lemma_find_char_from_in_range(s, '\'', i + 1);
                    lemma_lex_spans_step(s, i, q + 1, line, col, ms);
                },
            }
        } else if c == '/' {
            if i + 1 < s.len() && s[i + 1] == '/' {
                match find_char_from(s, '\n', i + 2) {
                    None => {
                        assert(ms =~= seq![ms[0]]);
                        assert(ms[0].start == i && ms[0].end == s.len());
                    },
                    Some(n) => {
                        lemma_find_char_from_in_range(s, '\n', i + 2);
                        lemma_lex_spans_tile(s, n + 1, line + 1, 0);
                        assert(blank_region(s, i, ms[0].start));
                    },
                }
            } else {
                lemma_lex_spans_step(s, i, i + 1, line, col, ms);
            }
        } else if c == '=' || c == '!' || c == '<' || c == '>' {
            if i + 1 < s.len() && s[i + 1] == '=' {
                lemma_lex_spans_step(s, i, i + 2, line, col, ms);
            } else {
                lemma_lex_spans_step(s, i, i + 1, line, col, ms);
            }
        } else if c == '|' || c == '&' {
            if i + 1 < s.len() && s[i + 1] == c {
                lemma_lex_spans_step(s, i, i + 2, line, col, ms);
            }
        } else {
            if single_char_token(c) is Some {
                lemma_lex_spans_step(s, i, i + 1, line, col, ms);
            }
        }
    }
}

/// The token-emitting step of the span-tiling proof.
proof fn lemma_lex_spans_step(s: Seq<char>, i: int, j: int, line: int, col: int, ms: Seq<TokenM>)
    requires
        0 <= i < s.len(),
        i + 1 <= j <= s.len(),
        ms.len() >= 1,
        ms[0].start == i,
        ms[0].end == j,
        ({
            let rest = lex_span(s, i, j, line, col);
            rest is Ok && ms =~= seq![ms[0]] + rest->Ok_0
        }),
    ensures
        i <= ms[0].start <= s.len(),
        forall|k: int| 0 <= k < ms.len() ==> (#[trigger] ms[k].start) <= ms[k].end <= s.len(),
        blank_region(s, i, ms[0].start),
        forall|k: int|
            0 <= k < ms.len() - 1 ==> (#[trigger] ms[k].end) <= ms[k + 1].start && blank_region(
                s,
                ms[k].end,
                ms[k + 1].start,
            ),
    decreases s.len() - i, 0int,
{
    let rest = lex_span(s, i, j, line, col);
    let ms2 = rest->Ok_0;
    let (l2, c2) = adv(s, i, j, line, col);
    assert(lex_from(s, j, l2, c2) == rest);
    lemma_lex_spans_tile(s, j, l2, c2);
    assert(ms.drop_first() =~= ms2);
    assert forall|k: int| 0 <= k < ms.len() - 1 implies (#[trigger] ms[k].end) <= ms[k + 1].start
        && blank_region(s, ms[k].end, ms[k + 1].start) by {
        if k == 0 {
            assert(ms[1] == ms2[0]);
            assert(blank_region(s, j, ms2[0].start));
        } else {
            assert(ms[k] == ms2[k - 1]);
            assert(ms[k + 1] == ms2[k]);
        }
    }
}

} // verus!
