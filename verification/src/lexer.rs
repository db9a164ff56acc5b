//! The tokens of a Robine module.
//!
//! Identifiers are ASCII letters, digits and `_` (not starting with a digit),
//! integers are runs of ASCII digits, strings are double-quoted with the
//! escapes `\n`, `\r`, `\t` and `\c` for any other `c`. `//` starts a comment
//! that runs to the end of the line. Every token list ends with an end-of-text
//! token whose text is empty.

use vstd::prelude::*;
use crate::diagnostic::{err_v, Diagnostic, DiagnosticV, Span};
use crate::text::{
    append_str, byte_len, byte_offset, lemma_byte_offset_end, lemma_byte_offset_step, push_char,
    spec_is_whitespace, string_of, is_whitespace, utf8_width, width,
};

verus! {

/// The punctuation of the language.
#[derive(Clone, Copy, Debug, PartialEq, Eq, Structural)]
pub enum Punct {
    LParen,
    RParen,
    LBrace,
    RBrace,
    Comma,
    Colon,
    Semi,
    Dot,
    Arrow,
    Bang,
    Plus,
    Minus,
    Star,
    EqEq,
    Lt,
    Le,
    Assign,
}

/// The kind of a token, by value.
pub enum TokKindV {
    Ident,
    Int,
    Str(Seq<char>),
    Punct(Punct),
    Eof,
}

/// A token by value: its kind, its byte range and its source text.
pub struct TokV {
    pub kind: TokKindV,
    pub span: Span,
    pub text: Seq<char>,
}

/// The kind of a token.
pub enum TokKind {
    Ident,
    Int,
    Str(String),
    Punct(Punct),
    Eof,
}

/// A token: its kind, its byte range and its source text.
pub struct Tok {
    pub kind: TokKind,
    pub span: Span,
    pub text: String,
}

/// The value of a token kind.
pub open spec fn kind_view(k: TokKind) -> TokKindV {
    match k {
        TokKind::Ident => TokKindV::Ident,
        TokKind::Int => TokKindV::Int,
        TokKind::Str(s) => TokKindV::Str(s@),
        TokKind::Punct(p) => TokKindV::Punct(p),
        TokKind::Eof => TokKindV::Eof,
    }
}

impl View for Tok {
    type V = TokV;

    open spec fn view(&self) -> TokV {
        TokV { kind: kind_view(self.kind), span: self.span, text: self.text@ }
    }
}

/// The values of a sequence of tokens.
pub open spec fn toks_view(ts: Seq<Tok>) -> Seq<TokV> {
    Seq::new(ts.len(), |i: int| ts[i]@)
}

/// The message of a syntax error near a fragment of text.
pub open spec fn near_message(fragment: Seq<char>) -> Seq<char> {
    "syntaxe inattendue près de `"@ + fragment + "`"@
}

/// The message of a syntax error at the end of the text.
pub open spec fn incomplete_message() -> Seq<char> {
    "syntaxe incomplète"@
}

/// A syntax error value.
pub open spec fn syntax_err(message: Seq<char>, start: int, end: int) -> DiagnosticV {
    err_v("RBN1100"@, message, Span { start: start as usize, end: end as usize })
}

/// Whether `c` may start an identifier.
pub open spec fn ident_start(c: char) -> bool {
    ('a' <= c <= 'z') || ('A' <= c <= 'Z') || c == '_'
}

/// Whether `c` may continue an identifier.
pub open spec fn ident_continue(c: char) -> bool {
    ident_start(c) || ('0' <= c <= '9')
}

/// The one-character punctuation `c` stands for.
pub open spec fn single_punct(c: char) -> Option<Punct> {
    if c == '(' {
        Some(Punct::LParen)
    } else if c == ')' {
        Some(Punct::RParen)
    } else if c == '{' {
        Some(Punct::LBrace)
    } else if c == '}' {
        Some(Punct::RBrace)
    } else if c == ',' {
        Some(Punct::Comma)
    } else if c == ':' {
        Some(Punct::Colon)
    } else if c == ';' {
        Some(Punct::Semi)
    } else if c == '.' {
        Some(Punct::Dot)
    } else if c == '!' {
        Some(Punct::Bang)
    } else if c == '+' {
        Some(Punct::Plus)
    } else if c == '-' {
        Some(Punct::Minus)
    } else if c == '*' {
        Some(Punct::Star)
    } else if c == '=' {
        Some(Punct::Assign)
    } else if c == '<' {
        Some(Punct::Lt)
    } else {
        None
    }
}

/// The two-character punctuation `c d` stands for.
pub open spec fn pair_punct(c: char, d: char) -> Option<Punct> {
    if c == '=' && d == '=' {
        Some(Punct::EqEq)
    } else if c == '<' && d == '=' {
        Some(Punct::Le)
    } else if c == '-' && d == '>' {
        Some(Punct::Arrow)
    } else {
        None
    }
}

/// The character that the escape `\c` denotes.
pub open spec fn unescape(c: char) -> char {
    if c == 'n' {
        '\n'
    } else if c == 'r' {
        '\r'
    } else if c == 't' {
        '\t'
    } else {
        c
    }
}

/// The state of the lexer between two characters.
pub enum LexMode {
    Normal,
    Comment,
    Ident { start: int },
    Int { start: int },
    Str { start: int, value: Seq<char> },
    Escape { start: int, value: Seq<char> },
}

/// An identifier or an integer may end without consuming a character.
pub open spec fn lex_rank(m: LexMode) -> nat {
    match m {
        LexMode::Ident { .. } => 1,
        LexMode::Int { .. } => 1,
        _ => 0,
    }
}

/// The token for `cs[start..end]`.
pub open spec fn tok_at(cs: Seq<char>, kind: TokKindV, start: int, end: int) -> TokV {
    TokV {
        kind,
        span: Span { start: byte_offset(cs, start) as usize, end: byte_offset(cs, end) as usize },
        text: cs.subrange(start, end),
    }
}

/// The end-of-text token.
pub open spec fn eof_tok(cs: Seq<char>) -> TokV {
    TokV {
        kind: TokKindV::Eof,
        span: Span { start: byte_len(cs) as usize, end: byte_len(cs) as usize },
        text: Seq::empty(),
    }
}

/// The tokens of `cs[i..]` appended to `acc` in mode `m`, with whether a
/// comment was seen; or the first lexical error.
pub open spec fn lex_from(cs: Seq<char>, i: int, m: LexMode, acc: Seq<TokV>, comments: bool) -> Result<
    (Seq<TokV>, bool),
    DiagnosticV,
>
    decreases cs.len() - i, lex_rank(m),
{
    if i < 0 || i >= cs.len() {
        let n = cs.len() as int;
        match m {
            LexMode::Normal => Ok((acc.push(eof_tok(cs)), comments)),
            LexMode::Comment => Ok((acc.push(eof_tok(cs)), comments)),
            LexMode::Ident { start } => Ok(
                (acc.push(tok_at(cs, TokKindV::Ident, start, n)).push(eof_tok(cs)), comments),
            ),
            LexMode::Int { start } => Ok(
                (acc.push(tok_at(cs, TokKindV::Int, start, n)).push(eof_tok(cs)), comments),
            ),
            LexMode::Str { start, .. } => Err(
                syntax_err(incomplete_message(), byte_offset(cs, start) as int, byte_len(cs) as int),
            ),
            LexMode::Escape { start, .. } => Err(
                syntax_err(incomplete_message(), byte_offset(cs, start) as int, byte_len(cs) as int),
            ),
        }
    } else {
        let c = cs[i];
        match m {
            LexMode::Normal => {
                if spec_is_whitespace(c) {
                    lex_from(cs, i + 1, LexMode::Normal, acc, comments)
                } else if c == '/' && i + 1 < cs.len() && cs[i + 1] == '/' {
                    lex_from(cs, i + 2, LexMode::Comment, acc, true)
                } else if ident_start(c) {
                    lex_from(cs, i + 1, LexMode::Ident { start: i }, acc, comments)
                } else if '0' <= c <= '9' {
                    lex_from(cs, i + 1, LexMode::Int { start: i }, acc, comments)
                } else if c == '"' {
                    lex_from(cs, i + 1, LexMode::Str { start: i, value: Seq::empty() }, acc, comments)
                } else if i + 1 < cs.len() && pair_punct(c, cs[i + 1]) is Some {
                    lex_from(
                        cs,
                        i + 2,
                        LexMode::Normal,
                        acc.push(tok_at(cs, TokKindV::Punct(pair_punct(c, cs[i + 1])->0), i, i + 2)),
                        comments,
                    )
                } else if single_punct(c) is Some {
                    lex_from(
                        cs,
                        i + 1,
                        LexMode::Normal,
                        acc.push(tok_at(cs, TokKindV::Punct(single_punct(c)->0), i, i + 1)),
                        comments,
                    )
                } else {
                    Err(
                        syntax_err(
                            near_message(seq![c]),
                            byte_offset(cs, i) as int,
                            (byte_offset(cs, i) + utf8_width(c)) as int,
                        ),
                    )
                }
            },
            LexMode::Comment => {
                if c == '\n' {
                    lex_from(cs, i + 1, LexMode::Normal, acc, comments)
                } else {
                    lex_from(cs, i + 1, LexMode::Comment, acc, comments)
                }
            },
            LexMode::Ident { start } => {
                if ident_continue(c) {
                    lex_from(cs, i + 1, LexMode::Ident { start }, acc, comments)
                } else {
                    lex_from(cs, i, LexMode::Normal, acc.push(tok_at(cs, TokKindV::Ident, start, i)), comments)
                }
            },
            LexMode::Int { start } => {
                if '0' <= c <= '9' {
                    lex_from(cs, i + 1, LexMode::Int { start }, acc, comments)
                } else {
                    lex_from(cs, i, LexMode::Normal, acc.push(tok_at(cs, TokKindV::Int, start, i)), comments)
                }
            },
            LexMode::Str { start, value } => {
                if c == '"' {
                    lex_from(
                        cs,
                        i + 1,
                        LexMode::Normal,
                        acc.push(tok_at(cs, TokKindV::Str(value), start, i + 1)),
                        comments,
                    )
                } else if c == '\\' {
                    lex_from(cs, i + 1, LexMode::Escape { start, value }, acc, comments)
                } else {
                    lex_from(cs, i + 1, LexMode::Str { start, value: value.push(c) }, acc, comments)
                }
            },
            LexMode::Escape { start, value } => {
                lex_from(cs, i + 1, LexMode::Str { start, value: value.push(unescape(c)) }, acc, comments)
            },
        }
    }
}

/// The tokens of a source text and whether it holds a comment, or its first
/// lexical error.
pub open spec fn spec_lex(cs: Seq<char>) -> Result<(Seq<TokV>, bool), DiagnosticV> {
    lex_from(cs, 0, LexMode::Normal, Seq::empty(), false)
}

enum Mode {
    Normal,
    Comment,
    Ident { start: usize, start_off: usize },
    Int { start: usize, start_off: usize },
    Str { start: usize, start_off: usize, value: String },
    Escape { start: usize, start_off: usize, value: String },
}

spec fn mode_view(m: Mode) -> LexMode {
    match m {
        Mode::Normal => LexMode::Normal,
        Mode::Comment => LexMode::Comment,
        Mode::Ident { start, .. } => LexMode::Ident { start: start as int },
        Mode::Int { start, .. } => LexMode::Int { start: start as int },
        Mode::Str { start, value, .. } => LexMode::Str { start: start as int, value: value@ },
        Mode::Escape { start, value, .. } => LexMode::Escape { start: start as int, value: value@ },
    }
}

spec fn mode_wf(cs: Seq<char>, m: Mode, i: int) -> bool {
    match m {
        Mode::Normal => true,
        Mode::Comment => true,
        Mode::Ident { start, start_off } => start < i && start_off == byte_offset(cs, start as int),
        Mode::Int { start, start_off } => start < i && start_off == byte_offset(cs, start as int),
        Mode::Str { start, start_off, .. } => start < i && start_off == byte_offset(cs, start as int),
        Mode::Escape { start, start_off, .. } => start < i && start_off == byte_offset(cs, start as int),
    }
}

spec fn toks_bound(m: Mode, n: nat, i: int) -> bool {
    match m {
        Mode::Ident { start, .. } => n <= start,
        Mode::Int { start, .. } => n <= start,
        Mode::Str { start, .. } => n <= start,
        Mode::Escape { start, .. } => n <= start,
        _ => n <= i,
    }
}

fn single_punct_exec(c: char) -> (r: Option<Punct>)
    ensures
        r == single_punct(c),
{
    if c == '(' {
        Some(Punct::LParen)
    } else if c == ')' {
        Some(Punct::RParen)
    } else if c == '{' {
        Some(Punct::LBrace)
    } else if c == '}' {
        Some(Punct::RBrace)
    } else if c == ',' {
        Some(Punct::Comma)
    } else if c == ':' {
        Some(Punct::Colon)
    } else if c == ';' {
        Some(Punct::Semi)
    } else if c == '.' {
        Some(Punct::Dot)
    } else if c == '!' {
        Some(Punct::Bang)
    } else if c == '+' {
        Some(Punct::Plus)
    } else if c == '-' {
        Some(Punct::Minus)
    } else if c == '*' {
        Some(Punct::Star)
    } else if c == '=' {
        Some(Punct::Assign)
    } else if c == '<' {
        Some(Punct::Lt)
    } else {
        None
    }
}

fn pair_punct_exec(c: char, d: char) -> (r: Option<Punct>)
    ensures
        r == pair_punct(c, d),
{
    if c == '=' && d == '=' {
        Some(Punct::EqEq)
    } else if c == '<' && d == '=' {
        Some(Punct::Le)
    } else if c == '-' && d == '>' {
        Some(Punct::Arrow)
    } else {
        None
    }
}

fn ident_start_exec(c: char) -> (r: bool)
    ensures
        r == ident_start(c),
{
    ('a' <= c && c <= 'z') || ('A' <= c && c <= 'Z') || c == '_'
}

fn unescape_exec(c: char) -> (r: char)
    ensures
        r == unescape(c),
{
    if c == 'n' {
        '\n'
    } else if c == 'r' {
        '\r'
    } else if c == 't' {
        '\t'
    } else {
        c
    }
}

/// The message of a syntax error near `fragment`.
pub fn near(fragment: &str) -> (m: String)
    ensures
        m@ == near_message(fragment@),
{
    let mut m = String::new();
    append_str(&mut m, "syntaxe inattendue près de `");
    append_str(&mut m, fragment);
    append_str(&mut m, "`");
    m
}

fn push_tok(
    tokens: &mut Vec<Tok>,
    cs: &Vec<char>,
    kind: TokKind,
    start: usize,
    end: usize,
    start_off: usize,
    end_off: usize,
)
    requires
        start <= end <= cs@.len(),
        start_off == byte_offset(cs@, start as int),
        end_off == byte_offset(cs@, end as int),
    ensures
        final(tokens)@.len() == old(tokens)@.len() + 1,
        toks_view(final(tokens)@) == toks_view(old(tokens)@).push(
            TokV {
                kind: kind_view(kind),
                span: Span { start: start_off, end: end_off },
                text: cs@.subrange(start as int, end as int),
            },
        ),
{
    let text = string_of(cs, start, end);
    let ghost old_tokens = tokens@;
    tokens.push(Tok { kind, span: Span { start: start_off, end: end_off }, text });
    assert(toks_view(tokens@) =~= toks_view(old_tokens).push(tokens@.last()@));
}

/// The tokens of `cs`, whose UTF-8 length is `total`, and whether it holds a
/// comment; or the first lexical error.
pub fn lex(cs: &Vec<char>, total: usize) -> (r: Result<(Vec<Tok>, bool), Diagnostic>)
    requires
        total == byte_len(cs@),
        total <= isize::MAX,
    ensures
        r matches Ok((ts, c)) ==> spec_lex(cs@) == Ok::<(Seq<TokV>, bool), DiagnosticV>((toks_view(ts@), c))
            && ts@.len() <= cs@.len() + 1,
        r matches Err(d) ==> spec_lex(cs@) == Err::<(Seq<TokV>, bool), DiagnosticV>(d@),
{
    let mut tokens: Vec<Tok> = Vec::new();
    let mut mode = Mode::Normal;
    let mut comments = false;
    let mut i: usize = 0;
    let mut off: usize = 0;
    assert(toks_view(tokens@) =~= Seq::<TokV>::empty());
    while i < cs.len()
        invariant
            i <= cs@.len(),
            total == byte_len(cs@),
            total <= isize::MAX,
            off == byte_offset(cs@, i as int),
            off <= total,
            mode_wf(cs@, mode, i as int),
            toks_bound(mode, tokens@.len(), i as int),
            spec_lex(cs@) == lex_from(cs@, i as int, mode_view(mode), toks_view(tokens@), comments),
        decreases cs@.len() - i, lex_rank(mode_view(mode)),
    {
        let c = cs[i];
        proof {
            lemma_byte_offset_step(cs@, i as int);
        }
        let w = width(c);
        let next_off = off + w;
        match mode {
            Mode::Normal => {
                if is_whitespace(c) {
                    i = i + 1;
                    off = next_off;
                } else if c == '/' && i + 1 < cs.len() && cs[i + 1] == '/' {
                    proof {
                        lemma_byte_offset_step(cs@, i + 1);
                    }
                    mode = Mode::Comment;
                    comments = true;
                    off = next_off + 1;
                    i = i + 2;
                } else if ident_start_exec(c) {
                    mode = Mode::Ident { start: i, start_off: off };
                    i = i + 1;
                    off = next_off;
                } else if '0' <= c && c <= '9' {
                    mode = Mode::Int { start: i, start_off: off };
                    i = i + 1;
                    off = next_off;
                } else if c == '"' {
                    mode = Mode::Str { start: i, start_off: off, value: String::new() };
                    i = i + 1;
                    off = next_off;
                } else {
                    let pair = if i + 1 < cs.len() {
                        pair_punct_exec(c, cs[i + 1])
                    } else {
                        None
                    };
                    match pair {
                        Some(p) => {
                            proof {
                                lemma_byte_offset_step(cs@, i + 1);
                            }
                            let end_off = next_off + width(cs[i + 1]);
                            push_tok(&mut tokens, cs, TokKind::Punct(p), i, i + 2, off, end_off);
                            i = i + 2;
                            off = end_off;
                        },
                        None => match single_punct_exec(c) {
                            Some(p) => {
                                push_tok(&mut tokens, cs, TokKind::Punct(p), i, i + 1, off, next_off);
                                i = i + 1;
                                off = next_off;
                            },
                            None => {
                                let fragment = string_of(cs, i, i + 1);
                                assert(fragment@ =~= seq![c]);
                                return Err(Diagnostic::error("RBN1100", near(&fragment), Span::new(off, next_off)));
                            },
                        },
                    }
                }
            },
            Mode::Comment => {
                if c == '\n' {
                    mode = Mode::Normal;
                }
                i = i + 1;
                off = next_off;
            },
            Mode::Ident { start, start_off } => {
                if ident_start_exec(c) || ('0' <= c && c <= '9') {
                    i = i + 1;
                    off = next_off;
                } else {
                    push_tok(&mut tokens, cs, TokKind::Ident, start, i, start_off, off);
                    mode = Mode::Normal;
                }
            },
            Mode::Int { start, start_off } => {
                if '0' <= c && c <= '9' {
                    i = i + 1;
                    off = next_off;
                } else {
                    push_tok(&mut tokens, cs, TokKind::Int, start, i, start_off, off);
                    mode = Mode::Normal;
                }
            },
            Mode::Str { start, start_off, value } => {
                if c == '"' {
                    push_tok(&mut tokens, cs, TokKind::Str(value), start, i + 1, start_off, next_off);
                    mode = Mode::Normal;
                } else if c == '\\' {
                    mode = Mode::Escape { start, start_off, value };
                } else {
                    let mut value = value;
                    push_char(&mut value, c);
                    mode = Mode::Str { start, start_off, value };
                }
                i = i + 1;
                off = next_off;
            },
            Mode::Escape { start, start_off, value } => {
                let mut value = value;
                push_char(&mut value, unescape_exec(c));
                mode = Mode::Str { start, start_off, value };
                i = i + 1;
                off = next_off;
            },
        }
    }
    proof {
        lemma_byte_offset_end(cs@);
    }
    let n = cs.len();
    match mode {
        Mode::Normal => {},
        Mode::Comment => {},
        Mode::Ident { start, start_off } => {
            push_tok(&mut tokens, cs, TokKind::Ident, start, n, start_off, total);
        },
        Mode::Int { start, start_off } => {
            push_tok(&mut tokens, cs, TokKind::Int, start, n, start_off, total);
        },
        Mode::Str { start_off, .. } => {
            return Err(Diagnostic::error("RBN1100", "syntaxe incomplète".to_owned(), Span::new(start_off, total)));
        },
        Mode::Escape { start_off, .. } => {
            return Err(Diagnostic::error("RBN1100", "syntaxe incomplète".to_owned(), Span::new(start_off, total)));
        },
    }
    let ghost before = tokens@;
    tokens.push(Tok { kind: TokKind::Eof, span: Span::new(total, total), text: String::new() });
    assert(toks_view(tokens@) =~= toks_view(before).push(eof_tok(cs@)));
    Ok((tokens, comments))
}

} // verus!
