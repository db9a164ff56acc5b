//! Lexer, parser and deterministic rendering of Robine Flow text.

use vstd::prelude::*;
use crate::flow_ast::{
    AstError, AstErrorV, ast_error_message, spec_validate_root, forms_view, FlowAst, Form, FormV, DSL_NAME, DSL_VERSION,
};
use crate::text::{
    append_str, digit_char, is_control, spec_is_control, chars_of, lemma_byte_len_is_str_len, str_eq, byte_len, byte_offset, char_from_u32, is_whitespace, lemma_byte_offset_end,
    lemma_byte_offset_step, push_char, spec_is_whitespace, string_of, utf8_width, width,
};

verus! {

/// A byte range of the source text.
#[derive(Clone, Copy, Debug, PartialEq, Eq, Structural)]
pub struct Span {
    pub start: usize,
    pub end: usize,
}

/// A syntax diagnostic: a stable code, a message and the byte range it is about.
#[derive(Debug, PartialEq, Eq)]
pub struct Diagnostic {
    pub code: &'static str,
    pub message: String,
    pub span: Span,
}

/// The value of a [`Diagnostic`].
pub struct DiagnosticV {
    pub code: Seq<char>,
    pub message: Seq<char>,
    pub span: Span,
}

impl View for Diagnostic {
    type V = DiagnosticV;

    open spec fn view(&self) -> DiagnosticV {
        DiagnosticV { code: self.code@, message: self.message@, span: self.span }
    }
}

/// The values of a sequence of diagnostics.
pub open spec fn diags_view(ds: Seq<Diagnostic>) -> Seq<DiagnosticV> {
    Seq::new(ds.len(), |i: int| ds[i]@)
}

/// The failure of the syntax layer, as a single value.
#[derive(Debug)]
pub enum SyntaxError {
    Invalid,
}

/// The two list delimiters.
#[derive(Clone, Copy, Debug, PartialEq, Eq, Structural)]
pub enum Delimiter {
    Parenthesis,
    Bracket,
}

/// The kind of a token, by value.
pub enum TokenKindV {
    Open(Delimiter),
    Close(Delimiter),
    Str(Seq<char>),
    Atom(Seq<char>),
}

/// A token, by value.
pub struct TokenV {
    pub kind: TokenKindV,
    pub span: Span,
}

enum TokenKind {
    Open(Delimiter),
    Close(Delimiter),
    Str(String),
    Atom(String),
}

struct Token {
    kind: TokenKind,
    span: Span,
}

impl View for Token {
    type V = TokenV;

    closed spec fn view(&self) -> TokenV {
        TokenV {
            kind: match self.kind {
                TokenKind::Open(d) => TokenKindV::Open(d),
                TokenKind::Close(d) => TokenKindV::Close(d),
                TokenKind::Str(s) => TokenKindV::Str(s@),
                TokenKind::Atom(s) => TokenKindV::Atom(s@),
            },
            span: self.span,
        }
    }
}

spec fn tokens_view(ts: Seq<Token>) -> Seq<TokenV> {
    Seq::new(ts.len(), |i: int| ts[i]@)
}

/// A diagnostic value.
pub open spec fn diag(code: Seq<char>, message: Seq<char>, start: int, end: int) -> DiagnosticV {
    DiagnosticV { code, message, span: Span { start: start as usize, end: end as usize } }
}

/// The state of the lexer between two characters.
pub enum LexMode {
    /// Between tokens.
    Normal,
    /// Inside a `;` comment.
    Comment,
    /// Inside an atom that began at the given character index.
    Atom { start: int },
    /// Inside a string that began at the given index, with the characters decoded so far.
    Str { start: int, value: Seq<char> },
    /// Right after a backslash inside a string.
    Escape { start: int, value: Seq<char> },
    /// Inside a `\u` escape whose `u` is at index `escape`, with the hexadecimal digits read so far.
    Unicode { start: int, value: Seq<char>, escape: int, digits: Seq<char> },
}

/// Whether a character ends an atom.
pub open spec fn ends_atom(c: char) -> bool {
    spec_is_whitespace(c) || c == '(' || c == ')' || c == '[' || c == ']' || c == ';'
}

/// The value of a hexadecimal digit.
pub open spec fn hex_digit(c: char) -> Option<nat> {
    if '0' <= c <= '9' {
        Some((c as u32 - '0' as u32) as nat)
    } else if 'a' <= c <= 'f' {
        Some((c as u32 - 'a' as u32 + 10) as nat)
    } else if 'A' <= c <= 'F' {
        Some((c as u32 - 'A' as u32 + 10) as nat)
    } else {
        None
    }
}

/// The value of a sequence of hexadecimal digits, if they all are digits.
pub open spec fn hex_value(s: Seq<char>) -> Option<nat>
    decreases s.len(),
{
    if s.len() == 0 {
        Some(0)
    } else {
        match (hex_value(s.drop_last()), hex_digit(s.last())) {
            (Some(h), Some(d)) => Some(h * 16 + d),
            _ => None,
        }
    }
}

/// The character that four escape characters denote, as `u32::from_str_radix`
/// (base 16, with an optional `+`) followed by `char::from_u32` reads them.
pub open spec fn unicode_escape(digits: Seq<char>) -> Option<char> {
    let body = if digits.len() > 0 && digits[0] == '+' { digits.drop_first() } else { digits };
    if body.len() == 0 {
        None
    } else {
        match hex_value(body) {
            Some(v) => if 0xD800 <= v <= 0xDFFF {
                None
            } else {
                Some(v as u32 as char)
            },
            None => None,
        }
    }
}

/// The character a one-letter escape denotes.
pub open spec fn simple_escape(c: char) -> Option<char> {
    if c == '"' {
        Some('"')
    } else if c == '\\' {
        Some('\\')
    } else if c == '/' {
        Some('/')
    } else if c == 'b' {
        Some('\u{8}')
    } else if c == 'f' {
        Some('\u{c}')
    } else if c == 'n' {
        Some('\n')
    } else if c == 'r' {
        Some('\r')
    } else if c == 't' {
        Some('\t')
    } else {
        None
    }
}

/// The rank of a lexer mode: an atom may end without consuming a character.
pub open spec fn mode_rank(m: LexMode) -> nat {
    match m {
        LexMode::Atom { .. } => 1,
        _ => 0,
    }
}

/// The tokens of `cs[i..]`, appended to `acc`, when the lexer is in mode `m`
/// at index `i`; or the first lexical diagnostic. Spans are byte offsets.
pub open spec fn lex_from(cs: Seq<char>, i: int, m: LexMode, acc: Seq<TokenV>) -> Result<
    Seq<TokenV>,
    DiagnosticV,
>
    decreases cs.len() - i, mode_rank(m),
{
    let total = byte_len(cs) as int;
    if i < 0 || i >= cs.len() {
        match m {
            LexMode::Normal => Ok(acc),
            LexMode::Comment => Ok(acc),
            LexMode::Atom { start } => Ok(
                acc.push(
                    TokenV {
                        kind: TokenKindV::Atom(cs.subrange(start, cs.len() as int)),
                        span: Span {
                            start: byte_offset(cs, start) as usize,
                            end: total as usize,
                        },
                    },
                ),
            ),
            LexMode::Str { start, .. } => Err(
                diag(
                    "flow.unterminated_string"@,
                    "unterminated string"@,
                    byte_offset(cs, start) as int,
                    total,
                ),
            ),
            LexMode::Escape { start, .. } => Err(
                diag(
                    "flow.unterminated_string"@,
                    "unterminated string escape"@,
                    byte_offset(cs, start) as int,
                    total,
                ),
            ),
            LexMode::Unicode { escape, .. } => Err(
                diag(
                    "flow.invalid_escape"@,
                    "incomplete unicode escape"@,
                    byte_offset(cs, escape) as int,
                    total,
                ),
            ),
        }
    } else {
        let c = cs[i];
        let here = byte_offset(cs, i) as int;
        match m {
            LexMode::Normal => {
                if spec_is_whitespace(c) {
                    lex_from(cs, i + 1, LexMode::Normal, acc)
                } else if c == ';' {
                    lex_from(cs, i + 1, LexMode::Comment, acc)
                } else if c == '(' || c == ')' || c == '[' || c == ']' {
                    let d = if c == '(' || c == ')' {
                        Delimiter::Parenthesis
                    } else {
                        Delimiter::Bracket
                    };
                    let kind = if c == '(' || c == '[' {
                        TokenKindV::Open(d)
                    } else {
                        TokenKindV::Close(d)
                    };
                    lex_from(
                        cs,
                        i + 1,
                        LexMode::Normal,
                        acc.push(
                            TokenV {
                                kind,
                                span: Span { start: here as usize, end: (here + 1) as usize },
                            },
                        ),
                    )
                } else if c == '"' {
                    lex_from(cs, i + 1, LexMode::Str { start: i, value: Seq::empty() }, acc)
                } else {
                    lex_from(cs, i + 1, LexMode::Atom { start: i }, acc)
                }
            },
            LexMode::Comment => {
                if c == '\n' {
                    lex_from(cs, i + 1, LexMode::Normal, acc)
                } else {
                    lex_from(cs, i + 1, LexMode::Comment, acc)
                }
            },
            LexMode::Atom { start } => {
                if ends_atom(c) {
                    lex_from(
                        cs,
                        i,
                        LexMode::Normal,
                        acc.push(
                            TokenV {
                                kind: TokenKindV::Atom(cs.subrange(start, i)),
                                span: Span {
                                    start: byte_offset(cs, start) as usize,
                                    end: here as usize,
                                },
                            },
                        ),
                    )
                } else {
                    lex_from(cs, i + 1, LexMode::Atom { start }, acc)
                }
            },
            LexMode::Str { start, value } => {
                if c == '"' {
                    lex_from(
                        cs,
                        i + 1,
                        LexMode::Normal,
                        acc.push(
                            TokenV {
                                kind: TokenKindV::Str(value),
                                span: Span {
                                    start: byte_offset(cs, start) as usize,
                                    end: byte_offset(cs, i + 1) as usize,
                                },
                            },
                        ),
                    )
                } else if c == '\\' {
                    lex_from(cs, i + 1, LexMode::Escape { start, value }, acc)
                } else {
                    lex_from(cs, i + 1, LexMode::Str { start, value: value.push(c) }, acc)
                }
            },
            LexMode::Escape { start, value } => {
                if c == 'u' {
                    lex_from(
                        cs,
                        i + 1,
                        LexMode::Unicode { start, value, escape: i, digits: Seq::empty() },
                        acc,
                    )
                } else {
                    match simple_escape(c) {
                        Some(e) => lex_from(
                            cs,
                            i + 1,
                            LexMode::Str { start, value: value.push(e) },
                            acc,
                        ),
                        None => Err(
                            diag(
                                "flow.invalid_escape"@,
                                "invalid string escape"@,
                                here,
                                here + utf8_width(c) as int,
                            ),
                        ),
                    }
                }
            },
            LexMode::Unicode { start, value, escape, digits } => {
                let d2 = digits.push(c);
                if d2.len() < 4 {
                    lex_from(cs, i + 1, LexMode::Unicode { start, value, escape, digits: d2 }, acc)
                } else {
                    match unicode_escape(d2) {
                        Some(e) => lex_from(
                            cs,
                            i + 1,
                            LexMode::Str { start, value: value.push(e) },
                            acc,
                        ),
                        None => Err(
                            diag(
                                "flow.invalid_escape"@,
                                "invalid unicode escape"@,
                                byte_offset(cs, escape) as int,
                                byte_offset(cs, escape) + 5int,
                            ),
                        ),
                    }
                }
            },
        }
    }
}

/// The tokens of a source text, or its first lexical diagnostic.
pub open spec fn spec_lex(cs: Seq<char>) -> Result<Seq<TokenV>, DiagnosticV> {
    lex_from(cs, 0, LexMode::Normal, Seq::empty())
}

enum Mode {
    Normal,
    Comment,
    Atom { start: usize, start_off: usize },
    Str { start: usize, start_off: usize, value: String },
    Escape { start: usize, start_off: usize, value: String },
    Unicode { start: usize, start_off: usize, value: String, escape: usize, escape_off: usize, digits: Vec<char> },
}

spec fn mode_view(m: Mode) -> LexMode {
    match m {
        Mode::Normal => LexMode::Normal,
        Mode::Comment => LexMode::Comment,
        Mode::Atom { start, .. } => LexMode::Atom { start: start as int },
        Mode::Str { start, value, .. } => LexMode::Str { start: start as int, value: value@ },
        Mode::Escape { start, value, .. } => LexMode::Escape { start: start as int, value: value@ },
        Mode::Unicode { start, value, escape, digits, .. } => LexMode::Unicode {
            start: start as int,
            value: value@,
            escape: escape as int,
            digits: digits@,
        },
    }
}

/// The mode's recorded positions are consistent with index `i`.
spec fn mode_wf(cs: Seq<char>, m: Mode, i: int) -> bool {
    match m {
        Mode::Normal => true,
        Mode::Comment => true,
        Mode::Atom { start, start_off } => start < i && start_off == byte_offset(cs, start as int),
        Mode::Str { start, start_off, .. } => start < i && start_off == byte_offset(cs, start as int),
        Mode::Escape { start, start_off, .. } => start < i && start_off == byte_offset(cs, start as int),
        Mode::Unicode { start, start_off, escape, escape_off, digits, .. } => start < i && escape < i
            && start_off == byte_offset(cs, start as int) && escape_off == byte_offset(cs, escape as int)
            && digits@.len() < 4,
    }
}

fn hex_digit_exec(c: char) -> (r: Option<u32>)
    ensures
        r matches Some(v) ==> hex_digit(c) == Some(v as nat) && v < 16,
        r is None ==> hex_digit(c) is None,
{
    if '0' <= c && c <= '9' {
        Some(c as u32 - '0' as u32)
    } else if 'a' <= c && c <= 'f' {
        Some(c as u32 - 'a' as u32 + 10)
    } else if 'A' <= c && c <= 'F' {
        Some(c as u32 - 'A' as u32 + 10)
    } else {
        None
    }
}

fn unicode_escape_exec(digits: &Vec<char>) -> (r: Option<char>)
    requires
        digits@.len() == 4,
    ensures
        r == unicode_escape(digits@),
{
    let skip: usize = if digits[0] == '+' { 1 } else { 0 };
    let ghost body = if digits@[0] == '+' { digits@.drop_first() } else { digits@ };
    assert(body =~= digits@.subrange(skip as int, 4));
    let mut v: u32 = 0;
    let mut i: usize = skip;
    while i < 4
        invariant
            skip <= i <= 4,
            digits@.len() == 4,
            body =~= digits@.subrange(skip as int, 4),
            body == (if digits@[0] == '+' { digits@.drop_first() } else { digits@ }),
            skip == (if digits@[0] == '+' { 1usize } else { 0usize }),
            hex_value(digits@.subrange(skip as int, i as int)) == Some(v as nat),
            v < 0x10000,
            i - skip <= 4,
            v < pow16(i - skip),
        decreases 4 - i,
    {
        match hex_digit_exec(digits[i]) {
            Some(d) => {
                proof {
                    assert(digits@.subrange(skip as int, i + 1).drop_last() =~= digits@.subrange(
                        skip as int,
                        i as int,
                    ));
                    lemma_pow16_step((i - skip) as nat);
                }
                v = v * 16 + d;
                i = i + 1;
            },
            None => {
                proof {
                    assert(digits@.subrange(skip as int, 4)[(i - skip) as int] == digits@[i as int]);
                    lemma_hex_value_prefix_none(digits@.subrange(skip as int, 4), (i - skip) as int);
                }
                return None;
            },
        }
    }
    if 0xD800 <= v && v <= 0xDFFF {
        None
    } else {
        let r = char_from_u32(v);
        proof {
            assert(vstd::utf8::is_scalar(v));
        }
        match r {
            Some(c) => {
                proof {
                    vstd::utf8::char_u32_cast(c, v);
                }
                Some(c)
            },
            None => None,
        }
    }
}

spec fn pow16(n: int) -> nat
    decreases n,
{
    if n <= 0 {
        1
    } else {
        16 * pow16(n - 1)
    }
}

proof fn lemma_pow16_step(n: nat)
    requires
        n < 4,
    ensures
        pow16(n as int + 1) == 16 * pow16(n as int),
        pow16(n as int + 1) <= 0x10000,
{
    reveal_with_fuel(pow16, 5);
}

proof fn lemma_hex_value_prefix_none(s: Seq<char>, k: int)
    requires
        0 <= k < s.len(),
        hex_digit(s[k]) is None,
    ensures
        hex_value(s) is None,
    decreases s.len(),
{
    if k < s.len() - 1 {
        assert(s.drop_last()[k] == s[k]);
        lemma_hex_value_prefix_none(s.drop_last(), k);
    }
}

fn simple_escape_exec(c: char) -> (r: Option<char>)
    ensures
        r == simple_escape(c),
{
    if c == '"' {
        Some('"')
    } else if c == '\\' {
        Some('\\')
    } else if c == '/' {
        Some('/')
    } else if c == 'b' {
        Some('\u{8}')
    } else if c == 'f' {
        Some('\u{c}')
    } else if c == 'n' {
        Some('\n')
    } else if c == 'r' {
        Some('\r')
    } else if c == 't' {
        Some('\t')
    } else {
        None
    }
}

fn syntax_error(code: &'static str, message: &str, start: usize, end: usize) -> (d: Diagnostic)
    ensures
        d@ == (DiagnosticV { code: code@, message: message@, span: Span { start, end } }),
{
    Diagnostic { code, message: message.to_owned(), span: Span { start, end } }
}

fn lex(cs: &Vec<char>, total: usize) -> (r: Result<Vec<Token>, Diagnostic>)
    requires
        total == byte_len(cs@),
        total <= isize::MAX,
    ensures
        r matches Ok(ts) ==> spec_lex(cs@) == Ok::<Seq<TokenV>, DiagnosticV>(tokens_view(ts@)),
        r matches Err(d) ==> spec_lex(cs@) == Err::<Seq<TokenV>, DiagnosticV>(d@),
{
    let mut tokens: Vec<Token> = Vec::new();
    let mut mode = Mode::Normal;
    let mut i: usize = 0;
    let mut off: usize = 0;
    assert(tokens_view(tokens@) =~= Seq::<TokenV>::empty());
    assert(cs@.take(0) =~= Seq::<char>::empty());
    while i < cs.len()
        invariant
            i <= cs@.len(),
            total == byte_len(cs@),
            total <= isize::MAX,
            off == byte_offset(cs@, i as int),
            off <= total,
            mode_wf(cs@, mode, i as int),
            spec_lex(cs@) == lex_from(cs@, i as int, mode_view(mode), tokens_view(tokens@)),
        decreases cs@.len() - i, mode_rank(mode_view(mode)),
    {
        let c = cs[i];
        proof {
            lemma_byte_offset_step(cs@, i as int);
        }
        let w = width(c);
        let next_off = off + w;
        let ghost old_tokens = tokens@;
        match mode {
            Mode::Normal => {
                if is_whitespace(c) {
                    i = i + 1;
                    off = next_off;
                } else if c == ';' {
                    mode = Mode::Comment;
                    i = i + 1;
                    off = next_off;
                } else if c == '(' || c == ')' || c == '[' || c == ']' {
                    let d = if c == '(' || c == ')' {
                        Delimiter::Parenthesis
                    } else {
                        Delimiter::Bracket
                    };
                    let kind = if c == '(' || c == '[' {
                        TokenKind::Open(d)
                    } else {
                        TokenKind::Close(d)
                    };
                    tokens.push(Token { kind, span: Span { start: off, end: off + 1 } });
                    assert(tokens_view(tokens@) =~= tokens_view(old_tokens).push(tokens@.last()@));
                    i = i + 1;
                    off = next_off;
                } else if c == '"' {
                    mode = Mode::Str { start: i, start_off: off, value: String::new() };
                    i = i + 1;
                    off = next_off;
                } else {
                    mode = Mode::Atom { start: i, start_off: off };
                    i = i + 1;
                    off = next_off;
                }
            },
            Mode::Comment => {
                if c == '\n' {
                    mode = Mode::Normal;
                }
                i = i + 1;
                off = next_off;
            },
            Mode::Atom { start, start_off } => {
                if is_whitespace(c) || c == '(' || c == ')' || c == '[' || c == ']' || c == ';' {
                    let atom = string_of(cs, start, i);
                    tokens.push(
                        Token { kind: TokenKind::Atom(atom), span: Span { start: start_off, end: off } },
                    );
                    assert(tokens_view(tokens@) =~= tokens_view(old_tokens).push(tokens@.last()@));
                    mode = Mode::Normal;
                } else {
                    i = i + 1;
                    off = next_off;
                }
            },
            Mode::Str { start, start_off, value } => {
                if c == '"' {
                    proof {
                        lemma_byte_offset_step(cs@, i as int);
                    }
                    tokens.push(
                        Token {
                            kind: TokenKind::Str(value),
                            span: Span { start: start_off, end: next_off },
                        },
                    );
                    assert(tokens_view(tokens@) =~= tokens_view(old_tokens).push(tokens@.last()@));
                    mode = Mode::Normal;
                } else if c == '\\' {
                    mode = Mode::Escape { start, start_off, value };
                } else {
                    let mut value = value;
                    push_char(&mut value, c);
                    mode = Mode::Str { start, start_off, value };
                }
                i = i + 1;
                off = next_off;
            },
            Mode::Escape { start, start_off, value } => {
                if c == 'u' {
                    let digits: Vec<char> = Vec::new();
                    assert(digits@ =~= Seq::<char>::empty());
                    mode = Mode::Unicode { start, start_off, value, escape: i, escape_off: off, digits };
                } else {
                    match simple_escape_exec(c) {
                        Some(e) => {
                            let mut value = value;
                            push_char(&mut value, e);
                            mode = Mode::Str { start, start_off, value };
                        },
                        None => {
                            return Err(
                                syntax_error("flow.invalid_escape", "invalid string escape", off, next_off),
                            );
                        },
                    }
                }
                i = i + 1;
                off = next_off;
            },
            Mode::Unicode { start, start_off, value, escape, escape_off, digits } => {
                proof {
                    lemma_byte_offset_step(cs@, escape as int);
                }
                let mut digits = digits;
                digits.push(c);
                if digits.len() < 4 {
                    mode = Mode::Unicode { start, start_off, value, escape, escape_off, digits };
                } else {
                    match unicode_escape_exec(&digits) {
                        Some(e) => {
                            let mut value = value;
                            push_char(&mut value, e);
                            mode = Mode::Str { start, start_off, value };
                        },
                        None => {
                            return Err(
                                syntax_error(
                                    "flow.invalid_escape",
                                    "invalid unicode escape",
                                    escape_off,
                                    escape_off + 5,
                                ),
                            );
                        },
                    }
                }
                i = i + 1;
                off = next_off;
            },
        }
    }
    proof {
        lemma_byte_offset_end(cs@);
    }
    match mode {
        Mode::Normal => Ok(tokens),
        Mode::Comment => Ok(tokens),
        Mode::Atom { start, start_off } => {
            let ghost old_tokens = tokens@;
            let atom = string_of(cs, start, i);
            tokens.push(Token { kind: TokenKind::Atom(atom), span: Span { start: start_off, end: total } });
            assert(tokens_view(tokens@) =~= tokens_view(old_tokens).push(tokens@.last()@));
            Ok(tokens)
        },
        Mode::Str { start_off, .. } => Err(
            syntax_error("flow.unterminated_string", "unterminated string", start_off, total),
        ),
        Mode::Escape { start_off, .. } => Err(
            syntax_error("flow.unterminated_string", "unterminated string escape", start_off, total),
        ),
        Mode::Unicode { escape_off, .. } => Err(
            syntax_error("flow.invalid_escape", "incomplete unicode escape", escape_off, total),
        ),
    }
}

/// Whether a character may belong to the numeric part of an atom.
pub open spec fn numeric_char(c: char) -> bool {
    ('0' <= c <= '9') || c == '.' || c == '-'
}

/// The index where the unit of an atom begins: the first character that is
/// neither an ASCII digit, `.` nor `-`.
pub open spec fn unit_start(v: Seq<char>, j: int) -> int
    decreases v.len() - j,
{
    if j < 0 || j >= v.len() {
        v.len() as int
    } else if !numeric_char(v[j]) {
        j
    } else {
        unit_start(v, j + 1)
    }
}

/// The number of `.` characters of `m`.
pub open spec fn dot_count(m: Seq<char>) -> nat
    decreases m.len(),
{
    if m.len() == 0 {
        0
    } else {
        dot_count(m.drop_last()) + if m.last() == '.' { 1nat } else { 0nat }
    }
}

/// The number of ASCII digits of `m`.
pub open spec fn digit_count(m: Seq<char>) -> nat
    decreases m.len(),
{
    if m.len() == 0 {
        0
    } else {
        digit_count(m.drop_last()) + if '0' <= m.last() <= '9' { 1nat } else { 0nat }
    }
}

/// Whether a literal made of digits, `.` and `-` reads as a floating-point
/// number (`f64::from_str`): an optional leading `-`, then digits with at most
/// one `.`, and at least one digit.
pub open spec fn float_literal(n: Seq<char>) -> bool {
    let m = if n.len() > 0 && n[0] == '-' { n.drop_first() } else { n };
    dot_count(m) <= 1 && digit_count(m) >= 1 && dot_count(m) + digit_count(m) == m.len()
}

/// The number that an atom denotes, if it denotes one.
pub open spec fn number_form(v: Seq<char>) -> Option<FormV> {
    let u = unit_start(v, 0);
    let number = v.take(u);
    let unit = v.skip(u);
    if number.len() == 0 || number == "-"@ || !float_literal(number) {
        None
    } else {
        Some(FormV::Number { literal: number, unit: if unit.len() == 0 { None } else { Some(unit) } })
    }
}

/// The form that an atom token denotes.
pub open spec fn atom_form(v: Seq<char>) -> FormV {
    if v == "true"@ {
        FormV::Bool(true)
    } else if v == "false"@ {
        FormV::Bool(false)
    } else if v == "nil"@ {
        FormV::Nil
    } else if v.len() > 1 && v[0] == ':' {
        FormV::Keyword(v.drop_first())
    } else {
        match number_form(v) {
            Some(f) => f,
            None => FormV::Symbol(v),
        }
    }
}

pub(crate) fn count_numeric(v: &Vec<char>, from: usize, to: usize) -> (r: (usize, usize))
    requires
        from <= to <= v@.len(),
    ensures
        r.0 == dot_count(v@.subrange(from as int, to as int)),
        r.1 == digit_count(v@.subrange(from as int, to as int)),
        r.0 + r.1 <= to - from,
{
    let mut dots: usize = 0;
    let mut digits: usize = 0;
    let mut i = from;
    while i < to
        invariant
            from <= i <= to <= v@.len(),
            dots == dot_count(v@.subrange(from as int, i as int)),
            digits == digit_count(v@.subrange(from as int, i as int)),
            dots + digits <= i - from,
        decreases to - i,
    {
        assert(v@.subrange(from as int, i + 1).drop_last() =~= v@.subrange(from as int, i as int));
        if v[i] == '.' {
            dots = dots + 1;
        }
        if '0' <= v[i] && v[i] <= '9' {
            digits = digits + 1;
        }
        i = i + 1;
    }
    (dots, digits)
}

fn atom(text: &String) -> (f: Form)
    ensures
        f@ == atom_form(text@),
{
    let v = chars_of(text.as_str());
    if str_eq(text.as_str(), "true") {
        return Form::Bool(true);
    }
    if str_eq(text.as_str(), "false") {
        return Form::Bool(false);
    }
    if str_eq(text.as_str(), "nil") {
        return Form::Nil;
    }
    if v.len() > 1 && v[0] == ':' {
        let k = string_of(&v, 1, v.len());
        assert(k@ =~= text@.drop_first());
        return Form::Keyword(k);
    }
    let mut u: usize = 0;
    while u < v.len() && (('0' <= v[u] && v[u] <= '9') || v[u] == '.' || v[u] == '-')
        invariant
            u <= v@.len(),
            v@ == text@,
            unit_start(v@, 0) == unit_start(v@, u as int),
        decreases v@.len() - u,
    {
        u = u + 1;
    }
    let ghost number = v@.take(u as int);
    assert(number =~= v@.subrange(0, u as int));
    let start: usize = if u > 0 && v[0] == '-' { 1 } else { 0 };
    let (dots, digits) = count_numeric(&v, start, u);
    proof {
        let m = if number.len() > 0 && number[0] == '-' { number.drop_first() } else { number };
        assert(m =~= v@.subrange(start as int, u as int));
    }
    let is_dash = u == 1 && v[0] == '-';
    assert(is_dash == (number == "-"@)) by {
        reveal_strlit("-");
        if number == "-"@ {
            assert(number.len() == 1);
        }
        if is_dash {
            assert(number =~= "-"@);
        }
    }
    if u == 0 || is_dash || !(dots <= 1 && digits >= 1 && dots + digits == u - start) {
        return Form::Symbol(text.clone());
    }
    let literal = string_of(&v, 0, u);
    let unit = if u < v.len() {
        let t = string_of(&v, u, v.len());
        assert(t@ =~= v@.skip(u as int));
        Some(t)
    } else {
        None
    };
    let f = Form::Number { literal, unit };
    assert(f@ == atom_form(text@));
    f
}

/// The form that begins at token `k`, its span and the index of the next
/// token; or the first syntax diagnostic.
pub open spec fn parse_form(t: Seq<TokenV>, k: int) -> Result<(FormV, Span, int), DiagnosticV>
    decreases t.len() - k, 0nat,
{
    if k < 0 || k >= t.len() {
        Err(diag("flow.unexpected_eof"@, "expected a form"@, 0, 0))
    } else {
        match t[k].kind {
            TokenKindV::Close(_) => Err(
                DiagnosticV {
                    code: "flow.unexpected_close"@,
                    message: "unexpected closing parenthesis"@,
                    span: t[k].span,
                },
            ),
            TokenKindV::Str(v) => Ok((FormV::String(v), t[k].span, k + 1)),
            TokenKindV::Atom(v) => Ok((atom_form(v), t[k].span, k + 1)),
            TokenKindV::Open(d) => parse_items(t, k + 1, k, d, Seq::empty()),
        }
    }
}

/// The rest of a list opened by token `open` with delimiter `d`, from token
/// `k`, after the items `acc`.
pub open spec fn parse_items(t: Seq<TokenV>, k: int, open: int, d: Delimiter, acc: Seq<FormV>) -> Result<
    (FormV, Span, int),
    DiagnosticV,
>
    decreases t.len() - k, 1nat,
{
    if k < 0 || k >= t.len() {
        Err(
            DiagnosticV {
                code: "flow.unclosed_list"@,
                message: "unclosed list"@,
                span: t[open].span,
            },
        )
    } else {
        match t[k].kind {
            TokenKindV::Close(c) => if c == d {
                Ok(
                    (
                        FormV::List(acc),
                        Span { start: t[open].span.start, end: t[k].span.end },
                        k + 1,
                    ),
                )
            } else {
                Err(
                    DiagnosticV {
                        code: "flow.mismatched_delimiter"@,
                        message: "mismatched list delimiter"@,
                        span: t[k].span,
                    },
                )
            },
            _ => match parse_form(t, k) {
                Err(e) => Err(e),
                Ok((f, _, k2)) => if k2 <= k || k2 > t.len() {
                    Err(e_never())
                } else {
                    parse_items(t, k2, open, d, acc.push(f))
                },
            },
        }
    }
}

/// A diagnostic that no input produces: parsing a form always consumes a token.
pub open spec fn e_never() -> DiagnosticV {
    diag(Seq::empty(), Seq::empty(), 0, 0)
}

fn parse_form_exec(tokens: &Vec<Token>, k: usize) -> (r: Result<(Form, Span, usize), Diagnostic>)
    ensures
        r matches Ok((f, sp, k2)) ==> k < k2 <= tokens@.len() && parse_form(tokens_view(tokens@), k as int)
            == Ok::<(FormV, Span, int), DiagnosticV>((f@, sp, k2 as int)),
        r matches Err(d) ==> parse_form(tokens_view(tokens@), k as int) == Err::<
            (FormV, Span, int),
            DiagnosticV,
        >(d@),
    decreases tokens@.len() - k,
{
    let ghost t = tokens_view(tokens@);
    if k >= tokens.len() {
        return Err(syntax_error("flow.unexpected_eof", "expected a form", 0, 0));
    }
    let token = &tokens[k];
    assert(t[k as int] == token@);
    match &token.kind {
        TokenKind::Close(_) => Err(
            syntax_error(
                "flow.unexpected_close",
                "unexpected closing parenthesis",
                token.span.start,
                token.span.end,
            ),
        ),
        TokenKind::Str(value) => Ok((Form::String(value.clone()), token.span, k + 1)),
        TokenKind::Atom(value) => Ok((atom(value), token.span, k + 1)),
        TokenKind::Open(delimiter) => {
            let delimiter = *delimiter;
            let mut forms: Vec<Form> = Vec::new();
            let mut j: usize = k + 1;
            assert(forms_view(forms@) =~= Seq::<FormV>::empty());
            loop
                invariant
                    k < j <= tokens@.len(),
                    t == tokens_view(tokens@),
                    t[k as int] == token@,
                    token@.kind == TokenKindV::Open(delimiter),
                    parse_form(t, k as int) == parse_items(
                        t,
                        j as int,
                        k as int,
                        delimiter,
                        forms_view(forms@),
                    ),
                decreases tokens@.len() - j,
            {
                if j >= tokens.len() {
                    return Err(
                        syntax_error("flow.unclosed_list", "unclosed list", token.span.start, token.span.end),
                    );
                }
                let next = &tokens[j];
                assert(t[j as int] == next@);
                match &next.kind {
                    TokenKind::Close(close) => {
                        if *close == delimiter {
                            let f = Form::List(forms);
                            return Ok((f, Span { start: token.span.start, end: next.span.end }, j + 1));
                        } else {
                            return Err(
                                syntax_error(
                                    "flow.mismatched_delimiter",
                                    "mismatched list delimiter",
                                    next.span.start,
                                    next.span.end,
                                ),
                            );
                        }
                    },
                    _ => {},
                }
                match parse_form_exec(tokens, j) {
                    Err(e) => {
                        return Err(e);
                    },
                    Ok((f, _, j2)) => {
                        let ghost old_forms = forms@;
                        forms.push(f);
                        assert(forms_view(forms@) =~= forms_view(old_forms).push(f@));
                        j = j2;
                    },
                }
            }
        },
    }
}

/// What `parse` answers for a source text: the root form of the single
/// document it holds, or the diagnostics of the first error.
pub open spec fn spec_parse(cs: Seq<char>) -> Result<FormV, Seq<DiagnosticV>> {
    match spec_lex(cs) {
        Err(d) => Err(seq![d]),
        Ok(t) => match parse_form(t, 0) {
            Err(d) => Err(seq![d]),
            Ok((root, span, k)) => if k < t.len() {
                Err(
                    seq![
                        DiagnosticV {
                            code: "flow.trailing_form"@,
                            message: "a Flow document contains exactly one root form"@,
                            span: t[k].span,
                        },
                    ],
                )
            } else {
                match spec_validate_root(root) {
                    Err(e) => Err(
                        seq![
                            DiagnosticV { code: "flow.root"@, message: ast_error_message(e), span },
                        ],
                    ),
                    Ok(()) => Ok(root),
                }
            },
        },
    }
}

/// Reads a Flow document.
pub fn parse(source: &str) -> (r: Result<FlowAst, Vec<Diagnostic>>)
    requires
        byte_len(source@) <= isize::MAX,
    ensures
        r matches Ok(ast) ==> spec_parse(source@) == Ok::<FormV, Seq<DiagnosticV>>(ast.root@)
            && ast.dsl@ == DSL_NAME@ && ast.dsl_version == DSL_VERSION,
        r matches Err(ds) ==> spec_parse(source@) == Err::<FormV, Seq<DiagnosticV>>(
            diags_view(ds@),
        ),
{
    let cs = chars_of(source);
    proof {
        lemma_byte_len_is_str_len(source@);
    }
    let total = source.len();
    let tokens = match lex(&cs, total) {
        Ok(tokens) => tokens,
        Err(d) => {
            let ds = vec![d];
            assert(diags_view(ds@) =~= seq![ds@[0]@]);
            return Err(ds);
        },
    };
    let ghost t = tokens_view(tokens@);
    let (root, span, k) = match parse_form_exec(&tokens, 0) {
        Ok(x) => x,
        Err(d) => {
            let ds = vec![d];
            assert(diags_view(ds@) =~= seq![ds@[0]@]);
            return Err(ds);
        },
    };
    if k < tokens.len() {
        assert(t[k as int] == tokens@[k as int]@);
        let d = syntax_error(
            "flow.trailing_form",
            "a Flow document contains exactly one root form",
            tokens[k].span.start,
            tokens[k].span.end,
        );
        let ds = vec![d];
        assert(diags_view(ds@) =~= seq![ds@[0]@]);
        return Err(ds);
    }
    match FlowAst::new(root) {
        Ok(ast) => Ok(ast),
        Err(e) => {
            let d = Diagnostic { code: "flow.root", message: e.message(), span };
            let ds = vec![d];
            assert(diags_view(ds@) =~= seq![ds@[0]@]);
            Err(ds)
        },
    }
}

/// `n` spaces.
pub open spec fn spaces(n: nat) -> Seq<char> {
    Seq::new(n, |i: int| ' ')
}

/// The lowercase hexadecimal digit for `d < 16`.
pub open spec fn hex_lower(d: nat) -> char {
    if d < 10 {
        digit_char(d)
    } else if d == 10 {
        'a'
    } else if d == 11 {
        'b'
    } else if d == 12 {
        'c'
    } else if d == 13 {
        'd'
    } else if d == 14 {
        'e'
    } else {
        'f'
    }
}

/// `\u` followed by the four lowercase hexadecimal digits of a value below `0x10000`.
pub open spec fn unicode_escape_text(v: nat) -> Seq<char> {
    seq!['\\', 'u', hex_lower((v / 4096) % 16), hex_lower((v / 256) % 16), hex_lower((v / 16) % 16), hex_lower(v % 16)]
}

/// How one character of a string literal is written.
pub open spec fn escape_char(c: char) -> Seq<char> {
    if c == '"' {
        seq!['\\', '"']
    } else if c == '\\' {
        seq!['\\', '\\']
    } else if c == '\n' {
        seq!['\\', 'n']
    } else if c == '\r' {
        seq!['\\', 'r']
    } else if c == '\t' {
        seq!['\\', 't']
    } else if spec_is_control(c) {
        unicode_escape_text(c as u32 as nat)
    } else {
        seq![c]
    }
}

/// How the characters of a string literal are written, without the quotes.
pub open spec fn escape_text(s: Seq<char>) -> Seq<char>
    decreases s.len(),
{
    if s.len() == 0 {
        Seq::empty()
    } else {
        escape_text(s.drop_last()) + escape_char(s.last())
    }
}

/// Whether none of the items is a list.
pub open spec fn all_atoms(items: Seq<FormV>) -> bool {
    forall|i: int| 0 <= i < items.len() ==> !(#[trigger] items[i] is List)
}

/// The canonical text of a form whose first line starts at column `indent`.
/// A list of atoms stays on one line; any other list puts each item after the
/// first on its own line, indented two more columns.
pub open spec fn fmt(f: FormV, indent: nat) -> Seq<char>
    decreases f, 0nat,
{
    match f {
        FormV::List(items) => if items.len() == 0 {
            seq!['(', ')']
        } else {
            seq!['('] + fmt_items(items, 0, indent, all_atoms(items)) + seq![')']
        },
        FormV::Symbol(v) => v,
        FormV::Keyword(v) => seq![':'] + v,
        FormV::String(v) => seq!['"'] + escape_text(v) + seq!['"'],
        FormV::Bool(b) => if b { "true"@ } else { "false"@ },
        FormV::Nil => "nil"@,
        FormV::Number { literal, unit } => match unit {
            Some(u) => literal + u,
            None => literal,
        },
    }
}

/// The text of `items[k..]` inside a list whose first line starts at column `indent`.
pub open spec fn fmt_items(items: Seq<FormV>, k: int, indent: nat, inline: bool) -> Seq<char>
    decreases items, items.len() - k,
{
    if k < 0 || k >= items.len() {
        Seq::empty()
    } else {
        let sep = if k == 0 {
            Seq::empty()
        } else if inline {
            seq![' ']
        } else {
            seq!['\n'] + spaces(indent + 2)
        };
        let child = if inline { indent } else { indent + 2 };
        sep + fmt(items[k], child) + fmt_items(items, k + 1, indent, inline)
    }
}

/// The nesting depth of a form.
pub open spec fn depth(f: FormV) -> nat
    decreases f, 0nat,
{
    match f {
        FormV::List(items) => 1 + depth_items(items, 0),
        _ => 0,
    }
}

/// The largest depth among `items[k..]`.
pub open spec fn depth_items(items: Seq<FormV>, k: int) -> nat
    decreases items, items.len() - k,
{
    if k < 0 || k >= items.len() {
        0
    } else {
        let a = depth(items[k]);
        let b = depth_items(items, k + 1);
        if a >= b { a } else { b }
    }
}

proof fn lemma_depth_items(items: Seq<FormV>, k: int, j: int)
    requires
        0 <= k <= j < items.len(),
    ensures
        depth(items[j]) <= depth_items(items, k),
    decreases j - k,
{
    if k < j {
        lemma_depth_items(items, k + 1, j);
    }
}

fn hex_lower_exec(d: u32) -> (c: char)
    requires
        d < 16,
    ensures
        c == hex_lower(d as nat),
{
    if d == 0 { '0' }
    else if d == 1 { '1' }
    else if d == 2 { '2' }
    else if d == 3 { '3' }
    else if d == 4 { '4' }
    else if d == 5 { '5' }
    else if d == 6 { '6' }
    else if d == 7 { '7' }
    else if d == 8 { '8' }
    else if d == 9 { '9' }
    else if d == 10 { 'a' }
    else if d == 11 { 'b' }
    else if d == 12 { 'c' }
    else if d == 13 { 'd' }
    else if d == 14 { 'e' }
    else { 'f' }
}

fn push_escaped(output: &mut String, c: char)
    ensures
        final(output)@ == old(output)@ + escape_char(c),
{
    if c == '"' {
        push_char(output, '\\');
        push_char(output, '"');
    } else if c == '\\' {
        push_char(output, '\\');
        push_char(output, '\\');
    } else if c == '\n' {
        push_char(output, '\\');
        push_char(output, 'n');
    } else if c == '\r' {
        push_char(output, '\\');
        push_char(output, 'r');
    } else if c == '\t' {
        push_char(output, '\\');
        push_char(output, 't');
    } else if is_control(c) {
        let v = c as u32;
        push_char(output, '\\');
        push_char(output, 'u');
        push_char(output, hex_lower_exec((v / 4096) % 16));
        push_char(output, hex_lower_exec((v / 256) % 16));
        push_char(output, hex_lower_exec((v / 16) % 16));
        push_char(output, hex_lower_exec(v % 16));
    } else {
        push_char(output, c);
    }
    assert(final(output)@ =~= old(output)@ + escape_char(c));
}

fn push_spaces(output: &mut String, n: usize)
    ensures
        final(output)@ == old(output)@ + spaces(n as nat),
{
    let ghost start = output@;
    let mut i: usize = 0;
    while i < n
        invariant
            i <= n,
            output@ == start + spaces(i as nat),
        decreases n - i,
    {
        push_char(output, ' ');
        i = i + 1;
        assert(output@ =~= start + spaces(i as nat));
    }
}

fn format_form(form: &Form, indent: usize, output: &mut String)
    requires
        indent + 2 * depth(form@) <= usize::MAX,
    ensures
        final(output)@ == old(output)@ + fmt(form@, indent as nat),
    decreases form,
{
    match form {
        Form::List(forms) => {
            let ghost items = forms_view(forms@);
            assert(form@ == FormV::List(items));
            if forms.len() == 0 {
                push_char(output, '(');
                push_char(output, ')');
                assert(final(output)@ =~= old(output)@ + fmt(form@, indent as nat));
                return;
            }
            let mut inline = true;
            let mut j: usize = 0;
            while j < forms.len()
                invariant
                    j <= forms@.len(),
                    items == forms_view(forms@),
                    inline == (forall|m: int| 0 <= m < j ==> !(#[trigger] items[m] is List)),
                decreases forms@.len() - j,
            {
                assert(items[j as int] == forms@[j as int]@);
                if !forms[j].is_atom() {
                    inline = false;
                }
                j = j + 1;
            }
            assert(inline == all_atoms(items));
            push_char(output, '(');
            let ghost after_open = output@;
            let mut i: usize = 0;
            while i < forms.len()
                invariant
                    i <= forms@.len(),
                    forms@.len() > 0,
                    items == forms_view(forms@),
                    *form == Form::List(*forms),
                    form@ == FormV::List(items),
                    inline == all_atoms(items),
                    indent + 2 * depth(form@) <= usize::MAX,
                    after_open + fmt_items(items, 0, indent as nat, inline) == output@ + fmt_items(
                        items,
                        i as int,
                        indent as nat,
                        inline,
                    ),
                decreases forms@.len() - i,
            {
                assert(items[i as int] == forms@[i as int]@);
                proof {
                    lemma_depth_items(items, 0, i as int);
                    assert(decreases_to!(*form => form->List_0));
                    assert(decreases_to!(form->List_0 => form->List_0@[i as int]));
                }
                let ghost before = output@;
                if i > 0 {
                    if inline {
                        push_char(output, ' ');
                    } else {
                        push_char(output, '\n');
                        push_spaces(output, indent + 2);
                    }
                }
                let child = if inline { indent } else { indent + 2 };
                format_form(&forms[i], child, output);
                i = i + 1;
                proof {
                    let k = (i - 1) as int;
                    let sep = if k == 0 {
                        Seq::<char>::empty()
                    } else if inline {
                        seq![' ']
                    } else {
                        seq!['\n'] + spaces(indent as nat + 2)
                    };
                    assert(output@ =~= before + sep + fmt(items[k], child as nat));
                    assert(fmt_items(items, k, indent as nat, inline) == sep + fmt(items[k], child as nat)
                        + fmt_items(items, k + 1, indent as nat, inline));
                    assert(after_open + fmt_items(items, 0, indent as nat, inline) =~= output@
                        + fmt_items(items, i as int, indent as nat, inline));
                }
            }
            push_char(output, ')');
            assert(fmt_items(items, forms@.len() as int, indent as nat, inline) =~= Seq::<char>::empty());
            assert(final(output)@ =~= old(output)@ + fmt(form@, indent as nat));
        },
        Form::Symbol(value) => {
            append_str(output, value.as_str());
        },
        Form::Keyword(value) => {
            push_char(output, ':');
            append_str(output, value.as_str());
            assert(final(output)@ =~= old(output)@ + fmt(form@, indent as nat));
        },
        Form::String(value) => {
            push_char(output, '"');
            let cs = chars_of(value.as_str());
            let ghost start = output@;
            let mut i: usize = 0;
            while i < cs.len()
                invariant
                    i <= cs@.len(),
                    output@ == start + escape_text(cs@.take(i as int)),
                decreases cs@.len() - i,
            {
                push_escaped(output, cs[i]);
                assert(cs@.take(i + 1).drop_last() =~= cs@.take(i as int));
                i = i + 1;
            }
            assert(cs@.take(cs@.len() as int) =~= cs@);
            push_char(output, '"');
            assert(final(output)@ =~= old(output)@ + fmt(form@, indent as nat));
        },
        Form::Bool(value) => {
            if *value {
                append_str(output, "true");
            } else {
                append_str(output, "false");
            }
        },
        Form::Nil => {
            append_str(output, "nil");
        },
        Form::Number { literal, unit } => {
            append_str(output, literal.as_str());
            match unit {
                Some(u) => {
                    append_str(output, u.as_str());
                    assert(final(output)@ =~= old(output)@ + fmt(form@, indent as nat));
                },
                None => {},
            }
        },
    }
}

/// What `format` answers for a document: the canonical text of its root, on
/// the lines that `fmt` gives, followed by a newline.
pub open spec fn spec_format(ast: FlowAst) -> Result<Seq<char>, AstErrorV> {
    match ast.spec_validate() {
        Err(e) => Err(e),
        Ok(()) => Ok(fmt(ast.root@, 0) + seq!['\n']),
    }
}

/// Renders a valid Flow document in its canonical form.
pub fn format(ast: &FlowAst) -> (r: Result<String, AstError>)
    requires
        2 * depth(ast.root@) <= usize::MAX,
    ensures
        r matches Ok(text) ==> spec_format(*ast) == Ok::<Seq<char>, AstErrorV>(text@),
        r matches Err(e) ==> spec_format(*ast) == Err::<Seq<char>, AstErrorV>(e@),
{
    match ast.validate() {
        Err(e) => {
            return Err(e);
        },
        Ok(()) => {},
    }
    let mut output = String::new();
    format_form(&ast.root, 0, &mut output);
    push_char(&mut output, '\n');
    assert(output@ =~= fmt(ast.root@, 0) + seq!['\n']);
    Ok(output)
}

} // verus!
