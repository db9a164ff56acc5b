//! Formatting a module is idempotent: the canonical text of a module reads
//! back as a module whose canonical text is that same text.

use vstd::prelude::*;
use crate::flow_plan::digits_value;
use crate::formatter::{
    fmt_args, fmt_body, fmt_expr, fmt_function, fmt_functions, fmt_imports, fmt_param, fmt_program, fmt_stmt, fmt_stmts,
    join_commas, literal_char, literal_text, precedence,
};
use crate::syntax::{
    BinaryOp, ExprKindV, ExprV, FunctionV, ImportV, ParamV, ProgramV, StmtKindV, StmtV, binary_v, int_fits, int_value, is_keyword, is_name, is_punct, is_word, join_parts, level_op, op_at,
    op_symbol, p_args, p_bin, p_bin_rest, p_effect_row, p_effects, p_expr, p_function, p_functions, p_if, p_imports, p_params,
    p_primary, p_program, p_qname, p_stmts,
};
use crate::lexer::{
    LexMode, Punct, TokKindV, TokV, ident_continue, ident_start, lex_from, pair_punct, single_punct, tok_at, unescape,
};
use crate::diagnostic::{DiagnosticV, Span};
use crate::text::{digit_char, spec_decimal, spec_is_whitespace, spec_signed_decimal};
use crate::text_set::{lemma_text_order_total, text_order};
use vstd::relations::sorted_by;

verus! {

/// A piece of canonical text: a lexeme of a given kind, or blank space.
pub enum Piece {
    Lex(TokKindV, Seq<char>),
    Gap(Seq<char>),
}

/// The text of a piece.
pub open spec fn piece_text(p: Piece) -> Seq<char> {
    match p {
        Piece::Lex(_, t) => t,
        Piece::Gap(t) => t,
    }
}

/// The text of some pieces, one after the other.
pub open spec fn flatten(ps: Seq<Piece>) -> Seq<char>
    decreases ps.len(),
{
    if ps.len() == 0 {
        Seq::empty()
    } else {
        piece_text(ps[0]) + flatten(ps.drop_first())
    }
}

/// The lexemes among some pieces: their kinds and texts, in order.
pub open spec fn lexemes(ps: Seq<Piece>) -> Seq<(TokKindV, Seq<char>)>
    decreases ps.len(),
{
    if ps.len() == 0 {
        Seq::empty()
    } else {
        match ps[0] {
            Piece::Lex(k, t) => seq![(k, t)] + lexemes(ps.drop_first()),
            Piece::Gap(_) => lexemes(ps.drop_first()),
        }
    }
}

/// The kinds and texts of some tokens.
pub open spec fn lexemes_of(t: Seq<TokV>) -> Seq<(TokKindV, Seq<char>)> {
    Seq::new(t.len(), |i: int| (t[i].kind, t[i].text))
}

/// An identifier.
pub open spec fn ident_text(s: Seq<char>) -> bool {
    s.len() >= 1 && ident_start(s[0]) && forall|j: int| 0 <= j < s.len() ==> ident_continue(#[trigger] s[j])
}

/// A run of ASCII digits.
pub open spec fn digit_text(s: Seq<char>) -> bool {
    s.len() >= 1 && forall|j: int| 0 <= j < s.len() ==> '0' <= #[trigger] s[j] <= '9'
}

/// Whether the lexer reads `text` as one token of kind `k`.
pub open spec fn lexeme_ok(k: TokKindV, text: Seq<char>) -> bool {
    match k {
        TokKindV::Ident => ident_text(text),
        TokKindV::Int => digit_text(text),
        TokKindV::Str(v) => text == seq!['"'] + literal_text(v) + seq!['"'],
        TokKindV::Punct(p) => (text.len() == 1 && single_punct(text[0]) == Some(p)) || (text.len() == 2
            && pair_punct(text[0], text[1]) == Some(p)),
        TokKindV::Eof => false,
    }
}

/// Whether a lexeme stays whole when the character `c` follows it.
pub open spec fn ends_clean(k: TokKindV, text: Seq<char>, c: char) -> bool {
    match k {
        TokKindV::Ident => !ident_continue(c),
        TokKindV::Int => !('0' <= c <= '9'),
        TokKindV::Punct(_) => text.len() == 2 || pair_punct(text[0], c) is None,
        _ => true,
    }
}

/// Whether a piece reads as intended.
pub open spec fn piece_ok(p: Piece) -> bool {
    match p {
        Piece::Lex(k, t) => lexeme_ok(k, t),
        Piece::Gap(t) => t.len() >= 1 && forall|j: int| 0 <= j < t.len() ==> spec_is_whitespace(#[trigger] t[j]),
    }
}

/// Whether a piece stays whole when the character `c` follows it.
pub open spec fn piece_ends_clean(p: Piece, c: char) -> bool {
    match p {
        Piece::Lex(k, t) => ends_clean(k, t, c),
        Piece::Gap(_) => true,
    }
}

/// Whether every piece reads as intended and each lexeme stays whole before
/// the next piece.
pub open spec fn pieces_ok(ps: Seq<Piece>) -> bool {
    &&& forall|i: int| 0 <= i < ps.len() ==> piece_ok(#[trigger] ps[i])
    &&& forall|i: int| 0 <= i < ps.len() - 1 ==> piece_ends_clean(#[trigger] ps[i], piece_text(ps[i + 1])[0])
}

/// `cs` holds the text `s` from index `p` on.
pub open spec fn text_at(cs: Seq<char>, p: int, s: Seq<char>) -> bool {
    &&& 0 <= p
    &&& p + s.len() <= cs.len()
    &&& forall|j: int| 0 <= j < s.len() ==> cs[p + j] == #[trigger] s[j]
}

proof fn lemma_text_at_split(cs: Seq<char>, p: int, a: Seq<char>, b: Seq<char>)
    requires
        text_at(cs, p, a + b),
    ensures
        text_at(cs, p, a),
        text_at(cs, p + a.len(), b),
{
    assert forall|j: int| 0 <= j < a.len() implies cs[p + j] == #[trigger] a[j] by {
        assert((a + b)[j] == a[j]);
    }
    assert forall|j: int| 0 <= j < b.len() implies cs[p + a.len() + j] == #[trigger] b[j] by {
        assert((a + b)[a.len() + j] == b[j]);
    }
}

proof fn lemma_lex_gap(cs: Seq<char>, q: int, m: int, acc: Seq<TokV>, comments: bool)
    requires
        0 <= q,
        0 <= m,
        q + m <= cs.len(),
        forall|j: int| q <= j < q + m ==> spec_is_whitespace(#[trigger] cs[j]),
    ensures
        lex_from(cs, q, LexMode::Normal, acc, comments) == lex_from(cs, q + m, LexMode::Normal, acc, comments),
    decreases m,
{
    if m > 0 {
        assert(spec_is_whitespace(cs[q]));
        lemma_lex_gap(cs, q + 1, m - 1, acc, comments);
    }
}

proof fn lemma_scan_ident(cs: Seq<char>, start: int, j: int, e: int, acc: Seq<TokV>, comments: bool)
    requires
        0 <= start < j <= e <= cs.len(),
        forall|x: int| j <= x < e ==> ident_continue(#[trigger] cs[x]),
    ensures
        lex_from(cs, j, LexMode::Ident { start }, acc, comments) == lex_from(
            cs,
            e,
            LexMode::Ident { start },
            acc,
            comments,
        ),
    decreases e - j,
{
    if j < e {
        assert(ident_continue(cs[j]));
        lemma_scan_ident(cs, start, j + 1, e, acc, comments);
    }
}

proof fn lemma_scan_int(cs: Seq<char>, start: int, j: int, e: int, acc: Seq<TokV>, comments: bool)
    requires
        0 <= start < j <= e <= cs.len(),
        forall|x: int| j <= x < e ==> '0' <= #[trigger] cs[x] <= '9',
    ensures
        lex_from(cs, j, LexMode::Int { start }, acc, comments) == lex_from(cs, e, LexMode::Int { start }, acc, comments),
    decreases e - j,
{
    if j < e {
        assert('0' <= cs[j] <= '9');
        lemma_scan_int(cs, start, j + 1, e, acc, comments);
    }
}

proof fn lemma_lex_literal(cs: Seq<char>, q: int, start: int, pre: Seq<char>, v: Seq<char>, acc: Seq<TokV>, comments: bool)
    requires
        text_at(cs, q, literal_text(v)),
    ensures
        lex_from(cs, q, LexMode::Str { start, value: pre }, acc, comments) == lex_from(
            cs,
            q + literal_text(v).len(),
            LexMode::Str { start, value: pre + v },
            acc,
            comments,
        ),
    decreases v.len(),
{
    if v.len() == 0 {
        assert(pre + v =~= pre);
    } else {
        let init = v.drop_last();
        let c = v.last();
        lemma_text_at_split(cs, q, literal_text(init), literal_char(c));
        lemma_lex_literal(cs, q, start, pre, init, acc, comments);
        let r = q + literal_text(init).len();
        let e = literal_char(c);
        assert(cs[r + 0] == e[0]);
        let m0 = LexMode::Str { start, value: pre + init };
        if c == '\n' || c == '\r' || c == '\t' || c == '"' || c == '\\' {
            assert(cs[r + 1] == e[1]);
            assert(e[0] == '\\');
            assert(unescape(e[1]) == c);
            assert(lex_from(cs, r, m0, acc, comments) == lex_from(
                cs,
                r + 1,
                LexMode::Escape { start, value: pre + init },
                acc,
                comments,
            ));
            assert(lex_from(cs, r + 1, LexMode::Escape { start, value: pre + init }, acc, comments) == lex_from(
                cs,
                r + 2,
                LexMode::Str { start, value: (pre + init).push(c) },
                acc,
                comments,
            ));
        } else {
            assert(e =~= seq![c]);
            assert(lex_from(cs, r, m0, acc, comments) == lex_from(
                cs,
                r + 1,
                LexMode::Str { start, value: (pre + init).push(c) },
                acc,
                comments,
            ));
        }
        assert((pre + init).push(c) =~= pre + v);
    }
}

/// One lexeme, read from between two tokens.
proof fn lemma_lex_lexeme(cs: Seq<char>, p: int, k: TokKindV, text: Seq<char>, acc: Seq<TokV>, comments: bool) -> (tok:
    TokV)
    requires
        lexeme_ok(k, text),
        text_at(cs, p, text),
        p + text.len() == cs.len() || ends_clean(k, text, cs[p + text.len()]),
    ensures
        tok.kind == k,
        tok.text == text,
        lex_from(cs, p, LexMode::Normal, acc, comments) == lex_from(
            cs,
            p + text.len(),
            LexMode::Normal,
            acc.push(tok),
            comments,
        ),
{
    let n = text.len() as int;
    assert(cs[p + 0] == text[0]);
    assert(cs.subrange(p, p + n) =~= text);
    let tok = tok_at(cs, k, p, p + n);
    match k {
        TokKindV::Ident => {
            assert(ident_continue(text[0]));
            assert forall|x: int| p + 1 <= x < p + n implies ident_continue(#[trigger] cs[x]) by {
                assert(cs[x] == text[x - p]);
            }
            lemma_scan_ident(cs, p, p + 1, p + n, acc, comments);
            if p + n < cs.len() {
                assert(!ident_continue(cs[p + n]));
            }
        },
        TokKindV::Int => {
            assert forall|x: int| p + 1 <= x < p + n implies '0' <= #[trigger] cs[x] <= '9' by {
                assert(cs[x] == text[x - p]);
            }
            lemma_scan_int(cs, p, p + 1, p + n, acc, comments);
        },
        TokKindV::Str(v) => {
            let lit = literal_text(v);
            lemma_text_at_split(cs, p, seq!['"'] + lit, seq!['"']);
            lemma_text_at_split(cs, p, seq!['"'], lit);
            lemma_lex_literal(cs, p + 1, p, Seq::empty(), v, acc, comments);
            assert(Seq::<char>::empty() + v =~= v);
            assert(seq!['"'][0] == '"');
            assert(cs[p + 1 + lit.len()] == '"');
        },
        TokKindV::Punct(pp) => {
            if n == 2 {
                assert(cs[p + 1] == text[1]);
            } else if p + 1 < cs.len() {
                assert(pair_punct(cs[p], cs[p + 1]) is None);
            }
        },
        TokKindV::Eof => {},
    }
    tok
}

proof fn lemma_piece_nonempty(p: Piece)
    requires
        piece_ok(p),
    ensures
        piece_text(p).len() >= 1,
{
    match p {
        Piece::Lex(k, t) => {
            match k {
                TokKindV::Str(v) => {
                    assert(t.len() == 2 + literal_text(v).len());
                },
                _ => {},
            }
        },
        Piece::Gap(_) => {},
    }
}

/// A sequence of pieces, read from between two tokens, yields exactly its
/// lexemes, provided what follows the last piece keeps it whole.
proof fn lemma_lex_pieces(cs: Seq<char>, p: int, ps: Seq<Piece>, acc: Seq<TokV>, comments: bool) -> (toks: Seq<TokV>)
    requires
        pieces_ok(ps),
        text_at(cs, p, flatten(ps)),
        ps.len() > 0 ==> (p + flatten(ps).len() == cs.len() || piece_ends_clean(
            ps.last(),
            cs[p + flatten(ps).len()],
        )),
    ensures
        lexemes_of(toks) == lexemes(ps),
        lex_from(cs, p, LexMode::Normal, acc, comments) == lex_from(
            cs,
            p + flatten(ps).len(),
            LexMode::Normal,
            acc + toks,
            comments,
        ),
    decreases ps.len(),
{
    if ps.len() == 0 {
        assert(acc + Seq::<TokV>::empty() =~= acc);
        assert(lexemes_of(Seq::<TokV>::empty()) =~= Seq::<(TokKindV, Seq<char>)>::empty());
        Seq::empty()
    } else {
        let first = ps[0];
        let rest = ps.drop_first();
        let ft = piece_text(first);
        assert(flatten(ps) == ft + flatten(rest));
        lemma_text_at_split(cs, p, ft, flatten(rest));
        assert forall|i: int| 0 <= i < rest.len() implies piece_ok(#[trigger] rest[i]) by {
            assert(rest[i] == ps[i + 1]);
        }
        assert forall|i: int| 0 <= i < rest.len() - 1 implies piece_ends_clean(
            #[trigger] rest[i],
            piece_text(rest[i + 1])[0],
        ) by {
            assert(rest[i] == ps[i + 1] && rest[i + 1] == ps[i + 2]);
        }
        assert(pieces_ok(rest));
        if rest.len() > 0 {
            assert(rest.last() == ps.last());
            lemma_piece_nonempty(rest[0]);
            assert(flatten(rest) == piece_text(rest[0]) + flatten(rest.drop_first()));
            assert(flatten(rest)[0] == piece_text(rest[0])[0]);
            assert(cs[p + ft.len() + 0] == flatten(rest)[0]);
        }
        match first {
            Piece::Gap(t) => {
                assert forall|j: int| p <= j < p + t.len() implies spec_is_whitespace(#[trigger] cs[j]) by {
                    assert(cs[p + (j - p)] == t[j - p]);
                }
                lemma_lex_gap(cs, p, t.len() as int, acc, comments);
                let toks = lemma_lex_pieces(cs, p + t.len(), rest, acc, comments);
                assert(lexemes(ps) == lexemes(rest));
                toks
            },
            Piece::Lex(k, t) => {
                if rest.len() > 0 {
                    assert(piece_ends_clean(ps[0], piece_text(ps[1])[0]));
                    assert(rest[0] == ps[1]);
                }
                let tok = lemma_lex_lexeme(cs, p, k, t, acc, comments);
                let toks = lemma_lex_pieces(cs, p + t.len(), rest, acc.push(tok), comments);
                assert(acc.push(tok) + toks =~= acc + (seq![tok] + toks));
                assert(lexemes_of(seq![tok] + toks) =~= seq![(k, t)] + lexemes_of(toks));
                seq![tok] + toks
            },
        }
    }
}

proof fn lemma_flatten_add(a: Seq<Piece>, b: Seq<Piece>)
    ensures
        flatten(a + b) == flatten(a) + flatten(b),
        lexemes(a + b) == lexemes(a) + lexemes(b),
    decreases a.len(),
{
    if a.len() == 0 {
        assert(a + b =~= b);
    } else {
        assert((a + b).drop_first() =~= a.drop_first() + b);
        lemma_flatten_add(a.drop_first(), b);
        assert((a + b)[0] == a[0]);
    }
}

proof fn lemma_pieces_ok_add(a: Seq<Piece>, b: Seq<Piece>)
    requires
        pieces_ok(a),
        pieces_ok(b),
        a.len() > 0 && b.len() > 0 ==> piece_ends_clean(a.last(), piece_text(b[0])[0]),
    ensures
        pieces_ok(a + b),
{
    assert forall|i: int| 0 <= i < (a + b).len() implies piece_ok(#[trigger] (a + b)[i]) by {
        if i < a.len() {
            assert((a + b)[i] == a[i]);
        } else {
            assert((a + b)[i] == b[i - a.len()]);
        }
    }
    assert forall|i: int| 0 <= i < (a + b).len() - 1 implies piece_ends_clean(
        #[trigger] (a + b)[i],
        piece_text((a + b)[i + 1])[0],
    ) by {
        if i < a.len() - 1 {
            assert((a + b)[i] == a[i] && (a + b)[i + 1] == a[i + 1]);
        } else if i == a.len() - 1 {
            assert((a + b)[i] == a.last() && (a + b)[i + 1] == b[0]);
        } else {
            assert((a + b)[i] == b[i - a.len()] && (a + b)[i + 1] == b[i - a.len() + 1]);
        }
    }
}

/// A punctuation lexeme.
pub open spec fn punct(p: Punct, t: Seq<char>) -> Piece {
    Piece::Lex(TokKindV::Punct(p), t)
}

/// A single space.
pub open spec fn space() -> Piece {
    Piece::Gap(seq![' '])
}

/// The punctuation of a binary operator.
pub open spec fn op_punct(op: BinaryOp) -> Punct {
    match op {
        BinaryOp::Add => Punct::Plus,
        BinaryOp::Subtract => Punct::Minus,
        BinaryOp::Multiply => Punct::Star,
        BinaryOp::Equal => Punct::EqEq,
        BinaryOp::LessThan => Punct::Lt,
        BinaryOp::LessThanOrEqual => Punct::Le,
    }
}

/// The pieces of an expression written where the context binds with
/// strength `parent`.
pub open spec fn expr_pieces(e: ExprV, parent: nat) -> Seq<Piece>
    decreases e, 2nat,
{
    if precedence(e) < parent {
        seq![punct(Punct::LParen, "("@)] + body_pieces(e) + seq![punct(Punct::RParen, ")"@)]
    } else {
        body_pieces(e)
    }
}

/// The pieces of an expression without surrounding parentheses.
pub open spec fn body_pieces(e: ExprV) -> Seq<Piece>
    decreases e, 1nat,
{
    let p = precedence(e);
    match e.kind {
        ExprKindV::Text(v) => seq![Piece::Lex(TokKindV::Str(v), seq!['"'] + literal_text(v) + seq!['"'])],
        ExprKindV::Int(v) => seq![Piece::Lex(TokKindV::Int, spec_signed_decimal(v as int))],
        ExprKindV::Bool(b) => seq![Piece::Lex(TokKindV::Ident, if b { "true"@ } else { "false"@ })],
        ExprKindV::Var(name) => seq![Piece::Lex(TokKindV::Ident, name)],
        ExprKindV::If { condition, consequence, alternative } => seq![Piece::Lex(TokKindV::Ident, "if"@), space()]
            + expr_pieces(*condition, 0) + seq![space(), punct(Punct::LBrace, "{"@), space()] + expr_pieces(
            *consequence,
            0,
        ) + seq![
            space(),
            punct(Punct::RBrace, "}"@),
            space(),
            Piece::Lex(TokKindV::Ident, "else"@),
            space(),
            punct(Punct::LBrace, "{"@),
            space(),
        ] + expr_pieces(*alternative, 0) + seq![space(), punct(Punct::RBrace, "}"@)],
        ExprKindV::Binary { operator, left, right } => expr_pieces(*left, p) + seq![
            space(),
            punct(op_punct(operator), op_symbol(operator)),
            space(),
        ] + expr_pieces(*right, p + 1),
        ExprKindV::Call { path, args } => path_pieces(path) + seq![punct(Punct::LParen, "("@)] + args_pieces(args, 0)
            + seq![punct(Punct::RParen, ")"@)],
    }
}

/// The pieces of `args[k..]`, separated by commas.
pub open spec fn args_pieces(args: Seq<ExprV>, k: int) -> Seq<Piece>
    decreases args, args.len() - k,
{
    if k < 0 || k >= args.len() {
        Seq::empty()
    } else {
        (if k == 0 {
            Seq::empty()
        } else {
            seq![punct(Punct::Comma, ","@), space()]
        }) + expr_pieces(args[k], 0) + args_pieces(args, k + 1)
    }
}

/// The pieces of a dotted name.
pub open spec fn path_pieces(parts: Seq<(Seq<char>, Span)>) -> Seq<Piece>
    decreases parts.len(),
{
    if parts.len() == 0 {
        Seq::empty()
    } else if parts.len() == 1 {
        seq![Piece::Lex(TokKindV::Ident, parts[0].0)]
    } else {
        path_pieces(parts.drop_last()) + seq![punct(Punct::Dot, "."@), Piece::Lex(TokKindV::Ident, parts.last().0)]
    }
}

proof fn lemma_flatten_one(p: Piece)
    ensures
        flatten(seq![p]) == piece_text(p),
        lexemes(seq![p]) == (match p {
            Piece::Lex(k, t) => seq![(k, t)],
            Piece::Gap(_) => Seq::<(TokKindV, Seq<char>)>::empty(),
        }),
{
    assert(seq![p].drop_first() =~= Seq::<Piece>::empty());
    assert(seq![p][0] == p);
    assert(flatten(Seq::<Piece>::empty()) == Seq::<char>::empty());
    assert(lexemes(Seq::<Piece>::empty()) == Seq::<(TokKindV, Seq<char>)>::empty());
    assert(piece_text(p) + Seq::<char>::empty() =~= piece_text(p));
    match p {
        Piece::Lex(k, t) => {
            assert(seq![(k, t)] + Seq::<(TokKindV, Seq<char>)>::empty() =~= seq![(k, t)]);
        },
        _ => {},
    }
}

proof fn lemma_flat2(a: Piece, b: Piece)
    ensures
        flatten(seq![a, b]) == piece_text(a) + piece_text(b),
        lexemes(seq![a, b]) == lexemes(seq![a]) + lexemes(seq![b]),
{
    assert(seq![a, b] =~= seq![a] + seq![b]);
    lemma_flatten_add(seq![a], seq![b]);
    lemma_flatten_one(a);
    lemma_flatten_one(b);
}

proof fn lemma_flat3(a: Piece, b: Piece, c: Piece)
    ensures
        flatten(seq![a, b, c]) == piece_text(a) + piece_text(b) + piece_text(c),
        lexemes(seq![a, b, c]) == lexemes(seq![a]) + lexemes(seq![b]) + lexemes(seq![c]),
{
    assert(seq![a, b, c] =~= seq![a, b] + seq![c]);
    lemma_flatten_add(seq![a, b], seq![c]);
    lemma_flat2(a, b);
    lemma_flatten_one(c);
}

proof fn lemma_flat7(a: Piece, b: Piece, c: Piece, d: Piece, e: Piece, f: Piece, g: Piece)
    ensures
        flatten(seq![a, b, c, d, e, f, g]) == flatten(seq![a, b, c]) + flatten(seq![d, e, f]) + piece_text(g),
        lexemes(seq![a, b, c, d, e, f, g]) == lexemes(seq![a, b, c]) + lexemes(seq![d, e, f]) + lexemes(seq![g]),
{
    assert(seq![a, b, c, d, e, f, g] =~= seq![a, b, c] + seq![d, e, f] + seq![g]);
    lemma_flatten_add(seq![a, b, c] + seq![d, e, f], seq![g]);
    lemma_flatten_add(seq![a, b, c], seq![d, e, f]);
    lemma_flatten_one(g);
}

proof fn lemma_path_text(parts: Seq<(Seq<char>, Span)>)
    ensures
        flatten(path_pieces(parts)) == join_parts(parts),
    decreases parts.len(),
{
    if parts.len() == 0 {
    } else if parts.len() == 1 {
        lemma_flatten_one(Piece::Lex(TokKindV::Ident, parts[0].0));
    } else {
        lemma_path_text(parts.drop_last());
        let tail = seq![punct(Punct::Dot, "."@), Piece::Lex(TokKindV::Ident, parts.last().0)];
        lemma_flatten_add(path_pieces(parts.drop_last()), tail);
        lemma_flat2(punct(Punct::Dot, "."@), Piece::Lex(TokKindV::Ident, parts.last().0));
    }
}

/// The pieces of an expression spell its canonical text.
proof fn lemma_expr_text(e: ExprV, parent: nat)
    ensures
        flatten(expr_pieces(e, parent)) == fmt_expr(e, parent),
    decreases e, 2nat,
{
    lemma_body_text(e);
    if precedence(e) < parent {
        let lp = seq![punct(Punct::LParen, "("@)];
        let rp = seq![punct(Punct::RParen, ")"@)];
        lemma_flatten_add(lp + body_pieces(e), rp);
        lemma_flatten_add(lp, body_pieces(e));
        lemma_flatten_one(punct(Punct::LParen, "("@));
        lemma_flatten_one(punct(Punct::RParen, ")"@));
        reveal_strlit("(");
        reveal_strlit(")");
        assert("("@ =~= seq!['(']);
        assert(")"@ =~= seq![')']);
    }
}

proof fn lemma_body_text(e: ExprV)
    ensures
        flatten(body_pieces(e)) == fmt_body(e),
    decreases e, 1nat,
{
    let p = precedence(e);
    match e.kind {
        ExprKindV::Text(v) => {
            lemma_flatten_one(Piece::Lex(TokKindV::Str(v), seq!['"'] + literal_text(v) + seq!['"']));
        },
        ExprKindV::Int(v) => {
            lemma_flatten_one(Piece::Lex(TokKindV::Int, spec_signed_decimal(v as int)));
        },
        ExprKindV::Bool(b) => {
            lemma_flatten_one(Piece::Lex(TokKindV::Ident, if b { "true"@ } else { "false"@ }));
        },
        ExprKindV::Var(name) => {
            lemma_flatten_one(Piece::Lex(TokKindV::Ident, name));
        },
        ExprKindV::If { condition, consequence, alternative } => {
            lemma_expr_text(*condition, 0);
            lemma_expr_text(*consequence, 0);
            lemma_expr_text(*alternative, 0);
            let a = seq![Piece::Lex(TokKindV::Ident, "if"@), space()];
            let e1 = expr_pieces(*condition, 0);
            let b = seq![space(), punct(Punct::LBrace, "{"@), space()];
            let e2 = expr_pieces(*consequence, 0);
            let c = seq![
                space(),
                punct(Punct::RBrace, "}"@),
                space(),
                Piece::Lex(TokKindV::Ident, "else"@),
                space(),
                punct(Punct::LBrace, "{"@),
                space(),
            ];
            let e3 = expr_pieces(*alternative, 0);
            let d = seq![space(), punct(Punct::RBrace, "}"@)];
            lemma_flatten_add(a + e1 + b + e2 + c + e3, d);
            lemma_flatten_add(a + e1 + b + e2 + c, e3);
            lemma_flatten_add(a + e1 + b + e2, c);
            lemma_flatten_add(a + e1 + b, e2);
            lemma_flatten_add(a + e1, b);
            lemma_flatten_add(a, e1);
            lemma_flat2(Piece::Lex(TokKindV::Ident, "if"@), space());
            lemma_flat3(space(), punct(Punct::LBrace, "{"@), space());
            lemma_flat7(
                space(),
                punct(Punct::RBrace, "}"@),
                space(),
                Piece::Lex(TokKindV::Ident, "else"@),
                space(),
                punct(Punct::LBrace, "{"@),
                space(),
            );
            lemma_flat3(space(), punct(Punct::RBrace, "}"@), space());
            lemma_flat3(Piece::Lex(TokKindV::Ident, "else"@), space(), punct(Punct::LBrace, "{"@));
            lemma_flat2(space(), punct(Punct::RBrace, "}"@));
            reveal_strlit("if ");
            reveal_strlit("if");
            reveal_strlit(" { ");
            reveal_strlit(" } else { ");
            reveal_strlit(" }");
            reveal_strlit("{");
            reveal_strlit("}");
            reveal_strlit("else");
            assert(flatten(a) =~= "if "@);
            assert(flatten(b) =~= " { "@);
            assert(flatten(c) =~= " } else { "@);
            assert(flatten(d) =~= " }"@);
        },
        ExprKindV::Binary { operator, left, right } => {
            lemma_expr_text(*left, p);
            lemma_expr_text(*right, p + 1);
            let mid = seq![space(), punct(op_punct(operator), op_symbol(operator)), space()];
            lemma_flatten_add(expr_pieces(*left, p) + mid, expr_pieces(*right, p + 1));
            lemma_flatten_add(expr_pieces(*left, p), mid);
            lemma_flat3(space(), punct(op_punct(operator), op_symbol(operator)), space());
        },
        ExprKindV::Call { path, args } => {
            lemma_path_text(path);
            lemma_args_text(args, 0);
            let lp = seq![punct(Punct::LParen, "("@)];
            let rp = seq![punct(Punct::RParen, ")"@)];
            lemma_flatten_add(path_pieces(path) + lp + args_pieces(args, 0), rp);
            lemma_flatten_add(path_pieces(path) + lp, args_pieces(args, 0));
            lemma_flatten_add(path_pieces(path), lp);
            lemma_flatten_one(punct(Punct::LParen, "("@));
            lemma_flatten_one(punct(Punct::RParen, ")"@));
            reveal_strlit("(");
            reveal_strlit(")");
            assert("("@ =~= seq!['(']);
            assert(")"@ =~= seq![')']);
        },
    }
}

proof fn lemma_args_text(args: Seq<ExprV>, k: int)
    ensures
        flatten(args_pieces(args, k)) == fmt_args(args, k),
    decreases args, args.len() - k,
{
    if 0 <= k < args.len() {
        lemma_expr_text(args[k], 0);
        lemma_args_text(args, k + 1);
        let sep = if k == 0 {
            Seq::<Piece>::empty()
        } else {
            seq![punct(Punct::Comma, ","@), space()]
        };
        lemma_flatten_add(sep + expr_pieces(args[k], 0), args_pieces(args, k + 1));
        lemma_flatten_add(sep, expr_pieces(args[k], 0));
        lemma_flat2(punct(Punct::Comma, ","@), space());
        reveal_strlit(", ");
        reveal_strlit(",");
        if k > 0 {
            assert(flatten(sep) =~= ", "@);
        } else {
            assert(flatten(sep) =~= Seq::<char>::empty());
        }
    }
}

/// A name: an identifier that is no keyword.
pub open spec fn name_text(s: Seq<char>) -> bool {
    ident_text(s) && !is_keyword(s)
}

/// Whether every part of a dotted name is a name.
pub open spec fn path_names(parts: Seq<(Seq<char>, Span)>) -> bool {
    parts.len() >= 1 && forall|i: int| 0 <= i < parts.len() ==> name_text(#[trigger] parts[i].0)
}

/// The expressions the parser reads: integers are not negative, variables
/// and called paths are names.
pub open spec fn wf_expr(e: ExprV) -> bool
    decreases e, 0nat,
{
    match e.kind {
        ExprKindV::Int(v) => v >= 0,
        ExprKindV::Var(name) => name_text(name),
        ExprKindV::If { condition, consequence, alternative } => wf_expr(*condition) && wf_expr(*consequence)
            && wf_expr(*alternative),
        ExprKindV::Binary { left, right, .. } => wf_expr(*left) && wf_expr(*right),
        ExprKindV::Call { path, args } => path_names(path) && wf_args(args, 0),
        _ => true,
    }
}

/// Whether `args[k..]` are read expressions.
pub open spec fn wf_args(args: Seq<ExprV>, k: int) -> bool
    decreases args, args.len() - k,
{
    if 0 <= k < args.len() {
        wf_expr(args[k]) && wf_args(args, k + 1)
    } else {
        true
    }
}

/// A piece that may end an expression: any character that cannot continue
/// an identifier keeps it whole.
pub open spec fn closing(p: Piece) -> bool {
    match p {
        Piece::Lex(TokKindV::Ident, _) => true,
        Piece::Lex(TokKindV::Int, _) => true,
        Piece::Lex(TokKindV::Str(_), _) => true,
        Piece::Lex(TokKindV::Punct(Punct::RParen), t) => t == ")"@,
        Piece::Lex(TokKindV::Punct(Punct::RBrace), t) => t == "}"@,
        _ => false,
    }
}

proof fn lemma_closing_clean(p: Piece, c: char)
    requires
        closing(p),
        !ident_continue(c),
    ensures
        piece_ends_clean(p, c),
{
    reveal_strlit(")");
    reveal_strlit("}");
}

proof fn lemma_digit_char(d: nat)
    requires
        d < 10,
    ensures
        '0' <= digit_char(d) <= '9',
        (digit_char(d) as u32 - '0' as u32) as nat == d,
{
}

/// The decimal text of `n` is a run of digits whose value is `n`.
pub proof fn lemma_decimal_digits(n: nat)
    ensures
        digit_text(spec_decimal(n)),
        digits_value(spec_decimal(n)) == Some(n),
    decreases n,
{
    if n >= 10 {
        lemma_decimal_digits(n / 10);
        lemma_digit_char(n % 10);
        let d = spec_decimal(n / 10);
        let s = d.push(digit_char(n % 10));
        assert(s.drop_last() =~= d);
        assert(n == (n / 10) * 10 + n % 10);
    } else {
        lemma_digit_char(n);
        assert(seq![digit_char(n)].drop_last() =~= Seq::<char>::empty());
        assert(digits_value(Seq::<char>::empty()) == Some(0nat));
    }
}

proof fn lemma_punct_ok()
    ensures
        piece_ok(punct(Punct::LParen, "("@)),
        piece_ok(punct(Punct::RParen, ")"@)),
        piece_ok(punct(Punct::LBrace, "{"@)),
        piece_ok(punct(Punct::RBrace, "}"@)),
        piece_ok(punct(Punct::Comma, ","@)),
        piece_ok(punct(Punct::Dot, "."@)),
        piece_ok(space()),
        piece_ok(Piece::Lex(TokKindV::Ident, "if"@)),
        piece_ok(Piece::Lex(TokKindV::Ident, "else"@)),
        piece_ok(Piece::Lex(TokKindV::Ident, "true"@)),
        piece_ok(Piece::Lex(TokKindV::Ident, "false"@)),
        forall|c: char| #[trigger] piece_ends_clean(punct(Punct::LParen, "("@), c),
        forall|c: char| #[trigger] piece_ends_clean(punct(Punct::LBrace, "{"@), c),
        forall|c: char| #[trigger] piece_ends_clean(punct(Punct::Comma, ","@), c),
        forall|c: char| #[trigger] piece_ends_clean(punct(Punct::Dot, "."@), c),
        forall|c: char| #[trigger] piece_ends_clean(space(), c),
        forall|c: char| #[trigger] piece_ends_clean(Piece::Lex(TokKindV::Ident, "if"@), c) <== !ident_continue(c),
        forall|c: char| #[trigger] piece_ends_clean(Piece::Lex(TokKindV::Ident, "else"@), c) <== !ident_continue(c),
{
    reveal_strlit("(");
    reveal_strlit(")");
    reveal_strlit("{");
    reveal_strlit("}");
    reveal_strlit(",");
    reveal_strlit(".");
    reveal_strlit("if");
    reveal_strlit("else");
    reveal_strlit("true");
    reveal_strlit("false");
}

proof fn lemma_op_ok(op: BinaryOp)
    ensures
        piece_ok(punct(op_punct(op), op_symbol(op))),
        piece_ends_clean(punct(op_punct(op), op_symbol(op)), ' '),
{
    reveal_strlit("+");
    reveal_strlit("-");
    reveal_strlit("*");
    reveal_strlit("==");
    reveal_strlit("<");
    reveal_strlit("<=");
}

proof fn lemma_ok_lit(ps: Seq<Piece>)
    requires
        forall|i: int| 0 <= i < ps.len() ==> piece_ok(#[trigger] ps[i]),
        forall|i: int| 0 <= i < ps.len() - 1 ==> piece_ends_clean(#[trigger] ps[i], piece_text(ps[i + 1])[0]),
    ensures
        pieces_ok(ps),
{
}

proof fn lemma_path_pieces_ok(parts: Seq<(Seq<char>, Span)>)
    requires
        path_names(parts),
    ensures
        pieces_ok(path_pieces(parts)),
        path_pieces(parts).len() > 0,
        path_pieces(parts).last() == Piece::Lex(TokKindV::Ident, parts.last().0),
    decreases parts.len(),
{
    lemma_punct_ok();
    if parts.len() == 1 {
        assert(name_text(parts[0].0));
    } else {
        let init = parts.drop_last();
        assert(path_names(init)) by {
            assert forall|i: int| 0 <= i < init.len() implies name_text(#[trigger] init[i].0) by {
                assert(init[i] == parts[i]);
            }
        }
        lemma_path_pieces_ok(init);
        let tail = seq![punct(Punct::Dot, "."@), Piece::Lex(TokKindV::Ident, parts.last().0)];
        assert(name_text(parts[parts.len() - 1].0));
        reveal_strlit(".");
        assert(piece_text(tail[1])[0] == parts.last().0[0]);
        lemma_ok_lit(tail);
        assert(piece_text(tail[0])[0] == '.');
        lemma_pieces_ok_add(path_pieces(init), tail);
    }
}

proof fn lemma_expr_pieces_ok(e: ExprV, parent: nat)
    requires
        wf_expr(e),
    ensures
        pieces_ok(expr_pieces(e, parent)),
        expr_pieces(e, parent).len() > 0,
        closing(expr_pieces(e, parent).last()),
    decreases e, 2nat,
{
    lemma_body_pieces_ok(e);
    lemma_punct_ok();
    if precedence(e) < parent {
        let lp = seq![punct(Punct::LParen, "("@)];
        let rp = seq![punct(Punct::RParen, ")"@)];
        let b = body_pieces(e);
        lemma_ok_lit(lp);
        lemma_ok_lit(rp);
        lemma_pieces_ok_add(lp, b);
        reveal_strlit(")");
        lemma_closing_clean(b.last(), ')');
        assert((lp + b).last() == b.last());
        lemma_pieces_ok_add(lp + b, rp);
    }
}

#[verifier::rlimit(40)]
proof fn lemma_body_pieces_ok(e: ExprV)
    requires
        wf_expr(e),
    ensures
        pieces_ok(body_pieces(e)),
        body_pieces(e).len() > 0,
        closing(body_pieces(e).last()),
    decreases e, 1nat,
{
    lemma_punct_ok();
    let p = precedence(e);
    match e.kind {
        ExprKindV::Int(v) => {
            lemma_decimal_digits(v as nat);
        },
        ExprKindV::If { condition, consequence, alternative } => {
            lemma_expr_pieces_ok(*condition, 0);
            lemma_expr_pieces_ok(*consequence, 0);
            lemma_expr_pieces_ok(*alternative, 0);
            let a = seq![Piece::Lex(TokKindV::Ident, "if"@), space()];
            let e1 = expr_pieces(*condition, 0);
            let b = seq![space(), punct(Punct::LBrace, "{"@), space()];
            let e2 = expr_pieces(*consequence, 0);
            let c = seq![
                space(),
                punct(Punct::RBrace, "}"@),
                space(),
                Piece::Lex(TokKindV::Ident, "else"@),
                space(),
                punct(Punct::LBrace, "{"@),
                space(),
            ];
            let e3 = expr_pieces(*alternative, 0);
            let d = seq![space(), punct(Punct::RBrace, "}"@)];
            reveal_strlit("}");
            lemma_ok_lit(a);
            lemma_ok_lit(b);
            lemma_ok_lit(c);
            lemma_ok_lit(d);
            lemma_pieces_ok_add(a, e1);
            lemma_closing_clean(e1.last(), ' ');
            assert((a + e1).last() == e1.last());
            lemma_pieces_ok_add(a + e1, b);
            lemma_pieces_ok_add(a + e1 + b, e2);
            lemma_closing_clean(e2.last(), ' ');
            assert((a + e1 + b + e2).last() == e2.last());
            lemma_pieces_ok_add(a + e1 + b + e2, c);
            lemma_pieces_ok_add(a + e1 + b + e2 + c, e3);
            lemma_closing_clean(e3.last(), ' ');
            assert((a + e1 + b + e2 + c + e3).last() == e3.last());
            lemma_pieces_ok_add(a + e1 + b + e2 + c + e3, d);
        },
        ExprKindV::Binary { operator, left, right } => {
            lemma_expr_pieces_ok(*left, p);
            lemma_expr_pieces_ok(*right, p + 1);
            lemma_op_ok(operator);
            let l = expr_pieces(*left, p);
            let mid = seq![space(), punct(op_punct(operator), op_symbol(operator)), space()];
            let r = expr_pieces(*right, p + 1);
            lemma_ok_lit(mid);
            lemma_closing_clean(l.last(), ' ');
            lemma_pieces_ok_add(l, mid);
            lemma_pieces_ok_add(l + mid, r);
        },
        ExprKindV::Call { path, args } => {
            lemma_path_pieces_ok(path);
            lemma_args_pieces_ok(args, 0);
            let pp = path_pieces(path);
            let lp = seq![punct(Punct::LParen, "("@)];
            let ap = args_pieces(args, 0);
            let rp = seq![punct(Punct::RParen, ")"@)];
            reveal_strlit("(");
            reveal_strlit(")");
            lemma_ok_lit(lp);
            lemma_ok_lit(rp);
            lemma_pieces_ok_add(pp, lp);
            lemma_pieces_ok_add(pp + lp, ap);
            if ap.len() > 0 {
                lemma_closing_clean(ap.last(), ')');
                assert((pp + lp + ap).last() == ap.last());
            } else {
                assert(pp + lp + ap =~= pp + lp);
            }
            lemma_pieces_ok_add(pp + lp + ap, rp);
        },
        _ => {},
    }
}

proof fn lemma_args_pieces_ok(args: Seq<ExprV>, k: int)
    requires
        wf_args(args, k),
    ensures
        pieces_ok(args_pieces(args, k)),
        args_pieces(args, k).len() > 0 ==> closing(args_pieces(args, k).last()),
        0 < k < args.len() ==> args_pieces(args, k)[0] == punct(Punct::Comma, ","@),
        0 <= k < args.len() ==> args_pieces(args, k).len() > 0,
    decreases args, args.len() - k,
{
    lemma_punct_ok();
    if 0 <= k < args.len() {
        lemma_expr_pieces_ok(args[k], 0);
        lemma_args_pieces_ok(args, k + 1);
        let sep = if k == 0 {
            Seq::<Piece>::empty()
        } else {
            seq![punct(Punct::Comma, ","@), space()]
        };
        let ep = expr_pieces(args[k], 0);
        let rest = args_pieces(args, k + 1);
        reveal_strlit(",");
        lemma_ok_lit(sep);
        lemma_pieces_ok_add(sep, ep);
        assert((sep + ep).last() == ep.last());
        if rest.len() > 0 {
            assert(rest[0] == punct(Punct::Comma, ","@));
            lemma_closing_clean(ep.last(), ',');
            assert((sep + ep + rest).last() == rest.last());
        } else {
            assert(sep + ep + rest =~= sep + ep);
        }
        lemma_pieces_ok_add(sep + ep, rest);
        if k > 0 {
            assert((sep + ep + rest)[0] == sep[0]);
        }
    }
}

/// The empty byte range, which erased expressions carry.
pub open spec fn zero_span() -> Span {
    Span { start: 0, end: 0 }
}

/// An expression with every byte range erased.
pub open spec fn erase(e: ExprV) -> ExprV
    decreases e, 1nat,
{
    ExprV {
        kind: match e.kind {
            ExprKindV::If { condition, consequence, alternative } => ExprKindV::If {
                condition: Box::new(erase(*condition)),
                consequence: Box::new(erase(*consequence)),
                alternative: Box::new(erase(*alternative)),
            },
            ExprKindV::Binary { operator, left, right } => ExprKindV::Binary {
                operator,
                left: Box::new(erase(*left)),
                right: Box::new(erase(*right)),
            },
            ExprKindV::Call { path, args } => {
                proof {
                    assert(decreases_to!(e => e.kind));
                }
                ExprKindV::Call { path: erase_path(path), args: erase_args(args) }
            },
            ExprKindV::Text(v) => ExprKindV::Text(v),
            ExprKindV::Int(v) => ExprKindV::Int(v),
            ExprKindV::Bool(b) => ExprKindV::Bool(b),
            ExprKindV::Var(n) => ExprKindV::Var(n),
        },
        span: zero_span(),
    }
}

/// Expressions with their byte ranges erased.
pub open spec fn erase_args(args: Seq<ExprV>) -> Seq<ExprV>
    decreases args, 0nat,
{
    Seq::new(args.len(), |i: int| if 0 <= i < args.len() { erase(args[i]) } else { zero_expr() })
}

/// A placeholder expression.
pub open spec fn zero_expr() -> ExprV {
    ExprV { kind: ExprKindV::Bool(false), span: zero_span() }
}

/// A dotted name with its byte ranges erased.
pub open spec fn erase_path(parts: Seq<(Seq<char>, Span)>) -> Seq<(Seq<char>, Span)> {
    Seq::new(parts.len(), |i: int| (parts[i].0, zero_span()))
}

/// `t` holds tokens with the kinds and texts `ls` from index `k` on.
pub open spec fn lexemes_at(t: Seq<TokV>, k: int, ls: Seq<(TokKindV, Seq<char>)>) -> bool {
    &&& 0 <= k
    &&& k + ls.len() <= t.len()
    &&& forall|j: int| 0 <= j < ls.len() ==> (t[k + j].kind, t[k + j].text) == #[trigger] ls[j]
}

proof fn lemma_lexemes_at_split(t: Seq<TokV>, k: int, a: Seq<(TokKindV, Seq<char>)>, b: Seq<(TokKindV, Seq<char>)>)
    requires
        lexemes_at(t, k, a + b),
    ensures
        lexemes_at(t, k, a),
        lexemes_at(t, k + a.len(), b),
{
    assert forall|j: int| 0 <= j < a.len() implies (t[k + j].kind, t[k + j].text) == #[trigger] a[j] by {
        assert((a + b)[j] == a[j]);
    }
    assert forall|j: int| 0 <= j < b.len() implies (t[k + a.len() + j].kind, t[k + a.len() + j].text)
        == #[trigger] b[j] by {
        assert((a + b)[a.len() + j] == b[j]);
    }
}

/// The token at `j` ends an expression parsed at binding level `level`: it
/// is no operator of that level or a tighter one, no `.` and no `(`.
pub open spec fn follow_ok(t: Seq<TokV>, j: int, level: nat) -> bool {
    &&& forall|lev: nat| level <= lev <= 3 ==> #[trigger] op_at(t, j, lev) is None
    &&& !is_punct(t, j, Punct::Dot)
    &&& !is_punct(t, j, Punct::LParen)
}

/// A primary expression, parsed at any binding level, stands alone when
/// the next token ends it.
proof fn lemma_primary_lifts(t: Seq<TokV>, k: int, level: nat, x: ExprV, k2: int)
    requires
        p_primary(t, k) == Ok::<(ExprV, int), crate::diagnostic::DiagnosticV>((x, k2)),
        k < k2 <= t.len(),
        level <= 4,
        follow_ok(t, k2, level),
    ensures
        p_bin(t, k, level) == Ok::<(ExprV, int), crate::diagnostic::DiagnosticV>((x, k2)),
    decreases 4 - level,
{
    if level < 4 {
        lemma_primary_lifts(t, k, level + 1, x, k2);
        assert(op_at(t, k2, level) is None);
        assert(p_bin_rest(t, k2, level, x) == Ok::<(ExprV, int), crate::diagnostic::DiagnosticV>((x, k2)));
        assert(p_bin(t, k, level) == p_bin_rest(t, k2, level, x));
    }
}

proof fn lemma_path_lexemes(parts: Seq<(Seq<char>, Span)>)
    requires
        parts.len() >= 1,
    ensures
        lexemes(path_pieces(parts)).len() == 2 * parts.len() - 1,
        forall|j: int| 0 <= j < parts.len() ==> #[trigger] lexemes(path_pieces(parts))[2 * j] == (TokKindV::Ident, parts[j].0),
        forall|j: int|
            0 <= j < parts.len() - 1 ==> #[trigger] lexemes(path_pieces(parts))[2 * j + 1] == (TokKindV::Punct(Punct::Dot), "."@),
    decreases parts.len(),
{
    if parts.len() == 1 {
        lemma_flatten_one(Piece::Lex(TokKindV::Ident, parts[0].0));
    } else {
        let init = parts.drop_last();
        lemma_path_lexemes(init);
        let tail = seq![punct(Punct::Dot, "."@), Piece::Lex(TokKindV::Ident, parts.last().0)];
        lemma_flatten_add(path_pieces(init), tail);
        lemma_flat2(punct(Punct::Dot, "."@), Piece::Lex(TokKindV::Ident, parts.last().0));
        lemma_flatten_one(punct(Punct::Dot, "."@));
        lemma_flatten_one(Piece::Lex(TokKindV::Ident, parts.last().0));
        let li = lexemes(path_pieces(init));
        let l = lexemes(path_pieces(parts));
        assert(l == li + seq![(TokKindV::Punct(Punct::Dot), "."@)] + seq![(TokKindV::Ident, parts.last().0)]);
        assert forall|j: int| 0 <= j < parts.len() implies #[trigger] l[2 * j] == (TokKindV::Ident, parts[j].0) by {
            if j < parts.len() - 1 {
                assert(l[2 * j] == li[2 * j]);
                assert(init[j] == parts[j]);
            }
        }
        assert forall|j: int| 0 <= j < parts.len() - 1 implies #[trigger] l[2 * j + 1] == (
            TokKindV::Punct(Punct::Dot),
            "."@,
        ) by {
            if j < parts.len() - 2 {
                assert(l[2 * j + 1] == li[2 * j + 1]);
            }
        }
    }
}

/// The tokens of a dotted name parse into its parts.
proof fn lemma_parse_qname(t: Seq<TokV>, k0: int, parts: Seq<(Seq<char>, Span)>, i: int, acc: Seq<(Seq<char>, Span)>)
    requires
        path_names(parts),
        0 <= i < parts.len(),
        acc.len() == i,
        forall|x: int| 0 <= x < i ==> #[trigger] acc[x].0 == parts[x].0,
        lexemes_at(t, k0, lexemes(path_pieces(parts))),
        !is_punct(t, k0 + 2 * parts.len() - 1, Punct::Dot),
    ensures
        p_qname(t, k0 + 2 * i, acc) is Ok,
        p_qname(t, k0 + 2 * i, acc)->Ok_0.1 == k0 + 2 * parts.len() - 1,
        erase_path(p_qname(t, k0 + 2 * i, acc)->Ok_0.0) == erase_path(parts),
    decreases parts.len() - i,
{
    lemma_path_lexemes(parts);
    let ls = lexemes(path_pieces(parts));
    let k = k0 + 2 * i;
    assert(ls[2 * i] == (TokKindV::Ident, parts[i].0));
    assert((t[k0 + 2 * i].kind, t[k0 + 2 * i].text) == ls[2 * i]);
    assert(name_text(parts[i].0));
    let acc2 = acc.push((t[k].text, t[k].span));
    if i + 1 < parts.len() {
        assert(ls[2 * i + 1] == (TokKindV::Punct(Punct::Dot), "."@));
        assert((t[k0 + 2 * i + 1].kind, t[k0 + 2 * i + 1].text) == ls[2 * i + 1]);
        lemma_parse_qname(t, k0, parts, i + 1, acc2);
        assert(k0 + 2 * (i + 1) == k + 2);
    } else {
        assert(erase_path(acc2) =~= erase_path(parts));
    }
}

/// The binding level of an operator in the parser.
pub open spec fn op_level(op: BinaryOp) -> nat {
    match op {
        BinaryOp::Equal => 0,
        BinaryOp::LessThan => 1,
        BinaryOp::LessThanOrEqual => 1,
        BinaryOp::Add => 2,
        BinaryOp::Subtract => 2,
        BinaryOp::Multiply => 3,
    }
}

proof fn lemma_op_level(op: BinaryOp, lev: nat)
    ensures
        level_op(op_punct(op), lev) == (if lev == op_level(op) { Some(op) } else { None::<BinaryOp> }),
{
}

/// The termination rank of an expression parsed at `level` where the
/// context binds with strength `parent`.
pub open spec fn rank_px(e: ExprV, parent: nat, level: nat) -> nat {
    if precedence(e) < parent {
        30
    } else {
        (10 - 2 * level) as nat
    }
}

/// The termination rank of an operand chain of level `m`.
pub open spec fn rank_sp(e: ExprV, m: nat) -> nat {
    if precedence(e) < m + 1 {
        31
    } else {
        (9 - 2 * m) as nat
    }
}

proof fn lemma_first_lexeme(e: ExprV, parent: nat)
    requires
        wf_expr(e),
    ensures
        lexemes(expr_pieces(e, parent)).len() >= 1,
        lexemes(expr_pieces(e, parent))[0].0 is Ident || lexemes(expr_pieces(e, parent))[0].0 is Int
            || lexemes(expr_pieces(e, parent))[0].0 is Str || lexemes(expr_pieces(e, parent))[0].0 == TokKindV::Punct(
            Punct::LParen,
        ),
        lexemes(expr_pieces(e, parent))[0] != (TokKindV::Ident, "let"@),
    decreases e,
{
    reveal_strlit("let");
    reveal_strlit("if");
    reveal_strlit("true");
    reveal_strlit("false");
    let bp = body_pieces(e);
    if precedence(e) < parent {
        let lp = seq![punct(Punct::LParen, "("@)];
        lemma_flatten_add(lp + bp, seq![punct(Punct::RParen, ")"@)]);
        lemma_flatten_add(lp, bp);
        lemma_flatten_one(punct(Punct::LParen, "("@));
        assert(lexemes(expr_pieces(e, parent))[0] == lexemes(lp)[0]);
    } else {
        match e.kind {
            ExprKindV::If { condition, consequence, alternative } => {
                let a = seq![Piece::Lex(TokKindV::Ident, "if"@), space()];
                lemma_flatten_add(a, bp.skip(2));
                assert(bp =~= a + bp.skip(2));
                lemma_flat2(Piece::Lex(TokKindV::Ident, "if"@), space());
                lemma_flatten_one(Piece::Lex(TokKindV::Ident, "if"@));
                lemma_flatten_one(space());
                assert(lexemes(bp)[0] == lexemes(a)[0]);
            },
            ExprKindV::Binary { operator, left, right } => {
                lemma_first_lexeme(*left, precedence(e));
                let rest = seq![space(), punct(op_punct(operator), op_symbol(operator)), space()] + expr_pieces(
                    *right,
                    precedence(e) + 1,
                );
                assert(bp =~= expr_pieces(*left, precedence(e)) + rest);
                lemma_flatten_add(expr_pieces(*left, precedence(e)), rest);
                assert(lexemes(bp)[0] == lexemes(expr_pieces(*left, precedence(e)))[0]);
            },
            ExprKindV::Call { path, args } => {
                lemma_path_lexemes(path);
                let rest = seq![punct(Punct::LParen, "("@)] + args_pieces(args, 0) + seq![punct(Punct::RParen, ")"@)];
                assert(bp =~= path_pieces(path) + rest);
                lemma_flatten_add(path_pieces(path), rest);
                assert(lexemes(bp)[0] == lexemes(path_pieces(path))[0]);
                assert(lexemes(path_pieces(path))[2 * 0int] == (TokKindV::Ident, path[0].0));
            },
            _ => {
                assert(bp =~= seq![bp[0]]);
                lemma_flatten_one(bp[0]);
            },
        }
    }
}

/// A lexeme value.
pub open spec fn lex_of(p: Piece) -> (TokKindV, Seq<char>) {
    match p {
        Piece::Lex(k, t) => (k, t),
        Piece::Gap(t) => (TokKindV::Eof, t),
    }
}

proof fn lemma_paren_lexemes(e: ExprV, parent: nat)
    requires
        precedence(e) < parent,
    ensures
        lexemes(expr_pieces(e, parent)) == seq![(TokKindV::Punct(Punct::LParen), "("@)] + lexemes(body_pieces(e))
            + seq![(TokKindV::Punct(Punct::RParen), ")"@)],
{
    let lp = seq![punct(Punct::LParen, "("@)];
    let rp = seq![punct(Punct::RParen, ")"@)];
    lemma_flatten_add(lp + body_pieces(e), rp);
    lemma_flatten_add(lp, body_pieces(e));
    lemma_flatten_one(punct(Punct::LParen, "("@));
    lemma_flatten_one(punct(Punct::RParen, ")"@));
}

proof fn lemma_binary_lexemes(e: ExprV)
    requires
        e.kind is Binary,
    ensures
        ({
            let op = e.kind->operator;
            let p = precedence(e);
            lexemes(body_pieces(e)) == lexemes(expr_pieces(*e.kind->left, p)) + seq![
                (TokKindV::Punct(op_punct(op)), op_symbol(op)),
            ] + lexemes(expr_pieces(*e.kind->right, p + 1))
        }),
{
    let op = e.kind->operator;
    let p = precedence(e);
    let mid = seq![space(), punct(op_punct(op), op_symbol(op)), space()];
    lemma_flatten_add(expr_pieces(*e.kind->left, p) + mid, expr_pieces(*e.kind->right, p + 1));
    lemma_flatten_add(expr_pieces(*e.kind->left, p), mid);
    lemma_flat3(space(), punct(op_punct(op), op_symbol(op)), space());
    lemma_flatten_one(space());
    lemma_flatten_one(punct(op_punct(op), op_symbol(op)));
    assert(lexemes(mid) =~= seq![(TokKindV::Punct(op_punct(op)), op_symbol(op))]);
}

proof fn lemma_if_lexemes(e: ExprV)
    requires
        e.kind is If,
    ensures
        lexemes(body_pieces(e)) == seq![(TokKindV::Ident, "if"@)] + lexemes(expr_pieces(*e.kind->condition, 0))
            + seq![(TokKindV::Punct(Punct::LBrace), "{"@)] + lexemes(expr_pieces(*e.kind->consequence, 0)) + seq![
            (TokKindV::Punct(Punct::RBrace), "}"@),
            (TokKindV::Ident, "else"@),
            (TokKindV::Punct(Punct::LBrace), "{"@),
        ] + lexemes(expr_pieces(*e.kind->alternative, 0)) + seq![(TokKindV::Punct(Punct::RBrace), "}"@)],
{
    let a = seq![Piece::Lex(TokKindV::Ident, "if"@), space()];
    let e1 = expr_pieces(*e.kind->condition, 0);
    let b = seq![space(), punct(Punct::LBrace, "{"@), space()];
    let e2 = expr_pieces(*e.kind->consequence, 0);
    let c = seq![
        space(),
        punct(Punct::RBrace, "}"@),
        space(),
        Piece::Lex(TokKindV::Ident, "else"@),
        space(),
        punct(Punct::LBrace, "{"@),
        space(),
    ];
    let e3 = expr_pieces(*e.kind->alternative, 0);
    let d = seq![space(), punct(Punct::RBrace, "}"@)];
    lemma_flatten_add(a + e1 + b + e2 + c + e3, d);
    lemma_flatten_add(a + e1 + b + e2 + c, e3);
    lemma_flatten_add(a + e1 + b + e2, c);
    lemma_flatten_add(a + e1 + b, e2);
    lemma_flatten_add(a + e1, b);
    lemma_flatten_add(a, e1);
    lemma_flat2(Piece::Lex(TokKindV::Ident, "if"@), space());
    lemma_flat3(space(), punct(Punct::LBrace, "{"@), space());
    lemma_flat7(
        space(),
        punct(Punct::RBrace, "}"@),
        space(),
        Piece::Lex(TokKindV::Ident, "else"@),
        space(),
        punct(Punct::LBrace, "{"@),
        space(),
    );
    lemma_flat3(space(), punct(Punct::RBrace, "}"@), space());
    lemma_flat3(Piece::Lex(TokKindV::Ident, "else"@), space(), punct(Punct::LBrace, "{"@));
    lemma_flat2(space(), punct(Punct::RBrace, "}"@));
    lemma_flatten_one(space());
    lemma_flatten_one(punct(Punct::RBrace, "}"@));
    lemma_flatten_one(punct(Punct::LBrace, "{"@));
    lemma_flatten_one(Piece::Lex(TokKindV::Ident, "else"@));
    lemma_flatten_one(Piece::Lex(TokKindV::Ident, "if"@));
    assert(lexemes(a) =~= seq![(TokKindV::Ident, "if"@)]);
    assert(lexemes(b) =~= seq![(TokKindV::Punct(Punct::LBrace), "{"@)]);
    assert(lexemes(c) =~= seq![
        (TokKindV::Punct(Punct::RBrace), "}"@),
        (TokKindV::Ident, "else"@),
        (TokKindV::Punct(Punct::LBrace), "{"@),
    ]);
    assert(lexemes(d) =~= seq![(TokKindV::Punct(Punct::RBrace), "}"@)]);
}

proof fn lemma_call_lexemes(e: ExprV)
    requires
        e.kind is Call,
    ensures
        lexemes(body_pieces(e)) == lexemes(path_pieces(e.kind->path)) + seq![(TokKindV::Punct(Punct::LParen), "("@)]
            + lexemes(args_pieces(e.kind->args, 0)) + seq![(TokKindV::Punct(Punct::RParen), ")"@)],
{
    let pp = path_pieces(e.kind->path);
    let lp = seq![punct(Punct::LParen, "("@)];
    let ap = args_pieces(e.kind->args, 0);
    let rp = seq![punct(Punct::RParen, ")"@)];
    lemma_flatten_add(pp + lp + ap, rp);
    lemma_flatten_add(pp + lp, ap);
    lemma_flatten_add(pp, lp);
    lemma_flatten_one(punct(Punct::LParen, "("@));
    lemma_flatten_one(punct(Punct::RParen, ")"@));
}

proof fn lemma_args_lexemes(args: Seq<ExprV>, i: int)
    requires
        0 <= i,
    ensures
        i >= args.len() ==> lexemes(args_pieces(args, i)) == Seq::<(TokKindV, Seq<char>)>::empty(),
        i < args.len() ==> lexemes(args_pieces(args, i)) == (if i == 0 {
            Seq::<(TokKindV, Seq<char>)>::empty()
        } else {
            seq![(TokKindV::Punct(Punct::Comma), ","@)]
        }) + lexemes(expr_pieces(args[i], 0)) + lexemes(args_pieces(args, i + 1)),
{
    if i < args.len() {
        let sep = if i == 0 {
            Seq::<Piece>::empty()
        } else {
            seq![punct(Punct::Comma, ","@), space()]
        };
        lemma_flatten_add(sep + expr_pieces(args[i], 0), args_pieces(args, i + 1));
        lemma_flatten_add(sep, expr_pieces(args[i], 0));
        lemma_flat2(punct(Punct::Comma, ","@), space());
        lemma_flatten_one(punct(Punct::Comma, ","@));
        lemma_flatten_one(space());
        if i == 0 {
            assert(lexemes(sep) =~= Seq::<(TokKindV, Seq<char>)>::empty());
        } else {
            assert(lexemes(sep) =~= seq![(TokKindV::Punct(Punct::Comma), ","@)]);
        }
    } else {
        assert(lexemes(Seq::<Piece>::empty()) =~= Seq::<(TokKindV, Seq<char>)>::empty());
    }
}

proof fn lemma_follow_close(t: Seq<TokV>, j: int, p: Punct, level: nat)
    requires
        0 <= j < t.len(),
        t[j].kind == TokKindV::Punct(p),
        p == Punct::RParen || p == Punct::RBrace || p == Punct::LBrace || p == Punct::Comma || p == Punct::Semi,
    ensures
        follow_ok(t, j, level),
{
    assert forall|lev: nat| level <= lev <= 3 implies #[trigger] op_at(t, j, lev) is None by {}
}

/// The tokens of the remaining arguments of a call: the `i`-th argument,
/// then the others, each after a comma.
pub open spec fn args_tail(args: Seq<ExprV>, i: int) -> Seq<(TokKindV, Seq<char>)> {
    if 0 <= i < args.len() {
        lexemes(expr_pieces(args[i], 0)) + lexemes(args_pieces(args, i + 1))
    } else {
        Seq::empty()
    }
}

/// The tokens of a canonical expression parse back into it, up to byte
/// ranges, at any binding level its written form allows.
proof fn lemma_parse_expr(t: Seq<TokV>, k: int, e: ExprV, parent: nat, level: nat) -> (e2: ExprV)
    requires
        wf_expr(e),
        level <= 4,
        precedence(e) >= parent && e.kind is Binary ==> precedence(e) >= level + 1,
        lexemes_at(t, k, lexemes(expr_pieces(e, parent))),
        follow_ok(t, k + lexemes(expr_pieces(e, parent)).len(), level),
    ensures
        erase(e2) == erase(e),
        p_bin(t, k, level) == Ok::<(ExprV, int), DiagnosticV>((e2, k + lexemes(expr_pieces(e, parent)).len())),
    decreases e, rank_px(e, parent, level),
{
    let ls = lexemes(expr_pieces(e, parent));
    let n = ls.len() as int;
    lemma_first_lexeme(e, parent);
    if precedence(e) < parent {
        lemma_paren_lexemes(e, parent);
        let lb = lexemes(body_pieces(e));
        let lp = seq![(TokKindV::Punct(Punct::LParen), "("@)];
        let rp = seq![(TokKindV::Punct(Punct::RParen), ")"@)];
        assert(expr_pieces(e, 0) == body_pieces(e));
        lemma_lexemes_at_split(t, k, lp + lb, rp);
        lemma_lexemes_at_split(t, k, lp, lb);
        assert((t[k + 0].kind, t[k + 0].text) == lp[0]);
        let j = k + 1 + lb.len();
        assert((t[j + 0].kind, t[j + 0].text) == rp[0]);
        lemma_follow_close(t, j, Punct::RParen, 0);
        let x = lemma_parse_expr(t, k + 1, e, 0, 0);
        assert(p_expr(t, k + 1) == p_bin(t, k + 1, 0));
        assert(p_primary(t, k) == Ok::<(ExprV, int), DiagnosticV>((x, j + 1)));
        lemma_primary_lifts(t, k, level, x, j + 1);
        x
    } else if e.kind is Binary {
        let m = op_level(e.kind->operator);
        if level < m {
            let x = lemma_parse_expr(t, k, e, parent, level + 1);
            assert(op_at(t, k + n, level) is None);
            assert(p_bin_rest(t, k + n, level, x) == Ok::<(ExprV, int), DiagnosticV>((x, k + n)));
            x
        } else {
            assert(expr_pieces(e, m + 1) == expr_pieces(e, parent));
            let x = lemma_parse_chain(t, k, e, m);
            assert(op_at(t, k + n, m) is None);
            assert(p_bin_rest(t, k + n, m, x) == Ok::<(ExprV, int), DiagnosticV>((x, k + n)));
            x
        }
    } else {
        let x = lemma_parse_primary(t, k, e);
        lemma_primary_lifts(t, k, level, x, k + n);
        x
    }
}

/// A chain of operands joined by operators of level `m` parses, from the
/// start of the chain, into the same tree, left to right.
proof fn lemma_parse_chain(t: Seq<TokV>, k: int, e: ExprV, m: nat) -> (e2: ExprV)
    requires
        wf_expr(e),
        m <= 3,
        lexemes_at(t, k, lexemes(expr_pieces(e, m + 1))),
        follow_ok(t, k + lexemes(expr_pieces(e, m + 1)).len(), m + 1),
    ensures
        erase(e2) == erase(e),
        p_bin(t, k, m) == p_bin_rest(t, k + lexemes(expr_pieces(e, m + 1)).len(), m, e2),
    decreases e, rank_sp(e, m),
{
    let n = lexemes(expr_pieces(e, m + 1)).len() as int;
    lemma_first_lexeme(e, m + 1);
    if e.kind is Binary && op_level(e.kind->operator) == m {
        let op = e.kind->operator;
        let l = *e.kind->left;
        let r = *e.kind->right;
        lemma_binary_lexemes(e);
        let ll = lexemes(expr_pieces(l, m + 1));
        let lo = seq![(TokKindV::Punct(op_punct(op)), op_symbol(op))];
        let lr = lexemes(expr_pieces(r, m + 2));
        assert(expr_pieces(e, m + 1) == body_pieces(e));
        lemma_lexemes_at_split(t, k, ll + lo, lr);
        lemma_lexemes_at_split(t, k, ll, lo);
        let jop = k + ll.len();
        assert((t[jop + 0].kind, t[jop + 0].text) == lo[0]);
        assert forall|lev: nat| m + 1 <= lev <= 3 implies #[trigger] op_at(t, jop, lev) is None by {
            lemma_op_level(op, lev);
        }
        lemma_op_level(op, m);
        let l2 = lemma_parse_chain(t, k, l, m);
        lemma_first_lexeme(r, m + 2);
        let r2 = lemma_parse_expr(t, jop + 1, r, m + 2, m + 1);
        let e2 = binary_v(op, l2, r2);
        assert(op_at(t, jop, m) == Some(op));
        assert(p_bin_rest(t, jop, m, l2) == p_bin_rest(t, k + n, m, e2));
        e2
    } else {
        let x = lemma_parse_expr(t, k, e, m + 1, m + 1);
        assert(p_bin(t, k, m) == p_bin_rest(t, k + n, m, x));
        x
    }
}

/// The tokens of an expression that is no binary operation parse back
/// into it as a primary expression.
#[verifier::rlimit(80)]
proof fn lemma_parse_primary(t: Seq<TokV>, k: int, e: ExprV) -> (e2: ExprV)
    requires
        wf_expr(e),
        !(e.kind is Binary),
        lexemes_at(t, k, lexemes(body_pieces(e))),
        follow_ok(t, k + lexemes(body_pieces(e)).len(), 4),
    ensures
        erase(e2) == erase(e),
        p_primary(t, k) == Ok::<(ExprV, int), DiagnosticV>((e2, k + lexemes(body_pieces(e)).len())),
    decreases e, 1nat,
{
    let ls = lexemes(body_pieces(e));
    let n = ls.len() as int;
    match e.kind {
        ExprKindV::If { condition, consequence, alternative } => {
            lemma_if_lexemes(e);
            let c = *condition;
            let a = *consequence;
            let b = *alternative;
            let l0 = seq![(TokKindV::Ident, "if"@)];
            let lc = lexemes(expr_pieces(c, 0));
            let l1 = seq![(TokKindV::Punct(Punct::LBrace), "{"@)];
            let la = lexemes(expr_pieces(a, 0));
            let l2 = seq![
                (TokKindV::Punct(Punct::RBrace), "}"@),
                (TokKindV::Ident, "else"@),
                (TokKindV::Punct(Punct::LBrace), "{"@),
            ];
            let lb = lexemes(expr_pieces(b, 0));
            let l3 = seq![(TokKindV::Punct(Punct::RBrace), "}"@)];
            lemma_lexemes_at_split(t, k, l0 + lc + l1 + la + l2 + lb, l3);
            lemma_lexemes_at_split(t, k, l0 + lc + l1 + la + l2, lb);
            lemma_lexemes_at_split(t, k, l0 + lc + l1 + la, l2);
            lemma_lexemes_at_split(t, k, l0 + lc + l1, la);
            lemma_lexemes_at_split(t, k, l0 + lc, l1);
            lemma_lexemes_at_split(t, k, l0, lc);
            let k1 = k + 1 + lc.len();
            let k2 = k1 + 1 + la.len();
            let k3 = k2 + 3 + lb.len();
            assert((t[k + 0].kind, t[k + 0].text) == l0[0]);
            assert((t[k1 + 0].kind, t[k1 + 0].text) == l1[0]);
            assert((t[k2 + 0].kind, t[k2 + 0].text) == l2[0]);
            assert((t[k2 + 1].kind, t[k2 + 1].text) == l2[1]);
            assert((t[k2 + 2].kind, t[k2 + 2].text) == l2[2]);
            assert((t[k3 + 0].kind, t[k3 + 0].text) == l3[0]);
            lemma_follow_close(t, k1, Punct::LBrace, 0);
            lemma_follow_close(t, k2, Punct::RBrace, 0);
            lemma_follow_close(t, k3, Punct::RBrace, 0);
            lemma_first_lexeme(c, 0);
            lemma_first_lexeme(a, 0);
            lemma_first_lexeme(b, 0);
            let c2 = lemma_parse_expr(t, k + 1, c, 0, 0);
            let a2 = lemma_parse_expr(t, k1 + 1, a, 0, 0);
            let b2 = lemma_parse_expr(t, k2 + 3, b, 0, 0);
            reveal_strlit("if");
            reveal_strlit("true");
            reveal_strlit("false");
            assert(t[k].text == "if"@);
            let e2 = ExprV {
                kind: ExprKindV::If { condition: Box::new(c2), consequence: Box::new(a2), alternative: Box::new(b2) },
                span: Span { start: t[k].span.start, end: t[k3].span.end },
            };
            assert(p_if(t, k) == Ok::<(ExprV, int), DiagnosticV>((e2, k3 + 1)));
            e2
        },
        ExprKindV::Call { path, args } => {
            lemma_call_lexemes(e);
            let lpath = lexemes(path_pieces(path));
            let lp = seq![(TokKindV::Punct(Punct::LParen), "("@)];
            let la = lexemes(args_pieces(args, 0));
            let rp = seq![(TokKindV::Punct(Punct::RParen), ")"@)];
            lemma_lexemes_at_split(t, k, lpath + lp + la, rp);
            lemma_lexemes_at_split(t, k, lpath + lp, la);
            lemma_lexemes_at_split(t, k, lpath, lp);
            lemma_path_lexemes(path);
            let k2 = k + lpath.len();
            assert((t[k2 + 0].kind, t[k2 + 0].text) == lp[0]);
            lemma_parse_qname(t, k, path, 0, Seq::empty());
            assert(k + 2 * 0 == k);
            let parts2 = p_qname(t, k, Seq::empty())->Ok_0.0;
            assert(lexemes_at(t, k2 + 1, args_tail(args, 0) + rp)) by {
                lemma_args_lexemes(args, 0);
                if args.len() == 0 {
                    assert(args_tail(args, 0) =~= Seq::<(TokKindV, Seq<char>)>::empty());
                } else {
                    assert(la =~= args_tail(args, 0));
                }
            }
            assert(erase_args(Seq::<ExprV>::empty()) =~= erase_args(args.take(0)));
            assert(decreases_to!(e => e.kind));
            let a2 = lemma_parse_args(t, k2 + 1, args, 0, Seq::empty());
            let k3 = k2 + 1 + args_tail(args, 0).len() + 1;
            assert(lpath[2 * 0int] == (TokKindV::Ident, path[0].0));
            assert((t[k + 0].kind, t[k + 0].text) == lpath[0]);
            assert(name_text(path[0].0));
            let e2 = ExprV {
                kind: ExprKindV::Call { path: parts2, args: a2 },
                span: Span { start: t[k].span.start, end: t[k3 - 1].span.end },
            };
            assert(args_tail(args, 0) == la) by {
                lemma_args_lexemes(args, 0);
                if args.len() == 0 {
                    assert(args_tail(args, 0) =~= Seq::<(TokKindV, Seq<char>)>::empty());
                }
            }
            assert(p_primary(t, k) == Ok::<(ExprV, int), DiagnosticV>((e2, k3)));
            e2
        },
        ExprKindV::Var(name) => {
            lemma_flatten_one(Piece::Lex(TokKindV::Ident, name));
            assert((t[k + 0].kind, t[k + 0].text) == ls[0]);
            let e2 = ExprV { kind: ExprKindV::Var(t[k].text), span: t[k].span };
            assert(p_qname(t, k, Seq::empty()) == Ok::<(Seq<(Seq<char>, Span)>, int), DiagnosticV>(
                (seq![(t[k].text, t[k].span)], k + 1),
            ));
            assert(p_primary(t, k) == Ok::<(ExprV, int), DiagnosticV>((e2, k + 1)));
            e2
        },
        ExprKindV::Int(v) => {
            lemma_flatten_one(Piece::Lex(TokKindV::Int, spec_signed_decimal(v as int)));
            assert((t[k + 0].kind, t[k + 0].text) == ls[0]);
            lemma_decimal_digits(v as nat);
            let e2 = ExprV { kind: ExprKindV::Int(int_value(t[k].text)), span: t[k].span };
            assert(int_value(t[k].text) == v);
            e2
        },
        ExprKindV::Bool(b) => {
            lemma_flatten_one(Piece::Lex(TokKindV::Ident, if b { "true"@ } else { "false"@ }));
            assert((t[k + 0].kind, t[k + 0].text) == ls[0]);
            reveal_strlit("true");
            reveal_strlit("false");
            ExprV { kind: ExprKindV::Bool(b), span: t[k].span }
        },
        ExprKindV::Text(v) => {
            lemma_flatten_one(Piece::Lex(TokKindV::Str(v), seq!['"'] + literal_text(v) + seq!['"']));
            assert((t[k + 0].kind, t[k + 0].text) == ls[0]);
            ExprV { kind: ExprKindV::Text(v), span: t[k].span }
        },
        ExprKindV::Binary { .. } => {
            e
        },
    }
}

/// The tokens of the remaining arguments of a call and its closing
/// parenthesis parse back into them.
proof fn lemma_parse_args(t: Seq<TokV>, k: int, args: Seq<ExprV>, i: int, acc: Seq<ExprV>) -> (a2: Seq<ExprV>)
    requires
        0 <= i <= args.len(),
        wf_args(args, i),
        erase_args(acc) == erase_args(args.take(i)),
        i == args.len() ==> i == 0,
        lexemes_at(t, k, args_tail(args, i) + seq![(TokKindV::Punct(Punct::RParen), ")"@)]),
    ensures
        erase_args(a2) == erase_args(args),
        p_args(t, k, acc) == Ok::<(Seq<ExprV>, int), DiagnosticV>((a2, k + args_tail(args, i).len() + 1)),
    decreases args, args.len() - i,
{
    let rp = seq![(TokKindV::Punct(Punct::RParen), ")"@)];
    if i == args.len() {
        assert(args_tail(args, i) =~= Seq::<(TokKindV, Seq<char>)>::empty());
        assert((t[k + 0].kind, t[k + 0].text) == rp[0]);
        assert(args.take(i) =~= args);
        acc
    } else {
        let le = lexemes(expr_pieces(args[i], 0));
        let lrest = lexemes(args_pieces(args, i + 1));
        lemma_lexemes_at_split(t, k, le + lrest, rp);
        lemma_lexemes_at_split(t, k, le, lrest);
        lemma_first_lexeme(args[i], 0);
        assert((t[k + 0].kind, t[k + 0].text) == le[0]);
        let j = k + le.len();
        lemma_args_lexemes(args, i + 1);
        if i + 1 < args.len() {
            assert(lrest == seq![(TokKindV::Punct(Punct::Comma), ","@)] + args_tail(args, i + 1));
            assert((t[j + 0].kind, t[j + 0].text) == lrest[0]);
            lemma_follow_close(t, j, Punct::Comma, 0);
        } else {
            assert(lrest =~= Seq::<(TokKindV, Seq<char>)>::empty());
            assert(j == k + (le + lrest).len());
            assert((t[j + 0].kind, t[j + 0].text) == rp[0]);
            lemma_follow_close(t, j, Punct::RParen, 0);
        }
        let x = lemma_parse_expr(t, k, args[i], 0, 0);
        assert(p_expr(t, k) == p_bin(t, k, 0));
        let acc2 = acc.push(x);
        assert(erase_args(acc2) =~= erase_args(args.take(i + 1))) by {
            assert(args.take(i + 1) =~= args.take(i).push(args[i]));
            assert(erase_args(acc2) =~= erase_args(acc).push(erase(x)));
            assert(erase_args(args.take(i).push(args[i])) =~= erase_args(args.take(i)).push(erase(args[i])));
        }
        if i + 1 < args.len() {
            assert(lexemes_at(t, k, le + (seq![(TokKindV::Punct(Punct::Comma), ","@)] + args_tail(args, i + 1)) + rp));
            assert(le + (seq![(TokKindV::Punct(Punct::Comma), ","@)] + args_tail(args, i + 1)) + rp =~= le + (seq![
                (TokKindV::Punct(Punct::Comma), ","@),
            ] + (args_tail(args, i + 1) + rp)));
            lemma_lexemes_at_split(
                t,
                k,
                le,
                seq![(TokKindV::Punct(Punct::Comma), ","@)] + (args_tail(args, i + 1) + rp),
            );
            lemma_lexemes_at_split(t, j, seq![(TokKindV::Punct(Punct::Comma), ","@)], args_tail(args, i + 1) + rp);
            let a2 = lemma_parse_args(t, j + 1, args, i + 1, acc2);
            a2
        } else {
            assert(args.take(i + 1) =~= args);
            acc2
        }
    }
}

proof fn lemma_join_erase(parts: Seq<(Seq<char>, Span)>)
    ensures
        join_parts(erase_path(parts)) == join_parts(parts),
    decreases parts.len(),
{
    if parts.len() > 1 {
        assert(erase_path(parts).drop_last() =~= erase_path(parts.drop_last()));
        lemma_join_erase(parts.drop_last());
    }
}

/// The canonical text of an expression does not depend on its byte ranges.
proof fn lemma_fmt_erase(e: ExprV, parent: nat)
    ensures
        precedence(erase(e)) == precedence(e),
        fmt_expr(erase(e), parent) == fmt_expr(e, parent),
        fmt_body(erase(e)) == fmt_body(e),
    decreases e, 2nat,
{
    lemma_fmt_erase_body(e);
}

proof fn lemma_fmt_erase_body(e: ExprV)
    ensures
        precedence(erase(e)) == precedence(e),
        fmt_body(erase(e)) == fmt_body(e),
    decreases e, 1nat,
{
    let p = precedence(e);
    match e.kind {
        ExprKindV::If { condition, consequence, alternative } => {
            lemma_fmt_erase(*condition, 0);
            lemma_fmt_erase(*consequence, 0);
            lemma_fmt_erase(*alternative, 0);
        },
        ExprKindV::Binary { operator, left, right } => {
            lemma_fmt_erase(*left, p);
            lemma_fmt_erase(*right, p + 1);
        },
        ExprKindV::Call { path, args } => {
            lemma_join_erase(path);
            assert(decreases_to!(e => e.kind));
            lemma_fmt_erase_args(args, 0);
        },
        _ => {},
    }
}

proof fn lemma_fmt_erase_args(args: Seq<ExprV>, k: int)
    ensures
        fmt_args(erase_args(args), k) == fmt_args(args, k),
    decreases args, args.len() - k,
{
    if 0 <= k < args.len() {
        lemma_fmt_erase(args[k], 0);
        lemma_fmt_erase_args(args, k + 1);
        assert(erase_args(args)[k] == erase(args[k]));
    }
}

proof fn lemma_fmt_same(a: ExprV, b: ExprV, parent: nat)
    requires
        erase(a) == erase(b),
    ensures
        fmt_expr(a, parent) == fmt_expr(b, parent),
{
    lemma_fmt_erase(a, parent);
    lemma_fmt_erase(b, parent);
}

/// The pieces of a statement, between its indentation and its line end.
pub open spec fn stmt_inner(st: StmtV) -> Seq<Piece> {
    match st.kind {
        StmtKindV::Let { name, annotation, value, .. } => seq![
            Piece::Lex(TokKindV::Ident, "let"@),
            space(),
            Piece::Lex(TokKindV::Ident, name),
        ] + (match annotation {
            Some((ty, _)) => seq![punct(Punct::Colon, ":"@), space(), Piece::Lex(TokKindV::Ident, ty)],
            None => Seq::empty(),
        }) + seq![space(), punct(Punct::Assign, "="@), space()] + expr_pieces(value, 0) + seq![
            punct(Punct::Semi, ";"@),
        ],
        StmtKindV::Expr { value, terminated } => expr_pieces(value, 0) + (if terminated {
            seq![punct(Punct::Semi, ";"@)]
        } else {
            Seq::empty()
        }),
    }
}

/// The pieces of a statement line.
pub open spec fn stmt_pieces(st: StmtV) -> Seq<Piece> {
    seq![Piece::Gap("    "@)] + stmt_inner(st) + seq![Piece::Gap(seq!['\n'])]
}

/// The pieces of some statement lines.
pub open spec fn stmts_pieces(ss: Seq<StmtV>) -> Seq<Piece>
    decreases ss.len(),
{
    if ss.len() == 0 {
        Seq::empty()
    } else {
        stmts_pieces(ss.drop_last()) + stmt_pieces(ss.last())
    }
}

/// The lexemes of the statements `ss[i..]`, in order.
pub open spec fn stmts_lex(ss: Seq<StmtV>, i: int) -> Seq<(TokKindV, Seq<char>)>
    decreases ss.len() - i,
{
    if 0 <= i < ss.len() {
        lexemes(stmt_inner(ss[i])) + stmts_lex(ss, i + 1)
    } else {
        Seq::empty()
    }
}

/// The statements the parser reads: names are names, and only the last
/// statement may be an expression without `;`.
pub open spec fn wf_stmt(st: StmtV) -> bool {
    match st.kind {
        StmtKindV::Let { name, annotation, value, .. } => name_text(name) && (match annotation {
            Some((ty, _)) => name_text(ty),
            None => true,
        }) && wf_expr(value),
        StmtKindV::Expr { value, .. } => wf_expr(value),
    }
}

/// A body the parser reads.
pub open spec fn wf_body(ss: Seq<StmtV>) -> bool {
    &&& forall|i: int| 0 <= i < ss.len() ==> wf_stmt(#[trigger] ss[i])
    &&& forall|i: int| 0 <= i < ss.len() - 1 ==> (#[trigger] ss[i]).kind is Expr ==> ss[i].kind->Expr_terminated
}

proof fn lemma_stmt_text(st: StmtV)
    ensures
        flatten(stmt_pieces(st)) == fmt_stmt(st),
        lexemes(stmt_pieces(st)) == lexemes(stmt_inner(st)),
{
    let inner = stmt_inner(st);
    let g1 = seq![Piece::Gap("    "@)];
    let g2 = seq![Piece::Gap(seq!['\n'])];
    lemma_flatten_add(g1 + inner, g2);
    lemma_flatten_add(g1, inner);
    lemma_flatten_one(Piece::Gap("    "@));
    lemma_flatten_one(Piece::Gap(seq!['\n']));
    assert(lexemes(g1) + lexemes(inner) + lexemes(g2) =~= lexemes(inner));
    reveal_strlit("let ");
    reveal_strlit("let");
    reveal_strlit(": ");
    reveal_strlit(":");
    reveal_strlit(" = ");
    reveal_strlit("=");
    reveal_strlit(";");
    match st.kind {
        StmtKindV::Let { name, annotation, value, .. } => {
            let a = seq![Piece::Lex(TokKindV::Ident, "let"@), space(), Piece::Lex(TokKindV::Ident, name)];
            let ann = match annotation {
                Some((ty, _)) => seq![punct(Punct::Colon, ":"@), space(), Piece::Lex(TokKindV::Ident, ty)],
                None => Seq::empty(),
            };
            let b = seq![space(), punct(Punct::Assign, "="@), space()];
            let ev = expr_pieces(value, 0);
            let c = seq![punct(Punct::Semi, ";"@)];
            lemma_expr_text(value, 0);
            lemma_flatten_add(a + ann + b + ev, c);
            lemma_flatten_add(a + ann + b, ev);
            lemma_flatten_add(a + ann, b);
            lemma_flatten_add(a, ann);
            lemma_flat3(Piece::Lex(TokKindV::Ident, "let"@), space(), Piece::Lex(TokKindV::Ident, name));
            lemma_flat3(space(), punct(Punct::Assign, "="@), space());
            lemma_flatten_one(punct(Punct::Semi, ";"@));
            assert(flatten(a) =~= "let "@ + name);
            assert(flatten(b) =~= " = "@);
            match annotation {
                Some((ty, _)) => {
                    lemma_flat3(punct(Punct::Colon, ":"@), space(), Piece::Lex(TokKindV::Ident, ty));
                    assert(flatten(ann) =~= ": "@ + ty);
                },
                None => {
                    assert(flatten(ann) =~= Seq::<char>::empty());
                },
            }
            assert(flatten(c) =~= seq![';']);
            assert(flatten(inner) =~= "let "@ + name + flatten(ann) + " = "@ + fmt_expr(value, 0) + seq![';']);
        },
        StmtKindV::Expr { value, terminated } => {
            let ev = expr_pieces(value, 0);
            lemma_expr_text(value, 0);
            let c = if terminated {
                seq![punct(Punct::Semi, ";"@)]
            } else {
                Seq::empty()
            };
            lemma_flatten_add(ev, c);
            lemma_flatten_one(punct(Punct::Semi, ";"@));
            if terminated {
                assert(flatten(c) =~= seq![';']);
            } else {
                assert(flatten(c) =~= Seq::<char>::empty());
            }
        },
    }
    reveal_strlit("    ");
}

proof fn lemma_stmts_text(ss: Seq<StmtV>)
    ensures
        flatten(stmts_pieces(ss)) == fmt_stmts(ss),
    decreases ss.len(),
{
    if ss.len() > 0 {
        lemma_stmts_text(ss.drop_last());
        lemma_flatten_add(stmts_pieces(ss.drop_last()), stmt_pieces(ss.last()));
        lemma_stmt_text(ss.last());
    }
}

proof fn lemma_stmts_lex_last(ss: Seq<StmtV>, i: int)
    requires
        0 <= i < ss.len(),
    ensures
        stmts_lex(ss, i) == stmts_lex(ss.drop_last(), i) + lexemes(stmt_inner(ss.last())),
    decreases ss.len() - i,
{
    if i == ss.len() - 1 {
        assert(stmts_lex(ss.drop_last(), i) =~= Seq::<(TokKindV, Seq<char>)>::empty());
        assert(stmts_lex(ss, i + 1) =~= Seq::<(TokKindV, Seq<char>)>::empty());
        assert(stmts_lex(ss, i) =~= lexemes(stmt_inner(ss.last())));
    } else {
        lemma_stmts_lex_last(ss, i + 1);
        assert(ss.drop_last()[i] == ss[i]);
    }
}

proof fn lemma_stmts_lexemes(ss: Seq<StmtV>)
    ensures
        lexemes(stmts_pieces(ss)) == stmts_lex(ss, 0),
    decreases ss.len(),
{
    if ss.len() > 0 {
        lemma_stmts_lexemes(ss.drop_last());
        lemma_flatten_add(stmts_pieces(ss.drop_last()), stmt_pieces(ss.last()));
        lemma_stmt_text(ss.last());
        lemma_stmts_lex_last(ss, 0);
    } else {
        assert(lexemes(Seq::<Piece>::empty()) =~= stmts_lex(ss, 0));
    }
}

/// Every integer lexeme fits in an `Int`.
pub open spec fn ints_fit(ls: Seq<(TokKindV, Seq<char>)>) -> bool {
    forall|j: int| 0 <= j < ls.len() && (#[trigger] ls[j]).0 is Int ==> int_fits(ls[j].1)
}

proof fn lemma_fit_add(a: Seq<(TokKindV, Seq<char>)>, b: Seq<(TokKindV, Seq<char>)>)
    requires
        ints_fit(a),
        ints_fit(b),
    ensures
        ints_fit(a + b),
{
    assert forall|j: int| 0 <= j < (a + b).len() && (#[trigger] (a + b)[j]).0 is Int implies int_fits((a + b)[j].1) by {
        if j < a.len() {
            assert((a + b)[j] == a[j]);
        } else {
            assert((a + b)[j] == b[j - a.len()]);
        }
    }
}

proof fn lemma_expr_fits(e: ExprV, parent: nat)
    requires
        wf_expr(e),
    ensures
        ints_fit(lexemes(expr_pieces(e, parent))),
        ints_fit(lexemes(body_pieces(e))),
    decreases e, 2nat,
{
    lemma_body_fits(e);
    if precedence(e) < parent {
        lemma_paren_lexemes(e, parent);
        lemma_fit_add(seq![(TokKindV::Punct(Punct::LParen), "("@)], lexemes(body_pieces(e)));
        lemma_fit_add(
            seq![(TokKindV::Punct(Punct::LParen), "("@)] + lexemes(body_pieces(e)),
            seq![(TokKindV::Punct(Punct::RParen), ")"@)],
        );
    }
}

proof fn lemma_body_fits(e: ExprV)
    requires
        wf_expr(e),
    ensures
        ints_fit(lexemes(body_pieces(e))),
    decreases e, 1nat,
{
    match e.kind {
        ExprKindV::Int(v) => {
            lemma_flatten_one(Piece::Lex(TokKindV::Int, spec_signed_decimal(v as int)));
            lemma_decimal_digits(v as nat);
        },
        ExprKindV::If { condition, consequence, alternative } => {
            lemma_if_lexemes(e);
            lemma_expr_fits(*condition, 0);
            lemma_expr_fits(*consequence, 0);
            lemma_expr_fits(*alternative, 0);
            let l0 = seq![(TokKindV::Ident, "if"@)];
            let lc = lexemes(expr_pieces(*condition, 0));
            let l1 = seq![(TokKindV::Punct(Punct::LBrace), "{"@)];
            let la = lexemes(expr_pieces(*consequence, 0));
            let l2 = seq![
                (TokKindV::Punct(Punct::RBrace), "}"@),
                (TokKindV::Ident, "else"@),
                (TokKindV::Punct(Punct::LBrace), "{"@),
            ];
            let lb = lexemes(expr_pieces(*alternative, 0));
            let l3 = seq![(TokKindV::Punct(Punct::RBrace), "}"@)];
            lemma_fit_add(l0, lc);
            lemma_fit_add(l0 + lc, l1);
            lemma_fit_add(l0 + lc + l1, la);
            lemma_fit_add(l0 + lc + l1 + la, l2);
            lemma_fit_add(l0 + lc + l1 + la + l2, lb);
            lemma_fit_add(l0 + lc + l1 + la + l2 + lb, l3);
        },
        ExprKindV::Binary { operator, left, right } => {
            lemma_binary_lexemes(e);
            lemma_expr_fits(*left, precedence(e));
            lemma_expr_fits(*right, precedence(e) + 1);
            let lo = seq![(TokKindV::Punct(op_punct(operator)), op_symbol(operator))];
            lemma_fit_add(lexemes(expr_pieces(*left, precedence(e))), lo);
            lemma_fit_add(lexemes(expr_pieces(*left, precedence(e))) + lo, lexemes(expr_pieces(*right, precedence(e) + 1)));
        },
        ExprKindV::Call { path, args } => {
            lemma_call_lexemes(e);
            lemma_path_lexemes(path);
            let lpath = lexemes(path_pieces(path));
            assert(ints_fit(lpath)) by {
                assert forall|j: int| 0 <= j < lpath.len() && (#[trigger] lpath[j]).0 is Int implies int_fits(lpath[j].1) by {
                    if j % 2 == 0 {
                        assert(lpath[2 * (j / 2)] == (TokKindV::Ident, path[j / 2].0));
                    } else {
                        assert(lpath[2 * (j / 2) + 1] == (TokKindV::Punct(Punct::Dot), "."@));
                    }
                }
            }
            assert(decreases_to!(e => e.kind));
            lemma_args_fit(args, 0);
            let lp = seq![(TokKindV::Punct(Punct::LParen), "("@)];
            let rp = seq![(TokKindV::Punct(Punct::RParen), ")"@)];
            lemma_fit_add(lpath, lp);
            lemma_fit_add(lpath + lp, lexemes(args_pieces(args, 0)));
            lemma_fit_add(lpath + lp + lexemes(args_pieces(args, 0)), rp);
        },
        _ => {
            lemma_flatten_one(body_pieces(e)[0]);
            assert(body_pieces(e) =~= seq![body_pieces(e)[0]]);
        },
    }
}

proof fn lemma_args_fit(args: Seq<ExprV>, i: int)
    requires
        wf_args(args, i),
        0 <= i,
    ensures
        ints_fit(lexemes(args_pieces(args, i))),
    decreases args, args.len() - i,
{
    lemma_args_lexemes(args, i);
    if i < args.len() {
        lemma_expr_fits(args[i], 0);
        lemma_args_fit(args, i + 1);
        let sep = if i == 0 {
            Seq::<(TokKindV, Seq<char>)>::empty()
        } else {
            seq![(TokKindV::Punct(Punct::Comma), ","@)]
        };
        lemma_fit_add(sep, lexemes(expr_pieces(args[i], 0)));
        lemma_fit_add(sep + lexemes(expr_pieces(args[i], 0)), lexemes(args_pieces(args, i + 1)));
    }
}

proof fn lemma_stmt_punct_ok()
    ensures
        piece_ok(Piece::Lex(TokKindV::Ident, "let"@)),
        piece_ok(Piece::Gap("    "@)),
        piece_ok(Piece::Gap(seq!['\n'])),
        piece_ok(punct(Punct::Colon, ":"@)),
        piece_ok(punct(Punct::Assign, "="@)),
        piece_ok(punct(Punct::Semi, ";"@)),
        piece_ends_clean(Piece::Lex(TokKindV::Ident, "let"@), ' '),
        piece_ends_clean(punct(Punct::Colon, ":"@), ' '),
        piece_ends_clean(punct(Punct::Assign, "="@), ' '),
        forall|c: char| #[trigger] piece_ends_clean(punct(Punct::Semi, ";"@), c),
        forall|c: char| #[trigger] piece_ends_clean(Piece::Gap("    "@), c),
        forall|c: char| #[trigger] piece_ends_clean(Piece::Gap(seq!['\n']), c),
        piece_text(Piece::Gap("    "@))[0] == ' ',
{
    reveal_strlit("let");
    reveal_strlit("    ");
    reveal_strlit(":");
    reveal_strlit("=");
    reveal_strlit(";");
}

proof fn lemma_inner_ok(st: StmtV)
    requires
        wf_stmt(st),
    ensures
        pieces_ok(stmt_inner(st)),
        stmt_inner(st).len() > 0,
        piece_ends_clean(stmt_inner(st).last(), '\n'),
        ints_fit(lexemes(stmt_inner(st))),
        lexemes(stmt_inner(st)).len() >= 1,
{
    match st.kind {
        StmtKindV::Let { .. } => lemma_let_inner_ok(st),
        StmtKindV::Expr { .. } => lemma_expr_inner_ok(st),
    }
}

#[verifier::rlimit(40)]
proof fn lemma_let_inner_ok(st: StmtV)
    requires
        wf_stmt(st),
        st.kind is Let,
    ensures
        pieces_ok(stmt_inner(st)),
        stmt_inner(st).len() > 0,
        piece_ends_clean(stmt_inner(st).last(), '\n'),
        ints_fit(lexemes(stmt_inner(st))),
        lexemes(stmt_inner(st)).len() >= 1,
{
    lemma_stmt_punct_ok();
    lemma_punct_ok();
    let name = st.kind->Let_name;
    let annotation = st.kind->annotation;
    let value = st.kind->Let_value;
    let a = seq![Piece::Lex(TokKindV::Ident, "let"@), space(), Piece::Lex(TokKindV::Ident, name)];
    let ann = match annotation {
        Some((ty, _)) => seq![punct(Punct::Colon, ":"@), space(), Piece::Lex(TokKindV::Ident, ty)],
        None => Seq::empty(),
    };
    let b = seq![space(), punct(Punct::Assign, "="@), space()];
    let ev = expr_pieces(value, 0);
    let c = seq![punct(Punct::Semi, ";"@)];
    assert(stmt_inner(st) == a + ann + b + ev + c);
    lemma_expr_pieces_ok(value, 0);
    lemma_expr_fits(value, 0);
    reveal_strlit(":");
    lemma_ok_lit(a);
    lemma_ok_lit(b);
    lemma_ok_lit(c);
    match annotation {
        Some((ty, _)) => {
            lemma_ok_lit(ann);
            lemma_pieces_ok_add(a, ann);
        },
        None => {
            assert(a + ann =~= a);
        },
    }
    lemma_pieces_ok_add(a + ann, b);
    lemma_pieces_ok_add(a + ann + b, ev);
    lemma_closing_clean(ev.last(), ';');
    lemma_pieces_ok_add(a + ann + b + ev, c);
    lemma_flatten_add(a + ann + b + ev, c);
    lemma_flatten_add(a + ann + b, ev);
    lemma_flatten_add(a + ann, b);
    lemma_flatten_add(a, ann);
    lemma_flat3(Piece::Lex(TokKindV::Ident, "let"@), space(), Piece::Lex(TokKindV::Ident, name));
    lemma_flat3(space(), punct(Punct::Assign, "="@), space());
    lemma_flatten_one(punct(Punct::Semi, ";"@));
    lemma_flatten_one(Piece::Lex(TokKindV::Ident, "let"@));
    lemma_flatten_one(Piece::Lex(TokKindV::Ident, name));
    lemma_flatten_one(space());
    lemma_flatten_one(punct(Punct::Assign, "="@));
    let la = lexemes(a);
    let lann = lexemes(ann);
    match annotation {
        Some((ty, _)) => {
            lemma_flat3(punct(Punct::Colon, ":"@), space(), Piece::Lex(TokKindV::Ident, ty));
            lemma_flatten_one(punct(Punct::Colon, ":"@));
            lemma_flatten_one(Piece::Lex(TokKindV::Ident, ty));
            assert(lann =~= seq![(TokKindV::Punct(Punct::Colon), ":"@), (TokKindV::Ident, ty)]);
        },
        None => {
            assert(lann =~= Seq::<(TokKindV, Seq<char>)>::empty());
        },
    }
    assert(la =~= seq![(TokKindV::Ident, "let"@), (TokKindV::Ident, name)]);
    lemma_fit_add(la, lann);
    lemma_fit_add(la + lann, lexemes(b));
    lemma_fit_add(la + lann + lexemes(b), lexemes(ev));
    lemma_fit_add(la + lann + lexemes(b) + lexemes(ev), lexemes(c));
    assert((a + ann + b + ev + c).last() == punct(Punct::Semi, ";"@));
}

proof fn lemma_expr_inner_ok(st: StmtV)
    requires
        wf_stmt(st),
        st.kind is Expr,
    ensures
        pieces_ok(stmt_inner(st)),
        stmt_inner(st).len() > 0,
        piece_ends_clean(stmt_inner(st).last(), '\n'),
        ints_fit(lexemes(stmt_inner(st))),
        lexemes(stmt_inner(st)).len() >= 1,
{
    lemma_stmt_punct_ok();
    let value = st.kind->Expr_value;
    let terminated = st.kind->Expr_terminated;
    let ev = expr_pieces(value, 0);
    let c = if terminated {
        seq![punct(Punct::Semi, ";"@)]
    } else {
        Seq::empty()
    };
    assert(stmt_inner(st) == ev + c);
    lemma_expr_pieces_ok(value, 0);
    lemma_expr_fits(value, 0);
    lemma_first_lexeme(value, 0);
    lemma_ok_lit(c);
    if terminated {
        lemma_closing_clean(ev.last(), ';');
        reveal_strlit(";");
        assert((ev + c).last() == punct(Punct::Semi, ";"@));
    } else {
        assert(ev + c =~= ev);
        lemma_closing_clean(ev.last(), '\n');
    }
    lemma_pieces_ok_add(ev, c);
    lemma_flatten_add(ev, c);
    lemma_flatten_one(punct(Punct::Semi, ";"@));
    lemma_fit_add(lexemes(ev), lexemes(c));
}

proof fn lemma_stmt_pieces_ok(st: StmtV)
    requires
        wf_stmt(st),
    ensures
        pieces_ok(stmt_pieces(st)),
        stmt_pieces(st).len() > 0,
        stmt_pieces(st).last() == Piece::Gap(seq!['\n']),
        piece_text(stmt_pieces(st)[0])[0] == ' ',
        ints_fit(lexemes(stmt_inner(st))),
        lexemes(stmt_inner(st)).len() >= 1,
{
    lemma_stmt_punct_ok();
    lemma_inner_ok(st);
    let inner = stmt_inner(st);
    let g1 = seq![Piece::Gap("    "@)];
    let g2 = seq![Piece::Gap(seq!['\n'])];
    lemma_ok_lit(g1);
    lemma_ok_lit(g2);
    lemma_pieces_ok_add(g1, inner);
    assert((g1 + inner).last() == inner.last());
    lemma_pieces_ok_add(g1 + inner, g2);
}

proof fn lemma_stmts_pieces_ok(ss: Seq<StmtV>)
    requires
        wf_body(ss),
    ensures
        pieces_ok(stmts_pieces(ss)),
        ss.len() > 0 ==> stmts_pieces(ss).last() == Piece::Gap(seq!['\n']),
        ss.len() > 0 ==> piece_text(stmts_pieces(ss)[0])[0] == ' ',
        ss.len() == 0 ==> stmts_pieces(ss) == Seq::<Piece>::empty(),
    decreases ss.len(),
{
    if ss.len() > 0 {
        let init = ss.drop_last();
        assert(wf_body(init)) by {
            assert forall|i: int| 0 <= i < init.len() implies wf_stmt(#[trigger] init[i]) by {
                assert(init[i] == ss[i]);
            }
            assert forall|i: int| 0 <= i < init.len() - 1 implies (#[trigger] init[i]).kind is Expr
                ==> init[i].kind->Expr_terminated by {
                assert(init[i] == ss[i]);
            }
        }
        lemma_stmts_pieces_ok(init);
        assert(wf_stmt(ss[ss.len() - 1]));
        lemma_stmt_pieces_ok(ss.last());
        lemma_pieces_ok_add(stmts_pieces(init), stmt_pieces(ss.last()));
        if init.len() > 0 {
            assert((stmts_pieces(init) + stmt_pieces(ss.last()))[0] == stmts_pieces(init)[0]);
        } else {
            assert(stmts_pieces(init) + stmt_pieces(ss.last()) =~= stmt_pieces(ss.last()));
        }
    }
}

proof fn lemma_stmts_fit(ss: Seq<StmtV>, i: int)
    requires
        wf_body(ss),
        0 <= i,
    ensures
        ints_fit(stmts_lex(ss, i)),
    decreases ss.len() - i,
{
    if i < ss.len() {
        assert(wf_stmt(ss[i]));
        lemma_inner_ok(ss[i]);
        lemma_stmts_fit(ss, i + 1);
        lemma_fit_add(lexemes(stmt_inner(ss[i])), stmts_lex(ss, i + 1));
    }
}

/// The tokens of a body's statements and its closing brace parse back into
/// statements with the same lines.
#[verifier::rlimit(60)]
proof fn lemma_parse_stmts(
    t: Seq<TokV>,
    k: int,
    ss: Seq<StmtV>,
    i: int,
    module: Seq<char>,
    function: Seq<char>,
    acc: Seq<StmtV>,
    ordinal: nat,
)
    requires
        wf_body(ss),
        0 <= i <= ss.len(),
        acc.len() == i,
        forall|j: int| 0 <= j < i ==> fmt_stmt(#[trigger] acc[j]) == fmt_stmt(ss[j]),
        lexemes_at(t, k, stmts_lex(ss, i) + seq![(TokKindV::Punct(Punct::RBrace), "}"@)]),
    ensures
        p_stmts(t, k, module, function, acc, ordinal) is Ok,
        p_stmts(t, k, module, function, acc, ordinal)->Ok_0.1 == k + stmts_lex(ss, i).len() + 1,
        p_stmts(t, k, module, function, acc, ordinal)->Ok_0.0.len() == ss.len(),
        forall|j: int|
            0 <= j < ss.len() ==> fmt_stmt(#[trigger] p_stmts(t, k, module, function, acc, ordinal)->Ok_0.0[j])
                == fmt_stmt(ss[j]),
    decreases ss.len() - i,
{
    let rb = seq![(TokKindV::Punct(Punct::RBrace), "}"@)];
    if i == ss.len() {
        assert(stmts_lex(ss, i) =~= Seq::<(TokKindV, Seq<char>)>::empty());
        assert((t[k + 0].kind, t[k + 0].text) == rb[0]);
    } else {
        let st = ss[i];
        assert(wf_stmt(st));
        let li = lexemes(stmt_inner(st));
        let rest = stmts_lex(ss, i + 1);
        assert(stmts_lex(ss, i) == li + rest);
        assert(li + rest + rb =~= li + (rest + rb));
        lemma_lexemes_at_split(t, k, li, rest + rb);
        let k2 = k + li.len();
        match st.kind {
            StmtKindV::Let { name, annotation, value, .. } => {
                let la = seq![(TokKindV::Ident, "let"@), (TokKindV::Ident, name)];
                let lann = match annotation {
                    Some((ty, _)) => seq![(TokKindV::Punct(Punct::Colon), ":"@), (TokKindV::Ident, ty)],
                    None => Seq::<(TokKindV, Seq<char>)>::empty(),
                };
                let lb = seq![(TokKindV::Punct(Punct::Assign), "="@)];
                let lv = lexemes(expr_pieces(value, 0));
                let lc = seq![(TokKindV::Punct(Punct::Semi), ";"@)];
                assert(li == la + lann + lb + lv + lc) by {
                    lemma_let_lexemes(st);
                }
                lemma_lexemes_at_split(t, k, la + lann + lb + lv, lc);
                lemma_lexemes_at_split(t, k, la + lann + lb, lv);
                lemma_lexemes_at_split(t, k, la + lann, lb);
                lemma_lexemes_at_split(t, k, la, lann);
                assert((t[k + 0].kind, t[k + 0].text) == la[0]);
                assert((t[k + 1].kind, t[k + 1].text) == la[1]);
                let j = k + 2 + lann.len();
                assert((t[j + 0].kind, t[j + 0].text) == lb[0]);
                match annotation {
                    Some((ty, _)) => {
                        assert((t[k + 2 + 0].kind, t[k + 2 + 0].text) == lann[0]);
                        assert((t[k + 2 + 1].kind, t[k + 2 + 1].text) == lann[1]);
                    },
                    None => {},
                }
                let kv = j + 1;
                let ks = kv + lv.len();
                assert((t[ks + 0].kind, t[ks + 0].text) == lc[0]);
                lemma_follow_close(t, ks, Punct::Semi, 0);
                lemma_first_lexeme(value, 0);
                let v2 = lemma_parse_expr(t, kv, value, 0, 0);
                assert(p_expr(t, kv) == p_bin(t, kv, 0));
                lemma_fmt_same(v2, value, 0);
                reveal_strlit("let");
                let stmt = p_stmts(t, k, module, function, acc, ordinal);
                let ann2 = match annotation {
                    Some(_) => Some((t[k + 3].text, t[k + 3].span)),
                    None => None,
                };
                let st2 = StmtV {
                    kind: StmtKindV::Let {
                        id: crate::syntax::StableId(
                            crate::syntax::spec_stable_id(
                                crate::syntax::member_ns(module, function, ".local."@, ordinal),
                                t[k + 1].text,
                            ),
                        ),
                        name: t[k + 1].text,
                        name_span: t[k + 1].span,
                        annotation: ann2,
                        value: v2,
                    },
                    span: Span { start: t[k].span.start, end: t[ks].span.end },
                };
                assert(p_stmts(t, k, module, function, acc, ordinal) == p_stmts(
                    t,
                    ks + 1,
                    module,
                    function,
                    acc.push(st2),
                    ordinal + 1,
                ));
                assert(fmt_stmt(st2) == fmt_stmt(st));
                assert forall|x: int| 0 <= x < i + 1 implies fmt_stmt(#[trigger] acc.push(st2)[x]) == fmt_stmt(ss[x]) by {
                    if x < i {
                        assert(acc.push(st2)[x] == acc[x]);
                    }
                }
                assert(ks + 1 == k2);
                lemma_parse_stmts(t, k2, ss, i + 1, module, function, acc.push(st2), ordinal + 1);
            },
            StmtKindV::Expr { value, terminated } => {
                let lv = lexemes(expr_pieces(value, 0));
                lemma_first_lexeme(value, 0);
                lemma_expr_inner_lexemes(st);
                assert(li[0] == lv[0]);
                assert((t[k + 0].kind, t[k + 0].text) == li[0]);
                let kv2 = k + lv.len();
                if terminated {
                    let lc = seq![(TokKindV::Punct(Punct::Semi), ";"@)];
                    lemma_lexemes_at_split(t, k, lv, lc);
                    assert((t[kv2 + 0].kind, t[kv2 + 0].text) == lc[0]);
                    lemma_follow_close(t, kv2, Punct::Semi, 0);
                    let v2 = lemma_parse_expr(t, k, value, 0, 0);
                    assert(p_expr(t, k) == p_bin(t, k, 0));
                    lemma_fmt_same(v2, value, 0);
                    let st2 = StmtV {
                        kind: StmtKindV::Expr { value: v2, terminated: true },
                        span: Span { start: v2.span.start, end: t[kv2].span.end },
                    };
                    assert(p_stmts(t, k, module, function, acc, ordinal) == p_stmts(
                        t,
                        kv2 + 1,
                        module,
                        function,
                        acc.push(st2),
                        ordinal,
                    ));
                    assert forall|x: int| 0 <= x < i + 1 implies fmt_stmt(#[trigger] acc.push(st2)[x]) == fmt_stmt(
                        ss[x],
                    ) by {
                        if x < i {
                            assert(acc.push(st2)[x] == acc[x]);
                        }
                    }
                    lemma_parse_stmts(t, kv2 + 1, ss, i + 1, module, function, acc.push(st2), ordinal);
                } else {
                    assert(i == ss.len() - 1);
                    assert(rest =~= Seq::<(TokKindV, Seq<char>)>::empty());
                    assert(li == lv);
                    lemma_lexemes_at_split(t, k, lv, rb);
                    assert((t[kv2 + 0].kind, t[kv2 + 0].text) == rb[0]);
                    lemma_follow_close(t, kv2, Punct::RBrace, 0);
                    let v2 = lemma_parse_expr(t, k, value, 0, 0);
                    assert(p_expr(t, k) == p_bin(t, k, 0));
                    lemma_fmt_same(v2, value, 0);
                    let st2 = StmtV { kind: StmtKindV::Expr { value: v2, terminated: false }, span: v2.span };
                    assert(p_stmts(t, k, module, function, acc, ordinal) == p_stmts(
                        t,
                        kv2,
                        module,
                        function,
                        acc.push(st2),
                        ordinal,
                    ));
                    assert forall|x: int| 0 <= x < i + 1 implies fmt_stmt(#[trigger] acc.push(st2)[x]) == fmt_stmt(
                        ss[x],
                    ) by {
                        if x < i {
                            assert(acc.push(st2)[x] == acc[x]);
                        }
                    }
                    lemma_parse_stmts(t, kv2, ss, i + 1, module, function, acc.push(st2), ordinal);
                }
            },
        }
    }
}

proof fn lemma_let_lexemes(st: StmtV)
    requires
        st.kind is Let,
    ensures
        lexemes(stmt_inner(st)) == seq![(TokKindV::Ident, "let"@), (TokKindV::Ident, st.kind->Let_name)] + (match st.kind->annotation {
            Some((ty, _)) => seq![(TokKindV::Punct(Punct::Colon), ":"@), (TokKindV::Ident, ty)],
            None => Seq::<(TokKindV, Seq<char>)>::empty(),
        }) + seq![(TokKindV::Punct(Punct::Assign), "="@)] + lexemes(expr_pieces(st.kind->Let_value, 0)) + seq![
            (TokKindV::Punct(Punct::Semi), ";"@),
        ],
{
    let name = st.kind->Let_name;
    let annotation = st.kind->annotation;
    let value = st.kind->Let_value;
    let a = seq![Piece::Lex(TokKindV::Ident, "let"@), space(), Piece::Lex(TokKindV::Ident, name)];
    let ann = match annotation {
        Some((ty, _)) => seq![punct(Punct::Colon, ":"@), space(), Piece::Lex(TokKindV::Ident, ty)],
        None => Seq::empty(),
    };
    let b = seq![space(), punct(Punct::Assign, "="@), space()];
    let ev = expr_pieces(value, 0);
    let c = seq![punct(Punct::Semi, ";"@)];
    lemma_flatten_add(a + ann + b + ev, c);
    lemma_flatten_add(a + ann + b, ev);
    lemma_flatten_add(a + ann, b);
    lemma_flatten_add(a, ann);
    lemma_flat3(Piece::Lex(TokKindV::Ident, "let"@), space(), Piece::Lex(TokKindV::Ident, name));
    lemma_flat3(space(), punct(Punct::Assign, "="@), space());
    lemma_flatten_one(punct(Punct::Semi, ";"@));
    lemma_flatten_one(Piece::Lex(TokKindV::Ident, "let"@));
    lemma_flatten_one(Piece::Lex(TokKindV::Ident, name));
    lemma_flatten_one(space());
    lemma_flatten_one(punct(Punct::Assign, "="@));
    match annotation {
        Some((ty, _)) => {
            lemma_flat3(punct(Punct::Colon, ":"@), space(), Piece::Lex(TokKindV::Ident, ty));
            lemma_flatten_one(punct(Punct::Colon, ":"@));
            lemma_flatten_one(Piece::Lex(TokKindV::Ident, ty));
            assert(lexemes(ann) =~= seq![(TokKindV::Punct(Punct::Colon), ":"@), (TokKindV::Ident, ty)]);
        },
        None => {
            assert(lexemes(ann) =~= Seq::<(TokKindV, Seq<char>)>::empty());
        },
    }
    assert(lexemes(a) =~= seq![(TokKindV::Ident, "let"@), (TokKindV::Ident, name)]);
    assert(lexemes(b) =~= seq![(TokKindV::Punct(Punct::Assign), "="@)]);
}

proof fn lemma_expr_inner_lexemes(st: StmtV)
    requires
        st.kind is Expr,
    ensures
        lexemes(stmt_inner(st)) == lexemes(expr_pieces(st.kind->Expr_value, 0)) + (if st.kind->Expr_terminated {
            seq![(TokKindV::Punct(Punct::Semi), ";"@)]
        } else {
            Seq::<(TokKindV, Seq<char>)>::empty()
        }),
{
    let value = st.kind->Expr_value;
    let c = if st.kind->Expr_terminated {
        seq![punct(Punct::Semi, ";"@)]
    } else {
        Seq::empty()
    };
    lemma_flatten_add(expr_pieces(value, 0), c);
    lemma_flatten_one(punct(Punct::Semi, ";"@));
    if !st.kind->Expr_terminated {
        assert(lexemes(c) =~= Seq::<(TokKindV, Seq<char>)>::empty());
    }
}

/// A comma and a space between two items.
pub open spec fn comma_sep() -> Seq<Piece> {
    seq![punct(Punct::Comma, ","@), space()]
}

/// The pieces of a parameter.
pub open spec fn param_pieces(p: ParamV) -> Seq<Piece> {
    seq![Piece::Lex(TokKindV::Ident, p.name), punct(Punct::Colon, ":"@), space(), Piece::Lex(TokKindV::Ident, p.ty_name)]
}

/// The lexemes of a parameter.
pub open spec fn param_lex(p: ParamV) -> Seq<(TokKindV, Seq<char>)> {
    seq![(TokKindV::Ident, p.name), (TokKindV::Punct(Punct::Colon), ":"@), (TokKindV::Ident, p.ty_name)]
}

/// The pieces of some parameters, separated by commas.
pub open spec fn params_pieces(ps: Seq<ParamV>) -> Seq<Piece>
    decreases ps.len(),
{
    if ps.len() == 0 {
        Seq::empty()
    } else if ps.len() == 1 {
        param_pieces(ps[0])
    } else {
        params_pieces(ps.drop_last()) + comma_sep() + param_pieces(ps.last())
    }
}

/// The comma lexeme before item `i` of a list, if any.
pub open spec fn sep_lex(i: int) -> Seq<(TokKindV, Seq<char>)> {
    if i == 0 {
        Seq::empty()
    } else {
        seq![(TokKindV::Punct(Punct::Comma), ","@)]
    }
}

/// The lexemes of the parameters `ps[i..]`.
pub open spec fn params_lex(ps: Seq<ParamV>, i: int) -> Seq<(TokKindV, Seq<char>)>
    decreases ps.len() - i,
{
    if 0 <= i < ps.len() {
        sep_lex(i) + param_lex(ps[i]) + params_lex(ps, i + 1)
    } else {
        Seq::empty()
    }
}

/// A parameter the parser reads: its name and its type are names.
pub open spec fn param_ok(p: ParamV) -> bool {
    name_text(p.name) && name_text(p.ty_name)
}

/// Parameters the parser reads.
pub open spec fn wf_params(ps: Seq<ParamV>) -> bool {
    forall|i: int| 0 <= i < ps.len() ==> param_ok(#[trigger] ps[i])
}

proof fn lemma_param_text(p: ParamV)
    ensures
        flatten(param_pieces(p)) == fmt_param(p),
        lexemes(param_pieces(p)) == param_lex(p),
{
    let a = seq![Piece::Lex(TokKindV::Ident, p.name), punct(Punct::Colon, ":"@)];
    let b = seq![space(), Piece::Lex(TokKindV::Ident, p.ty_name)];
    assert(param_pieces(p) =~= a + b);
    lemma_flatten_add(a, b);
    lemma_flat2(Piece::Lex(TokKindV::Ident, p.name), punct(Punct::Colon, ":"@));
    lemma_flat2(space(), Piece::Lex(TokKindV::Ident, p.ty_name));
    lemma_flatten_one(Piece::Lex(TokKindV::Ident, p.name));
    lemma_flatten_one(punct(Punct::Colon, ":"@));
    lemma_flatten_one(space());
    lemma_flatten_one(Piece::Lex(TokKindV::Ident, p.ty_name));
    reveal_strlit(": ");
    reveal_strlit(":");
    assert(flatten(a) + flatten(b) =~= p.name + ": "@ + p.ty_name);
    assert(lexemes(a) + lexemes(b) =~= param_lex(p));
}

proof fn lemma_comma_sep()
    ensures
        flatten(comma_sep()) == ", "@,
        lexemes(comma_sep()) == seq![(TokKindV::Punct(Punct::Comma), ","@)],
        pieces_ok(comma_sep()),
{
    lemma_flat2(punct(Punct::Comma, ","@), space());
    lemma_flatten_one(punct(Punct::Comma, ","@));
    lemma_flatten_one(space());
    lemma_punct_ok();
    lemma_ok_lit(comma_sep());
    reveal_strlit(", ");
    reveal_strlit(",");
    assert(flatten(comma_sep()) =~= ", "@);
    assert(lexemes(comma_sep()) =~= seq![(TokKindV::Punct(Punct::Comma), ","@)]);
}

proof fn lemma_params_text(ps: Seq<ParamV>)
    ensures
        flatten(params_pieces(ps)) == join_commas(ps.map_values(|p: ParamV| fmt_param(p))),
    decreases ps.len(),
{
    let m = ps.map_values(|p: ParamV| fmt_param(p));
    if ps.len() == 1 {
        lemma_param_text(ps[0]);
    } else if ps.len() > 1 {
        lemma_params_text(ps.drop_last());
        assert(ps.drop_last().map_values(|p: ParamV| fmt_param(p)) =~= m.drop_last());
        lemma_param_text(ps.last());
        lemma_comma_sep();
        lemma_flatten_add(params_pieces(ps.drop_last()) + comma_sep(), param_pieces(ps.last()));
        lemma_flatten_add(params_pieces(ps.drop_last()), comma_sep());
    }
}

proof fn lemma_params_lex_last(ps: Seq<ParamV>, i: int)
    requires
        0 <= i < ps.len(),
    ensures
        params_lex(ps, i) == params_lex(ps.drop_last(), i) + sep_lex(ps.len() - 1) + param_lex(ps.last()),
    decreases ps.len() - i,
{
    if i == ps.len() - 1 {
        assert(params_lex(ps.drop_last(), i) =~= Seq::<(TokKindV, Seq<char>)>::empty());
        assert(params_lex(ps, i + 1) =~= Seq::<(TokKindV, Seq<char>)>::empty());
        assert(params_lex(ps, i) =~= sep_lex(i) + param_lex(ps[i]));
    } else {
        lemma_params_lex_last(ps, i + 1);
        assert(ps.drop_last()[i] == ps[i]);
    }
}

proof fn lemma_params_lexemes(ps: Seq<ParamV>)
    ensures
        lexemes(params_pieces(ps)) == params_lex(ps, 0),
    decreases ps.len(),
{
    if ps.len() == 0 {
        assert(lexemes(Seq::<Piece>::empty()) =~= params_lex(ps, 0));
    } else if ps.len() == 1 {
        lemma_param_text(ps[0]);
        lemma_params_lex_last(ps, 0);
        assert(params_lex(ps.drop_last(), 0) =~= Seq::<(TokKindV, Seq<char>)>::empty());
        assert(sep_lex(0) =~= Seq::<(TokKindV, Seq<char>)>::empty());
    } else {
        lemma_params_lexemes(ps.drop_last());
        lemma_param_text(ps.last());
        lemma_comma_sep();
        lemma_flatten_add(params_pieces(ps.drop_last()) + comma_sep(), param_pieces(ps.last()));
        lemma_flatten_add(params_pieces(ps.drop_last()), comma_sep());
        lemma_params_lex_last(ps, 0);
    }
}

proof fn lemma_params_ok(ps: Seq<ParamV>)
    requires
        wf_params(ps),
    ensures
        pieces_ok(params_pieces(ps)),
        ps.len() > 0 ==> params_pieces(ps).last() == Piece::Lex(TokKindV::Ident, ps.last().ty_name),
        ints_fit(params_lex(ps, 0)),
    decreases ps.len(),
{
    lemma_punct_ok();
    lemma_stmt_punct_ok();
    lemma_params_lexemes(ps);
    reveal_strlit(":");
    if ps.len() >= 1 {
        let last = ps.last();
        assert(param_ok(ps[ps.len() - 1]));
        lemma_ok_lit(param_pieces(last));
        if ps.len() > 1 {
            let init = ps.drop_last();
            assert(wf_params(init)) by {
                assert forall|i: int| 0 <= i < init.len() implies param_ok(#[trigger] init[i]) by {
                    assert(init[i] == ps[i]);
                }
            }
            lemma_params_ok(init);
            lemma_comma_sep();
            reveal_strlit(",");
            lemma_pieces_ok_add(params_pieces(init), comma_sep());
            lemma_pieces_ok_add(params_pieces(init) + comma_sep(), param_pieces(last));
        }
    }
    assert(ints_fit(params_lex(ps, 0))) by {
        let l = lexemes(params_pieces(ps));
        assert forall|j: int| 0 <= j < l.len() && (#[trigger] l[j]).0 is Int implies int_fits(l[j].1) by {
            lemma_params_no_int(ps, j);
        }
    }
}

proof fn lemma_params_no_int(ps: Seq<ParamV>, j: int)
    requires
        0 <= j < lexemes(params_pieces(ps)).len(),
    ensures
        !(lexemes(params_pieces(ps))[j].0 is Int),
    decreases ps.len(),
{
    if ps.len() == 1 {
        lemma_param_text(ps[0]);
    } else if ps.len() > 1 {
        lemma_param_text(ps.last());
        lemma_comma_sep();
        lemma_flatten_add(params_pieces(ps.drop_last()) + comma_sep(), param_pieces(ps.last()));
        lemma_flatten_add(params_pieces(ps.drop_last()), comma_sep());
        let a = lexemes(params_pieces(ps.drop_last()));
        if j < a.len() {
            lemma_params_no_int(ps.drop_last(), j);
        }
    }
}

/// The lexemes of the parameters from `ps[i]` on, without a comma before it.
pub open spec fn params_tail(ps: Seq<ParamV>, i: int) -> Seq<(TokKindV, Seq<char>)> {
    if 0 <= i < ps.len() {
        param_lex(ps[i]) + params_lex(ps, i + 1)
    } else {
        Seq::empty()
    }
}

/// The tokens of some parameters and the closing parenthesis parse back
/// into parameters with the same texts.
proof fn lemma_parse_params(
    t: Seq<TokV>,
    k: int,
    ps: Seq<ParamV>,
    i: int,
    module: Seq<char>,
    function: Seq<char>,
    acc: Seq<ParamV>,
)
    requires
        wf_params(ps),
        0 <= i <= ps.len(),
        i == ps.len() ==> i == 0,
        acc.len() == i,
        forall|j: int| 0 <= j < i ==> fmt_param(#[trigger] acc[j]) == fmt_param(ps[j]),
        lexemes_at(t, k, params_tail(ps, i) + seq![(TokKindV::Punct(Punct::RParen), ")"@)]),
    ensures
        p_params(t, k, module, function, acc) is Ok,
        p_params(t, k, module, function, acc)->Ok_0.1 == k + params_tail(ps, i).len() + 1,
        p_params(t, k, module, function, acc)->Ok_0.0.len() == ps.len(),
        forall|j: int|
            0 <= j < ps.len() ==> fmt_param(#[trigger] p_params(t, k, module, function, acc)->Ok_0.0[j]) == fmt_param(
                ps[j],
            ),
    decreases ps.len() - i,
{
    let rp = seq![(TokKindV::Punct(Punct::RParen), ")"@)];
    if i == ps.len() {
        assert(params_tail(ps, i) =~= Seq::<(TokKindV, Seq<char>)>::empty());
        assert((t[k + 0].kind, t[k + 0].text) == rp[0]);
    } else {
        let pl = param_lex(ps[i]);
        let rest = params_lex(ps, i + 1);
        assert(param_ok(ps[i]));
        assert(params_tail(ps, i) + rp =~= pl + (rest + rp));
        lemma_lexemes_at_split(t, k, pl, rest + rp);
        assert((t[k + 0].kind, t[k + 0].text) == pl[0]);
        assert((t[k + 1].kind, t[k + 1].text) == pl[1]);
        assert((t[k + 2].kind, t[k + 2].text) == pl[2]);
        let p2 = ParamV {
            id: crate::syntax::StableId(
                crate::syntax::spec_stable_id(crate::syntax::member_ns(module, function, ".param."@, acc.len()), t[k].text),
            ),
            name: t[k].text,
            name_span: t[k].span,
            ty_name: t[k + 2].text,
            type_span: t[k + 2].span,
        };
        assert(fmt_param(p2) == fmt_param(ps[i]));
        assert forall|x: int| 0 <= x < i + 1 implies fmt_param(#[trigger] acc.push(p2)[x]) == fmt_param(ps[x]) by {
            if x < i {
                assert(acc.push(p2)[x] == acc[x]);
            }
        }
        if i + 1 < ps.len() {
            assert(rest == seq![(TokKindV::Punct(Punct::Comma), ","@)] + params_tail(ps, i + 1));
            assert((t[k + 3 + 0].kind, t[k + 3 + 0].text) == (rest + rp)[0]);
            assert(rest + rp =~= seq![(TokKindV::Punct(Punct::Comma), ","@)] + (params_tail(ps, i + 1) + rp));
            lemma_lexemes_at_split(
                t,
                k + 3,
                seq![(TokKindV::Punct(Punct::Comma), ","@)],
                params_tail(ps, i + 1) + rp,
            );
            lemma_parse_params(t, k + 4, ps, i + 1, module, function, acc.push(p2));
        } else {
            assert(rest =~= Seq::<(TokKindV, Seq<char>)>::empty());
            assert((t[k + 3 + 0].kind, t[k + 3 + 0].text) == rp[0]);
        }
    }
}

/// A dotted name of names.
pub open spec fn wf_qname(s: Seq<char>) -> bool {
    exists|parts: Seq<(Seq<char>, Span)>| path_names(parts) && join_parts(parts) == s
}

/// The parts of a dotted name of names.
pub open spec fn qparts(s: Seq<char>) -> Seq<(Seq<char>, Span)> {
    choose|parts: Seq<(Seq<char>, Span)>| path_names(parts) && join_parts(parts) == s
}

proof fn lemma_qname_item(s: Seq<char>)
    requires
        wf_qname(s),
    ensures
        path_names(qparts(s)),
        join_parts(qparts(s)) == s,
        flatten(path_pieces(qparts(s))) == s,
        pieces_ok(path_pieces(qparts(s))),
        path_pieces(qparts(s)).len() > 0,
        path_pieces(qparts(s)).last() is Lex,
        path_pieces(qparts(s)).last()->Lex_0 is Ident,
        lexemes(path_pieces(qparts(s))).len() == 2 * qparts(s).len() - 1,
        lexemes(path_pieces(qparts(s)))[0].0 is Ident,
        ints_fit(lexemes(path_pieces(qparts(s)))),
        piece_text(path_pieces(qparts(s))[0])[0] == qparts(s)[0].0[0],
{
    let qp = qparts(s);
    lemma_path_text(qp);
    lemma_path_pieces_ok(qp);
    lemma_path_lexemes(qp);
    let l = lexemes(path_pieces(qp));
    assert(l[2 * 0int] == (TokKindV::Ident, qp[0].0));
    assert forall|j: int| 0 <= j < l.len() && (#[trigger] l[j]).0 is Int implies int_fits(l[j].1) by {
        if j % 2 == 0 {
            assert(l[2 * (j / 2)] == (TokKindV::Ident, qp[j / 2].0));
        } else {
            assert(l[2 * (j / 2) + 1] == (TokKindV::Punct(Punct::Dot), "."@));
        }
    }
    lemma_path_first(qp);
}

proof fn lemma_path_first(parts: Seq<(Seq<char>, Span)>)
    requires
        parts.len() >= 1,
    ensures
        path_pieces(parts)[0] == Piece::Lex(TokKindV::Ident, parts[0].0),
    decreases parts.len(),
{
    if parts.len() > 1 {
        lemma_path_first(parts.drop_last());
        assert(path_pieces(parts.drop_last()).len() > 0) by {
            if parts.drop_last().len() == 1 {
            } else {
                lemma_path_nonempty(parts.drop_last());
            }
        }
    }
}

proof fn lemma_path_nonempty(parts: Seq<(Seq<char>, Span)>)
    requires
        parts.len() >= 1,
    ensures
        path_pieces(parts).len() > 0,
    decreases parts.len(),
{
    if parts.len() > 1 {
        lemma_path_nonempty(parts.drop_last());
    }
}

/// The tokens of a dotted name of names parse into parts that join back
/// into it, when no `.` follows.
proof fn lemma_parse_qname_text(t: Seq<TokV>, k: int, s: Seq<char>)
    requires
        wf_qname(s),
        lexemes_at(t, k, lexemes(path_pieces(qparts(s)))),
        !is_punct(t, k + lexemes(path_pieces(qparts(s))).len(), Punct::Dot),
    ensures
        p_qname(t, k, Seq::empty()) is Ok,
        p_qname(t, k, Seq::empty())->Ok_0.1 == k + lexemes(path_pieces(qparts(s))).len(),
        join_parts(p_qname(t, k, Seq::empty())->Ok_0.0) == s,
        p_qname(t, k, Seq::empty())->Ok_0.0.len() >= 1,
{
    lemma_qname_item(s);
    let qp = qparts(s);
    lemma_parse_qname(t, k, qp, 0, Seq::empty());
    assert(k + 2 * 0 == k);
    let parts2 = p_qname(t, k, Seq::empty())->Ok_0.0;
    lemma_join_erase(parts2);
    lemma_join_erase(qp);
    assert(parts2.len() == erase_path(parts2).len());
}

/// The pieces of an effect.
pub open spec fn effect_pieces(e: (Seq<char>, Span)) -> Seq<Piece> {
    path_pieces(qparts(e.0))
}

/// The pieces of some effects, separated by commas.
pub open spec fn effects_pieces(es: Seq<(Seq<char>, Span)>) -> Seq<Piece>
    decreases es.len(),
{
    if es.len() == 0 {
        Seq::empty()
    } else if es.len() == 1 {
        effect_pieces(es[0])
    } else {
        effects_pieces(es.drop_last()) + comma_sep() + effect_pieces(es.last())
    }
}

/// The lexemes of the effects `es[i..]`.
pub open spec fn effects_lex(es: Seq<(Seq<char>, Span)>, i: int) -> Seq<(TokKindV, Seq<char>)>
    decreases es.len() - i,
{
    if 0 <= i < es.len() {
        sep_lex(i) + lexemes(effect_pieces(es[i])) + effects_lex(es, i + 1)
    } else {
        Seq::empty()
    }
}

/// The lexemes of the effects from `es[i]` on, without a comma before it.
pub open spec fn effects_tail(es: Seq<(Seq<char>, Span)>, i: int) -> Seq<(TokKindV, Seq<char>)> {
    if 0 <= i < es.len() {
        lexemes(effect_pieces(es[i])) + effects_lex(es, i + 1)
    } else {
        Seq::empty()
    }
}

/// An effect the parser reads.
pub open spec fn effect_ok(e: (Seq<char>, Span)) -> bool {
    wf_qname(e.0)
}

/// Effects the parser reads.
pub open spec fn wf_effects(es: Seq<(Seq<char>, Span)>) -> bool {
    forall|i: int| 0 <= i < es.len() ==> effect_ok(#[trigger] es[i])
}

proof fn lemma_effects_text(es: Seq<(Seq<char>, Span)>)
    requires
        wf_effects(es),
    ensures
        flatten(effects_pieces(es)) == join_commas(es.map_values(|e: (Seq<char>, Span)| e.0)),
    decreases es.len(),
{
    let m = es.map_values(|e: (Seq<char>, Span)| e.0);
    if es.len() >= 1 {
        assert(effect_ok(es[es.len() - 1]));
        lemma_qname_item(es.last().0);
        if es.len() == 1 {
            assert(effect_ok(es[0]));
        } else {
            let init = es.drop_last();
            assert(wf_effects(init)) by {
                assert forall|i: int| 0 <= i < init.len() implies effect_ok(#[trigger] init[i]) by {
                    assert(init[i] == es[i]);
                }
            }
            lemma_effects_text(init);
            assert(init.map_values(|e: (Seq<char>, Span)| e.0) =~= m.drop_last());
            lemma_comma_sep();
            lemma_flatten_add(effects_pieces(init) + comma_sep(), effect_pieces(es.last()));
            lemma_flatten_add(effects_pieces(init), comma_sep());
        }
    }
}

proof fn lemma_effects_lex_last(es: Seq<(Seq<char>, Span)>, i: int)
    requires
        0 <= i < es.len(),
    ensures
        effects_lex(es, i) == effects_lex(es.drop_last(), i) + sep_lex(es.len() - 1) + lexemes(effect_pieces(es.last())),
    decreases es.len() - i,
{
    if i == es.len() - 1 {
        assert(effects_lex(es.drop_last(), i) =~= Seq::<(TokKindV, Seq<char>)>::empty());
        assert(effects_lex(es, i + 1) =~= Seq::<(TokKindV, Seq<char>)>::empty());
        assert(effects_lex(es, i) =~= sep_lex(i) + lexemes(effect_pieces(es[i])));
    } else {
        lemma_effects_lex_last(es, i + 1);
        assert(es.drop_last()[i] == es[i]);
    }
}

proof fn lemma_effects_lexemes(es: Seq<(Seq<char>, Span)>)
    ensures
        lexemes(effects_pieces(es)) == effects_lex(es, 0),
    decreases es.len(),
{
    if es.len() == 0 {
        assert(lexemes(Seq::<Piece>::empty()) =~= effects_lex(es, 0));
    } else if es.len() == 1 {
        lemma_effects_lex_last(es, 0);
        assert(effects_lex(es.drop_last(), 0) =~= Seq::<(TokKindV, Seq<char>)>::empty());
        assert(sep_lex(0) =~= Seq::<(TokKindV, Seq<char>)>::empty());
    } else {
        lemma_effects_lexemes(es.drop_last());
        lemma_comma_sep();
        lemma_flatten_add(effects_pieces(es.drop_last()) + comma_sep(), effect_pieces(es.last()));
        lemma_flatten_add(effects_pieces(es.drop_last()), comma_sep());
        lemma_effects_lex_last(es, 0);
    }
}

proof fn lemma_effects_ok(es: Seq<(Seq<char>, Span)>)
    requires
        wf_effects(es),
    ensures
        pieces_ok(effects_pieces(es)),
        es.len() > 0 ==> effects_pieces(es).len() > 0,
        es.len() > 0 ==> effects_pieces(es).last() is Lex && effects_pieces(es).last()->Lex_0 is Ident,
        ints_fit(effects_lex(es, 0)),
    decreases es.len(),
{
    lemma_effects_lexemes(es);
    if es.len() >= 1 {
        assert(effect_ok(es[es.len() - 1]));
        lemma_qname_item(es.last().0);
        if es.len() > 1 {
            let init = es.drop_last();
            assert(wf_effects(init)) by {
                assert forall|i: int| 0 <= i < init.len() implies effect_ok(#[trigger] init[i]) by {
                    assert(init[i] == es[i]);
                }
            }
            lemma_effects_ok(init);
            lemma_effects_lexemes(init);
            lemma_comma_sep();
            reveal_strlit(",");
            let lastp = effects_pieces(init).last();
            assert(!ident_continue(','));
            lemma_pieces_ok_add(effects_pieces(init), comma_sep());
            lemma_pieces_ok_add(effects_pieces(init) + comma_sep(), effect_pieces(es.last()));
            lemma_flatten_add(effects_pieces(init) + comma_sep(), effect_pieces(es.last()));
            lemma_flatten_add(effects_pieces(init), comma_sep());
            lemma_fit_add(lexemes(effects_pieces(init)), lexemes(comma_sep()));
            lemma_fit_add(lexemes(effects_pieces(init)) + lexemes(comma_sep()), lexemes(effect_pieces(es.last())));
        }
    } else {
        assert(effects_lex(es, 0) =~= Seq::<(TokKindV, Seq<char>)>::empty());
    }
}

/// The tokens of some effects and a closing brace parse back into effects
/// with the same texts.
proof fn lemma_parse_effects(t: Seq<TokV>, k: int, es: Seq<(Seq<char>, Span)>, i: int, acc: Seq<(Seq<char>, Span)>)
    requires
        wf_effects(es),
        0 <= i <= es.len(),
        i == es.len() ==> i == 0,
        acc.len() == i,
        forall|j: int| 0 <= j < i ==> (#[trigger] acc[j]).0 == es[j].0,
        lexemes_at(t, k, effects_tail(es, i) + seq![(TokKindV::Punct(Punct::RBrace), "}"@)]),
    ensures
        p_effects(t, k, acc) is Ok,
        p_effects(t, k, acc)->Ok_0.1 == k + effects_tail(es, i).len() + 1,
        p_effects(t, k, acc)->Ok_0.0.len() == es.len(),
        forall|j: int| 0 <= j < es.len() ==> (#[trigger] p_effects(t, k, acc)->Ok_0.0[j]).0 == es[j].0,
    decreases es.len() - i,
{
    let rb = seq![(TokKindV::Punct(Punct::RBrace), "}"@)];
    if i == es.len() {
        assert(effects_tail(es, i) =~= Seq::<(TokKindV, Seq<char>)>::empty());
        assert((t[k + 0].kind, t[k + 0].text) == rb[0]);
    } else {
        let el = lexemes(effect_pieces(es[i]));
        let rest = effects_lex(es, i + 1);
        assert(effect_ok(es[i]));
        lemma_qname_item(es[i].0);
        assert(effects_tail(es, i) + rb =~= el + (rest + rb));
        lemma_lexemes_at_split(t, k, el, rest + rb);
        assert((t[k + 0].kind, t[k + 0].text) == el[0]);
        let k2 = k + el.len();
        if i + 1 < es.len() {
            assert(rest == seq![(TokKindV::Punct(Punct::Comma), ","@)] + effects_tail(es, i + 1));
            assert((t[k2 + 0].kind, t[k2 + 0].text) == (rest + rb)[0]);
        } else {
            assert(rest =~= Seq::<(TokKindV, Seq<char>)>::empty());
            assert((t[k2 + 0].kind, t[k2 + 0].text) == rb[0]);
        }
        lemma_parse_qname_text(t, k, es[i].0);
        let parts = p_qname(t, k, Seq::empty())->Ok_0.0;
        let eff = (join_parts(parts), crate::syntax::parts_span(parts));
        assert forall|x: int| 0 <= x < i + 1 implies (#[trigger] acc.push(eff)[x]).0 == es[x].0 by {
            if x < i {
                assert(acc.push(eff)[x] == acc[x]);
            }
        }
        if i + 1 < es.len() {
            assert(rest + rb =~= seq![(TokKindV::Punct(Punct::Comma), ","@)] + (effects_tail(es, i + 1) + rb));
            lemma_lexemes_at_split(t, k2, seq![(TokKindV::Punct(Punct::Comma), ","@)], effects_tail(es, i + 1) + rb);
            lemma_parse_effects(t, k2 + 1, es, i + 1, acc.push(eff));
        }
    }
}

proof fn lemma_flat4(a: Piece, b: Piece, c: Piece, d: Piece)
    ensures
        flatten(seq![a, b, c, d]) == piece_text(a) + piece_text(b) + piece_text(c) + piece_text(d),
        lexemes(seq![a, b, c, d]) == lexemes(seq![a]) + lexemes(seq![b]) + lexemes(seq![c]) + lexemes(seq![d]),
{
    assert(seq![a, b, c, d] =~= seq![a, b, c] + seq![d]);
    lemma_flatten_add(seq![a, b, c], seq![d]);
    lemma_flat3(a, b, c);
    lemma_flatten_one(d);
}

proof fn lemma_flat5(a: Piece, b: Piece, c: Piece, d: Piece, e: Piece)
    ensures
        flatten(seq![a, b, c, d, e]) == piece_text(a) + piece_text(b) + piece_text(c) + piece_text(d) + piece_text(e),
        lexemes(seq![a, b, c, d, e]) == lexemes(seq![a]) + lexemes(seq![b]) + lexemes(seq![c]) + lexemes(seq![d])
            + lexemes(seq![e]),
{
    assert(seq![a, b, c, d, e] =~= seq![a, b, c, d] + seq![e]);
    lemma_flatten_add(seq![a, b, c, d], seq![e]);
    lemma_flat4(a, b, c, d);
    lemma_flatten_one(e);
}

/// The pieces of the `pub` marker of a function.
pub open spec fn pub_pieces(public: bool) -> Seq<Piece> {
    if public {
        seq![Piece::Lex(TokKindV::Ident, "pub"@), space()]
    } else {
        Seq::empty()
    }
}

/// The pieces of the effect row of a function.
pub open spec fn effects_block(es: Seq<(Seq<char>, Span)>) -> Seq<Piece> {
    if es.len() == 0 {
        Seq::empty()
    } else {
        seq![space(), punct(Punct::Bang, "!"@), space(), punct(Punct::LBrace, "{"@), space()] + effects_pieces(es)
            + seq![space(), punct(Punct::RBrace, "}"@)]
    }
}

/// The pieces of the head of a function, up to its opening parenthesis.
pub open spec fn fn_head(f: FunctionV) -> Seq<Piece> {
    seq![Piece::Gap(seq!['\n'])] + pub_pieces(f.public) + seq![
        Piece::Lex(TokKindV::Ident, "fn"@),
        space(),
        Piece::Lex(TokKindV::Ident, f.name),
        punct(Punct::LParen, "("@),
    ]
}

/// The pieces of a function's signature between its parameters and its body.
pub open spec fn fn_mid(f: FunctionV) -> Seq<Piece> {
    seq![
        punct(Punct::RParen, ")"@),
        space(),
        punct(Punct::Arrow, "->"@),
        space(),
        Piece::Lex(TokKindV::Ident, f.return_type),
    ] + effects_block(f.effects) + seq![space(), punct(Punct::LBrace, "{"@), Piece::Gap(seq!['\n'])]
}

/// The pieces of a function.
pub open spec fn fn_pieces(f: FunctionV) -> Seq<Piece> {
    fn_head(f) + params_pieces(f.params) + fn_mid(f) + stmts_pieces(f.body) + seq![
        punct(Punct::RBrace, "}"@),
        Piece::Gap(seq!['\n']),
    ]
}

/// The lexemes of a function.
pub open spec fn fn_lex(f: FunctionV) -> Seq<(TokKindV, Seq<char>)> {
    (if f.public {
        seq![(TokKindV::Ident, "pub"@)]
    } else {
        Seq::empty()
    }) + seq![(TokKindV::Ident, "fn"@), (TokKindV::Ident, f.name), (TokKindV::Punct(Punct::LParen), "("@)]
        + params_lex(f.params, 0) + seq![
        (TokKindV::Punct(Punct::RParen), ")"@),
        (TokKindV::Punct(Punct::Arrow), "->"@),
        (TokKindV::Ident, f.return_type),
    ] + (if f.effects.len() == 0 {
        Seq::empty()
    } else {
        seq![(TokKindV::Punct(Punct::Bang), "!"@), (TokKindV::Punct(Punct::LBrace), "{"@)] + effects_lex(f.effects, 0)
            + seq![(TokKindV::Punct(Punct::RBrace), "}"@)]
    }) + seq![(TokKindV::Punct(Punct::LBrace), "{"@)] + stmts_lex(f.body, 0) + seq![
        (TokKindV::Punct(Punct::RBrace), "}"@),
    ]
}

/// A function the parser reads.
pub open spec fn wf_fn(f: FunctionV) -> bool {
    &&& name_text(f.name)
    &&& wf_params(f.params)
    &&& name_text(f.return_type)
    &&& wf_effects(f.effects)
    &&& wf_body(f.body)
}

/// The text of the effect row of a function.
pub open spec fn effects_text(es: Seq<(Seq<char>, Span)>) -> Seq<char> {
    if es.len() == 0 {
        Seq::empty()
    } else {
        " ! { "@ + join_commas(es.map_values(|e: (Seq<char>, Span)| e.0)) + " }"@
    }
}

/// The lexemes of the effect row of a function.
pub open spec fn effects_block_lex(es: Seq<(Seq<char>, Span)>) -> Seq<(TokKindV, Seq<char>)> {
    if es.len() == 0 {
        Seq::empty()
    } else {
        seq![(TokKindV::Punct(Punct::Bang), "!"@), (TokKindV::Punct(Punct::LBrace), "{"@)] + effects_lex(es, 0) + seq![
            (TokKindV::Punct(Punct::RBrace), "}"@),
        ]
    }
}

proof fn lemma_fn_head(f: FunctionV)
    ensures
        flatten(fn_head(f)) == seq!['\n'] + (if f.public { "pub "@ } else { Seq::empty() }) + "fn "@ + f.name
            + seq!['('],
        lexemes(fn_head(f)) == (if f.public {
            seq![(TokKindV::Ident, "pub"@)]
        } else {
            Seq::empty()
        }) + seq![(TokKindV::Ident, "fn"@), (TokKindV::Ident, f.name), (TokKindV::Punct(Punct::LParen), "("@)],
{
    reveal_strlit("pub ");
    reveal_strlit("pub");
    reveal_strlit("fn ");
    reveal_strlit("fn");
    reveal_strlit("(");
    let g = Piece::Gap(seq!['\n']);
    let pp = pub_pieces(f.public);
    let h3 = seq![Piece::Lex(TokKindV::Ident, "fn"@), space(), Piece::Lex(TokKindV::Ident, f.name), punct(Punct::LParen, "("@)];
    lemma_flatten_add(seq![g] + pp, h3);
    lemma_flatten_add(seq![g], pp);
    lemma_flatten_one(g);
    lemma_flat4(Piece::Lex(TokKindV::Ident, "fn"@), space(), Piece::Lex(TokKindV::Ident, f.name), punct(Punct::LParen, "("@));
    lemma_flatten_one(Piece::Lex(TokKindV::Ident, "fn"@));
    lemma_flatten_one(space());
    lemma_flatten_one(Piece::Lex(TokKindV::Ident, f.name));
    lemma_flatten_one(punct(Punct::LParen, "("@));
    if f.public {
        lemma_flat2(Piece::Lex(TokKindV::Ident, "pub"@), space());
        lemma_flatten_one(Piece::Lex(TokKindV::Ident, "pub"@));
        assert(flatten(pp) =~= "pub "@);
        assert(lexemes(pp) =~= seq![(TokKindV::Ident, "pub"@)]);
    } else {
        assert(flatten(pp) =~= Seq::<char>::empty());
        assert(lexemes(pp) =~= Seq::<(TokKindV, Seq<char>)>::empty());
    }
    assert(flatten(h3) =~= "fn "@ + f.name + seq!['(']);
    assert(lexemes(h3) =~= seq![(TokKindV::Ident, "fn"@), (TokKindV::Ident, f.name), (TokKindV::Punct(Punct::LParen), "("@)]);
    assert(lexemes(seq![g]) =~= Seq::<(TokKindV, Seq<char>)>::empty());
    assert(flatten(seq![g]) =~= seq!['\n']);
}

proof fn lemma_effects_block(es: Seq<(Seq<char>, Span)>)
    requires
        wf_effects(es),
    ensures
        flatten(effects_block(es)) == effects_text(es),
        lexemes(effects_block(es)) == effects_block_lex(es),
{
    reveal_strlit(" ! { ");
    reveal_strlit("!");
    reveal_strlit("{");
    reveal_strlit(" }");
    reveal_strlit("}");
    if es.len() > 0 {
        let e5 = seq![space(), punct(Punct::Bang, "!"@), space(), punct(Punct::LBrace, "{"@), space()];
        let e2 = seq![space(), punct(Punct::RBrace, "}"@)];
        lemma_flatten_add(e5 + effects_pieces(es), e2);
        lemma_flatten_add(e5, effects_pieces(es));
        lemma_flat5(space(), punct(Punct::Bang, "!"@), space(), punct(Punct::LBrace, "{"@), space());
        lemma_flatten_one(punct(Punct::Bang, "!"@));
        lemma_flatten_one(punct(Punct::LBrace, "{"@));
        lemma_flatten_one(space());
        lemma_flat2(space(), punct(Punct::RBrace, "}"@));
        lemma_flatten_one(punct(Punct::RBrace, "}"@));
        lemma_effects_text(es);
        lemma_effects_lexemes(es);
        assert(flatten(e5) =~= " ! { "@);
        assert(flatten(e2) =~= " }"@);
        assert(lexemes(e5) =~= seq![(TokKindV::Punct(Punct::Bang), "!"@), (TokKindV::Punct(Punct::LBrace), "{"@)]);
        assert(lexemes(e2) =~= seq![(TokKindV::Punct(Punct::RBrace), "}"@)]);
    } else {
        assert(flatten(effects_block(es)) =~= Seq::<char>::empty());
        assert(lexemes(effects_block(es)) =~= Seq::<(TokKindV, Seq<char>)>::empty());
    }
}

proof fn lemma_fn_mid(f: FunctionV)
    requires
        wf_effects(f.effects),
    ensures
        flatten(fn_mid(f)) == ") -> "@ + f.return_type + effects_text(f.effects) + " {\n"@,
        lexemes(fn_mid(f)) == seq![
            (TokKindV::Punct(Punct::RParen), ")"@),
            (TokKindV::Punct(Punct::Arrow), "->"@),
            (TokKindV::Ident, f.return_type),
        ] + effects_block_lex(f.effects) + seq![(TokKindV::Punct(Punct::LBrace), "{"@)],
{
    reveal_strlit(") -> ");
    reveal_strlit("->");
    reveal_strlit(")");
    reveal_strlit("{");
    reveal_strlit(" {\n");
    let g = Piece::Gap(seq!['\n']);
    let m5 = seq![
        punct(Punct::RParen, ")"@),
        space(),
        punct(Punct::Arrow, "->"@),
        space(),
        Piece::Lex(TokKindV::Ident, f.return_type),
    ];
    let eb = effects_block(f.effects);
    let m3 = seq![space(), punct(Punct::LBrace, "{"@), g];
    lemma_flatten_add(m5 + eb, m3);
    lemma_flatten_add(m5, eb);
    lemma_flat5(
        punct(Punct::RParen, ")"@),
        space(),
        punct(Punct::Arrow, "->"@),
        space(),
        Piece::Lex(TokKindV::Ident, f.return_type),
    );
    lemma_flatten_one(punct(Punct::RParen, ")"@));
    lemma_flatten_one(punct(Punct::Arrow, "->"@));
    lemma_flatten_one(space());
    lemma_flatten_one(Piece::Lex(TokKindV::Ident, f.return_type));
    lemma_flat3(space(), punct(Punct::LBrace, "{"@), g);
    lemma_flatten_one(punct(Punct::LBrace, "{"@));
    lemma_flatten_one(g);
    lemma_effects_block(f.effects);
    assert(flatten(m5) =~= ") -> "@ + f.return_type);
    assert(flatten(m3) =~= " {\n"@);
    assert(lexemes(m5) =~= seq![
        (TokKindV::Punct(Punct::RParen), ")"@),
        (TokKindV::Punct(Punct::Arrow), "->"@),
        (TokKindV::Ident, f.return_type),
    ]);
    assert(lexemes(m3) =~= seq![(TokKindV::Punct(Punct::LBrace), "{"@)]);
}

proof fn lemma_fn_tail()
    ensures
        flatten(seq![punct(Punct::RBrace, "}"@), Piece::Gap(seq!['\n'])]) == "}\n"@,
        lexemes(seq![punct(Punct::RBrace, "}"@), Piece::Gap(seq!['\n'])]) == seq![(TokKindV::Punct(Punct::RBrace), "}"@)],
{
    reveal_strlit("}");
    reveal_strlit("}\n");
    lemma_flat2(punct(Punct::RBrace, "}"@), Piece::Gap(seq!['\n']));
    lemma_flatten_one(punct(Punct::RBrace, "}"@));
    lemma_flatten_one(Piece::Gap(seq!['\n']));
    assert(flatten(seq![punct(Punct::RBrace, "}"@), Piece::Gap(seq!['\n'])]) =~= "}\n"@);
    assert(lexemes(seq![punct(Punct::RBrace, "}"@), Piece::Gap(seq!['\n'])]) =~= seq![
        (TokKindV::Punct(Punct::RBrace), "}"@),
    ]);
}

proof fn lemma_fn_text(f: FunctionV)
    requires
        wf_effects(f.effects),
    ensures
        flatten(fn_pieces(f)) == fmt_function(f),
        lexemes(fn_pieces(f)) == fn_lex(f),
{
    let tail = seq![punct(Punct::RBrace, "}"@), Piece::Gap(seq!['\n'])];
    lemma_fn_head(f);
    lemma_fn_mid(f);
    lemma_fn_tail();
    lemma_params_text(f.params);
    lemma_params_lexemes(f.params);
    lemma_stmts_text(f.body);
    lemma_stmts_lexemes(f.body);
    let head = fn_head(f);
    let mid = fn_mid(f);
    lemma_flatten_add(head + params_pieces(f.params) + mid + stmts_pieces(f.body), tail);
    lemma_flatten_add(head + params_pieces(f.params) + mid, stmts_pieces(f.body));
    lemma_flatten_add(head + params_pieces(f.params), mid);
    lemma_flatten_add(head, params_pieces(f.params));
    assert(flatten(fn_pieces(f)) =~= fmt_function(f));
    assert(lexemes(fn_pieces(f)) =~= fn_lex(f));
}
proof fn lemma_fn_punct_ok()
    ensures
        piece_ok(Piece::Lex(TokKindV::Ident, "fn"@)),
        piece_ok(Piece::Lex(TokKindV::Ident, "pub"@)),
        piece_ok(punct(Punct::Arrow, "->"@)),
        piece_ok(punct(Punct::Bang, "!"@)),
        piece_ends_clean(Piece::Lex(TokKindV::Ident, "fn"@), ' '),
        piece_ends_clean(Piece::Lex(TokKindV::Ident, "pub"@), ' '),
        forall|c: char| #[trigger] piece_ends_clean(punct(Punct::Arrow, "->"@), c),
        piece_ends_clean(punct(Punct::Bang, "!"@), ' '),
        forall|c: char| #[trigger] piece_ends_clean(punct(Punct::RParen, ")"@), c),
        forall|c: char| #[trigger] piece_ends_clean(punct(Punct::RBrace, "}"@), c),
{
    reveal_strlit("fn");
    reveal_strlit("pub");
    reveal_strlit("->");
    reveal_strlit("!");
    reveal_strlit(")");
    reveal_strlit("}");
}

proof fn lemma_fn_head_ok(f: FunctionV)
    requires
        name_text(f.name),
    ensures
        pieces_ok(fn_head(f)),
        fn_head(f).last() == punct(Punct::LParen, "("@),
        fn_head(f)[0] == Piece::Gap(seq!['\n']),
{
    lemma_punct_ok();
    lemma_fn_punct_ok();
    let g = Piece::Gap(seq!['\n']);
    let pp = pub_pieces(f.public);
    let h3 = seq![Piece::Lex(TokKindV::Ident, "fn"@), space(), Piece::Lex(TokKindV::Ident, f.name), punct(Punct::LParen, "("@)];
    lemma_ok_lit(seq![g]);
    lemma_ok_lit(pp);
    lemma_ok_lit(h3);
    lemma_pieces_ok_add(seq![g], pp);
    if f.public {
        assert((seq![g] + pp).last() == space());
    } else {
        assert(seq![g] + pp =~= seq![g]);
    }
    lemma_pieces_ok_add(seq![g] + pp, h3);
    assert(fn_head(f) == seq![g] + pp + h3);
}

proof fn lemma_fn_mid_ok(f: FunctionV)
    requires
        name_text(f.return_type),
        wf_effects(f.effects),
    ensures
        pieces_ok(fn_mid(f)),
        fn_mid(f)[0] == punct(Punct::RParen, ")"@),
        fn_mid(f).last() == Piece::Gap(seq!['\n']),
{
    lemma_punct_ok();
    lemma_fn_punct_ok();
    let g = Piece::Gap(seq!['\n']);
    let m5 = seq![
        punct(Punct::RParen, ")"@),
        space(),
        punct(Punct::Arrow, "->"@),
        space(),
        Piece::Lex(TokKindV::Ident, f.return_type),
    ];
    let eb = effects_block(f.effects);
    let m3 = seq![space(), punct(Punct::LBrace, "{"@), g];
    lemma_ok_lit(m5);
    lemma_ok_lit(m3);
    lemma_effects_ok(f.effects);
    if f.effects.len() > 0 {
        let e5 = seq![space(), punct(Punct::Bang, "!"@), space(), punct(Punct::LBrace, "{"@), space()];
        let e2 = seq![space(), punct(Punct::RBrace, "}"@)];
        lemma_ok_lit(e5);
        lemma_ok_lit(e2);
        lemma_pieces_ok_add(e5, effects_pieces(f.effects));
        lemma_closing_clean(effects_pieces(f.effects).last(), ' ');
        assert((e5 + effects_pieces(f.effects)).last() == effects_pieces(f.effects).last());
        lemma_pieces_ok_add(e5 + effects_pieces(f.effects), e2);
        lemma_pieces_ok_add(m5, eb);
        assert((m5 + eb).last() == punct(Punct::RBrace, "}"@));
    } else {
        assert(m5 + eb =~= m5);
    }
    lemma_pieces_ok_add(m5 + eb, m3);
    assert(fn_mid(f) == m5 + eb + m3);
}

/// `pieces_ok`, held folded so that long joins stay cheap to check.
#[verifier::opaque]
pub open spec fn pieces_fine(ps: Seq<Piece>) -> bool {
    pieces_ok(ps)
}

proof fn lemma_fine(ps: Seq<Piece>)
    requires
        pieces_ok(ps),
    ensures
        pieces_fine(ps),
{
    reveal(pieces_fine);
}

proof fn lemma_fine_add(a: Seq<Piece>, b: Seq<Piece>)
    requires
        pieces_fine(a),
        pieces_fine(b),
        a.len() > 0 && b.len() > 0 ==> piece_ends_clean(a.last(), piece_text(b[0])[0]),
    ensures
        pieces_fine(a + b),
{
    reveal(pieces_fine);
    lemma_pieces_ok_add(a, b);
}

proof fn lemma_ok_join5(a: Seq<Piece>, b: Seq<Piece>, c: Seq<Piece>, d: Seq<Piece>, e: Seq<Piece>)
    requires
        pieces_fine(a),
        pieces_fine(b),
        pieces_fine(c),
        pieces_fine(d),
        pieces_fine(e),
        a.len() > 0,
        c.len() > 0,
        e.len() > 0,
        c.last() is Gap,
        d.len() > 0 ==> d.last() is Gap,
        b.len() > 0 ==> piece_ends_clean(a.last(), piece_text(b[0])[0]),
        b.len() > 0 ==> piece_ends_clean(b.last(), piece_text(c[0])[0]),
        b.len() == 0 ==> piece_ends_clean(a.last(), piece_text(c[0])[0]),
    ensures
        pieces_fine(a + b + c + d + e),
        (a + b + c + d + e)[0] == a[0],
        (a + b + c + d + e).last() == e.last(),
{
    lemma_fine_add(a, b);
    let ab = a + b;
    if b.len() > 0 {
        assert(ab.last() == b.last());
    } else {
        assert(ab =~= a);
    }
    lemma_fine_add(ab, c);
    let abc = ab + c;
    assert(abc.last() == c.last());
    lemma_fine_add(abc, d);
    let abcd = abc + d;
    if d.len() > 0 {
        assert(abcd.last() == d.last());
    } else {
        assert(abcd =~= abc);
    }
    lemma_fine_add(abcd, e);
    assert((abcd + e)[0] == a[0]);
}

proof fn lemma_fn_ok(f: FunctionV)
    requires
        wf_fn(f),
    ensures
        pieces_fine(fn_pieces(f)),
        fn_pieces(f).len() > 0,
        fn_pieces(f).last() == Piece::Gap(seq!['\n']),
        fn_pieces(f)[0] == Piece::Gap(seq!['\n']),
{
    let g = Piece::Gap(seq!['\n']);
    let tail = seq![punct(Punct::RBrace, "}"@), g];
    assert(pieces_fine(fn_head(f)) && fn_head(f).last() == punct(Punct::LParen, "("@) && fn_head(f)[0] == g) by {
        lemma_fn_head_ok(f);
        lemma_fine(fn_head(f));
    }
    assert(pieces_fine(fn_mid(f)) && fn_mid(f)[0] == punct(Punct::RParen, ")"@) && fn_mid(f).last() == g) by {
        lemma_fn_mid_ok(f);
        lemma_fine(fn_mid(f));
    }
    assert(pieces_fine(params_pieces(f.params)) && (f.params.len() > 0 ==> params_pieces(f.params).last() == Piece::Lex(
        TokKindV::Ident,
        f.params.last().ty_name,
    ))) by {
        lemma_params_ok(f.params);
        lemma_fine(params_pieces(f.params));
    }
    assert(pieces_fine(stmts_pieces(f.body)) && (f.body.len() > 0 ==> stmts_pieces(f.body).last() == g)) by {
        lemma_stmts_pieces_ok(f.body);
        lemma_fine(stmts_pieces(f.body));
    }
    assert(pieces_fine(tail)) by {
        lemma_punct_ok();
        lemma_ok_lit(tail);
        lemma_fine(tail);
    }
    assert(forall|c: char| #[trigger] piece_ends_clean(punct(Punct::LParen, "("@), c)) by {
        lemma_punct_ok();
    }
    assert(piece_text(fn_mid(f)[0])[0] == ')') by {
        reveal_strlit(")");
    }
    assert(f.params.len() > 0 ==> params_pieces(f.params).len() > 0);
    lemma_ok_join5(fn_head(f), params_pieces(f.params), fn_mid(f), stmts_pieces(f.body), tail);
}

proof fn lemma_fn_fits(f: FunctionV)
    requires
        wf_fn(f),
    ensures
        ints_fit(fn_lex(f)),
{
    reveal_strlit("pub");
    reveal_strlit("fn");
    lemma_stmts_fit(f.body, 0);
    lemma_params_ok(f.params);
    lemma_effects_ok(f.effects);
    let lp = if f.public {
        seq![(TokKindV::Ident, "pub"@)]
    } else {
        Seq::<(TokKindV, Seq<char>)>::empty()
    };
    let l1 = seq![(TokKindV::Ident, "fn"@), (TokKindV::Ident, f.name), (TokKindV::Punct(Punct::LParen), "("@)];
    let l2 = seq![
        (TokKindV::Punct(Punct::RParen), ")"@),
        (TokKindV::Punct(Punct::Arrow), "->"@),
        (TokKindV::Ident, f.return_type),
    ];
    let l3 = effects_block_lex(f.effects);
    let l4 = seq![(TokKindV::Punct(Punct::LBrace), "{"@)];
    let l5 = seq![(TokKindV::Punct(Punct::RBrace), "}"@)];
    assert(ints_fit(l3)) by {
        if f.effects.len() > 0 {
            let b2 = seq![(TokKindV::Punct(Punct::Bang), "!"@), (TokKindV::Punct(Punct::LBrace), "{"@)];
            lemma_fit_add(b2, effects_lex(f.effects, 0));
            lemma_fit_add(b2 + effects_lex(f.effects, 0), l5);
        }
    }
    lemma_fit_add(lp, l1);
    lemma_fit_add(lp + l1, params_lex(f.params, 0));
    lemma_fit_add(lp + l1 + params_lex(f.params, 0), l2);
    lemma_fit_add(lp + l1 + params_lex(f.params, 0) + l2, l3);
    lemma_fit_add(lp + l1 + params_lex(f.params, 0) + l2 + l3, l4);
    lemma_fit_add(lp + l1 + params_lex(f.params, 0) + l2 + l3 + l4, stmts_lex(f.body, 0));
    lemma_fit_add(lp + l1 + params_lex(f.params, 0) + l2 + l3 + l4 + stmts_lex(f.body, 0), l5);
    assert(fn_lex(f) == lp + l1 + params_lex(f.params, 0) + l2 + l3 + l4 + stmts_lex(f.body, 0) + l5);
}

proof fn lemma_lexemes_at_join(t: Seq<TokV>, k: int, a: Seq<(TokKindV, Seq<char>)>, b: Seq<(TokKindV, Seq<char>)>)
    requires
        lexemes_at(t, k, a),
        lexemes_at(t, k + a.len(), b),
    ensures
        lexemes_at(t, k, a + b),
{
    assert forall|j: int| 0 <= j < (a + b).len() implies (t[k + j].kind, t[k + j].text) == #[trigger] (a + b)[j] by {
        if j < a.len() {
            assert((a + b)[j] == a[j]);
        } else {
            assert((a + b)[j] == b[j - a.len()]);
            assert((t[k + a.len() + (j - a.len())].kind, t[k + a.len() + (j - a.len())].text) == b[j - a.len()]);
        }
    }
}

proof fn lemma_fmt_stmts_same(a: Seq<StmtV>, b: Seq<StmtV>)
    requires
        a.len() == b.len(),
        forall|j: int| 0 <= j < a.len() ==> fmt_stmt(#[trigger] a[j]) == fmt_stmt(b[j]),
    ensures
        fmt_stmts(a) == fmt_stmts(b),
    decreases a.len(),
{
    if a.len() > 0 {
        let a1 = a.drop_last();
        let b1 = b.drop_last();
        assert forall|j: int| 0 <= j < a1.len() implies fmt_stmt(#[trigger] a1[j]) == fmt_stmt(b1[j]) by {
            assert(a1[j] == a[j] && b1[j] == b[j]);
        }
        lemma_fmt_stmts_same(a1, b1);
        assert(fmt_stmt(a[a.len() - 1]) == fmt_stmt(b[a.len() - 1]));
    }
}

proof fn lemma_params_tail_zero(ps: Seq<ParamV>)
    ensures
        params_tail(ps, 0) == params_lex(ps, 0),
{
    if ps.len() > 0 {
        assert(sep_lex(0) + param_lex(ps[0]) =~= param_lex(ps[0]));
    }
}

proof fn lemma_effects_tail_zero(es: Seq<(Seq<char>, Span)>)
    ensures
        effects_tail(es, 0) == effects_lex(es, 0),
{
    if es.len() > 0 {
        assert(sep_lex(0) + lexemes(effect_pieces(es[0])) =~= lexemes(effect_pieces(es[0])));
    }
}

/// The tokens of a signature's parameters, up to the closing parenthesis,
/// parse back into parameters with the same texts.
proof fn lemma_parse_fn_params(t: Seq<TokV>, j: int, f: FunctionV, module: Seq<char>)
    requires
        wf_fn(f),
        lexemes_at(t, j, params_lex(f.params, 0) + seq![(TokKindV::Punct(Punct::RParen), ")"@)]),
    ensures
        p_params(t, j, module, f.name, Seq::empty()) is Ok,
        p_params(t, j, module, f.name, Seq::empty())->Ok_0.1 == j + params_lex(f.params, 0).len() + 1,
        p_params(t, j, module, f.name, Seq::empty())->Ok_0.0.map_values(|p: ParamV| fmt_param(p))
            == f.params.map_values(|p: ParamV| fmt_param(p)),
{
    lemma_params_tail_zero(f.params);
    lemma_parse_params(t, j, f.params, 0, module, f.name, Seq::empty());
    let got = p_params(t, j, module, f.name, Seq::empty())->Ok_0.0;
    assert(got.map_values(|p: ParamV| fmt_param(p)) =~= f.params.map_values(|p: ParamV| fmt_param(p)));
}

/// The tokens of an effect row parse back into effects with the same texts.
proof fn lemma_parse_fn_effects(t: Seq<TokV>, j: int, es: Seq<(Seq<char>, Span)>)
    requires
        wf_effects(es),
        lexemes_at(t, j, effects_block_lex(es) + seq![(TokKindV::Punct(Punct::LBrace), "{"@)]),
    ensures
        p_effect_row(t, j) is Ok,
        p_effect_row(t, j)->Ok_0.1 == j + effects_block_lex(es).len(),
        p_effect_row(t, j)->Ok_0.0.map_values(|e: (Seq<char>, Span)| e.0) == es.map_values(
            |e: (Seq<char>, Span)| e.0,
        ),
{
    let lb = seq![(TokKindV::Punct(Punct::LBrace), "{"@)];
    if es.len() == 0 {
        assert(effects_block_lex(es) + lb =~= lb);
        assert((t[j + 0].kind, t[j + 0].text) == lb[0]);
        assert(p_effect_row(t, j)->Ok_0.0 =~= Seq::<(Seq<char>, Span)>::empty());
        assert(es.map_values(|e: (Seq<char>, Span)| e.0) =~= Seq::<Seq<char>>::empty());
        assert(p_effect_row(t, j)->Ok_0.0.map_values(|e: (Seq<char>, Span)| e.0) =~= Seq::<Seq<char>>::empty());
    } else {
        let b2 = seq![(TokKindV::Punct(Punct::Bang), "!"@), (TokKindV::Punct(Punct::LBrace), "{"@)];
        let rb = seq![(TokKindV::Punct(Punct::RBrace), "}"@)];
        let el = effects_lex(es, 0);
        assert(effects_block_lex(es) + lb =~= b2 + ((el + rb) + lb));
        lemma_lexemes_at_split(t, j, b2, (el + rb) + lb);
        lemma_lexemes_at_split(t, j + 2, el + rb, lb);
        assert((t[j + 0].kind, t[j + 0].text) == b2[0]);
        assert((t[j + 1].kind, t[j + 1].text) == b2[1]);
        lemma_effects_tail_zero(es);
        lemma_parse_effects(t, j + 2, es, 0, Seq::empty());
        let got = p_effects(t, j + 2, Seq::empty())->Ok_0.0;
        assert(p_effect_row(t, j) == p_effects(t, j + 2, Seq::empty()));
        assert(got.map_values(|e: (Seq<char>, Span)| e.0) =~= es.map_values(|e: (Seq<char>, Span)| e.0));
    }
}

/// The tokens of a function's canonical text parse back into a function
/// with the same canonical text.
#[verifier::rlimit(60)]
proof fn lemma_parse_function(t: Seq<TokV>, k: int, f: FunctionV, module: Seq<char>)
    requires
        wf_fn(f),
        lexemes_at(t, k, fn_lex(f)),
    ensures
        p_function(t, k, module) is Ok,
        p_function(t, k, module)->Ok_0.1 == k + fn_lex(f).len(),
        fmt_function(p_function(t, k, module)->Ok_0.0) == fmt_function(f),
{
    reveal_strlit("pub");
    reveal_strlit("fn");
    let lp = if f.public {
        seq![(TokKindV::Ident, "pub"@)]
    } else {
        Seq::<(TokKindV, Seq<char>)>::empty()
    };
    let l1 = seq![(TokKindV::Ident, "fn"@), (TokKindV::Ident, f.name), (TokKindV::Punct(Punct::LParen), "("@)];
    let pl = params_lex(f.params, 0);
    let l2 = seq![
        (TokKindV::Punct(Punct::RParen), ")"@),
        (TokKindV::Punct(Punct::Arrow), "->"@),
        (TokKindV::Ident, f.return_type),
    ];
    let l3 = effects_block_lex(f.effects);
    let l4 = seq![(TokKindV::Punct(Punct::LBrace), "{"@)];
    let sl = stmts_lex(f.body, 0);
    let l5 = seq![(TokKindV::Punct(Punct::RBrace), "}"@)];
    assert(fn_lex(f) == lp + l1 + pl + l2 + l3 + l4 + sl + l5);
    lemma_lexemes_at_split(t, k, lp + l1 + pl + l2 + l3 + l4 + sl, l5);
    lemma_lexemes_at_split(t, k, lp + l1 + pl + l2 + l3 + l4, sl);
    lemma_lexemes_at_split(t, k, lp + l1 + pl + l2 + l3, l4);
    lemma_lexemes_at_split(t, k, lp + l1 + pl + l2, l3);
    lemma_lexemes_at_split(t, k, lp + l1 + pl, l2);
    lemma_lexemes_at_split(t, k, lp + l1, pl);
    lemma_lexemes_at_split(t, k, lp, l1);
    let j = k + lp.len();
    assert((t[j + 0].kind, t[j + 0].text) == l1[0]);
    assert((t[j + 1].kind, t[j + 1].text) == l1[1]);
    assert((t[j + 2].kind, t[j + 2].text) == l1[2]);
    if f.public {
        assert((t[k + 0].kind, t[k + 0].text) == lp[0]);
    } else {
        assert("fn"@ != "pub"@) by {
            assert("fn"@[0] != "pub"@[0]);
        }
    }
    let jp = j + 3;
    assert(l2.take(1) =~= seq![(TokKindV::Punct(Punct::RParen), ")"@)]);
    assert(lexemes_at(t, jp + pl.len(), l2.take(1))) by {
        assert((t[jp + pl.len() + 0].kind, t[jp + pl.len() + 0].text) == l2[0]);
    }
    lemma_lexemes_at_join(t, jp, pl, l2.take(1));
    lemma_parse_fn_params(t, jp, f, module);
    let j2 = jp + pl.len() + 1;
    assert((t[j2 + 0].kind, t[j2 + 0].text) == l2[1]);
    assert((t[j2 + 1].kind, t[j2 + 1].text) == l2[2]);
    lemma_lexemes_at_join(t, j2 + 2, l3, l4);
    lemma_parse_fn_effects(t, j2 + 2, f.effects);
    let j4 = j2 + 2 + l3.len();
    assert((t[j4 + 0].kind, t[j4 + 0].text) == l4[0]);
    lemma_lexemes_at_join(t, j4 + 1, sl, l5);
    lemma_parse_stmts(t, j4 + 1, f.body, 0, module, f.name, Seq::empty(), 0);
    let got = p_function(t, k, module)->Ok_0.0;
    lemma_fmt_stmts_same(got.body, f.body);
}

/// The pieces of some functions, one after the other.
pub open spec fn fns_pieces(fs: Seq<FunctionV>) -> Seq<Piece>
    decreases fs.len(),
{
    if fs.len() == 0 {
        Seq::empty()
    } else {
        fns_pieces(fs.drop_last()) + fn_pieces(fs.last())
    }
}

/// The lexemes of the functions `fs[i..]`.
pub open spec fn fns_lex(fs: Seq<FunctionV>, i: int) -> Seq<(TokKindV, Seq<char>)>
    decreases fs.len() - i,
{
    if 0 <= i < fs.len() {
        fn_lex(fs[i]) + fns_lex(fs, i + 1)
    } else {
        Seq::empty()
    }
}

/// Functions the parser reads.
pub open spec fn wf_fns(fs: Seq<FunctionV>) -> bool {
    forall|i: int| 0 <= i < fs.len() ==> wf_fn(#[trigger] fs[i])
}

proof fn lemma_wf_fns_init(fs: Seq<FunctionV>)
    requires
        wf_fns(fs),
        fs.len() > 0,
    ensures
        wf_fns(fs.drop_last()),
        wf_fn(fs.last()),
{
    assert forall|i: int| 0 <= i < fs.drop_last().len() implies wf_fn(#[trigger] fs.drop_last()[i]) by {
        assert(fs.drop_last()[i] == fs[i]);
    }
    assert(wf_fn(fs[fs.len() - 1]));
}

proof fn lemma_fns_lex_last(fs: Seq<FunctionV>, i: int)
    requires
        0 <= i < fs.len(),
    ensures
        fns_lex(fs, i) == fns_lex(fs.drop_last(), i) + fn_lex(fs.last()),
    decreases fs.len() - i,
{
    if i == fs.len() - 1 {
        assert(fns_lex(fs.drop_last(), i) =~= Seq::<(TokKindV, Seq<char>)>::empty());
        assert(fns_lex(fs, i + 1) =~= Seq::<(TokKindV, Seq<char>)>::empty());
        assert(fns_lex(fs, i) =~= fn_lex(fs.last()));
    } else {
        lemma_fns_lex_last(fs, i + 1);
        assert(fs.drop_last()[i] == fs[i]);
        assert(fn_lex(fs[i]) + (fns_lex(fs.drop_last(), i + 1) + fn_lex(fs.last())) =~= fn_lex(fs[i]) + fns_lex(
            fs.drop_last(),
            i + 1,
        ) + fn_lex(fs.last()));
    }
}

proof fn lemma_fns_text(fs: Seq<FunctionV>)
    requires
        wf_fns(fs),
    ensures
        flatten(fns_pieces(fs)) == fmt_functions(fs),
        lexemes(fns_pieces(fs)) == fns_lex(fs, 0),
    decreases fs.len(),
{
    if fs.len() > 0 {
        lemma_wf_fns_init(fs);
        lemma_fns_text(fs.drop_last());
        lemma_flatten_add(fns_pieces(fs.drop_last()), fn_pieces(fs.last()));
        lemma_fn_text(fs.last());
        lemma_fns_lex_last(fs, 0);
    } else {
        assert(lexemes(Seq::<Piece>::empty()) =~= fns_lex(fs, 0));
    }
}

proof fn lemma_fns_ok(fs: Seq<FunctionV>)
    requires
        wf_fns(fs),
    ensures
        pieces_fine(fns_pieces(fs)),
        fs.len() > 0 ==> fns_pieces(fs).len() > 0,
        fs.len() > 0 ==> fns_pieces(fs).last() == Piece::Gap(seq!['\n']),
        fs.len() > 0 ==> fns_pieces(fs)[0] == Piece::Gap(seq!['\n']),
    decreases fs.len(),
{
    if fs.len() > 0 {
        let init = fs.drop_last();
        lemma_wf_fns_init(fs);
        lemma_fns_ok(init);
        lemma_fn_ok(fs.last());
        lemma_fine_add(fns_pieces(init), fn_pieces(fs.last()));
        if init.len() > 0 {
            assert((fns_pieces(init) + fn_pieces(fs.last()))[0] == fns_pieces(init)[0]);
        } else {
            assert(fns_pieces(init) + fn_pieces(fs.last()) =~= fn_pieces(fs.last()));
        }
    } else {
        assert(pieces_fine(Seq::<Piece>::empty())) by {
            reveal(pieces_fine);
        }
    }
}

proof fn lemma_fns_fit(fs: Seq<FunctionV>, i: int)
    requires
        wf_fns(fs),
        0 <= i,
    ensures
        ints_fit(fns_lex(fs, i)),
    decreases fs.len() - i,
{
    if i < fs.len() {
        assert(wf_fn(fs[i]));
        lemma_fn_fits(fs[i]);
        lemma_fns_fit(fs, i + 1);
        lemma_fit_add(fn_lex(fs[i]), fns_lex(fs, i + 1));
    }
}

proof fn lemma_fmt_functions_same(a: Seq<FunctionV>, b: Seq<FunctionV>)
    requires
        a.len() == b.len(),
        forall|j: int| 0 <= j < a.len() ==> fmt_function(#[trigger] a[j]) == fmt_function(b[j]),
    ensures
        fmt_functions(a) == fmt_functions(b),
    decreases a.len(),
{
    if a.len() > 0 {
        let a1 = a.drop_last();
        let b1 = b.drop_last();
        assert forall|j: int| 0 <= j < a1.len() implies fmt_function(#[trigger] a1[j]) == fmt_function(b1[j]) by {
            assert(a1[j] == a[j] && b1[j] == b[j]);
        }
        lemma_fmt_functions_same(a1, b1);
        assert(fmt_function(a[a.len() - 1]) == fmt_function(b[a.len() - 1]));
    }
}

/// The first lexeme of a function is `pub` or `fn`.
proof fn lemma_fn_lex_first(f: FunctionV)
    ensures
        fn_lex(f).len() > 0,
        fn_lex(f)[0] == (TokKindV::Ident, if f.public { "pub"@ } else { "fn"@ }),
{
}

/// The tokens of some functions parse back into functions with the same
/// canonical texts, when neither `pub` nor `fn` follows them.
proof fn lemma_parse_functions(
    t: Seq<TokV>,
    k: int,
    fs: Seq<FunctionV>,
    i: int,
    module: Seq<char>,
    acc: Seq<FunctionV>,
)
    requires
        wf_fns(fs),
        0 <= i <= fs.len(),
        acc.len() == i,
        forall|j: int| 0 <= j < i ==> fmt_function(#[trigger] acc[j]) == fmt_function(fs[j]),
        lexemes_at(t, k, fns_lex(fs, i)),
        !is_word(t, k + fns_lex(fs, i).len(), "pub"@),
        !is_word(t, k + fns_lex(fs, i).len(), "fn"@),
    ensures
        p_functions(t, k, module, acc) is Ok,
        p_functions(t, k, module, acc)->Ok_0.1 == k + fns_lex(fs, i).len(),
        p_functions(t, k, module, acc)->Ok_0.0.len() == fs.len(),
        forall|j: int|
            0 <= j < fs.len() ==> fmt_function(#[trigger] p_functions(t, k, module, acc)->Ok_0.0[j]) == fmt_function(
                fs[j],
            ),
    decreases fs.len() - i,
{
    if i == fs.len() {
        assert(fns_lex(fs, i) =~= Seq::<(TokKindV, Seq<char>)>::empty());
    } else {
        let f = fs[i];
        assert(wf_fn(f));
        let fl = fn_lex(f);
        let rest = fns_lex(fs, i + 1);
        assert(fns_lex(fs, i) == fl + rest);
        lemma_lexemes_at_split(t, k, fl, rest);
        lemma_fn_lex_first(f);
        assert((t[k + 0].kind, t[k + 0].text) == fl[0]);
        lemma_parse_function(t, k, f, module);
        let f2 = p_function(t, k, module)->Ok_0.0;
        let k2 = k + fl.len();
        let acc2 = acc.push(f2);
        assert forall|j: int| 0 <= j < i + 1 implies fmt_function(#[trigger] acc2[j]) == fmt_function(fs[j]) by {
            if j < i {
                assert(acc2[j] == acc[j]);
            }
        }
        assert(k2 + rest.len() == k + fns_lex(fs, i).len());
        lemma_parse_functions(t, k2, fs, i + 1, module, acc2);
    }
}

/// The pieces of an import line.
pub open spec fn import_pieces(m: Seq<char>) -> Seq<Piece> {
    seq![Piece::Lex(TokKindV::Ident, "import"@), space()] + path_pieces(qparts(m)) + seq![Piece::Gap(seq!['\n'])]
}

/// The pieces of some import lines.
pub open spec fn imports_pieces(ms: Seq<Seq<char>>) -> Seq<Piece>
    decreases ms.len(),
{
    if ms.len() == 0 {
        Seq::empty()
    } else {
        imports_pieces(ms.drop_last()) + import_pieces(ms.last())
    }
}

/// The lexemes of an import line.
pub open spec fn import_lex(m: Seq<char>) -> Seq<(TokKindV, Seq<char>)> {
    seq![(TokKindV::Ident, "import"@)] + lexemes(path_pieces(qparts(m)))
}

/// The lexemes of the import lines of `ms[i..]`.
pub open spec fn imports_lex(ms: Seq<Seq<char>>, i: int) -> Seq<(TokKindV, Seq<char>)>
    decreases ms.len() - i,
{
    if 0 <= i < ms.len() {
        import_lex(ms[i]) + imports_lex(ms, i + 1)
    } else {
        Seq::empty()
    }
}

/// Module names the parser reads.
pub open spec fn wf_mods(ms: Seq<Seq<char>>) -> bool {
    forall|i: int| 0 <= i < ms.len() ==> wf_qname(#[trigger] ms[i])
}

proof fn lemma_wf_mods_init(ms: Seq<Seq<char>>)
    requires
        wf_mods(ms),
        ms.len() > 0,
    ensures
        wf_mods(ms.drop_last()),
        wf_qname(ms.last()),
{
    assert forall|i: int| 0 <= i < ms.drop_last().len() implies wf_qname(#[trigger] ms.drop_last()[i]) by {
        assert(ms.drop_last()[i] == ms[i]);
    }
    assert(wf_qname(ms[ms.len() - 1]));
}

proof fn lemma_word_ok()
    ensures
        piece_ok(Piece::Lex(TokKindV::Ident, "import"@)),
        piece_ok(Piece::Lex(TokKindV::Ident, "module"@)),
        piece_ends_clean(Piece::Lex(TokKindV::Ident, "import"@), ' '),
        piece_ends_clean(Piece::Lex(TokKindV::Ident, "module"@), ' '),
        piece_ok(space()),
        forall|c: char| #[trigger] piece_ends_clean(space(), c),
        piece_ok(Piece::Gap(seq!['\n'])),
        !ident_continue('\n'),
        "import"@ != "pub"@,
        "import"@ != "fn"@,
        "module"@.len() == 6,
{
    reveal_strlit("import");
    reveal_strlit("module");
    reveal_strlit("pub");
    reveal_strlit("fn");
    lemma_punct_ok();
    assert("import"@[0] != "pub"@[0]);
    assert("import"@[0] != "fn"@[0]);
}

proof fn lemma_import_text(m: Seq<char>)
    requires
        wf_qname(m),
    ensures
        flatten(import_pieces(m)) == "import "@ + m + seq!['\n'],
        lexemes(import_pieces(m)) == import_lex(m),
{
    reveal_strlit("import");
    reveal_strlit("import ");
    lemma_qname_item(m);
    let a = seq![Piece::Lex(TokKindV::Ident, "import"@), space()];
    let b = path_pieces(qparts(m));
    let c = seq![Piece::Gap(seq!['\n'])];
    lemma_flatten_add(a + b, c);
    lemma_flatten_add(a, b);
    lemma_flat2(Piece::Lex(TokKindV::Ident, "import"@), space());
    lemma_flatten_one(Piece::Lex(TokKindV::Ident, "import"@));
    lemma_flatten_one(space());
    lemma_flatten_one(Piece::Gap(seq!['\n']));
    assert(flatten(a) =~= "import "@);
    assert(flatten(import_pieces(m)) =~= "import "@ + m + seq!['\n']);
    assert(lexemes(a) =~= seq![(TokKindV::Ident, "import"@)]);
    assert(lexemes(import_pieces(m)) =~= import_lex(m));
}

proof fn lemma_imports_lex_last(ms: Seq<Seq<char>>, i: int)
    requires
        0 <= i < ms.len(),
    ensures
        imports_lex(ms, i) == imports_lex(ms.drop_last(), i) + import_lex(ms.last()),
    decreases ms.len() - i,
{
    if i == ms.len() - 1 {
        assert(imports_lex(ms.drop_last(), i) =~= Seq::<(TokKindV, Seq<char>)>::empty());
        assert(imports_lex(ms, i + 1) =~= Seq::<(TokKindV, Seq<char>)>::empty());
        assert(imports_lex(ms, i) =~= import_lex(ms.last()));
    } else {
        lemma_imports_lex_last(ms, i + 1);
        assert(ms.drop_last()[i] == ms[i]);
        assert(import_lex(ms[i]) + (imports_lex(ms.drop_last(), i + 1) + import_lex(ms.last())) =~= import_lex(ms[i])
            + imports_lex(ms.drop_last(), i + 1) + import_lex(ms.last()));
    }
}

proof fn lemma_imports_text(ms: Seq<Seq<char>>)
    requires
        wf_mods(ms),
    ensures
        flatten(imports_pieces(ms)) == fmt_imports(ms),
        lexemes(imports_pieces(ms)) == imports_lex(ms, 0),
    decreases ms.len(),
{
    if ms.len() > 0 {
        lemma_wf_mods_init(ms);
        lemma_imports_text(ms.drop_last());
        lemma_flatten_add(imports_pieces(ms.drop_last()), import_pieces(ms.last()));
        lemma_import_text(ms.last());
        lemma_imports_lex_last(ms, 0);
        assert(flatten(imports_pieces(ms)) =~= fmt_imports(ms));
    } else {
        assert(lexemes(Seq::<Piece>::empty()) =~= imports_lex(ms, 0));
    }
}

proof fn lemma_import_ok(m: Seq<char>)
    requires
        wf_qname(m),
    ensures
        pieces_fine(import_pieces(m)),
        import_pieces(m)[0] == Piece::Lex(TokKindV::Ident, "import"@),
        import_pieces(m).last() == Piece::Gap(seq!['\n']),
        ints_fit(import_lex(m)),
{
    lemma_qname_item(m);
    lemma_word_ok();
    let a = seq![Piece::Lex(TokKindV::Ident, "import"@), space()];
    let b = path_pieces(qparts(m));
    let c = seq![Piece::Gap(seq!['\n'])];
    lemma_ok_lit(a);
    lemma_ok_lit(c);
    lemma_pieces_ok_add(a, b);
    assert((a + b).last() == b.last());
    assert(ident_continue('\n') == false);
    lemma_pieces_ok_add(a + b, c);
    lemma_fine(import_pieces(m));
    assert(import_pieces(m)[0] == a[0]);
    reveal_strlit("import");
    lemma_fit_add(seq![(TokKindV::Ident, "import"@)], lexemes(path_pieces(qparts(m))));
}

proof fn lemma_imports_ok(ms: Seq<Seq<char>>)
    requires
        wf_mods(ms),
    ensures
        pieces_fine(imports_pieces(ms)),
        ms.len() > 0 ==> imports_pieces(ms).len() > 0,
        ms.len() > 0 ==> imports_pieces(ms).last() == Piece::Gap(seq!['\n']),
        ms.len() > 0 ==> imports_pieces(ms)[0] == Piece::Lex(TokKindV::Ident, "import"@),
    decreases ms.len(),
{
    if ms.len() > 0 {
        let init = ms.drop_last();
        lemma_wf_mods_init(ms);
        lemma_imports_ok(init);
        lemma_import_ok(ms.last());
        lemma_fine_add(imports_pieces(init), import_pieces(ms.last()));
        if init.len() > 0 {
            assert((imports_pieces(init) + import_pieces(ms.last()))[0] == imports_pieces(init)[0]);
        } else {
            assert(imports_pieces(init) + import_pieces(ms.last()) =~= import_pieces(ms.last()));
        }
    } else {
        assert(pieces_fine(Seq::<Piece>::empty())) by {
            reveal(pieces_fine);
        }
    }
}

proof fn lemma_imports_fit(ms: Seq<Seq<char>>, i: int)
    requires
        wf_mods(ms),
        0 <= i,
    ensures
        ints_fit(imports_lex(ms, i)),
    decreases ms.len() - i,
{
    if i < ms.len() {
        assert(wf_qname(ms[i]));
        lemma_import_ok(ms[i]);
        lemma_imports_fit(ms, i + 1);
        lemma_fit_add(import_lex(ms[i]), imports_lex(ms, i + 1));
    }
}

/// The tokens of some import lines parse back into imports of the same
/// modules, when no `import` and no `.` follows them.
proof fn lemma_parse_imports(t: Seq<TokV>, k: int, ms: Seq<Seq<char>>, i: int, acc: Seq<ImportV>)
    requires
        wf_mods(ms),
        0 <= i <= ms.len(),
        acc.len() == i,
        forall|j: int| 0 <= j < i ==> (#[trigger] acc[j]).module == ms[j],
        lexemes_at(t, k, imports_lex(ms, i)),
        !is_word(t, k + imports_lex(ms, i).len(), "import"@),
        !is_punct(t, k + imports_lex(ms, i).len(), Punct::Dot),
    ensures
        p_imports(t, k, acc) is Ok,
        p_imports(t, k, acc)->Ok_0.1 == k + imports_lex(ms, i).len(),
        p_imports(t, k, acc)->Ok_0.0.len() == ms.len(),
        forall|j: int| 0 <= j < ms.len() ==> (#[trigger] p_imports(t, k, acc)->Ok_0.0[j]).module == ms[j],
    decreases ms.len() - i,
{
    if i == ms.len() {
        assert(imports_lex(ms, i) =~= Seq::<(TokKindV, Seq<char>)>::empty());
    } else {
        let m = ms[i];
        assert(wf_qname(m));
        lemma_qname_item(m);
        let pl = lexemes(path_pieces(qparts(m)));
        let rest = imports_lex(ms, i + 1);
        let w = seq![(TokKindV::Ident, "import"@)];
        assert(imports_lex(ms, i) =~= w + (pl + rest));
        lemma_lexemes_at_split(t, k, w, pl + rest);
        lemma_lexemes_at_split(t, k + 1, pl, rest);
        assert((t[k + 0].kind, t[k + 0].text) == w[0]);
        let k2 = k + 1 + pl.len();
        assert(!is_punct(t, k2, Punct::Dot)) by {
            if i + 1 < ms.len() {
                assert(rest == import_lex(ms[i + 1]) + imports_lex(ms, i + 2));
                assert((t[k2 + 0].kind, t[k2 + 0].text) == rest[0]);
            }
        }
        lemma_parse_qname_text(t, k + 1, m);
        let parts = p_qname(t, k + 1, Seq::empty())->Ok_0.0;
        let acc2 = acc.push(
            ImportV { module: join_parts(parts), span: Span { start: t[k].span.start, end: crate::syntax::parts_span(parts).end } },
        );
        assert forall|j: int| 0 <= j < i + 1 implies (#[trigger] acc2[j]).module == ms[j] by {
            if j < i {
                assert(acc2[j] == acc[j]);
            }
        }
        assert(k2 + rest.len() == k + imports_lex(ms, i).len());
        lemma_parse_imports(t, k2, ms, i + 1, acc2);
    }
}

/// The modules a module imports, in the order its canonical text lists them.
pub open spec fn sorted_mods(p: ProgramV) -> Seq<Seq<char>> {
    p.imports.map_values(|i: ImportV| i.module).sort_by(text_order())
}

/// The pieces of a module's canonical text.
pub open spec fn program_pieces(p: ProgramV) -> Seq<Piece> {
    seq![Piece::Lex(TokKindV::Ident, "module"@), space()] + path_pieces(qparts(p.module)) + seq![
        Piece::Gap(seq!['\n']),
    ] + imports_pieces(sorted_mods(p)) + fns_pieces(p.functions)
}

/// The lexemes of a module's canonical text.
pub open spec fn program_lex(p: ProgramV) -> Seq<(TokKindV, Seq<char>)> {
    seq![(TokKindV::Ident, "module"@)] + lexemes(path_pieces(qparts(p.module))) + imports_lex(sorted_mods(p), 0)
        + fns_lex(p.functions, 0)
}

/// A module the parser reads: its name, the modules it imports and its
/// functions are all such as the parser reads.
pub open spec fn wf_program(p: ProgramV) -> bool {
    &&& wf_qname(p.module)
    &&& wf_mods(p.imports.map_values(|i: ImportV| i.module))
    &&& wf_fns(p.functions)
}

proof fn lemma_sorted_mods(p: ProgramV)
    requires
        wf_mods(p.imports.map_values(|i: ImportV| i.module)),
    ensures
        wf_mods(sorted_mods(p)),
        sorted_by(sorted_mods(p), text_order()),
        sorted_mods(p).to_multiset() == p.imports.map_values(|i: ImportV| i.module).to_multiset(),
{
    let ms = p.imports.map_values(|i: ImportV| i.module);
    lemma_text_order_total();
    ms.lemma_sort_by_ensures(text_order());
    let ss = sorted_mods(p);
    assert forall|i: int| 0 <= i < ss.len() implies wf_qname(#[trigger] ss[i]) by {
        assert(ss.contains(ss[i]));
        assert(ms.contains(ss[i]));
        let j = choose|j: int| 0 <= j < ms.len() && ms[j] == ss[i];
        assert(wf_qname(ms[j]));
    }
}

/// Sorting a sorted list of modules keeps it as it is.
proof fn lemma_sorted_stays(ss: Seq<Seq<char>>)
    requires
        sorted_by(ss, text_order()),
    ensures
        ss.sort_by(text_order()) == ss,
{
    lemma_text_order_total();
    ss.lemma_sort_by_ensures(text_order());
    vstd::seq_lib::lemma_sorted_unique(ss.sort_by(text_order()), ss, text_order());
}

proof fn lemma_program_text(p: ProgramV)
    requires
        wf_program(p),
    ensures
        flatten(program_pieces(p)) == fmt_program(p),
        lexemes(program_pieces(p)) == program_lex(p),
{
    reveal_strlit("module");
    reveal_strlit("module ");
    lemma_qname_item(p.module);
    lemma_sorted_mods(p);
    let a = seq![Piece::Lex(TokKindV::Ident, "module"@), space()];
    let b = path_pieces(qparts(p.module));
    let c = seq![Piece::Gap(seq!['\n'])];
    let d = imports_pieces(sorted_mods(p));
    let e = fns_pieces(p.functions);
    lemma_flatten_add(a + b + c + d, e);
    lemma_flatten_add(a + b + c, d);
    lemma_flatten_add(a + b, c);
    lemma_flatten_add(a, b);
    lemma_flat2(Piece::Lex(TokKindV::Ident, "module"@), space());
    lemma_flatten_one(Piece::Lex(TokKindV::Ident, "module"@));
    lemma_flatten_one(space());
    lemma_flatten_one(Piece::Gap(seq!['\n']));
    lemma_imports_text(sorted_mods(p));
    lemma_fns_text(p.functions);
    assert(flatten(a) =~= "module "@);
    assert(flatten(program_pieces(p)) =~= fmt_program(p));
    assert(lexemes(a) =~= seq![(TokKindV::Ident, "module"@)]);
    assert(lexemes(c) =~= Seq::<(TokKindV, Seq<char>)>::empty());
    assert(lexemes(program_pieces(p)) =~= program_lex(p));
}

proof fn lemma_program_ok(p: ProgramV)
    requires
        wf_program(p),
    ensures
        pieces_ok(program_pieces(p)),
        program_pieces(p).len() > 0,
        program_pieces(p).last() == Piece::Gap(seq!['\n']),
        ints_fit(program_lex(p)),
{
    lemma_qname_item(p.module);
    lemma_sorted_mods(p);
    lemma_word_ok();
    let a = seq![Piece::Lex(TokKindV::Ident, "module"@), space()];
    let b = path_pieces(qparts(p.module));
    let c = seq![Piece::Gap(seq!['\n'])];
    let d = imports_pieces(sorted_mods(p));
    let e = fns_pieces(p.functions);
    lemma_ok_lit(a);
    lemma_ok_lit(c);
    lemma_pieces_ok_add(a, b);
    assert((a + b).last() == b.last());
    lemma_pieces_ok_add(a + b, c);
    lemma_fine(a + b + c);
    lemma_imports_ok(sorted_mods(p));
    lemma_fns_ok(p.functions);
    lemma_fine_add(a + b + c, d);
    let abcd = a + b + c + d;
    if d.len() > 0 {
        assert(abcd.last() == d.last());
    } else {
        assert(abcd =~= a + b + c);
    }
    lemma_fine_add(abcd, e);
    if e.len() > 0 {
        assert((abcd + e).last() == e.last());
    } else {
        assert(abcd + e =~= abcd);
    }
    reveal(pieces_fine);
    reveal_strlit("module");
    lemma_imports_fit(sorted_mods(p), 0);
    lemma_fns_fit(p.functions, 0);
    let l0 = seq![(TokKindV::Ident, "module"@)];
    lemma_fit_add(l0, lexemes(b));
    lemma_fit_add(l0 + lexemes(b), imports_lex(sorted_mods(p), 0));
    lemma_fit_add(l0 + lexemes(b) + imports_lex(sorted_mods(p), 0), fns_lex(p.functions, 0));
}

/// No integer literal out of range gives no overflow diagnostic.
proof fn lemma_no_overflows(t: Seq<TokV>)
    requires
        forall|j: int| 0 <= j < t.len() && (#[trigger] t[j]).kind is Int ==> int_fits(t[j].text),
    ensures
        crate::syntax::overflows(t).len() == 0,
    decreases t.len(),
{
    if t.len() > 0 {
        assert forall|j: int| 0 <= j < t.drop_last().len() && (#[trigger] t.drop_last()[j]).kind is Int implies int_fits(
            t.drop_last()[j].text,
        ) by {
            assert(t.drop_last()[j] == t[j]);
        }
        lemma_no_overflows(t.drop_last());
        assert(t.last() == t[t.len() - 1]);
    }
}

/// The canonical text of a module lexes into the tokens of its lexemes,
/// then the end of the text, and holds no comment.
proof fn lemma_lex_program(p: ProgramV) -> (t: Seq<TokV>)
    requires
        wf_program(p),
    ensures
        crate::lexer::spec_lex(fmt_program(p)) == Ok::<(Seq<TokV>, bool), DiagnosticV>((t, false)),
        t.len() == program_lex(p).len() + 1,
        lexemes_at(t, 0, program_lex(p)),
        t[program_lex(p).len() as int].kind is Eof,
        forall|j: int| 0 <= j < t.len() && (#[trigger] t[j]).kind is Int ==> int_fits(t[j].text),
{
    let cs = fmt_program(p);
    let ps = program_pieces(p);
    lemma_program_text(p);
    lemma_program_ok(p);
    assert(text_at(cs, 0, flatten(ps)));
    let toks = lemma_lex_pieces(cs, 0, ps, Seq::empty(), false);
    assert(Seq::<TokV>::empty() + toks =~= toks);
    let t = toks.push(crate::lexer::eof_tok(cs));
    let l = program_lex(p);
    assert(lexemes_of(toks).len() == l.len());
    assert forall|j: int| 0 <= j < l.len() implies (t[0 + j].kind, t[0 + j].text) == #[trigger] l[j] by {
        assert(t[j] == toks[j]);
        assert(lexemes_of(toks)[j] == (toks[j].kind, toks[j].text));
    }
    assert forall|j: int| 0 <= j < t.len() && (#[trigger] t[j]).kind is Int implies int_fits(t[j].text) by {
        assert(t[j] == toks[j]);
        assert(lexemes_of(toks)[j] == (toks[j].kind, toks[j].text));
        assert(l[j] == (t[j].kind, t[j].text));
    }
    t
}

/// Canonical texts read back: the canonical text of a module the parser
/// reads parses, without a comment, into a module with that same canonical
/// text, so formatting what was formatted changes nothing.
#[verifier::rlimit(60)]
#[verifier::spinoff_prover]
pub proof fn lemma_canonical_program_reads_back(p: ProgramV)
    requires
        wf_program(p),
    ensures
        crate::syntax::spec_parse(fmt_program(p)) is Ok,
        !crate::syntax::spec_parse(fmt_program(p))->Ok_0.has_comments,
        fmt_program(crate::syntax::spec_parse(fmt_program(p))->Ok_0) == fmt_program(p),
{
    let t = lemma_lex_program(p);
    let l = program_lex(p);
    let n = l.len() as int;
    lemma_no_overflows(t);
    lemma_qname_item(p.module);
    lemma_sorted_mods(p);
    lemma_word_ok();
    let ss = sorted_mods(p);
    let l0 = seq![(TokKindV::Ident, "module"@)];
    let pl = lexemes(path_pieces(qparts(p.module)));
    let il = imports_lex(ss, 0);
    let fl = fns_lex(p.functions, 0);
    lemma_lexemes_at_split(t, 0, l0 + pl + il, fl);
    lemma_lexemes_at_split(t, 0, l0 + pl, il);
    lemma_lexemes_at_split(t, 0, l0, pl);
    assert((t[0int].kind, t[0int].text) == l0[0]);
    let a: int = 1int + pl.len();
    let b: int = a + il.len();
    assert(b + fl.len() == n);
    // What follows the functions is the end of the text.
    assert(!is_word(t, n, "pub"@) && !is_word(t, n, "fn"@));
    // What follows the imports is a function or the end of the text.
    assert(!is_word(t, b, "import"@) && !is_punct(t, b, Punct::Dot)) by {
        if p.functions.len() > 0 {
            lemma_fn_lex_first(p.functions[0]);
            assert(fl == fn_lex(p.functions[0]) + fns_lex(p.functions, 1));
            assert((t[b + 0].kind, t[b + 0].text) == fl[0]);
        } else {
            assert(fl =~= Seq::<(TokKindV, Seq<char>)>::empty());
        }
    }
    // What follows the module's name is an import, a function or the end.
    assert(!is_punct(t, a, Punct::Dot)) by {
        if ss.len() > 0 {
            assert(il == import_lex(ss[0]) + imports_lex(ss, 1));
            assert((t[a + 0].kind, t[a + 0].text) == il[0]);
        } else {
            assert(il =~= Seq::<(TokKindV, Seq<char>)>::empty());
        }
    }
    lemma_parse_qname_text(t, 1, p.module);
    lemma_parse_imports(t, a, ss, 0, Seq::empty());
    let module = join_parts(p_qname(t, 1, Seq::empty())->Ok_0.0);
    lemma_parse_functions(t, b, p.functions, 0, module, Seq::empty());
    let q = crate::syntax::spec_parse(fmt_program(p))->Ok_0;
    let qm = q.imports.map_values(|i: ImportV| i.module);
    assert(qm =~= ss);
    lemma_sorted_stays(ss);
    lemma_fmt_functions_same(q.functions, p.functions);
}

} // verus!
