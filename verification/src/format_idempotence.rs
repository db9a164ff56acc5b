//! What the parser reads is what the formatter writes back faithfully:
//! every module the parser produces is one whose canonical text reads back,
//! so formatting a formatted text changes nothing.

use vstd::prelude::*;
use crate::format_laws::{
    effect_ok, ident_text, lemma_canonical_program_reads_back, name_text, param_ok, path_names, wf_args, wf_body, wf_effects,
    wf_expr, wf_fn, wf_fns, wf_mods, wf_params, wf_program, wf_qname, wf_stmt,
};
use crate::formatter::fmt_program;
use crate::syntax::{
    ExprV, FunctionV, ImportV, ParamV, StableId, StmtKindV, StmtV, binary_v, is_name, is_punct, is_word, join_parts, op_at,
    p_args, p_bin, p_bin_rest, p_effect_row, p_effects, p_expr, p_function, p_functions, p_if, p_imports, p_params,
    p_primary, p_qname, p_stmts, spec_parse,
};
use crate::lexer::{LexMode, Punct, TokKindV, TokV, ident_continue, ident_start, lex_from, pair_punct, single_punct, tok_at, unescape};
use crate::diagnostic::{DiagnosticV, Span};
use crate::text::spec_is_whitespace;

verus! {

/// Every identifier token spells an identifier.
pub open spec fn toks_good(ts: Seq<TokV>) -> bool {
    forall|j: int| 0 <= j < ts.len() && (#[trigger] ts[j]).kind is Ident ==> ident_text(ts[j].text)
}

/// The identifier being read so far spells the start of an identifier.
pub open spec fn mode_good(cs: Seq<char>, i: int, m: LexMode) -> bool {
    match m {
        LexMode::Ident { start } => {
            &&& 0 <= start < i <= cs.len()
            &&& ident_start(cs[start])
            &&& forall|j: int| start <= j < i ==> ident_continue(#[trigger] cs[j])
        },
        _ => true,
    }
}

proof fn lemma_toks_good_push(ts: Seq<TokV>, x: TokV)
    requires
        toks_good(ts),
        x.kind is Ident ==> ident_text(x.text),
    ensures
        toks_good(ts.push(x)),
{
    assert forall|j: int| 0 <= j < ts.push(x).len() && (#[trigger] ts.push(x)[j]).kind is Ident implies ident_text(
        ts.push(x)[j].text,
    ) by {
        if j < ts.len() {
            assert(ts.push(x)[j] == ts[j]);
        }
    }
}

proof fn lemma_ident_tok(cs: Seq<char>, start: int, i: int)
    requires
        mode_good(cs, i, LexMode::Ident { start }),
    ensures
        ident_text(tok_at(cs, TokKindV::Ident, start, i).text),
{
    let s = cs.subrange(start, i);
    assert(s[0] == cs[start]);
    assert forall|j: int| 0 <= j < s.len() implies ident_continue(#[trigger] s[j]) by {
        assert(s[j] == cs[start + j]);
    }
}

/// The lexer reads identifier tokens only from identifiers.
proof fn lemma_lex_good(cs: Seq<char>, i: int, m: LexMode, acc: Seq<TokV>, comments: bool)
    requires
        toks_good(acc),
        mode_good(cs, i, m),
    ensures
        lex_from(cs, i, m, acc, comments) is Ok ==> toks_good(lex_from(cs, i, m, acc, comments)->Ok_0.0),
    decreases cs.len() - i, crate::lexer::lex_rank(m),
{
    let eof = crate::lexer::eof_tok(cs);
    if i < 0 || i >= cs.len() {
        let n = cs.len() as int;
        match m {
            LexMode::Normal => {
                lemma_toks_good_push(acc, eof);
            },
            LexMode::Comment => {
                lemma_toks_good_push(acc, eof);
            },
            LexMode::Ident { start } => {
                lemma_ident_tok(cs, start, n);
                lemma_toks_good_push(acc, tok_at(cs, TokKindV::Ident, start, n));
                lemma_toks_good_push(acc.push(tok_at(cs, TokKindV::Ident, start, n)), eof);
            },
            LexMode::Int { start } => {
                lemma_toks_good_push(acc, tok_at(cs, TokKindV::Int, start, n));
                lemma_toks_good_push(acc.push(tok_at(cs, TokKindV::Int, start, n)), eof);
            },
            _ => {},
        }
    } else {
        let c = cs[i];
        match m {
            LexMode::Normal => {
                if spec_is_whitespace(c) {
                    lemma_lex_good(cs, i + 1, LexMode::Normal, acc, comments);
                } else if c == '/' && i + 1 < cs.len() && cs[i + 1] == '/' {
                    lemma_lex_good(cs, i + 2, LexMode::Comment, acc, true);
                } else if ident_start(c) {
                    lemma_lex_good(cs, i + 1, LexMode::Ident { start: i }, acc, comments);
                } else if '0' <= c <= '9' {
                    lemma_lex_good(cs, i + 1, LexMode::Int { start: i }, acc, comments);
                } else if c == '"' {
                    lemma_lex_good(cs, i + 1, LexMode::Str { start: i, value: Seq::empty() }, acc, comments);
                } else if i + 1 < cs.len() && pair_punct(c, cs[i + 1]) is Some {
                    let x = tok_at(cs, TokKindV::Punct(pair_punct(c, cs[i + 1])->0), i, i + 2);
                    lemma_toks_good_push(acc, x);
                    lemma_lex_good(cs, i + 2, LexMode::Normal, acc.push(x), comments);
                } else if single_punct(c) is Some {
                    let x = tok_at(cs, TokKindV::Punct(single_punct(c)->0), i, i + 1);
                    lemma_toks_good_push(acc, x);
                    lemma_lex_good(cs, i + 1, LexMode::Normal, acc.push(x), comments);
                }
            },
            LexMode::Comment => {
                if c == '\n' {
                    lemma_lex_good(cs, i + 1, LexMode::Normal, acc, comments);
                } else {
                    lemma_lex_good(cs, i + 1, LexMode::Comment, acc, comments);
                }
            },
            LexMode::Ident { start } => {
                if ident_continue(c) {
                    lemma_lex_good(cs, i + 1, LexMode::Ident { start }, acc, comments);
                } else {
                    lemma_ident_tok(cs, start, i);
                    let x = tok_at(cs, TokKindV::Ident, start, i);
                    lemma_toks_good_push(acc, x);
                    lemma_lex_good(cs, i, LexMode::Normal, acc.push(x), comments);
                }
            },
            LexMode::Int { start } => {
                if '0' <= c <= '9' {
                    lemma_lex_good(cs, i + 1, LexMode::Int { start }, acc, comments);
                } else {
                    let x = tok_at(cs, TokKindV::Int, start, i);
                    lemma_toks_good_push(acc, x);
                    lemma_lex_good(cs, i, LexMode::Normal, acc.push(x), comments);
                }
            },
            LexMode::Str { start, value } => {
                if c == '"' {
                    let x = tok_at(cs, TokKindV::Str(value), start, i + 1);
                    lemma_toks_good_push(acc, x);
                    lemma_lex_good(cs, i + 1, LexMode::Normal, acc.push(x), comments);
                } else if c == '\\' {
                    lemma_lex_good(cs, i + 1, LexMode::Escape { start, value }, acc, comments);
                } else {
                    lemma_lex_good(cs, i + 1, LexMode::Str { start, value: value.push(c) }, acc, comments);
                }
            },
            LexMode::Escape { start, value } => {
                lemma_lex_good(cs, i + 1, LexMode::Str { start, value: value.push(unescape(c)) }, acc, comments);
            },
        }
    }
}

/// Expressions all of which the parser reads.
pub open spec fn all_wf(es: Seq<ExprV>) -> bool {
    forall|j: int| 0 <= j < es.len() ==> wf_expr(#[trigger] es[j])
}

proof fn lemma_all_wf_args(es: Seq<ExprV>, k: int)
    requires
        all_wf(es),
    ensures
        wf_args(es, k),
    decreases es.len() - k,
{
    if 0 <= k < es.len() {
        assert(wf_expr(es[k]));
        lemma_all_wf_args(es, k + 1);
    }
}

proof fn lemma_all_wf_push(es: Seq<ExprV>, e: ExprV)
    requires
        all_wf(es),
        wf_expr(e),
    ensures
        all_wf(es.push(e)),
{
    assert forall|j: int| 0 <= j < es.push(e).len() implies wf_expr(#[trigger] es.push(e)[j]) by {
        if j < es.len() {
            assert(es.push(e)[j] == es[j]);
        }
    }
}

/// A name token of the lexer's output is a name.
proof fn lemma_name_tok(t: Seq<TokV>, k: int)
    requires
        toks_good(t),
        is_name(t, k),
    ensures
        name_text(t[k].text),
{
    assert(t[k].kind is Ident);
}

/// The parts of a dotted name the parser reads are names.
proof fn lemma_wf_qname_parse(t: Seq<TokV>, k: int, acc: Seq<(Seq<char>, Span)>)
    requires
        toks_good(t),
        forall|j: int| 0 <= j < acc.len() ==> name_text(#[trigger] acc[j].0),
    ensures
        p_qname(t, k, acc) is Ok ==> path_names(p_qname(t, k, acc)->Ok_0.0),
        p_qname(t, k, acc) is Ok ==> is_name(t, k),
    decreases t.len() - k,
{
    if is_name(t, k) {
        lemma_name_tok(t, k);
        let acc2 = acc.push((t[k].text, t[k].span));
        assert forall|j: int| 0 <= j < acc2.len() implies name_text(#[trigger] acc2[j].0) by {
            if j < acc.len() {
                assert(acc2[j] == acc[j]);
            }
        }
        if is_punct(t, k + 1, Punct::Dot) {
            lemma_wf_qname_parse(t, k + 2, acc2);
        }
    }
}

/// What the parser reads as an expression is a read expression.
proof fn lemma_wf_expr_parse(t: Seq<TokV>, k: int)
    requires
        toks_good(t),
    ensures
        p_expr(t, k) is Ok ==> wf_expr(p_expr(t, k)->Ok_0.0),
    decreases t.len() - k, 10nat,
{
    lemma_wf_bin_parse(t, k, 0);
}

proof fn lemma_wf_bin_parse(t: Seq<TokV>, k: int, level: nat)
    requires
        toks_good(t),
    ensures
        p_bin(t, k, level) is Ok ==> wf_expr(p_bin(t, k, level)->Ok_0.0),
    decreases t.len() - k, crate::syntax::level_rank(level),
{
    if level >= 4 {
        lemma_wf_primary_parse(t, k);
    } else {
        lemma_wf_bin_parse(t, k, level + 1);
        match p_bin(t, k, level + 1) {
            Err(_) => {},
            Ok((left, k2)) => {
                if !(k2 <= k || k2 > t.len()) {
                    lemma_wf_bin_rest_parse(t, k2, level, left);
                }
            },
        }
    }
}

proof fn lemma_wf_bin_rest_parse(t: Seq<TokV>, k: int, level: nat, left: ExprV)
    requires
        toks_good(t),
        wf_expr(left),
    ensures
        p_bin_rest(t, k, level, left) is Ok ==> wf_expr(p_bin_rest(t, k, level, left)->Ok_0.0),
    decreases t.len() - k, 0nat,
{
    if !(k < 0 || k > t.len()) {
        match op_at(t, k, level) {
            None => {},
            Some(op) => {
                lemma_wf_bin_parse(t, k + 1, level + 1);
                match p_bin(t, k + 1, level + 1) {
                    Err(_) => {},
                    Ok((right, k2)) => {
                        if !(k2 <= k || k2 > t.len()) {
                            lemma_wf_bin_rest_parse(t, k2, level, binary_v(op, left, right));
                        }
                    },
                }
            },
        }
    }
}

proof fn lemma_wf_args_parse(t: Seq<TokV>, k: int, acc: Seq<ExprV>)
    requires
        toks_good(t),
        all_wf(acc),
    ensures
        p_args(t, k, acc) is Ok ==> all_wf(p_args(t, k, acc)->Ok_0.0),
    decreases t.len() - k, 11nat,
{
    if !(k < 0 || k >= t.len()) && !is_punct(t, k, Punct::RParen) {
        lemma_wf_expr_parse(t, k);
        match p_expr(t, k) {
            Err(_) => {},
            Ok((e, k2)) => {
                if !(k2 <= k || k2 > t.len()) {
                    lemma_all_wf_push(acc, e);
                    if is_punct(t, k2, Punct::Comma) {
                        lemma_wf_args_parse(t, k2 + 1, acc.push(e));
                    }
                }
            },
        }
    }
}

proof fn lemma_wf_primary_parse(t: Seq<TokV>, k: int)
    requires
        toks_good(t),
    ensures
        p_primary(t, k) is Ok ==> wf_expr(p_primary(t, k)->Ok_0.0),
    decreases t.len() - k, 4nat,
{
    if !(k < 0 || k >= t.len()) {
        let tk = t[k];
        match tk.kind {
            TokKindV::Punct(Punct::LParen) => {
                lemma_wf_expr_parse(t, k + 1);
            },
            TokKindV::Ident => {
                if tk.text == "true"@ || tk.text == "false"@ {
                } else if tk.text == "if"@ {
                    lemma_wf_if_parse(t, k);
                } else {
                    lemma_wf_qname_parse(t, k, Seq::empty());
                    match p_qname(t, k, Seq::empty()) {
                        Err(_) => {},
                        Ok((parts, k2)) => {
                            if !(k2 <= k || k2 > t.len()) {
                                if is_punct(t, k2, Punct::LParen) {
                                    lemma_wf_args_parse(t, k2 + 1, Seq::empty());
                                    match p_args(t, k2 + 1, Seq::empty()) {
                                        Err(_) => {},
                                        Ok((args, k3)) => {
                                            lemma_all_wf_args(args, 0);
                                        },
                                    }
                                } else {
                                    lemma_name_tok(t, k);
                                }
                            }
                        },
                    }
                }
            },
            _ => {},
        }
    }
}

proof fn lemma_wf_if_parse(t: Seq<TokV>, k: int)
    requires
        toks_good(t),
    ensures
        p_if(t, k) is Ok ==> wf_expr(p_if(t, k)->Ok_0.0),
    decreases t.len() - k, 3nat,
{
    if !(k < 0 || k >= t.len()) {
        lemma_wf_expr_parse(t, k + 1);
        match p_expr(t, k + 1) {
            Err(_) => {},
            Ok((c, k2)) => {
                if !(k2 <= k || k2 > t.len()) && is_punct(t, k2, Punct::LBrace) {
                    lemma_wf_expr_parse(t, k2 + 1);
                    match p_expr(t, k2 + 1) {
                        Err(_) => {},
                        Ok((a, k3)) => {
                            if !(k3 <= k2 || k3 > t.len()) && is_punct(t, k3 + 2, Punct::LBrace) {
                                lemma_wf_expr_parse(t, k3 + 3);
                            }
                        },
                    }
                }
            },
        }
    }
}

/// Statements all of which the parser reads, none an expression left
/// without `;`.
pub open spec fn stmts_closed(ss: Seq<StmtV>) -> bool {
    &&& forall|i: int| 0 <= i < ss.len() ==> wf_stmt(#[trigger] ss[i])
    &&& forall|i: int| 0 <= i < ss.len() ==> (#[trigger] ss[i]).kind is Expr ==> ss[i].kind->Expr_terminated
}

/// What the parser reads as a body is a read body.
proof fn lemma_wf_stmts_parse(
    t: Seq<TokV>,
    k: int,
    module: Seq<char>,
    function: Seq<char>,
    acc: Seq<StmtV>,
    ordinal: nat,
)
    requires
        toks_good(t),
        stmts_closed(acc),
    ensures
        p_stmts(t, k, module, function, acc, ordinal) is Ok ==> wf_body(
            p_stmts(t, k, module, function, acc, ordinal)->Ok_0.0,
        ),
    decreases t.len() - k,
{
    if k < 0 || k >= t.len() {
    } else if is_punct(t, k, Punct::RBrace) {
    } else if is_word(t, k, "let"@) {
        if is_name(t, k + 1) {
            lemma_name_tok(t, k + 1);
            let annotated = is_punct(t, k + 2, Punct::Colon);
            if annotated && is_name(t, k + 3) {
                lemma_name_tok(t, k + 3);
            }
            let j = if annotated { k + 4 } else { k + 2 };
            if !(annotated && !is_name(t, k + 3)) && is_punct(t, j, Punct::Assign) {
                lemma_wf_expr_parse(t, j + 1);
                match p_expr(t, j + 1) {
                    Err(_) => {},
                    Ok((value, k2)) => {
                        if !(k2 <= k || k2 > t.len()) && is_punct(t, k2, Punct::Semi) {
                            let r = p_stmts(t, k, module, function, acc, ordinal);
                            let name = t[k + 1].text;
                            let annotation = if annotated {
                                Some((t[k + 3].text, t[k + 3].span))
                            } else {
                                None
                            };
                            let stmt = StmtV {
                                kind: StmtKindV::Let {
                                    id: StableId(
                                        crate::syntax::spec_stable_id(
                                            crate::syntax::member_ns(module, function, ".local."@, ordinal),
                                            name,
                                        ),
                                    ),
                                    name,
                                    name_span: t[k + 1].span,
                                    annotation,
                                    value,
                                },
                                span: Span { start: t[k].span.start, end: t[k2].span.end },
                            };
                            assert(wf_stmt(stmt));
                            lemma_closed_push(acc, stmt);
                            lemma_wf_stmts_parse(t, k2 + 1, module, function, acc.push(stmt), ordinal + 1);
                        }
                    },
                }
            }
        }
    } else {
        lemma_wf_expr_parse(t, k);
        match p_expr(t, k) {
            Err(_) => {},
            Ok((value, k2)) => {
                if !(k2 <= k || k2 > t.len()) {
                    if is_punct(t, k2, Punct::Semi) {
                        let stmt = StmtV {
                            kind: StmtKindV::Expr { value, terminated: true },
                            span: Span { start: value.span.start, end: t[k2].span.end },
                        };
                        lemma_closed_push(acc, stmt);
                        lemma_wf_stmts_parse(t, k2 + 1, module, function, acc.push(stmt), ordinal);
                    } else if is_punct(t, k2, Punct::RBrace) {
                        let stmt = StmtV { kind: StmtKindV::Expr { value, terminated: false }, span: value.span };
                        let ss = acc.push(stmt);
                        assert(p_stmts(t, k2, module, function, ss, ordinal) == Ok::<(Seq<StmtV>, int), DiagnosticV>(
                            (ss, k2 + 1),
                        ));
                        assert forall|i: int| 0 <= i < ss.len() implies wf_stmt(#[trigger] ss[i]) by {
                            if i < acc.len() {
                                assert(ss[i] == acc[i]);
                            }
                        }
                        assert forall|i: int| 0 <= i < ss.len() - 1 implies (#[trigger] ss[i]).kind is Expr
                            ==> ss[i].kind->Expr_terminated by {
                            assert(ss[i] == acc[i]);
                        }
                    }
                }
            },
        }
    }
}

proof fn lemma_closed_push(acc: Seq<StmtV>, st: StmtV)
    requires
        stmts_closed(acc),
        wf_stmt(st),
        st.kind is Expr ==> st.kind->Expr_terminated,
    ensures
        stmts_closed(acc.push(st)),
{
    assert forall|i: int| 0 <= i < acc.push(st).len() implies wf_stmt(#[trigger] acc.push(st)[i]) by {
        if i < acc.len() {
            assert(acc.push(st)[i] == acc[i]);
        }
    }
    assert forall|i: int| 0 <= i < acc.push(st).len() implies (#[trigger] acc.push(st)[i]).kind is Expr
        ==> acc.push(st)[i].kind->Expr_terminated by {
        if i < acc.len() {
            assert(acc.push(st)[i] == acc[i]);
        }
    }
}

/// What the parser reads as parameters are read parameters.
proof fn lemma_wf_params_parse(t: Seq<TokV>, k: int, module: Seq<char>, function: Seq<char>, acc: Seq<ParamV>)
    requires
        toks_good(t),
        wf_params(acc),
    ensures
        p_params(t, k, module, function, acc) is Ok ==> wf_params(p_params(t, k, module, function, acc)->Ok_0.0),
    decreases t.len() - k,
{
    if !(k < 0 || k >= t.len()) && !is_punct(t, k, Punct::RParen) && is_name(t, k) && is_punct(t, k + 1, Punct::Colon)
        && is_name(t, k + 2) {
        lemma_name_tok(t, k);
        lemma_name_tok(t, k + 2);
        let p = ParamV {
            id: StableId(
                crate::syntax::spec_stable_id(
                    crate::syntax::member_ns(module, function, ".param."@, acc.len()),
                    t[k].text,
                ),
            ),
            name: t[k].text,
            name_span: t[k].span,
            ty_name: t[k + 2].text,
            type_span: t[k + 2].span,
        };
        assert(param_ok(p));
        assert forall|i: int| 0 <= i < acc.push(p).len() implies param_ok(#[trigger] acc.push(p)[i]) by {
            if i < acc.len() {
                assert(acc.push(p)[i] == acc[i]);
            }
        }
        if is_punct(t, k + 3, Punct::Comma) {
            lemma_wf_params_parse(t, k + 4, module, function, acc.push(p));
        }
    }
}

/// What the parser reads as effects are read effects.
proof fn lemma_wf_effects_parse(t: Seq<TokV>, k: int, acc: Seq<(Seq<char>, Span)>)
    requires
        toks_good(t),
        wf_effects(acc),
    ensures
        p_effects(t, k, acc) is Ok ==> wf_effects(p_effects(t, k, acc)->Ok_0.0),
    decreases t.len() - k,
{
    if !(k < 0 || k >= t.len()) && !is_punct(t, k, Punct::RBrace) {
        lemma_wf_qname_parse(t, k, Seq::empty());
        match p_qname(t, k, Seq::empty()) {
            Err(_) => {},
            Ok((parts, k2)) => {
                if !(k2 <= k || k2 > t.len()) {
                    let effect = (join_parts(parts), crate::syntax::parts_span(parts));
                    assert(wf_qname(effect.0));
                    let acc2 = acc.push(effect);
                    assert forall|i: int| 0 <= i < acc2.len() implies effect_ok(#[trigger] acc2[i]) by {
                        if i < acc.len() {
                            assert(acc2[i] == acc[i]);
                        }
                    }
                    if is_punct(t, k2, Punct::Comma) {
                        lemma_wf_effects_parse(t, k2 + 1, acc2);
                    }
                }
            },
        }
    }
}

/// What the parser reads as a function is a read function.
proof fn lemma_wf_function_parse(t: Seq<TokV>, k: int, module: Seq<char>)
    requires
        toks_good(t),
    ensures
        p_function(t, k, module) is Ok ==> wf_fn(p_function(t, k, module)->Ok_0.0),
{
    let public = is_word(t, k, "pub"@);
    let j = if public { k + 1 } else { k };
    if is_word(t, j, "fn"@) && is_name(t, j + 1) && is_punct(t, j + 2, Punct::LParen) {
        lemma_name_tok(t, j + 1);
        let name = t[j + 1].text;
        lemma_wf_params_parse(t, j + 3, module, name, Seq::empty());
        match p_params(t, j + 3, module, name, Seq::empty()) {
            Err(_) => {},
            Ok((params, j2)) => {
                if is_punct(t, j2, Punct::Arrow) && is_name(t, j2 + 1) {
                    lemma_name_tok(t, j2 + 1);
                    if is_punct(t, j2 + 2, Punct::Bang) {
                        lemma_wf_effects_parse(t, j2 + 4, Seq::empty());
                    }
                    match p_effect_row(t, j2 + 2) {
                        Err(_) => {},
                        Ok((effects, j4)) => {
                            lemma_wf_stmts_parse(t, j4 + 1, module, name, Seq::empty(), 0);
                        },
                    }
                }
            },
        }
    }
}

/// What the parser reads as imports import read module names.
proof fn lemma_wf_imports_parse(t: Seq<TokV>, k: int, acc: Seq<ImportV>)
    requires
        toks_good(t),
        wf_mods(acc.map_values(|i: ImportV| i.module)),
    ensures
        p_imports(t, k, acc) is Ok ==> wf_mods(p_imports(t, k, acc)->Ok_0.0.map_values(|i: ImportV| i.module)),
    decreases t.len() - k,
{
    if is_word(t, k, "import"@) {
        lemma_wf_qname_parse(t, k + 1, Seq::empty());
        match p_qname(t, k + 1, Seq::empty()) {
            Err(_) => {},
            Ok((parts, k2)) => {
                if !(k2 <= k || k2 > t.len()) {
                    let im = ImportV {
                        module: join_parts(parts),
                        span: Span { start: t[k].span.start, end: crate::syntax::parts_span(parts).end },
                    };
                    assert(wf_qname(im.module));
                    let acc2 = acc.push(im);
                    let ms = acc.map_values(|i: ImportV| i.module);
                    let ms2 = acc2.map_values(|i: ImportV| i.module);
                    assert forall|i: int| 0 <= i < ms2.len() implies wf_qname(#[trigger] ms2[i]) by {
                        if i < acc.len() {
                            assert(ms2[i] == ms[i]);
                        }
                    }
                    lemma_wf_imports_parse(t, k2, acc2);
                }
            },
        }
    }
}

/// What the parser reads as functions are read functions.
proof fn lemma_wf_functions_parse(t: Seq<TokV>, k: int, module: Seq<char>, acc: Seq<FunctionV>)
    requires
        toks_good(t),
        wf_fns(acc),
    ensures
        p_functions(t, k, module, acc) is Ok ==> wf_fns(p_functions(t, k, module, acc)->Ok_0.0),
    decreases t.len() - k,
{
    if is_word(t, k, "pub"@) || is_word(t, k, "fn"@) {
        lemma_wf_function_parse(t, k, module);
        match p_function(t, k, module) {
            Err(_) => {},
            Ok((f, k2)) => {
                if !(k2 <= k || k2 > t.len()) {
                    assert forall|i: int| 0 <= i < acc.push(f).len() implies wf_fn(#[trigger] acc.push(f)[i]) by {
                        if i < acc.len() {
                            assert(acc.push(f)[i] == acc[i]);
                        }
                    }
                    lemma_wf_functions_parse(t, k2, module, acc.push(f));
                }
            },
        }
    }
}

/// Every module the parser reads is one the parser reads back.
pub proof fn lemma_parsed_program_wf(s: Seq<char>)
    requires
        spec_parse(s) is Ok,
    ensures
        wf_program(spec_parse(s)->Ok_0),
        spec_parse(s)->Ok_0.has_comments == crate::lexer::spec_lex(s)->Ok_0.1,
{
    lemma_lex_good(s, 0, LexMode::Normal, Seq::empty(), false);
    let t = crate::lexer::spec_lex(s)->Ok_0.0;
    if t.len() > 0 && is_word(t, 0, "module"@) {
        lemma_wf_qname_parse(t, 1, Seq::empty());
        match p_qname(t, 1, Seq::empty()) {
            Err(_) => {},
            Ok((parts, k1)) => {
                assert(wf_qname(join_parts(parts)));
                assert(Seq::<ImportV>::empty().map_values(|i: ImportV| i.module) =~= Seq::<Seq<char>>::empty());
                lemma_wf_imports_parse(t, k1, Seq::empty());
                match p_imports(t, k1, Seq::empty()) {
                    Err(_) => {},
                    Ok((imports, k2)) => {
                        lemma_wf_functions_parse(t, k2, join_parts(parts), Seq::empty());
                    },
                }
            },
        }
    }
}

/// Formatting is idempotent: whatever source text parses, the text the
/// formatter makes of it (the source itself when it holds a comment, its
/// canonical text otherwise) parses too, and the formatter makes that text
/// of it again.
pub proof fn lemma_formatting_is_idempotent(s: Seq<char>)
    requires
        spec_parse(s) is Ok,
    ensures
        ({
            let p = spec_parse(s)->Ok_0;
            let s2 = if p.has_comments { s } else { fmt_program(p) };
            &&& spec_parse(s2) is Ok
            &&& (if spec_parse(s2)->Ok_0.has_comments { s2 } else { fmt_program(spec_parse(s2)->Ok_0) }) == s2
        }),
{
    let p = spec_parse(s)->Ok_0;
    if !p.has_comments {
        lemma_parsed_program_wf(s);
        lemma_canonical_program_reads_back(p);
    }
}

} // verus!
