//! The canonical text of a Flow document reads back as the same document:
//! what `format` writes, `parse` reads as the root it was written from.

use vstd::prelude::*;
use crate::flow_ast::{FlowAst, FormV};
use crate::flow_syntax::{
    DiagnosticV, Delimiter, LexMode, Span, TokenKindV, TokenV, all_atoms, atom_form, escape_char, escape_text, ends_atom, fmt,
    fmt_items, hex_digit, hex_lower, hex_value, lex_from, number_form, parse_form, parse_items, simple_escape, spaces,
    spec_format, spec_lex, spec_parse, unicode_escape, unicode_escape_text, unit_start,
};
use crate::text::{byte_len, byte_offset, spec_is_control, spec_is_whitespace};

verus! {

/// `cs` holds the text `s` from index `p` on.
pub open spec fn text_at(cs: Seq<char>, p: int, s: Seq<char>) -> bool {
    &&& 0 <= p
    &&& p + s.len() <= cs.len()
    &&& forall|j: int| 0 <= j < s.len() ==> cs[p + j] == #[trigger] s[j]
}

proof fn lemma_text_at_split(cs: Seq<char>, p: int, a: Seq<char>, b: Seq<char>)
    requires
        text_at(cs, p, a + b),
    ensures
        text_at(cs, p, a),
        text_at(cs, p + a.len(), b),
{
    assert forall|j: int| 0 <= j < a.len() implies cs[p + j] == #[trigger] a[j] by {
        assert((a + b)[j] == a[j]);
    }
    assert forall|j: int| 0 <= j < b.len() implies cs[p + a.len() + j] == #[trigger] b[j] by {
        assert((a + b)[a.len() + j] == b[j]);
    }
}

proof fn lemma_skip_whitespace(cs: Seq<char>, q: int, m: int, acc: Seq<TokenV>)
    requires
        0 <= q,
        0 <= m,
        q + m <= cs.len(),
        forall|j: int| q <= j < q + m ==> spec_is_whitespace(#[trigger] cs[j]),
    ensures
        lex_from(cs, q, LexMode::Normal, acc) == lex_from(cs, q + m, LexMode::Normal, acc),
    decreases m,
{
    if m > 0 {
        assert(spec_is_whitespace(cs[q]));
        lemma_skip_whitespace(cs, q + 1, m - 1, acc);
    }
}

proof fn lemma_scan_atom(cs: Seq<char>, start: int, j: int, e: int, acc: Seq<TokenV>)
    requires
        0 <= start < j <= e <= cs.len(),
        forall|x: int| j <= x < e ==> !ends_atom(#[trigger] cs[x]),
    ensures
        lex_from(cs, j, LexMode::Atom { start }, acc) == lex_from(cs, e, LexMode::Atom { start }, acc),
    decreases e - j,
{
    if j < e {
        assert(!ends_atom(cs[j]));
        lemma_scan_atom(cs, start, j + 1, e, acc);
    }
}

proof fn lemma_hex_lower(d: nat)
    requires
        d < 16,
    ensures
        hex_digit(hex_lower(d)) == Some(d),
        hex_lower(d) != '+',
{
}

proof fn lemma_control_escape(c: char)
    requires
        spec_is_control(c),
    ensures
        ({
            let e = unicode_escape_text(c as u32 as nat);
            unicode_escape(e.subrange(2, 6)) == Some(c)
        }),
{
    let v = c as u32 as nat;
    let e = unicode_escape_text(v);
    let d = e.subrange(2, 6);
    lemma_hex_lower((v / 4096) % 16);
    lemma_hex_lower((v / 256) % 16);
    lemma_hex_lower((v / 16) % 16);
    lemma_hex_lower(v % 16);
    assert(v < 256);
    assert((v / 4096) % 16 == 0 && (v / 256) % 16 == 0) by (nonlinear_arith)
        requires
            v < 256,
    ;
    assert((v / 16) % 16 == v / 16) by (nonlinear_arith)
        requires
            v < 256,
    ;
    assert(v == (v / 16) * 16 + v % 16) by (nonlinear_arith);
    let s1 = seq![d[0]];
    let s2 = seq![d[0], d[1]];
    let s3 = seq![d[0], d[1], d[2]];
    assert(s1.drop_last() =~= Seq::<char>::empty());
    assert(s2.drop_last() =~= s1);
    assert(s3.drop_last() =~= s2);
    assert(d.drop_last() =~= s3);
    assert(hex_value(Seq::<char>::empty()) == Some(0nat));
    assert(hex_value(s1) == Some(0nat));
    assert(hex_value(s2) == Some(0nat));
    assert(hex_value(s3) == Some(v / 16));
    assert(hex_value(d) == Some(v));
    assert(d[0] != '+');
}

/// Lexing the escaped form of one character inside a string literal adds
/// that character to the string.
proof fn lemma_lex_escape_char(cs: Seq<char>, q: int, start: int, value: Seq<char>, c: char, acc: Seq<TokenV>)
    requires
        text_at(cs, q, escape_char(c)),
    ensures
        lex_from(cs, q, LexMode::Str { start, value }, acc) == lex_from(
            cs,
            q + escape_char(c).len(),
            LexMode::Str { start, value: value.push(c) },
            acc,
        ),
{
    let e = escape_char(c);
    assert(cs[q] == e[0]);
    if c == '"' || c == '\\' || c == '\n' || c == '\r' || c == '\t' {
        assert(cs[q + 1] == e[1]);
        assert(e[0] == '\\');
        assert(simple_escape(e[1]) == Some(c));
    } else if spec_is_control(c) {
        lemma_control_escape(c);
        let d = e.subrange(2, 6);
        assert(cs[q + 1] == e[1] && e[1] == 'u');
        assert(cs[q + 2] == e[2] && cs[q + 3] == e[3] && cs[q + 4] == e[4] && cs[q + 5] == e[5]);
        let m1 = LexMode::Unicode { start, value, escape: q + 1, digits: Seq::empty() };
        let m2 = LexMode::Unicode { start, value, escape: q + 1, digits: seq![d[0]] };
        let m3 = LexMode::Unicode { start, value, escape: q + 1, digits: seq![d[0], d[1]] };
        let m4 = LexMode::Unicode { start, value, escape: q + 1, digits: seq![d[0], d[1], d[2]] };
        assert(Seq::<char>::empty().push(d[0]) =~= seq![d[0]]);
        assert(seq![d[0]].push(d[1]) =~= seq![d[0], d[1]]);
        assert(seq![d[0], d[1]].push(d[2]) =~= seq![d[0], d[1], d[2]]);
        assert(seq![d[0], d[1], d[2]].push(d[3]) =~= d);
        assert(lex_from(cs, q, LexMode::Str { start, value }, acc) == lex_from(
            cs,
            q + 1,
            LexMode::Escape { start, value },
            acc,
        ));
        assert(lex_from(cs, q + 1, LexMode::Escape { start, value }, acc) == lex_from(cs, q + 2, m1, acc));
        assert(lex_from(cs, q + 2, m1, acc) == lex_from(cs, q + 3, m2, acc));
        assert(lex_from(cs, q + 3, m2, acc) == lex_from(cs, q + 4, m3, acc));
        assert(lex_from(cs, q + 4, m3, acc) == lex_from(cs, q + 5, m4, acc));
    } else {
        assert(e =~= seq![c]);
    }
}

/// Lexing the escaped text of a string inside a string literal adds the
/// string's characters.
proof fn lemma_lex_escaped(cs: Seq<char>, q: int, start: int, pre: Seq<char>, v: Seq<char>, acc: Seq<TokenV>)
    requires
        text_at(cs, q, escape_text(v)),
    ensures
        lex_from(cs, q, LexMode::Str { start, value: pre }, acc) == lex_from(
            cs,
            q + escape_text(v).len(),
            LexMode::Str { start, value: pre + v },
            acc,
        ),
    decreases v.len(),
{
    if v.len() == 0 {
        assert(pre + v =~= pre);
    } else {
        let init = v.drop_last();
        let c = v.last();
        lemma_text_at_split(cs, q, escape_text(init), escape_char(c));
        lemma_lex_escaped(cs, q, start, pre, init, acc);
        lemma_lex_escape_char(cs, q + escape_text(init).len(), start, pre + init, c, acc);
        assert((pre + init).push(c) =~= pre + v);
    }
}

/// A text that the lexer reads as a single atom: it does not begin with
/// `"`, and none of its characters ends an atom.
pub open spec fn atom_text(x: Seq<char>) -> bool {
    &&& x.len() >= 1
    &&& x[0] != '"'
    &&& forall|j: int| 0 <= j < x.len() ==> !ends_atom(#[trigger] x[j])
}

/// Whether a form prints as text that reads back as itself: each atom it
/// holds prints as an atom text that denotes that atom.
pub open spec fn reprintable(f: FormV) -> bool
    decreases f, 1nat, 0nat,
{
    match f {
        FormV::List(items) => {
            proof {
                assert(decreases_to!(f => items));
            }
            items_reprintable(items, 0)
        },
        FormV::String(_) => true,
        _ => atom_text(fmt(f, 0)) && atom_form(fmt(f, 0)) == f,
    }
}

/// Whether `items[k..]` are reprintable.
pub open spec fn items_reprintable(items: Seq<FormV>, k: int) -> bool
    decreases items, 0nat, items.len() - k,
{
    if 0 <= k < items.len() {
        proof {
            assert(decreases_to!(items => items[k]));
        }
        reprintable(items[k]) && items_reprintable(items, k + 1)
    } else {
        true
    }
}

/// The kinds of the tokens that the text of a form lexes into.
pub open spec fn form_kinds(f: FormV) -> Seq<TokenKindV>
    decreases f, 1nat, 0nat,
{
    match f {
        FormV::List(items) => {
            proof {
                assert(decreases_to!(f => items));
            }
            seq![TokenKindV::Open(Delimiter::Parenthesis)] + items_kinds(items, 0) + seq![
                TokenKindV::Close(Delimiter::Parenthesis),
            ]
        },
        FormV::String(v) => seq![TokenKindV::Str(v)],
        _ => seq![TokenKindV::Atom(fmt(f, 0))],
    }
}

/// The kinds of the tokens of `items[k..]`.
pub open spec fn items_kinds(items: Seq<FormV>, k: int) -> Seq<TokenKindV>
    decreases items, 0nat, items.len() - k,
{
    if 0 <= k < items.len() {
        proof {
            assert(decreases_to!(items => items[k]));
        }
        form_kinds(items[k]) + items_kinds(items, k + 1)
    } else {
        Seq::empty()
    }
}

/// The kinds of a sequence of tokens.
pub open spec fn kinds_of(t: Seq<TokenV>) -> Seq<TokenKindV> {
    Seq::new(t.len(), |i: int| t[i].kind)
}

proof fn lemma_kinds_push(a: Seq<TokenV>, tok: TokenV)
    ensures
        kinds_of(a.push(tok)) == kinds_of(a).push(tok.kind),
        kinds_of(seq![tok]) == seq![tok.kind],
{
    assert(kinds_of(a.push(tok)) =~= kinds_of(a).push(tok.kind));
    assert(kinds_of(seq![tok]) =~= seq![tok.kind]);
}

proof fn lemma_kinds_add(a: Seq<TokenV>, b: Seq<TokenV>)
    ensures
        kinds_of(a + b) == kinds_of(a) + kinds_of(b),
{
    assert(kinds_of(a + b) =~= kinds_of(a) + kinds_of(b));
}

/// The text of a form lexes, from between two tokens, into tokens of the
/// kinds `form_kinds` lists, provided what follows it ends an atom.
proof fn lemma_lex_form(cs: Seq<char>, p: int, f: FormV, indent: nat, acc: Seq<TokenV>) -> (toks: Seq<TokenV>)
    requires
        reprintable(f),
        text_at(cs, p, fmt(f, indent)),
        p + fmt(f, indent).len() == cs.len() || ends_atom(cs[p + fmt(f, indent).len()]),
    ensures
        kinds_of(toks) == form_kinds(f),
        lex_from(cs, p, LexMode::Normal, acc) == lex_from(
            cs,
            p + fmt(f, indent).len(),
            LexMode::Normal,
            acc + toks,
        ),
    decreases f, 0nat,
{
    let s = fmt(f, indent);
    let n = s.len() as int;
    match f {
        FormV::List(items) => {
            let here = byte_offset(cs, p) as int;
            let open = TokenV {
                kind: TokenKindV::Open(Delimiter::Parenthesis),
                span: Span { start: here as usize, end: (here + 1) as usize },
            };
            assert(cs[p] == s[0] && s[0] == '(');
            assert(lex_from(cs, p, LexMode::Normal, acc) == lex_from(cs, p + 1, LexMode::Normal, acc.push(open)));
            let (inner, q) = if items.len() == 0 {
                assert(s =~= seq!['(', ')']);
                (Seq::<TokenV>::empty(), p + 1)
            } else {
                let inline = all_atoms(items);
                let body = fmt_items(items, 0, indent, inline);
                assert(s == seq!['('] + body + seq![')']);
                lemma_text_at_split(cs, p, seq!['('] + body, seq![')']);
                lemma_text_at_split(cs, p, seq!['('], body);
                assert(seq![')'][0] == ')');
                assert(cs[p + 1 + body.len()] == ')');
                let t = lemma_lex_items(cs, p + 1, items, 0, indent, inline, acc.push(open));
                (t, p + 1 + body.len())
            };
            let here2 = byte_offset(cs, q) as int;
            let close = TokenV {
                kind: TokenKindV::Close(Delimiter::Parenthesis),
                span: Span { start: here2 as usize, end: (here2 + 1) as usize },
            };
            assert(q + 1 == p + n);
            assert(cs[q] == ')');
            assert(lex_from(cs, q, LexMode::Normal, acc.push(open) + inner) == lex_from(
                cs,
                q + 1,
                LexMode::Normal,
                (acc.push(open) + inner).push(close),
            ));
            let toks = seq![open] + inner + seq![close];
            assert((acc.push(open) + inner).push(close) =~= acc + toks);
            lemma_kinds_add(seq![open] + inner, seq![close]);
            lemma_kinds_add(seq![open], inner);
            lemma_kinds_push(Seq::empty(), open);
            lemma_kinds_push(Seq::empty(), close);
            if items.len() == 0 {
                assert(items_kinds(items, 0) =~= Seq::<TokenKindV>::empty());
            }
            toks
        },
        FormV::String(v) => {
            let esc = escape_text(v);
            assert(s == seq!['"'] + esc + seq!['"']);
            lemma_text_at_split(cs, p, seq!['"'] + esc, seq!['"']);
            lemma_text_at_split(cs, p, seq!['"'], esc);
            assert(cs[p] == '"');
            assert(lex_from(cs, p, LexMode::Normal, acc) == lex_from(
                cs,
                p + 1,
                LexMode::Str { start: p, value: Seq::empty() },
                acc,
            ));
            lemma_lex_escaped(cs, p + 1, p, Seq::empty(), v, acc);
            assert(Seq::<char>::empty() + v =~= v);
            let q = p + 1 + esc.len();
            assert(cs[q] == '"');
            let tok = TokenV {
                kind: TokenKindV::Str(v),
                span: Span { start: byte_offset(cs, p) as usize, end: byte_offset(cs, q + 1) as usize },
            };
            assert(lex_from(cs, q, LexMode::Str { start: p, value: v }, acc) == lex_from(
                cs,
                q + 1,
                LexMode::Normal,
                acc.push(tok),
            ));
            lemma_kinds_push(Seq::empty(), tok);
            assert(acc.push(tok) =~= acc + seq![tok]);
            seq![tok]
        },
        _ => {
            assert(fmt(f, indent) == fmt(f, 0));
            assert(atom_text(s));
            assert(!ends_atom(s[0]));
            assert(cs[p] == s[0]);
            assert(lex_from(cs, p, LexMode::Normal, acc) == lex_from(cs, p + 1, LexMode::Atom { start: p }, acc));
            assert forall|x: int| p + 1 <= x < p + n implies !ends_atom(#[trigger] cs[x]) by {
                assert(cs[x] == s[x - p]);
            }
            lemma_scan_atom(cs, p, p + 1, p + n, acc);
            assert(cs.subrange(p, p + n) =~= s);
            let end = if p + n >= cs.len() {
                byte_len(cs) as int
            } else {
                byte_offset(cs, p + n) as int
            };
            let tok = TokenV {
                kind: TokenKindV::Atom(cs.subrange(p, p + n)),
                span: Span { start: byte_offset(cs, p) as usize, end: end as usize },
            };
            assert(lex_from(cs, p + n, LexMode::Atom { start: p }, acc) == lex_from(
                cs,
                p + n,
                LexMode::Normal,
                acc.push(tok),
            ));
            lemma_kinds_push(Seq::empty(), tok);
            assert(acc.push(tok) =~= acc + seq![tok]);
            seq![tok]
        },
    }
}

/// The text of `items[k..]` inside a list lexes into tokens of the kinds
/// `items_kinds` lists.
proof fn lemma_lex_items(
    cs: Seq<char>,
    p: int,
    items: Seq<FormV>,
    k: int,
    indent: nat,
    inline: bool,
    acc: Seq<TokenV>,
) -> (toks: Seq<TokenV>)
    requires
        0 <= k <= items.len(),
        items_reprintable(items, k),
        text_at(cs, p, fmt_items(items, k, indent, inline)),
        p + fmt_items(items, k, indent, inline).len() == cs.len() || ends_atom(
            cs[p + fmt_items(items, k, indent, inline).len()],
        ),
    ensures
        kinds_of(toks) == items_kinds(items, k),
        lex_from(cs, p, LexMode::Normal, acc) == lex_from(
            cs,
            p + fmt_items(items, k, indent, inline).len(),
            LexMode::Normal,
            acc + toks,
        ),
    decreases items, items.len() - k,
{
    if k >= items.len() {
        assert(fmt_items(items, k, indent, inline) =~= Seq::<char>::empty());
        assert(acc + Seq::<TokenV>::empty() =~= acc);
        assert(kinds_of(Seq::<TokenV>::empty()) =~= Seq::<TokenKindV>::empty());
        Seq::empty()
    } else {
        let sep = if k == 0 {
            Seq::<char>::empty()
        } else if inline {
            seq![' ']
        } else {
            seq!['\n'] + spaces(indent + 2)
        };
        let child = if inline { indent } else { indent + 2 };
        let item = fmt(items[k], child);
        let rest = fmt_items(items, k + 1, indent, inline);
        assert(fmt_items(items, k, indent, inline) == sep + item + rest);
        lemma_text_at_split(cs, p, sep + item, rest);
        lemma_text_at_split(cs, p, sep, item);
        assert forall|j: int| p <= j < p + sep.len() implies spec_is_whitespace(#[trigger] cs[j]) by {
            assert(cs[j] == sep[j - p]);
            if k > 0 && !inline && j > p {
                assert(sep[j - p] == spaces(indent + 2)[j - p - 1]);
            }
        }
        lemma_skip_whitespace(cs, p, sep.len() as int, acc);
        let q = p + sep.len();
        let q2 = q + item.len();
        if k + 1 < items.len() {
            let sep2 = if inline { seq![' '] } else { seq!['\n'] + spaces(indent + 2) };
            assert(rest == sep2 + fmt(items[k + 1], child) + fmt_items(items, k + 2, indent, inline));
            assert(rest[0] == sep2[0]);
            assert(cs[q2] == rest[0]);
        } else {
            assert(rest =~= Seq::<char>::empty());
        }
        let t1 = lemma_lex_form(cs, q, items[k], child, acc);
        let t2 = lemma_lex_items(cs, q2, items, k + 1, indent, inline, acc + t1);
        assert(acc + t1 + t2 =~= acc + (t1 + t2));
        lemma_kinds_add(t1, t2);
        t1 + t2
    }
}

/// `t` holds tokens of the kinds `ks` from index `k` on.
pub open spec fn kinds_at(t: Seq<TokenV>, k: int, ks: Seq<TokenKindV>) -> bool {
    &&& 0 <= k
    &&& k + ks.len() <= t.len()
    &&& forall|j: int| 0 <= j < ks.len() ==> t[k + j].kind == #[trigger] ks[j]
}

proof fn lemma_kinds_at_split(t: Seq<TokenV>, k: int, a: Seq<TokenKindV>, b: Seq<TokenKindV>)
    requires
        kinds_at(t, k, a + b),
    ensures
        kinds_at(t, k, a),
        kinds_at(t, k + a.len(), b),
{
    assert forall|j: int| 0 <= j < a.len() implies t[k + j].kind == #[trigger] a[j] by {
        assert((a + b)[j] == a[j]);
    }
    assert forall|j: int| 0 <= j < b.len() implies t[k + a.len() + j].kind == #[trigger] b[j] by {
        assert((a + b)[a.len() + j] == b[j]);
    }
}

proof fn lemma_form_kinds_start(f: FormV)
    ensures
        form_kinds(f).len() >= 1,
        !(form_kinds(f)[0] is Close),
{
}

/// Tokens of the kinds of a reprintable form parse back into that form.
proof fn lemma_parse_form(t: Seq<TokenV>, k: int, f: FormV)
    requires
        reprintable(f),
        kinds_at(t, k, form_kinds(f)),
    ensures
        parse_form(t, k) is Ok,
        parse_form(t, k)->Ok_0.0 == f,
        parse_form(t, k)->Ok_0.2 == k + form_kinds(f).len(),
    decreases f, 0nat,
{
    let ks = form_kinds(f);
    assert(t[k + 0].kind == ks[0]);
    match f {
        FormV::List(items) => {
            let inner = items_kinds(items, 0);
            let close = seq![TokenKindV::Close(Delimiter::Parenthesis)];
            assert(ks == seq![TokenKindV::Open(Delimiter::Parenthesis)] + inner + close);
            lemma_kinds_at_split(t, k, seq![TokenKindV::Open(Delimiter::Parenthesis)] + inner, close);
            lemma_kinds_at_split(t, k, seq![TokenKindV::Open(Delimiter::Parenthesis)], inner);
            lemma_parse_items(t, k + 1, k, items, 0, Seq::empty());
            assert(Seq::<FormV>::empty() + items.skip(0) =~= items);
        },
        _ => {},
    }
}

/// Tokens of the kinds of `items[i..]`, then a closing parenthesis, parse
/// into the rest of a list.
proof fn lemma_parse_items(t: Seq<TokenV>, j: int, open: int, items: Seq<FormV>, i: int, acc: Seq<FormV>)
    requires
        0 <= i <= items.len(),
        0 <= open,
        items_reprintable(items, i),
        kinds_at(t, j, items_kinds(items, i) + seq![TokenKindV::Close(Delimiter::Parenthesis)]),
    ensures
        parse_items(t, j, open, Delimiter::Parenthesis, acc) is Ok,
        parse_items(t, j, open, Delimiter::Parenthesis, acc)->Ok_0.0 == FormV::List(acc + items.skip(i)),
        parse_items(t, j, open, Delimiter::Parenthesis, acc)->Ok_0.2 == j + items_kinds(items, i).len() + 1,
    decreases items, items.len() - i,
{
    let close = seq![TokenKindV::Close(Delimiter::Parenthesis)];
    lemma_kinds_at_split(t, j, items_kinds(items, i), close);
    if i >= items.len() {
        assert(items_kinds(items, i) =~= Seq::<TokenKindV>::empty());
        assert(t[j + 0].kind == close[0]);
        assert(acc + items.skip(i) =~= acc);
    } else {
        let fk = form_kinds(items[i]);
        assert(items_kinds(items, i) == fk + items_kinds(items, i + 1));
        lemma_kinds_at_split(t, j, fk, items_kinds(items, i + 1));
        lemma_form_kinds_start(items[i]);
        assert(t[j + 0].kind == fk[0]);
        lemma_parse_form(t, j, items[i]);
        assert((fk + items_kinds(items, i + 1)) + close =~= fk + (items_kinds(items, i + 1) + close));
        lemma_kinds_at_split(t, j, fk, items_kinds(items, i + 1) + close);
        lemma_parse_items(t, j + fk.len(), open, items, i + 1, acc.push(items[i]));
        assert(acc.push(items[i]) + items.skip(i + 1) =~= acc + items.skip(i));
    }
}

proof fn lemma_unit_start_bound(v: Seq<char>, j: int)
    requires
        0 <= j,
    ensures
        unit_start(v, j) <= v.len(),
        j <= v.len() ==> j <= unit_start(v, j),
    decreases v.len() - j,
{
    if j < v.len() {
        lemma_unit_start_bound(v, j + 1);
    }
}

/// An atom prints as the text it was read from.
proof fn lemma_atom_prints_back(v: Seq<char>)
    requires
        v.len() >= 1,
    ensures
        fmt(atom_form(v), 0) == v,
        !(atom_form(v) is List),
        !(atom_form(v) is String),
{
    reveal_strlit("true");
    reveal_strlit("false");
    reveal_strlit("nil");
    if v == "true"@ || v == "false"@ || v == "nil"@ {
    } else if v.len() > 1 && v[0] == ':' {
        assert(seq![':'] + v.drop_first() =~= v);
    } else {
        lemma_unit_start_bound(v, 0);
        let u = unit_start(v, 0);
        match number_form(v) {
            Some(f) => {
                if v.skip(u).len() == 0 {
                    assert(v.take(u) =~= v);
                } else {
                    assert(v.take(u) + v.skip(u) =~= v);
                }
            },
            None => {},
        }
    }
}

/// Every atom token holds an atom text.
pub open spec fn atoms_ok(t: Seq<TokenV>) -> bool {
    forall|x: int| 0 <= x < t.len() && (#[trigger] t[x]).kind is Atom ==> atom_text(t[x].kind->Atom_0)
}

/// Inside an atom, the characters read so far form an atom text.
pub open spec fn mode_ok(cs: Seq<char>, i: int, m: LexMode) -> bool {
    match m {
        LexMode::Atom { start } => 0 <= start < i <= cs.len() && cs[start] != '"' && forall|x: int|
            start <= x < i ==> !ends_atom(#[trigger] cs[x]),
        _ => true,
    }
}

proof fn lemma_atoms_push(t: Seq<TokenV>, tok: TokenV)
    requires
        atoms_ok(t),
        tok.kind is Atom ==> atom_text(tok.kind->Atom_0),
    ensures
        atoms_ok(t.push(tok)),
{
    assert forall|x: int| 0 <= x < t.push(tok).len() && (#[trigger] t.push(tok)[x]).kind is Atom implies atom_text(
        t.push(tok)[x].kind->Atom_0,
    ) by {
        if x < t.len() {
            assert(t.push(tok)[x] == t[x]);
        }
    }
}

proof fn lemma_atom_slice(cs: Seq<char>, start: int, i: int)
    requires
        0 <= start < i <= cs.len(),
        cs[start] != '"',
        forall|x: int| start <= x < i ==> !ends_atom(#[trigger] cs[x]),
    ensures
        atom_text(cs.subrange(start, i)),
{
    assert forall|j: int| 0 <= j < cs.subrange(start, i).len() implies !ends_atom(#[trigger] cs.subrange(start, i)[j]) by {
        assert(cs.subrange(start, i)[j] == cs[start + j]);
    }
}

/// The lexer only ever yields atom tokens that hold atom texts.
proof fn lemma_lex_atoms(cs: Seq<char>, i: int, m: LexMode, acc: Seq<TokenV>)
    requires
        0 <= i,
        atoms_ok(acc),
        mode_ok(cs, i, m),
    ensures
        lex_from(cs, i, m, acc) is Ok ==> atoms_ok(lex_from(cs, i, m, acc)->Ok_0),
    decreases cs.len() - i, crate::flow_syntax::mode_rank(m),
{
    let total = byte_len(cs) as int;
    if i >= cs.len() {
        match m {
            LexMode::Atom { start } => {
                lemma_atom_slice(cs, start, cs.len() as int);
                let tok = TokenV {
                    kind: TokenKindV::Atom(cs.subrange(start, cs.len() as int)),
                    span: Span { start: byte_offset(cs, start) as usize, end: total as usize },
                };
                lemma_atoms_push(acc, tok);
            },
            _ => {},
        }
    } else {
        let c = cs[i];
        let here = byte_offset(cs, i) as int;
        match m {
            LexMode::Normal => {
                if spec_is_whitespace(c) {
                    lemma_lex_atoms(cs, i + 1, LexMode::Normal, acc);
                } else if c == ';' {
                    lemma_lex_atoms(cs, i + 1, LexMode::Comment, acc);
                } else if c == '(' || c == ')' || c == '[' || c == ']' {
                    let d = if c == '(' || c == ')' {
                        Delimiter::Parenthesis
                    } else {
                        Delimiter::Bracket
                    };
                    let kind = if c == '(' || c == '[' {
                        TokenKindV::Open(d)
                    } else {
                        TokenKindV::Close(d)
                    };
                    let tok = TokenV { kind, span: Span { start: here as usize, end: (here + 1) as usize } };
                    lemma_atoms_push(acc, tok);
                    lemma_lex_atoms(cs, i + 1, LexMode::Normal, acc.push(tok));
                } else if c == '"' {
                    lemma_lex_atoms(cs, i + 1, LexMode::Str { start: i, value: Seq::empty() }, acc);
                } else {
                    assert(!ends_atom(c));
                    lemma_lex_atoms(cs, i + 1, LexMode::Atom { start: i }, acc);
                }
            },
            LexMode::Comment => {
                if c == '\n' {
                    lemma_lex_atoms(cs, i + 1, LexMode::Normal, acc);
                } else {
                    lemma_lex_atoms(cs, i + 1, LexMode::Comment, acc);
                }
            },
            LexMode::Atom { start } => {
                if ends_atom(c) {
                    lemma_atom_slice(cs, start, i);
                    let tok = TokenV {
                        kind: TokenKindV::Atom(cs.subrange(start, i)),
                        span: Span { start: byte_offset(cs, start) as usize, end: here as usize },
                    };
                    lemma_atoms_push(acc, tok);
                    lemma_lex_atoms(cs, i, LexMode::Normal, acc.push(tok));
                } else {
                    lemma_lex_atoms(cs, i + 1, LexMode::Atom { start }, acc);
                }
            },
            LexMode::Str { start, value } => {
                if c == '"' {
                    let tok = TokenV {
                        kind: TokenKindV::Str(value),
                        span: Span { start: byte_offset(cs, start) as usize, end: byte_offset(cs, i + 1) as usize },
                    };
                    lemma_atoms_push(acc, tok);
                    lemma_lex_atoms(cs, i + 1, LexMode::Normal, acc.push(tok));
                } else if c == '\\' {
                    lemma_lex_atoms(cs, i + 1, LexMode::Escape { start, value }, acc);
                } else {
                    lemma_lex_atoms(cs, i + 1, LexMode::Str { start, value: value.push(c) }, acc);
                }
            },
            LexMode::Escape { start, value } => {
                if c == 'u' {
                    lemma_lex_atoms(
                        cs,
                        i + 1,
                        LexMode::Unicode { start, value, escape: i, digits: Seq::empty() },
                        acc,
                    );
                } else {
                    match simple_escape(c) {
                        Some(e) => lemma_lex_atoms(cs, i + 1, LexMode::Str { start, value: value.push(e) }, acc),
                        None => {},
                    }
                }
            },
            LexMode::Unicode { start, value, escape, digits } => {
                let d2 = digits.push(c);
                if d2.len() < 4 {
                    lemma_lex_atoms(cs, i + 1, LexMode::Unicode { start, value, escape, digits: d2 }, acc);
                } else {
                    match unicode_escape(d2) {
                        Some(e) => lemma_lex_atoms(cs, i + 1, LexMode::Str { start, value: value.push(e) }, acc),
                        None => {},
                    }
                }
            },
        }
    }
}

proof fn lemma_items_reprintable(items: Seq<FormV>, k: int)
    requires
        0 <= k,
        forall|x: int| k <= x < items.len() ==> reprintable(#[trigger] items[x]),
    ensures
        items_reprintable(items, k),
    decreases items.len() - k,
{
    if k < items.len() {
        lemma_items_reprintable(items, k + 1);
    }
}

/// What the parser reads from tokens whose atoms hold atom texts is
/// reprintable.
proof fn lemma_parsed_reprintable(t: Seq<TokenV>, k: int)
    requires
        atoms_ok(t),
    ensures
        parse_form(t, k) is Ok ==> reprintable(parse_form(t, k)->Ok_0.0),
    decreases t.len() - k, 0nat,
{
    if 0 <= k < t.len() {
        match t[k].kind {
            TokenKindV::Atom(v) => {
                lemma_atom_prints_back(v);
            },
            TokenKindV::Open(d) => {
                lemma_parsed_items_reprintable(t, k + 1, k, d, Seq::empty());
            },
            _ => {},
        }
    }
}

proof fn lemma_parsed_items_reprintable(t: Seq<TokenV>, k: int, open: int, d: Delimiter, acc: Seq<FormV>)
    requires
        atoms_ok(t),
        forall|x: int| 0 <= x < acc.len() ==> reprintable(#[trigger] acc[x]),
    ensures
        parse_items(t, k, open, d, acc) is Ok ==> reprintable(parse_items(t, k, open, d, acc)->Ok_0.0),
    decreases t.len() - k, 1nat,
{
    if 0 <= k < t.len() {
        match t[k].kind {
            TokenKindV::Close(c) => {
                lemma_items_reprintable(acc, 0);
            },
            _ => {
                lemma_parsed_reprintable(t, k);
                match parse_form(t, k) {
                    Ok((f, _, k2)) => {
                        if k < k2 <= t.len() {
                            assert forall|x: int| 0 <= x < acc.push(f).len() implies reprintable(
                                #[trigger] acc.push(f)[x],
                            ) by {
                                if x < acc.len() {
                                    assert(acc.push(f)[x] == acc[x]);
                                }
                            }
                            lemma_parsed_items_reprintable(t, k2, open, d, acc.push(f));
                        }
                    },
                    Err(_) => {},
                }
            },
        }
    }
}

/// A read document survives being written out: the canonical text of the
/// root that `parse` reads from a source is read back as that same root.
pub proof fn lemma_canonical_text_reads_back(source: Seq<char>)
    requires
        spec_parse(source) is Ok,
    ensures
        spec_parse(fmt(spec_parse(source)->Ok_0, 0) + seq!['\n']) == spec_parse(source),
{
    let root = spec_parse(source)->Ok_0;
    let t = spec_lex(source)->Ok_0;
    lemma_lex_atoms(source, 0, LexMode::Normal, Seq::empty());
    lemma_parsed_reprintable(t, 0);
    let text = fmt(root, 0);
    let n = text.len() as int;
    let cs = text + seq!['\n'];
    lemma_text_at_split(cs, 0, text, seq!['\n']);
    assert(seq!['\n'][0] == '\n');
    assert(cs[n] == '\n');
    assert(spec_is_whitespace('\n'));
    let toks = lemma_lex_form(cs, 0, root, 0, Seq::empty());
    assert(lex_from(cs, n, LexMode::Normal, Seq::empty() + toks) == lex_from(
        cs,
        n + 1,
        LexMode::Normal,
        Seq::empty() + toks,
    ));
    assert(Seq::<TokenV>::empty() + toks =~= toks);
    assert(spec_lex(cs) == Ok::<Seq<TokenV>, DiagnosticV>(toks));
    assert forall|j: int| 0 <= j < form_kinds(root).len() implies toks[0 + j].kind == #[trigger] form_kinds(root)[j] by {
        assert(kinds_of(toks)[j] == toks[j].kind);
    }
    lemma_parse_form(toks, 0, root);
}

/// Formatting a read document and reading the result gives back the same
/// root: `parse(format(ast))` is `ast` for every document `parse` produced.
pub proof fn lemma_format_then_parse(ast: FlowAst, source: Seq<char>)
    requires
        spec_parse(source) == Ok::<FormV, Seq<DiagnosticV>>(ast.root@),
        ast.spec_validate() is Ok,
    ensures
        spec_format(ast) is Ok,
        spec_parse(spec_format(ast)->Ok_0) == Ok::<FormV, Seq<DiagnosticV>>(ast.root@),
{
    lemma_canonical_text_reads_back(source);
}

} // verus!
