//! The bootstrap syntax of the Robine language: the typed tree of a module,
//! its lexer and its parser.
//!
//! A module reads
//! `module a.b` then any `import a.c` and `[pub] fn name(p: T, ...) -> T [! { E.F, ... }] { ... }`.
//! A body holds `let x[: T] = e;` and `e;` statements and may end with a
//! result expression. Expressions are literals, names, calls `a.b(e, ...)`,
//! `if e { e } else { e }`, parentheses and the binary operators
//! `==` (loosest), `<` `<=`, `+` `-`, `*` (tightest), all left-associative.
//! `//` starts a comment that runs to the end of the line.

use vstd::prelude::*;
use crate::diagnostic::{err_v, Diagnostic, DiagnosticV, Span};
use crate::flow_plan::{digits_value, lemma_digits_value_monotone, lemma_digits_value_none};
use crate::lexer::{
    incomplete_message, kind_view, near, near_message, syntax_err, toks_view, Punct, Tok, TokKind,
    TokKindV, TokV,
};
use crate::text::{append_str, chars_of, push_decimal, spec_decimal, str_eq};

verus! {

/// A position-independent identity of a declaration.
#[derive(Clone, Copy, Debug, PartialEq, Eq, Hash, Structural)]
pub struct StableId(pub u64);

/// The FNV-1a offset basis.
pub const FNV_OFFSET: u64 = 0xcbf2_9ce4_8422_2325;

/// The FNV-1a prime.
pub const FNV_PRIME: u64 = 0x0000_0100_0000_01b3;

/// The FNV-1a hash of `bytes[i..]`, starting from `h`.
pub open spec fn fnv(h: u64, bytes: Seq<u8>, i: int) -> u64
    decreases bytes.len() - i,
{
    if i < 0 || i >= bytes.len() {
        h
    } else {
        fnv(vstd::wrapping::u64_specs::wrapping_mul(h ^ (bytes[i] as u64), FNV_PRIME), bytes, i + 1)
    }
}

/// The identity of `name` in `namespace`: the FNV-1a hash of the UTF-8 bytes
/// of the namespace, a `0xff` separator and the bytes of the name.
pub open spec fn spec_stable_id(namespace: Seq<char>, name: Seq<char>) -> u64 {
    fnv(
        FNV_OFFSET,
        vstd::utf8::encode_utf8(namespace) + seq![0xffu8] + vstd::utf8::encode_utf8(name),
        0,
    )
}

impl StableId {
    /// The identity of `name` within `namespace`; it does not depend on where
    /// the declaration stands in the source.
    pub fn named(namespace: &str, name: &str) -> (id: StableId)
        ensures
            id.0 == spec_stable_id(namespace@, name@),
    {
        let a = namespace.as_bytes();
        let b = name.as_bytes();
        let ghost all = a@ + seq![0xffu8] + b@;
        assert(all =~= vstd::utf8::encode_utf8(namespace@) + seq![0xffu8] + vstd::utf8::encode_utf8(name@));
        let mut h: u64 = FNV_OFFSET;
        let mut i: usize = 0;
        while i < a.len()
            invariant
                i <= a@.len(),
                all == a@ + seq![0xffu8] + b@,
                fnv(FNV_OFFSET, all, 0) == fnv(h, all, i as int),
            decreases a@.len() - i,
        {
            assert(all[i as int] == a@[i as int]);
            h = (h ^ (a[i] as u64)).wrapping_mul(FNV_PRIME);
            i = i + 1;
        }
        assert(all[a@.len() as int] == 0xffu8);
        h = (h ^ 0xffu64).wrapping_mul(FNV_PRIME);
        let mut j: usize = 0;
        while j < b.len()
            invariant
                j <= b@.len(),
                all == a@ + seq![0xffu8] + b@,
                fnv(FNV_OFFSET, all, 0) == fnv(h, all, a@.len() + 1 + j),
            decreases b@.len() - j,
        {
            assert(all[a@.len() + 1 + j] == b@[j as int]);
            h = (h ^ (b[j] as u64)).wrapping_mul(FNV_PRIME);
            j = j + 1;
        }
        StableId(h)
    }
}


/// A parsed module.
#[derive(Debug, PartialEq)]
pub struct Program {
    pub module: String,
    pub module_span: Span,
    pub imports: Vec<Import>,
    pub functions: Vec<Function>,
    pub span: Span,
    pub has_comments: bool,
}

/// An `import` declaration.
#[derive(Debug, PartialEq)]
pub struct Import {
    pub module: String,
    pub span: Span,
}

/// A function declaration.
#[derive(Debug, PartialEq)]
pub struct Function {
    pub id: StableId,
    pub public: bool,
    pub name: String,
    pub name_span: Span,
    pub params: Vec<Param>,
    pub return_type: String,
    pub return_type_span: Span,
    pub effects: Vec<(String, Span)>,
    pub body: Vec<Stmt>,
    pub span: Span,
}

/// A parameter of a function.
#[derive(Debug, PartialEq)]
pub struct Param {
    pub id: StableId,
    pub name: String,
    pub name_span: Span,
    pub ty_name: String,
    pub type_span: Span,
}

/// A statement of a function body.
#[derive(Debug, PartialEq)]
pub struct Stmt {
    pub kind: StmtKind,
    pub span: Span,
}

/// The two kinds of statements.
#[derive(Debug, PartialEq)]
pub enum StmtKind {
    Let { id: StableId, name: String, name_span: Span, annotation: Option<(String, Span)>, value: Expr },
    Expr { value: Expr, terminated: bool },
}

/// An expression and its byte range.
#[derive(Debug, PartialEq)]
pub struct Expr {
    pub kind: ExprKind,
    pub span: Span,
}

/// The binary operators.
#[derive(Clone, Copy, Debug, PartialEq, Eq, Structural)]
pub enum BinaryOp {
    Add,
    Subtract,
    Multiply,
    Equal,
    LessThan,
    LessThanOrEqual,
}

/// The kinds of expressions.
#[derive(Debug, PartialEq)]
pub enum ExprKind {
    Text(String),
    Int(i64),
    Bool(bool),
    Var(String),
    If { condition: Box<Expr>, consequence: Box<Expr>, alternative: Box<Expr> },
    Binary { operator: BinaryOp, left: Box<Expr>, right: Box<Expr> },
    Call { path: Vec<(String, Span)>, args: Vec<Expr> },
}

/// The text of an operator.
pub open spec fn op_symbol(op: BinaryOp) -> Seq<char> {
    match op {
        BinaryOp::Add => "+"@,
        BinaryOp::Subtract => "-"@,
        BinaryOp::Multiply => "*"@,
        BinaryOp::Equal => "=="@,
        BinaryOp::LessThan => "<"@,
        BinaryOp::LessThanOrEqual => "<="@,
    }
}

impl BinaryOp {
    /// The text of this operator.
    pub fn symbol(self) -> (s: &'static str)
        ensures
            s@ == op_symbol(self),
    {
        match self {
            BinaryOp::Add => "+",
            BinaryOp::Subtract => "-",
            BinaryOp::Multiply => "*",
            BinaryOp::Equal => "==",
            BinaryOp::LessThan => "<",
            BinaryOp::LessThanOrEqual => "<=",
        }
    }
}

/// The value of an expression.
pub struct ExprV {
    pub kind: ExprKindV,
    pub span: Span,
}

/// The value of an expression kind: strings taken by their characters.
pub enum ExprKindV {
    Text(Seq<char>),
    Int(i64),
    Bool(bool),
    Var(Seq<char>),
    If { condition: Box<ExprV>, consequence: Box<ExprV>, alternative: Box<ExprV> },
    Binary { operator: BinaryOp, left: Box<ExprV>, right: Box<ExprV> },
    Call { path: Seq<(Seq<char>, Span)>, args: Seq<ExprV> },
}

/// The values of the parts of a dotted name.
pub open spec fn parts_view(parts: Seq<(String, Span)>) -> Seq<(Seq<char>, Span)> {
    Seq::new(parts.len(), |i: int| (parts[i].0@, parts[i].1))
}

/// The value of an expression.
pub open spec fn expr_view(e: Expr) -> ExprV
    decreases e, 1nat,
{
    ExprV {
        kind: match e.kind {
            ExprKind::Text(s) => ExprKindV::Text(s@),
            ExprKind::Int(v) => ExprKindV::Int(v),
            ExprKind::Bool(b) => ExprKindV::Bool(b),
            ExprKind::Var(s) => ExprKindV::Var(s@),
            ExprKind::If { condition, consequence, alternative } => ExprKindV::If {
                condition: Box::new(expr_view(*condition)),
                consequence: Box::new(expr_view(*consequence)),
                alternative: Box::new(expr_view(*alternative)),
            },
            ExprKind::Binary { operator, left, right } => ExprKindV::Binary {
                operator,
                left: Box::new(expr_view(*left)),
                right: Box::new(expr_view(*right)),
            },
            ExprKind::Call { path, args } => {
                proof {
                    assert(decreases_to!(args => args@));
                }
                ExprKindV::Call { path: parts_view(path@), args: exprs_view(args@) }
            },
        },
        span: e.span,
    }
}

/// The values of a sequence of expressions.
pub open spec fn exprs_view(es: Seq<Expr>) -> Seq<ExprV>
    decreases es, 0nat,
{
    Seq::new(es.len(), |i: int| if 0 <= i < es.len() { expr_view(es[i]) } else { ExprV { kind: ExprKindV::Bool(false), span: Span { start: 0, end: 0 } } })
}

impl View for Expr {
    type V = ExprV;

    open spec fn view(&self) -> ExprV {
        expr_view(*self)
    }
}

/// The value of a statement kind.
pub enum StmtKindV {
    Let { id: StableId, name: Seq<char>, name_span: Span, annotation: Option<(Seq<char>, Span)>, value: ExprV },
    Expr { value: ExprV, terminated: bool },
}

/// The value of a statement.
pub struct StmtV {
    pub kind: StmtKindV,
    pub span: Span,
}

/// The value of an optional annotation.
pub open spec fn annotation_view(a: Option<(String, Span)>) -> Option<(Seq<char>, Span)> {
    match a {
        Some((t, s)) => Some((t@, s)),
        None => None,
    }
}

impl View for Stmt {
    type V = StmtV;

    open spec fn view(&self) -> StmtV {
        StmtV {
            kind: match self.kind {
                StmtKind::Let { id, name, name_span, annotation, value } => StmtKindV::Let {
                    id,
                    name: name@,
                    name_span,
                    annotation: annotation_view(annotation),
                    value: value@,
                },
                StmtKind::Expr { value, terminated } => StmtKindV::Expr { value: value@, terminated },
            },
            span: self.span,
        }
    }
}

/// The value of a parameter.
pub struct ParamV {
    pub id: StableId,
    pub name: Seq<char>,
    pub name_span: Span,
    pub ty_name: Seq<char>,
    pub type_span: Span,
}

impl View for Param {
    type V = ParamV;

    open spec fn view(&self) -> ParamV {
        ParamV {
            id: self.id,
            name: self.name@,
            name_span: self.name_span,
            ty_name: self.ty_name@,
            type_span: self.type_span,
        }
    }
}

/// The value of a function.
pub struct FunctionV {
    pub id: StableId,
    pub public: bool,
    pub name: Seq<char>,
    pub name_span: Span,
    pub params: Seq<ParamV>,
    pub return_type: Seq<char>,
    pub return_type_span: Span,
    pub effects: Seq<(Seq<char>, Span)>,
    pub body: Seq<StmtV>,
    pub span: Span,
}

impl View for Function {
    type V = FunctionV;

    open spec fn view(&self) -> FunctionV {
        FunctionV {
            id: self.id,
            public: self.public,
            name: self.name@,
            name_span: self.name_span,
            params: self.params@.map_values(|p: Param| p@),
            return_type: self.return_type@,
            return_type_span: self.return_type_span,
            effects: parts_view(self.effects@),
            body: self.body@.map_values(|s: Stmt| s@),
            span: self.span,
        }
    }
}

/// The value of an import.
pub struct ImportV {
    pub module: Seq<char>,
    pub span: Span,
}

impl View for Import {
    type V = ImportV;

    open spec fn view(&self) -> ImportV {
        ImportV { module: self.module@, span: self.span }
    }
}

/// The value of a module.
pub struct ProgramV {
    pub module: Seq<char>,
    pub module_span: Span,
    pub imports: Seq<ImportV>,
    pub functions: Seq<FunctionV>,
    pub span: Span,
    pub has_comments: bool,
}

impl View for Program {
    type V = ProgramV;

    open spec fn view(&self) -> ProgramV {
        ProgramV {
            module: self.module@,
            module_span: self.module_span,
            imports: self.imports@.map_values(|i: Import| i@),
            functions: self.functions@.map_values(|f: Function| f@),
            span: self.span,
            has_comments: self.has_comments,
        }
    }
}

// ---------------------------------------------------------------------------
// The grammar, as spec functions over the token values.

/// The words that cannot name anything.
pub open spec fn is_keyword(s: Seq<char>) -> bool {
    s == "module"@ || s == "import"@ || s == "pub"@ || s == "fn"@ || s == "let"@ || s == "if"@
        || s == "else"@ || s == "true"@ || s == "false"@
}

/// Token `k` is the punctuation `p`.
pub open spec fn is_punct(t: Seq<TokV>, k: int, p: Punct) -> bool {
    0 <= k < t.len() && t[k].kind == TokKindV::Punct(p)
}

/// Token `k` is the word `w`.
pub open spec fn is_word(t: Seq<TokV>, k: int, w: Seq<char>) -> bool {
    0 <= k < t.len() && t[k].kind is Ident && t[k].text == w
}

/// Token `k` is an identifier that is not a keyword.
pub open spec fn is_name(t: Seq<TokV>, k: int) -> bool {
    0 <= k < t.len() && t[k].kind is Ident && !is_keyword(t[k].text)
}

/// The syntax error at token `k`: the text near it, or the end of the text.
pub open spec fn err_at(t: Seq<TokV>, k: int) -> DiagnosticV {
    if 0 <= k < t.len() {
        let fragment = if t[k].text.len() > 24 { t[k].text.take(24) } else { t[k].text };
        if fragment.len() == 0 {
            syntax_err(incomplete_message(), t[k].span.start as int, t[k].span.end as int)
        } else {
            syntax_err(near_message(fragment), t[k].span.start as int, t[k].span.end as int)
        }
    } else {
        syntax_err(incomplete_message(), 0, 0)
    }
}

/// A diagnostic that no input produces: every parse step consumes a token.
pub open spec fn never() -> DiagnosticV {
    syntax_err(Seq::empty(), 0, 0)
}

/// The value of an integer literal; out-of-range literals read as 0.
pub open spec fn int_value(text: Seq<char>) -> i64 {
    match digits_value(text) {
        Some(v) => if v <= i64::MAX {
            v as i64
        } else {
            0
        },
        None => 0,
    }
}

/// Whether an integer literal fits in an `Int`.
pub open spec fn int_fits(text: Seq<char>) -> bool {
    digits_value(text) matches Some(v) && v <= i64::MAX
}

/// The parts of the dotted name at token `k`, after `acc`.
pub open spec fn p_qname(t: Seq<TokV>, k: int, acc: Seq<(Seq<char>, Span)>) -> Result<
    (Seq<(Seq<char>, Span)>, int),
    DiagnosticV,
>
    decreases t.len() - k,
{
    if !is_name(t, k) {
        Err(err_at(t, k))
    } else {
        let acc2 = acc.push((t[k].text, t[k].span));
        if is_punct(t, k + 1, Punct::Dot) {
            p_qname(t, k + 2, acc2)
        } else {
            Ok((acc2, k + 1))
        }
    }
}

/// The parts of a dotted name joined by dots.
pub open spec fn join_parts(parts: Seq<(Seq<char>, Span)>) -> Seq<char>
    decreases parts.len(),
{
    if parts.len() == 0 {
        Seq::empty()
    } else if parts.len() == 1 {
        parts[0].0
    } else {
        join_parts(parts.drop_last()) + "."@ + parts.last().0
    }
}

/// The byte range of a dotted name.
pub open spec fn parts_span(parts: Seq<(Seq<char>, Span)>) -> Span {
    Span { start: parts[0].1.start, end: parts.last().1.end }
}

/// The operator of binding level `level` that punctuation `p` stands for.
pub open spec fn level_op(p: Punct, level: nat) -> Option<BinaryOp> {
    if level == 0 && p == Punct::EqEq {
        Some(BinaryOp::Equal)
    } else if level == 1 && p == Punct::Lt {
        Some(BinaryOp::LessThan)
    } else if level == 1 && p == Punct::Le {
        Some(BinaryOp::LessThanOrEqual)
    } else if level == 2 && p == Punct::Plus {
        Some(BinaryOp::Add)
    } else if level == 2 && p == Punct::Minus {
        Some(BinaryOp::Subtract)
    } else if level == 3 && p == Punct::Star {
        Some(BinaryOp::Multiply)
    } else {
        None
    }
}

/// The operator of level `level` at token `k`, if there is one.
pub open spec fn op_at(t: Seq<TokV>, k: int, level: nat) -> Option<BinaryOp> {
    if 0 <= k < t.len() {
        match t[k].kind {
            TokKindV::Punct(p) => level_op(p, level),
            _ => None,
        }
    } else {
        None
    }
}

/// The termination rank of a binding level.
pub open spec fn level_rank(level: nat) -> nat {
    if level < 4 {
        (9 - level) as nat
    } else {
        5
    }
}

/// A binary expression node.
pub open spec fn binary_v(operator: BinaryOp, left: ExprV, right: ExprV) -> ExprV {
    ExprV {
        kind: ExprKindV::Binary { operator, left: Box::new(left), right: Box::new(right) },
        span: Span { start: left.span.start, end: right.span.end },
    }
}

/// The expression at token `k` and the index after it.
pub open spec fn p_expr(t: Seq<TokV>, k: int) -> Result<(ExprV, int), DiagnosticV>
    decreases t.len() - k, 10nat,
{
    p_bin(t, k, 0)
}

/// The expression of binding level `level` or tighter at token `k`.
pub open spec fn p_bin(t: Seq<TokV>, k: int, level: nat) -> Result<(ExprV, int), DiagnosticV>
    decreases t.len() - k, level_rank(level),
{
    if level >= 4 {
        p_primary(t, k)
    } else {
        match p_bin(t, k, level + 1) {
            Err(e) => Err(e),
            Ok((left, k2)) => if k2 <= k || k2 > t.len() {
                Err(never())
            } else {
                p_bin_rest(t, k2, level, left)
            },
        }
    }
}

/// The operators of level `level` and their right operands that follow `left`.
pub open spec fn p_bin_rest(t: Seq<TokV>, k: int, level: nat, left: ExprV) -> Result<
    (ExprV, int),
    DiagnosticV,
>
    decreases t.len() - k, 0nat,
{
    if k < 0 || k > t.len() {
        Err(never())
    } else {
        match op_at(t, k, level) {
            None => Ok((left, k)),
            Some(op) => match p_bin(t, k + 1, level + 1) {
                Err(e) => Err(e),
                Ok((right, k2)) => if k2 <= k || k2 > t.len() {
                    Err(never())
                } else {
                    p_bin_rest(t, k2, level, binary_v(op, left, right))
                },
            },
        }
    }
}

/// The arguments of a call from token `k` (after its opening parenthesis),
/// after `acc`, and the index after the closing parenthesis.
pub open spec fn p_args(t: Seq<TokV>, k: int, acc: Seq<ExprV>) -> Result<(Seq<ExprV>, int), DiagnosticV>
    decreases t.len() - k, 11nat,
{
    if k < 0 || k >= t.len() {
        Err(err_at(t, k))
    } else if is_punct(t, k, Punct::RParen) {
        Ok((acc, k + 1))
    } else {
        match p_expr(t, k) {
            Err(e) => Err(e),
            Ok((e, k2)) => if k2 <= k || k2 > t.len() {
                Err(never())
            } else if is_punct(t, k2, Punct::Comma) {
                p_args(t, k2 + 1, acc.push(e))
            } else if is_punct(t, k2, Punct::RParen) {
                Ok((acc.push(e), k2 + 1))
            } else {
                Err(err_at(t, k2))
            },
        }
    }
}

/// The primary expression at token `k`: a literal, a name, a call, an `if`
/// or a parenthesized expression.
pub open spec fn p_primary(t: Seq<TokV>, k: int) -> Result<(ExprV, int), DiagnosticV>
    decreases t.len() - k, 4nat,
{
    if k < 0 || k >= t.len() {
        Err(err_at(t, k))
    } else {
        let tk = t[k];
        match tk.kind {
            TokKindV::Int => Ok((ExprV { kind: ExprKindV::Int(int_value(tk.text)), span: tk.span }, k + 1)),
            TokKindV::Str(v) => Ok((ExprV { kind: ExprKindV::Text(v), span: tk.span }, k + 1)),
            TokKindV::Punct(Punct::LParen) => match p_expr(t, k + 1) {
                Err(e) => Err(e),
                Ok((e, k2)) => if k2 <= k || k2 > t.len() {
                    Err(never())
                } else if is_punct(t, k2, Punct::RParen) {
                    Ok((e, k2 + 1))
                } else {
                    Err(err_at(t, k2))
                },
            },
            TokKindV::Ident => if tk.text == "true"@ {
                Ok((ExprV { kind: ExprKindV::Bool(true), span: tk.span }, k + 1))
            } else if tk.text == "false"@ {
                Ok((ExprV { kind: ExprKindV::Bool(false), span: tk.span }, k + 1))
            } else if tk.text == "if"@ {
                p_if(t, k)
            } else {
                match p_qname(t, k, Seq::empty()) {
                    Err(e) => Err(e),
                    Ok((parts, k2)) => if k2 <= k || k2 > t.len() {
                        Err(never())
                    } else if is_punct(t, k2, Punct::LParen) {
                        match p_args(t, k2 + 1, Seq::empty()) {
                            Err(e) => Err(e),
                            Ok((args, k3)) => if k3 <= k2 + 1 || k3 > t.len() {
                                Err(never())
                            } else {
                                Ok(
                                    (
                                        ExprV {
                                            kind: ExprKindV::Call { path: parts, args },
                                            span: Span { start: tk.span.start, end: t[k3 - 1].span.end },
                                        },
                                        k3,
                                    ),
                                )
                            },
                        }
                    } else if parts.len() == 1 {
                        Ok((ExprV { kind: ExprKindV::Var(tk.text), span: tk.span }, k2))
                    } else {
                        Err(err_at(t, k2))
                    },
                }
            },
            _ => Err(err_at(t, k)),
        }
    }
}

/// The `if` expression whose `if` is token `k`.
pub open spec fn p_if(t: Seq<TokV>, k: int) -> Result<(ExprV, int), DiagnosticV>
    decreases t.len() - k, 3nat,
{
    if k < 0 || k >= t.len() {
        Err(never())
    } else {
        match p_expr(t, k + 1) {
            Err(e) => Err(e),
            Ok((c, k2)) => if k2 <= k || k2 > t.len() {
                Err(never())
            } else if !is_punct(t, k2, Punct::LBrace) {
                Err(err_at(t, k2))
            } else {
                match p_expr(t, k2 + 1) {
                    Err(e) => Err(e),
                    Ok((a, k3)) => if k3 <= k2 || k3 > t.len() {
                        Err(never())
                    } else if !is_punct(t, k3, Punct::RBrace) {
                        Err(err_at(t, k3))
                    } else if !is_word(t, k3 + 1, "else"@) {
                        Err(err_at(t, k3 + 1))
                    } else if !is_punct(t, k3 + 2, Punct::LBrace) {
                        Err(err_at(t, k3 + 2))
                    } else {
                        match p_expr(t, k3 + 3) {
                            Err(e) => Err(e),
                            Ok((b, k4)) => if k4 <= k3 || k4 > t.len() {
                                Err(never())
                            } else if !is_punct(t, k4, Punct::RBrace) {
                                Err(err_at(t, k4))
                            } else {
                                Ok(
                                    (
                                        ExprV {
                                            kind: ExprKindV::If {
                                                condition: Box::new(c),
                                                consequence: Box::new(a),
                                                alternative: Box::new(b),
                                            },
                                            span: Span { start: t[k].span.start, end: t[k4].span.end },
                                        },
                                        k4 + 1,
                                    ),
                                )
                            },
                        }
                    },
                }
            },
        }
    }
}

/// The namespace of the `ordinal`-th parameter or local (`kind` is
/// `.param.` or `.local.`) of `function` in `module`.
pub open spec fn member_ns(module: Seq<char>, function: Seq<char>, kind: Seq<char>, ordinal: nat) -> Seq<char> {
    module + "."@ + function + kind + spec_decimal(ordinal)
}

/// The statements from token `k` to the closing brace of a body, after `acc`,
/// with `ordinal` locals declared so far.
pub open spec fn p_stmts(
    t: Seq<TokV>,
    k: int,
    module: Seq<char>,
    function: Seq<char>,
    acc: Seq<StmtV>,
    ordinal: nat,
) -> Result<(Seq<StmtV>, int), DiagnosticV>
    decreases t.len() - k,
{
    if k < 0 || k >= t.len() {
        Err(err_at(t, k))
    } else if is_punct(t, k, Punct::RBrace) {
        Ok((acc, k + 1))
    } else if is_word(t, k, "let"@) {
        if !is_name(t, k + 1) {
            Err(err_at(t, k + 1))
        } else {
            let annotated = is_punct(t, k + 2, Punct::Colon);
            if annotated && !is_name(t, k + 3) {
                Err(err_at(t, k + 3))
            } else {
                let annotation = if annotated {
                    Some((t[k + 3].text, t[k + 3].span))
                } else {
                    None
                };
                let j = if annotated { k + 4 } else { k + 2 };
                if !is_punct(t, j, Punct::Assign) {
                    Err(err_at(t, j))
                } else {
                    match p_expr(t, j + 1) {
                        Err(e) => Err(e),
                        Ok((value, k2)) => if k2 <= k || k2 > t.len() {
                            Err(never())
                        } else if !is_punct(t, k2, Punct::Semi) {
                            Err(err_at(t, k2))
                        } else {
                            let name = t[k + 1].text;
                            let stmt = StmtV {
                                kind: StmtKindV::Let {
                                    id: StableId(spec_stable_id(member_ns(module, function, ".local."@, ordinal), name)),
                                    name,
                                    name_span: t[k + 1].span,
                                    annotation,
                                    value,
                                },
                                span: Span { start: t[k].span.start, end: t[k2].span.end },
                            };
                            p_stmts(t, k2 + 1, module, function, acc.push(stmt), ordinal + 1)
                        },
                    }
                }
            }
        }
    } else {
        match p_expr(t, k) {
            Err(e) => Err(e),
            Ok((value, k2)) => if k2 <= k || k2 > t.len() {
                Err(never())
            } else if is_punct(t, k2, Punct::Semi) {
                let stmt = StmtV {
                    kind: StmtKindV::Expr { value, terminated: true },
                    span: Span { start: value.span.start, end: t[k2].span.end },
                };
                p_stmts(t, k2 + 1, module, function, acc.push(stmt), ordinal)
            } else if is_punct(t, k2, Punct::RBrace) {
                let stmt = StmtV { kind: StmtKindV::Expr { value, terminated: false }, span: value.span };
                p_stmts(t, k2, module, function, acc.push(stmt), ordinal)
            } else {
                Err(err_at(t, k2))
            },
        }
    }
}

/// The parameters from token `k` to the closing parenthesis, after `acc`.
pub open spec fn p_params(t: Seq<TokV>, k: int, module: Seq<char>, function: Seq<char>, acc: Seq<ParamV>) -> Result<
    (Seq<ParamV>, int),
    DiagnosticV,
>
    decreases t.len() - k,
{
    if k < 0 || k >= t.len() {
        Err(err_at(t, k))
    } else if is_punct(t, k, Punct::RParen) {
        Ok((acc, k + 1))
    } else if !is_name(t, k) {
        Err(err_at(t, k))
    } else if !is_punct(t, k + 1, Punct::Colon) {
        Err(err_at(t, k + 1))
    } else if !is_name(t, k + 2) {
        Err(err_at(t, k + 2))
    } else {
        let p = ParamV {
            id: StableId(spec_stable_id(member_ns(module, function, ".param."@, acc.len()), t[k].text)),
            name: t[k].text,
            name_span: t[k].span,
            ty_name: t[k + 2].text,
            type_span: t[k + 2].span,
        };
        if is_punct(t, k + 3, Punct::Comma) {
            p_params(t, k + 4, module, function, acc.push(p))
        } else if is_punct(t, k + 3, Punct::RParen) {
            Ok((acc.push(p), k + 4))
        } else {
            Err(err_at(t, k + 3))
        }
    }
}

/// The effects from token `k` to the closing brace of an effect row, after `acc`.
pub open spec fn p_effects(t: Seq<TokV>, k: int, acc: Seq<(Seq<char>, Span)>) -> Result<
    (Seq<(Seq<char>, Span)>, int),
    DiagnosticV,
>
    decreases t.len() - k,
{
    if k < 0 || k >= t.len() {
        Err(err_at(t, k))
    } else if is_punct(t, k, Punct::RBrace) {
        Ok((acc, k + 1))
    } else {
        match p_qname(t, k, Seq::empty()) {
            Err(e) => Err(e),
            Ok((parts, k2)) => if k2 <= k || k2 > t.len() {
                Err(never())
            } else {
                let effect = (join_parts(parts), parts_span(parts));
                if is_punct(t, k2, Punct::Comma) {
                    p_effects(t, k2 + 1, acc.push(effect))
                } else if is_punct(t, k2, Punct::RBrace) {
                    Ok((acc.push(effect), k2 + 1))
                } else {
                    Err(err_at(t, k2))
                }
            },
        }
    }
}

/// The effect row after the return type, which starts at token `k`.
pub open spec fn p_effect_row(t: Seq<TokV>, k: int) -> Result<(Seq<(Seq<char>, Span)>, int), DiagnosticV> {
    if !is_punct(t, k, Punct::Bang) {
        Ok((Seq::empty(), k))
    } else if !is_punct(t, k + 1, Punct::LBrace) {
        Err(err_at(t, k + 1))
    } else {
        p_effects(t, k + 2, Seq::empty())
    }
}

/// The function declared from token `k` in `module`.
pub open spec fn p_function(t: Seq<TokV>, k: int, module: Seq<char>) -> Result<(FunctionV, int), DiagnosticV> {
    let public = is_word(t, k, "pub"@);
    let j = if public { k + 1 } else { k };
    if !is_word(t, j, "fn"@) {
        Err(err_at(t, j))
    } else if !is_name(t, j + 1) {
        Err(err_at(t, j + 1))
    } else if !is_punct(t, j + 2, Punct::LParen) {
        Err(err_at(t, j + 2))
    } else {
        let name = t[j + 1].text;
        match p_params(t, j + 3, module, name, Seq::empty()) {
            Err(e) => Err(e),
            Ok((params, j2)) => if !is_punct(t, j2, Punct::Arrow) {
                Err(err_at(t, j2))
            } else if !is_name(t, j2 + 1) {
                Err(err_at(t, j2 + 1))
            } else {
                match p_effect_row(t, j2 + 2) {
                    Err(e) => Err(e),
                    Ok((effects, j4)) => if !is_punct(t, j4, Punct::LBrace) {
                        Err(err_at(t, j4))
                    } else {
                        match p_stmts(t, j4 + 1, module, name, Seq::empty(), 0) {
                            Err(e) => Err(e),
                            Ok((body, j5)) => Ok(
                                (
                                    FunctionV {
                                        id: StableId(spec_stable_id(module, name)),
                                        public,
                                        name,
                                        name_span: t[j + 1].span,
                                        params,
                                        return_type: t[j2 + 1].text,
                                        return_type_span: t[j2 + 1].span,
                                        effects,
                                        body,
                                        span: Span { start: t[k].span.start, end: t[j5 - 1].span.end },
                                    },
                                    j5,
                                ),
                            ),
                        }
                    },
                }
            },
        }
    }
}

/// The imports from token `k`, after `acc`.
pub open spec fn p_imports(t: Seq<TokV>, k: int, acc: Seq<ImportV>) -> Result<(Seq<ImportV>, int), DiagnosticV>
    decreases t.len() - k,
{
    if !is_word(t, k, "import"@) {
        Ok((acc, k))
    } else {
        match p_qname(t, k + 1, Seq::empty()) {
            Err(e) => Err(e),
            Ok((parts, k2)) => if k2 <= k || k2 > t.len() {
                Err(never())
            } else {
                p_imports(
                    t,
                    k2,
                    acc.push(
                        ImportV {
                            module: join_parts(parts),
                            span: Span { start: t[k].span.start, end: parts_span(parts).end },
                        },
                    ),
                )
            },
        }
    }
}

/// The functions from token `k` in `module`, after `acc`.
pub open spec fn p_functions(t: Seq<TokV>, k: int, module: Seq<char>, acc: Seq<FunctionV>) -> Result<
    (Seq<FunctionV>, int),
    DiagnosticV,
>
    decreases t.len() - k,
{
    if !(is_word(t, k, "pub"@) || is_word(t, k, "fn"@)) {
        Ok((acc, k))
    } else {
        match p_function(t, k, module) {
            Err(e) => Err(e),
            Ok((f, k2)) => if k2 <= k || k2 > t.len() {
                Err(never())
            } else {
                p_functions(t, k2, module, acc.push(f))
            },
        }
    }
}

/// The module that the tokens `t` spell; `comments` tells whether the text
/// held a comment.
pub open spec fn p_program(t: Seq<TokV>, comments: bool) -> Result<ProgramV, DiagnosticV> {
    if t.len() == 0 {
        Err(never())
    } else if !is_word(t, 0, "module"@) {
        Err(err_v("RBN1105"@, "déclaration `module` attendue"@, Span { start: 0, end: t.last().span.end }))
    } else {
        match p_qname(t, 1, Seq::empty()) {
            Err(e) => Err(e),
            Ok((parts, k1)) => {
                let module = join_parts(parts);
                match p_imports(t, k1, Seq::empty()) {
                    Err(e) => Err(e),
                    Ok((imports, k2)) => match p_functions(t, k2, module, Seq::empty()) {
                        Err(e) => Err(e),
                        Ok((functions, k3)) => if !(0 <= k3 < t.len() && t[k3].kind is Eof) {
                            Err(err_at(t, k3))
                        } else {
                            Ok(
                                ProgramV {
                                    module,
                                    module_span: parts_span(parts),
                                    imports,
                                    functions,
                                    span: Span { start: 0, end: t.last().span.end },
                                    has_comments: comments,
                                },
                            )
                        },
                    },
                }
            },
        }
    }
}

/// The message of an integer literal out of the `Int` range.
pub open spec fn overflow_message() -> Seq<char> {
    "entier hors de la plage `Int` du profil bootstrap"@
}

/// A diagnostic for each integer literal of `t` out of the `Int` range, in order.
pub open spec fn overflows(t: Seq<TokV>) -> Seq<DiagnosticV>
    decreases t.len(),
{
    if t.len() == 0 {
        Seq::empty()
    } else {
        let r = overflows(t.drop_last());
        if t.last().kind is Int && !int_fits(t.last().text) {
            r.push(err_v("RBN1003"@, overflow_message(), t.last().span))
        } else {
            r
        }
    }
}

/// What `parse` answers for a source text: its module, or the lexical or
/// first syntax error, or else the integer literals out of range.
pub open spec fn spec_parse(cs: Seq<char>) -> Result<ProgramV, Seq<DiagnosticV>> {
    match crate::lexer::spec_lex(cs) {
        Err(d) => Err(seq![d]),
        Ok((t, comments)) => match p_program(t, comments) {
            Err(d) => Err(seq![d]),
            Ok(p) => if overflows(t).len() > 0 {
                Err(overflows(t))
            } else {
                Ok(p)
            },
        },
    }
}

// ---------------------------------------------------------------------------
// The parser.

fn tok_is_punct(tokens: &Vec<Tok>, k: usize, p: Punct) -> (r: bool)
    ensures
        r == is_punct(toks_view(tokens@), k as int, p),
{
    if k < tokens.len() {
        match &tokens[k].kind {
            TokKind::Punct(q) => *q == p,
            _ => false,
        }
    } else {
        false
    }
}

fn keyword(s: &str) -> (r: bool)
    ensures
        r == is_keyword(s@),
{
    str_eq(s, "module") || str_eq(s, "import") || str_eq(s, "pub") || str_eq(s, "fn") || str_eq(s, "let")
        || str_eq(s, "if") || str_eq(s, "else") || str_eq(s, "true") || str_eq(s, "false")
}

fn tok_is_word(tokens: &Vec<Tok>, k: usize, w: &str) -> (r: bool)
    ensures
        r == is_word(toks_view(tokens@), k as int, w@),
{
    if k < tokens.len() {
        match &tokens[k].kind {
            TokKind::Ident => str_eq(tokens[k].text.as_str(), w),
            _ => false,
        }
    } else {
        false
    }
}

fn tok_is_name(tokens: &Vec<Tok>, k: usize) -> (r: bool)
    ensures
        r == is_name(toks_view(tokens@), k as int),
{
    if k < tokens.len() {
        match &tokens[k].kind {
            TokKind::Ident => !keyword(tokens[k].text.as_str()),
            _ => false,
        }
    } else {
        false
    }
}

fn error_at(tokens: &Vec<Tok>, k: usize) -> (d: Diagnostic)
    ensures
        d@ == err_at(toks_view(tokens@), k as int),
{
    let ghost t = toks_view(tokens@);
    if k < tokens.len() {
        let tk = &tokens[k];
        assert(t[k as int] == tk@);
        let cs = chars_of(tk.text.as_str());
        let fragment = if cs.len() > 24 {
            let f = crate::text::string_of(&cs, 0, 24);
            assert(f@ =~= tk.text@.take(24));
            f
        } else {
            tk.text.clone()
        };
        if cs.len() == 0 {
            Diagnostic::error("RBN1100", "syntaxe incomplète".to_owned(), tk.span)
        } else {
            Diagnostic::error("RBN1100", near(fragment.as_str()), tk.span)
        }
    } else {
        Diagnostic::error("RBN1100", "syntaxe incomplète".to_owned(), Span::new(0, 0))
    }
}

/// The value of an integer literal and whether it fits in an `Int`.
pub fn int_literal(text: &str) -> (r: (i64, bool))
    ensures
        r.0 == int_value(text@),
        r.1 == int_fits(text@),
{
    let cs = chars_of(text);
    let mut v: u64 = 0;
    let mut i: usize = 0;
    assert(text@.take(0) =~= Seq::<char>::empty());
    while i < cs.len()
        invariant
            cs@ == text@,
            i <= cs@.len(),
            digits_value(text@.take(i as int)) == Some(v as nat),
            v <= i64::MAX,
        decreases cs@.len() - i,
    {
        let c = cs[i];
        if !('0' <= c && c <= '9') {
            proof {
                lemma_digits_value_none(text@, i as int);
            }
            return (0, false);
        }
        let d: u64 = (c as u32 - '0' as u32) as u64;
        assert(text@.take(i + 1).drop_last() =~= text@.take(i as int));
        if v > (9223372036854775807u64 - d) / 10 {
            proof {
                assert(digits_value(text@.take(i + 1)) == Some((v * 10 + d) as nat));
                assert(v * 10 + d > i64::MAX) by (nonlinear_arith)
                    requires
                        v > (9223372036854775807u64 - d) / 10,
                        d <= 9,
                ;
                if digits_value(text@) is Some {
                    lemma_digits_value_monotone(text@, i + 1);
                }
            }
            return (0, false);
        }
        assert(v * 10 + d <= i64::MAX) by (nonlinear_arith)
            requires
                v <= (9223372036854775807u64 - d) / 10,
                d <= 9,
        ;
        v = v * 10 + d;
        i = i + 1;
    }
    assert(text@.take(cs@.len() as int) =~= text@);
    (v as i64, true)
}

fn parse_qname(tokens: &Vec<Tok>, k: usize) -> (r: Result<(Vec<(String, Span)>, usize), Diagnostic>)
    requires
        k <= tokens@.len(),
        tokens@.len() < usize::MAX,
    ensures
        r matches Ok((parts, k2)) ==> k < k2 <= tokens@.len() && parts@.len() >= 1 && p_qname(
            toks_view(tokens@),
            k as int,
            Seq::empty(),
        ) == Ok::<(Seq<(Seq<char>, Span)>, int), DiagnosticV>((parts_view(parts@), k2 as int)),
        r matches Err(d) ==> p_qname(toks_view(tokens@), k as int, Seq::empty()) == Err::<
            (Seq<(Seq<char>, Span)>, int),
            DiagnosticV,
        >(d@),
{
    let ghost t = toks_view(tokens@);
    let mut parts: Vec<(String, Span)> = Vec::new();
    let mut j = k;
    assert(parts_view(parts@) =~= Seq::<(Seq<char>, Span)>::empty());
    loop
        invariant
            k <= j <= tokens@.len(),
            tokens@.len() < usize::MAX,
            t == toks_view(tokens@),
            j > k ==> parts@.len() >= 1,
            p_qname(t, k as int, Seq::empty()) == p_qname(t, j as int, parts_view(parts@)),
        decreases tokens@.len() - j,
    {
        if !tok_is_name(tokens, j) {
            return Err(error_at(tokens, j));
        }
        let tk = &tokens[j];
        assert(t[j as int] == tk@);
        let ghost before = parts@;
        parts.push((tk.text.clone(), tk.span));
        assert(parts_view(parts@) =~= parts_view(before).push((tk.text@, tk.span)));
        if tok_is_punct(tokens, j + 1, Punct::Dot) {
            j = j + 2;
        } else {
            return Ok((parts, j + 1));
        }
    }
}

fn op_at_exec(tokens: &Vec<Tok>, k: usize, level: usize) -> (r: Option<BinaryOp>)
    ensures
        r == op_at(toks_view(tokens@), k as int, level as nat),
{
    if k < tokens.len() {
        match &tokens[k].kind {
            TokKind::Punct(p) => {
                let p = *p;
                if level == 0 && p == Punct::EqEq {
                    Some(BinaryOp::Equal)
                } else if level == 1 && p == Punct::Lt {
                    Some(BinaryOp::LessThan)
                } else if level == 1 && p == Punct::Le {
                    Some(BinaryOp::LessThanOrEqual)
                } else if level == 2 && p == Punct::Plus {
                    Some(BinaryOp::Add)
                } else if level == 2 && p == Punct::Minus {
                    Some(BinaryOp::Subtract)
                } else if level == 3 && p == Punct::Star {
                    Some(BinaryOp::Multiply)
                } else {
                    None
                }
            },
            _ => None,
        }
    } else {
        None
    }
}

fn parse_expr(tokens: &Vec<Tok>, k: usize) -> (r: Result<(Expr, usize), Diagnostic>)
    requires
        k <= tokens@.len(),
        tokens@.len() < usize::MAX,
    ensures
        r matches Ok((e, k2)) ==> k < k2 <= tokens@.len() && p_expr(toks_view(tokens@), k as int)
            == Ok::<(ExprV, int), DiagnosticV>((e@, k2 as int)),
        r matches Err(d) ==> p_expr(toks_view(tokens@), k as int) == Err::<(ExprV, int), DiagnosticV>(d@),
    decreases tokens@.len() - k, 10nat,
{
    parse_bin(tokens, k, 0)
}

fn parse_bin(tokens: &Vec<Tok>, k: usize, level: usize) -> (r: Result<(Expr, usize), Diagnostic>)
    requires
        level <= 4,
        k <= tokens@.len(),
        tokens@.len() < usize::MAX,
    ensures
        r matches Ok((e, k2)) ==> k < k2 <= tokens@.len() && p_bin(toks_view(tokens@), k as int, level as nat)
            == Ok::<(ExprV, int), DiagnosticV>((e@, k2 as int)),
        r matches Err(d) ==> p_bin(toks_view(tokens@), k as int, level as nat) == Err::<
            (ExprV, int),
            DiagnosticV,
        >(d@),
    decreases tokens@.len() - k, level_rank(level as nat),
{
    let ghost t = toks_view(tokens@);
    if level >= 4 {
        return parse_primary(tokens, k);
    }
    let (mut left, mut j) = match parse_bin(tokens, k, level + 1) {
        Err(d) => {
            return Err(d);
        },
        Ok(x) => x,
    };
    loop
        invariant
            k < j <= tokens@.len(),
            tokens@.len() < usize::MAX,
            level < 4,
            t == toks_view(tokens@),
            p_bin(t, k as int, level as nat) == p_bin_rest(t, j as int, level as nat, left@),
        decreases tokens@.len() - j,
    {
        match op_at_exec(tokens, j, level) {
            None => {
                return Ok((left, j));
            },
            Some(op) => match parse_bin(tokens, j + 1, level + 1) {
                Err(d) => {
                    return Err(d);
                },
                Ok((right, j2)) => {
                    let span = Span { start: left.span.start, end: right.span.end };
                    let e = Expr {
                        kind: ExprKind::Binary { operator: op, left: Box::new(left), right: Box::new(right) },
                        span,
                    };
                    left = e;
                    j = j2;
                },
            },
        }
    }
}

fn parse_args(tokens: &Vec<Tok>, k: usize) -> (r: Result<(Vec<Expr>, usize), Diagnostic>)
    requires
        k <= tokens@.len(),
        tokens@.len() < usize::MAX,
    ensures
        r matches Ok((args, k2)) ==> k < k2 <= tokens@.len() && p_args(toks_view(tokens@), k as int, Seq::empty())
            == Ok::<(Seq<ExprV>, int), DiagnosticV>((exprs_view(args@), k2 as int)),
        r matches Err(d) ==> p_args(toks_view(tokens@), k as int, Seq::empty()) == Err::<
            (Seq<ExprV>, int),
            DiagnosticV,
        >(d@),
    decreases tokens@.len() - k, 11nat,
{
    let ghost t = toks_view(tokens@);
    let mut args: Vec<Expr> = Vec::new();
    let mut j = k;
    assert(exprs_view(args@) =~= Seq::<ExprV>::empty());
    loop
        invariant
            k <= j <= tokens@.len(),
            tokens@.len() < usize::MAX,
            t == toks_view(tokens@),
            p_args(t, k as int, Seq::empty()) == p_args(t, j as int, exprs_view(args@)),
        decreases tokens@.len() - j,
    {
        if j >= tokens.len() {
            return Err(error_at(tokens, j));
        }
        if tok_is_punct(tokens, j, Punct::RParen) {
            return Ok((args, j + 1));
        }
        match parse_expr(tokens, j) {
            Err(d) => {
                return Err(d);
            },
            Ok((e, j2)) => {
                let ghost before = args@;
                args.push(e);
                assert(exprs_view(args@) =~= exprs_view(before).push(args@.last()@));
                if tok_is_punct(tokens, j2, Punct::Comma) {
                    j = j2 + 1;
                } else if tok_is_punct(tokens, j2, Punct::RParen) {
                    return Ok((args, j2 + 1));
                } else {
                    return Err(error_at(tokens, j2));
                }
            },
        }
    }
}

fn parse_primary(tokens: &Vec<Tok>, k: usize) -> (r: Result<(Expr, usize), Diagnostic>)
    requires
        k <= tokens@.len(),
        tokens@.len() < usize::MAX,
    ensures
        r matches Ok((e, k2)) ==> k < k2 <= tokens@.len() && p_primary(toks_view(tokens@), k as int)
            == Ok::<(ExprV, int), DiagnosticV>((e@, k2 as int)),
        r matches Err(d) ==> p_primary(toks_view(tokens@), k as int) == Err::<(ExprV, int), DiagnosticV>(d@),
    decreases tokens@.len() - k, 4nat,
{
    let ghost t = toks_view(tokens@);
    if k >= tokens.len() {
        return Err(error_at(tokens, k));
    }
    let tk = &tokens[k];
    assert(t[k as int] == tk@);
    match &tk.kind {
        TokKind::Int => {
            let (v, _) = int_literal(tk.text.as_str());
            Ok((Expr { kind: ExprKind::Int(v), span: tk.span }, k + 1))
        },
        TokKind::Str(v) => Ok((Expr { kind: ExprKind::Text(v.clone()), span: tk.span }, k + 1)),
        TokKind::Punct(Punct::LParen) => match parse_expr(tokens, k + 1) {
            Err(d) => Err(d),
            Ok((e, k2)) => if tok_is_punct(tokens, k2, Punct::RParen) {
                Ok((e, k2 + 1))
            } else {
                Err(error_at(tokens, k2))
            },
        },
        TokKind::Ident => {
            if str_eq(tk.text.as_str(), "true") {
                Ok((Expr { kind: ExprKind::Bool(true), span: tk.span }, k + 1))
            } else if str_eq(tk.text.as_str(), "false") {
                Ok((Expr { kind: ExprKind::Bool(false), span: tk.span }, k + 1))
            } else if str_eq(tk.text.as_str(), "if") {
                parse_if(tokens, k)
            } else {
                match parse_qname(tokens, k) {
                    Err(d) => Err(d),
                    Ok((parts, k2)) => {
                        if tok_is_punct(tokens, k2, Punct::LParen) {
                            match parse_args(tokens, k2 + 1) {
                                Err(d) => Err(d),
                                Ok((args, k3)) => {
                                    assert(t[k3 - 1] == tokens@[k3 - 1]@);
                                    let span = Span { start: tk.span.start, end: tokens[k3 - 1].span.end };
                                    Ok((Expr { kind: ExprKind::Call { path: parts, args }, span }, k3))
                                },
                            }
                        } else if parts.len() == 1 {
                            Ok((Expr { kind: ExprKind::Var(tk.text.clone()), span: tk.span }, k2))
                        } else {
                            Err(error_at(tokens, k2))
                        }
                    },
                }
            }
        },
        _ => Err(error_at(tokens, k)),
    }
}

fn parse_if(tokens: &Vec<Tok>, k: usize) -> (r: Result<(Expr, usize), Diagnostic>)
    requires
        k < tokens@.len(),
        tokens@.len() < usize::MAX,
    ensures
        r matches Ok((e, k2)) ==> k < k2 <= tokens@.len() && p_if(toks_view(tokens@), k as int)
            == Ok::<(ExprV, int), DiagnosticV>((e@, k2 as int)),
        r matches Err(d) ==> p_if(toks_view(tokens@), k as int) == Err::<(ExprV, int), DiagnosticV>(d@),
    decreases tokens@.len() - k, 3nat,
{
    let ghost t = toks_view(tokens@);
    let (c, k2) = match parse_expr(tokens, k + 1) {
        Err(d) => {
            return Err(d);
        },
        Ok(x) => x,
    };
    if !tok_is_punct(tokens, k2, Punct::LBrace) {
        return Err(error_at(tokens, k2));
    }
    let (a, k3) = match parse_expr(tokens, k2 + 1) {
        Err(d) => {
            return Err(d);
        },
        Ok(x) => x,
    };
    if !tok_is_punct(tokens, k3, Punct::RBrace) {
        return Err(error_at(tokens, k3));
    }
    if !tok_is_word(tokens, k3 + 1, "else") {
        return Err(error_at(tokens, k3 + 1));
    }
    if !tok_is_punct(tokens, k3 + 2, Punct::LBrace) {
        return Err(error_at(tokens, k3 + 2));
    }
    let (b, k4) = match parse_expr(tokens, k3 + 3) {
        Err(d) => {
            return Err(d);
        },
        Ok(x) => x,
    };
    if !tok_is_punct(tokens, k4, Punct::RBrace) {
        return Err(error_at(tokens, k4));
    }
    assert(t[k as int] == tokens@[k as int]@);
    assert(t[k4 as int] == tokens@[k4 as int]@);
    let span = Span { start: tokens[k].span.start, end: tokens[k4].span.end };
    Ok((
        Expr {
            kind: ExprKind::If { condition: Box::new(c), consequence: Box::new(a), alternative: Box::new(b) },
            span,
        },
        k4 + 1,
    ))
}

fn member_namespace(module: &str, function: &str, kind: &str, ordinal: usize) -> (s: String)
    ensures
        s@ == member_ns(module@, function@, kind@, ordinal as nat),
{
    let mut s = String::new();
    append_str(&mut s, module);
    append_str(&mut s, ".");
    append_str(&mut s, function);
    append_str(&mut s, kind);
    push_decimal(&mut s, ordinal as u64);
    s
}

spec fn stmts_view(v: Seq<Stmt>) -> Seq<StmtV> {
    v.map_values(|s: Stmt| s@)
}

fn parse_stmts(tokens: &Vec<Tok>, k: usize, module: &str, function: &str) -> (r: Result<(Vec<Stmt>, usize), Diagnostic>)
    requires
        k <= tokens@.len(),
        tokens@.len() < usize::MAX,
    ensures
        r matches Ok((body, k2)) ==> k < k2 <= tokens@.len() && p_stmts(
            toks_view(tokens@),
            k as int,
            module@,
            function@,
            Seq::empty(),
            0,
        ) == Ok::<(Seq<StmtV>, int), DiagnosticV>((stmts_view(body@), k2 as int)),
        r matches Err(d) ==> p_stmts(toks_view(tokens@), k as int, module@, function@, Seq::empty(), 0) == Err::<
            (Seq<StmtV>, int),
            DiagnosticV,
        >(d@),
{
    let ghost t = toks_view(tokens@);
    let mut body: Vec<Stmt> = Vec::new();
    let mut ordinal: usize = 0;
    let mut j = k;
    assert(stmts_view(body@) =~= Seq::<StmtV>::empty());
    loop
        invariant
            k <= j <= tokens@.len(),
            tokens@.len() < usize::MAX,
            t == toks_view(tokens@),
            ordinal <= j,
            p_stmts(t, k as int, module@, function@, Seq::empty(), 0) == p_stmts(
                t,
                j as int,
                module@,
                function@,
                stmts_view(body@),
                ordinal as nat,
            ),
        decreases tokens@.len() - j,
    {
        if j >= tokens.len() {
            return Err(error_at(tokens, j));
        }
        if tok_is_punct(tokens, j, Punct::RBrace) {
            return Ok((body, j + 1));
        }
        let ghost before = body@;
        if tok_is_word(tokens, j, "let") {
            if !tok_is_name(tokens, j + 1) {
                return Err(error_at(tokens, j + 1));
            }
            let annotated = tok_is_punct(tokens, j + 2, Punct::Colon);
            if annotated && !tok_is_name(tokens, j + 3) {
                return Err(error_at(tokens, j + 3));
            }
            let annotation = if annotated {
                assert(t[j + 3] == tokens@[j + 3]@);
                Some((tokens[j + 3].text.clone(), tokens[j + 3].span))
            } else {
                None
            };
            let m = if annotated { j + 4 } else { j + 2 };
            if !tok_is_punct(tokens, m, Punct::Assign) {
                return Err(error_at(tokens, m));
            }
            let (value, k2) = match parse_expr(tokens, m + 1) {
                Err(d) => {
                    return Err(d);
                },
                Ok(x) => x,
            };
            if !tok_is_punct(tokens, k2, Punct::Semi) {
                return Err(error_at(tokens, k2));
            }
            let name_tok = &tokens[j + 1];
            assert(t[j + 1] == name_tok@);
            assert(t[j as int] == tokens@[j as int]@);
            assert(t[k2 as int] == tokens@[k2 as int]@);
            let ns = member_namespace(module, function, ".local.", ordinal);
            let id = StableId::named(ns.as_str(), name_tok.text.as_str());
            let span = Span { start: tokens[j].span.start, end: tokens[k2].span.end };
            body.push(
                Stmt {
                    kind: StmtKind::Let {
                        id,
                        name: name_tok.text.clone(),
                        name_span: name_tok.span,
                        annotation,
                        value,
                    },
                    span,
                },
            );
            assert(stmts_view(body@) =~= stmts_view(before).push(body@.last()@));
            ordinal = ordinal + 1;
            j = k2 + 1;
        } else {
            let (value, k2) = match parse_expr(tokens, j) {
                Err(d) => {
                    return Err(d);
                },
                Ok(x) => x,
            };
            if tok_is_punct(tokens, k2, Punct::Semi) {
                assert(t[k2 as int] == tokens@[k2 as int]@);
                let span = Span { start: value.span.start, end: tokens[k2].span.end };
                body.push(Stmt { kind: StmtKind::Expr { value, terminated: true }, span });
                assert(stmts_view(body@) =~= stmts_view(before).push(body@.last()@));
                j = k2 + 1;
            } else if tok_is_punct(tokens, k2, Punct::RBrace) {
                let span = value.span;
                body.push(Stmt { kind: StmtKind::Expr { value, terminated: false }, span });
                assert(stmts_view(body@) =~= stmts_view(before).push(body@.last()@));
                j = k2;
            } else {
                return Err(error_at(tokens, k2));
            }
        }
    }
}

spec fn params_view(v: Seq<Param>) -> Seq<ParamV> {
    v.map_values(|p: Param| p@)
}

fn parse_params(tokens: &Vec<Tok>, k: usize, module: &str, function: &str) -> (r: Result<(Vec<Param>, usize), Diagnostic>)
    requires
        k <= tokens@.len(),
        tokens@.len() < usize::MAX,
    ensures
        r matches Ok((params, k2)) ==> k < k2 <= tokens@.len() && p_params(
            toks_view(tokens@),
            k as int,
            module@,
            function@,
            Seq::empty(),
        ) == Ok::<(Seq<ParamV>, int), DiagnosticV>((params_view(params@), k2 as int)),
        r matches Err(d) ==> p_params(toks_view(tokens@), k as int, module@, function@, Seq::empty()) == Err::<
            (Seq<ParamV>, int),
            DiagnosticV,
        >(d@),
{
    let ghost t = toks_view(tokens@);
    let mut params: Vec<Param> = Vec::new();
    let mut j = k;
    assert(params_view(params@) =~= Seq::<ParamV>::empty());
    loop
        invariant
            k <= j <= tokens@.len(),
            tokens@.len() < usize::MAX,
            t == toks_view(tokens@),
            params@.len() <= j,
            p_params(t, k as int, module@, function@, Seq::empty()) == p_params(
                t,
                j as int,
                module@,
                function@,
                params_view(params@),
            ),
        decreases tokens@.len() - j,
    {
        if j >= tokens.len() {
            return Err(error_at(tokens, j));
        }
        if tok_is_punct(tokens, j, Punct::RParen) {
            return Ok((params, j + 1));
        }
        if !tok_is_name(tokens, j) {
            return Err(error_at(tokens, j));
        }
        if !tok_is_punct(tokens, j + 1, Punct::Colon) {
            return Err(error_at(tokens, j + 1));
        }
        if !tok_is_name(tokens, j + 2) {
            return Err(error_at(tokens, j + 2));
        }
        let name_tok = &tokens[j];
        let type_tok = &tokens[j + 2];
        assert(t[j as int] == name_tok@);
        assert(t[j + 2] == type_tok@);
        let ns = member_namespace(module, function, ".param.", params.len());
        let id = StableId::named(ns.as_str(), name_tok.text.as_str());
        let ghost before = params@;
        params.push(
            Param {
                id,
                name: name_tok.text.clone(),
                name_span: name_tok.span,
                ty_name: type_tok.text.clone(),
                type_span: type_tok.span,
            },
        );
        assert(params_view(params@) =~= params_view(before).push(params@.last()@));
        if tok_is_punct(tokens, j + 3, Punct::Comma) {
            j = j + 4;
        } else if tok_is_punct(tokens, j + 3, Punct::RParen) {
            return Ok((params, j + 4));
        } else {
            return Err(error_at(tokens, j + 3));
        }
    }
}

fn join_names(parts: &Vec<(String, Span)>) -> (s: String)
    requires
        parts@.len() >= 1,
    ensures
        s@ == join_parts(parts_view(parts@)),
{
    let mut s = parts[0].0.clone();
    let mut i: usize = 1;
    assert(parts_view(parts@).take(1) =~= seq![parts_view(parts@)[0]]);
    while i < parts.len()
        invariant
            1 <= i <= parts@.len(),
            s@ == join_parts(parts_view(parts@).take(i as int)),
        decreases parts@.len() - i,
    {
        append_str(&mut s, ".");
        append_str(&mut s, parts[i].0.as_str());
        assert(parts_view(parts@).take(i + 1).drop_last() =~= parts_view(parts@).take(i as int));
        i = i + 1;
    }
    assert(parts_view(parts@).take(parts@.len() as int) =~= parts_view(parts@));
    s
}

fn parse_effects(tokens: &Vec<Tok>, k: usize) -> (r: Result<(Vec<(String, Span)>, usize), Diagnostic>)
    requires
        k <= tokens@.len(),
        tokens@.len() < usize::MAX,
    ensures
        r matches Ok((effects, k2)) ==> k < k2 <= tokens@.len() && p_effects(toks_view(tokens@), k as int, Seq::empty())
            == Ok::<(Seq<(Seq<char>, Span)>, int), DiagnosticV>((parts_view(effects@), k2 as int)),
        r matches Err(d) ==> p_effects(toks_view(tokens@), k as int, Seq::empty()) == Err::<
            (Seq<(Seq<char>, Span)>, int),
            DiagnosticV,
        >(d@),
{
    let ghost t = toks_view(tokens@);
    let mut effects: Vec<(String, Span)> = Vec::new();
    let mut j = k;
    assert(parts_view(effects@) =~= Seq::<(Seq<char>, Span)>::empty());
    loop
        invariant
            k <= j <= tokens@.len(),
            tokens@.len() < usize::MAX,
            t == toks_view(tokens@),
            p_effects(t, k as int, Seq::empty()) == p_effects(t, j as int, parts_view(effects@)),
        decreases tokens@.len() - j,
    {
        if j >= tokens.len() {
            return Err(error_at(tokens, j));
        }
        if tok_is_punct(tokens, j, Punct::RBrace) {
            return Ok((effects, j + 1));
        }
        let (parts, k2) = match parse_qname(tokens, j) {
            Err(d) => {
                return Err(d);
            },
            Ok(x) => x,
        };
        let text = join_names(&parts);
        let span = Span { start: parts[0].1.start, end: parts[parts.len() - 1].1.end };
        assert(span == parts_span(parts_view(parts@)));
        let ghost before = effects@;
        effects.push((text, span));
        assert(parts_view(effects@) =~= parts_view(before).push((text@, span)));
        if tok_is_punct(tokens, k2, Punct::Comma) {
            j = k2 + 1;
        } else if tok_is_punct(tokens, k2, Punct::RBrace) {
            return Ok((effects, k2 + 1));
        } else {
            return Err(error_at(tokens, k2));
        }
    }
}

fn parse_function(tokens: &Vec<Tok>, k: usize, module: &str) -> (r: Result<(Function, usize), Diagnostic>)
    requires
        k < tokens@.len(),
        tokens@.len() < usize::MAX,
    ensures
        r matches Ok((f, k2)) ==> k < k2 <= tokens@.len() && p_function(toks_view(tokens@), k as int, module@)
            == Ok::<(FunctionV, int), DiagnosticV>((f@, k2 as int)),
        r matches Err(d) ==> p_function(toks_view(tokens@), k as int, module@) == Err::<(FunctionV, int), DiagnosticV>(
            d@,
        ),
{
    let ghost t = toks_view(tokens@);
    let public = tok_is_word(tokens, k, "pub");
    let j = if public { k + 1 } else { k };
    if !tok_is_word(tokens, j, "fn") {
        return Err(error_at(tokens, j));
    }
    if !tok_is_name(tokens, j + 1) {
        return Err(error_at(tokens, j + 1));
    }
    if !tok_is_punct(tokens, j + 2, Punct::LParen) {
        return Err(error_at(tokens, j + 2));
    }
    let name_tok = &tokens[j + 1];
    assert(t[j + 1] == name_tok@);
    let name = name_tok.text.as_str();
    let (params, j2) = match parse_params(tokens, j + 3, module, name) {
        Err(d) => {
            return Err(d);
        },
        Ok(x) => x,
    };
    if !tok_is_punct(tokens, j2, Punct::Arrow) {
        return Err(error_at(tokens, j2));
    }
    if !tok_is_name(tokens, j2 + 1) {
        return Err(error_at(tokens, j2 + 1));
    }
    let ret_tok = &tokens[j2 + 1];
    assert(t[j2 + 1] == ret_tok@);
    let j3 = j2 + 2;
    let (effects, j4) = if tok_is_punct(tokens, j3, Punct::Bang) {
        if !tok_is_punct(tokens, j3 + 1, Punct::LBrace) {
            return Err(error_at(tokens, j3 + 1));
        }
        match parse_effects(tokens, j3 + 2) {
            Err(d) => {
                return Err(d);
            },
            Ok(x) => x,
        }
    } else {
        let none: Vec<(String, Span)> = Vec::new();
        assert(parts_view(none@) =~= Seq::<(Seq<char>, Span)>::empty());
        (none, j3)
    };
    if !tok_is_punct(tokens, j4, Punct::LBrace) {
        return Err(error_at(tokens, j4));
    }
    let (body, j5) = match parse_stmts(tokens, j4 + 1, module, name) {
        Err(d) => {
            return Err(d);
        },
        Ok(x) => x,
    };
    assert(t[k as int] == tokens@[k as int]@);
    assert(t[j5 - 1] == tokens@[j5 - 1]@);
    let span = Span { start: tokens[k].span.start, end: tokens[j5 - 1].span.end };
    let f = Function {
        id: StableId::named(module, name),
        public,
        name: name_tok.text.clone(),
        name_span: name_tok.span,
        params,
        return_type: ret_tok.text.clone(),
        return_type_span: ret_tok.span,
        effects,
        body,
        span,
    };
    assert(f@.params == params_view(f.params@));
    assert(f@.body == stmts_view(f.body@));
    Ok((f, j5))
}

/// Reads a Robine module: its tree, or the lexical or first syntax error, or
/// else one diagnostic for each integer literal out of the `Int` range.
pub fn parse(source: &str) -> (r: Result<Program, Vec<Diagnostic>>)
    requires
        crate::text::byte_len(source@) <= isize::MAX,
    ensures
        r matches Ok(p) ==> spec_parse(source@) == Ok::<ProgramV, Seq<DiagnosticV>>(p@),
        r matches Err(ds) ==> spec_parse(source@) == Err::<ProgramV, Seq<DiagnosticV>>(
            crate::diagnostic::diagnostics_view(ds@),
        ),
{
    let cs = chars_of(source);
    proof {
        crate::text::lemma_byte_len_is_str_len(source@);
        crate::text::lemma_len_le_byte_len(source@);
    }
    let total = source.len();
    let (tokens, comments) = match crate::lexer::lex(&cs, total) {
        Ok(x) => x,
        Err(d) => {
            let ds = vec![d];
            assert(crate::diagnostic::diagnostics_view(ds@) =~= seq![ds@[0]@]);
            return Err(ds);
        },
    };
    let ghost t = toks_view(tokens@);
    match parse_program(&tokens, comments) {
        Err(d) => {
            let ds = vec![d];
            assert(crate::diagnostic::diagnostics_view(ds@) =~= seq![ds@[0]@]);
            Err(ds)
        },
        Ok(p) => {
            let over = overflow_diagnostics(&tokens);
            if over.len() > 0 {
                Err(over)
            } else {
                Ok(p)
            }
        },
    }
}

fn overflow_diagnostics(tokens: &Vec<Tok>) -> (ds: Vec<Diagnostic>)
    ensures
        crate::diagnostic::diagnostics_view(ds@) == overflows(toks_view(tokens@)),
{
    let ghost t = toks_view(tokens@);
    let mut ds: Vec<Diagnostic> = Vec::new();
    let mut i: usize = 0;
    assert(crate::diagnostic::diagnostics_view(ds@) =~= Seq::<DiagnosticV>::empty());
    assert(t.take(0) =~= Seq::<TokV>::empty());
    while i < tokens.len()
        invariant
            i <= tokens@.len(),
            t == toks_view(tokens@),
            crate::diagnostic::diagnostics_view(ds@) == overflows(t.take(i as int)),
        decreases tokens@.len() - i,
    {
        let tk = &tokens[i];
        assert(t.take(i + 1).drop_last() =~= t.take(i as int));
        assert(t.take(i + 1).last() == tk@);
        match &tk.kind {
            TokKind::Int => {
                let (_, fits) = int_literal(tk.text.as_str());
                if !fits {
                    let ghost before = ds@;
                    ds.push(Diagnostic::error("RBN1003", "entier hors de la plage `Int` du profil bootstrap".to_owned(), tk.span));
                    assert(crate::diagnostic::diagnostics_view(ds@) =~= crate::diagnostic::diagnostics_view(before).push(ds@.last()@));
                }
            },
            _ => {},
        }
        i = i + 1;
    }
    assert(t.take(tokens@.len() as int) =~= t);
    ds
}

spec fn imports_view(v: Seq<Import>) -> Seq<ImportV> {
    v.map_values(|i: Import| i@)
}

spec fn functions_view(v: Seq<Function>) -> Seq<FunctionV> {
    v.map_values(|f: Function| f@)
}

fn parse_imports(tokens: &Vec<Tok>, k: usize) -> (r: Result<(Vec<Import>, usize), Diagnostic>)
    requires
        k <= tokens@.len(),
        tokens@.len() < usize::MAX,
    ensures
        r matches Ok((imports, k2)) ==> k <= k2 <= tokens@.len() && p_imports(toks_view(tokens@), k as int, Seq::empty())
            == Ok::<(Seq<ImportV>, int), DiagnosticV>((imports_view(imports@), k2 as int)),
        r matches Err(d) ==> p_imports(toks_view(tokens@), k as int, Seq::empty()) == Err::<
            (Seq<ImportV>, int),
            DiagnosticV,
        >(d@),
{
    let ghost t = toks_view(tokens@);
    let mut imports: Vec<Import> = Vec::new();
    let mut j = k;
    assert(imports_view(imports@) =~= Seq::<ImportV>::empty());
    loop
        invariant
            k <= j <= tokens@.len(),
            tokens@.len() < usize::MAX,
            t == toks_view(tokens@),
            p_imports(t, k as int, Seq::empty()) == p_imports(t, j as int, imports_view(imports@)),
        decreases tokens@.len() - j,
    {
        if !tok_is_word(tokens, j, "import") {
            return Ok((imports, j));
        }
        let (parts, k2) = match parse_qname(tokens, j + 1) {
            Err(d) => {
                return Err(d);
            },
            Ok(x) => x,
        };
        assert(t[j as int] == tokens@[j as int]@);
        let name = join_names(&parts);
        let span = Span { start: tokens[j].span.start, end: parts[parts.len() - 1].1.end };
        let ghost before = imports@;
        imports.push(Import { module: name, span });
        assert(imports_view(imports@) =~= imports_view(before).push(imports@.last()@));
        j = k2;
    }
}

fn parse_functions(tokens: &Vec<Tok>, k: usize, module: &str) -> (r: Result<(Vec<Function>, usize), Diagnostic>)
    requires
        k <= tokens@.len(),
        tokens@.len() < usize::MAX,
    ensures
        r matches Ok((functions, k2)) ==> k <= k2 <= tokens@.len() && p_functions(
            toks_view(tokens@),
            k as int,
            module@,
            Seq::empty(),
        ) == Ok::<(Seq<FunctionV>, int), DiagnosticV>((functions_view(functions@), k2 as int)),
        r matches Err(d) ==> p_functions(toks_view(tokens@), k as int, module@, Seq::empty()) == Err::<
            (Seq<FunctionV>, int),
            DiagnosticV,
        >(d@),
{
    let ghost t = toks_view(tokens@);
    let mut functions: Vec<Function> = Vec::new();
    let mut j = k;
    assert(functions_view(functions@) =~= Seq::<FunctionV>::empty());
    loop
        invariant
            k <= j <= tokens@.len(),
            tokens@.len() < usize::MAX,
            t == toks_view(tokens@),
            p_functions(t, k as int, module@, Seq::empty()) == p_functions(
                t,
                j as int,
                module@,
                functions_view(functions@),
            ),
        decreases tokens@.len() - j,
    {
        if !(tok_is_word(tokens, j, "pub") || tok_is_word(tokens, j, "fn")) {
            return Ok((functions, j));
        }
        let (f, k3) = match parse_function(tokens, j, module) {
            Err(d) => {
                return Err(d);
            },
            Ok(x) => x,
        };
        let ghost before = functions@;
        functions.push(f);
        assert(functions_view(functions@) =~= functions_view(before).push(functions@.last()@));
        j = k3;
    }
}

fn parse_program(tokens: &Vec<Tok>, comments: bool) -> (r: Result<Program, Diagnostic>)
    requires
        tokens@.len() < usize::MAX,
    ensures
        r matches Ok(p) ==> p_program(toks_view(tokens@), comments) == Ok::<ProgramV, DiagnosticV>(p@),
        r matches Err(d) ==> p_program(toks_view(tokens@), comments) == Err::<ProgramV, DiagnosticV>(d@),
{
    let ghost t = toks_view(tokens@);
    if tokens.len() == 0 {
        return Err(Diagnostic::error("RBN1100", String::new(), Span::new(0, 0)));
    }
    let last = tokens.len() - 1;
    assert(t.last() == tokens@[last as int]@);
    if !tok_is_word(tokens, 0, "module") {
        return Err(
            Diagnostic::error("RBN1105", "déclaration `module` attendue".to_owned(), Span::new(0, tokens[last].span.end)),
        );
    }
    let (parts, k1) = match parse_qname(tokens, 1) {
        Err(d) => {
            return Err(d);
        },
        Ok(x) => x,
    };
    let module = join_names(&parts);
    let module_span = Span { start: parts[0].1.start, end: parts[parts.len() - 1].1.end };
    assert(module_span == parts_span(parts_view(parts@)));
    let (imports, k2) = match parse_imports(tokens, k1) {
        Err(d) => {
            return Err(d);
        },
        Ok(x) => x,
    };
    let (functions, k3) = match parse_functions(tokens, k2, module.as_str()) {
        Err(d) => {
            return Err(d);
        },
        Ok(x) => x,
    };
    let is_end = k3 < tokens.len() && match &tokens[k3].kind {
        TokKind::Eof => true,
        _ => false,
    };
    if !is_end {
        return Err(error_at(tokens, k3));
    }
    assert(t[k3 as int] == tokens@[k3 as int]@);
    let p = Program {
        module,
        module_span,
        imports,
        functions,
        span: Span::new(0, tokens[last].span.end),
        has_comments: comments,
    };
    assert(p@.imports == imports_view(p.imports@));
    assert(p@.functions == functions_view(p.functions@));
    Ok(p)
}

// ---------------------------------------------------------------------------
// Copies.

fn copy_parts(parts: &Vec<(String, Span)>) -> (r: Vec<(String, Span)>)
    ensures
        parts_view(r@) == parts_view(parts@),
{
    let mut r: Vec<(String, Span)> = Vec::new();
    let mut i: usize = 0;
    while i < parts.len()
        invariant
            i <= parts@.len(),
            parts_view(r@) == parts_view(parts@).take(i as int),
        decreases parts@.len() - i,
    {
        let ghost before = r@;
        let p = (parts[i].0.clone(), parts[i].1);
        r.push(p);
        assert(parts_view(r@) =~= parts_view(before).push((p.0@, p.1)));
        assert(parts_view(parts@).take(i + 1) =~= parts_view(parts@).take(i as int).push(parts_view(parts@)[i as int]));
        i = i + 1;
    }
    assert(parts_view(parts@).take(parts@.len() as int) =~= parts_view(parts@));
    r
}

impl Expr {
    /// A copy of this expression.
    pub fn duplicate(&self) -> (r: Expr)
        ensures
            r@ == self@,
        decreases self,
    {
        let kind = match &self.kind {
            ExprKind::Text(s) => ExprKind::Text(s.clone()),
            ExprKind::Int(v) => ExprKind::Int(*v),
            ExprKind::Bool(b) => ExprKind::Bool(*b),
            ExprKind::Var(s) => ExprKind::Var(s.clone()),
            ExprKind::If { condition, consequence, alternative } => ExprKind::If {
                condition: Box::new(condition.duplicate()),
                consequence: Box::new(consequence.duplicate()),
                alternative: Box::new(alternative.duplicate()),
            },
            ExprKind::Binary { operator, left, right } => ExprKind::Binary {
                operator: *operator,
                left: Box::new(left.duplicate()),
                right: Box::new(right.duplicate()),
            },
            ExprKind::Call { path, args } => {
                let mut out: Vec<Expr> = Vec::new();
                let mut i: usize = 0;
                while i < args.len()
                    invariant
                        i <= args@.len(),
                        self.kind == (ExprKind::Call { path: *path, args: *args }),
                        exprs_view(out@) == exprs_view(args@).take(i as int),
                    decreases args@.len() - i,
                {
                    proof {
                        assert(decreases_to!(*self => self.kind));
                        assert(decreases_to!(self.kind => self.kind->Call_args));
                        assert(decreases_to!(self.kind->Call_args => self.kind->Call_args@));
                        assert(decreases_to!(self.kind->Call_args@ => self.kind->Call_args@[i as int]));
                    }
                    let ghost before = out@;
                    let e = args[i].duplicate();
                    out.push(e);
                    assert(exprs_view(out@) =~= exprs_view(before).push(e@));
                    assert(exprs_view(args@).take(i + 1) =~= exprs_view(args@).take(i as int).push(exprs_view(args@)[i as int]));
                    i = i + 1;
                }
                assert(exprs_view(args@).take(args@.len() as int) =~= exprs_view(args@));
                ExprKind::Call { path: copy_parts(path), args: out }
            },
        };
        Expr { kind, span: self.span }
    }
}

impl Stmt {
    /// A copy of this statement.
    pub fn duplicate(&self) -> (r: Stmt)
        ensures
            r@ == self@,
    {
        let kind = match &self.kind {
            StmtKind::Let { id, name, name_span, annotation, value } => StmtKind::Let {
                id: *id,
                name: name.clone(),
                name_span: *name_span,
                annotation: match annotation {
                    Some((t, s)) => Some((t.clone(), *s)),
                    None => None,
                },
                value: value.duplicate(),
            },
            StmtKind::Expr { value, terminated } => StmtKind::Expr { value: value.duplicate(), terminated: *terminated },
        };
        Stmt { kind, span: self.span }
    }
}

impl Function {
    /// A copy of this function.
    pub fn duplicate(&self) -> (r: Function)
        ensures
            r@ == self@,
    {
        let mut params: Vec<Param> = Vec::new();
        let mut i: usize = 0;
        while i < self.params.len()
            invariant
                i <= self.params@.len(),
                params_view(params@) == params_view(self.params@).take(i as int),
            decreases self.params@.len() - i,
        {
            let p = &self.params[i];
            let ghost before = params@;
            let q = Param { id: p.id, name: p.name.clone(), name_span: p.name_span, ty_name: p.ty_name.clone(), type_span: p.type_span };
            params.push(q);
            assert(params_view(params@) =~= params_view(before).push(q@));
            assert(params_view(self.params@).take(i + 1) =~= params_view(self.params@).take(i as int).push(p@));
            i = i + 1;
        }
        assert(params_view(self.params@).take(self.params@.len() as int) =~= params_view(self.params@));
        let mut body: Vec<Stmt> = Vec::new();
        let mut j: usize = 0;
        while j < self.body.len()
            invariant
                j <= self.body@.len(),
                stmts_view(body@) == stmts_view(self.body@).take(j as int),
            decreases self.body@.len() - j,
        {
            let ghost before = body@;
            let s = self.body[j].duplicate();
            body.push(s);
            assert(stmts_view(body@) =~= stmts_view(before).push(s@));
            assert(stmts_view(self.body@).take(j + 1) =~= stmts_view(self.body@).take(j as int).push(self.body@[j as int]@));
            j = j + 1;
        }
        assert(stmts_view(self.body@).take(self.body@.len() as int) =~= stmts_view(self.body@));
        let r = Function {
            id: self.id,
            public: self.public,
            name: self.name.clone(),
            name_span: self.name_span,
            params,
            return_type: self.return_type.clone(),
            return_type_span: self.return_type_span,
            effects: copy_parts(&self.effects),
            body,
            span: self.span,
        };
        assert(r@.params == params_view(r.params@));
        assert(r@.body == stmts_view(r.body@));
        r
    }
}

impl Program {
    /// A copy of this module.
    pub fn duplicate(&self) -> (r: Program)
        ensures
            r@ == self@,
    {
        let mut imports: Vec<Import> = Vec::new();
        let mut i: usize = 0;
        while i < self.imports.len()
            invariant
                i <= self.imports@.len(),
                imports_view(imports@) == imports_view(self.imports@).take(i as int),
            decreases self.imports@.len() - i,
        {
            let ghost before = imports@;
            let m = Import { module: self.imports[i].module.clone(), span: self.imports[i].span };
            imports.push(m);
            assert(imports_view(imports@) =~= imports_view(before).push(m@));
            assert(imports_view(self.imports@).take(i + 1) =~= imports_view(self.imports@).take(i as int).push(self.imports@[i as int]@));
            i = i + 1;
        }
        assert(imports_view(self.imports@).take(self.imports@.len() as int) =~= imports_view(self.imports@));
        let mut functions: Vec<Function> = Vec::new();
        let mut j: usize = 0;
        while j < self.functions.len()
            invariant
                j <= self.functions@.len(),
                functions_view(functions@) == functions_view(self.functions@).take(j as int),
            decreases self.functions@.len() - j,
        {
            let ghost before = functions@;
            let f = self.functions[j].duplicate();
            functions.push(f);
            assert(functions_view(functions@) =~= functions_view(before).push(f@));
            assert(functions_view(self.functions@).take(j + 1) =~= functions_view(self.functions@).take(j as int).push(self.functions@[j as int]@));
            j = j + 1;
        }
        assert(functions_view(self.functions@).take(self.functions@.len() as int) =~= functions_view(self.functions@));
        let r = Program {
            module: self.module.clone(),
            module_span: self.module_span,
            imports,
            functions,
            span: self.span,
            has_comments: self.has_comments,
        };
        assert(r@.imports == imports_view(r.imports@));
        assert(r@.functions == functions_view(r.functions@));
        r
    }
}

} // verus!
