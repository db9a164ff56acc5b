//! Name resolution, typing and effect checking of a Robine module, and its
//! lowering to the explicit Core of the bootstrap profile.
//!
//! Sets of effect and foreign-call names are kept as vectors sorted by
//! [`text_leq`](crate::text_set::text_leq) without repetition, the order in
//! which they are listed and reported.

use vstd::prelude::*;
use crate::diagnostic::{err_v, Diagnostic, DiagnosticV, Span};
use crate::formatter::join_commas;
use crate::syntax::{
    join_parts, op_symbol, parse, spec_parse, spec_stable_id, BinaryOp, Expr, ExprKind, ExprKindV, ExprV,
    Function, FunctionV, ParamV, Program, ProgramV, StableId, StmtKind, StmtKindV, StmtV,
};
use crate::text::{append_str, push_decimal, spec_decimal, str_eq};
use crate::text_set::{
    set_insert, set_minus, set_union, text_set_insert, text_set_minus, text_set_union, texts,
};

verus! {

/// How far the analysis of a module went.
#[derive(Clone, Copy, Debug, PartialEq, Eq, Structural)]
pub enum Phase {
    Read,
    Resolved,
    Typed,
}

/// A type of the bootstrap profile, or a name that is none of them.
#[derive(Clone, Debug, PartialEq, Eq)]
pub enum Type {
    Unit,
    Bool,
    Int,
    Text,
    Console,
    Unknown(String),
}

/// The value of a [`Type`].
pub enum TypeV {
    Unit,
    Bool,
    Int,
    Text,
    Console,
    Unknown(Seq<char>),
}

impl View for Type {
    type V = TypeV;

    open spec fn view(&self) -> TypeV {
        match self {
            Type::Unit => TypeV::Unit,
            Type::Bool => TypeV::Bool,
            Type::Int => TypeV::Int,
            Type::Text => TypeV::Text,
            Type::Console => TypeV::Console,
            Type::Unknown(s) => TypeV::Unknown(s@),
        }
    }
}

/// The type a name denotes.
pub open spec fn type_named(name: Seq<char>) -> TypeV {
    if name == "Unit"@ {
        TypeV::Unit
    } else if name == "Bool"@ {
        TypeV::Bool
    } else if name == "Int"@ {
        TypeV::Int
    } else if name == "Text"@ {
        TypeV::Text
    } else if name == "Console"@ {
        TypeV::Console
    } else {
        TypeV::Unknown(name)
    }
}

/// The name of a type, as it is written.
pub open spec fn type_text(t: TypeV) -> Seq<char> {
    match t {
        TypeV::Unit => "Unit"@,
        TypeV::Bool => "Bool"@,
        TypeV::Int => "Int"@,
        TypeV::Text => "Text"@,
        TypeV::Console => "Console"@,
        TypeV::Unknown(name) => name,
    }
}

/// The type of an erroneous expression.
pub open spec fn error_type() -> TypeV {
    TypeV::Unknown("<error>"@)
}

impl Type {
    /// The type a name denotes.
    pub fn from_name(name: &str) -> (t: Type)
        ensures
            t@ == type_named(name@),
    {
        if str_eq(name, "Unit") {
            Type::Unit
        } else if str_eq(name, "Bool") {
            Type::Bool
        } else if str_eq(name, "Int") {
            Type::Int
        } else if str_eq(name, "Text") {
            Type::Text
        } else if str_eq(name, "Console") {
            Type::Console
        } else {
            Type::Unknown(name.to_owned())
        }
    }

    /// Whether this is a type of the profile.
    pub fn is_known(&self) -> (r: bool)
        ensures
            r == !(self@ is Unknown),
    {
        !matches!(self, Type::Unknown(_))
    }

    /// The name of this type, as it is written.
    pub fn text(&self) -> (s: String)
        ensures
            s@ == type_text(self@),
    {
        match self {
            Type::Unit => "Unit".to_owned(),
            Type::Bool => "Bool".to_owned(),
            Type::Int => "Int".to_owned(),
            Type::Text => "Text".to_owned(),
            Type::Console => "Console".to_owned(),
            Type::Unknown(name) => name.clone(),
        }
    }

    /// Whether two types are the same.
    pub fn same(&self, other: &Type) -> (r: bool)
        ensures
            r == (self@ == other@),
    {
        match (self, other) {
            (Type::Unit, Type::Unit) => true,
            (Type::Bool, Type::Bool) => true,
            (Type::Int, Type::Int) => true,
            (Type::Text, Type::Text) => true,
            (Type::Console, Type::Console) => true,
            (Type::Unknown(a), Type::Unknown(b)) => str_eq(a.as_str(), b.as_str()),
            _ => false,
        }
    }

    /// A copy of this type.
    pub fn duplicate(&self) -> (t: Type)
        ensures
            t@ == self@,
    {
        match self {
            Type::Unit => Type::Unit,
            Type::Bool => Type::Bool,
            Type::Int => Type::Int,
            Type::Text => Type::Text,
            Type::Console => Type::Console,
            Type::Unknown(name) => Type::Unknown(name.clone()),
        }
    }
}

/// What a symbol names.
#[derive(Clone, Copy, Debug, PartialEq, Eq, Structural)]
pub enum SymbolKind {
    Module,
    Function,
    Parameter,
    Local,
    Type,
    Effect,
}

/// An occurrence of a name in the source, with what it refers to.
#[derive(Clone, Debug, PartialEq, Eq)]
pub struct SymbolInfo {
    pub id: StableId,
    pub name: String,
    pub kind: SymbolKind,
    pub span: Span,
    pub definition_span: Span,
    pub type_label: Option<String>,
}

/// The value of a [`SymbolInfo`].
pub struct SymbolInfoV {
    pub id: StableId,
    pub name: Seq<char>,
    pub kind: SymbolKind,
    pub span: Span,
    pub definition_span: Span,
    pub type_label: Option<Seq<char>>,
}

impl View for SymbolInfo {
    type V = SymbolInfoV;

    open spec fn view(&self) -> SymbolInfoV {
        SymbolInfoV {
            id: self.id,
            name: self.name@,
            kind: self.kind,
            span: self.span,
            definition_span: self.definition_span,
            type_label: match self.type_label {
                Some(t) => Some(t@),
                None => None,
            },
        }
    }
}

/// The signature of a function and the effects its body needs.
#[derive(Clone, Debug, PartialEq, Eq)]
pub struct FunctionSummary {
    pub id: StableId,
    pub name: String,
    pub span: Span,
    pub params: Vec<(String, Type)>,
    pub return_type: Type,
    pub declared_effects: Vec<String>,
    pub required_effects: Vec<String>,
}

/// The value of a [`FunctionSummary`].
pub struct SummaryV {
    pub id: StableId,
    pub name: Seq<char>,
    pub span: Span,
    pub params: Seq<(Seq<char>, TypeV)>,
    pub return_type: TypeV,
    pub declared_effects: Seq<Seq<char>>,
    pub required_effects: Seq<Seq<char>>,
}

/// The values of typed parameters.
pub open spec fn typed_params_view(ps: Seq<(String, Type)>) -> Seq<(Seq<char>, TypeV)> {
    ps.map_values(|p: (String, Type)| (p.0@, p.1@))
}

impl View for FunctionSummary {
    type V = SummaryV;

    open spec fn view(&self) -> SummaryV {
        SummaryV {
            id: self.id,
            name: self.name@,
            span: self.span,
            params: typed_params_view(self.params@),
            return_type: self.return_type@,
            declared_effects: texts(self.declared_effects@),
            required_effects: texts(self.required_effects@),
        }
    }
}

/// The outcome of the analysis of a module.
#[derive(Debug)]
pub struct Analysis {
    pub phase: Phase,
    pub program: Option<Program>,
    pub diagnostics: Vec<Diagnostic>,
    pub symbols: Vec<SymbolInfo>,
    pub functions: Vec<FunctionSummary>,
    pub foreign_calls: Vec<String>,
}

/// The value of an [`Analysis`].
pub struct AnalysisV {
    pub phase: Phase,
    pub program: Option<ProgramV>,
    pub diagnostics: Seq<DiagnosticV>,
    pub symbols: Seq<SymbolInfoV>,
    pub functions: Seq<SummaryV>,
    pub foreign_calls: Seq<Seq<char>>,
}

/// The values of some symbols.
pub open spec fn symbols_view(v: Seq<SymbolInfo>) -> Seq<SymbolInfoV> {
    v.map_values(|s: SymbolInfo| s@)
}

/// The values of some summaries.
pub open spec fn summaries_view(v: Seq<FunctionSummary>) -> Seq<SummaryV> {
    v.map_values(|s: FunctionSummary| s@)
}

impl View for Analysis {
    type V = AnalysisV;

    open spec fn view(&self) -> AnalysisV {
        AnalysisV {
            phase: self.phase,
            program: match self.program {
                Some(p) => Some(p@),
                None => None,
            },
            diagnostics: crate::diagnostic::diagnostics_view(self.diagnostics@),
            symbols: symbols_view(self.symbols@),
            functions: summaries_view(self.functions@),
            foreign_calls: texts(self.foreign_calls@),
        }
    }
}

// ---------------------------------------------------------------------------
// The analysis, as spec functions.

/// What the analysis of one function has gathered so far.
pub struct AnState {
    pub diags: Seq<DiagnosticV>,
    pub symbols: Seq<SymbolInfoV>,
    pub foreign: Seq<Seq<char>>,
    pub effects: Seq<Seq<char>>,
}

/// A binding of the environment: its type, its identity and where it is defined.
pub struct Binding {
    pub ty: TypeV,
    pub id: StableId,
    pub span: Span,
}

/// The innermost binding of `name` in `env` (later entries shadow earlier ones).
pub open spec fn lookup(env: Seq<(Seq<char>, Binding)>, name: Seq<char>) -> Option<Binding>
    decreases env.len(),
{
    if env.len() == 0 {
        None
    } else if env.last().0 == name {
        Some(env.last().1)
    } else {
        lookup(env.drop_last(), name)
    }
}

/// The index of the summary named `name`.
pub open spec fn find_summary(sigs: Seq<SummaryV>, name: Seq<char>) -> Option<int>
    decreases sigs.len(),
{
    if sigs.len() == 0 {
        None
    } else if sigs.last().name == name {
        Some(sigs.len() - 1)
    } else {
        find_summary(sigs.drop_last(), name)
    }
}

/// `s` with one more error.
pub open spec fn with_diag(s: AnState, code: Seq<char>, message: Seq<char>, span: Span) -> AnState {
    AnState { diags: s.diags.push(err_v(code, message, span)), ..s }
}

/// `s` with one more symbol.
pub open spec fn with_symbol(
    s: AnState,
    id: StableId,
    name: Seq<char>,
    kind: SymbolKind,
    span: Span,
    definition_span: Span,
    type_label: Option<Seq<char>>,
) -> AnState {
    AnState {
        symbols: s.symbols.push(SymbolInfoV { id, name, kind, span, definition_span, type_label }),
        ..s
    }
}

/// The text of a signature, as hovers show it.
pub open spec fn signature_text(f: SummaryV) -> Seq<char> {
    "fn "@ + f.name + "("@ + join_commas(f.params.map_values(|p: (Seq<char>, TypeV)| p.0 + ": "@ + type_text(p.1)))
        + ") -> "@ + type_text(f.return_type) + if f.declared_effects.len() == 0 {
        Seq::empty()
    } else {
        " ! { "@ + join_commas(f.declared_effects) + " }"@
    }
}

/// A text between backquotes.
pub open spec fn quoted(t: Seq<char>) -> Seq<char> {
    "`"@ + t + "`"@
}

/// The type of an expression in `env`, and the state after its analysis.
pub open spec fn infer(e: ExprV, env: Seq<(Seq<char>, Binding)>, sigs: Seq<SummaryV>, s: AnState) -> (TypeV, AnState)
    decreases e, 1nat,
{
    match e.kind {
        ExprKindV::Text(_) => (TypeV::Text, s),
        ExprKindV::Int(_) => (TypeV::Int, s),
        ExprKindV::Bool(_) => (TypeV::Bool, s),
        ExprKindV::Var(name) => match lookup(env, name) {
            Some(b) => (
                b.ty,
                with_symbol(s, b.id, name, SymbolKind::Local, e.span, b.span, Some(type_text(b.ty))),
            ),
            None => (error_type(), with_diag(s, "RBN2003"@, "nom inconnu "@ + quoted(name), e.span)),
        },
        ExprKindV::If { condition, consequence, alternative } => {
            let (ct, s1) = infer(*condition, env, sigs, s);
            let s2 = if ct != TypeV::Bool {
                with_diag(
                    s1,
                    "RBN3005"@,
                    "la condition de `if` attend `Bool`, reçu "@ + quoted(type_text(ct)),
                    condition.span,
                )
            } else {
                s1
            };
            let (at, s3) = infer(*consequence, env, sigs, s2);
            let (bt, s4) = infer(*alternative, env, sigs, s3);
            if at == bt {
                (at, s4)
            } else {
                (
                    error_type(),
                    with_diag(
                        s4,
                        "RBN3006"@,
                        "les branches de `if` retournent "@ + quoted(type_text(at)) + " et "@ + quoted(type_text(bt)),
                        e.span,
                    ),
                )
            }
        },
        ExprKindV::Binary { operator, left, right } => {
            let (lt, s1) = infer(*left, env, sigs, s);
            let (rt, s2) = infer(*right, env, sigs, s1);
            let s3 = if lt != TypeV::Int {
                with_diag(
                    s2,
                    "RBN3007"@,
                    "l’opérateur "@ + quoted(op_symbol(operator)) + " attend `Int` à gauche, reçu "@ + quoted(
                        type_text(lt),
                    ),
                    left.span,
                )
            } else {
                s2
            };
            let s4 = if rt != TypeV::Int {
                with_diag(
                    s3,
                    "RBN3007"@,
                    "l’opérateur "@ + quoted(op_symbol(operator)) + " attend `Int` à droite, reçu "@ + quoted(
                        type_text(rt),
                    ),
                    right.span,
                )
            } else {
                s3
            };
            let t = match operator {
                BinaryOp::Add => TypeV::Int,
                BinaryOp::Subtract => TypeV::Int,
                BinaryOp::Multiply => TypeV::Int,
                _ => TypeV::Bool,
            };
            (t, s4)
        },
        ExprKindV::Call { path, args } => if path.len() == 2 && path[0].0 == "rust"@ && path[1].0
            == "grapheme_count"@ {
            let s1 = AnState { foreign: set_insert(s.foreign, "rust.grapheme_count"@), ..s };
            if args.len() == 1 {
                let (at, s2) = infer(args[0], env, sigs, s1);
                if at != TypeV::Text {
                    (
                        TypeV::Int,
                        with_diag(
                            s2,
                            "RBN3001"@,
                            "`rust.grapheme_count` attend `Text`, reçu "@ + quoted(type_text(at)),
                            args[0].span,
                        ),
                    )
                } else {
                    (TypeV::Int, s2)
                }
            } else {
                (
                    TypeV::Int,
                    with_diag(s1, "RBN3004"@, "`rust.grapheme_count` attend exactement un argument"@, e.span),
                )
            }
        } else if path.len() == 2 && path[1].0 == "write_line"@ {
            let receiver = path[0];
            match lookup(env, receiver.0) {
                None => (
                    error_type(),
                    with_diag(s, "RBN2003"@, "nom inconnu "@ + quoted(receiver.0), receiver.1),
                ),
                Some(b) => {
                    let s1 = with_symbol(
                        s,
                        b.id,
                        receiver.0,
                        SymbolKind::Parameter,
                        receiver.1,
                        b.span,
                        Some(type_text(b.ty)),
                    );
                    let s2 = if b.ty != TypeV::Console {
                        with_diag(
                            s1,
                            "RBN3003"@,
                            "`write_line` exige `Console`, reçu "@ + quoted(type_text(b.ty)),
                            receiver.1,
                        )
                    } else {
                        s1
                    };
                    let s3 = if args.len() == 1 {
                        let (at, s4) = infer(args[0], env, sigs, s2);
                        if at != TypeV::Text {
                            with_diag(
                                s4,
                                "RBN3001"@,
                                "`write_line` attend `Text`, reçu "@ + quoted(type_text(at)),
                                args[0].span,
                            )
                        } else {
                            s4
                        }
                    } else {
                        with_diag(s2, "RBN3004"@, "`write_line` attend exactement un argument"@, e.span)
                    };
                    (TypeV::Unit, AnState { effects: set_insert(s3.effects, "Console.Write"@), ..s3 })
                },
            }
        } else if path.len() == 1 {
            let name = path[0].0;
            match find_summary(sigs, name) {
                None => (error_type(), with_diag(s, "RBN2004"@, "fonction inconnue "@ + quoted(name), path[0].1)),
                Some(i) => {
                    let callee = sigs[i];
                    let s1 = with_symbol(
                        s,
                        callee.id,
                        name,
                        SymbolKind::Function,
                        path[0].1,
                        callee.span,
                        Some(signature_text(callee)),
                    );
                    let s2 = if args.len() != callee.params.len() {
                        with_diag(
                            s1,
                            "RBN3004"@,
                            quoted(name) + " attend "@ + spec_decimal(callee.params.len()) + " argument(s), reçu "@
                                + spec_decimal(args.len()),
                            e.span,
                        )
                    } else {
                        s1
                    };
                    let s3 = infer_args(args, 0, callee.params, name, env, sigs, s2);
                    (callee.return_type, AnState { effects: set_union(s3.effects, callee.declared_effects), ..s3 })
                },
            }
        } else {
            (error_type(), with_diag(s, "RBN2004"@, "appel inconnu "@ + quoted(join_parts(path)), e.span))
        },
    }
}

/// The analysis of the arguments `args[k..]` paired with the parameters of
/// `callee`, as far as both go.
pub open spec fn infer_args(
    args: Seq<ExprV>,
    k: int,
    params: Seq<(Seq<char>, TypeV)>,
    callee: Seq<char>,
    env: Seq<(Seq<char>, Binding)>,
    sigs: Seq<SummaryV>,
    s: AnState,
) -> AnState
    decreases args, args.len() - k,
{
    if k < 0 || k >= args.len() || k >= params.len() {
        s
    } else {
        let (actual, s1) = infer(args[k], env, sigs, s);
        let expected = params[k].1;
        let s2 = if actual != expected {
            with_diag(
                s1,
                "RBN3001"@,
                quoted(callee) + " attend "@ + quoted(type_text(expected)) + ", reçu "@ + quoted(type_text(actual)),
                args[k].span,
            )
        } else {
            s1
        };
        infer_args(args, k + 1, params, callee, env, sigs, s2)
    }
}

/// The analysis of the parameters `params[k..]`: the environment they bind
/// after `env` and the state after them.
pub open spec fn check_params(params: Seq<ParamV>, k: int, env: Seq<(Seq<char>, Binding)>, s: AnState) -> (
    Seq<(Seq<char>, Binding)>,
    AnState,
)
    decreases params.len() - k,
{
    if k < 0 || k >= params.len() {
        (env, s)
    } else {
        let p = params[k];
        let pt = type_named(p.ty_name);
        let s1 = if pt is Unknown {
            with_diag(s, "RBN3000"@, "type inconnu "@ + quoted(p.ty_name), p.type_span)
        } else {
            s
        };
        let s2 = if lookup(env, p.name) is Some {
            with_diag(s1, "RBN2002"@, "paramètre "@ + quoted(p.name) + " défini plusieurs fois"@, p.name_span)
        } else {
            s1
        };
        let env2 = env.push((p.name, Binding { ty: pt, id: p.id, span: p.name_span }));
        let s3 = with_symbol(s2, p.id, p.name, SymbolKind::Parameter, p.name_span, p.name_span, Some(type_text(pt)));
        let s4 = with_symbol(
            s3,
            StableId(spec_stable_id("type"@, p.ty_name)),
            p.ty_name,
            SymbolKind::Type,
            p.type_span,
            p.type_span,
            Some("Type"@),
        );
        check_params(params, k + 1, env2, s4)
    }
}

/// The analysis of the statements `body[k..]`: the state after them and the
/// type of the body (that of a final unterminated expression, else `Unit`).
pub open spec fn check_body(
    body: Seq<StmtV>,
    k: int,
    env: Seq<(Seq<char>, Binding)>,
    sigs: Seq<SummaryV>,
    s: AnState,
    body_type: TypeV,
) -> (AnState, TypeV)
    decreases body.len() - k,
{
    if k < 0 || k >= body.len() {
        (s, body_type)
    } else {
        match body[k].kind {
            StmtKindV::Let { id, name, name_span, annotation, value } => {
                let (inferred, s1) = infer(value, env, sigs, s);
                let (lt, s2) = match annotation {
                    Some((tn, ts)) => {
                        let a = type_named(tn);
                        let s2 = if a is Unknown {
                            with_diag(s1, "RBN3000"@, "type inconnu "@ + quoted(tn), ts)
                        } else if inferred != a {
                            with_diag(
                                s1,
                                "RBN3001"@,
                                "le binding "@ + quoted(name) + " attend "@ + quoted(type_text(a)) + ", reçu "@
                                    + quoted(type_text(inferred)),
                                value.span,
                            )
                        } else {
                            s1
                        };
                        (a, s2)
                    },
                    None => (inferred, s1),
                };
                let env2 = env.push((name, Binding { ty: lt, id, span: name_span }));
                let s3 = with_symbol(s2, id, name, SymbolKind::Local, name_span, name_span, Some(type_text(lt)));
                check_body(body, k + 1, env2, sigs, s3, TypeV::Unit)
            },
            StmtKindV::Expr { value, terminated } => {
                let (t, s1) = infer(value, env, sigs, s);
                check_body(body, k + 1, env, sigs, s1, if terminated { TypeV::Unit } else { t })
            },
        }
    }
}

/// The symbols of the declared effects `effects`, after those of `s`.
pub open spec fn effect_symbols(effects: Seq<(Seq<char>, Span)>, s: AnState) -> AnState
    decreases effects.len(),
{
    if effects.len() == 0 {
        s
    } else {
        let (e, sp) = effects.last();
        with_symbol(
            effect_symbols(effects.drop_last(), s),
            StableId(spec_stable_id("effect"@, e)),
            e,
            SymbolKind::Effect,
            sp,
            sp,
            Some("Effect"@),
        )
    }
}

/// One error for each effect of `missing` that function `name` uses without
/// declaring it.
pub open spec fn report_effects(missing: Seq<Seq<char>>, name: Seq<char>, span: Span, s: AnState) -> AnState
    decreases missing.len(),
{
    if missing.len() == 0 {
        s
    } else {
        with_diag(
            report_effects(missing.drop_last(), name, span, s),
            "RBN4001"@,
            "la fonction "@ + quoted(name) + " utilise l’effet "@ + quoted(missing.last()) + " sans le déclarer"@,
            span,
        )
    }
}

/// The analysis of a function against the signature registered under its
/// name: the state after it and the signatures with its required effects.
pub open spec fn check_function(f: FunctionV, sigs: Seq<SummaryV>, s: AnState) -> (AnState, Seq<SummaryV>) {
    match find_summary(sigs, f.name) {
        None => (s, sigs),
        Some(i) => {
            let sig = sigs[i];
            let s1 = with_symbol(
                s,
                f.id,
                f.name,
                SymbolKind::Function,
                f.name_span,
                f.name_span,
                Some(signature_text(sig)),
            );
            let s2 = if sig.return_type is Unknown {
                with_diag(s1, "RBN3000"@, "type inconnu "@ + quoted(f.return_type), f.return_type_span)
            } else {
                s1
            };
            let s3 = effect_symbols(f.effects, s2);
            let (env, s4) = check_params(f.params, 0, Seq::empty(), s3);
            let s5 = AnState { effects: Seq::empty(), ..s4 };
            let (s6, body_type) = check_body(f.body, 0, env, sigs, s5, TypeV::Unit);
            let s7 = if body_type != sig.return_type {
                with_diag(
                    s6,
                    "RBN3002"@,
                    "la fonction "@ + quoted(f.name) + " retourne "@ + quoted(type_text(body_type))
                        + ", signature "@ + quoted(type_text(sig.return_type)),
                    f.span,
                )
            } else {
                s6
            };
            let s8 = report_effects(set_minus(s6.effects, sig.declared_effects), f.name, f.name_span, s7);
            (s8, sigs.update(i, SummaryV { required_effects: s6.effects, ..sig }))
        },
    }
}

/// The signature a function declares.
pub open spec fn summary_of(f: FunctionV) -> SummaryV {
    SummaryV {
        id: f.id,
        name: f.name,
        span: f.name_span,
        params: f.params.map_values(|p: ParamV| (p.name, type_named(p.ty_name))),
        return_type: type_named(f.return_type),
        declared_effects: set_union(Seq::empty(), f.effects.map_values(|e: (Seq<char>, Span)| e.0)),
        required_effects: Seq::empty(),
    }
}

/// `sigs` with `x` at the place its name takes among theirs.
pub open spec fn summary_insert(sigs: Seq<SummaryV>, x: SummaryV) -> Seq<SummaryV>
    decreases sigs.len(),
{
    if sigs.len() == 0 {
        seq![x]
    } else if crate::text_set::text_leq(x.name, sigs[0].name) {
        seq![x] + sigs
    } else {
        seq![sigs[0]] + summary_insert(sigs.drop_first(), x)
    }
}

/// The signatures of `fs[k..]` registered after `sigs`, and the errors of
/// names declared twice after `diags`.
pub open spec fn register(fs: Seq<FunctionV>, k: int, sigs: Seq<SummaryV>, diags: Seq<DiagnosticV>) -> (
    Seq<SummaryV>,
    Seq<DiagnosticV>,
)
    decreases fs.len() - k,
{
    if k < 0 || k >= fs.len() {
        (sigs, diags)
    } else {
        let f = fs[k];
        if find_summary(sigs, f.name) is Some {
            register(
                fs,
                k + 1,
                sigs,
                diags.push(err_v("RBN2001"@, "fonction "@ + quoted(f.name) + " définie plusieurs fois"@, f.name_span)),
            )
        } else {
            register(fs, k + 1, summary_insert(sigs, summary_of(f)), diags)
        }
    }
}

/// The analysis of the functions `fs[k..]`.
pub open spec fn check_all(fs: Seq<FunctionV>, k: int, sigs: Seq<SummaryV>, s: AnState) -> (AnState, Seq<SummaryV>)
    decreases fs.len() - k,
{
    if k < 0 || k >= fs.len() {
        (s, sigs)
    } else {
        let (s1, sigs1) = check_function(fs[k], sigs, s);
        check_all(fs, k + 1, sigs1, s1)
    }
}

/// The analysis of a parsed module.
pub open spec fn run(p: ProgramV) -> AnalysisV {
    let (sigs, diags) = register(p.functions, 0, Seq::empty(), Seq::empty());
    let module_symbol = SymbolInfoV {
        id: StableId(spec_stable_id("module"@, p.module)),
        name: p.module,
        kind: SymbolKind::Module,
        span: p.module_span,
        definition_span: p.module_span,
        type_label: None,
    };
    let s0 = AnState { diags, symbols: seq![module_symbol], foreign: Seq::empty(), effects: Seq::empty() };
    let (s, sigs2) = check_all(p.functions, 0, sigs, s0);
    AnalysisV {
        phase: Phase::Typed,
        program: Some(p),
        diagnostics: s.diags,
        symbols: s.symbols,
        functions: sigs2,
        foreign_calls: s.foreign,
    }
}

/// The analysis of a source text: the syntax errors, or the analysis of its module.
pub open spec fn spec_analyze(cs: Seq<char>) -> AnalysisV {
    match spec_parse(cs) {
        Err(ds) => AnalysisV {
            phase: Phase::Read,
            program: None,
            diagnostics: ds,
            symbols: Seq::empty(),
            functions: Seq::empty(),
            foreign_calls: Seq::empty(),
        },
        Ok(p) => run(p),
    }
}

// ---------------------------------------------------------------------------
// The analyzer.

/// `a` followed by `b`.
fn then(a: String, b: &str) -> (r: String)
    ensures
        r@ == a@ + b@,
{
    let mut a = a;
    append_str(&mut a, b);
    a
}

fn quote(t: &str) -> (r: String)
    ensures
        r@ == quoted(t@),
{
    then(then("`".to_owned(), t), "`")
}

/// A copy of a set of texts.
pub fn copy_texts(v: &Vec<String>) -> (r: Vec<String>)
    ensures
        texts(r@) == texts(v@),
{
    let mut r: Vec<String> = Vec::new();
    let mut i: usize = 0;
    while i < v.len()
        invariant
            i <= v@.len(),
            r@.len() == i,
            forall|j: int| 0 <= j < i ==> #[trigger] r@[j]@ == v@[j]@,
        decreases v@.len() - i,
    {
        r.push(v[i].clone());
        i = i + 1;
    }
    assert(texts(r@) =~= texts(v@));
    r
}

struct State {
    diags: Vec<Diagnostic>,
    symbols: Vec<SymbolInfo>,
    foreign: Vec<String>,
    effects: Vec<String>,
}

impl View for State {
    type V = AnState;

    closed spec fn view(&self) -> AnState {
        AnState {
            diags: crate::diagnostic::diagnostics_view(self.diags@),
            symbols: symbols_view(self.symbols@),
            foreign: texts(self.foreign@),
            effects: texts(self.effects@),
        }
    }
}

impl State {
    fn diag(&mut self, code: &'static str, message: String, span: Span)
        ensures
            final(self)@ == with_diag(old(self)@, code@, message@, span),
    {
        let ghost before = self.diags@;
        self.diags.push(Diagnostic::error(code, message, span));
        assert(crate::diagnostic::diagnostics_view(self.diags@) =~= crate::diagnostic::diagnostics_view(before).push(
            err_v(code@, message@, span),
        ));
    }

    fn symbol(
        &mut self,
        id: StableId,
        name: String,
        kind: SymbolKind,
        span: Span,
        definition_span: Span,
        type_label: Option<String>,
    )
        ensures
            final(self)@ == with_symbol(
                old(self)@,
                id,
                name@,
                kind,
                span,
                definition_span,
                match type_label {
                    Some(t) => Some(t@),
                    None => None,
                },
            ),
    {
        let ghost before = self.symbols@;
        let sym = SymbolInfo { id, name, kind, span, definition_span, type_label };
        self.symbols.push(sym);
        assert(symbols_view(self.symbols@) =~= symbols_view(before).push(sym@));
    }
}

struct Entry {
    name: String,
    ty: Type,
    id: StableId,
    span: Span,
}

spec fn env_view(env: Seq<Entry>) -> Seq<(Seq<char>, Binding)> {
    env.map_values(|e: Entry| (e.name@, Binding { ty: e.ty@, id: e.id, span: e.span }))
}

fn lookup_env(env: &Vec<Entry>, name: &str) -> (r: Option<usize>)
    ensures
        r matches Some(i) ==> i < env@.len() && lookup(env_view(env@), name@) == Some(
            Binding { ty: env@[i as int].ty@, id: env@[i as int].id, span: env@[i as int].span },
        ),
        r is None ==> lookup(env_view(env@), name@) is None,
{
    let ghost ev = env_view(env@);
    let mut j = env.len();
    assert(ev.take(j as int) =~= ev);
    while j > 0
        invariant
            j <= env@.len(),
            ev == env_view(env@),
            lookup(ev, name@) == lookup(ev.take(j as int), name@),
        decreases j,
    {
        assert(ev.take(j as int).last() == ev[j - 1]);
        assert(ev.take(j as int).drop_last() =~= ev.take(j - 1));
        if str_eq(env[j - 1].name.as_str(), name) {
            return Some(j - 1);
        }
        j = j - 1;
    }
    None
}

fn find_sig(sigs: &Vec<FunctionSummary>, name: &str) -> (r: Option<usize>)
    ensures
        r matches Some(i) ==> i < sigs@.len() && find_summary(summaries_view(sigs@), name@) == Some(i as int),
        r is None ==> find_summary(summaries_view(sigs@), name@) is None,
{
    let ghost sv = summaries_view(sigs@);
    let mut j = sigs.len();
    assert(sv.take(j as int) =~= sv);
    while j > 0
        invariant
            j <= sigs@.len(),
            sv == summaries_view(sigs@),
            forall|m: int| j <= m < sigs@.len() ==> #[trigger] sv[m].name != name@,
            find_summary(sv, name@) == find_summary(sv.take(j as int), name@),
        decreases j,
    {
        assert(sv.take(j as int).last() == sv[j - 1]);
        assert(sv.take(j as int).drop_last() =~= sv.take(j - 1));
        if str_eq(sigs[j - 1].name.as_str(), name) {
            return Some(j - 1);
        }
        j = j - 1;
    }
    None
}

fn signature_of(f: &FunctionSummary) -> (r: String)
    ensures
        r@ == signature_text(f@),
{
    let ghost pv = f@.params.map_values(|p: (Seq<char>, TypeV)| p.0 + ": "@ + type_text(p.1));
    let mut params = String::new();
    let mut i: usize = 0;
    assert(pv.take(0) =~= Seq::<Seq<char>>::empty());
    while i < f.params.len()
        invariant
            i <= f.params@.len(),
            pv == f@.params.map_values(|p: (Seq<char>, TypeV)| p.0 + ": "@ + type_text(p.1)),
            pv.len() == f.params@.len(),
            params@ == join_commas(pv.take(i as int)),
        decreases f.params@.len() - i,
    {
        let ghost before = params@;
        if i != 0 {
            append_str(&mut params, ", ");
        }
        append_str(&mut params, f.params[i].0.as_str());
        append_str(&mut params, ": ");
        let t = f.params[i].1.text();
        append_str(&mut params, t.as_str());
        proof {
            assert(pv[i as int] == f.params@[i as int].0@ + ": "@ + type_text(f.params@[i as int].1@));
            assert(pv.take(i + 1).drop_last() =~= pv.take(i as int));
            if i == 0 {
                assert(join_commas(pv.take(1)) == pv[0]);
                assert(params@ =~= join_commas(pv.take(i + 1)));
            } else {
                assert(params@ =~= before + ", "@ + pv[i as int]);
            }
        }
        i = i + 1;
    }
    assert(pv.take(f.params@.len() as int) =~= pv);
    let mut r = then(then(then(then("fn ".to_owned(), f.name.as_str()), "("), params.as_str()), ") -> ");
    let rt = f.return_type.text();
    append_str(&mut r, rt.as_str());
    if f.declared_effects.len() != 0 {
        let ghost ev = texts(f.declared_effects@);
        let mut effects = String::new();
        let mut j: usize = 0;
        assert(ev.take(0) =~= Seq::<Seq<char>>::empty());
        while j < f.declared_effects.len()
            invariant
                j <= f.declared_effects@.len(),
                ev == texts(f.declared_effects@),
                effects@ == join_commas(ev.take(j as int)),
            decreases f.declared_effects@.len() - j,
        {
            let ghost before = effects@;
            if j != 0 {
                append_str(&mut effects, ", ");
            }
            append_str(&mut effects, f.declared_effects[j].as_str());
            proof {
                assert(ev.take(j + 1).drop_last() =~= ev.take(j as int));
                if j == 0 {
                    assert(join_commas(ev.take(1)) == ev[0]);
                    assert(effects@ =~= join_commas(ev.take(j + 1)));
                } else {
                    assert(effects@ =~= before + ", "@ + ev[j as int]);
                }
            }
            j = j + 1;
        }
        assert(ev.take(f.declared_effects@.len() as int) =~= ev);
        append_str(&mut r, " ! { ");
        append_str(&mut r, effects.as_str());
        append_str(&mut r, " }");
    }
    assert(r@ =~= signature_text(f@));
    r
}

fn infer_expr(st: &mut State, e: &Expr, env: &Vec<Entry>, sigs: &Vec<FunctionSummary>) -> (t: Type)
    ensures
        (t@, final(st)@) == infer(e@, env_view(env@), summaries_view(sigs@), old(st)@),
    decreases e, 2nat,
{
    match &e.kind {
        ExprKind::Text(_) => Type::Text,
        ExprKind::Int(_) => Type::Int,
        ExprKind::Bool(_) => Type::Bool,
        ExprKind::Var(name) => match lookup_env(env, name.as_str()) {
            Some(i) => {
                let b = &env[i];
                let label = b.ty.text();
                st.symbol(b.id, name.clone(), SymbolKind::Local, e.span, b.span, Some(label));
                b.ty.duplicate()
            },
            None => {
                st.diag("RBN2003", then("nom inconnu ".to_owned(), quote(name.as_str()).as_str()), e.span);
                Type::Unknown("<error>".to_owned())
            },
        },
        ExprKind::If { .. } => infer_if(st, e, env, sigs),
        ExprKind::Binary { .. } => infer_binary(st, e, env, sigs),
        ExprKind::Call { .. } => infer_call(st, e, env, sigs),
    }
}

fn infer_if(st: &mut State, e: &Expr, env: &Vec<Entry>, sigs: &Vec<FunctionSummary>) -> (t: Type)
    requires
        e.kind is If,
    ensures
        (t@, final(st)@) == infer(e@, env_view(env@), summaries_view(sigs@), old(st)@),
    decreases e, 1nat,
{
    match &e.kind {
        ExprKind::If { condition, consequence, alternative } => {
            let ct = infer_expr(st, condition, env, sigs);
            if !ct.same(&Type::Bool) {
                let m = then("la condition de `if` attend `Bool`, reçu ".to_owned(), quote(ct.text().as_str()).as_str());
                st.diag("RBN3005", m, condition.span);
            }
            let at = infer_expr(st, consequence, env, sigs);
            let bt = infer_expr(st, alternative, env, sigs);
            if at.same(&bt) {
                at
            } else {
                let m = then(
                    then(
                        then("les branches de `if` retournent ".to_owned(), quote(at.text().as_str()).as_str()),
                        " et ",
                    ),
                    quote(bt.text().as_str()).as_str(),
                );
                st.diag("RBN3006", m, e.span);
                Type::Unknown("<error>".to_owned())
            }
        },
        _ => Type::Unit,
    }
}

fn infer_binary(st: &mut State, e: &Expr, env: &Vec<Entry>, sigs: &Vec<FunctionSummary>) -> (t: Type)
    requires
        e.kind is Binary,
    ensures
        (t@, final(st)@) == infer(e@, env_view(env@), summaries_view(sigs@), old(st)@),
    decreases e, 1nat,
{
    match &e.kind {
        ExprKind::Binary { operator, left, right } => {
            let lt = infer_expr(st, left, env, sigs);
            let rt = infer_expr(st, right, env, sigs);
            if !lt.same(&Type::Int) {
                let m = then(
                    then(then("l’opérateur ".to_owned(), quote(operator.symbol()).as_str()), " attend `Int` à gauche, reçu "),
                    quote(lt.text().as_str()).as_str(),
                );
                st.diag("RBN3007", m, left.span);
            }
            if !rt.same(&Type::Int) {
                let m = then(
                    then(then("l’opérateur ".to_owned(), quote(operator.symbol()).as_str()), " attend `Int` à droite, reçu "),
                    quote(rt.text().as_str()).as_str(),
                );
                st.diag("RBN3007", m, right.span);
            }
            match operator {
                BinaryOp::Add => Type::Int,
                BinaryOp::Subtract => Type::Int,
                BinaryOp::Multiply => Type::Int,
                _ => Type::Bool,
            }
        },
        _ => Type::Unit,
    }
}

fn infer_call(st: &mut State, e: &Expr, env: &Vec<Entry>, sigs: &Vec<FunctionSummary>) -> (t: Type)
    requires
        e.kind is Call,
    ensures
        (t@, final(st)@) == infer(e@, env_view(env@), summaries_view(sigs@), old(st)@),
    decreases e, 1nat,
{
    let ghost ev = env_view(env@);
    let ghost sv = summaries_view(sigs@);
    match &e.kind {
        ExprKind::Call { path, args } => {
            let ghost pv = crate::syntax::parts_view(path@);
            let ghost av = crate::syntax::exprs_view(args@);
            if path.len() == 2 && str_eq(path[0].0.as_str(), "rust") && str_eq(path[1].0.as_str(), "grapheme_count") {
                text_set_insert(&mut st.foreign, "rust.grapheme_count".to_owned());
                if args.len() == 1 {
                    proof {
                        assert(decreases_to!(*e => e.kind));
                        assert(decreases_to!(e.kind => e.kind->Call_args));
                        assert(decreases_to!(e.kind->Call_args => e.kind->Call_args@));
                        assert(decreases_to!(e.kind->Call_args@ => e.kind->Call_args@[0]));
                    }
                    assert(av[0] == args@[0]@);
                    let at = infer_expr(st, &args[0], env, sigs);
                    if !at.same(&Type::Text) {
                        let m = then(
                            "`rust.grapheme_count` attend `Text`, reçu ".to_owned(),
                            quote(at.text().as_str()).as_str(),
                        );
                        st.diag("RBN3001", m, args[0].span);
                    }
                } else {
                    st.diag("RBN3004", "`rust.grapheme_count` attend exactement un argument".to_owned(), e.span);
                }
                Type::Int
            } else if path.len() == 2 && str_eq(path[1].0.as_str(), "write_line") {
                let receiver = &path[0];
                match lookup_env(env, receiver.0.as_str()) {
                    None => {
                        st.diag("RBN2003", then("nom inconnu ".to_owned(), quote(receiver.0.as_str()).as_str()), receiver.1);
                        Type::Unknown("<error>".to_owned())
                    },
                    Some(i) => {
                        let b = &env[i];
                        st.symbol(b.id, receiver.0.clone(), SymbolKind::Parameter, receiver.1, b.span, Some(b.ty.text()));
                        if !b.ty.same(&Type::Console) {
                            let m = then("`write_line` exige `Console`, reçu ".to_owned(), quote(b.ty.text().as_str()).as_str());
                            st.diag("RBN3003", m, receiver.1);
                        }
                        if args.len() == 1 {
                            proof {
                                assert(decreases_to!(*e => e.kind));
                                assert(decreases_to!(e.kind => e.kind->Call_args));
                                assert(decreases_to!(e.kind->Call_args => e.kind->Call_args@));
                                assert(decreases_to!(e.kind->Call_args@ => e.kind->Call_args@[0]));
                            }
                            assert(av[0] == args@[0]@);
                            let at = infer_expr(st, &args[0], env, sigs);
                            if !at.same(&Type::Text) {
                                let m = then("`write_line` attend `Text`, reçu ".to_owned(), quote(at.text().as_str()).as_str());
                                st.diag("RBN3001", m, args[0].span);
                            }
                        } else {
                            st.diag("RBN3004", "`write_line` attend exactement un argument".to_owned(), e.span);
                        }
                        text_set_insert(&mut st.effects, "Console.Write".to_owned());
                        Type::Unit
                    },
                }
            } else if path.len() == 1 {
                let name = path[0].0.as_str();
                match find_sig(sigs, name) {
                    None => {
                        st.diag("RBN2004", then("fonction inconnue ".to_owned(), quote(name).as_str()), path[0].1);
                        Type::Unknown("<error>".to_owned())
                    },
                    Some(i) => {
                        let callee = &sigs[i];
                        assert(sv[i as int] == callee@);
                        st.symbol(callee.id, path[0].0.clone(), SymbolKind::Function, path[0].1, callee.span, Some(signature_of(callee)));
                        if args.len() != callee.params.len() {
                            let m = then(
                                then(
                                    then(then(quote(name), " attend "), crate::text::decimal_string(callee.params.len() as u64).as_str()),
                                    " argument(s), reçu ",
                                ),
                                crate::text::decimal_string(args.len() as u64).as_str(),
                            );
                            st.diag("RBN3004", m, e.span);
                        }
                        let ghost s2 = st@;
                        let ghost params = callee@.params;
                        let mut j: usize = 0;
                        while j < args.len() && j < callee.params.len()
                            invariant
                                j <= args@.len(),
                                av == crate::syntax::exprs_view(args@),
                                ev == env_view(env@),
                                sv == summaries_view(sigs@),
                                params == callee@.params,
                                params.len() == callee.params@.len(),
                                e.kind == (ExprKind::Call { path: *path, args: *args }),
                                infer_args(av, 0, params, name@, ev, sv, s2) == infer_args(av, j as int, params, name@, ev, sv, st@),
                            decreases args@.len() - j,
                        {
                            proof {
                                assert(decreases_to!(*e => e.kind));
                                assert(decreases_to!(e.kind => e.kind->Call_args));
                                assert(decreases_to!(e.kind->Call_args => e.kind->Call_args@));
                                assert(decreases_to!(e.kind->Call_args@ => e.kind->Call_args@[j as int]));
                            }
                            assert(av[j as int] == args@[j as int]@);
                            let actual = infer_expr(st, &args[j], env, sigs);
                            let expected = &callee.params[j].1;
                            assert(params[j as int].1 == expected@);
                            if !actual.same(expected) {
                                let m = then(
                                    then(
                                        then(then(quote(name), " attend "), quote(expected.text().as_str()).as_str()),
                                        ", reçu ",
                                    ),
                                    quote(actual.text().as_str()).as_str(),
                                );
                                st.diag("RBN3001", m, args[j].span);
                            }
                            j = j + 1;
                        }
                        text_set_union(&mut st.effects, &callee.declared_effects);
                        callee.return_type.duplicate()
                    },
                }
            } else {
                let mut joined = String::new();
                let mut k: usize = 0;
                assert(pv.take(0) =~= Seq::<(Seq<char>, Span)>::empty());
                while k < path.len()
                    invariant
                        k <= path@.len(),
                        pv == crate::syntax::parts_view(path@),
                        joined@ == join_parts(pv.take(k as int)),
                    decreases path@.len() - k,
                {
                    let ghost before = joined@;
                    if k != 0 {
                        append_str(&mut joined, ".");
                    }
                    append_str(&mut joined, path[k].0.as_str());
                    proof {
                        assert(pv.take(k + 1).drop_last() =~= pv.take(k as int));
                        if k == 0 {
                            assert(join_parts(pv.take(1)) == pv[0].0);
                            assert(joined@ =~= join_parts(pv.take(k + 1)));
                        } else {
                            assert(joined@ =~= before + "."@ + pv[k as int].0);
                        }
                    }
                    k = k + 1;
                }
                assert(pv.take(path@.len() as int) =~= pv);
                st.diag("RBN2004", then("appel inconnu ".to_owned(), quote(joined.as_str()).as_str()), e.span);
                Type::Unknown("<error>".to_owned())
            }
        },
        _ => Type::Unit,
    }
}

fn analyze_params(st: &mut State, params: &Vec<crate::syntax::Param>) -> (env: Vec<Entry>)
    ensures
        (env_view(env@), final(st)@) == check_params(
            params@.map_values(|p: crate::syntax::Param| p@),
            0,
            Seq::empty(),
            old(st)@,
        ),
{
    let ghost pv = params@.map_values(|p: crate::syntax::Param| p@);
    let ghost s0 = st@;
    let mut env: Vec<Entry> = Vec::new();
    let mut k: usize = 0;
    assert(env_view(env@) =~= Seq::<(Seq<char>, Binding)>::empty());
    while k < params.len()
        invariant
            k <= params@.len(),
            pv == params@.map_values(|p: crate::syntax::Param| p@),
            check_params(pv, 0, Seq::empty(), s0) == check_params(pv, k as int, env_view(env@), st@),
        decreases params@.len() - k,
    {
        let p = &params[k];
        assert(pv[k as int] == p@);
        let pt = Type::from_name(p.ty_name.as_str());
        if !pt.is_known() {
            st.diag("RBN3000", then("type inconnu ".to_owned(), quote(p.ty_name.as_str()).as_str()), p.type_span);
        }
        if lookup_env(&env, p.name.as_str()).is_some() {
            let m = then(then("paramètre ".to_owned(), quote(p.name.as_str()).as_str()), " défini plusieurs fois");
            st.diag("RBN2002", m, p.name_span);
        }
        let label = pt.text();
        let ghost before = env@;
        env.push(Entry { name: p.name.clone(), ty: pt, id: p.id, span: p.name_span });
        assert(env_view(env@) =~= env_view(before).push(
            (p.name@, Binding { ty: type_named(p.ty_name@), id: p.id, span: p.name_span }),
        ));
        st.symbol(p.id, p.name.clone(), SymbolKind::Parameter, p.name_span, p.name_span, Some(label));
        let type_id = StableId::named("type", p.ty_name.as_str());
        st.symbol(type_id, p.ty_name.clone(), SymbolKind::Type, p.type_span, p.type_span, Some("Type".to_owned()));
        k = k + 1;
    }
    env
}

fn analyze_body(
    st: &mut State,
    body: &Vec<crate::syntax::Stmt>,
    env: Vec<Entry>,
    sigs: &Vec<FunctionSummary>,
) -> (t: Type)
    ensures
        (final(st)@, t@) == check_body(
            body@.map_values(|s: crate::syntax::Stmt| s@),
            0,
            env_view(env@),
            summaries_view(sigs@),
            old(st)@,
            TypeV::Unit,
        ),
{
    let ghost bv = body@.map_values(|s: crate::syntax::Stmt| s@);
    let ghost sv = summaries_view(sigs@);
    let ghost s0 = st@;
    let ghost env0 = env_view(env@);
    let mut env = env;
    let mut body_type = Type::Unit;
    let mut k: usize = 0;
    while k < body.len()
        invariant
            k <= body@.len(),
            bv == body@.map_values(|s: crate::syntax::Stmt| s@),
            sv == summaries_view(sigs@),
            check_body(bv, 0, env0, sv, s0, TypeV::Unit) == check_body(bv, k as int, env_view(env@), sv, st@, body_type@),
        decreases body@.len() - k,
    {
        assert(bv[k as int] == body@[k as int]@);
        match &body[k].kind {
            StmtKind::Let { id, name, name_span, annotation, value } => {
                let inferred = infer_expr(st, value, &env, sigs);
                let local_type = match annotation {
                    Some((tn, ts)) => {
                        let a = Type::from_name(tn.as_str());
                        if !a.is_known() {
                            st.diag("RBN3000", then("type inconnu ".to_owned(), quote(tn.as_str()).as_str()), *ts);
                        } else if !inferred.same(&a) {
                            let m = then(
                                then(
                                    then(
                                        then(then("le binding ".to_owned(), quote(name.as_str()).as_str()), " attend "),
                                        quote(a.text().as_str()).as_str(),
                                    ),
                                    ", reçu ",
                                ),
                                quote(inferred.text().as_str()).as_str(),
                            );
                            st.diag("RBN3001", m, value.span);
                        }
                        a
                    },
                    None => inferred,
                };
                let label = local_type.text();
                let ghost before = env@;
                let ghost lt = local_type@;
                env.push(Entry { name: name.clone(), ty: local_type, id: *id, span: *name_span });
                assert(env_view(env@) =~= env_view(before).push((name@, Binding { ty: lt, id: *id, span: *name_span })));
                st.symbol(*id, name.clone(), SymbolKind::Local, *name_span, *name_span, Some(label));
                body_type = Type::Unit;
            },
            StmtKind::Expr { value, terminated } => {
                let t = infer_expr(st, value, &env, sigs);
                body_type = if *terminated {
                    Type::Unit
                } else {
                    t
                };
            },
        }
        k = k + 1;
    }
    body_type
}

fn analyze_function(st: &mut State, sigs: &mut Vec<FunctionSummary>, f: &Function)
    ensures
        (final(st)@, summaries_view(final(sigs)@)) == check_function(f@, summaries_view(old(sigs)@), old(st)@),
{
    let ghost sv = summaries_view(sigs@);
    let i = match find_sig(sigs, f.name.as_str()) {
        None => {
            return;
        },
        Some(i) => i,
    };
    assert(sv[i as int] == sigs@[i as int]@);
    let sig_text = signature_of(&sigs[i]);
    st.symbol(f.id, f.name.clone(), SymbolKind::Function, f.name_span, f.name_span, Some(sig_text));
    if !sigs[i].return_type.is_known() {
        st.diag("RBN3000", then("type inconnu ".to_owned(), quote(f.return_type.as_str()).as_str()), f.return_type_span);
    }
    let ghost effects_v = f@.effects;
    let ghost s2 = st@;
    let mut k: usize = 0;
    assert(effects_v.take(0) =~= Seq::<(Seq<char>, Span)>::empty());
    while k < f.effects.len()
        invariant
            k <= f.effects@.len(),
            effects_v == f@.effects,
            effects_v.len() == f.effects@.len(),
            st@ == effect_symbols(effects_v.take(k as int), s2),
        decreases f.effects@.len() - k,
    {
        let (e, sp) = (&f.effects[k].0, f.effects[k].1);
        assert(effects_v[k as int] == (e@, sp));
        let id = StableId::named("effect", e.as_str());
        st.symbol(id, e.clone(), SymbolKind::Effect, sp, sp, Some("Effect".to_owned()));
        assert(effects_v.take(k + 1).drop_last() =~= effects_v.take(k as int));
        k = k + 1;
    }
    assert(effects_v.take(f.effects@.len() as int) =~= effects_v);
    let env = analyze_params(st, &f.params);
    st.effects = Vec::new();
    assert(texts(st.effects@) =~= Seq::<Seq<char>>::empty());
    let body_type = analyze_body(st, &f.body, env, sigs);
    let ghost s6 = st@;
    if !body_type.same(&sigs[i].return_type) {
        let m = then(
                then(
                    then(then(then("la fonction ".to_owned(), quote(f.name.as_str()).as_str()), " retourne "), quote(
                        body_type.text().as_str(),
                    ).as_str()),
                    ", signature ",
                ),
                quote(sigs[i].return_type.text().as_str()).as_str(),
            );
        assert(m@ =~= "la fonction "@ + quoted(f.name@) + " retourne "@ + quoted(type_text(body_type@)) + ", signature "@
            + quoted(type_text(sv[i as int].return_type)));
        st.diag("RBN3002", m, f.span);
    }
    let missing = text_set_minus(&st.effects, &sigs[i].declared_effects);
    let ghost mv = texts(missing@);
    let ghost s7 = st@;
    let mut j: usize = 0;
    assert(mv.take(0) =~= Seq::<Seq<char>>::empty());
    while j < missing.len()
        invariant
            j <= missing@.len(),
            mv == texts(missing@),
            st@ == report_effects(mv.take(j as int), f.name@, f.name_span, s7),
            st@.effects == s6.effects,
        decreases missing@.len() - j,
    {
        let m = then(
            then(
                then(then("la fonction ".to_owned(), quote(f.name.as_str()).as_str()), " utilise l’effet "),
                quote(missing[j].as_str()).as_str(),
            ),
            " sans le déclarer",
        );
        st.diag("RBN4001", m, f.name_span);
        assert(mv.take(j + 1).drop_last() =~= mv.take(j as int));
        j = j + 1;
    }
    assert(mv.take(missing@.len() as int) =~= mv);
    let required = copy_texts(&st.effects);
    let old_sig = sigs.remove(i);
    let updated = FunctionSummary { required_effects: required, ..old_sig };
    sigs.insert(i, updated);
    assert(summaries_view(sigs@) =~= sv.update(i as int, SummaryV { required_effects: s6.effects, ..sv[i as int] }));
}

fn summary_of_function(f: &Function) -> (s: FunctionSummary)
    ensures
        s@ == summary_of(f@),
{
    let ghost target = f@.params.map_values(|p: ParamV| (p.name, type_named(p.ty_name)));
    let mut params: Vec<(String, Type)> = Vec::new();
    let mut k: usize = 0;
    assert(typed_params_view(params@) =~= target.take(0));
    while k < f.params.len()
        invariant
            k <= f.params@.len(),
            target == f@.params.map_values(|p: ParamV| (p.name, type_named(p.ty_name))),
            typed_params_view(params@) == target.take(k as int),
        decreases f.params@.len() - k,
    {
        let ghost before = params@;
        let entry = (f.params[k].name.clone(), Type::from_name(f.params[k].ty_name.as_str()));
        params.push(entry);
        assert(typed_params_view(params@) =~= typed_params_view(before).push((entry.0@, entry.1@)));
        assert(target.take(k + 1) =~= target.take(k as int).push(target[k as int]));
        k = k + 1;
    }
    assert(target.take(f.params@.len() as int) =~= target);
    let ghost etarget = f@.effects.map_values(|e: (Seq<char>, Span)| e.0);
    let mut names: Vec<String> = Vec::new();
    let mut j: usize = 0;
    assert(texts(names@) =~= etarget.take(0));
    while j < f.effects.len()
        invariant
            j <= f.effects@.len(),
            etarget == f@.effects.map_values(|e: (Seq<char>, Span)| e.0),
            texts(names@) == etarget.take(j as int),
        decreases f.effects@.len() - j,
    {
        let ghost before = names@;
        let name = f.effects[j].0.clone();
        names.push(name);
        assert(texts(names@) =~= texts(before).push(name@));
        assert(etarget.take(j + 1) =~= etarget.take(j as int).push(etarget[j as int]));
        j = j + 1;
    }
    assert(etarget.take(f.effects@.len() as int) =~= etarget);
    let mut declared: Vec<String> = Vec::new();
    assert(texts(declared@) =~= Seq::<Seq<char>>::empty());
    text_set_union(&mut declared, &names);
    let required: Vec<String> = Vec::new();
    assert(texts(required@) =~= Seq::<Seq<char>>::empty());
    FunctionSummary {
        id: f.id,
        name: f.name.clone(),
        span: f.name_span,
        params,
        return_type: Type::from_name(f.return_type.as_str()),
        declared_effects: declared,
        required_effects: required,
    }
}

proof fn lemma_summary_insert_skip(sigs: Seq<SummaryV>, x: SummaryV, j: int)
    requires
        0 <= j < sigs.len(),
        !crate::text_set::text_leq(x.name, sigs[j].name),
        summary_insert(sigs, x) == sigs.take(j) + summary_insert(sigs.skip(j), x),
    ensures
        summary_insert(sigs, x) == sigs.take(j + 1) + summary_insert(sigs.skip(j + 1), x),
{
    assert(sigs.skip(j)[0] == sigs[j]);
    assert(sigs.skip(j).drop_first() =~= sigs.skip(j + 1));
    assert(sigs.take(j) + (seq![sigs[j]] + summary_insert(sigs.skip(j + 1), x)) =~= sigs.take(j + 1) + summary_insert(
        sigs.skip(j + 1),
        x,
    ));
}

fn insert_summary(sigs: &mut Vec<FunctionSummary>, x: FunctionSummary)
    ensures
        summaries_view(final(sigs)@) == summary_insert(summaries_view(old(sigs)@), x@),
{
    let ghost sv = summaries_view(sigs@);
    let mut j: usize = 0;
    assert(sv.skip(0) =~= sv);
    assert(sv.take(0) + sv.skip(0) =~= sv);
    while j < sigs.len() && !crate::text_set::text_le(x.name.as_str(), sigs[j].name.as_str())
        invariant
            sv == summaries_view(sigs@),
            j <= sigs@.len(),
            summary_insert(sv, x@) == sv.take(j as int) + summary_insert(sv.skip(j as int), x@),
        decreases sigs@.len() - j,
    {
        proof {
            lemma_summary_insert_skip(sv, x@, j as int);
        }
        j = j + 1;
    }
    if j == sigs.len() {
        assert(sv.skip(j as int) =~= Seq::<SummaryV>::empty());
        assert(sv.take(j as int) =~= sv);
    } else {
        assert(sv.skip(j as int)[0] == sv[j as int]);
    }
    let ghost xv = x@;
    sigs.insert(j, x);
    assert(summaries_view(sigs@) =~= sv.take(j as int) + (seq![xv] + sv.skip(j as int)));
}

/// Analyzes a parsed module: the signatures of its functions, then each body.
pub fn analyze_program(program: Program) -> (a: Analysis)
    ensures
        a@ == run(program@),
{
    let ghost pv = program@;
    let ghost fv = program@.functions;
    let mut sigs: Vec<FunctionSummary> = Vec::new();
    let mut diags: Vec<Diagnostic> = Vec::new();
    let mut k: usize = 0;
    assert(summaries_view(sigs@) =~= Seq::<SummaryV>::empty());
    assert(crate::diagnostic::diagnostics_view(diags@) =~= Seq::<DiagnosticV>::empty());
    while k < program.functions.len()
        invariant
            k <= program.functions@.len(),
            fv == program@.functions,
            register(fv, 0, Seq::empty(), Seq::empty()) == register(
                fv,
                k as int,
                summaries_view(sigs@),
                crate::diagnostic::diagnostics_view(diags@),
            ),
        decreases program.functions@.len() - k,
    {
        let f = &program.functions[k];
        assert(fv[k as int] == f@);
        if find_sig(&sigs, f.name.as_str()).is_some() {
            let m = then(then("fonction ".to_owned(), quote(f.name.as_str()).as_str()), " définie plusieurs fois");
            let ghost before = diags@;
            let d = Diagnostic::error("RBN2001", m, f.name_span);
            diags.push(d);
            assert(crate::diagnostic::diagnostics_view(diags@) =~= crate::diagnostic::diagnostics_view(before).push(d@));
        } else {
            insert_summary(&mut sigs, summary_of_function(f));
        }
        k = k + 1;
    }
    let module_symbol = SymbolInfo {
        id: StableId::named("module", program.module.as_str()),
        name: program.module.clone(),
        kind: SymbolKind::Module,
        span: program.module_span,
        definition_span: program.module_span,
        type_label: None,
    };
    let symbols = vec![module_symbol];
    assert(symbols_view(symbols@) =~= seq![module_symbol@]);
    let mut st = State { diags, symbols, foreign: Vec::new(), effects: Vec::new() };
    assert(texts(st.foreign@) =~= Seq::<Seq<char>>::empty());
    assert(texts(st.effects@) =~= Seq::<Seq<char>>::empty());
    let ghost sigs0 = summaries_view(sigs@);
    let ghost st0 = st@;
    let mut k: usize = 0;
    while k < program.functions.len()
        invariant
            k <= program.functions@.len(),
            fv == program@.functions,
            check_all(fv, 0, sigs0, st0) == check_all(fv, k as int, summaries_view(sigs@), st@),
        decreases program.functions@.len() - k,
    {
        assert(fv[k as int] == program.functions@[k as int]@);
        analyze_function(&mut st, &mut sigs, &program.functions[k]);
        k = k + 1;
    }
    let a = Analysis {
        phase: Phase::Typed,
        program: Some(program),
        diagnostics: st.diags,
        symbols: st.symbols,
        functions: sigs,
        foreign_calls: st.foreign,
    };
    a
}

/// Reads and analyzes a source text.
pub fn analyze(source: &str) -> (a: Analysis)
    requires
        crate::text::byte_len(source@) <= isize::MAX,
    ensures
        a@ == spec_analyze(source@),
{
    match parse(source) {
        Err(diagnostics) => {
            let a = Analysis {
                phase: Phase::Read,
                program: None,
                diagnostics,
                symbols: Vec::new(),
                functions: Vec::new(),
                foreign_calls: Vec::new(),
            };
            assert(symbols_view(a.symbols@) =~= Seq::<SymbolInfoV>::empty());
            assert(summaries_view(a.functions@) =~= Seq::<SummaryV>::empty());
            assert(texts(a.foreign_calls@) =~= Seq::<Seq<char>>::empty());
            a
        },
        Ok(program) => analyze_program(program),
    }
}

impl Analysis {
    /// Whether the module is free of errors and fully typed.
    pub fn is_valid(&self) -> (r: bool)
        ensures
            r == (self@.diagnostics.len() == 0 && self@.phase == Phase::Typed),
    {
        self.diagnostics.len() == 0 && self.phase == Phase::Typed
    }
}

// ---------------------------------------------------------------------------
// Symbol lookup.

/// How many bytes a range covers (none when it is reversed).
pub open spec fn span_width(s: Span) -> int {
    if s.end >= s.start {
        s.end - s.start
    } else {
        0
    }
}

/// The index of the narrowest symbol of `syms[..k]` whose range touches
/// `offset`, the first one among equally narrow symbols.
pub open spec fn pick_symbol(syms: Seq<SymbolInfoV>, offset: usize, k: int) -> Option<int>
    decreases k,
{
    if k <= 0 || k > syms.len() {
        None
    } else {
        let best = pick_symbol(syms, offset, k - 1);
        if !syms[k - 1].span.spec_contains(offset) {
            best
        } else {
            match best {
                None => Some(k - 1),
                Some(j) => if span_width(syms[k - 1].span) < span_width(syms[j].span) {
                    Some(k - 1)
                } else {
                    Some(j)
                },
            }
        }
    }
}

impl Analysis {
    /// The narrowest symbol whose range touches `offset`; the first one
    /// listed when several are equally narrow.
    pub fn symbol_at(&self, offset: usize) -> (r: Option<&SymbolInfo>)
        ensures
            match pick_symbol(self@.symbols, offset, self@.symbols.len() as int) {
                Some(i) => r matches Some(sym) && sym@ == self@.symbols[i],
                None => r is None,
            },
    {
        let ghost sv = self@.symbols;
        let mut best: Option<usize> = None;
        let mut k: usize = 0;
        while k < self.symbols.len()
            invariant
                k <= self.symbols@.len(),
                sv == self@.symbols,
                sv.len() == self.symbols@.len(),
                best matches Some(b) ==> pick_symbol(sv, offset, k as int) == Some(b as int) && b < k,
                best is None ==> pick_symbol(sv, offset, k as int) is None,
            decreases self.symbols@.len() - k,
        {
            let sym = &self.symbols[k];
            assert(sv[k as int] == sym@);
            if sym.span.contains(offset) {
                let w = sym.span.end.saturating_sub(sym.span.start);
                match best {
                    None => {
                        best = Some(k);
                    },
                    Some(j) => {
                        let other = &self.symbols[j];
                        assert(sv[j as int] == other@);
                        let wj = other.span.end.saturating_sub(other.span.start);
                        if w < wj {
                            best = Some(k);
                        }
                    },
                }
            }
            k = k + 1;
        }
        match best {
            Some(j) => {
                assert(sv[j as int] == self.symbols@[j as int]@);
                Some(&self.symbols[j])
            },
            None => None,
        }
    }
}

/// The diagnostics added between two states, with their codes.
pub open spec fn added_codes(before: AnState, after: AnState) -> Seq<Seq<char>> {
    after.diags.subrange(before.diags.len() as int, after.diags.len() as int).map_values(|d: DiagnosticV| d.code)
}

/// Typing of an operation: arithmetic gives `Int` and comparison `Bool`,
/// whatever the operands; after the operands' own analysis, one `RBN3007`
/// is added for each operand that is not `Int`, left first, and nothing else.
pub proof fn lemma_binary_typing(e: ExprV, env: Seq<(Seq<char>, Binding)>, sigs: Seq<SummaryV>, s: AnState)
    requires
        e.kind is Binary,
    ensures
        ({
            let (lt, s1) = infer(*e.kind->Binary_left, env, sigs, s);
            let (rt, s2) = infer(*e.kind->Binary_right, env, sigs, s1);
            let (t, s4) = infer(e, env, sigs, s);
            &&& t == (match e.kind->Binary_operator {
                BinaryOp::Add | BinaryOp::Subtract | BinaryOp::Multiply => TypeV::Int,
                _ => TypeV::Bool,
            })
            &&& s2.diags.len() <= s4.diags.len()
            &&& s4.diags.subrange(0, s2.diags.len() as int) == s2.diags
            &&& added_codes(s2, s4) == (if lt != TypeV::Int { seq!["RBN3007"@] } else { Seq::empty() }) + (if rt
                != TypeV::Int {
                seq!["RBN3007"@]
            } else {
                Seq::empty()
            })
            &&& s4.symbols == s2.symbols
        }),
{
    let (lt, s1) = infer(*e.kind->Binary_left, env, sigs, s);
    let (rt, s2) = infer(*e.kind->Binary_right, env, sigs, s1);
    let (t, s4) = infer(e, env, sigs, s);
    assert(s4.diags.subrange(0, s2.diags.len() as int) =~= s2.diags);
    assert(added_codes(s2, s4) =~= (if lt != TypeV::Int { seq!["RBN3007"@] } else { Seq::empty() }) + (if rt
        != TypeV::Int {
        seq!["RBN3007"@]
    } else {
        Seq::empty()
    }));
}

/// Typing of a conditional: after the condition's analysis one `RBN3005` is
/// added when it is not `Bool`; after the branches' analysis, the type is the
/// branches' common type, or the error type with one `RBN3006` when they
/// differ.
pub proof fn lemma_if_typing(e: ExprV, env: Seq<(Seq<char>, Binding)>, sigs: Seq<SummaryV>, s: AnState)
    requires
        e.kind is If,
    ensures
        ({
            let (ct, s1) = infer(*e.kind->If_condition, env, sigs, s);
            let s2 = if ct != TypeV::Bool {
                with_diag(
                    s1,
                    "RBN3005"@,
                    "la condition de `if` attend `Bool`, reçu "@ + quoted(type_text(ct)),
                    e.kind->If_condition.span,
                )
            } else {
                s1
            };
            let (at, s3) = infer(*e.kind->If_consequence, env, sigs, s2);
            let (bt, s4) = infer(*e.kind->If_alternative, env, sigs, s3);
            let (t, s5) = infer(e, env, sigs, s);
            &&& added_codes(s1, s2) == (if ct != TypeV::Bool { seq!["RBN3005"@] } else { Seq::empty() })
            &&& s2.diags.subrange(0, s1.diags.len() as int) == s1.diags
            &&& t == (if at == bt { at } else { error_type() })
            &&& s5.diags.subrange(0, s4.diags.len() as int) == s4.diags
            &&& added_codes(s4, s5) == (if at == bt { Seq::empty() } else { seq!["RBN3006"@] })
            &&& s5.symbols == s4.symbols
        }),
{
    let (ct, s1) = infer(*e.kind->If_condition, env, sigs, s);
    let s2 = if ct != TypeV::Bool {
        with_diag(
            s1,
            "RBN3005"@,
            "la condition de `if` attend `Bool`, reçu "@ + quoted(type_text(ct)),
            e.kind->If_condition.span,
        )
    } else {
        s1
    };
    let (at, s3) = infer(*e.kind->If_consequence, env, sigs, s2);
    let (bt, s4) = infer(*e.kind->If_alternative, env, sigs, s3);
    let (t, s5) = infer(e, env, sigs, s);
    assert(added_codes(s1, s2) =~= (if ct != TypeV::Bool { seq!["RBN3005"@] } else { Seq::empty() }));
    assert(s2.diags.subrange(0, s1.diags.len() as int) =~= s1.diags);
    assert(s5.diags.subrange(0, s4.diags.len() as int) =~= s4.diags);
    assert(added_codes(s4, s5) =~= (if at == bt { Seq::empty() } else { seq!["RBN3006"@] }));
}

/// The symbol that `symbol_at` picks touches the offset, no symbol touching
/// it is narrower, and every symbol listed before it that touches the offset
/// is wider.
pub proof fn lemma_symbol_at_is_narrowest(syms: Seq<SymbolInfoV>, offset: usize, k: int)
    requires
        0 <= k <= syms.len(),
    ensures
        match pick_symbol(syms, offset, k) {
            Some(i) => 0 <= i < k && syms[i].span.spec_contains(offset) && (forall|j: int|
                0 <= j < k && #[trigger] syms[j].span.spec_contains(offset) ==> span_width(syms[i].span) <= span_width(
                    syms[j].span,
                )) && (forall|j: int|
                0 <= j < i && #[trigger] syms[j].span.spec_contains(offset) ==> span_width(syms[i].span) < span_width(
                    syms[j].span,
                )),
            None => forall|j: int| 0 <= j < k ==> !#[trigger] syms[j].span.spec_contains(offset),
        },
    decreases k,
{
    if k > 0 {
        lemma_symbol_at_is_narrowest(syms, offset, k - 1);
    }
}

// ---------------------------------------------------------------------------
// The bootstrap Core.

/// A typed Core expression.
#[derive(Debug, PartialEq, Eq)]
pub struct CoreExpr {
    pub ty: Type,
    pub kind: CoreExprKind,
}

/// The kinds of Core expressions.
#[derive(Debug, PartialEq, Eq)]
pub enum CoreExprKind {
    Unit,
    Bool(bool),
    Int(i64),
    Text(String),
    Local(String),
    If { condition: Box<CoreExpr>, consequence: Box<CoreExpr>, alternative: Box<CoreExpr> },
    Binary { operator: CoreBinaryOp, left: Box<CoreExpr>, right: Box<CoreExpr> },
    Call { function: String, args: Vec<CoreExpr> },
    ConsoleWrite { receiver: Box<CoreExpr>, text: Box<CoreExpr> },
    RustGraphemeCount { text: Box<CoreExpr> },
}

/// The Core binary operators.
#[derive(Clone, Copy, Debug, PartialEq, Eq, Structural)]
pub enum CoreBinaryOp {
    Add,
    Subtract,
    Multiply,
    Equal,
    LessThan,
    LessThanOrEqual,
}

/// A Core statement.
#[derive(Debug, PartialEq, Eq)]
pub enum CoreStatement {
    Let { name: String, value: CoreExpr },
    Expr { value: CoreExpr, terminated: bool },
}

/// A Core function.
#[derive(Debug, PartialEq, Eq)]
pub struct CoreFunction {
    pub name: String,
    pub params: Vec<(String, Type)>,
    pub return_type: Type,
    pub body: Vec<CoreStatement>,
}

/// A Core program and the function it starts from.
#[derive(Debug, PartialEq, Eq)]
pub struct CoreProgram {
    pub entry: String,
    pub functions: Vec<CoreFunction>,
}

/// The value of a Core expression.
pub struct CoreExprV {
    pub ty: TypeV,
    pub kind: CoreKindV,
}

/// The value of a Core expression kind.
pub enum CoreKindV {
    Unit,
    Bool(bool),
    Int(i64),
    Text(Seq<char>),
    Local(Seq<char>),
    If { condition: Box<CoreExprV>, consequence: Box<CoreExprV>, alternative: Box<CoreExprV> },
    Binary { operator: CoreBinaryOp, left: Box<CoreExprV>, right: Box<CoreExprV> },
    Call { function: Seq<char>, args: Seq<CoreExprV> },
    ConsoleWrite { receiver: Box<CoreExprV>, text: Box<CoreExprV> },
    RustGraphemeCount { text: Box<CoreExprV> },
}

/// The value of a Core expression.
pub open spec fn core_view(e: CoreExpr) -> CoreExprV
    decreases e, 1nat,
{
    CoreExprV {
        ty: e.ty@,
        kind: match e.kind {
            CoreExprKind::Unit => CoreKindV::Unit,
            CoreExprKind::Bool(b) => CoreKindV::Bool(b),
            CoreExprKind::Int(v) => CoreKindV::Int(v),
            CoreExprKind::Text(t) => CoreKindV::Text(t@),
            CoreExprKind::Local(n) => CoreKindV::Local(n@),
            CoreExprKind::If { condition, consequence, alternative } => CoreKindV::If {
                condition: Box::new(core_view(*condition)),
                consequence: Box::new(core_view(*consequence)),
                alternative: Box::new(core_view(*alternative)),
            },
            CoreExprKind::Binary { operator, left, right } => CoreKindV::Binary {
                operator,
                left: Box::new(core_view(*left)),
                right: Box::new(core_view(*right)),
            },
            CoreExprKind::Call { function, args } => {
                proof {
                    assert(decreases_to!(args => args@));
                }
                CoreKindV::Call { function: function@, args: cores_view(args@) }
            },
            CoreExprKind::ConsoleWrite { receiver, text } => CoreKindV::ConsoleWrite {
                receiver: Box::new(core_view(*receiver)),
                text: Box::new(core_view(*text)),
            },
            CoreExprKind::RustGraphemeCount { text } => CoreKindV::RustGraphemeCount {
                text: Box::new(core_view(*text)),
            },
        },
    }
}

/// The values of some Core expressions.
pub open spec fn cores_view(es: Seq<CoreExpr>) -> Seq<CoreExprV>
    decreases es, 0nat,
{
    Seq::new(
        es.len(),
        |i: int| if 0 <= i < es.len() { core_view(es[i]) } else { CoreExprV { ty: TypeV::Unit, kind: CoreKindV::Unit } },
    )
}

impl View for CoreExpr {
    type V = CoreExprV;

    open spec fn view(&self) -> CoreExprV {
        core_view(*self)
    }
}

/// The value of a Core statement.
pub enum CoreStatementV {
    Let { name: Seq<char>, value: CoreExprV },
    Expr { value: CoreExprV, terminated: bool },
}

impl View for CoreStatement {
    type V = CoreStatementV;

    open spec fn view(&self) -> CoreStatementV {
        match self {
            CoreStatement::Let { name, value } => CoreStatementV::Let { name: name@, value: value@ },
            CoreStatement::Expr { value, terminated } => CoreStatementV::Expr { value: value@, terminated: *terminated },
        }
    }
}

/// The value of a Core function.
pub struct CoreFunctionV {
    pub name: Seq<char>,
    pub params: Seq<(Seq<char>, TypeV)>,
    pub return_type: TypeV,
    pub body: Seq<CoreStatementV>,
}

impl View for CoreFunction {
    type V = CoreFunctionV;

    open spec fn view(&self) -> CoreFunctionV {
        CoreFunctionV {
            name: self.name@,
            params: typed_params_view(self.params@),
            return_type: self.return_type@,
            body: self.body@.map_values(|s: CoreStatement| s@),
        }
    }
}

/// The value of a Core program.
pub struct CoreProgramV {
    pub entry: Seq<char>,
    pub functions: Seq<CoreFunctionV>,
}

impl View for CoreProgram {
    type V = CoreProgramV;

    open spec fn view(&self) -> CoreProgramV {
        CoreProgramV { entry: self.entry@, functions: self.functions@.map_values(|f: CoreFunction| f@) }
    }
}

/// The type bound to `name` in a Core environment (later entries shadow earlier ones).
pub open spec fn core_lookup(env: Seq<(Seq<char>, TypeV)>, name: Seq<char>) -> Option<TypeV>
    decreases env.len(),
{
    if env.len() == 0 {
        None
    } else if env.last().0 == name {
        Some(env.last().1)
    } else {
        core_lookup(env.drop_last(), name)
    }
}

/// The error of a construct outside the Core subset.
pub open spec fn core_error(message: Seq<char>, span: Span) -> DiagnosticV {
    err_v("RBN6002"@, message, span)
}

/// The Core of an expression in `env`, or the first construct it cannot lower.
pub open spec fn lowered(e: ExprV, env: Seq<(Seq<char>, TypeV)>, sigs: Seq<SummaryV>) -> Result<CoreExprV, DiagnosticV>
    decreases e, 1nat,
{
    match e.kind {
        ExprKindV::Text(v) => Ok(CoreExprV { ty: TypeV::Text, kind: CoreKindV::Text(v) }),
        ExprKindV::Int(v) => Ok(CoreExprV { ty: TypeV::Int, kind: CoreKindV::Int(v) }),
        ExprKindV::Bool(b) => Ok(CoreExprV { ty: TypeV::Bool, kind: CoreKindV::Bool(b) }),
        ExprKindV::Var(name) => match core_lookup(env, name) {
            None => Err(core_error("binding "@ + quoted(name) + " non résolu"@, e.span)),
            Some(t) => Ok(CoreExprV { ty: t, kind: CoreKindV::Local(name) }),
        },
        ExprKindV::If { condition, consequence, alternative } => match lowered(*condition, env, sigs) {
            Err(d) => Err(d),
            Ok(c) => match lowered(*consequence, env, sigs) {
                Err(d) => Err(d),
                Ok(a) => match lowered(*alternative, env, sigs) {
                    Err(d) => Err(d),
                    Ok(b) => Ok(
                        CoreExprV {
                            ty: a.ty,
                            kind: CoreKindV::If { condition: Box::new(c), consequence: Box::new(a), alternative: Box::new(b) },
                        },
                    ),
                },
            },
        },
        ExprKindV::Binary { operator, left, right } => match lowered(*left, env, sigs) {
            Err(d) => Err(d),
            Ok(l) => match lowered(*right, env, sigs) {
                Err(d) => Err(d),
                Ok(r) => {
                    let (op, t) = match operator {
                        BinaryOp::Add => (CoreBinaryOp::Add, TypeV::Int),
                        BinaryOp::Subtract => (CoreBinaryOp::Subtract, TypeV::Int),
                        BinaryOp::Multiply => (CoreBinaryOp::Multiply, TypeV::Int),
                        BinaryOp::Equal => (CoreBinaryOp::Equal, TypeV::Bool),
                        BinaryOp::LessThan => (CoreBinaryOp::LessThan, TypeV::Bool),
                        BinaryOp::LessThanOrEqual => (CoreBinaryOp::LessThanOrEqual, TypeV::Bool),
                    };
                    Ok(CoreExprV { ty: t, kind: CoreKindV::Binary { operator: op, left: Box::new(l), right: Box::new(r) } })
                },
            },
        },
        ExprKindV::Call { path, args } => if path.len() == 2 && path[1].0 == "write_line"@ && args.len() == 1
            && core_lookup(env, path[0].0) is Some {
            let receiver = CoreExprV { ty: core_lookup(env, path[0].0)->0, kind: CoreKindV::Local(path[0].0) };
            match lowered(args[0], env, sigs) {
                Err(d) => Err(d),
                Ok(t) => Ok(
                    CoreExprV {
                        ty: TypeV::Unit,
                        kind: CoreKindV::ConsoleWrite { receiver: Box::new(receiver), text: Box::new(t) },
                    },
                ),
            }
        } else if path.len() == 2 && path[0].0 == "rust"@ && path[1].0 == "grapheme_count"@ && args.len() == 1 {
            match lowered(args[0], env, sigs) {
                Err(d) => Err(d),
                Ok(t) => Ok(CoreExprV { ty: TypeV::Int, kind: CoreKindV::RustGraphemeCount { text: Box::new(t) } }),
            }
        } else if path.len() == 1 {
            match find_summary(sigs, path[0].0) {
                None => Err(core_error("fonction "@ + quoted(path[0].0) + " non résolue"@, e.span)),
                Some(i) => match lowered_args(args, 0, env, sigs, Seq::empty()) {
                    Err(d) => Err(d),
                    Ok(a) => Ok(
                        CoreExprV { ty: sigs[i].return_type, kind: CoreKindV::Call { function: path[0].0, args: a } },
                    ),
                },
            }
        } else {
            Err(core_error("expression non prise en charge par le Core bootstrap"@, e.span))
        },
    }
}

/// The Core of the arguments `args[k..]` after `acc`, or the first error.
pub open spec fn lowered_args(
    args: Seq<ExprV>,
    k: int,
    env: Seq<(Seq<char>, TypeV)>,
    sigs: Seq<SummaryV>,
    acc: Seq<CoreExprV>,
) -> Result<Seq<CoreExprV>, DiagnosticV>
    decreases args, args.len() - k,
{
    if k < 0 || k >= args.len() {
        Ok(acc)
    } else {
        match lowered(args[k], env, sigs) {
            Err(d) => Err(d),
            Ok(c) => lowered_args(args, k + 1, env, sigs, acc.push(c)),
        }
    }
}

/// The Core of the statements `body[k..]` after `acc`, or the first error.
pub open spec fn lowered_body(
    body: Seq<StmtV>,
    k: int,
    env: Seq<(Seq<char>, TypeV)>,
    sigs: Seq<SummaryV>,
    acc: Seq<CoreStatementV>,
) -> Result<Seq<CoreStatementV>, DiagnosticV>
    decreases body.len() - k,
{
    if k < 0 || k >= body.len() {
        Ok(acc)
    } else {
        match body[k].kind {
            StmtKindV::Let { name, value, .. } => match lowered(value, env, sigs) {
                Err(d) => Err(d),
                Ok(v) => lowered_body(body, k + 1, env.push((name, v.ty)), sigs, acc.push(CoreStatementV::Let { name, value: v })),
            },
            StmtKindV::Expr { value, terminated } => match lowered(value, env, sigs) {
                Err(d) => Err(d),
                Ok(v) => lowered_body(body, k + 1, env, sigs, acc.push(CoreStatementV::Expr { value: v, terminated })),
            },
        }
    }
}

/// The Core of a function against its signature.
pub open spec fn lowered_function(f: FunctionV, sig: SummaryV, sigs: Seq<SummaryV>) -> Result<CoreFunctionV, DiagnosticV> {
    match lowered_body(f.body, 0, sig.params, sigs, Seq::empty()) {
        Err(d) => Err(d),
        Ok(body) => Ok(CoreFunctionV { name: f.name, params: sig.params, return_type: sig.return_type, body }),
    }
}

/// The Core of the functions `fs[k..]` after `acc`, or the first error.
pub open spec fn lowered_functions(fs: Seq<FunctionV>, k: int, sigs: Seq<SummaryV>, acc: Seq<CoreFunctionV>) -> Result<
    Seq<CoreFunctionV>,
    DiagnosticV,
>
    decreases fs.len() - k,
{
    if k < 0 || k >= fs.len() {
        Ok(acc)
    } else {
        match find_summary(sigs, fs[k].name) {
            None => Err(err_v("RBN6001"@, "signature typée absente pour "@ + quoted(fs[k].name), fs[k].name_span)),
            Some(i) => match lowered_function(fs[k], sigs[i], sigs) {
                Err(d) => Err(d),
                Ok(c) => lowered_functions(fs, k + 1, sigs, acc.push(c)),
            },
        }
    }
}

/// The last dot-separated part of a root name.
pub open spec fn last_part(entry: Seq<char>) -> Seq<char>
    decreases entry.len(),
{
    if entry.len() == 0 {
        Seq::empty()
    } else if entry.last() == '.' {
        Seq::empty()
    } else {
        last_part(entry.drop_last()).push(entry.last())
    }
}

/// What `lower_entry` answers.
pub open spec fn spec_lower_entry(a: AnalysisV, entry: Seq<char>) -> Result<CoreProgramV, DiagnosticV> {
    if !(a.diagnostics.len() == 0 && a.phase == Phase::Typed) {
        Err(err_v("RBN6000"@, "le programme doit être valide avant l’abaissement"@, Span { start: 0, end: 0 }))
    } else {
        match a.program {
            None => Err(err_v("RBN6000"@, "l’analyse typée ne contient aucun programme"@, Span { start: 0, end: 0 })),
            Some(p) => {
                let name = last_part(entry);
                if !(exists|i: int| 0 <= i < p.functions.len() && #[trigger] p.functions[i].name == name) {
                    Err(err_v("RBN5001"@, "racine "@ + quoted(entry) + " introuvable"@, p.module_span))
                } else {
                    match lowered_functions(p.functions, 0, a.functions, Seq::empty()) {
                        Err(d) => Err(d),
                        Ok(fs) => Ok(CoreProgramV { entry: name, functions: fs }),
                    }
                }
            },
        }
    }
}

fn core_find(env: &Vec<(String, Type)>, name: &str) -> (r: Option<usize>)
    ensures
        r matches Some(i) ==> i < env@.len() && core_lookup(typed_params_view(env@), name@) == Some(env@[i as int].1@),
        r is None ==> core_lookup(typed_params_view(env@), name@) is None,
{
    let ghost ev = typed_params_view(env@);
    let mut j = env.len();
    assert(ev.take(j as int) =~= ev);
    while j > 0
        invariant
            j <= env@.len(),
            ev == typed_params_view(env@),
            core_lookup(ev, name@) == core_lookup(ev.take(j as int), name@),
        decreases j,
    {
        assert(ev.take(j as int).last() == ev[j - 1]);
        assert(ev.take(j as int).drop_last() =~= ev.take(j - 1));
        if str_eq(env[j - 1].0.as_str(), name) {
            return Some(j - 1);
        }
        j = j - 1;
    }
    None
}

fn lower_expression(e: &Expr, env: &Vec<(String, Type)>, sigs: &Vec<FunctionSummary>) -> (r: Result<CoreExpr, Diagnostic>)
    ensures
        r matches Ok(c) ==> lowered(e@, typed_params_view(env@), summaries_view(sigs@)) == Ok::<CoreExprV, DiagnosticV>(c@),
        r matches Err(d) ==> lowered(e@, typed_params_view(env@), summaries_view(sigs@)) == Err::<CoreExprV, DiagnosticV>(d@),
    decreases e, 1nat,
{
    match &e.kind {
        ExprKind::Text(v) => Ok(CoreExpr { ty: Type::Text, kind: CoreExprKind::Text(v.clone()) }),
        ExprKind::Int(v) => Ok(CoreExpr { ty: Type::Int, kind: CoreExprKind::Int(*v) }),
        ExprKind::Bool(b) => Ok(CoreExpr { ty: Type::Bool, kind: CoreExprKind::Bool(*b) }),
        ExprKind::Var(name) => match core_find(env, name.as_str()) {
            None => {
                let m = then(then("binding ".to_owned(), quote(name.as_str()).as_str()), " non résolu");
                Err(Diagnostic::error("RBN6002", m, e.span))
            },
            Some(i) => Ok(CoreExpr { ty: env[i].1.duplicate(), kind: CoreExprKind::Local(name.clone()) }),
        },
        ExprKind::If { condition, consequence, alternative } => {
            let c = match lower_expression(condition, env, sigs) {
                Err(d) => {
                    return Err(d);
                },
                Ok(c) => c,
            };
            let a = match lower_expression(consequence, env, sigs) {
                Err(d) => {
                    return Err(d);
                },
                Ok(a) => a,
            };
            let b = match lower_expression(alternative, env, sigs) {
                Err(d) => {
                    return Err(d);
                },
                Ok(b) => b,
            };
            let t = a.ty.duplicate();
            Ok(
                CoreExpr {
                    ty: t,
                    kind: CoreExprKind::If { condition: Box::new(c), consequence: Box::new(a), alternative: Box::new(b) },
                },
            )
        },
        ExprKind::Binary { operator, left, right } => {
            let l = match lower_expression(left, env, sigs) {
                Err(d) => {
                    return Err(d);
                },
                Ok(l) => l,
            };
            let r = match lower_expression(right, env, sigs) {
                Err(d) => {
                    return Err(d);
                },
                Ok(r) => r,
            };
            let (op, t) = match operator {
                BinaryOp::Add => (CoreBinaryOp::Add, Type::Int),
                BinaryOp::Subtract => (CoreBinaryOp::Subtract, Type::Int),
                BinaryOp::Multiply => (CoreBinaryOp::Multiply, Type::Int),
                BinaryOp::Equal => (CoreBinaryOp::Equal, Type::Bool),
                BinaryOp::LessThan => (CoreBinaryOp::LessThan, Type::Bool),
                BinaryOp::LessThanOrEqual => (CoreBinaryOp::LessThanOrEqual, Type::Bool),
            };
            Ok(CoreExpr { ty: t, kind: CoreExprKind::Binary { operator: op, left: Box::new(l), right: Box::new(r) } })
        },
        ExprKind::Call { .. } => lower_call(e, env, sigs),
    }
}

fn lower_call(e: &Expr, env: &Vec<(String, Type)>, sigs: &Vec<FunctionSummary>) -> (r: Result<CoreExpr, Diagnostic>)
    requires
        e.kind is Call,
    ensures
        r matches Ok(c) ==> lowered(e@, typed_params_view(env@), summaries_view(sigs@)) == Ok::<CoreExprV, DiagnosticV>(c@),
        r matches Err(d) ==> lowered(e@, typed_params_view(env@), summaries_view(sigs@)) == Err::<CoreExprV, DiagnosticV>(d@),
    decreases e, 0nat,
{
    let ghost ev = typed_params_view(env@);
    let ghost sv = summaries_view(sigs@);
    match &e.kind {
        ExprKind::Call { path, args } => {
            let ghost av = crate::syntax::exprs_view(args@);
            let ghost pv = crate::syntax::parts_view(path@);
            assert(e@.kind == (ExprKindV::Call { path: pv, args: av }));
            assert(forall|m: int| 0 <= m < path@.len() ==> #[trigger] pv[m].0 == path@[m].0@);
            if path.len() == 2 && str_eq(path[1].0.as_str(), "write_line") && args.len() == 1 {
                match core_find(env, path[0].0.as_str()) {
                    Some(i) => {
                        let receiver = CoreExpr { ty: env[i].1.duplicate(), kind: CoreExprKind::Local(path[0].0.clone()) };
                        proof {
                            assert(decreases_to!(*e => e.kind));
                            assert(decreases_to!(e.kind => e.kind->Call_args));
                            assert(decreases_to!(e.kind->Call_args => e.kind->Call_args@));
                            assert(decreases_to!(e.kind->Call_args@ => e.kind->Call_args@[0]));
                        }
                        assert(av[0] == args@[0]@);
                        assert(core_lookup(ev, pv[0].0) == Some(env@[i as int].1@));
                        assert(lowered(e@, ev, sv) == match lowered(av[0], ev, sv) {
                            Err(d) => Err(d),
                            Ok(t) => Ok(
                                CoreExprV {
                                    ty: TypeV::Unit,
                                    kind: CoreKindV::ConsoleWrite { receiver: Box::new(receiver@), text: Box::new(t) },
                                },
                            ),
                        });
                        return match lower_expression(&args[0], env, sigs) {
                            Err(d) => Err(d),
                            Ok(t) => Ok(
                                CoreExpr {
                                    ty: Type::Unit,
                                    kind: CoreExprKind::ConsoleWrite { receiver: Box::new(receiver), text: Box::new(t) },
                                },
                            ),
                        };
                    },
                    None => {},
                }
            }
            if path.len() == 2 && str_eq(path[0].0.as_str(), "rust") && str_eq(path[1].0.as_str(), "grapheme_count")
                && args.len() == 1 {
                proof {
                    assert(decreases_to!(*e => e.kind));
                    assert(decreases_to!(e.kind => e.kind->Call_args));
                    assert(decreases_to!(e.kind->Call_args => e.kind->Call_args@));
                    assert(decreases_to!(e.kind->Call_args@ => e.kind->Call_args@[0]));
                }
                assert(av[0] == args@[0]@);
                return match lower_expression(&args[0], env, sigs) {
                    Err(d) => Err(d),
                    Ok(t) => Ok(CoreExpr { ty: Type::Int, kind: CoreExprKind::RustGraphemeCount { text: Box::new(t) } }),
                };
            }
            if path.len() == 1 {
                let name = path[0].0.as_str();
                let i = match find_sig(sigs, name) {
                    None => {
                        let m = then(then("fonction ".to_owned(), quote(name).as_str()), " non résolue");
                        return Err(Diagnostic::error("RBN6002", m, e.span));
                    },
                    Some(i) => i,
                };
                assert(sv[i as int] == sigs@[i as int]@);
                let ghost rt = sv[i as int].return_type;
                assert(lowered(e@, ev, sv) == match lowered_args(av, 0, ev, sv, Seq::empty()) {
                    Err(d) => Err(d),
                    Ok(a) => Ok(CoreExprV { ty: rt, kind: CoreKindV::Call { function: pv[0].0, args: a } }),
                });
                let mut lowered_args_v: Vec<CoreExpr> = Vec::new();
                let mut j: usize = 0;
                assert(cores_view(lowered_args_v@) =~= Seq::<CoreExprV>::empty());
                while j < args.len()
                    invariant
                        lowered(e@, ev, sv) == match lowered_args(av, 0, ev, sv, Seq::empty()) {
                            Err(d) => Err(d),
                            Ok(a) => Ok(CoreExprV { ty: rt, kind: CoreKindV::Call { function: pv[0].0, args: a } }),
                        },
                        j <= args@.len(),
                        av == crate::syntax::exprs_view(args@),
                        ev == typed_params_view(env@),
                        sv == summaries_view(sigs@),
                        e.kind == (ExprKind::Call { path: *path, args: *args }),
                        lowered_args(av, 0, ev, sv, Seq::empty()) == lowered_args(av, j as int, ev, sv, cores_view(lowered_args_v@)),
                    decreases args@.len() - j,
                {
                    proof {
                        assert(decreases_to!(*e => e.kind));
                        assert(decreases_to!(e.kind => e.kind->Call_args));
                        assert(decreases_to!(e.kind->Call_args => e.kind->Call_args@));
                        assert(decreases_to!(e.kind->Call_args@ => e.kind->Call_args@[j as int]));
                    }
                    assert(av[j as int] == args@[j as int]@);
                    match lower_expression(&args[j], env, sigs) {
                        Err(d) => {
                            return Err(d);
                        },
                        Ok(c) => {
                            let ghost before = lowered_args_v@;
                            lowered_args_v.push(c);
                            assert(cores_view(lowered_args_v@) =~= cores_view(before).push(lowered_args_v@.last()@));
                        },
                    }
                    j = j + 1;
                }
                let t = sigs[i].return_type.duplicate();
                return Ok(CoreExpr { ty: t, kind: CoreExprKind::Call { function: path[0].0.clone(), args: lowered_args_v } });
            }
            Err(Diagnostic::error("RBN6002", "expression non prise en charge par le Core bootstrap".to_owned(), e.span))
        },
        _ => Err(Diagnostic::error("RBN6002", String::new(), e.span)),
    }
}

fn copy_params(ps: &Vec<(String, Type)>) -> (r: Vec<(String, Type)>)
    ensures
        typed_params_view(r@) == typed_params_view(ps@),
{
    let mut r: Vec<(String, Type)> = Vec::new();
    let mut i: usize = 0;
    while i < ps.len()
        invariant
            i <= ps@.len(),
            typed_params_view(r@) == typed_params_view(ps@).take(i as int),
        decreases ps@.len() - i,
    {
        let ghost before = r@;
        let entry = (ps[i].0.clone(), ps[i].1.duplicate());
        r.push(entry);
        assert(typed_params_view(r@) =~= typed_params_view(before).push((entry.0@, entry.1@)));
        assert(typed_params_view(ps@).take(i + 1) =~= typed_params_view(ps@).take(i as int).push(typed_params_view(ps@)[i as int]));
        i = i + 1;
    }
    assert(typed_params_view(ps@).take(ps@.len() as int) =~= typed_params_view(ps@));
    r
}

fn lower_function(f: &Function, sig: &FunctionSummary, sigs: &Vec<FunctionSummary>) -> (r: Result<CoreFunction, Diagnostic>)
    ensures
        r matches Ok(c) ==> lowered_function(f@, sig@, summaries_view(sigs@)) == Ok::<CoreFunctionV, DiagnosticV>(c@),
        r matches Err(d) ==> lowered_function(f@, sig@, summaries_view(sigs@)) == Err::<CoreFunctionV, DiagnosticV>(d@),
{
    let ghost bv = f@.body;
    let ghost sv = summaries_view(sigs@);
    let mut env = copy_params(&sig.params);
    let mut body: Vec<CoreStatement> = Vec::new();
    let mut k: usize = 0;
    assert(body@.map_values(|s: CoreStatement| s@) =~= Seq::<CoreStatementV>::empty());
    while k < f.body.len()
        invariant
            k <= f.body@.len(),
            bv == f@.body,
            bv == f.body@.map_values(|s: crate::syntax::Stmt| s@),
            sv == summaries_view(sigs@),
            lowered_body(bv, 0, sig@.params, sv, Seq::empty()) == lowered_body(
                bv,
                k as int,
                typed_params_view(env@),
                sv,
                body@.map_values(|s: CoreStatement| s@),
            ),
        decreases f.body@.len() - k,
    {
        assert(bv[k as int] == f.body@[k as int]@);
        let ghost before = body@;
        match &f.body[k].kind {
            StmtKind::Let { name, value, .. } => {
                match lower_expression(value, &env, sigs) {
                    Err(d) => {
                        return Err(d);
                    },
                    Ok(v) => {
                        let ghost env_before = env@;
                        env.push((name.clone(), v.ty.duplicate()));
                        assert(typed_params_view(env@) =~= typed_params_view(env_before).push((name@, v@.ty)));
                        body.push(CoreStatement::Let { name: name.clone(), value: v });
                    },
                }
            },
            StmtKind::Expr { value, terminated } => {
                match lower_expression(value, &env, sigs) {
                    Err(d) => {
                        return Err(d);
                    },
                    Ok(v) => {
                        body.push(CoreStatement::Expr { value: v, terminated: *terminated });
                    },
                }
            },
        }
        assert(body@.map_values(|s: CoreStatement| s@) =~= before.map_values(|s: CoreStatement| s@).push(body@.last()@));
        k = k + 1;
    }
    Ok(CoreFunction { name: f.name.clone(), params: copy_params(&sig.params), return_type: sig.return_type.duplicate(), body })
}

/// Lowers the selected root of a valid analysis to the bootstrap Core: the
/// root is named by its last dot-separated part, and every function of the
/// module is lowered.
pub fn lower_entry(analysis: &Analysis, entry: &str) -> (r: Result<CoreProgram, Diagnostic>)
    ensures
        r matches Ok(c) ==> spec_lower_entry(analysis@, entry@) == Ok::<CoreProgramV, DiagnosticV>(c@),
        r matches Err(d) ==> spec_lower_entry(analysis@, entry@) == Err::<CoreProgramV, DiagnosticV>(d@),
{
    if !analysis.is_valid() {
        return Err(Diagnostic::error("RBN6000", "le programme doit être valide avant l’abaissement".to_owned(), Span::new(0, 0)));
    }
    let program = match &analysis.program {
        None => {
            return Err(Diagnostic::error("RBN6000", "l’analyse typée ne contient aucun programme".to_owned(), Span::new(0, 0)));
        },
        Some(p) => p,
    };
    let cs = crate::text::chars_of(entry);
    let mut start = cs.len();
    assert(entry@.take(cs@.len() as int) =~= entry@);
    assert(entry@ + entry@.skip(cs@.len() as int) =~= entry@);
    while start > 0 && cs[start - 1] != '.'
        invariant
            start <= cs@.len(),
            cs@ == entry@,
            last_part(entry@) == last_part(entry@.take(start as int)) + entry@.skip(start as int),
        decreases start,
    {
        assert(entry@.take(start as int).drop_last() =~= entry@.take(start - 1));
        assert(entry@.take(start as int).last() == entry@[start - 1]);
        assert(seq![entry@[start - 1]] + entry@.skip(start as int) =~= entry@.skip(start - 1));
        assert(last_part(entry@.take(start as int)) == last_part(entry@.take(start - 1)).push(entry@[start - 1]));
        assert(last_part(entry@.take(start as int)) + entry@.skip(start as int) =~= last_part(entry@.take(start - 1))
            + entry@.skip(start - 1));
        start = start - 1;
    }
    proof {
        assert(entry@.take(cs@.len() as int) =~= entry@);
        assert(entry@.skip(cs@.len() as int) =~= Seq::<char>::empty());
        if start > 0 {
            assert(entry@.take(start as int).last() == '.');
        }
        assert(last_part(entry@.take(start as int)) =~= Seq::<char>::empty());
    }
    let name = crate::text::string_of(&cs, start, cs.len());
    assert(name@ =~= last_part(entry@));
    let ghost pv = program@;
    let mut found = false;
    let mut k: usize = 0;
    while k < program.functions.len()
        invariant
            k <= program.functions@.len(),
            pv == program@,
            found == (exists|i: int| 0 <= i < k && #[trigger] pv.functions[i].name == name@),
        decreases program.functions@.len() - k,
    {
        assert(pv.functions[k as int] == program.functions@[k as int]@);
        if str_eq(program.functions[k].name.as_str(), name.as_str()) {
            assert(pv.functions[k as int].name == name@);
            found = true;
        }
        k = k + 1;
    }
    if !found {
        let m = then(then("racine ".to_owned(), quote(entry).as_str()), " introuvable");
        return Err(Diagnostic::error("RBN5001", m, program.module_span));
    }
    let ghost sv = summaries_view(analysis.functions@);
    assert(spec_lower_entry(analysis@, entry@) == match lowered_functions(pv.functions, 0, sv, Seq::empty()) {
        Err(d) => Err(d),
        Ok(fs) => Ok(CoreProgramV { entry: name@, functions: fs }),
    });
    let mut functions: Vec<CoreFunction> = Vec::new();
    let mut k: usize = 0;
    assert(functions@.map_values(|f: CoreFunction| f@) =~= Seq::<CoreFunctionV>::empty());
    while k < program.functions.len()
        invariant
            k <= program.functions@.len(),
            pv == program@,
            sv == summaries_view(analysis.functions@),
            spec_lower_entry(analysis@, entry@) == match lowered_functions(pv.functions, 0, sv, Seq::empty()) {
                Err(d) => Err(d),
                Ok(fs) => Ok(CoreProgramV { entry: name@, functions: fs }),
            },
            lowered_functions(pv.functions, 0, sv, Seq::empty()) == lowered_functions(
                pv.functions,
                k as int,
                sv,
                functions@.map_values(|f: CoreFunction| f@),
            ),
        decreases program.functions@.len() - k,
    {
        let f = &program.functions[k];
        assert(pv.functions[k as int] == f@);
        let i = match find_sig(&analysis.functions, f.name.as_str()) {
            None => {
                let m = then("signature typée absente pour ".to_owned(), quote(f.name.as_str()).as_str());
                return Err(Diagnostic::error("RBN6001", m, f.name_span));
            },
            Some(i) => i,
        };
        assert(sv[i as int] == analysis.functions@[i as int]@);
        match lower_function(f, &analysis.functions[i], &analysis.functions) {
            Err(d) => {
                return Err(d);
            },
            Ok(c) => {
                let ghost before = functions@;
                functions.push(c);
                assert(functions@.map_values(|f: CoreFunction| f@) =~= before.map_values(|f: CoreFunction| f@).push(
                    functions@.last()@,
                ));
            },
        }
        k = k + 1;
    }
    Ok(CoreProgram { entry: name, functions })
}

// ---------------------------------------------------------------------------
// Copies.

impl SymbolInfo {
    /// A copy of this symbol.
    pub fn duplicate(&self) -> (r: SymbolInfo)
        ensures
            r@ == self@,
    {
        SymbolInfo {
            id: self.id,
            name: self.name.clone(),
            kind: self.kind,
            span: self.span,
            definition_span: self.definition_span,
            type_label: match &self.type_label {
                Some(t) => Some(t.clone()),
                None => None,
            },
        }
    }
}

impl FunctionSummary {
    /// A copy of this summary.
    pub fn duplicate(&self) -> (r: FunctionSummary)
        ensures
            r@ == self@,
    {
        FunctionSummary {
            id: self.id,
            name: self.name.clone(),
            span: self.span,
            params: copy_params(&self.params),
            return_type: self.return_type.duplicate(),
            declared_effects: copy_texts(&self.declared_effects),
            required_effects: copy_texts(&self.required_effects),
        }
    }
}

impl Analysis {
    /// A copy of this analysis.
    pub fn duplicate(&self) -> (r: Analysis)
        ensures
            r@ == self@,
    {
        let mut symbols: Vec<SymbolInfo> = Vec::new();
        let mut i: usize = 0;
        while i < self.symbols.len()
            invariant
                i <= self.symbols@.len(),
                symbols_view(symbols@) == symbols_view(self.symbols@).take(i as int),
            decreases self.symbols@.len() - i,
        {
            let ghost before = symbols@;
            let x = self.symbols[i].duplicate();
            symbols.push(x);
            assert(symbols_view(symbols@) =~= symbols_view(before).push(x@));
            assert(symbols_view(self.symbols@).take(i + 1) =~= symbols_view(self.symbols@).take(i as int).push(self.symbols@[i as int]@));
            i = i + 1;
        }
        assert(symbols_view(self.symbols@).take(self.symbols@.len() as int) =~= symbols_view(self.symbols@));
        let mut functions: Vec<FunctionSummary> = Vec::new();
        let mut j: usize = 0;
        while j < self.functions.len()
            invariant
                j <= self.functions@.len(),
                summaries_view(functions@) == summaries_view(self.functions@).take(j as int),
            decreases self.functions@.len() - j,
        {
            let ghost before = functions@;
            let x = self.functions[j].duplicate();
            functions.push(x);
            assert(summaries_view(functions@) =~= summaries_view(before).push(x@));
            assert(summaries_view(self.functions@).take(j + 1) =~= summaries_view(self.functions@).take(j as int).push(self.functions@[j as int]@));
            j = j + 1;
        }
        assert(summaries_view(self.functions@).take(self.functions@.len() as int) =~= summaries_view(self.functions@));
        Analysis {
            phase: self.phase,
            program: match &self.program {
                Some(p) => Some(p.duplicate()),
                None => None,
            },
            diagnostics: crate::diagnostic::duplicate_all(&self.diagnostics),
            symbols,
            functions,
            foreign_calls: copy_texts(&self.foreign_calls),
        }
    }
}

/// The value of an operation on two integers.
pub enum OpValue {
    Int(int),
    Bool(bool),
}

/// What an operator written `symbol` computes of `a` and `b`: `+`, `-` and
/// `*` their sum, difference and product, `==`, `<` and `<=` whether they
/// are equal, the first is smaller, or it is not greater.
pub open spec fn symbol_value(symbol: Seq<char>, a: int, b: int) -> Option<OpValue> {
    if symbol == "+"@ {
        Some(OpValue::Int(a + b))
    } else if symbol == "-"@ {
        Some(OpValue::Int(a - b))
    } else if symbol == "*"@ {
        Some(OpValue::Int(a * b))
    } else if symbol == "=="@ {
        Some(OpValue::Bool(a == b))
    } else if symbol == "<"@ {
        Some(OpValue::Bool(a < b))
    } else if symbol == "<="@ {
        Some(OpValue::Bool(a <= b))
    } else {
        None
    }
}

/// What a Core operator computes of `a` and `b`.
pub open spec fn core_value(op: CoreBinaryOp, a: int, b: int) -> OpValue {
    match op {
        CoreBinaryOp::Add => OpValue::Int(a + b),
        CoreBinaryOp::Subtract => OpValue::Int(a - b),
        CoreBinaryOp::Multiply => OpValue::Int(a * b),
        CoreBinaryOp::Equal => OpValue::Bool(a == b),
        CoreBinaryOp::LessThan => OpValue::Bool(a < b),
        CoreBinaryOp::LessThanOrEqual => OpValue::Bool(a <= b),
    }
}

/// Lowering keeps what an operation means: the Core operator an operation
/// lowers to computes, on every pair of integers, what the operator written
/// in the source computes, and the lowered operation is typed `Int` exactly
/// when it computes a number, `Bool` otherwise.
pub proof fn lemma_lowering_keeps_operator_meaning(e: ExprV, env: Seq<(Seq<char>, TypeV)>, sigs: Seq<SummaryV>)
    requires
        e.kind is Binary,
        lowered(e, env, sigs) is Ok,
    ensures
        lowered(e, env, sigs)->Ok_0.kind is Binary,
        forall|a: int, b: int|
            symbol_value(op_symbol(e.kind->Binary_operator), a, b) == Some(
                #[trigger] core_value(lowered(e, env, sigs)->Ok_0.kind->Binary_operator, a, b),
            ),
        lowered(e, env, sigs)->Ok_0.ty == (if core_value(lowered(e, env, sigs)->Ok_0.kind->Binary_operator, 0, 0) is Int {
            TypeV::Int
        } else {
            TypeV::Bool
        }),
{
    reveal_strlit("+");
    reveal_strlit("-");
    reveal_strlit("*");
    reveal_strlit("==");
    reveal_strlit("<");
    reveal_strlit("<=");
    assert("+"@[0] != "-"@[0] && "+"@[0] != "*"@[0] && "-"@[0] != "*"@[0]);
    assert("=="@.len() != "+"@.len() && "=="@.len() != "-"@.len() && "=="@.len() != "*"@.len());
    assert("<"@[0] != "+"@[0] && "<"@[0] != "-"@[0] && "<"@[0] != "*"@[0] && "<"@.len() != "=="@.len());
    assert("<="@.len() != "+"@.len() && "<="@.len() != "-"@.len() && "<="@.len() != "*"@.len() && "<="@[0]
        != "=="@[0] && "<="@.len() != "<"@.len());
    let r = lowered(e, env, sigs)->Ok_0;
    let op = e.kind->Binary_operator;
    assert forall|a: int, b: int|
        symbol_value(op_symbol(op), a, b) == Some(#[trigger] core_value(r.kind->Binary_operator, a, b)) by {
        match op {
            BinaryOp::Add => {},
            BinaryOp::Subtract => {},
            BinaryOp::Multiply => {},
            BinaryOp::Equal => {},
            BinaryOp::LessThan => {},
            BinaryOp::LessThanOrEqual => {},
        }
    }
}

/// The diagnostics of `t` begin with those of `s`.
pub open spec fn diags_extend(s: AnState, t: AnState) -> bool {
    &&& s.diags.len() <= t.diags.len()
    &&& t.diags.subrange(0, s.diags.len() as int) == s.diags
}

proof fn lemma_extend_trans(a: AnState, b: AnState, c: AnState)
    requires
        diags_extend(a, b),
        diags_extend(b, c),
    ensures
        diags_extend(a, c),
{
    assert(c.diags.subrange(0, a.diags.len() as int) =~= b.diags.subrange(0, a.diags.len() as int));
}

proof fn lemma_extend_diag(s: AnState, code: Seq<char>, message: Seq<char>, span: Span)
    ensures
        diags_extend(s, with_diag(s, code, message, span)),
{
    assert(with_diag(s, code, message, span).diags.subrange(0, s.diags.len() as int) =~= s.diags);
}

proof fn lemma_extend_same(s: AnState, t: AnState)
    requires
        t.diags == s.diags,
    ensures
        diags_extend(s, t),
{
    assert(t.diags.subrange(0, s.diags.len() as int) =~= s.diags);
}

/// The analysis of an expression only adds diagnostics after those it
/// started with.
proof fn lemma_infer_extends(e: ExprV, env: Seq<(Seq<char>, Binding)>, sigs: Seq<SummaryV>, s: AnState)
    ensures
        diags_extend(s, infer(e, env, sigs, s).1),
    decreases e, 1nat,
{
    let r = infer(e, env, sigs, s).1;
    lemma_extend_same(s, s);
    match e.kind {
        ExprKindV::Var(name) => {
            match lookup(env, name) {
                Some(b) => lemma_extend_same(s, r),
                None => lemma_extend_diag(s, "RBN2003"@, "nom inconnu "@ + quoted(name), e.span),
            }
        },
        ExprKindV::If { condition, consequence, alternative } => {
            let (ct, s1) = infer(*condition, env, sigs, s);
            lemma_infer_extends(*condition, env, sigs, s);
            let s2 = if ct != TypeV::Bool {
                with_diag(
                    s1,
                    "RBN3005"@,
                    "la condition de `if` attend `Bool`, reçu "@ + quoted(type_text(ct)),
                    condition.span,
                )
            } else {
                s1
            };
            lemma_extend_diag(
                s1,
                "RBN3005"@,
                "la condition de `if` attend `Bool`, reçu "@ + quoted(type_text(ct)),
                condition.span,
            );
            lemma_extend_same(s1, s1);
            lemma_extend_trans(s, s1, s2);
            let (at, s3) = infer(*consequence, env, sigs, s2);
            lemma_infer_extends(*consequence, env, sigs, s2);
            let (bt, s4) = infer(*alternative, env, sigs, s3);
            lemma_infer_extends(*alternative, env, sigs, s3);
            lemma_extend_trans(s, s2, s3);
            lemma_extend_trans(s, s3, s4);
            lemma_extend_diag(
                s4,
                "RBN3006"@,
                "les branches de `if` retournent "@ + quoted(type_text(at)) + " et "@ + quoted(type_text(bt)),
                e.span,
            );
            lemma_extend_trans(
                s,
                s4,
                with_diag(
                    s4,
                    "RBN3006"@,
                    "les branches de `if` retournent "@ + quoted(type_text(at)) + " et "@ + quoted(type_text(bt)),
                    e.span,
                ),
            );
        },
        ExprKindV::Binary { operator, left, right } => {
            let (lt, s1) = infer(*left, env, sigs, s);
            lemma_infer_extends(*left, env, sigs, s);
            let (rt, s2) = infer(*right, env, sigs, s1);
            lemma_infer_extends(*right, env, sigs, s1);
            lemma_extend_trans(s, s1, s2);
            let m1 = "l’opérateur "@ + quoted(op_symbol(operator)) + " attend `Int` à gauche, reçu "@ + quoted(
                type_text(lt),
            );
            let s3 = if lt != TypeV::Int {
                with_diag(s2, "RBN3007"@, m1, left.span)
            } else {
                s2
            };
            lemma_extend_diag(s2, "RBN3007"@, m1, left.span);
            lemma_extend_same(s2, s2);
            lemma_extend_trans(s, s2, s3);
            let m2 = "l’opérateur "@ + quoted(op_symbol(operator)) + " attend `Int` à droite, reçu "@ + quoted(
                type_text(rt),
            );
            lemma_extend_diag(s3, "RBN3007"@, m2, right.span);
            lemma_extend_same(s3, s3);
            let s4 = if rt != TypeV::Int {
                with_diag(s3, "RBN3007"@, m2, right.span)
            } else {
                s3
            };
            lemma_extend_trans(s, s3, s4);
        },
        ExprKindV::Call { path, args } => {
            if path.len() == 2 && path[0].0 == "rust"@ && path[1].0 == "grapheme_count"@ {
                let s1 = AnState { foreign: set_insert(s.foreign, "rust.grapheme_count"@), ..s };
                lemma_extend_same(s, s1);
                if args.len() == 1 {
                    let (at, s2) = infer(args[0], env, sigs, s1);
                    lemma_infer_extends(args[0], env, sigs, s1);
                    lemma_extend_trans(s, s1, s2);
                    let m = "`rust.grapheme_count` attend `Text`, reçu "@ + quoted(type_text(at));
                    lemma_extend_diag(s2, "RBN3001"@, m, args[0].span);
                    lemma_extend_trans(s, s2, with_diag(s2, "RBN3001"@, m, args[0].span));
                } else {
                    let m = "`rust.grapheme_count` attend exactement un argument"@;
                    lemma_extend_diag(s1, "RBN3004"@, m, e.span);
                    lemma_extend_trans(s, s1, with_diag(s1, "RBN3004"@, m, e.span));
                }
            } else if path.len() == 2 && path[1].0 == "write_line"@ {
                let receiver = path[0];
                match lookup(env, receiver.0) {
                    None => lemma_extend_diag(s, "RBN2003"@, "nom inconnu "@ + quoted(receiver.0), receiver.1),
                    Some(b) => {
                        let s1 = with_symbol(
                            s,
                            b.id,
                            receiver.0,
                            SymbolKind::Parameter,
                            receiver.1,
                            b.span,
                            Some(type_text(b.ty)),
                        );
                        lemma_extend_same(s, s1);
                        let m0 = "`write_line` exige `Console`, reçu "@ + quoted(type_text(b.ty));
                        let s2 = if b.ty != TypeV::Console {
                            with_diag(s1, "RBN3003"@, m0, receiver.1)
                        } else {
                            s1
                        };
                        lemma_extend_diag(s1, "RBN3003"@, m0, receiver.1);
                        lemma_extend_same(s1, s1);
                        lemma_extend_trans(s, s1, s2);
                        if args.len() == 1 {
                            let (at, s4) = infer(args[0], env, sigs, s2);
                            lemma_infer_extends(args[0], env, sigs, s2);
                            lemma_extend_trans(s, s2, s4);
                            let m = "`write_line` attend `Text`, reçu "@ + quoted(type_text(at));
                            lemma_extend_diag(s4, "RBN3001"@, m, args[0].span);
                            lemma_extend_trans(s, s4, with_diag(s4, "RBN3001"@, m, args[0].span));
                        } else {
                            let m = "`write_line` attend exactement un argument"@;
                            lemma_extend_diag(s2, "RBN3004"@, m, e.span);
                            lemma_extend_trans(s, s2, with_diag(s2, "RBN3004"@, m, e.span));
                        }
                    },
                }
            } else if path.len() == 1 {
                let name = path[0].0;
                match find_summary(sigs, name) {
                    None => lemma_extend_diag(s, "RBN2004"@, "fonction inconnue "@ + quoted(name), path[0].1),
                    Some(i) => {
                        let callee = sigs[i];
                        let s1 = with_symbol(
                            s,
                            callee.id,
                            name,
                            SymbolKind::Function,
                            path[0].1,
                            callee.span,
                            Some(signature_text(callee)),
                        );
                        lemma_extend_same(s, s1);
                        let m = quoted(name) + " attend "@ + spec_decimal(callee.params.len()) + " argument(s), reçu "@
                            + spec_decimal(args.len());
                        let s2 = if callee.params.len() != args.len() {
                            with_diag(s1, "RBN3004"@, m, e.span)
                        } else {
                            s1
                        };
                        lemma_extend_diag(s1, "RBN3004"@, m, e.span);
                        lemma_extend_same(s1, s1);
                        lemma_extend_trans(s, s1, s2);
                        lemma_infer_args_extends(args, 0, callee.params, name, env, sigs, s2);
                        let s3 = infer_args(args, 0, callee.params, name, env, sigs, s2);
                        lemma_extend_trans(s, s2, s3);
                    },
                }
            } else {
                lemma_extend_diag(s, "RBN2004"@, "appel inconnu "@ + quoted(join_parts(path)), e.span);
            }
        },
        _ => {},
    }
}

proof fn lemma_infer_args_extends(
    args: Seq<ExprV>,
    k: int,
    params: Seq<(Seq<char>, TypeV)>,
    callee: Seq<char>,
    env: Seq<(Seq<char>, Binding)>,
    sigs: Seq<SummaryV>,
    s: AnState,
)
    ensures
        diags_extend(s, infer_args(args, k, params, callee, env, sigs, s)),
    decreases args, args.len() - k,
{
    lemma_extend_same(s, s);
    if !(k < 0 || k >= args.len() || k >= params.len()) {
        let (actual, s1) = infer(args[k], env, sigs, s);
        lemma_infer_extends(args[k], env, sigs, s);
        let expected = params[k].1;
        let m = quoted(callee) + " attend "@ + quoted(type_text(expected)) + ", reçu "@ + quoted(type_text(actual));
        let s2 = if actual != expected {
            with_diag(s1, "RBN3001"@, m, args[k].span)
        } else {
            s1
        };
        lemma_extend_diag(s1, "RBN3001"@, m, args[k].span);
        lemma_extend_same(s1, s1);
        lemma_extend_trans(s, s1, s2);
        lemma_infer_args_extends(args, k + 1, params, callee, env, sigs, s2);
        lemma_extend_trans(s, s2, infer_args(args, k + 1, params, callee, env, sigs, s2));
    }
}

/// A call of a function of the module whose number of arguments differs
/// from its number of parameters, too few or too many, is reported: the
/// first diagnostic the call adds is an `RBN3004`, and the state after it
/// keeps every diagnostic there was before.
pub proof fn lemma_call_arity_is_checked(e: ExprV, env: Seq<(Seq<char>, Binding)>, sigs: Seq<SummaryV>, s: AnState)
    requires
        e.kind is Call,
        e.kind->Call_path.len() == 1,
        find_summary(sigs, e.kind->Call_path[0].0) is Some,
        e.kind->Call_args.len() != sigs[find_summary(sigs, e.kind->Call_path[0].0)->0].params.len(),
    ensures
        diags_extend(s, infer(e, env, sigs, s).1),
        infer(e, env, sigs, s).1.diags.len() > s.diags.len(),
        infer(e, env, sigs, s).1.diags[s.diags.len() as int].code == "RBN3004"@,
{
    lemma_infer_extends(e, env, sigs, s);
    let path = e.kind->Call_path;
    let args = e.kind->Call_args;
    let name = path[0].0;
    let i = find_summary(sigs, name)->0;
    let callee = sigs[i];
    let s1 = with_symbol(s, callee.id, name, SymbolKind::Function, path[0].1, callee.span, Some(signature_text(callee)));
    let m = quoted(name) + " attend "@ + spec_decimal(callee.params.len()) + " argument(s), reçu "@ + spec_decimal(
        args.len(),
    );
    let s2 = with_diag(s1, "RBN3004"@, m, e.span);
    lemma_infer_args_extends(args, 0, callee.params, name, env, sigs, s2);
    let s3 = infer_args(args, 0, callee.params, name, env, sigs, s2);
    let r = infer(e, env, sigs, s).1;
    assert(r.diags == s3.diags);
    assert(s3.diags.subrange(0, s2.diags.len() as int)[s.diags.len() as int] == s3.diags[s.diags.len() as int]);
}

} // verus!
