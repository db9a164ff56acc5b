//! The canonical text of a Robine module.
//!
//! The formatter writes the module line, the imports sorted by name, then each
//! function after a blank line, with one statement per line indented by four
//! spaces. Expressions get parentheses exactly where the binding strength of
//! the operators asks for them.

use vstd::prelude::*;
use vstd::relations::{sorted_by, total_ordering};
use crate::syntax::{
    join_parts, op_symbol, BinaryOp, Expr, ExprKind, ExprKindV, ExprV, Function, FunctionV, Import, ImportV,
    ParamV, Program, ProgramV, StmtKind, StmtKindV, StmtV,
};
use crate::text::{append_str, chars_of, push_char, push_signed_decimal, spec_signed_decimal};
use crate::text_set::{lemma_text_leq_total, lemma_text_leq_transitive, lemma_text_order_total, text_le, text_leq, text_order};

verus! {

/// How one character of a text literal is written.
pub open spec fn literal_char(c: char) -> Seq<char> {
    if c == '\n' {
        seq!['\\', 'n']
    } else if c == '\r' {
        seq!['\\', 'r']
    } else if c == '\t' {
        seq!['\\', 't']
    } else if c == '"' {
        seq!['\\', '"']
    } else if c == '\\' {
        seq!['\\', '\\']
    } else {
        seq![c]
    }
}

/// How the characters of a text literal are written, without the quotes.
pub open spec fn literal_text(s: Seq<char>) -> Seq<char>
    decreases s.len(),
{
    if s.len() == 0 {
        Seq::empty()
    } else {
        literal_text(s.drop_last()) + literal_char(s.last())
    }
}

/// The binding strength of an expression: `if` 0, `==` 1, `<` `<=` 2,
/// `+` `-` 3, `*` 4, calls 5, literals and names 6.
pub open spec fn precedence(e: ExprV) -> nat {
    match e.kind {
        ExprKindV::If { .. } => 0,
        ExprKindV::Binary { operator, .. } => match operator {
            BinaryOp::Equal => 1,
            BinaryOp::LessThan => 2,
            BinaryOp::LessThanOrEqual => 2,
            BinaryOp::Add => 3,
            BinaryOp::Subtract => 3,
            BinaryOp::Multiply => 4,
        },
        ExprKindV::Call { .. } => 5,
        _ => 6,
    }
}

/// The text of an expression written where the surrounding context binds
/// with strength `parent`: parenthesized when it binds more loosely.
pub open spec fn fmt_expr(e: ExprV, parent: nat) -> Seq<char>
    decreases e, 2nat,
{
    if precedence(e) < parent {
        seq!['('] + fmt_body(e) + seq![')']
    } else {
        fmt_body(e)
    }
}

/// The text of an expression without surrounding parentheses.
pub open spec fn fmt_body(e: ExprV) -> Seq<char>
    decreases e, 1nat,
{
    let p = precedence(e);
    match e.kind {
        ExprKindV::Text(v) => seq!['"'] + literal_text(v) + seq!['"'],
        ExprKindV::Int(v) => spec_signed_decimal(v as int),
        ExprKindV::Bool(b) => if b {
            "true"@
        } else {
            "false"@
        },
        ExprKindV::Var(name) => name,
        ExprKindV::If { condition, consequence, alternative } => "if "@ + fmt_expr(*condition, 0) + " { "@
            + fmt_expr(*consequence, 0) + " } else { "@ + fmt_expr(*alternative, 0) + " }"@,
        ExprKindV::Binary { operator, left, right } => fmt_expr(*left, p) + seq![' '] + op_symbol(operator)
            + seq![' '] + fmt_expr(*right, p + 1),
        ExprKindV::Call { path, args } => join_parts(path) + seq!['('] + fmt_args(args, 0) + seq![')'],
    }
}

/// The text of `args[k..]`, separated by commas.
pub open spec fn fmt_args(args: Seq<ExprV>, k: int) -> Seq<char>
    decreases args, args.len() - k,
{
    if k < 0 || k >= args.len() {
        Seq::empty()
    } else {
        let sep = if k == 0 { Seq::empty() } else { ", "@ };
        sep + fmt_expr(args[k], 0) + fmt_args(args, k + 1)
    }
}

/// The line of a statement.
pub open spec fn fmt_stmt(s: StmtV) -> Seq<char> {
    let text = match s.kind {
        StmtKindV::Let { name, annotation, value, .. } => "let "@ + name + match annotation {
            Some((t, _)) => ": "@ + t,
            None => Seq::empty(),
        } + " = "@ + fmt_expr(value, 0) + seq![';'],
        StmtKindV::Expr { value, terminated } => fmt_expr(value, 0) + if terminated {
            seq![';']
        } else {
            Seq::empty()
        },
    };
    "    "@ + text + seq!['\n']
}

/// The lines of some statements.
pub open spec fn fmt_stmts(ss: Seq<StmtV>) -> Seq<char>
    decreases ss.len(),
{
    if ss.len() == 0 {
        Seq::empty()
    } else {
        fmt_stmts(ss.drop_last()) + fmt_stmt(ss.last())
    }
}

/// Some texts joined by `, `.
pub open spec fn join_commas(items: Seq<Seq<char>>) -> Seq<char>
    decreases items.len(),
{
    if items.len() == 0 {
        Seq::empty()
    } else if items.len() == 1 {
        items[0]
    } else {
        join_commas(items.drop_last()) + ", "@ + items.last()
    }
}

/// The text of a parameter.
pub open spec fn fmt_param(p: ParamV) -> Seq<char> {
    p.name + ": "@ + p.ty_name
}

/// The text of a function declaration, after a blank line.
pub open spec fn fmt_function(f: FunctionV) -> Seq<char> {
    seq!['\n'] + (if f.public { "pub "@ } else { Seq::empty() }) + "fn "@ + f.name + seq!['(']
        + join_commas(f.params.map_values(|p: ParamV| fmt_param(p))) + ") -> "@ + f.return_type + (if f.effects.len()
        == 0 {
        Seq::empty()
    } else {
        " ! { "@ + join_commas(f.effects.map_values(|e: (Seq<char>, crate::diagnostic::Span)| e.0)) + " }"@
    }) + " {\n"@ + fmt_stmts(f.body) + "}\n"@
}

/// The text of some functions.
pub open spec fn fmt_functions(fs: Seq<FunctionV>) -> Seq<char>
    decreases fs.len(),
{
    if fs.len() == 0 {
        Seq::empty()
    } else {
        fmt_functions(fs.drop_last()) + fmt_function(fs.last())
    }
}

/// The import lines of some module names.
pub open spec fn fmt_imports(ms: Seq<Seq<char>>) -> Seq<char>
    decreases ms.len(),
{
    if ms.len() == 0 {
        Seq::empty()
    } else {
        fmt_imports(ms.drop_last()) + "import "@ + ms.last() + seq!['\n']
    }
}

/// The canonical text of a module.
pub open spec fn fmt_program(p: ProgramV) -> Seq<char> {
    "module "@ + p.module + seq!['\n'] + fmt_imports(
        p.imports.map_values(|i: ImportV| i.module).sort_by(text_order()),
    ) + fmt_functions(p.functions)
}

/// The modules of some imports, sorted by [`text_leq`].
pub fn sorted_modules(imports: &Vec<Import>) -> (r: Vec<String>)
    ensures
        r@.map_values(|s: String| s@) == imports@.map_values(|i: Import| i@).map_values(|i: ImportV| i.module).sort_by(
            text_order(),
        ),
{
    broadcast use vstd::seq_lib::group_to_multiset_ensures;

    let ghost mods = imports@.map_values(|i: Import| i@).map_values(|i: ImportV| i.module);
    let ghost leq = text_order();
    proof {
        lemma_text_order_total();
    }
    let mut out: Vec<String> = Vec::new();
    let mut i: usize = 0;
    assert(mods.take(0) =~= Seq::<Seq<char>>::empty());
    assert(out@.map_values(|s: String| s@) =~= Seq::<Seq<char>>::empty());
    while i < imports.len()
        invariant
            i <= imports@.len(),
            mods == imports@.map_values(|i: Import| i@).map_values(|i: ImportV| i.module),
            leq == text_order(),
            total_ordering(leq),
            sorted_by(out@.map_values(|s: String| s@), leq),
            out@.map_values(|s: String| s@).to_multiset() == mods.take(i as int).to_multiset(),
        decreases imports@.len() - i,
    {
        let ghost v = out@.map_values(|s: String| s@);
        let x = imports[i].module.clone();
        assert(x@ == mods[i as int]);
        let mut pos: usize = 0;
        while pos < out.len() && text_le(out[pos].as_str(), x.as_str())
            invariant
                pos <= out@.len(),
                v == out@.map_values(|s: String| s@),
                forall|j: int| 0 <= j < pos ==> text_leq(#[trigger] v[j], x@),
            decreases out@.len() - pos,
        {
            pos = pos + 1;
        }
        proof {
            if pos < out@.len() {
                lemma_text_leq_total(v[pos as int], x@);
            }
        }
        out.insert(pos, x);
        let ghost w = out@.map_values(|s: String| s@);
        assert(w =~= v.insert(pos as int, x@));
        proof {
            vstd::seq_lib::to_multiset_insert(v, pos as int, x@);
        }
        assert(w.to_multiset() == v.to_multiset().insert(x@));
        assert forall|a: int, b: int| 0 <= a < b < w.len() implies #[trigger] leq(w[a], w[b]) by {
            if b < pos {
            } else if a < pos && b == pos {
            } else if a < pos && b > pos {
                assert(leq(v[a], x@));
                if pos < v.len() {
                    assert(leq(x@, v[pos as int]));
                    assert(leq(v[pos as int], v[b - 1]) || pos == b - 1);
                    lemma_text_leq_transitive(x@, v[pos as int], v[b - 1]);
                }
                lemma_text_leq_transitive(v[a], x@, v[b - 1]);
            } else if a == pos {
                assert(leq(x@, v[pos as int]));
                if pos < b - 1 {
                    assert(leq(v[pos as int], v[b - 1]));
                    lemma_text_leq_transitive(x@, v[pos as int], v[b - 1]);
                }
            } else {
                assert(leq(v[a - 1], v[b - 1]));
            }
        }
        assert(mods.take(i + 1) =~= mods.take(i as int).push(x@));
        proof {
            vstd::seq_lib::to_multiset_build(mods.take(i as int), x@);
        }
        i = i + 1;
    }
    proof {
        assert(mods.take(imports@.len() as int) =~= mods);
        mods.lemma_sort_by_ensures(leq);
        vstd::seq_lib::lemma_sorted_unique(out@.map_values(|s: String| s@), mods.sort_by(leq), leq);
    }
    out
}

fn push_literal(output: &mut String, value: &str)
    ensures
        final(output)@ == old(output)@ + seq!['"'] + literal_text(value@) + seq!['"'],
{
    push_char(output, '"');
    let cs = chars_of(value);
    let ghost start = output@;
    let mut i: usize = 0;
    assert(value@.take(0) =~= Seq::<char>::empty());
    while i < cs.len()
        invariant
            cs@ == value@,
            i <= cs@.len(),
            output@ == start + literal_text(value@.take(i as int)),
        decreases cs@.len() - i,
    {
        let c = cs[i];
        if c == '\n' {
            push_char(output, '\\');
            push_char(output, 'n');
        } else if c == '\r' {
            push_char(output, '\\');
            push_char(output, 'r');
        } else if c == '\t' {
            push_char(output, '\\');
            push_char(output, 't');
        } else if c == '"' {
            push_char(output, '\\');
            push_char(output, '"');
        } else if c == '\\' {
            push_char(output, '\\');
            push_char(output, '\\');
        } else {
            push_char(output, c);
        }
        assert(value@.take(i + 1).drop_last() =~= value@.take(i as int));
        i = i + 1;
        assert(output@ =~= start + literal_text(value@.take(i as int)));
    }
    assert(value@.take(cs@.len() as int) =~= value@);
    push_char(output, '"');
    assert(final(output)@ =~= old(output)@ + seq!['"'] + literal_text(value@) + seq!['"']);
}

fn precedence_of(e: &Expr) -> (p: u8)
    ensures
        p == precedence(e@),
{
    match &e.kind {
        ExprKind::If { .. } => 0,
        ExprKind::Binary { operator, .. } => match operator {
            BinaryOp::Equal => 1,
            BinaryOp::LessThan => 2,
            BinaryOp::LessThanOrEqual => 2,
            BinaryOp::Add => 3,
            BinaryOp::Subtract => 3,
            BinaryOp::Multiply => 4,
        },
        ExprKind::Call { .. } => 5,
        _ => 6,
    }
}

fn format_call(e: &Expr, output: &mut String)
    requires
        e.kind is Call,
    ensures
        final(output)@ == old(output)@ + join_parts(e@.kind->Call_path) + seq!['('] + fmt_args(e@.kind->Call_args, 0)
            + seq![')'],
    decreases e, 0nat,
{
    let ghost start = old(output)@;
    match &e.kind {
        ExprKind::Call { path, args } => {
            let ghost pv = crate::syntax::parts_view(path@);
            let mut i: usize = 0;
            assert(pv.take(0) =~= Seq::<(Seq<char>, crate::diagnostic::Span)>::empty());
            while i < path.len()
                invariant
                    i <= path@.len(),
                    pv == crate::syntax::parts_view(path@),
                    output@ == start + join_parts(pv.take(i as int)),
                decreases path@.len() - i,
            {
                let ghost before = output@;
                if i != 0 {
                    append_str(output, ".");
                }
                append_str(output, path[i].0.as_str());
                proof {
                    assert(pv.take(i + 1).drop_last() =~= pv.take(i as int));
                    if i == 0 {
                        assert(join_parts(pv.take(1)) == pv[0].0);
                        assert(output@ =~= start + join_parts(pv.take(i + 1)));
                    } else {
                        assert(output@ =~= before + "."@ + pv[i as int].0);
                    }
                }
                i = i + 1;
            }
            assert(pv.take(path@.len() as int) =~= pv);
            push_char(output, '(');
            let ghost av = crate::syntax::exprs_view(args@);
            let ghost after_open = output@;
            let mut j: usize = 0;
            while j < args.len()
                invariant
                    j <= args@.len(),
                    av == crate::syntax::exprs_view(args@),
                    e.kind == (ExprKind::Call { path: *path, args: *args }),
                    after_open + fmt_args(av, 0) == output@ + fmt_args(av, j as int),
                decreases args@.len() - j,
            {
                proof {
                    assert(decreases_to!(*e => e.kind));
                    assert(decreases_to!(e.kind => e.kind->Call_args));
                    assert(decreases_to!(e.kind->Call_args => e.kind->Call_args@));
                    assert(decreases_to!(e.kind->Call_args@ => e.kind->Call_args@[j as int]));
                }
                let ghost before = output@;
                if j != 0 {
                    append_str(output, ", ");
                }
                format_expr(&args[j], 0, output);
                assert(av[j as int] == args@[j as int]@);
                j = j + 1;
                proof {
                    let k = (j - 1) as int;
                    let sep = if k == 0 { Seq::<char>::empty() } else { ", "@ };
                    assert(output@ =~= before + sep + fmt_expr(av[k], 0));
                    assert(after_open + fmt_args(av, 0) =~= output@ + fmt_args(av, j as int));
                }
            }
            assert(fmt_args(av, args@.len() as int) =~= Seq::<char>::empty());
            push_char(output, ')');
            assert(final(output)@ =~= start + join_parts(e@.kind->Call_path) + seq!['('] + fmt_args(e@.kind->Call_args, 0)
                + seq![')']);
        },
        _ => {},
    }
}

fn format_expr(e: &Expr, parent: u8, output: &mut String)
    requires
        parent <= 7,
    ensures
        final(output)@ == old(output)@ + fmt_expr(e@, parent as nat),
    decreases e, 2nat,
{
    let p = precedence_of(e);
    if p < parent {
        push_char(output, '(');
        format_body(e, output);
        push_char(output, ')');
        assert(final(output)@ =~= old(output)@ + fmt_expr(e@, parent as nat));
    } else {
        format_body(e, output);
    }
}

fn format_body(e: &Expr, output: &mut String)
    ensures
        final(output)@ == old(output)@ + fmt_body(e@),
    decreases e, 1nat,
{
    let p = precedence_of(e);
    let ghost start = old(output)@;
    match &e.kind {
        ExprKind::Text(v) => {
            push_literal(output, v.as_str());
        },
        ExprKind::Int(v) => {
            push_signed_decimal(output, *v);
        },
        ExprKind::Bool(b) => {
            if *b {
                append_str(output, "true");
            } else {
                append_str(output, "false");
            }
        },
        ExprKind::Var(name) => {
            append_str(output, name.as_str());
        },
        ExprKind::If { condition, consequence, alternative } => {
            append_str(output, "if ");
            format_expr(condition, 0, output);
            append_str(output, " { ");
            format_expr(consequence, 0, output);
            append_str(output, " } else { ");
            format_expr(alternative, 0, output);
            append_str(output, " }");
            assert(final(output)@ =~= start + fmt_body(e@));
        },
        ExprKind::Binary { operator, left, right } => {
            format_expr(left, p, output);
            push_char(output, ' ');
            append_str(output, operator.symbol());
            push_char(output, ' ');
            format_expr(right, p + 1, output);
            assert(final(output)@ =~= start + fmt_body(e@));
        },
        ExprKind::Call { .. } => {
            format_call(e, output);
        },
    }
}

fn format_stmts(body: &Vec<crate::syntax::Stmt>, output: &mut String)
    ensures
        final(output)@ == old(output)@ + fmt_stmts(body@.map_values(|s: crate::syntax::Stmt| s@)),
{
    let ghost sv = body@.map_values(|s: crate::syntax::Stmt| s@);
    let ghost start = old(output)@;
    let mut i: usize = 0;
    assert(sv.take(0) =~= Seq::<StmtV>::empty());
    while i < body.len()
        invariant
            i <= body@.len(),
            sv == body@.map_values(|s: crate::syntax::Stmt| s@),
            output@ == start + fmt_stmts(sv.take(i as int)),
        decreases body@.len() - i,
    {
        let ghost before = output@;
        append_str(output, "    ");
        match &body[i].kind {
            StmtKind::Let { name, annotation, value, .. } => {
                append_str(output, "let ");
                append_str(output, name.as_str());
                match annotation {
                    Some((t, _)) => {
                        append_str(output, ": ");
                        append_str(output, t.as_str());
                    },
                    None => {},
                }
                append_str(output, " = ");
                format_expr(value, 0, output);
                push_char(output, ';');
            },
            StmtKind::Expr { value, terminated } => {
                format_expr(value, 0, output);
                if *terminated {
                    push_char(output, ';');
                }
            },
        }
        push_char(output, '\n');
        assert(sv.take(i + 1).drop_last() =~= sv.take(i as int));
        assert(sv[i as int] == body@[i as int]@);
        assert(output@ =~= before + fmt_stmt(sv[i as int]));
        i = i + 1;
    }
    assert(sv.take(body@.len() as int) =~= sv);
}

fn format_params(params: &Vec<crate::syntax::Param>, output: &mut String)
    ensures
        final(output)@ == old(output)@ + join_commas(
            params@.map_values(|p: crate::syntax::Param| p@).map_values(|p: ParamV| fmt_param(p)),
        ),
{
    let ghost pv = params@.map_values(|p: crate::syntax::Param| p@).map_values(|p: ParamV| fmt_param(p));
    let ghost start = old(output)@;
    let mut i: usize = 0;
    assert(pv.take(0) =~= Seq::<Seq<char>>::empty());
    while i < params.len()
        invariant
            i <= params@.len(),
            pv == params@.map_values(|p: crate::syntax::Param| p@).map_values(|p: ParamV| fmt_param(p)),
            pv.len() == params@.len(),
            output@ == start + join_commas(pv.take(i as int)),
        decreases params@.len() - i,
    {
        let ghost before = output@;
        if i != 0 {
            append_str(output, ", ");
        }
        append_str(output, params[i].name.as_str());
        append_str(output, ": ");
        append_str(output, params[i].ty_name.as_str());
        proof {
            assert(pv[i as int] == fmt_param(params@[i as int]@));
            assert(pv.take(i + 1).drop_last() =~= pv.take(i as int));
            if i == 0 {
                assert(join_commas(pv.take(1)) == pv[0]);
                assert(output@ =~= start + join_commas(pv.take(i + 1)));
            } else {
                assert(output@ =~= before + ", "@ + pv[i as int]);
            }
        }
        i = i + 1;
    }
    assert(pv.take(params@.len() as int) =~= pv);
}

fn format_effects(effects: &Vec<(String, crate::diagnostic::Span)>, output: &mut String)
    ensures
        final(output)@ == old(output)@ + join_commas(
            crate::syntax::parts_view(effects@).map_values(|e: (Seq<char>, crate::diagnostic::Span)| e.0),
        ),
{
    let ghost ev = crate::syntax::parts_view(effects@).map_values(|e: (Seq<char>, crate::diagnostic::Span)| e.0);
    let ghost start = old(output)@;
    let mut j: usize = 0;
    assert(ev.take(0) =~= Seq::<Seq<char>>::empty());
    while j < effects.len()
        invariant
            j <= effects@.len(),
            ev == crate::syntax::parts_view(effects@).map_values(|e: (Seq<char>, crate::diagnostic::Span)| e.0),
            ev.len() == effects@.len(),
            output@ == start + join_commas(ev.take(j as int)),
        decreases effects@.len() - j,
    {
        let ghost before = output@;
        if j != 0 {
            append_str(output, ", ");
        }
        append_str(output, effects[j].0.as_str());
        proof {
            assert(ev[j as int] == effects@[j as int].0@);
            assert(ev.take(j + 1).drop_last() =~= ev.take(j as int));
            if j == 0 {
                assert(join_commas(ev.take(1)) == ev[0]);
                assert(output@ =~= start + join_commas(ev.take(j + 1)));
            } else {
                assert(output@ =~= before + ", "@ + ev[j as int]);
            }
        }
        j = j + 1;
    }
    assert(ev.take(effects@.len() as int) =~= ev);
}

fn format_function(f: &Function, output: &mut String)
    ensures
        final(output)@ == old(output)@ + fmt_function(f@),
{
    let ghost start = old(output)@;
    let ghost fv = f@;
    let ghost head = seq!['\n'] + (if fv.public { "pub "@ } else { Seq::empty() }) + "fn "@ + fv.name + seq!['('];
    let ghost params_text = join_commas(fv.params.map_values(|p: ParamV| fmt_param(p)));
    let ghost effects_text = if fv.effects.len() == 0 {
        Seq::<char>::empty()
    } else {
        " ! { "@ + join_commas(fv.effects.map_values(|e: (Seq<char>, crate::diagnostic::Span)| e.0)) + " }"@
    };
    assert(fmt_function(fv) == head + params_text + ") -> "@ + fv.return_type + effects_text + " {\n"@
        + fmt_stmts(fv.body) + "}\n"@);
    push_char(output, '\n');
    if f.public {
        append_str(output, "pub ");
    }
    append_str(output, "fn ");
    append_str(output, f.name.as_str());
    push_char(output, '(');
    assert(output@ =~= start + head);
    format_params(&f.params, output);
    assert(output@ =~= start + head + params_text);
    append_str(output, ") -> ");
    append_str(output, f.return_type.as_str());
    let ghost before_effects = output@;
    if f.effects.len() != 0 {
        append_str(output, " ! { ");
        format_effects(&f.effects, output);
        append_str(output, " }");
        assert(output@ =~= before_effects + effects_text);
    } else {
        assert(output@ =~= before_effects + effects_text);
    }
    append_str(output, " {\n");
    format_stmts(&f.body, output);
    append_str(output, "}\n");
    assert(final(output)@ =~= start + fmt_function(f@));
}

/// The canonical text of a module.
pub fn format_program(program: &Program) -> (s: String)
    ensures
        s@ == fmt_program(program@),
{
    let mut output = String::new();
    append_str(&mut output, "module ");
    append_str(&mut output, program.module.as_str());
    push_char(&mut output, '\n');
    let modules = sorted_modules(&program.imports);
    let ghost ms = modules@.map_values(|s: String| s@);
    let ghost after_module = output@;
    let mut i: usize = 0;
    assert(ms.take(0) =~= Seq::<Seq<char>>::empty());
    while i < modules.len()
        invariant
            i <= modules@.len(),
            ms == modules@.map_values(|s: String| s@),
            output@ == after_module + fmt_imports(ms.take(i as int)),
        decreases modules@.len() - i,
    {
        append_str(&mut output, "import ");
        append_str(&mut output, modules[i].as_str());
        push_char(&mut output, '\n');
        assert(ms.take(i + 1).drop_last() =~= ms.take(i as int));
        i = i + 1;
        assert(output@ =~= after_module + fmt_imports(ms.take(i as int)));
    }
    assert(ms.take(modules@.len() as int) =~= ms);
    let ghost fv = program@.functions;
    let ghost after_imports = output@;
    let mut k: usize = 0;
    assert(fv.take(0) =~= Seq::<FunctionV>::empty());
    while k < program.functions.len()
        invariant
            k <= program.functions@.len(),
            fv == program@.functions,
            output@ == after_imports + fmt_functions(fv.take(k as int)),
        decreases program.functions@.len() - k,
    {
        format_function(&program.functions[k], &mut output);
        assert(fv.take(k + 1).drop_last() =~= fv.take(k as int));
        assert(fv[k as int] == program.functions@[k as int]@);
        k = k + 1;
        assert(output@ =~= after_imports + fmt_functions(fv.take(k as int)));
    }
    assert(fv.take(program.functions@.len() as int) =~= fv);
    assert(output@ =~= fmt_program(program@));
    output
}

/// The canonical text of a module, unless its source holds a comment: the
/// formatter does not keep comments, so such a source is returned unchanged.
pub fn format_source(source: &str, program: &Program) -> (s: String)
    ensures
        s@ == (if program.has_comments { source@ } else { fmt_program(program@) }),
{
    if program.has_comments {
        source.to_owned()
    } else {
        format_program(program)
    }
}

} // verus!
