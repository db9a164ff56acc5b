//! The guard of a Flow document (its `when` section): which boolean forms
//! and which values it may hold, checked before the document is stored.

use vstd::prelude::*;
use crate::application::FlowError;
use crate::flow_ast::{FlowAst, Form, FormV, forms_view, head_symbol, items_of, symbol_of};
use crate::flow_check::CheckDiagnostic;
use crate::flow_rules::{find_section, section_index};
use crate::flow_syntax::{count_numeric, digit_count, dot_count};
use crate::text::{append_str, chars_of, str_eq};

verus! {

/// Whether `s` equals the lower-case ASCII word `w`, letters compared
/// without regard to case.
pub open spec fn ascii_ci_eq(s: Seq<char>, w: Seq<char>) -> bool {
    &&& s.len() == w.len()
    &&& forall|i: int|
        0 <= i < s.len() ==> (s[i] == w[i] || ('a' <= w[i] <= 'z' && s[i] as u32 + 32 == w[i] as u32))
}

/// Whether every character of `s` is an ASCII digit.
pub open spec fn all_digits(s: Seq<char>) -> bool {
    forall|i: int| 0 <= i < s.len() ==> '0' <= #[trigger] s[i] <= '9'
}

/// The digits of a decimal number, with at most one `.` among them:
/// `Digit+`, `Digit+ '.' Digit*` or `Digit* '.' Digit+`.
pub open spec fn mantissa(m: Seq<char>) -> bool {
    dot_count(m) <= 1 && digit_count(m) >= 1 && dot_count(m) + digit_count(m) == m.len()
}

/// An exponent: `e` or `E`, an optional sign, and at least one digit.
pub open spec fn exponent(x: Seq<char>) -> bool {
    &&& x.len() >= 2
    &&& (x[0] == 'e' || x[0] == 'E')
    &&& ({
        let digits = if x[1] == '+' || x[1] == '-' { x.skip(2) } else { x.skip(1) };
        digits.len() >= 1 && all_digits(digits)
    })
}

/// A decimal number: a mantissa, then an optional exponent.
pub open spec fn decimal_number(s: Seq<char>) -> bool {
    exists|k: int| 0 <= k <= s.len() && mantissa(#[trigger] s.take(k)) && (k == s.len() || exponent(s.skip(k)))
}

/// The texts that Rust's `f64::from_str` reads: an optional sign, then
/// `inf`, `infinity` or `nan` in any case, or a decimal number.
pub open spec fn float_text(s: Seq<char>) -> bool {
    let u = if s.len() > 0 && (s[0] == '+' || s[0] == '-') { s.skip(1) } else { s };
    ||| ascii_ci_eq(u, "inf"@)
    ||| ascii_ci_eq(u, "infinity"@)
    ||| ascii_ci_eq(u, "nan"@)
    ||| decimal_number(u)
}

proof fn lemma_counts_cover(m: Seq<char>)
    ensures
        dot_count(m) + digit_count(m) <= m.len(),
        dot_count(m) + digit_count(m) == m.len() ==> forall|i: int|
            0 <= i < m.len() ==> m[i] == '.' || '0' <= #[trigger] m[i] <= '9',
    decreases m.len(),
{
    if m.len() > 0 {
        lemma_counts_cover(m.drop_last());
        if dot_count(m) + digit_count(m) == m.len() {
            assert forall|i: int| 0 <= i < m.len() implies m[i] == '.' || '0' <= #[trigger] m[i] <= '9' by {
                if i < m.len() - 1 {
                    assert(m[i] == m.drop_last()[i]);
                }
            }
        }
    }
}

fn ci_eq_from(cs: &Vec<char>, from: usize, w: &str) -> (r: bool)
    requires
        from <= cs@.len(),
    ensures
        r == ascii_ci_eq(cs@.skip(from as int), w@),
{
    let ws = chars_of(w);
    let ghost u = cs@.skip(from as int);
    let m = ws.len();
    let n = cs.len();
    if n - from != m {
        return false;
    }
    let mut i: usize = 0;
    while i < m
        invariant
            ws@ == w@,
            m == ws@.len(),
            u == cs@.skip(from as int),
            u.len() == m,
            n == cs@.len(),
            from + m == n,
            i <= m,
            forall|j: int|
                0 <= j < i ==> (u[j] == ws@[j] || ('a' <= ws@[j] <= 'z' && u[j] as u32 + 32 == ws@[j] as u32)),
        decreases m - i,
    {
        let c = cs[from + i];
        let d = ws[i];
        assert(u[i as int] == c);
        let upper = 'a' <= d && d <= 'z' && (d as u32) - 32 == (c as u32);
        if !(c == d || upper) {
            return false;
        }
        i = i + 1;
    }
    true
}

fn all_digits_in(cs: &Vec<char>, from: usize, to: usize) -> (r: bool)
    requires
        from <= to <= cs@.len(),
    ensures
        r == all_digits(cs@.subrange(from as int, to as int)),
{
    let ghost s = cs@.subrange(from as int, to as int);
    let mut i = from;
    while i < to
        invariant
            from <= i <= to <= cs@.len(),
            s == cs@.subrange(from as int, to as int),
            forall|j: int| 0 <= j < i - from ==> '0' <= #[trigger] s[j] <= '9',
        decreases to - i,
    {
        assert(s[i - from] == cs@[i as int]);
        if !('0' <= cs[i] && cs[i] <= '9') {
            return false;
        }
        i = i + 1;
    }
    true
}

fn exponent_at(cs: &Vec<char>, from: usize) -> (r: bool)
    requires
        from <= cs@.len(),
    ensures
        r == exponent(cs@.skip(from as int)),
{
    let ghost x = cs@.skip(from as int);
    let n = cs.len();
    if n - from < 2 || !(cs[from] == 'e' || cs[from] == 'E') {
        return false;
    }
    assert(x[0] == cs@[from as int] && x[1] == cs@[from + 1]);
    let start = if cs[from + 1] == '+' || cs[from + 1] == '-' { from + 2 } else { from + 1 };
    assert(cs@.subrange(start as int, n as int) =~= if x[1] == '+' || x[1] == '-' {
        x.skip(2)
    } else {
        x.skip(1)
    });
    start < n && all_digits_in(cs, start, n)
}

proof fn lemma_first_exponent_split(u: Seq<char>, kk: int)
    requires
        0 <= kk <= u.len(),
        forall|j: int| 0 <= j < kk ==> u[j] != 'e' && u[j] != 'E',
        kk == u.len() || u[kk] == 'e' || u[kk] == 'E',
    ensures
        decimal_number(u) <==> (mantissa(u.take(kk)) && (kk == u.len() || exponent(u.skip(kk)))),
{
    if mantissa(u.take(kk)) && (kk == u.len() || exponent(u.skip(kk))) {
        assert(decimal_number(u));
    }
    assert forall|j: int| 0 <= j <= u.len() && mantissa(#[trigger] u.take(j)) && (j == u.len() || exponent(u.skip(j)))
        implies j == kk by {
        lemma_counts_cover(u.take(j));
        if j > kk {
            assert(u.take(j)[kk] == u[kk]);
        } else if j < kk {
            assert(u.skip(j)[0] == u[j]);
        }
    }
}

/// Whether `s` is a text that Rust's `f64::from_str` reads.
pub fn is_float_text(s: &str) -> (r: bool)
    ensures
        r == float_text(s@),
{
    let cs = chars_of(s);
    let n = cs.len();
    let st: usize = if n > 0 && (cs[0] == '+' || cs[0] == '-') { 1 } else { 0 };
    let ghost u = if s@.len() > 0 && (s@[0] == '+' || s@[0] == '-') { s@.skip(1) } else { s@ };
    assert(u =~= cs@.skip(st as int));
    if ci_eq_from(&cs, st, "inf") || ci_eq_from(&cs, st, "infinity") || ci_eq_from(&cs, st, "nan") {
        return true;
    }
    let mut k = st;
    while k < n && cs[k] != 'e' && cs[k] != 'E'
        invariant
            st <= k <= n,
            n == cs@.len(),
            forall|j: int| st <= j < k ==> cs@[j] != 'e' && cs@[j] != 'E',
        decreases n - k,
    {
        k = k + 1;
    }
    let (dots, digits) = count_numeric(&cs, st, k);
    let ok = dots <= 1 && digits >= 1 && dots + digits == k - st && (k == n || exponent_at(&cs, k));
    let ghost kk = k - st;
    assert(u.take(kk) =~= cs@.subrange(st as int, k as int));
    assert(u.skip(kk) =~= cs@.skip(k as int));
    proof {
        assert forall|j: int| 0 <= j < kk implies u[j] != 'e' && u[j] != 'E' by {
            assert(u[j] == cs@[st + j]);
        }
        if kk < u.len() {
            assert(u[kk] == cs@[k as int]);
        }
        lemma_first_exponent_split(u, kk);
    }
    ok
}

/// A hexadecimal digit, in either case.
pub open spec fn hex_char(c: char) -> bool {
    ('0' <= c <= '9') || ('a' <= c <= 'f') || ('A' <= c <= 'F')
}

/// The hyphenated form of a UUID: hex digits with hyphens at 8, 13, 18
/// and 23.
pub open spec fn hyphenated_uuid(s: Seq<char>) -> bool {
    &&& s.len() == 36
    &&& forall|i: int|
        0 <= i < 36 ==> if i == 8 || i == 13 || i == 18 || i == 23 {
            s[i] == '-'
        } else {
            hex_char(#[trigger] s[i])
        }
}

/// The texts that `uuid::Uuid::parse_str` accepts: 32 hex digits, the
/// hyphenated form, the hyphenated form between braces, or the hyphenated
/// form after `urn:uuid:` in any case.
pub open spec fn uuid_text_accepted(s: Seq<char>) -> bool {
    ||| s.len() == 32 && forall|i: int| 0 <= i < 32 ==> hex_char(#[trigger] s[i])
    ||| hyphenated_uuid(s)
    ||| s.len() == 38 && s[0] == '{' && s[37] == '}' && hyphenated_uuid(s.subrange(1, 37))
    ||| s.len() == 45 && ascii_ci_eq(s.take(9), "urn:uuid:"@) && hyphenated_uuid(s.skip(9))
}

/// `uuid::Uuid::parse_str(s).is_ok()`: whether the uuid crate reads `s` as
/// a UUID. Its parser (`try_parse`) takes exactly the four shapes that
/// `uuid_text_accepted` lists, each digit checked as an ASCII hex digit.
#[verifier::external_body]
fn uuid_text_parses(s: &str) -> (r: bool)
    ensures
        r == uuid_text_accepted(s@),
{
    uuid::Uuid::parse_str(s).is_ok()
}

/// Whether `h` names a comparison of two guard values.
pub open spec fn comparison_operator(h: Seq<char>) -> bool {
    h == "="@ || h == "!="@ || h == "<"@ || h == "<="@ || h == ">"@ || h == ">="@
}

/// Whether a form is an `(entity "<uuid>" …)` reference.
pub open spec fn entity_reference(f: FormV) -> bool {
    match f {
        FormV::List(e) => e.len() >= 2 && symbol_of(e[0]) == Some("entity"@) && (match e[1] {
            FormV::String(id) => uuid_text_accepted(id),
            _ => false,
        }),
        _ => false,
    }
}

/// Whether a form names a state property: a non-empty keyword or string.
pub open spec fn property_name(f: FormV) -> bool {
    match f {
        FormV::Keyword(v) => v.len() > 0,
        FormV::String(v) => v.len() > 0,
        _ => false,
    }
}

/// Whether a guard may hold value `f`, or why not: a boolean, a string, a
/// percentage that reads as a number, or `(state (entity "<uuid>") :prop)`.
pub open spec fn guard_value_verdict(f: FormV) -> Result<(), Seq<char>> {
    match f {
        FormV::Bool(_) => Ok(()),
        FormV::String(_) => Ok(()),
        FormV::Number { literal, unit } => if unit == Some("%"@) && float_text(literal) {
            Ok(())
        } else {
            Err("unsupported value in guard"@)
        },
        FormV::List(items) => if items.len() > 0 && symbol_of(items[0]) == Some("state"@) {
            if items.len() == 3 && entity_reference(items[1]) && property_name(items[2]) {
                Ok(())
            } else {
                Err("state requires a UUID entity reference and one property"@)
            }
        } else {
            Err("unsupported value in guard"@)
        },
        _ => Err("unsupported value in guard"@),
    }
}

/// Whether a guard may be the boolean form `f`, or the first reason it may
/// not: `all` and `any` of at least one condition, `not` of one,
/// `available?` and `present?` of one value, a comparison of two values.
pub open spec fn guard_form_verdict(f: FormV) -> Result<(), Seq<char>>
    decreases f, 1nat, 0nat,
{
    match f {
        FormV::List(items) => {
            let n = items.len();
            match if n > 0 { symbol_of(items[0]) } else { None } {
                None => Err("guard form has no symbol"@),
                Some(h) => if h == "all"@ || h == "any"@ {
                    if n >= 2 {
                        proof {
                            assert(decreases_to!(f => items));
                        }
                        conditions_verdict(items, 1)
                    } else {
                        Err("all and any require at least one condition"@)
                    }
                } else if h == "not"@ {
                    if n == 2 {
                        proof {
                            assert(decreases_to!(f => items));
                            assert(decreases_to!(items => items[1]));
                        }
                        guard_form_verdict(items[1])
                    } else {
                        Err("not requires exactly one condition"@)
                    }
                } else if h == "available?"@ || h == "present?"@ {
                    if n == 2 {
                        guard_value_verdict(items[1])
                    } else {
                        Err("available? and present? require exactly one value"@)
                    }
                } else if comparison_operator(h) && n == 3 {
                    match guard_value_verdict(items[1]) {
                        Err(m) => Err(m),
                        Ok(()) => guard_value_verdict(items[2]),
                    }
                } else {
                    Err("unsupported guard form "@ + h)
                },
            }
        },
        _ => Err("guard must be a boolean expression"@),
    }
}

/// The first reason one of the conditions `items[k..]` is refused, if any.
pub open spec fn conditions_verdict(items: Seq<FormV>, k: int) -> Result<(), Seq<char>>
    decreases items, 0nat, items.len() - k,
{
    if 0 <= k < items.len() {
        proof {
            assert(decreases_to!(items => items[k]));
        }
        match guard_form_verdict(items[k]) {
            Err(m) => Err(m),
            Ok(()) => conditions_verdict(items, k + 1),
        }
    } else {
        Ok(())
    }
}

/// Whether the guard of a document is accepted, or why not. A document
/// without a `when` section has no guard to refuse.
pub open spec fn guard_verdict(root: FormV) -> Result<(), Seq<char>> {
    match items_of(root) {
        None => Ok(()),
        Some(forms) => match find_section(forms, "when"@, 0) {
            None => Ok(()),
            Some(i) => match items_of(forms[i]) {
                None => Err("when must be a list"@),
                Some(items) => if items.len() != 2 {
                    Err("when requires exactly one condition"@)
                } else {
                    guard_form_verdict(items[1])
                },
            },
        },
    }
}

/// The refusal of a guard, with message `m`: one `flow.guard_unsupported`
/// finding at `$/when`.
pub open spec fn guard_refusal(r: Result<(), FlowError>, m: Seq<char>) -> bool {
    r matches Err(FlowError::Validation(ds)) && ds@.len() == 1 && ds@[0].code@ == "flow.guard_unsupported"@
        && ds@[0].message@ == m && ds@[0].path@ == "$/when"@
}

/// The outcome a verdict owes: `Ok`, or its refusal.
pub open spec fn verdict_outcome(r: Result<(), FlowError>, v: Result<(), Seq<char>>) -> bool {
    match v {
        Ok(()) => r is Ok,
        Err(m) => guard_refusal(r, m),
    }
}

/// A verdict as an executable result: `Ok`, or the message.
pub open spec fn message_outcome(r: Result<(), String>, v: Result<(), Seq<char>>) -> bool {
    match v {
        Ok(()) => r is Ok,
        Err(m) => r matches Err(s) && s@ == m,
    }
}

fn is_entity_reference(f: &Form) -> (r: bool)
    ensures
        r == entity_reference(f@),
{
    match f {
        Form::List(e) => {
            if e.len() < 2 {
                return false;
            }
            assert(forms_view(e@)[0] == e@[0]@ && forms_view(e@)[1] == e@[1]@);
            let head = match e[0].symbol() {
                Some(h) => str_eq(h, "entity"),
                None => false,
            };
            head && match &e[1] {
                Form::String(id) => uuid_text_parses(id.as_str()),
                _ => false,
            }
        },
        _ => false,
    }
}

fn is_property_name(f: &Form) -> (r: bool)
    ensures
        r == property_name(f@),
{
    match f {
        Form::Keyword(v) => v.as_str().unicode_len() > 0,
        Form::String(v) => v.as_str().unicode_len() > 0,
        _ => false,
    }
}

fn guard_value_message(f: &Form) -> (r: Result<(), String>)
    ensures
        message_outcome(r, guard_value_verdict(f@)),
{
    match f {
        Form::Bool(_) => Ok(()),
        Form::String(_) => Ok(()),
        Form::Number { literal, unit } => {
            let percent = match unit {
                Some(u) => str_eq(u.as_str(), "%"),
                None => false,
            };
            if percent && is_float_text(literal.as_str()) {
                Ok(())
            } else {
                Err("unsupported value in guard".to_owned())
            }
        },
        Form::List(items) => {
            let is_state = items.len() > 0 && match items[0].symbol() {
                Some(h) => str_eq(h, "state"),
                None => false,
            };
            if items.len() > 0 {
                assert(forms_view(items@)[0] == items@[0]@);
            }
            if !is_state {
                return Err("unsupported value in guard".to_owned());
            }
            if items.len() == 3 {
                assert(forms_view(items@)[1] == items@[1]@ && forms_view(items@)[2] == items@[2]@);
                if is_entity_reference(&items[1]) && is_property_name(&items[2]) {
                    return Ok(());
                }
            }
            Err("state requires a UUID entity reference and one property".to_owned())
        },
        _ => Err("unsupported value in guard".to_owned()),
    }
}

fn is_comparison_operator(h: &str) -> (r: bool)
    ensures
        r == comparison_operator(h@),
{
    str_eq(h, "=") || str_eq(h, "!=") || str_eq(h, "<") || str_eq(h, "<=") || str_eq(h, ">") || str_eq(h, ">=")
}

fn guard_form_message(f: &Form) -> (r: Result<(), String>)
    ensures
        message_outcome(r, guard_form_verdict(f@)),
    decreases f,
{
    let items = match f {
        Form::List(items) => items,
        _ => return Err("guard must be a boolean expression".to_owned()),
    };
    let ghost iv = forms_view(items@);
    assert(f@ == FormV::List(iv));
    let n = items.len();
    if n == 0 {
        return Err("guard form has no symbol".to_owned());
    }
    assert(iv[0] == items@[0]@);
    let h = match items[0].symbol() {
        Some(h) => h,
        None => return Err("guard form has no symbol".to_owned()),
    };
    if str_eq(h, "all") || str_eq(h, "any") {
        if n < 2 {
            return Err("all and any require at least one condition".to_owned());
        }
        assert(guard_form_verdict(f@) == conditions_verdict(iv, 1));
        let mut k: usize = 1;
        while k < n
            invariant
                1 <= k <= n,
                guard_form_verdict(f@) == conditions_verdict(iv, 1),
                n == items@.len(),
                iv == forms_view(items@),
                *f == Form::List(*items),
                conditions_verdict(iv, 1) == conditions_verdict(iv, k as int),
            decreases n - k,
        {
            proof {
                assert(decreases_to!(*f => f->List_0));
                assert(decreases_to!(f->List_0 => f->List_0@[k as int]));
            }
            assert(iv[k as int] == items@[k as int]@);
            match guard_form_message(&items[k]) {
                Err(m) => return Err(m),
                Ok(()) => {},
            }
            k = k + 1;
        }
        return Ok(());
    }
    if str_eq(h, "not") {
        if n != 2 {
            return Err("not requires exactly one condition".to_owned());
        }
        proof {
            assert(decreases_to!(*f => f->List_0));
            assert(decreases_to!(f->List_0 => f->List_0@[1]));
        }
        assert(iv[1] == items@[1]@);
        return guard_form_message(&items[1]);
    }
    if str_eq(h, "available?") || str_eq(h, "present?") {
        if n != 2 {
            return Err("available? and present? require exactly one value".to_owned());
        }
        assert(iv[1] == items@[1]@);
        return guard_value_message(&items[1]);
    }
    if is_comparison_operator(h) && n == 3 {
        assert(iv[1] == items@[1]@ && iv[2] == items@[2]@);
        match guard_value_message(&items[1]) {
            Err(m) => return Err(m),
            Ok(()) => {},
        }
        return guard_value_message(&items[2]);
    }
    let mut m = "unsupported guard form ".to_owned();
    append_str(&mut m, h);
    Err(m)
}

fn guard_refused(message: String) -> (r: Result<(), FlowError>)
    ensures
        guard_refusal(r, message@),
{
    let mut ds: Vec<CheckDiagnostic> = Vec::new();
    ds.push(CheckDiagnostic { code: "flow.guard_unsupported", message, path: "$/when".to_owned() });
    Err(FlowError::Validation(ds))
}

/// Checks the guard of a document: a `when` section holds exactly one
/// boolean form, made only of the forms and values a guard may hold.
pub fn validate_guard_syntax(ast: &FlowAst) -> (r: Result<(), FlowError>)
    ensures
        verdict_outcome(r, guard_verdict(ast.root@)),
{
    let forms = match ast.root.list() {
        Some(forms) => forms,
        None => return Ok(()),
    };
    let ghost fv = forms_view(forms@);
    assert(ast.root@ == FormV::List(fv));
    let i = match section_index(forms, "when") {
        Some(i) => i,
        None => return Ok(()),
    };
    assert(fv[i as int] == forms@[i as int]@);
    let items = match forms[i].list() {
        Some(items) => items,
        None => return guard_refused("when must be a list".to_owned()),
    };
    if items.len() != 2 {
        return guard_refused("when requires exactly one condition".to_owned());
    }
    assert(forms_view(items@)[1] == items@[1]@);
    match guard_form_message(&items[1]) {
        Ok(()) => Ok(()),
        Err(m) => guard_refused(m),
    }
}

} // verus!
