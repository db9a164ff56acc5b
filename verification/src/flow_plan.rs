//! Compilation of a validated Flow document into a plan without side effects.

use vstd::prelude::*;
use crate::flow_ast::{ast_error_message, head_symbol, items_of, symbol_of, FlowAst, Form, FormV, forms_view};
use crate::text::{chars_of, str_eq};
use crate::format_laws::{digit_text, lemma_decimal_digits};
use crate::text::spec_decimal;

verus! {

/// The actions of a plan, in order.
#[derive(Debug, PartialEq)]
pub struct ExecutionPlan {
    pub actions: Vec<PlannedAction>,
}

/// A state value that an awaited change must reach. A percentage is kept as
/// the decimal text it was written with.
#[derive(Debug, PartialEq)]
pub enum AwaitValue {
    Bool(bool),
    Percentage(String),
    Text(String),
}

/// What a suspended run waits for.
#[derive(Debug, PartialEq)]
pub enum AwaitTrigger {
    CommandConfirmed { command_id: String },
    EventType { event_type: String },
    StateChanged { entity_id: String, property: String, to: Option<AwaitValue> },
    AnyOf { triggers: Vec<AwaitTrigger> },
}

/// Whether a command completes when it is dispatched, or only once its state
/// is reported, within a timeout.
#[derive(Clone, Copy, Debug, PartialEq, Eq, Structural)]
pub enum CommandConfirmation {
    Dispatched,
    Reported { timeout_milliseconds: u64 },
}

/// One step of a plan. A brightness is kept as the decimal text of its
/// percentage.
#[derive(Debug, PartialEq)]
pub enum PlannedAction {
    Command { entity_id: String, verb: String, brightness: Option<String>, confirmation: CommandConfirmation },
    SetAutomationEnabled { flow_id: String, enabled: bool },
    Wait { milliseconds: u64 },
    Await { trigger: AwaitTrigger, timeout_milliseconds: Option<u64> },
    Audit { message: String },
    Retry { action: Box<PlannedAction>, attempts: u8, backoff_milliseconds: u64 },
}

/// Why a document cannot be compiled.
#[derive(Debug, PartialEq)]
pub enum PlanError {
    InvalidFlow(String),
    MissingBody,
    UnsupportedAction,
    InvalidCommand,
    InvalidWait,
}

/// The value of an [`AwaitValue`].
pub enum AwaitValueV {
    Bool(bool),
    Percentage(Seq<char>),
    Text(Seq<char>),
}

/// The value of an [`AwaitTrigger`].
pub enum AwaitTriggerV {
    CommandConfirmed { command_id: Seq<char> },
    EventType { event_type: Seq<char> },
    StateChanged { entity_id: Seq<char>, property: Seq<char>, to: Option<AwaitValueV> },
    AnyOf { triggers: Seq<AwaitTriggerV> },
}

/// The value of a [`PlannedAction`].
pub enum PlannedActionV {
    Command { entity_id: Seq<char>, verb: Seq<char>, brightness: Option<Seq<char>>, confirmation: CommandConfirmation },
    SetAutomationEnabled { flow_id: Seq<char>, enabled: bool },
    Wait { milliseconds: u64 },
    Await { trigger: AwaitTriggerV, timeout_milliseconds: Option<u64> },
    Audit { message: Seq<char> },
    Retry { action: Box<PlannedActionV>, attempts: u8, backoff_milliseconds: u64 },
}

/// The value of a [`PlanError`].
pub enum PlanErrorV {
    InvalidFlow(Seq<char>),
    MissingBody,
    UnsupportedAction,
    InvalidCommand,
    InvalidWait,
}

/// The value of an awaited state value.
pub open spec fn await_value_view(v: AwaitValue) -> AwaitValueV {
    match v {
        AwaitValue::Bool(b) => AwaitValueV::Bool(b),
        AwaitValue::Percentage(p) => AwaitValueV::Percentage(p@),
        AwaitValue::Text(t) => AwaitValueV::Text(t@),
    }
}

/// The value of a trigger.
pub open spec fn trigger_view(t: AwaitTrigger) -> AwaitTriggerV
    decreases t, 1nat,
{
    match t {
        AwaitTrigger::CommandConfirmed { command_id } => AwaitTriggerV::CommandConfirmed { command_id: command_id@ },
        AwaitTrigger::EventType { event_type } => AwaitTriggerV::EventType { event_type: event_type@ },
        AwaitTrigger::StateChanged { entity_id, property, to } => AwaitTriggerV::StateChanged {
            entity_id: entity_id@,
            property: property@,
            to: match to {
                Some(v) => Some(await_value_view(v)),
                None => None,
            },
        },
        AwaitTrigger::AnyOf { triggers } => {
            proof {
                assert(decreases_to!(triggers => triggers@));
            }
            AwaitTriggerV::AnyOf { triggers: triggers_view(triggers@) }
        },
    }
}

/// The values of a sequence of triggers.
pub open spec fn triggers_view(ts: Seq<AwaitTrigger>) -> Seq<AwaitTriggerV>
    decreases ts, 0nat,
{
    Seq::new(ts.len(), |i: int| if 0 <= i < ts.len() { trigger_view(ts[i]) } else { AwaitTriggerV::AnyOf { triggers: Seq::empty() } })
}

impl View for AwaitTrigger {
    type V = AwaitTriggerV;

    open spec fn view(&self) -> AwaitTriggerV {
        trigger_view(*self)
    }
}

/// The value of a planned action.
pub open spec fn action_view(a: PlannedAction) -> PlannedActionV
    decreases a,
{
    match a {
        PlannedAction::Command { entity_id, verb, brightness, confirmation } => PlannedActionV::Command {
            entity_id: entity_id@,
            verb: verb@,
            brightness: match brightness {
                Some(b) => Some(b@),
                None => None,
            },
            confirmation,
        },
        PlannedAction::SetAutomationEnabled { flow_id, enabled } => PlannedActionV::SetAutomationEnabled {
            flow_id: flow_id@,
            enabled,
        },
        PlannedAction::Wait { milliseconds } => PlannedActionV::Wait { milliseconds },
        PlannedAction::Await { trigger, timeout_milliseconds } => PlannedActionV::Await {
            trigger: trigger@,
            timeout_milliseconds,
        },
        PlannedAction::Audit { message } => PlannedActionV::Audit { message: message@ },
        PlannedAction::Retry { action, attempts, backoff_milliseconds } => PlannedActionV::Retry {
            action: Box::new(action_view(*action)),
            attempts,
            backoff_milliseconds,
        },
    }
}

impl View for PlannedAction {
    type V = PlannedActionV;

    open spec fn view(&self) -> PlannedActionV {
        action_view(*self)
    }
}

impl View for PlanError {
    type V = PlanErrorV;

    open spec fn view(&self) -> PlanErrorV {
        match self {
            PlanError::InvalidFlow(s) => PlanErrorV::InvalidFlow(s@),
            PlanError::MissingBody => PlanErrorV::MissingBody,
            PlanError::UnsupportedAction => PlanErrorV::UnsupportedAction,
            PlanError::InvalidCommand => PlanErrorV::InvalidCommand,
            PlanError::InvalidWait => PlanErrorV::InvalidWait,
        }
    }
}

impl AwaitTrigger {
    /// A copy of this trigger.
    pub fn duplicate(&self) -> (r: AwaitTrigger)
        ensures
            r@ == self@,
        decreases self,
    {
        match self {
            AwaitTrigger::CommandConfirmed { command_id } => AwaitTrigger::CommandConfirmed {
                command_id: command_id.clone(),
            },
            AwaitTrigger::EventType { event_type } => AwaitTrigger::EventType { event_type: event_type.clone() },
            AwaitTrigger::StateChanged { entity_id, property, to } => AwaitTrigger::StateChanged {
                entity_id: entity_id.clone(),
                property: property.clone(),
                to: match to {
                    Some(AwaitValue::Bool(b)) => Some(AwaitValue::Bool(*b)),
                    Some(AwaitValue::Percentage(p)) => Some(AwaitValue::Percentage(p.clone())),
                    Some(AwaitValue::Text(t)) => Some(AwaitValue::Text(t.clone())),
                    None => None,
                },
            },
            AwaitTrigger::AnyOf { triggers } => {
                let mut out: Vec<AwaitTrigger> = Vec::new();
                let mut i: usize = 0;
                while i < triggers.len()
                    invariant
                        i <= triggers@.len(),
                        *self == (AwaitTrigger::AnyOf { triggers: *triggers }),
                        out@.len() == i,
                        forall|j: int| 0 <= j < i ==> out@[j]@ == triggers@[j]@,
                    decreases triggers@.len() - i,
                {
                    proof {
                        assert(decreases_to!(*self => self->AnyOf_triggers));
                        assert(decreases_to!(self->AnyOf_triggers => self->AnyOf_triggers@[i as int]));
                    }
                    let t = triggers[i].duplicate();
                    out.push(t);
                    i = i + 1;
                }
                let r = AwaitTrigger::AnyOf { triggers: out };
                assert(triggers_view(out@) =~= triggers_view(triggers@));
                r
            },
        }
    }
}

/// The values of a sequence of actions.
pub open spec fn actions_view(v: Seq<PlannedAction>) -> Seq<PlannedActionV> {
    Seq::new(v.len(), |i: int| v[i]@)
}

/// The value of the decimal digits `s`, as `u64::from_str` reads them (an
/// optional `+`, then at least one ASCII digit), when it fits in a `u64`.
pub open spec fn spec_parse_u64(s: Seq<char>) -> Option<u64> {
    let body = if s.len() > 0 && s[0] == '+' { s.drop_first() } else { s };
    if body.len() == 0 {
        None
    } else {
        match digits_value(body) {
            Some(v) => if v <= u64::MAX { Some(v as u64) } else { None },
            None => None,
        }
    }
}

/// The value of a sequence of ASCII digits, if they all are digits.
pub open spec fn digits_value(s: Seq<char>) -> Option<nat>
    decreases s.len(),
{
    if s.len() == 0 {
        Some(0)
    } else if '0' <= s.last() <= '9' {
        match digits_value(s.drop_last()) {
            Some(v) => Some(v * 10 + (s.last() as u32 - '0' as u32) as nat),
            None => None,
        }
    } else {
        None
    }
}

/// A prefix of a decimal numeral is a numeral of no greater value.
pub proof fn lemma_digits_value_monotone(s: Seq<char>, k: int)
    requires
        0 <= k <= s.len(),
        digits_value(s) is Some,
    ensures
        digits_value(s.take(k)) is Some,
        digits_value(s.take(k))->0 <= digits_value(s)->0,
    decreases s.len() - k,
{
    if k < s.len() {
        assert(s.drop_last().take(k) =~= s.take(k));
        if k < s.len() - 1 {
            lemma_digits_value_monotone(s.drop_last(), k);
        } else {
            assert(s.take(k) =~= s.drop_last());
        }
    } else {
        assert(s.take(k) =~= s);
    }
}

/// A sequence holding a non-digit has no decimal value.
pub proof fn lemma_digits_value_none(s: Seq<char>, k: int)
    requires
        0 <= k < s.len(),
        !('0' <= s[k] <= '9'),
    ensures
        digits_value(s) is None,
    decreases s.len(),
{
    if k < s.len() - 1 {
        assert(s.drop_last()[k] == s[k]);
        lemma_digits_value_none(s.drop_last(), k);
    }
}

/// Reads a decimal `u64` as `str::parse::<u64>` does.
pub fn parse_u64(text: &str) -> (r: Option<u64>)
    ensures
        r == spec_parse_u64(text@),
{
    let cs = chars_of(text);
    let skip: usize = if cs.len() > 0 && cs[0] == '+' { 1 } else { 0 };
    let ghost body = if text@.len() > 0 && text@[0] == '+' { text@.drop_first() } else { text@ };
    assert(body =~= cs@.subrange(skip as int, cs@.len() as int));
    if cs.len() == skip {
        return None;
    }
    let mut v: u64 = 0;
    let mut i = skip;
    while i < cs.len()
        invariant
            skip <= i <= cs@.len(),
            cs@ == text@,
            body =~= cs@.subrange(skip as int, cs@.len() as int),
            body == (if text@.len() > 0 && text@[0] == '+' { text@.drop_first() } else { text@ }),
            body.len() > 0,
            digits_value(cs@.subrange(skip as int, i as int)) == Some(v as nat),
        decreases cs@.len() - i,
    {
        let c = cs[i];
        let ghost prefix = cs@.subrange(skip as int, i + 1);
        assert(prefix.drop_last() =~= cs@.subrange(skip as int, i as int));
        assert(body[i - skip] == c);
        if !('0' <= c && c <= '9') {
            proof {
                lemma_digits_value_none(body, i - skip);
            }
            return None;
        }
        let d = (c as u32 - '0' as u32) as u64;
        if v > (u64::MAX - d) / 10 {
            proof {
                assert(body.take(i - skip + 1) =~= prefix);
                if digits_value(body) is Some {
                    lemma_digits_value_monotone(body, i - skip + 1);
                }
            }
            return None;
        }
        v = v * 10 + d;
        i = i + 1;
    }
    assert(cs@.subrange(skip as int, cs@.len() as int) =~= body);
    Some(v)
}

/// The item at index `i` of a list value.
pub open spec fn item(items: Seq<FormV>, i: int) -> Option<FormV> {
    if 0 <= i < items.len() { Some(items[i]) } else { None }
}

/// The action that a body form denotes: `(command (entity "id") :verb)`,
/// `(wait <n>ms)` or `(audit <any> "message")`.
pub open spec fn spec_compile_action(f: FormV) -> Result<PlannedActionV, PlanErrorV> {
    match f {
        FormV::List(items) => {
            let head = head_symbol(f);
            if head == Some("command"@) {
                let entity = match item(items, 1) {
                    Some(FormV::List(e)) => match item(e, 1) {
                        Some(FormV::String(v)) => Some(v),
                        _ => None,
                    },
                    _ => None,
                };
                let verb = match item(items, 2) {
                    Some(FormV::Keyword(v)) => Some(v),
                    _ => None,
                };
                match (entity, verb) {
                    (Some(e), Some(v)) => Ok(
                        PlannedActionV::Command {
                            entity_id: e,
                            verb: v,
                            brightness: None,
                            confirmation: CommandConfirmation::Dispatched,
                        },
                    ),
                    _ => Err(PlanErrorV::InvalidCommand),
                }
            } else if head == Some("wait"@) {
                match item(items, 1) {
                    Some(FormV::Number { literal, unit: Some(u) }) => if u == "ms"@ {
                        match spec_parse_u64(literal) {
                            Some(ms) => Ok(PlannedActionV::Wait { milliseconds: ms }),
                            None => Err(PlanErrorV::InvalidWait),
                        }
                    } else {
                        Err(PlanErrorV::InvalidWait)
                    },
                    _ => Err(PlanErrorV::InvalidWait),
                }
            } else if head == Some("audit"@) {
                match item(items, 2) {
                    Some(FormV::String(m)) => Ok(PlannedActionV::Audit { message: m }),
                    _ => Err(PlanErrorV::UnsupportedAction),
                }
            } else {
                Err(PlanErrorV::UnsupportedAction)
            }
        },
        _ => Err(PlanErrorV::UnsupportedAction),
    }
}

/// The actions of `body[k..]` after the actions `acc`, or the first error.
pub open spec fn compile_actions(body: Seq<FormV>, k: int, acc: Seq<PlannedActionV>) -> Result<
    Seq<PlannedActionV>,
    PlanErrorV,
>
    decreases body.len() - k,
{
    if k < 0 || k >= body.len() {
        Ok(acc)
    } else {
        match spec_compile_action(body[k]) {
            Ok(a) => compile_actions(body, k + 1, acc.push(a)),
            Err(e) => Err(e),
        }
    }
}

/// The index of the first root form that is a list headed by `do`, from `k`.
pub open spec fn find_body(forms: Seq<FormV>, k: int) -> Option<int>
    decreases forms.len() - k,
{
    if k < 0 || k >= forms.len() {
        None
    } else if head_symbol(forms[k]) == Some("do"@) {
        Some(k)
    } else {
        find_body(forms, k + 1)
    }
}

/// What `compile` answers: the actions of the `do` section, in order.
pub open spec fn spec_compile(ast: FlowAst) -> Result<Seq<PlannedActionV>, PlanErrorV> {
    match ast.spec_validate() {
        Err(e) => Err(PlanErrorV::InvalidFlow(ast_error_message(e))),
        Ok(()) => match items_of(ast.root@) {
            None => Err(PlanErrorV::MissingBody),
            Some(forms) => match find_body(forms, 0) {
                None => Err(PlanErrorV::MissingBody),
                Some(b) => compile_actions(items_of(forms[b])->0, 1, Seq::empty()),
            },
        },
    }
}

fn head_is(items: &Vec<Form>, name: &str) -> (r: bool)
    ensures
        r == (head_symbol(FormV::List(forms_view(items@))) == Some(name@)),
{
    if items.len() == 0 {
        return false;
    }
    assert(forms_view(items@)[0] == items@[0]@);
    match items[0].symbol() {
        Some(s) => str_eq(s, name),
        None => false,
    }
}

fn compile_action(form: &Form) -> (r: Result<PlannedAction, PlanError>)
    ensures
        r matches Ok(a) ==> spec_compile_action(form@) == Ok::<PlannedActionV, PlanErrorV>(a@),
        r matches Err(e) ==> spec_compile_action(form@) == Err::<PlannedActionV, PlanErrorV>(e@),
{
    let items = match form.list() {
        Some(items) => items,
        None => return Err(PlanError::UnsupportedAction),
    };
    let ghost iv = forms_view(items@);
    assert(form@ == FormV::List(iv));
    if head_is(items, "command") {
        let entity = if items.len() > 1 {
            assert(iv[1] == items@[1]@);
            match &items[1] {
                Form::List(e) => {
                    if e.len() > 1 {
                        assert(forms_view(e@)[1] == e@[1]@);
                        match &e[1] {
                            Form::String(v) => Some(v.clone()),
                            _ => None,
                        }
                    } else {
                        None
                    }
                },
                _ => None,
            }
        } else {
            None
        };
        let verb = if items.len() > 2 {
            assert(iv[2] == items@[2]@);
            match &items[2] {
                Form::Keyword(v) => Some(v.clone()),
                _ => None,
            }
        } else {
            None
        };
        match (entity, verb) {
            (Some(entity_id), Some(verb)) => Ok(
                PlannedAction::Command {
                    entity_id,
                    verb,
                    brightness: None,
                    confirmation: CommandConfirmation::Dispatched,
                },
            ),
            _ => Err(PlanError::InvalidCommand),
        }
    } else if head_is(items, "wait") {
        if items.len() > 1 {
            assert(iv[1] == items@[1]@);
            match &items[1] {
                Form::Number { literal, unit: Some(u) } => {
                    if str_eq(u.as_str(), "ms") {
                        match parse_u64(literal.as_str()) {
                            Some(ms) => Ok(PlannedAction::Wait { milliseconds: ms }),
                            None => Err(PlanError::InvalidWait),
                        }
                    } else {
                        Err(PlanError::InvalidWait)
                    }
                },
                _ => Err(PlanError::InvalidWait),
            }
        } else {
            Err(PlanError::InvalidWait)
        }
    } else if head_is(items, "audit") {
        if items.len() > 2 {
            assert(iv[2] == items@[2]@);
            match &items[2] {
                Form::String(m) => Ok(PlannedAction::Audit { message: m.clone() }),
                _ => Err(PlanError::UnsupportedAction),
            }
        } else {
            Err(PlanError::UnsupportedAction)
        }
    } else {
        Err(PlanError::UnsupportedAction)
    }
}

fn is_do_section(form: &Form) -> (r: bool)
    ensures
        r == (head_symbol(form@) == Some("do"@)),
{
    match form.list() {
        Some(items) => head_is(items, "do"),
        None => false,
    }
}

/// Compiles the `do` section of a valid Flow document into a plan.
pub fn compile(ast: &FlowAst) -> (r: Result<ExecutionPlan, PlanError>)
    ensures
        r matches Ok(plan) ==> spec_compile(*ast) == Ok::<Seq<PlannedActionV>, PlanErrorV>(
            actions_view(plan.actions@),
        ),
        r matches Err(e) ==> spec_compile(*ast) == Err::<Seq<PlannedActionV>, PlanErrorV>(e@),
{
    match ast.validate() {
        Err(e) => {
            return Err(PlanError::InvalidFlow(e.message()));
        },
        Ok(()) => {},
    }
    let forms = match ast.root.list() {
        Some(forms) => forms,
        None => return Err(PlanError::MissingBody),
    };
    let ghost fv = forms_view(forms@);
    assert(ast.root@ == FormV::List(fv));
    assert(spec_compile(*ast) == match find_body(fv, 0) {
        None => Err(PlanErrorV::MissingBody),
        Some(b) => compile_actions(items_of(fv[b])->0, 1, Seq::empty()),
    });
    let mut b: usize = 0;
    while b < forms.len() && !is_do_section(&forms[b])
        invariant
            b <= forms@.len(),
            fv == forms_view(forms@),
            find_body(fv, 0) == find_body(fv, b as int),
        decreases forms@.len() - b,
    {
        assert(fv[b as int] == forms@[b as int]@);
        b = b + 1;
    }
    if b >= forms.len() {
        return Err(PlanError::MissingBody);
    }
    assert(fv[b as int] == forms@[b as int]@);
    assert(find_body(fv, b as int) == Some(b as int));
    let body = match forms[b].list() {
        Some(body) => body,
        None => return Err(PlanError::MissingBody),
    };
    let ghost bv = forms_view(body@);
    assert(items_of(fv[b as int])->0 == bv);
    assert(spec_compile(*ast) == compile_actions(bv, 1, Seq::empty()));
    let mut actions: Vec<PlannedAction> = Vec::new();
    let mut k: usize = 1;
    assert(actions_view(actions@) =~= Seq::<PlannedActionV>::empty());
    while k < body.len()
        invariant
            1 <= k,
            k <= body@.len() || body@.len() == 0,
            bv == forms_view(body@),
            spec_compile(*ast) == compile_actions(bv, 1, Seq::empty()),
            compile_actions(bv, 1, Seq::empty()) == compile_actions(
                bv,
                k as int,
                actions_view(actions@),
            ),
        decreases body@.len() - k,
    {
        assert(bv[k as int] == body@[k as int]@);
        let a = match compile_action(&body[k]) {
            Ok(a) => a,
            Err(e) => return Err(e),
        };
        let ghost before = actions@;
        actions.push(a);
        assert(actions_view(actions@) =~= actions_view(before).push(a@));
        k = k + 1;
    }
    Ok(ExecutionPlan { actions })
}

proof fn lemma_compile_actions_order(body: Seq<FormV>, k: int, acc: Seq<PlannedActionV>)
    requires
        0 <= k <= body.len(),
        compile_actions(body, k, acc) is Ok,
    ensures
        compile_actions(body, k, acc)->Ok_0.len() == acc.len() + body.len() - k,
        forall|i: int|
            0 <= i < acc.len() ==> #[trigger] compile_actions(body, k, acc)->Ok_0[i] == acc[i],
        forall|j: int|
            k <= j < body.len() ==> spec_compile_action(body[j]) == Ok::<PlannedActionV, PlanErrorV>(
                #[trigger] compile_actions(body, k, acc)->Ok_0[acc.len() + j - k],
            ),
    decreases body.len() - k,
{
    if k < body.len() {
        let a = spec_compile_action(body[k])->Ok_0;
        lemma_compile_actions_order(body, k + 1, acc.push(a));
        let r = compile_actions(body, k, acc)->Ok_0;
        assert forall|i: int| 0 <= i < acc.len() implies #[trigger] r[i] == acc[i] by {
            assert(acc.push(a)[i] == acc[i]);
        }
        assert forall|j: int| k <= j < body.len() implies spec_compile_action(body[j]) == Ok::<
            PlannedActionV,
            PlanErrorV,
        >(#[trigger] r[acc.len() + j - k]) by {
            if j == k {
                assert(r[acc.len() as int] == acc.push(a)[acc.len() as int]);
            } else {
                assert(acc.len() + j - k == acc.push(a).len() + j - (k + 1));
            }
        }
    }
}

/// A plan keeps the order of its document: it has one action per form of
/// the `do` section after its head, and action `i` is the compilation of
/// form `i + 1`.
pub proof fn lemma_plan_keeps_document_order(ast: FlowAst)
    requires
        spec_compile(ast) is Ok,
    ensures
        ({
            let forms = items_of(ast.root@)->0;
            let body = items_of(forms[find_body(forms, 0)->0])->0;
            let actions = spec_compile(ast)->Ok_0;
            &&& body.len() >= 1
            &&& actions.len() == body.len() - 1
            &&& forall|i: int|
                0 <= i < actions.len() ==> spec_compile_action(body[i + 1]) == Ok::<PlannedActionV, PlanErrorV>(
                    #[trigger] actions[i],
                )
        }),
{
    let forms = items_of(ast.root@)->0;
    let b = find_body(forms, 0)->0;
    lemma_find_body_is_do(forms, 0);
    let body = items_of(forms[b])->0;
    assert(body.len() >= 1);
    lemma_compile_actions_order(body, 1, Seq::empty());
    let actions = spec_compile(ast)->Ok_0;
    assert forall|i: int| 0 <= i < actions.len() implies spec_compile_action(body[i + 1]) == Ok::<
        PlannedActionV,
        PlanErrorV,
    >(#[trigger] actions[i]) by {
        assert(0 + (i + 1) - 1 == i);
    }
}

proof fn lemma_find_body_is_do(forms: Seq<FormV>, k: int)
    requires
        0 <= k,
        find_body(forms, k) is Some,
    ensures
        k <= find_body(forms, k)->0 < forms.len(),
        head_symbol(forms[find_body(forms, k)->0]) == Some("do"@),
        items_of(forms[find_body(forms, k)->0]) is Some,
        items_of(forms[find_body(forms, k)->0])->0.len() >= 1,
    decreases forms.len() - k,
{
    if k < forms.len() && head_symbol(forms[k]) != Some("do"@) {
        lemma_find_body_is_do(forms, k + 1);
    }
}

/// Each kind of body form compiles to the action it writes: a command on an
/// entity with a verb is that dispatched command on that entity with that
/// verb and no brightness; a wait of `n` milliseconds written in decimal is a
/// wait of `n` milliseconds; an audit with a message is an audit of that
/// message.
pub proof fn lemma_body_forms_compile(entity_id: Seq<char>, verb: Seq<char>, n: u64, tag: FormV, message: Seq<char>)
    ensures
        spec_compile_action(
            FormV::List(
                seq![
                    FormV::Symbol("command"@),
                    FormV::List(seq![FormV::Symbol("entity"@), FormV::String(entity_id)]),
                    FormV::Keyword(verb),
                ],
            ),
        ) == Ok::<PlannedActionV, PlanErrorV>(
            PlannedActionV::Command {
                entity_id,
                verb,
                brightness: None,
                confirmation: CommandConfirmation::Dispatched,
            },
        ),
        spec_compile_action(
            FormV::List(
                seq![
                    FormV::Symbol("wait"@),
                    FormV::Number { literal: spec_decimal(n as nat), unit: Some("ms"@) },
                ],
            ),
        ) == Ok::<PlannedActionV, PlanErrorV>(PlannedActionV::Wait { milliseconds: n }),
        spec_compile_action(
            FormV::List(seq![FormV::Symbol("audit"@), tag, FormV::String(message)]),
        ) == Ok::<PlannedActionV, PlanErrorV>(PlannedActionV::Audit { message }),
{
    reveal_strlit("command");
    reveal_strlit("wait");
    reveal_strlit("audit");
    assert("wait"@[0] != "command"@[0]);
    assert("audit"@[0] != "command"@[0]);
    assert("audit"@[0] != "wait"@[0]);
    let text = spec_decimal(n as nat);
    lemma_decimal_digits(n as nat);
    assert(digit_text(text));
    assert('0' <= text[0] <= '9');
    assert(text[0] != '+');
    assert(spec_parse_u64(text) == Some(n));
}

} // verus!
