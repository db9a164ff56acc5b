//! What the use cases read in a Flow document: its name, how many commands
//! it holds, and whether an event starts it or resumes a run awaiting it.

use vstd::prelude::*;
use crate::flow_ast::{FlowAst, Form, FormV, forms_view, head_symbol, items_of, symbol_of};
use crate::flow_plan::{AwaitTrigger, AwaitTriggerV, triggers_view};
use crate::text::str_eq;

verus! {

/// The index of the first form of `forms`, from `k`, that is a list headed
/// by the symbol `name`.
pub open spec fn find_section(forms: Seq<FormV>, name: Seq<char>, k: int) -> Option<int>
    decreases forms.len() - k,
{
    if k < 0 || k >= forms.len() {
        None
    } else if head_symbol(forms[k]) == Some(name) {
        Some(k)
    } else {
        find_section(forms, name, k + 1)
    }
}

fn headed_by(form: &Form, name: &str) -> (r: bool)
    ensures
        r == (head_symbol(form@) == Some(name@)),
{
    match form.list() {
        Some(items) => {
            if items.len() == 0 {
                return false;
            }
            assert(forms_view(items@)[0] == items@[0]@);
            match items[0].symbol() {
                Some(s) => str_eq(s, name),
                None => false,
            }
        },
        None => false,
    }
}

/// The index of the first section of `forms` headed by `name`.
pub(crate) fn section_index(forms: &Vec<Form>, name: &str) -> (r: Option<usize>)
    ensures
        match r {
            Some(i) => i < forms@.len() && find_section(forms_view(forms@), name@, 0) == Some(i as int),
            None => find_section(forms_view(forms@), name@, 0) is None,
        },
{
    let ghost fv = forms_view(forms@);
    let mut k: usize = 0;
    while k < forms.len()
        invariant
            k <= forms@.len(),
            fv == forms_view(forms@),
            find_section(fv, name@, 0) == find_section(fv, name@, k as int),
        decreases forms@.len() - k,
    {
        assert(fv[k as int] == forms@[k as int]@);
        if headed_by(&forms[k], name) {
            return Some(k);
        }
        k = k + 1;
    }
    None
}

/// The first `:name "…"` pair of a `meta` section, from item `k`.
pub open spec fn name_pair(meta: Seq<FormV>, k: int) -> Option<Seq<char>>
    decreases meta.len() - k,
{
    if k < 0 || k + 1 >= meta.len() {
        None
    } else if meta[k] == FormV::Keyword("name"@) && meta[k + 1] is String {
        Some(meta[k + 1]->String_0)
    } else {
        name_pair(meta, k + 1)
    }
}

/// The name a Flow document gives itself in its `meta` section.
pub open spec fn spec_flow_name(root: FormV) -> Option<Seq<char>> {
    match items_of(root) {
        None => None,
        Some(forms) => match find_section(forms, "meta"@, 0) {
            None => None,
            Some(i) => match items_of(forms[i]) {
                Some(meta) => name_pair(meta, 0),
                None => None,
            },
        },
    }
}

/// The name a Flow document gives itself, if any.
pub fn flow_name(ast: &FlowAst) -> (r: Option<String>)
    ensures
        match r {
            Some(n) => spec_flow_name(ast.root@) == Some(n@),
            None => spec_flow_name(ast.root@) is None,
        },
{
    let forms = match ast.root.list() {
        Some(forms) => forms,
        None => return None,
    };
    let ghost fv = forms_view(forms@);
    assert(ast.root@ == FormV::List(fv));
    let i = match section_index(forms, "meta") {
        Some(i) => i,
        None => return None,
    };
    assert(fv[i as int] == forms@[i as int]@);
    let meta = match forms[i].list() {
        Some(meta) => meta,
        None => return None,
    };
    let ghost mv = forms_view(meta@);
    assert(spec_flow_name(ast.root@) == name_pair(mv, 0));
    let mut k: usize = 0;
    while meta.len() > 0 && k < meta.len() - 1
        invariant
            mv == forms_view(meta@),
            spec_flow_name(ast.root@) == name_pair(mv, 0),
            name_pair(mv, 0) == name_pair(mv, k as int),
        decreases meta@.len() - k,
    {
        assert(mv[k as int] == meta@[k as int]@);
        assert(mv[k + 1] == meta@[k + 1]@);
        let is_name_key = match &meta[k] {
            Form::Keyword(key) => str_eq(key.as_str(), "name"),
            _ => false,
        };
        if is_name_key {
            if let Form::String(value) = &meta[k + 1] {
                return Some(value.clone());
            }
        }
        k = k + 1;
    }
    None
}

/// How many lists headed by `symbol` a form holds, itself included.
pub open spec fn form_count(f: FormV, symbol: Seq<char>) -> nat
    decreases f, 1nat, 0nat,
{
    match f {
        FormV::List(items) => (if head_symbol(f) == Some(symbol) { 1nat } else { 0nat }) + items_count(
            items,
            symbol,
            0,
        ),
        _ => 0,
    }
}

/// How many lists headed by `symbol` the forms `items[k..]` hold.
pub open spec fn items_count(items: Seq<FormV>, symbol: Seq<char>, k: int) -> nat
    decreases items, 0nat, items.len() - k,
{
    if 0 <= k < items.len() {
        proof {
            assert(decreases_to!(items => items[k]));
        }
        form_count(items[k], symbol) + items_count(items, symbol, k + 1)
    } else {
        0
    }
}

/// Counts the lists headed by `symbol` in a form, itself included.
pub fn count_forms(form: &Form, symbol: &str) -> (r: usize)
    requires
        form_count(form@, symbol@) <= usize::MAX,
    ensures
        r == form_count(form@, symbol@),
    decreases form,
{
    match form {
        Form::List(items) => {
            let ghost iv = forms_view(items@);
            assert(form@ == FormV::List(iv));
            let own: usize = if headed_by(form, symbol) { 1 } else { 0 };
            let mut i: usize = items.len();
            let mut total: usize = 0;
            while i > 0
                invariant
                    i <= items@.len(),
                    *form == Form::List(*items),
                    iv == forms_view(items@),
                    total == items_count(iv, symbol@, i as int),
                    own + items_count(iv, symbol@, 0) <= usize::MAX,
                    form_count(form@, symbol@) == own + items_count(iv, symbol@, 0),
                decreases i,
            {
                i = i - 1;
                proof {
                    assert(decreases_to!(*form => form->List_0));
                    assert(decreases_to!(form->List_0 => form->List_0@[i as int]));
                    assert(iv[i as int] == items@[i as int]@);
                    lemma_items_count_prefix(iv, symbol@, 0, i as int);
                }
                let here = count_forms(&items[i], symbol);
                total = here + total;
            }
            own + total
        },
        _ => 0,
    }
}

/// The count from `k` covers the count from any later index.
proof fn lemma_items_count_prefix(items: Seq<FormV>, symbol: Seq<char>, k: int, j: int)
    requires
        0 <= k <= j < items.len(),
    ensures
        form_count(items[j], symbol) + items_count(items, symbol, j + 1) <= items_count(items, symbol, k),
    decreases j - k,
{
    if k < j {
        lemma_items_count_prefix(items, symbol, k + 1, j);
    }
}

/// Whether the trigger list `trigger` starts a Flow for an event of type
/// `event_type`: an `(event … :type "…" …)` form naming it, or an `any-of`
/// form one of whose lists does.
pub open spec fn event_trigger_form(trigger: Seq<FormV>, event_type: Seq<char>) -> bool
    decreases trigger, 1nat, 0nat,
{
    if trigger.len() > 0 && symbol_of(trigger[0]) == Some("any-of"@) {
        any_event_trigger(trigger, event_type, 1)
    } else if trigger.len() == 0 || symbol_of(trigger[0]) != Some("event"@) {
        false
    } else {
        exists|k: int|
            0 <= k < trigger.len() - 1 && #[trigger] trigger[k] == FormV::Keyword("type"@) && trigger[k + 1]
                == FormV::String(event_type)
    }
}

/// Whether one of the lists of `trigger[k..]` starts a Flow for the event.
pub open spec fn any_event_trigger(trigger: Seq<FormV>, event_type: Seq<char>, k: int) -> bool
    decreases trigger, 0nat, trigger.len() - k,
{
    if 0 <= k < trigger.len() {
        proof {
            assert(decreases_to!(trigger => trigger[k]));
        }
        match trigger[k] {
            FormV::List(items) => event_trigger_form(items, event_type) || any_event_trigger(
                trigger,
                event_type,
                k + 1,
            ),
            _ => any_event_trigger(trigger, event_type, k + 1),
        }
    } else {
        false
    }
}

/// The trigger list of a Flow document: the second item of its `on` section.
pub open spec fn trigger_list(root: FormV) -> Option<Seq<FormV>> {
    match items_of(root) {
        None => None,
        Some(forms) => match find_section(forms, "on"@, 0) {
            None => None,
            Some(i) => match items_of(forms[i]) {
                Some(on) => if on.len() > 1 {
                    items_of(on[1])
                } else {
                    None
                },
                None => None,
            },
        },
    }
}

fn event_form_matches(trigger: &Vec<Form>, event_type: &str) -> (r: bool)
    ensures
        r == event_trigger_form(forms_view(trigger@), event_type@),
    decreases trigger@,
{
    let ghost tv = forms_view(trigger@);
    let any_of = trigger.len() > 0 && match trigger[0].symbol() {
        Some(s) => str_eq(s, "any-of"),
        None => false,
    };
    if trigger.len() > 0 {
        assert(tv[0] == trigger@[0]@);
    }
    if any_of {
        let mut k: usize = trigger.len();
        let mut found = false;
        while k > 1
            invariant
                1 <= k <= trigger@.len(),
                tv == forms_view(trigger@),
                found == any_event_trigger(tv, event_type@, k as int),
            decreases k,
        {
            k = k - 1;
            assert(tv[k as int] == trigger@[k as int]@);
            let here = match trigger[k].list() {
                Some(items) => {
                    proof {
                        assert(decreases_to!(trigger@ => trigger@[k as int]));
                        assert(decreases_to!(trigger@[k as int] => trigger@[k as int]->List_0));
                        assert(decreases_to!(trigger@[k as int]->List_0 => trigger@[k as int]->List_0@));
                    }
                    event_form_matches(items, event_type)
                },
                None => false,
            };
            found = here || found;
        }
        return found;
    }
    let is_event = trigger.len() > 0 && match trigger[0].symbol() {
        Some(s) => str_eq(s, "event"),
        None => false,
    };
    if !is_event {
        return false;
    }
    names_event_type(trigger, event_type)
}

/// Whether a `:type` keyword of `trigger` is directly followed by the string
/// `event_type`.
fn names_event_type(trigger: &Vec<Form>, event_type: &str) -> (r: bool)
    ensures
        r == exists|k: int|
            0 <= k < forms_view(trigger@).len() - 1 && #[trigger] forms_view(trigger@)[k] == FormV::Keyword("type"@)
                && forms_view(trigger@)[k + 1] == FormV::String(event_type@),
{
    let ghost tv = forms_view(trigger@);
    let n = trigger.len();
    let mut k: usize = 0;
    while n > 0 && k < n - 1
        invariant
            tv == forms_view(trigger@),
            n == trigger@.len(),
            forall|j: int|
                0 <= j < k && j < n - 1 ==> !(#[trigger] tv[j] == FormV::Keyword("type"@) && tv[j + 1] == FormV::String(
                    event_type@,
                )),
        decreases n - k,
    {
        let key_is_type = match &trigger[k] {
            Form::Keyword(key) => str_eq(key.as_str(), "type"),
            _ => false,
        };
        let value_matches = match &trigger[k + 1] {
            Form::String(value) => str_eq(value.as_str(), event_type),
            _ => false,
        };
        assert(tv[k as int] == trigger@[k as int]@);
        assert(tv[k + 1] == trigger@[k + 1]@);
        if key_is_type && value_matches {
            return true;
        }
        k = k + 1;
    }
    false
}

/// Whether an event of type `event_type` starts the Flow `ast`.
pub fn event_trigger_matches(ast: &FlowAst, event_type: &str) -> (r: bool)
    ensures
        r == match trigger_list(ast.root@) {
            Some(trigger) => event_trigger_form(trigger, event_type@),
            None => false,
        },
{
    let forms = match ast.root.list() {
        Some(forms) => forms,
        None => return false,
    };
    let ghost fv = forms_view(forms@);
    assert(ast.root@ == FormV::List(fv));
    let i = match section_index(forms, "on") {
        Some(i) => i,
        None => return false,
    };
    assert(fv[i as int] == forms@[i as int]@);
    let on = match forms[i].list() {
        Some(on) => on,
        None => return false,
    };
    if on.len() < 2 {
        return false;
    }
    assert(forms_view(on@)[1] == on@[1]@);
    match on[1].list() {
        Some(trigger) => event_form_matches(trigger, event_type),
        None => false,
    }
}

/// Whether a run awaiting `trigger` resumes on an event of type `event_type`.
pub open spec fn await_matches_event(trigger: AwaitTriggerV, event_type: Seq<char>) -> bool
    decreases trigger, 1nat, 0nat,
{
    match trigger {
        AwaitTriggerV::AnyOf { triggers } => any_await_matches(triggers, event_type, 0),
        AwaitTriggerV::EventType { event_type: e } => e == event_type,
        _ => false,
    }
}

/// Whether one of `triggers[k..]` resumes on the event.
pub open spec fn any_await_matches(triggers: Seq<AwaitTriggerV>, event_type: Seq<char>, k: int) -> bool
    decreases triggers, 0nat, triggers.len() - k,
{
    if 0 <= k < triggers.len() {
        proof {
            assert(decreases_to!(triggers => triggers[k]));
        }
        await_matches_event(triggers[k], event_type) || any_await_matches(triggers, event_type, k + 1)
    } else {
        false
    }
}

/// Whether a run awaiting `trigger` resumes on an event of type `event_type`.
pub fn await_trigger_matches_event(trigger: &AwaitTrigger, event_type: &str) -> (r: bool)
    ensures
        r == await_matches_event(trigger@, event_type@),
    decreases trigger,
{
    match trigger {
        AwaitTrigger::AnyOf { triggers } => {
            let ghost tv = triggers_view(triggers@);
            let mut k: usize = triggers.len();
            let mut found = false;
            while k > 0
                invariant
                    k <= triggers@.len(),
                    *trigger == (AwaitTrigger::AnyOf { triggers: *triggers }),
                    tv == triggers_view(triggers@),
                    found == any_await_matches(tv, event_type@, k as int),
                decreases k,
            {
                k = k - 1;
                proof {
                    assert(decreases_to!(*trigger => trigger->AnyOf_triggers));
                    assert(decreases_to!(trigger->AnyOf_triggers => trigger->AnyOf_triggers@[k as int]));
                }
                assert(tv[k as int] == triggers@[k as int]@);
                let here = await_trigger_matches_event(&triggers[k], event_type);
                found = here || found;
            }
            found
        },
        AwaitTrigger::EventType { event_type: e } => str_eq(e.as_str(), event_type),
        _ => false,
    }
}

} // verus!
