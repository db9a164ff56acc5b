//! Structural and semantic checks of Robine Flow documents, without I/O.

use vstd::prelude::*;
use crate::flow_ast::{ast_error_message, head_symbol, FlowAst, Form, FormV, forms_view};
use crate::text::{append_str, push_char, push_decimal, spec_decimal, str_eq};

verus! {

/// The capabilities that the home knows of each entity. Hosts implement it
/// for their registry.
pub trait CapabilityCatalog {
    /// The capability keys of an entity, or `None` when the entity is unknown.
    spec fn spec_capabilities_for(&self, entity_id: Seq<char>) -> Option<Set<Seq<char>>>;

    /// The capability keys of an entity, or `None` when the entity is unknown.
    fn capabilities_for(&self, entity_id: &str) -> (r: Option<Vec<String>>)
        ensures
            r matches Some(v) ==> self.spec_capabilities_for(entity_id@) == Some(
                strings_set(v@),
            ),
            r is None ==> self.spec_capabilities_for(entity_id@) is None,
    ;
}

/// The set of the values of some strings.
pub open spec fn strings_set(v: Seq<String>) -> Set<Seq<char>> {
    Set::new(|s: Seq<char>| exists|i: int| 0 <= i < v.len() && v[i]@ == s)
}

/// A catalog held as a list of entities with their capability keys.
pub struct MapCatalog {
    pub entries: Vec<(String, Vec<String>)>,
}

/// The capabilities of the first entry named `id` among `entries[k..]`.
pub open spec fn catalog_lookup(entries: Seq<(String, Vec<String>)>, id: Seq<char>, k: int) -> Option<
    Set<Seq<char>>,
>
    decreases entries.len() - k,
{
    if k < 0 || k >= entries.len() {
        None
    } else if entries[k].0@ == id {
        Some(strings_set(entries[k].1@))
    } else {
        catalog_lookup(entries, id, k + 1)
    }
}

fn clone_strings(v: &Vec<String>) -> (r: Vec<String>)
    ensures
        r@ == v@,
{
    let mut r: Vec<String> = Vec::new();
    let mut i: usize = 0;
    while i < v.len()
        invariant
            i <= v@.len(),
            r@ == v@.take(i as int),
        decreases v@.len() - i,
    {
        r.push(v[i].clone());
        i = i + 1;
        assert(r@ =~= v@.take(i as int));
    }
    assert(v@.take(v@.len() as int) =~= v@);
    r
}

impl CapabilityCatalog for MapCatalog {
    open spec fn spec_capabilities_for(&self, entity_id: Seq<char>) -> Option<Set<Seq<char>>> {
        catalog_lookup(self.entries@, entity_id, 0)
    }

    fn capabilities_for(&self, entity_id: &str) -> (r: Option<Vec<String>>) {
        let mut k: usize = 0;
        while k < self.entries.len()
            invariant
                k <= self.entries@.len(),
                catalog_lookup(self.entries@, entity_id@, 0) == catalog_lookup(
                    self.entries@,
                    entity_id@,
                    k as int,
                ),
            decreases self.entries@.len() - k,
        {
            if str_eq(self.entries[k].0.as_str(), entity_id) {
                return Some(clone_strings(&self.entries[k].1));
            }
            k = k + 1;
        }
        None
    }
}

/// A finding of the checker: a stable code, a message and the path of the
/// form it is about (`$` for the root, `/index` for each step down).
#[derive(Debug, PartialEq, Eq)]
pub struct CheckDiagnostic {
    pub code: &'static str,
    pub message: String,
    pub path: String,
}

/// The value of a [`CheckDiagnostic`].
pub struct CheckDiagV {
    pub code: Seq<char>,
    pub message: Seq<char>,
    pub path: Seq<char>,
}

impl View for CheckDiagnostic {
    type V = CheckDiagV;

    open spec fn view(&self) -> CheckDiagV {
        CheckDiagV { code: self.code@, message: self.message@, path: self.path@ }
    }
}

/// The values of a sequence of findings.
pub open spec fn check_diags_view(ds: Seq<CheckDiagnostic>) -> Seq<CheckDiagV> {
    Seq::new(ds.len(), |i: int| ds[i]@)
}

/// A finding value.
pub open spec fn cd(code: Seq<char>, message: Seq<char>, path: Seq<char>) -> CheckDiagV {
    CheckDiagV { code, message, path }
}

/// The entity that a form designates: `(entity "id")`.
pub open spec fn entity_ref(f: FormV) -> Option<Seq<char>> {
    match f {
        FormV::List(items) => if head_symbol(f) == Some("entity"@) && items.len() > 1 {
            match items[1] {
                FormV::String(v) => Some(v),
                _ => None,
            }
        } else {
            None
        },
        _ => None,
    }
}

/// Whether a form is a number written in percent.
pub open spec fn is_percentage(f: FormV) -> bool {
    match f {
        FormV::Number { unit, .. } => unit == Some("%"@),
        _ => false,
    }
}

/// The findings on the `key value` pairs of a command, from index `index`.
pub open spec fn option_findings(
    items: Seq<FormV>,
    index: int,
    caps: Set<Seq<char>>,
    path: Seq<char>,
) -> Seq<CheckDiagV>
    decreases items.len() - index,
{
    if index < 0 || index + 1 >= items.len() {
        Seq::empty()
    } else {
        let here = if items[index] == FormV::Keyword("brightness"@) {
            (if !caps.contains("light.brightness"@) {
                seq![
                    cd(
                        "flow.command_unsupported"@,
                        "entity does not support light.brightness"@,
                        path,
                    ),
                ]
            } else {
                Seq::empty()
            }) + (if !is_percentage(items[index + 1]) {
                seq![cd("flow.brightness_unit"@, "brightness must use a percentage"@, path)]
            } else {
                Seq::empty()
            })
        } else {
            Seq::empty()
        };
        here + option_findings(items, index + 2, caps, path)
    }
}

/// The findings on a `command` form: its target must be a known entity, its
/// verb a supported one that the entity can perform, and a brightness must be
/// a supported percentage.
pub open spec fn command_findings<C: CapabilityCatalog>(
    items: Seq<FormV>,
    path: Seq<char>,
    catalog: C,
) -> Seq<CheckDiagV> {
    let target = if items.len() > 1 { entity_ref(items[1]) } else { None };
    match target {
        None => seq![
            cd(
                "flow.command_target"@,
                "command requires an explicit entity reference"@,
                path,
            ),
        ],
        Some(id) => match catalog.spec_capabilities_for(id) {
            None => seq![cd("flow.unknown_entity"@, "referenced entity does not exist"@, path)],
            Some(caps) => {
                let supported = items.len() > 2 && (items[2] == FormV::Keyword("turn-on"@)
                    || items[2] == FormV::Keyword("turn-off"@));
                let verb = if supported {
                    if !caps.contains("switch"@) {
                        seq![
                            cd(
                                "flow.command_unsupported"@,
                                "entity does not support switch"@,
                                path,
                            ),
                        ]
                    } else {
                        Seq::empty()
                    }
                } else {
                    seq![cd("flow.command_verb"@, "unsupported command verb"@, path)]
                };
                verb + option_findings(items, 3, caps, path)
            },
        },
    }
}

/// Whether a head symbol is one of the comparisons `<`, `<=`, `>`, `>=`.
pub open spec fn is_comparison(head: Option<Seq<char>>) -> bool {
    head == Some("<"@) || head == Some("<="@) || head == Some(">"@) || head == Some(">="@)
}

/// The findings on a comparison: two operands, and numbers in the same unit.
pub open spec fn comparison_findings(items: Seq<FormV>, path: Seq<char>) -> Seq<CheckDiagV> {
    if items.len() != 3 {
        seq![cd("flow.comparison_arity"@, "comparison requires exactly two operands"@, path)]
    } else {
        match (items[1], items[2]) {
            (FormV::Number { unit: left, .. }, FormV::Number { unit: right, .. }) => if left
                != right {
                seq![
                    cd(
                        "flow.unit_mismatch"@,
                        "comparison operands require compatible units"@,
                        path,
                    ),
                ]
            } else {
                Seq::empty()
            },
            _ => Seq::empty(),
        }
    }
}

/// The path of the child at `index` of the form at `path`.
pub open spec fn child_path(path: Seq<char>, index: nat) -> Seq<char> {
    path + seq!['/'] + spec_decimal(index)
}

/// The findings on a form at `path` and on all the forms inside it, in
/// depth-first order: a list's own findings come before its children's.
pub open spec fn visit_findings<C: CapabilityCatalog>(f: FormV, path: Seq<char>, catalog: C) -> Seq<
    CheckDiagV,
>
    decreases f, 0nat,
{
    match f {
        FormV::List(items) => {
            let head = head_symbol(f);
            (if head == Some("command"@) {
                command_findings(items, path, catalog)
            } else {
                Seq::empty()
            }) + (if is_comparison(head) {
                comparison_findings(items, path)
            } else {
                Seq::empty()
            }) + children_findings(items, 0, path, catalog)
        },
        _ => Seq::empty(),
    }
}

/// The findings on `items[k..]`.
pub open spec fn children_findings<C: CapabilityCatalog>(
    items: Seq<FormV>,
    k: int,
    path: Seq<char>,
    catalog: C,
) -> Seq<CheckDiagV>
    decreases items, items.len() - k,
{
    if k < 0 || k >= items.len() {
        Seq::empty()
    } else {
        visit_findings(items[k], child_path(path, k as nat), catalog) + children_findings(
            items,
            k + 1,
            path,
            catalog,
        )
    }
}

/// What `validate` answers: the root error if the document is not valid,
/// else every finding of the document.
pub open spec fn spec_check<C: CapabilityCatalog>(ast: FlowAst, catalog: C) -> Seq<CheckDiagV> {
    match ast.spec_validate() {
        Err(e) => seq![cd("flow.root"@, ast_error_message(e), "$"@)],
        Ok(()) => visit_findings(ast.root@, "$"@, catalog),
    }
}

fn push_finding(
    diagnostics: &mut Vec<CheckDiagnostic>,
    code: &'static str,
    message: &str,
    path: &String,
)
    ensures
        check_diags_view(final(diagnostics)@) == check_diags_view(old(diagnostics)@).push(
            cd(code@, message@, path@),
        ),
{
    diagnostics.push(CheckDiagnostic { code, message: message.to_owned(), path: path.clone() });
    assert(check_diags_view(final(diagnostics)@) =~= check_diags_view(old(diagnostics)@).push(
        cd(code@, message@, path@),
    ));
}

fn entity_ref_exec(f: &Form) -> (r: Option<&String>)
    ensures
        r matches Some(s) ==> entity_ref(f@) == Some(s@),
        r is None ==> entity_ref(f@) is None,
{
    let items = match f.list() {
        Some(items) => items,
        None => return None,
    };
    let ghost iv = forms_view(items@);
    assert(f@ == FormV::List(iv));
    if items.len() < 2 {
        return None;
    }
    assert(iv[0] == items@[0]@);
    assert(iv[1] == items@[1]@);
    match items[0].symbol() {
        Some(s) => {
            if !str_eq(s, "entity") {
                return None;
            }
        },
        None => return None,
    }
    match &items[1] {
        Form::String(v) => Some(v),
        _ => None,
    }
}

fn contains_string(v: &Vec<String>, s: &str) -> (r: bool)
    ensures
        r == strings_set(v@).contains(s@),
{
    let mut i: usize = 0;
    while i < v.len()
        invariant
            i <= v@.len(),
            forall|j: int| 0 <= j < i ==> v@[j]@ != s@,
        decreases v@.len() - i,
    {
        if str_eq(v[i].as_str(), s) {
            return true;
        }
        i = i + 1;
    }
    false
}

fn is_keyword(f: &Form, k: &str) -> (r: bool)
    ensures
        r == (f@ == FormV::Keyword(k@)),
{
    match f {
        Form::Keyword(v) => str_eq(v.as_str(), k),
        _ => false,
    }
}

fn validate_command<C: CapabilityCatalog>(
    items: &Vec<Form>,
    path: &String,
    catalog: &C,
    diagnostics: &mut Vec<CheckDiagnostic>,
)
    ensures
        check_diags_view(final(diagnostics)@) == check_diags_view(old(diagnostics)@)
            + command_findings(forms_view(items@), path@, *catalog),
{
    let ghost iv = forms_view(items@);
    let ghost start = check_diags_view(diagnostics@);
    let target = if items.len() > 1 {
        assert(iv[1] == items@[1]@);
        entity_ref_exec(&items[1])
    } else {
        None
    };
    let entity_id = match target {
        Some(e) => e,
        None => {
            push_finding(
                diagnostics,
                "flow.command_target",
                "command requires an explicit entity reference",
                path,
            );
            return;
        },
    };
    let capabilities = match catalog.capabilities_for(entity_id.as_str()) {
        Some(c) => c,
        None => {
            push_finding(diagnostics, "flow.unknown_entity", "referenced entity does not exist", path);
            return;
        },
    };
    let ghost caps = strings_set(capabilities@);
    let supported = items.len() > 2 && (is_keyword(&items[2], "turn-on") || is_keyword(
        &items[2],
        "turn-off",
    ));
    proof {
        if items.len() > 2 {
            assert(iv[2] == items@[2]@);
        }
    }
    if supported {
        if !contains_string(&capabilities, "switch") {
            push_finding(
                diagnostics,
                "flow.command_unsupported",
                "entity does not support switch",
                path,
            );
        }
    } else {
        push_finding(diagnostics, "flow.command_verb", "unsupported command verb", path);
    }
    let ghost after_verb = check_diags_view(diagnostics@);
    let mut index: usize = 3;
    while index < items.len() && items.len() - index > 1
        invariant
            3 <= index,
            index <= items@.len() + 3,
            iv == forms_view(items@),
            caps == strings_set(capabilities@),
            after_verb + option_findings(iv, 3, caps, path@) == check_diags_view(diagnostics@)
                + option_findings(iv, index as int, caps, path@),
        decreases items@.len() + 3 - index,
    {
        let ghost before = check_diags_view(diagnostics@);
        assert(iv[index as int] == items@[index as int]@);
        assert(iv[index + 1] == items@[index + 1]@);
        if is_keyword(&items[index], "brightness") {
            if !contains_string(&capabilities, "light.brightness") {
                push_finding(
                    diagnostics,
                    "flow.command_unsupported",
                    "entity does not support light.brightness",
                    path,
                );
            }
            let percentage = match &items[index + 1] {
                Form::Number { unit: Some(u), .. } => str_eq(u.as_str(), "%"),
                _ => false,
            };
            if !percentage {
                push_finding(
                    diagnostics,
                    "flow.brightness_unit",
                    "brightness must use a percentage",
                    path,
                );
            }
        }
        proof {
            let here = option_findings(iv, index as int, caps, path@);
            assert(check_diags_view(diagnostics@) + option_findings(iv, index + 2, caps, path@)
                =~= before + here);
        }
        index = index + 2;
    }
    assert(option_findings(iv, index as int, caps, path@) =~= Seq::<CheckDiagV>::empty());
    assert(check_diags_view(diagnostics@) =~= start + command_findings(iv, path@, *catalog));
}

fn is_number(f: &Form) -> (r: Option<&Option<String>>)
    ensures
        r matches Some(u) ==> f@ is Number && f@->Number_unit == crate::flow_ast::opt_view(*u),
        r is None ==> !(f@ is Number),
{
    match f {
        Form::Number { unit, .. } => Some(unit),
        _ => None,
    }
}

fn opt_str_eq(a: &Option<String>, b: &Option<String>) -> (r: bool)
    ensures
        r == (crate::flow_ast::opt_view(*a) == crate::flow_ast::opt_view(*b)),
{
    match (a, b) {
        (Some(x), Some(y)) => str_eq(x.as_str(), y.as_str()),
        (None, None) => true,
        _ => false,
    }
}

fn validate_comparison(items: &Vec<Form>, path: &String, diagnostics: &mut Vec<CheckDiagnostic>)
    ensures
        check_diags_view(final(diagnostics)@) == check_diags_view(old(diagnostics)@)
            + comparison_findings(forms_view(items@), path@),
{
    let ghost iv = forms_view(items@);
    if items.len() != 3 {
        push_finding(
            diagnostics,
            "flow.comparison_arity",
            "comparison requires exactly two operands",
            path,
        );
        return;
    }
    assert(iv[1] == items@[1]@);
    assert(iv[2] == items@[2]@);
    match (is_number(&items[1]), is_number(&items[2])) {
        (Some(left), Some(right)) => {
            if !opt_str_eq(left, right) {
                push_finding(
                    diagnostics,
                    "flow.unit_mismatch",
                    "comparison operands require compatible units",
                    path,
                );
            } else {
                assert(check_diags_view(diagnostics@) =~= check_diags_view(old(diagnostics)@)
                    + comparison_findings(iv, path@));
            }
        },
        _ => {
            assert(check_diags_view(diagnostics@) =~= check_diags_view(old(diagnostics)@)
                + comparison_findings(iv, path@));
        },
    }
}

fn visit<C: CapabilityCatalog>(
    form: &Form,
    path: &String,
    catalog: &C,
    diagnostics: &mut Vec<CheckDiagnostic>,
)
    ensures
        check_diags_view(final(diagnostics)@) == check_diags_view(old(diagnostics)@)
            + visit_findings(form@, path@, *catalog),
    decreases form,
{
    let items = match form.list() {
        Some(items) => items,
        None => {
            assert(check_diags_view(diagnostics@) =~= check_diags_view(old(diagnostics)@)
                + visit_findings(form@, path@, *catalog));
            return;
        },
    };
    let ghost iv = forms_view(items@);
    let ghost start = check_diags_view(diagnostics@);
    assert(form@ == FormV::List(iv));
    let head = if items.len() > 0 {
        assert(iv[0] == items@[0]@);
        items[0].symbol()
    } else {
        None
    };
    let ghost head_v = head_symbol(form@);
    assert(head matches Some(h) ==> head_v == Some(h@));
    assert(head is None ==> head_v is None);
    let is_command = match head {
        Some(h) => str_eq(h, "command"),
        None => false,
    };
    if is_command {
        validate_command(items, path, catalog, diagnostics);
    }
    let ghost after_command = check_diags_view(diagnostics@);
    let compares = match head {
        Some(h) => str_eq(h, "<") || str_eq(h, "<=") || str_eq(h, ">") || str_eq(h, ">="),
        None => false,
    };
    if compares {
        validate_comparison(items, path, diagnostics);
    }
    let ghost after_own = check_diags_view(diagnostics@);
    assert(after_own =~= start + (if head_v == Some("command"@) {
        command_findings(iv, path@, *catalog)
    } else {
        Seq::empty()
    }) + (if is_comparison(head_v) {
        comparison_findings(iv, path@)
    } else {
        Seq::empty()
    }));
    let mut index: usize = 0;
    while index < items.len()
        invariant
            index <= items@.len(),
            iv == forms_view(items@),
            *form == Form::List(*items),
            after_own + children_findings(iv, 0, path@, *catalog) == check_diags_view(diagnostics@)
                + children_findings(iv, index as int, path@, *catalog),
        decreases items@.len() - index,
    {
        let ghost before = check_diags_view(diagnostics@);
        assert(iv[index as int] == items@[index as int]@);
        let mut child = path.clone();
        push_char(&mut child, '/');
        push_decimal(&mut child, index as u64);
        assert(child@ =~= crate::flow_check::child_path(path@, index as nat));
        proof {
            assert(decreases_to!(*form => form->List_0));
            assert(decreases_to!(form->List_0 => form->List_0@[index as int]));
        }
        visit(&items[index], &child, catalog, diagnostics);
        proof {
            assert(check_diags_view(diagnostics@) + children_findings(
                iv,
                index + 1,
                path@,
                *catalog,
            ) =~= before + children_findings(iv, index as int, path@, *catalog));
        }
        index = index + 1;
    }
    assert(children_findings(iv, index as int, path@, *catalog) =~= Seq::<CheckDiagV>::empty());
    assert(check_diags_view(diagnostics@) =~= start + visit_findings(form@, path@, *catalog));
}

/// Checks a Flow document against the entities and capabilities of a catalog.
pub fn validate<C: CapabilityCatalog>(ast: &FlowAst, catalog: &C) -> (r: Vec<CheckDiagnostic>)
    ensures
        check_diags_view(r@) == spec_check(*ast, *catalog),
{
    let mut diagnostics: Vec<CheckDiagnostic> = Vec::new();
    assert(check_diags_view(diagnostics@) =~= Seq::<CheckDiagV>::empty());
    match ast.validate() {
        Err(e) => {
            let mut path = String::new();
            append_str(&mut path, "$");
            push_finding(&mut diagnostics, "flow.root", e.message().as_str(), &path);
            assert(check_diags_view(diagnostics@) =~= spec_check(*ast, *catalog));
            return diagnostics;
        },
        Ok(()) => {},
    }
    let mut path = String::new();
    append_str(&mut path, "$");
    assert(path@ =~= "$"@);
    visit(&ast.root, &path, catalog, &mut diagnostics);
    assert(check_diags_view(diagnostics@) =~= spec_check(*ast, *catalog));
    diagnostics
}

/// A switch command on a known entity that can be switched, with verb
/// `:turn-on` or `:turn-off` and no option, yields no finding at all: not on
/// the command, not on its entity reference.
pub proof fn lemma_switch_command_passes<C: CapabilityCatalog>(
    entity_id: Seq<char>,
    verb: Seq<char>,
    path: Seq<char>,
    catalog: C,
)
    requires
        verb == "turn-on"@ || verb == "turn-off"@,
        catalog.spec_capabilities_for(entity_id) is Some,
        catalog.spec_capabilities_for(entity_id)->0.contains("switch"@),
    ensures
        visit_findings(
            FormV::List(
                seq![
                    FormV::Symbol("command"@),
                    FormV::List(seq![FormV::Symbol("entity"@), FormV::String(entity_id)]),
                    FormV::Keyword(verb),
                ],
            ),
            path,
            catalog,
        ) == Seq::<CheckDiagV>::empty(),
{
    let target = FormV::List(seq![FormV::Symbol("entity"@), FormV::String(entity_id)]);
    let items = seq![FormV::Symbol("command"@), target, FormV::Keyword(verb)];
    let f = FormV::List(items);
    reveal_strlit("command");
    reveal_strlit("entity");
    assert(head_symbol(f) == Some("command"@));
    assert(!is_comparison(head_symbol(f))) by {
        reveal_strlit("<");
        reveal_strlit("<=");
        reveal_strlit(">");
        reveal_strlit(">=");
        assert("command"@.len() != "<"@.len());
        assert("command"@.len() != "<="@.len());
        assert("command"@.len() != ">"@.len());
        assert("command"@.len() != ">="@.len());
    }
    assert(entity_ref(items[1]) == Some(entity_id));
    assert(option_findings(items, 3, catalog.spec_capabilities_for(entity_id)->0, path) == Seq::<CheckDiagV>::empty());
    assert(command_findings(items, path, catalog) =~= Seq::<CheckDiagV>::empty());
    let inner = seq![FormV::Symbol("entity"@), FormV::String(entity_id)];
    assert(head_symbol(target) == Some("entity"@));
    assert(head_symbol(target) != Some("command"@)) by {
        assert("entity"@.len() != "command"@.len());
    }
    assert(!is_comparison(head_symbol(target))) by {
        reveal_strlit("<");
        reveal_strlit("<=");
        reveal_strlit(">");
        reveal_strlit(">=");
        assert("entity"@.len() != "<"@.len());
        assert("entity"@.len() != "<="@.len());
        assert("entity"@.len() != ">"@.len());
        assert("entity"@.len() != ">="@.len());
    }
    let p1 = child_path(path, 1);
    assert(children_findings(inner, 2, p1, catalog) == Seq::<CheckDiagV>::empty());
    assert(visit_findings(inner[1], child_path(p1, 1), catalog) == Seq::<CheckDiagV>::empty());
    assert(visit_findings(inner[0], child_path(p1, 0), catalog) == Seq::<CheckDiagV>::empty());
    assert(children_findings(inner, 1, p1, catalog) =~= Seq::<CheckDiagV>::empty());
    assert(children_findings(inner, 0, p1, catalog) =~= Seq::<CheckDiagV>::empty());
    assert(visit_findings(target, p1, catalog) =~= Seq::<CheckDiagV>::empty());
    assert(children_findings(items, 3, path, catalog) == Seq::<CheckDiagV>::empty());
    assert(visit_findings(items[2], child_path(path, 2), catalog) == Seq::<CheckDiagV>::empty());
    assert(visit_findings(items[0], child_path(path, 0), catalog) == Seq::<CheckDiagV>::empty());
    assert(children_findings(items, 2, path, catalog) =~= Seq::<CheckDiagV>::empty());
    assert(children_findings(items, 1, path, catalog) =~= Seq::<CheckDiagV>::empty());
    assert(children_findings(items, 0, path, catalog) =~= Seq::<CheckDiagV>::empty());
    assert(visit_findings(f, path, catalog) =~= Seq::<CheckDiagV>::empty());
}

/// A command on a known entity whose verb is neither `:turn-on` nor
/// `:turn-off` is refused with `flow.command_verb`, first of its findings.
pub proof fn lemma_unknown_verb_is_refused<C: CapabilityCatalog>(items: Seq<FormV>, path: Seq<char>, catalog: C)
    requires
        items.len() > 1,
        entity_ref(items[1]) is Some,
        catalog.spec_capabilities_for(entity_ref(items[1])->0) is Some,
        items.len() <= 2 || (items[2] != FormV::Keyword("turn-on"@) && items[2] != FormV::Keyword("turn-off"@)),
    ensures
        command_findings(items, path, catalog).len() > 0,
        command_findings(items, path, catalog)[0] == cd("flow.command_verb"@, "unsupported command verb"@, path),
{
}

} // verus!
