//! Canonical, versioned representation of Robine Flow documents.

use vstd::prelude::*;
use crate::text::{append_str, push_decimal, spec_decimal, str_eq};

verus! {

/// The name that every Flow document declares.
pub const DSL_NAME: &'static str = "robine-flow";

/// The only Flow version this library reads.
pub const DSL_VERSION: u16 = 1;

/// One form of a Flow document.
#[derive(Debug, PartialEq)]
pub enum Form {
    List(Vec<Form>),
    Symbol(String),
    Keyword(String),
    String(String),
    Bool(bool),
    Nil,
    Number { literal: String, unit: Option<String> },
}

/// A validated Flow document.
#[derive(Debug, PartialEq)]
pub struct FlowAst {
    pub dsl: String,
    pub dsl_version: u16,
    pub root: Form,
}

/// Why a Flow document is not a valid document.
#[derive(Debug, PartialEq, Eq)]
pub enum AstError {
    UnknownDsl(String),
    UnsupportedVersion(u16),
    RootMustBeList,
    RootMustStartWithFlow,
    RootSectionMustBeList,
    RootSectionNameMissing,
    UnknownRootSection(String),
    RootSectionOrder(String),
    TriggerMissing,
    BodyMissing,
}

/// The mathematical value of a form: its strings taken by their characters.
#[verifier::ext_equal]
pub enum FormV {
    List(Seq<FormV>),
    Symbol(Seq<char>),
    Keyword(Seq<char>),
    String(Seq<char>),
    Bool(bool),
    Nil,
    Number { literal: Seq<char>, unit: Option<Seq<char>> },
}

/// The view of an optional string.
pub open spec fn opt_view(o: Option<String>) -> Option<Seq<char>> {
    match o {
        Some(s) => Some(s@),
        None => None,
    }
}

/// The value of a form.
pub open spec fn form_view(f: Form) -> FormV
    decreases f, 1nat,
{
    match f {
        Form::List(items) => {
            proof {
                assert(decreases_to!(items => items@));
            }
            FormV::List(forms_view(items@))
        },
        Form::Symbol(s) => FormV::Symbol(s@),
        Form::Keyword(s) => FormV::Keyword(s@),
        Form::String(s) => FormV::String(s@),
        Form::Bool(b) => FormV::Bool(b),
        Form::Nil => FormV::Nil,
        Form::Number { literal, unit } => FormV::Number { literal: literal@, unit: opt_view(unit) },
    }
}

/// The values of a sequence of forms.
pub open spec fn forms_view(forms: Seq<Form>) -> Seq<FormV>
    decreases forms, 0nat,
{
    Seq::new(forms.len(), |i: int| if 0 <= i < forms.len() { form_view(forms[i]) } else { FormV::Nil })
}

impl View for Form {
    type V = FormV;

    open spec fn view(&self) -> FormV {
        form_view(*self)
    }
}

impl Form {
    /// The symbol held by this form, if it is a symbol.
    pub open spec fn spec_symbol(self) -> Option<Seq<char>> {
        match self {
            Form::Symbol(s) => Some(s@),
            _ => None,
        }
    }

    /// Whether this form is anything but a list.
    pub open spec fn spec_is_atom(self) -> bool {
        !(self is List)
    }

    /// The symbol held by this form, if it is a symbol.
    pub fn symbol(&self) -> (r: Option<&str>)
        ensures
            r matches Some(s) ==> self.spec_symbol() == Some(s@),
            r is None ==> self.spec_symbol() is None,
    {
        match self {
            Form::Symbol(s) => Some(s.as_str()),
            _ => None,
        }
    }

    /// The items of this form, if it is a list.
    pub fn list(&self) -> (r: Option<&Vec<Form>>)
        ensures
            r matches Some(v) ==> *self == Form::List(*v),
            r is None ==> !(self is List),
    {
        match self {
            Form::List(v) => Some(v),
            _ => None,
        }
    }

    /// Whether this form is anything but a list.
    pub fn is_atom(&self) -> (r: bool)
        ensures
            r == self.spec_is_atom(),
    {
        !matches!(self, Form::List(_))
    }

    /// A copy of this form.
    pub fn deep_clone(&self) -> (r: Form)
        ensures
            r@ == self@,
        decreases self,
    {
        match self {
            Form::List(items) => {
                let mut out: Vec<Form> = Vec::new();
                let mut i: usize = 0;
                while i < items.len()
                    invariant
                        i <= items@.len(),
                        *self == Form::List(*items),
                        out@.len() == i,
                        forall|j: int| 0 <= j < i ==> out@[j]@ == items@[j]@,
                    decreases items@.len() - i,
                {
                    proof {
                        assert(decreases_to!(*self => self->List_0));
                        assert(decreases_to!(self->List_0 => self->List_0@[i as int]));
                    }
                    let f = items[i].deep_clone();
                    out.push(f);
                    i = i + 1;
                }
                let r = Form::List(out);
                assert(forms_view(out@) =~= forms_view(items@));
                assert(forms_view(out@) =~= forms_view(items@));
                r
            },
            Form::Symbol(s) => Form::Symbol(s.clone()),
            Form::Keyword(s) => Form::Keyword(s.clone()),
            Form::String(s) => Form::String(s.clone()),
            Form::Bool(b) => Form::Bool(*b),
            Form::Nil => Form::Nil,
            Form::Number { literal, unit } => {
                let u = match unit {
                    Some(u) => Some(u.clone()),
                    None => None,
                };
                Form::Number { literal: literal.clone(), unit: u }
            },
        }
    }
}

/// The mathematical value of an [`AstError`].
pub enum AstErrorV {
    UnknownDsl(Seq<char>),
    UnsupportedVersion(u16),
    RootMustBeList,
    RootMustStartWithFlow,
    RootSectionMustBeList,
    RootSectionNameMissing,
    UnknownRootSection(Seq<char>),
    RootSectionOrder(Seq<char>),
    TriggerMissing,
    BodyMissing,
}

impl View for AstError {
    type V = AstErrorV;

    open spec fn view(&self) -> AstErrorV {
        match self {
            AstError::UnknownDsl(s) => AstErrorV::UnknownDsl(s@),
            AstError::UnsupportedVersion(v) => AstErrorV::UnsupportedVersion(*v),
            AstError::RootMustBeList => AstErrorV::RootMustBeList,
            AstError::RootMustStartWithFlow => AstErrorV::RootMustStartWithFlow,
            AstError::RootSectionMustBeList => AstErrorV::RootSectionMustBeList,
            AstError::RootSectionNameMissing => AstErrorV::RootSectionNameMissing,
            AstError::UnknownRootSection(s) => AstErrorV::UnknownRootSection(s@),
            AstError::RootSectionOrder(s) => AstErrorV::RootSectionOrder(s@),
            AstError::TriggerMissing => AstErrorV::TriggerMissing,
            AstError::BodyMissing => AstErrorV::BodyMissing,
        }
    }
}

/// The text of an error, as its `Display` renders it.
pub open spec fn ast_error_message(e: AstErrorV) -> Seq<char> {
    match e {
        AstErrorV::UnknownDsl(s) => "unknown DSL "@ + s,
        AstErrorV::UnsupportedVersion(v) => "unsupported DSL version "@ + spec_decimal(v as nat),
        AstErrorV::RootMustBeList => "flow root must be a list"@,
        AstErrorV::RootMustStartWithFlow => "flow root must start with the symbol flow"@,
        AstErrorV::RootSectionMustBeList => "flow root section must be a list"@,
        AstErrorV::RootSectionNameMissing => "flow root section has no symbol name"@,
        AstErrorV::UnknownRootSection(s) => "unknown flow root section "@ + s,
        AstErrorV::RootSectionOrder(s) => "flow root section "@ + s + " is out of order or repeated"@,
        AstErrorV::TriggerMissing => "flow trigger on is required"@,
        AstErrorV::BodyMissing => "flow body do is required"@,
    }
}

impl AstError {
    /// The text of this error.
    pub fn message(&self) -> (m: String)
        ensures
            m@ == ast_error_message(self@),
    {
        let mut m = String::new();
        match self {
            AstError::UnknownDsl(s) => {
                append_str(&mut m, "unknown DSL ");
                append_str(&mut m, s.as_str());
            },
            AstError::UnsupportedVersion(v) => {
                append_str(&mut m, "unsupported DSL version ");
                push_decimal(&mut m, *v as u64);
            },
            AstError::RootMustBeList => append_str(&mut m, "flow root must be a list"),
            AstError::RootMustStartWithFlow => append_str(&mut m, "flow root must start with the symbol flow"),
            AstError::RootSectionMustBeList => append_str(&mut m, "flow root section must be a list"),
            AstError::RootSectionNameMissing => append_str(&mut m, "flow root section has no symbol name"),
            AstError::UnknownRootSection(s) => {
                append_str(&mut m, "unknown flow root section ");
                append_str(&mut m, s.as_str());
            },
            AstError::RootSectionOrder(s) => {
                append_str(&mut m, "flow root section ");
                append_str(&mut m, s.as_str());
                append_str(&mut m, " is out of order or repeated");
            },
            AstError::TriggerMissing => append_str(&mut m, "flow trigger on is required"),
            AstError::BodyMissing => append_str(&mut m, "flow body do is required"),
        }
        assert(m@ =~= ast_error_message(self@));
        m
    }
}

/// The view of a unit result carrying an [`AstError`].
pub open spec fn ast_result_view(r: Result<(), AstError>) -> Result<(), AstErrorV> {
    match r {
        Ok(()) => Ok(()),
        Err(e) => Err(e@),
    }
}

/// The symbol held by a form value, if it is a symbol.
pub open spec fn symbol_of(f: FormV) -> Option<Seq<char>> {
    match f {
        FormV::Symbol(s) => Some(s),
        _ => None,
    }
}

/// The items of a form value, if it is a list.
pub open spec fn items_of(f: FormV) -> Option<Seq<FormV>> {
    match f {
        FormV::List(items) => Some(items),
        _ => None,
    }
}

/// The symbol that heads a list value, if any.
pub open spec fn head_symbol(f: FormV) -> Option<Seq<char>> {
    match f {
        FormV::List(items) => if items.len() > 0 { symbol_of(items[0]) } else { None },
        _ => None,
    }
}

/// The position of a root section name in the canonical order
/// `meta`, `inputs`, `on`, `when`, `do`.
pub open spec fn section_position(name: Seq<char>) -> Option<u8> {
    if name == "meta"@ {
        Some(0u8)
    } else if name == "inputs"@ {
        Some(1u8)
    } else if name == "on"@ {
        Some(2u8)
    } else if name == "when"@ {
        Some(3u8)
    } else if name == "do"@ {
        Some(4u8)
    } else {
        None
    }
}

/// The outcome of checking the root sections `sections[i..]`, given the
/// next allowed position and whether `on` and `do` were already seen.
pub open spec fn check_sections(
    sections: Seq<FormV>,
    i: int,
    expected: u8,
    trigger: bool,
    body: bool,
) -> Result<(), AstErrorV>
    decreases sections.len() - i,
{
    if i >= sections.len() || i < 0 {
        if !trigger {
            Err(AstErrorV::TriggerMissing)
        } else if !body {
            Err(AstErrorV::BodyMissing)
        } else {
            Ok(())
        }
    } else {
        match sections[i] {
            FormV::List(items) => {
                match head_symbol(FormV::List(items)) {
                    None => Err(AstErrorV::RootSectionNameMissing),
                    Some(name) => match section_position(name) {
                        None => Err(AstErrorV::UnknownRootSection(name)),
                        Some(p) => if p < expected {
                            Err(AstErrorV::RootSectionOrder(name))
                        } else {
                            check_sections(
                                sections,
                                i + 1,
                                (p + 1) as u8,
                                trigger || name == "on"@,
                                body || name == "do"@,
                            )
                        },
                    },
                }
            },
            _ => Err(AstErrorV::RootSectionMustBeList),
        }
    }
}

/// What `validate_root` answers for a root form: the root must be a list
/// headed by `flow`, followed by root sections in canonical order, without
/// repetition, including `on` and `do`.
pub open spec fn spec_validate_root(root: FormV) -> Result<(), AstErrorV> {
    match root {
        FormV::List(forms) => {
            if forms.len() == 0 || symbol_of(forms[0]) != Some("flow"@) {
                Err(AstErrorV::RootMustStartWithFlow)
            } else {
                check_sections(forms, 1, 0, false, false)
            }
        },
        _ => Err(AstErrorV::RootMustBeList),
    }
}

/// Checks the structure of a Flow root form.
pub fn validate_root(root: &Form) -> (r: Result<(), AstError>)
    ensures
        ast_result_view(r) == spec_validate_root(root@),
{
    let forms = match root.list() {
        Some(forms) => forms,
        None => return Err(AstError::RootMustBeList),
    };
    assert(root@ == FormV::List(forms_view(forms@)));
    if forms.len() == 0 {
        return Err(AstError::RootMustStartWithFlow);
    }
    assert(forms_view(forms@)[0] == forms@[0]@);
    match forms[0].symbol() {
        Some(s) => {
            if !str_eq(s, "flow") {
                return Err(AstError::RootMustStartWithFlow);
            }
        },
        None => return Err(AstError::RootMustStartWithFlow),
    }
    let ghost fv = forms_view(forms@);
    assert(spec_validate_root(root@) == check_sections(fv, 1, 0, false, false));
    let mut expected: u8 = 0;
    let mut trigger = false;
    let mut body = false;
    let mut i: usize = 1;
    while i < forms.len()
        invariant
            1 <= i <= forms@.len(),
            expected <= 5,
            fv == forms_view(forms@),
            spec_validate_root(root@) == check_sections(fv, i as int, expected, trigger, body),
        decreases forms@.len() - i,
    {
        assert(fv[i as int] == forms@[i as int]@);
        let items = match forms[i].list() {
            Some(items) => items,
            None => return Err(AstError::RootSectionMustBeList),
        };
        if items.len() == 0 {
            return Err(AstError::RootSectionNameMissing);
        }
        assert(forms_view(items@)[0] == items@[0]@);
        let name_string = match &items[0] {
            Form::Symbol(s) => s,
            _ => return Err(AstError::RootSectionNameMissing),
        };
        let name = name_string.as_str();
        let position: u8 = if str_eq(name, "meta") {
            0
        } else if str_eq(name, "inputs") {
            1
        } else if str_eq(name, "on") {
            2
        } else if str_eq(name, "when") {
            3
        } else if str_eq(name, "do") {
            4
        } else {
            return Err(AstError::UnknownRootSection(name_string.clone()));
        };
        if position < expected {
            return Err(AstError::RootSectionOrder(name_string.clone()));
        }
        expected = position + 1;
        let is_on = str_eq(name, "on");
        let is_do = str_eq(name, "do");
        trigger = trigger || is_on;
        body = body || is_do;
        i = i + 1;
    }
    if !trigger {
        return Err(AstError::TriggerMissing);
    }
    if !body {
        return Err(AstError::BodyMissing);
    }
    Ok(())
}

impl FlowAst {
    /// What `validate` answers for a document.
    pub open spec fn spec_validate(self) -> Result<(), AstErrorV> {
        if self.dsl@ != DSL_NAME@ {
            Err(AstErrorV::UnknownDsl(self.dsl@))
        } else if self.dsl_version != DSL_VERSION {
            Err(AstErrorV::UnsupportedVersion(self.dsl_version))
        } else {
            spec_validate_root(self.root@)
        }
    }

    /// Wraps a root form into a document once the root is valid.
    pub fn new(root: Form) -> (r: Result<FlowAst, AstError>)
        ensures
            spec_validate_root(root@) is Ok ==> (r matches Ok(ast) && ast.root@ == root@
                && ast.dsl@ == DSL_NAME@ && ast.dsl_version == DSL_VERSION),
            spec_validate_root(root@) matches Err(e) ==> (r matches Err(e2) && e2@ == e),
    {
        match validate_root(&root) {
            Ok(()) => Ok(FlowAst { dsl: DSL_NAME.to_owned(), dsl_version: DSL_VERSION, root }),
            Err(e) => Err(e),
        }
    }

    /// Checks the name, the version and the root of a document.
    pub fn validate(&self) -> (r: Result<(), AstError>)
        ensures
            ast_result_view(r) == self.spec_validate(),
    {
        if !str_eq(self.dsl.as_str(), DSL_NAME) {
            return Err(AstError::UnknownDsl(self.dsl.clone()));
        }
        if self.dsl_version != DSL_VERSION {
            return Err(AstError::UnsupportedVersion(self.dsl_version));
        }
        validate_root(&self.root)
    }
}

} // verus!
