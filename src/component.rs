//! Component invocations and their validation.
use vstd::prelude::*;
use crate::attribute::{Attribute, AttributeName, AttributeValue, NameView};
use vstd::string::StringExecFns;
use crate::body::TemplateBody;
use crate::body::{fits, same_shapes, BodyNode};
use crate::diagnostics::{Diagnostic, DiagnosticKind, Diagnostics, ParseError};
use crate::ifmt::segments_static;
use vstd::string::StrSliceExecFns;
use crate::element::Ident;
use crate::ifmt::{IfmtInput, Segment, Span};

verus! {

/// The arguments a path segment carries.
#[derive(Clone, Debug, PartialEq, Eq)]
pub enum PathArguments {
    Plain,
    /// `<...>`, held as source text.
    AngleBracketed(String),
    /// `(...)`, held as source text.
    Parenthesized(String),
}

/// One segment of a component's path, such as `Link` in `router::Link`.
#[derive(Clone, Debug, PartialEq, Eq)]
pub struct PathSegment {
    pub ident: Ident,
    pub arguments: PathArguments,
}

#[derive(Debug, PartialEq, Eq)]
pub struct Component {
    /// The segments of the component's path; there is at least one.
    pub name: Vec<PathSegment>,
    /// The place of the whole path.
    pub name_span: Span,
    /// Generic arguments written after the name, held as source text.
    pub generics: Option<String>,
    pub fields: Vec<Attribute>,
    pub children: TemplateBody,
    pub dyn_idx: Option<usize>,
    pub diagnostics: Diagnostics,
}

/// The name of the field that carries a component's reconciliation key.
pub open spec fn key_name() -> NameView {
    NameView::BuiltIn(seq!['k', 'e', 'y'])
}

/// Index of the first field named `key`, or `fields.len()`.
pub open spec fn first_key(fields: Seq<Attribute>) -> int
    decreases fields.len(),
{
    if fields.len() == 0 {
        0
    } else {
        let r = first_key(fields.drop_last());
        if r < fields.len() - 1 {
            r
        } else if fields.last().name@ == key_name() {
            fields.len() - 1
        } else {
            fields.len() as int
        }
    }
}

pub proof fn lemma_first_key(fields: Seq<Attribute>, j: int)
    requires
        0 <= j <= fields.len(),
        forall|k: int| 0 <= k < j ==> fields[k].name@ != key_name(),
        j == fields.len() || fields[j].name@ == key_name(),
    ensures
        first_key(fields) == j,
    decreases fields.len(),
{
    if fields.len() > 0 {
        if j < fields.len() - 1 {
            lemma_first_key(fields.drop_last(), j);
        } else {
            lemma_first_key(fields.drop_last(), fields.len() - 1);
        }
    }
}

pub proof fn lemma_first_key_bounds(fields: Seq<Attribute>)
    ensures
        0 <= first_key(fields) <= fields.len(),
        forall|k: int| 0 <= k < first_key(fields) ==> fields[k].name@ != key_name(),
        first_key(fields) < fields.len() ==> fields[first_key(fields)].name@ == key_name(),
    decreases fields.len(),
{
    if fields.len() > 0 {
        lemma_first_key_bounds(fields.drop_last());
        assert forall|k: int| 0 <= k < first_key(fields) implies fields[k].name@ != key_name() by {
            if k < fields.len() - 1 {
                assert(fields[k] == fields.drop_last()[k]);
            }
        }
    }
}

/// The key a component's fields give it: the value of the first `key` field,
/// where that value is a formatted string.
pub open spec fn key_of(fields: Seq<Attribute>) -> Option<Seq<Segment>> {
    let j = first_key(fields);
    if j < fields.len() {
        match fields[j].value {
            AttributeValue::Text(t) => Some(t@),
            _ => None,
        }
    } else {
        None
    }
}

/// Whether a name is the built-in name `key`.
pub fn is_key_name(name: &AttributeName) -> (r: bool)
    ensures
        r == (name@ == key_name()),
{
    match name {
        AttributeName::BuiltIn(n) => {
            let key = String::from_str("key");
            proof {
                reveal_strlit("key");
                assert(key@ =~= seq!['k', 'e', 'y']);
            }
            n.eq(&key)
        },
        _ => false,
    }
}

/// The index of the first field named `key`, or the number of fields.
pub fn find_key(fields: &Vec<Attribute>) -> (r: usize)
    ensures
        r == first_key(fields@),
{
    let mut j: usize = 0;
    while j < fields.len() && !is_key_name(&fields[j].name)
        invariant
            j <= fields@.len(),
            forall|k: int| 0 <= k < j ==> fields@[k].name@ != key_name(),
        decreases fields@.len() - j,
    {
        j = j + 1;
    }
    proof {
        lemma_first_key(fields@, j as int);
    }
    j
}

impl Component {
    /// The first field named `key`, if any.
    pub fn get_key(&self) -> (r: Option<&Attribute>)
        ensures
            r is Some <==> first_key(self.fields@) < self.fields@.len(),
            r matches Some(a) ==> *a == self.fields@[first_key(self.fields@)],
    {
        proof {
            lemma_first_key_bounds(self.fields@);
        }
        let j = find_key(&self.fields);
        if j < self.fields.len() {
            Some(&self.fields[j])
        } else {
            None
        }
    }

    /// The component's key, where its first `key` field is a formatted string.
    pub fn key(&self) -> (r: Option<&IfmtInput>)
        ensures
            r matches Some(k) ==> key_of(self.fields@) == Some(k@),
            r is None ==> key_of(self.fields@) is None,
    {
        match self.get_key() {
            Some(a) => match &a.value {
                AttributeValue::Text(t) => Some(t),
                _ => None,
            },
            None => None,
        }
    }
}

/// Whether a character is lowercase, as std's `char::is_lowercase` decides.
pub uninterp spec fn lowercase_char(c: char) -> bool;

/// Relies on `char::is_lowercase`: whether `c` has the Unicode `Lowercase`
/// property; the ASCII letters `a` to `z` have it and `A` to `Z` do not.
#[verifier::external_body]
fn char_is_lowercase(c: char) -> (r: bool)
    ensures
        r == lowercase_char(c),
        'a' <= c <= 'z' ==> r,
        'A' <= c <= 'Z' ==> !r,
{
    c.is_lowercase()
}

pub open spec fn has_underscore(s: Seq<char>) -> bool {
    exists|i: int| 0 <= i < s.len() && s[i] == '_'
}

/// A single identifier that reads as an element name: it starts lowercase and
/// has no underscore.
pub open spec fn reads_as_element(s: Seq<char>) -> bool {
    s.len() > 0 && lowercase_char(s[0]) && !has_underscore(s)
}

pub open spec fn diag(kind: DiagnosticKind, span: Span) -> Seq<Diagnostic> {
    seq![Diagnostic { kind, span }]
}

/// The name-shape check: a lone lowercase identifier without an underscore.
pub open spec fn name_shape_diags(segs: Seq<PathSegment>) -> Seq<Diagnostic> {
    if segs.len() == 1 && reads_as_element(segs[0].ident.text@) {
        diag(DiagnosticKind::LowercaseName, segs[0].ident.span)
    } else {
        Seq::empty()
    }
}

/// The path-arguments checks: arguments before the last segment, and
/// parenthesized arguments on the last.
pub open spec fn path_args_diags(segs: Seq<PathSegment>, span: Span) -> Seq<Diagnostic> {
    (if exists|k: int| 0 <= k < segs.len() - 1 && !(segs[k].arguments is Plain) {
        diag(DiagnosticKind::ArgumentsBeforeLastSegment, span)
    } else {
        Seq::empty()
    }) + (if segs.len() > 0 && segs.last().arguments is Parenthesized {
        diag(DiagnosticKind::UnexpectedArguments, span)
    } else {
        Seq::empty()
    })
}

/// The field checks, one field after another: a custom name, and a known
/// name that an earlier field already has.
pub open spec fn field_diags(fields: Seq<Attribute>) -> Seq<Diagnostic>
    decreases fields.len(),
{
    if fields.len() == 0 {
        Seq::empty()
    } else {
        let pre = field_diags(fields.drop_last());
        let f = fields.last();
        match f.name {
            AttributeName::Custom(_) => pre + diag(DiagnosticKind::CustomField, f.span),
            AttributeName::BuiltIn(_) => if exists|i: int|
                0 <= i < fields.len() - 1 && (#[trigger] fields[i]).name@ == f.name@ {
                pre + diag(DiagnosticKind::DuplicateField, f.span)
            } else {
                pre
            },
            AttributeName::Spread => pre,
        }
    }
}

/// The key check: the first `key` field must be an interpolated string.
pub open spec fn key_diags(fields: Seq<Attribute>) -> Seq<Diagnostic> {
    let j = first_key(fields);
    if j < fields.len() {
        match fields[j].value {
            AttributeValue::Text(t) => if segments_static(t@) {
                diag(DiagnosticKind::StaticKey, fields[j].span)
            } else {
                Seq::empty()
            },
            _ => diag(DiagnosticKind::MalformedKey, fields[j].span),
        }
    } else {
        Seq::empty()
    }
}

/// Index of the first spread field, or `fields.len()`.
pub open spec fn first_spread(fields: Seq<Attribute>) -> int
    decreases fields.len(),
{
    if fields.len() == 0 {
        0
    } else {
        let r = first_spread(fields.drop_last());
        if r < fields.len() - 1 {
            r
        } else if fields.last().value is Spread {
            fields.len() - 1
        } else {
            fields.len() as int
        }
    }
}

/// The spread check: the first spread field must be the last field.
pub open spec fn spread_diags(fields: Seq<Attribute>) -> Seq<Diagnostic> {
    let j = first_spread(fields);
    if j < fields.len() - 1 {
        diag(DiagnosticKind::MisplacedSpread, fields[j].span)
    } else {
        Seq::empty()
    }
}

/// Every diagnostic of a component invocation, in the order the checks run.
pub open spec fn component_diags(segs: Seq<PathSegment>, span: Span, fields: Seq<Attribute>) -> Seq<
    Diagnostic,
> {
    name_shape_diags(segs) + path_args_diags(segs, span) + field_diags(fields) + key_diags(fields)
        + spread_diags(fields)
}

proof fn lemma_first_spread(fields: Seq<Attribute>, j: int)
    requires
        0 <= j <= fields.len(),
        forall|k: int| 0 <= k < j ==> !(fields[k].value is Spread),
        j == fields.len() || fields[j].value is Spread,
    ensures
        first_spread(fields) == j,
    decreases fields.len(),
{
    if fields.len() > 0 {
        if j < fields.len() - 1 {
            lemma_first_spread(fields.drop_last(), j);
        } else {
            lemma_first_spread(fields.drop_last(), fields.len() - 1);
        }
    }
}

impl Component {
    /// Everything but the diagnostics is as in `other`.
    pub open spec fn same_but_diagnostics(&self, other: &Component) -> bool {
        &&& self.name == other.name
        &&& self.name_span == other.name_span
        &&& self.generics == other.generics
        &&& self.fields == other.fields
        &&& self.children == other.children
        &&& self.dyn_idx == other.dyn_idx
    }

    /// Check the shape of the component's path.
    fn validate_path(&mut self)
        requires
            old(self).name@.len() >= 1,
        ensures
            final(self).same_but_diagnostics(old(self)),
            final(self).diagnostics@ == old(self).diagnostics@ + name_shape_diags(old(self).name@)
                + path_args_diags(old(self).name@, old(self).name_span),
    {
        let ghost d0 = self.diagnostics@;
        let n = self.name.len();
        if n == 1 {
            let text = self.name[0].ident.text.as_str();
            let len = text.unicode_len();
            if len > 0 {
                let first = text.get_char(0);
                if char_is_lowercase(first) {
                    let mut i: usize = 0;
                    while i < len && text.get_char(i) != '_'
                        invariant
                            i <= len,
                            len == text@.len(),
                            forall|k: int| 0 <= k < i ==> text@[k] != '_',
                        decreases len - i,
                    {
                        i = i + 1;
                    }
                    if i == len {
                        let span = self.name[0].ident.span;
                        self.diagnostics.push(Diagnostic { kind: DiagnosticKind::LowercaseName, span });
                    }
                }
            }
        }
        let ghost d1 = self.diagnostics@;
        proof {
            assert(d1 == d0 + name_shape_diags(self.name@)) by {
                if n == 1 {
                    assert(self.name@[0].ident.text@ == self.name[0].ident.text@);
                }
                assert(d1 =~= d0 + name_shape_diags(self.name@));
            }
        }
        let mut k: usize = 0;
        let mut found = false;
        while k + 1 < n
            invariant
                n == self.name@.len() >= 1,
                k + 1 <= n,
                self.diagnostics@ == d1,
                found == exists|x: int| 0 <= x < k && !(self.name@[x].arguments is Plain),
            decreases n - k,
        {
            match &self.name[k].arguments {
                PathArguments::Plain => {},
                _ => {
                    found = true;
                },
            }
            k = k + 1;
        }
        if found {
            let span = self.name_span;
            self.diagnostics.push(Diagnostic { kind: DiagnosticKind::ArgumentsBeforeLastSegment, span });
        }
        if let PathArguments::Parenthesized(_) = &self.name[n - 1].arguments {
            let span = self.name_span;
            self.diagnostics.push(Diagnostic { kind: DiagnosticKind::UnexpectedArguments, span });
        }
        proof {
            assert(self.diagnostics@ =~= d1 + path_args_diags(self.name@, self.name_span));
        }
    }

    /// Check the field names: custom names, and known names seen before.
    fn validate_fields(&mut self)
        ensures
            final(self).same_but_diagnostics(old(self)),
            final(self).diagnostics@ == old(self).diagnostics@ + field_diags(old(self).fields@),
    {
        let ghost d0 = self.diagnostics@;
        let mut j: usize = 0;
        while j < self.fields.len()
            invariant
                j <= self.fields@.len(),
                self.same_but_diagnostics(old(self)),
                self.diagnostics@ == d0 + field_diags(self.fields@.subrange(0, j as int)),
            decreases self.fields@.len() - j,
        {
            let ghost pre = self.fields@.subrange(0, j as int);
            let ghost cur = self.fields@.subrange(0, j + 1);
            proof {
                assert(cur.drop_last() =~= pre);
                assert(cur.last() == self.fields@[j as int]);
            }
            let span = self.fields[j].span;
            match &self.fields[j].name {
                AttributeName::Custom(_) => {
                    self.diagnostics.push(Diagnostic { kind: DiagnosticKind::CustomField, span });
                    proof {
                        assert(self.diagnostics@ =~= d0 + field_diags(cur));
                    }
                },
                AttributeName::BuiltIn(_) => {
                    let mut i: usize = 0;
                    while i < j && !self.fields[i].name.matches(&self.fields[j].name)
                        invariant
                            i <= j < self.fields@.len(),
                            self.fields@[j as int].name is BuiltIn,
                            forall|x: int| 0 <= x < i ==> self.fields@[x].name@ != self.fields@[j as int].name@,
                        decreases j - i,
                    {
                        i = i + 1;
                    }
                    if i < j {
                        self.diagnostics.push(Diagnostic { kind: DiagnosticKind::DuplicateField, span });
                        proof {
                            assert(cur[i as int] == self.fields@[i as int]);
                            assert(self.diagnostics@ =~= d0 + field_diags(cur));
                        }
                    } else {
                        proof {
                            assert forall|x: int| 0 <= x < cur.len() - 1 implies (#[trigger] cur[x]).name@ != cur.last().name@ by {
                                assert(cur[x] == self.fields@[x]);
                            }
                        }
                    }
                },
                AttributeName::Spread => {},
            }
            j = j + 1;
        }
        proof {
            assert(self.fields@.subrange(0, j as int) =~= self.fields@);
        }
    }

    /// Check that the first `key` field, if any, is an interpolated string.
    fn validate_key(&mut self)
        ensures
            final(self).same_but_diagnostics(old(self)),
            final(self).diagnostics@ == old(self).diagnostics@ + key_diags(old(self).fields@),
    {
        proof {
            lemma_first_key_bounds(self.fields@);
        }
        let ghost d0 = self.diagnostics@;
        let j = find_key(&self.fields);
        if j < self.fields.len() {
            let span = self.fields[j].span;
            match &self.fields[j].value {
                AttributeValue::Text(t) => {
                    if t.is_static() {
                        self.diagnostics.push(Diagnostic { kind: DiagnosticKind::StaticKey, span });
                    }
                },
                _ => {
                    self.diagnostics.push(Diagnostic { kind: DiagnosticKind::MalformedKey, span });
                },
            }
        }
        proof {
            assert(self.diagnostics@ =~= d0 + key_diags(self.fields@));
        }
    }

    /// Check that the first spread field, if any, is the last field.
    fn validate_spread(&mut self)
        ensures
            final(self).same_but_diagnostics(old(self)),
            final(self).diagnostics@ == old(self).diagnostics@ + spread_diags(old(self).fields@),
    {
        let ghost d0 = self.diagnostics@;
        let mut j: usize = 0;
        while j < self.fields.len() && !self.fields[j].is_spread()
            invariant
                j <= self.fields@.len(),
                forall|k: int| 0 <= k < j ==> !(self.fields@[k].value is Spread),
            decreases self.fields@.len() - j,
        {
            j = j + 1;
        }
        proof {
            lemma_first_spread(self.fields@, j as int);
        }
        if j < self.fields.len() && j != self.fields.len() - 1 {
            let span = self.fields[j].span;
            self.diagnostics.push(Diagnostic { kind: DiagnosticKind::MisplacedSpread, span });
        }
        proof {
            assert(self.diagnostics@ =~= d0 + spread_diags(self.fields@));
        }
    }

    /// Build a component invocation from its parsed parts. The children are
    /// indexed as a template of their own; the checks run in turn and each
    /// adds its diagnostics, which never stop the node from being built.
    pub fn new(
        name: Vec<PathSegment>,
        name_span: Span,
        generics: Option<String>,
        fields: Vec<Attribute>,
        children: Vec<BodyNode>,
    ) -> (r: Result<Component, ParseError>)
        requires
            name@.len() >= 1,
        ensures
            (r is Ok) == fits(children@, 0),
            r matches Err(e) ==> e == ParseError::PathOverflow,
            r matches Ok(c) ==> {
                &&& c.name == name
                &&& c.name_span == name_span
                &&& c.generics == generics
                &&& c.fields == fields
                &&& c.children.wf()
                &&& same_shapes(children@, c.children.roots@)
                &&& c.dyn_idx is None
                &&& c.diagnostics@ == component_diags(name@, name_span, fields@)
            },
    {
        let children = match crate::body::TemplateBody::from_nodes(children) {
            Ok(b) => b,
            Err(e) => {
                return Err(e);
            },
        };
        let mut component = Component {
            name,
            name_span,
            generics,
            fields,
            children,
            dyn_idx: None,
            diagnostics: Diagnostics::new(),
        };
        component.validate_path();
        component.validate_fields();
        component.validate_key();
        component.validate_spread();
        proof {
            assert(component.diagnostics@ =~= component_diags(name@, name_span, fields@));
        }
        Ok(component)
    }
}

/// The name is not a lone lowercase identifier without an underscore.
pub open spec fn name_shape_ok(segs: Seq<PathSegment>) -> bool {
    !(segs.len() == 1 && reads_as_element(segs[0].ident.text@))
}

/// Only the last segment carries arguments, and those are angle-bracketed.
pub open spec fn path_args_ok(segs: Seq<PathSegment>) -> bool {
    &&& forall|k: int| 0 <= k < segs.len() - 1 ==> segs[k].arguments is Plain
    &&& !(segs.last().arguments is Parenthesized)
}

/// No field has a custom name.
pub open spec fn no_custom_fields(fields: Seq<Attribute>) -> bool {
    forall|i: int| 0 <= i < fields.len() ==> !(fields[i].name is Custom)
}

/// No known field name appears twice.
pub open spec fn fields_unique(fields: Seq<Attribute>) -> bool {
    forall|i: int, j: int|
        0 <= i < j < fields.len() && fields[j].name is BuiltIn ==> fields[i].name@ != fields[j].name@
}

/// The first `key` field, if any, is an interpolated string.
pub open spec fn key_ok(fields: Seq<Attribute>) -> bool {
    first_key(fields) < fields.len() ==> (fields[first_key(fields)].value matches AttributeValue::Text(t)
        && !segments_static(t@))
}

/// The first spread field, if any, is the last field.
pub open spec fn spread_ok(fields: Seq<Attribute>) -> bool {
    first_spread(fields) >= fields.len() - 1
}

proof fn lemma_first_spread_bounds(fields: Seq<Attribute>)
    ensures
        0 <= first_spread(fields) <= fields.len(),
    decreases fields.len(),
{
    if fields.len() > 0 {
        lemma_first_spread_bounds(fields.drop_last());
    }
}

/// The field check finds nothing exactly when no field is custom and no known
/// name repeats; where names do not repeat it reports only custom names, and
/// where no name is custom it reports only repeats.
pub proof fn lemma_field_diags(fields: Seq<Attribute>)
    ensures
        field_diags(fields).len() == 0 <==> (no_custom_fields(fields) && fields_unique(fields)),
        fields_unique(fields) ==> forall|k: int|
            0 <= k < field_diags(fields).len() ==> (#[trigger] field_diags(fields)[k]).kind
                == DiagnosticKind::CustomField,
        no_custom_fields(fields) ==> forall|k: int|
            0 <= k < field_diags(fields).len() ==> (#[trigger] field_diags(fields)[k]).kind
                == DiagnosticKind::DuplicateField,
    decreases fields.len(),
{
    if fields.len() > 0 {
        let pre = fields.drop_last();
        let f = fields.last();
        lemma_field_diags(pre);
        assert(no_custom_fields(fields) ==> no_custom_fields(pre)) by {
            if no_custom_fields(fields) {
                assert forall|i: int| 0 <= i < pre.len() implies !(pre[i].name is Custom) by {
                    assert(pre[i] == fields[i]);
                }
            }
        }
        assert(fields_unique(fields) ==> fields_unique(pre)) by {
            if fields_unique(fields) {
                assert forall|i: int, j: int|
                    0 <= i < j < pre.len() && pre[j].name is BuiltIn implies pre[i].name@
                    != pre[j].name@ by {
                    assert(pre[i] == fields[i] && pre[j] == fields[j]);
                }
            }
        }
        let dup = exists|i: int| 0 <= i < fields.len() - 1 && (#[trigger] fields[i]).name@ == f.name@;
        if no_custom_fields(pre) && !(f.name is Custom) {
            assert(no_custom_fields(fields)) by {
                assert forall|i: int| 0 <= i < fields.len() implies !(fields[i].name is Custom) by {
                    if i < pre.len() {
                        assert(pre[i] == fields[i]);
                    }
                }
            }
        }
        if fields_unique(pre) && !(f.name is BuiltIn && dup) {
            assert(fields_unique(fields)) by {
                assert forall|i: int, j: int|
                    0 <= i < j < fields.len() && fields[j].name is BuiltIn implies fields[i].name@
                    != fields[j].name@ by {
                    if j < fields.len() - 1 {
                        assert(pre[i] == fields[i] && pre[j] == fields[j]);
                    } else {
                        assert(!(0 <= i < fields.len() - 1 && fields[i].name@ == f.name@));
                    }
                }
            }
        }
        if f.name is BuiltIn && dup {
            let i = choose|i: int| 0 <= i < fields.len() - 1 && (#[trigger] fields[i]).name@ == f.name@;
            assert(!fields_unique(fields)) by {
                assert(0 <= i < fields.len() - 1 && fields[i].name@ == fields[fields.len() - 1].name@);
            }
        }
        if f.name is Custom {
            assert(!no_custom_fields(fields)) by {
                assert(fields[fields.len() - 1].name is Custom);
            }
        }
    }
}

/// The component checks are independent: the diagnostics are empty exactly
/// when every rule holds, and where every rule holds but one, the diagnostics
/// are those of that one check, which then fires.
pub proof fn lemma_component_checks_independent(
    segs: Seq<PathSegment>,
    span: Span,
    fields: Seq<Attribute>,
)
    requires
        segs.len() >= 1,
    ensures
        component_diags(segs, span, fields).len() == 0 <==> (name_shape_ok(segs) && path_args_ok(segs)
            && no_custom_fields(fields) && fields_unique(fields) && key_ok(fields) && spread_ok(
            fields,
        )),
        !name_shape_ok(segs) && path_args_ok(segs) && no_custom_fields(fields) && fields_unique(fields)
            && key_ok(fields) && spread_ok(fields) ==> component_diags(segs, span, fields) == diag(
            DiagnosticKind::LowercaseName,
            segs[0].ident.span,
        ),
        name_shape_ok(segs) && !path_args_ok(segs) && no_custom_fields(fields) && fields_unique(fields)
            && key_ok(fields) && spread_ok(fields) ==> component_diags(segs, span, fields)
            == path_args_diags(segs, span) && path_args_diags(segs, span).len() > 0,
        name_shape_ok(segs) && path_args_ok(segs) && !no_custom_fields(fields) && fields_unique(fields)
            && key_ok(fields) && spread_ok(fields) ==> component_diags(segs, span, fields)
            == field_diags(fields) && field_diags(fields).len() > 0 && forall|k: int|
            0 <= k < field_diags(fields).len() ==> (#[trigger] field_diags(fields)[k]).kind
                == DiagnosticKind::CustomField,
        name_shape_ok(segs) && path_args_ok(segs) && no_custom_fields(fields) && !fields_unique(fields)
            && key_ok(fields) && spread_ok(fields) ==> component_diags(segs, span, fields)
            == field_diags(fields) && field_diags(fields).len() > 0 && forall|k: int|
            0 <= k < field_diags(fields).len() ==> (#[trigger] field_diags(fields)[k]).kind
                == DiagnosticKind::DuplicateField,
        name_shape_ok(segs) && path_args_ok(segs) && no_custom_fields(fields) && fields_unique(fields)
            && !key_ok(fields) && spread_ok(fields) ==> component_diags(segs, span, fields)
            == key_diags(fields) && key_diags(fields).len() == 1,
        name_shape_ok(segs) && path_args_ok(segs) && no_custom_fields(fields) && fields_unique(fields)
            && key_ok(fields) && !spread_ok(fields) ==> component_diags(segs, span, fields) == diag(
            DiagnosticKind::MisplacedSpread,
            fields[first_spread(fields)].span,
        ),
{
    lemma_field_diags(fields);
    lemma_first_key_bounds(fields);
    lemma_first_spread_bounds(fields);
    let n = name_shape_diags(segs);
    let p = path_args_diags(segs, span);
    let f = field_diags(fields);
    let k = key_diags(fields);
    let s = spread_diags(fields);
    assert(n.len() == 0 <==> name_shape_ok(segs));
    assert(p.len() == 0 <==> path_args_ok(segs));
    assert(k.len() == 0 <==> key_ok(fields));
    assert(s.len() == 0 <==> spread_ok(fields));
    assert(component_diags(segs, span, fields).len() == n.len() + p.len() + f.len() + k.len() + s.len());
    if name_shape_ok(segs) && path_args_ok(segs) && no_custom_fields(fields) && fields_unique(fields) && key_ok(fields) {
        assert(component_diags(segs, span, fields) =~= s);
    }
    if name_shape_ok(segs) && path_args_ok(segs) && no_custom_fields(fields) && fields_unique(fields) && spread_ok(fields) {
        assert(component_diags(segs, span, fields) =~= k);
    }
    if name_shape_ok(segs) && path_args_ok(segs) && key_ok(fields) && spread_ok(fields) {
        assert(component_diags(segs, span, fields) =~= f);
    }
    if name_shape_ok(segs) && no_custom_fields(fields) && fields_unique(fields) && key_ok(fields) && spread_ok(fields) {
        assert(component_diags(segs, span, fields) =~= p);
    }
    if path_args_ok(segs) && no_custom_fields(fields) && fields_unique(fields) && key_ok(fields) && spread_ok(fields) {
        assert(component_diags(segs, span, fields) =~= n);
    }
}

/// The fields handed to the component's props builder, in order: known
/// names other than `key`, without spreads, each name once, first one wins.
pub open spec fn prop_fields(fields: Seq<Attribute>) -> Seq<Attribute>
    decreases fields.len(),
{
    if fields.len() == 0 {
        Seq::empty()
    } else {
        let pre = prop_fields(fields.drop_last());
        let f = fields.last();
        if f.name is BuiltIn && f.name@ != key_name() && !(f.value is Spread) && !exists|i: int|
            0 <= i < fields.len() - 1 && (#[trigger] fields[i]).name@ == f.name@ {
            pre.push(f)
        } else {
            pre
        }
    }
}

impl Component {
    /// The expression of the first spread field, which supplies the props.
    pub fn manual_props(&self) -> (r: Option<&String>)
        ensures
            r is None <==> first_spread(self.fields@) == self.fields@.len(),
            r matches Some(e) ==> self.fields@[first_spread(self.fields@)].value
                == AttributeValue::Spread(*e),
    {
        let mut j: usize = 0;
        while j < self.fields.len() && !self.fields[j].is_spread()
            invariant
                j <= self.fields@.len(),
                forall|k: int| 0 <= k < j ==> !(self.fields@[k].value is Spread),
            decreases self.fields@.len() - j,
        {
            j = j + 1;
        }
        proof {
            lemma_first_spread(self.fields@, j as int);
        }
        if j < self.fields.len() {
            match &self.fields[j].value {
                AttributeValue::Spread(e) => Some(e),
                _ => None,
            }
        } else {
            None
        }
    }

    /// The fields handed to the props builder.
    pub fn make_field_idents(&self) -> (r: Vec<&Attribute>)
        ensures
            r@.map_values(|a: &Attribute| *a) == prop_fields(self.fields@),
    {
        let mut r: Vec<&Attribute> = Vec::new();
        let mut j: usize = 0;
        while j < self.fields.len()
            invariant
                j <= self.fields@.len(),
                r@.map_values(|a: &Attribute| *a) == prop_fields(self.fields@.subrange(0, j as int)),
            decreases self.fields@.len() - j,
        {
            let ghost cur = self.fields@.subrange(0, j + 1);
            let ghost r0 = r@;
            proof {
                assert(cur.drop_last() =~= self.fields@.subrange(0, j as int));
                assert(cur.last() == self.fields@[j as int]);
            }
            let f = &self.fields[j];
            let mut take = false;
            if let AttributeName::BuiltIn(_) = &f.name {
                if !is_key_name(&f.name) && !f.is_spread() {
                    let mut i: usize = 0;
                    while i < j && !self.fields[i].name.matches(&f.name)
                        invariant
                            i <= j < self.fields@.len(),
                            *f == self.fields@[j as int],
                            f.name is BuiltIn,
                            forall|x: int| 0 <= x < i ==> self.fields@[x].name@ != f.name@,
                        decreases j - i,
                    {
                        i = i + 1;
                    }
                    proof {
                        if i < j {
                            assert(cur[i as int] == self.fields@[i as int]);
                        } else {
                            assert forall|x: int| 0 <= x < cur.len() - 1 implies (#[trigger] cur[x]).name@
                                != cur.last().name@ by {
                                assert(cur[x] == self.fields@[x]);
                            }
                        }
                    }
                    take = i == j;
                }
            }
            if take {
                r.push(f);
            }
            proof {
                assert(r@.map_values(|a: &Attribute| *a) =~= prop_fields(cur));
            }
            j = j + 1;
        }
        proof {
            assert(self.fields@.subrange(0, j as int) =~= self.fields@);
        }
        r
    }

    /// The name the component is rendered under: its last path segment.
    pub fn fn_name(&self) -> (r: &String)
        requires
            self.name@.len() >= 1,
        ensures
            *r == self.name@.last().ident.text,
    {
        &self.name[self.name.len() - 1].ident.text
    }
}

} // verus!
