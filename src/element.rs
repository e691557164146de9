//! Elements: a tag, an optional key, attributes and children.
use vstd::prelude::*;
use crate::attribute::{attrs_view, merge_attributes, merge_spec, names_match, Attribute, AttributeValue};
use crate::diagnostics::ParseError;
use vstd::string::StringExecFns;
use crate::body::BodyNode;
use crate::ifmt::{segments_static, IfmtInput, Span};

verus! {

/// An identifier or string as written, with its place.
#[derive(Clone, Debug, PartialEq, Eq)]
pub struct Ident {
    pub text: String,
    pub span: Span,
}

/// The tag of an element: a known name, or a custom one such as `my-widget`.
#[derive(Clone, Debug, PartialEq, Eq)]
pub enum ElementName {
    Ident(Ident),
    Custom(Ident),
}

#[derive(Debug, PartialEq, Eq)]
pub struct Element {
    pub name: ElementName,
    pub key: Option<IfmtInput>,
    /// The attributes in declaration order, before merging.
    pub attributes: Vec<Attribute>,
    /// The attributes after merging; these are what the template emits.
    pub merged_attributes: Vec<Attribute>,
    pub children: Vec<BodyNode>,
}

/// Attribute `j` handles an event that an earlier attribute already handles.
pub open spec fn is_duplicate_event(attrs: Seq<Attribute>, j: int) -> bool {
    &&& 0 <= j < attrs.len()
    &&& attrs[j].value is Event
    &&& exists|i: int|
        0 <= i < j && (#[trigger] attrs[i]).value is Event && names_match(attrs[i].name@, attrs[j].name@)
}

pub open spec fn has_duplicate_event(attrs: Seq<Attribute>) -> bool {
    exists|j: int| is_duplicate_event(attrs, j)
}

/// A key that is a static string.
pub open spec fn key_is_static(key: Option<IfmtInput>) -> bool {
    match key {
        Some(k) => segments_static(k@),
        None => false,
    }
}

/// Identifiers joined by dashes, as in `my-custom-tag`.
pub open spec fn dash_joined(parts: Seq<Ident>) -> Seq<char>
    decreases parts.len(),
{
    if parts.len() <= 1 {
        if parts.len() == 0 {
            Seq::empty()
        } else {
            parts[0].text@
        }
    } else {
        dash_joined(parts.drop_last()) + seq!['-'] + parts.last().text@
    }
}

impl ElementName {
    /// The tag written as dash-separated identifiers: one identifier is a
    /// known element name; several are joined into a custom one.
    pub fn from_parts(parts: Vec<Ident>) -> (r: ElementName)
        requires
            parts@.len() >= 1,
        ensures
            parts@.len() == 1 ==> r == ElementName::Ident(parts@[0]),
            parts@.len() > 1 ==> (r matches ElementName::Custom(i) && i.text@ == dash_joined(parts@)
                && i.span == parts@[0].span),
    {
        if parts.len() == 1 {
            let mut parts = parts;
            return ElementName::Ident(parts.remove(0));
        }
        let mut text = String::new();
        text.append(parts[0].text.as_str());
        let mut i: usize = 1;
        proof {
            assert(parts@.subrange(0, 1).len() == 1);
        }
        while i < parts.len()
            invariant
                1 <= i <= parts@.len(),
                text@ == dash_joined(parts@.subrange(0, i as int)),
            decreases parts@.len() - i,
        {
            proof {
                reveal_strlit("-");
                assert(parts@.subrange(0, i + 1).drop_last() =~= parts@.subrange(0, i as int));
            }
            text.append("-");
            text.append(parts[i].text.as_str());
            i = i + 1;
            proof {
                assert(text@ =~= dash_joined(parts@.subrange(0, i as int)));
            }
        }
        proof {
            assert(parts@.subrange(0, i as int) =~= parts@);
        }
        ElementName::Custom(Ident { text, span: parts[0].span })
    }

    pub open spec fn text_spec(&self) -> Seq<char> {
        match self {
            ElementName::Ident(i) => i.text@,
            ElementName::Custom(i) => i.text@,
        }
    }

    pub open spec fn span_spec(&self) -> Span {
        match self {
            ElementName::Ident(i) => i.span,
            ElementName::Custom(i) => i.span,
        }
    }

    /// The tag as written.
    pub fn tag_name(&self) -> (r: &String)
        ensures
            r@ == self.text_spec(),
    {
        match self {
            ElementName::Ident(i) => &i.text,
            ElementName::Custom(i) => &i.text,
        }
    }

    pub fn span(&self) -> (r: Span)
        ensures
            r == self.span_spec(),
    {
        match self {
            ElementName::Ident(i) => i.span,
            ElementName::Custom(i) => i.span,
        }
    }

    /// Whether the tag is `other`.
    pub fn eq_str(&self, other: &str) -> (r: bool)
        ensures
            r == (self.text_spec() == other@),
    {
        let o = String::from_str(other);
        self.tag_name().eq(&o)
    }
}

/// The index of the first attribute that handles an event handled before it,
/// or the number of attributes.
fn find_duplicate_event(attrs: &Vec<Attribute>) -> (r: usize)
    ensures
        r <= attrs@.len(),
        r < attrs@.len() ==> is_duplicate_event(attrs@, r as int),
        forall|j: int| 0 <= j < r ==> !is_duplicate_event(attrs@, j),
{
    let mut j: usize = 0;
    while j < attrs.len()
        invariant
            j <= attrs@.len(),
            forall|x: int| 0 <= x < j ==> !is_duplicate_event(attrs@, x),
        decreases attrs@.len() - j,
    {
        if let AttributeValue::Event(_) = &attrs[j].value {
            let mut i: usize = 0;
            while i < j
                invariant
                    i <= j < attrs@.len(),
                    attrs@[j as int].value is Event,
                    forall|x: int| 0 <= x < j ==> !is_duplicate_event(attrs@, x),
                    forall|y: int|
                        0 <= y < i ==> !((#[trigger] attrs@[y]).value is Event && names_match(
                            attrs@[y].name@,
                            attrs@[j as int].name@,
                        )),
                decreases j - i,
            {
                if let AttributeValue::Event(_) = &attrs[i].value {
                    if attrs[i].name.matches(&attrs[j].name) {
                        return j;
                    }
                }
                i = i + 1;
            }
        }
        j = j + 1;
    }
    j
}

impl Element {
    /// Build an element from its parsed parts: fails when one event is handled
    /// twice or the key is a static string; otherwise the attributes are merged.
    pub fn new(
        name: ElementName,
        key: Option<IfmtInput>,
        attributes: Vec<Attribute>,
        children: Vec<BodyNode>,
    ) -> (r: Result<Element, ParseError>)
        ensures
            has_duplicate_event(attributes@) ==> (r matches Err(ParseError::DuplicateEventListener(sp))
                && exists|j: int|
                is_duplicate_event(attributes@, j) && sp == attributes@[j].span && forall|x: int|
                    0 <= x < j ==> !is_duplicate_event(attributes@, x)),
            !has_duplicate_event(attributes@) && key_is_static(key) ==> r == Err::<Element, ParseError>(
                ParseError::StaticKey(name.span_spec()),
            ),
            !has_duplicate_event(attributes@) && !key_is_static(key) ==> (r matches Ok(el) && el.name
                == name && el.key == key && el.attributes == attributes && el.children == children
                && attrs_view(el.merged_attributes@) == merge_spec(attrs_view(attributes@))),
    {
        let d = find_duplicate_event(&attributes);
        if d < attributes.len() {
            return Err(ParseError::DuplicateEventListener(attributes[d].span));
        }
        proof {
            assert forall|j: int| !is_duplicate_event(attributes@, j) by {
                if 0 <= j < attributes@.len() {
                    assert(j < d);
                }
            }
        }
        if let Some(k) = &key {
            if k.is_static() {
                return Err(ParseError::StaticKey(name.span()));
            }
        }
        let merged_attributes = merge_attributes(&attributes);
        Ok(Element { name, key, attributes, merged_attributes, children })
    }
}

} // verus!
