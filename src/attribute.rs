//! Attributes of elements and fields of components, and how repeated element
//! attributes merge.
use vstd::prelude::*;
use crate::ifmt::{copy_string, segments_static, IfmtInput, Segment, Span};

verus! {

/// The name an attribute is declared under.
#[derive(Clone, Debug, PartialEq, Eq)]
pub enum AttributeName {
    /// A name known to the element or component, written as an identifier.
    BuiltIn(String),
    /// An arbitrary name written as a string literal.
    Custom(String),
    /// A spread of a map-like expression (`..props`).
    Spread,
}

/// The value of an attribute.
#[derive(Clone, Debug, PartialEq, Eq)]
pub enum AttributeValue {
    /// A formatted string, static or interpolated.
    Text(IfmtInput),
    /// An event handler expression, held as source text.
    Event(String),
    /// A shorthand reference to a variable of the attribute's name.
    Shorthand(String),
    /// Any other expression, held as source text.
    Expr(String),
    /// The expression of a spread, held as source text.
    Spread(String),
}

#[derive(Clone, Debug, PartialEq, Eq)]
pub struct Attribute {
    pub name: AttributeName,
    pub value: AttributeValue,
    pub span: Span,
}

/// What an attribute's name is, as plain values.
pub enum NameView {
    BuiltIn(Seq<char>),
    Custom(Seq<char>),
    Spread,
}

/// What an attribute's value is, as plain values.
pub enum ValueView {
    Text(Seq<Segment>),
    Event(Seq<char>),
    Shorthand(Seq<char>),
    Expr(Seq<char>),
    Spread(Seq<char>),
}

pub struct AttrView {
    pub name: NameView,
    pub value: ValueView,
    pub span: Span,
}

impl AttributeName {
    pub open spec fn view(&self) -> NameView {
        match self {
            AttributeName::BuiltIn(n) => NameView::BuiltIn(n@),
            AttributeName::Custom(n) => NameView::Custom(n@),
            AttributeName::Spread => NameView::Spread,
        }
    }
}

impl AttributeValue {
    pub open spec fn view(&self) -> ValueView {
        match self {
            AttributeValue::Text(t) => ValueView::Text(t@),
            AttributeValue::Event(e) => ValueView::Event(e@),
            AttributeValue::Shorthand(e) => ValueView::Shorthand(e@),
            AttributeValue::Expr(e) => ValueView::Expr(e@),
            AttributeValue::Spread(e) => ValueView::Spread(e@),
        }
    }
}

impl Attribute {
    pub open spec fn view(&self) -> AttrView {
        AttrView { name: self.name@, value: self.value@, span: self.span }
    }
}

/// The views of a list of attributes.
pub open spec fn attrs_view(s: Seq<Attribute>) -> Seq<AttrView> {
    s.map_values(|a: Attribute| a@)
}

/// Two names resolve to the same attribute. A spread never matches.
pub open spec fn names_match(a: NameView, b: NameView) -> bool {
    !(a is Spread) && a == b
}

/// An attribute whose value is known when the template is compiled.
pub open spec fn attr_is_static(a: AttrView) -> bool {
    !(a.name is Spread) && match a.value {
        ValueView::Text(t) => segments_static(t),
        _ => false,
    }
}

/// The attribute that two attributes of one name declared together give, where
/// the pair combines: two formatted strings concatenate. The first one's name
/// and place are kept.
pub open spec fn combine_spec(a: AttrView, b: AttrView) -> Option<AttrView> {
    match (a.value, b.value) {
        (ValueView::Text(x), ValueView::Text(y)) => Some(
            AttrView { name: a.name, value: ValueView::Text(x + y), span: a.span },
        ),
        _ => None,
    }
}

/// Index of the first attribute of `m` that `a` matches, or `m.len()`.
pub open spec fn first_match(m: Seq<AttrView>, a: AttrView) -> int
    decreases m.len(),
{
    if m.len() == 0 {
        0
    } else {
        let r = first_match(m.drop_last(), a);
        if r < m.len() - 1 {
            r
        } else if names_match(m.last().name, a.name) {
            m.len() - 1
        } else {
            m.len() as int
        }
    }
}

/// One step of the merge: `a` is folded into the merged list `m`. Where it
/// matches an entry, the two combine if they can and the entry stays as it
/// was if they cannot; else `a` is appended.
pub open spec fn merge_step(m: Seq<AttrView>, a: AttrView) -> Seq<AttrView> {
    let j = first_match(m, a);
    if j < m.len() {
        match combine_spec(m[j], a) {
            Some(c) => m.update(j, c),
            None => m,
        }
    } else {
        m.push(a)
    }
}

/// The merge of a declared list: attributes of one name are folded into the
/// first of them, in declaration order.
pub open spec fn merge_spec(s: Seq<AttrView>) -> Seq<AttrView>
    decreases s.len(),
{
    if s.len() == 0 {
        Seq::empty()
    } else {
        merge_step(merge_spec(s.drop_last()), s.last())
    }
}

/// No two entries of the list match.
pub open spec fn names_distinct(m: Seq<AttrView>) -> bool {
    forall|i: int, j: int| 0 <= i < j < m.len() ==> !names_match(m[i].name, m[j].name)
}

proof fn lemma_first_match(m: Seq<AttrView>, a: AttrView, j: int)
    requires
        0 <= j <= m.len(),
        forall|k: int| 0 <= k < j ==> !names_match(m[k].name, a.name),
        j == m.len() || names_match(m[j].name, a.name),
    ensures
        first_match(m, a) == j,
    decreases m.len(),
{
    if m.len() > 0 {
        if j < m.len() - 1 {
            lemma_first_match(m.drop_last(), a, j);
        } else {
            lemma_first_match(m.drop_last(), a, m.len() - 1);
        }
    }
}

proof fn lemma_first_match_bounds(m: Seq<AttrView>, a: AttrView)
    ensures
        0 <= first_match(m, a) <= m.len(),
        forall|k: int| 0 <= k < first_match(m, a) ==> !names_match(m[k].name, a.name),
        first_match(m, a) < m.len() ==> names_match(m[first_match(m, a)].name, a.name),
    decreases m.len(),
{
    if m.len() > 0 {
        lemma_first_match_bounds(m.drop_last(), a);
        assert forall|k: int| 0 <= k < first_match(m, a) implies !names_match(m[k].name, a.name) by {
            if k < m.len() - 1 {
                assert(m[k] == m.drop_last()[k]);
            }
        }
    }
}

proof fn lemma_step_keeps_distinct(m: Seq<AttrView>, a: AttrView)
    requires
        names_distinct(m),
    ensures
        names_distinct(merge_step(m, a)),
{
    lemma_first_match_bounds(m, a);
    let r = merge_step(m, a);
    assert forall|x: int, y: int| 0 <= x < y < r.len() implies !names_match(
        r[x].name,
        r[y].name,
    ) by {
        if y == m.len() {
            assert(!names_match(m[x].name, a.name));
        } else {
            assert(r[x].name == m[x].name);
            assert(r[y].name == m[y].name);
        }
    }
}

proof fn lemma_merge_distinct(s: Seq<AttrView>)
    ensures
        names_distinct(merge_spec(s)),
    decreases s.len(),
{
    if s.len() > 0 {
        lemma_merge_distinct(s.drop_last());
        lemma_step_keeps_distinct(merge_spec(s.drop_last()), s.last());
    }
}

proof fn lemma_distinct_merges_to_itself(m: Seq<AttrView>)
    requires
        names_distinct(m),
    ensures
        merge_spec(m) == m,
    decreases m.len(),
{
    if m.len() > 0 {
        let p = m.drop_last();
        assert(names_distinct(p));
        lemma_distinct_merges_to_itself(p);
        assert forall|k: int| 0 <= k < p.len() implies !names_match(p[k].name, m.last().name) by {
            assert(p[k] == m[k]);
        }
        lemma_first_match(p, m.last(), p.len() as int);
        assert(p.push(m.last()) =~= m);
    }
}

/// Merging an already merged attribute list gives that list back.
pub proof fn lemma_merge_idempotent(s: Seq<AttrView>)
    ensures
        merge_spec(merge_spec(s)) == merge_spec(s),
{
    lemma_merge_distinct(s);
    lemma_distinct_merges_to_itself(merge_spec(s));
}

impl Attribute {
    pub fn duplicate(&self) -> (r: Attribute)
        ensures
            r@ == self@,
    {
        let name = match &self.name {
            AttributeName::BuiltIn(n) => AttributeName::BuiltIn(copy_string(n)),
            AttributeName::Custom(n) => AttributeName::Custom(copy_string(n)),
            AttributeName::Spread => AttributeName::Spread,
        };
        let value = match &self.value {
            AttributeValue::Text(t) => AttributeValue::Text(t.duplicate()),
            AttributeValue::Event(e) => AttributeValue::Event(copy_string(e)),
            AttributeValue::Shorthand(e) => AttributeValue::Shorthand(copy_string(e)),
            AttributeValue::Expr(e) => AttributeValue::Expr(copy_string(e)),
            AttributeValue::Spread(e) => AttributeValue::Spread(copy_string(e)),
        };
        Attribute { name, value, span: self.span }
    }
}

impl AttributeName {
    /// Whether two names resolve to the same attribute.
    pub fn matches(&self, other: &AttributeName) -> (r: bool)
        ensures
            r == names_match(self@, other@),
    {
        match (self, other) {
            (AttributeName::BuiltIn(x), AttributeName::BuiltIn(y)) => x.eq(y),
            (AttributeName::Custom(x), AttributeName::Custom(y)) => x.eq(y),
            _ => false,
        }
    }
}

impl Attribute {
    /// Whether the attribute spreads a map-like expression.
    pub fn is_spread(&self) -> (r: bool)
        ensures
            r == (self.value is Spread),
    {
        match &self.value {
            AttributeValue::Spread(_) => true,
            _ => false,
        }
    }

    /// Whether the attribute's value is known when the template is compiled.
    pub fn is_static_str_literal(&self) -> (r: bool)
        ensures
            r == attr_is_static(self@),
    {
        match (&self.name, &self.value) {
            (AttributeName::Spread, _) => false,
            (_, AttributeValue::Text(t)) => t.is_static(),
            _ => false,
        }
    }

    /// Combine `other`, declared after this attribute under the same name,
    /// into one attribute, where the two values combine.
    pub fn try_combine(&self, other: &Attribute) -> (r: Option<Attribute>)
        ensures
            r is Some <==> combine_spec(self@, other@) is Some,
            r matches Some(c) ==> Some(c@) == combine_spec(self@, other@),
    {
        match (&self.value, &other.value) {
            (AttributeValue::Text(x), AttributeValue::Text(y)) => {
                let name = self.duplicate().name;
                Some(Attribute { name, value: AttributeValue::Text(x.concat(y)), span: self.span })
            },
            _ => None,
        }
    }
}

/// Merge a declared attribute list: an attribute whose name matches an earlier
/// one is combined into it where the two combine, and dropped where they do not.
pub fn merge_attributes(attrs: &Vec<Attribute>) -> (r: Vec<Attribute>)
    ensures
        attrs_view(r@) == merge_spec(attrs_view(attrs@)),
{
    let mut merged: Vec<Attribute> = Vec::new();
    let mut i: usize = 0;
    while i < attrs.len()
        invariant
            i <= attrs@.len(),
            attrs_view(merged@) == merge_spec(attrs_view(attrs@.subrange(0, i as int))),
        decreases attrs@.len() - i,
    {
        let a = &attrs[i];
        let ghost m = attrs_view(merged@);
        let mut j: usize = 0;
        while j < merged.len() && !merged[j].name.matches(&a.name)
            invariant
                j <= merged@.len(),
                m == attrs_view(merged@),
                forall|k: int| 0 <= k < j ==> !names_match(m[k].name, a@.name),
            decreases merged@.len() - j,
        {
            j = j + 1;
        }
        proof {
            lemma_first_match(m, a@, j as int);
            assert(attrs_view(attrs@.subrange(0, i + 1)).drop_last() =~= attrs_view(
                attrs@.subrange(0, i as int),
            ));
            assert(attrs_view(attrs@.subrange(0, i + 1)).last() == a@);
        }
        if j < merged.len() {
            if let Some(c) = merged[j].try_combine(a) {
                merged.remove(j);
                merged.insert(j, c);
                proof {
                    assert(attrs_view(merged@) =~= m.update(j as int, c@));
                }
            }
        } else {
            merged.push(a.duplicate());
            proof {
                assert(attrs_view(merged@) =~= m.push(a@));
            }
        }
        i = i + 1;
    }
    proof {
        assert(attrs@.subrange(0, i as int) =~= attrs@);
    }
    merged
}

} // verus!
