//! Template descriptors: the static skeleton of a body, with a placeholder for
//! each dynamic node and attribute, and the body's path tables.
use vstd::prelude::*;
use crate::attribute::{attr_is_static, Attribute, AttributeName, AttributeValue};
use crate::body::{
    attr_entries, attr_entries_at, element_attr_entries, entries_at, fits, is_dynamic, node_entries,
    node_fits, opt_ifmt_view, paths_of, paths_view, slot_of, under, BodyNode, TemplateBody,
};
use crate::ifmt::{copy_string, literal_text, segments_static, IfmtInput};

verus! {

broadcast use vstd::std_specs::vec::group_vec_axioms, vstd::seq::group_seq_axioms;

/// An attribute of a skeleton element.
#[derive(Clone, Debug, PartialEq, Eq)]
pub enum TemplateAttribute {
    /// Known when the template is compiled.
    Static { name: String, value: String },
    /// Filled at runtime from dynamic attribute `id`.
    Dynamic { id: usize },
}

/// A node of the static skeleton.
#[derive(Debug, PartialEq, Eq)]
pub enum TemplateNode {
    Element { tag: String, attrs: Vec<TemplateAttribute>, children: Vec<TemplateNode> },
    Text { text: String },
    /// Text filled at runtime from dynamic node `id`.
    DynamicText { id: usize },
    /// Any other node filled at runtime from dynamic node `id`.
    Dynamic { id: usize },
}

/// What the runtime instantiates: the skeleton, the path tables, the key the
/// body inherits, and the ordinal that, with the invocation's place, names it.
#[derive(Debug, PartialEq, Eq)]
pub struct Template {
    pub template_idx: usize,
    pub roots: Vec<TemplateNode>,
    pub node_paths: Vec<Vec<u8>>,
    pub attr_paths: Vec<Vec<u8>>,
    pub key: Option<IfmtInput>,
}

/// The text of an attribute's name.
pub open spec fn attr_name_text(a: Attribute) -> Seq<char> {
    match a.name {
        AttributeName::BuiltIn(n) => n@,
        AttributeName::Custom(n) => n@,
        AttributeName::Spread => Seq::empty(),
    }
}

/// The text of a static attribute's value.
pub open spec fn attr_value_text(a: Attribute) -> Seq<char> {
    match a.value {
        AttributeValue::Text(t) => literal_text(t@),
        _ => Seq::empty(),
    }
}

/// `t` stands for `a` in the skeleton: inline when static, a placeholder else.
pub open spec fn attr_stands_for(a: Attribute, t: TemplateAttribute) -> bool {
    if attr_is_static(a@) {
        t matches TemplateAttribute::Static { name, value } && name@ == attr_name_text(a) && value@
            == attr_value_text(a)
    } else {
        t is Dynamic
    }
}

/// `t` stands for `n` in the skeleton: an element is mirrored with its merged
/// attributes and children, static text is inlined, and every dynamic node is
/// a placeholder carrying its slot.
pub open spec fn node_stands_for(n: BodyNode, t: TemplateNode) -> bool
    decreases n,
{
    match n {
        BodyNode::Element(el) => match t {
            TemplateNode::Element { tag, attrs, children } => {
                &&& tag@ == el.name.text_spec()
                &&& attrs@.len() == el.merged_attributes@.len()
                &&& forall|j: int|
                    0 <= j < attrs@.len() ==> attr_stands_for(
                        el.merged_attributes@[j],
                        #[trigger] attrs@[j],
                    )
                &&& children@.len() == el.children@.len()
                &&& forall|k: int|
                    0 <= k < children@.len() ==> node_stands_for(
                        el.children@[k],
                        #[trigger] children@[k],
                    )
            },
            _ => false,
        },
        BodyNode::Text(x) => if segments_static(x.input@) {
            t matches TemplateNode::Text { text } && text@ == literal_text(x.input@)
        } else {
            t matches TemplateNode::DynamicText { id } && slot_of(n) == Some(id)
        },
        _ => t matches TemplateNode::Dynamic { id } && slot_of(n) == Some(id),
    }
}

/// The ids of an element's dynamic attribute placeholders, in order.
pub open spec fn placeholder_ids(attrs: Seq<TemplateAttribute>) -> Seq<usize>
    decreases attrs.len(),
{
    if attrs.len() == 0 {
        Seq::empty()
    } else {
        let rest = placeholder_ids(attrs.drop_last());
        match attrs.last() {
            TemplateAttribute::Dynamic { id } => rest.push(id),
            _ => rest,
        }
    }
}

/// The ids of the dynamic attribute placeholders of a skeleton list, in
/// depth-first, pre-order, left-to-right order.
pub open spec fn skeleton_attr_ids(ts: Seq<TemplateNode>) -> Seq<usize>
    decreases ts,
{
    if ts.len() == 0 {
        Seq::empty()
    } else {
        skeleton_attr_ids(ts.drop_last()) + node_attr_ids(ts.last())
    }
}

pub open spec fn node_attr_ids(t: TemplateNode) -> Seq<usize>
    decreases t,
{
    match t {
        TemplateNode::Element { attrs, children, .. } => placeholder_ids(attrs@) + skeleton_attr_ids(
            children@,
        ),
        _ => Seq::empty(),
    }
}

/// The ids `from`, `from + 1`, ..., `to - 1`.
pub open spec fn id_range(from: int, to: int) -> Seq<usize> {
    Seq::new((to - from) as nat, |i: int| (from + i) as usize)
}

/// Every dynamic node of the list and of its elements' descendants holds a slot.
pub open spec fn slots_assigned(nodes: Seq<BodyNode>) -> bool
    decreases nodes,
{
    forall|k: int| 0 <= k < nodes.len() ==> node_slots_assigned(#[trigger] nodes[k])
}

pub open spec fn node_slots_assigned(n: BodyNode) -> bool
    decreases n,
{
    match n {
        BodyNode::Element(el) => slots_assigned(el.children@),
        _ => is_dynamic(n) ==> slot_of(n) is Some,
    }
}

proof fn lemma_entries_slots_assigned(nodes: Seq<BodyNode>)
    requires
        forall|k: int|
            0 <= k < node_entries(nodes).len() ==> slot_of((#[trigger] node_entries(nodes)[k]).1) is Some,
    ensures
        slots_assigned(nodes),
    decreases nodes,
{
    if nodes.len() > 0 {
        let pre = nodes.drop_last();
        let i = (nodes.len() - 1) as u8;
        let last = nodes.last();
        let ne = node_entries(pre);
        assert(node_entries(nodes) == ne + entries_at(last, i));
        assert forall|k: int| 0 <= k < ne.len() implies slot_of((#[trigger] ne[k]).1) is Some by {
            assert(node_entries(nodes)[k] == ne[k]);
        }
        lemma_entries_slots_assigned(pre);
        if let BodyNode::Element(el) = last {
            let ce = node_entries(el.children@);
            assert forall|k: int| 0 <= k < ce.len() implies slot_of((#[trigger] ce[k]).1) is Some by {
                assert(node_entries(nodes)[ne.len() + k] == under(seq![i], ce)[k]);
            }
            lemma_entries_slots_assigned(el.children@);
        } else if is_dynamic(last) {
            assert(node_entries(nodes)[ne.len() as int] == (seq![i], last));
        }
        assert forall|k: int| 0 <= k < nodes.len() implies node_slots_assigned(#[trigger] nodes[k]) by {
            if k < pre.len() {
                assert(nodes[k] == pre[k]);
            }
        }
    }
}

proof fn lemma_attr_entries_prefix(nodes: Seq<BodyNode>, k: int)
    requires
        0 <= k <= nodes.len(),
    ensures
        attr_entries(nodes.subrange(0, k)).len() <= attr_entries(nodes).len(),
    decreases nodes.len(),
{
    if k < nodes.len() {
        assert(nodes.drop_last().subrange(0, k) =~= nodes.subrange(0, k));
        lemma_attr_entries_prefix(nodes.drop_last(), k);
    } else {
        assert(nodes.subrange(0, k) =~= nodes);
    }
}

/// The skeleton attributes of an element's merged attributes; dynamic ones
/// take the next ids.
fn attr_skeleton(attrs: &Vec<Attribute>, next: &mut usize) -> (r: Vec<TemplateAttribute>)
    requires
        *old(next) + element_attr_entries(attrs@).len() <= usize::MAX,
    ensures
        r@.len() == attrs@.len(),
        forall|j: int| 0 <= j < r@.len() ==> attr_stands_for(attrs@[j], #[trigger] r@[j]),
        *final(next) == *old(next) + element_attr_entries(attrs@).len(),
        placeholder_ids(r@) == id_range(*old(next) as int, *final(next) as int),
{
    let ghost start = *next as int;
    let mut r: Vec<TemplateAttribute> = Vec::new();
    let mut j: usize = 0;
    while j < attrs.len()
        invariant
            j <= attrs@.len(),
            start + element_attr_entries(attrs@).len() <= usize::MAX,
            r@.len() == j,
            forall|x: int| 0 <= x < j ==> attr_stands_for(attrs@[x], #[trigger] r@[x]),
            *next == start + element_attr_entries(attrs@.subrange(0, j as int)).len(),
            placeholder_ids(r@) == id_range(start, *next as int),
        decreases attrs@.len() - j,
    {
        let ghost r0 = r@;
        let a = &attrs[j];
        proof {
            assert(attrs@.subrange(0, j + 1).drop_last() =~= attrs@.subrange(0, j as int));
            lemma_element_attr_prefix(attrs@, j + 1);
        }
        if a.is_static_str_literal() {
            let name = match &a.name {
                AttributeName::BuiltIn(n) => copy_string(n),
                AttributeName::Custom(n) => copy_string(n),
                AttributeName::Spread => String::new(),
            };
            let value = match &a.value {
                AttributeValue::Text(t) => match t.to_static() {
                    Some(v) => v,
                    None => String::new(),
                },
                _ => String::new(),
            };
            r.push(TemplateAttribute::Static { name, value });
            proof {
                assert(r@.drop_last() =~= r0);
            }
        } else {
            let id = *next;
            r.push(TemplateAttribute::Dynamic { id });
            *next = *next + 1;
            proof {
                assert(r@.drop_last() =~= r0);
                assert(placeholder_ids(r@) =~= id_range(start, *next as int));
            }
        }
        j = j + 1;
    }
    proof {
        assert(attrs@.subrange(0, j as int) =~= attrs@);
    }
    r
}

proof fn lemma_element_attr_prefix(attrs: Seq<Attribute>, k: int)
    requires
        0 <= k <= attrs.len(),
    ensures
        element_attr_entries(attrs.subrange(0, k)).len() <= element_attr_entries(attrs).len(),
    decreases attrs.len(),
{
    if k < attrs.len() {
        assert(attrs.drop_last().subrange(0, k) =~= attrs.subrange(0, k));
        lemma_element_attr_prefix(attrs.drop_last(), k);
    } else {
        assert(attrs.subrange(0, k) =~= attrs);
    }
}

/// The skeleton of a sibling list; dynamic attributes take the next ids in
/// traversal order.
fn skeleton_nodes(nodes: &Vec<BodyNode>, next: &mut usize, Ghost(depth): Ghost<nat>) -> (r: Vec<
    TemplateNode,
>)
    requires
        fits(nodes@, depth),
        slots_assigned(nodes@),
        *old(next) + attr_entries(nodes@).len() <= usize::MAX,
    ensures
        r@.len() == nodes@.len(),
        forall|k: int| 0 <= k < r@.len() ==> node_stands_for(nodes@[k], #[trigger] r@[k]),
        *final(next) == *old(next) + attr_entries(nodes@).len(),
        skeleton_attr_ids(r@) == id_range(*old(next) as int, *final(next) as int),
    decreases 256 - depth,
{
    let ghost start = *next as int;
    let mut r: Vec<TemplateNode> = Vec::new();
    let mut k: usize = 0;
    while k < nodes.len()
        invariant
            k <= nodes@.len(),
            fits(nodes@, depth),
            slots_assigned(nodes@),
            start + attr_entries(nodes@).len() <= usize::MAX,
            r@.len() == k,
            forall|x: int| 0 <= x < k ==> node_stands_for(nodes@[x], #[trigger] r@[x]),
            *next == start + attr_entries(nodes@.subrange(0, k as int)).len(),
            skeleton_attr_ids(r@) == id_range(start, *next as int),
        decreases nodes@.len() - k,
    {
        let ghost r0 = r@;
        let ghost before = *next as int;
        let n = &nodes[k];
        proof {
            let cur = nodes@.subrange(0, k + 1);
            assert(cur.drop_last() =~= nodes@.subrange(0, k as int));
            assert(cur.last() == *n);
            assert(attr_entries(cur) == attr_entries(nodes@.subrange(0, k as int)) + attr_entries_at(*n, k as u8));
            lemma_attr_entries_prefix(nodes@, k + 1);
            assert(node_fits(nodes@[k as int], depth));
            assert(node_slots_assigned(nodes@[k as int]));
        }
        let t = match n {
            BodyNode::Element(el) => {
                let tag = copy_string(el.name.tag_name());
                proof {
                    assert(attr_entries_at(*n, k as u8).len() == element_attr_entries(el.merged_attributes@).len()
                        + attr_entries(el.children@).len());
                }
                let attrs = attr_skeleton(&el.merged_attributes, next);
                let children = skeleton_nodes(&el.children, next, Ghost(depth + 1));
                proof {
                    assert(placeholder_ids(attrs@) + skeleton_attr_ids(children@) =~= id_range(before, *next as int));
                }
                TemplateNode::Element { tag, attrs, children }
            },
            BodyNode::Text(x) => match x.input.to_static() {
                Some(text) => TemplateNode::Text { text },
                None => match x.dyn_idx {
                    Some(id) => TemplateNode::DynamicText { id },
                    None => unreached(),
                },
            },
            BodyNode::RawExpr(e) => match e.dyn_idx {
                Some(id) => TemplateNode::Dynamic { id },
                None => unreached(),
            },
            BodyNode::ForLoop(f) => match f.dyn_idx {
                Some(id) => TemplateNode::Dynamic { id },
                None => unreached(),
            },
            BodyNode::IfChain(c) => match c.dyn_idx {
                Some(id) => TemplateNode::Dynamic { id },
                None => unreached(),
            },
            BodyNode::Component(c) => match c.dyn_idx {
                Some(id) => TemplateNode::Dynamic { id },
                None => unreached(),
            },
        };
        let ghost tg = t;
        proof {
            assert(node_attr_ids(tg) =~= id_range(before, *next as int));
        }
        r.push(t);
        proof {
            assert(r@.drop_last() =~= r0);
            assert(skeleton_attr_ids(r@) == skeleton_attr_ids(r0) + node_attr_ids(tg));
            assert(skeleton_attr_ids(r@) =~= id_range(start, *next as int));
        }
        k = k + 1;
    }
    proof {
        assert(nodes@.subrange(0, k as int) =~= nodes@);
    }
    r
}

/// A copy of a table of paths.
fn copy_paths(v: &Vec<Vec<u8>>) -> (r: Vec<Vec<u8>>)
    ensures
        paths_view(r@) == paths_view(v@),
{
    let mut r: Vec<Vec<u8>> = Vec::new();
    let mut k: usize = 0;
    while k < v.len()
        invariant
            k <= v@.len(),
            paths_view(r@) == paths_view(v@.subrange(0, k as int)),
        decreases v@.len() - k,
    {
        let p = &v[k];
        let mut q: Vec<u8> = Vec::new();
        let mut i: usize = 0;
        while i < p.len()
            invariant
                i <= p@.len(),
                q@ == p@.subrange(0, i as int),
            decreases p@.len() - i,
        {
            q.push(p[i]);
            i = i + 1;
            proof {
                assert(q@ =~= p@.subrange(0, i as int));
            }
        }
        proof {
            assert(q@ =~= p@);
        }
        let ghost r0 = r@;
        r.push(q);
        proof {
            assert(paths_view(r@) =~= paths_view(r0).push(q@));
            assert(paths_view(v@.subrange(0, k + 1)) =~= paths_view(v@.subrange(0, k as int)).push(
                v@[k as int]@,
            ));
        }
        k = k + 1;
    }
    proof {
        assert(v@.subrange(0, k as int) =~= v@);
    }
    r
}

impl TemplateBody {
    /// The descriptor of an indexed body, or nothing for a body without roots:
    /// the skeleton mirrors the roots with a placeholder for each dynamic node
    /// (carrying its slot) and each dynamic attribute (carrying its index in
    /// the attribute table), and the path tables are the body's own.
    pub fn to_template(&self) -> (r: Option<Template>)
        requires
            self.wf(),
        ensures
            r is None <==> self.roots@.len() == 0,
            r matches Some(t) ==> {
                &&& t.template_idx == self.template_idx
                &&& t.roots@.len() == self.roots@.len()
                &&& forall|k: int|
                    0 <= k < t.roots@.len() ==> node_stands_for(self.roots@[k], #[trigger] t.roots@[k])
                &&& skeleton_attr_ids(t.roots@) == id_range(0, self.attr_paths@.len() as int)
                &&& paths_view(t.node_paths@) == paths_view(self.node_paths@)
                &&& paths_view(t.attr_paths@) == paths_view(self.attr_paths@)
                &&& opt_ifmt_view(t.key) == opt_ifmt_view(self.implicit_key)
            },
    {
        if self.roots.len() == 0 {
            return None;
        }
        proof {
            assert forall|k: int|
                0 <= k < node_entries(self.roots@).len() implies slot_of(
                (#[trigger] node_entries(self.roots@)[k]).1,
            ) is Some by {
                assert(slot_of(node_entries(self.roots@)[k].1) == Some(k as usize));
            }
            lemma_entries_slots_assigned(self.roots@);
            assert(paths_view(self.attr_paths@).len() == self.attr_paths@.len());
            assert(paths_of(attr_entries(self.roots@)).len() == attr_entries(self.roots@).len());
        }
        let n_attrs = self.attr_paths.len();
        proof {
            assert(attr_entries(self.roots@).len() == n_attrs);
        }
        let mut next: usize = 0;
        let roots = skeleton_nodes(&self.roots, &mut next, Ghost(0));
        let key = match &self.implicit_key {
            Some(k) => Some(k.duplicate()),
            None => None,
        };
        Some(
            Template {
                template_idx: self.template_idx,
                roots,
                node_paths: copy_paths(&self.node_paths),
                attr_paths: copy_paths(&self.attr_paths),
                key,
            },
        )
    }
}

} // verus!
