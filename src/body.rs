//! Template bodies and the pass that gives their dynamic parts paths and slots.
use vstd::prelude::*;
use crate::attribute::{attr_is_static, Attribute};
use crate::component::{key_of, Component};
use crate::element::Element;
use crate::diagnostics::ParseError;
use crate::ifmt::{segments_static, IfmtInput, Segment};

verus! {

broadcast use vstd::std_specs::vec::group_vec_axioms, vstd::seq::group_seq_axioms;

/// A text node: a formatted string.
#[derive(Clone, Debug, PartialEq, Eq)]
pub struct TextNode {
    pub input: IfmtInput,
    pub dyn_idx: Option<usize>,
}

/// An expression that yields nodes, held as source text.
#[derive(Clone, Debug, PartialEq, Eq)]
pub struct ExprNode {
    pub expr: String,
    pub dyn_idx: Option<usize>,
}

/// `for pat in expr { body }`.
#[derive(Debug, PartialEq, Eq)]
pub struct ForLoop {
    pub pat: String,
    pub expr: String,
    pub body: TemplateBody,
    pub dyn_idx: Option<usize>,
}

/// One `if cond { body }` branch of a chain.
#[derive(Debug, PartialEq, Eq)]
pub struct IfBranch {
    pub cond: String,
    pub body: TemplateBody,
}

/// `if .. { } else if .. { } else { }`.
#[derive(Debug, PartialEq, Eq)]
pub struct IfChain {
    pub branches: Vec<IfBranch>,
    pub else_branch: Option<TemplateBody>,
    pub dyn_idx: Option<usize>,
}

#[derive(Debug, PartialEq, Eq)]
pub enum BodyNode {
    Element(Element),
    Text(TextNode),
    RawExpr(ExprNode),
    ForLoop(ForLoop),
    IfChain(IfChain),
    Component(Component),
}

/// A set of sibling nodes indexed as one template.
#[derive(Debug, PartialEq, Eq)]
pub struct TemplateBody {
    pub roots: Vec<BodyNode>,
    /// The ordinal of this template among those of one invocation.
    pub template_idx: usize,
    pub implicit_key: Option<IfmtInput>,
    /// The path of each dynamic node; entry `k` is the node with slot `k`.
    pub node_paths: Vec<Vec<u8>>,
    /// The path of each dynamic attribute: its element's path, then its offset.
    pub attr_paths: Vec<Vec<u8>>,
}

/// The runtime slot a node was given, if any.
pub open spec fn slot_of(n: BodyNode) -> Option<usize> {
    match n {
        BodyNode::Element(_) => None,
        BodyNode::Text(t) => t.dyn_idx,
        BodyNode::RawExpr(e) => e.dyn_idx,
        BodyNode::ForLoop(f) => f.dyn_idx,
        BodyNode::IfChain(c) => c.dyn_idx,
        BodyNode::Component(c) => c.dyn_idx,
    }
}

/// A node that needs a runtime slot. Elements never do; text does when it
/// interpolates; every other kind always does.
pub open spec fn is_dynamic(n: BodyNode) -> bool {
    match n {
        BodyNode::Element(_) => false,
        BodyNode::Text(t) => !segments_static(t.input@),
        _ => true,
    }
}

/// The node with its slot replaced; an element is left as it is.
pub open spec fn with_slot(n: BodyNode, s: Option<usize>) -> BodyNode {
    match n {
        BodyNode::Element(_) => n,
        BodyNode::Text(t) => BodyNode::Text(TextNode { dyn_idx: s, ..t }),
        BodyNode::RawExpr(e) => BodyNode::RawExpr(ExprNode { dyn_idx: s, ..e }),
        BodyNode::ForLoop(f) => BodyNode::ForLoop(ForLoop { dyn_idx: s, ..f }),
        BodyNode::IfChain(c) => BodyNode::IfChain(IfChain { dyn_idx: s, ..c }),
        BodyNode::Component(c) => BodyNode::Component(Component { dyn_idx: s, ..c }),
    }
}

/// Prefix every entry's path with `p`.
pub open spec fn under<T>(p: Seq<u8>, es: Seq<(Seq<u8>, T)>) -> Seq<(Seq<u8>, T)> {
    es.map_values(|e: (Seq<u8>, T)| (p + e.0, e.1))
}

/// The paths of a list of entries.
pub open spec fn paths_of<T>(es: Seq<(Seq<u8>, T)>) -> Seq<Seq<u8>> {
    es.map_values(|e: (Seq<u8>, T)| e.0)
}

/// The views of a list of byte paths.
pub open spec fn paths_view(v: Seq<Vec<u8>>) -> Seq<Seq<u8>> {
    v.map_values(|p: Vec<u8>| p@)
}

/// The dynamic nodes of a sibling list in depth-first, pre-order, left-to-right
/// order, each with its path from the list.
pub open spec fn node_entries(nodes: Seq<BodyNode>) -> Seq<(Seq<u8>, BodyNode)>
    decreases nodes,
{
    if nodes.len() == 0 {
        Seq::empty()
    } else {
        node_entries(nodes.drop_last()) + entries_at(nodes.last(), (nodes.len() - 1) as u8)
    }
}

/// The dynamic nodes within the node at offset `i`, with their paths.
pub open spec fn entries_at(n: BodyNode, i: u8) -> Seq<(Seq<u8>, BodyNode)>
    decreases n,
{
    match n {
        BodyNode::Element(el) => under(seq![i], node_entries(el.children@)),
        _ => if is_dynamic(n) {
            seq![(seq![i], n)]
        } else {
            Seq::empty()
        },
    }
}

/// The dynamic attributes of one element's merged list, each with its offset
/// as a one-byte path.
pub open spec fn element_attr_entries(attrs: Seq<Attribute>) -> Seq<(Seq<u8>, Attribute)>
    decreases attrs.len(),
{
    if attrs.len() == 0 {
        Seq::empty()
    } else {
        let rest = element_attr_entries(attrs.drop_last());
        if attr_is_static(attrs.last()@) {
            rest
        } else {
            rest.push((seq![(attrs.len() - 1) as u8], attrs.last()))
        }
    }
}

/// The dynamic attributes of a sibling list in traversal order, each with its
/// path: the path of its element, then its offset among the merged attributes.
pub open spec fn attr_entries(nodes: Seq<BodyNode>) -> Seq<(Seq<u8>, Attribute)>
    decreases nodes,
{
    if nodes.len() == 0 {
        Seq::empty()
    } else {
        attr_entries(nodes.drop_last()) + attr_entries_at(nodes.last(), (nodes.len() - 1) as u8)
    }
}

/// The dynamic attributes within the node at offset `i`, with their paths.
pub open spec fn attr_entries_at(n: BodyNode, i: u8) -> Seq<(Seq<u8>, Attribute)>
    decreases n,
{
    match n {
        BodyNode::Element(el) => under(
            seq![i],
            element_attr_entries(el.merged_attributes@) + attr_entries(el.children@),
        ),
        _ => Seq::empty(),
    }
}

/// `b` is `a` with slots given to dynamic nodes, and nothing else changed.
pub open spec fn same_shape(a: BodyNode, b: BodyNode) -> bool
    decreases a,
{
    match (a, b) {
        (BodyNode::Element(x), BodyNode::Element(y)) => {
            &&& x.name == y.name
            &&& x.key == y.key
            &&& x.attributes == y.attributes
            &&& x.merged_attributes == y.merged_attributes
            &&& x.children@.len() == y.children@.len()
            &&& forall|k: int| 0 <= k < x.children@.len() ==> same_shape(x.children@[k], #[trigger] y.children@[k])
        },
        (BodyNode::Element(_), _) => false,
        _ => if is_dynamic(a) {
            b == with_slot(a, slot_of(b))
        } else {
            b == a
        },
    }
}

/// Each node of `b` is the node of `a` at its offset, with slots given.
pub open spec fn same_shapes(a: Seq<BodyNode>, b: Seq<BodyNode>) -> bool {
    a.len() == b.len() && forall|k: int| 0 <= k < a.len() ==> same_shape(a[k], #[trigger] b[k])
}

/// Every offset and every depth fits in a byte: at most 256 siblings, at most
/// 256 merged attributes on an element, and nodes at most 255 levels deep.
/// `depth` is the length of the path of the list's parent.
pub open spec fn fits(nodes: Seq<BodyNode>, depth: nat) -> bool
    decreases nodes,
{
    &&& nodes.len() <= 256
    &&& nodes.len() > 0 ==> depth < 255
    &&& forall|k: int| 0 <= k < nodes.len() ==> node_fits(#[trigger] nodes[k], depth)
}

pub open spec fn node_fits(n: BodyNode, depth: nat) -> bool
    decreases n,
{
    match n {
        BodyNode::Element(el) => el.merged_attributes@.len() <= 256 && fits(
            el.children@,
            depth + 1,
        ),
        _ => true,
    }
}

/// The node that a path leads to from a sibling list: its first byte picks a
/// node of the list, each later one a child of the element reached so far.
pub open spec fn resolve(nodes: Seq<BodyNode>, p: Seq<u8>) -> Option<BodyNode>
    decreases p.len(),
{
    if p.len() == 0 || p[0] >= nodes.len() {
        None
    } else if p.len() == 1 {
        Some(nodes[p[0] as int])
    } else {
        match nodes[p[0] as int] {
            BodyNode::Element(el) => resolve(el.children@, p.drop_first()),
            _ => None,
        }
    }
}

/// The attribute that a path leads to: all but its last byte lead to an
/// element, and the last picks one of its merged attributes.
pub open spec fn resolve_attr(nodes: Seq<BodyNode>, p: Seq<u8>) -> Option<Attribute> {
    if p.len() < 2 {
        None
    } else {
        match resolve(nodes, p.drop_last()) {
            Some(BodyNode::Element(el)) => if p.last() < el.merged_attributes@.len() {
                Some(el.merged_attributes@[p.last() as int])
            } else {
                None
            },
            _ => None,
        }
    }
}

proof fn lemma_paths_under_concat<T>(p: Seq<u8>, a: Seq<(Seq<u8>, T)>, b: Seq<(Seq<u8>, T)>)
    ensures
        paths_of(under(p, a + b)) == paths_of(under(p, a)) + paths_of(under(p, b)),
{
    assert(paths_of(under(p, a + b)) =~= paths_of(under(p, a)) + paths_of(under(p, b)));
}

proof fn lemma_paths_under_nested<T>(p: Seq<u8>, i: u8, a: Seq<(Seq<u8>, T)>)
    ensures
        paths_of(under(p, under(seq![i], a))) == paths_of(under(p.push(i), a)),
{
    assert forall|k: int| 0 <= k < a.len() implies #[trigger] paths_of(under(p, under(seq![i], a)))[k]
        == paths_of(under(p.push(i), a))[k] by {
        assert(p + (seq![i] + a[k].0) =~= p.push(i) + a[k].0);
    }
    assert(paths_of(under(p, under(seq![i], a))) =~= paths_of(under(p.push(i), a)));
}

proof fn lemma_paths_under_empty<T>(a: Seq<(Seq<u8>, T)>)
    ensures
        paths_of(under(Seq::<u8>::empty(), a)) == paths_of(a),
{
    assert forall|k: int| 0 <= k < a.len() implies #[trigger] paths_of(under(Seq::<u8>::empty(), a))[k]
        == paths_of(a)[k] by {
        assert(Seq::<u8>::empty() + a[k].0 =~= a[k].0);
    }
    assert(paths_of(under(Seq::<u8>::empty(), a)) =~= paths_of(a));
}

/// A copy of `p` with `b` appended.
fn path_push(p: &Vec<u8>, b: u8) -> (r: Vec<u8>)
    ensures
        r@ == p@.push(b),
{
    let mut r: Vec<u8> = Vec::new();
    let mut i: usize = 0;
    while i < p.len()
        invariant
            i <= p@.len(),
            r@ == p@.subrange(0, i as int),
        decreases p@.len() - i,
    {
        r.push(p[i]);
        i = i + 1;
        proof {
            assert(r@ =~= p@.subrange(0, i as int));
        }
    }
    r.push(b);
    proof {
        assert(r@ =~= p@.push(b));
    }
    r
}

impl TemplateBody {
    /// Record the path of every dynamic attribute of one element.
    fn assign_attr_paths(&mut self, attrs: &Vec<Attribute>, node_path: &Vec<u8>)
        requires
            attrs@.len() <= 256,
        ensures
            final(self).node_paths == old(self).node_paths,
            final(self).template_idx == old(self).template_idx,
            final(self).roots == old(self).roots,
            paths_view(final(self).attr_paths@) == paths_view(old(self).attr_paths@) + paths_of(
                under(node_path@, element_attr_entries(attrs@)),
            ),
    {
        let mut j: usize = 0;
        while j < attrs.len()
            invariant
                j <= attrs@.len() <= 256,
                self.node_paths == old(self).node_paths,
                self.template_idx == old(self).template_idx,
                self.roots == old(self).roots,
                paths_view(self.attr_paths@) == paths_view(old(self).attr_paths@) + paths_of(
                    under(node_path@, element_attr_entries(attrs@.subrange(0, j as int))),
                ),
            decreases attrs@.len() - j,
        {
            let ghost before = self.attr_paths@;
            let ghost prev = element_attr_entries(attrs@.subrange(0, j as int));
            proof {
                assert(attrs@.subrange(0, j + 1).drop_last() =~= attrs@.subrange(0, j as int));
            }
            if !attrs[j].is_static_str_literal() {
                let p = path_push(node_path, j as u8);
                self.attr_paths.push(p);
                proof {
                    let e = seq![(seq![j as u8], attrs@[j as int])];
                    lemma_paths_under_concat(node_path@, prev, e);
                    assert(prev.push((seq![j as u8], attrs@[j as int])) =~= prev + e);
                    assert(paths_of(under(node_path@, e)) =~= seq![node_path@ + seq![j as u8]]);
                    assert(node_path@ + seq![j as u8] =~= node_path@.push(j as u8));
                    assert(paths_view(self.attr_paths@) =~= paths_view(before).push(p@));
                }
            }
            j = j + 1;
        }
        proof {
            assert(attrs@.subrange(0, j as int) =~= attrs@);
        }
    }

    /// Give each dynamic node among `nodes` and their descendants the next
    /// slot, and record its path and the paths of dynamic attributes. `path`
    /// is the path of the list's parent.
    #[verifier::rlimit(50)]
    fn assign_paths_inner(&mut self, nodes: Vec<BodyNode>, path: &Vec<u8>) -> (r: Result<
        Vec<BodyNode>,
        ParseError,
    >)
        requires
            path@.len() <= 255,
        ensures
            (r is Ok) == fits(nodes@, path@.len()),
            r matches Err(e) ==> e == ParseError::PathOverflow,
            final(self).template_idx == old(self).template_idx,
            r matches Ok(out) ==> {
                &&& same_shapes(nodes@, out@)
                &&& fits(out@, path@.len())
                &&& paths_view(final(self).node_paths@) == paths_view(old(self).node_paths@)
                    + paths_of(under(path@, node_entries(out@)))
                &&& forall|k: int|
                    0 <= k < node_entries(out@).len() ==> slot_of(
                        #[trigger] node_entries(out@)[k].1,
                    ) == Some((old(self).node_paths@.len() + k) as usize)
                &&& paths_view(final(self).attr_paths@) == paths_view(old(self).attr_paths@)
                    + paths_of(under(path@, attr_entries(out@)))
            },
        decreases 255 - path@.len(),
    {
        let ghost orig = nodes@;
        let ghost old_np = paths_view(self.node_paths@);
        let ghost old_ap = paths_view(self.attr_paths@);
        let ghost old_len = self.node_paths@.len();
        let n_total = nodes.len();
        if n_total > 256 || (n_total > 0 && path.len() >= 255) {
            return Err(ParseError::PathOverflow);
        }
        let mut rest = nodes;
        let mut out: Vec<BodyNode> = Vec::new();
        let mut i: usize = 0;
        while i < n_total
            invariant
                n_total == orig.len() <= 256,
                orig == nodes@,
                self.template_idx == old(self).template_idx,
                n_total > 0 ==> path@.len() < 255,
                i <= n_total,
                rest@ == orig.subrange(i as int, n_total as int),
                out@.len() == i,
                forall|k: int| 0 <= k < i ==> same_shape(orig[k], #[trigger] out@[k]),
                forall|k: int| 0 <= k < i ==> node_fits(#[trigger] orig[k], path@.len()),
                forall|k: int| 0 <= k < i ==> node_fits(#[trigger] out@[k], path@.len()),
                paths_view(self.node_paths@) == old_np + paths_of(under(path@, node_entries(out@))),
                self.node_paths@.len() == old_len + node_entries(out@).len(),
                forall|k: int|
                    0 <= k < node_entries(out@).len() ==> slot_of(#[trigger] node_entries(out@)[k].1)
                        == Some((old_len + k) as usize),
                paths_view(self.attr_paths@) == old_ap + paths_of(under(path@, attr_entries(out@))),
            decreases n_total - i,
        {
            let ghost out_before = out@;
            let ghost np_before = paths_view(self.node_paths@);
            let ghost ap_before = paths_view(self.attr_paths@);
            let ghost count = node_entries(out@).len();
            let n = rest.remove(0);
            proof {
                assert(n == orig[i as int]);
                assert(rest@ =~= orig.subrange(i + 1, n_total as int));
            }
            let child_path = path_push(path, i as u8);
            let new_n = match n {
                BodyNode::Element(el) => {
                    let ghost g = el;
                    let Element { name, key, attributes, merged_attributes, children } = el;
                    if merged_attributes.len() > 256 {
                        proof {
                            assert(!node_fits(orig[i as int], path@.len()));
                            assert(!fits(orig, path@.len()));
                        }
                        return Err(ParseError::PathOverflow);
                    }
                    self.assign_attr_paths(&merged_attributes, &child_path);
                    let ghost ap_mid = paths_view(self.attr_paths@);
                    let children = match self.assign_paths_inner(children, &child_path) {
                        Ok(c) => c,
                        Err(e) => {
                            proof {
                                assert(!node_fits(orig[i as int], path@.len()));
                                assert(!fits(orig, path@.len()));
                            }
                            return Err(e);
                        },
                    };
                    let new_el = Element { name, key, attributes, merged_attributes, children };
                    proof {
                        lemma_paths_under_nested(path@, i as u8, node_entries(new_el.children@));
                        lemma_paths_under_nested(
                            path@,
                            i as u8,
                            element_attr_entries(new_el.merged_attributes@) + attr_entries(
                                new_el.children@,
                            ),
                        );
                        lemma_paths_under_concat(
                            child_path@,
                            element_attr_entries(new_el.merged_attributes@),
                            attr_entries(new_el.children@),
                        );
                    }
                    BodyNode::Element(new_el)
                },
                BodyNode::Text(t) => {
                    if t.input.is_static() {
                        BodyNode::Text(t)
                    } else {
                        let mut t = t;
                        t.dyn_idx = Some(self.node_paths.len());
                        self.node_paths.push(child_path);
                        BodyNode::Text(t)
                    }
                },
                BodyNode::RawExpr(e) => {
                    let mut e = e;
                    e.dyn_idx = Some(self.node_paths.len());
                    self.node_paths.push(child_path);
                    BodyNode::RawExpr(e)
                },
                BodyNode::ForLoop(f) => {
                    let mut f = f;
                    f.dyn_idx = Some(self.node_paths.len());
                    self.node_paths.push(child_path);
                    BodyNode::ForLoop(f)
                },
                BodyNode::IfChain(c) => {
                    let mut c = c;
                    c.dyn_idx = Some(self.node_paths.len());
                    self.node_paths.push(child_path);
                    BodyNode::IfChain(c)
                },
                BodyNode::Component(c) => {
                    let mut c = c;
                    c.dyn_idx = Some(self.node_paths.len());
                    self.node_paths.push(child_path);
                    BodyNode::Component(c)
                },
            };
            out.push(new_n);
            proof {
                assert(out@.drop_last() =~= out_before);
                assert(out@.last() == new_n);
                let added = entries_at(new_n, i as u8);
                assert(node_entries(out@) == node_entries(out_before) + added);
                assert(attr_entries(out@) == attr_entries(out_before) + attr_entries_at(new_n, i as u8));
                lemma_paths_under_concat(path@, node_entries(out_before), added);
                lemma_paths_under_concat(path@, attr_entries(out_before), attr_entries_at(new_n, i as u8));
                if !(new_n is Element) {
                    assert(attr_entries_at(new_n, i as u8) =~= Seq::empty());
                    assert(paths_view(self.attr_paths@) =~= old_ap + paths_of(under(path@, attr_entries(out@))));
                    if is_dynamic(new_n) {
                        assert(paths_of(under(path@, added)) =~= seq![path@ + seq![i as u8]]);
                        assert(path@ + seq![i as u8] =~= path@.push(i as u8));
                        assert(paths_view(self.node_paths@) =~= np_before.push(child_path@));
                    } else {
                        assert(added =~= Seq::empty());
                        assert(paths_view(self.node_paths@) =~= np_before);
                    }
                    assert(paths_view(self.node_paths@) =~= old_np + paths_of(under(path@, node_entries(out@))));
                } else {
                    assert(paths_view(self.node_paths@) =~= old_np + paths_of(under(path@, node_entries(out@))));
                    assert(paths_view(self.attr_paths@) =~= old_ap + paths_of(under(path@, attr_entries(out@))));
                }
                assert forall|k: int|
                    0 <= k < node_entries(out@).len() implies slot_of(#[trigger] node_entries(out@)[k].1)
                        == Some((old_len + k) as usize) by {
                    if k < count {
                        assert(node_entries(out@)[k] == node_entries(out_before)[k]);
                    } else {
                        assert(node_entries(out@)[k] == added[k - count]);
                    }
                }
            }
            i = i + 1;
        }
        proof {
            assert(out@.len() == orig.len());
            assert(same_shapes(orig, out@));
        }
        Ok(out)
    }
}

/// The view of an optional formatted string.
pub open spec fn opt_ifmt_view(k: Option<IfmtInput>) -> Option<Seq<Segment>> {
    match k {
        Some(t) => Some(t@),
        None => None,
    }
}

/// The key a body inherits from its single root: an element's key, or a
/// component's `key` field. Any other shape has none.
pub open spec fn implicit_key_spec(roots: Seq<BodyNode>) -> Option<Seq<Segment>> {
    if roots.len() == 1 {
        match roots[0] {
            BodyNode::Element(el) => opt_ifmt_view(el.key),
            BodyNode::Component(c) => key_of(c.fields@),
            _ => None,
        }
    } else {
        None
    }
}

impl TemplateBody {
    /// The body is indexed: its tables list the paths of its dynamic nodes and
    /// attributes in traversal order, and the node at entry `k` holds slot `k`.
    pub open spec fn wf(&self) -> bool {
        &&& fits(self.roots@, 0)
        &&& paths_view(self.node_paths@) == paths_of(node_entries(self.roots@))
        &&& forall|k: int|
            0 <= k < node_entries(self.roots@).len() ==> slot_of(
                #[trigger] node_entries(self.roots@)[k].1,
            ) == Some(k as usize)
        &&& paths_view(self.attr_paths@) == paths_of(attr_entries(self.roots@))
        &&& opt_ifmt_view(self.implicit_key) == implicit_key_spec(self.roots@)
    }

    /// Index a list of freshly built nodes as one template: each dynamic node
    /// gets the next slot in depth-first, pre-order, left-to-right order, and
    /// its path and the paths of dynamic attributes are recorded. Fails when an
    /// offset or the depth does not fit in a byte.
    pub fn from_nodes(nodes: Vec<BodyNode>) -> (r: Result<TemplateBody, ParseError>)
        ensures
            (r is Ok) == fits(nodes@, 0),
            r matches Err(e) ==> e == ParseError::PathOverflow,
            r matches Ok(b) ==> {
                &&& b.wf()
                &&& same_shapes(nodes@, b.roots@)
                &&& b.template_idx == 0
            },
    {
        let mut body = TemplateBody {
            roots: Vec::new(),
            template_idx: 0,
            implicit_key: None,
            node_paths: Vec::new(),
            attr_paths: Vec::new(),
        };
        let path: Vec<u8> = Vec::new();
        proof {
            assert(paths_view(body.node_paths@) =~= Seq::empty());
            assert(paths_view(body.attr_paths@) =~= Seq::empty());
        }
        match body.assign_paths_inner(nodes, &path) {
            Ok(roots) => {
                proof {
                    lemma_paths_under_empty(node_entries(roots@));
                    lemma_paths_under_empty(attr_entries(roots@));
                    assert(paths_view(body.node_paths@) =~= paths_of(node_entries(roots@)));
                    assert(paths_view(body.attr_paths@) =~= paths_of(attr_entries(roots@)));
                }
                body.roots = roots;
                body.implicit_key = body.implicit_key();
                Ok(body)
            },
            Err(e) => Err(e),
        }
    }

    pub fn is_empty(&self) -> (r: bool)
        ensures
            r == (self.roots@.len() == 0),
    {
        self.roots.len() == 0
    }

    /// The key the body inherits from its single root, if any.
    pub fn implicit_key(&self) -> (r: Option<IfmtInput>)
        ensures
            opt_ifmt_view(r) == implicit_key_spec(self.roots@),
    {
        if self.roots.len() != 1 {
            return None;
        }
        match &self.roots[0] {
            BodyNode::Element(el) => match &el.key {
                Some(k) => Some(k.duplicate()),
                None => None,
            },
            BodyNode::Component(c) => match c.key() {
                Some(k) => Some(k.duplicate()),
                None => None,
            },
            _ => None,
        }
    }

    /// The node a path leads to.
    pub fn get_dyn_node(&self, path: &[u8]) -> (r: &BodyNode)
        requires
            resolve(self.roots@, path@) is Some,
        ensures
            resolve(self.roots@, path@) == Some(*r),
    {
        let mut node = &self.roots[path[0] as usize];
        let mut i: usize = 1;
        while i < path.len()
            invariant
                1 <= i <= path@.len(),
                resolve(self.roots@, path@) is Some,
                resolve(self.roots@, path@) == if i == path@.len() {
                    Some(*node)
                } else {
                    match *node {
                        BodyNode::Element(el) => resolve(el.children@, path@.subrange(i as int, path@.len() as int)),
                        _ => None,
                    }
                },
            decreases path@.len() - i,
        {
            match node {
                BodyNode::Element(el) => {
                    let ghost rest = path@.subrange(i as int, path@.len() as int);
                    proof {
                        assert(rest.drop_first() =~= path@.subrange(i + 1, path@.len() as int));
                    }
                    node = &el.children[path[i] as usize];
                },
                _ => unreached(),
            }
            i = i + 1;
        }
        node
    }

    /// The attribute a path leads to: all but its last byte lead to an element,
    /// and the last picks one of that element's merged attributes.
    pub fn get_dyn_attr(&self, path: &[u8]) -> (r: &Attribute)
        requires
            resolve_attr(self.roots@, path@) is Some,
        ensures
            resolve_attr(self.roots@, path@) == Some(*r),
    {
        let last = path.len() - 1;
        let (head, _tail) = path.split_at(last);
        proof {
            assert(head@ =~= path@.drop_last());
        }
        match self.get_dyn_node(head) {
            BodyNode::Element(el) => &el.merged_attributes[path[last] as usize],
            _ => unreached(),
        }
    }
}

proof fn lemma_fits_prefix(nodes: Seq<BodyNode>, depth: nat)
    requires
        nodes.len() > 0,
        fits(nodes, depth),
    ensures
        fits(nodes.drop_last(), depth),
        node_fits(nodes.last(), depth),
{
    let pre = nodes.drop_last();
    assert forall|k: int| 0 <= k < pre.len() implies node_fits(#[trigger] pre[k], depth) by {
        assert(pre[k] == nodes[k]);
    }
    assert(node_fits(nodes[nodes.len() - 1], depth));
}

proof fn lemma_resolve_in_prefix(nodes: Seq<BodyNode>, p: Seq<u8>)
    requires
        nodes.len() > 0,
        p.len() >= 1,
        p[0] < nodes.len() - 1,
    ensures
        resolve(nodes, p) == resolve(nodes.drop_last(), p),
{
    assert(nodes[p[0] as int] == nodes.drop_last()[p[0] as int]);
}

proof fn lemma_element_attr_entries(attrs: Seq<Attribute>)
    requires
        attrs.len() <= 256,
    ensures
        forall|k: int|
            0 <= k < element_attr_entries(attrs).len() ==> {
                let e = #[trigger] element_attr_entries(attrs)[k];
                &&& e.0.len() == 1
                &&& e.0[0] < attrs.len()
                &&& attrs[e.0[0] as int] == e.1
                &&& !attr_is_static(e.1@)
            },
    decreases attrs.len(),
{
    if attrs.len() > 0 {
        lemma_element_attr_entries(attrs.drop_last());
        let pre = element_attr_entries(attrs.drop_last());
        assert forall|k: int| 0 <= k < element_attr_entries(attrs).len() implies {
            let e = #[trigger] element_attr_entries(attrs)[k];
            &&& e.0.len() == 1
            &&& e.0[0] < attrs.len()
            &&& attrs[e.0[0] as int] == e.1
            &&& !attr_is_static(e.1@)
        } by {
            if k < pre.len() {
                assert(element_attr_entries(attrs)[k] == pre[k]);
                assert(attrs[pre[k].0[0] as int] == attrs.drop_last()[pre[k].0[0] as int]);
            }
        }
    }
}

proof fn lemma_entries_resolve(nodes: Seq<BodyNode>, depth: nat)
    requires
        fits(nodes, depth),
    ensures
        forall|k: int|
            0 <= k < node_entries(nodes).len() ==> {
                let e = #[trigger] node_entries(nodes)[k];
                &&& e.0.len() >= 1
                &&& e.0[0] < nodes.len()
                &&& resolve(nodes, e.0) == Some(e.1)
            },
        forall|k: int|
            0 <= k < attr_entries(nodes).len() ==> {
                let e = #[trigger] attr_entries(nodes)[k];
                &&& e.0.len() >= 2
                &&& e.0[0] < nodes.len()
                &&& resolve_attr(nodes, e.0) == Some(e.1)
                &&& !attr_is_static(e.1@)
            },
    decreases nodes,
{
    if nodes.len() > 0 {
        let pre = nodes.drop_last();
        let i = (nodes.len() - 1) as u8;
        let last = nodes.last();
        lemma_fits_prefix(nodes, depth);
        lemma_entries_resolve(pre, depth);
        let ne = node_entries(pre);
        let ae = attr_entries(pre);
        assert(node_entries(nodes) == ne + entries_at(last, i));
        assert(attr_entries(nodes) == ae + attr_entries_at(last, i));
        if let BodyNode::Element(el) = last {
            lemma_entries_resolve(el.children@, depth + 1);
            lemma_element_attr_entries(el.merged_attributes@);
        }
        assert forall|k: int| 0 <= k < node_entries(nodes).len() implies {
            let e = #[trigger] node_entries(nodes)[k];
            &&& e.0.len() >= 1
            &&& e.0[0] < nodes.len()
            &&& resolve(nodes, e.0) == Some(e.1)
        } by {
            if k < ne.len() {
                assert(node_entries(nodes)[k] == ne[k]);
                lemma_resolve_in_prefix(nodes, ne[k].0);
            } else {
                let e = node_entries(nodes)[k];
                assert(e == entries_at(last, i)[k - ne.len()]);
                if let BodyNode::Element(el) = last {
                    assert(entries_at(last, i) == under(seq![i], node_entries(el.children@)));
                    let c = node_entries(el.children@)[k - ne.len()];
                    assert(e == (seq![i] + c.0, c.1));
                    assert((seq![i] + c.0).drop_first() =~= c.0);
                } else {
                    assert(e == (seq![i], last));
                }
            }
        }
        assert forall|k: int| 0 <= k < attr_entries(nodes).len() implies {
            let e = #[trigger] attr_entries(nodes)[k];
            &&& e.0.len() >= 2
            &&& e.0[0] < nodes.len()
            &&& resolve_attr(nodes, e.0) == Some(e.1)
            &&& !attr_is_static(e.1@)
        } by {
            if k < ae.len() {
                assert(attr_entries(nodes)[k] == ae[k]);
                assert(ae[k].0.drop_last()[0] == ae[k].0[0]);
                lemma_resolve_in_prefix(nodes, ae[k].0.drop_last());
            } else {
                let e = attr_entries(nodes)[k];
                assert(e == attr_entries_at(last, i)[k - ae.len()]);
                if let BodyNode::Element(el) = last {
                    let m = element_attr_entries(el.merged_attributes@);
                    let both = m + attr_entries(el.children@);
                    assert(attr_entries_at(last, i) == under(seq![i], both));
                    let c = both[k - ae.len()];
                    assert(e == (seq![i] + c.0, c.1));
                    if k - ae.len() < m.len() {
                        assert(c == m[k - ae.len()]);
                        assert((seq![i] + c.0).drop_last() =~= seq![i]);
                    } else {
                        let q = c.0;
                        assert(c == attr_entries(el.children@)[k - ae.len() - m.len()]);
                        assert((seq![i] + q).drop_last() =~= seq![i] + q.drop_last());
                        assert((seq![i] + q.drop_last()).drop_first() =~= q.drop_last());
                        assert((seq![i] + q).last() == q.last());
                    }
                } else {
                    assert(false);
                }
            }
        }
    }
}

/// Density: in an indexed body the dynamic nodes, taken in traversal order,
/// hold the slots 0, 1, ..., n - 1, one each, where n is the number of node
/// paths; and the attribute table holds one path per dynamic attribute, whose
/// index is its position there.
pub proof fn lemma_slots_dense(b: &TemplateBody)
    requires
        b.wf(),
    ensures
        node_entries(b.roots@).len() == b.node_paths@.len(),
        node_entries(b.roots@).map_values(|e: (Seq<u8>, BodyNode)| slot_of(e.1)) == Seq::new(
            b.node_paths@.len(),
            |k: int| Some(k as usize),
        ),
        attr_entries(b.roots@).len() == b.attr_paths@.len(),
{
    assert(paths_view(b.node_paths@).len() == b.node_paths@.len());
    assert(paths_view(b.attr_paths@).len() == b.attr_paths@.len());
    assert(node_entries(b.roots@).map_values(|e: (Seq<u8>, BodyNode)| slot_of(e.1)) =~= Seq::new(
        b.node_paths@.len(),
        |k: int| Some(k as usize),
    ));
}

/// Path round trip: the path recorded at entry `k` of the node table leads
/// from the roots to a node that holds slot `k`.
pub proof fn lemma_node_path_round_trip(b: &TemplateBody, k: int)
    requires
        b.wf(),
        0 <= k < b.node_paths@.len(),
    ensures
        resolve(b.roots@, b.node_paths@[k]@) matches Some(n) && slot_of(n) == Some(k as usize),
{
    lemma_entries_resolve(b.roots@, 0);
    assert(paths_view(b.node_paths@).len() == b.node_paths@.len());
    assert(paths_of(node_entries(b.roots@)).len() == node_entries(b.roots@).len());
    assert(paths_view(b.node_paths@)[k] == b.node_paths@[k]@);
    let e = node_entries(b.roots@)[k];
    assert(paths_of(node_entries(b.roots@))[k] == e.0);
}

/// The path recorded at entry `k` of the attribute table leads to a merged
/// attribute that is not static.
pub proof fn lemma_attr_path_round_trip(b: &TemplateBody, k: int)
    requires
        b.wf(),
        0 <= k < b.attr_paths@.len(),
    ensures
        resolve_attr(b.roots@, b.attr_paths@[k]@) matches Some(a) && !attr_is_static(a@),
{
    lemma_entries_resolve(b.roots@, 0);
    assert(paths_view(b.attr_paths@).len() == b.attr_paths@.len());
    assert(paths_of(attr_entries(b.roots@)).len() == attr_entries(b.roots@).len());
    assert(paths_view(b.attr_paths@)[k] == b.attr_paths@[k]@);
    let e = attr_entries(b.roots@)[k];
    assert(paths_of(attr_entries(b.roots@))[k] == e.0);
}

impl TemplateBody {
    /// The dynamic nodes, in slot order.
    pub fn dynamic_nodes(&self) -> (r: Vec<&BodyNode>)
        requires
            self.wf(),
        ensures
            r@.len() == self.node_paths@.len(),
            forall|k: int|
                0 <= k < r@.len() ==> resolve(self.roots@, self.node_paths@[k]@) == Some(
                    *#[trigger] r@[k],
                ) && slot_of(*r@[k]) == Some(k as usize),
    {
        let mut r: Vec<&BodyNode> = Vec::new();
        let mut k: usize = 0;
        while k < self.node_paths.len()
            invariant
                self.wf(),
                k <= self.node_paths@.len(),
                r@.len() == k,
                forall|j: int|
                    0 <= j < k ==> resolve(self.roots@, self.node_paths@[j]@) == Some(
                        *#[trigger] r@[j],
                    ) && slot_of(*r@[j]) == Some(j as usize),
            decreases self.node_paths@.len() - k,
        {
            proof {
                lemma_node_path_round_trip(self, k as int);
            }
            let n = self.get_dyn_node(self.node_paths[k].as_slice());
            r.push(n);
            k = k + 1;
        }
        r
    }

    /// The dynamic attributes, in slot order.
    pub fn dynamic_attributes(&self) -> (r: Vec<&Attribute>)
        requires
            self.wf(),
        ensures
            r@.len() == self.attr_paths@.len(),
            forall|k: int|
                0 <= k < r@.len() ==> resolve_attr(self.roots@, self.attr_paths@[k]@) == Some(
                    *#[trigger] r@[k],
                ),
    {
        let mut r: Vec<&Attribute> = Vec::new();
        let mut k: usize = 0;
        while k < self.attr_paths.len()
            invariant
                self.wf(),
                k <= self.attr_paths@.len(),
                r@.len() == k,
                forall|j: int|
                    0 <= j < k ==> resolve_attr(self.roots@, self.attr_paths@[j]@) == Some(
                        *#[trigger] r@[j],
                    ),
            decreases self.attr_paths@.len() - k,
        {
            proof {
                lemma_attr_path_round_trip(self, k as int);
            }
            let a = self.get_dyn_attr(self.attr_paths[k].as_slice());
            r.push(a);
            k = k + 1;
        }
        r
    }
}

/// A node the static skeleton holds whole: static text, or an element whose
/// merged attributes are all static and whose children are all such nodes.
pub open spec fn is_static_node(n: BodyNode) -> bool
    decreases n,
{
    match n {
        BodyNode::Element(el) => {
            &&& forall|j: int|
                0 <= j < el.merged_attributes@.len() ==> attr_is_static(
                    (#[trigger] el.merged_attributes@[j])@,
                )
            &&& forall|k: int|
                0 <= k < el.children@.len() ==> is_static_node(#[trigger] el.children@[k])
        },
        BodyNode::Text(t) => segments_static(t.input@),
        _ => false,
    }
}

proof fn lemma_static_attrs(attrs: Seq<Attribute>)
    requires
        forall|j: int| 0 <= j < attrs.len() ==> attr_is_static((#[trigger] attrs[j])@),
    ensures
        element_attr_entries(attrs).len() == 0,
    decreases attrs.len(),
{
    if attrs.len() > 0 {
        lemma_static_attrs(attrs.drop_last());
        assert(attr_is_static(attrs[attrs.len() - 1]@));
    }
}

/// A text node needs a slot exactly when its formatted string has an
/// interpolated segment.
pub proof fn lemma_text_dynamic(t: TextNode)
    ensures
        is_dynamic(BodyNode::Text(t)) <==> exists|j: int|
            0 <= j < t.input@.len() && t.input@[j] is Formatted,
{
}

/// A list of static subtrees records no node path and no attribute path: it
/// lives in the static skeleton alone.
pub proof fn lemma_static_subtree(nodes: Seq<BodyNode>)
    requires
        forall|k: int| 0 <= k < nodes.len() ==> is_static_node(#[trigger] nodes[k]),
    ensures
        node_entries(nodes).len() == 0,
        attr_entries(nodes).len() == 0,
    decreases nodes,
{
    if nodes.len() > 0 {
        let pre = nodes.drop_last();
        assert forall|k: int| 0 <= k < pre.len() implies is_static_node(#[trigger] pre[k]) by {
            assert(pre[k] == nodes[k]);
        }
        lemma_static_subtree(pre);
        let last = nodes[nodes.len() - 1];
        if let BodyNode::Element(el) = last {
            lemma_static_attrs(el.merged_attributes@);
            lemma_static_subtree(el.children@);
        }
        let i = (nodes.len() - 1) as u8;
        assert(node_entries(nodes) == node_entries(pre) + entries_at(last, i));
        assert(attr_entries(nodes) == attr_entries(pre) + attr_entries_at(last, i));
    }
}

} // verus!
