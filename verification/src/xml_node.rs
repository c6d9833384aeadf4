//! Subtrees as values. An `XmlNode` owns its children, so a whole subtree
//! can be built, handed over and read as one value; a document takes such a
//! value in under one of its elements and gives a copy of any of its
//! subtrees out.

use vstd::prelude::*;
use crate::error::OfficeError;
use crate::text::str_eq;
use crate::xml_document::{DocumentModel, XmlDocument, rank_of, retain};
use crate::xml_tree::{
    ElementModel, attribute_in, find_attribute, opt_text, opt_text_ref, pairs_view,
};

verus! {

/// What a subtree is, as plain mathematical values.
pub struct Node {
    pub tag: Seq<char>,
    /// Name and value of each attribute, in the order of writing.
    pub attributes: Seq<(Seq<char>, Seq<char>)>,
    pub value: Option<Seq<char>>,
    pub children: Seq<Node>,
}

impl Node {
    /// An element without attributes, value or children.
    pub open spec fn leaf(tag: Seq<char>) -> Node {
        Node { tag, attributes: Seq::empty(), value: None, children: Seq::empty() }
    }

    /// The value of the attribute `name`, if the node has one.
    pub open spec fn attribute(self, name: Seq<char>) -> Option<Seq<char>> {
        attribute_in(self.attributes, name)
    }
}

/// The last of `nodes` that is named `tag`, if there is one.
pub open spec fn last_named(nodes: Seq<Node>, tag: Seq<char>) -> Option<Node>
    decreases nodes.len(),
{
    if nodes.len() == 0 {
        None
    } else if nodes.last().tag == tag {
        Some(nodes.last())
    } else {
        last_named(nodes.drop_last(), tag)
    }
}

/// A subtree: an element together with the subtrees of its children.
#[derive(Debug)]
pub struct XmlNode {
    pub tag: String,
    pub attributes: Vec<(String, String)>,
    pub value: Option<String>,
    pub children: Vec<XmlNode>,
}

impl XmlNode {
    /// The subtree as plain mathematical values.
    pub open spec fn model(&self) -> Node
        decreases self,
    {
        Node {
            tag: self.tag@,
            attributes: pairs_view(self.attributes@),
            value: opt_text(self.value),
            children: Seq::new(
                self.children@.len(),
                |k: int|
                    if 0 <= k < self.children.len() {
                        self.children[k].model()
                    } else {
                        Node::leaf(Seq::empty())
                    },
            ),
        }
    }
}

impl View for XmlNode {
    type V = Node;

    open spec fn view(&self) -> Node {
        self.model()
    }
}

/// The subtrees that a list of nodes stands for.
pub open spec fn nodes_view(nodes: Seq<XmlNode>) -> Seq<Node> {
    Seq::new(nodes.len(), |k: int| nodes[k]@)
}

/// A copy of a list of attributes.
pub fn copy_pairs(pairs: &Vec<(String, String)>) -> (copy: Vec<(String, String)>)
    ensures
        pairs_view(copy@) == pairs_view(pairs@),
{
    let mut copy: Vec<(String, String)> = Vec::new();
    let mut i: usize = 0;
    while i < pairs.len()
        invariant
            i <= pairs.len(),
            copy.len() == i,
            forall|k: int| 0 <= k < i ==> copy@[k].0@ == pairs@[k].0@ && copy@[k].1@ == pairs@[k].1@,
        decreases pairs.len() - i,
    {
        copy.push((pairs[i].0.clone(), pairs[i].1.clone()));
        i += 1;
    }
    assert(pairs_view(copy@) =~= pairs_view(pairs@));
    copy
}

/// A copy of an optional string.
pub fn copy_text(text: &Option<String>) -> (copy: Option<String>)
    ensures
        opt_text(copy) == opt_text(*text),
{
    match text {
        Some(s) => Some(s.clone()),
        None => None,
    }
}

impl XmlNode {
    /// An element named `tag`, without attributes, value or children.
    pub fn new(tag: &str) -> (node: Self)
        ensures
            node@ == Node::leaf(tag@),
    {
        let node = XmlNode {
            tag: tag.to_owned(),
            attributes: Vec::new(),
            value: None,
            children: Vec::new(),
        };
        assert(node@.attributes =~= Seq::empty());
        assert(node@.children =~= Seq::empty());
        node
    }

    /// Adds the attribute `name` with the value `value` behind those
    /// already there.
    pub fn push_attribute(&mut self, name: &str, value: String)
        ensures
            final(self)@ == (Node {
                attributes: old(self)@.attributes.push((name@, value@)),
                ..old(self)@
            }),
    {
        self.attributes.push((name.to_owned(), value));
        assert(final(self)@.attributes =~= old(self)@.attributes.push((name@, value@)));
        assert(final(self)@.children =~= old(self)@.children);
    }

    /// Adds `child` behind the children already there.
    pub fn push_child(&mut self, child: XmlNode)
        ensures
            final(self)@ == (Node { children: old(self)@.children.push(child@), ..old(self)@ }),
    {
        self.children.push(child);
        assert(final(self)@.children =~= old(self)@.children.push(child@));
    }

    /// The value of the attribute `name`, if the node has one.
    pub fn attribute_value(&self, name: &str) -> (value: Option<&String>)
        ensures
            opt_text_ref(value) == self@.attribute(name@),
    {
        find_attribute(&self.attributes, name)
    }

    /// Whether the node is named `tag`.
    pub fn is_named(&self, tag: &str) -> (named: bool)
        ensures
            named == (self@.tag == tag@),
    {
        str_eq(self.tag.as_str(), tag)
    }

    /// The last child named `tag`, if there is one.
    pub fn last_child_named(&self, tag: &str) -> (child: Option<&XmlNode>)
        ensures
            match child {
                Some(c) => last_named(self@.children, tag@) == Some(c@),
                None => last_named(self@.children, tag@) is None,
            },
    {
        let ghost all = self@.children;
        let mut i: usize = self.children.len();
        assert(all.take(i as int) == all);
        while i > 0
            invariant
                i <= self.children.len(),
                all == self@.children,
                last_named(all, tag@) == last_named(all.take(i as int), tag@),
            decreases i,
        {
            proof {
                let front = all.take(i as int);
                assert(front.last() == self.children[i - 1]@);
                assert(front.drop_last() == all.take(i - 1));
            }
            if self.children[i - 1].is_named(tag) {
                return Some(&self.children[i - 1]);
            }
            i -= 1;
        }
        None
    }
}

impl DocumentModel {
    /// The subtree of the element `id`.
    pub open spec fn tree(self, id: usize) -> Node
        decreases self.next_id - id,
    {
        let e = self.elements[id];
        Node {
            tag: e.tag,
            attributes: e.attributes,
            value: e.value,
            children: Seq::new(
                e.children.len(),
                |k: int|
                    if 0 <= k < e.children.len() && id < e.children[k] < self.next_id {
                        self.tree(e.children[k])
                    } else {
                        Node::leaf(Seq::empty())
                    },
            ),
        }
    }

    /// Whether this document came from `before` by hanging one new subtree
    /// behind the children of `parent`: the elements that were there are
    /// unchanged but for the new entry in the list of children of `parent`.
    pub open spec fn grown_from(self, before: DocumentModel, parent: usize) -> bool {
        &&& self.next_id > before.next_id
        &&& self.root_id == before.root_id
        &&& forall|x: usize|
            x < before.next_id ==> (#[trigger] self.elements.dom().contains(x)) == before.has(x)
        &&& forall|x: usize|
            #[trigger] before.elements.dom().contains(x) && x != parent ==> self.elements[x]
                == before.elements[x]
        &&& self.elements[parent] == (ElementModel {
            children: before.elements[parent].children.push(before.new_id()),
            ..before.elements[parent]
        })
    }

    /// A subtree is the same in two documents that hold the same elements
    /// from its top on.
    pub proof fn lemma_tree_frame(self, other: DocumentModel, id: usize)
        requires
            self.wf(),
            self.has(id),
            self.next_id <= other.next_id,
            forall|x: usize|
                id <= x && #[trigger] self.elements.dom().contains(x) ==> other.elements[x]
                    == self.elements[x],
        ensures
            other.tree(id) == self.tree(id),
        decreases self.next_id - id,
    {
        assert(self.elements.dom().contains(id));
        assert(self.element_ok(id));
        let e = self.elements[id];
        assert(other.elements[id] == e);
        assert forall|k: int| 0 <= k < e.children.len() implies other.tree(id).children[k]
            == self.tree(id).children[k] by {
            let c = e.children[k];
            assert(self.child_ok(id, c));
            assert(self.elements.dom().contains(c));
            assert(self.element_ok(c));
            self.lemma_tree_frame(other, c);
        }
        assert(other.tree(id).children =~= self.tree(id).children);
    }

    /// Hanging a subtree behind the children of `parent` adds it to the
    /// subtree of `parent` as its last child and changes nothing else there.
    pub proof fn lemma_tree_after_growth(self, after: DocumentModel, parent: usize, node: Node)
        requires
            self.wf(),
            after.wf(),
            self.has(parent),
            after.grown_from(self, parent),
            after.tree(self.new_id()) == node,
        ensures
            after.tree(parent) == (Node {
                children: self.tree(parent).children.push(node),
                ..self.tree(parent)
            }),
    {
        assert(self.elements.dom().contains(parent));
        assert(self.element_ok(parent));
        let e = self.elements[parent];
        let e2 = after.elements[parent];
        assert(after.elements.dom().contains(parent));
        assert(after.element_ok(parent));
        assert forall|k: int| 0 <= k < e2.children.len() implies after.tree(parent).children[k]
            == self.tree(parent).children.push(node)[k] by {
            if k < e.children.len() {
                let c = e.children[k];
                assert(e2.children[k] == c);
                assert(self.child_ok(parent, c));
                assert(self.elements.dom().contains(c));
                assert(self.element_ok(c));
                self.lemma_tree_frame(after, c);
            } else {
                assert(e2.children[k] == self.new_id());
            }
        }
        assert(after.tree(parent).children =~= self.tree(parent).children.push(node));
    }
}

impl XmlDocument {
    /// A copy of the subtree of the element `id`; nothing where the
    /// document does not hold it.
    pub fn get_tree(&self, id: usize) -> (res: Option<XmlNode>)
        requires
            self.wf(),
        ensures
            match res {
                Some(node) => self@.has(id) && node@ == self@.tree(id),
                None => !self@.has(id),
            },
        decreases self@.next_id - id,
    {
        let element = match self.get_element(id) {
            Some(e) => e,
            None => {
                return None;
            },
        };
        proof {
            assert(self@.elements.dom().contains(id));
            assert(self@.element_ok(id));
        }
        let ids = element.get_children();
        let mut children: Vec<XmlNode> = Vec::new();
        let mut k: usize = 0;
        while k < ids.len()
            invariant
                k <= ids.len(),
                self.wf(),
                self@.has(id),
                self@.element_ok(id),
                ids@ == self@.elements[id].children,
                children.len() == k,
                forall|j: int| 0 <= j < k ==> (#[trigger] children@[j])@ == self@.tree(ids@[j]),
            decreases ids.len() - k,
        {
            let c = ids[k];
            proof {
                assert(self@.child_ok(id, ids@[k as int]));
                assert(self@.elements.dom().contains(c));
                assert(self@.element_ok(c));
            }
            match self.get_tree(c) {
                Some(child) => {
                    children.push(child);
                },
                None => {
                    children.push(XmlNode::new(""));
                },
            }
            k += 1;
        }
        let node = XmlNode {
            tag: element.get_tag().to_owned(),
            attributes: copy_pairs(element.attribute_list()),
            value: copy_text(element.get_value()),
            children,
        };
        proof {
            assert forall|j: int| 0 <= j < ids.len() implies node@.children[j] == self@.tree(
                id,
            ).children[j] by {
                assert(self@.child_ok(id, ids@[j]));
                assert(self@.elements.dom().contains(ids@[j]));
                assert(self@.element_ok(ids@[j]));
            }
            assert(node@.children =~= self@.tree(id).children);
        }
        Some(node)
    }

    /// Hangs a copy of `node` behind the children of `parent`.
    fn attach(&mut self, node: &XmlNode, parent: usize) -> (id: usize)
        requires
            old(self).wf(),
            old(self)@.has(parent),
        ensures
            final(self).wf(),
            id == old(self)@.new_id(),
            final(self)@.grown_from(old(self)@, parent),
            final(self)@.tree(id) == node@,
        decreases node,
    {
        let ghost s0 = self@;
        proof {
            assert(s0.elements.dom().contains(parent));
            assert(s0.element_ok(parent));
        }
        let id = match self.append_child_mut(node.tag.as_str(), Some(parent)) {
            Ok(id) => id,
            Err(_) => 0,
        };
        let ghost s1 = self@;
        proof {
            let list = s0.elements[parent].children;
            assert(list.insert(list.len() as int, id) =~= list.push(id));
            assert(!s0.has(id)) by {
                if s0.elements.dom().contains(id) {
                    assert(s0.element_ok(id));
                }
            }
            assert(s1.grown_from(s0, parent));
        }
        let _ = self.set_attribute_mut(id, copy_pairs(&node.attributes));
        proof {
            assert(self@.grown_from(s0, parent));
        }
        match &node.value {
            Some(text) => {
                let _ = self.set_value_mut(id, text.clone());
            },
            None => {},
        }
        let ghost s3 = self@;
        proof {
            assert(s3.elements[id].children =~= Seq::<usize>::empty());
            assert(s3.grown_from(s0, parent));
        }
        let mut i: usize = 0;
        while i < node.children.len()
            invariant
                i <= node.children.len(),
                self.wf(),
                s0.wf(),
                s0.has(parent),
                id == s0.new_id(),
                parent < id,
                s3.has(id),
                s3.wf(),
                s3.grown_from(s0, parent),
                s3.next_id == s0.next_id + 1,
                self@.next_id >= s3.next_id,
                self@.root_id == s0.root_id,
                self@.has(id),
                forall|x: usize|
                    x < s3.next_id ==> (#[trigger] self@.elements.dom().contains(x)) == s3.has(x),
                forall|x: usize|
                    #[trigger] s3.elements.dom().contains(x) && x != id ==> self@.elements[x]
                        == s3.elements[x],
                self@.elements[id] == (ElementModel {
                    children: self@.elements[id].children,
                    ..s3.elements[id]
                }),
                self@.elements[id].children.len() == i,
                forall|j: int|
                    0 <= j < i ==> self@.tree(#[trigger] self@.elements[id].children[j])
                        == node.children[j]@,
            decreases node.children.len() - i,
        {
            let ghost s = self@;
            let c = self.attach(&node.children[i], id);
            proof {
                let t = self@;
                assert(t.elements.dom().contains(id));
                assert(s.elements.dom().contains(id));
                assert(s.element_ok(id));
                assert forall|j: int| 0 <= j < i implies t.tree(
                    #[trigger] t.elements[id].children[j],
                ) == node.children[j]@ by {
                    let cj = s.elements[id].children[j];
                    assert(t.elements[id].children[j] == cj);
                    assert(s.child_ok(id, cj));
                    assert(s.elements.dom().contains(cj));
                    s.lemma_tree_frame(t, cj);
                }
                assert forall|x: usize| x < s3.next_id implies (
                #[trigger] t.elements.dom().contains(x)) == s3.has(x) by {
                    assert(s.elements.dom().contains(x) == s3.has(x));
                }
                assert forall|x: usize| #[trigger]
                    s3.elements.dom().contains(x) && x != id implies t.elements[x]
                    == s3.elements[x] by {
                    assert(s3.element_ok(x));
                    assert(s.elements.dom().contains(x));
                }
            }
            i += 1;
        }
        proof {
            let t = self@;
            assert(t.elements.dom().contains(id));
            assert(t.element_ok(id));
            let e = t.elements[id];
            assert forall|k: int| 0 <= k < e.children.len() implies t.tree(id).children[k]
                == node@.children[k] by {
                assert(t.child_ok(id, e.children[k]));
                assert(t.elements.dom().contains(e.children[k]));
                assert(t.element_ok(e.children[k]));
            }
            assert(t.tree(id).children =~= node@.children);
            assert forall|x: usize| x < s0.next_id implies (#[trigger] t.elements.dom().contains(
                x,
            )) == s0.has(x) by {
                assert(s3.elements.dom().contains(x) == s0.has(x));
            }
            assert forall|x: usize| #[trigger]
                s0.elements.dom().contains(x) && x != parent implies t.elements[x]
                == s0.elements[x] by {
                assert(s0.element_ok(x));
                assert(s3.elements.dom().contains(x));
            }
            assert(s3.elements.dom().contains(parent));
        }
        id
    }

    /// The document whose root's subtree is a copy of `node`.
    pub fn from_tree(node: &XmlNode) -> (document: Self)
        ensures
            document.wf(),
            document@.parent_or_root(None) == Some(1usize),
            document@.tree(1) == node@,
    {
        let mut document = XmlDocument::new();
        let root = match document.create_root_mut(node.tag.as_str()) {
            Ok(id) => id,
            Err(_) => 0,
        };
        let _ = document.set_attribute_mut(root, copy_pairs(&node.attributes));
        match &node.value {
            Some(text) => {
                let _ = document.set_value_mut(root, text.clone());
            },
            None => {},
        }
        let ghost base = document@;
        proof {
            assert(base.elements[root].children =~= Seq::<usize>::empty());
            assert(base.tree(root).children =~= Seq::<Node>::empty());
        }
        let mut i: usize = 0;
        while i < node.children.len()
            invariant
                i <= node.children.len(),
                root == 1,
                document.wf(),
                document@.parent_or_root(None) == Some(root),
                document@.tree(root).tag == node@.tag,
                document@.tree(root).attributes == node@.attributes,
                document@.tree(root).value == node@.value,
                document@.tree(root).children == node@.children.take(i as int),
            decreases node.children.len() - i,
        {
            let _ = document.append_tree_mut(&node.children[i], Some(root));
            proof {
                assert(document@.elements.dom().contains(root));
                assert(node@.children.take(i + 1) =~= node@.children.take(i as int).push(
                    node.children[i as int]@,
                ));
            }
            i += 1;
        }
        assert(node@.children.take(i as int) =~= node@.children);
        document
    }

    /// Hangs a copy of `node` behind the children of `parent_id`, or of the
    /// root where no parent is named. Gives the id of the copy's top
    /// element.
    pub fn append_tree_mut(&mut self, node: &XmlNode, parent_id: Option<usize>) -> (res: Result<
        usize,
        OfficeError,
    >)
        requires
            old(self).wf(),
        ensures
            final(self).wf(),
            match old(self)@.parent_or_root(parent_id) {
                Some(p) => res == Ok::<usize, OfficeError>(old(self)@.new_id()) && final(self)@.grown_from(old(self)@, p) && final(self)@.tree(old(self)@.new_id()) == node@
                    && final(self)@.tree(p) == (Node {
                    children: old(self)@.tree(p).children.push(node@),
                    ..old(self)@.tree(p)
                }),
                None => res == Err::<usize, OfficeError>(OfficeError::NotFound) && final(self)@
                    == old(self)@,
            },
    {
        let parent = match parent_id {
            Some(p) => p,
            None => match self.get_root_id() {
                Some(r) => r,
                None => {
                    return Err(OfficeError::NotFound);
                },
            },
        };
        if self.get_element(parent).is_none() {
            return Err(OfficeError::NotFound);
        }
        let id = self.attach(node, parent);
        proof {
            old(self)@.lemma_tree_after_growth(self@, parent, node@);
        }
        Ok(id)
    }
}

/// The members of `nodes` that `keep` accepts, in their order.
pub open spec fn retain_nodes(nodes: Seq<Node>, keep: spec_fn(Node) -> bool) -> Seq<Node>
    decreases nodes.len(),
{
    if nodes.len() == 0 {
        nodes
    } else if keep(nodes.last()) {
        retain_nodes(nodes.drop_last(), keep).push(nodes.last())
    } else {
        retain_nodes(nodes.drop_last(), keep)
    }
}

/// The test that accepts the nodes whose tag has rank `r` in `order`.
pub open spec fn node_has_rank(order: Seq<Seq<char>>, r: nat) -> spec_fn(Node) -> bool {
    |n: Node| rank_of(n.tag, order) == r
}

/// The members of `nodes` whose rank is below `bound`, by rank, and within
/// one rank in the order that they have in `nodes`.
pub open spec fn nodes_by_rank(nodes: Seq<Node>, order: Seq<Seq<char>>, bound: nat) -> Seq<Node>
    decreases bound,
{
    if bound == 0 {
        Seq::empty()
    } else {
        nodes_by_rank(nodes, order, (bound - 1) as nat) + retain_nodes(
            nodes,
            node_has_rank(order, (bound - 1) as nat),
        )
    }
}

/// `nodes` in the order that `order` asks for: by the place of their tag
/// in `order`, those whose tag is not in it last, and otherwise as they
/// were.
pub open spec fn ordered_nodes(nodes: Seq<Node>, order: Seq<Seq<char>>) -> Seq<Node> {
    nodes_by_rank(nodes, order, order.len() + 1)
}

impl DocumentModel {
    /// The subtrees of the elements `ids`.
    pub open spec fn trees_of(self, ids: Seq<usize>) -> Seq<Node> {
        Seq::new(ids.len(), |k: int| self.tree(ids[k]))
    }

    /// The subtrees of the elements of one rank are the subtrees of that
    /// rank.
    pub proof fn lemma_trees_of_retain(self, ids: Seq<usize>, order: Seq<Seq<char>>, r: nat)
        ensures
            self.trees_of(retain(ids, self.has_rank(order, r))) == retain_nodes(
                self.trees_of(ids),
                node_has_rank(order, r),
            ),
        decreases ids.len(),
    {
        let keep = self.has_rank(order, r);
        let node_keep = node_has_rank(order, r);
        if ids.len() == 0 {
            assert(self.trees_of(ids) =~= Seq::<Node>::empty());
            assert(self.trees_of(retain(ids, keep)) =~= Seq::<Node>::empty());
        } else {
            let front = ids.drop_last();
            let last = ids.last();
            self.lemma_trees_of_retain(front, order, r);
            assert(self.trees_of(ids).drop_last() =~= self.trees_of(front));
            assert(self.trees_of(ids).last() == self.tree(last));
            assert(keep(last) == node_keep(self.tree(last)));
            if keep(last) {
                assert(self.trees_of(retain(front, keep).push(last)) =~= self.trees_of(
                    retain(front, keep),
                ).push(self.tree(last)));
            }
        }
    }

    /// The subtrees of the elements put in order are the subtrees put in
    /// order.
    pub proof fn lemma_trees_of_by_rank(self, ids: Seq<usize>, order: Seq<Seq<char>>, bound: nat)
        ensures
            self.trees_of(self.by_rank(ids, order, bound)) == nodes_by_rank(
                self.trees_of(ids),
                order,
                bound,
            ),
        decreases bound,
    {
        if bound == 0 {
            assert(self.trees_of(self.by_rank(ids, order, bound)) =~= Seq::<Node>::empty());
        } else {
            let r = (bound - 1) as nat;
            self.lemma_trees_of_by_rank(ids, order, r);
            self.lemma_trees_of_retain(ids, order, r);
            let a = self.by_rank(ids, order, r);
            let b = retain(ids, self.has_rank(order, r));
            assert(self.trees_of(a + b) =~= self.trees_of(a) + self.trees_of(b));
        }
    }

    /// Putting the children of an element in order puts their subtrees in
    /// order and changes nothing else in the element's subtree.
    pub proof fn lemma_tree_after_reorder(self, id: usize, order: Seq<Seq<char>>)
        requires
            self.wf(),
            self.has(id),
        ensures
            self.with_children(id, self.ordered_children(id, order)).tree(id) == (Node {
                children: ordered_nodes(self.tree(id).children, order),
                ..self.tree(id)
            }),
    {
        let children = self.elements[id].children;
        let ordered = self.ordered_children(id, order);
        let after = self.with_children(id, ordered);
        assert(self.elements.dom().contains(id));
        assert(self.element_ok(id));
        self.lemma_ordered_children_wf(id, order);
        self.lemma_trees_of_by_rank(children, order, order.len() + 1);
        assert(self.tree(id).children =~= self.trees_of(children)) by {
            assert forall|k: int| 0 <= k < children.len() implies self.tree(id).children[k]
                == self.trees_of(children)[k] by {
                assert(self.child_ok(id, children[k]));
                assert(self.elements.dom().contains(children[k]));
                assert(self.element_ok(children[k]));
            }
        }
        assert(after.tree(id).children =~= self.trees_of(ordered)) by {
            assert forall|k: int| 0 <= k < ordered.len() implies after.tree(id).children[k]
                == self.trees_of(ordered)[k] by {
                let c = ordered[k];
                assert(ordered.contains(c));
                assert(children.contains(c));
                let j = choose|j: int| 0 <= j < children.len() && children[j] == c;
                assert(self.child_ok(id, children[j]));
                assert(self.elements.dom().contains(c));
                assert(self.element_ok(c));
                self.lemma_tree_frame(after, c);
            }
        }
    }
}

} // verus!
