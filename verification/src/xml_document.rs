//! An XML document as a table of elements keyed by id. Parent and child are
//! linked by ids only; ids grow with every element made and are never used
//! twice, so a child's id is always greater than its parent's.

use vstd::prelude::*;
use crate::error::OfficeError;
use crate::text::str_eq;
use crate::xml_tree::{ElementModel, XmlElement, pairs_view};

verus! {

/// What a document is, as plain mathematical values.
pub struct DocumentModel {
    /// The elements of the document, by id.
    pub elements: Map<usize, ElementModel>,
    /// The id of the root element, if the document has one.
    pub root_id: Option<usize>,
    /// The id that the next new element gets.
    pub next_id: nat,
}

/// The members of `ids` that `keep` accepts, in their order.
pub open spec fn retain(ids: Seq<usize>, keep: spec_fn(usize) -> bool) -> Seq<usize>
    decreases ids.len(),
{
    if ids.len() == 0 {
        ids
    } else if keep(ids.last()) {
        retain(ids.drop_last(), keep).push(ids.last())
    } else {
        retain(ids.drop_last(), keep)
    }
}

/// What `retain` keeps is what was there and is accepted; it keeps nothing
/// twice that was there once.
pub proof fn lemma_retain(ids: Seq<usize>, keep: spec_fn(usize) -> bool)
    ensures
        forall|x: usize| #[trigger]
            retain(ids, keep).contains(x) <==> ids.contains(x) && keep(x),
        ids.no_duplicates() ==> retain(ids, keep).no_duplicates(),
        retain(ids, keep).len() <= ids.len(),
    decreases ids.len(),
{
    let out = retain(ids, keep);
    if ids.len() > 0 {
        let init = ids.drop_last();
        let last = ids.last();
        let sub = retain(init, keep);
        lemma_retain(init, keep);
        assert forall|x: usize| #[trigger] out.contains(x) <==> ids.contains(x) && keep(x) by {
            if out.contains(x) {
                let i = choose|i: int| 0 <= i < out.len() && out[i] == x;
                if i < sub.len() {
                    assert(sub[i] == x);
                    assert(sub.contains(x));
                    let j = choose|j: int| 0 <= j < init.len() && init[j] == x;
                    assert(ids[j] == x);
                } else {
                    assert(x == last);
                    assert(ids[ids.len() - 1] == x);
                }
            }
            if ids.contains(x) && keep(x) {
                let j = choose|j: int| 0 <= j < ids.len() && ids[j] == x;
                if j < init.len() {
                    assert(init[j] == x);
                    assert(init.contains(x));
                    assert(sub.contains(x));
                    let i = choose|i: int| 0 <= i < sub.len() && sub[i] == x;
                    if keep(last) {
                        assert(out == sub.push(last));
                    } else {
                        assert(out == sub);
                    }
                    assert(out[i] == x);
                } else {
                    assert(x == last);
                    assert(out == sub.push(last));
                    assert(out[out.len() - 1] == x);
                }
            }
        }
        if ids.no_duplicates() {
            assert(init.no_duplicates());
            if keep(last) {
                assert(!init.contains(last)) by {
                    if init.contains(last) {
                        let j = choose|j: int| 0 <= j < init.len() && init[j] == last;
                        assert(ids[j] == ids[ids.len() - 1]);
                    }
                }
                assert(!sub.contains(last));
                assert forall|i: int, j: int| 0 <= i < out.len() && 0 <= j < out.len() && i != j implies out[i] != out[j] by {
                    if i == sub.len() {
                        assert(sub.contains(sub[j]));
                    } else if j == sub.len() {
                        assert(sub.contains(sub[i]));
                    }
                }
            }
        }
    }
}

impl DocumentModel {
    /// The document without any element.
    pub open spec fn empty() -> DocumentModel {
        DocumentModel { elements: Map::empty(), root_id: None, next_id: 1 }
    }

    /// Whether the document holds an element of this id.
    pub open spec fn has(self, id: usize) -> bool {
        self.elements.dom().contains(id)
    }

    /// Whether `child` can stand in the list of children of `parent`: it was
    /// made later, it is in the document, and it names `parent` as its parent.
    pub open spec fn child_ok(self, parent: usize, child: usize) -> bool {
        child > parent && self.has(child) && self.elements[child].parent_id == parent
    }

    /// What holds of each element of a well-formed document.
    pub open spec fn element_ok(self, id: usize) -> bool {
        let e = self.elements[id];
        &&& 0 < id < self.next_id
        &&& e.id == id
        &&& e.parent_id < id
        &&& e.children.no_duplicates()
        &&& forall|k: int| 0 <= k < e.children.len() ==> self.child_ok(id, #[trigger] e.children[k])
    }

    /// The invariant of a document: ids are below the counter; every child
    /// that an element lists is in the document, was made after its parent
    /// and is listed once; the root, where there is one, is in the document
    /// and has no parent.
    pub open spec fn wf(self) -> bool {
        &&& 1 <= self.next_id <= usize::MAX
        &&& forall|id: usize| #[trigger] self.elements.dom().contains(id) ==> self.element_ok(id)
        &&& match self.root_id {
            Some(r) => self.has(r) && self.elements[r].parent_id == 0,
            None => true,
        }
    }

    /// The id that the next new element gets.
    pub open spec fn new_id(self) -> usize {
        self.next_id as usize
    }

    /// The element under which a new child goes: the one named, or the root
    /// where none is named; nothing where that element is not there.
    pub open spec fn parent_or_root(self, parent: Option<usize>) -> Option<usize> {
        match parent {
            Some(p) => if self.has(p) {
                Some(p)
            } else {
                None
            },
            None => match self.root_id {
                Some(r) => if self.has(r) {
                    Some(r)
                } else {
                    None
                },
                None => None,
            },
        }
    }

    /// The document with a new root element named `tag`.
    pub open spec fn with_root(self, tag: Seq<char>) -> DocumentModel {
        let id = self.new_id();
        DocumentModel {
            elements: self.elements.insert(
                id,
                ElementModel { id, parent_id: 0, ..ElementModel::detached(tag, None) },
            ),
            root_id: Some(id),
            next_id: self.next_id + 1,
        }
    }

    /// The document with a new element named `tag` as the child of `parent`
    /// at place `index`.
    pub open spec fn with_child(self, parent: usize, index: int, tag: Seq<char>) -> DocumentModel {
        let id = self.new_id();
        let p = self.elements[parent];
        DocumentModel {
            elements: self.elements.insert(
                parent,
                ElementModel { children: p.children.insert(index, id), ..p },
            ).insert(id, ElementModel { id, parent_id: parent, ..ElementModel::detached(tag, None) }),
            root_id: self.root_id,
            next_id: self.next_id + 1,
        }
    }

    /// The document in which the element `id` has the attributes `attributes`.
    pub open spec fn with_attributes(
        self,
        id: usize,
        attributes: Seq<(Seq<char>, Seq<char>)>,
    ) -> DocumentModel {
        DocumentModel {
            elements: self.elements.insert(id, ElementModel { attributes, ..self.elements[id] }),
            ..self
        }
    }

    /// The document in which the element `id` has the text `text`.
    pub open spec fn with_value(self, id: usize, text: Seq<char>) -> DocumentModel {
        DocumentModel {
            elements: self.elements.insert(
                id,
                ElementModel { value: Some(text), ..self.elements[id] },
            ),
            ..self
        }
    }

    /// The document in which the element `id` lists the children `children`.
    pub open spec fn with_children(self, id: usize, children: Seq<usize>) -> DocumentModel {
        DocumentModel {
            elements: self.elements.insert(id, ElementModel { children, ..self.elements[id] }),
            ..self
        }
    }

    /// One past the place of the last child of `parent` among its first
    /// `bound` children that is named `tag`; 0 where none is.
    pub open spec fn end_of_last_tagged(self, parent: usize, tag: Seq<char>, bound: int) -> int
        decreases bound,
    {
        if bound <= 0 {
            0
        } else if self.elements[self.elements[parent].children[bound - 1]].tag == tag {
            bound
        } else {
            self.end_of_last_tagged(parent, tag, bound - 1)
        }
    }

    /// The place at which a new child of `parent` goes that is to follow the
    /// children named `after_tag`: behind the last of them, or behind all
    /// children where there is none.
    pub open spec fn place_after_tag(self, parent: usize, after_tag: Seq<char>) -> int {
        let count = self.elements[parent].children.len() as int;
        let end = self.end_of_last_tagged(parent, after_tag, count);
        if end == 0 {
            count
        } else {
            end
        }
    }

    /// A new root keeps a well-formed document well-formed.
    pub proof fn lemma_with_root_wf(self, tag: Seq<char>)
        requires
            self.wf(),
            self.next_id < usize::MAX,
            self.root_id is None,
        ensures
            self.with_root(tag).wf(),
    {
        let d = self.with_root(tag);
        let id = self.new_id();
        assert forall|x: usize| #[trigger] d.elements.dom().contains(x) implies d.element_ok(x) by {
            if x != id {
                assert(self.elements.dom().contains(x));
                assert(self.element_ok(x));
                let e = self.elements[x];
                assert forall|k: int| 0 <= k < e.children.len() implies d.child_ok(
                    x,
                    #[trigger] e.children[k],
                ) by {
                    assert(self.child_ok(x, e.children[k]));
                }
            }
        }
    }

    /// A new child keeps a well-formed document well-formed.
    pub proof fn lemma_with_child_wf(self, parent: usize, index: int, tag: Seq<char>)
        requires
            self.wf(),
            self.next_id < usize::MAX,
            self.has(parent),
            0 <= index <= self.elements[parent].children.len(),
        ensures
            self.with_child(parent, index, tag).wf(),
    {
        let d = self.with_child(parent, index, tag);
        let id = self.new_id();
        assert(self.element_ok(parent));
        assert forall|x: usize| #[trigger] d.elements.dom().contains(x) implies d.element_ok(x) by {
            if x == id {
            } else {
                assert(self.elements.dom().contains(x));
                assert(self.element_ok(x));
                let e = self.elements[x];
                let e2 = d.elements[x];
                if x == parent {
                    assert(e2.children == e.children.insert(index, id));
                    assert forall|k: int| 0 <= k < e2.children.len() implies d.child_ok(
                        x,
                        #[trigger] e2.children[k],
                    ) by {
                        if k < index {
                            assert(e2.children[k] == e.children[k]);
                            assert(self.child_ok(x, e.children[k]));
                        } else if k > index {
                            assert(e2.children[k] == e.children[k - 1]);
                            assert(self.child_ok(x, e.children[k - 1]));
                        }
                    }
                    assert forall|i: int, j: int|
                        0 <= i < e2.children.len() && 0 <= j < e2.children.len() && i != j implies e2.children[i]
                        != e2.children[j] by {
                        let a = if i < index { i } else { i - 1 };
                        let b = if j < index { j } else { j - 1 };
                        if i != index {
                            assert(e2.children[i] == e.children[a]);
                            assert(self.child_ok(x, e.children[a]));
                        }
                        if j != index {
                            assert(e2.children[j] == e.children[b]);
                            assert(self.child_ok(x, e.children[b]));
                        }
                    }
                } else {
                    assert(e2 == e);
                    assert forall|k: int| 0 <= k < e.children.len() implies d.child_ok(
                        x,
                        #[trigger] e.children[k],
                    ) by {
                        assert(self.child_ok(x, e.children[k]));
                    }
                }
            }
        }
        match self.root_id {
            Some(r) => {
                assert(self.elements.dom().contains(r));
                assert(self.element_ok(r));
            },
            None => {},
        }
    }

    /// Changing what an element holds besides its links keeps a well-formed
    /// document well-formed.
    pub proof fn lemma_same_links_wf(self, other: DocumentModel)
        requires
            self.wf(),
            other.root_id == self.root_id,
            other.next_id == self.next_id,
            other.elements.dom() =~= self.elements.dom(),
            forall|x: usize| #[trigger]
                self.elements.dom().contains(x) ==> other.elements[x].id == self.elements[x].id
                    && other.elements[x].parent_id == self.elements[x].parent_id
                    && other.elements[x].children == self.elements[x].children,
        ensures
            other.wf(),
    {
        assert forall|x: usize| #[trigger] other.elements.dom().contains(x) implies other.element_ok(
            x,
        ) by {
            assert(self.elements.dom().contains(x));
            assert(self.element_ok(x));
            let e = self.elements[x];
            assert forall|k: int| 0 <= k < e.children.len() implies other.child_ok(
                x,
                #[trigger] e.children[k],
            ) by {
                assert(self.child_ok(x, e.children[k]));
                assert(self.elements.dom().contains(e.children[k]));
            }
        }
        match self.root_id {
            Some(r) => {
                assert(self.elements.dom().contains(r));
            },
            None => {},
        }
    }
}

/// The ids that `flags` marks: those at whose place it holds `true`.
pub open spec fn flag_set(flags: Seq<bool>) -> Set<usize> {
    Set::new(|id: usize| id < flags.len() && flags[id as int])
}

/// The test that accepts the ids outside `tops`.
pub open spec fn outside(tops: Set<usize>) -> spec_fn(usize) -> bool {
    |c: usize| !tops.contains(c)
}

/// The place of `tag` in `order`, counted from 0; the length of `order`
/// where it does not occur.
pub open spec fn rank_of(tag: Seq<char>, order: Seq<Seq<char>>) -> nat
    decreases order.len(),
{
    if order.len() == 0 {
        0
    } else if order[0] == tag {
        0
    } else {
        1 + rank_of(tag, order.drop_first())
    }
}

/// A rank is at most the length of the order.
pub proof fn lemma_rank_bound(tag: Seq<char>, order: Seq<Seq<char>>)
    ensures
        rank_of(tag, order) <= order.len(),
    decreases order.len(),
{
    if order.len() > 0 && order[0] != tag {
        lemma_rank_bound(tag, order.drop_first());
    }
}

/// The characters of each string of a list.
pub open spec fn strs_view(list: Seq<&str>) -> Seq<Seq<char>> {
    list.map_values(|s: &str| s@)
}

impl DocumentModel {
    /// Whether the element `id` lies in the subtree of one of `tops`: it is
    /// one of them, or its parent lies in such a subtree.
    pub open spec fn under(self, id: usize, tops: Set<usize>) -> bool
        decreases id,
    {
        self.has(id) && (tops.contains(id) || {
            let p = self.elements[id].parent_id;
            p < id && self.under(p, tops)
        })
    }

    /// The document without the subtrees of `tops`: their elements are gone,
    /// and no remaining element lists one of `tops` as a child.
    pub open spec fn without_subtrees(self, tops: Set<usize>) -> DocumentModel {
        DocumentModel {
            elements: Map::new(
                |id: usize| self.has(id) && !self.under(id, tops),
                |id: usize|
                    ElementModel {
                        children: retain(self.elements[id].children, outside(tops)),
                        ..self.elements[id]
                    },
            ),
            root_id: match self.root_id {
                Some(r) => if tops.contains(r) {
                    None
                } else {
                    Some(r)
                },
                None => None,
            },
            next_id: self.next_id,
        }
    }

    /// The ids below `bound` that are in the document and in `tops`, in
    /// increasing order.
    pub open spec fn ids_in(self, tops: Set<usize>, bound: nat) -> Seq<usize>
        decreases bound,
    {
        if bound == 0 {
            Seq::empty()
        } else {
            let id = (bound - 1) as usize;
            let rest = self.ids_in(tops, (bound - 1) as nat);
            if self.has(id) && tops.contains(id) {
                rest.push(id)
            } else {
                rest
            }
        }
    }

    /// The elements named `tag`.
    pub open spec fn tagged(self, tag: Seq<char>) -> Set<usize> {
        Set::new(|id: usize| self.has(id) && self.elements[id].tag == tag)
    }

    /// The elements whose attribute `name` has the value `value`.
    pub open spec fn with_attribute_value(self, name: Seq<char>, value: Seq<char>) -> Set<usize> {
        Set::new(|id: usize| self.has(id) && self.elements[id].attribute(name) == Some(value))
    }

    /// The ids of the elements named `tag`, in increasing order.
    pub open spec fn ids_with_tag(self, tag: Seq<char>) -> Seq<usize> {
        self.ids_in(self.tagged(tag), self.next_id)
    }

    /// The test that accepts the elements whose tag has rank `r` in `order`.
    pub open spec fn has_rank(self, order: Seq<Seq<char>>, r: nat) -> spec_fn(usize) -> bool {
        |c: usize| rank_of(self.elements[c].tag, order) == r
    }

    /// The members of `children` whose rank is below `bound`, by rank, and
    /// within one rank in the order that they have in `children`.
    pub open spec fn by_rank(self, children: Seq<usize>, order: Seq<Seq<char>>, bound: nat) -> Seq<
        usize,
    >
        decreases bound,
    {
        if bound == 0 {
            Seq::empty()
        } else {
            self.by_rank(children, order, (bound - 1) as nat) + retain(
                children,
                self.has_rank(order, (bound - 1) as nat),
            )
        }
    }

    /// The children of `id` in the order that `order` asks for: by the place
    /// of their tag in `order`, those whose tag is not in it last, and
    /// otherwise as they were.
    pub open spec fn ordered_children(self, id: usize, order: Seq<Seq<char>>) -> Seq<usize> {
        self.by_rank(self.elements[id].children, order, order.len() + 1)
    }

    /// The ids that `ids_in` gives are those in the document and in `tops`,
    /// each below the bound.
    pub proof fn lemma_ids_in(self, tops: Set<usize>, bound: nat)
        ensures
            forall|x: usize| #[trigger]
                self.ids_in(tops, bound).contains(x) <==> x < bound && self.has(x) && tops.contains(
                    x,
                ),
        decreases bound,
    {
        if bound > 0 {
            let id = (bound - 1) as usize;
            let rest = self.ids_in(tops, (bound - 1) as nat);
            let out = self.ids_in(tops, bound);
            self.lemma_ids_in(tops, (bound - 1) as nat);
            assert forall|x: usize| #[trigger]
                out.contains(x) <==> x < bound && self.has(x) && tops.contains(x) by {
                if out.contains(x) {
                    let i = choose|i: int| 0 <= i < out.len() && out[i] == x;
                    if i < rest.len() {
                        assert(rest[i] == x);
                        assert(rest.contains(x));
                    }
                }
                if x < bound && self.has(x) && tops.contains(x) {
                    if x == id {
                        assert(out == rest.push(id));
                        assert(out[out.len() - 1] == x);
                    } else {
                        assert(rest.contains(x));
                        let i = choose|i: int| 0 <= i < rest.len() && rest[i] == x;
                        assert(out[i] == x);
                    }
                }
            }
        }
    }

    /// Of a single element, `ids_in` gives that element alone.
    pub proof fn lemma_ids_in_single(self, id: usize, bound: nat)
        requires
            self.has(id),
            bound <= usize::MAX,
        ensures
            self.ids_in(set![id], bound) == if id < bound {
                seq![id]
            } else {
                Seq::<usize>::empty()
            },
        decreases bound,
    {
        if bound > 0 {
            self.lemma_ids_in_single(id, (bound - 1) as nat);
            let last = (bound - 1) as usize;
            assert(set![id].contains(last) <==> last == id);
            if id == bound - 1 {
                assert(self.ids_in(set![id], bound) == Seq::<usize>::empty().push(id));
                assert(Seq::<usize>::empty().push(id) =~= seq![id]);
            }
        }
    }

    /// Taking subtrees out keeps a well-formed document well-formed.
    pub proof fn lemma_without_subtrees_wf(self, tops: Set<usize>)
        requires
            self.wf(),
        ensures
            self.without_subtrees(tops).wf(),
    {
        let d = self.without_subtrees(tops);
        assert(!self.has(0)) by {
            if self.elements.dom().contains(0) {
                assert(self.element_ok(0));
            }
        }
        assert forall|x: usize| #[trigger] d.elements.dom().contains(x) implies d.element_ok(x) by {
            assert(self.elements.dom().contains(x));
            assert(self.element_ok(x));
            let e = self.elements[x];
            let kept = retain(e.children, outside(tops));
            lemma_retain(e.children, outside(tops));
            assert(d.elements[x].children == kept);
            assert forall|k: int| 0 <= k < kept.len() implies d.child_ok(x, #[trigger] kept[k]) by {
                let c = kept[k];
                assert(kept.contains(c));
                assert(e.children.contains(c));
                let j = choose|j: int| 0 <= j < e.children.len() && e.children[j] == c;
                assert(self.child_ok(x, e.children[j]));
                assert(!tops.contains(c));
                assert(!self.under(c, tops));
            }
        }
        match d.root_id {
            Some(r) => {
                assert(self.elements.dom().contains(r));
                assert(self.element_ok(r));
                assert(!self.under(0, tops));
                assert(!self.under(r, tops));
            },
            None => {},
        }
    }

    /// What `by_rank` gives are the members of `children` of a rank below
    /// the bound, none of them twice where `children` has none twice.
    pub proof fn lemma_by_rank(self, children: Seq<usize>, order: Seq<Seq<char>>, bound: nat)
        ensures
            forall|x: usize| #[trigger]
                self.by_rank(children, order, bound).contains(x) <==> children.contains(x)
                    && rank_of(self.elements[x].tag, order) < bound,
            children.no_duplicates() ==> self.by_rank(children, order, bound).no_duplicates(),
        decreases bound,
    {
        if bound > 0 {
            let r = (bound - 1) as nat;
            let front = self.by_rank(children, order, r);
            let back = retain(children, self.has_rank(order, r));
            let out = self.by_rank(children, order, bound);
            self.lemma_by_rank(children, order, r);
            lemma_retain(children, self.has_rank(order, r));
            assert(out == front + back);
            assert forall|x: usize| #[trigger]
                out.contains(x) <==> children.contains(x) && rank_of(self.elements[x].tag, order)
                    < bound by {
                if out.contains(x) {
                    let i = choose|i: int| 0 <= i < out.len() && out[i] == x;
                    if i < front.len() {
                        assert(front[i] == x);
                        assert(front.contains(x));
                    } else {
                        assert(back[i - front.len()] == x);
                        assert(back.contains(x));
                    }
                }
                if children.contains(x) && rank_of(self.elements[x].tag, order) < bound {
                    if rank_of(self.elements[x].tag, order) == r {
                        assert(back.contains(x));
                        let i = choose|i: int| 0 <= i < back.len() && back[i] == x;
                        assert(out[front.len() + i] == x);
                    } else {
                        assert(front.contains(x));
                        let i = choose|i: int| 0 <= i < front.len() && front[i] == x;
                        assert(out[i] == x);
                    }
                }
            }
            if children.no_duplicates() {
                assert forall|i: int, j: int|
                    0 <= i < out.len() && 0 <= j < out.len() && i != j implies out[i] != out[j] by {
                    if i < front.len() && j < front.len() {
                        assert(out[i] == front[i] && out[j] == front[j]);
                    } else if i >= front.len() && j >= front.len() {
                        assert(out[i] == back[i - front.len()] && out[j] == back[j - front.len()]);
                    } else {
                        let a = if i < front.len() { i } else { j };
                        let b = if i < front.len() { j } else { i };
                        assert(front.contains(front[a]));
                        assert(back.contains(back[b - front.len()]));
                        assert(out[a] == front[a]);
                        assert(out[b] == back[b - front.len()]);
                    }
                }
            }
        }
    }

    /// Putting the children of an element in order keeps a well-formed
    /// document well-formed.
    pub proof fn lemma_ordered_children_wf(self, id: usize, order: Seq<Seq<char>>)
        requires
            self.wf(),
            self.has(id),
        ensures
            self.with_children(id, self.ordered_children(id, order)).wf(),
            forall|x: usize| #[trigger]
                self.ordered_children(id, order).contains(x) <==> self.elements[id].children.contains(
                    x,
                ),
    {
        let old_children = self.elements[id].children;
        let new_children = self.ordered_children(id, order);
        let d = self.with_children(id, new_children);
        self.lemma_by_rank(old_children, order, order.len() + 1);
        assert forall|x: usize| #[trigger]
            new_children.contains(x) <==> old_children.contains(x) by {
            lemma_rank_bound(self.elements[x].tag, order);
        }
        assert(self.element_ok(id));
        assert forall|x: usize| #[trigger] d.elements.dom().contains(x) implies d.element_ok(x) by {
            assert(self.elements.dom().contains(x));
            assert(self.element_ok(x));
            let e = d.elements[x];
            assert forall|k: int| 0 <= k < e.children.len() implies d.child_ok(
                x,
                #[trigger] e.children[k],
            ) by {
                let c = e.children[k];
                if x == id {
                    assert(new_children.contains(c));
                    assert(old_children.contains(c));
                    let j = choose|j: int| 0 <= j < old_children.len() && old_children[j] == c;
                    assert(self.child_ok(x, old_children[j]));
                } else {
                    assert(self.child_ok(x, self.elements[x].children[k]));
                }
                assert(self.elements.dom().contains(c));
                assert(self.element_ok(c));
            }
        }
        match self.root_id {
            Some(r) => {
                assert(self.elements.dom().contains(r));
                assert(self.element_ok(r));
            },
            None => {},
        }
    }
}

/// An XML document: the table of its elements and the id of its root.
#[derive(Debug)]
pub struct XmlDocument {
    /// The element of id `i` stands at place `i`; place 0 is never used.
    elements: Vec<Option<XmlElement>>,
    root_id: Option<usize>,
}

impl View for XmlDocument {
    type V = DocumentModel;

    closed spec fn view(&self) -> DocumentModel {
        DocumentModel {
            elements: Map::new(
                |id: usize| id < self.elements.len() && self.elements@[id as int] is Some,
                |id: usize| self.elements@[id as int]->0@,
            ),
            root_id: self.root_id,
            next_id: self.elements.len() as nat,
        }
    }
}

impl XmlDocument {
    /// The invariant of the table itself.
    pub closed spec fn inv(&self) -> bool {
        &&& self.elements.len() >= 1
        &&& self.elements@[0] is None
    }

    /// The invariant of a document: that of its table and that of its model.
    pub open spec fn wf(&self) -> bool {
        self.inv() && self@.wf()
    }

    /// A document without any element.
    pub fn new() -> (document: Self)
        ensures
            document.wf(),
            document@ == DocumentModel::empty(),
    {
        let mut elements: Vec<Option<XmlElement>> = Vec::new();
        elements.push(None);
        let document = Self { elements, root_id: None };
        assert(document@.elements =~= Map::<usize, ElementModel>::empty());
        document
    }

    /// The id of the root element, if the document has one.
    pub fn get_root_id(&self) -> (root: Option<usize>)
        ensures
            root == self@.root_id,
    {
        self.root_id
    }

    /// The element of this id, if the document holds one.
    pub fn get_element(&self, id: usize) -> (element: Option<&XmlElement>)
        ensures
            match element {
                Some(e) => self@.has(id) && e@ == self@.elements[id],
                None => !self@.has(id),
            },
    {
        if id < self.elements.len() {
            self.elements[id].as_ref()
        } else {
            None
        }
    }

    /// The root element, if the document has one.
    pub fn get_root(&self) -> (element: Option<&XmlElement>)
        ensures
            match self@.parent_or_root(None) {
                Some(r) => element matches Some(e) && e@ == self@.elements[r],
                None => element is None,
            },
    {
        match self.root_id {
            Some(r) => self.get_element(r),
            None => None,
        }
    }

    /// How many children the element `id` has; 0 where it is not there.
    pub fn get_child_count(&self, id: usize) -> (count: usize)
        ensures
            count == if self@.has(id) {
                self@.elements[id].children.len()
            } else {
                0
            },
    {
        match self.get_element(id) {
            Some(e) => e.get_child_count(),
            None => 0,
        }
    }

    /// Makes the root element. A document has one root: a second is refused.
    pub fn create_root_mut(&mut self, tag: &str) -> (res: Result<usize, OfficeError>)
        requires
            old(self).wf(),
        ensures
            final(self).wf(),
            match old(self)@.root_id {
                None => res == Ok::<usize, OfficeError>(old(self)@.new_id()) && final(self)@ == old(self)@.with_root(tag@),
                Some(_) => res == Err::<usize, OfficeError>(OfficeError::Conflict) && final(self)@
                    == old(self)@,
            },
    {
        if self.root_id.is_some() {
            return Err(OfficeError::Conflict);
        }
        let id = self.elements.len();
        let element = XmlElement::attached(id, 0, tag.to_owned());
        self.elements.push(Some(element));
        self.root_id = Some(id);
        proof {
            assert(self@.elements =~= old(self)@.with_root(tag@).elements);
            old(self)@.lemma_with_root_wf(tag@);
        }
        Ok(id)
    }

    /// Puts a new element named `tag` at place `index` among the children of
    /// `parent`.
    fn insert_new_child(&mut self, parent: usize, index: usize, tag: &str) -> (id: usize)
        requires
            old(self).wf(),
            old(self)@.has(parent),
            index <= old(self)@.elements[parent].children.len(),
        ensures
            final(self).wf(),
            id == old(self)@.new_id(),
            final(self)@ == old(self)@.with_child(parent, index as int, tag@),
    {
        let id = self.elements.len();
        let element = XmlElement::attached(id, parent, tag.to_owned());
        match &mut self.elements[parent] {
            Some(p) => {
                p.insert_child_id(index, id);
            },
            None => {},
        }
        self.elements.push(Some(element));
        proof {
            assert(self@.elements =~= old(self)@.with_child(parent, index as int, tag@).elements);
            old(self)@.lemma_with_child_wf(parent, index as int, tag@);
        }
        id
    }

    /// The id of the element under which a new child goes.
    fn resolve_parent(&self, parent_id: Option<usize>) -> (parent: Option<usize>)
        ensures
            parent == self@.parent_or_root(parent_id),
    {
        let candidate = match parent_id {
            Some(p) => p,
            None => match self.root_id {
                Some(r) => r,
                None => {
                    return None;
                },
            },
        };
        match self.get_element(candidate) {
            Some(_) => Some(candidate),
            None => None,
        }
    }

    /// Adds a new element named `tag` as the last child of `parent_id`, or of
    /// the root where no parent is named. Gives the new element's id.
    pub fn append_child_mut(&mut self, tag: &str, parent_id: Option<usize>) -> (res: Result<
        usize,
        OfficeError,
    >)
        requires
            old(self).wf(),
        ensures
            final(self).wf(),
            match old(self)@.parent_or_root(parent_id) {
                Some(p) => res == Ok::<usize, OfficeError>(old(self)@.new_id()) && final(self)@
                    == old(self)@.with_child(
                    p,
                    old(self)@.elements[p].children.len() as int,
                    tag@,
                ),
                None => res == Err::<usize, OfficeError>(OfficeError::NotFound) && final(self)@
                    == old(self)@,
            },
    {
        match self.resolve_parent(parent_id) {
            Some(p) => {
                let count = self.get_child_count(p);
                Ok(self.insert_new_child(p, count, tag))
            },
            None => Err(OfficeError::NotFound),
        }
    }

    /// Adds a new element named `tag` at place `index` among the children of
    /// `parent_id`, or of the root where no parent is named; behind the last
    /// child where `index` is beyond it. Gives the new element's id.
    pub fn insert_child_at_mut(&mut self, tag: &str, index: usize, parent_id: Option<usize>) -> (res:
        Result<usize, OfficeError>)
        requires
            old(self).wf(),
        ensures
            final(self).wf(),
            match old(self)@.parent_or_root(parent_id) {
                Some(p) => res == Ok::<usize, OfficeError>(old(self)@.new_id()) && final(self)@
                    == old(self)@.with_child(
                    p,
                    if index <= old(self)@.elements[p].children.len() {
                        index as int
                    } else {
                        old(self)@.elements[p].children.len() as int
                    },
                    tag@,
                ),
                None => res == Err::<usize, OfficeError>(OfficeError::NotFound) && final(self)@
                    == old(self)@,
            },
    {
        match self.resolve_parent(parent_id) {
            Some(p) => {
                let count = self.get_child_count(p);
                let place = if index <= count {
                    index
                } else {
                    count
                };
                Ok(self.insert_new_child(p, place, tag))
            },
            None => Err(OfficeError::NotFound),
        }
    }

    /// Adds a new element named `tag` among the children of `parent_id`, or
    /// of the root where no parent is named, right behind the last child
    /// named `after_tag`; behind the last child where none has that name.
    /// Gives the new element's id.
    pub fn insert_children_after_tag_mut(
        &mut self,
        tag: &str,
        after_tag: &str,
        parent_id: Option<usize>,
    ) -> (res: Result<usize, OfficeError>)
        requires
            old(self).wf(),
        ensures
            final(self).wf(),
            match old(self)@.parent_or_root(parent_id) {
                Some(p) => res == Ok::<usize, OfficeError>(old(self)@.new_id()) && final(self)@
                    == old(self)@.with_child(p, old(self)@.place_after_tag(p, after_tag@), tag@),
                None => res == Err::<usize, OfficeError>(OfficeError::NotFound) && final(self)@
                    == old(self)@,
            },
    {
        match self.resolve_parent(parent_id) {
            Some(p) => {
                let place = self.find_place_after_tag(p, after_tag);
                Ok(self.insert_new_child(p, place, tag))
            },
            None => Err(OfficeError::NotFound),
        }
    }

    /// The place behind the last child of `parent` named `after_tag`.
    fn find_place_after_tag(&self, parent: usize, after_tag: &str) -> (place: usize)
        requires
            self.wf(),
            self@.has(parent),
        ensures
            place == self@.place_after_tag(parent, after_tag@),
            place <= self@.elements[parent].children.len(),
    {
        let count = self.get_child_count(parent);
        let mut bound: usize = count;
        let ghost model = self@;
        assert(model.element_ok(parent));
        while bound > 0
            invariant
                bound <= count,
                self.wf(),
                model == self@,
                model.has(parent),
                count == model.elements[parent].children.len(),
                model.end_of_last_tagged(parent, after_tag@, count as int)
                    == model.end_of_last_tagged(parent, after_tag@, bound as int),
            decreases bound,
        {
            let children = match self.get_element(parent) {
                Some(e) => e.get_children(),
                None => {
                    return count;
                },
            };
            let child = children[bound - 1];
            proof {
                assert(model.element_ok(parent));
                assert(model.child_ok(parent, model.elements[parent].children[bound - 1]));
            }
            match self.get_element(child) {
                Some(e) => {
                    if str_eq(e.get_tag(), after_tag) {
                        return bound;
                    }
                },
                None => {},
            }
            bound -= 1;
        }
        count
    }

    /// Replaces the attributes of the element `id` by `attributes`, kept in
    /// their order.
    pub fn set_attribute_mut(&mut self, id: usize, attributes: Vec<(String, String)>) -> (res:
        Result<(), OfficeError>)
        requires
            old(self).wf(),
        ensures
            final(self).wf(),
            old(self)@.has(id) ==> res is Ok && final(self)@ == old(self)@.with_attributes(
                id,
                pairs_view(attributes@),
            ),
            !old(self)@.has(id) ==> res == Err::<(), OfficeError>(OfficeError::NotFound) && final(self)@ == old(self)@,
    {
        if id >= self.elements.len() || self.elements[id].is_none() {
            return Err(OfficeError::NotFound);
        }
        match &mut self.elements[id] {
            Some(e) => {
                e.set_attribute(attributes);
            },
            None => {},
        }
        proof {
            let target = old(self)@.with_attributes(id, pairs_view(attributes@));
            assert(self@.elements =~= target.elements);
            old(self)@.lemma_same_links_wf(target);
        }
        Ok(())
    }

    /// Gives every element the namespace that it is in by its name: that
    /// which the nearest declaration of the prefix of its name gives, and
    /// none to an element whose name has no prefix. Nothing else is
    /// changed.
    pub fn resolve_namespaces_mut(&mut self)
        requires
            old(self).wf(),
        ensures
            final(self).wf(),
            old(self)@.same_but_namespaces(final(self)@),
            final(self)@.namespaces_resolved(),
    {
        let ghost s0 = self@;
        let mut id: usize = 1;
        while id < self.elements.len()
            invariant
                1 <= id <= self.elements.len(),
                self.wf(),
                s0.wf(),
                s0.same_but_namespaces(self@),
                forall|x: usize|
                    x < id && s0.has(x) ==> (#[trigger] self@.elements[x]).namespace
                        == s0.namespace_for(x),
            decreases self.elements.len() - id,
        {
            if self.elements[id].is_some() {
                let ghost before = self@;
                let namespace = self.namespace_of(id);
                proof {
                    assert(s0.elements.dom().contains(id));
                    match crate::xml_namespace::prefix_of(s0.elements[id].tag) {
                        Some(prefix) => {
                            s0.lemma_declared_same(
                                before,
                                id,
                                crate::xml_namespace::declaration_name(prefix),
                            );
                        },
                        None => {},
                    }
                    assert(crate::xml_tree::opt_text(namespace) == s0.namespace_for(id));
                }
                match &mut self.elements[id] {
                    Some(e) => {
                        e.set_namespace(namespace);
                    },
                    None => {},
                }
                proof {
                    let after = self@;
                    assert(after.elements.dom() =~= s0.elements.dom());
                    assert forall|x: usize| #[trigger]
                        s0.elements.dom().contains(x) implies after.elements[x] == (ElementModel {
                        namespace: after.elements[x].namespace,
                        ..s0.elements[x]
                    }) by {
                        if x != id {
                            assert(after.elements[x] == before.elements[x]);
                        }
                    }
                    s0.lemma_same_but_namespaces(after, id);
                    assert forall|x: usize| x < id + 1 && s0.has(x) implies (
                    #[trigger] after.elements[x]).namespace == s0.namespace_for(x) by {
                        if x != id {
                            assert(after.elements[x] == before.elements[x]);
                        }
                    }
                }
            } else {
                assert(!s0.has(id)) by {
                    assert(!self@.elements.dom().contains(id));
                }
            }
            id += 1;
        }
        proof {
            let after = self@;
            assert forall|x: usize| after.has(x) implies (#[trigger] after.elements[x]).namespace
                == after.namespace_for(x) by {
                assert(s0.elements.dom().contains(x));
                assert(s0.element_ok(x));
                match crate::xml_namespace::prefix_of(s0.elements[x].tag) {
                    Some(prefix) => {
                        s0.lemma_declared_same(
                            after,
                            x,
                            crate::xml_namespace::declaration_name(prefix),
                        );
                    },
                    None => {},
                }
            }
        }
    }

    /// Gives the element `id` the text `text`.
    pub fn set_value_mut(&mut self, id: usize, text: String) -> (res: Result<(), OfficeError>)
        requires
            old(self).wf(),
        ensures
            final(self).wf(),
            old(self)@.has(id) ==> res is Ok && final(self)@ == old(self)@.with_value(id, text@),
            !old(self)@.has(id) ==> res == Err::<(), OfficeError>(OfficeError::NotFound) && final(self)@ == old(self)@,
    {
        if id >= self.elements.len() || self.elements[id].is_none() {
            return Err(OfficeError::NotFound);
        }
        match &mut self.elements[id] {
            Some(e) => {
                e.set_value(text);
            },
            None => {},
        }
        proof {
            let target = old(self)@.with_value(id, text@);
            assert(self@.elements =~= target.elements);
            old(self)@.lemma_same_links_wf(target);
        }
        Ok(())
    }
}

/// The members of `children` that `tops` does not flag, in their order.
fn children_outside(children: &Vec<usize>, tops: &Vec<bool>) -> (kept: Vec<usize>)
    requires
        forall|k: int| 0 <= k < children.len() ==> children@[k] < tops.len(),
    ensures
        kept@ == retain(children@, outside(flag_set(tops@))),
{
    let mut kept: Vec<usize> = Vec::new();
    let mut k: usize = 0;
    while k < children.len()
        invariant
            k <= children.len(),
            forall|j: int| 0 <= j < children.len() ==> children@[j] < tops.len(),
            kept@ == retain(children@.take(k as int), outside(flag_set(tops@))),
        decreases children.len() - k,
    {
        let c = children[k];
        proof {
            let t = children@.take(k + 1);
            assert(t.drop_last() == children@.take(k as int));
            assert(t.last() == c);
            assert(flag_set(tops@).contains(c) == tops@[c as int]);
        }
        if !tops[c] {
            kept.push(c);
        }
        k += 1;
    }
    assert(children@.take(k as int) == children@);
    kept
}

/// The place of `tag` in `order`.
fn rank_in(tag: &str, order: &[&str]) -> (rank: usize)
    ensures
        rank == rank_of(tag@, strs_view(order@)),
{
    let ghost all = strs_view(order@);
    assert(all.skip(0) == all);
    let mut i: usize = 0;
    while i < order.len()
        invariant
            i <= order.len(),
            all == strs_view(order@),
            rank_of(tag@, all) == i + rank_of(tag@, all.skip(i as int)),
        decreases order.len() - i,
    {
        proof {
            let rest = all.skip(i as int);
            assert(rest[0] == order@[i as int]@);
            assert(rest.drop_first() == all.skip(i + 1));
        }
        if str_eq(order[i], tag) {
            return i;
        }
        i += 1;
    }
    i
}

impl XmlDocument {
    /// For each id whether the document holds an element of it named `tag`.
    fn flags_by_tag(&self, tag: &str) -> (flags: Vec<bool>)
        ensures
            flags.len() == self@.next_id,
            flag_set(flags@) == self@.tagged(tag@),
    {
        let mut flags: Vec<bool> = Vec::new();
        let mut x: usize = 0;
        while x < self.elements.len()
            invariant
                x <= self.elements.len(),
                flags.len() == x,
                forall|j: usize| j < x ==> flags@[j as int] == self@.tagged(tag@).contains(j),
            decreases self.elements.len() - x,
        {
            let flag = match &self.elements[x] {
                Some(e) => str_eq(e.get_tag(), tag),
                None => false,
            };
            flags.push(flag);
            x += 1;
        }
        assert(flag_set(flags@) =~= self@.tagged(tag@));
        flags
    }

    /// For each id whether the document holds an element of it whose
    /// attribute `name` has the value `value`.
    fn flags_by_attribute(&self, name: &str, value: &str) -> (flags: Vec<bool>)
        ensures
            flags.len() == self@.next_id,
            flag_set(flags@) == self@.with_attribute_value(name@, value@),
    {
        let mut flags: Vec<bool> = Vec::new();
        let mut x: usize = 0;
        while x < self.elements.len()
            invariant
                x <= self.elements.len(),
                flags.len() == x,
                forall|j: usize|
                    j < x ==> flags@[j as int] == self@.with_attribute_value(name@, value@).contains(
                        j,
                    ),
            decreases self.elements.len() - x,
        {
            let flag = match &self.elements[x] {
                Some(e) => match e.get_attribute_value(name) {
                    Some(v) => str_eq(v.as_str(), value),
                    None => false,
                },
                None => false,
            };
            flags.push(flag);
            x += 1;
        }
        assert(flag_set(flags@) =~= self@.with_attribute_value(name@, value@));
        flags
    }

    /// The ids that `flags` marks and the document holds, in increasing order.
    fn ids_of_flags(&self, flags: &Vec<bool>) -> (ids: Vec<usize>)
        requires
            flags.len() == self@.next_id,
        ensures
            ids@ == self@.ids_in(flag_set(flags@), self@.next_id),
    {
        let mut ids: Vec<usize> = Vec::new();
        let mut x: usize = 0;
        while x < self.elements.len()
            invariant
                x <= self.elements.len(),
                flags.len() == self.elements.len(),
                ids@ == self@.ids_in(flag_set(flags@), x as nat),
            decreases self.elements.len() - x,
        {
            assert(flag_set(flags@).contains(x) == flags@[x as int]);
            if flags[x] && self.elements[x].is_some() {
                ids.push(x);
            }
            x += 1;
        }
        ids
    }

    /// The ids of the elements named `tag`, in increasing order.
    pub fn get_element_ids_by_tag(&self, tag: &str) -> (ids: Vec<usize>)
        ensures
            ids@ == self@.ids_with_tag(tag@),
    {
        let flags = self.flags_by_tag(tag);
        self.ids_of_flags(&flags)
    }

    /// The ids of the elements whose attribute `name` has the value `value`,
    /// in increasing order; nothing where there is no such element.
    pub fn get_element_ids_by_attribute(&self, name: &str, value: &str) -> (res: Option<Vec<usize>>)
        ensures
            match res {
                Some(ids) => ids@.len() > 0 && ids@ == self@.ids_in(
                    self@.with_attribute_value(name@, value@),
                    self@.next_id,
                ),
                None => self@.ids_in(self@.with_attribute_value(name@, value@), self@.next_id).len()
                    == 0,
            },
    {
        let flags = self.flags_by_attribute(name, value);
        let ids = self.ids_of_flags(&flags);
        if ids.len() == 0 {
            None
        } else {
            Some(ids)
        }
    }

    /// Takes the subtrees of the flagged elements out of the document and
    /// gives the flagged elements themselves, in increasing order of id.
    fn remove_flagged(&mut self, tops: &Vec<bool>) -> (removed: Vec<XmlElement>)
        requires
            old(self).wf(),
            tops.len() == old(self)@.next_id,
        ensures
            final(self).wf(),
            final(self)@ == old(self)@.without_subtrees(flag_set(tops@)),
            removed.len() == old(self)@.ids_in(flag_set(tops@), old(self)@.next_id).len(),
            forall|i: int|
                0 <= i < removed.len() ==> (#[trigger] removed@[i])@ == old(self)@.elements[old(self)@.ids_in(flag_set(tops@), old(self)@.next_id)[i]],
    {
        let n = self.elements.len();
        let ghost model = self@;
        let ghost before = self.elements@;
        let ghost top_set = flag_set(tops@);
        let mut marks: Vec<bool> = Vec::new();
        let mut x: usize = 0;
        while x < n
            invariant
                x <= n,
                n == self.elements.len(),
                tops.len() == n,
                model == self@,
                model.wf(),
                top_set == flag_set(tops@),
                marks.len() == x,
                forall|j: usize| j < x ==> marks@[j as int] == model.under(j, top_set),
            decreases n - x,
        {
            let mark = match &self.elements[x] {
                Some(e) => {
                    let p = e.get_parent_id();
                    tops[x] || (p < x && marks[p])
                },
                None => false,
            };
            assert(top_set.contains(x) == tops@[x as int]);
            marks.push(mark);
            x += 1;
        }
        let mut removed: Vec<XmlElement> = Vec::new();
        let mut x: usize = 0;
        while x < n
            invariant
                x <= n,
                n == self.elements.len(),
                n == before.len(),
                tops.len() == n,
                marks.len() == n,
                model == old(self)@,
                before == old(self).elements@,
                self.root_id == old(self).root_id,
                model.wf(),
                top_set == flag_set(tops@),
                forall|j: usize| j < n ==> marks@[j as int] == model.under(j, top_set),
                forall|j: int| x <= j < n ==> self.elements@[j] == before[j],
                forall|j: int|
                    0 <= j < x && (marks@[j] || before[j] is None) ==> (#[trigger] self.elements@[j])
                        is None,
                forall|j: int|
                    0 <= j < x && !(marks@[j] || before[j] is None) ==> ((#[trigger] self.elements@[j])
                        matches Some(e) && e@ == (ElementModel {
                        children: retain(before[j]->0@.children, outside(top_set)),
                        ..before[j]->0@
                    })),
                removed.len() == model.ids_in(top_set, x as nat).len(),
                forall|i: int|
                    0 <= i < removed.len() ==> (#[trigger] removed@[i])@ == model.elements[model.ids_in(
                        top_set,
                        x as nat,
                    )[i]],
            decreases n - x,
        {
            assert(top_set.contains(x) == tops@[x as int]);
            assert(model.has(x) == (before[x as int] is Some));
            if marks[x] {
                let mut slot: Option<XmlElement> = None;
                core::mem::swap(&mut self.elements[x], &mut slot);
                if tops[x] {
                    match slot {
                        Some(e) => {
                            removed.push(e);
                        },
                        None => {},
                    }
                }
            } else {
                proof {
                    if model.has(x) {
                        assert(model.elements.dom().contains(x));
                        assert(model.element_ok(x));
                        let e = model.elements[x];
                        assert forall|k: int| 0 <= k < e.children.len() implies e.children[k]
                            < n by {
                            assert(model.child_ok(x, e.children[k]));
                            assert(model.elements.dom().contains(e.children[k]));
                            assert(model.element_ok(e.children[k]));
                        }
                    }
                }
                match &mut self.elements[x] {
                    Some(e) => {
                        let kept = children_outside(e.get_children(), tops);
                        e.set_children(kept);
                    },
                    None => {},
                }
            }
            x += 1;
        }
        proof {
            assert(model.elements.dom().contains(0) ==> model.element_ok(0));
            assert(before[0] is None);
            assert(self.elements@[0] is None);
        }
        let root_gone = match self.root_id {
            Some(r) => r < n && tops[r],
            None => false,
        };
        if root_gone {
            self.root_id = None;
        }
        proof {
            let target = model.without_subtrees(top_set);
            match model.root_id {
                Some(r) => {
                    assert(model.elements.dom().contains(r));
                    assert(model.element_ok(r));
                    assert(top_set.contains(r) == tops@[r as int]);
                },
                None => {},
            }
            assert(self@.elements =~= target.elements) by {
                assert forall|id: usize| #[trigger]
                    self@.elements.dom().contains(id) <==> target.elements.dom().contains(id) by {
                    if id < n {
                        assert(marks@[id as int] == model.under(id, top_set));
                    } else {
                        if model.elements.dom().contains(id) {
                            assert(model.element_ok(id));
                        }
                    }
                }
                assert forall|id: usize| #[trigger]
                    self@.elements.dom().contains(id) implies self@.elements[id]
                    == target.elements[id] by {
                    assert(marks@[id as int] == model.under(id, top_set));
                }
            }
            model.lemma_without_subtrees_wf(top_set);
        }
        removed
    }

    /// Takes the element `id` out of the document, with everything below
    /// it, and gives it to the caller. Its parent no longer lists it.
    pub fn pop_element_mut(&mut self, id: usize) -> (res: Option<XmlElement>)
        requires
            old(self).wf(),
        ensures
            final(self).wf(),
            old(self)@.has(id) ==> (res matches Some(e) && e@ == old(self)@.elements[id])
                && final(self)@ == old(self)@.without_subtrees(set![id]),
            !old(self)@.has(id) ==> res is None && final(self)@ == old(self)@,
    {
        if id >= self.elements.len() || self.elements[id].is_none() {
            return None;
        }
        let mut tops: Vec<bool> = Vec::new();
        let mut x: usize = 0;
        while x < self.elements.len()
            invariant
                x <= self.elements.len(),
                tops.len() == x,
                forall|j: int| 0 <= j < x ==> tops@[j] == (j == id),
            decreases self.elements.len() - x,
        {
            tops.push(x == id);
            x += 1;
        }
        proof {
            assert(flag_set(tops@) =~= set![id]);
            old(self)@.lemma_ids_in_single(id, old(self)@.next_id);
        }
        let mut removed = self.remove_flagged(&tops);
        removed.pop()
    }

    /// Takes every element named `tag` out of the document, with everything
    /// below it, and gives those elements to the caller in increasing order
    /// of id; nothing where no element has that name.
    pub fn pop_elements_by_tag_mut(&mut self, tag: &str) -> (res: Option<Vec<XmlElement>>)
        requires
            old(self).wf(),
        ensures
            final(self).wf(),
            final(self)@ == old(self)@.without_subtrees(old(self)@.tagged(tag@)),
            match res {
                Some(popped) => popped.len() > 0 && popped.len() == old(self)@.ids_with_tag(
                    tag@,
                ).len() && forall|i: int|
                    0 <= i < popped.len() ==> (#[trigger] popped@[i])@ == old(self)@.elements[old(self)@.ids_with_tag(tag@)[i]],
                None => old(self)@.ids_with_tag(tag@).len() == 0,
            },
    {
        let tops = self.flags_by_tag(tag);
        let removed = self.remove_flagged(&tops);
        if removed.len() == 0 {
            None
        } else {
            Some(removed)
        }
    }

    /// Appends to `sorted` the children of `parent_id` whose rank is `r`.
    fn push_rank(
        &self,
        parent_id: usize,
        ranks: &Vec<usize>,
        r: usize,
        sorted: &mut Vec<usize>,
        Ghost(ranks_order): Ghost<Seq<Seq<char>>>,
    )
        requires
            self.wf(),
            self@.has(parent_id),
            ranks.len() == self@.elements[parent_id].children.len(),
            forall|j: int|
                0 <= j < ranks.len() ==> ranks@[j] == rank_of(
                    self@.elements[self@.elements[parent_id].children[j]].tag,
                    ranks_order,
                ),
        ensures
            final(sorted)@ == old(sorted)@ + retain(
                self@.elements[parent_id].children,
                self@.has_rank(ranks_order, r as nat),
            ),
    {
        let ghost model = self@;
        let ghost children = model.elements[parent_id].children;
        let ghost front = sorted@;
        let count = self.get_child_count(parent_id);
        let mut k: usize = 0;
        assert(sorted@ == front + retain(children.take(0), model.has_rank(ranks_order, r as nat)));
        while k < count
            invariant
                k <= count,
                self.wf(),
                model == self@,
                model.has(parent_id),
                children == model.elements[parent_id].children,
                count == children.len(),
                ranks.len() == count,
                forall|j: int|
                    0 <= j < count ==> ranks@[j] == rank_of(
                        model.elements[children[j]].tag,
                        ranks_order,
                    ),
                sorted@ == front + retain(
                    children.take(k as int),
                    model.has_rank(ranks_order, r as nat),
                ),
            decreases count - k,
        {
            let child = match self.get_element(parent_id) {
                Some(e) => e.get_children()[k],
                None => 0,
            };
            proof {
                let t = children.take(k + 1);
                assert(t.drop_last() == children.take(k as int));
                assert(t.last() == child);
                assert(model.has_rank(ranks_order, r as nat)(child) == (ranks@[k as int] == r));
            }
            if ranks[k] == r {
                sorted.push(child);
                assert(sorted@ == front + retain(
                    children.take(k + 1),
                    model.has_rank(ranks_order, r as nat),
                ));
            }
            k += 1;
        }
        assert(children.take(k as int) == children);
    }

    /// Puts the children of `parent_id` in the order that `order` asks for:
    /// by the place of their tag in `order`, children whose tag is not in it
    /// last, and children of one rank in the order that they had.
    pub fn reorder_children(&mut self, parent_id: usize, order: &[&str]) -> (res: Result<
        (),
        OfficeError,
    >)
        requires
            old(self).wf(),
        ensures
            final(self).wf(),
            old(self)@.has(parent_id) ==> res is Ok && final(self)@ == old(self)@.with_children(
                parent_id,
                old(self)@.ordered_children(parent_id, strs_view(order@)),
            ),
            !old(self)@.has(parent_id) ==> res == Err::<(), OfficeError>(OfficeError::NotFound)
                && final(self)@ == old(self)@,
    {
        if parent_id >= self.elements.len() || self.elements[parent_id].is_none() {
            return Err(OfficeError::NotFound);
        }
        let ghost model = self@;
        let ghost ranks_order = strs_view(order@);
        let ghost children = model.elements[parent_id].children;
        proof {
            assert(model.elements.dom().contains(parent_id));
            assert(model.element_ok(parent_id));
        }
        let mut ranks: Vec<usize> = Vec::new();
        let count = self.get_child_count(parent_id);
        let mut k: usize = 0;
        while k < count
            invariant
                k <= count,
                self.wf(),
                model == self@,
                model.has(parent_id),
                children == model.elements[parent_id].children,
                count == children.len(),
                ranks_order == strs_view(order@),
                ranks.len() == k,
                forall|j: int|
                    0 <= j < k ==> ranks@[j] == rank_of(
                        model.elements[children[j]].tag,
                        ranks_order,
                    ),
            decreases count - k,
        {
            let child = match self.get_element(parent_id) {
                Some(e) => e.get_children()[k],
                None => 0,
            };
            proof {
                assert(model.element_ok(parent_id));
                assert(model.child_ok(parent_id, children[k as int]));
            }
            let rank = match self.get_element(child) {
                Some(e) => rank_in(e.get_tag(), order),
                None => order.len(),
            };
            ranks.push(rank);
            k += 1;
        }
        let mut sorted: Vec<usize> = Vec::new();
        let mut r: usize = 0;
        while r < order.len()
            invariant
                r <= order.len(),
                self.wf(),
                model == self@,
                model.has(parent_id),
                children == model.elements[parent_id].children,
                ranks_order == strs_view(order@),
                ranks.len() == children.len(),
                forall|j: int|
                    0 <= j < children.len() ==> ranks@[j] == rank_of(
                        model.elements[children[j]].tag,
                        ranks_order,
                    ),
                sorted@ == model.by_rank(children, ranks_order, r as nat),
            decreases order.len() - r,
        {
            self.push_rank(parent_id, &ranks, r, &mut sorted, Ghost(ranks_order));
            r += 1;
        }
        self.push_rank(parent_id, &ranks, r, &mut sorted, Ghost(ranks_order));
        match &mut self.elements[parent_id] {
            Some(e) => {
                e.set_children(sorted);
            },
            None => {},
        }
        proof {
            let target = model.with_children(
                parent_id,
                model.ordered_children(parent_id, ranks_order),
            );
            assert(self@.elements =~= target.elements);
            model.lemma_ordered_children_wf(parent_id, ranks_order);
        }
        Ok(())
    }
}

} // verus!
