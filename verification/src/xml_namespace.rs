//! The namespaces of the elements of a document that has been read: an
//! element whose name is qualified by a prefix has the namespace that the
//! nearest declaration of that prefix gives, looked for on the element
//! itself and then on its ancestors.

use vstd::prelude::*;
use crate::text::{chars_of, concat, find_in, first_occurrence, string_of_range};
use crate::xml_document::{DocumentModel, XmlDocument};

use crate::xml_tree::{ElementModel, opt_text};

verus! {

/// The prefix that qualifies the name `tag`: what stands before its first
/// colon; nothing where it has no colon.
pub open spec fn prefix_of(tag: Seq<char>) -> Option<Seq<char>> {
    match first_occurrence(tag, ":"@) {
        Some(place) => Some(tag.subrange(0, place as int)),
        None => None,
    }
}

/// The name of the attribute that declares the prefix `prefix`.
pub open spec fn declaration_name(prefix: Seq<char>) -> Seq<char> {
    "xmlns:"@ + prefix
}

impl DocumentModel {
    /// The value of the attribute `name` that is nearest to the element
    /// `id`: that of the element itself, or else of its nearest ancestor
    /// that has the attribute.
    pub open spec fn declared(self, id: usize, name: Seq<char>) -> Option<Seq<char>>
        decreases id,
    {
        if !self.has(id) {
            None
        } else {
            match self.elements[id].attribute(name) {
                Some(value) => Some(value),
                None => {
                    let parent = self.elements[id].parent_id;
                    if parent < id {
                        self.declared(parent, name)
                    } else {
                        None
                    }
                },
            }
        }
    }

    /// The namespace that the element `id` is in by its name: that which
    /// the nearest declaration of the prefix of its name gives; none for a
    /// name without prefix.
    pub open spec fn namespace_for(self, id: usize) -> Option<Seq<char>> {
        match prefix_of(self.elements[id].tag) {
            Some(prefix) => self.declared(id, declaration_name(prefix)),
            None => None,
        }
    }

    /// Whether every element has the namespace that it is in by its name.
    pub open spec fn namespaces_resolved(self) -> bool {
        forall|id: usize|
            self.has(id) ==> (#[trigger] self.elements[id]).namespace == self.namespace_for(id)
    }

    /// Whether `other` is this document but for the namespaces of its
    /// elements.
    pub open spec fn same_but_namespaces(self, other: DocumentModel) -> bool {
        &&& other.root_id == self.root_id
        &&& other.next_id == self.next_id
        &&& other.elements.dom() =~= self.elements.dom()
        &&& forall|id: usize| #[trigger]
            self.elements.dom().contains(id) ==> other.elements[id] == (ElementModel {
                namespace: other.elements[id].namespace,
                ..self.elements[id]
            })
    }

    /// Declarations do not depend on the namespaces of the elements.
    pub proof fn lemma_declared_same(self, other: DocumentModel, id: usize, name: Seq<char>)
        requires
            self.same_but_namespaces(other),
        ensures
            other.declared(id, name) == self.declared(id, name),
        decreases id,
    {
        if self.has(id) {
            assert(self.elements.dom().contains(id));
            let parent = self.elements[id].parent_id;
            if parent < id {
                self.lemma_declared_same(other, parent, name);
            }
        }
    }

    /// The subtrees of a document do not depend on the namespaces of its
    /// elements, and a well-formed document stays well-formed when they
    /// change.
    pub proof fn lemma_same_but_namespaces(self, other: DocumentModel, id: usize)
        requires
            self.wf(),
            self.same_but_namespaces(other),
            self.has(id),
        ensures
            other.wf(),
            other.tree(id) == self.tree(id),
        decreases self.next_id - id,
    {
        self.lemma_same_links_wf(other);
        assert(self.elements.dom().contains(id));
        assert(self.element_ok(id));
        let e = self.elements[id];
        assert forall|k: int| 0 <= k < e.children.len() implies other.tree(id).children[k]
            == self.tree(id).children[k] by {
            let c = e.children[k];
            assert(self.child_ok(id, c));
            assert(self.elements.dom().contains(c));
            assert(self.element_ok(c));
            self.lemma_same_but_namespaces(other, c);
        }
        assert(other.tree(id).children =~= self.tree(id).children);
    }
}

impl XmlDocument {
    /// The value of the attribute `name` that is nearest to the element
    /// `id`.
    pub fn declared_for(&self, id: usize, name: &str) -> (res: Option<String>)
        requires
            self.wf(),
        ensures
            opt_text(res) == self@.declared(id, name@),
    {
        let mut at: usize = id;
        loop
            invariant
                self.wf(),
                self@.declared(id, name@) == self@.declared(at, name@),
            decreases at,
        {
            let element = match self.get_element(at) {
                Some(e) => e,
                None => {
                    return None;
                },
            };
            match element.get_attribute_value(name) {
                Some(value) => {
                    return Some(value.clone());
                },
                None => {},
            }
            let parent = element.get_parent_id();
            if parent >= at {
                return None;
            }
            at = parent;
        }
    }

    /// The namespace that the element `id` is in by its name.
    pub fn namespace_of(&self, id: usize) -> (res: Option<String>)
        requires
            self.wf(),
            self@.has(id),
        ensures
            opt_text(res) == self@.namespace_for(id),
    {
        let element = match self.get_element(id) {
            Some(e) => e,
            None => {
                return None;
            },
        };
        let tag = chars_of(element.get_tag());
        let colon = chars_of(":");
        match find_in(&tag, &colon) {
            Some(place) => {
                let prefix = string_of_range(&tag, 0, place);
                let name = concat("xmlns:", prefix.as_str());
                self.declared_for(id, name.as_str())
            },
            None => None,
        }
    }
}

} // verus!
