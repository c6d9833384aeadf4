//! One element of an XML document: a tag, its attributes in the order in
//! which they were written, an optional text value, and the ids of its
//! children in document order. Elements do not own their children: the
//! document does, and an element names them by id.

use vstd::prelude::*;
use crate::text::str_eq;

verus! {

/// What an element is, as plain mathematical values.
pub struct ElementModel {
    /// The element's id in its document; 0 while it belongs to none.
    pub id: usize,
    pub tag: Seq<char>,
    pub namespace: Option<Seq<char>>,
    /// Name and value of each attribute, in the order of writing.
    pub attributes: Seq<(Seq<char>, Seq<char>)>,
    pub value: Option<Seq<char>>,
    /// The ids of the children, in document order.
    pub children: Seq<usize>,
    /// The id of the parent; 0 for an element without one.
    pub parent_id: usize,
}

/// The characters of each name and value of a list of attributes.
pub open spec fn pairs_view(pairs: Seq<(String, String)>) -> Seq<(Seq<char>, Seq<char>)> {
    pairs.map_values(|p: (String, String)| (p.0@, p.1@))
}

/// The characters of an optional string.
pub open spec fn opt_text(text: Option<String>) -> Option<Seq<char>> {
    match text {
        Some(s) => Some(s@),
        None => None,
    }
}

/// The value that `attributes` gives to `name`: that of the first attribute
/// of that name.
pub open spec fn attribute_in(attributes: Seq<(Seq<char>, Seq<char>)>, name: Seq<char>) -> Option<
    Seq<char>,
>
    decreases attributes.len(),
{
    if attributes.len() == 0 {
        None
    } else if attributes[0].0 == name {
        Some(attributes[0].1)
    } else {
        attribute_in(attributes.drop_first(), name)
    }
}

impl ElementModel {
    /// A new element that belongs to no document yet.
    pub open spec fn detached(tag: Seq<char>, namespace: Option<Seq<char>>) -> ElementModel {
        ElementModel {
            id: 0,
            tag,
            namespace,
            attributes: Seq::empty(),
            value: None,
            children: Seq::empty(),
            parent_id: 0,
        }
    }

    /// The value of the attribute `name`, if the element has one.
    pub open spec fn attribute(self, name: Seq<char>) -> Option<Seq<char>> {
        attribute_in(self.attributes, name)
    }

    /// Whether the element has neither children nor a value.
    pub open spec fn is_empty_tag(self) -> bool {
        self.children.len() == 0 && self.value is None
    }
}

/// The value that a list of attributes gives to `name`.
pub fn find_attribute<'a>(attributes: &'a Vec<(String, String)>, name: &str) -> (res: Option<
    &'a String,
>)
    ensures
        opt_text_ref(res) == attribute_in(pairs_view(attributes@), name@),
{
    let ghost all = pairs_view(attributes@);
    assert(all.skip(0) == all);
    let mut i: usize = 0;
    while i < attributes.len()
        invariant
            i <= attributes.len(),
            all == pairs_view(attributes@),
            attribute_in(all, name@) == attribute_in(all.skip(i as int), name@),
        decreases attributes.len() - i,
    {
        proof {
            let rest = all.skip(i as int);
            assert(rest[0] == all[i as int]);
            assert(rest.drop_first() == all.skip(i + 1));
        }
        if str_eq(attributes[i].0.as_str(), name) {
            return Some(&attributes[i].1);
        }
        i += 1;
    }
    assert(all.skip(i as int).len() == 0);
    None
}

/// The characters of an optional borrowed string.
pub open spec fn opt_text_ref(text: Option<&String>) -> Option<Seq<char>> {
    match text {
        Some(s) => Some(s@),
        None => None,
    }
}

/// Normalized XML representation
#[derive(Debug)]
pub struct XmlElement {
    id: usize,
    /// Element Tag name
    tag: String,
    /// Namespace of the element if applicable
    namespace: Option<String>,
    /// Attributes of the element, in the order of writing
    attributes: Vec<(String, String)>,
    /// Whether the attributes have been given, be it an empty list
    attributes_given: bool,
    value: Option<String>,
    /// Ids of the children of the node, in document order
    children: Vec<usize>,
    parent_id: usize,
}

impl View for XmlElement {
    type V = ElementModel;

    closed spec fn view(&self) -> ElementModel {
        ElementModel {
            id: self.id,
            tag: self.tag@,
            namespace: opt_text(self.namespace),
            attributes: pairs_view(self.attributes@),
            value: opt_text(self.value),
            children: self.children@,
            parent_id: self.parent_id,
        }
    }
}

impl XmlElement {
    /// An element named `tag` that is in no document yet: it has no id, no
    /// parent, no attributes, no value and no children.
    pub fn new(tag: String, namespace: Option<String>) -> (element: Self)
        ensures
            element@ == ElementModel::detached(tag@, opt_text(namespace)),
            !element.has_attribute_list(),
    {
        let element = Self {
            id: 0,
            tag,
            namespace,
            attributes: Vec::new(),
            attributes_given: false,
            value: None,
            children: Vec::new(),
            parent_id: 0,
        };
        assert(pairs_view(element.attributes@) == Seq::<(Seq<char>, Seq<char>)>::empty());
        element
    }

    /// A new element of a document, with its id and that of its parent.
    pub(crate) fn attached(id: usize, parent_id: usize, tag: String) -> (element: Self)
        ensures
            element@ == (ElementModel {
                id,
                parent_id,
                ..ElementModel::detached(tag@, None)
            }),
    {
        let element = Self {
            id,
            tag,
            namespace: None,
            attributes: Vec::new(),
            attributes_given: false,
            value: None,
            children: Vec::new(),
            parent_id,
        };
        assert(pairs_view(element.attributes@) == Seq::<(Seq<char>, Seq<char>)>::empty());
        element
    }

    /// The id of the element in its document; 0 where it is in none.
    pub fn get_id(&self) -> (id: usize)
        ensures
            id == self@.id,
    {
        self.id
    }

    /// The id of the element's parent; 0 where it has none.
    pub fn get_parent_id(&self) -> (id: usize)
        ensures
            id == self@.parent_id,
    {
        self.parent_id
    }

    /// The element's name.
    pub fn get_tag(&self) -> (tag: &str)
        ensures
            tag@ == self@.tag,
    {
        self.tag.as_str()
    }

    /// The element's namespace, if it has one.
    pub fn get_namespace(&self) -> (namespace: &Option<String>)
        ensures
            opt_text(*namespace) == self@.namespace,
    {
        &self.namespace
    }

    /// Whether attributes have been given to the element, be it an empty
    /// list of them.
    pub closed spec fn has_attribute_list(&self) -> bool {
        self.attributes_given
    }

    /// The attributes in the order of writing, or nothing where none have
    /// been given to the element; an empty list that was given is given
    /// back.
    pub fn get_attribute(&self) -> (attributes: Option<&Vec<(String, String)>>)
        ensures
            attributes is Some <==> self.has_attribute_list(),
            attributes matches Some(list) ==> pairs_view(list@) == self@.attributes,
    {
        if self.attributes_given {
            Some(&self.attributes)
        } else {
            None
        }
    }

    /// The attributes in the order of writing.
    pub fn attribute_list(&self) -> (attributes: &Vec<(String, String)>)
        ensures
            pairs_view(attributes@) == self@.attributes,
    {
        &self.attributes
    }

    /// The value of the attribute `name`, if the element has one.
    pub fn get_attribute_value(&self, name: &str) -> (value: Option<&String>)
        ensures
            opt_text_ref(value) == self@.attribute(name@),
    {
        find_attribute(&self.attributes, name)
    }

    /// The element's value, if it has one.
    pub fn get_value(&self) -> (value: &Option<String>)
        ensures
            opt_text(*value) == self@.value,
    {
        &self.value
    }

    /// The ids of the children, in document order.
    pub fn get_children(&self) -> (children: &Vec<usize>)
        ensures
            children@ == self@.children,
    {
        &self.children
    }

    /// How many children the element lists.
    pub fn get_child_count(&self) -> (count: usize)
        ensures
            count == self@.children.len(),
    {
        self.children.len()
    }

    /// The id of the first child, if there is one.
    pub fn get_first_children(&self) -> (child: Option<usize>)
        ensures
            child == if self@.children.len() > 0 {
                Some(self@.children.first())
            } else {
                None
            },
    {
        if self.children.len() > 0 {
            Some(self.children[0])
        } else {
            None
        }
    }

    /// The id of the last child, if there is one.
    pub fn get_last_children(&self) -> (child: Option<usize>)
        ensures
            child == if self@.children.len() > 0 {
                Some(self@.children.last())
            } else {
                None
            },
    {
        if self.children.len() > 0 {
            Some(self.children[self.children.len() - 1])
        } else {
            None
        }
    }

    /// Whether the element has neither children nor a value, and so is
    /// written as a self-closing tag.
    pub fn is_empty_tag(&self) -> (empty: bool)
        ensures
            empty == self@.is_empty_tag(),
    {
        self.children.len() == 0 && self.value.is_none()
    }

    /// Replaces the element's attributes by `attributes`, kept in their order.
    pub fn set_attribute(&mut self, attributes: Vec<(String, String)>)
        ensures
            final(self)@ == (ElementModel {
                attributes: pairs_view(attributes@),
                ..old(self)@
            }),
            final(self).has_attribute_list(),
    {
        self.attributes = attributes;
        self.attributes_given = true;
    }

    /// Gives the element the value `text`.
    pub fn set_value(&mut self, text: String)
        ensures
            final(self).has_attribute_list() == old(self).has_attribute_list(),
            final(self)@ == (ElementModel { value: Some(text@), ..old(self)@ }),
    {
        self.value = Some(text);
    }

    /// Gives the element the namespace `namespace`.
    pub(crate) fn set_namespace(&mut self, namespace: Option<String>)
        ensures
            final(self)@ == (ElementModel { namespace: opt_text(namespace), ..old(self)@ }),
            final(self).has_attribute_list() == old(self).has_attribute_list(),
    {
        self.namespace = namespace;
    }

    /// Takes the first child's id off the list of children.
    pub fn pop_child_mut(&mut self) -> (child: Option<usize>)
        ensures
            final(self).has_attribute_list() == old(self).has_attribute_list(),
            old(self)@.children.len() == 0 ==> child is None && final(self)@ == old(self)@,
            old(self)@.children.len() > 0 ==> child == Some(old(self)@.children.first())
                && final(self)@ == (ElementModel {
                children: old(self)@.children.drop_first(),
                ..old(self)@
            }),
    {
        if self.children.len() == 0 {
            None
        } else {
            let first = self.children.remove(0);
            assert(self.children@ == old(self).children@.drop_first());
            Some(first)
        }
    }

    /// Lists the element with the id `child` as the last child.
    pub fn push_children(&mut self, child: usize)
        ensures
            final(self).has_attribute_list() == old(self).has_attribute_list(),
            final(self)@ == (ElementModel {
                children: old(self)@.children.push(child),
                ..old(self)@
            }),
    {
        self.children.push(child);
    }

    /// Replaces the list of children.
    pub(crate) fn set_children(&mut self, children: Vec<usize>)
        ensures
            final(self)@ == (ElementModel { children: children@, ..old(self)@ }),
    {
        self.children = children;
    }

    /// Puts `child` at place `index` of the list of children.
    pub(crate) fn insert_child_id(&mut self, index: usize, child: usize)
        requires
            index <= old(self)@.children.len(),
        ensures
            final(self)@ == (ElementModel {
                children: old(self)@.children.insert(index as int, child),
                ..old(self)@
            }),
    {
        self.children.insert(index, child);
    }
}

} // verus!
