//! The relationships of a part: the typed, named edges that lead from it
//! to other parts, as its relationships file holds them. Every edge has an
//! id of its own.

use vstd::prelude::*;
use crate::element_dictionary::{Content, relationships_content};
use crate::error::OfficeError;
use crate::numbering::{names_view, next_free_name, next_name, numbered};
use crate::style_read::{fold_all, lemma_fold_none, root_children};
use crate::text::{chars_of, find_in, first_occurrence, str_eq, string_of_range};
use crate::xml_document::{DocumentModel, XmlDocument};
use crate::xml_node::{Node, XmlNode};
use crate::xml_tree::opt_text;

verus! {

/// One relationship, as plain mathematical values.
pub struct RelationshipModel {
    pub id: Seq<char>,
    pub target: Seq<char>,
    pub kind: Seq<char>,
    pub target_mode: Option<Seq<char>>,
}

/// One relationship: its id, the path that it leads to, its type, and
/// whether it leads out of the package.
#[derive(Debug)]
pub struct Relationship {
    pub id: String,
    pub target: String,
    pub relationship_type: String,
    pub target_mode: Option<String>,
}

impl View for Relationship {
    type V = RelationshipModel;

    open spec fn view(&self) -> RelationshipModel {
        RelationshipModel {
            id: self.id@,
            target: self.target@,
            kind: self.relationship_type@,
            target_mode: opt_text(self.target_mode),
        }
    }
}

/// A list of relationships as plain mathematical values.
pub open spec fn relationships_view(list: Seq<Relationship>) -> Seq<RelationshipModel> {
    Seq::new(list.len(), |i: int| list[i]@)
}

/// The ids of a list of relationships, in their order.
pub open spec fn ids_of(list: Seq<RelationshipModel>) -> Seq<Seq<char>> {
    Seq::new(list.len(), |i: int| list[i].id)
}

/// The relationships of a part, as plain mathematical values.
pub struct RelationsModel {
    pub relationships: Seq<RelationshipModel>,
    /// The path of the relationships file in the package.
    pub file_path: Seq<char>,
}

/// The id with the number `k`.
pub open spec fn relationship_id(k: nat) -> Seq<char> {
    numbered("rId"@, k)
}

/// The id that the next new relationship gets: the one with the least
/// positive number that is not in use.
pub open spec fn next_relationship_id(ids: Seq<Seq<char>>) -> Seq<char> {
    next_name("rId"@, ids)
}

/// The first relationship with the id `id`.
pub open spec fn first_with_id(list: Seq<RelationshipModel>, id: Seq<char>) -> Option<
    RelationshipModel,
>
    decreases list.len(),
{
    if list.len() == 0 {
        None
    } else if list[0].id == id {
        Some(list[0])
    } else {
        first_with_id(list.drop_first(), id)
    }
}

/// The first relationship of the type `kind`.
pub open spec fn first_of_type(list: Seq<RelationshipModel>, kind: Seq<char>) -> Option<
    RelationshipModel,
>
    decreases list.len(),
{
    if list.len() == 0 {
        None
    } else if list[0].kind == kind {
        Some(list[0])
    } else {
        first_of_type(list.drop_first(), kind)
    }
}

/// The relationships that do not lead to `target`, in their order.
pub open spec fn without_target(list: Seq<RelationshipModel>, target: Seq<char>) -> Seq<
    RelationshipModel,
>
    decreases list.len(),
{
    if list.len() == 0 {
        list
    } else if list.last().target == target {
        without_target(list.drop_last(), target)
    } else {
        without_target(list.drop_last(), target).push(list.last())
    }
}

/// The directory against which the targets of a relationships file are
/// resolved: what stands before `_rels` in the file's path, with a slash
/// behind it; nothing for a path that has no `_rels` in it.
pub open spec fn relative_base(path: Seq<char>) -> Option<Seq<char>> {
    match first_occurrence(path, "_rels"@) {
        Some(place) => if place > 0 {
            Some(path.subrange(0, place - 1) + seq!['/'])
        } else {
            Some(Seq::empty())
        },
        None => None,
    }
}

/// The path in the package that a target stands for: the target without
/// its slash where it begins with one, else the target behind the base.
pub open spec fn resolved_target(base: Seq<char>, target: Seq<char>) -> Seq<char> {
    if target.len() > 0 && target[0] == '/' {
        target.drop_first()
    } else {
        base + target
    }
}

/// A target with a slash before it, where it has none.
pub open spec fn rooted(path: Seq<char>) -> Seq<char> {
    if path.len() > 0 && path[0] == '/' {
        path
    } else {
        seq!['/'] + path
    }
}

/// The path of a new part's file: the directory named, or that of its
/// kind, then the name named, or that of its kind, then the extension.
pub open spec fn new_part_path(
    content: Content,
    file_path: Option<Seq<char>>,
    file_name: Option<Seq<char>>,
) -> Seq<char> {
    (match file_path {
        Some(p) => p,
        None => content.default_path@,
    }) + seq!['/'] + (match file_name {
        Some(n) => n,
        None => content.default_name@,
    }) + seq!['.'] + content.extension@
}

/// The relationship that leads to a new part.
pub open spec fn new_relationship(
    ids: Seq<Seq<char>>,
    content: Content,
    file_path: Option<Seq<char>>,
    file_name: Option<Seq<char>>,
) -> RelationshipModel {
    RelationshipModel {
        id: next_relationship_id(ids),
        target: seq!['/'] + new_part_path(content, file_path, file_name),
        kind: content.schemas_type@,
        target_mode: None,
    }
}

/// A relationship as an element.
pub open spec fn relationship_node(relationship: RelationshipModel) -> Node {
    Node {
        tag: "Relationship"@,
        attributes: seq![
            ("Id"@, relationship.id),
            ("Target"@, relationship.target),
            ("Type"@, relationship.kind),
        ] + (match relationship.target_mode {
            Some(mode) => seq![("TargetMode"@, mode)],
            None => Seq::empty(),
        }),
        value: None,
        children: Seq::empty(),
    }
}

/// The relationship that an element stands for. It must give an id, a
/// target and a type.
pub open spec fn read_relationship(node: Node) -> Option<RelationshipModel> {
    match (node.attribute("Id"@), node.attribute("Target"@), node.attribute("Type"@)) {
        (Some(id), Some(target), Some(kind)) => Some(
            RelationshipModel { id, target, kind, target_mode: node.attribute("TargetMode"@) },
        ),
        _ => None,
    }
}

/// The relationships after one child of the root of a relationships file
/// has been read: a child named `Relationship` must stand for a
/// relationship, which is put behind the others; any other child says
/// nothing.
pub open spec fn relationship_step(list: Seq<RelationshipModel>, child: Node) -> Option<
    Seq<RelationshipModel>,
> {
    if child.tag == "Relationship"@ {
        match read_relationship(child) {
            Some(relationship) => Some(list.push(relationship)),
            None => None,
        }
    } else {
        Some(list)
    }
}

/// The relationships that the children of the root of a relationships
/// file stand for, in document order.
pub open spec fn read_relationships(nodes: Seq<Node>) -> Option<Seq<RelationshipModel>> {
    fold_all(
        nodes,
        Seq::empty(),
        |list: Seq<RelationshipModel>, child: Node| relationship_step(list, child),
    )
}

/// The relationships that a relationships file holds: those that the
/// children of its root stand for, where each of them can be read and no
/// two have the same id.
pub open spec fn loaded_relationships(document: DocumentModel) -> Option<Seq<RelationshipModel>> {
    checked_relationships(root_children(document))
}

/// The relationships that the children `nodes` of a relationships file's
/// root stand for, where each of them can be read and no two have the
/// same id.
pub open spec fn checked_relationships(nodes: Seq<Node>) -> Option<Seq<RelationshipModel>> {
    match read_relationships(nodes) {
        Some(list) => if ids_of(list).no_duplicates() {
            Some(list)
        } else {
            None
        },
        None => None,
    }
}

/// A path or an error as plain values.
pub open spec fn paths_view(res: Result<String, OfficeError>) -> Result<Seq<char>, OfficeError> {
    match res {
        Ok(path) => Ok(path@),
        Err(e) => Err(e),
    }
}

/// A path, if any, or an error as plain values.
pub open spec fn found_view(res: Result<Option<String>, OfficeError>) -> Result<
    Option<Seq<char>>,
    OfficeError,
> {
    match res {
        Ok(path) => Ok(opt_text(path)),
        Err(e) => Err(e),
    }
}

/// The elements of a list of relationships.
pub open spec fn relationship_nodes(list: Seq<RelationshipModel>) -> Seq<Node> {
    Seq::new(list.len(), |i: int| relationship_node(list[i]))
}

/// The root of a relationships file that holds no relationship.
pub open spec fn new_relationships_node() -> Node {
    Node {
        attributes: seq![
            ("xmlns"@, "http://schemas.openxmlformats.org/package/2006/relationships"@),
        ],
        ..Node::leaf("Relationships"@)
    }
}

/// Taking out the relationships to one target leaves relationships that
/// were there, and leaves their ids different where they were.
pub proof fn lemma_without_target(list: Seq<RelationshipModel>, target: Seq<char>)
    ensures
        forall|x: Seq<char>|
            ids_of(without_target(list, target)).contains(x) ==> #[trigger] ids_of(list).contains(x),
        ids_of(list).no_duplicates() ==> ids_of(without_target(list, target)).no_duplicates(),
        forall|i: int|
            0 <= i < without_target(list, target).len() ==> (#[trigger] without_target(
                list,
                target,
            )[i]).target != target,
    decreases list.len(),
{
    if list.len() > 0 {
        let front = list.drop_last();
        let last = list.last();
        let kept = without_target(front, target);
        let out = without_target(list, target);
        lemma_without_target(front, target);
        assert(ids_of(front) =~= ids_of(list).drop_last());
        assert forall|x: Seq<char>| ids_of(out).contains(x) implies #[trigger] ids_of(list).contains(
            x,
        ) by {
            let i = choose|i: int| 0 <= i < ids_of(out).len() && ids_of(out)[i] == x;
            if i < kept.len() {
                assert(ids_of(kept)[i] == x);
                assert(ids_of(kept).contains(x));
                assert(ids_of(front).contains(x));
                let j = choose|j: int| 0 <= j < ids_of(front).len() && ids_of(front)[j] == x;
                assert(ids_of(list)[j] == x);
            } else {
                assert(ids_of(list)[list.len() - 1] == x);
            }
        }
        if ids_of(list).no_duplicates() {
            assert(ids_of(front).no_duplicates());
            if last.target != target {
                assert(!ids_of(front).contains(last.id)) by {
                    if ids_of(front).contains(last.id) {
                        let j = choose|j: int|
                            0 <= j < ids_of(front).len() && ids_of(front)[j] == last.id;
                        assert(ids_of(list)[j] == ids_of(list)[list.len() - 1]);
                    }
                }
                assert forall|i: int, j: int|
                    0 <= i < ids_of(out).len() && 0 <= j < ids_of(out).len() && i != j implies ids_of(
                    out,
                )[i] != ids_of(out)[j] by {
                    if i < kept.len() && j < kept.len() {
                        assert(ids_of(kept)[i] != ids_of(kept)[j]);
                    } else if i < kept.len() {
                        assert(ids_of(kept).contains(ids_of(kept)[i]));
                    } else {
                        assert(ids_of(kept).contains(ids_of(kept)[j]));
                    }
                }
            }
        }
    }
}

/// A relationships part: the relationships of one relationships file,
/// kept in memory while the part is open.
#[derive(Debug)]
pub struct RelationsPart {
    /// Holds ID, Target, Type, Target Mode
    relationships: Vec<Relationship>,
    file_path: String,
}

impl View for RelationsPart {
    type V = RelationsModel;

    closed spec fn view(&self) -> RelationsModel {
        RelationsModel {
            relationships: relationships_view(self.relationships@),
            file_path: self.file_path@,
        }
    }
}

impl RelationsModel {
    /// The path to which the first relationship of the type
    /// `content_type` leads; nothing where there is none of that type.
    /// Where the relationships file has no place in the package from
    /// which targets are resolved, there is no path: that is an error of
    /// the program.
    pub open spec fn found_target(self, content_type: Seq<char>) -> Result<
        Option<Seq<char>>,
        OfficeError,
    > {
        match first_of_type(self.relationships, content_type) {
            Some(found) => match relative_base(self.file_path) {
                Some(base) => Ok(Some(resolved_target(base, found.target))),
                None => Err(OfficeError::Programmer),
            },
            None => Ok(None),
        }
    }

    /// The path to which the first relationship of the type
    /// `content_type` leads, or the path of a new part of the kind
    /// `content` where there is none of that type.
    pub open spec fn target_by_type(
        self,
        content_type: Seq<char>,
        content: Content,
        file_path: Option<Seq<char>>,
        file_name: Option<Seq<char>>,
    ) -> Result<Seq<char>, OfficeError> {
        match self.found_target(content_type) {
            Ok(Some(path)) => Ok(path),
            Ok(None) => Ok(new_part_path(content, file_path, file_name)),
            Err(e) => Err(e),
        }
    }

    /// The relationships after a target of the type `content_type` has
    /// been asked for: where there was none of that type, a relationship
    /// to a new part of the kind `content` stands behind the others.
    pub open spec fn with_target_by_type(
        self,
        content_type: Seq<char>,
        content: Content,
        file_path: Option<Seq<char>>,
        file_name: Option<Seq<char>>,
    ) -> RelationsModel {
        match first_of_type(self.relationships, content_type) {
            Some(_) => self,
            None => RelationsModel {
                relationships: self.relationships.push(
                    new_relationship(ids_of(self.relationships), content, file_path, file_name),
                ),
                ..self
            },
        }
    }

    /// The invariant of the relationships of a part: no two of them have
    /// the same id.
    pub open spec fn wf(self) -> bool {
        ids_of(self.relationships).no_duplicates()
    }
}

/// The text `s` without its first character.
fn without_first(s: &str) -> (rest: String)
    requires
        s@.len() > 0,
    ensures
        rest@ == s@.drop_first(),
{
    let v = chars_of(s);
    let rest = string_of_range(&v, 1, v.len());
    assert(v@.subrange(1, v.len() as int) =~= s@.drop_first());
    rest
}

/// Whether `s` begins with a slash.
fn is_rooted(s: &str) -> (rooted: bool)
    ensures
        rooted == (s@.len() > 0 && s@[0] == '/'),
{
    let v = chars_of(s);
    v.len() > 0 && v[0] == '/'
}

/// The text that `text` holds, or `fallback` where it holds none.
fn text_or(text: &Option<String>, fallback: &str) -> (chosen: String)
    ensures
        chosen@ == match opt_text(*text) {
            Some(t) => t,
            None => fallback@,
        },
{
    match text {
        Some(t) => t.clone(),
        None => fallback.to_owned(),
    }
}

/// The path of a new part's file.
pub(crate) fn part_path(content: &Content, file_path: &Option<String>, file_name: &Option<String>) -> (path:
    String)
    ensures
        path@ == new_part_path(*content, opt_text(*file_path), opt_text(*file_name)),
{
    let mut path = text_or(file_path, content.default_path);
    path.push('/');
    let name = text_or(file_name, content.default_name);
    path.append(name.as_str());
    path.push('.');
    path.append(content.extension);
    path
}

impl RelationsPart {
    /// The invariant of the part: that of its relationships.
    pub open spec fn wf(&self) -> bool {
        self@.wf()
    }

    /// The part of the relationships file `xml_document`, whose path in
    /// the package is `file_name`. The relationships are read and taken
    /// out of the document as `load_relations` does.
    pub fn new(xml_document: &mut XmlDocument, file_name: &str) -> (res: Result<Self, OfficeError>)
        requires
            old(xml_document).wf(),
        ensures
            final(xml_document).wf(),
            match loaded_relationships(old(xml_document)@) {
                Some(list) => (res matches Ok(part) && part.wf() && part@ == (RelationsModel {
                    relationships: list,
                    file_path: file_name@,
                })) && final(xml_document)@ == old(xml_document)@.without_subtrees(
                    old(xml_document)@.tagged("Relationship"@),
                ),
                None => (res matches Err(e) && e == OfficeError::Schema) && final(xml_document)@
                    == old(xml_document)@,
            },
    {
        match Self::load_relations(xml_document) {
            Ok(relationships) => Ok(Self { relationships, file_path: file_name.to_owned() }),
            Err(e) => Err(e),
        }
    }

    /// Reads the relationships out of a relationships file, from the
    /// children of its root, and takes every element named `Relationship`
    /// out of the document: from then on the relationships are kept in
    /// memory. A file with a relationship that lacks its id, target or
    /// type, or with two relationships of one id, is refused and left as
    /// it was.
    pub fn load_relations(xml_document: &mut XmlDocument) -> (res: Result<
        Vec<Relationship>,
        OfficeError,
    >)
        requires
            old(xml_document).wf(),
        ensures
            final(xml_document).wf(),
            match loaded_relationships(old(xml_document)@) {
                Some(list) => (res matches Ok(loaded) && relationships_view(loaded@) == list)
                    && final(xml_document)@ == old(xml_document)@.without_subtrees(
                    old(xml_document)@.tagged("Relationship"@),
                ),
                None => (res matches Err(e) && e == OfficeError::Schema) && final(xml_document)@
                    == old(xml_document)@,
            },
    {
        let root = match xml_document.get_root_id() {
            Some(r) => xml_document.get_tree(r),
            None => None,
        };
        let root = match root {
            Some(node) => node,
            None => XmlNode::new(""),
        };
        assert(root@.children == root_children(xml_document@));
        let ghost all = root@.children;
        let ghost step = |list: Seq<RelationshipModel>, child: Node| relationship_step(list, child);
        let mut relationships: Vec<Relationship> = Vec::new();
        let mut i: usize = 0;
        assert(relationships_view(relationships@) =~= Seq::<RelationshipModel>::empty());
        while i < root.children.len()
            invariant
                i <= root.children.len(),
                xml_document.wf(),
                *xml_document == *old(xml_document),
                all == root@.children,
                all == root_children(xml_document@),
                step == (|list: Seq<RelationshipModel>, child: Node| relationship_step(list, child)),
                fold_all(all.take(i as int), Seq::empty(), step) == Some(
                    relationships_view(relationships@),
                ),
            decreases root.children.len() - i,
        {
            let ghost front = relationships_view(relationships@);
            proof {
                let t = all.take(i + 1);
                assert(t.drop_last() == all.take(i as int));
                assert(t.last() == root.children[i as int]@);
                if fold_all(t, Seq::empty(), step) is None {
                    lemma_fold_none(all, (i + 1) as int, Seq::empty(), step);
                }
            }
            let element = &root.children[i];
            if element.is_named("Relationship") {
                let id = element.attribute_value("Id");
                let target = element.attribute_value("Target");
                let kind = element.attribute_value("Type");
                match (id, target, kind) {
                    (Some(id), Some(target), Some(kind)) => {
                        let record = Relationship {
                            id: id.clone(),
                            target: target.clone(),
                            relationship_type: kind.clone(),
                            target_mode: match element.attribute_value("TargetMode") {
                                Some(mode) => Some(mode.clone()),
                                None => None,
                            },
                        };
                        relationships.push(record);
                        assert(relationships_view(relationships@) =~= front.push(record@));
                    },
                    _ => {
                        return Err(OfficeError::Schema);
                    },
                }
            }
            i += 1;
        }
        assert(all.take(i as int) == all);
        if !Self::ids_differ(&relationships) {
            return Err(OfficeError::Schema);
        }
        let _ = xml_document.pop_elements_by_tag_mut("Relationship");
        Ok(relationships)
    }

    /// Whether no two relationships have the same id.
    fn ids_differ(relationships: &Vec<Relationship>) -> (differ: bool)
        ensures
            differ == ids_of(relationships_view(relationships@)).no_duplicates(),
    {
        let ghost ids = ids_of(relationships_view(relationships@));
        let mut i: usize = 0;
        while i < relationships.len()
            invariant
                i <= relationships.len(),
                ids == ids_of(relationships_view(relationships@)),
                forall|a: int, b: int| 0 <= a < b < i ==> ids[a] != ids[b],
            decreases relationships.len() - i,
        {
            let mut j: usize = 0;
            while j < i
                invariant
                    j <= i < relationships.len(),
                    ids == ids_of(relationships_view(relationships@)),
                    forall|a: int| 0 <= a < j ==> ids[a] != ids[i as int],
                decreases i - j,
            {
                if str_eq(relationships[j].id.as_str(), relationships[i].id.as_str()) {
                    assert(ids[j as int] == ids[i as int]);
                    return false;
                }
                j += 1;
            }
            i += 1;
        }
        true
    }

    /// The path of the relationships file in the package.
    pub fn get_file_path(&self) -> (path: &str)
        ensures
            path@ == self@.file_path,
    {
        self.file_path.as_str()
    }

    /// How many relationships the part has.
    pub fn len(&self) -> (count: usize)
        ensures
            count == self@.relationships.len(),
    {
        self.relationships.len()
    }

    /// The path in the package to which the first relationship of the type
    /// `content_type` leads; nothing where the part has none of that type.
    pub fn find_target_by_type(&self, content_type: &str) -> (res: Result<Option<String>, OfficeError>)
        ensures
            found_view(res) == self@.found_target(content_type@),
    {
        let ghost all = self@.relationships;
        assert(all.skip(0) == all);
        let mut i: usize = 0;
        while i < self.relationships.len()
            invariant
                i <= self.relationships.len(),
                all == self@.relationships,
                first_of_type(all, content_type@) == first_of_type(all.skip(i as int), content_type@),
            decreases self.relationships.len() - i,
        {
            proof {
                let rest = all.skip(i as int);
                assert(rest[0] == self.relationships@[i as int]@);
                assert(rest.drop_first() == all.skip(i + 1));
            }
            if str_eq(self.relationships[i].relationship_type.as_str(), content_type) {
                return match self.resolve(self.relationships[i].target.as_str()) {
                    Ok(path) => Ok(Some(path)),
                    Err(e) => Err(e),
                };
            }
            i += 1;
        }
        Ok(None)
    }

    /// The directory against which the part's targets are resolved. The
    /// path of a relationships file has `_rels` in it; a part whose path
    /// has not is refused.
    pub fn get_relative_path(&self) -> (res: Result<String, OfficeError>)
        ensures
            match relative_base(self@.file_path) {
                Some(base) => res matches Ok(path) && path@ == base,
                None => res matches Err(e) && e == OfficeError::Programmer,
            },
    {
        let path = chars_of(self.file_path.as_str());
        let pattern = chars_of("_rels");
        match find_in(&path, &pattern) {
            Some(place) => {
                if place > 0 {
                    let mut base = string_of_range(&path, 0, place - 1);
                    base.push('/');
                    assert(base@ =~= path@.subrange(0, place - 1) + seq!['/']);
                    Ok(base)
                } else {
                    Ok(String::new())
                }
            },
            None => Err(OfficeError::Programmer),
        }
    }

    /// The path in the package that `target` stands for.
    fn resolve(&self, target: &str) -> (res: Result<String, OfficeError>)
        ensures
            match relative_base(self@.file_path) {
                Some(base) => res matches Ok(path) && path@ == resolved_target(base, target@),
                None => res matches Err(e) && e == OfficeError::Programmer,
            },
    {
        let relative_path = match self.get_relative_path() {
            Ok(path) => path,
            Err(e) => {
                return Err(e);
            },
        };
        if is_rooted(target) {
            Ok(without_first(target))
        } else {
            let mut path = relative_path;
            path.append(target);
            Ok(path)
        }
    }

    /// The path in the package to which the relationship `relationship_id`
    /// leads; nothing where the part has no such relationship.
    pub fn get_target_by_id(&self, relationship_id: &str) -> (res: Result<
        Option<String>,
        OfficeError,
    >)
        ensures
            match first_with_id(self@.relationships, relationship_id@) {
                Some(found) => match relative_base(self@.file_path) {
                    Some(base) => res matches Ok(Some(path)) && path@ == resolved_target(
                        base,
                        found.target,
                    ),
                    None => res matches Err(e) && e == OfficeError::Programmer,
                },
                None => res matches Ok(None),
            },
    {
        let ghost all = self@.relationships;
        assert(all.skip(0) == all);
        let mut i: usize = 0;
        while i < self.relationships.len()
            invariant
                i <= self.relationships.len(),
                all == self@.relationships,
                first_with_id(all, relationship_id@) == first_with_id(
                    all.skip(i as int),
                    relationship_id@,
                ),
            decreases self.relationships.len() - i,
        {
            proof {
                let rest = all.skip(i as int);
                assert(rest[0] == self.relationships@[i as int]@);
                assert(rest.drop_first() == all.skip(i + 1));
            }
            if str_eq(self.relationships[i].id.as_str(), relationship_id) {
                return match self.resolve(self.relationships[i].target.as_str()) {
                    Ok(path) => Ok(Some(path)),
                    Err(e) => Err(e),
                };
            }
            i += 1;
        }
        Ok(None)
    }

    /// Get Relation Target based on Type
    /// Note: This will get the first element match the criteria
    ///
    /// Where the part has a relationship of the type `content_type`, the
    /// path to which the first of them leads. Where it has none, a
    /// relationship to a new part of the kind `content` is made, and the
    /// path of that part's file is given.
    pub fn get_relationship_target_by_type_mut(
        &mut self,
        content_type: &str,
        content: &Content,
        file_path: Option<String>,
        file_name: Option<String>,
    ) -> (res: Result<String, OfficeError>)
        requires
            old(self).wf(),
        ensures
            final(self).wf(),
            final(self)@ == old(self)@.with_target_by_type(
                content_type@,
                *content,
                opt_text(file_path),
                opt_text(file_name),
            ),
            paths_view(res) == old(self)@.target_by_type(
                content_type@,
                *content,
                opt_text(file_path),
                opt_text(file_name),
            ),
    {
        let ghost all = self@.relationships;
        assert(all.skip(0) == all);
        let mut i: usize = 0;
        while i < self.relationships.len()
            invariant
                i <= self.relationships.len(),
                *self == *old(self),
                self.wf(),
                all == self@.relationships,
                first_of_type(all, content_type@) == first_of_type(all.skip(i as int), content_type@),
            decreases self.relationships.len() - i,
        {
            proof {
                let rest = all.skip(i as int);
                assert(rest[0] == self.relationships@[i as int]@);
                assert(rest.drop_first() == all.skip(i + 1));
            }
            if str_eq(self.relationships[i].relationship_type.as_str(), content_type) {
                return self.resolve(self.relationships[i].target.as_str());
            }
            i += 1;
        }
        let path = part_path(content, &file_path, &file_name);
        let _ = self.set_new_relationship_mut(content, file_path, file_name);
        Ok(path)
    }

    /// Generate Next Relationship ID to add
    ///
    /// The id with the least positive number that is not in use.
    fn get_next_relationship_id(&self) -> (id: String)
        requires
            self.wf(),
        ensures
            id@ == next_relationship_id(ids_of(self@.relationships)),
            !ids_of(self@.relationships).contains(id@),
    {
        let mut ids: Vec<String> = Vec::new();
        let mut i: usize = 0;
        while i < self.relationships.len()
            invariant
                i <= self.relationships.len(),
                ids.len() == i,
                forall|k: int| 0 <= k < i ==> (#[trigger] ids@[k])@ == self.relationships@[k].id@,
            decreases self.relationships.len() - i,
        {
            ids.push(self.relationships[i].id.clone());
            i += 1;
        }
        assert(names_view(ids@) =~= ids_of(self@.relationships));
        next_free_name("rId", &ids)
    }

    /// Create new Relation
    ///
    /// Makes the relationship that leads to a new part of the kind
    /// `content`, under the least id that is not in use, and gives that
    /// id.
    pub fn set_new_relationship_mut(
        &mut self,
        content: &Content,
        file_path: Option<String>,
        file_name: Option<String>,
    ) -> (res: Result<String, OfficeError>)
        requires
            old(self).wf(),
        ensures
            final(self).wf(),
            res matches Ok(id) && id@ == next_relationship_id(ids_of(old(self)@.relationships)),
            final(self)@ == (RelationsModel {
                relationships: old(self)@.relationships.push(
                    new_relationship(
                        ids_of(old(self)@.relationships),
                        *content,
                        opt_text(file_path),
                        opt_text(file_name),
                    ),
                ),
                ..old(self)@
            }),
    {
        let next_id = self.get_next_relationship_id();
        let mut target = String::new();
        target.push('/');
        let path = part_path(content, &file_path, &file_name);
        target.append(path.as_str());
        let ghost before = self@.relationships;
        let record = Relationship {
            id: next_id.clone(),
            target,
            relationship_type: content.schemas_type.to_owned(),
            target_mode: None,
        };
        assert(record@.target =~= seq!['/'] + new_part_path(
            *content,
            opt_text(file_path),
            opt_text(file_name),
        ));
        self.relationships.push(record);
        proof {
            let after = self@.relationships;
            assert(after =~= before.push(record@));
            assert(ids_of(after) =~= ids_of(before).push(record@.id));
            assert forall|i: int, j: int|
                0 <= i < ids_of(after).len() && 0 <= j < ids_of(after).len() && i != j implies ids_of(
                after,
            )[i] != ids_of(after)[j] by {
                if i < before.len() && j < before.len() {
                    assert(ids_of(before)[i] != ids_of(before)[j]);
                } else if i < before.len() {
                    assert(ids_of(before).contains(ids_of(before)[i]));
                } else {
                    assert(ids_of(before).contains(ids_of(before)[j]));
                }
            }
        }
        Ok(next_id)
    }

    /// Delete the target file path
    ///
    /// Takes out every relationship that leads to `file_path`, written
    /// with or without its first slash.
    pub fn delete_relationship_mut(&mut self, file_path: &str)
        requires
            old(self).wf(),
        ensures
            final(self).wf(),
            final(self)@ == (RelationsModel {
                relationships: without_target(old(self)@.relationships, rooted(file_path@)),
                ..old(self)@
            }),
    {
        let target = if is_rooted(file_path) {
            file_path.to_owned()
        } else {
            crate::text::concat("/", file_path)
        };
        proof {
            reveal_strlit("/");
            assert("/"@ =~= seq!['/']);
        }
        assert(target@ == rooted(file_path@));
        let ghost all = self@.relationships;
        let mut kept: Vec<Relationship> = Vec::new();
        let mut rest: Vec<Relationship> = Vec::new();
        core::mem::swap(&mut self.relationships, &mut rest);
        let mut i: usize = 0;
        assert(all.take(0) =~= Seq::<RelationshipModel>::empty());
        assert(relationships_view(kept@) =~= Seq::<RelationshipModel>::empty());
        while i < rest.len()
            invariant
                i <= rest.len(),
                all == relationships_view(rest@),
                relationships_view(kept@) == without_target(all.take(i as int), target@),
            decreases rest.len() - i,
        {
            let ghost front = relationships_view(kept@);
            proof {
                let t = all.take(i + 1);
                assert(t.drop_last() == all.take(i as int));
                assert(t.last() == rest@[i as int]@);
            }
            if !str_eq(rest[i].target.as_str(), target.as_str()) {
                let record = Relationship {
                    id: rest[i].id.clone(),
                    target: rest[i].target.clone(),
                    relationship_type: rest[i].relationship_type.clone(),
                    target_mode: match &rest[i].target_mode {
                        Some(mode) => Some(mode.clone()),
                        None => None,
                    },
                };
                kept.push(record);
                assert(relationships_view(kept@) =~= front.push(record@));
            }
            i += 1;
        }
        assert(all.take(i as int) == all);
        self.relationships = kept;
        proof {
            lemma_without_target(all, target@);
        }
    }

    /// Save the relationship detail to xml document
    ///
    /// Hangs one element for each relationship behind the children of the
    /// document's root, in their order. Says whether the root has any
    /// child afterwards: a relationships file without any is of no use.
    /// A document without a root is refused and left as it was.
    pub fn save_relationship_to_doc(&self, xml_document: &mut XmlDocument) -> (res: Result<
        bool,
        OfficeError,
    >)
        requires
            old(xml_document).wf(),
        ensures
            final(xml_document).wf(),
            match old(xml_document)@.parent_or_root(None) {
                Some(root) => res == Ok::<bool, OfficeError>(
                    old(xml_document)@.tree(root).children.len() > 0 || self@.relationships.len()
                        > 0,
                ) && final(xml_document)@.parent_or_root(None) == Some(root) && final(xml_document)@.tree(root) == (Node {
                    children: old(xml_document)@.tree(root).children + relationship_nodes(
                        self@.relationships,
                    ),
                    ..old(xml_document)@.tree(root)
                }),
                None => res == Err::<bool, OfficeError>(OfficeError::NotFound) && final(xml_document)@ == old(xml_document)@,
            },
    {
        let root = match xml_document.get_root_id() {
            Some(r) => r,
            None => {
                return Err(OfficeError::NotFound);
            },
        };
        if xml_document.get_element(root).is_none() {
            return Err(OfficeError::NotFound);
        }
        let child_count = xml_document.get_child_count(root);
        let ghost before = xml_document@.tree(root);
        let ghost all = self@.relationships;
        let mut i: usize = 0;
        assert(before.children + Seq::new(0nat, |k: int| relationship_node(all[k]))
            =~= before.children);
        while i < self.relationships.len()
            invariant
                i <= self.relationships.len(),
                xml_document.wf(),
                all == self@.relationships,
                xml_document@.parent_or_root(None) == Some(root),
                xml_document@.tree(root) == (Node {
                    children: before.children + Seq::new(
                        i as nat,
                        |k: int| relationship_node(all[k]),
                    ),
                    ..before
                }),
            decreases self.relationships.len() - i,
        {
            let relationship = &self.relationships[i];
            let mut node = XmlNode::new("Relationship");
            node.push_attribute("Id", relationship.id.clone());
            node.push_attribute("Target", relationship.target.clone());
            node.push_attribute("Type", relationship.relationship_type.clone());
            match &relationship.target_mode {
                Some(target_mode) => {
                    node.push_attribute("TargetMode", target_mode.clone());
                },
                None => {},
            }
            assert(node@.attributes =~= relationship_node(all[i as int]).attributes);
            assert(node@ == relationship_node(all[i as int]));
            let ghost s = xml_document@;
            let _ = xml_document.append_tree_mut(&node, Some(root));
            proof {
                assert(xml_document@.elements.dom().contains(root));
                assert(xml_document@.tree(root).children =~= before.children + Seq::new(
                    (i + 1) as nat,
                    |k: int| relationship_node(all[k]),
                ));
            }
            i += 1;
        }
        proof {
            let d = old(xml_document)@;
            assert(d.elements.dom().contains(root));
            assert(d.element_ok(root));
            assert(before.children.len() == d.elements[root].children.len());
            assert(Seq::new(i as nat, |k: int| relationship_node(all[k])) =~= relationship_nodes(
                all,
            ));
        }
        Ok(child_count > 0 || self.relationships.len() > 0)
    }

    /// Initialize xml content for this part from base template
    ///
    /// An empty relationships file: the root element with its namespace,
    /// which holds no relationship. With it come the content type of the
    /// part, which has none of its own, the extension of its file, and the
    /// way in which the content type of that extension is declared.
    pub fn initialize_content_xml() -> (res: (XmlDocument, Option<String>, String, String))
        ensures
            res.0.wf(),
            res.0@.parent_or_root(None) == Some(1usize),
            res.0@.tree(1) == new_relationships_node(),
            loaded_relationships(res.0@) == Some(Seq::<RelationshipModel>::empty()),
            res.1 is None,
            res.2@ == "rels"@,
            res.3@ == "Default"@,
    {
        let relationship_content = relationships_content();
        let mut attributes: Vec<(String, String)> = Vec::new();
        attributes.push(("xmlns".to_owned(), relationship_content.schemas_namespace.to_owned()));
        let mut xml_document = XmlDocument::new();
        let _ = xml_document.create_root_mut("Relationships");
        let _ = xml_document.set_attribute_mut(1, attributes);
        proof {
            let d = xml_document@;
            assert(crate::xml_tree::pairs_view(attributes@) =~= seq![
                ("xmlns"@, "http://schemas.openxmlformats.org/package/2006/relationships"@),
            ]);
            assert(d.elements[1].children =~= Seq::<usize>::empty());
            assert(d.tree(1).children =~= Seq::<Node>::empty());
            assert(ids_of(Seq::<RelationshipModel>::empty()) =~= Seq::<Seq<char>>::empty());
        }
        (
            xml_document,
            None,
            relationship_content.extension.to_owned(),
            relationship_content.extension_type.to_owned(),
        )
    }
}

} // verus!
