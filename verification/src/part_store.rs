//! Parts and the package store: how a part's document comes out of the
//! store when the part is opened, and how it goes back when the part is
//! closed.

use vstd::prelude::*;
use crate::element_dictionary::{relationships_content, relationships_content_spec};
use crate::error::OfficeError;
use crate::office_document::{
    FileModel, OfficeDocument, after_delete, after_read, after_write, can_read, holds_file,
    keepable, lemma_names_of_files, record_index, root_of,
};
use crate::part::CloseAction;
use crate::relations::{
    RelationsModel, RelationsPart, checked_relationships, new_relationships_node,
    relationship_nodes,
};
use crate::xml_document::XmlDocument;
use crate::xml_node::{Node, XmlNode, ordered_nodes};
use crate::xml_prune::pruned_root;

verus! {

/// Whether the store has the file `path`.
pub open spec fn has_file(store: OfficeDocument, path: Seq<char>) -> bool {
    record_index(store@, path) < store@.len()
}

/// The root's subtree of the document with which a part of the file
/// `path` starts: that of the file's document, or `fallback` where the
/// file is not among `files`; nothing where the file's document cannot be
/// read.
pub open spec fn opened_root(files: Seq<FileModel>, path: Seq<char>, fallback: Option<Node>)
    -> Option<Node> {
    if holds_file(files, path) {
        if can_read(files, path) {
            root_of(files, path)
        } else {
            None
        }
    } else {
        fallback
    }
}

/// The files after a part's document has come out of the file `path` and
/// has gone back into it with the root's subtree `root`; a failure of the
/// codec where the text of that document cannot be compressed.
pub open spec fn kept_or(
    files: Seq<FileModel>,
    path: Seq<char>,
    root: Option<Node>,
    content_type: Seq<char>,
) -> Result<Seq<FileModel>, OfficeError> {
    if keepable(root) {
        Ok(kept(files, path, root, content_type))
    } else {
        Err(OfficeError::Codec)
    }
}

/// The files after a part's document has come out of the file `path` and
/// has gone back into it with the root's subtree `root`.
pub open spec fn kept(
    files: Seq<FileModel>,
    path: Seq<char>,
    root: Option<Node>,
    content_type: Seq<char>,
) -> Seq<FileModel> {
    after_write(after_read(files, path), path, root, content_type)
}

/// `nodes` in the order that `order` asks for, where there is one.
pub open spec fn arranged(nodes: Seq<Node>, order: Option<Seq<Seq<char>>>) -> Seq<Node> {
    match order {
        Some(tags) => ordered_nodes(nodes, tags),
        None => nodes,
    }
}

/// The files after a part has been written into its file `path`: the
/// part's document is that of the file, or one whose root's subtree is
/// `fallback` where the package has no such file; the elements `added`
/// are hung behind the children of its root, which are then put in the
/// order `order`. A file whose bytes are not the text of a document is a
/// failure of the codec.
pub open spec fn part_saved(
    files: Seq<FileModel>,
    path: Seq<char>,
    fallback: Node,
    content_type: Seq<char>,
    added: Seq<Node>,
    order: Option<Seq<Seq<char>>>,
) -> Result<Seq<FileModel>, OfficeError> {
    match opened_root(files, path, Some(fallback)) {
        Some(root) => kept_or(
            files,
            path,
            Some(Node { children: arranged(root.children + added, order), ..root }),
            content_type,
        ),
        None => Err(OfficeError::Codec),
    }
}

/// What opening the relationships file `path` gives: the relationships
/// that the file holds, none where the package has no such file, and the
/// files of the package, among them the relationships file without its
/// relationships. A file whose relationships cannot be read is a failure
/// of the schema.
pub open spec fn opened_relations(files: Seq<FileModel>, path: Seq<char>) -> Result<
    (RelationsModel, Seq<FileModel>),
    OfficeError,
> {
    match opened_root(files, path, Some(new_relationships_node())) {
        Some(root) => match checked_relationships(root.children) {
            Some(list) => match kept_or(
                files,
                path,
                pruned_root(Some(root), "Relationship"@),
                relationships_content_spec().content_type@,
            ) {
                Ok(after) => Ok((RelationsModel { relationships: list, file_path: path }, after)),
                Err(e) => Err(e),
            },
            None => Err(OfficeError::Schema),
        },
        None => Err(OfficeError::Codec),
    }
}

/// What closing a relationships part gives: what was done with its file,
/// and the files of the package. The relationships are written behind
/// what the root of the file holds; a file that holds nothing then leaves
/// the package.
pub open spec fn closed_relations(files: Seq<FileModel>, relations: RelationsModel) -> Result<
    (CloseAction, Seq<FileModel>),
    OfficeError,
> {
    let path = relations.file_path;
    match opened_root(files, path, Some(new_relationships_node())) {
        Some(root) => if root.children.len() > 0 || relations.relationships.len() > 0 {
            match kept_or(
                files,
                path,
                Some(
                    Node {
                        children: root.children + relationship_nodes(relations.relationships),
                        ..root
                    },
                ),
                relationships_content_spec().content_type@,
            ) {
                Ok(after) => Ok((CloseAction::WriteBack, after)),
                Err(e) => Err(e),
            }
        } else {
            Ok((CloseAction::Delete, after_delete(after_read(files, path), path)))
        },
        None => Err(OfficeError::Codec),
    }
}

/// The document of the file `path`, or `fallback` where the store does not
/// have the file. A file whose bytes are not the text of a document is
/// reported as a failure of the codec.
pub fn document_or(store: &mut OfficeDocument, path: &str, fallback: XmlDocument) -> (res: Result<
    XmlDocument,
    OfficeError,
>)
    requires
        old(store).wf(),
        fallback.wf(),
    ensures
        final(store).wf(),
        final(store)@.len() == old(store)@.len(),
        forall|name: Seq<char>| has_file(*final(store), name) == has_file(*old(store), name),
        match res {
            Ok(document) => document.wf() && (!has_file(*old(store), path@) ==> document
                == fallback) && (has_file(*old(store), path@) ==> document@.root_tree() is Some)
                && document@.root_tree() == opened_root(
                old(store).files(),
                path@,
                fallback@.root_tree(),
            ) && final(store).files() == after_read(old(store).files(), path@),
            Err(e) => e == OfficeError::Codec && has_file(*old(store), path@) && final(store).files() == old(store).files(),
        },
        res is Ok <==> (has_file(*old(store), path@) ==> can_read(old(store).files(), path@)),
{
    proof {
        lemma_names_of_files(store@);
    }
    let found = store.get_xml_tree(path);
    match found {
        Ok(Some(document)) => Ok(document),
        Ok(None) => Ok(fallback),
        Err(e) => Err(e),
    }
}

/// A root named `tag` in the namespace `namespace`, without children.
pub open spec fn root_only_node(tag: Seq<char>, namespace: Seq<char>) -> Node {
    Node { attributes: seq![("xmlns"@, namespace)], ..Node::leaf(tag) }
}

/// A document that is only a root named `tag` in the namespace
/// `namespace`.
pub fn root_only(tag: &str, namespace: &str) -> (document: XmlDocument)
    ensures
        document.wf(),
        document@.parent_or_root(None) == Some(1usize),
        document@.tree(1) == root_only_node(tag@, namespace@),
{
    let mut root = XmlNode::new(tag);
    root.push_attribute("xmlns", namespace.to_owned());
    assert(root@.attributes =~= root_only_node(tag@, namespace@).attributes);
    XmlDocument::from_tree(&root)
}

impl RelationsPart {
    /// The part of the relationships file `file_name` of the store, or of
    /// a new relationships file where the store has none of that name.
    /// The file is kept in the store without the relationships, which are
    /// in memory from then on. A file whose relationships cannot be read
    /// is refused, and a file that cannot be read or kept is a failure of
    /// the codec: the result is what `opened_relations` says.
    pub fn open(office_document: &mut OfficeDocument, file_name: &str) -> (res: Result<
        Self,
        OfficeError,
    >)
        requires
            old(office_document).wf(),
        ensures
            final(office_document).wf(),
            forall|name: Seq<char>|
                has_file(*old(office_document), name) ==> has_file(*final(office_document), name),
            match res {
                Ok(part) => part.wf() && has_file(*final(office_document), file_name@)
                    && opened_relations(old(office_document).files(), file_name@) == Ok::<
                    (RelationsModel, Seq<FileModel>),
                    OfficeError,
                >((part@, final(office_document).files())),
                Err(e) => opened_relations(old(office_document).files(), file_name@) == Err::<
                    (RelationsModel, Seq<FileModel>),
                    OfficeError,
                >(e),
            },
    {
        proof {
            lemma_names_of_files(office_document@);
        }
        let fresh = Self::initialize_content_xml();
        let mut xml_document = match document_or(office_document, file_name, fresh.0) {
            Ok(document) => document,
            Err(e) => {
                return Err(e);
            },
        };
        proof {
            xml_document@.lemma_root_pruned("Relationship"@);
        }
        let part = match Self::new(&mut xml_document, file_name) {
            Ok(part) => part,
            Err(e) => {
                return Err(e);
            },
        };
        match office_document.close_xml_document(
            file_name,
            &xml_document,
            relationships_content().content_type,
        ) {
            Ok(_) => Ok(part),
            Err(e) => Err(e),
        }
    }

    /// Close the Current Relation Document
    ///
    /// Writes the relationships into their file in the store, behind what
    /// the root of that file holds. A relationships file that holds
    /// nothing afterwards is of no use: it is taken out of the store, and
    /// that is said. A part with relationships is never taken out.
    pub fn close_document(&self, office_document: &mut OfficeDocument) -> (res: Result<
        CloseAction,
        OfficeError,
    >)
        requires
            old(office_document).wf(),
        ensures
            final(office_document).wf(),
            forall|name: Seq<char>|
                name != self@.file_path && has_file(*old(office_document), name) ==> has_file(
                    *final(office_document),
                    name,
                ),
            match res {
                Ok(action) => closed_relations(old(office_document).files(), self@) == Ok::<
                    (CloseAction, Seq<FileModel>),
                    OfficeError,
                >((action, final(office_document).files())) && (action == CloseAction::Delete
                    ==> self@.relationships.len() == 0) && has_file(
                    *final(office_document),
                    self@.file_path,
                ) == (action == CloseAction::WriteBack),
                Err(e) => closed_relations(old(office_document).files(), self@) == Err::<
                    (CloseAction, Seq<FileModel>),
                    OfficeError,
                >(e),
            },
    {
        proof {
            lemma_names_of_files(office_document@);
        }
        let fresh = Self::initialize_content_xml();
        let mut xml_document = match document_or(office_document, self.get_file_path(), fresh.0) {
            Ok(document) => document,
            Err(e) => {
                return Err(e);
            },
        };
        let keep = match self.save_relationship_to_doc(&mut xml_document) {
            Ok(keep) => keep,
            Err(e) => {
                return Err(OfficeError::Codec);
            },
        };
        if keep {
            match office_document.close_xml_document(
                self.get_file_path(),
                &xml_document,
                relationships_content().content_type,
            ) {
                Ok(_) => Ok(CloseAction::WriteBack),
                Err(e) => Err(e),
            }
        } else {
            office_document.delete_document_mut(self.get_file_path());
            Ok(CloseAction::Delete)
        }
    }
}

} // verus!
