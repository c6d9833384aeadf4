//! What is written into the package store reads back: a file that holds
//! the text of a document gives that document again, and so the content
//! types and the relationships that closing writes are those that opening
//! reads.

use vstd::prelude::*;
use vstd::utf8::{encode_utf8_decode_utf8, encode_utf8_valid_utf8};
use crate::content_types::{default_node, override_node, types_node};
use crate::element_dictionary::relationships_content_spec;
use crate::error::OfficeError;
use crate::office_document::{
    FileModel, after_delete, after_read, after_write, bytes_of, can_read, holds_file, keepable,
    names_of, place_of, root_of, text_bytes,
};
use crate::package_round_trip::{
    lemma_saved_content_types_read_back, lemma_saved_relationships_read_back,
};
use crate::package_state::{
    PackageModel, TypesModel, held_parts, manifest_name, opened_types, path_of_part, with_manifest,
    with_parts, written_types,
};
use crate::part::CloseAction;
use crate::part_store::{closed_relations, kept, opened_relations, opened_root};
use crate::relations::{
    RelationsModel, RelationshipModel, new_relationships_node, relationship_nodes,
};
use crate::style_tables::{lemma_first_index, lemma_first_index_push};
use crate::workbook_store::children_of;
use crate::xml_deserialize::{node_text, prolog_text};
use crate::xml_node::Node;
use crate::xml_parsed::lemma_parsed_is_valid;
use crate::xml_prune::{
    lemma_pruned_all_both, lemma_pruned_all_gone, lemma_pruned_all_kept, lemma_pruned_none_named,
    lemma_pruned_twice, none_named, pruned, pruned_all, pruned_root,
};
use crate::xml_round_trip::{
    canonical, is_attribute_name, is_tag_name, lemma_parse_prolog_alone, lemma_parse_written,
    node_valid,
};
use crate::xml_sound::{
    all_sound, is_settled, lemma_both_sound, lemma_children_sound, lemma_pruned_of_some,
    lemma_pruned_sound, lemma_settled_is_canonical, lemma_with_children_sound,
};

verus! {

/// A file into which a document has been written holds that document:
/// reading it gives the root's subtree that was written, as it reads
/// back.
pub proof fn lemma_written_file_reads_back(
    files: Seq<FileModel>,
    name: Seq<char>,
    root: Node,
    content_type: Seq<char>,
)
    requires
        node_valid(root),
    ensures
        holds_file(after_write(files, name, Some(root), content_type), name),
        root_of(after_write(files, name, Some(root), content_type), name) == Some(canonical(root)),
        bytes_of(after_write(files, name, Some(root), content_type), name) == Some(
            text_bytes(Some(root)),
        ),
        can_read(after_write(files, name, Some(root), content_type), name),
{
    let after = after_write(files, name, Some(root), content_type);
    let place = place_of(files, name);
    let text = prolog_text() + node_text(root);
    encode_utf8_valid_utf8(text);
    encode_utf8_decode_utf8(text);
    lemma_parse_written(root);
    lemma_first_index(names_of(files), name);
    if place < files.len() {
        assert(names_of(after) =~= names_of(files));
    } else {
        assert(names_of(after) =~= names_of(files).push(name));
        lemma_first_index_push(names_of(files), name, name);
    }
}

/// A file other than the one into which a document has been written is
/// held as it was.
pub proof fn lemma_written_file_frame(
    files: Seq<FileModel>,
    name: Seq<char>,
    root: Option<Node>,
    content_type: Seq<char>,
    other: Seq<char>,
)
    requires
        other != name,
    ensures
        holds_file(after_write(files, name, root, content_type), other) == holds_file(files, other),
        root_of(after_write(files, name, root, content_type), other) == root_of(files, other),
{
    let after = after_write(files, name, root, content_type);
    let place = place_of(files, name);
    lemma_first_index(names_of(files), name);
    lemma_first_index(names_of(files), other);
    if place < files.len() {
        assert(names_of(after) =~= names_of(files));
    } else {
        assert(names_of(after) =~= names_of(files).push(name));
        lemma_first_index_push(names_of(files), name, other);
    }
}

/// The names of the elements and attributes of a manifest of content
/// types can name.
pub proof fn lemma_manifest_names()
    ensures
        is_tag_name("Types"@),
        is_tag_name("Default"@),
        is_tag_name("Override"@),
        is_attribute_name("xmlns"@),
        is_attribute_name("Extension"@),
        is_attribute_name("ContentType"@),
        is_attribute_name("PartName"@),
{
    reveal_strlit("Types");
    reveal_strlit("Default");
    reveal_strlit("Override");
    reveal_strlit("xmlns");
    reveal_strlit("Extension");
    reveal_strlit("ContentType");
    reveal_strlit("PartName");
}

/// The manifest of content types can be written as XML that reads back,
/// and reads back as it is.
pub proof fn lemma_manifest_valid(
    extensions: Seq<(Seq<char>, Seq<char>)>,
    overrides: Seq<(Seq<char>, Seq<char>)>,
)
    ensures
        node_valid(types_node(extensions, overrides)),
        is_settled(types_node(extensions, overrides)),
{
    lemma_manifest_names();
    let node = types_node(extensions, overrides);
    assert forall|i: int| 0 <= i < node.children.len() implies node_valid(
        #[trigger] node.children[i],
    ) && is_settled(node.children[i]) by {
        if i < extensions.len() {
            assert(node.children[i] == default_node(extensions[i]));
        } else {
            assert(node.children[i] == override_node(overrides[i - extensions.len()]));
        }
    }
}

/// Round trip of content types through the package: the manifest that
/// closing a package writes names, when the package is opened again, the
/// content types that were written.
pub proof fn lemma_manifest_reads_back(package: PackageModel)
    ensures
        opened_types(with_manifest(package).files) == Ok::<
            crate::package_state::TypesModel,
            crate::error::OfficeError,
        >(written_types(package.types, package.files)),
{
    let types = written_types(package.types, package.files);
    let node = types_node(types.extensions, types.overrides);
    let after = with_manifest(package).files;
    lemma_manifest_valid(types.extensions, types.overrides);
    lemma_settled_is_canonical(node);
    lemma_written_file_reads_back(
        package.files,
        manifest_name(),
        node,
        crate::element_dictionary::content_types_content_spec().content_type@,
    );
    lemma_saved_content_types_read_back(types.extensions, types.overrides);
    let defaults = Seq::new(types.extensions.len(), |i: int| default_node(types.extensions[i]));
    let parts = Seq::new(types.overrides.len(), |i: int| override_node(types.overrides[i]));
    assert(node.children == defaults + parts);
    reveal_strlit("Types");
    reveal_strlit("Default");
    reveal_strlit("Override");
    assert("Types"@.len() == 5 && "Default"@.len() == 7 && "Override"@.len() == 8);
    lemma_pruned_all_both(defaults, parts, "Default"@);
    lemma_pruned_all_gone(defaults, "Default"@);
    lemma_pruned_all_kept(parts, "Default"@);
    assert(pruned_all(defaults, "Default"@) + pruned_all(parts, "Default"@) =~= parts);
    assert(children_of(pruned_root(Some(node), "Default"@)) == parts);
    let none = Seq::<Node>::empty();
    lemma_saved_content_types_read_back(Seq::empty(), types.overrides);
    assert(types_node(Seq::empty(), types.overrides).children =~= parts);
}

/// The root of the document with which a part starts is written so that
/// it reads back as it is, where the part's own new root is.
pub proof fn lemma_opened_root_sound(files: Seq<FileModel>, path: Seq<char>, fallback: Node)
    requires
        node_valid(fallback),
        is_settled(fallback),
        opened_root(files, path, Some(fallback)) is Some,
    ensures
        node_valid(opened_root(files, path, Some(fallback))->0),
        is_settled(opened_root(files, path, Some(fallback))->0),
{
    if holds_file(files, path) {
        lemma_parsed_is_valid(files[place_of(files, path) as int].bytes->0);
    }
}

/// The names of the elements and attributes of a relationships file can
/// name.
pub proof fn lemma_relationship_names()
    ensures
        is_tag_name("Relationships"@),
        is_tag_name("Relationship"@),
        is_attribute_name("xmlns"@),
        is_attribute_name("Id"@),
        is_attribute_name("Target"@),
        is_attribute_name("Type"@),
        is_attribute_name("TargetMode"@),
{
    reveal_strlit("Relationships");
    reveal_strlit("Relationship");
    reveal_strlit("xmlns");
    reveal_strlit("Id");
    reveal_strlit("Target");
    reveal_strlit("Type");
    reveal_strlit("TargetMode");
}

/// The elements of relationships are written so that they read back as
/// they are.
pub proof fn lemma_relationship_nodes_sound(list: Seq<RelationshipModel>)
    ensures
        all_sound(relationship_nodes(list)),
        node_valid(new_relationships_node()),
        is_settled(new_relationships_node()),
{
    lemma_relationship_names();
}

/// Whether a part can write into the root's subtree `root` what it has in
/// memory under the names `tags`: the root holds no text, which would be
/// written in the place of its children, and no child of those names.
pub open spec fn takes_parts(root: Option<Node>, tags: Seq<Seq<char>>) -> bool {
    match root {
        Some(node) => node.value is None && forall|k: int|
            0 <= k < tags.len() ==> none_named(node.children, #[trigger] tags[k]),
        None => true,
    }
}

/// Round trip of relationships through the package: a relationships
/// file that has been written when its part was closed gives, when it is
/// opened again, the relationships that the part had, or fails only
/// because what is kept of the file then cannot be compressed. This holds
/// where the root of the file held no text and no relationship of its
/// own before, as it does once the part has been opened.
pub proof fn lemma_relationships_read_back(files: Seq<FileModel>, relations: RelationsModel)
    requires
        relations.wf(),
        takes_parts(
            opened_root(files, relations.file_path, Some(new_relationships_node())),
            seq!["Relationship"@],
        ),
    ensures
        match closed_relations(files, relations) {
            Ok((action, after)) => action == CloseAction::WriteBack ==> (match opened_relations(
                after,
                relations.file_path,
            ) {
                Ok(opened) => opened.0 == relations,
                Err(e) => e == OfficeError::Codec,
            }),
            Err(_) => true,
        },
{
    let path = relations.file_path;
    let list = relations.relationships;
    match closed_relations(files, relations) {
        Ok((action, after)) => {
            if action == CloseAction::WriteBack {
                let root = opened_root(files, path, Some(new_relationships_node()))->0;
                let children = root.children + relationship_nodes(list);
                let written = Node { children, ..root };
                lemma_relationship_nodes_sound(list);
                lemma_opened_root_sound(files, path, new_relationships_node());
                lemma_children_sound(root);
                lemma_both_sound(root.children, relationship_nodes(list));
                lemma_with_children_sound(root, children);
                lemma_written_file_reads_back(
                    after_read(files, path),
                    path,
                    written,
                    relationships_content_spec().content_type@,
                );
                assert(none_named(root.children, seq!["Relationship"@][0]));
                lemma_saved_relationships_read_back(root.children, list);
            }
        },
        Err(_) => {},
    }
}

/// A file into which a document without a root has been written holds no
/// document.
pub proof fn lemma_rootless_file(files: Seq<FileModel>, name: Seq<char>, content_type: Seq<char>)
    ensures
        holds_file(after_write(files, name, None, content_type), name),
        root_of(after_write(files, name, None, content_type), name) is None,
        !can_read(after_write(files, name, None, content_type), name),
{
    let after = after_write(files, name, None, content_type);
    let place = place_of(files, name);
    encode_utf8_valid_utf8(prolog_text());
    encode_utf8_decode_utf8(prolog_text());
    lemma_parse_prolog_alone();
    lemma_first_index(names_of(files), name);
    if place < files.len() {
        assert(names_of(after) =~= names_of(files));
    } else {
        assert(names_of(after) =~= names_of(files).push(name));
        lemma_first_index_push(names_of(files), name, name);
    }
}

/// Round trip of relationships: the relationships that are read when a
/// relationships file is opened are read again when the file has been
/// closed and is opened again, and closing it again writes the same bytes
/// into it.
pub proof fn lemma_relationships_round_trip(files: Seq<FileModel>, path: Seq<char>)
    ensures
        match opened_relations(files, path) {
            Ok((relations, opened)) => match closed_relations(opened, relations) {
                Ok((action, saved)) => action == CloseAction::WriteBack ==> (opened_relations(
                    saved,
                    path,
                ) matches Ok(again) && again.0 == relations && (closed_relations(
                    again.1,
                    relations,
                ) matches Ok(second) && second.0 == CloseAction::WriteBack && bytes_of(
                    second.1,
                    path,
                ) == bytes_of(saved, path))),
                Err(_) => true,
            },
            Err(_) => true,
        },
{
    let tag = "Relationship"@;
    let kind = relationships_content_spec().content_type@;
    let fallback = new_relationships_node();
    match opened_relations(files, path) {
        Ok((relations, opened)) => {
            let list = relations.relationships;
            let root = opened_root(files, path, Some(fallback))->0;
            lemma_relationship_nodes_sound(list);
            lemma_opened_root_sound(files, path, fallback);
            if root.tag == tag {
                lemma_rootless_file(after_read(files, path), path, kind);
            } else {
                let left = pruned(root, tag);
                lemma_pruned_sound(root, tag);
                lemma_settled_is_canonical(left);
                lemma_written_file_reads_back(after_read(files, path), path, left, kind);
                lemma_pruned_none_named(root.children, tag);
                assert(pruned_root(Some(root), tag) == Some(left));
                assert(keepable(Some(left)));
                assert(opened == kept(files, path, Some(left), kind));
                assert(opened_root(opened, path, Some(fallback)) == Some(left));
                match closed_relations(opened, relations) {
                    Ok((action, saved)) => {
                        if action == CloseAction::WriteBack {
                            assert(root.children.len() > 0) by {
                                if left.children.len() > 0 {
                                    lemma_pruned_of_some(root.children, tag);
                                }
                            }
                            assert(left.value is None);
                            let children = left.children + relationship_nodes(list);
                            let written = Node { children, ..left };
                            lemma_children_sound(left);
                            lemma_both_sound(left.children, relationship_nodes(list));
                            lemma_with_children_sound(left, children);
                            lemma_written_file_reads_back(
                                after_read(opened, path),
                                path,
                                written,
                                kind,
                            );
                            lemma_saved_relationships_read_back(left.children, list);
                            assert(keepable(Some(written)));
                            assert(saved == kept(opened, path, Some(written), kind));
                            assert(opened_root(saved, path, Some(fallback)) == Some(written));
                            lemma_pruned_all_both(left.children, relationship_nodes(list), tag);
                            lemma_pruned_all_gone(relationship_nodes(list), tag);
                            lemma_pruned_twice(root, tag);
                            assert(pruned_all(children, tag) =~= left.children);
                            assert(pruned(written, tag) == left);
                            assert(pruned_root(Some(written), tag) == Some(left));
                            let reopened = kept(saved, path, Some(left), kind);
                            assert(opened_relations(saved, path) == Ok::<
                                (RelationsModel, Seq<FileModel>),
                                OfficeError,
                            >((relations, reopened)));
                            lemma_written_file_reads_back(
                                after_read(saved, path),
                                path,
                                left,
                                kind,
                            );
                            assert(opened_root(reopened, path, Some(fallback)) == Some(left));
                            lemma_written_file_reads_back(
                                after_read(reopened, path),
                                path,
                                written,
                                kind,
                            );
                        }
                    },
                    Err(_) => {},
                }
            }
        },
        Err(_) => {},
    }
}

/// Every part that is kept of the parts `overrides` has its file among
/// `files`.
pub proof fn lemma_held_parts(overrides: Seq<(Seq<char>, Seq<char>)>, files: Seq<FileModel>)
    ensures
        forall|i: int|
            0 <= i < held_parts(overrides, files).len() ==> holds_file(
                files,
                path_of_part((#[trigger] held_parts(overrides, files)[i]).0),
            ),
    decreases overrides.len(),
{
    if overrides.len() > 0 {
        lemma_held_parts(overrides.drop_last(), files);
        let front = held_parts(overrides.drop_last(), files);
        let held = held_parts(overrides, files);
        assert forall|i: int| 0 <= i < held.len() implies holds_file(
            files,
            path_of_part((#[trigger] held[i]).0),
        ) by {
            if i < front.len() {
                assert(held[i] == front[i]);
            }
        }
    }
}

/// A file that has been taken out of the package is not among its files.
pub proof fn lemma_deleted_file_gone(files: Seq<FileModel>, name: Seq<char>)
    requires
        names_of(files).no_duplicates(),
    ensures
        !holds_file(after_delete(files, name), name),
        names_of(after_delete(files, name)).no_duplicates(),
{
    let names = names_of(files);
    let place = place_of(files, name) as int;
    let after = after_delete(files, name);
    lemma_first_index(names, name);
    lemma_first_index(names_of(after), name);
    if place < files.len() {
        assert(names_of(after) =~= names.remove(place));
        if names_of(after).contains(name) {
            let k = choose|k: int| 0 <= k < names_of(after).len() && names_of(after)[k] == name;
            let a = if k < place {
                k
            } else {
                k + 1
            };
            assert(names[a] == names[place]);
        }
        assert forall|i: int, j: int|
            0 <= i < names_of(after).len() && 0 <= j < names_of(after).len() && i
                != j implies names_of(after)[i] != names_of(after)[j] by {
            let a = if i < place {
                i
            } else {
                i + 1
            };
            let b = if j < place {
                j
            } else {
                j + 1
            };
            assert(names[a] != names[b]);
        }
    }
}

/// Reading a file keeps the names of the files.
pub proof fn lemma_read_keeps_names(files: Seq<FileModel>, name: Seq<char>)
    ensures
        names_of(after_read(files, name)) == names_of(files),
{
    assert(names_of(after_read(files, name)) =~= names_of(files));
}

/// Empty parts leave the package: a relationships part without
/// relationships, whose file holds nothing else, is taken out of the
/// package when it is closed, and the content types that are written
/// then do not name it.
pub proof fn lemma_empty_relations_leave(
    files: Seq<FileModel>,
    relations: RelationsModel,
    types: TypesModel,
)
    requires
        names_of(files).no_duplicates(),
        relations.relationships.len() == 0,
        children_of(opened_root(files, relations.file_path, Some(new_relationships_node()))).len()
            == 0,
    ensures
        match closed_relations(files, relations) {
            Ok((action, after)) => action == CloseAction::Delete && !holds_file(
                after,
                relations.file_path,
            ) && forall|i: int|
                0 <= i < written_types(types, after).overrides.len() ==> path_of_part(
                    (#[trigger] written_types(types, after).overrides[i]).0,
                ) != relations.file_path,
            Err(_) => true,
        },
{
    let path = relations.file_path;
    match closed_relations(files, relations) {
        Ok((action, after)) => {
            lemma_read_keeps_names(files, path);
            lemma_deleted_file_gone(after_read(files, path), path);
            lemma_held_parts(with_parts(types.overrides, after), after);
        },
        Err(_) => {},
    }
}

} // verus!
