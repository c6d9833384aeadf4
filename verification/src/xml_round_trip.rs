//! Writing and reading agree: the text that is written of a tree reads
//! back as the tree, so that what is read writes to the same text again.

use vstd::prelude::*;
use vstd::utf8::{encode_utf8, encode_utf8_decode_utf8, encode_utf8_valid_utf8};
use crate::office_document::parsed;
use crate::text::{first_occurrence_from, occurs_at};
use crate::xml_deserialize::{
    attribute_text, attributes_text, document_text, escaped, escaped_char, node_text, nodes_text,
    open_tag_text, prolog_text, value_close_text,
};
use crate::xml_document::DocumentModel;
use crate::xml_grammar::{
    Content, entity_char, find_char, is_name_char, name_end, parse_attributes, parse_content,
    parse_document, parse_element, skip_misc, skip_spaces, starts_at, unescaped, unescaped_from,
};
use crate::xml_node::Node;

verus! {

/// Whether `s` is a name: at least one character, each of which can stand
/// in a name.
pub open spec fn is_name(s: Seq<char>) -> bool {
    s.len() > 0 && forall|i: int| 0 <= i < s.len() ==> is_name_char(#[trigger] s[i])
}

/// Whether `s` can name an element: a name that does not begin like a
/// comment or a processing instruction.
pub open spec fn is_tag_name(s: Seq<char>) -> bool {
    is_name(s) && s[0] != '!' && s[0] != '?'
}

/// Whether `s` can name an attribute: a name that does not begin like the
/// end of a processing instruction.
pub open spec fn is_attribute_name(s: Seq<char>) -> bool {
    is_name(s) && s[0] != '?'
}

/// Whether every attribute has a name that can name an attribute.
pub open spec fn attributes_valid(attributes: Seq<(Seq<char>, Seq<char>)>) -> bool {
    forall|i: int| 0 <= i < attributes.len() ==> is_attribute_name((#[trigger] attributes[i]).0)
}

/// Whether a tree can be written as XML that reads back: every element
/// and every attribute in it has a name that can name it.
pub open spec fn node_valid(node: Node) -> bool
    decreases node,
{
    &&& is_tag_name(node.tag)
    &&& attributes_valid(node.attributes)
    &&& forall|i: int| 0 <= i < node.children.len() ==> node_valid(#[trigger] node.children[i])
}

/// The tree as it reads back: an element with a value has no children,
/// since none are written of it.
pub open spec fn canonical(node: Node) -> Node
    decreases node,
{
    if node.value is Some {
        Node { children: Seq::empty(), ..node }
    } else {
        Node {
            children: Seq::new(
                node.children.len(),
                |i: int|
                    if 0 <= i < node.children.len() {
                        canonical(node.children[i])
                    } else {
                        node
                    },
            ),
            ..node
        }
    }
}

/// A name that stands in `s` at `pos` ends where it ends, where what
/// follows it cannot stand in a name.
pub proof fn lemma_name_end(s: Seq<char>, pos: nat, name: Seq<char>)
    requires
        starts_at(s, pos, name),
        forall|i: int| 0 <= i < name.len() ==> is_name_char(#[trigger] name[i]),
        pos + name.len() == s.len() || !is_name_char(s[pos as int + name.len()]),
    ensures
        name_end(s, pos) == pos + name.len(),
    decreases name.len(),
{
    if name.len() > 0 {
        let rest = name.drop_first();
        let whole = s.subrange(pos as int, pos as int + name.len());
        assert(whole[0] == name[0]);
        assert(s[pos as int] == name[0]);
        assert(s.subrange(pos as int + 1, pos as int + 1 + rest.len()) =~= rest) by {
            assert forall|i: int| 0 <= i < rest.len() implies s[pos as int + 1 + i] == rest[i] by {
                assert(whole[i + 1] == name[i + 1]);
            }
        }
        assert forall|i: int| 0 <= i < rest.len() implies is_name_char(#[trigger] rest[i]) by {
            assert(rest[i] == name[i + 1]);
        }
        lemma_name_end(s, pos + 1, rest);
    }
}

/// A character is first found behind a piece that does not hold it.
pub proof fn lemma_find_char(s: Seq<char>, pos: nat, piece: Seq<char>, c: char)
    requires
        starts_at(s, pos, piece),
        forall|i: int| 0 <= i < piece.len() ==> #[trigger] piece[i] != c,
        pos + piece.len() < s.len(),
        s[pos as int + piece.len()] == c,
    ensures
        find_char(s, pos, c) == pos + piece.len(),
    decreases piece.len(),
{
    if piece.len() > 0 {
        let rest = piece.drop_first();
        let whole = s.subrange(pos as int, pos as int + piece.len());
        assert(whole[0] == piece[0]);
        assert(s[pos as int] == piece[0]);
        assert(s.subrange(pos as int + 1, pos as int + 1 + rest.len()) =~= rest) by {
            assert forall|i: int| 0 <= i < rest.len() implies s[pos as int + 1 + i] == rest[i] by {
                assert(whole[i + 1] == piece[i + 1]);
            }
        }
        assert forall|i: int| 0 <= i < rest.len() implies #[trigger] rest[i] != c by {
            assert(rest[i] == piece[i + 1]);
        }
        lemma_find_char(s, pos + 1, rest, c);
    }
}

/// What stands for a character holds neither `<` nor `"`, and holds `&`
/// only at its beginning.
pub proof fn lemma_escaped_char(c: char)
    ensures
        forall|i: int|
            0 <= i < escaped_char(c).len() ==> #[trigger] escaped_char(c)[i] != '<'
                && escaped_char(c)[i] != '"',
        escaped_char(c).len() >= 1,
{
    reveal_strlit("&amp;");
    reveal_strlit("&lt;");
    reveal_strlit("&gt;");
    reveal_strlit("&quot;");
    let e = escaped_char(c);
    assert forall|i: int| 0 <= i < e.len() implies #[trigger] e[i] != '<' && e[i] != '"' by {
        if c == '&' {
            assert("&amp;"@.len() == 5);
            assert(e[0] == '&' && e[1] == 'a' && e[2] == 'm' && e[3] == 'p' && e[4] == ';');
        } else if c == '<' {
            assert("&lt;"@.len() == 4);
            assert(e[0] == '&' && e[1] == 'l' && e[2] == 't' && e[3] == ';');
        } else if c == '>' {
            assert("&gt;"@.len() == 4);
            assert(e[0] == '&' && e[1] == 'g' && e[2] == 't' && e[3] == ';');
        } else if c == '"' {
            assert("&quot;"@.len() == 6);
            assert(e[0] == '&' && e[1] == 'q' && e[2] == 'u' && e[3] == 'o' && e[4] == 't' && e[5]
                == ';');
        } else {
        }
    }
    assert("&amp;"@.len() == 5 && "&lt;"@.len() == 4 && "&gt;"@.len() == 4 && "&quot;"@.len() == 6);
}

/// Escaped text holds neither `<` nor `"`.
pub proof fn lemma_escaped_is_plain(v: Seq<char>)
    ensures
        forall|i: int|
            0 <= i < escaped(v).len() ==> #[trigger] escaped(v)[i] != '<' && escaped(v)[i] != '"',
    decreases v.len(),
{
    if v.len() > 0 {
        lemma_escaped_is_plain(v.drop_last());
        lemma_escaped_char(v.last());
        let front = escaped(v.drop_last());
        let back = escaped_char(v.last());
        assert forall|i: int| 0 <= i < escaped(v).len() implies #[trigger] escaped(v)[i] != '<'
            && escaped(v)[i] != '"' by {
            if i < front.len() {
                assert(escaped(v)[i] == front[i]);
            } else {
                assert(escaped(v)[i] == back[i - front.len()]);
            }
        }
    }
}

/// The escaped text of a front part of a text is a front part of the
/// text's escaped text.
pub proof fn lemma_escaped_prefix(v: Seq<char>, i: int)
    requires
        0 <= i <= v.len(),
    ensures
        escaped(v.take(i)).len() <= escaped(v).len(),
        escaped(v).subrange(0, escaped(v.take(i)).len() as int) == escaped(v.take(i)),
    decreases v.len(),
{
    if i == v.len() {
        assert(v.take(i) == v);
        assert(escaped(v).subrange(0, escaped(v).len() as int) =~= escaped(v));
    } else {
        let front = v.drop_last();
        lemma_escaped_prefix(front, i);
        assert(front.take(i) == v.take(i));
        let k = escaped(v.take(i)).len() as int;
        assert(escaped(v).subrange(0, k) =~= escaped(front).subrange(0, k));
    }
}

/// Escaped text reads back from behind the escaped text of any of its
/// front parts as the rest of the text.
pub proof fn lemma_unescaped_from(v: Seq<char>, i: int)
    requires
        0 <= i <= v.len(),
    ensures
        unescaped_from(escaped(v), escaped(v.take(i)).len()) == Some(v.skip(i)),
    decreases v.len() - i,
{
    let text = escaped(v);
    let k = escaped(v.take(i)).len();
    lemma_escaped_prefix(v, i);
    if i == v.len() {
        assert(v.take(i) == v);
        assert(v.skip(i) =~= Seq::<char>::empty());
    } else {
        let c = v[i];
        let piece = escaped_char(c);
        let next = v.take(i + 1);
        assert(next.drop_last() == v.take(i));
        assert(next.last() == c);
        assert(escaped(next) == escaped(v.take(i)) + piece);
        lemma_escaped_prefix(v, i + 1);
        lemma_escaped_char(c);
        lemma_unescaped_from(v, i + 1);
        let after = escaped(next).len();
        assert(after == k + piece.len());
        assert(text.subrange(k as int, after as int) =~= piece) by {
            assert forall|j: int| 0 <= j < piece.len() implies text[k as int + j] == piece[j] by {
                assert(text.subrange(0, after as int)[k as int + j] == escaped(next)[k as int + j]);
            }
        }
        assert(v.skip(i) =~= seq![c] + v.skip(i + 1));
        reveal_strlit("&amp;");
        reveal_strlit("&lt;");
        reveal_strlit("&gt;");
        reveal_strlit("&quot;");
        reveal_strlit("amp");
        reveal_strlit("lt");
        reveal_strlit("gt");
        reveal_strlit("quot");
        reveal_strlit("apos");
        assert("amp"@.len() == 3 && "lt"@.len() == 2 && "gt"@.len() == 2 && "quot"@.len() == 4
            && "apos"@.len() == 4);
        assert("lt"@[0] == 'l' && "gt"@[0] == 'g' && "quot"@[0] == 'q' && "apos"@[0] == 'a');
        assert(text[k as int] == piece[0]);
        if c == '&' || c == '<' || c == '>' || c == '"' {
            let name = piece.subrange(1, piece.len() - 1);
            assert("&amp;"@.len() == 5 && "&lt;"@.len() == 4 && "&gt;"@.len() == 4 && "&quot;"@.len()
                == 6);
            if c == '&' {
                assert(piece[0] == '&' && piece[1] == 'a' && piece[2] == 'm' && piece[3] == 'p'
                    && piece[4] == ';');
                assert(name =~= "amp"@) by {
                    assert("amp"@[0] == 'a' && "amp"@[1] == 'm' && "amp"@[2] == 'p');
                }
            } else if c == '<' {
                assert(piece[0] == '&' && piece[1] == 'l' && piece[2] == 't' && piece[3] == ';');
                assert(name =~= "lt"@) by {
                    assert("lt"@[0] == 'l' && "lt"@[1] == 't');
                }
            } else if c == '>' {
                assert(piece[0] == '&' && piece[1] == 'g' && piece[2] == 't' && piece[3] == ';');
                assert(name =~= "gt"@) by {
                    assert("gt"@[0] == 'g' && "gt"@[1] == 't');
                }
            } else {
                assert(piece[0] == '&' && piece[1] == 'q' && piece[2] == 'u' && piece[3] == 'o'
                    && piece[4] == 't' && piece[5] == ';');
                assert(name =~= "quot"@) by {
                    assert("quot"@[0] == 'q' && "quot"@[1] == 'u' && "quot"@[2] == 'o' && "quot"@[3]
                        == 't');
                }
            }
            assert(text.subrange(k as int + 1, k as int + 1 + name.len()) =~= name) by {
                assert forall|j: int| 0 <= j < name.len() implies text[k as int + 1 + j] == name[j] by {
                    assert(text[k as int + (j + 1)] == piece[j + 1]);
                }
            }
            assert(text[k as int + piece.len() - 1] == piece[piece.len() - 1]);
            assert(forall|j: int| 0 <= j < name.len() ==> #[trigger] name[j] != ';');
            lemma_find_char(text, k + 1, name, ';');
            let end = find_char(text, k + 1, ';');
            assert(end == k + piece.len() - 1);
            assert(text.subrange(k as int + 1, end as int) =~= name);
            assert(entity_char(name) == Some(c));
        } else {
            assert(piece =~= seq![c]);
            assert(text[k as int] == c);
        }
    }
}

/// Escaped text reads back as the text.
pub proof fn lemma_unescaped_escaped(v: Seq<char>)
    ensures
        unescaped(escaped(v)) == Some(v),
{
    lemma_unescaped_from(v, 0);
    assert(v.take(0) =~= Seq::<char>::empty());
    assert(v.skip(0) =~= v);
}

/// Where two pieces stand in `s` one behind the other, each of them stands
/// in `s` at its place.
pub proof fn lemma_starts_at_both(s: Seq<char>, pos: nat, a: Seq<char>, b: Seq<char>)
    requires
        starts_at(s, pos, a + b),
    ensures
        starts_at(s, pos, a),
        starts_at(s, pos + a.len(), b),
{
    let whole = s.subrange(pos as int, pos as int + (a + b).len());
    assert(s.subrange(pos as int, pos as int + a.len()) =~= a) by {
        assert forall|i: int| 0 <= i < a.len() implies s[pos as int + i] == a[i] by {
            assert(whole[i] == (a + b)[i]);
        }
    }
    assert(s.subrange(pos as int + a.len(), pos as int + a.len() + b.len()) =~= b) by {
        assert forall|i: int| 0 <= i < b.len() implies s[pos as int + a.len() + i] == b[i] by {
            assert(whole[a.len() + i] == (a + b)[a.len() + i]);
        }
    }
}

/// A character of a piece that stands in `s` stands in `s` at its place.
pub proof fn lemma_starts_at_char(s: Seq<char>, pos: nat, a: Seq<char>, i: int)
    requires
        starts_at(s, pos, a),
        0 <= i < a.len(),
    ensures
        s[pos as int + i] == a[i],
        pos + i < s.len(),
{
    assert(s.subrange(pos as int, pos as int + a.len())[i] == a[i]);
}

/// The text of attributes is the text of the first of them and the text
/// of the others behind it.
pub proof fn lemma_attributes_text_front(attributes: Seq<(Seq<char>, Seq<char>)>)
    requires
        attributes.len() > 0,
    ensures
        attributes_text(attributes) == attribute_text(attributes[0].0, attributes[0].1)
            + attributes_text(attributes.drop_first()),
    decreases attributes.len(),
{
    let front = attributes.drop_last();
    let last = attributes.last();
    if attributes.len() == 1 {
        assert(attributes_text(front) =~= Seq::<char>::empty());
        assert(attributes_text(attributes.drop_first()) =~= Seq::<char>::empty());
        assert(attributes_text(attributes) =~= attribute_text(last.0, last.1));
        assert(attribute_text(last.0, last.1) + Seq::<char>::empty() =~= attribute_text(
            last.0,
            last.1,
        ));
    } else {
        lemma_attributes_text_front(front);
        let rest = attributes.drop_first();
        assert(rest.drop_last() =~= front.drop_first());
        assert(rest.last() == last);
        assert(front[0] == attributes[0]);
        assert(attributes_text(attributes) =~= attribute_text(attributes[0].0, attributes[0].1)
            + attributes_text(rest));
    }
}

/// The text of nodes is the text of the first of them and the text of the
/// others behind it.
pub proof fn lemma_nodes_text_front(nodes: Seq<Node>)
    requires
        nodes.len() > 0,
    ensures
        nodes_text(nodes) == node_text(nodes[0]) + nodes_text(nodes.drop_first()),
    decreases nodes.len(),
{
    let front = nodes.drop_last();
    let last = nodes.last();
    if nodes.len() == 1 {
        assert(nodes_text(front) =~= Seq::<char>::empty());
        assert(nodes_text(nodes.drop_first()) =~= Seq::<char>::empty());
        assert(nodes_text(nodes) =~= node_text(last));
        assert(node_text(last) + Seq::<char>::empty() =~= node_text(last));
    } else {
        lemma_nodes_text_front(front);
        let rest = nodes.drop_first();
        assert(rest.drop_last() =~= front.drop_first());
        assert(rest.last() == last);
        assert(front[0] == nodes[0]);
        assert(nodes_text(nodes) =~= node_text(nodes[0]) + nodes_text(rest));
    }
}

/// The text of attributes reads back as the attributes, where a `>` or a
/// `/` stands behind it.
pub proof fn lemma_parse_attributes(s: Seq<char>, pos: nat, attributes: Seq<(Seq<char>, Seq<char>)>)
    requires
        attributes_valid(attributes),
        starts_at(s, pos, attributes_text(attributes)),
        pos + attributes_text(attributes).len() < s.len(),
        s[pos as int + attributes_text(attributes).len()] == '>' || s[pos as int + attributes_text(
            attributes,
        ).len()] == '/',
    ensures
        parse_attributes(s, pos) == Some((attributes, pos + attributes_text(attributes).len())),
    decreases attributes.len(),
{
    if attributes.len() == 0 {
        assert(attributes_text(attributes) =~= Seq::<char>::empty());
        assert(skip_spaces(s, pos) == pos);
    } else {
        let name = attributes[0].0;
        let value = attributes[0].1;
        let rest = attributes.drop_first();
        let one = attribute_text(name, value);
        let body = escaped(value);
        lemma_attributes_text_front(attributes);
        lemma_starts_at_both(s, pos, one, attributes_text(rest));
        let x1 = seq![' '] + name;
        let x2 = x1 + seq!['=', '"'];
        let x3 = x2 + body;
        assert(one == x3 + seq!['"']);
        lemma_starts_at_both(s, pos, x3, seq!['"']);
        lemma_starts_at_both(s, pos, x2, body);
        lemma_starts_at_both(s, pos, x1, seq!['=', '"']);
        lemma_starts_at_both(s, pos, seq![' '], name);
        assert(is_attribute_name(name));
        let start = pos + 1;
        let end = start + name.len();
        let quote = end + 1;
        let close = quote + 1 + body.len();
        lemma_starts_at_char(s, pos, seq![' '], 0);
        lemma_starts_at_char(s, start, name, 0);
        lemma_starts_at_char(s, end, seq!['=', '"'], 0);
        lemma_starts_at_char(s, end, seq!['=', '"'], 1);
        lemma_starts_at_char(s, close, seq!['"'], 0);
        assert(x1.len() == 1 + name.len());
        assert(x2.len() == x1.len() + 2);
        assert(x3.len() == x2.len() + body.len());
        assert(s[pos as int] == ' ');
        assert(s[start as int] == name[0]);
        assert(is_name_char(name[0]));
        assert(skip_spaces(s, start) == start);
        assert(skip_spaces(s, pos) == start);
        assert(s[end as int] == '=');
        assert(s[quote as int] == '"');
        assert(s[close as int] == '"');
        lemma_name_end(s, start, name);
        assert(skip_spaces(s, end) == end);
        assert(skip_spaces(s, end + 1) == quote);
        lemma_escaped_is_plain(value);
        lemma_find_char(s, quote + 1, body, '"');
        lemma_unescaped_escaped(value);
        assert(s.subrange(quote as int + 1, close as int) == body);
        assert(s.subrange(start as int, end as int) == name);
        assert forall|i: int| 0 <= i < rest.len() implies is_attribute_name(
            (#[trigger] rest[i]).0,
        ) by {
            assert(rest[i] == attributes[i + 1]);
        }
        assert(one.len() == x3.len() + 1);
        assert(close + 1 == pos + one.len());
        lemma_parse_attributes(s, close + 1, rest);
        assert(seq![(name, value)] + rest =~= attributes);
    }
}

/// Each of `nodes` as it reads back.
pub open spec fn canonical_all(nodes: Seq<Node>) -> Seq<Node> {
    Seq::new(nodes.len(), |i: int| canonical(nodes[i]))
}

/// The text of an element begins with `<` and the element's name, and what
/// follows the name cannot stand in a name.
pub proof fn lemma_node_text_head(node: Node)
    requires
        is_tag_name(node.tag),
        attributes_valid(node.attributes),
    ensures
        node_text(node).len() >= node.tag.len() + 3,
        node_text(node)[0] == '<',
        node_text(node).subrange(1, 1 + node.tag.len() as int) == node.tag,
        !is_name_char(node_text(node)[1 + node.tag.len() as int]),
        node_text(node).subrange(
            1 + node.tag.len() as int,
            1 + node.tag.len() as int + attributes_text(node.attributes).len(),
        ) == attributes_text(node.attributes),
        node_text(node)[1 + node.tag.len() as int + attributes_text(node.attributes).len()] == (
        if node.value is None && node.children.len() == 0 {
            '/'
        } else {
            '>'
        }),
{
    let tag = node.tag;
    let listed = attributes_text(node.attributes);
    let close = node.value is None && node.children.len() == 0;
    let head = open_tag_text(tag, node.attributes, close);
    let text = node_text(node);
    assert(head == seq!['<'] + tag + listed + if close {
        seq!['/', '>']
    } else {
        seq!['>']
    });
    assert(text.subrange(0, head.len() as int) =~= head);
    assert(text[0] == head[0]);
    assert(head.subrange(1, 1 + tag.len() as int) =~= tag);
    assert(text.subrange(1, 1 + tag.len() as int) =~= tag) by {
        assert forall|i: int| 0 <= i < tag.len() implies text[1 + i] == tag[i] by {
            assert(text.subrange(0, head.len() as int)[1 + i] == head[1 + i]);
        }
    }
    assert(text.subrange(1 + tag.len() as int, 1 + tag.len() as int + listed.len()) =~= listed) by {
        assert forall|i: int| 0 <= i < listed.len() implies text[1 + tag.len() as int + i]
            == listed[i] by {
            assert(text.subrange(0, head.len() as int)[1 + tag.len() as int + i] == head[1 + tag.len() as int
                + i]);
        }
    }
    assert(text[1 + tag.len() as int + listed.len()] == head[1 + tag.len() as int + listed.len()]);
    assert(text[1 + tag.len() as int] == head[1 + tag.len() as int]);
    if node.attributes.len() > 0 {
        lemma_attributes_text_front(node.attributes);
        let first = attribute_text(node.attributes[0].0, node.attributes[0].1);
        assert(first[0] == ' ');
        assert(listed[0] == ' ');
        assert(head[1 + tag.len() as int] == listed[0]);
    } else {
        assert(listed =~= Seq::<char>::empty());
    }
}

/// The text of the children of an element from the child `k` on reads back
/// as those children, where the element's closing tag stands behind it.
pub proof fn lemma_parse_content(s: Seq<char>, pos: nat, node: Node, k: int)
    requires
        node_valid(node),
        0 <= k <= node.children.len(),
        starts_at(s, pos, nodes_text(node.children.skip(k))),
        starts_at(s, pos + nodes_text(node.children.skip(k)).len(), seq!['<', '/']),
    ensures
        parse_content(s, pos) == Some(
            Content {
                children: canonical_all(node.children.skip(k)),
                text: Seq::empty(),
                end: pos + nodes_text(node.children.skip(k)).len(),
            },
        ),
    decreases node, node.children.len() - k,
{
    reveal_strlit("</");
    reveal_strlit("<!--");
    reveal_strlit("<?");
    assert("</"@.len() == 2 && "<!--"@.len() == 4 && "<?"@.len() == 2);
    assert("</"@ =~= seq!['<', '/']) by {
        assert("</"@[0] == '<' && "</"@[1] == '/');
    }
    assert("<!--"@[1] == '!');
    assert("<?"@[1] == '?');
    let rest = node.children.skip(k);
    if k == node.children.len() {
        assert(rest =~= Seq::<Node>::empty());
        assert(nodes_text(rest) =~= Seq::<char>::empty());
        lemma_starts_at_char(s, pos, seq!['<', '/'], 0);
        assert(find_char(s, pos, '<') == pos);
        assert(s.subrange(pos as int, pos as int) =~= Seq::<char>::empty());
        assert(canonical_all(rest) =~= Seq::<Node>::empty());
    } else {
        let child = node.children[k];
        let after = rest.drop_first();
        assert(rest[0] == child);
        assert(after =~= node.children.skip(k + 1));
        assert(node_valid(child));
        lemma_nodes_text_front(rest);
        lemma_starts_at_both(s, pos, node_text(child), nodes_text(after));
        lemma_node_text_head(child);
        lemma_starts_at_char(s, pos, node_text(child), 0);
        lemma_starts_at_char(s, pos, node_text(child), 1);
        assert(node_text(child).subrange(1, 1 + child.tag.len() as int)[0] == child.tag[0]);
        assert(s[pos as int] == '<');
        assert(s[pos as int + 1] == child.tag[0]);
        assert(is_name_char(child.tag[0]));
        assert(find_char(s, pos, '<') == pos);
        assert(!starts_at(s, pos, "</"@)) by {
            if starts_at(s, pos, "</"@) {
                lemma_starts_at_char(s, pos, "</"@, 1);
            }
        }
        assert(!starts_at(s, pos, "<!--"@)) by {
            if starts_at(s, pos, "<!--"@) {
                lemma_starts_at_char(s, pos, "<!--"@, 1);
            }
        }
        assert(!starts_at(s, pos, "<?"@)) by {
            if starts_at(s, pos, "<?"@) {
                lemma_starts_at_char(s, pos, "<?"@, 1);
            }
        }
        lemma_parse_element(s, pos, child);
        let next = pos + node_text(child).len();
        lemma_parse_content(s, next, node, k + 1);
        assert(s.subrange(pos as int, pos as int) =~= Seq::<char>::empty());
        assert(Seq::<char>::empty() + Seq::<char>::empty() =~= Seq::<char>::empty());
        assert(seq![canonical(child)] + canonical_all(after) =~= canonical_all(rest));
    }
}

/// What is read of the opening tag of an element whose text stands in
/// `s`: its name, its attributes, and the place behind them.
pub proof fn lemma_parse_open(s: Seq<char>, pos: nat, node: Node)
    requires
        node_valid(node),
        starts_at(s, pos, node_text(node)),
    ensures
        pos < s.len(),
        s[pos as int] == '<',
        name_end(s, pos + 1) == pos + 1 + node.tag.len(),
        s.subrange(pos as int + 1, pos as int + 1 + node.tag.len()) == node.tag,
        parse_attributes(s, pos + 1 + node.tag.len()) == Some(
            (node.attributes, pos + 1 + node.tag.len() + attributes_text(node.attributes).len()),
        ),
        pos + 1 + node.tag.len() + attributes_text(node.attributes).len() < s.len(),
        s[pos as int + 1 + node.tag.len() + attributes_text(node.attributes).len()] == (
        if node.value is None && node.children.len() == 0 {
            '/'
        } else {
            '>'
        }),
{
    let tag = node.tag;
    let listed = attributes_text(node.attributes);
    let text = node_text(node);
    lemma_node_text_head(node);
    lemma_starts_at_char(s, pos, text, 0);
    lemma_starts_at_char(s, pos, text, 1 + tag.len() as int);
    lemma_starts_at_char(s, pos, text, 1 + tag.len() as int + listed.len());
    let name_from = pos + 1;
    let name_to = name_from + tag.len();
    let after = name_to + listed.len();
    assert(starts_at(s, name_from, tag)) by {
        assert(s.subrange(name_from as int, name_to as int) =~= tag) by {
            assert forall|i: int| 0 <= i < tag.len() implies s[name_from as int + i] == tag[i] by {
                lemma_starts_at_char(s, pos, text, 1 + i);
                assert(text.subrange(1, 1 + tag.len() as int)[i] == tag[i]);
            }
        }
    }
    assert(starts_at(s, name_to, listed)) by {
        assert(s.subrange(name_to as int, after as int) =~= listed) by {
            assert forall|i: int| 0 <= i < listed.len() implies s[name_to as int + i]
                == listed[i] by {
                lemma_starts_at_char(s, pos, text, 1 + tag.len() as int + i);
                assert(text.subrange(
                    1 + tag.len() as int,
                    1 + tag.len() as int + listed.len(),
                )[i] == listed[i]);
            }
        }
    }
    lemma_name_end(s, name_from, tag);
    lemma_parse_attributes(s, name_to, node.attributes);
}

/// What is read of the closing tag of an element: the tag's name and the
/// place behind the tag.
pub proof fn lemma_parse_close(s: Seq<char>, end: nat, tag: Seq<char>)
    requires
        is_name(tag),
        starts_at(s, end, seq!['<', '/'] + tag + seq!['>']),
    ensures
        end + 2 <= s.len(),
        s.subrange(end as int + 2, end as int + 2 + tag.len()) == tag,
        name_end(s, end + 2) == end + 2 + tag.len(),
        skip_spaces(s, end + 2 + tag.len()) == end + 2 + tag.len(),
        end + 2 + tag.len() < s.len(),
        s[end as int + 2 + tag.len()] == '>',
        starts_at(s, end, "</"@),
{
    lemma_starts_at_both(s, end, seq!['<', '/'] + tag, seq!['>']);
    lemma_starts_at_both(s, end, seq!['<', '/'], tag);
    let close_to = end + 2 + tag.len();
    lemma_starts_at_char(s, close_to, seq!['>'], 0);
    lemma_name_end(s, end + 2, tag);
    assert(skip_spaces(s, close_to) == close_to);
    reveal_strlit("</");
    assert("</"@.len() == 2);
    assert("</"@ =~= seq!['<', '/']) by {
        assert("</"@[0] == '<' && "</"@[1] == '/');
    }
}

/// The text of an element with a value reads back as the element without
/// children.
pub proof fn lemma_parse_element_value(s: Seq<char>, pos: nat, node: Node)
    requires
        node_valid(node),
        node.value is Some,
        starts_at(s, pos, node_text(node)),
    ensures
        parse_element(s, pos) == Some((canonical(node), pos + node_text(node).len())),
{
    let tag = node.tag;
    let listed = attributes_text(node.attributes);
    let text = node_text(node);
    lemma_parse_open(s, pos, node);
    let after = pos + 1 + tag.len() + listed.len();
    let value = node.value->0;
    let body = escaped(value);
    let head = open_tag_text(tag, node.attributes, false);
    let tail = value_close_text(value, tag);
    assert(head.len() == 1 + tag.len() + listed.len() + 1);
    lemma_starts_at_both(s, pos, head, tail);
    let inside = after + 1;
    let closing = seq!['<', '/'] + tag + seq!['>'];
    assert(tail =~= body + closing);
    lemma_starts_at_both(s, inside, body, closing);
    let end = inside + body.len();
    lemma_parse_close(s, end, tag);
    lemma_starts_at_char(s, end, closing, 0);
    lemma_escaped_is_plain(value);
    lemma_find_char(s, inside, body, '<');
    assert(s.subrange(inside as int, end as int) == body);
    assert(parse_content(s, inside) == Some(Content { children: Seq::empty(), text: body, end }));
    lemma_unescaped_escaped(value);
    assert(text.len() == head.len() + tail.len());
    assert(tail.len() == body.len() + 2 + tag.len() + 1);
}

/// The text of an element with children reads back as the element with
/// its children as they read back.
pub proof fn lemma_parse_element_children(s: Seq<char>, pos: nat, node: Node)
    requires
        node_valid(node),
        node.value is None,
        node.children.len() > 0,
        starts_at(s, pos, node_text(node)),
    ensures
        parse_element(s, pos) == Some((canonical(node), pos + node_text(node).len())),
    decreases node, node.children.len() + 1,
{
    let tag = node.tag;
    let listed = attributes_text(node.attributes);
    let text = node_text(node);
    lemma_parse_open(s, pos, node);
    let after = pos + 1 + tag.len() + listed.len();
    let head = open_tag_text(tag, node.attributes, false);
    let middle = nodes_text(node.children);
    let tail = value_close_text(Seq::empty(), tag);
    let closing = seq!['<', '/'] + tag + seq!['>'];
    assert(escaped(Seq::<char>::empty()) =~= Seq::<char>::empty());
    assert(tail =~= closing);
    assert(head.len() == 1 + tag.len() + listed.len() + 1);
    lemma_starts_at_both(s, pos, head + middle, tail);
    lemma_starts_at_both(s, pos, head, middle);
    let inside = after + 1;
    let end = inside + middle.len();
    lemma_parse_close(s, end, tag);
    lemma_starts_at_both(s, end, seq!['<', '/'] + tag, seq!['>']);
    lemma_starts_at_both(s, end, seq!['<', '/'], tag);
    assert(node.children.skip(0) =~= node.children);
    lemma_parse_content(s, inside, node, 0);
    assert(canonical(node).children =~= canonical_all(node.children));
    assert(canonical_all(node.children).len() > 0);
    assert(text.len() == head.len() + middle.len() + tail.len());
    assert(tail.len() == 2 + tag.len() + 1);
}

/// The text of a tree reads back as the tree: where the text of a tree
/// whose names can name stands in `s`, the element read there is the tree
/// as it reads back, and it ends where the text ends.
pub proof fn lemma_parse_element(s: Seq<char>, pos: nat, node: Node)
    requires
        node_valid(node),
        starts_at(s, pos, node_text(node)),
    ensures
        parse_element(s, pos) == Some((canonical(node), pos + node_text(node).len())),
    decreases node, node.children.len() + 2,
{
    if node.value is Some {
        lemma_parse_element_value(s, pos, node);
    } else if node.children.len() == 0 {
        let tag = node.tag;
        let listed = attributes_text(node.attributes);
        let text = node_text(node);
        lemma_parse_open(s, pos, node);
        assert(text == open_tag_text(tag, node.attributes, true));
        lemma_starts_at_char(s, pos, text, 1 + tag.len() as int + listed.len() + 1);
        assert(text[1 + tag.len() as int + listed.len() + 1] == '>');
        assert(canonical(node).children =~= Seq::<Node>::empty());
    } else {
        lemma_parse_element_children(s, pos, node);
    }
}

/// A tree as it reads back is written as the tree is.
pub proof fn lemma_canonical_text(node: Node)
    ensures
        node_text(canonical(node)) == node_text(node),
    decreases node, node.children.len() + 1,
{
    if node.value is None && node.children.len() > 0 {
        lemma_canonical_texts(node, node.children.len() as int);
        assert(node.children.take(node.children.len() as int) =~= node.children);
        assert(canonical(node).children =~= canonical_all(node.children));
    } else if node.value is None {
        assert(canonical(node).children =~= Seq::<Node>::empty());
    }
}

/// The first `k` children of a tree as they read back are written as
/// those children are.
pub proof fn lemma_canonical_texts(node: Node, k: int)
    requires
        0 <= k <= node.children.len(),
    ensures
        nodes_text(canonical_all(node.children.take(k))) == nodes_text(node.children.take(k)),
    decreases node, k,
{
    let front = node.children.take(k);
    if k == 0 {
        assert(canonical_all(front) =~= Seq::<Node>::empty());
        assert(front =~= Seq::<Node>::empty());
    } else {
        lemma_canonical_texts(node, k - 1);
        lemma_canonical_text(node.children[k - 1]);
        assert(front.drop_last() =~= node.children.take(k - 1));
        assert(front.last() == node.children[k - 1]);
        assert(canonical_all(front).drop_last() =~= canonical_all(node.children.take(k - 1)));
        assert(canonical_all(front).last() == canonical(node.children[k - 1]));
    }
}

/// A pattern is first found at a place where it stands, where its first
/// character stands nowhere between the place from which it is looked for
/// and that place.
pub proof fn lemma_first_occurrence(s: Seq<char>, pattern: Seq<char>, from: nat, target: nat)
    requires
        pattern.len() > 0,
        from <= target,
        occurs_at(s, pattern, target as int),
        forall|i: int| from <= i < target ==> s[i] != pattern[0],
    ensures
        first_occurrence_from(s, pattern, from) == Some(target),
    decreases target - from,
{
    if from < target {
        assert(!occurs_at(s, pattern, from as int)) by {
            if occurs_at(s, pattern, from as int) {
                assert(s.subrange(from as int, from as int + pattern.len())[0] == pattern[0]);
            }
        }
        lemma_first_occurrence(s, pattern, from + 1, target);
    }
}

/// The characters of the prolog.
pub proof fn lemma_prolog_chars()
    ensures
        prolog_text().len() == 55,
        prolog_text()[0] == '<',
        prolog_text()[1] == '?',
        prolog_text()[55 - 2] == '?',
        prolog_text()[55 - 1] == '>',
        forall|i: int| 2 <= i < 55 - 2 ==> prolog_text()[i] != '?',
{
    reveal_strlit("<?xml version=\"1.0\" encoding=\"UTF-8\" standalone=\"yes\"?>");
    let text = prolog_text();
    assert(text.len() == 55);
    assert(text[0] == '<');
    assert(text[1] == '?');
    assert(text[2] == 'x');
    assert(text[3] == 'm');
    assert(text[4] == 'l');
    assert(text[5] == ' ');
    assert(text[6] == 'v');
    assert(text[7] == 'e');
    assert(text[8] == 'r');
    assert(text[9] == 's');
    assert(text[10] == 'i');
    assert(text[11] == 'o');
    assert(text[12] == 'n');
    assert(text[13] == '=');
    assert(text[14] == '"');
    assert(text[15] == '1');
    assert(text[16] == '.');
    assert(text[17] == '0');
    assert(text[18] == '"');
    assert(text[19] == ' ');
    assert(text[20] == 'e');
    assert(text[21] == 'n');
    assert(text[22] == 'c');
    assert(text[23] == 'o');
    assert(text[24] == 'd');
    assert(text[25] == 'i');
    assert(text[26] == 'n');
    assert(text[27] == 'g');
    assert(text[28] == '=');
    assert(text[29] == '"');
    assert(text[30] == 'U');
    assert(text[31] == 'T');
    assert(text[32] == 'F');
    assert(text[33] == '-');
    assert(text[34] == '8');
    assert(text[35] == '"');
    assert(text[36] == ' ');
    assert(text[37] == 's');
    assert(text[38] == 't');
    assert(text[39] == 'a');
    assert(text[40] == 'n');
    assert(text[41] == 'd');
    assert(text[42] == 'a');
    assert(text[43] == 'l');
    assert(text[44] == 'o');
    assert(text[45] == 'n');
    assert(text[46] == 'e');
    assert(text[47] == '=');
    assert(text[48] == '"');
    assert(text[49] == 'y');
    assert(text[50] == 'e');
    assert(text[51] == 's');
    assert(text[52] == '"');
    assert(text[53] == '?');
    assert(text[54] == '>');
}

/// The text that is written of a tree reads back as the tree: a document
/// that is the prolog and the text of a tree whose names can name reads as
/// the tree as it reads back.
pub proof fn lemma_parse_written(node: Node)
    requires
        node_valid(node),
    ensures
        parse_document(prolog_text() + node_text(node)) == Some(canonical(node)),
{
    let head = prolog_text();
    let body = node_text(node);
    let s = head + body;
    lemma_prolog_chars();
    lemma_node_text_head(node);
    reveal_strlit("<?");
    reveal_strlit("?>");
    reveal_strlit("<!--");
    reveal_strlit("<!");
    assert("<?"@.len() == 2 && "?>"@.len() == 2 && "<!--"@.len() == 4 && "<!"@.len() == 2);
    assert("<?"@[0] == '<' && "<?"@[1] == '?' && "?>"@[0] == '?' && "?>"@[1] == '>');
    assert("<!--"@[1] == '!' && "<!"@[1] == '!');
    let p = head.len();
    assert forall|i: int| 0 <= i < p implies s[i] == head[i] by {}
    assert forall|i: int| 0 <= i < body.len() implies s[p + i] == body[i] by {}
    assert(skip_spaces(s, 0) == 0);
    assert(starts_at(s, 0, "<?"@)) by {
        assert(s.subrange(0, 2) =~= "<?"@);
    }
    assert(occurs_at(s, "?>"@, p - 2)) by {
        assert(s.subrange(p - 2, p as int) =~= "?>"@);
    }
    lemma_first_occurrence(s, "?>"@, 2, (p - 2) as nat);
    assert(body.subrange(1, 1 + node.tag.len() as int)[0] == node.tag[0]);
    assert(s[p as int] == '<');
    assert(s[p as int + 1] == node.tag[0]);
    assert(skip_spaces(s, p) == p);
    assert(!starts_at(s, p, "<?"@)) by {
        if starts_at(s, p, "<?"@) {
            lemma_starts_at_char(s, p, "<?"@, 1);
        }
    }
    assert(!starts_at(s, p, "<!--"@)) by {
        if starts_at(s, p, "<!--"@) {
            lemma_starts_at_char(s, p, "<!--"@, 1);
        }
    }
    assert(!starts_at(s, p, "<!"@)) by {
        if starts_at(s, p, "<!"@) {
            lemma_starts_at_char(s, p, "<!"@, 1);
        }
    }
    assert(skip_misc(s, p) == Some(p));
    assert(skip_misc(s, 0) == Some(p));
    assert(starts_at(s, p, body)) by {
        assert(s.subrange(p as int, p as int + body.len()) =~= body);
    }
    lemma_parse_element(s, p, node);
    let end = s.len();
    assert(skip_spaces(s, end) == end);
    assert(skip_misc(s, end) == Some(end));
}

/// The prolog alone is not a document: it has no root.
pub proof fn lemma_parse_prolog_alone()
    ensures
        parse_document(prolog_text()) is None,
{
    let s = prolog_text();
    lemma_prolog_chars();
    reveal_strlit("<?");
    reveal_strlit("?>");
    reveal_strlit("<!--");
    reveal_strlit("<!");
    assert("<?"@.len() == 2 && "?>"@.len() == 2 && "<!--"@.len() == 4 && "<!"@.len() == 2);
    assert("<?"@[0] == '<' && "<?"@[1] == '?' && "?>"@[0] == '?' && "?>"@[1] == '>');
    let p = s.len();
    assert(skip_spaces(s, 0) == 0);
    assert(starts_at(s, 0, "<?"@)) by {
        assert(s.subrange(0, 2) =~= "<?"@);
    }
    assert(occurs_at(s, "?>"@, p - 2)) by {
        assert(s.subrange(p - 2, p as int) =~= "?>"@);
    }
    lemma_first_occurrence(s, "?>"@, 2, (p - 2) as nat);
    assert(skip_spaces(s, p) == p);
    assert(skip_misc(s, p) == Some(p));
    assert(skip_misc(s, 0) == Some(p));
    assert(parse_element(s, p) is None);
}

/// Child-order preservation: the bytes that are written of a document
/// whose names can name read back as the tree of the document as it reads
/// back, and that tree is written as the document is. So what is read of
/// what was written is written to the same text again, children in their
/// order.
pub proof fn lemma_written_document_reads_back(document: DocumentModel)
    requires
        document.wf(),
        document.parent_or_root(None) is Some,
        node_valid(document.tree(document.parent_or_root(None)->0)),
    ensures
        parsed(encode_utf8(document_text(document))) == Some(
            canonical(document.tree(document.parent_or_root(None)->0)),
        ),
        prolog_text() + node_text(canonical(document.tree(document.parent_or_root(None)->0)))
            == document_text(document),
{
    let root = document.tree(document.parent_or_root(None)->0);
    let text = document_text(document);
    encode_utf8_valid_utf8(text);
    encode_utf8_decode_utf8(text);
    lemma_parse_written(root);
    lemma_canonical_text(root);
}

} // verus!
