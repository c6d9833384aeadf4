//! The grammar of the XML that the library reads, as functions on text:
//! what each piece of a document is made of, and where it ends.

use vstd::prelude::*;
use crate::text::first_occurrence_from;
use crate::xml_node::Node;

verus! {

/// Whether `c` is white space.
pub open spec fn is_space(c: char) -> bool {
    c == ' ' || c == '\t' || c == '\n' || c == '\r'
}

/// Whether `c` can stand in a name: it is neither white space nor one of
/// the characters that end a name.
pub open spec fn is_name_char(c: char) -> bool {
    !is_space(c) && c != '<' && c != '>' && c != '/' && c != '=' && c != '"' && c != '\''
}

/// The first place from `pos` on that holds no white space.
pub open spec fn skip_spaces(s: Seq<char>, pos: nat) -> nat
    decreases s.len() - pos,
{
    if pos < s.len() && is_space(s[pos as int]) {
        skip_spaces(s, pos + 1)
    } else {
        pos
    }
}

/// The first place from `pos` on that does not hold a character of a
/// name.
pub open spec fn name_end(s: Seq<char>, pos: nat) -> nat
    decreases s.len() - pos,
{
    if pos < s.len() && is_name_char(s[pos as int]) {
        name_end(s, pos + 1)
    } else {
        pos
    }
}

/// The first place from `pos` on that holds `c`; the length of the text
/// where none does.
pub open spec fn find_char(s: Seq<char>, pos: nat, c: char) -> nat
    decreases s.len() - pos,
{
    if pos < s.len() && s[pos as int] != c {
        find_char(s, pos + 1, c)
    } else {
        pos
    }
}

/// Whether `pattern` stands in `s` at `pos`.
pub open spec fn starts_at(s: Seq<char>, pos: nat, pattern: Seq<char>) -> bool {
    pos + pattern.len() <= s.len() && s.subrange(pos as int, (pos + pattern.len()) as int) == pattern
}

/// The value of a hexadecimal digit.
pub open spec fn hex_digit_value(c: char) -> Option<nat> {
    if 48 <= c as u32 <= 57 {
        Some((c as u32 - 48) as nat)
    } else if 97 <= c as u32 <= 102 {
        Some((c as u32 - 87) as nat)
    } else if 65 <= c as u32 <= 70 {
        Some((c as u32 - 55) as nat)
    } else {
        None
    }
}

/// The number that a numeral stands for in the base 10 or 16: each of its
/// characters must be a digit of the base, and there is at least one.
pub open spec fn numeral_value(s: Seq<char>, base: nat) -> Option<nat>
    decreases s.len(),
{
    if s.len() == 0 {
        None
    } else {
        match hex_digit_value(s.last()) {
            Some(d) => if d >= base {
                None
            } else if s.len() == 1 {
                Some(d)
            } else {
                match numeral_value(s.drop_last(), base) {
                    Some(front) => Some(front * base + d),
                    None => None,
                }
            },
            None => None,
        }
    }
}

/// Whether `v` is the number of a character.
pub open spec fn is_char_code(v: nat) -> bool {
    v < 0xD800 || 0xE000 <= v < 0x110000
}

/// The character that an entity's name stands for: one of the five named
/// entities, or a character given by its number.
pub open spec fn entity_char(name: Seq<char>) -> Option<char> {
    if name == "amp"@ {
        Some('&')
    } else if name == "lt"@ {
        Some('<')
    } else if name == "gt"@ {
        Some('>')
    } else if name == "quot"@ {
        Some('"')
    } else if name == "apos"@ {
        Some('\'')
    } else if name.len() >= 2 && name[0] == '#' && name[1] == 'x' {
        match numeral_value(name.subrange(2, name.len() as int), 16) {
            Some(v) => if is_char_code(v) {
                Some(v as char)
            } else {
                None
            },
            None => None,
        }
    } else if name.len() >= 1 && name[0] == '#' {
        match numeral_value(name.subrange(1, name.len() as int), 10) {
            Some(v) => if is_char_code(v) {
                Some(v as char)
            } else {
                None
            },
            None => None,
        }
    } else {
        None
    }
}

/// The text that `s` stands for from `pos` on, every entity replaced by
/// its character; nothing where an entity is not closed or not known.
pub open spec fn unescaped_from(s: Seq<char>, pos: nat) -> Option<Seq<char>>
    decreases s.len() - pos,
{
    if pos >= s.len() {
        Some(Seq::empty())
    } else if s[pos as int] != '&' {
        match unescaped_from(s, pos + 1) {
            Some(rest) => Some(seq![s[pos as int]] + rest),
            None => None,
        }
    } else {
        let end = find_char(s, pos + 1, ';');
        if end >= s.len() {
            None
        } else {
            match (
                entity_char(s.subrange((pos + 1) as int, end as int)),
                if end + 1 > pos {
                    unescaped_from(s, end + 1)
                } else {
                    None
                },
            ) {
                (Some(c), Some(rest)) => Some(seq![c] + rest),
                _ => None,
            }
        }
    }
}

/// The text that `s` stands for, every entity replaced by its character.
pub open spec fn unescaped(s: Seq<char>) -> Option<Seq<char>> {
    unescaped_from(s, 0)
}

/// The attributes that stand in `s` from `pos` on, and the place behind
/// them: that of the `>`, `/` or `?` that ends the tag. Each attribute is a
/// name, `=`, and a value between two quotes of one kind.
pub open spec fn parse_attributes(s: Seq<char>, pos: nat) -> Option<
    (Seq<(Seq<char>, Seq<char>)>, nat),
>
    decreases s.len() - pos,
{
    let start = skip_spaces(s, pos);
    if start >= s.len() {
        None
    } else if s[start as int] == '>' || s[start as int] == '/' || s[start as int] == '?' {
        Some((Seq::empty(), start))
    } else {
        let end = name_end(s, start);
        let equals = skip_spaces(s, end);
        if end == start || equals >= s.len() || s[equals as int] != '=' {
            None
        } else {
            let quote = skip_spaces(s, equals + 1);
            if quote >= s.len() || (s[quote as int] != '"' && s[quote as int] != '\'') {
                None
            } else {
                let close = find_char(s, quote + 1, s[quote as int]);
                if close >= s.len() {
                    None
                } else {
                    match (
                        unescaped(s.subrange((quote + 1) as int, close as int)),
                        if close + 1 > pos {
                            parse_attributes(s, close + 1)
                        } else {
                            None
                        },
                    ) {
                        (Some(value), Some((rest, after))) => Some(
                            (seq![(s.subrange(start as int, end as int), value)] + rest, after),
                        ),
                        _ => None,
                    }
                }
            }
        }
    }
}

/// What stands between the tags of an element.
pub struct Content {
    /// The elements, in document order.
    pub children: Seq<Node>,
    /// The text, without the elements and comments that stand in it.
    pub text: Seq<char>,
    /// The place of the `<` of the closing tag.
    pub end: nat,
}

/// The element that stands in `s` at `pos`, and the place behind it. An
/// element is a tag with a name and attributes that closes itself, or such
/// a tag, content, and the closing tag of the same name. A name does not
/// begin with `!` or `?`, with which declarations begin. An element with
/// children has no value; any other element that has content has the text
/// of its content as its value.
pub open spec fn parse_element(s: Seq<char>, pos: nat) -> Option<(Node, nat)>
    decreases s.len() - pos, 0nat,
{
    let name_to = name_end(s, pos + 1);
    if pos >= s.len() || s[pos as int] != '<' || name_to == pos + 1 || s[pos as int + 1] == '!'
        || s[pos as int + 1] == '?' {
        None
    } else {
        let tag = s.subrange((pos + 1) as int, name_to as int);
        match parse_attributes(s, name_to) {
            Some((attributes, after)) => if after < name_to || after < pos || after >= s.len() {
                None
            } else if s[after as int] == '/' {
                if after + 1 < s.len() && s[(after + 1) as int] == '>' {
                    Some(
                        (Node { tag, attributes, value: None, children: Seq::empty() }, after + 2),
                    )
                } else {
                    None
                }
            } else if s[after as int] == '>' {
                match parse_content(s, after + 1) {
                    Some(content) => {
                        let close_to = name_end(s, content.end + 2);
                        let close = skip_spaces(s, close_to);
                        if content.end + 2 <= s.len() && s.subrange(
                            (content.end + 2) as int,
                            close_to as int,
                        ) == tag && close < s.len() && s[close as int] == '>' {
                            if content.children.len() > 0 {
                                Some(
                                    (
                                        Node {
                                            tag,
                                            attributes,
                                            value: None,
                                            children: content.children,
                                        },
                                        close + 1,
                                    ),
                                )
                            } else {
                                match unescaped(content.text) {
                                    Some(text) => Some(
                                        (
                                            Node {
                                                tag,
                                                attributes,
                                                value: Some(text),
                                                children: Seq::empty(),
                                            },
                                            close + 1,
                                        ),
                                    ),
                                    None => None,
                                }
                            }
                        } else {
                            None
                        }
                    },
                    None => None,
                }
            } else {
                None
            },
            None => None,
        }
    }
}

/// The content that stands in `s` from `pos` on, up to the closing tag of
/// the element that holds it. Comments and processing instructions are
/// passed over.
pub open spec fn parse_content(s: Seq<char>, pos: nat) -> Option<Content>
    decreases s.len() - pos, 1nat,
{
    let open = find_char(s, pos, '<');
    let text = s.subrange(pos as int, open as int);
    if pos > s.len() || open >= s.len() {
        None
    } else if starts_at(s, open, "</"@) {
        Some(Content { children: Seq::empty(), text, end: open })
    } else if starts_at(s, open, "<!--"@) {
        match first_occurrence_from(s, "-->"@, open + 4) {
            Some(close) => if close + 3 > pos && close + 3 <= s.len() {
                match parse_content(s, close + 3) {
                    Some(rest) => Some(Content { text: text + rest.text, ..rest }),
                    None => None,
                }
            } else {
                None
            },
            None => None,
        }
    } else if starts_at(s, open, "<?"@) {
        match first_occurrence_from(s, "?>"@, open + 2) {
            Some(close) => if close + 2 > pos && close + 2 <= s.len() {
                match parse_content(s, close + 2) {
                    Some(rest) => Some(Content { text: text + rest.text, ..rest }),
                    None => None,
                }
            } else {
                None
            },
            None => None,
        }
    } else if open < pos {
        None
    } else {
        match parse_element(s, open) {
            Some((child, after)) => if after > open && after <= s.len() {
                match parse_content(s, after) {
                    Some(rest) => Some(
                        Content {
                            children: seq![child] + rest.children,
                            text: text + rest.text,
                            end: rest.end,
                        },
                    ),
                    None => None,
                }
            } else {
                None
            },
            None => None,
        }
    }
}

/// The first place from `pos` on that is not in white space, a comment, a
/// processing instruction or a document type declaration; nothing where
/// one of these is not closed.
pub open spec fn skip_misc(s: Seq<char>, pos: nat) -> Option<nat>
    decreases s.len() - pos,
{
    let start = skip_spaces(s, pos);
    if pos > s.len() {
        None
    } else if starts_at(s, start, "<?"@) {
        match first_occurrence_from(s, "?>"@, start + 2) {
            Some(close) => if close + 2 > pos && close + 2 <= s.len() {
                skip_misc(s, close + 2)
            } else {
                None
            },
            None => None,
        }
    } else if starts_at(s, start, "<!--"@) {
        match first_occurrence_from(s, "-->"@, start + 4) {
            Some(close) => if close + 3 > pos && close + 3 <= s.len() {
                skip_misc(s, close + 3)
            } else {
                None
            },
            None => None,
        }
    } else if starts_at(s, start, "<!"@) {
        let close = find_char(s, start, '>');
        if close < s.len() && close + 1 > pos {
            skip_misc(s, close + 1)
        } else {
            None
        }
    } else {
        Some(start)
    }
}

/// The tree of the document that `s` is: its root element, which may have
/// the declaration, comments and white space before it and comments and
/// white space behind it, and nothing else.
pub open spec fn parse_document(s: Seq<char>) -> Option<Node> {
    match skip_misc(s, 0) {
        Some(start) => match parse_element(s, start) {
            Some((root, after)) => if skip_misc(s, after) == Some(s.len()) {
                Some(root)
            } else {
                None
            },
            None => None,
        },
        None => None,
    }
}

} // verus!
