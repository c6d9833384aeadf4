//! Reading XML text into a document: the text is taken apart as the
//! grammar says, and the tree that it stands for is put into a document.

use vstd::prelude::*;
use vstd::utf8::{decode_utf8, valid_utf8};
use crate::error::OfficeError;
use crate::text::{chars_of, find_from, matches_at, string_of, string_of_range};
use crate::xml_document::XmlDocument;
use crate::xml_grammar::{
    Content, entity_char, find_char, hex_digit_value, is_char_code, is_name_char, is_space,
    name_end, numeral_value, parse_attributes, parse_content, parse_document, parse_element,
    skip_misc, skip_spaces, starts_at, unescaped, unescaped_from,
};
use crate::xml_node::{Node, XmlNode, nodes_view};
use crate::xml_tree::pairs_view;

verus! {

/// `char::from_u32` gives the character with the number `i`, and nothing
/// where no character has that number: for the numbers of surrogates and
/// those beyond the last character.
pub assume_specification[ char::from_u32 ](i: u32) -> (r: Option<char>)
    ensures
        match r {
            Some(c) => c as u32 == i && (i < 0xD800 || 0xE000 <= i < 0x110000),
            None => 0xD800 <= i < 0xE000 || i >= 0x110000,
        },
;

/// `std::string::FromUtf8Error`, with which bytes that are not UTF-8 are
/// refused. Nothing is claimed of it.
#[verifier::external_type_specification]
#[verifier::external_body]
pub struct ExFromUtf8Error(std::string::FromUtf8Error);

/// `String::from_utf8` makes a string of bytes that are UTF-8, with the
/// characters that the bytes encode, and refuses any other bytes.
pub assume_specification[ std::string::String::from_utf8 ](vec: Vec<u8>) -> (res: Result<
    std::string::String,
    std::string::FromUtf8Error,
>)
    ensures
        match res {
            Ok(text) => valid_utf8(vec@) && text@ == decode_utf8(vec@),
            Err(_) => !valid_utf8(vec@),
        },
;

fn is_space_char(c: char) -> (b: bool)
    ensures
        b == is_space(c),
{
    c == ' ' || c == '\t' || c == '\n' || c == '\r'
}

fn is_name_character(c: char) -> (b: bool)
    ensures
        b == is_name_char(c),
{
    !is_space_char(c) && c != '<' && c != '>' && c != '/' && c != '=' && c != '"' && c != '\''
}

fn skip_spaces_in(s: &Vec<char>, pos: usize) -> (end: usize)
    requires
        pos <= s.len(),
    ensures
        end == skip_spaces(s@, pos as nat),
        pos <= end <= s.len(),
{
    let mut p: usize = pos;
    while p < s.len() && is_space_char(s[p])
        invariant
            pos <= p <= s.len(),
            skip_spaces(s@, pos as nat) == skip_spaces(s@, p as nat),
        decreases s.len() - p,
    {
        p += 1;
    }
    p
}

fn name_end_in(s: &Vec<char>, pos: usize) -> (end: usize)
    requires
        pos <= s.len(),
    ensures
        end == name_end(s@, pos as nat),
        pos <= end <= s.len(),
{
    let mut p: usize = pos;
    while p < s.len() && is_name_character(s[p])
        invariant
            pos <= p <= s.len(),
            name_end(s@, pos as nat) == name_end(s@, p as nat),
        decreases s.len() - p,
    {
        p += 1;
    }
    p
}

fn find_char_in(s: &Vec<char>, pos: usize, c: char) -> (end: usize)
    requires
        pos <= s.len(),
    ensures
        end == find_char(s@, pos as nat, c),
        pos <= end <= s.len(),
{
    let mut p: usize = pos;
    while p < s.len() && s[p] != c
        invariant
            pos <= p <= s.len(),
            find_char(s@, pos as nat, c) == find_char(s@, p as nat, c),
        decreases s.len() - p,
    {
        p += 1;
    }
    p
}

fn starts_at_in(s: &Vec<char>, pos: usize, pattern: &str) -> (b: bool)
    requires
        pos <= s.len(),
    ensures
        b == starts_at(s@, pos as nat, pattern@),
{
    let p = chars_of(pattern);
    if p.len() > s.len() - pos {
        return false;
    }
    matches_at(s, &p, pos)
}

fn find_text_from(s: &Vec<char>, pattern: &str, from: usize) -> (res: Option<usize>)
    ensures
        match res {
            Some(i) => crate::text::first_occurrence_from(s@, pattern@, from as nat) == Some(
                i as nat,
            ) && from <= i && i + pattern@.len() <= s.len(),
            None => crate::text::first_occurrence_from(s@, pattern@, from as nat) is None,
        },
{
    let p = chars_of(pattern);
    find_from(s, &p, from)
}

/// A copy of the characters `s[from..to]`.
fn copy_range(s: &Vec<char>, from: usize, to: usize) -> (copy: Vec<char>)
    requires
        from <= to <= s.len(),
    ensures
        copy@ == s@.subrange(from as int, to as int),
{
    let mut copy: Vec<char> = Vec::new();
    let mut i: usize = from;
    while i < to
        invariant
            from <= i <= to <= s.len(),
            copy@ == s@.subrange(from as int, i as int),
        decreases to - i,
    {
        copy.push(s[i]);
        i += 1;
        assert(s@.subrange(from as int, i as int) == s@.subrange(from as int, i - 1).push(
            s@[i - 1],
        ));
    }
    copy
}

fn hex_digit(c: char) -> (res: Option<u32>)
    ensures
        match res {
            Some(d) => hex_digit_value(c) == Some(d as nat) && d < 16,
            None => hex_digit_value(c) is None,
        },
{
    let code = c as u32;
    if 48 <= code && code <= 57 {
        Some(code - 48)
    } else if 97 <= code && code <= 102 {
        Some(code - 87)
    } else if 65 <= code && code <= 70 {
        Some(code - 55)
    } else {
        None
    }
}

/// A numeral is worth at least as much as any of its front parts where
/// both are worth anything.
proof fn lemma_numeral_grows(s: Seq<char>, i: int, base: nat)
    requires
        1 <= i <= s.len(),
        base >= 1,
        numeral_value(s, base) is Some,
    ensures
        numeral_value(s.take(i), base) is Some,
        numeral_value(s.take(i), base)->0 <= numeral_value(s, base)->0,
    decreases s.len() - i,
{
    if i == s.len() {
        assert(s.take(i) == s);
    } else {
        let front = s.drop_last();
        assert(front.take(i) == s.take(i));
        lemma_numeral_grows(front, i, base);
        assert(numeral_value(front, base)->0 * base >= numeral_value(front, base)->0) by (nonlinear_arith)
            requires
                base >= 1,
        ;
    }
}

/// Where a front part of a numeral is worth nothing, the numeral is worth
/// nothing.
proof fn lemma_numeral_none(s: Seq<char>, i: int, base: nat)
    requires
        1 <= i <= s.len(),
        numeral_value(s.take(i), base) is None,
    ensures
        numeral_value(s, base) is None,
    decreases s.len() - i,
{
    if i == s.len() {
        assert(s.take(i) == s);
    } else {
        let front = s.drop_last();
        assert(front.take(i) == s.take(i));
        lemma_numeral_none(front, i, base);
    }
}

/// The character whose number the numeral `s[from..]` gives in `base`.
fn numbered_char(s: &Vec<char>, from: usize, base: u32) -> (res: Option<char>)
    requires
        from <= s.len(),
        base == 10 || base == 16,
    ensures
        res == match numeral_value(s@.subrange(from as int, s.len() as int), base as nat) {
            Some(v) => if is_char_code(v) {
                Some(v as char)
            } else {
                None
            },
            None => None,
        },
{
    let ghost digits = s@.subrange(from as int, s.len() as int);
    if from == s.len() {
        return None;
    }
    let mut value: u32 = 0;
    let mut i: usize = from;
    while i < s.len()
        invariant
            from <= i <= s.len(),
            from < s.len(),
            base == 10 || base == 16,
            digits == s@.subrange(from as int, s.len() as int),
            value < 0x110000,
            i > from ==> numeral_value(digits.take(i - from), base as nat) == Some(value as nat),
            i == from ==> value == 0,
        decreases s.len() - i,
    {
        let ghost front = digits.take(i - from);
        let ghost next = digits.take(i - from + 1);
        proof {
            assert(next.drop_last() == front);
            assert(next.last() == s@[i as int]);
        }
        let d = match hex_digit(s[i]) {
            Some(d) => d,
            None => {
                proof {
                    lemma_numeral_none(digits, i - from + 1, base as nat);
                }
                return None;
            },
        };
        if d >= base {
            proof {
                lemma_numeral_none(digits, i - from + 1, base as nat);
            }
            return None;
        }
        let wider = value * base + d;
        assert(numeral_value(next, base as nat) == Some(wider as nat));
        if wider >= 0x110000 {
            proof {
                if numeral_value(digits, base as nat) is Some {
                    lemma_numeral_grows(digits, i - from + 1, base as nat);
                }
            }
            return None;
        }
        value = wider;
        i += 1;
    }
    assert(digits.take(i - from) == digits);
    let c = char::from_u32(value);
    proof {
        match c {
            Some(found) => {
                vstd::utf8::char_u32_cast(found, value);
                assert((value as nat) as char == found);
            },
            None => {},
        }
    }
    c
}

/// The character that the entity named `name` stands for.
fn entity_character(name: &Vec<char>) -> (res: Option<char>)
    ensures
        res == entity_char(name@),
{
    proof {
        reveal_strlit("amp");
        reveal_strlit("lt");
        reveal_strlit("gt");
        reveal_strlit("quot");
        reveal_strlit("apos");
        assert("amp"@.len() == 3 && "lt"@.len() == 2 && "gt"@.len() == 2 && "quot"@.len() == 4
            && "apos"@.len() == 4);
        assert("quot"@[0] == 'q' && "apos"@[0] == 'a');
        assert("lt"@[0] == 'l' && "gt"@[0] == 'g');
        assert(name@.subrange(0, name@.len() as int) == name@);
    }
    if starts_at_in(name, 0, "amp") && name.len() == 3 {
        assert(name@.subrange(0, 3) == name@);
        return Some('&');
    }
    if starts_at_in(name, 0, "lt") && name.len() == 2 {
        assert(name@.subrange(0, 2) == name@);
        return Some('<');
    }
    if starts_at_in(name, 0, "gt") && name.len() == 2 {
        assert(name@.subrange(0, 2) == name@);
        return Some('>');
    }
    if starts_at_in(name, 0, "quot") && name.len() == 4 {
        assert(name@.subrange(0, 4) == name@);
        return Some('"');
    }
    if starts_at_in(name, 0, "apos") && name.len() == 4 {
        assert(name@.subrange(0, 4) == name@);
        return Some('\'');
    }
    if name.len() >= 2 && name[0] == '#' && name[1] == 'x' {
        numbered_char(name, 2, 16)
    } else if name.len() >= 1 && name[0] == '#' {
        numbered_char(name, 1, 10)
    } else {
        None
    }
}

/// The text that `t` stands for, every entity replaced by its character.
fn unescape_text(t: &Vec<char>) -> (res: Option<Vec<char>>)
    ensures
        match res {
            Some(text) => unescaped(t@) == Some(text@),
            None => unescaped(t@) is None,
        },
{
    let mut out: Vec<char> = Vec::new();
    let mut pos: usize = 0;
    assert(forall|rest: Seq<char>| out@ + rest =~= rest);
    while pos < t.len()
        invariant
            pos <= t.len(),
            unescaped(t@) == match unescaped_from(t@, pos as nat) {
                Some(rest) => Some(out@ + rest),
                None => None,
            },
        decreases t.len() - pos,
    {
        let c = t[pos];
        let ghost before = out@;
        if c != '&' {
            out.push(c);
            assert(forall|rest: Seq<char>| before.push(c) + rest =~= before + (seq![c] + rest));
            pos += 1;
        } else {
            let end = find_char_in(t, pos + 1, ';');
            if end >= t.len() {
                return None;
            }
            let name = copy_range(t, pos + 1, end);
            match entity_character(&name) {
                Some(found) => {
                    out.push(found);
                    assert(forall|rest: Seq<char>|
                        before.push(found) + rest =~= before + (seq![found] + rest));
                },
                None => {
                    return None;
                },
            }
            pos = end + 1;
        }
    }
    assert(out@ + Seq::<char>::empty() =~= out@);
    Some(out)
}

/// The attributes that stand in `s` from `pos` on, and the place behind
/// them.
fn attributes_in(s: &Vec<char>, pos: usize) -> (res: Option<(Vec<(String, String)>, usize)>)
    requires
        pos <= s.len(),
    ensures
        match res {
            Some((attributes, after)) => parse_attributes(s@, pos as nat) == Some(
                (pairs_view(attributes@), after as nat),
            ) && pos <= after < s.len(),
            None => parse_attributes(s@, pos as nat) is None,
        },
{
    let mut attributes: Vec<(String, String)> = Vec::new();
    let mut p: usize = pos;
    assert(forall|rest: Seq<(Seq<char>, Seq<char>)>| pairs_view(attributes@) + rest =~= rest);
    loop
        invariant
            pos <= p <= s.len(),
            parse_attributes(s@, pos as nat) == match parse_attributes(s@, p as nat) {
                Some((rest, after)) => Some((pairs_view(attributes@) + rest, after)),
                None => None,
            },
        decreases s.len() - p,
    {
        let start = skip_spaces_in(s, p);
        if start >= s.len() {
            return None;
        }
        if s[start] == '>' || s[start] == '/' || s[start] == '?' {
            assert(pairs_view(attributes@) + Seq::<(Seq<char>, Seq<char>)>::empty()
                =~= pairs_view(attributes@));
            return Some((attributes, start));
        }
        let end = name_end_in(s, start);
        let equals = skip_spaces_in(s, end);
        if end == start || equals >= s.len() || s[equals] != '=' {
            return None;
        }
        let quote = skip_spaces_in(s, equals + 1);
        if quote >= s.len() || (s[quote] != '"' && s[quote] != '\'') {
            return None;
        }
        let close = find_char_in(s, quote + 1, s[quote]);
        if close >= s.len() {
            return None;
        }
        let raw = copy_range(s, quote + 1, close);
        let value = match unescape_text(&raw) {
            Some(value) => value,
            None => {
                return None;
            },
        };
        let ghost before = pairs_view(attributes@);
        let name = string_of_range(s, start, end);
        let text = string_of(&value);
        attributes.push((name, text));
        proof {
            let pair = (s@.subrange(start as int, end as int), value@);
            assert(pairs_view(attributes@) =~= before.push(pair));
            assert(forall|rest: Seq<(Seq<char>, Seq<char>)>|
                before.push(pair) + rest =~= before + (seq![pair] + rest));
        }
        p = close + 1;
    }
}

/// What has been read of the content of an element, and what the rest of
/// the content adds to it.
pub open spec fn content_with(
    children: Seq<Node>,
    text: Seq<char>,
    rest: Option<Content>,
) -> Option<Content> {
    match rest {
        Some(c) => Some(
            Content { children: children + c.children, text: text + c.text, end: c.end },
        ),
        None => None,
    }
}

/// Appends the characters `s[from..to]` to `out`.
fn push_range(out: &mut Vec<char>, s: &Vec<char>, from: usize, to: usize)
    requires
        from <= to <= s.len(),
    ensures
        final(out)@ == old(out)@ + s@.subrange(from as int, to as int),
{
    let mut i: usize = from;
    assert(old(out)@ + s@.subrange(from as int, from as int) =~= old(out)@);
    while i < to
        invariant
            from <= i <= to <= s.len(),
            out@ == old(out)@ + s@.subrange(from as int, i as int),
        decreases to - i,
    {
        out.push(s[i]);
        i += 1;
        assert(old(out)@ + s@.subrange(from as int, i as int) =~= (old(out)@ + s@.subrange(
            from as int,
            i - 1,
        )).push(s@[i - 1]));
    }
}

/// The element that stands in `s` at `pos`, and the place behind it.
fn element_in(s: &Vec<char>, pos: usize) -> (res: Option<(XmlNode, usize)>)
    requires
        pos <= s.len(),
    ensures
        match res {
            Some((node, after)) => parse_element(s@, pos as nat) == Some((node@, after as nat))
                && pos < after <= s.len(),
            None => parse_element(s@, pos as nat) is None,
        },
    decreases s.len() - pos,
{
    if pos >= s.len() || s[pos] != '<' {
        return None;
    }
    let name_to = name_end_in(s, pos + 1);
    if name_to == pos + 1 {
        return None;
    }
    if s[pos + 1] == '!' || s[pos + 1] == '?' {
        return None;
    }
    let tag = string_of_range(s, pos + 1, name_to);
    let (attributes, after) = match attributes_in(s, name_to) {
        Some(found) => found,
        None => {
            return None;
        },
    };
    if s[after] == '/' {
        if after + 1 < s.len() && s[after + 1] == '>' {
            let node = XmlNode { tag, attributes, value: None, children: Vec::new() };
            assert(node@.children =~= Seq::<Node>::empty());
            return Some((node, after + 2));
        }
        return None;
    }
    if s[after] != '>' {
        return None;
    }
    let start = after + 1;
    let mut children: Vec<XmlNode> = Vec::new();
    let mut text: Vec<char> = Vec::new();
    let mut p: usize = start;
    let end: usize;
    proof {
        assert(nodes_view(children@) =~= Seq::<Node>::empty());
        assert forall|c: Content| content_with(nodes_view(children@), text@, Some(c)) == Some(
            c,
        ) by {
            assert(nodes_view(children@) + c.children =~= c.children);
            assert(text@ + c.text =~= c.text);
        }
    }
    loop
        invariant_except_break
            parse_content(s@, start as nat) == content_with(
                nodes_view(children@),
                text@,
                parse_content(s@, p as nat),
            ),
        invariant
            pos < start <= p <= s.len(),
            parse_content(s@, start as nat) is None ==> parse_element(s@, pos as nat) is None,
        ensures
            start <= end < s.len(),
            end + 2 <= s.len(),
            parse_content(s@, start as nat) == Some(
                Content { children: nodes_view(children@), text: text@, end: end as nat },
            ),
        decreases s.len() - p,
    {
        let open = find_char_in(s, p, '<');
        if open >= s.len() {
            return None;
        }
        let ghost seen = text@;
        let ghost kids = nodes_view(children@);
        let ghost piece = s@.subrange(p as int, open as int);
        push_range(&mut text, s, p, open);
        proof {
            reveal_strlit("</");
            reveal_strlit("<!--");
            reveal_strlit("<?");
            assert("</"@.len() == 2 && "<!--"@.len() == 4 && "<?"@.len() == 2);
        }
        if starts_at_in(s, open, "</") {
            end = open;
            proof {
                assert(kids + Seq::<Node>::empty() =~= kids);
            }
            break;
        } else if starts_at_in(s, open, "<!--") {
            match find_text_from(s, "-->", open + 4) {
                Some(close) => {
                    proof {
                        reveal_strlit("-->");
                        assert("-->"@.len() == 3);
                        assert forall|c: Content|
                            content_with(
                                kids,
                                seen,
                                Some(Content { text: piece + c.text, ..c }),
                            ) == content_with(kids, seen + piece, Some(c)) by {
                            assert(seen + (piece + c.text) =~= (seen + piece) + c.text);
                        }
                    }
                    p = close + 3;
                },
                None => {
                    return None;
                },
            }
        } else if starts_at_in(s, open, "<?") {
            match find_text_from(s, "?>", open + 2) {
                Some(close) => {
                    proof {
                        reveal_strlit("?>");
                        assert("?>"@.len() == 2);
                        assert forall|c: Content|
                            content_with(
                                kids,
                                seen,
                                Some(Content { text: piece + c.text, ..c }),
                            ) == content_with(kids, seen + piece, Some(c)) by {
                            assert(seen + (piece + c.text) =~= (seen + piece) + c.text);
                        }
                    }
                    p = close + 2;
                },
                None => {
                    return None;
                },
            }
        } else {
            match element_in(s, open) {
                Some((child, next)) => {
                    let ghost model = child@;
                    children.push(child);
                    proof {
                        assert(nodes_view(children@) =~= kids.push(model));
                        assert forall|c: Content|
                            content_with(
                                kids,
                                seen,
                                Some(
                                    Content {
                                        children: seq![model] + c.children,
                                        text: piece + c.text,
                                        end: c.end,
                                    },
                                ),
                            ) == content_with(kids.push(model), seen + piece, Some(c)) by {
                            assert(seen + (piece + c.text) =~= (seen + piece) + c.text);
                            assert(kids + (seq![model] + c.children) =~= kids.push(model)
                                + c.children);
                        }
                    }
                    p = next;
                },
                None => {
                    return None;
                },
            }
        }
    }
    let close_to = name_end_in(s, end + 2);
    let close = skip_spaces_in(s, close_to);
    let closing = copy_range(s, end + 2, close_to);
    let name = chars_of(tag.as_str());
    if !(same_chars(&closing, &name) && close < s.len() && s[close] == '>') {
        return None;
    }
    if children.len() > 0 {
        let node = XmlNode { tag, attributes, value: None, children };
        assert(node@.children =~= nodes_view(children@));
        Some((node, close + 1))
    } else {
        match unescape_text(&text) {
            Some(value) => {
                let node = XmlNode {
                    tag,
                    attributes,
                    value: Some(string_of(&value)),
                    children: Vec::new(),
                };
                assert(node@.children =~= Seq::<Node>::empty());
                Some((node, close + 1))
            },
            None => None,
        }
    }
}

/// Whether two lists of characters are the same.
fn same_chars(a: &Vec<char>, b: &Vec<char>) -> (same: bool)
    ensures
        same == (a@ == b@),
{
    if a.len() != b.len() {
        return false;
    }
    let mut i: usize = 0;
    while i < a.len()
        invariant
            i <= a.len(),
            a.len() == b.len(),
            forall|k: int| 0 <= k < i ==> a@[k] == b@[k],
        decreases a.len() - i,
    {
        if a[i] != b[i] {
            return false;
        }
        i += 1;
    }
    assert(a@ =~= b@);
    true
}

/// The first place from `pos` on that is not in white space, a comment, a
/// processing instruction or a document type declaration.
fn skip_misc_in(s: &Vec<char>, pos: usize) -> (res: Option<usize>)
    requires
        pos <= s.len(),
    ensures
        match res {
            Some(end) => skip_misc(s@, pos as nat) == Some(end as nat) && pos <= end <= s.len(),
            None => skip_misc(s@, pos as nat) is None,
        },
{
    let mut p: usize = pos;
    loop
        invariant
            pos <= p <= s.len(),
            skip_misc(s@, pos as nat) == skip_misc(s@, p as nat),
        decreases s.len() - p,
    {
        let start = skip_spaces_in(s, p);
        proof {
            reveal_strlit("?>");
            reveal_strlit("-->");
            reveal_strlit("<!--");
            reveal_strlit("<?");
            assert("?>"@.len() == 2);
            assert("-->"@.len() == 3);
            assert("<!--"@.len() == 4 && "<?"@.len() == 2);
        }
        if starts_at_in(s, start, "<?") {
            match find_text_from(s, "?>", start + 2) {
                Some(close) => {
                    p = close + 2;
                },
                None => {
                    return None;
                },
            }
        } else if starts_at_in(s, start, "<!--") {
            match find_text_from(s, "-->", start + 4) {
                Some(close) => {
                    p = close + 3;
                },
                None => {
                    return None;
                },
            }
        } else if starts_at_in(s, start, "<!") {
            let close = find_char_in(s, start, '>');
            if close < s.len() {
                p = close + 1;
            } else {
                return None;
            }
        } else {
            return Some(start);
        }
    }
}

/// The tree of the document that `s` is.
pub fn document_in(s: &Vec<char>) -> (res: Option<XmlNode>)
    ensures
        match res {
            Some(root) => parse_document(s@) == Some(root@),
            None => parse_document(s@) is None,
        },
{
    let start = match skip_misc_in(s, 0) {
        Some(start) => start,
        None => {
            return None;
        },
    };
    let (root, after) = match element_in(s, start) {
        Some(found) => found,
        None => {
            return None;
        },
    };
    match skip_misc_in(s, after) {
        Some(end) => if end == s.len() {
            Some(root)
        } else {
            None
        },
        None => None,
    }
}

/// Reads documents from XML text.
pub struct XmlSerializer {}

impl XmlSerializer {
    /// The document that the bytes `xml_file_content` are the XML text of,
    /// in UTF-8: its root is the element 1, the root's subtree is the
    /// tree that the text stands for, and every element whose name has a
    /// prefix has the namespace that the prefix is declared for. Bytes that are not UTF-8, and text
    /// that is not a document, are refused.
    pub fn vec_to_xml_doc_tree(xml_file_content: Vec<u8>) -> (res: Result<XmlDocument, OfficeError>)
        ensures
            match (
                if valid_utf8(xml_file_content@) {
                    parse_document(decode_utf8(xml_file_content@))
                } else {
                    None
                }
            ) {
                Some(root) => res matches Ok(document) && document.wf() && document@.parent_or_root(
                    None,
                ) == Some(1usize) && document@.tree(1) == root
                    && document@.namespaces_resolved(),
                None => res matches Err(e) && e == OfficeError::Codec,
            },
    {
        let text = match String::from_utf8(xml_file_content) {
            Ok(text) => text,
            Err(_) => {
                return Err(OfficeError::Codec);
            },
        };
        let chars = chars_of(text.as_str());
        match document_in(&chars) {
            Some(root) => {
                let mut document = XmlDocument::from_tree(&root);
                let ghost before = document@;
                document.resolve_namespaces_mut();
                proof {
                    assert(before.elements.dom().contains(1usize));
                    before.lemma_same_but_namespaces(document@, 1);
                }
                Ok(document)
            },
            None => Err(OfficeError::Codec),
        }
    }
}

} // verus!
