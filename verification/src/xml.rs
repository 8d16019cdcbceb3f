//! The parts of XML that calendar servers answer with.

use vstd::prelude::*;

use crate::text::{
    after_prefix, before_suffix, chars_of, ends_with_char, find_char, find_chars, find_part,
    index_of_char, is_white, lemma_find_part, lemma_first_word, lemma_index_of_char,
    lemma_index_unique, lemma_split_at_last, lemma_split_at_last_none, lemma_trim_fixed,
    lemma_views_push, occurs_at, replace_text, replaced, rsplit_once_char, same, split_at_last,
    split_words, starts_with_char, text_of, trim, trim_end_char, trimmed, trimmed_end_char, views,
    without_prefix, without_suffix, words,
};

verus! {

broadcast use lemma_views_push;

// Tags.

/// Where the next tag starts and where it ends, looking from a position.
pub open spec fn next_tag(xml: Seq<char>, from: int) -> Option<(int, int)> {
    let start = from + index_of_char(xml.skip(from), '<') as int;
    if start < xml.len() {
        let end = start + index_of_char(xml.skip(start), '>') as int;
        if end < xml.len() {
            Some((start, end))
        } else {
            None
        }
    } else {
        None
    }
}

proof fn lemma_next_tag(xml: Seq<char>, from: int)
    requires
        0 <= from <= xml.len(),
    ensures
        match next_tag(xml, from) {
            Some(tag) => from <= tag.0 < tag.1 < xml.len(),
            None => true,
        },
{
    lemma_index_of_char(xml.skip(from), '<');
    let start = from + index_of_char(xml.skip(from), '<') as int;
    if start < xml.len() {
        lemma_index_of_char(xml.skip(start), '>');
        assert(xml.skip(from)[start - from] == '<');
        assert(xml.skip(start)[0] == xml[start]);
    }
}

fn find_tag(xml: &[char], from: usize) -> (r: Option<(usize, usize)>)
    requires
        from <= xml@.len(),
    ensures
        match r {
            Some(tag) => next_tag(xml@, from as int) == Some((tag.0 as int, tag.1 as int)) && from
                <= tag.0 < tag.1 < xml@.len(),
            None => next_tag(xml@, from as int) is None,
        },
{
    let total: usize = xml.len();
    let start = find_char(xml, from, '<');
    proof {
        lemma_next_tag(xml@, from as int);
    }
    if start >= total {
        return None;
    }
    let end = find_char(xml, start, '>');
    if end >= total {
        return None;
    }
    Some((start, end))
}

/// What stands in a tag.
pub open spec fn tag_text(xml: Seq<char>, tag: (int, int)) -> Seq<char> {
    trim(xml.subrange(tag.0 + 1, tag.1))
}

/// A name without its namespace.
pub open spec fn local_name(name: Seq<char>) -> Seq<char> {
    match split_at_last(name, ':') {
        Some(parts) => parts.1,
        None => name,
    }
}

fn local_of(name: &str) -> (r: String)
    ensures
        r@ == local_name(name@),
{
    match rsplit_once_char(name, ':') {
        Some(parts) => parts.1,
        None => name.to_owned(),
    }
}

/// The first word of a text, or nothing.
pub open spec fn first_word(s: Seq<char>) -> Seq<char> {
    if words(s).len() > 0 {
        words(s)[0]
    } else {
        Seq::empty()
    }
}

fn word_of(s: &str) -> (r: String)
    ensures
        r@ == first_word(s@),
{
    let all = split_words(s);
    if all.len() > 0 {
        proof {
            assert(views(all@)[0] == all@[0]@);
        }
        all[0].clone()
    } else {
        let empty = String::new();
        proof {
            assert(empty@ =~= Seq::empty());
        }
        empty
    }
}

/// The name of an empty tag, or nothing where the tag is not empty.
pub open spec fn empty_tag_name(tag: Seq<char>) -> Seq<char> {
    match before_suffix(tag, "/"@) {
        Some(inner) => first_word(trim(inner)),
        None => Seq::empty(),
    }
}

/// Some empty tag with a local name stands behind a position.
pub open spec fn empty_tag_from(xml: Seq<char>, name: Seq<char>, from: int) -> bool
    decreases xml.len() - from,
    when 0 <= from <= xml.len()
    via empty_tag_decreases
{
    match next_tag(xml, from) {
        Some(tag) => local_name(empty_tag_name(tag_text(xml, tag))) == name || empty_tag_from(
            xml,
            name,
            tag.1 + 1,
        ),
        None => false,
    }
}

#[via_fn]
proof fn empty_tag_decreases(xml: Seq<char>, name: Seq<char>, from: int) {
    lemma_next_tag(xml, from);
}

/// Whether an empty tag with a local name stands in the text.
pub fn has_empty_xml_tag(xml: &str, local_name: &str) -> (r: bool)
    ensures
        r == empty_tag_from(xml@, local_name@, 0),
{
    let chars = chars_of(xml);
    let total: usize = chars.len();
    let mut from: usize = 0;
    loop
        invariant
            from <= chars@.len(),
            total == chars@.len(),
            chars@ == xml@,
            empty_tag_from(xml@, local_name@, 0) == empty_tag_from(xml@, local_name@, from as int),
        decreases chars@.len() - from,
    {
        let (start, end) = match find_tag(chars.as_slice(), from) {
            Some(tag) => tag,
            None => return false,
        };
        let tag = trimmed(text_of(chars.as_slice(), start + 1, end).as_str());
        let name = match without_suffix(tag.as_str(), "/") {
            Some(inner) => word_of(trimmed(inner.as_str()).as_str()),
            None => String::new(),
        };
        proof {
            if before_suffix(tag@, "/"@) is None {
                assert(name@ =~= Seq::empty());
            }
        }
        if same(local_of(name.as_str()).as_str(), local_name) {
            return true;
        }
        from = end + 1;
    }
}

// Elements.

/// The name in a tag that opens an element.
pub open spec fn open_name(tag: Seq<char>) -> Seq<char> {
    trim_end_char(first_word(tag), '/')
}

/// A tag opens an element with a local name, which is not empty.
pub open spec fn opens(tag: Seq<char>, name: Seq<char>) -> bool {
    &&& !(tag.len() > 0 && (tag[0] == '/' || tag[0] == '!' || tag[0] == '?'))
    &&& local_name(open_name(tag)) == name
    &&& !(tag.len() > 0 && tag.last() == '/')
}

fn opens_element(tag: &str, local_name: &str) -> (r: Option<String>)
    ensures
        match r {
            Some(name) => opens(tag@, local_name@) && name@ == open_name(tag@),
            None => !opens(tag@, local_name@),
        },
{
    if starts_with_char(tag, '/') || starts_with_char(tag, '!') || starts_with_char(tag, '?')
        || ends_with_char(tag, '/') {
        return None;
    }
    let name = trimmed_end_char(word_of(tag).as_str(), '/');
    if same(local_of(name.as_str()).as_str(), local_name) {
        Some(name)
    } else {
        None
    }
}

/// A tag closes an element with a local name.
pub open spec fn closes(tag: Seq<char>, name: Seq<char>) -> bool {
    match after_prefix(tag, "/"@) {
        Some(closing) => local_name(trim(closing)) == name,
        None => false,
    }
}

fn closes_element(tag: &str, local_name: &str) -> (r: bool)
    ensures
        r == closes(tag@, local_name@),
{
    match without_prefix(tag, "/") {
        Some(closing) => same(local_of(trimmed(closing.as_str()).as_str()).as_str(), local_name),
        None => false,
    }
}

/// Where the next tag stands that closes an element with a local name.
pub open spec fn closing_from(xml: Seq<char>, name: Seq<char>, from: int) -> Option<(int, int)>
    decreases xml.len() - from,
    when 0 <= from <= xml.len()
    via closing_decreases
{
    match next_tag(xml, from) {
        Some(tag) => if closes(tag_text(xml, tag), name) {
            Some(tag)
        } else {
            closing_from(xml, name, tag.1 + 1)
        },
        None => None,
    }
}

#[via_fn]
proof fn closing_decreases(xml: Seq<char>, name: Seq<char>, from: int) {
    lemma_next_tag(xml, from);
}

proof fn lemma_closing(xml: Seq<char>, name: Seq<char>, from: int)
    requires
        0 <= from <= xml.len(),
    ensures
        match closing_from(xml, name, from) {
            Some(tag) => from <= tag.0 < tag.1 < xml.len(),
            None => true,
        },
    decreases xml.len() - from,
{
    lemma_next_tag(xml, from);
    if let Some(tag) = next_tag(xml, from) {
        if !closes(tag_text(xml, tag), name) {
            lemma_closing(xml, name, tag.1 + 1);
        }
    }
}

fn find_closing(xml: &[char], local_name: &str, from: usize) -> (r: Option<(usize, usize)>)
    requires
        from <= xml@.len(),
    ensures
        match r {
            Some(tag) => closing_from(xml@, local_name@, from as int) == Some(
                (tag.0 as int, tag.1 as int),
            ) && from <= tag.0 < tag.1 < xml@.len(),
            None => closing_from(xml@, local_name@, from as int) is None,
        },
{
    let total: usize = xml.len();
    let mut scan: usize = from;
    loop
        invariant
            from <= scan <= xml@.len(),
            total == xml@.len(),
            closing_from(xml@, local_name@, from as int) == closing_from(
                xml@,
                local_name@,
                scan as int,
            ),
        decreases xml@.len() - scan,
    {
        let (start, end) = match find_tag(xml, scan) {
            Some(tag) => tag,
            None => return None,
        };
        let tag = trimmed(text_of(xml, start + 1, end).as_str());
        if closes_element(tag.as_str(), local_name) {
            return Some((start, end));
        }
        scan = end + 1;
    }
}

/// What stands in the elements with a local name, looking from a position. An element ends with the
/// next tag that closes its local name; one that is not closed ends the search.
pub open spec fn blocks_from(xml: Seq<char>, name: Seq<char>, from: int) -> Seq<Seq<char>>
    decreases xml.len() - from,
    when 0 <= from <= xml.len()
    via blocks_decreases
{
    match next_tag(xml, from) {
        Some(tag) => if opens(tag_text(xml, tag), name) {
            match closing_from(xml, name, tag.1 + 1) {
                Some(close) => seq![xml.subrange(tag.1 + 1, close.0)] + blocks_from(
                    xml,
                    name,
                    close.1 + 1,
                ),
                None => Seq::empty(),
            }
        } else {
            blocks_from(xml, name, tag.1 + 1)
        },
        None => Seq::empty(),
    }
}

#[via_fn]
proof fn blocks_decreases(xml: Seq<char>, name: Seq<char>, from: int) {
    lemma_next_tag(xml, from);
    if let Some(tag) = next_tag(xml, from) {
        lemma_closing(xml, name, tag.1 + 1);
    }
}

/// What stands in the elements with a local name.
pub fn xml_blocks(xml: &str, local_name: &str) -> (r: Vec<String>)
    ensures
        views(r@) == blocks_from(xml@, local_name@, 0),
{
    let chars = chars_of(xml);
    let total: usize = chars.len();
    let ghost name = local_name@;
    let mut out: Vec<String> = Vec::new();
    let mut from: usize = 0;
    proof {
        assert(views(out@) + blocks_from(xml@, name, 0) =~= blocks_from(xml@, name, 0));
    }
    loop
        invariant
            from <= chars@.len(),
            total == chars@.len(),
            chars@ == xml@,
            name == local_name@,
            views(out@) + blocks_from(xml@, name, from as int) == blocks_from(xml@, name, 0),
        decreases chars@.len() - from,
    {
        let ghost before = views(out@);
        let (start, end) = match find_tag(chars.as_slice(), from) {
            Some(tag) => tag,
            None => {
                proof {
                    assert(before + Seq::<Seq<char>>::empty() =~= before);
                }
                return out;
            },
        };
        let tag = trimmed(text_of(chars.as_slice(), start + 1, end).as_str());
        if opens_element(tag.as_str(), local_name).is_none() {
            from = end + 1;
        } else {
            match find_closing(chars.as_slice(), local_name, end + 1) {
                Some(close) => {
                    let block = text_of(chars.as_slice(), end + 1, close.0);
                    proof {
                        let rest = blocks_from(xml@, name, close.1 + 1);
                        assert(before + (seq![block@] + rest) =~= before.push(block@) + rest);
                    }
                    out.push(block);
                    from = close.1 + 1;
                },
                None => {
                    proof {
                        assert(before + Seq::<Seq<char>>::empty() =~= before);
                    }
                    return out;
                },
            }
        }
    }
}

// Texts.

/// The characters outside tags; `inside` says whether the first stands inside one.
pub open spec fn outside_tags(s: Seq<char>, inside: bool) -> Seq<char>
    decreases s.len(),
{
    if s.len() == 0 {
        Seq::empty()
    } else if s[0] == '<' {
        outside_tags(s.skip(1), true)
    } else if s[0] == '>' {
        outside_tags(s.skip(1), false)
    } else if inside {
        outside_tags(s.skip(1), true)
    } else {
        seq![s[0]] + outside_tags(s.skip(1), false)
    }
}

/// The text of an element, without tags and surrounding white space.
pub open spec fn plain_text(s: Seq<char>) -> Seq<char> {
    replaced(replaced(trim(outside_tags(s, false)), "&amp;"@, "&"@), "&quot;"@, "\""@)
}

/// The text of an element, without tags and surrounding white space.
pub fn strip_xml_text(value: &str) -> (r: String)
    ensures
        r@ == plain_text(value@),
{
    let chars = chars_of(value);
    let mut text = String::new();
    let mut inside = false;
    let mut i: usize = 0;
    proof {
        assert(value@.skip(0) =~= value@);
        assert(text@ + outside_tags(value@, false) =~= outside_tags(value@, false));
    }
    while i < chars.len()
        invariant
            i <= chars@.len(),
            chars@ == value@,
            text@ + outside_tags(value@.skip(i as int), inside) == outside_tags(value@, false),
        decreases chars.len() - i,
    {
        let c = chars[i];
        let ghost before = text@;
        proof {
            assert(value@.skip(i as int).skip(1) =~= value@.skip(i + 1));
        }
        if c == '<' {
            inside = true;
        } else if c == '>' {
            inside = false;
        } else if !inside {
            proof {
                let rest = outside_tags(value@.skip(i + 1), false);
                assert(before + (seq![c] + rest) =~= before.push(c) + rest);
            }
            text.push(c);
        }
        i += 1;
    }
    proof {
        assert(value@.skip(i as int).len() == 0);
        assert(text@ + Seq::<char>::empty() =~= text@);
        reveal_strlit("&amp;");
        reveal_strlit("&quot;");
    }
    let ampersands = replace_text(trimmed(text.as_str()).as_str(), "&amp;", "&");
    replace_text(ampersands.as_str(), "&quot;", "\"")
}

/// The tag that closes an element, as it stands in the text.
pub open spec fn closing_tag(name: Seq<char>) -> Seq<char> {
    "</"@ + name + ">"@
}

/// The texts of the elements with a local name, looking from a position. An element ends with the
/// next tag that closes its full name; one that is not closed is passed over.
pub open spec fn texts_from(xml: Seq<char>, name: Seq<char>, from: int) -> Seq<Seq<char>>
    decreases xml.len() - from,
    when 0 <= from <= xml.len()
    via texts_decreases
{
    match next_tag(xml, from) {
        Some(tag) => if opens(tag_text(xml, tag), name) {
            let close = closing_tag(open_name(tag_text(xml, tag)));
            match find_part(xml, close, tag.1 + 1) {
                Some(at) => seq![plain_text(xml.subrange(tag.1 + 1, at))] + texts_from(
                    xml,
                    name,
                    at + close.len(),
                ),
                None => texts_from(xml, name, tag.1 + 1),
            }
        } else {
            texts_from(xml, name, tag.1 + 1)
        },
        None => Seq::empty(),
    }
}

#[via_fn]
proof fn texts_decreases(xml: Seq<char>, name: Seq<char>, from: int) {
    lemma_next_tag(xml, from);
    if let Some(tag) = next_tag(xml, from) {
        let close = closing_tag(open_name(tag_text(xml, tag)));
        reveal_strlit("</");
        lemma_find_part(xml, close, tag.1 + 1);
    }
}

/// The texts of the elements with a local name.
pub fn xml_texts(xml: &str, local_name: &str) -> (r: Vec<String>)
    ensures
        views(r@) == texts_from(xml@, local_name@, 0),
{
    let chars = chars_of(xml);
    let total: usize = chars.len();
    let ghost name = local_name@;
    let mut out: Vec<String> = Vec::new();
    let mut from: usize = 0;
    proof {
        assert(views(out@) + texts_from(xml@, name, 0) =~= texts_from(xml@, name, 0));
    }
    loop
        invariant
            from <= chars@.len(),
            total == chars@.len(),
            chars@ == xml@,
            name == local_name@,
            views(out@) + texts_from(xml@, name, from as int) == texts_from(xml@, name, 0),
        decreases chars@.len() - from,
    {
        let ghost before = views(out@);
        let (start, end) = match find_tag(chars.as_slice(), from) {
            Some(tag) => tag,
            None => {
                proof {
                    assert(before + Seq::<Seq<char>>::empty() =~= before);
                }
                return out;
            },
        };
        let tag = trimmed(text_of(chars.as_slice(), start + 1, end).as_str());
        match opens_element(tag.as_str(), local_name) {
            None => {
                from = end + 1;
            },
            Some(full) => {
                let close = "</".to_owned().concat(full.as_str()).concat(">");
                let close_chars = chars_of(close.as_str());
                proof {
                    reveal_strlit("</");
                    lemma_find_part(xml@, close@, end + 1);
                }
                match find_chars(chars.as_slice(), close_chars.as_slice(), end + 1) {
                    Some(at) => {
                        let content = text_of(chars.as_slice(), end + 1, at);
                        let text = strip_xml_text(content.as_str());
                        proof {
                            let rest = texts_from(xml@, name, at + close@.len());
                            assert(before + (seq![text@] + rest) =~= before.push(text@) + rest);
                        }
                        out.push(text);
                        from = at + close_chars.len();
                    },
                    None => {
                        from = end + 1;
                    },
                }
            },
        }
    }
}

// What is read of elements.

/// Whether a text can be the name of an element, with or without a prefix.
pub open spec fn is_element_name(tag: Seq<char>) -> bool {
    &&& tag.len() > 0
    &&& tag[0] != '!' && tag[0] != '?'
    &&& forall|i: int|
        0 <= i < tag.len() ==> !is_white(#[trigger] tag[i]) && tag[i] != '<' && tag[i] != '>'
            && tag[i] != '/'
}

/// The name of an element counts without its prefix.
pub proof fn law_prefixes_do_not_count(prefix: Seq<char>, name: Seq<char>)
    requires
        !name.contains(':'),
    ensures
        local_name(prefix + ":"@ + name) == name,
        local_name(name) == name,
{
    reveal_strlit(":");
    let whole = prefix + ":"@ + name;
    let at = prefix.len() as int;
    assert(whole[at] == ':');
    assert forall|i: int| at < i < whole.len() implies #[trigger] whole[i] != ':' by {
        assert(whole[i] == name[i - at - 1]);
    }
    lemma_split_at_last(whole, ':', at);
    assert(whole.skip(at + 1) =~= name);
    assert forall|i: int| 0 <= i < name.len() implies #[trigger] name[i] != ':' by {}
    lemma_split_at_last_none(name, ':');
}

/// The text between the tags of an element is read as it stands there.
pub proof fn law_text_between_tags_is_read(tag: Seq<char>, text: Seq<char>)
    requires
        is_element_name(tag),
        trim(text) == text,
        forall|i: int|
            0 <= i < text.len() ==> #[trigger] text[i] != '<' && text[i] != '>' && text[i] != '&',
    ensures
        texts_from("<"@ + tag + ">"@ + text + "</"@ + tag + ">"@, local_name(tag), 0) == seq![text],
{
    reveal_strlit("<");
    reveal_strlit(">");
    reveal_strlit("</");
    let xml = "<"@ + tag + ">"@ + text + "</"@ + tag + ">"@;
    let from = tag.len() + 2;
    let to = from + text.len();
    let name = local_name(tag);
    lemma_element(tag, text);
    let close = closing_tag(tag);
    assert(close =~= "</"@ + tag + ">"@);
    lemma_find_part(xml, close, from as int);
    assert(xml.subrange(to as int, (to + close.len()) as int) =~= close);
    assert(occurs_at(xml, close, to as int));
    let found = find_part(xml, close, from as int)->Some_0;
    assert(found == to) by {
        if found < to {
            assert(xml.subrange(found, (found + close.len()) as int)[0] == '<');
            assert(xml[found] == text[found - from]);
        }
    }
    assert(xml.subrange(from as int, to as int) =~= text);
    lemma_plain_text(text);
    assert(to + close.len() == xml.len());
    lemma_no_tag_at_end(xml);
    assert(texts_from(xml, name, xml.len() as int) =~= Seq::empty());
    assert(texts_from(xml, name, 0) =~= seq![text]);
}

/// What stands between the tags of an element is one block.
pub proof fn law_element_is_one_block(tag: Seq<char>, text: Seq<char>)
    requires
        is_element_name(tag),
        forall|i: int| 0 <= i < text.len() ==> #[trigger] text[i] != '<' && text[i] != '>',
    ensures
        blocks_from("<"@ + tag + ">"@ + text + "</"@ + tag + ">"@, local_name(tag), 0) == seq![
            text,
        ],
{
    reveal_strlit("<");
    reveal_strlit(">");
    reveal_strlit("</");
    reveal_strlit("/");
    let xml = "<"@ + tag + ">"@ + text + "</"@ + tag + ">"@;
    let from = tag.len() + 2;
    let to = from + text.len();
    let name = local_name(tag);
    lemma_element(tag, text);
    let rest = xml.skip(from as int);
    assert forall|i: int| 0 <= i < text.len() implies #[trigger] rest[i] != '<' by {
        assert(rest[i] == text[i]);
    }
    lemma_index_unique(rest, '<', text.len() as int);
    let after = xml.skip(to as int);
    assert(after =~= "</"@ + tag + ">"@);
    assert forall|i: int| 0 <= i < tag.len() + 2 implies #[trigger] after[i] != '>' by {
        if i >= 2 {
            assert(after[i] == tag[i - 2]);
        }
    }
    lemma_index_unique(after, '>', tag.len() as int + 2);
    let inner = xml.subrange(to as int + 1, to as int + tag.len() as int + 2);
    assert(inner =~= "/"@ + tag);
    assert(inner.last() == tag.last());
    lemma_trim_fixed(inner);
    lemma_trim_fixed(tag);
    assert(inner.skip(1) =~= tag);
    assert("/"@.is_prefix_of(inner)) by {
        assert(inner.subrange(0, 1) =~= "/"@);
    }
    assert(closes(inner, name));
    assert(xml.subrange(from as int, to as int) =~= text);
    assert(to + tag.len() + 3 == xml.len());
    lemma_no_tag_at_end(xml);
    assert(blocks_from(xml, name, xml.len() as int) =~= Seq::empty());
    assert(blocks_from(xml, name, 0) =~= seq![text]);
}

/// An empty element is found by its name.
pub proof fn law_empty_element_is_found(tag: Seq<char>)
    requires
        is_element_name(tag),
    ensures
        empty_tag_from("<"@ + tag + "/>"@, local_name(tag), 0),
{
    reveal_strlit("<");
    reveal_strlit("/>");
    reveal_strlit("/");
    let xml = "<"@ + tag + "/>"@;
    assert(xml.skip(0) =~= xml);
    lemma_index_unique(xml, '<', 0);
    assert forall|i: int| 0 <= i < tag.len() + 2 implies #[trigger] xml[i] != '>' by {
        if 1 <= i < tag.len() + 1 {
            assert(xml[i] == tag[i - 1]);
        }
    }
    lemma_index_unique(xml, '>', tag.len() as int + 2);
    let inner = xml.subrange(1, tag.len() as int + 2);
    assert(inner =~= tag + "/"@);
    assert(!is_white('/'));
    assert(inner[0] == tag[0]);
    lemma_trim_fixed(inner);
    assert(inner.subrange(inner.len() - 1, inner.len() as int) =~= "/"@);
    assert(inner.take(inner.len() - 1) =~= tag);
    lemma_trim_fixed(tag);
    lemma_only_word(tag);
}

/// The first tag of an element opens it.
proof fn lemma_element(tag: Seq<char>, text: Seq<char>)
    requires
        is_element_name(tag),
    ensures
        ({
            let xml = "<"@ + tag + ">"@ + text + "</"@ + tag + ">"@;
            &&& next_tag(xml, 0) == Some((0int, tag.len() as int + 1))
            &&& tag_text(xml, (0int, tag.len() as int + 1)) == tag
            &&& opens(tag, local_name(tag))
            &&& open_name(tag) == tag
        }),
{
    reveal_strlit("<");
    reveal_strlit(">");
    let xml = "<"@ + tag + ">"@ + text + "</"@ + tag + ">"@;
    assert(xml.skip(0) =~= xml);
    lemma_index_unique(xml, '<', 0);
    assert forall|i: int| 0 <= i < tag.len() + 1 implies #[trigger] xml[i] != '>' by {
        if i > 0 {
            assert(xml[i] == tag[i - 1]);
        }
    }
    lemma_index_unique(xml, '>', tag.len() as int + 1);
    assert(xml.subrange(1, tag.len() as int + 1) =~= tag);
    lemma_trim_fixed(tag);
    lemma_only_word(tag);
    assert(tag.last() != '/');
}

/// A text without white space is its own first word.
proof fn lemma_only_word(tag: Seq<char>)
    requires
        tag.len() > 0,
        forall|i: int| 0 <= i < tag.len() ==> !is_white(#[trigger] tag[i]),
    ensures
        first_word(tag) == tag,
{
    lemma_first_word(tag, tag.len() as int);
    assert(tag.take(tag.len() as int) =~= tag);
}

/// Behind the end there is no tag.
proof fn lemma_no_tag_at_end(xml: Seq<char>)
    ensures
        next_tag(xml, xml.len() as int) is None,
{
    assert(xml.skip(xml.len() as int) =~= Seq::empty());
}

/// A text without tags and without escapes is read as it is.
proof fn lemma_plain_text(text: Seq<char>)
    requires
        trim(text) == text,
        forall|i: int|
            0 <= i < text.len() ==> #[trigger] text[i] != '<' && text[i] != '>' && text[i] != '&',
    ensures
        plain_text(text) == text,
{
    lemma_outside_all(text);
    reveal_strlit("&amp;");
    reveal_strlit("&quot;");
    lemma_find_part(text, "&amp;"@, 0);
    if let Some(at) = find_part(text, "&amp;"@, 0) {
        assert(text.subrange(at, at + 5)[0] == '&');
        assert(text[at] == '&');
    }
    lemma_find_part(text, "&quot;"@, 0);
    if let Some(at) = find_part(text, "&quot;"@, 0) {
        assert(text.subrange(at, at + 6)[0] == '&');
        assert(text[at] == '&');
    }
}

/// A text without tags lies outside of tags.
proof fn lemma_outside_all(text: Seq<char>)
    requires
        forall|i: int| 0 <= i < text.len() ==> #[trigger] text[i] != '<' && text[i] != '>',
    ensures
        outside_tags(text, false) == text,
    decreases text.len(),
{
    if text.len() > 0 {
        let rest = text.skip(1);
        assert forall|i: int| 0 <= i < rest.len() implies #[trigger] rest[i] != '<' && rest[i]
            != '>' by {
            assert(rest[i] == text[i + 1]);
        }
        lemma_outside_all(rest);
        assert(seq![text[0]] + rest =~= text);
    }
}

} // verus!
