//! Which texts the markdown writer can escape: its escaping reads the
//! character at a byte offset as if that offset counted characters, which
//! goes wrong once a non-ASCII character comes before a character it escapes.
//! A text is calm when no character the writer may escape comes after a
//! non-ASCII character; the writer is given a document only where every text
//! it escapes in one run is calm.
use crate::document::{docs, lemma_children_view, Doc, InfoView, MdNode, NodeInfo};
use crate::parse_markdown::{info_of, source_info};
use crate::text::chars_of;
use vstd::prelude::*;

verus! {

/// An ASCII character.
pub open spec fn is_ascii(c: char) -> bool {
    (c as u32) < 0x80
}

/// A character the writer may escape whatever comes before it on its line:
/// a line ending, or one of ``! " # $ & ' ( ) * < > [ \ ] _ ` ``. (The other
/// characters it escapes, and spaces and tabs in running text, it escapes only
/// next to a line ending or at the start of a line.)
pub open spec fn alarm(c: char) -> bool {
    ||| c == '\n'
    ||| c == '\r'
    ||| c == '!'
    ||| c == '"'
    ||| c == '#'
    ||| c == '$'
    ||| c == '&'
    ||| c == '\''
    ||| c == '('
    ||| c == ')'
    ||| c == '*'
    ||| c == '<'
    ||| c == '>'
    ||| c == '['
    ||| c == '\\'
    ||| c == ']'
    ||| c == '_'
    ||| c == '`'
}

/// A character the writer may escape in the language of a fenced code
/// block: those of `alarm`, a space or a tab.
pub open spec fn lang_alarm(c: char) -> bool {
    alarm(c) || c == ' ' || c == '\t'
}

/// No character of `alarm` comes after a non-ASCII character.
pub open spec fn calm(s: Seq<char>) -> bool {
    forall|i: int, j: int| 0 <= i < j < s.len() && !is_ascii(#[trigger] s[i]) ==> !alarm(#[trigger] s[j])
}

/// No character of `lang_alarm` comes after a non-ASCII character.
pub open spec fn lang_calm(s: Seq<char>) -> bool {
    forall|i: int, j: int| 0 <= i < j < s.len() && !is_ascii(#[trigger] s[i]) ==> !lang_alarm(#[trigger] s[j])
}

/// An optional text, or nothing.
pub open spec fn opt_text(o: Option<Seq<char>>) -> Seq<char> {
    match o {
        Some(s) => s,
        None => Seq::empty(),
    }
}

/// The texts a node holds besides its children, in the order the writer
/// writes them.
pub open spec fn info_text(i: InfoView) -> Seq<char> {
    match i {
        InfoView::Text { value } => value,
        InfoView::InlineCode { value } => value,
        InfoView::Link { url, title } => url + opt_text(title),
        InfoView::Image { alt, url, title } => alt + url + opt_text(title),
        InfoView::LinkReference { identifier, label } => identifier + opt_text(label),
        InfoView::ImageReference { alt, identifier, label } => alt + identifier + opt_text(label),
        InfoView::Definition { url, title, identifier, label } => identifier + opt_text(label) + url + opt_text(title),
        InfoView::Math { meta, value } => opt_text(meta) + value,
        InfoView::InlineMath { value } => value,
        _ => Seq::empty(),
    }
}

/// The texts of a node and its subtree, in document order: for an element,
/// the texts of its syntax node both before and after those of its children
/// (the writer writes some of them before the children, some after).
pub open spec fn flat(d: Doc) -> Seq<char>
    decreases d, 0int,
{
    match d {
        Doc::Code { lang, meta, value } => opt_text(lang) + opt_text(meta) + value,
        Doc::Html { value } => value,
        Doc::Element { source, children, .. } => info_text(info_of(source)) + flat_list(children, 0) + info_text(
            info_of(source),
        ),
    }
}

/// The texts of `cs[i..]` and their subtrees, in order (see `flat`).
pub open spec fn flat_list(cs: Seq<Doc>, i: int) -> Seq<char>
    decreases cs, cs.len() - i,
{
    if i < 0 || i >= cs.len() {
        Seq::empty()
    } else {
        flat(cs[i]) + flat_list(cs, i + 1)
    }
}

/// A node whose children the writer writes each on its own, with no text
/// carried from one to the next: the document, a list, a list item, a block
/// quote.
pub open spec fn is_flow(i: InfoView) -> bool {
    i is Root || i is List || i is ListItem || i is Blockquote
}

/// Whether a character is one of `alarm`.
pub fn is_alarm(c: char) -> (r: bool)
    ensures
        r == alarm(c),
{
    c == '\n' || c == '\r' || c == '!' || c == '"' || c == '#' || c == '$' || c == '&' || c == '\'' || c == '('
        || c == ')' || c == '*' || c == '<' || c == '>' || c == '[' || c == '\\' || c == ']' || c == '_' || c == '`'
}

fn is_ascii_char(c: char) -> (r: bool)
    ensures
        r == is_ascii(c),
{
    (c as u32) < 0x80
}

/// Whether no character of `alarm` (of `lang_alarm` when `lang`) comes
/// after a non-ASCII character of `v`.
pub fn is_calm(v: &Vec<char>, lang: bool) -> (r: bool)
    ensures
        r == if lang { lang_calm(v@) } else { calm(v@) },
{
    let mut seen = false;
    let ghost mut first: int = 0;
    let mut i: usize = 0;
    while i < v.len()
        invariant
            i <= v@.len(),
            seen ==> 0 <= first < i && !is_ascii(v@[first]),
            !seen ==> forall|k: int| 0 <= k < i ==> is_ascii(#[trigger] v@[k]),
            lang ==> forall|a: int, b: int| 0 <= a < b < i && !is_ascii(#[trigger] v@[a]) ==> !lang_alarm(#[trigger] v@[b]),
            !lang ==> forall|a: int, b: int| 0 <= a < b < i && !is_ascii(#[trigger] v@[a]) ==> !alarm(#[trigger] v@[b]),
        decreases v@.len() - i,
    {
        let c = v[i];
        let hit = is_alarm(c) || (lang && (c == ' ' || c == '\t'));
        if seen && hit {
            proof {
                assert(!is_ascii(v@[first]));
                if lang {
                    assert(lang_alarm(v@[i as int]));
                } else {
                    assert(alarm(v@[i as int]));
                }
            }
            return false;
        }
        if !is_ascii_char(c) {
            if !seen {
                proof {
                    first = i as int;
                }
            }
            seen = true;
        }
        i += 1;
    }
    true
}

fn append(v: &mut Vec<char>, w: &Vec<char>)
    ensures
        final(v)@ == old(v)@ + w@,
{
    let ghost start = v@;
    let mut i: usize = 0;
    while i < w.len()
        invariant
            i <= w@.len(),
            v@ == start + w@.take(i as int),
        decreases w@.len() - i,
    {
        v.push(w[i]);
        assert(w@.take(i + 1) =~= w@.take(i as int).push(w@[i as int]));
        i += 1;
    }
    assert(w@.take(w@.len() as int) =~= w@);
}

fn opt_chars(o: &Option<String>) -> (r: Vec<char>)
    ensures
        r@ == opt_text(crate::document::opt_view(*o)),
{
    match o {
        Some(s) => chars_of(s.as_str()),
        None => Vec::new(),
    }
}

fn chars_then(a: Vec<char>, b: &Vec<char>) -> (r: Vec<char>)
    ensures
        r@ == a@ + b@,
{
    let mut a = a;
    append(&mut a, b);
    a
}

/// The texts a node holds besides its children (see `info_text`).
pub fn info_text_chars(i: &NodeInfo) -> (r: Vec<char>)
    ensures
        r@ == info_text(i@),
{
    match i {
        NodeInfo::Text { value } => chars_of(value.as_str()),
        NodeInfo::InlineCode { value } => chars_of(value.as_str()),
        NodeInfo::Link { url, title } => chars_then(chars_of(url.as_str()), &opt_chars(title)),
        NodeInfo::Image { alt, url, title } => {
            let a = chars_then(chars_of(alt.as_str()), &chars_of(url.as_str()));
            chars_then(a, &opt_chars(title))
        },
        NodeInfo::LinkReference { identifier, label } => chars_then(chars_of(identifier.as_str()), &opt_chars(label)),
        NodeInfo::ImageReference { alt, identifier, label } => {
            let a = chars_then(chars_of(alt.as_str()), &chars_of(identifier.as_str()));
            chars_then(a, &opt_chars(label))
        },
        NodeInfo::Definition { url, title, identifier, label } => {
            let a = chars_then(chars_of(identifier.as_str()), &opt_chars(label));
            let b = chars_then(a, &chars_of(url.as_str()));
            chars_then(b, &opt_chars(title))
        },
        NodeInfo::Math { meta, value } => chars_then(opt_chars(meta), &chars_of(value.as_str())),
        NodeInfo::InlineMath { value } => chars_of(value.as_str()),
        _ => Vec::new(),
    }
}

/// The texts of a node and its subtree, in document order (see `flat`).
pub fn flat_chars(n: &MdNode) -> (r: Vec<char>)
    ensures
        r@ == flat(n@),
    decreases n,
{
    match n {
        MdNode::Code { lang, meta, value } => {
            let a = chars_then(opt_chars(lang), &opt_chars(meta));
            chars_then(a, &chars_of(value.as_str()))
        },
        MdNode::Html { value } => chars_of(value.as_str()),
        MdNode::Element { source, children, .. } => {
            proof {
                lemma_children_view(*n);
            }
            let it = info_text_chars(&source_info(source));
            let ghost cs = docs(children@);
            let mut v = chars_then(Vec::new(), &it);
            assert(v@ =~= it@);
            let mut i: usize = 0;
            #[verifier::loop_isolation(false)]
            while i < children.len()
                invariant
                    i <= children@.len(),
                    cs == docs(children@),
                    v@ + flat_list(cs, i as int) == it@ + flat_list(cs, 0),
                decreases children@.len() - i,
            {
                assert(decreases_to!(*n => children@[i as int]));
                let f = flat_chars(&children[i]);
                assert(cs[i as int] == children@[i as int]@);
                let ghost before = v@;
                append(&mut v, &f);
                assert(before + flat_list(cs, i as int) =~= v@ + flat_list(cs, i + 1));
                i += 1;
            }
            assert(v@ + flat_list(cs, i as int) =~= v@);
            let r = chars_then(v, &it);
            assert(n@->children == cs);
            r
        },
    }
}

} // verus!
