//! A small XML reader for the scanner's report documents: elements with
//! attributes, nested children and character data, with declarations,
//! doctypes and comments skipped, and the five predefined entity references
//! decoded in attribute values and character data. A document that is not
//! well formed is a `ParseError`.
//!
//! What parsing returns is defined at specification level: `spec_parse_document`
//! is a recursive parse of the character sequence into a ghost `XmlTree`, and
//! `parse_document` returns `Ok` exactly when that parse succeeds, with a tree
//! whose view is the parsed one.

use vstd::prelude::*;
use vstd::string::*;
use crate::strutil::{push_char, str_eq};

verus! {

broadcast use vstd::std_specs::vec::group_vec_axioms;

/// Why a report could not be read.
#[derive(Clone, Copy, PartialEq, Eq, Structural, Debug)]
pub enum ParseError {
    /// The document is not well-formed XML.
    NotWellFormed,
    /// The document's root is not the report's host container.
    WrongRoot,
    /// An element lacks a field the report schema requires.
    MissingField,
}

/// One `key="value"` attribute of an element.
pub struct XmlAttr {
    pub key: String,
    pub value: String,
}

/// One element: its name, attributes, child elements, and the character data
/// directly inside it (concatenated around any children).
pub struct XmlNode {
    pub name: String,
    pub attrs: Vec<XmlAttr>,
    pub children: Vec<XmlNode>,
    pub text: String,
}

/// The tree a well-formed document denotes, at specification level.
pub ghost struct XmlTree {
    pub name: Seq<char>,
    pub attrs: Seq<(Seq<char>, Seq<char>)>,
    pub children: Seq<XmlTree>,
    pub text: Seq<char>,
}

pub open spec fn attrs_view(attrs: Seq<XmlAttr>) -> Seq<(Seq<char>, Seq<char>)> {
    attrs.map_values(|a: XmlAttr| (a.key@, a.value@))
}

/// The views of the first `k` elements of a vector of nodes.
pub open spec fn kids_view(v: Vec<XmlNode>, k: int) -> Seq<XmlTree>
    decreases v, k,
{
    if !(0 < k <= v@.len()) {
        Seq::<XmlTree>::empty()
    } else {
        kids_view(v, k - 1).push(node_view(v[k - 1]))
    }
}

/// The tree a parsed node stands for.
pub open spec fn node_view(n: XmlNode) -> XmlTree
    decreases n, 0int,
{
    XmlTree {
        name: n.name@,
        attrs: attrs_view(n.attrs@),
        children: kids_view(n.children, n.children@.len() as int),
        text: n.text@,
    }
}

proof fn lemma_kids_view_prefix(v1: Vec<XmlNode>, v2: Vec<XmlNode>, k: int)
    requires
        0 <= k <= v1@.len(),
        k <= v2@.len(),
        forall|m: int| 0 <= m < k ==> v1@[m] == v2@[m],
    ensures
        kids_view(v1, k) == kids_view(v2, k),
    decreases k,
{
    if k > 0 {
        lemma_kids_view_prefix(v1, v2, k - 1);
    }
}

pub open spec fn is_ws(c: char) -> bool {
    c == ' ' || c == '\t' || c == '\r' || c == '\n'
}

/// A character that may stand in an element or attribute name.
pub open spec fn is_name_char(c: char) -> bool {
    !is_ws(c) && c != '<' && c != '>' && c != '/' && c != '=' && c != '"' && c != '\''
        && c != '?' && c != '!'
}

/// First index at or after `i` holding a non-whitespace character.
pub open spec fn ws_end(s: Seq<char>, i: int) -> int
    decreases s.len() - i,
{
    if !(0 <= i < s.len()) {
        i
    } else if !is_ws(s[i]) {
        i
    } else {
        ws_end(s, i + 1)
    }
}

/// First index at or after `i` holding a character that cannot stand in a name.
pub open spec fn name_end(s: Seq<char>, i: int) -> int
    decreases s.len() - i,
{
    if !(0 <= i < s.len()) {
        i
    } else if !is_name_char(s[i]) {
        i
    } else {
        name_end(s, i + 1)
    }
}

/// First index at or after `i` holding `c`, if any.
pub open spec fn find_from(s: Seq<char>, c: char, i: int) -> Option<int>
    decreases s.len() - i,
{
    if !(0 <= i < s.len()) {
        None
    } else if s[i] == c {
        Some(i)
    } else {
        find_from(s, c, i + 1)
    }
}

/// First index just past a `-->` at or after `i`, if any.
pub open spec fn comment_end(s: Seq<char>, i: int) -> Option<int>
    decreases s.len() - i,
{
    if !(0 <= i && i + 3 <= s.len()) {
        None
    } else if s[i] == '-' && s[i + 1] == '-' && s[i + 2] == '>' {
        Some(i + 3)
    } else {
        comment_end(s, i + 1)
    }
}

/// The characters from `i` to `j` with the five predefined entity references
/// (`&amp;` `&lt;` `&gt;` `&quot;` `&apos;`) decoded; an `&` that starts no
/// such reference is kept as it stands.
pub open spec fn spec_decode_range(s: Seq<char>, i: int, j: int) -> Seq<char>
    decreases j - i,
{
    if !(0 <= i && i < j && j <= s.len()) {
        Seq::<char>::empty()
    } else if s[i] == '&' && i + 5 <= j && s[i + 1] == 'a' && s[i + 2] == 'm' && s[i + 3] == 'p'
        && s[i + 4] == ';' {
        seq!['&'] + spec_decode_range(s, i + 5, j)
    } else if s[i] == '&' && i + 4 <= j && s[i + 1] == 'l' && s[i + 2] == 't' && s[i + 3] == ';' {
        seq!['<'] + spec_decode_range(s, i + 4, j)
    } else if s[i] == '&' && i + 4 <= j && s[i + 1] == 'g' && s[i + 2] == 't' && s[i + 3] == ';' {
        seq!['>'] + spec_decode_range(s, i + 4, j)
    } else if s[i] == '&' && i + 6 <= j && s[i + 1] == 'q' && s[i + 2] == 'u' && s[i + 3] == 'o'
        && s[i + 4] == 't' && s[i + 5] == ';' {
        seq!['"'] + spec_decode_range(s, i + 6, j)
    } else if s[i] == '&' && i + 6 <= j && s[i + 1] == 'a' && s[i + 2] == 'p' && s[i + 3] == 'o'
        && s[i + 4] == 's' && s[i + 5] == ';' {
        seq!['\''] + spec_decode_range(s, i + 6, j)
    } else {
        seq![s[i]] + spec_decode_range(s, i + 1, j)
    }
}

/// A quoted attribute value starting at `i`: its decoded text with the index
/// just past the closing quote.
pub open spec fn spec_parse_quoted(s: Seq<char>, i: int) -> Option<(Seq<char>, int)> {
    if !(0 <= i < s.len()) {
        None
    } else if s[i] != '"' && s[i] != '\'' {
        None
    } else {
        match find_from(s, s[i], i + 1) {
            None => None,
            Some(k) => Some((spec_decode_range(s, i + 1, k), k + 1)),
        }
    }
}

pub open spec fn attrs_prepend(
    v: Seq<(Seq<char>, Seq<char>)>,
    r: Option<(Seq<(Seq<char>, Seq<char>)>, int)>,
) -> Option<(Seq<(Seq<char>, Seq<char>)>, int)> {
    match r {
        None => None,
        Some((rest, j)) => Some((v + rest, j)),
    }
}

/// The attribute list from `i` up to the `>` or `/` that closes the open tag,
/// with that closing character's index.
pub open spec fn spec_parse_attrs(s: Seq<char>, i: int) -> Option<(Seq<(Seq<char>, Seq<char>)>,
    int)>
    decreases s.len() - i,
{
    if !(0 <= i <= s.len()) {
        None
    } else {
        let j = ws_end(s, i);
        if !(i <= j && j < s.len()) {
            None
        } else if s[j] == '>' || s[j] == '/' {
            Some((Seq::<(Seq<char>, Seq<char>)>::empty(), j))
        } else {
            let k = name_end(s, j);
            if !(j < k && k <= s.len()) {
                None
            } else {
                let m = ws_end(s, k);
                if !(k <= m && m < s.len() && s[m] == '=') {
                    None
                } else {
                    let m2 = ws_end(s, m + 1);
                    match spec_parse_quoted(s, m2) {
                        None => None,
                        Some((v, p)) => {
                            if !(i < p && p <= s.len()) {
                                None
                            } else {
                                attrs_prepend(seq![(s.subrange(j, k), v)], spec_parse_attrs(s, p))
                            }
                        },
                    }
                }
            }
        }
    }
}

/// The index just past a comment, declaration or doctype whose `<` stands at
/// `i`, if it is closed.
pub open spec fn spec_skip_decl(s: Seq<char>, i: int) -> Option<int> {
    if s.len() >= 4 && 0 <= i && i < s.len() - 3 && s[i + 1] == '!' && s[i + 2] == '-' && s[i + 3]
        == '-' {
        comment_end(s, i + 4)
    } else {
        match find_from(s, '>', i) {
            None => None,
            Some(k) => Some(k + 1),
        }
    }
}

pub open spec fn content_prepend(
    cs: Seq<XmlTree>,
    t: Seq<char>,
    r: Option<(Seq<XmlTree>, Seq<char>, int)>,
) -> Option<(Seq<XmlTree>, Seq<char>, int)> {
    match r {
        None => None,
        Some((cs2, t2, j)) => Some((cs + cs2, t + t2, j)),
    }
}

/// One element whose `<` stands at `i`: its tree with the index just past its
/// closing tag.
pub open spec fn spec_parse_node(s: Seq<char>, i: int) -> Option<(XmlTree, int)>
    decreases s.len() - i, 0int,
{
    if !(0 <= i < s.len() && s[i] == '<') {
        None
    } else {
        let k = name_end(s, i + 1);
        if !(i + 1 < k && k <= s.len()) {
            None
        } else {
            let name = s.subrange(i + 1, k);
            match spec_parse_attrs(s, k) {
                None => None,
                Some((attrs, j)) => {
                    if !(i <= j && j < s.len()) {
                        None
                    } else if s[j] == '/' {
                        if j + 1 < s.len() && s[j + 1] == '>' {
                            Some((
                                XmlTree {
                                    name,
                                    attrs,
                                    children: Seq::<XmlTree>::empty(),
                                    text: Seq::<char>::empty(),
                                },
                                j + 2,
                            ))
                        } else {
                            None
                        }
                    } else if s[j] == '>' {
                        if !(i < j + 1 && j + 1 <= s.len()) {
                            None
                        } else {
                            match spec_parse_content(s, j + 1) {
                                None => None,
                                Some((children, text, j2)) => {
                                    if !(0 <= j2 && j2 + 2 <= s.len()) {
                                        None
                                    } else {
                                        let m = name_end(s, j2 + 2);
                                        if s.subrange(j2 + 2, m) != name {
                                            None
                                        } else {
                                            let m2 = ws_end(s, m);
                                            if !(m2 < s.len() && s[m2] == '>') {
                                                None
                                            } else {
                                                Some((XmlTree { name, attrs, children, text },
                                                    m2 + 1))
                                            }
                                        }
                                    }
                                },
                            }
                        }
                    } else {
                        None
                    }
                },
            }
        }
    }
}

/// The children and decoded character data between an open tag and its
/// closing tag, with the index of the `<` of the closing tag.
pub open spec fn spec_parse_content(s: Seq<char>, i: int) -> Option<(Seq<XmlTree>, Seq<char>,
    int)>
    decreases s.len() - i, 1int,
{
    if !(0 <= i < s.len()) {
        None
    } else if s[i] == '<' {
        if i + 1 < s.len() && s[i + 1] == '/' {
            Some((Seq::<XmlTree>::empty(), Seq::<char>::empty(), i))
        } else if i + 1 < s.len() && s[i + 1] == '!' {
            match spec_skip_decl(s, i) {
                None => None,
                Some(p) => {
                    if !(i < p && p <= s.len()) {
                        None
                    } else {
                        spec_parse_content(s, p)
                    }
                },
            }
        } else {
            match spec_parse_node(s, i) {
                None => None,
                Some((child, p)) => {
                    if !(i < p && p <= s.len()) {
                        None
                    } else {
                        content_prepend(seq![child], Seq::<char>::empty(), spec_parse_content(
                            s,
                            p,
                        ))
                    }
                },
            }
        }
    } else {
        let e = match find_from(s, '<', i) {
            Some(k) => k,
            None => s.len() as int,
        };
        if !(i < e && e <= s.len()) {
            None
        } else {
            content_prepend(Seq::<XmlTree>::empty(), spec_decode_range(s, i, e),
                spec_parse_content(s, e))
        }
    }
}

/// Past the leading declarations, doctypes and comments: the index where the
/// root element must begin (`i` is already past leading whitespace).
pub open spec fn spec_prolog(s: Seq<char>, i: int) -> Option<int>
    decreases s.len() - i,
{
    if !(0 <= i <= s.len()) {
        None
    } else if i < s.len() && s[i] == '<' && i + 1 < s.len() && (s[i + 1] == '?' || s[i + 1]
        == '!') {
        match spec_skip_decl(s, i) {
            None => None,
            Some(p) => {
                let w = ws_end(s, p);
                if !(i < w && w <= s.len()) {
                    None
                } else {
                    spec_prolog(s, w)
                }
            },
        }
    } else {
        Some(i)
    }
}

/// The whole document: a prolog, one root element, trailing whitespace.
pub open spec fn spec_parse_document(s: Seq<char>) -> Option<XmlTree> {
    match spec_prolog(s, ws_end(s, 0)) {
        None => None,
        Some(pos) => match spec_parse_node(s, pos) {
            None => None,
            Some((root, j)) => {
                if ws_end(s, j) == s.len() {
                    Some(root)
                } else {
                    None
                }
            },
        },
    }
}

// ---------------------------------------------------------------------------
// executable reader, proved against the specification parse

fn is_ws_char(c: char) -> (r: bool)
    ensures
        r == is_ws(c),
{
    c == ' ' || c == '\t' || c == '\r' || c == '\n'
}

fn is_name_char_exec(c: char) -> (r: bool)
    ensures
        r == is_name_char(c),
{
    !(c == ' ' || c == '\t' || c == '\r' || c == '\n') && c != '<' && c != '>' && c != '/'
        && c != '=' && c != '"' && c != '\'' && c != '?' && c != '!'
}

fn skip_ws(s: &str, i: usize) -> (j: usize)
    requires
        i <= s@.len(),
    ensures
        i <= j <= s@.len(),
        j as int == ws_end(s@, i as int),
{
    let n: usize = s.unicode_len();
    let mut j: usize = i;
    while j < n
        invariant
            n == s@.len(),
            i <= j <= n,
            ws_end(s@, i as int) == ws_end(s@, j as int),
        ensures
            n == s@.len(),
            i <= j <= n,
            ws_end(s@, i as int) == ws_end(s@, j as int),
            j == n || !is_ws(s@[j as int]),
        decreases n - j,
    {
        if !is_ws_char(s.get_char(j)) {
            break;
        }
        proof {
            assert(ws_end(s@, j as int) == ws_end(s@, j as int + 1));
        }
        j = j + 1;
    }
    proof {
        assert(ws_end(s@, j as int) == j as int);
    }
    j
}

fn scan_name(s: &str, i: usize) -> (j: usize)
    requires
        i <= s@.len(),
    ensures
        i <= j <= s@.len(),
        j as int == name_end(s@, i as int),
{
    let n: usize = s.unicode_len();
    let mut j: usize = i;
    while j < n
        invariant
            n == s@.len(),
            i <= j <= n,
            name_end(s@, i as int) == name_end(s@, j as int),
        ensures
            n == s@.len(),
            i <= j <= n,
            name_end(s@, i as int) == name_end(s@, j as int),
            j == n || !is_name_char(s@[j as int]),
        decreases n - j,
    {
        if !is_name_char_exec(s.get_char(j)) {
            break;
        }
        proof {
            assert(name_end(s@, j as int) == name_end(s@, j as int + 1));
        }
        j = j + 1;
    }
    proof {
        assert(name_end(s@, j as int) == j as int);
    }
    j
}

/// The characters of `s` from `i` to `j`, as an owned string.
fn read_range(s: &str, i: usize, j: usize) -> (t: String)
    requires
        i <= j <= s@.len(),
    ensures
        t@ == s@.subrange(i as int, j as int),
{
    let sub: &str = s.substring_char(i, j);
    String::from_str(sub)
}

fn char_then(c: char, rest: String) -> (t: String)
    ensures
        t@ == seq![c] + rest@,
{
    let mut h: String = String::new();
    push_char(&mut h, c);
    proof {
        assert(h@ =~= seq![c]);
    }
    h.append(rest.as_str());
    h
}

/// The characters of `s` from `i` to `j` with entity references decoded.
fn read_decoded(s: &str, i: usize, j: usize) -> (t: String)
    requires
        i <= j <= s@.len(),
    ensures
        t@ == spec_decode_range(s@, i as int, j as int),
    decreases j - i,
{
    if i >= j {
        let t: String = String::new();
        proof {
            assert(t@ =~= spec_decode_range(s@, i as int, j as int));
        }
        return t;
    }
    let c: char = s.get_char(i);
    if c == '&' {
        if j - i >= 5 && s.get_char(i + 1) == 'a' && s.get_char(i + 2) == 'm' && s.get_char(i + 3)
            == 'p' && s.get_char(i + 4) == ';' {
            return char_then('&', read_decoded(s, i + 5, j));
        }
        if j - i >= 4 && s.get_char(i + 1) == 'l' && s.get_char(i + 2) == 't' && s.get_char(i + 3)
            == ';' {
            return char_then('<', read_decoded(s, i + 4, j));
        }
        if j - i >= 4 && s.get_char(i + 1) == 'g' && s.get_char(i + 2) == 't' && s.get_char(i + 3)
            == ';' {
            return char_then('>', read_decoded(s, i + 4, j));
        }
        if j - i >= 6 && s.get_char(i + 1) == 'q' && s.get_char(i + 2) == 'u' && s.get_char(i + 3)
            == 'o' && s.get_char(i + 4) == 't' && s.get_char(i + 5) == ';' {
            return char_then('"', read_decoded(s, i + 6, j));
        }
        if j - i >= 6 && s.get_char(i + 1) == 'a' && s.get_char(i + 2) == 'p' && s.get_char(i + 3)
            == 'o' && s.get_char(i + 4) == 's' && s.get_char(i + 5) == ';' {
            return char_then('\'', read_decoded(s, i + 6, j));
        }
        return char_then('&', read_decoded(s, i + 1, j));
    }
    char_then(c, read_decoded(s, i + 1, j))
}

/// A quoted attribute value starting at `i`; returns its decoded text with
/// the index just past the closing quote.
fn parse_quoted(s: &str, i: usize) -> (r: Result<(String, usize), ParseError>)
    requires
        i <= s@.len(),
    ensures
        r matches Ok(p) ==> (spec_parse_quoted(s@, i as int) == Some((p.0@, p.1 as int))
            && i + 2 <= p.1 <= s@.len()),
        r matches Err(_) ==> spec_parse_quoted(s@, i as int) is None,
{
    let n: usize = s.unicode_len();
    if i >= n {
        return Err(ParseError::NotWellFormed);
    }
    let q: char = s.get_char(i);
    if q != '"' && q != '\'' {
        return Err(ParseError::NotWellFormed);
    }
    let mut k: usize = i + 1;
    while k < n
        invariant
            n == s@.len(),
            i + 1 <= k <= n,
            find_from(s@, q, i as int + 1) == find_from(s@, q, k as int),
        ensures
            n == s@.len(),
            i + 1 <= k <= n,
            find_from(s@, q, i as int + 1) == find_from(s@, q, k as int),
            k == n || s@[k as int] == q,
        decreases n - k,
    {
        if s.get_char(k) == q {
            break;
        }
        proof {
            assert(find_from(s@, q, k as int) == find_from(s@, q, k as int + 1));
        }
        k = k + 1;
    }
    if k >= n {
        proof {
            assert(find_from(s@, q, k as int) is None);
        }
        return Err(ParseError::NotWellFormed);
    }
    proof {
        assert(find_from(s@, q, k as int) == Some(k as int));
    }
    let v: String = read_decoded(s, i + 1, k);
    Ok((v, k + 1))
}

/// The attribute list of an open tag, read from `i` up to the `>` or `/` that
/// closes it; returns the attributes with the index of that closing character.
fn parse_attrs(s: &str, i: usize) -> (r: Result<(Vec<XmlAttr>, usize), ParseError>)
    requires
        i <= s@.len(),
    ensures
        r matches Ok(p) ==> (spec_parse_attrs(s@, i as int) == Some((attrs_view(p.0@),
            p.1 as int)) && i <= p.1 && p.1 < s@.len() && (s@[p.1 as int] == '>' || s@[
            p.1 as int
        ] == '/')),
        r matches Err(_) ==> spec_parse_attrs(s@, i as int) is None,
{
    let n: usize = s.unicode_len();
    let mut attrs: Vec<XmlAttr> = Vec::new();
    let mut pos: usize = i;
    proof {
        assert(attrs_view(attrs@) =~= Seq::<(Seq<char>, Seq<char>)>::empty());
    }
    loop
        invariant
            n == s@.len(),
            i <= pos <= n,
            spec_parse_attrs(s@, i as int) == attrs_prepend(attrs_view(attrs@), spec_parse_attrs(
                s@,
                pos as int,
            )),
        decreases n - pos,
    {
        let j: usize = skip_ws(s, pos);
        if j >= n {
            proof {
                assert(spec_parse_attrs(s@, pos as int) is None);
            }
            return Err(ParseError::NotWellFormed);
        }
        let c: char = s.get_char(j);
        if c == '>' || c == '/' {
            proof {
                assert(spec_parse_attrs(s@, pos as int) == Some((Seq::<(Seq<char>,
                    Seq<char>)>::empty(), j as int)));
                assert(attrs_view(attrs@) + Seq::<(Seq<char>, Seq<char>)>::empty()
                    =~= attrs_view(attrs@));
            }
            return Ok((attrs, j));
        }
        let k: usize = scan_name(s, j);
        if k == j {
            proof {
                assert(spec_parse_attrs(s@, pos as int) is None);
            }
            return Err(ParseError::NotWellFormed);
        }
        let key: String = read_range(s, j, k);
        let m: usize = skip_ws(s, k);
        if m >= n {
            proof {
                assert(spec_parse_attrs(s@, pos as int) is None);
            }
            return Err(ParseError::NotWellFormed);
        }
        if s.get_char(m) != '=' {
            proof {
                assert(spec_parse_attrs(s@, pos as int) is None);
            }
            return Err(ParseError::NotWellFormed);
        }
        let m2: usize = skip_ws(s, m + 1);
        match parse_quoted(s, m2) {
            Err(e) => {
                proof {
                    assert(spec_parse_attrs(s@, pos as int) is None);
                }
                return Err(e);
            },
            Ok((value, p)) => {
                proof {
                    assert(spec_parse_attrs(s@, pos as int) == attrs_prepend(
                        seq![(s@.subrange(j as int, k as int), value@)],
                        spec_parse_attrs(s@, p as int),
                    ));
                }
                let ghost prev = attrs;
                attrs.push(XmlAttr { key, value });
                proof {
                    assert(attrs_view(attrs@) =~= attrs_view(prev@) + seq![(
                        s@.subrange(j as int, k as int),
                        attrs@[prev@.len() as int].value@,
                    )]);
                    if spec_parse_attrs(s@, p as int) is Some {
                        let rj = spec_parse_attrs(s@, p as int).unwrap();
                        assert(attrs_view(prev@) + (seq![(s@.subrange(j as int, k as int),
                            attrs@[prev@.len() as int].value@)] + rj.0) =~= attrs_view(attrs@)
                            + rj.0);
                    }
                }
                pos = p;
            },
        }
    }
}

/// Skips a comment, declaration or doctype starting at the `<` at `i`,
/// returning the index just past it.
fn skip_decl(s: &str, i: usize) -> (r: Option<usize>)
    requires
        i <= s@.len(),
    ensures
        r matches Some(j) ==> (spec_skip_decl(s@, i as int) == Some(j as int) && i < j <= s@.len()),
        r is None ==> spec_skip_decl(s@, i as int) is None,
{
    let n: usize = s.unicode_len();
    if n >= 4 && i < n - 3 && s.get_char(i + 1) == '!' && s.get_char(i + 2) == '-' && s.get_char(
        i + 3,
    ) == '-' {
        // a comment: it ends at the first `-->`
        let mut k: usize = i + 4;
        while k < n - 2
            invariant
                n == s@.len(),
                n >= 4,
                i + 4 <= k,
                comment_end(s@, i as int + 4) == comment_end(s@, k as int),
            ensures
                n == s@.len(),
                i + 4 <= k,
                comment_end(s@, i as int + 4) == comment_end(s@, k as int),
                k >= n - 2 || (s@[k as int] == '-' && s@[k as int + 1] == '-' && s@[k as int + 2]
                    == '>'),
            decreases n - k,
        {
            if s.get_char(k) == '-' && s.get_char(k + 1) == '-' && s.get_char(k + 2) == '>' {
                break;
            }
            proof {
                assert(comment_end(s@, k as int) == comment_end(s@, k as int + 1));
            }
            k = k + 1;
        }
        if k < n - 2 {
            proof {
                assert(comment_end(s@, k as int) == Some(k as int + 3));
            }
            Some(k + 3)
        } else {
            proof {
                assert(comment_end(s@, k as int) is None);
            }
            None
        }
    } else {
        // a declaration or doctype: it ends at the first `>`
        let mut k: usize = i;
        while k < n
            invariant
                n == s@.len(),
                i <= k <= n,
                find_from(s@, '>', i as int) == find_from(s@, '>', k as int),
            ensures
                n == s@.len(),
                i <= k <= n,
                find_from(s@, '>', i as int) == find_from(s@, '>', k as int),
                k == n || s@[k as int] == '>',
            decreases n - k,
        {
            if s.get_char(k) == '>' {
                break;
            }
            proof {
                assert(find_from(s@, '>', k as int) == find_from(s@, '>', k as int + 1));
            }
            k = k + 1;
        }
        if k < n {
            proof {
                assert(find_from(s@, '>', k as int) == Some(k as int));
            }
            Some(k + 1)
        } else {
            proof {
                assert(find_from(s@, '>', k as int) is None);
            }
            None
        }
    }
}

/// One element starting at the `<` at `i`; returns it with the index just
/// past its closing tag.
fn parse_node(s: &str, i: usize) -> (r: Result<(XmlNode, usize), ParseError>)
    requires
        i <= s@.len(),
    ensures
        r matches Ok(p) ==> (spec_parse_node(s@, i as int) == Some((node_view(p.0), p.1 as int))
            && i < p.1 <= s@.len() && p.0.name@.len() > 0),
        r matches Err(_) ==> spec_parse_node(s@, i as int) is None,
    decreases s@.len() - i, 0int,
{
    let n: usize = s.unicode_len();
    if i >= n {
        return Err(ParseError::NotWellFormed);
    }
    if s.get_char(i) != '<' {
        return Err(ParseError::NotWellFormed);
    }
    let k: usize = scan_name(s, i + 1);
    if k == i + 1 {
        return Err(ParseError::NotWellFormed);
    }
    let name: String = read_range(s, i + 1, k);
    match parse_attrs(s, k) {
        Err(e) => Err(e),
        Ok((attrs, j)) => {
            if s.get_char(j) == '/' {
                if j + 1 >= n || s.get_char(j + 1) != '>' {
                    return Err(ParseError::NotWellFormed);
                }
                let node = XmlNode { name, attrs, children: Vec::new(), text: String::new() };
                proof {
                    assert(kids_view(node.children, 0) =~= Seq::<XmlTree>::empty());
                    assert(node_view(node) == spec_parse_node(s@, i as int).unwrap().0);
                }
                return Ok((node, j + 2));
            }
            // the tag closes with `>`: read content, then the closing tag
            match parse_content(s, j + 1) {
                Err(e) => Err(e),
                Ok((children, text, j2)) => {
                    let m: usize = scan_name(s, j2 + 2);
                    let close: String = read_range(s, j2 + 2, m);
                    if !str_eq(close.as_str(), name.as_str()) {
                        return Err(ParseError::NotWellFormed);
                    }
                    let m2: usize = skip_ws(s, m);
                    if m2 >= n {
                        return Err(ParseError::NotWellFormed);
                    }
                    if s.get_char(m2) != '>' {
                        return Err(ParseError::NotWellFormed);
                    }
                    let node = XmlNode { name, attrs, children, text };
                    proof {
                        assert(node_view(node) == spec_parse_node(s@, i as int).unwrap().0);
                    }
                    Ok((node, m2 + 1))
                },
            }
        },
    }
}

/// The children and character data between an open tag and its closing tag;
/// returns them with the index of the `<` of the closing tag.
fn parse_content(s: &str, i: usize) -> (r: Result<(Vec<XmlNode>, String, usize), ParseError>)
    requires
        i <= s@.len(),
    ensures
        r matches Ok(p) ==> (spec_parse_content(s@, i as int) == Some((kids_view(p.0,
            p.0@.len() as int), p.1@, p.2 as int)) && i <= p.2 && p.2 + 1 < s@.len() && s@[
            p.2 as int
        ] == '<' && s@[p.2 as int + 1] == '/'),
        r matches Err(_) ==> spec_parse_content(s@, i as int) is None,
    decreases s@.len() - i, 1int,
{
    let n: usize = s.unicode_len();
    let mut children: Vec<XmlNode> = Vec::new();
    let mut text: String = String::new();
    let mut pos: usize = i;
    proof {
        assert(kids_view(children, 0) =~= Seq::<XmlTree>::empty());
    }
    loop
        invariant
            n == s@.len(),
            i <= pos <= n,
            spec_parse_content(s@, i as int) == content_prepend(
                kids_view(children, children@.len() as int),
                text@,
                spec_parse_content(s@, pos as int),
            ),
        decreases n - pos,
    {
        if pos >= n {
            proof {
                assert(spec_parse_content(s@, pos as int) is None);
            }
            return Err(ParseError::NotWellFormed);
        }
        let c: char = s.get_char(pos);
        if c == '<' {
            if pos + 1 < n && s.get_char(pos + 1) == '/' {
                proof {
                    assert(spec_parse_content(s@, pos as int) == Some((Seq::<XmlTree>::empty(),
                        Seq::<char>::empty(), pos as int)));
                    assert(kids_view(children, children@.len() as int) + Seq::<XmlTree>::empty()
                        =~= kids_view(children, children@.len() as int));
                    assert(text@ + Seq::<char>::empty() =~= text@);
                }
                return Ok((children, text, pos));
            }
            if pos + 1 < n && s.get_char(pos + 1) == '!' {
                match skip_decl(s, pos) {
                    None => {
                        proof {
                            assert(spec_parse_content(s@, pos as int) is None);
                        }
                        return Err(ParseError::NotWellFormed);
                    },
                    Some(p2) => {
                        proof {
                            assert(spec_parse_content(s@, pos as int) == spec_parse_content(
                                s@,
                                p2 as int,
                            ));
                        }
                        pos = p2;
                    },
                }
            } else {
                match parse_node(s, pos) {
                    Err(e) => {
                        proof {
                            assert(spec_parse_content(s@, pos as int) is None);
                        }
                        return Err(e);
                    },
                    Ok((child, p2)) => {
                        proof {
                            assert(spec_parse_content(s@, pos as int) == content_prepend(
                                seq![node_view(child)],
                                Seq::<char>::empty(),
                                spec_parse_content(s@, p2 as int),
                            ));
                        }
                        let ghost prev = children;
                        let ghost plen = children@.len() as int;
                        children.push(child);
                        proof {
                            lemma_kids_view_prefix(children, prev, plen);
                            assert(children@[plen] == child);
                            assert(kids_view(children, plen + 1) == kids_view(prev,
                                plen).push(node_view(child)));
                            if spec_parse_content(s@, p2 as int) is Some {
                                let rj = spec_parse_content(s@, p2 as int).unwrap();
                                assert(kids_view(prev, plen) + (seq![node_view(child)] + rj.0)
                                    =~= kids_view(children, plen + 1) + rj.0);
                                assert(text@ + (Seq::<char>::empty() + rj.1) =~= text@ + rj.1);
                            }
                        }
                        pos = p2;
                    },
                }
            }
        } else {
            // a run of character data, up to the next `<` or the end
            let mut e: usize = pos;
            while e < n
                invariant
                    n == s@.len(),
                    pos <= e <= n,
                    find_from(s@, '<', pos as int) == find_from(s@, '<', e as int),
                ensures
                    n == s@.len(),
                    pos <= e <= n,
                    find_from(s@, '<', pos as int) == find_from(s@, '<', e as int),
                    e == n || s@[e as int] == '<',
                decreases n - e,
            {
                if s.get_char(e) == '<' {
                    break;
                }
                proof {
                    assert(find_from(s@, '<', e as int) == find_from(s@, '<', e as int + 1));
                }
                e = e + 1;
            }
            proof {
                if e < n {
                    assert(find_from(s@, '<', e as int) == Some(e as int));
                } else {
                    assert(find_from(s@, '<', e as int) is None);
                }
                assert(e > pos);
                assert(spec_parse_content(s@, pos as int) == content_prepend(
                    Seq::<XmlTree>::empty(),
                    spec_decode_range(s@, pos as int, e as int),
                    spec_parse_content(s@, e as int),
                ));
            }
            let seg: String = read_decoded(s, pos, e);
            let ghost oldtext = text@;
            text.append(seg.as_str());
            proof {
                if spec_parse_content(s@, e as int) is Some {
                    let rj = spec_parse_content(s@, e as int).unwrap();
                    assert(oldtext + (spec_decode_range(s@, pos as int, e as int) + rj.1)
                        =~= text@ + rj.1);
                    assert(kids_view(children, children@.len() as int) + (Seq::<XmlTree>::empty()
                        + rj.0) =~= kids_view(children, children@.len() as int) + rj.0);
                }
            }
            pos = e;
        }
    }
}

/// The whole document: leading declarations, doctypes and comments, one root
/// element, and trailing whitespace. `Ok` exactly when the specification
/// parse succeeds, with its tree.
pub fn parse_document(s: &str) -> (r: Result<XmlNode, ParseError>)
    ensures
        r matches Ok(root) ==> (spec_parse_document(s@) == Some(node_view(root))
            && root.name@.len() > 0),
        r matches Err(_) ==> spec_parse_document(s@) is None,
{
    let n: usize = s.unicode_len();
    let mut pos: usize = skip_ws(s, 0);
    loop
        invariant
            n == s@.len(),
            pos <= n,
            spec_prolog(s@, ws_end(s@, 0)) == spec_prolog(s@, pos as int),
        ensures
            n == s@.len(),
            pos <= n,
            spec_prolog(s@, ws_end(s@, 0)) == Some(pos as int),
        decreases n - pos,
    {
        if pos < n && s.get_char(pos) == '<' && pos + 1 < n {
            let c2: char = s.get_char(pos + 1);
            if c2 == '?' || c2 == '!' {
                match skip_decl(s, pos) {
                    None => {
                        proof {
                            assert(spec_prolog(s@, pos as int) is None);
                        }
                        return Err(ParseError::NotWellFormed);
                    },
                    Some(p) => {
                        let w: usize = skip_ws(s, p);
                        proof {
                            assert(spec_prolog(s@, pos as int) == spec_prolog(s@, w as int));
                        }
                        pos = w;
                    },
                }
            } else {
                proof {
                    assert(spec_prolog(s@, pos as int) == Some(pos as int));
                }
                break;
            }
        } else {
            proof {
                assert(spec_prolog(s@, pos as int) == Some(pos as int));
            }
            break;
        }
    }
    match parse_node(s, pos) {
        Err(e) => Err(e),
        Ok((root, j)) => {
            let k: usize = skip_ws(s, j);
            if k < n {
                return Err(ParseError::NotWellFormed);
            }
            Ok(root)
        },
    }
}

} // verus!
