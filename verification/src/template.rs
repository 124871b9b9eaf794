//! The template language: string interpolation `{{path}}`, named partial
//! inclusion `{{>name}}`, and sections `{{#path}}...{{/path}}` driven by
//! boolean flags or by the engine's lookup functions.
//!
//! A compiled template is a flat node list; a section keeps its inner text
//! raw, because lookup functions receive it verbatim and flag-driven blocks
//! are compiled again only when their flag is present.

use vstd::prelude::*;
use vstd::string::*;
use crate::text::{spec_trim, trim_spaces};

verus! {

pub enum TplNode {
    /// Literal text between tags.
    Text(String),
    /// `{{path}}`: interpolation of the trimmed path.
    Interp(String),
    /// `{{>name}}`: inclusion of the named partial.
    Partial(String),
    /// `{{#path}}raw{{/path}}`: the trimmed path and the raw inner text.
    Section(String, String),
}

#[verifier::ext_equal]
pub enum TplNodeV {
    Text(Seq<char>),
    Interp(Seq<char>),
    Partial(Seq<char>),
    Section(Seq<char>, Seq<char>),
}

impl DeepView for TplNode {
    type V = TplNodeV;

    open spec fn deep_view(&self) -> TplNodeV {
        match self {
            TplNode::Text(t) => TplNodeV::Text(t@),
            TplNode::Interp(p) => TplNodeV::Interp(p@),
            TplNode::Partial(p) => TplNodeV::Partial(p@),
            TplNode::Section(p, raw) => TplNodeV::Section(p@, raw@),
        }
    }
}

pub struct Template {
    pub nodes: Vec<TplNode>,
}

impl DeepView for Template {
    type V = Seq<TplNodeV>;

    open spec fn deep_view(&self) -> Seq<TplNodeV> {
        self.nodes.deep_view()
    }
}

#[derive(Debug)]
pub enum TemplateError {
    /// An unterminated tag, an unmatched section close, or an unclosed
    /// section.
    Syntax,
    /// A partial name that no template index resolves.
    NoTemplate(String),
    /// Nested rendering deeper than the engine's recursion allowance:
    /// mutually recursive variant references are cut off here.
    Depth,
}

// ---------------------------------------------------------------------------
// The grammar, as specification functions
// ---------------------------------------------------------------------------

/// First index `>= from` where `a` is followed directly by `b`.
pub open spec fn find_pat(s: Seq<char>, from: int, a: char, b: char) -> Option<int>
    decreases s.len() - from,
{
    if from < 0 || from + 2 > s.len() {
        None
    } else if s[from] == a && s[from + 1] == b {
        Some(from)
    } else {
        find_pat(s, from + 1, a, b)
    }
}

pub proof fn lemma_find_pat(s: Seq<char>, from: int, a: char, b: char)
    requires
        0 <= from,
    ensures
        match find_pat(s, from, a, b) {
            Some(i) => from <= i && i + 2 <= s.len() && s[i] == a && s[i + 1] == b && forall|
                j: int,
            | #![trigger s[j]]
                from <= j < i ==> !(s[j] == a && s[j + 1] == b),
            None => forall|j: int| #![trigger s[j]]
                from <= j && j + 2 <= s.len() ==> !(s[j] == a && s[j + 1] == b),
        },
    decreases s.len() - from,
{
    if from + 2 <= s.len() && !(s[from] == a && s[from + 1] == b) {
        lemma_find_pat(s, from + 1, a, b);
    }
}

/// Scans for the close tag `{{/name}}` matching an already-open section
/// `name`, skipping over same-name sections that open in between; yields
/// the index of the close tag's `{{` and the index just past its `}}`.
pub open spec fn scan_close(s: Seq<char>, from: int, name: Seq<char>, depth: int) -> Option<
    (int, int),
>
    decreases s.len() - from,
    via scan_close_decreases
{
    match find_pat(s, from, '{', '{') {
        None => None,
        Some(i) => match find_pat(s, i + 2, '}', '}') {
            None => None,
            Some(j) => {
                let tag = s.subrange(i + 2, j);
                if tag.len() > 0 && tag[0] == '#' && spec_trim(tag.drop_first()) == name {
                    scan_close(s, j + 2, name, depth + 1)
                } else if tag.len() > 0 && tag[0] == '/' && spec_trim(tag.drop_first()) == name {
                    if depth <= 1 {
                        Some((i, j + 2))
                    } else {
                        scan_close(s, j + 2, name, depth - 1)
                    }
                } else {
                    scan_close(s, j + 2, name, depth)
                }
            }
        },
    }
}

#[via_fn]
proof fn scan_close_decreases(s: Seq<char>, from: int, name: Seq<char>, depth: int) {
    if from >= 0 {
        lemma_find_pat(s, from, '{', '{');
        match find_pat(s, from, '{', '{') {
            Some(i) => {
                lemma_find_pat(s, i + 2, '}', '}');
            }
            None => {}
        }
    } else {
        match find_pat(s, from, '{', '{') {
            Some(i) => {
                lemma_find_pat_neg(s, from, '{', '{');
            }
            None => {}
        }
    }
}

/// `find_pat` from a negative start behaves as from zero is irrelevant here:
/// a negative `from` yields `None` at once.
proof fn lemma_find_pat_neg(s: Seq<char>, from: int, a: char, b: char)
    requires
        from < 0,
    ensures
        find_pat(s, from, a, b) is None,
{
}

pub proof fn lemma_scan_close_bounds(s: Seq<char>, from: int, name: Seq<char>, depth: int)
    requires
        0 <= from,
    ensures
        match scan_close(s, from, name, depth) {
            Some(pair) => from <= pair.0 && pair.0 + 4 <= pair.1 <= s.len(),
            None => true,
        },
    decreases s.len() - from,
{
    lemma_find_pat(s, from, '{', '{');
    match find_pat(s, from, '{', '{') {
        None => {}
        Some(i) => {
            lemma_find_pat(s, i + 2, '}', '}');
            match find_pat(s, i + 2, '}', '}') {
                None => {}
                Some(j) => {
                    let tag = s.subrange(i + 2, j);
                    if tag.len() > 0 && tag[0] == '#' && spec_trim(tag.drop_first()) == name {
                        lemma_scan_close_bounds(s, j + 2, name, depth + 1);
                    } else if tag.len() > 0 && tag[0] == '/' && spec_trim(tag.drop_first())
                        == name {
                        if depth > 1 {
                            lemma_scan_close_bounds(s, j + 2, name, depth - 1);
                        }
                    } else {
                        lemma_scan_close_bounds(s, j + 2, name, depth);
                    }
                }
            }
        }
    }
}

/// The template grammar: the node list parsed from `s` starting at `pos`,
/// or `None` on an unterminated tag, an unmatched close, or an unclosed
/// section.
pub open spec fn parse_tpl(s: Seq<char>, pos: int) -> Option<Seq<TplNodeV>>
    decreases s.len() - pos,
    via parse_tpl_decreases
{
    match find_pat(s, pos, '{', '{') {
        None => {
            if pos < s.len() {
                Some(seq![TplNodeV::Text(s.subrange(pos, s.len() as int))])
            } else {
                Some(Seq::empty())
            }
        }
        Some(i) => {
            let pre: Seq<TplNodeV> = if i > pos {
                seq![TplNodeV::Text(s.subrange(pos, i))]
            } else {
                Seq::empty()
            };
            match find_pat(s, i + 2, '}', '}') {
                None => None,
                Some(j) => {
                    let tag = s.subrange(i + 2, j);
                    if tag.len() > 0 && tag[0] == '#' {
                        let name = spec_trim(tag.drop_first());
                        match scan_close(s, j + 2, name, 1) {
                            None => None,
                            Some(pair) => match parse_tpl(s, pair.1) {
                                None => None,
                                Some(rest) => Some(
                                    pre + seq![
                                        TplNodeV::Section(name, s.subrange(j + 2, pair.0)),
                                    ] + rest,
                                ),
                            },
                        }
                    } else if tag.len() > 0 && tag[0] == '/' {
                        None
                    } else if tag.len() > 0 && tag[0] == '>' {
                        match parse_tpl(s, j + 2) {
                            None => None,
                            Some(rest) => Some(
                                pre + seq![TplNodeV::Partial(spec_trim(tag.drop_first()))] + rest,
                            ),
                        }
                    } else {
                        match parse_tpl(s, j + 2) {
                            None => None,
                            Some(rest) => Some(pre + seq![TplNodeV::Interp(spec_trim(tag))] + rest),
                        }
                    }
                }
            }
        }
    }
}

#[via_fn]
proof fn parse_tpl_decreases(s: Seq<char>, pos: int) {
    if pos >= 0 {
        lemma_find_pat(s, pos, '{', '{');
        match find_pat(s, pos, '{', '{') {
            Some(i) => {
                lemma_find_pat(s, i + 2, '}', '}');
                match find_pat(s, i + 2, '}', '}') {
                    Some(j) => {
                        let tag = s.subrange(i + 2, j);
                        if tag.len() > 0 && tag[0] == '#' {
                            let name = spec_trim(tag.drop_first());
                            lemma_scan_close_bounds(s, j + 2, name, 1);
                        }
                    }
                    None => {}
                }
            }
            None => {}
        }
    } else {
        lemma_find_pat_neg(s, pos, '{', '{');
    }
}

// ---------------------------------------------------------------------------
// The compiler
// ---------------------------------------------------------------------------

/// First occurrence of the two-character pattern `ab` at or after `from`.
fn find_pat_exec(s: &str, from: usize, a: char, b: char) -> (r: Option<usize>)
    requires
        from <= s@.len(),
    ensures
        match r {
            Some(i) => find_pat(s@, from as int, a, b) == Some(i as int),
            None => find_pat(s@, from as int, a, b) is None,
        },
{
    let len = s.unicode_len();
    if len < 2 {
        proof {
            lemma_find_pat(s@, from as int, a, b);
        }
        return None;
    }
    let mut i: usize = from;
    while i < len - 1
        invariant
            from <= i,
            i <= len,
            2 <= len == s@.len(),
            find_pat(s@, from as int, a, b) == find_pat(s@, i as int, a, b),
        decreases len - i,
    {
        if s.get_char(i) == a && s.get_char(i + 1) == b {
            return Some(i);
        }
        i += 1;
    }
    None
}

/// Compiles template text into its node list; `Err` exactly where the
/// grammar refuses the text.
pub fn compile_str(src: &str) -> (r: Result<Template, TemplateError>)
    ensures
        match r {
            Ok(t) => parse_tpl(src@, 0) == Some(t.deep_view()),
            Err(_) => parse_tpl(src@, 0) is None,
        },
{
    match compile_at(src, 0) {
        Ok(nodes) => Ok(Template { nodes }),
        Err(e) => Err(e),
    }
}

fn compile_at(src: &str, pos: usize) -> (r: Result<Vec<TplNode>, TemplateError>)
    requires
        pos <= src@.len(),
    ensures
        match r {
            Ok(nodes) => parse_tpl(src@, pos as int) == Some(nodes.deep_view()),
            Err(_) => parse_tpl(src@, pos as int) is None,
        },
    decreases src@.len() - pos,
{
    let len = src.unicode_len();
    match find_pat_exec(src, pos, '{', '{') {
        None => {
            let mut nodes: Vec<TplNode> = Vec::new();
            if pos < len {
                nodes.push(TplNode::Text(src.substring_char(pos, len).to_owned()));
            }
            proof {
                assert(nodes.deep_view() =~= parse_tpl(src@, pos as int).unwrap());
            }
            Ok(nodes)
        }
        Some(i) => {
            proof {
                lemma_find_pat(src@, pos as int, '{', '{');
            }
            match find_pat_exec(src, i + 2, '}', '}') {
                None => Err(TemplateError::Syntax),
                Some(j) => {
                    proof {
                        lemma_find_pat(src@, i + 2, '}', '}');
                    }
                    let tag = src.substring_char(i + 2, j);
                    let ghost tagv = src@.subrange(i + 2, j as int);
                    proof {
                        assert(tag@ == tagv);
                    }
                    let taglen = tag.unicode_len();
                    if taglen > 0 && tag.get_char(0) == '#' {
                        let name = trim_spaces(tag.substring_char(1, taglen));
                        proof {
                            assert(tag@.subrange(1, tag@.len() as int) =~= tagv.drop_first());
                            assert(name@ == spec_trim(tagv.drop_first()));
                        }
                        match scan_close_exec(src, j + 2, name.as_str()) {
                            None => Err(TemplateError::Syntax),
                            Some(pair) => {
                                proof {
                                    lemma_scan_close_bounds(src@, j + 2, name@, 1);
                                }
                                let raw = src.substring_char(j + 2, pair.0).to_owned();
                                let rest = compile_at(src, pair.1)?;
                                let nodes = prepend_nodes(
                                    src,
                                    pos,
                                    i,
                                    TplNode::Section(name, raw),
                                    rest,
                                );
                                proof {
                                    assert(nodes.deep_view() =~= parse_tpl(
                                        src@,
                                        pos as int,
                                    ).unwrap());
                                }
                                Ok(nodes)
                            }
                        }
                    } else if taglen > 0 && tag.get_char(0) == '/' {
                        Err(TemplateError::Syntax)
                    } else if taglen > 0 && tag.get_char(0) == '>' {
                        let name = trim_spaces(tag.substring_char(1, taglen));
                        proof {
                            assert(tag@.subrange(1, tag@.len() as int) =~= tagv.drop_first());
                            assert(name@ == spec_trim(tagv.drop_first()));
                        }
                        let rest = compile_at(src, j + 2)?;
                        let nodes = prepend_nodes(src, pos, i, TplNode::Partial(name), rest);
                        proof {
                            assert(nodes.deep_view() =~= parse_tpl(src@, pos as int).unwrap());
                        }
                        Ok(nodes)
                    } else {
                        let name = trim_spaces(tag);
                        let rest = compile_at(src, j + 2)?;
                        let nodes = prepend_nodes(src, pos, i, TplNode::Interp(name), rest);
                        proof {
                            assert(nodes.deep_view() =~= parse_tpl(src@, pos as int).unwrap());
                        }
                        Ok(nodes)
                    }
                }
            }
        }
    }
}

/// `[text(src[pos..i]) if nonempty, node] + rest`.
fn prepend_nodes(src: &str, pos: usize, i: usize, node: TplNode, rest: Vec<TplNode>) -> (r: Vec<
    TplNode,
>)
    requires
        pos <= i,
        i <= src@.len(),
    ensures
        r.deep_view() == (if i > pos {
            seq![TplNodeV::Text(src@.subrange(pos as int, i as int))]
        } else {
            Seq::<TplNodeV>::empty()
        }) + seq![node.deep_view()] + rest.deep_view(),
{
    let mut nodes: Vec<TplNode> = Vec::new();
    if i > pos {
        nodes.push(TplNode::Text(src.substring_char(pos, i).to_owned()));
    }
    nodes.push(node);
    let mut rest = rest;
    let ghost restv = rest.deep_view();
    let ghost prev = nodes.deep_view();
    while rest.len() > 0
        invariant
            rest@.len() <= restv.len(),
            nodes.deep_view() =~= prev + restv.take(restv.len() - rest@.len()),
            rest.deep_view() =~= restv.skip(restv.len() - rest@.len()),
        decreases rest@.len(),
    {
        let ghost k = restv.len() - rest@.len();
        let ghost pre_dv = rest.deep_view();
        let ghost nv = nodes.deep_view();
        let nd = rest.remove(0);
        proof {
            assert(rest.deep_view() =~= pre_dv.drop_first());
            assert(nd.deep_view() == pre_dv.first());
            assert(pre_dv.first() == restv[k]);
            assert(rest.deep_view() =~= restv.skip(k + 1));
        }
        nodes.push(nd);
        proof {
            assert(nodes.deep_view() =~= nv.push(restv[k]));
            assert(nodes.deep_view() =~= prev + restv.take(k + 1));
        }
    }
    proof {
        assert(restv.take(restv.len() - rest@.len()) =~= restv);
        assert(nodes.deep_view() =~= prev + restv);
    }
    nodes
}

/// Finds the close tag matching an open section `name`, by the same scan
/// the grammar defines.
fn scan_close_exec(src: &str, from: usize, name: &str) -> (r: Option<(usize, usize)>)
    requires
        from <= src@.len(),
    ensures
        match r {
            Some(pair) => scan_close(src@, from as int, name@, 1) == Some(
                (pair.0 as int, pair.1 as int),
            ) && pair.1 <= src@.len(),
            None => scan_close(src@, from as int, name@, 1) is None,
        },
{
    let len = src.unicode_len();
    let mut pos: usize = from;
    let mut depth: usize = 1;
    loop
        invariant
            from <= pos <= len,
            len == src@.len(),
            depth >= 1,
            4 * depth <= pos - from + 4,
            scan_close(src@, from as int, name@, 1) == scan_close(
                src@,
                pos as int,
                name@,
                depth as int,
            ),
        decreases len - pos,
    {
        match find_pat_exec(src, pos, '{', '{') {
            None => {
                return None;
            }
            Some(i) => {
                proof {
                    lemma_find_pat(src@, pos as int, '{', '{');
                }
                match find_pat_exec(src, i + 2, '}', '}') {
                    None => {
                        return None;
                    }
                    Some(j) => {
                        proof {
                            lemma_find_pat(src@, i + 2, '}', '}');
                        }
                        let tag = src.substring_char(i + 2, j);
                        let ghost tagv = src@.subrange(i + 2, j as int);
                        let taglen = tag.unicode_len();
                        if taglen > 0 && tag.get_char(0) == '#' {
                            let inner = trim_spaces(tag.substring_char(1, taglen));
                            proof {
                                assert(tag@.subrange(1, tag@.len() as int) =~= tagv.drop_first());
                            }
                            if crate::text::str_eq(inner.as_str(), name) {
                                proof {
                                    assert(depth < usize::MAX);
                                }
                                depth = depth + 1;
                                pos = j + 2;
                            } else {
                                pos = j + 2;
                            }
                        } else if taglen > 0 && tag.get_char(0) == '/' {
                            let inner = trim_spaces(tag.substring_char(1, taglen));
                            proof {
                                assert(tag@.subrange(1, tag@.len() as int) =~= tagv.drop_first());
                            }
                            if crate::text::str_eq(inner.as_str(), name) {
                                if depth == 1 {
                                    return Some((i, j + 2));
                                }
                                depth = depth - 1;
                                pos = j + 2;
                            } else {
                                pos = j + 2;
                            }
                        } else {
                            pos = j + 2;
                        }
                    }
                }
            }
        }
    }
}

} // verus!
