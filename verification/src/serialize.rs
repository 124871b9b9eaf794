//! Turning a document back into text.
//!
//! The output format is pinned exactly by `elem_text` in the model module:
//! deterministic, two-space indented, no document-type header.

use vstd::prelude::*;
use vstd::string::*;
use crate::xml::{
    Elem, Node, attrs_text, children_text, deeper, elem_text, esc_attr, esc_text, indent_of,
    lemma_nodes_view_index, lemma_nodes_view_len, node_text, nodes_view,
};

verus! {

broadcast use {
    vstd::std_specs::vec::group_vec_axioms,
    lemma_nodes_view_len,
    lemma_nodes_view_index,
};

fn write_indent(out: &mut String, depth: u64)
    ensures
        final(out)@ == old(out)@ + indent_of(depth as nat),
{
    let mut i: u64 = 0;
    while i < depth
        invariant
            0 <= i <= depth,
            out@ == old(out)@ + indent_of(i as nat),
        decreases depth - i,
    {
        out.append("  ");
        proof {
            reveal_strlit("  ");
            assert("  "@ =~= seq![' ', ' ']);
            assert(out@ =~= old(out)@ + indent_of((i + 1) as nat));
        }
        i += 1;
    }
}

/// Appends `s` with the five XML entities substituted; `attr_mode` decides
/// whether quotes are escaped too.
pub(crate) fn write_escaped(out: &mut String, s: &str, attr_mode: bool)
    ensures
        final(out)@ == old(out)@ + if attr_mode {
            esc_attr(s@)
        } else {
            esc_text(s@)
        },
{
    proof {
        reveal_strlit("&amp;");
        reveal_strlit("&lt;");
        reveal_strlit("&gt;");
        reveal_strlit("&quot;");
        reveal_strlit("&apos;");
        assert("&amp;"@ =~= seq!['&', 'a', 'm', 'p', ';']);
        assert("&lt;"@ =~= seq!['&', 'l', 't', ';']);
        assert("&gt;"@ =~= seq!['&', 'g', 't', ';']);
        assert("&quot;"@ =~= seq!['&', 'q', 'u', 'o', 't', ';']);
        assert("&apos;"@ =~= seq!['&', 'a', 'p', 'o', 's', ';']);
    }
    let len = s.unicode_len();
    let mut i: usize = 0;
    while i < len
        invariant
            0 <= i <= len,
            len == s@.len(),
            "&amp;"@ =~= seq!['&', 'a', 'm', 'p', ';'],
            "&lt;"@ =~= seq!['&', 'l', 't', ';'],
            "&gt;"@ =~= seq!['&', 'g', 't', ';'],
            "&quot;"@ =~= seq!['&', 'q', 'u', 'o', 't', ';'],
            "&apos;"@ =~= seq!['&', 'a', 'p', 'o', 's', ';'],
            out@ == old(out)@ + if attr_mode {
                esc_attr(s@.take(i as int))
            } else {
                esc_text(s@.take(i as int))
            },
        decreases len - i,
    {
        let c = s.get_char(i);
        if c == '&' {
            out.append("&amp;");
        } else if c == '<' {
            out.append("&lt;");
        } else if c == '>' {
            out.append("&gt;");
        } else if attr_mode && c == '"' {
            out.append("&quot;");
        } else if attr_mode && c == '\'' {
            out.append("&apos;");
        } else {
            let piece = s.substring_char(i, i + 1);
            proof {
                assert(piece@ =~= seq![c]);
            }
            out.append(piece);
        }
        proof {
            assert(s@.take(i as int + 1).drop_last() =~= s@.take(i as int));
            assert(s@.take(i as int + 1).last() == c);
            if attr_mode {
                assert(out@ =~= old(out)@ + esc_attr(s@.take(i as int + 1)));
            } else {
                assert(out@ =~= old(out)@ + esc_text(s@.take(i as int + 1)));
            }
        }
        i += 1;
    }
    proof {
        assert(s@.take(len as int) =~= s@);
    }
}

fn write_attrs(out: &mut String, attrs: &Vec<(String, String)>)
    ensures
        final(out)@ == old(out)@ + attrs_text(attrs.deep_view()),
{
    proof {
        reveal_strlit(" ");
        reveal_strlit("=\"");
        reveal_strlit("\"");
        assert(" "@ =~= seq![' ']);
        assert("=\""@ =~= seq!['=', '"']);
        assert("\""@ =~= seq!['"']);
    }
    let n = attrs.len();
    let mut i: usize = 0;
    while i < n
        invariant
            0 <= i <= n,
            n == attrs@.len(),
            " "@ =~= seq![' '],
            "=\""@ =~= seq!['=', '"'],
            "\""@ =~= seq!['"'],
            out@ == old(out)@ + attrs_text(attrs.deep_view().take(i as int)),
        decreases n - i,
    {
        out.append(" ");
        out.append(attrs[i].0.as_str());
        out.append("=\"");
        write_escaped(out, attrs[i].1.as_str(), true);
        out.append("\"");
        proof {
            let dv = attrs.deep_view();
            assert(dv[i as int] == (attrs@[i as int].0@, attrs@[i as int].1@));
            assert(dv.take(i as int + 1).drop_last() =~= dv.take(i as int));
            assert(dv.take(i as int + 1).last() == dv[i as int]);
            assert(out@ =~= old(out)@ + attrs_text(dv.take(i as int + 1)));
        }
        i += 1;
    }
    proof {
        assert(attrs.deep_view().take(n as int) =~= attrs.deep_view());
    }
}

fn write_elem(out: &mut String, e: &Elem, depth: u64)
    ensures
        final(out)@ == old(out)@ + elem_text(e.deep_view(), depth as nat),
    decreases *e,
{
    proof {
        reveal_strlit("<");
        reveal_strlit("/>\n");
        reveal_strlit(">\n");
        reveal_strlit("</");
        reveal_strlit(">");
        reveal_strlit("\n");
        assert("<"@ =~= seq!['<']);
        assert("/>\n"@ =~= seq!['/', '>', '\n']);
        assert(">\n"@ =~= seq!['>', '\n']);
        assert("</"@ =~= seq!['<', '/']);
        assert(">"@ =~= seq!['>']);
        assert("\n"@ =~= seq!['\n']);
    }
    write_indent(out, depth);
    out.append("<");
    out.append(e.name.as_str());
    write_attrs(out, &e.attributes);
    if e.children.len() == 0 {
        out.append("/>\n");
        proof {
            assert(out@ =~= old(out)@ + elem_text(e.deep_view(), depth as nat));
        }
    } else {
        out.append(">\n");
        let d2 = if depth >= 64 {
            depth
        } else {
            depth + 1
        };
        proof {
            assert(d2 as nat == deeper(depth as nat));
        }
        let ghost mid = out@;
        let n = e.children.len();
        let mut i: usize = 0;
        while i < n
            invariant
                0 <= i <= n,
                n == e.children@.len(),
                d2 as nat == deeper(depth as nat),
                out@ == mid + children_text(nodes_view(e.children@).take(i as int), d2 as nat),
            decreases n - i,
        {
            write_node(out, &e.children[i], d2);
            proof {
                let cv = nodes_view(e.children@);
                assert(cv.take(i as int + 1).drop_last() =~= cv.take(i as int));
                assert(cv.take(i as int + 1).last() == node_view_of(e.children@[i as int]));
                assert(out@ =~= mid + children_text(cv.take(i as int + 1), d2 as nat));
            }
            i += 1;
        }
        proof {
            let cv = nodes_view(e.children@);
            assert(cv.take(n as int) =~= cv);
        }
        write_indent(out, depth);
        out.append("</");
        out.append(e.name.as_str());
        out.append(">\n");
        proof {
            assert(out@ =~= old(out)@ + elem_text(e.deep_view(), depth as nat));
        }
    }
}

/// Alias so the proof above can speak of a node's view tersely.
spec fn node_view_of(n: Node) -> crate::xml::NodeV {
    crate::xml::node_view(n)
}

fn write_node(out: &mut String, n: &Node, depth: u64)
    ensures
        final(out)@ == old(out)@ + node_text(n.deep_view(), depth as nat),
    decreases *n,
{
    match n {
        Node::Element(e) => {
            write_elem(out, e, depth);
        }
        Node::Text(t) => {
            proof {
                reveal_strlit("\n");
                assert("\n"@ =~= seq!['\n']);
            }
            write_indent(out, depth);
            write_escaped(out, t.as_str(), false);
            out.append("\n");
            proof {
                assert(out@ =~= old(out)@ + node_text(n.deep_view(), depth as nat));
            }
        }
        Node::Comment(c) => {
            proof {
                reveal_strlit("<!--");
                reveal_strlit("-->\n");
                assert("<!--"@ =~= seq!['<', '!', '-', '-']);
                assert("-->\n"@ =~= seq!['-', '-', '>', '\n']);
            }
            write_indent(out, depth);
            out.append("<!--");
            out.append(c.as_str());
            out.append("-->\n");
            proof {
                assert(out@ =~= old(out)@ + node_text(n.deep_view(), depth as nat));
            }
        }
        Node::CData(c) => {
            proof {
                reveal_strlit("<![CDATA[");
                reveal_strlit("]]>\n");
                assert("<![CDATA["@ =~= seq!['<', '!', '[', 'C', 'D', 'A', 'T', 'A', '[']);
                assert("]]>\n"@ =~= seq![']', ']', '>', '\n']);
            }
            write_indent(out, depth);
            out.append("<![CDATA[");
            out.append(c.as_str());
            out.append("]]>\n");
            proof {
                assert(out@ =~= old(out)@ + node_text(n.deep_view(), depth as nat));
            }
        }
        Node::Instruction(name, data) => {
            proof {
                reveal_strlit("<?");
                reveal_strlit(" ");
                reveal_strlit("?>\n");
                assert("<?"@ =~= seq!['<', '?']);
                assert(" "@ =~= seq![' ']);
                assert("?>\n"@ =~= seq!['?', '>', '\n']);
            }
            write_indent(out, depth);
            out.append("<?");
            out.append(name.as_str());
            match data {
                Some(d) => {
                    out.append(" ");
                    out.append(d.as_str());
                }
                None => {}
            }
            out.append("?>\n");
            proof {
                assert(out@ =~= old(out)@ + node_text(n.deep_view(), depth as nat));
            }
        }
    }
}

/// Serializes a document: deterministic, indented, no document-type header.
pub fn xml_to_string(element: &Elem) -> (r: String)
    ensures
        r@ == elem_text(element.deep_view(), 0),
{
    let mut out = String::new();
    write_elem(&mut out, element, 0);
    proof {
        assert(out@ =~= elem_text(element.deep_view(), 0));
    }
    out
}

} // verus!
