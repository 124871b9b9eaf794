//! Splitting an SVG `transform` attribute into `(instruction, arguments)`
//! pairs: instructions are read at parenthesis depth zero, arguments inside
//! the parentheses, nested parentheses kept verbatim.

use vstd::prelude::*;
use vstd::string::*;

verus! {

/// Net parenthesis depth after the first `i` characters.
pub open spec fn depth_at(s: Seq<char>, i: int) -> int
    decreases i,
{
    if i <= 0 {
        0
    } else {
        depth_at(s, i - 1) + (if s[i - 1] == '(' {
            1int
        } else if s[i - 1] == ')' {
            -1int
        } else {
            0int
        })
    }
}

/// The scan, one character at a time, carrying the pair being built and the
/// pairs already emitted; the final pair is emitted when the text ends.
pub open spec fn scan_transform(
    s: Seq<char>,
    i: int,
    instr: Seq<char>,
    args: Seq<char>,
    depth: int,
    acc: Seq<(Seq<char>, Seq<char>)>,
) -> Seq<(Seq<char>, Seq<char>)>
    decreases s.len() - i,
{
    if i < 0 || i >= s.len() {
        acc.push((instr, args))
    } else {
        let c = s[i];
        if c == '(' {
            if depth + 1 > 1 {
                scan_transform(s, i + 1, instr, args.push(c), depth + 1, acc)
            } else {
                scan_transform(s, i + 1, instr, args, depth + 1, acc)
            }
        } else if c == ')' {
            if depth - 1 >= 1 {
                scan_transform(s, i + 1, instr, args.push(c), depth - 1, acc)
            } else {
                scan_transform(s, i + 1, instr, args, depth - 1, acc)
            }
        } else if c == ' ' {
            if depth == 0 {
                scan_transform(s, i + 1, Seq::empty(), Seq::empty(), depth, acc.push(
                    (instr, args),
                ))
            } else {
                scan_transform(s, i + 1, instr, args.push(c), depth, acc)
            }
        } else {
            if depth == 0 {
                scan_transform(s, i + 1, instr.push(c), args, depth, acc)
            } else {
                scan_transform(s, i + 1, instr, args.push(c), depth, acc)
            }
        }
    }
}

pub open spec fn spec_parse_transform(s: Seq<char>) -> Seq<(Seq<char>, Seq<char>)> {
    scan_transform(s, 0, Seq::empty(), Seq::empty(), 0, Seq::empty())
}

/// Splits a `transform` attribute into `(instruction, arguments)` pairs.
/// The text's parentheses must never close below depth zero.
pub fn parse_transform(raw: &str) -> (r: Vec<(String, String)>)
    requires
        forall|i: int| 0 <= i <= raw@.len() ==> depth_at(raw@, i) >= 0,
    ensures
        r.deep_view() == spec_parse_transform(raw@),
{
    let len = raw.unicode_len();
    let mut res: Vec<(String, String)> = Vec::new();
    let mut instruction = String::new();
    let mut args = String::new();
    let mut depth: u64 = 0;
    let mut i: usize = 0;
    proof {
        assert(res.deep_view() =~= Seq::<(Seq<char>, Seq<char>)>::empty());
        assert(instruction@ =~= Seq::<char>::empty());
        assert(args@ =~= Seq::<char>::empty());
    }
    while i < len
        invariant
            0 <= i <= len,
            len == raw@.len(),
            forall|j: int| 0 <= j <= raw@.len() ==> depth_at(raw@, j) >= 0,
            depth == depth_at(raw@, i as int),
            depth <= i,
            spec_parse_transform(raw@) == scan_transform(
                raw@,
                i as int,
                instruction@,
                args@,
                depth as int,
                res.deep_view(),
            ),
        decreases len - i,
    {
        let c = raw.get_char(i);
        let piece = raw.substring_char(i, i + 1);
        let ghost gi = instruction@;
        let ghost ga = args@;
        let ghost gd = depth as int;
        let ghost gacc = res.deep_view();
        proof {
            assert(piece@ =~= seq![c]);
            assert(depth_at(raw@, i as int + 1) >= 0);
        }
        if c == '(' {
            depth = depth + 1;
            if depth > 1 {
                args.append(piece);
                proof {
                    assert(args@ =~= ga.push(c));
                }
            }
        } else if c == ')' {
            proof {
                assert(depth_at(raw@, i as int + 1) == depth - 1);
            }
            depth = depth - 1;
            if depth >= 1 {
                args.append(piece);
                proof {
                    assert(args@ =~= ga.push(c));
                }
            }
        } else if c == ' ' {
            if depth == 0 {
                let done_instr = instruction;
                let done_args = args;
                instruction = String::new();
                args = String::new();
                let ghost pre = res.deep_view();
                res.push((done_instr, done_args));
                proof {
                    assert(res.deep_view() =~= pre.push((gi, ga)));
                    assert(instruction@ =~= Seq::<char>::empty());
                    assert(args@ =~= Seq::<char>::empty());
                }
            } else {
                args.append(piece);
                proof {
                    assert(args@ =~= ga.push(c));
                }
            }
        } else {
            if depth == 0 {
                instruction.append(piece);
                proof {
                    assert(instruction@ =~= gi.push(c));
                }
            } else {
                args.append(piece);
                proof {
                    assert(args@ =~= ga.push(c));
                }
            }
        }
        proof {
            assert(scan_transform(raw@, i as int, gi, ga, gd, gacc) == scan_transform(
                raw@,
                i as int + 1,
                instruction@,
                args@,
                depth as int,
                res.deep_view(),
            ));
        }
        i += 1;
    }
    let ghost pre = res.deep_view();
    let ghost gi = instruction@;
    let ghost ga = args@;
    res.push((instruction, args));
    proof {
        assert(res.deep_view() =~= pre.push((gi, ga)));
    }
    res
}

} // verus!
