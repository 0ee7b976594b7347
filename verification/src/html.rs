//! The tree builder: a recursive-descent parser over a character buffer,
//! with the close-tag recovery protocol, the attribute scanner, and the
//! bogus-comment recovery scanner.
//!
//! Each executable step has a specification-level mirror (`sp_*`) that
//! defines, character by character, what the step consumes and what it
//! produces; the executable functions are proved to return exactly what
//! the mirror says, on every input.

use vstd::prelude::*;
use vstd::string::StringExecFns;

use crate::chars::CharClass;
use crate::chars::in_class;
use crate::dom::AttrMap;
use crate::dom::ElementData;
use crate::dom::Node;
use crate::dom::NodeType;
use crate::dom::forest_view;
use crate::dom::node_view;
use crate::dom::strings_view;
use crate::model::ElementView;
use crate::model::NodeTypeView;
use crate::model::NodeView;
use crate::scan::consume_while;
use crate::scan::lemma_run_end;
use crate::scan::lemma_run_end_step;
use crate::scan::run_end;
use crate::strutil::lower_of;
use crate::strutil::to_lowercase_str;

verus! {

/// Mirror of the text scanner: starting at `i` with `acc` already
/// collected, it alternates whitespace runs (collapsed to one space each)
/// and plain runs (kept verbatim) until `<` or the end of the buffer, and
/// returns the collected text and the stop position.
pub open spec fn sp_text(s: Seq<char>, i: int, acc: Seq<char>) -> (Seq<char>, int)
    decreases s.len() - i,
        when 0 <= i <= s.len()
{
    if i >= s.len() || s[i] == '<' {
        (acc, i)
    } else {
        let j = run_end(s, i, CharClass::Space);
        let k = run_end(s, j, CharClass::Text);
        let acc2 = (if j > i {
            acc + seq![' ']
        } else {
            acc
        }) + s.subrange(j, k);
        proof {
            lemma_run_end(s, i, CharClass::Space);
            lemma_run_end(s, run_end(s, i, CharClass::Space), CharClass::Text);
            if run_end(s, i, CharClass::Space) == i {
                lemma_run_end_step(s, i, CharClass::Text);
            }
        }
        sp_text(s, k, acc2)
    }
}

/// The text scanner only moves forward and stays in bounds.
pub proof fn lemma_sp_text_bounds(s: Seq<char>, i: int, acc: Seq<char>)
    requires
        0 <= i <= s.len(),
    ensures
        i <= sp_text(s, i, acc).1 <= s.len(),
    decreases s.len() - i,
{
    if !(i >= s.len() || s[i] == '<') {
        let j = run_end(s, i, CharClass::Space);
        let k = run_end(s, j, CharClass::Text);
        lemma_run_end(s, i, CharClass::Space);
        lemma_run_end(s, j, CharClass::Text);
        let acc2 = (if j > i {
            acc + seq![' ']
        } else {
            acc
        }) + s.subrange(j, k);
        lemma_sp_text_bounds(s, k, acc2);
    }
}

/// Scans a text run: consecutive characters up to the next `<`, with each
/// interior whitespace run collapsed to a single space.
pub fn parse_text_node(input: &Vec<char>, pos: usize) -> (r: (Node, usize))
    requires
        pos <= input@.len(),
    ensures
        ({
            let (t, e) = sp_text(input@, pos as int, Seq::empty());
            &&& r.0@ == (NodeView {
                node_type: NodeTypeView::Text(t),
                children: Seq::<NodeView>::empty(),
            })
            &&& r.1 == e
            &&& pos <= e <= input@.len()
        }),
{
    let ghost s = input@;
    let mut content = String::new();
    let mut j: usize = pos;
    proof {
        lemma_sp_text_bounds(s, pos as int, Seq::empty());
    }
    while j < input.len() && input[j] != '<'
        invariant
            pos <= j <= s.len(),
            input@ == s,
            sp_text(s, pos as int, Seq::empty()) == sp_text(s, j as int, content@),
        decreases s.len() - j,
    {
        let ghost acc = content@;
        let ghost j0 = j as int;
        let (_ws, j2) = consume_while(input, j, CharClass::Space);
        if j2 > j {
            content.append(" ");
            proof {
                reveal_strlit(" ");
                assert(content@ =~= acc + seq![' ']);
            }
        }
        let (piece, j3) = consume_while(input, j2, CharClass::Text);
        content.append(piece.as_str());
        j = j3;
        proof {
            lemma_run_end(s, j0, CharClass::Space);
            lemma_run_end(s, j2 as int, CharClass::Text);
            if j2 == j0 {
                lemma_run_end_step(s, j0, CharClass::Text);
            }
            assert(sp_text(s, j0, acc) == sp_text(s, j as int, content@));
        }
    }
    proof {
        assert(sp_text(s, j as int, content@) == (content@, j as int));
    }
    let node = Node::new(NodeType::Text(content), Vec::new());
    proof {
        assert(crate::dom::forest_view(Seq::<Node>::empty()) =~= Seq::<NodeView>::empty());
    }
    (node, j)
}

/// Mirror of the attribute-value scanner: after optional whitespace, a
/// quoted value runs verbatim to the matching quote (which is discarded),
/// an unquoted one to the first delimiter.
pub open spec fn sp_attr_value(s: Seq<char>, i: int) -> (Seq<char>, int) {
    let j = run_end(s, i, CharClass::Space);
    if j < s.len() && (s[j] == '"' || s[j] == '\'') {
        let k = run_end(s, j + 1, CharClass::Until(s[j]));
        (s.subrange(j + 1, k), if k < s.len() {
            k + 1
        } else {
            k
        })
    } else {
        let k = run_end(s, j, CharClass::AttrValue);
        (s.subrange(j, k), k)
    }
}

/// The attribute-value scanner only moves forward and stays in bounds.
pub proof fn lemma_sp_attr_value_bounds(s: Seq<char>, i: int)
    requires
        0 <= i <= s.len(),
    ensures
        i <= sp_attr_value(s, i).1 <= s.len(),
{
    let j = run_end(s, i, CharClass::Space);
    lemma_run_end(s, i, CharClass::Space);
    if j < s.len() && (s[j] == '"' || s[j] == '\'') {
        lemma_run_end(s, j + 1, CharClass::Until(s[j]));
    } else {
        lemma_run_end(s, j, CharClass::AttrValue);
    }
}

/// Reads one attribute value: quoted (up to the matching quote, verbatim,
/// quote discarded) or unquoted (up to the first delimiter).
pub fn parse_attr_value(input: &Vec<char>, pos: usize) -> (r: (String, usize))
    requires
        pos <= input@.len(),
    ensures
        r.0@ == sp_attr_value(input@, pos as int).0,
        r.1 == sp_attr_value(input@, pos as int).1,
        pos <= r.1 <= input@.len(),
{
    let ghost s = input@;
    proof {
        lemma_sp_attr_value_bounds(s, pos as int);
    }
    let (_ws, j) = consume_while(input, pos, CharClass::Space);
    if j < input.len() && (input[j] == '"' || input[j] == '\'') {
        let quote = input[j];
        let (value, k) = consume_while(input, j + 1, CharClass::Until(quote));
        if k < input.len() {
            (value, k + 1)
        } else {
            (value, k)
        }
    } else {
        let (value, k) = consume_while(input, j, CharClass::AttrValue);
        (value, k)
    }
}

/// Mirror of the attribute loop: with mapping `m` collected, it scans
/// name, optional `=` and value, lower-cases the name and writes it into
/// the mapping, until the closing `>` (consumed) or the end of the buffer.
/// A position that neither scan moves is skipped by one character, so the
/// loop always advances.
pub open spec fn sp_attrs(s: Seq<char>, i: int, m: Map<Seq<char>, Seq<char>>) -> (
    Map<Seq<char>, Seq<char>>,
    int,
)
    decreases s.len() - i,
        when 0 <= i <= s.len()
{
    if i >= s.len() {
        (m, i)
    } else if s[i] == '>' {
        (m, i + 1)
    } else {
        let j = run_end(s, i, CharClass::Space);
        let k = run_end(s, j, CharClass::AttrName);
        let name = lower_of(s.subrange(j, k));
        let l = run_end(s, k, CharClass::Space);
        proof {
            lemma_run_end(s, i, CharClass::Space);
            lemma_run_end(s, run_end(s, i, CharClass::Space), CharClass::AttrName);
            lemma_run_end(
                s,
                run_end(s, run_end(s, i, CharClass::Space), CharClass::AttrName),
                CharClass::Space,
            );
        }
        if l < s.len() && s[l] == '=' {
            let w = run_end(s, l + 1, CharClass::Space);
            let value = sp_attr_value(s, w).0;
            let e1 = sp_attr_value(s, w).1;
            let e2 = run_end(s, e1, CharClass::AttrJunk);
            let e3 = run_end(s, e2, CharClass::Space);
            proof {
                lemma_run_end(s, l + 1, CharClass::Space);
                lemma_sp_attr_value_bounds(s, run_end(s, l + 1, CharClass::Space));
                lemma_run_end(s, sp_attr_value(s, run_end(s, l + 1, CharClass::Space)).1, CharClass::AttrJunk);
                lemma_run_end(
                    s,
                    run_end(
                        s,
                        sp_attr_value(s, run_end(s, l + 1, CharClass::Space)).1,
                        CharClass::AttrJunk,
                    ),
                    CharClass::Space,
                );
            }
            sp_attrs(s, e3, m.insert(name, value))
        } else {
            let m2 = m.insert(name, Seq::<char>::empty());
            if l > i {
                sp_attrs(s, l, m2)
            } else {
                sp_attrs(s, i + 1, m2)
            }
        }
    }
}

/// The attribute loop only moves forward and stays in bounds.
pub proof fn lemma_sp_attrs_bounds(s: Seq<char>, i: int, m: Map<Seq<char>, Seq<char>>)
    requires
        0 <= i <= s.len(),
    ensures
        i <= sp_attrs(s, i, m).1 <= s.len(),
    decreases s.len() - i,
{
    if i >= s.len() {
    } else if s[i] == '>' {
    } else {
        let j = run_end(s, i, CharClass::Space);
        let k = run_end(s, j, CharClass::AttrName);
        let name = lower_of(s.subrange(j, k));
        let l = run_end(s, k, CharClass::Space);
        lemma_run_end(s, i, CharClass::Space);
        lemma_run_end(s, j, CharClass::AttrName);
        lemma_run_end(s, k, CharClass::Space);
        if l < s.len() && s[l] == '=' {
            let w = run_end(s, l + 1, CharClass::Space);
            let value = sp_attr_value(s, w).0;
            let e1 = sp_attr_value(s, w).1;
            let e2 = run_end(s, e1, CharClass::AttrJunk);
            let e3 = run_end(s, e2, CharClass::Space);
            lemma_run_end(s, l + 1, CharClass::Space);
            lemma_sp_attr_value_bounds(s, w);
            lemma_run_end(s, e1, CharClass::AttrJunk);
            lemma_run_end(s, e2, CharClass::Space);
            lemma_sp_attrs_bounds(s, e3, m.insert(name, value));
        } else {
            let m2 = m.insert(name, Seq::<char>::empty());
            if l > i {
                lemma_sp_attrs_bounds(s, l, m2);
            } else {
                lemma_sp_attrs_bounds(s, i + 1, m2);
            }
        }
    }
}

/// Scans the attribute list of an open tag, up to and including the
/// closing `>`. Attribute names are lower-cased; a name without `=` gets
/// the empty value; later writes of a name overwrite earlier ones.
pub fn parse_attributes(input: &Vec<char>, pos: usize) -> (r: (AttrMap, usize))
    requires
        pos <= input@.len(),
    ensures
        ({
            let (m, e) = sp_attrs(input@, pos as int, Map::empty());
            &&& r.0@ == m
            &&& r.1 == e
            &&& pos <= e <= input@.len()
        }),
{
    let ghost s = input@;
    proof {
        lemma_sp_attrs_bounds(s, pos as int, Map::empty());
    }
    let mut attrs = AttrMap::new();
    let mut j: usize = pos;
    while j < input.len() && input[j] != '>'
        invariant
            pos <= j <= s.len(),
            input@ == s,
            sp_attrs(s, pos as int, Map::empty()) == sp_attrs(s, j as int, attrs@),
        decreases s.len() - j,
    {
        let ghost j0 = j as int;
        let ghost m0 = attrs@;
        let (_w1, j1) = consume_while(input, j, CharClass::Space);
        let (name_raw, j2) = consume_while(input, j1, CharClass::AttrName);
        let name = to_lowercase_str(name_raw.as_str());
        let (_w2, j3) = consume_while(input, j2, CharClass::Space);
        if j3 < input.len() && input[j3] == '=' {
            let (_w3, j4) = consume_while(input, j3 + 1, CharClass::Space);
            let (value, j5) = parse_attr_value(input, j4);
            let (_junk, j6) = consume_while(input, j5, CharClass::AttrJunk);
            let (_w4, j7) = consume_while(input, j6, CharClass::Space);
            attrs.insert(name, value);
            j = j7;
        } else {
            attrs.insert(name, String::new());
            if j3 > j {
                j = j3;
            } else {
                j = j + 1;
            }
        }
        proof {
            assert(sp_attrs(s, j0, m0) == sp_attrs(s, j as int, attrs@));
        }
    }
    let end = if j < input.len() {
        j + 1
    } else {
        j
    };
    proof {
        assert(sp_attrs(s, j as int, attrs@) == (attrs@, end as int));
    }
    (attrs, end)
}

/// Mirror of the main comment loop: with `c` collected, it consumes runs
/// free of `<` and `-`, then reacts to the stopping delimiter. `-- >`
/// closes the comment with the collected content; a nested comment
/// opening closes it early with empty content; every partial match
/// re-appends the literal prefix consumed and resumes; the end of the
/// buffer returns whatever has accumulated.
pub open spec fn sp_comment_loop(s: Seq<char>, i: int, c: Seq<char>) -> (Seq<char>, int)
    decreases s.len() - i,
        when 0 <= i <= s.len()
{
    if i >= s.len() {
        (c, i)
    } else {
        let k = run_end(s, i, CharClass::CommentText);
        let c2 = c + s.subrange(i, k);
        proof {
            lemma_run_end(s, i, CharClass::CommentText);
            if !in_class(CharClass::CommentText, s[i]) {
                assert(run_end(s, i, CharClass::CommentText) == i);
            } else {
                lemma_run_end_step(s, i, CharClass::CommentText);
            }
        }
        if k >= s.len() {
            (c2, k)
        } else if s[k] == '<' {
            if k + 1 < s.len() && s[k + 1] == '!' {
                if k + 2 < s.len() && s[k + 2] == '-' {
                    if k + 3 < s.len() && s[k + 3] == '-' {
                        (Seq::empty(), run_end(s, k + 3, CharClass::Until('>')))
                    } else {
                        sp_comment_loop(s, k + 3, c2 + seq!['<', '!', '-'])
                    }
                } else if k + 2 < s.len() && s[k + 2] == ' ' {
                    if k + 3 < s.len() && s[k + 3] == '-' {
                        if k + 4 < s.len() && s[k + 4] == '-' {
                            if k + 5 < s.len() && s[k + 5] == '-' {
                                if k + 6 < s.len() && s[k + 6] == '>' {
                                    (Seq::empty(), k + 7)
                                } else {
                                    sp_comment_loop(s, k + 6, c2 + seq!['<', '!', ' ', '-', '-'])
                                }
                            } else {
                                sp_comment_loop(s, k + 5, c2 + seq!['<', '!', ' ', '-'])
                            }
                        } else {
                            sp_comment_loop(s, k + 4, c2 + seq!['<', '!', ' '])
                        }
                    } else {
                        sp_comment_loop(s, k + 3, c2 + seq!['<', '!', ' '])
                    }
                } else {
                    sp_comment_loop(s, k + 2, c2 + seq!['<', '!'])
                }
            } else {
                sp_comment_loop(s, k + 1, c2 + seq!['<'])
            }
        } else {
            if k + 1 < s.len() && s[k + 1] == '-' {
                if k + 2 < s.len() && s[k + 2] == '>' {
                    (c2, k + 3)
                } else {
                    sp_comment_loop(s, k + 2, c2 + seq!['-', '-'])
                }
            } else {
                sp_comment_loop(s, k + 1, c2 + seq!['-'])
            }
        }
    }
}

/// The comment loop only moves forward and stays in bounds.
pub proof fn lemma_sp_comment_loop_bounds(s: Seq<char>, i: int, c: Seq<char>)
    requires
        0 <= i <= s.len(),
    ensures
        i <= sp_comment_loop(s, i, c).1 <= s.len(),
    decreases s.len() - i,
{
    if i < s.len() {
        let k = run_end(s, i, CharClass::CommentText);
        let c2 = c + s.subrange(i, k);
        lemma_run_end(s, i, CharClass::CommentText);
        if k >= s.len() {
        } else if s[k] == '<' {
            if k + 1 < s.len() && s[k + 1] == '!' {
                if k + 2 < s.len() && s[k + 2] == '-' {
                    if k + 3 < s.len() && s[k + 3] == '-' {
                        lemma_run_end(s, k + 3, CharClass::Until('>'));
                    } else {
                        lemma_sp_comment_loop_bounds(s, k + 3, c2 + seq!['<', '!', '-']);
                    }
                } else if k + 2 < s.len() && s[k + 2] == ' ' {
                    if k + 3 < s.len() && s[k + 3] == '-' {
                        if k + 4 < s.len() && s[k + 4] == '-' {
                            if k + 5 < s.len() && s[k + 5] == '-' {
                                if k + 6 < s.len() && s[k + 6] == '>' {
                                } else {
                                    lemma_sp_comment_loop_bounds(
                                        s,
                                        k + 6,
                                        c2 + seq!['<', '!', ' ', '-', '-'],
                                    );
                                }
                            } else {
                                lemma_sp_comment_loop_bounds(s, k + 5, c2 + seq!['<', '!', ' ', '-']);
                            }
                        } else {
                            lemma_sp_comment_loop_bounds(s, k + 4, c2 + seq!['<', '!', ' ']);
                        }
                    } else {
                        lemma_sp_comment_loop_bounds(s, k + 3, c2 + seq!['<', '!', ' ']);
                    }
                } else {
                    lemma_sp_comment_loop_bounds(s, k + 2, c2 + seq!['<', '!']);
                }
            } else {
                lemma_sp_comment_loop_bounds(s, k + 1, c2 + seq!['<']);
            }
        } else {
            if k + 1 < s.len() && s[k + 1] == '-' {
                if k + 2 < s.len() && s[k + 2] == '>' {
                } else {
                    lemma_sp_comment_loop_bounds(s, k + 2, c2 + seq!['-', '-']);
                }
            } else {
                lemma_sp_comment_loop_bounds(s, k + 1, c2 + seq!['-']);
            }
        }
    }
}

/// Mirror of the comment recovery scanner, entered right after `<!` has
/// been consumed. Without two consecutive `-` the construct is a bogus
/// comment: everything up to and including the next `>` is discarded and
/// the comment is empty. `<!-->` and `<!--->` yield empty comments;
/// `<!---` seeds the content with one `-`; otherwise the main loop runs.
pub open spec fn sp_comment(s: Seq<char>, i: int) -> (Seq<char>, int) {
    if i < s.len() && s[i] == '-' {
        if i + 1 < s.len() && s[i + 1] == '-' {
            let p = i + 2;
            if p < s.len() && s[p] == '>' {
                (Seq::empty(), p + 1)
            } else if p < s.len() && s[p] == '-' {
                if p + 1 < s.len() && s[p + 1] == '>' {
                    (Seq::empty(), p + 2)
                } else {
                    sp_comment_loop(s, p + 1, seq!['-'])
                }
            } else {
                sp_comment_loop(s, p, Seq::empty())
            }
        } else {
            let k = run_end(s, i + 1, CharClass::Until('>'));
            (Seq::empty(), if k < s.len() {
                k + 1
            } else {
                k
            })
        }
    } else {
        let k = run_end(s, i, CharClass::Until('>'));
        (Seq::empty(), if k < s.len() {
            k + 1
        } else {
            k
        })
    }
}

/// The comment scanner only moves forward and stays in bounds.
pub proof fn lemma_sp_comment_bounds(s: Seq<char>, i: int)
    requires
        0 <= i <= s.len(),
    ensures
        i <= sp_comment(s, i).1 <= s.len(),
{
    if i < s.len() && s[i] == '-' {
        if i + 1 < s.len() && s[i + 1] == '-' {
            let p = i + 2;
            if p < s.len() && s[p] == '>' {
            } else if p < s.len() && s[p] == '-' {
                if p + 1 < s.len() && s[p + 1] == '>' {
                } else {
                    lemma_sp_comment_loop_bounds(s, p + 1, seq!['-']);
                }
            } else {
                lemma_sp_comment_loop_bounds(s, p, Seq::empty());
            }
        } else {
            lemma_run_end(s, i + 1, CharClass::Until('>'));
        }
    } else {
        lemma_run_end(s, i, CharClass::Until('>'));
    }
}

/// Wraps comment content in a childless comment node.
fn comment_node(content: String) -> (n: Node)
    ensures
        n@ == (NodeView {
            node_type: NodeTypeView::Comment(content@),
            children: Seq::<NodeView>::empty(),
        }),
{
    let n = Node::new(NodeType::Comment(content), Vec::new());
    proof {
        assert(crate::dom::forest_view(Seq::<Node>::empty()) =~= Seq::<NodeView>::empty());
    }
    n
}

/// Runs the comment recovery scanner from `pos`, entered right after `<!`
/// has been consumed, and returns the comment node and the position after
/// whatever the scanner consumed.
pub fn parse_comment_node(input: &Vec<char>, pos: usize) -> (r: (Node, usize))
    requires
        pos <= input@.len(),
    ensures
        ({
            let (c, e) = sp_comment(input@, pos as int);
            &&& r.0@ == (NodeView {
                node_type: NodeTypeView::Comment(c),
                children: Seq::<NodeView>::empty(),
            })
            &&& r.1 == e
            &&& pos <= e <= input@.len()
        }),
{
    let ghost s = input@;
    proof {
        lemma_sp_comment_bounds(s, pos as int);
    }
    let mut content = String::new();
    let mut j: usize;
    if pos < input.len() && input[pos] == '-' {
        if pos + 1 < input.len() && input[pos + 1] == '-' {
            let p = pos + 2;
            if p < input.len() && input[p] == '>' {
                return (comment_node(content), p + 1);
            }
            if p < input.len() && input[p] == '-' {
                if p + 1 < input.len() && input[p + 1] == '>' {
                    return (comment_node(content), p + 2);
                }
                content.append("-");
                proof {
                    reveal_strlit("-");
                    assert(content@ =~= seq!['-']);
                }
                j = p + 1;
            } else {
                j = p;
            }
        } else {
            let (_d, k) = consume_while(input, pos + 1, CharClass::Until('>'));
            let e = if k < input.len() {
                k + 1
            } else {
                k
            };
            return (comment_node(content), e);
        }
    } else {
        let (_d, k) = consume_while(input, pos, CharClass::Until('>'));
        let e = if k < input.len() {
            k + 1
        } else {
            k
        };
        return (comment_node(content), e);
    }
    let ghost target = sp_comment_loop(s, j as int, content@);
    proof {
        lemma_sp_comment_loop_bounds(s, j as int, content@);
        assert(sp_comment(s, pos as int) == target);
    }
    while j < input.len()
        invariant
            pos <= j <= s.len(),
            input@ == s,
            sp_comment_loop(s, j as int, content@) == target,
            sp_comment(s, pos as int) == target,
        decreases s.len() - j,
    {
        let ghost jA = j as int;
        let ghost cA = content@;
        let (run, k) = consume_while(input, j, CharClass::CommentText);
        content.append(run.as_str());
        j = k;
        let ghost c2 = content@;
        if j >= input.len() {
            proof {
                assert(sp_comment_loop(s, jA, cA) == (c2, j as int));
            }
        } else if input[j] == '<' {
            if j + 1 < input.len() && input[j + 1] == '!' {
                if j + 2 < input.len() && input[j + 2] == '-' {
                    if j + 3 < input.len() && input[j + 3] == '-' {
                        let (_d, e) = consume_while(input, j + 3, CharClass::Until('>'));
                        proof {
                            assert(sp_comment_loop(s, jA, cA) == (Seq::<char>::empty(), e as int));
                        }
                        return (comment_node(String::new()), e);
                    } else {
                        content.append("<!-");
                        j = j + 3;
                        proof {
                            reveal_strlit("<!-");
                            assert(content@ =~= c2 + seq!['<', '!', '-']);
                        }
                    }
                } else if j + 2 < input.len() && input[j + 2] == ' ' {
                    if j + 3 < input.len() && input[j + 3] == '-' {
                        if j + 4 < input.len() && input[j + 4] == '-' {
                            if j + 5 < input.len() && input[j + 5] == '-' {
                                if j + 6 < input.len() && input[j + 6] == '>' {
                                    let e = j + 7;
                                    proof {
                                        assert(sp_comment_loop(s, jA, cA) == (
                                            Seq::<char>::empty(),
                                            e as int,
                                        ));
                                    }
                                    return (comment_node(String::new()), e);
                                } else {
                                    content.append("<! --");
                                    j = j + 6;
                                    proof {
                                        reveal_strlit("<! --");
                                        assert(content@ =~= c2 + seq!['<', '!', ' ', '-', '-']);
                                    }
                                }
                            } else {
                                content.append("<! -");
                                j = j + 5;
                                proof {
                                    reveal_strlit("<! -");
                                    assert(content@ =~= c2 + seq!['<', '!', ' ', '-']);
                                }
                            }
                        } else {
                            content.append("<! ");
                            j = j + 4;
                            proof {
                                reveal_strlit("<! ");
                                assert(content@ =~= c2 + seq!['<', '!', ' ']);
                            }
                        }
                    } else {
                        content.append("<! ");
                        j = j + 3;
                        proof {
                            reveal_strlit("<! ");
                            assert(content@ =~= c2 + seq!['<', '!', ' ']);
                        }
                    }
                } else {
                    content.append("<!");
                    j = j + 2;
                    proof {
                        reveal_strlit("<!");
                        assert(content@ =~= c2 + seq!['<', '!']);
                    }
                }
            } else {
                content.append("<");
                j = j + 1;
                proof {
                    reveal_strlit("<");
                    assert(content@ =~= c2 + seq!['<']);
                }
            }
        } else {
            if j + 1 < input.len() && input[j + 1] == '-' {
                if j + 2 < input.len() && input[j + 2] == '>' {
                    let e = j + 3;
                    proof {
                        assert(sp_comment_loop(s, jA, cA) == (c2, e as int));
                    }
                    return (comment_node(content), e);
                } else {
                    content.append("--");
                    j = j + 2;
                    proof {
                        reveal_strlit("--");
                        assert(content@ =~= c2 + seq!['-', '-']);
                    }
                }
            } else {
                content.append("-");
                j = j + 1;
                proof {
                    reveal_strlit("-");
                    assert(content@ =~= c2 + seq!['-']);
                }
            }
        }
        proof {
            assert(sp_comment_loop(s, jA, cA) == sp_comment_loop(s, j as int, content@));
        }
    }
    proof {
        assert(sp_comment_loop(s, j as int, content@) == (content@, j as int));
    }
    (comment_node(content), j)
}

/// A text run that does not start at `<` or at the end of the buffer
/// consumes at least one character.
pub proof fn lemma_sp_text_progress(s: Seq<char>, i: int, acc: Seq<char>)
    requires
        0 <= i < s.len(),
        s[i] != '<',
    ensures
        sp_text(s, i, acc).1 > i,
{
    let j = run_end(s, i, CharClass::Space);
    let k = run_end(s, j, CharClass::Text);
    lemma_run_end(s, i, CharClass::Space);
    lemma_run_end(s, j, CharClass::Text);
    if j == i {
        lemma_run_end_step(s, i, CharClass::Text);
    }
    let acc2 = (if j > i {
        acc + seq![' ']
    } else {
        acc
    }) + s.subrange(j, k);
    lemma_sp_text_bounds(s, k, acc2);
}

/// What parsing one element produces: the element itself, its children,
/// the position after everything it consumed, and the dangling close-tag
/// queue as the recursive call left it.
#[verifier::ext_equal]
pub struct ParsedElement {
    pub elem: ElementView,
    pub children: Seq<NodeView>,
    pub end: int,
    pub pending: Seq<Seq<char>>,
}

/// What parsing one sibling sequence produces: the sibling models, the
/// position the invocation stopped at, and the dangling close-tag queue.
#[verifier::ext_equal]
pub struct ParsedSiblings {
    pub nodes: Seq<NodeView>,
    pub end: int,
    pub pending: Seq<Seq<char>>,
}

/// Mirror of the element parser, entered right after the opening `<` has
/// been consumed: it scans the tag name and the attributes, then parses
/// the element's children recursively.
pub open spec fn sp_node(s: Seq<char>, i: int, p: Seq<Seq<char>>) -> ParsedElement
    decreases s.len() - i, 1int,
        when 0 <= i <= s.len()
{
    let t = run_end(s, i, CharClass::TagName);
    let am = sp_attrs(s, t, Map::empty());
    proof {
        lemma_run_end(s, i, CharClass::TagName);
        lemma_sp_attrs_bounds(s, run_end(s, i, CharClass::TagName), Map::empty());
    }
    let sr = sp_nodes(s, am.1, p, Seq::empty());
    ParsedElement {
        elem: ElementView { tag_name: s.subrange(i, t), attributes: am.0 },
        children: sr.nodes,
        end: sr.end,
        pending: sr.pending,
    }
}

/// Mirror of one sibling-sequence invocation, with `acc` already emitted:
/// it skips whitespace between nodes, returns on a closing tag (pushing
/// its name onto the dangling queue) or at the end of the buffer, hands
/// `<!` to the comment scanner, recurses on an open tag and applies the
/// recovery protocol to the dangling queue, and otherwise scans text.
pub open spec fn sp_nodes(s: Seq<char>, i: int, p: Seq<Seq<char>>, acc: Seq<NodeView>) -> ParsedSiblings
    decreases s.len() - i, 0int,
        when 0 <= i <= s.len()
{
    if i >= s.len() {
        ParsedSiblings { nodes: acc, end: i, pending: p }
    } else {
        let w = run_end(s, i, CharClass::Space);
        proof {
            lemma_run_end(s, i, CharClass::Space);
        }
        if w < s.len() && s[w] == '<' {
            if w + 1 < s.len() && s[w + 1] == '/' {
                let a = run_end(s, w + 2, CharClass::Space);
                let b = run_end(s, a, CharClass::TagName);
                let c = run_end(s, b, CharClass::Until('>'));
                let e = if c < s.len() {
                    c + 1
                } else {
                    c
                };
                ParsedSiblings { nodes: acc, end: e, pending: p.push(s.subrange(a, b)) }
            } else if w + 1 < s.len() && s[w + 1] == '!' {
                let cm = sp_comment(s, w + 2);
                proof {
                    lemma_sp_comment_bounds(s, w + 2);
                }
                sp_nodes(
                    s,
                    cm.1,
                    p,
                    acc.push(
                        NodeView {
                            node_type: NodeTypeView::Comment(cm.0),
                            children: Seq::empty(),
                        },
                    ),
                )
            } else {
                let pe = sp_node(s, w + 1, p);
                let e = if w + 1 <= pe.end && pe.end <= s.len() {
                    pe.end
                } else {
                    w + 1
                };
                let node = NodeView {
                    node_type: NodeTypeView::Element(pe.elem),
                    children: pe.children,
                };
                if pe.pending.len() > 0 {
                    if pe.elem.tag_name == pe.pending[0] {
                        sp_nodes(s, e, pe.pending.drop_first(), acc.push(node))
                    } else {
                        let hollow = NodeView {
                            node_type: NodeTypeView::Element(pe.elem),
                            children: Seq::empty(),
                        };
                        sp_nodes(s, e, pe.pending, acc.push(hollow) + pe.children)
                    }
                } else {
                    sp_nodes(s, e, pe.pending, acc.push(node))
                }
            }
        } else {
            let tr = sp_text(s, w, Seq::empty());
            proof {
                lemma_sp_text_bounds(s, w, Seq::empty());
                if w < s.len() {
                    lemma_sp_text_progress(s, w, Seq::empty());
                }
            }
            sp_nodes(
                s,
                tr.1,
                p,
                acc.push(NodeView { node_type: NodeTypeView::Text(tr.0), children: Seq::empty() }),
            )
        }
    }
}

/// One sibling-sequence invocation only moves forward and stays in
/// bounds.
pub proof fn lemma_sp_nodes_bounds(s: Seq<char>, i: int, p: Seq<Seq<char>>, acc: Seq<NodeView>)
    requires
        0 <= i <= s.len(),
    ensures
        i <= sp_nodes(s, i, p, acc).end <= s.len(),
    decreases s.len() - i, 0int,
{
    if i < s.len() {
        let w = run_end(s, i, CharClass::Space);
        lemma_run_end(s, i, CharClass::Space);
        if w < s.len() && s[w] == '<' {
            if w + 1 < s.len() && s[w + 1] == '/' {
                let a = run_end(s, w + 2, CharClass::Space);
                let b = run_end(s, a, CharClass::TagName);
                let c = run_end(s, b, CharClass::Until('>'));
                lemma_run_end(s, w + 2, CharClass::Space);
                lemma_run_end(s, a, CharClass::TagName);
                lemma_run_end(s, b, CharClass::Until('>'));
            } else if w + 1 < s.len() && s[w + 1] == '!' {
                let cm = sp_comment(s, w + 2);
                lemma_sp_comment_bounds(s, w + 2);
                lemma_sp_nodes_bounds(
                    s,
                    cm.1,
                    p,
                    acc.push(
                        NodeView {
                            node_type: NodeTypeView::Comment(cm.0),
                            children: Seq::empty(),
                        },
                    ),
                );
            } else {
                let pe = sp_node(s, w + 1, p);
                lemma_sp_node_bounds(s, w + 1, p);
                let e = pe.end;
                let node = NodeView {
                    node_type: NodeTypeView::Element(pe.elem),
                    children: pe.children,
                };
                if pe.pending.len() > 0 {
                    if pe.elem.tag_name == pe.pending[0] {
                        lemma_sp_nodes_bounds(s, e, pe.pending.drop_first(), acc.push(node));
                    } else {
                        let hollow = NodeView {
                            node_type: NodeTypeView::Element(pe.elem),
                            children: Seq::empty(),
                        };
                        lemma_sp_nodes_bounds(s, e, pe.pending, acc.push(hollow) + pe.children);
                    }
                } else {
                    lemma_sp_nodes_bounds(s, e, pe.pending, acc.push(node));
                }
            }
        } else {
            let tr = sp_text(s, w, Seq::empty());
            lemma_sp_text_bounds(s, w, Seq::empty());
            if w < s.len() {
                lemma_sp_text_progress(s, w, Seq::empty());
            }
            lemma_sp_nodes_bounds(
                s,
                tr.1,
                p,
                acc.push(NodeView { node_type: NodeTypeView::Text(tr.0), children: Seq::empty() }),
            );
        }
    }
}

/// One element parse only moves forward and stays in bounds.
pub proof fn lemma_sp_node_bounds(s: Seq<char>, i: int, p: Seq<Seq<char>>)
    requires
        0 <= i <= s.len(),
    ensures
        i <= sp_node(s, i, p).end <= s.len(),
    decreases s.len() - i, 1int,
{
    let t = run_end(s, i, CharClass::TagName);
    let am = sp_attrs(s, t, Map::empty());
    lemma_run_end(s, i, CharClass::TagName);
    lemma_sp_attrs_bounds(s, t, Map::empty());
    lemma_sp_nodes_bounds(s, am.1, p, Seq::empty());
}

/// Parses one element, entered right after its opening `<` has been
/// consumed: tag name, attributes, then the element's children by a
/// recursive sibling parse that threads the dangling close-tag queue.
pub fn parse_node(input: &Vec<char>, pos: usize, pending: &mut Vec<String>) -> (r: (Node, usize))
    requires
        pos <= input@.len(),
    ensures
        ({
            let pe = sp_node(input@, pos as int, strings_view(old(pending)@));
            &&& r.0@ == (NodeView { node_type: NodeTypeView::Element(pe.elem), children: pe.children })
            &&& r.1 == pe.end
            &&& strings_view(final(pending)@) == pe.pending
            &&& pos <= r.1 <= input@.len()
        }),
    decreases input@.len() - pos, 1nat,
{
    let ghost s = input@;
    let ghost p0 = strings_view(pending@);
    proof {
        lemma_sp_node_bounds(s, pos as int, p0);
    }
    let (tag_name, t) = consume_while(input, pos, CharClass::TagName);
    let (attributes, e0) = parse_attributes(input, t);
    let elem = ElementData::new(tag_name, attributes);
    let (children, e1) = parse_nodes_from(input, e0, pending);
    let node = Node::new(NodeType::Element(elem), children);
    (node, e1)
}

/// Parses one sibling sequence from `pos` until the end of the buffer or
/// an unmatched closing tag, applying the close-tag recovery protocol:
/// a mismatched closer splices the element's children into the current
/// sequence and defers the closer to an enclosing invocation.
pub fn parse_nodes_from(input: &Vec<char>, pos: usize, pending: &mut Vec<String>) -> (r: (
    Vec<Node>,
    usize,
))
    requires
        pos <= input@.len(),
    ensures
        ({
            let sr = sp_nodes(input@, pos as int, strings_view(old(pending)@), Seq::empty());
            &&& forest_view(r.0@) == sr.nodes
            &&& r.1 == sr.end
            &&& strings_view(final(pending)@) == sr.pending
            &&& pos <= r.1 <= input@.len()
        }),
    decreases input@.len() - pos, 0nat,
{
    let ghost s = input@;
    let ghost p0 = strings_view(pending@);
    let ghost target = sp_nodes(s, pos as int, p0, Seq::empty());
    proof {
        lemma_sp_nodes_bounds(s, pos as int, p0, Seq::empty());
        assert(forest_view(Seq::<Node>::empty()) =~= Seq::<NodeView>::empty());
    }
    let mut nodes: Vec<Node> = Vec::new();
    let mut j: usize = pos;
    while j < input.len()
        invariant
            pos <= j <= s.len(),
            input@ == s,
            p0 == strings_view(old(pending)@),
            target == sp_nodes(s, pos as int, p0, Seq::empty()),
            sp_nodes(s, j as int, strings_view(pending@), forest_view(nodes@)) == target,
        decreases s.len() - j,
    {
        let ghost j_a = j as int;
        let ghost p_a = strings_view(pending@);
        let ghost acc_a = forest_view(nodes@);
        let (_lead, w) = consume_while(input, j, CharClass::Space);
        if w < input.len() && input[w] == '<' {
            if w + 1 < input.len() && input[w + 1] == '/' {
                let (_gap, a) = consume_while(input, w + 2, CharClass::Space);
                let (close_tag_name, b) = consume_while(input, a, CharClass::TagName);
                let (_rest, c) = consume_while(input, b, CharClass::Until('>'));
                let e = if c < input.len() {
                    c + 1
                } else {
                    c
                };
                pending.push(close_tag_name);
                proof {
                    assert(strings_view(pending@) =~= p_a.push(s.subrange(a as int, b as int)));
                    assert(sp_nodes(s, j_a, p_a, acc_a) == (ParsedSiblings {
                        nodes: acc_a,
                        end: e as int,
                        pending: strings_view(pending@),
                    }));
                }
                return (nodes, e);
            } else if w + 1 < input.len() && input[w + 1] == '!' {
                let (cnode, e) = parse_comment_node(input, w + 2);
                let ghost nodes_b = nodes@;
                nodes.push(cnode);
                j = e;
                proof {
                    crate::dom::lemma_forest_view_push(nodes_b, cnode);
                    assert(sp_nodes(s, j_a, p_a, acc_a) == sp_nodes(
                        s,
                        j as int,
                        strings_view(pending@),
                        forest_view(nodes@),
                    ));
                }
            } else {
                let ghost p_b = strings_view(pending@);
                let (node, e) = parse_node(input, w + 1, pending);
                let ghost pe = sp_node(s, (w + 1) as int, p_b);
                proof {
                    lemma_sp_node_bounds(s, (w + 1) as int, p_b);
                }
                if pending.len() > 0 {
                    let assumed_tag = pending.remove(0);
                    let tag_matches: bool = match &node.node_type {
                        NodeType::Element(ed) => ed.tag_name == assumed_tag,
                        _ => vstd::pervasive::unreached(),
                    };
                    proof {
                        assert(assumed_tag@ == pe.pending[0]);
                    }
                    if tag_matches {
                        let ghost nodes_b = nodes@;
                        nodes.push(node);
                        proof {
                            crate::dom::lemma_forest_view_push(nodes_b, node);
                            assert(strings_view(pending@) =~= pe.pending.drop_first());
                        }
                    } else {
                        pending.insert(0, assumed_tag);
                        let idx = nodes.len();
                        let ghost nodes_b = nodes@;
                        let ghost kids_b = node.children@;
                        let mut node2 = node;
                        nodes.append(&mut node2.children);
                        nodes.insert(idx, node2);
                        proof {
                            assert(strings_view(pending@) =~= pe.pending);
                            let hollow_node = node2;
                            assert(nodes@ =~= (nodes_b.push(hollow_node)) + kids_b);
                            crate::dom::lemma_forest_view_concat(nodes_b.push(hollow_node), kids_b);
                            crate::dom::lemma_forest_view_push(nodes_b, hollow_node);
                            assert(forest_view(hollow_node.children@)
                                =~= Seq::<NodeView>::empty());
                            assert(node_view(hollow_node) == (NodeView {
                                node_type: NodeTypeView::Element(pe.elem),
                                children: Seq::empty(),
                            }));
                            assert(forest_view(kids_b) == pe.children);
                            assert(forest_view(nodes@) =~= acc_a.push(
                                NodeView {
                                    node_type: NodeTypeView::Element(pe.elem),
                                    children: Seq::empty(),
                                },
                            ) + pe.children);
                        }
                    }
                } else {
                    let ghost nodes_b = nodes@;
                    nodes.push(node);
                    proof {
                        crate::dom::lemma_forest_view_push(nodes_b, node);
                    }
                }
                j = e;
                proof {
                    assert(sp_nodes(s, j_a, p_a, acc_a) == sp_nodes(
                        s,
                        j as int,
                        strings_view(pending@),
                        forest_view(nodes@),
                    ));
                }
            }
        } else {
            let (tnode, e) = parse_text_node(input, w);
            let ghost nodes_b = nodes@;
            nodes.push(tnode);
            j = e;
            proof {
                crate::dom::lemma_forest_view_push(nodes_b, tnode);
                lemma_sp_text_bounds(s, w as int, Seq::empty());
                if w < s.len() {
                    lemma_sp_text_progress(s, w as int, Seq::empty());
                }
                assert(sp_nodes(s, j_a, p_a, acc_a) == sp_nodes(
                    s,
                    j as int,
                    strings_view(pending@),
                    forest_view(nodes@),
                ));
            }
        }
    }
    proof {
        assert(sp_nodes(s, j as int, strings_view(pending@), forest_view(nodes@))
            == (ParsedSiblings {
            nodes: forest_view(nodes@),
            end: j as int,
            pending: strings_view(pending@),
        }));
    }
    (nodes, j)
}

/// The visible state of a parser: its buffer, the position of its cursor,
/// and the queue of dangling close-tag names.
#[verifier::ext_equal]
pub struct ParserView {
    pub input: Seq<char>,
    pub pos: int,
    pub pending: Seq<Seq<char>>,
}

/// A lenient markup parser over one in-memory text buffer. One call to
/// [`HtmlParser::parse_nodes`] turns the whole buffer into an ordered
/// forest of sibling nodes.
pub struct HtmlParser {
    input: Vec<char>,
    pos: usize,
    node_p: Vec<String>,
}

impl View for HtmlParser {
    type V = ParserView;

    closed spec fn view(&self) -> ParserView {
        ParserView {
            input: self.input@,
            pos: self.pos as int,
            pending: strings_view(self.node_p@),
        }
    }
}

impl HtmlParser {
    /// The cursor stands within the buffer.
    pub open spec fn wf(&self) -> bool {
        0 <= self@.pos <= self@.input.len()
    }

    /// Builds a parser over the characters of `html`, at the start of the
    /// buffer, with an empty dangling queue.
    pub fn new(html: &str) -> (p: HtmlParser)
        ensures
            p@.input == html@,
            p@.pos == 0,
            p@.pending == Seq::<Seq<char>>::empty(),
            p.wf(),
    {
        let v = crate::strutil::chars_of_str(html);
        proof {
            assert(strings_view(Seq::<String>::empty()) =~= Seq::<Seq<char>>::empty());
        }
        HtmlParser { input: v, pos: 0, node_p: Vec::new() }
    }

    /// Parses the remaining buffer into a forest of sibling root nodes,
    /// exactly as the sibling mirror [`sp_nodes`] describes: malformed
    /// input degrades (splicing, empty comments, empty attribute values)
    /// and is never rejected.
    pub fn parse_nodes(&mut self) -> (nodes: Vec<Node>)
        requires
            old(self).wf(),
        ensures
            ({
                let sr = sp_nodes(old(self)@.input, old(self)@.pos, old(self)@.pending, Seq::empty());
                &&& forest_view(nodes@) == sr.nodes
                &&& final(self)@.input == old(self)@.input
                &&& final(self)@.pos == sr.end
                &&& final(self)@.pending == sr.pending
                &&& final(self).wf()
            }),
    {
        let r = parse_nodes_from(&self.input, self.pos, &mut self.node_p);
        self.pos = r.1;
        r.0
    }
}

} // verus!
