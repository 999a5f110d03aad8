//! Derivations of a command line: ordered trees whose leaves are the matched
//! text, and the text that a subtree stands for once its escape sequences
//! are decoded.

use vstd::prelude::*;
use vstd::string::*;
use crate::text::{same_text, texts_view};

verus! {

/// A node of a derivation: matched text, or a production with its children.
#[derive(Debug, PartialEq, Eq)]
pub enum SyntaxNode {
    Terminal(String),
    Nonterminal(SyntaxTree),
}

/// A production that was applied: its name in angle brackets, and the nodes
/// it was matched by, left to right.
#[derive(Debug, PartialEq, Eq)]
pub struct SyntaxTree {
    pub lhs: String,
    pub rhs: Vec<SyntaxNode>,
}

/// The character that a backslash followed by `c` stands for inside a quoted
/// string: `r`, `n` and `t` give carriage return, line feed and tab; every
/// other text stands for itself, the quote and the backslash among them.
pub open spec fn decoded_escape(c: Seq<char>) -> Seq<char> {
    if c == seq!['r'] {
        seq!['\r']
    } else if c == seq!['n'] {
        seq!['\n']
    } else if c == seq!['t'] {
        seq!['\t']
    } else {
        c
    }
}

/// `tree` is an escape sequence: a backslash and the text that follows it.
pub open spec fn is_escape(tree: SyntaxTree) -> bool {
    tree.lhs@ == "<escape_char>"@
}

/// The text of `node`: the matched text of its leaves, left to right, with
/// each escape sequence replaced by what it stands for.
pub open spec fn node_text(node: SyntaxNode) -> Seq<char>
    decreases node, 0nat,
{
    match node {
        SyntaxNode::Terminal(t) => t@,
        SyntaxNode::Nonterminal(tree) => if is_escape(tree) {
            if tree.rhs@.len() >= 2 {
                decoded_escape(node_text(tree.rhs@[1]))
            } else {
                Seq::empty()
            }
        } else {
            children_text(tree.rhs@, tree.rhs@.len())
        },
    }
}

/// The text of the first `n` of `nodes`, joined.
pub open spec fn children_text(nodes: Seq<SyntaxNode>, n: nat) -> Seq<char>
    decreases nodes, n,
{
    if n == 0 || n > nodes.len() {
        Seq::empty()
    } else {
        children_text(nodes, (n - 1) as nat) + node_text(nodes[n - 1])
    }
}

/// Every escape sequence in `node` has the text that it escapes.
pub open spec fn escapes_complete(node: SyntaxNode) -> bool
    decreases node, 0nat,
{
    match node {
        SyntaxNode::Terminal(_) => true,
        SyntaxNode::Nonterminal(tree) => if is_escape(tree) {
            tree.rhs@.len() >= 2 && escapes_complete(tree.rhs@[1])
        } else {
            children_complete(tree.rhs@, tree.rhs@.len())
        },
    }
}

/// Every escape sequence in the first `n` of `nodes` has the text that it
/// escapes.
pub open spec fn children_complete(nodes: Seq<SyntaxNode>, n: nat) -> bool
    decreases nodes, n,
{
    if n == 0 || n > nodes.len() {
        true
    } else {
        children_complete(nodes, (n - 1) as nat) && escapes_complete(nodes[n - 1])
    }
}

/// Whether every escape sequence in `node` has the text that it escapes.
pub fn check_escapes(node: &SyntaxNode) -> (r: bool)
    ensures
        r == escapes_complete(*node),
    decreases node,
{
    match node {
        SyntaxNode::Terminal(_) => true,
        SyntaxNode::Nonterminal(tree) => {
            if same_text(tree.lhs.as_str(), "<escape_char>") {
                tree.rhs.len() >= 2 && check_escapes(&tree.rhs[1])
            } else {
                let mut i: usize = 0;
                while i < tree.rhs.len()
                    invariant
                        i <= tree.rhs@.len(),
                        children_complete(tree.rhs@, i as nat),
                        *node == SyntaxNode::Nonterminal(*tree),
                        !is_escape(*tree),
                    decreases tree.rhs@.len() - i,
                {
                    assert(decreases_to!(*node => node->Nonterminal_0));
                    assert(decreases_to!(tree.rhs => tree.rhs[i as int]));
                    if !check_escapes(&tree.rhs[i]) {
                        proof {
                            lemma_incomplete_child(tree.rhs@, i as int, tree.rhs@.len());
                        }
                        return false;
                    }
                    i += 1;
                }
                true
            }
        },
    }
}

/// One incomplete node among the first `n` makes them incomplete.
pub proof fn lemma_incomplete_child(nodes: Seq<SyntaxNode>, i: int, n: nat)
    requires
        0 <= i < n <= nodes.len(),
        !escapes_complete(nodes[i]),
    ensures
        !children_complete(nodes, n),
    decreases n,
{
    if i < n - 1 {
        lemma_incomplete_child(nodes, i, (n - 1) as nat);
    }
}

/// The text of `node`, with its escape sequences decoded.
pub fn expand_parse_tree_node(node: &SyntaxNode) -> (val: String)
    requires
        escapes_complete(*node),
    ensures
        val@ == node_text(*node),
    decreases node,
{
    let mut val = String::new();
    match node {
        SyntaxNode::Nonterminal(nt) => {
            if same_text(nt.lhs.as_str(), "<escape_char>") {
                let c = expand_parse_tree_node(&nt.rhs[1]);
                proof {
                    reveal_strlit("r");
                    reveal_strlit("n");
                    reveal_strlit("t");
                    reveal_strlit("\r");
                    reveal_strlit("\n");
                    reveal_strlit("\t");
                    assert("r"@ =~= seq!['r'] && "n"@ =~= seq!['n'] && "t"@ =~= seq!['t']);
                    assert("\r"@ =~= seq!['\r'] && "\n"@ =~= seq!['\n'] && "\t"@ =~= seq!['\t']);
                }
                if same_text(c.as_str(), "r") {
                    val.append("\r");
                } else if same_text(c.as_str(), "n") {
                    val.append("\n");
                } else if same_text(c.as_str(), "t") {
                    val.append("\t");
                } else {
                    val.append(c.as_str());
                }
                assert(val@ =~= decoded_escape(c@));
            } else {
                let mut i: usize = 0;
                while i < nt.rhs.len()
                    invariant
                        i <= nt.rhs@.len(),
                        children_complete(nt.rhs@, nt.rhs@.len()),
                        val@ == children_text(nt.rhs@, i as nat),
                        *node == SyntaxNode::Nonterminal(*nt),
                    decreases nt.rhs@.len() - i,
                {
                    proof {
                        lemma_complete_child(nt.rhs@, i as int, nt.rhs@.len());
                    }
                    assert(decreases_to!(*node => node->Nonterminal_0));
                    assert(decreases_to!(nt.rhs => nt.rhs[i as int]));
                    let part = expand_parse_tree_node(&nt.rhs[i]);
                    val.append(part.as_str());
                    i += 1;
                }
            }
        },
        SyntaxNode::Terminal(t) => {
            val.append(t.as_str());
            assert(val@ =~= t@);
        },
    }
    val
}

/// Where the first `n` nodes are complete, each of them is.
pub proof fn lemma_complete_child(nodes: Seq<SyntaxNode>, i: int, n: nat)
    requires
        0 <= i < n <= nodes.len(),
        children_complete(nodes, n),
    ensures
        escapes_complete(nodes[i]),
    decreases n,
{
    if i < n - 1 {
        lemma_complete_child(nodes, i, (n - 1) as nat);
    }
}

/// `c` is a text whose escape sequence has a meaning of its own or stands
/// for a character that could not be written otherwise: the quote, the
/// backslash, and `r`, `n` and `t`.
pub open spec fn is_known_escape(c: Seq<char>) -> bool {
    c == seq!['"'] || c == seq!['\\'] || c == seq!['r'] || c == seq!['n'] || c == seq!['t']
}

/// The escaped texts in `tree` that are not known, in the order in which
/// they stand.
pub open spec fn unknown_escapes(tree: SyntaxTree) -> Seq<Seq<char>>
    decreases tree, 0nat,
{
    if is_escape(tree) {
        if tree.rhs@.len() >= 2 && escapes_complete(tree.rhs@[1]) && !is_known_escape(
            node_text(tree.rhs@[1]),
        ) {
            seq![node_text(tree.rhs@[1])]
        } else {
            Seq::empty()
        }
    } else {
        unknown_escapes_among(tree.rhs@, tree.rhs@.len())
    }
}

/// The unknown escaped texts in the first `n` of `nodes`.
pub open spec fn unknown_escapes_among(nodes: Seq<SyntaxNode>, n: nat) -> Seq<Seq<char>>
    decreases nodes, n,
{
    if n == 0 || n > nodes.len() {
        Seq::empty()
    } else {
        unknown_escapes_among(nodes, (n - 1) as nat) + (match nodes[n - 1] {
            SyntaxNode::Terminal(_) => Seq::empty(),
            SyntaxNode::Nonterminal(tree) => unknown_escapes(tree),
        })
    }
}

/// Whether the escape sequence of `c` is known.
pub fn known_escape(c: &str) -> (r: bool)
    ensures
        r == is_known_escape(c@),
{
    proof {
        reveal_strlit("\"");
        reveal_strlit("\\");
        reveal_strlit("r");
        reveal_strlit("n");
        reveal_strlit("t");
        assert("\""@ =~= seq!['"'] && "\\"@ =~= seq!['\\']);
        assert("r"@ =~= seq!['r'] && "n"@ =~= seq!['n'] && "t"@ =~= seq!['t']);
    }
    same_text(c, "\"") || same_text(c, "\\") || same_text(c, "r") || same_text(c, "n") || same_text(
        c,
        "t",
    )
}

/// The escaped texts in `tree` that are not known: they pass through as
/// they are, and a reader may want to be told.
pub fn escape_warnings(tree: &SyntaxTree) -> (found: Vec<String>)
    ensures
        texts_view(found@) == unknown_escapes(*tree),
    decreases tree,
{
    let mut found: Vec<String> = Vec::new();
    assert(texts_view(found@) =~= Seq::<Seq<char>>::empty());
    if same_text(tree.lhs.as_str(), "<escape_char>") {
        if tree.rhs.len() >= 2 && check_escapes(&tree.rhs[1]) {
            let c = expand_parse_tree_node(&tree.rhs[1]);
            if !known_escape(c.as_str()) {
                found.push(c);
                assert(texts_view(found@) =~= seq![node_text(tree.rhs@[1])]);
            }
        }
    } else {
        let mut i: usize = 0;
        while i < tree.rhs.len()
            invariant
                i <= tree.rhs@.len(),
                texts_view(found@) == unknown_escapes_among(tree.rhs@, i as nat),
            decreases tree.rhs@.len() - i,
        {
            match &tree.rhs[i] {
                SyntaxNode::Terminal(_) => {
                    assert(unknown_escapes_among(tree.rhs@, (i + 1) as nat) =~= unknown_escapes_among(
                        tree.rhs@,
                        i as nat,
                    ));
                },
                SyntaxNode::Nonterminal(sub) => {
                    assert(decreases_to!(tree.rhs => tree.rhs[i as int]));
                    assert(decreases_to!(tree.rhs[i as int] => tree.rhs[i as int]->Nonterminal_0));
                    let mut more = escape_warnings(sub);
                    let ghost before = found@;
                    let ghost added = more@;
                    found.append(&mut more);
                    assert(texts_view(found@) =~= texts_view(before)
                        + texts_view(added));
                },
            }
            i += 1;
        }
    }
    found
}

} // verus!
