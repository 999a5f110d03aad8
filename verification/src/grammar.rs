//! The grammar of a command line, and the engine that derives a line from
//! it.

use vstd::prelude::*;
use vstd::string::*;
use crate::tree::{SyntaxTree, SyntaxNode};

verus! {

/// The grammar of a command line: the command's name, then parameters
/// separated by white space, each a named value, a flag or a bare value.
pub const COMMAND_GRAMMAR: &'static str = "<command_line> ::= <command_name> | <command_name> <ws_plus> <command_parameters>
<command_name> ::= <token>
<command_parameters> ::= <command_parameters> <ws_plus> <command_param> | <command_param>
<command_param> ::= <name_value_pair> | <flag> | <indexed_value>
<name_value_pair> ::= <token> <ws_star> ':' <ws_star> <value>
<flag> ::= '--' <token>
<indexed_value> ::= <value>
<value> ::= <string_implicit> | <dash> | '\"\"' | '\"' <string_explicit> '\"'
<dash> ::= '-'
<ws_star> ::= '' | <ws_plus>
<ws_plus> ::= <ws> | <ws_plus> <ws>
<ws> ::= ' ' | '\t'
<token> ::= <token_start> | <token> <token_char>
<token_start> ::= <letter> | '_'
<token_char> ::= <letter> | <digit> | '_'
<string_implicit> ::= <implicit_head> | <string_implicit> <implicit_char>
<implicit_head> ::= <implicit_start> | '-' <implicit_start>
<implicit_char> ::= <implicit_start> | '-'
<implicit_start> ::= <letter> | <digit> | <symbol>
<string_explicit> ::= <explicit_item> | <string_explicit> <explicit_item>
<explicit_item> ::= <explicit_char> | <escape_char>
<escape_char> ::= '\\' <escaped>
<escaped> ::= <explicit_char> | '\"' | '\\'
<explicit_char> ::= <letter> | <digit> | <symbol> | '-' | ':' | ' ' | '\t'
<symbol> ::= '_' | '.' | '+' | '/' | '*' | '=' | ',' | ';' | '!' | '?' | '@' | '#' | '$' | '%' | '^' | '&' | '(' | ')' | '[' | ']' | '{' | '}' | '<' | '>' | '|' | '~' | '`' | \"'\"
<letter> ::= 'a' | 'b' | 'c' | 'd' | 'e' | 'f' | 'g' | 'h' | 'i' | 'j' | 'k' | 'l' | 'm' | 'n' | 'o' | 'p' | 'q' | 'r' | 's' | 't' | 'u' | 'v' | 'w' | 'x' | 'y' | 'z' | 'A' | 'B' | 'C' | 'D' | 'E' | 'F' | 'G' | 'H' | 'I' | 'J' | 'K' | 'L' | 'M' | 'N' | 'O' | 'P' | 'Q' | 'R' | 'S' | 'T' | 'U' | 'V' | 'W' | 'X' | 'Y' | 'Z'
<digit> ::= '0' | '1' | '2' | '3' | '4' | '5' | '6' | '7' | '8' | '9'
";

/// The derivation type of the grammar engine.
#[verifier::external_type_specification]
#[verifier::external_body]
pub struct ExEngineTree<'gram>(bnf::ParseTree<'gram>);

/// The longest line, in characters, that is parsed. The engine nests a
/// derivation as deep as its line is long, so a line must have an end.
pub const MAX_LINE_LENGTH: usize = 4096;

/// All derivations of `line` under the grammar written in `grammar`, in the
/// order in which the engine finds them; none where `grammar` is no grammar
/// that the engine can parse with.
pub uninterp spec fn derivations(grammar: Seq<char>, line: Seq<char>) -> Seq<SyntaxTree>;

/// Copies a derivation of the engine, `bnf::ParseTree`, into a tree of this
/// library: the left-hand side as `Term`'s `to_string` writes it, and the
/// nodes that `rhs_iter` yields, in order, terminals as their text. Nothing
/// is claimed of the copy.
#[verifier::external_body]
fn import_tree(tree: &bnf::ParseTree) -> SyntaxTree {
    let mut rhs: Vec<SyntaxNode> = Vec::new();
    for node in tree.rhs_iter() {
        rhs.push(
            match node {
                bnf::ParseTreeNode::Terminal(text) => SyntaxNode::Terminal(text.to_string()),
                bnf::ParseTreeNode::Nonterminal(nt) => SyntaxNode::Nonterminal(import_tree(nt)),
            },
        );
    }
    SyntaxTree { lhs: tree.lhs.to_string(), rhs }
}

/// Parses `grammar` with `str::parse` into a `bnf::Grammar`, builds its
/// parser with `Grammar::build_parser`, and collects what
/// `GrammarParser::parse_input` yields for `line`; where one of the first
/// two steps fails, nothing is collected. The contract claims only that the
/// outcome is a function of the two texts. The engine does not return on
/// every grammar, and works as deep as the line is long: it is called with
/// the grammar of command lines only, and with lines of a bounded length.
#[verifier::external_body]
fn derive_line(grammar: &str, line: &str) -> (forest: Vec<SyntaxTree>)
    requires
        grammar@ == COMMAND_GRAMMAR@,
        line@.len() <= MAX_LINE_LENGTH,
    ensures
        forest@ == derivations(grammar@, line@),
{
    let mut trees: Vec<SyntaxTree> = Vec::new();
    if let Ok(rules) = grammar.parse::<bnf::Grammar>() {
        if let Ok(parser) = rules.build_parser() {
            for tree in parser.parse_input(line) {
                trees.push(import_tree(&tree));
            }
        }
    }
    trees
}

/// All derivations of `line` as a command line; `None` for a line that is
/// too long to be parsed.
pub fn parse(line: &str) -> (forest: Option<Vec<SyntaxTree>>)
    ensures
        forest is None <==> line@.len() > MAX_LINE_LENGTH,
        forest matches Some(trees) ==> trees@ == derivations(COMMAND_GRAMMAR@, line@),
{
    if line.unicode_len() > MAX_LINE_LENGTH {
        None
    } else {
        Some(derive_line(COMMAND_GRAMMAR, line))
    }
}

} // verus!
