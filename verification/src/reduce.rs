//! Reduction of a derivation to the command's name and its parameters: an
//! ordered list of pairs of a name and a raw value, where a value given by
//! position has the empty name.

use vstd::prelude::*;
use vstd::string::*;
use crate::text::same_text;
use crate::tree::{
    check_escapes, escapes_complete, expand_parse_tree_node, node_text, SyntaxTree, SyntaxNode,
};

verus! {

/// A reduced parameter: its name, empty for a value given by position, and
/// its raw value.
pub type ParamModel = (Seq<char>, Seq<char>);

/// The parameters in `v`, as pairs of character sequences.
pub open spec fn params_view(v: Seq<(String, String)>) -> Seq<ParamModel> {
    Seq::new(v.len(), |i: int| (v[i].0@, v[i].1@))
}

/// `t` has the shape of a value: an unquoted token, the empty quoted
/// string, or an opening quote followed by the quoted text.
pub open spec fn value_shaped(t: SyntaxTree) -> bool {
    t.rhs@.len() >= 1 && match t.rhs@[0] {
        SyntaxNode::Nonterminal(_) => escapes_complete(t.rhs@[0]),
        SyntaxNode::Terminal(s) => s@ == "\"\""@ || (t.rhs@.len() >= 2 && escapes_complete(
            t.rhs@[1],
        )),
    }
}

/// The text that a value stands for: quotes removed, escapes decoded.
pub open spec fn value_text(t: SyntaxTree) -> Seq<char> {
    match t.rhs@[0] {
        SyntaxNode::Nonterminal(_) => node_text(t.rhs@[0]),
        SyntaxNode::Terminal(s) => if s@ == "\"\""@ {
            Seq::empty()
        } else {
            node_text(t.rhs@[1])
        },
    }
}

/// `t` has the shape of a name, a colon and a value, with optional space
/// around the colon.
pub open spec fn name_value_pair_shaped(t: SyntaxTree) -> bool {
    t.rhs@.len() >= 5 && escapes_complete(t.rhs@[0]) && (t.rhs@[4] matches SyntaxNode::Nonterminal(
        v,
    ) && value_shaped(v))
}

/// The name and the value of a named parameter.
pub open spec fn name_value_pair_of(t: SyntaxTree) -> ParamModel {
    (node_text(t.rhs@[0]), value_text(t.rhs@[4]->Nonterminal_0))
}

/// `t` has the shape of a flag: two dashes and a name.
pub open spec fn flag_shaped(t: SyntaxTree) -> bool {
    t.rhs@.len() >= 2 && escapes_complete(t.rhs@[1])
}

/// A flag reduces to its name with the value `true`.
pub open spec fn flag_of(t: SyntaxTree) -> ParamModel {
    (node_text(t.rhs@[1]), seq!['t', 'r', 'u', 'e'])
}

/// `t` has the shape of a value given by position.
pub open spec fn indexed_value_shaped(t: SyntaxTree) -> bool {
    t.rhs@.len() >= 1 && (t.rhs@[0] matches SyntaxNode::Nonterminal(v) && value_shaped(v))
}

/// A value given by position reduces to the empty name and the value.
pub open spec fn indexed_value_of(t: SyntaxTree) -> ParamModel {
    (Seq::empty(), value_text(t.rhs@[0]->Nonterminal_0))
}

/// `t` has the shape of one parameter: a named value, a flag, or a value
/// given by position.
pub open spec fn param_shaped(t: SyntaxTree) -> bool {
    t.rhs@.len() >= 1 && (t.rhs@[0] matches SyntaxNode::Nonterminal(nt) && {
        ||| nt.lhs@ == "<name_value_pair>"@ && name_value_pair_shaped(nt)
        ||| nt.lhs@ != "<name_value_pair>"@ && nt.lhs@ == "<flag>"@ && flag_shaped(nt)
        ||| nt.lhs@ != "<name_value_pair>"@ && nt.lhs@ != "<flag>"@ && nt.lhs@
            == "<indexed_value>"@ && indexed_value_shaped(nt)
    })
}

/// The pair that one parameter reduces to.
pub open spec fn param_of(t: SyntaxTree) -> ParamModel {
    let nt = t.rhs@[0]->Nonterminal_0;
    if nt.lhs@ == "<name_value_pair>"@ {
        name_value_pair_of(nt)
    } else if nt.lhs@ == "<flag>"@ {
        flag_of(nt)
    } else {
        indexed_value_of(nt)
    }
}

/// `t` has the shape of a parameter list: one parameter, or a shorter list,
/// white space and one more parameter.
pub open spec fn parameters_shaped(t: SyntaxTree) -> bool
    decreases t,
{
    t.rhs@.len() >= 1 && match t.rhs@[0] {
        SyntaxNode::Terminal(_) => true,
        SyntaxNode::Nonterminal(nt) => if nt.lhs@ == "<command_param>"@ {
            param_shaped(nt)
        } else {
            parameters_shaped(nt) && t.rhs@.len() >= 3 && (t.rhs@[2] matches SyntaxNode::Nonterminal(
                last,
            ) && param_shaped(last))
        },
    }
}

/// The parameters of a list, in the order in which they were typed.
pub open spec fn parameters_of(t: SyntaxTree) -> Seq<ParamModel>
    decreases t,
{
    if t.rhs@.len() >= 1 {
        match t.rhs@[0] {
            SyntaxNode::Terminal(_) => Seq::empty(),
            SyntaxNode::Nonterminal(nt) => if nt.lhs@ == "<command_param>"@ {
                seq![param_of(nt)]
            } else {
                parameters_of(nt).push(param_of(t.rhs@[2]->Nonterminal_0))
            },
        }
    } else {
        Seq::empty()
    }
}

/// `t` has the shape of a command line: the command's name, and where more
/// follows, white space and a parameter list.
pub open spec fn command_line_shaped(t: SyntaxTree) -> bool {
    t.rhs@.len() >= 1 && escapes_complete(t.rhs@[0]) && (t.rhs@.len() >= 2 ==> t.rhs@.len() >= 3
        && (t.rhs@[2] matches SyntaxNode::Nonterminal(p) && parameters_shaped(p)))
}

/// The name of the command that a command line calls.
pub open spec fn command_of(t: SyntaxTree) -> Seq<char> {
    node_text(t.rhs@[0])
}

/// The parameters that a command line passes; none where only the name was
/// typed.
pub open spec fn arguments_of(t: SyntaxTree) -> Seq<ParamModel> {
    if t.rhs@.len() >= 2 {
        parameters_of(t.rhs@[2]->Nonterminal_0)
    } else {
        Seq::empty()
    }
}

/// Whether `parse_tree` has the shape of a value.
pub fn is_value_tree(parse_tree: &SyntaxTree) -> (r: bool)
    ensures
        r == value_shaped(*parse_tree),
{
    if parse_tree.rhs.len() < 1 {
        return false;
    }
    match &parse_tree.rhs[0] {
        SyntaxNode::Nonterminal(_) => check_escapes(&parse_tree.rhs[0]),
        SyntaxNode::Terminal(t) => same_text(t.as_str(), "\"\"") || (parse_tree.rhs.len() >= 2
            && check_escapes(&parse_tree.rhs[1])),
    }
}

/// The text that a value stands for.
pub fn expand_command_param_value(parse_tree: &SyntaxTree) -> (value: String)
    requires
        value_shaped(*parse_tree),
    ensures
        value@ == value_text(*parse_tree),
{
    match &parse_tree.rhs[0] {
        SyntaxNode::Nonterminal(_) => expand_parse_tree_node(&parse_tree.rhs[0]),
        SyntaxNode::Terminal(t) => {
            if same_text(t.as_str(), "\"\"") {
                String::new()
            } else {
                expand_parse_tree_node(&parse_tree.rhs[1])
            }
        },
    }
}

/// Whether `parse_tree` has the shape of a named parameter.
pub fn is_name_value_pair_tree(parse_tree: &SyntaxTree) -> (r: bool)
    ensures
        r == name_value_pair_shaped(*parse_tree),
{
    if parse_tree.rhs.len() < 5 || !check_escapes(&parse_tree.rhs[0]) {
        return false;
    }
    match &parse_tree.rhs[4] {
        SyntaxNode::Nonterminal(v) => is_value_tree(v),
        SyntaxNode::Terminal(_) => false,
    }
}

/// The name and the value of a named parameter.
pub fn expand_command_param_name_value_pair(parse_tree: &SyntaxTree) -> (pair: (String, String))
    requires
        name_value_pair_shaped(*parse_tree),
    ensures
        (pair.0@, pair.1@) == name_value_pair_of(*parse_tree),
{
    let name = expand_parse_tree_node(&parse_tree.rhs[0]);
    match &parse_tree.rhs[4] {
        SyntaxNode::Nonterminal(nt) => (name, expand_command_param_value(nt)),
        SyntaxNode::Terminal(_) => (name, String::new()),
    }
}

/// Whether `parse_tree` has the shape of a flag.
pub fn is_flag_tree(parse_tree: &SyntaxTree) -> (r: bool)
    ensures
        r == flag_shaped(*parse_tree),
{
    parse_tree.rhs.len() >= 2 && check_escapes(&parse_tree.rhs[1])
}

/// The name of a flag, with the value `true`.
pub fn expand_command_param_flag(parse_tree: &SyntaxTree) -> (pair: (String, String))
    requires
        flag_shaped(*parse_tree),
    ensures
        (pair.0@, pair.1@) == flag_of(*parse_tree),
{
    proof {
        reveal_strlit("true");
        assert("true"@ =~= seq!['t', 'r', 'u', 'e']);
    }
    (expand_parse_tree_node(&parse_tree.rhs[1]), String::from_str("true"))
}

/// Whether `parse_tree` has the shape of a value given by position.
pub fn is_indexed_value_tree(parse_tree: &SyntaxTree) -> (r: bool)
    ensures
        r == indexed_value_shaped(*parse_tree),
{
    if parse_tree.rhs.len() < 1 {
        return false;
    }
    match &parse_tree.rhs[0] {
        SyntaxNode::Nonterminal(v) => is_value_tree(v),
        SyntaxNode::Terminal(_) => false,
    }
}

/// The empty name and the value of a parameter given by position.
pub fn expand_command_param_indexed_value(parse_tree: &SyntaxTree) -> (pair: (String, String))
    requires
        indexed_value_shaped(*parse_tree),
    ensures
        (pair.0@, pair.1@) == indexed_value_of(*parse_tree),
{
    match &parse_tree.rhs[0] {
        SyntaxNode::Nonterminal(nt) => (String::new(), expand_command_param_value(nt)),
        SyntaxNode::Terminal(_) => (String::new(), String::new()),
    }
}

/// Whether `command_param` has the shape of one parameter.
pub fn is_param_tree(command_param: &SyntaxTree) -> (r: bool)
    ensures
        r == param_shaped(*command_param),
{
    if command_param.rhs.len() < 1 {
        return false;
    }
    match &command_param.rhs[0] {
        SyntaxNode::Nonterminal(nt) => {
            if same_text(nt.lhs.as_str(), "<name_value_pair>") {
                is_name_value_pair_tree(nt)
            } else if same_text(nt.lhs.as_str(), "<flag>") {
                is_flag_tree(nt)
            } else if same_text(nt.lhs.as_str(), "<indexed_value>") {
                is_indexed_value_tree(nt)
            } else {
                false
            }
        },
        SyntaxNode::Terminal(_) => false,
    }
}

/// The pair that one parameter reduces to.
pub fn expand_command_param(command_param: &SyntaxTree) -> (pair: (String, String))
    requires
        param_shaped(*command_param),
    ensures
        (pair.0@, pair.1@) == param_of(*command_param),
{
    match &command_param.rhs[0] {
        SyntaxNode::Nonterminal(nt) => {
            if same_text(nt.lhs.as_str(), "<name_value_pair>") {
                expand_command_param_name_value_pair(nt)
            } else if same_text(nt.lhs.as_str(), "<flag>") {
                expand_command_param_flag(nt)
            } else {
                expand_command_param_indexed_value(nt)
            }
        },
        SyntaxNode::Terminal(_) => (String::new(), String::new()),
    }
}

/// Whether `tree` has the shape of a parameter list.
pub fn is_parameters_tree(tree: &SyntaxTree) -> (r: bool)
    ensures
        r == parameters_shaped(*tree),
    decreases tree,
{
    if tree.rhs.len() < 1 {
        return false;
    }
    match &tree.rhs[0] {
        SyntaxNode::Terminal(_) => true,
        SyntaxNode::Nonterminal(nt) => {
            if same_text(nt.lhs.as_str(), "<command_param>") {
                is_param_tree(nt)
            } else {
                assert(decreases_to!(tree.rhs => tree.rhs[0]));
                assert(decreases_to!(tree.rhs[0] => tree.rhs[0]->Nonterminal_0));
                if !is_parameters_tree(nt) || tree.rhs.len() < 3 {
                    return false;
                }
                match &tree.rhs[2] {
                    SyntaxNode::Nonterminal(last) => is_param_tree(last),
                    SyntaxNode::Terminal(_) => false,
                }
            }
        },
    }
}

/// The parameters of a list, in the order in which they were typed.
pub fn expand_command_parameters(tree: &SyntaxTree) -> (params: Vec<(String, String)>)
    requires
        parameters_shaped(*tree),
    ensures
        params_view(params@) == parameters_of(*tree),
    decreases tree,
{
    match &tree.rhs[0] {
        SyntaxNode::Nonterminal(nt) => {
            if same_text(nt.lhs.as_str(), "<command_param>") {
                let mut params: Vec<(String, String)> = Vec::new();
                params.push(expand_command_param(nt));
                assert(params_view(params@) =~= parameters_of(*tree));
                params
            } else {
                assert(decreases_to!(tree.rhs => tree.rhs[0]));
                assert(decreases_to!(tree.rhs[0] => tree.rhs[0]->Nonterminal_0));
                let mut params = expand_command_parameters(nt);
                let ghost before = params@;
                match &tree.rhs[2] {
                    SyntaxNode::Nonterminal(x) => {
                        params.push(expand_command_param(x));
                    },
                    SyntaxNode::Terminal(_) => {},
                }
                assert(params_view(params@) =~= params_view(before).push(
                    param_of(tree.rhs@[2]->Nonterminal_0),
                ));
                params
            }
        },
        SyntaxNode::Terminal(_) => {
            let params: Vec<(String, String)> = Vec::new();
            assert(params_view(params@) =~= parameters_of(*tree));
            params
        },
    }
}

/// Whether `tree` has the shape of a command line.
pub fn is_command_line_tree(tree: &SyntaxTree) -> (r: bool)
    ensures
        r == command_line_shaped(*tree),
{
    if tree.rhs.len() < 1 || !check_escapes(&tree.rhs[0]) {
        return false;
    }
    if tree.rhs.len() < 2 {
        return true;
    }
    if tree.rhs.len() < 3 {
        return false;
    }
    match &tree.rhs[2] {
        SyntaxNode::Nonterminal(p) => is_parameters_tree(p),
        SyntaxNode::Terminal(_) => false,
    }
}

/// Reduces a command line to the command's name and its parameters.
pub fn reduce(tree: &SyntaxTree) -> (line: (String, Vec<(String, String)>))
    requires
        command_line_shaped(*tree),
    ensures
        line.0@ == command_of(*tree),
        params_view(line.1@) == arguments_of(*tree),
{
    let command = expand_parse_tree_node(&tree.rhs[0]);
    if tree.rhs.len() >= 2 {
        match &tree.rhs[2] {
            SyntaxNode::Nonterminal(p) => (command, expand_command_parameters(p)),
            SyntaxNode::Terminal(_) => (command, Vec::new()),
        }
    } else {
        let params: Vec<(String, String)> = Vec::new();
        assert(params_view(params@) =~= arguments_of(*tree));
        (command, params)
    }
}

} // verus!
