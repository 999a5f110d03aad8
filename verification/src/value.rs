//! The typed values that a command receives, the definitions that say which
//! values it takes, and the rules by which raw text becomes a value.

use vstd::prelude::*;
use crate::numeric::{bounded_integer, is_float_literal, is_float_text, parse_bounded};
use crate::text::same_text;

verus! {

/// The kinds of value that a command parameter can take.
#[derive(Clone, Copy, Debug, PartialEq, Eq, Structural)]
pub enum CallbackArgumentType {
    Float32,
    Float64,
    Int32,
    Int64,
    String,
    Bool,
    Flag,
}

/// One parameter of a command: its name, the kind of value it takes, and
/// whether a caller may leave it out. A flag may always be left out.
#[derive(Clone, Debug, PartialEq, Eq)]
pub struct CallbackArgumentDefinition {
    pub name: String,
    pub cba_type: CallbackArgumentType,
    pub optional: bool,
}

/// What a definition says, with its name as a sequence of characters.
pub struct DefinitionModel {
    pub name: Seq<char>,
    pub kind: CallbackArgumentType,
    pub optional: bool,
}

impl View for CallbackArgumentDefinition {
    type V = DefinitionModel;

    open spec fn view(&self) -> DefinitionModel {
        DefinitionModel { name: self.name@, kind: self.cba_type, optional: self.optional }
    }
}

/// What each of `defs` says, in order.
pub open spec fn defs_view(defs: Seq<CallbackArgumentDefinition>) -> Seq<DefinitionModel> {
    Seq::new(defs.len(), |i: int| defs[i]@)
}

/// A bound argument. A floating-point argument is kept as the literal that
/// was typed, which is known to be well formed; the other kinds carry their
/// value.
#[derive(Clone, Debug, PartialEq, Eq)]
pub enum CallbackArgumentValue {
    Float32(String),
    Float64(String),
    Int32(i32),
    Int64(i64),
    String(String),
    Bool(bool),
    Flag(bool),
}

/// What a bound argument is, with text as a sequence of characters.
pub enum ArgumentValue {
    Float32(Seq<char>),
    Float64(Seq<char>),
    Int32(i32),
    Int64(i64),
    String(Seq<char>),
    Bool(bool),
    Flag(bool),
}

impl View for CallbackArgumentValue {
    type V = ArgumentValue;

    open spec fn view(&self) -> ArgumentValue {
        match self {
            CallbackArgumentValue::Float32(t) => ArgumentValue::Float32(t@),
            CallbackArgumentValue::Float64(t) => ArgumentValue::Float64(t@),
            CallbackArgumentValue::Int32(x) => ArgumentValue::Int32(*x),
            CallbackArgumentValue::Int64(x) => ArgumentValue::Int64(*x),
            CallbackArgumentValue::String(t) => ArgumentValue::String(t@),
            CallbackArgumentValue::Bool(b) => ArgumentValue::Bool(*b),
            CallbackArgumentValue::Flag(b) => ArgumentValue::Flag(*b),
        }
    }
}

/// The kind of a bound value.
pub open spec fn kind_of(value: ArgumentValue) -> CallbackArgumentType {
    match value {
        ArgumentValue::Float32(_) => CallbackArgumentType::Float32,
        ArgumentValue::Float64(_) => CallbackArgumentType::Float64,
        ArgumentValue::Int32(_) => CallbackArgumentType::Int32,
        ArgumentValue::Int64(_) => CallbackArgumentType::Int64,
        ArgumentValue::String(_) => CallbackArgumentType::String,
        ArgumentValue::Bool(_) => CallbackArgumentType::Bool,
        ArgumentValue::Flag(_) => CallbackArgumentType::Flag,
    }
}

/// The truth value that `raw` spells: the two boolean words, or a single
/// `1` or `0`.
pub open spec fn bool_text_value(raw: Seq<char>) -> Option<bool> {
    if raw == seq!['t', 'r', 'u', 'e'] || raw == seq!['1'] {
        Some(true)
    } else if raw == seq!['f', 'a', 'l', 's', 'e'] || raw == seq!['0'] {
        Some(false)
    } else {
        None
    }
}

/// The value that `raw` stands for when read as a `kind`, or `None` where it
/// cannot be read as one.
pub open spec fn parsed_value(raw: Seq<char>, kind: CallbackArgumentType) -> Option<
    ArgumentValue,
> {
    match kind {
        CallbackArgumentType::Float32 => if is_float_text(raw) {
            Some(ArgumentValue::Float32(raw))
        } else {
            None
        },
        CallbackArgumentType::Float64 => if is_float_text(raw) {
            Some(ArgumentValue::Float64(raw))
        } else {
            None
        },
        CallbackArgumentType::Int32 => match bounded_integer(
            raw,
            i32::MIN as int,
            i32::MAX as int,
        ) {
            Some(v) => Some(ArgumentValue::Int32(v as i32)),
            None => None,
        },
        CallbackArgumentType::Int64 => match bounded_integer(
            raw,
            i64::MIN as int,
            i64::MAX as int,
        ) {
            Some(v) => Some(ArgumentValue::Int64(v as i64)),
            None => None,
        },
        CallbackArgumentType::String => Some(ArgumentValue::String(raw)),
        CallbackArgumentType::Bool => match bool_text_value(raw) {
            Some(b) => Some(ArgumentValue::Bool(b)),
            None => None,
        },
        CallbackArgumentType::Flag => Some(ArgumentValue::Flag(true)),
    }
}

/// A value that was read as a `kind` is of that kind.
pub proof fn lemma_parsed_value_kind(raw: Seq<char>, kind: CallbackArgumentType)
    ensures
        parsed_value(raw, kind) matches Some(v) ==> kind_of(v) == kind,
{
}

/// Reads a truth value: `true`, `false`, `1` or `0`.
pub fn parse_bool(raw: &str) -> (r: Option<bool>)
    ensures
        r == bool_text_value(raw@),
{
    proof {
        reveal_strlit("true");
        reveal_strlit("false");
        reveal_strlit("1");
        reveal_strlit("0");
        assert("true"@ =~= seq!['t', 'r', 'u', 'e']);
        assert("false"@ =~= seq!['f', 'a', 'l', 's', 'e']);
        assert("1"@ =~= seq!['1']);
        assert("0"@ =~= seq!['0']);
    }
    if same_text(raw, "true") || same_text(raw, "1") {
        Some(true)
    } else if same_text(raw, "false") || same_text(raw, "0") {
        Some(false)
    } else {
        None
    }
}

/// Reads `value` as the kind of value that `def` asks for.
pub fn parse_value_via_definition(value: &String, def: &CallbackArgumentDefinition) -> (r: Option<
    CallbackArgumentValue,
>)
    ensures
        r matches Some(v) ==> parsed_value(value@, def.cba_type) == Some(v@),
        r is None ==> parsed_value(value@, def.cba_type) is None,
{
    match def.cba_type {
        CallbackArgumentType::Int32 => match parse_bounded(value.as_str(), -0x8000_0000, 0x7fff_ffff) {
            Some(x) => Some(CallbackArgumentValue::Int32(x as i32)),
            None => None,
        },
        CallbackArgumentType::Int64 => match parse_bounded(
            value.as_str(),
            -0x8000_0000_0000_0000,
            0x7fff_ffff_ffff_ffff,
        ) {
            Some(x) => Some(CallbackArgumentValue::Int64(x)),
            None => None,
        },
        CallbackArgumentType::Float32 => if is_float_literal(value.as_str()) {
            Some(CallbackArgumentValue::Float32(value.clone()))
        } else {
            None
        },
        CallbackArgumentType::Float64 => if is_float_literal(value.as_str()) {
            Some(CallbackArgumentValue::Float64(value.clone()))
        } else {
            None
        },
        CallbackArgumentType::String => Some(CallbackArgumentValue::String(value.clone())),
        CallbackArgumentType::Bool => match parse_bool(value.as_str()) {
            Some(b) => Some(CallbackArgumentValue::Bool(b)),
            None => None,
        },
        CallbackArgumentType::Flag => Some(CallbackArgumentValue::Flag(true)),
    }
}

} // verus!
