//! Commands and the registry that holds them by name.

use vstd::prelude::*;
use vstd::string::*;
use crate::bind::{
    bind_result, named_of, named_pass, positional_of, positional_pass, BoundModel,
};
use crate::interface::ConsoleCommandInterface;
use crate::name_map::{prefix_matches, NameMap};
use crate::reduce::ParamModel;
use crate::text::{same_text, texts_view};
use crate::value::{
    defs_view, kind_of, lemma_parsed_value_kind, ArgumentValue, CallbackArgumentDefinition,
    CallbackArgumentType, CallbackArgumentValue, DefinitionModel,
};

verus! {

/// What a registered command runs when it is called. The console hands it
/// the interface handle and the bound arguments; an error that it returns
/// is reported and goes no further.
pub trait CommandCallback {
    fn invoke(
        &mut self,
        interface: &mut ConsoleCommandInterface,
        args: NameMap<CallbackArgumentValue>,
    ) -> Result<(), String>
        requires
            args.wf(),
    ;
}

/// What a command does: one of the console's own actions, or a callback.
pub enum CommandAction<C> {
    /// Turns the tracing of how lines are read on or off.
    DebugTrace,
    /// Asks the application to end.
    Exit,
    /// Runs the callback.
    Custom(C),
}

/// The kinds of action.
#[derive(Clone, Copy, Debug, PartialEq, Eq, Structural)]
pub enum ActionKind {
    DebugTrace,
    Exit,
    Custom,
}

/// A command: what it does, the parameters it takes, and a description for
/// the reader.
pub struct ConsoleCommand<C> {
    cb: CommandAction<C>,
    args: Vec<CallbackArgumentDefinition>,
    description: String,
}

/// What a command is to the console: its parameters, its description, the
/// kind of its action, and the callback that it runs, where it runs one.
pub struct CommandModel<C> {
    pub defs: Seq<DefinitionModel>,
    pub description: Seq<char>,
    pub kind: ActionKind,
    pub callback: Option<C>,
}

impl<C> View for ConsoleCommand<C> {
    type V = CommandModel<C>;

    closed spec fn view(&self) -> CommandModel<C> {
        CommandModel {
            defs: defs_view(self.args@),
            description: self.description@,
            kind: match self.cb {
                CommandAction::DebugTrace => ActionKind::DebugTrace,
                CommandAction::Exit => ActionKind::Exit,
                CommandAction::Custom(_) => ActionKind::Custom,
            },
            callback: match self.cb {
                CommandAction::Custom(cb) => Some(cb),
                _ => None,
            },
        }
    }
}

/// `after` is the command `before`, but that its callback may have changed
/// its own state: parameters, description and kind are the same, and a
/// command of the console's own is the same altogether.
pub open spec fn same_but_callback<C>(after: CommandModel<C>, before: CommandModel<C>) -> bool {
    &&& after.defs == before.defs
    &&& after.description == before.description
    &&& after.kind == before.kind
    &&& before.kind != ActionKind::Custom ==> after == before
}

/// The tracing command: it takes one mandatory truth value, `value`.
pub open spec fn trace_command_model<C>() -> CommandModel<C> {
    CommandModel {
        defs: seq![
            DefinitionModel {
                name: trace_parameter(),
                kind: CallbackArgumentType::Bool,
                optional: false,
            },
        ],
        description: "displays debug information about the parsing run for a console command."@,
        kind: ActionKind::DebugTrace,
        callback: None,
    }
}

/// The exit command: it takes no parameter.
pub open spec fn exit_command_model<C>() -> CommandModel<C> {
    CommandModel {
        defs: Seq::empty(),
        description: "exits the application."@,
        kind: ActionKind::Exit,
        callback: None,
    }
}

/// The name of the one parameter of the tracing command.
pub open spec fn trace_parameter() -> Seq<char> {
    seq!['v', 'a', 'l', 'u', 'e']
}

/// What the tracing command answers for `args`: nothing where it could set
/// the switch, else what is wrong with `args`.
pub open spec fn trace_outcome(args: Map<Seq<char>, ArgumentValue>) -> Result<bool, Seq<char>> {
    if !args.contains_key(trace_parameter()) {
        Err("missing variable 'value'"@)
    } else {
        match args[trace_parameter()] {
            ArgumentValue::Bool(on) => Ok(on),
            _ => Err("'value' was not a valid Bool"@),
        }
    }
}

impl<C> ConsoleCommand<C> {
    /// A command that runs `cb`.
    pub fn new(cb: C, args: Vec<CallbackArgumentDefinition>, description: String) -> (command: Self)
        ensures
            command@ == (CommandModel {
                defs: defs_view(args@),
                description: description@,
                kind: ActionKind::Custom,
                callback: Some(cb),
            }),
    {
        ConsoleCommand { cb: CommandAction::Custom(cb), args, description }
    }

    /// The command that turns tracing on or off: it takes one mandatory
    /// truth value, `value`.
    pub fn debug_trace() -> (command: Self)
        ensures
            command@ == trace_command_model::<C>(),
    {
        proof {
            reveal_strlit("value");
            assert("value"@ =~= trace_parameter());
        }
        let mut args: Vec<CallbackArgumentDefinition> = Vec::new();
        args.push(
            CallbackArgumentDefinition {
                name: String::from_str("value"),
                cba_type: CallbackArgumentType::Bool,
                optional: false,
            },
        );
        let command = ConsoleCommand {
            cb: CommandAction::DebugTrace,
            args,
            description: String::from_str(
                "displays debug information about the parsing run for a console command.",
            ),
        };
        assert(command@.defs =~= trace_command_model::<C>().defs);
        command
    }

    /// The command that asks the application to end: it takes no parameter.
    pub fn exit() -> (command: Self)
        ensures
            command@ == exit_command_model::<C>(),
    {
        let command = ConsoleCommand {
            cb: CommandAction::Exit,
            args: Vec::new(),
            description: String::from_str("exits the application."),
        };
        assert(command@.defs =~= exit_command_model::<C>().defs);
        command
    }

    /// Whether each parameter of the command has a name of its own.
    pub fn has_distinct_parameters(&self) -> (r: bool)
        ensures
            r == definitions_distinct(self@.defs),
    {
        names_are_distinct(&self.args)
    }

    /// The parameters that the command takes, in the order declared.
    pub fn args(&self) -> (defs: &Vec<CallbackArgumentDefinition>)
        ensures
            defs_view(defs@) == self@.defs,
    {
        &self.args
    }

    /// The description of the command.
    pub fn description(&self) -> (text: &String)
        ensures
            text@ == self@.description,
    {
        &self.description
    }
}

impl<C: CommandCallback> ConsoleCommand<C> {
    /// Runs the command on `args`. The tracing command sets the switch to
    /// its argument, the exit command asks for the end, and both leave the
    /// rest of the interface alone; a callback does what it does. The
    /// command stays what it was, but that a callback may have changed its
    /// own state.
    pub fn run(
        &mut self,
        interface: &mut ConsoleCommandInterface,
        args: NameMap<CallbackArgumentValue>,
    ) -> (r: Result<(), String>)
        requires
            args.wf(),
        ensures
            same_but_callback(final(self)@, old(self)@),
            old(self)@.kind == ActionKind::DebugTrace ==> {
                &&& final(interface).windows() == old(interface).windows()
                &&& final(interface).exiting() == old(interface).exiting()
                &&& match trace_outcome(args@) {
                    Ok(on) => r is Ok && final(interface).tracing() == on,
                    Err(message) => {
                        &&& r matches Err(e) && e@ == message
                        &&& final(interface).tracing() == old(interface).tracing()
                    },
                }
            },
            old(self)@.kind == ActionKind::Exit ==> {
                &&& r is Ok
                &&& final(interface).exiting()
                &&& final(interface).windows() == old(interface).windows()
                &&& final(interface).tracing() == old(interface).tracing()
            },
    {
        match &mut self.cb {
            CommandAction::DebugTrace => {
                proof {
                    reveal_strlit("value");
                    assert("value"@ =~= trace_parameter());
                }
                match args.get("value") {
                    Some(CallbackArgumentValue::Bool(on)) => {
                        interface.set_debug_trace(*on);
                        Ok(())
                    },
                    Some(_) => Err(String::from_str("'value' was not a valid Bool")),
                    None => Err(String::from_str("missing variable 'value'")),
                }
            },
            CommandAction::Exit => {
                interface.request_exit();
                Ok(())
            },
            CommandAction::Custom(cb) => cb.invoke(interface, args),
        }
    }
}

/// The commands of a console, each under its name.
pub struct CommandRegistry<C> {
    commands: NameMap<ConsoleCommand<C>>,
}

impl<C> View for CommandRegistry<C> {
    type V = Map<Seq<char>, CommandModel<C>>;

    closed spec fn view(&self) -> Map<Seq<char>, CommandModel<C>> {
        self.commands@
    }
}

impl<C> CommandRegistry<C> {
    /// The names of the commands, in their order.
    pub closed spec fn names(&self) -> Seq<Seq<char>> {
        self.commands.names()
    }

    /// The registry lists each command once, in the order of the names.
    pub closed spec fn wf(&self) -> bool {
        self.commands.wf()
    }

    /// A registry without commands.
    pub fn new() -> (registry: Self)
        ensures
            registry.wf(),
            registry@ == Map::<Seq<char>, CommandModel<C>>::empty(),
            registry.names() == Seq::<Seq<char>>::empty(),
    {
        CommandRegistry { commands: NameMap::new() }
    }

    /// The number of commands.
    pub fn len(&self) -> (n: usize)
        ensures
            n == self.names().len(),
    {
        self.commands.len()
    }

    /// Puts `command` under `name`. A command that stood there is replaced,
    /// and the result says so.
    pub fn register(&mut self, name: String, command: ConsoleCommand<C>) -> (overwritten: bool)
        requires
            old(self).wf(),
        ensures
            final(self).wf(),
            final(self)@ == old(self)@.insert(name@, command@),
            overwritten == old(self)@.contains_key(name@),
    {
        match self.commands.insert(name, command) {
            Some(_) => true,
            None => false,
        }
    }

    /// Whether a command stands under `name`.
    pub fn contains(&self, name: &str) -> (r: bool)
        requires
            self.wf(),
        ensures
            r == self@.contains_key(name@),
    {
        self.commands.contains_key(name)
    }

    /// The command under `name`.
    pub fn lookup(&self, name: &str) -> (r: Option<&ConsoleCommand<C>>)
        requires
            self.wf(),
        ensures
            r matches Some(command) ==> self@.contains_key(name@) && self@[name@] == command@,
            r is None ==> !self@.contains_key(name@),
    {
        self.commands.get(name)
    }

    /// Takes the command under `name` out of the registry.
    pub fn unregister(&mut self, name: &str) -> (r: Option<ConsoleCommand<C>>)
        requires
            old(self).wf(),
        ensures
            final(self).wf(),
            final(self)@ == old(self)@.remove(name@),
            r matches Some(command) ==> old(self)@.contains_key(name@) && old(self)@[name@]
                == command@,
            r is None ==> !old(self)@.contains_key(name@),
    {
        self.commands.remove(name)
    }

    /// The names that begin with `text`, in the order of the names.
    pub fn prefix_search(&self, text: &str) -> (found: Vec<String>)
        ensures
            texts_view(found@) == prefix_matches(self.names(), text@),
    {
        self.commands.names_with_prefix(text)
    }

    /// Registries that hold commands under the same names list the names
    /// alike.
    pub proof fn lemma_names_determined(&self, other: &Self)
        requires
            self.wf(),
            other.wf(),
            self@.dom() == other@.dom(),
        ensures
            self.names() == other.names(),
    {
        assert forall|name: Seq<char>| self.names().contains(name) <==> other.names().contains(
            name,
        ) by {
            assert(self@.dom().contains(name) == other@.dom().contains(name));
            assert(self@.contains_key(name) == self.names().contains(name));
            assert(other@.contains_key(name) == other.names().contains(name));
        }
        crate::name_map::lemma_sorted_names_determined(self.names(), other.names());
    }

    /// The names are those under which a command stands, in order.
    pub proof fn lemma_names(&self)
        requires
            self.wf(),
        ensures
            crate::name_map::strictly_sorted(self.names()),
            forall|name: Seq<char>| self.names().contains(name) <==> self@.contains_key(name),
    {
    }
}

/// The name of a kind of value, as error messages write it.
pub open spec fn kind_name(kind: CallbackArgumentType) -> Seq<char> {
    match kind {
        CallbackArgumentType::Float32 => "F32"@,
        CallbackArgumentType::Float64 => "F64"@,
        CallbackArgumentType::Int32 => "I32"@,
        CallbackArgumentType::Int64 => "I64"@,
        CallbackArgumentType::String => "String"@,
        CallbackArgumentType::Bool => "Bool"@,
        CallbackArgumentType::Flag => "Flag"@,
    }
}

/// The message for a mandatory argument that is not bound.
pub open spec fn missing_message(name: Seq<char>) -> Seq<char> {
    "missing variable '"@ + name + "'"@
}

/// The message for an argument that is bound to a value of another kind
/// than `kind`.
pub open spec fn invalid_message(name: Seq<char>, kind: CallbackArgumentType) -> Seq<char> {
    "'"@ + name + "' was not a valid "@ + kind_name(kind)
}

/// What a callback finds for the parameter `def` among `args`: the value
/// bound to its name, which must be of its kind; nothing, where the
/// parameter is optional and not bound; else the message that says what is
/// wrong.
pub open spec fn argument_of(args: Map<Seq<char>, ArgumentValue>, def: DefinitionModel) -> Result<
    Option<ArgumentValue>,
    Seq<char>,
> {
    if args.contains_key(def.name) {
        if kind_of(args[def.name]) == def.kind {
            Ok(Some(args[def.name]))
        } else {
            Err(invalid_message(def.name, def.kind))
        }
    } else if def.optional {
        Ok(None)
    } else {
        Err(missing_message(def.name))
    }
}

/// Whether `value` is of the kind `kind`.
pub fn is_of_kind(value: &CallbackArgumentValue, kind: CallbackArgumentType) -> (r: bool)
    ensures
        r == (kind_of(value@) == kind),
{
    match value {
        CallbackArgumentValue::Float32(_) => kind == CallbackArgumentType::Float32,
        CallbackArgumentValue::Float64(_) => kind == CallbackArgumentType::Float64,
        CallbackArgumentValue::Int32(_) => kind == CallbackArgumentType::Int32,
        CallbackArgumentValue::Int64(_) => kind == CallbackArgumentType::Int64,
        CallbackArgumentValue::String(_) => kind == CallbackArgumentType::String,
        CallbackArgumentValue::Bool(_) => kind == CallbackArgumentType::Bool,
        CallbackArgumentValue::Flag(_) => kind == CallbackArgumentType::Flag,
    }
}

/// Looks up the argument for the parameter `def` among `args`, as a
/// callback does before it runs.
pub fn argument<'a>(args: &'a NameMap<CallbackArgumentValue>, def: &CallbackArgumentDefinition) -> (r:
    Result<Option<&'a CallbackArgumentValue>, String>)
    requires
        args.wf(),
    ensures
        match r {
            Ok(Some(value)) => argument_of(args@, def@) == Ok::<Option<ArgumentValue>, Seq<char>>(
                Some(value@),
            ),
            Ok(None) => argument_of(args@, def@) == Ok::<Option<ArgumentValue>, Seq<char>>(None),
            Err(message) => argument_of(args@, def@) == Err::<Option<ArgumentValue>, Seq<char>>(
                message@,
            ),
        },
{
    match args.get(def.name.as_str()) {
        Some(value) => {
            if is_of_kind(value, def.cba_type) {
                Ok(Some(value))
            } else {
                let mut message = String::from_str("'");
                message.append(def.name.as_str());
                message.append("' was not a valid ");
                message.append(
                    match def.cba_type {
                        CallbackArgumentType::Float32 => "F32",
                        CallbackArgumentType::Float64 => "F64",
                        CallbackArgumentType::Int32 => "I32",
                        CallbackArgumentType::Int64 => "I64",
                        CallbackArgumentType::String => "String",
                        CallbackArgumentType::Bool => "Bool",
                        CallbackArgumentType::Flag => "Flag",
                    },
                );
                Err(message)
            }
        },
        None => {
            if def.optional {
                Ok(None)
            } else {
                let mut message = String::from_str("missing variable '");
                message.append(def.name.as_str());
                message.append("'");
                Err(message)
            }
        },
    }
}

/// Collects the description and the parameters of a command, in the order
/// in which the parameters are declared.
pub struct CommandBuilder {
    description: String,
    args: Vec<CallbackArgumentDefinition>,
}

impl CommandBuilder {
    /// The description given.
    pub closed spec fn described(&self) -> Seq<char> {
        self.description@
    }

    /// The parameters declared so far.
    pub closed spec fn declared(&self) -> Seq<DefinitionModel> {
        defs_view(self.args@)
    }

    /// A builder for a command with the description `description` and no
    /// parameters yet.
    pub fn new(description: String) -> (builder: Self)
        ensures
            builder.described() == description@,
            builder.declared() == Seq::<DefinitionModel>::empty(),
    {
        let builder = CommandBuilder { description, args: Vec::new() };
        assert(builder.declared() =~= Seq::<DefinitionModel>::empty());
        builder
    }

    /// Declares one more parameter.
    pub fn param(self, name: String, cba_type: CallbackArgumentType, optional: bool) -> (builder:
        Self)
        ensures
            builder.described() == self.described(),
            builder.declared() == self.declared().push(
                DefinitionModel { name: name@, kind: cba_type, optional },
            ),
    {
        let mut builder = self;
        builder.args.push(CallbackArgumentDefinition { name, cba_type, optional });
        assert(builder.declared() =~= self.declared().push(
            DefinitionModel { name: name@, kind: cba_type, optional },
        ));
        builder
    }

    /// The command that runs `cb` with the parameters declared.
    pub fn build<C>(self, cb: C) -> (command: ConsoleCommand<C>)
        ensures
            command@ == (CommandModel {
                defs: self.declared(),
                description: self.described(),
                kind: ActionKind::Custom,
                callback: Some(cb),
            }),
    {
        ConsoleCommand::new(cb, self.args, self.description)
    }
}

/// No two definitions of `defs` have the same name.
pub open spec fn definitions_distinct(defs: Seq<DefinitionModel>) -> bool {
    forall|i: int, j: int|
        0 <= i < j < defs.len() ==> (#[trigger] defs[i]).name != (#[trigger] defs[j]).name
}

/// Whether no two definitions of `defs` have the same name.
pub fn names_are_distinct(defs: &Vec<CallbackArgumentDefinition>) -> (r: bool)
    ensures
        r == definitions_distinct(defs_view(defs@)),
{
    let ghost dv = defs_view(defs@);
    let mut j: usize = 0;
    while j < defs.len()
        invariant
            dv == defs_view(defs@),
            j <= defs@.len(),
            forall|a: int, b: int| 0 <= a < b < j ==> (#[trigger] dv[a]).name != (#[trigger] dv[b]).name,
        decreases defs@.len() - j,
    {
        let mut i: usize = 0;
        while i < j
            invariant
                dv == defs_view(defs@),
                i <= j < defs@.len(),
                forall|a: int| 0 <= a < i ==> (#[trigger] dv[a]).name != dv[j as int].name,
            decreases j - i,
        {
            if same_text(defs[i].name.as_str(), defs[j].name.as_str()) {
                assert(dv[i as int].name == dv[j as int].name);
                return false;
            }
            i += 1;
        }
        j += 1;
    }
    true
}

/// Every argument in `bound` belongs to a definition of `defs` and is of
/// its kind.
pub open spec fn arguments_of_their_kind(bound: BoundModel, defs: Seq<DefinitionModel>) -> bool {
    forall|name: Seq<char>| #[trigger]
        bound.contains_key(name) ==> exists|i: int|
            0 <= i < defs.len() && (#[trigger] defs[i]).name == name && kind_of(bound[name])
                == defs[i].kind
}

/// Every one of `slots` is a definition of `defs`, optional or not as
/// `optional` says.
pub open spec fn slots_among(slots: Seq<DefinitionModel>, defs: Seq<DefinitionModel>, optional: bool) -> bool {
    forall|k: int|
        0 <= k < slots.len() ==> (#[trigger] slots[k]).optional == optional && exists|i: int|
            0 <= i < defs.len() && (#[trigger] defs[i]) == slots[k]
}

/// After the named values are taken up, every argument is of the kind of
/// its definition, and every definition is bound or open.
pub proof fn lemma_named_pass_fits(defs: Seq<DefinitionModel>, named: Map<Seq<char>, Seq<char>>)
    requires
        named_pass(defs, named) is Ok,
    ensures
        ({
            let st = named_pass(defs, named)->Ok_0;
            &&& arguments_of_their_kind(st.bound, defs)
            &&& slots_among(st.mandatory, defs, false)
            &&& slots_among(st.optional, defs, true)
            &&& forall|i: int|
                0 <= i < defs.len() ==> st.bound.contains_key((#[trigger] defs[i]).name)
                    || st.mandatory.contains(defs[i]) || st.optional.contains(defs[i])
        }),
    decreases defs.len(),
{
    let st = named_pass(defs, named)->Ok_0;
    if defs.len() > 0 {
        let rest = defs.drop_last();
        let d = defs.last();
        let st0 = named_pass(rest, named)->Ok_0;
        lemma_named_pass_fits(rest, named);
        assert(defs[defs.len() - 1] == d);
        assert forall|name: Seq<char>| #[trigger] st.bound.contains_key(name) implies exists|i: int|
            0 <= i < defs.len() && (#[trigger] defs[i]).name == name && kind_of(st.bound[name])
                == defs[i].kind by {
            if st0.bound.contains_key(name) && st.bound[name] == st0.bound[name] {
                let i = choose|i: int|
                    0 <= i < rest.len() && (#[trigger] rest[i]).name == name && kind_of(
                        st0.bound[name],
                    ) == rest[i].kind;
                assert(defs[i] == rest[i]);
            } else {
                assert(name == d.name);
                if st0.named.contains_key(d.name) {
                    lemma_parsed_value_kind(st0.named[d.name], d.kind);
                }
                assert(defs[defs.len() - 1].name == name);
            }
        }
        assert forall|k: int| 0 <= k < st.mandatory.len() implies (#[trigger] st.mandatory[k]).optional
            == false && exists|i: int| 0 <= i < defs.len() && (#[trigger] defs[i]) == st.mandatory[k] by {
            if k < st0.mandatory.len() {
                assert(st.mandatory[k] == st0.mandatory[k]);
                let i = choose|i: int| 0 <= i < rest.len() && (#[trigger] rest[i]) == st0.mandatory[k];
                assert(defs[i] == rest[i]);
            } else {
                assert(st.mandatory[k] == d);
            }
        }
        assert forall|k: int| 0 <= k < st.optional.len() implies (#[trigger] st.optional[k]).optional
            == true && exists|i: int| 0 <= i < defs.len() && (#[trigger] defs[i]) == st.optional[k] by {
            if k < st0.optional.len() {
                assert(st.optional[k] == st0.optional[k]);
                let i = choose|i: int| 0 <= i < rest.len() && (#[trigger] rest[i]) == st0.optional[k];
                assert(defs[i] == rest[i]);
            } else {
                assert(st.optional[k] == d);
            }
        }
        assert forall|i: int| 0 <= i < defs.len() implies st.bound.contains_key(
            (#[trigger] defs[i]).name,
        ) || st.mandatory.contains(defs[i]) || st.optional.contains(defs[i]) by {
            if i < rest.len() {
                assert(defs[i] == rest[i]);
                if st0.mandatory.contains(rest[i]) {
                    let k = choose|k: int| 0 <= k < st0.mandatory.len() && st0.mandatory[k] == rest[i];
                    assert(st.mandatory[k] == rest[i]);
                }
                if st0.optional.contains(rest[i]) {
                    let k = choose|k: int| 0 <= k < st0.optional.len() && st0.optional[k] == rest[i];
                    assert(st.optional[k] == rest[i]);
                }
            } else {
                if !st.bound.contains_key(d.name) {
                    if d.optional {
                        assert(st.optional[st.optional.len() - 1] == d);
                    } else {
                        assert(st.mandatory[st.mandatory.len() - 1] == d);
                    }
                }
            }
        }
    }
}

/// After values are given out, every argument is still of the kind of its
/// definition, what was bound before is still bound, and each definition
/// that got a value is bound.
pub proof fn lemma_positional_pass_fits(
    slots: Seq<DefinitionModel>,
    values: Seq<Seq<char>>,
    bound: BoundModel,
    defs: Seq<DefinitionModel>,
)
    requires
        values.len() <= slots.len(),
        positional_pass(slots, values, bound) is Ok,
        arguments_of_their_kind(bound, defs),
        forall|k: int|
            0 <= k < slots.len() ==> exists|i: int|
                0 <= i < defs.len() && (#[trigger] defs[i]) == (#[trigger] slots[k]),
    ensures
        ({
            let after = positional_pass(slots, values, bound)->Ok_0;
            &&& arguments_of_their_kind(after, defs)
            &&& forall|name: Seq<char>| bound.contains_key(name) ==> after.contains_key(name)
            &&& forall|k: int| 0 <= k < values.len() ==> after.contains_key((#[trigger] slots[k]).name)
        }),
    decreases values.len(),
{
    if values.len() > 0 {
        let k = values.len() - 1;
        let rest = values.drop_last();
        lemma_positional_pass_fits(slots, rest, bound, defs);
        let before = positional_pass(slots, rest, bound)->Ok_0;
        let after = positional_pass(slots, values, bound)->Ok_0;
        lemma_parsed_value_kind(values[k], slots[k].kind);
        assert forall|name: Seq<char>| #[trigger] after.contains_key(name) implies exists|i: int|
            0 <= i < defs.len() && (#[trigger] defs[i]).name == name && kind_of(after[name])
                == defs[i].kind by {
            if name == slots[k].name {
                let i = choose|i: int| 0 <= i < defs.len() && (#[trigger] defs[i]) == slots[k];
                assert(defs[i].name == name);
            } else {
                assert(before.contains_key(name));
            }
        }
    }
}

/// A callback finds what it needs among the arguments that were bound for
/// it: where a command's parameters have names of their own, and the
/// parameters of a line bind to them, then for each definition the bound
/// arguments hold a value of its kind, or hold none and the definition is
/// optional. So no mandatory argument is missing, and none is of another
/// kind than declared.
pub proof fn lemma_bound_arguments_fit(params: Seq<ParamModel>, defs: Seq<DefinitionModel>)
    requires
        definitions_distinct(defs),
        bind_result(params, defs) is Ok,
    ensures
        forall|i: int|
            0 <= i < defs.len() ==> argument_of(bind_result(params, defs)->Ok_0, #[trigger] defs[i]) is Ok,
{
    let st = named_pass(defs, named_of(params))->Ok_0;
    let values = positional_of(params);
    let slots = st.mandatory + st.optional;
    let bound = bind_result(params, defs)->Ok_0;
    lemma_named_pass_fits(defs, named_of(params));
    assert forall|k: int| 0 <= k < slots.len() implies exists|i: int|
        0 <= i < defs.len() && (#[trigger] defs[i]) == (#[trigger] slots[k]) by {
        if k < st.mandatory.len() {
            assert(slots[k] == st.mandatory[k]);
        } else {
            assert(slots[k] == st.optional[k - st.mandatory.len()]);
        }
    }
    lemma_positional_pass_fits(slots, values, st.bound, defs);
    assert forall|i: int| 0 <= i < defs.len() implies argument_of(bound, #[trigger] defs[i]) is Ok by {
        let d = defs[i];
        if bound.contains_key(d.name) {
            let j = choose|j: int|
                0 <= j < defs.len() && (#[trigger] defs[j]).name == d.name && kind_of(bound[d.name])
                    == defs[j].kind;
            if j < i {
                assert(defs[j].name != defs[i].name);
            } else if i < j {
                assert(defs[i].name != defs[j].name);
            }
        } else {
            assert(!st.bound.contains_key(d.name));
            if st.mandatory.contains(d) {
                let k = choose|k: int| 0 <= k < st.mandatory.len() && st.mandatory[k] == d;
                assert(slots[k] == d);
                assert(bound.contains_key(slots[k].name));
            }
            let k = choose|k: int| 0 <= k < st.optional.len() && st.optional[k] == d;
            assert(st.optional[k].optional);
        }
    }
}

} // verus!
