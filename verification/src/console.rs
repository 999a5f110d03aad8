//! The console: the line being typed, the commands it can call, and what
//! happens when a line is submitted: parse, reduce, look up, bind, run.

use vstd::prelude::*;
use vstd::string::*;
use crate::autocomplete::{
    candidates_for, cleared, place_above, place_below, selection_after, selection_at,
    selection_valid, tab_accepts, after_tab, Autocomplete, AutocompleteModel,
};
use crate::bind::{bind, bind_result, BindError, BindFailure, BoundModel};
use crate::grammar::{derivations, parse, COMMAND_GRAMMAR, MAX_LINE_LENGTH};
use crate::interface::ConsoleCommandInterface;
use crate::name_map::NameMap;
use crate::reduce::{arguments_of, command_line_shaped, command_of, is_command_line_tree, reduce};
use crate::registry::{
    same_but_callback, trace_command_model, trace_outcome, ActionKind, CommandCallback,
    CommandModel, CommandRegistry, ConsoleCommand,
};
use crate::text::{texts_view, trim, trimmed};
use crate::tree::{escape_warnings, unknown_escapes, SyntaxTree};
use crate::value::CallbackArgumentValue;

verus! {

/// Why a submitted line did not run, or how its command failed. None of
/// these ends the console: the next line is read as if nothing had
/// happened.
#[derive(Clone, Debug, PartialEq, Eq)]
pub enum ConsoleError {
    /// The line is too long to be parsed: its length in characters.
    LineTooLong(usize),
    /// The line has no derivation: the line.
    SyntaxError(String),
    /// The line has more than one derivation: how many.
    AmbiguousCommand(usize),
    /// The derivation has a shape that the grammar does not give.
    MalformedTree,
    /// No command stands under the name: the name.
    CommandNotFound(String),
    /// The parameters could not be bound.
    Bind(BindError),
    /// The command ran and reported a failure: its message.
    CallbackError(String),
}

/// What a `ConsoleError` says, with text as sequences of characters.
pub enum ConsoleFailure {
    LineTooLong(nat),
    SyntaxError(Seq<char>),
    AmbiguousCommand(nat),
    MalformedTree,
    CommandNotFound(Seq<char>),
    Bind(BindFailure),
    CallbackError(Seq<char>),
}

impl View for ConsoleError {
    type V = ConsoleFailure;

    open spec fn view(&self) -> ConsoleFailure {
        match self {
            ConsoleError::LineTooLong(n) => ConsoleFailure::LineTooLong(*n as nat),
            ConsoleError::SyntaxError(line) => ConsoleFailure::SyntaxError(line@),
            ConsoleError::AmbiguousCommand(n) => ConsoleFailure::AmbiguousCommand(*n as nat),
            ConsoleError::MalformedTree => ConsoleFailure::MalformedTree,
            ConsoleError::CommandNotFound(name) => ConsoleFailure::CommandNotFound(name@),
            ConsoleError::Bind(e) => ConsoleFailure::Bind(e@),
            ConsoleError::CallbackError(message) => ConsoleFailure::CallbackError(message@),
        }
    }
}

/// A call that is ready to run: the command's name and its bound arguments.
pub type CallModel = (Seq<char>, BoundModel);

/// What the derivations of `line` lead to: the call to make, or why there
/// is none. A line must have exactly one derivation; its command must be
/// registered; its parameters must bind to the command's definitions.
pub open spec fn plan_result<C>(
    line: Seq<char>,
    forest: Seq<SyntaxTree>,
    commands: Map<Seq<char>, CommandModel<C>>,
) -> Result<CallModel, ConsoleFailure> {
    if forest.len() == 0 {
        Err(ConsoleFailure::SyntaxError(line))
    } else if forest.len() > 1 {
        Err(ConsoleFailure::AmbiguousCommand(forest.len()))
    } else if !command_line_shaped(forest[0]) {
        Err(ConsoleFailure::MalformedTree)
    } else if !commands.contains_key(command_of(forest[0])) {
        Err(ConsoleFailure::CommandNotFound(command_of(forest[0])))
    } else {
        match bind_result(arguments_of(forest[0]), commands[command_of(forest[0])].defs) {
            Ok(bound) => Ok((command_of(forest[0]), bound)),
            Err(e) => Err(ConsoleFailure::Bind(e)),
        }
    }
}

/// What submitting `line` leads to before any command runs: the call to
/// make, or why there is none.
pub open spec fn dispatch_result<C>(line: Seq<char>, commands: Map<Seq<char>, CommandModel<C>>) -> Result<
    CallModel,
    ConsoleFailure,
> {
    if line.len() > MAX_LINE_LENGTH {
        Err(ConsoleFailure::LineTooLong(line.len()))
    } else {
        plan_result(line, derivations(COMMAND_GRAMMAR@, line), commands)
    }
}

/// Decides from the derivations of `line` which command to call with which
/// arguments.
pub fn plan<C>(line: &str, forest: &Vec<SyntaxTree>, commands: &CommandRegistry<C>) -> (r: Result<
    (String, NameMap<CallbackArgumentValue>),
    ConsoleError,
>)
    requires
        commands.wf(),
    ensures
        r matches Ok(call) ==> call.1.wf() && plan_result(line@, forest@, commands@) == Ok::<
            CallModel,
            ConsoleFailure,
        >((call.0@, call.1@)),
        r matches Err(e) ==> plan_result(line@, forest@, commands@) == Err::<
            CallModel,
            ConsoleFailure,
        >(e@),
{
    if forest.len() == 0 {
        return Err(ConsoleError::SyntaxError(String::from_str(line)));
    }
    if forest.len() > 1 {
        return Err(ConsoleError::AmbiguousCommand(forest.len()));
    }
    if !is_command_line_tree(&forest[0]) {
        return Err(ConsoleError::MalformedTree);
    }
    let (command, params) = reduce(&forest[0]);
    match commands.lookup(command.as_str()) {
        None => Err(ConsoleError::CommandNotFound(command)),
        Some(cmd) => match bind(&params, cmd.args()) {
            Ok(bound) => Ok((command, bound)),
            Err(e) => Err(ConsoleError::Bind(e)),
        },
    }
}

/// The windows, the tracing switch and the wish to end, as commands can
/// change them.
pub type Switches = (Map<Seq<char>, bool>, bool, bool);

/// What running a command of kind `kind` on `args` comes to: the tracing
/// command sets the tracing switch to its argument, or fails where it has
/// none; the exit command asks for the end; neither touches anything else.
/// A callback may do what it will, and its failure is reported as its own.
pub open spec fn ran_as(
    kind: ActionKind,
    args: BoundModel,
    r: Result<(), ConsoleError>,
    before: Switches,
    after: Switches,
) -> bool {
    match kind {
        ActionKind::DebugTrace => match trace_outcome(args) {
            Ok(on) => r is Ok && after == (before.0, on, before.2),
            Err(message) => {
                &&& r matches Err(ConsoleError::CallbackError(text)) && text@ == message
                &&& after == before
            },
        },
        ActionKind::Exit => r is Ok && after == (before.0, before.1, true),
        ActionKind::Custom => r is Ok || r matches Err(ConsoleError::CallbackError(_)),
    }
}

/// A line with more than one derivation is refused as ambiguous, whatever
/// the derivations and the commands are, so no command runs.
pub proof fn lemma_ambiguous_line_refused<C>(
    line: Seq<char>,
    forest: Seq<SyntaxTree>,
    commands: Map<Seq<char>, CommandModel<C>>,
)
    requires
        forest.len() > 1,
    ensures
        plan_result(line, forest, commands) == Err::<CallModel, ConsoleFailure>(
            ConsoleFailure::AmbiguousCommand(forest.len()),
        ),
{
}

/// A line that calls a name under which no command stands is refused with
/// that name, whatever parameters it gives.
pub proof fn lemma_unknown_command_refused<C>(
    line: Seq<char>,
    tree: SyntaxTree,
    commands: Map<Seq<char>, CommandModel<C>>,
)
    requires
        command_line_shaped(tree),
        !commands.contains_key(command_of(tree)),
    ensures
        plan_result(line, seq![tree], commands) == Err::<CallModel, ConsoleFailure>(
            ConsoleFailure::CommandNotFound(command_of(tree)),
        ),
{
}

/// The escaped texts of a submitted line that are not known: those of its
/// derivation, where it has exactly one.
pub open spec fn warnings_of(line: Seq<char>) -> Seq<Seq<char>> {
    if line.len() <= MAX_LINE_LENGTH && derivations(COMMAND_GRAMMAR@, line).len() == 1 {
        unknown_escapes(derivations(COMMAND_GRAMMAR@, line)[0])
    } else {
        Seq::empty()
    }
}

/// What the console reports of a command that ran: success as it is, and a
/// failure as the command's own, with its message unaltered.
pub fn callback_outcome(ran: Result<(), String>) -> (r: Result<(), ConsoleError>)
    ensures
        ran is Ok ==> r is Ok,
        ran matches Err(message) ==> r matches Err(ConsoleError::CallbackError(text)) && text@
            == message@,
{
    match ran {
        Ok(()) => Ok(()),
        Err(message) => Err(ConsoleError::CallbackError(message)),
    }
}

/// The name under which the console registers its tracing command.
pub open spec fn trace_command_name() -> Seq<char> {
    "k9_debug_console_command"@
}

/// The console of a running application.
pub struct DebugConsole<C> {
    console_text: String,
    set_console_focus: bool,
    console_has_focus: bool,
    autocomplete: Autocomplete,
    console_commands: CommandRegistry<C>,
    interface: ConsoleCommandInterface,
    last_cursor_idx: usize,
    last_warnings: Vec<String>,
}

impl<C> DebugConsole<C> {
    /// The line being typed.
    pub closed spec fn text(&self) -> Seq<char> {
        self.console_text@
    }

    /// The registered commands, each under its name.
    pub closed spec fn commands(&self) -> Map<Seq<char>, CommandModel<C>> {
        self.console_commands@
    }

    /// The names of the registered commands, in their order.
    pub closed spec fn command_names(&self) -> Seq<Seq<char>> {
        self.console_commands.names()
    }

    /// The candidates for the line being typed, and the selection.
    pub closed spec fn selection(&self) -> AutocompleteModel {
        self.autocomplete@
    }

    /// Each known window with whether it is open.
    pub closed spec fn windows(&self) -> Map<Seq<char>, bool> {
        self.interface.windows()
    }

    /// Whether the console logs how it reads each line.
    pub closed spec fn tracing(&self) -> bool {
        self.interface.tracing()
    }

    /// Whether a command has asked the application to end.
    pub closed spec fn exiting(&self) -> bool {
        self.interface.exiting()
    }

    /// The unknown escaped texts of the line submitted last.
    pub closed spec fn warnings(&self) -> Seq<Seq<char>> {
        texts_view(self.last_warnings@)
    }

    /// Whether the input field is to be given the focus.
    pub closed spec fn wants_focus(&self) -> bool {
        self.set_console_focus
    }

    /// Whether the input field has the focus.
    pub closed spec fn focused(&self) -> bool {
        self.console_has_focus
    }

    /// The place of the caret in the line, in characters.
    pub closed spec fn caret(&self) -> int {
        self.last_cursor_idx as int
    }

    /// The registry is in order and the selection points into the
    /// candidates.
    pub closed spec fn wf(&self) -> bool {
        self.console_commands.wf() && selection_valid(self.autocomplete@)
    }

    /// A console over `console_commands`, with the windows named in
    /// `debug_windows`, all closed. The tracing command is added under its
    /// name unless a command stands there already.
    pub fn new(console_commands: CommandRegistry<C>, debug_windows: Vec<String>) -> (console: Self)
        requires
            console_commands.wf(),
        ensures
            console.wf(),
            console.text() == Seq::<char>::empty(),
            console.warnings() == Seq::<Seq<char>>::empty(),
            console.selection() == cleared(),
            !console.wants_focus(),
            !console.focused(),
            !console.tracing(),
            !console.exiting(),
            console.commands() == (if console_commands@.contains_key(trace_command_name()) {
                console_commands@
            } else {
                console_commands@.insert(trace_command_name(), trace_command_model::<C>())
            }),
            forall|id: Seq<char>| #[trigger]
                console.windows().contains_key(id) ==> !console.windows()[id],
            forall|i: int|
                0 <= i < debug_windows@.len() ==> console.windows().contains_key(
                    #[trigger] debug_windows@[i]@,
                ),
            forall|id: Seq<char>| #[trigger]
                console.windows().contains_key(id) ==> exists|i: int|
                    0 <= i < debug_windows@.len() && (#[trigger] debug_windows@[i])@ == id,
    {
        let mut console_commands = console_commands;
        let ghost given = console_commands@;
        if !console_commands.contains("k9_debug_console_command") {
            let _ = console_commands.register(
                String::from_str("k9_debug_console_command"),
                ConsoleCommand::debug_trace(),
            );
        }
        let mut interface = ConsoleCommandInterface::new();
        let mut i: usize = 0;
        while i < debug_windows.len()
            invariant
                i <= debug_windows@.len(),
                !interface.tracing(),
                !interface.exiting(),
                forall|id: Seq<char>| #[trigger]
                    interface.windows().contains_key(id) ==> !interface.windows()[id],
                forall|k: int|
                    0 <= k < i ==> interface.windows().contains_key(#[trigger] debug_windows@[k]@),
                forall|id: Seq<char>| #[trigger]
                    interface.windows().contains_key(id) ==> exists|k: int|
                        0 <= k < i && (#[trigger] debug_windows@[k])@ == id,
            decreases debug_windows@.len() - i,
        {
            let ghost known = interface.windows();
            let _ = interface.add_debug_window(debug_windows[i].clone());
            assert forall|id: Seq<char>| #[trigger]
                interface.windows().contains_key(id) implies exists|k: int|
                0 <= k < i + 1 && (#[trigger] debug_windows@[k])@ == id by {
                if known.contains_key(id) {
                    let k = choose|k: int| 0 <= k < i && (#[trigger] debug_windows@[k])@ == id;
                    assert(debug_windows@[k]@ == id);
                } else {
                    assert(debug_windows@[i as int]@ == id);
                }
            }
            i += 1;
        }
        DebugConsole {
            console_text: String::new(),
            set_console_focus: false,
            console_has_focus: false,
            autocomplete: Autocomplete::new(),
            console_commands,
            interface,
            last_cursor_idx: 0,
            last_warnings: Vec::new(),
        }
    }

    /// The line being typed.
    pub fn console_text(&self) -> (text: &String)
        ensures
            text@ == self.text(),
    {
        &self.console_text
    }

    /// The unknown escaped texts of the line submitted last: they were
    /// taken as they are.
    pub fn escape_warnings(&self) -> (texts: &Vec<String>)
        ensures
            texts_view(texts@) == self.warnings(),
    {
        &self.last_warnings
    }

    /// The candidates and the selection.
    pub fn autocomplete(&self) -> (state: &Autocomplete)
        ensures
            state@ == self.selection(),
    {
        &self.autocomplete
    }

    /// The registered commands.
    pub fn console_commands(&self) -> (registry: &CommandRegistry<C>)
        ensures
            registry@ == self.commands(),
            registry.names() == self.command_names(),
            self.wf() ==> registry.wf(),
    {
        &self.console_commands
    }

    /// The windows and switches that commands can reach.
    pub fn interface(&self) -> (handle: &ConsoleCommandInterface)
        ensures
            handle.windows() == self.windows(),
            handle.tracing() == self.tracing(),
            handle.exiting() == self.exiting(),
    {
        &self.interface
    }

    /// Whether the input field is to be given the focus.
    pub fn console_focus_wanted(&self) -> (r: bool)
        ensures
            r == self.wants_focus(),
    {
        self.set_console_focus
    }

    /// Whether the input field has the focus.
    pub fn has_focus(&self) -> (r: bool)
        ensures
            r == self.focused(),
    {
        self.console_has_focus
    }

    /// `self` has the commands, the windows and the switches of `other`.
    pub open spec fn same_setting(&self, other: Self) -> bool {
        &&& self.wf() == other.wf()
        &&& self.commands() == other.commands()
        &&& self.command_names() == other.command_names()
        &&& self.same_switches(other)
    }

    /// `self` has the windows and the switches of `other`.
    pub open spec fn same_switches(&self, other: Self) -> bool {
        &&& self.windows() == other.windows()
        &&& self.tracing() == other.tracing()
        &&& self.exiting() == other.exiting()
    }

    /// `self` has the line, the selection and the warnings of `other`.
    pub open spec fn same_line(&self, other: Self) -> bool {
        &&& self.text() == other.text()
        &&& self.selection() == other.selection()
        &&& self.warnings() == other.warnings()
    }

    /// `self` has the focus, the wish for it and the caret of `other`.
    pub open spec fn same_focus(&self, other: Self) -> bool {
        &&& self.focused() == other.focused()
        &&& self.wants_focus() == other.wants_focus()
        &&& self.caret() == other.caret()
    }

    /// Asks for the input field to be given the focus, or takes the request
    /// back once it has been met.
    pub fn set_console_focus(&mut self, wanted: bool)
        ensures
            final(self).wants_focus() == wanted,
            final(self).focused() == old(self).focused(),
            final(self).caret() == old(self).caret(),
            final(self).same_setting(*old(self)),
            final(self).same_line(*old(self)),
    {
        self.set_console_focus = wanted;
    }

    /// Takes note of whether the input field has the focus.
    pub fn set_has_focus(&mut self, has_focus: bool)
        ensures
            final(self).focused() == has_focus,
            final(self).wants_focus() == old(self).wants_focus(),
            final(self).caret() == old(self).caret(),
            final(self).same_setting(*old(self)),
            final(self).same_line(*old(self)),
    {
        self.console_has_focus = has_focus;
    }

    /// Takes note of the place of the caret, in characters.
    pub fn set_cursor(&mut self, index: usize)
        ensures
            final(self).caret() == index,
            final(self).focused() == old(self).focused(),
            final(self).wants_focus() == old(self).wants_focus(),
            final(self).same_setting(*old(self)),
            final(self).same_line(*old(self)),
    {
        self.last_cursor_idx = index;
    }

    /// Puts `command` under `name`. A command that stood there is replaced,
    /// and the result says so.
    pub fn register(&mut self, name: String, command: ConsoleCommand<C>) -> (overwritten: bool)
        requires
            old(self).wf(),
        ensures
            final(self).wf(),
            final(self).commands() == old(self).commands().insert(name@, command@),
            overwritten == old(self).commands().contains_key(name@),
            final(self).same_switches(*old(self)),
            final(self).same_line(*old(self)),
            final(self).same_focus(*old(self)),
    {
        self.console_commands.register(name, command)
    }

    /// Takes up an edit of the line: the candidates become the commands
    /// that begin with the new line, and the selection follows them.
    pub fn text_edited(&mut self, text: String)
        requires
            old(self).wf(),
        ensures
            final(self).wf(),
            final(self).text() == text@,
            final(self).selection().candidates == candidates_for(old(self).command_names(), text@),
            final(self).selection().selected == selection_after(
                old(self).selection().selected,
                final(self).selection().candidates,
            ),
            final(self).selection().show_list == old(self).selection().show_list,
            final(self).warnings() == old(self).warnings(),
            final(self).same_setting(*old(self)),
            final(self).same_focus(*old(self)),
    {
        self.console_text = text;
        self.autocomplete.text_changed(self.console_text.as_str(), &self.console_commands);
    }

    /// Empties the line and leaves nothing to choose from.
    pub fn clear_text(&mut self)
        requires
            old(self).wf(),
        ensures
            final(self).wf(),
            final(self).text() == Seq::<char>::empty(),
            final(self).selection() == cleared(),
            final(self).warnings() == old(self).warnings(),
            final(self).same_setting(*old(self)),
            final(self).same_focus(*old(self)),
    {
        self.console_text = String::new();
        self.autocomplete.clear();
    }

    /// Moves the selection one place up, from the first candidate to the
    /// last.
    pub fn arrow_up(&mut self)
        requires
            old(self).wf(),
        ensures
            final(self).wf(),
            final(self).text() == old(self).text(),
            final(self).warnings() == old(self).warnings(),
            final(self).selection().candidates == old(self).selection().candidates,
            final(self).selection().show_list == old(self).selection().show_list,
            final(self).selection().selected == (match old(self).selection().selected {
                Some((_, i)) => selection_at(
                    old(self).selection().candidates,
                    place_above(i, old(self).selection().candidates.len() as int),
                ),
                None => None,
            }),
            final(self).same_setting(*old(self)),
            final(self).same_focus(*old(self)),
    {
        self.autocomplete.move_up();
    }

    /// Moves the selection one place down, from the last candidate to the
    /// first.
    pub fn arrow_down(&mut self)
        requires
            old(self).wf(),
        ensures
            final(self).wf(),
            final(self).text() == old(self).text(),
            final(self).warnings() == old(self).warnings(),
            final(self).selection().candidates == old(self).selection().candidates,
            final(self).selection().show_list == old(self).selection().show_list,
            final(self).selection().selected == (match old(self).selection().selected {
                Some((_, i)) => selection_at(
                    old(self).selection().candidates,
                    place_below(i, old(self).selection().candidates.len() as int),
                ),
                None => None,
            }),
            final(self).same_setting(*old(self)),
            final(self).same_focus(*old(self)),
    {
        self.autocomplete.move_down();
    }

    /// Takes up the tab key. While the input field has the focus: with no
    /// selection the first candidate is selected; else a single candidate
    /// is accepted, which makes it the line and leaves nothing to choose
    /// from; else the list is shown or hidden. Without the focus nothing
    /// changes. The result says whether a candidate was accepted.
    pub fn tab(&mut self) -> (accepted: bool)
        requires
            old(self).wf(),
        ensures
            final(self).wf(),
            accepted == (old(self).focused() && tab_accepts(old(self).selection())),
            accepted ==> final(self).selection() == cleared() && final(self).text() == old(
                self,
            ).selection().candidates[0],
            !accepted ==> final(self).text() == old(self).text(),
            !accepted && old(self).focused() ==> final(self).selection() == after_tab(
                old(self).selection(),
            ),
            !old(self).focused() ==> final(self).selection() == old(self).selection(),
            final(self).warnings() == old(self).warnings(),
            final(self).same_setting(*old(self)),
            final(self).same_focus(*old(self)),
    {
        match self.autocomplete.tab(self.console_has_focus) {
            Some(text) => {
                self.console_text = text;
                true
            },
            None => false,
        }
    }

    /// Takes up the right-arrow key: with the caret at the end of the line
    /// the selected candidate becomes the line, and nothing is left to
    /// choose from. The result says whether that happened.
    pub fn arrow_right(&mut self) -> (accepted: bool)
        requires
            old(self).wf(),
        ensures
            final(self).wf(),
            accepted == (old(self).selection().selected is Some && old(self).caret() == old(
                self,
            ).text().len()),
            accepted ==> final(self).selection() == cleared() && (
            old(self).selection().selected matches Some((name, _)) && final(self).text() == name),
            !accepted ==> final(self).text() == old(self).text() && final(self).selection() == old(
                self,
            ).selection(),
            final(self).warnings() == old(self).warnings(),
            final(self).same_setting(*old(self)),
            final(self).same_focus(*old(self)),
    {
        let text_len: usize = self.console_text.as_str().unicode_len();
        match self.autocomplete.accept(self.last_cursor_idx, text_len) {
            Some(text) => {
                self.console_text = text;
                true
            },
            None => false,
        }
    }
}

impl<C: CommandCallback> DebugConsole<C> {
    /// Submits the line: it is trimmed, parsed, reduced, bound and run.
    /// Whatever comes of it, the line is then empty, nothing is left to
    /// choose from, the input field is to get the focus, and the same
    /// names are registered. Where the line leads to no call, the error
    /// says why, and commands, windows and switches are untouched. Where it
    /// leads to a call, the command has run, and an error is the command's
    /// own; the other commands are untouched, and the one that ran is what
    /// it was, but that its callback may have changed its own state.
    pub fn submit(&mut self) -> (r: Result<(), ConsoleError>)
        requires
            old(self).wf(),
        ensures
            final(self).wf(),
            final(self).text() == Seq::<char>::empty(),
            final(self).selection() == cleared(),
            final(self).wants_focus(),
            final(self).focused() == old(self).focused(),
            final(self).caret() == old(self).caret(),
            final(self).command_names() == old(self).command_names(),
            final(self).warnings() == warnings_of(trimmed(old(self).text())),
            match dispatch_result(trimmed(old(self).text()), old(self).commands()) {
                Err(e) => {
                    &&& r matches Err(x) && x@ == e
                    &&& final(self).commands() == old(self).commands()
                    &&& final(self).windows() == old(self).windows()
                    &&& final(self).tracing() == old(self).tracing()
                    &&& final(self).exiting() == old(self).exiting()
                },
                Ok(call) => {
                    &&& ran_as(
                        old(self).commands()[call.0].kind,
                        call.1,
                        r,
                        (old(self).windows(), old(self).tracing(), old(self).exiting()),
                        (final(self).windows(), final(self).tracing(), final(self).exiting()),
                    )
                    &&& final(self).commands() == old(self).commands().insert(
                        call.0,
                        final(self).commands()[call.0],
                    )
                    &&& same_but_callback(final(self).commands()[call.0], old(self).commands()[call.0])
                },
            },
    {
        let line = trim(self.console_text.as_str());
        self.last_warnings = Vec::new();
        assert(texts_view(self.last_warnings@) =~= Seq::<Seq<char>>::empty());
        let parsed = parse(line.as_str());
        match &parsed {
            Some(forest) => {
                if forest.len() == 1 {
                    self.last_warnings = escape_warnings(&forest[0]);
                }
            },
            None => {},
        }
        let outcome = match parsed {
            None => Err(ConsoleError::LineTooLong(line.as_str().unicode_len())),
            Some(forest) => match plan(line.as_str(), &forest, &self.console_commands) {
                Err(e) => Err(e),
                Ok((name, args)) => {
                    let ghost before = self.console_commands;
                    match self.console_commands.unregister(name.as_str()) {
                        Some(mut command) => {
                            let ran = command.run(&mut self.interface, args);
                            let _ = self.console_commands.register(name, command);
                            proof {
                                assert(self.console_commands@ =~= before@.insert(
                                    name@,
                                    self.console_commands@[name@],
                                ));
                                assert(self.console_commands@.dom() =~= before@.dom());
                                self.console_commands.lemma_names_determined(&before);
                            }
                            callback_outcome(ran)
                        },
                        None => Err(ConsoleError::CommandNotFound(name)),
                    }
                },
            },
        };
        self.console_text = String::new();
        self.set_console_focus = true;
        self.autocomplete.clear();
        outcome
    }
}

} // verus!
