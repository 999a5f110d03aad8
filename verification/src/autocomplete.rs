//! The selection among the commands that match what has been typed: which
//! names are candidates, which of them is selected, how the arrow keys and
//! the tab key move the selection, and which part of a long list is shown.

use vstd::prelude::*;
use crate::name_map::{lemma_position_unique, lemma_prefix_matches, position, prefix_matches};
use crate::registry::CommandRegistry;
use crate::text::{same_text, texts_view};

verus! {

/// What the selection is: the candidates in their order, the selected
/// candidate with its place, and whether the whole list is shown.
pub struct AutocompleteModel {
    pub candidates: Seq<Seq<char>>,
    pub selected: Option<(Seq<char>, int)>,
    pub show_list: bool,
}

/// The selection that points at place `i` of `candidates`.
pub open spec fn selection_at(candidates: Seq<Seq<char>>, i: int) -> Option<(Seq<char>, int)> {
    Some((candidates[i], i))
}

/// The candidates for `text` among `names`: none for the empty text, else
/// the names that begin with it.
pub open spec fn candidates_for(names: Seq<Seq<char>>, text: Seq<char>) -> Seq<Seq<char>> {
    if text.len() == 0 {
        Seq::empty()
    } else {
        prefix_matches(names, text)
    }
}

/// The selection after the candidates changed: the candidate selected
/// before where it is still among them, else the first, else none.
pub open spec fn selection_after(
    previous: Option<(Seq<char>, int)>,
    candidates: Seq<Seq<char>>,
) -> Option<(Seq<char>, int)> {
    match previous {
        Some((name, _)) if candidates.contains(name) => Some((name, position(candidates, name))),
        _ => if candidates.len() > 0 {
            selection_at(candidates, 0)
        } else {
            None
        },
    }
}

/// A selected command stays selected while it matches what is typed: where
/// the command selected before still begins with the new text, it is
/// selected after the edit, at the place that it has among the new
/// candidates.
pub proof fn lemma_selection_kept(
    names: Seq<Seq<char>>,
    previous: Option<(Seq<char>, int)>,
    text: Seq<char>,
)
    requires
        text.len() > 0,
        previous matches Some((name, _)) && names.contains(name) && text.is_prefix_of(name),
    ensures
        selection_after(previous, candidates_for(names, text)) matches Some((kept, place))
            && previous matches Some((name, _)) && kept == name && 0 <= place < candidates_for(
            names,
            text,
        ).len() && candidates_for(names, text)[place] == name,
{
    lemma_prefix_matches(names, text);
}

/// The place above `i` in a list of `len`, going round from the first to
/// the last.
pub open spec fn place_above(i: int, len: int) -> int {
    if i == 0 {
        len - 1
    } else {
        i - 1
    }
}

/// The place below `i` in a list of `len`, going round from the last to the
/// first.
pub open spec fn place_below(i: int, len: int) -> int {
    if i == len - 1 {
        0
    } else {
        i + 1
    }
}

/// The state after the tab key, where nothing is accepted: with no
/// selection the first candidate is selected; else the list is shown or
/// hidden, and shown only where there is a candidate.
pub open spec fn after_tab(m: AutocompleteModel) -> AutocompleteModel {
    if m.selected is None && m.candidates.len() > 0 {
        AutocompleteModel { selected: selection_at(m.candidates, 0), ..m }
    } else if m.show_list {
        AutocompleteModel { show_list: false, ..m }
    } else {
        AutocompleteModel { show_list: m.candidates.len() > 0, ..m }
    }
}

/// Whether the tab key accepts the only candidate.
pub open spec fn tab_accepts(m: AutocompleteModel) -> bool {
    !(m.selected is None && m.candidates.len() > 0) && m.candidates.len() == 1
}

/// The state with nothing to choose from.
pub open spec fn cleared() -> AutocompleteModel {
    AutocompleteModel { candidates: Seq::empty(), selected: None, show_list: false }
}

/// The selection of the console's input field.
pub struct Autocomplete {
    preview: Vec<String>,
    selected: Option<(String, usize)>,
    draw_list: bool,
}

impl View for Autocomplete {
    type V = AutocompleteModel;

    closed spec fn view(&self) -> AutocompleteModel {
        AutocompleteModel {
            candidates: texts_view(self.preview@),
            selected: match self.selected {
                Some((name, i)) => Some((name@, i as int)),
                None => None,
            },
            show_list: self.draw_list,
        }
    }
}

/// The selected candidate, where there is one, is among the candidates at
/// its place.
pub open spec fn selection_valid(m: AutocompleteModel) -> bool {
    m.selected matches Some((name, i)) ==> 0 <= i < m.candidates.len() && m.candidates[i] == name
}

/// A place at which `list` holds `name`, where it holds it.
pub fn find_name(list: &Vec<String>, name: &str) -> (r: Option<usize>)
    ensures
        r matches Some(i) ==> i < list@.len() && list@[i as int]@ == name@,
        r is None ==> !texts_view(list@).contains(name@),
{
    let mut it: usize = 0;
    while it < list.len()
        invariant
            it <= list@.len(),
            forall|k: int| 0 <= k < it ==> list@[k]@ != name@,
        decreases list@.len() - it,
    {
        if same_text(list[it].as_str(), name) {
            return Some(it);
        }
        it += 1;
    }
    assert forall|k: int| 0 <= k < texts_view(list@).len() implies texts_view(list@)[k] != name@ by {
        assert(list@[k]@ != name@);
    }
    None
}

impl Autocomplete {
    /// The selection with nothing to choose from.
    pub fn new() -> (state: Self)
        ensures
            state@ == cleared(),
    {
        let state = Autocomplete { preview: Vec::new(), selected: None, draw_list: false };
        assert(state@.candidates =~= Seq::<Seq<char>>::empty());
        state
    }

    /// The candidates, in their order.
    pub fn candidates(&self) -> (list: &Vec<String>)
        ensures
            texts_view(list@) == self@.candidates,
    {
        &self.preview
    }

    /// The selected candidate and its place.
    pub fn selected(&self) -> (r: Option<(&String, usize)>)
        ensures
            match r {
                Some((name, i)) => self@.selected == Some((name@, i as int)),
                None => self@.selected is None,
            },
    {
        match &self.selected {
            Some((name, i)) => Some((name, *i)),
            None => None,
        }
    }

    /// Whether the whole list of candidates is shown.
    pub fn shows_list(&self) -> (r: bool)
        ensures
            r == self@.show_list,
    {
        self.draw_list
    }

    /// Forgets candidates and selection, and hides the list.
    pub fn clear(&mut self)
        ensures
            final(self)@ == cleared(),
    {
        self.preview = Vec::new();
        self.selected = None;
        self.draw_list = false;
        assert(self@.candidates =~= Seq::<Seq<char>>::empty());
    }

    /// Takes up an edit of the input: the candidates become the commands
    /// that begin with `text`, none for the empty text. The candidate
    /// selected before stays selected where it is still a candidate; else
    /// the first candidate is selected.
    pub fn text_changed<C>(&mut self, text: &str, commands: &CommandRegistry<C>)
        requires
            commands.wf(),
        ensures
            final(self)@.candidates == candidates_for(commands.names(), text@),
            final(self)@.selected == selection_after(old(self)@.selected, final(self)@.candidates),
            final(self)@.show_list == old(self)@.show_list,
            selection_valid(final(self)@),
    {
        let prev_selected = self.selected.take();
        self.preview = Vec::new();
        assert(texts_view(self.preview@) =~= Seq::<Seq<char>>::empty());
        if text.unicode_len() != 0 {
            self.preview = commands.prefix_search(text);
        }
        let ghost candidates = texts_view(self.preview@);
        proof {
            commands.lemma_names();
            lemma_prefix_matches(commands.names(), text@);
        }
        let prev_index: Option<usize> = match &prev_selected {
            Some((name, _)) => find_name(&self.preview, name.as_str()),
            None => None,
        };
        proof {
            if text@.len() == 0 {
                assert(candidates =~= Seq::<Seq<char>>::empty());
            }
        }
        match prev_index {
            Some(idx) => {
                proof {
                    assert(candidates[idx as int] == self.preview@[idx as int]@);
                    lemma_position_unique(candidates, idx as int);
                }
                self.selected = Some((self.preview[idx].clone(), idx));
            },
            None => {
                if self.preview.len() > 0 {
                    self.selected = Some((self.preview[0].clone(), 0));
                } else {
                    self.selected = None;
                }
            },
        }
    }

    /// Moves the selection one place up, from the first candidate to the
    /// last. Without a selection nothing changes.
    pub fn move_up(&mut self)
        requires
            selection_valid(old(self)@),
        ensures
            final(self)@.candidates == old(self)@.candidates,
            final(self)@.show_list == old(self)@.show_list,
            final(self)@.selected == (match old(self)@.selected {
                Some((_, i)) => selection_at(
                    old(self)@.candidates,
                    place_above(i, old(self)@.candidates.len() as int),
                ),
                None => None,
            }),
            selection_valid(final(self)@),
    {
        let place: Option<usize> = match &self.selected {
            Some((_, it)) => Some(*it),
            None => None,
        };
        match place {
            Some(it) => {
                let to: usize = if it == 0 {
                    self.preview.len() - 1
                } else {
                    it - 1
                };
                self.selected = Some((self.preview[to].clone(), to));
            },
            None => {},
        }
    }

    /// Moves the selection one place down, from the last candidate to the
    /// first. Without a selection nothing changes.
    pub fn move_down(&mut self)
        requires
            selection_valid(old(self)@),
        ensures
            final(self)@.candidates == old(self)@.candidates,
            final(self)@.show_list == old(self)@.show_list,
            final(self)@.selected == (match old(self)@.selected {
                Some((_, i)) => selection_at(
                    old(self)@.candidates,
                    place_below(i, old(self)@.candidates.len() as int),
                ),
                None => None,
            }),
            selection_valid(final(self)@),
    {
        let place: Option<usize> = match &self.selected {
            Some((_, it)) => Some(*it),
            None => None,
        };
        match place {
            Some(it) => {
                let to: usize = if it == self.preview.len() - 1 {
                    0
                } else {
                    it + 1
                };
                self.selected = Some((self.preview[to].clone(), to));
            },
            None => {},
        }
    }

    /// Takes up the tab key. While the input field has the focus: with no
    /// selection the first candidate is selected; else a single candidate
    /// is accepted, which hands it back as the new input and leaves nothing
    /// to choose from; else the list is shown or hidden. Without the focus
    /// nothing changes.
    pub fn tab(&mut self, has_focus: bool) -> (accepted: Option<String>)
        ensures
            !has_focus ==> accepted is None && final(self)@ == old(self)@,
            has_focus && tab_accepts(old(self)@) ==> final(self)@ == cleared() && (
            accepted matches Some(text) && text@ == old(self)@.candidates[0]),
            has_focus && !tab_accepts(old(self)@) ==> accepted is None && final(self)@ == after_tab(
                old(self)@,
            ),
            selection_valid(old(self)@) ==> selection_valid(final(self)@),
    {
        if !has_focus {
            return None;
        }
        if self.selected.is_none() && self.preview.len() > 0 {
            self.selected = Some((self.preview[0].clone(), 0));
            None
        } else if self.preview.len() == 1 {
            let text = self.preview[0].clone();
            self.clear();
            Some(text)
        } else {
            if self.draw_list {
                self.draw_list = false;
            } else if self.preview.len() > 0 {
                self.draw_list = true;
            }
            None
        }
    }

    /// Takes up the key that accepts the selection. With a selection, and
    /// the caret at the end of an input of `text_len` characters, the
    /// selected candidate is handed back as the new input and nothing is
    /// left to choose from; else nothing changes.
    pub fn accept(&mut self, caret: usize, text_len: usize) -> (accepted: Option<String>)
        ensures
            old(self)@.selected is Some && caret == text_len ==> final(self)@ == cleared() && (
            accepted matches Some(text) && old(self)@.selected matches Some((name, _)) && text@
                == name),
            !(old(self)@.selected is Some && caret == text_len) ==> accepted is None && final(self)@
                == old(self)@,
    {
        if caret != text_len {
            return None;
        }
        match self.selected.take() {
            Some((name, _)) => {
                self.clear();
                Some(name)
            },
            None => None,
        }
    }
}

/// The part of a long list that is shown: the places of the first and the
/// last candidate shown, and above and below them how many more there are,
/// where a marker says so.
#[derive(Clone, Copy, Debug, PartialEq, Eq, Structural)]
pub struct PreviewWindow {
    pub first: isize,
    pub last: isize,
    pub more_above: Option<isize>,
    pub more_below: Option<isize>,
}

/// What a `PreviewWindow` says, in unbounded integers.
pub struct WindowModel {
    pub first: int,
    pub last: int,
    pub more_above: Option<int>,
    pub more_below: Option<int>,
}

impl View for PreviewWindow {
    type V = WindowModel;

    open spec fn view(&self) -> WindowModel {
        WindowModel {
            first: self.first as int,
            last: self.last as int,
            more_above: match self.more_above {
                Some(n) => Some(n as int),
                None => None,
            },
            more_below: match self.more_below {
                Some(n) => Some(n as int),
                None => None,
            },
        }
    }
}

/// The window with its markers: a marker takes the row of the candidate
/// next to it.
pub open spec fn with_markers(
    first: int,
    last: int,
    more_above: Option<int>,
    more_below: Option<int>,
) -> WindowModel {
    WindowModel {
        first: if more_above is Some {
            first + 1
        } else {
            first
        },
        last: if more_below is Some {
            last - 1
        } else {
            last
        },
        more_above,
        more_below,
    }
}

/// The window on a list of `len` candidates with the one at `selected`
/// selected, where `slots` rows are free. A list that fits is shown whole.
/// Else the window holds `slots / 2` rows before the selected one and the
/// rest after it, and is moved back into the list where it would leave it.
pub open spec fn window_for(selected: int, len: int, slots: int) -> WindowModel {
    if len <= slots {
        with_markers(0, len - 1, None, None)
    } else {
        let before = slots / 2;
        let after = slots - before - 1;
        let low = selected - before;
        let high = selected + after;
        if low < 0 {
            with_markers(0, slots - 1, None, Some(len - (slots - 1)))
        } else if high >= len - 1 {
            with_markers(len - slots, len - 1, Some(len - slots + 1), None)
        } else {
            with_markers(
                low,
                high,
                if low != 0 {
                    Some(low + 1)
                } else {
                    None
                },
                Some(len - high),
            )
        }
    }
}

/// The part of a list of `list_len` candidates that `slots` free rows show
/// around the candidate at `selected`.
pub fn preview_window(selected: usize, list_len: usize, slots: usize) -> (window: PreviewWindow)
    requires
        selected < list_len < isize::MAX,
    ensures
        window@ == window_for(selected as int, list_len as int, slots as int),
{
    let len: i128 = list_len as i128;
    if list_len <= slots {
        return PreviewWindow {
            first: 0,
            last: (len - 1) as isize,
            more_above: None,
            more_below: None,
        };
    }
    let room: i128 = slots as i128;
    let before: i128 = room / 2;
    let after: i128 = room - before - 1;
    let low: i128 = selected as i128 - before;
    let high: i128 = selected as i128 + after;
    let mut first: i128 = low;
    let mut last: i128 = high;
    let mut more_above: Option<isize> = None;
    let mut more_below: Option<isize> = None;
    if low < 0 {
        first = 0;
        last = room - 1;
        more_below = Some((len - last) as isize);
    } else if high >= len - 1 {
        first = len - room;
        last = len - 1;
        more_above = Some((first + 1) as isize);
    } else {
        if low != 0 {
            more_above = Some((low + 1) as isize);
        }
        more_below = Some((len - high) as isize);
    }
    if more_above.is_some() {
        first = first + 1;
    }
    if more_below.is_some() {
        last = last - 1;
    }
    PreviewWindow { first: first as isize, last: last as isize, more_above, more_below }
}

} // verus!
