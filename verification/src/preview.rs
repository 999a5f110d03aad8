//! The rows in which the candidate list is written: the candidates that the
//! window shows, each with its place, and a marker above and below them
//! that says how many more there are.

use vstd::prelude::*;
use vstd::string::*;
use crate::autocomplete::{preview_window, window_for, WindowModel};
use crate::text::texts_view;

verus! {

/// The digit that writes `d`.
pub open spec fn digit_char(d: int) -> char {
    if d == 0 {
        '0'
    } else if d == 1 {
        '1'
    } else if d == 2 {
        '2'
    } else if d == 3 {
        '3'
    } else if d == 4 {
        '4'
    } else if d == 5 {
        '5'
    } else if d == 6 {
        '6'
    } else if d == 7 {
        '7'
    } else if d == 8 {
        '8'
    } else {
        '9'
    }
}

/// `n` written in decimal digits, without leading zeros.
pub open spec fn decimal(n: nat) -> Seq<char>
    decreases n,
{
    if n < 10 {
        seq![digit_char(n as int)]
    } else {
        decimal(n / 10).push(digit_char((n % 10) as int))
    }
}

/// The row of the candidate at `place`: the place, a colon, a space and the
/// name.
pub open spec fn entry_text(place: int, name: Seq<char>) -> Seq<char> {
    decimal(place as nat) + seq![':', ' '] + name
}

/// The marker for `more` candidates that are not shown.
pub open spec fn marker_text(more: int) -> Seq<char> {
    seq!['<'] + decimal(more as nat) + seq![' ', 'm', 'o', 'r', 'e', '>']
}

/// The rows of the candidates at the `count` places from `first` on.
pub open spec fn entry_rows(candidates: Seq<Seq<char>>, first: int, count: nat) -> Seq<Seq<char>> {
    Seq::new(count, |k: int| entry_text(first + k, candidates[first + k]))
}

/// The number of candidates that a window shows.
pub open spec fn shown(w: WindowModel) -> nat {
    if w.last >= w.first {
        (w.last - w.first + 1) as nat
    } else {
        0
    }
}

/// The rows of the list as the window `w` shows it: the marker above where
/// there is one, the candidates from the first to the last shown, and the
/// marker below where there is one.
pub open spec fn preview_rows_of(candidates: Seq<Seq<char>>, w: WindowModel) -> Seq<Seq<char>> {
    (match w.more_above {
        Some(more) => seq![marker_text(more)],
        None => Seq::empty(),
    }) + entry_rows(candidates, w.first, shown(w)) + (match w.more_below {
        Some(more) => seq![marker_text(more)],
        None => Seq::empty(),
    })
}

/// The row on which the candidate at `selected` stands, where the window
/// shows it.
pub open spec fn selected_row_of(selected: int, w: WindowModel) -> Option<int> {
    if w.first <= selected <= w.last {
        Some(
            (if w.more_above is Some {
                1int
            } else {
                0int
            }) + selected - w.first,
        )
    } else {
        None
    }
}

/// A window shows places of its list only, and counts no fewer than no
/// candidates.
pub proof fn lemma_window_in_list(selected: int, len: int, slots: int)
    requires
        0 <= selected < len,
        0 <= slots,
    ensures
        ({
            let w = window_for(selected, len, slots);
            &&& 0 <= w.first
            &&& -2 <= w.last < len
            &&& w.more_above matches Some(more) ==> 0 < more <= len + 1
            &&& w.more_below matches Some(more) ==> 0 < more <= len + 1
        }),
{
}

/// `n` in decimal digits.
pub fn decimal_text(n: usize) -> (text: String)
    ensures
        text@ == decimal(n as nat),
    decreases n,
{
    proof {
        reveal_strlit("0");
        reveal_strlit("1");
        reveal_strlit("2");
        reveal_strlit("3");
        reveal_strlit("4");
        reveal_strlit("5");
        reveal_strlit("6");
        reveal_strlit("7");
        reveal_strlit("8");
        reveal_strlit("9");
        assert("0"@ =~= seq!['0'] && "1"@ =~= seq!['1'] && "2"@ =~= seq!['2'] && "3"@ =~= seq!['3']);
        assert("4"@ =~= seq!['4'] && "5"@ =~= seq!['5'] && "6"@ =~= seq!['6'] && "7"@ =~= seq!['7']);
        assert("8"@ =~= seq!['8'] && "9"@ =~= seq!['9']);
    }
    let last: usize = n % 10;
    let digit: &str = if last == 0 {
        "0"
    } else if last == 1 {
        "1"
    } else if last == 2 {
        "2"
    } else if last == 3 {
        "3"
    } else if last == 4 {
        "4"
    } else if last == 5 {
        "5"
    } else if last == 6 {
        "6"
    } else if last == 7 {
        "7"
    } else if last == 8 {
        "8"
    } else {
        "9"
    };
    assert(digit@ =~= seq![digit_char((n % 10) as int)]);
    if n < 10 {
        String::from_str(digit)
    } else {
        let mut text = decimal_text(n / 10);
        text.append(digit);
        assert(text@ =~= decimal((n / 10) as nat).push(digit_char((n % 10) as int)));
        text
    }
}

/// The marker for `more` candidates that are not shown.
pub fn marker(more: usize) -> (text: String)
    ensures
        text@ == marker_text(more as int),
{
    proof {
        reveal_strlit("<");
        reveal_strlit(" more>");
        assert("<"@ =~= seq!['<']);
        assert(" more>"@ =~= seq![' ', 'm', 'o', 'r', 'e', '>']);
    }
    let mut text = String::from_str("<");
    text.append(decimal_text(more).as_str());
    text.append(" more>");
    text
}

/// The row of the candidate `name` at `place`.
pub fn entry(place: usize, name: &str) -> (text: String)
    ensures
        text@ == entry_text(place as int, name@),
{
    proof {
        reveal_strlit(": ");
        assert(": "@ =~= seq![':', ' ']);
    }
    let mut text = decimal_text(place);
    text.append(": ");
    text.append(name);
    text
}

/// The rows of the candidate list around the candidate at `selected`, where
/// `slots` rows are free, and the row on which that candidate stands, where
/// it is shown.
pub fn preview_rows(candidates: &Vec<String>, selected: usize, slots: usize) -> (r: (
    Vec<String>,
    Option<usize>,
))
    requires
        selected < candidates@.len() < isize::MAX,
    ensures
        texts_view(r.0@) == preview_rows_of(
            texts_view(candidates@),
            window_for(selected as int, candidates@.len() as int, slots as int),
        ),
        r.1 matches Some(row) ==> selected_row_of(
            selected as int,
            window_for(selected as int, candidates@.len() as int, slots as int),
        ) == Some(row as int),
        r.1 is None ==> selected_row_of(
            selected as int,
            window_for(selected as int, candidates@.len() as int, slots as int),
        ) is None,
{
    let window = preview_window(selected, candidates.len(), slots);
    let ghost w = window_for(selected as int, candidates@.len() as int, slots as int);
    let ghost names = texts_view(candidates@);
    proof {
        lemma_window_in_list(selected as int, candidates@.len() as int, slots as int);
    }
    let mut rows: Vec<String> = Vec::new();
    let mut offset: usize = 0;
    let ghost above: Seq<Seq<char>> = match w.more_above {
        Some(more) => seq![marker_text(more)],
        None => Seq::empty(),
    };
    match window.more_above {
        Some(more) => {
            rows.push(marker(more as usize));
            offset = 1;
        },
        None => {},
    }
    assert(texts_view(rows@) =~= above + entry_rows(names, w.first, 0));
    let mut j: isize = window.first;
    while j <= window.last
        invariant
            window@ == w,
            names == texts_view(candidates@),
            candidates@.len() < isize::MAX,
            0 <= w.first <= j,
            w.last < candidates@.len(),
            j <= w.last + 1 || (j == w.first && w.last < w.first),
            texts_view(rows@) == above + entry_rows(
                names,
                w.first,
                (if j <= w.last + 1 {
                    j - w.first
                } else {
                    0
                }) as nat,
            ),
        decreases w.last + 1 - j,
    {
        let ghost before = rows@;
        rows.push(entry(j as usize, candidates[j as usize].as_str()));
        assert(texts_view(rows@) =~= texts_view(before).push(entry_text(j as int, names[j as int])));
        assert(texts_view(rows@) =~= above + entry_rows(names, w.first, (j + 1 - w.first) as nat));
        j = j + 1;
    }
    assert(texts_view(rows@) =~= above + entry_rows(names, w.first, shown(w)));
    match window.more_below {
        Some(more) => {
            let ghost before = rows@;
            rows.push(marker(more as usize));
            assert(texts_view(rows@) =~= texts_view(before).push(marker_text(more as int)));
        },
        None => {},
    }
    assert(texts_view(rows@) =~= preview_rows_of(names, w));
    let place: isize = selected as isize;
    let row: Option<usize> = if window.first <= place && place <= window.last {
        Some(offset + (place - window.first) as usize)
    } else {
        None
    };
    (rows, row)
}

} // verus!
