//! The options menu's layout: its buttons line by line, top to bottom, and
//! what each of them stands for. Drawing it is the platform's.

use vstd::prelude::*;

use crate::menu::{Confirm, Entry, Toggle};
use crate::text::{chars_of, string_of};

verus! {

/// A line of the options menu
#[derive(PartialEq, Eq, Debug)]
pub enum Line {
    /// Buttons side by side, sharing the line's width
    Buttons(Vec<String>),
    /// Extra space
    Gap,
}

/// A line's labels; `None` for extra space.
pub open spec fn line_view(line: Line) -> Option<Seq<Seq<char>>> {
    match line {
        Line::Buttons(labels) => Some(labels@.map_values(|s: String| s@)),
        Line::Gap => None,
    }
}

pub open spec fn lines_view(lines: Seq<Line>) -> Seq<Option<Seq<Seq<char>>>> {
    lines.map_values(|l: Line| line_view(l))
}

/// The labels of the buttons, in reading order.
pub open spec fn button_labels(lines: Seq<Option<Seq<Seq<char>>>>) -> Seq<Seq<char>>
    decreases lines.len(),
{
    if lines.len() == 0 {
        seq![]
    } else {
        button_labels(lines.drop_last()) + match lines.last() {
            Some(labels) => labels,
            None => seq![],
        }
    }
}

pub open spec fn entries_view(entries: Seq<(Entry, String)>) -> Seq<(Entry, Seq<char>)> {
    entries.map_values(|e: (Entry, String)| (e.0, e.1@))
}

pub open spec fn options_view(options: Seq<Vec<(Toggle, String)>>) -> Seq<Seq<(Toggle, Seq<char>)>> {
    options.map_values(|line: Vec<(Toggle, String)>| line@.map_values(|t: (Toggle, String)| (t.0, t.1@)))
}

/// The buttons above the options: close, then restart and main menu in a
/// game, then the controls.
pub open spec fn fixed_entries(in_game: bool) -> Seq<(Entry, Seq<char>)> {
    seq![(Entry::Close, "Close"@)] + (if in_game {
        seq![(Entry::Confirm(Confirm::Restart), "Restart"@), (Entry::Confirm(Confirm::MainMenu), "Main menu"@)]
    } else {
        seq![]
    }) + seq![(Entry::Controls, "Controls"@)]
}

pub open spec fn fixed_lines(in_game: bool) -> Seq<Option<Seq<Seq<char>>>> {
    seq![Some(seq!["Close"@])] + (if in_game {
        seq![Some(seq!["Restart"@, "Main menu"@])]
    } else {
        seq![]
    }) + seq![Some(seq!["Controls"@]), None]
}

/// The options' buttons, line after line.
pub open spec fn toggle_entries(options: Seq<Seq<(Toggle, Seq<char>)>>) -> Seq<(Entry, Seq<char>)>
    decreases options.len(),
{
    if options.len() == 0 {
        seq![]
    } else {
        toggle_entries(options.drop_last()) + options.last().map_values(
            |t: (Toggle, Seq<char>)| (Entry::Toggle(t.0), t.1),
        )
    }
}

pub open spec fn toggle_lines(options: Seq<Seq<(Toggle, Seq<char>)>>) -> Seq<Option<Seq<Seq<char>>>> {
    options.map_values(|line: Seq<(Toggle, Seq<char>)>| Some(line.map_values(|t: (Toggle, Seq<char>)| t.1)))
}

fn text(s: &str) -> (r: String)
    ensures
        r@ == s@,
{
    string_of(&chars_of(s))
}

/// The entries' labels follow the lines' buttons, one for one.
proof fn lemma_push_line(entries: Seq<(Entry, Seq<char>)>, lines: Seq<Option<Seq<Seq<char>>>>, new: Seq<(Entry, Seq<char>)>)
    requires
        entries.map_values(|e: (Entry, Seq<char>)| e.1) == button_labels(lines),
    ensures
        (entries + new).map_values(|e: (Entry, Seq<char>)| e.1) == button_labels(
            lines.push(Some(new.map_values(|e: (Entry, Seq<char>)| e.1))),
        ),
{
    assert(lines.push(Some(new.map_values(|e: (Entry, Seq<char>)| e.1))).drop_last() =~= lines);
    assert((entries + new).map_values(|e: (Entry, Seq<char>)| e.1) =~= entries.map_values(
        |e: (Entry, Seq<char>)| e.1,
    ) + new.map_values(|e: (Entry, Seq<char>)| e.1));
}

/// The options menu's buttons, line by line, and what each stands for, in
/// reading order: close; restart and main menu in a game; the controls;
/// then, after a gap, the `options` lines of toggles with their labels. The
/// buttons drawn are the entries, one for one: the `i`-th button clicked is
/// the `i`-th entry.
pub fn layout(options: &Vec<Vec<(Toggle, String)>>, in_game: bool) -> (r: (Vec<(Entry, String)>, Vec<Line>))
    ensures
        entries_view(r.0@) == fixed_entries(in_game) + toggle_entries(options_view(options@)),
        lines_view(r.1@) == fixed_lines(in_game) + toggle_lines(options_view(options@)),
        entries_view(r.0@).map_values(|e: (Entry, Seq<char>)| e.1) == button_labels(lines_view(r.1@)),
{
    let mut entries: Vec<(Entry, String)> = Vec::new();
    let mut lines: Vec<Line> = Vec::new();
    entries.push((Entry::Close, text("Close")));
    let mut first: Vec<String> = Vec::new();
    first.push(text("Close"));
    lines.push(Line::Buttons(first));
    if in_game {
        entries.push((Entry::Confirm(Confirm::Restart), text("Restart")));
        entries.push((Entry::Confirm(Confirm::MainMenu), text("Main menu")));
        let mut line: Vec<String> = Vec::new();
        line.push(text("Restart"));
        line.push(text("Main menu"));
        lines.push(Line::Buttons(line));
    }
    entries.push((Entry::Controls, text("Controls")));
    let mut controls: Vec<String> = Vec::new();
    controls.push(text("Controls"));
    lines.push(Line::Buttons(controls));
    lines.push(Line::Gap);
    proof {
        assert(entries_view(entries@) =~= fixed_entries(in_game));
        assert(line_view(lines@[lines@.len() - 2]) == Some(seq!["Controls"@])) by {
            match lines@[lines@.len() - 2] {
                Line::Buttons(v) => {
                    assert(v@.map_values(|s: String| s@) =~= seq!["Controls"@]);
                },
                Line::Gap => {},
            }
        }
        assert(lines_view(lines@) =~= fixed_lines(in_game)) by {
            if in_game {
                assert(line_view(lines@[1]) == Some(seq!["Restart"@, "Main menu"@])) by {
                    match lines@[1] {
                        Line::Buttons(v) => {
                            assert(v@.map_values(|s: String| s@) =~= seq!["Restart"@, "Main menu"@]);
                        },
                        Line::Gap => {},
                    }
                }
            }
            assert(line_view(lines@[0]) == Some(seq!["Close"@])) by {
                match lines@[0] {
                    Line::Buttons(v) => {
                        assert(v@.map_values(|s: String| s@) =~= seq!["Close"@]);
                    },
                    Line::Gap => {},
                }
            }
        }
        reveal_with_fuel(button_labels, 5);
        assert(entries_view(entries@).map_values(|e: (Entry, Seq<char>)| e.1) =~= button_labels(lines_view(lines@)));
    }
    let ghost opts = options_view(options@);
    let ghost n0 = lines@.len();
    let mut i: usize = 0;
    while i < options.len()
        invariant
            0 <= i <= options@.len(),
            opts == options_view(options@),
            entries_view(entries@) == fixed_entries(in_game) + toggle_entries(opts.take(i as int)),
            lines_view(lines@) == fixed_lines(in_game) + toggle_lines(opts.take(i as int)),
            entries_view(entries@).map_values(|e: (Entry, Seq<char>)| e.1) == button_labels(lines_view(lines@)),
        decreases options@.len() - i,
    {
        let row = &options[i];
        let ghost e0 = entries@;
        let ghost l0 = lines@;
        let mut labels: Vec<String> = Vec::new();
        let mut j: usize = 0;
        while j < row.len()
            invariant
                0 <= j <= row@.len(),
                entries@.len() == e0.len() + j,
                forall|k: int| 0 <= k < e0.len() ==> #[trigger] entries@[k] == e0[k],
                forall|k: int|
                    0 <= k < j ==> (#[trigger] entries@[e0.len() + k]).0 == Entry::Toggle(row@[k].0)
                        && entries@[e0.len() + k].1@ == row@[k].1@,
                labels@.len() == j,
                forall|k: int| 0 <= k < j ==> (#[trigger] labels@[k])@ == row@[k].1@,
            decreases row@.len() - j,
        {
            let (toggle, label) = &row[j];
            entries.push((Entry::Toggle(*toggle), label.clone()));
            labels.push(label.clone());
            j = j + 1;
        }
        let ghost new_line = labels@.map_values(|s: String| s@);
        lines.push(Line::Buttons(labels));
        proof {
            let new = opts[i as int].map_values(|t: (Toggle, Seq<char>)| (Entry::Toggle(t.0), t.1));
            assert(opts[i as int] =~= row@.map_values(|t: (Toggle, String)| (t.0, t.1@)));
            assert forall|k: int| 0 <= k < entries@.len() implies #[trigger] entries_view(entries@)[k] == (
            entries_view(e0) + new)[k] by {
                if k >= e0.len() {
                    let m = k - e0.len();
                    assert(entries@[e0.len() + m].1@ == row@[m].1@);
                    assert(opts[i as int][m] == (row@[m].0, row@[m].1@));
                }
            }
            assert(entries_view(entries@) =~= entries_view(e0) + new);
            assert(opts.take(i + 1).drop_last() =~= opts.take(i as int));
            assert(toggle_entries(opts.take(i + 1)) == toggle_entries(opts.take(i as int)) + new);
            assert(new_line =~= new.map_values(|e: (Entry, Seq<char>)| e.1));
            assert(new_line =~= opts[i as int].map_values(|t: (Toggle, Seq<char>)| t.1));
            assert(line_view(lines@[lines@.len() - 1]) == Some(new_line));
            assert(lines_view(lines@) =~= lines_view(l0).push(Some(new_line)));
            assert(toggle_lines(opts.take(i + 1)) =~= toggle_lines(opts.take(i as int)).push(Some(new_line)));
            lemma_push_line(entries_view(e0), lines_view(l0), new);
            assert(entries_view(entries@).map_values(|e: (Entry, Seq<char>)| e.1) =~= (entries_view(e0)
                + new).map_values(|e: (Entry, Seq<char>)| e.1));
        }
        i = i + 1;
    }
    proof {
        assert(opts.take(i as int) =~= opts);
    }
    (entries, lines)
}

} // verus!
