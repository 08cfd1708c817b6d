use vstd::prelude::*;
use crate::task::{Task, TaskView, store_view};
use crate::text::{push_char, dec_digits, u32_to_string};

verus! {

/// The completion marker shown in a listing.
pub open spec fn status_mark(done: bool) -> char {
    if done {
        '✔'
    } else {
        '✘'
    }
}

/// One listing line: the id in brackets, the title, and the marker.
pub open spec fn render_line_spec(t: TaskView) -> Seq<char> {
    seq!['['] + dec_digits(t.id) + seq![']', ' '] + t.title + seq![' ', '-', ' ', status_mark(
        t.completed,
    )]
}

/// The line shown for an empty store.
pub open spec fn empty_message() -> Seq<char> {
    "📭 No tasks available."@
}

/// What listing a store shows: one line per task in store order, or the
/// empty-store message alone.
pub open spec fn list_lines_spec(s: Seq<TaskView>) -> Seq<Seq<char>> {
    if s.len() == 0 {
        seq![empty_message()]
    } else {
        s.map_values(|t: TaskView| render_line_spec(t))
    }
}

/// One task's listing line.
pub fn render_line(t: &Task) -> (line: String)
    ensures
        line@ == render_line_spec(t@),
{
    let mut line = String::new();
    push_char(&mut line, '[');
    let digits = u32_to_string(t.id);
    line.append(digits.as_str());
    push_char(&mut line, ']');
    push_char(&mut line, ' ');
    line.append(t.title.as_str());
    push_char(&mut line, ' ');
    push_char(&mut line, '-');
    push_char(&mut line, ' ');
    if t.completed {
        push_char(&mut line, '✔');
    } else {
        push_char(&mut line, '✘');
    }
    proof {
        assert(line@ =~= render_line_spec(t@));
    }
    line
}

/// The lines shown for a store: the empty-store message where it holds
/// nothing, else one line per task in order.  Listing reads the store and
/// never changes it.
pub fn render_list(tasks: &Vec<Task>) -> (lines: Vec<String>)
    ensures
        lines@.map_values(|l: String| l@) == list_lines_spec(store_view(tasks@)),
{
    let mut lines: Vec<String> = Vec::new();
    if tasks.len() == 0 {
        lines.push(String::from_str("📭 No tasks available."));
        proof {
            assert(lines@.map_values(|l: String| l@) =~= list_lines_spec(store_view(tasks@)));
        }
        return lines;
    }
    let mut i: usize = 0;
    while i < tasks.len()
        invariant
            0 <= i <= tasks@.len(),
            lines@.len() == i,
            forall|k: int| 0 <= k < i ==> lines@[k]@ == render_line_spec(tasks@[k]@),
        decreases tasks@.len() - i,
    {
        let line = render_line(&tasks[i]);
        lines.push(line);
        i += 1;
    }
    proof {
        assert(lines@.map_values(|l: String| l@) =~= store_view(tasks@).map_values(
            |t: TaskView| render_line_spec(t),
        ));
    }
    lines
}

} // verus!
