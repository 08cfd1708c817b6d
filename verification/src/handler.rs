use vstd::prelude::*;
use crate::task::{Task, TaskView, store_view, contains_id};
use crate::store::{spec_add, mark_first_done, remove_id, add_task, complete_task, delete_task};
use crate::render::{list_lines_spec, render_list};

verus! {

/// One invocation's command, as the front end hands it over.
pub enum Command {
    Add { title: String },
    List,
    Complete { id: u32 },
    Delete { id: u32 },
}

pub open spec fn msg_added() -> Seq<char> {
    "✅ Task added successfully!"@
}

pub open spec fn msg_completed() -> Seq<char> {
    "🎉 Task marked as completed!"@
}

pub open spec fn msg_deleted() -> Seq<char> {
    "🗑️ Task deleted successfully!"@
}

pub open spec fn msg_not_found() -> Seq<char> {
    "❌ Task not found."@
}

/// What one command leaves behind: how the store changed, whether it must
/// be written back, and what is printed.
pub open spec fn command_post(
    pre: Seq<TaskView>,
    cmd: Command,
    post: Seq<TaskView>,
    save: bool,
    lines: Seq<Seq<char>>,
) -> bool {
    match cmd {
        Command::Add { title } => {
            &&& post == spec_add(pre, title@)
            &&& save == true
            &&& lines == seq![msg_added()]
        },
        Command::List => {
            &&& post == pre
            &&& save == false
            &&& lines == list_lines_spec(pre)
        },
        Command::Complete { id } => {
            &&& post == mark_first_done(pre, id)
            &&& save == contains_id(pre, id)
            &&& lines == (if contains_id(pre, id) {
                seq![msg_completed()]
            } else {
                seq![msg_not_found()]
            })
        },
        Command::Delete { id } => {
            &&& post == remove_id(pre, id)
            &&& save == contains_id(pre, id)
            &&& lines == (if contains_id(pre, id) {
                seq![msg_deleted()]
            } else {
                seq![msg_not_found()]
            })
        },
    }
}

/// Runs one command against the loaded store: one mutation or one read.
/// Returns whether the store must be written back, and the lines to
/// print.  A command that changes nothing asks for no write.
pub fn apply_command(tasks: &mut Vec<Task>, cmd: Command) -> (r: (bool, Vec<String>))
    requires
        cmd is Add ==> old(tasks)@.len() < u32::MAX,
    ensures
        command_post(
            store_view(old(tasks)@),
            cmd,
            store_view(final(tasks)@),
            r.0,
            r.1@.map_values(|l: String| l@),
        ),
        !r.0 ==> final(tasks)@ == old(tasks)@,
{
    match cmd {
        Command::Add { title } => {
            add_task(tasks, title);
            let mut lines: Vec<String> = Vec::new();
            lines.push(String::from_str("✅ Task added successfully!"));
            proof {
                assert(lines@.map_values(|l: String| l@) =~= seq![msg_added()]);
            }
            (true, lines)
        },
        Command::List => {
            let lines = render_list(tasks);
            (false, lines)
        },
        Command::Complete { id } => {
            let found = complete_task(tasks, id);
            let mut lines: Vec<String> = Vec::new();
            if found {
                lines.push(String::from_str("🎉 Task marked as completed!"));
                proof {
                    assert(lines@.map_values(|l: String| l@) =~= seq![msg_completed()]);
                }
            } else {
                lines.push(String::from_str("❌ Task not found."));
                proof {
                    assert(lines@.map_values(|l: String| l@) =~= seq![msg_not_found()]);
                }
            }
            (found, lines)
        },
        Command::Delete { id } => {
            let removed = delete_task(tasks, id);
            let mut lines: Vec<String> = Vec::new();
            if removed {
                lines.push(String::from_str("🗑️ Task deleted successfully!"));
                proof {
                    assert(lines@.map_values(|l: String| l@) =~= seq![msg_deleted()]);
                }
            } else {
                lines.push(String::from_str("❌ Task not found."));
                proof {
                    assert(lines@.map_values(|l: String| l@) =~= seq![msg_not_found()]);
                }
            }
            (removed, lines)
        },
    }
}

} // verus!
