use vstd::prelude::*;
use crate::record::{Task, TodoItem};
use crate::store::TodoDatabase;
use crate::text::{append_dec, dec};

verus! {

/// Seconds from `secs` to `now`, 0 where `secs` lies after `now`.
pub open spec fn elapsed(secs: nat, now: nat) -> nat {
    if now >= secs { (now - secs) as nat } else { 0 }
}

/// How long ago, in the largest whole unit that fits: seconds below a minute,
/// minutes below an hour, hours below a day, then days.
pub open spec fn since_text(diff: nat) -> Seq<char> {
    if diff < 60 {
        "(since "@ + dec(diff) + " second(s))"@
    } else if diff < 3600 {
        "(since "@ + dec(diff / 60) + " minute(s))"@
    } else if diff < 86400 {
        "(since "@ + dec(diff / 3600) + " hour(s))"@
    } else {
        "(since "@ + dec(diff / 86400) + " day(s))"@
    }
}

/// Seconds elapsed since `secs` at time `now`.
pub fn time_diff(secs: u64, now: u64) -> (r: u64)
    ensures
        r as nat == elapsed(secs as nat, now as nat),
{
    if now >= secs { now - secs } else { 0 }
}

/// The age of a task created at `secs`, as shown after its text.
pub fn since_string(secs: u64, now: u64) -> (r: String)
    ensures
        r@ == since_text(elapsed(secs as nat, now as nat)),
{
    let diff: u64 = time_diff(secs, now);
    let mut s = String::from_str("(since ");
    if diff < 60 {
        append_dec(&mut s, diff);
        s.append(" second(s))");
    } else if diff < 3_600 {
        append_dec(&mut s, diff / 60);
        s.append(" minute(s))");
    } else if diff < 86_400 {
        append_dec(&mut s, diff / 3_600);
        s.append(" hour(s))");
    } else {
        append_dec(&mut s, diff / 86_400);
        s.append(" day(s))");
    }
    s
}

/// The id in a field two characters wide, right aligned.
pub open spec fn padded_id(id: nat) -> Seq<char> {
    if id < 10 { " "@ + dec(id) } else { dec(id) }
}

/// The line shown for one task.
pub open spec fn task_line(t: Task, now: nat, decorate: bool) -> Seq<char> {
    let mark = if t.done {
        if decorate { "[\u{1b}[93mX\u{1b}[39m] "@ } else { "[X] "@ }
    } else {
        "[ ] "@
    };
    let id = if decorate {
        "\u{1b}[92m"@ + padded_id(t.id) + ".\u{1b}[39m "@
    } else {
        padded_id(t.id) + ". "@
    };
    let text = if t.done && decorate { "\u{1b}[9m"@ + t.text + "\u{1b}[0m"@ } else { t.text };
    let age = if t.done { Seq::empty() } else { since_text(elapsed(t.created, now)) };
    mark + id + text + age
}

/// How many tasks are done.
pub open spec fn count_done(s: Seq<Task>) -> nat
    decreases s.len(),
{
    if s.len() == 0 {
        0
    } else {
        count_done(s.drop_last()) + if s.last().done { 1nat } else { 0nat }
    }
}

/// The closing line: how many tasks are open and how many are done.
pub open spec fn summary_line(open: nat, done: nat, decorate: bool) -> Seq<char> {
    let verb = if done == 1 { " is finished."@ } else { " are finished."@ };
    if decorate {
        "\nFound \u{1b}[92m"@ + dec(open) + "\u{1b}[39m open task(s) and \u{1b}[93m"@ + dec(done)
            + "\u{1b}[39m"@ + verb
    } else {
        "\nFound "@ + dec(open) + " open task(s) and "@ + dec(done) + verb
    }
}

/// The heading above the tasks.
pub open spec fn header_line(decorate: bool) -> Seq<char> {
    if decorate {
        "\n\u{1b}[1mTask List:\u{1b}[0m\n\u{1b}[1m----------\u{1b}[0m\n"@
    } else {
        "\nTask List:\n----------\n"@
    }
}

/// The lines of the task list, each to be printed on its own.
pub open spec fn list_lines(s: Seq<Task>, now: nat, decorate: bool) -> Seq<Seq<char>> {
    if s.len() == 0 {
        seq!["There are no tasks in the list."@, Seq::empty()]
    } else {
        seq![header_line(decorate)]
            + Seq::new(s.len(), |i: int| task_line(s[i], now, decorate))
            + seq![
            summary_line((s.len() - count_done(s)) as nat, count_done(s), decorate),
            Seq::empty(),
        ]
    }
}

fn padded_id_string(id: u32) -> (r: String)
    ensures
        r@ == padded_id(id as nat),
{
    let mut s = String::new();
    if id < 10 {
        s.append(" ");
    }
    append_dec(&mut s, id as u64);
    proof { reveal_strlit(" "); }
    assert(s@ =~= padded_id(id as nat));
    s
}

fn task_line_string(t: &TodoItem, now: u64, decorate: bool) -> (r: String)
    ensures
        r@ == task_line(t@, now as nat, decorate),
{
    let mut s = if t.is_done {
        if decorate { String::from_str("[\u{1b}[93mX\u{1b}[39m] ") } else { String::from_str("[X] ") }
    } else {
        String::from_str("[ ] ")
    };
    let ghost mark = s@;
    let id = padded_id_string(t.index);
    if decorate {
        s.append("\u{1b}[92m");
        s.append(id.as_str());
        s.append(".\u{1b}[39m ");
    } else {
        s.append(id.as_str());
        s.append(". ");
    }
    let ghost with_id = s@;
    if t.is_done && decorate {
        s.append("\u{1b}[9m");
        s.append(t.task.as_str());
        s.append("\u{1b}[0m");
    } else {
        s.append(t.task.as_str());
    }
    let ghost with_text = s@;
    if !t.is_done {
        let age = since_string(t.start, now);
        s.append(age.as_str());
    }
    assert(s@ =~= task_line(t@, now as nat, decorate));
    s
}

fn summary_string(open: usize, done: usize, decorate: bool) -> (r: String)
    ensures
        r@ == summary_line(open as nat, done as nat, decorate),
{
    let mut s = if decorate {
        String::from_str("\nFound \u{1b}[92m")
    } else {
        String::from_str("\nFound ")
    };
    append_dec(&mut s, open as u64);
    if decorate {
        s.append("\u{1b}[39m open task(s) and \u{1b}[93m");
    } else {
        s.append(" open task(s) and ");
    }
    append_dec(&mut s, done as u64);
    if decorate {
        s.append("\u{1b}[39m");
    }
    if done == 1 {
        s.append(" is finished.");
    } else {
        s.append(" are finished.");
    }
    assert(s@ =~= summary_line(open as nat, done as nat, decorate));
    s
}

impl TodoDatabase {
    /// The task list as lines to print, each on its own: a heading, one line per
    /// task in store order (open tasks with their age at `now`), and a count of
    /// open and done tasks; or a note that there are no tasks. With `decorate`
    /// the lines carry terminal colour codes.
    pub fn list(&self, now: u64, decorate: bool) -> (r: Vec<String>)
        ensures
            r@.map_values(|l: String| l@) == list_lines(self@, now as nat, decorate),
    {
        let mut out: Vec<String> = Vec::new();
        let n = self.len();
        if n == 0 {
            out.push(String::from_str("There are no tasks in the list."));
            out.push(String::new());
            assert(out@.map_values(|l: String| l@) =~= list_lines(self@, now as nat, decorate));
            return out;
        }
        let header = if decorate {
            String::from_str("\n\u{1b}[1mTask List:\u{1b}[0m\n\u{1b}[1m----------\u{1b}[0m\n")
        } else {
            String::from_str("\nTask List:\n----------\n")
        };
        out.push(header);
        let mut ds_done: usize = 0;
        let mut i: usize = 0;
        while i < n
            invariant
                n == self@.len(),
                i <= n,
                ds_done as nat == count_done(self@.take(i as int)),
                ds_done <= i,
                out@.len() == i + 1,
                out@[0]@ == header_line(decorate),
                forall|j: int| 0 <= j < i ==> (#[trigger] out@[j + 1])@ == task_line(self@[j], now as nat, decorate),
            decreases n - i,
        {
            let t = self.item(i);
            assert(self@.take(i + 1).drop_last() =~= self@.take(i as int));
            if t.is_done {
                ds_done = ds_done + 1;
            }
            let line = task_line_string(t, now, decorate);
            out.push(line);
            i = i + 1;
        }
        assert(self@.take(n as int) =~= self@);
        out.push(summary_string(n - ds_done, ds_done, decorate));
        out.push(String::new());
        let ghost want = list_lines(self@, now as nat, decorate);
        assert(out@.map_values(|l: String| l@) =~= want) by {
            assert forall|j: int| 0 <= j < want.len() implies out@.map_values(|l: String| l@)[j] == want[j] by {
                if 1 <= j <= n {
                    assert(out@[(j - 1) + 1] == out@[j]);
                }
            }
        }
        out
    }
}

} // verus!
