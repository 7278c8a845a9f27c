use vstd::prelude::*;
use crate::record::{Task, TodoItem};
use crate::store::TodoDatabase;
use crate::text::{append_dec, dec, digit_char, digit_value, digits_upto, is_digit, parse_number, parse_unsigned, piece_ranges, pieces};

verus! {

/// The stored line of one task: `id;text;created;done`.
pub open spec fn record_line(t: Task) -> Seq<char> {
    dec(t.id) + ";"@ + t.text + ";"@ + dec(t.created) + ";"@ + if t.done { "true"@ } else { "false"@ }
}

/// The stored lines of the tasks, each ended by a newline.
pub open spec fn records_text(s: Seq<Task>) -> Seq<char>
    decreases s.len(),
{
    if s.len() == 0 {
        Seq::empty()
    } else {
        records_text(s.drop_last()) + record_line(s.last()) + "\n"@
    }
}

/// The whole stored text: a comment line, a blank line, then the tasks.
pub open spec fn save_text(s: Seq<Task>) -> Seq<char> {
    "# ToDo list database\n\n"@ + records_text(s)
}

/// `true` and `false` as Rust's `bool::from_str` reads them.
pub open spec fn parse_flag(s: Seq<char>) -> Option<bool> {
    if s == seq!['t', 'r', 'u', 'e'] {
        Some(true)
    } else if s == seq!['f', 'a', 'l', 's', 'e'] {
        Some(false)
    } else {
        None
    }
}

fn record_string(t: &TodoItem) -> (r: String)
    ensures
        r@ == record_line(t@),
{
    let mut out = String::new();
    append_dec(&mut out, t.index as u64);
    out.append(";");
    out.append(t.task.as_str());
    out.append(";");
    append_dec(&mut out, t.start);
    out.append(";");
    if t.is_done {
        out.append("true");
    } else {
        out.append("false");
    }
    assert(out@ =~= record_line(t@));
    out
}

/// The task a stored line holds: none for a blank line, a line that starts with
/// `;`, `#` or a space, a line that is not four fields cut by `;`, and a line
/// whose id, time or flag does not read.
pub open spec fn parse_line(l: Seq<char>) -> Option<Task> {
    if l.len() == 0 || l[0] == ';' || l[0] == '#' || l[0] == ' ' {
        None
    } else {
        let f = pieces(l, ';');
        if f.len() != 4 {
            None
        } else {
            match (parse_unsigned(f[0], u32::MAX as nat), parse_unsigned(f[2], u64::MAX as nat), parse_flag(f[3])) {
                (Some(id), Some(created), Some(done)) => Some(Task { id, text: f[1], created, done }),
                _ => None,
            }
        }
    }
}

/// The tasks that the lines hold, in order.
pub open spec fn records_of(lines: Seq<Seq<char>>) -> Seq<Task>
    decreases lines.len(),
{
    if lines.len() == 0 {
        Seq::empty()
    } else {
        let rest = records_of(lines.drop_last());
        match parse_line(lines.last()) {
            Some(t) => rest.push(t),
            None => rest,
        }
    }
}

/// The tasks that a stored text holds: one per line that reads.
pub open spec fn load_text(s: Seq<char>) -> Seq<Task> {
    records_of(pieces(s, '\n'))
}

fn parse_flag_str(s: &str) -> (r: Option<bool>)
    ensures
        r == parse_flag(s@),
{
    let n = s.unicode_len();
    if n == 4 && s.get_char(0) == 't' && s.get_char(1) == 'r' && s.get_char(2) == 'u' && s.get_char(3) == 'e' {
        assert(s@ =~= seq!['t', 'r', 'u', 'e']);
        Some(true)
    } else if n == 5 && s.get_char(0) == 'f' && s.get_char(1) == 'a' && s.get_char(2) == 'l'
        && s.get_char(3) == 's' && s.get_char(4) == 'e' {
        assert(s@ =~= seq!['f', 'a', 'l', 's', 'e']);
        Some(false)
    } else {
        proof {
            if s@ == seq!['t', 'r', 'u', 'e'] {
                assert(s@[0] == 't' && s@[1] == 'r' && s@[2] == 'u' && s@[3] == 'e');
            }
            if s@ == seq!['f', 'a', 'l', 's', 'e'] {
                assert(s@[0] == 'f' && s@[1] == 'a' && s@[2] == 'l' && s@[3] == 's' && s@[4] == 'e');
            }
        }
        None
    }
}

/// The task that one stored line holds, if it holds one.
pub fn parse_item(l: &str) -> (r: Option<TodoItem>)
    ensures
        r matches Some(t) ==> parse_line(l@) == Some(t@),
        r is None ==> parse_line(l@) is None,
{
    let n = l.unicode_len();
    if n == 0 {
        return None;
    }
    let c0 = l.get_char(0);
    if c0 == ';' || c0 == '#' || c0 == ' ' {
        return None;
    }
    let f = piece_ranges(l, ';');
    if f.len() != 4 {
        return None;
    }
    let ghost p = pieces(l@, ';');
    assert(f@[0].0 <= f@[0].1 <= n && f@[1].0 <= f@[1].1 <= n);
    assert(f@[2].0 <= f@[2].1 <= n && f@[3].0 <= f@[3].1 <= n);
    let id = parse_number(l.substring_char(f[0].0, f[0].1), 4294967295u64);
    let start = parse_number(l.substring_char(f[2].0, f[2].1), 18446744073709551615u64);
    let done = parse_flag_str(l.substring_char(f[3].0, f[3].1));
    match (id, start, done) {
        (Some(a), Some(c), Some(d)) => {
            let text = String::from_str(l.substring_char(f[1].0, f[1].1));
            Some(TodoItem::from(a as u32, text, c, d))
        },
        _ => None,
    }
}

proof fn lemma_pieces_len(a: Seq<char>, sep: char)
    ensures
        pieces(a, sep).len() >= 1,
    decreases a.len(),
{
    if a.len() > 0 {
        lemma_pieces_len(a.drop_last(), sep);
    }
}

proof fn lemma_pieces_plain(a: Seq<char>, b: Seq<char>, sep: char)
    requires
        !b.contains(sep),
    ensures
        pieces(a + b, sep) == pieces(a, sep).update(
            pieces(a, sep).len() - 1,
            pieces(a, sep).last() + b,
        ),
    decreases b.len(),
{
    lemma_pieces_len(a, sep);
    if b.len() == 0 {
        assert(a + b =~= a);
        assert(pieces(a, sep).last() + b =~= pieces(a, sep).last());
        assert(pieces(a, sep).update(pieces(a, sep).len() - 1, pieces(a, sep).last()) =~= pieces(a, sep));
    } else {
        let b0 = b.drop_last();
        assert(!b0.contains(sep)) by {
            if b0.contains(sep) {
                let i = choose|i: int| 0 <= i < b0.len() && b0[i] == sep;
                assert(b[i] == sep);
            }
        }
        lemma_pieces_plain(a, b0, sep);
        assert((a + b).drop_last() =~= a + b0);
        assert((a + b).last() == b.last());
        assert(b.last() != sep) by {
            assert(b[b.len() - 1] == b.last());
        }
        lemma_pieces_len(a + b0, sep);
        assert(pieces(a, sep).last() + b0 + seq![b.last()] =~= pieces(a, sep).last() + b);
        assert((pieces(a, sep).last() + b0).push(b.last()) =~= pieces(a, sep).last() + b);
        assert(pieces(a + b, sep) =~= pieces(a, sep).update(pieces(a, sep).len() - 1, pieces(a, sep).last() + b));
    }
}

proof fn lemma_pieces_then(a: Seq<char>, b: Seq<char>, sep: char)
    requires
        !b.contains(sep),
    ensures
        pieces(a.push(sep) + b, sep) == pieces(a, sep).push(b),
{
    assert(a.push(sep).drop_last() =~= a);
    lemma_pieces_plain(a.push(sep), b, sep);
    assert(Seq::<char>::empty() + b =~= b);
    assert(pieces(a, sep).push(Seq::empty()).update(pieces(a, sep).len() as int, b) =~= pieces(a, sep).push(b));
}

proof fn lemma_dec_reads(n: nat, max: nat)
    requires
        n <= max,
    ensures
        digits_upto(dec(n), max) == Some(n),
        dec(n).len() >= 1,
        is_digit(dec(n)[0]),
        forall|i: int| 0 <= i < dec(n).len() ==> is_digit(#[trigger] dec(n)[i]),
    decreases n,
{
    if n < 10 {
        assert(dec(n).drop_last() =~= Seq::<char>::empty());
        assert(dec(n).last() == digit_char(n));
        assert(digit_value(digit_char(n)) == n && is_digit(digit_char(n)));
        assert(digits_upto(Seq::<char>::empty(), max) == Some(0nat));
    } else {
        lemma_dec_reads(n / 10, max);
        assert(dec(n).drop_last() =~= dec(n / 10));
        assert(digit_value(digit_char(n % 10)) == n % 10 && is_digit(digit_char(n % 10)));
        assert(dec(n).last() == digit_char(n % 10));
        assert((n / 10) * 10 + n % 10 == n);
        assert(dec(n)[0] == dec(n / 10)[0]);
        assert forall|i: int| 0 <= i < dec(n).len() implies is_digit(#[trigger] dec(n)[i]) by {
            if i < dec(n).len() - 1 {
                assert(dec(n)[i] == dec(n / 10)[i]);
            }
        }
    }
}

proof fn lemma_dec_parses(n: nat, max: nat)
    requires
        n <= max,
    ensures
        parse_unsigned(dec(n), max) == Some(n),
        !dec(n).contains(';'),
        !dec(n).contains('\n'),
{
    lemma_dec_reads(n, max);
}

/// A task that the stored format can hold: its text has no `;` and no line
/// break, and its id and time fit their stored widths.
pub open spec fn storable(t: Task) -> bool {
    &&& !t.text.contains(';')
    &&& !t.text.contains('\n')
    &&& t.id <= u32::MAX
    &&& t.created <= u64::MAX
}

proof fn lemma_line_reads(t: Task)
    requires
        storable(t),
    ensures
        parse_line(record_line(t)) == Some(t),
        !record_line(t).contains('\n'),
{
    reveal_strlit(";");
    reveal_strlit("true");
    reveal_strlit("false");
    lemma_dec_parses(t.id, u32::MAX as nat);
    lemma_dec_parses(t.created, u64::MAX as nat);
    lemma_dec_reads(t.id, u32::MAX as nat);
    let f = if t.done { "true"@ } else { "false"@ };
    let a = dec(t.id);
    let b = a.push(';') + t.text;
    let c = b.push(';') + dec(t.created);
    let l = c.push(';') + f;
    assert(l =~= record_line(t));
    assert(!f.contains(';')) by {
        if f.contains(';') {
            let i = choose|i: int| 0 <= i < f.len() && f[i] == ';';
        }
    }
    lemma_pieces_plain(Seq::empty(), a, ';');
    assert(Seq::<char>::empty() + a =~= a);
    assert(pieces(Seq::<char>::empty(), ';') =~= seq![Seq::<char>::empty()]);
    assert(pieces(a, ';') =~= seq![a]);
    lemma_pieces_then(a, t.text, ';');
    lemma_pieces_then(b, dec(t.created), ';');
    lemma_pieces_then(c, f, ';');
    assert(pieces(l, ';') =~= seq![a, t.text, dec(t.created), f]);
    assert(l[0] == a[0]);
    assert("true"@ =~= seq!['t', 'r', 'u', 'e']);
    assert("false"@ =~= seq!['f', 'a', 'l', 's', 'e']);
    assert(parse_flag(f) == Some(t.done));
    assert(!l.contains('\n')) by {
        if l.contains('\n') {
            let i = choose|i: int| 0 <= i < l.len() && l[i] == '\n';
            if i < a.len() {
                assert(l[i] == a[i]);
            } else if i == a.len() {
            } else if i < b.len() {
                assert(l[i] == t.text[i - a.len() - 1]);
            } else if i == b.len() {
            } else if i < c.len() {
                assert(l[i] == dec(t.created)[i - b.len() - 1]);
            } else if i == c.len() {
            } else {
                assert(l[i] == f[i - c.len() - 1]);
            }
        }
    }
}

/// The first line of the stored text, without its line break.
spec fn heading() -> Seq<char> {
    "# ToDo list database"@
}

proof fn lemma_lines_of_empty_save()
    ensures
        pieces(save_text(Seq::empty()), '\n') == seq![heading(), Seq::empty(), Seq::empty()],
{
    reveal_strlit("# ToDo list database\n\n");
    reveal_strlit("# ToDo list database");
    let s = Seq::<Task>::empty();
    let h = heading();
    assert(!h.contains('\n')) by {
        if h.contains('\n') {
            let i = choose|i: int| 0 <= i < h.len() && h[i] == '\n';
        }
    }
    lemma_pieces_plain(Seq::empty(), h, '\n');
    assert(Seq::<char>::empty() + h =~= h);
    assert(pieces(Seq::<char>::empty(), '\n') =~= seq![Seq::<char>::empty()]);
    lemma_pieces_then(h, Seq::empty(), '\n');
    assert(h.push('\n') + Seq::<char>::empty() =~= h.push('\n'));
    lemma_pieces_then(h.push('\n'), Seq::empty(), '\n');
    assert(records_text(s) =~= Seq::<char>::empty());
    assert(save_text(s) =~= "# ToDo list database\n\n"@);
    assert(h.push('\n').push('\n') + Seq::<char>::empty() =~= save_text(s));
    assert(pieces(save_text(s), '\n') =~= seq![heading(), Seq::empty(), Seq::empty()]);
}

proof fn lemma_lines_of_save(s: Seq<Task>)
    requires
        forall|i: int| 0 <= i < s.len() ==> storable(#[trigger] s[i]),
    ensures
        pieces(save_text(s), '\n') == seq![heading(), Seq::empty()] + s.map_values(|t: Task| record_line(t)) + seq![Seq::<char>::empty()],
    decreases s.len(),
{
    reveal_strlit("\n");
    if s.len() == 0 {
        lemma_lines_of_empty_save();
        assert(s.map_values(|t: Task| record_line(t)) =~= Seq::<Seq<char>>::empty());
        assert(seq![heading(), Seq::empty()] + s.map_values(|t: Task| record_line(t)) + seq![Seq::<char>::empty()]
            =~= seq![heading(), Seq::empty(), Seq::empty()]);
        assert(save_text(s) =~= save_text(Seq::empty()));
    } else {
        let init = s.drop_last();
        assert forall|i: int| 0 <= i < init.len() implies storable(#[trigger] init[i]) by {
            assert(init[i] == s[i]);
        }
        lemma_lines_of_save(init);
        lemma_line_reads(s.last());
        let x = save_text(init);
        let rl = record_line(s.last());
        lemma_pieces_plain(x, rl, '\n');
        lemma_pieces_len(x, '\n');
        assert(save_text(s) =~= (x + rl).push('\n'));
        assert((x + rl).push('\n').drop_last() =~= x + rl);
        assert(Seq::<char>::empty() + rl =~= rl);
        assert(pieces(save_text(s), '\n') =~= seq![heading(), Seq::empty()] + s.map_values(|t: Task| record_line(t)) + seq![Seq::<char>::empty()]);
    }
}

proof fn lemma_records_of_lines(s: Seq<Task>)
    requires
        forall|i: int| 0 <= i < s.len() ==> storable(#[trigger] s[i]),
    ensures
        records_of(seq![heading(), Seq::empty()] + s.map_values(|t: Task| record_line(t))) == s,
    decreases s.len(),
{
    reveal_strlit("# ToDo list database");
    let p = seq![heading(), Seq::<char>::empty()];
    if s.len() == 0 {
        assert(p + s.map_values(|t: Task| record_line(t)) =~= p);
        assert(p.drop_last() =~= seq![heading()]);
        assert(seq![heading()].drop_last() =~= Seq::<Seq<char>>::empty());
        assert(heading()[0] == '#');
        assert(parse_line(heading()) is None);
        assert(parse_line(Seq::<char>::empty()) is None);
        assert(p.last() == Seq::<char>::empty());
        assert(seq![heading()].last() == heading());
        assert(records_of(Seq::<Seq<char>>::empty()) == Seq::<Task>::empty());
        assert(records_of(seq![heading()]) == Seq::<Task>::empty());
        assert(records_of(p) =~= s);
    } else {
        let init = s.drop_last();
        assert forall|i: int| 0 <= i < init.len() implies storable(#[trigger] init[i]) by {
            assert(init[i] == s[i]);
        }
        lemma_records_of_lines(init);
        lemma_line_reads(s.last());
        let q = p + s.map_values(|t: Task| record_line(t));
        assert(q.drop_last() =~= p + init.map_values(|t: Task| record_line(t)));
        assert(q.last() == record_line(s.last()));
        assert(records_of(q) =~= s);
    }
}

/// Loading the text that a store is saved as gives back the same tasks, in the
/// same order, where no task's text holds a `;` or a line break.
pub proof fn law_save_then_load(s: Seq<Task>)
    requires
        forall|i: int| 0 <= i < s.len() ==> storable(#[trigger] s[i]),
    ensures
        load_text(save_text(s)) == s,
{
    lemma_lines_of_save(s);
    lemma_records_of_lines(s);
    let q = seq![heading(), Seq::empty()] + s.map_values(|t: Task| record_line(t));
    assert((q + seq![Seq::<char>::empty()]).drop_last() =~= q);
}

impl TodoDatabase {
    /// The store that a stored text holds: the tasks of its lines in order,
    /// passing over the lines that hold none.
    pub fn load(text: &str) -> (r: TodoDatabase)
        ensures
            r@ == load_text(text@),
    {
        let lines = piece_ranges(text, '\n');
        let ghost ls = pieces(text@, '\n');
        let mut items: Vec<TodoItem> = Vec::new();
        let mut j: usize = 0;
        while j < lines.len()
            invariant
                j <= lines@.len() == ls.len(),
                ls == pieces(text@, '\n'),
                forall|k: int| 0 <= k < lines@.len() ==> {
                    &&& (#[trigger] lines@[k]).0 <= lines@[k].1 <= text@.len()
                    &&& ls[k] == text@.subrange(lines@[k].0 as int, lines@[k].1 as int)
                },
                items@.map_values(|t: TodoItem| t@) == records_of(ls.take(j as int)),
            decreases lines@.len() - j,
        {
            assert(lines@[j as int].0 <= lines@[j as int].1 <= text@.len());
            let line = text.substring_char(lines[j].0, lines[j].1);
            assert(ls.take(j + 1).drop_last() =~= ls.take(j as int));
            assert(ls.take(j + 1).last() == line@);
            match parse_item(line) {
                Some(t) => {
                    items.push(t);
                    assert(items@.map_values(|t: TodoItem| t@) =~= records_of(ls.take(j + 1)));
                },
                None => {},
            }
            j = j + 1;
        }
        assert(ls.take(j as int) =~= ls);
        TodoDatabase::from_items(items)
    }

    /// The text under which the store is kept, tasks in store order.
    pub fn save(&self) -> (r: String)
        ensures
            r@ == save_text(self@),
    {
        let mut out = String::from_str("# ToDo list database\n\n");
        let ghost head = out@;
        let n = self.len();
        let mut i: usize = 0;
        while i < n
            invariant
                n == self@.len(),
                i <= n,
                out@ == head + records_text(self@.take(i as int)),
                head == "# ToDo list database\n\n"@,
            decreases n - i,
        {
            let t = self.item(i);
            let ghost before = out@;
            let line = record_string(t);
            out.append(line.as_str());
            out.append("\n");
            assert(self@.take(i + 1).drop_last() =~= self@.take(i as int));
            assert(out@ =~= before + record_line(t@) + "\n"@);
            i = i + 1;
        }
        assert(self@.take(n as int) =~= self@);
        out
    }
}

} // verus!
