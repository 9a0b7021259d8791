use vstd::prelude::*;
use crate::task::{tasks_view, Task, TaskView};
use crate::text::{chars_of, push_char};

verus! {

/// Why a tasks file could not be read.
#[derive(Clone, Copy, Debug, PartialEq, Eq, Structural)]
pub enum LoadError {
    /// The file does not start with the `done,desc` header line.
    BadHeader,
    /// A row is not a flag, a comma and one field.
    BadRow,
}

/// The header line, with its line break.
pub open spec fn header_text() -> Seq<char> {
    seq!['d', 'o', 'n', 'e', ',', 'd', 'e', 's', 'c', '\n']
}

/// The flag column and its comma.
pub open spec fn flag_text(done: bool) -> Seq<char> {
    if done {
        seq!['t', 'r', 'u', 'e', ',']
    } else {
        seq!['f', 'a', 'l', 's', 'e', ',']
    }
}

/// A character inside a quoted field: a quote is doubled.
pub open spec fn escaped_char(c: char) -> Seq<char> {
    if c == '"' {
        seq!['"', '"']
    } else {
        seq![c]
    }
}

/// The inside of a quoted field.
pub open spec fn escaped(d: Seq<char>) -> Seq<char>
    decreases d.len(),
{
    if d.len() == 0 {
        Seq::empty()
    } else {
        escaped(d.drop_last()) + escaped_char(d.last())
    }
}

/// One row: the flag, a comma, the quoted description and a line break.
pub open spec fn row_text(t: TaskView) -> Seq<char> {
    flag_text(t.done) + seq!['"'] + escaped(t.desc) + seq!['"', '\n']
}

/// The rows of a sequence of tasks, in order.
pub open spec fn rows_text(ts: Seq<TaskView>) -> Seq<char>
    decreases ts.len(),
{
    if ts.len() == 0 {
        Seq::empty()
    } else {
        rows_text(ts.drop_last()) + row_text(ts.last())
    }
}

/// The whole file for a sequence of tasks.
pub open spec fn file_text(ts: Seq<TaskView>) -> Seq<char> {
    header_text() + rows_text(ts)
}

/// `t` occurs in `s` at index `i`.
pub open spec fn has_at(s: Seq<char>, i: int, t: Seq<char>) -> bool {
    0 <= i && i + t.len() <= s.len() && s.subrange(i, i + t.len()) == t
}

/// Reads the rest of a quoted field whose opening quote was before `i`, with
/// `acc` read so far: the field and the index after its closing quote.
pub open spec fn parse_quoted(s: Seq<char>, i: int, acc: Seq<char>) -> Option<(Seq<char>, int)>
    decreases s.len() - i,
{
    if i < 0 || i >= s.len() {
        None
    } else if s[i] == '"' {
        if i + 1 < s.len() && s[i + 1] == '"' {
            parse_quoted(s, i + 2, acc.push('"'))
        } else {
            Some((acc, i + 1))
        }
    } else {
        parse_quoted(s, i + 1, acc.push(s[i]))
    }
}

/// Reads an unquoted field from `i`, with `acc` read so far: the field and the
/// index of the line break or end after it. A quote or a comma in it is refused.
pub open spec fn parse_plain(s: Seq<char>, i: int, acc: Seq<char>) -> Option<(Seq<char>, int)>
    decreases s.len() - i,
{
    if i < 0 || i >= s.len() || s[i] == '\n' {
        Some((acc, i))
    } else if s[i] == '"' || s[i] == ',' {
        None
    } else {
        parse_plain(s, i + 1, acc.push(s[i]))
    }
}

/// Reads one field from `i`.
pub open spec fn parse_field(s: Seq<char>, i: int) -> Option<(Seq<char>, int)> {
    if 0 <= i < s.len() && s[i] == '"' {
        parse_quoted(s, i + 1, Seq::empty())
    } else {
        parse_plain(s, i, Seq::empty())
    }
}

/// Reads one row from `i`: the task and the index after its line break (or the end).
pub open spec fn parse_row(s: Seq<char>, i: int) -> Option<(TaskView, int)> {
    let flag = if has_at(s, i, flag_text(true)) {
        Some((true, i + 5))
    } else if has_at(s, i, flag_text(false)) {
        Some((false, i + 6))
    } else {
        None
    };
    match flag {
        None => None,
        Some((done, j)) => match parse_field(s, j) {
            None => None,
            Some((desc, k)) => if k == s.len() {
                Some((TaskView { done, desc }, k))
            } else if 0 <= k < s.len() && s[k] == '\n' {
                Some((TaskView { done, desc }, k + 1))
            } else {
                None
            },
        },
    }
}

/// Reads the rows from `i` to the end, after the tasks `acc` read so far.
pub open spec fn parse_rows(s: Seq<char>, i: int, acc: Seq<TaskView>) -> Option<Seq<TaskView>>
    decreases s.len() - i,
{
    if i < 0 || i >= s.len() {
        Some(acc)
    } else {
        match parse_row(s, i) {
            Some((t, j)) => if i < j {
                parse_rows(s, j, acc.push(t))
            } else {
                None
            },
            None => None,
        }
    }
}

/// The tasks that a file holds. An empty file holds none; otherwise it starts
/// with the header line, and every row must be well formed.
pub open spec fn parse_file(s: Seq<char>) -> Result<Seq<TaskView>, LoadError> {
    if s.len() == 0 {
        Ok(Seq::empty())
    } else if !has_at(s, 0, header_text()) {
        Err(LoadError::BadHeader)
    } else {
        match parse_rows(s, header_text().len() as int, Seq::empty()) {
            Some(ts) => Ok(ts),
            None => Err(LoadError::BadRow),
        }
    }
}

proof fn lemma_escaped_front(d: Seq<char>)
    requires
        d.len() > 0,
    ensures
        escaped(d) == escaped_char(d[0]) + escaped(d.drop_first()),
    decreases d.len(),
{
    if d.len() == 1 {
        assert(d.drop_last() =~= Seq::<char>::empty());
        assert(d.drop_first() =~= Seq::<char>::empty());
        assert(escaped(d) =~= escaped_char(d[0]) + escaped(d.drop_first()));
    } else {
        lemma_escaped_front(d.drop_last());
        assert(d.drop_last().drop_first() =~= d.drop_first().drop_last());
        assert(escaped(d) =~= escaped_char(d[0]) + escaped(d.drop_first()));
    }
}

proof fn lemma_rows_front(ts: Seq<TaskView>)
    requires
        ts.len() > 0,
    ensures
        rows_text(ts) == row_text(ts[0]) + rows_text(ts.drop_first()),
    decreases ts.len(),
{
    if ts.len() == 1 {
        assert(ts.drop_last() =~= Seq::<TaskView>::empty());
        assert(ts.drop_first() =~= Seq::<TaskView>::empty());
        assert(rows_text(ts) =~= row_text(ts[0]) + rows_text(ts.drop_first()));
    } else {
        lemma_rows_front(ts.drop_last());
        assert(ts.drop_last().drop_first() =~= ts.drop_first().drop_last());
        assert(rows_text(ts) =~= row_text(ts[0]) + rows_text(ts.drop_first()));
    }
}

proof fn lemma_parse_quoted(s: Seq<char>, i: int, acc: Seq<char>, d: Seq<char>)
    requires
        has_at(s, i, escaped(d) + seq!['"', '\n']),
    ensures
        parse_quoted(s, i, acc) == Some((acc + d, i + escaped(d).len() + 1)),
    decreases d.len(),
{
    let e = escaped(d) + seq!['"', '\n'];
    assert(forall|k: int| 0 <= k < e.len() ==> s[i + k] == #[trigger] e[k]) by {
        assert forall|k: int| 0 <= k < e.len() implies s[i + k] == #[trigger] e[k] by {
            assert(s.subrange(i, i + e.len())[k] == s[i + k]);
        }
    }
    if d.len() == 0 {
        assert(escaped(d) =~= Seq::<char>::empty());
        assert(e[0] == '"');
        assert(e[1] == '\n');
        assert(acc + d =~= acc);
    } else {
        lemma_escaped_front(d);
        let rest = d.drop_first();
        let w = escaped_char(d[0]).len() as int;
        assert(e =~= escaped_char(d[0]) + (escaped(rest) + seq!['"', '\n']));
        assert(e.subrange(w, e.len() as int) =~= escaped(rest) + seq!['"', '\n']);
        assert(s.subrange(i + w, i + w + escaped(rest).len() + 2) =~= s.subrange(
            i,
            i + e.len(),
        ).subrange(w, e.len() as int));
        if d[0] == '"' {
            assert(e[0] == '"' && e[1] == '"');
            lemma_parse_quoted(s, i + 2, acc.push('"'), rest);
            assert(acc.push('"') + rest =~= acc + d);
        } else {
            assert(e[0] == d[0]);
            lemma_parse_quoted(s, i + 1, acc.push(d[0]), rest);
            assert(acc.push(d[0]) + rest =~= acc + d);
        }
    }
}

proof fn lemma_parse_row(s: Seq<char>, i: int, t: TaskView)
    requires
        has_at(s, i, row_text(t)),
    ensures
        parse_row(s, i) == Some((t, i + row_text(t).len())),
{
    let r = row_text(t);
    let f = flag_text(t.done);
    let j = i + f.len();
    let e = escaped(t.desc) + seq!['"', '\n'];
    let q = j + 1 + escaped(t.desc).len() + 1;
    assert(r =~= f + seq!['"'] + e);
    assert(q + 1 == i + r.len());
    assert(s.subrange(i, i + f.len()) =~= f) by {
        assert(s.subrange(i, i + f.len()) =~= s.subrange(i, i + r.len()).subrange(
            0,
            f.len() as int,
        ));
    }
    assert(s[j] == '"') by {
        assert(s.subrange(i, i + r.len())[f.len() as int] == s[j]);
    }
    assert(s.subrange(j + 1, j + 1 + e.len()) =~= e) by {
        assert(s.subrange(j + 1, j + 1 + e.len()) =~= s.subrange(i, i + r.len()).subrange(
            (f.len() + 1) as int,
            r.len() as int,
        ));
    }
    lemma_parse_quoted(s, j + 1, Seq::empty(), t.desc);
    assert(Seq::<char>::empty() + t.desc =~= t.desc);
    assert(s[q] == '\n') by {
        assert(s.subrange(j + 1, j + 1 + e.len())[e.len() - 1] == s[q]);
    }
    if !t.done {
        assert(!has_at(s, i, flag_text(true))) by {
            assert(s.subrange(i, i + f.len())[0] == 'f');
            if has_at(s, i, flag_text(true)) {
                assert(s.subrange(i, i + 5)[0] == 't');
            }
        }
    }
}

proof fn lemma_parse_rows(s: Seq<char>, i: int, acc: Seq<TaskView>, ts: Seq<TaskView>)
    requires
        0 <= i <= s.len(),
        s.subrange(i, s.len() as int) == rows_text(ts),
    ensures
        parse_rows(s, i, acc) == Some(acc + ts),
    decreases ts.len(),
{
    if ts.len() == 0 {
        assert(acc + ts =~= acc);
    } else {
        lemma_rows_front(ts);
        let t = ts[0];
        let r = row_text(t);
        let k = i + r.len();
        assert(s.subrange(i, s.len() as int).len() == r.len() + rows_text(
            ts.drop_first(),
        ).len());
        assert(s.subrange(i, k) =~= r) by {
            assert(s.subrange(i, k) =~= s.subrange(i, s.len() as int).subrange(0, r.len() as int));
        }
        lemma_parse_row(s, i, t);
        assert(s.subrange(k, s.len() as int) =~= rows_text(ts.drop_first())) by {
            assert(s.subrange(k, s.len() as int) =~= s.subrange(i, s.len() as int).subrange(
                r.len() as int,
                s.len() - i,
            ));
        }
        lemma_parse_rows(s, k, acc.push(t), ts.drop_first());
        assert(acc.push(t) + ts.drop_first() =~= acc + ts);
    }
}

/// Reading back what was written for a sequence of tasks gives the same tasks,
/// in the same order.
pub proof fn lemma_round_trip(ts: Seq<TaskView>)
    ensures
        parse_file(file_text(ts)) == Ok::<Seq<TaskView>, LoadError>(ts),
{
    let s = file_text(ts);
    let h = header_text();
    assert(s.subrange(0, h.len() as int) =~= h);
    assert(s.subrange(h.len() as int, s.len() as int) =~= rows_text(ts));
    lemma_parse_rows(s, h.len() as int, Seq::empty(), ts);
    assert(Seq::<TaskView>::empty() + ts =~= ts);
}

fn push_all(out: &mut String, cs: &Vec<char>)
    ensures
        final(out)@ == old(out)@ + cs@,
{
    let ghost start = out@;
    let mut k: usize = 0;
    while k < cs.len()
        invariant
            k <= cs.len(),
            out@ == start + cs@.take(k as int),
        decreases cs.len() - k,
    {
        push_char(out, cs[k]);
        k += 1;
        assert(cs@.take(k as int) =~= cs@.take(k - 1).push(cs@[k - 1]));
    }
    assert(cs@.take(k as int) =~= cs@);
}

fn push_escaped(out: &mut String, desc: &String)
    ensures
        final(out)@ == old(out)@ + escaped(desc@),
{
    let cs = chars_of(desc.as_str());
    let ghost start = out@;
    let mut k: usize = 0;
    assert(escaped(cs@.take(0)) =~= Seq::<char>::empty());
    while k < cs.len()
        invariant
            k <= cs.len(),
            cs@ == desc@,
            out@ == start + escaped(cs@.take(k as int)),
        decreases cs.len() - k,
    {
        let c = cs[k];
        push_char(out, c);
        if c == '"' {
            push_char(out, '"');
        }
        k += 1;
        assert(cs@.take(k as int).drop_last() =~= cs@.take(k - 1));
        assert(out@ =~= start + escaped(cs@.take(k as int)));
    }
    assert(cs@.take(k as int) =~= cs@);
}

/// The file text for `tasks`: the header line, then one row per task in order,
/// each description quoted with its quotes doubled.
pub fn encode_tasks(tasks: &Vec<Task>) -> (r: String)
    ensures
        r@ == file_text(tasks_view(tasks@)),
{
    let mut out = String::new();
    push_all(&mut out, &vec!['d', 'o', 'n', 'e', ',', 'd', 'e', 's', 'c', '\n']);
    let ghost tv = tasks_view(tasks@);
    let mut k: usize = 0;
    assert(tv.take(0) =~= Seq::<TaskView>::empty());
    assert(out@ =~= header_text() + rows_text(tv.take(0)));
    while k < tasks.len()
        invariant
            k <= tasks.len(),
            tv == tasks_view(tasks@),
            out@ == header_text() + rows_text(tv.take(k as int)),
        decreases tasks.len() - k,
    {
        let ghost before = out@;
        let t = &tasks[k];
        if t.done {
            push_all(&mut out, &vec!['t', 'r', 'u', 'e', ',']);
        } else {
            push_all(&mut out, &vec!['f', 'a', 'l', 's', 'e', ',']);
        }
        push_char(&mut out, '"');
        push_escaped(&mut out, &t.desc);
        push_char(&mut out, '"');
        push_char(&mut out, '\n');
        k += 1;
        assert(tv.take(k as int).drop_last() =~= tv.take(k - 1));
        assert(tv[k - 1] == t@);
        assert(out@ =~= before + row_text(t@));
        assert(out@ =~= header_text() + rows_text(tv.take(k as int)));
    }
    assert(tv.take(k as int) =~= tv);
    out
}

fn matches_at(cs: &Vec<char>, i: usize, t: &Vec<char>) -> (r: bool)
    ensures
        r == has_at(cs@, i as int, t@),
        r ==> i + t@.len() <= cs.len(),
{
    if i > cs.len() || t.len() > cs.len() - i {
        return false;
    }
    let mut k: usize = 0;
    while k < t.len()
        invariant
            k <= t.len(),
            i + t.len() <= cs.len(),
            forall|m: int| 0 <= m < k ==> cs@[i + m] == t@[m],
        decreases t.len() - k,
    {
        if cs[i + k] != t[k] {
            assert(cs@.subrange(i as int, i + t.len())[k as int] != t@[k as int]);
            return false;
        }
        k += 1;
    }
    assert(cs@.subrange(i as int, i + t.len()) =~= t@);
    true
}

fn read_quoted(cs: &Vec<char>, i: usize) -> (r: Option<(String, usize)>)
    ensures
        match r {
            Some((d, j)) => parse_quoted(cs@, i as int, Seq::empty()) == Some((d@, j as int)),
            None => parse_quoted(cs@, i as int, Seq::empty()) is None,
        },
{
    let mut acc = String::new();
    let mut k: usize = i;
    loop
        invariant
            parse_quoted(cs@, i as int, Seq::empty()) == parse_quoted(cs@, k as int, acc@),
        decreases cs.len() - k,
    {
        if k >= cs.len() {
            return None;
        }
        if cs[k] == '"' {
            if k + 1 < cs.len() && cs[k + 1] == '"' {
                push_char(&mut acc, '"');
                k += 2;
            } else {
                return Some((acc, k + 1));
            }
        } else {
            push_char(&mut acc, cs[k]);
            k += 1;
        }
    }
}

fn read_plain(cs: &Vec<char>, i: usize) -> (r: Option<(String, usize)>)
    ensures
        match r {
            Some((d, j)) => parse_plain(cs@, i as int, Seq::empty()) == Some((d@, j as int)),
            None => parse_plain(cs@, i as int, Seq::empty()) is None,
        },
{
    let mut acc = String::new();
    let mut k: usize = i;
    loop
        invariant
            parse_plain(cs@, i as int, Seq::empty()) == parse_plain(cs@, k as int, acc@),
        decreases cs.len() - k,
    {
        if k >= cs.len() || cs[k] == '\n' {
            return Some((acc, k));
        }
        if cs[k] == '"' || cs[k] == ',' {
            return None;
        }
        push_char(&mut acc, cs[k]);
        k += 1;
    }
}

fn read_row(cs: &Vec<char>, i: usize) -> (r: Option<(Task, usize)>)
    ensures
        match r {
            Some((t, j)) => parse_row(cs@, i as int) == Some((t@, j as int)),
            None => parse_row(cs@, i as int) is None,
        },
{
    let done;
    let j: usize;
    let yes = vec!['t', 'r', 'u', 'e', ','];
    let no = vec!['f', 'a', 'l', 's', 'e', ','];
    assert(yes@ =~= flag_text(true));
    assert(no@ =~= flag_text(false));
    assert(yes@.len() == 5);
    assert(no@.len() == 6);
    if matches_at(cs, i, &yes) {
        assert(i + yes@.len() <= cs@.len());
        done = true;
        j = i + 5;
    } else if matches_at(cs, i, &no) {
        assert(i + no@.len() <= cs@.len());
        done = false;
        j = i + 6;
    } else {
        return None;
    }
    let field = if j < cs.len() && cs[j] == '"' {
        read_quoted(cs, j + 1)
    } else {
        read_plain(cs, j)
    };
    match field {
        None => None,
        Some((desc, k)) => {
            let t = Task { done, desc };
            if k == cs.len() {
                Some((t, k))
            } else if k < cs.len() && cs[k] == '\n' {
                Some((t, k + 1))
            } else {
                None
            }
        },
    }
}

/// The tasks that a file text holds, in file order. An empty text holds none.
/// Loading is strict: a missing header or any malformed row fails the whole load.
pub fn decode_tasks(text: &str) -> (r: Result<Vec<Task>, LoadError>)
    ensures
        match r {
            Ok(ts) => parse_file(text@) == Ok::<Seq<TaskView>, LoadError>(tasks_view(ts@)),
            Err(e) => parse_file(text@) == Err::<Seq<TaskView>, LoadError>(e),
        },
{
    let cs = chars_of(text);
    let mut out: Vec<Task> = Vec::new();
    if cs.len() == 0 {
        assert(tasks_view(out@) =~= Seq::<TaskView>::empty());
        return Ok(out);
    }
    let header = vec!['d', 'o', 'n', 'e', ',', 'd', 'e', 's', 'c', '\n'];
    assert(header@ =~= header_text());
    if !matches_at(&cs, 0, &header) {
        return Err(LoadError::BadHeader);
    }
    assert(header_text().len() == 10);
    let mut k: usize = 10;
    assert(tasks_view(out@) =~= Seq::<TaskView>::empty());
    while k < cs.len()
        invariant
            cs@ == text@,
            has_at(cs@, 0, header_text()),
            parse_rows(cs@, 10, Seq::empty()) == parse_rows(cs@, k as int, tasks_view(out@)),
        decreases cs.len() - k,
    {
        match read_row(&cs, k) {
            Some((t, j)) => {
                if j <= k {
                    return Err(LoadError::BadRow);
                }
                let ghost before = out@;
                out.push(t);
                assert(tasks_view(out@) =~= tasks_view(before).push(t@));
                k = j;
            },
            None => {
                return Err(LoadError::BadRow);
            },
        }
    }
    Ok(out)
}

} // verus!
