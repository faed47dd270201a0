//! Encoding a task to its persisted text and decoding it back.
//!
//! The persisted form is the header block between two `---` delimiter lines,
//! followed, when the notes are nonempty, by one blank line and the notes,
//! normalized to end in exactly one newline:
//!
//! ```text
//! ---
//! summary: ...
//! created: ...
//! ---
//!
//! notes text
//! ```

use vstd::prelude::*;
use vstd::string::StrSliceExecFns;

use crate::RstaskError;
use crate::header::{
    HeaderV, append_header, header_lines, header_of, header_wf, key_created, key_summary,
    parse_header, parse_header_exec, ts_text,
};
use crate::lines::{
    contains_newline, ends_with_newline, join_lines_from, join_separated, join_terminated,
    lines_of, no_newline, split_lines, str_eq, trim_leading_newlines, trim_start_newlines,
};
use crate::task::{Task, Timestamp, ts_valid};

verus! {

/// The delimiter line: three hyphens.
pub open spec fn delim() -> Seq<char> {
    seq!['-', '-', '-']
}

/// The full persisted text of a record with the given header fields and notes.
pub open spec fn encoded_text(h: HeaderV, notes: Seq<char>) -> Seq<char> {
    let head = delim() + seq!['\n'] + join_terminated(header_lines(h)) + delim() + seq!['\n'];
    if notes.len() == 0 {
        head
    } else if notes.last() == '\n' {
        head + seq!['\n'] + notes
    } else {
        head + seq!['\n'] + notes + seq!['\n']
    }
}

/// Index of the first delimiter line at or after `i`, or -1 when there is
/// none.
pub open spec fn find_delim_line(ls: Seq<Seq<char>>, i: int) -> int
    decreases ls.len() - i,
{
    if 0 <= i < ls.len() {
        if ls[i] == delim() {
            i
        } else {
            find_delim_line(ls, i + 1)
        }
    } else {
        -1
    }
}

pub proof fn lemma_find_delim_at(ls: Seq<Seq<char>>, i: int, j: int)
    requires
        0 <= i <= j < ls.len(),
        forall|k: int| i <= k < j ==> ls[k] != delim(),
        ls[j] == delim(),
    ensures
        find_delim_line(ls, i) == j,
    decreases j - i,
{
    if i < j {
        lemma_find_delim_at(ls, i + 1, j);
    }
}

pub proof fn lemma_find_delim_none(ls: Seq<Seq<char>>, i: int)
    requires
        0 <= i,
        forall|k: int| i <= k < ls.len() ==> ls[k] != delim(),
    ensures
        find_delim_line(ls, i) == -1,
    decreases ls.len() - i,
{
    if i < ls.len() {
        lemma_find_delim_none(ls, i + 1);
    }
}

/// What decoding a persisted text yields: the header fields and the notes, or
/// nothing when the text is malformed.
///
/// The first line must be the opening delimiter; the first later delimiter
/// line closes the header; the lines between them must parse as a header
/// block; the lines after the closing delimiter, joined and with leading
/// blank lines dropped, are the notes.
pub open spec fn decode_spec(s: Seq<char>) -> Option<(HeaderV, Seq<char>)> {
    let ls = lines_of(s);
    if ls.len() == 0 || ls[0] != delim() {
        Option::None
    } else {
        let j = find_delim_line(ls, 1);
        if j < 0 {
            Option::None
        } else {
            match parse_header(ls.subrange(1, j)) {
                Option::None => Option::None,
                Option::Some(h) => Option::Some(
                    (h, trim_leading_newlines(join_separated(ls.skip(j + 1)))),
                ),
            }
        }
    }
}

/// Records whose field values the header text can carry.
pub open spec fn task_encodable(t: Task) -> bool {
    header_wf(header_of(t))
}

/// How a decoded task relates to the decoded header fields and notes, and to
/// the caller-supplied identity: every persistable field comes from the
/// header, the notes from the body, and each transient field from the caller
/// or its fixed default.
pub open spec fn task_matches(
    t: Task,
    hn: (HeaderV, Seq<char>),
    uuid: Seq<char>,
    status: Seq<char>,
    id: i32,
) -> bool {
    &&& header_of(t) == hn.0
    &&& t.notes@ == hn.1
    &&& t.uuid@ == uuid
    &&& t.status@ == status
    &&& t.id == id
    &&& !t.write_pending
    &&& !t.deleted
    &&& !t.filtered
}

fn ts_valid_exec(ts: &Timestamp) -> (b: bool)
    ensures
        b == ts_valid(*ts),
{
    ts.year <= 9999 && 1 <= ts.month && ts.month <= 12 && 1 <= ts.day && ts.day <= 31 && ts.hour
        <= 23 && ts.minute <= 59 && ts.second <= 59
}

/// Whether every field of `task` can be carried by the header text.
pub fn check_encodable(task: &Task) -> (b: bool)
    ensures
        b == task_encodable(*task),
{
    let ghost h = header_of(*task);
    if contains_newline(task.summary.as_str()) || contains_newline(task.project.as_str())
        || contains_newline(task.priority.as_str()) || contains_newline(
        task.delegated_to.as_str(),
    ) {
        return false;
    }
    if !ts_valid_exec(&task.created) {
        return false;
    }
    match &task.resolved {
        Option::Some(ts) => {
            if !ts_valid_exec(ts) {
                return false;
            }
        },
        Option::None => {},
    }
    match &task.due {
        Option::Some(ts) => {
            if !ts_valid_exec(ts) {
                return false;
            }
        },
        Option::None => {},
    }
    let mut i: usize = 0;
    while i < task.tags.len()
        invariant
            i <= task.tags.len(),
            h == header_of(*task),
            forall|j: int| 0 <= j < i ==> crate::lines::no_newline(#[trigger] h.tags[j]),
        decreases task.tags.len() - i,
    {
        if contains_newline(task.tags[i].as_str()) {
            proof {
                assert(h.tags[i as int] == task.tags@[i as int]@);
            }
            return false;
        }
        proof {
            assert(h.tags[i as int] == task.tags@[i as int]@);
        }
        i = i + 1;
    }
    let mut i: usize = 0;
    while i < task.subtasks.len()
        invariant
            i <= task.subtasks.len(),
            h == header_of(*task),
            forall|j: int| 0 <= j < i ==> crate::lines::no_newline(#[trigger] h.subtasks[j].text),
        decreases task.subtasks.len() - i,
    {
        if contains_newline(task.subtasks[i].text.as_str()) {
            proof {
                assert(h.subtasks[i as int] == crate::header::sub_view(task.subtasks@[i as int]));
                assert(h.subtasks[i as int].text == task.subtasks@[i as int].text@);
                assert(!crate::lines::no_newline(h.subtasks[i as int].text));
            }
            return false;
        }
        proof {
            assert(h.subtasks[i as int] == crate::header::sub_view(task.subtasks@[i as int]));
        }
        i = i + 1;
    }
    let mut i: usize = 0;
    while i < task.dependencies.len()
        invariant
            i <= task.dependencies.len(),
            h == header_of(*task),
            forall|j: int| 0 <= j < i ==> crate::lines::no_newline(#[trigger] h.dependencies[j]),
        decreases task.dependencies.len() - i,
    {
        if contains_newline(task.dependencies[i].as_str()) {
            proof {
                assert(h.dependencies[i as int] == task.dependencies@[i as int]@);
            }
            return false;
        }
        proof {
            assert(h.dependencies[i as int] == task.dependencies@[i as int]@);
        }
        i = i + 1;
    }
    true
}

/// Encodes a task to its persisted text.
///
/// Succeeds on exactly the records whose fields the header text can carry
/// ([`task_encodable`]); on any other record it reports a format error.
pub fn task_to_markdown(task: &Task) -> (r: Result<String, RstaskError>)
    ensures
        match r {
            Result::Ok(s) => task_encodable(*task) && s@ == encoded_text(
                header_of(*task),
                task.notes@,
            ),
            Result::Err(e) => !task_encodable(*task) && e is Format,
        },
{
    if !check_encodable(task) {
        return Result::Err(
            RstaskError::Format(
                "task fields contain a newline or an out-of-range timestamp".to_owned(),
            ),
        );
    }
    let mut out = String::new();
    out.append("---\n");
    append_header(&mut out, task);
    out.append("---\n");
    proof {
        reveal_strlit("---\n");
        assert("---\n"@ =~= delim() + seq!['\n']);
    }
    if !task.notes.as_str().is_empty() {
        out.append("\n");
        out.append(task.notes.as_str());
        proof {
            reveal_strlit("\n");
            assert("\n"@ =~= seq!['\n']);
        }
        if !ends_with_newline(task.notes.as_str()) {
            out.append("\n");
            proof {
                assert(out@ =~= encoded_text(header_of(*task), task.notes@));
            }
        } else {
            proof {
                assert(out@ =~= encoded_text(header_of(*task), task.notes@));
            }
        }
    } else {
        proof {
            assert(out@ =~= encoded_text(header_of(*task), task.notes@));
        }
    }
    Result::Ok(out)
}

/// Decodes a persisted text into a task, taking the transient identity fields
/// from the caller.
///
/// Succeeds on exactly the texts that [`decode_spec`] accepts; on any other
/// text it reports a parse error.
pub fn task_from_markdown(content: &str, uuid: &str, status: &str, id: i32) -> (r: Result<
    Task,
    RstaskError,
>)
    ensures
        match r {
            Result::Ok(t) => decode_spec(content@) is Some && task_matches(
                t,
                decode_spec(content@)->0,
                uuid@,
                status@,
                id,
            ),
            Result::Err(e) => decode_spec(content@) is None && e is Parse,
        },
{
    let lines = split_lines(content);
    let ghost ls = lines_of(content@);
    if lines.len() == 0 {
        return Result::Err(RstaskError::Parse("missing frontmatter delimiter".to_owned()));
    }
    let first_ok = str_eq(lines[0], "---");
    proof {
        reveal_strlit("---");
        assert("---"@ =~= delim());
        assert(ls[0] == lines@[0]@);
    }
    if !first_ok {
        return Result::Err(RstaskError::Parse("missing frontmatter delimiter".to_owned()));
    }
    let mut j: usize = 1;
    loop
        invariant_except_break
            1 <= j <= lines.len(),
            ls == lines.deep_view(),
            ls.len() == lines.len(),
            forall|k: int| 1 <= k < j ==> ls[k] != delim(),
        ensures
            1 <= j <= lines.len(),
            forall|k: int| 1 <= k < j ==> ls[k] != delim(),
            j == lines.len() || ls[j as int] == delim(),
        decreases lines.len() - j,
    {
        if j >= lines.len() {
            break;
        }
        let is_delim = str_eq(lines[j], "---");
        proof {
            reveal_strlit("---");
            assert("---"@ =~= delim());
            assert(ls[j as int] == lines@[j as int]@);
        }
        if is_delim {
            break;
        }
        j = j + 1;
    }
    if j >= lines.len() {
        proof {
            lemma_find_delim_none(ls, 1);
        }
        return Result::Err(RstaskError::Parse("missing closing frontmatter delimiter".to_owned()));
    }
    proof {
        lemma_find_delim_at(ls, 1, j as int);
    }
    let mut hdr: Vec<&str> = Vec::new();
    let mut k: usize = 1;
    proof {
        assert(hdr.deep_view() =~= ls.subrange(1, 1));
    }
    while k < j
        invariant
            1 <= k <= j < lines.len(),
            ls == lines.deep_view(),
            ls.len() == lines.len(),
            hdr.deep_view() == ls.subrange(1, k as int),
        decreases j - k,
    {
        let ghost pre = hdr.deep_view();
        hdr.push(lines[k]);
        proof {
            assert(hdr.deep_view() =~= pre.push(ls[k as int]));
            assert(ls.subrange(1, k + 1) =~= ls.subrange(1, k as int).push(ls[k as int]));
        }
        k = k + 1;
    }
    match parse_header_exec(&hdr) {
        Option::None => Result::Err(RstaskError::Parse("malformed frontmatter header".to_owned())),
        Option::Some(f) => {
            let joined = join_lines_from(&lines, j + 1);
            let notes = trim_start_newlines(joined.as_str()).to_owned();
            let t = Task {
                uuid: uuid.to_owned(),
                status: status.to_owned(),
                write_pending: false,
                id,
                deleted: false,
                summary: f.summary,
                notes,
                tags: f.tags,
                project: f.project,
                priority: f.priority,
                delegated_to: f.delegatedto,
                subtasks: f.subtasks,
                dependencies: f.dependencies,
                created: f.created,
                resolved: f.resolved,
                due: f.due,
                filtered: false,
            };
            Result::Ok(t)
        },
    }
}

/// Notes that survive the trip to text and back unchanged: decoding drops
/// leading blank lines and encoding normalizes the final newline, so the
/// notes must not begin or end with one. Interior newlines are free.
pub open spec fn notes_round_trip_safe(notes: Seq<char>) -> bool {
    notes.len() > 0 ==> notes[0] != '\n' && notes.last() != '\n'
}

/// Round trip at the text level: encoding a well-formed header record with
/// round-trip-safe notes and decoding the text yields the same record and the
/// same notes.
#[verifier::rlimit(100)]
pub proof fn lemma_codec_round_trip(h: HeaderV, notes: Seq<char>)
    requires
        header_wf(h),
        notes_round_trip_safe(notes),
    ensures
        decode_spec(encoded_text(h, notes)) == Option::Some((h, notes)),
{
    let hl = header_lines(h);
    crate::header::lemma_header_lines_shape(h);
    let body_lines: Seq<Seq<char>> = if notes.len() == 0 {
        Seq::empty()
    } else {
        seq![Seq::empty()] + lines_of(notes + seq!['\n'])
    };
    let all = seq![delim()] + hl + seq![delim()] + body_lines;
    let text = encoded_text(h, notes);
    // the encoded text is the terminated join of these lines
    crate::lines::lemma_join_terminated_single(delim());
    crate::lines::lemma_join_terminated_append(seq![delim()], hl);
    crate::lines::lemma_join_terminated_append(seq![delim()] + hl, seq![delim()]);
    crate::lines::lemma_join_terminated_append(seq![delim()] + hl + seq![delim()], body_lines);
    if notes.len() > 0 {
        let nn = notes + seq!['\n'];
        assert(nn.last() == '\n');
        crate::lines::lemma_join_lines_terminated(nn);
        crate::lines::lemma_join_terminated_append(
            seq![Seq::empty()],
            lines_of(nn),
        );
        crate::lines::lemma_join_terminated_single(Seq::empty());
        assert(join_terminated(body_lines) =~= seq!['\n'] + nn);
        assert(text =~= join_terminated(all));
    } else {
        assert(body_lines.len() == 0);
        assert(text =~= join_terminated(all));
    }
    // splitting gives the lines back
    crate::lines::lemma_lines_no_newline(notes + seq!['\n']);
    assert forall|i: int| 0 <= i < all.len() implies no_newline(#[trigger] all[i]) by {
        if 1 <= i < 1 + hl.len() {
            assert(all[i] == hl[i - 1]);
        } else if i >= 2 + hl.len() {
            assert(all[i] == body_lines[i - 2 - hl.len()]);
            if i - 2 - hl.len() > 0 {
                assert(body_lines[i - 2 - hl.len()] == lines_of(notes + seq!['\n'])[i - 3
                    - hl.len()]);
            }
        }
    }
    crate::lines::lemma_lines_of_join_terminated(all);
    let ls = lines_of(text);
    assert(ls == all);
    assert(ls[0] == delim());
    // the closing delimiter is the first delimiter line after the opening one
    let j = 1 + hl.len() as int;
    assert forall|k: int| 1 <= k < j implies ls[k] != delim() by {
        assert(ls[k] == hl[k - 1]);
        assert(hl[k - 1].len() >= 2 && !(hl[k - 1][0] == '-' && hl[k - 1][1] == '-'));
    }
    assert(ls[j] == delim());
    lemma_find_delim_at(ls, 1, j);
    // the header block parses back to the record
    assert(ls.subrange(1, j) =~= hl);
    crate::header::lemma_parse_header_roundtrip(h);
    // the tail joins back to the notes
    let tail = ls.skip(j + 1);
    assert(tail =~= body_lines);
    if notes.len() == 0 {
        assert(join_separated(tail) == Seq::<char>::empty());
        assert(trim_leading_newlines(join_separated(tail)) =~= notes);
    } else {
        let nn = notes + seq!['\n'];
        let xs = lines_of(nn);
        assert(xs.len() > 0) by {
            if xs.len() == 0 {
                crate::lines::lemma_join_lines_terminated(nn);
            }
        }
        assert(tail.len() == 1 + xs.len());
        assert(tail.first() == Seq::<char>::empty());
        assert(tail.drop_first() =~= xs);
        assert(join_separated(tail) =~= seq!['\n'] + join_separated(xs));
        crate::lines::lemma_join_lines_terminated(nn);
        crate::lines::lemma_join_terminated_separated(xs);
        assert(join_separated(xs) + seq!['\n'] == nn);
        assert(join_separated(xs) =~= notes) by {
            assert(join_separated(xs).len() == notes.len());
            assert forall|i: int| 0 <= i < notes.len() implies join_separated(xs)[i]
                == notes[i] by {
                assert((join_separated(xs) + seq!['\n'])[i] == join_separated(xs)[i]);
                assert(nn[i] == notes[i]);
            }
        }
        let joined = join_separated(tail);
        assert(joined =~= seq!['\n'] + notes);
        assert(joined[0] == '\n');
        assert(joined.drop_first() =~= notes);
        assert(trim_leading_newlines(joined) == trim_leading_newlines(notes));
        assert(notes[0] != '\n');
        assert(trim_leading_newlines(notes) == notes);
    }
    assert(decode_spec(text) is Some);
    let d = decode_spec(text)->0;
    assert(d.0 =~= h);
    assert(d.1 =~= notes);
    assert(d == (h, notes));
}

/// Round trip at the record level: for any encodable task whose notes are
/// round-trip safe, decoding the encoded text reproduces every persistable
/// field and the notes; the transient fields are the caller's to supply.
pub proof fn lemma_task_round_trip(t: Task)
    requires
        task_encodable(t),
        notes_round_trip_safe(t.notes@),
    ensures
        decode_spec(encoded_text(header_of(t), t.notes@)) == Option::Some(
            (header_of(t), t.notes@),
        ),
{
    lemma_codec_round_trip(header_of(t), t.notes@);
}

/// Decoding demands the delimiters: text whose first line is not the
/// delimiter, or with no later delimiter line, decodes to nothing.
pub proof fn lemma_delimiter_required(s: Seq<char>)
    ensures
        lines_of(s).len() == 0 || lines_of(s)[0] != delim() ==> decode_spec(s) is None,
        (forall|k: int| 1 <= k < lines_of(s).len() ==> lines_of(s)[k] != delim()) ==> decode_spec(
            s,
        ) is None,
{
    let ls = lines_of(s);
    if forall|k: int| 1 <= k < ls.len() ==> ls[k] != delim() {
        lemma_find_delim_none(ls, 1);
    }
}

/// Encoding omits every empty optional field: the header block of a record
/// with empty tags, project, priority, delegated-to, subtasks, dependencies
/// and no resolved or due timestamp is just the summary line and the created
/// line.
pub proof fn lemma_empty_fields_omitted(h: HeaderV)
    requires
        h.tags.len() == 0,
        h.project.len() == 0,
        h.priority.len() == 0,
        h.delegatedto.len() == 0,
        h.subtasks.len() == 0,
        h.dependencies.len() == 0,
        h.resolved is None,
        h.due is None,
    ensures
        header_lines(h) == seq![
            key_summary() + h.summary,
            key_created() + ts_text(h.created),
        ],
{
    assert(header_lines(h) =~= seq![
        key_summary() + h.summary,
        key_created() + ts_text(h.created),
    ]);
}

/// Decoding a header block that lacks every optional key yields the empty
/// value for each of those fields, not an error.
pub proof fn lemma_absent_keys_give_empty_fields(summary: Seq<char>, created: Timestamp)
    requires
        no_newline(summary),
        ts_valid(created),
    ensures
        parse_header(seq![key_summary() + summary, key_created() + ts_text(created)])
            == Option::Some(
            HeaderV {
                summary,
                tags: Seq::empty(),
                project: Seq::empty(),
                priority: Seq::empty(),
                delegatedto: Seq::empty(),
                subtasks: Seq::empty(),
                dependencies: Seq::empty(),
                created,
                resolved: Option::None,
                due: Option::None,
            },
        ),
{
    let h = HeaderV {
        summary,
        tags: Seq::empty(),
        project: Seq::empty(),
        priority: Seq::empty(),
        delegatedto: Seq::empty(),
        subtasks: Seq::empty(),
        dependencies: Seq::empty(),
        created,
        resolved: Option::None,
        due: Option::None,
    };
    lemma_empty_fields_omitted(h);
    crate::header::lemma_parse_header_roundtrip(h);
}

/// How the encoded text ends: with empty notes nothing follows the closing
/// delimiter line; nonempty notes follow a blank line and end in exactly one
/// appended newline when they do not bring their own.
pub proof fn lemma_notes_boundary(h: HeaderV, notes: Seq<char>)
    ensures
        notes.len() == 0 ==> encoded_text(h, notes) == delim() + seq!['\n'] + join_terminated(
            header_lines(h),
        ) + delim() + seq!['\n'],
        notes.len() > 0 && notes.last() != '\n' ==> encoded_text(h, notes) == delim() + seq!['\n']
            + join_terminated(header_lines(h)) + delim() + seq!['\n'] + seq!['\n'] + notes + seq![
            '\n',
        ],
        notes.len() > 0 && notes.last() == '\n' ==> encoded_text(h, notes) == delim() + seq!['\n']
            + join_terminated(header_lines(h)) + delim() + seq!['\n'] + seq!['\n'] + notes,
{
}

} // verus!
