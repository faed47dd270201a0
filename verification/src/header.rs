//! The task header: its textual grammar, rendering and parsing.
//!
//! The header is a block of `key: value` lines in a fixed key order:
//! `summary`, `tags`, `project`, `priority`, `delegatedto`, `subtasks`,
//! `dependencies`, `created`, `resolved`, `due`. `summary` and `created` are
//! always present; each other key is omitted when its value is empty or
//! absent. Sequence values put each item on a `- ` line under the key;
//! subtasks use a `- text:` line followed by an indented `done:` line.
//! Timestamps are written `YYYY-MM-DDTHH:MM:SSZ`.

use vstd::prelude::*;
use vstd::string::StrSliceExecFns;

use crate::lines::no_newline;
use crate::task::{SubTask, Task, Timestamp, ts_valid};

verus! {

/// Ghost form of a subtask.
pub ghost struct SubV {
    pub text: Seq<char>,
    pub done: bool,
}

/// Ghost form of the header record: the persistable fields of a task, with
/// an empty string or sequence standing for an absent key.
#[verifier::ext_equal]
pub ghost struct HeaderV {
    pub summary: Seq<char>,
    pub tags: Seq<Seq<char>>,
    pub project: Seq<char>,
    pub priority: Seq<char>,
    pub delegatedto: Seq<char>,
    pub subtasks: Seq<SubV>,
    pub dependencies: Seq<Seq<char>>,
    pub created: Timestamp,
    pub resolved: Option<Timestamp>,
    pub due: Option<Timestamp>,
}

pub open spec fn key_summary() -> Seq<char> {
    "summary: "@
}

pub open spec fn key_tags() -> Seq<char> {
    "tags:"@
}

pub open spec fn key_project() -> Seq<char> {
    "project: "@
}

pub open spec fn key_priority() -> Seq<char> {
    "priority: "@
}

pub open spec fn key_delegated() -> Seq<char> {
    "delegatedto: "@
}

pub open spec fn key_subtasks() -> Seq<char> {
    "subtasks:"@
}

pub open spec fn key_dependencies() -> Seq<char> {
    "dependencies:"@
}

pub open spec fn key_created() -> Seq<char> {
    "created: "@
}

pub open spec fn key_resolved() -> Seq<char> {
    "resolved: "@
}

pub open spec fn key_due() -> Seq<char> {
    "due: "@
}

pub open spec fn item_prefix() -> Seq<char> {
    "- "@
}

pub open spec fn subtask_text_prefix() -> Seq<char> {
    "- text: "@
}

pub open spec fn subtask_done_true() -> Seq<char> {
    "  done: true"@
}

pub open spec fn subtask_done_false() -> Seq<char> {
    "  done: false"@
}

/// Whether `p` is a prefix of `l`.
pub open spec fn starts_with(l: Seq<char>, p: Seq<char>) -> bool {
    l.len() >= p.len() && l.take(p.len() as int) == p
}

pub open spec fn digit_of(d: int) -> char {
    if d == 0 {
        '0'
    } else if d == 1 {
        '1'
    } else if d == 2 {
        '2'
    } else if d == 3 {
        '3'
    } else if d == 4 {
        '4'
    } else if d == 5 {
        '5'
    } else if d == 6 {
        '6'
    } else if d == 7 {
        '7'
    } else if d == 8 {
        '8'
    } else {
        '9'
    }
}

/// The value of a decimal digit character, or -1 for any other character.
pub open spec fn digit_val(c: char) -> int {
    if c == '0' {
        0
    } else if c == '1' {
        1
    } else if c == '2' {
        2
    } else if c == '3' {
        3
    } else if c == '4' {
        4
    } else if c == '5' {
        5
    } else if c == '6' {
        6
    } else if c == '7' {
        7
    } else if c == '8' {
        8
    } else if c == '9' {
        9
    } else {
        -1
    }
}

pub open spec fn is_digit(c: char) -> bool {
    digit_val(c) >= 0
}

pub open spec fn two_digits(n: int) -> Seq<char> {
    seq![digit_of(n / 10), digit_of(n % 10)]
}

pub open spec fn four_digits(n: int) -> Seq<char> {
    seq![digit_of(n / 1000), digit_of((n / 100) % 10), digit_of((n / 10) % 10), digit_of(n % 10)]
}

/// The textual form of a timestamp.
pub open spec fn ts_text(ts: Timestamp) -> Seq<char> {
    four_digits(ts.year as int) + seq!['-'] + two_digits(ts.month as int) + seq!['-'] + two_digits(
        ts.day as int,
    ) + seq!['T'] + two_digits(ts.hour as int) + seq![':'] + two_digits(ts.minute as int) + seq![
        ':',
    ] + two_digits(ts.second as int) + seq!['Z']
}

/// Parses the textual form of a timestamp back into its fields.
pub open spec fn parse_ts(v: Seq<char>) -> Option<Timestamp> {
    if v.len() == 20 && is_digit(v[0]) && is_digit(v[1]) && is_digit(v[2]) && is_digit(v[3]) && v[4]
        == '-' && is_digit(v[5]) && is_digit(v[6]) && v[7] == '-' && is_digit(v[8]) && is_digit(
        v[9],
    ) && v[10] == 'T' && is_digit(v[11]) && is_digit(v[12]) && v[13] == ':' && is_digit(v[14])
        && is_digit(v[15]) && v[16] == ':' && is_digit(v[17]) && is_digit(v[18]) && v[19] == 'Z' {
        let ts = Timestamp {
            year: (digit_val(v[0]) * 1000 + digit_val(v[1]) * 100 + digit_val(v[2]) * 10
                + digit_val(v[3])) as u32,
            month: (digit_val(v[5]) * 10 + digit_val(v[6])) as u32,
            day: (digit_val(v[8]) * 10 + digit_val(v[9])) as u32,
            hour: (digit_val(v[11]) * 10 + digit_val(v[12])) as u32,
            minute: (digit_val(v[14]) * 10 + digit_val(v[15])) as u32,
            second: (digit_val(v[17]) * 10 + digit_val(v[18])) as u32,
        };
        if ts_valid(ts) {
            Some(ts)
        } else {
            None
        }
    } else {
        None
    }
}

/// One `- ` line per item.
pub open spec fn item_lines(items: Seq<Seq<char>>) -> Seq<Seq<char>> {
    items.map_values(|t: Seq<char>| item_prefix() + t)
}

pub open spec fn done_line(done: bool) -> Seq<char> {
    if done {
        subtask_done_true()
    } else {
        subtask_done_false()
    }
}

/// Two lines per subtask: its text and its completion flag.
pub open spec fn subtask_lines(items: Seq<SubV>) -> Seq<Seq<char>>
    decreases items.len(),
{
    if items.len() == 0 {
        Seq::empty()
    } else {
        seq![subtask_text_prefix() + items.first().text, done_line(items.first().done)]
            + subtask_lines(items.drop_first())
    }
}

/// A scalar key line, omitted when the value is empty.
pub open spec fn opt_scalar_lines(key: Seq<char>, v: Seq<char>) -> Seq<Seq<char>> {
    if v.len() == 0 {
        Seq::empty()
    } else {
        seq![key + v]
    }
}

/// A sequence key with its item lines, omitted when there are no items.
pub open spec fn opt_list_lines(key: Seq<char>, items: Seq<Seq<char>>) -> Seq<Seq<char>> {
    if items.len() == 0 {
        Seq::empty()
    } else {
        seq![key] + item_lines(items)
    }
}

/// The subtasks key with its lines, omitted when there are no subtasks.
pub open spec fn opt_subtask_lines(items: Seq<SubV>) -> Seq<Seq<char>> {
    if items.len() == 0 {
        Seq::empty()
    } else {
        seq![key_subtasks()] + subtask_lines(items)
    }
}

/// An optional timestamp key line.
pub open spec fn opt_ts_lines(key: Seq<char>, o: Option<Timestamp>) -> Seq<Seq<char>> {
    match o {
        Option::None => Seq::empty(),
        Option::Some(ts) => seq![key + ts_text(ts)],
    }
}

/// The header lines of a record, in the fixed key order.
pub open spec fn header_lines(h: HeaderV) -> Seq<Seq<char>> {
    seq![key_summary() + h.summary] + opt_list_lines(key_tags(), h.tags) + opt_scalar_lines(
        key_project(),
        h.project,
    ) + opt_scalar_lines(key_priority(), h.priority) + opt_scalar_lines(
        key_delegated(),
        h.delegatedto,
    ) + opt_subtask_lines(h.subtasks) + opt_list_lines(key_dependencies(), h.dependencies) + seq![
        key_created() + ts_text(h.created),
    ] + opt_ts_lines(key_resolved(), h.resolved) + opt_ts_lines(key_due(), h.due)
}

/// Field values the header text can carry: newline-free scalars and items,
/// and timestamps within [`ts_valid`] ranges.
pub open spec fn header_wf(h: HeaderV) -> bool {
    &&& no_newline(h.summary)
    &&& forall|i: int| 0 <= i < h.tags.len() ==> no_newline(#[trigger] h.tags[i])
    &&& no_newline(h.project)
    &&& no_newline(h.priority)
    &&& no_newline(h.delegatedto)
    &&& forall|i: int| 0 <= i < h.subtasks.len() ==> no_newline(#[trigger] h.subtasks[i].text)
    &&& forall|i: int| 0 <= i < h.dependencies.len() ==> no_newline(#[trigger] h.dependencies[i])
    &&& ts_valid(h.created)
    &&& (h.resolved is Some ==> ts_valid(h.resolved->0))
    &&& (h.due is Some ==> ts_valid(h.due->0))
}

pub proof fn lemma_subtask_lines_append(a: Seq<SubV>, b: Seq<SubV>)
    ensures
        subtask_lines(a + b) == subtask_lines(a) + subtask_lines(b),
    decreases a.len(),
{
    if a.len() == 0 {
        assert(a + b =~= b);
        assert(subtask_lines(a) + subtask_lines(b) =~= subtask_lines(b));
    } else {
        assert((a + b).drop_first() =~= a.drop_first() + b);
        assert((a + b).first() == a.first());
        lemma_subtask_lines_append(a.drop_first(), b);
        assert(subtask_lines(a + b) =~= subtask_lines(a) + subtask_lines(b));
    }
}

pub proof fn lemma_subtask_lines_single(x: SubV)
    ensures
        subtask_lines(seq![x]) == seq![subtask_text_prefix() + x.text, done_line(x.done)],
{
    assert(seq![x].first() == x);
    assert(seq![x].drop_first() =~= Seq::<SubV>::empty());
    assert(subtask_lines(Seq::<SubV>::empty()) == Seq::<Seq<char>>::empty());
    assert(subtask_lines(seq![x]) =~= seq![subtask_text_prefix() + x.text, done_line(x.done)]);
}

/// Ghost form of a subtask value.
pub open spec fn sub_view(st: SubTask) -> SubV {
    SubV { text: st.text@, done: st.done }
}

/// The header record a task persists: its persistable fields, viewed.
pub open spec fn header_of(t: Task) -> HeaderV {
    HeaderV {
        summary: t.summary@,
        tags: t.tags.deep_view(),
        project: t.project@,
        priority: t.priority@,
        delegatedto: t.delegated_to@,
        subtasks: t.subtasks@.map_values(|st: SubTask| sub_view(st)),
        dependencies: t.dependencies.deep_view(),
        created: t.created,
        resolved: t.resolved,
        due: t.due,
    }
}

/// One decimal digit as text.
fn digit_str(d: u32) -> (r: &'static str)
    requires
        d < 10,
    ensures
        r@ == seq![digit_of(d as int)],
{
    if d == 0 {
        proof {
            reveal_strlit("0");
            assert("0"@ =~= seq![digit_of(0)]);
        }
        "0"
    } else if d == 1 {
        proof {
            reveal_strlit("1");
            assert("1"@ =~= seq![digit_of(1)]);
        }
        "1"
    } else if d == 2 {
        proof {
            reveal_strlit("2");
            assert("2"@ =~= seq![digit_of(2)]);
        }
        "2"
    } else if d == 3 {
        proof {
            reveal_strlit("3");
            assert("3"@ =~= seq![digit_of(3)]);
        }
        "3"
    } else if d == 4 {
        proof {
            reveal_strlit("4");
            assert("4"@ =~= seq![digit_of(4)]);
        }
        "4"
    } else if d == 5 {
        proof {
            reveal_strlit("5");
            assert("5"@ =~= seq![digit_of(5)]);
        }
        "5"
    } else if d == 6 {
        proof {
            reveal_strlit("6");
            assert("6"@ =~= seq![digit_of(6)]);
        }
        "6"
    } else if d == 7 {
        proof {
            reveal_strlit("7");
            assert("7"@ =~= seq![digit_of(7)]);
        }
        "7"
    } else if d == 8 {
        proof {
            reveal_strlit("8");
            assert("8"@ =~= seq![digit_of(8)]);
        }
        "8"
    } else {
        proof {
            reveal_strlit("9");
            assert("9"@ =~= seq![digit_of(9)]);
        }
        "9"
    }
}

fn append_two_digits(out: &mut String, n: u32)
    requires
        n < 100,
    ensures
        final(out)@ == old(out)@ + two_digits(n as int),
{
    out.append(digit_str(n / 10));
    out.append(digit_str(n % 10));
    proof {
        assert(out@ =~= old(out)@ + two_digits(n as int));
    }
}

fn append_four_digits(out: &mut String, n: u32)
    requires
        n < 10000,
    ensures
        final(out)@ == old(out)@ + four_digits(n as int),
{
    out.append(digit_str(n / 1000));
    out.append(digit_str((n / 100) % 10));
    out.append(digit_str((n / 10) % 10));
    out.append(digit_str(n % 10));
    proof {
        assert(out@ =~= old(out)@ + four_digits(n as int));
    }
}

fn append_ts(out: &mut String, ts: Timestamp)
    requires
        ts_valid(ts),
    ensures
        final(out)@ == old(out)@ + ts_text(ts),
{
    proof {
        reveal_strlit("-");
        reveal_strlit("T");
        reveal_strlit(":");
        reveal_strlit("Z");
    }
    append_four_digits(out, ts.year);
    out.append("-");
    append_two_digits(out, ts.month);
    out.append("-");
    append_two_digits(out, ts.day);
    out.append("T");
    append_two_digits(out, ts.hour);
    out.append(":");
    append_two_digits(out, ts.minute);
    out.append(":");
    append_two_digits(out, ts.second);
    out.append("Z");
    proof {
        assert("-"@ =~= seq!['-']);
        assert("T"@ =~= seq!['T']);
        assert(":"@ =~= seq![':']);
        assert("Z"@ =~= seq!['Z']);
        assert(out@ =~= old(out)@ + ts_text(ts));
    }
}

fn append_opt_scalar(out: &mut String, key: &str, v: &String)
    ensures
        final(out)@ == old(out)@ + crate::lines::join_terminated(opt_scalar_lines(key@, v@)),
{
    if v.as_str().is_empty() {
        proof {
            assert(old(out)@ + crate::lines::join_terminated(opt_scalar_lines(key@, v@))
                =~= old(out)@);
        }
    } else {
        out.append(key);
        out.append(v.as_str());
        out.append("\n");
        proof {
            reveal_strlit("\n");
            crate::lines::lemma_join_terminated_single(key@ + v@);
            assert(out@ =~= old(out)@ + crate::lines::join_terminated(
                opt_scalar_lines(key@, v@),
            ));
        }
    }
}

fn append_opt_list(out: &mut String, key: &str, items: &Vec<String>)
    ensures
        final(out)@ == old(out)@ + crate::lines::join_terminated(
            opt_list_lines(key@, items.deep_view()),
        ),
{
    let ghost dv = items.deep_view();
    if items.len() == 0 {
        proof {
            assert(dv.len() == 0);
            assert(old(out)@ + crate::lines::join_terminated(opt_list_lines(key@, dv))
                =~= old(out)@);
        }
        return ;
    }
    out.append(key);
    out.append("\n");
    proof {
        reveal_strlit("\n");
    }
    let ghost base = out@;
    let mut i: usize = 0;
    proof {
        assert(item_lines(dv.take(0)) =~= Seq::<Seq<char>>::empty());
        assert(base + crate::lines::join_terminated(item_lines(dv.take(0))) =~= base);
    }
    while i < items.len()
        invariant
            i <= items.len(),
            dv == items.deep_view(),
            dv.len() == items.len(),
            out@ == base + crate::lines::join_terminated(item_lines(dv.take(i as int))),
        decreases items.len() - i,
    {
        out.append("- ");
        out.append(items[i].as_str());
        out.append("\n");
        proof {
            reveal_strlit("\n");
            assert(dv[i as int] == items@[i as int]@);
            assert(item_lines(dv.take(i + 1)) =~= item_lines(dv.take(i as int)).push(
                item_prefix() + dv[i as int],
            ));
            crate::lines::lemma_join_terminated_push(
                item_lines(dv.take(i as int)),
                item_prefix() + dv[i as int],
            );
            assert(out@ =~= base + crate::lines::join_terminated(item_lines(dv.take(i + 1))));
        }
        i = i + 1;
    }
    proof {
        assert(dv.take(dv.len() as int) =~= dv);
        crate::lines::lemma_join_terminated_append(seq![key@], item_lines(dv));
        crate::lines::lemma_join_terminated_single(key@);
        assert(out@ =~= old(out)@ + crate::lines::join_terminated(
            opt_list_lines(key@, dv),
        ));
    }
}

fn append_subtasks(out: &mut String, items: &Vec<SubTask>)
    ensures
        final(out)@ == old(out)@ + crate::lines::join_terminated(
            opt_subtask_lines(items@.map_values(|st: SubTask| sub_view(st))),
        ),
{
    let ghost sv = items@.map_values(|st: SubTask| sub_view(st));
    if items.len() == 0 {
        proof {
            assert(sv.len() == 0);
            assert(old(out)@ + crate::lines::join_terminated(opt_subtask_lines(sv))
                =~= old(out)@);
        }
        return ;
    }
    out.append("subtasks:");
    out.append("\n");
    proof {
        reveal_strlit("\n");
    }
    let ghost base = out@;
    let mut i: usize = 0;
    proof {
        assert(subtask_lines(sv.take(0)) =~= Seq::<Seq<char>>::empty());
        assert(base + crate::lines::join_terminated(subtask_lines(sv.take(0))) =~= base);
    }
    while i < items.len()
        invariant
            i <= items.len(),
            sv == items@.map_values(|st: SubTask| sub_view(st)),
            sv.len() == items.len(),
            out@ == base + crate::lines::join_terminated(subtask_lines(sv.take(i as int))),
        decreases items.len() - i,
    {
        out.append("- text: ");
        out.append(items[i].text.as_str());
        out.append("\n");
        if items[i].done {
            out.append("  done: true");
        } else {
            out.append("  done: false");
        }
        out.append("\n");
        proof {
            reveal_strlit("\n");
            assert(sv[i as int] == sub_view(items@[i as int]));
            assert(sv.take(i + 1) =~= sv.take(i as int) + seq![sv[i as int]]);
            lemma_subtask_lines_append(sv.take(i as int), seq![sv[i as int]]);
            lemma_subtask_lines_single(sv[i as int]);
            let tl = subtask_text_prefix() + sv[i as int].text;
            let dl = done_line(sv[i as int].done);
            crate::lines::lemma_join_terminated_append(
                subtask_lines(sv.take(i as int)),
                seq![tl, dl],
            );
            assert(seq![tl, dl] =~= seq![tl] + seq![dl]);
            crate::lines::lemma_join_terminated_append(seq![tl], seq![dl]);
            crate::lines::lemma_join_terminated_single(tl);
            crate::lines::lemma_join_terminated_single(dl);
            assert(out@ =~= base + crate::lines::join_terminated(subtask_lines(sv.take(i + 1))));
        }
        i = i + 1;
    }
    proof {
        assert(sv.take(sv.len() as int) =~= sv);
        crate::lines::lemma_join_terminated_append(seq![key_subtasks()], subtask_lines(sv));
        crate::lines::lemma_join_terminated_single(key_subtasks());
        assert(out@ =~= old(out)@ + crate::lines::join_terminated(opt_subtask_lines(sv)));
    }
}

fn append_ts_line(out: &mut String, key: &str, ts: Timestamp)
    requires
        ts_valid(ts),
    ensures
        final(out)@ == old(out)@ + crate::lines::join_terminated(seq![key@ + ts_text(ts)]),
{
    out.append(key);
    append_ts(out, ts);
    out.append("\n");
    proof {
        reveal_strlit("\n");
        crate::lines::lemma_join_terminated_single(key@ + ts_text(ts));
        assert(out@ =~= old(out)@ + crate::lines::join_terminated(
            seq![key@ + ts_text(ts)],
        ));
    }
}

/// Appends the full header block of `task`, one line per entry.
#[verifier::rlimit(60)]
pub fn append_header(out: &mut String, task: &Task)
    requires
        header_wf(header_of(*task)),
    ensures
        final(out)@ == old(out)@ + crate::lines::join_terminated(header_lines(header_of(*task))),
{
    let ghost h = header_of(*task);
    let ghost s0 = seq![key_summary() + h.summary];
    let ghost s1 = opt_list_lines(key_tags(), h.tags);
    let ghost s2 = opt_scalar_lines(key_project(), h.project);
    let ghost s3 = opt_scalar_lines(key_priority(), h.priority);
    let ghost s4 = opt_scalar_lines(key_delegated(), h.delegatedto);
    let ghost s5 = opt_subtask_lines(h.subtasks);
    let ghost s6 = opt_list_lines(key_dependencies(), h.dependencies);
    let ghost s7 = seq![key_created() + ts_text(h.created)];
    let ghost s8 = opt_ts_lines(key_resolved(), h.resolved);
    let ghost s9 = opt_ts_lines(key_due(), h.due);
    out.append("summary: ");
    out.append(task.summary.as_str());
    out.append("\n");
    proof {
        reveal_strlit("\n");
        crate::lines::lemma_join_terminated_single(key_summary() + h.summary);
        assert(out@ =~= old(out)@ + crate::lines::join_terminated(s0));
    }
    append_opt_list(out, "tags:", &task.tags);
    append_opt_scalar(out, "project: ", &task.project);
    append_opt_scalar(out, "priority: ", &task.priority);
    append_opt_scalar(out, "delegatedto: ", &task.delegated_to);
    append_subtasks(out, &task.subtasks);
    append_opt_list(out, "dependencies:", &task.dependencies);
    proof {
        assert(out@ == old(out)@ + crate::lines::join_terminated(s0)
            + crate::lines::join_terminated(s1) + crate::lines::join_terminated(s2)
            + crate::lines::join_terminated(s3) + crate::lines::join_terminated(s4)
            + crate::lines::join_terminated(s5) + crate::lines::join_terminated(s6));
    }
    append_ts_line(out, "created: ", task.created);
    match task.resolved {
        Option::Some(ts) => {
            append_ts_line(out, "resolved: ", ts);
            proof {
                assert(s8 =~= seq![key_resolved() + ts_text(ts)]);
            }
        },
        Option::None => {
            proof {
                assert(out@ + crate::lines::join_terminated(s8) =~= out@);
            }
        },
    }
    match task.due {
        Option::Some(ts) => {
            append_ts_line(out, "due: ", ts);
            proof {
                assert(s9 =~= seq![key_due() + ts_text(ts)]);
            }
        },
        Option::None => {
            proof {
                assert(out@ + crate::lines::join_terminated(s9) =~= out@);
            }
        },
    }
    proof {
        crate::lines::lemma_join_terminated_append(s0, s1);
        crate::lines::lemma_join_terminated_append(s0 + s1, s2);
        crate::lines::lemma_join_terminated_append(s0 + s1 + s2, s3);
        crate::lines::lemma_join_terminated_append(s0 + s1 + s2 + s3, s4);
        crate::lines::lemma_join_terminated_append(s0 + s1 + s2 + s3 + s4, s5);
        crate::lines::lemma_join_terminated_append(s0 + s1 + s2 + s3 + s4 + s5, s6);
        crate::lines::lemma_join_terminated_append(s0 + s1 + s2 + s3 + s4 + s5 + s6, s7);
        crate::lines::lemma_join_terminated_append(s0 + s1 + s2 + s3 + s4 + s5 + s6 + s7, s8);
        crate::lines::lemma_join_terminated_append(s0 + s1 + s2 + s3 + s4 + s5 + s6 + s7 + s8, s9);
        assert(header_lines(h) == s0 + s1 + s2 + s3 + s4 + s5 + s6 + s7 + s8 + s9);
        assert(out@ =~= old(out)@ + crate::lines::join_terminated(header_lines(h)));
    }
}

/// Collects consecutive `- ` item lines from position `i` on.
pub open spec fn collect_items(ls: Seq<Seq<char>>, i: int) -> (Seq<Seq<char>>, int)
    decreases ls.len() - i,
{
    if 0 <= i < ls.len() && starts_with(ls[i], item_prefix()) {
        let r = collect_items(ls, i + 1);
        (seq![ls[i].skip(item_prefix().len() as int)] + r.0, r.1)
    } else {
        (Seq::empty(), i)
    }
}

/// An optional sequence key: when line `i` is the key, its items follow.
pub open spec fn parse_opt_list(ls: Seq<Seq<char>>, i: int, key: Seq<char>) -> (
    Seq<Seq<char>>,
    int,
) {
    if 0 <= i < ls.len() && ls[i] == key {
        collect_items(ls, i + 1)
    } else {
        (Seq::empty(), i)
    }
}

/// An optional scalar key: when line `i` starts with the key, the rest of the
/// line is the value; otherwise the value is empty.
pub open spec fn parse_opt_scalar(ls: Seq<Seq<char>>, i: int, key: Seq<char>) -> (Seq<char>, int) {
    if 0 <= i < ls.len() && starts_with(ls[i], key) {
        (ls[i].skip(key.len() as int), i + 1)
    } else {
        (Seq::empty(), i)
    }
}

/// Collects consecutive subtask line pairs from position `i` on. A text line
/// not followed by a well-formed `done` line is a parse failure.
pub open spec fn collect_subtasks(ls: Seq<Seq<char>>, i: int) -> Option<(Seq<SubV>, int)>
    decreases ls.len() - i,
{
    if 0 <= i < ls.len() && starts_with(ls[i], subtask_text_prefix()) {
        if i + 1 < ls.len() && (ls[i + 1] == subtask_done_true() || ls[i + 1]
            == subtask_done_false()) {
            match collect_subtasks(ls, i + 2) {
                Option::None => Option::None,
                Option::Some(r) => Option::Some(
                    (
                        seq![
                            SubV {
                                text: ls[i].skip(subtask_text_prefix().len() as int),
                                done: ls[i + 1] == subtask_done_true(),
                            },
                        ] + r.0,
                        r.1,
                    ),
                ),
            }
        } else {
            Option::None
        }
    } else {
        Option::Some((Seq::empty(), i))
    }
}

pub open spec fn parse_opt_subtasks(ls: Seq<Seq<char>>, i: int) -> Option<(Seq<SubV>, int)> {
    if 0 <= i < ls.len() && ls[i] == key_subtasks() {
        collect_subtasks(ls, i + 1)
    } else {
        Option::Some((Seq::empty(), i))
    }
}

/// A required timestamp key at position `i`.
pub open spec fn parse_req_ts(ls: Seq<Seq<char>>, i: int, key: Seq<char>) -> Option<
    (Timestamp, int),
> {
    if 0 <= i < ls.len() && starts_with(ls[i], key) {
        match parse_ts(ls[i].skip(key.len() as int)) {
            Option::Some(ts) => Option::Some((ts, i + 1)),
            Option::None => Option::None,
        }
    } else {
        Option::None
    }
}

/// An optional timestamp key at position `i`. A present key with a malformed
/// value is a parse failure.
pub open spec fn parse_opt_ts(ls: Seq<Seq<char>>, i: int, key: Seq<char>) -> Option<
    (Option<Timestamp>, int),
> {
    if 0 <= i < ls.len() && starts_with(ls[i], key) {
        match parse_ts(ls[i].skip(key.len() as int)) {
            Option::Some(ts) => Option::Some((Option::Some(ts), i + 1)),
            Option::None => Option::None,
        }
    } else {
        Option::Some((Option::None, i))
    }
}

/// Parses a full header block: the keys in their fixed order, each optional
/// key possibly absent, and nothing after the last key's lines.
pub open spec fn parse_header(ls: Seq<Seq<char>>) -> Option<HeaderV> {
    if ls.len() > 0 && starts_with(ls[0], key_summary()) {
        let summary = ls[0].skip(key_summary().len() as int);
        let (tags, i1) = parse_opt_list(ls, 1, key_tags());
        let (project, i2) = parse_opt_scalar(ls, i1, key_project());
        let (priority, i3) = parse_opt_scalar(ls, i2, key_priority());
        let (delegatedto, i4) = parse_opt_scalar(ls, i3, key_delegated());
        match parse_opt_subtasks(ls, i4) {
            Option::None => Option::None,
            Option::Some((subtasks, i5)) => {
                let (dependencies, i6) = parse_opt_list(ls, i5, key_dependencies());
                match parse_req_ts(ls, i6, key_created()) {
                    Option::None => Option::None,
                    Option::Some((created, i7)) => match parse_opt_ts(ls, i7, key_resolved()) {
                        Option::None => Option::None,
                        Option::Some((resolved, i8)) => match parse_opt_ts(ls, i8, key_due()) {
                            Option::None => Option::None,
                            Option::Some((due, i9)) => if i9 == ls.len() {
                                Option::Some(
                                    HeaderV {
                                        summary,
                                        tags,
                                        project,
                                        priority,
                                        delegatedto,
                                        subtasks,
                                        dependencies,
                                        created,
                                        resolved,
                                        due,
                                    },
                                )
                            } else {
                                Option::None
                            },
                        },
                    },
                }
            },
        }
    } else {
        Option::None
    }
}

pub proof fn lemma_digit_roundtrip(x: int)
    requires
        0 <= x <= 9,
    ensures
        is_digit(digit_of(x)),
        digit_val(digit_of(x)) == x,
{
}

proof fn lemma_two_digit_value(m: int)
    requires
        0 <= m <= 99,
    ensures
        is_digit(digit_of(m / 10)),
        is_digit(digit_of(m % 10)),
        digit_val(digit_of(m / 10)) * 10 + digit_val(digit_of(m % 10)) == m,
{
    lemma_digit_roundtrip(m / 10);
    lemma_digit_roundtrip(m % 10);
}

proof fn lemma_four_digit_value(y: int)
    requires
        0 <= y <= 9999,
    ensures
        is_digit(digit_of(y / 1000)),
        is_digit(digit_of((y / 100) % 10)),
        is_digit(digit_of((y / 10) % 10)),
        is_digit(digit_of(y % 10)),
        digit_val(digit_of(y / 1000)) * 1000 + digit_val(digit_of((y / 100) % 10)) * 100
            + digit_val(digit_of((y / 10) % 10)) * 10 + digit_val(digit_of(y % 10)) == y,
{
    lemma_digit_roundtrip(y / 1000);
    lemma_digit_roundtrip((y / 100) % 10);
    lemma_digit_roundtrip((y / 10) % 10);
    lemma_digit_roundtrip(y % 10);
    vstd::arithmetic::div_mod::lemma_fundamental_div_mod(y, 10);
    vstd::arithmetic::div_mod::lemma_fundamental_div_mod(y / 10, 10);
    vstd::arithmetic::div_mod::lemma_fundamental_div_mod(y / 100, 10);
    vstd::arithmetic::div_mod::lemma_div_denominator(y, 10, 10);
    vstd::arithmetic::div_mod::lemma_div_denominator(y, 100, 10);
    assert(y / 10 / 10 == y / 100);
    assert(y / 100 / 10 == y / 1000);
    assert(1000 * (y / 1000) + 100 * ((y / 100) % 10) + 10 * ((y / 10) % 10) + y % 10 == y);
}

#[verifier::rlimit(100)]
proof fn lemma_ts_text_chars(ts: Timestamp)
    requires
        ts_valid(ts),
    ensures
        ts_text(ts) =~= seq![
            digit_of(ts.year as int / 1000),
            digit_of((ts.year as int / 100) % 10),
            digit_of((ts.year as int / 10) % 10),
            digit_of(ts.year as int % 10),
            '-',
            digit_of(ts.month as int / 10),
            digit_of(ts.month as int % 10),
            '-',
            digit_of(ts.day as int / 10),
            digit_of(ts.day as int % 10),
            'T',
            digit_of(ts.hour as int / 10),
            digit_of(ts.hour as int % 10),
            ':',
            digit_of(ts.minute as int / 10),
            digit_of(ts.minute as int % 10),
            ':',
            digit_of(ts.second as int / 10),
            digit_of(ts.second as int % 10),
            'Z',
        ],
{
    let a = four_digits(ts.year as int) + seq!['-'] + two_digits(ts.month as int) + seq!['-']
        + two_digits(ts.day as int) + seq!['T'];
    assert(a =~= seq![
        digit_of(ts.year as int / 1000),
        digit_of((ts.year as int / 100) % 10),
        digit_of((ts.year as int / 10) % 10),
        digit_of(ts.year as int % 10),
        '-',
        digit_of(ts.month as int / 10),
        digit_of(ts.month as int % 10),
        '-',
        digit_of(ts.day as int / 10),
        digit_of(ts.day as int % 10),
        'T',
    ]);
    let b = two_digits(ts.hour as int) + seq![':'] + two_digits(ts.minute as int) + seq![':']
        + two_digits(ts.second as int) + seq!['Z'];
    assert(b =~= seq![
        digit_of(ts.hour as int / 10),
        digit_of(ts.hour as int % 10),
        ':',
        digit_of(ts.minute as int / 10),
        digit_of(ts.minute as int % 10),
        ':',
        digit_of(ts.second as int / 10),
        digit_of(ts.second as int % 10),
        'Z',
    ]);
    assert(ts_text(ts) =~= a + b);
}

/// Rendering a valid timestamp and parsing the text back yields the same
/// timestamp.
#[verifier::rlimit(100)]
pub proof fn lemma_parse_ts_roundtrip(ts: Timestamp)
    requires
        ts_valid(ts),
    ensures
        parse_ts(ts_text(ts)) == Option::Some(ts),
{
    let v = ts_text(ts);
    let y = ts.year as int;
    let mo = ts.month as int;
    let d = ts.day as int;
    let hh = ts.hour as int;
    let mi = ts.minute as int;
    let ss = ts.second as int;
    lemma_ts_text_chars(ts);
    lemma_four_digit_value(y);
    lemma_two_digit_value(mo);
    lemma_two_digit_value(d);
    lemma_two_digit_value(hh);
    lemma_two_digit_value(mi);
    lemma_two_digit_value(ss);
    assert(v.len() == 20);
    assert(parse_ts(v) == Option::Some(ts));
}

/// Shows a prefix check fails from one differing position (or a too-short
/// line).
pub proof fn lemma_not_prefix_at(l: Seq<char>, p: Seq<char>, idx: int)
    requires
        0 <= idx < p.len(),
        l.len() < p.len() || l[idx] != p[idx],
    ensures
        !starts_with(l, p),
{
    if l.len() >= p.len() && starts_with(l, p) {
        assert(l.take(p.len() as int)[idx] == l[idx]);
    }
}

/// Collecting item lines placed at `i` recovers exactly the items.
pub proof fn lemma_collect_items_rt(ls: Seq<Seq<char>>, i: int, items: Seq<Seq<char>>)
    requires
        0 <= i,
        i + items.len() <= ls.len(),
        forall|k: int| 0 <= k < items.len() ==> ls[i + k] == item_prefix() + #[trigger] items[k],
        i + items.len() == ls.len() || !starts_with(ls[i + items.len()], item_prefix()),
    ensures
        collect_items(ls, i) == (items, i + items.len()),
    decreases items.len(),
{
    reveal_strlit("- ");
    if items.len() == 0 {
        assert(collect_items(ls, i).0 =~= items);
    } else {
        assert(ls[i] == item_prefix() + items[0]);
        assert((item_prefix() + items[0]).take(2) =~= item_prefix());
        assert(starts_with(ls[i], item_prefix()));
        assert(ls[i].skip(2) =~= items[0]);
        assert forall|k: int| 0 <= k < items.drop_first().len() implies ls[(i + 1) + k]
            == item_prefix() + #[trigger] items.drop_first()[k] by {
            assert(items.drop_first()[k] == items[k + 1]);
        }
        lemma_collect_items_rt(ls, i + 1, items.drop_first());
        assert(collect_items(ls, i).0 =~= items);
    }
}

/// Collecting subtask line pairs placed at `i` recovers exactly the subtasks.
pub proof fn lemma_collect_subtasks_rt(ls: Seq<Seq<char>>, i: int, items: Seq<SubV>)
    requires
        0 <= i,
        i + 2 * items.len() <= ls.len(),
        forall|k: int| 0 <= k < items.len() ==> ls[i + 2 * k] == subtask_text_prefix()
            + (#[trigger] items[k]).text && ls[i + 2 * k + 1] == done_line(items[k].done),
        i + 2 * items.len() == ls.len() || !starts_with(
            ls[i + 2 * items.len()],
            subtask_text_prefix(),
        ),
    ensures
        collect_subtasks(ls, i) == Option::Some((items, i + 2 * items.len())),
    decreases items.len(),
{
    reveal_strlit("- text: ");
    reveal_strlit("  done: true");
    reveal_strlit("  done: false");
    if items.len() == 0 {
        assert(collect_subtasks(ls, i) == Option::Some((Seq::<SubV>::empty(), i)));
        assert(Seq::<SubV>::empty() =~= items);
    } else {
        assert(ls[i] == subtask_text_prefix() + items[0].text);
        assert((subtask_text_prefix() + items[0].text).take(8) =~= subtask_text_prefix());
        assert(starts_with(ls[i], subtask_text_prefix()));
        assert(ls[i].skip(8) =~= items[0].text);
        assert(ls[i + 1] == done_line(items[0].done));
        assert(subtask_done_true() != subtask_done_false()) by {
            assert(subtask_done_true().len() == 12);
            assert(subtask_done_false().len() == 13);
        }
        assert((ls[i + 1] == subtask_done_true()) == items[0].done);
        assert forall|k: int| 0 <= k < items.drop_first().len() implies ls[(i + 2) + 2 * k]
            == subtask_text_prefix() + (#[trigger] items.drop_first()[k]).text && ls[(i + 2) + 2
            * k + 1] == done_line(items.drop_first()[k].done) by {
            assert(items.drop_first()[k] == items[k + 1]);
            assert((i + 2) + 2 * k == i + 2 * (k + 1));
        }
        lemma_collect_subtasks_rt(ls, i + 2, items.drop_first());
        let st = SubV { text: ls[i].skip(8), done: ls[i + 1] == subtask_done_true() };
        assert(st == items[0]);
        assert(seq![st] + items.drop_first() =~= items);
    }
}

pub proof fn lemma_subtask_lines_index(items: Seq<SubV>)
    ensures
        subtask_lines(items).len() == 2 * items.len(),
        forall|k: int|
            0 <= k < items.len() ==> subtask_lines(items)[2 * k] == subtask_text_prefix()
                + (#[trigger] items[k]).text && subtask_lines(items)[2 * k + 1] == done_line(
                items[k].done,
            ),
    decreases items.len(),
{
    if items.len() > 0 {
        lemma_subtask_lines_index(items.drop_first());
        assert forall|k: int| 0 <= k < items.len() implies subtask_lines(items)[2 * k]
            == subtask_text_prefix() + (#[trigger] items[k]).text && subtask_lines(items)[2 * k
            + 1] == done_line(items[k].done) by {
            if k > 0 {
                assert(items.drop_first()[k - 1] == items[k]);
                assert(subtask_lines(items)[2 * k] == subtask_lines(items.drop_first())[2 * (k - 1)]);
                assert(subtask_lines(items)[2 * k + 1] == subtask_lines(items.drop_first())[2 * (k
                    - 1) + 1]);
            }
        }
    }
}

/// Lines that open the later header segments cannot be mistaken for an
/// earlier key: the fixed keys differ pairwise in length or in some
/// character.
pub proof fn lemma_key_line_distinct(l: Seq<char>)
    ensures
        l.len() >= 9 ==> l != key_tags(),
        starts_with(l, key_project()) ==> !starts_with(l, item_prefix()),
        starts_with(l, key_priority()) ==> !starts_with(l, key_project()) && !starts_with(
            l,
            item_prefix(),
        ),
        starts_with(l, key_delegated()) ==> !starts_with(l, key_project()) && !starts_with(
            l,
            key_priority(),
        ) && !starts_with(l, item_prefix()),
        l == key_subtasks() ==> !starts_with(l, key_project()) && !starts_with(l, key_priority())
            && !starts_with(l, key_delegated()) && !starts_with(l, item_prefix()),
        l == key_dependencies() ==> !starts_with(l, key_project()) && !starts_with(
            l,
            key_priority(),
        ) && !starts_with(l, key_delegated()) && l != key_subtasks() && !starts_with(
            l,
            item_prefix(),
        ) && !starts_with(l, subtask_text_prefix()),
        starts_with(l, key_created()) && l.len() == 29 ==> !starts_with(l, key_project())
            && !starts_with(l, key_priority()) && !starts_with(l, key_delegated()) && l
            != key_subtasks() && l != key_dependencies() && !starts_with(l, item_prefix())
            && !starts_with(l, subtask_text_prefix()),
        starts_with(l, key_due()) ==> !starts_with(l, key_resolved()),
{
    reveal_strlit("summary: ");
    reveal_strlit("tags:");
    reveal_strlit("project: ");
    reveal_strlit("priority: ");
    reveal_strlit("delegatedto: ");
    reveal_strlit("subtasks:");
    reveal_strlit("dependencies:");
    reveal_strlit("created: ");
    reveal_strlit("resolved: ");
    reveal_strlit("due: ");
    reveal_strlit("- ");
    reveal_strlit("- text: ");
    if starts_with(l, key_project()) {
        assert(l[0] == 'p') by {
            assert(l.take(9)[0] == l[0]);
        }
        lemma_not_prefix_at(l, item_prefix(), 0);
    }
    if starts_with(l, key_priority()) {
        assert(l[0] == 'p' && l[1] == 'r' && l[2] == 'i') by {
            assert(l.take(10)[0] == l[0]);
            assert(l.take(10)[1] == l[1]);
            assert(l.take(10)[2] == l[2]);
        }
        lemma_not_prefix_at(l, key_project(), 2);
        lemma_not_prefix_at(l, item_prefix(), 1);
    }
    if starts_with(l, key_delegated()) {
        assert(l[0] == 'd' && l[1] == 'e') by {
            assert(l.take(13)[0] == l[0]);
            assert(l.take(13)[1] == l[1]);
        }
        lemma_not_prefix_at(l, key_project(), 0);
        lemma_not_prefix_at(l, key_priority(), 0);
        lemma_not_prefix_at(l, item_prefix(), 1);
    }
    if l == key_subtasks() {
        lemma_not_prefix_at(l, key_project(), 0);
        lemma_not_prefix_at(l, key_priority(), 1);
        lemma_not_prefix_at(l, key_delegated(), 0);
        lemma_not_prefix_at(l, item_prefix(), 1);
    }
    if l == key_dependencies() {
        lemma_not_prefix_at(l, key_project(), 2);
        lemma_not_prefix_at(l, key_priority(), 0);
        lemma_not_prefix_at(l, key_delegated(), 2);
        lemma_not_prefix_at(l, item_prefix(), 1);
        lemma_not_prefix_at(l, subtask_text_prefix(), 1);
    }
    if starts_with(l, key_created()) && l.len() == 29 {
        assert(l[0] == 'c' && l[1] == 'r') by {
            assert(l.take(9)[0] == l[0]);
            assert(l.take(9)[1] == l[1]);
        }
        lemma_not_prefix_at(l, key_project(), 0);
        lemma_not_prefix_at(l, key_priority(), 0);
        lemma_not_prefix_at(l, key_delegated(), 0);
        lemma_not_prefix_at(l, item_prefix(), 0);
        lemma_not_prefix_at(l, subtask_text_prefix(), 0);
        assert(l != key_subtasks());
        assert(l != key_dependencies());
    }
    if starts_with(l, key_due()) {
        assert(l[0] == 'd') by {
            assert(l.take(5)[0] == l[0]);
        }
        lemma_not_prefix_at(l, key_resolved(), 0);
    }
}

/// Where each header segment's lines sit within `header_lines`.
#[verifier::rlimit(100)]
proof fn lemma_header_lines_layout(h: HeaderV)
    ensures
        ({
            let ls = header_lines(h);
            let s1 = opt_list_lines(key_tags(), h.tags);
            let s2 = opt_scalar_lines(key_project(), h.project);
            let s3 = opt_scalar_lines(key_priority(), h.priority);
            let s4 = opt_scalar_lines(key_delegated(), h.delegatedto);
            let s5 = opt_subtask_lines(h.subtasks);
            let s6 = opt_list_lines(key_dependencies(), h.dependencies);
            let s8 = opt_ts_lines(key_resolved(), h.resolved);
            let s9 = opt_ts_lines(key_due(), h.due);
            let p2 = 1 + s1.len() as int;
            let p3 = p2 + s2.len();
            let p4 = p3 + s3.len();
            let p5 = p4 + s4.len();
            let p6 = p5 + s5.len();
            let p7 = p6 + s6.len();
            let p8 = p7 + 1;
            let p9 = p8 + s8.len();
            let p10 = p9 + s9.len();
            &&& ls.len() == p10
            &&& ls[0] == key_summary() + h.summary
            &&& forall|k: int| 0 <= k < s1.len() ==> ls[1 + k] == #[trigger] s1[k]
            &&& forall|k: int| 0 <= k < s2.len() ==> ls[p2 + k] == #[trigger] s2[k]
            &&& forall|k: int| 0 <= k < s3.len() ==> ls[p3 + k] == #[trigger] s3[k]
            &&& forall|k: int| 0 <= k < s4.len() ==> ls[p4 + k] == #[trigger] s4[k]
            &&& forall|k: int| 0 <= k < s5.len() ==> ls[p5 + k] == #[trigger] s5[k]
            &&& forall|k: int| 0 <= k < s6.len() ==> ls[p6 + k] == #[trigger] s6[k]
            &&& ls[p7] == key_created() + ts_text(h.created)
            &&& forall|k: int| 0 <= k < s8.len() ==> ls[p8 + k] == #[trigger] s8[k]
            &&& forall|k: int| 0 <= k < s9.len() ==> ls[p9 + k] == #[trigger] s9[k]
        }),
{
    let ls = header_lines(h);
    let s0 = seq![key_summary() + h.summary];
    let s1 = opt_list_lines(key_tags(), h.tags);
    let s2 = opt_scalar_lines(key_project(), h.project);
    let s3 = opt_scalar_lines(key_priority(), h.priority);
    let s4 = opt_scalar_lines(key_delegated(), h.delegatedto);
    let s5 = opt_subtask_lines(h.subtasks);
    let s6 = opt_list_lines(key_dependencies(), h.dependencies);
    let s7 = seq![key_created() + ts_text(h.created)];
    let s8 = opt_ts_lines(key_resolved(), h.resolved);
    let s9 = opt_ts_lines(key_due(), h.due);
    let a4 = s0 + s1 + s2 + s3 + s4;
    let b4 = s5 + s6 + s7 + s8 + s9;
    assert(ls =~= a4 + b4);
    let p2 = 1 + s1.len() as int;
    let p3 = p2 + s2.len();
    let p4 = p3 + s3.len();
    let p5 = p4 + s4.len();
    let p6 = p5 + s5.len();
    let p7 = p6 + s6.len();
    let p8 = p7 + 1;
    let p9 = p8 + s8.len();
    assert(a4.len() == p5);
    assert(ls.len() == p9 + s9.len());
    assert(ls[0] == key_summary() + h.summary);
    assert(forall|k: int| 0 <= k < s1.len() ==> a4[1 + k] == #[trigger] s1[k]);
    assert(forall|k: int| 0 <= k < s2.len() ==> a4[p2 + k] == #[trigger] s2[k]);
    assert(forall|k: int| 0 <= k < s3.len() ==> a4[p3 + k] == #[trigger] s3[k]);
    assert(forall|k: int| 0 <= k < s4.len() ==> a4[p4 + k] == #[trigger] s4[k]);
    assert(forall|k: int| 0 <= k < a4.len() ==> ls[k] == #[trigger] a4[k]);
    assert(forall|k: int| 0 <= k < s5.len() ==> b4[k] == #[trigger] s5[k]);
    assert(forall|k: int| 0 <= k < s6.len() ==> b4[(p6 - p5) + k] == #[trigger] s6[k]);
    assert(b4[p7 - p5] == key_created() + ts_text(h.created));
    assert(forall|k: int| 0 <= k < s8.len() ==> b4[(p8 - p5) + k] == #[trigger] s8[k]);
    assert(forall|k: int| 0 <= k < s9.len() ==> b4[(p9 - p5) + k] == #[trigger] s9[k]);
    assert(forall|k: int| 0 <= k < b4.len() ==> ls[p5 + k] == #[trigger] b4[k]);
}

/// The facts each parser step needs at its position: the opening line of
/// every present segment matches its key, the line at an absent segment's
/// position does not, and the item lines carry the items.
#[verifier::rlimit(100)]
proof fn lemma_header_head_facts(h: HeaderV)
    requires
        header_wf(h),
    ensures
        ({
            let ls = header_lines(h);
            let s1 = opt_list_lines(key_tags(), h.tags);
            let s2 = opt_scalar_lines(key_project(), h.project);
            let s3 = opt_scalar_lines(key_priority(), h.priority);
            let s4 = opt_scalar_lines(key_delegated(), h.delegatedto);
            let s5 = opt_subtask_lines(h.subtasks);
            let s6 = opt_list_lines(key_dependencies(), h.dependencies);
            let s8 = opt_ts_lines(key_resolved(), h.resolved);
            let s9 = opt_ts_lines(key_due(), h.due);
            let p2 = 1 + s1.len() as int;
            let p3 = p2 + s2.len();
            let p4 = p3 + s3.len();
            let p5 = p4 + s4.len();
            let p6 = p5 + s5.len();
            let p7 = p6 + s6.len();
            let p8 = p7 + 1;
            let p9 = p8 + s8.len();
            let p10 = p9 + s9.len();
            &&& ls.len() == p10
            &&& starts_with(ls[0], key_summary())
            &&& ls[0].skip(9) == h.summary
            &&& h.tags.len() > 0 ==> ls[1] == key_tags() && (forall|k: int|
                0 <= k < h.tags.len() ==> ls[2 + k] == item_prefix() + #[trigger] h.tags[k])
            &&& h.tags.len() == 0 ==> ls[1] != key_tags()
            &&& !starts_with(ls[p2], item_prefix())
            &&& h.project.len() > 0 ==> starts_with(ls[p2], key_project()) && ls[p2].skip(9)
                == h.project
            &&& h.project.len() == 0 ==> !starts_with(ls[p2], key_project())
            &&& h.priority.len() > 0 ==> starts_with(ls[p3], key_priority()) && ls[p3].skip(10)
                == h.priority
            &&& h.priority.len() == 0 ==> !starts_with(ls[p3], key_priority())
            &&& h.delegatedto.len() > 0 ==> starts_with(ls[p4], key_delegated()) && ls[p4].skip(13)
                == h.delegatedto
            &&& h.delegatedto.len() == 0 ==> !starts_with(ls[p4], key_delegated())
            &&& h.subtasks.len() > 0 ==> ls[p5] == key_subtasks() && (forall|k: int|
                0 <= k < h.subtasks.len() ==> ls[(p5 + 1) + 2 * k] == subtask_text_prefix()
                    + (#[trigger] h.subtasks[k]).text && ls[(p5 + 1) + 2 * k + 1] == done_line(
                    h.subtasks[k].done,
                ))
            &&& h.subtasks.len() == 0 ==> ls[p5] != key_subtasks()
            &&& !starts_with(ls[p6], subtask_text_prefix())
            &&& h.dependencies.len() > 0 ==> ls[p6] == key_dependencies() && (forall|k: int|
                0 <= k < h.dependencies.len() ==> ls[(p6 + 1) + k] == item_prefix()
                    + #[trigger] h.dependencies[k])
            &&& h.dependencies.len() == 0 ==> ls[p6] != key_dependencies()
            &&& !starts_with(ls[p7], item_prefix())
            &&& starts_with(ls[p7], key_created())
            &&& ls[p7].skip(9) == ts_text(h.created)
            &&& h.resolved is Some ==> starts_with(ls[p8], key_resolved()) && ls[p8].skip(10)
                == ts_text(h.resolved->0)
            &&& h.resolved is None && h.due is Some ==> !starts_with(ls[p8], key_resolved())
            &&& h.resolved is None && h.due is None ==> p8 == ls.len()
            &&& h.due is Some ==> starts_with(ls[p9], key_due()) && ls[p9].skip(5) == ts_text(
                h.due->0,
            )
            &&& h.due is None ==> p9 == ls.len()
        }),
{
    reveal_strlit("summary: ");
    reveal_strlit("tags:");
    reveal_strlit("project: ");
    reveal_strlit("priority: ");
    reveal_strlit("delegatedto: ");
    reveal_strlit("subtasks:");
    reveal_strlit("dependencies:");
    reveal_strlit("created: ");
    reveal_strlit("resolved: ");
    reveal_strlit("due: ");
    reveal_strlit("- ");
    reveal_strlit("- text: ");
    let ls = header_lines(h);
    let s1 = opt_list_lines(key_tags(), h.tags);
    let s2 = opt_scalar_lines(key_project(), h.project);
    let s3 = opt_scalar_lines(key_priority(), h.priority);
    let s4 = opt_scalar_lines(key_delegated(), h.delegatedto);
    let s5 = opt_subtask_lines(h.subtasks);
    let s6 = opt_list_lines(key_dependencies(), h.dependencies);
    let s8 = opt_ts_lines(key_resolved(), h.resolved);
    let s9 = opt_ts_lines(key_due(), h.due);
    lemma_subtask_lines_index(h.subtasks);
    lemma_header_lines_layout(h);
    let p2 = 1 + s1.len() as int;
    let p3 = p2 + s2.len();
    let p4 = p3 + s3.len();
    let p5 = p4 + s4.len();
    let p6 = p5 + s5.len();
    let p7 = p6 + s6.len();
    let p8 = p7 + 1;
    let p9 = p8 + s8.len();
    assert(ts_text(h.created).len() == 20);
    assert(ls[0] == key_summary() + h.summary);
    assert((key_summary() + h.summary).take(9) =~= key_summary());
    assert(ls[0].skip(9) =~= h.summary);
    if h.project.len() > 0 {
        assert(ls[p2] == key_project() + h.project);
        assert((key_project() + h.project).take(9) =~= key_project());
        assert(ls[p2].skip(9) =~= h.project);
        lemma_key_line_distinct(ls[p2]);
    }
    if h.priority.len() > 0 {
        assert(ls[p3] == key_priority() + h.priority);
        assert((key_priority() + h.priority).take(10) =~= key_priority());
        assert(ls[p3].skip(10) =~= h.priority);
        lemma_key_line_distinct(ls[p3]);
    }
    if h.delegatedto.len() > 0 {
        assert(ls[p4] == key_delegated() + h.delegatedto);
        assert((key_delegated() + h.delegatedto).take(13) =~= key_delegated());
        assert(ls[p4].skip(13) =~= h.delegatedto);
        lemma_key_line_distinct(ls[p4]);
    }
    if h.subtasks.len() > 0 {
        assert(ls[p5] == key_subtasks());
        lemma_key_line_distinct(ls[p5]);
        assert(s5 == seq![key_subtasks()] + subtask_lines(h.subtasks));
        assert forall|k: int|
            0 <= k < h.subtasks.len() implies ls[(p5 + 1) + 2 * k] == subtask_text_prefix()
            + (#[trigger] h.subtasks[k]).text && ls[(p5 + 1) + 2 * k + 1] == done_line(
            h.subtasks[k].done,
        ) by {
            assert(s5[1 + 2 * k] == subtask_lines(h.subtasks)[2 * k]);
            assert(s5[1 + 2 * k + 1] == subtask_lines(h.subtasks)[2 * k + 1]);
        }
    }
    if h.dependencies.len() > 0 {
        assert(ls[p6] == key_dependencies());
        lemma_key_line_distinct(ls[p6]);
        assert(s6 == seq![key_dependencies()] + item_lines(h.dependencies));
        assert forall|k: int| 0 <= k < h.dependencies.len() implies ls[(p6 + 1) + k]
            == item_prefix() + #[trigger] h.dependencies[k] by {
            assert(s6[1 + k] == item_lines(h.dependencies)[k]);
        }
    }
    if h.tags.len() > 0 {
        assert(s1 == seq![key_tags()] + item_lines(h.tags));
        assert(ls[1] == key_tags());
        assert forall|k: int| 0 <= k < h.tags.len() implies ls[2 + k] == item_prefix()
            + #[trigger] h.tags[k] by {
            assert(s1[1 + k] == item_lines(h.tags)[k]);
        }
    } else {
        assert(ls[p2].len() >= 9);
        lemma_key_line_distinct(ls[p2]);
    }
    assert(ls[p7] == key_created() + ts_text(h.created));
    assert((key_created() + ts_text(h.created)).take(9) =~= key_created());
    assert(ls[p7].skip(9) =~= ts_text(h.created));
    assert(ls[p7].len() == 29);
    lemma_key_line_distinct(ls[p7]);
    if h.project.len() == 0 {
        lemma_key_line_distinct(ls[p3]);
    }
    if h.priority.len() == 0 {
        lemma_key_line_distinct(ls[p4]);
    }
    if h.delegatedto.len() == 0 {
        lemma_key_line_distinct(ls[p5]);
    }
    if h.subtasks.len() == 0 {
        lemma_key_line_distinct(ls[p6]);
    }
    if h.resolved is Some {
        assert(ls[p8] == key_resolved() + ts_text(h.resolved->0));
        assert((key_resolved() + ts_text(h.resolved->0)).take(10) =~= key_resolved());
        assert(ls[p8].skip(10) =~= ts_text(h.resolved->0));
    }
    if h.due is Some {
        assert(ls[p9] == key_due() + ts_text(h.due->0));
        assert((key_due() + ts_text(h.due->0)).take(5) =~= key_due());
        assert(ls[p9].skip(5) =~= ts_text(h.due->0));
        lemma_key_line_distinct(ls[p9]);
    }
}

/// The first four parser steps: summary, tags, project, priority,
/// delegatedto.
#[verifier::rlimit(100)]
proof fn lemma_parse_steps_front(h: HeaderV)
    requires
        header_wf(h),
    ensures
        ({
            let ls = header_lines(h);
            let s1 = opt_list_lines(key_tags(), h.tags);
            let s2 = opt_scalar_lines(key_project(), h.project);
            let s3 = opt_scalar_lines(key_priority(), h.priority);
            let s4 = opt_scalar_lines(key_delegated(), h.delegatedto);
            let p2 = 1 + s1.len() as int;
            let p3 = p2 + s2.len();
            let p4 = p3 + s3.len();
            let p5 = p4 + s4.len();
            &&& ls.len() > 0
            &&& starts_with(ls[0], key_summary())
            &&& ls[0].skip(9) == h.summary
            &&& parse_opt_list(ls, 1, key_tags()) == (h.tags, p2)
            &&& parse_opt_scalar(ls, p2, key_project()) == (h.project, p3)
            &&& parse_opt_scalar(ls, p3, key_priority()) == (h.priority, p4)
            &&& parse_opt_scalar(ls, p4, key_delegated()) == (h.delegatedto, p5)
        }),
{
    let ls = header_lines(h);
    let s1 = opt_list_lines(key_tags(), h.tags);
    let s2 = opt_scalar_lines(key_project(), h.project);
    let s3 = opt_scalar_lines(key_priority(), h.priority);
    let s4 = opt_scalar_lines(key_delegated(), h.delegatedto);
    let p2 = 1 + s1.len() as int;
    let p3 = p2 + s2.len();
    let p4 = p3 + s3.len();
    let p5 = p4 + s4.len();
    lemma_header_head_facts(h);
    if h.tags.len() == 0 {
        assert(parse_opt_list(ls, 1, key_tags()).0 =~= h.tags);
    } else {
        lemma_collect_items_rt(ls, 2, h.tags);
        assert(parse_opt_list(ls, 1, key_tags()).0 =~= h.tags);
    }
    assert(parse_opt_list(ls, 1, key_tags()).1 == p2);
    assert(parse_opt_scalar(ls, p2, key_project()).0 =~= h.project);
    assert(parse_opt_scalar(ls, p2, key_project()).1 == p3);
    assert(parse_opt_scalar(ls, p3, key_priority()).0 =~= h.priority);
    assert(parse_opt_scalar(ls, p3, key_priority()).1 == p4);
    assert(parse_opt_scalar(ls, p4, key_delegated()).0 =~= h.delegatedto);
    assert(parse_opt_scalar(ls, p4, key_delegated()).1 == p5);
}

/// The middle parser steps: subtasks and dependencies.
#[verifier::rlimit(100)]
proof fn lemma_parse_steps_mid(h: HeaderV)
    requires
        header_wf(h),
    ensures
        ({
            let ls = header_lines(h);
            let s1 = opt_list_lines(key_tags(), h.tags);
            let s2 = opt_scalar_lines(key_project(), h.project);
            let s3 = opt_scalar_lines(key_priority(), h.priority);
            let s4 = opt_scalar_lines(key_delegated(), h.delegatedto);
            let s5 = opt_subtask_lines(h.subtasks);
            let s6 = opt_list_lines(key_dependencies(), h.dependencies);
            let p5 = 1 + s1.len() as int + s2.len() + s3.len() + s4.len();
            let p6 = p5 + s5.len();
            let p7 = p6 + s6.len();
            &&& parse_opt_subtasks(ls, p5) == Option::Some((h.subtasks, p6))
            &&& parse_opt_list(ls, p6, key_dependencies()) == (h.dependencies, p7)
        }),
{
    let ls = header_lines(h);
    let s1 = opt_list_lines(key_tags(), h.tags);
    let s2 = opt_scalar_lines(key_project(), h.project);
    let s3 = opt_scalar_lines(key_priority(), h.priority);
    let s4 = opt_scalar_lines(key_delegated(), h.delegatedto);
    let s5 = opt_subtask_lines(h.subtasks);
    let s6 = opt_list_lines(key_dependencies(), h.dependencies);
    let p5 = 1 + s1.len() as int + s2.len() + s3.len() + s4.len();
    let p6 = p5 + s5.len();
    let p7 = p6 + s6.len();
    lemma_header_head_facts(h);
    lemma_subtask_lines_index(h.subtasks);
    if h.subtasks.len() == 0 {
        assert(parse_opt_subtasks(ls, p5) == Option::Some((Seq::<SubV>::empty(), p5)));
        assert(Seq::<SubV>::empty() =~= h.subtasks);
    } else {
        lemma_collect_subtasks_rt(ls, p5 + 1, h.subtasks);
        assert(parse_opt_subtasks(ls, p5) == Option::Some((h.subtasks, p6)));
    }
    if h.dependencies.len() == 0 {
        assert(parse_opt_list(ls, p6, key_dependencies()).0 =~= h.dependencies);
    } else {
        lemma_collect_items_rt(ls, p6 + 1, h.dependencies);
        assert(parse_opt_list(ls, p6, key_dependencies()).0 =~= h.dependencies);
    }
    assert(parse_opt_list(ls, p6, key_dependencies()).1 == p7);
}

/// The final parser steps: the three timestamp keys, and the end of the
/// lines.
#[verifier::rlimit(100)]
proof fn lemma_parse_steps_ts(h: HeaderV)
    requires
        header_wf(h),
    ensures
        ({
            let ls = header_lines(h);
            let s1 = opt_list_lines(key_tags(), h.tags);
            let s2 = opt_scalar_lines(key_project(), h.project);
            let s3 = opt_scalar_lines(key_priority(), h.priority);
            let s4 = opt_scalar_lines(key_delegated(), h.delegatedto);
            let s5 = opt_subtask_lines(h.subtasks);
            let s6 = opt_list_lines(key_dependencies(), h.dependencies);
            let s8 = opt_ts_lines(key_resolved(), h.resolved);
            let p7 = 1 + s1.len() as int + s2.len() + s3.len() + s4.len() + s5.len() + s6.len();
            let p8 = p7 + 1;
            let p9 = p8 + s8.len();
            &&& ls.len() == p9 + opt_ts_lines(key_due(), h.due).len()
            &&& parse_req_ts(ls, p7, key_created()) == Option::Some((h.created, p8))
            &&& parse_opt_ts(ls, p8, key_resolved()) == Option::Some((h.resolved, p9))
            &&& parse_opt_ts(ls, p9, key_due()) == Option::Some((h.due, ls.len() as int))
        }),
{
    let ls = header_lines(h);
    let s1 = opt_list_lines(key_tags(), h.tags);
    let s2 = opt_scalar_lines(key_project(), h.project);
    let s3 = opt_scalar_lines(key_priority(), h.priority);
    let s4 = opt_scalar_lines(key_delegated(), h.delegatedto);
    let s5 = opt_subtask_lines(h.subtasks);
    let s6 = opt_list_lines(key_dependencies(), h.dependencies);
    let s8 = opt_ts_lines(key_resolved(), h.resolved);
    let p7 = 1 + s1.len() as int + s2.len() + s3.len() + s4.len() + s5.len() + s6.len();
    let p8 = p7 + 1;
    let p9 = p8 + s8.len();
    lemma_header_head_facts(h);
    lemma_parse_ts_roundtrip(h.created);
    assert(parse_req_ts(ls, p7, key_created()) == Option::Some((h.created, p8)));
    if h.resolved is Some {
        lemma_parse_ts_roundtrip(h.resolved->0);
    }
    assert(parse_opt_ts(ls, p8, key_resolved()) == Option::Some((h.resolved, p9)));
    if h.due is Some {
        lemma_parse_ts_roundtrip(h.due->0);
    }
    assert(parse_opt_ts(ls, p9, key_due()) == Option::Some((h.due, ls.len() as int)));
}

#[verifier::rlimit(100)]
pub proof fn lemma_ts_text_clean(ts: Timestamp)
    requires
        ts_valid(ts),
    ensures
        ts_text(ts).len() == 20,
        no_newline(ts_text(ts)),
{
    lemma_ts_text_chars(ts);
    let v = ts_text(ts);
    assert(digit_of(ts.year as int / 1000) != '\n');
    assert(digit_of((ts.year as int / 100) % 10) != '\n');
    assert(digit_of((ts.year as int / 10) % 10) != '\n');
    assert(digit_of(ts.year as int % 10) != '\n');
    assert(digit_of(ts.month as int / 10) != '\n');
    assert(digit_of(ts.month as int % 10) != '\n');
    assert(digit_of(ts.day as int / 10) != '\n');
    assert(digit_of(ts.day as int % 10) != '\n');
    assert(digit_of(ts.hour as int / 10) != '\n');
    assert(digit_of(ts.hour as int % 10) != '\n');
    assert(digit_of(ts.minute as int / 10) != '\n');
    assert(digit_of(ts.minute as int % 10) != '\n');
    assert(digit_of(ts.second as int / 10) != '\n');
    assert(digit_of(ts.second as int % 10) != '\n');
    assert forall|i: int| 0 <= i < v.len() implies v[i] != '\n' by {}
}

/// Every line a well-formed header renders is newline-free and cannot be a
/// delimiter line: it never carries `-` in both of its first two positions.
#[verifier::rlimit(100)]
pub proof fn lemma_header_lines_shape(h: HeaderV)
    requires
        header_wf(h),
    ensures
        forall|i: int|
            0 <= i < header_lines(h).len() ==> no_newline(#[trigger] header_lines(h)[i])
                && header_lines(h)[i].len() >= 2 && !(header_lines(h)[i][0] == '-'
                && header_lines(h)[i][1] == '-'),
{
    reveal_strlit("summary: ");
    reveal_strlit("tags:");
    reveal_strlit("project: ");
    reveal_strlit("priority: ");
    reveal_strlit("delegatedto: ");
    reveal_strlit("subtasks:");
    reveal_strlit("dependencies:");
    reveal_strlit("created: ");
    reveal_strlit("resolved: ");
    reveal_strlit("due: ");
    reveal_strlit("- ");
    reveal_strlit("- text: ");
    reveal_strlit("  done: true");
    reveal_strlit("  done: false");
    let hl = header_lines(h);
    let s1 = opt_list_lines(key_tags(), h.tags);
    let s2 = opt_scalar_lines(key_project(), h.project);
    let s3 = opt_scalar_lines(key_priority(), h.priority);
    let s4 = opt_scalar_lines(key_delegated(), h.delegatedto);
    let s5 = opt_subtask_lines(h.subtasks);
    let s6 = opt_list_lines(key_dependencies(), h.dependencies);
    let s8 = opt_ts_lines(key_resolved(), h.resolved);
    let p2 = 1 + s1.len() as int;
    let p3 = p2 + s2.len();
    let p4 = p3 + s3.len();
    let p5 = p4 + s4.len();
    let p6 = p5 + s5.len();
    let p7 = p6 + s6.len();
    let p8 = p7 + 1;
    let p9 = p8 + s8.len();
    lemma_header_lines_layout(h);
    lemma_subtask_lines_index(h.subtasks);
    lemma_ts_text_clean(h.created);
    if h.resolved is Some {
        lemma_ts_text_clean(h.resolved->0);
    }
    if h.due is Some {
        lemma_ts_text_clean(h.due->0);
    }
    assert forall|i: int|
        0 <= i < hl.len() implies no_newline(#[trigger] hl[i]) && hl[i].len() >= 2 && !(hl[i][0]
        == '-' && hl[i][1] == '-') by {
        if i == 0 {
            assert(hl[0] == key_summary() + h.summary);
        } else if i < p2 {
            assert(hl[i] == s1[i - 1]);
            assert(s1 == seq![key_tags()] + item_lines(h.tags));
            if i - 1 == 0 {
                assert(hl[i] == key_tags());
            } else {
                assert(s1[i - 1] == item_lines(h.tags)[i - 2]);
                assert(hl[i] == item_prefix() + h.tags[i - 2]);
            }
        } else if i < p3 {
            assert(hl[i] == s2[i - p2]);
            assert(hl[i] == key_project() + h.project);
        } else if i < p4 {
            assert(hl[i] == s3[i - p3]);
            assert(hl[i] == key_priority() + h.priority);
        } else if i < p5 {
            assert(hl[i] == s4[i - p4]);
            assert(hl[i] == key_delegated() + h.delegatedto);
        } else if i < p6 {
            assert(hl[i] == s5[i - p5]);
            assert(s5 == seq![key_subtasks()] + subtask_lines(h.subtasks));
            if i - p5 == 0 {
                assert(hl[i] == key_subtasks());
            } else {
                let k = i - p5 - 1;
                let j = k / 2;
                assert(0 <= j < h.subtasks.len());
                if k % 2 == 0 {
                    assert(k == 2 * j);
                    assert(hl[i] == subtask_text_prefix() + h.subtasks[j].text);
                } else {
                    assert(k == 2 * j + 1);
                    assert(hl[i] == done_line(h.subtasks[j].done));
                }
            }
        } else if i < p7 {
            assert(hl[i] == s6[i - p6]);
            assert(s6 == seq![key_dependencies()] + item_lines(h.dependencies));
            if i - p6 == 0 {
                assert(hl[i] == key_dependencies());
            } else {
                assert(s6[i - p6] == item_lines(h.dependencies)[i - p6 - 1]);
                assert(hl[i] == item_prefix() + h.dependencies[i - p6 - 1]);
            }
        } else if i == p7 {
            assert(hl[i] == key_created() + ts_text(h.created));
        } else if i < p9 {
            assert(hl[i] == s8[i - p8]);
            assert(hl[i] == key_resolved() + ts_text(h.resolved->0));
        } else {
            assert(hl[i] == opt_ts_lines(key_due(), h.due)[i - p9]);
            assert(hl[i] == key_due() + ts_text(h.due->0));
        }
    }
}

/// Rendering a well-formed header record and parsing the lines back yields
/// the same record: every persistable field survives the trip, and an omitted
/// key comes back as the empty value it stood for.
#[verifier::rlimit(100)]
pub proof fn lemma_parse_header_roundtrip(h: HeaderV)
    requires
        header_wf(h),
    ensures
        parse_header(header_lines(h)) == Option::Some(h),
{
    let ls = header_lines(h);
    lemma_parse_steps_front(h);
    lemma_parse_steps_mid(h);
    lemma_parse_steps_ts(h);
    let r = parse_header(ls);
    assert(r is Some);
    assert(r->0 =~= h);
}

/// The header record in executable form: the persistable fields of a task,
/// with an empty string or sequence standing for an absent key.
pub struct Frontmatter {
    pub summary: String,
    pub tags: Vec<String>,
    pub project: String,
    pub priority: String,
    pub delegatedto: String,
    pub subtasks: Vec<SubTask>,
    pub dependencies: Vec<String>,
    pub created: Timestamp,
    pub resolved: Option<Timestamp>,
    pub due: Option<Timestamp>,
}

impl Frontmatter {
    pub open spec fn vw(&self) -> HeaderV {
        HeaderV {
            summary: self.summary@,
            tags: self.tags.deep_view(),
            project: self.project@,
            priority: self.priority@,
            delegatedto: self.delegatedto@,
            subtasks: self.subtasks@.map_values(|st: SubTask| sub_view(st)),
            dependencies: self.dependencies.deep_view(),
            created: self.created,
            resolved: self.resolved,
            due: self.due,
        }
    }
}

fn digit_val_exec(c: char) -> (r: i32)
    ensures
        r as int == digit_val(c),
{
    if c == '0' {
        0
    } else if c == '1' {
        1
    } else if c == '2' {
        2
    } else if c == '3' {
        3
    } else if c == '4' {
        4
    } else if c == '5' {
        5
    } else if c == '6' {
        6
    } else if c == '7' {
        7
    } else if c == '8' {
        8
    } else if c == '9' {
        9
    } else {
        -1
    }
}

/// Parses a timestamp value, as [`parse_ts`] describes.
pub fn parse_ts_exec(v: &str) -> (r: Option<Timestamp>)
    ensures
        r == parse_ts(v@),
{
    let n = v.unicode_len();
    if n != 20 {
        return None;
    }
    let d0 = digit_val_exec(v.get_char(0));
    let d1 = digit_val_exec(v.get_char(1));
    let d2 = digit_val_exec(v.get_char(2));
    let d3 = digit_val_exec(v.get_char(3));
    let d5 = digit_val_exec(v.get_char(5));
    let d6 = digit_val_exec(v.get_char(6));
    let d8 = digit_val_exec(v.get_char(8));
    let d9 = digit_val_exec(v.get_char(9));
    let d11 = digit_val_exec(v.get_char(11));
    let d12 = digit_val_exec(v.get_char(12));
    let d14 = digit_val_exec(v.get_char(14));
    let d15 = digit_val_exec(v.get_char(15));
    let d17 = digit_val_exec(v.get_char(17));
    let d18 = digit_val_exec(v.get_char(18));
    if d0 < 0 || d1 < 0 || d2 < 0 || d3 < 0 || d5 < 0 || d6 < 0 || d8 < 0 || d9 < 0 || d11 < 0
        || d12 < 0 || d14 < 0 || d15 < 0 || d17 < 0 || d18 < 0 {
        return None;
    }
    if v.get_char(4) != '-' || v.get_char(7) != '-' || v.get_char(10) != 'T' || v.get_char(13)
        != ':' || v.get_char(16) != ':' || v.get_char(19) != 'Z' {
        return None;
    }
    let ts = Timestamp {
        year: (d0 * 1000 + d1 * 100 + d2 * 10 + d3) as u32,
        month: (d5 * 10 + d6) as u32,
        day: (d8 * 10 + d9) as u32,
        hour: (d11 * 10 + d12) as u32,
        minute: (d14 * 10 + d15) as u32,
        second: (d17 * 10 + d18) as u32,
    };
    if 1 <= ts.month && ts.month <= 12 && 1 <= ts.day && ts.day <= 31 && ts.hour <= 23 && ts.minute
        <= 59 && ts.second <= 59 {
        Some(ts)
    } else {
        None
    }
}

/// Collects consecutive `- ` item lines, as [`collect_items`] describes.
fn collect_items_exec(ls: &Vec<&str>, i: usize) -> (r: (Vec<String>, usize))
    requires
        i <= ls.len(),
    ensures
        i <= r.1 <= ls.len(),
        collect_items(ls.deep_view(), i as int) == (r.0.deep_view(), r.1 as int),
{
    let ghost lv = ls.deep_view();
    let mut acc: Vec<String> = Vec::new();
    let mut k: usize = i;
    proof {
        assert(acc.deep_view() + collect_items(lv, i as int).0 =~= collect_items(lv, i as int).0);
    }
    loop
        invariant_except_break
            i <= k <= ls.len(),
            lv == ls.deep_view(),
            lv.len() == ls.len(),
            collect_items(lv, i as int).0 == acc.deep_view() + collect_items(lv, k as int).0,
            collect_items(lv, i as int).1 == collect_items(lv, k as int).1,
        ensures
            i <= k <= ls.len(),
            lv == ls.deep_view(),
            collect_items(lv, i as int) == (acc.deep_view(), k as int),
        decreases ls.len() - k,
    {
        if k >= ls.len() {
            proof {
                assert(collect_items(lv, k as int) == (Seq::<Seq<char>>::empty(), k as int));
                assert(acc.deep_view() + Seq::<Seq<char>>::empty() =~= acc.deep_view());
            }
            break;
        }
        let line = ls[k];
        if !crate::lines::str_starts_with(line, "- ") {
            proof {
                assert(lv[k as int] == line@);
                assert(collect_items(lv, k as int) == (Seq::<Seq<char>>::empty(), k as int));
                assert(acc.deep_view() + Seq::<Seq<char>>::empty() =~= acc.deep_view());
            }
            break;
        }
        proof {
            reveal_strlit("- ");
            assert(item_prefix().len() == 2);
            assert(lv[k as int] == line@);
        }
        let item = crate::lines::str_suffix_from(line, 2);
        let ghost pre = acc.deep_view();
        acc.push(item.to_owned());
        proof {
            assert(acc.deep_view() =~= pre.push(item@));
            assert(pre.push(item@) + collect_items(lv, k + 1).0 =~= pre + (seq![item@]
                + collect_items(lv, k + 1).0));
            assert(collect_items(lv, k as int).0 =~= seq![lv[k as int].skip(2)] + collect_items(
                lv,
                k + 1,
            ).0);
        }
        k = k + 1;
    }
    (acc, k)
}

/// Collects consecutive subtask line pairs, as [`collect_subtasks`] describes.
fn collect_subtasks_exec(ls: &Vec<&str>, i: usize) -> (r: Option<(Vec<SubTask>, usize)>)
    requires
        i <= ls.len(),
    ensures
        match r {
            Option::Some(p) => {
                &&& i <= p.1 <= ls.len()
                &&& collect_subtasks(ls.deep_view(), i as int) == Option::Some(
                    (p.0@.map_values(|st: SubTask| sub_view(st)), p.1 as int),
                )
            },
            Option::None => collect_subtasks(ls.deep_view(), i as int) is None,
        },
{
    let ghost lv = ls.deep_view();
    let mut acc: Vec<SubTask> = Vec::new();
    let mut k: usize = i;
    proof {
        assert(acc@.map_values(|st: SubTask| sub_view(st)) =~= Seq::<SubV>::empty());
    }
    loop
        invariant_except_break
            i <= k <= ls.len(),
            lv == ls.deep_view(),
            lv.len() == ls.len(),
            collect_subtasks(lv, i as int) == match collect_subtasks(lv, k as int) {
                Option::None => Option::None::<(Seq<SubV>, int)>,
                Option::Some(r) => Option::Some(
                    (acc@.map_values(|st: SubTask| sub_view(st)) + r.0, r.1),
                ),
            },
        ensures
            i <= k <= ls.len(),
            collect_subtasks(lv, i as int) == Option::Some(
                (acc@.map_values(|st: SubTask| sub_view(st)), k as int),
            ),
        decreases ls.len() - k,
    {
        let ghost accv = acc@.map_values(|st: SubTask| sub_view(st));
        if k >= ls.len() {
            proof {
                assert(collect_subtasks(lv, k as int) == Option::Some(
                    (Seq::<SubV>::empty(), k as int),
                ));
                assert(accv + Seq::<SubV>::empty() =~= accv);
            }
            break;
        }
        let line = ls[k];
        if !crate::lines::str_starts_with(line, "- text: ") {
            proof {
                assert(lv[k as int] == line@);
                assert(collect_subtasks(lv, k as int) == Option::Some(
                    (Seq::<SubV>::empty(), k as int),
                ));
                assert(accv + Seq::<SubV>::empty() =~= accv);
            }
            break;
        }
        proof {
            assert(lv[k as int] == line@);
        }
        if k + 1 >= ls.len() {
            proof {
                assert(collect_subtasks(lv, k as int) is None);
            }
            return None;
        }
        let done_true = crate::lines::str_eq(ls[k + 1], "  done: true");
        let done_false = crate::lines::str_eq(ls[k + 1], "  done: false");
        proof {
            assert(lv[k + 1] == ls@[k + 1]@);
        }
        if !done_true && !done_false {
            proof {
                assert(collect_subtasks(lv, k as int) is None);
            }
            return None;
        }
        proof {
            reveal_strlit("- text: ");
            assert(subtask_text_prefix().len() == 8);
        }
        let text = crate::lines::str_suffix_from(line, 8);
        let ghost pre = acc@;
        acc.push(SubTask { text: text.to_owned(), done: done_true });
        proof {
            let f = |st: SubTask| sub_view(st);
            let st = SubV { text: lv[k as int].skip(8), done: lv[k + 1] == subtask_done_true() };
            assert(acc@.len() == pre.len() + 1);
            assert(acc@.last().text@ == lv[k as int].skip(8));
            assert(acc@.last().done == (lv[k + 1] == subtask_done_true()));
            assert(forall|j: int| 0 <= j < pre.len() ==> acc@[j] == pre[j]);
            assert(acc@.map_values(f) =~= accv.push(st));
            if collect_subtasks(lv, k + 2) is Some {
                let r2 = collect_subtasks(lv, k + 2)->0;
                assert(collect_subtasks(lv, k as int) == Option::Some(
                    (seq![st] + r2.0, r2.1),
                ));
                assert(accv.push(st) + r2.0 =~= accv + (seq![st] + r2.0));
            }
        }
        k = k + 2;
    }
    Some((acc, k))
}

/// An optional sequence key, as [`parse_opt_list`] describes.
fn parse_opt_list_exec(ls: &Vec<&str>, i: usize, key: &str) -> (r: (Vec<String>, usize))
    requires
        i <= ls.len(),
    ensures
        i <= r.1 <= ls.len(),
        parse_opt_list(ls.deep_view(), i as int, key@) == (r.0.deep_view(), r.1 as int),
{
    if i < ls.len() && crate::lines::str_eq(ls[i], key) {
        proof {
            assert(ls.deep_view()[i as int] == ls@[i as int]@);
        }
        collect_items_exec(ls, i + 1)
    } else {
        let empty: Vec<String> = Vec::new();
        proof {
            if i < ls.len() {
                assert(ls.deep_view()[i as int] == ls@[i as int]@);
            }
            assert(empty.deep_view() =~= Seq::<Seq<char>>::empty());
        }
        (empty, i)
    }
}

/// An optional scalar key, as [`parse_opt_scalar`] describes.
fn parse_opt_scalar_exec(ls: &Vec<&str>, i: usize, key: &str) -> (r: (String, usize))
    requires
        i <= ls.len(),
    ensures
        i <= r.1 <= ls.len(),
        parse_opt_scalar(ls.deep_view(), i as int, key@) == (r.0@, r.1 as int),
{
    if i < ls.len() && crate::lines::str_starts_with(ls[i], key) {
        proof {
            assert(ls.deep_view()[i as int] == ls@[i as int]@);
        }
        let n = key.unicode_len();
        let v = crate::lines::str_suffix_from(ls[i], n);
        (v.to_owned(), i + 1)
    } else {
        proof {
            if i < ls.len() {
                assert(ls.deep_view()[i as int] == ls@[i as int]@);
            }
        }
        (String::new(), i)
    }
}

/// An optional subtasks block, as [`parse_opt_subtasks`] describes.
fn parse_opt_subtasks_exec(ls: &Vec<&str>, i: usize) -> (r: Option<(Vec<SubTask>, usize)>)
    requires
        i <= ls.len(),
    ensures
        match r {
            Option::Some(p) => {
                &&& i <= p.1 <= ls.len()
                &&& parse_opt_subtasks(ls.deep_view(), i as int) == Option::Some(
                    (p.0@.map_values(|st: SubTask| sub_view(st)), p.1 as int),
                )
            },
            Option::None => parse_opt_subtasks(ls.deep_view(), i as int) is None,
        },
{
    if i < ls.len() && crate::lines::str_eq(ls[i], "subtasks:") {
        proof {
            assert(ls.deep_view()[i as int] == ls@[i as int]@);
        }
        collect_subtasks_exec(ls, i + 1)
    } else {
        let empty: Vec<SubTask> = Vec::new();
        proof {
            if i < ls.len() {
                assert(ls.deep_view()[i as int] == ls@[i as int]@);
            }
            assert(empty@.map_values(|st: SubTask| sub_view(st)) =~= Seq::<SubV>::empty());
        }
        Some((empty, i))
    }
}

/// A required timestamp key, as [`parse_req_ts`] describes.
fn parse_req_ts_exec(ls: &Vec<&str>, i: usize, key: &str) -> (r: Option<(Timestamp, usize)>)
    requires
        i <= ls.len(),
    ensures
        match r {
            Option::Some(p) => {
                &&& i < p.1 <= ls.len()
                &&& parse_req_ts(ls.deep_view(), i as int, key@) == Option::Some(
                    (p.0, p.1 as int),
                )
            },
            Option::None => parse_req_ts(ls.deep_view(), i as int, key@) is None,
        },
{
    if i < ls.len() && crate::lines::str_starts_with(ls[i], key) {
        proof {
            assert(ls.deep_view()[i as int] == ls@[i as int]@);
        }
        let n = key.unicode_len();
        let v = crate::lines::str_suffix_from(ls[i], n);
        match parse_ts_exec(v) {
            Option::Some(ts) => Some((ts, i + 1)),
            Option::None => None,
        }
    } else {
        proof {
            if i < ls.len() {
                assert(ls.deep_view()[i as int] == ls@[i as int]@);
            }
        }
        None
    }
}

/// An optional timestamp key, as [`parse_opt_ts`] describes.
fn parse_opt_ts_exec(ls: &Vec<&str>, i: usize, key: &str) -> (r: Option<(Option<Timestamp>, usize)>)
    requires
        i <= ls.len(),
    ensures
        match r {
            Option::Some(p) => {
                &&& i <= p.1 <= ls.len()
                &&& parse_opt_ts(ls.deep_view(), i as int, key@) == Option::Some(
                    (p.0, p.1 as int),
                )
            },
            Option::None => parse_opt_ts(ls.deep_view(), i as int, key@) is None,
        },
{
    if i < ls.len() && crate::lines::str_starts_with(ls[i], key) {
        proof {
            assert(ls.deep_view()[i as int] == ls@[i as int]@);
        }
        let n = key.unicode_len();
        let v = crate::lines::str_suffix_from(ls[i], n);
        match parse_ts_exec(v) {
            Option::Some(ts) => Some((Some(ts), i + 1)),
            Option::None => None,
        }
    } else {
        proof {
            if i < ls.len() {
                assert(ls.deep_view()[i as int] == ls@[i as int]@);
            }
        }
        Some((None, i))
    }
}

/// Parses a full header block, as [`parse_header`] describes.
pub fn parse_header_exec(ls: &Vec<&str>) -> (r: Option<Frontmatter>)
    ensures
        match r {
            Option::Some(f) => parse_header(ls.deep_view()) == Option::Some(f.vw()),
            Option::None => parse_header(ls.deep_view()) is None,
        },
{
    let ghost lv = ls.deep_view();
    if ls.len() == 0 {
        return None;
    }
    if !crate::lines::str_starts_with(ls[0], "summary: ") {
        proof {
            assert(lv[0] == ls@[0]@);
        }
        return None;
    }
    proof {
        assert(lv[0] == ls@[0]@);
        reveal_strlit("summary: ");
        assert(key_summary().len() == 9);
    }
    let summary = crate::lines::str_suffix_from(ls[0], 9).to_owned();
    let (tags, i1) = parse_opt_list_exec(ls, 1, "tags:");
    let (project, i2) = parse_opt_scalar_exec(ls, i1, "project: ");
    let (priority, i3) = parse_opt_scalar_exec(ls, i2, "priority: ");
    let (delegatedto, i4) = parse_opt_scalar_exec(ls, i3, "delegatedto: ");
    let subtasks_r = parse_opt_subtasks_exec(ls, i4);
    match subtasks_r {
        Option::None => None,
        Option::Some((subtasks, i5)) => {
            let (dependencies, i6) = parse_opt_list_exec(ls, i5, "dependencies:");
            match parse_req_ts_exec(ls, i6, "created: ") {
                Option::None => None,
                Option::Some((created, i7)) => {
                    match parse_opt_ts_exec(ls, i7, "resolved: ") {
                        Option::None => None,
                        Option::Some((resolved, i8)) => {
                            match parse_opt_ts_exec(ls, i8, "due: ") {
                                Option::None => None,
                                Option::Some((due, i9)) => {
                                    if i9 == ls.len() {
                                        Some(
                                            Frontmatter {
                                                summary,
                                                tags,
                                                project,
                                                priority,
                                                delegatedto,
                                                subtasks,
                                                dependencies,
                                                created,
                                                resolved,
                                                due,
                                            },
                                        )
                                    } else {
                                        None
                                    }
                                },
                            }
                        },
                    }
                },
            }
        },
    }
}

} // verus!
