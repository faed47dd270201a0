//! Line-level model of text.
//!
//! The persisted task format is line oriented: a `\n` character ends a line,
//! and a final line may be left unterminated. [`lines_of`] is the
//! specification of that splitting; [`join_terminated`] and [`join_separated`]
//! are the two ways lines are put back together. The executable helpers here
//! are proved against those specifications.

use vstd::prelude::*;
use vstd::string::StrSliceExecFns;

verus! {

/// True when `s` contains no newline character.
pub open spec fn no_newline(s: Seq<char>) -> bool {
    forall|i: int| 0 <= i < s.len() ==> s[i] != '\n'
}

/// Index of the first newline in `s`, or -1 when there is none.
pub open spec fn find_newline(s: Seq<char>) -> int
    decreases s.len(),
{
    if s.len() == 0 {
        -1
    } else if s[0] == '\n' {
        0
    } else {
        let r = find_newline(s.drop_first());
        if r < 0 {
            -1
        } else {
            r + 1
        }
    }
}

pub proof fn lemma_find_newline(s: Seq<char>)
    ensures
        find_newline(s) == -1 || (0 <= find_newline(s) < s.len()),
        find_newline(s) == -1 ==> no_newline(s),
        find_newline(s) >= 0 ==> s[find_newline(s)] == '\n' && no_newline(s.take(find_newline(s))),
    decreases s.len(),
{
    if s.len() == 0 {
    } else if s[0] == '\n' {
    } else {
        lemma_find_newline(s.drop_first());
        let r = find_newline(s.drop_first());
        if r < 0 {
            assert forall|i: int| 0 <= i < s.len() implies s[i] != '\n' by {
                if i > 0 {
                    assert(s.drop_first()[i - 1] == s[i]);
                }
            }
        } else {
            assert(s.drop_first()[r] == s[r + 1]);
            assert forall|i: int| 0 <= i < r + 1 implies #[trigger] s.take(r + 1)[i] != '\n' by {
                if i > 0 {
                    assert(s.drop_first().take(r)[i - 1] == s[i]);
                }
            }
        }
    }
}

/// The first newline of `s` is exactly at `k` when `s[k]` is a newline and
/// nothing before it is one.
pub proof fn lemma_find_newline_at(s: Seq<char>, k: int)
    requires
        0 <= k < s.len(),
        s[k] == '\n',
        no_newline(s.take(k)),
    ensures
        find_newline(s) == k,
    decreases k,
{
    if k == 0 {
    } else {
        assert(s.take(k)[0] == s[0]);
        assert(s.drop_first()[k - 1] == s[k]);
        assert forall|i: int| 0 <= i < k - 1 implies #[trigger] s.drop_first().take(k - 1)[i]
            != '\n' by {
            assert(s.take(k)[i + 1] == s[i + 1]);
        }
        lemma_find_newline_at(s.drop_first(), k - 1);
    }
}

/// The lines of `s`: `\n` ends a line, and a nonempty tail after the last
/// `\n` forms one final line. So a trailing `\n` yields no empty last line.
pub open spec fn lines_of(s: Seq<char>) -> Seq<Seq<char>>
    decreases s.len(),
{
    if s.len() == 0 {
        Seq::empty()
    } else {
        let i = find_newline(s);
        if 0 <= i < s.len() {
            seq![s.take(i)] + lines_of(s.skip(i + 1))
        } else {
            seq![s]
        }
    }
}

/// Unfolds `lines_of` at a known first newline position.
pub proof fn lemma_lines_unfold(s: Seq<char>, k: int)
    requires
        0 <= k < s.len(),
        s[k] == '\n',
        no_newline(s.take(k)),
    ensures
        lines_of(s) == seq![s.take(k)] + lines_of(s.skip(k + 1)),
{
    lemma_find_newline_at(s, k);
}

/// A nonempty text without newlines is one single line.
pub proof fn lemma_lines_single(s: Seq<char>)
    requires
        s.len() > 0,
        no_newline(s),
    ensures
        lines_of(s) == seq![s],
{
    lemma_find_newline(s);
    if find_newline(s) >= 0 {
        assert(s[find_newline(s)] == '\n');
    }
}

/// Every element of `lines_of(s)` is newline-free.
pub proof fn lemma_lines_no_newline(s: Seq<char>)
    ensures
        forall|i: int| 0 <= i < lines_of(s).len() ==> no_newline(#[trigger] lines_of(s)[i]),
    decreases s.len(),
{
    if s.len() == 0 {
    } else {
        lemma_find_newline(s);
        let i = find_newline(s);
        if 0 <= i < s.len() {
            lemma_lines_no_newline(s.skip(i + 1));
            assert forall|j: int| 0 <= j < lines_of(s).len() implies no_newline(
                #[trigger] lines_of(s)[j],
            ) by {
                if j > 0 {
                    assert(lines_of(s)[j] == lines_of(s.skip(i + 1))[j - 1]);
                }
            }
        }
    }
}

/// Lines joined with a `\n` after each line.
pub open spec fn join_terminated(ls: Seq<Seq<char>>) -> Seq<char>
    decreases ls.len(),
{
    if ls.len() == 0 {
        Seq::empty()
    } else {
        ls.first() + seq!['\n'] + join_terminated(ls.drop_first())
    }
}

/// Lines joined with a `\n` between lines and nothing at the end.
pub open spec fn join_separated(ls: Seq<Seq<char>>) -> Seq<char>
    decreases ls.len(),
{
    if ls.len() == 0 {
        Seq::empty()
    } else if ls.len() == 1 {
        ls.first()
    } else {
        ls.first() + seq!['\n'] + join_separated(ls.drop_first())
    }
}

pub proof fn lemma_join_terminated_append(a: Seq<Seq<char>>, b: Seq<Seq<char>>)
    ensures
        join_terminated(a + b) == join_terminated(a) + join_terminated(b),
    decreases a.len(),
{
    if a.len() == 0 {
        assert(a + b =~= b);
        assert(join_terminated(a) + join_terminated(b) =~= join_terminated(b));
    } else {
        assert((a + b).drop_first() =~= a.drop_first() + b);
        lemma_join_terminated_append(a.drop_first(), b);
        assert((a + b).first() == a.first());
        assert(join_terminated(a + b) =~= join_terminated(a) + join_terminated(b));
    }
}

pub proof fn lemma_join_terminated_single(x: Seq<char>)
    ensures
        join_terminated(seq![x]) == x + seq!['\n'],
{
    assert(seq![x].first() == x);
    assert(seq![x].drop_first() =~= Seq::<Seq<char>>::empty());
    assert(join_terminated(Seq::<Seq<char>>::empty()) == Seq::<char>::empty());
    assert(join_terminated(seq![x]) =~= x + seq!['\n']);
}

pub proof fn lemma_join_terminated_push(a: Seq<Seq<char>>, x: Seq<char>)
    ensures
        join_terminated(a.push(x)) == join_terminated(a) + x + seq!['\n'],
{
    assert(a.push(x) =~= a + seq![x]);
    lemma_join_terminated_append(a, seq![x]);
    lemma_join_terminated_single(x);
    assert(join_terminated(a) + (x + seq!['\n']) =~= join_terminated(a) + x + seq!['\n']);
}

/// On a nonempty line list, the terminated join is the separated join plus a
/// final newline.
pub proof fn lemma_join_terminated_separated(ls: Seq<Seq<char>>)
    requires
        ls.len() > 0,
    ensures
        join_terminated(ls) == join_separated(ls) + seq!['\n'],
    decreases ls.len(),
{
    if ls.len() == 1 {
        assert(ls =~= seq![ls.first()]);
        lemma_join_terminated_single(ls.first());
    } else {
        lemma_join_terminated_separated(ls.drop_first());
        assert(join_terminated(ls) =~= join_separated(ls) + seq!['\n']);
    }
}

/// Splitting newline-free lines that were joined with terminators gives the
/// lines back.
pub proof fn lemma_lines_of_join_terminated(ls: Seq<Seq<char>>)
    requires
        forall|i: int| 0 <= i < ls.len() ==> no_newline(#[trigger] ls[i]),
    ensures
        lines_of(join_terminated(ls)) == ls,
    decreases ls.len(),
{
    if ls.len() == 0 {
    } else {
        let s = join_terminated(ls);
        let l0 = ls.first();
        let k = l0.len() as int;
        let rest = join_terminated(ls.drop_first());
        assert(s =~= l0 + seq!['\n'] + rest);
        assert(s.take(k) =~= l0);
        assert(s[k] == '\n');
        assert(s.skip(k + 1) =~= rest);
        lemma_lines_unfold(s, k);
        assert(forall|i: int|
            0 <= i < ls.drop_first().len() ==> no_newline(#[trigger] ls.drop_first()[i]));
        lemma_lines_of_join_terminated(ls.drop_first());
        assert(lines_of(s) =~= ls);
    }
}

/// A text ending in a newline is the terminated join of its lines.
pub proof fn lemma_join_lines_terminated(t: Seq<char>)
    requires
        t.len() > 0,
        t.last() == '\n',
    ensures
        join_terminated(lines_of(t)) == t,
    decreases t.len(),
{
    lemma_find_newline(t);
    let i = find_newline(t);
    assert(i >= 0) by {
        if i == -1 {
            assert(t[t.len() - 1] == '\n');
        }
    }
    let rest = t.skip(i + 1);
    if rest.len() == 0 {
        assert(i == t.len() - 1);
        assert(lines_of(t) =~= seq![t.take(i)]);
        lemma_join_terminated_single(t.take(i));
        assert(t.take(i) + seq!['\n'] =~= t);
    } else {
        assert(rest.last() == t.last());
        lemma_join_lines_terminated(rest);
        assert(lines_of(t) == seq![t.take(i)] + lines_of(rest));
        lemma_join_terminated_append(seq![t.take(i)], lines_of(rest));
        lemma_join_terminated_single(t.take(i));
        assert(t.take(i) + seq!['\n'] + rest =~= t);
        assert(join_terminated(lines_of(t)) =~= t);
    }
}

pub proof fn lemma_join_separated_push(a: Seq<Seq<char>>, x: Seq<char>)
    ensures
        a.len() == 0 ==> join_separated(a.push(x)) == x,
        a.len() > 0 ==> join_separated(a.push(x)) == join_separated(a) + seq!['\n'] + x,
    decreases a.len(),
{
    if a.len() == 0 {
        assert(a.push(x).first() == x);
    } else {
        lemma_join_separated_push(a.drop_first(), x);
        assert(a.push(x).drop_first() =~= a.drop_first().push(x));
        assert(a.push(x).first() == a.first());
        if a.len() == 1 {
            assert(join_separated(a.push(x)) =~= join_separated(a) + seq!['\n'] + x);
        } else {
            assert(join_separated(a.push(x)) =~= join_separated(a) + seq!['\n'] + x);
        }
    }
}

/// `s` without its leading newline characters.
pub open spec fn trim_leading_newlines(s: Seq<char>) -> Seq<char>
    decreases s.len(),
{
    if s.len() > 0 && s[0] == '\n' {
        trim_leading_newlines(s.drop_first())
    } else {
        s
    }
}

/// Trimming skips exactly the leading run of newlines.
pub proof fn lemma_trim_skips_newlines(s: Seq<char>, k: int)
    requires
        0 <= k <= s.len(),
        forall|i: int| 0 <= i < k ==> s[i] == '\n',
        k == s.len() || s[k] != '\n',
    ensures
        trim_leading_newlines(s) == s.skip(k),
    decreases k,
{
    if k == 0 {
        assert(s.skip(0) =~= s);
    } else {
        assert(s[0] == '\n');
        let t = s.drop_first();
        assert forall|i: int| 0 <= i < k - 1 implies t[i] == '\n' by {
            assert(t[i] == s[i + 1]);
        }
        assert(k - 1 == t.len() || t[k - 1] != '\n');
        lemma_trim_skips_newlines(t, k - 1);
        assert(t.skip(k - 1) =~= s.skip(k));
    }
}

/// Splits `s` into lines as [`lines_of`] describes.
pub fn split_lines<'a>(s: &'a str) -> (r: Vec<&'a str>)
    ensures
        r.deep_view() == lines_of(s@),
{
    let n = s.unicode_len();
    let mut r: Vec<&'a str> = Vec::new();
    let mut start: usize = 0;
    let mut i: usize = 0;
    proof {
        assert(s@.skip(0) =~= s@);
        assert(r.deep_view() + lines_of(s@) =~= lines_of(s@));
    }
    while i < n
        invariant
            start <= i <= n,
            n == s@.len(),
            no_newline(s@.subrange(start as int, i as int)),
            lines_of(s@) == r.deep_view() + lines_of(s@.skip(start as int)),
        decreases n - i,
    {
        let c = s.get_char(i);
        if c == '\n' {
            let line = s.substring_char(start, i);
            let ghost pre = r.deep_view();
            r.push(line);
            proof {
                let t = s@.skip(start as int);
                assert(t[(i - start) as int] == s@[i as int]);
                assert(t.take((i - start) as int) =~= s@.subrange(start as int, i as int));
                lemma_lines_unfold(t, (i - start) as int);
                assert(t.skip((i - start) as int + 1) =~= s@.skip(i + 1));
                assert(line@ == t.take((i - start) as int));
                assert(r.deep_view() =~= pre.push(line@));
                assert(pre.push(line@) + lines_of(s@.skip(i + 1)) =~= pre + (seq![line@]
                    + lines_of(s@.skip(i + 1))));
            }
            start = i + 1;
            proof {
                assert(s@.subrange(start as int, (i + 1) as int) =~= Seq::<char>::empty());
            }
        } else {
            proof {
                assert(s@.subrange(start as int, (i + 1) as int) =~= s@.subrange(
                    start as int,
                    i as int,
                ).push(s@[i as int]));
            }
        }
        i = i + 1;
    }
    if start < n {
        let line = s.substring_char(start, n);
        let ghost pre = r.deep_view();
        r.push(line);
        proof {
            let t = s@.skip(start as int);
            assert(t =~= s@.subrange(start as int, n as int));
            lemma_lines_single(t);
            assert(r.deep_view() =~= pre.push(line@));
            assert(pre.push(line@) =~= pre + seq![line@]);
        }
    }
    proof {
        if start == n {
            assert(s@.skip(start as int) =~= Seq::<char>::empty());
        }
        assert(r.deep_view() =~= lines_of(s@));
    }
    r
}

/// Character-wise string equality.
pub fn str_eq(a: &str, b: &str) -> (r: bool)
    ensures
        r == (a@ == b@),
{
    let na = a.unicode_len();
    let nb = b.unicode_len();
    if na != nb {
        return false;
    }
    let mut i: usize = 0;
    while i < na
        invariant
            i <= na,
            na == a@.len(),
            na == b@.len(),
            forall|j: int| 0 <= j < i ==> a@[j] == b@[j],
        decreases na - i,
    {
        if a.get_char(i) != b.get_char(i) {
            return false;
        }
        i = i + 1;
    }
    proof {
        assert(a@ =~= b@);
    }
    true
}

/// Whether `p` is a prefix of `a`, character-wise.
pub fn str_starts_with(a: &str, p: &str) -> (r: bool)
    ensures
        r == (a@.len() >= p@.len() && a@.take(p@.len() as int) == p@),
{
    let na = a.unicode_len();
    let np = p.unicode_len();
    if na < np {
        return false;
    }
    let mut i: usize = 0;
    while i < np
        invariant
            i <= np <= na,
            na == a@.len(),
            np == p@.len(),
            forall|j: int| 0 <= j < i ==> a@[j] == p@[j],
        decreases np - i,
    {
        if a.get_char(i) != p.get_char(i) {
            proof {
                assert(a@.take(np as int)[i as int] == a@[i as int]);
            }
            return false;
        }
        i = i + 1;
    }
    proof {
        assert(a@.take(np as int) =~= p@);
    }
    true
}

/// The characters of `a` from position `n` on.
pub fn str_suffix_from<'a>(a: &'a str, n: usize) -> (r: &'a str)
    requires
        n <= a@.len(),
    ensures
        r@ == a@.skip(n as int),
{
    let len = a.unicode_len();
    let r = a.substring_char(n, len);
    proof {
        assert(r@ =~= a@.skip(n as int));
    }
    r
}

/// Joins `lines[from..]` with newline separators.
pub fn join_lines_from(lines: &Vec<&str>, from: usize) -> (r: String)
    requires
        from <= lines.len(),
    ensures
        r@ == join_separated(lines.deep_view().skip(from as int)),
{
    let ghost tail = lines.deep_view().skip(from as int);
    let mut r = String::new();
    let mut i: usize = from;
    while i < lines.len()
        invariant
            from <= i <= lines.len(),
            tail == lines.deep_view().skip(from as int),
            tail.len() == lines.len() - from,
            forall|j: int| 0 <= j < tail.len() ==> tail[j] == lines.deep_view()[from + j],
            r@ == join_separated(tail.take(i - from)),
        decreases lines.len() - i,
    {
        if i > from {
            r.append("\n");
            proof {
                reveal_strlit("\n");
            }
        }
        r.append(lines[i]);
        proof {
            let k = (i - from) as int;
            assert(tail.take(k + 1) =~= tail.take(k).push(tail[k]));
            lemma_join_separated_push(tail.take(k), tail[k]);
            assert(lines.deep_view()[i as int] == lines@[i as int]@);
            if i > from {
                assert(r@ =~= join_separated(tail.take(k)) + seq!['\n'] + tail[k]);
            }
        }
        i = i + 1;
    }
    proof {
        assert(tail.take(tail.len() as int) =~= tail);
    }
    r
}

/// `s` without its leading run of newline characters.
pub fn trim_start_newlines<'a>(s: &'a str) -> (r: &'a str)
    ensures
        r@ == trim_leading_newlines(s@),
{
    let n = s.unicode_len();
    let mut k: usize = 0;
    loop
        invariant_except_break
            k <= n,
            n == s@.len(),
            forall|i: int| 0 <= i < k ==> s@[i] == '\n',
        ensures
            k <= n,
            n == s@.len(),
            forall|i: int| 0 <= i < k ==> s@[i] == '\n',
            k == n || s@[k as int] != '\n',
        decreases n - k,
    {
        if k >= n {
            break;
        }
        if s.get_char(k) != '\n' {
            break;
        }
        k = k + 1;
    }
    proof {
        lemma_trim_skips_newlines(s@, k as int);
    }
    str_suffix_from(s, k)
}

/// Whether `s` contains a newline character.
pub fn contains_newline(s: &str) -> (r: bool)
    ensures
        r == !no_newline(s@),
{
    let n = s.unicode_len();
    let mut i: usize = 0;
    while i < n
        invariant
            i <= n,
            n == s@.len(),
            forall|j: int| 0 <= j < i ==> s@[j] != '\n',
        decreases n - i,
    {
        if s.get_char(i) == '\n' {
            return true;
        }
        i = i + 1;
    }
    false
}

/// Whether `s` ends with a newline character.
pub fn ends_with_newline(s: &str) -> (r: bool)
    ensures
        r == (s@.len() > 0 && s@.last() == '\n'),
{
    let n = s.unicode_len();
    if n == 0 {
        false
    } else {
        s.get_char(n - 1) == '\n'
    }
}

} // verus!
