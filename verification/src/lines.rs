//! Line breaks around marks: putting a mark on a line of its own without
//! giving it a second line break where it has one.

use crate::text::{chars_of, occurs_at, occurs_in, stands_at, starts_with};
use vstd::prelude::*;

verus! {

/// `s` with a line break put after every `mark` that something other than a
/// line break follows. Marks are found from the left and do not overlap. An
/// empty mark occurs nowhere.
pub open spec fn broken_after(s: Seq<char>, mark: Seq<char>) -> Seq<char>
    decreases s.len(),
{
    if s.len() == 0 {
        s
    } else if mark.len() > 0 && starts_with(s, mark) {
        let rest = s.skip(mark.len() as int);
        if rest.len() > 0 && rest[0] != '\n' {
            mark + seq!['\n'] + broken_after(rest, mark)
        } else {
            mark + broken_after(rest, mark)
        }
    } else {
        seq![s[0]] + broken_after(s.skip(1), mark)
    }
}

/// `s` with a line break put before every `mark` that something other than a
/// line break precedes. `fresh` says that nothing, or a line break, stands
/// before `s`. Marks are found from the left and do not overlap. An empty
/// mark occurs nowhere.
pub open spec fn broken_before(s: Seq<char>, mark: Seq<char>, fresh: bool) -> Seq<char>
    decreases s.len(),
{
    if s.len() == 0 {
        s
    } else if mark.len() > 0 && starts_with(s, mark) {
        let rest = broken_before(s.skip(mark.len() as int), mark, mark.last() == '\n');
        if fresh {
            mark + rest
        } else {
            seq!['\n'] + mark + rest
        }
    } else {
        seq![s[0]] + broken_before(s.skip(1), mark, s[0] == '\n')
    }
}

/// `text` with a line break put after every `mark` that something other than
/// a line break follows.
pub fn break_after(text: &str, mark: &str) -> (out: String)
    ensures
        out@ == broken_after(text@, mark@),
{
    let t = chars_of(text);
    let m = chars_of(mark);
    let mut out = String::new();
    let mut kept: usize = 0;
    let mut i: usize = 0;
    proof {
        reveal_strlit("\n");
        assert(text@.skip(0) == text@);
        assert(text@.subrange(0, 0) == Seq::<char>::empty());
    }
    while i < t.len()
        invariant
            kept <= i <= t.len(),
            t@ == text@,
            m@ == mark@,
            "\n"@ == seq!['\n'],
            out@ + text@.subrange(kept as int, i as int) + broken_after(text@.skip(i as int), mark@)
                == broken_after(text@, mark@),
        decreases t.len() - i,
    {
        let ghost rest = text@.skip(i as int);
        if m.len() > 0 && stands_at(&t, i, &m) {
            out.append(text.substring_char(kept, i));
            out.append(mark);
            let next: usize = i + m.len();
            proof {
                assert(rest.skip(mark@.len() as int) == text@.skip(next as int));
                assert(text@.subrange(next as int, next as int) == Seq::<char>::empty());
            }
            if next < t.len() && t[next] != '\n' {
                out.append("\n");
            }
            i = next;
            kept = next;
        } else {
            proof {
                assert(rest.skip(1) == text@.skip(i + 1));
                assert(text@.subrange(kept as int, i + 1) == text@.subrange(
                    kept as int,
                    i as int,
                ).push(text@[i as int]));
            }
            i += 1;
        }
    }
    out.append(text.substring_char(kept, i));
    proof {
        assert(text@.skip(i as int) == Seq::<char>::empty());
    }
    out
}

/// `text` with a line break put before every `mark` that something other
/// than a line break precedes.
pub fn break_before(text: &str, mark: &str) -> (out: String)
    ensures
        out@ == broken_before(text@, mark@, true),
{
    let t = chars_of(text);
    let m = chars_of(mark);
    let mut out = String::new();
    let mut kept: usize = 0;
    let mut i: usize = 0;
    proof {
        reveal_strlit("\n");
        assert(text@.skip(0) == text@);
        assert(text@.subrange(0, 0) == Seq::<char>::empty());
    }
    while i < t.len()
        invariant
            kept <= i <= t.len(),
            t@ == text@,
            m@ == mark@,
            "\n"@ == seq!['\n'],
            out@ + text@.subrange(kept as int, i as int) + broken_before(
                text@.skip(i as int),
                mark@,
                i == 0 || text@[i - 1] == '\n',
            ) == broken_before(text@, mark@, true),
        decreases t.len() - i,
    {
        let ghost rest = text@.skip(i as int);
        if m.len() > 0 && stands_at(&t, i, &m) {
            out.append(text.substring_char(kept, i));
            if i > 0 && t[i - 1] != '\n' {
                out.append("\n");
            }
            out.append(mark);
            let next: usize = i + m.len();
            proof {
                assert(rest.skip(mark@.len() as int) == text@.skip(next as int));
                assert(text@.subrange(next as int, next as int) == Seq::<char>::empty());
                assert(mark@.last() == rest.take(mark@.len() as int).last());
                assert(mark@.last() == text@[next - 1]);
            }
            i = next;
            kept = next;
        } else {
            proof {
                assert(rest.skip(1) == text@.skip(i + 1));
                assert(text@.subrange(kept as int, i + 1) == text@.subrange(
                    kept as int,
                    i as int,
                ).push(text@[i as int]));
            }
            i += 1;
        }
    }
    out.append(text.substring_char(kept, i));
    proof {
        assert(text@.skip(i as int) == Seq::<char>::empty());
    }
    out
}

/// A mark that can be set on a line of its own: it is not empty and holds
/// no line break.
pub open spec fn unbroken(mark: Seq<char>) -> bool {
    &&& mark.len() > 0
    &&& forall|k: int| 0 <= k < mark.len() ==> mark[k] != '\n'
}

/// The occurrence of `mark` at `i` has a line break, or the end of `s`,
/// behind it.
pub open spec fn ends_line(s: Seq<char>, mark: Seq<char>, i: int) -> bool {
    i + mark.len() == s.len() || s[i + mark.len()] == '\n'
}

/// Every occurrence of `mark` in `s` has a line break, or the end of `s`,
/// behind it.
pub open spec fn followed(s: Seq<char>, mark: Seq<char>) -> bool {
    forall|i: int| #[trigger] occurs_at(s, mark, i) ==> ends_line(s, mark, i)
}

/// Every occurrence of `mark` in `s` has a line break before it; one at the
/// very beginning has `fresh` in its place.
pub open spec fn preceded(s: Seq<char>, mark: Seq<char>, fresh: bool) -> bool {
    forall|i: int| #[trigger]
        occurs_at(s, mark, i) ==> if i == 0 {
            fresh
        } else {
            s[i - 1] == '\n'
        }
}

/// An occurrence in a text is an occurrence in every text that ends with it.
pub proof fn lemma_occurs_behind(w: Seq<char>, s: Seq<char>, pat: Seq<char>, i: int)
    requires
        occurs_at(s, pat, i),
    ensures
        occurs_at(w + s, pat, w.len() + i),
{
    assert((w + s).skip(w.len() + i) == s.skip(i));
}

/// Where every mark of a text has its line break behind it, every mark of
/// what is left after some characters has.
pub proof fn lemma_followed_rest(s: Seq<char>, mark: Seq<char>, step: int)
    requires
        followed(s, mark),
        0 <= step <= s.len(),
    ensures
        followed(s.skip(step), mark),
{
    let rest = s.skip(step);
    assert forall|i: int| #[trigger] occurs_at(rest, mark, i) implies ends_line(
        rest,
        mark,
        i,
    ) by {
        assert(rest.skip(i) == s.skip(step + i));
        assert(occurs_at(s, mark, step + i));
    }
}

/// Where every mark has its line break behind it, none is added.
pub proof fn lemma_broken_after_fixed(s: Seq<char>, mark: Seq<char>)
    requires
        followed(s, mark),
    ensures
        broken_after(s, mark) == s,
    decreases s.len(),
{
    if s.len() == 0 {
    } else if mark.len() > 0 && starts_with(s, mark) {
        let rest = s.skip(mark.len() as int);
        lemma_followed_rest(s, mark, mark.len() as int);
        lemma_broken_after_fixed(rest, mark);
        assert(s.skip(0) == s);
        assert(occurs_at(s, mark, 0));
        assert(ends_line(s, mark, 0));
        assert(broken_after(s, mark) == mark + rest);
        assert(mark + rest =~= s);
    } else {
        let rest = s.skip(1);
        lemma_followed_rest(s, mark, 1);
        lemma_broken_after_fixed(rest, mark);
        assert(broken_after(s, mark) == seq![s[0]] + rest);
        assert(seq![s[0]] + rest =~= s);
    }
}

/// Where every mark of a text has its line break before it, every mark of
/// what is left after some characters has.
pub proof fn lemma_preceded_rest(s: Seq<char>, mark: Seq<char>, fresh: bool, step: int)
    requires
        preceded(s, mark, fresh),
        0 < step <= s.len(),
    ensures
        preceded(s.skip(step), mark, s[step - 1] == '\n'),
{
    let rest = s.skip(step);
    assert forall|i: int| #[trigger] occurs_at(rest, mark, i) implies if i == 0 {
        s[step - 1] == '\n'
    } else {
        rest[i - 1] == '\n'
    } by {
        assert(rest.skip(i) == s.skip(step + i));
        assert(occurs_at(s, mark, step + i));
    }
}

/// Where every mark has its line break before it, none is added.
pub proof fn lemma_broken_before_fixed(s: Seq<char>, mark: Seq<char>, fresh: bool)
    requires
        preceded(s, mark, fresh),
    ensures
        broken_before(s, mark, fresh) == s,
    decreases s.len(),
{
    if s.len() == 0 {
    } else if mark.len() > 0 && starts_with(s, mark) {
        let m = mark.len() as int;
        let rest = s.skip(m);
        lemma_preceded_rest(s, mark, fresh, m);
        assert(mark.last() == s.take(m)[m - 1]);
        lemma_broken_before_fixed(rest, mark, mark.last() == '\n');
        assert(s.skip(0) == s);
        assert(occurs_at(s, mark, 0));
        assert(broken_before(s, mark, fresh) == mark + rest);
        assert(mark + rest =~= s);
    } else {
        let rest = s.skip(1);
        lemma_preceded_rest(s, mark, fresh, 1);
        lemma_broken_before_fixed(rest, mark, s[0] == '\n');
        assert(broken_before(s, mark, fresh) == seq![s[0]] + rest);
        assert(seq![s[0]] + rest =~= s);
    }
}

/// Line breaks behind marks leave the ends of a text as they are.
pub proof fn lemma_broken_after_edges(s: Seq<char>, mark: Seq<char>)
    requires
        s.len() > 0,
    ensures
        broken_after(s, mark).len() > 0,
        broken_after(s, mark)[0] == s[0],
        broken_after(s, mark).last() == s.last(),
    decreases s.len(),
{
    let found = mark.len() > 0 && starts_with(s, mark);
    let step: int = if found {
        mark.len() as int
    } else {
        1
    };
    let rest = s.skip(step);
    let tail = broken_after(rest, mark);
    if rest.len() > 0 {
        lemma_broken_after_edges(rest, mark);
        assert(rest.last() == s.last());
    } else {
        assert(tail.len() == 0);
    }
    if found {
        assert(mark[0] == s.take(step)[0]);
        assert(mark.last() == s.take(step).last());
        if rest.len() > 0 && rest[0] != '\n' {
            assert(broken_after(s, mark) == mark + seq!['\n'] + tail);
        } else {
            assert(broken_after(s, mark) == mark + tail);
        }
    } else {
        assert(broken_after(s, mark) == seq![s[0]] + tail);
    }
}

/// Line breaks before marks leave the end of a text as it is, and its
/// beginning too where nothing, or a line break, stands before the text.
pub proof fn lemma_broken_before_edges(s: Seq<char>, mark: Seq<char>, fresh: bool)
    requires
        s.len() > 0,
    ensures
        broken_before(s, mark, fresh).len() > 0,
        fresh ==> broken_before(s, mark, fresh)[0] == s[0],
        broken_before(s, mark, fresh).last() == s.last(),
    decreases s.len(),
{
    let found = mark.len() > 0 && starts_with(s, mark);
    let step: int = if found {
        mark.len() as int
    } else {
        1
    };
    let rest = s.skip(step);
    let next = if found {
        mark.last() == '\n'
    } else {
        s[0] == '\n'
    };
    let tail = broken_before(rest, mark, next);
    if rest.len() > 0 {
        lemma_broken_before_edges(rest, mark, next);
        assert(rest.last() == s.last());
    } else {
        assert(tail.len() == 0);
    }
    if found {
        assert(mark[0] == s.take(step)[0]);
        assert(mark.last() == s.take(step).last());
        if fresh {
            assert(broken_before(s, mark, fresh) == mark + tail);
        } else {
            assert(broken_before(s, mark, fresh) == seq!['\n'] + mark + tail);
        }
    } else {
        assert(broken_before(s, mark, fresh) == seq![s[0]] + tail);
    }
}

/// Every occurrence of `mark` in `t` that begins before `n` also ends by `n`,
/// and has a line break, or the end of `t`, behind it.
pub open spec fn settled(t: Seq<char>, mark: Seq<char>, n: int) -> bool {
    forall|i: int| #[trigger]
        occurs_at(t, mark, i) && i < n ==> i + mark.len() <= n && ends_line(t, mark, i)
}

/// Two texts that agree up to `n` have the same occurrences ending by `n`.
pub proof fn lemma_occurs_in_common_part(
    t: Seq<char>,
    u: Seq<char>,
    pat: Seq<char>,
    i: int,
    n: int,
)
    requires
        occurs_at(t, pat, i),
        i + pat.len() <= n <= t.len(),
        n <= u.len(),
        forall|k: int| 0 <= k < n ==> t[k] == u[k],
    ensures
        occurs_at(u, pat, i),
{
    assert(t.skip(i).take(pat.len() as int) =~= u.skip(i).take(pat.len() as int));
}

/// An occurrence of an unbroken mark holds no line break.
pub proof fn lemma_occurrence_holds_no_break(t: Seq<char>, mark: Seq<char>, i: int, at: int)
    requires
        unbroken(mark),
        occurs_at(t, mark, i),
        i <= at < i + mark.len(),
    ensures
        t[at] != '\n',
{
    assert(t.skip(i).take(mark.len() as int)[at - i] == mark[at - i]);
}

/// With the text before `s` settled, putting the line breaks into `s` leaves
/// every mark of the whole with a line break behind it.
pub proof fn lemma_broken_after_settles(w: Seq<char>, s: Seq<char>, mark: Seq<char>)
    requires
        unbroken(mark),
        settled(w + s, mark, w.len() as int),
    ensures
        followed(w + broken_after(s, mark), mark),
    decreases s.len(),
{
    let t = w + s;
    let m = mark.len() as int;
    let n = w.len() as int;
    if s.len() == 0 {
        assert(t == w + broken_after(s, mark));
    } else if starts_with(s, mark) {
        let rest = s.skip(m);
        assert(t.skip(n) == s);
        assert(occurs_at(t, mark, n));
        if rest.len() > 0 && rest[0] != '\n' {
            let before = w + mark + seq!['\n'];
            let next = before + rest;
            assert forall|i: int| #[trigger] occurs_at(next, mark, i) && i < n + m + 1 implies i
                + m <= n + m + 1 && ends_line(next, mark, i) by {
                if i <= n + m < i + m {
                    lemma_occurrence_holds_no_break(next, mark, i, n + m);
                }
                if i < n {
                    assert forall|k: int| 0 <= k < n + m implies next[k] == t[k] by {
                        if k >= n {
                            assert(mark[k - n] == s.take(m)[k - n]);
                        }
                    }
                    lemma_occurs_in_common_part(next, t, mark, i, n + m);
                    assert(i + m <= n);
                    assert(ends_line(t, mark, i));
                }
            }
            lemma_broken_after_settles(before, rest, mark);
            assert(before + broken_after(rest, mark) == w + broken_after(s, mark));
        } else {
            let before = w + mark;
            assert(before + rest == t);
            assert forall|i: int| #[trigger] occurs_at(t, mark, i) && i < n + m implies i + m <= n
                + m && ends_line(t, mark, i) by {
                if n < i {
                    if rest.len() > 0 {
                        lemma_occurrence_holds_no_break(t, mark, i, n + m);
                    }
                }
            }
            lemma_broken_after_settles(before, rest, mark);
            assert(before + broken_after(rest, mark) == w + broken_after(s, mark));
        }
    } else {
        let before = w + seq![s[0]];
        let rest = s.skip(1);
        assert(before + rest == t);
        assert forall|i: int| #[trigger] occurs_at(t, mark, i) && i < n + 1 implies i + m <= n + 1
            && ends_line(t, mark, i) by {
            if i == n {
                assert(t.skip(n) == s);
            }
        }
        lemma_broken_after_settles(before, rest, mark);
        assert(before + broken_after(rest, mark) == w + broken_after(s, mark));
    }
}

/// After the line breaks are put in, every mark has one behind it, or the
/// end of the text.
pub proof fn lemma_broken_after_followed(s: Seq<char>, mark: Seq<char>)
    requires
        unbroken(mark),
    ensures
        followed(broken_after(s, mark), mark),
{
    let w = Seq::<char>::empty();
    assert(w + s == s);
    lemma_broken_after_settles(w, s, mark);
    assert(w + broken_after(s, mark) == broken_after(s, mark));
}

/// A property of texts that a line break more, anywhere, does not take away.
pub open spec fn stable(holds: spec_fn(Seq<char>) -> bool) -> bool {
    forall|a: Seq<char>, b: Seq<char>| holds(a + b) ==> #[trigger] holds(a + seq!['\n'] + b)
}

/// What holds of a text and is stable holds of it with line breaks put
/// behind marks.
pub proof fn lemma_broken_after_keeps(
    holds: spec_fn(Seq<char>) -> bool,
    w: Seq<char>,
    s: Seq<char>,
    mark: Seq<char>,
)
    requires
        stable(holds),
        holds(w + s),
    ensures
        holds(w + broken_after(s, mark)),
    decreases s.len(),
{
    if s.len() == 0 {
    } else if mark.len() > 0 && starts_with(s, mark) {
        let rest = s.skip(mark.len() as int);
        let before = w + mark;
        assert(before + rest == w + s);
        if rest.len() > 0 && rest[0] != '\n' {
            assert(holds(before + seq!['\n'] + rest));
            lemma_broken_after_keeps(holds, before + seq!['\n'], rest, mark);
            assert(before + seq!['\n'] + broken_after(rest, mark) == w + broken_after(s, mark));
        } else {
            lemma_broken_after_keeps(holds, before, rest, mark);
            assert(before + broken_after(rest, mark) == w + broken_after(s, mark));
        }
    } else {
        let before = w + seq![s[0]];
        assert(before + s.skip(1) == w + s);
        lemma_broken_after_keeps(holds, before, s.skip(1), mark);
        assert(before + broken_after(s.skip(1), mark) == w + broken_after(s, mark));
    }
}

/// What holds of a text and is stable holds of it with line breaks put
/// before marks.
pub proof fn lemma_broken_before_keeps(
    holds: spec_fn(Seq<char>) -> bool,
    w: Seq<char>,
    s: Seq<char>,
    mark: Seq<char>,
    fresh: bool,
)
    requires
        stable(holds),
        holds(w + s),
    ensures
        holds(w + broken_before(s, mark, fresh)),
    decreases s.len(),
{
    if s.len() == 0 {
    } else if mark.len() > 0 && starts_with(s, mark) {
        let rest = s.skip(mark.len() as int);
        let next = mark.last() == '\n';
        assert(mark + rest == s);
        if fresh {
            let before = w + mark;
            assert(before + rest == w + s);
            lemma_broken_before_keeps(holds, before, rest, mark, next);
            assert(before + broken_before(rest, mark, next) == w + broken_before(s, mark, fresh));
        } else {
            assert(holds(w + seq!['\n'] + s));
            let before = w + seq!['\n'] + mark;
            assert(before + rest == w + seq!['\n'] + s);
            lemma_broken_before_keeps(holds, before, rest, mark, next);
            assert(before + broken_before(rest, mark, next) == w + broken_before(s, mark, fresh));
        }
    } else {
        let before = w + seq![s[0]];
        assert(before + s.skip(1) == w + s);
        lemma_broken_before_keeps(holds, before, s.skip(1), mark, s[0] == '\n');
        assert(before + broken_before(s.skip(1), mark, s[0] == '\n') == w + broken_before(
            s,
            mark,
            fresh,
        ));
    }
}

/// The property of a text that every `mark` in it has a line break, or the
/// end, behind it.
pub open spec fn all_followed(mark: Seq<char>) -> spec_fn(Seq<char>) -> bool {
    |t: Seq<char>| followed(t, mark)
}

/// The property of a text that `pat` occurs nowhere in it.
pub open spec fn none_of(pat: Seq<char>) -> spec_fn(Seq<char>) -> bool {
    |t: Seq<char>| !occurs_in(t, pat)
}

/// That every mark has a line break behind it is stable.
pub proof fn lemma_followed_is_stable(mark: Seq<char>)
    requires
        unbroken(mark),
    ensures
        stable(all_followed(mark)),
{
    let holds = all_followed(mark);
    assert forall|a: Seq<char>, b: Seq<char>| holds(a + b) implies #[trigger] holds(
        a + seq!['\n'] + b,
    ) by {
        let t = a + b;
        let u = a + seq!['\n'] + b;
        let n = a.len() as int;
        let m = mark.len() as int;
        assert forall|i: int| #[trigger] occurs_at(u, mark, i) implies ends_line(u, mark, i) by {
            if i <= n < i + m {
                lemma_occurrence_holds_no_break(u, mark, i, n);
            } else if i + m <= n {
                lemma_occurs_in_common_part(u, t, mark, i, n);
                assert(ends_line(t, mark, i));
            } else {
                assert(u.skip(i) == t.skip(i - 1));
                assert(occurs_at(t, mark, i - 1));
                assert(ends_line(t, mark, i - 1));
            }
        }
    }
}

/// That a pattern without line break occurs nowhere is stable.
pub proof fn lemma_absent_is_stable(pat: Seq<char>)
    requires
        unbroken(pat),
    ensures
        stable(none_of(pat)),
{
    let holds = none_of(pat);
    assert forall|a: Seq<char>, b: Seq<char>| holds(a + b) implies #[trigger] holds(
        a + seq!['\n'] + b,
    ) by {
        let t = a + b;
        let u = a + seq!['\n'] + b;
        let n = a.len() as int;
        let m = pat.len() as int;
        assert forall|i: int| !occurs_at(u, pat, i) by {
            if occurs_at(u, pat, i) {
                if i <= n < i + m {
                    lemma_occurrence_holds_no_break(u, pat, i, n);
                } else if i + m <= n {
                    lemma_occurs_in_common_part(u, t, pat, i, n);
                } else {
                    assert(u.skip(i) == t.skip(i - 1));
                    assert(occurs_at(t, pat, i - 1));
                }
            }
        }
    }
}

/// A text with its line breaks put before marks begins with the rest of a
/// mark only where the text itself does. `done` is how much of the mark
/// stands before the text already.
pub proof fn lemma_broken_before_begins(s: Seq<char>, mark: Seq<char>, fresh: bool, done: int)
    requires
        unbroken(mark),
        0 <= done <= mark.len(),
        done > 0 ==> !fresh,
        done == 0 ==> !starts_with(s, mark),
        starts_with(broken_before(s, mark, fresh), mark.skip(done)),
    ensures
        starts_with(s, mark.skip(done)),
    decreases s.len(),
{
    let left = mark.skip(done);
    let out = broken_before(s, mark, fresh);
    if left.len() == 0 {
        assert(s.take(0) =~= left);
    } else {
        assert(out.take(left.len() as int)[0] == left[0]);
        assert(left[0] == mark[done]);
        if starts_with(s, mark) {
            assert(out[0] == '\n');
        } else {
            let rest = s.skip(1);
            let tail = broken_before(rest, mark, s[0] == '\n');
            assert(out == seq![s[0]] + tail);
            assert(s[0] == mark[done]);
            assert(tail.take(left.len() - 1) =~= out.take(left.len() as int).skip(1));
            assert(mark.skip(done + 1) =~= left.skip(1));
            lemma_broken_before_begins(rest, mark, false, done + 1);
            assert(s.take(left.len() as int) =~= seq![s[0]] + rest.take(left.len() - 1));
            assert(left =~= seq![left[0]] + left.skip(1));
        }
    }
}

/// Putting line breaks before marks a second time changes nothing.
pub proof fn lemma_broken_before_twice(s: Seq<char>, mark: Seq<char>, fresh: bool)
    requires
        unbroken(mark),
    ensures
        broken_before(broken_before(s, mark, fresh), mark, fresh) == broken_before(
            s,
            mark,
            fresh,
        ),
    decreases s.len(),
{
    let out = broken_before(s, mark, fresh);
    let m = mark.len() as int;
    if s.len() == 0 {
    } else if starts_with(s, mark) {
        let tail = broken_before(s.skip(m), mark, false);
        lemma_broken_before_twice(s.skip(m), mark, false);
        let marked = mark + tail;
        assert(marked.take(m) == mark);
        assert(marked.skip(m) == tail);
        assert(broken_before(marked, mark, true) == marked);
        if !fresh {
            assert(out == seq!['\n'] + marked);
            assert(out.skip(1) == marked);
            assert(out.take(m)[0] != mark[0]);
        }
    } else {
        let tail = broken_before(s.skip(1), mark, s[0] == '\n');
        lemma_broken_before_twice(s.skip(1), mark, s[0] == '\n');
        assert(out == seq![s[0]] + tail);
        assert(out.skip(1) == tail);
        if starts_with(out, mark) {
            assert(mark.skip(0) == mark);
            lemma_broken_before_begins(s, mark, fresh, 0);
        }
    }
}

/// Line breaks behind marks leave the first characters of a text as they
/// are: as many as the mark is long.
pub proof fn lemma_broken_after_begins(s: Seq<char>, mark: Seq<char>, n: int)
    requires
        0 <= n <= mark.len(),
        n <= s.len(),
    ensures
        broken_after(s, mark).len() >= n,
        broken_after(s, mark).take(n) == s.take(n),
    decreases n,
{
    let out = broken_after(s, mark);
    if n == 0 {
        assert(out.take(0) =~= s.take(0));
    } else if starts_with(s, mark) {
        assert(out.take(n) =~= mark.take(n));
        assert(s.take(n) =~= s.take(mark.len() as int).take(n));
    } else {
        let rest = s.skip(1);
        lemma_broken_after_begins(rest, mark, n - 1);
        assert(out == seq![s[0]] + broken_after(rest, mark));
        assert(out.take(n) =~= seq![s[0]] + broken_after(rest, mark).take(n - 1));
        assert(s.take(n) =~= seq![s[0]] + rest.take(n - 1));
    }
}

/// Whatever stands at the beginning of a mark and occurs in a text occurs in
/// it after the line breaks are put behind the marks.
pub proof fn lemma_broken_after_keeps_beginning(s: Seq<char>, mark: Seq<char>, pat: Seq<char>)
    requires
        starts_with(mark, pat),
        occurs_in(s, pat),
    ensures
        occurs_in(broken_after(s, mark), pat),
    decreases s.len(),
{
    let out = broken_after(s, mark);
    let at = choose|i: int| occurs_at(s, pat, i);
    if s.len() == 0 {
        assert(s.skip(at) == s);
        assert(occurs_at(out, pat, at));
    } else if mark.len() > 0 && starts_with(s, mark) {
        lemma_broken_after_begins(s, mark, mark.len() as int);
        assert(out.take(pat.len() as int) =~= out.take(mark.len() as int).take(pat.len() as int));
        assert(out.skip(0) == out);
        assert(occurs_at(out, pat, 0));
    } else {
        let rest = s.skip(1);
        let tail = broken_after(rest, mark);
        assert(out == seq![s[0]] + tail);
        if at == 0 {
            assert(s.skip(0) == s);
            lemma_broken_after_begins(s, mark, pat.len() as int);
            assert(out.skip(0) == out);
            assert(occurs_at(out, pat, 0));
        } else {
            assert(s.skip(at) == rest.skip(at - 1));
            assert(occurs_at(rest, pat, at - 1));
            lemma_broken_after_keeps_beginning(rest, mark, pat);
            let there = choose|i: int| occurs_at(tail, pat, i);
            lemma_occurs_behind(seq![s[0]], tail, pat, there);
        }
    }
}

/// No occurrence of `mark` begins inside an occurrence of `pat`, behind its
/// first character.
pub open spec fn apart(pat: Seq<char>, mark: Seq<char>) -> bool {
    forall|t: Seq<char>, i: int, j: int|
        #![trigger occurs_at(t, pat, i), occurs_at(t, mark, j)]
        occurs_at(t, pat, i) && occurs_at(t, mark, j) ==> !(i < j < i + pat.len())
}

/// What occurs in a text occurs in it after the line breaks are put before
/// the marks, where no mark begins inside an occurrence.
pub proof fn lemma_broken_before_keeps_occurrence(
    w: Seq<char>,
    s: Seq<char>,
    mark: Seq<char>,
    fresh: bool,
    pat: Seq<char>,
)
    requires
        apart(pat, mark),
        occurs_in(w + s, pat),
    ensures
        occurs_in(w + broken_before(s, mark, fresh), pat),
    decreases s.len(),
{
    let t = w + s;
    let n = w.len() as int;
    if s.len() == 0 {
    } else if mark.len() > 0 && starts_with(s, mark) {
        let rest = s.skip(mark.len() as int);
        let next = mark.last() == '\n';
        assert(mark + rest == s);
        if fresh {
            let before = w + mark;
            assert(before + rest == t);
            lemma_broken_before_keeps_occurrence(before, rest, mark, next, pat);
            assert(before + broken_before(rest, mark, next) == w + broken_before(s, mark, fresh));
        } else {
            let u = w + seq!['\n'] + s;
            let at = choose|i: int| occurs_at(t, pat, i);
            assert(t.skip(n) == s);
            assert(occurs_at(t, mark, n));
            if at + pat.len() <= n {
                assert(t.skip(at).take(pat.len() as int) =~= u.skip(at).take(pat.len() as int));
                assert(occurs_at(u, pat, at));
            } else {
                assert(at >= n);
                assert(u.skip(at + 1) == t.skip(at));
                assert(occurs_at(u, pat, at + 1));
            }
            let before = w + seq!['\n'] + mark;
            assert(before + rest == u);
            lemma_broken_before_keeps_occurrence(before, rest, mark, next, pat);
            assert(before + broken_before(rest, mark, next) == w + broken_before(s, mark, fresh));
        }
    } else {
        let before = w + seq![s[0]];
        assert(before + s.skip(1) == t);
        lemma_broken_before_keeps_occurrence(before, s.skip(1), mark, s[0] == '\n', pat);
        assert(before + broken_before(s.skip(1), mark, s[0] == '\n') == w + broken_before(
            s,
            mark,
            fresh,
        ));
    }
}

} // verus!
