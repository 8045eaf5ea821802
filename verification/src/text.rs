//! Text as sequences of characters: the operations on `&str` that the rest of
//! the crate needs, each with its meaning on the string's view.

use vstd::prelude::*;

verus! {

/// `pat` stands at the very beginning of `s`.
pub open spec fn starts_with(s: Seq<char>, pat: Seq<char>) -> bool {
    pat.len() <= s.len() && s.take(pat.len() as int) == pat
}

/// `pat` stands in `s` at position `i`.
pub open spec fn occurs_at(s: Seq<char>, pat: Seq<char>, i: int) -> bool {
    0 <= i <= s.len() && starts_with(s.skip(i), pat)
}

/// `pat` stands somewhere in `s`.
pub open spec fn occurs_in(s: Seq<char>, pat: Seq<char>) -> bool {
    exists|i: int| occurs_at(s, pat, i)
}

/// `s` with every occurrence of `pat` replaced by `rep`. Occurrences are
/// found from the left and do not overlap. An empty pattern occurs nowhere.
pub open spec fn replaced(s: Seq<char>, pat: Seq<char>, rep: Seq<char>) -> Seq<char>
    decreases s.len(),
{
    if s.len() == 0 {
        s
    } else if pat.len() > 0 && starts_with(s, pat) {
        rep + replaced(s.skip(pat.len() as int), pat, rep)
    } else {
        seq![s[0]] + replaced(s.skip(1), pat, rep)
    }
}

/// The characters with the Unicode property `White_Space`.
pub open spec fn is_whitespace(c: char) -> bool {
    let n = c as u32;
    ||| 0x09 <= n <= 0x0D
    ||| n == 0x20
    ||| n == 0x85
    ||| n == 0xA0
    ||| n == 0x1680
    ||| 0x2000 <= n <= 0x200A
    ||| n == 0x2028
    ||| n == 0x2029
    ||| n == 0x202F
    ||| n == 0x205F
    ||| n == 0x3000
}

/// `s` without its leading whitespace.
pub open spec fn trim_start(s: Seq<char>) -> Seq<char>
    decreases s.len(),
{
    if s.len() > 0 && is_whitespace(s[0]) {
        trim_start(s.skip(1))
    } else {
        s
    }
}

/// `s` without its trailing whitespace.
pub open spec fn trim_end(s: Seq<char>) -> Seq<char>
    decreases s.len(),
{
    if s.len() > 0 && is_whitespace(s.last()) {
        trim_end(s.drop_last())
    } else {
        s
    }
}

/// `s` without its leading and trailing whitespace.
pub open spec fn trimmed(s: Seq<char>) -> Seq<char> {
    trim_end(trim_start(s))
}

/// The character of the decimal digit `d`.
pub open spec fn digit(d: int) -> char {
    ('0' as int + d) as char
}

/// The decimal digits of `n`, most significant first; none for zero.
pub open spec fn digits(n: nat) -> Seq<char>
    decreases n,
{
    if n == 0 {
        Seq::empty()
    } else {
        digits(n / 10).push(digit((n % 10) as int))
    }
}

/// `n` in decimal notation: a minus sign where it is negative, no leading
/// zeros, no plus sign.
pub open spec fn decimal(n: int) -> Seq<char> {
    if n == 0 {
        seq!['0']
    } else if n < 0 {
        seq!['-'] + digits((-n) as nat)
    } else {
        digits(n as nat)
    }
}

/// The characters of `s`, in order.
pub fn chars_of(s: &str) -> (out: Vec<char>)
    ensures
        out@ == s@,
{
    let mut out: Vec<char> = Vec::new();
    for c in it: s.chars()
        invariant
            it.seq() == s@,
            out@ == s@.take(it.index()),
    {
        out.push(c);
    }
    out
}

/// Whether `a` and `b` hold the same characters.
pub fn same_text(a: &str, b: &str) -> (same: bool)
    ensures
        same == (a@ == b@),
{
    let x = a.as_bytes();
    let y = b.as_bytes();
    proof {
        vstd::utf8::encode_utf8_decode_utf8(a@);
        vstd::utf8::encode_utf8_decode_utf8(b@);
    }
    if x.len() != y.len() {
        return false;
    }
    let mut i: usize = 0;
    while i < x.len()
        invariant
            i <= x.len(),
            x.len() == y.len(),
            x@ == vstd::utf8::encode_utf8(a@),
            y@ == vstd::utf8::encode_utf8(b@),
            x@.take(i as int) == y@.take(i as int),
        decreases x.len() - i,
    {
        if x[i] != y[i] {
            assert(x@[i as int] != y@[i as int]);
            return false;
        }
        assert(x@.take(i + 1) == x@.take(i as int).push(x@[i as int]));
        assert(y@.take(i + 1) == y@.take(i as int).push(y@[i as int]));
        i += 1;
    }
    assert(x@ == x@.take(i as int));
    assert(y@ == y@.take(i as int));
    true
}

/// Whether `c` is a whitespace character.
pub fn is_space(c: char) -> (space: bool)
    ensures
        space == is_whitespace(c),
{
    let n: u32 = c as u32;
    (0x09 <= n && n <= 0x0D) || n == 0x20 || n == 0x85 || n == 0xA0 || n == 0x1680 || (0x2000 <= n
        && n <= 0x200A) || n == 0x2028 || n == 0x2029 || n == 0x202F || n == 0x205F || n == 0x3000
}

/// Whether `pat` stands in `text` at position `i`.
pub(crate) fn stands_at(text: &Vec<char>, i: usize, pat: &Vec<char>) -> (found: bool)
    requires
        i <= text.len(),
    ensures
        found == occurs_at(text@, pat@, i as int),
{
    if pat.len() > text.len() - i {
        return false;
    }
    let mut j: usize = 0;
    while j < pat.len()
        invariant
            j <= pat.len(),
            i + pat.len() <= text.len(),
            forall|k: int| 0 <= k < j ==> text@[i + k] == pat@[k],
        decreases pat.len() - j,
    {
        if text[i + j] != pat[j] {
            assert(text@.skip(i as int).take(pat.len() as int)[j as int] != pat@[j as int]);
            return false;
        }
        j += 1;
    }
    assert(text@.skip(i as int).take(pat.len() as int) =~= pat@);
    true
}

/// Whether `pat` stands somewhere in `text`.
pub fn holds_text(text: &str, pat: &str) -> (found: bool)
    ensures
        found == occurs_in(text@, pat@),
{
    let t = chars_of(text);
    let p = chars_of(pat);
    let mut i: usize = 0;
    loop
        invariant
            i <= t.len(),
            t@ == text@,
            p@ == pat@,
            forall|k: int| 0 <= k < i ==> !occurs_at(text@, pat@, k),
        decreases t.len() - i,
    {
        if stands_at(&t, i, &p) {
            return true;
        }
        if i == t.len() {
            return false;
        }
        i += 1;
    }
}

/// `text` with every occurrence of `pat` replaced by `rep`.
pub fn replace_text(text: &str, pat: &str, rep: &str) -> (out: String)
    ensures
        out@ == replaced(text@, pat@, rep@),
{
    let t = chars_of(text);
    let p = chars_of(pat);
    let mut out = String::new();
    let mut kept: usize = 0;
    let mut i: usize = 0;
    proof {
        assert(text@.skip(0) == text@);
        assert(text@.subrange(0, 0) == Seq::<char>::empty());
    }
    while i < t.len()
        invariant
            kept <= i <= t.len(),
            t@ == text@,
            p@ == pat@,
            out@ + text@.subrange(kept as int, i as int) + replaced(
                text@.skip(i as int),
                pat@,
                rep@,
            ) == replaced(text@, pat@, rep@),
        decreases t.len() - i,
    {
        let ghost rest = text@.skip(i as int);
        if p.len() > 0 && stands_at(&t, i, &p) {
            out.append(text.substring_char(kept, i));
            out.append(rep);
            proof {
                assert(rest.skip(pat@.len() as int) == text@.skip(i + pat@.len()));
                assert(text@.subrange(i + pat@.len(), i + pat@.len()) == Seq::<char>::empty());
            }
            i += p.len();
            kept = i;
        } else {
            proof {
                assert(rest.skip(1) == text@.skip(i + 1));
                assert(text@.subrange(kept as int, i + 1) == text@.subrange(
                    kept as int,
                    i as int,
                ).push(text@[i as int]));
            }
            i += 1;
        }
    }
    out.append(text.substring_char(kept, i));
    proof {
        assert(text@.skip(i as int) == Seq::<char>::empty());
    }
    out
}

/// `text` without its leading and trailing whitespace.
pub fn trim_text(text: &str) -> (out: &str)
    ensures
        out@ == trimmed(text@),
{
    let t = chars_of(text);
    let mut from: usize = 0;
    proof {
        assert(text@.skip(0) == text@);
    }
    while from < t.len() && is_space(t[from])
        invariant
            from <= t.len(),
            t@ == text@,
            trim_start(text@) == trim_start(text@.skip(from as int)),
        decreases t.len() - from,
    {
        proof {
            assert(text@.skip(from as int).skip(1) == text@.skip(from + 1));
        }
        from += 1;
    }
    let mut to: usize = t.len();
    proof {
        assert(text@.skip(from as int) == text@.subrange(from as int, to as int));
    }
    while to > from && is_space(t[to - 1])
        invariant
            from <= to <= t.len(),
            t@ == text@,
            trimmed(text@) == trim_end(text@.subrange(from as int, to as int)),
        decreases to,
    {
        proof {
            assert(text@.subrange(from as int, to as int).drop_last() == text@.subrange(
                from as int,
                to - 1,
            ));
        }
        to -= 1;
    }
    text.substring_char(from, to)
}

/// The one-character text of the decimal digit `d`.
fn digit_text(d: u8) -> (out: &'static str)
    requires
        d < 10,
    ensures
        out@ == seq![digit(d as int)],
{
    proof {
        reveal_strlit("0");
        reveal_strlit("1");
        reveal_strlit("2");
        reveal_strlit("3");
        reveal_strlit("4");
        reveal_strlit("5");
        reveal_strlit("6");
        reveal_strlit("7");
        reveal_strlit("8");
        reveal_strlit("9");
    }
    let out = if d == 0 {
        "0"
    } else if d == 1 {
        "1"
    } else if d == 2 {
        "2"
    } else if d == 3 {
        "3"
    } else if d == 4 {
        "4"
    } else if d == 5 {
        "5"
    } else if d == 6 {
        "6"
    } else if d == 7 {
        "7"
    } else if d == 8 {
        "8"
    } else {
        "9"
    };
    assert(out@ =~= seq![digit(d as int)]);
    out
}

/// The digits of `low`, which holds the least significant first, in reading
/// order.
spec fn shown(low: Seq<u8>) -> Seq<char> {
    Seq::new(low.len(), |k: int| digit(low[low.len() - 1 - k] as int))
}

/// `n` in decimal notation.
pub fn decimal_text(n: i64) -> (out: String)
    ensures
        out@ == decimal(n as int),
{
    let mut out = String::new();
    if n == 0 {
        out.append(digit_text(0));
        assert(out@ =~= decimal(0));
        return out;
    }
    let wide: i128 = n as i128;
    let size: i128 = if wide < 0 {
        proof {
            reveal_strlit("-");
        }
        out.append("-");
        -wide
    } else {
        wide
    };
    assert(out@ + digits(size as nat) =~= decimal(n as int));
    let mut low: Vec<u8> = Vec::new();
    let mut rest: i128 = size;
    while rest > 0
        invariant
            0 <= rest <= size,
            forall|k: int| 0 <= k < low.len() ==> low@[k] < 10,
            digits(size as nat) == digits(rest as nat) + shown(low@),
        decreases rest,
    {
        let ghost before = low@;
        let d: u8 = (rest % 10) as u8;
        low.push(d);
        proof {
            assert(shown(low@) =~= seq![digit(d as int)] + shown(before));
            assert(digits(rest as nat) == digits((rest / 10) as nat).push(digit(d as int)));
            assert(digits(rest as nat) + shown(before) =~= digits((rest / 10) as nat) + shown(
                low@,
            ));
        }
        rest = rest / 10;
    }
    let mut k: usize = low.len();
    proof {
        assert(low@.take(k as int) == low@);
    }
    while k > 0
        invariant
            k <= low.len(),
            forall|j: int| 0 <= j < low.len() ==> low@[j] < 10,
            out@ + shown(low@.take(k as int)) == decimal(n as int),
        decreases k,
    {
        let ghost before = out@;
        k -= 1;
        out.append(digit_text(low[k]));
        proof {
            assert(shown(low@.take(k + 1)) =~= seq![digit(low@[k as int] as int)] + shown(
                low@.take(k as int),
            ));
            assert(out@ + shown(low@.take(k as int)) =~= before + shown(low@.take(k + 1)));
        }
    }
    assert(shown(low@.take(0)) =~= Seq::<char>::empty());
    out
}

/// Where `pat` does not occur, replacing it changes nothing.
pub proof fn lemma_replaced_without_occurrence(s: Seq<char>, pat: Seq<char>, rep: Seq<char>)
    requires
        !occurs_in(s, pat),
    ensures
        replaced(s, pat, rep) == s,
    decreases s.len(),
{
    if s.len() > 0 {
        assert(s.skip(0) == s);
        assert(!occurs_at(s, pat, 0));
        assert forall|i: int| !occurs_at(s.skip(1), pat, i) by {
            if 0 <= i <= s.len() - 1 {
                assert(s.skip(1).skip(i) == s.skip(i + 1));
                assert(!occurs_at(s, pat, i + 1));
            }
        }
        lemma_replaced_without_occurrence(s.skip(1), pat, rep);
        assert(seq![s[0]] + s.skip(1) =~= s);
    }
}

/// What occurs in a text without its leading whitespace occurs in the text.
pub proof fn lemma_occurs_in_trim_start(s: Seq<char>, pat: Seq<char>)
    requires
        occurs_in(trim_start(s), pat),
    ensures
        occurs_in(s, pat),
    decreases s.len(),
{
    if s.len() > 0 && is_whitespace(s[0]) {
        lemma_occurs_in_trim_start(s.skip(1), pat);
        let i = choose|i: int| occurs_at(s.skip(1), pat, i);
        assert(s.skip(1).skip(i) == s.skip(i + 1));
        assert(occurs_at(s, pat, i + 1));
    }
}

/// What occurs in a text without its trailing whitespace occurs in the text.
pub proof fn lemma_occurs_in_trim_end(s: Seq<char>, pat: Seq<char>)
    requires
        occurs_in(trim_end(s), pat),
    ensures
        occurs_in(s, pat),
    decreases s.len(),
{
    if s.len() > 0 && is_whitespace(s.last()) {
        lemma_occurs_in_trim_end(s.drop_last(), pat);
        let i = choose|i: int| occurs_at(s.drop_last(), pat, i);
        assert(s.drop_last().skip(i).take(pat.len() as int) =~= s.skip(i).take(pat.len() as int));
        assert(occurs_at(s, pat, i));
    }
}

/// What occurs in a trimmed text occurs in the text.
pub proof fn lemma_occurs_in_trimmed(s: Seq<char>, pat: Seq<char>)
    requires
        occurs_in(trimmed(s), pat),
    ensures
        occurs_in(s, pat),
{
    lemma_occurs_in_trim_end(trim_start(s), pat);
    lemma_occurs_in_trim_start(s, pat);
}

/// A text without its leading whitespace is empty or begins with a character
/// that is no whitespace.
pub proof fn lemma_trim_start_begins_clean(s: Seq<char>)
    ensures
        trim_start(s).len() == 0 || !is_whitespace(trim_start(s)[0]),
    decreases s.len(),
{
    if s.len() > 0 && is_whitespace(s[0]) {
        lemma_trim_start_begins_clean(s.skip(1));
    }
}

/// A text without its trailing whitespace is a beginning of the text, and is
/// empty or ends with a character that is no whitespace.
pub proof fn lemma_trim_end_ends_clean(s: Seq<char>)
    ensures
        trim_end(s).len() <= s.len(),
        trim_end(s) == s.take(trim_end(s).len() as int),
        trim_end(s).len() == 0 || !is_whitespace(trim_end(s).last()),
    decreases s.len(),
{
    if s.len() > 0 && is_whitespace(s.last()) {
        lemma_trim_end_ends_clean(s.drop_last());
        assert(s.drop_last().take(trim_end(s).len() as int) =~= s.take(trim_end(s).len() as int));
    } else {
        assert(s.take(s.len() as int) =~= s);
    }
}

/// Trimming a trimmed text changes nothing.
pub proof fn lemma_trimmed_twice(s: Seq<char>)
    ensures
        trimmed(trimmed(s)) == trimmed(s),
{
    let inner = trim_start(s);
    let t = trimmed(s);
    lemma_trim_start_begins_clean(s);
    lemma_trim_end_ends_clean(inner);
    assert(trim_start(t) == t);
    assert(trim_end(t) == t);
}

/// A text that neither begins nor ends with whitespace is its own trimmed
/// form.
pub proof fn lemma_trimmed_fixed(s: Seq<char>)
    requires
        s.len() > 0 ==> !is_whitespace(s[0]) && !is_whitespace(s.last()),
    ensures
        trimmed(s) == s,
{
}

/// A trimmed text neither begins nor ends with whitespace.
pub proof fn lemma_trimmed_edges(s: Seq<char>)
    ensures
        trimmed(s).len() > 0 ==> !is_whitespace(trimmed(s)[0]) && !is_whitespace(
            trimmed(s).last(),
        ),
{
    lemma_trim_start_begins_clean(s);
    lemma_trim_end_ends_clean(trim_start(s));
}

} // verus!
