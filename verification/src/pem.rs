//! Public keys in PEM, as people paste them: with `\n` written out as two
//! characters, with blanks around, with the markers glued to the base64.
//!
//! Normalizing mends these three things and nothing else. In particular it
//! gives no marker a second line break: OpenSSL refuses a key with an empty
//! line before its end marker.

use crate::gate::LicenseGate;
use crate::lines::{
    all_followed, apart, break_after, break_before, broken_after, broken_before, followed,
    lemma_absent_is_stable, lemma_broken_after_edges, lemma_broken_after_fixed,
    lemma_broken_after_followed, lemma_broken_after_keeps, lemma_broken_after_keeps_beginning,
    lemma_broken_before_edges, lemma_broken_before_fixed, lemma_broken_before_keeps,
    lemma_broken_before_keeps_occurrence, lemma_broken_before_twice, lemma_followed_is_stable,
    none_of, preceded, unbroken,
};
use crate::text::{
    holds_text, is_whitespace, lemma_occurs_in_trimmed, lemma_replaced_without_occurrence,
    lemma_trimmed_edges, lemma_trimmed_fixed, lemma_trimmed_twice, occurs_at, occurs_in,
    replace_text, replaced, starts_with, trim_text, trimmed,
};
use vstd::prelude::*;

verus! {

/// `key` with every backslash followed by `n` turned into a line break.
pub open spec fn unescaped(key: Seq<char>) -> Seq<char> {
    replaced(key, "\\n"@, "\n"@)
}

/// `key` unescaped and trimmed.
pub open spec fn cleaned(key: Seq<char>) -> Seq<char> {
    trimmed(unescaped(key))
}

/// `text` with its markers set on lines of their own: a line break after
/// every begin marker and before every end marker, but for those that stand
/// at the edge of the text or have their line break already.
pub open spec fn framed(text: Seq<char>) -> Seq<char> {
    broken_before(
        broken_after(text, "-----BEGIN PUBLIC KEY-----"@),
        "-----END PUBLIC KEY-----"@,
        true,
    )
}

/// The normalized form of `key`: cleaned, and framed where it holds
/// `-----BEGIN` at all.
pub open spec fn normalized_pem(key: Seq<char>) -> Seq<char> {
    let clean = cleaned(key);
    if occurs_in(clean, "-----BEGIN"@) {
        framed(clean)
    } else {
        clean
    }
}

impl LicenseGate {
    /// The normalized form of `key`.
    pub fn normalize_pem_format(key: &str) -> (out: String)
        ensures
            out@ == normalized_pem(key@),
    {
        let unescaped = replace_text(key, "\\n", "\n");
        let clean = trim_text(unescaped.as_str());
        if holds_text(clean, "-----BEGIN") {
            let opened = break_after(clean, "-----BEGIN PUBLIC KEY-----");
            break_before(opened.as_str(), "-----END PUBLIC KEY-----")
        } else {
            clean.to_owned()
        }
    }
}

/// An unescaped key holds no backslash followed by `n`.
pub proof fn lemma_unescaped_holds_no_escape(key: Seq<char>)
    ensures
        !occurs_in(unescaped(key), "\\n"@),
    decreases key.len(),
{
    reveal_strlit("\\n");
    reveal_strlit("\n");
    let pat = "\\n"@;
    let out = unescaped(key);
    assert(pat.len() == 2 && pat[0] == '\\' && pat[1] == 'n');
    if key.len() == 0 {
        assert forall|i: int| !occurs_at(out, pat, i) by {}
    } else if starts_with(key, pat) {
        let rest = unescaped(key.skip(2));
        lemma_unescaped_holds_no_escape(key.skip(2));
        assert(out == "\n"@ + rest);
        assert forall|i: int| !occurs_at(out, pat, i) by {
            if occurs_at(out, pat, i) {
                if i == 0 {
                    assert(out.skip(0).take(2)[0] == pat[0]);
                } else {
                    assert(out.skip(i) == rest.skip(i - 1));
                    assert(occurs_at(rest, pat, i - 1));
                }
            }
        }
    } else {
        let tail = key.skip(1);
        let rest = unescaped(tail);
        lemma_unescaped_holds_no_escape(tail);
        assert(out == seq![key[0]] + rest);
        assert forall|i: int| !occurs_at(out, pat, i) by {
            if occurs_at(out, pat, i) {
                if i == 0 {
                    assert(out.skip(0).take(2)[0] == pat[0]);
                    assert(out.skip(0).take(2)[1] == pat[1]);
                    assert(rest[0] == 'n');
                    assert(tail.len() > 0);
                    if starts_with(tail, pat) {
                        assert(rest == "\n"@ + unescaped(tail.skip(2)));
                    } else {
                        assert(rest == seq![tail[0]] + unescaped(tail.skip(1)));
                        assert(key.take(2) =~= pat);
                    }
                } else {
                    assert(out.skip(i) == rest.skip(i - 1));
                    assert(occurs_at(rest, pat, i - 1));
                }
            }
        }
    }
}

/// Cleaning a cleaned key changes nothing.
pub proof fn lemma_cleaned_twice(key: Seq<char>)
    ensures
        cleaned(cleaned(key)) == cleaned(key),
{
    let clean = cleaned(key);
    lemma_unescaped_holds_no_escape(key);
    if occurs_in(clean, "\\n"@) {
        lemma_occurs_in_trimmed(unescaped(key), "\\n"@);
    }
    lemma_replaced_without_occurrence(clean, "\\n"@, "\n"@);
    lemma_trimmed_twice(unescaped(key));
}

/// A key as it should be: no line break written out as two characters, no blanks
/// around it, every begin marker at the end of its line and every end marker
/// at the beginning of its line.
pub open spec fn well_formatted(key: Seq<char>) -> bool {
    &&& !occurs_in(key, "\\n"@)
    &&& key.len() > 0 ==> !is_whitespace(key[0]) && !is_whitespace(key.last())
    &&& followed(key, "-----BEGIN PUBLIC KEY-----"@)
    &&& preceded(key, "-----END PUBLIC KEY-----"@, true)
}

/// Normalizing a well-formatted key returns it unchanged.
pub proof fn lemma_well_formatted_unchanged(key: Seq<char>)
    requires
        well_formatted(key),
    ensures
        normalized_pem(key) == key,
{
    lemma_replaced_without_occurrence(key, "\\n"@, "\n"@);
    lemma_trimmed_fixed(key);
    lemma_broken_after_fixed(key, "-----BEGIN PUBLIC KEY-----"@);
    lemma_broken_before_fixed(key, "-----END PUBLIC KEY-----"@, true);
}

/// What the markers are made of: neither holds a line break, nor does the
/// written-out line break; the begin marker begins with `-----BEGIN`; and no
/// end marker begins inside `-----BEGIN`.
proof fn lemma_markers()
    ensures
        unbroken("\\n"@),
        unbroken("-----BEGIN PUBLIC KEY-----"@),
        unbroken("-----END PUBLIC KEY-----"@),
        starts_with("-----BEGIN PUBLIC KEY-----"@, "-----BEGIN"@),
        apart("-----BEGIN"@, "-----END PUBLIC KEY-----"@),
{
    reveal_strlit("\\n");
    reveal_strlit("-----BEGIN");
    reveal_strlit("-----BEGIN PUBLIC KEY-----");
    reveal_strlit("-----END PUBLIC KEY-----");
    let prefix = "-----BEGIN"@;
    let begin = "-----BEGIN PUBLIC KEY-----"@;
    let end = "-----END PUBLIC KEY-----"@;
    assert(begin.take(10) =~= prefix);
    assert forall|t: Seq<char>, i: int, j: int|
        #![trigger occurs_at(t, prefix, i), occurs_at(t, end, j)]
        occurs_at(t, prefix, i) && occurs_at(t, end, j) implies !(i < j < i + prefix.len()) by {
        if i < j < i + 10 {
            let here = t.skip(i).take(10);
            let there = t.skip(j).take(24);
            assert(here[j - i] == there[0]);
            assert(prefix[j - i] == '-');
            assert(j - i <= 4);
            assert(here[5] == there[5 - (j - i)]);
        }
    }
}

/// Normalizing a key a second time changes nothing.
pub proof fn lemma_normalized_twice(key: Seq<char>)
    ensures
        normalized_pem(normalized_pem(key)) == normalized_pem(key),
{
    let escape = "\\n"@;
    let prefix = "-----BEGIN"@;
    let begin = "-----BEGIN PUBLIC KEY-----"@;
    let end = "-----END PUBLIC KEY-----"@;
    let clean = cleaned(key);
    lemma_cleaned_twice(key);
    if occurs_in(clean, prefix) {
        let opened = broken_after(clean, begin);
        let out = broken_before(opened, end, true);
        let nothing = Seq::<char>::empty();
        lemma_markers();
        assert(nothing + clean == clean);
        assert(nothing + opened == opened);
        assert(nothing + out == out);
        assert(unescaped(out) == out) by {
            lemma_unescaped_holds_no_escape(key);
            if occurs_in(clean, escape) {
                lemma_occurs_in_trimmed(unescaped(key), escape);
            }
            lemma_absent_is_stable(escape);
            lemma_broken_after_keeps(none_of(escape), nothing, clean, begin);
            lemma_broken_before_keeps(none_of(escape), nothing, opened, end, true);
            lemma_replaced_without_occurrence(out, escape, "\n"@);
        }
        assert(trimmed(out) == out) by {
            reveal_strlit("-----BEGIN");
            let at = choose|i: int| occurs_at(clean, prefix, i);
            assert(occurs_at(clean, prefix, at));
            assert(clean.len() > 0);
            lemma_trimmed_edges(unescaped(key));
            lemma_broken_after_edges(clean, begin);
            lemma_broken_before_edges(opened, end, true);
            lemma_trimmed_fixed(out);
        }
        assert(occurs_in(out, prefix)) by {
            lemma_broken_after_keeps_beginning(clean, begin, prefix);
            lemma_broken_before_keeps_occurrence(nothing, opened, end, true, prefix);
        }
        assert(framed(out) == out) by {
            lemma_broken_after_followed(clean, begin);
            lemma_followed_is_stable(begin);
            lemma_broken_before_keeps(all_followed(begin), nothing, opened, end, true);
            lemma_broken_after_fixed(out, begin);
            lemma_broken_before_twice(opened, end, true);
        }
    }
}

} // verus!
