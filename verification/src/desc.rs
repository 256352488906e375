//! Backlink description derivation: the first line of a thought, filtered to
//! alphanumeric or whitespace characters and truncated to ten characters.

use vstd::prelude::*;
use vstd::string::StrSliceExecFns;
use crate::text::{contains_char, find_char, push_char};

verus! {

/// What `char::is_alphanumeric` returns for a character; it depends on the
/// character alone.
pub uninterp spec fn is_alphanumeric_char(c: char) -> bool;

/// What `char::is_whitespace` returns for a character; it depends on the
/// character alone.
pub uninterp spec fn is_whitespace_char(c: char) -> bool;

/// Relies on `char::is_alphanumeric`: a pure classification of the character.
#[verifier::external_body]
fn char_is_alphanumeric(c: char) -> (b: bool)
    ensures
        b == is_alphanumeric_char(c),
{
    c.is_alphanumeric()
}

/// Relies on `char::is_whitespace`: a pure classification of the character.
#[verifier::external_body]
pub(crate) fn char_is_whitespace(c: char) -> (b: bool)
    ensures
        b == is_whitespace_char(c),
{
    c.is_whitespace()
}

/// A character survives the description filter if it is alphanumeric or
/// whitespace.
pub open spec fn keeps_char(c: char) -> bool {
    is_alphanumeric_char(c) || is_whitespace_char(c)
}

/// The prefix of `s` before its first newline (all of `s` if it has none).
pub open spec fn before_newline(s: Seq<char>) -> Seq<char>
    decreases s.len(),
{
    if s.len() == 0 {
        s
    } else if s[0] == '\n' {
        Seq::empty()
    } else {
        seq![s[0]] + before_newline(s.drop_first())
    }
}

/// One trailing carriage return is dropped.
pub open spec fn strip_trailing_cr(s: Seq<char>) -> Seq<char> {
    if s.len() > 0 && s.last() == '\r' {
        s.drop_last()
    } else {
        s
    }
}

/// The first line of `s`, as `str::lines` yields it: everything before the
/// first newline, with one trailing carriage return removed — but a string
/// without any newline is a whole last line, whose bare trailing carriage
/// return stays.
pub open spec fn first_line(s: Seq<char>) -> Seq<char> {
    if contains_char(s, '\n') {
        strip_trailing_cr(before_newline(s))
    } else {
        s
    }
}

/// The subsequence of characters of `s` that the description filter keeps.
pub open spec fn kept_chars(s: Seq<char>) -> Seq<char>
    decreases s.len(),
{
    if s.len() == 0 {
        s
    } else if keeps_char(s[0]) {
        seq![s[0]] + kept_chars(s.drop_first())
    } else {
        kept_chars(s.drop_first())
    }
}

/// At most the first ten characters of `s`.
pub open spec fn take_at_most_10(s: Seq<char>) -> Seq<char> {
    if s.len() <= 10 {
        s
    } else {
        s.subrange(0, 10)
    }
}

/// The backlink description of a thought: its first line, filtered to
/// alphanumeric or whitespace characters, truncated to ten characters.
pub open spec fn desc_spec(s: Seq<char>) -> Seq<char> {
    take_at_most_10(kept_chars(first_line(s)))
}

/// `before_newline` of a string whose first newline (or end) is at `j` is the
/// prefix of length `j`.
proof fn lemma_before_newline_prefix(s: Seq<char>, j: int)
    requires
        0 <= j <= s.len(),
        forall|k: int| 0 <= k < j ==> s[k] != '\n',
        j == s.len() || s[j] == '\n',
    ensures
        before_newline(s) == s.subrange(0, j),
    decreases s.len(),
{
    if s.len() == 0 {
        assert(before_newline(s) =~= s.subrange(0, 0));
    } else if j == 0 {
        if j < s.len() {
            assert(s[0] == '\n');
            assert(before_newline(s) =~= s.subrange(0, 0));
        } else {
            assert(before_newline(s) =~= s.subrange(0, 0));
        }
    } else {
        assert(s[0] != '\n');
        let rest = s.drop_first();
        assert(forall|k: int| 0 <= k < j - 1 ==> rest[k] == s[k + 1] && rest[k] != '\n');
        lemma_before_newline_prefix(rest, j - 1);
        assert(seq![s[0]] + rest.subrange(0, j - 1) =~= s.subrange(0, j));
    }
}

/// No character of `before_newline(s)` is a newline.
proof fn lemma_before_newline_no_newline(s: Seq<char>)
    ensures
        forall|k: int| 0 <= k < before_newline(s).len() ==> before_newline(s)[k] != '\n',
    decreases s.len(),
{
    if s.len() == 0 {
    } else if s[0] == '\n' {
    } else {
        lemma_before_newline_no_newline(s.drop_first());
        assert forall|k: int| 0 <= k < before_newline(s).len()
            implies before_newline(s)[k] != '\n' by {
            if k == 0 {
                assert(before_newline(s)[0] == s[0]);
            } else {
                assert(before_newline(s)[k] == before_newline(s.drop_first())[k - 1]);
            }
        }
    }
}

/// `kept_chars` on a single character.
proof fn lemma_kept_chars_single(c: char)
    ensures
        keeps_char(c) ==> kept_chars(seq![c]) == seq![c],
        !keeps_char(c) ==> kept_chars(seq![c]) == Seq::<char>::empty(),
{
    let s = seq![c];
    assert(s.drop_first() =~= Seq::<char>::empty());
    assert(kept_chars(Seq::<char>::empty()) == Seq::<char>::empty());
    if keeps_char(s[0]) {
        assert(kept_chars(s) == seq![s[0]] + kept_chars(s.drop_first()));
        assert(seq![c] + Seq::<char>::empty() =~= seq![c]);
    } else {
        assert(kept_chars(s) == kept_chars(s.drop_first()));
    }
}

/// Every character of `kept_chars(s)` passes the filter, and each is a
/// character of `s`.
proof fn lemma_kept_chars_all_keep(s: Seq<char>)
    ensures
        forall|k: int| 0 <= k < kept_chars(s).len()
            ==> keeps_char(#[trigger] kept_chars(s)[k]) && s.contains(kept_chars(s)[k]),
    decreases s.len(),
{
    if s.len() == 0 {
    } else {
        let rest = s.drop_first();
        lemma_kept_chars_all_keep(rest);
        assert forall|k: int| 0 <= k < kept_chars(s).len()
            implies keeps_char(#[trigger] kept_chars(s)[k]) && s.contains(kept_chars(s)[k]) by {
            if keeps_char(s[0]) {
                if k == 0 {
                    assert(s.contains(s[0])) by {
                        assert(s[0] == s[0]);
                    }
                } else {
                    let c = kept_chars(s)[k];
                    assert(c == kept_chars(rest)[k - 1]);
                    assert(rest.contains(c));
                    let m = choose|m: int| 0 <= m < rest.len() && rest[m] == c;
                    assert(s[m + 1] == c);
                }
            } else {
                let c = kept_chars(s)[k];
                assert(c == kept_chars(rest)[k]);
                assert(rest.contains(c));
                let m = choose|m: int| 0 <= m < rest.len() && rest[m] == c;
                assert(s[m + 1] == c);
            }
        }
    }
}

/// On a string whose characters all pass the filter, `kept_chars` is the
/// identity.
proof fn lemma_kept_chars_of_all_kept(s: Seq<char>)
    requires
        forall|k: int| 0 <= k < s.len() ==> keeps_char(#[trigger] s[k]),
    ensures
        kept_chars(s) == s,
    decreases s.len(),
{
    if s.len() == 0 {
    } else {
        let rest = s.drop_first();
        assert(forall|k: int| 0 <= k < rest.len() ==> #[trigger] rest[k] == s[k + 1]);
        lemma_kept_chars_of_all_kept(rest);
        assert(seq![s[0]] + rest =~= s);
    }
}

/// `kept_chars` distributes over concatenation.
proof fn lemma_kept_chars_append(a: Seq<char>, b: Seq<char>)
    ensures
        kept_chars(a + b) == kept_chars(a) + kept_chars(b),
    decreases a.len(),
{
    if a.len() == 0 {
        assert(a + b =~= b);
        assert(kept_chars(a) + kept_chars(b) =~= kept_chars(b));
    } else {
        let ab = a + b;
        assert(ab[0] == a[0]);
        assert(ab.drop_first() =~= a.drop_first() + b);
        lemma_kept_chars_append(a.drop_first(), b);
        if keeps_char(a[0]) {
            assert(seq![a[0]] + (kept_chars(a.drop_first()) + kept_chars(b))
                =~= (seq![a[0]] + kept_chars(a.drop_first())) + kept_chars(b));
        }
    }
}

/// Computes the backlink description of a thought.
pub fn link_desc(thought: &str) -> (r: String)
    ensures
        r@ == desc_spec(thought@),
{
    let line = match find_char(thought, '\n') {
        Some(line_end) => {
            proof {
                lemma_before_newline_prefix(thought@, line_end as int);
                assert(contains_char(thought@, '\n')) by {
                    assert(thought@[line_end as int] == '\n');
                }
            }
            let line0 = thought.substring_char(0, line_end);
            if line_end > 0 && line0.get_char(line_end - 1) == '\r' {
                proof {
                    assert(before_newline(thought@).last() == '\r');
                    assert(thought@.subrange(0, line_end - 1)
                        =~= before_newline(thought@).drop_last());
                }
                thought.substring_char(0, line_end - 1)
            } else {
                line0
            }
        },
        None => {
            proof {
                if contains_char(thought@, '\n') {
                    let i = choose|i: int| 0 <= i < thought@.len() && thought@[i] == '\n';
                    assert(false);
                }
            }
            thought
        },
    };
    assert(line@ == first_line(thought@));
    let line_len = line.unicode_len();
    let mut out = String::new();
    let mut count: usize = 0;
    let mut i: usize = 0;
    while i < line_len && count < 10
        invariant
            line_len == line@.len(),
            i <= line_len,
            count == out@.len(),
            count <= 10,
            count < 10 ==> out@ == kept_chars(line@.subrange(0, i as int)),
            out@ == take_at_most_10(kept_chars(line@.subrange(0, i as int))),
        decreases line_len - i,
    {
        let c = line.get_char(i);
        let ghost prefix = line@.subrange(0, i as int);
        if char_is_alphanumeric(c) || char_is_whitespace(c) {
            push_char(&mut out, c);
            count += 1;
        }
        i += 1;
        proof {
            assert(line@.subrange(0, i as int) =~= prefix + seq![c]);
            lemma_kept_chars_append(prefix, seq![c]);
            lemma_kept_chars_single(c);
            if keeps_char(c) {
                assert(kept_chars(prefix) + seq![c] =~= kept_chars(prefix).push(c));
            } else {
                assert(kept_chars(prefix) + kept_chars(seq![c]) =~= kept_chars(prefix));
            }
        }
    }
    proof {
        let ghost full = line@;
        let ghost prefix = line@.subrange(0, i as int);
        if i < line_len {
            // Stopped because ten characters were collected; further kept
            // characters fall beyond the truncation point.
            let ghost rest = line@.subrange(i as int, line_len as int);
            assert(prefix + rest =~= full);
            lemma_kept_chars_append(prefix, rest);
            assert(kept_chars(prefix).len() >= 10);
            assert(take_at_most_10(kept_chars(prefix))
                =~= take_at_most_10(kept_chars(full)));
        } else {
            assert(prefix =~= full);
        }
    }
    out
}

/// The description is total and idempotent: it never exceeds ten characters,
/// and describing a description returns it unchanged.
pub proof fn lemma_desc_total_idempotent(t: Seq<char>)
    ensures
        desc_spec(t).len() <= 10,
        desc_spec(desc_spec(t)) == desc_spec(t),
{
    let fl = first_line(t);
    let kept = kept_chars(fl);
    let d = desc_spec(t);
    assert(d.len() <= 10);
    // first_line(t) has no newline, in either of its cases.
    lemma_before_newline_no_newline(t);
    assert forall|k: int| 0 <= k < fl.len() implies fl[k] != '\n' by {
        if !contains_char(t, '\n') {
            if fl[k] == '\n' {
                assert(contains_char(t, '\n')) by {
                    assert(t[k] == '\n');
                }
            }
        }
    }
    lemma_kept_chars_all_keep(fl);
    // So no character the filter kept, nor any of the truncation d, is a
    // newline, and every one passes the filter.
    assert(forall|k: int| 0 <= k < d.len() ==> #[trigger] d[k] == kept[k]);
    assert forall|k: int| 0 <= k < d.len() implies d[k] != '\n' && keeps_char(#[trigger] d[k]) by {
        assert(kept[k] == d[k]);
        assert(fl.contains(kept[k]));
        let m = choose|m: int| 0 <= m < fl.len() && fl[m] == kept[k];
    }
    // A newline-free description is its own whole last line.
    assert(!contains_char(d, '\n')) by {
        if contains_char(d, '\n') {
            let i = choose|i: int| 0 <= i < d.len() && d[i] == '\n';
        }
    }
    assert(first_line(d) == d);
    lemma_kept_chars_of_all_kept(d);
    assert(take_at_most_10(d) == d);
}

} // verus!
