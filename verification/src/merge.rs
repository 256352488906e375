//! Note merging: idempotent date-header insertion, daily entry appending,
//! standalone note content, and the daily backlink block for a standalone
//! note.

use vstd::prelude::*;
use vstd::string::StringExecFns;
use crate::desc::{desc_spec, link_desc};
use crate::text::{contains_once, contains_seq, contains_substr, occ_at};

verus! {

/// The date header line `# {date}`.
pub open spec fn header_line(date: Seq<char>) -> Seq<char> {
    "# "@ + date
}

/// The header block prepended to a file that lacks its date header.
pub open spec fn header_block(date: Seq<char>) -> Seq<char> {
    header_line(date) + "\n\n"@
}

/// Existing content with the date header prepended unless it is already
/// present somewhere in the content.
pub open spec fn with_header(content: Seq<char>, date: Seq<char>) -> Seq<char> {
    if contains_seq(content, header_line(date)) {
        content
    } else {
        header_block(date) + content
    }
}

/// The entry block appended to a daily note for one captured thought.
pub open spec fn entry_block(entry_id: Seq<char>, thought: Seq<char>) -> Seq<char> {
    "\n## "@ + entry_id + "\n"@ + thought + "\n"@
}

/// The entry block appended to a daily note to backlink a standalone note.
pub open spec fn backlink_block(entry_id: Seq<char>, description: Seq<char>) -> Seq<char> {
    "\n## "@ + entry_id + "\n[["@ + entry_id + "|"@ + description + "]]\n"@
}

/// The content a file held before a merge: its text, or empty if absent.
pub open spec fn opt_content(existing: Option<&str>) -> Seq<char> {
    match existing {
        Some(s) => s@,
        None => Seq::empty(),
    }
}

/// The full daily-note content after merging one thought.
pub open spec fn merge_daily_spec(
    existing: Seq<char>,
    date: Seq<char>,
    entry_id: Seq<char>,
    thought: Seq<char>,
) -> Seq<char> {
    with_header(existing, date) + entry_block(entry_id, thought)
}

/// The full content of a standalone note.
pub open spec fn merge_standalone_spec(entry_id: Seq<char>, thought: Seq<char>) -> Seq<char> {
    "# "@ + entry_id + "\n"@ + thought + "\n"@
}

/// The full daily-note content after merging the backlink for a standalone
/// note.
pub open spec fn merge_backlink_spec(
    existing: Seq<char>,
    date: Seq<char>,
    entry_id: Seq<char>,
    thought: Seq<char>,
) -> Seq<char> {
    with_header(existing, date) + backlink_block(entry_id, desc_spec(thought))
}

/// Prepends the `# {date}` header unless the content already contains it.
pub fn prepend_date_header(content: &mut String, date: &str)
    ensures
        final(content)@ == with_header(old(content)@, date@),
{
    let mut needle = "# ".to_owned();
    needle.append(date);
    assert(needle@ == header_line(date@));
    if !contains_substr(content.as_str(), needle.as_str()) {
        let mut new_content = needle;
        new_content.append("\n\n");
        new_content.append(content.as_str());
        *content = new_content;
    }
}

/// Merges one thought into a daily note: ensures the date header is present
/// exactly as `with_header` says, then appends the entry block.
pub fn merge_daily(existing: Option<&str>, date: &str, entry_id: &str, thought: &str) -> (r:
    String)
    ensures
        r@ == merge_daily_spec(opt_content(existing), date@, entry_id@, thought@),
{
    let mut content = match existing {
        Some(s) => s.to_owned(),
        None => String::new(),
    };
    prepend_date_header(&mut content, date);
    content.append("\n## ");
    content.append(entry_id);
    content.append("\n");
    content.append(thought);
    content.append("\n");
    proof {
        assert(content@ =~= merge_daily_spec(opt_content(existing), date@, entry_id@, thought@));
    }
    content
}

/// Produces the full content of a standalone note; any previous content at
/// that path is replaced.
pub fn merge_standalone(thought: &str, entry_id: &str) -> (r: String)
    ensures
        r@ == merge_standalone_spec(entry_id@, thought@),
{
    let mut content = "# ".to_owned();
    content.append(entry_id);
    content.append("\n");
    content.append(thought);
    content.append("\n");
    proof {
        assert(content@ =~= merge_standalone_spec(entry_id@, thought@));
    }
    content
}

/// Merges the backlink for a standalone note into the daily note, with the
/// same header idempotence rule as `merge_daily`.
pub fn merge_backlink(existing: Option<&str>, date: &str, entry_id: &str, thought: &str) -> (r:
    String)
    ensures
        r@ == merge_backlink_spec(opt_content(existing), date@, entry_id@, thought@),
{
    let mut content = match existing {
        Some(s) => s.to_owned(),
        None => String::new(),
    };
    prepend_date_header(&mut content, date);
    content.append("\n## ");
    content.append(entry_id);
    content.append("\n[[");
    content.append(entry_id);
    content.append("|");
    let description = link_desc(thought);
    content.append(description.as_str());
    content.append("]]\n");
    proof {
        assert(content@ =~= merge_backlink_spec(opt_content(existing), date@, entry_id@, thought@));
    }
    content
}

/// Merging into an absent daily file yields the header block followed by the
/// entry block.
pub proof fn lemma_fresh_daily_shape(date: Seq<char>, entry_id: Seq<char>, thought: Seq<char>)
    ensures
        merge_daily_spec(Seq::empty(), date, entry_id, thought) == header_line(date) + "\n\n"@
            + entry_block(entry_id, thought),
{
    reveal_strlit("# ");
    assert(header_line(date).len() >= 2);
    assert forall|i: int| !occ_at(Seq::<char>::empty(), header_line(date), i) by {}
    assert(merge_daily_spec(Seq::empty(), date, entry_id, thought) =~= header_line(date)
        + "\n\n"@ + entry_block(entry_id, thought));
}

/// The merged daily content for a standalone save contains the backlink
/// entry `## {entryId}` followed by `[[{entryId}|{desc}]]`.
pub proof fn lemma_backlink_present(
    existing: Seq<char>,
    date: Seq<char>,
    entry_id: Seq<char>,
    thought: Seq<char>,
)
    ensures
        contains_seq(
            merge_backlink_spec(existing, date, entry_id, thought),
            "## "@ + entry_id + "\n[["@ + entry_id + "|"@ + desc_spec(thought) + "]]\n"@,
        ),
{
    reveal_strlit("\n## ");
    reveal_strlit("## ");
    let res = merge_backlink_spec(existing, date, entry_id, thought);
    let needle = "## "@ + entry_id + "\n[["@ + entry_id + "|"@ + desc_spec(thought) + "]]\n"@;
    let w = with_header(existing, date);
    let pos: int = w.len() as int + 1;
    assert(res.subrange(pos, pos + needle.len()) =~= needle);
    assert(occ_at(res, needle, pos));
}

/// A date header prepended to a block that does not contain it occurs
/// exactly once, provided the date itself holds no `#`.
proof fn lemma_prepended_header_once(date: Seq<char>, block: Seq<char>)
    requires
        forall|k: int| 0 <= k < date.len() ==> date[k] != '#',
        !contains_seq(block, header_line(date)),
    ensures
        contains_once(header_line(date) + "\n\n"@ + block, header_line(date)),
{
    reveal_strlit("# ");
    reveal_strlit("\n\n");
    let h = header_line(date);
    let n = h.len() as int;
    let b = block;
    let res = h + "\n\n"@ + b;
    assert(res.len() == n + 2 + b.len());
    // The header occurs at the front.
    assert(res.subrange(0, n) =~= h);
    assert(occ_at(res, h, 0));
    // And nowhere else: any other occurrence would have to start at a '#'.
    assert(h[0] == '#');
    assert(h[1] == ' ');
    assert forall|i: int| occ_at(res, h, i) implies i == 0 by {
        assert(res.subrange(i, i + n)[0] == res[i]);
        assert(res[i] == h[0]);
        if 1 <= i < n {
            assert(res[i] == h[i]);
            if i >= 2 {
                assert(h[i] == date[i - 2]);
            }
            assert(false);
        } else if i == n || i == n + 1 {
            assert(res[i] == "\n\n"@[i - n]);
            assert(false);
        } else if i >= n + 2 {
            assert(res.subrange(i, i + n) =~= b.subrange(i - (n + 2), i - (n + 2) + n));
            assert(occ_at(b, h, i - (n + 2)));
            assert(false);
        }
    }
}

/// Appending a block that starts with a newline and does not contain the
/// date header keeps a unique header unique, provided the date holds no
/// newline.
proof fn lemma_extended_header_once(existing: Seq<char>, date: Seq<char>, block: Seq<char>)
    requires
        contains_once(existing, header_line(date)),
        forall|k: int| 0 <= k < date.len() ==> date[k] != '\n',
        block.len() > 0,
        block[0] == '\n',
        !contains_seq(block, header_line(date)),
    ensures
        contains_once(existing + block, header_line(date)),
{
    reveal_strlit("# ");
    let h = header_line(date);
    let n = h.len() as int;
    let b = block;
    let res = existing + b;
    // The header line holds no newline.
    assert(h[0] == '#');
    assert(h[1] == ' ');
    assert forall|k: int| 0 <= k < n implies h[k] != '\n' by {
        if k >= 2 {
            assert(h[k] == date[k - 2]);
        }
    }
    // Every occurrence in the merged content lies wholly inside the old
    // content: one crossing the boundary would put the block's leading
    // newline inside the newline-free header, and one inside the block is
    // ruled out by assumption.
    assert(b[0] == '\n');
    assert forall|i: int| occ_at(res, h, i) implies occ_at(existing, h, i) by {
        if i >= existing.len() {
            assert(res.subrange(i, i + n) =~= b.subrange(i - existing.len(), i - existing.len()
                + n));
            assert(occ_at(b, h, i - existing.len()));
            assert(false);
        } else if i + n > existing.len() {
            let k = existing.len() - i;
            assert(res.subrange(i, i + n)[k as int] == res[existing.len() as int]);
            assert(res[existing.len() as int] == b[0]);
            assert(h[k as int] == '\n');
            assert(false);
        } else {
            assert(res.subrange(i, i + n) =~= existing.subrange(i, i + n));
        }
    }
    // Occurrences in the old content survive unchanged.
    let i0 = choose|i: int| occ_at(existing, h, i);
    assert(res.subrange(i0, i0 + n) =~= existing.subrange(i0, i0 + n));
    assert(occ_at(res, h, i0));
}

/// Merging into an absent daily file leaves exactly one occurrence of the
/// date header, provided the date itself holds no `#` and the appended entry
/// block does not contain the header line.
pub proof fn lemma_fresh_daily_header_once(
    date: Seq<char>,
    entry_id: Seq<char>,
    thought: Seq<char>,
)
    requires
        forall|k: int| 0 <= k < date.len() ==> date[k] != '#',
        !contains_seq(entry_block(entry_id, thought), header_line(date)),
    ensures
        contains_once(merge_daily_spec(Seq::empty(), date, entry_id, thought), header_line(date)),
{
    lemma_fresh_daily_shape(date, entry_id, thought);
    lemma_prepended_header_once(date, entry_block(entry_id, thought));
}

/// Merging a backlink into an absent daily file leaves exactly one
/// occurrence of the date header, under the same provisos.
pub proof fn lemma_fresh_backlink_header_once(
    date: Seq<char>,
    entry_id: Seq<char>,
    thought: Seq<char>,
)
    requires
        forall|k: int| 0 <= k < date.len() ==> date[k] != '#',
        !contains_seq(backlink_block(entry_id, desc_spec(thought)), header_line(date)),
    ensures
        contains_once(
            merge_backlink_spec(Seq::empty(), date, entry_id, thought),
            header_line(date),
        ),
{
    reveal_strlit("# ");
    assert(header_line(date).len() >= 2);
    assert forall|i: int| !occ_at(Seq::<char>::empty(), header_line(date), i) by {}
    assert(merge_backlink_spec(Seq::empty(), date, entry_id, thought) =~= header_line(date)
        + "\n\n"@ + backlink_block(entry_id, desc_spec(thought)));
    lemma_prepended_header_once(date, backlink_block(entry_id, desc_spec(thought)));
}

/// Merging into daily content that already holds the date header exactly
/// once keeps it exactly once, provided the date holds no newline and the
/// appended entry block does not contain the header line.
pub proof fn lemma_merge_daily_preserves_header_once(
    existing: Seq<char>,
    date: Seq<char>,
    entry_id: Seq<char>,
    thought: Seq<char>,
)
    requires
        contains_once(existing, header_line(date)),
        forall|k: int| 0 <= k < date.len() ==> date[k] != '\n',
        !contains_seq(entry_block(entry_id, thought), header_line(date)),
    ensures
        contains_once(merge_daily_spec(existing, date, entry_id, thought), header_line(date)),
{
    reveal_strlit("\n## ");
    let b = entry_block(entry_id, thought);
    assert(b[0] == '\n');
    lemma_extended_header_once(existing, date, b);
}

/// Merging a backlink into daily content that already holds the date header
/// exactly once keeps it exactly once, under the same provisos.
pub proof fn lemma_merge_backlink_preserves_header_once(
    existing: Seq<char>,
    date: Seq<char>,
    entry_id: Seq<char>,
    thought: Seq<char>,
)
    requires
        contains_once(existing, header_line(date)),
        forall|k: int| 0 <= k < date.len() ==> date[k] != '\n',
        !contains_seq(backlink_block(entry_id, desc_spec(thought)), header_line(date)),
    ensures
        contains_once(merge_backlink_spec(existing, date, entry_id, thought), header_line(date)),
{
    reveal_strlit("\n## ");
    let b = backlink_block(entry_id, desc_spec(thought));
    assert(b[0] == '\n');
    lemma_extended_header_once(existing, date, b);
}

/// Merging twice into the same day, starting from an absent file, leaves the
/// date header exactly once.
pub proof fn lemma_double_merge_header_once(
    date: Seq<char>,
    entry_id1: Seq<char>,
    thought1: Seq<char>,
    entry_id2: Seq<char>,
    thought2: Seq<char>,
)
    requires
        forall|k: int| 0 <= k < date.len() ==> date[k] != '#' && date[k] != '\n',
        !contains_seq(entry_block(entry_id1, thought1), header_line(date)),
        !contains_seq(entry_block(entry_id2, thought2), header_line(date)),
    ensures
        contains_once(
            merge_daily_spec(
                merge_daily_spec(Seq::empty(), date, entry_id1, thought1),
                date,
                entry_id2,
                thought2,
            ),
            header_line(date),
        ),
{
    lemma_fresh_daily_header_once(date, entry_id1, thought1);
    lemma_merge_daily_preserves_header_once(
        merge_daily_spec(Seq::empty(), date, entry_id1, thought1),
        date,
        entry_id2,
        thought2,
    );
}

} // verus!
