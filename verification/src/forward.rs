//! The boundary of the forwarding sink: validation of the authentication
//! selection and parsing of the extra header list, both settled before any
//! network activity. The HTTP call itself is the caller's.

use vstd::prelude::*;
use vstd::string::StrSliceExecFns;
use crate::desc::{char_is_whitespace, is_whitespace_char};
use crate::text::{contains_char, find_char, str_eq};

verus! {

/// The prefix of `s` before the first occurrence of `c` (all of `s` if `c`
/// does not occur).
pub open spec fn before_char(s: Seq<char>, c: char) -> Seq<char>
    decreases s.len(),
{
    if s.len() == 0 {
        s
    } else if s[0] == c {
        Seq::empty()
    } else {
        seq![s[0]] + before_char(s.drop_first(), c)
    }
}

/// The suffix of `s` after the first occurrence of `c` (empty if `c` does
/// not occur).
pub open spec fn after_char(s: Seq<char>, c: char) -> Seq<char>
    decreases s.len(),
{
    if s.len() == 0 {
        s
    } else if s[0] == c {
        s.drop_first()
    } else {
        after_char(s.drop_first(), c)
    }
}

/// Leading whitespace removed.
pub open spec fn trim_start_spec(s: Seq<char>) -> Seq<char>
    decreases s.len(),
{
    if s.len() > 0 && is_whitespace_char(s[0]) {
        trim_start_spec(s.drop_first())
    } else {
        s
    }
}

/// Trailing whitespace removed.
pub open spec fn trim_end_spec(s: Seq<char>) -> Seq<char>
    decreases s.len(),
{
    if s.len() > 0 && is_whitespace_char(s.last()) {
        trim_end_spec(s.drop_last())
    } else {
        s
    }
}

/// Leading and trailing whitespace removed, as `str::trim` does.
pub open spec fn trim_spec(s: Seq<char>) -> Seq<char> {
    trim_end_spec(trim_start_spec(s))
}

/// The header pairs one comma-separated item contributes: its key and value
/// around the first colon, both trimmed; an item without a colon contributes
/// nothing.
pub open spec fn item_pairs(item: Seq<char>) -> Seq<(Seq<char>, Seq<char>)> {
    if contains_char(item, ':') {
        seq![(trim_spec(before_char(item, ':')), trim_spec(after_char(item, ':')))]
    } else {
        Seq::empty()
    }
}

/// The header pairs of a comma-separated `key:value` list, in order,
/// unparseable items silently dropped.
pub open spec fn parse_pairs(s: Seq<char>) -> Seq<(Seq<char>, Seq<char>)>
    decreases s.len()
    via parse_pairs_decreases
{
    if contains_char(s, ',') {
        item_pairs(before_char(s, ',')) + parse_pairs(after_char(s, ','))
    } else {
        item_pairs(s)
    }
}

/// Some pair of `ps` has the key `key`.
pub open spec fn key_in(ps: Seq<(Seq<char>, Seq<char>)>, key: Seq<char>) -> bool {
    exists|i: int| 0 <= i < ps.len() && ps[i].0 == key
}

/// One pair per key, the last value winning: a pair survives only if no
/// later pair shares its key.
pub open spec fn dedup_keys(ps: Seq<(Seq<char>, Seq<char>)>) -> Seq<(Seq<char>, Seq<char>)>
    decreases ps.len(),
{
    if ps.len() == 0 {
        ps
    } else if key_in(ps.drop_first(), ps[0].0) {
        dedup_keys(ps.drop_first())
    } else {
        seq![ps[0]] + dedup_keys(ps.drop_first())
    }
}

/// `after_char` strictly shortens a string that holds the character.
proof fn lemma_after_char_shorter(s: Seq<char>, c: char)
    requires
        contains_char(s, c),
    ensures
        after_char(s, c).len() < s.len(),
    decreases s.len(),
{
    if s[0] == c {
    } else {
        let rest = s.drop_first();
        assert(contains_char(rest, c)) by {
            let i = choose|i: int| 0 <= i < s.len() && s[i] == c;
            assert(rest[i - 1] == c);
        }
        lemma_after_char_shorter(rest, c);
    }
}

#[via_fn]
proof fn parse_pairs_decreases(s: Seq<char>) {
    if contains_char(s, ',') {
        lemma_after_char_shorter(s, ',');
    }
}

/// `before_char` and `after_char` of a string whose first occurrence of `c`
/// (or end) is at `j` are the surrounding subranges.
proof fn lemma_char_split(s: Seq<char>, c: char, j: int)
    requires
        0 <= j <= s.len(),
        forall|k: int| 0 <= k < j ==> s[k] != c,
        j == s.len() || s[j] == c,
    ensures
        before_char(s, c) == s.subrange(0, j),
        j < s.len() ==> after_char(s, c) == s.subrange(j + 1, s.len() as int),
        j == s.len() ==> !contains_char(s, c),
    decreases s.len(),
{
    if s.len() == 0 {
        assert(before_char(s, c) =~= s.subrange(0, 0));
    } else if j == 0 {
        if j < s.len() {
            assert(before_char(s, c) =~= s.subrange(0, 0));
            assert(after_char(s, c) =~= s.subrange(1, s.len() as int));
        }
    } else {
        assert(s[0] != c);
        let rest = s.drop_first();
        assert(forall|k: int| 0 <= k < j - 1 ==> rest[k] == s[k + 1] && rest[k] != c);
        lemma_char_split(rest, c, j - 1);
        assert(seq![s[0]] + rest.subrange(0, j - 1) =~= s.subrange(0, j));
        if j < s.len() {
            assert(rest.subrange(j, rest.len() as int) =~= s.subrange(j + 1, s.len() as int));
        } else {
            if contains_char(s, c) {
                let i = choose|i: int| 0 <= i < s.len() && s[i] == c;
                assert(false);
            }
        }
    }
}

/// `trim_start_spec` of a string whose first non-whitespace character is at
/// `a` is the suffix from `a`.
proof fn lemma_trim_start(s: Seq<char>, a: int)
    requires
        0 <= a <= s.len(),
        forall|k: int| 0 <= k < a ==> is_whitespace_char(#[trigger] s[k]),
        a == s.len() || !is_whitespace_char(s[a]),
    ensures
        trim_start_spec(s) == s.subrange(a, s.len() as int),
    decreases s.len(),
{
    if s.len() == 0 {
        assert(trim_start_spec(s) =~= s.subrange(0, 0));
    } else if a == 0 {
        assert(trim_start_spec(s) =~= s.subrange(0, s.len() as int));
    } else {
        assert(is_whitespace_char(s[0]));
        let rest = s.drop_first();
        assert(forall|k: int| 0 <= k < a - 1 ==> #[trigger] rest[k] == s[k + 1]);
        lemma_trim_start(rest, a - 1);
        assert(rest.subrange(a - 1, rest.len() as int) =~= s.subrange(a, s.len() as int));
    }
}

/// `trim_end_spec` of a string whose last non-whitespace character is at `b`
/// is the prefix through `b`.
proof fn lemma_trim_end(s: Seq<char>, b: int)
    requires
        -1 <= b < s.len(),
        forall|k: int| b < k < s.len() ==> is_whitespace_char(#[trigger] s[k]),
        b == -1 || !is_whitespace_char(s[b]),
    ensures
        trim_end_spec(s) == s.subrange(0, b + 1),
    decreases s.len(),
{
    if s.len() == 0 {
        assert(trim_end_spec(s) =~= s.subrange(0, 0));
    } else if b == s.len() - 1 {
        assert(trim_end_spec(s) =~= s.subrange(0, s.len() as int));
    } else {
        assert(is_whitespace_char(s.last()));
        let rest = s.drop_last();
        assert(forall|k: int| 0 <= k < rest.len() ==> #[trigger] rest[k] == s[k]);
        lemma_trim_end(rest, b);
        assert(rest.subrange(0, b + 1) =~= s.subrange(0, b + 1));
    }
}

/// Removes leading and trailing whitespace.
pub fn trim_str(s: &str) -> (r: String)
    ensures
        r@ == trim_spec(s@),
{
    let len = s.unicode_len();
    let mut a: usize = 0;
    while a < len && char_is_whitespace(s.get_char(a))
        invariant
            len == s@.len(),
            a <= len,
            forall|k: int| 0 <= k < a ==> is_whitespace_char(#[trigger] s@[k]),
        decreases len - a,
    {
        a += 1;
    }
    proof {
        lemma_trim_start(s@, a as int);
    }
    if a == len {
        proof {
            assert(trim_start_spec(s@) =~= Seq::<char>::empty());
            assert(trim_spec(s@) =~= Seq::<char>::empty());
        }
        return String::new();
    }
    let mut b: usize = len - 1;
    while b > a && char_is_whitespace(s.get_char(b))
        invariant
            len == s@.len(),
            a <= b < len,
            !is_whitespace_char(s@[a as int]),
            forall|k: int| b < k < len ==> is_whitespace_char(#[trigger] s@[k]),
        decreases b,
    {
        b -= 1;
    }
    proof {
        let st = trim_start_spec(s@);
        assert(st == s@.subrange(a as int, len as int));
        assert(forall|k: int| 0 <= k < st.len() ==> #[trigger] st[k] == s@[k + a]);
        lemma_trim_end(st, b - a);
        assert(st.subrange(0, b - a + 1) =~= s@.subrange(a as int, b + 1));
    }
    let r = s.substring_char(a, b + 1).to_owned();
    r
}

/// One extra header: a name and a value for the forwarded request.
#[derive(Debug)]
pub struct HeaderPair {
    pub name: String,
    pub value: String,
}

/// The parsed pairs a list of `HeaderPair`s stands for.
pub open spec fn pairs_view(v: Seq<HeaderPair>) -> Seq<(Seq<char>, Seq<char>)> {
    v.map(|i: int, p: HeaderPair| (p.name@, p.value@))
}

/// Parses one comma-separated item and appends its pair, if it has one.
fn push_item_pairs(out: &mut Vec<HeaderPair>, item: &str)
    ensures
        pairs_view(final(out)@) == pairs_view(old(out)@) + item_pairs(item@),
{
    let item_len = item.unicode_len();
    match find_char(item, ':') {
        Some(j) => {
            proof {
                lemma_char_split(item@, ':', j as int);
            }
            let name = trim_str(item.substring_char(0, j));
            let value = trim_str(item.substring_char(j + 1, item_len));
            out.push(HeaderPair { name, value });
            proof {
                assert(contains_char(item@, ':')) by {
                    assert(item@[j as int] == ':');
                }
                assert(pairs_view(out@) =~= pairs_view(old(out)@) + item_pairs(item@));
            }
        },
        None => {
            proof {
                if contains_char(item@, ':') {
                    let i = choose|i: int| 0 <= i < item@.len() && item@[i] == ':';
                    assert(false);
                }
                assert(pairs_view(out@) =~= pairs_view(old(out)@) + item_pairs(item@));
            }
        },
    }
}

/// Parses a comma-separated `key:value` list into its raw pairs, in order;
/// the first colon of an item is the delimiter, and items without one are
/// silently dropped.
fn raw_header_pairs(s: &str) -> (r: Vec<HeaderPair>)
    ensures
        pairs_view(r@) == parse_pairs(s@),
{
    let mut result: Vec<HeaderPair> = Vec::new();
    let mut rest: &str = s;
    loop
        invariant_except_break
            pairs_view(result@) + parse_pairs(rest@) == parse_pairs(s@),
        ensures
            pairs_view(result@) == parse_pairs(s@),
        decreases rest@.len(),
    {
        let rest_len = rest.unicode_len();
        match find_char(rest, ',') {
            Some(i) => {
                proof {
                    lemma_char_split(rest@, ',', i as int);
                    assert(contains_char(rest@, ',')) by {
                        assert(rest@[i as int] == ',');
                    }
                }
                let item = rest.substring_char(0, i);
                let new_rest = rest.substring_char(i + 1, rest_len);
                push_item_pairs(&mut result, item);
                proof {
                    assert((pairs_view(result@) + parse_pairs(new_rest@))
                        =~= parse_pairs(s@));
                }
                rest = new_rest;
            },
            None => {
                proof {
                    if contains_char(rest@, ',') {
                        let i = choose|i: int| 0 <= i < rest@.len() && rest@[i] == ',';
                        assert(false);
                    }
                }
                push_item_pairs(&mut result, rest);
                proof {
                    assert(pairs_view(result@) =~= parse_pairs(s@));
                }
                break;
            },
        }
    }
    result
}

/// Keeps one pair per key, the last value winning.
fn dedup_pairs(raw: Vec<HeaderPair>) -> (r: Vec<HeaderPair>)
    ensures
        pairs_view(r@) == dedup_keys(pairs_view(raw@)),
{
    let n = raw.len();
    let ghost all = pairs_view(raw@);
    let mut result: Vec<HeaderPair> = Vec::new();
    proof {
        assert(all.subrange(0, n as int) =~= all);
        assert(pairs_view(result@) =~= Seq::<(Seq<char>, Seq<char>)>::empty());
        assert(Seq::<(Seq<char>, Seq<char>)>::empty() + dedup_keys(all) =~= dedup_keys(all));
    }
    let mut i: usize = 0;
    while i < n
        invariant
            n == raw.len(),
            i <= n,
            all == pairs_view(raw@),
            pairs_view(result@) + dedup_keys(all.subrange(i as int, n as int)) == dedup_keys(all),
        decreases n - i,
    {
        let mut dup = false;
        let mut j: usize = i + 1;
        while j < n
            invariant
                n == raw.len(),
                i < n,
                i + 1 <= j <= n,
                all == pairs_view(raw@),
                dup == exists|m: int| i < m < j && all[m].0 == all[i as int].0,
            decreases n - j,
        {
            if str_eq(raw[j].name.as_str(), raw[i].name.as_str()) {
                dup = true;
                proof {
                    assert(all[j as int].0 == all[i as int].0);
                }
            }
            j += 1;
        }
        let ghost suffix = all.subrange(i as int, n as int);
        let ghost tail = all.subrange(i as int + 1, n as int);
        proof {
            assert(suffix.drop_first() =~= tail);
            assert(suffix[0] == all[i as int]);
            if dup {
                let m = choose|m: int| i < m < n && all[m].0 == all[i as int].0;
                assert(tail[m - i - 1] == all[m]);
                assert(key_in(tail, suffix[0].0));
            } else if key_in(tail, suffix[0].0) {
                let t = choose|t: int| 0 <= t < tail.len() && tail[t].0 == suffix[0].0;
                assert(all[i + 1 + t].0 == all[i as int].0);
                assert(false);
            }
        }
        if !dup {
            let ghost before = pairs_view(result@);
            result.push(
                HeaderPair { name: raw[i].name.clone(), value: raw[i].value.clone() },
            );
            proof {
                assert(pairs_view(result@) =~= before + seq![all[i as int]]);
                assert((before + seq![all[i as int]]) + dedup_keys(tail) =~= before + (seq![
                    all[i as int]] + dedup_keys(tail)));
            }
        }
        i += 1;
    }
    proof {
        assert(all.subrange(i as int, n as int) =~= Seq::<(Seq<char>, Seq<char>)>::empty());
        assert(pairs_view(result@) + Seq::<(Seq<char>, Seq<char>)>::empty()
            =~= pairs_view(result@));
    }
    result
}

/// Parses a comma-separated `key:value` list into header pairs; the first
/// colon of an item is the delimiter, items without one are silently
/// dropped, and a key occurring more than once keeps only its last value.
pub fn parse_extra_headers(extra_headers: Option<&str>) -> (r: Vec<HeaderPair>)
    ensures
        pairs_view(r@) == match extra_headers {
            Some(s) => dedup_keys(parse_pairs(s@)),
            None => Seq::<(Seq<char>, Seq<char>)>::empty(),
        },
{
    match extra_headers {
        None => {
            let result: Vec<HeaderPair> = Vec::new();
            proof {
                assert(pairs_view(result@) =~= Seq::<(Seq<char>, Seq<char>)>::empty());
            }
            result
        },
        Some(s) => dedup_pairs(raw_header_pairs(s)),
    }
}

/// The authentication selected for a forwarded request.
#[derive(Debug)]
pub enum AuthPlan {
    /// No authentication.
    NoAuth,
    /// A bearer token.
    Bearer(String),
    /// Basic authentication with a username and a password.
    Basic(String, String),
}

/// A forwarding request rejected before any network activity.
#[derive(Clone, Copy, Debug, PartialEq, Eq, Structural)]
pub enum ForwardError {
    /// The URL is empty.
    EmptyUrl,
    /// Bearer authentication without a token.
    MissingBearerToken,
    /// Basic authentication without a username or a password.
    MissingBasicCredentials,
}

impl ForwardError {
    /// The user-visible message for this rejection.
    pub fn message(&self) -> (r: String)
        ensures
            *self is EmptyUrl ==> r@ == "Error: URL cannot be empty"@,
            *self is MissingBearerToken ==> r@
                == "Error: Bearer token required for bearer auth"@,
            *self is MissingBasicCredentials ==> r@
                == "Error: Username and password required for basic auth"@,
    {
        match self {
            ForwardError::EmptyUrl => "Error: URL cannot be empty".to_owned(),
            ForwardError::MissingBearerToken => {
                "Error: Bearer token required for bearer auth".to_owned()
            },
            ForwardError::MissingBasicCredentials => {
                "Error: Username and password required for basic auth".to_owned()
            },
        }
    }
}

/// What the caller is to send: the authentication and the extra headers.
#[derive(Debug)]
pub struct ForwardRequest {
    pub auth: AuthPlan,
    pub headers: Vec<HeaderPair>,
}

impl ForwardRequest {
    /// The headers a valid forwarding request carries: the parsed list,
    /// one pair per key.
    pub open spec fn headers_ok(self, extra_headers: Option<&str>) -> bool {
        pairs_view(self.headers@) == match extra_headers {
            Some(s) => dedup_keys(parse_pairs(s@)),
            None => Seq::<(Seq<char>, Seq<char>)>::empty(),
        }
    }
}

/// Validates a forwarding request: a non-empty URL and complete credentials
/// for the selected authentication kind, with the extra header list parsed.
/// Any unrecognized authentication kind means no authentication, as does
/// `none`.
pub fn plan_forward(
    url: &str,
    auth_type: &str,
    auth_token: Option<&str>,
    username: Option<&str>,
    password: Option<&str>,
    extra_headers: Option<&str>,
) -> (r: Result<ForwardRequest, ForwardError>)
    ensures
        url@.len() == 0 ==> r == Err::<ForwardRequest, ForwardError>(ForwardError::EmptyUrl),
        url@.len() > 0 && auth_type@ == "bearer"@ ==> (match auth_token {
            None => r == Err::<ForwardRequest, ForwardError>(ForwardError::MissingBearerToken),
            Some(t) => r matches Ok(f) && (f.auth matches AuthPlan::Bearer(tok) && tok@ == t@)
                && f.headers_ok(extra_headers),
        }),
        url@.len() > 0 && auth_type@ == "basic"@ ==> (match (username, password) {
            (Some(u), Some(p)) => r matches Ok(f) && (f.auth matches AuthPlan::Basic(au, ap)
                && au@ == u@ && ap@ == p@) && f.headers_ok(extra_headers),
            _ => r == Err::<ForwardRequest, ForwardError>(ForwardError::MissingBasicCredentials),
        }),
        url@.len() > 0 && auth_type@ != "bearer"@ && auth_type@ != "basic"@ ==> (r matches Ok(f)
            && f.auth is NoAuth && f.headers_ok(extra_headers)),
{
    if url.is_empty() {
        return Err(ForwardError::EmptyUrl);
    }
    proof {
        reveal_strlit("bearer");
        reveal_strlit("basic");
        assert("bearer"@.len() == 6);
        assert("basic"@.len() == 5);
    }
    let auth = if str_eq(auth_type, "bearer") {
        match auth_token {
            Some(t) => AuthPlan::Bearer(t.to_owned()),
            None => {
                return Err(ForwardError::MissingBearerToken);
            },
        }
    } else if str_eq(auth_type, "basic") {
        match (username, password) {
            (Some(u), Some(p)) => AuthPlan::Basic(u.to_owned(), p.to_owned()),
            _ => {
                return Err(ForwardError::MissingBasicCredentials);
            },
        }
    } else {
        AuthPlan::NoAuth
    };
    let headers = parse_extra_headers(extra_headers);
    Ok(ForwardRequest { auth, headers })
}

} // verus!
