use vstd::prelude::*;

use crate::kind::RepoKind;
use crate::meta::{CommitInfo, opt_view};
use crate::repo::RepoRef;
use crate::text::{decimal, push_decimal, string_of};
use vstd::utf8::{decode_utf8, encode_utf8, is_char_boundary};

verus! {

/// The Hub API endpoint of a repository's metadata:
/// `https://huggingface.co/api/<segment>/<id>`.
pub open spec fn repo_api_url_of(kind: RepoKind, id: Seq<char>) -> Seq<char> {
    "https://huggingface.co/api/"@ + kind.api_segment_spec() + "/"@ + id
}

/// The Hub API endpoint of a repository's metadata.
pub fn repo_api_url(r: &RepoRef) -> (url: String)
    ensures
        url@ == repo_api_url_of(r.kind, r.id@),
{
    let mut url = String::from_str("https://huggingface.co/api/");
    url.append(r.kind.api_segment());
    url.append("/");
    url.append(r.id.as_str());
    url
}

/// The Hub API endpoint of a repository's commit history on `main`, asking
/// for at most `max` commits when a cap is given.
pub open spec fn commits_api_url_of(kind: RepoKind, id: Seq<char>, max: Option<usize>) -> Seq<
    char,
> {
    repo_api_url_of(kind, id) + "/commits/main"@ + match max {
        Some(n) => "?limit="@ + decimal(n as nat),
        None => Seq::empty(),
    }
}

/// The Hub API endpoint of a repository's commit history.
pub fn commits_api_url(r: &RepoRef, max: Option<usize>) -> (url: String)
    ensures
        url@ == commits_api_url_of(r.kind, r.id@, max),
{
    let mut url = repo_api_url(r);
    url.append("/commits/main");
    match max {
        Some(n) => {
            let mut digits: Vec<char> = Vec::new();
            push_decimal(&mut digits, n);
            assert(digits@ =~= decimal(n as nat));
            url.append("?limit=");
            let text = string_of(&digits);
            url.append(text.as_str());
        },
        None => {
            assert(url@ =~= commits_api_url_of(r.kind, r.id@, max));
        },
    }
    url
}

/// Keeps the `max` newest commits (the Hub lists the newest first), or all
/// of them when no cap is given.
pub fn cap_commits(commits: Vec<CommitInfo>, max: Option<usize>) -> (kept: Vec<CommitInfo>)
    ensures
        kept@ == match max {
            Some(n) => if n < commits.len() {
                commits@.take(n as int)
            } else {
                commits@
            },
            None => commits@,
        },
{
    let mut kept = commits;
    match max {
        Some(n) => {
            kept.truncate(n);
        },
        None => {},
    }
    kept
}

/// The variables that may hold an access token for gated/private
/// repositories, in the order they are tried.
pub open spec fn token_variables_spec() -> Seq<Seq<char>> {
    seq!["ASIMOV_HUGGINGFACE_TOKEN"@, "HF_TOKEN"@, "HUGGING_FACE_HUB_TOKEN"@]
}

/// The variables that may hold an access token, in the order they are tried.
pub fn token_variables() -> (names: Vec<&'static str>)
    ensures
        names@.map_values(|s: &str| s@) == token_variables_spec(),
{
    let mut names: Vec<&'static str> = Vec::new();
    names.push("ASIMOV_HUGGINGFACE_TOKEN");
    names.push("HF_TOKEN");
    names.push("HUGGING_FACE_HUB_TOKEN");
    assert(names@.map_values(|s: &str| s@) =~= token_variables_spec());
    names
}

/// The first value that is set and not empty.
pub open spec fn chosen_token(values: Seq<Option<String>>) -> Option<Seq<char>>
    decreases values.len(),
{
    if values.len() == 0 {
        None
    } else if values[0] is Some && values[0]->0@.len() > 0 {
        Some(values[0]->0@)
    } else {
        chosen_token(values.drop_first())
    }
}

/// The token to use: the first of the values read from the token variables
/// (in their order) that is set and not empty.
pub fn select_token(values: &Vec<Option<String>>) -> (token: Option<String>)
    ensures
        opt_view(token) == chosen_token(values@),
{
    let mut i: usize = 0;
    assert(values@.skip(0) == values@);
    while i < values.len()
        invariant
            i <= values.len(),
            chosen_token(values@) == chosen_token(values@.skip(i as int)),
        decreases values.len() - i,
    {
        assert(values@.skip(i as int)[0] == values@[i as int]);
        match &values[i] {
            Some(v) => {
                if !v.as_str().is_empty() {
                    return Some(v.clone());
                }
            },
            None => {},
        }
        assert(values@.skip(i as int).drop_first() == values@.skip(i + 1));
        i += 1;
    }
    None
}

/// The `Authorization` header value for a token.
pub fn authorization_value(token: &str) -> (value: String)
    ensures
        value@ == "Bearer "@ + token@,
{
    let mut value = String::from_str("Bearer ");
    value.append(token);
    value
}

/// The number of leading bytes of a commit id that its short form keeps: at
/// most 8.
pub open spec fn short_len(id: Seq<char>) -> int {
    let n = encode_utf8(id).len() as int;
    if n < 8 {
        n
    } else {
        8
    }
}

/// The short form of a commit id: its first 8 bytes (all of it when it is
/// shorter).
pub open spec fn short_id(id: Seq<char>) -> Seq<char> {
    decode_utf8(encode_utf8(id).take(short_len(id)))
}

/// Who a commit is shown as: its first author's handle, else `unknown`.
pub open spec fn shown_author(c: CommitInfo) -> Seq<char> {
    if c.authors.len() > 0 {
        c.authors[0].handle_spec()
    } else {
        "unknown"@
    }
}

/// One line of the plain listing of a commit:
/// `<short id>  <date>  <<author>>  <title>`.
pub open spec fn cli_line_of(c: CommitInfo) -> Seq<char> {
    short_id(c.id@) + "  "@ + c.date@ + "  <"@ + shown_author(c) + ">  "@ + c.title@
}

/// One line of the plain listing of a commit. The id is cut at its 8th byte,
/// which must fall between two characters.
pub fn cli_line(c: &CommitInfo) -> (line: String)
    requires
        encode_utf8(c.id@).len() <= usize::MAX,
        is_char_boundary(encode_utf8(c.id@), short_len(c.id@)),
    ensures
        line@ == cli_line_of(*c),
{
    let id = c.id.as_str();
    let n = id.len();
    let k: usize = if n < 8 {
        n
    } else {
        8
    };
    let (short, _) = id.split_at(k);
    proof {
        vstd::utf8::encode_utf8_decode_utf8(short@);
        assert(encode_utf8(id@).take(k as int) == encode_utf8(id@).subrange(0, k as int));
    }
    let who = if c.authors.len() > 0 {
        c.authors[0].handle()
    } else {
        String::from_str("unknown")
    };
    let mut line = String::from_str(short);
    line.append("  ");
    line.append(c.date.as_str());
    line.append("  <");
    line.append(who.as_str());
    line.append(">  ");
    line.append(c.title.as_str());
    line
}


/// Law: the line of a commit shows the handle of its first author, or
/// `unknown` when the commit has no authors.
pub proof fn lemma_cli_line_shows_first_author(c: CommitInfo)
    ensures
        c.authors.len() > 0 ==> cli_line_of(c) == short_id(c.id@) + "  "@ + c.date@ + "  <"@
            + c.authors[0].handle_spec() + ">  "@ + c.title@,
        c.authors.len() == 0 ==> cli_line_of(c) == short_id(c.id@) + "  "@ + c.date@ + "  <"@
            + "unknown"@ + ">  "@ + c.title@,
{
}


/// Law: the commit history endpoint is the metadata endpoint followed by
/// `/commits/main`, then `?limit=<n>` exactly when a cap `n` is given.
pub proof fn lemma_commits_url_extends_repo_url(kind: RepoKind, id: Seq<char>, max: Option<usize>)
    ensures
        commits_api_url_of(kind, id, None) == repo_api_url_of(kind, id) + "/commits/main"@,
        max matches Some(n) ==> commits_api_url_of(kind, id, max) == commits_api_url_of(
            kind,
            id,
            None,
        ) + "?limit="@ + decimal(n as nat),
{
    assert(commits_api_url_of(kind, id, None) =~= repo_api_url_of(kind, id) + "/commits/main"@);
    if let Some(n) = max {
        assert(commits_api_url_of(kind, id, max) =~= commits_api_url_of(kind, id, None)
            + "?limit="@ + decimal(n as nat));
    }
}

/// Law: the token is the first value that is set and not empty, and there is
/// none when every value is unset or empty.
pub proof fn lemma_token_is_first_set(values: Seq<Option<String>>)
    ensures
        chosen_token(values) is None <==> forall|k: int|
            0 <= k < values.len() ==> (#[trigger] values[k] is None || values[k]->0@.len() == 0),
        forall|k: int|
            0 <= k < values.len() && #[trigger] values[k] is Some && values[k]->0@.len() > 0 && (
            forall|j: int| 0 <= j < k ==> (values[j] is None || values[j]->0@.len() == 0))
                ==> chosen_token(values) == Some(values[k]->0@),
    decreases values.len(),
{
    if values.len() > 0 {
        let rest = values.drop_first();
        lemma_token_is_first_set(rest);
        assert forall|k: int| 0 < k < values.len() implies values[k] == #[trigger] rest[k - 1] by {}
        if !(values[0] is Some && values[0]->0@.len() > 0) {
            assert forall|k: int|
                0 <= k < values.len() && #[trigger] values[k] is Some && values[k]->0@.len() > 0
                    && (forall|j: int|
                    0 <= j < k ==> (values[j] is None || values[j]->0@.len() == 0)) implies chosen_token(
                values,
            ) == Some(values[k]->0@) by {
                assert(rest[k - 1] == values[k]);
                assert forall|j: int| 0 <= j < k - 1 implies (rest[j] is None || rest[j]->0@.len()
                    == 0) by {
                    assert(rest[j] == values[j + 1]);
                }
            }
            if chosen_token(values) is None {
                assert forall|k: int| 0 <= k < values.len() implies (#[trigger] values[k] is None
                    || values[k]->0@.len() == 0) by {
                    if k > 0 {
                        assert(rest[k - 1] == values[k]);
                    }
                }
            } else {
                let k = choose|k: int|
                    0 <= k < rest.len() && !(#[trigger] rest[k] is None || rest[k]->0@.len() == 0);
                assert(values[k + 1] == rest[k]);
            }
        }
    }
}

} // verus!
