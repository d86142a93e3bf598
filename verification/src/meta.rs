use vstd::prelude::*;

use crate::text::{begins_with, chars_of, starts_with, string_of, sub_chars};

verus! {

/// The characters of each string, in order.
pub open spec fn views(v: Seq<String>) -> Seq<Seq<char>> {
    v.map_values(|s: String| s@)
}

/// The characters of an optional string.
pub open spec fn opt_view(o: Option<String>) -> Option<Seq<char>> {
    match o {
        Some(s) => Some(s@),
        None => None,
    }
}

/// Metadata for a single repository, as returned by `/api/<segment>/<id>`.
#[derive(Debug, Clone)]
pub struct RepoInfo {
    pub id: String,
    pub author: Option<String>,
    pub sha: Option<String>,
    pub last_modified: Option<String>,
    pub pipeline_tag: Option<String>,
    pub library_name: Option<String>,
    pub downloads: Option<u64>,
    pub likes: Option<u64>,
    pub tags: Vec<String>,
    pub siblings: Vec<Sibling>,
    pub card_data: Option<CardData>,
}

/// One file tracked by a repository.
#[derive(Debug, Clone)]
pub struct Sibling {
    pub rfilename: String,
}

/// The model card's metadata.
#[derive(Debug, Clone)]
pub struct CardData {
    pub license: Option<LicenseField>,
}

/// The `license` value of a model card: a string, or a value of another JSON
/// type (which names no license).
#[derive(Debug, Clone)]
pub enum LicenseField {
    Text(String),
    Other,
}

/// The license named by the first tag of the form `license:<id>`.
pub open spec fn tag_license(tags: Seq<Seq<char>>) -> Option<Seq<char>>
    decreases tags.len(),
{
    if tags.len() == 0 {
        None
    } else if starts_with(tags[0], "license:"@) {
        Some(tags[0].skip("license:"@.len() as int))
    } else {
        tag_license(tags.drop_first())
    }
}

impl RepoInfo {
    /// The declared license: the model card's, when it gives one as a string,
    /// else the one a `license:<id>` tag names.
    pub open spec fn license_spec(self) -> Option<Seq<char>> {
        match self.card_data {
            Some(c) => match c.license {
                Some(LicenseField::Text(s)) => Some(s@),
                _ => tag_license(views(self.tags@)),
            },
            None => tag_license(views(self.tags@)),
        }
    }

    /// The declared license, taken from the model card or a `license:<id>` tag.
    pub fn license(&self) -> (l: Option<String>)
        ensures
            opt_view(l) == self.license_spec(),
    {
        match &self.card_data {
            Some(c) => match &c.license {
                Some(LicenseField::Text(s)) => {
                    return Some(s.clone());
                },
                _ => {},
            },
            None => {},
        }
        license_from_tags(&self.tags)
    }

    /// The tracked file names for this repository.
    pub fn files(&self) -> (f: Vec<String>)
        ensures
            f.len() == self.siblings.len(),
            forall|i: int| 0 <= i < f.len() ==> #[trigger] f[i]@ == self.siblings[i].rfilename@,
    {
        let mut f: Vec<String> = Vec::new();
        let mut i: usize = 0;
        while i < self.siblings.len()
            invariant
                i <= self.siblings.len(),
                f.len() == i,
                forall|j: int| 0 <= j < i ==> #[trigger] f[j]@ == self.siblings[j].rfilename@,
            decreases self.siblings.len() - i,
        {
            f.push(self.siblings[i].rfilename.clone());
            i += 1;
        }
        f
    }
}

fn license_from_tags(tags: &Vec<String>) -> (l: Option<String>)
    ensures
        opt_view(l) == tag_license(views(tags@)),
{
    let prefix = chars_of("license:");
    let ghost all = views(tags@);
    let mut i: usize = 0;
    assert(all.skip(0) == all);
    while i < tags.len()
        invariant
            i <= tags.len(),
            all == views(tags@),
            prefix@ == "license:"@,
            tag_license(all) == tag_license(all.skip(i as int)),
        decreases tags.len() - i,
    {
        let t = chars_of(tags[i].as_str());
        assert(all.skip(i as int)[0] == t@);
        if begins_with(&t, &prefix) {
            return Some(string_of(&sub_chars(&t, prefix.len(), t.len())));
        }
        assert(all.skip(i as int).drop_first() == all.skip(i + 1));
        i += 1;
    }
    None
}

/// One commit entry from `/api/<segment>/<id>/commits/<revision>`.
#[derive(Debug, Clone)]
pub struct CommitInfo {
    pub id: String,
    pub title: String,
    pub message: String,
    pub authors: Vec<CommitAuthor>,
    pub date: String,
}

/// An author of a commit, as the Hub names them.
#[derive(Debug, Clone)]
pub struct CommitAuthor {
    pub user: Option<String>,
    pub name: Option<String>,
}

impl CommitAuthor {
    /// The author's handle: the username, else the display name, else
    /// `unknown`.
    pub open spec fn handle_spec(self) -> Seq<char> {
        match self.user {
            Some(u) => u@,
            None => match self.name {
                Some(n) => n@,
                None => "unknown"@,
            },
        }
    }

    /// A stable handle for this author (username, else display name).
    pub fn handle(&self) -> (h: String)
        ensures
            h@ == self.handle_spec(),
    {
        match &self.user {
            Some(u) => u.clone(),
            None => match &self.name {
                Some(n) => n.clone(),
                None => String::from_str("unknown"),
            },
        }
    }
}

/// Whether `c` is an ASCII letter or digit.
pub open spec fn is_ascii_alnum(c: char) -> bool {
    ||| '0' <= c <= '9'
    ||| 'a' <= c <= 'z'
    ||| 'A' <= c <= 'Z'
}

/// The character that stands for `c` in a person's IRI: ASCII letters,
/// digits, `-` and `_` stay, anything else becomes `-`.
pub open spec fn slug_char(c: char) -> char {
    if is_ascii_alnum(c) || c == '-' || c == '_' {
        c
    } else {
        '-'
    }
}

/// A handle with each character replaced by its slug character.
pub open spec fn slug(handle: Seq<char>) -> Seq<char> {
    handle.map_values(|c: char| slug_char(c))
}

/// The IRI of a Hub user: `https://huggingface.co/<slug of the handle>`.
pub open spec fn person_iri_of(handle: Seq<char>) -> Seq<char> {
    "https://huggingface.co/"@ + slug(handle)
}

fn slug_of(c: char) -> (r: char)
    ensures
        r == slug_char(c),
{
    if ('0' <= c && c <= '9') || ('a' <= c && c <= 'z') || ('A' <= c && c <= 'Z') || c == '-'
        || c == '_' {
        c
    } else {
        '-'
    }
}

/// IRI for a Hub user/author: `https://huggingface.co/<handle>`.
pub fn person_iri(handle: &str) -> (iri: String)
    ensures
        iri@ == person_iri_of(handle@),
{
    let h = chars_of(handle);
    let mut s: Vec<char> = Vec::new();
    let mut i: usize = 0;
    while i < h.len()
        invariant
            i <= h.len(),
            s@ == slug(h@.take(i as int)),
        decreases h.len() - i,
    {
        s.push(slug_of(h[i]));
        assert(slug(h@.take(i + 1)) == slug(h@.take(i as int)).push(slug_char(h@[i as int])));
        i += 1;
    }
    assert(h@.take(h.len() as int) == h@);
    let mut iri = String::from_str("https://huggingface.co/");
    let tail = string_of(&s);
    iri.append(tail.as_str());
    iri
}

/// Law: a person's IRI is the Hub's base followed by a slug as long as the
/// handle, made only of ASCII letters, digits, `-` and `_`, that keeps each
/// such character of the handle where it stands.
pub proof fn lemma_person_iri_slug(handle: Seq<char>)
    ensures
        person_iri_of(handle).len() == "https://huggingface.co/"@.len() + handle.len(),
        forall|i: int|
            0 <= i < handle.len() ==> {
                let c = #[trigger] slug(handle)[i];
                &&& is_ascii_alnum(c) || c == '-' || c == '_'
                &&& (is_ascii_alnum(handle[i]) || handle[i] == '-' || handle[i] == '_') ==> c
                    == handle[i]
            },
{
}


/// Whether `t` is a tag of the form `license:<id>`.
pub open spec fn is_license_tag(t: Seq<char>) -> bool {
    "license:"@.len() <= t.len() && t.take("license:"@.len() as int) == "license:"@
}

/// The license a card states as a string, if it does.
pub open spec fn card_license_text(card: Option<CardData>) -> Option<Seq<char>> {
    match card {
        Some(c) => match c.license {
            Some(LicenseField::Text(s)) => Some(s@),
            _ => None,
        },
        None => None,
    }
}

proof fn lemma_tag_license_first(ts: Seq<Seq<char>>)
    ensures
        tag_license(ts) is None <==> forall|k: int| 0 <= k < ts.len() ==> !is_license_tag(#[trigger] ts[k]),
        forall|k: int|
            0 <= k < ts.len() && is_license_tag(#[trigger] ts[k]) && (forall|j: int|
                0 <= j < k ==> !is_license_tag(ts[j])) ==> tag_license(ts) == Some(
                ts[k].skip("license:"@.len() as int),
            ),
    decreases ts.len(),
{
    if ts.len() > 0 {
        let rest = ts.drop_first();
        lemma_tag_license_first(rest);
        assert forall|k: int| 0 < k < ts.len() implies ts[k] == #[trigger] rest[k - 1] by {}
        if !is_license_tag(ts[0]) {
            assert forall|k: int|
                0 <= k < ts.len() && is_license_tag(#[trigger] ts[k]) && (forall|j: int|
                    0 <= j < k ==> !is_license_tag(ts[j])) implies tag_license(ts) == Some(
                ts[k].skip("license:"@.len() as int),
            ) by {
                assert(rest[k - 1] == ts[k]);
                assert forall|j: int| 0 <= j < k - 1 implies !is_license_tag(rest[j]) by {
                    assert(rest[j] == ts[j + 1]);
                }
            }
            if tag_license(ts) is None {
                assert forall|k: int| 0 <= k < ts.len() implies !is_license_tag(#[trigger] ts[k]) by {
                    if k > 0 {
                        assert(rest[k - 1] == ts[k]);
                    }
                }
            }
        }
    }
}

/// Law: a card that states its license as a string decides the license;
/// otherwise (no card, no `license` field, or a value that is not a string)
/// the license is the rest of the first tag that starts with `license:`, and
/// there is none when no tag does.
pub proof fn lemma_license_choice(repo: RepoInfo)
    ensures
        card_license_text(repo.card_data) is Some ==> repo.license_spec() == card_license_text(
            repo.card_data,
        ),
        card_license_text(repo.card_data) is None ==> (repo.license_spec() is None <==> forall|
            k: int,
        | 0 <= k < repo.tags.len() ==> !is_license_tag(#[trigger] repo.tags[k]@)),
        card_license_text(repo.card_data) is None ==> forall|k: int|
            0 <= k < repo.tags.len() && is_license_tag(#[trigger] repo.tags[k]@) && (forall|j: int|
                0 <= j < k ==> !is_license_tag(repo.tags[j]@)) ==> repo.license_spec() == Some(
                repo.tags[k]@.skip("license:"@.len() as int),
            ),
{
    let ts = views(repo.tags@);
    lemma_tag_license_first(ts);
    assert forall|k: int| 0 <= k < repo.tags.len() implies #[trigger] ts[k] == repo.tags[k]@ by {}
    if card_license_text(repo.card_data) is None {
        assert forall|k: int|
            0 <= k < repo.tags.len() && is_license_tag(#[trigger] repo.tags[k]@) && (forall|j: int|
                0 <= j < k ==> !is_license_tag(repo.tags[j]@)) implies repo.license_spec() == Some(
            repo.tags[k]@.skip("license:"@.len() as int),
        ) by {
            assert(ts[k] == repo.tags[k]@);
            assert forall|j: int| 0 <= j < k implies !is_license_tag(ts[j]) by {
                assert(ts[j] == repo.tags[j]@);
            }
        }
        if repo.license_spec() is None {
            assert forall|k: int| 0 <= k < repo.tags.len() implies !is_license_tag(
                #[trigger] repo.tags[k]@,
            ) by {
                assert(ts[k] == repo.tags[k]@);
            }
        } else {
            let k = choose|k: int| 0 <= k < ts.len() && is_license_tag(#[trigger] ts[k]);
            assert(ts[k] == repo.tags[k]@);
        }
    }
}


/// Law: an author's handle is the username when there is one, else the
/// display name when there is one, else `unknown`; the display name counts
/// only without a username.
pub proof fn lemma_handle_choice(a: CommitAuthor)
    ensures
        a.user matches Some(u) ==> a.handle_spec() == u@,
        a.user is None && a.name is Some ==> a.handle_spec() == a.name->0@,
        a.user is None && a.name is None ==> a.handle_spec() == "unknown"@,
{
}

} // verus!
