use vstd::prelude::*;

use crate::kind::RepoKind;
use crate::text::{
    begins_with, chars_of, find, find_chars, index_of, is_white_space, lemma_find_first,
    lemma_find_from_some, lemma_index_of, lemma_index_of_is, lemma_trim_back_at,
    lemma_trim_front_at, occurs_at, position_of, same_chars, starts_with, string_of, sub_chars,
    trim_both, trim_chars,
};

verus! {

/// A parsed reference to a Hugging Face repository.
#[derive(Debug, Clone, PartialEq, Eq)]
pub struct RepoRef {
    pub kind: RepoKind,
    /// The canonical repo id, e.g. `google-bert/bert-base-uncased` or `squad`.
    pub id: String,
}

/// Path segments that end a repo id when a URL is read.
pub open spec fn is_reserved(seg: Seq<char>) -> bool {
    ||| seg == "tree"@
    ||| seg == "blob"@
    ||| seg == "resolve"@
    ||| seg == "commit"@
    ||| seg == "commits"@
    ||| seg == "raw"@
    ||| seg == "discussions"@
    ||| seg == "edit"@
}

/// A segment that can stand in a repo id: not empty and not reserved.
pub open spec fn accepted_segment(seg: Seq<char>) -> bool {
    seg.len() > 0 && !is_reserved(seg)
}

/// What follows the host of a URL whose scheme was cut off: everything after
/// the first `/`, or nothing.
pub open spec fn after_host(u: Seq<char>) -> Seq<char> {
    let k = index_of(u, '/');
    if k < u.len() {
        u.skip(k + 1)
    } else {
        Seq::empty()
    }
}

/// The path of a reference: with a scheme, what follows the host; else
/// what follows a leading `huggingface.co/` or `hf.co/`; else all of it.
pub open spec fn url_path(t: Seq<char>) -> Seq<char> {
    match find(t, "://"@) {
        Some(p) => after_host(t.skip(p + "://"@.len())),
        None => if starts_with(t, "huggingface.co/"@) {
            t.skip("huggingface.co/"@.len() as int)
        } else if starts_with(t, "hf.co/"@) {
            t.skip("hf.co/"@.len() as int)
        } else {
            t
        },
    }
}

/// The kind that a leading `datasets/` or `spaces/` gives, and what follows
/// it; a model and the whole path otherwise.
pub open spec fn kind_split(s: Seq<char>) -> (RepoKind, Seq<char>) {
    if starts_with(s, "datasets/"@) {
        (RepoKind::Dataset, s.skip("datasets/"@.len() as int))
    } else if starts_with(s, "spaces/"@) {
        (RepoKind::Space, s.skip("spaces/"@.len() as int))
    } else {
        (RepoKind::Model, s)
    }
}

/// The repo id in `rest`: its first `/`-separated segment, and the second
/// joined by `/`, each taken only while it is accepted; empty when the first
/// is not.
pub open spec fn repo_id_of(rest: Seq<char>) -> Seq<char> {
    let e1 = index_of(rest, '/');
    let a = rest.take(e1);
    if !accepted_segment(a) {
        Seq::empty()
    } else if e1 == rest.len() {
        a
    } else {
        let r2 = rest.skip(e1 + 1);
        let b = r2.take(index_of(r2, '/'));
        if accepted_segment(b) {
            a + seq!['/'] + b
        } else {
            a
        }
    }
}

/// The reference that `input` names: its kind and repo id, or `None` when no
/// repo id can be read from it.
pub open spec fn parsed_ref(input: Seq<char>) -> Option<(RepoKind, Seq<char>)> {
    let path = trim_both(url_path(trim_both(input, false)), true);
    let split = kind_split(path);
    let id = repo_id_of(split.1);
    if id.len() > 0 {
        Some((split.0, id))
    } else {
        None
    }
}

/// What `{:?}` prints for a string: `str`'s `Debug` output.
pub uninterp spec fn debug_text(s: Seq<char>) -> Seq<char>;

/// Formats `s` with `str`'s `Debug` (quoted and escaped).
#[verifier::external_body]
fn debug_quoted(s: &str) -> (r: String)
    ensures
        r@ == debug_text(s@),
{
    format!("{s:?}")
}

/// The message of a reference that could not be read, around its quoted form.
pub open spec fn parse_failure_text(quoted: Seq<char>) -> Seq<char> {
    "could not parse a repository id from "@ + quoted
}

/// The message of a reference that could not be read, given its quoted form.
pub fn parse_failure_message(quoted: &str) -> (m: String)
    ensures
        m@ == parse_failure_text(quoted@),
{
    let mut m = String::from_str("could not parse a repository id from ");
    m.append(quoted);
    m
}

fn reserved_segment(seg: &Vec<char>) -> (b: bool)
    ensures
        b == is_reserved(seg@),
{
    same_chars(seg, &chars_of("tree")) || same_chars(seg, &chars_of("blob")) || same_chars(
        seg,
        &chars_of("resolve"),
    ) || same_chars(seg, &chars_of("commit")) || same_chars(seg, &chars_of("commits"))
        || same_chars(seg, &chars_of("raw")) || same_chars(seg, &chars_of("discussions"))
        || same_chars(seg, &chars_of("edit"))
}

fn segment_accepted(seg: &Vec<char>) -> (b: bool)
    ensures
        b == accepted_segment(seg@),
{
    seg.len() > 0 && !reserved_segment(seg)
}

fn host_cut(u: &Vec<char>) -> (r: Vec<char>)
    ensures
        r@ == after_host(u@),
{
    let k = position_of(u, '/');
    proof {
        lemma_index_of(u@, '/');
    }
    if k < u.len() {
        sub_chars(u, k + 1, u.len())
    } else {
        Vec::new()
    }
}

fn path_of(t: &Vec<char>) -> (r: Vec<char>)
    ensures
        r@ == url_path(t@),
{
    let sep = chars_of("://");
    match find_chars(t, &sep) {
        Some(p) => {
            proof {
                lemma_find_from_some(t@, sep@, 0);
            }
            let rest = sub_chars(t, p + sep.len(), t.len());
            host_cut(&rest)
        },
        None => {
            let long = chars_of("huggingface.co/");
            let short = chars_of("hf.co/");
            if begins_with(t, &long) {
                sub_chars(t, long.len(), t.len())
            } else if begins_with(t, &short) {
                sub_chars(t, short.len(), t.len())
            } else {
                sub_chars(t, 0, t.len())
            }
        },
    }
}

fn split_kind(s: &Vec<char>) -> (r: (RepoKind, Vec<char>))
    ensures
        r.0 == kind_split(s@).0,
        r.1@ == kind_split(s@).1,
{
    let datasets = chars_of("datasets/");
    let spaces = chars_of("spaces/");
    if begins_with(s, &datasets) {
        (RepoKind::Dataset, sub_chars(s, datasets.len(), s.len()))
    } else if begins_with(s, &spaces) {
        (RepoKind::Space, sub_chars(s, spaces.len(), s.len()))
    } else {
        (RepoKind::Model, sub_chars(s, 0, s.len()))
    }
}

fn repo_id(rest: &Vec<char>) -> (id: Vec<char>)
    ensures
        id@ == repo_id_of(rest@),
{
    proof {
        lemma_index_of(rest@, '/');
    }
    let e1 = position_of(rest, '/');
    let a = sub_chars(rest, 0, e1);
    if !segment_accepted(&a) {
        return Vec::new();
    }
    if e1 == rest.len() {
        return a;
    }
    let r2 = sub_chars(rest, e1 + 1, rest.len());
    proof {
        lemma_index_of(r2@, '/');
    }
    let e2 = position_of(&r2, '/');
    let mut b = sub_chars(&r2, 0, e2);
    if segment_accepted(&b) {
        let mut id = a;
        id.push('/');
        id.append(&mut b);
        id
    } else {
        a
    }
}

/// Parse a model/dataset/space reference from either a bare id
/// (`org/name`, `name`) or a full `huggingface.co` / `hf.co` URL.
///
/// The kind is inferred from a `datasets/` or `spaces/` prefix, defaulting to
/// [`RepoKind::Model`].
pub fn parse_ref(input: &str) -> (res: Result<RepoRef, String>)
    ensures
        match parsed_ref(input@) {
            Some(p) => res matches Ok(r) && r.kind == p.0 && r.id@ == p.1,
            None => res matches Err(e) && e@ == parse_failure_text(debug_text(input@)),
        },
{
    let chars = chars_of(input);
    let t = trim_chars(&chars, false);
    let path = path_of(&t);
    let s = trim_chars(&path, true);
    let (kind, rest) = split_kind(&s);
    let id = repo_id(&rest);
    if id.len() == 0 {
        let quoted = debug_quoted(input);
        Err(parse_failure_message(&quoted))
    } else {
        Ok(RepoRef { kind, id: string_of(&id) })
    }
}

/// The public URL of a repository: `https://huggingface.co/<prefix><id>`.
pub open spec fn base_uri_of(kind: RepoKind, id: Seq<char>) -> Seq<char> {
    "https://huggingface.co/"@ + kind.url_prefix_spec() + id
}

/// Repo-level base IRI: `https://huggingface.co/<prefix><id>`.
pub fn base_uri(r: &RepoRef) -> (s: String)
    ensures
        s@ == base_uri_of(r.kind, r.id@),
{
    let mut s = String::from_str("https://huggingface.co/");
    s.append(r.kind.url_prefix());
    s.append(r.id.as_str());
    s
}


/// A repo id read from `rest` is a prefix of `rest`, neither starts nor ends
/// with `/`, and reads back as itself.
pub proof fn lemma_repo_id_of_shape(rest: Seq<char>)
    requires
        repo_id_of(rest).len() > 0,
    ensures
        repo_id_of(rest).len() <= rest.len(),
        rest.take(repo_id_of(rest).len() as int) == repo_id_of(rest),
        repo_id_of(rest)[0] != '/',
        repo_id_of(rest).last() != '/',
        repo_id_of(repo_id_of(rest)) == repo_id_of(rest),
{
    lemma_index_of(rest, '/');
    let e1 = index_of(rest, '/');
    let a = rest.take(e1);
    assert forall|j: int| 0 <= j < a.len() implies a[j] != '/' by {
        assert(a[j] == rest[j]);
    }
    if e1 == rest.len() {
        lemma_index_of_is(a, '/', a.len() as int);
        assert(a.take(a.len() as int) == a);
    } else {
        let r2 = rest.skip(e1 + 1);
        lemma_index_of(r2, '/');
        let e2 = index_of(r2, '/');
        let b = r2.take(e2);
        assert forall|j: int| 0 <= j < b.len() implies b[j] != '/' by {
            assert(b[j] == r2[j]);
        }
        if accepted_segment(b) {
            let id = a + seq!['/'] + b;
            assert(rest.take(id.len() as int) =~= id) by {
                assert forall|j: int| 0 <= j < id.len() implies rest.take(id.len() as int)[j]
                    == id[j] by {
                    if j > e1 {
                        assert(id[j] == b[j - e1 - 1]);
                        assert(r2[j - e1 - 1] == rest[j]);
                    }
                }
            }
            assert forall|j: int| 0 <= j < e1 implies id[j] != '/' by {
                assert(id[j] == a[j]);
            }
            assert(id[e1] == '/');
            lemma_index_of_is(id, '/', e1);
            assert(id.take(e1) =~= a);
            assert(id.skip(e1 + 1) =~= b);
            lemma_index_of_is(b, '/', b.len() as int);
            assert(b.take(b.len() as int) == b);
            assert(id.last() == b.last());
        } else {
            lemma_index_of_is(a, '/', a.len() as int);
            assert(a.take(a.len() as int) == a);
        }
    }
}

/// Law: a repo id that `parse_ref` reads is one accepted segment, or two
/// joined by a single `/`: never more than two segments, none of them empty or
/// reserved.
pub proof fn lemma_parsed_id_segments(input: Seq<char>, kind: RepoKind, id: Seq<char>)
    requires
        parsed_ref(input) == Some((kind, id)),
    ensures
        accepted_segment(id.take(index_of(id, '/'))),
        !id.take(index_of(id, '/')).contains('/'),
        index_of(id, '/') < id.len() ==> accepted_segment(id.skip(index_of(id, '/') + 1)),
        index_of(id, '/') < id.len() ==> !id.skip(index_of(id, '/') + 1).contains('/'),
{
    let path0 = trim_both(url_path(trim_both(input, false)), true);
    let sp = kind_split(path0);
    lemma_repo_id_of_shape(sp.1);
    assert(repo_id_of(id) == id);
    lemma_index_of(id, '/');
    let e = index_of(id, '/');
    let a = id.take(e);
    assert(!a.contains('/')) by {
        if a.contains('/') {
            let j = choose|j: int| 0 <= j < a.len() && a[j] == '/';
            assert(id[j] == '/');
        }
    }
    if e < id.len() {
        let r2 = id.skip(e + 1);
        lemma_index_of(r2, '/');
        let b = r2.take(index_of(r2, '/'));
        assert(accepted_segment(b));
        assert(b.len() == r2.len()) by {
            assert((a + seq!['/'] + b).len() == id.len());
        }
        assert(b =~= r2);
        assert(!b.contains('/')) by {
            if b.contains('/') {
                let j = choose|j: int| 0 <= j < b.len() && b[j] == '/';
                assert(r2[j] == '/');
            }
        }
    }
}

/// Law: no segment of a repo id that `parse_ref` reads is empty or one of
/// the reserved sub-paths `tree`, `blob`, `resolve`, `commit`, `commits`,
/// `raw`, `discussions` and `edit`; the id has one segment, or two joined by
/// a single `/`.
pub proof fn lemma_parsed_id_avoids_reserved_words(input: Seq<char>, kind: RepoKind, id: Seq<char>)
    requires
        parsed_ref(input) == Some((kind, id)),
    ensures
        id.take(index_of(id, '/')).len() > 0,
        !id.take(index_of(id, '/')).contains('/'),
        id.take(index_of(id, '/')) != "tree"@,
        id.take(index_of(id, '/')) != "blob"@,
        id.take(index_of(id, '/')) != "resolve"@,
        id.take(index_of(id, '/')) != "commit"@,
        id.take(index_of(id, '/')) != "commits"@,
        id.take(index_of(id, '/')) != "raw"@,
        id.take(index_of(id, '/')) != "discussions"@,
        id.take(index_of(id, '/')) != "edit"@,
        index_of(id, '/') < id.len() ==> id.skip(index_of(id, '/') + 1).len() > 0
            && !id.skip(index_of(id, '/') + 1).contains('/') && id.skip(index_of(id, '/') + 1)
            != "tree"@ && id.skip(index_of(id, '/') + 1) != "blob"@ && id.skip(
            index_of(id, '/') + 1,
        ) != "resolve"@ && id.skip(index_of(id, '/') + 1) != "commit"@ && id.skip(
            index_of(id, '/') + 1,
        ) != "commits"@ && id.skip(index_of(id, '/') + 1) != "raw"@ && id.skip(
            index_of(id, '/') + 1,
        ) != "discussions"@ && id.skip(index_of(id, '/') + 1) != "edit"@,
{
    lemma_parsed_id_segments(input, kind, id);
}

/// Law: a reserved sub-path ends a repo id. When the segment after an
/// accepted first segment `a` is one of `tree`, `blob`, `resolve`, `commit`,
/// `commits`, `raw`, `discussions` or `edit` (followed by the end or by
/// `/`), the id is `a` alone.
pub proof fn lemma_reserved_word_ends_id(a: Seq<char>, w: Seq<char>, tail: Seq<char>)
    requires
        a.len() > 0,
        !a.contains('/'),
        !is_reserved(a),
        w == "tree"@
            || w == "blob"@
            || w == "resolve"@
            || w == "commit"@
            || w == "commits"@
            || w == "raw"@
            || w == "discussions"@
            || w == "edit"@,
        tail.len() == 0 || tail[0] == '/',
    ensures
        repo_id_of(a + seq!['/'] + w + tail) == a,
{
    reveal_strlit("tree");
    reveal_strlit("blob");
    reveal_strlit("resolve");
    reveal_strlit("commit");
    reveal_strlit("commits");
    reveal_strlit("raw");
    reveal_strlit("discussions");
    reveal_strlit("edit");
    let rest = a + seq!['/'] + w + tail;
    assert forall|j: int| 0 <= j < a.len() implies rest[j] != '/' by {
        assert(rest[j] == a[j]);
        if a[j] == '/' {
            assert(a.contains('/'));
        }
    }
    assert(rest[a.len() as int] == '/');
    lemma_index_of_is(rest, '/', a.len() as int);
    assert(rest.take(a.len() as int) =~= a);
    let r2 = rest.skip(a.len() as int + 1);
    assert(r2 =~= w + tail);
    assert forall|j: int| 0 <= j < w.len() implies r2[j] != '/' by {
        assert(r2[j] == w[j]);
    }
    if tail.len() > 0 {
        assert(r2[w.len() as int] == '/');
    }
    lemma_index_of_is(r2, '/', w.len() as int);
    assert(r2.take(w.len() as int) =~= w);
}

/// Law: the public URL of a reference that `parse_ref` read gives back the
/// same kind and repo id when it is read in turn, whenever the id does not
/// end in white space (which the trim at the start would take off).
pub proof fn lemma_base_uri_reads_back(input: Seq<char>, kind: RepoKind, id: Seq<char>)
    requires
        parsed_ref(input) == Some((kind, id)),
        !is_white_space(id.last()),
    ensures
        parsed_ref(base_uri_of(kind, id)) == Some((kind, id)),
{
    reveal_strlit("https://huggingface.co/");
    reveal_strlit("://");
    reveal_strlit("datasets/");
    reveal_strlit("spaces/");
    reveal_strlit("");
    let path0 = trim_both(url_path(trim_both(input, false)), true);
    let sp = kind_split(path0);
    assert(sp.0 == kind && repo_id_of(sp.1) == id);
    lemma_repo_id_of_shape(sp.1);
    let pre = kind.url_prefix_spec();
    let h = "https://huggingface.co/"@;
    let u = base_uri_of(kind, id);
    assert(u == h + pre + id);
    // The URL has no white space to trim at either end.
    assert(u[0] == 'h');
    lemma_trim_front_at(u, false, 0);
    assert(u.skip(0) == u);
    assert(u.last() == id.last());
    lemma_trim_back_at(u, false, u.len() as int);
    assert(u.take(u.len() as int) == u);
    assert(trim_both(u, false) == u);
    // Its scheme ends at the first `://`.
    let sep = "://"@;
    assert(u.subrange(5, 8) =~= sep);
    assert forall|j: int| 0 <= j < 5 implies !occurs_at(u, j, sep) by {
        assert(u.subrange(j, j + 3)[0] == u[j]);
    }
    lemma_find_first(u, sep, 5);
    // The host ends at the next `/`.
    let v = u.skip(8);
    assert forall|j: int| 0 <= j < 14 implies v[j] != '/' by {
        assert(v[j] == u[j + 8]);
    }
    assert(v[14] == u[22]);
    lemma_index_of_is(v, '/', 14);
    let w = pre + id;
    assert(v.skip(15) =~= w);
    assert(url_path(u) == w);
    // The path neither starts nor ends with `/`.
    if pre.len() > 0 {
        assert(w[0] == pre[0]);
    } else {
        assert(w[0] == id[0]);
    }
    lemma_trim_front_at(w, true, 0);
    assert(w.skip(0) == w);
    assert(w.last() == id.last());
    lemma_trim_back_at(w, true, w.len() as int);
    assert(w.take(w.len() as int) == w);
    assert(trim_both(w, true) == w);
    // The prefix gives the kind back, and leaves the id.
    let dsp = "datasets/"@;
    let spp = "spaces/"@;
    match kind {
        RepoKind::Dataset => {
            assert(w.take(dsp.len() as int) =~= dsp);
            assert(w.skip(dsp.len() as int) =~= id);
        },
        RepoKind::Space => {
            if dsp.len() <= w.len() {
                assert(w.take(dsp.len() as int)[0] != dsp[0]);
            }
            assert(w.take(spp.len() as int) =~= spp);
            assert(w.skip(spp.len() as int) =~= id);
        },
        RepoKind::Model => {
            assert(w == id);
            assert(sp.1 == path0);
            if starts_with(id, dsp) {
                assert(path0.take(id.len() as int) == id);
                assert forall|j: int| 0 <= j < dsp.len() implies path0[j] == id[j] by {
                    assert(path0.take(id.len() as int)[j] == path0[j]);
                }
                assert(path0.take(dsp.len() as int) =~= id.take(dsp.len() as int));
            }
            if starts_with(id, spp) {
                assert(path0.take(id.len() as int) == id);
                assert forall|j: int| 0 <= j < spp.len() implies path0[j] == id[j] by {
                    assert(path0.take(id.len() as int)[j] == path0[j]);
                }
                assert(path0.take(spp.len() as int) =~= id.take(spp.len() as int));
            }
        },
    }
    assert(kind_split(w).0 == kind);
    assert(kind_split(w).1 == id);
}

} // verus!
