use vstd::prelude::*;

use crate::meta::{CommitAuthor, CommitInfo};
use crate::text::{chars_of, same_chars};

verus! {

/// The order of `String`'s `Ord`: lexicographic over UTF-8 bytes, which is
/// lexicographic over code points.
pub open spec fn text_lt(a: Seq<char>, b: Seq<char>) -> bool
    decreases a.len(),
{
    if a.len() == 0 {
        b.len() > 0
    } else if b.len() == 0 {
        false
    } else if a[0] != b[0] {
        (a[0] as u32) < (b[0] as u32)
    } else {
        text_lt(a.drop_first(), b.drop_first())
    }
}

/// No text comes before itself.
pub proof fn lemma_text_lt_irreflexive(a: Seq<char>)
    ensures
        !text_lt(a, a),
    decreases a.len(),
{
    if a.len() > 0 {
        lemma_text_lt_irreflexive(a.drop_first());
    }
}

/// Of two different texts, one comes before the other, and not both ways.
pub proof fn lemma_text_lt_total(a: Seq<char>, b: Seq<char>)
    ensures
        a != b ==> text_lt(a, b) || text_lt(b, a),
        !(text_lt(a, b) && text_lt(b, a)),
    decreases a.len(),
{
    if a.len() > 0 && b.len() > 0 {
        if a[0] == b[0] {
            lemma_text_lt_total(a.drop_first(), b.drop_first());
            if a.drop_first() == b.drop_first() {
                assert(a =~= seq![a[0]] + a.drop_first());
                assert(b =~= seq![b[0]] + b.drop_first());
            }
        } else {
            vstd::utf8::char_u32_cast(a[0], a[0] as u32);
            vstd::utf8::char_u32_cast(b[0], b[0] as u32);
        }
    } else if a.len() == 0 && b.len() == 0 {
        assert(a =~= b);
    }
}

/// The order is transitive.
pub proof fn lemma_text_lt_transitive(a: Seq<char>, b: Seq<char>, c: Seq<char>)
    requires
        text_lt(a, b),
        text_lt(b, c),
    ensures
        text_lt(a, c),
    decreases a.len(),
{
    if a.len() > 0 && b.len() > 0 && c.len() > 0 && a[0] == b[0] && b[0] == c[0] {
        lemma_text_lt_transitive(a.drop_first(), b.drop_first(), c.drop_first());
    }
}

/// Whether `a` comes before `b` in `String`'s order.
pub fn text_less(a: &Vec<char>, b: &Vec<char>) -> (r: bool)
    ensures
        r == text_lt(a@, b@),
{
    let mut i: usize = 0;
    assert(a@.skip(0) == a@);
    assert(b@.skip(0) == b@);
    while i < a.len() && i < b.len() && a[i] == b[i]
        invariant
            i <= a.len(),
            i <= b.len(),
            text_lt(a@, b@) == text_lt(a@.skip(i as int), b@.skip(i as int)),
        decreases a.len() - i,
    {
        assert(a@.skip(i as int).drop_first() == a@.skip(i + 1));
        assert(b@.skip(i as int).drop_first() == b@.skip(i + 1));
        i += 1;
    }
    if i == a.len() {
        i < b.len()
    } else if i == b.len() {
        false
    } else {
        (a[i] as u32) < (b[i] as u32)
    }
}

/// The characters of each text, in order.
pub open spec fn texts(v: Seq<Vec<char>>) -> Seq<Seq<char>> {
    v.map_values(|x: Vec<char>| x@)
}

/// Each text comes strictly before every later one.
pub open spec fn strictly_sorted(s: Seq<Seq<char>>) -> bool {
    forall|i: int, j: int| 0 <= i < j < s.len() ==> text_lt(#[trigger] s[i], #[trigger] s[j])
}

/// Adds `h` to a strictly sorted list of texts, where it belongs, unless it
/// is there already.
pub fn insert_sorted(v: &mut Vec<Vec<char>>, h: Vec<char>)
    requires
        strictly_sorted(texts(old(v)@)),
    ensures
        strictly_sorted(texts(final(v)@)),
        forall|x: Seq<char>| #[trigger]
            texts(final(v)@).contains(x) <==> texts(old(v)@).contains(x) || x == h@,
{
    let ghost old_t = texts(v@);
    let mut k: usize = 0;
    while k < v.len() && text_less(&v[k], &h)
        invariant
            k <= v.len(),
            old_t == texts(v@),
            forall|j: int| 0 <= j < k ==> text_lt(#[trigger] old_t[j], h@),
        decreases v.len() - k,
    {
        k += 1;
    }
    if k < v.len() && same_chars(&v[k], &h) {
        assert(old_t[k as int] == h@);
        return;
    }
    proof {
        if k < v.len() {
            lemma_text_lt_total(old_t[k as int], h@);
        }
    }
    let ghost hv = h@;
    v.insert(k, h);
    let ghost new_t = texts(v@);
    assert(new_t =~= old_t.insert(k as int, hv));
    assert forall|i: int, j: int| 0 <= i < j < new_t.len() implies text_lt(
        #[trigger] new_t[i],
        #[trigger] new_t[j],
    ) by {
        if j < k {
        } else if j == k {
        } else if i < k {
            lemma_text_lt_transitive(new_t[i], hv, old_t[k as int]);
            if j - 1 > k {
                lemma_text_lt_transitive(new_t[i], old_t[k as int], new_t[j]);
            }
        } else if i == k {
            if j - 1 > k {
                lemma_text_lt_transitive(hv, old_t[k as int], new_t[j]);
            }
        } else {
            assert(new_t[i] == old_t[i - 1] && new_t[j] == old_t[j - 1]);
        }
    }
    assert forall|x: Seq<char>| #[trigger]
        new_t.contains(x) <==> old_t.contains(x) || x == hv by {
        if old_t.contains(x) {
            let i = choose|i: int| 0 <= i < old_t.len() && old_t[i] == x;
            if i < k {
                assert(new_t[i] == x);
            } else {
                assert(new_t[i + 1] == x);
            }
        }
        if x == hv {
            assert(new_t[k as int] == x);
        }
        if new_t.contains(x) {
            let i = choose|i: int| 0 <= i < new_t.len() && new_t[i] == x;
            if i < k {
                assert(old_t[i] == x);
            } else if i > k {
                assert(old_t[i - 1] == x);
            }
        }
    }
}

/// Whether `h` is the handle of the repository's author, or of an author of
/// one of `commits`.
pub open spec fn handle_listed(author: Option<String>, commits: Seq<CommitInfo>, h: Seq<char>) -> bool {
    ||| (author matches Some(a) && a@ == h)
    ||| exists|i: int, j: int|
        0 <= i < commits.len() && 0 <= j < commits[i].authors.len() && (
        #[trigger] commits[i].authors[j]).handle_spec() == h
}

/// `handle_listed` over the commits before `ci` and the authors of commit
/// `ci` before `aj`.
pub open spec fn listed_before(
    author: Option<String>,
    commits: Seq<CommitInfo>,
    ci: int,
    aj: int,
    h: Seq<char>,
) -> bool {
    ||| (author matches Some(a) && a@ == h)
    ||| exists|i: int, j: int|
        0 <= i < ci && 0 <= j < commits[i].authors.len() && (
        #[trigger] commits[i].authors[j]).handle_spec() == h
    ||| exists|j: int| 0 <= j < aj && (#[trigger] commits[ci].authors[j]).handle_spec() == h
}

/// The distinct handles of the repository's author and of every commit
/// author, in `String`'s order.
pub fn people_handles(author: &Option<String>, commits: &[CommitInfo]) -> (v: Vec<Vec<char>>)
    ensures
        strictly_sorted(texts(v@)),
        forall|h: Seq<char>| #[trigger]
            texts(v@).contains(h) <==> handle_listed(*author, commits@, h),
{
    let mut v: Vec<Vec<char>> = Vec::new();
    assert(texts(v@) =~= Seq::<Seq<char>>::empty());
    match author {
        Some(a) => {
            insert_sorted(&mut v, chars_of(a.as_str()));
        },
        None => {},
    }
    let mut ci: usize = 0;
    while ci < commits.len()
        invariant
            ci <= commits.len(),
            strictly_sorted(texts(v@)),
            forall|h: Seq<char>| #[trigger]
                texts(v@).contains(h) <==> listed_before(*author, commits@, ci as int, 0, h),
        decreases commits.len() - ci,
    {
        let authors: &Vec<CommitAuthor> = &commits[ci].authors;
        let mut aj: usize = 0;
        while aj < authors.len()
            invariant
                ci < commits.len(),
                aj <= authors.len(),
                authors@ == commits@[ci as int].authors@,
                strictly_sorted(texts(v@)),
                forall|h: Seq<char>| #[trigger]
                    texts(v@).contains(h) <==> listed_before(
                        *author,
                        commits@,
                        ci as int,
                        aj as int,
                        h,
                    ),
            decreases authors.len() - aj,
        {
            let handle = authors[aj].handle();
            let ghost hv = handle@;
            insert_sorted(&mut v, chars_of(handle.as_str()));
            assert forall|h: Seq<char>|
                listed_before(*author, commits@, ci as int, aj + 1, h) <==> listed_before(
                    *author,
                    commits@,
                    ci as int,
                    aj as int,
                    h,
                ) || h == hv by {
                if h == hv {
                    assert(commits@[ci as int].authors[aj as int].handle_spec() == h);
                }
                if listed_before(*author, commits@, ci as int, aj + 1, h) && !listed_before(
                    *author,
                    commits@,
                    ci as int,
                    aj as int,
                    h,
                ) {
                    let j = choose|j: int|
                        0 <= j < aj + 1 && (#[trigger] commits@[ci as int].authors[j]).handle_spec()
                            == h;
                    assert(j == aj);
                }
            }
            aj += 1;
        }
        assert forall|h: Seq<char>|
            listed_before(*author, commits@, ci + 1, 0, h) <==> listed_before(
                *author,
                commits@,
                ci as int,
                authors.len() as int,
                h,
            ) by {
            if listed_before(*author, commits@, ci as int, authors.len() as int, h) {
                if exists|j: int|
                    0 <= j < authors.len() && (#[trigger] commits@[ci as int].authors[j]).handle_spec()
                        == h {
                    let j = choose|j: int|
                        0 <= j < authors.len() && (#[trigger] commits@[ci as int].authors[j]).handle_spec()
                            == h;
                    assert(commits@[ci as int].authors[j].handle_spec() == h);
                }
            }
            if listed_before(*author, commits@, ci + 1, 0, h) && !(author matches Some(a) && a@
                == h) {
                let (i, j) = choose|i: int, j: int|
                    0 <= i < ci + 1 && 0 <= j < commits@[i].authors.len() && (
                    #[trigger] commits@[i].authors[j]).handle_spec() == h;
                if i < ci {
                    assert(commits@[i].authors[j].handle_spec() == h);
                } else {
                    assert(commits@[ci as int].authors[j].handle_spec() == h);
                }
            }
        }
        ci += 1;
    }
    v
}

} // verus!
