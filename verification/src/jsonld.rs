use vstd::prelude::*;

use crate::meta::{opt_view, person_iri, person_iri_of, views, CommitInfo, RepoInfo, Sibling};
use crate::people::{
    handle_listed, lemma_text_lt_irreflexive, people_handles, strictly_sorted, texts,
};
use crate::repo::{base_uri, base_uri_of, RepoRef};
use crate::text::string_of;

verus! {

/// The node of the repository itself.
#[derive(Debug, Clone)]
pub struct RepositoryNode {
    /// The node's IRI: the repository's public URL.
    pub iri: String,
    pub name: String,
    /// `model`, `dataset` or `space`.
    pub kind: String,
    /// The IRIs of the repository's commits, newest first.
    pub commits: Vec<String>,
    /// The IRI of the repository's author.
    pub author: Option<String>,
    pub downloads: Option<u64>,
    pub likes: Option<u64>,
    pub pipeline_tag: Option<String>,
    pub library: Option<String>,
    pub license: Option<String>,
    pub date_modified: Option<String>,
    /// The tags, when there are any.
    pub keywords: Option<Vec<String>>,
    /// The tracked file names, when there are any.
    pub files: Option<Vec<String>>,
}

/// The node of one person.
#[derive(Debug, Clone)]
pub struct PersonNode {
    pub iri: String,
    /// The person's handle.
    pub name: String,
}

/// The node of one commit.
#[derive(Debug, Clone)]
pub struct CommitNode {
    pub iri: String,
    /// The commit's title.
    pub message: String,
    pub author_date: String,
    /// The IRIs of the commit's authors, in the commit's order.
    pub authored_by: Vec<String>,
    /// The IRI of the repository.
    pub in_repository: String,
    /// The IRI of the commit that comes next in the history (the older one).
    pub parent: Option<String>,
}

/// A repository and its history as a JSON-LD graph: one repository node, one
/// person node per distinct author handle, one commit node per commit.
#[derive(Debug, Clone)]
pub struct Graph {
    pub repository: RepositoryNode,
    pub people: Vec<PersonNode>,
    pub commits: Vec<CommitNode>,
}

/// The IRI of a commit of the repository at `base`.
pub open spec fn commit_iri_of(base: Seq<char>, id: Seq<char>) -> Seq<char> {
    base + "/commit/"@ + id
}

/// The file names of the siblings, in order.
pub open spec fn file_names(s: Seq<Sibling>) -> Seq<Seq<char>> {
    s.map_values(|x: Sibling| x.rfilename@)
}

/// The repository node carries the Hub's metadata for `r`, `repo` and
/// `commits`.
pub open spec fn repository_node_of(
    n: RepositoryNode,
    r: RepoRef,
    repo: RepoInfo,
    commits: Seq<CommitInfo>,
) -> bool {
    let base = base_uri_of(r.kind, r.id@);
    &&& n.iri@ == base
    &&& n.name@ == (if repo.id@.len() == 0 {
        r.id@
    } else {
        repo.id@
    })
    &&& n.kind@ == r.kind.label_spec()
    &&& n.commits.len() == commits.len()
    &&& forall|i: int|
        0 <= i < commits.len() ==> #[trigger] n.commits[i]@ == commit_iri_of(base, commits[i].id@)
    &&& opt_view(n.author) == match repo.author {
        Some(a) => Some(person_iri_of(a@)),
        None => None,
    }
    &&& n.downloads == repo.downloads
    &&& n.likes == repo.likes
    &&& opt_view(n.pipeline_tag) == opt_view(repo.pipeline_tag)
    &&& opt_view(n.library) == opt_view(repo.library_name)
    &&& opt_view(n.license) == repo.license_spec()
    &&& opt_view(n.date_modified) == opt_view(repo.last_modified)
    &&& match n.keywords {
        Some(k) => repo.tags.len() > 0 && views(k@) == views(repo.tags@),
        None => repo.tags.len() == 0,
    }
    &&& match n.files {
        Some(f) => repo.siblings.len() > 0 && views(f@) == file_names(repo.siblings@),
        None => repo.siblings.len() == 0,
    }
}

/// The person nodes: strictly ordered by handle, one for each handle of the
/// repository's author and of the commits' authors, each with its IRI.
pub open spec fn person_nodes_of(
    people: Seq<PersonNode>,
    author: Option<String>,
    commits: Seq<CommitInfo>,
) -> bool {
    let names = people.map_values(|p: PersonNode| p.name@);
    &&& strictly_sorted(names)
    &&& forall|h: Seq<char>| #[trigger] names.contains(h) <==> handle_listed(author, commits, h)
    &&& forall|i: int|
        0 <= i < people.len() ==> #[trigger] people[i].iri@ == person_iri_of(people[i].name@)
}

/// The node of commit `i`, chained to the one after it.
pub open spec fn commit_node_of(n: CommitNode, base: Seq<char>, commits: Seq<CommitInfo>, i: int) -> bool {
    let c = commits[i];
    &&& n.iri@ == commit_iri_of(base, c.id@)
    &&& n.message@ == c.title@
    &&& n.author_date@ == c.date@
    &&& n.authored_by.len() == c.authors.len()
    &&& forall|j: int|
        0 <= j < c.authors.len() ==> #[trigger] n.authored_by[j]@ == person_iri_of(
            c.authors[j].handle_spec(),
        )
    &&& n.in_repository@ == base
    &&& opt_view(n.parent) == if i + 1 < commits.len() {
        Some(commit_iri_of(base, commits[i + 1].id@))
    } else {
        None
    }
}

/// The whole graph for `r`, `repo` and `commits`.
pub open spec fn graph_of(g: Graph, r: RepoRef, repo: RepoInfo, commits: Seq<CommitInfo>) -> bool {
    &&& repository_node_of(g.repository, r, repo, commits)
    &&& person_nodes_of(g.people@, repo.author, commits)
    &&& g.commits.len() == commits.len()
    &&& forall|i: int|
        0 <= i < commits.len() ==> commit_node_of(
            #[trigger] g.commits[i],
            base_uri_of(r.kind, r.id@),
            commits,
            i,
        )
}

fn copy_opt(o: &Option<String>) -> (r: Option<String>)
    ensures
        opt_view(r) == opt_view(*o),
{
    match o {
        Some(s) => Some(s.clone()),
        None => None,
    }
}

fn copy_strings(v: &Vec<String>) -> (r: Vec<String>)
    ensures
        views(r@) == views(v@),
{
    let mut r: Vec<String> = Vec::new();
    let mut i: usize = 0;
    while i < v.len()
        invariant
            i <= v.len(),
            r.len() == i,
            forall|j: int| 0 <= j < i ==> #[trigger] r[j]@ == v[j]@,
        decreases v.len() - i,
    {
        r.push(v[i].clone());
        i += 1;
    }
    assert(views(r@) =~= views(v@));
    r
}

fn commit_iri(base: &String, id: &String) -> (iri: String)
    ensures
        iri@ == commit_iri_of(base@, id@),
{
    let mut iri = base.clone();
    iri.append("/commit/");
    iri.append(id.as_str());
    iri
}

fn repository_node(r: &RepoRef, repo: &RepoInfo, commits: &[CommitInfo]) -> (n: RepositoryNode)
    ensures
        repository_node_of(n, *r, *repo, commits@),
{
    let base = base_uri(r);
    let name = if repo.id.as_str().is_empty() {
        r.id.clone()
    } else {
        repo.id.clone()
    };
    let mut iris: Vec<String> = Vec::new();
    let mut i: usize = 0;
    while i < commits.len()
        invariant
            i <= commits.len(),
            iris.len() == i,
            base@ == base_uri_of(r.kind, r.id@),
            forall|j: int|
                0 <= j < i ==> #[trigger] iris[j]@ == commit_iri_of(base@, commits@[j].id@),
        decreases commits.len() - i,
    {
        iris.push(commit_iri(&base, &commits[i].id));
        i += 1;
    }
    let author = match &repo.author {
        Some(a) => Some(person_iri(a.as_str())),
        None => None,
    };
    let keywords = if repo.tags.len() == 0 {
        None
    } else {
        Some(copy_strings(&repo.tags))
    };
    let files = if repo.siblings.len() == 0 {
        None
    } else {
        let f = repo.files();
        assert(views(f@) =~= file_names(repo.siblings@));
        Some(f)
    };
    RepositoryNode {
        iri: base,
        name,
        kind: String::from_str(r.kind.as_str()),
        commits: iris,
        author,
        downloads: repo.downloads,
        likes: repo.likes,
        pipeline_tag: copy_opt(&repo.pipeline_tag),
        library: copy_opt(&repo.library_name),
        license: repo.license(),
        date_modified: copy_opt(&repo.last_modified),
        keywords,
        files,
    }
}

fn person_nodes(author: &Option<String>, commits: &[CommitInfo]) -> (people: Vec<PersonNode>)
    ensures
        person_nodes_of(people@, *author, commits@),
{
    let handles = people_handles(author, commits);
    let ghost hs = texts(handles@);
    let mut people: Vec<PersonNode> = Vec::new();
    let mut i: usize = 0;
    while i < handles.len()
        invariant
            i <= handles.len(),
            hs == texts(handles@),
            people.len() == i,
            forall|j: int| 0 <= j < i ==> #[trigger] people[j].name@ == hs[j],
            forall|j: int|
                0 <= j < i ==> #[trigger] people[j].iri@ == person_iri_of(people[j].name@),
        decreases handles.len() - i,
    {
        let name = string_of(&handles[i]);
        let iri = person_iri(name.as_str());
        people.push(PersonNode { iri, name });
        i += 1;
    }
    assert(people@.map_values(|p: PersonNode| p.name@) =~= hs);
    people
}

fn commit_nodes(base: &String, commits: &[CommitInfo]) -> (nodes: Vec<CommitNode>)
    ensures
        nodes.len() == commits.len(),
        forall|i: int|
            0 <= i < commits.len() ==> commit_node_of(#[trigger] nodes[i], base@, commits@, i),
{
    let mut nodes: Vec<CommitNode> = Vec::new();
    let mut i: usize = 0;
    while i < commits.len()
        invariant
            i <= commits.len(),
            nodes.len() == i,
            forall|k: int| 0 <= k < i ==> commit_node_of(#[trigger] nodes[k], base@, commits@, k),
        decreases commits.len() - i,
    {
        let c = &commits[i];
        let mut authored_by: Vec<String> = Vec::new();
        let mut j: usize = 0;
        while j < c.authors.len()
            invariant
                j <= c.authors.len(),
                authored_by.len() == j,
                forall|k: int|
                    0 <= k < j ==> #[trigger] authored_by[k]@ == person_iri_of(
                        c.authors[k].handle_spec(),
                    ),
            decreases c.authors.len() - j,
        {
            let h = c.authors[j].handle();
            authored_by.push(person_iri(h.as_str()));
            j += 1;
        }
        let parent = if i + 1 < commits.len() {
            Some(commit_iri(base, &commits[i + 1].id))
        } else {
            None
        };
        let node = CommitNode {
            iri: commit_iri(base, &c.id),
            message: c.title.clone(),
            author_date: c.date.clone(),
            authored_by,
            in_repository: base.clone(),
            parent,
        };
        assert(commit_node_of(node, base@, commits@, i as int));
        nodes.push(node);
        i += 1;
    }
    nodes
}

/// A repository and its commit history as a JSON-LD graph.
///
/// One repository node carries the Hub metadata; one person node is emitted
/// per distinct author handle; one commit node is emitted per commit, chained
/// linearly via `parent` (newest first, as returned by the Hub).
pub fn jsonld_graph(r: &RepoRef, repo: &RepoInfo, commits: &[CommitInfo]) -> (g: Graph)
    ensures
        graph_of(g, *r, *repo, commits@),
{
    let repository = repository_node(r, repo, commits);
    let people = person_nodes(&repo.author, commits);
    let base = base_uri(r);
    let commit_list = commit_nodes(&base, commits);
    Graph { repository, people, commits: commit_list }
}


/// Law: a graph holds one person node per distinct handle; no two of its
/// person nodes share a handle.
pub proof fn lemma_people_distinct(g: Graph, r: RepoRef, repo: RepoInfo, commits: Seq<CommitInfo>)
    requires
        graph_of(g, r, repo, commits),
    ensures
        forall|i: int, j: int|
            0 <= i < j < g.people.len() ==> #[trigger] g.people[i].name@ != #[trigger] g.people[j].name@,
{
    let names = g.people@.map_values(|p: PersonNode| p.name@);
    assert forall|i: int, j: int| 0 <= i < j < g.people.len() implies #[trigger] g.people[i].name@
        != #[trigger] g.people[j].name@ by {
        assert(names[i] == g.people[i].name@ && names[j] == g.people[j].name@);
        lemma_text_lt_irreflexive(names[i]);
    }
}

/// Law: the commit nodes of a graph are chained linearly, newest first: each
/// one's parent is the next node's IRI, the last has none, and the
/// repository node lists the commit nodes' IRIs in the same order.
pub proof fn lemma_commit_chain(g: Graph, r: RepoRef, repo: RepoInfo, commits: Seq<CommitInfo>)
    requires
        graph_of(g, r, repo, commits),
    ensures
        forall|i: int|
            0 <= i < g.commits.len() - 1 ==> opt_view(#[trigger] g.commits[i].parent) == Some(
                g.commits[i + 1].iri@,
            ),
        g.commits.len() > 0 ==> g.commits[g.commits.len() - 1].parent is None,
        g.repository.commits.len() == g.commits.len(),
        forall|i: int|
            0 <= i < g.commits.len() ==> #[trigger] g.repository.commits[i]@ == g.commits[i].iri@,
{
    let base = base_uri_of(r.kind, r.id@);
    assert forall|i: int| 0 <= i < g.commits.len() - 1 implies opt_view(
        #[trigger] g.commits[i].parent,
    ) == Some(g.commits[i + 1].iri@) by {
        assert(commit_node_of(g.commits[i], base, commits, i));
        assert(commit_node_of(g.commits[i + 1], base, commits, i + 1));
    }
    if g.commits.len() > 0 {
        let last = g.commits.len() - 1;
        assert(commit_node_of(g.commits[last], base, commits, last));
        assert(opt_view(g.commits[last].parent) is None);
    }
    assert forall|i: int| 0 <= i < g.commits.len() implies #[trigger] g.repository.commits[i]@
        == g.commits[i].iri@ by {
        assert(commit_node_of(g.commits[i], base, commits, i));
    }
}

/// Whether `people` holds a node for the person `name` whose IRI is `iri`.
pub open spec fn has_person_node(people: Seq<PersonNode>, name: Seq<char>, iri: Seq<char>) -> bool {
    exists|k: int| 0 <= k < people.len() && #[trigger] people[k].name@ == name && people[k].iri@ == iri
}

/// Whether `name` is the repository's author or the handle of an author of
/// one of `commits`.
pub open spec fn is_some_author(author: Option<String>, commits: Seq<CommitInfo>, name: Seq<char>) -> bool {
    ||| (author is Some && author->0@ == name)
    ||| exists|i: int, j: int|
        0 <= i < commits.len() && 0 <= j < commits[i].authors.len() && (
        #[trigger] commits[i].authors[j]).handle_spec() == name
}

/// Law: every person the graph points to has a person node. The
/// repository's author, when there is one, and every author of every commit
/// are the names of person nodes, and the IRIs that the repository node and
/// the commit nodes give for them are those nodes' IRIs. Each person node in
/// turn is the repository's author or an author of some commit.
pub proof fn lemma_people_cover_authors(
    g: Graph,
    r: RepoRef,
    repo: RepoInfo,
    commits: Seq<CommitInfo>,
)
    requires
        graph_of(g, r, repo, commits),
    ensures
        repo.author matches Some(a) ==> g.repository.author matches Some(iri) && has_person_node(
            g.people@,
            a@,
            iri@,
        ),
        forall|i: int, j: int|
            0 <= i < commits.len() && 0 <= j < commits[i].authors.len() ==> has_person_node(
                g.people@,
                (#[trigger] commits[i].authors[j]).handle_spec(),
                g.commits[i].authored_by[j]@,
            ),
        forall|k: int|
            0 <= k < g.people.len() ==> is_some_author(
                repo.author,
                commits,
                #[trigger] g.people[k].name@,
            ),
{
    let names = g.people@.map_values(|p: PersonNode| p.name@);
    let base = base_uri_of(r.kind, r.id@);
    if let Some(a) = repo.author {
        assert(handle_listed(repo.author, commits, a@));
        assert(names.contains(a@));
        let k = choose|k: int| 0 <= k < names.len() && names[k] == a@;
        assert(g.people[k].name@ == a@);
        assert(has_person_node(g.people@, a@, g.repository.author->0@));
    }
    assert forall|i: int, j: int|
        0 <= i < commits.len() && 0 <= j < commits[i].authors.len() implies has_person_node(
        g.people@,
        (#[trigger] commits[i].authors[j]).handle_spec(),
        g.commits[i].authored_by[j]@,
    ) by {
        let h = commits[i].authors[j].handle_spec();
        assert(handle_listed(repo.author, commits, h));
        assert(names.contains(h));
        let k = choose|k: int| 0 <= k < names.len() && names[k] == h;
        assert(g.people[k].name@ == h);
        assert(commit_node_of(g.commits[i], base, commits, i));
        assert(g.commits[i].authored_by[j]@ == person_iri_of(h));
    }
    assert forall|k: int| 0 <= k < g.people.len() implies is_some_author(
        repo.author,
        commits,
        #[trigger] g.people[k].name@,
    ) by {
        assert(names[k] == g.people[k].name@);
        assert(names.contains(g.people[k].name@));
    }
}

/// One term of the JSON-LD context: the term, the IRI it stands for, and the
/// type of its values where the context gives one.
#[derive(Debug, Clone)]
pub struct ContextTerm {
    pub term: String,
    pub id: String,
    pub value_type: Option<String>,
}

/// A context term as plain values.
pub open spec fn term_view(t: ContextTerm) -> (Seq<char>, Seq<char>, Option<Seq<char>>) {
    (t.term@, t.id@, opt_view(t.value_type))
}

/// The JSON-LD context: the `git:` vocabulary for commits, `schema:` for the
/// repository and person facets, `hf:` for the Hub's own counters.
pub open spec fn context_spec() -> Seq<(Seq<char>, Seq<char>, Option<Seq<char>>)> {
    seq![
        ("git"@, "https://repolex.ai/ontology/git-lex/git/"@, None),
        ("hf"@, "https://huggingface.co/vocab#"@, None),
        ("asimov-hf"@, "https://asimov.systems/vocab/huggingface#"@, None),
        ("schema"@, "https://schema.org/"@, None),
        ("xsd"@, "http://www.w3.org/2001/XMLSchema#"@, None),
        ("Repository"@, "asimov-hf:Repository"@, None),
        ("Commit"@, "git:Commit"@, None),
        ("Person"@, "schema:Person"@, None),
        ("name"@, "schema:name"@, None),
        ("kind"@, "hf:type"@, None),
        ("author"@, "schema:author"@, Some("@id"@)),
        ("license"@, "schema:license"@, None),
        ("keywords"@, "schema:keywords"@, None),
        ("downloads"@, "hf:downloads"@, None),
        ("likes"@, "hf:likes"@, None),
        ("pipelineTag"@, "hf:pipelineTag"@, None),
        ("library"@, "hf:library"@, None),
        ("files"@, "hf:file"@, None),
        ("dateModified"@, "schema:dateModified"@, Some("xsd:dateTime"@)),
        ("message"@, "git:message"@, None),
        ("authoredBy"@, "git:author"@, Some("@id"@)),
        ("parent"@, "git:parent"@, Some("@id"@)),
        ("authorDate"@, "git:authoredDate"@, Some("xsd:dateTime"@)),
        ("inRepository"@, "asimov-hf:inRepository"@, Some("@id"@)),
        ("commits"@, "asimov-hf:hasCommit"@, Some("@id"@)),
    ]
}

fn plain_term(term: &str, id: &str) -> (t: ContextTerm)
    ensures
        term_view(t) == (term@, id@, Option::<Seq<char>>::None),
{
    ContextTerm { term: String::from_str(term), id: String::from_str(id), value_type: None }
}

fn typed_term(term: &str, id: &str, value_type: &str) -> (t: ContextTerm)
    ensures
        term_view(t) == (term@, id@, Some(value_type@)),
{
    ContextTerm {
        term: String::from_str(term),
        id: String::from_str(id),
        value_type: Some(String::from_str(value_type)),
    }
}

/// The terms of the JSON-LD context, in order.
pub fn context_terms() -> (terms: Vec<ContextTerm>)
    ensures
        terms@.map_values(|t: ContextTerm| term_view(t)) == context_spec(),
{
    let mut terms: Vec<ContextTerm> = Vec::new();
    terms.push(plain_term("git", "https://repolex.ai/ontology/git-lex/git/"));
    terms.push(plain_term("hf", "https://huggingface.co/vocab#"));
    terms.push(plain_term("asimov-hf", "https://asimov.systems/vocab/huggingface#"));
    terms.push(plain_term("schema", "https://schema.org/"));
    terms.push(plain_term("xsd", "http://www.w3.org/2001/XMLSchema#"));
    terms.push(plain_term("Repository", "asimov-hf:Repository"));
    terms.push(plain_term("Commit", "git:Commit"));
    terms.push(plain_term("Person", "schema:Person"));
    terms.push(plain_term("name", "schema:name"));
    terms.push(plain_term("kind", "hf:type"));
    terms.push(typed_term("author", "schema:author", "@id"));
    terms.push(plain_term("license", "schema:license"));
    terms.push(plain_term("keywords", "schema:keywords"));
    terms.push(plain_term("downloads", "hf:downloads"));
    terms.push(plain_term("likes", "hf:likes"));
    terms.push(plain_term("pipelineTag", "hf:pipelineTag"));
    terms.push(plain_term("library", "hf:library"));
    terms.push(plain_term("files", "hf:file"));
    terms.push(typed_term("dateModified", "schema:dateModified", "xsd:dateTime"));
    terms.push(plain_term("message", "git:message"));
    terms.push(typed_term("authoredBy", "git:author", "@id"));
    terms.push(typed_term("parent", "git:parent", "@id"));
    terms.push(typed_term("authorDate", "git:authoredDate", "xsd:dateTime"));
    terms.push(typed_term("inRepository", "asimov-hf:inRepository", "@id"));
    terms.push(typed_term("commits", "asimov-hf:hasCommit", "@id"));
    assert(terms@.map_values(|t: ContextTerm| term_view(t)) =~= context_spec());
    terms
}

} // verus!
