use asimov_huggingface_module::{
    context_terms, jsonld_graph, parse_ref, CardData, CommitAuthor, CommitInfo, LicenseField,
    RepoInfo, Sibling,
};

fn author(user: Option<&str>, name: Option<&str>) -> CommitAuthor {
    CommitAuthor { user: user.map(|s| s.to_string()), name: name.map(|s| s.to_string()) }
}

fn commit(id: &str, title: &str, authors: Vec<CommitAuthor>) -> CommitInfo {
    CommitInfo {
        id: id.to_string(),
        title: title.to_string(),
        message: "body".to_string(),
        authors,
        date: format!("2024-01-0{}", id.len()),
    }
}

fn repo_info() -> RepoInfo {
    RepoInfo {
        id: "org/model".to_string(),
        author: Some("org".to_string()),
        sha: Some("abc".to_string()),
        last_modified: Some("2024-05-01T00:00:00.000Z".to_string()),
        pipeline_tag: Some("text-generation".to_string()),
        library_name: None,
        downloads: Some(42),
        likes: None,
        tags: vec!["pytorch".to_string(), "license:mit".to_string()],
        siblings: vec![Sibling { rfilename: "README.md".to_string() }],
        card_data: Some(CardData { license: Some(LicenseField::Other) }),
    }
}

#[test]
fn graph_repository_node() {
    let r = parse_ref("org/model").unwrap();
    let commits = vec![commit("c2", "second", vec![]), commit("c1", "first", vec![])];
    let g = jsonld_graph(&r, &repo_info(), &commits);
    let n = &g.repository;
    assert_eq!(n.iri, "https://huggingface.co/org/model");
    assert_eq!(n.name, "org/model");
    assert_eq!(n.kind, "model");
    assert_eq!(
        n.commits,
        vec!["https://huggingface.co/org/model/commit/c2", "https://huggingface.co/org/model/commit/c1"]
    );
    assert_eq!(n.author.as_deref(), Some("https://huggingface.co/org"));
    assert_eq!(n.downloads, Some(42));
    assert_eq!(n.likes, None);
    assert_eq!(n.pipeline_tag.as_deref(), Some("text-generation"));
    assert_eq!(n.library, None);
    assert_eq!(n.license.as_deref(), Some("mit"));
    assert_eq!(n.date_modified.as_deref(), Some("2024-05-01T00:00:00.000Z"));
    assert_eq!(n.keywords, Some(vec!["pytorch".to_string(), "license:mit".to_string()]));
    assert_eq!(n.files, Some(vec!["README.md".to_string()]));
}

#[test]
fn graph_name_falls_back_to_reference() {
    let r = parse_ref("datasets/squad").unwrap();
    let mut info = repo_info();
    info.id = String::new();
    info.tags = vec![];
    info.siblings = vec![];
    info.author = None;
    let g = jsonld_graph(&r, &info, &[]);
    assert_eq!(g.repository.name, "squad");
    assert_eq!(g.repository.kind, "dataset");
    assert_eq!(g.repository.keywords, None);
    assert_eq!(g.repository.files, None);
    assert_eq!(g.repository.author, None);
    assert!(g.people.is_empty());
    assert!(g.commits.is_empty());
    assert!(g.repository.commits.is_empty());
}

#[test]
fn graph_people_are_distinct_and_ordered() {
    let r = parse_ref("org/model").unwrap();
    let commits = vec![
        commit("c3", "t3", vec![author(Some("zed"), None), author(None, Some("Ann B"))]),
        commit("c2", "t2", vec![author(Some("org"), None), author(None, None)]),
        commit("c1", "t1", vec![author(Some("zed"), Some("Zed")), author(Some("Éva"), None)]),
    ];
    let g = jsonld_graph(&r, &repo_info(), &commits);
    let names: Vec<&str> = g.people.iter().map(|p| p.name.as_str()).collect();
    assert_eq!(names, vec!["Ann B", "org", "unknown", "zed", "Éva"]);
    let iris: Vec<&str> = g.people.iter().map(|p| p.iri.as_str()).collect();
    assert_eq!(
        iris,
        vec![
            "https://huggingface.co/Ann-B",
            "https://huggingface.co/org",
            "https://huggingface.co/unknown",
            "https://huggingface.co/zed",
            "https://huggingface.co/-va",
        ]
    );
}

#[test]
fn graph_commits_are_chained() {
    let r = parse_ref("spaces/a/b").unwrap();
    let commits = vec![
        commit("c3", "t3", vec![author(Some("x y"), None)]),
        commit("c2", "t2", vec![]),
        commit("c1", "t1", vec![author(None, None), author(Some("u"), None)]),
    ];
    let g = jsonld_graph(&r, &repo_info(), &commits);
    assert_eq!(g.commits.len(), 3);
    let base = "https://huggingface.co/spaces/a/b";
    assert_eq!(g.commits[0].iri, format!("{base}/commit/c3"));
    assert_eq!(g.commits[0].parent.as_deref(), Some(format!("{base}/commit/c2").as_str()));
    assert_eq!(g.commits[1].parent.as_deref(), Some(format!("{base}/commit/c1").as_str()));
    assert_eq!(g.commits[2].parent, None);
    assert_eq!(g.commits[0].message, "t3");
    assert_eq!(g.commits[0].author_date, "2024-01-02");
    assert_eq!(g.commits[0].authored_by, vec!["https://huggingface.co/x-y".to_string()]);
    assert_eq!(
        g.commits[2].authored_by,
        vec!["https://huggingface.co/unknown".to_string(), "https://huggingface.co/u".to_string()]
    );
    assert!(g.commits[1].authored_by.is_empty());
    assert!(g.commits.iter().all(|c| c.in_repository == base));
}

#[test]
fn context_has_every_term() {
    let terms = context_terms();
    assert_eq!(terms.len(), 25);
    assert_eq!(terms[0].term, "git");
    assert_eq!(terms[0].id, "https://repolex.ai/ontology/git-lex/git/");
    assert_eq!(terms[0].value_type, None);
    let date = terms.iter().find(|t| t.term == "dateModified").unwrap();
    assert_eq!(date.id, "schema:dateModified");
    assert_eq!(date.value_type.as_deref(), Some("xsd:dateTime"));
    let commits = terms.iter().find(|t| t.term == "commits").unwrap();
    assert_eq!(commits.id, "asimov-hf:hasCommit");
    assert_eq!(commits.value_type.as_deref(), Some("@id"));
}
