use asimov_huggingface_module::{
    authorization_value, cap_commits, cli_line, commits_api_url, parse_ref, repo_api_url,
    select_token, token_variables, CommitAuthor, CommitInfo,
};

fn commit(id: &str, title: &str, authors: Vec<CommitAuthor>) -> CommitInfo {
    CommitInfo {
        id: id.to_string(),
        title: title.to_string(),
        message: String::new(),
        authors,
        date: "2024-01-02T03:04:05.000Z".to_string(),
    }
}

#[test]
fn api_urls() {
    let r = parse_ref("https://huggingface.co/datasets/rajpurkar/squad").unwrap();
    assert_eq!(repo_api_url(&r), "https://huggingface.co/api/datasets/rajpurkar/squad");
    assert_eq!(
        commits_api_url(&r, None),
        "https://huggingface.co/api/datasets/rajpurkar/squad/commits/main"
    );
    let m = parse_ref("gpt2").unwrap();
    assert_eq!(
        commits_api_url(&m, Some(0)),
        "https://huggingface.co/api/models/gpt2/commits/main?limit=0"
    );
    assert_eq!(
        commits_api_url(&m, Some(10)),
        "https://huggingface.co/api/models/gpt2/commits/main?limit=10"
    );
    assert_eq!(
        commits_api_url(&m, Some(1234509)),
        "https://huggingface.co/api/models/gpt2/commits/main?limit=1234509"
    );
    let s = parse_ref("spaces/a/b").unwrap();
    assert_eq!(repo_api_url(&s), "https://huggingface.co/api/spaces/a/b");
}

#[test]
fn cap_keeps_the_newest() {
    let all = vec![commit("c3", "", vec![]), commit("c2", "", vec![]), commit("c1", "", vec![])];
    let kept = cap_commits(all.clone(), Some(2));
    assert_eq!(kept.iter().map(|c| c.id.as_str()).collect::<Vec<_>>(), vec!["c3", "c2"]);
    assert_eq!(cap_commits(all.clone(), Some(5)).len(), 3);
    assert_eq!(cap_commits(all.clone(), Some(0)).len(), 0);
    assert_eq!(cap_commits(all, None).len(), 3);
}

#[test]
fn token_choice() {
    assert_eq!(
        token_variables(),
        vec!["ASIMOV_HUGGINGFACE_TOKEN", "HF_TOKEN", "HUGGING_FACE_HUB_TOKEN"]
    );
    let t = select_token(&vec![None, Some(String::new()), Some("hf_abc".to_string())]);
    assert_eq!(t.as_deref(), Some("hf_abc"));
    let t = select_token(&vec![Some("one".to_string()), Some("two".to_string())]);
    assert_eq!(t.as_deref(), Some("one"));
    assert_eq!(select_token(&vec![None, Some(String::new())]), None);
    assert_eq!(authorization_value("hf_abc"), "Bearer hf_abc");
}

#[test]
fn cli_lines() {
    let c = commit(
        "0123456789abcdef",
        "Update README.md",
        vec![CommitAuthor { user: Some("julien".to_string()), name: None }],
    );
    assert_eq!(cli_line(&c), "01234567  2024-01-02T03:04:05.000Z  <julien>  Update README.md");
    let c = commit("abc", "t", vec![]);
    assert_eq!(cli_line(&c), "abc  2024-01-02T03:04:05.000Z  <unknown>  t");
    let c = commit("ééééé", "t", vec![]);
    assert_eq!(cli_line(&c), "éééé  2024-01-02T03:04:05.000Z  <unknown>  t");
}
