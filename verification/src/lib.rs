//! Reading references to Hugging Face Hub repositories (models, datasets,
//! spaces) and laying out a repository's metadata, authors and commit
//! history as a JSON-LD graph.

pub mod api;
pub mod jsonld;
pub mod kind;
pub mod meta;
pub mod people;
pub mod repo;
pub mod text;

pub use api::{
    authorization_value, cap_commits, cli_line, commits_api_url, repo_api_url, select_token,
    token_variables,
};
pub use jsonld::{
    context_terms, jsonld_graph, CommitNode, ContextTerm, Graph, PersonNode, RepositoryNode,
};
pub use kind::RepoKind;
pub use meta::{person_iri, CardData, CommitAuthor, CommitInfo, LicenseField, RepoInfo, Sibling};
pub use repo::{base_uri, parse_failure_message, parse_ref, RepoRef};
