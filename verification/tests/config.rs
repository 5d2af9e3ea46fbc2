use dl_releases::config::{ConfigError, Configuration, RepoConfig};
use dl_releases::domain::{Repository, RepositoryError};

fn entry(repo: &str, pat: &str) -> RepoConfig {
    RepoConfig { repo: repo.to_string(), pat: pat.to_string() }
}

fn config(entries: &[(&str, &str)]) -> Configuration {
    Configuration { repos: entries.iter().map(|(r, p)| entry(r, p)).collect() }
}

fn repository(user: &str, repository: &str) -> Repository {
    Repository { user: user.to_string(), repository: repository.to_string() }
}

#[test]
fn repository_is_read_from_user_and_name() {
    assert_eq!(Repository::from_str("jesseduffield/lazygit"), Ok(repository("jesseduffield", "lazygit")));
    assert_eq!(Repository::from_str("rust-lang/rust-analyzer"), Ok(repository("rust-lang", "rust-analyzer")));
    assert_eq!(Repository::from_str("/"), Ok(repository("", "")));
    assert_eq!(Repository::from_str("a/"), Ok(repository("a", "")));
    assert_eq!(Repository::from_str("/b"), Ok(repository("", "b")));
    assert_eq!(Repository::from_str("ü/ö"), Ok(repository("ü", "ö")));
}

#[test]
fn text_without_one_slash_names_no_repository() {
    assert_eq!(Repository::from_str(""), Err(RepositoryError::NoDelimiter));
    assert_eq!(Repository::from_str("lazygit"), Err(RepositoryError::NoDelimiter));
    assert_eq!(Repository::from_str("a\\b"), Err(RepositoryError::NoDelimiter));
    assert_eq!(Repository::from_str("a/b/c"), Err(RepositoryError::Invalid));
    assert_eq!(Repository::from_str("//"), Err(RepositoryError::Invalid));
    assert_eq!(Repository::from_str("a//b"), Err(RepositoryError::Invalid));
    assert_eq!(Repository::from_str("https://github.com/a/b"), Err(RepositoryError::Invalid));
}

#[test]
fn repository_is_written_as_it_is_read() {
    let repo = repository("jesseduffield", "lazydocker");
    assert_eq!(repo.to_string(), "jesseduffield/lazydocker");
    assert_eq!(Repository::from_str(&repo.to_string()), Ok(repo));
    for text in ["a/b", "/", "x/", "/y", "rust-lang/rust-analyzer"] {
        assert_eq!(Repository::from_str(text).unwrap().to_string(), text);
    }
}

#[test]
fn latest_release_has_its_address() {
    assert_eq!(
        repository("jesseduffield", "lazygit").latest_release_url(),
        "https://api.github.com/repos/jesseduffield/lazygit/releases/latest"
    );
}

#[test]
fn repositories_are_read_with_their_patterns() {
    let c = config(&[("jesseduffield/lazygit", "linux_x86_64"), ("rust-lang/rust-analyzer", "x86_64-unknown-linux-gnu")]);
    assert_eq!(
        c.read_repositories(),
        Ok(vec![
            (repository("jesseduffield", "lazygit"), "linux_x86_64".to_string()),
            (repository("rust-lang", "rust-analyzer"), "x86_64-unknown-linux-gnu".to_string()),
        ])
    );
    assert_eq!(config(&[]).read_repositories(), Ok(Vec::new()));
}

#[test]
fn first_entry_that_names_no_repository_stops_the_reading() {
    let c = config(&[("a/b", "p"), ("a/b/c", "q"), ("nothing", "r")]);
    assert_eq!(c.read_repositories(), Err(RepositoryError::Invalid));
    let c = config(&[("a/b", "p"), ("nothing", "r"), ("a/b/c", "q")]);
    assert_eq!(c.read_repositories(), Err(RepositoryError::NoDelimiter));
}

#[test]
fn configuration_without_repeats_is_handed_back() {
    let c = config(&[("a/b", "p"), ("c/d", "q"), ("a/c", "p")]);
    assert_eq!(c.clone().validate(), Ok(c));
    assert_eq!(config(&[]).validate(), Ok(config(&[])));
    assert_eq!(config(&[("a/b", "p")]).validate(), Ok(config(&[("a/b", "p")])));
}

#[test]
fn repeated_repositories_are_named_once_each() {
    let c = config(&[("a/b", "p"), ("c/d", "q"), ("a/b", "r")]);
    assert_eq!(c.validate(), Err(ConfigError::DuplicatedRepos(vec!["a/b".to_string()])));
    let c = config(&[("x/y", "1"), ("a/b", "2"), ("c/d", "3"), ("a/b", "4"), ("x/y", "5"), ("a/b", "6"), ("e/f", "7")]);
    assert_eq!(
        c.validate(),
        Err(ConfigError::DuplicatedRepos(vec!["x/y".to_string(), "a/b".to_string()]))
    );
    let c = config(&[("a/b", "p"), ("A/B", "p")]);
    assert_eq!(c.clone().validate(), Ok(c));
}

#[test]
fn listed_repository_is_known() {
    let mut c = config(&[("a/b", "p"), ("c/d", "q")]);
    assert!(c.contains_repo("a/b"));
    assert!(c.contains_repo("c/d"));
    assert!(!c.contains_repo("a/c"));
    assert!(!c.contains_repo("a"));
    assert!(!c.contains_repo(""));
    c.add_repo("a/c".to_string(), "linux".to_string());
    assert!(c.contains_repo("a/c"));
    assert_eq!(c, config(&[("a/b", "p"), ("c/d", "q"), ("a/c", "linux")]));
}
