use locket::config::{
    AuthStep, LocketConfig, apply_acquisition, next_auth_step, read_locket_config, set_token,
    token_for, validate_user,
};
use locket::errors::LocketError;
use locket::remote::{
    LocketGitService, RemoteChoice, apply_selection, resolve, select_remote,
};

#[test]
fn ssh_github_url_resolves() {
    let r = resolve("git@github.com:acme/widgets.git").unwrap();
    assert_eq!(r.service, LocketGitService::Github);
    assert_eq!(r.user, "acme");
    assert_eq!(r.project, "widgets");
}

#[test]
fn https_gitlab_url_resolves() {
    let r = resolve("https://gitlab.com/acme/widgets.git").unwrap();
    assert_eq!(r.service, LocketGitService::Gitlab);
    assert_eq!(r.user, "acme");
    assert_eq!(r.project, "widgets");
}

#[test]
fn ssh_bitbucket_url_without_suffix_resolves() {
    let r = resolve("git@bitbucket.org:team/repo").unwrap();
    assert_eq!(r.service, LocketGitService::Bitbucket);
    assert_eq!(r.user, "team");
    assert_eq!(r.project, "repo");
}

#[test]
fn unknown_host_is_unsupported() {
    assert_eq!(
        resolve("git@example.com:acme/widgets.git").unwrap_err(),
        LocketError::UnsupportedRemote
    );
    assert_eq!(
        resolve("https://example.com/acme/widgets.git").unwrap_err(),
        LocketError::UnsupportedRemote
    );
}

#[test]
fn url_without_owner_is_unsupported() {
    assert_eq!(
        resolve("https://github.com/widgets.git").unwrap_err(),
        LocketError::UnsupportedRemote
    );
    assert_eq!(
        resolve("git@github.com:widgets").unwrap_err(),
        LocketError::UnsupportedRemote
    );
}

#[test]
fn malformed_url_is_unsupported() {
    assert_eq!(resolve("not a url").unwrap_err(), LocketError::UnsupportedRemote);
    assert_eq!(resolve("").unwrap_err(), LocketError::UnsupportedRemote);
}

#[test]
fn zero_remotes_without_explicit_name_fails() {
    let r = select_remote(&Vec::new(), None);
    assert_eq!(r.unwrap_err(), LocketError::NoRemoteSelected);
}

#[test]
fn single_remote_is_auto_selected() {
    let remotes = vec!["origin".to_string()];
    match select_remote(&remotes, None).unwrap() {
        RemoteChoice::Chosen(name) => assert_eq!(name, "origin"),
        RemoteChoice::NeedPrompt => panic!("a single remote must be picked without prompting"),
    }
}

#[test]
fn explicit_remote_wins() {
    let remotes = vec!["origin".to_string(), "upstream".to_string()];
    match select_remote(&remotes, Some("upstream".to_string())).unwrap() {
        RemoteChoice::Chosen(name) => assert_eq!(name, "upstream"),
        RemoteChoice::NeedPrompt => panic!("an explicit remote must be used as given"),
    }
}

#[test]
fn several_remotes_require_a_prompt() {
    let remotes = vec!["origin".to_string(), "upstream".to_string()];
    assert!(matches!(
        select_remote(&remotes, None).unwrap(),
        RemoteChoice::NeedPrompt
    ));
}

#[test]
fn cancelled_selection_is_reported() {
    let options = vec!["origin".to_string(), "upstream".to_string()];
    assert_eq!(apply_selection(&options, None).unwrap_err(), LocketError::Cancelled);
    assert_eq!(apply_selection(&options, Some(1)).unwrap(), "upstream");
    assert_eq!(
        apply_selection(&options, Some(2)).unwrap_err(),
        LocketError::NoRemoteSelected
    );
}

#[test]
fn default_config_has_no_tokens() {
    let conf = read_locket_config().unwrap();
    assert!(conf.github_token.is_none());
    assert!(conf.gitlab_token.is_none());
    assert!(conf.bitbucket_token.is_none());
}

#[test]
fn validate_user_requires_authentication() {
    assert_eq!(
        validate_user(&LocketGitService::Github).unwrap_err(),
        LocketError::AuthenticationRequired
    );
    assert_eq!(
        validate_user(&LocketGitService::Bitbucket).unwrap_err(),
        LocketError::AuthenticationRequired
    );
}

#[test]
fn acquisition_flow_stores_and_reuses_tokens() {
    let mut conf = read_locket_config().unwrap();
    assert!(matches!(
        next_auth_step(&conf, &LocketGitService::Gitlab),
        AuthStep::AcquireToken
    ));
    let got = apply_acquisition(&mut conf, &LocketGitService::Gitlab, Some("tok-1".to_string()));
    assert_eq!(got.unwrap(), "tok-1");
    match next_auth_step(&conf, &LocketGitService::Gitlab) {
        AuthStep::UseToken(t) => assert_eq!(t, "tok-1"),
        AuthStep::AcquireToken => panic!("a stored token must be reused"),
    }
    // the other services are untouched
    assert!(token_for(&conf, &LocketGitService::Github).is_none());
}

#[test]
fn declined_acquisition_changes_nothing() {
    let mut conf = read_locket_config().unwrap();
    let r = apply_acquisition(&mut conf, &LocketGitService::Github, None);
    assert_eq!(r.unwrap_err(), LocketError::AuthenticationRequired);
    assert!(token_for(&conf, &LocketGitService::Github).is_none());
}

#[test]
fn set_token_overwrites_only_its_service() {
    let mut conf = LocketConfig {
        github_token: Some("old".to_string()),
        gitlab_token: None,
        bitbucket_token: Some("bb".to_string()),
    };
    set_token(&mut conf, &LocketGitService::Github, "new".to_string());
    assert_eq!(token_for(&conf, &LocketGitService::Github).unwrap(), "new");
    assert_eq!(token_for(&conf, &LocketGitService::Bitbucket).unwrap(), "bb");
    assert!(token_for(&conf, &LocketGitService::Gitlab).is_none());
}

#[test]
fn error_messages_name_their_condition() {
    assert!(LocketError::NotAGitRepo.message().contains("git repo"));
    assert!(LocketError::IntegrityFailure.message().contains("Integrity"));
}
