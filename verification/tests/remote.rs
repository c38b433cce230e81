use pear_reviewer::errors::{AuditError, ParseIssue};
use pear_reviewer::remote::Remote;

#[test]
fn parse_remote() {
    let remote = "https://github.com/sapcc/project.git";
    let result = Remote::parse(remote).unwrap();
    assert_eq!(result.host, "github.com");
    assert_eq!(result.owner, "sapcc");
    assert_eq!(result.repository, "project");
    assert_eq!(result.original, remote);
}

#[test]
fn parse_remote_invalid() {
    let result = Remote::parse("https://sapcc/project.git");
    match result {
        Err(err) => {
            assert_eq!(
                err.message(),
                "remote URLs are expected to be in the format of https://domain.com/owner/repo.git"
            );
        }
        Ok(_) => unreachable!(),
    }
}

#[test]
fn parse_remote_default_port() {
    let result = Remote::parse("https://github.com/example/project.git").unwrap();
    assert_eq!(result.port, 443);
}

#[test]
fn parse_remote_explicit_port() {
    let result = Remote::parse("https://github.example.com:8443/owner/repo").unwrap();
    assert_eq!(result.host, "github.example.com");
    assert_eq!(result.port, 8443);
    assert_eq!(result.owner, "owner");
    assert_eq!(result.repository, "repo");
}

#[test]
fn parse_remote_three_segments() {
    let result = Remote::parse("https://github.com/a/b/c");
    assert_eq!(
        result.unwrap_err(),
        AuditError::Parse(ParseIssue::BadPathFormat)
    );
}

#[test]
fn parse_remote_not_a_url() {
    let result = Remote::parse("not a url at all");
    assert_eq!(result.unwrap_err(), AuditError::Parse(ParseIssue::InvalidUrl));
}

#[test]
fn parse_remote_repeated_git_suffix() {
    let result = Remote::parse("https://github.com/sapcc/tool.git.git").unwrap();
    assert_eq!(result.repository, "tool");
}

#[test]
fn parse_remote_empty_repository_segment() {
    let result = Remote::parse("https://github.com/sapcc/");
    assert_eq!(
        result.unwrap_err(),
        AuditError::Parse(ParseIssue::BadPathFormat)
    );
}

#[test]
fn parse_remote_without_host() {
    let result = Remote::parse("unix:/run/foo.socket");
    assert_eq!(result.unwrap_err(), AuditError::Parse(ParseIssue::NoHost));
}

#[test]
fn parse_remote_without_known_port() {
    let result = Remote::parse("foo://example.com/owner/repo");
    assert_eq!(result.unwrap_err(), AuditError::Parse(ParseIssue::NoPort));
}

#[test]
fn error_messages_name_the_failure() {
    assert_eq!(AuditError::Auth.message(), "missing token env variable");
    assert_eq!(AuditError::Transport.message(), "API request failed");
    assert_eq!(
        AuditError::Parse(ParseIssue::InvalidUrl).message(),
        "can't parse remote"
    );
    assert_eq!(AuditError::Parse(ParseIssue::NoHost).message(), "remote has no host");
    assert_eq!(AuditError::Parse(ParseIssue::NoPort).message(), "remote has no port");
}
