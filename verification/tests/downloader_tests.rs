use weave_cli::downloader::{
    archive_url, check_local_source, latest_release_url, latest_tag_from_response, resolve_source,
    tag_from_release_field, use_cached_template, LocalSourceError, TagError, TemplateSource,
};

fn local(s: &TemplateSource) -> Option<&str> {
    match s {
        TemplateSource::Local(p) => Some(p.as_str()),
        _ => None,
    }
}

#[test]
fn explicit_source_wins() {
    let s = resolve_source(Some("/a".to_string()), Some("/b".to_string()), true, Some("v1".to_string()));
    assert_eq!(local(&s), Some("/a"));
}

#[test]
fn environment_path_used_when_it_exists() {
    let s = resolve_source(None, Some("/b".to_string()), true, None);
    assert_eq!(local(&s), Some("/b"));
    let s = resolve_source(None, Some("/b".to_string()), false, Some("v2".to_string()));
    match s {
        TemplateSource::GitHub { version } => assert_eq!(version.as_deref(), Some("v2")),
        _ => panic!("expected GitHub"),
    }
}

#[test]
fn github_by_default() {
    match resolve_source(None, None, false, None) {
        TemplateSource::GitHub { version } => assert!(version.is_none()),
        _ => panic!("expected GitHub"),
    }
}

#[test]
fn local_source_checks() {
    assert_eq!(check_local_source(false, false, false), Err(LocalSourceError::Missing));
    assert_eq!(check_local_source(true, false, true), Err(LocalSourceError::NotADirectory));
    assert_eq!(check_local_source(true, true, false), Err(LocalSourceError::NoManifest));
    assert_eq!(check_local_source(true, true, true), Ok(()));
}

#[test]
fn main_is_never_taken_from_cache() {
    assert!(use_cached_template("v1.0.0", true));
    assert!(!use_cached_template("v1.0.0", false));
    assert!(!use_cached_template("main", true));
}

#[test]
fn archive_urls() {
    assert_eq!(
        archive_url("v1.2.0"),
        "https://github.com/WeaveITMeta/Weave-Template/archive/refs/tags/v1.2.0.tar.gz"
    );
    assert_eq!(
        archive_url("main"),
        "https://github.com/WeaveITMeta/Weave-Template/archive/refs/heads/main.tar.gz"
    );
    assert_eq!(
        latest_release_url(),
        "https://api.github.com/repos/WeaveITMeta/Weave-Template/releases/latest"
    );
}

#[test]
fn latest_tag_read_from_json() {
    assert_eq!(
        latest_tag_from_response(true, r#"{"tag_name": "v1.4.2", "name": "Release"}"#),
        Ok("v1.4.2".to_string())
    );
}

#[test]
fn latest_tag_errors() {
    assert_eq!(latest_tag_from_response(true, "not json"), Err(TagError::InvalidJson));
    assert_eq!(latest_tag_from_response(true, r#"{"name": "x"}"#), Err(TagError::MissingTagName));
    assert_eq!(latest_tag_from_response(true, r#"{"tag_name": 3}"#), Err(TagError::MissingTagName));
    assert_eq!(latest_tag_from_response(true, "[1, 2]"), Err(TagError::MissingTagName));
}

#[test]
fn no_release_falls_back_to_main() {
    assert_eq!(latest_tag_from_response(false, ""), Ok("main".to_string()));
    assert_eq!(tag_from_release_field(false, Some(Some("v9".to_string()))), Ok("main".to_string()));
    assert_eq!(tag_from_release_field(true, Some(Some("v9".to_string()))), Ok("v9".to_string()));
    assert_eq!(tag_from_release_field(true, None), Err(TagError::InvalidJson));
    assert_eq!(tag_from_release_field(true, Some(None)), Err(TagError::MissingTagName));
}
