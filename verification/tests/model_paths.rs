use llama_desktop::models::{
    digest_to_blob_filename, full_identifier, find_model_layer, model_blob_path,
    parse_model_path, ConfigError, ManifestLayer, ModelId,
};
use llama_desktop::paths::{
    action_log_path_from_dir, build_config_file_path_from_dir,
    build_default_mcp_config_path_from_dir, build_mcp_config_path_from_dir,
    build_share_file_name, shares_dir_path_from_dir,
};

#[test]
fn parse_model_path_valid() {
    let path = "models/manifests/provider/lib/name/version/model.json";
    let (provider, library, name, version) = parse_model_path(path).expect("parse");
    assert_eq!(provider, "provider");
    assert_eq!(library, "lib");
    assert_eq!(name, "name");
    assert_eq!(version, "version");
}

#[test]
fn parse_model_path_requires_manifests_segment() {
    let err = parse_model_path("models/provider/lib/name/version").expect_err("expected error");
    assert!(err.contains("manifests"));
}

#[test]
fn parse_model_path_requires_full_structure() {
    let err = parse_model_path("models/manifests/provider/lib").expect_err("expected error");
    assert!(err.contains("Invalid path structure"));
}

#[test]
fn parse_model_path_errors_when_missing_manifests() {
    let err = parse_model_path("/models/provider/lib/name/version").expect_err("expected error");
    assert!(err.contains("manifests"));
}

#[test]
fn parse_model_path_errors_when_too_short() {
    let err = parse_model_path("/models/manifests/provider/lib").expect_err("expected error");
    assert!(err.contains("Invalid path structure"));
}

#[test]
fn digest_to_blob_filename_replaces_colon() {
    let name = digest_to_blob_filename("sha256:abc");
    assert_eq!(name, "sha256-abc");
}

#[test]
fn digest_to_blob_filename_rewrites_prefix() {
    assert_eq!(digest_to_blob_filename("sha256:60e05f2"), "sha256-60e05f2");
}

#[test]
fn model_blob_path_joins_blobs_directory() {
    assert_eq!(
        model_blob_path("/models", "sha256:abc123"),
        "/models/blobs/sha256-abc123"
    );
}

#[test]
fn full_identifier_uses_provider_name_version() {
    assert_eq!(full_identifier("provider", "name", "version"), "provider:name:version");
}

#[test]
fn find_model_layer_picks_model_media_type() {
    let layers = vec![
        ManifestLayer {
            media_type: "application/vnd.ollama.image.config".to_string(),
            digest: "sha256:config".to_string(),
            size: 10,
        },
        ManifestLayer {
            media_type: "application/vnd.ollama.image.model".to_string(),
            digest: "sha256:abc123".to_string(),
            size: 42,
        },
    ];
    let layer = find_model_layer(&layers).expect("layer");
    assert_eq!(layer.digest, "sha256:abc123");
}

#[test]
fn find_model_layer_errors_without_model_layer() {
    let layers = vec![ManifestLayer {
        media_type: "application/vnd.ollama.image.other".to_string(),
        digest: "sha256:nope".to_string(),
        size: 1,
    }];
    let err = find_model_layer(&layers).expect_err("expected error");
    assert!(err.contains("No model layer"));
}

#[test]
fn model_id_display_uses_inner_string() {
    let id = ModelId("abc/def".to_string());
    assert_eq!(id.display_string(), "abc/def");
}

#[test]
fn config_error_display_messages() {
    let io_err = ConfigError::Io("boom".to_string()).message();
    assert!(io_err.contains("IO error"));
    let not_found = ConfigError::NotFound.message();
    assert_eq!(not_found, "Config not found");
    let parse = ConfigError::Parse("bad".to_string()).message();
    assert!(parse.contains("Parse error"));
}

#[test]
fn action_log_path_is_deterministic() {
    let path = action_log_path_from_dir("/tmp/example");
    assert!(path.ends_with("chat_actions.log"));
}

#[test]
fn shares_dir_path_is_deterministic() {
    let path = shares_dir_path_from_dir("/tmp/example");
    assert!(path.ends_with("shares"));
}

#[test]
fn build_share_file_name_includes_session_and_index() {
    let name = build_share_file_name("session", 3, 1234);
    assert!(name.starts_with("share_session_3_"));
    assert!(name.ends_with(".md"));
}

#[test]
fn build_share_file_name_exact_value() {
    assert_eq!(build_share_file_name("s", 3, 7), "share_s_3_7.md");
}

#[test]
fn build_mcp_config_path_from_dir_appends_filename() {
    let path = build_mcp_config_path_from_dir("/tmp/app");
    assert!(path.ends_with("mcp.json"));
    assert_eq!(path, "/tmp/app/mcp.json");
}

#[test]
fn build_default_mcp_config_path_appends_filename() {
    assert_eq!(build_default_mcp_config_path_from_dir("/tmp/app"), "/tmp/app/defaultMcp.json");
}

#[test]
fn build_config_file_path_from_dir_appends_filename() {
    let path = build_config_file_path_from_dir("/tmp/app");
    assert!(path.ends_with("config.json"));
}

#[test]
fn test_config_error_display() {
    let io_err = ConfigError::Io("test error".to_string());
    assert_eq!(io_err.message(), "IO error: test error");
    let not_found = ConfigError::NotFound;
    assert_eq!(not_found.message(), "Config not found");
    let parse_err = ConfigError::Parse("invalid json".to_string());
    assert_eq!(parse_err.message(), "Parse error: invalid json");
}
