use tama::client::{ApiClient, ChannelContent};
use tama::config::{AuthConfig, TamaConfig};
use tama::endpoint::{add_protocol_if_missing, parse_endpoint, EndpointType};
use tama::server::{bearer_token, clamp_pagination, default_limit, PaginationParams};

#[test]
fn test_parse_endpoint_content_id() {
    let result = parse_endpoint("/content/123");
    assert!(result.is_ok());
    let (server_url, endpoint) = result.unwrap();
    assert!(server_url.is_none());
    match endpoint {
        EndpointType::Content(id) => assert_eq!(id, 123),
        _ => panic!("Expected Content endpoint"),
    }
}

#[test]
fn test_parse_endpoint_content_without_slash() {
    let result = parse_endpoint("content/456");
    assert!(result.is_ok());
    let (server_url, endpoint) = result.unwrap();
    assert!(server_url.is_none());
    match endpoint {
        EndpointType::Content(id) => assert_eq!(id, 456),
        _ => panic!("Expected Content endpoint"),
    }
}

#[test]
fn test_parse_endpoint_channel_name() {
    let result = parse_endpoint("/channel/hiddenmugs");
    assert!(result.is_ok());
    let (server_url, endpoint) = result.unwrap();
    assert!(server_url.is_none());
    match endpoint {
        EndpointType::Channel(name) => assert_eq!(name, "hiddenmugs"),
        _ => panic!("Expected Channel endpoint"),
    }
}

#[test]
fn test_parse_endpoint_channel_id() {
    let result = parse_endpoint("/channel/42");
    assert!(result.is_ok());
    let (server_url, endpoint) = result.unwrap();
    assert!(server_url.is_none());
    match endpoint {
        EndpointType::Channel(name) => assert_eq!(name, "42"),
        _ => panic!("Expected Channel endpoint"),
    }
}

#[test]
fn test_parse_endpoint_full_url_http() {
    let result = parse_endpoint("http://localhost:8080/content/99");
    assert!(result.is_ok());
    let (server_url, endpoint) = result.unwrap();
    assert_eq!(server_url, Some("http://localhost:8080".to_string()));
    match endpoint {
        EndpointType::Content(id) => assert_eq!(id, 99),
        _ => panic!("Expected Content endpoint"),
    }
}

#[test]
fn test_parse_endpoint_full_url_https() {
    let result = parse_endpoint("https://someotherdomain.com/channel/hiddenmugs");
    assert!(result.is_ok());
    let (server_url, endpoint) = result.unwrap();
    assert_eq!(server_url, Some("https://someotherdomain.com".to_string()));
    match endpoint {
        EndpointType::Channel(name) => assert_eq!(name, "hiddenmugs"),
        _ => panic!("Expected Channel endpoint"),
    }
}

#[test]
fn test_parse_endpoint_full_url_with_port() {
    let result = parse_endpoint("https://example.org:3000/content/42");
    assert!(result.is_ok());
    let (server_url, endpoint) = result.unwrap();
    assert_eq!(server_url, Some("https://example.org:3000".to_string()));
    match endpoint {
        EndpointType::Content(id) => assert_eq!(id, 42),
        _ => panic!("Expected Content endpoint"),
    }
}

#[test]
fn test_parse_endpoint_invalid_format() {
    let result = parse_endpoint("/invalid");
    assert!(result.is_err());

    let result = parse_endpoint("/content/123/extra");
    assert!(result.is_err());
}

#[test]
fn test_parse_endpoint_invalid_type() {
    let result = parse_endpoint("/unknown/123");
    assert!(result.is_err());
}

#[test]
fn test_parse_endpoint_invalid_content_id() {
    let result = parse_endpoint("/content/notanumber");
    assert!(result.is_err());
}

#[test]
fn test_add_protocol_localhost() {
    assert_eq!(add_protocol_if_missing("localhost:3001/channel/1"), "http://localhost:3001/channel/1");
    assert_eq!(add_protocol_if_missing("localhost/content/2"), "http://localhost/content/2");
}

#[test]
fn test_add_protocol_remote() {
    assert_eq!(add_protocol_if_missing("curzel.it/tama/channel/1"), "https://curzel.it/tama/channel/1");
    assert_eq!(add_protocol_if_missing("example.com/content/42"), "https://example.com/content/42");
}

#[test]
fn test_add_protocol_already_present() {
    assert_eq!(add_protocol_if_missing("http://localhost:3000/channel/1"), "http://localhost:3000/channel/1");
    assert_eq!(add_protocol_if_missing("https://example.com/content/2"), "https://example.com/content/2");
}

#[test]
fn test_add_protocol_relative_path() {
    assert_eq!(add_protocol_if_missing("/content/123"), "/content/123");
    assert_eq!(add_protocol_if_missing("/channel/test"), "/channel/test");
    assert_eq!(add_protocol_if_missing("content/456"), "content/456");
    assert_eq!(add_protocol_if_missing("channel/myname"), "channel/myname");
}

#[test]
fn test_parse_endpoint_localhost_without_protocol() {
    let result = parse_endpoint("localhost:3001/channel/1");
    assert!(result.is_ok());
    let (server_url, endpoint) = result.unwrap();
    assert_eq!(server_url, Some("http://localhost:3001".to_string()));
    match endpoint {
        EndpointType::Channel(name) => assert_eq!(name, "1"),
        _ => panic!("Expected Channel endpoint"),
    }
}

#[test]
fn test_parse_endpoint_remote_without_protocol() {
    let result = parse_endpoint("curzel.it/channel/test");
    assert!(result.is_ok());
    let (server_url, endpoint) = result.unwrap();
    assert_eq!(server_url, Some("https://curzel.it".to_string()));
    match endpoint {
        EndpointType::Channel(name) => assert_eq!(name, "test"),
        _ => panic!("Expected Channel endpoint"),
    }
}

#[test]
fn test_store_auth() {
    let auth = AuthConfig {
        channel_id: 1,
        channel_name: "test".to_string(),
        jwt_token: "test_token".to_string(),
    };

    assert_eq!(auth.channel_id, 1);
    assert_eq!(auth.channel_name, "test");
    assert_eq!(auth.jwt_token, "test_token");
}

#[test]
fn test_auth_validation() {
    let auth = AuthConfig {
        channel_id: 1,
        channel_name: "test".to_string(),
        jwt_token: "test_token".to_string(),
    };

    assert!(auth.validate().is_ok());
}

#[test]
fn test_validate_valid_auth() {
    let auth = AuthConfig {
        channel_id: 1,
        channel_name: "test".to_string(),
        jwt_token: "test_token".to_string(),
    };

    assert!(auth.validate().is_ok());
}

#[test]
fn auth_config_test_validate_empty_fields() {
    let auth = AuthConfig {
        channel_id: 0,
        channel_name: "test".to_string(),
        jwt_token: "test_token".to_string(),
    };

    assert!(auth.validate().is_err());

    let auth = AuthConfig {
        channel_id: 1,
        channel_name: String::new(),
        jwt_token: "test_token".to_string(),
    };

    assert!(auth.validate().is_err());

    let auth = AuthConfig {
        channel_id: 1,
        channel_name: "test".to_string(),
        jwt_token: String::new(),
    };

    assert!(auth.validate().is_err());
}

#[test]
fn test_validate_valid_config() {
    let config = TamaConfig {
        server_url: "http://localhost:3000".to_string(),
        servers: vec![],
        server_override: false,
    };

    assert!(config.validate().is_ok());
}

#[test]
fn config_test_validate_empty_fields() {
    let config = TamaConfig {
        server_url: String::new(),
        servers: vec![],
        server_override: false,
    };

    assert!(config.validate().is_err());
}

#[test]
fn test_api_client_creation() {
    let client = ApiClient::new("http://localhost:3000".to_string());
    assert_eq!(client.base_url, "http://localhost:3000");
}

#[test]
fn test_api_client_session_token() {
    let mut client = ApiClient::new("http://srv".to_string());
    assert!(client.session_token.is_none());
    client.set_session_token("tok".to_string());
    assert_eq!(client.session_token, Some("tok".to_string()));
    let other = ApiClient::with_session_token("http://srv".to_string(), "t2".to_string());
    assert_eq!(other.session_token, Some("t2".to_string()));
}

#[test]
fn test_channel_content_new() {
    let c = ChannelContent::new("art".to_string(), "4c".to_string());
    assert_eq!(c.art, "art");
    assert_eq!(c.midi_composition, "4c");
}

#[test]
fn test_default_paths() {
    assert_eq!(AuthConfig::default_auth_path(), "./auth.json");
    assert_eq!(TamaConfig::default_config_path(), "./config.json");
    assert_eq!(TamaConfig::default_keys_dir(), ".");
}

#[test]
fn test_default_limit_is_fifty() {
    assert_eq!(default_limit(), 50);
}

#[test]
fn test_clamp_pagination_bounds() {
    let p = clamp_pagination(PaginationParams { limit: 0, offset: -5 });
    assert_eq!((p.limit, p.offset), (1, 0));
    let p = clamp_pagination(PaginationParams { limit: 500, offset: 3 });
    assert_eq!((p.limit, p.offset), (100, 3));
    let p = clamp_pagination(PaginationParams { limit: 50, offset: 0 });
    assert_eq!((p.limit, p.offset), (50, 0));
}

#[test]
fn test_bearer_token_extraction() {
    assert_eq!(bearer_token("Bearer abc.def"), Some("abc.def".to_string()));
    assert_eq!(bearer_token("some_token"), None);
    assert_eq!(bearer_token(""), None);
    assert_eq!(bearer_token("Bearer "), Some(String::new()));
}

use tama::server::{validate_content_upload, CreateContentRequest, MAX_CONTENT_NAME_LENGTH, MAX_ART_SIZE, MAX_MIDI_SIZE};

#[test]
fn test_validate_content_upload_valid() {
    let request = CreateContentRequest {
        channel_id: 1,
        name: "Test Content".to_string(),
        art: "\u{2800}\u{2800}\u{2800}\u{2800}\u{2800}\u{2800}\u{2800}\u{2800}\n\u{2800}\u{2800}\u{2800}\u{2800}\u{2800}\u{2800}\u{2800}\u{2800}".to_string(),
        midi: "4c 4e 4g".to_string(),
        fps_millionths: 10_000_000,
    };

    assert!(validate_content_upload(&request).is_ok());
}

#[test]
fn test_validate_content_upload_empty_name() {
    let request = CreateContentRequest {
        channel_id: 1,
        name: "".to_string(),
        art: "\u{2800}\u{2800}\u{2800}\u{2800}\u{2800}\u{2800}\u{2800}\u{2800}".to_string(),
        midi: "4c 4e 4g".to_string(),
        fps_millionths: 10_000_000,
    };

    assert!(validate_content_upload(&request).is_err());
}

#[test]
fn test_validate_content_upload_name_too_long() {
    let request = CreateContentRequest {
        channel_id: 1,
        name: "a".repeat(MAX_CONTENT_NAME_LENGTH + 1),
        art: "\u{2800}\u{2800}\u{2800}\u{2800}\u{2800}\u{2800}\u{2800}\u{2800}".to_string(),
        midi: "4c 4e 4g".to_string(),
        fps_millionths: 10_000_000,
    };

    assert!(validate_content_upload(&request).is_err());
}

#[test]
fn test_validate_content_upload_fps_too_low() {
    let request = CreateContentRequest {
        channel_id: 1,
        name: "Test".to_string(),
        art: "\u{2800}\u{2800}\u{2800}\u{2800}\u{2800}\u{2800}\u{2800}\u{2800}".to_string(),
        midi: "4c 4e 4g".to_string(),
        fps_millionths: 50_000,
    };

    assert!(validate_content_upload(&request).is_err());
}

#[test]
fn test_validate_content_upload_fps_too_high() {
    let request = CreateContentRequest {
        channel_id: 1,
        name: "Test".to_string(),
        art: "\u{2800}\u{2800}\u{2800}\u{2800}\u{2800}\u{2800}\u{2800}\u{2800}".to_string(),
        midi: "4c 4e 4g".to_string(),
        fps_millionths: 150_000_000,
    };

    assert!(validate_content_upload(&request).is_err());
}

#[test]
fn test_validate_content_upload_art_too_large() {
    let request = CreateContentRequest {
        channel_id: 1,
        name: "Test".to_string(),
        art: "a".repeat(MAX_ART_SIZE + 1),
        midi: "4c 4e 4g".to_string(),
        fps_millionths: 10_000_000,
    };

    assert!(validate_content_upload(&request).is_err());
}

#[test]
fn test_validate_content_upload_empty_art() {
    let request = CreateContentRequest {
        channel_id: 1,
        name: "Test".to_string(),
        art: "".to_string(),
        midi: "4c 4e 4g".to_string(),
        fps_millionths: 10_000_000,
    };

    assert!(validate_content_upload(&request).is_err());
}

#[test]
fn test_validate_content_upload_midi_too_large() {
    let request = CreateContentRequest {
        channel_id: 1,
        name: "Test".to_string(),
        art: "\u{2800}\u{2800}\u{2800}\u{2800}\u{2800}\u{2800}\u{2800}\u{2800}".to_string(),
        midi: "4c ".repeat(MAX_MIDI_SIZE),
        fps_millionths: 10_000_000,
    };

    assert!(validate_content_upload(&request).is_err());
}

#[test]
fn test_validate_content_upload_empty_midi() {
    let request = CreateContentRequest {
        channel_id: 1,
        name: "Test".to_string(),
        art: "\u{2800}\u{2800}\u{2800}\u{2800}\u{2800}\u{2800}\u{2800}\u{2800}".to_string(),
        midi: "".to_string(),
        fps_millionths: 10_000_000,
    };

    assert!(validate_content_upload(&request).is_err());
}

#[test]
fn test_validate_content_upload_invalid_midi() {
    let request = CreateContentRequest {
        channel_id: 1,
        name: "Test".to_string(),
        art: "\u{2800}\u{2800}\u{2800}\u{2800}\u{2800}\u{2800}\u{2800}\u{2800}".to_string(),
        midi: "invalid midi notes xyz".to_string(),
        fps_millionths: 10_000_000,
    };

    assert!(validate_content_upload(&request).is_err());
}
