use piplop_sdk::client::PiplopClient;
use piplop_sdk::error::SdkError;
use piplop_sdk::json::Json;
use piplop_sdk::json::JsonNum;
use piplop_sdk::json::parse_json;
use piplop_sdk::schema::Asset;
use piplop_sdk::schema::Genre;
use piplop_sdk::schema::Layer;
use piplop_sdk::schema::LayerType;
use piplop_sdk::schema::Storyboard;
use piplop_sdk::schema::genre_name;
use piplop_sdk::schema::genre_of_name;
use piplop_sdk::schema::StoryboardMetadata;

fn num(text: &str) -> JsonNum {
    JsonNum::new(text).expect("valid number literal")
}

fn empty_asset() -> Asset {
    Asset { url: None, content: None, generation_prompt: None, ip_id: None, sha256_hash: None }
}

fn sample_layer(id: &str, position: u32) -> Layer {
    Layer {
        id: id.to_string(),
        layer_type: LayerType::Video,
        position,
        start_time: num("0"),
        duration: num("5.5"),
        asset: Asset {
            url: Some("https://example.com/a.mp4".to_string()),
            content: None,
            generation_prompt: Some("a calm sea".to_string()),
            ip_id: None,
            sha256_hash: None,
        },
    }
}

fn sample_storyboard() -> Storyboard {
    Storyboard {
        id: "sb-1".to_string(),
        title: "My Film".to_string(),
        description: Some("a short film".to_string()),
        genre: Genre::Scifi,
        duration: num("30.5"),
        aspect_ratio: "16:9".to_string(),
        layers: vec![sample_layer("l1", 0), sample_layer("l2", 1), sample_layer("l3", 2)],
        metadata: StoryboardMetadata {
            author: Some("ada".to_string()),
            created_at: None,
            tags: vec!["sea".to_string(), "sea".to_string(), "calm".to_string()],
            license: None,
            ip_id: None,
        },
    }
}

#[test]
fn validate_accepts_valid_storyboard() {
    assert!(sample_storyboard().validate().is_ok());
}

#[test]
fn validate_rejects_empty_title() {
    let mut sb = sample_storyboard();
    sb.title = String::new();
    match sb.validate() {
        Err(SdkError::Validation(m)) => assert_eq!(m, "Title is required"),
        other => panic!("expected a validation error, got {:?}", other),
    }
}

#[test]
fn validate_rejects_zero_duration() {
    let mut sb = sample_storyboard();
    sb.duration = num("0.0");
    match sb.validate() {
        Err(SdkError::Validation(m)) => assert_eq!(m, "Duration must be positive"),
        other => panic!("expected a validation error, got {:?}", other),
    }
}

#[test]
fn validate_rejects_negative_duration() {
    let mut sb = sample_storyboard();
    sb.duration = num("-3");
    assert!(sb.validate().is_err());
}

#[test]
fn validate_accepts_small_positive_duration() {
    let mut sb = sample_storyboard();
    sb.duration = num("0.001");
    assert!(sb.validate().is_ok());
}

#[test]
fn round_trip_keeps_storyboard() {
    let sb = sample_storyboard();
    let text = sb.to_json_text().expect("well-formed storyboard serializes");
    let back = Storyboard::from_json_text(&text).expect("round trip parses");
    assert_eq!(back.id, sb.id);
    assert_eq!(back.title, sb.title);
    assert_eq!(back.description, sb.description);
    assert_eq!(back.layers.len(), 3);
    assert_eq!(back.layers[1].id, "l2");
    assert_eq!(back.layers[1].position, 1);
    assert_eq!(back.metadata.tags, vec!["sea", "sea", "calm"]);
    assert_eq!(back.to_json_text().expect("parsed storyboard serializes"), text);
}

#[test]
fn round_trip_keeps_absent_optional_fields() {
    let mut sb = sample_storyboard();
    sb.description = None;
    sb.metadata = StoryboardMetadata {
        author: None,
        created_at: None,
        tags: vec![],
        license: None,
        ip_id: None,
    };
    let text = sb.to_json_text().expect("well-formed storyboard serializes");
    let back = Storyboard::from_json_text(&text).expect("round trip parses");
    assert_eq!(back.description, None);
    assert_eq!(back.metadata.author, None);
    assert!(back.metadata.tags.is_empty());
    assert_eq!(back.to_json_text().expect("parsed storyboard serializes"), text);
}

#[test]
fn round_trip_keeps_large_position() {
    let mut sb = sample_storyboard();
    sb.layers[0].position = 4294967295;
    let text = sb.to_json_text().expect("well-formed storyboard serializes");
    let back = Storyboard::from_json_text(&text).expect("round trip parses");
    assert_eq!(back.layers[0].position, 4294967295);
}

#[test]
fn load_rejects_missing_title() {
    let text = r#"{"id":"sb-1","genre":"anime","duration":3.5,"aspect_ratio":"16:9","layers":[],"metadata":{"tags":[]}}"#;
    match Storyboard::from_json_text(text) {
        Err(SdkError::Json(_)) => {},
        other => panic!("expected a shape error, got {:?}", other),
    }
}

#[test]
fn load_rejects_malformed_json() {
    match Storyboard::from_json_text("{\"id\": ") {
        Err(SdkError::Json(_)) => {},
        other => panic!("expected a JSON error, got {:?}", other),
    }
}

#[test]
fn load_accepts_missing_metadata() {
    let text = r#"{"id":"sb-1","title":"T","genre":"anime","duration":3.5,"aspect_ratio":"16:9","layers":[]}"#;
    let sb = Storyboard::from_json_text(text).expect("metadata defaults when absent");
    assert_eq!(sb.metadata.author, None);
    assert!(sb.metadata.tags.is_empty());
}

#[test]
fn load_rejects_invalid_document_with_validation_error() {
    let text = r#"{"id":"sb-1","title":"","genre":"anime","duration":3.5,"aspect_ratio":"16:9","layers":[]}"#;
    match Storyboard::from_json_text(text) {
        Err(SdkError::Validation(_)) => {},
        other => panic!("expected a validation error, got {:?}", other),
    }
}

#[test]
fn register_body_sends_exactly_four_fields() {
    let client = PiplopClient::new("http://localhost:8080");
    let sb = sample_storyboard();
    let body = client.register_request_body(&sb);
    assert_eq!(
        body,
        r#"{"target_type":"storyboard","target_id":"sb-1","title":"My Film","description":"a short film"}"#
    );
    assert!(!body.contains("genre"));
    assert!(!body.contains("layers"));
    assert!(!body.contains("duration"));
}

#[test]
fn register_body_writes_null_for_missing_description() {
    let client = PiplopClient::new("http://localhost:8080");
    let mut sb = sample_storyboard();
    sb.description = None;
    let body = client.register_request_body(&sb);
    assert_eq!(
        body,
        r#"{"target_type":"storyboard","target_id":"sb-1","title":"My Film","description":null}"#
    );
}

#[test]
fn register_success_returns_ip_id() {
    let client = PiplopClient::new("http://localhost:8080");
    let r = client.interpret_register_response(true, r#"{"ip_id":"ip-123"}"#);
    assert_eq!(r.expect("registration succeeds"), "ip-123");
}

#[test]
fn register_success_without_ip_id_fails() {
    let client = PiplopClient::new("http://localhost:8080");
    match client.interpret_register_response(true, "{}") {
        Err(SdkError::StoryProtocol(m)) => assert_eq!(m, "No IP ID in response"),
        other => panic!("expected a domain error, got {:?}", other),
    }
}

#[test]
fn register_failure_carries_body_verbatim() {
    let client = PiplopClient::new("http://localhost:8080");
    match client.interpret_register_response(false, "server exploded") {
        Err(SdkError::StoryProtocol(m)) => assert_eq!(m, "server exploded"),
        other => panic!("expected a domain error, got {:?}", other),
    }
}

#[test]
fn status_returns_parsed_body_verbatim() {
    let client = PiplopClient::new("http://localhost:8080");
    let body = r#"{"ip_id":"ip-9","nested":{"list":[1,2.5,true,null],"name":"n"}}"#;
    let v = client.interpret_status_response(body).expect("valid JSON body");
    assert_eq!(v.to_text(), body);
    match v.get("nested") {
        Some(Json::Obj(_)) => {},
        other => panic!("expected the nested object, got {:?}", other),
    }
}

#[test]
fn status_rejects_non_json_body() {
    let client = PiplopClient::new("http://localhost:8080");
    match client.interpret_status_response("not json") {
        Err(SdkError::Http(_)) => {},
        other => panic!("expected a transport error, got {:?}", other),
    }
}

#[test]
fn client_urls_and_credential() {
    let client = PiplopClient::new("http://api.example").with_api_key("k-1");
    assert_eq!(client.register_url(), "http://api.example/api/ip/register");
    assert_eq!(client.status_url("ip-7"), "http://api.example/api/ip/ip-7");
    assert_eq!(client.auth_header().expect("credential attached"), "Bearer k-1");
    let bare = PiplopClient::new("http://api.example");
    assert!(bare.auth_header().is_none());
}

#[test]
fn number_literals_follow_the_grammar() {
    assert!(JsonNum::new("0").is_some());
    assert!(JsonNum::new("-12.75").is_some());
    assert!(JsonNum::new("2.5e3").is_some());
    assert!(JsonNum::new("007").is_none());
    assert!(JsonNum::new("1.").is_none());
    assert!(JsonNum::new(".5").is_none());
    assert!(JsonNum::new("").is_none());
    assert!(JsonNum::new("1e").is_none());
}

#[test]
fn parser_handles_whitespace_and_escapes() {
    let v = parse_json(" { \"a\\n\\\"b\" : [ 1 , \"x\\\\y\" ] } ").expect("valid document");
    let out = v.to_text();
    assert_eq!(out, r#"{"a\n\"b":[1,"x\\y"]}"#);
    let again = parse_json(&out).expect("canonical text parses");
    assert_eq!(again.to_text(), out);
}

#[test]
fn parser_rejects_trailing_garbage() {
    assert!(parse_json("{} x").is_err());
    assert!(parse_json("[1,]").is_err());
    assert!(parse_json("").is_err());
}

#[test]
fn string_escapes_round_trip_through_text() {
    let v = Json::Str("line1\nline2\t\"quoted\" \\ back\u{1}".to_string());
    let text = v.to_text();
    let back = parse_json(&text).expect("escaped text parses");
    match back {
        Json::Str(s) => assert_eq!(s, "line1\nline2\t\"quoted\" \\ back\u{1}"),
        other => panic!("expected a string, got {:?}", other),
    }
}

#[test]
fn genre_names_round_trip() {
    for g in [Genre::Anime, Genre::Horror, Genre::Scifi, Genre::Commercial, Genre::Brainrot] {
        let name = genre_name(g);
        assert_eq!(genre_of_name(&name), Some(g));
    }
    assert_eq!(genre_of_name("western"), None);
}

#[test]
fn schema_document_describes_the_model() {
    let schema = Storyboard::json_schema();
    let text = schema.to_text();
    assert!(text.contains("\"title\":\"Storyboard\""));
    assert!(text.contains("\"genre\""));
    assert!(text.contains("\"brainrot\""));
    assert!(text.contains("\"layers\""));
    assert!(text.contains("\"sha256_hash\""));
    assert!(text.contains("\"required\""));
}

#[test]
fn error_messages_carry_kind_and_detail() {
    assert_eq!(SdkError::Validation("no".to_string()).message(), "Validation error: no");
    assert_eq!(SdkError::FileNotFound("p.json".to_string()).message(), "File not found: p.json");
    assert_eq!(SdkError::StoryProtocol("boom".to_string()).message(), "Story Protocol error: boom");
}

#[test]
fn empty_asset_serializes_with_nulls() {
    let layer = Layer {
        id: "l".to_string(),
        layer_type: LayerType::Text,
        position: 0,
        start_time: num("0"),
        duration: num("1"),
        asset: empty_asset(),
    };
    let text = layer.to_json().to_text();
    assert!(text.contains("\"url\":null"));
    assert!(text.contains("\"layer_type\":\"text\""));
}

#[test]
fn parser_accepts_unicode_escapes() {
    match parse_json(r#""\u0041\u00e9\u4e16""#).expect("escaped text parses") {
        Json::Str(t) => assert_eq!(t, "A\u{e9}\u{4e16}"),
        other => panic!("expected a string, got {:?}", other),
    }
}

#[test]
fn parser_accepts_surrogate_pairs() {
    match parse_json(r#""\ud83d\ude00""#).expect("surrogate pair parses") {
        Json::Str(t) => assert_eq!(t, "\u{1f600}"),
        other => panic!("expected a string, got {:?}", other),
    }
}

#[test]
fn parser_rejects_lone_surrogates() {
    assert!(parse_json(r#""\ud800""#).is_err());
    assert!(parse_json(r#""\udc00""#).is_err());
    assert!(parse_json(r#""\ud800x""#).is_err());
}

#[test]
fn parser_rejects_raw_control_characters() {
    assert!(parse_json("\"a\u{1}b\"").is_err());
    assert!(parse_json("\"\u{0}\"").is_err());
}

#[test]
fn load_accepts_escaped_title() {
    let text = r#"{"id":"sb-1","title":"\u0041\u0042","genre":"anime","duration":3.5,"aspect_ratio":"16:9","layers":[]}"#;
    let sb = Storyboard::from_json_text(text).expect("escaped title loads");
    assert_eq!(sb.title, "AB");
}

#[test]
fn status_accepts_escaped_body() {
    let client = PiplopClient::new("http://localhost:8080");
    let v = client
        .interpret_status_response(r#"{"name":"\u00e9clair \ud83d\ude00"}"#)
        .expect("escaped body parses");
    match v.get("name") {
        Some(Json::Str(t)) => assert_eq!(t, "\u{e9}clair \u{1f600}"),
        other => panic!("expected the name string, got {:?}", other),
    }
}

#[test]
fn save_output_is_pretty_printed() {
    let sb = Storyboard {
        id: "s".to_string(),
        title: "T".to_string(),
        description: None,
        genre: Genre::Anime,
        duration: num("1"),
        aspect_ratio: "1:1".to_string(),
        layers: vec![],
        metadata: StoryboardMetadata {
            author: None,
            created_at: None,
            tags: vec![],
            license: None,
            ip_id: None,
        },
    };
    let text = sb.to_json_text().expect("well-formed storyboard serializes");
    let expected = "{\n  \"id\": \"s\",\n  \"title\": \"T\",\n  \"description\": null,\n  \"genre\": \"anime\",\n  \"duration\": 1,\n  \"aspect_ratio\": \"1:1\",\n  \"layers\": [],\n  \"metadata\": {\n    \"author\": null,\n    \"created_at\": null,\n    \"tags\": [],\n    \"license\": null,\n    \"ip_id\": null\n  }\n}";
    assert_eq!(text, expected);
}

#[test]
fn serializing_an_ill_formed_number_fails() {
    let mut sb = sample_storyboard();
    sb.duration = JsonNum { text: "not a number".to_string() };
    match sb.to_json_text() {
        Err(SdkError::Json(_)) => {},
        other => panic!("expected a JSON error, got {:?}", other),
    }
}
