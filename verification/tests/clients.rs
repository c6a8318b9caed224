use guardrails_orchestrator::clients::config::{ServiceConfig, Tls, TlsConfig};
use guardrails_orchestrator::clients::detector::text_chat::{
    ChatDetectionRequest, TextChatDetectorClient, CHAT_DETECTOR_ENDPOINT,
};
use guardrails_orchestrator::clients::errors::Error;
use guardrails_orchestrator::clients::http::base_url;
use guardrails_orchestrator::clients::generation::{
    nlp_tokens, tgis_tokens, GenerationClient, GenerationClientInner, Token, TokenizeResponse,
};
use guardrails_orchestrator::clients::nlp::{health_of, Code, HealthStatus, NlpClient};
use guardrails_orchestrator::clients::{
    Client, ClientMap, DEFAULT_CONNECT_TIMEOUT_SEC, DEFAULT_REQUEST_TIMEOUT_SEC,
};

struct Chunker;

impl Client for Chunker {
    fn name(&self) -> &str {
        "chunker"
    }
}

struct Detector {
    threshold: u8,
}

impl Client for Detector {
    fn name(&self) -> &str {
        "detector"
    }
}

fn boxed<C: Client>(client: C) -> Box<dyn Client> {
    Box::new(client)
}

#[test]
fn client_map_starts_empty() {
    let map: ClientMap = ClientMap::new();
    assert_eq!(map.len(), 0);
    assert!(map.is_empty());
    assert!(map.get("chunker").is_none());
    assert!(map.keys().is_empty());
    assert!(map.values().is_empty());
    assert!(map.iter().is_empty());
}

#[test]
fn client_map_holds_different_types_of_clients() {
    let mut map: ClientMap = ClientMap::new();
    map.insert("sentence".to_string(), boxed(Chunker));
    map.insert("hap".to_string(), boxed(Detector { threshold: 3 }));
    assert_eq!(map.len(), 2);
    assert!(!map.is_empty());
    assert_eq!(map.get("sentence").unwrap().name(), "chunker");
    assert_eq!(map.get("hap").unwrap().name(), "detector");
    assert!(map.get("pii").is_none());
    assert!(map.get("sentence").unwrap().is::<Chunker>());
    assert!(!map.get("sentence").unwrap().is::<Detector>());
    assert!(map.get("hap").unwrap().is::<Detector>());
    assert!(!map.get("hap").unwrap().is::<Chunker>());
}

#[test]
fn client_map_insert_replaces_the_client_of_a_key() {
    let mut map: ClientMap<u32> = ClientMap::new();
    map.insert("a".to_string(), 1);
    map.insert("b".to_string(), 2);
    map.insert("a".to_string(), 3);
    assert_eq!(map.len(), 2);
    assert_eq!(map.get("a"), Some(&3));
    assert_eq!(map.get("b"), Some(&2));
}

#[test]
fn client_map_get_mut_changes_the_client_in_place() {
    let mut map: ClientMap<Detector> = ClientMap::new();
    map.insert("hap".to_string(), Detector { threshold: 3 });
    map.get_mut("hap").unwrap().threshold = 9;
    assert_eq!(map.get("hap").unwrap().threshold, 9);
    assert!(map.get_mut("pii").is_none());
    assert_eq!(map.len(), 1);
}

#[test]
fn client_map_remove_hands_the_client_out() {
    let mut map: ClientMap<u32> = ClientMap::new();
    map.insert("a".to_string(), 1);
    map.insert("b".to_string(), 2);
    map.insert("c".to_string(), 3);
    assert_eq!(map.remove("b"), Some(2));
    assert_eq!(map.remove("b"), None);
    assert_eq!(map.len(), 2);
    assert_eq!(map.get("a"), Some(&1));
    assert_eq!(map.get("c"), Some(&3));
    assert_eq!(map.remove("a"), Some(1));
    assert_eq!(map.remove("c"), Some(3));
    assert!(map.is_empty());
}

#[test]
fn client_map_iterates_each_entry_once() {
    let mut map: ClientMap<u32> = ClientMap::new();
    map.insert("a".to_string(), 1);
    map.insert("b".to_string(), 2);
    map.insert("c".to_string(), 3);
    map.remove("a");
    let mut keys: Vec<String> = map.keys().into_iter().cloned().collect();
    keys.sort();
    assert_eq!(keys, vec!["b".to_string(), "c".to_string()]);
    let mut values: Vec<u32> = map.values().into_iter().copied().collect();
    values.sort();
    assert_eq!(values, vec![2, 3]);
    let mut pairs: Vec<(String, u32)> = map.iter().into_iter().map(|(k, v)| (k.clone(), *v)).collect();
    pairs.sort();
    assert_eq!(pairs, vec![("b".to_string(), 2), ("c".to_string(), 3)]);
}

#[test]
fn is_tells_client_types_apart() {
    let chunker: Box<dyn Client> = boxed(Chunker);
    let detector: Box<dyn Client> = boxed(Detector { threshold: 1 });
    assert!(chunker.is::<Chunker>());
    assert!(!chunker.is::<Detector>());
    assert!(detector.is::<Detector>());
    assert!(!detector.is::<Chunker>());
    assert!(!detector.is::<u32>());
}

#[test]
fn generation_client_routes_to_the_configured_backend() {
    let tgis: GenerationClient<&str, u8> = GenerationClient::tgis("tgis backend");
    assert!(tgis.is_configured());
    assert!(matches!(tgis.backend("m".to_string()), Ok(GenerationClientInner::Tgis("tgis backend"))));
    let nlp: GenerationClient<&str, u8> = GenerationClient::nlp(7);
    assert!(nlp.is_configured());
    assert!(matches!(nlp.backend("m".to_string()), Ok(GenerationClientInner::Nlp(7))));
    assert_eq!(nlp.name(), "generation");
}

#[test]
fn generation_client_without_backend_finds_no_model() {
    let none: GenerationClient<&str, u8> = GenerationClient::not_configured();
    assert!(!none.is_configured());
    match none.backend("granite".to_string()) {
        Err(Error::ModelNotFound { model_id }) => assert_eq!(model_id, "granite"),
        Ok(_) => panic!("a backend was found"),
    }
}

#[test]
fn text_chat_detector_checks_health_through_the_health_client() {
    let with_health = TextChatDetectorClient::new("requests", Some("health"));
    assert_eq!(*with_health.client(), "requests");
    assert_eq!(*with_health.inner(), "requests");
    assert_eq!(*with_health.health_target(), "health");
    let without = TextChatDetectorClient::new("requests", None);
    assert_eq!(*without.health_target(), "requests");
    assert_eq!(without.name(), "text_chat_detector");
    assert_eq!(without.endpoint(), "/api/v1/text/chat");
    assert_eq!(CHAT_DETECTOR_ENDPOINT, "/api/v1/text/chat");
}

#[test]
fn chat_detection_request_keeps_its_parts() {
    let request = ChatDetectionRequest::new(vec!["hello", "world"], vec![1u8], 0.5f64);
    assert_eq!(request.messages, vec!["hello", "world"]);
    assert_eq!(request.tools, vec![1u8]);
    assert_eq!(request.detector_params, 0.5);
}

#[test]
fn nlp_health_counts_refusals_as_healthy() {
    let client = NlpClient::new("service", "health");
    assert_eq!(client.name(), "nlp");
    for outcome in [Ok(()), Err(Code::InvalidArgument), Err(Code::NotFound)] {
        let result = client.health(outcome);
        assert_eq!(result.status, HealthStatus::Healthy);
        assert_eq!(result.code, Code::Okay);
        assert_eq!(result.reason, None);
    }
}

#[test]
fn nlp_health_reports_the_code_of_a_failure() {
    let client = NlpClient::new("service", "health");
    for code in [
        Code::Cancelled,
        Code::Unknown,
        Code::DeadlineExceeded,
        Code::AlreadyExists,
        Code::PermissionDenied,
        Code::ResourceExhausted,
        Code::FailedPrecondition,
        Code::Aborted,
        Code::OutOfRange,
        Code::Unimplemented,
        Code::Internal,
        Code::Unavailable,
        Code::DataLoss,
        Code::Unauthenticated,
    ] {
        let result = client.health(Err(code));
        assert_eq!(result.status, HealthStatus::Unhealthy);
        assert_eq!(result.code, code);
        assert_eq!(result.reason, None);
    }
    // An `Okay` that comes as a failure is still `Okay`.
    assert_eq!(client.health(Err(Code::Okay)).status, HealthStatus::Healthy);
}

fn plain_config() -> ServiceConfig {
    ServiceConfig { hostname: "http://localhost".to_string(), port: None, request_timeout: None, tls: None }
}

#[test]
fn service_config_falls_back_to_the_defaults() {
    let config = plain_config();
    assert_eq!(config.port_or(8085), 8085);
    assert_eq!(config.request_timeout_secs(), 600);
    assert_eq!(DEFAULT_REQUEST_TIMEOUT_SEC, 600);
    assert_eq!(DEFAULT_CONNECT_TIMEOUT_SEC, 60);
    assert!(config.can_plan_http());
    let plan = config.http_client_plan(8080);
    assert_eq!(plan.hostname, "http://localhost");
    assert_eq!(plan.port, 8080);
    assert_eq!(plan.connect_timeout_secs, 60);
    assert_eq!(plan.request_timeout_secs, 600);
    assert!(plan.tls.is_none());
}

#[test]
fn service_config_keeps_what_it_names() {
    let config = ServiceConfig {
        hostname: "https://detector".to_string(),
        port: Some(9000),
        request_timeout: Some(30),
        tls: Some(Tls::Config(TlsConfig {
            cert_path: Some("/certs/tls.crt".to_string()),
            key_path: Some("/certs/tls.key".to_string()),
            client_ca_cert_path: Some("/certs/ca.crt".to_string()),
            insecure: Some(true),
        })),
    };
    assert_eq!(config.port_or(8080), 9000);
    assert_eq!(config.request_timeout_secs(), 30);
    assert!(config.can_plan_http());
    assert!(config.can_plan_grpc());
    let http = config.http_client_plan(8080);
    assert_eq!(http.port, 9000);
    assert_eq!(http.request_timeout_secs, 30);
    let tls = http.tls.unwrap();
    assert_eq!(tls.cert_path, "/certs/tls.crt");
    assert_eq!(tls.key_path, Some("/certs/tls.key".to_string()));
    assert_eq!(tls.client_ca_cert_path, Some("/certs/ca.crt".to_string()));
    assert!(tls.insecure);
    let grpc = config.grpc_client_plan(8085);
    assert_eq!(grpc.hostname, "https://detector");
    assert_eq!(grpc.port, 9000);
    assert_eq!(grpc.connect_timeout_secs, 60);
    assert_eq!(grpc.request_timeout_secs, 30);
    let tls = grpc.tls.unwrap();
    assert_eq!(tls.cert_path, "/certs/tls.crt");
    assert_eq!(tls.key_path, "/certs/tls.key");
    assert_eq!(tls.client_ca_cert_path, Some("/certs/ca.crt".to_string()));
}

#[test]
fn service_config_with_a_named_tls_configuration_plans_no_tls() {
    let mut config = plain_config();
    config.tls = Some(Tls::Name("detector-tls".to_string()));
    assert!(config.can_plan_http());
    assert!(config.can_plan_grpc());
    assert!(config.http_client_plan(1).tls.is_none());
    assert!(config.grpc_client_plan(1).tls.is_none());
}

#[test]
fn service_config_without_certificate_or_key_cannot_be_planned() {
    let mut config = plain_config();
    config.tls = Some(Tls::Config(TlsConfig {
        cert_path: None,
        key_path: None,
        client_ca_cert_path: None,
        insecure: None,
    }));
    assert!(!config.can_plan_http());
    assert!(!config.can_plan_grpc());
    config.tls = Some(Tls::Config(TlsConfig {
        cert_path: Some("/certs/bundle.pem".to_string()),
        key_path: None,
        client_ca_cert_path: None,
        insecure: None,
    }));
    assert!(config.can_plan_http());
    assert!(!config.can_plan_grpc());
    let tls = config.http_client_plan(1).tls.unwrap();
    assert_eq!(tls.cert_path, "/certs/bundle.pem");
    assert_eq!(tls.key_path, None);
    assert!(!tls.insecure);
}

#[test]
fn base_url_is_the_parsed_hostname_with_the_port() {
    assert_eq!(base_url("http://localhost", 8080), Some("http://localhost:8080/".to_string()));
    assert_eq!(base_url("https://detector.local/api", 8443), Some("https://detector.local:8443/api".to_string()));
    // The port that the scheme implies is not written out.
    assert_eq!(base_url("http://localhost", 80), Some("http://localhost/".to_string()));
    assert_eq!(base_url("http://localhost:9000", 1234), Some("http://localhost:1234/".to_string()));
}

#[test]
fn base_url_is_none_where_the_hostname_names_no_url_with_a_port() {
    // No absolute URL.
    assert_eq!(base_url("localhost", 8080), None);
    assert_eq!(base_url("", 8080), None);
    // A URL without a host.
    assert_eq!(base_url("mailto:ops@example.com", 8080), None);
    assert_eq!(base_url("file:///etc/hosts", 8080), None);
}

#[test]
fn http_plan_names_its_base_url() {
    let plan = plain_config().http_client_plan(8080);
    assert_eq!(plan.base_url(), Some("http://localhost:8080/".to_string()));
}

#[test]
fn client_map_default_is_empty() {
    let map: ClientMap = ClientMap::default();
    assert!(map.is_empty());
    assert_eq!(map.len(), 0);
    let typed: ClientMap<u32> = Default::default();
    assert!(typed.get("a").is_none());
}

#[test]
fn tgis_tokens_are_those_of_the_first_response() {
    let responses = vec![
        TokenizeResponse { token_count: 3, tokens: vec!["a".to_string(), "b".to_string(), "c".to_string()] },
        TokenizeResponse { token_count: 1, tokens: vec!["x".to_string()] },
    ];
    let (count, tokens) = tgis_tokens(responses);
    assert_eq!(count, 3);
    assert_eq!(tokens, vec!["a".to_string(), "b".to_string(), "c".to_string()]);
    let single = tgis_tokens(vec![TokenizeResponse { token_count: 0, tokens: vec![] }]);
    assert_eq!(single, (0, vec![]));
}

#[test]
fn nlp_tokens_are_the_texts_in_order() {
    let results = vec![
        Token { start: 0, end: 4, text: "This".to_string() },
        Token { start: 5, end: 7, text: "is".to_string() },
        Token { start: 8, end: 9, text: "a".to_string() },
    ];
    let (count, tokens) = nlp_tokens(results, 3);
    assert_eq!(count, 3);
    assert_eq!(tokens, vec!["This".to_string(), "is".to_string(), "a".to_string()]);
    assert_eq!(nlp_tokens(vec![], 0), (0, vec![]));
}

#[test]
fn nlp_token_count_keeps_its_low_32_bits() {
    assert_eq!(nlp_tokens(vec![], 4294967296 + 7).0, 7);
    assert_eq!(nlp_tokens(vec![], -1).0, 4294967295);
    assert_eq!(nlp_tokens(vec![], 4294967295).0, 4294967295);
    assert_eq!(nlp_tokens(vec![], i64::MIN).0, 0);
}

#[test]
fn clients_can_be_cloned() {
    let generation: GenerationClient<u8, u8> = GenerationClient::tgis(4);
    assert!(matches!(generation.clone().backend("m".to_string()), Ok(GenerationClientInner::Tgis(4))));
    let detector = TextChatDetectorClient::new(1u8, Some(2u8));
    assert_eq!(*detector.clone().health_target(), 2);
    let nlp = NlpClient::new(1u8, 2u8);
    assert_eq!(nlp.clone().health_client, 2);
    let request = ChatDetectionRequest::new(vec![1u8], vec![2u8], 3u8);
    let copy = request.clone();
    assert_eq!(copy.messages, request.messages);
    assert_eq!(format!("{:?}", copy.detector_params), "3");
}

#[test]
fn base_url_replaces_a_port_that_the_hostname_names() {
    assert_eq!(base_url("https://detector:1?x=1#top", 65535), Some("https://detector:65535/?x=1#top".to_string()));
    assert_eq!(base_url("https://detector:8443/p", 443), Some("https://detector/p".to_string()));
    let long = format!("http://host/{}", "a".repeat(100_000));
    assert_eq!(base_url(&long, 8080), Some(format!("http://host:8080/{}", "a".repeat(100_000))));
}

#[test]
fn health_of_judges_the_outcome_of_a_check() {
    let up = health_of(Ok(()));
    assert_eq!((up.status, up.code, up.reason), (HealthStatus::Healthy, Code::Okay, None));
    let refused = health_of(Err(Code::NotFound));
    assert_eq!((refused.status, refused.code), (HealthStatus::Healthy, Code::Okay));
    let down = health_of(Err(Code::Unavailable));
    assert_eq!((down.status, down.code, down.reason), (HealthStatus::Unhealthy, Code::Unavailable, None));
}
