use narrative_loom::provider_requests::{
    connection_test_headers, http_failure_message, keychain_reference, model_list_headers, models_url,
    provided_api_key,
};

fn s(x: &str) -> String {
    x.to_string()
}

#[test]
fn model_list_requests() {
    assert_eq!(models_url("https://api.example.com//"), "https://api.example.com/v1/models");
    assert_eq!(
        model_list_headers("anthropic", &Some(s("k"))),
        vec![(s("x-api-key"), s("k")), (s("anthropic-version"), s("2023-06-01"))]
    );
    assert_eq!(model_list_headers("openai", &Some(s("k"))), vec![(s("Authorization"), s("Bearer k"))]);
    assert!(model_list_headers("openai", &None).is_empty());
    assert!(connection_test_headers("").is_empty());
    assert_eq!(connection_test_headers("k"), vec![(s("Authorization"), s("Bearer k"))]);
}

#[test]
fn keys_and_failures() {
    assert_eq!(provided_api_key(&Some(s(""))), None);
    assert_eq!(provided_api_key(&Some(s("k"))), Some(s("k")));
    assert_eq!(keychain_reference(&Some(s("k")), &Some(s("ref"))), None);
    assert_eq!(keychain_reference(&Some(s("")), &Some(s("ref"))), Some(s("ref")));
    assert_eq!(keychain_reference(&None, &Some(s(""))), None);
    assert_eq!(http_failure_message("404 Not Found", Some("Not Found")), "HTTP 404 Not Found: Not Found");
    assert_eq!(http_failure_message("599", None), "HTTP 599: 未知错误");
}
