use accelerator::dashboard::{
    apply_settings_request, ok_response, profile_list_json, request_body, route_request, update_settings,
    ApiRequest, NOT_FOUND, OK_EMPTY,
};
use accelerator::text::forward_slashes;
use accelerator::settings::AppSettings;

#[test]
fn routes_each_endpoint() {
    assert_eq!(route_request("GET / HTTP/1.1\r\nHost: x\r\n\r\n"), Some(ApiRequest::Dashboard));
    assert_eq!(route_request("GET /api/status HTTP/1.1\r\n\r\n"), Some(ApiRequest::Status));
    assert_eq!(route_request("GET /api/profiles HTTP/1.1\r\n\r\n"), Some(ApiRequest::Profiles));
    assert_eq!(route_request("POST /api/toggle HTTP/1.1\r\n\r\n"), Some(ApiRequest::Toggle));
    assert_eq!(route_request("POST /api/settings HTTP/1.1\r\n\r\n{}"), Some(ApiRequest::Settings));
}

#[test]
fn unknown_method_or_path_is_not_found() {
    assert_eq!(route_request("POST / HTTP/1.1\r\n\r\n"), Some(ApiRequest::NotFound));
    assert_eq!(route_request("GET /api/toggle HTTP/1.1\r\n\r\n"), Some(ApiRequest::NotFound));
    assert_eq!(route_request("GET /index.html HTTP/1.1\r\n\r\n"), Some(ApiRequest::NotFound));
    assert_eq!(route_request("get / HTTP/1.1\r\n\r\n"), Some(ApiRequest::NotFound));
}

#[test]
fn request_line_needs_two_words() {
    assert_eq!(route_request(""), None);
    assert_eq!(route_request("GET"), None);
    assert_eq!(route_request("GET\r\n/ HTTP/1.1"), None);
    assert_eq!(route_request("   \t "), None);
}

#[test]
fn words_are_split_on_any_whitespace() {
    assert_eq!(route_request("  GET\t/api/status"), Some(ApiRequest::Status));
    assert_eq!(route_request("GET /\r\n"), Some(ApiRequest::Dashboard));
    assert_eq!(route_request("GET\u{a0}/"), Some(ApiRequest::Dashboard));
}

#[test]
fn body_follows_the_blank_line() {
    let req = "POST /api/settings HTTP/1.1\r\nContent-Length: 20\r\n\r\n{\"vps_host\":\"1.2.3.4\"}";
    let body: String = request_body(req).unwrap().to_string();
    assert_eq!(body, "{\"vps_host\":\"1.2.3.4\"}");
    let empty: String = request_body("GET / HTTP/1.1\r\n\r\n").unwrap().to_string();
    assert_eq!(empty, "");
    let second: String = request_body("A\r\n\r\nB\r\n\r\nC").unwrap().to_string();
    assert_eq!(second, "B\r\n\r\nC");
    assert!(request_body("GET / HTTP/1.1\r\nHost: x\r\n").is_none());
    assert!(request_body("\n\n").is_none());
}

#[test]
fn settings_update_replaces_only_given_fields() {
    let mut s = AppSettings::default();
    update_settings(&mut s, Some("10.0.0.1".to_string()), None);
    assert_eq!(s.vps_host, "10.0.0.1");
    assert_eq!(s.active_profile, "profiles/farever.json");
    update_settings(&mut s, None, Some("profiles/aion2.json".to_string()));
    assert_eq!(s.vps_host, "10.0.0.1");
    assert_eq!(s.active_profile, "profiles/aion2.json");
    assert_eq!(s.vps_ch1, 51820);
    assert_eq!(s.vps_ch2, 4433);
    update_settings(&mut s, None, None);
    assert_eq!(s.vps_host, "10.0.0.1");
}

#[test]
fn response_framing() {
    assert_eq!(
        ok_response("application/json", "{}"),
        "HTTP/1.1 200 OK\r\nContent-Type: application/json\r\nContent-Length: 2\r\nConnection: close\r\n\r\n{}"
    );
    // The length counts bytes, not characters.
    let r = ok_response("text/plain", "\u{e9}t\u{e9}");
    assert!(r.contains("Content-Length: 5\r\n"));
    assert!(r.ends_with("\r\n\r\n\u{e9}t\u{e9}"));
    let empty = ok_response("text/html", "");
    assert!(empty.contains("Content-Length: 0\r\n"));
    let long = "x".repeat(12345);
    assert!(ok_response("text/plain", &long).contains("Content-Length: 12345\r\n"));
    assert_eq!(OK_EMPTY, "HTTP/1.1 200 OK\r\nContent-Length: 2\r\nConnection: close\r\n\r\nOK");
    assert!(NOT_FOUND.starts_with("HTTP/1.1 404 Not Found\r\n"));
}

#[test]
fn settings_request_updates_from_json_body() {
    let mut s = AppSettings::default();
    let req = "POST /api/settings HTTP/1.1\r\nHost: x\r\n\r\n{\"vps_host\": \"1.2.3.4\", \"active_profile\": \"profiles/aion2.json\"}";
    assert!(apply_settings_request(&mut s, req));
    assert_eq!(s.vps_host, "1.2.3.4");
    assert_eq!(s.active_profile, "profiles/aion2.json");

    // Only the fields given as strings change.
    let mut t = AppSettings::default();
    assert!(apply_settings_request(&mut t, "POST /api/settings HTTP/1.1\r\n\r\n{\"vps_host\": 5, \"active_profile\": \"p.json\"}"));
    assert_eq!(t.vps_host, "72.61.111.131");
    assert_eq!(t.active_profile, "p.json");

    // No body, or a body that is no JSON: nothing changes.
    let mut u = AppSettings::default();
    assert!(!apply_settings_request(&mut u, "POST /api/settings HTTP/1.1\r\n"));
    assert!(!apply_settings_request(&mut u, "POST /api/settings HTTP/1.1\r\n\r\n{oops"));
    assert_eq!(u.vps_host, "72.61.111.131");
    assert_eq!(u.active_profile, "profiles/farever.json");
    // JSON that is not an object still counts as applied, with nothing to take.
    assert!(apply_settings_request(&mut u, "POST /api/settings HTTP/1.1\r\n\r\n[1, 2]"));
    assert_eq!(u.vps_host, "72.61.111.131");
}

#[test]
fn profile_list_as_json() {
    let entries = vec![
        ("profiles/aion2.json".to_string(), "aion2".to_string(), "Aion 2 \"MMO\"".to_string()),
        ("profiles/farever.json".to_string(), "farever".to_string(), "Farever".to_string()),
    ];
    let text = profile_list_json(&entries);
    let v: serde_json::Value = serde_json::from_str(&text).unwrap();
    assert_eq!(v.as_array().unwrap().len(), 2);
    assert_eq!(v[0]["path"], "profiles/aion2.json");
    assert_eq!(v[0]["id"], "aion2");
    assert_eq!(v[0]["name"], "Aion 2 \"MMO\"");
    assert_eq!(v[1]["name"], "Farever");
    assert_eq!(text, "[{\"id\":\"aion2\",\"name\":\"Aion 2 \\\"MMO\\\"\",\"path\":\"profiles/aion2.json\"},{\"id\":\"farever\",\"name\":\"Farever\",\"path\":\"profiles/farever.json\"}]");
    assert_eq!(profile_list_json(&Vec::new()), "[]");
}

#[test]
fn backslashes_become_slashes() {
    assert_eq!(forward_slashes("profiles\\aion2.json"), "profiles/aion2.json");
    assert_eq!(forward_slashes("\\a\\\\b\\"), "/a//b/");
    assert_eq!(forward_slashes("plain"), "plain");
    assert_eq!(forward_slashes(""), "");
}
