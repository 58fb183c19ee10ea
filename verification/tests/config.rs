use accelerator::config::{
    builtin_aion2_profile, builtin_farever_profile, GameProfile, OptimizationsConfig, PortJson,
    PortJsonError, PortMatcher, RoutingConfig,
};
use accelerator::text::ParseIntError;
use serde_json::Value;

fn port_entry(v: &Value) -> PortJson {
    match v {
        Value::Number(n) => match n.as_u64() {
            Some(p) => PortJson::Number(p),
            None => PortJson::OtherNumber,
        },
        Value::String(s) => PortJson::Text(s.clone()),
        _ => PortJson::OtherValue,
    }
}

fn port_from_json(v: &Value) -> PortMatcher {
    PortMatcher::from_json(&port_entry(v)).expect("port matcher")
}

fn strings(v: &Value) -> Vec<String> {
    v.as_array().unwrap().iter().map(|s| s.as_str().unwrap().to_string()).collect()
}

fn profile_from_json(text: &str) -> GameProfile {
    let v: Value = serde_json::from_str(text).unwrap();
    GameProfile {
        game_id: v["game_id"].as_str().unwrap().to_string(),
        name: v["name"].as_str().unwrap().to_string(),
        executables: strings(&v["executables"]),
        routing: RoutingConfig {
            protocol: v["routing"]["protocol"].as_str().unwrap().to_string(),
            ports: v["routing"]["ports"].as_array().unwrap().iter().map(port_from_json).collect(),
            target_subnets: strings(&v["routing"]["target_subnets"]),
        },
        optimizations: OptimizationsConfig {
            enable_fastconnect: v["optimizations"]["enable_fastconnect"].as_bool().unwrap(),
            enable_multipath_dup: v["optimizations"]["enable_multipath_dup"].as_bool().unwrap(),
            packet_duplication_rate: v["optimizations"]["packet_duplication_rate"].as_u64().unwrap()
                as u32,
            dscp_tag: v["optimizations"]["dscp_tag"].as_u64().unwrap() as u8,
        },
    }
}

#[test]
fn test_parse_aion2_profile() {
    let json_data = r#"{
        "game_id": "aion2",
        "name": "Aion 2 (MMORPG)",
        "executables": [
            "Aion2.exe",
            "Aion2-Win64-Shipping.exe",
            "Aion2Launcher.exe"
        ],
        "routing": {
            "protocol": "BOTH",
            "ports": [3724, 7777, 8000, "9000-9100"],
            "target_subnets": ["0.0.0.0/0"]
        },
        "optimizations": {
            "enable_fastconnect": true,
            "enable_multipath_dup": true,
            "packet_duplication_rate": 2,
            "dscp_tag": 46
        }
    }"#;

    let profile = profile_from_json(json_data);
    assert_eq!(profile.game_id, "aion2");
    assert!(profile.matches_executable("Aion2.exe"));
    assert!(profile.matches_executable("C:\\Games\\Aion2\\Binaries\\Win64\\Aion2-Win64-Shipping.exe"));
    assert!(!profile.matches_executable("chrome.exe"));

    assert!(profile.matches_port(3724));
    assert!(profile.matches_port(7777));
    assert!(profile.matches_port(9050));
    assert!(!profile.matches_port(443));
}

#[test]
fn executable_match_ignores_case() {
    let profile = profile_from_json(
        r#"{"game_id":"x","name":"X","executables":["Game.EXE"],
            "routing":{"protocol":"TCP","ports":[],"target_subnets":[]},
            "optimizations":{"enable_fastconnect":false,"enable_multipath_dup":false,
                             "packet_duplication_rate":1,"dscp_tag":0}}"#,
    );
    assert!(profile.matches_executable("game.exe"));
    assert!(profile.matches_executable("D:\\GAMES\\GAME.exe"));
    assert!(!profile.matches_executable("game.exe.bak"));
    // An empty port list routes every port.
    assert!(profile.matches_port(1));
    assert!(profile.matches_port(65535));
}

#[test]
fn port_matcher_ranges_are_inclusive() {
    let r = PortMatcher::Range(9000, 9100);
    assert!(r.matches(9000));
    assert!(r.matches(9100));
    assert!(!r.matches(8999));
    assert!(!r.matches(9101));
    assert!(PortMatcher::Single(80).matches(80));
    assert!(!PortMatcher::Single(80).matches(81));
    assert!(!PortMatcher::Range(10, 5).matches(7));
}

#[test]
fn port_text_parsing() {
    assert_eq!(PortMatcher::from_json_text("9000-9100"), Ok(PortMatcher::Range(9000, 9100)));
    assert_eq!(PortMatcher::from_json_text(" 9000 - 9100 "), Ok(PortMatcher::Range(9000, 9100)));
    assert_eq!(PortMatcher::from_json_text("7777"), Ok(PortMatcher::Single(7777)));
    assert_eq!(PortMatcher::from_json_text("\t+80\n"), Ok(PortMatcher::Single(80)));
    assert_eq!(PortMatcher::from_json_text(""), Err(ParseIntError::Empty));
    assert_eq!(PortMatcher::from_json_text("-5"), Err(ParseIntError::Empty));
    assert_eq!(PortMatcher::from_json_text("1-"), Err(ParseIntError::Empty));
    assert_eq!(PortMatcher::from_json_text("80a"), Err(ParseIntError::InvalidDigit));
    assert_eq!(PortMatcher::from_json_text("+"), Err(ParseIntError::InvalidDigit));
    assert_eq!(PortMatcher::from_json_text("65536"), Err(ParseIntError::PosOverflow));
    assert_eq!(PortMatcher::from_json_text("65535"), Ok(PortMatcher::Single(65535)));
    assert_eq!(PortMatcher::from_json_text("1-2-3"), Err(ParseIntError::InvalidDigit));
}

#[test]
fn port_text_parsing_agrees_with_std() {
    for s in ["0", "00080", "+1", "x", "", " ", "99999", "12 3", "\u{a0}42\u{3000}"] {
        let ours = PortMatcher::from_json_text(s);
        let std_result = s.trim().parse::<u16>();
        match (ours, std_result) {
            (Ok(PortMatcher::Single(a)), Ok(b)) => assert_eq!(a, b),
            (Err(_), Err(_)) => {}
            (o, t) => panic!("disagree on {:?}: {:?} vs {:?}", s, o, t),
        }
    }
}

#[test]
fn json_numbers_keep_low_bits() {
    assert_eq!(PortMatcher::from_json_number(7777), PortMatcher::Single(7777));
    assert_eq!(PortMatcher::from_json_number(70000), PortMatcher::Single(4464));
}

#[test]
fn builtin_profiles() {
    let a = builtin_aion2_profile();
    assert_eq!(a.game_id, "aion2");
    assert_eq!(a.executables.len(), 3);
    assert!(a.matches_executable("C:\\Games\\AION2LAUNCHER.EXE"));
    assert!(a.matches_port(9100));
    assert!(!a.matches_port(9101));
    assert_eq!(a.optimizations.dscp_tag, 46);
    let f = builtin_farever_profile();
    assert_eq!(f.name, "Farever");
    assert_eq!(f.routing.protocol, "TCP");
    assert!(f.matches_port(6022));
    assert!(!f.matches_port(7777));
    assert!(f.matches_executable("farever.exe"));
}

#[test]
fn port_json_round_trip() {
    for m in [PortMatcher::Single(0), PortMatcher::Single(3724), PortMatcher::Single(65535),
              PortMatcher::Range(9000, 9100), PortMatcher::Range(0, 65535), PortMatcher::Range(7, 7)] {
        assert_eq!(PortMatcher::from_json(&m.to_json()), Ok(m));
    }
    match PortMatcher::Range(9000, 9100).to_json() {
        PortJson::Text(t) => assert_eq!(t, "9000-9100"),
        _ => panic!("expected text"),
    }
    match PortMatcher::Single(3724).to_json() {
        PortJson::Number(n) => assert_eq!(n, 3724),
        _ => panic!("expected a number"),
    }
    assert_eq!(PortMatcher::from_json(&PortJson::Text("7777".to_string())), Ok(PortMatcher::Single(7777)));
    assert_eq!(
        PortMatcher::from_json(&PortJson::Text("abc".to_string())),
        Err(PortJsonError::BadText(ParseIntError::InvalidDigit))
    );
    assert_eq!(PortMatcher::from_json(&PortJson::Number(70000)), Ok(PortMatcher::Single(4464)));
}

#[test]
fn json_port_values_that_are_no_ports() {
    for text in ["true", "null", "[1]", "{\"a\": 1}", "-5", "3.5"] {
        let v: Value = serde_json::from_str(text).unwrap();
        assert!(PortMatcher::from_json(&port_entry(&v)).is_err(), "{} must be rejected", text);
    }
    let neg: Value = serde_json::from_str("-5").unwrap();
    let e = PortMatcher::from_json(&port_entry(&neg)).unwrap_err();
    assert_eq!(e, PortJsonError::InvalidPortNumber);
    assert_eq!(e.message(), "Invalid port number");
    let b: Value = serde_json::from_str("true").unwrap();
    let e = PortMatcher::from_json(&port_entry(&b)).unwrap_err();
    assert_eq!(e.message(), "Port must be integer or range string");
    let t: Value = serde_json::from_str("\"\"").unwrap();
    let e = PortMatcher::from_json(&port_entry(&t)).unwrap_err();
    assert_eq!(e.message(), "cannot parse integer from empty string");
    for (text, m) in [("3724", PortMatcher::Single(3724)), ("\"7777\"", PortMatcher::Single(7777)),
                      ("\"9000-9100\"", PortMatcher::Range(9000, 9100))] {
        let v: Value = serde_json::from_str(text).unwrap();
        assert_eq!(PortMatcher::from_json(&port_entry(&v)), Ok(m));
    }
}
