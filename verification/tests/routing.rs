use slint_mapping::routers::osrm::{
    build_url, map_maneuver, profile_str, route_from_response, OsrmLeg, OsrmManeuver,
    OsrmResponse, OsrmRoute, OsrmStep,
};
use slint_mapping::routers::{OsrmRouter, OSRM_DEMO_URL};
use slint_mapping::routing::{Maneuver, ManeuverKind, Profile, RouteError, RouteRequest};

fn pair(lon: f64, lat: f64) -> (u64, u64) {
    (lon.to_bits(), lat.to_bits())
}

fn coord_texts(req: &RouteRequest) -> Vec<String> {
    req.waypoints
        .iter()
        .map(|(lon, lat)| format!("{},{}", f64::from_bits(*lon), f64::from_bits(*lat)))
        .collect()
}

fn num(v: &serde_json::Value) -> u64 {
    v.as_f64().unwrap().to_bits()
}

fn text(v: &serde_json::Value, field: &str) -> String {
    v.get(field).and_then(|s| s.as_str()).unwrap_or("").to_string()
}

/// Builds the crate's response shape from a JSON body.
fn response_from_json(body: &str) -> OsrmResponse {
    let v: serde_json::Value = serde_json::from_str(body).expect("json");
    let routes = v
        .get("routes")
        .and_then(|r| r.as_array())
        .cloned()
        .unwrap_or_default()
        .iter()
        .map(|r| OsrmRoute {
            geometry: r["geometry"]["coordinates"]
                .as_array()
                .unwrap()
                .iter()
                .map(|c| (num(&c[0]), num(&c[1])))
                .collect(),
            distance: num(&r["distance"]),
            duration: num(&r["duration"]),
            legs: r
                .get("legs")
                .and_then(|l| l.as_array())
                .cloned()
                .unwrap_or_default()
                .iter()
                .map(|leg| OsrmLeg {
                    steps: leg
                        .get("steps")
                        .and_then(|s| s.as_array())
                        .cloned()
                        .unwrap_or_default()
                        .iter()
                        .map(|s| OsrmStep {
                            distance: num(&s["distance"]),
                            duration: num(&s["duration"]),
                            name: text(s, "name"),
                            maneuver: OsrmManeuver {
                                location: (
                                    num(&s["maneuver"]["location"][0]),
                                    num(&s["maneuver"]["location"][1]),
                                ),
                                kind: text(&s["maneuver"], "type"),
                                modifier: text(&s["maneuver"], "modifier"),
                                exit: s["maneuver"].get("exit").and_then(|e| e.as_u64()).map(|e| e as u8),
                            },
                        })
                        .collect(),
                })
                .collect(),
        })
        .collect();
    OsrmResponse { code: text(&v, "code"), routes }
}

const SAMPLE_OK_BODY: &str = r#"{
    "code": "Ok",
    "routes": [{
        "geometry": {
            "type": "LineString",
            "coordinates": [[-0.1, 51.5], [-0.05, 51.51], [0.0, 51.52]]
        },
        "distance": 1234.5,
        "duration": 567.8,
        "legs": [
            {
                "steps": [
                    {
                        "distance": 50.0, "duration": 10.0, "name": "Origin St",
                        "maneuver": {"location": [-0.1, 51.5], "type": "depart", "modifier": ""}
                    },
                    {
                        "distance": 1000.0, "duration": 400.0, "name": "Main St",
                        "maneuver": {"location": [-0.05, 51.51], "type": "turn", "modifier": "left"}
                    }
                ]
            },
            {
                "steps": [
                    {
                        "distance": 184.5, "duration": 90.0, "name": "",
                        "maneuver": {"location": [-0.02, 51.515], "type": "roundabout", "modifier": "right", "exit": 3}
                    },
                    {
                        "distance": 0.0, "duration": 0.0, "name": "Destination Ave",
                        "maneuver": {"location": [0.0, 51.52], "type": "arrive", "modifier": ""}
                    }
                ]
            }
        ]
    }]
}"#;

#[test]
fn map_maneuver_covers_every_turn_modifier() {
    assert_eq!(map_maneuver("turn", "left", None), ManeuverKind::TurnLeft);
    assert_eq!(map_maneuver("turn", "sharp right", None), ManeuverKind::TurnSharpRight);
    assert_eq!(map_maneuver("turn", "uturn", None), ManeuverKind::UTurn);
    assert_eq!(map_maneuver("turn", "straight", None), ManeuverKind::Continue);
    assert_eq!(map_maneuver("turn", "wibble", None), ManeuverKind::Other);
}

#[test]
fn roundabout_without_exit_defaults_to_one() {
    let kind = map_maneuver("roundabout", "right", None);
    assert_eq!(kind, ManeuverKind::Roundabout { exit: 1 });
}

#[test]
fn map_maneuver_covers_every_type() {
    assert_eq!(map_maneuver("depart", "", None), ManeuverKind::Depart);
    assert_eq!(map_maneuver("arrive", "", None), ManeuverKind::Arrive);
    assert_eq!(map_maneuver("continue", "left", None), ManeuverKind::Continue);
    assert_eq!(map_maneuver("new name", "", None), ManeuverKind::Continue);
    assert_eq!(map_maneuver("merge", "", None), ManeuverKind::Merge);
    assert_eq!(map_maneuver("fork", "", None), ManeuverKind::Fork);
    assert_eq!(map_maneuver("rotary", "", Some(4)), ManeuverKind::Roundabout { exit: 4 });
    assert_eq!(map_maneuver("exit roundabout", "", None), ManeuverKind::Exit);
    assert_eq!(map_maneuver("exit rotary", "", None), ManeuverKind::Exit);
    assert_eq!(map_maneuver("off ramp", "", None), ManeuverKind::Exit);
    assert_eq!(map_maneuver("on ramp", "", None), ManeuverKind::Exit);
    assert_eq!(map_maneuver("turn", "slight left", None), ManeuverKind::TurnSlightLeft);
    assert_eq!(map_maneuver("turn", "sharp left", None), ManeuverKind::TurnSharpLeft);
    assert_eq!(map_maneuver("turn", "slight right", None), ManeuverKind::TurnSlightRight);
    assert_eq!(map_maneuver("turn", "right", None), ManeuverKind::TurnRight);
    assert_eq!(map_maneuver("notification", "left", None), ManeuverKind::Other);
    assert_eq!(map_maneuver("Turn", "left", None), ManeuverKind::Other);
}

#[test]
fn instruction_text_uses_road_name_when_present() {
    let m = Maneuver {
        location: pair(0.0, 0.0),
        kind: ManeuverKind::TurnLeft,
        distance_m: 100.0f64.to_bits(),
        duration_s: 30.0f64.to_bits(),
        road_name: Some("Main Street".into()),
    };
    assert_eq!(m.instruction_text(), "Turn left onto Main Street");
}

#[test]
fn instruction_text_handles_missing_road_name() {
    let m = Maneuver {
        location: pair(0.0, 0.0),
        kind: ManeuverKind::TurnRight,
        distance_m: 100.0f64.to_bits(),
        duration_s: 30.0f64.to_bits(),
        road_name: None,
    };
    assert_eq!(m.instruction_text(), "Turn right");
}

#[test]
fn roundabout_includes_exit_number() {
    let m = Maneuver {
        location: pair(0.0, 0.0),
        kind: ManeuverKind::Roundabout { exit: 3 },
        distance_m: 50.0f64.to_bits(),
        duration_s: 10.0f64.to_bits(),
        road_name: Some("A1".into()),
    };
    assert!(m.instruction_text().contains("exit 3"));
    assert!(m.instruction_text().contains("A1"));
}

#[test]
fn instruction_text_for_every_kind() {
    let cue = |kind: ManeuverKind, road: Option<&str>| {
        Maneuver {
            location: pair(0.0, 0.0),
            kind,
            distance_m: 0,
            duration_s: 0,
            road_name: road.map(|r| r.to_string()),
        }
        .instruction_text()
    };
    assert_eq!(cue(ManeuverKind::Depart, Some("High St")), "Head out on High St");
    assert_eq!(cue(ManeuverKind::Depart, None), "Head out");
    assert_eq!(cue(ManeuverKind::Arrive, Some("High St")), "Arrive at destination");
    assert_eq!(cue(ManeuverKind::Continue, Some("A1")), "Continue straight on A1");
    assert_eq!(cue(ManeuverKind::TurnSlightLeft, None), "Bear left");
    assert_eq!(cue(ManeuverKind::TurnSharpLeft, Some("B2")), "Take a sharp left onto B2");
    assert_eq!(cue(ManeuverKind::TurnSlightRight, Some("B2")), "Bear right onto B2");
    assert_eq!(cue(ManeuverKind::TurnSharpRight, None), "Take a sharp right");
    assert_eq!(cue(ManeuverKind::UTurn, None), "Make a U-turn");
    assert_eq!(cue(ManeuverKind::Merge, Some("M25")), "Merge onto M25");
    assert_eq!(
        cue(ManeuverKind::Roundabout { exit: 12 }, None),
        "At the roundabout, take exit 12"
    );
    assert_eq!(cue(ManeuverKind::Exit, Some("J4")), "Take the exit onto J4");
    assert_eq!(cue(ManeuverKind::Fork, None), "Keep at the fork");
    assert_eq!(cue(ManeuverKind::Other, Some("Lane")), "Continue on Lane");
}

#[test]
fn from_to_constructs_two_waypoint_request() {
    let req = RouteRequest::from_to(pair(-0.1276, 51.5074), pair(-0.0876, 51.5174), Profile::Driving);
    assert_eq!(req.waypoints.len(), 2);
    assert_eq!(req.profile, Profile::Driving);
    assert_eq!(req.waypoints[0], pair(-0.1276, 51.5074));
    assert_eq!(req.waypoints[1], pair(-0.0876, 51.5174));
}

#[test]
fn build_url_encodes_two_waypoints() {
    let req = RouteRequest::from_to(pair(-0.1276, 51.5074), pair(-0.0876, 51.5174), Profile::Driving);
    let url = build_url("https://example.com", &coord_texts(&req), req.profile);
    assert_eq!(
        url,
        "https://example.com/route/v1/driving/-0.1276,51.5074;-0.0876,51.5174\
         ?steps=true&geometries=geojson&overview=full"
    );
}

#[test]
fn build_url_handles_via_waypoints() {
    let req = RouteRequest {
        waypoints: vec![pair(0.0, 0.0), pair(1.0, 1.0), pair(2.0, 2.0)],
        profile: Profile::Cycling,
    };
    let url = build_url("https://example.com", &coord_texts(&req), req.profile);
    assert!(url.contains("/cycling/0,0;1,1;2,2?"));
}

#[test]
fn profile_segments() {
    assert_eq!(profile_str(Profile::Driving), "driving");
    assert_eq!(profile_str(Profile::Cycling), "cycling");
    assert_eq!(profile_str(Profile::Walking), "walking");
}

#[test]
fn parses_ok_response() {
    let route = route_from_response(response_from_json(SAMPLE_OK_BODY)).expect("parse");
    assert_eq!(f64::from_bits(route.distance_m), 1234.5);
    assert_eq!(f64::from_bits(route.duration_s), 567.8);
    assert_eq!(route.geometry.len(), 3);
    assert_eq!(route.geometry[0], pair(-0.1, 51.5));
    assert_eq!(route.maneuvers.len(), 4);

    assert_eq!(route.maneuvers[0].kind, ManeuverKind::Depart);
    assert_eq!(route.maneuvers[0].road_name.as_deref(), Some("Origin St"));

    assert_eq!(route.maneuvers[1].kind, ManeuverKind::TurnLeft);

    match route.maneuvers[2].kind {
        ManeuverKind::Roundabout { exit } => assert_eq!(exit, 3),
        other => panic!("expected Roundabout, got {other:?}"),
    }
    assert!(route.maneuvers[2].road_name.is_none());
    assert_eq!(route.maneuvers[2].location, pair(-0.02, 51.515));
    assert_eq!(f64::from_bits(route.maneuvers[2].distance_m), 184.5);

    assert_eq!(route.maneuvers[3].kind, ManeuverKind::Arrive);
}

#[test]
fn no_route_status_maps_to_error() {
    let body = r#"{"code":"NoRoute","routes":[]}"#;
    match route_from_response(response_from_json(body)) {
        Err(RouteError::NoRoute) => {}
        other => panic!("expected NoRoute, got {other:?}"),
    }
}

#[test]
fn no_segment_status_maps_to_no_route() {
    let body = r#"{"code":"NoSegment","routes":[]}"#;
    assert!(matches!(route_from_response(response_from_json(body)), Err(RouteError::NoRoute)));
}

#[test]
fn unknown_status_is_parse_error() {
    let body = r#"{"code":"InvalidOptions","routes":[]}"#;
    match route_from_response(response_from_json(body)) {
        Err(RouteError::Parse(msg)) => assert!(msg.contains("InvalidOptions")),
        other => panic!("expected Parse, got {other:?}"),
    }
}

#[test]
fn ok_without_routes_is_parse_error() {
    let body = r#"{"code":"Ok","routes":[]}"#;
    match route_from_response(response_from_json(body)) {
        Err(RouteError::Parse(msg)) => assert_eq!(msg, "response had no routes"),
        other => panic!("expected Parse, got {other:?}"),
    }
}

#[test]
fn route_error_messages() {
    assert_eq!(
        RouteError::InvalidRequest("x".into()).message(),
        "invalid route request: x"
    );
    assert_eq!(RouteError::Network("down".into()).message(), "routing network error: down");
    assert_eq!(RouteError::Parse("bad".into()).message(), "routing parse error: bad");
    assert_eq!(RouteError::NoRoute.message(), "no route between waypoints");
}

#[test]
fn router_settings_and_request_url() {
    let r = OsrmRouter::new();
    assert_eq!(r.base_url(), OSRM_DEMO_URL);
    assert_eq!(r.timeout_ms(), 10_000);
    assert_eq!(r.user_agent(), "slint-mapping/0.1 (+https://github.com/slint-ui)");
    let r = OsrmRouter::with_base_url("http://localhost:5000")
        .with_user_agent("test/1.0")
        .with_timeout_ms(250);
    assert_eq!(r.base_url(), "http://localhost:5000");
    assert_eq!(r.user_agent(), "test/1.0");
    assert_eq!(r.timeout_ms(), 250);

    let one = RouteRequest { waypoints: vec![pair(0.0, 0.0)], profile: Profile::Walking };
    match r.request_url(&one, &coord_texts(&one)) {
        Err(RouteError::InvalidRequest(m)) => {
            assert_eq!(m, "need at least 2 waypoints (origin + destination)")
        }
        other => panic!("expected InvalidRequest, got {other:?}"),
    }
    let two = RouteRequest::from_to(pair(1.5, 2.0), pair(3.0, 4.25), Profile::Walking);
    let url = r.request_url(&two, &coord_texts(&two)).unwrap();
    assert_eq!(
        url,
        "http://localhost:5000/route/v1/walking/1.5,2;3,4.25?steps=true&geometries=geojson&overview=full"
    );
    let d = OsrmRouter::default();
    assert_eq!(d.base_url(), OSRM_DEMO_URL);
}
