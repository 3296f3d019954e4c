use mmids_core::h264::is_key_frame;
use mmids_core::h264::H264MediaSender;
use mmids_core::http_api::split_request_path;
use mmids_core::http_api::{match_route, route_parameters, RoutePart, RouteSpec};
use mmids_core::media::MediaNotificationContent;

#[test]
fn key_frames_are_recognized() {
    // a direct SPS unit: type bits 0x1F of the first byte name 7
    assert!(is_key_frame(&[0x67, 0x42, 0x00, 0x1f]));
    // a STAP-A aggregate (type 24) whose word ends in an SPS type
    assert!(is_key_frame(&[0x18, 0x00, 0x00, 0x07]));
    // an ordinary slice is no key frame
    assert!(!is_key_frame(&[0x41, 0x9a, 0x00, 0x00]));
    // too short to carry a NAL header word
    assert!(!is_key_frame(&[0x67, 0x42, 0x00]));
    assert!(!is_key_frame(&[]));
}

#[test]
fn sender_skips_empty_payloads() {
    let mut sender = H264MediaSender::new();
    let empty: Vec<u8> = Vec::new();
    let r = sender.send_rtp_data(&empty, 0).unwrap();
    assert!(r.is_none());
}

#[test]
fn sender_waits_for_a_key_frame() {
    let mut sender = H264MediaSender::new();
    // an ordinary slice before any key frame is dropped
    let slice = vec![0x41, 0x9a, 0x00, 0x00, 0x01];
    let r = sender.send_rtp_data(&slice, 0).unwrap();
    assert!(r.is_none());
}

#[test]
fn sender_emits_depacketized_key_frames() {
    let mut sender = H264MediaSender::new();
    // a single-unit SPS packet: rtp depacketizes it whole
    let sps = vec![0x67, 0x42, 0x00, 0x1f, 0xab];
    let r = sender.send_rtp_data(&sps, 7).unwrap();
    match r {
        Some(MediaNotificationContent::Video {
            is_keyframe,
            is_sequence_header,
            timestamp_ms,
            data,
            ..
        }) => {
            assert!(is_keyframe);
            assert!(!is_sequence_header);
            assert_eq!(timestamp_ms, 7);
            // annex-b start code plus the unit itself
            assert_eq!(data, vec![0x00, 0x00, 0x00, 0x01, 0x67, 0x42, 0x00, 0x1f, 0xab]);
        }
        _ => panic!("expected one video notification"),
    }

    // once media flows, ordinary slices flow too
    let slice = vec![0x41, 0x9a, 0x11];
    let r = sender.send_rtp_data(&slice, 8).unwrap();
    assert!(r.is_some());
}

#[test]
fn request_paths_split_on_slashes() {
    let parts = split_request_path("/workflows/details/abc");
    assert_eq!(
        parts,
        vec!["workflows".to_string(), "details".to_string(), "abc".to_string()]
    );
    let parts = split_request_path("workflows//x/");
    assert_eq!(parts, vec!["workflows".to_string(), "x".to_string()]);
    let parts = split_request_path("/");
    assert_eq!(parts.len(), 0);
    let parts = split_request_path("");
    assert_eq!(parts.len(), 0);
}

#[test]
fn sender_rejects_unwalkable_aggregates() {
    let mut sender = H264MediaSender::new();
    // a STAP-A aggregate passing the key-frame gate whose length walk
    // stops on the last byte: the depacketizer must not be handed it
    let bad = vec![0x18, 0x00, 0x00, 0x07];
    assert!(sender.send_rtp_data(&bad, 0).is_err());
    // a well-formed single-entry aggregate depacketizes
    let good = vec![0x18, 0x00, 0x02, 0x67, 0x42];
    let r = sender.send_rtp_data(&good, 1).unwrap();
    assert!(r.is_some());
}

#[test]
fn routes_match_first_and_extract_parameters() {
    let routes = vec![
        RouteSpec {
            method: "GET".to_string(),
            parts: vec![RoutePart::Exact { value: "workflows".to_string() }],
        },
        RouteSpec {
            method: "GET".to_string(),
            parts: vec![
                RoutePart::Exact { value: "workflows".to_string() },
                RoutePart::Parameter { name: "workflow".to_string() },
            ],
        },
    ];
    let method = "GET".to_string();
    let parts = vec!["workflows".to_string(), "abc".to_string()];
    let hit = match_route(&routes, &method, &parts);
    assert_eq!(hit, Some(1));
    let params = route_parameters(&routes[1], &parts);
    assert_eq!(params.get("workflow"), Some(&"abc".to_string()));

    let parts = vec!["workflows".to_string()];
    assert_eq!(match_route(&routes, &method, &parts), Some(0));
    let miss = vec!["nothing".to_string()];
    assert_eq!(match_route(&routes, &method, &miss), None);
    let post = "POST".to_string();
    assert_eq!(match_route(&routes, &post, &parts), None);
}
