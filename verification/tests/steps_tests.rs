use mmids_core::collections::StrMap;
use mmids_core::definitions::WorkflowStepDefinition;
use mmids_core::definitions::WorkflowStepType;
use mmids_core::endpoints::ConnectionId;
use mmids_core::endpoints::IpAddress;
use mmids_core::endpoints::RtmpEndpointMediaData;
use mmids_core::endpoints::RtmpEndpointPublisherMessage;
use mmids_core::endpoints::RtmpEndpointRequest;
use mmids_core::endpoints::RtmpEndpointWatcherNotification;
use mmids_core::media::MediaNotification;
use mmids_core::media::MediaNotificationContent;
use mmids_core::media::StreamId;
use mmids_core::media::VideoCodec;
use mmids_core::steps::FutureSpec;
use mmids_core::steps::StepFutureResult;
use mmids_core::steps::StepInputs;
use mmids_core::steps::StepOutputs;
use mmids_core::steps::StepStartupError;
use mmids_core::steps::StepStatus;
use mmids_core::steps::rtmp_receive::RtmpReceiveFutureResult;
use mmids_core::steps::rtmp_receive::RtmpReceiverStepGenerator;
use mmids_core::steps::rtmp_watch::RtmpWatchFutureResult;
use mmids_core::steps::rtmp_watch::RtmpWatchStep;

fn def_with(params: Vec<(&str, Option<&str>)>, ty: &str) -> WorkflowStepDefinition {
    let mut parameters: StrMap<Option<String>> = StrMap::new();
    for (k, v) in params {
        parameters.insert(k.to_string(), v.map(|s| s.to_string()));
    }
    WorkflowStepDefinition {
        step_type: WorkflowStepType(ty.to_string()),
        parameters,
    }
}

#[test]
fn receive_generation_needs_an_app() {
    let generator = RtmpReceiverStepGenerator::new();
    let def = def_with(vec![("stream_key", Some("*"))], "rtmp_receive");
    match generator.generate(def) {
        Err(StepStartupError::NoRtmpAppSpecified) => {}
        other => panic!("expected a missing app error, got {:?}", other.is_ok()),
    }
}

#[test]
fn receive_generation_needs_a_stream_key() {
    let generator = RtmpReceiverStepGenerator::new();
    let def = def_with(vec![("rtmp_app", Some("app"))], "rtmp_receive");
    match generator.generate(def) {
        Err(StepStartupError::NoStreamKeySpecified) => {}
        other => panic!("expected a missing key error, got {:?}", other.is_ok()),
    }
}

#[test]
fn receive_generation_rejects_a_bad_port() {
    let generator = RtmpReceiverStepGenerator::new();
    let def = def_with(
        vec![("rtmp_app", Some("app")), ("stream_key", Some("*")), ("port", Some("70000"))],
        "rtmp_receive",
    );
    match generator.generate(def) {
        Err(StepStartupError::InvalidPortSpecified(raw)) => {
            assert_eq!(raw, "70000".to_string());
        }
        other => panic!("expected a port error, got {:?}", other.is_ok()),
    }
}

#[test]
fn receive_generation_rejects_both_ip_lists() {
    let generator = RtmpReceiverStepGenerator::new();
    let def = def_with(
        vec![
            ("rtmp_app", Some("app")),
            ("stream_key", Some("*")),
            ("allow_ips", Some("10.0.0.1")),
            ("deny_ips", Some("10.0.0.2")),
        ],
        "rtmp_receive",
    );
    match generator.generate(def) {
        Err(StepStartupError::BothDenyAndAllowIpRestrictionsSpecified) => {}
        other => panic!("expected the both-lists error, got {:?}", other.is_ok()),
    }
}

#[test]
fn receive_generation_defaults_ports() {
    let generator = RtmpReceiverStepGenerator::new();
    let def = def_with(vec![("rtmp_app", Some("app")), ("stream_key", Some("*"))], "rtmp_receive");
    let (_step, futures, requests) = generator.generate(def).unwrap();
    assert_eq!(futures, vec![FutureSpec::WaitRtmpPublisherMessage]);
    assert_eq!(requests.len(), 1);
    match &requests[0] {
        RtmpEndpointRequest::ListenForPublishers { port, rtmp_app, use_tls, .. } => {
            assert_eq!(*port, 1935);
            assert_eq!(rtmp_app, "app");
            assert!(!use_tls);
        }
        _ => panic!("expected a publisher registration"),
    }

    let def_tls = def_with(
        vec![("rtmp_app", Some("app")), ("stream_key", Some("*")), ("rtmps", None)],
        "rtmp_receive",
    );
    let (_step, _futures, requests) = generator.generate(def_tls).unwrap();
    match &requests[0] {
        RtmpEndpointRequest::ListenForPublishers { port, use_tls, .. } => {
            assert_eq!(*port, 443);
            assert!(use_tls);
        }
        _ => panic!("expected a publisher registration"),
    }
}

#[test]
fn receive_step_maps_publishers_to_streams() {
    let generator = RtmpReceiverStepGenerator::new();
    let def = def_with(vec![("rtmp_app", Some("app")), ("stream_key", Some("*"))], "rtmp_receive");
    let (mut step, _futures, _requests) = generator.generate(def).unwrap();
    assert_eq!(step.get_status(), StepStatus::Created);

    let mut inputs = StepInputs::new();
    let mut outputs = StepOutputs::new();
    inputs.notifications.push(StepFutureResult::RtmpReceive(
        RtmpReceiveFutureResult::RtmpEndpointResponseReceived(
            RtmpEndpointPublisherMessage::PublisherRegistrationSuccessful,
        ),
    ));
    inputs.notifications.push(StepFutureResult::RtmpReceive(
        RtmpReceiveFutureResult::RtmpEndpointResponseReceived(
            RtmpEndpointPublisherMessage::NewPublisherConnected {
                stream_id: StreamId("z".to_string()),
                connection_id: ConnectionId("c1".to_string()),
                stream_key: "live".to_string(),
            },
        ),
    ));
    step.execute(&mut inputs, &mut outputs);
    assert_eq!(step.get_status(), StepStatus::Active);
    assert_eq!(outputs.media.len(), 1);
    let m = &outputs.media[0];
    assert_eq!(m.stream_id.0, "z".to_string());
    match &m.content {
        MediaNotificationContent::NewIncomingStream { stream_name } => {
            assert_eq!(stream_name, "live");
        }
        _ => panic!("expected a stream start"),
    }
    // the endpoint wait was re-armed once per message
    assert_eq!(outputs.futures.len(), 2);
}

#[test]
fn receive_step_fails_on_wrong_notification_kind() {
    let generator = RtmpReceiverStepGenerator::new();
    let def = def_with(vec![("rtmp_app", Some("app")), ("stream_key", Some("*"))], "rtmp_receive");
    let (mut step, _futures, _requests) = generator.generate(def).unwrap();
    let mut inputs = StepInputs::new();
    let mut outputs = StepOutputs::new();
    inputs.notifications.push(StepFutureResult::RtmpWatch(
        RtmpWatchFutureResult::RtmpEndpointGone,
    ));
    step.execute(&mut inputs, &mut outputs);
    assert_eq!(step.get_status(), StepStatus::Error);
}

#[test]
fn watch_step_routes_media_to_its_stream_key() {
    let def = def_with(vec![("rtmp_app", Some("app")), ("stream_key", Some("*"))], "rtmp_watch");
    let (mut step, futures, requests) = RtmpWatchStep::new(def).unwrap();
    assert_eq!(futures, vec![FutureSpec::WaitRtmpWatcherNotification]);
    assert_eq!(requests.len(), 1);
    assert!(matches!(requests[0], RtmpEndpointRequest::ListenForWatchers { .. }));

    let mut inputs = StepInputs::new();
    let mut outputs = StepOutputs::new();
    inputs.notifications.push(StepFutureResult::RtmpWatch(
        RtmpWatchFutureResult::RtmpWatchNotificationReceived(
            RtmpEndpointWatcherNotification::WatcherRegistrationSuccessful,
        ),
    ));
    inputs.media.push(MediaNotification {
        stream_id: StreamId("z".to_string()),
        content: MediaNotificationContent::NewIncomingStream {
            stream_name: "live".to_string(),
        },
    });
    inputs.media.push(MediaNotification {
        stream_id: StreamId("z".to_string()),
        content: MediaNotificationContent::Video {
            codec: VideoCodec::H264,
            is_keyframe: true,
            is_sequence_header: true,
            timestamp_ms: 42,
            data: vec![9, 9],
        },
    });
    step.execute(&mut inputs, &mut outputs);
    assert_eq!(step.get_status(), StepStatus::Active);
    // everything passes through to the next step
    assert_eq!(outputs.media.len(), 2);
    // the video went out to the endpoint under the stream's name
    assert_eq!(outputs.rtmp_media.len(), 1);
    assert_eq!(outputs.rtmp_media[0].stream_key, "live".to_string());
    match &outputs.rtmp_media[0].data {
        RtmpEndpointMediaData::NewVideoData { data, timestamp, .. } => {
            assert_eq!(data, &vec![9, 9]);
            assert_eq!(*timestamp, 42);
        }
        _ => panic!("expected video data"),
    }
}

#[test]
fn watch_step_with_exact_key_surfaces_streams_under_it() {
    let def = def_with(
        vec![("rtmp_app", Some("app")), ("stream_key", Some("fixed"))],
        "rtmp_watch",
    );
    let (mut step, _futures, _requests) = RtmpWatchStep::new(def).unwrap();
    let mut inputs = StepInputs::new();
    let mut outputs = StepOutputs::new();
    inputs.notifications.push(StepFutureResult::RtmpWatch(
        RtmpWatchFutureResult::RtmpWatchNotificationReceived(
            RtmpEndpointWatcherNotification::WatcherRegistrationSuccessful,
        ),
    ));
    inputs.media.push(MediaNotification {
        stream_id: StreamId("z".to_string()),
        content: MediaNotificationContent::NewIncomingStream {
            stream_name: "whatever".to_string(),
        },
    });
    inputs.media.push(MediaNotification {
        stream_id: StreamId("z".to_string()),
        content: MediaNotificationContent::Audio {
            codec: mmids_core::media::AudioCodec::Aac,
            is_sequence_header: true,
            timestamp_ms: 1,
            data: vec![1],
        },
    });
    step.execute(&mut inputs, &mut outputs);
    assert_eq!(outputs.rtmp_media.len(), 1);
    assert_eq!(outputs.rtmp_media[0].stream_key, "fixed".to_string());
}

#[test]
fn shutdown_reports_the_registration_to_remove() {
    let generator = RtmpReceiverStepGenerator::new();
    let def = def_with(vec![("rtmp_app", Some("app")), ("stream_key", Some("k"))], "rtmp_receive");
    let (mut step, _futures, _requests) = generator.generate(def).unwrap();
    let request = step.shutdown();
    assert_eq!(step.get_status(), StepStatus::Shutdown);
    match request {
        RtmpEndpointRequest::RemoveRegistration { port, rtmp_app, .. } => {
            assert_eq!(port, 1935);
            assert_eq!(rtmp_app, "app".to_string());
        }
        _ => panic!("expected a registration removal"),
    }
}

#[test]
fn ip_lists_split_on_commas_and_trim() {
    let value = "10.0.0.1, 10.0.0.2 ,10.0.0.3".to_string();
    let list = IpAddress::parse_comma_delimited_list(Some(&value)).unwrap();
    let names: Vec<String> = list.into_iter().map(|a| a.0).collect();
    assert_eq!(
        names,
        vec!["10.0.0.1".to_string(), "10.0.0.2".to_string(), "10.0.0.3".to_string()]
    );

    assert_eq!(IpAddress::parse_comma_delimited_list(None).unwrap().len(), 0);
    let blank = "   ".to_string();
    assert_eq!(IpAddress::parse_comma_delimited_list(Some(&blank)).unwrap().len(), 0);
    let bad = "10.0.0.1,,10.0.0.3".to_string();
    assert!(IpAddress::parse_comma_delimited_list(Some(&bad)).is_err());
}

#[test]
fn step_definitions_survive_cloning() {
    let def = def_with(vec![("rtmp_app", Some("app")), ("flag", None)], "rtmp_receive");
    let copy = def.clone();
    assert_eq!(copy.step_type.0, def.step_type.0);
    assert_eq!(copy.parameters.get("rtmp_app"), def.parameters.get("rtmp_app"));
    assert_eq!(copy.parameters.get("flag"), Some(&None));
    assert_eq!(copy.get_id(), def.get_id());
}

#[test]
fn parameter_trimming_covers_unicode_whitespace() {
    // a no-break space around the value trims away, as str::trim would
    let generator = RtmpReceiverStepGenerator::new();
    let def = def_with(
        vec![("rtmp_app", Some("\u{a0}app\u{a0}")), ("stream_key", Some("\u{2003}*\u{2003}"))],
        "rtmp_receive",
    );
    let (_step, _futures, requests) = generator.generate(def).unwrap();
    match &requests[0] {
        RtmpEndpointRequest::ListenForPublishers { rtmp_app, rtmp_stream_key, .. } => {
            assert_eq!(rtmp_app, "app");
            assert!(matches!(
                rtmp_stream_key,
                mmids_core::endpoints::StreamKeyRegistration::Any
            ));
        }
        _ => panic!("expected a publisher registration"),
    }
}
