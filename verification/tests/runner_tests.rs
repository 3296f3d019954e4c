use mmids_core::collections::StrMap;
use mmids_core::definitions::WorkflowDefinition;
use mmids_core::definitions::WorkflowStepDefinition;
use mmids_core::definitions::WorkflowStepType;
use mmids_core::endpoints::RtmpEndpointPublisherMessage;
use mmids_core::endpoints::RtmpEndpointWatcherNotification;
use mmids_core::endpoints::ConnectionId;
use mmids_core::media::StreamId;
use mmids_core::runner::RunnerStatus;
use mmids_core::runner::WorkflowRequest;
use mmids_core::runner::WorkflowRunner;
use mmids_core::steps::StepFutureResult;
use mmids_core::steps::StepStatus;
use mmids_core::steps::factory::StepGeneratorKind;
use mmids_core::steps::factory::WorkflowStepFactory;
use mmids_core::steps::rtmp_receive::RtmpReceiveFutureResult;
use mmids_core::steps::rtmp_receive::RtmpReceiverStepGenerator;
use mmids_core::steps::rtmp_watch::RtmpWatchFutureResult;

fn factory() -> WorkflowStepFactory {
    let mut f = WorkflowStepFactory::new();
    f.register_step(
        WorkflowStepType("rtmp_receive".to_string()),
        StepGeneratorKind::RtmpReceive(RtmpReceiverStepGenerator::new()),
    );
    f.register_step(WorkflowStepType("rtmp_watch".to_string()), StepGeneratorKind::RtmpWatch);
    f
}

fn receive_def(app: &str) -> WorkflowStepDefinition {
    let mut parameters: StrMap<Option<String>> = StrMap::new();
    parameters.insert("rtmp_app".to_string(), Some(app.to_string()));
    parameters.insert("stream_key".to_string(), Some("*".to_string()));
    WorkflowStepDefinition {
        step_type: WorkflowStepType("rtmp_receive".to_string()),
        parameters,
    }
}

fn watch_def(app: &str) -> WorkflowStepDefinition {
    let mut parameters: StrMap<Option<String>> = StrMap::new();
    parameters.insert("rtmp_app".to_string(), Some(app.to_string()));
    parameters.insert("stream_key".to_string(), Some("*".to_string()));
    WorkflowStepDefinition {
        step_type: WorkflowStepType("rtmp_watch".to_string()),
        parameters,
    }
}

fn workflow(name: &str, steps: Vec<WorkflowStepDefinition>) -> WorkflowDefinition {
    WorkflowDefinition { name: name.to_string(), steps }
}

fn activate_receive(runner: &mut WorkflowRunner, id: u64) {
    runner.handle_step_future_resolved(
        id,
        StepFutureResult::RtmpReceive(RtmpReceiveFutureResult::RtmpEndpointResponseReceived(
            RtmpEndpointPublisherMessage::PublisherRegistrationSuccessful,
        )),
    );
}

fn activate_watch(runner: &mut WorkflowRunner, id: u64) {
    runner.handle_step_future_resolved(
        id,
        StepFutureResult::RtmpWatch(RtmpWatchFutureResult::RtmpWatchNotificationReceived(
            RtmpEndpointWatcherNotification::WatcherRegistrationSuccessful,
        )),
    );
}

fn publish_stream(runner: &mut WorkflowRunner, receive_id: u64, stream: &str, conn: &str) {
    runner.handle_step_future_resolved(
        receive_id,
        StepFutureResult::RtmpReceive(RtmpReceiveFutureResult::RtmpEndpointResponseReceived(
            RtmpEndpointPublisherMessage::NewPublisherConnected {
                stream_id: StreamId(stream.to_string()),
                connection_id: ConnectionId(conn.to_string()),
                stream_key: "live".to_string(),
            },
        )),
    );
}

fn send_video_header(runner: &mut WorkflowRunner, receive_id: u64, conn: &str) {
    runner.handle_step_future_resolved(
        receive_id,
        StepFutureResult::RtmpReceive(RtmpReceiveFutureResult::RtmpEndpointResponseReceived(
            RtmpEndpointPublisherMessage::NewVideoData {
                publisher: ConnectionId(conn.to_string()),
                codec: mmids_core::media::VideoCodec::H264,
                is_keyframe: true,
                is_sequence_header: true,
                data: vec![1, 2, 3],
                timestamp: 0,
            },
        )),
    );
}

#[test]
fn second_definition_takes_over_once_active() {
    // the runner adopts a redefinition's step ids once every pending step
    // reports active
    let def_a = receive_def("first");
    let a_id = def_a.get_id();
    let mut runner = WorkflowRunner::new(&workflow("w", vec![]), factory());
    runner.handle_workflow_request(WorkflowRequest::UpdateDefinition {
        new_definition: workflow("w", vec![def_a]),
    });
    assert_eq!(runner.pending_step_ids(), &vec![a_id]);
    activate_receive(&mut runner, a_id);
    assert_eq!(runner.active_step_ids(), &vec![a_id]);
    assert_eq!(runner.pending_step_ids().len(), 0);

    let def_b = receive_def("second");
    let b_id = def_b.get_id();
    assert_ne!(a_id, b_id);
    runner.handle_workflow_request(WorkflowRequest::UpdateDefinition {
        new_definition: workflow("w", vec![def_b]),
    });
    assert_eq!(runner.pending_step_ids(), &vec![b_id]);
    // the old pipeline stays live until the new step is active
    assert_eq!(runner.active_step_ids(), &vec![a_id]);
    activate_receive(&mut runner, b_id);
    assert_eq!(runner.active_step_ids(), &vec![b_id]);
    assert!(!runner.has_step(a_id));
    assert!(runner.has_step(b_id));
}

#[test]
fn inserted_step_is_fed_cached_stream_start_and_header() {
    // a workflow [receive, watch] with a live stream gains a new middle
    // step; the replay hands the new watch step the stream start and the
    // cached sequence header, so it serves the stream at once
    let def_a = receive_def("app");
    let def_b = watch_def("watchers");
    let a_id = def_a.get_id();
    let b_id = def_b.get_id();
    let mut runner = WorkflowRunner::new(&workflow("w", vec![]), factory());
    runner.handle_workflow_request(WorkflowRequest::UpdateDefinition {
        new_definition: workflow("w", vec![def_a.clone(), def_b.clone()]),
    });
    activate_receive(&mut runner, a_id);
    activate_watch(&mut runner, b_id);
    assert_eq!(runner.active_step_ids(), &vec![a_id, b_id]);

    publish_stream(&mut runner, a_id, "z", "c1");
    send_video_header(&mut runner, a_id, "c1");
    assert_eq!(runner.stream_origin("z"), Some(a_id));
    // drain what the pipeline produced so far
    runner.take_outbound_media();

    let def_c = watch_def("middle");
    let c_id = def_c.get_id();
    runner.handle_workflow_request(WorkflowRequest::UpdateDefinition {
        new_definition: workflow("w", vec![def_a, def_c, def_b]),
    });
    activate_watch(&mut runner, c_id);
    assert_eq!(runner.active_step_ids(), &vec![a_id, c_id, b_id]);
    assert_eq!(runner.pending_step_ids().len(), 0);

    // the replay drove the cached header through the new step: it went out
    // to the new step's endpoint as video data
    let media = runner.take_outbound_media();
    assert!(media.len() >= 1, "replay produced no endpoint media");

    // the origin step of the stream is still on the active list
    assert_eq!(runner.stream_origin("z"), Some(a_id));
    assert!(runner.active_step_ids().contains(&a_id));
}

#[test]
fn removed_step_disconnects_its_streams() {
    // dropping the source step of a live stream removes the stream and
    // tells the downstream steps
    let def_a = receive_def("app");
    let def_b = watch_def("watchers");
    let a_id = def_a.get_id();
    let b_id = def_b.get_id();
    let mut runner = WorkflowRunner::new(&workflow("w", vec![]), factory());
    runner.handle_workflow_request(WorkflowRequest::UpdateDefinition {
        new_definition: workflow("w", vec![def_a, def_b.clone()]),
    });
    activate_receive(&mut runner, a_id);
    activate_watch(&mut runner, b_id);
    publish_stream(&mut runner, a_id, "z", "c1");
    assert_eq!(runner.stream_origin("z"), Some(a_id));

    runner.handle_workflow_request(WorkflowRequest::UpdateDefinition {
        new_definition: workflow("w", vec![def_b]),
    });
    // the watch step is already active, so the swap happens at once
    assert_eq!(runner.active_step_ids(), &vec![b_id]);
    assert!(!runner.has_step(a_id));
    assert_eq!(runner.stream_origin("z"), None);
}

#[test]
fn one_step_per_id() {
    // a definition listing the same step twice yields one live instance
    let def = receive_def("app");
    let id = def.get_id();
    let mut runner = WorkflowRunner::new(&workflow("w", vec![]), factory());
    runner.handle_workflow_request(WorkflowRequest::UpdateDefinition {
        new_definition: workflow("w", vec![def.clone(), def]),
    });
    assert_eq!(runner.pending_step_ids(), &vec![id, id]);
    assert!(runner.has_step(id));
    assert_eq!(runner.step_status(id), Some(StepStatus::Created));
}

#[test]
fn failed_construction_enters_error_state() {
    // an unknown step type aborts the definition and drops the pending set
    let mut parameters: StrMap<Option<String>> = StrMap::new();
    parameters.insert("x".to_string(), None);
    let bad = WorkflowStepDefinition {
        step_type: WorkflowStepType("no_such_step".to_string()),
        parameters,
    };
    let mut runner = WorkflowRunner::new(&workflow("w", vec![]), factory());
    runner.handle_workflow_request(WorkflowRequest::UpdateDefinition {
        new_definition: workflow("w", vec![bad]),
    });
    assert_eq!(runner.status(), RunnerStatus::Error);
    assert_eq!(runner.pending_step_ids().len(), 0);
}

#[test]
fn step_ids_ignore_parameter_order() {
    let mut p1: StrMap<Option<String>> = StrMap::new();
    p1.insert("rtmp_app".to_string(), Some("app".to_string()));
    p1.insert("stream_key".to_string(), Some("*".to_string()));
    let d1 = WorkflowStepDefinition {
        step_type: WorkflowStepType("rtmp_receive".to_string()),
        parameters: p1,
    };
    let mut p2: StrMap<Option<String>> = StrMap::new();
    p2.insert("stream_key".to_string(), Some("*".to_string()));
    p2.insert("rtmp_app".to_string(), Some("app".to_string()));
    let d2 = WorkflowStepDefinition {
        step_type: WorkflowStepType("rtmp_receive".to_string()),
        parameters: p2,
    };
    assert_eq!(d1.get_id(), d2.get_id());

    let mut p3: StrMap<Option<String>> = StrMap::new();
    p3.insert("rtmp_app".to_string(), Some("other".to_string()));
    p3.insert("stream_key".to_string(), Some("*".to_string()));
    let d3 = WorkflowStepDefinition {
        step_type: WorkflowStepType("rtmp_receive".to_string()),
        parameters: p3,
    };
    assert_ne!(d1.get_id(), d3.get_id());
}
