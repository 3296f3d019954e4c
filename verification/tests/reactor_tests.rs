use mmids_core::collections::StrMap;
use mmids_core::definitions::WorkflowDefinition;
use mmids_core::definitions::WorkflowStepDefinition;
use mmids_core::definitions::WorkflowStepType;
use mmids_core::manager::WorkflowManagerRequestOperation;
use mmids_core::reactor::Reactor;
use mmids_core::reactor::ReactorAction;
use mmids_core::reactor::ReactorRequest;

fn def(name: &str) -> WorkflowDefinition {
    let mut parameters: StrMap<Option<String>> = StrMap::new();
    parameters.insert("rtmp_app".to_string(), Some("app".to_string()));
    WorkflowDefinition {
        name: name.to_string(),
        steps: vec![WorkflowStepDefinition {
            step_type: WorkflowStepType("rtmp_receive".to_string()),
            parameters,
        }],
    }
}

#[test]
fn new_workflow_stops_the_old_and_upserts_the_new() {
    let mut r = Reactor::new("r".to_string(), 0);
    r.handle_workflow_manager_registered(7);
    r.take_actions();

    r.handle_request(ReactorRequest::CreateWorkflowNameForStream {
        stream_name: "live/1".to_string(),
        response_channel: 1,
    });
    let actions = r.take_actions();
    assert_eq!(actions.len(), 2);
    match &actions[0] {
        ReactorAction::StartExecutorLookup { stream_name } => {
            assert_eq!(stream_name, "live/1");
        }
        other => panic!("expected an executor lookup, got {:?}", action_name(other)),
    }

    r.handle_executor_response("live/1".to_string(), Some(def("wf1")));
    let actions = r.take_actions();
    // one upsert, one consumer update, no stop
    assert_eq!(actions.len(), 2);
    match &actions[0] {
        ReactorAction::SendManagerRequest { manager, request } => {
            assert_eq!(*manager, 7);
            assert_eq!(request.request_id, "reactor_r_stream_live/1".to_string());
            match &request.operation {
                WorkflowManagerRequestOperation::UpsertWorkflow { definition } => {
                    assert_eq!(definition.name, "wf1".to_string());
                }
                _ => panic!("expected an upsert"),
            }
        }
        other => panic!("expected a manager request, got {:?}", action_name(other)),
    }
    match &actions[1] {
        ReactorAction::SendUpdate { channel, update } => {
            assert_eq!(*channel, 1);
            assert_eq!(update.workflow_name, Some("wf1".to_string()));
        }
        other => panic!("expected a consumer update, got {:?}", action_name(other)),
    }

    // the executor now names a different workflow: the old one stops first
    r.handle_executor_response("live/1".to_string(), Some(def("wf2")));
    let actions = r.take_actions();
    assert_eq!(actions.len(), 3);
    match &actions[0] {
        ReactorAction::SendManagerRequest { request, .. } => match &request.operation {
            WorkflowManagerRequestOperation::StopWorkflow { name } => {
                assert_eq!(name, "wf1");
            }
            _ => panic!("expected a stop first"),
        },
        other => panic!("expected a manager request, got {:?}", action_name(other)),
    }
    match &actions[1] {
        ReactorAction::SendManagerRequest { request, .. } => match &request.operation {
            WorkflowManagerRequestOperation::UpsertWorkflow { definition } => {
                assert_eq!(definition.name, "wf2".to_string());
            }
            _ => panic!("expected an upsert second"),
        },
        other => panic!("expected a manager request, got {:?}", action_name(other)),
    }
    match &actions[2] {
        ReactorAction::SendUpdate { channel, update } => {
            assert_eq!(*channel, 1);
            assert_eq!(update.workflow_name, Some("wf2".to_string()));
        }
        other => panic!("expected a consumer update, got {:?}", action_name(other)),
    }
}

#[test]
fn last_consumer_leaving_stops_the_workflow() {
    let mut r = Reactor::new("r".to_string(), 0);
    r.handle_workflow_manager_registered(7);
    r.handle_request(ReactorRequest::CreateWorkflowNameForStream {
        stream_name: "live/1".to_string(),
        response_channel: 1,
    });
    r.handle_executor_response("live/1".to_string(), Some(def("wf1")));
    r.take_actions();

    r.handle_response_channel_closed("live/1".to_string(), 1);
    let actions = r.take_actions();
    assert_eq!(actions.len(), 1);
    match &actions[0] {
        ReactorAction::SendManagerRequest { request, .. } => {
            assert_eq!(request.request_id, "from_reactor".to_string());
            match &request.operation {
                WorkflowManagerRequestOperation::StopWorkflow { name } => {
                    assert_eq!(name, "wf1");
                }
                _ => panic!("expected a stop"),
            }
        }
        other => panic!("expected a manager request, got {:?}", action_name(other)),
    }

    // the cache entry is gone: a later poll result for the stream asks for
    // nothing
    r.handle_update_stream_name_requested("live/1".to_string());
    assert_eq!(r.take_actions().len(), 0);
}

#[test]
fn no_workflow_notifies_and_drops_consumers() {
    let mut r = Reactor::new("r".to_string(), 0);
    r.handle_workflow_manager_registered(7);
    r.handle_request(ReactorRequest::CreateWorkflowNameForStream {
        stream_name: "live/1".to_string(),
        response_channel: 1,
    });
    r.handle_executor_response("live/1".to_string(), Some(def("wf1")));
    r.take_actions();

    r.handle_executor_response("live/1".to_string(), None);
    let actions = r.take_actions();
    assert_eq!(actions.len(), 2);
    match &actions[0] {
        ReactorAction::SendUpdate { channel, update } => {
            assert_eq!(*channel, 1);
            assert_eq!(update.workflow_name, None);
        }
        other => panic!("expected a consumer update, got {:?}", action_name(other)),
    }
    match &actions[1] {
        ReactorAction::SendManagerRequest { request, .. } => match &request.operation {
            WorkflowManagerRequestOperation::StopWorkflow { name } => {
                assert_eq!(name, "wf1");
            }
            _ => panic!("expected a stop"),
        },
        other => panic!("expected a manager request, got {:?}", action_name(other)),
    }
}

#[test]
fn zero_interval_queries_executor_once_per_fresh_request() {
    let mut r = Reactor::new("r".to_string(), 0);
    r.handle_workflow_manager_registered(7);
    r.take_actions();

    // the first request for an uncached stream asks the executor
    r.handle_request(ReactorRequest::CreateWorkflowNameForStream {
        stream_name: "live/1".to_string(),
        response_channel: 1,
    });
    let actions = r.take_actions();
    let lookups = actions
        .iter()
        .filter(|a| matches!(a, ReactorAction::StartExecutorLookup { .. }))
        .count();
    assert_eq!(lookups, 1);

    r.handle_executor_response("live/1".to_string(), Some(def("wf1")));
    let actions = r.take_actions();
    // with interval zero, no re-poll is scheduled
    let timers = actions
        .iter()
        .filter(|a| matches!(a, ReactorAction::ScheduleUpdateInterval { .. }))
        .count();
    assert_eq!(timers, 0);

    // a second consumer for the now-cached stream causes no further lookup
    r.handle_request(ReactorRequest::CreateWorkflowNameForStream {
        stream_name: "live/1".to_string(),
        response_channel: 2,
    });
    let actions = r.take_actions();
    let lookups = actions
        .iter()
        .filter(|a| matches!(a, ReactorAction::StartExecutorLookup { .. }))
        .count();
    assert_eq!(lookups, 0);
    match &actions[0] {
        ReactorAction::SendUpdate { channel, update } => {
            assert_eq!(*channel, 2);
            assert_eq!(update.workflow_name, Some("wf1".to_string()));
        }
        other => panic!("expected a consumer update, got {:?}", action_name(other)),
    }
}

#[test]
fn nonzero_interval_schedules_a_repoll() {
    let mut r = Reactor::new("r".to_string(), 5000);
    r.handle_workflow_manager_registered(7);
    r.handle_request(ReactorRequest::CreateWorkflowNameForStream {
        stream_name: "live/1".to_string(),
        response_channel: 1,
    });
    r.take_actions();
    r.handle_executor_response("live/1".to_string(), Some(def("wf1")));
    let actions = r.take_actions();
    let timers = actions
        .iter()
        .filter(|a| matches!(a, ReactorAction::ScheduleUpdateInterval { .. }))
        .count();
    assert_eq!(timers, 1);

    // the timer fires while the stream is still cached: the executor is
    // asked again
    r.handle_update_stream_name_requested("live/1".to_string());
    let actions = r.take_actions();
    assert_eq!(actions.len(), 1);
    assert!(matches!(&actions[0], ReactorAction::StartExecutorLookup { .. }));
}

#[test]
fn late_manager_catches_up_on_cached_workflows() {
    let mut r = Reactor::new("r".to_string(), 0);
    r.handle_request(ReactorRequest::CreateWorkflowNameForStream {
        stream_name: "live/1".to_string(),
        response_channel: 1,
    });
    // no manager yet: the response caches but upserts nowhere
    r.handle_executor_response("live/1".to_string(), Some(def("wf1")));
    r.take_actions();

    r.handle_workflow_manager_registered(9);
    let actions = r.take_actions();
    assert_eq!(actions.len(), 2);
    assert!(matches!(&actions[0], ReactorAction::WatchManagerGone { manager: 9 }));
    match &actions[1] {
        ReactorAction::SendManagerRequest { manager, request } => {
            assert_eq!(*manager, 9);
            assert_eq!(request.request_id, "reactor_r_cache_catchup".to_string());
            match &request.operation {
                WorkflowManagerRequestOperation::UpsertWorkflow { definition } => {
                    assert_eq!(definition.name, "wf1".to_string());
                }
                _ => panic!("expected a catch-up upsert"),
            }
        }
        other => panic!("expected a manager request, got {:?}", action_name(other)),
    }
}

fn action_name(a: &ReactorAction) -> &'static str {
    match a {
        ReactorAction::SendUpdate { .. } => "SendUpdate",
        ReactorAction::SendManagerRequest { .. } => "SendManagerRequest",
        ReactorAction::StartExecutorLookup { .. } => "StartExecutorLookup",
        ReactorAction::WatchChannelClose { .. } => "WatchChannelClose",
        ReactorAction::ScheduleUpdateInterval { .. } => "ScheduleUpdateInterval",
        ReactorAction::WatchManagerGone { .. } => "WatchManagerGone",
    }
}
