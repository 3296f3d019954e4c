//! The reactor: binds live stream names to workflow definitions through an
//! external executor, pushes upserts and stops to the workflow manager, and
//! keeps every subscribed consumer informed of the current workflow name.
//!
//! The reactor is driven from outside (case of outside work it cannot do
//! itself): callers hand it requests, executor results, manager events and
//! channel closures, and drain the actions it wants performed.  Channels
//! are opaque handles assigned by the caller.

use vstd::prelude::*;
use crate::collections::StrMap;
use crate::definitions::WorkflowDefinition;
use crate::manager::WorkflowManagerRequest;
use crate::manager::WorkflowManagerRequestOperation;
use vstd::string::StringExecFns;

verus! {

/// Requests that can be made to a reactor.
pub enum ReactorRequest {
    /// Ask the reactor to create and manage a workflow for a stream name.
    /// The response channel receives the initial answer and every later
    /// change; closing it cancels the interest.
    CreateWorkflowNameForStream { stream_name: String, response_channel: u64 },
}

/// What a consumer learns about its stream's workflow.
pub struct ReactorWorkflowUpdate {
    /// The workflow to use now, or `None` when no workflow is associated
    /// with the stream.
    pub workflow_name: Option<String>,
}

/// Outside work the reactor asks its driver to perform.
pub enum ReactorAction {
    /// Send an update on a consumer's response channel.
    SendUpdate { channel: u64, update: ReactorWorkflowUpdate },
    /// Send a request to the workflow manager.
    SendManagerRequest { manager: u64, request: WorkflowManagerRequest },
    /// Ask the executor what workflow the stream name maps to.
    StartExecutorLookup { stream_name: String },
    /// Tell the reactor when this response channel closes.
    WatchChannelClose { channel: u64, stream_name: String },
    /// After the update interval, ask the executor again.
    ScheduleUpdateInterval { stream_name: String },
    /// Tell the reactor when the manager channel is gone.
    WatchManagerGone { manager: u64 },
}

/// The number of workflow upserts among the actions.
pub open spec fn count_upserts(actions: Seq<ReactorAction>) -> int
    decreases actions.len(),
{
    if actions.len() == 0 {
        0int
    } else {
        count_upserts(actions.drop_last()) + (match actions.last() {
            ReactorAction::SendManagerRequest { request, .. } => match request.operation {
                WorkflowManagerRequestOperation::UpsertWorkflow { .. } => 1int,
                _ => 0int,
            },
            _ => 0int,
        })
    }
}

/// One reactor instance.
pub struct Reactor {
    name: String,
    update_interval_ms: u64,
    workflow_manager: Option<u64>,
    cached_workflows_for_stream_name: StrMap<WorkflowDefinition>,
    stream_response_channels: StrMap<Vec<u64>>,
    actions: Vec<ReactorAction>,
}

impl Reactor {
    pub closed spec fn spec_name(&self) -> Seq<char> {
        self.name@
    }

    pub closed spec fn spec_interval(&self) -> u64 {
        self.update_interval_ms
    }

    pub closed spec fn spec_manager(&self) -> Option<u64> {
        self.workflow_manager
    }

    /// stream name -> the workflow definition last obtained for it
    pub closed spec fn spec_cache(&self) -> Map<Seq<char>, WorkflowDefinition> {
        self.cached_workflows_for_stream_name@
    }

    /// stream name -> the response channels subscribed to it
    pub closed spec fn spec_channels(&self) -> Map<Seq<char>, Vec<u64>> {
        self.stream_response_channels@
    }

    pub closed spec fn spec_actions(&self) -> Seq<ReactorAction> {
        self.actions@
    }

    /// The cached (stream name, workflow) entries in their stored order;
    /// their association is exactly `spec_cache`.
    pub closed spec fn spec_cache_entries(&self) -> Seq<(Seq<char>, WorkflowDefinition)> {
        self.cached_workflows_for_stream_name.kvs()
    }

    pub closed spec fn wf(&self) -> bool {
        &&& self.cached_workflows_for_stream_name.wf()
        &&& self.stream_response_channels.wf()
    }

    /// A fresh reactor with nothing cached and nobody subscribed.  An
    /// update interval of zero means no re-polling.
    pub fn new(name: String, update_interval_ms: u64) -> (r: Self)
        ensures
            r.wf(),
            r.spec_name() == name@,
            r.spec_interval() == update_interval_ms,
            r.spec_manager() is None,
            r.spec_cache() == Map::<Seq<char>, WorkflowDefinition>::empty(),
            r.spec_channels() == Map::<Seq<char>, Vec<u64>>::empty(),
            r.spec_actions().len() == 0,
    {
        Reactor {
            name,
            update_interval_ms,
            workflow_manager: None,
            cached_workflows_for_stream_name: StrMap::new(),
            stream_response_channels: StrMap::new(),
            actions: Vec::new(),
        }
    }

    /// The actions the reactor wants performed; taking them empties its
    /// list.
    pub fn take_actions(&mut self) -> (r: Vec<ReactorAction>)
        ensures
            r@ == old(self).spec_actions(),
            final(self).spec_actions().len() == 0,
            final(self).wf() == old(self).wf(),
            final(self).spec_cache() == old(self).spec_cache(),
            final(self).spec_channels() == old(self).spec_channels(),
            final(self).spec_manager() == old(self).spec_manager(),
            final(self).spec_interval() == old(self).spec_interval(),
            final(self).spec_name() == old(self).spec_name(),
    {
        let mut t: Vec<ReactorAction> = Vec::new();
        core::mem::swap(&mut t, &mut self.actions);
        t
    }

    /// Register a consumer for a stream name.  A cached workflow is
    /// announced at once; otherwise the executor is asked, exactly once
    /// per fresh request.  The channel's closure is watched either way.
    pub fn handle_request(&mut self, request: ReactorRequest)
        requires
            old(self).wf(),
        ensures
            final(self).wf(),
            final(self).spec_cache() == old(self).spec_cache(),
            final(self).spec_manager() == old(self).spec_manager(),
            final(self).spec_interval() == old(self).spec_interval(),
            final(self).spec_name() == old(self).spec_name(),
            ({
                let ReactorRequest::CreateWorkflowNameForStream { ref stream_name, response_channel } = request;
                let sn = stream_name@;
                let prior = if old(self).spec_channels().contains_key(sn) {
                    old(self).spec_channels()[sn]@
                } else {
                    Seq::<u64>::empty()
                };
                &&& final(self).spec_channels().contains_key(sn)
                &&& final(self).spec_channels()[sn]@ == prior.push(response_channel)
                &&& forall|k: Seq<char>|
                    k != sn ==> ((final(self).spec_channels().contains_key(k) <==> old(self).spec_channels().contains_key(k)) && (old(self).spec_channels().contains_key(
                        k,
                    ) ==> #[trigger] final(self).spec_channels()[k] == old(self).spec_channels()[k]))
                &&& final(self).spec_actions().len() == old(self).spec_actions().len() + 2
                &&& final(self).spec_actions().take(old(self).spec_actions().len() as int) == old(self).spec_actions()
                &&& (if old(self).spec_cache().contains_key(sn) {
                    final(self).spec_actions()[old(self).spec_actions().len() as int] matches ReactorAction::SendUpdate { channel, update }
                        && channel == response_channel && (update.workflow_name matches Some(n)
                        && n@ == old(self).spec_cache()[sn].name@)
                } else {
                    final(self).spec_actions()[old(self).spec_actions().len() as int] matches ReactorAction::StartExecutorLookup { stream_name: l }
                        && l@ == sn
                })
                &&& (final(self).spec_actions().last() matches ReactorAction::WatchChannelClose {
                    channel,
                    stream_name: w,
                } && channel == response_channel && w@ == sn)
            }),
    {
        let ReactorRequest::CreateWorkflowNameForStream { stream_name, response_channel } =
            request;
        let ghost base = self.actions@;
        let mut channels: Vec<u64> = match self.stream_response_channels.remove(
            stream_name.as_str(),
        ) {
            Some(v) => v,
            None => Vec::new(),
        };
        channels.push(response_channel);
        self.stream_response_channels.insert(stream_name.clone(), channels);
        match self.cached_workflows_for_stream_name.get(stream_name.as_str()) {
            Some(cache) => {
                let update = ReactorWorkflowUpdate { workflow_name: Some(cache.name.clone()) };
                self.actions.push(
                    ReactorAction::SendUpdate { channel: response_channel, update },
                );
            },
            None => {
                self.actions.push(
                    ReactorAction::StartExecutorLookup { stream_name: stream_name.clone() },
                );
            },
        }
        self.actions.push(
            ReactorAction::WatchChannelClose { channel: response_channel, stream_name },
        );
        proof {
            assert(self.actions@.take(base.len() as int) =~= base);
        }
    }

    /// Take in what the executor returned for a stream name.
    ///
    /// A workflow: a differently named cached workflow is first stopped at
    /// the manager (a stop always names a just-invalidated cache entry),
    /// the cache is updated, exactly one upsert goes to the manager when
    /// one is known, every subscribed consumer hears the new name, and
    /// with a non-zero update interval a re-poll is scheduled.
    ///
    /// No workflow: every consumer hears `None` and is dropped, and a
    /// cached entry is dropped and stopped at the manager.
    pub fn handle_executor_response(
        &mut self,
        stream_name: String,
        workflow: Option<WorkflowDefinition>,
    )
        requires
            old(self).wf(),
        ensures
            final(self).wf(),
            final(self).spec_manager() == old(self).spec_manager(),
            final(self).spec_interval() == old(self).spec_interval(),
            final(self).spec_name() == old(self).spec_name(),
            final(self).spec_actions().take(old(self).spec_actions().len() as int) == old(self).spec_actions(),
            // the number of upserts grows by one exactly for a returned
            // workflow with a manager to send it to
            count_upserts(final(self).spec_actions()) == count_upserts(old(self).spec_actions())
                + (if workflow is Some && old(self).spec_manager() is Some {
                1int
            } else {
                0int
            }),
            // every stop sent names a workflow cached for this stream until
            // this very response
            forall|k: int|
                (old(self).spec_actions().len() <= k < final(self).spec_actions().len()
                    && (#[trigger] final(self).spec_actions()[k]) is SendManagerRequest
                    && final(self).spec_actions()[k]->SendManagerRequest_request.operation
                    is StopWorkflow) ==> old(self).spec_cache().contains_key(stream_name@)
                    && final(self).spec_actions()[k]->SendManagerRequest_request.operation->StopWorkflow_name@
                    == old(self).spec_cache()[stream_name@].name@,
            (match workflow {
                Some(ref w) => {
                    &&& final(self).spec_cache().contains_key(stream_name@)
                    &&& crate::config::workflow_model(final(self).spec_cache()[stream_name@])
                        == crate::config::workflow_model(*w)
                    &&& final(self).spec_channels() == old(self).spec_channels()
                    &&& (old(self).spec_interval() == 0 ==> forall|k: int|
                        old(self).spec_actions().len() <= k < final(self).spec_actions().len()
                            ==> !((#[trigger] final(self).spec_actions()[k])
                            is ScheduleUpdateInterval))
                },
                None => {
                    &&& !final(self).spec_cache().contains_key(stream_name@)
                    &&& !final(self).spec_channels().contains_key(stream_name@)
                    &&& forall|k: int|
                        old(self).spec_actions().len() <= k < final(self).spec_actions().len()
                            ==> !((#[trigger] final(self).spec_actions()[k])
                            is ScheduleUpdateInterval)
                },
            }),
            // the exact layout of what this response appends: an optional
            // stop of the superseded workflow, the upsert, one update per
            // subscribed channel, and the optional re-poll timer
            ({
                let sn = stream_name@;
                let base = old(self).spec_actions().len() as int;
                let chans = if old(self).spec_channels().contains_key(sn) {
                    old(self).spec_channels()[sn]@
                } else {
                    Seq::<u64>::empty()
                };
                match workflow {
                    Some(ref w) => {
                        let stop_ct: int = if old(self).spec_cache().contains_key(sn) && old(self).spec_cache()[sn].name@ != w.name@ && old(self).spec_manager() is Some {
                            1
                        } else {
                            0
                        };
                        let ups_ct: int = if old(self).spec_manager() is Some {
                            1
                        } else {
                            0
                        };
                        let timer_ct: int = if old(self).spec_interval() > 0 {
                            1
                        } else {
                            0
                        };
                        &&& final(self).spec_actions().len() == base + stop_ct + ups_ct
                            + chans.len() + timer_ct
                        &&& (stop_ct == 1 ==> (final(self).spec_actions()[base] matches ReactorAction::SendManagerRequest { manager, request }
                            && manager == old(self).spec_manager()->0 && (
                        request.operation matches WorkflowManagerRequestOperation::StopWorkflow { name }
                            && name@ == old(self).spec_cache()[sn].name@)
                            && request.request_id@ == "reactor_"@ + old(self).spec_name()
                            + "_stream_"@ + sn))
                        &&& (ups_ct == 1 ==> (final(self).spec_actions()[base + stop_ct] matches ReactorAction::SendManagerRequest { manager, request }
                            && manager == old(self).spec_manager()->0 && (
                        request.operation matches WorkflowManagerRequestOperation::UpsertWorkflow { definition }
                            && crate::config::workflow_model(definition)
                            == crate::config::workflow_model(*w)) && request.request_id@
                            == "reactor_"@ + old(self).spec_name() + "_stream_"@ + sn))
                        &&& forall|k: int|
                            base + stop_ct + ups_ct <= k < base + stop_ct + ups_ct + chans.len()
                                ==> ((#[trigger] final(self).spec_actions()[k]) matches ReactorAction::SendUpdate { channel, update }
                                && channel == chans[k - base - stop_ct - ups_ct] && (
                            update.workflow_name matches Some(n) && n@ == w.name@))
                        &&& (timer_ct == 1 ==> (final(self).spec_actions().last() matches ReactorAction::ScheduleUpdateInterval { stream_name: t }
                            && t@ == sn))
                        &&& forall|k: Seq<char>|
                            k != sn ==> ((final(self).spec_cache().contains_key(k) <==> old(self).spec_cache().contains_key(k)) && (old(self).spec_cache().contains_key(k)
                                ==> #[trigger] final(self).spec_cache()[k] == old(self).spec_cache()[k]))
                    },
                    None => {
                        let stop_ct: int = if old(self).spec_cache().contains_key(sn) && old(self).spec_manager() is Some {
                            1
                        } else {
                            0
                        };
                        &&& final(self).spec_actions().len() == base + chans.len() + stop_ct
                        &&& forall|k: int|
                            base <= k < base + chans.len() ==> ((
                            #[trigger] final(self).spec_actions()[k]) matches ReactorAction::SendUpdate { channel, update }
                                && channel == chans[k - base] && update.workflow_name is None)
                        &&& (stop_ct == 1 ==> (final(self).spec_actions().last() matches ReactorAction::SendManagerRequest { manager, request }
                            && manager == old(self).spec_manager()->0 && (
                        request.operation matches WorkflowManagerRequestOperation::StopWorkflow { name }
                            && name@ == old(self).spec_cache()[sn].name@)
                            && request.request_id@ == "reactor_"@ + old(self).spec_name()
                            + "_stream_"@ + sn))
                        &&& forall|k: Seq<char>|
                            k != sn ==> ((final(self).spec_cache().contains_key(k) <==> old(self).spec_cache().contains_key(k)) && (old(self).spec_cache().contains_key(k)
                                ==> #[trigger] final(self).spec_cache()[k] == old(self).spec_cache()[k]))
                        &&& forall|k: Seq<char>|
                            k != sn ==> ((final(self).spec_channels().contains_key(k) <==> old(self).spec_channels().contains_key(k)) && (old(self).spec_channels().contains_key(k)
                                ==> #[trigger] final(self).spec_channels()[k] == old(self).spec_channels()[k]))
                    },
                }
            }),
    {
        let ghost base = self.actions@;
        let ghost sn = stream_name@;
        let ghost stop_ct: int = if old(self).spec_cache().contains_key(sn) && (
        workflow matches Some(ref w0) && old(self).spec_cache()[sn].name@ != w0.name@) && old(
            self,
        ).spec_manager() is Some {
            1
        } else {
            0
        };
        let ghost ups_ct: int = if old(self).spec_manager() is Some {
            1
        } else {
            0
        };
        let mut out: Vec<ReactorAction> = Vec::new();
        match workflow {
            Some(w) => {
                let workflow_name = w.name.clone();
                match self.cached_workflows_for_stream_name.get(stream_name.as_str()) {
                    Some(cache) => {
                        let differs = !(cache.name == workflow_name);
                        if differs {
                            match self.workflow_manager {
                                Some(manager) => {
                                    let request_id = self.stream_request_id(&stream_name);
                                    let stop = WorkflowManagerRequest {
                                        request_id,
                                        operation: WorkflowManagerRequestOperation::StopWorkflow {
                                            name: cache.name.clone(),
                                        },
                                    };
                                    out.push(
                                        ReactorAction::SendManagerRequest {
                                            manager,
                                            request: stop,
                                        },
                                    );
                                    proof {
                                        assert(stop_ct == 1);
                                        assert(out@.len() == 1);
                                    }
                                },
                                None => {
                                    proof {
                                        assert(stop_ct == 0);
                                    }
                                },
                            }
                        } else {
                            proof {
                                assert(stop_ct == 0);
                            }
                        }
                    },
                    None => {
                        proof {
                            assert(stop_ct == 0);
                        }
                    },
                }
                let upsert_copy = w.clone();
                self.cached_workflows_for_stream_name.insert(stream_name.clone(), w);
                let ghost with_stop = out@;
                proof {
                    assert(with_stop.len() == stop_ct);
                }
                match self.workflow_manager {
                    Some(manager) => {
                        let request_id = self.stream_request_id(&stream_name);
                        let upsert = WorkflowManagerRequest {
                            request_id,
                            operation: WorkflowManagerRequestOperation::UpsertWorkflow {
                                definition: upsert_copy,
                            },
                        };
                        out.push(ReactorAction::SendManagerRequest { manager, request: upsert });
                        proof {
                            lemma_count_upserts_last(out@);
                            assert(out@.drop_last() =~= with_stop);
                            lemma_count_upserts_zero(with_stop);
                        }
                    },
                    None => {
                        proof {
                            lemma_count_upserts_zero(out@);
                        }
                    },
                }
                let ghost with_upsert = out@;
                proof {
                    assert(with_upsert.len() == stop_ct + ups_ct);
                    assert(self.spec_channels() == old(self).spec_channels());
                }
                // every subscriber hears the new name
                match self.stream_response_channels.get(stream_name.as_str()) {
                    None => {},
                    Some(channels) => {
                        let cn = channels.len();
                        let mut j: usize = 0;
                        while j < cn
                            invariant
                                j <= cn,
                                cn == channels@.len(),
                                workflow is Some,
                                workflow_name@ == workflow->0.name@,
                                out@.len() == with_upsert.len() + j,
                                out@.take(with_upsert.len() as int) == with_upsert,
                                forall|k: int|
                                    with_upsert.len() <= k < out@.len() ==> ((
                                    #[trigger] out@[k]) matches ReactorAction::SendUpdate {
                                        channel,
                                        update,
                                    } && channel == channels@[k - with_upsert.len()] && (
                                    update.workflow_name matches Some(n) && n@
                                        == workflow->0.name@)),
                            decreases cn - j,
                        {
                            let ch = channels[j];
                            let update = ReactorWorkflowUpdate {
                                workflow_name: Some(workflow_name.clone()),
                            };
                            out.push(ReactorAction::SendUpdate { channel: ch, update });
                            proof {
                                assert(out@.take(with_upsert.len() as int) =~= with_upsert);
                            }
                            j += 1;
                        }
                    },
                }
                if self.update_interval_ms > 0 {
                    out.push(
                        ReactorAction::ScheduleUpdateInterval { stream_name: stream_name.clone() },
                    );
                }
                proof {
                    assert(out@.take(with_upsert.len() as int) =~= with_upsert);
                    lemma_count_upserts_only_updates(out@, with_upsert.len() as int);
                    assert(out@.take(with_upsert.len() as int) == with_upsert);
                }
            },
            None => {
                match self.stream_response_channels.remove(stream_name.as_str()) {
                    None => {},
                    Some(channels) => {
                        let cn = channels.len();
                        let mut j: usize = 0;
                        while j < cn
                            invariant
                                j <= cn,
                                cn == channels@.len(),
                                out@.len() == j,
                                forall|k: int|
                                    0 <= k < out@.len() ==> ((#[trigger] out@[k]) matches ReactorAction::SendUpdate {
                                        channel,
                                        update,
                                    } && channel == channels@[k] && update.workflow_name
                                        is None),
                            decreases cn - j,
                        {
                            let ch = channels[j];
                            let update = ReactorWorkflowUpdate { workflow_name: None };
                            out.push(ReactorAction::SendUpdate { channel: ch, update });
                            j += 1;
                        }
                    },
                }
                let ghost with_updates = out@;
                proof {
                    lemma_count_upserts_zero(with_updates);
                }
                match self.cached_workflows_for_stream_name.remove(stream_name.as_str()) {
                    None => {},
                    Some(cache) => {
                        match self.workflow_manager {
                            Some(manager) => {
                                let request_id = self.stream_request_id(&stream_name);
                                let stop = WorkflowManagerRequest {
                                    request_id,
                                    operation: WorkflowManagerRequestOperation::StopWorkflow {
                                        name: cache.name,
                                    },
                                };
                                out.push(
                                    ReactorAction::SendManagerRequest { manager, request: stop },
                                );
                                proof {
                                    lemma_count_upserts_last(out@);
                                    assert(out@.drop_last() =~= with_updates);
                                }
                            },
                            None => {},
                        }
                    },
                }
            },
        }
        let ghost produced = out@;
        self.actions.append(&mut out);
        proof {
            assert(self.actions@ == base + produced);
            assert(self.actions@.take(base.len() as int) =~= base);
            assert(self.actions@.skip(base.len() as int) =~= produced);
            lemma_count_upserts_extend(base, self.actions@);
            assert forall|k: int|
                base.len() <= k < self.actions@.len() implies self.actions@[k] == produced[k
                - base.len()] by {}
        }
    }

    /// The correlation id for manager requests about one stream.
    fn stream_request_id(&self, stream_name: &String) -> (r: String)
        ensures
            r@ == "reactor_"@ + self.spec_name() + "_stream_"@ + stream_name@,
    {
        let mut s = "reactor_".to_owned();
        s.append(self.name.as_str());
        s.append("_stream_");
        s.append(stream_name.as_str());
        s
    }

    /// A new workflow manager announced itself: watch for its loss, push
    /// an upsert for every cached workflow so it catches up, and use it
    /// from now on.
    pub fn handle_workflow_manager_registered(&mut self, manager: u64)
        requires
            old(self).wf(),
        ensures
            final(self).wf(),
            final(self).spec_manager() == Some(manager),
            final(self).spec_cache() == old(self).spec_cache(),
            final(self).spec_channels() == old(self).spec_channels(),
            final(self).spec_interval() == old(self).spec_interval(),
            final(self).spec_name() == old(self).spec_name(),
            final(self).spec_actions().take(old(self).spec_actions().len() as int) == old(self).spec_actions(),
            final(self).spec_actions().len() == old(self).spec_actions().len() + 1
                + old(self).spec_cache().dom().len(),
            final(self).spec_actions()[old(self).spec_actions().len() as int] matches ReactorAction::WatchManagerGone { manager: m }
                && m == manager,
            count_upserts(final(self).spec_actions()) == count_upserts(old(self).spec_actions())
                + old(self).spec_cache().dom().len(),
            // one catch-up upsert per cached entry, carrying that entry's
            // definition, in stored order
            old(self).spec_cache_entries().len() == old(self).spec_cache().dom().len(),
            forall|j: int|
                0 <= j < old(self).spec_cache_entries().len() ==> old(self).spec_cache().contains_key(
                    (#[trigger] old(self).spec_cache_entries()[j]).0,
                ) && old(self).spec_cache()[old(self).spec_cache_entries()[j].0]
                    == old(self).spec_cache_entries()[j].1,
            forall|k: int|
                old(self).spec_actions().len() + 1 <= k < old(self).spec_actions().len() + 1
                    + old(self).spec_cache_entries().len() ==> ((
                #[trigger] final(self).spec_actions()[k]) matches ReactorAction::SendManagerRequest {
                    manager: m,
                    request,
                } && m == manager && (
                request.operation matches WorkflowManagerRequestOperation::UpsertWorkflow { definition }
                    && crate::config::workflow_model(definition) == crate::config::workflow_model(
                    old(self).spec_cache_entries()[k - old(self).spec_actions().len() - 1].1,
                )) && request.request_id@ == "reactor_"@ + old(self).spec_name()
                    + "_cache_catchup"@),
    {
        let ghost base = self.actions@;
        self.actions.push(ReactorAction::WatchManagerGone { manager });
        let ghost with_watch = self.actions@;
        proof {
            self.cached_workflows_for_stream_name.lemma_props();
            lemma_count_upserts_last(with_watch);
            assert(with_watch.drop_last() =~= base);
        }
        let n = self.cached_workflows_for_stream_name.len();
        let mut j: usize = 0;
        while j < n
            invariant
                j <= n,
                self.cached_workflows_for_stream_name.wf(),
                self.stream_response_channels.wf(),
                n == self.cached_workflows_for_stream_name.kvs().len(),
                n == self.spec_cache().dom().len(),
                *self == (Reactor { actions: self.actions, ..*old(self) }),
                self.actions@.len() == with_watch.len() + j,
                self.actions@.take(with_watch.len() as int) == with_watch,
                with_watch == base.push(ReactorAction::WatchManagerGone { manager }),
                count_upserts(self.actions@) == count_upserts(base) + j,
                forall|k: int|
                    with_watch.len() <= k < self.actions@.len() ==> ((
                    #[trigger] self.actions@[k]) matches ReactorAction::SendManagerRequest {
                        manager: m,
                        request,
                    } && m == manager && (
                    request.operation matches WorkflowManagerRequestOperation::UpsertWorkflow { definition }
                        && crate::config::workflow_model(definition)
                        == crate::config::workflow_model(
                        self.spec_cache_entries()[k - with_watch.len()].1,
                    )) && request.request_id@ == "reactor_"@ + self.spec_name()
                        + "_cache_catchup"@),
            decreases n - j,
        {
            let def = self.cached_workflows_for_stream_name.value_at(j);
            let mut rid = "reactor_".to_owned();
            rid.append(self.name.as_str());
            rid.append("_cache_catchup");
            proof {
                assert(rid@ == "reactor_"@ + self.spec_name() + "_cache_catchup"@);
            }
            let upsert = WorkflowManagerRequest {
                request_id: rid,
                operation: WorkflowManagerRequestOperation::UpsertWorkflow {
                    definition: def.clone(),
                },
            };
            let ghost before = self.actions@;
            self.actions.push(ReactorAction::SendManagerRequest { manager, request: upsert });
            proof {
                assert(self.actions@.take(with_watch.len() as int) =~= with_watch);
                lemma_count_upserts_last(self.actions@);
                assert(self.actions@.drop_last() =~= before);
            }
            j += 1;
        }
        proof {
            self.cached_workflows_for_stream_name.lemma_props();
        }
        self.workflow_manager = Some(manager);
    }

    /// A consumer's response channel closed: every occurrence of it leaves
    /// the stream's list.  When the list empties, the stream's entry and
    /// its cache entry are dropped, and with a manager known, exactly one
    /// stop naming the dropped workflow is issued: nobody consumes it any
    /// more.  With consumers left, cache and manager are untouched.
    pub fn handle_response_channel_closed(&mut self, stream_name: String, channel: u64)
        requires
            old(self).wf(),
        ensures
            final(self).wf(),
            final(self).spec_manager() == old(self).spec_manager(),
            final(self).spec_interval() == old(self).spec_interval(),
            final(self).spec_name() == old(self).spec_name(),
            final(self).spec_actions().take(old(self).spec_actions().len() as int) == old(self).spec_actions(),
            forall|k: Seq<char>|
                k != stream_name@ ==> ((final(self).spec_channels().contains_key(k) <==> old(self).spec_channels().contains_key(k)) && (old(self).spec_channels().contains_key(k)
                    ==> #[trigger] final(self).spec_channels()[k] == old(self).spec_channels()[k])),
            forall|k: Seq<char>|
                k != stream_name@ ==> ((final(self).spec_cache().contains_key(k) <==> old(self).spec_cache().contains_key(k)) && (old(self).spec_cache().contains_key(k)
                    ==> #[trigger] final(self).spec_cache()[k] == old(self).spec_cache()[k])),
            !old(self).spec_channels().contains_key(stream_name@) ==> ({
                &&& final(self).spec_channels() == old(self).spec_channels()
                &&& final(self).spec_cache() == old(self).spec_cache()
                &&& final(self).spec_actions() == old(self).spec_actions()
            }),
            old(self).spec_channels().contains_key(stream_name@) ==> ({
                let kept = old(self).spec_channels()[stream_name@]@.filter(
                    |c: u64| c != channel,
                );
                if kept.len() > 0 {
                    &&& final(self).spec_channels().contains_key(stream_name@)
                    &&& final(self).spec_channels()[stream_name@]@ == kept
                    &&& final(self).spec_cache() == old(self).spec_cache()
                    &&& final(self).spec_actions() == old(self).spec_actions()
                } else {
                    &&& !final(self).spec_channels().contains_key(stream_name@)
                    &&& final(self).spec_cache() == old(self).spec_cache().remove(stream_name@)
                    &&& (if old(self).spec_cache().contains_key(stream_name@) && old(self).spec_manager() is Some {
                        &&& final(self).spec_actions().len() == old(self).spec_actions().len() + 1
                        &&& final(self).spec_actions().last() matches ReactorAction::SendManagerRequest { manager, request }
                            && manager == old(self).spec_manager()->0 && (
                        request.operation matches WorkflowManagerRequestOperation::StopWorkflow { name }
                            && name@ == old(self).spec_cache()[stream_name@].name@)
                            && request.request_id@ == "from_reactor"@
                    } else {
                        final(self).spec_actions() == old(self).spec_actions()
                    })
                }
            }),
    {
        let ghost base = self.actions@;
        let channels_opt = self.stream_response_channels.remove(stream_name.as_str());
        let channels: Vec<u64> = match channels_opt {
            None => {
                proof {
                    assert(self.actions@.take(base.len() as int) =~= base);
                    assert(self.spec_channels() =~= old(self).spec_channels());
                }
                return ;
            },
            Some(v) => v,
        };
        // drop every occurrence of the closed channel
        let mut kept: Vec<u64> = Vec::new();
        let cn = channels.len();
        let mut j: usize = 0;
        proof {
            reveal(Seq::filter);
            assert(channels@.take(0).filter(|x: u64| x != channel) =~= Seq::<u64>::empty());
        }
        while j < cn
            invariant
                j <= cn,
                cn == channels@.len(),
                kept@ == channels@.take(j as int).filter(|x: u64| x != channel),
            decreases cn - j,
        {
            let c = channels[j];
            proof {
                reveal(Seq::filter);
                assert(channels@.take(j + 1).drop_last() =~= channels@.take(j as int));
                assert(channels@.take(j + 1).last() == channels@[j as int]);
                if c != channel {
                    assert(channels@.take(j + 1).filter(|x: u64| x != channel)
                        == channels@.take(j as int).filter(|x: u64| x != channel).push(c));
                } else {
                    assert(channels@.take(j + 1).filter(|x: u64| x != channel)
                        == channels@.take(j as int).filter(|x: u64| x != channel));
                }
            }
            if c != channel {
                kept.push(c);
            }
            j += 1;
        }
        proof {
            assert(channels@.take(cn as int) =~= channels@);
        }
        if kept.len() == 0 {
            let cache_opt = self.cached_workflows_for_stream_name.remove(stream_name.as_str());
            match cache_opt {
                None => {
                    proof {
                        assert(self.spec_cache() =~= old(self).spec_cache().remove(stream_name@));
                        assert(self.actions@.take(base.len() as int) =~= base);
                    }
                },
                Some(cache) => {
                    match self.workflow_manager {
                        Some(manager) => {
                            let stop = WorkflowManagerRequest {
                                request_id: "from_reactor".to_owned(),
                                operation: WorkflowManagerRequestOperation::StopWorkflow {
                                    name: cache.name,
                                },
                            };
                            self.actions.push(
                                ReactorAction::SendManagerRequest { manager, request: stop },
                            );
                            proof {
                                assert(self.actions@.drop_last() =~= base);
                                assert(self.actions@.take(base.len() as int) =~= base);
                            }
                        },
                        None => {
                            proof {
                                assert(self.actions@.take(base.len() as int) =~= base);
                            }
                        },
                    }
                },
            }
        } else {
            self.stream_response_channels.insert(stream_name, kept);
            proof {
                assert(self.actions@.take(base.len() as int) =~= base);
            }
        }
    }

    /// The update interval for a stream elapsed: ask the executor again,
    /// but only while the stream is still cached.
    pub fn handle_update_stream_name_requested(&mut self, stream_name: String)
        requires
            old(self).wf(),
        ensures
            final(self).wf(),
            final(self).spec_cache() == old(self).spec_cache(),
            final(self).spec_channels() == old(self).spec_channels(),
            final(self).spec_manager() == old(self).spec_manager(),
            final(self).spec_interval() == old(self).spec_interval(),
            final(self).spec_name() == old(self).spec_name(),
            final(self).spec_actions().take(old(self).spec_actions().len() as int) == old(self).spec_actions(),
            old(self).spec_cache().contains_key(stream_name@) ==> final(self).spec_actions()
                == old(self).spec_actions().push(
                ReactorAction::StartExecutorLookup { stream_name },
            ),
            !old(self).spec_cache().contains_key(stream_name@) ==> final(self).spec_actions()
                == old(self).spec_actions(),
    {
        let ghost base = self.actions@;
        if self.cached_workflows_for_stream_name.contains_key(stream_name.as_str()) {
            self.actions.push(ReactorAction::StartExecutorLookup { stream_name });
        }
        proof {
            assert(self.actions@.take(base.len() as int) =~= base);
        }
    }
}


/// A run of actions without an upsert request counts no upserts.
proof fn lemma_count_upserts_zero(s: Seq<ReactorAction>)
    requires
        forall|k: int|
            0 <= k < s.len() ==> ((#[trigger] s[k]) is SendManagerRequest
                ==> !(s[k]->SendManagerRequest_request.operation is UpsertWorkflow)),
    ensures
        count_upserts(s) == 0,
    decreases s.len(),
{
    if s.len() > 0 {
        assert(forall|k: int|
            0 <= k < s.drop_last().len() ==> #[trigger] s.drop_last()[k] == s[k]);
        lemma_count_upserts_zero(s.drop_last());
    }
}

/// Actions appended after a point that are all updates or timers count no
/// further upserts.
proof fn lemma_count_upserts_only_updates(s: Seq<ReactorAction>, from: int)
    requires
        0 <= from <= s.len(),
        forall|k: int|
            from <= k < s.len() ==> ((#[trigger] s[k]) is SendManagerRequest
                ==> !(s[k]->SendManagerRequest_request.operation is UpsertWorkflow)),
    ensures
        count_upserts(s) == count_upserts(s.take(from)),
    decreases s.len() - from,
{
    if from < s.len() {
        lemma_count_upserts_last(s);
        assert(s.drop_last().take(from) =~= s.take(from));
        lemma_count_upserts_only_updates(s.drop_last(), from);
    } else {
        assert(s.take(from) =~= s);
    }
}

/// Counting upserts distributes over appending: what was counted stays
/// counted.
proof fn lemma_count_upserts_extend(base: Seq<ReactorAction>, full: Seq<ReactorAction>)
    requires
        base.len() <= full.len(),
        full.take(base.len() as int) == base,
    ensures
        count_upserts(full) == count_upserts(base) + count_upserts(full.skip(base.len() as int)),
    decreases full.len() - base.len(),
{
    if full.len() == base.len() {
        assert(full.skip(base.len() as int) =~= Seq::<ReactorAction>::empty());
        assert(full =~= base);
    } else {
        let shorter = full.drop_last();
        assert(shorter.take(base.len() as int) =~= base);
        lemma_count_upserts_extend(base, shorter);
        lemma_count_upserts_last(full);
        assert(full.skip(base.len() as int).drop_last() =~= shorter.skip(base.len() as int));
        lemma_count_upserts_last(full.skip(base.len() as int));
    }
}

/// Unfolding the count at the last element.
proof fn lemma_count_upserts_last(s: Seq<ReactorAction>)
    requires
        s.len() > 0,
    ensures
        count_upserts(s) == count_upserts(s.drop_last()) + (match s.last() {
            ReactorAction::SendManagerRequest { request, .. } => match request.operation {
                WorkflowManagerRequestOperation::UpsertWorkflow { .. } => 1int,
                _ => 0int,
            },
            _ => 0int,
        }),
{
}

} // verus!
