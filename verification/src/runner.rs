//! The workflow runner: owns the steps of one workflow, keyed by step-id,
//! with an ordered active list (the live pipeline) and an ordered pending
//! list (the pipeline being brought up).  It applies redefinitions without
//! losing live streams: a swap waits until every pending step is active,
//! removed steps' streams are disconnected downstream, and newly inserted
//! steps are fed their predecessor's cached stream starts and sequence
//! headers so they join mid-stream.
//!
//! The runner is driven from outside: callers hand it requests and resolved
//! step futures, and drain the futures to schedule, the endpoint requests
//! and the endpoint media it produces.

use vstd::prelude::*;
use crate::collections::IdMap;
use crate::collections::StrMap;
use crate::definitions::WorkflowDefinition;
use crate::definitions::WorkflowStepDefinition;
use crate::definitions::spec_step_id;
use crate::endpoints::RtmpEndpointMediaMessage;
use crate::endpoints::RtmpEndpointRequest;
use crate::media::ContentModel;
use crate::media::MediaModel;
use crate::media::MediaNotification;
use crate::media::is_cacheable;
use crate::steps::FutureSpec;
use crate::steps::Step;
use crate::steps::StepFutureResult;
use crate::steps::StepInputs;
use crate::steps::StepOutputs;
use crate::steps::StepStatus;
use crate::steps::factory::WorkflowStepFactory;

verus! {

/// Requests that can be made to an actively running workflow.
pub enum WorkflowRequest {
    /// Replace the workflow's definition.  The workflow takes exactly the
    /// new shape: steps no longer listed are removed, new steps are
    /// created, and the listed order becomes the pipeline order.
    UpdateDefinition { new_definition: WorkflowDefinition },
}

/// Whether the runner is still applying definitions or has failed.
#[derive(Clone, Copy, PartialEq, Eq, Structural, Debug)]
pub enum RunnerStatus {
    Running,
    Error,
}

/// What the runner knows of one live stream.
pub struct StreamDetails {
    /// The step that first announced the stream.  When that step is
    /// removed the stream has lost its source and is disconnected.
    pub originating_step_id: u64,
}

/// The runner of one workflow.
pub struct WorkflowRunner {
    name: String,
    status: RunnerStatus,
    steps_by_definition_id: IdMap<Step>,
    active_steps: Vec<u64>,
    pending_steps: Vec<u64>,
    step_inputs: StepInputs,
    step_outputs: StepOutputs,
    cached_step_media: IdMap<StrMap<Vec<MediaNotification>>>,
    active_streams: StrMap<StreamDetails>,
    step_factory: WorkflowStepFactory,
    scheduled_futures: Vec<(u64, FutureSpec)>,
    outbound_requests: Vec<RtmpEndpointRequest>,
    outbound_media: Vec<RtmpEndpointMediaMessage>,
}

/// The view of the stream table: stream id -> originating step id.
pub open spec fn sdmap_view(m: Map<Seq<char>, StreamDetails>) -> Map<Seq<char>, u64> {
    Map::new(|k: Seq<char>| m.dom().contains(k), |k: Seq<char>| m[k].originating_step_id)
}

/// The view of one step's media cache: stream id -> retained notifications.
pub open spec fn cache_entry_view(sm: StrMap<Vec<MediaNotification>>) -> Map<
    Seq<char>,
    Seq<MediaModel>,
> {
    Map::new(
        |k: Seq<char>| sm@.dom().contains(k),
        |k: Seq<char>| sm@[k]@.map_values(|m: MediaNotification| m@),
    )
}

impl WorkflowRunner {
    pub closed spec fn spec_status(&self) -> RunnerStatus {
        self.status
    }

    pub closed spec fn spec_steps(&self) -> Map<u64, Step> {
        self.steps_by_definition_id@
    }

    pub closed spec fn spec_active(&self) -> Seq<u64> {
        self.active_steps@
    }

    pub closed spec fn spec_pending(&self) -> Seq<u64> {
        self.pending_steps@
    }

    /// stream id -> originating step id
    pub closed spec fn spec_streams(&self) -> Map<Seq<char>, u64> {
        sdmap_view(self.active_streams@)
    }

    /// step id -> (stream id -> retained notifications)
    pub closed spec fn spec_cache(&self) -> Map<u64, Map<Seq<char>, Seq<MediaModel>>> {
        Map::new(
            |id: u64| self.cached_step_media@.dom().contains(id),
            |id: u64| cache_entry_view(self.cached_step_media@[id]),
        )
    }

    pub closed spec fn spec_factory(&self) -> WorkflowStepFactory {
        self.step_factory
    }

    pub closed spec fn spec_scheduled_futures(&self) -> Seq<(u64, FutureSpec)> {
        self.scheduled_futures@
    }

    pub closed spec fn spec_outbound_requests(&self) -> Seq<RtmpEndpointRequest> {
        self.outbound_requests@
    }

    pub closed spec fn spec_outbound_media(&self) -> Seq<RtmpEndpointMediaMessage> {
        self.outbound_media@
    }

    /// The input buffer the next executed step will read.
    pub closed spec fn spec_inputs(&self) -> StepInputs {
        self.step_inputs
    }

    /// The output buffer of the last executed step.
    pub closed spec fn spec_outputs(&self) -> StepOutputs {
        self.step_outputs
    }

    /// The structural part of well-formedness:
    ///
    /// - every step stands in the table under the id its definition hashes
    ///   to, so one id never names two live steps;
    /// - every step in the table is on the active or the pending list;
    /// - caches hold only stream starts and sequence headers, and no empty
    ///   entries.
    pub closed spec fn wf_core(&self) -> bool {
        &&& self.steps_by_definition_id.wf()
        &&& self.cached_step_media.wf()
        &&& self.active_streams.wf()
        &&& self.step_factory.wf()
        &&& forall|id: u64|
            self.spec_steps().dom().contains(id) ==> (#[trigger] self.spec_steps()[id]).wf()
                && spec_step_id(&self.spec_steps()[id].spec_definition()) == id
        &&& forall|id: u64|
            self.cached_step_media@.dom().contains(id) ==> (
            #[trigger] self.cached_step_media@[id]).wf()
        &&& forall|id: u64, sid: Seq<char>|
            self.spec_cache().dom().contains(id) && (#[trigger] self.spec_cache()[id].dom().contains(
                sid,
            )) ==> {
                let entry = self.spec_cache()[id][sid];
                &&& entry.len() > 0
                &&& forall|i: int| 0 <= i < entry.len() ==> is_cacheable((#[trigger] entry[i]).content)
            }
    }

    /// One live stream is covered: its originating step is still in the
    /// table and that step's cache still holds the stream, so removing the
    /// step finds and disconnects it.
    pub open spec fn stream_covered(&self, sid: Seq<char>) -> bool {
        self.spec_streams().dom().contains(sid) ==> {
            let origin = self.spec_streams()[sid];
            &&& self.spec_steps().dom().contains(origin)
            &&& self.spec_cache().dom().contains(origin)
            &&& self.spec_cache()[origin].dom().contains(sid)
        }
    }

    /// Well-formedness of a runner: the structural part, and every live
    /// stream covered.
    pub open spec fn wf(&self) -> bool {
        &&& self.wf_core()
        &&& forall|sid: Seq<char>| #[trigger] self.stream_covered(sid)
    }
}

/// How one batch of outputs, produced by step `cur`, moves the stream
/// table: a stream start registers an unknown stream as originating at
/// `cur`; a disconnect from the originating step removes it; disconnects
/// from other steps are informational only.
pub open spec fn spec_update_streams(
    m: Map<Seq<char>, u64>,
    cur: u64,
    ms: Seq<MediaModel>,
) -> Map<Seq<char>, u64>
    decreases ms.len(),
{
    if ms.len() == 0 {
        m
    } else {
        let sid = ms[0].stream_id;
        let m1 = match ms[0].content {
            ContentModel::NewIncomingStream { .. } => if !m.contains_key(sid) {
                m.insert(sid, cur)
            } else {
                m
            },
            ContentModel::StreamDisconnected => if m.contains_key(sid) && m[sid] == cur {
                m.remove(sid)
            } else {
                m
            },
            _ => m,
        };
        spec_update_streams(m1, cur, ms.drop_first())
    }
}

/// How one batch of outputs moves the producing step's media cache: stream
/// starts and sequence headers are appended to the stream's entry, a
/// disconnect drops the entry, everything else is ignored.
pub open spec fn spec_update_cache(
    c: Map<Seq<char>, Seq<MediaModel>>,
    ms: Seq<MediaModel>,
) -> Map<Seq<char>, Seq<MediaModel>>
    decreases ms.len(),
{
    if ms.len() == 0 {
        c
    } else {
        let sid = ms[0].stream_id;
        let c1 = if is_cacheable(ms[0].content) {
            let entry = if c.contains_key(sid) {
                c[sid]
            } else {
                Seq::empty()
            };
            c.insert(sid, entry.push(ms[0]))
        } else if ms[0].content is StreamDisconnected {
            c.remove(sid)
        } else {
            c
        };
        spec_update_cache(c1, ms.drop_first())
    }
}

impl WorkflowRunner {
    /// Track stream starts and ends from the outputs the step just
    /// produced.
    fn update_stream_details(&mut self, current_step_id: u64)
        requires
            old(self).active_streams.wf(),
        ensures
            final(self).active_streams.wf(),
            sdmap_view(final(self).active_streams@) == spec_update_streams(
                sdmap_view(old(self).active_streams@),
                current_step_id,
                old(self).step_outputs.media@.map_values(|m: MediaNotification| m@),
            ),
            *final(self) == (WorkflowRunner { active_streams: final(self).active_streams, ..*old(self) }),
    {
        let ghost full = self.step_outputs.media@.map_values(|m: MediaNotification| m@);
        let n = self.step_outputs.media.len();
        let mut i: usize = 0;
        proof {
            assert(full.skip(0) =~= full);
        }
        while i < n
            invariant
                i <= n,
                n == self.step_outputs.media@.len(),
                self.active_streams.wf(),
                full == self.step_outputs.media@.map_values(|m: MediaNotification| m@),
                spec_update_streams(
                    sdmap_view(old(self).active_streams@),
                    current_step_id,
                    full,
                ) == spec_update_streams(
                    sdmap_view(self.active_streams@),
                    current_step_id,
                    full.skip(i as int),
                ),
                *self == (WorkflowRunner {
                    active_streams: self.active_streams,
                    ..*old(self)
                }),
            decreases n - i,
        {
            let ghost rem = full.skip(i as int);
            proof {
                assert(rem[0] == full[i as int]);
                assert(rem.drop_first() =~= full.skip(i + 1));
            }
            let ghost pre_view = sdmap_view(self.active_streams@);
            let media = &self.step_outputs.media[i];
            match &media.content {
                crate::media::MediaNotificationContent::NewIncomingStream { .. } => {
                    if !self.active_streams.contains_key(media.stream_id.0.as_str()) {
                        let sid = media.stream_id.0.clone();
                        self.active_streams.insert(
                            sid,
                            StreamDetails { originating_step_id: current_step_id },
                        );
                        proof {
                            assert(sdmap_view(self.active_streams@) =~= pre_view.insert(
                                rem[0].stream_id,
                                current_step_id,
                            ));
                        }
                    }
                },
                crate::media::MediaNotificationContent::StreamDisconnected => {
                    let is_origin = match self.active_streams.get(media.stream_id.0.as_str()) {
                        Some(details) => details.originating_step_id == current_step_id,
                        None => false,
                    };
                    if is_origin {
                        self.active_streams.remove(media.stream_id.0.as_str());
                        proof {
                            assert(sdmap_view(self.active_streams@) =~= pre_view.remove(
                                rem[0].stream_id,
                            ));
                        }
                    }
                },
                _ => {},
            }
            i += 1;
        }
        proof {
            assert(full.skip(n as int) =~= Seq::<MediaModel>::empty());
        }
    }

    /// Retain, in the step's media cache, the stream starts and sequence
    /// headers it just produced; drop entries of streams that ended.
    fn update_media_cache_from_outputs(&mut self, step_id: u64)
        requires
            old(self).cached_step_media.wf(),
            forall|id: u64|
                old(self).cached_step_media@.dom().contains(id) ==> (
                #[trigger] old(self).cached_step_media@[id]).wf(),
        ensures
            final(self).cached_step_media.wf(),
            forall|id: u64|
                final(self).cached_step_media@.dom().contains(id) ==> (
                #[trigger] final(self).cached_step_media@[id]).wf(),
            final(self).spec_cache() == old(self).spec_cache().insert(
                step_id,
                spec_update_cache(
                    if old(self).spec_cache().dom().contains(step_id) {
                        old(self).spec_cache()[step_id]
                    } else {
                        Map::empty()
                    },
                    old(self).step_outputs.media@.map_values(|m: MediaNotification| m@),
                ),
            ),
            *final(self) == (WorkflowRunner {
                cached_step_media: final(self).cached_step_media,
                ..*old(self)
            }),
    {
        let ghost full = self.step_outputs.media@.map_values(|m: MediaNotification| m@);
        let ghost base = if old(self).spec_cache().dom().contains(step_id) {
            old(self).spec_cache()[step_id]
        } else {
            Map::<Seq<char>, Seq<MediaModel>>::empty()
        };
        let mut entry: StrMap<Vec<MediaNotification>> = match self.cached_step_media.remove(
            step_id,
        ) {
            Some(e) => e,
            None => StrMap::new(),
        };
        proof {
            assert(cache_entry_view(entry) =~= base);
            assert(full.skip(0) =~= full);
        }
        let n = self.step_outputs.media.len();
        let mut i: usize = 0;
        while i < n
            invariant
                i <= n,
                n == self.step_outputs.media@.len(),
                entry.wf(),
                full == self.step_outputs.media@.map_values(|m: MediaNotification| m@),
                spec_update_cache(base, full) == spec_update_cache(
                    cache_entry_view(entry),
                    full.skip(i as int),
                ),
                self.cached_step_media@ == old(self).cached_step_media@.remove(step_id),
                self.cached_step_media.wf(),
                forall|id: u64|
                    self.cached_step_media@.dom().contains(id) ==> (
                    #[trigger] self.cached_step_media@[id]).wf(),
                *self == (WorkflowRunner {
                    cached_step_media: self.cached_step_media,
                    ..*old(self)
                }),
            decreases n - i,
        {
            let ghost rem = full.skip(i as int);
            proof {
                assert(rem[0] == full[i as int]);
                assert(rem.drop_first() =~= full.skip(i + 1));
            }
            let ghost pre_view = cache_entry_view(entry);
            let media = &self.step_outputs.media[i];
            let cacheable = match &media.content {
                crate::media::MediaNotificationContent::NewIncomingStream { .. } => true,
                crate::media::MediaNotificationContent::Video { is_sequence_header, .. } => *is_sequence_header,
                crate::media::MediaNotificationContent::Audio { is_sequence_header, .. } => *is_sequence_header,
                _ => false,
            };
            if cacheable {
                let mut list: Vec<MediaNotification> = match entry.remove(
                    media.stream_id.0.as_str(),
                ) {
                    Some(l) => l,
                    None => Vec::new(),
                };
                let copy = media.clone();
                list.push(copy);
                let sid = media.stream_id.0.clone();
                entry.insert(sid, list);
                proof {
                    let e = if pre_view.contains_key(rem[0].stream_id) {
                        pre_view[rem[0].stream_id]
                    } else {
                        Seq::<MediaModel>::empty()
                    };
                    assert(list@.map_values(|m: MediaNotification| m@) =~= e.push(rem[0]));
                    assert(cache_entry_view(entry) =~= pre_view.insert(
                        rem[0].stream_id,
                        e.push(rem[0]),
                    ));
                }
            } else {
                let is_disconnect = match &media.content {
                    crate::media::MediaNotificationContent::StreamDisconnected => true,
                    _ => false,
                };
                if is_disconnect {
                    entry.remove(media.stream_id.0.as_str());
                    proof {
                        assert(cache_entry_view(entry) =~= pre_view.remove(rem[0].stream_id));
                    }
                }
            }
            i += 1;
        }
        proof {
            assert(full.skip(n as int) =~= Seq::<MediaModel>::empty());
        }
        self.cached_step_media.insert(step_id, entry);
        proof {
            assert(final(self).spec_cache() =~= old(self).spec_cache().insert(
                step_id,
                spec_update_cache(base, full),
            ));
        }
    }
}


/// One round of stream-table and cache updates keeps the runner's books in
/// order: origins never change, new streams originate at the executing
/// step, streams of other origins survive, the executing step's covered
/// streams stay covered, and cache entries stay non-empty and cacheable.
proof fn lemma_update_props(
    m: Map<Seq<char>, u64>,
    cur: u64,
    ms: Seq<MediaModel>,
    c: Map<Seq<char>, Seq<MediaModel>>,
)
    requires
        forall|sid: Seq<char>|
            m.dom().contains(sid) && #[trigger] m[sid] == cur ==> c.dom().contains(sid),
        forall|sid: Seq<char>|
            c.dom().contains(sid) ==> (#[trigger] c[sid]).len() > 0 && forall|i: int|
                0 <= i < c[sid].len() ==> is_cacheable((#[trigger] c[sid][i]).content),
    ensures
        ({
            let m2 = spec_update_streams(m, cur, ms);
            let c2 = spec_update_cache(c, ms);
            &&& forall|sid: Seq<char>|
                m2.dom().contains(sid) ==> (m.dom().contains(sid) && m[sid] == #[trigger] m2[sid])
                    || m2[sid] == cur
            &&& forall|sid: Seq<char>|
                m.dom().contains(sid) && #[trigger] m[sid] != cur ==> m2.dom().contains(sid)
                    && m2[sid] == m[sid]
            &&& forall|sid: Seq<char>|
                m2.dom().contains(sid) && #[trigger] m2[sid] == cur ==> c2.dom().contains(sid)
            &&& forall|sid: Seq<char>|
                c2.dom().contains(sid) ==> (#[trigger] c2[sid]).len() > 0 && forall|i: int|
                    0 <= i < c2[sid].len() ==> is_cacheable((#[trigger] c2[sid][i]).content)
        }),
    decreases ms.len(),
{
    if ms.len() == 0 {
    } else {
        let sid0 = ms[0].stream_id;
        let m1 = match ms[0].content {
            ContentModel::NewIncomingStream { .. } => if !m.contains_key(sid0) {
                m.insert(sid0, cur)
            } else {
                m
            },
            ContentModel::StreamDisconnected => if m.contains_key(sid0) && m[sid0] == cur {
                m.remove(sid0)
            } else {
                m
            },
            _ => m,
        };
        let c1 = if is_cacheable(ms[0].content) {
            let entry = if c.contains_key(sid0) {
                c[sid0]
            } else {
                Seq::<MediaModel>::empty()
            };
            c.insert(sid0, entry.push(ms[0]))
        } else if ms[0].content is StreamDisconnected {
            c.remove(sid0)
        } else {
            c
        };
        assert forall|sid: Seq<char>|
            m1.dom().contains(sid) && #[trigger] m1[sid] == cur implies c1.dom().contains(
            sid,
        ) by {
            if sid != sid0 {
                assert(m.dom().contains(sid) && m[sid] == cur);
            }
        }
        assert forall|sid: Seq<char>| c1.dom().contains(sid) implies (#[trigger] c1[sid]).len() > 0
            && forall|i: int|
            0 <= i < c1[sid].len() ==> is_cacheable((#[trigger] c1[sid][i]).content) by {
            if sid == sid0 && is_cacheable(ms[0].content) {
                let entry = if c.contains_key(sid0) {
                    c[sid0]
                } else {
                    Seq::<MediaModel>::empty()
                };
                assert(c1[sid] == entry.push(ms[0]));
                assert forall|i: int| 0 <= i < c1[sid].len() implies is_cacheable(
                    (#[trigger] c1[sid][i]).content,
                ) by {
                    if i < entry.len() {
                        assert(c.dom().contains(sid0));
                        assert(c1[sid][i] == c[sid0][i]);
                    } else {
                        assert(c1[sid][i] == ms[0]);
                    }
                }
            } else {
                assert(c.dom().contains(sid));
                assert(c1[sid] == c[sid]);
            }
        }
        lemma_update_props(m1, cur, ms.drop_first(), c1);
        assert(spec_update_streams(m, cur, ms) == spec_update_streams(m1, cur, ms.drop_first()));
        assert(spec_update_cache(c, ms) == spec_update_cache(c1, ms.drop_first()));
        let m2 = spec_update_streams(m, cur, ms);
        assert forall|sid: Seq<char>| m2.dom().contains(sid) implies (m.dom().contains(sid)
            && m[sid] == #[trigger] m2[sid]) || m2[sid] == cur by {
            if m1.dom().contains(sid) && m1[sid] == m2[sid] {
                if sid == sid0 {
                    if !m.contains_key(sid0) {
                        assert(m1[sid0] == cur);
                    }
                }
            }
        }
        assert forall|sid: Seq<char>| m.dom().contains(sid) && #[trigger] m[sid]
            != cur implies m2.dom().contains(sid) && m2[sid] == m[sid] by {
            assert(m1.dom().contains(sid) && m1[sid] == m[sid]);
        }
    }
}


/// How a step's own execute relates its states and buffers, by step type.
pub open spec fn step_run(
    pre: Step,
    post: Step,
    old_in: StepInputs,
    new_in: StepInputs,
    old_out: StepOutputs,
    new_out: StepOutputs,
) -> bool {
    match pre {
        Step::RtmpReceive(s) => post is RtmpReceive
            && crate::steps::rtmp_receive::receive_execute_rel(
            s,
            post->RtmpReceive_0,
            old_in,
            new_in,
            old_out,
            new_out,
        ),
        Step::RtmpWatch(s) => post is RtmpWatch && crate::steps::rtmp_watch::watch_execute_rel(
            s,
            post->RtmpWatch_0,
            old_in,
            new_in,
            old_out,
            new_out,
        ),
    }
}

/// Everything executing the step of one id does to a runner: the step runs
/// on the pending inputs by its own execute relation, its futures are
/// scheduled under its id, its endpoint media goes to the outbox, stream
/// starts and ends move the stream table, its cache retains what replay
/// needs, and its media becomes the next step's input.  An id with no step
/// in the table changes nothing.
pub open spec fn step_effect(pre: WorkflowRunner, post: WorkflowRunner, id: u64) -> bool {
    &&& post.wf_core()
    &&& post.spec_active() == pre.spec_active()
    &&& post.spec_pending() == pre.spec_pending()
    &&& post.spec_status() == pre.spec_status()
    &&& post.spec_factory() == pre.spec_factory()
    &&& post.spec_outbound_requests() == pre.spec_outbound_requests()
    &&& if !pre.spec_steps().dom().contains(id) {
        post == pre
    } else {
        exists|stepped: Step, mid_in: StepInputs, mid_out: StepOutputs|
            #![trigger step_run(pre.spec_steps()[id], stepped, pre.spec_inputs(), mid_in, pre.spec_outputs(), mid_out)]
            {
                let produced = mid_out.media@.map_values(|m: MediaNotification| m@);
                &&& step_run(
                    pre.spec_steps()[id],
                    stepped,
                    pre.spec_inputs(),
                    mid_in,
                    pre.spec_outputs(),
                    mid_out,
                )
                &&& post.spec_steps() == pre.spec_steps().insert(id, stepped)
                &&& post.spec_streams() == spec_update_streams(pre.spec_streams(), id, produced)
                &&& post.spec_cache() == pre.spec_cache().insert(
                    id,
                    spec_update_cache(
                        if pre.spec_cache().dom().contains(id) {
                            pre.spec_cache()[id]
                        } else {
                            Map::empty()
                        },
                        produced,
                    ),
                )
                &&& post.spec_scheduled_futures() == pre.spec_scheduled_futures()
                    + mid_out.futures@.map_values(|f: FutureSpec| (id, f))
                &&& post.spec_outbound_media() == pre.spec_outbound_media()
                    + mid_out.rtmp_media@
                &&& post.spec_inputs().media == mid_out.media
                &&& post.spec_inputs().notifications@.len() == 0
                &&& post.spec_outputs().media@.len() == 0
                &&& post.spec_outputs().futures@.len() == 0
                &&& post.spec_outputs().rtmp_media@.len() == 0
            }
    }
}

/// A pipeline pass: the steps of `ids`, executed left to right, each
/// feeding the next.
pub open spec fn pipeline_effect(pre: WorkflowRunner, post: WorkflowRunner, ids: Seq<u64>) -> bool
    decreases ids.len(),
{
    if ids.len() == 0 {
        post == pre
    } else {
        exists|mid: WorkflowRunner| #[trigger]
            step_effect(pre, mid, ids[0]) && pipeline_effect(mid, post, ids.drop_first())
    }
}

/// A pipeline pass extends by one step at its end.
proof fn lemma_pipeline_push(
    pre: WorkflowRunner,
    mid: WorkflowRunner,
    post: WorkflowRunner,
    ids: Seq<u64>,
    id: u64,
)
    requires
        pipeline_effect(pre, mid, ids),
        step_effect(mid, post, id),
    ensures
        pipeline_effect(pre, post, ids.push(id)),
    decreases ids.len(),
{
    if ids.len() == 0 {
        assert(mid == pre);
        assert(ids.push(id)[0] == id);
        assert(ids.push(id).drop_first() =~= Seq::<u64>::empty());
        assert(pipeline_effect(post, post, ids.push(id).drop_first()));
        assert(step_effect(pre, post, ids.push(id)[0]) && pipeline_effect(
            post,
            post,
            ids.push(id).drop_first(),
        ));
    } else {
        let m1 = choose|m1: WorkflowRunner| #[trigger]
            step_effect(pre, m1, ids[0]) && pipeline_effect(m1, mid, ids.drop_first());
        lemma_pipeline_push(m1, mid, post, ids.drop_first(), id);
        assert(ids.push(id)[0] == ids[0]);
        assert(ids.push(id).drop_first() =~= ids.drop_first().push(id));
        assert(step_effect(pre, m1, ids.push(id)[0]) && pipeline_effect(
            m1,
            post,
            ids.push(id).drop_first(),
        ));
    }
}

/// What preparing a traversal does to the buffers: outputs cleared, inputs
/// cleared unless preserved, and a supplied future result appended to the
/// notifications; nothing else moves.
pub open spec fn prep_effect(
    pre: WorkflowRunner,
    mid: WorkflowRunner,
    fr: Option<StepFutureResult>,
    preserve: bool,
) -> bool {
    &&& mid.spec_steps() == pre.spec_steps()
    &&& mid.spec_active() == pre.spec_active()
    &&& mid.spec_pending() == pre.spec_pending()
    &&& mid.spec_status() == pre.spec_status()
    &&& mid.spec_factory() == pre.spec_factory()
    &&& mid.spec_streams() == pre.spec_streams()
    &&& mid.spec_cache() == pre.spec_cache()
    &&& mid.spec_scheduled_futures() == pre.spec_scheduled_futures()
    &&& mid.spec_outbound_requests() == pre.spec_outbound_requests()
    &&& mid.spec_outbound_media() == pre.spec_outbound_media()
    &&& mid.spec_outputs().media@.len() == 0
    &&& mid.spec_outputs().futures@.len() == 0
    &&& mid.spec_outputs().rtmp_media@.len() == 0
    &&& mid.spec_inputs().media@ == (if preserve {
        pre.spec_inputs().media@
    } else {
        Seq::<MediaNotification>::empty()
    })
    &&& mid.spec_inputs().notifications@ == (if preserve {
        pre.spec_inputs().notifications@
    } else {
        Seq::<StepFutureResult>::empty()
    }) + (match fr {
        Some(f) => seq![f],
        None => Seq::<StepFutureResult>::empty(),
    })
}

/// What one `execute_steps` call does: the buffers are prepared, the
/// pipeline runs from the initial id's first position on the active list
/// (or the id alone when it is not listed), and, when asked, the pending
/// swap is attempted.
pub open spec fn execute_steps_effect(
    pre: WorkflowRunner,
    post: WorkflowRunner,
    initial: u64,
    fr: Option<StepFutureResult>,
    preserve: bool,
    check: bool,
) -> bool {
    exists|prepped: WorkflowRunner, run: WorkflowRunner|
        #![trigger prep_effect(pre, prepped, fr, preserve), swap_or_same(run, post, check)]
        {
            &&& prep_effect(pre, prepped, fr, preserve)
            &&& (if pre.spec_active().contains(initial) {
                exists|p: int|
                    0 <= p < pre.spec_active().len() && pre.spec_active()[p] == initial && (forall|
                        q: int,
                    | 0 <= q < p ==> pre.spec_active()[q] != initial) && #[trigger] pipeline_effect(
                        prepped,
                        run,
                        pre.spec_active().skip(p),
                    )
            } else {
                pipeline_effect(prepped, run, seq![initial])
            })
            &&& swap_or_same(run, post, check)
        }
}

/// The traversal's tail: the swap attempt when asked, nothing otherwise.
pub open spec fn swap_or_same(run: WorkflowRunner, post: WorkflowRunner, check: bool) -> bool {
    if check {
        swap_effect(run, post)
    } else {
        post == run
    }
}

/// What the pending check does.  The swap proceeds exactly when pending
/// steps exist and all report active: the pending order becomes the active
/// order, steps the new pipeline no longer lists leave the table with
/// their streams disconnected, and every remaining stream that originated
/// at an old active step originates at a step of the new pipeline.
/// Otherwise nothing changes.
pub open spec fn swap_effect(pre: WorkflowRunner, post: WorkflowRunner) -> bool {
    &&& post.wf()
    &&& post.spec_status() == pre.spec_status()
    &&& post.spec_factory() == pre.spec_factory()
    &&& ((pre.spec_pending().len() > 0 && pre.all_pending_active()) ==> {
        &&& post.spec_active() == pre.spec_pending()
        &&& post.spec_pending().len() == 0
        &&& forall|id: u64|
            post.spec_steps().dom().contains(id) <==> (pre.spec_steps().dom().contains(id) && (
            pre.spec_pending().contains(id) || !pre.spec_active().contains(id)))
        &&& forall|sid: Seq<char>|
            post.spec_streams().dom().contains(sid) && pre.spec_active().contains(
                #[trigger] post.spec_streams()[sid],
            ) ==> post.spec_active().contains(post.spec_streams()[sid])
    })
    &&& (!(pre.spec_pending().len() > 0 && pre.all_pending_active()) ==> post == pre)
}

impl WorkflowRunner {
    /// Execute one step on the runner's pending inputs: run it, register
    /// the futures it produced under its id, track the streams it started
    /// or ended, retain what its cache needs, hand its endpoint media
    /// outward, and move its media on as the next step's input.  An id with
    /// no step in the table executes nothing.
    fn execute_step(&mut self, step_id: u64)
        requires
            old(self).wf_core(),
        ensures
            final(self).wf_core(),
            final(self).spec_active() == old(self).spec_active(),
            final(self).spec_pending() == old(self).spec_pending(),
            final(self).spec_status() == old(self).spec_status(),
            final(self).spec_factory() == old(self).spec_factory(),
            final(self).spec_steps().dom() == old(self).spec_steps().dom(),
            forall|id: u64|
                id != step_id && old(self).spec_steps().dom().contains(id) ==> final(self).spec_steps()[id] == #[trigger] old(self).spec_steps()[id],
            forall|sid: Seq<char>|
                final(self).spec_streams().dom().contains(sid) ==> (old(self).spec_streams().dom().contains(sid) && old(self).spec_streams()[sid] == #[trigger] final(self).spec_streams()[sid]) || final(self).spec_streams()[sid] == step_id,
            forall|sid: Seq<char>|
                old(self).spec_streams().dom().contains(sid) && #[trigger] old(self).spec_streams()[sid] != step_id ==> final(self).spec_streams().dom().contains(sid)
                    && final(self).spec_streams()[sid] == old(self).spec_streams()[sid],
            forall|id: u64|
                #![trigger final(self).spec_cache().dom().contains(id)]
                #![trigger final(self).spec_cache()[id]]
                id != step_id ==> ((final(self).spec_cache().dom().contains(id) <==> old(self).spec_cache().dom().contains(id)) && (old(self).spec_cache().dom().contains(id)
                    ==> final(self).spec_cache()[id] == old(self).spec_cache()[id])),
            !old(self).spec_steps().dom().contains(step_id) ==> final(self).spec_streams() == old(self).spec_streams() && final(self).spec_cache() == old(self).spec_cache(),
            (forall|sid: Seq<char>|
                old(self).spec_streams().dom().contains(sid) && #[trigger] old(self).spec_streams()[sid] == step_id ==> old(self).spec_cache().dom().contains(step_id)
                    && old(self).spec_cache()[step_id].dom().contains(sid)) ==> (forall|
                sid: Seq<char>,
            |
                final(self).spec_streams().dom().contains(sid) && #[trigger] final(self).spec_streams()[sid] == step_id ==> final(self).spec_cache().dom().contains(
                    step_id,
                ) && final(self).spec_cache()[step_id].dom().contains(sid)),
            step_effect(*old(self), *final(self), step_id),
    {
        let step_opt = self.steps_by_definition_id.remove(step_id);
        let mut step = match step_opt {
            None => {
                proof {
                    assert(self.spec_steps() =~= old(self).spec_steps());
                    assert(self.spec_steps().dom() =~= old(self).spec_steps().dom());
                    assert(self.spec_cache() =~= old(self).spec_cache());
                    assert(self.spec_streams() == old(self).spec_streams());
                    assert(self.spec_cache() == old(self).spec_cache());
                    assert(self.spec_active() == old(self).spec_active());
                    assert(self.wf_core());
                    assert(*self == *old(self));
                }
                return ;
            },
            Some(s) => s,
        };
        proof {
            assert(old(self).spec_steps().dom().contains(step_id));
            assert(old(self).spec_steps()[step_id].wf());
            assert(step == old(self).spec_steps()[step_id]);
        }
        proof {
            assert(self.spec_inputs() == old(self).spec_inputs());
            assert(self.spec_outputs() == old(self).spec_outputs());
        }
        step.execute(&mut self.step_inputs, &mut self.step_outputs);
        let ghost stepped = step;
        let ghost mid_in = self.step_inputs;
        let ghost mid_out = self.step_outputs;
        proof {
            assert(step_run(
                old(self).spec_steps()[step_id],
                stepped,
                old(self).spec_inputs(),
                mid_in,
                old(self).spec_outputs(),
                mid_out,
            ));
        }
        self.steps_by_definition_id.insert(step_id, step);
        proof {
            assert(self.spec_steps().dom() =~= old(self).spec_steps().dom());
            assert(self.spec_steps() =~= old(self).spec_steps().insert(step_id, stepped));
        }
        // register the futures the step produced under its id
        let ghost mid = *self;
        let nf = self.step_outputs.futures.len();
        let mut j: usize = 0;
        proof {
            assert(self.scheduled_futures@ =~= mid.scheduled_futures@
                + mid_out.futures@.take(0).map_values(|f: FutureSpec| (step_id, f)));
        }
        while j < nf
            invariant
                j <= nf,
                nf == self.step_outputs.futures@.len(),
                mid_out.futures == mid.step_outputs.futures,
                *self == (WorkflowRunner { scheduled_futures: self.scheduled_futures, ..mid }),
                self.scheduled_futures@ == mid.scheduled_futures@ + mid_out.futures@.take(
                    j as int,
                ).map_values(|f: FutureSpec| (step_id, f)),
            decreases nf - j,
        {
            let f = self.step_outputs.futures[j];
            self.scheduled_futures.push((step_id, f));
            proof {
                assert(mid_out.futures@.take(j + 1).map_values(|g: FutureSpec| (step_id, g))
                    =~= mid_out.futures@.take(j as int).map_values(
                    |g: FutureSpec| (step_id, g),
                ).push((step_id, f)));
                assert(self.scheduled_futures@ =~= mid.scheduled_futures@
                    + mid_out.futures@.take(j + 1).map_values(|g: FutureSpec| (step_id, g)));
            }
            j += 1;
        }
        proof {
            assert(mid_out.futures@.take(nf as int) =~= mid_out.futures@);
            assert(self.scheduled_futures@ == mid.scheduled_futures@ + mid_out.futures@.map_values(
                |g: FutureSpec| (step_id, g),
            ));
            assert(mid.scheduled_futures@ == old(self).spec_scheduled_futures());
        }
        self.step_outputs.futures.clear();
        let ghost pre_streams = self.spec_streams();
        let ghost pre_cache = self.spec_cache();
        let ghost ms = self.step_outputs.media@.map_values(|m: MediaNotification| m@);
        proof {
            assert(self.active_streams == old(self).active_streams);
            assert(self.cached_step_media == old(self).cached_step_media);
        }
        proof {
            assert(pre_streams == old(self).spec_streams());
            assert(pre_cache == old(self).spec_cache());
        }
        self.update_stream_details(step_id);
        self.update_media_cache_from_outputs(step_id);
        proof {
            let base = if pre_cache.dom().contains(step_id) {
                pre_cache[step_id]
            } else {
                Map::<Seq<char>, Seq<MediaModel>>::empty()
            };
            assert forall|sid: Seq<char>| base.dom().contains(sid) implies (
            #[trigger] base[sid]).len() > 0 && forall|i: int|
                0 <= i < base[sid].len() ==> is_cacheable((#[trigger] base[sid][i]).content) by {
                assert(pre_cache.dom().contains(step_id));
                assert(pre_cache[step_id].dom().contains(sid));
            }
            lemma_update_props_weak(pre_streams, step_id, ms, base);
            if forall|sid: Seq<char>|
                pre_streams.dom().contains(sid) && #[trigger] pre_streams[sid] == step_id
                    ==> pre_cache.dom().contains(step_id) && pre_cache[step_id].dom().contains(
                    sid,
                ) {
                assert forall|sid: Seq<char>|
                    pre_streams.dom().contains(sid) && #[trigger] pre_streams[sid]
                        == step_id implies base.dom().contains(sid) by {}
                lemma_update_props(pre_streams, step_id, ms, base);
            }
            assert(self.spec_cache()[step_id] == spec_update_cache(base, ms));
            assert(self.spec_streams() == spec_update_streams(pre_streams, step_id, ms));
        }
        // the endpoint media goes outward
        let mut rtmp_tmp: Vec<RtmpEndpointMediaMessage> = Vec::new();
        core::mem::swap(&mut rtmp_tmp, &mut self.step_outputs.rtmp_media);
        proof {
            assert(rtmp_tmp == mid_out.rtmp_media);
        }
        self.outbound_media.append(&mut rtmp_tmp);
        proof {
            assert(self.outbound_media@ == old(self).spec_outbound_media()
                + mid_out.rtmp_media@);
        }
        // the step's media becomes the next step's input
        self.step_inputs.clear();
        core::mem::swap(&mut self.step_inputs.media, &mut self.step_outputs.media);
        self.step_outputs.clear();
        proof {
            assert(self.spec_inputs().media == mid_out.media);
            assert(ms == mid_out.media@.map_values(|m: MediaNotification| m@));
            assert(self.spec_streams() == spec_update_streams(
                old(self).spec_streams(),
                step_id,
                mid_out.media@.map_values(|m: MediaNotification| m@),
            ));
            assert(self.spec_cache() == old(self).spec_cache().insert(
                step_id,
                spec_update_cache(
                    if old(self).spec_cache().dom().contains(step_id) {
                        old(self).spec_cache()[step_id]
                    } else {
                        Map::empty()
                    },
                    mid_out.media@.map_values(|m: MediaNotification| m@),
                ),
            ));
        }
        proof {
            assert forall|id: u64| self.spec_steps().dom().contains(id) implies (
            #[trigger] self.spec_steps()[id]).wf() && spec_step_id(
                &self.spec_steps()[id].spec_definition(),
            ) == id by {
                if id != step_id {
                    assert(self.spec_steps()[id] == old(self).spec_steps()[id]);
                    assert(old(self).spec_steps().dom().contains(id));
                }
            }
            assert(self.spec_active() == old(self).spec_active());
            assert(self.spec_pending() == old(self).spec_pending());
            assert forall|id: u64, sid: Seq<char>|
                self.spec_cache().dom().contains(id) && (
                #[trigger] self.spec_cache()[id].dom().contains(sid)) implies {
                let entry = self.spec_cache()[id][sid];
                &&& entry.len() > 0
                &&& forall|i: int|
                    0 <= i < entry.len() ==> is_cacheable((#[trigger] entry[i]).content)
            } by {
                if id != step_id {
                    assert(self.spec_cache()[id] == old(self).spec_cache()[id]);
                    assert(old(self).spec_cache().dom().contains(id));
                    assert(old(self).spec_cache()[id].dom().contains(sid));
                }
            }
            assert(self.wf_core());
        }
    }
}

/// As `lemma_update_props`, without the coverage assumption and so without
/// its coverage conclusion.
proof fn lemma_update_props_weak(
    m: Map<Seq<char>, u64>,
    cur: u64,
    ms: Seq<MediaModel>,
    c: Map<Seq<char>, Seq<MediaModel>>,
)
    requires
        forall|sid: Seq<char>|
            c.dom().contains(sid) ==> (#[trigger] c[sid]).len() > 0 && forall|i: int|
                0 <= i < c[sid].len() ==> is_cacheable((#[trigger] c[sid][i]).content),
    ensures
        ({
            let m2 = spec_update_streams(m, cur, ms);
            let c2 = spec_update_cache(c, ms);
            &&& forall|sid: Seq<char>|
                m2.dom().contains(sid) ==> (m.dom().contains(sid) && m[sid] == #[trigger] m2[sid])
                    || m2[sid] == cur
            &&& forall|sid: Seq<char>|
                m.dom().contains(sid) && #[trigger] m[sid] != cur ==> m2.dom().contains(sid)
                    && m2[sid] == m[sid]
            &&& forall|sid: Seq<char>|
                c2.dom().contains(sid) ==> (#[trigger] c2[sid]).len() > 0 && forall|i: int|
                    0 <= i < c2[sid].len() ==> is_cacheable((#[trigger] c2[sid][i]).content)
        }),
    decreases ms.len(),
{
    if ms.len() == 0 {
    } else {
        let sid0 = ms[0].stream_id;
        let m1 = match ms[0].content {
            ContentModel::NewIncomingStream { .. } => if !m.contains_key(sid0) {
                m.insert(sid0, cur)
            } else {
                m
            },
            ContentModel::StreamDisconnected => if m.contains_key(sid0) && m[sid0] == cur {
                m.remove(sid0)
            } else {
                m
            },
            _ => m,
        };
        let c1 = if is_cacheable(ms[0].content) {
            let entry = if c.contains_key(sid0) {
                c[sid0]
            } else {
                Seq::<MediaModel>::empty()
            };
            c.insert(sid0, entry.push(ms[0]))
        } else if ms[0].content is StreamDisconnected {
            c.remove(sid0)
        } else {
            c
        };
        assert forall|sid: Seq<char>| c1.dom().contains(sid) implies (#[trigger] c1[sid]).len() > 0
            && forall|i: int|
            0 <= i < c1[sid].len() ==> is_cacheable((#[trigger] c1[sid][i]).content) by {
            if sid == sid0 && is_cacheable(ms[0].content) {
                let entry = if c.contains_key(sid0) {
                    c[sid0]
                } else {
                    Seq::<MediaModel>::empty()
                };
                assert(c1[sid] == entry.push(ms[0]));
                assert forall|i: int| 0 <= i < c1[sid].len() implies is_cacheable(
                    (#[trigger] c1[sid][i]).content,
                ) by {
                    if i < entry.len() {
                        assert(c.dom().contains(sid0));
                        assert(c1[sid][i] == c[sid0][i]);
                    } else {
                        assert(c1[sid][i] == ms[0]);
                    }
                }
            } else {
                assert(c.dom().contains(sid));
                assert(c1[sid] == c[sid]);
            }
        }
        lemma_update_props_weak(m1, cur, ms.drop_first(), c1);
        assert(spec_update_streams(m, cur, ms) == spec_update_streams(m1, cur, ms.drop_first()));
        assert(spec_update_cache(c, ms) == spec_update_cache(c1, ms.drop_first()));
        let m2 = spec_update_streams(m, cur, ms);
        assert forall|sid: Seq<char>| m2.dom().contains(sid) implies (m.dom().contains(sid)
            && m[sid] == #[trigger] m2[sid]) || m2[sid] == cur by {
            if m1.dom().contains(sid) && m1[sid] == m2[sid] {
                if sid == sid0 {
                    if !m.contains_key(sid0) {
                        assert(m1[sid0] == cur);
                    }
                }
            }
        }
        assert forall|sid: Seq<char>| m.dom().contains(sid) && #[trigger] m[sid]
            != cur implies m2.dom().contains(sid) && m2[sid] == m[sid] by {
            assert(m1.dom().contains(sid) && m1[sid] == m[sid]);
        }
    }
}


impl WorkflowRunner {
    /// Coverage of every live stream except those originating at `removed`:
    /// the intermediate state while a removed step's streams are being
    /// disconnected.
    spec fn wf_except(&self, removed: u64) -> bool {
        &&& self.wf_core()
        &&& forall|sid: Seq<char>|
            self.spec_streams().dom().contains(sid) && #[trigger] self.spec_streams()[sid]
                != removed ==> {
                let origin = self.spec_streams()[sid];
                &&& self.spec_steps().dom().contains(origin)
                &&& self.spec_cache().dom().contains(origin)
                &&& self.spec_cache()[origin].dom().contains(sid)
            }
    }
}

/// Executing one step keeps every stream covered: new streams originate at
/// the executed step, whose cache update covers them; other streams keep
/// their origin, whose cache is untouched.
proof fn lemma_wf_after_execute(pre: WorkflowRunner, post: WorkflowRunner, cur: u64)
    requires
        pre.wf(),
        post.wf_core(),
        post.spec_steps().dom() == pre.spec_steps().dom(),
        forall|sid: Seq<char>|
            post.spec_streams().dom().contains(sid) ==> (pre.spec_streams().dom().contains(sid)
                && pre.spec_streams()[sid] == #[trigger] post.spec_streams()[sid])
                || post.spec_streams()[sid] == cur,
        forall|id: u64|
            #![trigger post.spec_cache().dom().contains(id)]
            #![trigger post.spec_cache()[id]]
            id != cur ==> ((post.spec_cache().dom().contains(id) <==> pre.spec_cache().dom().contains(
                id,
            )) && (pre.spec_cache().dom().contains(id) ==> post.spec_cache()[id]
                == pre.spec_cache()[id])),
        !pre.spec_steps().dom().contains(cur) ==> post.spec_streams() == pre.spec_streams()
            && post.spec_cache() == pre.spec_cache(),
        (forall|sid: Seq<char>|
            pre.spec_streams().dom().contains(sid) && #[trigger] pre.spec_streams()[sid] == cur
                ==> pre.spec_cache().dom().contains(cur) && pre.spec_cache()[cur].dom().contains(
                sid,
            )) ==> (forall|sid: Seq<char>|
            post.spec_streams().dom().contains(sid) && #[trigger] post.spec_streams()[sid] == cur
                ==> post.spec_cache().dom().contains(cur) && post.spec_cache()[cur].dom().contains(
                sid,
            )),
    ensures
        post.wf(),
{
    assert forall|sid: Seq<char>|
        pre.spec_streams().dom().contains(sid) && #[trigger] pre.spec_streams()[sid]
            == cur implies pre.spec_cache().dom().contains(cur)
        && pre.spec_cache()[cur].dom().contains(sid) by {
        assert(pre.stream_covered(sid));
    }
    assert forall|sid: Seq<char>| #[trigger] post.stream_covered(sid) by {
        if post.spec_streams().dom().contains(sid) {
            let origin = post.spec_streams()[sid];
            if origin == cur {
                if pre.spec_steps().dom().contains(cur) {
                    assert(post.spec_steps().dom().contains(cur));
                    assert(post.spec_cache().dom().contains(cur) && post.spec_cache()[cur].dom().contains(sid));
                } else {
                    assert(post.spec_streams() == pre.spec_streams());
                    assert(pre.spec_streams().dom().contains(sid) && pre.spec_streams()[sid]
                        == cur);
                    assert(pre.stream_covered(sid));
                    assert(false);
                }
            } else {
                assert(pre.spec_streams().dom().contains(sid) && pre.spec_streams()[sid]
                    == origin);
                assert(pre.stream_covered(sid));
                assert(post.spec_cache()[origin] == pre.spec_cache()[origin]);
            }
        }
    }
}

/// Whether a list of ids contains an id.
fn contains_id(v: &Vec<u64>, id: u64) -> (r: bool)
    ensures
        r == v@.contains(id),
{
    let n = v.len();
    let mut i: usize = 0;
    while i < n
        invariant
            i <= n,
            n == v@.len(),
            forall|j: int| 0 <= j < i ==> v@[j] != id,
        decreases n - i,
    {
        if v[i] == id {
            return true;
        }
        i += 1;
    }
    proof {
        if v@.contains(id) {
            let j = choose|j: int| 0 <= j < v@.len() && v@[j] == id;
        }
    }
    false
}

impl WorkflowRunner {
    /// Whether every pending step exists and reports `Active`.
    pub open spec fn all_pending_active(&self) -> bool {
        forall|i: int|
            0 <= i < self.spec_pending().len() ==> self.spec_steps().dom().contains(
                #[trigger] self.spec_pending()[i],
            ) && self.spec_steps()[self.spec_pending()[i]].spec_status() == StepStatus::Active
    }

    /// Remove the step standing at `index` of the active list: delete it
    /// and its cache, and for every stream originating from it, drive a
    /// disconnect through the remaining steps to its right and drop the
    /// stream.  Afterwards no live stream originates at the removed step.
    fn remove_unused_step(&mut self, index: usize)
        requires
            old(self).wf(),
            index < old(self).spec_active().len(),
        ensures
            final(self).wf(),
            final(self).spec_active() == old(self).spec_active(),
            final(self).spec_pending() == old(self).spec_pending(),
            final(self).spec_status() == old(self).spec_status(),
            final(self).spec_factory() == old(self).spec_factory(),
            final(self).spec_steps().dom() == old(self).spec_steps().dom().remove(
                old(self).spec_active()[index as int],
            ),
            forall|sid: Seq<char>|
                final(self).spec_streams().dom().contains(sid) ==> #[trigger] final(self).spec_streams()[sid] != old(self).spec_active()[index as int],
    {
        let step_id = self.active_steps[index];
        self.steps_by_definition_id.remove(step_id);
        let cache_opt = self.cached_step_media.remove(step_id);
        proof {
            assert(self.spec_steps() =~= old(self).spec_steps().remove(step_id));
            assert(self.spec_steps().dom() =~= old(self).spec_steps().dom().remove(step_id));
            assert(self.spec_cache() =~= old(self).spec_cache().remove(step_id));
        }
        let cache = match cache_opt {
            None => {
                proof {
                    // with no cache, no stream originated here
                    assert forall|sid: Seq<char>| #[trigger] self.stream_covered(sid) by {
                        if self.spec_streams().dom().contains(sid) {
                            assert(old(self).stream_covered(sid));
                            assert(old(self).spec_streams()[sid] != step_id);
                        }
                    }
                    assert forall|sid: Seq<char>|
                        self.spec_streams().dom().contains(sid) implies #[trigger] self.spec_streams()[sid]
                        != step_id by {
                        assert(old(self).stream_covered(sid));
                    }
                }
                return ;
            },
            Some(c) => c,
        };
        proof {
            cache.lemma_props();
            assert forall|sid: Seq<char>|
                self.spec_streams().dom().contains(sid) && #[trigger] self.spec_streams()[sid]
                    == step_id implies exists|idx: int|
                0 <= idx < cache.kvs().len() && cache.kvs()[idx].0 == sid by {
                assert(old(self).stream_covered(sid));
                assert(cache@.contains_key(sid));
            }
            assert(self.wf_except(step_id)) by {
                assert forall|sid: Seq<char>|
                    self.spec_streams().dom().contains(sid) && #[trigger] self.spec_streams()[sid]
                        != step_id implies {
                    let origin = self.spec_streams()[sid];
                    &&& self.spec_steps().dom().contains(origin)
                    &&& self.spec_cache().dom().contains(origin)
                    &&& self.spec_cache()[origin].dom().contains(sid)
                } by {
                    assert(old(self).stream_covered(sid));
                }
            }
        }
        let ck = cache.len_raw();
        let mut j: usize = 0;
        while j < ck
            invariant
                j <= ck,
                ck == cache.kvs().len(),
                cache.wf(),
                self.wf_except(step_id),
                self.spec_active() == old(self).spec_active(),
                self.spec_pending() == old(self).spec_pending(),
                self.spec_status() == old(self).spec_status(),
                self.spec_factory() == old(self).spec_factory(),
                step_id == old(self).spec_active()[index as int],
                index < self.spec_active().len(),
                self.spec_steps().dom() == old(self).spec_steps().dom().remove(step_id),
                forall|sid: Seq<char>|
                    self.spec_streams().dom().contains(sid) && #[trigger] self.spec_streams()[sid]
                        == step_id ==> exists|idx: int|
                        j <= idx < cache.kvs().len() && cache.kvs()[idx].0 == sid,
            decreases ck - j,
        {
            let key: String = cache.key_at(j).clone();
            let is_origin = match self.active_streams.get(key.as_str()) {
                Some(d) => d.originating_step_id == step_id,
                None => false,
            };
            if is_origin {
                let active_len = self.active_steps.len();
                proof {
                    assert(index < active_len);
                }
                let mut x = index + 1;
                while x < self.active_steps.len()
                    invariant
                        index < x <= self.spec_active().len(),
                        cache.wf(),
                        self.wf_except(step_id),
                        self.spec_active() == old(self).spec_active(),
                        self.spec_pending() == old(self).spec_pending(),
                        self.spec_status() == old(self).spec_status(),
                        self.spec_factory() == old(self).spec_factory(),
                        step_id == old(self).spec_active()[index as int],
                        self.spec_steps().dom() == old(self).spec_steps().dom().remove(step_id),
                        forall|sid: Seq<char>|
                            self.spec_streams().dom().contains(sid)
                                && #[trigger] self.spec_streams()[sid] == step_id ==> exists|
                                idx: int,
                            |
                                j <= idx < cache.kvs().len() && cache.kvs()[idx].0 == sid,
                    decreases self.spec_active().len() - x,
                {
                    let ghost at_top = *self;
                    self.step_outputs.clear();
                    self.step_inputs.clear();
                    let sid_val = crate::media::StreamId(key.clone());
                    self.step_inputs.media.push(
                        MediaNotification {
                            stream_id: sid_val,
                            content: crate::media::MediaNotificationContent::StreamDisconnected,
                        },
                    );
                    let next_id = self.active_steps[x];
                    let ghost pre = *self;
                    proof {
                        lemma_wf_except_frame(at_top, pre, step_id);
                        assert(pre.wf_except(step_id));
                    }
                    self.execute_step(next_id);
                    proof {
                        lemma_wf_except_after_execute(pre, *self, next_id, step_id);
                        assert forall|sid: Seq<char>|
                            self.spec_streams().dom().contains(sid)
                                && #[trigger] self.spec_streams()[sid] == step_id implies exists|
                            idx: int,
                        |
                            j <= idx < cache.kvs().len() && cache.kvs()[idx].0 == sid by {
                            if pre.spec_steps().dom().contains(next_id) {
                                assert(next_id != step_id);
                                assert(pre.spec_streams().dom().contains(sid)
                                    && pre.spec_streams()[sid] == step_id);
                            } else {
                                assert(self.spec_streams() == pre.spec_streams());
                            }
                        }
                    }
                    x += 1;
                }
                let ghost streams_before = self.spec_streams();
                self.active_streams.remove(key.as_str());
                proof {
                    assert(self.spec_streams() =~= streams_before.remove(key@));
                }
            }
            proof {
                // streams that still originate at the removed step sit at a
                // later cache key
                assert forall|sid: Seq<char>|
                    self.spec_streams().dom().contains(sid) && #[trigger] self.spec_streams()[sid]
                        == step_id implies exists|idx: int|
                    j + 1 <= idx < cache.kvs().len() && cache.kvs()[idx].0 == sid by {
                    let idx = choose|idx: int|
                        j <= idx < cache.kvs().len() && cache.kvs()[idx].0 == sid;
                    if idx == j {
                        assert(sid == key@);
                        assert(false);
                    }
                }
                assert(self.wf_except(step_id));
            }
            j += 1;
        }
        proof {
            assert forall|sid: Seq<char>|
                self.spec_streams().dom().contains(sid) implies #[trigger] self.spec_streams()[sid]
                != step_id by {
                if self.spec_streams()[sid] == step_id {
                    let idx = choose|idx: int|
                        ck <= idx < cache.kvs().len() && cache.kvs()[idx].0 == sid;
                }
            }
            assert forall|sid: Seq<char>| #[trigger] self.stream_covered(sid) by {
                if self.spec_streams().dom().contains(sid) {
                    assert(self.spec_streams()[sid] != step_id);
                }
            }
        }
    }
}


/// Changing only the input, output and outbox fields leaves well-formedness
/// untouched.
proof fn lemma_wf_except_frame(a: WorkflowRunner, b: WorkflowRunner, removed: u64)
    requires
        a.wf_except(removed),
        b.steps_by_definition_id == a.steps_by_definition_id,
        b.cached_step_media == a.cached_step_media,
        b.active_streams == a.active_streams,
        b.step_factory == a.step_factory,
        b.active_steps == a.active_steps,
        b.pending_steps == a.pending_steps,
        b.status == a.status,
    ensures
        b.wf_except(removed),
        b.spec_steps() == a.spec_steps(),
        b.spec_cache() == a.spec_cache(),
        b.spec_streams() == a.spec_streams(),
        b.spec_active() == a.spec_active(),
        b.spec_pending() == a.spec_pending(),
        b.spec_status() == a.spec_status(),
        b.spec_factory() == a.spec_factory(),
{
    assert(b.spec_steps() == a.spec_steps());
    assert(b.spec_cache() == a.spec_cache());
    assert(b.spec_streams() == a.spec_streams());
    assert(b.spec_active() == a.spec_active());
    assert(b.spec_pending() == a.spec_pending());
}

/// As `lemma_wf_after_execute`, for the intermediate state where streams of
/// one removed step are deliberately uncovered: executing another step
/// neither covers nor creates streams of the removed origin.
proof fn lemma_wf_except_after_execute(
    pre: WorkflowRunner,
    post: WorkflowRunner,
    cur: u64,
    removed: u64,
)
    requires
        pre.wf_except(removed),
        !pre.spec_steps().dom().contains(removed),
        post.wf_core(),
        !pre.spec_steps().dom().contains(cur) ==> post.spec_streams() == pre.spec_streams()
            && post.spec_cache() == pre.spec_cache(),
        post.spec_steps().dom() == pre.spec_steps().dom(),
        forall|sid: Seq<char>|
            post.spec_streams().dom().contains(sid) ==> (pre.spec_streams().dom().contains(sid)
                && pre.spec_streams()[sid] == #[trigger] post.spec_streams()[sid])
                || post.spec_streams()[sid] == cur,
        forall|id: u64|
            #![trigger post.spec_cache().dom().contains(id)]
            #![trigger post.spec_cache()[id]]
            id != cur ==> ((post.spec_cache().dom().contains(id) <==> pre.spec_cache().dom().contains(
                id,
            )) && (pre.spec_cache().dom().contains(id) ==> post.spec_cache()[id]
                == pre.spec_cache()[id])),
        (forall|sid: Seq<char>|
            pre.spec_streams().dom().contains(sid) && #[trigger] pre.spec_streams()[sid] == cur
                ==> pre.spec_cache().dom().contains(cur) && pre.spec_cache()[cur].dom().contains(
                sid,
            )) ==> (forall|sid: Seq<char>|
            post.spec_streams().dom().contains(sid) && #[trigger] post.spec_streams()[sid] == cur
                ==> post.spec_cache().dom().contains(cur) && post.spec_cache()[cur].dom().contains(
                sid,
            )),
    ensures
        post.wf_except(removed),
{
    if !pre.spec_steps().dom().contains(cur) {
        assert forall|sid: Seq<char>|
            post.spec_streams().dom().contains(sid) && #[trigger] post.spec_streams()[sid]
                != removed implies {
            let origin = post.spec_streams()[sid];
            &&& post.spec_steps().dom().contains(origin)
            &&& post.spec_cache().dom().contains(origin)
            &&& post.spec_cache()[origin].dom().contains(sid)
        } by {}
        return ;
    }
    assert(cur != removed);
    assert forall|sid: Seq<char>|
        pre.spec_streams().dom().contains(sid) && #[trigger] pre.spec_streams()[sid]
            == cur implies pre.spec_cache().dom().contains(cur) && pre.spec_cache()[cur].dom().contains(
        sid,
    ) by {}
    assert forall|sid: Seq<char>|
        post.spec_streams().dom().contains(sid) && #[trigger] post.spec_streams()[sid]
            != removed implies {
        let origin = post.spec_streams()[sid];
        &&& post.spec_steps().dom().contains(origin)
        &&& post.spec_cache().dom().contains(origin)
        &&& post.spec_cache()[origin].dom().contains(sid)
    } by {
        let origin = post.spec_streams()[sid];
        if origin == cur {
            assert(post.spec_steps().dom().contains(cur));
            assert(post.spec_cache().dom().contains(cur) && post.spec_cache()[cur].dom().contains(
                sid,
            ));
        } else {
            assert(pre.spec_streams().dom().contains(sid) && pre.spec_streams()[sid] == origin);
            assert(post.spec_cache()[origin] == pre.spec_cache()[origin]);
        }
    }
}


/// Changing only the input, output and outbox fields leaves full
/// well-formedness untouched.
proof fn lemma_wf_frame(a: WorkflowRunner, b: WorkflowRunner)
    requires
        a.wf(),
        b.steps_by_definition_id == a.steps_by_definition_id,
        b.cached_step_media == a.cached_step_media,
        b.active_streams == a.active_streams,
        b.step_factory == a.step_factory,
        b.active_steps == a.active_steps,
        b.pending_steps == a.pending_steps,
        b.status == a.status,
    ensures
        b.wf(),
        b.spec_steps() == a.spec_steps(),
        b.spec_cache() == a.spec_cache(),
        b.spec_streams() == a.spec_streams(),
        b.spec_active() == a.spec_active(),
        b.spec_pending() == a.spec_pending(),
        b.spec_status() == a.spec_status(),
        b.spec_factory() == a.spec_factory(),
{
    assert(b.spec_steps() == a.spec_steps());
    assert(b.spec_cache() == a.spec_cache());
    assert(b.spec_streams() == a.spec_streams());
    assert forall|sid: Seq<char>| #[trigger] b.stream_covered(sid) by {
        assert(a.stream_covered(sid));
    }
}

impl WorkflowRunner {
    /// Feed the cached media of `previous_step_id` (the concatenation of its
    /// per-stream entries: stream starts and sequence headers) into
    /// `current_step_id`, and let what it produces flow on downstream.
    fn replay_cached_media(&mut self, previous_step_id: u64, current_step_id: u64)
        requires
            old(self).wf(),
        ensures
            final(self).wf(),
            final(self).spec_active() == old(self).spec_active(),
            final(self).spec_pending() == old(self).spec_pending(),
            final(self).spec_status() == old(self).spec_status(),
            final(self).spec_factory() == old(self).spec_factory(),
            final(self).spec_steps().dom() == old(self).spec_steps().dom(),
        decreases 1int,
    {
        let mut notifications: Vec<MediaNotification> = Vec::new();
        let found: bool = match self.cached_step_media.get(previous_step_id) {
            None => false,
            Some(cache) => {
                let ck = cache.len_raw();
                let mut j: usize = 0;
                while j < ck
                    invariant
                        j <= ck,
                        ck == cache.kvs().len(),
                    decreases ck - j,
                {
                    let list = cache.value_at(j);
                    let ln = list.len();
                    let mut q: usize = 0;
                    while q < ln
                        invariant
                            q <= ln,
                            ln == list@.len(),
                        decreases ln - q,
                    {
                        let item = list[q].clone();
                        notifications.push(item);
                        q += 1;
                    }
                    j += 1;
                }
                true
            },
        };
        if !found {
            return ;
        }
        let ghost at_top = *self;
        self.step_inputs.clear();
        core::mem::swap(&mut self.step_inputs.media, &mut notifications);
        proof {
            lemma_wf_frame(at_top, *self);
        }
        self.execute_steps(current_step_id, None, true, false);
    }

    /// Run the pipeline starting at `initial_step_id`: if it stands in the
    /// active list, every step from there to the end runs in order, each
    /// feeding the next; otherwise it runs alone (a future of a step
    /// removed mid-flight).  Then, if asked, attempt the pending swap.
    pub fn execute_steps(
        &mut self,
        initial_step_id: u64,
        future_result: Option<StepFutureResult>,
        preserve_current_step_inputs: bool,
        perform_pending_check: bool,
    )
        requires
            old(self).wf(),
        ensures
            final(self).wf(),
            final(self).spec_status() == old(self).spec_status(),
            final(self).spec_factory() == old(self).spec_factory(),
            !perform_pending_check ==> final(self).spec_active() == old(self).spec_active()
                && final(self).spec_pending() == old(self).spec_pending() && final(self).spec_steps().dom() == old(self).spec_steps().dom(),
            perform_pending_check ==> ((final(self).spec_active() == old(self).spec_active()
                && final(self).spec_pending() == old(self).spec_pending()) || (final(self).spec_pending().len() == 0 && final(self).spec_active() == old(self).spec_pending())),
            execute_steps_effect(
                *old(self),
                *final(self),
                initial_step_id,
                future_result,
                preserve_current_step_inputs,
                perform_pending_check,
            ),
        decreases (if perform_pending_check { 3int } else { 0int }),
    {
        let ghost at_top = *self;
        if !preserve_current_step_inputs {
            self.step_inputs.clear();
        }
        self.step_outputs.clear();
        match future_result {
            Some(fr) => {
                self.step_inputs.notifications.push(fr);
            },
            None => {},
        }
        proof {
            lemma_wf_frame(at_top, *self);
        }
        let ghost prepped = *self;
        proof {
            assert(prep_effect(
                *old(self),
                prepped,
                future_result,
                preserve_current_step_inputs,
            )) by {
                assert(prepped.spec_scheduled_futures() == old(self).spec_scheduled_futures());
                assert(prepped.spec_outbound_requests() == old(self).spec_outbound_requests());
                assert(prepped.spec_outbound_media() == old(self).spec_outbound_media());
                if !preserve_current_step_inputs {
                    assert(prepped.spec_inputs().media@ =~= Seq::<MediaNotification>::empty());
                }
                if preserve_current_step_inputs {
                    match future_result {
                        Some(f) => {
                            assert(prepped.spec_inputs().notifications@ =~= old(self).spec_inputs().notifications@ + seq![f]);
                        },
                        None => {
                            assert(prepped.spec_inputs().notifications@ =~= old(self).spec_inputs().notifications@
                                + Seq::<StepFutureResult>::empty());
                        },
                    }
                } else {
                    match future_result {
                        Some(f) => {
                            assert(prepped.spec_inputs().notifications@
                                =~= Seq::<StepFutureResult>::empty() + seq![f]);
                        },
                        None => {
                            assert(prepped.spec_inputs().notifications@
                                =~= Seq::<StepFutureResult>::empty()
                                + Seq::<StepFutureResult>::empty());
                        },
                    }
                }
            }
        }
        let n = self.active_steps.len();
        let mut start: usize = 0;
        while start < n && self.active_steps[start] != initial_step_id
            invariant
                start <= n,
                n == self.spec_active().len(),
                *self == prepped,
                forall|q: int| 0 <= q < start ==> self.spec_active()[q] != initial_step_id,
            decreases n - start,
        {
            start += 1;
        }
        if start < n {
            let mut x = start;
            proof {
                assert(pipeline_effect(
                    prepped,
                    *self,
                    old(self).spec_active().subrange(start as int, start as int),
                )) by {
                    assert(old(self).spec_active().subrange(start as int, start as int)
                        =~= Seq::<u64>::empty());
                }
            }
            while x < self.active_steps.len()
                invariant
                    start <= x <= self.spec_active().len(),
                    start < old(self).spec_active().len(),
                    self.wf(),
                    self.spec_active() == old(self).spec_active(),
                    self.spec_pending() == old(self).spec_pending(),
                    self.spec_status() == old(self).spec_status(),
                    self.spec_factory() == old(self).spec_factory(),
                    self.spec_steps().dom() == old(self).spec_steps().dom(),
                    prep_effect(
                        *old(self),
                        prepped,
                        future_result,
                        preserve_current_step_inputs,
                    ),
                    old(self).spec_active()[start as int] == initial_step_id,
                    forall|q: int|
                        0 <= q < start ==> old(self).spec_active()[q] != initial_step_id,
                    pipeline_effect(
                        prepped,
                        *self,
                        old(self).spec_active().subrange(start as int, x as int),
                    ),
                decreases self.spec_active().len() - x,
            {
                let id = self.active_steps[x];
                let ghost pre = *self;
                self.execute_step(id);
                proof {
                    lemma_wf_after_execute(pre, *self, id);
                    lemma_pipeline_push(
                        prepped,
                        pre,
                        *self,
                        old(self).spec_active().subrange(start as int, x as int),
                        id,
                    );
                    assert(old(self).spec_active().subrange(start as int, x as int).push(id)
                        =~= old(self).spec_active().subrange(start as int, x + 1));
                }
                x += 1;
            }
            proof {
                assert(old(self).spec_active().subrange(
                    start as int,
                    old(self).spec_active().len() as int,
                ) =~= old(self).spec_active().skip(start as int));
                assert(old(self).spec_active().contains(initial_step_id)) by {
                    assert(old(self).spec_active()[start as int] == initial_step_id);
                }
            }
        } else {
            let ghost pre = *self;
            self.execute_step(initial_step_id);
            proof {
                lemma_wf_after_execute(pre, *self, initial_step_id);
                assert(!old(self).spec_active().contains(initial_step_id)) by {
                    if old(self).spec_active().contains(initial_step_id) {
                        let q = choose|q: int|
                            0 <= q < old(self).spec_active().len() && old(self).spec_active()[q]
                                == initial_step_id;
                    }
                }
                assert(pipeline_effect(prepped, *self, seq![initial_step_id])) by {
                    assert(seq![initial_step_id][0] == initial_step_id);
                    assert(seq![initial_step_id].drop_first() =~= Seq::<u64>::empty());
                    assert(step_effect(prepped, *self, seq![initial_step_id][0])
                        && pipeline_effect(*self, *self, seq![initial_step_id].drop_first()));
                }
            }
        }
        let ghost run = *self;
        if perform_pending_check {
            self.check_if_all_pending_steps_are_active();
        }
        proof {
            assert(swap_or_same(run, *self, perform_pending_check));
            assert(prep_effect(
                *old(self),
                prepped,
                future_result,
                preserve_current_step_inputs,
            ));
        }
    }

    /// Attempt the pending swap.  It proceeds only when there are pending
    /// steps and every one of them reports `Active`; then steps whose id
    /// the pending list does not carry are removed with their streams
    /// disconnected downstream, newly inserted steps are fed their
    /// predecessor's cache, and the pending order becomes the active order.
    /// Otherwise nothing changes.
    pub fn check_if_all_pending_steps_are_active(&mut self)
        requires
            old(self).wf(),
        ensures
            final(self).wf(),
            swap_effect(*old(self), *final(self)),
        decreases 2int,
    {
        let np = self.pending_steps.len();
        let mut any_pending = false;
        let mut i: usize = 0;
        while i < np
            invariant
                *self == *old(self),
                self.wf(),
                i <= np,
                np == self.spec_pending().len(),
                forall|k: int|
                    0 <= k < i ==> self.spec_steps().dom().contains(
                        #[trigger] self.spec_pending()[k],
                    ) && (self.spec_steps()[self.spec_pending()[k]].spec_status()
                        == StepStatus::Created || self.spec_steps()[self.spec_pending()[k]].spec_status()
                        == StepStatus::Active),
                any_pending <==> exists|k: int|
                    0 <= k < i && self.spec_steps()[#[trigger] self.spec_pending()[k]].spec_status()
                        == StepStatus::Created,
            decreases np - i,
        {
            let id = self.pending_steps[i];
            match self.steps_by_definition_id.get(id) {
                None => {
                    proof {
                        assert(!old(self).all_pending_active());
                    }
                    return ;
                },
                Some(step) => {
                    let st = step.get_status();
                    match st {
                        StepStatus::Created => {
                            any_pending = true;
                            proof {
                                assert(self.spec_steps()[self.spec_pending()[i as int]].spec_status()
                                    == StepStatus::Created);
                            }
                        },
                        StepStatus::Active => {},
                        StepStatus::Error => {
                            proof {
                                assert(!old(self).all_pending_active());
                            }
                            return ;
                        },
                        StepStatus::Shutdown => {
                            proof {
                                assert(!old(self).all_pending_active());
                            }
                            return ;
                        },
                    }
                },
            }
            i += 1;
        }
        if np > 0 && !any_pending {
            proof {
                assert(old(self).all_pending_active());
            }
            // removal pass: delete steps the new pipeline no longer lists
            // and end their streams downstream
            let ghost oa = old(self).spec_active();
            let ghost op = old(self).spec_pending();
            let ghost od = old(self).spec_steps().dom();
            let mut index = self.active_steps.len();
            while index > 0
                invariant
                    index <= self.spec_active().len(),
                    self.wf(),
                    self.spec_active() == oa,
                    self.spec_pending() == op,
                    self.spec_status() == old(self).spec_status(),
                    self.spec_factory() == old(self).spec_factory(),
                    oa == old(self).spec_active(),
                    op == old(self).spec_pending(),
                    od == old(self).spec_steps().dom(),
                    forall|id: u64| self.spec_steps().dom().contains(id) ==> od.contains(id),
                    forall|id: u64|
                        od.contains(id) && op.contains(id) ==> self.spec_steps().dom().contains(
                            id,
                        ),
                    forall|k: int|
                        index <= k < oa.len() && !op.contains(#[trigger] oa[k])
                            ==> !self.spec_steps().dom().contains(oa[k]),
                    forall|id: u64|
                        od.contains(id) && !self.spec_steps().dom().contains(id) ==> !op.contains(
                            id,
                        ) && oa.contains(id),
                decreases index,
            {
                index -= 1;
                let step_id = self.active_steps[index];
                let ghost dom_before = self.spec_steps().dom();
                let in_pending = contains_id(&self.pending_steps, step_id);
                if !in_pending {
                    self.remove_unused_step(index);
                    proof {
                        assert(self.spec_steps().dom() == dom_before.remove(step_id));
                    }
                } else {
                    proof {
                        assert(self.spec_steps().dom() == dom_before);
                    }
                }
                proof {
                    assert(oa[index as int] == step_id);
                    assert forall|k: int|
                        index <= k < oa.len() && !op.contains(#[trigger] oa[k]) implies
                        !self.spec_steps().dom().contains(oa[k]) by {
                        if k == index {
                            assert(!in_pending);
                        }
                    }
                    assert forall|id: u64|
                        od.contains(id) && !self.spec_steps().dom().contains(id) implies
                        !op.contains(id) && oa.contains(id) by {
                        if dom_before.contains(id) {
                            assert(id == step_id);
                            assert(oa[index as int] == id);
                        }
                    }
                }
            }
            // what survives the removal pass: exactly the steps the new
            // pipeline still lists, or that never stood in the pipeline
            let ghost dom_after = self.spec_steps().dom();
            proof {
                assert forall|id: u64|
                    dom_after.contains(id) <==> (od.contains(id) && (op.contains(id)
                        || !oa.contains(id))) by {
                    if dom_after.contains(id) {
                        if !op.contains(id) && oa.contains(id) {
                            let k = choose|k: int| 0 <= k < oa.len() && oa[k] == id;
                            assert(!self.spec_steps().dom().contains(oa[k]));
                        }
                    }
                    if od.contains(id) && !oa.contains(id) && !dom_after.contains(id) {
                        assert(oa.contains(id));
                    }
                }
            }
            // replay pass: feed each newly inserted step its predecessor's
            // cached stream starts and sequence headers
            let mut idx2: usize = 1;
            while idx2 < self.pending_steps.len()
                invariant
                    1 <= idx2,
                    self.wf(),
                    self.spec_active() == old(self).spec_active(),
                    self.spec_pending() == old(self).spec_pending(),
                    self.spec_status() == old(self).spec_status(),
                    self.spec_factory() == old(self).spec_factory(),
                    self.spec_steps().dom() == dom_after,
                    od == old(self).spec_steps().dom(),
                    op == old(self).spec_pending(),
                    oa == old(self).spec_active(),
                    forall|id: u64|
                        dom_after.contains(id) <==> (od.contains(id) && (op.contains(id)
                            || !oa.contains(id))),
                decreases self.spec_pending().len() - idx2,
            {
                let current = self.pending_steps[idx2];
                let previous = self.pending_steps[idx2 - 1];
                if !contains_id(&self.active_steps, current) {
                    self.replay_cached_media(previous, current);
                }
                idx2 += 1;
            }
            // commit: the pending order becomes the active order
            let ghost before_commit = *self;
            core::mem::swap(&mut self.pending_steps, &mut self.active_steps);
            self.pending_steps.clear();
            proof {
                assert(self.spec_steps() == before_commit.spec_steps());
                assert(self.spec_cache() == before_commit.spec_cache());
                assert(self.spec_streams() == before_commit.spec_streams());
                assert forall|sid: Seq<char>| #[trigger] self.stream_covered(sid) by {
                    assert(before_commit.stream_covered(sid));
                }
                assert(self.wf());
                // every remaining stream whose origin was an old active
                // step originates at a step of the new pipeline
                assert forall|sid: Seq<char>|
                    self.spec_streams().dom().contains(sid) && oa.contains(
                        #[trigger] self.spec_streams()[sid],
                    ) implies self.spec_active().contains(self.spec_streams()[sid]) by {
                    let o = self.spec_streams()[sid];
                    assert(self.stream_covered(sid));
                    assert(self.spec_steps().dom().contains(o));
                    assert(dom_after.contains(o));
                    assert(op.contains(o));
                    assert(self.spec_active() == op);
                }
            }
        } else {
            proof {
                if np > 0 {
                    let k = choose|k: int|
                        0 <= k < np && self.spec_steps()[#[trigger] self.spec_pending()[k]].spec_status()
                            == StepStatus::Created;
                    assert(!old(self).all_pending_active());
                }
            }
        }
    }
}



/// Changing anything but the step table, the caches, the stream table and
/// the factory leaves the structural invariants and stream coverage as
/// they were.
proof fn lemma_wf_lists(a: WorkflowRunner, b: WorkflowRunner)
    requires
        a.wf_core(),
        b.steps_by_definition_id == a.steps_by_definition_id,
        b.cached_step_media == a.cached_step_media,
        b.active_streams == a.active_streams,
        b.step_factory == a.step_factory,
    ensures
        b.wf_core(),
        b.spec_steps() == a.spec_steps(),
        b.spec_cache() == a.spec_cache(),
        b.spec_streams() == a.spec_streams(),
        b.spec_factory() == a.spec_factory(),
        a.wf() ==> b.wf(),
{
    assert(b.spec_steps() == a.spec_steps());
    assert(b.spec_cache() == a.spec_cache());
    assert(b.spec_streams() == a.spec_streams());
    if a.wf() {
        assert forall|sid: Seq<char>| #[trigger] b.stream_covered(sid) by {
            assert(a.stream_covered(sid));
        }
    }
}


/// What applying a definition does before any swap: pending becomes the
/// definition's step-ids in order, steps with a new id are built — their
/// initial futures scheduled under their id and their endpoint
/// registrations appended — existing steps are reused untouched, and the
/// active list, streams, caches and outboxes are otherwise as they were.
pub open spec fn applied_core(
    pre: WorkflowRunner,
    mid: WorkflowRunner,
    definition: WorkflowDefinition,
) -> bool {
    let ids = def_ids(definition.steps@);
    &&& mid.wf()
    &&& mid.spec_status() == RunnerStatus::Running
    &&& mid.spec_factory() == pre.spec_factory()
    &&& mid.spec_active() == pre.spec_active()
    &&& mid.spec_pending() == ids
    &&& mid.spec_streams() == pre.spec_streams()
    &&& mid.spec_cache() == pre.spec_cache()
    &&& mid.spec_outbound_media() == pre.spec_outbound_media()
    &&& forall|id: u64|
        mid.spec_steps().dom().contains(id) <==> (pre.spec_steps().dom().contains(id)
            || ids.contains(id))
    &&& forall|id: u64|
        pre.spec_steps().dom().contains(id) ==> mid.spec_steps()[id] == #[trigger] pre.spec_steps()[id]
    &&& mid.spec_scheduled_futures().take(pre.spec_scheduled_futures().len() as int)
        == pre.spec_scheduled_futures()
    &&& forall|k: int|
        pre.spec_scheduled_futures().len() <= k < mid.spec_scheduled_futures().len()
            ==> ids.contains((#[trigger] mid.spec_scheduled_futures()[k]).0)
            && !pre.spec_steps().dom().contains(mid.spec_scheduled_futures()[k].0)
    &&& mid.spec_outbound_requests().take(pre.spec_outbound_requests().len() as int)
        == pre.spec_outbound_requests()
}

/// What applying a definition does.  In the error state nothing happens.
/// When every needed construction succeeds, the runner first takes the
/// pre-swap shape of `applied_core`, then attempts the swap.  On a
/// construction failure it enters the error state, keeps its step table,
/// active list, streams and caches, and drops the pending set.
pub open spec fn apply_effect(
    pre: WorkflowRunner,
    post: WorkflowRunner,
    definition: WorkflowDefinition,
) -> bool {
    &&& post.spec_factory() == pre.spec_factory()
    &&& (pre.spec_status() == RunnerStatus::Error ==> post == pre)
    &&& (pre.spec_status() == RunnerStatus::Running ==> (if spec_apply_ok(
        pre.spec_factory(),
        pre.spec_steps().dom(),
        definition.steps@,
    ) {
        exists|mid: WorkflowRunner| #[trigger]
            applied_core(pre, mid, definition) && swap_effect(mid, post)
    } else {
        &&& post.spec_status() == RunnerStatus::Error
        &&& post.spec_pending().len() == 0
        &&& post.spec_steps() == pre.spec_steps()
        &&& post.spec_active() == pre.spec_active()
        &&& post.spec_streams() == pre.spec_streams()
        &&& post.spec_cache() == pre.spec_cache()
    }))
}

/// The step-ids a definition's steps hash to, in definition order.
pub open spec fn def_ids(defs: Seq<WorkflowStepDefinition>) -> Seq<u64> {
    defs.map_values(|d: WorkflowStepDefinition| spec_step_id(&d))
}

/// Whether the factory would fail to build a step for this definition:
/// no generator registered for the step type, or the generator rejects
/// the parameters.
#[verifier::opaque]
pub open spec fn spec_create_fails(f: WorkflowStepFactory, d: WorkflowStepDefinition) -> bool {
    let ty = d.step_type.0@;
    let pm = crate::config::omap_view(d.parameters@);
    if !f.spec_generators().contains_key(ty) {
        true
    } else {
        match f.spec_generators()[ty] {
            crate::steps::factory::StepGeneratorKind::RtmpReceive(_) => crate::steps::rtmp_receive::spec_receive_generate(
                pm,
            ) is Err,
            crate::steps::factory::StepGeneratorKind::RtmpWatch => crate::steps::rtmp_watch::spec_watch_generate(
                pm,
            ) is Err,
        }
    }
}

/// Whether applying a definition goes through: every step not already in
/// the table can be built.
pub open spec fn spec_apply_ok(
    f: WorkflowStepFactory,
    dom: Set<u64>,
    defs: Seq<WorkflowStepDefinition>,
) -> bool
    decreases defs.len(),
{
    if defs.len() == 0 {
        true
    } else {
        let id = spec_step_id(&defs[0]);
        if dom.contains(id) {
            spec_apply_ok(f, dom, defs.drop_first())
        } else if spec_create_fails(f, defs[0]) {
            false
        } else {
            spec_apply_ok(f, dom.insert(id), defs.drop_first())
        }
    }
}

/// Changing only the step table, the lists and the outboxes, while streams
/// keep their origins inside the table, keeps a runner well formed.
proof fn lemma_wf_of_parts(a: WorkflowRunner, b: WorkflowRunner)
    requires
        a.wf(),
        b.wf_core(),
        b.cached_step_media == a.cached_step_media,
        b.active_streams == a.active_streams,
        forall|id: u64|
            a.spec_steps().dom().contains(id) ==> b.spec_steps().dom().contains(id),
    ensures
        b.wf(),
{
    assert(b.spec_cache() == a.spec_cache());
    assert(b.spec_streams() == a.spec_streams());
    assert forall|sid: Seq<char>| #[trigger] b.stream_covered(sid) by {
        assert(a.stream_covered(sid));
    }
}

impl WorkflowRunner {
    /// A fresh runner for a definition: no steps, no streams, nothing
    /// pending; the definition's steps arrive through
    /// `apply_new_definition`.
    pub fn new(definition: &WorkflowDefinition, step_factory: WorkflowStepFactory) -> (r: Self)
        requires
            step_factory.wf(),
        ensures
            r.wf(),
            r.spec_status() == RunnerStatus::Running,
            r.spec_active().len() == 0,
            r.spec_pending().len() == 0,
            r.spec_steps() == Map::<u64, Step>::empty(),
            r.spec_streams() == Map::<Seq<char>, u64>::empty(),
            r.spec_cache() == Map::<u64, Map<Seq<char>, Seq<MediaModel>>>::empty(),
            r.spec_factory() == step_factory,
            r.spec_scheduled_futures().len() == 0,
            r.spec_outbound_requests().len() == 0,
            r.spec_outbound_media().len() == 0,
    {
        let r = WorkflowRunner {
            name: definition.name.clone(),
            status: RunnerStatus::Running,
            steps_by_definition_id: IdMap::new(),
            active_steps: Vec::new(),
            pending_steps: Vec::new(),
            step_inputs: StepInputs::new(),
            step_outputs: StepOutputs::new(),
            cached_step_media: IdMap::new(),
            active_streams: StrMap::new(),
            step_factory,
            scheduled_futures: Vec::new(),
            outbound_requests: Vec::new(),
            outbound_media: Vec::new(),
        };
        proof {
            assert(r.spec_streams() =~= Map::<Seq<char>, u64>::empty());
            assert(r.spec_cache() =~= Map::<u64, Map<Seq<char>, Seq<MediaModel>>>::empty());
        }
        r
    }

    #[verifier::rlimit(100)]
    #[verifier::spinoff_prover]
    /// Replace the pending pipeline with the definition's steps: their ids
    /// become the pending list in definition order, and steps whose id is
    /// new are built by the factory.  If any step cannot be built, the
    /// runner enters the error state, drops the partially built set, and
    /// keeps its step table as it was.
    pub fn apply_new_definition(&mut self, definition: WorkflowDefinition)
        requires
            old(self).wf(),
            definition.wf(),
        ensures
            final(self).wf(),
            apply_effect(*old(self), *final(self), definition),
    {
        match self.status {
            RunnerStatus::Error => {
                return ;
            },
            RunnerStatus::Running => {},
        }
        let ghost all_defs = definition.steps@;
        let ghost od = old(self).spec_steps().dom();
        let ghost f = old(self).spec_factory();
        let ghost at_entry = *self;
        self.pending_steps.clear();
        proof {
            lemma_wf_lists(at_entry, *self);
        }
        let mut defs = definition.steps;
        let mut created: Vec<u64> = Vec::new();
        let ghost mut i: int = 0;
        proof {
            assert(defs@ =~= all_defs.skip(0));
            assert(self.spec_pending() =~= def_ids(all_defs).take(0));
        }
        while defs.len() > 0
            invariant
                0 <= i <= all_defs.len(),
                all_defs == definition.steps@,
                defs@ == all_defs.skip(i),
                forall|k: int| 0 <= k < all_defs.len() ==> (#[trigger] all_defs[k]).wf(),
                old(self).wf(),
                old(self).spec_status() == RunnerStatus::Running,
                self.wf(),
                self.spec_status() == RunnerStatus::Running,
                self.spec_active() == old(self).spec_active(),
                self.spec_streams() == old(self).spec_streams(),
                self.spec_cache() == old(self).spec_cache(),
                self.spec_factory() == f,
                od == old(self).spec_steps().dom(),
                f == old(self).spec_factory(),
                self.spec_pending() == def_ids(all_defs).take(i),
                forall|id: u64|
                    self.spec_steps().dom().contains(id) <==> (od.contains(id)
                        || created@.contains(id)),
                forall|j: int| 0 <= j < created@.len() ==> !od.contains(#[trigger] created@[j]),
                forall|id: u64|
                    od.contains(id) ==> self.spec_steps()[id] == #[trigger] old(self).spec_steps()[id],
                spec_apply_ok(f, od, all_defs) == spec_apply_ok(
                    f,
                    self.spec_steps().dom(),
                    all_defs.skip(i),
                ),
                forall|id: u64|
                    created@.contains(id) ==> def_ids(all_defs).take(i).contains(id),
                forall|k: int|
                    0 <= k < i ==> self.spec_steps().dom().contains(
                        #[trigger] def_ids(all_defs)[k],
                    ),
                self.spec_outbound_media() == old(self).spec_outbound_media(),
                old(self).spec_scheduled_futures().len() <= self.spec_scheduled_futures().len(),
                self.spec_scheduled_futures().take(
                    old(self).spec_scheduled_futures().len() as int,
                ) == old(self).spec_scheduled_futures(),
                forall|k: int|
                    old(self).spec_scheduled_futures().len() <= k < self.spec_scheduled_futures().len() ==> def_ids(all_defs).take(i).contains(
                        (#[trigger] self.spec_scheduled_futures()[k]).0,
                    ) && !od.contains(self.spec_scheduled_futures()[k].0),
                old(self).spec_outbound_requests().len()
                    <= self.spec_outbound_requests().len(),
                self.spec_outbound_requests().take(
                    old(self).spec_outbound_requests().len() as int,
                ) == old(self).spec_outbound_requests(),
            decreases defs@.len(),
        {
            let ghost rem = all_defs.skip(i);
            let d = defs.remove(0);
            proof {
                assert(d == rem[0]);
                assert(d == all_defs[i]);
                assert(d.wf());
                assert(defs@ =~= all_defs.skip(i + 1));
                assert(rem.drop_first() =~= all_defs.skip(i + 1));
            }
            let id = d.get_id();
            let ghost dom_at = self.spec_steps().dom();
            let ghost before_push = *self;
            self.pending_steps.push(id);
            proof {
                lemma_wf_lists(before_push, *self);
                assert(self.spec_pending() =~= def_ids(all_defs).take(i + 1)) by {
                    assert(def_ids(all_defs).take(i + 1).drop_last() =~= def_ids(all_defs).take(
                        i,
                    ));
                    assert(def_ids(all_defs)[i] == spec_step_id(&all_defs[i]));
                }
            }
            let ghost pre_created = created@;
            proof {
                assert forall|sid: Seq<char>|
                    self.spec_streams().dom().contains(sid) implies !created@.contains(
                    #[trigger] self.spec_streams()[sid],
                ) by {
                    assert(old(self).spec_streams().dom().contains(sid));
                    assert(old(self).stream_covered(sid));
                    assert(od.contains(old(self).spec_streams()[sid]));
                }
            }
            match self.create_missing_step(d) {
                Err(_) => {
                    proof {
                        assert(!spec_apply_ok(f, self.spec_steps().dom(), rem));
                        assert(!spec_apply_ok(f, od, all_defs));
                    }
                    let ghost mid = *self;
                    self.fail_application(created);
                    proof {
                        assert forall|iid: u64|
                            self.spec_steps().dom().contains(iid) <==> od.contains(iid) by {
                            if od.contains(iid) {
                                assert(!pre_created.contains(iid));
                            }
                        }
                        assert forall|iid: u64| #[trigger] od.contains(iid) implies
                            self.spec_steps()[iid] == old(self).spec_steps()[iid] by {
                            assert(self.spec_steps()[iid] == mid.spec_steps()[iid]);
                        }
                        assert(self.spec_steps() =~= old(self).spec_steps());
                    }
                    return ;
                },
                Ok(true) => {
                    created.push(id);
                },
                Ok(false) => {},
            }
            proof {
                assert(spec_apply_ok(f, dom_at, rem) == spec_apply_ok(
                    f,
                    self.spec_steps().dom(),
                    all_defs.skip(i + 1),
                )) by {
                    if dom_at.contains(id) {
                        assert(self.spec_steps().dom() =~= dom_at);
                    } else {
                        assert(!spec_create_fails(f, rem[0]));
                        assert(self.spec_steps().dom() =~= dom_at.insert(id));
                    }
                }
                assert forall|iid: u64|
                    self.spec_steps().dom().contains(iid) <==> (od.contains(iid)
                        || created@.contains(iid)) by {
                    if created@ != pre_created {
                        assert(created@ == pre_created.push(id));
                        if created@.contains(iid) && iid != id {
                            let j = choose|j: int|
                                0 <= j < created@.len() && created@[j] == iid;
                            assert(pre_created[j] == iid);
                        }
                        if pre_created.contains(iid) {
                            let j = choose|j: int|
                                0 <= j < pre_created.len() && pre_created[j] == iid;
                            assert(created@[j] == iid);
                        }
                        assert(created@[created@.len() - 1] == id);
                    }
                }
                assert forall|iid: u64|
                    created@.contains(iid) implies def_ids(all_defs).take(i + 1).contains(
                    iid,
                ) by {
                    let j = choose|j: int| 0 <= j < created@.len() && created@[j] == iid;
                    if j < created@.len() - 1 || dom_at.contains(id) {
                        let k = choose|k: int|
                            0 <= k < i && def_ids(all_defs).take(i as int)[k] == iid;
                        assert(def_ids(all_defs).take(i + 1)[k] == iid);
                    } else {
                        assert(def_ids(all_defs).take(i + 1)[i] == id);
                    }
                }
                assert forall|k: int|
                    0 <= k < i + 1 implies self.spec_steps().dom().contains(
                    #[trigger] def_ids(all_defs)[k],
                ) by {
                    if k == i {
                        assert(def_ids(all_defs)[i] == id);
                    }
                }
                // scheduled futures stay a prefix plus entries keyed by new
                // ids of this definition
                assert(self.spec_scheduled_futures().take(
                    before_push.spec_scheduled_futures().len() as int,
                ) == before_push.spec_scheduled_futures());
                assert(old(self).spec_scheduled_futures().len()
                    <= before_push.spec_scheduled_futures().len());
                assert(before_push.spec_scheduled_futures().len()
                    <= self.spec_scheduled_futures().len());
                assert(self.spec_scheduled_futures().take(
                    old(self).spec_scheduled_futures().len() as int,
                ) =~= self.spec_scheduled_futures().take(
                    before_push.spec_scheduled_futures().len() as int,
                ).take(old(self).spec_scheduled_futures().len() as int));
                assert forall|k: int|
                    old(self).spec_scheduled_futures().len() <= k
                        < self.spec_scheduled_futures().len() implies def_ids(all_defs).take(
                    i + 1,
                ).contains((#[trigger] self.spec_scheduled_futures()[k]).0) && !od.contains(
                    self.spec_scheduled_futures()[k].0,
                ) by {
                    if k < before_push.spec_scheduled_futures().len() {
                        assert(self.spec_scheduled_futures()[k]
                            == before_push.spec_scheduled_futures()[k]);
                        let j = choose|j: int|
                            0 <= j < i && def_ids(all_defs).take(i as int)[j]
                                == before_push.spec_scheduled_futures()[k].0;
                        assert(def_ids(all_defs).take(i + 1)[j]
                            == self.spec_scheduled_futures()[k].0);
                    } else {
                        assert(self.spec_scheduled_futures()[k].0 == spec_step_id(&rem[0]));
                        assert(def_ids(all_defs)[i] == spec_step_id(&all_defs[i]));
                        assert(def_ids(all_defs).take(i + 1)[i] == def_ids(all_defs)[i]);
                        assert(!dom_at.contains(id));
                    }
                }
                assert(self.spec_outbound_requests().take(
                    before_push.spec_outbound_requests().len() as int,
                ) == before_push.spec_outbound_requests());
                assert(old(self).spec_outbound_requests().len()
                    <= before_push.spec_outbound_requests().len());
                assert(before_push.spec_outbound_requests().len()
                    <= self.spec_outbound_requests().len());
                assert(self.spec_outbound_requests().take(
                    old(self).spec_outbound_requests().len() as int,
                ) =~= self.spec_outbound_requests().take(
                    before_push.spec_outbound_requests().len() as int,
                ).take(old(self).spec_outbound_requests().len() as int));
                i = i + 1;
            }
        }
        proof {
            assert(all_defs.skip(i) =~= Seq::<WorkflowStepDefinition>::empty());
            assert(i == all_defs.len());
            assert(def_ids(all_defs).take(i) =~= def_ids(all_defs));
            assert forall|id: u64|
                self.spec_steps().dom().contains(id) <==> (od.contains(id) || def_ids(
                    all_defs,
                ).contains(id)) by {
                if self.spec_steps().dom().contains(id) && !od.contains(id) {
                    assert(created@.contains(id));
                    assert(def_ids(all_defs).take(i).contains(id));
                    let k = choose|k: int|
                        0 <= k < i && def_ids(all_defs).take(i)[k] == id;
                    assert(def_ids(all_defs)[k] == id);
                }
                if def_ids(all_defs).contains(id) {
                    let k = choose|k: int|
                        0 <= k < def_ids(all_defs).len() && def_ids(all_defs)[k] == id;
                    assert(self.spec_steps().dom().contains(def_ids(all_defs)[k]));
                }
            }
        }
        // the new pipeline may already be ready: attempt the swap now
        let ghost mid = *self;
        proof {
            assert(applied_core(*old(self), mid, definition)) by {
                assert(mid.spec_pending() == def_ids(definition.steps@));
                assert forall|k: int|
                    old(self).spec_scheduled_futures().len() <= k
                        < mid.spec_scheduled_futures().len() implies def_ids(
                    definition.steps@,
                ).contains((#[trigger] mid.spec_scheduled_futures()[k]).0) && !old(
                    self,
                ).spec_steps().dom().contains(mid.spec_scheduled_futures()[k].0) by {
                    assert(def_ids(all_defs).take(i).contains(mid.spec_scheduled_futures()[k].0));
                    let j = choose|j: int|
                        0 <= j < i && def_ids(all_defs).take(i as int)[j]
                            == mid.spec_scheduled_futures()[k].0;
                    assert(def_ids(all_defs)[j] == mid.spec_scheduled_futures()[k].0);
                }
            }
        }
        self.check_if_all_pending_steps_are_active();
        proof {
            assert(swap_effect(mid, *self));
            assert(applied_core(*old(self), mid, definition) && swap_effect(mid, *self));
            assert(apply_effect(*old(self), *self, definition));
        }
    }


    /// Build the step a definition names unless one with its id already
    /// stands in the table.  `Ok(true)` means a step was created,
    /// `Ok(false)` that the id already existed, `Err` that the factory
    /// could not build it.
    fn create_missing_step(&mut self, d: WorkflowStepDefinition) -> (r: Result<bool, ()>)
        requires
            old(self).wf(),
            d.wf(),
        ensures
            final(self).wf(),
            final(self).spec_status() == old(self).spec_status(),
            final(self).spec_active() == old(self).spec_active(),
            final(self).spec_pending() == old(self).spec_pending(),
            final(self).spec_streams() == old(self).spec_streams(),
            final(self).spec_cache() == old(self).spec_cache(),
            final(self).spec_factory() == old(self).spec_factory(),
            final(self).spec_outbound_media() == old(self).spec_outbound_media(),
            old(self).spec_scheduled_futures().len() <= final(self).spec_scheduled_futures().len(),
            final(self).spec_scheduled_futures().take(
                old(self).spec_scheduled_futures().len() as int,
            ) == old(self).spec_scheduled_futures(),
            forall|k: int|
                old(self).spec_scheduled_futures().len() <= k < final(self).spec_scheduled_futures().len() ==> (#[trigger] final(self).spec_scheduled_futures()[k]).0
                    == spec_step_id(&d),
            old(self).spec_outbound_requests().len() <= final(self).spec_outbound_requests().len(),
            final(self).spec_outbound_requests().take(
                old(self).spec_outbound_requests().len() as int,
            ) == old(self).spec_outbound_requests(),
            !(r matches Ok(true)) ==> final(self).spec_scheduled_futures() == old(self).spec_scheduled_futures() && final(self).spec_outbound_requests() == old(self).spec_outbound_requests(),
            ({
                let id = spec_step_id(&d);
                match r {
                    Ok(true) => !old(self).spec_steps().dom().contains(id) && !spec_create_fails(
                        old(self).spec_factory(),
                        d,
                    ) && final(self).spec_steps().dom() == old(self).spec_steps().dom().insert(id)
                        && (forall|iid: u64|
                        old(self).spec_steps().dom().contains(iid) ==> final(self).spec_steps()[iid]
                            == #[trigger] old(self).spec_steps()[iid]),
                    Ok(false) => old(self).spec_steps().dom().contains(id) && final(self).spec_steps() == old(self).spec_steps(),
                    Err(_) => !old(self).spec_steps().dom().contains(id) && spec_create_fails(
                        old(self).spec_factory(),
                        d,
                    ) && final(self).spec_steps() == old(self).spec_steps(),
                }
            }),
    {
        proof {
            reveal(crate::runner::spec_create_fails);
        }
        let id = d.get_id();
        if self.steps_by_definition_id.contains_key(id) {
            return Ok(false);
        }
        match self.step_factory.create_step(d) {
            Err(_) => Err(()),
            Ok(inner) => match inner {
                Err(_) => Err(()),
                Ok(t) => {
                    let (step, futures, mut requests) = t;
                    let nf = futures.len();
                    let ghost before_sched = *self;
                    let mut q: usize = 0;
                    while q < nf
                        invariant
                            q <= nf,
                            nf == futures@.len(),
                            id == spec_step_id(&d),
                            *self == (WorkflowRunner {
                                scheduled_futures: self.scheduled_futures,
                                ..before_sched
                            }),
                            self.scheduled_futures@.take(before_sched.scheduled_futures@.len() as int)
                                == before_sched.scheduled_futures@,
                            self.scheduled_futures@.len() == before_sched.scheduled_futures@.len()
                                + q,
                            forall|k: int|
                                before_sched.scheduled_futures@.len() <= k
                                    < self.scheduled_futures@.len() ==> (
                                #[trigger] self.scheduled_futures@[k]).0 == id,
                        decreases nf - q,
                    {
                        let fsp = futures[q];
                        self.scheduled_futures.push((id, fsp));
                        proof {
                            assert(self.scheduled_futures@.take(
                                before_sched.scheduled_futures@.len() as int,
                            ) =~= before_sched.scheduled_futures@);
                        }
                        q += 1;
                    }
                    proof {
                        assert(before_sched.scheduled_futures@ == old(self).spec_scheduled_futures());
                        assert(before_sched.outbound_requests@ == old(self).spec_outbound_requests());
                    }
                    self.outbound_requests.append(&mut requests);
                    proof {
                        assert(self.outbound_requests@.take(
                            old(self).spec_outbound_requests().len() as int,
                        ) =~= old(self).spec_outbound_requests());
                    }
                    let ghost before_insert = *self;
                    proof {
                        lemma_wf_lists(before_sched, *self);
                        assert(before_insert.wf());
                    }
                    self.steps_by_definition_id.insert(id, step);
                    proof {
                        assert(step.wf());
                        assert(spec_step_id(&step.spec_definition()) == id);
                        assert(self.spec_steps().dom() =~= old(self).spec_steps().dom().insert(
                            id,
                        ));
                        assert forall|iid: u64|
                            self.spec_steps().dom().contains(iid) implies (
                        #[trigger] self.spec_steps()[iid]).wf() && spec_step_id(
                            &self.spec_steps()[iid].spec_definition(),
                        ) == iid by {
                            if iid != id {
                                assert(self.spec_steps()[iid] == before_insert.spec_steps()[iid]);
                            }
                        }
                        lemma_wf_of_parts(before_insert, *self);
                    }
                    Ok(true)
                },
            },
        }
    }

    /// Enter the error state after a failed step construction: the pending
    /// list and the partially built steps are dropped.
    fn fail_application(&mut self, created: Vec<u64>)
        requires
            old(self).wf(),
            forall|sid: Seq<char>|
                old(self).spec_streams().dom().contains(sid) ==> !created@.contains(
                    #[trigger] old(self).spec_streams()[sid],
                ),
    ensures
            final(self).wf(),
            final(self).spec_status() == RunnerStatus::Error,
            final(self).spec_pending().len() == 0,
            final(self).spec_active() == old(self).spec_active(),
            final(self).spec_streams() == old(self).spec_streams(),
            final(self).spec_cache() == old(self).spec_cache(),
            final(self).spec_factory() == old(self).spec_factory(),
            forall|id: u64|
                final(self).spec_steps().dom().contains(id) <==> (old(self).spec_steps().dom().contains(id) && !created@.contains(id)),
            forall|id: u64|
                final(self).spec_steps().dom().contains(id) ==> final(self).spec_steps()[id]
                    == #[trigger] old(self).spec_steps()[id],
    {
        let ghost at_entry = *self;
        self.status = RunnerStatus::Error;
        self.pending_steps.clear();
        proof {
            lemma_wf_lists(at_entry, *self);
        }
        let n = created.len();
        let mut q: usize = 0;
        while q < n
            invariant
                q <= n,
                n == created@.len(),
                self.wf_core(),
                self.spec_status() == RunnerStatus::Error,
                self.spec_pending().len() == 0,
                self.spec_active() == old(self).spec_active(),
                self.spec_streams() == old(self).spec_streams(),
                self.spec_cache() == old(self).spec_cache(),
                self.spec_factory() == old(self).spec_factory(),
                forall|id: u64|
                    self.spec_steps().dom().contains(id) <==> (old(self).spec_steps().dom().contains(id) && !created@.take(q as int).contains(id)),
                forall|id: u64|
                    self.spec_steps().dom().contains(id) ==> self.spec_steps()[id]
                        == #[trigger] old(self).spec_steps()[id],
            decreases n - q,
        {
            let id = created[q];
            let ghost dom_at = self.spec_steps().dom();
            self.steps_by_definition_id.remove(id);
            proof {
                assert(self.spec_steps().dom() =~= dom_at.remove(id));
                assert forall|iid: u64|
                    self.spec_steps().dom().contains(iid) <==> (old(self).spec_steps().dom().contains(iid) && !created@.take(q + 1).contains(iid)) by {
                    assert(created@.take(q + 1).drop_last() =~= created@.take(q as int));
                    assert(created@.take(q + 1).last() == created@[q as int]);
                    if created@.take(q + 1).contains(iid) {
                        if iid != id {
                            let k = choose|k: int|
                                0 <= k < q + 1 && #[trigger] created@.take(q + 1)[k] == iid;
                            assert(created@.take(q as int)[k] == iid);
                        }
                    } else {
                        assert(!created@.take(q as int).contains(iid));
                    }
                }
            }
            q += 1;
        }
        proof {
            assert(created@.take(n as int) =~= created@);
            assert forall|sid: Seq<char>| #[trigger] self.stream_covered(sid) by {
                if self.spec_streams().dom().contains(sid) {
                    assert(old(self).stream_covered(sid));
                    let origin = self.spec_streams()[sid];
                    assert(old(self).spec_streams()[sid] == origin);
                    assert(old(self).spec_steps().dom().contains(origin));
                    assert(!created@.contains(origin));
                    assert(self.spec_steps().dom().contains(origin));
                }
            }
        }
    }
}


impl WorkflowRunner {
    /// Handle one request made to the running workflow.
    pub fn handle_workflow_request(&mut self, request: WorkflowRequest)
        requires
            old(self).wf(),
            (match request {
                WorkflowRequest::UpdateDefinition { ref new_definition } => new_definition.wf(),
            }),
        ensures
            final(self).wf(),
            apply_effect(
                *old(self),
                *final(self),
                request->UpdateDefinition_new_definition,
            ),
    {
        match request {
            WorkflowRequest::UpdateDefinition { new_definition } => {
                self.apply_new_definition(new_definition);
            },
        }
    }

    /// Deliver a resolved step future: the step runs with the result, its
    /// media flows downstream, and the pending swap is attempted.
    pub fn handle_step_future_resolved(&mut self, step_id: u64, result: StepFutureResult)
        requires
            old(self).wf(),
        ensures
            final(self).wf(),
            final(self).spec_status() == old(self).spec_status(),
            (final(self).spec_active() == old(self).spec_active() && final(self).spec_pending()
                == old(self).spec_pending()) || (final(self).spec_pending().len() == 0 && final(self).spec_active() == old(self).spec_pending()),
            execute_steps_effect(*old(self), *final(self), step_id, Some(result), false, true),
    {
        self.execute_steps(step_id, Some(result), false, true);
    }

    /// The futures the runner wants scheduled, keyed by step id.  Taking
    /// them empties the runner's list.
    pub fn take_scheduled_futures(&mut self) -> (r: Vec<(u64, FutureSpec)>)
        requires
            old(self).wf(),
        ensures
            final(self).wf(),
            r@ == old(self).spec_scheduled_futures(),
            final(self).spec_scheduled_futures().len() == 0,
            final(self).spec_active() == old(self).spec_active(),
            final(self).spec_pending() == old(self).spec_pending(),
            final(self).spec_status() == old(self).spec_status(),
    {
        let ghost at_entry = *self;
        let mut t: Vec<(u64, FutureSpec)> = Vec::new();
        core::mem::swap(&mut t, &mut self.scheduled_futures);
        proof {
            lemma_wf_lists(at_entry, *self);
        }
        t
    }

    /// The endpoint registration requests produced so far.
    pub fn take_outbound_requests(&mut self) -> (r: Vec<RtmpEndpointRequest>)
        requires
            old(self).wf(),
        ensures
            final(self).wf(),
            r@ == old(self).spec_outbound_requests(),
            final(self).spec_outbound_requests().len() == 0,
            final(self).spec_active() == old(self).spec_active(),
            final(self).spec_pending() == old(self).spec_pending(),
            final(self).spec_status() == old(self).spec_status(),
    {
        let ghost at_entry = *self;
        let mut t: Vec<RtmpEndpointRequest> = Vec::new();
        core::mem::swap(&mut t, &mut self.outbound_requests);
        proof {
            lemma_wf_lists(at_entry, *self);
        }
        t
    }

    /// The endpoint media messages produced so far.
    pub fn take_outbound_media(&mut self) -> (r: Vec<RtmpEndpointMediaMessage>)
        requires
            old(self).wf(),
        ensures
            final(self).wf(),
            r@ == old(self).spec_outbound_media(),
            final(self).spec_outbound_media().len() == 0,
            final(self).spec_active() == old(self).spec_active(),
            final(self).spec_pending() == old(self).spec_pending(),
            final(self).spec_status() == old(self).spec_status(),
    {
        let ghost at_entry = *self;
        let mut t: Vec<RtmpEndpointMediaMessage> = Vec::new();
        core::mem::swap(&mut t, &mut self.outbound_media);
        proof {
            lemma_wf_lists(at_entry, *self);
        }
        t
    }

    pub fn status(&self) -> (r: RunnerStatus)
        ensures
            r == self.spec_status(),
    {
        self.status
    }

    /// The ids of the live pipeline, in order.
    pub fn active_step_ids(&self) -> (r: &Vec<u64>)
        ensures
            r@ == self.spec_active(),
    {
        &self.active_steps
    }

    /// The ids of the pipeline being brought up, in order.
    pub fn pending_step_ids(&self) -> (r: &Vec<u64>)
        ensures
            r@ == self.spec_pending(),
    {
        &self.pending_steps
    }

    /// Whether a step with this id is live in the runner.
    pub fn has_step(&self, id: u64) -> (r: bool)
        requires
            self.wf(),
        ensures
            r == self.spec_steps().dom().contains(id),
    {
        self.steps_by_definition_id.contains_key(id)
    }

    /// The status the step with this id reports, if it is live.
    pub fn step_status(&self, id: u64) -> (r: Option<StepStatus>)
        requires
            self.wf(),
        ensures
            match r {
                Some(s) => self.spec_steps().dom().contains(id) && s == self.spec_steps()[id].spec_status(),
                None => !self.spec_steps().dom().contains(id),
            },
    {
        match self.steps_by_definition_id.get(id) {
            Some(step) => Some(step.get_status()),
            None => None,
        }
    }

    /// The step a live stream originates at, if the stream is live.
    pub fn stream_origin(&self, stream_id: &str) -> (r: Option<u64>)
        requires
            self.wf(),
        ensures
            match r {
                Some(id) => self.spec_streams().dom().contains(stream_id@) && id
                    == self.spec_streams()[stream_id@],
                None => !self.spec_streams().dom().contains(stream_id@),
            },
    {
        match self.active_streams.get(stream_id) {
            Some(d) => Some(d.originating_step_id),
            None => None,
        }
    }

    /// At most one live step per step-id: two live steps whose definitions
    /// hash to the same id are the same step under the same id.
    pub proof fn lemma_at_most_one_live_step(&self, a: u64, b: u64)
        requires
            self.wf(),
            self.spec_steps().dom().contains(a),
            self.spec_steps().dom().contains(b),
            spec_step_id(&self.spec_steps()[a].spec_definition()) == spec_step_id(
                &self.spec_steps()[b].spec_definition(),
            ),
        ensures
            a == b,
            self.spec_steps()[a] == self.spec_steps()[b],
    {
    }

    /// Every live stream's originating step is still in the step table;
    /// when every tabled step stands on a list and no swap is pending, the
    /// origin stands on the active list.
    pub proof fn lemma_stream_origin_active(&self, sid: Seq<char>)
        requires
            self.wf(),
            self.spec_streams().dom().contains(sid),
            forall|id: u64|
                self.spec_steps().dom().contains(id) ==> self.spec_active().contains(id)
                    || self.spec_pending().contains(id),
            self.spec_pending().len() == 0,
        ensures
            self.spec_steps().dom().contains(self.spec_streams()[sid]),
            self.spec_active().contains(self.spec_streams()[sid]),
    {
        assert(self.stream_covered(sid));
    }
}

/// One output batch without a disconnect for a stream appends to that
/// stream's cache entry in emission order: the prior entry stays a prefix.
/// A stream start cached first is therefore replayed to a newly inserted
/// successor before any later sequence header.
pub proof fn lemma_cache_entry_prefix(
    c: Map<Seq<char>, Seq<MediaModel>>,
    ms: Seq<MediaModel>,
    sid: Seq<char>,
)
    requires
        forall|i: int|
            0 <= i < ms.len() ==> !((#[trigger] ms[i]).stream_id == sid && ms[i].content
                is StreamDisconnected),
        c.contains_key(sid),
    ensures
        spec_update_cache(c, ms).contains_key(sid),
        spec_update_cache(c, ms)[sid].len() >= c[sid].len(),
        forall|i: int|
            0 <= i < c[sid].len() ==> spec_update_cache(c, ms)[sid][i] == #[trigger] c[sid][i],
    decreases ms.len(),
{
    if ms.len() == 0 {
    } else {
        let sid0 = ms[0].stream_id;
        let c1 = if is_cacheable(ms[0].content) {
            let entry = if c.contains_key(sid0) {
                c[sid0]
            } else {
                Seq::<MediaModel>::empty()
            };
            c.insert(sid0, entry.push(ms[0]))
        } else if ms[0].content is StreamDisconnected {
            c.remove(sid0)
        } else {
            c
        };
        assert(ms[0].stream_id == sid ==> !(ms[0].content is StreamDisconnected));
        assert(c1.contains_key(sid));
        assert forall|i: int|
            1 <= i < ms.len() implies !((#[trigger] ms.drop_first()[i - 1]).stream_id == sid
            && ms.drop_first()[i - 1].content is StreamDisconnected) by {
            assert(ms.drop_first()[i - 1] == ms[i]);
        }
        lemma_cache_entry_prefix(c1, ms.drop_first(), sid);
        assert(spec_update_cache(c, ms) == spec_update_cache(c1, ms.drop_first()));
        assert(c1[sid].len() >= c[sid].len());
        assert forall|i: int| 0 <= i < c[sid].len() implies c1[sid][i] == #[trigger] c[sid][i] by {
            if ms[0].stream_id == sid && is_cacheable(ms[0].content) {
                assert(c1[sid] == c[sid].push(ms[0]));
            }
        }
    }
}

} // verus!
