//! The RTMP watch step: registers with the RTMP server endpoint so clients
//! can connect and watch streams on a port, application name and stream key.
//! Media notifications flowing through the step are handed to the endpoint
//! for distribution, and every notification is passed on to the next step.
//!
//! With a stream key of `*`, watchers connect under each stream's own name.
//! With an exact key, streams are surfaced on that configured key.

use vstd::prelude::*;
use crate::collections::StrMap;
use crate::definitions::WorkflowStepDefinition;
use crate::endpoints::KeyRegModel;
use crate::endpoints::MediaMessageModel;
use crate::endpoints::MediaDataModel;
use crate::endpoints::RegistrationType;
use crate::endpoints::RtmpEndpointMediaData;
use crate::endpoints::RtmpEndpointMediaMessage;
use crate::endpoints::RtmpEndpointRequest;
use crate::endpoints::RtmpEndpointWatcherNotification;
use crate::endpoints::StreamKeyRegistration;
use crate::endpoints::WatcherNotificationModel;
use crate::media::ContentModel;
use crate::media::MediaModel;
use crate::media::MediaNotification;
use crate::media::MediaNotificationContent;
use crate::media::clone_bytes;
use crate::media::clone_string_map;
use crate::steps::FutureSpec;
use crate::steps::NotifModel;
use crate::steps::StepInputs;
use crate::steps::StepOutputs;
use crate::steps::StepStatus;

verus! {

/// A resolved future of a watch step.
pub enum RtmpWatchFutureResult {
    RtmpWatchNotificationReceived(RtmpEndpointWatcherNotification),
    RtmpEndpointGone,
}

/// Mathematical mirror of `RtmpWatchFutureResult`.
pub enum WatchNotifModel {
    NotificationReceived(WatcherNotificationModel),
    EndpointGone,
}

impl View for RtmpWatchFutureResult {
    type V = WatchNotifModel;

    open spec fn view(&self) -> WatchNotifModel {
        match self {
            RtmpWatchFutureResult::RtmpWatchNotificationReceived(n) => WatchNotifModel::NotificationReceived(
                n@,
            ),
            RtmpWatchFutureResult::RtmpEndpointGone => WatchNotifModel::EndpointGone,
        }
    }
}

/// One watch step instance.
pub struct RtmpWatchStep {
    definition: WorkflowStepDefinition,
    port: u16,
    rtmp_app: String,
    stream_key: StreamKeyRegistration,
    status: StepStatus,
    stream_id_to_name_map: StrMap<String>,
}

/// Mathematical mirror of a watch step's state.
pub struct WatchModel {
    pub status: StepStatus,
    pub port: u16,
    pub rtmp_app: Seq<char>,
    pub stream_key: KeyRegModel,
    /// stream id -> the stream key its media is surfaced under
    pub names: Map<Seq<char>, Seq<char>>,
}

impl RtmpWatchStep {
    pub closed spec fn wf(&self) -> bool {
        &&& self.stream_id_to_name_map.wf()
        &&& self.definition.wf()
    }

    pub closed spec fn model(&self) -> WatchModel {
        WatchModel {
            status: self.status,
            port: self.port,
            rtmp_app: self.rtmp_app@,
            stream_key: self.stream_key@,
            names: crate::media::smap_view(self.stream_id_to_name_map@),
        }
    }

    pub closed spec fn spec_definition(&self) -> WorkflowStepDefinition {
        self.definition
    }

    pub fn get_status(&self) -> (r: StepStatus)
        ensures
            r == self.model().status,
    {
        self.status
    }

    pub fn get_definition(&self) -> (r: &WorkflowStepDefinition)
        ensures
            *r == self.spec_definition(),
    {
        &self.definition
    }
}

/// What one watcher notification does to the step's status.
pub open spec fn watch_notif_next(st: WatchModel, n: WatcherNotificationModel) -> WatchModel {
    match n {
        WatcherNotificationModel::WatcherRegistrationFailed => WatchModel {
            status: StepStatus::Error,
            ..st
        },
        WatcherNotificationModel::WatcherRegistrationSuccessful => WatchModel {
            status: StepStatus::Active,
            ..st
        },
        _ => st,
    }
}

/// Folding the step over its pending notifications: the state it reaches,
/// the futures it re-arms, and whether a gone endpoint or a wrong-variant
/// notification stopped it.
pub open spec fn watch_run_notifs(st: WatchModel, ns: Seq<NotifModel>) -> (
    WatchModel,
    Seq<FutureSpec>,
    bool,
)
    decreases ns.len(),
{
    if ns.len() == 0 {
        (st, Seq::empty(), false)
    } else {
        match ns[0] {
            NotifModel::RtmpWatch(WatchNotifModel::NotificationReceived(n)) => {
                let rest = watch_run_notifs(watch_notif_next(st, n), ns.drop_first());
                (rest.0, seq![FutureSpec::WaitRtmpWatcherNotification] + rest.1, rest.2)
            },
            _ => (WatchModel { status: StepStatus::Error, ..st }, Seq::empty(), true),
        }
    }
}

/// The stream key a media notification for this stream is surfaced under.
pub open spec fn effective_name(st: WatchModel, incoming: Seq<char>) -> Seq<char> {
    match st.stream_key {
        KeyRegModel::Any => incoming,
        KeyRegModel::Exact(k) => k,
    }
}

/// What one media notification does to the stream-to-name map.  Only an
/// active step tracks streams.
pub open spec fn watch_media_next(st: WatchModel, m: MediaModel) -> WatchModel {
    if st.status != StepStatus::Active {
        st
    } else {
        match m.content {
            ContentModel::NewIncomingStream { stream_name } => WatchModel {
                names: st.names.insert(m.stream_id, effective_name(st, stream_name)),
                ..st
            },
            ContentModel::StreamDisconnected => WatchModel {
                names: st.names.remove(m.stream_id),
                ..st
            },
            _ => st,
        }
    }
}

/// What one media notification makes the step send to the endpoint: media
/// of a tracked stream, under the stream's surfaced key.
pub open spec fn watch_media_sends(st: WatchModel, m: MediaModel) -> Seq<MediaMessageModel> {
    if st.status != StepStatus::Active {
        Seq::empty()
    } else {
        match m.content {
            ContentModel::Metadata { data } => {
                if st.names.contains_key(m.stream_id) {
                    seq![
                        MediaMessageModel {
                            stream_key: st.names[m.stream_id],
                            data: MediaDataModel::NewStreamMetaData { metadata: data },
                        },
                    ]
                } else {
                    Seq::empty()
                }
            },
            ContentModel::Video { codec, is_keyframe, is_sequence_header, timestamp_ms, data } => {
                if st.names.contains_key(m.stream_id) {
                    seq![
                        MediaMessageModel {
                            stream_key: st.names[m.stream_id],
                            data: MediaDataModel::NewVideoData {
                                is_keyframe,
                                is_sequence_header,
                                codec,
                                data,
                                timestamp: (timestamp_ms % 0x100000000) as u32,
                            },
                        },
                    ]
                } else {
                    Seq::empty()
                }
            },
            ContentModel::Audio { codec, is_sequence_header, timestamp_ms, data } => {
                if st.names.contains_key(m.stream_id) {
                    seq![
                        MediaMessageModel {
                            stream_key: st.names[m.stream_id],
                            data: MediaDataModel::NewAudioData {
                                is_sequence_header,
                                codec,
                                data,
                                timestamp: (timestamp_ms % 0x100000000) as u32,
                            },
                        },
                    ]
                } else {
                    Seq::empty()
                }
            },
            _ => Seq::empty(),
        }
    }
}

/// Folding the step over incoming media: the state it reaches and what it
/// sends to the endpoint.  Every notification also passes through.
pub open spec fn watch_run_media(st: WatchModel, ms: Seq<MediaModel>) -> (
    WatchModel,
    Seq<MediaMessageModel>,
)
    decreases ms.len(),
{
    if ms.len() == 0 {
        (st, Seq::empty())
    } else {
        let rest = watch_run_media(watch_media_next(st, ms[0]), ms.drop_first());
        (rest.0, watch_media_sends(st, ms[0]) + rest.1)
    }
}

/// How one `execute` call relates the step, its inputs and its outputs.
/// A step already in error touches nothing.
pub open spec fn watch_execute_rel(
    pre: RtmpWatchStep,
    post: RtmpWatchStep,
    old_in: StepInputs,
    new_in: StepInputs,
    old_out: StepOutputs,
    new_out: StepOutputs,
) -> bool {
    if pre.model().status == StepStatus::Error {
        &&& post == pre
        &&& new_in == old_in
        &&& new_out == old_out
    } else {
        let nr = watch_run_notifs(
            pre.model(),
            old_in.notifications@.map_values(|n: crate::steps::StepFutureResult| n@),
        );
        &&& post.spec_definition() == pre.spec_definition()
        &&& new_in.notifications@.len() == 0
        &&& new_out.futures@ == old_out.futures@ + nr.1
        &&& if nr.2 {
            &&& post.model() == nr.0
            &&& new_in.media == old_in.media
            &&& new_out.media == old_out.media
            &&& new_out.rtmp_media == old_out.rtmp_media
        } else {
            let mr = watch_run_media(nr.0, old_in.media@.map_values(|m: MediaNotification| m@));
            &&& post.model() == mr.0
            &&& new_in.media@.len() == 0
            &&& new_out.media@.map_values(|m: MediaNotification| m@) == old_out.media@.map_values(
                |m: MediaNotification| m@,
            ) + old_in.media@.map_values(|m: MediaNotification| m@)
            &&& new_out.rtmp_media@.map_values(|m: RtmpEndpointMediaMessage| m@)
                == old_out.rtmp_media@.map_values(|m: RtmpEndpointMediaMessage| m@) + mr.1
        }
    }
}

impl RtmpWatchStep {
    /// Apply one watcher notification: registration results move the status.
    fn handle_endpoint_notification(&mut self, notification: RtmpEndpointWatcherNotification)
        requires
            old(self).wf(),
        ensures
            final(self).wf(),
            final(self).model() == watch_notif_next(old(self).model(), notification@),
            final(self).spec_definition() == old(self).spec_definition(),
    {
        match notification {
            RtmpEndpointWatcherNotification::WatcherRegistrationFailed => {
                self.status = StepStatus::Error;
            },
            RtmpEndpointWatcherNotification::WatcherRegistrationSuccessful => {
                self.status = StepStatus::Active;
            },
            RtmpEndpointWatcherNotification::StreamKeyBecameActive { .. } => {},
            RtmpEndpointWatcherNotification::StreamKeyBecameInactive { .. } => {},
        }
    }

    /// Route one media notification: an active step tracks stream names and
    /// hands media to the endpoint; every notification passes through.
    fn handle_media(&mut self, media: MediaNotification, outputs: &mut StepOutputs)
        requires
            old(self).wf(),
        ensures
            final(self).wf(),
            final(self).spec_definition() == old(self).spec_definition(),
            final(self).model() == watch_media_next(old(self).model(), media@),
            final(outputs).media@.map_values(|m: MediaNotification| m@) == old(
                outputs,
            ).media@.map_values(|m: MediaNotification| m@).push(media@),
            final(outputs).rtmp_media@.map_values(|m: RtmpEndpointMediaMessage| m@) == old(
                outputs,
            ).rtmp_media@.map_values(|m: RtmpEndpointMediaMessage| m@) + watch_media_sends(
                old(self).model(),
                media@,
            ),
            final(outputs).futures == old(outputs).futures,
    {
        let ghost pre = self.model();
        let ghost old_media = outputs.media@.map_values(|m: MediaNotification| m@);
        let ghost old_sends = outputs.rtmp_media@.map_values(|m: RtmpEndpointMediaMessage| m@);
        let is_active = match self.status {
            StepStatus::Active => true,
            _ => false,
        };
        if is_active {
            match &media.content {
                MediaNotificationContent::NewIncomingStream { stream_name } => {
                    // an exact registration surfaces every stream under the
                    // configured key
                    let surfaced: String = match &self.stream_key {
                        StreamKeyRegistration::Any => stream_name.clone(),
                        StreamKeyRegistration::Exact(configured) => configured.clone(),
                    };
                    self.stream_id_to_name_map.insert(media.stream_id.0.clone(), surfaced);
                    proof {
                        assert(crate::media::smap_view(self.stream_id_to_name_map@)
                            =~= pre.names.insert(
                            media@.stream_id,
                            effective_name(pre, media@.content->NewIncomingStream_stream_name),
                        ));
                        assert(watch_media_sends(pre, media@) =~= Seq::<MediaMessageModel>::empty());
                    }
                },
                MediaNotificationContent::StreamDisconnected => {
                    self.stream_id_to_name_map.remove(media.stream_id.0.as_str());
                    proof {
                        assert(crate::media::smap_view(self.stream_id_to_name_map@)
                            =~= pre.names.remove(media@.stream_id));
                        assert(watch_media_sends(pre, media@) =~= Seq::<MediaMessageModel>::empty());
                    }
                },
                MediaNotificationContent::Metadata { data } => {
                    match self.stream_id_to_name_map.get(media.stream_id.0.as_str()) {
                        None => {},
                        Some(key) => {
                            let message = RtmpEndpointMediaMessage {
                                stream_key: key.clone(),
                                data: RtmpEndpointMediaData::NewStreamMetaData {
                                    metadata: clone_string_map(data),
                                },
                            };
                            outputs.rtmp_media.push(message);
                            proof {
                                assert(outputs.rtmp_media@.map_values(
                                    |m: RtmpEndpointMediaMessage| m@,
                                ) =~= old_sends + watch_media_sends(pre, media@));
                            }
                        },
                    }
                },
                MediaNotificationContent::Video {
                    codec,
                    is_keyframe,
                    is_sequence_header,
                    timestamp_ms,
                    data,
                } => {
                    match self.stream_id_to_name_map.get(media.stream_id.0.as_str()) {
                        None => {},
                        Some(key) => {
                            let ts: u32 = ((*timestamp_ms) % 0x100000000) as u32;
                            let message = RtmpEndpointMediaMessage {
                                stream_key: key.clone(),
                                data: RtmpEndpointMediaData::NewVideoData {
                                    is_keyframe: *is_keyframe,
                                    is_sequence_header: *is_sequence_header,
                                    codec: *codec,
                                    data: clone_bytes(data),
                                    timestamp: ts,
                                },
                            };
                            outputs.rtmp_media.push(message);
                            proof {
                                assert(outputs.rtmp_media@.map_values(
                                    |m: RtmpEndpointMediaMessage| m@,
                                ) =~= old_sends + watch_media_sends(pre, media@));
                            }
                        },
                    }
                },
                MediaNotificationContent::Audio {
                    codec,
                    is_sequence_header,
                    timestamp_ms,
                    data,
                } => {
                    match self.stream_id_to_name_map.get(media.stream_id.0.as_str()) {
                        None => {},
                        Some(key) => {
                            let ts: u32 = ((*timestamp_ms) % 0x100000000) as u32;
                            let message = RtmpEndpointMediaMessage {
                                stream_key: key.clone(),
                                data: RtmpEndpointMediaData::NewAudioData {
                                    is_sequence_header: *is_sequence_header,
                                    codec: *codec,
                                    data: clone_bytes(data),
                                    timestamp: ts,
                                },
                            };
                            outputs.rtmp_media.push(message);
                            proof {
                                assert(outputs.rtmp_media@.map_values(
                                    |m: RtmpEndpointMediaMessage| m@,
                                ) =~= old_sends + watch_media_sends(pre, media@));
                            }
                        },
                    }
                },
            }
        }
        outputs.media.push(media);
        proof {
            assert(outputs.media@.map_values(|m: MediaNotification| m@) =~= old_media.push(
                media@,
            ));
            assert(outputs.rtmp_media@.map_values(|m: RtmpEndpointMediaMessage| m@) =~= old_sends
                + watch_media_sends(pre, media@));
        }
    }

    /// Run the step: consume notifications, then route the incoming media.
    /// A step already in error leaves everything untouched.
    pub fn execute(&mut self, inputs: &mut StepInputs, outputs: &mut StepOutputs)
        requires
            old(self).wf(),
        ensures
            final(self).wf(),
            watch_execute_rel(
                *old(self),
                *final(self),
                *old(inputs),
                *final(inputs),
                *old(outputs),
                *final(outputs),
            ),
    {
        let ghost pre = self.model();
        match self.status {
            StepStatus::Error => {
                return ;
            },
            _ => {},
        }
        let ghost full = inputs.notifications@.map_values(
            |n: crate::steps::StepFutureResult| n@,
        );
        let ghost old_futures = outputs.futures@;
        let mut notifs: Vec<crate::steps::StepFutureResult> = Vec::new();
        core::mem::swap(&mut notifs, &mut inputs.notifications);
        proof {
            assert(notifs@.map_values(|n: crate::steps::StepFutureResult| n@) =~= full);
        }
        let ghost nr_full = watch_run_notifs(pre, full);
        while notifs.len() > 0
            invariant
                self.wf(),
                self.spec_definition() == old(self).spec_definition(),
                inputs.notifications@.len() == 0,
                inputs.media == old(inputs).media,
                outputs.media == old(outputs).media,
                outputs.rtmp_media == old(outputs).rtmp_media,
                pre == old(self).model(),
                old(self).model().status != StepStatus::Error,
                full == old(inputs).notifications@.map_values(
                    |n: crate::steps::StepFutureResult| n@,
                ),
                nr_full == watch_run_notifs(pre, full),
                ({
                    let rem = notifs@.map_values(|n: crate::steps::StepFutureResult| n@);
                    let nr_rem = watch_run_notifs(self.model(), rem);
                    &&& nr_full.0 == nr_rem.0
                    &&& nr_full.2 == nr_rem.2
                    &&& outputs.futures@.len() >= old(outputs).futures@.len()
                    &&& outputs.futures@.take(old(outputs).futures@.len() as int) == old(
                        outputs,
                    ).futures@
                    &&& nr_full.1 == outputs.futures@.skip(old(outputs).futures@.len() as int)
                        + nr_rem.1
                }),
            decreases notifs@.len(),
        {
            let ghost rem = notifs@.map_values(|n: crate::steps::StepFutureResult| n@);
            let notification = notifs.remove(0);
            proof {
                assert(notification@ == rem[0]);
                assert(notifs@.map_values(|n: crate::steps::StepFutureResult| n@)
                    =~= rem.drop_first());
            }
            match notification {
                crate::steps::StepFutureResult::RtmpWatch(fr) => {
                    match fr {
                        RtmpWatchFutureResult::RtmpEndpointGone => {
                            self.status = StepStatus::Error;
                            proof {
                                lemma_futures_prefix(outputs.futures@, old(outputs).futures@);
                            }
                            return ;
                        },
                        RtmpWatchFutureResult::RtmpWatchNotificationReceived(n) => {
                            outputs.futures.push(FutureSpec::WaitRtmpWatcherNotification);
                            self.handle_endpoint_notification(n);
                        },
                    }
                },
                crate::steps::StepFutureResult::RtmpReceive(_) => {
                    self.status = StepStatus::Error;
                    proof {
                        lemma_futures_prefix(outputs.futures@, old(outputs).futures@);
                    }
                    return ;
                },
            }
        }
        proof {
            assert(notifs@.map_values(|n: crate::steps::StepFutureResult| n@)
                =~= Seq::<NotifModel>::empty());
            lemma_futures_prefix(outputs.futures@, old(outputs).futures@);
        }
        // route the incoming media
        let ghost mid = self.model();
        let ghost media_full = inputs.media@.map_values(|m: MediaNotification| m@);
        let ghost mr_full = watch_run_media(mid, media_full);
        let ghost out_media_mid = outputs.media@;
        let ghost out_sends_mid = outputs.rtmp_media@;
        let mut media_in: Vec<MediaNotification> = Vec::new();
        core::mem::swap(&mut media_in, &mut inputs.media);
        proof {
            assert(media_in@.map_values(|m: MediaNotification| m@) =~= media_full);
        }
        while media_in.len() > 0
            invariant
                self.wf(),
                self.spec_definition() == old(self).spec_definition(),
                inputs.notifications@.len() == 0,
                inputs.media@.len() == 0,
                pre == old(self).model(),
                old(self).model().status != StepStatus::Error,
                full == old(inputs).notifications@.map_values(
                    |n: crate::steps::StepFutureResult| n@,
                ),
                nr_full == watch_run_notifs(pre, full),
                !nr_full.2,
                mid == nr_full.0,
                media_full == old(inputs).media@.map_values(|m: MediaNotification| m@),
                out_media_mid == old(outputs).media@,
                out_sends_mid == old(outputs).rtmp_media@,
                mr_full == watch_run_media(mid, media_full),
                ({
                    let rem = media_in@.map_values(|m: MediaNotification| m@);
                    let mr_rem = watch_run_media(self.model(), rem);
                    &&& mr_full.0 == mr_rem.0
                    &&& outputs.media@.len() >= out_media_mid.len()
                    &&& outputs.media@.map_values(|m: MediaNotification| m@).take(
                        out_media_mid.len() as int,
                    ) == out_media_mid.map_values(|m: MediaNotification| m@)
                    &&& media_full == outputs.media@.map_values(|m: MediaNotification| m@).skip(
                        out_media_mid.len() as int,
                    ) + rem
                    &&& outputs.rtmp_media@.len() >= out_sends_mid.len()
                    &&& outputs.rtmp_media@.map_values(|m: RtmpEndpointMediaMessage| m@).take(
                        out_sends_mid.len() as int,
                    ) == out_sends_mid.map_values(|m: RtmpEndpointMediaMessage| m@)
                    &&& mr_full.1 == outputs.rtmp_media@.map_values(
                        |m: RtmpEndpointMediaMessage| m@,
                    ).skip(out_sends_mid.len() as int) + mr_rem.1
                    &&& outputs.futures@ == old(outputs).futures@ + nr_full.1
                }),
            decreases media_in@.len(),
        {
            let ghost rem = media_in@.map_values(|m: MediaNotification| m@);
            let media = media_in.remove(0);
            proof {
                assert(media@ == rem[0]);
                assert(media_in@.map_values(|m: MediaNotification| m@) =~= rem.drop_first());
            }
            let ghost st_before = self.model();
            let ghost prev_media = outputs.media@.map_values(|m: MediaNotification| m@);
            let ghost prev_sends = outputs.rtmp_media@.map_values(
                |m: RtmpEndpointMediaMessage| m@,
            );
            self.handle_media(media, outputs);
            proof {
                let k = out_media_mid.len() as int;
                let ks = out_sends_mid.len() as int;
                let cur_media = outputs.media@.map_values(|m: MediaNotification| m@);
                let cur_sends = outputs.rtmp_media@.map_values(|m: RtmpEndpointMediaMessage| m@);
                assert(cur_media.take(k) =~= prev_media.take(k));
                assert(cur_sends.take(ks) =~= prev_sends.take(ks));
                assert(cur_media.skip(k) =~= prev_media.skip(k).push(rem[0]));
                assert(cur_sends.skip(ks) =~= prev_sends.skip(ks) + watch_media_sends(
                    st_before,
                    rem[0],
                ));
                let mr_rem2 = watch_run_media(
                    self.model(),
                    media_in@.map_values(|m: MediaNotification| m@),
                );
                assert(watch_run_media(st_before, rem).0 == mr_rem2.0);
                assert(watch_run_media(st_before, rem).1 == watch_media_sends(st_before, rem[0])
                    + mr_rem2.1);
                assert(media_full =~= cur_media.skip(k) + rem.drop_first()) by {
                    assert(media_full == prev_media.skip(k) + rem);
                    assert(prev_media.skip(k) + rem =~= (prev_media.skip(k).push(rem[0]))
                        + rem.drop_first());
                }
                assert(mr_full.1 =~= cur_sends.skip(ks) + mr_rem2.1) by {
                    assert(mr_full.1 == prev_sends.skip(ks) + watch_run_media(st_before, rem).1);
                    assert(prev_sends.skip(ks) + (watch_media_sends(st_before, rem[0]) + mr_rem2.1)
                        =~= (prev_sends.skip(ks) + watch_media_sends(st_before, rem[0]))
                        + mr_rem2.1);
                }
            }
        }
        proof {
            assert(media_in@.map_values(|m: MediaNotification| m@) =~= Seq::<MediaModel>::empty());
            lemma_media_prefix(outputs.media@, out_media_mid);
            lemma_sends_prefix(outputs.rtmp_media@, out_sends_mid);
            assert(outputs.media@.map_values(|m: MediaNotification| m@) =~= out_media_mid.map_values(
                |m: MediaNotification| m@,
            ) + media_full);
            assert(outputs.rtmp_media@.map_values(|m: RtmpEndpointMediaMessage| m@)
                =~= out_sends_mid.map_values(|m: RtmpEndpointMediaMessage| m@) + mr_full.1);
        }
    }

    /// Shut down: the status becomes `Shutdown` and the registration is
    /// asked to be removed.
    pub fn shutdown(&mut self) -> (r: RtmpEndpointRequest)
        requires
            old(self).wf(),
        ensures
            final(self).wf(),
            final(self).spec_definition() == old(self).spec_definition(),
            final(self).model() == (WatchModel {
                status: StepStatus::Shutdown,
                ..old(self).model()
            }),
            r is RemoveRegistration,
            r->RemoveRegistration_registration_type == RegistrationType::Watcher,
            r->RemoveRegistration_port == old(self).model().port,
            r->RemoveRegistration_rtmp_app@ == old(self).model().rtmp_app,
            r->RemoveRegistration_rtmp_stream_key@ == old(self).model().stream_key,
    {
        self.status = StepStatus::Shutdown;
        RtmpEndpointRequest::RemoveRegistration {
            registration_type: RegistrationType::Watcher,
            port: self.port,
            rtmp_app: self.rtmp_app.clone(),
            rtmp_stream_key: self.stream_key.clone(),
        }
    }
}


/// What generating a watch step from a parameter map yields.
pub open spec fn spec_watch_generate(params: Map<Seq<char>, Option<Seq<char>>>) -> Result<
    crate::steps::CommonModel,
    crate::steps::StartupErrorModel,
> {
    crate::steps::spec_common_params(params)
}


/// Whether a generated watch step, its futures and its registration
/// realize what the definition asks for.
pub open spec fn watch_generated(
    definition: WorkflowStepDefinition,
    t: (crate::steps::Step, Vec<FutureSpec>, Vec<RtmpEndpointRequest>),
) -> bool {
    let pm = crate::config::omap_view(definition.parameters@);
    spec_watch_generate(pm) matches Ok(m) && {
        &&& t.0 is RtmpWatch
        &&& t.0.wf()
        &&& t.0.spec_definition() == definition
        &&& t.0->RtmpWatch_0.model() == (WatchModel {
            status: StepStatus::Created,
            port: m.port,
            rtmp_app: m.rtmp_app,
            stream_key: m.stream_key,
            names: Map::empty(),
        })
        &&& t.1@ == seq![FutureSpec::WaitRtmpWatcherNotification]
        &&& t.2@.len() == 1
        &&& t.2@[0] is ListenForWatchers
        &&& t.2@[0]->ListenForWatchers_port == m.port
        &&& t.2@[0]->ListenForWatchers_rtmp_app@ == m.rtmp_app
        &&& t.2@[0]->ListenForWatchers_rtmp_stream_key@ == m.stream_key
        &&& t.2@[0]->ListenForWatchers_ip_restrictions@ == crate::steps::spec_restriction(
            m.allowed,
            m.denied,
        )
        &&& t.2@[0]->ListenForWatchers_use_tls == m.use_rtmps
    }
}

impl RtmpWatchStep {
    /// Build a watch step from a definition.  On success the step starts
    /// `Created` tracking no streams, one future awaits the endpoint's
    /// first notification, and one registration request asks the endpoint
    /// to listen for watchers.
    pub fn new(definition: WorkflowStepDefinition) -> (r: Result<
        (crate::steps::Step, Vec<FutureSpec>, Vec<RtmpEndpointRequest>),
        crate::steps::StepStartupError,
    >)
        requires
            definition.wf(),
        ensures
            match r {
                Ok(t) => watch_generated(definition, t),
                Err(e) => spec_watch_generate(crate::config::omap_view(definition.parameters@))
                    == Err::<crate::steps::CommonModel, crate::steps::StartupErrorModel>(e@),
            },
    {
        let common = match crate::steps::read_common_params(&definition) {
            Ok(c) => c,
            Err(e) => {
                return Err(e);
            },
        };
        let step = RtmpWatchStep {
            definition,
            port: common.port,
            rtmp_app: common.rtmp_app.clone(),
            stream_key: common.stream_key.clone(),
            status: StepStatus::Created,
            stream_id_to_name_map: StrMap::new(),
        };
        let request = RtmpEndpointRequest::ListenForWatchers {
            port: common.port,
            rtmp_app: common.rtmp_app,
            rtmp_stream_key: common.stream_key,
            ip_restrictions: common.ip_restrictions,
            use_tls: common.use_rtmps,
        };
        let mut futures: Vec<FutureSpec> = Vec::new();
        futures.push(FutureSpec::WaitRtmpWatcherNotification);
        let mut requests: Vec<RtmpEndpointRequest> = Vec::new();
        requests.push(request);
        proof {
            assert(crate::media::smap_view(step.stream_id_to_name_map@) =~= Map::<
                Seq<char>,
                Seq<char>,
            >::empty());
            assert(futures@ =~= seq![FutureSpec::WaitRtmpWatcherNotification]);
        }
        Ok((crate::steps::Step::RtmpWatch(step), futures, requests))
    }
}

proof fn lemma_futures_prefix(cur: Seq<FutureSpec>, pre: Seq<FutureSpec>)
    requires
        cur.len() >= pre.len(),
        cur.take(pre.len() as int) == pre,
    ensures
        cur == pre + cur.skip(pre.len() as int),
{
    assert(cur =~= pre + cur.skip(pre.len() as int));
}

proof fn lemma_media_prefix(cur: Seq<MediaNotification>, pre: Seq<MediaNotification>)
    requires
        cur.len() >= pre.len(),
        cur.map_values(|m: MediaNotification| m@).take(pre.len() as int) == pre.map_values(
            |m: MediaNotification| m@,
        ),
    ensures
        cur.map_values(|m: MediaNotification| m@) == pre.map_values(|m: MediaNotification| m@)
            + cur.map_values(|m: MediaNotification| m@).skip(pre.len() as int),
{
    let cv = cur.map_values(|m: MediaNotification| m@);
    let pv = pre.map_values(|m: MediaNotification| m@);
    assert(cv =~= pv + cv.skip(pre.len() as int));
}

proof fn lemma_sends_prefix(cur: Seq<RtmpEndpointMediaMessage>, pre: Seq<RtmpEndpointMediaMessage>)
    requires
        cur.len() >= pre.len(),
        cur.map_values(|m: RtmpEndpointMediaMessage| m@).take(pre.len() as int) == pre.map_values(
            |m: RtmpEndpointMediaMessage| m@,
        ),
    ensures
        cur.map_values(|m: RtmpEndpointMediaMessage| m@) == pre.map_values(
            |m: RtmpEndpointMediaMessage| m@,
        ) + cur.map_values(|m: RtmpEndpointMediaMessage| m@).skip(pre.len() as int),
{
    let cv = cur.map_values(|m: RtmpEndpointMediaMessage| m@);
    let pv = pre.map_values(|m: RtmpEndpointMediaMessage| m@);
    assert(cv =~= pv + cv.skip(pre.len() as int));
}

} // verus!
