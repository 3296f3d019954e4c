//! The RTMP receive step: registers with the RTMP server endpoint so
//! publishers can connect on a port, application name and stream key, and
//! forwards the media they send to the following steps.  Media arriving from
//! previous steps is ignored.

use vstd::prelude::*;
use crate::collections::StrMap;
use crate::config::omap_view;
use crate::definitions::WorkflowStepDefinition;
use crate::endpoints::IpAddress;
use crate::endpoints::IpRestriction;
use crate::endpoints::KeyRegModel;
use crate::endpoints::PublisherMessageModel;
use crate::endpoints::RestrictionModel;
use crate::endpoints::RtmpEndpointPublisherMessage;
use crate::endpoints::RtmpEndpointRequest;
use crate::endpoints::RegistrationType;
use crate::endpoints::StreamKeyRegistration;
use crate::endpoints::spec_parse_ip_list;
use crate::media::ContentModel;
use crate::media::MediaModel;
use crate::media::MediaNotification;
use crate::media::MediaNotificationContent;
use crate::media::StreamId;
use crate::steps::FutureSpec;
use crate::steps::NotifModel;
use crate::steps::StepInputs;
use crate::steps::StepOutputs;
use crate::steps::StepStartupError;
use crate::steps::StepStatus;
use crate::steps::StartupErrorModel;
use crate::strutil::spec_parse_u16;
use crate::strutil::spec_trim;
use crate::strutil::trim_string;
use crate::strutil::parse_u16;

verus! {

pub const PORT_PROPERTY_NAME: &'static str = "port";

pub const APP_PROPERTY_NAME: &'static str = "rtmp_app";

pub const STREAM_KEY_PROPERTY_NAME: &'static str = "stream_key";

pub const IP_ALLOW_PROPERTY_NAME: &'static str = "allow_ips";

pub const IP_DENY_PROPERTY_NAME: &'static str = "deny_ips";

pub const RTMPS_FLAG: &'static str = "rtmps";

/// A resolved future of a receive step.
pub enum RtmpReceiveFutureResult {
    RtmpEndpointResponseReceived(RtmpEndpointPublisherMessage),
    RtmpEndpointGone,
}

/// Mathematical mirror of `RtmpReceiveFutureResult`.
pub enum ReceiveNotifModel {
    ResponseReceived(PublisherMessageModel),
    EndpointGone,
}

impl View for RtmpReceiveFutureResult {
    type V = ReceiveNotifModel;

    open spec fn view(&self) -> ReceiveNotifModel {
        match self {
            RtmpReceiveFutureResult::RtmpEndpointResponseReceived(m) => ReceiveNotifModel::ResponseReceived(
                m@,
            ),
            RtmpReceiveFutureResult::RtmpEndpointGone => ReceiveNotifModel::EndpointGone,
        }
    }
}

/// Builds receive steps from step definitions.
pub struct RtmpReceiverStepGenerator {}

/// One receive step instance.
pub struct RtmpReceiverStep {
    definition: WorkflowStepDefinition,
    port: u16,
    rtmp_app: String,
    stream_key: StreamKeyRegistration,
    status: StepStatus,
    connection_stream_id_map: StrMap<StreamId>,
}

/// Mathematical mirror of a receive step's state.
pub struct ReceiverModel {
    pub status: StepStatus,
    pub port: u16,
    pub rtmp_app: Seq<char>,
    pub stream_key: KeyRegModel,
    /// connection id -> stream id of the stream it publishes
    pub connections: Map<Seq<char>, Seq<char>>,
}

/// The view of a connection-to-stream map.
pub open spec fn sidmap_view(m: Map<Seq<char>, StreamId>) -> Map<Seq<char>, Seq<char>> {
    Map::new(|k: Seq<char>| m.dom().contains(k), |k: Seq<char>| m[k]@)
}

impl RtmpReceiverStep {
    pub closed spec fn wf(&self) -> bool {
        &&& self.connection_stream_id_map.wf()
        &&& self.definition.wf()
    }

    pub closed spec fn model(&self) -> ReceiverModel {
        ReceiverModel {
            status: self.status,
            port: self.port,
            rtmp_app: self.rtmp_app@,
            stream_key: self.stream_key@,
            connections: sidmap_view(self.connection_stream_id_map@),
        }
    }

    pub closed spec fn spec_definition(&self) -> WorkflowStepDefinition {
        self.definition
    }

    pub fn get_status(&self) -> (r: StepStatus)
        ensures
            r == self.model().status,
    {
        self.status
    }

    pub fn get_definition(&self) -> (r: &WorkflowStepDefinition)
        ensures
            *r == self.spec_definition(),
    {
        &self.definition
    }
}

/// What one endpoint message does to the step's state.
pub open spec fn pub_msg_next(st: ReceiverModel, m: PublisherMessageModel) -> ReceiverModel {
    match m {
        PublisherMessageModel::PublisherRegistrationFailed => ReceiverModel {
            status: StepStatus::Error,
            ..st
        },
        PublisherMessageModel::PublisherRegistrationSuccessful => ReceiverModel {
            status: StepStatus::Active,
            ..st
        },
        PublisherMessageModel::NewPublisherConnected { stream_id, connection_id, .. } => ReceiverModel {
            connections: st.connections.insert(connection_id, stream_id),
            ..st
        },
        PublisherMessageModel::PublishingStopped { connection_id } => {
            if st.connections.contains_key(connection_id) {
                ReceiverModel { connections: st.connections.remove(connection_id), ..st }
            } else {
                st
            }
        },
        _ => st,
    }
}

/// What one endpoint message makes the step emit downstream.
pub open spec fn pub_msg_media(st: ReceiverModel, m: PublisherMessageModel) -> Seq<MediaModel> {
    match m {
        PublisherMessageModel::NewPublisherConnected {
            stream_id,
            stream_key,
            ..
        } => seq![
            MediaModel {
                stream_id,
                content: ContentModel::NewIncomingStream { stream_name: stream_key },
            },
        ],
        PublisherMessageModel::PublishingStopped { connection_id } => {
            if st.connections.contains_key(connection_id) {
                seq![
                    MediaModel {
                        stream_id: st.connections[connection_id],
                        content: ContentModel::StreamDisconnected,
                    },
                ]
            } else {
                Seq::empty()
            }
        },
        PublisherMessageModel::StreamMetadataChanged { publisher, metadata } => {
            if st.connections.contains_key(publisher) {
                seq![
                    MediaModel {
                        stream_id: st.connections[publisher],
                        content: ContentModel::Metadata { data: metadata },
                    },
                ]
            } else {
                Seq::empty()
            }
        },
        PublisherMessageModel::NewVideoData {
            publisher,
            codec,
            is_keyframe,
            is_sequence_header,
            data,
            timestamp,
        } => {
            if st.connections.contains_key(publisher) {
                seq![
                    MediaModel {
                        stream_id: st.connections[publisher],
                        content: ContentModel::Video {
                            codec,
                            is_keyframe,
                            is_sequence_header,
                            timestamp_ms: timestamp as u64,
                            data,
                        },
                    },
                ]
            } else {
                Seq::empty()
            }
        },
        PublisherMessageModel::NewAudioData {
            publisher,
            codec,
            is_sequence_header,
            data,
            timestamp,
        } => {
            if st.connections.contains_key(publisher) {
                seq![
                    MediaModel {
                        stream_id: st.connections[publisher],
                        content: ContentModel::Audio {
                            codec,
                            is_sequence_header,
                            timestamp_ms: timestamp as u64,
                            data,
                        },
                    },
                ]
            } else {
                Seq::empty()
            }
        },
        _ => Seq::empty(),
    }
}

/// Folding the step over its pending notifications: the state it reaches,
/// the media it emits, and the futures it re-arms.  A gone endpoint or a
/// notification of the wrong variant puts the step in error and stops the
/// fold.
pub open spec fn receive_run(st: ReceiverModel, ns: Seq<NotifModel>) -> (
    ReceiverModel,
    Seq<MediaModel>,
    Seq<FutureSpec>,
)
    decreases ns.len(),
{
    if ns.len() == 0 {
        (st, Seq::empty(), Seq::empty())
    } else {
        match ns[0] {
            NotifModel::RtmpReceive(ReceiveNotifModel::ResponseReceived(m)) => {
                let rest = receive_run(pub_msg_next(st, m), ns.drop_first());
                (
                    rest.0,
                    pub_msg_media(st, m) + rest.1,
                    seq![FutureSpec::WaitRtmpPublisherMessage] + rest.2,
                )
            },
            _ => (ReceiverModel { status: StepStatus::Error, ..st }, Seq::empty(), Seq::empty()),
        }
    }
}

/// How one `execute` call relates the step, its inputs and its outputs.
pub open spec fn receive_execute_rel(
    pre: RtmpReceiverStep,
    post: RtmpReceiverStep,
    old_in: StepInputs,
    new_in: StepInputs,
    old_out: StepOutputs,
    new_out: StepOutputs,
) -> bool {
    let run = receive_run(pre.model(), old_in.notifications@.map_values(|n: crate::steps::StepFutureResult| n@));
    &&& post.model() == run.0
    &&& post.spec_definition() == pre.spec_definition()
    &&& new_in.notifications@.len() == 0
    &&& new_in.media == old_in.media
    &&& new_out.media@.map_values(|m: MediaNotification| m@) == old_out.media@.map_values(
        |m: MediaNotification| m@,
    ) + run.1
    &&& new_out.futures@ == old_out.futures@ + run.2
    &&& new_out.rtmp_media == old_out.rtmp_media
}

impl RtmpReceiverStep {
    /// Apply one message from the RTMP endpoint: registration results move
    /// the status, publisher events map to media notifications for the
    /// streams the connections publish.
    fn handle_rtmp_publisher_message(
        &mut self,
        outputs: &mut StepOutputs,
        message: RtmpEndpointPublisherMessage,
    )
        requires
            old(self).wf(),
        ensures
            final(self).wf(),
            final(self).model() == pub_msg_next(old(self).model(), message@),
            final(self).spec_definition() == old(self).spec_definition(),
            final(outputs).media@.map_values(|m: MediaNotification| m@) == old(
                outputs,
            ).media@.map_values(|m: MediaNotification| m@) + pub_msg_media(
                old(self).model(),
                message@,
            ),
            final(outputs).futures == old(outputs).futures,
            final(outputs).rtmp_media == old(outputs).rtmp_media,
    {
        let ghost pre = self.model();
        let ghost old_media = outputs.media@.map_values(|m: MediaNotification| m@);
        match message {
            RtmpEndpointPublisherMessage::PublisherRegistrationFailed => {
                self.status = StepStatus::Error;
                proof {
                    assert(outputs.media@.map_values(|m: MediaNotification| m@) =~= old_media
                        + pub_msg_media(pre, message@));
                }
            },
            RtmpEndpointPublisherMessage::PublisherRegistrationSuccessful => {
                self.status = StepStatus::Active;
                proof {
                    assert(outputs.media@.map_values(|m: MediaNotification| m@) =~= old_media
                        + pub_msg_media(pre, message@));
                }
            },
            RtmpEndpointPublisherMessage::NewPublisherConnected {
                stream_id,
                connection_id,
                stream_key,
            } => {
                let sid_copy = stream_id.clone();
                self.connection_stream_id_map.insert(connection_id.0, sid_copy);
                outputs.media.push(
                    MediaNotification {
                        stream_id,
                        content: MediaNotificationContent::NewIncomingStream {
                            stream_name: stream_key,
                        },
                    },
                );
                proof {
                    assert(sidmap_view(self.connection_stream_id_map@) =~= pre.connections.insert(
                        message@->NewPublisherConnected_connection_id,
                        message@->NewPublisherConnected_stream_id,
                    ));
                    assert(outputs.media@.map_values(|m: MediaNotification| m@) =~= old_media
                        + pub_msg_media(pre, message@));
                }
            },
            RtmpEndpointPublisherMessage::PublishingStopped { connection_id } => {
                match self.connection_stream_id_map.remove(connection_id.0.as_str()) {
                    None => {
                        proof {
                            assert(sidmap_view(self.connection_stream_id_map@) =~= pre.connections);
                            assert(outputs.media@.map_values(|m: MediaNotification| m@)
                                =~= old_media + pub_msg_media(pre, message@));
                        }
                    },
                    Some(stream_id) => {
                        outputs.media.push(
                            MediaNotification {
                                stream_id,
                                content: MediaNotificationContent::StreamDisconnected,
                            },
                        );
                        proof {
                            assert(sidmap_view(self.connection_stream_id_map@)
                                =~= pre.connections.remove(
                                message@->PublishingStopped_connection_id,
                            ));
                            assert(outputs.media@.map_values(|m: MediaNotification| m@)
                                =~= old_media + pub_msg_media(pre, message@));
                        }
                    },
                }
            },
            RtmpEndpointPublisherMessage::StreamMetadataChanged { publisher, metadata } => {
                match self.connection_stream_id_map.get(publisher.0.as_str()) {
                    None => {
                        proof {
                            assert(outputs.media@.map_values(|m: MediaNotification| m@)
                                =~= old_media + pub_msg_media(pre, message@));
                        }
                    },
                    Some(stream_id) => {
                        let sid = stream_id.clone();
                        outputs.media.push(
                            MediaNotification {
                                stream_id: sid,
                                content: MediaNotificationContent::Metadata { data: metadata },
                            },
                        );
                        proof {
                            assert(outputs.media@.map_values(|m: MediaNotification| m@)
                                =~= old_media + pub_msg_media(pre, message@));
                        }
                    },
                }
            },
            RtmpEndpointPublisherMessage::NewVideoData {
                publisher,
                codec,
                is_keyframe,
                is_sequence_header,
                data,
                timestamp,
            } => {
                match self.connection_stream_id_map.get(publisher.0.as_str()) {
                    None => {
                        proof {
                            assert(outputs.media@.map_values(|m: MediaNotification| m@)
                                =~= old_media + pub_msg_media(pre, message@));
                        }
                    },
                    Some(stream_id) => {
                        let sid = stream_id.clone();
                        outputs.media.push(
                            MediaNotification {
                                stream_id: sid,
                                content: MediaNotificationContent::Video {
                                    codec,
                                    is_keyframe,
                                    is_sequence_header,
                                    timestamp_ms: timestamp as u64,
                                    data,
                                },
                            },
                        );
                        proof {
                            assert(outputs.media@.map_values(|m: MediaNotification| m@)
                                =~= old_media + pub_msg_media(pre, message@));
                        }
                    },
                }
            },
            RtmpEndpointPublisherMessage::NewAudioData {
                publisher,
                codec,
                is_sequence_header,
                data,
                timestamp,
            } => {
                match self.connection_stream_id_map.get(publisher.0.as_str()) {
                    None => {
                        proof {
                            assert(outputs.media@.map_values(|m: MediaNotification| m@)
                                =~= old_media + pub_msg_media(pre, message@));
                        }
                    },
                    Some(stream_id) => {
                        let sid = stream_id.clone();
                        outputs.media.push(
                            MediaNotification {
                                stream_id: sid,
                                content: MediaNotificationContent::Audio {
                                    codec,
                                    is_sequence_header,
                                    timestamp_ms: timestamp as u64,
                                    data,
                                },
                            },
                        );
                        proof {
                            assert(outputs.media@.map_values(|m: MediaNotification| m@)
                                =~= old_media + pub_msg_media(pre, message@));
                        }
                    },
                }
            },
        }
    }

    /// Run the step: consume every pending notification in order, re-arming
    /// the endpoint wait after each message.  Incoming media is ignored.
    pub fn execute(&mut self, inputs: &mut StepInputs, outputs: &mut StepOutputs)
        requires
            old(self).wf(),
        ensures
            final(self).wf(),
            receive_execute_rel(
                *old(self),
                *final(self),
                *old(inputs),
                *final(inputs),
                *old(outputs),
                *final(outputs),
            ),
    {
        let ghost pre = self.model();
        let ghost full = inputs.notifications@.map_values(
            |n: crate::steps::StepFutureResult| n@,
        );
        let ghost old_media = outputs.media@.map_values(|m: MediaNotification| m@);
        let ghost old_futures = outputs.futures@;
        let mut notifs: Vec<crate::steps::StepFutureResult> = Vec::new();
        core::mem::swap(&mut notifs, &mut inputs.notifications);
        proof {
            assert(notifs@.map_values(|n: crate::steps::StepFutureResult| n@) =~= full);
        }
        let ghost run_full = receive_run(pre, full);
        while notifs.len() > 0
            invariant
                self.wf(),
                self.spec_definition() == old(self).spec_definition(),
                inputs.notifications@.len() == 0,
                inputs.media == old(inputs).media,
                outputs.rtmp_media == old(outputs).rtmp_media,
                pre == old(self).model(),
                full == old(inputs).notifications@.map_values(
                    |n: crate::steps::StepFutureResult| n@,
                ),
                run_full == receive_run(pre, full),
                ({
                    let rem = notifs@.map_values(|n: crate::steps::StepFutureResult| n@);
                    let run_rem = receive_run(self.model(), rem);
                    &&& run_full.0 == run_rem.0
                    &&& run_full.1 == outputs.media@.map_values(|m: MediaNotification| m@).skip(
                        old(outputs).media@.len() as int,
                    ) + run_rem.1
                    &&& run_full.2 == outputs.futures@.skip(old(outputs).futures@.len() as int)
                        + run_rem.2
                    &&& outputs.media@.len() >= old(outputs).media@.len()
                    &&& outputs.futures@.len() >= old(outputs).futures@.len()
                    &&& outputs.media@.map_values(|m: MediaNotification| m@).take(
                        old(outputs).media@.len() as int,
                    ) == old(outputs).media@.map_values(|m: MediaNotification| m@)
                    &&& outputs.futures@.take(old(outputs).futures@.len() as int) == old(
                        outputs,
                    ).futures@
                }),
            decreases notifs@.len(),
        {
            let ghost rem = notifs@.map_values(|n: crate::steps::StepFutureResult| n@);
            let notification = notifs.remove(0);
            proof {
                assert(notification@ == rem[0]);
                assert(notifs@.map_values(|n: crate::steps::StepFutureResult| n@)
                    =~= rem.drop_first());
            }
            match notification {
                crate::steps::StepFutureResult::RtmpReceive(fr) => {
                    match fr {
                        RtmpReceiveFutureResult::RtmpEndpointGone => {
                            self.status = StepStatus::Error;
                            proof {
                                lemma_prefix_concat_media(outputs.media@, old(outputs).media@);
                                lemma_prefix_concat_futures(outputs.futures@, old(outputs).futures@);
                            }
                            return ;
                        },
                        RtmpReceiveFutureResult::RtmpEndpointResponseReceived(message) => {
                            outputs.futures.push(FutureSpec::WaitRtmpPublisherMessage);
                            let ghost st_before = self.model();
                            self.handle_rtmp_publisher_message(outputs, message);
                            proof {
                                let acc_m = outputs.media@.map_values(
                                    |m: MediaNotification| m@,
                                ).skip(old(outputs).media@.len() as int);
                                let acc_f = outputs.futures@.skip(
                                    old(outputs).futures@.len() as int,
                                );
                                let run_rem2 = receive_run(
                                    self.model(),
                                    notifs@.map_values(|n: crate::steps::StepFutureResult| n@),
                                );
                                assert(receive_run(st_before, rem).0 == run_rem2.0);
                                assert(receive_run(st_before, rem).1 == pub_msg_media(
                                    st_before,
                                    message@,
                                ) + run_rem2.1);
                                assert(receive_run(st_before, rem).2 == seq![
                                    FutureSpec::WaitRtmpPublisherMessage,
                                ] + run_rem2.2);
                            }
                        },
                    }
                },
                crate::steps::StepFutureResult::RtmpWatch(_) => {
                    self.status = StepStatus::Error;
                    proof {
                        lemma_prefix_concat_media(outputs.media@, old(outputs).media@);
                        lemma_prefix_concat_futures(outputs.futures@, old(outputs).futures@);
                    }
                    return ;
                },
            }
        }
        proof {
            assert(notifs@.map_values(|n: crate::steps::StepFutureResult| n@)
                =~= Seq::<NotifModel>::empty());
            lemma_prefix_concat_media(outputs.media@, old(outputs).media@);
            lemma_prefix_concat_futures(outputs.futures@, old(outputs).futures@);
        }
    }

    /// Shut down: the status becomes `Shutdown` and the registration is
    /// asked to be removed.
    pub fn shutdown(&mut self) -> (r: RtmpEndpointRequest)
        requires
            old(self).wf(),
        ensures
            final(self).wf(),
            final(self).spec_definition() == old(self).spec_definition(),
            final(self).model() == (ReceiverModel {
                status: StepStatus::Shutdown,
                ..old(self).model()
            }),
            r is RemoveRegistration,
            r->RemoveRegistration_registration_type == RegistrationType::Publisher,
            r->RemoveRegistration_port == old(self).model().port,
            r->RemoveRegistration_rtmp_app@ == old(self).model().rtmp_app,
            r->RemoveRegistration_rtmp_stream_key@ == old(self).model().stream_key,
    {
        self.status = StepStatus::Shutdown;
        RtmpEndpointRequest::RemoveRegistration {
            registration_type: RegistrationType::Publisher,
            port: self.port,
            rtmp_app: self.rtmp_app.clone(),
            rtmp_stream_key: self.stream_key.clone(),
        }
    }
}


/// What generating a receive step from a parameter map yields: the step's
/// initial state, or the startup error.
pub open spec fn spec_receive_generate(params: Map<Seq<char>, Option<Seq<char>>>) -> Result<
    crate::steps::CommonModel,
    StartupErrorModel,
> {
    crate::steps::spec_common_params(params)
}


/// Whether a generated receive step, its futures and its registration
/// realize what the definition asks for.
pub open spec fn receive_generated(
    definition: WorkflowStepDefinition,
    t: (crate::steps::Step, Vec<FutureSpec>, Vec<RtmpEndpointRequest>),
) -> bool {
    let pm = crate::config::omap_view(definition.parameters@);
    spec_receive_generate(pm) matches Ok(m) && {
        &&& t.0 is RtmpReceive
        &&& t.0.wf()
        &&& t.0.spec_definition() == definition
        &&& t.0->RtmpReceive_0.model() == (ReceiverModel {
            status: StepStatus::Created,
            port: m.port,
            rtmp_app: m.rtmp_app,
            stream_key: m.stream_key,
            connections: Map::empty(),
        })
        &&& t.1@ == seq![FutureSpec::WaitRtmpPublisherMessage]
        &&& t.2@.len() == 1
        &&& t.2@[0] is ListenForPublishers
        &&& t.2@[0]->ListenForPublishers_port == m.port
        &&& t.2@[0]->ListenForPublishers_rtmp_app@ == m.rtmp_app
        &&& t.2@[0]->ListenForPublishers_rtmp_stream_key@ == m.stream_key
        &&& t.2@[0]->ListenForPublishers_stream_id is None
        &&& t.2@[0]->ListenForPublishers_ip_restrictions@ == crate::steps::spec_restriction(
            m.allowed,
            m.denied,
        )
        &&& t.2@[0]->ListenForPublishers_use_tls == m.use_rtmps
    }
}

impl RtmpReceiverStepGenerator {
    pub fn new() -> (r: Self) {
        RtmpReceiverStepGenerator {  }
    }

    /// Build a receive step from a definition.  On success the step starts
    /// `Created` with no connections, one future awaits the endpoint's
    /// first message, and one registration request asks the endpoint to
    /// listen for publishers.
    pub fn generate(&self, definition: WorkflowStepDefinition) -> (r: Result<
        (crate::steps::Step, Vec<FutureSpec>, Vec<RtmpEndpointRequest>),
        StepStartupError,
    >)
        requires
            definition.wf(),
        ensures
            match r {
                Ok(t) => receive_generated(definition, t),
                Err(e) => spec_receive_generate(crate::config::omap_view(definition.parameters@))
                    == Err::<crate::steps::CommonModel, StartupErrorModel>(e@),
            },
    {
        let common = match crate::steps::read_common_params(&definition) {
            Ok(c) => c,
            Err(e) => {
                return Err(e);
            },
        };
        let step = RtmpReceiverStep {
            definition,
            port: common.port,
            rtmp_app: common.rtmp_app.clone(),
            stream_key: common.stream_key.clone(),
            status: StepStatus::Created,
            connection_stream_id_map: StrMap::new(),
        };
        let request = RtmpEndpointRequest::ListenForPublishers {
            port: common.port,
            rtmp_app: common.rtmp_app,
            rtmp_stream_key: common.stream_key,
            stream_id: None,
            ip_restrictions: common.ip_restrictions,
            use_tls: common.use_rtmps,
        };
        let mut futures: Vec<FutureSpec> = Vec::new();
        futures.push(FutureSpec::WaitRtmpPublisherMessage);
        let mut requests: Vec<RtmpEndpointRequest> = Vec::new();
        requests.push(request);
        proof {
            assert(sidmap_view(step.connection_stream_id_map@) =~= Map::<Seq<char>, Seq<char>>::empty());
            assert(futures@ =~= seq![FutureSpec::WaitRtmpPublisherMessage]);
        }
        Ok((crate::steps::Step::RtmpReceive(step), futures, requests))
    }
}

proof fn lemma_prefix_concat_media(cur: Seq<MediaNotification>, pre: Seq<MediaNotification>)
    requires
        cur.len() >= pre.len(),
        cur.map_values(|m: MediaNotification| m@).take(pre.len() as int) == pre.map_values(
            |m: MediaNotification| m@,
        ),
    ensures
        cur.map_values(|m: MediaNotification| m@) == pre.map_values(|m: MediaNotification| m@)
            + cur.map_values(|m: MediaNotification| m@).skip(pre.len() as int),
{
    let cv = cur.map_values(|m: MediaNotification| m@);
    let pv = pre.map_values(|m: MediaNotification| m@);
    assert(cv =~= pv + cv.skip(pre.len() as int));
}

proof fn lemma_prefix_concat_futures(cur: Seq<FutureSpec>, pre: Seq<FutureSpec>)
    requires
        cur.len() >= pre.len(),
        cur.take(pre.len() as int) == pre,
    ensures
        cur == pre + cur.skip(pre.len() as int),
{
    assert(cur =~= pre + cur.skip(pre.len() as int));
}

} // verus!
