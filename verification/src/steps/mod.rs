//! Workflow steps: the capability set every step honors (status, definition,
//! execute, shutdown), the values steps exchange with the runner, and the
//! step factory.  Steps are tagged variants: each step type is one arm of
//! `Step`, and its logic is verified.

pub mod rtmp_receive;
pub mod rtmp_watch;
pub mod factory;
pub mod external_stream_handler;

use vstd::prelude::*;
use crate::definitions::WorkflowStepDefinition;
use crate::endpoints::RtmpEndpointMediaMessage;
use crate::endpoints::RtmpEndpointRequest;
use crate::media::MediaNotification;
use crate::steps::rtmp_receive::RtmpReceiveFutureResult;
use crate::steps::rtmp_receive::RtmpReceiverStep;
use crate::steps::rtmp_watch::RtmpWatchFutureResult;
use crate::steps::rtmp_watch::RtmpWatchStep;

verus! {

#[derive(Clone, Copy, PartialEq, Eq, Structural, Debug)]
pub enum StepStatus {
    Created,
    Active,
    Error,
    Shutdown,
}

/// Asynchronous work a step asks the runner to schedule.  The runner hands
/// it out; its resolution comes back as a `StepFutureResult`.
#[derive(Clone, Copy, PartialEq, Eq, Structural, Debug)]
pub enum FutureSpec {
    /// Await the next message of the step's publisher registration.
    WaitRtmpPublisherMessage,
    /// Await the next notification of the step's watcher registration.
    WaitRtmpWatcherNotification,
}

/// A resolved future delivered back to a step, tagged by the step type it
/// belongs to.  A step handed a result of the wrong variant treats it as an
/// error, as it would a value it cannot downcast.
pub enum StepFutureResult {
    RtmpReceive(RtmpReceiveFutureResult),
    RtmpWatch(RtmpWatchFutureResult),
}

/// Mathematical mirror of `StepFutureResult`.
pub enum NotifModel {
    RtmpReceive(crate::steps::rtmp_receive::ReceiveNotifModel),
    RtmpWatch(crate::steps::rtmp_watch::WatchNotifModel),
}

impl View for StepFutureResult {
    type V = NotifModel;

    open spec fn view(&self) -> NotifModel {
        match self {
            StepFutureResult::RtmpReceive(n) => NotifModel::RtmpReceive(n@),
            StepFutureResult::RtmpWatch(n) => NotifModel::RtmpWatch(n@),
        }
    }
}

/// What the runner feeds a step on one `execute` call.
pub struct StepInputs {
    pub notifications: Vec<StepFutureResult>,
    pub media: Vec<MediaNotification>,
}

/// What a step produces on one `execute` call.  Media flows to the next
/// step; futures go to the runner's scheduler; endpoint media goes out to
/// the step's RTMP endpoint.
pub struct StepOutputs {
    pub media: Vec<MediaNotification>,
    pub futures: Vec<FutureSpec>,
    pub rtmp_media: Vec<RtmpEndpointMediaMessage>,
}

impl StepInputs {
    pub fn new() -> (r: Self)
        ensures
            r.notifications@.len() == 0,
            r.media@.len() == 0,
    {
        StepInputs { notifications: Vec::new(), media: Vec::new() }
    }

    pub fn clear(&mut self)
        ensures
            final(self).notifications@.len() == 0,
            final(self).media@.len() == 0,
    {
        self.notifications.clear();
        self.media.clear();
    }
}

impl StepOutputs {
    pub fn new() -> (r: Self)
        ensures
            r.media@.len() == 0,
            r.futures@.len() == 0,
            r.rtmp_media@.len() == 0,
    {
        StepOutputs { media: Vec::new(), futures: Vec::new(), rtmp_media: Vec::new() }
    }

    pub fn clear(&mut self)
        ensures
            final(self).media@.len() == 0,
            final(self).futures@.len() == 0,
            final(self).rtmp_media@.len() == 0,
    {
        self.media.clear();
        self.futures.clear();
        self.rtmp_media.clear();
    }
}

/// Why a step could not be built from its definition.
#[derive(Debug)]
pub enum StepStartupError {
    NoRtmpAppSpecified,
    NoStreamKeySpecified,
    InvalidPortSpecified(String),
    InvalidIpAddressSpecified(crate::endpoints::IpAddressParseError),
    BothDenyAndAllowIpRestrictionsSpecified,
}

/// Mathematical mirror of `StepStartupError`.
pub enum StartupErrorModel {
    NoRtmpAppSpecified,
    NoStreamKeySpecified,
    InvalidPortSpecified(Seq<char>),
    InvalidIpAddressSpecified,
    BothDenyAndAllowIpRestrictionsSpecified,
}

impl View for StepStartupError {
    type V = StartupErrorModel;

    open spec fn view(&self) -> StartupErrorModel {
        match self {
            StepStartupError::NoRtmpAppSpecified => StartupErrorModel::NoRtmpAppSpecified,
            StepStartupError::NoStreamKeySpecified => StartupErrorModel::NoStreamKeySpecified,
            StepStartupError::InvalidPortSpecified(s) => StartupErrorModel::InvalidPortSpecified(
                s@,
            ),
            StepStartupError::InvalidIpAddressSpecified(_) => StartupErrorModel::InvalidIpAddressSpecified,
            StepStartupError::BothDenyAndAllowIpRestrictionsSpecified => StartupErrorModel::BothDenyAndAllowIpRestrictionsSpecified,
        }
    }
}

/// One workflow step.  Every step type the factory can build is an arm.
pub enum Step {
    RtmpReceive(RtmpReceiverStep),
    RtmpWatch(RtmpWatchStep),
}

impl Step {
    pub open spec fn wf(&self) -> bool {
        match self {
            Step::RtmpReceive(s) => s.wf(),
            Step::RtmpWatch(s) => s.wf(),
        }
    }

    /// The definition the step was built from.
    pub open spec fn spec_definition(&self) -> WorkflowStepDefinition {
        match self {
            Step::RtmpReceive(s) => s.spec_definition(),
            Step::RtmpWatch(s) => s.spec_definition(),
        }
    }

    pub open spec fn spec_status(&self) -> StepStatus {
        match self {
            Step::RtmpReceive(s) => s.model().status,
            Step::RtmpWatch(s) => s.model().status,
        }
    }

    pub fn get_status(&self) -> (r: StepStatus)
        ensures
            r == self.spec_status(),
    {
        match self {
            Step::RtmpReceive(s) => s.get_status(),
            Step::RtmpWatch(s) => s.get_status(),
        }
    }

    pub fn get_definition(&self) -> (r: &WorkflowStepDefinition)
        ensures
            *r == self.spec_definition(),
    {
        match self {
            Step::RtmpReceive(s) => s.get_definition(),
            Step::RtmpWatch(s) => s.get_definition(),
        }
    }

    /// Run the step on its pending inputs.  Notifications are consumed;
    /// outputs are appended.  The step's definition never changes, so its
    /// id is stable across execution.
    pub fn execute(&mut self, inputs: &mut StepInputs, outputs: &mut StepOutputs)
        requires
            old(self).wf(),
        ensures
            final(self).wf(),
            final(self).spec_definition() == old(self).spec_definition(),
            match *old(self) {
                Step::RtmpReceive(_) => *final(self) is RtmpReceive
                    && crate::steps::rtmp_receive::receive_execute_rel(
                    (*old(self))->RtmpReceive_0,
                    (*final(self))->RtmpReceive_0,
                    *old(inputs),
                    *final(inputs),
                    *old(outputs),
                    *final(outputs),
                ),
                Step::RtmpWatch(_) => *final(self) is RtmpWatch
                    && crate::steps::rtmp_watch::watch_execute_rel(
                    (*old(self))->RtmpWatch_0,
                    (*final(self))->RtmpWatch_0,
                    *old(inputs),
                    *final(inputs),
                    *old(outputs),
                    *final(outputs),
                ),
            },
    {
        match self {
            Step::RtmpReceive(s) => s.execute(inputs, outputs),
            Step::RtmpWatch(s) => s.execute(inputs, outputs),
        }
    }

    /// Shut the step down: its status becomes `Shutdown` and it asks its
    /// endpoint to drop the registration.
    pub fn shutdown(&mut self) -> (r: RtmpEndpointRequest)
        requires
            old(self).wf(),
        ensures
            final(self).wf(),
            final(self).spec_definition() == old(self).spec_definition(),
            final(self).spec_status() == StepStatus::Shutdown,
            r is RemoveRegistration,
    {
        match self {
            Step::RtmpReceive(s) => s.shutdown(),
            Step::RtmpWatch(s) => s.shutdown(),
        }
    }
}


/// The parameters both RTMP step types read from a definition.
pub struct CommonParams {
    pub port: u16,
    pub rtmp_app: String,
    pub stream_key: crate::endpoints::StreamKeyRegistration,
    pub ip_restrictions: crate::endpoints::IpRestriction,
    pub use_rtmps: bool,
}

/// Mathematical mirror of `CommonParams`.
pub struct CommonModel {
    pub port: u16,
    pub rtmp_app: Seq<char>,
    pub stream_key: crate::endpoints::KeyRegModel,
    pub allowed: Seq<Seq<char>>,
    pub denied: Seq<Seq<char>>,
    pub use_rtmps: bool,
}

/// The restriction the two address lists denote.
pub open spec fn spec_restriction(allowed: Seq<Seq<char>>, denied: Seq<Seq<char>>) -> crate::endpoints::RestrictionModel {
    if allowed.len() > 0 {
        crate::endpoints::RestrictionModel::Allow(allowed)
    } else if denied.len() > 0 {
        crate::endpoints::RestrictionModel::Deny(denied)
    } else {
        crate::endpoints::RestrictionModel::Unrestricted
    }
}

/// The port a definition asks for: a `port` parameter with a value must
/// parse as a 16-bit number; otherwise the default RTMP or RTMPS port.
pub open spec fn spec_port(params: Map<Seq<char>, Option<Seq<char>>>, use_rtmps: bool) -> Result<u16, StartupErrorModel> {
    if params.contains_key("port"@) && params["port"@] is Some {
        match crate::strutil::spec_parse_u16(params["port"@]->0) {
            Some(p) => Ok(p),
            None => Err(StartupErrorModel::InvalidPortSpecified(params["port"@]->0)),
        }
    } else {
        if use_rtmps {
            Ok(443u16)
        } else {
            Ok(1935u16)
        }
    }
}

/// A named parameter that must be present with a value; the value is
/// trimmed.
pub open spec fn spec_required_value(
    params: Map<Seq<char>, Option<Seq<char>>>,
    name: Seq<char>,
    missing: StartupErrorModel,
) -> Result<Seq<char>, StartupErrorModel> {
    if params.contains_key(name) && params[name] is Some {
        Ok(crate::strutil::spec_trim(params[name]->0))
    } else {
        Err(missing)
    }
}

/// An optional address-list parameter.
pub open spec fn spec_ip_list(
    params: Map<Seq<char>, Option<Seq<char>>>,
    name: Seq<char>,
) -> Result<Seq<Seq<char>>, StartupErrorModel> {
    let o = if params.contains_key(name) && params[name] is Some {
        Some(params[name]->0)
    } else {
        None
    };
    match crate::endpoints::spec_parse_ip_list(o) {
        Ok(v) => Ok(v),
        Err(_) => Err(StartupErrorModel::InvalidIpAddressSpecified),
    }
}

/// What both RTMP step types read from a definition: the port, the
/// application name, the stream key (`*` meaning any), and at most one of
/// an allow or a deny list.
pub open spec fn spec_common_params(params: Map<Seq<char>, Option<Seq<char>>>) -> Result<CommonModel, StartupErrorModel> {
    let use_rtmps = params.contains_key("rtmps"@);
    match spec_port(params, use_rtmps) {
        Err(e) => Err(e),
        Ok(port) => match spec_required_value(params, "rtmp_app"@, StartupErrorModel::NoRtmpAppSpecified) {
            Err(e) => Err(e),
            Ok(app) => match spec_required_value(params, "stream_key"@, StartupErrorModel::NoStreamKeySpecified) {
                Err(e) => Err(e),
                Ok(key) => match spec_ip_list(params, "allow_ips"@) {
                    Err(e) => Err(e),
                    Ok(allowed) => match spec_ip_list(params, "deny_ips"@) {
                        Err(e) => Err(e),
                        Ok(denied) => {
                            if allowed.len() > 0 && denied.len() > 0 {
                                Err(StartupErrorModel::BothDenyAndAllowIpRestrictionsSpecified)
                            } else {
                                Ok(CommonModel {
                                    port,
                                    rtmp_app: app,
                                    stream_key: if key == "*"@ {
                                        crate::endpoints::KeyRegModel::Any
                                    } else {
                                        crate::endpoints::KeyRegModel::Exact(key)
                                    },
                                    allowed,
                                    denied,
                                    use_rtmps,
                                })
                            }
                        },
                    },
                },
            },
        },
    }
}

/// Whether an executable parameter bundle realizes a parameter model.
pub open spec fn common_params_match(c: CommonParams, m: CommonModel) -> bool {
    &&& c.port == m.port
    &&& c.rtmp_app@ == m.rtmp_app
    &&& c.stream_key@ == m.stream_key
    &&& c.ip_restrictions@ == spec_restriction(m.allowed, m.denied)
    &&& c.use_rtmps == m.use_rtmps
}

/// Read the parameters both RTMP step types share from a definition.
pub fn read_common_params(definition: &crate::definitions::WorkflowStepDefinition) -> (r: Result<
    CommonParams,
    StepStartupError,
>)
    requires
        definition.wf(),
    ensures
        ({
            let pm = crate::config::omap_view(definition.parameters@);
            match r {
                Ok(c) => spec_common_params(pm) matches Ok(m) && common_params_match(c, m),
                Err(e) => spec_common_params(pm) == Err::<CommonModel, StartupErrorModel>(e@),
            }
        }),
{
    let ghost pm = crate::config::omap_view(definition.parameters@);
    let params = &definition.parameters;
    let use_rtmps = params.contains_key(crate::steps::rtmp_receive::RTMPS_FLAG);
    proof {
        assert(pm.contains_key("rtmps"@) == definition.parameters@.contains_key("rtmps"@));
    }
    let port: u16 = match params.get(crate::steps::rtmp_receive::PORT_PROPERTY_NAME) {
        Some(Some(value)) => {
            proof {
                assert(pm["port"@] == crate::strutil::opt_view(definition.parameters@["port"@]));
            }
            match crate::strutil::parse_u16(value) {
                Some(n) => n,
                None => {
                    return Err(StepStartupError::InvalidPortSpecified(value.clone()));
                },
            }
        },
        Some(None) => {
            proof {
                assert(pm["port"@] == crate::strutil::opt_view(definition.parameters@["port"@]));
            }
            if use_rtmps {
                443
            } else {
                1935
            }
        },
        None => {
            proof {
                assert(!pm.contains_key("port"@));
            }
            if use_rtmps {
                443
            } else {
                1935
            }
        },
    };
    let rtmp_app: String = match params.get(crate::steps::rtmp_receive::APP_PROPERTY_NAME) {
        Some(Some(value)) => {
            proof {
                assert(pm["rtmp_app"@] == crate::strutil::opt_view(
                    definition.parameters@["rtmp_app"@],
                ));
            }
            crate::strutil::trim_string(value)
        },
        Some(None) => {
            proof {
                assert(pm["rtmp_app"@] == crate::strutil::opt_view(
                    definition.parameters@["rtmp_app"@],
                ));
            }
            return Err(StepStartupError::NoRtmpAppSpecified);
        },
        None => {
            proof {
                assert(!pm.contains_key("rtmp_app"@));
            }
            return Err(StepStartupError::NoRtmpAppSpecified);
        },
    };
    let key_trimmed: String = match params.get(crate::steps::rtmp_receive::STREAM_KEY_PROPERTY_NAME) {
        Some(Some(value)) => {
            proof {
                assert(pm["stream_key"@] == crate::strutil::opt_view(
                    definition.parameters@["stream_key"@],
                ));
            }
            crate::strutil::trim_string(value)
        },
        Some(None) => {
            proof {
                assert(pm["stream_key"@] == crate::strutil::opt_view(
                    definition.parameters@["stream_key"@],
                ));
            }
            return Err(StepStartupError::NoStreamKeySpecified);
        },
        None => {
            proof {
                assert(!pm.contains_key("stream_key"@));
            }
            return Err(StepStartupError::NoStreamKeySpecified);
        },
    };
    let star = "*".to_owned();
    let stream_key = if key_trimmed == star {
        crate::endpoints::StreamKeyRegistration::Any
    } else {
        crate::endpoints::StreamKeyRegistration::Exact(key_trimmed)
    };
    let allowed: Vec<crate::endpoints::IpAddress> = match params.get(
        crate::steps::rtmp_receive::IP_ALLOW_PROPERTY_NAME,
    ) {
        Some(Some(value)) => {
            proof {
                assert(pm["allow_ips"@] == crate::strutil::opt_view(
                    definition.parameters@["allow_ips"@],
                ));
            }
            match crate::endpoints::IpAddress::parse_comma_delimited_list(Some(value)) {
                Ok(v) => v,
                Err(e) => {
                    return Err(StepStartupError::InvalidIpAddressSpecified(e));
                },
            }
        },
        Some(None) => {
            proof {
                assert(pm["allow_ips"@] == crate::strutil::opt_view(
                    definition.parameters@["allow_ips"@],
                ));
                assert(crate::endpoints::spec_parse_ip_list(None) == Ok::<Seq<Seq<char>>, ()>(
                    Seq::empty(),
                ));
            }
            Vec::new()
        },
        None => {
            proof {
                assert(!pm.contains_key("allow_ips"@));
            }
            Vec::new()
        },
    };
    proof {
        assert(allowed@.map_values(|a: crate::endpoints::IpAddress| a@).len() == allowed@.len());
    }
    let denied: Vec<crate::endpoints::IpAddress> = match params.get(
        crate::steps::rtmp_receive::IP_DENY_PROPERTY_NAME,
    ) {
        Some(Some(value)) => {
            proof {
                assert(pm["deny_ips"@] == crate::strutil::opt_view(
                    definition.parameters@["deny_ips"@],
                ));
            }
            match crate::endpoints::IpAddress::parse_comma_delimited_list(Some(value)) {
                Ok(v) => v,
                Err(e) => {
                    return Err(StepStartupError::InvalidIpAddressSpecified(e));
                },
            }
        },
        Some(None) => {
            proof {
                assert(pm["deny_ips"@] == crate::strutil::opt_view(
                    definition.parameters@["deny_ips"@],
                ));
            }
            Vec::new()
        },
        None => {
            proof {
                assert(!pm.contains_key("deny_ips"@));
            }
            Vec::new()
        },
    };
    if allowed.len() > 0 && denied.len() > 0 {
        return Err(StepStartupError::BothDenyAndAllowIpRestrictionsSpecified);
    }
    let ip_restrictions = if allowed.len() > 0 {
        crate::endpoints::IpRestriction::Allow(allowed)
    } else if denied.len() > 0 {
        crate::endpoints::IpRestriction::Deny(denied)
    } else {
        proof {
            assert(allowed@.map_values(|a: crate::endpoints::IpAddress| a@).len() == 0);
            assert(denied@.map_values(|a: crate::endpoints::IpAddress| a@).len() == 0);
        }
        crate::endpoints::IpRestriction::Unrestricted
    };
    Ok(CommonParams { port, rtmp_app, stream_key, ip_restrictions, use_rtmps })
}

} // verus!
