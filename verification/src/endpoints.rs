//! Message shapes of the RTMP server endpoint boundary: what steps ask of an
//! endpoint and what an endpoint reports back.  The shapes are fixed by the
//! protocol side; the library only routes them.

use vstd::prelude::*;
use crate::collections::StrMap;
use crate::media::AudioCodec;
use crate::media::StreamId;
use crate::media::VideoCodec;
use crate::media::smap_view;
use crate::strutil::is_space;
use crate::strutil::spec_trim;
use crate::strutil::trim_chars;
use crate::strutil::chars_of;
use crate::strutil::string_from_chars;
use crate::config::tokens::find_char;
use crate::config::tokens::clampi;

verus! {

/// Identifier of one network connection at an endpoint.
pub struct ConnectionId(pub String);

impl View for ConnectionId {
    type V = Seq<char>;

    open spec fn view(&self) -> Seq<char> {
        self.0@
    }
}

impl Clone for ConnectionId {
    fn clone(&self) -> (r: Self)
        ensures
            r@ == self@,
    {
        ConnectionId(self.0.clone())
    }
}

/// Which stream keys a registration covers.
pub enum StreamKeyRegistration {
    Any,
    Exact(String),
}

/// Mathematical mirror of `StreamKeyRegistration`.
pub enum KeyRegModel {
    Any,
    Exact(Seq<char>),
}

impl View for StreamKeyRegistration {
    type V = KeyRegModel;

    open spec fn view(&self) -> KeyRegModel {
        match self {
            StreamKeyRegistration::Any => KeyRegModel::Any,
            StreamKeyRegistration::Exact(s) => KeyRegModel::Exact(s@),
        }
    }
}

impl Clone for StreamKeyRegistration {
    fn clone(&self) -> (r: Self)
        ensures
            r@ == self@,
    {
        match self {
            StreamKeyRegistration::Any => StreamKeyRegistration::Any,
            StreamKeyRegistration::Exact(s) => StreamKeyRegistration::Exact(s.clone()),
        }
    }
}

/// One address in an allow or deny list.
pub struct IpAddress(pub String);

impl View for IpAddress {
    type V = Seq<char>;

    open spec fn view(&self) -> Seq<char> {
        self.0@
    }
}

impl Clone for IpAddress {
    fn clone(&self) -> (r: Self)
        ensures
            r@ == self@,
    {
        IpAddress(self.0.clone())
    }
}

#[derive(Debug)]
pub struct IpAddressParseError {
    pub raw: String,
}

/// Which connections an endpoint registration admits.
pub enum IpRestriction {
    Allow(Vec<IpAddress>),
    Deny(Vec<IpAddress>),
    Unrestricted,
}

/// Mathematical mirror of `IpRestriction`.
pub enum RestrictionModel {
    Allow(Seq<Seq<char>>),
    Deny(Seq<Seq<char>>),
    Unrestricted,
}

impl View for IpRestriction {
    type V = RestrictionModel;

    open spec fn view(&self) -> RestrictionModel {
        match self {
            IpRestriction::Allow(v) => RestrictionModel::Allow(
                v@.map_values(|a: IpAddress| a@),
            ),
            IpRestriction::Deny(v) => RestrictionModel::Deny(v@.map_values(|a: IpAddress| a@)),
            IpRestriction::Unrestricted => RestrictionModel::Unrestricted,
        }
    }
}

#[derive(Clone, Copy, PartialEq, Eq, Structural, Debug)]
pub enum RegistrationType {
    Publisher,
    Watcher,
}

/// The text split at every comma.
pub open spec fn spec_split_commas(s: Seq<char>) -> Seq<Seq<char>>
    decreases s.len(),
{
    match find_char(s, ',') {
        None => seq![s],
        Some(i) => seq![s.take(i)] + spec_split_commas(s.skip(clampi(i + 1, 1, s.len() as int))),
    }
}

/// What parsing a comma-delimited address list yields: each entry trimmed;
/// an absent or blank input is the empty list; a blank entry among several
/// is an error.
pub open spec fn spec_parse_ip_list(o: Option<Seq<char>>) -> Result<Seq<Seq<char>>, ()> {
    match o {
        None => Ok(Seq::empty()),
        Some(s) => {
            let parts = spec_split_commas(s).map_values(|p: Seq<char>| spec_trim(p));
            if parts.len() == 1 && parts[0].len() == 0 {
                Ok(Seq::empty())
            } else if exists|i: int| 0 <= i < parts.len() && (#[trigger] parts[i]).len() == 0 {
                Err(())
            } else {
                Ok(parts)
            }
        },
    }
}

impl IpAddress {
    /// Split a comma-delimited list of addresses, trimming each entry.
    /// An absent or blank value is the empty list; an empty entry among
    /// several is rejected.
    pub fn parse_comma_delimited_list(value: Option<&String>) -> (r: Result<
        Vec<IpAddress>,
        IpAddressParseError,
    >)
        ensures
            match r {
                Ok(v) => spec_parse_ip_list(
                    match value {
                        Some(s) => Some(s@),
                        None => None,
                    },
                ) == Ok::<Seq<Seq<char>>, ()>(v@.map_values(|a: IpAddress| a@)),
                Err(_) => spec_parse_ip_list(
                    match value {
                        Some(s) => Some(s@),
                        None => None,
                    },
                ) is Err,
            },
    {
        let s = match value {
            None => {
                let empty: Vec<IpAddress> = Vec::new();
                proof {
                    assert(empty@.map_values(|a: IpAddress| a@) =~= Seq::<Seq<char>>::empty());
                }
                return Ok(empty);
            },
            Some(s) => s,
        };
        proof {
            assert(value == Some(s));
        }
        let chars = chars_of(s.as_str());
        let ghost parts = spec_split_commas(s@).map_values(|p: Seq<char>| spec_trim(p));
        let mut out: Vec<IpAddress> = Vec::new();
        let mut pos: usize = 0;
        let mut finished = false;
        let n = chars.len();
        proof {
            assert(chars@.skip(0) =~= chars@);
        }
        while !finished
            invariant
                pos <= n,
                n == chars@.len(),
                chars@ == s@,
                value == Some(s),
                parts == spec_split_commas(s@).map_values(|p: Seq<char>| spec_trim(p)),
                !finished ==> parts =~= out@.map_values(|a: IpAddress| a@) + spec_split_commas(
                    chars@.skip(pos as int),
                ).map_values(|p: Seq<char>| spec_trim(p)),
                finished ==> parts =~= out@.map_values(|a: IpAddress| a@),
                forall|j: int| 0 <= j < out@.len() ==> (#[trigger] out@[j]@).len() > 0,
                out@.len() == 0 ==> pos == 0,
            decreases n - pos + (if finished { 0int } else { 1int }),
        {
            let ghost rest = chars@.skip(pos as int);
            let ghost done = out@.map_values(|a: IpAddress| a@);
            let piece_end: usize;
            let next_pos: usize;
            let is_last: bool;
            match crate::config::tokens::scan_for(&chars, pos, ',') {
                Some(i) => {
                    piece_end = i;
                    next_pos = i + 1;
                    is_last = false;
                },
                None => {
                    piece_end = n;
                    next_pos = n;
                    is_last = true;
                },
            }
            let raw = crate::config::tokens::substring_of(&chars, pos, piece_end);
            let rawv = chars_of(raw.as_str());
            let trimmed = trim_chars(&rawv);
            proof {
                if is_last {
                    assert(find_char(rest, ',') is None);
                    assert(rest =~= chars@.subrange(pos as int, n as int));
                    assert(spec_split_commas(rest) == seq![rest]);
                } else {
                    assert(find_char(rest, ',') == Some(piece_end - pos));
                    assert(clampi(piece_end - pos + 1, 1, rest.len() as int) == piece_end - pos
                        + 1);
                    assert(rest.take(piece_end - pos) =~= chars@.subrange(
                        pos as int,
                        piece_end as int,
                    ));
                    assert(rest.skip(piece_end - pos + 1) =~= chars@.skip(next_pos as int));
                    assert(spec_split_commas(rest) == seq![rest.take(piece_end - pos)]
                        + spec_split_commas(chars@.skip(next_pos as int)));
                }
            }
            if trimmed.len() == 0 {
                // a blank entry: the empty input is the empty list, anything
                // else is malformed
                if is_last && pos == 0 && out.len() == 0 {
                    let empty: Vec<IpAddress> = Vec::new();
                    proof {
                        assert(done.len() == 0);
                        assert(done + spec_split_commas(rest).map_values(
                            |p: Seq<char>| spec_trim(p),
                        ) =~= spec_split_commas(rest).map_values(|p: Seq<char>| spec_trim(p)));
                        assert(spec_split_commas(rest).map_values(|p: Seq<char>| spec_trim(p))
                            =~= seq![spec_trim(rest)]);
                        assert(parts =~= seq![spec_trim(rest)]);
                        assert(rawv@ == chars@.subrange(pos as int, piece_end as int));
                        assert(rawv@ == rest);
                        assert(trimmed@ == spec_trim(rest));
                        assert(parts[0].len() == 0);
                        assert(parts.len() == 1 && parts[0].len() == 0);
                        assert(spec_parse_ip_list(Some(s@)) == Ok::<Seq<Seq<char>>, ()>(
                            Seq::empty(),
                        ));
                        assert(empty@.map_values(|a: IpAddress| a@) =~= Seq::<Seq<char>>::empty());
                    }
                    return Ok(empty);
                }
                proof {
                    let k = done.len() as int;
                    let tail = spec_split_commas(rest).map_values(|p: Seq<char>| spec_trim(p));
                    assert(tail.len() >= 1) by {
                        lemma_split_commas_nonempty(rest);
                    }
                    if is_last {
                        assert(parts[k] == spec_trim(rest));
                    } else {
                        assert(parts[k] == spec_trim(rest.take(piece_end - pos)));
                    }
                    assert(rawv@ == chars@.subrange(pos as int, piece_end as int));
                    assert(trimmed@ == parts[k]);
                    assert(parts[k].len() == 0);
                    // more than one piece in all: either earlier entries
                    // exist, or this first piece has a comma after it
                    if out@.len() > 0 {
                        assert(parts.len() >= 2);
                    } else {
                        assert(pos == 0);
                        assert(!is_last);
                        assert(spec_split_commas(rest).len() >= 2) by {
                            lemma_split_commas_nonempty(chars@.skip(next_pos as int));
                        }
                        assert(parts.len() >= 2);
                    }
                    assert(0 <= k < parts.len());
                    assert(exists|i: int|
                        0 <= i < parts.len() && (#[trigger] parts[i]).len() == 0);
                    assert(spec_parse_ip_list(Some(s@)) is Err);
                }
                return Err(IpAddressParseError { raw: raw });
            }
            let addr = string_from_chars(&trimmed);
            out.push(IpAddress(addr));
            proof {
                assert(out@.map_values(|a: IpAddress| a@) =~= done.push(spec_trim(
                    chars@.subrange(pos as int, piece_end as int),
                )));
            }
            if is_last {
                finished = true;
            } else {
                pos = next_pos;
            }
        }
        proof {
            assert(!(parts.len() == 1 && parts[0].len() == 0)) by {
                if parts.len() == 1 && parts[0].len() == 0 {
                    assert(out@.len() == 1);
                    assert(out@[0]@.len() > 0);
                }
            }
            assert(forall|i: int|
                0 <= i < parts.len() ==> (#[trigger] parts[i]).len() > 0);
        }
        Ok(out)
    }
}

/// If a position strictly inside the text begins a final comma-free piece,
/// the comma split has at least two pieces.
proof fn lemma_split_commas_len(s: Seq<char>, pos: int)
    requires
        0 < pos <= s.len(),
    ensures
        spec_split_commas(s).len() >= 2 || find_char(s, ',') is None,
    decreases s.len(),
{
    match find_char(s, ',') {
        None => {},
        Some(i) => {
            assert(spec_split_commas(s).len() >= 1 + spec_split_commas(
                s.skip(clampi(i + 1, 1, s.len() as int)),
            ).len());
            assert(spec_split_commas(s.skip(clampi(i + 1, 1, s.len() as int))).len() >= 1) by {
                lemma_split_commas_nonempty(s.skip(clampi(i + 1, 1, s.len() as int)));
            }
        },
    }
}

proof fn lemma_split_commas_nonempty(s: Seq<char>)
    ensures
        spec_split_commas(s).len() >= 1,
    decreases s.len(),
{
}

/// What a step asks of the RTMP endpoint.
pub enum RtmpEndpointRequest {
    ListenForPublishers {
        port: u16,
        rtmp_app: String,
        rtmp_stream_key: StreamKeyRegistration,
        stream_id: Option<StreamId>,
        ip_restrictions: IpRestriction,
        use_tls: bool,
    },
    ListenForWatchers {
        port: u16,
        rtmp_app: String,
        rtmp_stream_key: StreamKeyRegistration,
        ip_restrictions: IpRestriction,
        use_tls: bool,
    },
    RemoveRegistration {
        registration_type: RegistrationType,
        port: u16,
        rtmp_app: String,
        rtmp_stream_key: StreamKeyRegistration,
    },
}

/// What the endpoint reports to a publisher registration.
pub enum RtmpEndpointPublisherMessage {
    PublisherRegistrationFailed,
    PublisherRegistrationSuccessful,
    NewPublisherConnected { stream_id: StreamId, connection_id: ConnectionId, stream_key: String },
    PublishingStopped { connection_id: ConnectionId },
    StreamMetadataChanged { publisher: ConnectionId, metadata: StrMap<String> },
    NewVideoData {
        publisher: ConnectionId,
        codec: VideoCodec,
        is_keyframe: bool,
        is_sequence_header: bool,
        data: Vec<u8>,
        timestamp: u32,
    },
    NewAudioData {
        publisher: ConnectionId,
        codec: AudioCodec,
        is_sequence_header: bool,
        data: Vec<u8>,
        timestamp: u32,
    },
}

/// Mathematical mirror of `RtmpEndpointPublisherMessage`.
pub enum PublisherMessageModel {
    PublisherRegistrationFailed,
    PublisherRegistrationSuccessful,
    NewPublisherConnected { stream_id: Seq<char>, connection_id: Seq<char>, stream_key: Seq<char> },
    PublishingStopped { connection_id: Seq<char> },
    StreamMetadataChanged { publisher: Seq<char>, metadata: Map<Seq<char>, Seq<char>> },
    NewVideoData {
        publisher: Seq<char>,
        codec: VideoCodec,
        is_keyframe: bool,
        is_sequence_header: bool,
        data: Seq<u8>,
        timestamp: u32,
    },
    NewAudioData {
        publisher: Seq<char>,
        codec: AudioCodec,
        is_sequence_header: bool,
        data: Seq<u8>,
        timestamp: u32,
    },
}

impl View for RtmpEndpointPublisherMessage {
    type V = PublisherMessageModel;

    open spec fn view(&self) -> PublisherMessageModel {
        match self {
            RtmpEndpointPublisherMessage::PublisherRegistrationFailed => PublisherMessageModel::PublisherRegistrationFailed,
            RtmpEndpointPublisherMessage::PublisherRegistrationSuccessful => PublisherMessageModel::PublisherRegistrationSuccessful,
            RtmpEndpointPublisherMessage::NewPublisherConnected {
                stream_id,
                connection_id,
                stream_key,
            } => PublisherMessageModel::NewPublisherConnected {
                stream_id: stream_id@,
                connection_id: connection_id@,
                stream_key: stream_key@,
            },
            RtmpEndpointPublisherMessage::PublishingStopped { connection_id } => PublisherMessageModel::PublishingStopped {
                connection_id: connection_id@,
            },
            RtmpEndpointPublisherMessage::StreamMetadataChanged {
                publisher,
                metadata,
            } => PublisherMessageModel::StreamMetadataChanged {
                publisher: publisher@,
                metadata: smap_view(metadata@),
            },
            RtmpEndpointPublisherMessage::NewVideoData {
                publisher,
                codec,
                is_keyframe,
                is_sequence_header,
                data,
                timestamp,
            } => PublisherMessageModel::NewVideoData {
                publisher: publisher@,
                codec: *codec,
                is_keyframe: *is_keyframe,
                is_sequence_header: *is_sequence_header,
                data: data@,
                timestamp: *timestamp,
            },
            RtmpEndpointPublisherMessage::NewAudioData {
                publisher,
                codec,
                is_sequence_header,
                data,
                timestamp,
            } => PublisherMessageModel::NewAudioData {
                publisher: publisher@,
                codec: *codec,
                is_sequence_header: *is_sequence_header,
                data: data@,
                timestamp: *timestamp,
            },
        }
    }
}

/// What the endpoint reports to a watcher registration.
pub enum RtmpEndpointWatcherNotification {
    WatcherRegistrationFailed,
    WatcherRegistrationSuccessful,
    StreamKeyBecameActive { stream_key: String },
    StreamKeyBecameInactive { stream_key: String },
}

/// Mathematical mirror of `RtmpEndpointWatcherNotification`.
pub enum WatcherNotificationModel {
    WatcherRegistrationFailed,
    WatcherRegistrationSuccessful,
    StreamKeyBecameActive { stream_key: Seq<char> },
    StreamKeyBecameInactive { stream_key: Seq<char> },
}

impl View for RtmpEndpointWatcherNotification {
    type V = WatcherNotificationModel;

    open spec fn view(&self) -> WatcherNotificationModel {
        match self {
            RtmpEndpointWatcherNotification::WatcherRegistrationFailed => WatcherNotificationModel::WatcherRegistrationFailed,
            RtmpEndpointWatcherNotification::WatcherRegistrationSuccessful => WatcherNotificationModel::WatcherRegistrationSuccessful,
            RtmpEndpointWatcherNotification::StreamKeyBecameActive {
                stream_key,
            } => WatcherNotificationModel::StreamKeyBecameActive { stream_key: stream_key@ },
            RtmpEndpointWatcherNotification::StreamKeyBecameInactive {
                stream_key,
            } => WatcherNotificationModel::StreamKeyBecameInactive { stream_key: stream_key@ },
        }
    }
}

/// Media handed to the endpoint for distribution to watchers.  Timestamps
/// are RTMP milliseconds (32 bits).
pub enum RtmpEndpointMediaData {
    NewStreamMetaData { metadata: StrMap<String> },
    NewVideoData {
        is_keyframe: bool,
        is_sequence_header: bool,
        codec: VideoCodec,
        data: Vec<u8>,
        timestamp: u32,
    },
    NewAudioData { is_sequence_header: bool, codec: AudioCodec, data: Vec<u8>, timestamp: u32 },
}

/// Mathematical mirror of `RtmpEndpointMediaData`.
pub enum MediaDataModel {
    NewStreamMetaData { metadata: Map<Seq<char>, Seq<char>> },
    NewVideoData {
        is_keyframe: bool,
        is_sequence_header: bool,
        codec: VideoCodec,
        data: Seq<u8>,
        timestamp: u32,
    },
    NewAudioData { is_sequence_header: bool, codec: AudioCodec, data: Seq<u8>, timestamp: u32 },
}

impl View for RtmpEndpointMediaData {
    type V = MediaDataModel;

    open spec fn view(&self) -> MediaDataModel {
        match self {
            RtmpEndpointMediaData::NewStreamMetaData { metadata } => MediaDataModel::NewStreamMetaData {
                metadata: smap_view(metadata@),
            },
            RtmpEndpointMediaData::NewVideoData {
                is_keyframe,
                is_sequence_header,
                codec,
                data,
                timestamp,
            } => MediaDataModel::NewVideoData {
                is_keyframe: *is_keyframe,
                is_sequence_header: *is_sequence_header,
                codec: *codec,
                data: data@,
                timestamp: *timestamp,
            },
            RtmpEndpointMediaData::NewAudioData {
                is_sequence_header,
                codec,
                data,
                timestamp,
            } => MediaDataModel::NewAudioData {
                is_sequence_header: *is_sequence_header,
                codec: *codec,
                data: data@,
                timestamp: *timestamp,
            },
        }
    }
}

/// One media payload addressed to a stream key.
pub struct RtmpEndpointMediaMessage {
    pub stream_key: String,
    pub data: RtmpEndpointMediaData,
}

/// Mathematical mirror of `RtmpEndpointMediaMessage`.
pub struct MediaMessageModel {
    pub stream_key: Seq<char>,
    pub data: MediaDataModel,
}

impl View for RtmpEndpointMediaMessage {
    type V = MediaMessageModel;

    open spec fn view(&self) -> MediaMessageModel {
        MediaMessageModel { stream_key: self.stream_key@, data: self.data@ }
    }
}

} // verus!
