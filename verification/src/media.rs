//! Media notifications: the values that flow between workflow steps.

use vstd::prelude::*;
use crate::collections::StrMap;

verus! {

/// Opaque identifier of one live media stream inside a workflow.
pub struct StreamId(pub String);

impl View for StreamId {
    type V = Seq<char>;

    open spec fn view(&self) -> Seq<char> {
        self.0@
    }
}

impl Clone for StreamId {
    fn clone(&self) -> (r: Self)
        ensures
            r@ == self@,
    {
        StreamId(self.0.clone())
    }
}

#[derive(Clone, Copy, PartialEq, Eq, Structural, Debug)]
pub enum VideoCodec {
    H264,
    Unknown,
}

#[derive(Clone, Copy, PartialEq, Eq, Structural, Debug)]
pub enum AudioCodec {
    Aac,
    Unknown,
}

/// A notification and the stream it belongs to.
pub struct MediaNotification {
    pub stream_id: StreamId,
    pub content: MediaNotificationContent,
}

/// What happened on a stream.  Timestamps are in milliseconds.
pub enum MediaNotificationContent {
    /// A source step announces a new stream.
    NewIncomingStream { stream_name: String },
    /// The source is gone.
    StreamDisconnected,
    Metadata { data: StrMap<String> },
    Video {
        codec: VideoCodec,
        is_keyframe: bool,
        is_sequence_header: bool,
        timestamp_ms: u64,
        data: Vec<u8>,
    },
    Audio { codec: AudioCodec, is_sequence_header: bool, timestamp_ms: u64, data: Vec<u8> },
}

/// The view of a string-to-string map.
pub open spec fn smap_view(m: Map<Seq<char>, String>) -> Map<Seq<char>, Seq<char>> {
    Map::new(|k: Seq<char>| m.dom().contains(k), |k: Seq<char>| m[k]@)
}

/// Mathematical mirror of `MediaNotificationContent`.
pub enum ContentModel {
    NewIncomingStream { stream_name: Seq<char> },
    StreamDisconnected,
    Metadata { data: Map<Seq<char>, Seq<char>> },
    Video {
        codec: VideoCodec,
        is_keyframe: bool,
        is_sequence_header: bool,
        timestamp_ms: u64,
        data: Seq<u8>,
    },
    Audio { codec: AudioCodec, is_sequence_header: bool, timestamp_ms: u64, data: Seq<u8> },
}

/// Mathematical mirror of `MediaNotification`.
pub struct MediaModel {
    pub stream_id: Seq<char>,
    pub content: ContentModel,
}

impl View for MediaNotificationContent {
    type V = ContentModel;

    open spec fn view(&self) -> ContentModel {
        match self {
            MediaNotificationContent::NewIncomingStream { stream_name } => ContentModel::NewIncomingStream {
                stream_name: stream_name@,
            },
            MediaNotificationContent::StreamDisconnected => ContentModel::StreamDisconnected,
            MediaNotificationContent::Metadata { data } => ContentModel::Metadata {
                data: smap_view(data@),
            },
            MediaNotificationContent::Video {
                codec,
                is_keyframe,
                is_sequence_header,
                timestamp_ms,
                data,
            } => ContentModel::Video {
                codec: *codec,
                is_keyframe: *is_keyframe,
                is_sequence_header: *is_sequence_header,
                timestamp_ms: *timestamp_ms,
                data: data@,
            },
            MediaNotificationContent::Audio {
                codec,
                is_sequence_header,
                timestamp_ms,
                data,
            } => ContentModel::Audio {
                codec: *codec,
                is_sequence_header: *is_sequence_header,
                timestamp_ms: *timestamp_ms,
                data: data@,
            },
        }
    }
}

impl View for MediaNotification {
    type V = MediaModel;

    open spec fn view(&self) -> MediaModel {
        MediaModel { stream_id: self.stream_id@, content: self.content@ }
    }
}

/// Whether a notification is kept in a step's media cache: the start of a
/// stream, and audio or video sequence headers.
pub open spec fn is_cacheable(c: ContentModel) -> bool {
    match c {
        ContentModel::NewIncomingStream { .. } => true,
        ContentModel::Video { is_sequence_header, .. } => is_sequence_header,
        ContentModel::Audio { is_sequence_header, .. } => is_sequence_header,
        _ => false,
    }
}

impl Clone for MediaNotificationContent {
    fn clone(&self) -> (r: Self)
        ensures
            r@ == self@,
    {
        match self {
            MediaNotificationContent::NewIncomingStream { stream_name } => {
                MediaNotificationContent::NewIncomingStream { stream_name: stream_name.clone() }
            },
            MediaNotificationContent::StreamDisconnected => {
                MediaNotificationContent::StreamDisconnected
            },
            MediaNotificationContent::Metadata { data } => {
                MediaNotificationContent::Metadata { data: clone_string_map(data) }
            },
            MediaNotificationContent::Video {
                codec,
                is_keyframe,
                is_sequence_header,
                timestamp_ms,
                data,
            } => {
                let d = clone_bytes(data);
                MediaNotificationContent::Video {
                    codec: *codec,
                    is_keyframe: *is_keyframe,
                    is_sequence_header: *is_sequence_header,
                    timestamp_ms: *timestamp_ms,
                    data: d,
                }
            },
            MediaNotificationContent::Audio { codec, is_sequence_header, timestamp_ms, data } => {
                let d = clone_bytes(data);
                MediaNotificationContent::Audio {
                    codec: *codec,
                    is_sequence_header: *is_sequence_header,
                    timestamp_ms: *timestamp_ms,
                    data: d,
                }
            },
        }
    }
}

impl Clone for MediaNotification {
    fn clone(&self) -> (r: Self)
        ensures
            r@ == self@,
    {
        MediaNotification { stream_id: self.stream_id.clone(), content: self.content.clone() }
    }
}

/// Byte-for-byte copy.
pub fn clone_bytes(v: &Vec<u8>) -> (r: Vec<u8>)
    ensures
        r@ == v@,
{
    let n = v.len();
    let mut r: Vec<u8> = Vec::new();
    let mut i: usize = 0;
    while i < n
        invariant
            i <= n,
            n == v@.len(),
            r@ == v@.take(i as int),
        decreases n - i,
    {
        r.push(v[i]);
        proof {
            assert(r@ =~= v@.take(i + 1));
        }
        i += 1;
    }
    proof {
        assert(v@.take(n as int) =~= v@);
    }
    r
}

/// Copy of a string map, preserving key and value views.
pub fn clone_string_map(m: &StrMap<String>) -> (r: StrMap<String>)
    ensures
        r.wf(),
        smap_view(r@) == smap_view(m@),
{
    let n = m.len_raw();
    let mut r: StrMap<String> = StrMap::new();
    let mut i: usize = 0;
    proof {
        assert(m.kvs().take(0) =~= Seq::<(Seq<char>, String)>::empty());
        assert(smap_view(r@) =~= smap_view(crate::collections::assoc_map(m.kvs().take(0))));
    }
    while i < n
        invariant
            i <= n,
            r.wf(),
            n == m.kvs().len(),
            smap_view(r@) =~= smap_view(crate::collections::assoc_map(m.kvs().take(i as int))),
        decreases n - i,
    {
        let k = m.key_at(i).clone();
        let v = m.value_at(i).clone();
        let ghost old_r = r@;
        r.insert(k, v);
        proof {
            let pre = m.kvs().take(i as int);
            let post = m.kvs().take(i + 1);
            assert(post.drop_last() =~= pre);
            assert(post.last() == m.kvs()[i as int]);
            assert(smap_view(r@) =~= smap_view(old_r).insert(m.kvs()[i as int].0, m.kvs()[i as int].1@));
            assert(smap_view(crate::collections::assoc_map(post)) =~= smap_view(
                crate::collections::assoc_map(pre),
            ).insert(m.kvs()[i as int].0, m.kvs()[i as int].1@));
        }
        i += 1;
    }
    proof {
        assert(m.kvs().take(n as int) =~= m.kvs());
        assert(smap_view(r@) =~= smap_view(m@));
    }
    r
}

} // verus!
