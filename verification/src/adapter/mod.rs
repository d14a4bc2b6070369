//! From the tags of a session to the packets and streams of `oxideav_core`.

pub mod codec;
pub mod core_types;
pub mod feed;
pub mod laws;
pub mod listen;
pub mod packet;
pub mod timeline;

pub use self::codec::{
    audio_codec_id, audio_codec_id_for_tag, audio_codec_params, audio_fourcc_codec_id,
    video_codec_id, video_codec_id_for_tag, video_codec_params, video_fourcc_codec_id,
};
pub use self::feed::{
    ends_probe, flatten_metadata, FeedStep, MediaSourceEvent, PacketFeed, Probe, PROBE_LIMIT,
};
pub use self::listen::{play_address, rtmp_to_core_err, ListenUrl, SourceError};
pub use self::packet::{
    audio_times_fit, audio_to_packet, rtmp_time_base, video_times_fit, video_to_packet,
    AUDIO_STREAM_INDEX, RTMP_MS_TO_NS, VIDEO_STREAM_INDEX,
};
pub use self::timeline::TimestampUnwrapper;
