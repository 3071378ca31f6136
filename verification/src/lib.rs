pub mod debug;
pub mod flow;
pub mod mix;
pub mod pcm;
pub mod resample;
pub mod samples;

pub use flow::{AudioError, AudioFrame, FlowController, OpusDecoder, Polled, Sent};
pub use mix::Mixer;
pub use pcm::{PcmQueue, FRAME_SIZE_SAMPLES};
pub use samples::{clamp_sample, MIXER_CHANNELS};
pub use debug::{
    completion_event, elapsed_between, elapsed_ms, init_debug_timer, log_buffer_pool_stats, log_decode_error,
    log_gateway_event, log_http_request, log_memory_stats, log_mixer_stats, log_performance_warning, log_track_loaded,
    log_voice_connection, DebugTimer, FieldValue, LogEvent, LogField, LogLevel, BUFFER_POOL_CAPACITY,
    SLOW_OPERATION_NANOS,
};
pub use resample::{hermite_neighbours, linear_neighbours, remember_last_frame, SincHistory};
