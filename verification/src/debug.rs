use vstd::prelude::*;
use std::time::{Duration, Instant, SystemTime};

verus! {

/// Severity of a log event.
#[derive(Debug, Clone, Copy, PartialEq, Eq, Structural)]
pub enum LogLevel {
    Trace,
    Debug,
    Info,
    Warn,
    Error,
}

/// The value of one field of a log event.
#[derive(Debug, Clone, Copy)]
pub enum FieldValue<'a> {
    Text(&'a str),
    Unsigned(u128),
    Signed(i64),
    Flag(bool),
    /// `part / whole * 100`, as a floating-point number.
    Percent { part: u64, whole: u64 },
    /// `(value / threshold - 1) * 100`, as a floating-point number.
    Overshoot { value: u64, threshold: u64 },
    /// A byte count shown in mebibytes, as a floating-point number.
    Mebibytes(u64),
}

/// One named field of a log event.
#[derive(Debug, Clone, Copy)]
pub struct LogField<'a> {
    pub name: &'static str,
    pub value: FieldValue<'a>,
}

/// A structured log event: where it goes, how severe it is, an optional message and
/// its fields in order.
#[derive(Debug)]
pub struct LogEvent<'a> {
    pub level: LogLevel,
    pub target: &'static str,
    pub message: Option<&'static str>,
    pub fields: Vec<LogField<'a>>,
}

/// Size of the buffer pool that `log_buffer_pool_stats` reports usage against.
pub const BUFFER_POOL_CAPACITY: u64 = 4194304;

/// Threshold above which a timed operation counts as slow, in nanoseconds.
pub const SLOW_OPERATION_NANOS: u128 = 100000000;

pub open spec fn field<'a>(name: &'static str, value: FieldValue<'a>) -> LogField<'a> {
    LogField { name, value }
}

#[verifier::external_type_specification]
#[verifier::external_body]
pub struct ExInstant(Instant);

#[verifier::external_type_specification]
#[verifier::external_body]
pub struct ExSystemTime(SystemTime);

/// `std::time::SystemTime::now`. Depends on the clock, so nothing is stated of it.
#[verifier::external_body]
fn system_now() -> SystemTime {
    SystemTime::now()
}

/// The time from the Unix epoch to `t`, by `std::time::SystemTime::duration_since`; a
/// time before the epoch, which that call reports as an error, gives a zero duration.
/// `Duration` is opaque here, so nothing is stated of the result.
#[verifier::external_body]
fn since_epoch(t: SystemTime) -> Duration {
    t.duration_since(std::time::UNIX_EPOCH).unwrap_or_default()
}

/// Whole milliseconds in `d`, by `std::time::Duration::as_millis`, cut to 64 bits.
/// `Duration` is opaque here, so nothing is stated of the result.
#[verifier::external_body]
fn duration_millis(d: Duration) -> u64 {
    d.as_millis() as u64
}

/// Milliseconds since the Unix epoch by the clock.
fn unix_time_ms() -> u64 {
    duration_millis(since_epoch(system_now()))
}

/// `std::time::Instant::now`.
#[verifier::external_body]
fn instant_now() -> Instant {
    Instant::now()
}

/// The time since `start`, from `std::time::Instant::elapsed`. Depends on the clock, so
/// nothing is stated of it.
#[verifier::external_body]
fn elapsed_since(start: &Instant) -> Duration {
    start.elapsed()
}

/// Whole nanoseconds in `d`, by `std::time::Duration::as_nanos`. `Duration` is opaque
/// here, so nothing is stated of the result.
#[verifier::external_body]
fn duration_nanos(d: Duration) -> u128 {
    d.as_nanos()
}

/// Starts the debug timer: the returned stamp (milliseconds since the Unix epoch) is what
/// `elapsed_ms` measures from.
pub fn init_debug_timer() -> u64 {
    unix_time_ms()
}

/// Milliseconds from `start` to `now`: none when the timer was never started (`start`
/// is 0) or `now` lies before `start`.
pub open spec fn elapsed_spec(start: u64, now: u64) -> u64 {
    if start == 0 || now < start { 0 } else { (now - start) as u64 }
}

/// Milliseconds from `start` to `now`: none when the timer was never started (`start`
/// is 0) or `now` lies before `start`.
pub fn elapsed_between(start: u64, now: u64) -> (ms: u64)
    ensures
        ms == elapsed_spec(start, now),
{
    if start == 0 {
        return 0;
    }
    now.saturating_sub(start)
}

/// Elapsed time never runs backwards: a later reading of the clock gives at least as
/// many milliseconds.
pub proof fn law_elapsed_monotone(start: u64, earlier: u64, later: u64)
    requires
        earlier <= later,
    ensures
        elapsed_spec(start, earlier) <= elapsed_spec(start, later),
{
}

/// Milliseconds since the debug timer was started at `start`, by the clock.
pub fn elapsed_ms(start: u64) -> (ms: u64)
    ensures
        start == 0 ==> ms == 0,
        exists|now: u64| ms == elapsed_spec(start, now),
{
    let now = unix_time_ms();
    elapsed_between(start, now)
}

/// Times an operation from its creation; `finish` reports how long it took.
pub struct DebugTimer {
    start: Instant,
    label: &'static str,
}

impl DebugTimer {
    pub closed spec fn label(&self) -> &'static str {
        self.label
    }

    /// Starts timing the operation `label`.
    pub fn new(label: &'static str) -> (t: DebugTimer)
        ensures
            t.label() == label,
    {
        DebugTimer { start: instant_now(), label }
    }

    /// The event that reports the start of the operation.
    pub fn started_event(&self) -> (ev: LogEvent<'static>)
        ensures
            ev.level == LogLevel::Trace,
            ev.target == "lavende_core::timing",
            ev.message == Some("Started"),
            ev.fields@ == seq![field("label", FieldValue::Text(self.label()))],
    {
        let mut fields = Vec::new();
        fields.push(LogField { name: "label", value: FieldValue::Text(self.label) });
        LogEvent { level: LogLevel::Trace, target: "lavende_core::timing", message: Some("Started"), fields }
    }

    /// The event that reports the end of the operation, as `completion_event` makes it
    /// from the time elapsed by the clock.
    pub fn finish(&self) -> (ev: LogEvent<'static>)
        ensures
            exists|nanos: u128| is_completion_event(ev, self.label(), nanos),
    {
        let nanos = duration_nanos(elapsed_since(&self.start));
        let ev = completion_event(self.label, nanos);
        assert(is_completion_event(ev, self.label(), nanos));
        ev
    }
}

/// Whether `ev` reports the end of operation `label` after `elapsed_nanos` nanoseconds:
/// a warning past `SLOW_OPERATION_NANOS`, a trace otherwise, with the duration in
/// whole milliseconds.
pub open spec fn is_completion_event(ev: LogEvent<'static>, label: &'static str, elapsed_nanos: u128) -> bool {
    let slow = elapsed_nanos > SLOW_OPERATION_NANOS;
    &&& ev.level == if slow { LogLevel::Warn } else { LogLevel::Trace }
    &&& ev.target == "lavende_core::timing"
    &&& ev.message == Some(if slow { "Slow operation detected" } else { "Completed" })
    &&& ev.fields@ == seq![
        field("label", FieldValue::Text(label)),
        field("duration_ms", FieldValue::Unsigned(elapsed_nanos / 1000000)),
    ]
}

proof fn lemma_whole_millis(nanos: u128)
    ensures
        (nanos / 1000000) * 1000000 <= nanos,
        nanos < (nanos / 1000000 + 1) * 1000000,
{
    vstd::arithmetic::div_mod::lemma_fundamental_div_mod(nanos as int, 1000000);
}

/// A completion event reports the time elapsed in whole milliseconds: the duration it
/// carries is the number of full milliseconds in `elapsed_nanos`, nothing more or less.
pub proof fn law_completion_reports_whole_millis(ev: LogEvent<'static>, label: &'static str, elapsed_nanos: u128)
    requires
        is_completion_event(ev, label, elapsed_nanos),
    ensures
        ev.fields@.len() == 2,
        ev.fields@[1].name == "duration_ms",
        ev.fields@[1].value matches FieldValue::Unsigned(ms)
            && ms * 1000000 <= elapsed_nanos && elapsed_nanos < (ms + 1) * 1000000,
{
    lemma_whole_millis(elapsed_nanos);
}

/// The event that reports the end of operation `label` after `elapsed_nanos` nanoseconds.
pub fn completion_event(label: &'static str, elapsed_nanos: u128) -> (ev: LogEvent<'static>)
    ensures
        is_completion_event(ev, label, elapsed_nanos),
        ev.fields@.len() == 2,
        ev.fields@[0] == field("label", FieldValue::Text(label)),
        ev.fields@[1].name == "duration_ms",
        ev.fields@[1].value matches FieldValue::Unsigned(ms)
            && ms * 1000000 <= elapsed_nanos && elapsed_nanos < (ms + 1) * 1000000,
        (elapsed_nanos > SLOW_OPERATION_NANOS) == (ev.level == LogLevel::Warn),
{
    proof {
        lemma_whole_millis(elapsed_nanos);
    }
    let mut fields = Vec::new();
    fields.push(LogField { name: "label", value: FieldValue::Text(label) });
    fields.push(LogField { name: "duration_ms", value: FieldValue::Unsigned(elapsed_nanos / 1000000) });
    assert(fields@ =~= seq![
        field("label", FieldValue::Text(label)),
        field("duration_ms", FieldValue::Unsigned(elapsed_nanos / 1000000)),
    ]);
    if elapsed_nanos > SLOW_OPERATION_NANOS {
        LogEvent { level: LogLevel::Warn, target: "lavende_core::timing", message: Some("Slow operation detected"), fields }
    } else {
        LogEvent { level: LogLevel::Trace, target: "lavende_core::timing", message: Some("Completed"), fields }
    }
}

/// Builds an event from its parts; `fields` is handed over as it is.
fn event<'a>(level: LogLevel, target: &'static str, fields: Vec<LogField<'a>>) -> (ev: LogEvent<'a>)
    ensures
        ev.level == level,
        ev.target == target,
        ev.message == Option::<&'static str>::None,
        ev.fields@ == fields@,
{
    LogEvent { level, target, message: None, fields }
}

/// Mixer statistics, traced.
pub fn log_mixer_stats(active_tracks: usize, active_layers: usize, frames_mixed: u64, underruns: u64, elapsed_ms: u64)
    -> (ev: LogEvent<'static>)
    ensures
        ev.level == LogLevel::Trace,
        ev.target == "lavende_core::mixer::stats",
        ev.message == Option::<&'static str>::None,
        ev.fields@ == seq![
            field("active_tracks", FieldValue::Unsigned(active_tracks as u128)),
            field("active_layers", FieldValue::Unsigned(active_layers as u128)),
            field("frames_mixed", FieldValue::Unsigned(frames_mixed as u128)),
            field("underruns", FieldValue::Unsigned(underruns as u128)),
            field("elapsed_ms", FieldValue::Unsigned(elapsed_ms as u128)),
        ],
{
    let mut f = Vec::new();
    f.push(LogField { name: "active_tracks", value: FieldValue::Unsigned(active_tracks as u128) });
    f.push(LogField { name: "active_layers", value: FieldValue::Unsigned(active_layers as u128) });
    f.push(LogField { name: "frames_mixed", value: FieldValue::Unsigned(frames_mixed as u128) });
    f.push(LogField { name: "underruns", value: FieldValue::Unsigned(underruns as u128) });
    f.push(LogField { name: "elapsed_ms", value: FieldValue::Unsigned(elapsed_ms as u128) });
    assert(f@ =~= seq![
        field("active_tracks", FieldValue::Unsigned(active_tracks as u128)),
        field("active_layers", FieldValue::Unsigned(active_layers as u128)),
        field("frames_mixed", FieldValue::Unsigned(frames_mixed as u128)),
        field("underruns", FieldValue::Unsigned(underruns as u128)),
        field("elapsed_ms", FieldValue::Unsigned(elapsed_ms as u128)),
    ]);
    event(LogLevel::Trace, "lavende_core::mixer::stats", f)
}

/// Buffer pool statistics, traced, with the pool's use in percent of its capacity.
pub fn log_buffer_pool_stats(total_bytes: usize, buckets: usize, entries: usize, elapsed_ms: u64) -> (ev: LogEvent<'static>)
    ensures
        ev.level == LogLevel::Trace,
        ev.target == "lavende_core::buffer::pool",
        ev.message == Option::<&'static str>::None,
        ev.fields@ == seq![
            field("total_bytes", FieldValue::Unsigned(total_bytes as u128)),
            field("buckets", FieldValue::Unsigned(buckets as u128)),
            field("entries", FieldValue::Unsigned(entries as u128)),
            field("utilization_pct", FieldValue::Percent { part: total_bytes as u64, whole: BUFFER_POOL_CAPACITY }),
            field("elapsed_ms", FieldValue::Unsigned(elapsed_ms as u128)),
        ],
{
    let mut f = Vec::new();
    f.push(LogField { name: "total_bytes", value: FieldValue::Unsigned(total_bytes as u128) });
    f.push(LogField { name: "buckets", value: FieldValue::Unsigned(buckets as u128) });
    f.push(LogField { name: "entries", value: FieldValue::Unsigned(entries as u128) });
    f.push(LogField {
        name: "utilization_pct",
        value: FieldValue::Percent { part: total_bytes as u64, whole: BUFFER_POOL_CAPACITY },
    });
    f.push(LogField { name: "elapsed_ms", value: FieldValue::Unsigned(elapsed_ms as u128) });
    assert(f@ =~= seq![
        field("total_bytes", FieldValue::Unsigned(total_bytes as u128)),
        field("buckets", FieldValue::Unsigned(buckets as u128)),
        field("entries", FieldValue::Unsigned(entries as u128)),
        field("utilization_pct", FieldValue::Percent { part: total_bytes as u64, whole: BUFFER_POOL_CAPACITY }),
        field("elapsed_ms", FieldValue::Unsigned(elapsed_ms as u128)),
    ]);
    event(LogLevel::Trace, "lavende_core::buffer::pool", f)
}

/// An HTTP request: a warning for a status of 400 or above, a debug event otherwise.
pub fn log_http_request<'a>(url: &'a str, method: &'a str, status: u16, duration_ms: u64, bytes: usize, elapsed_ms: u64)
    -> (ev: LogEvent<'a>)
    ensures
        ev.level == if status >= 400 { LogLevel::Warn } else { LogLevel::Debug },
        ev.target == "lavende_core::http::request",
        ev.message == Option::<&'static str>::None,
        ev.fields@ == seq![
            field("url", FieldValue::Text(url)),
            field("method", FieldValue::Text(method)),
            field("status", FieldValue::Unsigned(status as u128)),
            field("duration_ms", FieldValue::Unsigned(duration_ms as u128)),
            field("bytes", FieldValue::Unsigned(bytes as u128)),
            field("elapsed_ms", FieldValue::Unsigned(elapsed_ms as u128)),
        ],
{
    let mut f = Vec::new();
    f.push(LogField { name: "url", value: FieldValue::Text(url) });
    f.push(LogField { name: "method", value: FieldValue::Text(method) });
    f.push(LogField { name: "status", value: FieldValue::Unsigned(status as u128) });
    f.push(LogField { name: "duration_ms", value: FieldValue::Unsigned(duration_ms as u128) });
    f.push(LogField { name: "bytes", value: FieldValue::Unsigned(bytes as u128) });
    f.push(LogField { name: "elapsed_ms", value: FieldValue::Unsigned(elapsed_ms as u128) });
    assert(f@ =~= seq![
        field("url", FieldValue::Text(url)),
        field("method", FieldValue::Text(method)),
        field("status", FieldValue::Unsigned(status as u128)),
        field("duration_ms", FieldValue::Unsigned(duration_ms as u128)),
        field("bytes", FieldValue::Unsigned(bytes as u128)),
        field("elapsed_ms", FieldValue::Unsigned(elapsed_ms as u128)),
    ]);
    let level = if status >= 400 { LogLevel::Warn } else { LogLevel::Debug };
    event(level, "lavende_core::http::request", f)
}

/// A decoding error, logged as an error.
pub fn log_decode_error<'a>(track_id: &'a str, error: &'a str, sample_rate: u32, channels: usize, elapsed_ms: u64)
    -> (ev: LogEvent<'a>)
    ensures
        ev.level == LogLevel::Error,
        ev.target == "lavende_core::decoder::error",
        ev.message == Option::<&'static str>::None,
        ev.fields@ == seq![
            field("track_id", FieldValue::Text(track_id)),
            field("error", FieldValue::Text(error)),
            field("sample_rate", FieldValue::Unsigned(sample_rate as u128)),
            field("channels", FieldValue::Unsigned(channels as u128)),
            field("elapsed_ms", FieldValue::Unsigned(elapsed_ms as u128)),
        ],
{
    let mut f = Vec::new();
    f.push(LogField { name: "track_id", value: FieldValue::Text(track_id) });
    f.push(LogField { name: "error", value: FieldValue::Text(error) });
    f.push(LogField { name: "sample_rate", value: FieldValue::Unsigned(sample_rate as u128) });
    f.push(LogField { name: "channels", value: FieldValue::Unsigned(channels as u128) });
    f.push(LogField { name: "elapsed_ms", value: FieldValue::Unsigned(elapsed_ms as u128) });
    assert(f@ =~= seq![
        field("track_id", FieldValue::Text(track_id)),
        field("error", FieldValue::Text(error)),
        field("sample_rate", FieldValue::Unsigned(sample_rate as u128)),
        field("channels", FieldValue::Unsigned(channels as u128)),
        field("elapsed_ms", FieldValue::Unsigned(elapsed_ms as u128)),
    ]);
    event(LogLevel::Error, "lavende_core::decoder::error", f)
}

/// A loaded track, logged as information.
pub fn log_track_loaded<'a>(
    track_id: &'a str,
    source: &'a str,
    duration_ms: u64,
    sample_rate: u32,
    channels: usize,
    codec: &'a str,
    elapsed_ms: u64,
) -> (ev: LogEvent<'a>)
    ensures
        ev.level == LogLevel::Info,
        ev.target == "lavende_core::track::loaded",
        ev.message == Option::<&'static str>::None,
        ev.fields@ == seq![
            field("track_id", FieldValue::Text(track_id)),
            field("source", FieldValue::Text(source)),
            field("duration_ms", FieldValue::Unsigned(duration_ms as u128)),
            field("sample_rate", FieldValue::Unsigned(sample_rate as u128)),
            field("channels", FieldValue::Unsigned(channels as u128)),
            field("codec", FieldValue::Text(codec)),
            field("elapsed_ms", FieldValue::Unsigned(elapsed_ms as u128)),
        ],
{
    let mut f = Vec::new();
    f.push(LogField { name: "track_id", value: FieldValue::Text(track_id) });
    f.push(LogField { name: "source", value: FieldValue::Text(source) });
    f.push(LogField { name: "duration_ms", value: FieldValue::Unsigned(duration_ms as u128) });
    f.push(LogField { name: "sample_rate", value: FieldValue::Unsigned(sample_rate as u128) });
    f.push(LogField { name: "channels", value: FieldValue::Unsigned(channels as u128) });
    f.push(LogField { name: "codec", value: FieldValue::Text(codec) });
    f.push(LogField { name: "elapsed_ms", value: FieldValue::Unsigned(elapsed_ms as u128) });
    assert(f@ =~= seq![
        field("track_id", FieldValue::Text(track_id)),
        field("source", FieldValue::Text(source)),
        field("duration_ms", FieldValue::Unsigned(duration_ms as u128)),
        field("sample_rate", FieldValue::Unsigned(sample_rate as u128)),
        field("channels", FieldValue::Unsigned(channels as u128)),
        field("codec", FieldValue::Text(codec)),
        field("elapsed_ms", FieldValue::Unsigned(elapsed_ms as u128)),
    ]);
    event(LogLevel::Info, "lavende_core::track::loaded", f)
}

/// A voice gateway event, logged for debugging.
pub fn log_gateway_event<'a>(guild_id: &'a str, event_name: &'a str, speaking: bool, ssrc: u32, elapsed_ms: u64)
    -> (ev: LogEvent<'a>)
    ensures
        ev.level == LogLevel::Debug,
        ev.target == "lavende_core::gateway::event",
        ev.message == Option::<&'static str>::None,
        ev.fields@ == seq![
            field("guild_id", FieldValue::Text(guild_id)),
            field("event", FieldValue::Text(event_name)),
            field("speaking", FieldValue::Flag(speaking)),
            field("ssrc", FieldValue::Unsigned(ssrc as u128)),
            field("elapsed_ms", FieldValue::Unsigned(elapsed_ms as u128)),
        ],
{
    let mut f = Vec::new();
    f.push(LogField { name: "guild_id", value: FieldValue::Text(guild_id) });
    f.push(LogField { name: "event", value: FieldValue::Text(event_name) });
    f.push(LogField { name: "speaking", value: FieldValue::Flag(speaking) });
    f.push(LogField { name: "ssrc", value: FieldValue::Unsigned(ssrc as u128) });
    f.push(LogField { name: "elapsed_ms", value: FieldValue::Unsigned(elapsed_ms as u128) });
    assert(f@ =~= seq![
        field("guild_id", FieldValue::Text(guild_id)),
        field("event", FieldValue::Text(event_name)),
        field("speaking", FieldValue::Flag(speaking)),
        field("ssrc", FieldValue::Unsigned(ssrc as u128)),
        field("elapsed_ms", FieldValue::Unsigned(elapsed_ms as u128)),
    ]);
    event(LogLevel::Debug, "lavende_core::gateway::event", f)
}

/// A voice connection: established is information and carries the latency; lost is a
/// warning without it.
pub fn log_voice_connection<'a>(guild_id: &'a str, endpoint: &'a str, connected: bool, latency_ms: i64, elapsed_ms: u64)
    -> (ev: LogEvent<'a>)
    ensures
        ev.target == "lavende_core::voice::connection",
        ev.message == Option::<&'static str>::None,
        connected ==> ev.level == LogLevel::Info && ev.fields@ == seq![
            field("guild_id", FieldValue::Text(guild_id)),
            field("endpoint", FieldValue::Text(endpoint)),
            field("connected", FieldValue::Flag(connected)),
            field("latency_ms", FieldValue::Signed(latency_ms)),
            field("elapsed_ms", FieldValue::Unsigned(elapsed_ms as u128)),
        ],
        !connected ==> ev.level == LogLevel::Warn && ev.fields@ == seq![
            field("guild_id", FieldValue::Text(guild_id)),
            field("endpoint", FieldValue::Text(endpoint)),
            field("connected", FieldValue::Flag(connected)),
            field("elapsed_ms", FieldValue::Unsigned(elapsed_ms as u128)),
        ],
{
    let mut f = Vec::new();
    f.push(LogField { name: "guild_id", value: FieldValue::Text(guild_id) });
    f.push(LogField { name: "endpoint", value: FieldValue::Text(endpoint) });
    f.push(LogField { name: "connected", value: FieldValue::Flag(connected) });
    if connected {
        f.push(LogField { name: "latency_ms", value: FieldValue::Signed(latency_ms) });
        f.push(LogField { name: "elapsed_ms", value: FieldValue::Unsigned(elapsed_ms as u128) });
        assert(f@ =~= seq![
            field("guild_id", FieldValue::Text(guild_id)),
            field("endpoint", FieldValue::Text(endpoint)),
            field("connected", FieldValue::Flag(connected)),
            field("latency_ms", FieldValue::Signed(latency_ms)),
            field("elapsed_ms", FieldValue::Unsigned(elapsed_ms as u128)),
        ]);
        event(LogLevel::Info, "lavende_core::voice::connection", f)
    } else {
        f.push(LogField { name: "elapsed_ms", value: FieldValue::Unsigned(elapsed_ms as u128) });
        assert(f@ =~= seq![
            field("guild_id", FieldValue::Text(guild_id)),
            field("endpoint", FieldValue::Text(endpoint)),
            field("connected", FieldValue::Flag(connected)),
            field("elapsed_ms", FieldValue::Unsigned(elapsed_ms as u128)),
        ]);
        event(LogLevel::Warn, "lavende_core::voice::connection", f)
    }
}

/// Memory statistics, traced, with heap and pool together in mebibytes.
pub fn log_memory_stats(heap_bytes: usize, pool_bytes: usize, buffer_count: usize, elapsed_ms: u64) -> (ev: LogEvent<'static>)
    requires
        heap_bytes + pool_bytes <= usize::MAX,
    ensures
        ev.level == LogLevel::Trace,
        ev.target == "lavende_core::memory",
        ev.message == Option::<&'static str>::None,
        ev.fields@ == seq![
            field("heap_bytes", FieldValue::Unsigned(heap_bytes as u128)),
            field("pool_bytes", FieldValue::Unsigned(pool_bytes as u128)),
            field("buffer_count", FieldValue::Unsigned(buffer_count as u128)),
            field("total_mb", FieldValue::Mebibytes((heap_bytes + pool_bytes) as u64)),
            field("elapsed_ms", FieldValue::Unsigned(elapsed_ms as u128)),
        ],
{
    let total = (heap_bytes + pool_bytes) as u64;
    let mut f = Vec::new();
    f.push(LogField { name: "heap_bytes", value: FieldValue::Unsigned(heap_bytes as u128) });
    f.push(LogField { name: "pool_bytes", value: FieldValue::Unsigned(pool_bytes as u128) });
    f.push(LogField { name: "buffer_count", value: FieldValue::Unsigned(buffer_count as u128) });
    f.push(LogField { name: "total_mb", value: FieldValue::Mebibytes(total) });
    f.push(LogField { name: "elapsed_ms", value: FieldValue::Unsigned(elapsed_ms as u128) });
    assert(f@ =~= seq![
        field("heap_bytes", FieldValue::Unsigned(heap_bytes as u128)),
        field("pool_bytes", FieldValue::Unsigned(pool_bytes as u128)),
        field("buffer_count", FieldValue::Unsigned(buffer_count as u128)),
        field("total_mb", FieldValue::Mebibytes((heap_bytes + pool_bytes) as u64)),
        field("elapsed_ms", FieldValue::Unsigned(elapsed_ms as u128)),
    ]);
    event(LogLevel::Trace, "lavende_core::memory", f)
}

/// An operation that took `duration_ms` against a budget of `threshold_ms`, as a
/// warning with the overshoot in percent.
pub fn log_performance_warning<'a>(component: &'a str, operation: &'a str, duration_ms: u64, threshold_ms: u64, elapsed_ms: u64)
    -> (ev: LogEvent<'a>)
    ensures
        ev.level == LogLevel::Warn,
        ev.target == "lavende_core::performance",
        ev.message == Option::<&'static str>::None,
        ev.fields@ == seq![
            field("component", FieldValue::Text(component)),
            field("operation", FieldValue::Text(operation)),
            field("duration_ms", FieldValue::Unsigned(duration_ms as u128)),
            field("threshold_ms", FieldValue::Unsigned(threshold_ms as u128)),
            field("overhead_pct", FieldValue::Overshoot { value: duration_ms, threshold: threshold_ms }),
            field("elapsed_ms", FieldValue::Unsigned(elapsed_ms as u128)),
        ],
{
    let mut f = Vec::new();
    f.push(LogField { name: "component", value: FieldValue::Text(component) });
    f.push(LogField { name: "operation", value: FieldValue::Text(operation) });
    f.push(LogField { name: "duration_ms", value: FieldValue::Unsigned(duration_ms as u128) });
    f.push(LogField { name: "threshold_ms", value: FieldValue::Unsigned(threshold_ms as u128) });
    f.push(LogField { name: "overhead_pct", value: FieldValue::Overshoot { value: duration_ms, threshold: threshold_ms } });
    f.push(LogField { name: "elapsed_ms", value: FieldValue::Unsigned(elapsed_ms as u128) });
    assert(f@ =~= seq![
        field("component", FieldValue::Text(component)),
        field("operation", FieldValue::Text(operation)),
        field("duration_ms", FieldValue::Unsigned(duration_ms as u128)),
        field("threshold_ms", FieldValue::Unsigned(threshold_ms as u128)),
        field("overhead_pct", FieldValue::Overshoot { value: duration_ms, threshold: threshold_ms }),
        field("elapsed_ms", FieldValue::Unsigned(elapsed_ms as u128)),
    ]);
    event(LogLevel::Warn, "lavende_core::performance", f)
}

} // verus!
