use lavende::{
    completion_event, elapsed_between, elapsed_ms, init_debug_timer, log_buffer_pool_stats, log_decode_error,
    log_gateway_event, log_http_request, log_memory_stats, log_mixer_stats, log_performance_warning, log_track_loaded,
    log_voice_connection, DebugTimer, FieldValue, LogLevel,
};

fn names(ev: &lavende::LogEvent) -> Vec<&'static str> {
    ev.fields.iter().map(|f| f.name).collect()
}

#[test]
fn elapsed_is_zero_before_start() {
    assert_eq!(elapsed_between(0, 5000), 0);
    assert_eq!(elapsed_ms(0), 0);
}

#[test]
fn elapsed_saturates() {
    assert_eq!(elapsed_between(1000, 1500), 500);
    assert_eq!(elapsed_between(2000, 1500), 0);
}

#[test]
fn timer_start_is_recent() {
    let start = init_debug_timer();
    assert!(start > 0);
    assert!(elapsed_ms(start) < 60_000);
}

#[test]
fn slow_operation_is_a_warning() {
    let ev = completion_event("load", 150_000_000);
    assert!(matches!(ev.level, LogLevel::Warn));
    assert_eq!(ev.message, Some("Slow operation detected"));
    assert!(matches!(ev.fields[1].value, FieldValue::Unsigned(150)));
}

#[test]
fn boundary_operation_is_traced() {
    let ev = completion_event("load", 100_000_000);
    assert!(matches!(ev.level, LogLevel::Trace));
    assert_eq!(ev.message, Some("Completed"));
    assert!(matches!(ev.fields[1].value, FieldValue::Unsigned(100)));
}

#[test]
fn debug_timer_events() {
    let t = DebugTimer::new("decode");
    let start = t.started_event();
    assert_eq!(start.target, "lavende_core::timing");
    assert!(matches!(start.fields[0].value, FieldValue::Text("decode")));
    let end = t.finish();
    assert!(matches!(end.level, LogLevel::Trace));
}

#[test]
fn http_errors_warn() {
    let ev = log_http_request("http://x", "GET", 404, 12, 0, 3);
    assert!(matches!(ev.level, LogLevel::Warn));
    let ev = log_http_request("http://x", "GET", 399, 12, 0, 3);
    assert!(matches!(ev.level, LogLevel::Debug));
    assert_eq!(names(&ev), vec!["url", "method", "status", "duration_ms", "bytes", "elapsed_ms"]);
}

#[test]
fn voice_connection_levels() {
    let up = log_voice_connection("g", "e", true, 42, 1);
    assert!(matches!(up.level, LogLevel::Info));
    assert!(matches!(up.fields[3].value, FieldValue::Signed(42)));
    let down = log_voice_connection("g", "e", false, 42, 1);
    assert!(matches!(down.level, LogLevel::Warn));
    assert_eq!(names(&down), vec!["guild_id", "endpoint", "connected", "elapsed_ms"]);
}

#[test]
fn stats_events() {
    let ev = log_mixer_stats(2, 1, 300, 4, 9);
    assert!(matches!(ev.level, LogLevel::Trace));
    assert_eq!(ev.target, "lavende_core::mixer::stats");
    assert!(matches!(ev.fields[2].value, FieldValue::Unsigned(300)));
    let ev = log_buffer_pool_stats(2097152, 3, 4, 9);
    assert!(matches!(ev.fields[3].value, FieldValue::Percent { part: 2097152, whole: 4194304 }));
    let ev = log_memory_stats(1048576, 1048576, 5, 9);
    assert!(matches!(ev.fields[3].value, FieldValue::Mebibytes(2097152)));
    let ev = log_performance_warning("mixer", "mix", 30, 20, 9);
    assert!(matches!(ev.level, LogLevel::Warn));
    assert!(matches!(ev.fields[4].value, FieldValue::Overshoot { value: 30, threshold: 20 }));
}

#[test]
fn track_and_decoder_events() {
    let ev = log_decode_error("t1", "bad header", 48000, 2, 0);
    assert!(matches!(ev.level, LogLevel::Error));
    assert_eq!(ev.target, "lavende_core::decoder::error");
    let ev = log_track_loaded("t1", "http", 180000, 44100, 2, "mp3", 0);
    assert!(matches!(ev.level, LogLevel::Info));
    assert_eq!(names(&ev).len(), 7);
    let ev = log_gateway_event("g", "SPEAKING", true, 7, 0);
    assert!(matches!(ev.level, LogLevel::Debug));
    assert!(matches!(ev.fields[2].value, FieldValue::Flag(true)));
}

#[test]
fn elapsed_never_runs_backwards() {
    let start = 1_000;
    let mut prev = 0;
    for now in [0u64, 999, 1_000, 1_001, 5_000, u64::MAX] {
        let e = elapsed_between(start, now);
        assert!(e >= prev);
        prev = e;
    }
    assert_eq!(prev, u64::MAX - 1_000);
}
