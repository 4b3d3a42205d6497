//! Building blocks of an out-of-process logging pipeline: the wire format shared by
//! clients and the daemon, the daemon's per-connection state machine, the rotating
//! compressed log files, the archive reclaimer and the reverse decoder.

mod buffer;
mod client;
mod codec;
mod decoder;
mod extract;
mod log_file;
mod record;
mod session;
mod text;
mod usage_monitor;

pub use buffer::{buffer_contents, frozen_contents};
pub use client::{
    flush, init_config, thread_file, ClientConfig, EstablishedSession, FlushGuard, Ignore,
    LocalOutput, LoggestError, Session, Transport, TransportError,
};
pub use codec::{is_allowed_name, name_allowed, LoggestdCodec, LoggestdData, ProtocolError};
pub use decoder::{
    chunk_views, client_records, date_text, decode_stream, encode_records,
    lemma_client_records_render, lemma_line_len_bound, lemma_line_len_runs_on,
    lemma_line_len_stops, lemma_record_then, lemma_records_render, lemma_render_record_start,
    lemma_split_records_render, lemma_unrepresentable_timestamp, line_len, local_time_of,
    prefix_for, render, render_from, rendered_records, signed_decimal, single_line, time_text,
    timestamp_prefix, utf8_records, CivilTime, RecordDecoder, NEWLINE,
};
pub use extract::{
    decoded_path, first_failure, has_log_extension, log_extension, select_output, IoymError, Output,
};
pub use log_file::{
    after_write, archive_dir_of, archived_total, generate_filename, join_path, joined,
    lemma_rotation_accounting, lemma_successive_writes, opened_state, rotates, rotation_suffix, run_writes, total,
    write_done, zstd_frame, ArchiveMove, ArchivedFile, LogFile, LogFileState, Rotation,
    StorageConfig, StorageError, WritePlan, DEFAULT_COMPRESSION_LEVEL,
    DEFAULT_ROTATION_THRESHOLD,
};
pub use record::{
    append_bytes, be_u16_bytes, be_u16_value, encode_header, encode_record, header_bytes,
    lemma_header_round_trip, lemma_utf8_keeps_newlines_out, name_fits, record_bytes,
    record_frame, split_header, MAX_NAME_LEN,
};
pub use session::{LoggestdSession, SessionAction, SessionEnd, SessionError};
pub use text::{ascii_bytes, decimal, digit, padded_decimal};
pub use usage_monitor::{
    age_key, lemma_full_sweep, spec_bytes_to_gc, EntryMetadata, GcSweep, SpaceData, SweepState, UsageMonitor,
    FREE_SPACE_LOWER_PERCENT, FREE_SPACE_UPPER_PERCENT, MONITOR_PERIOD_SECS,
};
