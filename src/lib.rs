//! Renders tracing events as Bunyan-style newline-delimited JSON records.
pub mod encode;
pub mod field;
pub mod layer;
pub mod level;
pub mod number;
pub mod record;

pub use encode::{
    emit, encode_record, encode_value, format_record, format_record_at, frame_member,
    frame_object, FormatError,
};
pub use field::{is_reserved, set_field, text_equals, text_field, Field, FieldValue};
pub use layer::BunyanFormattingLayer;
pub use level::{format_log_level, Severity};
pub use record::{format_event_message, record_fields, EventData, SpanData};
pub use number::is_number_text;
