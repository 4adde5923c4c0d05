use vstd::prelude::*;

use crate::encode::{
    format_record, is_utc_stamp, record_line, record_numbers_valid, single_line_object, FormatError,
};
use crate::record::{record_view, span_of, EventData, SpanData};

verus! {

/// Formats events as Bunyan records and hands each finished line to the
/// writer that `make_writer` supplies.
pub struct BunyanFormattingLayer<W> {
    make_writer: W,
}

impl<W> BunyanFormattingLayer<W> {
    /// The factory of the sinks that records are written to.
    pub closed spec fn writer_factory(&self) -> W {
        self.make_writer
    }

    /// Creates a layer that writes through `make_writer`.
    pub fn new(make_writer: W) -> (r: Self)
        ensures
            r.writer_factory() == make_writer,
    {
        Self { make_writer }
    }

    /// The factory of the sinks that records are written to.
    pub fn make_writer(&self) -> (r: &W)
        ensures
            *r == self.writer_factory(),
    {
        &self.make_writer
    }

    /// Renders the record of `event`, fired while `span` is active, as one
    /// line stamped with the current time. The whole line, newline included,
    /// is meant to reach the sink in one write. It fails only when a number
    /// that the event or the span contributes is not a JSON number literal.
    pub fn format_event(&self, event: &EventData, span: Option<&SpanData>) -> (r: Result<String, FormatError>)
        ensures
            r is Ok <==> record_numbers_valid(*event, span_of(span)),
            r is Ok ==> exists|time: Seq<char>|
                is_utc_stamp(time) && r->Ok_0@ == record_line(record_view(*event, span_of(span), time)),
            r is Ok ==> single_line_object(r->Ok_0@),
            r is Err ==> r->Err_0 == FormatError::InvalidNumber,
    {
        format_record(event, span)
    }
}

} // verus!
