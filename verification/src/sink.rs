//! The result sink: an append-only record of the run's output — the header
//! first, then one CSV row per completed lookup, in completion order.

use vstd::prelude::*;

verus! {

/// Whether the writer must quote a field: it holds the delimiter, the quote,
/// or a byte that would end the record.
pub open spec fn needs_quotes(s: Seq<char>) -> bool {
    s.contains(',') || s.contains('"') || s.contains('\n') || s.contains('\r')
}

/// A field with every quote doubled.
pub open spec fn doubled_quotes(s: Seq<char>) -> Seq<char> {
    s.flat_map(
        |c: char|
            if c == '"' {
                seq!['"', '"']
            } else {
                seq![c]
            },
    )
}

/// A field as the writer emits it: bare, or quoted with quotes doubled.
pub open spec fn csv_field(s: Seq<char>) -> Seq<char> {
    if needs_quotes(s) {
        seq!['"'] + doubled_quotes(s) + seq!['"']
    } else {
        s
    }
}

/// One two-field record as the writer emits it: the fields joined by a comma
/// and closed by a line feed.
pub open spec fn csv_row(a: Seq<char>, b: Seq<char>) -> Seq<char> {
    csv_field(a) + seq![','] + csv_field(b) + seq!['\n']
}

/// The header record written before any row.
pub open spec fn header_row() -> Seq<char> {
    csv_row("IP"@, "Whois Result"@)
}

/// Relies on csv's `Writer` with its defaults: comma delimiter, line-feed
/// terminator, fields quoted only when they hold a comma, quote, carriage
/// return or line feed, and quotes escaped by doubling.
#[verifier::external_body]
fn encode_record(a: &str, b: &str) -> (r: String)
    ensures
        r@ == csv_row(a@, b@),
{
    let mut w = csv::Writer::from_writer(Vec::new());
    let _ = w.write_record([a, b]);
    match w.into_inner() {
        Ok(buf) => String::from_utf8(buf).unwrap_or_default(),
        Err(_) => String::new(),
    }
}

/// One result record: the target's text and what its response column holds.
pub struct Record {
    pub target: String,
    pub response: String,
}

/// The sink model: whether the header is out, and every appended row in
/// order. Appends are serialized by whoever owns the sink; each append is
/// one whole record.
pub struct Sink {
    pub header_written: bool,
    pub rows: Vec<Record>,
}

impl Sink {
    /// No row precedes the header.
    pub open spec fn wf(self) -> bool {
        !self.header_written ==> self.rows@.len() == 0
    }

    /// An empty sink: nothing written.
    pub fn new() -> (s: Sink)
        ensures
            s.wf(),
            !s.header_written,
            s.rows@ == Seq::<Record>::empty(),
    {
        Sink { header_written: false, rows: Vec::new() }
    }

    /// Emits the header record, exactly once, before any row.
    pub fn write_header(&mut self) -> (line: String)
        requires
            !old(self).header_written,
        ensures
            final(self).wf(),
            final(self).header_written,
            final(self).rows == old(self).rows,
            line@ == header_row(),
    {
        self.header_written = true;
        encode_record("IP", "Whois Result")
    }

    /// Appends one whole record after the header and hands back its encoded
    /// line.
    pub fn append(&mut self, target: String, response: String) -> (line: String)
        requires
            old(self).header_written,
        ensures
            final(self).wf(),
            final(self).header_written,
            final(self).rows@ == old(self).rows@.push(Record { target, response }),
            line@ == csv_row(target@, response@),
    {
        let line = encode_record(target.as_str(), response.as_str());
        self.rows.push(Record { target, response });
        line
    }
}

} // verus!
