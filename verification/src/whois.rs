//! The WHOIS session's computable halves: framing the query line that goes
//! out, and turning the raw bytes that came back — or the failure — into the
//! one-line response column of a result row.

use vstd::prelude::*;
use crate::text::chars_of;
use crate::text::string_of;
use crate::text::flatten_newlines;
use crate::text::flattened;
use crate::text::lossy_utf8;
use crate::text::lossy_string;
use crate::text::all_ascii;
use crate::text::ascii_chars;

verus! {

/// The query line of a target: the target's text closed by a carriage return
/// and a line feed.
pub open spec fn query_text(target: Seq<char>) -> Seq<char> {
    target + seq!['\r', '\n']
}

/// Frames one WHOIS query: the target followed by a carriage return and a
/// line feed, ready to be sent as one line.
pub fn query_line(target: &str) -> (r: String)
    ensures
        r@ == query_text(target@),
{
    let mut v = chars_of(target);
    v.push('\r');
    v.push('\n');
    proof {
        assert(v@ =~= query_text(target@));
    }
    string_of(&v)
}

/// The response column of a raw response: lossily decoded, then every line
/// break replaced by a space so the record stays one logical line.
pub open spec fn response_text(bytes: Seq<u8>) -> Seq<char> {
    flattened(lossy_utf8(bytes))
}

/// Decodes the bytes a WHOIS peer sent until close, tolerating invalid
/// UTF-8, and flattens them to one line.
pub fn decode_response(bytes: &Vec<u8>) -> (r: String)
    ensures
        r@ == response_text(bytes@),
        all_ascii(bytes@) ==> r@ == flattened(ascii_chars(bytes@)),
{
    let s = lossy_string(bytes);
    flatten_newlines(s.as_str())
}

/// Why a lookup failed: the connection could not be made, or the session's
/// write or read broke off midway.
#[derive(Clone, Copy, Debug, PartialEq, Eq, Structural)]
pub enum LookupError {
    Connection,
    ProtocolIo,
}

impl LookupError {
    /// The visible marker recorded in a row's response column in place of a
    /// response.
    pub open spec fn marker_text(self) -> Seq<char> {
        match self {
            LookupError::Connection => "ERROR: connection failed"@,
            LookupError::ProtocolIo => "ERROR: lookup failed"@,
        }
    }

    /// The marker as an owned string.
    pub fn marker(self) -> (r: String)
        ensures
            r@ == self.marker_text(),
    {
        match self {
            LookupError::Connection => "ERROR: connection failed".to_owned(),
            LookupError::ProtocolIo => "ERROR: lookup failed".to_owned(),
        }
    }
}

/// Whether a text is one of the visible error markers.
pub open spec fn is_error_marker(s: Seq<char>) -> bool {
    s == LookupError::Connection.marker_text() || s == LookupError::ProtocolIo.marker_text()
}

/// The outcome of one lookup unit: a flattened response, or the failure —
/// a failure never silences the unit's row.
pub enum LookupOutcome {
    Response(String),
    Failed(LookupError),
}

impl LookupOutcome {
    /// What the unit's row records in its response column.
    pub open spec fn row_text(self) -> Seq<char> {
        match self {
            LookupOutcome::Response(s) => s@,
            LookupOutcome::Failed(e) => e.marker_text(),
        }
    }

    /// The response column as an owned string.
    pub fn into_row_text(self) -> (r: String)
        ensures
            r@ == self.row_text(),
    {
        match self {
            LookupOutcome::Response(s) => s,
            LookupOutcome::Failed(e) => e.marker(),
        }
    }
}

} // verus!
