//! Plain-text ground work: moving between `String` and `Vec<char>`,
//! decoding raw input bytes, splitting decoded input into lines, and
//! flattening embedded line breaks.

use vstd::prelude::*;
use vstd::std_specs::iter::IteratorSpec;

verus! {

/// Collects the characters of a string slice, in order.
pub(crate) fn chars_of(s: &str) -> (r: Vec<char>)
    ensures
        r@ == s@,
{
    let mut out: Vec<char> = Vec::new();
    let mut it = s.chars();
    loop
        invariant
            it.obeys_prophetic_iter_laws(),
            it.decrease() is Some,
            out@ + it.remaining() == s@,
        decreases it.decrease()->0,
    {
        match it.next() {
            Some(c) => {
                let ghost rest = it.remaining();
                out.push(c);
                proof {
                    assert(out@ + rest =~= s@);
                }
            },
            None => {
                proof {
                    assert(out@ =~= s@);
                }
                return out;
            },
        }
    }
}

/// Relies on `String`'s `FromIterator<char>`: collecting characters builds
/// the string whose view is exactly that character sequence.
#[verifier::external_body]
pub(crate) fn string_of(v: &Vec<char>) -> (r: String)
    ensures
        r@ == v@,
{
    v.iter().collect()
}

/// Whether every byte is seven-bit.
pub open spec fn all_ascii(bytes: Seq<u8>) -> bool {
    forall|i: int| 0 <= i < bytes.len() ==> bytes[i] < 0x80
}

/// The characters of a seven-bit byte sequence, one per byte.
pub open spec fn ascii_chars(bytes: Seq<u8>) -> Seq<char> {
    bytes.map_values(|b: u8| b as char)
}

/// What std's lossy UTF-8 decoding makes of a byte sequence: a pure function
/// of the bytes alone.
pub uninterp spec fn lossy_utf8(bytes: Seq<u8>) -> Seq<char>;

/// Relies on `String::from_utf8_lossy`: the result depends on the bytes
/// alone; seven-bit bytes are valid UTF-8 and decode to one character each.
#[verifier::external_body]
pub(crate) fn lossy_string(bytes: &Vec<u8>) -> (r: String)
    ensures
        r@ == lossy_utf8(bytes@),
        all_ascii(bytes@) ==> r@ == ascii_chars(bytes@),
{
    String::from_utf8_lossy(bytes).into_owned()
}

/// What the input transcoder makes of raw bytes: UTF-8 bytes, the source
/// encoding chosen by sniffing a byte-order mark.
pub uninterp spec fn transcoded(bytes: Seq<u8>) -> Seq<u8>;

/// Relies on encoding_rs_io's `DecodeReaderBytes` read over an in-memory
/// slice: with a byte-order mark the input is transcoded to UTF-8, invalid
/// sequences replaced; without one the bytes pass through unchanged, so
/// seven-bit input comes back exactly as it went in.
#[verifier::external_body]
fn transcode_bytes(bytes: &[u8]) -> (r: Vec<u8>)
    ensures
        r@ == transcoded(bytes@),
        all_ascii(bytes@) ==> r@ == bytes@,
{
    let mut rdr = encoding_rs_io::DecodeReaderBytesBuilder::new().build(bytes);
    let mut out = Vec::new();
    match std::io::Read::read_to_end(&mut rdr, &mut out) {
        Ok(_) => out,
        Err(_) => Vec::new(),
    }
}

/// The text of raw input bytes: transcoded by byte-order mark when one is
/// present, then read as UTF-8 with invalid sequences replaced.
pub open spec fn decoded_input(bytes: Seq<u8>) -> Seq<char> {
    lossy_utf8(transcoded(bytes))
}

/// Decodes raw input file bytes to text, tolerating non-UTF-8 input.
pub fn decode_input(bytes: &[u8]) -> (r: String)
    ensures
        r@ == decoded_input(bytes@),
        all_ascii(bytes@) ==> r@ == ascii_chars(bytes@),
{
    let t = transcode_bytes(bytes);
    lossy_string(&t)
}

/// A text with every line feed replaced by a single space: one flat line.
pub open spec fn flattened(s: Seq<char>) -> Seq<char> {
    s.map_values(|c: char| if c == '\n' { ' ' } else { c })
}

/// Replaces every line feed in `s` by a single space.
pub fn flatten_newlines(s: &str) -> (r: String)
    ensures
        r@ == flattened(s@),
{
    let chars = chars_of(s);
    let mut out: Vec<char> = Vec::new();
    let mut i: usize = 0;
    while i < chars.len()
        invariant
            chars@ == s@,
            i <= chars@.len(),
            out@.len() == i,
            forall|j: int| 0 <= j < i ==> out@[j] == flattened(s@)[j],
        decreases chars@.len() - i,
    {
        let c = chars[i];
        if c == '\n' {
            out.push(' ');
        } else {
            out.push(c);
        }
        i = i + 1;
    }
    proof {
        assert(out@ =~= flattened(s@));
    }
    string_of(&out)
}

/// A line with one carriage return stripped from its tail, as line reading
/// strips it.
pub open spec fn strip_cr(line: Seq<char>) -> Seq<char> {
    if line.len() > 0 && line.last() == '\r' {
        line.drop_last()
    } else {
        line
    }
}

/// The position of the first line feed, or the length when there is none.
pub open spec fn first_nl(s: Seq<char>) -> int
    decreases s.len(),
{
    if s.len() == 0 {
        0
    } else if s[0] == '\n' {
        0
    } else {
        1 + first_nl(s.drop_first())
    }
}

/// Where a prefix of `s` holds no line feed and the next character is one —
/// or the text ends — the first line feed of `s` stands exactly there.
proof fn lemma_first_nl_at(s: Seq<char>, k: int)
    requires
        0 <= k <= s.len(),
        forall|j: int| 0 <= j < k ==> s[j] != '\n',
        k < s.len() ==> s[k] == '\n',
    ensures
        first_nl(s) == k,
    decreases s.len(),
{
    if s.len() > 0 && s[0] != '\n' {
        lemma_first_nl_at(s.drop_first(), k - 1);
    }
}

/// The lines of a text: split at every line feed, one carriage return
/// stripped before each line feed, no empty line after a final line feed,
/// and an unterminated tail kept whole — the semantics of reading a
/// buffered stream line by line.
pub open spec fn split_lines_spec(s: Seq<char>) -> Seq<Seq<char>>
    decreases s.len(),
{
    if s.len() == 0 {
        Seq::<Seq<char>>::empty()
    } else {
        let i = first_nl_clipped(s);
        if i == s.len() {
            seq![s]
        } else {
            seq![strip_cr(s.take(i))] + split_lines_spec(s.skip(i + 1))
        }
    }
}

/// The first line feed position, clipped into the text: transparent enough
/// for the recursion of `split_lines_spec` to terminate visibly.
pub open spec fn first_nl_clipped(s: Seq<char>) -> int {
    if 0 <= first_nl(s) <= s.len() {
        first_nl(s)
    } else {
        s.len() as int
    }
}

/// The lines a vector of strings stands for.
pub open spec fn line_views(v: Seq<String>) -> Seq<Seq<char>> {
    v.map_values(|l: String| l@)
}

/// Splits a decoded input text into its lines.
pub fn split_lines(s: &str) -> (r: Vec<String>)
    ensures
        line_views(r@) == split_lines_spec(s@),
{
    let chars = chars_of(s);
    let mut out: Vec<String> = Vec::new();
    let mut cur: Vec<char> = Vec::new();
    let mut start: usize = 0;
    let mut i: usize = 0;
    proof {
        assert(cur@ =~= s@.subrange(0, 0));
        assert(line_views(out@) =~= Seq::<Seq<char>>::empty());
        assert(s@.skip(0) =~= s@);
        assert(line_views(out@) + split_lines_spec(s@.skip(0)) =~= split_lines_spec(s@));
    }
    while i < chars.len()
        invariant
            chars@ == s@,
            start <= i <= chars@.len(),
            cur@ == s@.subrange(start as int, i as int),
            forall|j: int| start <= j < i ==> s@[j] != '\n',
            split_lines_spec(s@) == line_views(out@) + split_lines_spec(s@.skip(start as int)),
        decreases chars@.len() - i,
    {
        let c = chars[i];
        if c == '\n' {
            let ghost rem = s@.skip(start as int);
            let ghost k = i - start;
            proof {
                assert forall|j: int| 0 <= j < k implies rem[j] != '\n' by {
                    assert(rem[j] == s@[start + j]);
                }
                assert(rem[k] == s@[i as int]);
                lemma_first_nl_at(rem, k);
                assert(rem.take(k) =~= cur@);
                assert(rem.skip(k + 1) =~= s@.skip(i as int + 1));
                assert(split_lines_spec(rem) == seq![strip_cr(cur@)] + split_lines_spec(
                    s@.skip(i as int + 1),
                ));
            }
            if cur.len() > 0 && cur[cur.len() - 1] == '\r' {
                cur.pop();
            }
            let ghost prev = line_views(out@);
            let line = string_of(&cur);
            assert(line@ == strip_cr(rem.take(k)));
            out.push(line);
            cur = Vec::new();
            start = i + 1;
            proof {
                assert(line_views(out@) =~= prev.push(strip_cr(rem.take(k))));
                assert(prev + (seq![strip_cr(rem.take(k))] + split_lines_spec(
                    s@.skip(start as int),
                )) =~= line_views(out@) + split_lines_spec(s@.skip(start as int)));
                assert(cur@ =~= s@.subrange(start as int, start as int));
            }
        } else {
            proof {
                assert(cur@.push(c) =~= s@.subrange(start as int, i as int + 1));
            }
            cur.push(c);
        }
        i = i + 1;
    }
    if start < chars.len() {
        let ghost rem = s@.skip(start as int);
        proof {
            assert forall|j: int| 0 <= j < rem.len() implies rem[j] != '\n' by {
                assert(rem[j] == s@[start + j]);
            }
            lemma_first_nl_at(rem, rem.len() as int);
            assert(rem =~= cur@);
            assert(split_lines_spec(rem) == seq![rem]);
        }
        let ghost prev = line_views(out@);
        let line = string_of(&cur);
        assert(line@ == rem);
        out.push(line);
        proof {
            assert(line_views(out@) =~= prev.push(rem));
            assert(line_views(out@) =~= split_lines_spec(s@));
        }
    } else {
        proof {
            assert(s@.skip(start as int) =~= Seq::<char>::empty());
            assert(line_views(out@) + split_lines_spec(Seq::<char>::empty()) =~= line_views(out@));
        }
    }
    out
}

} // verus!
