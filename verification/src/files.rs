//! File attachments: inline `data:` URIs, base64 payloads, and the text block
//! a file becomes in a prompt.

use vstd::prelude::*;
use vstd::string::StringExecFns;

use crate::adapters::utf8_lossy;
use crate::crypto::{b64_decode, base64_decoding};
use crate::text::{
    chars_of, concat, decimal, ends_with, find_chars, first_match, has_prefix, has_suffix,
    lowercase_chars, lower, matches_at, starts_with, string_of, trim, trim_chars, u64_to_decimal,
};

verus! {

/// Max decoded attachment size that is processed.
pub const MAX_FILE_BYTES: usize = 12 * 1024 * 1024;

/// An attached file.
#[derive(Debug, Clone)]
pub struct FileData {
    pub filename: String,
    pub mime: String,
    /// a `data:` URI or bare base64
    pub data: String,
}

fn chars_span(v: &Vec<char>, a: usize, b: usize) -> (r: String)
    requires
        a <= b <= v@.len(),
    ensures
        r@ == v@.subrange(a as int, b as int),
{
    let mut out: Vec<char> = Vec::new();
    let mut k: usize = a;
    while k < b
        invariant
            a <= k <= b,
            b <= v@.len(),
            out@ == v@.subrange(a as int, k as int),
        decreases b - k,
    {
        out.push(v[k]);
        k = k + 1;
        assert(out@ =~= v@.subrange(a as int, k as int));
    }
    string_of(out.as_slice())
}

fn tail_from(v: &Vec<char>, a: usize) -> (r: String)
    requires
        a <= v@.len(),
    ensures
        r@ == v@.skip(a as int),
{
    let n: usize = v.len();
    let r = chars_span(v, a, n);
    assert(v@.subrange(a as int, n as int) =~= v@.skip(a as int));
    r
}

fn head_to(v: &Vec<char>, a: usize) -> (r: String)
    requires
        a <= v@.len(),
    ensures
        r@ == v@.take(a as int),
{
    let r = chars_span(v, 0, a);
    assert(v@.subrange(0, a as int) =~= v@.take(a as int));
    r
}

/// `(mime, payload)` of a `data:<mime>;base64,<payload>` (or
/// `data:<mime>,<payload>`) URI; `("", url)` for anything else.
pub open spec fn data_uri_parts(url: Seq<char>) -> (Seq<char>, Seq<char>) {
    if starts_with(url, "data:"@) {
        let rest = url.skip(5);
        match first_match(rest, ";base64,"@) {
            Some(i) => (rest.take(i), rest.skip(i + 8)),
            None => match first_match(rest, ","@) {
                Some(i) => (rest.take(i), rest.skip(i + 1)),
                None => (Seq::empty(), url),
            },
        }
    } else {
        (Seq::empty(), url)
    }
}

/// A `data:` URI built from a mime type without `;base64,` in it and any
/// payload parses back into that mime type and payload.
pub proof fn lemma_data_uri_roundtrip(mime: Seq<char>, payload: Seq<char>)
    requires
        forall|i: int| !#[trigger] matches_at(mime, ";base64,"@, i),
    ensures
        data_uri_parts("data:"@ + mime + ";base64,"@ + payload) == (mime, payload),
{
    reveal_strlit("data:");
    reveal_strlit(";base64,");
    reveal(first_match);
    let sep = ";base64,"@;
    let url = "data:"@ + mime + sep + payload;
    let rest = url.skip(5);
    let m = mime.len() as int;
    assert(url.subrange(0, 5) =~= "data:"@);
    assert(rest =~= mime + sep + payload);
    assert(rest.subrange(m, m + 8) =~= sep);
    assert(matches_at(rest, sep, m));
    assert forall|j: int| 0 <= j < m implies !#[trigger] matches_at(rest, sep, j) by {
        if matches_at(rest, sep, j) {
            if j + 8 <= m {
                assert(mime.subrange(j, j + 8) =~= rest.subrange(j, j + 8));
                assert(matches_at(mime, sep, j));
            } else {
                assert(rest.subrange(j, j + 8)[m - j] == rest[m]);
                assert(rest[m] == ';');
                assert(sep[m - j] != ';');
            }
        }
    }
    let i = choose|i: int| matches_at(rest, sep, i) && forall|j: int| 0 <= j < i ==> !matches_at(rest, sep, j);
    assert(matches_at(rest, sep, i) && forall|j: int| 0 <= j < i ==> !matches_at(rest, sep, j));
    assert(i == m);
    assert(rest.take(m) =~= mime);
    assert(rest.skip(m + 8) =~= payload);
}

/// Parse a `data:<mime>;base64,<payload>` URI into `(mime, payload)`. A
/// non-data URL returns `("", url)` so that callers pass it through; a data
/// URI without an explicit mime yields an empty mime.
pub fn parse_data_uri(url: &str) -> (r: (String, String))
    ensures
        r.0@ == data_uri_parts(url@).0,
        r.1@ == data_uri_parts(url@).1,
{
    proof {
        reveal_strlit("data:");
        reveal_strlit(";base64,");
        reveal_strlit(",");
    }
    let v = chars_of(url);
    let p = chars_of("data:");
    if has_prefix(v.as_slice(), p.as_slice()) {
        let rest = chars_of(tail_from(&v, 5).as_str());
        let n: usize = rest.len();
        let b64 = chars_of(";base64,");
        match find_chars(rest.as_slice(), b64.as_slice()) {
            Some(i) => {
                assert(i + 8 <= n);
                return (head_to(&rest, i), tail_from(&rest, i + 8));
            },
            None => {},
        }
        let comma = chars_of(",");
        match find_chars(rest.as_slice(), comma.as_slice()) {
            Some(i) => {
                assert(i + 1 <= n);
                return (head_to(&rest, i), tail_from(&rest, i + 1));
            },
            None => {},
        }
    }
    (String::new(), url.to_owned())
}

/// The base64 payload of an attachment: after `;base64,` when present, else
/// after a leading `data:`, else the whole text.
pub open spec fn payload_of(data: Seq<char>) -> Seq<char> {
    match first_match(data, ";base64,"@) {
        Some(i) => data.skip(i + 8),
        None => if starts_with(data, "data:"@) {
            data.skip(5)
        } else {
            data
        },
    }
}

pub const BAD_BASE64: &'static str = "decode base64 attachment";

/// Decode the bytes of a `data:` URI or a bare base64 string, refusing more
/// than `MAX_FILE_BYTES`.
pub fn decode_data(data: &str) -> (r: Result<Vec<u8>, String>)
    ensures
        match base64_decoding(trim(payload_of(data@))) {
            None => r matches Err(e) && e@ == BAD_BASE64@,
            Some(b) => if b.len() <= MAX_FILE_BYTES {
                r matches Ok(v) && v@ == b
            } else {
                r matches Err(e) && e@ == "attachment too large ("@ + decimal(b.len()) + " bytes)"@
            },
        },
{
    proof {
        reveal_strlit("data:");
        reveal_strlit(";base64,");
    }
    let v = chars_of(data);
    let n: usize = v.len();
    let b64 = chars_of(";base64,");
    let payload: String = match find_chars(v.as_slice(), b64.as_slice()) {
        Some(i) => {
            assert(i + 8 <= n);
            tail_from(&v, i + 8)
        },
        None => {
            let p = chars_of("data:");
            if has_prefix(v.as_slice(), p.as_slice()) {
                tail_from(&v, 5)
            } else {
                data.to_owned()
            }
        },
    };
    let t = string_of(trim_chars(chars_of(payload.as_str()).as_slice()).as_slice());
    match b64_decode(t.as_str()) {
        Err(_) => Err(BAD_BASE64.to_owned()),
        Ok(bytes) => {
            if bytes.len() > MAX_FILE_BYTES {
                let mut e = "attachment too large (".to_owned();
                let n = string_of(u64_to_decimal(bytes.len() as u64).as_slice());
                e.append(n.as_str());
                e.append(" bytes)");
                Err(e)
            } else {
                Ok(bytes)
            }
        },
    }
}

/// Whether a file is a PDF: by declared mime (any case) or `.pdf` name.
pub open spec fn pdf_like(mime: Seq<char>, filename: Seq<char>) -> bool {
    lower(mime) == "application/pdf"@ || ends_with(lower(filename), ".pdf"@)
}

/// True if a file looks like a PDF (by declared mime or filename).
pub fn is_pdf(file: &FileData) -> (r: bool)
    ensures
        r == pdf_like(file.mime@, file.filename@),
{
    let m = lowercase_chars(chars_of(file.mime.as_str()).as_slice());
    let n = lowercase_chars(chars_of(file.filename.as_str()).as_slice());
    let want = chars_of("application/pdf");
    let ext = chars_of(".pdf");
    crate::text::chars_eq(m.as_slice(), want.as_slice()) || has_suffix(n.as_slice(), ext.as_slice())
}

/// The text of a decoded non-PDF attachment (lossy UTF-8), trimmed.
pub fn plain_text(bytes: &[u8]) -> (r: String)
    ensures
        r@ == trim(utf8_lossy(bytes@)),
        vstd::utf8::valid_utf8(bytes@) ==> r@ == trim(vstd::utf8::decode_utf8(bytes@)),
{
    crate::adapters::line_text(bytes)
}

/// What extracting a file's text yields here: the text of a non-PDF file, or
/// the bytes of a PDF, whose text only a PDF reader can give.
#[derive(Debug)]
pub enum Extracted {
    /// the file's bytes read as UTF-8 (lossily), trimmed
    Text(String),
    /// the decoded bytes of a PDF
    Pdf(Vec<u8>),
}

/// Decode a file and, unless it is a PDF, read its text: the bytes as UTF-8
/// (invalid sequences replaced), trimmed. A PDF comes back as its bytes.
pub fn extract_text(file: &FileData) -> (r: Result<Extracted, String>)
    ensures
        match base64_decoding(trim(payload_of(file.data@))) {
            None => r matches Err(e) && e@ == BAD_BASE64@,
            Some(b) => if b.len() <= MAX_FILE_BYTES {
                if pdf_like(file.mime@, file.filename@) {
                    r matches Ok(Extracted::Pdf(v)) && v@ == b
                } else {
                    r matches Ok(Extracted::Text(t)) && t@ == trim(utf8_lossy(b))
                }
            } else {
                r matches Err(e) && e@ == "attachment too large ("@ + decimal(b.len()) + " bytes)"@
            },
        },
{
    let bytes = match decode_data(file.data.as_str()) {
        Ok(b) => b,
        Err(e) => return Err(e),
    };
    if is_pdf(file) {
        Ok(Extracted::Pdf(bytes))
    } else {
        Ok(Extracted::Text(plain_text(bytes.as_slice())))
    }
}

/// The label of a file in a prompt: its name, or `attachment`.
pub open spec fn file_label(filename: Seq<char>) -> Seq<char> {
    if filename.len() == 0 {
        "attachment"@
    } else {
        filename
    }
}

/// Render a file as a labelled text block for a prompt, from the result of
/// extracting its text.
pub fn as_prompt_block(file: &FileData, extracted: Result<String, String>) -> (r: String)
    ensures
        r@ == match extracted {
            Ok(t) => if t@.len() > 0 {
                "[file: "@ + file_label(file.filename@) + "]\n"@ + t@
            } else {
                "[file: "@ + file_label(file.filename@) + " \u{2014} empty or no extractable text]"@
            },
            Err(e) => "[file: "@ + file_label(file.filename@) + " \u{2014} could not read: "@ + e@
                + "]"@,
        },
{
    let name: &str = if file.filename.as_str().is_empty() {
        "attachment"
    } else {
        file.filename.as_str()
    };
    let mut r = "[file: ".to_owned();
    r.append(name);
    match extracted {
        Ok(t) => {
            if !t.as_str().is_empty() {
                r.append("]\n");
                r.append(t.as_str());
            } else {
                r.append(" \u{2014} empty or no extractable text]");
            }
        },
        Err(e) => {
            r.append(" \u{2014} could not read: ");
            r.append(e.as_str());
            r.append("]");
        },
    }
    r
}

} // verus!
