//! The body builder: turns a body template and a tick's rendered
//! artefacts into a streaming HTTP body with a known content length.
//!
//! Templates are rendered by the external template engine and the
//! bytes of file parts stay on disk; what is built here is the exact
//! byte layout around them — and the length reported equals the bytes
//! that layout streams.

use crate::error::RecoverableError;
use vstd::prelude::*;

verus! {

/// The body of an endpoint's requests, as configuration compiles it.
#[derive(Debug, Clone)]
pub enum BodyTemplate {
    /// No body.
    Empty,
    /// A rendered string.
    Text(crate::request::Template),
    /// A file whose name the template renders; the string is the base
    /// path it is resolved against.
    File(String, crate::request::Template),
    /// A multipart body.
    Multipart(MultipartBody),
}

/// One part of a multipart body.
#[derive(Debug, Clone)]
pub struct MultipartPiece {
    /// The part's name, for a synthesised content-disposition.
    pub name: Vec<u8>,
    /// The rendered value names a file to stream rather than inline
    /// text.
    pub is_file: bool,
    /// Extra headers of the part, values templated.
    pub headers: Vec<(Vec<u8>, crate::request::Template)>,
    /// The part's value (or file name) template.
    pub template: crate::request::Template,
}

/// A multipart body: its parts and the base path file parts resolve
/// against.
#[derive(Debug, Clone)]
pub struct MultipartBody {
    /// The base path for file parts.
    pub path: String,
    /// The parts, in order.
    pub pieces: Vec<MultipartPiece>,
}

/// One part after the template engine has run: headers and value are
/// plain bytes. Header names are normalised to lower case, as header
/// validation leaves them.
pub struct RenderedPiece {
    /// The part's name.
    pub name: Vec<u8>,
    /// The value names a file.
    pub is_file: bool,
    /// Rendered headers, names lower-case.
    pub headers: Vec<(Vec<u8>, Vec<u8>)>,
    /// The rendered value; for a file part, the resolved path.
    pub body: Vec<u8>,
    /// The file's byte length for a file part, zero otherwise.
    pub file_len: u64,
}

/// One chunk of a streaming body.
#[derive(Debug, PartialEq, Eq)]
pub enum BodyChunk {
    /// Bytes held in memory.
    Inline(Vec<u8>),
    /// A file streamed from disk: its path and its byte length.
    FileRef(Vec<u8>, u64),
}

/// The mathematical shape of a chunk.
#[verifier::ext_equal]
pub enum ChunkV {
    Inline(Seq<u8>),
    FileRef(Seq<u8>, u64),
}

/// The mathematical chunk a `BodyChunk` holds.
pub open spec fn chunk_view(c: BodyChunk) -> ChunkV {
    match c {
        BodyChunk::Inline(b) => ChunkV::Inline(b@),
        BodyChunk::FileRef(p, len) => ChunkV::FileRef(p@, len),
    }
}

/// The mathematical chunks a sequence holds.
pub open spec fn chunk_views(s: Seq<BodyChunk>) -> Seq<ChunkV>
    decreases s.len(),
{
    if s.len() == 0 {
        Seq::empty()
    } else {
        chunk_views(s.drop_last()).push(chunk_view(s.last()))
    }
}

pub broadcast proof fn lemma_chunk_views(s: Seq<BodyChunk>)
    ensures
        (#[trigger] chunk_views(s)).len() == s.len(),
        forall|i: int| 0 <= i < s.len() ==> chunk_views(s)[i] == chunk_view(s[i]),
    decreases s.len(),
{
    if s.len() > 0 {
        lemma_chunk_views(s.drop_last());
    }
}

/// The bytes one chunk streams.
pub open spec fn spec_chunk_len(c: ChunkV) -> nat {
    match c {
        ChunkV::Inline(b) => b.len(),
        ChunkV::FileRef(_, len) => len as nat,
    }
}

/// The bytes a chunk sequence streams.
pub open spec fn spec_chunks_len(cs: Seq<ChunkV>) -> nat
    decreases cs.len(),
{
    if cs.len() == 0 {
        0
    } else {
        spec_chunks_len(cs.drop_last()) + spec_chunk_len(cs.last())
    }
}

/// Streamed bytes add up over concatenation.
pub proof fn lemma_chunks_len_concat(a: Seq<ChunkV>, b: Seq<ChunkV>)
    ensures
        spec_chunks_len(a + b) == spec_chunks_len(a) + spec_chunks_len(b),
    decreases b.len(),
{
    if b.len() == 0 {
        assert(a + b =~= a);
    } else {
        lemma_chunks_len_concat(a, b.drop_last());
        assert((a + b).drop_last() =~= a + b.drop_last());
        assert((a + b).last() == b.last());
    }
}

/// A built body: the chunks to stream and the length to report.
pub struct BuiltBody {
    /// The content length set on the request.
    pub content_length: u64,
    /// The chunks, streamed in order.
    pub chunks: Vec<BodyChunk>,
    /// The request's content type, rewritten for a multipart body.
    pub content_type: Option<Vec<u8>>,
    /// The human-readable copy for `request.body`, when asked for:
    /// file contents are replaced by a placeholder.
    pub body_value: Option<Vec<u8>>,
}

/// Whether `s` starts with `p`.
pub open spec fn spec_starts_with(s: Seq<u8>, p: Seq<u8>) -> bool {
    s.len() >= p.len() && s.subrange(0, p.len() as int) == p
}

pub(crate) fn starts_with(s: &Vec<u8>, p: &Vec<u8>) -> (r: bool)
    ensures
        r == spec_starts_with(s@, p@),
{
    if s.len() < p.len() {
        return false;
    }
    let mut i: usize = 0;
    while i < p.len()
        invariant
            i <= p@.len(),
            p@.len() <= s@.len(),
            forall|k: int| 0 <= k < i ==> s@[k] == p@[k],
        decreases p@.len() - i,
    {
        if s[i] != p[i] {
            proof {
                assert(s@.subrange(0, p@.len() as int)[i as int] != p@[i as int]);
            }
            return false;
        }
        i += 1;
    }
    proof {
        assert(s@.subrange(0, p@.len() as int) =~= p@);
    }
    true
}

/// Appends `b` to `out`.
pub fn append_bytes(out: &mut Vec<u8>, b: &[u8])
    ensures
        final(out)@ == old(out)@ + b@,
{
    let mut i: usize = 0;
    while i < b.len()
        invariant
            i <= b@.len(),
            out@ == old(out)@ + b@.subrange(0, i as int),
        decreases b@.len() - i,
    {
        out.push(b[i]);
        proof {
            assert(old(out)@ + b@.subrange(0, i + 1) =~= (old(out)@ + b@.subrange(0, i as int)).push(
                b@[i as int],
            ));
        }
        i += 1;
    }
    proof {
        assert(b@.subrange(0, b@.len() as int) =~= b@);
    }
}

/// Compares a byte vector with another.
fn vecs_eq(a: &Vec<u8>, b: &Vec<u8>) -> (r: bool)
    ensures
        r == (a@ == b@),
{
    if a.len() != b.len() {
        return false;
    }
    let mut i: usize = 0;
    while i < a.len()
        invariant
            i <= a@.len(),
            a@.len() == b@.len(),
            forall|k: int| 0 <= k < i ==> a@[k] == b@[k],
        decreases a@.len() - i,
    {
        if a[i] != b[i] {
            return false;
        }
        i += 1;
    }
    proof {
        assert(a@ =~= b@);
    }
    true
}

/// The bytes of `"\r\n"`.
pub open spec fn spec_crlf() -> Seq<u8> {
    seq![13u8, 10u8]
}

fn lit_crlf() -> (r: Vec<u8>)
    ensures
        r@ == spec_crlf(),
{
    let a: [u8; 2] = [13, 10];
    let mut out: Vec<u8> = Vec::new();
    append_bytes(&mut out, a.as_slice());
    proof {
        assert(a@ =~= spec_crlf());
        assert(out@ =~= spec_crlf());
    }
    out
}

/// The bytes of `": "`.
pub open spec fn spec_colon_space() -> Seq<u8> {
    seq![58u8, 32u8]
}

fn lit_colon_space() -> (r: Vec<u8>)
    ensures
        r@ == spec_colon_space(),
{
    let a: [u8; 2] = [58, 32];
    let mut out: Vec<u8> = Vec::new();
    append_bytes(&mut out, a.as_slice());
    proof {
        assert(a@ =~= spec_colon_space());
        assert(out@ =~= spec_colon_space());
    }
    out
}

/// The bytes of `"content-disposition"`.
pub open spec fn spec_content_disposition() -> Seq<u8> {
    seq![99u8, 111u8, 110u8, 116u8, 101u8, 110u8, 116u8, 45u8, 100u8, 105u8, 115u8, 112u8, 111u8, 115u8, 105u8, 116u8, 105u8, 111u8, 110u8]
}

fn lit_content_disposition() -> (r: Vec<u8>)
    ensures
        r@ == spec_content_disposition(),
{
    let a: [u8; 19] = [99, 111, 110, 116, 101, 110, 116, 45, 100, 105, 115, 112, 111, 115, 105, 116, 105, 111, 110];
    let mut out: Vec<u8> = Vec::new();
    append_bytes(&mut out, a.as_slice());
    proof {
        assert(a@ =~= spec_content_disposition());
        assert(out@ =~= spec_content_disposition());
    }
    out
}

/// The bytes of `"\r\ncontent-disposition: "`.
pub open spec fn spec_cd_header() -> Seq<u8> {
    seq![13u8, 10u8, 99u8, 111u8, 110u8, 116u8, 101u8, 110u8, 116u8, 45u8, 100u8, 105u8, 115u8, 112u8, 111u8, 115u8, 105u8, 116u8, 105u8, 111u8, 110u8, 58u8, 32u8]
}

fn lit_cd_header() -> (r: Vec<u8>)
    ensures
        r@ == spec_cd_header(),
{
    let a: [u8; 23] = [13, 10, 99, 111, 110, 116, 101, 110, 116, 45, 100, 105, 115, 112, 111, 115, 105, 116, 105, 111, 110, 58, 32];
    let mut out: Vec<u8> = Vec::new();
    append_bytes(&mut out, a.as_slice());
    proof {
        assert(a@ =~= spec_cd_header());
        assert(out@ =~= spec_cd_header());
    }
    out
}

/// The bytes of `"form-data; name=\""`.
pub open spec fn spec_form_data_name() -> Seq<u8> {
    seq![102u8, 111u8, 114u8, 109u8, 45u8, 100u8, 97u8, 116u8, 97u8, 59u8, 32u8, 110u8, 97u8, 109u8, 101u8, 61u8, 34u8]
}

fn lit_form_data_name() -> (r: Vec<u8>)
    ensures
        r@ == spec_form_data_name(),
{
    let a: [u8; 17] = [102, 111, 114, 109, 45, 100, 97, 116, 97, 59, 32, 110, 97, 109, 101, 61, 34];
    let mut out: Vec<u8> = Vec::new();
    append_bytes(&mut out, a.as_slice());
    proof {
        assert(a@ =~= spec_form_data_name());
        assert(out@ =~= spec_form_data_name());
    }
    out
}

/// The bytes of `"; filename=\""`.
pub open spec fn spec_filename_attr() -> Seq<u8> {
    seq![59u8, 32u8, 102u8, 105u8, 108u8, 101u8, 110u8, 97u8, 109u8, 101u8, 61u8, 34u8]
}

fn lit_filename_attr() -> (r: Vec<u8>)
    ensures
        r@ == spec_filename_attr(),
{
    let a: [u8; 12] = [59, 32, 102, 105, 108, 101, 110, 97, 109, 101, 61, 34];
    let mut out: Vec<u8> = Vec::new();
    append_bytes(&mut out, a.as_slice());
    proof {
        assert(a@ =~= spec_filename_attr());
        assert(out@ =~= spec_filename_attr());
    }
    out
}

/// The bytes of `"\r\n\r\n"`.
pub open spec fn spec_crlf_crlf() -> Seq<u8> {
    seq![13u8, 10u8, 13u8, 10u8]
}

fn lit_crlf_crlf() -> (r: Vec<u8>)
    ensures
        r@ == spec_crlf_crlf(),
{
    let a: [u8; 4] = [13, 10, 13, 10];
    let mut out: Vec<u8> = Vec::new();
    append_bytes(&mut out, a.as_slice());
    proof {
        assert(a@ =~= spec_crlf_crlf());
        assert(out@ =~= spec_crlf_crlf());
    }
    out
}

/// The bytes of `"--"`.
pub open spec fn spec_open_dashes() -> Seq<u8> {
    seq![45u8, 45u8]
}

fn lit_open_dashes() -> (r: Vec<u8>)
    ensures
        r@ == spec_open_dashes(),
{
    let a: [u8; 2] = [45, 45];
    let mut out: Vec<u8> = Vec::new();
    append_bytes(&mut out, a.as_slice());
    proof {
        assert(a@ =~= spec_open_dashes());
        assert(out@ =~= spec_open_dashes());
    }
    out
}

/// The bytes of `"\r\n--"`.
pub open spec fn spec_sep_dashes() -> Seq<u8> {
    seq![13u8, 10u8, 45u8, 45u8]
}

fn lit_sep_dashes() -> (r: Vec<u8>)
    ensures
        r@ == spec_sep_dashes(),
{
    let a: [u8; 4] = [13, 10, 45, 45];
    let mut out: Vec<u8> = Vec::new();
    append_bytes(&mut out, a.as_slice());
    proof {
        assert(a@ =~= spec_sep_dashes());
        assert(out@ =~= spec_sep_dashes());
    }
    out
}

/// The bytes of `"--\r\n"`.
pub open spec fn spec_close_end() -> Seq<u8> {
    seq![45u8, 45u8, 13u8, 10u8]
}

fn lit_close_end() -> (r: Vec<u8>)
    ensures
        r@ == spec_close_end(),
{
    let a: [u8; 4] = [45, 45, 13, 10];
    let mut out: Vec<u8> = Vec::new();
    append_bytes(&mut out, a.as_slice());
    proof {
        assert(a@ =~= spec_close_end());
        assert(out@ =~= spec_close_end());
    }
    out
}

/// The bytes of `"multipart/"`.
pub open spec fn spec_multipart_prefix() -> Seq<u8> {
    seq![109u8, 117u8, 108u8, 116u8, 105u8, 112u8, 97u8, 114u8, 116u8, 47u8]
}

fn lit_multipart_prefix() -> (r: Vec<u8>)
    ensures
        r@ == spec_multipart_prefix(),
{
    let a: [u8; 10] = [109, 117, 108, 116, 105, 112, 97, 114, 116, 47];
    let mut out: Vec<u8> = Vec::new();
    append_bytes(&mut out, a.as_slice());
    proof {
        assert(a@ =~= spec_multipart_prefix());
        assert(out@ =~= spec_multipart_prefix());
    }
    out
}

/// The bytes of `"multipart/form-data"`.
pub open spec fn spec_multipart_form() -> Seq<u8> {
    seq![109u8, 117u8, 108u8, 116u8, 105u8, 112u8, 97u8, 114u8, 116u8, 47u8, 102u8, 111u8, 114u8, 109u8, 45u8, 100u8, 97u8, 116u8, 97u8]
}

fn lit_multipart_form() -> (r: Vec<u8>)
    ensures
        r@ == spec_multipart_form(),
{
    let a: [u8; 19] = [109, 117, 108, 116, 105, 112, 97, 114, 116, 47, 102, 111, 114, 109, 45, 100, 97, 116, 97];
    let mut out: Vec<u8> = Vec::new();
    append_bytes(&mut out, a.as_slice());
    proof {
        assert(a@ =~= spec_multipart_form());
        assert(out@ =~= spec_multipart_form());
    }
    out
}

/// The bytes of `"boundary="`.
pub open spec fn spec_boundary_key() -> Seq<u8> {
    seq![98u8, 111u8, 117u8, 110u8, 100u8, 97u8, 114u8, 121u8, 61u8]
}

fn lit_boundary_key() -> (r: Vec<u8>)
    ensures
        r@ == spec_boundary_key(),
{
    let a: [u8; 9] = [98, 111, 117, 110, 100, 97, 114, 121, 61];
    let mut out: Vec<u8> = Vec::new();
    append_bytes(&mut out, a.as_slice());
    proof {
        assert(a@ =~= spec_boundary_key());
        assert(out@ =~= spec_boundary_key());
    }
    out
}

/// The bytes of `";boundary="`.
pub open spec fn spec_boundary_param() -> Seq<u8> {
    seq![59u8, 98u8, 111u8, 117u8, 110u8, 100u8, 97u8, 114u8, 121u8, 61u8]
}

fn lit_boundary_param() -> (r: Vec<u8>)
    ensures
        r@ == spec_boundary_param(),
{
    let a: [u8; 10] = [59, 98, 111, 117, 110, 100, 97, 114, 121, 61];
    let mut out: Vec<u8> = Vec::new();
    append_bytes(&mut out, a.as_slice());
    proof {
        assert(a@ =~= spec_boundary_param());
        assert(out@ =~= spec_boundary_param());
    }
    out
}

/// The bytes of `"multipart/form-data;boundary="`.
pub open spec fn spec_multipart_form_boundary() -> Seq<u8> {
    seq![109u8, 117u8, 108u8, 116u8, 105u8, 112u8, 97u8, 114u8, 116u8, 47u8, 102u8, 111u8, 114u8, 109u8, 45u8, 100u8, 97u8, 116u8, 97u8, 59u8, 98u8, 111u8, 117u8, 110u8, 100u8, 97u8, 114u8, 121u8, 61u8]
}

fn lit_multipart_form_boundary() -> (r: Vec<u8>)
    ensures
        r@ == spec_multipart_form_boundary(),
{
    let a: [u8; 29] = [109, 117, 108, 116, 105, 112, 97, 114, 116, 47, 102, 111, 114, 109, 45, 100, 97, 116, 97, 59, 98, 111, 117, 110, 100, 97, 114, 121, 61];
    let mut out: Vec<u8> = Vec::new();
    append_bytes(&mut out, a.as_slice());
    proof {
        assert(a@ =~= spec_multipart_form_boundary());
        assert(out@ =~= spec_multipart_form_boundary());
    }
    out
}

/// The bytes of `"<<contents of file: "`.
pub open spec fn spec_file_marker_open() -> Seq<u8> {
    seq![60u8, 60u8, 99u8, 111u8, 110u8, 116u8, 101u8, 110u8, 116u8, 115u8, 32u8, 111u8, 102u8, 32u8, 102u8, 105u8, 108u8, 101u8, 58u8, 32u8]
}

fn lit_file_marker_open() -> (r: Vec<u8>)
    ensures
        r@ == spec_file_marker_open(),
{
    let a: [u8; 20] = [60, 60, 99, 111, 110, 116, 101, 110, 116, 115, 32, 111, 102, 32, 102, 105, 108, 101, 58, 32];
    let mut out: Vec<u8> = Vec::new();
    append_bytes(&mut out, a.as_slice());
    proof {
        assert(a@ =~= spec_file_marker_open());
        assert(out@ =~= spec_file_marker_open());
    }
    out
}

/// The bytes of `">>"`.
pub open spec fn spec_file_marker_close() -> Seq<u8> {
    seq![62u8, 62u8]
}

fn lit_file_marker_close() -> (r: Vec<u8>)
    ensures
        r@ == spec_file_marker_close(),
{
    let a: [u8; 2] = [62, 62];
    let mut out: Vec<u8> = Vec::new();
    append_bytes(&mut out, a.as_slice());
    proof {
        assert(a@ =~= spec_file_marker_close());
        assert(out@ =~= spec_file_marker_close());
    }
    out
}


/// Whether `p` occurs inside `s`.
pub open spec fn spec_contains_seq(s: Seq<u8>, p: Seq<u8>) -> bool {
    exists|i: int| 0 <= i && i + p.len() <= s.len() && #[trigger] s.subrange(i, i + p.len()) == p
}

#[verifier::loop_isolation(false)]
fn match_at(s: &Vec<u8>, p: &Vec<u8>, i: usize) -> (r: bool)
    requires
        i + p@.len() <= s@.len(),
    ensures
        r == (s@.subrange(i as int, i + p@.len()) == p@),
{
    let n = s.len();
    let mut t: usize = 0;
    while t < p.len()
        invariant
            t <= p@.len(),
            i + p@.len() <= s@.len(),
            forall|u: int| 0 <= u < t ==> s@[i + u] == p@[u],
        decreases p@.len() - t,
    {
        proof {
            assert(i + t < n);
        }
        if s[i + t] != p[t] {
            proof {
                assert(s@.subrange(i as int, i + p@.len())[t as int] != p@[t as int]);
            }
            return false;
        }
        t += 1;
    }
    proof {
        assert(s@.subrange(i as int, i + p@.len()) =~= p@);
    }
    true
}

/// Whether `p` occurs inside `s`.
#[verifier::loop_isolation(false)]
fn contains_seq(s: &Vec<u8>, p: &Vec<u8>) -> (r: bool)
    ensures
        r == spec_contains_seq(s@, p@),
{
    let n = s.len();
    let m = p.len();
    if m > n {
        proof {
            assert(!spec_contains_seq(s@, p@));
        }
        return false;
    }
    if m == 0 {
        proof {
            assert(s@.subrange(0, 0 + p@.len() as int) =~= p@);
            assert(spec_contains_seq(s@, p@));
        }
        return true;
    }
    let mut i: usize = 0;
    while i <= n - m
        invariant
            1 <= m == p@.len() <= s@.len() == n,
            i <= n - m + 1,
            forall|j: int|
                0 <= j < i ==> #[trigger] s@.subrange(j, j + p@.len()) != p@,
        decreases n - m + 1 - i,
    {
        if match_at(s, p, i) {
            return true;
        }
        i += 1;
    }
    false
}

/// The request's content type after the multipart rewrite, and
/// whether the body is form-mode: an absent or non-multipart type
/// becomes `multipart/form-data` with the boundary; a multipart type
/// gains the boundary only when it carries none yet.
pub open spec fn spec_multipart_content_type(ct: Option<Vec<u8>>, boundary: Seq<u8>) -> (
    Seq<u8>,
    bool,
) {
    match ct {
        Some(c) => if spec_starts_with(c@, spec_multipart_prefix()) {
            let form = spec_starts_with(c@, spec_multipart_form());
            if spec_contains_seq(c@, spec_boundary_key()) {
                (c@, form)
            } else {
                (c@ + spec_boundary_param() + boundary, form)
            }
        } else {
            (spec_multipart_form_boundary() + boundary, true)
        },
        None => (spec_multipart_form_boundary() + boundary, true),
    }
}

/// Rewrites the request's content type around the boundary.
pub fn multipart_content_type(ct: Option<Vec<u8>>, boundary: &Vec<u8>) -> (r: (Vec<u8>, bool))
    ensures
        (r.0@, r.1) == spec_multipart_content_type(ct, boundary@),
{
    match ct {
        Some(c) => {
            let mp = lit_multipart_prefix();
            if starts_with(&c, &mp) {
                let form = starts_with(&c, &lit_multipart_form());
                if contains_seq(&c, &lit_boundary_key()) {
                    (c, form)
                } else {
                    let mut out = c;
                    append_bytes(&mut out, lit_boundary_param().as_slice());
                    append_bytes(&mut out, boundary.as_slice());
                    (out, form)
                }
            } else {
                let mut out = lit_multipart_form_boundary();
                append_bytes(&mut out, boundary.as_slice());
                (out, true)
            }
        },
        None => {
            let mut out = lit_multipart_form_boundary();
            append_bytes(&mut out, boundary.as_slice());
            (out, true)
        },
    }
}

/// The synthesised `content-disposition` value of a part without its
/// own, in form mode.
pub open spec fn spec_cd_value(piece: RenderedPiece) -> Seq<u8> {
    let head = spec_form_data_name() + piece.name@ + seq![34u8];
    if piece.is_file {
        head + spec_filename_attr() + piece.body@ + seq![34u8]
    } else {
        head
    }
}

/// Whether a part carries its own `content-disposition` header.
pub open spec fn spec_has_cd(piece: RenderedPiece) -> bool {
    exists|k: int|
        0 <= k < piece.headers@.len() && piece.headers@[k].0@ == spec_content_disposition()
}

/// The `\r\nname: value` serialisation of a part's headers.
pub open spec fn spec_headers_bytes(headers: Seq<(Vec<u8>, Vec<u8>)>) -> Seq<u8>
    decreases headers.len(),
{
    if headers.len() == 0 {
        Seq::empty()
    } else {
        spec_headers_bytes(headers.drop_last()) + spec_crlf() + headers.last().0@
            + spec_colon_space() + headers.last().1@
    }
}

/// The boundary line and headers in front of one part's payload.
pub open spec fn spec_piece_prefix(
    piece: RenderedPiece,
    boundary: Seq<u8>,
    first: bool,
    is_form: bool,
) -> Seq<u8> {
    let opener = if first {
        spec_open_dashes()
    } else {
        spec_sep_dashes()
    };
    let cd = if is_form && !spec_has_cd(piece) {
        spec_cd_header() + spec_cd_value(piece)
    } else {
        Seq::<u8>::empty()
    };
    opener + boundary + spec_headers_bytes(piece.headers@) + cd + spec_crlf_crlf()
}

/// The closing boundary line.
pub open spec fn spec_closing_boundary(boundary: Seq<u8>) -> Seq<u8> {
    spec_sep_dashes() + boundary + spec_close_end()
}

/// The chunks one part streams.
pub open spec fn spec_piece_chunks(
    piece: RenderedPiece,
    boundary: Seq<u8>,
    first: bool,
    is_form: bool,
) -> Seq<ChunkV> {
    if piece.is_file {
        seq![
            ChunkV::Inline(spec_piece_prefix(piece, boundary, first, is_form)),
            ChunkV::FileRef(piece.body@, piece.file_len),
        ]
    } else {
        seq![ChunkV::Inline(spec_piece_prefix(piece, boundary, first, is_form) + piece.body@)]
    }
}

/// The chunks the parts from `j` on stream, closing boundary last.
pub open spec fn spec_mp_chunks(
    pieces: Seq<RenderedPiece>,
    boundary: Seq<u8>,
    is_form: bool,
    j: int,
) -> Seq<ChunkV>
    decreases pieces.len() - j,
{
    if j < 0 || j >= pieces.len() {
        seq![ChunkV::Inline(spec_closing_boundary(boundary))]
    } else {
        spec_piece_chunks(pieces[j], boundary, j == 0, is_form) + spec_mp_chunks(
            pieces,
            boundary,
            is_form,
            j + 1,
        )
    }
}

/// The human-readable copy of one part: a file part stands in for its
/// bytes with a placeholder naming the file.
pub open spec fn spec_piece_text(
    piece: RenderedPiece,
    boundary: Seq<u8>,
    first: bool,
    is_form: bool,
) -> Seq<u8> {
    let payload = if piece.is_file {
        spec_file_marker_open() + piece.body@ + spec_file_marker_close()
    } else {
        piece.body@
    };
    spec_piece_prefix(piece, boundary, first, is_form) + payload
}

/// The human-readable copy of the parts from `j` on.
pub open spec fn spec_mp_text(
    pieces: Seq<RenderedPiece>,
    boundary: Seq<u8>,
    is_form: bool,
    j: int,
) -> Seq<u8>
    decreases pieces.len() - j,
{
    if j < 0 || j >= pieces.len() {
        spec_closing_boundary(boundary)
    } else {
        spec_piece_text(pieces[j], boundary, j == 0, is_form) + spec_mp_text(
            pieces,
            boundary,
            is_form,
            j + 1,
        )
    }
}

/// Builds the prefix bytes of one part.
#[verifier::loop_isolation(false)]
fn piece_prefix(piece: &RenderedPiece, boundary: &Vec<u8>, first: bool, is_form: bool) -> (r: Vec<
    u8,
>)
    ensures
        r@ == spec_piece_prefix(*piece, boundary@, first, is_form),
{
    let mut out: Vec<u8>;
    if first {
        out = lit_open_dashes();
    } else {
        out = lit_sep_dashes();
    }
    let ghost opener = out@;
    append_bytes(&mut out, boundary.as_slice());
    let mut has_cd = false;
    let cd_name = lit_content_disposition();
    let mut k: usize = 0;
    while k < piece.headers.len()
        invariant
            k <= piece.headers@.len(),
            out@ == opener + boundary@ + spec_headers_bytes(piece.headers@.subrange(0, k as int)),
            has_cd == exists|t: int|
                0 <= t < k && piece.headers@[t].0@ == spec_content_disposition(),
        decreases piece.headers@.len() - k,
    {
        append_bytes(&mut out, lit_crlf().as_slice());
        append_bytes(&mut out, piece.headers[k].0.as_slice());
        append_bytes(&mut out, lit_colon_space().as_slice());
        append_bytes(&mut out, piece.headers[k].1.as_slice());
        let is_cd = vecs_eq(&piece.headers[k].0, &cd_name);
        has_cd = has_cd || is_cd;
        proof {
            let pre = piece.headers@.subrange(0, k + 1);
            assert(pre.drop_last() =~= piece.headers@.subrange(0, k as int));
            assert(out@ =~= opener + boundary@ + spec_headers_bytes(pre));
        }
        k += 1;
    }
    proof {
        assert(piece.headers@.subrange(0, piece.headers@.len() as int) =~= piece.headers@);
    }
    if is_form && !has_cd {
        append_bytes(&mut out, lit_cd_header().as_slice());
        append_bytes(&mut out, lit_form_data_name().as_slice());
        append_bytes(&mut out, piece.name.as_slice());
        out.push(34);
        if piece.is_file {
            append_bytes(&mut out, lit_filename_attr().as_slice());
            append_bytes(&mut out, piece.body.as_slice());
            out.push(34);
        }
        proof {
            assert(out@ =~= opener + boundary@ + spec_headers_bytes(piece.headers@)
                + spec_cd_header() + spec_cd_value(*piece));
        }
    }
    append_bytes(&mut out, lit_crlf_crlf().as_slice());
    proof {
        assert(out@ =~= spec_piece_prefix(*piece, boundary@, first, is_form));
    }
    out
}

/// Relies on rand's `Alphanumeric` distribution over `u8`: each
/// sample is one ASCII letter or digit. Returns the 20-byte random
/// boundary of a multipart body; nothing but its length and its
/// alphabet is promised of it.
#[verifier::external_body]
fn random_boundary() -> (r: Vec<u8>)
    ensures
        r@.len() == 20,
        forall|i: int|
            0 <= i < r@.len() ==> (48 <= #[trigger] r@[i] <= 57 || 65 <= r@[i] <= 90 || 97 <= r@[i]
                <= 122),
{
    let rng = rand::rng();
    rand::distr::Distribution::<u8>::sample_iter(rand::distr::Alphanumeric, rng).take(20).collect()
}

/// Synthesises a fresh random multipart boundary: twenty ASCII
/// letters and digits.
pub fn multipart_boundary() -> (r: Vec<u8>)
    ensures
        r@.len() == 20,
        forall|i: int|
            0 <= i < r@.len() ==> (48 <= #[trigger] r@[i] <= 57 || 65 <= r@[i] <= 90 || 97 <= r@[i]
                <= 122),
{
    random_boundary()
}

/// Assembles a multipart body from its rendered parts: the content
/// type is rewritten around the boundary, each part is serialised as
/// its boundary line, headers and payload, the closing boundary ends
/// the stream — and the content length reported equals the bytes the
/// chunks stream. A total beyond the length field's range is a body
/// error.
#[verifier::loop_isolation(false)]
#[verifier::rlimit(60)]
pub fn build_multipart(
    pieces: &Vec<RenderedPiece>,
    boundary: &Vec<u8>,
    content_type: Option<Vec<u8>>,
    copy_body_value: bool,
) -> (r: Result<BuiltBody, RecoverableError>)
    ensures
        r matches Ok(b) ==> {
            let (ct, form) = spec_multipart_content_type(content_type, boundary@);
            &&& b.content_type matches Some(c) && c@ == ct
            &&& chunk_views(b.chunks@) == spec_mp_chunks(pieces@, boundary@, form, 0)
            &&& b.content_length as nat == spec_chunks_len(chunk_views(b.chunks@))
            &&& copy_body_value ==> (b.body_value matches Some(t) && t@ == spec_mp_text(
                pieces@,
                boundary@,
                form,
                0,
            ))
            &&& !copy_body_value ==> b.body_value is None
        },
        r is Err ==> {
            let (ct, form) = spec_multipart_content_type(content_type, boundary@);
            spec_chunks_len(spec_mp_chunks(pieces@, boundary@, form, 0)) > u64::MAX
        },
{
    let (ct, form) = multipart_content_type(content_type, boundary);
    let ghost total = spec_chunks_len(spec_mp_chunks(pieces@, boundary@, form, 0));
    let mut chunks: Vec<BodyChunk> = Vec::new();
    let mut acc: u64 = 0;
    let mut text: Vec<u8> = Vec::new();
    let mut j: usize = 0;
    while j < pieces.len()
        invariant
            j <= pieces@.len(),
            chunk_views(chunks@) + spec_mp_chunks(pieces@, boundary@, form, j as int)
                == spec_mp_chunks(pieces@, boundary@, form, 0),
            acc as nat == spec_chunks_len(chunk_views(chunks@)),
            copy_body_value ==> text@ + spec_mp_text(pieces@, boundary@, form, j as int)
                == spec_mp_text(pieces@, boundary@, form, 0),
        decreases pieces@.len() - j,
    {
        let piece = &pieces[j];
        let prefix = piece_prefix(piece, boundary, j == 0, form);
        let ghost pre_chunks = chunk_views(chunks@);
        if copy_body_value {
            append_bytes(&mut text, prefix.as_slice());
            if piece.is_file {
                append_bytes(&mut text, lit_file_marker_open().as_slice());
                append_bytes(&mut text, piece.body.as_slice());
                append_bytes(&mut text, lit_file_marker_close().as_slice());
            } else {
                append_bytes(&mut text, piece.body.as_slice());
            }
        }
        if piece.is_file {
            let plen: u64 = prefix.len() as u64;
            let ghost acc0 = acc as nat;
            acc = match acc.checked_add(plen) {
                Some(a) => a,
                None => {
                    proof {
                        lemma_piece_chunks_len(pieces@[j as int], boundary@, j == 0, form);
                        lemma_overflow_piece(pieces@, boundary@, form, j as int, pre_chunks, acc0,
                            plen as nat);
                    }
                    return Err(RecoverableError::BodyErr(body_too_large_note()));
                },
            };
            acc = match acc.checked_add(piece.file_len) {
                Some(a) => a,
                None => {
                    proof {
                        lemma_piece_chunks_len(pieces@[j as int], boundary@, j == 0, form);
                        lemma_overflow_piece(pieces@, boundary@, form, j as int, pre_chunks, acc0, (
                        plen + piece.file_len) as nat);
                    }
                    return Err(RecoverableError::BodyErr(body_too_large_note()));
                },
            };
            let path = piece.body.clone();
            proof {
                assert(path@ =~= piece.body@);
            }
            let ghost pre_vec = chunks@;
            chunks.push(BodyChunk::Inline(prefix));
            chunks.push(BodyChunk::FileRef(path, piece.file_len));
            proof {
                lemma_chunk_views(chunks@);
                lemma_chunk_views(pre_vec);
                assert(chunks@.len() == pre_vec.len() + 2);
                assert(forall|t: int|
                    0 <= t < pre_vec.len() ==> #[trigger] chunks@[t] == pre_vec[t]);
                assert(chunk_views(chunks@) =~= pre_chunks + spec_piece_chunks(
                    pieces@[j as int],
                    boundary@,
                    j == 0,
                    form,
                ));
                lemma_chunks_len_concat(pre_chunks, spec_piece_chunks(
                    pieces@[j as int],
                    boundary@,
                    j == 0,
                    form,
                ));
                lemma_piece_chunks_len(pieces@[j as int], boundary@, j == 0, form);
            }
        } else {
            let mut data = prefix;
            append_bytes(&mut data, piece.body.as_slice());
            let dlen: u64 = data.len() as u64;
            acc = match acc.checked_add(dlen) {
                Some(a) => a,
                None => {
                    proof {
                        lemma_piece_chunks_len(pieces@[j as int], boundary@, j == 0, form);
                        lemma_overflow_piece(pieces@, boundary@, form, j as int, pre_chunks,
                            acc as nat, dlen as nat);
                    }
                    return Err(RecoverableError::BodyErr(body_too_large_note()));
                },
            };
            let ghost pre_vec = chunks@;
            chunks.push(BodyChunk::Inline(data));
            proof {
                lemma_chunk_views(chunks@);
                lemma_chunk_views(pre_vec);
                assert(chunks@.drop_last() =~= pre_vec);
                assert(chunk_views(chunks@) =~= pre_chunks + spec_piece_chunks(
                    pieces@[j as int],
                    boundary@,
                    j == 0,
                    form,
                ));
                lemma_chunks_len_concat(pre_chunks, spec_piece_chunks(
                    pieces@[j as int],
                    boundary@,
                    j == 0,
                    form,
                ));
                lemma_piece_chunks_len(pieces@[j as int], boundary@, j == 0, form);
            }
        }
        proof {
            assert(chunk_views(chunks@) + spec_mp_chunks(pieces@, boundary@, form, j + 1)
                =~= spec_mp_chunks(pieces@, boundary@, form, 0));
            if copy_body_value {
                assert(text@ + spec_mp_text(pieces@, boundary@, form, j + 1) =~= spec_mp_text(
                    pieces@,
                    boundary@,
                    form,
                    0,
                ));
            }
        }
        j += 1;
    }
    let mut closing = lit_sep_dashes();
    append_bytes(&mut closing, boundary.as_slice());
    append_bytes(&mut closing, lit_close_end().as_slice());
    if copy_body_value {
        append_bytes(&mut text, closing.as_slice());
    }
    let clen: u64 = closing.len() as u64;
    let ghost pre_chunks = chunk_views(chunks@);
    acc = match acc.checked_add(clen) {
        Some(a) => a,
        None => {
            proof {
                lemma_overflow_closing(pieces@, boundary@, form, pre_chunks, acc as nat);
            }
            return Err(RecoverableError::BodyErr(body_too_large_note()));
        },
    };
    proof {
        assert(closing@ =~= spec_closing_boundary(boundary@));
    }
    let ghost pre_vec = chunks@;
    chunks.push(BodyChunk::Inline(closing));
    proof {
        lemma_chunk_views(chunks@);
        lemma_chunk_views(pre_vec);
        assert(chunks@.drop_last() =~= pre_vec);
        assert(chunk_views(chunks@) =~= pre_chunks + seq![ChunkV::Inline(spec_closing_boundary(
            boundary@,
        ))]);
        lemma_chunks_len_concat(pre_chunks, seq![ChunkV::Inline(spec_closing_boundary(boundary@))]);
        assert(seq![ChunkV::Inline(spec_closing_boundary(boundary@))].drop_last()
            =~= Seq::<ChunkV>::empty());
        assert(spec_chunks_len(Seq::<ChunkV>::empty()) == 0);
        assert(spec_chunks_len(seq![ChunkV::Inline(spec_closing_boundary(boundary@))])
            == spec_closing_boundary(boundary@).len());
        assert(spec_mp_chunks(pieces@, boundary@, form, pieces@.len() as int) =~= seq![
            ChunkV::Inline(spec_closing_boundary(boundary@)),
        ]);
        assert(chunk_views(chunks@) =~= spec_mp_chunks(pieces@, boundary@, form, 0));
    }
    Ok(
        BuiltBody {
            content_length: acc,
            chunks,
            content_type: Some(ct),
            body_value: if copy_body_value {
                Some(text)
            } else {
                None
            },
        },
    )
}

/// The message of a body whose length leaves the length field's
/// range.
fn body_too_large_note() -> (r: String) {
    String::from_str("body length does not fit the content-length field")
}

/// The bytes one part streams: its prefix plus its payload.
proof fn lemma_piece_chunks_len(piece: RenderedPiece, boundary: Seq<u8>, first: bool, is_form: bool)
    ensures
        spec_chunks_len(spec_piece_chunks(piece, boundary, first, is_form)) == spec_piece_prefix(
            piece,
            boundary,
            first,
            is_form,
        ).len() + (if piece.is_file {
            piece.file_len as nat
        } else {
            piece.body@.len()
        }),
{
    let s = spec_piece_chunks(piece, boundary, first, is_form);
    let pre = spec_piece_prefix(piece, boundary, first, is_form);
    if piece.is_file {
        let one = seq![ChunkV::Inline(pre)];
        assert(s.drop_last() =~= one);
        assert(one.drop_last() =~= Seq::<ChunkV>::empty());
        assert(spec_chunks_len(Seq::<ChunkV>::empty()) == 0);
        assert(spec_chunks_len(one) == pre.len());
        assert(spec_chunks_len(s) == spec_chunks_len(s.drop_last()) + spec_chunk_len(s.last()));
        assert(spec_chunks_len(s) == pre.len() + piece.file_len);
    } else {
        assert(s.drop_last() =~= Seq::<ChunkV>::empty());
        assert(spec_chunks_len(Seq::<ChunkV>::empty()) == 0);
        assert(spec_chunks_len(s) == pre.len() + piece.body@.len());
    }
}

/// When the bytes streamed so far plus part of the next part already
/// leave the length field's range, the whole body does.
proof fn lemma_overflow_piece(
    pieces: Seq<RenderedPiece>,
    boundary: Seq<u8>,
    is_form: bool,
    j: int,
    done: Seq<ChunkV>,
    acc: nat,
    extra: nat,
)
    requires
        0 <= j < pieces.len(),
        done + spec_mp_chunks(pieces, boundary, is_form, j) == spec_mp_chunks(
            pieces,
            boundary,
            is_form,
            0,
        ),
        acc == spec_chunks_len(done),
        acc + extra > u64::MAX,
        extra <= spec_chunks_len(spec_piece_chunks(pieces[j], boundary, j == 0, is_form)),
    ensures
        spec_chunks_len(spec_mp_chunks(pieces, boundary, is_form, 0)) > u64::MAX,
{
    lemma_chunks_len_concat(done, spec_mp_chunks(pieces, boundary, is_form, j));
    lemma_chunks_len_concat(
        spec_piece_chunks(pieces[j], boundary, j == 0, is_form),
        spec_mp_chunks(pieces, boundary, is_form, j + 1),
    );
}

/// The closing boundary alone can push the total over the range too.
proof fn lemma_overflow_closing(
    pieces: Seq<RenderedPiece>,
    boundary: Seq<u8>,
    is_form: bool,
    done: Seq<ChunkV>,
    acc: nat,
)
    requires
        done + spec_mp_chunks(pieces, boundary, is_form, pieces.len() as int) == spec_mp_chunks(
            pieces,
            boundary,
            is_form,
            0,
        ),
        acc == spec_chunks_len(done),
        acc + spec_closing_boundary(boundary).len() > u64::MAX,
    ensures
        spec_chunks_len(spec_mp_chunks(pieces, boundary, is_form, 0)) > u64::MAX,
{
    lemma_chunks_len_concat(done, spec_mp_chunks(pieces, boundary, is_form, pieces.len() as int));
    let c = spec_mp_chunks(pieces, boundary, is_form, pieces.len() as int);
    assert(c.drop_last() =~= Seq::<ChunkV>::empty());
}

/// An empty body: zero length, nothing streamed.
pub fn body_empty() -> (r: BuiltBody)
    ensures
        r.content_length == 0,
        r.chunks@.len() == 0,
        r.content_type is None,
        r.body_value is None,
{
    BuiltBody { content_length: 0, chunks: Vec::new(), content_type: None, body_value: None }
}

/// A string body: its bytes are the single chunk and the length.
pub fn body_text(rendered: Vec<u8>, copy_body_value: bool) -> (r: BuiltBody)
    ensures
        r.content_length == rendered@.len(),
        chunk_views(r.chunks@) == seq![ChunkV::Inline(rendered@)],
        r.content_length as nat == spec_chunks_len(chunk_views(r.chunks@)),
        r.content_type is None,
        copy_body_value ==> (r.body_value matches Some(t) && t@ == rendered@),
        !copy_body_value ==> r.body_value is None,
{
    let len: u64 = rendered.len() as u64;
    let body_value = if copy_body_value {
        Some(rendered.clone())
    } else {
        None
    };
    let mut chunks: Vec<BodyChunk> = Vec::new();
    chunks.push(BodyChunk::Inline(rendered));
    proof {
        lemma_chunk_views(chunks@);
        assert(chunk_views(chunks@) =~= seq![ChunkV::Inline(rendered@)]);
        assert(chunk_views(chunks@).drop_last() =~= Seq::<ChunkV>::empty());
        assert(spec_chunks_len(Seq::<ChunkV>::empty()) == 0);
        assert(spec_chunks_len(chunk_views(chunks@)) == rendered@.len());
    }
    BuiltBody { content_length: len, chunks, content_type: None, body_value }
}

/// A file body: the file is the single chunk, its metadata length is
/// the content length, and the readable copy is the placeholder.
pub fn body_file(path: Vec<u8>, file_len: u64, copy_body_value: bool) -> (r: BuiltBody)
    ensures
        r.content_length == file_len,
        chunk_views(r.chunks@) == seq![ChunkV::FileRef(path@, file_len)],
        r.content_length as nat == spec_chunks_len(chunk_views(r.chunks@)),
        r.content_type is None,
        copy_body_value ==> (r.body_value matches Some(t) && t@ == spec_file_marker_open() + path@
            + spec_file_marker_close()),
        !copy_body_value ==> r.body_value is None,
{
    let body_value = if copy_body_value {
        let mut t = lit_file_marker_open();
        append_bytes(&mut t, path.as_slice());
        append_bytes(&mut t, lit_file_marker_close().as_slice());
        Some(t)
    } else {
        None
    };
    let mut chunks: Vec<BodyChunk> = Vec::new();
    chunks.push(BodyChunk::FileRef(path, file_len));
    proof {
        lemma_chunk_views(chunks@);
        assert(chunk_views(chunks@) =~= seq![ChunkV::FileRef(path@, file_len)]);
        assert(chunk_views(chunks@).drop_last() =~= Seq::<ChunkV>::empty());
        assert(spec_chunks_len(Seq::<ChunkV>::empty()) == 0);
        assert(spec_chunks_len(chunk_views(chunks@)) == file_len);
    }
    BuiltBody { content_length: file_len, chunks, content_type: None, body_value }
}

} // verus!
