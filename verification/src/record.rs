//! Recorders that store serialized records in files: the file extension of
//! each format, the gzip framing of the stored bytes, and the errors.
//!
//! Serializing a record into bytes (bincode, json or message pack) and the
//! file access happen around these functions; here the bytes are framed for
//! storage and unframed when loaded.
use vstd::prelude::*;

verus! {

/// The gzip encoding that `flate2` produces for `data` at the default level
/// (no file name, no comment, modification time zero).
pub uninterp spec fn gz_encoding(data: Seq<u8>) -> Seq<u8>;

/// Compress with `flate2::write::GzEncoder` at `Compression::default()`.
/// Claimed of `flate2`: the bytes written are the gzip encoding of `data`,
/// which only depends on `data`, and the compression succeeds: the encoder
/// writes into a `Vec`, which takes every write, and its deflate stream, set
/// up without a dictionary, reports no error.
#[verifier::external_body]
fn gz_compress(data: &[u8]) -> (r: Option<Vec<u8>>)
    ensures
        r is Some,
        r matches Some(v) ==> v@ == gz_encoding(data@),
{
    let mut encoder = flate2::write::GzEncoder::new(Vec::new(), flate2::Compression::default());
    match std::io::Write::write_all(&mut encoder, data) {
        Ok(()) => encoder.finish().ok(),
        Err(_) => None,
    }
}

/// Decompress with `flate2::read::GzDecoder`. Claimed of `flate2`: gzip is
/// lossless, so the encoding of `x` decompresses to `x`. Of other bytes
/// nothing is claimed.
#[verifier::external_body]
fn gz_decompress(data: &[u8]) -> (r: Option<Vec<u8>>)
    ensures
        r is None ==> forall|x: Seq<u8>| data@ != gz_encoding(x),
        r matches Some(v) ==> forall|x: Seq<u8>| data@ == gz_encoding(x) ==> v@ == x,
{
    let mut decoder = flate2::read::GzDecoder::new(data);
    let mut out: Vec<u8> = Vec::new();
    match std::io::Read::read_to_end(&mut decoder, &mut out) {
        Ok(_) => Some(out),
        Err(_) => None,
    }
}

/// The kind of an I/O error, as far as recording cares.
#[derive(Clone, Copy, Debug, PartialEq, Eq, Structural)]
pub enum IoErrorKind {
    NotFound,
    Other,
}

/// Errors of recording and loading.
#[derive(Debug)]
pub enum RecordError {
    /// The file was not found.
    FileNotFound(String),
    /// Another failure, with its message.
    Unknown(String),
}

/// The record error of an I/O error: a missing file is told apart.
pub fn record_error_from_io(kind: IoErrorKind, message: String) -> (r: RecordError)
    ensures
        kind == IoErrorKind::NotFound ==> (r matches RecordError::FileNotFound(m) && m@ == message@),
        kind == IoErrorKind::Other ==> (r matches RecordError::Unknown(m) && m@ == message@),
{
    match kind {
        IoErrorKind::NotFound => RecordError::FileNotFound(message),
        IoErrorKind::Other => RecordError::Unknown(message),
    }
}

/// The serialization of the records of a recorder.
#[derive(Clone, Copy, Debug, PartialEq, Eq, Structural)]
pub enum RecordFormat {
    Bincode,
    Json,
    MessagePack,
}

/// The bytes that a recorder stores for the serialized record `payload`,
/// with or without compression.
pub open spec fn stored_form(compressed: bool, payload: Seq<u8>, stored: Seq<u8>) -> bool {
    if compressed {
        stored == gz_encoding(payload)
    } else {
        stored == payload
    }
}

/// What a file recorder needs once the record is serialized: the stored
/// bytes and the file extension.
pub trait FileRecorder: Sized {
    /// Whether the stored bytes are gzip compressed.
    spec fn compressed() -> bool;

    /// The serialization of the records.
    spec fn format_spec() -> RecordFormat;

    /// The extension of the files, without the leading dot.
    spec fn extension_spec() -> Seq<char>;

    /// The serialization of the records.
    fn format() -> (r: RecordFormat)
        ensures
            r == Self::format_spec(),
    ;

    /// The extension of the files, without the leading dot.
    fn file_extension() -> (r: &'static str)
        ensures
            r@ == Self::extension_spec(),
    ;

    /// The bytes stored for a serialized record: its gzip encoding when the
    /// recorder compresses, the serialized record itself otherwise.
    fn record_bytes(payload: &[u8]) -> (r: Result<Vec<u8>, RecordError>)
        ensures
            r matches Ok(v) && stored_form(Self::compressed(), payload@, v@),
    ;

    /// The serialized record held by stored bytes.
    fn load_bytes(stored: &[u8]) -> (r: Result<Vec<u8>, RecordError>)
        ensures
            forall|x: Seq<u8>|
                #[trigger] stored_form(Self::compressed(), x, stored@) ==> (r matches Ok(v) && v@ == x),
    ;
}

/// The bytes as they are.
fn frame_plain(payload: &[u8]) -> (r: Vec<u8>)
    ensures
        r@ == payload@,
{
    let mut out: Vec<u8> = Vec::new();
    let mut i: usize = 0;
    while i < payload.len()
        invariant
            i <= payload@.len(),
            out@ == payload@.take(i as int),
        decreases payload@.len() - i,
    {
        out.push(payload[i]);
        i = i + 1;
        assert(out@ =~= payload@.take(i as int));
    }
    assert(payload@.take(payload@.len() as int) =~= payload@);
    out
}

/// The gzip framing of bytes.
fn frame_gz(payload: &[u8]) -> (r: Result<Vec<u8>, RecordError>)
    ensures
        r matches Ok(v) && v@ == gz_encoding(payload@),
{
    match gz_compress(payload) {
        Some(v) => Ok(v),
        None => Err(RecordError::Unknown(String::new())),
    }
}

/// The bytes held in a gzip framing.
fn unframe_gz(stored: &[u8]) -> (r: Result<Vec<u8>, RecordError>)
    ensures
        forall|x: Seq<u8>| stored@ == gz_encoding(x) ==> (r matches Ok(v) && v@ == x),
{
    match gz_decompress(stored) {
        Some(v) => Ok(v),
        None => Err(RecordError::Unknown(String::new())),
    }
}

/// File recorder using the bincode format.
pub struct FileBinRecorder;

/// File recorder using the bincode format compressed with gzip.
pub struct FileBinGzRecorder;

/// File recorder using the json format compressed with gzip.
pub struct FileJsonGzRecorder;

/// File recorder using the message pack format compressed with gzip.
pub struct FileMpkGzRecorder;

impl FileRecorder for FileBinRecorder {
    open spec fn compressed() -> bool {
        false
    }

    open spec fn format_spec() -> RecordFormat {
        RecordFormat::Bincode
    }

    open spec fn extension_spec() -> Seq<char> {
        "bin"@
    }

    fn format() -> (r: RecordFormat) {
        RecordFormat::Bincode
    }

    fn file_extension() -> (r: &'static str) {
        "bin"
    }

    fn record_bytes(payload: &[u8]) -> (r: Result<Vec<u8>, RecordError>) {
        Ok(frame_plain(payload))
    }

    fn load_bytes(stored: &[u8]) -> (r: Result<Vec<u8>, RecordError>) {
        Ok(frame_plain(stored))
    }
}

impl FileRecorder for FileBinGzRecorder {
    open spec fn compressed() -> bool {
        true
    }

    open spec fn format_spec() -> RecordFormat {
        RecordFormat::Bincode
    }

    open spec fn extension_spec() -> Seq<char> {
        "bin.gz"@
    }

    fn format() -> (r: RecordFormat) {
        RecordFormat::Bincode
    }

    fn file_extension() -> (r: &'static str) {
        "bin.gz"
    }

    fn record_bytes(payload: &[u8]) -> (r: Result<Vec<u8>, RecordError>) {
        frame_gz(payload)
    }

    fn load_bytes(stored: &[u8]) -> (r: Result<Vec<u8>, RecordError>) {
        unframe_gz(stored)
    }
}

impl FileRecorder for FileJsonGzRecorder {
    open spec fn compressed() -> bool {
        true
    }

    open spec fn format_spec() -> RecordFormat {
        RecordFormat::Json
    }

    open spec fn extension_spec() -> Seq<char> {
        "json.gz"@
    }

    fn format() -> (r: RecordFormat) {
        RecordFormat::Json
    }

    fn file_extension() -> (r: &'static str) {
        "json.gz"
    }

    fn record_bytes(payload: &[u8]) -> (r: Result<Vec<u8>, RecordError>) {
        frame_gz(payload)
    }

    fn load_bytes(stored: &[u8]) -> (r: Result<Vec<u8>, RecordError>) {
        unframe_gz(stored)
    }
}

impl FileRecorder for FileMpkGzRecorder {
    open spec fn compressed() -> bool {
        true
    }

    open spec fn format_spec() -> RecordFormat {
        RecordFormat::MessagePack
    }

    open spec fn extension_spec() -> Seq<char> {
        "mpk.gz"@
    }

    fn format() -> (r: RecordFormat) {
        RecordFormat::MessagePack
    }

    fn file_extension() -> (r: &'static str) {
        "mpk.gz"
    }

    fn record_bytes(payload: &[u8]) -> (r: Result<Vec<u8>, RecordError>) {
        frame_gz(payload)
    }

    fn load_bytes(stored: &[u8]) -> (r: Result<Vec<u8>, RecordError>) {
        unframe_gz(stored)
    }
}

/// Loading what was recorded gives back the serialized record: when a
/// recorder stored `stored` for `payload`, and loading `stored` gave
/// `loaded`, then `loaded` is `payload`.
pub proof fn law_load_after_record<R: FileRecorder>(
    payload: Seq<u8>,
    stored: Seq<u8>,
    loaded: Seq<u8>,
)
    requires
        stored_form(R::compressed(), payload, stored),
        forall|x: Seq<u8>| #[trigger] stored_form(R::compressed(), x, stored) ==> loaded == x,
    ensures
        loaded == payload,
{
}

} // verus!
