//! The persistent form of a register array.
//!
//! Registers are stored as an ordered mapping with the single key
//! `registers`, whose value is the standard padded base64 text of the
//! LZ4 frame of the raw register bytes. Neither the kind of sketch nor the
//! register count is stored: whoever reads the form says how many registers
//! are expected, and the bytes found are cut or zero-padded to that count.

use vstd::prelude::*;
use base64::Engine;
use std::io::{Read, Write};

verus! {

/// Compression level handed to the LZ4 encoder; the encoder treats it as its highest.
pub const COMPRESSION_LEVEL: u32 = 16;

/// Why a serialized form could not be read.
#[derive(Debug, Clone, Copy, PartialEq, Eq, Structural)]
pub enum DecodeError {
    /// The value of the field is not base64 text.
    InvalidEncoding,
    /// The decoded bytes are not a complete LZ4 frame.
    CorruptStream,
    /// The mapping has no field named `registers`.
    MissingField,
}

/// Why a register array could not be written.
#[derive(Debug, Clone, Copy, PartialEq, Eq, Structural)]
pub enum EncodeError {
    /// The compressor reported a failure.
    Compression,
    /// The compressed frame is too long for its base64 text to be held in memory.
    Oversize,
}

/// An ordered mapping from field names to text values, as read from or
/// written to the surrounding data format.
#[derive(Debug)]
pub struct SerializedForm {
    pub entries: Vec<(String, String)>,
}

impl View for SerializedForm {
    type V = Seq<(Seq<char>, Seq<char>)>;

    /// The entries in their order, each as a pair of name and value.
    open spec fn view(&self) -> Seq<(Seq<char>, Seq<char>)> {
        Seq::new(self.entries@.len(), |i: int| (self.entries@[i].0@, self.entries@[i].1@))
    }
}

/// The outside error of the LZ4 encoder and decoder.
#[verifier::external_type_specification]
#[verifier::external_body]
pub struct ExIoError(std::io::Error);

/// The standard padded base64 text of `bytes`.
pub uninterp spec fn base64_text(bytes: Seq<u8>) -> Seq<char>;

/// The bytes that `text` stands for in standard padded base64, if it is such text.
pub uninterp spec fn base64_bytes(text: Seq<char>) -> Option<Seq<u8>>;

/// The LZ4 frame that the encoder writes for `bytes` at the given level.
pub uninterp spec fn lz4_frame(bytes: Seq<u8>, level: u32) -> Seq<u8>;

/// The content of `frame`, if it is a complete LZ4 frame.
pub uninterp spec fn lz4_content(frame: Seq<u8>) -> Option<Seq<u8>>;

/// The name of the one field of a serialized form.
pub open spec fn field_name() -> Seq<char> {
    "registers"@
}

/// The value of the last entry named `registers`, if there is one.
pub open spec fn field_value(entries: Seq<(Seq<char>, Seq<char>)>) -> Option<Seq<char>>
    decreases entries.len(),
{
    if entries.len() == 0 {
        None
    } else if entries.last().0 == field_name() {
        Some(entries.last().1)
    } else {
        field_value(entries.drop_last())
    }
}

/// `raw` brought to exactly `count` bytes: cut where it is longer, continued
/// with zeros where it is shorter.
pub open spec fn fitted(raw: Seq<u8>, count: nat) -> Seq<u8> {
    Seq::new(count, |i: int| if i < raw.len() { raw[i] } else { 0u8 })
}

/// What reading `entries` for `count` registers yields.
pub open spec fn decoded(entries: Seq<(Seq<char>, Seq<char>)>, count: nat) -> Result<
    Seq<u8>,
    DecodeError,
> {
    match field_value(entries) {
        None => Err(DecodeError::MissingField),
        Some(text) => match base64_bytes(text) {
            None => Err(DecodeError::InvalidEncoding),
            Some(frame) => match lz4_content(frame) {
                None => Err(DecodeError::CorruptStream),
                Some(raw) => Ok(fitted(raw, count)),
            },
        },
    }
}

/// Whether the base64 text of `len` bytes has a length that fits in `usize`.
pub open spec fn encodable_len(len: nat) -> bool {
    len / 3 * 4 + 4 <= usize::MAX
}

/// `Engine::encode` of base64's `STANDARD` engine. Trusted: the result is the
/// base64 text of the input, and that text decodes to the input again. The
/// encoder panics when the length of the text overflows, which the
/// precondition rules out.
#[verifier::external_body]
fn base64_encode(bytes: &Vec<u8>) -> (text: String)
    requires
        encodable_len(bytes@.len()),
    ensures
        text@ == base64_text(bytes@),
        base64_bytes(text@) == Some(bytes@),
{
    base64::engine::general_purpose::STANDARD.encode(bytes)
}

/// `Engine::decode` of base64's `STANDARD` engine. Trusted: it succeeds
/// exactly on standard padded base64 text and then returns the bytes the
/// text stands for. Its error, which says where the text went wrong, is dropped.
#[verifier::external_body]
fn base64_decode(text: &String) -> (r: Option<Vec<u8>>)
    ensures
        match r {
            Some(bytes) => base64_bytes(text@) == Some(bytes@),
            None => base64_bytes(text@) is None,
        },
{
    base64::engine::general_purpose::STANDARD.decode(text).ok()
}

/// lz4's frame `Encoder`, built by `EncoderBuilder` at the given level, fed
/// all of `bytes` and finished. Trusted: where it succeeds, the result is the
/// frame of the input, and the content of that frame is the input again.
/// Nothing is claimed about when it succeeds.
#[verifier::external_body]
fn lz4_compress(bytes: &Vec<u8>, level: u32) -> (r: Result<Vec<u8>, std::io::Error>)
    ensures
        r matches Ok(frame) ==> frame@ == lz4_frame(bytes@, level) && lz4_content(frame@) == Some(
            bytes@,
        ),
{
    let mut encoder = lz4::EncoderBuilder::new().level(level).build(Vec::new())?;
    encoder.write_all(bytes)?;
    let (frame, finished) = encoder.finish();
    finished?;
    Ok(frame)
}

/// lz4's frame `Decoder`, read to its end and finished. Trusted: it succeeds
/// exactly on a complete frame and then returns the frame's content. A frame
/// that is cut short makes `finish` fail, and so this function.
#[verifier::external_body]
fn lz4_decompress(frame: &Vec<u8>) -> (r: Result<Vec<u8>, std::io::Error>)
    ensures
        match r {
            Ok(bytes) => lz4_content(frame@) == Some(bytes@),
            Err(_) => lz4_content(frame@) is None,
        },
{
    let mut decoder = lz4::Decoder::new(frame.as_slice())?;
    let mut bytes = Vec::new();
    decoder.read_to_end(&mut bytes)?;
    decoder.finish().1?;
    Ok(bytes)
}

/// Looks for the field named `registers`. Where several entries carry the
/// name, the last one counts. Returns the position of that entry.
pub fn find_field(form: &SerializedForm) -> (found: Option<usize>)
    ensures
        match found {
            Some(at) => {
                &&& at < form@.len()
                &&& form@[at as int].0 == field_name()
                &&& forall|later: int| at < later < form@.len() ==> form@[later].0 != field_name()
                &&& field_value(form@) == Some(form@[at as int].1)
            },
            None => {
                &&& forall|any: int| 0 <= any < form@.len() ==> form@[any].0 != field_name()
                &&& field_value(form@) is None
            },
        },
{
    let name = "registers".to_owned();
    let mut i: usize = form.entries.len();
    assert(form@.take(i as int) =~= form@);
    while i > 0
        invariant
            i <= form@.len(),
            form@.len() == form.entries@.len(),
            name@ == field_name(),
            forall|later: int| i <= later < form@.len() ==> form@[later].0 != field_name(),
            field_value(form@) == field_value(form@.take(i as int)),
        decreases i,
    {
        i -= 1;
        assert(form@.take(i + 1).drop_last() =~= form@.take(i as int));
        assert(form@.take(i + 1).last() == form@[i as int]);
        assert(form@[i as int].0 == form.entries@[i as int].0@);
        if form.entries[i].0 == name {
            return Some(i);
        }
    }
    None
}

/// Brings decompressed bytes to exactly `count` registers: bytes beyond the
/// count are dropped, missing ones are zero.
pub fn fit_registers(raw: &Vec<u8>, count: usize) -> (registers: Vec<u8>)
    ensures
        registers@ == fitted(raw@, count as nat),
{
    let mut registers = vec![0u8; count];
    let kept = if raw.len() < count { raw.len() } else { count };
    let mut i: usize = 0;
    while i < kept
        invariant
            i <= kept,
            kept <= raw.len(),
            kept <= count,
            registers.len() == count,
            forall|j: int| 0 <= j < i ==> registers@[j] == raw@[j],
            forall|j: int| i <= j < count ==> registers@[j] == 0,
        decreases kept - i,
    {
        registers.set(i, raw[i]);
        i += 1;
    }
    assert(registers@ =~= fitted(raw@, count as nat));
    registers
}

/// Wraps what the compressor returned into a serialized form: a frame becomes
/// the base64 value of the single field `registers`; a failure of the
/// compressor is reported, and so is a frame too long to be encoded.
pub fn seal(compressed: Result<Vec<u8>, std::io::Error>) -> (r: Result<SerializedForm, EncodeError>)
    ensures
        match compressed {
            Ok(frame) => if encodable_len(frame@.len()) {
                &&& r matches Ok(form)
                &&& form@ == seq![(field_name(), base64_text(frame@))]
                &&& base64_bytes(base64_text(frame@)) == Some(frame@)
            } else {
                r == Err::<SerializedForm, EncodeError>(EncodeError::Oversize)
            },
            Err(_) => r == Err::<SerializedForm, EncodeError>(EncodeError::Compression),
        },
{
    match compressed {
        Err(_) => Err(EncodeError::Compression),
        Ok(frame) => {
            if frame.len() / 3 > (usize::MAX - 4) / 4 {
                return Err(EncodeError::Oversize);
            }
            let text = base64_encode(&frame);
            let name = "registers".to_owned();
            let mut entries: Vec<(String, String)> = Vec::new();
            entries.push((name, text));
            let form = SerializedForm { entries };
            assert(form@ =~= seq![(field_name(), base64_text(frame@))]);
            Ok(form)
        },
    }
}

/// Writes a register array as a serialized form: the registers are
/// compressed into one LZ4 frame, and the frame is stored as base64 text
/// under the name `registers`. The form written reads back as the same
/// registers when as many are expected as were written.
pub fn encode_registers(registers: &Vec<u8>) -> (r: Result<SerializedForm, EncodeError>)
    ensures
        match r {
            Ok(form) => {
                &&& form@ == seq![(field_name(), base64_text(lz4_frame(registers@, COMPRESSION_LEVEL)))]
                &&& decoded(form@, registers@.len()) == Ok::<Seq<u8>, DecodeError>(registers@)
            },
            Err(EncodeError::Oversize) => !encodable_len(lz4_frame(registers@, COMPRESSION_LEVEL).len()),
            Err(EncodeError::Compression) => true,
        },
{
    let compressed = lz4_compress(registers, COMPRESSION_LEVEL);
    let r = seal(compressed);
    proof {
        if r is Ok {
            let entries = r->Ok_0@;
            assert(entries.drop_last().len() == 0);
            assert(field_value(entries) == Some(entries.last().1));
            assert(fitted(registers@, registers@.len()) =~= registers@);
        }
    }
    r
}

/// Reads `count` registers from a serialized form: the field `registers` is
/// looked up, its base64 text decoded, the frame decompressed, and the bytes
/// cut or zero-padded to `count`. Each step that fails has its own error.
pub fn decode_registers(form: &SerializedForm, count: usize) -> (r: Result<Vec<u8>, DecodeError>)
    ensures
        match decoded(form@, count as nat) {
            Ok(registers) => r matches Ok(read) && read@ == registers,
            Err(e) => r == Err::<Vec<u8>, DecodeError>(e),
        },
{
    let at = match find_field(form) {
        Some(at) => at,
        None => {
            return Err(DecodeError::MissingField);
        },
    };
    let frame = match base64_decode(&form.entries[at].1) {
        Some(frame) => frame,
        None => {
            return Err(DecodeError::InvalidEncoding);
        },
    };
    match lz4_decompress(&frame) {
        Ok(raw) => Ok(fit_registers(&raw, count)),
        Err(_) => Err(DecodeError::CorruptStream),
    }
}

} // verus!
