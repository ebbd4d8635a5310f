//! Input modalities and how binary payloads are carried.
use vstd::prelude::*;

use base64::Engine;

use crate::crypto::{token_bytes, EncryptionManager};
use crate::error::DirSoulError;
use crate::models::{ContentType, RawMemory};
use crate::text::{decimal, decimal_string};

verus! {

/// Audio encodings of voice input.
#[derive(Debug, Clone, Copy, PartialEq, Eq, Structural)]
pub enum VoiceFormat {
    WAV,
    MP3,
    OGG,
    FLAC,
    OPUS,
    Raw,
}

/// Image encodings.
#[derive(Debug, Clone, Copy, PartialEq, Eq, Structural)]
pub enum ImageFormat {
    PNG,
    JPEG,
    GIF,
    WebP,
    BMP,
}

/// Document encodings.
#[derive(Debug, Clone, Copy, PartialEq, Eq, Structural)]
pub enum DocumentFormat {
    PDF,
    DOCX,
    TXT,
    MD,
    HTML,
}

/// The length of the standard, padded base64 encoding of `n` bytes.
pub open spec fn base64_len(n: int) -> int {
    4 * ((n + 2) / 3)
}

/// Relies on base64's standard engine: padded encoding, four characters for
/// every three bytes or part of them, all ASCII, which the same engine
/// decodes back.
#[verifier::external_body]
pub(crate) fn encode_base64(data: &[u8]) -> (r: String)
    ensures
        r@.len() == base64_len(data@.len() as int),
        vstd::utf8::is_ascii_chars(r@),
        crate::export::base64_decoded(r@) == Some(data@),
{
    base64::engine::general_purpose::STANDARD.encode(data)
}

/// Builds the raw memory of a binary input (voice or image): the payload is
/// carried base64-encoded, as plaintext, or encrypted when a key is given.
/// A failed encryption fails the whole write.
pub fn binary_memory(
    memory_id: u64,
    user_id: String,
    created_at: i64,
    content_type: ContentType,
    data: &[u8],
    encryption: Option<&EncryptionManager>,
) -> (r: Result<RawMemory, DirSoulError>)
    ensures
        r is Ok ==> ({
            let m = r->Ok_0;
            &&& m.wf()
            &&& m.memory_id == memory_id
            &&& m.user_id == user_id
            &&& m.content_type == content_type
            &&& m.created_at == created_at
            &&& encryption is None ==> m.content is Some && m.content->Some_0@.len() == base64_len(data@.len() as int)
            &&& encryption is Some ==> m.encrypted is Some
                && m.encrypted->Some_0@.len() == base64_len(token_bytes(base64_len(data@.len() as int)))
        }),
        r is Ok,
{
    let encoded = encode_base64(data);
    match encryption {
        None => Ok(RawMemory::new_plaintext(memory_id, user_id, created_at, content_type, encoded)),
        Some(key) => {
            proof {
                vstd::utf8::is_ascii_chars_encode_utf8(encoded@);
            }
            let sealed = key.encrypt(encoded.as_str().as_bytes());
            Ok(RawMemory::new_encrypted(memory_id, user_id, created_at, content_type, sealed))
        },
    }
}


/// One input, by modality.
#[derive(Debug, Clone)]
pub enum RawInput {
    Text { content: String },
    Voice { audio_data: Vec<u8>, format: VoiceFormat },
    Image { image_data: Vec<u8>, format: ImageFormat },
    /// A document, with its extracted text when there is some.
    Document { file_path: String, format: DocumentFormat, content: Option<String> },
    /// A structured action, as recorded by a client.
    Action { action: String, target: String, quantity: Option<u64>, unit: Option<String> },
    /// Data imported from another system, as JSON text.
    External { source: String, data: String },
}

impl RawInput {
    pub open spec fn spec_content_type(&self) -> ContentType {
        match self {
            RawInput::Text { .. } => ContentType::Text,
            RawInput::Voice { .. } => ContentType::Voice,
            RawInput::Image { .. } => ContentType::Image,
            RawInput::Document { .. } => ContentType::Document,
            RawInput::Action { .. } => ContentType::Action,
            RawInput::External { .. } => ContentType::External,
        }
    }

    pub fn content_type(&self) -> (r: ContentType)
        ensures
            r == self.spec_content_type(),
    {
        match self {
            RawInput::Text { .. } => ContentType::Text,
            RawInput::Voice { .. } => ContentType::Voice,
            RawInput::Image { .. } => ContentType::Image,
            RawInput::Document { .. } => ContentType::Document,
            RawInput::Action { .. } => ContentType::Action,
            RawInput::External { .. } => ContentType::External,
        }
    }

    /// The text stored for a non-binary input: the text itself, a
    /// document's extracted text (or a marker naming its file), an action
    /// written out as `action [quantity] [unit] target`, or the imported data.
    pub open spec fn text_payload(&self) -> Option<Seq<char>> {
        match self {
            RawInput::Text { content } => Some(content@),
            RawInput::Document { file_path, content, .. } => Some(match content {
                Some(c) => c@,
                None => "[Document: "@ + file_path@ + "]"@,
            }),
            RawInput::Action { action, target, quantity, unit } => Some(match (quantity, unit) {
                (Some(q), Some(u)) => action@ + " "@ + decimal(*q as nat) + " "@ + u@ + " "@ + target@,
                (Some(q), None) => action@ + " "@ + decimal(*q as nat) + " "@ + target@,
                _ => action@ + " "@ + target@,
            }),
            RawInput::External { data, .. } => Some(data@),
            _ => None,
        }
    }
}

fn joined(parts: &Vec<&str>) -> (r: String)
    ensures
        r@ == joined_spec(parts@, parts@.len() as int),
{
    let mut out = String::new();
    let mut i: usize = 0;
    while i < parts.len()
        invariant
            i <= parts@.len(),
            out@ == joined_spec(parts@, i as int),
        decreases parts@.len() - i,
    {
        out.append(parts[i]);
        i += 1;
    }
    out
}

/// The first `n` parts, concatenated.
pub open spec fn joined_spec(parts: Seq<&str>, n: int) -> Seq<char>
    decreases n,
{
    if n <= 0 { Seq::empty() } else { joined_spec(parts, n - 1) + parts[n - 1]@ }
}

/// The text stored for a non-binary input.
fn payload_of(input: &RawInput) -> (r: Option<String>)
    ensures
        r is None <==> input.text_payload() is None,
        r is Some ==> r->Some_0@ == input.text_payload()->Some_0,
{
    proof {
        reveal_with_fuel(joined_spec, 8);
    }
    match input {
        RawInput::Text { content } => Some(content.clone()),
        RawInput::Document { file_path, content, .. } => match content {
            Some(c) => Some(c.clone()),
            None => {
                let parts = vec!["[Document: ", file_path.as_str(), "]"];
                let r = joined(&parts);
                assert(r@ =~= "[Document: "@ + file_path@ + "]"@);
                Some(r)
            },
        },
        RawInput::Action { action, target, quantity, unit } => {
            match (quantity, unit) {
                (Some(q), Some(u)) => {
                    let qs = decimal_string(*q);
                    let parts = vec![action.as_str(), " ", qs.as_str(), " ", u.as_str(), " ", target.as_str()];
                    let r = joined(&parts);
                    assert(r@ =~= action@ + " "@ + decimal(*q as nat) + " "@ + u@ + " "@ + target@);
                    Some(r)
                },
                (Some(q), None) => {
                    let qs = decimal_string(*q);
                    let parts = vec![action.as_str(), " ", qs.as_str(), " ", target.as_str()];
                    let r = joined(&parts);
                    assert(r@ =~= action@ + " "@ + decimal(*q as nat) + " "@ + target@);
                    Some(r)
                },
                _ => {
                    let parts = vec![action.as_str(), " ", target.as_str()];
                    let r = joined(&parts);
                    assert(r@ =~= action@ + " "@ + target@);
                    Some(r)
                },
            }
        },
        RawInput::External { data, .. } => Some(data.clone()),
        _ => None,
    }
}

/// Turns inputs of one user into raw memories, encrypting them when a key
/// is set.
pub struct InputProcessor {
    pub user_id: String,
    pub encryption: Option<EncryptionManager>,
}

impl InputProcessor {
    pub fn new(user_id: String) -> (r: InputProcessor)
        ensures
            r.user_id == user_id,
            r.encryption is None,
    {
        InputProcessor { user_id, encryption: None }
    }

    pub fn with_encryption(user_id: String, key: EncryptionManager) -> (r: InputProcessor)
        ensures
            r.user_id == user_id,
            r.encryption is Some,
    {
        InputProcessor { user_id, encryption: Some(key) }
    }

    /// The raw memory of an input: its content type fixed by the modality;
    /// binary payloads base64-encoded; the payload stored as plaintext, or
    /// as ciphertext when a key is set.
    pub fn process_input(&self, memory_id: u64, created_at: i64, input: RawInput) -> (r: RawMemory)
        ensures
            r.wf(),
            r.memory_id == memory_id,
            r.user_id == self.user_id,
            r.created_at == created_at,
            r.content_type == input.spec_content_type(),
            self.encryption is Some <==> r.encrypted is Some,
            self.encryption is None && input.text_payload() is Some ==> r.content is Some && r.content->Some_0@ == input.text_payload()->Some_0,
            self.encryption is None && input is Voice ==> r.content is Some && r.content->Some_0@.len() == base64_len(input->Voice_audio_data@.len() as int),
            self.encryption is None && input is Image ==> r.content is Some && r.content->Some_0@.len() == base64_len(input->Image_image_data@.len() as int),
            self.encryption is Some && input.text_payload() is Some ==> r.encrypted->Some_0@.len()
                == base64_len(token_bytes(vstd::utf8::encode_utf8(input.text_payload()->Some_0).len() as int)),
            self.encryption is Some && input is Voice ==> r.encrypted->Some_0@.len()
                == base64_len(token_bytes(base64_len(input->Voice_audio_data@.len() as int))),
            self.encryption is Some && input is Image ==> r.encrypted->Some_0@.len()
                == base64_len(token_bytes(base64_len(input->Image_image_data@.len() as int))),
    {
        let ct = input.content_type();
        let payload = match payload_of(&input) {
            Some(p) => p,
            None => match &input {
                RawInput::Voice { audio_data, .. } => encode_base64(audio_data.as_slice()),
                RawInput::Image { image_data, .. } => encode_base64(image_data.as_slice()),
                _ => String::new(),
            },
        };
        match &self.encryption {
            None => RawMemory::new_plaintext(memory_id, self.user_id.clone(), created_at, ct, payload),
            Some(key) => {
                proof {
                    if input.text_payload() is None {
                        vstd::utf8::is_ascii_chars_encode_utf8(payload@);
                    }
                }
                let sealed = key.encrypt(payload.as_str().as_bytes());
                RawMemory::new_encrypted(memory_id, self.user_id.clone(), created_at, ct, sealed)
            },
        }
    }
}

} // verus!
