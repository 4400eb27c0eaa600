//! Talking to the GLM-OCR service: the data URL in which a scanned page or a
//! PDF is sent, and the message reported when the service refuses a request.

use vstd::prelude::*;
use base64::Engine;
use crate::nlp_queue::same_text;
use crate::text::{trim, trim_string};

verus! {

// ── Outside calls ────────────────────────────────────────────────────────────

/// What `image::guess_format` reports for a byte buffer: the `Debug` name of
/// the detected format, or the message of its error.
pub uninterp spec fn image_format_guess(bytes: Seq<u8>) -> Result<Seq<char>, Seq<char>>;

/// The standard base64 text (with `=` padding) of a byte sequence.
pub uninterp spec fn base64_standard(bytes: Seq<u8>) -> Seq<char>;

pub open spec fn has_prefix(bytes: Seq<u8>, p: Seq<u8>) -> bool {
    bytes.len() >= p.len() && bytes.take(p.len() as int) == p
}

/// The PNG file signature.
pub open spec fn png_signature() -> Seq<u8> {
    seq![0x89u8, 0x50u8, 0x4eu8, 0x47u8, 0x0du8, 0x0au8, 0x1au8, 0x0au8]
}

/// The JPEG start-of-image marker.
pub open spec fn jpeg_signature() -> Seq<u8> {
    seq![0xffu8, 0xd8u8, 0xffu8]
}

/// `%PDF-`, the first bytes of a PDF file.
pub open spec fn pdf_signature() -> Seq<u8> {
    seq![0x25u8, 0x50u8, 0x44u8, 0x46u8, 0x2du8]
}

/// Calls `image::guess_format`, which matches the first bytes of the buffer
/// against a fixed table of signatures. A detected format is returned by its
/// `Debug` name, a failure by its message. Claimed: the result is
/// `image_format_guess` of the bytes; it is `Png` exactly when the buffer
/// starts with the PNG signature and `Jpeg` exactly when it starts with the
/// JPEG marker (the table's only entries for those two formats, and no earlier
/// entry matches such a buffer).
#[verifier::external_body]
fn guess_image_format(bytes: &[u8]) -> (r: Result<String, String>)
    ensures
        match r {
            Ok(name) => image_format_guess(bytes@) == Ok::<Seq<char>, Seq<char>>(name@),
            Err(e) => image_format_guess(bytes@) == Err::<Seq<char>, Seq<char>>(e@),
        },
        (r matches Ok(name) && name@ == "Png"@) <==> has_prefix(bytes@, png_signature()),
        (r matches Ok(name) && name@ == "Jpeg"@) <==> has_prefix(bytes@, jpeg_signature()),
{
    match image::guess_format(bytes) {
        Ok(format) => Ok(format!("{format:?}")),
        Err(e) => Err(e.to_string()),
    }
}

/// Calls `base64::engine::general_purpose::STANDARD.encode`. Claimed: the
/// result is `base64_standard` of the bytes, four characters for every started
/// group of three bytes (the padded length that `encoded_len` computes). The
/// call panics when that length overflows `usize`, which `requires` rules out.
#[verifier::external_body]
fn encode_base64_standard(bytes: &[u8]) -> (r: String)
    requires
        bytes@.len() / 3 * 4 + 4 <= usize::MAX,
    ensures
        r@ == base64_standard(bytes@),
        r@.len() == (bytes@.len() + 2) / 3 * 4,
{
    base64::engine::general_purpose::STANDARD.encode(bytes)
}

// ── The upload payload ───────────────────────────────────────────────────────

pub const UNDETECTED_FORMAT: &'static str =
    "No pude detectar el formato de la imagen para GLM-OCR: ";

pub const UNSUPPORTED_FORMAT: &'static str =
    "GLM-OCR sólo acepta PDF, PNG o JPG/JPEG. Formato detectado no soportado: ";

/// The MIME type of an image given what format detection reported: PNG and
/// JPEG are accepted, any other format or a failed detection is an error.
pub open spec fn glm_image_mime(guess: Result<Seq<char>, Seq<char>>) -> Result<Seq<char>, Seq<char>> {
    match guess {
        Err(e) => Err(UNDETECTED_FORMAT@ + e),
        Ok(name) => if name == "Png"@ {
            Ok("image/png"@)
        } else if name == "Jpeg"@ {
            Ok("image/jpeg"@)
        } else {
            Err(UNSUPPORTED_FORMAT@ + name)
        },
    }
}

/// The data URL of a file of the given MIME type and base64 text.
pub open spec fn data_url(mime: Seq<char>, encoded: Seq<char>) -> Seq<char> {
    "data:"@ + mime + ";base64,"@ + encoded
}

/// The GLM-OCR upload of a file: a PDF (recognised by its header) or a PNG or
/// JPEG image, as a base64 data URL.
pub open spec fn glm_upload(bytes: Seq<u8>) -> Result<Seq<char>, Seq<char>> {
    if has_prefix(bytes, pdf_signature()) {
        Ok(data_url("application/pdf"@, base64_standard(bytes)))
    } else {
        match glm_image_mime(image_format_guess(bytes)) {
            Ok(mime) => Ok(data_url(mime, base64_standard(bytes))),
            Err(e) => Err(e),
        }
    }
}

/// The MIME type of an image from what format detection reported (see
/// `glm_image_mime`).
pub fn glm_image_mime_type(guess: Result<String, String>) -> (r: Result<String, String>)
    ensures
        match r {
            Ok(m) => glm_image_mime(guess_view(guess)) == Ok::<Seq<char>, Seq<char>>(m@),
            Err(e) => glm_image_mime(guess_view(guess)) == Err::<Seq<char>, Seq<char>>(e@),
        },
{
    match guess {
        Err(e) => {
            let mut msg = String::from_str(UNDETECTED_FORMAT);
            msg.append(e.as_str());
            Err(msg)
        },
        Ok(name) => {
            if same_text(name.as_str(), "Png") {
                Ok(String::from_str("image/png"))
            } else if same_text(name.as_str(), "Jpeg") {
                Ok(String::from_str("image/jpeg"))
            } else {
                let mut msg = String::from_str(UNSUPPORTED_FORMAT);
                msg.append(name.as_str());
                Err(msg)
            }
        },
    }
}

pub open spec fn guess_view(g: Result<String, String>) -> Result<Seq<char>, Seq<char>> {
    match g {
        Ok(s) => Ok(s@),
        Err(e) => Err(e@),
    }
}

fn starts_with_pdf_header(bytes: &[u8]) -> (r: bool)
    ensures
        r == has_prefix(bytes@, pdf_signature()),
{
    let r = bytes.len() >= 5 && bytes[0] == 0x25u8 && bytes[1] == 0x50u8 && bytes[2] == 0x44u8
        && bytes[3] == 0x46u8 && bytes[4] == 0x2du8;
    if bytes.len() >= 5 {
        assert(r == (bytes@.take(5) =~= pdf_signature()));
    }
    r
}

/// Encodes a file for the GLM-OCR service (see `glm_upload`). The file must be
/// small enough for its base64 text to have a `usize` length.
pub fn encode_bytes_for_glm_ocr(bytes: &[u8]) -> (r: Result<String, String>)
    requires
        bytes@.len() / 3 * 4 + 4 <= usize::MAX,
    ensures
        match r {
            Ok(s) => glm_upload(bytes@) == Ok::<Seq<char>, Seq<char>>(s@),
            Err(e) => glm_upload(bytes@) == Err::<Seq<char>, Seq<char>>(e@),
        },
        has_prefix(bytes@, png_signature()) ==> (r matches Ok(s) && s@ == data_url(
            "image/png"@,
            base64_standard(bytes@),
        )),
        has_prefix(bytes@, jpeg_signature()) ==> (r matches Ok(s) && s@ == data_url(
            "image/jpeg"@,
            base64_standard(bytes@),
        )),
{
    let mime = if starts_with_pdf_header(bytes) {
        String::from_str("application/pdf")
    } else {
        let guess = guess_image_format(bytes);
        proof {
            reveal_strlit("Png");
            reveal_strlit("Jpeg");
        }
        match glm_image_mime_type(guess) {
            Ok(m) => m,
            Err(e) => return Err(e),
        }
    };
    let encoded = encode_base64_standard(bytes);
    let mut url = String::from_str("data:");
    url.append(mime.as_str());
    url.append(";base64,");
    url.append(encoded.as_str());
    proof {
        if has_prefix(bytes@, png_signature()) {
            assert(bytes@.take(8)[0] == bytes@[0]);
            assert(!has_prefix(bytes@, pdf_signature()));
        }
        if has_prefix(bytes@, jpeg_signature()) {
            assert(bytes@.take(3)[0] == bytes@[0]);
            assert(!has_prefix(bytes@, pdf_signature()));
        }
    }
    Ok(url)
}

// ── Error replies ────────────────────────────────────────────────────────────

/// The nested error object of a GLM-OCR error reply.
pub struct GlmApiError {
    pub code: Option<String>,
    pub message: Option<String>,
}

/// A GLM-OCR error reply, as far as it was decoded.
pub struct GlmApiErrorEnvelope {
    pub error: Option<GlmApiError>,
    pub msg: Option<String>,
    pub message: Option<String>,
}

pub open spec fn opt_view(o: Option<String>) -> Option<Seq<char>> {
    match o {
        Some(s) => Some(s@),
        None => None,
    }
}

/// What the nested error says: `code: message`, else the message, else the code.
pub open spec fn nested_error_text(code: Option<Seq<char>>, message: Option<Seq<char>>) -> Option<
    Seq<char>,
> {
    match (code, message) {
        (Some(c), Some(m)) => Some(c + ": "@ + m),
        (_, Some(m)) => Some(m),
        (Some(c), None) => Some(c),
        _ => None,
    }
}

/// The detail of a refused request: from the decoded reply, the nested error,
/// else `msg`, else `message`; when the reply did not decode or says none of
/// these, the trimmed body.
pub open spec fn api_error_detail(envelope: Option<GlmApiErrorEnvelope>, body: Seq<char>) -> Seq<char> {
    match envelope {
        None => trim(body),
        Some(env) => {
            let nested = match env.error {
                Some(e) => nested_error_text(opt_view(e.code), opt_view(e.message)),
                None => None,
            };
            match nested {
                Some(t) => t,
                None => match opt_view(env.msg) {
                    Some(t) => t,
                    None => match opt_view(env.message) {
                        Some(t) => t,
                        None => trim(body),
                    },
                },
            }
        },
    }
}

/// The error reported for a refused request, given the HTTP status as text,
/// the decoded error reply (if the body decoded as one) and the raw body.
pub fn glm_api_error(status: &str, envelope: Option<GlmApiErrorEnvelope>, body: &str) -> (r: String)
    ensures
        r@ == "GLM-OCR API error ("@ + status@ + "): "@ + api_error_detail(envelope, body@),
{
    let detail: String = match envelope {
        None => trim_string(body),
        Some(env) => {
            let nested: Option<String> = match env.error {
                Some(e) => match (e.code, e.message) {
                    (Some(c), Some(m)) => {
                        let mut t = c;
                        t.append(": ");
                        t.append(m.as_str());
                        Some(t)
                    },
                    (_, Some(m)) => Some(m),
                    (Some(c), None) => Some(c),
                    _ => None,
                },
                None => None,
            };
            match nested {
                Some(t) => t,
                None => match env.msg {
                    Some(t) => t,
                    None => match env.message {
                        Some(t) => t,
                        None => trim_string(body),
                    },
                },
            }
        },
    };
    let mut out = String::from_str("GLM-OCR API error (");
    out.append(status);
    out.append("): ");
    out.append(detail.as_str());
    out
}

} // verus!
