use vstd::prelude::*;
use crate::text::str_eq;
use vstd::string::StringExecFns;
use rand::RngExt;

verus! {

/// The cap on a whole upload, in bytes.
pub const MAX_UPLOAD_BYTES: u64 = 20 * 1024 * 1024;

/// The file name that sanitize-filename derives from an original name,
/// with fixed options; a function of the name alone.
pub uninterp spec fn sanitized_of(name: Seq<char>) -> Seq<char>;

/// Relies on sanitize_filename::sanitize_with_options: with these fixed
/// options the result depends on the original name alone, and path
/// separators and other unsafe characters are stripped.
#[verifier::external_body]
fn sanitize_name(name: &str) -> (r: String)
    ensures
        r@ == sanitized_of(name@),
{
    sanitize_filename::sanitize_with_options(
        name,
        sanitize_filename::Options { windows: true, truncate: true, replacement: "" },
    )
}

/// Relies on rand's thread generator with the Alphanumeric distribution:
/// six letters or digits; beyond the length nothing is promised, and two
/// calls may differ.
#[verifier::external_body]
pub(crate) fn random_token() -> (r: String)
    ensures
        r@.len() == 6,
{
    rand::rng().sample_iter(&rand::distr::Alphanumeric).take(6).map(char::from).collect()
}

/// The fixed whitelist of media types a post may attach: JPEG, PNG, GIF
/// and WEBP images, MP4 and WEBM video, MPEG audio.
pub open spec fn mime_allowed(m: Seq<char>) -> bool {
    ||| m == "image/jpeg"@
    ||| m == "image/png"@
    ||| m == "image/gif"@
    ||| m == "image/webp"@
    ||| m == "video/mp4"@
    ||| m == "video/webm"@
    ||| m == "audio/mpeg"@
}

/// Whether a declared media type is on the whitelist.
pub fn is_allowed_mime(m: &str) -> (r: bool)
    ensures
        r == mime_allowed(m@),
{
    str_eq(m, "image/jpeg") || str_eq(m, "image/png") || str_eq(m, "image/gif") || str_eq(
        m,
        "image/webp",
    ) || str_eq(m, "video/mp4") || str_eq(m, "video/webm") || str_eq(m, "audio/mpeg")
}

/// Decides what becomes of an uploaded file: a stored name when its
/// declared media type is on the whitelist, nothing otherwise (the file is
/// dropped; the submission itself goes on).  The stored name is a
/// six-character random token, a dash, then the sanitized original name,
/// so stored names do not collide and do not leak the original.
pub fn plan_attachment(filename: &str, declared_mime: &str) -> (r: Option<String>)
    ensures
        r is Some <==> mime_allowed(declared_mime@),
        r is Some ==> exists|tok: Seq<char>|
            tok.len() == 6 && (r->0)@ == tok + seq!['-'] + sanitized_of(filename@),
{
    if is_allowed_mime(declared_mime) {
        let mut name = random_token();
        let ghost tok = name@;
        let base = sanitize_name(filename);
        name.append("-");
        name.append(base.as_str());
        proof {
            reveal_strlit("-");
            assert(name@ =~= tok + seq!['-'] + sanitized_of(filename@));
        }
        Some(name)
    } else {
        None
    }
}

/// Adds one received chunk to the running size of an upload; refuses the
/// moment the total would pass the cap, so a caller can abort while
/// streaming.
pub fn accept_chunk(so_far: u64, chunk_len: u64) -> (r: Option<u64>)
    ensures
        r is Some <==> so_far + chunk_len <= MAX_UPLOAD_BYTES,
        r is Some ==> r->0 == so_far + chunk_len,
{
    if chunk_len <= MAX_UPLOAD_BYTES && so_far <= MAX_UPLOAD_BYTES - chunk_len {
        Some(so_far + chunk_len)
    } else {
        None
    }
}

} // verus!
