//! What the serving endpoint answers for a category.

use vstd::prelude::*;

verus! {

/// The status of an answer that carries a file.
pub const STATUS_OK: u16 = 200;

/// The status of the answer for a category that has no output file.
pub const STATUS_NOT_FOUND: u16 = 404;

/// The body of the answer for a category that has no output file.
pub open spec fn not_found_body() -> Seq<char> {
    "Arquivo não encontrado"@
}

/// An answer of the serving endpoint.
pub struct FileResponse {
    /// The HTTP status.
    pub status: u16,
    /// The body.
    pub body: String,
}

/// The answer for a category, given the content of its output file, or `None` where
/// the file could not be read: the whole content with the status 200, or the status
/// 404 with a readable body. There is no other answer; in particular a file that is
/// not there is never a server error.
pub fn file_response(content: Option<String>) -> (response: FileResponse)
    ensures
        match content {
            Some(text) => response.status == STATUS_OK && response.body@ == text@,
            None => response.status == STATUS_NOT_FOUND && response.body@ == not_found_body(),
        },
{
    match content {
        Some(text) => FileResponse { status: STATUS_OK, body: text },
        None => FileResponse {
            status: STATUS_NOT_FOUND,
            body: "Arquivo não encontrado".to_owned(),
        },
    }
}

} // verus!
