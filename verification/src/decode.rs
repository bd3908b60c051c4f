//! Decoding of what a request carries in escaped form.

use vstd::prelude::*;
use vstd::string::*;
use rocket::http::RawStr;

verus! {

/// The text that a token of a path stands for once its percent escapes are resolved.
pub uninterp spec fn percent_decoded(raw: Seq<char>) -> Seq<char>;

/// The text that a key or a value of a query string stands for once its percent escapes
/// are resolved and each `+` is read as a space.
pub uninterp spec fn url_decoded(raw: Seq<char>) -> Seq<char>;

/// Whether a token of a path holds no escape: no percent sign.
pub open spec fn plain_token(raw: Seq<char>) -> bool {
    !raw.contains('%')
}

/// Whether a key or a value of a query string holds no escape: no percent sign and no plus
/// sign.
pub open spec fn plain_field(raw: Seq<char>) -> bool {
    !raw.contains('%') && !raw.contains('+')
}

/// `RawStr::percent_decode_lossy` of rocket: resolves the percent escapes of `raw`. The
/// result depends on `raw` alone, and a text without a percent sign comes back as it is;
/// nothing more is claimed of it.
#[verifier::external_body]
pub(crate) fn percent_decode(raw: &str) -> (text: String)
    ensures
        text@ == percent_decoded(raw@),
        plain_token(raw@) ==> text@ == raw@,
{
    RawStr::new(raw).percent_decode_lossy().into_owned()
}

/// `RawStr::url_decode_lossy` of rocket: resolves the percent escapes of `raw` and reads
/// each `+` as a space. The result depends on `raw` alone, and a text without a percent
/// sign or a plus sign comes back as it is; nothing more is claimed of it.
#[verifier::external_body]
pub(crate) fn url_decode(raw: &str) -> (text: String)
    ensures
        text@ == url_decoded(raw@),
        plain_field(raw@) ==> text@ == raw@,
{
    RawStr::new(raw).url_decode_lossy().into_owned()
}

} // verus!
