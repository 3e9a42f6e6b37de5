//! Building the share link behind the in-game share button.

use vstd::prelude::*;
use vstd::string::StringExecFns;

verus! {

/// The percent-encoding of `s`: every byte except alphanumerics and
/// `-` `_` `.` `~` becomes a `%`-escape. The result depends on the input
/// characters alone.
pub uninterp spec fn url_encoded(s: Seq<char>) -> Seq<char>;

/// Relies on `urlencoding::encode`: percent-encodes the input, a pure
/// function of the characters; an empty input stays empty.
#[verifier::external_body]
fn encode_component(s: &str) -> (r: String)
    ensures
        r@ == url_encoded(s@),
        s@.len() == 0 ==> r@.len() == 0,
{
    urlencoding::encode(s).into_owned()
}

/// The web intent link that shares `message`: the tweet composer address
/// followed by the percent-encoded message.
pub fn share_url(message: &str) -> (r: String)
    ensures
        r@ == "https://twitter.com/intent/tweet?text="@ + url_encoded(message@),
{
    let mut url: String = "https://twitter.com/intent/tweet?text=".to_owned();
    let encoded = encode_component(message);
    url.append(encoded.as_str());
    url
}

/// The message the share button posts.
pub fn share_message() -> (r: &'static str)
    ensures
        r@ == "With #bevygamejam, become an artist with bevy da vinci, check it out at https://vrixyz.itch.io/bevydavinci"@,
{
    "With #bevygamejam, become an artist with bevy da vinci, check it out at https://vrixyz.itch.io/bevydavinci"
}

} // verus!
