//! The calls this library makes into other crates. Verus does not look inside
//! these bodies: each contract below is believed, not proved.

use rand::Rng;
use vstd::prelude::*;

verus! {

/// Draws an integer from the thread-local generator of `rand`, through
/// `Rng::random_range` over the closed range `low..=high`. Nothing is claimed
/// about which value comes back, only that it lies in the range. An empty
/// range makes `random_range` panic, so it is ruled out.
#[verifier::external_body]
pub(crate) fn random_in_range(low: i32, high: i32) -> (drawn: i32)
    requires
        low <= high,
    ensures
        low <= drawn <= high,
{
    rand::rng().random_range(low..=high)
}

/// The error `url::Url::parse` fails with. Nothing is read from it.
#[verifier::external_type_specification]
#[verifier::external_body]
pub struct ExAddressError(url::ParseError);

/// The serialised form `url` gives an address that it accepts as an absolute
/// URL; `None` for an address it rejects.
pub uninterp spec fn normalized_address(address: Seq<char>) -> Option<Seq<char>>;

/// Parses `address` with `url::Url::parse` and, on success, returns the URL
/// as `Url::to_string` writes it. The contract claims that both the verdict
/// and the text depend on the address alone, and gives them a name; it says
/// nothing about which addresses are accepted.
#[verifier::external_body]
pub(crate) fn parse_address(address: &str) -> (parsed: Result<String, url::ParseError>)
    ensures
        match parsed {
            Ok(text) => normalized_address(address@) == Some(text@),
            Err(_) => normalized_address(address@) is None,
        },
{
    Ok(url::Url::parse(address)?.to_string())
}

/// The text `humantime` writes for a duration of `secs` whole seconds.
pub uninterp spec fn duration_text(secs: u64) -> Seq<char>;

/// Writes a duration of `secs` seconds as `humantime::format_duration`
/// displays it, for instance `2h 37m`. The contract claims that the text
/// depends on the number of seconds alone, and gives it a name.
#[verifier::external_body]
pub(crate) fn format_seconds(secs: u64) -> (text: String)
    ensures
        text@ == duration_text(secs),
{
    humantime::format_duration(std::time::Duration::from_secs(secs)).to_string()
}

} // verus!
