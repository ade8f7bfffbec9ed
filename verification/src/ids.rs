//! Frame identifiers.
//!
//! Identifiers are SCRU128 values carried as plain `u128` integers. The
//! outside crate mints fresh candidates and renders the 25-digit canonical
//! text; the log's own minting logic (see `log`) enforces monotonicity.

use vstd::prelude::*;

verus! {

/// What `scru128::Id::try_from_str` returns for a given text: `Some` of the
/// decoded identifier for a well-formed 25-digit Base36 string, `None`
/// otherwise. Parsing depends on the text alone.
pub uninterp spec fn parse_scru(s: Seq<char>) -> Option<u128>;

/// Relies on `scru128::new`: a fresh identifier candidate. Its value depends
/// on the clock and on generator state, so nothing is assumed of it; callers
/// must enforce monotonicity themselves.
#[verifier::external_body]
pub(crate) fn mint_raw() -> u128 {
    scru128::new().to_u128()
}

/// Relies on `scru128::Id::encode` (through `Display`): the 25-digit
/// canonical Base36 text of the identifier, which `try_from_str` decodes
/// back to the same identifier.
#[verifier::external_body]
pub fn id_to_text(id: u128) -> (r: String)
    ensures
        r@.len() == 25,
        parse_scru(r@) == Some(id),
{
    scru128::Id::from(id).to_string()
}

/// Relies on `scru128::Id::try_from_str`: decodes the 25-digit Base36 text,
/// rejecting any other input — in particular any text that is not exactly 25
/// characters; the result depends on the text alone.
#[verifier::external_body]
pub fn parse_id(s: &str) -> (r: Option<u128>)
    ensures
        r == parse_scru(s@),
        s@.len() != 25 ==> r is None,
{
    match scru128::Id::try_from_str(s) {
        Ok(id) => Some(id.to_u128()),
        Err(_) => None,
    }
}

} // verus!
