use vstd::prelude::*;

verus! {

/// Relies on `env::signer_account_id`: the account that signed the current
/// call, as text.
#[verifier::external_body]
pub(crate) fn signer_id() -> (r: String) {
    String::from(near_sdk::env::signer_account_id())
}

} // verus!
