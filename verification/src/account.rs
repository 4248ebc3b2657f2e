//! Account identifiers as plain strings, and their validity as NEAR decides it.
use vstd::prelude::*;

verus! {

/// `-`, `_` and `.` separate the parts of an account id.
pub open spec fn is_separator(c: char) -> bool {
    c == '-' || c == '_' || c == '.'
}

/// The characters an account id may hold: lowercase ASCII letters, digits
/// and separators.
pub open spec fn is_account_char(c: char) -> bool {
    ||| 97 <= (c as int) <= 122
    ||| 48 <= (c as int) <= 57
    ||| is_separator(c)
}

/// A valid NEAR account id: 2 to 64 characters, lowercase letters, digits
/// and separators, neither starting nor ending with a separator and without
/// two separators in a row.
pub open spec fn valid_account_id(account: Seq<char>) -> bool {
    &&& 2 <= account.len() <= 64
    &&& forall|i: int| 0 <= i < account.len() ==> is_account_char(#[trigger] account[i])
    &&& !is_separator(account[0])
    &&& !is_separator(account.last())
    &&& forall|i: int|
        0 <= i < account.len() - 1 ==> !(is_separator(#[trigger] account[i]) && is_separator(
            account[i + 1],
        ))
}

/// Calls `near_sdk::env::is_valid_account_id` on the UTF-8 bytes of `account`.
/// That function answers `false` when the byte length is not between 2 and
/// 64, and otherwise walks the bytes: it answers `false` at a byte that is
/// neither a lowercase letter, a digit nor one of `-`, `_`, `.`, at a
/// separator that comes first or right after a separator, and at the end when
/// the last byte is a separator. A character outside that set makes some
/// byte of its encoding fall outside it, so over characters this is
/// [`valid_account_id`]. The function reads no runtime state.
#[verifier::external_body]
pub(crate) fn is_valid_account_id(account: &String) -> (valid: bool)
    ensures
        valid == valid_account_id(account@),
{
    near_sdk::env::is_valid_account_id(account.as_bytes())
}

} // verus!
