//! The notification-identity record: a tiny file whose entire contents are
//! either empty ("no notification tracked yet") or the decimal numeral of
//! the identifier of the notification to replace.  This module gives the
//! record's text format an exact meaning and the verified conversions in
//! both directions.

use vstd::prelude::*;
use crate::digits::{all_digits, dec_digits, digits_val, is_digit, parse_decimal, u64_to_string};
use crate::digits::{lemma_dec_digits_val, lemma_dec_digits_wf};
use crate::text::{is_space, to_chars, trim, trim_spec, lemma_trim_noop};

verus! {

/// A record whose trimmed contents are neither empty nor a numeral that
/// fits the identity type is corrupt, and the invocation must fail.
#[derive(Clone, Copy, Debug, PartialEq, Eq, Structural)]
pub enum RecordError {
    Malformed,
}

/// What a record's text denotes: no identity, a stored identity, or
/// corruption.  The stored numeral must fit the identity type.
pub open spec fn record_spec(s: Seq<char>) -> Result<Option<u64>, RecordError> {
    let t = trim_spec(s);
    if t.len() == 0 {
        Ok(None)
    } else if all_digits(t) && digits_val(t) <= u64::MAX {
        Ok(Some(digits_val(t) as u64))
    } else {
        Err(RecordError::Malformed)
    }
}

/// Reads a record's contents: empty means no identity, otherwise the whole
/// trimmed text must be the decimal numeral of the stored identifier.
pub fn parse_record(s: &str) -> (r: Result<Option<u64>, RecordError>)
    ensures
        r == record_spec(s@),
{
    let t = trim(s);
    let chars = to_chars(t);
    let n = chars.len();
    if n == 0 {
        return Ok(None);
    }
    let mut i: usize = 0;
    while i < n
        invariant
            i <= n,
            n == chars@.len(),
            chars@ == trim_spec(s@),
            forall|j: int| 0 <= j < i ==> is_digit(#[trigger] chars@[j]),
        decreases n - i,
    {
        let c = chars[i];
        if !('0' <= c && c <= '9') {
            return Err(RecordError::Malformed);
        }
        i = i + 1;
    }
    proof {
        assert(chars@.subrange(0, n as int) =~= chars@);
    }
    match parse_decimal(&chars, 0, n, u64::MAX) {
        Some(id) => Ok(Some(id)),
        None => Err(RecordError::Malformed),
    }
}

/// The record text for a stored identifier: its decimal numeral, nothing
/// around it.
pub fn format_record(id: u64) -> (r: String)
    ensures
        r@ == dec_digits(id as nat),
{
    u64_to_string(id)
}

/// The default place of the record: under the per-user runtime directory,
/// which the session clears, so a tracked identity does not outlive the
/// notifications it refers to.
pub fn default_record_path(uid: u32) -> (r: String)
    ensures
        r@ == "/run/user/"@ + dec_digits(uid as nat) + "/volume.id"@,
{
    let mut r = "/run/user/".to_owned();
    r.append(u64_to_string(uid as u64).as_str());
    r.append("/volume.id");
    proof {
        assert(r@ =~= "/run/user/"@ + dec_digits(uid as nat) + "/volume.id"@);
    }
    r
}

/// Law: the record round-trips.  Writing an identifier's record text and
/// reading it back yields exactly that identifier.
pub proof fn lemma_record_round_trip(id: u64)
    ensures
        record_spec(dec_digits(id as nat)) == Ok::<Option<u64>, RecordError>(Some(id)),
{
    let t = dec_digits(id as nat);
    lemma_dec_digits_wf(id as nat);
    lemma_dec_digits_val(id as nat);
    assert(is_digit(t[0]) && is_digit(t.last()));
    assert(!is_space(t[0]) && !is_space(t.last()));
    lemma_trim_noop(t);
}

} // verus!
