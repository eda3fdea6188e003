//! Icon selection for the notification.  The mute query's text decides
//! first: the exact report `Mute: yes` always selects the muted icon.
//! Otherwise the aggregate percentage picks a bucket, each boundary value
//! belonging to the lower-named bucket: zero is muted, up to 32 is low,
//! up to 65 is medium, everything above is high.

use vstd::prelude::*;
use crate::text::str_eq;

verus! {

/// The icon for a mute report and an aggregate percentage.
pub open spec fn icon_spec(mute: Seq<char>, percent: u32) -> Seq<char> {
    if mute == "Mute: yes"@ || percent == 0 {
        "audio-volume-muted"@
    } else if percent <= 32 {
        "audio-volume-low"@
    } else if percent <= 65 {
        "audio-volume-medium"@
    } else {
        "audio-volume-high"@
    }
}

/// Selects the notification icon from the mute query's text and the
/// aggregate volume percentage.
pub fn get_icon(mutestr: &str, percent: u32) -> (r: &'static str)
    ensures
        r@ == icon_spec(mutestr@, percent),
{
    if str_eq(mutestr, "Mute: yes") {
        return "audio-volume-muted";
    }
    if percent == 0 {
        "audio-volume-muted"
    } else if percent <= 32 {
        "audio-volume-low"
    } else if percent <= 65 {
        "audio-volume-medium"
    } else {
        "audio-volume-high"
    }
}

} // verus!
