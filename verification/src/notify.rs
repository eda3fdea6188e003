//! The notification: its body, its command line, and the identifier the
//! notification tool prints back.  The body is the mute line followed by
//! one bulleted line per channel; the command carries a replace flag
//! exactly when a prior identity is on record, so that successive
//! invocations update one notification instead of stacking new ones.

use vstd::prelude::*;
use vstd::string::{StringExecFns, StrSliceExecFns};
use crate::digits::dec_digits;
use crate::digits::u64_to_string;
use crate::record::{record_spec, RecordError};
use crate::record::parse_record;

verus! {

/// The channel block of the body: each channel line prefixed with `- `,
/// with newlines between the lines.
pub open spec fn channel_block(chans: Seq<Seq<char>>) -> Seq<char>
    decreases chans.len(),
{
    if chans.len() == 0 {
        Seq::empty()
    } else {
        channel_block(chans.drop_last())
            + (if chans.len() > 1 { seq!['\n'] } else { Seq::<char>::empty() })
            + seq!['-', ' '] + chans.last()
    }
}

/// The notification body: the mute line, a newline, the channel block.
pub open spec fn body_spec(mute: Seq<char>, chans: Seq<Seq<char>>) -> Seq<char> {
    mute + seq!['\n'] + channel_block(chans)
}

/// The notification command: tool, title, body, print-identifier flag,
/// icon, and — exactly when an identity is on record — the replace flag
/// with that identity's numeral.
pub open spec fn notify_command_spec(
    mute: Seq<char>,
    chans: Seq<Seq<char>>,
    icon: Seq<char>,
    replace: Option<u64>,
) -> Seq<Seq<char>> {
    let base = seq![
        "notify-send"@,
        "Volume"@,
        body_spec(mute, chans),
        "-p"@,
        "-i"@,
        icon,
    ];
    match replace {
        None => base,
        Some(id) => base + seq!["-r"@, dec_digits(id as nat)],
    }
}

/// Builds the notification body from the mute line and the channel lines.
#[verifier::loop_isolation(false)]
pub fn build_body(mute: &str, channels: &Vec<String>) -> (r: String)
    ensures
        r@ == body_spec(mute@, channels@.map_values(|c: String| c@)),
{
    let ghost dv = |c: String| c@;
    let ghost chans = channels@.map_values(dv);
    let mut body = mute.to_owned();
    body.append("\n");
    proof {
        reveal_strlit("\n");
        assert(body@ =~= mute@ + seq!['\n']);
        assert(chans.take(0) =~= Seq::<Seq<char>>::empty());
    }
    let n = channels.len();
    let mut k: usize = 0;
    while k < n
        invariant
            k <= n,
            n == channels@.len(),
            body@ == mute@ + seq!['\n'] + channel_block(chans.take(k as int)),
        decreases n - k,
    {
        if k > 0 {
            body.append("\n");
        }
        body.append("- ");
        body.append(channels[k].as_str());
        proof {
            reveal_strlit("\n");
            reveal_strlit("- ");
            assert(chans.take(k + 1).drop_last() =~= chans.take(k as int));
            assert(chans.take(k + 1).last() == chans[k as int]);
            if k > 0 {
                assert(body@ =~= mute@ + seq!['\n'] + channel_block(chans.take(k + 1)));
            } else {
                assert(channel_block(chans.take(0)) =~= Seq::<char>::empty());
                assert(body@ =~= mute@ + seq!['\n'] + channel_block(chans.take(k + 1)));
            }
        }
        k = k + 1;
    }
    proof {
        assert(chans.take(n as int) =~= chans);
    }
    body
}

/// Builds the full notification command for the runner.
pub fn notification_command(
    mute: &str,
    channels: &Vec<String>,
    icon: &str,
    replace: Option<u64>,
) -> (cmd: Vec<String>)
    ensures
        cmd@.map_values(|s: String| s@) == notify_command_spec(
            mute@,
            channels@.map_values(|c: String| c@),
            icon@,
            replace,
        ),
{
    let ghost dv = |s: String| s@;
    let body = build_body(mute, channels);
    let mut cmd = vec![
        "notify-send".to_owned(),
        "Volume".to_owned(),
        body,
        "-p".to_owned(),
        "-i".to_owned(),
        icon.to_owned(),
    ];
    match replace {
        None => {
            proof {
                assert(cmd@.map_values(dv) =~~= notify_command_spec(
                    mute@, channels@.map_values(|c: String| c@), icon@, replace,
                ));
            }
        }
        Some(id) => {
            cmd.push("-r".to_owned());
            cmd.push(u64_to_string(id));
            proof {
                assert(cmd@.map_values(dv) =~~= notify_command_spec(
                    mute@, channels@.map_values(|c: String| c@), icon@, replace,
                ));
            }
        }
    }
    cmd
}

/// What the notification tool's printed output denotes: the identifier it
/// assigned, or a protocol breach when the trimmed output is not a numeral.
pub open spec fn identity_spec(s: Seq<char>) -> Result<u64, RecordError> {
    match record_spec(s) {
        Ok(Some(id)) => Ok(id),
        _ => Err(RecordError::Malformed),
    }
}

/// Parses the identifier the notification tool printed: its trimmed
/// output must be exactly a decimal numeral.
pub fn parse_identity(s: &str) -> (r: Result<u64, RecordError>)
    ensures
        r == identity_spec(s@),
{
    match parse_record(s) {
        Ok(Some(id)) => Ok(id),
        _ => Err(RecordError::Malformed),
    }
}

} // verus!
