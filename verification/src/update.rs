//! Background self-update: whether a check is due, and what its outcome means.

use vstd::prelude::*;
use crate::delta::Output;
use crate::geometry;
use crate::txt;

verus! {

/// Where updates come from.
pub const REPO_URL: &'static str = "https://github.com/koshea/diffski";

/// The time of the last check that a state file records; 0 if it is unreadable.
pub open spec fn recorded(state: Option<Seq<char>>) -> nat {
    match state {
        Some(text) => match txt::parsed(txt::trimmed(text), u64::MAX as nat) {
            Some(t) => t,
            None => 0,
        },
        None => 0,
    }
}

/// Whether enough time has passed since the last check: a day.
pub open spec fn due(state: Option<Seq<char>>, now: u64) -> bool {
    geometry::minus(now as int, recorded(state) as int) >= 86400
}

/// Whether enough time has passed since the last check, recorded in the text of the
/// state file (`None`: it can't be read), at time `now` in seconds since the epoch.
/// When it has, "now" is to be recorded, so we check at most once per interval: the
/// result is the text to record.
pub fn check_due(state: &Option<String>, now: u64) -> (r: Option<String>)
    ensures
        r is Some <==> due(txt::opt_text(*state), now),
        r matches Some(text) ==> text@ == txt::decimal(now as nat),
{
    let last: u64 = match state {
        Some(text) => {
            let chars = txt::chars_of(text.as_str());
            match txt::parse_unsigned(txt::trim_chars(chars.as_slice()), u64::MAX) {
                Some(t) => t,
                None => 0,
            }
        },
        None => 0,
    };
    if now < last || now - last < 86400 {
        None
    } else {
        Some(txt::decimal_string(now))
    }
}

/// The message for an installed update.
pub open spec fn updated_message() -> Seq<char> {
    "✨ diffski updated — restart to apply"@
}

/// Whether the installer's run put a new version in place.
pub open spec fn installed(out: Output) -> bool {
    out.success && txt::holds(txt::decoded(out.stderr@), "Replacing"@)
}

/// What the run of `cargo install` came to. cargo logs progress to stderr; "Replacing"
/// means the binary was updated (vs. "already installed" when the version is unchanged).
pub fn outcome(out: &Output) -> (r: Option<String>)
    ensures
        r is Some <==> installed(*out),
        r matches Some(text) ==> text@ == updated_message(),
{
    let log = txt::chars_of(txt::utf8_lossy(out.stderr.as_slice()).as_str());
    let word = txt::chars_of("Replacing");
    if out.success && txt::contains(log.as_slice(), word.as_slice()) {
        Some("✨ diffski updated — restart to apply".to_owned())
    } else {
        None
    }
}

/// Recording a check defers the next one by a day.
pub proof fn law_checks_are_a_day_apart(now: u64, later: u64)
    requires
        now <= later,
    ensures
        due(Some(txt::decimal(now as nat)), later) <==> later - now >= 86400,
{
    txt::law_decimal_round_trip(now as nat, u64::MAX as nat);
    crate::config_laws::lemma_number_trims(now as nat);
}

} // verus!
