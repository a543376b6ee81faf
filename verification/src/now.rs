//! The current-time report: the timezone argument selects UTC exactly for
//! `"utc"`; any other value falls back to local time (a documented default,
//! not an error).

use vstd::prelude::*;

use crate::text::str_eq;

verus! {

/// A current-time request.
pub struct NowTool {
    /// `"utc"` for UTC; anything else means local time.
    pub timezone: String,
}

/// The timezone argument used when a request names none.
pub fn default_timezone() -> (r: String)
    ensures
        r@ == "local"@,
{
    let mut r = String::new();
    r.append("local");
    assert(r@ =~= "local"@);
    r
}

/// The timezone label reported for a request: `utc` exactly for `"utc"`,
/// `local` for everything else.
pub open spec fn timezone_label(tz: Seq<char>) -> Seq<char> {
    if tz == "utc"@ {
        "utc"@
    } else {
        "local"@
    }
}

/// Relies on chrono's `Utc::now().to_rfc3339()`: an RFC 3339 rendering of
/// the current UTC time. Its offset is always rendered as `+00:00`.
#[verifier::external_body]
fn utc_now_rfc3339() -> (r: String)
    ensures
        r@.len() >= 6 && r@.subrange(r@.len() - 6, r@.len() as int) == "+00:00"@,
{
    chrono::Utc::now().to_rfc3339()
}

/// Relies on chrono's `Local::now().to_rfc3339()`: an RFC 3339 rendering of
/// the current time in the machine's local timezone, about which nothing
/// is promised.
#[verifier::external_body]
fn local_now_rfc3339() -> (r: String) {
    chrono::Local::now().to_rfc3339()
}

/// The full report for timezone label `label` and rendered time `time`.
pub open spec fn now_message_spec(label: Seq<char>, time: Seq<char>) -> Seq<char> {
    "Current time ("@ + label + "): "@ + time
}

impl NowTool {
    /// Renders the report line for an already-obtained time string.
    pub fn format_now_message(&self, iso_datetime: &str) -> (r: String)
        ensures
            r@ == now_message_spec(timezone_label(self.timezone@), iso_datetime@),
    {
        let is_utc = str_eq(self.timezone.as_str(), "utc");
        let mut r = String::new();
        r.append("Current time (");
        if is_utc {
            r.append("utc");
        } else {
            r.append("local");
        }
        r.append("): ");
        r.append(iso_datetime);
        assert(r@ =~= now_message_spec(timezone_label(self.timezone@), iso_datetime@));
        r
    }

    /// Reads the clock in the requested timezone and renders the report.
    /// The time string itself depends on the clock; the frame around it, and
    /// the `+00:00` offset suffix in the UTC case, do not.
    pub fn now_message(&self) -> (r: String)
        ensures
            exists|time: Seq<char>|
                r@ == now_message_spec(timezone_label(self.timezone@), time) && (self.timezone@
                    == "utc"@ ==> time.len() >= 6 && time.subrange(
                    time.len() - 6,
                    time.len() as int,
                ) == "+00:00"@),
    {
        let is_utc = str_eq(self.timezone.as_str(), "utc");
        let time = if is_utc {
            utc_now_rfc3339()
        } else {
            local_now_rfc3339()
        };
        let r = self.format_now_message(time.as_str());
        proof {
            assert(r@ == now_message_spec(timezone_label(self.timezone@), time@));
        }
        r
    }
}

} // verus!
