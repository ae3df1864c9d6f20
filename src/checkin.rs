use vstd::prelude::*;
use crate::text::{same_text, utf8};

verus! {

/// Alert shown at a SIP terminal after a checkin.
#[derive(Clone, Copy, Debug, PartialEq, Eq, Structural)]
pub enum AlertType {
    Unknown,
    LocalHold,
    RemoteHold,
    Ill,
    Transit,
    Other,
}

/// The two-character SIP code of each alert.
pub open spec fn alert_code(a: AlertType) -> Seq<char> {
    match a {
        AlertType::Unknown => "00"@,
        AlertType::LocalHold => "01"@,
        AlertType::RemoteHold => "02"@,
        AlertType::Ill => "03"@,
        AlertType::Transit => "04"@,
        AlertType::Other => "99"@,
    }
}

/// A text that is the code of some alert.
pub open spec fn is_alert_code(v: Seq<char>) -> bool {
    exists|a: AlertType| alert_code(a) == v
}

impl AlertType {
    pub fn code(&self) -> (r: &'static str)
        ensures
            r@ == alert_code(*self),
    {
        match self {
            AlertType::Unknown => "00",
            AlertType::LocalHold => "01",
            AlertType::RemoteHold => "02",
            AlertType::Ill => "03",
            AlertType::Transit => "04",
            AlertType::Other => "99",
        }
    }

    /// The alert a SIP code names; only codes of alerts are accepted.
    pub fn from_code(v: &str) -> (r: AlertType)
        requires
            is_alert_code(v@),
        ensures
            alert_code(r) == v@,
    {
        if same_text(v, "00") {
            AlertType::Unknown
        } else if same_text(v, "01") {
            AlertType::LocalHold
        } else if same_text(v, "02") {
            AlertType::RemoteHold
        } else if same_text(v, "03") {
            AlertType::Ill
        } else if same_text(v, "04") {
            AlertType::Transit
        } else {
            proof {
                let a = choose|a: AlertType| alert_code(a) == v@;
                reveal_strlit("00");
                reveal_strlit("01");
                reveal_strlit("02");
                reveal_strlit("03");
                reveal_strlit("04");
                reveal_strlit("99");
                assert(a is Other);
            }
            AlertType::Other
        }
    }
}

/// Layout of SIP dates: `YYYYMMDDZZZZHHMMSS`, the zone left blank.
pub const SIP_DATE_FORMAT: &'static str = "%Y%m%d    %H%M%S";

/// The text without leading and trailing whitespace.
pub uninterp spec fn trimmed(s: Seq<char>) -> Seq<char>;

/// Relies on `str::trim`: the text minus leading and trailing whitespace,
/// which depends on the text alone.
#[verifier::external_body]
fn trim_text(s: &str) -> (r: &str)
    ensures
        r@ == trimmed(s@),
{
    s.trim()
}

/// The `YYYY-MM-DD` date of a SIP date, where it is one.
pub uninterp spec fn sip_date_iso(s: Seq<char>) -> Option<Seq<char>>;

/// Relies on `chrono::NaiveDateTime::parse_from_str` with the SIP date
/// layout, and on `NaiveDateTime::format` with `%Y-%m-%d`; `None` where the
/// text does not parse.
#[verifier::external_body]
fn parse_sip_date(s: &str) -> (r: Option<String>)
    ensures
        match r {
            Some(t) => sip_date_iso(s@) == Some(t@),
            None => sip_date_iso(s@) is None,
        },
{
    chrono::NaiveDateTime::parse_from_str(s, SIP_DATE_FORMAT).ok().map(
        |d| d.format("%Y-%m-%d").to_string(),
    )
}

/// The date a checkin is backdated to: a return date of 18 bytes
/// (whitespace around it aside) that parses as a SIP date.
pub fn checkin_backdate(return_date: &str) -> (r: Option<String>)
    ensures
        utf8(trimmed(return_date@)).len() == 18 ==> match sip_date_iso(return_date@) {
            Some(d) => r is Some && r->Some_0@ == d,
            None => r is None,
        },
        utf8(trimmed(return_date@)).len() != 18 ==> r is None,
{
    if trim_text(return_date).as_bytes().len() != 18 {
        return None;
    }
    parse_sip_date(return_date)
}

/// The outcome of a checkin as the terminal sees it.
#[derive(Debug)]
pub struct CheckinResult {
    pub ok: bool,
    pub current_loc: String,
    pub permanent_loc: String,
    pub destination_loc: Option<String>,
    pub patron_barcode: Option<String>,
    pub alert_type: Option<AlertType>,
    pub hold_patron_name: Option<String>,
    pub hold_patron_barcode: Option<String>,
}

/// The result of a checkin refused because the item is checked out.
pub fn blocked_checkin(current_loc: String, permanent_loc: String) -> (r: CheckinResult)
    ensures
        !r.ok,
        r.current_loc == current_loc,
        r.permanent_loc == permanent_loc,
        r.destination_loc is None,
        r.patron_barcode is None,
        r.alert_type == Some(AlertType::Other),
        r.hold_patron_name is None,
        r.hold_patron_barcode is None,
{
    CheckinResult {
        ok: false,
        current_loc,
        permanent_loc,
        destination_loc: None,
        patron_barcode: None,
        alert_type: Some(AlertType::Other),
        hold_patron_name: None,
        hold_patron_barcode: None,
    }
}

/// A captured hold raises a local-hold alert where it is picked up at the
/// terminal's own library, else a remote-hold alert.
pub fn hold_alert(pickup_lib: i64, terminal_lib: i64) -> (r: AlertType)
    ensures
        r == if pickup_lib == terminal_lib {
            AlertType::LocalHold
        } else {
            AlertType::RemoteHold
        },
{
    if pickup_lib == terminal_lib {
        AlertType::LocalHold
    } else {
        AlertType::RemoteHold
    }
}

/// Success and alert from the event a checkin returned: `SUCCESS` and
/// `NO_CHANGE` succeed; `ROUTE_ITEM` succeeds with a transit alert unless
/// an alert is set already; anything else fails with an unknown alert
/// unless an alert is set already.
pub fn checkin_outcome(textcode: &str, alert: Option<AlertType>) -> (r: (bool, Option<AlertType>))
    ensures
        textcode@ == "SUCCESS"@ || textcode@ == "NO_CHANGE"@ ==> r == (true, alert),
        !(textcode@ == "SUCCESS"@ || textcode@ == "NO_CHANGE"@) && textcode@ == "ROUTE_ITEM"@ ==> r
            == (true, if alert is Some { alert } else { Some(AlertType::Transit) }),
        !(textcode@ == "SUCCESS"@ || textcode@ == "NO_CHANGE"@ || textcode@ == "ROUTE_ITEM"@) ==> r
            == (false, if alert is Some { alert } else { Some(AlertType::Unknown) }),
{
    if same_text(textcode, "SUCCESS") || same_text(textcode, "NO_CHANGE") {
        (true, alert)
    } else if same_text(textcode, "ROUTE_ITEM") {
        (true, if alert.is_some() { alert } else { Some(AlertType::Transit) })
    } else {
        (false, if alert.is_some() { alert } else { Some(AlertType::Unknown) })
    }
}

} // verus!
