//! UTC instants and their RFC 3339 text, through `chrono`.
use vstd::prelude::*;

verus! {

/// `chrono::DateTime::<Utc>::from_timestamp(secs, nanos)` yields a value.
pub uninterp spec fn spec_utc_valid(secs: i64, nanos: u32) -> bool;

/// The text that `to_rfc3339` writes for the instant `(secs, nanos)`.
pub uninterp spec fn spec_rfc3339(secs: i64, nanos: u32) -> Seq<char>;

/// The instant lies in a year from 0 to 9999, the years that RFC 3339
/// writes with four digits (chrono writes a sign and more digits outside
/// them, which its RFC 3339 parser does not read back).
pub open spec fn spec_four_digit_year(secs: i64) -> bool {
    -62167219200 <= secs <= 253402300799
}

/// What `DateTime::parse_from_rfc3339` makes of a text, taken to UTC as
/// `(timestamp, timestamp_subsec_nanos)`, or the message of its error.
pub uninterp spec fn spec_parse_rfc3339(s: Seq<char>) -> Result<(i64, u32), Seq<char>>;

/// Calls `chrono::DateTime::<Utc>::from_timestamp` and reports whether it
/// yields a value. The contract names the answer.
#[verifier::external_body]
fn utc_valid(secs: i64, nanos: u32) -> (r: bool)
    ensures
        r == spec_utc_valid(secs, nanos),
{
    chrono::DateTime::<chrono::Utc>::from_timestamp(secs, nanos).is_some()
}

/// Calls `DateTime::<Utc>::to_rfc3339` on the instant `(secs, nanos)`; the
/// instant exists, so `from_timestamp` cannot fail. The contract names the
/// text, and claims that `parse_from_rfc3339` reads it back as the same
/// instant when its year has four digits: chrono writes the date, the time
/// (a leap second as second 60), the fraction in 3, 6 or 9 digits and the
/// offset `+00:00`, all of which its RFC 3339 parser reads.
#[verifier::external_body]
fn rfc3339(secs: i64, nanos: u32) -> (r: String)
    requires
        spec_utc_valid(secs, nanos),
    ensures
        r@ == spec_rfc3339(secs, nanos),
        spec_four_digit_year(secs) ==> spec_parse_rfc3339(r@) is Ok && spec_parse_rfc3339(r@)->Ok_0 == (secs, nanos),
{
    chrono::DateTime::<chrono::Utc>::from_timestamp(secs, nanos).unwrap().to_rfc3339()
}

/// Calls `chrono::DateTime::parse_from_rfc3339` and converts the parsed value
/// to UTC `(timestamp, timestamp_subsec_nanos)`. The contract names the
/// result, and claims that a parsed instant is one that `from_timestamp`
/// accepts (chrono only builds valid date-times).
#[verifier::external_body]
fn parse_rfc3339(s: &str) -> (r: Result<(i64, u32), String>)
    ensures
        r is Ok ==> spec_parse_rfc3339(s@) == Ok::<(i64, u32), Seq<char>>(r->Ok_0),
        r is Err ==> spec_parse_rfc3339(s@) == Err::<(i64, u32), Seq<char>>(r->Err_0@),
        r is Ok ==> spec_utc_valid(r->Ok_0.0, r->Ok_0.1),
{
    match chrono::DateTime::parse_from_rfc3339(s) {
        Ok(dt) => {
            let u = dt.with_timezone(&chrono::Utc);
            Ok((u.timestamp(), u.timestamp_subsec_nanos()))
        },
        Err(e) => Err(e.to_string()),
    }
}

/// An instant in UTC: whole seconds since the Unix epoch and the nanoseconds
/// past them (above one second during a leap second, as chrono counts them).
#[derive(Debug)]
pub struct Timestamp {
    secs: i64,
    nanos: u32,
}

impl Timestamp {
    #[verifier::type_invariant]
    spec fn inv(self) -> bool {
        spec_utc_valid(self.secs, self.nanos)
    }

    /// Seconds since the Unix epoch.
    pub closed spec fn spec_secs(self) -> i64 {
        self.secs
    }

    /// Nanoseconds past the second.
    pub closed spec fn spec_nanos(self) -> u32 {
        self.nanos
    }

    /// Makes the instant `secs` seconds and `nanos` nanoseconds after the
    /// epoch, if chrono accepts it.
    pub fn from_unix(secs: i64, nanos: u32) -> (r: Option<Timestamp>)
        ensures
            r is Some <==> spec_utc_valid(secs, nanos),
            r matches Some(t) ==> t.spec_secs() == secs && t.spec_nanos() == nanos,
    {
        if utc_valid(secs, nanos) {
            Some(Timestamp { secs, nanos })
        } else {
            None
        }
    }

    /// Seconds since the Unix epoch.
    pub fn secs(&self) -> (r: i64)
        ensures
            r == self.spec_secs(),
    {
        self.secs
    }

    /// Nanoseconds past the second.
    pub fn nanos(&self) -> (r: u32)
        ensures
            r == self.spec_nanos(),
    {
        self.nanos
    }

    /// A copy of the instant.
    pub fn copy(&self) -> (r: Timestamp)
        ensures
            r.spec_secs() == self.spec_secs(),
            r.spec_nanos() == self.spec_nanos(),
    {
        proof {
            use_type_invariant(self);
        }
        Timestamp { secs: self.secs, nanos: self.nanos }
    }

    /// The RFC 3339 text of the instant; when its year has four digits, the
    /// text parses back to the same instant.
    pub fn to_rfc3339(&self) -> (r: String)
        ensures
            r@ == spec_rfc3339(self.spec_secs(), self.spec_nanos()),
            spec_four_digit_year(self.spec_secs()) ==> spec_parse_rfc3339(r@) == Ok::<(i64, u32), Seq<char>>(
                (self.spec_secs(), self.spec_nanos()),
            ),
    {
        proof {
            use_type_invariant(self);
        }
        rfc3339(self.secs, self.nanos)
    }

    /// Parses an RFC 3339 text into an instant, or gives the parser's message.
    pub fn parse_rfc3339(s: &str) -> (r: Result<Timestamp, String>)
        ensures
            r matches Ok(t) ==> spec_parse_rfc3339(s@) == Ok::<(i64, u32), Seq<char>>(
                (t.spec_secs(), t.spec_nanos()),
            ),
            r matches Err(m) ==> spec_parse_rfc3339(s@) == Err::<(i64, u32), Seq<char>>(m@),
    {
        match parse_rfc3339(s) {
            Ok(p) => Ok(Timestamp { secs: p.0, nanos: p.1 }),
            Err(m) => Err(m),
        }
    }
}

} // verus!
