//! Points in time: the clock, and Unix seconds as RFC 3339 text.

use vstd::prelude::*;

verus! {

/// The seconds from the Unix epoch to now, by `SystemTime::elapsed` of the epoch;
/// 0 where the clock stands before it. What the clock says is open.
#[verifier::external_body]
pub fn now_secs() -> (n: u64) {
    std::time::UNIX_EPOCH.elapsed().unwrap_or_default().as_secs()
}

/// The number that the 64 bits of `n` write in two's complement.
pub open spec fn signed(n: u64) -> int {
    if n < 0x8000_0000_0000_0000 {
        n as int
    } else {
        n - 0x1_0000_0000_0000_0000
    }
}

/// The number that the 64 bits of `n`, in two's complement, write unsigned.
pub open spec fn unsigned(n: i64) -> int {
    if n >= 0 {
        n as int
    } else {
        n + 0x1_0000_0000_0000_0000
    }
}

/// The number that the 64 bits of `n` write in two's complement.
pub fn to_signed(n: u64) -> (r: i64)
    ensures
        r == signed(n),
{
    if n < 0x8000_0000_0000_0000 {
        n as i64
    } else {
        let low: i64 = (n - 0x8000_0000_0000_0000) as i64;
        low + i64::MIN
    }
}

/// The number that the 64 bits of `n`, in two's complement, write unsigned.
pub fn to_unsigned(n: i64) -> (r: u64)
    ensures
        r == unsigned(n),
{
    if n >= 0 {
        n as u64
    } else {
        let low: u64 = (n - i64::MIN) as u64;
        low + 0x8000_0000_0000_0000
    }
}

/// Reading a number signed and then unsigned gives the number back.
pub proof fn law_signed_unsigned(n: u64, i: i64)
    ensures
        signed(n) == i <==> unsigned(i) == n,
{
}

/// The first second of the first year that `time` holds, in Unix seconds.
pub open spec fn first_second() -> int {
    -377705116800
}

/// The first second of the year 0, in Unix seconds.
pub open spec fn first_printable_second() -> int {
    -62167219200
}

/// The last second of the year 9999, in Unix seconds.
pub open spec fn last_second() -> int {
    253402300799
}

/// The RFC 3339 text that `time` writes for a point in time, in Unix seconds.
pub uninterp spec fn rfc3339_text(secs: int) -> Seq<char>;

/// The point in time, in Unix seconds, that `time` reads off an RFC 3339 text.
pub uninterp spec fn rfc3339_secs(s: Seq<char>) -> Option<int>;

/// `time::OffsetDateTime::format` with `Rfc3339`, of a point in time that
/// `OffsetDateTime::from_unix_timestamp` makes. The latter takes the years -9999
/// to 9999. The format fails before the year 0, and the text is then empty; from
/// then on it has the shape `YYYY-MM-DDTHH:MM:SSZ` and reads back as the same
/// point in time.
#[verifier::external_body]
fn format_rfc3339(secs: i64) -> (r: Option<String>)
    ensures
        match r {
            Some(s) => {
                &&& first_second() <= secs <= last_second()
                &&& secs < first_printable_second() ==> s@.len() == 0
                &&& secs >= first_printable_second() ==> {
                    &&& s@ == rfc3339_text(secs as int)
                    &&& rfc3339_secs(s@) == Some(secs as int)
                    &&& s@.len() == 20
                    &&& s@[10] == 'T'
                    &&& s@[19] == 'Z'
                }
            },
            None => !(first_second() <= secs <= last_second()),
        },
{
    time::OffsetDateTime::from_unix_timestamp(secs).ok().map(
        |t| t.format(&time::format_description::well_known::Rfc3339).unwrap_or_default(),
    )
}

/// `time::OffsetDateTime::parse` with `Rfc3339`: the point in time that the text
/// gives, in Unix seconds. The result depends on the text alone; the empty text
/// gives none.
#[verifier::external_body]
fn parse_rfc3339(s: &str) -> (r: Option<i64>)
    ensures
        match r {
            Some(n) => rfc3339_secs(s@) == Some(n as int) && s@.len() > 0,
            None => rfc3339_secs(s@) is None,
        },
{
    time::OffsetDateTime::parse(s, &time::format_description::well_known::Rfc3339).ok().map(
        |t| t.unix_timestamp(),
    )
}

/// The text of a point in time, in Unix seconds: none of 0 and of what lies past
/// the years that `time` holds, the empty text before the year 0.
pub open spec fn iso8601(ts: u64) -> Option<Seq<char>> {
    let secs = signed(ts);
    if ts == 0 || secs < first_second() || secs > last_second() {
        None
    } else if secs < first_printable_second() {
        Some(Seq::empty())
    } else {
        Some(rfc3339_text(secs))
    }
}

/// The point in time, in Unix seconds, that an ISO 8601 text gives; the empty text
/// gives none.
pub open spec fn iso8601_secs(s: Seq<char>) -> Option<u64> {
    if s.len() == 0 {
        None
    } else {
        match rfc3339_secs(s) {
            Some(n) => Some(unsigned(n as i64) as u64),
            None => None,
        }
    }
}

/// The point in time, in Unix seconds, that an ISO 8601 text gives.
pub fn parse_iso8601(s: &str) -> (r: Option<u64>)
    ensures
        r == iso8601_secs(s@),
{
    if s.is_empty() {
        return None;
    }
    match parse_rfc3339(s) {
        Some(n) => Some(to_unsigned(n)),
        None => None,
    }
}

/// The ISO 8601 text of a point in time, in Unix seconds. From the year 0 on, up to
/// the year 9999, it reads back as the same point in time.
pub fn format_iso8601(ts: u64) -> (r: Option<String>)
    ensures
        match r {
            Some(s) => iso8601(ts) == Some(s@),
            None => iso8601(ts) is None,
        },
        r matches Some(s) ==> signed(ts) >= first_printable_second() ==> {
            &&& iso8601_secs(s@) == Some(ts)
            &&& s@.len() == 20
            &&& s@[10] == 'T'
            &&& s@[19] == 'Z'
        },
{
    if ts == 0 {
        return None;
    }
    let r = format_rfc3339(to_signed(ts));
    proof {
        if r is Some && signed(ts) < first_printable_second() {
            assert(r->0@ =~= Seq::empty());
        }
    }
    r
}

/// The ISO 8601 text of a point in time; the empty text where it has none.
pub open spec fn iso8601_or_empty(ts: u64) -> Seq<char> {
    match iso8601(ts) {
        Some(s) => s,
        None => Seq::empty(),
    }
}

/// The ISO 8601 text of a point in time; the empty text where it has none.
pub fn format_or_empty(ts: u64) -> (s: String)
    ensures
        s@ == iso8601_or_empty(ts),
{
    match format_iso8601(ts) {
        Some(s) => s,
        None => {
            let s = String::new();
            proof {
                assert(s@ =~= Seq::empty());
            }
            s
        },
    }
}

/// The text of an optional point in time.
pub open spec fn optional_iso8601(ts: Option<u64>) -> Option<Seq<char>> {
    match ts {
        Some(t) => iso8601(t),
        None => None,
    }
}

/// The text of an optional point in time.
pub fn format_optional(ts: Option<u64>) -> (r: Option<String>)
    ensures
        match r {
            Some(s) => optional_iso8601(ts) == Some(s@),
            None => optional_iso8601(ts) is None,
        },
{
    match ts {
        Some(t) => format_iso8601(t),
        None => None,
    }
}

// ---------------------------------------------------------------------------
// Laws
// ---------------------------------------------------------------------------

/// A point in time before the year 10000 is written with its own second; the first second
/// of all, which stands for none, is not written.
pub proof fn law_time_is_written(ts: u64)
    ensures
        0 < ts <= 253402300799 ==> iso8601(ts) == Some(rfc3339_text(ts as int)) && iso8601_or_empty(
            ts,
        ) == rfc3339_text(ts as int) && optional_iso8601(Some(ts)) == Some(
            rfc3339_text(ts as int),
        ),
        iso8601(0) is None,
        iso8601_or_empty(0).len() == 0,
        optional_iso8601(None) is None,
        253402300799 < ts < 0x8000_0000_0000_0000 ==> iso8601(ts) is None,
{
}

/// A text that names a second from 1970 on is read as that second, and one that names none
/// is not read.
pub proof fn law_time_is_read(s: Seq<char>)
    requires
        s.len() > 0,
        rfc3339_secs(s) matches Some(n) ==> 0 <= n < 0x8000_0000_0000_0000,
    ensures
        match rfc3339_secs(s) {
            Some(n) => iso8601_secs(s) is Some && iso8601_secs(s)->0 == n,
            None => iso8601_secs(s) is None,
        },
        iso8601_secs(Seq::empty()) is None,
{
}

/// A number below the half of all is the same with a sign.
pub proof fn law_sign_changes_nothing(n: u64)
    requires
        n < 0x8000_0000_0000_0000,
    ensures
        signed(n) == n,
        unsigned(n as i64) == n,
{
}

} // verus!
