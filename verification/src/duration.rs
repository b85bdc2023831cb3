//! Spans of time, written the way `humantime` writes them (`2s`, `1m 30s`).

use vstd::prelude::*;

verus! {

/// What `humantime` writes for the span of `secs` seconds and `nanos`
/// nanoseconds (the `Display` of `humantime::Duration`).
pub uninterp spec fn humantime_text(secs: u64, nanos: u32) -> Seq<char>;

/// Calls the `Display` of `humantime::Duration` on the span of `secs` seconds
/// and `nanos` nanoseconds. Nothing is claimed of the text but that it is what
/// `humantime_text` names for these two numbers.
#[verifier::external_body]
fn format_span(secs: u64, nanos: u32) -> (res: String)
    requires
        nanos < 1_000_000_000,
    ensures
        res@ == humantime_text(secs, nanos),
{
    humantime::Duration::from(std::time::Duration::new(secs, nanos)).to_string()
}

/// A span of time: whole seconds and the nanoseconds beyond them.
#[derive(Clone, Copy, Debug)]
pub struct HumanDuration {
    secs: u64,
    nanos: u32,
}

impl View for HumanDuration {
    type V = (u64, u32);

    closed spec fn view(&self) -> (u64, u32) {
        (self.secs, self.nanos)
    }
}

/// The text of a span.
pub open spec fn duration_text(d: HumanDuration) -> Seq<char> {
    humantime_text(d@.0, d@.1)
}

impl HumanDuration {
    #[verifier::type_invariant]
    spec fn well_formed(self) -> bool {
        self.nanos < 1_000_000_000
    }

    /// The span of `secs` seconds and `nanos` nanoseconds.
    pub fn new(secs: u64, nanos: u32) -> (res: HumanDuration)
        requires
            nanos < 1_000_000_000,
        ensures
            res@ == (secs, nanos),
    {
        HumanDuration { secs, nanos }
    }

    /// The span of `secs` whole seconds.
    pub fn from_secs(secs: u64) -> (res: HumanDuration)
        ensures
            res@ == (secs, 0u32),
    {
        HumanDuration { secs, nanos: 0 }
    }

    /// The span of `millis` milliseconds.
    pub fn from_millis(millis: u64) -> (res: HumanDuration)
        ensures
            res@.0 == millis / 1000,
            res@.1 == (millis % 1000) * 1_000_000,
    {
        let nanos: u32 = ((millis % 1000) as u32) * 1_000_000;
        HumanDuration { secs: millis / 1000, nanos }
    }

    /// The whole seconds of the span.
    pub fn as_secs(&self) -> (res: u64)
        ensures
            res == self@.0,
    {
        self.secs
    }

    /// The nanoseconds of the span beyond its whole seconds; below one second.
    pub fn subsec_nanos(&self) -> (res: u32)
        ensures
            res == self@.1,
            res < 1_000_000_000,
    {
        proof {
            use_type_invariant(self);
        }
        self.nanos
    }

    /// The span written as `humantime` writes it.
    pub fn to_text(&self) -> (res: String)
        ensures
            res@ == duration_text(*self),
    {
        proof {
            use_type_invariant(self);
        }
        format_span(self.secs, self.nanos)
    }
}

} // verus!
