//! The clock of the speaker: how the replies of the time servers become one offset, and what
//! time it is afterwards.

use chrono::{DateTime, TimeDelta, Utc};
use vstd::prelude::*;

use crate::order::stable_order;

verus! {

/// How many nanoseconds a second has.
pub const NANOS_PER_SEC: u32 = 1_000_000_000;

/// A server whose reply took longer than this many nanoseconds is not trusted if others do
/// better.
pub const MAX_ACCEPTABLE_RTT: i128 = 150_000_000;

/// How many of the quickest replies are taken where too few are trusted.
pub const FALLBACK_SAMPLES: usize = 3;

/// How long the clock goes without asking the servers again, in seconds.
pub const RESYNC_SECS: u64 = 3600;

/// How long the clock waits when no server could be asked, in seconds.
pub const RETRY_SECS: u64 = 3;

/// How long to wait between two looks at whether the clock is set, in milliseconds.
pub const SYNC_POLL_MS: u64 = 100;

/// The earliest point in time, in seconds since 1970: the first second of the year -262143.
pub const UTC_MIN_SECS: i64 = -8_334_601_228_800;

/// The latest point in time, in seconds since 1970: the last second of the year 262142.
pub const UTC_MAX_SECS: i64 = 8_210_266_876_799;

/// The servers that are asked for the time.
pub fn ntp_servers() -> (r: Vec<&'static str>)
    ensures
        r@.len() == 19,
        r@[0]@ == "ntp.aliyun.com:123"@,
        r@[1]@ == "ntp.tencent.com:123"@,
        r@[2]@ == "cn.pool.ntp.org:123"@,
        r@[3]@ == "0.cn.pool.ntp.org"@,
        r@[4]@ == "1.cn.pool.ntp.org"@,
        r@[5]@ == "2.cn.pool.ntp.org"@,
        r@[6]@ == "3.cn.pool.ntp.org"@,
        r@[7]@ == "pool.ntp.org:123"@,
        r@[8]@ == "time.aws.com:123"@,
        r@[9]@ == "time.apple.com:123"@,
        r@[10]@ == "time.windows.com:123"@,
        r@[11]@ == "time.cloudflare.com:123"@,
        r@[12]@ == "time.android.com:123"@,
        r@[13]@ == "time1.google.com:123"@,
        r@[14]@ == "time2.google.com:123"@,
        r@[15]@ == "time3.google.com:123"@,
        r@[16]@ == "time4.google.com:123"@,
        r@[17]@ == "time.nist.gov:123"@,
        r@[18]@ == "time-a-wwv.nist.gov:123"@,
{
    vec![
        "ntp.aliyun.com:123",
        "ntp.tencent.com:123",
        "cn.pool.ntp.org:123",
        "0.cn.pool.ntp.org",
        "1.cn.pool.ntp.org",
        "2.cn.pool.ntp.org",
        "3.cn.pool.ntp.org",
        "pool.ntp.org:123",
        "time.aws.com:123",
        "time.apple.com:123",
        "time.windows.com:123",
        "time.cloudflare.com:123",
        "time.android.com:123",
        "time1.google.com:123",
        "time2.google.com:123",
        "time3.google.com:123",
        "time4.google.com:123",
        "time.nist.gov:123",
        "time-a-wwv.nist.gov:123",
    ]
}

/// A span of time, forward or back: whole seconds, rounded down, and what is left over.
#[derive(Debug, Clone, Copy, PartialEq, Eq, Structural)]
pub struct Delta {
    pub secs: i64,
    pub nanos: u32,
}

/// A point in time: whole seconds since 1970, rounded down, and what is left over.
#[derive(Debug, Clone, Copy, PartialEq, Eq, Structural)]
pub struct UtcTime {
    pub secs: i64,
    pub nanos: u32,
}

/// A number of nanoseconds that a span of time can have: up to `i64::MAX` milliseconds either
/// way.
pub open spec fn is_span(ns: int) -> bool {
    -(i64::MAX * 1_000_000) <= ns <= i64::MAX * 1_000_000
}

/// A number of nanoseconds since 1970 that a point in time can have.
pub open spec fn is_instant(ns: int) -> bool {
    UTC_MIN_SECS * 1_000_000_000 <= ns < (UTC_MAX_SECS + 1) * 1_000_000_000
}

impl Delta {
    /// The span in nanoseconds.
    pub open spec fn ns(self) -> int {
        self.secs * 1_000_000_000 + self.nanos
    }

    /// The span is written in its normal form and not too long.
    pub open spec fn valid(self) -> bool {
        self.nanos < NANOS_PER_SEC && is_span(self.ns())
    }

    /// No time at all.
    pub fn zero() -> (r: Self)
        ensures
            r.valid(),
            r.ns() == 0,
    {
        Self { secs: 0, nanos: 0 }
    }

    /// The span as one number.
    pub fn total_nanos(&self) -> (r: i128)
        ensures
            r == self.ns(),
    {
        (self.secs as i128) * 1_000_000_000 + (self.nanos as i128)
    }
}

impl UtcTime {
    /// The time in nanoseconds since 1970.
    pub open spec fn ns(self) -> int {
        self.secs * 1_000_000_000 + self.nanos
    }

    /// The time is written in its normal form and in range.
    pub open spec fn valid(self) -> bool {
        self.nanos < NANOS_PER_SEC && is_instant(self.ns())
    }

    /// The first moment of 1970.
    pub fn epoch() -> (r: Self)
        ensures
            r.valid(),
            r.ns() == 0,
    {
        Self { secs: 0, nanos: 0 }
    }

    /// The time so much later, or earlier.
    pub fn plus(self, d: Delta) -> (r: Self)
        requires
            self.valid(),
            d.valid(),
            is_instant(self.ns() + d.ns()),
        ensures
            r.valid(),
            r.ns() == self.ns() + d.ns(),
    {
        let (secs, nanos) = utc_add(self.secs, self.nanos, d.secs, d.nanos);
        Self { secs, nanos }
    }

    /// How much later this is than `other`.
    pub fn since(self, other: Self) -> (r: Delta)
        requires
            self.valid(),
            other.valid(),
        ensures
            r.valid(),
            r.ns() == self.ns() - other.ns(),
    {
        let (secs, nanos) = utc_difference(self.secs, self.nanos, other.secs, other.nanos);
        if nanos < 0 {
            Delta { secs: secs - 1, nanos: (nanos + 1_000_000_000) as u32 }
        } else {
            Delta { secs, nanos: nanos as u32 }
        }
    }
}

/// A point in time plus a span.
///
/// Calls `DateTime::<Utc>::add`, which adds the span to the time as if there were no leap
/// seconds. It panics where the sum is out of range, and counts otherwise only on a time within
/// a leap second; both are left out.
#[verifier::external_body]
fn utc_add(secs: i64, nanos: u32, dsecs: i64, dnanos: u32) -> (r: (i64, u32))
    requires
        nanos < NANOS_PER_SEC,
        dnanos < NANOS_PER_SEC,
        is_instant(secs * 1_000_000_000 + nanos),
        is_span(dsecs * 1_000_000_000 + dnanos),
        is_instant((secs * 1_000_000_000 + nanos) + (dsecs * 1_000_000_000 + dnanos)),
    ensures
        r.1 < NANOS_PER_SEC,
        r.0 * 1_000_000_000 + r.1 == (secs * 1_000_000_000 + nanos) + (dsecs * 1_000_000_000
            + dnanos),
{
    let t = DateTime::<Utc>::from_timestamp(secs, nanos).expect("in range");
    let sum = t + TimeDelta::new(dsecs, dnanos).expect("in range");
    (sum.timestamp(), sum.timestamp_subsec_nanos())
}

/// One point in time minus another: whole seconds and what is left over, both towards zero.
///
/// Calls `DateTime::<Utc>::signed_duration_since`, which subtracts as if there were no leap
/// seconds. It counts otherwise only on a time within a leap second, which is left out.
#[verifier::external_body]
fn utc_difference(secs: i64, nanos: u32, osecs: i64, onanos: u32) -> (r: (i64, i32))
    requires
        nanos < NANOS_PER_SEC,
        onanos < NANOS_PER_SEC,
        is_instant(secs * 1_000_000_000 + nanos),
        is_instant(osecs * 1_000_000_000 + onanos),
    ensures
        -1_000_000_000 < r.1 < 1_000_000_000,
        r.0 * 1_000_000_000 + r.1 == (secs * 1_000_000_000 + nanos) - (osecs * 1_000_000_000
            + onanos),
{
    let t = DateTime::<Utc>::from_timestamp(secs, nanos).expect("in range");
    let o = DateTime::<Utc>::from_timestamp(osecs, onanos).expect("in range");
    let d = t.signed_duration_since(o);
    (d.num_seconds(), d.subsec_nanos())
}

/// A span between two readings of a stopwatch, unless it is too long.
///
/// Calls `TimeDelta::from_std`, which gives the same span and fails exactly on those that are
/// longer than `i64::MAX` milliseconds. A non-negative span has its seconds and the rest
/// unchanged.
#[verifier::external_body]
fn span_from_std(secs: u64, nanos: u32) -> (r: Option<(i64, u32)>)
    requires
        nanos < NANOS_PER_SEC,
    ensures
        r == (if is_span(secs * 1_000_000_000 + nanos) {
            Some((secs as i64, nanos))
        } else {
            None
        }),
{
    let d = TimeDelta::from_std(std::time::Duration::new(secs, nanos)).ok()?;
    Some((d.num_seconds(), d.subsec_nanos() as u32))
}

/// What one server said: how far it is ahead of this machine, and how long its reply took.
#[derive(Debug, Clone, Copy, PartialEq, Eq, Structural)]
pub struct NtpSample {
    pub offset: Delta,
    pub rtt: Delta,
}

impl NtpSample {
    pub open spec fn valid(self) -> bool {
        self.offset.valid() && self.rtt.valid()
    }

    /// What a reply says that was received at `received`. A server time that cannot be
    /// understood counts as 1970, a delay that cannot as none.
    pub fn measure(server: Option<UtcTime>, rtt: Option<Delta>, received: UtcTime) -> (r: Self)
        requires
            server matches Some(t) ==> t.valid(),
            rtt matches Some(d) ==> d.valid(),
            received.valid(),
        ensures
            r.valid(),
            r.offset.ns() == (match server {
                Some(t) => t.ns(),
                None => 0,
            }) - received.ns(),
            r.rtt.ns() == (match rtt {
                Some(d) => d.ns(),
                None => 0,
            }),
    {
        let server_utc = match server {
            Some(t) => t,
            None => UtcTime::epoch(),
        };
        let rtt = match rtt {
            Some(d) => d,
            None => Delta::zero(),
        };
        Self { offset: server_utc.since(received), rtt }
    }
}

/// The trusted samples, in their order.
pub open spec fn trusted(samples: Seq<NtpSample>) -> Seq<NtpSample> {
    samples.filter(|s: NtpSample| s.rtt.ns() <= MAX_ACCEPTABLE_RTT)
}

/// The delays of the samples.
pub open spec fn delays(samples: Seq<NtpSample>) -> Seq<i128> {
    samples.map_values(|s: NtpSample| s.rtt.ns() as i128)
}

/// The offsets of the samples.
pub open spec fn offsets(samples: Seq<NtpSample>) -> Seq<i128> {
    samples.map_values(|s: NtpSample| s.offset.ns() as i128)
}

/// `picked` are the samples that count: the trusted ones if there are two or more, and
/// otherwise the quickest three of all.
pub open spec fn picks(samples: Seq<NtpSample>, picked: Seq<NtpSample>) -> bool {
    if trusted(samples).len() >= 2 {
        picked == trusted(samples)
    } else {
        exists|order: Seq<usize>|
            {
                &&& #[trigger] crate::order::stable_order_of(delays(samples), order)
                &&& picked == Seq::new(
                    if samples.len() < FALLBACK_SAMPLES {
                        samples.len()
                    } else {
                        FALLBACK_SAMPLES as nat
                    },
                    |i: int| samples[order[i] as int],
                )
            }
    }
}

/// `m` is the offset in the middle of those of `picked`, the later one where there are two.
pub open spec fn is_median(picked: Seq<NtpSample>, m: Delta) -> bool {
    exists|order: Seq<usize>|
        {
            &&& #[trigger] crate::order::stable_order_of(offsets(picked), order)
            &&& m == picked[order[picked.len() as int / 2] as int].offset
        }
}

/// `m` is what the samples say about how far this machine is behind: nothing if fewer than two
/// of them count.
pub open spec fn agrees_on(samples: Seq<NtpSample>, m: Option<Delta>) -> bool {
    exists|picked: Seq<NtpSample>|
        {
            &&& #[trigger] picks(samples, picked)
            &&& match m {
                Some(d) => picked.len() >= 2 && is_median(picked, d),
                None => picked.len() < 2,
            }
        }
}

/// Samples agree on one thing only.
pub proof fn law_agreement_is_unique(samples: Seq<NtpSample>, a: Option<Delta>, b: Option<Delta>)
    requires
        agrees_on(samples, a),
        agrees_on(samples, b),
    ensures
        a == b,
{
    let p = choose|p: Seq<NtpSample>|
        {
            &&& #[trigger] picks(samples, p)
            &&& match a {
                Some(d) => p.len() >= 2 && is_median(p, d),
                None => p.len() < 2,
            }
        };
    let q = choose|q: Seq<NtpSample>|
        {
            &&& #[trigger] picks(samples, q)
            &&& match b {
                Some(d) => q.len() >= 2 && is_median(q, d),
                None => q.len() < 2,
            }
        };
    if trusted(samples).len() < 2 {
        let n = if samples.len() < FALLBACK_SAMPLES {
            samples.len()
        } else {
            FALLBACK_SAMPLES as nat
        };
        let op = choose|o: Seq<usize>| #[trigger]
            crate::order::stable_order_of(delays(samples), o) && p == Seq::new(
                n,
                |i: int| samples[o[i] as int],
            );
        let oq = choose|o: Seq<usize>| #[trigger]
            crate::order::stable_order_of(delays(samples), o) && q == Seq::new(
                n,
                |i: int| samples[o[i] as int],
            );
        crate::order::law_stable_order_is_unique(delays(samples), op, oq);
    }
    assert(p == q);
    if a is Some {
        let op = choose|o: Seq<usize>| #[trigger]
            crate::order::stable_order_of(offsets(p), o) && a->0 == p[o[p.len() as int / 2] as int].offset;
        let oq = choose|o: Seq<usize>| #[trigger]
            crate::order::stable_order_of(offsets(q), o) && b->0 == q[o[q.len() as int / 2] as int].offset;
        crate::order::law_stable_order_is_unique(offsets(p), op, oq);
    }
}

/// The samples that count.
pub fn pick_samples(samples: &Vec<NtpSample>) -> (picked: Vec<NtpSample>)
    ensures
        picks(samples@, picked@),
{
    let mut valid_samples: Vec<NtpSample> = Vec::new();
    let mut keys: Vec<i128> = Vec::new();
    let mut i: usize = 0;
    let ghost quick = |s: NtpSample| s.rtt.ns() <= MAX_ACCEPTABLE_RTT;
    while i < samples.len()
        invariant
            i <= samples.len(),
            quick == (|s: NtpSample| s.rtt.ns() <= MAX_ACCEPTABLE_RTT),
            valid_samples@ == samples@.take(i as int).filter(quick),
            keys@ == delays(samples@.take(i as int)),
        decreases samples.len() - i,
    {
        let rtt: i128 = samples[i].rtt.total_nanos();
        proof {
            let shorter = samples@.take(i as int);
            let longer = samples@.take(i + 1);
            assert(longer == shorter.push(samples@[i as int]));
            assert(longer.drop_last() == shorter);
            reveal(Seq::filter);
            assert(delays(longer) =~= delays(shorter).push(rtt));
        }
        keys.push(rtt);
        if rtt <= MAX_ACCEPTABLE_RTT {
            valid_samples.push(samples[i]);
        }
        i = i + 1;
    }
    assert(samples@.take(i as int) =~= samples@);
    if valid_samples.len() < 2 {
        let order = stable_order(&keys);
        let mut quickest: Vec<NtpSample> = Vec::new();
        let mut j: usize = 0;
        while j < order.len() && j < FALLBACK_SAMPLES
            invariant
                j <= order.len(),
                j <= FALLBACK_SAMPLES,
                crate::order::stable_order_of(delays(samples@), order@),
                quickest.len() == j,
                forall|k: int|
                    0 <= k < j ==> #[trigger] quickest@[k] == samples@[order@[k] as int],
            decreases order.len() - j,
        {
            quickest.push(samples[order[j]]);
            j = j + 1;
        }
        assert(quickest@ =~= Seq::new(
            if samples.len() < FALLBACK_SAMPLES {
                samples@.len()
            } else {
                FALLBACK_SAMPLES as nat
            },
            |k: int| samples@[order@[k] as int],
        ));
        return quickest;
    }
    valid_samples
}

/// The offset in the middle.
pub fn median_offset(picked: &Vec<NtpSample>) -> (m: Delta)
    requires
        picked.len() > 0,
    ensures
        is_median(picked@, m),
{
    let mut keys: Vec<i128> = Vec::new();
    let mut i: usize = 0;
    while i < picked.len()
        invariant
            i <= picked.len(),
            keys@ == offsets(picked@.take(i as int)),
        decreases picked.len() - i,
    {
        let offset: i128 = picked[i].offset.total_nanos();
        proof {
            let shorter = picked@.take(i as int);
            assert(picked@.take(i + 1) == shorter.push(picked@[i as int]));
            assert(offsets(picked@.take(i + 1)) =~= offsets(shorter).push(offset));
        }
        keys.push(offset);
        i = i + 1;
    }
    assert(picked@.take(i as int) =~= picked@);
    let order = stable_order(&keys);
    let median_index: usize = picked.len() / 2;
    picked[order[median_index]].offset
}

/// The samples among the replies, in their order.
pub open spec fn samples_of<E>(replies: Seq<Result<NtpSample, E>>) -> Seq<NtpSample>
    decreases replies.len(),
{
    if replies.len() == 0 {
        Seq::empty()
    } else {
        match replies.last() {
            Ok(s) => samples_of(replies.drop_last()).push(s),
            Err(_) => samples_of(replies.drop_last()),
        }
    }
}

fn collect_samples<E>(replies: &Vec<Result<NtpSample, E>>) -> (r: Vec<NtpSample>)
    ensures
        r@ == samples_of(replies@),
{
    let mut samples: Vec<NtpSample> = Vec::new();
    let mut i: usize = 0;
    while i < replies.len()
        invariant
            i <= replies.len(),
            samples@ == samples_of(replies@.take(i as int)),
        decreases replies.len() - i,
    {
        proof {
            assert(replies@.take(i + 1).drop_last() =~= replies@.take(i as int));
            assert(replies@.take(i + 1).last() == replies@[i as int]);
        }
        if let Ok(sample) = &replies[i] {
            samples.push(*sample);
        }
        i = i + 1;
    }
    assert(replies@.take(i as int) =~= replies@);
    samples
}

fn agreed_offset(samples: &Vec<NtpSample>) -> (r: Option<Delta>)
    ensures
        agrees_on(samples@, r),
{
    let picked = pick_samples(samples);
    if picked.len() < 2 {
        return None;
    }
    Some(median_offset(&picked))
}

/// How far this machine is behind, by the replies of the servers: an error only if no server
/// gave a sample and there was an error, and then the first.
pub fn ntp_offset<E>(replies: Vec<Result<NtpSample, E>>) -> (r: Result<Option<Delta>, E>)
    ensures
        match r {
            Ok(m) => {
                &&& samples_of(replies@).len() > 0 || replies@.len() == 0
                &&& agrees_on(samples_of(replies@), m)
            },
            Err(e) => {
                &&& samples_of(replies@).len() == 0
                &&& replies@.len() > 0
                &&& replies@[0] == Err::<NtpSample, E>(e)
            },
        },
{
    let samples = collect_samples(&replies);
    if samples.len() == 0 && replies.len() > 0 {
        proof {
            lemma_no_samples(replies@);
        }
        let mut replies = replies;
        if let Err(e) = replies.remove(0) {
            return Err(e);
        }
    }
    Ok(agreed_offset(&samples))
}

/// Whether the time by the servers can be written down, where `now` is the time by this machine.
pub fn ntp_time_fits<E>(replies: &Vec<Result<NtpSample, E>>, now: UtcTime) -> (r: bool)
    ensures
        r <==> forall|d: Delta| #[trigger]
            agrees_on(samples_of(replies@), Some(d)) ==> d.valid() && is_instant(now.ns() + d.ns()),
{
    let samples = collect_samples(replies);
    let offset = agreed_offset(&samples);
    proof {
        assert forall|d: Delta| #[trigger] agrees_on(samples@, Some(d)) implies offset == Some(
            d,
        ) by {
            law_agreement_is_unique(samples@, Some(d), offset);
        }
    }
    match offset {
        Some(d) => {
            let ns: i128 = d.total_nanos();
            let sum: i128 = now.secs as i128 * 1_000_000_000 + now.nanos as i128 + ns;
            let longest: i128 = i64::MAX as i128 * 1_000_000;
            d.nanos < NANOS_PER_SEC && -longest <= ns && ns <= longest && UTC_MIN_SECS as i128
                * 1_000_000_000 <= sum && sum < (UTC_MAX_SECS as i128 + 1) * 1_000_000_000
        },
        None => true,
    }
}

proof fn lemma_no_samples<E>(replies: Seq<Result<NtpSample, E>>)
    requires
        samples_of(replies).len() == 0,
    ensures
        forall|i: int| 0 <= i < replies.len() ==> (#[trigger] replies[i]) is Err,
    decreases replies.len(),
{
    if replies.len() > 0 {
        lemma_no_samples(replies.drop_last());
        assert forall|i: int| 0 <= i < replies.len() implies (#[trigger] replies[i]) is Err by {
            if i < replies.len() - 1 {
                assert(replies.drop_last()[i] is Err);
            }
        }
    }
}

/// The time by the servers, where `now` is the time by this machine. It is an error only if no
/// server gave a sample, and nothing if too few did.
pub fn get_ntp_time<E>(replies: Vec<Result<NtpSample, E>>, now: UtcTime) -> (r: Result<
    Option<UtcTime>,
    E,
>)
    requires
        now.valid(),
        forall|d: Delta| #[trigger]
            agrees_on(samples_of(replies@), Some(d)) ==> d.valid() && is_instant(now.ns() + d.ns()),
    ensures
        match r {
            Ok(Some(t)) => {
                &&& t.valid()
                &&& exists|d: Delta| #[trigger]
                    agrees_on(samples_of(replies@), Some(d)) && t.ns() == now.ns() + d.ns()
            },
            Ok(None) => {
                &&& samples_of(replies@).len() > 0 || replies@.len() == 0
                &&& agrees_on(samples_of(replies@), None)
            },
            Err(e) => {
                &&& samples_of(replies@).len() == 0
                &&& replies@.len() > 0
                &&& replies@[0] == Err::<NtpSample, E>(e)
            },
        },
{
    match ntp_offset(replies) {
        Ok(Some(median)) => Ok(Some(now.plus(median))),
        Ok(None) => Ok(None),
        Err(e) => Err(e),
    }
}

/// The samples agree on an offset if and only if there are two or more of them; one delay alone
/// never keeps them from it.
pub proof fn law_two_samples_suffice(samples: Seq<NtpSample>, m: Option<Delta>)
    requires
        agrees_on(samples, m),
    ensures
        m is Some <==> samples.len() >= 2,
{
    let picked = choose|p: Seq<NtpSample>|
        {
            &&& #[trigger] picks(samples, p)
            &&& match m {
                Some(d) => p.len() >= 2 && is_median(p, d),
                None => p.len() < 2,
            }
        };
    samples.lemma_filter_len(|s: NtpSample| s.rtt.ns() <= MAX_ACCEPTABLE_RTT);
}

/// The offset in the middle is one of those that count. Where it lies below a bound, so do more
/// than half of them, and where it lies above one, so do at least half: servers that are off on
/// one side do not move it past the others while they are in the minority.
pub proof fn law_median_resists_outliers(picked: Seq<NtpSample>, m: Delta, bound: int)
    requires
        picked.len() > 0,
        is_median(picked, m),
    ensures
        exists|i: int| 0 <= i < picked.len() && (#[trigger] picked[i]).offset == m,
        m.ns() < bound ==> exists|few: Seq<usize>|
            {
                &&& few.len() == picked.len() / 2 + 1
                &&& #[trigger] few.no_duplicates()
                &&& forall|k: int|
                    0 <= k < few.len() ==> (#[trigger] few[k]) < picked.len()
                        && picked[few[k] as int].offset.ns() < bound
            },
        m.ns() > bound ==> exists|few: Seq<usize>|
            {
                &&& few.len() == picked.len() - picked.len() / 2
                &&& #[trigger] few.no_duplicates()
                &&& forall|k: int|
                    0 <= k < few.len() ==> (#[trigger] few[k]) < picked.len()
                        && picked[few[k] as int].offset.ns() > bound
            },
{
    let keys = offsets(picked);
    let mid = picked.len() as int / 2;
    let order = choose|o: Seq<usize>| #[trigger]
        crate::order::stable_order_of(keys, o) && m == picked[o[mid] as int].offset;
    assert(picked[order[mid] as int].offset == m);
    lemma_offsets_fit(picked);
    assert forall|i: int| 0 <= i < order.len() implies {
        &&& i <= mid ==> picked[(#[trigger] order[i]) as int].offset.ns() <= m.ns()
        &&& i >= mid ==> picked[order[i] as int].offset.ns() >= m.ns()
    } by {
        if i < mid {
            assert(crate::order::before(keys, order[i] as int, order[mid] as int));
        } else if i > mid {
            assert(crate::order::before(keys, order[mid] as int, order[i] as int));
        }
        assert(keys[order[i] as int] == picked[order[i] as int].offset.ns());
        assert(keys[order[mid] as int] == m.ns());
    }
    lemma_order_distinct(keys, order);
    if m.ns() < bound {
        let few = order.take(mid + 1);
        assert(few.no_duplicates());
        assert forall|k: int| 0 <= k < few.len() implies (#[trigger] few[k]) < picked.len()
            && picked[few[k] as int].offset.ns() < bound by {
            assert(few[k] == order[k]);
        }
    }
    if m.ns() > bound {
        let few = order.skip(mid);
        assert(few.no_duplicates());
        assert forall|k: int| 0 <= k < few.len() implies (#[trigger] few[k]) < picked.len()
            && picked[few[k] as int].offset.ns() > bound by {
            assert(few[k] == order[mid + k]);
        }
    }
}

/// Where two replies or more took at most 150 milliseconds, the offset that is agreed on is
/// that of one of them, and all of them count: more than half of them are not ahead of it, and
/// at least half are not behind it. So no minority of servers that are off moves it out of the
/// range of the others, whichever reply first.
pub proof fn law_every_quick_reply_counts(samples: Seq<NtpSample>, m: Delta)
    requires
        agrees_on(samples, Some(m)),
        samples.filter(|s: NtpSample| s.rtt.ns() <= 150_000_000).len() >= 2,
    ensures
        exists|i: int|
            0 <= i < samples.len() && (#[trigger] samples[i]).rtt.ns() <= 150_000_000
                && samples[i].offset == m,
        2 * samples.filter(
            |s: NtpSample| s.rtt.ns() <= 150_000_000 && s.offset.ns() <= m.ns(),
        ).len() > samples.filter(|s: NtpSample| s.rtt.ns() <= 150_000_000).len(),
        2 * samples.filter(
            |s: NtpSample| s.rtt.ns() <= 150_000_000 && s.offset.ns() >= m.ns(),
        ).len() >= samples.filter(|s: NtpSample| s.rtt.ns() <= 150_000_000).len(),
{
    let quick = |s: NtpSample| s.rtt.ns() <= 150_000_000;
    let low = |s: NtpSample| s.offset.ns() <= m.ns();
    let high = |s: NtpSample| s.offset.ns() >= m.ns();
    let quick_low = |s: NtpSample| s.rtt.ns() <= 150_000_000 && s.offset.ns() <= m.ns();
    let quick_high = |s: NtpSample| s.rtt.ns() <= 150_000_000 && s.offset.ns() >= m.ns();
    let picked = trusted(samples);
    assert(picked == samples.filter(quick)) by {
        lemma_same_filter(samples, |s: NtpSample| s.rtt.ns() <= MAX_ACCEPTABLE_RTT, quick);
    }
    assert(picks(samples, picked) && is_median(picked, m));
    law_median_resists_outliers(picked, m, m.ns() + 1);
    law_median_resists_outliers(picked, m, m.ns() - 1);
    let i = choose|i: int| 0 <= i < picked.len() && (#[trigger] picked[i]).offset == m;
    samples.lemma_filter_pred(quick, i);
    samples.lemma_filter_contains_rev(quick, picked[i]);
    let below = choose|few: Seq<usize>|
        {
            &&& few.len() == picked.len() / 2 + 1
            &&& #[trigger] few.no_duplicates()
            &&& forall|k: int|
                0 <= k < few.len() ==> (#[trigger] few[k]) < picked.len()
                    && picked[few[k] as int].offset.ns() < m.ns() + 1
        };
    lemma_count_at_least(picked, low, below);
    let above = choose|few: Seq<usize>|
        {
            &&& few.len() == picked.len() - picked.len() / 2
            &&& #[trigger] few.no_duplicates()
            &&& forall|k: int|
                0 <= k < few.len() ==> (#[trigger] few[k]) < picked.len()
                    && picked[few[k] as int].offset.ns() > m.ns() - 1
        };
    lemma_count_at_least(picked, high, above);
    lemma_filter_twice(samples, quick, low, quick_low);
    lemma_filter_twice(samples, quick, high, quick_high);
}

/// The order in which the quick replies come makes no difference to the offset.
pub proof fn law_order_of_replies_is_nothing(
    samples: Seq<NtpSample>,
    shuffled: Seq<NtpSample>,
    m: Delta,
    n: Delta,
)
    requires
        samples.to_multiset() == shuffled.to_multiset(),
        samples.filter(|s: NtpSample| s.rtt.ns() <= 150_000_000).len() >= 2,
        agrees_on(samples, Some(m)),
        agrees_on(shuffled, Some(n)),
    ensures
        m.ns() == n.ns(),
{
    let quick = |s: NtpSample| s.rtt.ns() <= 150_000_000;
    let m_low = |s: NtpSample| s.rtt.ns() <= 150_000_000 && s.offset.ns() <= m.ns();
    let m_high = |s: NtpSample| s.rtt.ns() <= 150_000_000 && s.offset.ns() >= m.ns();
    let n_low = |s: NtpSample| s.rtt.ns() <= 150_000_000 && s.offset.ns() <= n.ns();
    let n_high = |s: NtpSample| s.rtt.ns() <= 150_000_000 && s.offset.ns() >= n.ns();
    lemma_shuffled_filter(samples, shuffled, quick);
    lemma_shuffled_filter(samples, shuffled, n_low);
    lemma_shuffled_filter(samples, shuffled, n_high);
    law_every_quick_reply_counts(samples, m);
    law_every_quick_reply_counts(shuffled, n);
    if m.ns() < n.ns() {
        lemma_disjoint_filters(samples, quick, m_low, n_high);
    }
    if n.ns() < m.ns() {
        lemma_disjoint_filters(samples, quick, n_low, m_high);
    }
}

/// Of these samples, no other was quicker than any of the three, nor as quick and earlier.
pub open spec fn are_quickest(samples: Seq<NtpSample>, a: int, b: int, c: int) -> bool {
    &&& 0 <= a < samples.len() && 0 <= b < samples.len() && 0 <= c < samples.len()
    &&& a != b && b != c && a != c
    &&& forall|k: int, x: int|
        0 <= k < samples.len() && k != a && k != b && k != c && (x == a || x == b || x == c) ==> (
        #[trigger] samples[x]).rtt.ns() < (#[trigger] samples[k]).rtt.ns() || (
        samples[x].rtt.ns() == samples[k].rtt.ns() && x < k)
}

/// Where fewer than two replies took at most 150 milliseconds, the three quickest of all decide,
/// with the offset in the middle of theirs, and where there are only two, the larger one.
pub proof fn law_quickest_decide_otherwise(samples: Seq<NtpSample>, m: Delta)
    requires
        samples.len() <= usize::MAX,
        agrees_on(samples, Some(m)),
        samples.filter(|s: NtpSample| s.rtt.ns() <= 150_000_000).len() < 2,
    ensures
        samples.len() >= 2,
        samples.len() == 2 ==> exists|i: int, j: int|
            0 <= i < 2 && 0 <= j < 2 && i != j && (#[trigger] samples[i]).offset == m && (
            #[trigger] samples[j]).offset.ns() <= m.ns(),
        samples.len() >= 3 ==> exists|a: int, b: int, c: int|
            {
                &&& #[trigger] are_quickest(samples, a, b, c)
                &&& samples[a].offset.ns() <= samples[b].offset.ns() <= samples[c].offset.ns()
                &&& samples[b].offset == m
            },
{
    let quick = |s: NtpSample| s.rtt.ns() <= 150_000_000;
    lemma_same_filter(samples, |s: NtpSample| s.rtt.ns() <= MAX_ACCEPTABLE_RTT, quick);
    law_two_samples_suffice(samples, Some(m));
    let picked = choose|p: Seq<NtpSample>|
        {
            &&& #[trigger] picks(samples, p)
            &&& p.len() >= 2 && is_median(p, m)
        };
    let size = if samples.len() < FALLBACK_SAMPLES {
        samples.len()
    } else {
        FALLBACK_SAMPLES as nat
    };
    let order = choose|o: Seq<usize>| #[trigger]
        crate::order::stable_order_of(delays(samples), o) && picked == Seq::new(
            size,
            |i: int| samples[o[i] as int],
        );
    let keys = offsets(picked);
    let mid = choose|o: Seq<usize>| #[trigger]
        crate::order::stable_order_of(keys, o) && m == picked[o[picked.len() as int / 2] as int].offset;
    lemma_offsets_fit(picked);
    lemma_delays_fit(samples);
    lemma_order_distinct(delays(samples), order);
    lemma_order_distinct(keys, mid);
    assert(crate::order::before(keys, mid[0] as int, mid[1] as int));
    if samples.len() == 2 {
        let i = order[mid[1] as int] as int;
        let j = order[mid[0] as int] as int;
        assert(samples[i].offset == m && samples[j].offset.ns() <= m.ns());
    } else {
        assert(crate::order::before(keys, mid[1] as int, mid[2] as int));
        let a = order[mid[0] as int] as int;
        let b = order[mid[1] as int] as int;
        let c = order[mid[2] as int] as int;
        assert forall|k: int, x: int|
            0 <= k < samples.len() && k != a && k != b && k != c && (x == a || x == b || x == c) implies (
        #[trigger] samples[x]).rtt.ns() < (#[trigger] samples[k]).rtt.ns() || (
        samples[x].rtt.ns() == samples[k].rtt.ns() && x < k) by {
            assert(order.contains(k as usize));
            let at = choose|at: int| 0 <= at < order.len() && order[at] == k as usize;
            assert(at >= 3) by {
                if at < 3 {
                    assert(mid.contains(at as usize));
                    let p = choose|p: int| 0 <= p < mid.len() && mid[p] == at as usize;
                    assert(p == 0 || p == 1 || p == 2);
                    assert(order[mid[p] as int] == k as usize);
                }
            }
            let place = if x == a {
                mid[0] as int
            } else if x == b {
                mid[1] as int
            } else {
                mid[2] as int
            };
            assert(crate::order::before(delays(samples), order[place] as int, order[at] as int));
        }
        assert(are_quickest(samples, a, b, c));
    }
}

/// The samples are exactly those replies that are no errors, in their order.
pub proof fn law_only_errors_are_left_out<E>(replies: Seq<Result<NtpSample, E>>)
    ensures
        samples_of(replies) == replies.filter(|r: Result<NtpSample, E>| r is Ok).map_values(
            |r: Result<NtpSample, E>| r->Ok_0,
        ),
    decreases replies.len(),
{
    reveal(Seq::filter);
    let ok = |r: Result<NtpSample, E>| r is Ok;
    let value = |r: Result<NtpSample, E>| r->Ok_0;
    if replies.len() > 0 {
        law_only_errors_are_left_out(replies.drop_last());
        let rest = replies.drop_last().filter(ok);
        if replies.last() is Ok {
            assert(rest.push(replies.last()).map_values(value) =~= rest.map_values(value).push(
                replies.last()->Ok_0,
            ));
        }
    }
    assert(samples_of(replies) =~= replies.filter(ok).map_values(value));
}

proof fn lemma_same_filter(
    samples: Seq<NtpSample>,
    f: spec_fn(NtpSample) -> bool,
    g: spec_fn(NtpSample) -> bool,
)
    requires
        forall|s: NtpSample| #[trigger] f(s) == g(s),
    ensures
        samples.filter(f) == samples.filter(g),
    decreases samples.len(),
{
    reveal(Seq::filter);
    if samples.len() > 0 {
        lemma_same_filter(samples.drop_last(), f, g);
        assert(f(samples.last()) == g(samples.last()));
    }
}

proof fn lemma_filter_twice(
    samples: Seq<NtpSample>,
    f: spec_fn(NtpSample) -> bool,
    g: spec_fn(NtpSample) -> bool,
    both: spec_fn(NtpSample) -> bool,
)
    requires
        forall|s: NtpSample| #[trigger] both(s) == (f(s) && g(s)),
    ensures
        samples.filter(f).filter(g) == samples.filter(both),
    decreases samples.len(),
{
    reveal(Seq::filter);
    if samples.len() > 0 {
        let rest = samples.drop_last();
        lemma_filter_twice(rest, f, g, both);
        assert(both(samples.last()) == (f(samples.last()) && g(samples.last())));
        if f(samples.last()) {
            assert(rest.filter(f).push(samples.last()).drop_last() =~= rest.filter(f));
        }
    }
}

/// As many elements as are pointed at pass the test, if all of those do.
proof fn lemma_count_at_least(
    picked: Seq<NtpSample>,
    f: spec_fn(NtpSample) -> bool,
    few: Seq<usize>,
)
    requires
        few.no_duplicates(),
        forall|k: int|
            0 <= k < few.len() ==> (#[trigger] few[k]) < picked.len() && f(picked[few[k] as int]),
    ensures
        picked.filter(f).len() >= few.len(),
    decreases picked.len(),
{
    reveal(Seq::filter);
    if picked.len() > 0 {
        let rest = picked.drop_last();
        let last = (picked.len() - 1) as int;
        if exists|k: int| 0 <= k < few.len() && (#[trigger] few[k]) == last {
            let at = choose|k: int| 0 <= k < few.len() && (#[trigger] few[k]) == last;
            let fewer = few.remove(at);
            assert forall|k: int| 0 <= k < fewer.len() implies (#[trigger] fewer[k]) < rest.len()
                && f(rest[fewer[k] as int]) by {
                let x = if k < at { k } else { k + 1 };
                assert(fewer[k] == few[x]);
            }
            assert(fewer.no_duplicates());
            lemma_count_at_least(rest, f, fewer);
            assert(f(picked[few[at] as int]));
        } else {
            assert forall|k: int| 0 <= k < few.len() implies (#[trigger] few[k]) < rest.len() && f(
                rest[few[k] as int],
            ) by {
                assert(few[k] != last);
            }
            lemma_count_at_least(rest, f, few);
        }
    } else if few.len() > 0 {
        assert(few[0] < picked.len());
    }
}

proof fn lemma_disjoint_filters(
    samples: Seq<NtpSample>,
    all: spec_fn(NtpSample) -> bool,
    f: spec_fn(NtpSample) -> bool,
    g: spec_fn(NtpSample) -> bool,
)
    requires
        forall|s: NtpSample| #![trigger f(s)] #![trigger g(s)] !(f(s) && g(s)),
        forall|s: NtpSample| #![trigger f(s)] #![trigger g(s)] f(s) || g(s) ==> all(s),
    ensures
        samples.filter(f).len() + samples.filter(g).len() <= samples.filter(all).len(),
    decreases samples.len(),
{
    reveal(Seq::filter);
    if samples.len() > 0 {
        lemma_disjoint_filters(samples.drop_last(), all, f, g);
        assert(!(f(samples.last()) && g(samples.last())));
    }
}

proof fn lemma_shuffled_filter(
    samples: Seq<NtpSample>,
    shuffled: Seq<NtpSample>,
    f: spec_fn(NtpSample) -> bool,
)
    requires
        samples.to_multiset() == shuffled.to_multiset(),
    ensures
        samples.filter(f).len() == shuffled.filter(f).len(),
    decreases samples.len(),
{
    samples.to_multiset_ensures();
    shuffled.to_multiset_ensures();
    assert(samples.len() == samples.to_multiset().len() == shuffled.len());
    if samples.len() > 0 {
        let last = samples.last();
        let rest = samples.drop_last();
        assert(samples.contains(last));
        assert(samples.to_multiset().count(last) > 0);
        assert(shuffled.contains(last));
        let at = choose|at: int| 0 <= at < shuffled.len() && shuffled[at] == last;
        let fewer = shuffled.remove(at);
        assert(rest =~= samples.remove(samples.len() - 1));
        assert(rest.to_multiset() =~= fewer.to_multiset());
        lemma_shuffled_filter(rest, fewer, f);
        let left = shuffled.take(at);
        let right = shuffled.skip(at + 1);
        assert(shuffled =~= left + seq![last] + right);
        assert(fewer =~= left + right);
        Seq::filter_distributes_over_add(left + seq![last], right, f);
        Seq::filter_distributes_over_add(left, seq![last], f);
        Seq::filter_distributes_over_add(left, right, f);
        assert(samples =~= rest + seq![last]);
        Seq::filter_distributes_over_add(rest, seq![last], f);
    } else {
        assert(samples =~= shuffled);
    }
}

proof fn lemma_delays_fit(samples: Seq<NtpSample>)
    ensures
        forall|i: int|
            0 <= i < samples.len() ==> #[trigger] delays(samples)[i] == samples[i].rtt.ns(),
{
    assert forall|i: int| 0 <= i < samples.len() implies #[trigger] delays(samples)[i]
        == samples[i].rtt.ns() by {
        let d = samples[i].rtt;
        assert(i64::MIN * 1_000_000_000 <= d.ns() <= i64::MAX * 1_000_000_000 + u32::MAX);
    }
}

proof fn lemma_offsets_fit(picked: Seq<NtpSample>)
    ensures
        forall|i: int|
            0 <= i < picked.len() ==> #[trigger] offsets(picked)[i] == picked[i].offset.ns(),
{
    assert forall|i: int| 0 <= i < picked.len() implies #[trigger] offsets(picked)[i]
        == picked[i].offset.ns() by {
        let d = picked[i].offset;
        assert(i64::MIN * 1_000_000_000 <= d.ns() <= i64::MAX * 1_000_000_000 + u32::MAX);
    }
}

proof fn lemma_order_distinct(keys: Seq<i128>, order: Seq<usize>)
    requires
        crate::order::stable_order_of(keys, order),
    ensures
        order.no_duplicates(),
{
    assert forall|i: int, j: int| 0 <= i < order.len() && 0 <= j < order.len() && i != j implies
        order[i] != order[j] by {
        if i < j {
            assert(crate::order::before(keys, order[i] as int, order[j] as int));
        } else {
            assert(crate::order::before(keys, order[j] as int, order[i] as int));
        }
    }
}

/// A point in time by the servers, and the reading of the stopwatch at that moment, in
/// nanoseconds.
#[derive(Debug, Clone, Copy, PartialEq, Eq, Structural)]
pub struct ClockAnchor {
    pub instant: u128,
    pub utc_time: UtcTime,
}

/// How many nanoseconds the stopwatch can count.
pub const INSTANT_RANGE: u128 = 18_446_744_073_709_551_616_000_000_000;

/// A clock that follows the servers.
#[derive(Debug, Clone, Copy)]
pub struct AccurateClock {
    anchor: Option<ClockAnchor>,
}

impl AccurateClock {
    /// What the clock was last set to.
    pub closed spec fn view(&self) -> Option<ClockAnchor> {
        self.anchor
    }

    /// The clock was set to a time in range.
    pub open spec fn wf(self) -> bool {
        self@ matches Some(a) ==> a.utc_time.valid()
    }

    /// The time that the clock shows, in nanoseconds since 1970: that of the machine until it
    /// is set, and then the time that it was set to plus what the stopwatch says has passed.
    /// A stopwatch that runs backwards, or for longer than a span of time can last, adds
    /// nothing.
    pub open spec fn shows(self, instant: u128, system: UtcTime) -> int {
        match self@ {
            Some(a) => a.utc_time.ns() + if instant >= a.instant && is_span(instant - a.instant) {
                instant - a.instant
            } else {
                0
            },
            None => system.ns(),
        }
    }

    /// A clock that is not set yet.
    pub fn new() -> (r: Self)
        ensures
            r@ is None,
            r.wf(),
    {
        Self { anchor: None }
    }

    /// The time, given the readings of the stopwatch and of the machine's own clock.
    pub fn now(&self, instant: u128, system: UtcTime) -> (r: UtcTime)
        requires
            self.wf(),
            system.valid(),
            instant < INSTANT_RANGE,
            is_instant(self.shows(instant, system)),
        ensures
            r.valid(),
            r.ns() == self.shows(instant, system),
    {
        if let Some(anchor) = self.anchor {
            let elapsed: u128 = if instant >= anchor.instant {
                instant - anchor.instant
            } else {
                0
            };
            let secs: u64 = (elapsed / 1_000_000_000) as u64;
            let nanos: u32 = (elapsed % 1_000_000_000) as u32;
            assert(secs * 1_000_000_000 + nanos == elapsed);
            let chrono_elapsed = match span_from_std(secs, nanos) {
                Some((secs, nanos)) => Delta { secs, nanos },
                None => Delta::zero(),
            };
            assert(chrono_elapsed.ns() == if is_span(elapsed as int) {
                elapsed as int
            } else {
                0
            });
            anchor.utc_time.plus(chrono_elapsed)
        } else {
            system
        }
    }

    /// Whether the time that the clock shows can be written down.
    pub fn in_range(&self, instant: u128, system: UtcTime) -> (r: bool)
        requires
            self.wf(),
            system.valid(),
            instant < INSTANT_RANGE,
        ensures
            r == is_instant(self.shows(instant, system)),
    {
        if let Some(anchor) = self.anchor {
            let elapsed: u128 = if instant >= anchor.instant {
                instant - anchor.instant
            } else {
                0
            };
            let longest: u128 = i64::MAX as u128 * 1_000_000;
            let passed: i128 = if elapsed <= longest {
                elapsed as i128
            } else {
                0
            };
            let shown: i128 = anchor.utc_time.secs as i128 * 1_000_000_000
                + anchor.utc_time.nanos as i128 + passed;
            UTC_MIN_SECS as i128 * 1_000_000_000 <= shown && shown < (UTC_MAX_SECS as i128 + 1)
                * 1_000_000_000
        } else {
            true
        }
    }

    /// Whether the clock is set.
    pub fn is_synced(&self) -> (r: bool)
        ensures
            r == (self@ is Some),
    {
        self.anchor.is_some()
    }

    /// Takes the outcome of asking the servers, with the reading of the stopwatch at that
    /// moment. How long to wait until they are asked again, in seconds.
    pub fn sync<E>(&mut self, instant: u128, outcome: Result<Option<UtcTime>, E>) -> (delay: u64)
        requires
            old(self).wf(),
            outcome matches Ok(Some(t)) ==> t.valid(),
        ensures
            final(self).wf(),
            match outcome {
                Ok(Some(t)) => {
                    &&& final(self)@ == Some(ClockAnchor { instant, utc_time: t })
                    &&& delay == RESYNC_SECS
                },
                Ok(None) => *final(self) == *old(self) && delay == 0,
                Err(_) => *final(self) == *old(self) && delay == RETRY_SECS,
            },
            outcome matches Ok(Some(t)) ==> forall|later: u128, system: UtcTime|
                later >= instant && later - instant <= i64::MAX * 1_000_000 ==> (
                #[trigger] final(self).shows(later, system)) == t.ns() + (later - instant),
            !(outcome matches Ok(Some(_))) ==> forall|later: u128, system: UtcTime| #[trigger]
                final(self).shows(later, system) == old(self).shows(later, system),
    {
        match outcome {
            Ok(Some(ntp_utc)) => {
                self.anchor = Some(ClockAnchor { instant, utc_time: ntp_utc });
                RESYNC_SECS
            },
            Ok(None) => 0,
            Err(_) => RETRY_SECS,
        }
    }
}

/// A clock that has just been set shows what it was set to, and from then on runs exactly as
/// fast as the stopwatch, whatever the machine's own clock says.
pub proof fn law_clock_follows_the_stopwatch(
    clock: AccurateClock,
    early: u128,
    late: u128,
    system: UtcTime,
    other_system: UtcTime,
)
    requires
        clock@ is Some,
        clock@->0.instant <= early <= late,
        is_span(late - clock@->0.instant),
    ensures
        clock.shows(clock@->0.instant, system) == clock@->0.utc_time.ns(),
        clock.shows(late, other_system) - clock.shows(early, system) == late - early,
{
}

/// A clock that is not set shows what the machine's own clock says, and one that is set never
/// shows a time before the one that it was set to.
pub proof fn law_clock_never_goes_behind_its_anchor(
    clock: AccurateClock,
    instant: u128,
    system: UtcTime,
)
    ensures
        clock@ is None ==> clock.shows(instant, system) == system.secs * 1_000_000_000
            + system.nanos,
        clock@ matches Some(a) ==> clock.shows(instant, system) >= a.utc_time.secs * 1_000_000_000
            + a.utc_time.nanos,
{
}

} // verus!
