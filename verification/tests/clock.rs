use my_remote_speaker::clock::{
    get_ntp_time, median_offset, ntp_offset, ntp_servers, ntp_time_fits, pick_samples,
    AccurateClock, Delta, NtpSample, UtcTime, UTC_MAX_SECS, UTC_MIN_SECS,
};
use my_remote_speaker::order::stable_order;

fn ms(v: i64) -> Delta {
    Delta { secs: v.div_euclid(1000), nanos: (v.rem_euclid(1000) * 1_000_000) as u32 }
}

fn sample(offset: i64, rtt: i64) -> NtpSample {
    NtpSample { offset: ms(offset), rtt: ms(rtt) }
}

#[test]
fn trusted_samples_outvote_slow_ones() {
    let samples = vec![sample(900, 151), sample(10, 150), sample(30, 20), sample(20, 90)];
    assert_eq!(pick_samples(&samples), vec![samples[1], samples[2], samples[3]]);
    assert_eq!(ntp_offset::<()>(samples.into_iter().map(Ok).collect()), Ok(Some(ms(20))));
}

#[test]
fn quickest_three_where_too_few_are_trusted() {
    let samples =
        vec![sample(1, 400), sample(2, 300), sample(3, 100), sample(4, 300), sample(5, 500)];
    assert_eq!(pick_samples(&samples), vec![samples[2], samples[1], samples[3]]);
    assert_eq!(ntp_offset::<()>(samples.into_iter().map(Ok).collect()), Ok(Some(ms(3))));
}

#[test]
fn median_of_an_even_number_is_the_later() {
    assert_eq!(median_offset(&vec![sample(-5, 0), sample(7, 0)]), ms(7));
    assert_eq!(median_offset(&vec![sample(4, 0), sample(1, 0), sample(3, 0), sample(2, 0)]), ms(3));
    assert_eq!(median_offset(&vec![sample(9, 0)]), ms(9));
}

#[test]
fn median_resists_a_minority() {
    let replies: Vec<Result<NtpSample, ()>> =
        vec![Ok(sample(86_400_000, 1)), Ok(sample(11, 5)), Ok(sample(12, 9))];
    assert_eq!(ntp_offset(replies), Ok(Some(ms(12))));
}

#[test]
fn errors_and_too_few_samples() {
    assert_eq!(ntp_offset::<&str>(vec![Err("a"), Err("b")]), Err("a"));
    assert_eq!(ntp_offset::<&str>(vec![]), Ok(None));
    assert_eq!(ntp_offset(vec![Err("a"), Ok(sample(1, 1))]), Ok(None));
    assert_eq!(ntp_offset(vec![Ok(sample(1, 1)), Err("a"), Ok(sample(3, 1))]), Ok(Some(ms(3))));
}

#[test]
fn time_by_the_servers() {
    let now = UtcTime { secs: 1_700_000_000, nanos: 900_000_000 };
    let replies: Vec<Result<NtpSample, ()>> = vec![Ok(sample(-1500, 10)), Ok(sample(250, 10))];
    assert_eq!(
        get_ntp_time(replies, now),
        Ok(Some(UtcTime { secs: 1_700_000_001, nanos: 150_000_000 }))
    );
    assert_eq!(get_ntp_time(vec![Err("e")], now), Err("e"));
    assert_eq!(get_ntp_time::<()>(vec![Ok(sample(1, 1))], now), Ok(None));
}

#[test]
fn time_by_the_servers_out_of_range() {
    let near = vec![Ok::<_, ()>(sample(1, 1)), Ok(sample(2, 1))];
    assert!(ntp_time_fits(&near, UtcTime { secs: 0, nanos: 0 }));
    let last = UtcTime { secs: UTC_MAX_SECS, nanos: 999_999_999 };
    assert!(!ntp_time_fits(&near, last));
    assert!(ntp_time_fits(&vec![Ok::<_, ()>(sample(1, 1))], last));
    let back = vec![Ok::<_, ()>(sample(-2, 1)), Ok(sample(-1, 1))];
    assert!(ntp_time_fits(&back, last));
}

#[test]
fn differences_and_sums_of_times() {
    let a = UtcTime { secs: 10, nanos: 250_000_000 };
    let b = UtcTime { secs: 12, nanos: 0 };
    assert_eq!(b.since(a), ms(1750));
    assert_eq!(a.since(b), ms(-1750));
    assert_eq!(a.plus(ms(1750)), b);
    assert_eq!(b.plus(ms(-1750)), a);
    assert_eq!(b.since(b), Delta::zero());
    let first = UtcTime { secs: UTC_MIN_SECS, nanos: 0 };
    let last = UtcTime { secs: UTC_MAX_SECS, nanos: 999_999_999 };
    assert_eq!(first.plus(last.since(first)), last);
    assert_eq!(last.plus(first.since(last)), first);
    assert_eq!(ms(-1).total_nanos(), -1_000_000);
}

#[test]
fn reply_becomes_a_sample() {
    let server = UtcTime { secs: 100, nanos: 0 };
    let received = UtcTime { secs: 99, nanos: 500_000_000 };
    assert_eq!(
        NtpSample::measure(Some(server), Some(ms(20)), received),
        NtpSample { offset: ms(500), rtt: ms(20) }
    );
    assert_eq!(
        NtpSample::measure(None, None, received),
        NtpSample { offset: ms(-99_500), rtt: ms(0) }
    );
    assert_eq!(UtcTime::epoch(), UtcTime { secs: 0, nanos: 0 });
}

#[test]
fn clock_runs_from_its_anchor() {
    let mut clock = AccurateClock::new();
    let system = UtcTime { secs: 5, nanos: 0 };
    assert!(!clock.is_synced());
    assert_eq!(clock.now(77, system), system);
    assert_eq!(clock.sync::<()>(1_000, Ok(None)), 0);
    assert_eq!(clock.sync(1_000, Err("e")), 3);
    assert!(!clock.is_synced());
    let set = UtcTime { secs: 1_000, nanos: 999_999_990 };
    assert_eq!(clock.sync::<()>(1_000, Ok(Some(set))), 3600);
    assert!(clock.is_synced());
    assert_eq!(clock.now(1_000, system), set);
    assert_eq!(clock.now(1_025, system), UtcTime { secs: 1_001, nanos: 15 });
    assert_eq!(clock.now(500, system), set);
    let too_long = 9_223_372_036_854_775_808_000_000u128;
    assert_eq!(clock.now(1_000 + too_long, system), set);
}

#[test]
fn clock_near_the_end_of_time() {
    let system = UtcTime { secs: 0, nanos: 0 };
    let mut clock = AccurateClock::new();
    assert!(clock.in_range(7, system));
    let last = UtcTime { secs: UTC_MAX_SECS, nanos: 999_999_998 };
    clock.sync::<()>(10, Ok(Some(last)));
    assert!(clock.in_range(11, system));
    assert_eq!(clock.now(11, system).nanos, 999_999_999);
    assert!(!clock.in_range(12, system));
}

#[test]
fn sorting_leaves_equal_keys_in_their_order() {
    assert_eq!(stable_order(&vec![3, 1, 3, -2, 1]), vec![3, 1, 4, 0, 2]);
    assert_eq!(stable_order(&vec![]), Vec::<usize>::new());
}

#[test]
fn servers() {
    let servers = ntp_servers();
    assert_eq!(servers.len(), 19);
    assert_eq!(servers[0], "ntp.aliyun.com:123");
    assert_eq!(servers[18], "time-a-wwv.nist.gov:123");
}
