use beamium::clock::Instant;
use beamium::schedule::{naps, naps_since, rest, Pacer, Step, REST_TIME};

#[test]
fn rest_is_what_is_left_of_the_period() {
    assert_eq!(rest(1000, 0), 1000);
    assert_eq!(rest(1000, 250), 750);
    assert_eq!(rest(1000, 989), 11);
}

#[test]
fn rest_is_at_least_one_nap() {
    assert_eq!(REST_TIME, 10);
    assert_eq!(rest(1000, 990), 10);
    assert_eq!(rest(1000, 995), 10);
    assert_eq!(rest(1000, 1000), 10);
    assert_eq!(rest(1000, 1001), 10);
    assert_eq!(rest(1000, u64::MAX), 10);
    assert_eq!(rest(0, 0), 10);
    assert_eq!(rest(5, 0), 10);
    assert_eq!(rest(u64::MAX, 0), u64::MAX);
}

#[test]
fn naps_are_whole_naps() {
    assert_eq!(naps(1000, 0), 100);
    assert_eq!(naps(1000, 1), 99);
    assert_eq!(naps(1000, 985), 1);
    assert_eq!(naps(1000, 5000), 1);
    assert_eq!(naps(25, 0), 2);
    assert_eq!(naps(0, 0), 1);
}

#[test]
fn naps_since_takes_at_least_one_nap() {
    let start = Instant::now();
    let n = naps_since(1000, &start);
    assert!(n >= 1 && n <= 100);
    let long_ago = Instant { sec: 0, nsec: 0 };
    assert_eq!(naps_since(1000, &long_ago), 1);
}

#[test]
fn clock_reads_the_present() {
    let at = Instant::now();
    assert!(at.sec > 1_500_000_000);
    assert!(at.nsec >= 0 && at.nsec < 1_000_000_000);
}

#[test]
fn elapsed_drops_fractions_of_a_millisecond() {
    let start = Instant { sec: 10, nsec: 900_000_000 };
    assert_eq!(start.elapsed_until(&Instant { sec: 10, nsec: 900_000_000 }), 0);
    assert_eq!(start.elapsed_until(&Instant { sec: 10, nsec: 900_999_999 }), 0);
    assert_eq!(start.elapsed_until(&Instant { sec: 10, nsec: 901_000_000 }), 1);
    assert_eq!(start.elapsed_until(&Instant { sec: 11, nsec: 0 }), 100);
    assert_eq!(start.elapsed_until(&Instant { sec: 12, nsec: 100_000_000 }), 1200);
}

#[test]
fn elapsed_of_a_clock_that_went_back_is_an_overrun() {
    let start = Instant { sec: 10, nsec: 5_000_000 };
    assert_eq!(start.elapsed_until(&Instant { sec: 10, nsec: 4_000_000 }), u64::MAX);
    assert_eq!(start.elapsed_until(&Instant { sec: 9, nsec: 999_999_999 }), u64::MAX);
    assert_eq!(naps(1000, start.elapsed_until(&Instant { sec: 0, nsec: 0 })), 1);
    let far = Instant { sec: i64::MIN, nsec: 0 };
    assert_eq!(far.elapsed_until(&Instant { sec: i64::MAX, nsec: 999_999_999 }), u64::MAX);
    assert_eq!(Instant { sec: i64::MAX, nsec: 0 }.elapsed_until(&far), u64::MAX);
}

#[test]
fn elapsed_of_less_than_a_millisecond_backwards_is_nothing() {
    let start = Instant { sec: 10, nsec: 5_000_000 };
    assert_eq!(start.elapsed_until(&Instant { sec: 10, nsec: 4_999_999 }), 0);
    assert_eq!(start.elapsed_until(&Instant { sec: 10, nsec: 4_000_001 }), 0);
    let start = Instant { sec: 10, nsec: 5 };
    assert_eq!(start.elapsed_until(&Instant { sec: 9, nsec: 999_999_999 }), 0);
    assert_eq!(naps(1000, start.elapsed_until(&Instant { sec: 10, nsec: 4 })), 100);
}

#[test]
fn pacer_starts_with_a_cycle() {
    let mut pacer = Pacer::new(1000);
    assert_eq!(pacer.start(), Step::Route);
    assert_eq!(pacer.routed(995), Step::Nap);
    assert_eq!(pacer.napped(false), Step::Route);
}

#[test]
fn pacer_naps_between_cycles() {
    let mut pacer = Pacer::new(30);
    assert_eq!(pacer.start(), Step::Route);
    assert_eq!(pacer.routed(0), Step::Nap);
    assert_eq!(pacer.napped(false), Step::Nap);
    assert_eq!(pacer.napped(false), Step::Nap);
    assert_eq!(pacer.napped(false), Step::Route);
    assert_eq!(pacer.routed(29), Step::Nap);
    assert_eq!(pacer.napped(false), Step::Route);
}

#[test]
fn pacer_stops_after_a_nap() {
    let mut pacer = Pacer::new(1000);
    assert_eq!(pacer.routed(2000), Step::Nap);
    assert_eq!(pacer.napped(true), Step::Stop);
    let mut pacer = Pacer::new(1000);
    assert_eq!(pacer.routed(0), Step::Nap);
    assert_eq!(pacer.napped(false), Step::Nap);
    assert_eq!(pacer.napped(true), Step::Stop);
}
