use dscale::clock::Clock;
use dscale::jiffies::Jiffies;
use dscale::kv::Kv;
use dscale::tso::Tso;

#[test]
fn set_then_get_returns_the_value() {
    let mut kv = Kv::new();
    dscale::kv::set::<usize>(&mut kv, "count", 7);
    dscale::kv::set::<u64>(&mut kv, "seed", 99);
    dscale::kv::set::<bool>(&mut kv, "done", true);
    dscale::kv::set::<Jiffies>(&mut kv, "at", Jiffies(12));
    assert_eq!(dscale::kv::get::<usize>(&kv, "count"), 7);
    assert_eq!(dscale::kv::get::<u64>(&kv, "seed"), 99);
    assert!(dscale::kv::get::<bool>(&kv, "done"));
    assert_eq!(dscale::kv::get::<Jiffies>(&kv, "at"), Jiffies(12));
}

#[test]
fn set_replaces_what_was_there() {
    let mut kv = Kv::new();
    dscale::kv::set::<usize>(&mut kv, "k", 1);
    dscale::kv::set::<usize>(&mut kv, "other", 5);
    dscale::kv::set::<usize>(&mut kv, "k", 2);
    assert_eq!(dscale::kv::get::<usize>(&kv, "k"), 2);
    assert_eq!(dscale::kv::get::<usize>(&kv, "other"), 5);
    dscale::kv::set::<bool>(&mut kv, "k", false);
    assert!(kv.holds::<bool>("k"));
    assert!(!kv.holds::<usize>("k"));
}

#[test]
fn modify_applies_the_function_to_the_old_value() {
    let mut kv = Kv::new();
    dscale::kv::set::<usize>(&mut kv, "pings", 41);
    dscale::kv::modify::<usize, _>(&mut kv, "pings", |p| p + 1);
    assert_eq!(dscale::kv::get::<usize>(&kv, "pings"), 42);
    dscale::kv::modify::<usize, _>(&mut kv, "pings", |p| p * 2);
    assert_eq!(dscale::kv::get::<usize>(&kv, "pings"), 84);
}

#[test]
fn holds_tells_key_and_type() {
    let mut kv = Kv::new();
    assert!(!kv.holds::<usize>("missing"));
    dscale::kv::set::<u64>(&mut kv, "seed", 3);
    assert!(kv.holds::<u64>("seed"));
    assert!(!kv.holds::<usize>("seed"));
    assert!(!kv.holds::<u64>("see"));
}

#[test]
fn drop_kv_empties_the_store() {
    let mut kv = Kv::new();
    dscale::kv::set::<usize>(&mut kv, "a", 1);
    dscale::kv::drop_kv(&mut kv);
    assert!(!kv.holds::<usize>("a"));
}

#[test]
fn unique_ids_strictly_increase() {
    let mut tso = Tso::new();
    let mut previous = dscale::tso::global_unique_id(&mut tso);
    assert_eq!(previous, 0);
    for _ in 0..1000 {
        let next = dscale::tso::global_unique_id(&mut tso);
        assert!(next > previous);
        previous = next;
    }
    dscale::tso::drop_tso(&mut tso);
    assert_eq!(dscale::tso::global_unique_id(&mut tso), 0);
    assert!(tso.has_next());
    assert_eq!(dscale::timer::next_timer_id(&mut tso), 1);
}

#[test]
fn clock_moves_forward_and_resets() {
    let mut clock = Clock::new();
    assert_eq!(dscale::clock::now(&clock), Jiffies(0));
    dscale::clock::fast_forward_clock(&mut clock, Jiffies(5));
    assert_eq!(dscale::clock::now(&clock), Jiffies(5));
    dscale::clock::fast_forward_clock(&mut clock, Jiffies(5));
    dscale::clock::fast_forward_clock(&mut clock, Jiffies(9));
    assert_eq!(dscale::clock::now(&clock), Jiffies(9));
    dscale::clock::drop_clock(&mut clock);
    assert_eq!(dscale::clock::now(&clock), Jiffies(0));
}

#[test]
fn configuration_is_kept_in_the_store() {
    let mut kv = Kv::new();
    dscale::configuration::setup_global_configuration(&mut kv, 5);
    dscale::configuration::setup_local_configuration(&mut kv, 3, 100);
    dscale::configuration::setup_local_configuration(&mut kv, 12, 100);
    assert_eq!(dscale::configuration::process_number(&kv), 5);
    assert_eq!(dscale::configuration::seed(&kv, 3), 103);
    assert_eq!(dscale::configuration::seed(&kv, 12), 112);
    assert_eq!(dscale::kv::get::<u64>(&kv, "seeds/3"), 103);
    assert_eq!(dscale::kv::get::<usize>(&kv, "proc_num"), 5);
    assert_eq!(dscale::configuration::seed_key_of(120), "seeds/120");
}

#[test]
fn setup_configuration_records_every_seed() {
    let mut kv = Kv::new();
    dscale::configuration::setup_configuration(&mut kv, 11, 1000);
    for rank in 1..=11usize {
        assert_eq!(dscale::configuration::seed(&kv, rank), 1000 + rank as u64);
    }
    assert_eq!(dscale::configuration::process_number(&kv), 11);
}

#[test]
fn metrics_count_events() {
    let mut metrics = dscale::metrics::Metrics::new();
    metrics.track_event();
    metrics.track_event();
    assert_eq!(metrics.events_total, 2);
    let mut full = dscale::metrics::Metrics { events_total: usize::MAX };
    full.track_event();
    assert_eq!(full.events_total, usize::MAX);
    assert_eq!(dscale::metrics::Metrics::default().events_total, 0);
}

#[test]
fn progress_is_reported_once_per_part() {
    let mut bar = dscale::progress::Bar::new(Jiffies(100), 10);
    assert!(!bar.make_progress(Jiffies(9)));
    assert!(bar.make_progress(Jiffies(10)));
    assert!(!bar.make_progress(Jiffies(19)));
    assert!(bar.make_progress(Jiffies(35)));
    assert!(!bar.make_progress(Jiffies(30)));
    assert!(bar.make_progress(Jiffies(100)));
    assert_eq!(bar.length(), Jiffies(100));
    assert_eq!(dscale::progress::K_PROGRESS_TIMES, 10);
}

#[test]
fn pairs_are_kept_in_the_store() {
    let mut kv = Kv::new();
    dscale::kv::set::<(usize, usize)>(&mut kv, "avg", (7, 2));
    assert!(kv.holds::<(usize, usize)>("avg"));
    assert!(!kv.holds::<usize>("avg"));
    dscale::kv::modify::<(usize, usize), _>(&mut kv, "avg", |(total, count)| {
        (total + 5, count + 1)
    });
    assert_eq!(dscale::kv::get::<(usize, usize)>(&kv, "avg"), (12, 3));
}
