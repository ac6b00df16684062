use starchart::counter::{Count, Counter};
use starchart::master::{Master, Rename};

pub const DURATION: u64 = 5;

fn get_counter() -> Count {
    Count {
        duration: DURATION,
        search_threshold: 0,
    }
}

#[test]
fn counter_decrement_by_works() {
    let mut m = get_counter();
    for _ in 0..100 {
        m.add_search();
    }
    assert_eq!(m.get_searches(), 100);
    m.decrement_search_by(50);
    assert_eq!(m.get_searches(), 50);
    m.decrement_search_by(500);
    assert_eq!(m.get_searches(), 0);
}

#[test]
fn count_saturates_at_the_largest_value() {
    let mut m = Count {
        duration: DURATION,
        search_threshold: u32::MAX - 1,
    };
    m.add_search();
    assert_eq!(m.get_searches(), u32::MAX);
    m.add_search();
    assert_eq!(m.get_searches(), u32::MAX);
    assert_eq!(m.duration, DURATION);
}

#[test]
fn first_search_counts_one_and_then_up() {
    let mut c = Counter::from(get_counter());
    assert_eq!(c.get_current_search_count(), 0);
    assert_eq!(c.add_search(100), 1);
    assert_eq!(c.add_search(101), 2);
    assert_eq!(c.add_search(101), 3);
    assert_eq!(c.add_search(103), 4);
    assert_eq!(c.get_current_search_count(), 4);
}

#[test]
fn searches_decay_one_window_after_they_were_added() {
    let mut c = Counter::from(get_counter());
    c.add_search(100);
    c.add_search(102);
    c.add_search(104);
    c.expire(104);
    assert_eq!(c.get_current_search_count(), 3);
    c.expire(105);
    assert_eq!(c.get_current_search_count(), 2);
    c.expire(106);
    assert_eq!(c.get_current_search_count(), 2);
    c.expire(107);
    assert_eq!(c.get_current_search_count(), 1);
    c.expire(109);
    assert_eq!(c.get_current_search_count(), 0);
    c.expire(1000);
    assert_eq!(c.get_current_search_count(), 0);
    assert_eq!(c.add_search(1000), 1);
}

#[test]
fn counter_defense_loosenup_works() {
    let mut c = Counter::from(get_counter());
    for _ in 0..499 {
        c.add_search(10);
    }
    assert_eq!(c.add_search(10), 500);
    assert_eq!(c.get_current_search_count(), 500);
    assert_eq!(c.add_search(10 + DURATION + 1), 1);
    assert_eq!(c.get_current_search_count(), 1);
}

#[test]
fn a_search_after_the_window_counts_one() {
    let mut c = Counter::from(get_counter());
    assert_eq!(c.add_search(0), 1);
    assert_eq!(c.add_search(100), 1);
    assert_eq!(c.get_current_search_count(), 1);
}

#[test]
fn a_search_lets_the_due_searches_decay_first() {
    let mut c = Counter::from(get_counter());
    assert_eq!(c.add_search(0), 1);
    assert_eq!(c.add_search(2), 2);
    assert_eq!(c.add_search(4), 3);
    // the search of time 0 is due at 5, that of time 2 at 7
    assert_eq!(c.add_search(5), 3);
    assert_eq!(c.add_search(6), 4);
    assert_eq!(c.add_search(8), 4);
    // those of the times 4 and 5 are due at 9 and 10
    assert_eq!(c.add_search(10), 3);
    assert_eq!(c.add_search(10 + DURATION), 1);
}

#[test]
fn the_registry_lets_due_searches_decay_when_it_counts() {
    let mut master = Master::new(45);
    master.add_site(Counter::from(get_counter()), "peer".to_string());
    assert_eq!(master.add_search("peer", 0), Some(1));
    assert_eq!(master.add_search("peer", 1), Some(2));
    assert_eq!(master.add_search("peer", 100), Some(1));
    assert_eq!(master.get_count("peer"), Some(1));
}

#[test]
fn get_current_search_count_works() {
    let mut c = Counter::from(get_counter());
    c.add_search(0);
    c.add_search(0);
    c.add_search(0);
    c.add_search(0);
    let count = c.get_current_search_count();
    assert_eq!(count, 4);
}

#[test]
#[should_panic]
fn stop_works() {
    let mut master = Master::new(1);
    master.add_site(Counter::from(get_counter()), "yo".to_string());
    // the counter is stopped: it leaves the registry
    master.rm_site("yo").unwrap();
    master.add_search("yo", 0).unwrap();
}

#[test]
fn counts_given_at_the_start_do_not_decay() {
    let mut c = Counter::from(Count {
        duration: DURATION,
        search_threshold: 7,
    });
    assert_eq!(c.add_search(1), 8);
    c.expire(1000);
    assert_eq!(c.get_current_search_count(), 7);
}

#[test]
fn an_expiry_that_cannot_be_counted_never_comes() {
    let mut c = Counter::from(Count {
        duration: u64::MAX,
        search_threshold: 0,
    });
    c.add_search(5);
    c.expire(u64::MAX - 1);
    assert_eq!(c.get_current_search_count(), 1);
    c.expire(u64::MAX);
    assert_eq!(c.get_current_search_count(), 0);
}

#[test]
fn master_actor_works() {
    let mut master = Master::new(1);
    assert_eq!(master.gc_period(), 1);

    let id = "yo";
    master.add_site(Counter::from(get_counter()), id.to_string());
    assert!(master.get_site(id).is_some());

    let new_id = "yoyo";
    master.rename(Rename {
        name: id.to_string(),
        rename_to: new_id.to_string(),
    });
    assert!(master.get_site(id).is_none());
    assert!(master.get_site(new_id).is_some());
    assert!(master.get_site("a").is_none());

    let removed = master.clean_up(2 * DURATION);
    assert_eq!(removed, vec![new_id.to_string()]);
    assert_eq!(master.get_site(new_id), None);
    assert!(master.rm_site(new_id).is_none());
}

#[test]
fn a_counter_that_was_never_read_is_not_collected() {
    let mut master = Master::new(45);
    master.add_site(Counter::from(get_counter()), "peer".to_string());
    let removed = master.clean_up(1000);
    assert!(removed.is_empty());
    assert_eq!(master.get_count("peer"), Some(0));
    let removed = master.clean_up(1001);
    assert_eq!(removed, vec!["peer".to_string()]);
    assert_eq!(master.get_count("peer"), None);
}

#[test]
fn a_busy_counter_is_collected_once_it_is_idle() {
    let mut master = Master::new(45);
    master.add_site(Counter::from(get_counter()), "peer".to_string());
    assert_eq!(master.add_search("peer", 10), Some(1));
    assert_eq!(master.add_search("peer", 11), Some(2));
    assert_eq!(master.add_search("nobody", 11), None);
    assert!(master.clean_up(12).is_empty());
    assert_eq!(master.get_count("peer"), Some(2));
    assert!(master.clean_up(15).is_empty());
    assert_eq!(master.get_count("peer"), Some(1));
    assert_eq!(master.clean_up(16), vec!["peer".to_string()]);
    assert_eq!(master.get_count("peer"), None);
}

#[test]
fn renaming_resets_the_read_mark_and_replaces_the_target() {
    let mut master = Master::new(45);
    master.add_site(Counter::from(get_counter()), "a".to_string());
    master.add_site(Counter::from(get_counter()), "b".to_string());
    assert_eq!(master.add_search("a", 1), Some(1));
    assert_eq!(master.add_search("b", 1), Some(1));
    assert_eq!(master.add_search("b", 1), Some(2));
    master.rename(Rename {
        name: "a".to_string(),
        rename_to: "b".to_string(),
    });
    assert_eq!(master.get_count("a"), None);
    master.rename(Rename {
        name: "missing".to_string(),
        rename_to: "c".to_string(),
    });
    assert_eq!(master.get_count("c"), None);
    let site = master.rm_site("b").unwrap();
    assert!(!site.touched);
    assert_eq!(site.counter.get_current_search_count(), 1);
}
