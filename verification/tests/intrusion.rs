use schnorr_nizk::file_management::{
    check_commitment, check_intrusion, get_commitments_file_path, get_counter_values,
    get_intrusion_file_path, init_data, init_data_at, manage_intrusion, manage_intrusion_at,
    CommitmentLog, Intrusion, IntrusionJournal,
};

fn record(
    asym_counter: u8,
    sym_counter: u8,
    start_timestamp: i64,
    rejections: u16,
    dos_attack: bool,
) -> Intrusion {
    Intrusion { asym_counter, sym_counter, start_timestamp, rejections, dos_attack }
}

#[test]
fn rejections_are_classified() {
    assert_eq!(get_counter_values(false, true), (1, 0));
    assert_eq!(get_counter_values(true, false), (0, 1));
    assert_eq!(get_counter_values(false, false), (0, 0));
    assert_eq!(get_counter_values(true, true), (0, 0));
}

#[test]
fn first_rejection_creates_the_record() {
    let mut journal = IntrusionJournal::new();
    assert_eq!(journal.get(7), None);
    manage_intrusion_at(&mut journal, 7, false, true, 5_000);
    assert_eq!(journal.get(7), Some(record(1, 0, 5_000, 1, false)));
    assert_eq!(journal.get(8), None);
}

#[test]
fn fake_schnorr_with_valid_mac_counts_against_the_private_key() {
    let mut journal = IntrusionJournal::new();
    for i in 0..5 {
        manage_intrusion_at(&mut journal, 7, false, true, 1_000 + i);
        assert_eq!(check_intrusion(&journal, 7), (false, false, false));
    }
    assert_eq!(journal.get(7).unwrap().asym_counter, 5);
    manage_intrusion_at(&mut journal, 7, false, true, 1_005);
    assert_eq!(journal.get(7).unwrap().asym_counter, 6);
    assert_eq!(journal.get(7).unwrap().sym_counter, 0);
    assert_eq!(check_intrusion(&journal, 7), (true, false, false));
}

#[test]
fn valid_schnorr_with_fake_mac_counts_against_the_shared_secret() {
    let mut journal = IntrusionJournal::new();
    for i in 0..6 {
        manage_intrusion_at(&mut journal, 7, true, false, 1_000 + i);
    }
    assert_eq!(journal.get(7).unwrap().asym_counter, 0);
    assert_eq!(journal.get(7).unwrap().sym_counter, 6);
    assert_eq!(check_intrusion(&journal, 7), (false, true, false));
}

#[test]
fn blind_guesses_count_against_no_key() {
    let mut journal = IntrusionJournal::new();
    for i in 0..9 {
        manage_intrusion_at(&mut journal, 7, false, false, 1_000 + i);
    }
    assert_eq!(journal.get(7), Some(record(0, 0, 1_000, 9, false)));
    assert_eq!(check_intrusion(&journal, 7), (false, false, false));
}

#[test]
fn key_counters_keep_counting_across_windows() {
    let mut journal = IntrusionJournal::new();
    for i in 0..6 {
        manage_intrusion_at(&mut journal, 7, false, true, 1_000_000 * i);
    }
    assert_eq!(journal.get(7).unwrap().asym_counter, 6);
    assert_eq!(check_intrusion(&journal, 7), (true, false, false));
}

#[test]
fn key_counters_stop_at_their_maximum() {
    let mut journal = IntrusionJournal::new();
    journal.set(7, record(254, 255, 0, 65_534, false));
    manage_intrusion_at(&mut journal, 7, false, true, 10_000_000);
    assert_eq!(journal.get(7).unwrap().asym_counter, 255);
    manage_intrusion_at(&mut journal, 7, false, true, 10_000_000);
    assert_eq!(journal.get(7).unwrap().asym_counter, 255);
    manage_intrusion_at(&mut journal, 7, true, false, 10_000_000);
    assert_eq!(journal.get(7).unwrap().sym_counter, 255);
    assert_eq!(check_intrusion(&journal, 7).0, true);
    assert_eq!(check_intrusion(&journal, 7).1, true);
}

#[test]
fn rejection_count_stops_at_its_maximum() {
    let next = record(0, 0, 0, 65_535, true).record_rejection(false, false, 1_000);
    assert_eq!(next, record(0, 0, 0, 65_535, true));
    let next = record(0, 0, 0, 65_534, false).record_rejection(false, false, 1_000);
    assert_eq!(next, record(0, 0, 0, 65_535, true));
}

#[test]
fn thousand_rejections_in_one_second_are_a_flood() {
    let mut journal = IntrusionJournal::new();
    for i in 0..1000 {
        manage_intrusion_at(&mut journal, 7, false, false, 1_700_000_000_000 + i);
    }
    assert_eq!(check_intrusion(&journal, 7), (false, false, true));
    assert_eq!(journal.get(7), Some(record(0, 0, 1_700_000_000_000, 1000, true)));
}

#[test]
fn thousand_rejections_at_one_instant_are_a_flood() {
    let mut journal = IntrusionJournal::new();
    init_data_at(&mut journal, 7, 0);
    for _ in 0..1000 {
        manage_intrusion_at(&mut journal, 7, false, false, 500);
    }
    assert_eq!(check_intrusion(&journal, 7).2, true);
}

#[test]
fn thirty_five_rejections_late_in_a_second_are_a_flood() {
    let mut journal = IntrusionJournal::new();
    journal.set(7, record(0, 0, 0, 0, false));
    let times = [201, 402, 603, 804];
    for time in times {
        manage_intrusion_at(&mut journal, 7, false, false, time);
        assert_eq!(journal.get(7), Some(record(0, 0, time, 0, false)));
    }
    for _ in 0..10 {
        manage_intrusion_at(&mut journal, 7, false, false, 999);
    }
    assert_eq!(journal.get(7), Some(record(0, 0, 804, 10, false)));
    manage_intrusion_at(&mut journal, 7, false, false, 999);
    assert_eq!(journal.get(7), Some(record(0, 0, 804, 11, true)));
    for _ in 0..20 {
        manage_intrusion_at(&mut journal, 7, false, false, 999);
    }
    assert_eq!(check_intrusion(&journal, 7).2, true);
}

#[test]
fn flood_needs_more_than_ten_rejections() {
    let start = record(0, 0, 0, 9, false);
    assert_eq!(start.record_rejection(false, false, 10), record(0, 0, 0, 10, false));
    let start = record(0, 0, 0, 10, false);
    assert_eq!(start.record_rejection(false, false, 10), record(0, 0, 0, 11, true));
}

#[test]
fn flood_needs_a_rate_above_one_per_hundred_milliseconds() {
    let start = record(0, 0, 0, 19, false);
    assert_eq!(start.record_rejection(false, false, 2_000), record(0, 0, 0, 20, false));
    assert_eq!(start.record_rejection(false, false, 1_999), record(0, 0, 0, 20, true));
    assert_eq!(start.record_rejection(false, false, 2_001), record(0, 0, 0, 20, false));
}

#[test]
fn slow_rejections_open_a_new_window() {
    let start = record(2, 3, 0, 19, true);
    assert_eq!(start.record_rejection(false, false, 4_000), record(2, 3, 0, 20, true));
    assert_eq!(start.record_rejection(false, false, 4_001), record(2, 3, 4_001, 0, false));
    assert_eq!(start.record_rejection(false, true, 4_001), record(3, 3, 4_001, 0, false));
}

#[test]
fn rates_in_between_leave_the_flood_mark_alone() {
    let marked = record(0, 0, 0, 19, true);
    assert_eq!(marked.record_rejection(false, false, 3_000), record(0, 0, 0, 20, true));
    let clear = record(0, 0, 0, 19, false);
    assert_eq!(clear.record_rejection(false, false, 3_000), record(0, 0, 0, 20, false));
}

#[test]
fn windows_of_no_or_negative_length() {
    let start = record(0, 0, 1_000, 10, false);
    assert_eq!(start.record_rejection(false, false, 1_000), record(0, 0, 1_000, 11, true));
    let start = record(0, 0, 1_000, 3, false);
    assert_eq!(start.record_rejection(false, false, 1_000), record(0, 0, 1_000, 4, false));
    let start = record(0, 0, 1_000, 50, true);
    assert_eq!(start.record_rejection(false, false, 999), record(0, 0, 999, 0, false));
}

#[test]
fn extreme_timestamps_do_not_overflow() {
    let start = record(0, 0, i64::MIN, 50, true);
    assert_eq!(start.record_rejection(false, false, i64::MAX), record(0, 0, i64::MAX, 0, false));
    let start = record(0, 0, i64::MAX, 50, true);
    assert_eq!(start.record_rejection(false, false, i64::MIN), record(0, 0, i64::MIN, 0, false));
}

#[test]
fn init_data_resets_an_existing_record_only() {
    let mut journal = IntrusionJournal::new();
    init_data_at(&mut journal, 7, 100);
    assert_eq!(journal.get(7), None);
    journal.set(7, record(9, 8, 7, 6, true));
    init_data_at(&mut journal, 7, 100);
    assert_eq!(journal.get(7), Some(record(0, 0, 100, 0, false)));
    assert_eq!(check_intrusion(&journal, 7), (false, false, false));
}

#[test]
fn unknown_peer_is_not_suspected() {
    let journal = IntrusionJournal::new();
    assert_eq!(check_intrusion(&journal, 12345), (false, false, false));
}

#[test]
fn peers_have_separate_records() {
    let mut journal = IntrusionJournal::new();
    for i in 0..6 {
        manage_intrusion_at(&mut journal, 1, false, true, i);
        manage_intrusion_at(&mut journal, 2, true, false, i);
    }
    assert_eq!(check_intrusion(&journal, 1), (true, false, false));
    assert_eq!(check_intrusion(&journal, 2), (false, true, false));
    assert_eq!(check_intrusion(&journal, 3), (false, false, false));
}

#[test]
fn clock_based_operations_use_the_present() {
    let year_2020_ms: i64 = 1_577_836_800_000;
    let mut journal = IntrusionJournal::new();
    manage_intrusion(&mut journal, 7, false, true);
    let first = journal.get(7).unwrap();
    assert!(first.start_timestamp > year_2020_ms);
    assert_eq!((first.asym_counter, first.sym_counter, first.rejections), (1, 0, 1));
    for _ in 0..20 {
        manage_intrusion(&mut journal, 7, false, false);
    }
    assert_eq!(check_intrusion(&journal, 7), (false, false, true));
    init_data(&mut journal, 7);
    let reset = journal.get(7).unwrap();
    assert!(reset.start_timestamp >= first.start_timestamp);
    assert_eq!(
        (reset.asym_counter, reset.sym_counter, reset.rejections, reset.dos_attack),
        (0, 0, 0, false)
    );
}

#[test]
fn commitment_is_fresh_once() {
    let mut log = CommitmentLog::new();
    let commitment = [3u8; 32];
    assert!(!log.is_recorded(5, &commitment));
    assert!(check_commitment(&mut log, 5, commitment));
    assert!(log.is_recorded(5, &commitment));
    assert!(!check_commitment(&mut log, 5, commitment));
    assert!(!check_commitment(&mut log, 5, commitment));
}

#[test]
fn commitments_are_logged_per_peer() {
    let mut log = CommitmentLog::new();
    let commitment = [3u8; 32];
    assert!(check_commitment(&mut log, 5, commitment));
    assert!(check_commitment(&mut log, 6, commitment));
    assert!(!check_commitment(&mut log, 6, commitment));
    let mut other = commitment;
    other[31] = 4;
    assert!(check_commitment(&mut log, 5, other));
    assert!(!check_commitment(&mut log, 5, commitment));
    assert!(!check_commitment(&mut log, 5, other));
    assert!(!log.is_recorded(7, &commitment));
}

#[test]
fn many_commitments_stay_logged() {
    let mut log = CommitmentLog::new();
    for i in 0..200u8 {
        let mut commitment = [0u8; 32];
        commitment[7] = i;
        assert!(check_commitment(&mut log, 1, commitment));
    }
    for i in 0..200u8 {
        let mut commitment = [0u8; 32];
        commitment[7] = i;
        assert!(!check_commitment(&mut log, 1, commitment));
    }
}

#[test]
fn file_names_hold_the_peer_number() {
    assert_eq!(get_commitments_file_path(10000), ".nizk-auth/mut_comm_10000.txt");
    assert_eq!(get_intrusion_file_path(10000), ".nizk-auth/intrusion_data_10000.json");
    assert_eq!(get_commitments_file_path(0), ".nizk-auth/mut_comm_0.txt");
    assert_eq!(
        get_intrusion_file_path(u32::MAX),
        ".nizk-auth/intrusion_data_4294967295.json"
    );
}
