//! Replay protection and intrusion detection: the log of commitments seen
//! from each peer and the per-peer journal of rejected proofs.
//!
//! Both are plain values owned by the caller. Nothing here touches a file or
//! a clock except [`manage_intrusion`] and [`init_data`], which read the
//! current time and hand it to their `_at` counterparts.

use crate::schnorr_identification::bytes32_eq;
use crate::text::{decimal_digits, decimal_string};
use std::collections::HashMap;
use vstd::prelude::*;
use vstd::string::*;

verus! {

broadcast use vstd::std_specs::hash::group_hash_axioms;

/// Number of failed guesses of one key above which that key counts as compromised.
pub const CONST_KEY_GUESS_THRESHOLD: u8 = 5;

/// A rejection rate above one per this many milliseconds is a flood.
pub const CONST_MAX_RATE_PERIOD_MS: u32 = 100;

/// A rejection rate below one per this many milliseconds ends the window.
pub const CONST_MIN_RATE_PERIOD_MS: u32 = 200;

/// Number of rejections in a window that a flood must exceed.
pub const CONST_DOS_MIN_REJECTIONS: u16 = 10;

/// What is remembered about the rejected proofs of one peer.
#[derive(Clone, Copy, Debug, PartialEq, Eq, Structural)]
pub struct Intrusion {
    /// Rejections that point at a guessed private key.
    pub asym_counter: u8,
    /// Rejections that point at a guessed shared secret.
    pub sym_counter: u8,
    /// Start of the current rate window, in milliseconds since the epoch.
    pub start_timestamp: i64,
    /// Rejections counted in the current rate window.
    pub rejections: u16,
    /// Whether the current window has been recognised as a flood.
    pub dos_attack: bool,
}

/// Which of the two key counters a rejected proof advances, as
/// `(asymmetric, symmetric)`.
///
/// A proof whose Schnorr equation fails while its MAC is right was made by
/// someone who holds the shared secret but not the private key, so it counts
/// against the asymmetric key. A proof whose equation holds while its MAC is
/// wrong counts against the symmetric key. A proof that fails both is a blind
/// guess and counts against neither.
pub open spec fn spec_counter_values(schnorr_proof: bool, mac_tag: bool) -> (u8, u8) {
    if !schnorr_proof && mac_tag {
        (1u8, 0u8)
    } else if schnorr_proof && !mac_tag {
        (0u8, 1u8)
    } else {
        (0u8, 0u8)
    }
}

/// `rejections / elapsed_ms > 1 / CONST_MAX_RATE_PERIOD_MS`, in exact
/// arithmetic. A window that has lasted no time at all has an unbounded rate
/// as soon as it holds a rejection; a window that starts in the future has a
/// negative rate.
pub open spec fn rate_above_max(rejections: int, elapsed_ms: int) -> bool {
    if elapsed_ms > 0 {
        CONST_MAX_RATE_PERIOD_MS * rejections > elapsed_ms
    } else {
        elapsed_ms == 0 && rejections > 0
    }
}

/// `rejections / elapsed_ms < 1 / CONST_MIN_RATE_PERIOD_MS`, in exact
/// arithmetic, with the same reading of empty and future windows as
/// [`rate_above_max`].
pub open spec fn rate_below_min(rejections: int, elapsed_ms: int) -> bool {
    if elapsed_ms > 0 {
        CONST_MIN_RATE_PERIOD_MS * rejections < elapsed_ms
    } else {
        elapsed_ms < 0
    }
}

/// `counter + step`, held at 255.
pub open spec fn bump_u8(counter: u8, step: u8) -> u8 {
    if counter + step > u8::MAX {
        u8::MAX
    } else {
        (counter + step) as u8
    }
}

/// `counter + 1`, held at 65535.
pub open spec fn bump_u16(counter: u16) -> u16 {
    if counter == u16::MAX {
        u16::MAX
    } else {
        (counter + 1) as u16
    }
}

/// The record of a peer that has not been rejected yet, with a window that
/// opens at `now_ms`.
pub open spec fn spec_fresh_record(now_ms: i64) -> Intrusion {
    Intrusion {
        asym_counter: 0,
        sym_counter: 0,
        start_timestamp: now_ms,
        rejections: 0,
        dos_attack: false,
    }
}

/// The record after one more rejection at `now_ms`.
///
/// The key counters advance by [`spec_counter_values`] and the window's
/// rejection count by one. Then the rate over the window is judged: above the
/// maximum with more than [`CONST_DOS_MIN_REJECTIONS`] rejections, the window
/// is marked as a flood; below the minimum, a new and empty window opens at
/// `now_ms` without the mark.
pub open spec fn spec_record_rejection(
    record: Intrusion,
    schnorr_proof: bool,
    mac_tag: bool,
    now_ms: i64,
) -> Intrusion {
    let increments = spec_counter_values(schnorr_proof, mac_tag);
    let asym_counter = bump_u8(record.asym_counter, increments.0);
    let sym_counter = bump_u8(record.sym_counter, increments.1);
    let rejections = bump_u16(record.rejections);
    let elapsed = now_ms - record.start_timestamp;
    if rate_above_max(rejections as int, elapsed) && rejections > CONST_DOS_MIN_REJECTIONS {
        Intrusion {
            asym_counter,
            sym_counter,
            start_timestamp: record.start_timestamp,
            rejections,
            dos_attack: true,
        }
    } else if rate_below_min(rejections as int, elapsed) {
        Intrusion {
            asym_counter,
            sym_counter,
            start_timestamp: now_ms,
            rejections: 0,
            dos_attack: false,
        }
    } else {
        Intrusion {
            asym_counter,
            sym_counter,
            start_timestamp: record.start_timestamp,
            rejections,
            dos_attack: record.dos_attack,
        }
    }
}

/// What [`check_intrusion`] reports of a record: private key compromised,
/// shared secret compromised, flood in progress.
pub open spec fn spec_verdict(record: Intrusion) -> (bool, bool, bool) {
    (
        record.asym_counter > CONST_KEY_GUESS_THRESHOLD,
        record.sym_counter > CONST_KEY_GUESS_THRESHOLD,
        record.dos_attack,
    )
}

pub fn get_counter_values(schnorr_proof: bool, mac_tag: bool) -> (increments: (u8, u8))
    ensures
        increments == spec_counter_values(schnorr_proof, mac_tag),
{
    if !schnorr_proof && mac_tag {
        (1, 0)
    } else if schnorr_proof && !mac_tag {
        (0, 1)
    } else {
        (0, 0)
    }
}

fn add_held_u8(counter: u8, step: u8) -> (sum: u8)
    ensures
        sum == bump_u8(counter, step),
{
    if counter > u8::MAX - step {
        u8::MAX
    } else {
        counter + step
    }
}

impl Intrusion {
    /// The record after one more rejection at `now_ms`.
    pub fn record_rejection(self, schnorr_proof: bool, mac_tag: bool, now_ms: i64) -> (next:
        Intrusion)
        ensures
            next == spec_record_rejection(self, schnorr_proof, mac_tag, now_ms),
    {
        let (asym, sym) = get_counter_values(schnorr_proof, mac_tag);
        let asym_counter = add_held_u8(self.asym_counter, asym);
        let sym_counter = add_held_u8(self.sym_counter, sym);
        let rejections: u16 = if self.rejections == u16::MAX {
            u16::MAX
        } else {
            self.rejections + 1
        };
        let elapsed: i128 = now_ms as i128 - self.start_timestamp as i128;
        let count: i128 = rejections as i128;
        let max_period: i128 = CONST_MAX_RATE_PERIOD_MS as i128;
        let min_period: i128 = CONST_MIN_RATE_PERIOD_MS as i128;
        assert(max_period * count <= 100 * 65535 && min_period * count <= 200 * 65535)
            by (nonlinear_arith)
            requires
                0 <= count <= 65535,
                max_period == 100,
                min_period == 200,
        ;
        let above = if elapsed > 0 {
            max_period * count > elapsed
        } else {
            elapsed == 0 && count > 0
        };
        let below = if elapsed > 0 {
            min_period * count < elapsed
        } else {
            elapsed < 0
        };
        if above && rejections > CONST_DOS_MIN_REJECTIONS {
            Intrusion {
                asym_counter,
                sym_counter,
                start_timestamp: self.start_timestamp,
                rejections,
                dos_attack: true,
            }
        } else if below {
            Intrusion {
                asym_counter,
                sym_counter,
                start_timestamp: now_ms,
                rejections: 0,
                dos_attack: false,
            }
        } else {
            Intrusion {
                asym_counter,
                sym_counter,
                start_timestamp: self.start_timestamp,
                rejections,
                dos_attack: self.dos_attack,
            }
        }
    }
}

/// The intrusion records of all peers, by peer number.
pub struct IntrusionJournal {
    records: HashMap<u32, Intrusion>,
}

impl View for IntrusionJournal {
    type V = Map<u32, Intrusion>;

    closed spec fn view(&self) -> Map<u32, Intrusion> {
        self.records@
    }
}

impl IntrusionJournal {
    /// A journal that holds no record.
    pub fn new() -> (journal: IntrusionJournal)
        ensures
            journal@ == Map::<u32, Intrusion>::empty(),
    {
        IntrusionJournal { records: HashMap::new() }
    }

    /// The record of `sender_id`, if it has one.
    pub fn get(&self, sender_id: u32) -> (record: Option<Intrusion>)
        ensures
            record == if self@.contains_key(sender_id) {
                Some(self@[sender_id])
            } else {
                None
            },
    {
        match self.records.get(&sender_id) {
            Some(record) => Some(*record),
            None => None,
        }
    }

    /// Stores `record` as the record of `sender_id`, in place of any earlier one.
    pub fn set(&mut self, sender_id: u32, record: Intrusion)
        ensures
            final(self)@ == old(self)@.insert(sender_id, record),
    {
        self.records.insert(sender_id, record);
    }
}

/// The record that a rejection of `sender_id` at `now_ms` starts from: the
/// one in the journal, or a fresh one.
pub open spec fn spec_record_or_fresh(journal: Map<u32, Intrusion>, sender_id: u32, now_ms: i64)
    -> Intrusion {
    if journal.contains_key(sender_id) {
        journal[sender_id]
    } else {
        spec_fresh_record(now_ms)
    }
}

/// The journal after a rejected proof of `sender_id` at `now_ms`.
pub open spec fn spec_manage_intrusion(
    journal: Map<u32, Intrusion>,
    sender_id: u32,
    schnorr_proof: bool,
    mac_tag: bool,
    now_ms: i64,
) -> Map<u32, Intrusion> {
    journal.insert(
        sender_id,
        spec_record_rejection(
            spec_record_or_fresh(journal, sender_id, now_ms),
            schnorr_proof,
            mac_tag,
            now_ms,
        ),
    )
}

/// Records at time `now_ms` that a proof of `sender_id` was rejected, with the
/// outcome of its two checks. A proof that passed both is not a rejection.
pub fn manage_intrusion_at(
    journal: &mut IntrusionJournal,
    sender_id: u32,
    schnorr_proof: bool,
    mac_tag: bool,
    now_ms: i64,
)
    requires
        !(schnorr_proof && mac_tag),
    ensures
        final(journal)@ == spec_manage_intrusion(
            old(journal)@,
            sender_id,
            schnorr_proof,
            mac_tag,
            now_ms,
        ),
{
    let record = match journal.get(sender_id) {
        Some(record) => record,
        None => Intrusion {
            asym_counter: 0,
            sym_counter: 0,
            start_timestamp: now_ms,
            rejections: 0,
            dos_attack: false,
        },
    };
    journal.set(sender_id, record.record_rejection(schnorr_proof, mac_tag, now_ms));
}

/// What the journal says of `sender_id`: whether its private key or the
/// shared secret counts as compromised, and whether it is flooding. A peer
/// without a record has done none of this.
pub open spec fn spec_check_intrusion(journal: Map<u32, Intrusion>, sender_id: u32) -> (
    bool,
    bool,
    bool,
) {
    if journal.contains_key(sender_id) {
        spec_verdict(journal[sender_id])
    } else {
        (false, false, false)
    }
}

pub fn check_intrusion(journal: &IntrusionJournal, sender_id: u32) -> (verdict: (bool, bool, bool))
    ensures
        verdict == spec_check_intrusion(journal@, sender_id),
{
    match journal.get(sender_id) {
        Some(record) => (
            record.asym_counter > CONST_KEY_GUESS_THRESHOLD,
            record.sym_counter > CONST_KEY_GUESS_THRESHOLD,
            record.dos_attack,
        ),
        None => (false, false, false),
    }
}

/// The journal after the record of `sender_id` was reset at `now_ms`. A peer
/// without a record gets none.
pub open spec fn spec_init_data(journal: Map<u32, Intrusion>, sender_id: u32, now_ms: i64) -> Map<
    u32,
    Intrusion,
> {
    if journal.contains_key(sender_id) {
        journal.insert(sender_id, spec_fresh_record(now_ms))
    } else {
        journal
    }
}

/// Resets the record of `sender_id`: no failures, no flood, and a window
/// that opens at `now_ms`.
pub fn init_data_at(journal: &mut IntrusionJournal, sender_id: u32, now_ms: i64)
    ensures
        final(journal)@ == spec_init_data(old(journal)@, sender_id, now_ms),
{
    if journal.get(sender_id).is_some() {
        journal.set(
            sender_id,
            Intrusion {
                asym_counter: 0,
                sym_counter: 0,
                start_timestamp: now_ms,
                rejections: 0,
                dos_attack: false,
            },
        );
    }
}

/// Trusted: `chrono::Utc::now().timestamp_millis()`, the number of
/// milliseconds since the Unix epoch on the system clock. Nothing is claimed
/// of the value.
#[verifier::external_body]
pub(crate) fn current_time_millis() -> (now_ms: i64) {
    chrono::Utc::now().timestamp_millis()
}

/// Records that a proof of `sender_id` was rejected just now, with the outcome
/// of its two checks: [`manage_intrusion_at`] at the time the system clock
/// shows.
pub fn manage_intrusion(
    journal: &mut IntrusionJournal,
    sender_id: u32,
    schnorr_proof: bool,
    mac_tag: bool,
)
    requires
        !(schnorr_proof && mac_tag),
    ensures
        exists|now_ms: i64|
            final(journal)@ == #[trigger] spec_manage_intrusion(
                old(journal)@,
                sender_id,
                schnorr_proof,
                mac_tag,
                now_ms,
            ),
{
    let now_ms = current_time_millis();
    manage_intrusion_at(journal, sender_id, schnorr_proof, mac_tag, now_ms);
}

/// Resets the record of `sender_id` as of now: [`init_data_at`] at the time
/// the system clock shows.
pub fn init_data(journal: &mut IntrusionJournal, sender_id: u32)
    ensures
        exists|now_ms: i64|
            final(journal)@ == #[trigger] spec_init_data(old(journal)@, sender_id, now_ms),
{
    let now_ms = current_time_millis();
    init_data_at(journal, sender_id, now_ms);
}

/// Name of the file that keeps the commitments seen from `sender_id`.
pub fn get_commitments_file_path(sender_id: u32) -> (path: String)
    ensures
        path@ == ".nizk-auth/mut_comm_"@ + decimal_digits(sender_id as nat) + ".txt"@,
{
    let mut path = String::from_str(".nizk-auth/mut_comm_");
    path.append(decimal_string(sender_id).as_str());
    path.append(".txt");
    path
}

/// Name of the file that keeps the intrusion record of `sender_id`.
pub fn get_intrusion_file_path(sender_id: u32) -> (path: String)
    ensures
        path@ == ".nizk-auth/intrusion_data_"@ + decimal_digits(sender_id as nat) + ".json"@,
{
    let mut path = String::from_str(".nizk-auth/intrusion_data_");
    path.append(decimal_string(sender_id).as_str());
    path.append(".json");
    path
}

/// The byte strings of a list of commitments.
pub open spec fn commitment_bytes(entries: Seq<[u8; 32]>) -> Seq<Seq<u8>> {
    entries.map_values(|commitment: [u8; 32]| commitment@)
}

fn contains_commitment(entries: &Vec<[u8; 32]>, commitment: &[u8; 32]) -> (found: bool)
    ensures
        found == commitment_bytes(entries@).contains(commitment@),
{
    let mut i: usize = 0;
    while i < entries.len()
        invariant
            i <= entries.len(),
            forall|j: int| 0 <= j < i ==> commitment_bytes(entries@)[j] != commitment@,
        decreases entries.len() - i,
    {
        if bytes32_eq(&entries[i], commitment) {
            assert(commitment_bytes(entries@)[i as int] == commitment@);
            return true;
        }
        i += 1;
    }
    false
}

/// The commitments seen from each peer, in the order in which they first
/// arrived. Commitments are only ever added.
pub struct CommitmentLog {
    peers: HashMap<u32, Vec<[u8; 32]>>,
}

impl View for CommitmentLog {
    type V = Map<u32, Seq<Seq<u8>>>;

    closed spec fn view(&self) -> Map<u32, Seq<Seq<u8>>> {
        Map::new(
            |peer: u32| self.peers@.contains_key(peer),
            |peer: u32| commitment_bytes(self.peers@[peer]@),
        )
    }
}

/// The commitments seen from `sender_id` so far; none for a peer that the log
/// does not know.
pub open spec fn spec_observed(log: Map<u32, Seq<Seq<u8>>>, sender_id: u32) -> Seq<Seq<u8>> {
    if log.contains_key(sender_id) {
        log[sender_id]
    } else {
        Seq::empty()
    }
}

/// The log after `commitment` arrived from `sender_id`: unchanged if it was
/// seen from that peer before, else with the commitment added at the end of
/// that peer's list.
pub open spec fn spec_observe(log: Map<u32, Seq<Seq<u8>>>, sender_id: u32, commitment: Seq<u8>)
    -> Map<u32, Seq<Seq<u8>>> {
    if spec_observed(log, sender_id).contains(commitment) {
        log
    } else {
        log.insert(sender_id, spec_observed(log, sender_id).push(commitment))
    }
}

/// The log only grows: what was seen from a peer before a commitment
/// arrived is the beginning of what is seen from it afterwards, and the
/// commitment that arrived is seen from its sender afterwards.
pub proof fn lemma_log_only_grows(
    log: Map<u32, Seq<Seq<u8>>>,
    sender_id: u32,
    commitment: Seq<u8>,
    peer: u32,
)
    ensures
        spec_observed(log, peer).is_prefix_of(
            spec_observed(spec_observe(log, sender_id, commitment), peer),
        ),
        spec_observed(spec_observe(log, sender_id, commitment), sender_id).contains(commitment),
{
    let before = spec_observed(log, sender_id);
    if !before.contains(commitment) {
        assert(before.push(commitment)[before.len() as int] == commitment);
    }
}

impl CommitmentLog {
    /// A log that has seen nothing.
    pub fn new() -> (log: CommitmentLog)
        ensures
            log@ == Map::<u32, Seq<Seq<u8>>>::empty(),
    {
        let log = CommitmentLog { peers: HashMap::new() };
        assert(log@ =~= Map::<u32, Seq<Seq<u8>>>::empty());
        log
    }

    /// Whether `commitment` was seen from `sender_id` before.
    pub fn is_recorded(&self, sender_id: u32, commitment: &[u8; 32]) -> (seen: bool)
        ensures
            seen == spec_observed(self@, sender_id).contains(commitment@),
    {
        match self.peers.get(&sender_id) {
            Some(entries) => contains_commitment(entries, commitment),
            None => false,
        }
    }
}

/// Takes note of a commitment that arrived from `sender_id` and says whether
/// it is fresh. A commitment that this peer has used before is a replay: the
/// answer is `false` and the log stays as it is.
pub fn check_commitment(log: &mut CommitmentLog, sender_id: u32, commitment: [u8; 32]) -> (fresh:
    bool)
    ensures
        fresh == !spec_observed(old(log)@, sender_id).contains(commitment@),
        final(log)@ == spec_observe(old(log)@, sender_id, commitment@),
{
    if log.is_recorded(sender_id, &commitment) {
        return false;
    }
    let mut entries = match log.peers.remove(&sender_id) {
        Some(entries) => entries,
        None => Vec::new(),
    };
    let ghost before = entries@;
    assert(commitment_bytes(before) =~= spec_observed(old(log)@, sender_id));
    entries.push(commitment);
    assert(commitment_bytes(entries@) =~= commitment_bytes(before).push(commitment@));
    log.peers.insert(sender_id, entries);
    assert(log.peers@ =~= old(log).peers@.insert(sender_id, entries));
    assert(log@ =~= spec_observe(old(log)@, sender_id, commitment@));
    true
}

/// A rejected proof as the journal is told of it: the outcome of its two
/// checks, Schnorr equation first, and the time in milliseconds.
pub type Rejection = (bool, bool, i64);

/// The journal after the rejections `events` of `sender_id`, in order.
pub open spec fn spec_manage_intrusions(
    journal: Map<u32, Intrusion>,
    sender_id: u32,
    events: Seq<Rejection>,
) -> Map<u32, Intrusion>
    decreases events.len(),
{
    if events.len() == 0 {
        journal
    } else {
        spec_manage_intrusion(
            spec_manage_intrusions(journal, sender_id, events.drop_last()),
            sender_id,
            events.last().0,
            events.last().1,
            events.last().2,
        )
    }
}

/// How many of `events` had the two checks end as `schnorr_proof` and
/// `mac_tag`.
pub open spec fn count_outcomes(events: Seq<Rejection>, schnorr_proof: bool, mac_tag: bool) -> nat
    decreases events.len(),
{
    if events.len() == 0 {
        0
    } else {
        count_outcomes(events.drop_last(), schnorr_proof, mac_tag) + if events.last().0
            == schnorr_proof && events.last().1 == mac_tag {
            1nat
        } else {
            0nat
        }
    }
}

/// The smaller of `a` and `b`.
pub open spec fn min_nat(a: nat, b: nat) -> nat {
    if a <= b {
        a
    } else {
        b
    }
}

/// The two key counters of `sender_id`; zero where the journal has no
/// record of it.
pub open spec fn spec_key_counters(journal: Map<u32, Intrusion>, sender_id: u32) -> (nat, nat) {
    if journal.contains_key(sender_id) {
        (journal[sender_id].asym_counter as nat, journal[sender_id].sym_counter as nat)
    } else {
        (0, 0)
    }
}

/// One rejection advances the key counter that its outcome points at, and
/// only that one: the asymmetric counter where the equation failed under a
/// right MAC, the symmetric counter where the MAC failed under a right
/// equation, and neither where both failed. A counter that has reached 255
/// stays there.
pub proof fn lemma_rejection_classified(
    record: Intrusion,
    schnorr_proof: bool,
    mac_tag: bool,
    now_ms: i64,
)
    ensures
        ({
            let next = spec_record_rejection(record, schnorr_proof, mac_tag, now_ms);
            &&& next.asym_counter == if !schnorr_proof && mac_tag {
                bump_u8(record.asym_counter, 1)
            } else {
                record.asym_counter
            }
            &&& next.sym_counter == if schnorr_proof && !mac_tag {
                bump_u8(record.sym_counter, 1)
            } else {
                record.sym_counter
            }
        }),
{
}

/// After any rejections of `sender_id`, its asymmetric counter has advanced
/// by the number of those whose equation failed under a right MAC, and its
/// symmetric counter by the number of those whose MAC failed under a right
/// equation, each held at 255. Rejections that failed both checks advance
/// neither, and the time of a rejection does not matter.
pub proof fn lemma_key_counters_count(
    journal: Map<u32, Intrusion>,
    sender_id: u32,
    events: Seq<Rejection>,
)
    ensures
        spec_manage_intrusions(journal, sender_id, events).contains_key(sender_id)
            || events.len() == 0,
        spec_key_counters(spec_manage_intrusions(journal, sender_id, events), sender_id) == (
            min_nat(
                spec_key_counters(journal, sender_id).0 + count_outcomes(events, false, true),
                255,
            ),
            min_nat(
                spec_key_counters(journal, sender_id).1 + count_outcomes(events, true, false),
                255,
            ),
        ),
    decreases events.len(),
{
    if events.len() > 0 {
        lemma_key_counters_count(journal, sender_id, events.drop_last());
    }
}

/// More than [`CONST_KEY_GUESS_THRESHOLD`] rejections that point at a
/// guessed private key make [`check_intrusion`] report the private key of
/// `sender_id` as compromised, and likewise for the shared secret, whatever
/// else was rejected in between and whatever the journal held before.
pub proof fn lemma_repeated_guesses_reported(
    journal: Map<u32, Intrusion>,
    sender_id: u32,
    events: Seq<Rejection>,
)
    ensures
        count_outcomes(events, false, true) > CONST_KEY_GUESS_THRESHOLD ==> spec_check_intrusion(
            spec_manage_intrusions(journal, sender_id, events),
            sender_id,
        ).0,
        count_outcomes(events, true, false) > CONST_KEY_GUESS_THRESHOLD ==> spec_check_intrusion(
            spec_manage_intrusions(journal, sender_id, events),
            sender_id,
        ).1,
{
    lemma_key_counters_count(journal, sender_id, events);
}

/// Rejections that fail both checks leave both key counters of the peer as
/// they were.
pub proof fn lemma_blind_guesses_not_reported(
    journal: Map<u32, Intrusion>,
    sender_id: u32,
    events: Seq<Rejection>,
)
    requires
        count_outcomes(events, false, true) == 0,
        count_outcomes(events, true, false) == 0,
    ensures
        spec_key_counters(spec_manage_intrusions(journal, sender_id, events), sender_id)
            == spec_key_counters(journal, sender_id),
{
    lemma_key_counters_count(journal, sender_id, events);
}

/// The rejections `events` come in the order of their times, none before
/// `start_ms` and all less than `span_ms` milliseconds after it.
pub open spec fn burst_within(events: Seq<Rejection>, start_ms: i64, span_ms: int) -> bool {
    &&& forall|i: int|
        0 <= i < events.len() ==> start_ms <= (#[trigger] events[i]).2 && events[i].2 - start_ms
            < span_ms
    &&& forall|i: int, j: int|
        0 <= i <= j < events.len() ==> (#[trigger] events[i]).2 <= (#[trigger] events[j]).2
}

/// The journal holds nothing of `sender_id` that is older than `start_ms` or
/// younger than the first of `events`: it has no record of the peer, or the
/// window of its record opened in between.
pub open spec fn window_opens_with(
    journal: Map<u32, Intrusion>,
    sender_id: u32,
    events: Seq<Rejection>,
    start_ms: i64,
) -> bool {
    journal.contains_key(sender_id) ==> {
        &&& start_ms <= journal[sender_id].start_timestamp
        &&& events.len() > 0 ==> journal[sender_id].start_timestamp <= events[0].2
    }
}

/// While the rejections of a peer come within one second of the opening of
/// its window, the window moves only forward, it loses few rejections to
/// new openings, and it is marked as a flood as soon as it holds more than
/// [`CONST_DOS_MIN_REJECTIONS`] of them.
pub proof fn lemma_burst_progress(
    journal: Map<u32, Intrusion>,
    sender_id: u32,
    events: Seq<Rejection>,
    start_ms: i64,
)
    requires
        burst_within(events, start_ms, 1000),
        window_opens_with(journal, sender_id, events, start_ms),
        events.len() > 0,
    ensures
        ({
            let after = spec_manage_intrusions(journal, sender_id, events);
            let record = after[sender_id];
            &&& after.contains_key(sender_id)
            &&& start_ms <= record.start_timestamp <= events.last().2
            &&& (record.rejections == u16::MAX || 40 * record.rejections + (record.start_timestamp
                - start_ms) >= 40 * events.len())
            &&& (record.rejections > CONST_DOS_MIN_REJECTIONS ==> record.dos_attack)
        }),
    decreases events.len(),
{
    let earlier = events.drop_last();
    let before = spec_manage_intrusions(journal, sender_id, earlier);
    let now_ms = events.last().2;
    assert(events[events.len() - 1] == events.last());
    assert(start_ms <= now_ms && now_ms - start_ms < 1000);
    if earlier.len() > 0 {
        assert(burst_within(earlier, start_ms, 1000)) by {
            assert forall|i: int| 0 <= i < earlier.len() implies start_ms <= (
            #[trigger] earlier[i]).2 && earlier[i].2 - start_ms < 1000 by {
                assert(earlier[i] == events[i]);
            }
            assert forall|i: int, j: int| 0 <= i <= j < earlier.len() implies (
            #[trigger] earlier[i]).2 <= (#[trigger] earlier[j]).2 by {
                assert(earlier[i] == events[i]);
                assert(earlier[j] == events[j]);
            }
        }
        assert(earlier[0] == events[0]);
        lemma_burst_progress(journal, sender_id, earlier, start_ms);
        assert(earlier.last() == events[events.len() - 2]);
        assert(before[sender_id].start_timestamp <= now_ms);
    } else {
        assert(before == journal);
        assert(events[0] == events.last());
    }
    let record = spec_record_or_fresh(before, sender_id, now_ms);
    assert(start_ms <= record.start_timestamp <= now_ms);
    assert(earlier.len() == events.len() - 1);
    assert(record.rejections == u16::MAX || 40 * record.rejections + (record.start_timestamp
        - start_ms) >= 40 * earlier.len());
}

/// A flood is detected: thirty-five rejections of a peer within one second,
/// and so a thousand, leave its record marked as a flood, and
/// [`check_intrusion`] reports it, provided that the peer's window opened
/// within that second or the peer had no record.
pub proof fn lemma_flood_detected(
    journal: Map<u32, Intrusion>,
    sender_id: u32,
    events: Seq<Rejection>,
    start_ms: i64,
)
    requires
        burst_within(events, start_ms, 1000),
        window_opens_with(journal, sender_id, events, start_ms),
        events.len() >= 35,
    ensures
        spec_check_intrusion(spec_manage_intrusions(journal, sender_id, events), sender_id).2,
{
    lemma_burst_progress(journal, sender_id, events, start_ms);
}

/// The journal after some rejections is the journal after the first of
/// them and then the others.
pub proof fn lemma_first_rejection_first(
    journal: Map<u32, Intrusion>,
    sender_id: u32,
    events: Seq<Rejection>,
)
    requires
        events.len() > 0,
    ensures
        spec_manage_intrusions(journal, sender_id, events) == spec_manage_intrusions(
            spec_manage_intrusion(journal, sender_id, events[0].0, events[0].1, events[0].2),
            sender_id,
            events.drop_first(),
        ),
    decreases events.len(),
{
    let first = spec_manage_intrusion(journal, sender_id, events[0].0, events[0].1, events[0].2);
    if events.len() == 1 {
        assert(events.drop_last().len() == 0);
        assert(events.drop_first().len() == 0);
        assert(events.last() == events[0]);
        assert(spec_manage_intrusions(journal, sender_id, events.drop_last()) == journal);
        assert(spec_manage_intrusions(first, sender_id, events.drop_first()) == first);
    } else {
        let earlier = events.drop_last();
        let later = events.drop_first();
        lemma_first_rejection_first(journal, sender_id, earlier);
        assert(earlier[0] == events[0]);
        assert(earlier.drop_first() =~= later.drop_last());
        assert(later.last() == events.last());
    }
}

/// A flood is detected after a pause as well: where the first of thirty-six
/// rejections within one second finds a window so old that it opens a new
/// one, the record is marked as a flood at the end.
pub proof fn lemma_flood_detected_after_pause(
    journal: Map<u32, Intrusion>,
    sender_id: u32,
    events: Seq<Rejection>,
    start_ms: i64,
)
    requires
        burst_within(events, start_ms, 1000),
        events.len() >= 36,
        journal.contains_key(sender_id),
        rate_below_min(
            bump_u16(journal[sender_id].rejections) as int,
            events[0].2 - journal[sender_id].start_timestamp,
        ),
    ensures
        spec_check_intrusion(spec_manage_intrusions(journal, sender_id, events), sender_id).2,
{
    let first = spec_manage_intrusion(journal, sender_id, events[0].0, events[0].1, events[0].2);
    let later = events.drop_first();
    let opened = events[0].2;
    lemma_first_rejection_first(journal, sender_id, events);
    assert(first[sender_id].start_timestamp == opened);
    assert(burst_within(later, opened, 1000)) by {
        assert forall|i: int| 0 <= i < later.len() implies opened <= (#[trigger] later[i]).2
            && later[i].2 - opened < 1000 by {
            assert(later[i] == events[i + 1]);
            assert(events[0].2 <= events[i + 1].2);
        }
        assert forall|i: int, j: int| 0 <= i <= j < later.len() implies (#[trigger] later[i]).2 <= (
        #[trigger] later[j]).2 by {
            assert(later[i] == events[i + 1]);
            assert(later[j] == events[j + 1]);
        }
    }
    assert(later[0] == events[1]);
    assert(events[0].2 <= events[1].2);
    lemma_flood_detected(first, sender_id, later, opened);
}

} // verus!
