//! The record of statistics that a device reports.

use vstd::prelude::*;

verus! {

/// The number of 64-bit words that `VdevStats` holds.
pub const VDEV_STATS_WORDS: usize = 47;

/// The statistics of one device, as the array of 64-bit words that the
/// kernel reports them in: the fields stand in the order of the words.
#[derive(Debug, Clone, Copy, PartialEq, Eq)]
pub struct VdevStats {
    pub timestamp: u64,
    pub state: u64,
    pub aux: u64,
    pub alloc: u64,
    pub space: u64,
    pub dspace: u64,
    pub rsize: u64,
    pub esize: u64,
    /// Operation counts, one for each kind of I/O.
    pub ops: [u64; 6],
    /// Byte counts, one for each kind of I/O.
    pub bytes: [u64; 6],
    pub read_errors: u64,
    pub write_errors: u64,
    pub checksum_errors: u64,
    pub initialize_errors: u64,
    pub self_healed: u64,
    pub scan_removing: u64,
    pub scan_processed: u64,
    pub fragmentation: u64,
    pub initialize_bytes_done: u64,
    pub initialize_bytes_est: u64,
    pub initialize_state: u64,
    pub initialize_action_time: u64,
    pub checkpoint_space: u64,
    pub resilver_deferred: u64,
    pub slow_ios: u64,
    pub trim_errors: u64,
    pub trim_notsup: u64,
    pub trim_bytes_done: u64,
    pub trim_bytes_est: u64,
    pub trim_state: u64,
    pub trim_action_time: u64,
    pub rebuild_processed: u64,
    pub configured_ashift: u64,
    pub logical_ashift: u64,
    pub physical_ashift: u64,
    pub noalloc: u64,
    pub pspace: u64,
}

/// The word of `s` at position `i`, or zero where `s` has no such word.
pub open spec fn word_at(s: Seq<u64>, i: int) -> u64 {
    if 0 <= i < s.len() {
        s[i]
    } else {
        0
    }
}

/// The word of `s` at position `i`, or zero where `s` has no such word.
fn word(s: &[u64], i: usize) -> (r: u64)
    ensures
        r == word_at(s@, i as int),
{
    if i < s.len() {
        s[i]
    } else {
        0
    }
}

impl VdevStats {
    /// The record whose fields are the words of `s` in order. A field for
    /// which `s` has no word is zero, and words beyond the last field are
    /// not used.
    pub open spec fn spec_from(s: Seq<u64>) -> VdevStats {
        VdevStats {
            timestamp: word_at(s, 0),
            state: word_at(s, 1),
            aux: word_at(s, 2),
            alloc: word_at(s, 3),
            space: word_at(s, 4),
            dspace: word_at(s, 5),
            rsize: word_at(s, 6),
            esize: word_at(s, 7),
            ops: [word_at(s, 8), word_at(s, 9), word_at(s, 10), word_at(s, 11), word_at(s, 12), word_at(s, 13)],
            bytes: [word_at(s, 14), word_at(s, 15), word_at(s, 16), word_at(s, 17), word_at(s, 18), word_at(s, 19)],
            read_errors: word_at(s, 20),
            write_errors: word_at(s, 21),
            checksum_errors: word_at(s, 22),
            initialize_errors: word_at(s, 23),
            self_healed: word_at(s, 24),
            scan_removing: word_at(s, 25),
            scan_processed: word_at(s, 26),
            fragmentation: word_at(s, 27),
            initialize_bytes_done: word_at(s, 28),
            initialize_bytes_est: word_at(s, 29),
            initialize_state: word_at(s, 30),
            initialize_action_time: word_at(s, 31),
            checkpoint_space: word_at(s, 32),
            resilver_deferred: word_at(s, 33),
            slow_ios: word_at(s, 34),
            trim_errors: word_at(s, 35),
            trim_notsup: word_at(s, 36),
            trim_bytes_done: word_at(s, 37),
            trim_bytes_est: word_at(s, 38),
            trim_state: word_at(s, 39),
            trim_action_time: word_at(s, 40),
            rebuild_processed: word_at(s, 41),
            configured_ashift: word_at(s, 42),
            logical_ashift: word_at(s, 43),
            physical_ashift: word_at(s, 44),
            noalloc: word_at(s, 45),
            pspace: word_at(s, 46),
        }
    }

    /// The words that the record holds, in order.
    pub open spec fn words(self) -> Seq<u64> {
        seq![
            self.timestamp,
            self.state,
            self.aux,
            self.alloc,
            self.space,
            self.dspace,
            self.rsize,
            self.esize,
            self.ops[0],
            self.ops[1],
            self.ops[2],
            self.ops[3],
            self.ops[4],
            self.ops[5],
            self.bytes[0],
            self.bytes[1],
            self.bytes[2],
            self.bytes[3],
            self.bytes[4],
            self.bytes[5],
            self.read_errors,
            self.write_errors,
            self.checksum_errors,
            self.initialize_errors,
            self.self_healed,
            self.scan_removing,
            self.scan_processed,
            self.fragmentation,
            self.initialize_bytes_done,
            self.initialize_bytes_est,
            self.initialize_state,
            self.initialize_action_time,
            self.checkpoint_space,
            self.resilver_deferred,
            self.slow_ios,
            self.trim_errors,
            self.trim_notsup,
            self.trim_bytes_done,
            self.trim_bytes_est,
            self.trim_state,
            self.trim_action_time,
            self.rebuild_processed,
            self.configured_ashift,
            self.logical_ashift,
            self.physical_ashift,
            self.noalloc,
            self.pspace,
        ]
    }

    /// A record holds the words it was made from, as far as there were any,
    /// and zeros after them.
    pub proof fn lemma_words_of_from(s: Seq<u64>)
        ensures
            Self::spec_from(s).words().len() == VDEV_STATS_WORDS,
            forall|i: int|
                0 <= i < VDEV_STATS_WORDS ==> #[trigger] Self::spec_from(s).words()[i] == word_at(
                    s,
                    i,
                ),
    {
    }
}

impl Default for VdevStats {
    /// The record of zeros.
    fn default() -> (r: VdevStats)
        ensures
            r == VdevStats::spec_from(Seq::empty()),
    {
        let s: [u64; 0] = [];
        VdevStats::from(s.as_slice())
    }
}

impl<'a> From<&'a [u64]> for VdevStats {
    /// Makes the record from the words of `s` in order. A field for which
    /// `s` has no word is zero, and words beyond the last field are not
    /// used.
    fn from(s: &'a [u64]) -> (r: VdevStats) {
        VdevStats {
            timestamp: word(s, 0),
            state: word(s, 1),
            aux: word(s, 2),
            alloc: word(s, 3),
            space: word(s, 4),
            dspace: word(s, 5),
            rsize: word(s, 6),
            esize: word(s, 7),
            ops: [word(s, 8), word(s, 9), word(s, 10), word(s, 11), word(s, 12), word(s, 13)],
            bytes: [word(s, 14), word(s, 15), word(s, 16), word(s, 17), word(s, 18), word(s, 19)],
            read_errors: word(s, 20),
            write_errors: word(s, 21),
            checksum_errors: word(s, 22),
            initialize_errors: word(s, 23),
            self_healed: word(s, 24),
            scan_removing: word(s, 25),
            scan_processed: word(s, 26),
            fragmentation: word(s, 27),
            initialize_bytes_done: word(s, 28),
            initialize_bytes_est: word(s, 29),
            initialize_state: word(s, 30),
            initialize_action_time: word(s, 31),
            checkpoint_space: word(s, 32),
            resilver_deferred: word(s, 33),
            slow_ios: word(s, 34),
            trim_errors: word(s, 35),
            trim_notsup: word(s, 36),
            trim_bytes_done: word(s, 37),
            trim_bytes_est: word(s, 38),
            trim_state: word(s, 39),
            trim_action_time: word(s, 40),
            rebuild_processed: word(s, 41),
            configured_ashift: word(s, 42),
            logical_ashift: word(s, 43),
            physical_ashift: word(s, 44),
            noalloc: word(s, 45),
            pspace: word(s, 46),
        }
    }
}

impl<'a> vstd::std_specs::convert::FromSpecImpl<&'a [u64]> for VdevStats {
    open spec fn obeys_from_spec() -> bool {
        true
    }

    open spec fn from_spec(s: &'a [u64]) -> VdevStats {
        VdevStats::spec_from(s@)
    }
}

} // verus!
