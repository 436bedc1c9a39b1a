//! The binary backend: counters queried from the kernel by a control request.
//!
//! The request is a header followed by an array of 64-bit values. It asks for
//! a fixed number of counters, and the kernel fills the array in the order of
//! a fixed catalog of names: the value at an index belongs to the name at the
//! same index.

use vstd::prelude::*;
use crate::errors::AcquisitionError;
use crate::snapshot::{
    lemma_pairs_table_at, lemma_pairs_table_names, names_differ, pairs_table, CounterSnapshot,
};

verus! {

/// The number of counters that a request asks for.
pub const BCH_COUNTER_NR: u16 = 100;

/// The number of names in the catalog.
pub const CATALOG_LEN: usize = 96;

/// The type byte of the control code of the request.
pub const BCH_IOCTL_MAGIC: u8 = 0xbc;

/// The number byte of the control code of the request.
pub const BCH_IOCTL_QUERY_COUNTERS: u8 = 21;

/// The bytes of the request's header: count, flags and padding.
pub const HEADER_BYTES: usize = 8;

/// The bytes of one value of the array.
pub const VALUE_BYTES: usize = 8;

/// The alignment, in bytes, of the header and of the array behind it.
pub const REQUEST_ALIGN: usize = 8;

/// The catalog: the names of the counters in the order in which the kernel
/// numbers them.
pub const BCH2_COUNTER_NAMES: [&'static str; 96] = [
    "io_read",
    "io_write",
    "io_move",
    "bucket_invalidate",
    "bucket_discard",
    "bucket_alloc",
    "bucket_alloc_fail",
    "btree_cache_scan",
    "btree_cache_reap",
    "btree_cache_cannibalize",
    "btree_cache_cannibalize_lock",
    "btree_cache_cannibalize_lock_fail",
    "btree_cache_cannibalize_unlock",
    "btree_node_write",
    "btree_node_read",
    "btree_node_compact",
    "btree_node_merge",
    "btree_node_split",
    "btree_node_rewrite",
    "btree_node_alloc",
    "btree_node_free",
    "btree_node_set_root",
    "btree_path_relock_fail",
    "btree_path_upgrade_fail",
    "btree_reserve_get_fail",
    "journal_entry_full",
    "journal_full",
    "journal_reclaim_finish",
    "journal_reclaim_start",
    "journal_write",
    "io_read_promote",
    "io_read_bounce",
    "io_read_retry",
    "io_read_split",
    "io_read_reuse_race",
    "io_move_read",
    "io_move_write",
    "io_move_finish",
    "io_move_fail",
    "io_move_start_fail",
    "copygc",
    "copygc_wait",
    "gc_gens_end",
    "gc_gens_start",
    "trans_blocked_journal_reclaim",
    "trans_restart_btree_node_reused",
    "trans_restart_btree_node_split",
    "trans_restart_fault_inject",
    "trans_restart_iter_upgrade",
    "trans_restart_journal_preres_get",
    "trans_restart_journal_reclaim",
    "trans_restart_journal_res_get",
    "trans_restart_key_cache_key_realloced",
    "trans_restart_key_cache_raced",
    "trans_restart_mark_replicas",
    "trans_restart_mem_realloced",
    "trans_restart_memory_allocation_failure",
    "trans_restart_relock",
    "trans_restart_relock_after_fill",
    "trans_restart_relock_key_cache_fill",
    "trans_restart_relock_next_node",
    "trans_restart_relock_parent_for_fill",
    "trans_restart_relock_path",
    "trans_restart_relock_path_intent",
    "trans_restart_too_many_iters",
    "trans_restart_traverse",
    "trans_restart_upgrade",
    "trans_restart_would_deadlock",
    "trans_restart_would_deadlock_write",
    "trans_restart_injected",
    "trans_restart_key_cache_upgrade",
    "trans_traverse_all",
    "transaction_commit",
    "write_super",
    "trans_restart_would_deadlock_recursion_limit",
    "trans_restart_write_buffer_flush",
    "trans_restart_split_race",
    "write_buffer_flush_slowpath",
    "write_buffer_flush_sync",
    "bucket_discard_fast",
    "io_read_inline",
    "io_read_hole",
    "io_move_write_fail",
    "io_move_created_rebalance",
    "io_move_evacuate_bucket",
    "io_read_nopromote",
    "io_read_nopromote_may_not",
    "io_read_nopromote_already_promoted",
    "io_read_nopromote_unwritten",
    "io_read_nopromote_congested",
    "io_read_nopromote_in_flight",
    "io_move_drop_only",
    "io_move_noop",
    "error_throw",
    "accounting_key_to_wb_slowpath",
    "io_read_fail_and_poison",
];

/// The catalog as a list of names.
pub open spec fn catalog() -> Seq<Seq<char>> {
    Seq::new(CATALOG_LEN as nat, |i: int| BCH2_COUNTER_NAMES@[i]@)
}

/// What tells two names of the catalog apart: the length of a name, and its
/// characters at five places.
pub open spec fn mark(name: Seq<char>) -> (nat, char, char, char, char, char) {
    (name.len(), name[4], name[10], name[12], name[14], name[26])
}

/// No name stands twice in the catalog.
pub proof fn law_catalog_names_differ()
    ensures
        forall|i: int, j: int|
            0 <= i < CATALOG_LEN && 0 <= j < CATALOG_LEN && i != j ==> catalog()[i] != catalog()[j],
{
    reveal_strlit("io_read");
    reveal_strlit("io_write");
    reveal_strlit("io_move");
    reveal_strlit("bucket_invalidate");
    reveal_strlit("bucket_discard");
    reveal_strlit("bucket_alloc");
    reveal_strlit("bucket_alloc_fail");
    reveal_strlit("btree_cache_scan");
    reveal_strlit("btree_cache_reap");
    reveal_strlit("btree_cache_cannibalize");
    reveal_strlit("btree_cache_cannibalize_lock");
    reveal_strlit("btree_cache_cannibalize_lock_fail");
    reveal_strlit("btree_cache_cannibalize_unlock");
    reveal_strlit("btree_node_write");
    reveal_strlit("btree_node_read");
    reveal_strlit("btree_node_compact");
    reveal_strlit("btree_node_merge");
    reveal_strlit("btree_node_split");
    reveal_strlit("btree_node_rewrite");
    reveal_strlit("btree_node_alloc");
    reveal_strlit("btree_node_free");
    reveal_strlit("btree_node_set_root");
    reveal_strlit("btree_path_relock_fail");
    reveal_strlit("btree_path_upgrade_fail");
    reveal_strlit("btree_reserve_get_fail");
    reveal_strlit("journal_entry_full");
    reveal_strlit("journal_full");
    reveal_strlit("journal_reclaim_finish");
    reveal_strlit("journal_reclaim_start");
    reveal_strlit("journal_write");
    reveal_strlit("io_read_promote");
    reveal_strlit("io_read_bounce");
    reveal_strlit("io_read_retry");
    reveal_strlit("io_read_split");
    reveal_strlit("io_read_reuse_race");
    reveal_strlit("io_move_read");
    reveal_strlit("io_move_write");
    reveal_strlit("io_move_finish");
    reveal_strlit("io_move_fail");
    reveal_strlit("io_move_start_fail");
    reveal_strlit("copygc");
    reveal_strlit("copygc_wait");
    reveal_strlit("gc_gens_end");
    reveal_strlit("gc_gens_start");
    reveal_strlit("trans_blocked_journal_reclaim");
    reveal_strlit("trans_restart_btree_node_reused");
    reveal_strlit("trans_restart_btree_node_split");
    reveal_strlit("trans_restart_fault_inject");
    reveal_strlit("trans_restart_iter_upgrade");
    reveal_strlit("trans_restart_journal_preres_get");
    reveal_strlit("trans_restart_journal_reclaim");
    reveal_strlit("trans_restart_journal_res_get");
    reveal_strlit("trans_restart_key_cache_key_realloced");
    reveal_strlit("trans_restart_key_cache_raced");
    reveal_strlit("trans_restart_mark_replicas");
    reveal_strlit("trans_restart_mem_realloced");
    reveal_strlit("trans_restart_memory_allocation_failure");
    reveal_strlit("trans_restart_relock");
    reveal_strlit("trans_restart_relock_after_fill");
    reveal_strlit("trans_restart_relock_key_cache_fill");
    reveal_strlit("trans_restart_relock_next_node");
    reveal_strlit("trans_restart_relock_parent_for_fill");
    reveal_strlit("trans_restart_relock_path");
    reveal_strlit("trans_restart_relock_path_intent");
    reveal_strlit("trans_restart_too_many_iters");
    reveal_strlit("trans_restart_traverse");
    reveal_strlit("trans_restart_upgrade");
    reveal_strlit("trans_restart_would_deadlock");
    reveal_strlit("trans_restart_would_deadlock_write");
    reveal_strlit("trans_restart_injected");
    reveal_strlit("trans_restart_key_cache_upgrade");
    reveal_strlit("trans_traverse_all");
    reveal_strlit("transaction_commit");
    reveal_strlit("write_super");
    reveal_strlit("trans_restart_would_deadlock_recursion_limit");
    reveal_strlit("trans_restart_write_buffer_flush");
    reveal_strlit("trans_restart_split_race");
    reveal_strlit("write_buffer_flush_slowpath");
    reveal_strlit("write_buffer_flush_sync");
    reveal_strlit("bucket_discard_fast");
    reveal_strlit("io_read_inline");
    reveal_strlit("io_read_hole");
    reveal_strlit("io_move_write_fail");
    reveal_strlit("io_move_created_rebalance");
    reveal_strlit("io_move_evacuate_bucket");
    reveal_strlit("io_read_nopromote");
    reveal_strlit("io_read_nopromote_may_not");
    reveal_strlit("io_read_nopromote_already_promoted");
    reveal_strlit("io_read_nopromote_unwritten");
    reveal_strlit("io_read_nopromote_congested");
    reveal_strlit("io_read_nopromote_in_flight");
    reveal_strlit("io_move_drop_only");
    reveal_strlit("io_move_noop");
    reveal_strlit("error_throw");
    reveal_strlit("accounting_key_to_wb_slowpath");
    reveal_strlit("io_read_fail_and_poison");
    assert forall|i: int, j: int|
        0 <= i < CATALOG_LEN && 0 <= j < CATALOG_LEN && i != j implies mark(catalog()[i]) != mark(
        catalog()[j],
    ) by {}
}

/// The name at index `i` of the catalog.
pub fn catalog_name(i: usize) -> (r: &'static str)
    requires
        i < CATALOG_LEN,
    ensures
        r@ == catalog()[i as int],
{
    BCH2_COUNTER_NAMES[i]
}

/// A control request or its answer: the header, and the array that follows
/// it in memory.
#[derive(Clone, Debug, PartialEq, Eq)]
pub struct QueryCounters {
    /// The number of values in the array.
    pub nr: u16,
    pub flags: u16,
    pub pad: u32,
    /// The array of values.
    pub d: Vec<u64>,
}

/// The bytes that a request for `nr` counters takes: the header, then `nr`
/// values.
pub open spec fn request_bytes(nr: u16) -> nat {
    (HEADER_BYTES + nr * VALUE_BYTES) as nat
}

impl QueryCounters {
    /// The request as it is before the exchange: it asks for
    /// `BCH_COUNTER_NR` counters, and all the rest of it is zero.
    pub open spec fn is_request(&self) -> bool {
        &&& self.nr == BCH_COUNTER_NR
        &&& self.flags == 0
        &&& self.pad == 0
        &&& self.d@.len() == BCH_COUNTER_NR
        &&& forall|i: int| 0 <= i < self.d@.len() ==> self.d@[i] == 0
    }

    /// The answer holds as many values as the request asked for, and says so.
    pub open spec fn is_complete(&self) -> bool {
        self.nr == BCH_COUNTER_NR && self.d@.len() == BCH_COUNTER_NR
    }

    /// The request to send.
    pub fn request() -> (r: Self)
        ensures
            r.is_request(),
    {
        let mut d: Vec<u64> = Vec::new();
        let mut i: u16 = 0;
        while i < BCH_COUNTER_NR
            invariant
                i <= BCH_COUNTER_NR,
                d@.len() == i,
                forall|j: int| 0 <= j < d@.len() ==> d@[j] == 0,
            decreases BCH_COUNTER_NR - i,
        {
            d.push(0);
            i += 1;
        }
        QueryCounters { nr: BCH_COUNTER_NR, flags: 0, pad: 0, d }
    }

    /// The number of values to read from the memory of an answer whose header
    /// counts `declared` values, where the request made room for `room`:
    /// what the header counts, but never more than there is room for.
    pub fn values_held(declared: u16, room: usize) -> (n: usize)
        ensures
            n == if declared <= room {
                declared as usize
            } else {
                room
            },
    {
        let counted: usize = declared as usize;
        if counted <= room {
            counted
        } else {
            room
        }
    }

    /// The bytes of memory that the exchange works on: the header, then as
    /// many values as the header counts.
    pub fn size_in_bytes(&self) -> (n: usize)
        ensures
            n == request_bytes(self.nr),
    {
        let values: usize = self.nr as usize;
        HEADER_BYTES + values * VALUE_BYTES
    }
}

/// How the exchange with the kernel went.
#[derive(Clone, Debug, PartialEq, Eq)]
pub enum Exchange {
    /// The target could not be opened.
    OpenFailed { errno: i32 },
    /// The target was opened and the control request failed.
    RequestFailed { errno: i32 },
    /// The kernel answered.
    Answered(QueryCounters),
}

/// The names of the catalog, each with the value at its index, as far as
/// both reach.
pub open spec fn positional_pairs(values: Seq<u64>) -> Seq<(Seq<char>, u128)> {
    Seq::new(
        if values.len() < catalog().len() {
            values.len()
        } else {
            catalog().len()
        },
        |i: int| (catalog()[i], values[i] as u128),
    )
}

/// The snapshot that an exchange gives, or the error that it ends in.
pub open spec fn processed(exchange: Exchange) -> Result<Map<Seq<char>, u128>, AcquisitionError> {
    match exchange {
        Exchange::OpenFailed { errno } => Err(AcquisitionError::Io { errno }),
        Exchange::RequestFailed { errno } => Err(AcquisitionError::ControlRequestFailed { errno }),
        Exchange::Answered(answer) => if answer.is_complete() {
            Ok(pairs_table(positional_pairs(answer.d@)))
        } else {
            Err(
                AcquisitionError::CountMismatch {
                    expected: BCH_COUNTER_NR,
                    declared: answer.nr,
                    received: answer.d@.len() as usize,
                },
            )
        },
    }
}

/// Values are matched to names by position: the snapshot of a list of values
/// holds the names of the catalog as far as the values reach and no others,
/// and each of these names has the value at its own index.
pub proof fn law_values_by_position(values: Seq<u64>)
    ensures
        forall|k: Seq<char>|
            pairs_table(positional_pairs(values)).dom().contains(k) <==> exists|i: int|
                0 <= i < CATALOG_LEN && i < values.len() && #[trigger] catalog()[i] == k,
        forall|i: int|
            0 <= i < CATALOG_LEN && i < values.len() ==> pairs_table(positional_pairs(values))[
                #[trigger] catalog()[i]
            ] == values[i],
{
    let pairs = positional_pairs(values);
    law_catalog_names_differ();
    lemma_pairs_table_names(pairs);
    assert forall|k: Seq<char>|
        pairs_table(pairs).dom().contains(k) <==> exists|i: int|
            0 <= i < CATALOG_LEN && i < values.len() && #[trigger] catalog()[i] == k by {
        if pairs_table(pairs).dom().contains(k) {
            let i = choose|i: int| 0 <= i < pairs.len() && (#[trigger] pairs[i]).0 == k;
            assert(catalog()[i] == k);
        }
        if exists|i: int| 0 <= i < CATALOG_LEN && i < values.len() && #[trigger] catalog()[i] == k {
            let i = choose|i: int|
                0 <= i < CATALOG_LEN && i < values.len() && #[trigger] catalog()[i] == k;
            assert(pairs[i].0 == k);
        }
    }
    assert forall|i: int| 0 <= i < CATALOG_LEN && i < values.len() implies pairs_table(pairs)[
        #[trigger] catalog()[i]
    ] == values[i] by {
        assert(names_differ(pairs));
        lemma_pairs_table_at(pairs, i);
    }
}

/// A full answer gives every name of the catalog the value at its own index:
/// the snapshot holds the names of the catalog and no others, as many
/// counters as the catalog has names, and under the name at an index the
/// value that the answer holds at that index.
pub proof fn law_full_answer_by_position(answer: QueryCounters)
    requires
        answer.is_complete(),
    ensures
        processed(Exchange::Answered(answer)) is Ok,
        forall|k: Seq<char>|
            processed(Exchange::Answered(answer))->Ok_0.dom().contains(k) <==> catalog().contains(
                k,
            ),
        forall|i: int|
            0 <= i < CATALOG_LEN ==> processed(Exchange::Answered(answer))->Ok_0[
                #[trigger] catalog()[i]
            ] == answer.d@[i],
        processed(Exchange::Answered(answer))->Ok_0.dom().finite(),
        processed(Exchange::Answered(answer))->Ok_0.dom().len() == CATALOG_LEN,
{
    let m = processed(Exchange::Answered(answer))->Ok_0;
    law_values_by_position(answer.d@);
    law_catalog_names_differ();
    assert forall|k: Seq<char>| m.dom().contains(k) <==> catalog().contains(k) by {
        if m.dom().contains(k) {
            let i = choose|i: int|
                0 <= i < CATALOG_LEN && i < answer.d@.len() && #[trigger] catalog()[i] == k;
            assert(catalog()[i] == k);
        }
        if catalog().contains(k) {
            let i = catalog().index_of(k);
            assert(0 <= i < CATALOG_LEN && i < answer.d@.len() && catalog()[i] == k);
        }
    }
    assert(m.dom() =~= catalog().to_set());
    assert(catalog().no_duplicates());
    catalog().unique_seq_to_set();
}

/// The snapshot of the values that the kernel answered with, each under the
/// name at its index of the catalog.
pub fn name_values(values: &Vec<u64>) -> (r: CounterSnapshot)
    ensures
        r@ == pairs_table(positional_pairs(values@)),
{
    let mut r = CounterSnapshot::new();
    let n: usize = if values.len() < CATALOG_LEN {
        values.len()
    } else {
        CATALOG_LEN
    };
    let mut i: usize = 0;
    let ghost pairs = positional_pairs(values@);
    assert(pairs.take(0) =~= Seq::empty());
    while i < n
        invariant
            i <= n,
            n == pairs.len(),
            n <= CATALOG_LEN,
            n <= values@.len(),
            pairs == positional_pairs(values@),
            r@ == pairs_table(pairs.take(i as int)),
        decreases n - i,
    {
        let value: u128 = values[i] as u128;
        proof {
            assert(pairs.take(i + 1).drop_last() =~= pairs.take(i as int));
            assert(pairs.take(i + 1).last() == (catalog()[i as int], value));
        }
        r.insert(catalog_name(i).to_owned(), value);
        i += 1;
    }
    assert(pairs.take(n as int) =~= pairs);
    r
}

/// Turns the outcome of an exchange into a snapshot.
///
/// An exchange that failed gives the error of the step that failed. An answer
/// is taken only if it holds `BCH_COUNTER_NR` values and its header says so:
/// a shorter one is an error, and no part of it is used.
pub fn process_counters(exchange: &Exchange) -> (r: Result<CounterSnapshot, AcquisitionError>)
    ensures
        match (r, processed(*exchange)) {
            (Ok(snapshot), Ok(wanted)) => snapshot@ == wanted,
            (Err(e), Err(wanted)) => e == wanted,
            _ => false,
        },
{
    match exchange {
        Exchange::OpenFailed { errno } => Err(AcquisitionError::Io { errno: *errno }),
        Exchange::RequestFailed { errno } => Err(
            AcquisitionError::ControlRequestFailed { errno: *errno },
        ),
        Exchange::Answered(answer) => {
            if answer.nr == BCH_COUNTER_NR && answer.d.len() == BCH_COUNTER_NR as usize {
                Ok(name_values(&answer.d))
            } else {
                Err(
                    AcquisitionError::CountMismatch {
                        expected: BCH_COUNTER_NR,
                        declared: answer.nr,
                        received: answer.d.len(),
                    },
                )
            }
        },
    }
}

} // verus!
