//! Journal replication across failure domains: when a write counts as committed under each
//! replication mode, and which records a set of replica journals holds by quorum.
use vstd::prelude::*;

use crate::slots::{first_index, lemma_first_index, lemma_first_index_is, lemma_first_index_none};
use crate::wal::WalRecord;
use vstd::set_lib::{lemma_int_range, lemma_len_subset, set_int_range};

verus! {

/// How journal writes are replicated before acknowledgement.
#[derive(Debug, Clone, Copy, PartialEq, Eq, Structural)]
pub enum ReplicationMode {
    /// Local disk only.
    LocalOnly,
    /// Synchronous quorum: `required_acks` of `total_nodes` nodes, primary included.
    SynchronousQuorum {
        /// Nodes in the replication group.
        total_nodes: usize,
        /// Acknowledgements required before commit.
        required_acks: usize,
    },
    /// Local confirmation with best-effort mirroring.
    AsynchronousMirror,
}

impl Default for ReplicationMode {
    /// Local disk only.
    fn default() -> (m: Self)
        ensures
            m == ReplicationMode::LocalOnly,
    {
        ReplicationMode::LocalOnly
    }
}

/// Whether a write acknowledged by `acks` nodes (the primary included) is committed under
/// `mode`: always for local and asynchronous modes, with enough acknowledgements for a quorum.
pub fn commit_confirmed(mode: ReplicationMode, acks: usize) -> (b: bool)
    ensures
        b == match mode {
            ReplicationMode::SynchronousQuorum { required_acks, .. } => acks >= required_acks,
            _ => true,
        },
{
    match mode {
        ReplicationMode::SynchronousQuorum { required_acks, .. } => acks >= required_acks,
        _ => true,
    }
}

/// All records of all replica journals, replica by replica.
pub open spec fn all_records(logs: Seq<Seq<WalRecord>>) -> Seq<WalRecord>
    decreases logs.len(),
{
    if logs.len() == 0 {
        Seq::empty()
    } else {
        all_records(logs.drop_last()) + logs.last()
    }
}

/// Record predicate: the record has sequence number `lsn`.
pub open spec fn has_lsn(lsn: int) -> spec_fn(WalRecord) -> bool {
    |r: WalRecord| r.lsn == lsn
}

/// Number of copies of sequence number `lsn` among `rs`.
pub open spec fn copies(rs: Seq<WalRecord>, lsn: int) -> nat
    decreases rs.len(),
{
    if rs.len() == 0 {
        0
    } else {
        copies(rs.drop_last(), lsn) + if rs.last().lsn == lsn { 1nat } else { 0nat }
    }
}

/// Records committed from sequence number `j` on: consecutive sequence numbers, each with at
/// least `required` copies, represented by their first copy.
pub open spec fn quorum_run(rs: Seq<WalRecord>, required: nat, j: int) -> Seq<WalRecord>
    decreases rs.len() + 1 - j,
{
    if j < 1 || j > rs.len() || copies(rs, j) < required {
        Seq::empty()
    } else {
        seq![rs[first_index(rs, has_lsn(j))]] + quorum_run(rs, required, j + 1)
    }
}

/// Records committed across replica journals holding `logs`.
pub open spec fn quorum_committed(logs: Seq<Seq<WalRecord>>, required: nat) -> Seq<WalRecord> {
    if logs.len() == 0 || required == 0 {
        Seq::empty()
    } else {
        quorum_run(all_records(logs), required, 1)
    }
}

proof fn lemma_copies_positive_has_index(rs: Seq<WalRecord>, lsn: int)
    requires
        copies(rs, lsn) > 0,
    ensures
        first_index(rs, has_lsn(lsn)) >= 0,
    decreases rs.len(),
{
    lemma_first_index(rs, has_lsn(lsn));
    if rs.last().lsn != lsn {
        lemma_copies_positive_has_index(rs.drop_last(), lsn);
        lemma_first_index(rs.drop_last(), has_lsn(lsn));
        let k = first_index(rs.drop_last(), has_lsn(lsn));
        assert(rs[k] == rs.drop_last()[k]);
    } else {
        assert(has_lsn(lsn)(rs[rs.len() - 1]));
    }
}

/// Sequence numbers that occur among `rs`, as integers.
pub open spec fn lsn_set(rs: Seq<WalRecord>) -> Set<int> {
    rs.map_values(|r: WalRecord| r.lsn as int).to_set()
}

/// Pigeonhole: if every sequence number from 1 to `k` occurs among `rs`, there are at least
/// `k` records.
proof fn lemma_run_bounded_by_records(rs: Seq<WalRecord>, k: int)
    requires
        k >= 0,
        forall|j: int| 1 <= j <= k ==> #[trigger] copies(rs, j) > 0,
    ensures
        k <= rs.len(),
{
    let lsns = rs.map_values(|r: WalRecord| r.lsn as int);
    assert forall|j: int| #[trigger] set_int_range(1, k + 1).contains(j) implies lsn_set(rs).contains(j) by {
        lemma_copies_positive_has_index(rs, j);
        lemma_first_index(rs, has_lsn(j));
        let i = first_index(rs, has_lsn(j));
        assert(lsns[i] == j);
    }
    lemma_int_range(1, k + 1);
    lsns.lemma_cardinality_of_set();
    vstd::seq_lib::seq_to_set_is_finite(lsns);
    lemma_len_subset(set_int_range(1, k + 1), lsn_set(rs));
}

/// The records committed from `j` on are characterised without the bound on `j`: each
/// carries the next sequence number and the run stops at the first one short of a quorum.
proof fn lemma_quorum_run_shape(rs: Seq<WalRecord>, required: nat, j: int)
    requires
        required >= 1,
        j >= 1,
        forall|i: int| 1 <= i < j ==> #[trigger] copies(rs, i) >= required,
    ensures
        ({
            let run = quorum_run(rs, required, j);
            &&& forall|i: int|
                0 <= i < run.len() ==> #[trigger] copies(rs, j + i) >= required && run[i] == rs[first_index(
                    rs,
                    has_lsn(j + i),
                )]
            &&& copies(rs, j + run.len()) < required
        }),
    decreases rs.len() + 1 - j,
{
    if j > rs.len() {
        if copies(rs, j) >= required {
            lemma_run_bounded_by_records(rs, j);
        }
    } else if copies(rs, j) >= required {
        lemma_quorum_run_shape(rs, required, j + 1);
        let run = quorum_run(rs, required, j);
        let rest = quorum_run(rs, required, j + 1);
        assert forall|i: int| 0 <= i < run.len() implies #[trigger] copies(rs, j + i) >= required
            && run[i] == rs[first_index(rs, has_lsn(j + i))] by {
            if i > 0 {
                assert(run[i] == rest[i - 1]);
                assert(copies(rs, (j + 1) + (i - 1)) >= required);
            }
        }
    }
}

fn count_copies(rs: &Vec<WalRecord>, lsn: u64) -> (n: usize)
    ensures
        n == copies(rs@, lsn as int),
{
    let mut n: usize = 0;
    let mut i: usize = 0;
    while i < rs.len()
        invariant
            i <= rs@.len(),
            n == copies(rs@.take(i as int), lsn as int),
            n <= i,
        decreases rs@.len() - i,
    {
        assert(rs@.take(i + 1).drop_last() =~= rs@.take(i as int));
        if rs[i].lsn == lsn {
            n = n + 1;
        }
        i = i + 1;
    }
    assert(rs@.take(rs@.len() as int) =~= rs@);
    n
}

fn first_copy(rs: &Vec<WalRecord>, lsn: u64) -> (k: usize)
    requires
        first_index(rs@, has_lsn(lsn as int)) >= 0,
    ensures
        k == first_index(rs@, has_lsn(lsn as int)),
        k < rs@.len(),
{
    let ghost p = has_lsn(lsn as int);
    proof {
        lemma_first_index(rs@, p);
    }
    let mut i: usize = 0;
    while i < rs.len()
        invariant
            i <= rs@.len(),
            p == has_lsn(lsn as int),
            first_index(rs@, p) >= 0,
            forall|j: int| 0 <= j < i ==> !p(#[trigger] rs@[j]),
        decreases rs@.len() - i,
    {
        if rs[i].lsn == lsn {
            proof {
                lemma_first_index_is(rs@, p, i as int);
            }
            return i;
        }
        i = i + 1;
    }
    proof {
        lemma_first_index_none(rs@, p);
    }
    0
}

/// Merges the journals recovered from each replica: a sequence number is committed when at
/// least `required_acks` copies of it were recovered; committed records are returned from
/// sequence number 1 upward, each as its first recovered copy, and recovery stops at the
/// first sequence number short of a quorum. No replicas, or a quorum of zero, recovers nothing.
pub fn merge_quorum_logs(replica_logs: &[Vec<WalRecord>], required_acks: usize) -> (committed: Vec<
    WalRecord,
>)
    ensures
        committed@ == quorum_committed(replica_logs@.map_values(|v: Vec<WalRecord>| v@), required_acks as nat),
{
    let ghost logs = replica_logs@.map_values(|v: Vec<WalRecord>| v@);
    if replica_logs.len() == 0 || required_acks == 0 {
        return Vec::new();
    }
    let mut all: Vec<WalRecord> = Vec::new();
    let mut i: usize = 0;
    while i < replica_logs.len()
        invariant
            i <= replica_logs@.len(),
            logs == replica_logs@.map_values(|v: Vec<WalRecord>| v@),
            all@ == all_records(logs.take(i as int)),
        decreases replica_logs@.len() - i,
    {
        assert(logs.take(i + 1).drop_last() =~= logs.take(i as int));
        let log = &replica_logs[i];
        let ghost before = all@;
        let mut j: usize = 0;
        while j < log.len()
            invariant
                j <= log@.len(),
                all@ == before + log@.take(j as int),
            decreases log@.len() - j,
        {
            all.push(log[j]);
            assert(all@ =~= before + log@.take(j + 1));
            j = j + 1;
        }
        assert(log@.take(log@.len() as int) =~= log@);
        assert(logs.take(i + 1).last() == log@);
        i = i + 1;
    }
    assert(logs.take(replica_logs@.len() as int) =~= logs);
    let ghost rs = all@;
    let n = all.len();
    let mut committed: Vec<WalRecord> = Vec::new();
    let mut done: usize = 0;
    while done < n && count_copies(&all, (done + 1) as u64) >= required_acks
        invariant
            rs == all@,
            n == rs.len(),
            required_acks >= 1,
            done <= n,
            committed@ + quorum_run(rs, required_acks as nat, done + 1) == quorum_run(
                rs,
                required_acks as nat,
                1,
            ),
        decreases n - done,
    {
        let lsn = (done + 1) as u64;
        proof {
            lemma_copies_positive_has_index(rs, lsn as int);
        }
        let k = first_copy(&all, lsn);
        let ghost tail = quorum_run(rs, required_acks as nat, done + 2);
        assert(quorum_run(rs, required_acks as nat, done + 1) == seq![rs[k as int]] + tail);
        assert(committed@.push(rs[k as int]) + tail =~= committed@ + (seq![rs[k as int]] + tail));
        committed.push(all[k]);
        done = done + 1;
    }
    proof {
        if done < n {
            assert(copies(rs, done + 1) < required_acks);
        }
        assert(quorum_run(rs, required_acks as nat, done + 1) =~= Seq::<WalRecord>::empty());
    }
    assert(committed@ + Seq::<WalRecord>::empty() =~= committed@);
    committed
}

/// Quorum recovery keeps exactly the committed prefix: every returned record carries the next
/// sequence number from 1 and was recovered from at least `required` journals' worth of
/// copies, and the sequence number after the last one returned lacks a quorum.
pub proof fn lemma_quorum_committed_prefix(logs: Seq<Seq<WalRecord>>, required: nat)
    requires
        logs.len() > 0,
        required >= 1,
    ensures
        ({
            let rs = all_records(logs);
            let c = quorum_committed(logs, required);
            &&& forall|i: int|
                0 <= i < c.len() ==> (#[trigger] c[i]).lsn == i + 1 && copies(rs, i + 1) >= required
            &&& copies(rs, c.len() + 1int) < required
        }),
{
    let rs = all_records(logs);
    lemma_quorum_run_shape(rs, required, 1);
    let c = quorum_committed(logs, required);
    assert(c == quorum_run(rs, required, 1));
    assert(copies(rs, 1int + c.len()) < required);
    assert forall|i: int| 0 <= i < c.len() implies (#[trigger] c[i]).lsn == i + 1 && copies(
        rs,
        i + 1,
    ) >= required by {
        assert(copies(rs, 1 + i) >= required);
        let k = first_index(rs, has_lsn(1 + i));
        assert(c[i] == rs[k]);
        lemma_copies_positive_has_index(rs, 1 + i);
        lemma_first_index(rs, has_lsn(1 + i));
        assert(has_lsn(1 + i)(rs[k]));
    }
}

} // verus!
