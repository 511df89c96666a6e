//! Global state and the commit of a deploy's transforms log.
//!
//! One executed deploy yields an ordered log of per-key transforms. Commit
//! is the only operation that mutates global state: it applies the log's
//! entries left to right, all or nothing, and records the deploy identifier
//! so that re-applying an already-committed log changes nothing (retry
//! safety across a crash between "commit decided" and "commit durable").
//! Any failing entry aborts the whole commit with a typed error and leaves
//! the state exactly as it was.

use vstd::prelude::*;

use vstd::hash_map::HashMapWithView;
use vstd::hash_set::HashSetWithView;

use crate::transform::{StoredValue, Transform, TransformView, ValueView};
use crate::u512::u512_bound;

verus! {

/// Why a commit was rejected. `NotFound` is an accumulation aimed at an
/// absent key, `TypeMismatch` one aimed at a non-numeric value, `Overflow` a
/// sum beyond the 512-bit width. A rejected commit changes nothing.
#[derive(Debug, Clone, Copy, PartialEq, Eq, Structural)]
pub enum CommitError {
    TypeMismatch,
    Overflow,
    NotFound,
}

/// The mathematical content of global state: the value denoted at each live
/// key, and the set of deploy identifiers whose logs have been committed.
#[verifier::ext_equal]
pub struct StateView {
    pub data: Map<u64, ValueView>,
    pub committed: Set<u64>,
}

/// What one log entry does to the state's content: a tracked read changes
/// nothing, a write binds the key, an accumulation requires a numeric value
/// already at the key and adds to it.
pub open spec fn spec_apply_one(
    m: Map<u64, ValueView>,
    key: u64,
    t: TransformView,
) -> Result<Map<u64, ValueView>, CommitError> {
    match t {
        TransformView::Identity => Ok(m),
        TransformView::Write(v) => Ok(m.insert(key, v)),
        TransformView::AddUInt512(d) => if m.dom().contains(key) {
            match m[key] {
                ValueView::UInt512(n) => if n + d < u512_bound() {
                    Ok(m.insert(key, ValueView::UInt512((n + d) as nat)))
                } else {
                    Err(CommitError::Overflow)
                },
                _ => Err(CommitError::TypeMismatch),
            }
        } else {
            Err(CommitError::NotFound)
        },
    }
}

/// A whole log applied left to right; the first failing entry decides the
/// error and discards every entry's effect.
pub open spec fn spec_apply_log(
    m: Map<u64, ValueView>,
    log: Seq<(u64, TransformView)>,
) -> Result<Map<u64, ValueView>, CommitError>
    decreases log.len(),
{
    if log.len() == 0 {
        Ok(m)
    } else {
        match spec_apply_one(m, log[0].0, log[0].1) {
            Ok(m2) => spec_apply_log(m2, log.drop_first()),
            Err(e) => Err(e),
        }
    }
}

/// The mathematical content of a transforms log.
pub open spec fn log_view(log: Seq<(u64, Transform)>) -> Seq<(u64, TransformView)> {
    log.map_values(|p: (u64, Transform)| (p.0, p.1@))
}

/// The state after committing `log` under `deploy_id`: unchanged when that
/// deploy was already committed or when the log does not apply; otherwise
/// the applied data with the deploy recorded as committed.
pub open spec fn spec_commit(s: StateView, deploy_id: u64, log: Seq<(u64, TransformView)>) -> StateView {
    if s.committed.contains(deploy_id) {
        s
    } else {
        match spec_apply_log(s.data, log) {
            Ok(m) => StateView { data: m, committed: s.committed.insert(deploy_id) },
            Err(_) => s,
        }
    }
}

/// The map denoted by a pending-write list: later entries override earlier
/// ones for the same key.
pub open spec fn assoc_map(s: Seq<(u64, StoredValue)>) -> Map<u64, ValueView>
    decreases s.len(),
{
    if s.len() == 0 {
        Map::empty()
    } else {
        assoc_map(s.drop_last()).insert(s.last().0, s.last().1@)
    }
}

proof fn lemma_assoc_map_found(s: Seq<(u64, StoredValue)>, key: u64, j: int)
    requires
        0 <= j < s.len(),
        s[j].0 == key,
        forall|idx: int| j < idx < s.len() ==> (#[trigger] s[idx]).0 != key,
    ensures
        assoc_map(s).dom().contains(key),
        assoc_map(s)[key] == s[j].1@,
    decreases s.len(),
{
    if j == s.len() - 1 {
    } else {
        lemma_assoc_map_found(s.drop_last(), key, j);
    }
}

proof fn lemma_assoc_map_absent(s: Seq<(u64, StoredValue)>, key: u64)
    requires
        forall|idx: int| 0 <= idx < s.len() ==> (#[trigger] s[idx]).0 != key,
    ensures
        !assoc_map(s).dom().contains(key),
    decreases s.len(),
{
    if s.len() > 0 {
        lemma_assoc_map_absent(s.drop_last(), key);
    }
}

/// The value the pending-write list holds for `key`: the latest entry wins,
/// `None` when no pending write touches the key.
fn lookup_pending<'a>(pending: &'a Vec<(u64, StoredValue)>, key: u64) -> (r: Option<
    &'a StoredValue,
>)
    ensures
        r matches Some(v) ==> assoc_map(pending@).dom().contains(key) && v@ == assoc_map(
            pending@,
        )[key],
        r is None ==> !assoc_map(pending@).dom().contains(key),
{
    let mut j: usize = pending.len();
    while j > 0
        invariant
            j <= pending@.len(),
            forall|idx: int| j <= idx < pending@.len() ==> (#[trigger] pending@[idx]).0 != key,
        decreases j,
    {
        j = j - 1;
        if pending[j].0 == key {
            proof {
                lemma_assoc_map_found(pending@, key, j as int);
            }
            return Some(&pending[j].1);
        }
    }
    proof {
        lemma_assoc_map_absent(pending@, key);
    }
    None
}

/// Global state: the values at live storage keys, plus the deploy
/// identifiers whose transforms logs have already been committed.
pub struct GlobalState {
    data: HashMapWithView<u64, StoredValue>,
    committed: HashSetWithView<u64>,
}

impl View for GlobalState {
    type V = StateView;

    closed spec fn view(&self) -> StateView {
        StateView {
            data: self.data@.map_values(|v: StoredValue| v@),
            committed: self.committed@,
        }
    }
}

impl GlobalState {
    /// The empty state: no keys bound, nothing committed.
    pub fn new() -> (r: GlobalState)
        ensures
            r@.data == Map::<u64, ValueView>::empty(),
            r@.committed == Set::<u64>::empty(),
    {
        let r = GlobalState { data: HashMapWithView::new(), committed: HashSetWithView::new() };
        proof {
            assert(r@.data =~= Map::<u64, ValueView>::empty());
        }
        r
    }

    /// The value currently at `key`, or `None` when the key is unbound.
    pub fn query(&self, key: u64) -> (r: Option<&StoredValue>)
        ensures
            r matches Some(v) ==> self@.data.dom().contains(key) && v@ == self@.data[key],
            r is None ==> !self@.data.dom().contains(key),
    {
        self.data.get(&key)
    }

    /// Whether the deploy's transforms log has already been committed.
    pub fn is_committed(&self, deploy_id: u64) -> (r: bool)
        ensures
            r == self@.committed.contains(deploy_id),
    {
        self.committed.contains(&deploy_id)
    }

    /// Commits one deploy's transforms log, all or nothing.
    ///
    /// A deploy identifier that was committed before leaves the state
    /// untouched and reports success: re-applying an already-committed log
    /// is a no-op. Otherwise the log's entries apply left to right; the
    /// first entry that does not apply decides the returned error and the
    /// state stays exactly as it was.
    pub fn commit(&mut self, deploy_id: u64, log: &Vec<(u64, Transform)>) -> (r: Result<
        (),
        CommitError,
    >)
        ensures
            final(self)@ == spec_commit(old(self)@, deploy_id, log_view(log@)),
            (r is Ok) == (old(self)@.committed.contains(deploy_id) || spec_apply_log(
                old(self)@.data,
                log_view(log@),
            ) is Ok),
            r matches Err(e) ==> spec_apply_log(old(self)@.data, log_view(log@)) == Err::<
                Map<u64, ValueView>,
                CommitError,
            >(e),
    {
        if self.committed.contains(&deploy_id) {
            return Ok(());
        }
        let ghost m0 = self@.data;
        let ghost lview = log_view(log@);

        let mut pending: Vec<(u64, StoredValue)> = Vec::new();
        proof {
            assert(assoc_map(pending@) =~= Map::<u64, ValueView>::empty());
            assert(m0.union_prefer_right(assoc_map(pending@)) =~= m0);
            assert(lview.skip(0) =~= lview);
        }
        let mut i: usize = 0;
        while i < log.len()
            invariant
                i <= log@.len(),
                lview == log_view(log@),
                lview.len() == log@.len(),
                forall|idx: int| 0 <= idx < log@.len() ==> lview[idx] == (
                    log@[idx].0,
                    log@[idx].1@,
                ),
                m0 == self@.data,
                m0 == old(self)@.data,
                self@.committed == old(self)@.committed,
                !old(self)@.committed.contains(deploy_id),
                spec_apply_log(m0, lview) == spec_apply_log(
                    m0.union_prefer_right(assoc_map(pending@)),
                    lview.skip(i as int),
                ),
            decreases log@.len() - i,
        {
            let ghost mi = m0.union_prefer_right(assoc_map(pending@));
            proof {
                assert(lview.skip(i as int).len() > 0);
                assert(lview.skip(i as int)[0] == lview[i as int]);
                assert(lview.skip(i as int).drop_first() =~= lview.skip(i as int + 1));
            }
            let entry = &log[i];
            let key = entry.0;
            let cur = match lookup_pending(&pending, key) {
                Some(v) => Some(v),
                None => self.data.get(&key),
            };
            proof {
                assert(match cur {
                    Some(v) => mi.dom().contains(key) && v@ == mi[key],
                    None => !mi.dom().contains(key),
                });
                assert(lview[i as int] == (log@[i as int].0, log@[i as int].1@));
            }
            match &entry.1 {
                Transform::Identity => {
                    proof {
                        assert(spec_apply_one(mi, key, lview[i as int].1) == Ok::<
                            Map<u64, ValueView>,
                            CommitError,
                        >(mi));
                    }
                },
                Transform::Write(v) => {
                    let ghost p0 = pending@;
                    pending.push((key, v.clone()));
                    proof {
                        assert(spec_apply_one(mi, key, lview[i as int].1) == Ok::<
                            Map<u64, ValueView>,
                            CommitError,
                        >(mi.insert(key, v@)));
                        assert(pending@.drop_last() =~= p0);
                        assert(assoc_map(pending@) == assoc_map(p0).insert(key, v@));
                        assert(m0.union_prefer_right(assoc_map(pending@)) =~= mi.insert(key, v@));
                    }
                },
                Transform::AddUInt512(d) => {
                    match cur {
                        None => {
                            proof {
                                assert(spec_apply_one(mi, key, lview[i as int].1) == Err::<
                                    Map<u64, ValueView>,
                                    CommitError,
                                >(CommitError::NotFound));
                                assert(spec_apply_log(m0, lview) == Err::<
                                    Map<u64, ValueView>,
                                    CommitError,
                                >(CommitError::NotFound));
                                assert(self@ =~~= old(self)@);
                            }
                            return Err(CommitError::NotFound);
                        },
                        Some(sv) => match sv {
                            StoredValue::Contract(_) => {
                                proof {
                                    assert(mi[key] is Contract);
                                    assert(spec_apply_one(mi, key, lview[i as int].1) == Err::<
                                        Map<u64, ValueView>,
                                        CommitError,
                                    >(CommitError::TypeMismatch));
                                    assert(spec_apply_log(m0, lview) == Err::<
                                        Map<u64, ValueView>,
                                        CommitError,
                                    >(CommitError::TypeMismatch));
                                    assert(self@ =~~= old(self)@);
                                }
                                return Err(CommitError::TypeMismatch);
                            },
                            StoredValue::Bytes(_) => {
                                proof {
                                    assert(mi[key] is Bytes);
                                    assert(spec_apply_one(mi, key, lview[i as int].1) == Err::<
                                        Map<u64, ValueView>,
                                        CommitError,
                                    >(CommitError::TypeMismatch));
                                    assert(spec_apply_log(m0, lview) == Err::<
                                        Map<u64, ValueView>,
                                        CommitError,
                                    >(CommitError::TypeMismatch));
                                    assert(self@ =~~= old(self)@);
                                }
                                return Err(CommitError::TypeMismatch);
                            },
                            StoredValue::UInt512(n) => match n.checked_add(d) {
                                None => {
                                    proof {
                                        assert(mi[key] == ValueView::UInt512(n@));
                                        assert(spec_apply_one(mi, key, lview[i as int].1) == Err::<
                                            Map<u64, ValueView>,
                                            CommitError,
                                        >(CommitError::Overflow));
                                        assert(spec_apply_log(m0, lview) == Err::<
                                            Map<u64, ValueView>,
                                            CommitError,
                                        >(CommitError::Overflow));
                                        assert(self@ =~~= old(self)@);
                                    }
                                    return Err(CommitError::Overflow);
                                },
                                Some(c) => {
                                    let ghost p0 = pending@;
                                    pending.push((key, StoredValue::UInt512(c)));
                                    proof {
                                        assert(mi[key] == ValueView::UInt512(n@));
                                        assert(spec_apply_one(mi, key, lview[i as int].1) == Ok::<
                                            Map<u64, ValueView>,
                                            CommitError,
                                        >(mi.insert(key, ValueView::UInt512(c@))));
                                        assert(pending@.drop_last() =~= p0);
                                        assert(assoc_map(pending@) == assoc_map(p0).insert(
                                            key,
                                            ValueView::UInt512(c@),
                                        ));
                                        assert(m0.union_prefer_right(assoc_map(pending@))
                                            =~= mi.insert(key, ValueView::UInt512(c@)));
                                    }
                                },
                            },
                        },
                    }
                },
            }
            i = i + 1;
        }
        proof {
            assert(lview.skip(log@.len() as int) =~= Seq::<(u64, TransformView)>::empty());
        }
        let ghost mfinal = m0.union_prefer_right(assoc_map(pending@));
        proof {
            assert(spec_apply_log(m0, lview) == Ok::<Map<u64, ValueView>, CommitError>(mfinal));
            assert(pending@.take(0) =~= Seq::<(u64, StoredValue)>::empty());
            assert(assoc_map(pending@.take(0)) =~= Map::<u64, ValueView>::empty());
            assert(m0.union_prefer_right(assoc_map(pending@.take(0))) =~= m0);
        }

        let mut p: usize = 0;
        while p < pending.len()
            invariant
                p <= pending@.len(),
                m0 == old(self)@.data,
                lview == log_view(log@),
                !old(self)@.committed.contains(deploy_id),
                spec_apply_log(m0, lview) == Ok::<Map<u64, ValueView>, CommitError>(mfinal),
                mfinal == m0.union_prefer_right(assoc_map(pending@)),
                self@.data == m0.union_prefer_right(assoc_map(pending@.take(p as int))),
                self@.committed == old(self)@.committed,
            decreases pending@.len() - p,
        {
            let ghost before = self@.data;
            let key = pending[p].0;
            let value = pending[p].1.clone();
            self.data.insert(key, value);
            proof {
                assert(pending@.take(p as int + 1).drop_last() =~= pending@.take(p as int));
                assert(pending@.take(p as int + 1).last() == pending@[p as int]);
                assert(self@.data =~= before.insert(key, pending@[p as int].1@));
                assert(before.insert(key, pending@[p as int].1@) =~= m0.union_prefer_right(
                    assoc_map(pending@.take(p as int + 1)),
                ));
            }
            p = p + 1;
        }
        proof {
            assert(pending@.take(pending@.len() as int) =~= pending@);
        }
        self.committed.insert(deploy_id);
        proof {
            assert(self@ =~~= spec_commit(old(self)@, deploy_id, log_view(log@)));
        }
        Ok(())
    }
}

/// Committing is idempotent: whatever one commit of a deploy's log did,
/// committing the same log under the same deploy identifier again leaves the
/// state exactly as the first commit left it.
pub proof fn lemma_commit_idempotent(s: StateView, deploy_id: u64, log: Seq<(u64, TransformView)>)
    ensures
        spec_commit(spec_commit(s, deploy_id, log), deploy_id, log) == spec_commit(
            s,
            deploy_id,
            log,
        ),
{
    let s1 = spec_commit(s, deploy_id, log);
    if !s.committed.contains(deploy_id) {
        match spec_apply_log(s.data, log) {
            Ok(m) => {
                assert(s1.committed.contains(deploy_id));
            },
            Err(_) => {
                assert(s1 == s);
            },
        }
    }
}

} // verus!
