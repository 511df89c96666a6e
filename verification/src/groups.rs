//! The capability group registry of one contract's metadata.
//!
//! A group is a name scoped to the contract, owning a set of unforgeable
//! references — opaque tokens minted only by this registry, identified here
//! by the arena index the registry minted them under. Two groups may share a
//! reference; the contract-wide invariant is that the number of *distinct*
//! references across all of its groups never exceeds [`MAX_GROUP_UREFS`].
//! Groups are created seeded with fresh and caller-held references, extended
//! with freshly minted ones under the cap, shrunk by removing listed
//! references, or removed whole — and removing a group never invalidates a
//! reference that another group still holds.

use vstd::prelude::*;

use vstd::pervasive::VecAdditionalExecFns;

verus! {

/// The most distinct references one contract's groups may hold, in total.
pub const MAX_GROUP_UREFS: usize = 10;

/// Why a group operation was rejected; a rejected operation changes nothing.
#[derive(Debug, Clone, Copy, PartialEq, Eq, Structural)]
pub enum GroupError {
    GroupAlreadyExists,
    MaxTotalURefsExceeded,
    GroupDoesNotExist,
}

/// One named group and the references it holds, in insertion order.
#[derive(Debug, PartialEq, Eq)]
pub struct GroupEntry {
    pub name: String,
    pub urefs: Vec<u64>,
}

impl View for GroupEntry {
    type V = (Seq<char>, Seq<u64>);

    open spec fn view(&self) -> (Seq<char>, Seq<u64>) {
        (self.name@, self.urefs@)
    }
}

/// The mathematical content of a group list.
pub open spec fn gview(s: Seq<GroupEntry>) -> Seq<(Seq<char>, Seq<u64>)> {
    s.map_values(|g: GroupEntry| g@)
}

/// The mathematical content of a contract's group registry: the groups in
/// insertion order, and the next arena index a minted reference will get.
#[verifier::ext_equal]
pub struct GroupsView {
    pub groups: Seq<(Seq<char>, Seq<u64>)>,
    pub next: u64,
}

/// Whether some group bears `name`.
pub open spec fn has_group(gs: Seq<(Seq<char>, Seq<u64>)>, name: Seq<char>) -> bool {
    exists|j: int| 0 <= j < gs.len() && gs[j].0 == name
}

/// The index of the group bearing `name`; the index, under distinct names.
pub open spec fn group_at(gs: Seq<(Seq<char>, Seq<u64>)>, name: Seq<char>) -> int {
    choose|j: int| 0 <= j < gs.len() && gs[j].0 == name
}

/// The membership of the group bearing `name`, in insertion order.
pub open spec fn group_urefs(gs: Seq<(Seq<char>, Seq<u64>)>, name: Seq<char>) -> Seq<u64> {
    gs[group_at(gs, name)].1
}

/// Every reference held by any group: the arena positions still in use.
pub open spec fn all_urefs(gs: Seq<(Seq<char>, Seq<u64>)>) -> Set<u64>
    decreases gs.len(),
{
    if gs.len() == 0 {
        Set::empty()
    } else {
        all_urefs(gs.drop_last()).union(gs.last().1.to_set())
    }
}

/// The number of distinct references across all groups — what the cap
/// bounds.
pub open spec fn spec_total(gs: Seq<(Seq<char>, Seq<u64>)>) -> nat {
    all_urefs(gs).len()
}

/// No two groups bear the same name.
pub open spec fn distinct_names(gs: Seq<(Seq<char>, Seq<u64>)>) -> bool {
    forall|i: int, j: int|
        0 <= i < j < gs.len() ==> #[trigger] gs[i].0 != #[trigger] gs[j].0
}

/// The registry's well-formedness: group names are unique, no group lists a
/// reference twice, every reference was minted by this registry's arena, and
/// the distinct total respects the cap.
pub open spec fn wf_groups(v: GroupsView) -> bool {
    &&& distinct_names(v.groups)
    &&& forall|i: int| 0 <= i < v.groups.len() ==> (#[trigger] v.groups[i]).1.no_duplicates()
    &&& forall|i: int, k: int|
        0 <= i < v.groups.len() && 0 <= k < v.groups[i].1.len() ==> #[trigger] v.groups[i].1[k]
            < v.next
    &&& spec_total(v.groups) <= MAX_GROUP_UREFS
}

/// `s` with later duplicates dropped: the first occurrence of each element
/// survives, in order.
pub open spec fn spec_dedup(s: Seq<u64>) -> Seq<u64>
    decreases s.len(),
{
    if s.len() == 0 {
        Seq::empty()
    } else {
        let d = spec_dedup(s.drop_last());
        if d.contains(s.last()) {
            d
        } else {
            d.push(s.last())
        }
    }
}

/// The `count` references a mint starting at arena index `next` yields.
pub open spec fn fresh_urefs(next: u64, count: nat) -> Seq<u64> {
    Seq::new(count, |i: int| (next + i) as u64)
}

/// The predicate keeping the references of a group that a removal list does
/// not name.
pub open spec fn keep_pred(to_remove: Seq<u64>) -> spec_fn(u64) -> bool {
    |u: u64| !to_remove.contains(u)
}

/// Creating a group: rejected when the name is taken or when the group's
/// deduplicated seed plus its freshly minted references would push the
/// contract's distinct total over the cap; otherwise the group is appended
/// and the arena advances past the minted references.
pub open spec fn spec_create_group(
    v: GroupsView,
    name: Seq<char>,
    existing: Seq<u64>,
    new_count: nat,
) -> Result<GroupsView, GroupError> {
    if has_group(v.groups, name) {
        Err(GroupError::GroupAlreadyExists)
    } else {
        let members = spec_dedup(existing) + fresh_urefs(v.next, new_count);
        let gs2 = v.groups.push((name, members));
        if spec_total(gs2) > MAX_GROUP_UREFS {
            Err(GroupError::MaxTotalURefsExceeded)
        } else {
            Ok(GroupsView { groups: gs2, next: (v.next + new_count) as u64 })
        }
    }
}

/// Creating several groups in order, each seeded with the same caller-held
/// references plus `new_count` fresh ones; the first rejection rejects the
/// whole batch.
pub open spec fn spec_create_groups(
    v: GroupsView,
    names: Seq<Seq<char>>,
    existing: Seq<u64>,
    new_count: nat,
) -> Result<GroupsView, GroupError>
    decreases names.len(),
{
    if names.len() == 0 {
        Ok(v)
    } else {
        match spec_create_group(v, names[0], existing, new_count) {
            Ok(v2) => spec_create_groups(v2, names.drop_first(), existing, new_count),
            Err(e) => Err(e),
        }
    }
}

/// Extending a group with `count` freshly minted references: rejected when
/// no group bears the name, or — before anything changes — when the
/// contract-wide distinct total plus `count` would exceed the cap.
pub open spec fn spec_extend(v: GroupsView, name: Seq<char>, count: nat) -> Result<
    GroupsView,
    GroupError,
> {
    if !has_group(v.groups, name) {
        Err(GroupError::GroupDoesNotExist)
    } else if spec_total(v.groups) + count > MAX_GROUP_UREFS {
        Err(GroupError::MaxTotalURefsExceeded)
    } else {
        let j = group_at(v.groups, name);
        let g = v.groups[j];
        Ok(
            GroupsView {
                groups: v.groups.update(j, (g.0, g.1 + fresh_urefs(v.next, count))),
                next: (v.next + count) as u64,
            },
        )
    }
}

/// Removing listed references from a group: the named references leave the
/// group, references not present are ignored, and no other group changes.
pub open spec fn spec_remove_urefs(
    v: GroupsView,
    name: Seq<char>,
    to_remove: Seq<u64>,
) -> Result<GroupsView, GroupError> {
    if !has_group(v.groups, name) {
        Err(GroupError::GroupDoesNotExist)
    } else {
        let j = group_at(v.groups, name);
        let g = v.groups[j];
        Ok(GroupsView { groups: v.groups.update(j, (g.0, g.1.filter(keep_pred(to_remove)))), next: v.next })
    }
}

/// Removing a group whole: its entry disappears; every other group, and
/// every reference another group holds, stays exactly as it was.
pub open spec fn spec_remove_group(v: GroupsView, name: Seq<char>) -> Result<
    GroupsView,
    GroupError,
> {
    if !has_group(v.groups, name) {
        Err(GroupError::GroupDoesNotExist)
    } else {
        Ok(GroupsView { groups: v.groups.remove(group_at(v.groups, name)), next: v.next })
    }
}

proof fn lemma_all_urefs_finite(gs: Seq<(Seq<char>, Seq<u64>)>)
    ensures
        all_urefs(gs).finite(),
    decreases gs.len(),
{
    vstd::seq_lib::seq_to_set_is_finite::<u64>(Seq::empty());
    if gs.len() > 0 {
        lemma_all_urefs_finite(gs.drop_last());
        vstd::seq_lib::seq_to_set_is_finite::<u64>(gs.last().1);
    }
}

proof fn lemma_all_urefs_contains(gs: Seq<(Seq<char>, Seq<u64>)>, x: u64)
    ensures
        all_urefs(gs).contains(x) <==> (exists|i: int|
            0 <= i < gs.len() && (#[trigger] gs[i]).1.contains(x)),
    decreases gs.len(),
{
    if gs.len() > 0 {
        lemma_all_urefs_contains(gs.drop_last(), x);
        if all_urefs(gs).contains(x) {
            if all_urefs(gs.drop_last()).contains(x) {
                let i = choose|i: int|
                    0 <= i < gs.drop_last().len() && (#[trigger] gs.drop_last()[i]).1.contains(x);
                assert(gs[i].1.contains(x));
            } else {
                assert(gs[gs.len() - 1].1.contains(x));
            }
        }
        if exists|i: int| 0 <= i < gs.len() && (#[trigger] gs[i]).1.contains(x) {
            let i = choose|i: int| 0 <= i < gs.len() && (#[trigger] gs[i]).1.contains(x);
            if i < gs.len() - 1 {
                assert(gs.drop_last()[i].1.contains(x));
            }
        }
    }
}

/// Adding to a finite set the elements of a duplicate-free sequence wholly
/// outside it grows the cardinality by exactly the sequence's length.
proof fn lemma_card_union_fresh(a: Set<u64>, s: Seq<u64>)
    requires
        a.finite(),
        s.no_duplicates(),
        forall|k: int| 0 <= k < s.len() ==> !a.contains(#[trigger] s[k]),
    ensures
        a.union(s.to_set()).finite(),
        a.union(s.to_set()).len() == a.len() + s.len(),
    decreases s.len(),
{
    vstd::seq_lib::seq_to_set_is_finite::<u64>(s);
    if s.len() == 0 {
        assert(a.union(s.to_set()) =~= a);
    } else {
        let d = s.drop_last();
        let x = s.last();
        lemma_card_union_fresh(a, d);
        assert(!d.contains(x));
        assert(!a.union(d.to_set()).contains(x));
        assert forall|y: u64| #[trigger] s.to_set().contains(y) implies d.to_set().insert(
            x,
        ).contains(y) by {
            let i = choose|i: int| 0 <= i < s.len() && s[i] == y;
            if i < s.len() - 1 {
                assert(d[i] == y);
            }
        }
        assert forall|y: u64| d.to_set().insert(x).contains(y) implies #[trigger] s.to_set().contains(
            y,
        ) by {
            if d.to_set().contains(y) {
                let i = choose|i: int| 0 <= i < d.len() && d[i] == y;
                assert(s[i] == y);
            } else {
                assert(s[s.len() - 1] == x);
            }
        }
        assert(a.union(s.to_set()) =~= a.union(d.to_set()).insert(x));
    }
}

proof fn lemma_concat_to_set(s1: Seq<u64>, s2: Seq<u64>)
    ensures
        (s1 + s2).to_set() =~= s1.to_set().union(s2.to_set()),
{
    assert forall|x: u64| (s1 + s2).to_set().contains(x) implies s1.to_set().union(
        s2.to_set(),
    ).contains(x) by {
        let i = choose|i: int| 0 <= i < (s1 + s2).len() && (s1 + s2)[i] == x;
        if i < s1.len() {
            assert(s1[i] == x);
        } else {
            assert(s2[i - s1.len()] == x);
        }
    }
    assert forall|x: u64| s1.to_set().union(s2.to_set()).contains(x) implies (s1
        + s2).to_set().contains(x) by {
        if s1.to_set().contains(x) {
            let i = choose|i: int| 0 <= i < s1.len() && s1[i] == x;
            assert((s1 + s2)[i] == x);
        } else {
            let i = choose|i: int| 0 <= i < s2.len() && s2[i] == x;
            assert((s1 + s2)[s1.len() + i] == x);
        }
    }
}

/// Replacing one group's membership by it plus `extra` makes the union of
/// all references grow by exactly `extra`'s elements.
proof fn lemma_all_urefs_update_extend(
    gs: Seq<(Seq<char>, Seq<u64>)>,
    j: int,
    name: Seq<char>,
    extra: Seq<u64>,
)
    requires
        0 <= j < gs.len(),
    ensures
        all_urefs(gs.update(j, (name, gs[j].1 + extra))) =~= all_urefs(gs).union(extra.to_set()),
    decreases gs.len(),
{
    let upd = gs.update(j, (name, gs[j].1 + extra));
    lemma_concat_to_set(gs[j].1, extra);
    if j == gs.len() - 1 {
        assert(upd.drop_last() =~= gs.drop_last());
        assert(upd.last() == (name, gs[j].1 + extra));
    } else {
        assert(upd.drop_last() =~= gs.drop_last().update(j, (name, gs.drop_last()[j].1 + extra)));
        lemma_all_urefs_update_extend(gs.drop_last(), j, name, extra);
        assert(upd.last() == gs.last());
    }
}

/// Replacing one group's membership by a subset of it can only shrink the
/// union of all references.
proof fn lemma_all_urefs_update_subset(
    gs: Seq<(Seq<char>, Seq<u64>)>,
    j: int,
    name: Seq<char>,
    u2: Seq<u64>,
)
    requires
        0 <= j < gs.len(),
        u2.to_set().subset_of(gs[j].1.to_set()),
    ensures
        all_urefs(gs.update(j, (name, u2))).subset_of(all_urefs(gs)),
    decreases gs.len(),
{
    let upd = gs.update(j, (name, u2));
    if j == gs.len() - 1 {
        assert(upd.drop_last() =~= gs.drop_last());
        assert(upd.last() == (name, u2));
    } else {
        assert(upd.drop_last() =~= gs.drop_last().update(j, (name, u2)));
        lemma_all_urefs_update_subset(gs.drop_last(), j, name, u2);
        assert(upd.last() == gs.last());
    }
}

/// Removing a whole group can only shrink the union of all references.
proof fn lemma_all_urefs_remove(gs: Seq<(Seq<char>, Seq<u64>)>, j: int)
    requires
        0 <= j < gs.len(),
    ensures
        all_urefs(gs.remove(j)).subset_of(all_urefs(gs)),
    decreases gs.len(),
{
    let rem = gs.remove(j);
    if j == gs.len() - 1 {
        assert(rem =~= gs.drop_last());
    } else {
        assert(rem.drop_last() =~= gs.drop_last().remove(j));
        lemma_all_urefs_remove(gs.drop_last(), j);
        assert(rem.last() == gs.last());
    }
}

proof fn lemma_dedup(s: Seq<u64>)
    ensures
        spec_dedup(s).no_duplicates(),
        spec_dedup(s).to_set() =~= s.to_set(),
        forall|x: u64| #[trigger] spec_dedup(s).contains(x) <==> s.contains(x),
    decreases s.len(),
{
    if s.len() == 0 {
        assert forall|x: u64| #[trigger] spec_dedup(s).contains(x) <==> s.contains(x) by {}
    } else {
        let t = s.drop_last();
        lemma_dedup(t);
        let d = spec_dedup(t);
        let x = s.last();
        assert forall|y: u64| #[trigger] spec_dedup(s).contains(y) <==> s.contains(y) by {
            if spec_dedup(s).contains(y) {
                if d.contains(y) {
                    assert(t.contains(y));
                    let i = choose|i: int| 0 <= i < t.len() && t[i] == y;
                    assert(s[i] == y);
                } else {
                    assert(y == x);
                    assert(s[s.len() - 1] == y);
                }
            }
            if s.contains(y) {
                let i = choose|i: int| 0 <= i < s.len() && s[i] == y;
                if i < s.len() - 1 {
                    assert(t[i] == y);
                    assert(d.contains(y));
                    if !d.contains(x) {
                        assert(spec_dedup(s) == d.push(x));
                        let k = choose|k: int| 0 <= k < d.len() && d[k] == y;
                        assert(d.push(x)[k] == y);
                    }
                } else {
                    assert(y == x);
                    if d.contains(x) {
                        assert(spec_dedup(s).contains(y));
                    } else {
                        assert(d.push(x)[d.len() as int] == x);
                    }
                }
            }
        }
        if !d.contains(x) {
            assert(spec_dedup(s) == d.push(x));
            assert forall|i: int, k: int|
                0 <= i < k < d.push(x).len() implies d.push(x)[i] != d.push(x)[k] by {
                if k < d.len() {
                    assert(d[i] != d[k]);
                } else {
                    assert(d.push(x)[k] == x);
                    if d.push(x)[i] == x {
                        assert(d[i] == x);
                        assert(d.contains(x));
                    }
                }
            }
        }
        assert(spec_dedup(s).to_set() =~= s.to_set());
    }
}

proof fn lemma_to_set_push(s: Seq<u64>, x: u64)
    ensures
        s.push(x).to_set() =~= s.to_set().insert(x),
{
    assert forall|y: u64| #[trigger] s.push(x).to_set().contains(y) implies s.to_set().insert(
        x,
    ).contains(y) by {
        let i = choose|i: int| 0 <= i < s.push(x).len() && #[trigger] s.push(x)[i] == y;
        if i < s.len() {
            assert(s[i] == y);
        }
    }
    assert forall|y: u64| s.to_set().insert(x).contains(y) implies #[trigger] s.push(
        x,
    ).to_set().contains(y) by {
        if s.to_set().contains(y) {
            let i = choose|i: int| 0 <= i < s.len() && #[trigger] s[i] == y;
            assert(s.push(x)[i] == y);
        } else {
            assert(s.push(x)[s.len() as int] == x);
        }
    }
}

proof fn lemma_take_step(s: Seq<u64>, k: int)
    requires
        0 <= k < s.len(),
    ensures
        s.take(k + 1) == s.take(k).push(s[k]),
{
    assert(s.take(k + 1) =~= s.take(k).push(s[k]));
}

proof fn lemma_no_dup_push(s: Seq<u64>, x: u64)
    requires
        s.no_duplicates(),
        !s.contains(x),
    ensures
        s.push(x).no_duplicates(),
{
    assert forall|p: int, q: int| 0 <= p < q < s.push(x).len() implies s.push(x)[p] != s.push(
        x,
    )[q] by {
        if q < s.len() {
            assert(s[p] != s[q]);
        } else {
            if s.push(x)[p] == x {
                assert(s[p] == x);
            }
        }
    }
}

/// The mathematical content of a list of group names.
pub open spec fn names_view(s: Seq<String>) -> Seq<Seq<char>> {
    s.map_values(|n: String| n@)
}

/// Whether `v` lists `x`.
fn contains_u64(v: &Vec<u64>, x: u64) -> (r: bool)
    ensures
        r == v@.contains(x),
{
    let mut i: usize = 0;
    while i < v.len()
        invariant
            i <= v@.len(),
            forall|k: int| 0 <= k < i ==> v@[k] != x,
        decreases v@.len() - i,
    {
        if v[i] == x {
            return true;
        }
        i = i + 1;
    }
    proof {
        if v@.contains(x) {
            let k = choose|k: int| 0 <= k < v@.len() && v@[k] == x;
        }
    }
    false
}

/// A copy of `v` holding the same values.
fn copy_u64_vec(v: &Vec<u64>) -> (r: Vec<u64>)
    ensures
        r@ == v@,
{
    let mut out: Vec<u64> = Vec::new();
    let mut i: usize = 0;
    while i < v.len()
        invariant
            i <= v@.len(),
            out@ =~= v@.take(i as int),
        decreases v@.len() - i,
    {
        out.push(v[i]);
        i = i + 1;
    }
    proof {
        assert(v@.take(v@.len() as int) =~= v@);
    }
    out
}

/// `v` with later duplicates dropped, first occurrences kept in order.
fn dedup_vec(v: &Vec<u64>) -> (r: Vec<u64>)
    ensures
        r@ == spec_dedup(v@),
{
    let mut out: Vec<u64> = Vec::new();
    let mut i: usize = 0;
    while i < v.len()
        invariant
            i <= v@.len(),
            out@ == spec_dedup(v@.take(i as int)),
        decreases v@.len() - i,
    {
        proof {
            assert(v@.take(i as int + 1).drop_last() =~= v@.take(i as int));
            assert(v@.take(i as int + 1).last() == v@[i as int]);
        }
        if !contains_u64(&out, v[i]) {
            out.push(v[i]);
        }
        i = i + 1;
    }
    proof {
        assert(v@.take(v@.len() as int) =~= v@);
    }
    out
}

proof fn lemma_gview_push(s: Seq<GroupEntry>, e: GroupEntry)
    ensures
        gview(s.push(e)) == gview(s).push(e@),
{
    assert forall|idx: int| 0 <= idx < gview(s.push(e)).len() implies gview(s.push(e))[idx]
        == gview(s).push(e@)[idx] by {
        if idx < s.len() {
            assert(s.push(e)[idx] == s[idx]);
        } else {
            assert(s.push(e)[idx] == e);
        }
    }
    assert(gview(s.push(e)) =~= gview(s).push(e@));
}

/// A copy of the group list denoting the same groups.
fn clone_groups(src: &Vec<GroupEntry>) -> (r: Vec<GroupEntry>)
    ensures
        gview(r@) == gview(src@),
{
    let mut out: Vec<GroupEntry> = Vec::new();
    let mut i: usize = 0;
    while i < src.len()
        invariant
            i <= src@.len(),
            gview(out@) =~= gview(src@).take(i as int),
        decreases src@.len() - i,
    {
        let entry = GroupEntry { name: src[i].name.clone(), urefs: copy_u64_vec(&src[i].urefs) };
        proof {
            assert(entry@ == src@[i as int]@);
        }
        let ghost b = out@;
        out.push(entry);
        proof {
            lemma_gview_push(b, entry);
            assert(gview(src@).take(i as int + 1) =~= gview(src@).take(i as int).push(
                src@[i as int]@,
            ));
        }
        i = i + 1;
    }
    proof {
        assert(gview(src@).take(src@.len() as int) =~= gview(src@));
    }
    out
}

/// The index of the group bearing `name`, scanning in insertion order.
fn find_group(groups: &Vec<GroupEntry>, name: &String) -> (r: Option<usize>)
    ensures
        r matches Some(j) ==> j < groups@.len() && gview(groups@)[j as int].0 == name@,
        r is None ==> !has_group(gview(groups@), name@),
{
    let mut i: usize = 0;
    while i < groups.len()
        invariant
            i <= groups@.len(),
            forall|k: int| 0 <= k < i ==> #[trigger] gview(groups@)[k].0 != name@,
        decreases groups@.len() - i,
    {
        if groups[i].name == *name {
            proof {
                assert(gview(groups@)[i as int].0 == name@);
            }
            return Some(i);
        }
        i = i + 1;
    }
    proof {
        if has_group(gview(groups@), name@) {
            let j = choose|j: int|
                0 <= j < gview(groups@).len() && gview(groups@)[j].0 == name@;
        }
    }
    None
}

/// Every distinct reference held by any of `groups`, or listed in `extra`,
/// each exactly once.
fn collect_urefs(groups: &Vec<GroupEntry>, extra: &Vec<u64>) -> (acc: Vec<u64>)
    ensures
        acc@.no_duplicates(),
        acc@.to_set() == all_urefs(gview(groups@)).union(extra@.to_set()),
{
    let ghost gv = gview(groups@);
    let mut acc: Vec<u64> = Vec::new();
    proof {
        assert(acc@.to_set() =~= all_urefs(gv.take(0)));
    }
    let mut i: usize = 0;
    while i < groups.len()
        invariant
            i <= groups@.len(),
            gv == gview(groups@),
            acc@.no_duplicates(),
            acc@.to_set() == all_urefs(gv.take(i as int)),
        decreases groups@.len() - i,
    {
        let g = &groups[i];
        let mut k: usize = 0;
        while k < g.urefs.len()
            invariant
                k <= g.urefs@.len(),
                0 <= i < groups@.len(),
                g == &groups[i as int],
                gv == gview(groups@),
                acc@.no_duplicates(),
                acc@.to_set() == all_urefs(gv.take(i as int)).union(g.urefs@.take(k as int).to_set()),
            decreases g.urefs@.len() - k,
        {
            let u = g.urefs[k];
            let ghost before = acc@;
            if !contains_u64(&acc, u) {
                proof {
                    lemma_no_dup_push(before, u);
                    lemma_to_set_push(before, u);
                }
                acc.push(u);
            }
            proof {
                lemma_take_step(g.urefs@, k as int);
                lemma_to_set_push(g.urefs@.take(k as int), g.urefs@[k as int]);
                assert(acc@.to_set() =~= all_urefs(gv.take(i as int)).union(
                    g.urefs@.take(k as int + 1).to_set(),
                ));
            }
            k = k + 1;
        }
        proof {
            assert(g.urefs@.take(g.urefs@.len() as int) =~= g.urefs@);
            assert(gv.take(i as int + 1).drop_last() =~= gv.take(i as int));
            assert(gv.take(i as int + 1).last() == gv[i as int]);
            assert(gv[i as int].1 == g.urefs@);
            assert(acc@.to_set() =~= all_urefs(gv.take(i as int + 1)));
        }
        i = i + 1;
    }
    proof {
        assert(gv.take(groups@.len() as int) =~= gv);
    }
    let mut k: usize = 0;
    while k < extra.len()
        invariant
            k <= extra@.len(),
            gv == gview(groups@),
            acc@.no_duplicates(),
            acc@.to_set() == all_urefs(gv).union(extra@.take(k as int).to_set()),
        decreases extra@.len() - k,
    {
        let u = extra[k];
        let ghost before = acc@;
        if !contains_u64(&acc, u) {
            proof {
                lemma_no_dup_push(before, u);
                lemma_to_set_push(before, u);
            }
            acc.push(u);
        }
        proof {
            lemma_take_step(extra@, k as int);
            lemma_to_set_push(extra@.take(k as int), extra@[k as int]);
            assert(acc@.to_set() =~= all_urefs(gv).union(extra@.take(k as int + 1).to_set()));
        }
        k = k + 1;
    }
    proof {
        assert(extra@.take(extra@.len() as int) =~= extra@);
    }
    acc
}

proof fn lemma_fresh_no_dup(next: u64, count: nat)
    requires
        next + count <= u64::MAX,
    ensures
        fresh_urefs(next, count).no_duplicates(),
        forall|k: int| 0 <= k < count ==> #[trigger] fresh_urefs(next, count)[k] == next + k,
{
    let f = fresh_urefs(next, count);
    assert forall|k: int| 0 <= k < count implies #[trigger] f[k] == next + k by {}
    assert forall|p: int, q: int| 0 <= p < q < f.len() implies f[p] != f[q] by {
        assert(f[p] == next + p);
        assert(f[q] == next + q);
    }
}

proof fn lemma_filter_membership(s: Seq<u64>, pred: spec_fn(u64) -> bool, x: u64)
    requires
        s.filter(pred).contains(x),
    ensures
        s.contains(x),
        pred(x),
    decreases s.len(),
{
    reveal(Seq::filter);
    if s.len() == 0 {
    } else {
        let t = s.drop_last();
        let out = s.filter(pred);
        if pred(s.last()) {
            if x == s.last() {
                assert(s[s.len() - 1] == x);
            } else {
                let i = choose|i: int| 0 <= i < out.len() && out[i] == x;
                assert(t.filter(pred)[i] == x);
                assert(t.filter(pred).contains(x));
                lemma_filter_membership(t, pred, x);
                let w = choose|w: int| 0 <= w < t.len() && t[w] == x;
                assert(s[w] == x);
            }
        } else {
            lemma_filter_membership(t, pred, x);
            let w = choose|w: int| 0 <= w < t.len() && t[w] == x;
            assert(s[w] == x);
        }
    }
}

proof fn lemma_filter_no_dup(s: Seq<u64>, pred: spec_fn(u64) -> bool)
    requires
        s.no_duplicates(),
    ensures
        s.filter(pred).no_duplicates(),
    decreases s.len(),
{
    reveal(Seq::filter);
    if s.len() > 0 {
        let t = s.drop_last();
        lemma_filter_no_dup(t, pred);
        if pred(s.last()) {
            assert(s.filter(pred) == t.filter(pred).push(s.last()));
            if t.filter(pred).contains(s.last()) {
                lemma_filter_membership(t, pred, s.last());
                let i = choose|i: int| 0 <= i < t.len() && t[i] == s.last();
                assert(s[i] == s[s.len() - 1]);
            }
            lemma_no_dup_push(t.filter(pred), s.last());
        }
    }
}

/// Under distinct names, any index bearing `name` is the group's index.
proof fn lemma_group_at_unique(gs: Seq<(Seq<char>, Seq<u64>)>, name: Seq<char>, j: int)
    requires
        distinct_names(gs),
        0 <= j < gs.len(),
        gs[j].0 == name,
    ensures
        has_group(gs, name),
        group_at(gs, name) == j,
{
    assert(has_group(gs, name));
    let j2 = group_at(gs, name);
    if j2 != j {
        if j2 < j {
            assert(gs[j2].0 != gs[j].0);
        } else {
            assert(gs[j].0 != gs[j2].0);
        }
    }
}

/// One contract's group registry: its named groups and the arena counter
/// that mints unforgeable references. References are minted only here, so a
/// freshly minted reference is distinct from every reference any group
/// holds.
#[derive(Debug, PartialEq, Eq)]
pub struct ContractMetadata {
    groups: Vec<GroupEntry>,
    next_uref: u64,
}

impl View for ContractMetadata {
    type V = GroupsView;

    closed spec fn view(&self) -> GroupsView {
        GroupsView { groups: gview(self.groups@), next: self.next_uref }
    }
}

impl Clone for ContractMetadata {
    /// The clone denotes the same group registry.
    fn clone(&self) -> (r: Self)
        ensures
            r@ == self@,
    {
        proof {
            use_type_invariant(self);
        }
        let groups = clone_groups(&self.groups);
        let r = ContractMetadata { groups, next_uref: self.next_uref };
        proof {
            assert(r@ =~~= self@);
        }
        r
    }
}

impl ContractMetadata {
    #[verifier::type_invariant]
    spec fn inv(self) -> bool {
        wf_groups(self@)
    }

    /// The empty registry: no groups, no references minted yet.
    pub fn new() -> (r: ContractMetadata)
        ensures
            r@ == (GroupsView { groups: Seq::<(Seq<char>, Seq<u64>)>::empty(), next: 0u64 }),
            wf_groups(r@),
    {
        let r = ContractMetadata { groups: Vec::new(), next_uref: 0 };
        proof {
            assert(gview(r.groups@) =~= Seq::<(Seq<char>, Seq<u64>)>::empty());
            assert(all_urefs(gview(r.groups@)) =~= Set::<u64>::empty());
            assert(r@ =~~= (GroupsView {
                groups: Seq::<(Seq<char>, Seq<u64>)>::empty(),
                next: 0u64,
            }));
        }
        r
    }

    /// Mints one fresh unforgeable reference, held by no group.
    pub fn mint_uref(&mut self) -> (r: u64)
        requires
            old(self)@.next < u64::MAX,
        ensures
            r == old(self)@.next,
            final(self)@ == (GroupsView { groups: old(self)@.groups, next: (old(self)@.next + 1) as u64 }),
            wf_groups(final(self)@),
    {
        proof {
            use_type_invariant(&*self);
        }
        let r = self.next_uref;
        self.next_uref = self.next_uref + 1;
        r
    }

    /// How many references the arena has minted so far — also the index the
    /// next minted reference will get.
    pub fn minted(&self) -> (r: u64)
        ensures
            r == self@.next,
    {
        self.next_uref
    }

    /// How many groups the contract has.
    pub fn num_groups(&self) -> (r: usize)
        ensures
            r == self@.groups.len(),
    {
        self.groups.len()
    }

    /// The number of distinct references across all of the contract's
    /// groups: what the cap bounds.
    pub fn total_urefs(&self) -> (r: usize)
        ensures
            r == spec_total(self@.groups),
    {
        let extra: Vec<u64> = Vec::new();
        let acc = collect_urefs(&self.groups, &extra);
        proof {
            assert(acc@.to_set() =~= all_urefs(gview(self.groups@)));
            acc@.unique_seq_to_set();
        }
        acc.len()
    }

    /// The membership of the group bearing `name`, in insertion order, or
    /// `None` when no group bears it.
    pub fn get_group(&self, name: &String) -> (r: Option<&Vec<u64>>)
        ensures
            r matches Some(v) ==> has_group(self@.groups, name@) && v@ == group_urefs(
                self@.groups,
                name@,
            ),
            r is None ==> !has_group(self@.groups, name@),
    {
        proof {
            use_type_invariant(&*self);
        }
        match find_group(&self.groups, name) {
            Some(j) => {
                proof {
                    lemma_group_at_unique(gview(self.groups@), name@, j as int);
                }
                Some(&self.groups[j].urefs)
            },
            None => None,
        }
    }

    /// Creates the group `name`, seeded with the caller-held references
    /// `existing` (duplicates collapse: a group holds a set) plus
    /// `new_count` freshly minted ones.
    ///
    /// Rejected with `GroupAlreadyExists` when a group already bears the
    /// name, and with `MaxTotalURefsExceeded` when the contract's distinct
    /// total would pass the cap; either way nothing changes. Caller-held
    /// references must come from this registry's arena, and the arena
    /// cannot run out of indices.
    pub fn create_group(&mut self, name: String, existing: &Vec<u64>, new_count: usize) -> (r:
        Result<(), GroupError>)
        requires
            forall|k: int| 0 <= k < existing@.len() ==> #[trigger] existing@[k] < old(self)@.next,
            old(self)@.next + new_count <= u64::MAX,
        ensures
            wf_groups(final(self)@),
            (match spec_create_group(old(self)@, name@, existing@, new_count as nat) {
                Ok(v2) => r is Ok && final(self)@ == v2,
                Err(e) => r == Err::<(), GroupError>(e) && final(self)@ == old(self)@,
            }),
    {
        proof {
            use_type_invariant(&*self);
        }
        match find_group(&self.groups, &name) {
            Some(_) => {
                return Err(GroupError::GroupAlreadyExists);
            },
            None => {},
        }
        let ghost v0 = self@;

        let mut members = dedup_vec(existing);
        proof {
            lemma_dedup(existing@);
        }
        let mut c: usize = 0;
        while c < new_count
            invariant
                c <= new_count,
                self@ == v0,
                v0.next + new_count <= u64::MAX,
                members@ == spec_dedup(existing@) + fresh_urefs(v0.next, c as nat),
            decreases new_count - c,
        {
            members.push(self.next_uref + c as u64);
            proof {
                assert(members@ =~= spec_dedup(existing@) + fresh_urefs(
                    v0.next,
                    c as nat + 1,
                ));
            }
            c = c + 1;
        }
        let ghost fresh = fresh_urefs(v0.next, new_count as nat);
        let ghost gs2 = v0.groups.push((name@, members@));

        let acc = collect_urefs(&self.groups, &members);
        proof {
            assert(gs2.drop_last() =~= v0.groups);
            assert(all_urefs(gs2) =~= all_urefs(v0.groups).union(members@.to_set()));
            acc@.unique_seq_to_set();
            lemma_all_urefs_finite(v0.groups);
        }
        if acc.len() > MAX_GROUP_UREFS {
            return Err(GroupError::MaxTotalURefsExceeded);
        }

        // Commit: advance the arena past the minted references first, then
        // file the group, so the registry stays well-formed throughout.
        self.next_uref = self.next_uref + new_count as u64;
        proof {
            assert(wf_groups(self@));
        }
        let mut groups: Vec<GroupEntry> = Vec::new();
        core::mem::swap(&mut groups, &mut self.groups);
        proof {
            assert(gview(Seq::<GroupEntry>::empty()) =~= Seq::<(Seq<char>, Seq<u64>)>::empty());
            assert(all_urefs(gview(self.groups@)) =~= Set::<u64>::empty());
        }
        groups.push(GroupEntry { name, urefs: members });
        proof {
            assert(gview(groups@) =~= gs2);
            let v2 = GroupsView { groups: gs2, next: (v0.next + new_count) as u64 };
            // Well-formedness of the new registry.
            assert(distinct_names(gs2)) by {
                assert forall|i: int, j: int| 0 <= i < j < gs2.len() implies #[trigger] gs2[i].0
                    != #[trigger] gs2[j].0 by {
                    if j < gs2.len() - 1 {
                        assert(v0.groups[i].0 != v0.groups[j].0);
                    } else {
                        assert(gs2[j].0 == name@);
                        assert(!has_group(v0.groups, name@));
                        assert(gs2[i].0 == v0.groups[i].0);
                    }
                }
            }
            assert(members@.no_duplicates()) by {
                let d = spec_dedup(existing@);
                assert forall|p: int, q: int| 0 <= p < q < members@.len() implies members@[p]
                    != members@[q] by {
                    if q < d.len() {
                        assert(d[p] != d[q]);
                    } else if p >= d.len() {
                        assert(members@[p] == v0.next + (p - d.len()));
                        assert(members@[q] == v0.next + (q - d.len()));
                    } else {
                        assert(members@[q] == v0.next + (q - d.len()));
                        assert(d.contains(d[p]));
                        assert(existing@.contains(d[p]));
                        let w = choose|w: int|
                            0 <= w < existing@.len() && existing@[w] == d[p];
                        assert(existing@[w] < v0.next);
                    }
                }
            }
            assert forall|i: int| 0 <= i < gs2.len() implies (#[trigger] gs2[i]).1.no_duplicates() by {
                if i < gs2.len() - 1 {
                    assert(gs2[i] == v0.groups[i]);
                }
            }
            assert forall|i: int, k: int|
                0 <= i < gs2.len() && 0 <= k < gs2[i].1.len() implies #[trigger] gs2[i].1[k]
                < v2.next by {
                if i < gs2.len() - 1 {
                    assert(gs2[i] == v0.groups[i]);
                    assert(v0.groups[i].1[k] < v0.next);
                } else {
                    let d = spec_dedup(existing@);
                    if k < d.len() {
                        assert(d.contains(d[k]));
                        assert(existing@.contains(d[k]));
                        let w = choose|w: int|
                            0 <= w < existing@.len() && existing@[w] == d[k];
                        assert(existing@[w] < v0.next);
                    } else {
                        assert(gs2[i].1[k] == v0.next + (k - d.len()));
                    }
                }
            }
            assert(wf_groups(v2));
        }
        self.groups = groups;
        proof {
            assert(self@ =~~= (GroupsView { groups: gs2, next: (v0.next + new_count) as u64 }));
        }
        Ok(())
    }

    /// Mints `count` fresh references and adds them to the group bearing
    /// `name`.
    ///
    /// Before anything changes, the contract-wide distinct-reference total
    /// is computed; if it plus `count` would pass the cap the call is
    /// rejected with `MaxTotalURefsExceeded` and no state changes — the cap
    /// is a whole-contract limit, not a per-group one. A name no group
    /// bears is rejected with `GroupDoesNotExist`. The arena cannot run out
    /// of indices.
    pub fn extend_group_urefs(&mut self, name: &String, count: usize) -> (r: Result<
        (),
        GroupError,
    >)
        requires
            old(self)@.next + count <= u64::MAX,
        ensures
            wf_groups(final(self)@),
            (match spec_extend(old(self)@, name@, count as nat) {
                Ok(v2) => r is Ok && final(self)@ == v2,
                Err(e) => r == Err::<(), GroupError>(e) && final(self)@ == old(self)@,
            }),
    {
        proof {
            use_type_invariant(&*self);
        }
        let j = match find_group(&self.groups, name) {
            None => {
                return Err(GroupError::GroupDoesNotExist);
            },
            Some(j) => j,
        };
        proof {
            lemma_group_at_unique(gview(self.groups@), name@, j as int);
        }
        let total = self.total_urefs();
        if count > MAX_GROUP_UREFS - total {
            return Err(GroupError::MaxTotalURefsExceeded);
        }
        let ghost v0 = self@;
        let ghost fresh = fresh_urefs(v0.next, count as nat);
        let ghost gs2 = v0.groups.update(
            j as int,
            (v0.groups[j as int].0, v0.groups[j as int].1 + fresh),
        );

        let entry_name = self.groups[j].name.clone();
        let mut new_urefs = copy_u64_vec(&self.groups[j].urefs);
        let mut c: usize = 0;
        while c < count
            invariant
                c <= count,
                self@ == v0,
                0 <= j < v0.groups.len(),
                v0.next + count <= u64::MAX,
                new_urefs@ == v0.groups[j as int].1 + fresh_urefs(v0.next, c as nat),
            decreases count - c,
        {
            new_urefs.push(self.next_uref + c as u64);
            proof {
                assert(new_urefs@ =~= v0.groups[j as int].1 + fresh_urefs(v0.next, c as nat + 1));
            }
            c = c + 1;
        }

        proof {
            // The extension is within the cap and keeps the registry
            // well-formed.
            lemma_fresh_no_dup(v0.next, count as nat);
            lemma_all_urefs_finite(v0.groups);
            lemma_all_urefs_update_extend(
                v0.groups,
                j as int,
                v0.groups[j as int].0,
                fresh,
            );
            assert forall|k: int| 0 <= k < fresh.len() implies !all_urefs(v0.groups).contains(
                #[trigger] fresh[k],
            ) by {
                lemma_all_urefs_contains(v0.groups, fresh[k]);
                if all_urefs(v0.groups).contains(fresh[k]) {
                    let i = choose|i: int|
                        0 <= i < v0.groups.len() && (#[trigger] v0.groups[i]).1.contains(fresh[k]);
                    let w = choose|w: int|
                        0 <= w < v0.groups[i].1.len() && v0.groups[i].1[w] == fresh[k];
                    assert(v0.groups[i].1[w] < v0.next);
                }
            }
            lemma_card_union_fresh(all_urefs(v0.groups), fresh);
            assert(spec_total(gs2) == spec_total(v0.groups) + count);
        }

        self.next_uref = self.next_uref + count as u64;
        let mut groups: Vec<GroupEntry> = Vec::new();
        core::mem::swap(&mut groups, &mut self.groups);
        proof {
            assert(gview(Seq::<GroupEntry>::empty()) =~= Seq::<(Seq<char>, Seq<u64>)>::empty());
            assert(all_urefs(gview(self.groups@)) =~= Set::<u64>::empty());
        }
        groups.set(j, GroupEntry { name: entry_name, urefs: new_urefs });
        proof {
            assert(gview(groups@) =~= gs2);
            let v2 = GroupsView { groups: gs2, next: (v0.next + count) as u64 };
            assert(distinct_names(gs2)) by {
                assert forall|p: int, q: int| 0 <= p < q < gs2.len() implies #[trigger] gs2[p].0
                    != #[trigger] gs2[q].0 by {
                    assert(v0.groups[p].0 != v0.groups[q].0);
                    assert(gs2[p].0 == v0.groups[p].0);
                    assert(gs2[q].0 == v0.groups[q].0);
                }
            }
            assert forall|i: int| 0 <= i < gs2.len() implies (#[trigger] gs2[i]).1.no_duplicates() by {
                if i == j {
                    let s = v0.groups[j as int].1;
                    assert forall|p: int, q: int|
                        0 <= p < q < gs2[i].1.len() implies gs2[i].1[p] != gs2[i].1[q] by {
                        if q < s.len() {
                            assert(s[p] != s[q]);
                        } else if p >= s.len() {
                            assert(gs2[i].1[p] == fresh[p - s.len()]);
                            assert(gs2[i].1[q] == fresh[q - s.len()]);
                        } else {
                            assert(gs2[i].1[p] == s[p]);
                            assert(s[p] < v0.next);
                            assert(gs2[i].1[q] == fresh[q - s.len()]);
                        }
                    }
                } else {
                    assert(gs2[i] == v0.groups[i]);
                }
            }
            assert forall|i: int, k: int|
                0 <= i < gs2.len() && 0 <= k < gs2[i].1.len() implies #[trigger] gs2[i].1[k]
                < v2.next by {
                if i == j {
                    let s = v0.groups[j as int].1;
                    if k < s.len() {
                        assert(gs2[i].1[k] == s[k]);
                        assert(s[k] < v0.next);
                    } else {
                        assert(gs2[i].1[k] == fresh[k - s.len()]);
                    }
                } else {
                    assert(gs2[i] == v0.groups[i]);
                    assert(v0.groups[i].1[k] < v0.next);
                }
            }
            assert(wf_groups(v2));
        }
        self.groups = groups;
        proof {
            assert(self@ =~~= (GroupsView { groups: gs2, next: (v0.next + count) as u64 }));
        }
        Ok(())
    }

    /// Removes the listed references from the group bearing `name`.
    ///
    /// References the group does not hold are ignored, so removal is
    /// idempotent; other groups holding the same references keep them. A
    /// name no group bears is rejected with `GroupDoesNotExist`.
    pub fn remove_group_urefs(&mut self, name: &String, urefs: &Vec<u64>) -> (r: Result<
        (),
        GroupError,
    >)
        ensures
            wf_groups(final(self)@),
            (match spec_remove_urefs(old(self)@, name@, urefs@) {
                Ok(v2) => r is Ok && final(self)@ == v2,
                Err(e) => r == Err::<(), GroupError>(e) && final(self)@ == old(self)@,
            }),
    {
        proof {
            use_type_invariant(&*self);
        }
        let j = match find_group(&self.groups, name) {
            None => {
                return Err(GroupError::GroupDoesNotExist);
            },
            Some(j) => j,
        };
        proof {
            lemma_group_at_unique(gview(self.groups@), name@, j as int);
        }
        let ghost v0 = self@;
        let ghost pred = keep_pred(urefs@);
        let ghost s = v0.groups[j as int].1;
        let ghost u2 = s.filter(pred);
        let ghost gs2 = v0.groups.update(j as int, (v0.groups[j as int].0, u2));

        let entry_name = self.groups[j].name.clone();
        let group = &self.groups[j].urefs;
        let mut filtered: Vec<u64> = Vec::new();
        proof {
            reveal(Seq::filter);
            assert(s.take(0).filter(pred) =~= Seq::<u64>::empty());
        }
        let mut k: usize = 0;
        while k < group.len()
            invariant
                k <= s.len(),
                group@ == s,
                pred == keep_pred(urefs@),
                filtered@ == s.take(k as int).filter(pred),
            decreases s.len() - k,
        {
            let u = group[k];
            proof {
                reveal(Seq::filter);
                assert(s.take(k as int + 1).drop_last() =~= s.take(k as int));
                assert(s.take(k as int + 1).last() == s[k as int]);
            }
            if !contains_u64(urefs, u) {
                filtered.push(u);
            }
            k = k + 1;
        }
        proof {
            assert(s.take(s.len() as int) =~= s);
        }

        proof {
            // The shrunk group keeps the registry well-formed.
            lemma_filter_no_dup(s, pred);
            assert forall|x: u64| u2.to_set().contains(x) implies s.to_set().contains(x) by {
                let i = choose|i: int| 0 <= i < u2.len() && u2[i] == x;
                assert(u2.contains(u2[i]));
                lemma_filter_membership(s, pred, x);
            }
            lemma_all_urefs_finite(v0.groups);
            lemma_all_urefs_update_subset(v0.groups, j as int, v0.groups[j as int].0, u2);
            vstd::set_lib::lemma_len_subset(all_urefs(gs2), all_urefs(v0.groups));
            let v2 = GroupsView { groups: gs2, next: v0.next };
            assert(distinct_names(gs2)) by {
                assert forall|p: int, q: int| 0 <= p < q < gs2.len() implies #[trigger] gs2[p].0
                    != #[trigger] gs2[q].0 by {
                    assert(v0.groups[p].0 != v0.groups[q].0);
                    assert(gs2[p].0 == v0.groups[p].0);
                    assert(gs2[q].0 == v0.groups[q].0);
                }
            }
            assert forall|i: int| 0 <= i < gs2.len() implies (#[trigger] gs2[i]).1.no_duplicates() by {
                if i != j {
                    assert(gs2[i] == v0.groups[i]);
                }
            }
            assert forall|i: int, k2: int|
                0 <= i < gs2.len() && 0 <= k2 < gs2[i].1.len() implies #[trigger] gs2[i].1[k2]
                < v2.next by {
                if i == j {
                    assert(u2.contains(u2[k2]));
                    lemma_filter_membership(s, pred, u2[k2]);
                    let w = choose|w: int| 0 <= w < s.len() && s[w] == u2[k2];
                    assert(v0.groups[j as int].1[w] < v0.next);
                } else {
                    assert(gs2[i] == v0.groups[i]);
                    assert(v0.groups[i].1[k2] < v0.next);
                }
            }
            assert(wf_groups(v2));
        }

        let mut groups: Vec<GroupEntry> = Vec::new();
        core::mem::swap(&mut groups, &mut self.groups);
        proof {
            assert(gview(Seq::<GroupEntry>::empty()) =~= Seq::<(Seq<char>, Seq<u64>)>::empty());
            assert(all_urefs(gview(self.groups@)) =~= Set::<u64>::empty());
        }
        groups.set(j, GroupEntry { name: entry_name, urefs: filtered });
        proof {
            assert(gview(groups@) =~= gs2);
        }
        self.groups = groups;
        proof {
            assert(self@ =~~= (GroupsView { groups: gs2, next: v0.next }));
        }
        Ok(())
    }

    /// Removes the group bearing `name` whole, releasing its membership.
    ///
    /// A reference the removed group shared with another group stays in
    /// that other group untouched: removal releases this group's share, it
    /// does not revoke the reference. A name no group bears is rejected
    /// with `GroupDoesNotExist`.
    pub fn remove_group(&mut self, name: &String) -> (r: Result<(), GroupError>)
        ensures
            wf_groups(final(self)@),
            (match spec_remove_group(old(self)@, name@) {
                Ok(v2) => r is Ok && final(self)@ == v2,
                Err(e) => r == Err::<(), GroupError>(e) && final(self)@ == old(self)@,
            }),
    {
        proof {
            use_type_invariant(&*self);
        }
        let j = match find_group(&self.groups, name) {
            None => {
                return Err(GroupError::GroupDoesNotExist);
            },
            Some(j) => j,
        };
        proof {
            lemma_group_at_unique(gview(self.groups@), name@, j as int);
        }
        let ghost v0 = self@;
        let ghost gs2 = v0.groups.remove(j as int);

        proof {
            lemma_all_urefs_finite(v0.groups);
            lemma_all_urefs_remove(v0.groups, j as int);
            vstd::set_lib::lemma_len_subset(all_urefs(gs2), all_urefs(v0.groups));
            let v2 = GroupsView { groups: gs2, next: v0.next };
            assert forall|i: int| 0 <= i < gs2.len() implies gs2[i] == (if i < j {
                v0.groups[i]
            } else {
                v0.groups[i + 1]
            }) by {}
            assert(distinct_names(gs2)) by {
                assert forall|p: int, q: int| 0 <= p < q < gs2.len() implies #[trigger] gs2[p].0
                    != #[trigger] gs2[q].0 by {
                    if q < j {
                        assert(v0.groups[p].0 != v0.groups[q].0);
                    } else if p < j {
                        assert(v0.groups[p].0 != v0.groups[q + 1].0);
                    } else {
                        assert(v0.groups[p + 1].0 != v0.groups[q + 1].0);
                    }
                }
            }
            assert forall|i: int| 0 <= i < gs2.len() implies (#[trigger] gs2[i]).1.no_duplicates() by {}
            assert forall|i: int, k2: int|
                0 <= i < gs2.len() && 0 <= k2 < gs2[i].1.len() implies #[trigger] gs2[i].1[k2]
                < v2.next by {
                if i < j {
                    assert(v0.groups[i].1[k2] < v0.next);
                } else {
                    assert(v0.groups[i + 1].1[k2] < v0.next);
                }
            }
            assert(wf_groups(v2));
        }

        let mut groups: Vec<GroupEntry> = Vec::new();
        core::mem::swap(&mut groups, &mut self.groups);
        proof {
            assert(gview(Seq::<GroupEntry>::empty()) =~= Seq::<(Seq<char>, Seq<u64>)>::empty());
            assert(all_urefs(gview(self.groups@)) =~= Set::<u64>::empty());
        }
        groups.remove(j);
        proof {
            assert(gview(groups@) =~= gs2);
        }
        self.groups = groups;
        proof {
            assert(self@ =~~= (GroupsView { groups: gs2, next: v0.next }));
        }
        Ok(())
    }

    /// Creates one group per listed name, in order, each seeded with the
    /// caller-held references `existing` plus `new_per_group` freshly minted
    /// ones — and either every group is created or none is: the first name
    /// collision or cap violation rejects the whole batch unchanged.
    pub fn create_groups(
        &mut self,
        names: &Vec<String>,
        existing: &Vec<u64>,
        new_per_group: usize,
    ) -> (r: Result<(), GroupError>)
        requires
            forall|k: int| 0 <= k < existing@.len() ==> #[trigger] existing@[k] < old(self)@.next,
            old(self)@.next + names@.len() * new_per_group <= u64::MAX,
        ensures
            wf_groups(final(self)@),
            (match spec_create_groups(
                old(self)@,
                names_view(names@),
                existing@,
                new_per_group as nat,
            ) {
                Ok(v2) => r is Ok && final(self)@ == v2,
                Err(e) => r == Err::<(), GroupError>(e) && final(self)@ == old(self)@,
            }),
    {
        proof {
            use_type_invariant(&*self);
        }
        let cloned = clone_groups(&self.groups);
        proof {
            assert((GroupsView { groups: gview(cloned@), next: self.next_uref }) =~~= self@);
        }
        let mut staged = ContractMetadata { groups: cloned, next_uref: self.next_uref };
        let ghost nview = names_view(names@);
        proof {
            assert(staged@ =~~= self@);
            assert(nview.skip(0) =~= nview);
        }
        let mut i: usize = 0;
        while i < names.len()
            invariant
                i <= names@.len(),
                nview == names_view(names@),
                nview.len() == names@.len(),
                forall|idx: int| 0 <= idx < names@.len() ==> nview[idx] == names@[idx]@,
                *self == *old(self),
                wf_groups(old(self)@),
                wf_groups(staged@),
                forall|k: int| 0 <= k < existing@.len() ==> #[trigger] existing@[k] < old(
                    self,
                )@.next,
                staged@.next >= old(self)@.next,
                staged@.next + (names@.len() - i) * new_per_group <= u64::MAX,
                spec_create_groups(old(self)@, nview, existing@, new_per_group as nat)
                    == spec_create_groups(
                    staged@,
                    nview.skip(i as int),
                    existing@,
                    new_per_group as nat,
                ),
            decreases names@.len() - i,
        {
            proof {
                assert(nview.skip(i as int).len() > 0);
                assert(nview.skip(i as int)[0] == nview[i as int]);
                assert(nview.skip(i as int).drop_first() =~= nview.skip(i as int + 1));
                let a = (names@.len() - i) as int;
                let npg = new_per_group as int;
                vstd::arithmetic::mul::lemma_mul_is_distributive_add(npg, a - 1, 1);
                vstd::arithmetic::mul::lemma_mul_is_commutative(npg, a);
                vstd::arithmetic::mul::lemma_mul_is_commutative(npg, a - 1);
                vstd::arithmetic::mul::lemma_mul_nonnegative(a - 1, npg);
                assert(a * npg == (a - 1) * npg + npg);
            }
            let name_i = names[i].clone();
            let ghost before = staged@;
            match staged.create_group(name_i, existing, new_per_group) {
                Err(e) => {
                    proof {
                        assert(spec_create_group(
                            before,
                            nview[i as int],
                            existing@,
                            new_per_group as nat,
                        ) == Err::<GroupsView, GroupError>(e));
                    }
                    return Err(e);
                },
                Ok(()) => {
                    proof {
                        assert(spec_create_group(
                            before,
                            nview[i as int],
                            existing@,
                            new_per_group as nat,
                        ) == Ok::<GroupsView, GroupError>(staged@));
                    }
                },
            }
            i = i + 1;
        }
        proof {
            assert(nview.skip(names@.len() as int) =~= Seq::<Seq<char>>::empty());
        }
        *self = staged;
        Ok(())
    }
}

/// The cap is enforced exactly: a contract whose groups hold `k` distinct
/// references in total can be extended by `MAX_GROUP_UREFS - k` fresh ones,
/// which brings the distinct total to exactly the cap — and extending the
/// same contract by one more reference is then rejected.
pub proof fn lemma_cap_enforcement(v: GroupsView, name: Seq<char>, count: nat)
    requires
        wf_groups(v),
        has_group(v.groups, name),
        count == MAX_GROUP_UREFS - spec_total(v.groups),
        v.next + count <= u64::MAX,
    ensures
        spec_extend(v, name, count) matches Ok(v2) && spec_total(v2.groups) == MAX_GROUP_UREFS
            && spec_extend(v2, name, 1) == Err::<GroupsView, GroupError>(
            GroupError::MaxTotalURefsExceeded,
        ),
{
    let j = group_at(v.groups, name);
    assert(0 <= j < v.groups.len() && v.groups[j].0 == name);
    let fresh = fresh_urefs(v.next, count);
    let gs2 = v.groups.update(j, (v.groups[j].0, v.groups[j].1 + fresh));
    lemma_fresh_no_dup(v.next, count);
    lemma_all_urefs_finite(v.groups);
    lemma_all_urefs_update_extend(v.groups, j, v.groups[j].0, fresh);
    assert forall|k: int| 0 <= k < fresh.len() implies !all_urefs(v.groups).contains(
        #[trigger] fresh[k],
    ) by {
        lemma_all_urefs_contains(v.groups, fresh[k]);
        if all_urefs(v.groups).contains(fresh[k]) {
            let i = choose|i: int|
                0 <= i < v.groups.len() && (#[trigger] v.groups[i]).1.contains(fresh[k]);
            let w = choose|w: int| 0 <= w < v.groups[i].1.len() && v.groups[i].1[w] == fresh[k];
            assert(v.groups[i].1[w] < v.next);
        }
    }
    lemma_card_union_fresh(all_urefs(v.groups), fresh);
    assert(spec_total(gs2) == spec_total(v.groups) + count);
    let v2 = GroupsView { groups: gs2, next: (v.next + count) as u64 };
    assert(spec_extend(v, name, count) == Ok::<GroupsView, GroupError>(v2));
    assert(gs2[j].0 == name);
    assert(has_group(gs2, name));
}

/// Removing one group never touches another: after removing `removed`, the
/// group `other` still exists with exactly the membership it had — in
/// particular, a reference the two groups shared is still enumerated in
/// `other`.
pub proof fn lemma_remove_group_independence(v: GroupsView, removed: Seq<char>, other: Seq<char>)
    requires
        wf_groups(v),
        has_group(v.groups, removed),
        has_group(v.groups, other),
        removed != other,
    ensures
        spec_remove_group(v, removed) matches Ok(v2) && has_group(v2.groups, other)
            && group_urefs(v2.groups, other) == group_urefs(v.groups, other),
{
    let j1 = group_at(v.groups, removed);
    let j2 = group_at(v.groups, other);
    assert(0 <= j1 < v.groups.len() && v.groups[j1].0 == removed);
    assert(0 <= j2 < v.groups.len() && v.groups[j2].0 == other);
    assert(j1 != j2);
    let gs2 = v.groups.remove(j1);
    let j2p: int = if j2 < j1 {
        j2
    } else {
        j2 - 1
    };
    assert(gs2[j2p] == v.groups[j2]);
    assert(distinct_names(gs2)) by {
        assert forall|p: int, q: int| 0 <= p < q < gs2.len() implies #[trigger] gs2[p].0
            != #[trigger] gs2[q].0 by {
            if q < j1 {
                assert(v.groups[p].0 != v.groups[q].0);
            } else if p < j1 {
                assert(v.groups[p].0 != v.groups[q + 1].0);
            } else {
                assert(v.groups[p + 1].0 != v.groups[q + 1].0);
            }
        }
    }
    lemma_group_at_unique(gs2, other, j2p);
}

} // verus!
