//! Which parachains this validator is assigned to, per relay parent.
use vstd::prelude::*;
use std::collections::HashMap;
use crate::{BlockHash, ParaId};
use crate::assoc::{keys_unique, lemma_push, lemma_remove, lemma_value_of, to_map};

verus! {

broadcast use vstd::std_specs::hash::group_hash_axioms;

/// A validator, by its position in the validator set.
pub type ValidatorIndex = u32;

/// A block number of the relay chain.
pub type BlockNumber = u32;

/// A group of validators, by its position in the list of groups.
pub type GroupIndex = usize;

/// An availability core, by its position in the list of cores.
pub type CoreIndex = usize;

/// How validator groups rotate over the cores within a session.
#[derive(Clone, Copy, Debug, PartialEq, Eq)]
pub struct GroupRotationInfo {
    pub session_start_block: BlockNumber,
    pub group_rotation_frequency: BlockNumber,
    pub now: BlockNumber,
}

/// The number of rotations since the session started at block `now`.
pub open spec fn rotations(info: GroupRotationInfo) -> nat {
    if info.now >= info.session_start_block {
        ((info.now - info.session_start_block) / (info.group_rotation_frequency as int)) as nat
    } else {
        0
    }
}

/// The core that `group` is assigned to among `cores` cores.
pub open spec fn spec_core_for_group(info: GroupRotationInfo, group: GroupIndex, cores: nat) -> CoreIndex {
    if info.group_rotation_frequency == 0 {
        group
    } else if cores == 0 {
        0
    } else {
        ((group + rotations(info)) % (cores as int)) as CoreIndex
    }
}

/// The first block of the rotation after the current one.
pub open spec fn spec_next_rotation_at(info: GroupRotationInfo) -> int {
    let cycle_once = info.now + info.group_rotation_frequency;
    let since_start = if cycle_once >= info.session_start_block { cycle_once - info.session_start_block } else { 0 };
    cycle_once - since_start % (info.group_rotation_frequency as int)
}

/// Whether the rotation after the current one can be named: groups rotate at all, and its first
/// block number exists.
pub open spec fn can_bump(info: GroupRotationInfo) -> bool {
    info.group_rotation_frequency > 0 && info.now + info.group_rotation_frequency <= u32::MAX
}

/// The rotation info as of the next rotation, where it can be named; otherwise unchanged,
/// which assigns each group the same core (without rotation, the current block plays no part).
pub open spec fn spec_bumped(info: GroupRotationInfo) -> GroupRotationInfo {
    if can_bump(info) {
        GroupRotationInfo { now: spec_next_rotation_at(info) as BlockNumber, ..info }
    } else {
        info
    }
}

impl GroupRotationInfo {
    /// The core that `group` is assigned to among `cores` cores: groups move on by one core per
    /// rotation; without rotation a group keeps the core of its own index.
    pub fn core_for_group(&self, group: GroupIndex, cores: usize) -> (r: CoreIndex)
        ensures
            r == spec_core_for_group(*self, group, cores as nat),
    {
        if self.group_rotation_frequency == 0 {
            return group;
        }
        if cores == 0 {
            return 0;
        }
        let since_start: u32 = if self.now >= self.session_start_block {
            self.now - self.session_start_block
        } else {
            0
        };
        let rotations: u32 = since_start / self.group_rotation_frequency;
        let idx: u128 = (group as u128 + rotations as u128) % (cores as u128);
        idx as usize
    }

    /// The first block of the next rotation.
    pub fn next_rotation_at(&self) -> (r: BlockNumber)
        requires
            can_bump(*self),
        ensures
            r == spec_next_rotation_at(*self),
    {
        let cycle_once: u32 = self.now + self.group_rotation_frequency;
        let since_start: u32 = if cycle_once >= self.session_start_block {
            cycle_once - self.session_start_block
        } else {
            0
        };
        proof {
            assert(since_start % self.group_rotation_frequency <= since_start) by (nonlinear_arith)
                requires self.group_rotation_frequency > 0;
            assert(since_start % self.group_rotation_frequency < self.group_rotation_frequency) by (nonlinear_arith)
                requires self.group_rotation_frequency > 0;
        }
        cycle_once - since_start % self.group_rotation_frequency
    }

    /// The rotation info one rotation on; see [`spec_bumped`] for when that cannot be named.
    pub fn bump_rotation(&self) -> (r: GroupRotationInfo)
        ensures
            r == spec_bumped(*self),
    {
        if self.group_rotation_frequency > 0 && self.now <= u32::MAX - self.group_rotation_frequency {
            GroupRotationInfo {
                session_start_block: self.session_start_block,
                group_rotation_frequency: self.group_rotation_frequency,
                now: self.next_rotation_at(),
            }
        } else {
            *self
        }
    }
}

/// What occupies an availability core.
#[derive(Clone, Copy, Debug, PartialEq, Eq)]
pub enum CoreState {
    /// A candidate of the para is pending availability on the core.
    Occupied(ParaId),
    /// The para is scheduled on the core.
    Scheduled(ParaId),
    /// Nothing is scheduled on the core.
    Free,
}

impl CoreState {
    pub open spec fn spec_para_id(self) -> Option<ParaId> {
        match self {
            CoreState::Occupied(p) => Some(p),
            CoreState::Scheduled(p) => Some(p),
            CoreState::Free => None,
        }
    }

    /// The para the core serves, if any.
    pub fn para_id(&self) -> (r: Option<ParaId>)
        ensures
            r == self.spec_para_id(),
    {
        match self {
            CoreState::Occupied(p) => Some(*p),
            CoreState::Scheduled(p) => Some(*p),
            CoreState::Free => None,
        }
    }
}

/// The first group at or after `g` that holds `index`, if any.
pub open spec fn first_group_from(groups: Seq<Vec<ValidatorIndex>>, index: ValidatorIndex, g: nat) -> Option<GroupIndex>
    decreases groups.len() - g,
{
    if g >= groups.len() {
        None
    } else if groups[g as int]@.contains(index) {
        Some(g as GroupIndex)
    } else {
        first_group_from(groups, index, g + 1)
    }
}

/// The first group that holds `index`, if any.
pub open spec fn spec_find_group(groups: Seq<Vec<ValidatorIndex>>, index: ValidatorIndex) -> Option<GroupIndex> {
    first_group_from(groups, index, 0)
}

/// The group that the validator `index` belongs to: the first that holds it.
pub fn find_validator_group(groups: &Vec<Vec<ValidatorIndex>>, index: ValidatorIndex) -> (r: Option<GroupIndex>)
    ensures
        r == spec_find_group(groups@, index),
        r is None ==> forall|h: int| 0 <= h < groups@.len() ==> !groups@[h]@.contains(index),
        r matches Some(g) ==> g < groups@.len() && groups@[g as int]@.contains(index)
            && forall|h: int| 0 <= h < g ==> !groups@[h]@.contains(index),
{
    let mut g: usize = 0;
    while g < groups.len()
        invariant
            0 <= g <= groups@.len(),
            forall|h: int| 0 <= h < g ==> !groups@[h]@.contains(index),
            spec_find_group(groups@, index) == first_group_from(groups@, index, g as nat),
        decreases groups@.len() - g,
    {
        let group = &groups[g];
        let mut k: usize = 0;
        while k < group.len()
            invariant
                0 <= k <= group@.len(),
                g < groups@.len(),
                group@ == groups@[g as int]@,
                forall|h: int| 0 <= h < g ==> !groups@[h]@.contains(index),
                spec_find_group(groups@, index) == first_group_from(groups@, index, g as nat),
                forall|j: int| 0 <= j < k ==> group@[j] != index,
            decreases group@.len() - k,
        {
            if group[k] == index {
                proof {
                    assert(group@[k as int] == index);
                    assert(groups@[g as int]@.contains(index));
                }
                return Some(g);
            }
            k += 1;
        }
        g += 1;
    }
    None
}

/// The paras this validator's group is assigned to at a relay parent: now and after the next
/// rotation.
#[derive(Clone, Copy, Debug, PartialEq, Eq)]
pub struct GroupAssignments {
    pub current: Option<ParaId>,
    pub next: Option<ParaId>,
}

/// What the runtime and the keystore tell about one relay parent.
pub struct SchedulingInfo {
    pub relay_parent: BlockHash,
    /// For each validator of the set, in order, whether our keystore holds its key.
    pub keys_held: Vec<bool>,
    pub validator_groups: Vec<Vec<ValidatorIndex>>,
    pub group_rotation_info: GroupRotationInfo,
    pub availability_cores: Vec<CoreState>,
}

/// The first position at or after `i` whose flag is set.
pub open spec fn first_held_from(held: Seq<bool>, i: nat) -> Option<nat>
    decreases held.len() - i,
{
    if i >= held.len() {
        None
    } else if held[i as int] {
        Some(i)
    } else {
        first_held_from(held, i + 1)
    }
}

/// Our index in the validator set: the first validator whose key we hold, where that position
/// can be named by a validator index.
pub open spec fn spec_signing_index(held: Seq<bool>) -> Option<ValidatorIndex> {
    match first_held_from(held, 0) {
        Some(i) => if i <= u32::MAX { Some(i as ValidatorIndex) } else { None },
        None => None,
    }
}

/// Our index in the validator set, given for each validator whether our keystore holds its
/// key: the first one we hold.
pub fn signing_validator_index(keys_held: &Vec<bool>) -> (r: Option<ValidatorIndex>)
    ensures
        r == spec_signing_index(keys_held@),
{
    let mut i: usize = 0;
    while i < keys_held.len()
        invariant
            0 <= i <= keys_held@.len(),
            first_held_from(keys_held@, 0) == first_held_from(keys_held@, i as nat),
        decreases keys_held@.len() - i,
    {
        if keys_held[i] {
            if i <= u32::MAX as usize {
                return Some(i as ValidatorIndex);
            }
            return None;
        }
        i += 1;
    }
    None
}

/// The para served by core `c`, if it exists and serves one.
pub open spec fn core_para(cores: Seq<CoreState>, c: CoreIndex) -> Option<ParaId> {
    if c < cores.len() { cores[c as int].spec_para_id() } else { None }
}

/// Our assignments at a relay parent: none where we are not a validator in one of its groups.
pub open spec fn spec_group_assignments(info: SchedulingInfo) -> Option<GroupAssignments> {
    match spec_signing_index(info.keys_held@) {
        None => None,
        Some(index) => match spec_find_group(info.validator_groups@, index) {
            None => None,
            Some(group) => {
                let n = info.availability_cores@.len();
                let core_now = spec_core_for_group(info.group_rotation_info, group, n);
                let core_next = spec_core_for_group(spec_bumped(info.group_rotation_info), group, n);
                Some(GroupAssignments {
                    current: core_para(info.availability_cores@, core_now),
                    next: core_para(info.availability_cores@, core_next),
                })
            },
        },
    }
}

/// Our group's paras at the relay parent that `info` describes: the paras of the cores it is
/// assigned to now and after one more rotation.
pub fn group_assignments(info: &SchedulingInfo) -> (r: Option<GroupAssignments>)
    ensures
        r == spec_group_assignments(*info),
{
    let index = match signing_validator_index(&info.keys_held) {
        None => { return None; },
        Some(i) => i,
    };
    let group = match find_validator_group(&info.validator_groups, index) {
        None => { return None; },
        Some(g) => g,
    };
    let n = info.availability_cores.len();
    let core_now = info.group_rotation_info.core_for_group(group, n);
    let core_next = info.group_rotation_info.bump_rotation().core_for_group(group, n);
    let current = if core_now < n { info.availability_cores[core_now].para_id() } else { None };
    let next = if core_next < n { info.availability_cores[core_next].para_id() } else { None };
    Some(GroupAssignments { current, next })
}

/// The para in the current (`now`) or next slot of an assignment.
pub open spec fn slot(ga: GroupAssignments, now: bool) -> Option<ParaId> {
    if now { ga.current } else { ga.next }
}

/// How many relay parents of `s` have `p` in the given slot.
pub open spec fn count_slot(s: Seq<(BlockHash, GroupAssignments)>, p: ParaId, now: bool) -> nat
    decreases s.len(),
{
    if s.len() == 0 {
        0
    } else {
        count_slot(s.drop_last(), p, now) + (if slot(s.last().1, now) == Some(p) { 1nat } else { 0nat })
    }
}

proof fn lemma_count_push(s: Seq<(BlockHash, GroupAssignments)>, x: (BlockHash, GroupAssignments), p: ParaId, now: bool)
    ensures
        count_slot(s.push(x), p, now) == count_slot(s, p, now) + (if slot(x.1, now) == Some(p) { 1nat } else { 0nat }),
{
    assert(s.push(x).drop_last() =~= s);
}

proof fn lemma_count_bound(s: Seq<(BlockHash, GroupAssignments)>, p: ParaId, now: bool)
    ensures
        count_slot(s, p, now) <= s.len(),
    decreases s.len(),
{
    if s.len() > 0 {
        lemma_count_bound(s.drop_last(), p, now);
    }
}

proof fn lemma_count_positive(s: Seq<(BlockHash, GroupAssignments)>, p: ParaId, now: bool)
    ensures
        count_slot(s, p, now) > 0 <==> exists|i: int| 0 <= i < s.len() && slot(s[i].1, now) == Some(p),
    decreases s.len(),
{
    if s.len() > 0 {
        let t = s.drop_last();
        lemma_count_positive(t, p, now);
        if exists|i: int| 0 <= i < t.len() && slot(t[i].1, now) == Some(p) {
            let i = choose|i: int| 0 <= i < t.len() && slot(t[i].1, now) == Some(p);
            assert(s[i] == t[i]);
        }
        if exists|i: int| 0 <= i < s.len() && slot(s[i].1, now) == Some(p) {
            let i = choose|i: int| 0 <= i < s.len() && slot(s[i].1, now) == Some(p);
            if i < t.len() {
                assert(t[i] == s[i]);
            }
        }
    }
}

proof fn lemma_count_remove(s: Seq<(BlockHash, GroupAssignments)>, i: int, p: ParaId, now: bool)
    requires
        0 <= i < s.len(),
    ensures
        count_slot(s.remove(i), p, now) + (if slot(s[i].1, now) == Some(p) { 1nat } else { 0nat })
            == count_slot(s, p, now),
    decreases s.len(),
{
    if i == s.len() - 1 {
        assert(s.remove(i) =~= s.drop_last());
    } else {
        let t = s.drop_last();
        lemma_count_remove(t, i, p, now);
        assert(s.remove(i).drop_last() =~= t.remove(i));
        assert(s.remove(i).last() == s.last());
    }
}

/// The relay parents we follow, with our assignments at each, and how many of them have each para
/// as current or next assignment.
pub struct ActiveParas {
    /// A list, so that the counts below are counts over its entries.
    relay_parent_assignments: Vec<(BlockHash, GroupAssignments)>,
    current_assignments: HashMap<ParaId, usize>,
    next_assignments: HashMap<ParaId, usize>,
}

/// `m` holds, for each para with a positive count in slot `now`, that count.
pub open spec fn counts_match(m: Map<ParaId, usize>, s: Seq<(BlockHash, GroupAssignments)>, now: bool) -> bool {
    forall|p: ParaId| (#[trigger] m.contains_key(p) <==> count_slot(s, p, now) > 0)
        && (m.contains_key(p) ==> m[p] == count_slot(s, p, now))
}

/// Our assignments at `rp` according to the first of `infos` from position `i` on that
/// describes it; none if no such answer came.
pub open spec fn first_answer_from(infos: Seq<SchedulingInfo>, rp: BlockHash, i: nat) -> Option<GroupAssignments>
    decreases infos.len() - i,
{
    if i >= infos.len() {
        None
    } else if infos[i as int].relay_parent == rp {
        spec_group_assignments(infos[i as int])
    } else {
        first_answer_from(infos, rp, i + 1)
    }
}

/// Our assignments at `rp` according to the first of `infos` that describes it.
pub open spec fn answer_for(infos: Seq<SchedulingInfo>, rp: BlockHash) -> Option<GroupAssignments> {
    first_answer_from(infos, rp, 0)
}

/// Our assignments at `rp` according to the first of `infos` that describes it: none where no
/// answer came for it or we are not in a validator group there.
pub fn assignments_for(infos: &Vec<SchedulingInfo>, rp: BlockHash) -> (r: Option<GroupAssignments>)
    ensures
        r == answer_for(infos@, rp),
{
    let mut i: usize = 0;
    while i < infos.len()
        invariant
            0 <= i <= infos@.len(),
            answer_for(infos@, rp) == first_answer_from(infos@, rp, i as nat),
        decreases infos@.len() - i,
    {
        if infos[i].relay_parent == rp {
            return group_assignments(&infos[i]);
        }
        i += 1;
    }
    None
}

/// `m` with our assignments at `rp` added, unless it is followed already or we have none there.
pub open spec fn assign_step(m: Map<BlockHash, GroupAssignments>, rp: BlockHash, infos: Seq<SchedulingInfo>)
    -> Map<BlockHash, GroupAssignments>
{
    match answer_for(infos, rp) {
        Some(ga) => if m.contains_key(rp) { m } else { m.insert(rp, ga) },
        None => m,
    }
}

/// `m` with our assignments at each of `rps` added in turn.
pub open spec fn assigned_after(m: Map<BlockHash, GroupAssignments>, rps: Seq<BlockHash>, infos: Seq<SchedulingInfo>)
    -> Map<BlockHash, GroupAssignments>
    decreases rps.len(),
{
    if rps.len() == 0 {
        m
    } else {
        assign_step(assigned_after(m, rps.drop_last(), infos), rps.last(), infos)
    }
}

/// Adding the assignments at `rps` adds exactly those of them for which an answer gives us
/// assignments, and keeps what was there.
pub proof fn lemma_assigned_after(m: Map<BlockHash, GroupAssignments>, rps: Seq<BlockHash>, infos: Seq<SchedulingInfo>)
    ensures
        forall|h: BlockHash| #[trigger] assigned_after(m, rps, infos).contains_key(h)
            <==> (m.contains_key(h) || (rps.contains(h) && answer_for(infos, h) is Some)),
        forall|h: BlockHash| #[trigger] assigned_after(m, rps, infos).contains_key(h)
            ==> assigned_after(m, rps, infos)[h] == (if m.contains_key(h) { m[h] } else { answer_for(infos, h).unwrap() }),
    decreases rps.len(),
{
    if rps.len() > 0 {
        let init = rps.drop_last();
        lemma_assigned_after(m, init, infos);
        assert forall|h: BlockHash| #[trigger] rps.contains(h) <==> (init.contains(h) || h == rps.last()) by {
            if rps.contains(h) {
                let k = choose|k: int| 0 <= k < rps.len() && rps[k] == h;
                if k < init.len() {
                    assert(init[k] == h);
                }
            }
            if init.contains(h) {
                let k = choose|k: int| 0 <= k < init.len() && init[k] == h;
                assert(rps[k] == h);
            }
            if h == rps.last() {
                assert(rps[rps.len() - 1] == h);
            }
        }
        let prev = assigned_after(m, init, infos);
        let rp = rps.last();
        assert(assigned_after(m, rps, infos) == assign_step(prev, rp, infos));
        assert forall|h: BlockHash| #[trigger] assigned_after(m, rps, infos).contains_key(h)
            <==> (m.contains_key(h) || (rps.contains(h) && answer_for(infos, h) is Some)) by {
            assert(prev.contains_key(h) <==> (m.contains_key(h) || (init.contains(h) && answer_for(infos, h) is Some)));
        }
        assert forall|h: BlockHash| #[trigger] assigned_after(m, rps, infos).contains_key(h)
            implies assigned_after(m, rps, infos)[h] == (if m.contains_key(h) { m[h] } else { answer_for(infos, h).unwrap() }) by {
            if prev.contains_key(h) {
                assert(prev[h] == (if m.contains_key(h) { m[h] } else { answer_for(infos, h).unwrap() }));
            }
        }
    } else {
        assert(rps =~= Seq::<BlockHash>::empty());
    }
}

impl ActiveParas {
    /// The followed relay parents with our assignments there.
    pub closed spec fn by_relay_parent(&self) -> Map<BlockHash, GroupAssignments> {
        to_map(self.relay_parent_assignments@)
    }

    pub closed spec fn wf(&self) -> bool {
        &&& keys_unique(self.relay_parent_assignments@)
        &&& counts_match(self.current_assignments@, self.relay_parent_assignments@, true)
        &&& counts_match(self.next_assignments@, self.relay_parent_assignments@, false)
    }

    /// Whether `p` is the current or next assignment at some followed relay parent.
    pub open spec fn of_interest(&self, p: ParaId) -> bool {
        exists|h: BlockHash| #[trigger] self.by_relay_parent().contains_key(h)
            && (self.by_relay_parent()[h].current == Some(p) || self.by_relay_parent()[h].next == Some(p))
    }

    pub fn new() -> (r: ActiveParas)
        ensures
            r.wf(),
            r.by_relay_parent() == Map::<BlockHash, GroupAssignments>::empty(),
    {
        let r = ActiveParas {
            relay_parent_assignments: Vec::new(),
            current_assignments: HashMap::new(),
            next_assignments: HashMap::new(),
        };
        proof {
            assert(to_map(r.relay_parent_assignments@) =~= Map::<BlockHash, GroupAssignments>::empty());
        }
        r
    }

    /// Whether we accept collators of `p`: it is our current or next assignment at a followed
    /// relay parent.
    pub fn is_current_or_next(&self, p: ParaId) -> (r: bool)
        requires
            self.wf(),
        ensures
            r == self.of_interest(p),
    {
        let r = self.current_assignments.contains_key(&p) || self.next_assignments.contains_key(&p);
        proof {
            let s = self.relay_parent_assignments@;
            lemma_count_positive(s, p, true);
            lemma_count_positive(s, p, false);
            if r {
                let i = choose|i: int| 0 <= i < s.len()
                    && (slot(s[i].1, true) == Some(p) || slot(s[i].1, false) == Some(p));
                lemma_value_of(s, i);
                assert(self.by_relay_parent().contains_key(s[i].0));
            }
            if self.of_interest(p) {
                let h = choose|h: BlockHash| #[trigger] self.by_relay_parent().contains_key(h)
                    && (self.by_relay_parent()[h].current == Some(p) || self.by_relay_parent()[h].next == Some(p));
                let i = choose|i: int| 0 <= i < s.len() && s[i].0 == h;
                lemma_value_of(s, i);
                assert(slot(s[i].1, true) == Some(p) || slot(s[i].1, false) == Some(p));
            }
        }
        r
    }

    fn find(&self, h: BlockHash) -> (r: Option<usize>)
        requires
            self.wf(),
        ensures
            r is None ==> !self.by_relay_parent().contains_key(h),
            r matches Some(i) ==> i < self.relay_parent_assignments@.len()
                && self.relay_parent_assignments@[i as int].0 == h,
    {
        let mut i: usize = 0;
        while i < self.relay_parent_assignments.len()
            invariant
                0 <= i <= self.relay_parent_assignments@.len(),
                forall|j: int| 0 <= j < i ==> self.relay_parent_assignments@[j].0 != h,
            decreases self.relay_parent_assignments@.len() - i,
        {
            if self.relay_parent_assignments[i].0 == h {
                return Some(i);
            }
            i += 1;
        }
        None
    }

    /// Adds one to the count of `p`, if any, in the given slot.
    fn bump(m: &mut HashMap<ParaId, usize>, p: Option<ParaId>, s: Ghost<Seq<(BlockHash, GroupAssignments)>>,
        x: (BlockHash, GroupAssignments), now: bool)
        requires
            counts_match(old(m)@, s@, now),
            p == slot(x.1, now),
            s@.len() < usize::MAX,
        ensures
            counts_match(final(m)@, s@.push(x), now),
    {
        let ghost s = s@;
        proof {
            assert forall|q: ParaId| count_slot(s.push(x), q, now)
                == count_slot(s, q, now) + (if slot(x.1, now) == Some(q) { 1nat } else { 0nat }) by {
                lemma_count_push(s, x, q, now);
            }
        }
        match p {
            None => {},
            Some(para) => {
                let c: usize = match m.get(&para) {
                    Some(c) => *c,
                    None => 0,
                };
                proof { lemma_count_bound(s, para, now); }
                m.insert(para, c + 1);
            },
        }
    }

    /// Takes one off the count of `p`, if any, in the given slot; a count that reaches zero
    /// is dropped.
    fn unbump(m: &mut HashMap<ParaId, usize>, p: Option<ParaId>, s: Ghost<Seq<(BlockHash, GroupAssignments)>>, i: usize, now: bool)
        requires
            counts_match(old(m)@, s@, now),
            i < s@.len(),
            p == slot(s@[i as int].1, now),
        ensures
            counts_match(final(m)@, s@.remove(i as int), now),
    {
        let ghost s = s@;
        let ghost i = i as int;
        proof {
            assert forall|q: ParaId| count_slot(s.remove(i), q, now)
                + (if slot(s[i].1, now) == Some(q) { 1nat } else { 0nat }) == count_slot(s, q, now) by {
                lemma_count_remove(s, i, q, now);
            }
        }
        match p {
            None => {},
            Some(para) => {
                let c: usize = match m.get(&para) {
                    Some(c) => *c,
                    None => 0,
                };
                if c <= 1 {
                    m.remove(&para);
                } else {
                    m.insert(para, c - 1);
                }
            },
        }
    }

    /// Starts following `relay_parent` with the assignments `ga`.
    fn insert_relay_parent(&mut self, relay_parent: BlockHash, ga: GroupAssignments)
        requires
            old(self).wf(),
            !old(self).by_relay_parent().contains_key(relay_parent),
        ensures
            final(self).wf(),
            final(self).by_relay_parent() == old(self).by_relay_parent().insert(relay_parent, ga),
    {
        let ghost s = self.relay_parent_assignments@;
        let x = (relay_parent, ga);
        self.relay_parent_assignments.push(x);
        let n = self.relay_parent_assignments.len();
        proof {
            assert(s.len() + 1 == n);
            lemma_push(s, relay_parent, ga);
        }
        Self::bump(&mut self.current_assignments, ga.current, Ghost(s), x, true);
        Self::bump(&mut self.next_assignments, ga.next, Ghost(s), x, false);
    }

    /// Stops following `relay_parent`, if it is followed.
    fn remove_relay_parent(&mut self, relay_parent: BlockHash)
        requires
            old(self).wf(),
        ensures
            final(self).wf(),
            final(self).by_relay_parent() == old(self).by_relay_parent().remove(relay_parent),
    {
        match self.find(relay_parent) {
            None => {
                proof { assert(self.by_relay_parent().remove(relay_parent) =~= self.by_relay_parent()); }
            },
            Some(i) => {
                let ghost s = self.relay_parent_assignments@;
                let (_, ga) = self.relay_parent_assignments.remove(i);
                proof { lemma_remove(s, i as int); }
                Self::unbump(&mut self.current_assignments, ga.current, Ghost(s), i, true);
                Self::unbump(&mut self.next_assignments, ga.next, Ghost(s), i, false);
            },
        }
    }

    /// Follows each of `new_relay_parents` in turn, with our assignments there as `infos`
    /// describe them; one that is followed already, that no answer describes, or where we are
    /// not in a validator group, is left out.
    pub fn assign_incoming(&mut self, new_relay_parents: &Vec<BlockHash>, infos: &Vec<SchedulingInfo>)
        requires
            old(self).wf(),
        ensures
            final(self).wf(),
            final(self).by_relay_parent() == assigned_after(old(self).by_relay_parent(), new_relay_parents@, infos@),
    {
        let ghost start = self.by_relay_parent();
        let mut i: usize = 0;
        while i < new_relay_parents.len()
            invariant
                0 <= i <= new_relay_parents@.len(),
                self.wf(),
                self.by_relay_parent() == assigned_after(start, new_relay_parents@.subrange(0, i as int), infos@),
            decreases new_relay_parents@.len() - i,
        {
            let rp = new_relay_parents[i];
            let ghost before = self.by_relay_parent();
            match assignments_for(infos, rp) {
                None => {},
                Some(ga) => {
                    if self.find(rp).is_none() {
                        self.insert_relay_parent(rp, ga);
                    }
                },
            }
            proof {
                let t = new_relay_parents@.subrange(0, i as int + 1);
                assert(t.drop_last() =~= new_relay_parents@.subrange(0, i as int));
                assert(t.last() == rp);
                assert(self.by_relay_parent() == assign_step(before, rp, infos@));
            }
            i += 1;
        }
        proof { assert(new_relay_parents@.subrange(0, new_relay_parents@.len() as int) =~= new_relay_parents@); }
    }

    /// Stops following each of `old_relay_parents`.
    pub fn remove_outgoing(&mut self, old_relay_parents: &Vec<BlockHash>)
        requires
            old(self).wf(),
        ensures
            final(self).wf(),
            final(self).by_relay_parent() == old(self).by_relay_parent().remove_keys(old_relay_parents@.to_set()),
    {
        let ghost start = self.by_relay_parent();
        let mut i: usize = 0;
        while i < old_relay_parents.len()
            invariant
                0 <= i <= old_relay_parents@.len(),
                self.wf(),
                self.by_relay_parent() == start.remove_keys(old_relay_parents@.subrange(0, i as int).to_set()),
            decreases old_relay_parents@.len() - i,
        {
            let ghost before = self.by_relay_parent();
            self.remove_relay_parent(old_relay_parents[i]);
            proof {
                let t = old_relay_parents@.subrange(0, i as int + 1);
                assert(t.to_set() =~= old_relay_parents@.subrange(0, i as int).to_set().insert(old_relay_parents@[i as int])) by {
                    assert(t =~= old_relay_parents@.subrange(0, i as int).push(old_relay_parents@[i as int]));
                    old_relay_parents@.subrange(0, i as int).lemma_push_to_set_commute(old_relay_parents@[i as int]);
                }
                assert(self.by_relay_parent() =~= start.remove_keys(t.to_set()));
            }
            i += 1;
        }
        proof { assert(old_relay_parents@.subrange(0, old_relay_parents@.len() as int) =~= old_relay_parents@); }
    }
}

} // verus!
