//! The controller registry: discovery of one controller per directory
//! entry, the lifecycle of each controller (discovered, then initialized
//! exactly once, then queried every tick until it fails), and the record
//! of reported failures. A failed controller is disabled for the rest of
//! the run: it is never queried again, and the rest continue.

use vstd::prelude::*;

use crate::{FailureKind, PlayerId, PlayerInfo};

verus! {

/// Where one controller stands in its lifecycle.
#[derive(Debug, Copy, Clone, PartialEq, Eq, Structural)]
pub enum ControllerState {
    /// Spawned and awaiting its init exchange.
    Discovered,
    /// Initialized; queried every tick.
    Active,
    /// Failed; excluded from every later tick.
    Disabled,
}

/// One controller as the registry tracks it.
#[derive(Debug, Clone)]
pub struct ControllerSlot {
    pub player_id: PlayerId,
    /// The path the controller was spawned from, for diagnostics.
    pub name: String,
    pub state: ControllerState,
    /// The identity its init exchange produced, once it is `Active`.
    pub info: Option<PlayerInfo>,
}

/// The registry: controller slots ordered by player identifier, and
/// every failure reported so far, in order.
#[derive(Debug)]
pub struct ControllerRegistry {
    pub slots: Vec<ControllerSlot>,
    pub failures: Vec<(PlayerId, FailureKind)>,
}

/// Slots strictly ordered by player identifier.
pub open spec fn slots_wf(slots: Seq<ControllerSlot>) -> bool {
    forall|i: int, j: int|
        0 <= i < j < slots.len() ==> slots[i].player_id.0 < slots[j].player_id.0
}

/// First index holding `pid`, or -1.
pub open spec fn slot_index(slots: Seq<ControllerSlot>, pid: PlayerId) -> int
    decreases slots.len(),
{
    if slots.len() == 0 {
        -1
    } else if slots[0].player_id == pid {
        0
    } else {
        let r = slot_index(slots.skip(1), pid);
        if r == -1 {
            -1
        } else {
            r + 1
        }
    }
}

pub proof fn lemma_slot_index_props(slots: Seq<ControllerSlot>, pid: PlayerId)
    ensures
        slot_index(slots, pid) == -1 ==> forall|i: int|
            0 <= i < slots.len() ==> slots[i].player_id != pid,
        slot_index(slots, pid) != -1 ==> 0 <= slot_index(slots, pid) < slots.len() && slots[
            slot_index(slots, pid)
        ].player_id == pid,
    decreases slots.len(),
{
    if slots.len() == 0 {
    } else if slots[0].player_id == pid {
    } else {
        lemma_slot_index_props(slots.skip(1), pid);
        assert(forall|i: int| 0 <= i < slots.skip(1).len() ==> slots.skip(1)[i] == slots[i + 1]);
        let r = slot_index(slots.skip(1), pid);
        if r == -1 {
            assert forall|i: int| 0 <= i < slots.len() implies slots[i].player_id != pid by {
                if i > 0 {
                    assert(slots[i] == slots.skip(1)[i - 1]);
                }
            }
        }
    }
}

/// The players to query this tick, in slot order: every controller that
/// initialized and has not failed.
pub open spec fn active_ids(slots: Seq<ControllerSlot>) -> Seq<PlayerId>
    decreases slots.len(),
{
    if slots.len() == 0 {
        Seq::<PlayerId>::empty()
    } else {
        let rest = active_ids(slots.drop_last());
        if slots.last().state is Active {
            rest.push(slots.last().player_id)
        } else {
            rest
        }
    }
}

/// A player is queried exactly when its slot is `Active`.
pub proof fn lemma_active_ids_contains(slots: Seq<ControllerSlot>, q: PlayerId)
    ensures
        active_ids(slots).contains(q) <==> exists|i: int|
            0 <= i < slots.len() && (#[trigger] slots[i]).state is Active && slots[i].player_id
                == q,
    decreases slots.len(),
{
    if slots.len() == 0 {
    } else {
        let pre = slots.drop_last();
        lemma_active_ids_contains(pre, q);
        assert(forall|i: int| 0 <= i < pre.len() ==> pre[i] == slots[i]);
        let out = active_ids(slots);
        if slots.last().state is Active {
            assert(out == active_ids(pre).push(slots.last().player_id));
            if active_ids(pre).contains(q) || slots.last().player_id == q {
                assert(out.contains(q)) by {
                    if slots.last().player_id == q {
                        assert(out.last() == q);
                    } else {
                        let k = choose|k: int|
                            0 <= k < active_ids(pre).len() && active_ids(pre)[k] == q;
                        assert(out[k] == q);
                    }
                }
            }
            if out.contains(q) {
                let k = choose|k: int| 0 <= k < out.len() && out[k] == q;
                if k < out.len() - 1 {
                    assert(active_ids(pre)[k] == q);
                } else {
                    assert(slots[slots.len() - 1].player_id == q);
                }
            }
        } else {
            assert(out == active_ids(pre));
            if exists|i: int|
                0 <= i < slots.len() && (#[trigger] slots[i]).state is Active && slots[i].player_id
                    == q {
                let i = choose|i: int|
                    0 <= i < slots.len() && (#[trigger] slots[i]).state is Active
                        && slots[i].player_id == q;
                assert(i < pre.len());
                assert(pre[i] == slots[i]);
            }
        }
    }
}

impl ControllerRegistry {
    /// Slots ordered and the record well-formed.
    pub open spec fn wf(self) -> bool {
        slots_wf(self.slots@)
    }

    /// An empty registry: no controllers, no failures.
    pub fn new() -> (r: ControllerRegistry)
        ensures
            r.wf(),
            r.slots@.len() == 0,
            r.failures@.len() == 0,
    {
        ControllerRegistry { slots: Vec::new(), failures: Vec::new() }
    }

    /// Discovery: one controller per directory entry, assigned player
    /// identifiers 1, 2, ... in the order the listing produced the
    /// entries.
    pub fn discover(names: &Vec<String>) -> (r: ControllerRegistry)
        requires
            names@.len() < 0x7fff_ffff,
        ensures
            r.wf(),
            r.slots@.len() == names@.len(),
            forall|i: int|
                0 <= i < names@.len() ==> (#[trigger] r.slots@[i]).player_id.0 == i + 1
                    && r.slots@[i].name@ == names@[i]@ && r.slots@[i].state is Discovered
                    && r.slots@[i].info is None,
            r.failures@.len() == 0,
    {
        let mut slots: Vec<ControllerSlot> = Vec::new();
        let mut i: usize = 0;
        while i < names.len()
            invariant
                names@.len() < 0x7fff_ffff,
                0 <= i <= names@.len(),
                slots@.len() == i,
                forall|k: int|
                    0 <= k < i ==> (#[trigger] slots@[k]).player_id.0 == k + 1
                        && slots@[k].name@ == names@[k]@ && slots@[k].state is Discovered
                        && slots@[k].info is None,
            decreases names@.len() - i,
        {
            let id = PlayerId((i + 1) as i32);
            slots.push(
                ControllerSlot {
                    player_id: id,
                    name: names[i].clone(),
                    state: ControllerState::Discovered,
                    info: None,
                },
            );
            i += 1;
        }
        ControllerRegistry { slots, failures: Vec::new() }
    }

    /// Index of `pid`'s slot, if the registry holds one.
    pub fn find_slot(&self, pid: PlayerId) -> (r: Option<usize>)
        ensures
            match r {
                Some(i) => slot_index(self.slots@, pid) == i as int,
                None => slot_index(self.slots@, pid) == -1,
            },
    {
        let mut i: usize = 0;
        while i < self.slots.len()
            invariant
                0 <= i <= self.slots@.len(),
                forall|k: int| 0 <= k < i ==> (#[trigger] self.slots@[k]).player_id != pid,
            decreases self.slots@.len() - i,
        {
            if self.slots[i].player_id == pid {
                proof {
                    lemma_slot_index_props(self.slots@, pid);
                    lemma_slot_index_first(self.slots@, pid, i as int);
                }
                return Some(i);
            }
            i += 1;
        }
        proof {
            lemma_slot_index_props(self.slots@, pid);
        }
        None
    }

    /// Whether `pid` was discovered and still awaits initialization.
    pub fn has_discovered(&self, pid: PlayerId) -> (r: bool)
        ensures
            r <==> (slot_index(self.slots@, pid) != -1 && self.slots@[slot_index(
                self.slots@,
                pid,
            )].state is Discovered),
    {
        proof {
            lemma_slot_index_props(self.slots@, pid);
        }
        match self.find_slot(pid) {
            Some(i) => self.slots[i].state == ControllerState::Discovered,
            None => false,
        }
    }

    /// Whether `pid` initialized and has not failed.
    pub fn is_active(&self, pid: PlayerId) -> (r: bool)
        ensures
            r <==> (slot_index(self.slots@, pid) != -1 && self.slots@[slot_index(
                self.slots@,
                pid,
            )].state is Active),
    {
        proof {
            lemma_slot_index_props(self.slots@, pid);
        }
        match self.find_slot(pid) {
            Some(i) => self.slots[i].state == ControllerState::Active,
            None => false,
        }
    }

    /// Records the outcome of `pid`'s one init exchange: success makes
    /// the controller active with the identity it announced; failure
    /// disables it for good and reports exactly one failure. Either
    /// way, every other slot is untouched.
    pub fn record_init(&mut self, pid: PlayerId, outcome: Result<PlayerInfo, FailureKind>)
        requires
            old(self).wf(),
            slot_index(old(self).slots@, pid) != -1,
            old(self).slots@[slot_index(old(self).slots@, pid)].state is Discovered,
        ensures
            final(self).wf(),
            ({
                let i = slot_index(old(self).slots@, pid);
                let pre = old(self).slots@[i];
                match outcome {
                    Ok(info) => final(self).slots@ == old(self).slots@.update(
                        i,
                        ControllerSlot {
                            player_id: pre.player_id,
                            name: pre.name,
                            state: ControllerState::Active,
                            info: Some(info),
                        },
                    ) && final(self).failures@ == old(self).failures@,
                    Err(kind) => final(self).slots@ == old(self).slots@.update(
                        i,
                        ControllerSlot {
                            player_id: pre.player_id,
                            name: pre.name,
                            state: ControllerState::Disabled,
                            info: None,
                        },
                    ) && final(self).failures@ == old(self).failures@.push((pid, kind)),
                }
            }),
    {
        proof {
            lemma_slot_index_props(self.slots@, pid);
        }
        let i = match self.find_slot(pid) {
            Some(i) => i,
            None => {
                proof {
                    assert(false);
                }
                return ;
            },
        };
        let ghost pre_slots = self.slots@;
        let mut slot = self.slots.remove(i);
        match outcome {
            Ok(info) => {
                slot.state = ControllerState::Active;
                slot.info = Some(info);
                self.slots.insert(i, slot);
            },
            Err(kind) => {
                slot.state = ControllerState::Disabled;
                slot.info = None;
                self.slots.insert(i, slot);
                self.failures.push((pid, kind));
            },
        }
        proof {
            assert(self.slots@ =~= pre_slots.update(i as int, self.slots@[i as int]));
            assert forall|a: int, b: int|
                0 <= a < b < self.slots@.len() implies self.slots@[a].player_id.0
                < self.slots@[b].player_id.0 by {
                assert(self.slots@[a].player_id == pre_slots[a].player_id);
                assert(self.slots@[b].player_id == pre_slots[b].player_id);
            }
        }
    }

    /// Reports one failure of an active controller and disables it: it
    /// will not be queried again, and no other slot changes.
    pub fn record_failure(&mut self, pid: PlayerId, kind: FailureKind)
        requires
            old(self).wf(),
            slot_index(old(self).slots@, pid) != -1,
            old(self).slots@[slot_index(old(self).slots@, pid)].state is Active,
        ensures
            final(self).wf(),
            ({
                let i = slot_index(old(self).slots@, pid);
                let pre = old(self).slots@[i];
                final(self).slots@ == old(self).slots@.update(
                    i,
                    ControllerSlot {
                        player_id: pre.player_id,
                        name: pre.name,
                        state: ControllerState::Disabled,
                        info: pre.info,
                    },
                ) && final(self).failures@ == old(self).failures@.push((pid, kind))
            }),
    {
        proof {
            lemma_slot_index_props(self.slots@, pid);
        }
        let i = match self.find_slot(pid) {
            Some(i) => i,
            None => {
                proof {
                    assert(false);
                }
                return ;
            },
        };
        let ghost pre_slots = self.slots@;
        let mut slot = self.slots.remove(i);
        slot.state = ControllerState::Disabled;
        self.slots.insert(i, slot);
        self.failures.push((pid, kind));
        proof {
            assert(self.slots@ =~= pre_slots.update(i as int, self.slots@[i as int]));
            assert forall|a: int, b: int|
                0 <= a < b < self.slots@.len() implies self.slots@[a].player_id.0
                < self.slots@[b].player_id.0 by {
                assert(self.slots@[a].player_id == pre_slots[a].player_id);
                assert(self.slots@[b].player_id == pre_slots[b].player_id);
            }
        }
    }

    /// The players to query this tick, in player order.
    pub fn active_players(&self) -> (r: Vec<PlayerId>)
        ensures
            r@ == active_ids(self.slots@),
    {
        let mut out: Vec<PlayerId> = Vec::new();
        let mut i: usize = 0;
        proof {
            assert(self.slots@.take(0) =~= Seq::<ControllerSlot>::empty());
        }
        while i < self.slots.len()
            invariant
                0 <= i <= self.slots@.len(),
                out@ == active_ids(self.slots@.take(i as int)),
            decreases self.slots@.len() - i,
        {
            proof {
                assert(self.slots@.take(i + 1).drop_last() =~= self.slots@.take(i as int));
                assert(self.slots@.take(i + 1).last() == self.slots@[i as int]);
            }
            if self.slots[i].state == ControllerState::Active {
                out.push(self.slots[i].player_id);
            }
            i += 1;
        }
        proof {
            assert(self.slots@.take(self.slots@.len() as int) =~= self.slots@);
        }
        out
    }

    /// The identity a controller announced, if it is known.
    pub fn get_info(&self, pid: PlayerId) -> (r: Option<&PlayerInfo>)
        ensures
            match r {
                Some(info) => slot_index(self.slots@, pid) != -1 && self.slots@[slot_index(
                    self.slots@,
                    pid,
                )].info == Some(*info),
                None => slot_index(self.slots@, pid) == -1 || self.slots@[slot_index(
                    self.slots@,
                    pid,
                )].info is None,
            },
    {
        proof {
            lemma_slot_index_props(self.slots@, pid);
        }
        match self.find_slot(pid) {
            Some(i) => {
                match &self.slots[i].info {
                    Some(info) => Some(info),
                    None => None,
                }
            },
            None => None,
        }
    }
}

proof fn lemma_slot_index_first(slots: Seq<ControllerSlot>, pid: PlayerId, i: int)
    requires
        0 <= i < slots.len(),
        slots[i].player_id == pid,
        forall|k: int| 0 <= k < i ==> (#[trigger] slots[k]).player_id != pid,
    ensures
        slot_index(slots, pid) == i,
    decreases slots.len(),
{
    if slots[0].player_id == pid {
        assert(i == 0);
    } else {
        assert(forall|k: int| 0 <= k < slots.skip(1).len() ==> slots.skip(1)[k] == slots[k + 1]);
        lemma_slot_index_first(slots.skip(1), pid, i - 1);
    }
}

/// Whether a path names a script that must run through the interpreter.
pub open spec fn is_script_path(path: Seq<char>) -> bool {
    path.len() >= 3 && path.skip(path.len() - 3) == ".py"@
}

/// The launcher's fixed, closed dispatch: a `.py` path is run as
/// `python3 <path>`, any other path is executed directly as a program.
pub fn launch_command(path: &str) -> (r: (String, Vec<String>))
    ensures
        is_script_path(path@) ==> r.0@ == "python3"@ && r.1@.len() == 1 && r.1@[0]@ == path@,
        !is_script_path(path@) ==> r.0@ == path@ && r.1@.len() == 0,
{
    let n = path.unicode_len();
    let is_py = if n >= 3 {
        let tail = path.substring_char(n - 3, n);
        proof {
            assert(tail@ =~= path@.skip(path@.len() - 3));
        }
        crate::text::str_eq(tail, ".py")
    } else {
        false
    };
    if is_py {
        let mut args: Vec<String> = Vec::new();
        args.push(String::from_str(path));
        (String::from_str("python3"), args)
    } else {
        (String::from_str(path), Vec::new())
    }
}

/// Reporting a failure excludes exactly the failed controller from
/// every later tick's query list: its identifier leaves the active
/// list, every other identifier's membership is unchanged, and exactly
/// one failure is reported.
pub proof fn lemma_failure_exclusion(
    pre: ControllerRegistry,
    post: ControllerRegistry,
    pid: PlayerId,
    kind: FailureKind,
)
    requires
        pre.wf(),
        slot_index(pre.slots@, pid) != -1,
        pre.slots@[slot_index(pre.slots@, pid)].state is Active,
        ({
            let i = slot_index(pre.slots@, pid);
            let s = pre.slots@[i];
            post.slots@ == pre.slots@.update(
                i,
                ControllerSlot {
                    player_id: s.player_id,
                    name: s.name,
                    state: ControllerState::Disabled,
                    info: s.info,
                },
            ) && post.failures@ == pre.failures@.push((pid, kind))
        }),
    ensures
        !active_ids(post.slots@).contains(pid),
        forall|q: PlayerId|
            q != pid ==> (active_ids(post.slots@).contains(q) <==> active_ids(
                pre.slots@,
            ).contains(q)),
        post.failures@.len() == pre.failures@.len() + 1,
        post.failures@.last() == (pid, kind),
{
    let i = slot_index(pre.slots@, pid);
    lemma_slot_index_props(pre.slots@, pid);
    lemma_active_ids_contains(post.slots@, pid);
    assert forall|j: int|
        0 <= j < post.slots@.len() && (#[trigger] post.slots@[j]).state is Active implies post.slots@[j].player_id
        != pid by {
        if j != i {
            assert(post.slots@[j] == pre.slots@[j]);
            if pre.slots@[j].player_id == pid {
                if j < i {
                    assert(pre.slots@[j].player_id.0 < pre.slots@[i].player_id.0);
                } else {
                    assert(pre.slots@[i].player_id.0 < pre.slots@[j].player_id.0);
                }
            }
        }
    }
    assert forall|q: PlayerId| q != pid implies (active_ids(post.slots@).contains(q) <==> active_ids(
        pre.slots@,
    ).contains(q)) by {
        lemma_active_ids_contains(post.slots@, q);
        lemma_active_ids_contains(pre.slots@, q);
        assert(forall|j: int|
            0 <= j < pre.slots@.len() && j != i ==> post.slots@[j] == pre.slots@[j]);
        if active_ids(pre.slots@).contains(q) {
            let j = choose|j: int|
                0 <= j < pre.slots@.len() && (#[trigger] pre.slots@[j]).state is Active
                    && pre.slots@[j].player_id == q;
            assert(j != i);
            assert(post.slots@[j].state is Active && post.slots@[j].player_id == q);
        }
        if active_ids(post.slots@).contains(q) {
            let j = choose|j: int|
                0 <= j < post.slots@.len() && (#[trigger] post.slots@[j]).state is Active
                    && post.slots@[j].player_id == q;
            assert(j != i);
            assert(pre.slots@[j].state is Active && pre.slots@[j].player_id == q);
        }
    }
}

/// A controller none of whose slots is active — one disabled earlier,
/// or one that never initialized — is not in the query list: later
/// outcomes recorded for other controllers never bring it back.
pub proof fn lemma_inactive_never_queried(slots: Seq<ControllerSlot>, pid: PlayerId)
    requires
        forall|i: int|
            0 <= i < slots.len() && (#[trigger] slots[i]).player_id == pid ==> !(slots[i].state
                is Active),
    ensures
        !active_ids(slots).contains(pid),
{
    lemma_active_ids_contains(slots, pid);
}

} // verus!
