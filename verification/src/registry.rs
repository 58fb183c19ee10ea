//! Low-latency TCP/IP registry tuning and its undoing.
//!
//! On systems with a registry, each value is backed up before it is changed,
//! and restoring writes every backed-up value back (or deletes a value that
//! did not exist before), newest backup first, so that after repeated tuning
//! each value ends as it was before the first. The registry itself is reached by the caller; this
//! module keeps the backups and says what to write. On systems without a
//! registry, applying and restoring change nothing.
use vstd::prelude::*;
use vstd::string::StringExecFns;

verus! {

/// Where the multimedia scheduler's system profile lives.
pub const SYSTEM_PROFILE_PATH: &'static str = "SOFTWARE\\Microsoft\\Windows NT\\CurrentVersion\\Multimedia\\SystemProfile";

/// Where the per-interface TCP/IP parameters live.
pub const INTERFACES_ROOT_PATH: &'static str = "SYSTEM\\CurrentControlSet\\Services\\Tcpip\\Parameters\\Interfaces";

/// A value as it was before tuning: `None` when it did not exist.
#[derive(Debug)]
pub struct RegistryBackupEntry {
    pub key_path: String,
    pub value_name: String,
    pub original_value: Option<u32>,
}

/// One registry write that restoring performs.
#[derive(Debug)]
pub enum RestoreAction {
    /// Set the DWORD value back to what it was.
    SetDword { key_path: String, value_name: String, value: u32 },
    /// Delete a value that did not exist before tuning.
    DeleteValue { key_path: String, value_name: String },
}

/// Why tuning failed.
#[derive(Debug, Clone, Copy, PartialEq, Eq, Structural)]
pub enum RegistryError {
    /// The registry could not be written.
    AccessDenied,
}

/// Applies and undoes the registry tuning.
#[derive(Debug)]
pub struct RegistryOptimizer {
    backups: Vec<RegistryBackupEntry>,
}

/// A registry value's address: key path and value name.
pub type RegKey = (Seq<char>, Seq<char>);

/// The address and original value of a backup entry.
pub open spec fn entry_view(e: RegistryBackupEntry) -> (RegKey, Option<u32>) {
    ((e.key_path@, e.value_name@), e.original_value)
}

/// The address and the value that a restore action writes (`None`: deleted).
pub open spec fn action_view(a: RestoreAction) -> (RegKey, Option<u32>) {
    match a {
        RestoreAction::SetDword { key_path, value_name, value } => ((key_path@, value_name@), Some(value)),
        RestoreAction::DeleteValue { key_path, value_name } => ((key_path@, value_name@), None),
    }
}

/// The registry, as a map from value addresses to DWORD values (`None`:
/// absent), after performing the writes `plan` in order.
pub open spec fn run_plan(reg: Map<RegKey, Option<u32>>, plan: Seq<(RegKey, Option<u32>)>) -> Map<
    RegKey,
    Option<u32>,
>
    decreases plan.len(),
{
    if plan.len() == 0 {
        reg
    } else {
        run_plan(reg, plan.drop_last()).insert(plan.last().0, plan.last().1)
    }
}

/// The value that tuning writes to each interface's TCP/IP parameters:
/// immediate ACKs, Nagle off, no delayed-ACK ticks.
pub open spec fn interface_tuning() -> Seq<(Seq<char>, u32)> {
    seq![("TcpAckFrequency"@, 1u32), ("TCPNoDelay"@, 1u32), ("TcpDelAckTicks"@, 0u32)]
}

/// The values that tuning writes to the multimedia system profile: network
/// throttling off, no CPU reserved for background tasks.
pub open spec fn system_profile_tuning() -> Seq<(Seq<char>, u32)> {
    seq![("NetworkThrottlingIndex"@, 0xFFFF_FFFFu32), ("SystemResponsiveness"@, 0u32)]
}

/// The (value name, DWORD) pairs written under each network interface key.
pub fn interface_tuning_values() -> (r: Vec<(String, u32)>)
    ensures
        r@.len() == 3,
        forall|i: int| 0 <= i < 3 ==> r@[i].0@ == interface_tuning()[i].0 && r@[i].1 == interface_tuning()[i].1,
{
    let mut r: Vec<(String, u32)> = Vec::new();
    r.push(("TcpAckFrequency".to_owned(), 1));
    r.push(("TCPNoDelay".to_owned(), 1));
    r.push(("TcpDelAckTicks".to_owned(), 0));
    proof {
        reveal_strlit("TcpAckFrequency");
        reveal_strlit("TCPNoDelay");
        reveal_strlit("TcpDelAckTicks");
    }
    r
}

/// The (value name, DWORD) pairs written under the system profile key.
pub fn system_profile_tuning_values() -> (r: Vec<(String, u32)>)
    ensures
        r@.len() == 2,
        forall|i: int| 0 <= i < 2 ==> r@[i].0@ == system_profile_tuning()[i].0 && r@[i].1 == system_profile_tuning()[i].1,
{
    let mut r: Vec<(String, u32)> = Vec::new();
    r.push(("NetworkThrottlingIndex".to_owned(), 0xFFFF_FFFF));
    r.push(("SystemResponsiveness".to_owned(), 0));
    proof {
        reveal_strlit("NetworkThrottlingIndex");
        reveal_strlit("SystemResponsiveness");
    }
    r
}

/// A DWORD value that tuning sets.
#[derive(Debug)]
pub struct TuningWrite {
    pub key_path: String,
    pub value_name: String,
    pub value: u32,
}

/// The address and the value of a tuning write.
pub open spec fn tuning_write_view(w: TuningWrite) -> (RegKey, u32) {
    ((w.key_path@, w.value_name@), w.value)
}

/// The key holding the TCP/IP parameters of the network interface `name`.
pub open spec fn interface_path(name: Seq<char>) -> Seq<char> {
    INTERFACES_ROOT_PATH@ + seq!['\\'] + name
}

/// The writes of the (value name, DWORD) pairs `values` under `path`.
pub open spec fn writes_under(path: Seq<char>, values: Seq<(Seq<char>, u32)>) -> Seq<(RegKey, u32)> {
    values.map_values(|nv: (Seq<char>, u32)| ((path, nv.0), nv.1))
}

/// The writes under each of the network interfaces `names`, in order.
pub open spec fn interface_writes(names: Seq<Seq<char>>) -> Seq<(RegKey, u32)>
    decreases names.len(),
{
    if names.len() == 0 {
        Seq::empty()
    } else {
        interface_writes(names.drop_last()) + writes_under(interface_path(names.last()), interface_tuning())
    }
}

/// Everything tuning writes, in order: the system profile values, then the
/// values of each network interface.
pub open spec fn spec_tuning_plan(names: Seq<Seq<char>>) -> Seq<(RegKey, u32)> {
    writes_under(SYSTEM_PROFILE_PATH@, system_profile_tuning()) + interface_writes(names)
}

/// The names of strings.
pub open spec fn names_view(names: Seq<String>) -> Seq<Seq<char>> {
    names.map_values(|s: String| s@)
}

/// Appends the writes of `values` under `path` to `plan`.
fn push_writes(plan: &mut Vec<TuningWrite>, path: &String, values: Vec<(String, u32)>)
    ensures
        final(plan)@.map_values(|w: TuningWrite| tuning_write_view(w)) == old(plan)@.map_values(
            |w: TuningWrite| tuning_write_view(w),
        ) + writes_under(path@, values@.map_values(|nv: (String, u32)| (nv.0@, nv.1))),
{
    let ghost start = plan@.map_values(|w: TuningWrite| tuning_write_view(w));
    let ghost vs = values@.map_values(|nv: (String, u32)| (nv.0@, nv.1));
    let mut i: usize = 0;
    while i < values.len()
        invariant
            i <= values@.len(),
            vs == values@.map_values(|nv: (String, u32)| (nv.0@, nv.1)),
            plan@.map_values(|w: TuningWrite| tuning_write_view(w)) == start + writes_under(
                path@,
                vs.subrange(0, i as int),
            ),
        decreases values@.len() - i,
    {
        let name = values[i].0.clone();
        let value = values[i].1;
        let w = TuningWrite { key_path: path.clone(), value_name: name, value };
        let ghost wv = tuning_write_view(w);
        let ghost before = plan@.map_values(|w: TuningWrite| tuning_write_view(w));
        assert(wv == ((path@, vs[i as int].0), vs[i as int].1));
        plan.push(w);
        assert(plan@.map_values(|w: TuningWrite| tuning_write_view(w)) =~= before.push(wv));
        assert(writes_under(path@, vs.subrange(0, i + 1)) =~= writes_under(
            path@,
            vs.subrange(0, i as int),
        ).push(wv));
        i = i + 1;
    }
    assert(vs.subrange(0, values@.len() as int) =~= vs);
}

/// Everything tuning writes for the network interfaces `interface_names`, in
/// the order it is written: the system profile values, then the values of
/// each interface.
pub fn tuning_plan(interface_names: &Vec<String>) -> (plan: Vec<TuningWrite>)
    ensures
        plan@.map_values(|w: TuningWrite| tuning_write_view(w)) == spec_tuning_plan(
            names_view(interface_names@),
        ),
{
    let mut plan: Vec<TuningWrite> = Vec::new();
    let sys_path = SYSTEM_PROFILE_PATH.to_owned();
    let sys_values = system_profile_tuning_values();
    proof {
        assert(sys_values@.map_values(|nv: (String, u32)| (nv.0@, nv.1)) =~= system_profile_tuning());
    }
    push_writes(&mut plan, &sys_path, sys_values);
    let ghost names = names_view(interface_names@);
    let mut i: usize = 0;
    while i < interface_names.len()
        invariant
            i <= interface_names@.len(),
            names == names_view(interface_names@),
            plan@.map_values(|w: TuningWrite| tuning_write_view(w)) == writes_under(
                SYSTEM_PROFILE_PATH@,
                system_profile_tuning(),
            ) + interface_writes(names.subrange(0, i as int)),
        decreases interface_names@.len() - i,
    {
        let mut path = INTERFACES_ROOT_PATH.to_owned();
        path.append("\\");
        path.append(interface_names[i].as_str());
        proof {
            reveal_strlit("\\");
            assert(path@ =~= interface_path(names[i as int]));
        }
        let values = interface_tuning_values();
        proof {
            assert(values@.map_values(|nv: (String, u32)| (nv.0@, nv.1)) =~= interface_tuning());
            assert(names.subrange(0, i + 1).drop_last() =~= names.subrange(0, i as int));
        }
        push_writes(&mut plan, &path, values);
        i = i + 1;
    }
    assert(names.subrange(0, interface_names@.len() as int) =~= names);
    plan
}

impl RegistryOptimizer {
    /// An optimizer that has changed nothing yet.
    pub fn new() -> (o: Self)
        ensures
            o.backups_view().len() == 0,
    {
        RegistryOptimizer { backups: Vec::new() }
    }

    /// Whether the process may write the TCP/IP parameters. Where there is no
    /// registry, as here, there is nothing to guard and the answer is yes.
    pub fn is_admin() -> (r: bool)
        ensures
            r,
    {
        true
    }

    /// The backups taken so far, in the order they were taken.
    pub closed spec fn backups_view(&self) -> Seq<(RegKey, Option<u32>)> {
        self.backups@.map_values(|e: RegistryBackupEntry| entry_view(e))
    }

    /// How many values have been backed up.
    pub fn backup_count(&self) -> (n: usize)
        ensures
            n == self.backups_view().len(),
    {
        self.backups.len()
    }

    /// Applies the tuning. Where there is no registry, as here, nothing is
    /// changed and no backup is taken.
    pub fn apply_optimizations(&mut self) -> (r: Result<(), RegistryError>)
        ensures
            r is Ok,
            final(self).backups_view() == old(self).backups_view(),
    {
        Ok(())
    }

    /// Records the value at `key_path`\`value_name` as it was before tuning
    /// changes it (`None`: it did not exist).
    pub fn record_backup(&mut self, key_path: String, value_name: String, original_value: Option<u32>)
        ensures
            final(self).backups_view() == old(self).backups_view().push(
                ((key_path@, value_name@), original_value),
            ),
    {
        let ghost k = key_path@;
        let ghost v = value_name@;
        self.backups.push(RegistryBackupEntry { key_path, value_name, original_value });
        assert(final(self).backups_view() =~= old(self).backups_view().push(((k, v), original_value)));
    }

    /// Removes all backups and returns the writes that restore them, newest
    /// first: a value backed up more than once (by repeated tuning) ends with
    /// its earliest backup, the value from before any tuning.
    pub fn restore_plan(&mut self) -> (plan: Vec<RestoreAction>)
        ensures
            final(self).backups_view().len() == 0,
            plan@.map_values(|a: RestoreAction| action_view(a)) == old(self).backups_view().reverse(),
    {
        let ghost old_view = self.backups_view();
        let mut plan: Vec<RestoreAction> = Vec::new();
        let mut rest: Vec<RegistryBackupEntry> = Vec::new();
        std::mem::swap(&mut rest, &mut self.backups);
        let n = rest.len();
        while rest.len() > 0
            invariant
                rest@.len() + plan@.len() == n,
                old_view == old(self).backups_view(),
                old_view.len() == n,
                forall|i: int| 0 <= i < rest@.len() ==> entry_view(rest@[i]) == old_view[i],
                forall|i: int| 0 <= i < plan@.len() ==> action_view(plan@[i]) == old_view[n - 1 - i],
            decreases rest@.len(),
        {
            let e = rest.pop().unwrap();
            let action = match e.original_value {
                Some(val) => RestoreAction::SetDword {
                    key_path: e.key_path,
                    value_name: e.value_name,
                    value: val,
                },
                None => RestoreAction::DeleteValue { key_path: e.key_path, value_name: e.value_name },
            };
            plan.push(action);
        }
        assert(plan@.map_values(|a: RestoreAction| action_view(a)) =~= old_view.reverse());
        assert(self.backups_view() =~= Seq::<(RegKey, Option<u32>)>::empty());
        plan
    }

    /// Undoes the tuning. Where there is no registry, as here, there is
    /// nothing to undo and nothing changes.
    pub fn restore(&mut self)
        ensures
            final(self).backups_view() == old(self).backups_view(),
    {
    }
}

/// Replaying the backups `b` newest first gives each backed-up address the
/// value of its earliest backup, among the addresses outside `skip`, and
/// leaves every address that was not backed up as it was.
proof fn lemma_replay_newest_first(
    tuned: Map<RegKey, Option<u32>>,
    b: Seq<(RegKey, Option<u32>)>,
    skip: Set<RegKey>,
)
    ensures
        forall|i: int|
            #![trigger b[i]]
            0 <= i < b.len() && !skip.contains(b[i].0) && (forall|j: int|
                #![trigger b[j]]
                0 <= j < i ==> b[j].0 != b[i].0) ==> run_plan(tuned, b.reverse()).contains_key(b[i].0)
                && run_plan(tuned, b.reverse())[b[i].0] == b[i].1,
        forall|k: RegKey|
            #![trigger run_plan(tuned, b.reverse()).contains_key(k)]
            (forall|i: int| #![trigger b[i]] 0 <= i < b.len() ==> b[i].0 != k) ==> run_plan(
                tuned,
                b.reverse(),
            ).contains_key(k) == tuned.contains_key(k) && (tuned.contains_key(k) ==> run_plan(
                tuned,
                b.reverse(),
            )[k] == tuned[k]),
    decreases b.len(),
{
    if b.len() > 0 {
        let rest = b.drop_first();
        let skip2 = skip.insert(b[0].0);
        lemma_replay_newest_first(tuned, rest, skip2);
        assert(b.reverse().drop_last() =~= rest.reverse());
        assert(b.reverse().last() == b[0]);
        let r = run_plan(tuned, b.reverse());
        let r2 = run_plan(tuned, rest.reverse());
        assert(r == r2.insert(b[0].0, b[0].1));
        assert forall|i: int|
            #![trigger b[i]]
            0 <= i < b.len() && !skip.contains(b[i].0) && (forall|j: int|
                #![trigger b[j]]
                0 <= j < i ==> b[j].0 != b[i].0) implies r.contains_key(b[i].0) && r[b[i].0] == b[i].1 by {
            if i > 0 {
                assert(b[0].0 != b[i].0);
                assert(rest[i - 1] == b[i]);
                assert forall|j: int| #![trigger rest[j]] 0 <= j < i - 1 implies rest[j].0 != rest[i - 1].0 by {
                    assert(rest[j] == b[j + 1]);
                }
                assert(!skip2.contains(rest[i - 1].0));
            }
        }
        assert forall|k: RegKey|
            (forall|i: int| #![trigger b[i]] 0 <= i < b.len() ==> b[i].0 != k) implies #[trigger] r.contains_key(k)
            == tuned.contains_key(k) && (tuned.contains_key(k) ==> r[k] == tuned[k]) by {
            assert(b[0].0 != k);
            assert forall|i: int| #![trigger rest[i]] 0 <= i < rest.len() implies rest[i].0 != k by {
                assert(rest[i] == b[i + 1]);
            }
            assert(r2.contains_key(k) == tuned.contains_key(k));
        }
    } else {
        assert(b.reverse() =~= Seq::<(RegKey, Option<u32>)>::empty());
    }
}

/// Restoring puts every backed-up value back. If the earliest backup of each
/// address holds the value the address had in the registry `before` (later
/// backups, taken by repeated tuning, may hold tuned values), then performing
/// the restore writes, newest backup first, on the registry in any state
/// (whatever tuning wrote) gives every backed-up address its value from
/// `before`, and leaves every other address as it was (present or absent, and
/// with its value when present).
pub proof fn lemma_restore_puts_back(
    before: Map<RegKey, Option<u32>>,
    tuned: Map<RegKey, Option<u32>>,
    backups: Seq<(RegKey, Option<u32>)>,
)
    requires
        forall|i: int|
            #![trigger backups[i]]
            0 <= i < backups.len() ==> before.contains_key(backups[i].0),
        forall|i: int|
            #![trigger backups[i]]
            0 <= i < backups.len() && (forall|j: int| #![trigger backups[j]] 0 <= j < i ==> backups[j].0 != backups[i].0)
                ==> backups[i].1 == before[backups[i].0],
    ensures
        forall|i: int|
            #![trigger backups[i]]
            0 <= i < backups.len() ==> run_plan(tuned, backups.reverse()).contains_key(backups[i].0)
                && run_plan(tuned, backups.reverse())[backups[i].0] == before[backups[i].0],
        forall|k: RegKey|
            #![trigger run_plan(tuned, backups.reverse()).contains_key(k)]
            (forall|i: int| #![trigger backups[i]] 0 <= i < backups.len() ==> backups[i].0 != k)
                ==> run_plan(tuned, backups.reverse()).contains_key(k) == tuned.contains_key(k) && (
                tuned.contains_key(k) ==> run_plan(tuned, backups.reverse())[k] == tuned[k]),
{
    lemma_replay_newest_first(tuned, backups, Set::empty());
    assert forall|i: int|
        #![trigger backups[i]]
        0 <= i < backups.len() implies run_plan(tuned, backups.reverse()).contains_key(backups[i].0)
        && run_plan(tuned, backups.reverse())[backups[i].0] == before[backups[i].0] by {
        lemma_earliest_backup(backups, i);
        let e = choose|e: int| 0 <= e <= i && #[trigger] backups[e].0 == backups[i].0 && (forall|j: int|
            #![trigger backups[j]]
            0 <= j < e ==> backups[j].0 != backups[e].0);
        assert(backups[e].0 == backups[i].0);
    }
}

/// Every backup has an earliest backup of the same address.
proof fn lemma_earliest_backup(b: Seq<(RegKey, Option<u32>)>, i: int)
    requires
        0 <= i < b.len(),
    ensures
        exists|e: int|
            0 <= e <= i && #[trigger] b[e].0 == b[i].0 && (forall|j: int| #![trigger b[j]] 0 <= j < e ==> b[j].0 != b[e].0),
    decreases i,
{
    if exists|j: int| 0 <= j < i && #[trigger] b[j].0 == b[i].0 {
        let j = choose|j: int| 0 <= j < i && #[trigger] b[j].0 == b[i].0;
        lemma_earliest_backup(b, j);
        let e = choose|e: int|
            0 <= e <= j && #[trigger] b[e].0 == b[j].0 && (forall|k: int| #![trigger b[k]] 0 <= k < e ==> b[k].0 != b[e].0);
        assert(b[e].0 == b[i].0);
        assert(0 <= e <= i && b[e].0 == b[i].0 && (forall|k: int| #![trigger b[k]] 0 <= k < e ==> b[k].0 != b[e].0));
    } else {
        assert(forall|j: int| #![trigger b[j]] 0 <= j < i ==> b[j].0 != b[i].0);
        assert(0 <= i <= i && b[i].0 == b[i].0 && (forall|k: int| #![trigger b[k]] 0 <= k < i ==> b[k].0 != b[i].0));
    }
}

/// Entry `m` of the interface writes is value `m % 3` of the tuning under
/// interface `m / 3`.
proof fn lemma_interface_writes_index(names: Seq<Seq<char>>)
    ensures
        interface_writes(names).len() == 3 * names.len(),
        forall|m: int|
            0 <= m < 3 * names.len() ==> #[trigger] interface_writes(names)[m] == (
                (interface_path(names[m / 3]), interface_tuning()[m % 3].0),
                interface_tuning()[m % 3].1,
            ),
    decreases names.len(),
{
    if names.len() > 0 {
        let init = names.drop_last();
        lemma_interface_writes_index(init);
        let n = names.len() - 1;
        assert forall|m: int| 0 <= m < 3 * names.len() implies #[trigger] interface_writes(names)[m] == (
            (interface_path(names[m / 3]), interface_tuning()[m % 3].0),
            interface_tuning()[m % 3].1,
        ) by {
            if m < 3 * n {
                assert(init[m / 3] == names[m / 3]);
            } else {
                assert(m / 3 == n);
            }
        }
    }
}

/// Different interface names give different interface keys.
proof fn lemma_interface_path_injective(a: Seq<char>, b: Seq<char>)
    requires
        interface_path(a) == interface_path(b),
    ensures
        a == b,
{
    let k: int = INTERFACES_ROOT_PATH@.len() as int + 1;
    assert(interface_path(a).subrange(k, interface_path(a).len() as int) =~= a);
    assert(interface_path(b).subrange(k, interface_path(b).len() as int) =~= b);
}

/// Tuning never writes the same value twice when the interface names are
/// distinct: the addresses (key path and value name) of its writes are
/// pairwise different.
pub proof fn lemma_tuning_addresses_distinct(names: Seq<Seq<char>>)
    requires
        forall|i: int, j: int| 0 <= i < j < names.len() ==> names[i] != names[j],
    ensures
        ({
            let plan = spec_tuning_plan(names);
            forall|i: int, j: int| 0 <= i < j < plan.len() ==> plan[i].0 != plan[j].0
        }),
{
    reveal_strlit("NetworkThrottlingIndex");
    reveal_strlit("SystemResponsiveness");
    reveal_strlit("TcpAckFrequency");
    reveal_strlit("TCPNoDelay");
    reveal_strlit("TcpDelAckTicks");
    reveal_strlit("SOFTWARE\\Microsoft\\Windows NT\\CurrentVersion\\Multimedia\\SystemProfile");
    reveal_strlit("SYSTEM\\CurrentControlSet\\Services\\Tcpip\\Parameters\\Interfaces");
    let plan = spec_tuning_plan(names);
    let sys = writes_under(SYSTEM_PROFILE_PATH@, system_profile_tuning());
    let ifw = interface_writes(names);
    lemma_interface_writes_index(names);
    assert(sys.len() == 2);
    assert(SYSTEM_PROFILE_PATH@[1] == 'O');
    assert(INTERFACES_ROOT_PATH@[1] == 'Y');
    assert forall|i: int, j: int| 0 <= i < j < plan.len() implies plan[i].0 != plan[j].0 by {
        if j < 2 {
            assert(plan[i].0.1.len() != plan[j].0.1.len());
        } else if i < 2 {
            assert(plan[j] == ifw[j - 2]);
            assert(plan[i].0.0[1] != plan[j].0.0[1]);
        } else {
            let mi = i - 2;
            let mj = j - 2;
            assert(plan[i] == ifw[mi]);
            assert(plan[j] == ifw[mj]);
            if mi / 3 == mj / 3 {
                assert(mi % 3 != mj % 3);
                assert(plan[i].0.1.len() != plan[j].0.1.len());
            } else {
                if plan[i].0.0 == plan[j].0.0 {
                    lemma_interface_path_injective(names[mi / 3], names[mj / 3]);
                }
            }
        }
    }
}

/// The backups taken before the writes of `plan`: each written address with
/// its value in the registry `before`.
pub open spec fn backups_before(plan: Seq<(RegKey, u32)>, before: Map<RegKey, Option<u32>>) -> Seq<
    (RegKey, Option<u32>),
> {
    plan.map_values(|w: (RegKey, u32)| (w.0, before[w.0]))
}

/// Tuning is undone in full, also after repeated tuning. The first tuning
/// (for distinct interface names) backs up each address it writes from the
/// registry `before`; any later backups `later` (by tuning again) may hold
/// whatever values. Restoring all those backups, newest first, on the
/// registry in whatever state tuning and anything after it left gives every
/// address the first tuning wrote its value from `before` (a value that was
/// absent is absent again), and leaves every address that was never backed
/// up as it is.
pub proof fn lemma_tuning_undone(
    names: Seq<Seq<char>>,
    before: Map<RegKey, Option<u32>>,
    later: Seq<(RegKey, Option<u32>)>,
    tuned: Map<RegKey, Option<u32>>,
)
    requires
        forall|i: int, j: int| 0 <= i < j < names.len() ==> names[i] != names[j],
        forall|i: int|
            0 <= i < spec_tuning_plan(names).len() ==> before.contains_key(
                #[trigger] spec_tuning_plan(names)[i].0,
            ),
    ensures
        ({
            let plan = spec_tuning_plan(names);
            let b = backups_before(plan, before) + later;
            let restored = run_plan(tuned, b.reverse());
            &&& forall|i: int|
                0 <= i < plan.len() ==> restored.contains_key(#[trigger] plan[i].0) && restored[plan[i].0]
                    == before[plan[i].0]
            &&& forall|k: RegKey|
                (forall|i: int| 0 <= i < b.len() ==> #[trigger] b[i].0 != k) ==> (
                #[trigger] restored.contains_key(k) == tuned.contains_key(k) && (tuned.contains_key(k)
                    ==> restored[k] == tuned[k]))
        }),
{
    let plan = spec_tuning_plan(names);
    let first = backups_before(plan, before);
    let b = first + later;
    lemma_tuning_addresses_distinct(names);
    lemma_replay_newest_first(tuned, b, Set::empty());
    assert forall|i: int| 0 <= i < plan.len() implies run_plan(tuned, b.reverse()).contains_key(
        #[trigger] plan[i].0,
    ) && run_plan(tuned, b.reverse())[plan[i].0] == before[plan[i].0] by {
        assert(b[i] == first[i]);
        assert(b[i].0 == plan[i].0);
        lemma_earliest_backup(b, i);
        let e = choose|e: int| 0 <= e <= i && #[trigger] b[e].0 == b[i].0 && (forall|j: int|
            #![trigger b[j]]
            0 <= j < e ==> b[j].0 != b[e].0);
        assert(b[e] == first[e]);
        assert(b[e].1 == before[plan[e].0]);
    }
}

} // verus!
