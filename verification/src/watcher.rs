//! Game process tracking: which processes of the game run and which local
//! ports their sockets hold.
//!
//! The process and socket tables come from the operating system; on systems
//! without them the scan reports a fixed stand-in process and ports, so that
//! the rest of the pipeline can run.
use vstd::prelude::*;

use std::collections::HashSet;

use crate::config::{spec_any_exe_matches, GameProfile};

verus! {

broadcast use vstd::std_specs::hash::group_hash_axioms;

/// What the last scan found.
#[derive(Debug)]
pub struct ProcessState {
    pub is_running: bool,
    pub pids: Vec<u32>,
    pub tracked_ports: HashSet<u16>,
}

/// The process id that the stand-in scan reports.
pub open spec fn stand_in_pids() -> Seq<u32> {
    seq![1337u32]
}

/// The local ports that the stand-in socket table reports for any process.
pub open spec fn stand_in_ports() -> Set<u16> {
    set![3724u16, 7777u16]
}

/// Adds every port of `src` to `dst`.
fn add_ports(dst: &mut HashSet<u16>, src: &HashSet<u16>)
    ensures
        final(dst)@ == old(dst)@ + src@,
{
    let ghost start = dst@;
    for p in it: src.iter()
        invariant
            dst@ == start + it.seq().take(it.index()).unref().to_set(),
            it.seq().unref().to_set() == src@,
            it.index() == it.seq().len() ==> dst@ == start + src@,
    {
        dst.insert(*p);
        assert(it.seq().take(it.index() + 1).unref() =~= it.seq().take(it.index()).unref().push(*p));
        proof {
            it.seq().take(it.index()).unref().lemma_push_to_set_commute(*p);
        }
        assert(it.index() + 1 == it.seq().len() ==> it.seq().take(it.index() + 1) =~= it.seq());
    }
}

impl Clone for ProcessState {
    /// A copy of the scan result.
    fn clone(&self) -> (r: Self)
        ensures
            r.is_running == self.is_running,
            r.pids@ == self.pids@,
            r.tracked_ports@ == self.tracked_ports@,
    {
        ProcessState {
            is_running: self.is_running,
            pids: self.pids.clone(),
            tracked_ports: {
                let mut t: HashSet<u16> = HashSet::new();
                add_ports(&mut t, &self.tracked_ports);
                assert(t@ =~= self.tracked_ports@);
                t
            },
        }
    }
}

impl Default for ProcessState {
    /// No game running, no processes, no ports.
    fn default() -> (s: Self)
        ensures
            !s.is_running,
            s.pids@.len() == 0,
            s.tracked_ports@ == Set::<u16>::empty(),
    {
        ProcessState { is_running: false, pids: Vec::new(), tracked_ports: HashSet::new() }
    }
}

/// The ids of the running processes of the game (the stand-in scan).
pub fn scan_target_processes(_profile: &GameProfile) -> (pids: Vec<u32>)
    ensures
        pids@ == stand_in_pids(),
{
    let mut v: Vec<u32> = Vec::new();
    v.push(1337);
    assert(v@ =~= stand_in_pids());
    v
}

/// The local TCP and UDP ports held by process `pid` (the stand-in table).
pub fn get_process_ports(_target_pid: u32) -> (ports: HashSet<u16>)
    ensures
        ports@ == stand_in_ports(),
{
    let mut s: HashSet<u16> = HashSet::new();
    s.insert(3724);
    s.insert(7777);
    assert(s@ =~= stand_in_ports());
    s
}

/// The ids of the processes among `entries` (process id, executable name)
/// whose executable belongs to a profile with the executables `targets`, in
/// the order of `entries`.
pub open spec fn spec_matching_pids(entries: Seq<(u32, Seq<char>)>, targets: Seq<String>) -> Seq<u32>
    decreases entries.len(),
{
    if entries.len() == 0 {
        Seq::empty()
    } else {
        let rest = spec_matching_pids(entries.drop_last(), targets);
        if spec_any_exe_matches(targets, entries.last().1) {
            rest.push(entries.last().0)
        } else {
            rest
        }
    }
}

/// The process list with names as characters.
pub open spec fn entries_view(entries: Seq<(u32, String)>) -> Seq<(u32, Seq<char>)> {
    entries.map_values(|e: (u32, String)| (e.0, e.1@))
}

/// The ids of the listed processes (process id, executable name) that run an
/// executable of `profile`, in list order: what a scan of the process
/// snapshot keeps.
pub fn matching_pids(entries: &Vec<(u32, String)>, profile: &GameProfile) -> (pids: Vec<u32>)
    ensures
        pids@ == spec_matching_pids(entries_view(entries@), profile.executables@),
{
    let ghost ev = entries_view(entries@);
    let mut pids: Vec<u32> = Vec::new();
    let mut i: usize = 0;
    while i < entries.len()
        invariant
            i <= entries@.len(),
            ev == entries_view(entries@),
            pids@ == spec_matching_pids(ev.subrange(0, i as int), profile.executables@),
        decreases entries@.len() - i,
    {
        assert(ev.subrange(0, i + 1).drop_last() =~= ev.subrange(0, i as int));
        if profile.matches_executable(entries[i].1.as_str()) {
            pids.push(entries[i].0);
        }
        i = i + 1;
    }
    assert(ev.subrange(0, entries@.len() as int) =~= ev);
    pids
}

/// The little-endian 32-bit value at `off` of `b`.
pub open spec fn le32_at(b: Seq<u8>, off: int) -> int {
    b[off] + b[off + 1] * 256 + b[off + 2] * 65536 + b[off + 3] * 16777216
}

/// The (owning process id, local port field) pairs of an owner table in the
/// buffer `b`: an entry count, then that many rows of `row_words` 32-bit
/// words each, with the port field and the process id at the given words.
pub open spec fn spec_table_rows(b: Seq<u8>, row_words: int, port_word: int, pid_word: int) -> Seq<(u32, u32)> {
    Seq::new(
        le32_at(b, 0) as nat,
        |i: int|
            (
                le32_at(b, 4 + 4 * row_words * i + 4 * pid_word) as u32,
                le32_at(b, 4 + 4 * row_words * i + 4 * port_word) as u32,
            ),
    )
}

/// Whether `b` holds the entry count and all the rows it announces.
pub open spec fn table_fits(b: Seq<u8>, row_words: int) -> bool {
    b.len() >= 4 && b.len() >= 4 + 4 * row_words * le32_at(b, 0)
}

/// Reads the little-endian 32-bit value at `off`.
fn read_le32(b: &[u8], off: usize) -> (v: u32)
    requires
        off + 4 <= b@.len(),
    ensures
        v == le32_at(b@, off as int),
{
    (b[off] as u32) + (b[off + 1] as u32) * 256 + (b[off + 2] as u32) * 65536 + (b[off + 3] as u32)
        * 16777216
}

/// The rows of an owner table with rows of `row_words` words.
fn table_rows(buf: &[u8], row_words: usize, port_word: usize, pid_word: usize) -> (rows: Vec<(u32, u32)>)
    requires
        2 <= row_words <= 6,
        port_word < row_words,
        pid_word < row_words,
        table_fits(buf@, row_words as int),
    ensures
        rows@ == spec_table_rows(buf@, row_words as int, port_word as int, pid_word as int),
{
    let count = read_le32(buf, 0);
    let ghost want = spec_table_rows(buf@, row_words as int, port_word as int, pid_word as int);
    let mut rows: Vec<(u32, u32)> = Vec::new();
    let mut i: u32 = 0;
    while i < count
        invariant
            2 <= row_words <= 6,
            port_word < row_words,
            pid_word < row_words,
            table_fits(buf@, row_words as int),
            count == le32_at(buf@, 0),
            i <= count,
            want == spec_table_rows(buf@, row_words as int, port_word as int, pid_word as int),
            rows@ == want.subrange(0, i as int),
        decreases count - i,
    {
        let w: usize = 4 * row_words;
        proof {
            assert(w * i + w <= w * count) by (nonlinear_arith)
                requires
                    i < count,
                    w >= 8,
            ;
            assert(w * count == 4 * row_words * count) by (nonlinear_arith)
                requires
                    w == 4 * row_words,
            ;
            assert(w * i == 4 * row_words * i) by (nonlinear_arith)
                requires
                    w == 4 * row_words,
            ;
        }
        let n = buf.len();
        assert(4 + w * i + w <= n);
        let base: usize = 4 + w * (i as usize);
        let pid = read_le32(buf, base + 4 * pid_word);
        let port = read_le32(buf, base + 4 * port_word);
        rows.push((pid, port));
        assert(rows@ =~= want.subrange(0, i + 1));
        i = i + 1;
    }
    rows
}

/// The (owning process id, local port field) pairs of an IPv4 TCP owner
/// table (`MIB_TCPTABLE_OWNER_PID`): an entry count, then rows of six 32-bit
/// words (state, local address, local port, remote address, remote port,
/// owning process id), little-endian.
pub fn tcp_owner_rows(buf: &[u8]) -> (rows: Vec<(u32, u32)>)
    requires
        table_fits(buf@, 6),
    ensures
        rows@ == spec_table_rows(buf@, 6, 2, 5),
{
    table_rows(buf, 6, 2, 5)
}

/// The (owning process id, local port field) pairs of an IPv4 UDP owner
/// table (`MIB_UDPTABLE_OWNER_PID`): an entry count, then rows of three
/// 32-bit words (local address, local port, owning process id),
/// little-endian.
pub fn udp_owner_rows(buf: &[u8]) -> (rows: Vec<(u32, u32)>)
    requires
        table_fits(buf@, 3),
    ensures
        rows@ == spec_table_rows(buf@, 3, 1, 2),
{
    table_rows(buf, 3, 1, 2)
}

/// The local port in a row of the Windows TCP or UDP owner table: the table
/// keeps the port in network byte order in the low 16 bits of a DWORD, which
/// the little-endian machine reads with the two bytes swapped.
pub open spec fn row_port(field: u32) -> u16 {
    ((field % 256) * 256 + (field / 256) % 256) as u16
}

/// The ports of the table rows `rows` (owning process id, local port field)
/// that belong to process `pid`.
pub open spec fn spec_owned_ports(rows: Seq<(u32, u32)>, pid: u32) -> Set<u16> {
    Set::new(|p: u16| exists|i: int| 0 <= i < rows.len() && #[trigger] rows[i].0 == pid && row_port(rows[i].1) == p)
}

/// The local ports of the socket-table rows that process `pid` owns.
pub fn ports_owned_by(rows: &Vec<(u32, u32)>, pid: u32) -> (ports: HashSet<u16>)
    ensures
        ports@ == spec_owned_ports(rows@, pid),
{
    let mut ports: HashSet<u16> = HashSet::new();
    let mut i: usize = 0;
    while i < rows.len()
        invariant
            i <= rows@.len(),
            ports@ == spec_owned_ports(rows@.subrange(0, i as int), pid),
        decreases rows@.len() - i,
    {
        let (owner, field) = rows[i];
        let ghost before = rows@.subrange(0, i as int);
        let ghost after = rows@.subrange(0, i + 1);
        if owner == pid {
            let port: u16 = ((field % 256) * 256 + (field / 256) % 256) as u16;
            ports.insert(port);
            assert(after[i as int] == rows@[i as int]);
            assert(ports@ =~= spec_owned_ports(after, pid)) by {
                assert forall|p: u16| spec_owned_ports(after, pid).contains(p) implies #[trigger] ports@.contains(p) by {
                    let k = choose|k: int| 0 <= k < after.len() && #[trigger] after[k].0 == pid && row_port(after[k].1) == p;
                    if k < i {
                        assert(before[k] == after[k]);
                    }
                }
                assert forall|p: u16| #[trigger] ports@.contains(p) implies spec_owned_ports(after, pid).contains(p) by {
                    if p != port {
                        let k = choose|k: int| 0 <= k < before.len() && #[trigger] before[k].0 == pid && row_port(before[k].1) == p;
                        assert(before[k] == after[k]);
                    }
                }
            }
        } else {
            assert(ports@ =~= spec_owned_ports(after, pid)) by {
                assert forall|p: u16| spec_owned_ports(after, pid).contains(p) implies #[trigger] ports@.contains(p) by {
                    let k = choose|k: int| 0 <= k < after.len() && #[trigger] after[k].0 == pid && row_port(after[k].1) == p;
                    assert(k < i);
                    assert(before[k] == after[k]);
                }
                assert forall|p: u16| #[trigger] ports@.contains(p) implies spec_owned_ports(after, pid).contains(p) by {
                    let k = choose|k: int| 0 <= k < before.len() && #[trigger] before[k].0 == pid && row_port(before[k].1) == p;
                    assert(before[k] == after[k]);
                }
            }
        }
        i = i + 1;
    }
    assert(rows@.subrange(0, rows@.len() as int) =~= rows@);
    ports
}

/// One scan: the game's processes, whether any runs, and the union of the
/// ports their sockets hold (none when the game does not run).
pub fn scan_process_state(profile: &GameProfile) -> (s: ProcessState)
    ensures
        s.pids@ == stand_in_pids(),
        s.is_running == (s.pids@.len() > 0),
        s.tracked_ports@ == (if s.is_running { stand_in_ports() } else { Set::<u16>::empty() }),
{
    let pids = scan_target_processes(profile);
    let is_running = pids.len() > 0;
    let mut tracked_ports: HashSet<u16> = HashSet::new();
    if is_running {
        let mut i: usize = 0;
        while i < pids.len()
            invariant
                0 <= i <= pids@.len(),
                pids@ == stand_in_pids(),
                i == 0 ==> tracked_ports@ == Set::<u16>::empty(),
                i > 0 ==> tracked_ports@ == stand_in_ports(),
            decreases pids@.len() - i,
        {
            let ports = get_process_ports(pids[i]);
            add_ports(&mut tracked_ports, &ports);
            assert(tracked_ports@ =~= stand_in_ports());
            i = i + 1;
        }
    }
    ProcessState { is_running, pids, tracked_ports }
}

} // verus!
