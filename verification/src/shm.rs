//! Shared-memory segments with an owner and per-process permissions.

use crate::address::{canonical, new_virt_addr, virt_addr_value};
use crate::assoc::{
    is_first_at, keys, lemma_first_at, lemma_first_none, lemma_first_some, lemma_to_map_absent,
    lemma_to_map_first, lemma_to_map_push, lemma_to_map_remove_only, lemma_to_map_update, to_map,
};
use crate::process::Pid;
use vstd::prelude::*;
use x86_64::VirtAddr;

verus! {

/// Identifier of a shared-memory segment.
pub type ShmId = u64;

/// Largest size of a segment, in bytes: 16 MiB.
pub const MAX_SHM_SIZE: usize = 16 * 1024 * 1024;

/// Segment ids stay below this bound: the address of a segment is derived
/// from its id, and from here on it would leave the range of valid addresses.
pub const SHM_ID_LIMIT: ShmId = 0x8000_0000;

/// What a process may do with a segment it is attached to.
#[derive(Debug, Clone, Copy, PartialEq, Eq, Structural)]
pub struct ShmPermissions {
    pub read: bool,
    pub write: bool,
    pub execute: bool,
}

impl ShmPermissions {
    /// Read access only.
    pub open spec fn spec_read_only() -> ShmPermissions {
        ShmPermissions { read: true, write: false, execute: false }
    }

    /// Read and write access.
    pub open spec fn spec_read_write() -> ShmPermissions {
        ShmPermissions { read: true, write: true, execute: false }
    }

    /// Read, write and execute access.
    pub open spec fn spec_all() -> ShmPermissions {
        ShmPermissions { read: true, write: true, execute: true }
    }

    /// Read access only.
    #[verifier::when_used_as_spec(spec_read_only)]
    pub fn read_only() -> (perms: ShmPermissions)
        ensures
            perms == ShmPermissions::spec_read_only(),
    {
        ShmPermissions { read: true, write: false, execute: false }
    }

    /// Read and write access.
    #[verifier::when_used_as_spec(spec_read_write)]
    pub fn read_write() -> (perms: ShmPermissions)
        ensures
            perms == ShmPermissions::spec_read_write(),
    {
        ShmPermissions { read: true, write: true, execute: false }
    }

    /// Read, write and execute access.
    #[verifier::when_used_as_spec(spec_all)]
    pub fn all() -> (perms: ShmPermissions)
        ensures
            perms == ShmPermissions::spec_all(),
    {
        ShmPermissions { read: true, write: true, execute: true }
    }
}

/// Errors of the shared-memory operations.
#[derive(Debug, Clone, Copy, PartialEq, Eq, Structural)]
pub enum ShmError {
    NotFound,
    InvalidSize,
    AlreadyAttached,
    NotAttached,
    PermissionDenied,
    StillAttached,
}

/// The number that the address of segment `id` holds. It depends on the id
/// alone.
pub open spec fn segment_address(id: ShmId) -> u64 {
    canonical((0x8000_0000_0000 + id * 0x1_0000) as u64)
}

/// A segment as plain values.
pub struct SegmentView {
    pub id: ShmId,
    pub owner: Pid,
    pub size: usize,
    /// The number that the address of the segment holds.
    pub address: u64,
    /// The attached processes with their permissions, in the order in which
    /// they attached.
    pub attachments: Seq<(Pid, ShmPermissions)>,
}

impl SegmentView {
    /// The segment that `create` makes: the owner is attached with every
    /// permission, and nobody else is attached.
    pub open spec fn created(id: ShmId, owner: Pid, size: usize) -> SegmentView {
        SegmentView {
            id,
            owner,
            size,
            address: segment_address(id),
            attachments: seq![(owner, ShmPermissions::all())],
        }
    }

    /// Position of the attachment of `pid`.
    pub open spec fn index_of(self, pid: Pid) -> Option<int> {
        keys(self.attachments).index_of_first(pid)
    }

    /// Whether `pid` is attached.
    pub open spec fn is_attached(self, pid: Pid) -> bool {
        self.index_of(pid) is Some
    }

    /// No process is attached twice.
    pub open spec fn well_formed(self) -> bool {
        forall|i: int, j: int|
            0 <= i < j < self.attachments.len() ==> self.attachments[i].0 != self.attachments[j].0
    }

    /// The segment after `pid` attached with `perms`; unchanged if it was
    /// attached already.
    pub open spec fn attach(self, pid: Pid, perms: ShmPermissions) -> SegmentView {
        if self.is_attached(pid) {
            self
        } else {
            SegmentView { attachments: self.attachments.push((pid, perms)), ..self }
        }
    }

    /// The segment after `pid` detached; unchanged if it was not attached.
    pub open spec fn detach(self, pid: Pid) -> SegmentView {
        match self.index_of(pid) {
            Some(i) => SegmentView { attachments: self.attachments.remove(i), ..self },
            None => self,
        }
    }

    /// Whether `pid` may write (`write` set) or read (`write` clear): what
    /// its attachment grants, and nothing if it is not attached.
    pub open spec fn permits(self, pid: Pid, write: bool) -> bool {
        match self.index_of(pid) {
            Some(i) => if write {
                self.attachments[i].1.write
            } else {
                self.attachments[i].1.read
            },
            None => false,
        }
    }
}

/// A shared-memory segment.
#[derive(Debug)]
pub struct SharedMemory {
    id: ShmId,
    owner: Pid,
    size: usize,
    address: VirtAddr,
    attached_processes: Vec<(Pid, ShmPermissions)>,
}

impl View for SharedMemory {
    type V = SegmentView;

    closed spec fn view(&self) -> SegmentView {
        SegmentView {
            id: self.id,
            owner: self.owner,
            size: self.size,
            address: virt_addr_value(self.address),
            attachments: self.attached_processes@,
        }
    }
}

impl SharedMemory {
    /// Creates a segment to which nobody is attached.
    pub fn new(id: ShmId, owner: Pid, size: usize, address: VirtAddr) -> (segment: SharedMemory)
        ensures
            segment@ == (SegmentView {
                id,
                owner,
                size,
                address: virt_addr_value(address),
                attachments: Seq::empty(),
            }),
    {
        SharedMemory { id, owner, size, address, attached_processes: Vec::new() }
    }

    /// Position of the attachment of `pid`.
    fn find(&self, pid: Pid) -> (found: Option<usize>)
        ensures
            match found {
                Some(i) => self@.index_of(pid) == Some(i as int) && i < self@.attachments.len(),
                None => self@.index_of(pid) is None,
            },
    {
        let mut i: usize = 0;
        while i < self.attached_processes.len()
            invariant
                i <= self.attached_processes@.len(),
                forall|j: int| 0 <= j < i ==> self.attached_processes@[j].0 != pid,
            decreases self.attached_processes@.len() - i,
        {
            if self.attached_processes[i].0 == pid {
                proof {
                    assert(is_first_at(keys(self@.attachments), pid, i as int));
                    lemma_first_at(keys(self@.attachments), pid, i as int);
                }
                return Some(i);
            }
            i += 1;
        }
        proof {
            lemma_first_none(keys(self@.attachments), pid);
        }
        None
    }

    /// Attaches `pid` with `perms`. Fails with `AlreadyAttached`, changing
    /// nothing, if `pid` is attached already.
    pub fn attach(&mut self, pid: Pid, perms: ShmPermissions) -> (result: Result<(), ShmError>)
        ensures
            result == if old(self)@.is_attached(pid) {
                Err::<(), ShmError>(ShmError::AlreadyAttached)
            } else {
                Ok::<(), ShmError>(())
            },
            final(self)@ == old(self)@.attach(pid, perms),
            old(self)@.well_formed() ==> final(self)@.well_formed(),
    {
        if self.find(pid).is_some() {
            return Err(ShmError::AlreadyAttached);
        }
        proof {
            if self@.well_formed() {
                lemma_attach_well_formed(self@, pid, perms);
            }
        }
        self.attached_processes.push((pid, perms));
        Ok(())
    }

    /// Detaches `pid`. Fails with `NotAttached`, changing nothing, if `pid`
    /// is not attached.
    pub fn detach(&mut self, pid: Pid) -> (result: Result<(), ShmError>)
        ensures
            result == if old(self)@.is_attached(pid) {
                Ok::<(), ShmError>(())
            } else {
                Err::<(), ShmError>(ShmError::NotAttached)
            },
            final(self)@ == old(self)@.detach(pid),
            old(self)@.well_formed() ==> final(self)@.well_formed(),
    {
        match self.find(pid) {
            Some(i) => {
                self.attached_processes.remove(i);
                Ok(())
            },
            None => Err(ShmError::NotAttached),
        }
    }

    /// Whether `pid` has the access asked for: write access if `write` is
    /// set, read access otherwise. A process that is not attached has none.
    pub fn check_permission(&self, pid: Pid, write: bool) -> (granted: bool)
        ensures
            granted == self@.permits(pid, write),
    {
        match self.find(pid) {
            Some(i) => {
                let perms = self.attached_processes[i].1;
                if write {
                    perms.write
                } else {
                    perms.read
                }
            },
            None => false,
        }
    }

    /// Number of attached processes.
    pub fn attachment_count(&self) -> (count: usize)
        ensures
            count == self@.attachments.len(),
    {
        self.attached_processes.len()
    }
}

/// Attaching keeps a segment free of double attachments.
pub proof fn lemma_attach_well_formed(segment: SegmentView, pid: Pid, perms: ShmPermissions)
    requires
        segment.well_formed(),
    ensures
        segment.attach(pid, perms).well_formed(),
        segment.attach(pid, perms).is_attached(pid),
{
    let ks = keys(segment.attachments);
    lemma_first_some(ks, pid);
    let after = segment.attach(pid, perms);
    if !segment.is_attached(pid) {
        assert forall|i: int, j: int|
            0 <= i < j < after.attachments.len() implies after.attachments[i].0
            != after.attachments[j].0 by {
            if j == segment.attachments.len() {
                assert(ks[i] != pid);
            }
        }
        let n = segment.attachments.len() as int;
        assert forall|j: int| 0 <= j < n implies keys(after.attachments)[j] != pid by {
            assert(ks[j] != pid);
        }
        assert(is_first_at(keys(after.attachments), pid, n));
        lemma_first_at(keys(after.attachments), pid, n);
    }
}

/// Detaching an attached process of a segment without double attachments
/// takes out exactly its attachment: it is no longer attached, one
/// attachment fewer is left, and every other process keeps its attachment
/// and its permissions.
pub proof fn lemma_detach(segment: SegmentView, pid: Pid, other: Pid)
    requires
        segment.well_formed(),
        segment.is_attached(pid),
    ensures
        segment.detach(pid).well_formed(),
        !segment.detach(pid).is_attached(pid),
        segment.detach(pid).attachments.len() == segment.attachments.len() - 1,
        other != pid ==> segment.detach(pid).is_attached(other) == segment.is_attached(other),
        other != pid ==> segment.detach(pid).permits(other, true) == segment.permits(other, true),
        other != pid ==> segment.detach(pid).permits(other, false) == segment.permits(
            other,
            false,
        ),
{
    let before = segment.attachments;
    let ks = keys(before);
    lemma_first_some(ks, pid);
    let i = segment.index_of(pid).unwrap();
    let after = segment.detach(pid).attachments;
    let ks2 = keys(after);
    assert(after == before.remove(i));
    assert forall|j: int| 0 <= j < after.len() implies ks2[j] != pid by {
        if j < i {
            assert(ks[j] != pid);
        } else {
            assert(after[j] == before[j + 1]);
        }
    }
    lemma_first_none(ks2, pid);
    if other != pid {
        lemma_first_some(ks, other);
        lemma_first_some(ks2, other);
        match ks.index_of_first(other) {
            Some(a) => {
                let b = if a < i {
                    a
                } else {
                    a - 1
                };
                assert(after[b] == before[a]);
                assert forall|j: int| 0 <= j < b implies ks2[j] != other by {
                    if j < i {
                        assert(ks2[j] == ks[j]);
                    } else {
                        assert(ks2[j] == ks[j + 1]);
                    }
                }
                assert(is_first_at(ks2, other, b));
                lemma_first_at(ks2, other, b);
            },
            None => {
                assert forall|j: int| 0 <= j < after.len() implies ks2[j] != other by {
                    if j < i {
                        assert(ks2[j] == ks[j]);
                    } else {
                        assert(ks2[j] == ks[j + 1]);
                    }
                }
                lemma_first_none(ks2, other);
            },
        }
    }
}

/// All segments as plain values.
pub struct ShmState {
    /// Every segment that exists, under its id.
    pub segments: Map<ShmId, SegmentView>,
    /// The id that the next created segment receives.
    pub next_id: ShmId,
}

impl ShmState {
    /// The state before any segment exists.
    pub open spec fn empty() -> ShmState {
        ShmState { segments: Map::empty(), next_id: 1 }
    }

    /// Every segment is filed under its own id, which was issued before the
    /// next one, and lies at the address that belongs to its id; no process
    /// is attached to a segment twice; and the next id is within the limit.
    pub open spec fn well_formed(self) -> bool {
        &&& 1 <= self.next_id <= SHM_ID_LIMIT
        &&& forall|id: ShmId| #[trigger]
            self.segments.contains_key(id) ==> {
                &&& self.segments[id].id == id
                &&& id < self.next_id
                &&& self.segments[id].address == segment_address(id)
                &&& self.segments[id].well_formed()
            }
    }

    /// How `create` ends: `InvalidSize` unless the size is between 1 byte and
    /// 16 MiB, and otherwise the id of the new segment, which is the next in
    /// sequence.
    pub open spec fn create_result(self, size: usize) -> Result<ShmId, ShmError> {
        if size == 0 || size > MAX_SHM_SIZE {
            Err(ShmError::InvalidSize)
        } else {
            Ok(self.next_id)
        }
    }

    /// The state after `create`: on success the new segment exists, with its
    /// owner attached, and the next id has moved up by one.
    pub open spec fn create(self, owner: Pid, size: usize) -> ShmState {
        if self.create_result(size) is Ok {
            ShmState {
                segments: self.segments.insert(
                    self.next_id,
                    SegmentView::created(self.next_id, owner, size),
                ),
                next_id: (self.next_id + 1) as ShmId,
            }
        } else {
            self
        }
    }

    /// How `attach` ends: `NotFound` for an unknown id, `AlreadyAttached` if
    /// `pid` is attached to the segment, and otherwise the number that the
    /// address of the segment holds.
    pub open spec fn attach_result(self, id: ShmId, pid: Pid) -> Result<u64, ShmError> {
        if !self.segments.contains_key(id) {
            Err(ShmError::NotFound)
        } else if self.segments[id].is_attached(pid) {
            Err(ShmError::AlreadyAttached)
        } else {
            Ok(self.segments[id].address)
        }
    }

    /// The state after `attach`; a failed call changes nothing.
    pub open spec fn attach(self, id: ShmId, pid: Pid, perms: ShmPermissions) -> ShmState {
        if self.segments.contains_key(id) {
            ShmState {
                segments: self.segments.insert(id, self.segments[id].attach(pid, perms)),
                ..self
            }
        } else {
            self
        }
    }

    /// How `detach` ends: `NotFound` for an unknown id, `NotAttached` if
    /// `pid` is not attached to the segment, success otherwise.
    pub open spec fn detach_result(self, id: ShmId, pid: Pid) -> Result<(), ShmError> {
        if !self.segments.contains_key(id) {
            Err(ShmError::NotFound)
        } else if !self.segments[id].is_attached(pid) {
            Err(ShmError::NotAttached)
        } else {
            Ok(())
        }
    }

    /// The state after `detach`; a failed call changes nothing.
    pub open spec fn detach(self, id: ShmId, pid: Pid) -> ShmState {
        if self.segments.contains_key(id) {
            ShmState { segments: self.segments.insert(id, self.segments[id].detach(pid)), ..self }
        } else {
            self
        }
    }

    /// How `delete` ends: `NotFound` for an unknown id, `PermissionDenied`
    /// if `pid` does not own the segment, `StillAttached` if the owner asks
    /// while any process is attached, success otherwise.
    pub open spec fn delete_result(self, id: ShmId, pid: Pid) -> Result<(), ShmError> {
        if !self.segments.contains_key(id) {
            Err(ShmError::NotFound)
        } else if self.segments[id].owner != pid {
            Err(ShmError::PermissionDenied)
        } else if self.segments[id].attachments.len() > 0 {
            Err(ShmError::StillAttached)
        } else {
            Ok(())
        }
    }

    /// The state after `delete`: on success the segment is gone.
    pub open spec fn delete(self, id: ShmId, pid: Pid) -> ShmState {
        if self.delete_result(id, pid) is Ok {
            ShmState { segments: self.segments.remove(id), ..self }
        } else {
            self
        }
    }

    /// The state after each of `pids` in turn was detached from segment `id`.
    pub open spec fn detach_each(self, id: ShmId, pids: Seq<Pid>) -> ShmState
        decreases pids.len(),
    {
        if pids.len() == 0 {
            self
        } else {
            self.detach(id, pids[0]).detach_each(id, pids.skip(1))
        }
    }

    /// Size, owner and number of attachments of segment `id`.
    pub open spec fn info(self, id: ShmId) -> Option<(usize, Pid, usize)> {
        if self.segments.contains_key(id) {
            let segment = self.segments[id];
            Some((segment.size, segment.owner, segment.attachments.len() as usize))
        } else {
            None
        }
    }
}

/// Owner of all shared-memory segments.
pub struct ShmManager {
    segments: Vec<SharedMemory>,
    next_id: ShmId,
}

impl View for ShmManager {
    type V = ShmState;

    closed spec fn view(&self) -> ShmState {
        ShmState { segments: to_map(self.entries()), next_id: self.next_id }
    }
}

impl ShmManager {
    /// The segments in creation order, each with its id.
    spec fn entries(&self) -> Seq<(ShmId, SegmentView)> {
        self.segments@.map_values(|segment: SharedMemory| (segment.id, segment@))
    }

    /// The ids in use are distinct and below the next id, which is between 1
    /// and the limit; every segment lies at the address that belongs to its
    /// id; and no process is attached to a segment twice.
    pub closed spec fn wf(&self) -> bool {
        &&& 1 <= self.next_id <= SHM_ID_LIMIT
        &&& forall|i: int|
            0 <= i < self.segments@.len() ==> {
                &&& (#[trigger] self.segments@[i]).id < self.next_id
                &&& self.segments@[i]@.address == segment_address(self.segments@[i].id)
                &&& self.segments@[i]@.well_formed()
            }
        &&& forall|i: int, j: int|
            0 <= i < j < self.segments@.len() ==> self.segments@[i].id != self.segments@[j].id
    }

    /// What a well-formed manager holds is well formed as plain values.
    pub proof fn lemma_wf(&self)
        requires
            self.wf(),
        ensures
            self@.well_formed(),
    {
        let entries = self.entries();
        let ks = keys(entries);
        assert forall|id: ShmId| #[trigger] self@.segments.contains_key(id) implies {
            &&& self@.segments[id].id == id
            &&& id < self@.next_id
            &&& self@.segments[id].address == segment_address(id)
            &&& self@.segments[id].well_formed()
        } by {
            lemma_first_some(ks, id);
            match ks.index_of_first(id) {
                Some(i) => {
                    lemma_to_map_first(entries, id, i);
                    assert(entries[i] == (self.segments@[i].id, self.segments@[i]@));
                },
                None => {
                    assert forall|j: int| 0 <= j < entries.len() implies entries[j].0 != id by {
                        assert(ks[j] != id);
                    }
                    lemma_to_map_absent(entries, id);
                },
            }
        }
    }

    /// Creates a manager without segments whose first id will be 1.
    pub fn new() -> (manager: ShmManager)
        ensures
            manager@ == ShmState::empty(),
            manager.wf(),
    {
        let manager = ShmManager { segments: Vec::new(), next_id: 1 };
        assert(manager.entries() =~= Seq::empty());
        manager
    }

    /// The id that the next created segment receives.
    pub fn next_id(&self) -> (id: ShmId)
        ensures
            id == self@.next_id,
    {
        self.next_id
    }

    /// Position of the segment with id `id`.
    fn find(&self, id: ShmId) -> (found: Option<usize>)
        ensures
            match found {
                Some(i) => {
                    &&& i < self.segments@.len()
                    &&& self.segments@[i as int].id == id
                    &&& is_first_at(keys(self.entries()), id, i as int)
                    &&& self@.segments.contains_key(id)
                    &&& self@.segments[id] == self.segments@[i as int]@
                },
                None => !self@.segments.contains_key(id),
            },
    {
        let mut i: usize = 0;
        while i < self.segments.len()
            invariant
                i <= self.segments@.len(),
                forall|j: int| 0 <= j < i ==> self.segments@[j].id != id,
            decreases self.segments@.len() - i,
        {
            if self.segments[i].id == id {
                proof {
                    assert(is_first_at(keys(self.entries()), id, i as int));
                    lemma_to_map_first(self.entries(), id, i as int);
                }
                return Some(i);
            }
            i += 1;
        }
        proof {
            lemma_to_map_absent(self.entries(), id);
        }
        None
    }

    /// Creates a segment of `size` bytes for `owner` and returns its id. The
    /// owner is attached with every permission, and the address of the
    /// segment follows from its id. Fails with `InvalidSize`, changing
    /// nothing, unless `size` is between 1 byte and 16 MiB.
    pub fn create(&mut self, owner: Pid, size: usize) -> (result: Result<ShmId, ShmError>)
        requires
            old(self).wf(),
            0 < size <= MAX_SHM_SIZE ==> old(self)@.next_id < SHM_ID_LIMIT,
        ensures
            final(self).wf(),
            result == old(self)@.create_result(size),
            final(self)@ == old(self)@.create(owner, size),
    {
        if size == 0 || size > MAX_SHM_SIZE {
            return Err(ShmError::InvalidSize);
        }
        let id = self.next_id;
        let address = new_virt_addr(0x8000_0000_0000 + id * 0x1_0000);
        self.next_id += 1;
        let mut segment = SharedMemory::new(id, owner, size, address);
        proof {
            lemma_first_none(keys(segment@.attachments), owner);
        }
        segment.attach(owner, ShmPermissions::all())?;
        proof {
            assert(segment@.attachments =~= seq![(owner, ShmPermissions::all())]);
            lemma_to_map_absent(self.entries(), id);
            lemma_to_map_push(self.entries(), id, segment@);
        }
        self.segments.push(segment);
        assert(self.entries() =~= old(self).entries().push((id, segment@)));
        Ok(id)
    }

    /// Attaches `pid` to segment `id` with `perms` and returns the address
    /// of the segment. Fails with `NotFound` for an unknown id and with
    /// `AlreadyAttached` if `pid` is attached to it; a failed call changes
    /// nothing.
    pub fn attach(&mut self, id: ShmId, pid: Pid, perms: ShmPermissions) -> (result: Result<
        VirtAddr,
        ShmError,
    >)
        requires
            old(self).wf(),
        ensures
            final(self).wf(),
            match result {
                Ok(address) => old(self)@.attach_result(id, pid) == Ok::<u64, ShmError>(
                    virt_addr_value(address),
                ),
                Err(e) => old(self)@.attach_result(id, pid) == Err::<u64, ShmError>(e),
            },
            final(self)@ == old(self)@.attach(id, pid, perms),
    {
        match self.find(id) {
            Some(i) => {
                let ghost before = self.entries();
                let ghost after = before[i as int].1.attach(pid, perms);
                proof {
                    lemma_to_map_update(before, i as int, after);
                }
                let attached = self.segments[i].attach(pid, perms);
                assert(self.entries() =~= before.update(i as int, (id, after)));
                match attached {
                    Ok(()) => Ok(self.segments[i].address),
                    Err(e) => Err(e),
                }
            },
            None => Err(ShmError::NotFound),
        }
    }

    /// Detaches `pid` from segment `id`. Fails with `NotFound` for an
    /// unknown id and with `NotAttached` if `pid` is not attached to it; a
    /// failed call changes nothing.
    pub fn detach(&mut self, id: ShmId, pid: Pid) -> (result: Result<(), ShmError>)
        requires
            old(self).wf(),
        ensures
            final(self).wf(),
            result == old(self)@.detach_result(id, pid),
            final(self)@ == old(self)@.detach(id, pid),
    {
        match self.find(id) {
            Some(i) => {
                let ghost before = self.entries();
                let ghost after = before[i as int].1.detach(pid);
                proof {
                    lemma_to_map_update(before, i as int, after);
                }
                let detached = self.segments[i].detach(pid);
                assert(self.entries() =~= before.update(i as int, (id, after)));
                detached
            },
            None => Err(ShmError::NotFound),
        }
    }

    /// Deletes segment `id` on behalf of `pid`. Fails with `NotFound` for an
    /// unknown id, with `PermissionDenied` if `pid` is not the owner, and
    /// with `StillAttached` if any process is attached; a failed call
    /// changes nothing.
    pub fn delete(&mut self, id: ShmId, pid: Pid) -> (result: Result<(), ShmError>)
        requires
            old(self).wf(),
        ensures
            final(self).wf(),
            result == old(self)@.delete_result(id, pid),
            final(self)@ == old(self)@.delete(id, pid),
    {
        match self.find(id) {
            Some(i) => {
                if self.segments[i].owner != pid {
                    return Err(ShmError::PermissionDenied);
                }
                if self.segments[i].attachment_count() > 0 {
                    return Err(ShmError::StillAttached);
                }
                let ghost before = self.entries();
                proof {
                    assert forall|j: int| 0 <= j < before.len() && j != i implies before[j].0
                        != before[i as int].0 by {
                        assert(self.segments@[j].id != self.segments@[i as int].id);
                    }
                    lemma_to_map_remove_only(before, i as int);
                }
                self.segments.remove(i);
                assert(self.entries() =~= before.remove(i as int));
                Ok(())
            },
            None => Err(ShmError::NotFound),
        }
    }

    /// Size, owner and number of attachments of segment `id`, if it exists.
    pub fn get_info(&self, id: ShmId) -> (info: Option<(usize, Pid, usize)>)
        ensures
            info == self@.info(id),
    {
        match self.find(id) {
            Some(i) => {
                let segment = &self.segments[i];
                Some((segment.size, segment.owner, segment.attachment_count()))
            },
            None => None,
        }
    }
}

/// Sets up shared memory: a manager without segments.
pub fn init() -> (manager: ShmManager)
    ensures
        manager@ == ShmState::empty(),
        manager.wf(),
{
    ShmManager::new()
}

/// Creates a segment; see [`ShmManager::create`].
pub fn create(manager: &mut ShmManager, owner: Pid, size: usize) -> (result: Result<
    ShmId,
    ShmError,
>)
    requires
        old(manager).wf(),
        0 < size <= MAX_SHM_SIZE ==> old(manager)@.next_id < SHM_ID_LIMIT,
    ensures
        final(manager).wf(),
        result == old(manager)@.create_result(size),
        final(manager)@ == old(manager)@.create(owner, size),
{
    manager.create(owner, size)
}

/// Attaches a process to a segment; see [`ShmManager::attach`].
pub fn attach(manager: &mut ShmManager, id: ShmId, pid: Pid, perms: ShmPermissions) -> (result:
    Result<VirtAddr, ShmError>)
    requires
        old(manager).wf(),
    ensures
        final(manager).wf(),
        match result {
            Ok(address) => old(manager)@.attach_result(id, pid) == Ok::<u64, ShmError>(
                virt_addr_value(address),
            ),
            Err(e) => old(manager)@.attach_result(id, pid) == Err::<u64, ShmError>(e),
        },
        final(manager)@ == old(manager)@.attach(id, pid, perms),
{
    manager.attach(id, pid, perms)
}

/// Detaches a process from a segment; see [`ShmManager::detach`].
pub fn detach(manager: &mut ShmManager, id: ShmId, pid: Pid) -> (result: Result<(), ShmError>)
    requires
        old(manager).wf(),
    ensures
        final(manager).wf(),
        result == old(manager)@.detach_result(id, pid),
        final(manager)@ == old(manager)@.detach(id, pid),
{
    manager.detach(id, pid)
}

/// Deletes a segment; see [`ShmManager::delete`].
pub fn delete(manager: &mut ShmManager, id: ShmId, pid: Pid) -> (result: Result<(), ShmError>)
    requires
        old(manager).wf(),
    ensures
        final(manager).wf(),
        result == old(manager)@.delete_result(id, pid),
        final(manager)@ == old(manager)@.delete(id, pid),
{
    manager.delete(id, pid)
}

/// Segments with different ids lie at different addresses.
pub proof fn lemma_segment_address_injective(a: ShmId, b: ShmId)
    requires
        a < SHM_ID_LIMIT,
        b < SHM_ID_LIMIT,
        segment_address(a) == segment_address(b),
    ensures
        a == b,
{
}

/// Ids are never reused. The id that `create` hands out is not in use and is
/// above every id in use; afterwards the next id is one higher. No other
/// operation moves the next id, so an id stays retired after its segment is
/// deleted.
pub proof fn lemma_ids_are_fresh(state: ShmState, owner: Pid, size: usize, id: ShmId, pid: Pid)
    requires
        state.well_formed(),
        state.next_id < SHM_ID_LIMIT,
    ensures
        !state.segments.contains_key(state.next_id),
        forall|used: ShmId| state.segments.contains_key(used) ==> used < state.next_id,
        forall|used: ShmId| #[trigger]
            state.segments.contains_key(used) ==> state.segments[used].address
                != segment_address(state.next_id),
        forall|used: ShmId|
            state.segments.contains_key(used) && state.create_result(size) is Ok
                ==> #[trigger] state.create(owner, size).segments[used]
                == state.segments[used],
        state.create_result(size) is Ok ==> state.create(owner, size).next_id == state.next_id + 1,
        state.create(owner, size).well_formed(),
        state.attach(id, pid, ShmPermissions::all()).next_id == state.next_id,
        state.detach(id, pid).next_id == state.next_id,
        state.delete(id, pid).next_id == state.next_id,
{
    let after = state.create(owner, size);
    assert forall|used: ShmId| #[trigger]
        state.segments.contains_key(used) implies state.segments[used].address != segment_address(
        state.next_id,
    ) by {
        if state.segments[used].address == segment_address(state.next_id) {
            lemma_segment_address_injective(used, state.next_id);
        }
    }
    if state.create_result(size) is Ok {
        let segment = SegmentView::created(state.next_id, owner, size);
        assert(segment.well_formed());
        assert forall|used: ShmId| #[trigger] after.segments.contains_key(used) implies {
            &&& after.segments[used].id == used
            &&& used < after.next_id
            &&& after.segments[used].address == segment_address(used)
            &&& after.segments[used].well_formed()
        } by {
            if used != state.next_id {
                assert(state.segments.contains_key(used));
            }
        }
    }
}

/// Attaching and detaching keep the state well formed.
pub proof fn lemma_attachments_well_formed(
    state: ShmState,
    id: ShmId,
    pid: Pid,
    perms: ShmPermissions,
)
    requires
        state.well_formed(),
    ensures
        state.attach(id, pid, perms).well_formed(),
        state.detach(id, pid).well_formed(),
        state.delete(id, pid).well_formed(),
{
    if state.segments.contains_key(id) {
        let segment = state.segments[id];
        lemma_attach_well_formed(segment, pid, perms);
        lemma_first_some(keys(segment.attachments), pid);
        let attached = state.attach(id, pid, perms);
        assert forall|used: ShmId| #[trigger] attached.segments.contains_key(used) implies {
            &&& attached.segments[used].id == used
            &&& used < attached.next_id
            &&& attached.segments[used].address == segment_address(used)
            &&& attached.segments[used].well_formed()
        } by {
            if used != id {
                assert(state.segments.contains_key(used));
            }
        }
        let detached = state.detach(id, pid);
        assert forall|used: ShmId| #[trigger] detached.segments.contains_key(used) implies {
            &&& detached.segments[used].id == used
            &&& used < detached.next_id
            &&& detached.segments[used].address == segment_address(used)
            &&& detached.segments[used].well_formed()
        } by {
            if used != id {
                assert(state.segments.contains_key(used));
            }
        }
    }
    let deleted = state.delete(id, pid);
    assert forall|used: ShmId| #[trigger] deleted.segments.contains_key(used) implies {
        &&& deleted.segments[used].id == used
        &&& used < deleted.next_id
        &&& deleted.segments[used].address == segment_address(used)
        &&& deleted.segments[used].well_formed()
    } by {
        assert(state.segments.contains_key(used));
    }
}

/// Who may delete a segment, and when. Anyone but the owner is refused with
/// `PermissionDenied`, whether or not processes are attached; the owner is
/// refused with `StillAttached` while a process is attached, and succeeds
/// once none is. A refused call changes nothing.
pub proof fn lemma_delete_rules(state: ShmState, id: ShmId, pid: Pid)
    requires
        state.segments.contains_key(id),
    ensures
        pid != state.segments[id].owner ==> state.delete_result(id, pid) == Err::<(), ShmError>(
            ShmError::PermissionDenied,
        ),
        pid == state.segments[id].owner && state.segments[id].attachments.len() >= 1
            ==> state.delete_result(id, pid) == Err::<(), ShmError>(ShmError::StillAttached),
        pid == state.segments[id].owner && state.segments[id].attachments.len() == 0
            ==> state.delete_result(id, pid) == Ok::<(), ShmError>(()),
        state.delete_result(id, pid) is Err ==> state.delete(id, pid) == state,
        state.delete_result(id, pid) is Ok ==> !state.delete(id, pid).segments.contains_key(id),
{
}

/// Once every attached process has been detached, the owner can delete the
/// segment: detaching, one by one, a list of pids that names every attached
/// process leaves the segment without attachments.
pub proof fn lemma_delete_after_detaching_all(state: ShmState, id: ShmId, pids: Seq<Pid>)
    requires
        state.well_formed(),
        state.segments.contains_key(id),
        forall|pid: Pid| state.segments[id].is_attached(pid) ==> pids.contains(pid),
    ensures
        state.detach_each(id, pids).segments.contains_key(id),
        state.detach_each(id, pids).segments[id].attachments.len() == 0,
        state.detach_each(id, pids).delete_result(id, state.segments[id].owner) == Ok::<
            (),
            ShmError,
        >(()),
    decreases pids.len(),
{
    let segment = state.segments[id];
    if pids.len() == 0 {
        if segment.attachments.len() > 0 {
            let first = segment.attachments[0].0;
            assert(keys(segment.attachments)[0] == first);
            lemma_first_some(keys(segment.attachments), first);
            assert(segment.is_attached(first));
            assert(pids.contains(first));
        }
    } else {
        let pid = pids[0];
        let next = state.detach(id, pid);
        lemma_attachments_well_formed(state, id, pid, ShmPermissions::all());
        assert forall|other: Pid| next.segments[id].is_attached(other) implies pids.skip(
            1,
        ).contains(other) by {
            if segment.is_attached(pid) {
                lemma_detach(segment, pid, other);
            }
            assert(other != pid);
            assert(segment.is_attached(other));
            assert(pids.contains(other));
            let k = choose|k: int| 0 <= k < pids.len() && pids[k] == other;
            assert(pids.skip(1)[k - 1] == other);
        }
        lemma_delete_after_detaching_all(next, id, pids.skip(1));
    }
}

} // verus!
