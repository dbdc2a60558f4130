//! Hardware resource bookkeeping: I/O port ranges, MMIO regions and IRQ lines,
//! handed out without overlaps.

use vstd::prelude::*;

verus! {

/// Why a resource request failed.
#[derive(Debug, Clone, Copy, PartialEq, Eq, Structural)]
pub enum ResourceError {
    /// The range is already allocated.
    AlreadyAllocated,
    /// The resource is not allocated.
    NotFound,
    /// The range is empty.
    InvalidRange,
    /// The range overlaps an allocated one.
    Conflict,
}

/// A hardware resource.
#[derive(Debug, Clone, Copy, PartialEq, Eq, Hash, PartialOrd, Ord, Structural)]
pub enum Resource {
    /// I/O ports: base and count.
    IoPort(u16, u16),
    /// Memory-mapped I/O: physical address and size.
    Mmio(usize, usize),
    /// An IRQ line.
    Irq(u8),
}

/// End of a range whose end is clamped at the type's maximum.
pub open spec fn clamped_end(base: int, len: int, max: int) -> int {
    if base + len > max { max } else { base + len }
}

/// Whether two resources share a port, an address or an IRQ line. Range ends
/// are clamped at the type's maximum.
pub open spec fn resources_overlap(a: Resource, b: Resource) -> bool {
    match (a, b) {
        (Resource::IoPort(b1, c1), Resource::IoPort(b2, c2)) =>
            b1 < clamped_end(b2 as int, c2 as int, u16::MAX as int)
                && b2 < clamped_end(b1 as int, c1 as int, u16::MAX as int),
        (Resource::Mmio(a1, s1), Resource::Mmio(a2, s2)) =>
            a1 < clamped_end(a2 as int, s2 as int, usize::MAX as int)
                && a2 < clamped_end(a1 as int, s1 as int, usize::MAX as int),
        (Resource::Irq(i1), Resource::Irq(i2)) => i1 == i2,
        _ => false,
    }
}

/// The order resources are kept in: I/O ports, then MMIO, then IRQs; within a
/// kind by base, then by size.
pub open spec fn resource_lt(a: Resource, b: Resource) -> bool {
    match (a, b) {
        (Resource::IoPort(b1, c1), Resource::IoPort(b2, c2)) => b1 < b2 || (b1 == b2 && c1 < c2),
        (Resource::Mmio(a1, s1), Resource::Mmio(a2, s2)) => a1 < a2 || (a1 == a2 && s1 < s2),
        (Resource::Irq(i1), Resource::Irq(i2)) => i1 < i2,
        (Resource::IoPort(..), _) => true,
        (Resource::Mmio(..), Resource::Irq(..)) => true,
        _ => false,
    }
}

impl Resource {
    /// Whether this resource shares a port, an address or an IRQ line with `other`.
    pub fn overlaps(&self, other: &Resource) -> (r: bool)
        ensures
            r == resources_overlap(*self, *other),
    {
        match (self, other) {
            (Resource::IoPort(base1, count1), Resource::IoPort(base2, count2)) => {
                let end1 = base1.saturating_add(*count1);
                let end2 = base2.saturating_add(*count2);
                *base1 < end2 && *base2 < end1
            },
            (Resource::Mmio(addr1, size1), Resource::Mmio(addr2, size2)) => {
                let end1 = addr1.saturating_add(*size1);
                let end2 = addr2.saturating_add(*size2);
                *addr1 < end2 && *addr2 < end1
            },
            (Resource::Irq(irq1), Resource::Irq(irq2)) => *irq1 == *irq2,
            _ => false,
        }
    }

    /// Whether this resource comes before `other` in the manager's order.
    pub fn precedes(&self, other: &Resource) -> (r: bool)
        ensures
            r == resource_lt(*self, *other),
    {
        match (self, other) {
            (Resource::IoPort(b1, c1), Resource::IoPort(b2, c2)) => *b1 < *b2 || (*b1 == *b2 && *c1 < *c2),
            (Resource::Mmio(a1, s1), Resource::Mmio(a2, s2)) => *a1 < *a2 || (*a1 == *a2 && *s1 < *s2),
            (Resource::Irq(i1), Resource::Irq(i2)) => *i1 < *i2,
            (Resource::IoPort(..), _) => true,
            (Resource::Mmio(..), Resource::Irq(..)) => true,
            _ => false,
        }
    }
}

/// A granted resource.
#[derive(Debug, Clone, Copy)]
pub struct ResourceHandle {
    resource: Resource,
}

impl ResourceHandle {
    /// The resource this handle names.
    pub fn resource(&self) -> (r: Resource)
        ensures
            r == self@,
    {
        self.resource
    }

    /// The resource this handle names.
    pub closed spec fn view(&self) -> Resource {
        self.resource
    }
}

/// Tracks the allocated resources.
pub struct ResourceManager {
    allocated: Vec<Resource>,
}

/// Whether a resource covers nothing.
pub open spec fn is_empty_range(r: Resource) -> bool {
    match r {
        Resource::IoPort(_, c) => c == 0,
        Resource::Mmio(_, s) => s == 0,
        Resource::Irq(_) => false,
    }
}

impl ResourceManager {
    /// The allocated resources, in order.
    pub closed spec fn view(&self) -> Seq<Resource> {
        self.allocated@
    }

    /// The allocated resources are in strictly increasing order, none empty,
    /// and no two of them overlap.
    pub closed spec fn wf(&self) -> bool {
        &&& forall|i: int, j: int| 0 <= i < j < self.allocated@.len() ==> resource_lt(
            #[trigger] self.allocated@[i],
            #[trigger] self.allocated@[j],
        )
        &&& forall|i: int, j: int| 0 <= i < self.allocated@.len() && 0 <= j < self.allocated@.len() && i != j
            ==> !resources_overlap(#[trigger] self.allocated@[i], #[trigger] self.allocated@[j])
        &&& forall|i: int| 0 <= i < self.allocated@.len() ==> !is_empty_range(#[trigger] self.allocated@[i])
    }

    /// An empty manager.
    pub fn new() -> (m: Self)
        ensures
            m.wf(),
            m@ == Seq::<Resource>::empty(),
    {
        ResourceManager { allocated: Vec::new() }
    }

    /// Allocates `resource`: fails with `InvalidRange` when it is empty and with
    /// `Conflict` when it overlaps an allocated resource; otherwise adds it.
    pub fn allocate(&mut self, resource: Resource) -> (r: Result<ResourceHandle, ResourceError>)
        requires
            old(self).wf(),
        ensures
            final(self).wf(),
            is_empty_range(resource) ==> r == Err::<ResourceHandle, ResourceError>(ResourceError::InvalidRange)
                && final(self)@ == old(self)@,
            !is_empty_range(resource) && (exists|i: int| 0 <= i < old(self)@.len()
                && resources_overlap(resource, #[trigger] old(self)@[i])) ==> r == Err::<
                ResourceHandle,
                ResourceError,
            >(ResourceError::Conflict) && final(self)@ == old(self)@,
            !is_empty_range(resource) && !(exists|i: int| 0 <= i < old(self)@.len()
                && resources_overlap(resource, #[trigger] old(self)@[i])) ==> (r matches Ok(h)
                && h@ == resource && final(self)@.to_set() == old(self)@.to_set().insert(resource)
                && final(self)@.len() == old(self)@.len() + if old(self)@.contains(resource) { 0int } else { 1int }),
    {
        match resource {
            Resource::IoPort(_, 0) | Resource::Mmio(_, 0) => {
                return Err(ResourceError::InvalidRange);
            },
            _ => {},
        }
        let mut i: usize = 0;
        while i < self.allocated.len()
            invariant
                i <= self.allocated@.len(),
                self.allocated@ == old(self).allocated@,
                old(self).wf(),
                !is_empty_range(resource),
                forall|j: int| 0 <= j < i ==> !resources_overlap(resource, #[trigger] self.allocated@[j]),
            decreases self.allocated.len() - i,
        {
            if resource.overlaps(&self.allocated[i]) {
                assert(resources_overlap(resource, old(self)@[i as int]));
                return Err(ResourceError::Conflict);
            }
            i = i + 1;
        }
        // Keep the order: insert before the first resource that comes after it.
        let mut pos: usize = 0;
        while pos < self.allocated.len() && self.allocated[pos].precedes(&resource)
            invariant
                pos <= self.allocated@.len(),
                self.allocated@ == old(self).allocated@,
                old(self).wf(),
                !is_empty_range(resource),
                forall|j: int| 0 <= j < self.allocated@.len() ==> !resources_overlap(resource, #[trigger] self.allocated@[j]),
                forall|j: int| 0 <= j < pos ==> resource_lt(#[trigger] self.allocated@[j], resource),
            decreases self.allocated.len() - pos,
        {
            pos = pos + 1;
        }
        if pos < self.allocated.len() && self.allocated[pos] == resource {
            // Already held (a range that ends at the top of its space overlaps nothing,
            // not even itself): nothing to add.
            proof {
                assert(old(self)@.contains(resource));
            }
            return Ok(ResourceHandle { resource });
        }
        proof {
            lemma_overlap_symmetric_all();
            if pos < self.allocated@.len() {
                lemma_resource_lt_total(self.allocated@[pos as int], resource);
            }
            lemma_resource_lt_transitive_all();
            assert(!old(self)@.contains(resource)) by {
                if old(self)@.contains(resource) {
                    let k = choose|k: int| 0 <= k < old(self)@.len() && old(self)@[k] == resource;
                    lemma_resource_lt_irreflexive(resource);
                    if k < pos {
                    } else if k > pos {
                        assert(resource_lt(old(self)@[pos as int], old(self)@[k]));
                    }
                }
            }
        }
        self.allocated.insert(pos, resource);
        proof {
            let s = self.allocated@;
            let o = old(self).allocated@;
            assert(s.to_set() =~= o.to_set().insert(resource)) by {
                assert forall|x: Resource| s.to_set().contains(x) <==> o.to_set().insert(resource).contains(x) by {
                    if s.to_set().contains(x) {
                        let k = choose|k: int| 0 <= k < s.len() && s[k] == x;
                        if k < pos {
                            assert(o[k] == x);
                        } else if k > pos {
                            assert(o[k - 1] == x);
                        }
                    }
                    if o.to_set().contains(x) {
                        let k = choose|k: int| 0 <= k < o.len() && o[k] == x;
                        if k < pos {
                            assert(s[k] == x);
                        } else {
                            assert(s[k + 1] == x);
                        }
                    }
                    if x == resource {
                        assert(s[pos as int] == x);
                    }
                }
            }
            assert forall|a: int, b: int| 0 <= a < b < s.len() implies resource_lt(#[trigger] s[a], #[trigger] s[b]) by {
                if a < pos && b < pos {
                } else if a < pos && b == pos {
                } else if a < pos && b > pos {
                    assert(s[b] == o[b - 1]);
                } else if a == pos {
                    assert(s[b] == o[b - 1]);
                    if b - 1 > pos {
                        assert(resource_lt(o[pos as int], o[b - 1]));
                    }
                } else {
                    assert(s[a] == o[a - 1] && s[b] == o[b - 1]);
                }
            }
            assert forall|a: int, b: int| 0 <= a < s.len() && 0 <= b < s.len() && a != b implies !resources_overlap(
                #[trigger] s[a], #[trigger] s[b]) by {
                let oa = if a < pos { a } else { a - 1 };
                let ob = if b < pos { b } else { b - 1 };
                if a == pos {
                    assert(s[b] == o[ob]);
                } else if b == pos {
                    assert(s[a] == o[oa]);
                } else {
                    assert(s[a] == o[oa] && s[b] == o[ob]);
                }
            }
            assert forall|a: int| 0 <= a < s.len() implies !is_empty_range(#[trigger] s[a]) by {
                if a < pos {
                    assert(s[a] == o[a]);
                } else if a > pos {
                    assert(s[a] == o[a - 1]);
                }
            }
        }
        Ok(ResourceHandle { resource })
    }

    /// Removes `resource`; `NotFound` when it is not allocated.
    pub fn deallocate(&mut self, resource: Resource) -> (r: Result<(), ResourceError>)
        requires
            old(self).wf(),
        ensures
            final(self).wf(),
            old(self)@.contains(resource) ==> r is Ok && final(self)@.to_set() == old(self)@.to_set().remove(resource)
                && final(self)@.len() == old(self)@.len() - 1,
            !old(self)@.contains(resource) ==> r == Err::<(), ResourceError>(ResourceError::NotFound)
                && final(self)@ == old(self)@,
    {
        let mut i: usize = 0;
        while i < self.allocated.len()
            invariant
                i <= self.allocated@.len(),
                self.allocated@ == old(self).allocated@,
                old(self).wf(),
                forall|j: int| 0 <= j < i ==> self.allocated@[j] != resource,
            decreases self.allocated.len() - i,
        {
            if self.allocated[i] == resource {
                self.allocated.remove(i);
                proof {
                    let s = self.allocated@;
                    let o = old(self).allocated@;
                    assert forall|a: int, b: int| 0 <= a < b < s.len() implies resource_lt(#[trigger] s[a], #[trigger] s[b]) by {
                        let oa = if a < i { a } else { a + 1 };
                        let ob = if b < i { b } else { b + 1 };
                        assert(s[a] == o[oa] && s[b] == o[ob]);
                    }
                    assert forall|a: int, b: int| 0 <= a < s.len() && 0 <= b < s.len() && a != b implies !resources_overlap(
                        #[trigger] s[a], #[trigger] s[b]) by {
                        let oa = if a < i { a } else { a + 1 };
                        let ob = if b < i { b } else { b + 1 };
                        assert(s[a] == o[oa] && s[b] == o[ob]);
                    }
                    assert forall|a: int| 0 <= a < s.len() implies !is_empty_range(#[trigger] s[a]) by {
                        let oa = if a < i { a } else { a + 1 };
                        assert(s[a] == o[oa]);
                    }
                    assert(s.to_set() =~= o.to_set().remove(resource)) by {
                        assert forall|x: Resource| s.to_set().contains(x) <==> o.to_set().remove(resource).contains(x) by {
                            if s.to_set().contains(x) {
                                let k = choose|k: int| 0 <= k < s.len() && s[k] == x;
                                let ok = if k < i { k } else { k + 1 };
                                assert(o[ok] == x);
                                if x == resource {
                                    lemma_resource_lt_irreflexive(resource);
                                    if ok < i {
                                        assert(resource_lt(o[ok], o[i as int]));
                                    } else {
                                        assert(resource_lt(o[i as int], o[ok]));
                                    }
                                }
                            }
                            if o.to_set().remove(resource).contains(x) {
                                let k = choose|k: int| 0 <= k < o.len() && o[k] == x;
                                if k < i {
                                    assert(s[k] == x);
                                } else {
                                    assert(k != i);
                                    assert(s[k - 1] == x);
                                }
                            }
                        }
                    }
                }
                return Ok(());
            }
            i = i + 1;
        }
        Err(ResourceError::NotFound)
    }

    /// Whether `resource` itself is allocated.
    pub fn is_allocated(&self, resource: &Resource) -> (r: bool)
        ensures
            r == self@.contains(*resource),
    {
        let mut i: usize = 0;
        while i < self.allocated.len()
            invariant
                i <= self.allocated@.len(),
                forall|j: int| 0 <= j < i ==> self.allocated@[j] != *resource,
            decreases self.allocated.len() - i,
        {
            if self.allocated[i] == *resource {
                return true;
            }
            i = i + 1;
        }
        false
    }

    /// Whether `resource` overlaps an allocated resource.
    pub fn check_conflict(&self, resource: &Resource) -> (r: bool)
        ensures
            r == exists|i: int| 0 <= i < self@.len() && resources_overlap(*resource, #[trigger] self@[i]),
    {
        let mut i: usize = 0;
        while i < self.allocated.len()
            invariant
                i <= self.allocated@.len(),
                forall|j: int| 0 <= j < i ==> !resources_overlap(*resource, #[trigger] self.allocated@[j]),
            decreases self.allocated.len() - i,
        {
            if resource.overlaps(&self.allocated[i]) {
                assert(resources_overlap(*resource, self@[i as int]));
                return true;
            }
            i = i + 1;
        }
        false
    }

    /// The allocated resources, in strictly increasing order (I/O ports, then
    /// MMIO, then IRQs; see [`resource_lt`]), so none twice.
    pub fn allocated_resources(&self) -> (v: Vec<Resource>)
        requires
            self.wf(),
        ensures
            v@ == self@,
            forall|i: int, j: int| 0 <= i < j < v@.len() ==> resource_lt(#[trigger] v@[i], #[trigger] v@[j]),
            forall|i: int, j: int| 0 <= i < j < v@.len() ==> #[trigger] v@[i] != #[trigger] v@[j],
    {
        proof {
            assert forall|i: int, j: int| 0 <= i < j < self@.len() implies #[trigger] self@[i] != #[trigger] self@[j] by {
                lemma_resource_lt_irreflexive(self@[i]);
            }
        }
        self.allocated.clone()
    }
}

proof fn lemma_overlap_symmetric_all()
    ensures
        forall|a: Resource, b: Resource| #[trigger] resources_overlap(a, b) == resources_overlap(b, a),
{
}

proof fn lemma_resource_lt_total(a: Resource, b: Resource)
    ensures
        a == b || resource_lt(a, b) || resource_lt(b, a),
{
}

proof fn lemma_resource_lt_irreflexive(a: Resource)
    ensures
        !resource_lt(a, a),
{
}

proof fn lemma_resource_lt_transitive_all()
    ensures
        forall|a: Resource, b: Resource, c: Resource|
            #[trigger] resource_lt(a, b) && #[trigger] resource_lt(b, c) ==> resource_lt(a, c),
{
}

/// Overlap is symmetric: `a` overlaps `b` exactly when `b` overlaps `a`.
pub proof fn lemma_overlap_symmetric(a: Resource, b: Resource)
    ensures
        resources_overlap(a, b) == resources_overlap(b, a),
{
}

/// No two resources a manager holds overlap.
pub proof fn lemma_no_two_overlap(m: &ResourceManager, i: int, j: int)
    requires
        m.wf(),
        0 <= i < m@.len(),
        0 <= j < m@.len(),
        i != j,
    ensures
        !resources_overlap(m@[i], m@[j]),
{
}

} // verus!
