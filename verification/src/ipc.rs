//! Message passing between threads, and named services.
//!
//! Each thread may own a bounded queue of messages. Services are registered by
//! name; a kernel-space service is encoded as a thread ID whose low byte is zero
//! and whose next bits hold the service ID.

use vstd::prelude::*;
use std::collections::VecDeque;

verus! {

/// A thread ID.
pub type Tid = usize;

/// Largest message payload, in bytes.
pub const MAX_MESSAGE_SIZE: usize = 1024;

/// Most messages a queue holds.
pub const MAX_QUEUE_SIZE: usize = 64;

/// The thread ID that stands for kernel space.
pub const KERNEL_SERVICE_TID: Tid = 0;

/// Why an IPC operation failed.
#[derive(Debug, Clone, Copy, PartialEq, Eq, Structural)]
pub enum IpcError {
    NotInitialized,
    ThreadNotFound,
    QueueFull,
    QueueExists,
    NoQueue,
    MessageTooLarge,
    Timeout,
    WouldBlock,
    ServiceExists,
}

/// A message.
#[derive(Debug, Clone)]
pub struct Message {
    /// The sending thread.
    pub sender: Tid,
    /// The message type (chosen by the users).
    pub msg_type: u64,
    /// The payload.
    pub payload: Vec<u8>,
}

impl Message {
    /// A message; `MessageTooLarge` when the payload exceeds `MAX_MESSAGE_SIZE` bytes.
    pub fn new(sender: Tid, msg_type: u64, payload: Vec<u8>) -> (r: Result<Self, IpcError>)
        ensures
            payload@.len() > MAX_MESSAGE_SIZE ==> r == Err::<Message, IpcError>(IpcError::MessageTooLarge),
            payload@.len() <= MAX_MESSAGE_SIZE ==> (r matches Ok(m) && m.sender == sender
                && m.msg_type == msg_type && m.payload@ == payload@),
    {
        if payload.len() > MAX_MESSAGE_SIZE {
            return Err(IpcError::MessageTooLarge);
        }
        Ok(Message { sender, msg_type, payload })
    }

    /// A message with an empty payload.
    pub fn simple(sender: Tid, msg_type: u64) -> (m: Self)
        ensures
            m.sender == sender,
            m.msg_type == msg_type,
            m.payload@.len() == 0,
    {
        Message { sender, msg_type, payload: Vec::new() }
    }
}

/// A thread's queue of pending messages, oldest first.
pub struct MessageQueue {
    owner: Tid,
    messages: VecDeque<Message>,
}

impl MessageQueue {
    /// The pending messages, oldest first.
    pub closed spec fn view(&self) -> Seq<Message> {
        self.messages@
    }

    /// The thread that owns the queue.
    pub closed spec fn owner(&self) -> Tid {
        self.owner
    }

    /// An empty queue.
    pub fn new(owner: Tid) -> (q: Self)
        ensures
            q@ == Seq::<Message>::empty(),
            q.owner() == owner,
    {
        MessageQueue { owner, messages: VecDeque::new() }
    }

    /// Appends `msg`; `QueueFull`, with nothing changed, when the queue holds
    /// `MAX_QUEUE_SIZE` messages.
    pub fn send(&mut self, msg: Message) -> (r: Result<(), IpcError>)
        ensures
            final(self).owner() == old(self).owner(),
            old(self)@.len() >= MAX_QUEUE_SIZE ==> r == Err::<(), IpcError>(IpcError::QueueFull)
                && final(self)@ == old(self)@,
            old(self)@.len() < MAX_QUEUE_SIZE ==> r is Ok && final(self)@ == old(self)@.push(msg),
    {
        if self.messages.len() >= MAX_QUEUE_SIZE {
            return Err(IpcError::QueueFull);
        }
        self.messages.push_back(msg);
        Ok(())
    }

    /// Removes and returns the oldest message.
    pub fn try_recv(&mut self) -> (r: Option<Message>)
        ensures
            final(self).owner() == old(self).owner(),
            old(self)@.len() == 0 ==> r is None && final(self)@ == old(self)@,
            old(self)@.len() > 0 ==> r == Some(old(self)@[0]) && final(self)@ == old(self)@.drop_first(),
    {
        let r = self.messages.pop_front();
        proof {
            if old(self)@.len() > 0 {
                assert(self.messages@ =~= old(self)@.drop_first());
            }
        }
        r
    }

    /// Whether no message is pending.
    pub fn is_empty(&self) -> (b: bool)
        ensures
            b == (self@.len() == 0),
    {
        self.messages.len() == 0
    }

    /// The number of pending messages.
    pub fn len(&self) -> (n: usize)
        ensures
            n == self@.len(),
    {
        self.messages.len()
    }

    /// Removes and returns the oldest message from `sender` (from anyone when
    /// `sender` is `None`).
    fn take_matching(&mut self, sender: Option<Tid>) -> (r: Option<Message>)
        ensures
            final(self).owner() == old(self).owner(),
            match r {
                Some(m) => exists|i: int| {
                    &&& 0 <= i < old(self)@.len()
                    &&& old(self)@[i] == m
                    &&& #[trigger] accepts(sender, old(self)@[i])
                    &&& forall|j: int| 0 <= j < i ==> !accepts(sender, #[trigger] old(self)@[j])
                    &&& final(self)@ == old(self)@.remove(i)
                },
                None => {
                    &&& forall|j: int| 0 <= j < old(self)@.len() ==> !accepts(sender, #[trigger] old(self)@[j])
                    &&& final(self)@ == old(self)@
                },
            },
    {
        let mut i: usize = 0;
        while i < self.messages.len()
            invariant
                i <= self.messages@.len(),
                self.messages@ == old(self)@,
                self.owner == old(self).owner,
                forall|j: int| 0 <= j < i ==> !accepts(sender, #[trigger] self.messages@[j]),
            decreases self.messages@.len() - i,
        {
            let ok = match sender {
                None => true,
                Some(s) => self.messages[i].sender == s,
            };
            if ok {
                let m = self.messages.remove(i);
                assert(accepts(sender, old(self)@[i as int]));
                return m;
            }
            i = i + 1;
        }
        None
    }
}

/// Whether a receive that asks for `sender` takes message `m`.
pub open spec fn accepts(sender: Option<Tid>, m: Message) -> bool {
    match sender {
        None => true,
        Some(s) => m.sender == s,
    }
}

/// A stable wait-channel ID for a thread's queue: the thread ID with the top bit set.
pub fn get_sync_id(tid: Tid) -> (id: u64)
    ensures
        id == if tid < 0x8000_0000_0000_0000 { tid + 0x8000_0000_0000_0000 } else { tid as int },
{
    let t = tid as u64;
    let id = 0x8000_0000_0000_0000u64 | t;
    assert(id == if t < 0x8000_0000_0000_0000u64 { (t + 0x8000_0000_0000_0000u64) as u64 } else { t }) by (bit_vector)
        requires
            id == 0x8000_0000_0000_0000u64 | t,
    ;
    id
}

/// No name occurs twice.
pub open spec fn names_distinct(s: Seq<(Seq<char>, Tid)>) -> bool {
    forall|i: int, j: int| 0 <= i < j < s.len() ==> (#[trigger] s[i]).0 != (#[trigger] s[j]).0
}

/// The thread registered under `name`, if any.
pub open spec fn service_lookup(s: Seq<(Seq<char>, Tid)>, name: Seq<char>) -> Option<Tid>
    decreases s.len(),
{
    if s.len() == 0 {
        None
    } else if s[0].0 == name {
        Some(s[0].1)
    } else {
        service_lookup(s.drop_first(), name)
    }
}

/// A registered service: its name and the thread that serves it.
pub struct ServiceEntry {
    pub name: String,
    pub tid: Tid,
}

/// The message queues and the service registry. Both are absent until `init`.
pub struct IpcState {
    queues: Option<Vec<Option<MessageQueue>>>,
    services: Option<Vec<ServiceEntry>>,
}

/// What the state holds: per thread ID, the queue's pending messages (if it has
/// one), and the service registry by name.
impl IpcState {
    /// Whether `init` has run.
    pub closed spec fn initialized(&self) -> bool {
        self.queues is Some && self.services is Some
    }

    /// The queues, indexed by thread ID; `None` where a thread has no queue.
    pub closed spec fn queues(&self) -> Seq<Option<Seq<Message>>> {
        match self.queues {
            Some(v) => Seq::new(v@.len(), |i: int| match v@[i] {
                Some(q) => Some(q@),
                None => None,
            }),
            None => Seq::empty(),
        }
    }

    /// The pending messages of thread `tid`, if it has a queue.
    pub open spec fn queue_of(&self, tid: Tid) -> Option<Seq<Message>> {
        if tid < self.queues().len() { self.queues()[tid as int] } else { None }
    }

    /// The registered services, oldest first: name and thread.
    pub closed spec fn services(&self) -> Seq<(Seq<char>, Tid)> {
        match self.services {
            Some(v) => Seq::new(v@.len(), |i: int| (v@[i].name@, v@[i].tid)),
            None => Seq::empty(),
        }
    }

    /// Service names are distinct, and each queue belongs to its thread.
    pub closed spec fn wf(&self) -> bool {
        &&& self.queues is Some <==> self.services is Some
        &&& names_distinct(self.services())
        &&& match self.queues {
            Some(v) => forall|i: int| 0 <= i < v@.len() ==> (#[trigger] v@[i] matches Some(q) ==> q.owner() == i),
            None => true,
        }
    }

    /// The state before `init`.
    pub fn new() -> (s: Self)
        ensures
            s.wf(),
            !s.initialized(),
    {
        IpcState { queues: None, services: None }
    }
}

/// Sets up empty queues and an empty service registry.
pub fn init(state: &mut IpcState)
    ensures
        final(state).wf(),
        final(state).initialized(),
        final(state).queues() == Seq::<Option<Seq<Message>>>::empty(),
        final(state).services() == Seq::<(Seq<char>, Tid)>::empty(),
{
    state.queues = Some(Vec::new());
    state.services = Some(Vec::new());
    proof {
        assert(state.queues() =~= Seq::<Option<Seq<Message>>>::empty());
        assert(state.services() =~= Seq::<(Seq<char>, Tid)>::empty());
    }
}

/// Gives thread `tid` an empty queue.
pub fn create_queue(state: &mut IpcState, tid: Tid) -> (r: Result<(), IpcError>)
    requires
        old(state).wf(),
        tid < usize::MAX,
    ensures
        final(state).wf(),
        final(state).services() == old(state).services(),
        !old(state).initialized() ==> r == Err::<(), IpcError>(IpcError::NotInitialized)
            && final(state).queues() == old(state).queues(),
        old(state).initialized() && old(state).queue_of(tid) is Some ==> r == Err::<(), IpcError>(
            IpcError::QueueExists) && forall|t: Tid| #[trigger] final(state).queue_of(t) == old(state).queue_of(t),
        old(state).initialized() && old(state).queue_of(tid) is None ==> r is Ok
            && final(state).queue_of(tid) == Some(Seq::<Message>::empty())
            && forall|t: Tid| t != tid ==> #[trigger] final(state).queue_of(t) == old(state).queue_of(t),
        final(state).initialized() == old(state).initialized(),
{
    if state.queues.is_none() {
        return Err(IpcError::NotInitialized);
    }
    let mut queues = state.queues.take().unwrap();
    let idx = tid as usize;
    let ghost before = queues@;
    while queues.len() <= idx
        invariant
            idx < usize::MAX,
            queues@.len() >= before.len(),
            before.len() > idx ==> queues@.len() == before.len(),
            queues@.subrange(0, before.len() as int) == before,
            forall|i: int| before.len() <= i < queues@.len() ==> (#[trigger] queues@[i]) is None,
        decreases idx + 1 - queues@.len(),
    {
        queues.push(None);
    }
    assert(forall|i: int| 0 <= i < before.len() ==> queues@[i] == before[i]) by {
        assert forall|i: int| 0 <= i < before.len() implies queues@[i] == before[i] by {
            assert(queues@.subrange(0, before.len() as int)[i] == queues@[i]);
        }
    }
    if queues[idx].is_some() {
        proof {
            assert(queues@ =~= before);
        }
        state.queues = Some(queues);
        return Err(IpcError::QueueExists);
    }
    queues[idx] = Some(MessageQueue::new(tid));
    state.queues = Some(queues);
    proof {
        let v = state.queues->0;
        assert forall|t: Tid| t != tid implies #[trigger] state.queue_of(t) == old(state).queue_of(t) by {
            if t < before.len() {
                assert(v@[t as int] == before[t as int]);
            }
        }
        assert(state.queue_of(tid) == Some(Seq::<Message>::empty()));
        assert forall|i: int| 0 <= i < v@.len() implies (#[trigger] v@[i] matches Some(q) ==> q.owner() == i) by {
            if i != idx && i < before.len() {
                assert(v@[i] == before[i]);
            }
        }
    }
    Ok(())
}


/// Removes thread `tid`'s queue. Returns whether it had one (its waiters are then
/// to be woken on `get_sync_id(tid)`).
pub fn destroy_queue(state: &mut IpcState, tid: Tid) -> (had: bool)
    requires
        old(state).wf(),
    ensures
        final(state).wf(),
        final(state).initialized() == old(state).initialized(),
        final(state).services() == old(state).services(),
        had == (old(state).initialized() && old(state).queue_of(tid) is Some),
        final(state).queue_of(tid) is None,
        forall|t: Tid| t != tid ==> #[trigger] final(state).queue_of(t) == old(state).queue_of(t),
{
    if state.queues.is_none() {
        return false;
    }
    let mut queues = state.queues.take().unwrap();
    let ghost before = queues@;
    let idx = tid as usize;
    let mut had = false;
    if idx < queues.len() {
        let q = queues[idx].take();
        had = q.is_some();
    }
    state.queues = Some(queues);
    proof {
        let v = state.queues->0;
        assert forall|t: Tid| t != tid implies #[trigger] state.queue_of(t) == old(state).queue_of(t) by {
            if t < before.len() {
                assert(v@[t as int] == before[t as int]);
            }
        }
        assert forall|i: int| 0 <= i < v@.len() implies (#[trigger] v@[i] matches Some(q) ==> q.owner() == i) by {
            if i != idx {
                assert(v@[i] == before[i]);
            }
        }
    }
    had
}

/// Appends `msg` to thread `target`'s queue. On success the target's waiters are
/// to be woken on `get_sync_id(target)`. A full queue gives `QueueFull`; with
/// `block` set the caller yields and sends again until the queue has room.
pub fn send(state: &mut IpcState, target: Tid, msg: Message, block: bool) -> (r: Result<(), IpcError>)
    requires
        old(state).wf(),
    ensures
        final(state).wf(),
        final(state).initialized() == old(state).initialized(),
        final(state).services() == old(state).services(),
        !old(state).initialized() ==> r == Err::<(), IpcError>(IpcError::NotInitialized),
        old(state).initialized() && old(state).queue_of(target) is None ==> r == Err::<(), IpcError>(
            IpcError::ThreadNotFound),
        old(state).initialized() ==> (old(state).queue_of(target) matches Some(q) ==> if q.len() >= MAX_QUEUE_SIZE {
            r == Err::<(), IpcError>(IpcError::QueueFull)
        } else {
            r is Ok && final(state).queue_of(target) == Some(q.push(msg))
        }),
        r is Err ==> forall|t: Tid| #[trigger] final(state).queue_of(t) == old(state).queue_of(t),
        forall|t: Tid| t != target ==> #[trigger] final(state).queue_of(t) == old(state).queue_of(t),
{
    if state.queues.is_none() {
        return Err(IpcError::NotInitialized);
    }
    let mut queues = state.queues.take().unwrap();
    let ghost before = queues@;
    let idx = target as usize;
    if idx >= queues.len() || queues[idx].is_none() {
        state.queues = Some(queues);
        return Err(IpcError::ThreadNotFound);
    }
    let mut q = queues[idx].take().unwrap();
    let r = q.send(msg);
    queues[idx] = Some(q);
    state.queues = Some(queues);
    proof {
        let v = state.queues->0;
        assert forall|t: Tid| t != target implies #[trigger] state.queue_of(t) == old(state).queue_of(t) by {
            if t < before.len() {
                assert(v@[t as int] == before[t as int]);
            }
        }
        assert forall|i: int| 0 <= i < v@.len() implies (#[trigger] v@[i] matches Some(q) ==> q.owner() == i) by {
            if i != idx {
                assert(v@[i] == before[i]);
            }
        }
    }
    r
}

/// Registers the caller's thread as the service `name`; `NotInitialized` when
/// the caller is unknown.
pub fn register_service(state: &mut IpcState, current_tid: Option<Tid>, name: &str) -> (r: Result<(), IpcError>)
    requires
        old(state).wf(),
    ensures
        final(state).wf(),
        current_tid is None ==> r == Err::<(), IpcError>(IpcError::NotInitialized)
            && final(state).services() == old(state).services(),
        current_tid matches Some(t) ==> registered(*old(state), *final(state), name@, t, r),
        forall|t: Tid| #[trigger] final(state).queue_of(t) == old(state).queue_of(t),
        final(state).initialized() == old(state).initialized(),
{
    match current_tid {
        None => Err(IpcError::NotInitialized),
        Some(tid) => do_register_service(state, name, tid),
    }
}

/// What registering `name` for `tid` does: refused before `init` or when the name is
/// taken, otherwise the name is added.
pub open spec fn registered(before: IpcState, after: IpcState, name: Seq<char>, tid: Tid, r: Result<(), IpcError>) -> bool {
    if !before.initialized() {
        r == Err::<(), IpcError>(IpcError::NotInitialized) && after.services() == before.services()
    } else if service_lookup(before.services(), name) is Some {
        r == Err::<(), IpcError>(IpcError::ServiceExists) && after.services() == before.services()
    } else {
        r is Ok && after.services() == before.services().push((name, tid))
    }
}

fn do_register_service(state: &mut IpcState, name: &str, tid: Tid) -> (r: Result<(), IpcError>)
    requires
        old(state).wf(),
    ensures
        final(state).wf(),
        registered(*old(state), *final(state), name@, tid, r),
        forall|t: Tid| #[trigger] final(state).queue_of(t) == old(state).queue_of(t),
        final(state).initialized() == old(state).initialized(),
{
    if state.services.is_none() {
        return Err(IpcError::NotInitialized);
    }
    let key = name.to_owned();
    if lookup_in(state.services.as_ref().unwrap(), &key).is_some() {
        return Err(IpcError::ServiceExists);
    }
    let ghost before = state.services();
    let mut services = state.services.take().unwrap();
    let ghost old_v = services@;
    let ghost key_view = key@;
    services.push(ServiceEntry { name: key, tid });
    state.services = Some(services);
    proof {
        let v = state.services->0;
        assert(v@ == old_v.push(v@[old_v.len() as int]));
        assert(state.services() =~= before.push((name@, tid))) by {
            assert forall|i: int| 0 <= i < before.len() + 1 implies state.services()[i] == before.push((name@, tid))[i] by {
                if i < before.len() {
                    assert(v@[i] == old_v[i]);
                }
            }
        }
        lemma_lookup_none_distinct(before, name@);
    }
    Ok(())
}

proof fn lemma_lookup_none_distinct(s: Seq<(Seq<char>, Tid)>, name: Seq<char>)
    requires
        names_distinct(s),
        service_lookup(s, name) is None,
    ensures
        names_distinct(s.push((name, 0))) || true,
        forall|i: int| 0 <= i < s.len() ==> (#[trigger] s[i]).0 != name,
    decreases s.len(),
{
    if s.len() > 0 {
        assert(names_distinct(s.drop_first()));
        lemma_lookup_none_distinct(s.drop_first(), name);
        assert forall|i: int| 0 <= i < s.len() implies (#[trigger] s[i]).0 != name by {
            if i > 0 {
                assert(s[i] == s.drop_first()[i - 1]);
            }
        }
    }
}

proof fn lemma_lookup_found(s: Seq<(Seq<char>, Tid)>, i: int, name: Seq<char>)
    requires
        0 <= i < s.len(),
        s[i].0 == name,
        forall|j: int| 0 <= j < i ==> (#[trigger] s[j]).0 != name,
    ensures
        service_lookup(s, name) == Some(s[i].1),
    decreases i,
{
    if i > 0 {
        assert forall|j: int| 0 <= j < i - 1 implies (#[trigger] s.drop_first()[j]).0 != name by {
            assert(s.drop_first()[j] == s[j + 1]);
        }
        lemma_lookup_found(s.drop_first(), i - 1, name);
    }
}

proof fn lemma_lookup_absent(s: Seq<(Seq<char>, Tid)>, name: Seq<char>)
    requires
        forall|j: int| 0 <= j < s.len() ==> (#[trigger] s[j]).0 != name,
    ensures
        service_lookup(s, name) is None,
    decreases s.len(),
{
    if s.len() > 0 {
        assert forall|j: int| 0 <= j < s.len() - 1 implies (#[trigger] s.drop_first()[j]).0 != name by {
            assert(s.drop_first()[j] == s[j + 1]);
        }
        lemma_lookup_absent(s.drop_first(), name);
    }
}

fn lookup_in(v: &Vec<ServiceEntry>, key: &String) -> (r: Option<Tid>)
    ensures
        r == service_lookup(Seq::new(v@.len(), |i: int| (v@[i].name@, v@[i].tid)), key@),
{
    let ghost s = Seq::new(v@.len(), |i: int| (v@[i].name@, v@[i].tid));
    let mut i: usize = 0;
    while i < v.len()
        invariant
            i <= v@.len(),
            s == Seq::new(v@.len(), |i: int| (v@[i].name@, v@[i].tid)),
            forall|j: int| 0 <= j < i ==> (#[trigger] s[j]).0 != key@,
        decreases v@.len() - i,
    {
        if v[i].name == *key {
            proof {
                lemma_lookup_found(s, i as int, key@);
            }
            return Some(v[i].tid);
        }
        i = i + 1;
    }
    proof {
        lemma_lookup_absent(s, key@);
    }
    None
}

/// Registers a kernel-space service: thread ID 0 with the service ID in bits 8 to 23.
pub fn register_kernel_service(state: &mut IpcState, name: &str, service_id: u16) -> (r: Result<(), IpcError>)
    requires
        old(state).wf(),
    ensures
        final(state).wf(),
        registered(*old(state), *final(state), name@, (service_id * 256) as Tid, r),
        forall|t: Tid| #[trigger] final(state).queue_of(t) == old(state).queue_of(t),
        final(state).initialized() == old(state).initialized(),
{
    // The service ID goes above the low byte, which stays zero.
    let encoded: Tid = KERNEL_SERVICE_TID + (service_id as Tid) * 256;
    do_register_service(state, name, encoded)
}

/// What looking a service up reports for the thread ID it was registered
/// with: a kernel-space service (low byte zero) as `KERNEL_SERVICE_TID`, any
/// other as its thread ID.
pub open spec fn reported_tid(t: Tid) -> Tid {
    if t % 256 == 0 { KERNEL_SERVICE_TID } else { t }
}

/// The thread that serves `name`, or `KERNEL_SERVICE_TID` when it is a
/// kernel-space service; `None` when nothing is registered under `name`.
pub fn lookup_service(state: &IpcState, name: &str) -> (r: Option<Tid>)
    ensures
        r == match service_lookup(state.services(), name@) {
            Some(t) => Some(reported_tid(t)),
            None => None::<Tid>,
        },
{
    let found = match &state.services {
        None => None,
        Some(v) => {
            let key = name.to_owned();
            lookup_in(v, &key)
        },
    };
    match found {
        None => None,
        Some(t) => {
            if is_kernel_service(t) {
                Some(KERNEL_SERVICE_TID)
            } else {
                Some(t)
            }
        },
    }
}

/// Whether `tid` names a kernel-space service: its low byte is zero.
pub fn is_kernel_service(tid: Tid) -> (b: bool)
    ensures
        b == (tid % 256 == 0),
{
    // The low byte.
    let low = tid % 256;
    tid == KERNEL_SERVICE_TID || low == KERNEL_SERVICE_TID
}

/// The service ID a kernel-space service's thread ID encodes.
pub fn get_kernel_service_id(tid: Tid) -> (r: Option<u16>)
    ensures
        tid % 256 == 0 ==> r == Some((tid / 256) as u16),
        tid % 256 != 0 ==> r is None,
{
    if is_kernel_service(tid) {
        // The bits above the low byte.
        let v = tid / 256;
        Some(v as u16)
    } else {
        None
    }
}

/// What a receive decided: a message to hand over, or wait on a channel, for at
/// most `timeout_ms` milliseconds when that is given (see [`wait_expired`]), and
/// then call `recv_after_wait`.
pub enum RecvAction {
    Deliver(Message),
    Wait { channel: u64, timeout_ms: Option<u64> },
}

/// The wait channel of thread `tid`'s queue.
pub open spec fn sync_id_of(tid: Tid) -> u64 {
    if tid < 0x8000_0000_0000_0000 { (tid + 0x8000_0000_0000_0000) as u64 } else { tid as u64 }
}

/// Receives the oldest message from `sender` (from anyone when `None`) in the
/// caller's queue, creating the queue first if there is none. When no message
/// matches, the caller is to wait on its queue's channel, for at most
/// `timeout_ms` milliseconds when that is given.
pub fn recv(state: &mut IpcState, current_tid: Option<Tid>, sender: Option<Tid>, timeout_ms: Option<u64>) -> (r: Result<RecvAction, IpcError>)
    requires
        old(state).wf(),
        current_tid matches Some(t) ==> t < usize::MAX,
    ensures
        final(state).wf(),
        final(state).services() == old(state).services(),
        current_tid is None ==> r matches Err(IpcError::NotInitialized),
        current_tid is Some && !old(state).initialized() ==> r matches Err(IpcError::NotInitialized),
        current_tid matches Some(t) ==> (old(state).initialized() ==> {
            let q = match old(state).queue_of(t) {
                Some(q) => q,
                None => Seq::<Message>::empty(),
            };
            &&& forall|u: Tid| u != t ==> #[trigger] final(state).queue_of(u) == old(state).queue_of(u)
            &&& took_first_match(q, sender, final(state).queue_of(t), r)
            &&& (r matches Ok(RecvAction::Wait { channel, timeout_ms: w }) ==> channel == sync_id_of(t)
                && w == timeout_ms)
        }),
        r matches Ok(RecvAction::Deliver(m)) ==> (sender matches Some(s) ==> m.sender == s),
{
    let tid = match current_tid {
        None => {
            return Err(IpcError::NotInitialized);
        },
        Some(t) => t,
    };
    if state.queues.is_none() {
        return Err(IpcError::NotInitialized);
    }
    let c = create_queue(state, tid);
    assert(c is Ok || c == Err::<(), IpcError>(IpcError::QueueExists));
    let ghost mid = *state;
    match take_from(state, tid, sender) {
        Some(m) => Ok(RecvAction::Deliver(m)),
        None => Ok(RecvAction::Wait { channel: get_sync_id(tid), timeout_ms }),
    }
}

/// The result of taking the oldest message that `sender` accepts from queue `q`:
/// delivered with the queue left without it, or (when none matches) a wait with the
/// queue unchanged.
pub open spec fn took_first_match(q: Seq<Message>, sender: Option<Tid>, after: Option<Seq<Message>>, r: Result<RecvAction, IpcError>) -> bool {
    match r {
        Ok(RecvAction::Deliver(m)) => exists|i: int| {
            &&& 0 <= i < q.len()
            &&& q[i] == m
            &&& #[trigger] accepts(sender, q[i])
            &&& forall|j: int| 0 <= j < i ==> !accepts(sender, #[trigger] q[j])
            &&& after == Some(q.remove(i))
        },
        Ok(RecvAction::Wait { .. }) => {
            &&& forall|j: int| 0 <= j < q.len() ==> !accepts(sender, #[trigger] q[j])
            &&& after == Some(q)
        },
        Err(_) => false,
    }
}

/// Takes the oldest message that `sender` accepts from thread `tid`'s queue.
fn take_from(state: &mut IpcState, tid: Tid, sender: Option<Tid>) -> (r: Option<Message>)
    requires
        old(state).wf(),
        old(state).initialized(),
    ensures
        final(state).wf(),
        final(state).initialized(),
        final(state).services() == old(state).services(),
        forall|u: Tid| u != tid ==> #[trigger] final(state).queue_of(u) == old(state).queue_of(u),
        old(state).queue_of(tid) is None ==> r is None && final(state).queue_of(tid) is None,
        old(state).queue_of(tid) matches Some(q) ==> match r {
            Some(m) => exists|i: int| {
                &&& 0 <= i < q.len()
                &&& q[i] == m
                &&& #[trigger] accepts(sender, q[i])
                &&& forall|j: int| 0 <= j < i ==> !accepts(sender, #[trigger] q[j])
                &&& final(state).queue_of(tid) == Some(q.remove(i))
            },
            None => {
                &&& forall|j: int| 0 <= j < q.len() ==> !accepts(sender, #[trigger] q[j])
                &&& final(state).queue_of(tid) == Some(q)
            },
        },
{
    let mut queues = state.queues.take().unwrap();
    let ghost before = queues@;
    let idx = tid as usize;
    if idx >= queues.len() || queues[idx].is_none() {
        state.queues = Some(queues);
        return None;
    }
    let mut q = queues[idx].take().unwrap();
    let ghost qv = q@;
    assert(old(state).queue_of(tid) == Some(qv));
    let r = q.take_matching(sender);
    queues[idx] = Some(q);
    state.queues = Some(queues);
    proof {
        let v = state.queues->0;
        assert(state.queue_of(tid) == Some(q@));
        if r is Some {
            let m = r->0;
            let i = choose|i: int| {
                &&& 0 <= i < qv.len()
                &&& qv[i] == m
                &&& #[trigger] accepts(sender, qv[i])
                &&& forall|j: int| 0 <= j < i ==> !accepts(sender, #[trigger] qv[j])
                &&& q@ == qv.remove(i)
            };
            assert(accepts(sender, qv[i]));
            assert(0 <= i < qv.len());
            assert(qv[i] == m);
            assert(forall|j: int| 0 <= j < i ==> !accepts(sender, #[trigger] qv[j]));
            assert(state.queue_of(tid) == Some(qv.remove(i)));
            assert(old(state).queue_of(tid)->0 == qv);
            assert(exists|i: int| {
                &&& 0 <= i < qv.len()
                &&& qv[i] == m
                &&& #[trigger] accepts(sender, qv[i])
                &&& forall|j: int| 0 <= j < i ==> !accepts(sender, #[trigger] qv[j])
                &&& state.queue_of(tid) == Some(qv.remove(i))
            });
        } else {
            assert(forall|j: int| 0 <= j < qv.len() ==> !accepts(sender, #[trigger] qv[j]));
            assert(state.queue_of(tid) == Some(qv));
        }
        assert forall|t: Tid| t != tid implies #[trigger] state.queue_of(t) == old(state).queue_of(t) by {
            if t < before.len() {
                assert(v@[t as int] == before[t as int]);
            }
        }
        assert forall|i: int| 0 <= i < v@.len() implies (#[trigger] v@[i] matches Some(q) ==> q.owner() == i) by {
            if i != idx {
                assert(v@[i] == before[i]);
            }
        }
    }
    r
}

/// After the wait: takes the oldest matching message, or `Timeout` when there is none
/// (or the queue is gone).
pub fn recv_after_wait(state: &mut IpcState, current_tid: Tid, sender: Option<Tid>) -> (r: Result<Message, IpcError>)
    requires
        old(state).wf(),
    ensures
        final(state).wf(),
        final(state).services() == old(state).services(),
        !old(state).initialized() ==> r matches Err(IpcError::NotInitialized),
        old(state).initialized() && old(state).queue_of(current_tid) is None ==> r matches Err(IpcError::Timeout),
        old(state).initialized() ==> (old(state).queue_of(current_tid) matches Some(q) ==> took_message(
            q, sender, final(state).queue_of(current_tid), r, IpcError::Timeout)),
        forall|u: Tid| u != current_tid ==> #[trigger] final(state).queue_of(u) == old(state).queue_of(u),
        r matches Ok(m) ==> (sender matches Some(s) ==> m.sender == s),
{
    if state.queues.is_none() {
        return Err(IpcError::NotInitialized);
    }
    match take_from(state, current_tid, sender) {
        Some(m) => Ok(m),
        None => Err(IpcError::Timeout),
    }
}

/// Whether a wait that began at `start_ms` (milliseconds since boot) is over
/// at `now_ms`: only a wait with a timeout ends, once that many milliseconds
/// have passed.
pub fn wait_expired(start_ms: u64, now_ms: u64, timeout_ms: Option<u64>) -> (done: bool)
    ensures
        done == (timeout_ms matches Some(d) && now_ms >= start_ms && now_ms - start_ms >= d),
{
    match timeout_ms {
        None => false,
        Some(d) => now_ms >= start_ms && now_ms - start_ms >= d,
    }
}

/// Taking the oldest message that `sender` accepts from `q`: the message with the
/// queue left without it, or `none` with the queue unchanged.
pub open spec fn took_message(q: Seq<Message>, sender: Option<Tid>, after: Option<Seq<Message>>, r: Result<Message, IpcError>, none: IpcError) -> bool {
    match r {
        Ok(m) => exists|i: int| {
            &&& 0 <= i < q.len()
            &&& q[i] == m
            &&& #[trigger] accepts(sender, q[i])
            &&& forall|j: int| 0 <= j < i ==> !accepts(sender, #[trigger] q[j])
            &&& after == Some(q.remove(i))
        },
        Err(e) => {
            &&& e == none
            &&& forall|j: int| 0 <= j < q.len() ==> !accepts(sender, #[trigger] q[j])
            &&& after == Some(q)
        },
    }
}

/// Receives without waiting: `NoQueue` when the caller has no queue, `WouldBlock`
/// when no message matches.
pub fn try_recv(state: &mut IpcState, current_tid: Option<Tid>, sender: Option<Tid>) -> (r: Result<Message, IpcError>)
    requires
        old(state).wf(),
    ensures
        final(state).wf(),
        final(state).services() == old(state).services(),
        current_tid is None || !old(state).initialized() ==> r matches Err(IpcError::NotInitialized),
        current_tid matches Some(t) ==> (old(state).initialized() ==> {
            &&& forall|u: Tid| u != t ==> #[trigger] final(state).queue_of(u) == old(state).queue_of(u)
            &&& match old(state).queue_of(t) {
                None => r matches Err(IpcError::NoQueue),
                Some(q) => took_message(q, sender, final(state).queue_of(t), r, IpcError::WouldBlock),
            }
        }),
        r matches Ok(m) ==> (sender matches Some(s) ==> m.sender == s),
{
    let tid = match current_tid {
        None => {
            return Err(IpcError::NotInitialized);
        },
        Some(t) => t,
    };
    if state.queues.is_none() {
        return Err(IpcError::NotInitialized);
    }
    let idx = tid as usize;
    let has_queue = match &state.queues {
        Some(v) => idx < v.len() && v[idx].is_some(),
        None => false,
    };
    if !has_queue {
        return Err(IpcError::NoQueue);
    }
    match take_from(state, tid, sender) {
        Some(m) => Ok(m),
        None => Err(IpcError::WouldBlock),
    }
}

/// A receive that asks for sender `s` takes only a message from `s`: the
/// oldest one from `s`, removed from the queue. When no message from `s` is
/// queued it takes nothing and fails, leaving the queue as it was.
pub proof fn lemma_receive_from_sender(
    q: Seq<Message>,
    s: Tid,
    after: Option<Seq<Message>>,
    r: Result<Message, IpcError>,
    none: IpcError,
)
    requires
        took_message(q, Some(s), after, r, none),
    ensures
        r matches Ok(m) ==> m.sender == s && exists|i: int|
            0 <= i < q.len() && #[trigger] q[i] == m && (forall|j: int| 0 <= j < i ==> q[j].sender != s)
                && after == Some(q.remove(i)),
        r is Err <==> (forall|j: int| 0 <= j < q.len() ==> (#[trigger] q[j]).sender != s),
        r is Err ==> r == Err::<Message, IpcError>(none) && after == Some(q),
{
    if r is Ok {
        let m = r->Ok_0;
        let i = choose|i: int| {
            &&& 0 <= i < q.len()
            &&& q[i] == m
            &&& #[trigger] accepts(Some(s), q[i])
            &&& forall|j: int| 0 <= j < i ==> !accepts(Some(s), #[trigger] q[j])
            &&& after == Some(q.remove(i))
        };
        assert(q[i].sender == s);
        assert forall|j: int| 0 <= j < i implies q[j].sender != s by {
            assert(!accepts(Some(s), q[j]));
        }
        assert(!(forall|j: int| 0 <= j < q.len() ==> (#[trigger] q[j]).sender != s)) by {
            assert(q[i].sender == s);
        }
    } else {
        assert forall|j: int| 0 <= j < q.len() implies (#[trigger] q[j]).sender != s by {
            assert(!accepts(Some(s), q[j]));
        }
    }
}

/// A receive that asks for no sender in particular takes the oldest message;
/// it fails only on an empty queue.
pub proof fn lemma_receive_oldest(
    q: Seq<Message>,
    after: Option<Seq<Message>>,
    r: Result<Message, IpcError>,
    none: IpcError,
)
    requires
        took_message(q, None, after, r, none),
    ensures
        q.len() > 0 ==> r == Ok::<Message, IpcError>(q[0]) && after == Some(q.drop_first()),
        q.len() == 0 ==> r == Err::<Message, IpcError>(none) && after == Some(q),
{
    if r is Ok {
        let m = r->Ok_0;
        let i = choose|i: int| {
            &&& 0 <= i < q.len()
            &&& q[i] == m
            &&& #[trigger] accepts(None, q[i])
            &&& forall|j: int| 0 <= j < i ==> !accepts(None, #[trigger] q[j])
            &&& after == Some(q.remove(i))
        };
        if i > 0 {
            assert(!accepts(None, q[0]));
        }
        assert(q.remove(0) =~= q.drop_first());
    } else if q.len() > 0 {
        assert(!accepts(None, q[0]));
    }
}

/// Messages leave a queue in the order they arrived.
pub proof fn lemma_queue_fifo(q: Seq<Message>, m: Message)
    requires
        q.len() < MAX_QUEUE_SIZE,
    ensures
        q.push(m).len() > 0,
        q.len() == 0 ==> q.push(m)[0] == m,
        q.len() > 0 ==> q.push(m)[0] == q[0] && q.push(m).drop_first() == q.drop_first().push(m),
{
    if q.len() > 0 {
        assert(q.push(m).drop_first() =~= q.drop_first().push(m));
    }
}

} // verus!
