//! Protocol-level handling for MIL-STD-1553B: the Bus Controller's registry
//! of Remote Terminals, per-device state and counters, responsiveness based
//! on wall-clock staleness, and field validators.
//!
//! Wall-clock readings are opaque: the verified logic takes each reading as
//! an argument (`*_at` functions carry the exact contracts), and the
//! convenience entry points sample the clock and promise what holds of every
//! reading.

use vstd::prelude::*;
use crate::error::ParseError;
use crate::word::{Address, Bus};

verus! {

/// Relies on std::time::SystemTime::now: the moment of the call, as
/// microseconds since the Unix epoch (0 if the clock reads earlier than the
/// epoch).  Nothing can be promised of a wall-clock reading, so this has no
/// contract; verified callers state what holds of every value.
#[verifier::external_body]
fn now_micros() -> u64 {
    match std::time::SystemTime::now().duration_since(std::time::UNIX_EPOCH) {
        Ok(d) => d.as_micros() as u64,
        Err(_) => 0,
    }
}

/// State of a Remote Terminal device
#[derive(Debug, Clone, Copy, PartialEq, Eq, Structural)]
pub enum RTState {
    /// Device is idle
    Idle,
    /// Device is busy processing
    Busy,
    /// Device reported an error
    Error,
    /// Device is not responding
    NoResponse,
}

/// Information about a Remote Terminal
#[derive(Debug, Clone, Copy)]
pub struct RemoteTerminal {
    /// Address of the RT
    pub address: Address,
    /// Current state
    pub state: RTState,
    /// Last communication time (microseconds since the epoch)
    pub last_seen: Option<u64>,
    /// Number of errors detected
    pub error_count: u32,
    /// Number of successful transactions
    pub success_count: u32,
}

impl RemoteTerminal {
    /// The responsiveness rule: the device was seen, and less than
    /// `timeout_us` passed between that moment and `now_us` (a clock that
    /// ran backwards counts as just seen).
    pub open spec fn responding_at(self, timeout_us: u64, now_us: u64) -> bool {
        match self.last_seen {
            Some(t) => (if now_us >= t {
                now_us - t
            } else {
                0int
            }) < timeout_us,
            None => false,
        }
    }

    /// Create a new Remote Terminal info
    pub fn new(address: Address) -> (r: RemoteTerminal)
        ensures
            r == (RemoteTerminal {
                address,
                state: RTState::Idle,
                last_seen: None::<u64>,
                error_count: 0u32,
                success_count: 0u32,
            }),
    {
        RemoteTerminal {
            address,
            state: RTState::Idle,
            last_seen: None,
            error_count: 0,
            success_count: 0,
        }
    }

    /// Record a successful transaction seen at `now_us`
    pub fn record_success_at(&mut self, now_us: u64)
        requires
            old(self).success_count < u32::MAX,
        ensures
            final(self).success_count == old(self).success_count + 1,
            final(self).state is Idle,
            final(self).last_seen == Some(now_us),
            final(self).error_count == old(self).error_count,
            final(self).address == old(self).address,
    {
        self.success_count = self.success_count + 1;
        self.state = RTState::Idle;
        self.last_seen = Some(now_us);
    }

    /// Record a successful transaction at the current time
    pub fn record_success(&mut self)
        requires
            old(self).success_count < u32::MAX,
        ensures
            final(self).success_count == old(self).success_count + 1,
            final(self).state is Idle,
            final(self).last_seen is Some,
            final(self).error_count == old(self).error_count,
            final(self).address == old(self).address,
    {
        let now = now_micros();
        self.record_success_at(now);
    }

    /// Record a failed transaction seen at `now_us`
    pub fn record_error_at(&mut self, now_us: u64)
        requires
            old(self).error_count < u32::MAX,
        ensures
            final(self).error_count == old(self).error_count + 1,
            final(self).state is Error,
            final(self).last_seen == Some(now_us),
            final(self).success_count == old(self).success_count,
            final(self).address == old(self).address,
    {
        self.error_count = self.error_count + 1;
        self.state = RTState::Error;
        self.last_seen = Some(now_us);
    }

    /// Record a failed transaction at the current time
    pub fn record_error(&mut self)
        requires
            old(self).error_count < u32::MAX,
        ensures
            final(self).error_count == old(self).error_count + 1,
            final(self).state is Error,
            final(self).last_seen is Some,
            final(self).success_count == old(self).success_count,
            final(self).address == old(self).address,
    {
        let now = now_micros();
        self.record_error_at(now);
    }

    /// Check whether the device was seen within `timeout_us` of `now_us`
    pub fn is_responding_at(&self, timeout_us: u64, now_us: u64) -> (r: bool)
        ensures
            r == self.responding_at(timeout_us, now_us),
    {
        match self.last_seen {
            Some(t) => {
                let elapsed = if now_us >= t {
                    now_us - t
                } else {
                    0
                };
                elapsed < timeout_us
            },
            None => false,
        }
    }

    /// Check if device is responding (seen within timeout of the current
    /// time)
    pub fn is_responding(&self, timeout_us: u64) -> (r: bool)
        ensures
            self.last_seen is None ==> r == false,
            r ==> self.last_seen is Some,
    {
        let now = now_micros();
        self.is_responding_at(timeout_us, now)
    }
}

/// The responsiveness rule, stated over the model: a device never responds
/// before anything was recorded; one seen exactly at `now_us` responds
/// exactly for positive timeouts; one seen earlier responds while the
/// elapsed time stays under the timeout, and no longer once it reaches it.
pub proof fn lemma_responding_window(rt: RemoteTerminal, timeout_us: u64, now_us: u64)
    ensures
        rt.last_seen is None ==> !rt.responding_at(timeout_us, now_us),
        rt.last_seen == Some(now_us) ==> (rt.responding_at(timeout_us, now_us) <==> timeout_us
            > 0),
        (rt.last_seen matches Some(t) && t <= now_us && now_us - t < timeout_us)
            ==> rt.responding_at(timeout_us, now_us),
        (rt.last_seen matches Some(t) && t <= now_us && now_us - t >= timeout_us)
            ==> !rt.responding_at(timeout_us, now_us),
{
}

/// The records of `s` seen within `timeout_us` of `now_us`, in order.
pub open spec fn responding_filter(s: Seq<RemoteTerminal>, timeout_us: u64, now_us: u64) -> Seq<
    RemoteTerminal,
>
    decreases s.len(),
{
    if s.len() == 0 {
        Seq::empty()
    } else {
        let rest = responding_filter(s.drop_last(), timeout_us, now_us);
        if s.last().responding_at(timeout_us, now_us) {
            rest.push(s.last())
        } else {
            rest
        }
    }
}

/// Bus Controller state and management
#[derive(Debug)]
pub struct BusController {
    /// Bus identifier
    pub bus: Bus,
    /// Remote terminals on this bus, keyed by address
    remote_terminals: Vec<RemoteTerminal>,
    /// Expected response timeout in microseconds
    pub response_timeout_us: u64,
}

/// A freshly registered record for address `addr`.
pub open spec fn is_fresh_rt(rt: RemoteTerminal, addr: int) -> bool {
    rt.address@ == addr && rt.state is Idle && rt.last_seen is None && rt.error_count == 0
        && rt.success_count == 0
}

/// Length of the run of valid RT addresses (below 30) starting at `from`:
/// batch registration processes exactly this prefix before it stops.
pub open spec fn valid_rt_prefix_len(addresses: Seq<u8>, from: int) -> int
    decreases addresses.len() - from,
{
    if from < 0 || from >= addresses.len() {
        0
    } else if addresses[from] >= 30 {
        0
    } else {
        1 + valid_rt_prefix_len(addresses, from + 1)
    }
}

proof fn lemma_valid_rt_prefix_len_char(addresses: Seq<u8>, from: int, k: int)
    requires
        0 <= from,
        0 <= k,
        from + k <= addresses.len(),
        forall|t: int| from <= t < from + k ==> #[trigger] addresses[t] < 30,
        from + k == addresses.len() || addresses[from + k] >= 30,
    ensures
        valid_rt_prefix_len(addresses, from) == k,
    decreases k,
{
    if k > 0 {
        lemma_valid_rt_prefix_len_char(addresses, from + 1, k - 1);
    }
}

impl BusController {
    /// The registry's records, in registration order.
    pub closed spec fn rts_seq(self) -> Seq<RemoteTerminal> {
        self.remote_terminals@
    }

    /// The configured bus, as seen by specifications.
    pub closed spec fn spec_bus(self) -> Bus {
        self.bus
    }

    /// The configured response timeout, as seen by specifications.
    pub closed spec fn spec_timeout_us(self) -> u64 {
        self.response_timeout_us
    }

    /// Registry invariant: one record per address, every address a valid RT.
    pub open spec fn wf(self) -> bool {
        &&& forall|i: int, j: int|
            0 <= i < j < self.rts_seq().len() ==> (#[trigger] self.rts_seq()[i]).address@ != (
            #[trigger] self.rts_seq()[j]).address@
        &&& forall|i: int|
            0 <= i < self.rts_seq().len() ==> (#[trigger] self.rts_seq()[i]).address@ < 30
    }

    /// Some record is registered at `addr`.
    pub open spec fn has_rt(self, addr: int) -> bool {
        exists|i: int|
            0 <= i < self.rts_seq().len() && (#[trigger] self.rts_seq()[i]).address@ == addr
    }

    /// Index of the record registered at `addr`.
    pub open spec fn rt_index(self, addr: int) -> int {
        choose|i: int|
            0 <= i < self.rts_seq().len() && (#[trigger] self.rts_seq()[i]).address@ == addr
    }

    /// The record registered at `addr`.
    pub open spec fn rt_at(self, addr: int) -> RemoteTerminal {
        self.rts_seq()[self.rt_index(addr)]
    }

    /// Create a new Bus Controller for a bus
    pub fn new(bus: Bus) -> (r: BusController)
        ensures
            r.spec_bus() == bus,
            r.spec_timeout_us() == 12,
            r.rts_seq().len() == 0,
            r.wf(),
    {
        BusController {
            bus,
            remote_terminals: Vec::new(),
            response_timeout_us: 12,  // typical 12 microseconds
        }
    }

    /// Find the registry index holding `address`.
    fn find_rt_index(&self, address: Address) -> (r: Option<usize>)
        ensures
            r is Some <==> self.has_rt(address@ as int),
            r matches Some(i) ==> 0 <= i < self.rts_seq().len() && self.rts_seq()[
                i as int
            ].address@ == address@,
    {
        let n = self.remote_terminals.len();
        let mut i: usize = 0;
        while i < n
            invariant
                n == self.rts_seq().len(),
                i <= n,
                forall|t: int| 0 <= t < i ==> (#[trigger] self.rts_seq()[t]).address@ != address@,
            decreases n - i,
        {
            if self.remote_terminals[i].address.value() == address.value() {
                return Some(i);
            }
            i = i + 1;
        }
        None
    }

    /// Register a Remote Terminal
    pub fn register_rt(&mut self, address: Address) -> (r: Result<(), ParseError>)
        requires
            old(self).wf(),
        ensures
            final(self).wf(),
            final(self).spec_bus() == old(self).spec_bus(),
            final(self).spec_timeout_us() == old(self).spec_timeout_us(),
            address@ >= 30 ==> ((r matches Err(e) && e is InvalidAddress) && *final(self) == *old(
                self,
            )),
            address@ < 30 ==> r is Ok && final(self).has_rt(address@ as int) && is_fresh_rt(
                final(self).rt_at(address@ as int),
                address@ as int,
            ) && (forall|a: int|
                a != address@ ==> (final(self).has_rt(a) <==> old(self).has_rt(a))) && (forall|
                a: int,
            |
                a != address@ && old(self).has_rt(a) ==> final(self).rt_at(a) == old(self).rt_at(
                    a,
                )) && final(self).rts_seq().len() == old(self).rts_seq().len() + (if old(
                self,
            ).has_rt(address@ as int) {
                0int
            } else {
                1int
            }),
    {
        if !address.is_remote_terminal() {
            return Err(ParseError::invalid_address("address must be a valid RT (0-29)"));
        }
        let fresh = RemoteTerminal::new(address);
        match self.find_rt_index(address) {
            Some(i) => {
                let slot = &mut self.remote_terminals[i];
                *slot = fresh;
                proof {
                    lemma_registry_update(*old(self), *self, i as int, fresh);
                    lemma_rt_at_is(*self, address@ as int, i as int);
                }
                Ok(())
            },
            None => {
                self.remote_terminals.push(fresh);
                proof {
                    lemma_registry_push(*old(self), *self, fresh);
                }
                Ok(())
            },
        }
    }

    /// Register multiple Remote Terminals; stops at the first invalid
    /// address, keeping what was registered before it.
    pub fn register_rts(&mut self, addresses: &[u8]) -> (r: Result<(), ParseError>)
        requires
            old(self).wf(),
        ensures
            final(self).wf(),
            final(self).spec_bus() == old(self).spec_bus(),
            final(self).spec_timeout_us() == old(self).spec_timeout_us(),
            r is Ok <==> (forall|k: int| 0 <= k < addresses@.len() ==> addresses@[k] < 30),
            r matches Err(e) ==> ({
                let k = valid_rt_prefix_len(addresses@, 0);
                &&& e is InvalidAddress
                &&& 0 <= k < addresses@.len() && addresses@[k] >= 30
                &&& (forall|a: int|
                    final(self).has_rt(a) <==> (old(self).has_rt(a) || exists|j: int|
                        0 <= j < k && addresses@[j] == a))
                &&& (forall|j: int|
                    0 <= j < k ==> is_fresh_rt(
                        final(self).rt_at(addresses@[j] as int),
                        addresses@[j] as int,
                    ))
                &&& (forall|a: int|
                    old(self).has_rt(a) && !(exists|j: int| 0 <= j < k && addresses@[j] == a)
                        ==> final(self).rt_at(a) == old(self).rt_at(a))
            }),
            r is Ok ==> (forall|a: int|
                final(self).has_rt(a) <==> (old(self).has_rt(a) || exists|k: int|
                    0 <= k < addresses@.len() && addresses@[k] == a)) && (forall|k: int|
                0 <= k < addresses@.len() ==> is_fresh_rt(
                    final(self).rt_at(addresses@[k] as int),
                    addresses@[k] as int,
                )) && (forall|a: int|
                old(self).has_rt(a) && !(exists|k: int|
                    0 <= k < addresses@.len() && addresses@[k] == a) ==> final(self).rt_at(a)
                    == old(self).rt_at(a)),
    {
        let mut idx: usize = 0;
        while idx < addresses.len()
            invariant
                self.wf(),
                self.spec_bus() == old(self).spec_bus(),
                self.spec_timeout_us() == old(self).spec_timeout_us(),
                idx <= addresses@.len(),
                forall|k: int| 0 <= k < idx ==> addresses@[k] < 30,
                forall|a: int|
                    self.has_rt(a) <==> (old(self).has_rt(a) || exists|k: int|
                        0 <= k < idx && addresses@[k] == a),
                forall|k: int|
                    0 <= k < idx ==> is_fresh_rt(
                        self.rt_at(addresses@[k] as int),
                        addresses@[k] as int,
                    ),
                forall|a: int|
                    old(self).has_rt(a) && !(exists|k: int| 0 <= k < idx && addresses@[k] == a)
                        ==> self.rt_at(a) == old(self).rt_at(a),
            decreases addresses@.len() - idx,
        {
            let addr = addresses[idx];
            let address = match Address::new(addr) {
                Ok(a) => a,
                Err(e) => {
                    proof {
                        lemma_valid_rt_prefix_len_char(addresses@, 0, idx as int);
                    }
                    return Err(e);
                },
            };
            let ghost pre = *self;
            match self.register_rt(address) {
                Ok(()) => {},
                Err(e) => {
                    proof {
                        lemma_valid_rt_prefix_len_char(addresses@, 0, idx as int);
                    }
                    return Err(e);
                },
            }
            proof {
                assert forall|k: int|
                    0 <= k < idx + 1 implies is_fresh_rt(
                    self.rt_at(addresses@[k] as int),
                    addresses@[k] as int,
                ) by {
                    if k < idx && addresses@[k] != addr {
                        assert(pre.has_rt(addresses@[k] as int));
                    }
                }
            }
            idx = idx + 1;
        }
        Ok(())
    }

    /// Get Remote Terminal info
    pub fn get_rt(&self, address: Address) -> (r: Option<&RemoteTerminal>)
        requires
            self.wf(),
        ensures
            r is Some <==> self.has_rt(address@ as int),
            r matches Some(rt) ==> *rt == self.rt_at(address@ as int),
    {
        match self.find_rt_index(address) {
            Some(i) => {
                proof {
                    lemma_rt_at_is(*self, address@ as int, i as int);
                }
                Some(&self.remote_terminals[i])
            },
            None => None,
        }
    }

    /// Get mutable Remote Terminal info.  The caller may change the record
    /// through the reference; the registry invariant survives as long as
    /// the record's address is left alone.
    pub fn get_rt_mut(&mut self, address: Address) -> (r: Option<&mut RemoteTerminal>)
        requires
            old(self).wf(),
        ensures
            r is Some <==> old(self).has_rt(address@ as int),
            r is None ==> *final(self) == *old(self),
            r matches Some(rt) ==> *rt == old(self).rt_at(address@ as int)
                && final(self).rts_seq() == old(self).rts_seq().update(
                old(self).rt_index(address@ as int),
                *final(rt),
            ) && final(self).spec_bus() == old(self).spec_bus() && final(self).spec_timeout_us()
                == old(self).spec_timeout_us(),
    {
        match self.find_rt_index(address) {
            Some(i) => {
                proof {
                    lemma_rt_at_is(*old(self), address@ as int, i as int);
                }
                Some(&mut self.remote_terminals[i])
            },
            None => None,
        }
    }

    /// List all registered Remote Terminals, in registration order
    pub fn list_rts(&self) -> (r: Vec<RemoteTerminal>)
        ensures
            r@ == self.rts_seq(),
    {
        let mut out: Vec<RemoteTerminal> = Vec::new();
        let mut i: usize = 0;
        let n = self.remote_terminals.len();
        while i < n
            invariant
                n == self.rts_seq().len(),
                i <= n,
                out@ == self.rts_seq().take(i as int),
            decreases n - i,
        {
            out.push(self.remote_terminals[i]);
            proof {
                assert(out@ =~= self.rts_seq().take(i + 1));
            }
            i = i + 1;
        }
        proof {
            assert(out@ =~= self.rts_seq());
        }
        out
    }

    /// The Remote Terminals seen within the configured timeout of `now_us`
    pub fn responding_rts_at(&self, now_us: u64) -> (r: Vec<RemoteTerminal>)
        ensures
            r@ == responding_filter(self.rts_seq(), self.spec_timeout_us(), now_us),
    {
        let mut out: Vec<RemoteTerminal> = Vec::new();
        let mut i: usize = 0;
        let n = self.remote_terminals.len();
        while i < n
            invariant
                n == self.rts_seq().len(),
                i <= n,
                out@ == responding_filter(
                    self.rts_seq().take(i as int),
                    self.spec_timeout_us(),
                    now_us,
                ),
            decreases n - i,
        {
            let rt = self.remote_terminals[i];
            proof {
                assert(self.rts_seq().take(i + 1).drop_last() =~= self.rts_seq().take(i as int));
                assert(self.rts_seq().take(i + 1).last() == self.rts_seq()[i as int]);
            }
            if rt.is_responding_at(self.response_timeout_us, now_us) {
                out.push(rt);
            }
            i = i + 1;
        }
        proof {
            assert(self.rts_seq().take(n as int) =~= self.rts_seq());
        }
        out
    }

    /// Get all responding Remote Terminals, judged against one clock reading
    pub fn get_responding_rts(&self) -> (r: Vec<RemoteTerminal>)
        ensures
            exists|now_us: u64|
                r@ == responding_filter(self.rts_seq(), self.spec_timeout_us(), now_us),
    {
        let now = now_micros();
        let r = self.responding_rts_at(now);
        proof {
            assert(r@ == responding_filter(self.rts_seq(), self.spec_timeout_us(), now));
        }
        r
    }

    /// Get total number of RTs
    pub fn rt_count(&self) -> (r: usize)
        ensures
            r == self.rts_seq().len(),
    {
        self.remote_terminals.len()
    }

    /// Record a successful transaction with an RT, seen at `now_us`
    pub fn record_rt_success_at(&mut self, address: Address, now_us: u64) -> (r: Result<
        (),
        ParseError,
    >)
        requires
            old(self).wf(),
            old(self).has_rt(address@ as int) ==> old(self).rt_at(
                address@ as int,
            ).success_count < u32::MAX,
        ensures
            final(self).wf(),
            final(self).spec_bus() == old(self).spec_bus(),
            final(self).spec_timeout_us() == old(self).spec_timeout_us(),
            r is Ok <==> old(self).has_rt(address@ as int),
            r matches Err(e) ==> e is InvalidAddress && *final(self) == *old(self),
            r is Ok ==> ({
                let a = address@ as int;
                let o = old(self).rt_at(a);
                let n = final(self).rt_at(a);
                &&& final(self).has_rt(a)
                &&& n.success_count == o.success_count + 1
                &&& n.error_count == o.error_count
                &&& n.state is Idle
                &&& n.last_seen == Some(now_us)
                &&& n.address == o.address
                &&& forall|b: int| b != a ==> (final(self).has_rt(b) <==> old(self).has_rt(b))
                &&& forall|b: int|
                    b != a && old(self).has_rt(b) ==> final(self).rt_at(b) == old(self).rt_at(b)
            }),
    {
        match self.find_rt_index(address) {
            Some(i) => {
                proof {
                    lemma_rt_at_is(*self, address@ as int, i as int);
                }
                let slot = &mut self.remote_terminals[i];
                slot.record_success_at(now_us);
                proof {
                    lemma_registry_update(*old(self), *self, i as int, self.rts_seq()[i as int]);
                    lemma_rt_at_is(*self, address@ as int, i as int);
                }
                Ok(())
            },
            None => Err(ParseError::invalid_address("RT not registered")),
        }
    }

    /// Record a successful transaction with an RT at the current time
    pub fn record_rt_success(&mut self, address: Address) -> (r: Result<(), ParseError>)
        requires
            old(self).wf(),
            old(self).has_rt(address@ as int) ==> old(self).rt_at(
                address@ as int,
            ).success_count < u32::MAX,
        ensures
            final(self).wf(),
            final(self).spec_bus() == old(self).spec_bus(),
            final(self).spec_timeout_us() == old(self).spec_timeout_us(),
            r is Ok <==> old(self).has_rt(address@ as int),
            r matches Err(e) ==> e is InvalidAddress && *final(self) == *old(self),
            r is Ok ==> ({
                let a = address@ as int;
                let o = old(self).rt_at(a);
                let n = final(self).rt_at(a);
                &&& final(self).has_rt(a)
                &&& n.success_count == o.success_count + 1
                &&& n.error_count == o.error_count
                &&& n.state is Idle
                &&& n.last_seen is Some
                &&& n.address == o.address
                &&& forall|b: int| b != a ==> (final(self).has_rt(b) <==> old(self).has_rt(b))
                &&& forall|b: int|
                    b != a && old(self).has_rt(b) ==> final(self).rt_at(b) == old(self).rt_at(b)
            }),
    {
        let now = now_micros();
        self.record_rt_success_at(address, now)
    }

    /// Record a failed transaction with an RT, seen at `now_us`
    pub fn record_rt_error_at(&mut self, address: Address, now_us: u64) -> (r: Result<
        (),
        ParseError,
    >)
        requires
            old(self).wf(),
            old(self).has_rt(address@ as int) ==> old(self).rt_at(address@ as int).error_count
                < u32::MAX,
        ensures
            final(self).wf(),
            final(self).spec_bus() == old(self).spec_bus(),
            final(self).spec_timeout_us() == old(self).spec_timeout_us(),
            r is Ok <==> old(self).has_rt(address@ as int),
            r matches Err(e) ==> e is InvalidAddress && *final(self) == *old(self),
            r is Ok ==> ({
                let a = address@ as int;
                let o = old(self).rt_at(a);
                let n = final(self).rt_at(a);
                &&& final(self).has_rt(a)
                &&& n.error_count == o.error_count + 1
                &&& n.success_count == o.success_count
                &&& n.state is Error
                &&& n.last_seen == Some(now_us)
                &&& n.address == o.address
                &&& forall|b: int| b != a ==> (final(self).has_rt(b) <==> old(self).has_rt(b))
                &&& forall|b: int|
                    b != a && old(self).has_rt(b) ==> final(self).rt_at(b) == old(self).rt_at(b)
            }),
    {
        match self.find_rt_index(address) {
            Some(i) => {
                proof {
                    lemma_rt_at_is(*self, address@ as int, i as int);
                }
                let slot = &mut self.remote_terminals[i];
                slot.record_error_at(now_us);
                proof {
                    lemma_registry_update(*old(self), *self, i as int, self.rts_seq()[i as int]);
                    lemma_rt_at_is(*self, address@ as int, i as int);
                }
                Ok(())
            },
            None => Err(ParseError::invalid_address("RT not registered")),
        }
    }

    /// Record a failed transaction with an RT at the current time
    pub fn record_rt_error(&mut self, address: Address) -> (r: Result<(), ParseError>)
        requires
            old(self).wf(),
            old(self).has_rt(address@ as int) ==> old(self).rt_at(address@ as int).error_count
                < u32::MAX,
        ensures
            final(self).wf(),
            final(self).spec_bus() == old(self).spec_bus(),
            final(self).spec_timeout_us() == old(self).spec_timeout_us(),
            r is Ok <==> old(self).has_rt(address@ as int),
            r matches Err(e) ==> e is InvalidAddress && *final(self) == *old(self),
            r is Ok ==> ({
                let a = address@ as int;
                let o = old(self).rt_at(a);
                let n = final(self).rt_at(a);
                &&& final(self).has_rt(a)
                &&& n.error_count == o.error_count + 1
                &&& n.success_count == o.success_count
                &&& n.state is Error
                &&& n.last_seen is Some
                &&& n.address == o.address
                &&& forall|b: int| b != a ==> (final(self).has_rt(b) <==> old(self).has_rt(b))
                &&& forall|b: int|
                    b != a && old(self).has_rt(b) ==> final(self).rt_at(b) == old(self).rt_at(b)
            }),
    {
        let now = now_micros();
        self.record_rt_error_at(address, now)
    }
}

/// Reaching any index holding `addr` pins down `rt_index` and `rt_at`:
/// under the registry invariant the index is unique.
proof fn lemma_rt_at_is(bc: BusController, addr: int, i: int)
    requires
        bc.wf(),
        0 <= i < bc.rts_seq().len(),
        bc.rts_seq()[i].address@ == addr,
    ensures
        bc.has_rt(addr),
        bc.rt_index(addr) == i,
        bc.rt_at(addr) == bc.rts_seq()[i],
{
    assert(bc.has_rt(addr));
    let j = bc.rt_index(addr);
    assert(0 <= j < bc.rts_seq().len() && bc.rts_seq()[j].address@ == addr);
    if i < j {
        assert(bc.rts_seq()[i].address@ != bc.rts_seq()[j].address@);
    } else if j < i {
        assert(bc.rts_seq()[j].address@ != bc.rts_seq()[i].address@);
    }
}

/// Replacing the record at index `i` with one for the same address keeps
/// the invariant, the registered set, and every other record.
proof fn lemma_registry_update(pre: BusController, post: BusController, i: int, v: RemoteTerminal)
    requires
        pre.wf(),
        0 <= i < pre.rts_seq().len(),
        post.rts_seq() == pre.rts_seq().update(i, v),
        v.address@ == pre.rts_seq()[i].address@,
    ensures
        post.wf(),
        forall|b: int| post.has_rt(b) <==> pre.has_rt(b),
        forall|b: int|
            b != pre.rts_seq()[i].address@ && pre.has_rt(b) ==> post.rt_at(b) == pre.rt_at(b),
{
    let osq = pre.rts_seq();
    let nsq = post.rts_seq();
    assert(forall|t: int| 0 <= t < nsq.len() ==> (#[trigger] nsq[t]).address@ == osq[t].address@);
    assert forall|p: int, q: int| 0 <= p < q < nsq.len() implies (#[trigger] nsq[p]).address@ != (
    #[trigger] nsq[q]).address@ by {
        assert(osq[p].address@ != osq[q].address@);
    }
    assert forall|b: int| post.has_rt(b) <==> pre.has_rt(b) by {
        if pre.has_rt(b) {
            let w = choose|w: int| 0 <= w < osq.len() && (#[trigger] osq[w]).address@ == b;
            assert(nsq[w].address@ == b);
        }
        if post.has_rt(b) {
            let w = choose|w: int| 0 <= w < nsq.len() && (#[trigger] nsq[w]).address@ == b;
            assert(osq[w].address@ == b);
        }
    }
    assert forall|b: int|
        b != pre.rts_seq()[i].address@ && pre.has_rt(b) implies post.rt_at(b) == pre.rt_at(
        b,
    ) by {
        let w = pre.rt_index(b);
        assert(0 <= w < osq.len() && osq[w].address@ == b);
        lemma_rt_at_is(pre, b, w);
        assert(w != i);
        lemma_rt_at_is(post, b, w);
    }
}

/// Appending a record for an unregistered valid address keeps the
/// invariant, registers exactly that address, and keeps every other record.
proof fn lemma_registry_push(pre: BusController, post: BusController, v: RemoteTerminal)
    requires
        pre.wf(),
        !pre.has_rt(v.address@ as int),
        v.address@ < 30,
        post.rts_seq() == pre.rts_seq().push(v),
    ensures
        post.wf(),
        post.has_rt(v.address@ as int),
        post.rt_at(v.address@ as int) == v,
        forall|b: int| b != v.address@ ==> (post.has_rt(b) <==> pre.has_rt(b)),
        forall|b: int| b != v.address@ && pre.has_rt(b) ==> post.rt_at(b) == pre.rt_at(b),
{
    let osq = pre.rts_seq();
    let nsq = post.rts_seq();
    let n = osq.len() as int;
    assert(forall|t: int| 0 <= t < n ==> (#[trigger] nsq[t]) == osq[t]);
    assert(nsq[n] == v);
    assert forall|t: int| 0 <= t < n implies (#[trigger] osq[t]).address@ != v.address@ by {
        if osq[t].address@ == v.address@ {
            assert(pre.has_rt(v.address@ as int));
        }
    }
    assert forall|p: int, q: int| 0 <= p < q < nsq.len() implies (#[trigger] nsq[p]).address@ != (
    #[trigger] nsq[q]).address@ by {
        if q < n {
            assert(osq[p].address@ != osq[q].address@);
        }
    }
    lemma_rt_at_is(post, v.address@ as int, n);
    assert forall|b: int| b != v.address@ implies (post.has_rt(b) <==> pre.has_rt(b)) by {
        if pre.has_rt(b) {
            let w = choose|w: int| 0 <= w < osq.len() && (#[trigger] osq[w]).address@ == b;
            assert(nsq[w].address@ == b);
        }
        if post.has_rt(b) {
            let w = choose|w: int| 0 <= w < nsq.len() && (#[trigger] nsq[w]).address@ == b;
            assert(w < n);
            assert(osq[w].address@ == b);
        }
    }
    assert forall|b: int| b != v.address@ && pre.has_rt(b) implies post.rt_at(b) == pre.rt_at(
        b,
    ) by {
        let w = pre.rt_index(b);
        assert(0 <= w < osq.len() && osq[w].address@ == b);
        lemma_rt_at_is(pre, b, w);
        lemma_rt_at_is(post, b, w);
    }
}

/// Statistics for a Remote Terminal
#[derive(Debug, Clone, Copy)]
pub struct RTStats {
    /// Address of the RT
    pub address: Address,
    /// Current state
    pub state: RTState,
    /// Number of successful transactions
    pub success_count: u32,
    /// Number of failed transactions
    pub error_count: u32,
    /// Whether the RT is currently responding
    pub is_responding: bool,
}

/// The statistics snapshots of a whole registry at one clock reading.
pub open spec fn stats_seq(s: Seq<RemoteTerminal>, timeout_us: u64, now_us: u64) -> Seq<RTStats> {
    s.map_values(|rt: RemoteTerminal| stats_of(rt, timeout_us, now_us))
}

/// The statistics snapshot derived from one record at one clock reading.
pub open spec fn stats_of(rt: RemoteTerminal, timeout_us: u64, now_us: u64) -> RTStats {
    RTStats {
        address: rt.address,
        state: rt.state,
        success_count: rt.success_count,
        error_count: rt.error_count,
        is_responding: rt.responding_at(timeout_us, now_us),
    }
}

impl RTStats {
    /// The error rate as an exact ratio: errors over total transactions,
    /// and 0/1 when nothing was recorded.
    pub fn error_rate_ratio(&self) -> (r: (u32, u64))
        ensures
            self.success_count == 0 && self.error_count == 0 ==> r == (0u32, 1u64),
            self.success_count as int + self.error_count as int > 0 ==> r.0 == self.error_count
                && r.1 as int == self.success_count as int + self.error_count as int,
    {
        let total = self.success_count as u64 + self.error_count as u64;
        if total == 0 {
            (0, 1)
        } else {
            (self.error_count, total)
        }
    }
}

impl BusController {
    /// Statistics for a Remote Terminal, judged against `now_us`
    pub fn get_rt_stats_at(&self, address: Address, now_us: u64) -> (r: Option<RTStats>)
        requires
            self.wf(),
        ensures
            r is Some <==> self.has_rt(address@ as int),
            r matches Some(st) ==> st == stats_of(
                self.rt_at(address@ as int),
                self.spec_timeout_us(),
                now_us,
            ),
    {
        match self.find_rt_index(address) {
            Some(i) => {
                proof {
                    lemma_rt_at_is(*self, address@ as int, i as int);
                }
                let rt = self.remote_terminals[i];
                Some(
                    RTStats {
                        address: rt.address,
                        state: rt.state,
                        success_count: rt.success_count,
                        error_count: rt.error_count,
                        is_responding: rt.is_responding_at(self.response_timeout_us, now_us),
                    },
                )
            },
            None => None,
        }
    }

    /// Get statistics for a Remote Terminal, judged against one clock
    /// reading
    pub fn get_rt_stats(&self, address: Address) -> (r: Option<RTStats>)
        requires
            self.wf(),
        ensures
            r is Some <==> self.has_rt(address@ as int),
            r matches Some(st) ==> exists|now_us: u64|
                st == stats_of(self.rt_at(address@ as int), self.spec_timeout_us(), now_us),
    {
        let now = now_micros();
        self.get_rt_stats_at(address, now)
    }

    /// Statistics for every Remote Terminal, judged against `now_us`
    pub fn get_all_stats_at(&self, now_us: u64) -> (r: Vec<RTStats>)
        ensures
            r@ == stats_seq(self.rts_seq(), self.spec_timeout_us(), now_us),
    {
        let mut out: Vec<RTStats> = Vec::new();
        let mut i: usize = 0;
        let n = self.remote_terminals.len();
        while i < n
            invariant
                n == self.rts_seq().len(),
                i <= n,
                out@.len() == i,
                forall|t: int|
                    0 <= t < i ==> out@[t] == stats_of(
                        #[trigger] self.rts_seq()[t],
                        self.spec_timeout_us(),
                        now_us,
                    ),
            decreases n - i,
        {
            let rt = self.remote_terminals[i];
            out.push(
                RTStats {
                    address: rt.address,
                    state: rt.state,
                    success_count: rt.success_count,
                    error_count: rt.error_count,
                    is_responding: rt.is_responding_at(self.response_timeout_us, now_us),
                },
            );
            i = i + 1;
        }
        proof {
            assert(out@ =~= stats_seq(self.rts_seq(), self.spec_timeout_us(), now_us));
        }
        out
    }

    /// Get statistics for all Remote Terminals, judged against one clock
    /// reading
    pub fn get_all_stats(&self) -> (r: Vec<RTStats>)
        ensures
            r@.len() == self.rts_seq().len(),
            exists|now_us: u64| r@ == stats_seq(self.rts_seq(), self.spec_timeout_us(), now_us),
    {
        let now = now_micros();
        let r = self.get_all_stats_at(now);
        r
    }
}

/// Message validator for protocol compliance
pub struct MessageValidator;

impl MessageValidator {
    /// Validate message addressing: all addresses 0-31 are valid in
    /// different contexts.
    pub fn validate_address(_address: Address) -> (r: Result<(), ParseError>)
        ensures
            r is Ok,
    {
        Ok(())
    }

    /// Validate word count
    pub fn validate_word_count(count: u16) -> (r: Result<(), ParseError>)
        ensures
            count <= 32 <==> r is Ok,
            r matches Err(e) ==> e is ValidationError,
    {
        if count > 32 {
            return Err(ParseError::validation_error("word count exceeds maximum of 32"));
        }
        Ok(())
    }

    /// Validate sub-address
    pub fn validate_sub_address(sub_addr: u8) -> (r: Result<(), ParseError>)
        ensures
            sub_addr <= 31 <==> r is Ok,
            r matches Err(e) ==> e is ValidationError,
    {
        if sub_addr > 31 {
            return Err(ParseError::validation_error("sub-address out of range [0, 31]"));
        }
        Ok(())
    }
}

} // verus!
