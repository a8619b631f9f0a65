use crate::types::{
    has_entry_point, names_unique, str_eq, ApiError, ContractHash, EntryPointView, EntryPoints,
    Key, NamedKeys,
};
use vstd::prelude::*;

verus! {

/// A registered contract: its entry points and its namespace, both fixed when
/// it is registered.
#[derive(Debug)]
pub struct Contract {
    pub entry_points: EntryPoints,
    pub named_keys: NamedKeys,
}

/// The mathematical value of a [`Contract`].
pub ghost struct ContractView {
    pub entry_points: Seq<EntryPointView>,
    pub named_keys: Map<Seq<char>, Key>,
}

impl View for Contract {
    type V = ContractView;

    open spec fn view(&self) -> ContractView {
        ContractView { entry_points: self.entry_points@, named_keys: self.named_keys@ }
    }
}

/// The mathematical value of an [`Engine`].
pub ghost struct EngineView {
    /// The registry: the contract with handle `h` stands at index `h.0`.
    pub contracts: Seq<ContractView>,
    /// The namespace of the calling account.
    pub account: Map<Seq<char>, Key>,
    /// The contracts entered by calls, in order.
    pub log: Seq<ContractHash>,
    /// The most contracts the registry takes.
    pub capacity: nat,
    /// The deepest nesting of calls allowed.
    pub max_depth: nat,
}

impl EngineView {
    pub open spec fn wf(self) -> bool {
        &&& self.contracts.len() <= self.capacity
        &&& self.capacity <= usize::MAX
        &&& self.max_depth <= usize::MAX
        &&& forall|i: int|
            0 <= i < self.contracts.len() ==> names_unique(#[trigger] self.contracts[i].entry_points)
        &&& forall|i: int| 0 <= i < self.log.len() ==> (#[trigger] self.log[i]).0 < self.contracts.len()
    }
}

/// Why a call of entry point `name` of contract `h`, made at call depth
/// `caller_depth`, is refused; `None` when it may go ahead.
pub open spec fn entry_error(e: EngineView, h: ContractHash, name: Seq<char>, caller_depth: nat) -> Option<
    ApiError,
> {
    if caller_depth >= e.max_depth {
        Some(ApiError::CallDepthExceeded)
    } else if h.0 >= e.contracts.len() {
        Some(ApiError::ContractNotFound)
    } else if !has_entry_point(e.contracts[h.0 as int].entry_points, name) {
        Some(ApiError::NoSuchMethod)
    } else {
        None
    }
}

/// The host of the contracts: registry, calling account and call log.
#[derive(Debug)]
pub struct Engine {
    contracts: Vec<Contract>,
    account: NamedKeys,
    log: Vec<ContractHash>,
    capacity: usize,
    max_depth: usize,
}

impl View for Engine {
    type V = EngineView;

    closed spec fn view(&self) -> EngineView {
        EngineView {
            contracts: self.contracts@.map_values(|c: Contract| c@),
            account: self.account@,
            log: self.log@,
            capacity: self.capacity as nat,
            max_depth: self.max_depth as nat,
        }
    }
}

/// A saved state of an [`Engine`], to go back to when a call aborts.
pub struct Checkpoint {
    contracts: usize,
    log: usize,
    account: NamedKeys,
    snapshot: Ghost<EngineView>,
}

impl Checkpoint {
    /// The state that was saved.
    pub closed spec fn state(&self) -> EngineView {
        self.snapshot@
    }

    pub closed spec fn wf(&self) -> bool {
        &&& self.contracts == self.snapshot@.contracts.len()
        &&& self.log == self.snapshot@.log.len()
        &&& self.account@ == self.snapshot@.account
    }
}

impl Engine {
    /// An engine with an empty registry that takes up to `capacity` contracts
    /// and nests calls up to `max_depth` deep.
    pub fn new(capacity: usize, max_depth: usize) -> (r: Engine)
        ensures
            r@.wf(),
            r@ == (EngineView {
                contracts: Seq::empty(),
                account: Map::empty(),
                log: Seq::empty(),
                capacity: capacity as nat,
                max_depth: max_depth as nat,
            }),
    {
        let r = Engine {
            contracts: Vec::new(),
            account: NamedKeys::new(),
            log: Vec::new(),
            capacity,
            max_depth,
        };
        assert(r@.contracts =~= Seq::empty());
        r
    }

    /// The number of registered contracts.
    pub fn contract_count(&self) -> (r: usize)
        ensures
            r == self@.contracts.len(),
    {
        self.contracts.len()
    }

    /// The contract registered under `h`, if any.
    pub fn contract(&self, h: ContractHash) -> (r: Option<&Contract>)
        ensures
            r is Some <==> h.0 < self@.contracts.len(),
            r matches Some(c) ==> c@ == self@.contracts[h.0 as int],
    {
        if h.0 < self.contracts.len() {
            Some(&self.contracts[h.0])
        } else {
            None
        }
    }

    /// The contracts entered by calls so far, in order.
    pub fn call_log(&self) -> (r: &Vec<ContractHash>)
        ensures
            r@ == self@.log,
    {
        &self.log
    }

    /// The key stored under `name` in the calling account's namespace.
    pub fn get_key(&self, name: &str) -> (r: Option<Key>)
        ensures
            r == (if self@.account.contains_key(name@) {
                Some(self@.account[name@])
            } else {
                None
            }),
    {
        self.account.get(name)
    }

    /// Stores `key` under `name` in the calling account's namespace.
    pub fn put_key(&mut self, name: &str, key: Key)
        requires
            old(self)@.wf(),
        ensures
            final(self)@ == (EngineView { account: old(self)@.account.insert(name@, key), ..old(self)@ }),
    {
        self.account.insert(name, key);
    }

    /// Registers a contract with the given entry points and namespace (an
    /// empty one when `named_keys` is `None`).
    pub fn new_contract(&mut self, entry_points: EntryPoints, named_keys: Option<NamedKeys>) -> (r:
        Result<ContractHash, ApiError>)
        requires
            old(self)@.wf(),
            entry_points.wf(),
        ensures
            final(self)@.wf(),
            r is Ok <==> old(self)@.contracts.len() < old(self)@.capacity,
            r matches Ok(h) ==> h.0 == old(self)@.contracts.len() && final(self)@ == (EngineView {
                contracts: old(self)@.contracts.push(
                    ContractView {
                        entry_points: entry_points@,
                        named_keys: match named_keys {
                            Some(k) => k@,
                            None => Map::empty(),
                        },
                    },
                ),
                ..old(self)@
            }),
            r matches Err(x) ==> x == ApiError::RegistryFull && final(self)@ == old(self)@,
    {
        if self.contracts.len() >= self.capacity {
            return Err(ApiError::RegistryFull);
        }
        let named_keys = match named_keys {
            Some(k) => k,
            None => NamedKeys::new(),
        };
        let h = ContractHash(self.contracts.len());
        let ghost prev = self@;
        self.contracts.push(Contract { entry_points, named_keys });
        assert(self@.contracts =~= prev.contracts.push(self.contracts@.last()@));
        Ok(h)
    }

    /// Enters entry point `entry_point` of contract `h` from a caller at call
    /// depth `caller_depth`, recording the contract in the call log.
    pub fn enter(&mut self, h: ContractHash, entry_point: &str, caller_depth: usize) -> (r: Result<
        (),
        ApiError,
    >)
        requires
            old(self)@.wf(),
        ensures
            final(self)@.wf(),
            r == (match entry_error(old(self)@, h, entry_point@, caller_depth as nat) {
                Some(x) => Err(x),
                None => Ok(()),
            }),
            r is Ok ==> final(self)@ == (EngineView { log: old(self)@.log.push(h), ..old(self)@ }),
            r is Err ==> final(self)@ == old(self)@,
    {
        if caller_depth >= self.max_depth {
            return Err(ApiError::CallDepthExceeded);
        }
        if h.0 >= self.contracts.len() {
            return Err(ApiError::ContractNotFound);
        }
        if !self.contracts[h.0].entry_points.contains(entry_point) {
            return Err(ApiError::NoSuchMethod);
        }
        self.log.push(h);
        Ok(())
    }

    /// Saves the current state.
    pub fn checkpoint(&self) -> (r: Checkpoint)
        ensures
            r.wf(),
            r.state() == self@,
    {
        Checkpoint {
            contracts: self.contracts.len(),
            log: self.log.len(),
            account: self.account.duplicate(),
            snapshot: Ghost(self@),
        }
    }

    /// Goes back to a saved state. Contracts registered and calls logged since
    /// are dropped.
    pub fn restore(&mut self, cp: Checkpoint)
        requires
            cp.wf(),
            cp.state().wf(),
            cp.state().contracts.is_prefix_of(old(self)@.contracts),
            cp.state().log.is_prefix_of(old(self)@.log),
            cp.state().capacity == old(self)@.capacity,
            cp.state().max_depth == old(self)@.max_depth,
        ensures
            final(self)@ == cp.state(),
    {
        let ghost s = cp.state();
        self.contracts.truncate(cp.contracts);
        self.log.truncate(cp.log);
        self.account = cp.account;
        assert(self@.contracts =~= s.contracts);
        assert(self@.log =~= s.log);
    }
}

} // verus!
