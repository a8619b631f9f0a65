use crate::engine::{entry_error, ContractView, Engine, EngineView};
use crate::types::{
    has_entry_point, str_eq, AccessView, ApiError, CLType, ContractHash, EntryPoint,
    EntryPointAccess, EntryPointType, EntryPointView, EntryPoints, Key, NamedKeys,
};
use vstd::prelude::*;

verus! {

/// The entry point that every generation of the chain exposes.
pub const CONTRACT_EXT: &'static str = "contract_ext";

/// The name under which a generation stores the previous one, and under which
/// the calling account stores the last one.
pub const CONTRACT_KEY: &'static str = "contract";

/// The entry point that the end of the chain declares and that no code backs.
pub const UNREACHABLE_ENTRY_POINT: &'static str = "functiondoesnotexist";

/// What `contract_ext` does in a contract, decided by its namespace.
#[derive(Clone, Copy, Debug, PartialEq, Eq, Structural)]
pub enum Step {
    /// Call `contract_ext` of the contract stored under the well-known name.
    Forward(ContractHash),
    /// Nothing is stored under the well-known name: register the unreachable
    /// contract and return.
    Terminal,
}

/// The step that a contract with namespace `keys` takes.
pub open spec fn step_of(keys: Map<Seq<char>, Key>) -> Result<Step, ApiError> {
    if keys.contains_key(CONTRACT_KEY@) {
        match keys[CONTRACT_KEY@] {
            Key::Hash(h) => Ok(Step::Forward(h)),
            Key::URef(_) => Err(ApiError::UnexpectedKeyVariant),
        }
    } else {
        Ok(Step::Terminal)
    }
}

/// The entry point of every generation.
pub open spec fn ext_entry_point() -> EntryPointView {
    EntryPointView {
        name: CONTRACT_EXT@,
        parameters: Seq::empty(),
        ret: CLType::Unit,
        access: AccessView::Public,
        kind: EntryPointType::Contract,
    }
}

/// The entry point of the contract registered at the end of the chain.
pub open spec fn unreachable_entry_point() -> EntryPointView {
    EntryPointView {
        name: UNREACHABLE_ENTRY_POINT@,
        parameters: Seq::empty(),
        ret: CLType::Unit,
        access: AccessView::Public,
        kind: EntryPointType::Contract,
    }
}

/// A generation of the chain with namespace `keys`.
pub open spec fn generation(keys: Map<Seq<char>, Key>) -> ContractView {
    ContractView { entry_points: seq![ext_entry_point()], named_keys: keys }
}

/// The contract registered at the end of the chain.
pub open spec fn terminal_contract() -> ContractView {
    ContractView { entry_points: seq![unreachable_entry_point()], named_keys: Map::empty() }
}

/// `r` with `done` put in front of its hops.
pub open spec fn prepend(done: Seq<ContractHash>, r: Result<Seq<ContractHash>, ApiError>) -> Result<
    Seq<ContractHash>,
    ApiError,
> {
    match r {
        Ok(s) => Ok(done + s),
        Err(x) => Err(x),
    }
}

/// The contracts that `contract_ext`, running in contract `h` at call depth
/// `depth`, forwards to, in order, up to the end of the chain; or the error
/// that stops it on the way.
pub open spec fn forward_hops(e: EngineView, h: ContractHash, depth: nat) -> Result<
    Seq<ContractHash>,
    ApiError,
>
    decreases e.max_depth - depth,
{
    if h.0 >= e.contracts.len() {
        Err(ApiError::ContractNotFound)
    } else {
        match step_of(e.contracts[h.0 as int].named_keys) {
            Err(x) => Err(x),
            Ok(Step::Terminal) => Ok(Seq::empty()),
            Ok(Step::Forward(n)) => match entry_error(e, n, CONTRACT_EXT@, depth) {
                Some(x) => Err(x),
                None => prepend(seq![n], forward_hops(e, n, depth + 1)),
            },
        }
    }
}

/// The hops of `contract_ext` in contract `h` at call depth `depth`, or why
/// it aborts, the final registration included.
pub open spec fn ext_result(e: EngineView, h: ContractHash, depth: nat) -> Result<
    Seq<ContractHash>,
    ApiError,
> {
    match forward_hops(e, h, depth) {
        Ok(s) => if e.contracts.len() < e.capacity {
            Ok(s)
        } else {
            Err(ApiError::RegistryFull)
        },
        Err(x) => Err(x),
    }
}

/// The contracts that a call of entry point `name` of `h`, made at call depth
/// `caller_depth`, enters, in order; or why it aborts.
pub open spec fn call_result(e: EngineView, h: ContractHash, name: Seq<char>, caller_depth: nat) -> Result<
    Seq<ContractHash>,
    ApiError,
> {
    match entry_error(e, h, name, caller_depth) {
        Some(x) => Err(x),
        None => if name == CONTRACT_EXT@ {
            prepend(seq![h], ext_result(e, h, caller_depth + 1))
        } else {
            Err(ApiError::MissingExport)
        },
    }
}

/// The outcome of a call whose trace is `r`.
pub open spec fn outcome(r: Result<Seq<ContractHash>, ApiError>) -> Result<(), ApiError> {
    match r {
        Ok(_) => Ok(()),
        Err(x) => Err(x),
    }
}

/// `e` after a call that entered the contracts `s` and ended with the
/// registration of the unreachable contract.
pub open spec fn after_chain(e: EngineView, s: Seq<ContractHash>) -> EngineView {
    EngineView { contracts: e.contracts.push(terminal_contract()), log: e.log + s, ..e }
}

/// `e1` is `e0` after an aborted call: nothing registered, the account
/// untouched, the call log extended.
pub open spec fn aborted(e0: EngineView, e1: EngineView) -> bool {
    &&& e1.wf()
    &&& e1.contracts == e0.contracts
    &&& e1.account == e0.account
    &&& e1.capacity == e0.capacity
    &&& e1.max_depth == e0.max_depth
    &&& e0.log.is_prefix_of(e1.log)
}

/// `e1` is `e0` after an installation that published `h`: three generations
/// registered, each pointing at the one before, and the last one stored in the
/// calling account.
pub open spec fn installed(e0: EngineView, e1: EngineView, h: ContractHash) -> bool {
    let n = e0.contracts.len();
    &&& h.0 == n + 2
    &&& e1 == EngineView {
        contracts: e0.contracts + seq![
            generation(Map::empty()),
            generation(map![CONTRACT_KEY@ => Key::Hash(ContractHash(n as usize))]),
            generation(map![CONTRACT_KEY@ => Key::Hash(ContractHash((n + 1) as usize))]),
        ],
        account: e0.account.insert(CONTRACT_KEY@, Key::Hash(h)),
        ..e0
    }
}

/// `e` after a complete run: the three generations and the unreachable
/// contract registered, the last generation published, and the chain entered
/// from the last generation down to the first.
pub open spec fn after_call(e: EngineView) -> EngineView {
    let n = e.contracts.len();
    let g1 = ContractHash(n as usize);
    let g2 = ContractHash((n + 1) as usize);
    let g3 = ContractHash((n + 2) as usize);
    EngineView {
        contracts: e.contracts + seq![
            generation(Map::empty()),
            generation(map![CONTRACT_KEY@ => Key::Hash(g1)]),
            generation(map![CONTRACT_KEY@ => Key::Hash(g2)]),
            terminal_contract(),
        ],
        account: e.account.insert(CONTRACT_KEY@, Key::Hash(g3)),
        log: e.log + seq![g3, g2, g1],
        ..e
    }
}

/// The outcome of a complete run on `e`.
pub open spec fn call_outcome(e: EngineView) -> Result<(), ApiError> {
    if e.contracts.len() + 3 > e.capacity {
        Err(ApiError::RegistryFull)
    } else if e.max_depth < 3 {
        Err(ApiError::CallDepthExceeded)
    } else if e.contracts.len() + 4 > e.capacity {
        Err(ApiError::RegistryFull)
    } else {
        Ok(())
    }
}

/// The step that a contract with namespace `keys` takes.
pub fn next_step(keys: &NamedKeys) -> (r: Result<Step, ApiError>)
    ensures
        r == step_of(keys@),
{
    match keys.get(CONTRACT_KEY) {
        Some(key) => match key.into_hash() {
            Some(h) => Ok(Step::Forward(h)),
            None => Err(ApiError::UnexpectedKeyVariant),
        },
        None => Ok(Step::Terminal),
    }
}

/// A table that holds the single public, parameterless entry point `name`.
fn single_entry_point(name: &str) -> (r: EntryPoints)
    ensures
        r.wf(),
        r@ == seq![
            EntryPointView {
                name: name@,
                parameters: Seq::empty(),
                ret: CLType::Unit,
                access: AccessView::Public,
                kind: EntryPointType::Contract,
            },
        ],
{
    let mut entry_points = EntryPoints::new();
    let parameters = Vec::new();
    assert(parameters@.map_values(|p: crate::types::Parameter| (p.name@, p.cl_type)) =~= Seq::empty());
    let entry_point = EntryPoint::new(
        name,
        parameters,
        CLType::Unit,
        EntryPointAccess::Public,
        EntryPointType::Contract,
    );
    entry_points.add_entry_point(entry_point);
    entry_points
}

/// Runs `contract_ext` in contract `current` at call depth `depth`: while the
/// running contract stores another under the well-known name, the call is
/// forwarded to that one; at the end of the chain a contract whose sole entry
/// point cannot be run is registered, and the call returns.
pub fn contract_ext(engine: &mut Engine, current: ContractHash, depth: usize) -> (r: Result<
    (),
    ApiError,
>)
    requires
        old(engine)@.wf(),
    ensures
        final(engine)@.wf(),
        r == outcome(ext_result(old(engine)@, current, depth as nat)),
        ext_result(old(engine)@, current, depth as nat) matches Ok(s) ==> final(engine)@
            == after_chain(old(engine)@, s),
        r is Err ==> aborted(old(engine)@, final(engine)@),
        forall|i: int|
            0 <= i < final(engine)@.log.len() ==> (#[trigger] final(engine)@.log[i]).0
                < old(engine)@.contracts.len(),
{
    let ghost e0 = engine@;
    let ghost mut done: Seq<ContractHash> = Seq::empty();
    let mut cur = current;
    let mut d = depth;
    assert(forward_hops(e0, current, depth as nat) == prepend(done, forward_hops(e0, cur, d as nat))) by {
        match forward_hops(e0, current, depth as nat) {
            Ok(s) => assert(done + s =~= s),
            Err(_) => {},
        }
    }
    loop
        invariant
            e0 == old(engine)@,
            engine@.wf(),
            engine@ == (EngineView { log: e0.log + done, ..e0 }),
            forall|i: int| 0 <= i < done.len() ==> (#[trigger] done[i]).0 < e0.contracts.len(),
            done.len() > 0 ==> d <= e0.max_depth,
            forward_hops(e0, current, depth as nat) == prepend(done, forward_hops(e0, cur, d as nat)),
        decreases e0.max_depth - d,
    {
        let step = match engine.contract(cur) {
            None => {
                return Err(ApiError::ContractNotFound);
            },
            Some(c) => next_step(&c.named_keys),
        };
        match step {
            Err(x) => {
                return Err(x);
            },
            Ok(Step::Terminal) => {
                assert(done + Seq::<ContractHash>::empty() =~= done);
                let entry_points = single_entry_point(UNREACHABLE_ENTRY_POINT);
                return match engine.new_contract(entry_points, None) {
                    Ok(_) => Ok(()),
                    Err(x) => Err(x),
                };
            },
            Ok(Step::Forward(n)) => {
                match engine.enter(n, CONTRACT_EXT, d) {
                    Err(x) => {
                        return Err(x);
                    },
                    Ok(()) => {},
                }
                proof {
                    match forward_hops(e0, n, d as nat + 1) {
                        Ok(s) => assert(done + (seq![n] + s) =~= done.push(n) + s),
                        Err(_) => {},
                    }
                    assert(e0.log + done.push(n) =~= (e0.log + done).push(n));
                    done = done.push(n);
                }
                cur = n;
                d = d + 1;
            },
        }
    }
}

/// Calls entry point `entry_point` of contract `h` from a caller at call depth
/// `caller_depth`. Of the entry points, only `contract_ext` has code.
pub fn call_contract(engine: &mut Engine, h: ContractHash, entry_point: &str, caller_depth: usize) -> (r:
    Result<(), ApiError>)
    requires
        old(engine)@.wf(),
    ensures
        final(engine)@.wf(),
        r == outcome(call_result(old(engine)@, h, entry_point@, caller_depth as nat)),
        call_result(old(engine)@, h, entry_point@, caller_depth as nat) matches Ok(s)
            ==> final(engine)@ == after_chain(old(engine)@, s),
        r is Err ==> aborted(old(engine)@, final(engine)@),
        forall|i: int|
            0 <= i < final(engine)@.log.len() ==> (#[trigger] final(engine)@.log[i]).0
                < old(engine)@.contracts.len(),
{
    let ghost e0 = engine@;
    match engine.enter(h, entry_point, caller_depth) {
        Err(x) => {
            assert(e0.log.is_prefix_of(engine@.log));
            return Err(x);
        },
        Ok(()) => {},
    }
    if !str_eq(entry_point, CONTRACT_EXT) {
        assert(e0.log.is_prefix_of(engine@.log));
        return Err(ApiError::MissingExport);
    }
    let ghost e1 = engine@;
    let r = contract_ext(engine, h, caller_depth + 1);
    assert(ext_result(e1, h, caller_depth as nat + 1) == ext_result(e0, h, caller_depth as nat + 1))
        by {
        lemma_hops_ignore_log(e0, e1, h, caller_depth as nat + 1);
    }
    proof {
        match ext_result(e0, h, caller_depth as nat + 1) {
            Ok(s) => assert(e0.log + (seq![h] + s) =~= e0.log.push(h) + s),
            Err(_) => {
                assert(e0.log.is_prefix_of(e1.log));
            },
        }
    }
    r
}

/// Forwarding reads the registry and the limits only, not the call log.
proof fn lemma_hops_ignore_log(e0: EngineView, e1: EngineView, h: ContractHash, depth: nat)
    requires
        e1 == (EngineView { log: e1.log, ..e0 }),
    ensures
        forward_hops(e1, h, depth) == forward_hops(e0, h, depth),
        ext_result(e1, h, depth) == ext_result(e0, h, depth),
    decreases e0.max_depth - depth,
{
    if h.0 < e0.contracts.len() {
        match step_of(e0.contracts[h.0 as int].named_keys) {
            Ok(Step::Forward(n)) => {
                if entry_error(e0, n, CONTRACT_EXT@, depth) is None {
                    lemma_hops_ignore_log(e0, e1, n, depth + 1);
                }
            },
            _ => {},
        }
    }
}

/// Registers a generation of the chain with namespace `named_keys`.
fn store(engine: &mut Engine, named_keys: NamedKeys) -> (r: Result<ContractHash, ApiError>)
    requires
        old(engine)@.wf(),
    ensures
        final(engine)@.wf(),
        r is Ok <==> old(engine)@.contracts.len() < old(engine)@.capacity,
        r matches Ok(h) ==> h.0 == old(engine)@.contracts.len() && final(engine)@ == (EngineView {
            contracts: old(engine)@.contracts.push(generation(named_keys@)),
            ..old(engine)@
        }),
        r matches Err(x) ==> x == ApiError::RegistryFull && final(engine)@ == old(engine)@,
{
    let entry_points = single_entry_point(CONTRACT_EXT);
    engine.new_contract(entry_points, Some(named_keys))
}

/// Registers three generations, each storing the one before under the
/// well-known name, and publishes the last one in the calling account.
pub fn install(engine: &mut Engine) -> (r: Result<ContractHash, ApiError>)
    requires
        old(engine)@.wf(),
    ensures
        final(engine)@.wf(),
        r is Ok <==> old(engine)@.contracts.len() + 3 <= old(engine)@.capacity,
        r matches Ok(h) ==> installed(old(engine)@, final(engine)@, h),
        r matches Err(x) ==> {
            &&& x == ApiError::RegistryFull
            &&& final(engine)@.account == old(engine)@.account
            &&& final(engine)@.log == old(engine)@.log
            &&& final(engine)@.capacity == old(engine)@.capacity
            &&& final(engine)@.max_depth == old(engine)@.max_depth
            &&& old(engine)@.contracts.is_prefix_of(final(engine)@.contracts)
        },
{
    let ghost e0 = engine@;
    let h1 = match store(engine, NamedKeys::new()) {
        Ok(h) => h,
        Err(x) => {
            assert(e0.contracts.is_prefix_of(engine@.contracts));
            return Err(x);
        },
    };
    let mut keys = NamedKeys::new();
    keys.insert(CONTRACT_KEY, Key::Hash(h1));
    let h2 = match store(engine, keys) {
        Ok(h) => h,
        Err(x) => {
            assert(e0.contracts.is_prefix_of(engine@.contracts));
            return Err(x);
        },
    };
    let mut keys_2 = NamedKeys::new();
    keys_2.insert(CONTRACT_KEY, Key::Hash(h2));
    let h3 = match store(engine, keys_2) {
        Ok(h) => h,
        Err(x) => {
            assert(e0.contracts.is_prefix_of(engine@.contracts));
            return Err(x);
        },
    };
    engine.put_key(CONTRACT_KEY, Key::Hash(h3));
    proof {
        let n = e0.contracts.len();
        assert(Map::<Seq<char>, Key>::empty().insert(CONTRACT_KEY@, Key::Hash(h1)) =~= map![CONTRACT_KEY@ => Key::Hash(ContractHash(n as usize))]);
        assert(Map::<Seq<char>, Key>::empty().insert(CONTRACT_KEY@, Key::Hash(h2)) =~= map![CONTRACT_KEY@ => Key::Hash(ContractHash((n + 1) as usize))]);
        assert(engine@.contracts =~= e0.contracts + seq![
            generation(Map::empty()),
            generation(map![CONTRACT_KEY@ => Key::Hash(ContractHash(n as usize))]),
            generation(map![CONTRACT_KEY@ => Key::Hash(ContractHash((n + 1) as usize))]),
        ]);
    }
    Ok(h3)
}

/// Calls `contract_ext` of contract `h` from the top level.
pub fn dispatch(engine: &mut Engine, h: ContractHash) -> (r: Result<(), ApiError>)
    requires
        old(engine)@.wf(),
    ensures
        final(engine)@.wf(),
        r == outcome(call_result(old(engine)@, h, CONTRACT_EXT@, 0)),
        call_result(old(engine)@, h, CONTRACT_EXT@, 0) matches Ok(s) ==> final(engine)@
            == after_chain(old(engine)@, s),
        r is Err ==> aborted(old(engine)@, final(engine)@),
{
    call_contract(engine, h, CONTRACT_EXT, 0)
}

/// The top-level entry: installs the chain and dispatches a call through it.
/// When any step aborts, the engine goes back to where it was.
pub fn call(engine: &mut Engine) -> (r: Result<(), ApiError>)
    requires
        old(engine)@.wf(),
    ensures
        final(engine)@.wf(),
        r == call_outcome(old(engine)@),
        r is Ok ==> final(engine)@ == after_call(old(engine)@),
        r is Err ==> final(engine)@ == old(engine)@,
{
    let ghost e0 = engine@;
    let cp = engine.checkpoint();
    let h = match install(engine) {
        Ok(h) => h,
        Err(x) => {
            engine.restore(cp);
            return Err(x);
        },
    };
    let ghost e1 = engine@;
    proof {
        lemma_chain_outcome(e0, e1, h);
    }
    match dispatch(engine, h) {
        Ok(()) => {
            proof {
                let n = e0.contracts.len();
                assert(engine@.contracts =~= after_call(e0).contracts);
                assert(engine@.log =~= after_call(e0).log);
            }
            Ok(())
        },
        Err(x) => {
            assert(e0.contracts.is_prefix_of(engine@.contracts));
            assert(e0.log.is_prefix_of(engine@.log));
            engine.restore(cp);
            Err(x)
        },
    }
}

/// After an installation, `contract_ext` of the published contract forwards
/// twice, to the second and then the first generation, and the call completes
/// as long as the engine allows three nested calls and one more registration.
pub proof fn lemma_chain_outcome(e0: EngineView, e1: EngineView, h: ContractHash)
    requires
        e0.wf(),
        installed(e0, e1, h),
    ensures
        forward_hops(e1, h, 1) == (if e1.max_depth < 3 {
            Err(ApiError::CallDepthExceeded)
        } else {
            Ok(seq![ContractHash((h.0 - 1) as usize), ContractHash((h.0 - 2) as usize)])
        }),
        call_result(e1, h, CONTRACT_EXT@, 0) == (if e1.max_depth < 3 {
            Err(ApiError::CallDepthExceeded)
        } else if e1.contracts.len() < e1.capacity {
            Ok(seq![h, ContractHash((h.0 - 1) as usize), ContractHash((h.0 - 2) as usize)])
        } else {
            Err(ApiError::RegistryFull)
        }),
{
    let n = e0.contracts.len() as int;
    let g1 = ContractHash(n as usize);
    let g2 = ContractHash((n + 1) as usize);
    assert(e1.contracts[n] == generation(Map::empty()));
    assert(e1.contracts[n + 1] == generation(map![CONTRACT_KEY@ => Key::Hash(g1)]));
    assert(e1.contracts[n + 2] == generation(map![CONTRACT_KEY@ => Key::Hash(g2)]));
    assert(e1.contracts[n].entry_points[0].name == CONTRACT_EXT@);
    assert(e1.contracts[n + 1].entry_points[0].name == CONTRACT_EXT@);
    assert(forward_hops(e1, g1, 3) == Ok::<Seq<ContractHash>, ApiError>(Seq::empty()));
    assert(forward_hops(e1, g1, 2) == Ok::<Seq<ContractHash>, ApiError>(Seq::empty()));
    if e1.max_depth >= 3 {
        assert(seq![g1] + Seq::<ContractHash>::empty() =~= seq![g1]);
        assert(forward_hops(e1, g2, 2) == Ok::<Seq<ContractHash>, ApiError>(seq![g1]));
        assert(seq![g2] + seq![g1] =~= seq![g2, g1]);
        assert(seq![h] + seq![g2, g1] =~= seq![h, g2, g1]);
    }
}

/// After an installation, the first generation stores nothing under the
/// well-known name, and each later one stores the generation before it.
pub proof fn lemma_generation_links(e0: EngineView, e1: EngineView, h: ContractHash)
    requires
        installed(e0, e1, h),
    ensures
        !e1.contracts[h.0 - 2].named_keys.contains_key(CONTRACT_KEY@),
        e1.contracts[h.0 - 1].named_keys.contains_key(CONTRACT_KEY@),
        e1.contracts[h.0 - 1].named_keys[CONTRACT_KEY@] == Key::Hash(ContractHash((h.0 - 2) as usize)),
        e1.contracts[h.0 as int].named_keys.contains_key(CONTRACT_KEY@),
        e1.contracts[h.0 as int].named_keys[CONTRACT_KEY@] == Key::Hash(ContractHash((h.0 - 1) as usize)),
{
    let n = e0.contracts.len() as int;
    assert(e1.contracts[n] == generation(Map::empty()));
    assert(e1.contracts[n + 1] == generation(map![CONTRACT_KEY@ => Key::Hash(ContractHash(n as usize))]));
    assert(e1.contracts[n + 2] == generation(map![CONTRACT_KEY@ => Key::Hash(ContractHash((n + 1) as usize))]));
}

/// The contract that an installation publishes has the namespace
/// `{ "contract": second generation }`, and the calling account stores it
/// under the same name.
pub proof fn lemma_published_handle(e0: EngineView, e1: EngineView, h: ContractHash)
    requires
        installed(e0, e1, h),
    ensures
        h.0 < e1.contracts.len(),
        e1.contracts[h.0 as int].named_keys == map![CONTRACT_KEY@ => Key::Hash(ContractHash((h.0 - 1) as usize))],
        e1.contracts[h.0 as int].entry_points == seq![ext_entry_point()],
        e1.account.contains_key(CONTRACT_KEY@),
        e1.account[CONTRACT_KEY@] == Key::Hash(h),
{
    let n = e0.contracts.len() as int;
    assert(e1.contracts[n + 2] == generation(map![CONTRACT_KEY@ => Key::Hash(ContractHash((n + 1) as usize))]));
}

/// Every contract that forwarding reaches was registered already.
proof fn lemma_hops_registered(e: EngineView, h: ContractHash, depth: nat)
    ensures
        forward_hops(e, h, depth) matches Ok(s) ==> forall|i: int|
            0 <= i < s.len() ==> (#[trigger] s[i]).0 < e.contracts.len(),
    decreases e.max_depth - depth,
{
    if h.0 < e.contracts.len() {
        match step_of(e.contracts[h.0 as int].named_keys) {
            Ok(Step::Forward(n)) => {
                if entry_error(e, n, CONTRACT_EXT@, depth) is None {
                    lemma_hops_registered(e, n, depth + 1);
                    match forward_hops(e, n, depth + 1) {
                        Ok(t) => {
                            assert forall|i: int| 0 <= i < (seq![n] + t).len() implies (#[trigger] (
                            seq![n] + t)[i]).0 < e.contracts.len() by {
                                if i > 0 {
                                    assert((seq![n] + t)[i] == t[i - 1]);
                                }
                            }
                        },
                        Err(_) => {},
                    }
                }
            },
            _ => {},
        }
    }
}

/// When `contract_ext` completes, exactly one contract has been registered;
/// its sole entry point is the unreachable one, and no call entered it.
pub proof fn lemma_chain_end_registration(e: EngineView, h: ContractHash, depth: nat)
    requires
        e.wf(),
        ext_result(e, h, depth) is Ok,
    ensures
        ({
            let s = ext_result(e, h, depth)->Ok_0;
            let f = after_chain(e, s);
            &&& f.contracts.len() == e.contracts.len() + 1
            &&& f.contracts.subrange(0, e.contracts.len() as int) == e.contracts
            &&& f.contracts.last().entry_points.len() == 1
            &&& f.contracts.last().entry_points[0].name == UNREACHABLE_ENTRY_POINT@
            &&& forall|i: int| 0 <= i < f.log.len() ==> #[trigger] f.log[i] != ContractHash(e.contracts.len() as usize)
        }),
{
    let s = ext_result(e, h, depth)->Ok_0;
    let f = after_chain(e, s);
    lemma_hops_registered(e, h, depth);
    assert(f.contracts.subrange(0, e.contracts.len() as int) =~= e.contracts);
    assert forall|i: int| 0 <= i < f.log.len() implies #[trigger] f.log[i] != ContractHash(e.contracts.len() as usize) by {
        if i < e.log.len() {
            assert(f.log[i] == e.log[i]);
        } else {
            assert(f.log[i] == s[i - e.log.len()]);
        }
    }
}

/// The first generation of an installation stores nothing under the
/// well-known name, and contracts never change once registered: so in any
/// later state `contract_ext` run there goes straight to the end of the chain.
pub proof fn lemma_first_generation_terminal(
    e0: EngineView,
    e1: EngineView,
    h: ContractHash,
    e2: EngineView,
    depth: nat,
)
    requires
        installed(e0, e1, h),
        e1.contracts.is_prefix_of(e2.contracts),
    ensures
        forward_hops(e2, ContractHash((h.0 - 2) as usize), depth) == Ok::<Seq<ContractHash>, ApiError>(Seq::empty()),
{
    let n = e0.contracts.len() as int;
    assert(e1.contracts[n] == generation(Map::empty()));
    assert(e2.contracts[n] == e1.contracts[n]);
}

} // verus!
