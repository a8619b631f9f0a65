use contract_chain::probe::{
    call_contract, dispatch, install, next_step, Step, CONTRACT_EXT, CONTRACT_KEY,
    UNREACHABLE_ENTRY_POINT,
};
use contract_chain::{
    call, contract_ext, ApiError, CLType, ContractHash, Engine, EntryPoint, EntryPointAccess,
    EntryPointType, EntryPoints, Key, NamedKeys, Parameter,
};

fn contract_key_of(engine: &Engine, h: ContractHash) -> Option<Key> {
    engine.contract(h).unwrap().named_keys.get(CONTRACT_KEY)
}

fn ext_entry_points() -> EntryPoints {
    let mut eps = EntryPoints::new();
    eps.add_entry_point(EntryPoint::new(
        CONTRACT_EXT,
        Vec::new(),
        CLType::Unit,
        EntryPointAccess::Public,
        EntryPointType::Contract,
    ));
    eps
}

#[test]
fn generations_point_back() {
    let mut e = Engine::new(16, 8);
    let h3 = install(&mut e).unwrap();
    let h2 = ContractHash(h3.0 - 1);
    let h1 = ContractHash(h3.0 - 2);
    assert_eq!(contract_key_of(&e, h1), None);
    assert_eq!(contract_key_of(&e, h2), Some(Key::Hash(h1)));
    assert_eq!(contract_key_of(&e, h3), Some(Key::Hash(h2)));
}

#[test]
fn install_publishes_third_generation() {
    let mut e = Engine::new(16, 8);
    let h3 = install(&mut e).unwrap();
    assert_eq!(h3, ContractHash(2));
    assert_eq!(e.contract_count(), 3);
    assert_eq!(contract_key_of(&e, h3), Some(Key::Hash(ContractHash(1))));
    assert_eq!(e.get_key(CONTRACT_KEY), Some(Key::Hash(h3)));
    let c = e.contract(h3).unwrap();
    assert_eq!(c.entry_points.len(), 1);
    assert_eq!(c.entry_points.get(0).name, "contract_ext");
    assert!(e.call_log().is_empty());
}

#[test]
fn install_on_existing_registry_offsets_handles() {
    let mut e = Engine::new(16, 8);
    let first = install(&mut e).unwrap();
    let second = install(&mut e).unwrap();
    assert_eq!(first, ContractHash(2));
    assert_eq!(second, ContractHash(5));
    assert_eq!(contract_key_of(&e, ContractHash(3)), None);
    assert_eq!(contract_key_of(&e, second), Some(Key::Hash(ContractHash(4))));
    assert_eq!(e.get_key(CONTRACT_KEY), Some(Key::Hash(second)));
}

#[test]
fn dispatch_forwards_twice() {
    let mut e = Engine::new(16, 8);
    let h3 = install(&mut e).unwrap();
    assert_eq!(dispatch(&mut e, h3), Ok(()));
    assert_eq!(
        e.call_log().clone(),
        vec![ContractHash(2), ContractHash(1), ContractHash(0)]
    );
}

#[test]
fn terminal_registers_one_unreachable_contract() {
    let mut e = Engine::new(16, 8);
    let h3 = install(&mut e).unwrap();
    assert_eq!(dispatch(&mut e, h3), Ok(()));
    assert_eq!(e.contract_count(), 4);
    let t = ContractHash(3);
    let c = e.contract(t).unwrap();
    assert_eq!(c.entry_points.len(), 1);
    let ep = c.entry_points.get(0);
    assert_eq!(ep.name, UNREACHABLE_ENTRY_POINT);
    assert_eq!(ep.name, "functiondoesnotexist");
    assert!(ep.parameters.is_empty());
    assert_eq!(ep.ret, CLType::Unit);
    assert!(matches!(ep.access, EntryPointAccess::Public));
    assert_eq!(ep.kind, EntryPointType::Contract);
    assert_eq!(c.named_keys.get(CONTRACT_KEY), None);
    assert!(!e.call_log().contains(&t));
}

#[test]
fn unreachable_entry_point_has_no_code() {
    let mut e = Engine::new(16, 8);
    assert_eq!(call(&mut e), Ok(()));
    let before = e.contract_count();
    assert_eq!(
        call_contract(&mut e, ContractHash(3), UNREACHABLE_ENTRY_POINT, 0),
        Err(ApiError::MissingExport)
    );
    assert_eq!(e.contract_count(), before);
}

#[test]
fn first_generation_goes_straight_to_terminal() {
    let mut e = Engine::new(16, 8);
    let h3 = install(&mut e).unwrap();
    let h1 = ContractHash(h3.0 - 2);
    assert_eq!(contract_ext(&mut e, h1, 1), Ok(()));
    assert!(e.call_log().is_empty());
    assert_eq!(e.contract_count(), 4);
    assert_eq!(contract_ext(&mut e, h1, 1), Ok(()));
    assert!(e.call_log().is_empty());
    assert_eq!(e.contract_count(), 5);
}

#[test]
fn call_end_to_end() {
    let mut e = Engine::new(16, 8);
    assert_eq!(call(&mut e), Ok(()));
    assert_eq!(e.get_key(CONTRACT_KEY), Some(Key::Hash(ContractHash(2))));
    assert_eq!(e.contract_count(), 4);
    assert_eq!(
        e.call_log().clone(),
        vec![ContractHash(2), ContractHash(1), ContractHash(0)]
    );
}

#[test]
fn call_with_tight_limits_succeeds() {
    let mut e = Engine::new(4, 3);
    assert_eq!(call(&mut e), Ok(()));
    assert_eq!(e.contract_count(), 4);
}

#[test]
fn call_rolls_back_when_registry_too_small_to_install() {
    let mut e = Engine::new(2, 8);
    e.put_key("other", Key::URef(9));
    assert_eq!(call(&mut e), Err(ApiError::RegistryFull));
    assert_eq!(e.contract_count(), 0);
    assert_eq!(e.get_key(CONTRACT_KEY), None);
    assert_eq!(e.get_key("other"), Some(Key::URef(9)));
}

#[test]
fn call_rolls_back_when_no_room_for_terminal() {
    let mut e = Engine::new(3, 8);
    assert_eq!(call(&mut e), Err(ApiError::RegistryFull));
    assert_eq!(e.contract_count(), 0);
    assert_eq!(e.get_key(CONTRACT_KEY), None);
    assert!(e.call_log().is_empty());
}

#[test]
fn call_rolls_back_when_depth_too_small() {
    let mut e = Engine::new(16, 2);
    assert_eq!(call(&mut e), Err(ApiError::CallDepthExceeded));
    assert_eq!(e.contract_count(), 0);
    assert_eq!(e.get_key(CONTRACT_KEY), None);
    assert!(e.call_log().is_empty());
}

#[test]
fn dispatch_unknown_contract() {
    let mut e = Engine::new(16, 8);
    assert_eq!(dispatch(&mut e, ContractHash(7)), Err(ApiError::ContractNotFound));
}

#[test]
fn call_contract_unknown_entry_point() {
    let mut e = Engine::new(16, 8);
    let h3 = install(&mut e).unwrap();
    assert_eq!(call_contract(&mut e, h3, "nothing", 0), Err(ApiError::NoSuchMethod));
    assert!(e.call_log().is_empty());
}

#[test]
fn stored_reference_that_is_not_a_contract() {
    let mut e = Engine::new(16, 8);
    let mut keys = NamedKeys::new();
    keys.insert(CONTRACT_KEY, Key::URef(3));
    let h = e.new_contract(ext_entry_points(), Some(keys)).unwrap();
    assert_eq!(dispatch(&mut e, h), Err(ApiError::UnexpectedKeyVariant));
    assert_eq!(e.contract_count(), 1);
}

#[test]
fn forward_to_missing_contract() {
    let mut e = Engine::new(16, 8);
    let mut keys = NamedKeys::new();
    keys.insert(CONTRACT_KEY, Key::Hash(ContractHash(40)));
    let h = e.new_contract(ext_entry_points(), Some(keys)).unwrap();
    assert_eq!(dispatch(&mut e, h), Err(ApiError::ContractNotFound));
}

#[test]
fn self_reference_stops_at_depth_limit() {
    let mut e = Engine::new(16, 5);
    let mut keys = NamedKeys::new();
    keys.insert(CONTRACT_KEY, Key::Hash(ContractHash(0)));
    let h = e.new_contract(ext_entry_points(), Some(keys)).unwrap();
    assert_eq!(dispatch(&mut e, h), Err(ApiError::CallDepthExceeded));
    assert_eq!(e.contract_count(), 1);
    assert_eq!(e.call_log().len(), 5);
}

#[test]
fn registry_full_refuses_new_contract() {
    let mut e = Engine::new(1, 8);
    assert_eq!(e.new_contract(EntryPoints::new(), None), Ok(ContractHash(0)));
    assert_eq!(e.new_contract(EntryPoints::new(), None), Err(ApiError::RegistryFull));
    assert_eq!(e.contract_count(), 1);
}

#[test]
fn next_step_cases() {
    let empty = NamedKeys::new();
    assert_eq!(next_step(&empty), Ok(Step::Terminal));
    let mut fwd = NamedKeys::new();
    fwd.insert(CONTRACT_KEY, Key::Hash(ContractHash(4)));
    assert_eq!(next_step(&fwd), Ok(Step::Forward(ContractHash(4))));
    let mut other = NamedKeys::new();
    other.insert("elsewhere", Key::Hash(ContractHash(4)));
    assert_eq!(next_step(&other), Ok(Step::Terminal));
    let mut bad = NamedKeys::new();
    bad.insert(CONTRACT_KEY, Key::URef(1));
    assert_eq!(next_step(&bad), Err(ApiError::UnexpectedKeyVariant));
}

#[test]
fn named_keys_insert_replaces() {
    let mut keys = NamedKeys::new();
    keys.insert("a", Key::URef(1));
    keys.insert("b", Key::URef(2));
    keys.insert("a", Key::URef(3));
    assert_eq!(keys.get("a"), Some(Key::URef(3)));
    assert_eq!(keys.get("b"), Some(Key::URef(2)));
    assert_eq!(keys.get("c"), None);
    assert!(keys.contains_key("b"));
    let copy = keys.duplicate();
    assert_eq!(copy.get("a"), Some(Key::URef(3)));
}

#[test]
fn entry_points_replace_same_name() {
    let mut eps = ext_entry_points();
    eps.add_entry_point(EntryPoint::new(
        CONTRACT_EXT,
        vec![Parameter { name: "x".to_string(), cl_type: CLType::U64 }],
        CLType::Bool,
        EntryPointAccess::Groups(vec!["admins".to_string()]),
        EntryPointType::Session,
    ));
    assert_eq!(eps.len(), 1);
    assert_eq!(eps.get(0).ret, CLType::Bool);
    eps.add_entry_point(EntryPoint::new(
        "other",
        Vec::new(),
        CLType::Unit,
        EntryPointAccess::Public,
        EntryPointType::Contract,
    ));
    assert_eq!(eps.len(), 2);
    assert_eq!(eps.find("other"), Some(1));
    assert!(eps.contains(CONTRACT_EXT));
    assert!(!eps.contains("missing"));
}

#[test]
fn key_into_hash() {
    assert_eq!(Key::Hash(ContractHash(5)).into_hash(), Some(ContractHash(5)));
    assert_eq!(Key::URef(5).into_hash(), None);
}
