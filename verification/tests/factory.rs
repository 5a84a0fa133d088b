use lmsr_market::address::Address;
use lmsr_market::factory::{FactoryError, MarketFactory};

fn initialized_factory() -> (MarketFactory, Address, [u8; 32], Address) {
    let mut factory = MarketFactory::new();
    let admin = Address::from_str("GADMIN");
    let wasm_hash = [0u8; 32];
    let collateral_token = Address::from_str("CTOKEN");
    factory.initialize(admin.clone(), wasm_hash, collateral_token.clone()).unwrap();
    (factory, admin, wasm_hash, collateral_token)
}

#[test]
fn factory_test_initialize() {
    let mut factory = MarketFactory::new();

    let admin = Address::from_str("GADMIN");
    let wasm_hash = [0u8; 32];
    let collateral_token = Address::from_str("CTOKEN");

    factory.initialize(admin.clone(), wasm_hash, collateral_token.clone()).unwrap();

    assert_eq!(factory.get_admin().unwrap(), admin);
    assert_eq!(factory.get_market_wasm_hash().unwrap(), wasm_hash);
    assert_eq!(factory.market_count().unwrap(), 0);
}

#[test]
fn test_double_initialize() {
    let mut factory = MarketFactory::new();

    let admin = Address::from_str("GADMIN");
    let wasm_hash = [0u8; 32];
    let collateral_token = Address::from_str("CTOKEN");

    factory.initialize(admin.clone(), wasm_hash, collateral_token.clone()).unwrap();
    let result = factory.initialize(admin.clone(), wasm_hash, collateral_token.clone());
    assert_eq!(result, Err(FactoryError::AlreadyInitialized));
    assert_eq!(result.unwrap_err().code(), 1);
}

#[test]
fn test_get_market_out_of_bounds() {
    let (factory, _admin, _wasm_hash, _collateral_token) = initialized_factory();

    // No markets deployed, any index should be out of bounds
    let result = factory.get_market(0);
    assert_eq!(result, Err(FactoryError::IndexOutOfBounds));
    assert_eq!(result.unwrap_err().code(), 5);
}

#[test]
fn test_set_market_wasm_hash_by_non_admin() {
    let (mut factory, _admin, wasm_hash, _collateral_token) = initialized_factory();

    // Try to update wasm hash with non-admin
    let attacker = Address::from_str("GATTACKER");
    let new_wasm_hash = [1u8; 32];
    let result = factory.set_market_wasm_hash(&attacker, new_wasm_hash);
    assert_eq!(result, Err(FactoryError::Unauthorized));
    assert_eq!(result.unwrap_err().code(), 3);
    assert_eq!(factory.get_market_wasm_hash(), Ok(wasm_hash));
}

#[test]
fn test_set_default_collateral_token_by_non_admin() {
    let (mut factory, _admin, _wasm_hash, _collateral_token) = initialized_factory();

    // Try to update collateral token with non-admin
    let attacker = Address::from_str("GATTACKER");
    let new_token = Address::from_str("CNEWTOKEN");
    let result = factory.set_default_collateral_token(&attacker, new_token);
    assert_eq!(result, Err(FactoryError::Unauthorized));
    assert_eq!(result.unwrap_err().code(), 3);
}

#[test]
fn test_deploy_on_uninitialized_factory() {
    let mut factory = MarketFactory::new();

    let oracle = Address::from_str("GORACLE");

    let request = factory.deployment_request(
        oracle.clone(),
        100 * 10_000_000i128,
        String::from("QmTest"),
        70 * 10_000_000i128,
    );
    assert_eq!(request.err(), Some(FactoryError::NotInitialized));
    let result = factory.deploy_market(Address::from_str("CMARKET"));
    assert_eq!(result, Err(FactoryError::NotInitialized));
    assert_eq!(result.unwrap_err().code(), 2);
}

#[test]
fn factory_records_markets_in_order() {
    let (mut factory, admin, wasm_hash, collateral_token) = initialized_factory();
    let oracle = Address::from_str("GORACLE");

    let request = factory
        .deployment_request(oracle.clone(), 1_000_000_000, String::from("QmTest"), 700_000_000)
        .unwrap();
    assert_eq!(request.market_wasm_hash, wasm_hash);
    assert_eq!(request.oracle, oracle);
    assert_eq!(request.collateral_token, collateral_token);
    assert_eq!(request.liquidity_param, 1_000_000_000);
    assert_eq!(request.metadata_hash, "QmTest");
    assert_eq!(request.initial_funding, 700_000_000);

    let first = Address::from_str("CMARKET1");
    let second = Address::from_str("CMARKET2");
    assert_eq!(factory.deploy_market(first.clone()), Ok(first.clone()));
    assert_eq!(factory.deploy_market(second.clone()), Ok(second.clone()));
    assert_eq!(factory.market_count(), Ok(2));
    assert_eq!(factory.get_market(0), Ok(first.clone()));
    assert_eq!(factory.get_market(1), Ok(second.clone()));
    assert_eq!(factory.get_market(2), Err(FactoryError::IndexOutOfBounds));
    assert_eq!(factory.list_markets(), Ok(vec![first, second]));

    // The admin reconfigures what later markets are deployed with.
    let new_token = Address::from_str("CNEWTOKEN");
    assert_eq!(factory.set_market_wasm_hash(&admin, [7u8; 32]), Ok(()));
    assert_eq!(factory.set_default_collateral_token(&admin, new_token.clone()), Ok(()));
    let request = factory
        .deployment_request(oracle, 1_000_000_000, String::from("QmTest"), 700_000_000)
        .unwrap();
    assert_eq!(request.market_wasm_hash, [7u8; 32]);
    assert_eq!(request.collateral_token, new_token);
    assert_eq!(factory.market_count(), Ok(2));
}

#[test]
fn factory_that_is_not_initialized() {
    let mut factory = MarketFactory::new();
    let someone = Address::from_str("GSOMEONE");
    assert_eq!(factory.list_markets(), Err(FactoryError::NotInitialized));
    assert_eq!(factory.market_count(), Err(FactoryError::NotInitialized));
    assert_eq!(factory.get_market(0), Err(FactoryError::NotInitialized));
    assert_eq!(factory.get_admin(), Err(FactoryError::NotInitialized));
    assert_eq!(factory.get_market_wasm_hash(), Err(FactoryError::NotInitialized));
    assert_eq!(factory.set_market_wasm_hash(&someone, [1u8; 32]), Err(FactoryError::NotInitialized));
    assert_eq!(
        factory.set_default_collateral_token(&someone, someone.clone()),
        Err(FactoryError::NotInitialized)
    );
    assert_eq!(FactoryError::DeploymentFailed.code(), 4);
    assert_eq!(FactoryError::StorageCorrupted.code(), 6);
}
