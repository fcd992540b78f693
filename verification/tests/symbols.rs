use apexchainx_calculator::symbols::test_sym;
use soroban_sdk::Env;

#[test]
fn test_sym_builds_migrate_done() {
    let env = Env::default();
    let sym = test_sym(&env);
    assert_eq!(sym.to_string(), "migrate_done");
}
