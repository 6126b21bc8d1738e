use escrow::Asset;
use escrow::Contract;
use escrow::EscrowError;
use escrow::Transaction;

fn bigpeepee69() -> String {
    "bigpeepee69".to_string()
}

fn bigpoopoo96() -> String {
    "bigpoopoo96".to_string()
}

fn single_owner_contract() -> Contract {
    Contract::new([bigpeepee69()].to_vec()).unwrap()
}

#[test]
fn add_tx() {
    let ass = Asset::new("poop".to_string(), 4);
    let tx = Transaction::new(bigpeepee69(), bigpoopoo96(), ass);
    let mut contract = single_owner_contract();
    contract
        .add_tx(
            &bigpeepee69(),
            "shit trade".to_string(),
            bigpeepee69(),
            bigpoopoo96(),
            "poop".to_string(),
            4,
        )
        .unwrap();
    let same_tx = contract.get_tx("shit trade".to_string()).unwrap();
    assert!(same_tx == tx);
}

#[test]
fn rm_tx() {
    let ass = Asset::new("poop".to_string(), 4);
    let tx = Transaction::new(bigpeepee69(), bigpoopoo96(), ass);
    let mut contract = single_owner_contract();
    contract
        .add_tx(
            &bigpeepee69(),
            "shit trade".to_string(),
            bigpeepee69(),
            bigpoopoo96(),
            "poop".to_string(),
            4,
        )
        .unwrap();
    let same_tx = contract.get_tx("shit trade".to_string()).unwrap();
    assert!(same_tx == tx);
    contract.rm_tx(&bigpeepee69(), "shit trade".to_string()).unwrap();
    assert!(matches!(
        contract.get_tx("shit trade".to_string()),
        Err(EscrowError::NotFoundError)
    ));
}

fn alice() -> String {
    "alice".to_string()
}

fn bob() -> String {
    "bob".to_string()
}

fn carol() -> String {
    "carol".to_string()
}

/// A ready-to-deposit bundle: owners {alice}, one term "t1" in which alice
/// owes bob 4 gold.
fn drafted() -> Contract {
    let mut c = Contract::new(vec![alice()]).unwrap();
    c.add_tx(&alice(), "t1".to_string(), alice(), bob(), "gold".to_string(), 4)
        .unwrap();
    c
}

#[test]
fn empty_owner_set_is_refused() {
    assert!(matches!(Contract::new(Vec::new()), Err(EscrowError::ConfigError)));
}

#[test]
fn non_owner_may_not_edit_or_sign() {
    let mut c = drafted();
    let r = c.add_tx(&carol(), "t2".to_string(), alice(), bob(), "gold".to_string(), 1);
    assert!(matches!(r, Err(EscrowError::AuthorizationError)));
    let r = c.rm_tx(&carol(), "t1".to_string());
    assert!(matches!(r, Err(EscrowError::AuthorizationError)));
    let r = c.sign(&carol());
    assert!(matches!(r, Err(EscrowError::AuthorizationError)));
    assert!(c.get_tx("t1".to_string()).is_ok());
}

#[test]
fn unanimity_is_required_to_execute() {
    let mut c = Contract::new(vec![alice(), bob()]).unwrap();
    c.add_tx(&alice(), "t1".to_string(), alice(), bob(), "gold".to_string(), 4)
        .unwrap();
    c.sign(&alice()).unwrap();
    c.dep_asset(&alice(), Asset::new("gold".to_string(), 4), "t1".to_string())
        .unwrap();
    // bob has not signed: settlement must fail and name bob
    match c.execute() {
        Err(EscrowError::ConsensusError { missing }) => assert_eq!(missing, bob()),
        _ => panic!("expected ConsensusError"),
    }
    // the missing signature makes it work
    c.sign(&bob()).unwrap();
    assert!(c.execute().is_ok());
}

#[test]
fn execute_without_any_signature_names_first_owner() {
    let mut c = Contract::new(vec![alice(), bob()]).unwrap();
    match c.execute() {
        Err(EscrowError::ConsensusError { missing }) => assert_eq!(missing, alice()),
        _ => panic!("expected ConsensusError"),
    }
}

#[test]
fn deposit_with_wrong_name_is_rejected() {
    let mut c = drafted();
    let r = c.dep_asset(&alice(), Asset::new("silver".to_string(), 4), "t1".to_string());
    match r {
        Err(EscrowError::MismatchError { expected, actual }) => {
            assert_eq!(expected.name, "gold");
            assert_eq!(expected.quantity, 4);
            assert_eq!(actual.name, "silver");
            assert_eq!(actual.quantity, 4);
        },
        _ => panic!("expected MismatchError"),
    }
    assert!(!c.get_tx("t1".to_string()).unwrap().satisfied);
}

#[test]
fn deposit_with_wrong_quantity_is_rejected() {
    let mut c = drafted();
    let r = c.dep_asset(&alice(), Asset::new("gold".to_string(), 3), "t1".to_string());
    match r {
        Err(EscrowError::MismatchError { expected, actual }) => {
            assert_eq!(expected.quantity, 4);
            assert_eq!(actual.quantity, 3);
        },
        _ => panic!("expected MismatchError"),
    }
    assert!(!c.get_tx("t1".to_string()).unwrap().satisfied);
}

#[test]
fn deposit_with_wrong_name_and_quantity_is_rejected() {
    let mut c = drafted();
    let r = c.dep_asset(&alice(), Asset::new("silver".to_string(), 9), "t1".to_string());
    assert!(matches!(r, Err(EscrowError::MismatchError { .. })));
    assert!(!c.get_tx("t1".to_string()).unwrap().satisfied);
}

#[test]
fn deposit_is_accepted_only_from_the_sender() {
    let mut c = drafted();
    let r = c.dep_asset(&bob(), Asset::new("gold".to_string(), 4), "t1".to_string());
    assert!(matches!(r, Err(EscrowError::AuthorizationError)));
    assert!(!c.get_tx("t1".to_string()).unwrap().satisfied);
}

#[test]
fn deposit_on_unknown_term_is_rejected() {
    let mut c = drafted();
    let r = c.dep_asset(&alice(), Asset::new("gold".to_string(), 4), "nope".to_string());
    assert!(matches!(r, Err(EscrowError::NotFoundError)));
}

#[test]
fn double_deposit_is_rejected() {
    let mut c = drafted();
    c.dep_asset(&alice(), Asset::new("gold".to_string(), 4), "t1".to_string())
        .unwrap();
    let r = c.dep_asset(&alice(), Asset::new("gold".to_string(), 4), "t1".to_string());
    assert!(matches!(r, Err(EscrowError::StateError)));
    assert!(c.get_tx("t1".to_string()).unwrap().satisfied);
}

#[test]
fn no_edit_after_ratification() {
    let mut c = drafted();
    c.sign(&alice()).unwrap();
    let r = c.add_tx(&alice(), "t2".to_string(), alice(), bob(), "gold".to_string(), 1);
    assert!(matches!(r, Err(EscrowError::StateError)));
    let r = c.rm_tx(&alice(), "t1".to_string());
    assert!(matches!(r, Err(EscrowError::StateError)));
    assert!(c.get_tx("t1".to_string()).is_ok());
    assert!(matches!(c.get_tx("t2".to_string()), Err(EscrowError::NotFoundError)));
}

#[test]
fn draft_round_trip_re_add_equals_fresh_term() {
    let mut c = drafted();
    c.rm_tx(&alice(), "t1".to_string()).unwrap();
    c.add_tx(&alice(), "t1".to_string(), alice(), bob(), "gold".to_string(), 4)
        .unwrap();
    let re_added = c.get_tx("t1".to_string()).unwrap();
    let fresh = Transaction::new(alice(), bob(), Asset::new("gold".to_string(), 4));
    assert!(re_added == fresh);
}

#[test]
fn re_adding_a_name_overwrites_the_term() {
    let mut c = drafted();
    c.add_tx(&alice(), "t1".to_string(), alice(), bob(), "gold".to_string(), 7)
        .unwrap();
    let t = c.get_tx("t1".to_string()).unwrap();
    assert_eq!(t.asset.quantity, 7);
}

#[test]
fn removing_an_unknown_term_is_a_silent_no_op() {
    let mut c = drafted();
    assert!(c.rm_tx(&alice(), "nope".to_string()).is_ok());
    assert!(c.get_tx("t1".to_string()).is_ok());
}

#[test]
fn all_or_nothing_settlement() {
    let mut c = Contract::new(vec![alice()]).unwrap();
    c.add_tx(&alice(), "t1".to_string(), alice(), bob(), "gold".to_string(), 4)
        .unwrap();
    c.add_tx(&alice(), "t2".to_string(), bob(), alice(), "silver".to_string(), 2)
        .unwrap();
    c.sign(&alice()).unwrap();
    c.dep_asset(&alice(), Asset::new("gold".to_string(), 4), "t1".to_string())
        .unwrap();
    // one of two terms unsatisfied: the whole settlement must fail
    match c.execute() {
        Err(EscrowError::UnsatisfiedTermError { tx_name, sender, asset_name, quantity }) => {
            assert_eq!(tx_name, "t2");
            assert_eq!(sender, bob());
            assert_eq!(asset_name, "silver");
            assert_eq!(quantity, 2);
        },
        _ => panic!("expected UnsatisfiedTermError"),
    }
    // nothing changed: the satisfied term is still satisfied, and settling
    // after the missing deposit succeeds
    assert!(c.get_tx("t1".to_string()).unwrap().satisfied);
    c.dep_asset(&bob(), Asset::new("silver".to_string(), 2), "t2".to_string())
        .unwrap();
    assert!(c.execute().is_ok());
}

#[test]
fn end_to_end_scenario() {
    let mut c = Contract::new(vec![alice()]).unwrap();
    c.add_tx(&alice(), "t1".to_string(), alice(), bob(), "gold".to_string(), 4)
        .unwrap();
    c.sign(&alice()).unwrap();
    c.dep_asset(&alice(), Asset::new("gold".to_string(), 4), "t1".to_string())
        .unwrap();
    assert!(c.get_tx("t1".to_string()).unwrap().satisfied);
    let releases = c.execute().unwrap();
    assert_eq!(releases.len(), 1);
    assert_eq!(releases[0].asset.name, "gold");
    assert_eq!(releases[0].asset.quantity, 4);
    assert_eq!(releases[0].receiver, bob());
}

#[test]
fn withdraw_reverses_deposit() {
    let mut c = Contract::new(vec![alice()]).unwrap();
    c.add_tx(&alice(), "t1".to_string(), alice(), bob(), "gold".to_string(), 4)
        .unwrap();
    c.sign(&alice()).unwrap();
    c.dep_asset(&alice(), Asset::new("gold".to_string(), 4), "t1".to_string())
        .unwrap();
    c.withdraw_asset(&alice(), "t1".to_string()).unwrap();
    assert!(!c.get_tx("t1".to_string()).unwrap().satisfied);
    match c.execute() {
        Err(EscrowError::UnsatisfiedTermError { tx_name, .. }) => assert_eq!(tx_name, "t1"),
        _ => panic!("expected UnsatisfiedTermError"),
    }
}

#[test]
fn withdraw_is_allowed_only_for_the_sender() {
    let mut c = drafted();
    c.dep_asset(&alice(), Asset::new("gold".to_string(), 4), "t1".to_string())
        .unwrap();
    let r = c.withdraw_asset(&bob(), "t1".to_string());
    assert!(matches!(r, Err(EscrowError::AuthorizationError)));
    assert!(c.get_tx("t1".to_string()).unwrap().satisfied);
    let r = c.withdraw_asset(&alice(), "nope".to_string());
    assert!(matches!(r, Err(EscrowError::NotFoundError)));
}

#[test]
fn signing_twice_has_no_further_effect() {
    let mut c = drafted();
    c.sign(&alice()).unwrap();
    c.sign(&alice()).unwrap();
    c.dep_asset(&alice(), Asset::new("gold".to_string(), 4), "t1".to_string())
        .unwrap();
    assert!(c.execute().is_ok());
}

#[test]
fn toggle_satisfied_flips_the_flag() {
    let mut t = Transaction::new(alice(), bob(), Asset::new("gold".to_string(), 4));
    assert!(!t.satisfied);
    t.toggle_satisfied();
    assert!(t.satisfied);
    t.toggle_satisfied();
    assert!(!t.satisfied);
}

#[test]
fn execute_clears_deposits_and_keeps_terms() {
    let mut c = drafted();
    c.sign(&alice()).unwrap();
    c.dep_asset(&alice(), Asset::new("gold".to_string(), 4), "t1".to_string())
        .unwrap();
    c.execute().unwrap();
    // terms survive settlement, still marked satisfied
    assert!(c.get_tx("t1".to_string()).unwrap().satisfied);
    // the deposit is gone, so the sender can escrow for a new round only
    // after a withdrawal resets the term
    c.withdraw_asset(&alice(), "t1".to_string()).unwrap();
    assert!(!c.get_tx("t1".to_string()).unwrap().satisfied);
}
