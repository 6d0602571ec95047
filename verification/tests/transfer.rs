use meshwork::transfer::{check_providers, select_strategy, ContentHash, DownloadStrategy, ProviderError};

#[test]
fn strategy_names() {
    assert_eq!(select_strategy(&String::from("split")), Ok(DownloadStrategy::Split));
    assert_eq!(select_strategy(&String::from("sequential")), Ok(DownloadStrategy::Sequential));
}

#[test]
fn unknown_strategy_is_refused() {
    assert_eq!(
        select_strategy(&String::from("parallel")),
        Err(String::from("unknown strategy: parallel (use 'split' or 'sequential')"))
    );
    assert_eq!(
        select_strategy(&String::from("Split")),
        Err(String::from("unknown strategy: Split (use 'split' or 'sequential')"))
    );
    assert_eq!(
        select_strategy(&String::new()),
        Err(String::from("unknown strategy:  (use 'split' or 'sequential')"))
    );
}

fn hash(n: u128) -> ContentHash {
    ContentHash { hi: n, lo: n.wrapping_mul(31) }
}

#[test]
fn matching_providers_pass() {
    assert_eq!(check_providers(hash(1), &vec![]), Ok(()));
    assert_eq!(check_providers(hash(1), &vec![Some(hash(1)), Some(hash(1))]), Ok(()));
}

#[test]
fn unparsable_ticket_names_its_position() {
    let r = check_providers(hash(1), &vec![Some(hash(1)), None, Some(hash(2))]);
    assert_eq!(r, Err(ProviderError::InvalidTicket { position: 3 }));
}

#[test]
fn different_hash_names_both_hashes() {
    let r = check_providers(hash(1), &vec![Some(hash(2)), None]);
    assert_eq!(
        r,
        Err(ProviderError::DifferentHash { position: 2, expected: hash(1), got: hash(2) })
    );
}
