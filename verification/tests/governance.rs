use sui_services::governance::keys::{pool_ids, reward_ids, Loaded, RewardsKey, ValidatorAddressKey};
use sui_services::governance::pages::{NextPage, Page, StakeIds};
use sui_services::governance::requests::{staked_sui_loaded, StakesError};
use sui_services::governance::stakes::{
    group_stakes, reward_keys, staked_sui_type, validator_keys, DelegatedStake, Stake, StakeStatus,
    StakedSui,
};
use sui_services::governance::system_state::{
    inner_field_id, inner_field_name, inner_format, inner_request, reference_gas_price,
    system_state_object_id, InnerFormat, SystemStateError, UnexpectedVersion,
};
use sui_services::ids::Bytes32;

fn id(lo: u128) -> Bytes32 {
    Bytes32 { hi: 0, lo }
}

fn staked(object: u128, pool: u128) -> StakedSui {
    StakedSui {
        id: id(object),
        pool_id: id(pool),
        request_epoch: object as u64,
        activation_epoch: object as u64 + 1,
        principal: 1_000 * object as u64,
    }
}

fn stake(object: u128, status: StakeStatus) -> Stake {
    Stake {
        staked_sui_id: id(object),
        stake_request_epoch: object as u64,
        stake_active_epoch: object as u64 + 1,
        principal: 1_000 * object as u64,
        status,
    }
}

#[test]
fn stakes_are_grouped_by_validator_and_pool() {
    let all = vec![staked(1, 50), staked(2, 40), staked(3, 50), staked(4, 60), staked(5, 30)];
    let rewards = Loaded::from_results(vec![(id(1), 11), (id(2), 0), (id(5), u64::MAX)]);
    // Pool 60 has no validator; pools 30 and 40 have the same one.
    let validators = Loaded::from_results(vec![
        (id(50), Bytes32 { hi: 1, lo: 0 }),
        (id(40), id(9)),
        (id(30), id(9)),
    ]);
    let groups = group_stakes(&all, &rewards, &validators);
    assert_eq!(
        groups,
        vec![
            DelegatedStake {
                validator_address: id(0),
                staking_pool: id(60),
                stakes: vec![stake(4, StakeStatus::Pending)],
            },
            DelegatedStake {
                validator_address: id(9),
                staking_pool: id(30),
                stakes: vec![stake(5, StakeStatus::Active { estimated_reward: u64::MAX })],
            },
            DelegatedStake {
                validator_address: id(9),
                staking_pool: id(40),
                stakes: vec![stake(2, StakeStatus::Pending)],
            },
            DelegatedStake {
                validator_address: Bytes32 { hi: 1, lo: 0 },
                staking_pool: id(50),
                stakes: vec![
                    stake(1, StakeStatus::Active { estimated_reward: 11 }),
                    stake(3, StakeStatus::Pending),
                ],
            },
        ]
    );
    let held: usize = groups.iter().map(|g| g.stakes.len()).sum();
    assert_eq!(held, all.len());
}

#[test]
fn one_pool_without_a_stake_has_no_group() {
    let none = group_stakes(&vec![], &Loaded::from_results(vec![]), &Loaded::from_results(vec![]));
    assert_eq!(none, vec![]);
}

#[test]
fn the_same_object_twice_is_two_stakes() {
    let all = vec![staked(1, 2), staked(1, 2)];
    let groups = group_stakes(&all, &Loaded::from_results(vec![]), &Loaded::from_results(vec![]));
    assert_eq!(groups.len(), 1);
    assert_eq!(groups[0].stakes.len(), 2);
}

#[test]
fn keys_follow_the_staked_objects() {
    let all = vec![staked(3, 7), staked(1, 7)];
    assert_eq!(reward_keys(&all), vec![RewardsKey(id(3)), RewardsKey(id(1))]);
    assert_eq!(
        validator_keys(&all),
        vec![ValidatorAddressKey(id(7)), ValidatorAddressKey(id(7))]
    );
    assert_eq!(reward_ids(&reward_keys(&all)), vec![id(3), id(1)]);
    assert_eq!(pool_ids(&validator_keys(&all)), vec![id(7), id(7)]);
}

#[test]
fn the_last_answer_counts() {
    let loaded = Loaded::from_results(vec![(id(1), 'a'), (id(2), 'b'), (id(1), 'c')]);
    assert_eq!(loaded.get(&id(1)), Some(&'c'));
    assert_eq!(loaded.get(&id(2)), Some(&'b'));
    assert_eq!(loaded.get(&Bytes32 { hi: 1, lo: 1 }), None);
    let turned = Loaded::from_results(vec![(id(2), 'b'), (id(1), 'c')]);
    assert_eq!((turned.get(&id(1)), turned.get(&id(2))), (Some(&'c'), Some(&'b')));
}

#[test]
fn pages_are_joined_until_the_last() {
    let mut ids = StakeIds::new();
    let next = ids.add_page(Page {
        data: vec![id(5), id(6)],
        next_cursor: Some("after 6".to_string()),
        has_next_page: true,
    });
    match next {
        NextPage::Fetch { after_cursor } => assert_eq!(after_cursor, Some("after 6".to_string())),
        NextPage::Done => panic!("there is another page"),
    }
    // The cursor of the last page does not matter.
    let next = ids.add_page(Page {
        data: vec![id(1)],
        next_cursor: Some("after 1".to_string()),
        has_next_page: false,
    });
    assert!(matches!(next, NextPage::Done));
    assert_eq!(ids.into_ids(), vec![id(5), id(6), id(1)]);
}

#[test]
fn a_request_goes_through_its_steps() {
    let step = staked_sui_loaded(Ok(vec![staked(1, 2)])).unwrap();
    assert_eq!(step.reward_keys, vec![RewardsKey(id(1))]);
    assert_eq!(step.validator_keys, vec![ValidatorAddressKey(id(2))]);
    let step = step.rewards_loaded(Ok(Loaded::from_results(vec![(id(1), 3)]))).unwrap();
    let response = step
        .validators_loaded(Ok(Loaded::from_results(vec![(id(2), id(8))])))
        .unwrap();
    assert_eq!(
        response,
        vec![DelegatedStake {
            validator_address: id(8),
            staking_pool: id(2),
            stakes: vec![stake(1, StakeStatus::Active { estimated_reward: 3 })],
        }]
    );
}

#[test]
fn a_request_fails_where_loading_fails() {
    let reason = || "gone".to_string();
    let e = staked_sui_loaded(Err(reason())).err().unwrap();
    assert!(matches!(e, StakesError::LoadStakedSui(_)));
    assert_eq!(e.message(), "Failed to load StakedSui objects: gone");

    let stakes = || staked_sui_loaded(Ok(vec![])).unwrap();
    let e = stakes().rewards_loaded(Err(reason())).err().unwrap();
    assert!(matches!(e, StakesError::LoadRewards(_)));
    assert_eq!(e.message(), "Failed to load rewards: gone");

    let rewards = stakes().rewards_loaded(Ok(Loaded::from_results(vec![]))).unwrap();
    let e = rewards.validators_loaded(Err(reason())).err().unwrap();
    assert!(matches!(e, StakesError::LoadValidatorAddresses(_)));
    assert_eq!(e.message(), "Failed to load validator addresses: gone");
}

#[test]
fn gas_price_keeps_its_bits() {
    assert_eq!(reference_gas_price(750), 750);
    assert_eq!(reference_gas_price(i64::MAX), i64::MAX as u64);
    assert_eq!(reference_gas_price(-1), u64::MAX);
    assert_eq!(reference_gas_price(i64::MIN), 1 << 63);
}

#[test]
fn inner_system_state_is_found_by_version() {
    assert_eq!(inner_field_name(2).unwrap(), vec![2, 0, 0, 0, 0, 0, 0, 0]);
    assert_eq!(inner_field_name(0x0102).unwrap(), vec![2, 1, 0, 0, 0, 0, 0, 0]);
    assert_eq!(inner_format(1), Ok(InnerFormat::V1));
    assert_eq!(inner_format(2), Ok(InnerFormat::V2));
    assert_eq!(inner_format(0), Err(UnexpectedVersion(0)));
    assert_eq!(
        inner_format(3).unwrap_err().message(),
        "Unexpected inner system state version: 3"
    );
}

#[test]
fn inner_system_state_has_its_own_id() {
    let one = inner_field_id(1).unwrap();
    let two = inner_field_id(2).unwrap();
    assert_ne!(one, two);
    assert_ne!(one, system_state_object_id());
    let known = sui_sdk_types::Address::from_hex(
        "0x5b890eaf2abcfa2ab90b77b8e6f3d5d8609586c3e583baf3dccd5af17edf48d1",
    )
    .unwrap();
    assert_eq!(two.to_bytes(), known.into_inner());
}

#[test]
fn staked_objects_are_picked_by_type() {
    let t = staked_sui_type();
    assert_eq!(t.address, id(3));
    assert_eq!((t.module, t.name), ("staking_pool", "StakedSui"));
}

#[test]
fn inner_system_state_is_asked_for_by_id_and_format() {
    for (version, format) in [(1, InnerFormat::V1), (2, InnerFormat::V2)] {
        let request = inner_request(version).unwrap();
        assert_eq!(request.id, inner_field_id(version).unwrap());
        assert_eq!(request.format, format);
    }
    for version in [0, 3, u64::MAX] {
        match inner_request(version) {
            Err(SystemStateError::UnexpectedVersion(e)) => {
                assert_eq!(e, UnexpectedVersion(version))
            }
            _ => panic!("version {version} is not known"),
        }
    }
}
