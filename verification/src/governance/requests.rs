//! The steps of a request for the stakes of an owner: what to load next, and the response.
use crate::governance::keys::{Loaded, RewardsKey, ValidatorAddressKey};
use crate::governance::stakes::{
    group_stakes, is_grouping, reward_keys, validator_keys, DelegatedStake, StakedSui,
};
use crate::ids::SuiAddress;
use vstd::prelude::*;
use vstd::string::StringExecFns;

verus! {

/// Why a request fails, with what was reported by whoever was asked.
#[derive(Debug)]
pub enum StakesError {
    LoadStakedSui(String),
    LoadRewards(String),
    LoadValidatorAddresses(String),
}

impl StakesError {
    /// The text of the error.
    pub open spec fn spec_message(&self) -> Seq<char> {
        match self {
            StakesError::LoadStakedSui(reason) => "Failed to load StakedSui objects: "@ + reason@,
            StakesError::LoadRewards(reason) => "Failed to load rewards: "@ + reason@,
            StakesError::LoadValidatorAddresses(reason) => "Failed to load validator addresses: "@
                + reason@,
        }
    }

    /// What to report.
    pub fn message(&self) -> (r: String)
        ensures
            r@ == self.spec_message(),
    {
        match self {
            StakesError::LoadStakedSui(reason) => {
                let mut r = "Failed to load StakedSui objects: ".to_string();
                r.append(reason.as_str());
                r
            },
            StakesError::LoadRewards(reason) => {
                let mut r = "Failed to load rewards: ".to_string();
                r.append(reason.as_str());
                r
            },
            StakesError::LoadValidatorAddresses(reason) => {
                let mut r = "Failed to load validator addresses: ".to_string();
                r.append(reason.as_str());
                r
            },
        }
    }
}

/// The staked objects are here. The rewards are to be loaded by `reward_keys`, and then the
/// validators by `validator_keys`.
pub struct StakesLoaded {
    pub staked: Vec<StakedSui>,
    pub reward_keys: Vec<RewardsKey>,
    pub validator_keys: Vec<ValidatorAddressKey>,
}

/// The staked objects and their rewards are here.
pub struct RewardsLoaded {
    pub staked: Vec<StakedSui>,
    pub rewards: Loaded<u64>,
}

/// Goes on once the staked objects were loaded, all of them or none.
pub fn staked_sui_loaded(loaded: Result<Vec<StakedSui>, String>) -> (r: Result<
    StakesLoaded,
    StakesError,
>)
    ensures
        match loaded {
            Ok(staked) => r matches Ok(next) && next.staked == staked && next.reward_keys@
                == staked@.map_values(|s: StakedSui| RewardsKey(s.id)) && next.validator_keys@
                == staked@.map_values(|s: StakedSui| ValidatorAddressKey(s.pool_id)),
            Err(reason) => r is Err && r->Err_0 == StakesError::LoadStakedSui(reason),
        },
{
    match loaded {
        Ok(staked) => {
            let reward_keys = reward_keys(&staked);
            let validator_keys = validator_keys(&staked);
            Ok(StakesLoaded { staked, reward_keys, validator_keys })
        },
        Err(reason) => Err(StakesError::LoadStakedSui(reason)),
    }
}

impl StakesLoaded {
    /// Goes on once the rewards were loaded.
    pub fn rewards_loaded(self, loaded: Result<Loaded<u64>, String>) -> (r: Result<
        RewardsLoaded,
        StakesError,
    >)
        ensures
            match loaded {
                Ok(rewards) => r matches Ok(next) && next.staked == self.staked && next.rewards
                    == rewards,
                Err(reason) => r is Err && r->Err_0 == StakesError::LoadRewards(reason),
            },
    {
        match loaded {
            Ok(rewards) => Ok(RewardsLoaded { staked: self.staked, rewards }),
            Err(reason) => Err(StakesError::LoadRewards(reason)),
        }
    }
}

impl RewardsLoaded {
    /// The response, once the validators were loaded.
    pub fn validators_loaded(self, loaded: Result<Loaded<SuiAddress>, String>) -> (r: Result<
        Vec<DelegatedStake>,
        StakesError,
    >)
        ensures
            match loaded {
                Ok(validators) => r matches Ok(groups) && is_grouping(
                    groups@,
                    self.staked@,
                    self.rewards@,
                    validators@,
                ),
                Err(reason) => r is Err && r->Err_0 == StakesError::LoadValidatorAddresses(reason),
            },
    {
        match loaded {
            Ok(validators) => Ok(group_stakes(&self.staked, &self.rewards, &validators)),
            Err(reason) => Err(StakesError::LoadValidatorAddresses(reason)),
        }
    }
}

} // verus!
