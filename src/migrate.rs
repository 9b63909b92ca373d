use vstd::prelude::*;
use crate::types::ContractError;
use crate::state::Config;

verus! {

/// The name under which the splitter records itself.
pub const CONTRACT_NAME: &'static str = "pfc-fee-split";

/// The earliest recorded version, whose config lacks the nomination fields.
pub const CONFIG_V100_VERSION: &'static str = "0.1.1";

/// What an upgrade does to the stored config.
#[derive(Clone, Copy, Debug, PartialEq, Eq, Structural)]
pub enum MigrateAction {
    ConvertConfigV100,
    KeepConfig,
}

/// The config as the earliest version stored it.
pub struct ConfigV100 {
    pub this: String,
    pub gov_contract: String,
}

impl ConfigV100 {
    /// The current config shape: same addresses, no nomination.
    pub fn migrate_from(self) -> (r: Config)
        ensures
            r.this == self.this,
            r.gov_contract == self.gov_contract,
            r.new_gov_contract is None,
            r.change_gov_contract_by_height is None,
            r.wf(),
    {
        Config {
            this: self.this,
            gov_contract: self.gov_contract,
            new_gov_contract: None,
            change_gov_contract_by_height: None,
        }
    }
}

/// Decides an upgrade from the recorded name and version: another contract's record is
/// refused; the earliest version has its config converted; any other is kept.
pub fn migrate(current_name: &String, current_version: &String) -> (r: Result<
    MigrateAction,
    ContractError,
>)
    ensures
        current_name@ != CONTRACT_NAME@ ==> r == Err::<MigrateAction, ContractError>(
            ContractError::MigrationError {
                current_name: *current_name,
                current_version: *current_version,
            },
        ),
        current_name@ == CONTRACT_NAME@ && current_version@ == CONFIG_V100_VERSION@ ==> r == Ok::<
            MigrateAction,
            ContractError,
        >(MigrateAction::ConvertConfigV100),
        current_name@ == CONTRACT_NAME@ && current_version@ != CONFIG_V100_VERSION@ ==> r == Ok::<
            MigrateAction,
            ContractError,
        >(MigrateAction::KeepConfig),
{
    let name = CONTRACT_NAME.to_owned();
    let v100 = CONFIG_V100_VERSION.to_owned();
    if *current_name != name {
        return Err(
            ContractError::MigrationError {
                current_name: current_name.clone(),
                current_version: current_version.clone(),
            },
        );
    }
    if *current_version == v100 {
        Ok(MigrateAction::ConvertConfigV100)
    } else {
        Ok(MigrateAction::KeepConfig)
    }
}

} // verus!
