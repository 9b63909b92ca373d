use vstd::prelude::*;

verus! {

/// An amount of one denomination.
#[derive(Debug, PartialEq, Eq)]
pub struct Coin {
    pub denom: String,
    pub amount: u128,
}

impl Coin {
    /// A field-for-field copy.
    pub fn copy(&self) -> (r: Coin)
        ensures
            r == *self,
    {
        Coin { denom: self.denom.clone(), amount: self.amount }
    }
}

/// How an entry's share is handed over: a plain transfer, or a message to a contract.
#[derive(Clone, Copy, Debug, PartialEq, Eq, Structural)]
pub enum SendType {
    Wallet,
    Contract,
}

/// A message that setup sends to another contract once it is done.
#[derive(Debug, PartialEq, Eq)]
pub struct InitHook {
    pub contract_addr: String,
    pub msg: Vec<u8>,
}

/// One entry of the set that setup receives, before validation.
pub struct AllocationDetail {
    pub name: String,
    pub contract: String,
    pub allocation: u8,
    pub send_after: Coin,
    pub send_type: String,
}

/// One registered beneficiary: its terms and what it has accrued but not yet been sent.
#[derive(Debug, PartialEq, Eq)]
pub struct AllocationHolding {
    pub name: String,
    pub contract: String,
    pub allocation: u8,
    pub send_after: Coin,
    pub send_type: SendType,
    pub balance: Vec<Coin>,
}

/// An outbound transfer: the whole accrued balance of one entry.
#[derive(Debug, PartialEq, Eq)]
pub struct Dispatch {
    pub recipient: String,
    pub send_type: SendType,
    pub funds: Vec<Coin>,
}

/// Why a command was refused. Every refusal leaves the state as it was.
#[derive(Debug, PartialEq, Eq)]
pub enum ContractError {
    /// The caller may not run this command.
    Unauthorized,
    /// Setup was given no entries.
    NoFeesError,
    /// Two entries share a name.
    FundAllocationNotUnique,
    /// An entry's name is empty.
    InvalidName,
    /// An entry's weight is zero.
    AllocationZero,
    /// An entry's threshold has a denomination that is empty or only whitespace.
    InvalidCoin { coin: Coin },
    /// An entry's recipient kind is neither `Wallet` nor `Contract`.
    SendTypeInvalid { send_type: String },
    /// No entry has this name.
    AllocationNotFound { name: String },
    /// A deposit came with no funds.
    NoFundsError,
    /// A deposit holds a zero amount of this denomination.
    ZeroAmount { denom: String },
    /// There is no entry to split a deposit among.
    EmptyRegistry,
    /// Crediting the deposit would take an entry's balance past `u128::MAX`.
    BalanceOverflow,
    /// The nominated controller tried to take over before the activation height.
    GovChangeNotYetActive,
    /// Less of this denomination is held than the entries have accrued.
    ReconcileDeficit { denom: String },
    /// The recorded contract is not this one, so it cannot be upgraded.
    MigrationError { current_name: String, current_version: String },
}

/// Two entries with the same terms; their balances may differ.
pub open spec fn same_terms(a: AllocationHolding, b: AllocationHolding) -> bool {
    &&& a.name == b.name
    &&& a.contract == b.contract
    &&& a.allocation == b.allocation
    &&& a.send_after == b.send_after
    &&& a.send_type == b.send_type
}

impl AllocationHolding {
    /// A copy of the entry's terms with the given balance.
    pub fn with_balance(&self, balance: Vec<Coin>) -> (r: AllocationHolding)
        ensures
            same_terms(r, *self),
            r.balance == balance,
    {
        AllocationHolding {
            name: self.name.clone(),
            contract: self.contract.clone(),
            allocation: self.allocation,
            send_after: self.send_after.copy(),
            send_type: self.send_type,
            balance,
        }
    }
}

} // verus!
