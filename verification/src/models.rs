//! The values that the engine reads and produces, each with the mathematical
//! view that the contracts are stated over.

use vstd::prelude::*;

verus! {

/// Which way a transfer moved, seen from the tracked wallet.
#[derive(Clone, Copy, Debug, PartialEq, Eq, Structural)]
pub enum TransferDirection {
    Incoming,
    Outgoing,
}

/// The balance of one account for one mint, immediately before or after a
/// transaction. Amounts are counted in the smallest unit of the token.
#[derive(Debug, PartialEq, Eq)]
pub struct TokenBalance {
    pub owner: String,
    pub mint: String,
    pub amount: Option<u64>,
}

/// What a `TokenBalance` stands for in contracts.
pub ghost struct BalanceView {
    pub owner: Seq<char>,
    pub mint: Seq<char>,
    pub amount: Option<nat>,
}

impl BalanceView {
    /// The amount held; a snapshot without an amount holds nothing.
    pub open spec fn quantity(self) -> nat {
        match self.amount {
            Some(a) => a,
            None => 0,
        }
    }
}

impl View for TokenBalance {
    type V = BalanceView;

    open spec fn view(&self) -> BalanceView {
        BalanceView {
            owner: self.owner@,
            mint: self.mint@,
            amount: match self.amount {
                Some(a) => Some(a as nat),
                None => None,
            },
        }
    }
}

impl Clone for TokenBalance {
    fn clone(&self) -> (copy: Self)
        ensures
            copy@ == self@,
    {
        TokenBalance { owner: self.owner.clone(), mint: self.mint.clone(), amount: self.amount }
    }
}

/// The views of a sequence of values, in the same order.
pub open spec fn views<T: View>(items: Seq<T>) -> Seq<T::V> {
    Seq::new(items.len(), |i: int| items[i]@)
}

/// One transaction as the engine sees it: when it ran, and what every account
/// that it touched held of the tracked mint before and after.
#[derive(Debug, PartialEq, Eq)]
pub struct TransactionRecord {
    pub signature: String,
    pub timestamp: i64,
    pub pre: Vec<TokenBalance>,
    pub post: Vec<TokenBalance>,
}

/// What a `TransactionRecord` stands for in contracts.
pub ghost struct TransactionView {
    pub signature: Seq<char>,
    pub timestamp: int,
    pub pre: Seq<BalanceView>,
    pub post: Seq<BalanceView>,
}

impl View for TransactionRecord {
    type V = TransactionView;

    open spec fn view(&self) -> TransactionView {
        TransactionView {
            signature: self.signature@,
            timestamp: self.timestamp as int,
            pre: views(self.pre@),
            post: views(self.post@),
        }
    }
}

/// One movement of the token into or out of the tracked wallet.
#[derive(Debug, PartialEq, Eq)]
pub struct USDCTransfer {
    pub signature: String,
    pub timestamp: i64,
    pub from: String,
    pub to: String,
    pub amount: u64,
    pub direction: TransferDirection,
}

/// What a `USDCTransfer` stands for in contracts.
pub ghost struct TransferView {
    pub signature: Seq<char>,
    pub timestamp: int,
    pub from: Seq<char>,
    pub to: Seq<char>,
    pub amount: nat,
    pub direction: TransferDirection,
}

impl View for USDCTransfer {
    type V = TransferView;

    open spec fn view(&self) -> TransferView {
        TransferView {
            signature: self.signature@,
            timestamp: self.timestamp as int,
            from: self.from@,
            to: self.to@,
            amount: self.amount as nat,
            direction: self.direction,
        }
    }
}

impl Clone for USDCTransfer {
    fn clone(&self) -> (copy: Self)
        ensures
            copy@ == self@,
    {
        USDCTransfer {
            signature: self.signature.clone(),
            timestamp: self.timestamp,
            from: self.from.clone(),
            to: self.to.clone(),
            amount: self.amount,
            direction: self.direction,
        }
    }
}

/// What a run works on: the node to ask, the wallet to track, the mint of the
/// token, and how many days back to look. Both addresses are written in
/// base58.
#[derive(Debug, PartialEq, Eq)]
pub struct Config {
    pub rpc_url: String,
    pub wallet_address: String,
    pub usdc_mint_address: String,
    pub days_to_index: i64,
}

/// What a `Config` stands for in contracts.
pub ghost struct ConfigView {
    pub rpc_url: Seq<char>,
    pub wallet_address: Seq<char>,
    pub usdc_mint_address: Seq<char>,
    pub days_to_index: int,
}

impl View for Config {
    type V = ConfigView;

    open spec fn view(&self) -> ConfigView {
        ConfigView {
            rpc_url: self.rpc_url@,
            wallet_address: self.wallet_address@,
            usdc_mint_address: self.usdc_mint_address@,
            days_to_index: self.days_to_index as int,
        }
    }
}

/// The text of a setting that may be absent.
pub open spec fn text_of(setting: Option<String>) -> Option<Seq<char>> {
    match setting {
        Some(text) => Some(text@),
        None => None,
    }
}

} // verus!
