//! The settings of a run, from the texts that the environment gave.

use std::str::FromStr;
use vstd::prelude::*;
use vstd::string::StrSliceExecFns;
use solana_sdk::pubkey::{ParsePubkeyError, Pubkey};
use crate::models::{text_of, Config, ConfigView};

verus! {

/// The error of `solana_sdk`'s address parser, carried through as it came.
#[verifier::external_type_specification]
#[verifier::external_body]
pub struct ExParsePubkeyError(ParsePubkeyError);

/// What `Pubkey::from_str` makes of a text, the key written back in base58:
/// the address that the text stands for, and nothing for a text that is no
/// address.
pub uninterp spec fn base58_address(text: Seq<char>) -> Option<Seq<char>>;

/// Reads `text` as an account address with `Pubkey::from_str` of `solana_sdk`
/// and writes the key back in base58 with the key's `to_string`. Nothing is
/// claimed of the outcome but that the text decides it: the address is
/// `base58_address` of the text, and an error comes exactly where that is
/// nothing.
#[verifier::external_body]
fn parse_address(text: &str) -> (parsed: Result<String, ParsePubkeyError>)
    ensures
        parsed matches Ok(address) ==> base58_address(text@) == Some(address@),
        parsed is Err ==> base58_address(text@) is None,
{
    match Pubkey::from_str(text) {
        Ok(key) => Ok(key.to_string()),
        Err(error) => Err(error),
    }
}

/// Why the settings could not be made.
#[derive(Debug, PartialEq, Eq)]
pub enum ConfigError {
    /// No wallet address was given.
    MissingWallet,
    /// The wallet address is no address.
    InvalidWallet(ParsePubkeyError),
    /// The address of the mint is no address.
    InvalidMint(ParsePubkeyError),
}

/// The node that is asked where none is named.
pub open spec fn default_rpc_url() -> Seq<char> {
    "https://api.mainnet-beta.solana.com"@
}

/// The address of the mint of USDC on the main network.
pub open spec fn usdc_mint() -> Seq<char> {
    "EPjFWdd5AufqSSqeM2qN1xzybapC8G4wEGGkZwyTDt1v"@
}

/// Whether `c` is one of the ten digits.
pub open spec fn is_digit(c: char) -> bool {
    '0' <= c <= '9'
}

/// The number that a run of digits writes in base ten.
pub open spec fn digits_value(digits: Seq<char>) -> nat
    decreases digits.len(),
{
    if digits.len() == 0 {
        0
    } else {
        digits_value(digits.drop_last()) * 10 + (digits.last() as nat - '0' as nat) as nat
    }
}

/// The digits of a numeral: what follows its sign, where it has one.
pub open spec fn numeral_digits(text: Seq<char>) -> Seq<char> {
    if text.len() > 0 && (text[0] == '-' || text[0] == '+') {
        text.skip(1)
    } else {
        text
    }
}

/// The number that `text` writes: an optional `+` or `-` and then one digit
/// or more, nothing before, between or after them. There is none where the
/// text has another form or the number does not fit in 64 bits.
pub open spec fn numeral_value(text: Seq<char>) -> Option<i64> {
    let digits = numeral_digits(text);
    let size = digits_value(digits);
    let value = if text.len() > 0 && text[0] == '-' {
        -size
    } else {
        size as int
    };
    if digits.len() > 0 && (forall|i: int| 0 <= i < digits.len() ==> is_digit(#[trigger] digits[i]))
        && i64::MIN <= value <= i64::MAX {
        Some(value as i64)
    } else {
        None
    }
}

/// A longer run of digits writes no smaller number.
proof fn lemma_digits_grow(digits: Seq<char>, count: int)
    requires
        0 <= count <= digits.len(),
    ensures
        digits_value(digits.take(count)) <= digits_value(digits),
    decreases digits.len() - count,
{
    if count < digits.len() {
        lemma_digits_grow(digits, count + 1);
        assert(digits.take(count + 1).drop_last() == digits.take(count));
    } else {
        assert(digits.take(count) == digits);
    }
}

/// Reads the number that `text` writes.
pub fn parse_numeral(text: &str) -> (number: Option<i64>)
    ensures
        number == numeral_value(text@),
{
    let length = text.unicode_len();
    if length == 0 {
        return None;
    }
    let first = text.get_char(0);
    let negative = first == '-';
    let start: usize = if first == '-' || first == '+' {
        1
    } else {
        0
    };
    let ghost digits = numeral_digits(text@);
    if start == length {
        return None;
    }
    let mut size: u64 = 0;
    let mut i: usize = start;
    while i < length
        invariant
            start <= i <= length,
            length == text@.len(),
            digits == text@.skip(start as int),
            digits == numeral_digits(text@),
            forall|j: int| 0 <= j < i - start ==> is_digit(#[trigger] digits[j]),
            size == digits_value(digits.take(i - start)),
            size <= 9223372036854775808,
        decreases length - i,
    {
        let c = text.get_char(i);
        if !('0' <= c && c <= '9') {
            assert(!is_digit(digits[i - start]));
            return None;
        }
        let digit: u64 = (c as u32 - '0' as u32) as u64;
        proof {
            let longer = digits.take(i - start + 1);
            assert(longer.drop_last() == digits.take(i - start));
            lemma_digits_grow(digits, i - start + 1);
        }
        if size > 922337203685477580 || size * 10 + digit > 9223372036854775808 {
            return None;
        }
        size = size * 10 + digit;
        i += 1;
    }
    assert(digits.take(i - start) == digits);
    if negative {
        if size == 9223372036854775808 {
            Some(i64::MIN)
        } else {
            Some(-(size as i64))
        }
    } else if size <= 9223372036854775807 {
        Some(size as i64)
    } else {
        None
    }
}

/// The number of days to look back: the number that the setting writes, and
/// one day where the setting is absent or writes none.
pub open spec fn days_of(setting: Option<Seq<char>>) -> int {
    match setting {
        Some(text) => match numeral_value(text) {
            Some(days) => days as int,
            None => 1,
        },
        None => 1,
    }
}

/// The settings that valid addresses give.
pub open spec fn config_of(
    rpc_url: Option<Seq<char>>,
    wallet: Seq<char>,
    mint: Seq<char>,
    days: Option<Seq<char>>,
) -> ConfigView {
    ConfigView {
        rpc_url: match rpc_url {
            Some(url) => url,
            None => default_rpc_url(),
        },
        wallet_address: wallet,
        usdc_mint_address: mint,
        days_to_index: days_of(days),
    }
}

/// Makes the settings from the texts given and from what the reading of the
/// two addresses gave. A missing wallet address is reported first, then a
/// wallet address that is none, then a mint address that is none.
pub fn assemble_config(
    rpc_url: Option<String>,
    wallet: Option<Result<String, ParsePubkeyError>>,
    mint: Result<String, ParsePubkeyError>,
    days_to_index: Option<String>,
) -> (made: Result<Config, ConfigError>)
    ensures
        made is Ok <==> (wallet matches Some(Ok(_))) && mint is Ok,
        made matches Ok(config) ==> config@ == config_of(
            text_of(rpc_url),
            wallet->0->Ok_0@,
            mint->Ok_0@,
            text_of(days_to_index),
        ),
        made matches Err(error) ==> error == match wallet {
            None => ConfigError::MissingWallet,
            Some(Err(cause)) => ConfigError::InvalidWallet(cause),
            Some(Ok(_)) => ConfigError::InvalidMint(mint->Err_0),
        },
{
    let wallet_address = match wallet {
        None => {
            return Err(ConfigError::MissingWallet);
        },
        Some(Err(cause)) => {
            return Err(ConfigError::InvalidWallet(cause));
        },
        Some(Ok(address)) => address,
    };
    let usdc_mint_address = match mint {
        Err(cause) => {
            return Err(ConfigError::InvalidMint(cause));
        },
        Ok(address) => address,
    };
    let rpc_url = match rpc_url {
        Some(url) => url,
        None => "https://api.mainnet-beta.solana.com".to_owned(),
    };
    let days: i64 = match &days_to_index {
        Some(text) => match parse_numeral(text.as_str()) {
            Some(days) => days,
            None => 1,
        },
        None => 1,
    };
    Ok(Config { rpc_url, wallet_address, usdc_mint_address, days_to_index: days })
}

/// Makes the settings of a run from the texts that the environment gave for
/// the node, the wallet and the number of days. The wallet is required and
/// must be an address; so must the mint of USDC, which is built in. The node
/// and the number of days have defaults.
pub fn load_config(
    rpc_url: Option<String>,
    wallet_address: Option<String>,
    days_to_index: Option<String>,
) -> (made: Result<Config, ConfigError>)
    ensures
        made is Ok <==> {
            &&& wallet_address is Some
            &&& base58_address(wallet_address->0@) is Some
            &&& base58_address(usdc_mint()) is Some
        },
        made matches Ok(config) ==> config@ == config_of(
            text_of(rpc_url),
            base58_address(wallet_address->0@)->0,
            base58_address(usdc_mint())->0,
            text_of(days_to_index),
        ),
        made matches Err(error) ==> match error {
            ConfigError::MissingWallet => wallet_address is None,
            ConfigError::InvalidWallet(_) => wallet_address is Some && base58_address(
                wallet_address->0@,
            ) is None,
            ConfigError::InvalidMint(_) => wallet_address is Some && base58_address(
                wallet_address->0@,
            ) is Some && base58_address(usdc_mint()) is None,
        },
{
    let wallet = match &wallet_address {
        Some(text) => Some(parse_address(text.as_str())),
        None => None,
    };
    let mint = parse_address("EPjFWdd5AufqSSqeM2qN1xzybapC8G4wEGGkZwyTDt1v");
    assemble_config(rpc_url, wallet, mint, days_to_index)
}

} // verus!
