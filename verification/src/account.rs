//! Account selectors: the routing keys under which authorization is kept.
use crate::bytes::utf8_text;
use vstd::prelude::*;
use vstd::utf8::{decode_utf8, encode_utf8, valid_utf8};

verus! {

/// The selected account: an exact selector, or the default that `op` chooses.
#[derive(Debug)]
pub struct Account(pub Option<String>);

impl View for Account {
    type V = Option<Seq<char>>;

    open spec fn view(&self) -> Option<Seq<char>> {
        match self.0 {
            Some(selector) => Some(selector@),
            None => None,
        }
    }
}

impl Clone for Account {
    fn clone(&self) -> (copy: Self)
        ensures
            copy@ == self@,
    {
        match &self.0 {
            Some(selector) => Account(Some(selector.clone())),
            None => Account(None),
        }
    }
}

/// The raw selector that takes effect: a non-empty option, then a non-empty
/// environment value, then none.
pub open spec fn effective_selector(
    explicit: Option<Seq<u8>>,
    environment: Option<Seq<u8>>,
) -> Option<Seq<u8>> {
    match explicit {
        Some(value) if value.len() > 0 => Some(value),
        _ => match environment {
            Some(value) if value.len() > 0 => Some(value),
            _ => None,
        },
    }
}

/// The bytes of an optional byte string.
pub open spec fn optional_bytes(value: Option<Vec<u8>>) -> Option<Seq<u8>> {
    match value {
        Some(bytes) => Some(bytes@),
        None => None,
    }
}

impl Account {
    /// Selects the account named by the option value, or else by the value of
    /// `OP_ACCOUNT`. An empty value counts as absent, and the value that takes
    /// effect must be UTF-8.
    pub fn select(explicit: Option<Vec<u8>>, environment: Option<Vec<u8>>) -> (selected: Result<
        Account,
        &'static str,
    >)
        ensures
            match effective_selector(optional_bytes(explicit), optional_bytes(environment)) {
                None => selected matches Ok(account) && account@ is None,
                Some(raw) => if valid_utf8(raw) {
                    selected matches Ok(account) && account@ == Some(decode_utf8(raw))
                } else {
                    selected matches Err(message) && message@
                        == "account selectors must be valid UTF-8"@
                },
            },
    {
        if let Some(value) = explicit {
            if value.len() > 0 {
                return utf8(value);
            }
        }
        if let Some(value) = environment {
            if value.len() > 0 {
                return utf8(value);
            }
        }
        Ok(Account(None))
    }

    /// The selector, where one was given.
    pub fn explicit(&self) -> (selector: Option<&str>)
        ensures
            match selector {
                Some(text) => self@ == Some(text@),
                None => self@ is None,
            },
    {
        match &self.0 {
            Some(selector) => Some(selector.as_str()),
            None => None,
        }
    }

    /// Whether two accounts have the same selector, letter for letter.
    pub fn same(&self, other: &Account) -> (same: bool)
        ensures
            same == (self@ == other@),
    {
        match (&self.0, &other.0) {
            (Some(left), Some(right)) => *left == *right,
            (None, None) => true,
            _ => false,
        }
    }
}

/// The account that a raw selector names.
fn utf8(value: Vec<u8>) -> (account: Result<Account, &'static str>)
    ensures
        if valid_utf8(value@) {
            account matches Ok(account) && account@ == Some(decode_utf8(value@))
        } else {
            account matches Err(message) && message@ == "account selectors must be valid UTF-8"@
        },
{
    match utf8_text(value) {
        Some(selector) => Ok(Account(Some(selector))),
        None => Err("account selectors must be valid UTF-8"),
    }
}

/// A non-empty option selects the account, whatever the environment says; only
/// without one does a non-empty environment value, and without either there is
/// no selector.
pub proof fn option_comes_before_the_environment(
    option: Option<Seq<u8>>,
    environment: Option<Seq<u8>>,
)
    ensures
        option is Some && option->0.len() > 0 ==> effective_selector(option, environment) == option,
        (option is None || option->0.len() == 0) && environment is Some && environment->0.len() > 0
            ==> effective_selector(option, environment) == environment,
        (option is None || option->0.len() == 0) && (environment is None || environment->0.len()
            == 0) ==> effective_selector(option, environment) is None,
{
}

/// The bytes of a selector name exactly that selector: nothing is folded,
/// trimmed or looked up.
pub proof fn selector_is_exact(selector: Seq<char>)
    requires
        selector.len() > 0,
    ensures
        encode_utf8(selector).len() > 0,
        valid_utf8(encode_utf8(selector)),
        decode_utf8(encode_utf8(selector)) == selector,
{
    vstd::utf8::encode_utf8_valid_utf8(selector);
    vstd::utf8::encode_utf8_decode_utf8(selector);
}

/// An account is seen as its selector, and the default account as none.
pub proof fn accounts_are_seen_whole(account: Account)
    ensures
        account@ is Some <==> account.0 is Some,
        account.0 matches Some(selector) ==> account@ == Some(selector@),
{
}

} // verus!
