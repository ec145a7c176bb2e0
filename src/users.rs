//! User accounts and API keys are kept outside the overlay; it reaches them
//! through this lookup.
use vstd::prelude::*;
use crate::types::{RpcMapping, User};

verus! {

/// A store of user accounts.
pub trait UserManager {
    /// Creates a user for the wallet, with a new API key.
    fn create_user(&mut self, wallet_address: &String) -> User;

    /// The user that holds the API key, if any.
    fn get_user_by_api_key(&self, api_key: &String) -> Option<User>;

    /// The user of the wallet, if any.
    fn get_user_by_wallet(&self, wallet_address: &String) -> Option<User>;

    /// Adds an RPC mapping to the user; `false` where no such user exists.
    fn add_rpc_mapping(&mut self, user_id: u128, mapping: RpcMapping) -> bool;

    /// The RPC mappings of the user.
    fn get_rpc_mappings(&self, user_id: u128) -> Vec<RpcMapping>;
}

} // verus!
