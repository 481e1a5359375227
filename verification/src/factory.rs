//! The factory: validates and prices requests to stand up new pools, and
//! decides how a failed provisioning attempt is compensated.
//!
//! The factory itself performs no remote work. A successful
//! `deploy_new_brawl` call returns a `ProvisionRequest` describing the one
//! combined remote operation the host must issue — create the sub-identity,
//! move the attached funding to it, install the factory's code and invoke the
//! new pool's `init` entry point. Whatever that operation's outcome, the host
//! then reports it to `deploy_new_brawl_callback`, which decides whether a
//! compensating refund is owed.

use vstd::prelude::*;
use crate::account::{derive_sub_account, is_valid_account_id, valid_account_id};
use crate::errors::BrawlError;

verus! {

/// Funding required per byte of installed code.
pub const NEAR_PER_STORAGE: u128 = 10_000_000_000_000_000_000;

/// Fixed margin added on top of the storage cost of the installed code.
pub const CREATION_MARGIN: u128 = 100_000_000_000_000_000_000_000;

/// One teragas, the unit the provisioning call's execution budget is set in.
pub const TGAS: u64 = 1_000_000_000_000;

/// The least funding a deployment request must attach: the storage cost of
/// the code to install plus a fixed margin.
pub open spec fn minimum_needed(code_len: nat) -> int {
    code_len * NEAR_PER_STORAGE + CREATION_MARGIN
}

/// The combined remote operation that stands up one new pool: create
/// `sub_account`, fund it with `funding`, install the factory's code into it
/// and invoke its initialization entry point with `owner`, `title`, `id` and
/// `options`, under an execution budget of `gas`.
pub struct ProvisionRequest {
    pub sub_account: String,
    pub funding: u128,
    pub owner: String,
    pub title: String,
    pub id: String,
    pub options: Vec<String>,
    pub gas: u64,
}

/// A value transfer the host must carry out.
pub struct Transfer {
    pub to: String,
    pub amount: u128,
}

/// The factory: holds the code installed into each newly provisioned pool.
pub struct Contract {
    pub code: Vec<u8>,
}

impl Contract {
    /// The factory's code is small enough that its storage cost, plus the
    /// fixed margin, fits the funding arithmetic.
    pub open spec fn wf(self) -> bool {
        minimum_needed(self.code@.len()) <= u128::MAX
    }

    /// Why a deployment request would be rejected, if it would: first the
    /// derived sub-identity is checked, then the attached funding.
    pub open spec fn deploy_error(
        self,
        id: Seq<char>,
        factory_account: Seq<char>,
        attached: u128,
    ) -> Option<BrawlError> {
        if !valid_account_id(id + seq!['.'] + factory_account) {
            Some(BrawlError::Identity)
        } else if (attached as int) < minimum_needed(self.code@.len()) {
            Some(BrawlError::Value)
        } else {
            None
        }
    }

    /// Validates and prices a deployment request by `caller`, attaching
    /// `attached` funding, on a factory living at `factory_account`. On
    /// success the returned request carries everything the host needs to
    /// issue the provisioning operation; a rejection is synchronous and no
    /// provisioning is attempted.
    pub fn deploy_new_brawl(
        &self,
        title: String,
        id: String,
        options: Vec<String>,
        caller: String,
        attached: u128,
        factory_account: String,
    ) -> (r: Result<ProvisionRequest, BrawlError>)
        requires
            self.wf(),
        ensures
            match r {
                Ok(req) => {
                    &&& self.deploy_error(id@, factory_account@, attached) is None
                    &&& req.sub_account@ == id@ + seq!['.'] + factory_account@
                    &&& req.funding == attached
                    &&& req.owner == caller
                    &&& req.title == title
                    &&& req.id == id
                    &&& req.options == options
                    &&& req.gas == 5 * TGAS
                },
                Err(e) => self.deploy_error(id@, factory_account@, attached) == Some(e),
            },
    {
        let sub_account = derive_sub_account(id.as_str(), factory_account.as_str());
        if !is_valid_account_id(sub_account.as_str()) {
            return Err(BrawlError::Identity);
        }
        let storage_cost = (self.code.len() as u128) * NEAR_PER_STORAGE;
        let minimum = storage_cost + CREATION_MARGIN;
        if attached < minimum {
            return Err(BrawlError::Value);
        }
        Ok(
            ProvisionRequest {
                sub_account,
                funding: attached,
                owner: caller,
                title,
                id,
                options,
                gas: 5 * TGAS,
            },
        )
    }

    /// Reconciles the outcome the host reports for a provisioning operation
    /// issued for `account`, requested by `user` with `attached` funding.
    /// On success nothing moves; on failure the whole attached funding is
    /// owed back to `user` (the partially created sub-identity is left as
    /// the failure left it). The returned flag is what the factory reports.
    pub fn deploy_new_brawl_callback(
        &mut self,
        account: String,
        user: String,
        attached: u128,
        create_deploy_succeeded: bool,
    ) -> (r: (bool, Option<Transfer>))
        ensures
            *final(self) == *old(self),
            create_deploy_succeeded ==> r.0 == true && r.1 is None,
            !create_deploy_succeeded ==> r.0 == false && (r.1 matches Some(t) && t.to == user
                && t.amount == attached),
    {
        if create_deploy_succeeded {
            (true, None)
        } else {
            (false, Some(Transfer { to: user, amount: attached }))
        }
    }
}

/// A deployment request attaching less than the required minimum is rejected
/// synchronously, whatever its metadata, before any provisioning is
/// attempted.
pub proof fn lemma_underfunded_deploy_fails(
    factory: Contract,
    id: Seq<char>,
    factory_account: Seq<char>,
    attached: u128,
)
    requires
        valid_account_id(id + seq!['.'] + factory_account),
        (attached as int) < minimum_needed(factory.code@.len()),
    ensures
        factory.deploy_error(id, factory_account, attached) == Some(BrawlError::Value),
{
}

} // verus!
