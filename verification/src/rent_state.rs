//! How an account stands towards rent, and which changes of that standing a
//! transaction may cause.

use vstd::prelude::*;

verus! {

#[derive(Debug, PartialEq, Eq, Structural)]
pub enum RentState {
    /// The account holds no lamports.
    Uninitialized,
    /// The account holds lamports, but fewer than the rent-exempt minimum.
    RentPaying {
        lamports: u64,
        data_size: usize,
    },
    /// The account holds at least the rent-exempt minimum.
    RentExempt,
}

impl RentState {
    /// A transaction may leave an account in state `post` after finding it in
    /// state `pre` unless `post` is rent-paying and the account was not
    /// rent-paying before, was resized, or was credited.
    pub open spec fn allowed(post: RentState, pre: RentState) -> bool {
        match post {
            RentState::Uninitialized | RentState::RentExempt => true,
            RentState::RentPaying { lamports: post_lamports, data_size: post_data_size } => {
                match pre {
                    RentState::Uninitialized | RentState::RentExempt => false,
                    RentState::RentPaying { lamports: pre_lamports, data_size: pre_data_size } => {
                        post_data_size == pre_data_size && post_lamports <= pre_lamports
                    },
                }
            },
        }
    }

    /// Check whether a transition from the pre_rent_state to this
    /// state is valid.
    pub fn transition_allowed_from(&self, pre_rent_state: &RentState) -> (allowed: bool)
        ensures
            allowed == Self::allowed(*self, *pre_rent_state),
    {
        match self {
            RentState::Uninitialized | RentState::RentExempt => true,
            RentState::RentPaying { lamports: post_lamports, data_size: post_data_size } => {
                match pre_rent_state {
                    RentState::Uninitialized | RentState::RentExempt => false,
                    RentState::RentPaying { lamports: pre_lamports, data_size: pre_data_size } => {
                        // Cannot remain RentPaying if resized or credited.
                        *post_data_size == *pre_data_size && *post_lamports <= *pre_lamports
                    },
                }
            },
        }
    }
}

} // verus!
