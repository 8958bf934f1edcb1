//! What the cache takes from other crates: shares in percent, random
//! numbers, and the addresses of the program loaders.

use crate::address::Address;
use percentage::PercentageInteger;
use rand::Rng;
use solana_sdk::bpf_loader_upgradeable::UpgradeableLoaderState;
use solana_sdk::epoch_schedule::EpochSchedule;
use solana_sdk::loader_v4::LoaderV4State;
use solana_sdk::pubkey::Pubkey;
use vstd::prelude::*;

verus! {

/// `percentage::PercentageInteger`, a number of percent between 0 and 100.
#[verifier::external_type_specification]
#[verifier::external_body]
pub struct ExPercentageInteger(PercentageInteger);

/// The number of percent that a `PercentageInteger` stands for.
pub uninterp spec fn percentage_value(percentage: PercentageInteger) -> u8;

/// `PercentageInteger::apply_to` on a `usize`: the value times the number of
/// percent, divided by 100 and rounded down. The product is formed in
/// `usize`, so it has to fit; no percentage is beyond 255.
#[verifier::external_body]
pub(crate) fn apply_percentage(percentage: &PercentageInteger, value: usize) -> (share: usize)
    requires
        value * 255 <= usize::MAX,
    ensures
        share == value * percentage_value(*percentage) / 100,
{
    percentage.apply_to(value)
}

/// `Rng::gen_range` on the generator of the current thread, for the range
/// from 0 up to `len`, which must not be empty: some index below `len`.
#[verifier::external_body]
pub(crate) fn random_index(len: usize) -> (index: usize)
    requires
        len > 0,
    ensures
        index < len,
{
    rand::thread_rng().gen_range(0..len)
}


/// The bytes of the address `BPFLoader1111111111111111111111111111111111`.
pub const BPF_LOADER_DEPRECATED_ID: [u8; 32] = [
    2, 168, 246, 145, 78, 136, 161, 107, 189, 35, 149, 133, 95, 100, 4, 217, 180, 244, 86, 183,
    130, 27, 176, 20, 87, 73, 66, 140, 0, 0, 0, 0,
];

/// The bytes of the address `BPFLoader2111111111111111111111111111111111`.
pub const BPF_LOADER_ID: [u8; 32] = [
    2, 168, 246, 145, 78, 136, 161, 110, 57, 90, 225, 40, 148, 143, 250, 105, 86, 147, 55, 104, 24,
    221, 71, 67, 82, 33, 243, 198, 0, 0, 0, 0,
];

/// The bytes of the address `BPFLoaderUpgradeab1e11111111111111111111111`.
pub const BPF_LOADER_UPGRADEABLE_ID: [u8; 32] = [
    2, 168, 246, 145, 78, 136, 161, 176, 226, 16, 21, 62, 247, 99, 174, 43, 0, 194, 185, 61, 22,
    193, 36, 210, 192, 83, 122, 16, 4, 128, 0, 0,
];

/// The bytes of the address `LoaderV411111111111111111111111111111111111`.
pub const LOADER_V4_ID: [u8; 32] = [
    5, 18, 180, 17, 81, 81, 227, 122, 173, 10, 139, 197, 211, 136, 46, 123, 127, 218, 76, 243, 210,
    192, 40, 200, 207, 131, 54, 24, 0, 0, 0, 0,
];

/// `solana_sdk::bpf_loader_deprecated::check_id`: whether the address is
/// that of the first loader, `BPFLoader1111111111111111111111111111111111`.
#[verifier::external_body]
pub(crate) fn is_bpf_loader_deprecated(key: &Address) -> (is_loader: bool)
    ensures
        is_loader == (key.bytes == BPF_LOADER_DEPRECATED_ID),
{
    solana_sdk::bpf_loader_deprecated::check_id(&Pubkey::new_from_array(key.bytes))
}

/// `solana_sdk::bpf_loader::check_id`: whether the address is that of the
/// second loader, `BPFLoader2111111111111111111111111111111111`.
#[verifier::external_body]
pub(crate) fn is_bpf_loader(key: &Address) -> (is_loader: bool)
    ensures
        is_loader == (key.bytes == BPF_LOADER_ID),
{
    solana_sdk::bpf_loader::check_id(&Pubkey::new_from_array(key.bytes))
}

/// `solana_sdk::bpf_loader_upgradeable::check_id`: whether the address is
/// that of the upgradeable loader,
/// `BPFLoaderUpgradeab1e11111111111111111111111`.
#[verifier::external_body]
pub(crate) fn is_bpf_loader_upgradeable(key: &Address) -> (is_loader: bool)
    ensures
        is_loader == (key.bytes == BPF_LOADER_UPGRADEABLE_ID),
{
    solana_sdk::bpf_loader_upgradeable::check_id(&Pubkey::new_from_array(key.bytes))
}

/// `solana_sdk::loader_v4::check_id`: whether the address is that of the
/// fourth loader, `LoaderV411111111111111111111111111111111111`.
#[verifier::external_body]
pub(crate) fn is_loader_v4(key: &Address) -> (is_loader: bool)
    ensures
        is_loader == (key.bytes == LOADER_V4_ID),
{
    solana_sdk::loader_v4::check_id(&Pubkey::new_from_array(key.bytes))
}


/// `solana_sdk::loader_v4::id`: the address of the fourth loader.
#[verifier::external_body]
pub(crate) fn loader_v4_id() -> (key: Address)
    ensures
        key.bytes == LOADER_V4_ID,
{
    Address { bytes: solana_sdk::loader_v4::id().to_bytes() }
}

/// `UpgradeableLoaderState::size_of_programdata_metadata`: the number of
/// bytes that stand before the program in an account of program data, 45.
#[verifier::external_body]
pub(crate) fn size_of_programdata_metadata() -> (size: usize)
    ensures
        size == 45,
{
    UpgradeableLoaderState::size_of_programdata_metadata()
}

/// `LoaderV4State::program_data_offset`: the number of bytes that stand
/// before the program in an account of the fourth loader, 48: a slot, an
/// address and a status of eight bytes.
#[verifier::external_body]
pub(crate) fn program_data_offset() -> (offset: usize)
    ensures
        offset == 48,
{
    LoaderV4State::program_data_offset()
}

/// `solana_sdk::epoch_schedule::EpochSchedule`, which says where epochs
/// begin.
#[verifier::external_type_specification]
#[verifier::external_body]
pub struct ExEpochSchedule(EpochSchedule);

/// The first slot of an epoch under a schedule of epochs.
pub uninterp spec fn first_slot_in_epoch(schedule: EpochSchedule, epoch: u64) -> u64;

/// `EpochSchedule::get_first_slot_in_epoch`.
#[verifier::external_body]
pub(crate) fn get_first_slot_in_epoch(schedule: &EpochSchedule, epoch: u64) -> (slot: u64)
    ensures
        slot == first_slot_in_epoch(*schedule, epoch),
{
    schedule.get_first_slot_in_epoch(epoch)
}

} // verus!
