//! Which by-products of executing a transaction are recorded.

use vstd::prelude::*;

verus! {

/// Configuration of the recording capabilities for transaction execution
#[derive(Copy, Clone)]
pub struct ExecutionRecordingConfig {
    pub enable_cpi_recording: bool,
    pub enable_log_recording: bool,
    pub enable_return_data_recording: bool,
}

impl ExecutionRecordingConfig {
    pub fn new_single_setting(option: bool) -> (config: Self)
        ensures
            config.enable_cpi_recording == option,
            config.enable_log_recording == option,
            config.enable_return_data_recording == option,
    {
        ExecutionRecordingConfig {
            enable_return_data_recording: option,
            enable_log_recording: option,
            enable_cpi_recording: option,
        }
    }
}

} // verus!
