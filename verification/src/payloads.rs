//! The typed replies of the supported modems.

pub mod s33;

pub use crate::codec::channel_line::{Channel, DownstreamChannel, Modulation, UpstreamChannel};
pub use crate::codec::log_line::{Level, LogEntry};
pub use s33::{
    ArrisDeviceStatusResponse, ArrisRegisterInfoResponse, GetMultipleHNAPsLogsResponse,
    GetMultipleHNAPsMetricsResponse, HasResult, LoginResponse, LoginWithChallengeResponse,
    StatusConnectionInfoResponse, StatusDownstreamChannelInfo, StatusLogResponse,
    StatusStartupSequenceResponse, StatusUpstreamChannelInfo,
};
