//! The replies of the S33 modem, one type for each action.
//!
//! A reply is decoded from the JSON object that the modem files under the
//! action's name. Each field is looked up under its name; a field that is
//! missing or is no string is a decode error, and a delimited field that does
//! not follow its grammar is a malformed field.

use crate::codec::channel_line::{
    channel_lines, channel_parser, channel_views, lemma_table_round_trip, table_text, Channel,
    ChannelView, WrittenRow,
};
use crate::codec::{decode_records, lemma_decode_records};
use crate::codec::duration::{duration_deserializer, duration_of};
use crate::codec::log_line::{
    entry_views, lemma_log_table_round_trip, log_decoder, log_lines, log_parser, log_record,
    log_table_text, LogEntry, WrittenRecord,
};
use crate::codec::timestamp::{timestamp_deserializer, timestamp_of, Timestamp};
use crate::error::{Error, ErrorView};
use crate::json::{Json, JsonView};
use vstd::prelude::*;

verus! {

/// What every reply offers: the status that the modem gave the action.
pub trait HasResult {
    /// The status as a mathematical value.
    spec fn status(&self) -> Seq<char>;

    fn get_result(&self) -> (r: String)
        ensures
            r@ == self.status(),
    ;
}

/// A reply that can be decoded from its JSON object.
pub trait Reply: HasResult + Sized {
    /// The name of the member that holds the status.
    spec fn result_name() -> Seq<char>;

    /// Whether `entry` decodes, and the error where it does not.
    spec fn outcome(entry: JsonView) -> Result<(), ErrorView>;

    /// Whether the fields are what `entry` states.
    spec fn holds(&self, entry: JsonView) -> bool;

    fn from_json(entry: &Json) -> (r: Result<Self, Error>)
        ensures
            match Self::outcome(entry@) {
                Ok(()) => r matches Ok(x) && x.holds(entry@) && entry@.text_member(
                    Self::result_name(),
                ) == Some(x.status()),
                Err(e) => r matches Err(x) && x@ == e,
            },
    ;
}

/// The text of the member `name`, or a decode error where `entry` has no
/// such member or it is no string.
pub fn text_field(entry: &Json, name: &str) -> (r: Result<String, Error>)
    ensures
        match entry@.text_member(name@) {
            Some(t) => r matches Ok(s) && s@ == t,
            None => r matches Err(e) && e@ == ErrorView::DecodeError,
        },
{
    match entry.member(name) {
        Some(member) => match member.text() {
            Some(text) => Ok(text.clone()),
            None => Err(Error::DecodeError),
        },
        None => Err(Error::DecodeError),
    }
}

/// The member `name`, or a decode error where `entry` has none.
pub fn object_field<'a>(entry: &'a Json, name: &str) -> (r: Result<&'a Json, Error>)
    ensures
        match entry@.member(name@) {
            Some(m) => r matches Ok(j) && j@ == m,
            None => r matches Err(e) && e@ == ErrorView::DecodeError,
        },
{
    match entry.member(name) {
        Some(member) => Ok(member),
        None => Err(Error::DecodeError),
    }
}

/// The modem's answer to the credentials.
#[derive(Debug, Clone, PartialEq, Eq)]
pub struct LoginWithChallengeResponse {
    pub result: String,
}

impl HasResult for LoginWithChallengeResponse {
    open spec fn status(&self) -> Seq<char> {
        self.result@
    }

    fn get_result(&self) -> (r: String) {
        self.result.clone()
    }
}

impl Reply for LoginWithChallengeResponse {
    open spec fn result_name() -> Seq<char> {
        "LoginResult"@
    }

    open spec fn outcome(entry: JsonView) -> Result<(), ErrorView> {
        if entry.text_member("LoginResult"@) is Some {
            Ok(())
        } else {
            Err(ErrorView::DecodeError)
        }
    }

    open spec fn holds(&self, entry: JsonView) -> bool {
        &&& entry.text_member("LoginResult"@) == Some(self.status())
    }

    fn from_json(entry: &Json) -> (r: Result<Self, Error>) {
        let result = text_field(entry, "LoginResult")?;
        Ok(LoginWithChallengeResponse { result })
    }
}

/// The modem's answer to the request for a challenge.
#[derive(Debug, Clone, PartialEq, Eq)]
pub struct LoginResponse {
    pub public_key: String,
    pub challenge: String,
    pub cookie: String,
    pub result: String,
}

impl HasResult for LoginResponse {
    open spec fn status(&self) -> Seq<char> {
        self.result@
    }

    fn get_result(&self) -> (r: String) {
        self.result.clone()
    }
}

impl Reply for LoginResponse {
    open spec fn result_name() -> Seq<char> {
        "LoginResult"@
    }

    open spec fn outcome(entry: JsonView) -> Result<(), ErrorView> {
        if entry.text_member("PublicKey"@) is Some
            && entry.text_member("Challenge"@) is Some
            && entry.text_member("Cookie"@) is Some
            && entry.text_member("LoginResult"@) is Some {
            Ok(())
        } else {
            Err(ErrorView::DecodeError)
        }
    }

    open spec fn holds(&self, entry: JsonView) -> bool {
        &&& entry.text_member("PublicKey"@) == Some(self.public_key@)
        &&& entry.text_member("Challenge"@) == Some(self.challenge@)
        &&& entry.text_member("Cookie"@) == Some(self.cookie@)
        &&& entry.text_member("LoginResult"@) == Some(self.status())
    }

    fn from_json(entry: &Json) -> (r: Result<Self, Error>) {
        let public_key = text_field(entry, "PublicKey")?;
        let challenge = text_field(entry, "Challenge")?;
        let cookie = text_field(entry, "Cookie")?;
        let result = text_field(entry, "LoginResult")?;
        Ok(LoginResponse { public_key, challenge, cookie, result })
    }
}

/// How far the modem got in starting up.
#[derive(Debug, Clone, PartialEq, Eq)]
pub struct StatusStartupSequenceResponse {
    pub customer_conn_d_s_freq: String,
    pub customer_conn_d_s_comment: String,
    pub customer_conn_connectivity_status: String,
    pub customer_conn_connectivity_comment: String,
    pub customer_conn_boot_status: String,
    pub customer_conn_boot_comment: String,
    pub customer_conn_configuration_file_status: String,
    pub customer_conn_configuration_file_comment: String,
    pub customer_conn_security_status: String,
    pub customer_conn_security_comment: String,
    pub result: String,
}

impl HasResult for StatusStartupSequenceResponse {
    open spec fn status(&self) -> Seq<char> {
        self.result@
    }

    fn get_result(&self) -> (r: String) {
        self.result.clone()
    }
}

impl Reply for StatusStartupSequenceResponse {
    open spec fn result_name() -> Seq<char> {
        "GetCustomerStatusStartupSequenceResult"@
    }

    open spec fn outcome(entry: JsonView) -> Result<(), ErrorView> {
        if entry.text_member("CustomerConnDSFreq"@) is Some
            && entry.text_member("CustomerConnDSComment"@) is Some
            && entry.text_member("CustomerConnConnectivityStatus"@) is Some
            && entry.text_member("CustomerConnConnectivityComment"@) is Some
            && entry.text_member("CustomerConnBootStatus"@) is Some
            && entry.text_member("CustomerConnBootComment"@) is Some
            && entry.text_member("CustomerConnConfigurationFileStatus"@) is Some
            && entry.text_member("CustomerConnConfigurationFileComment"@) is Some
            && entry.text_member("CustomerConnSecurityStatus"@) is Some
            && entry.text_member("CustomerConnSecurityComment"@) is Some
            && entry.text_member("GetCustomerStatusStartupSequenceResult"@) is Some {
            Ok(())
        } else {
            Err(ErrorView::DecodeError)
        }
    }

    open spec fn holds(&self, entry: JsonView) -> bool {
        &&& entry.text_member("CustomerConnDSFreq"@) == Some(self.customer_conn_d_s_freq@)
        &&& entry.text_member("CustomerConnDSComment"@) == Some(self.customer_conn_d_s_comment@)
        &&& entry.text_member("CustomerConnConnectivityStatus"@) == Some(self.customer_conn_connectivity_status@)
        &&& entry.text_member("CustomerConnConnectivityComment"@) == Some(self.customer_conn_connectivity_comment@)
        &&& entry.text_member("CustomerConnBootStatus"@) == Some(self.customer_conn_boot_status@)
        &&& entry.text_member("CustomerConnBootComment"@) == Some(self.customer_conn_boot_comment@)
        &&& entry.text_member("CustomerConnConfigurationFileStatus"@) == Some(self.customer_conn_configuration_file_status@)
        &&& entry.text_member("CustomerConnConfigurationFileComment"@) == Some(self.customer_conn_configuration_file_comment@)
        &&& entry.text_member("CustomerConnSecurityStatus"@) == Some(self.customer_conn_security_status@)
        &&& entry.text_member("CustomerConnSecurityComment"@) == Some(self.customer_conn_security_comment@)
        &&& entry.text_member("GetCustomerStatusStartupSequenceResult"@) == Some(self.status())
    }

    fn from_json(entry: &Json) -> (r: Result<Self, Error>) {
        let customer_conn_d_s_freq = text_field(entry, "CustomerConnDSFreq")?;
        let customer_conn_d_s_comment = text_field(entry, "CustomerConnDSComment")?;
        let customer_conn_connectivity_status = text_field(entry, "CustomerConnConnectivityStatus")?;
        let customer_conn_connectivity_comment = text_field(entry, "CustomerConnConnectivityComment")?;
        let customer_conn_boot_status = text_field(entry, "CustomerConnBootStatus")?;
        let customer_conn_boot_comment = text_field(entry, "CustomerConnBootComment")?;
        let customer_conn_configuration_file_status = text_field(entry, "CustomerConnConfigurationFileStatus")?;
        let customer_conn_configuration_file_comment = text_field(entry, "CustomerConnConfigurationFileComment")?;
        let customer_conn_security_status = text_field(entry, "CustomerConnSecurityStatus")?;
        let customer_conn_security_comment = text_field(entry, "CustomerConnSecurityComment")?;
        let result = text_field(entry, "GetCustomerStatusStartupSequenceResult")?;
        Ok(StatusStartupSequenceResponse { customer_conn_d_s_freq, customer_conn_d_s_comment, customer_conn_connectivity_status, customer_conn_connectivity_comment, customer_conn_boot_status, customer_conn_boot_comment, customer_conn_configuration_file_status, customer_conn_configuration_file_comment, customer_conn_security_status, customer_conn_security_comment, result })
    }
}

/// The modem's summary of itself.
#[derive(Debug, Clone, PartialEq, Eq)]
pub struct ArrisDeviceStatusResponse {
    pub firmware_version: String,
    pub internet_connection: String,
    pub downstream_frequency: String,
    pub downstream_signal_power: String,
    pub downstream_signal_snr: String,
    pub result: String,
}

impl HasResult for ArrisDeviceStatusResponse {
    open spec fn status(&self) -> Seq<char> {
        self.result@
    }

    fn get_result(&self) -> (r: String) {
        self.result.clone()
    }
}

impl Reply for ArrisDeviceStatusResponse {
    open spec fn result_name() -> Seq<char> {
        "GetArrisDeviceStatusResult"@
    }

    open spec fn outcome(entry: JsonView) -> Result<(), ErrorView> {
        if entry.text_member("FirmwareVersion"@) is Some
            && entry.text_member("InternetConnection"@) is Some
            && entry.text_member("DownstreamFrequency"@) is Some
            && entry.text_member("DownstreamSignalPower"@) is Some
            && entry.text_member("DownstreamSignalSnr"@) is Some
            && entry.text_member("GetArrisDeviceStatusResult"@) is Some {
            Ok(())
        } else {
            Err(ErrorView::DecodeError)
        }
    }

    open spec fn holds(&self, entry: JsonView) -> bool {
        &&& entry.text_member("FirmwareVersion"@) == Some(self.firmware_version@)
        &&& entry.text_member("InternetConnection"@) == Some(self.internet_connection@)
        &&& entry.text_member("DownstreamFrequency"@) == Some(self.downstream_frequency@)
        &&& entry.text_member("DownstreamSignalPower"@) == Some(self.downstream_signal_power@)
        &&& entry.text_member("DownstreamSignalSnr"@) == Some(self.downstream_signal_snr@)
        &&& entry.text_member("GetArrisDeviceStatusResult"@) == Some(self.status())
    }

    fn from_json(entry: &Json) -> (r: Result<Self, Error>) {
        let firmware_version = text_field(entry, "FirmwareVersion")?;
        let internet_connection = text_field(entry, "InternetConnection")?;
        let downstream_frequency = text_field(entry, "DownstreamFrequency")?;
        let downstream_signal_power = text_field(entry, "DownstreamSignalPower")?;
        let downstream_signal_snr = text_field(entry, "DownstreamSignalSnr")?;
        let result = text_field(entry, "GetArrisDeviceStatusResult")?;
        Ok(ArrisDeviceStatusResponse { firmware_version, internet_connection, downstream_frequency, downstream_signal_power, downstream_signal_snr, result })
    }
}

/// The modem's identity.
#[derive(Debug, Clone, PartialEq, Eq)]
pub struct ArrisRegisterInfoResponse {
    pub mac_address: String,
    pub serial_number: String,
    pub model_name: String,
    pub result: String,
}

impl HasResult for ArrisRegisterInfoResponse {
    open spec fn status(&self) -> Seq<char> {
        self.result@
    }

    fn get_result(&self) -> (r: String) {
        self.result.clone()
    }
}

impl Reply for ArrisRegisterInfoResponse {
    open spec fn result_name() -> Seq<char> {
        "GetArrisRegisterInfoResult"@
    }

    open spec fn outcome(entry: JsonView) -> Result<(), ErrorView> {
        if entry.text_member("MacAddress"@) is Some
            && entry.text_member("SerialNumber"@) is Some
            && entry.text_member("ModelName"@) is Some
            && entry.text_member("GetArrisRegisterInfoResult"@) is Some {
            Ok(())
        } else {
            Err(ErrorView::DecodeError)
        }
    }

    open spec fn holds(&self, entry: JsonView) -> bool {
        &&& entry.text_member("MacAddress"@) == Some(self.mac_address@)
        &&& entry.text_member("SerialNumber"@) == Some(self.serial_number@)
        &&& entry.text_member("ModelName"@) == Some(self.model_name@)
        &&& entry.text_member("GetArrisRegisterInfoResult"@) == Some(self.status())
    }

    fn from_json(entry: &Json) -> (r: Result<Self, Error>) {
        let mac_address = text_field(entry, "MacAddress")?;
        let serial_number = text_field(entry, "SerialNumber")?;
        let model_name = text_field(entry, "ModelName")?;
        let result = text_field(entry, "GetArrisRegisterInfoResult")?;
        Ok(ArrisRegisterInfoResponse { mac_address, serial_number, model_name, result })
    }
}

/// The modem's up time, its clock and whether it lets traffic through.
#[derive(Debug, Clone, PartialEq, Eq)]
pub struct StatusConnectionInfoResponse {
    /// The up time in whole seconds.
    pub customer_conn_system_up_time: u64,
    pub customer_cur_system_time: Timestamp,
    pub customer_conn_network_access: String,
    pub result: String,
}

impl HasResult for StatusConnectionInfoResponse {
    open spec fn status(&self) -> Seq<char> {
        self.result@
    }

    fn get_result(&self) -> (r: String) {
        self.result.clone()
    }
}

impl Reply for StatusConnectionInfoResponse {
    open spec fn result_name() -> Seq<char> {
        "GetCustomerStatusConnectionInfoResult"@
    }

    open spec fn outcome(entry: JsonView) -> Result<(), ErrorView> {
        match entry.text_member("CustomerConnSystemUpTime"@) {
            None => Err(ErrorView::DecodeError),
            Some(up_time) => if duration_of(up_time) is None {
                Err(ErrorView::MalformedField(up_time))
            } else {
                match entry.text_member("CustomerCurSystemTime"@) {
                    None => Err(ErrorView::DecodeError),
                    Some(time) => if timestamp_of(time) is None {
                        Err(ErrorView::MalformedField(time))
                    } else if entry.text_member("CustomerConnNetworkAccess"@) is Some
                        && entry.text_member("GetCustomerStatusConnectionInfoResult"@) is Some {
                        Ok(())
                    } else {
                        Err(ErrorView::DecodeError)
                    },
                }
            },
        }
    }

    open spec fn holds(&self, entry: JsonView) -> bool {
        &&& entry.text_member("CustomerConnSystemUpTime"@) matches Some(up_time) && duration_of(
            up_time,
        ) == Some(self.customer_conn_system_up_time as nat)
        &&& entry.text_member("CustomerCurSystemTime"@) matches Some(time) && timestamp_of(time)
            == Some(self.customer_cur_system_time)
        &&& entry.text_member("CustomerConnNetworkAccess"@) == Some(
            self.customer_conn_network_access@,
        )
        &&& entry.text_member("GetCustomerStatusConnectionInfoResult"@) == Some(self.status())
    }

    fn from_json(entry: &Json) -> (r: Result<Self, Error>) {
        let up_time = text_field(entry, "CustomerConnSystemUpTime")?;
        let customer_conn_system_up_time = duration_deserializer(up_time.as_str())?;
        let time = text_field(entry, "CustomerCurSystemTime")?;
        let customer_cur_system_time = timestamp_deserializer(time.as_str())?;
        let customer_conn_network_access = text_field(entry, "CustomerConnNetworkAccess")?;
        let result = text_field(entry, "GetCustomerStatusConnectionInfoResult")?;
        Ok(
            StatusConnectionInfoResponse {
                customer_conn_system_up_time,
                customer_cur_system_time,
                customer_conn_network_access,
                result,
            },
        )
    }
}

/// The table of downstream channels.
#[derive(Debug, Clone, PartialEq, Eq)]
pub struct StatusDownstreamChannelInfo {
    pub customer_conn_downstream_channel: Vec<Channel>,
    pub result: String,
}

impl HasResult for StatusDownstreamChannelInfo {
    open spec fn status(&self) -> Seq<char> {
        self.result@
    }

    fn get_result(&self) -> (r: String) {
        self.result.clone()
    }
}

impl Reply for StatusDownstreamChannelInfo {
    open spec fn result_name() -> Seq<char> {
        "GetCustomerStatusDownstreamChannelInfoResult"@
    }

    open spec fn outcome(entry: JsonView) -> Result<(), ErrorView> {
        match entry.text_member("CustomerConnDownstreamChannel"@) {
            None => Err(ErrorView::DecodeError),
            Some(table) => match channel_lines(table) {
                Err(bad) => Err(ErrorView::MalformedField(bad)),
                Ok(_) => if entry.text_member("GetCustomerStatusDownstreamChannelInfoResult"@) is Some {
                    Ok(())
                } else {
                    Err(ErrorView::DecodeError)
                },
            },
        }
    }

    open spec fn holds(&self, entry: JsonView) -> bool {
        &&& entry.text_member("CustomerConnDownstreamChannel"@) matches Some(table) && channel_lines(table) == Ok::<
            _,
            Seq<char>,
        >(channel_views(self.customer_conn_downstream_channel@))
        &&& entry.text_member("GetCustomerStatusDownstreamChannelInfoResult"@) == Some(self.status())
    }

    fn from_json(entry: &Json) -> (r: Result<Self, Error>) {
        let table = text_field(entry, "CustomerConnDownstreamChannel")?;
        let customer_conn_downstream_channel = channel_parser(table.as_str())?;
        let result = text_field(entry, "GetCustomerStatusDownstreamChannelInfoResult")?;
        Ok(StatusDownstreamChannelInfo { customer_conn_downstream_channel, result })
    }
}

/// The table of upstream channels.
#[derive(Debug, Clone, PartialEq, Eq)]
pub struct StatusUpstreamChannelInfo {
    pub customer_conn_upstream_channel: Vec<Channel>,
    pub result: String,
}

impl HasResult for StatusUpstreamChannelInfo {
    open spec fn status(&self) -> Seq<char> {
        self.result@
    }

    fn get_result(&self) -> (r: String) {
        self.result.clone()
    }
}

impl Reply for StatusUpstreamChannelInfo {
    open spec fn result_name() -> Seq<char> {
        "GetCustomerStatusUpstreamChannelInfoResult"@
    }

    open spec fn outcome(entry: JsonView) -> Result<(), ErrorView> {
        match entry.text_member("CustomerConnUpstreamChannel"@) {
            None => Err(ErrorView::DecodeError),
            Some(table) => match channel_lines(table) {
                Err(bad) => Err(ErrorView::MalformedField(bad)),
                Ok(_) => if entry.text_member("GetCustomerStatusUpstreamChannelInfoResult"@) is Some {
                    Ok(())
                } else {
                    Err(ErrorView::DecodeError)
                },
            },
        }
    }

    open spec fn holds(&self, entry: JsonView) -> bool {
        &&& entry.text_member("CustomerConnUpstreamChannel"@) matches Some(table) && channel_lines(table) == Ok::<
            _,
            Seq<char>,
        >(channel_views(self.customer_conn_upstream_channel@))
        &&& entry.text_member("GetCustomerStatusUpstreamChannelInfoResult"@) == Some(self.status())
    }

    fn from_json(entry: &Json) -> (r: Result<Self, Error>) {
        let table = text_field(entry, "CustomerConnUpstreamChannel")?;
        let customer_conn_upstream_channel = channel_parser(table.as_str())?;
        let result = text_field(entry, "GetCustomerStatusUpstreamChannelInfoResult")?;
        Ok(StatusUpstreamChannelInfo { customer_conn_upstream_channel, result })
    }
}

/// The modem's event log.
#[derive(Debug, Clone, PartialEq, Eq)]
pub struct StatusLogResponse {
    pub customer_status_log_list: Vec<LogEntry>,
    pub result: String,
}

impl HasResult for StatusLogResponse {
    open spec fn status(&self) -> Seq<char> {
        self.result@
    }

    fn get_result(&self) -> (r: String) {
        self.result.clone()
    }
}

impl Reply for StatusLogResponse {
    open spec fn result_name() -> Seq<char> {
        "GetCustomerStatusLogResult"@
    }

    open spec fn outcome(entry: JsonView) -> Result<(), ErrorView> {
        match entry.text_member("CustomerStatusLogList"@) {
            None => Err(ErrorView::DecodeError),
            Some(table) => match log_lines(table) {
                Err(bad) => Err(ErrorView::MalformedField(bad)),
                Ok(_) => if entry.text_member("GetCustomerStatusLogResult"@) is Some {
                    Ok(())
                } else {
                    Err(ErrorView::DecodeError)
                },
            },
        }
    }

    open spec fn holds(&self, entry: JsonView) -> bool {
        &&& entry.text_member("CustomerStatusLogList"@) matches Some(table) && log_lines(table) == Ok::<
            _,
            Seq<char>,
        >(entry_views(self.customer_status_log_list@))
        &&& entry.text_member("GetCustomerStatusLogResult"@) == Some(self.status())
    }

    fn from_json(entry: &Json) -> (r: Result<Self, Error>) {
        let table = text_field(entry, "CustomerStatusLogList")?;
        let customer_status_log_list = log_parser(table.as_str())?;
        let result = text_field(entry, "GetCustomerStatusLogResult")?;
        Ok(StatusLogResponse { customer_status_log_list, result })
    }
}

/// All that one poll for metrics brings.
#[derive(Debug, Clone, PartialEq, Eq)]
pub struct GetMultipleHNAPsMetricsResponse {
    pub get_arris_device_status_response: ArrisDeviceStatusResponse,
    pub get_arris_register_info_response: ArrisRegisterInfoResponse,
    pub get_customer_status_connection_info_response: StatusConnectionInfoResponse,
    pub get_customer_status_downstream_channel_info_response: StatusDownstreamChannelInfo,
    pub get_customer_status_upstream_channel_info_response: StatusUpstreamChannelInfo,
    pub get_customer_status_startup_sequence_response: StatusStartupSequenceResponse,
    pub result: String,
}

impl HasResult for GetMultipleHNAPsMetricsResponse {
    open spec fn status(&self) -> Seq<char> {
        self.result@
    }

    fn get_result(&self) -> (r: String) {
        self.result.clone()
    }
}

impl Reply for GetMultipleHNAPsMetricsResponse {
    open spec fn result_name() -> Seq<char> {
        "GetMultipleHNAPsResult"@
    }

    open spec fn outcome(entry: JsonView) -> Result<(), ErrorView> {
        match entry.member("GetArrisDeviceStatusResponse"@) {
            None => Err(ErrorView::DecodeError),
            Some(get_arris_device_status_response) => match ArrisDeviceStatusResponse::outcome(get_arris_device_status_response) {
                Err(e) => Err(e),
                Ok(()) => {
                match entry.member("GetArrisRegisterInfoResponse"@) {
                    None => Err(ErrorView::DecodeError),
                    Some(get_arris_register_info_response) => match ArrisRegisterInfoResponse::outcome(get_arris_register_info_response) {
                        Err(e) => Err(e),
                        Ok(()) => {
                        match entry.member("GetCustomerStatusConnectionInfoResponse"@) {
                            None => Err(ErrorView::DecodeError),
                            Some(get_customer_status_connection_info_response) => match StatusConnectionInfoResponse::outcome(get_customer_status_connection_info_response) {
                                Err(e) => Err(e),
                                Ok(()) => {
                                match entry.member("GetCustomerStatusDownstreamChannelInfoResponse"@) {
                                    None => Err(ErrorView::DecodeError),
                                    Some(get_customer_status_downstream_channel_info_response) => match StatusDownstreamChannelInfo::outcome(get_customer_status_downstream_channel_info_response) {
                                        Err(e) => Err(e),
                                        Ok(()) => {
                                        match entry.member("GetCustomerStatusUpstreamChannelInfoResponse"@) {
                                            None => Err(ErrorView::DecodeError),
                                            Some(get_customer_status_upstream_channel_info_response) => match StatusUpstreamChannelInfo::outcome(get_customer_status_upstream_channel_info_response) {
                                                Err(e) => Err(e),
                                                Ok(()) => {
                                                match entry.member("GetCustomerStatusStartupSequenceResponse"@) {
                                                    None => Err(ErrorView::DecodeError),
                                                    Some(get_customer_status_startup_sequence_response) => match StatusStartupSequenceResponse::outcome(get_customer_status_startup_sequence_response) {
                                                        Err(e) => Err(e),
                                                        Ok(()) => {
                                                        if entry.text_member("GetMultipleHNAPsResult"@) is Some {
                                                            Ok(())
                                                        } else {
                                                            Err(ErrorView::DecodeError)
                                                        }
                                                        },
                                                    },
                                                }
                                                },
                                            },
                                        }
                                        },
                                    },
                                }
                                },
                            },
                        }
                        },
                    },
                }
                },
            },
        }
    }

    open spec fn holds(&self, entry: JsonView) -> bool {
        &&& entry.member("GetArrisDeviceStatusResponse"@) matches Some(sub) && self.get_arris_device_status_response.holds(sub)
        &&& entry.member("GetArrisRegisterInfoResponse"@) matches Some(sub) && self.get_arris_register_info_response.holds(sub)
        &&& entry.member("GetCustomerStatusConnectionInfoResponse"@) matches Some(sub) && self.get_customer_status_connection_info_response.holds(sub)
        &&& entry.member("GetCustomerStatusDownstreamChannelInfoResponse"@) matches Some(sub) && self.get_customer_status_downstream_channel_info_response.holds(sub)
        &&& entry.member("GetCustomerStatusUpstreamChannelInfoResponse"@) matches Some(sub) && self.get_customer_status_upstream_channel_info_response.holds(sub)
        &&& entry.member("GetCustomerStatusStartupSequenceResponse"@) matches Some(sub) && self.get_customer_status_startup_sequence_response.holds(sub)
        &&& entry.text_member("GetMultipleHNAPsResult"@) == Some(self.status())
    }

    fn from_json(entry: &Json) -> (r: Result<Self, Error>) {
        let get_arris_device_status_response = ArrisDeviceStatusResponse::from_json(object_field(entry, "GetArrisDeviceStatusResponse")?)?;
        let get_arris_register_info_response = ArrisRegisterInfoResponse::from_json(object_field(entry, "GetArrisRegisterInfoResponse")?)?;
        let get_customer_status_connection_info_response = StatusConnectionInfoResponse::from_json(object_field(entry, "GetCustomerStatusConnectionInfoResponse")?)?;
        let get_customer_status_downstream_channel_info_response = StatusDownstreamChannelInfo::from_json(object_field(entry, "GetCustomerStatusDownstreamChannelInfoResponse")?)?;
        let get_customer_status_upstream_channel_info_response = StatusUpstreamChannelInfo::from_json(object_field(entry, "GetCustomerStatusUpstreamChannelInfoResponse")?)?;
        let get_customer_status_startup_sequence_response = StatusStartupSequenceResponse::from_json(object_field(entry, "GetCustomerStatusStartupSequenceResponse")?)?;
        let result = text_field(entry, "GetMultipleHNAPsResult")?;
        Ok(GetMultipleHNAPsMetricsResponse {
            get_arris_device_status_response,
            get_arris_register_info_response,
            get_customer_status_connection_info_response,
            get_customer_status_downstream_channel_info_response,
            get_customer_status_upstream_channel_info_response,
            get_customer_status_startup_sequence_response,
            result,
        })
    }
}

/// All that one poll for the log brings.
#[derive(Debug, Clone, PartialEq, Eq)]
pub struct GetMultipleHNAPsLogsResponse {
    pub get_customer_status_log_response: StatusLogResponse,
    pub result: String,
}

impl HasResult for GetMultipleHNAPsLogsResponse {
    open spec fn status(&self) -> Seq<char> {
        self.result@
    }

    fn get_result(&self) -> (r: String) {
        self.result.clone()
    }
}

impl Reply for GetMultipleHNAPsLogsResponse {
    open spec fn result_name() -> Seq<char> {
        "GetMultipleHNAPsResult"@
    }

    open spec fn outcome(entry: JsonView) -> Result<(), ErrorView> {
        match entry.member("GetCustomerStatusLogResponse"@) {
            None => Err(ErrorView::DecodeError),
            Some(get_customer_status_log_response) => match StatusLogResponse::outcome(get_customer_status_log_response) {
                Err(e) => Err(e),
                Ok(()) => {
                if entry.text_member("GetMultipleHNAPsResult"@) is Some {
                    Ok(())
                } else {
                    Err(ErrorView::DecodeError)
                }
                },
            },
        }
    }

    open spec fn holds(&self, entry: JsonView) -> bool {
        &&& entry.member("GetCustomerStatusLogResponse"@) matches Some(sub) && self.get_customer_status_log_response.holds(sub)
        &&& entry.text_member("GetMultipleHNAPsResult"@) == Some(self.status())
    }

    fn from_json(entry: &Json) -> (r: Result<Self, Error>) {
        let get_customer_status_log_response = StatusLogResponse::from_json(object_field(entry, "GetCustomerStatusLogResponse")?)?;
        let result = text_field(entry, "GetMultipleHNAPsResult")?;
        Ok(GetMultipleHNAPsLogsResponse {
            get_customer_status_log_response,
            result,
        })
    }
}

/// The entry of a reply that carries a table of downstream channels and a
/// status.
pub open spec fn downstream_entry(table: Seq<char>, status: Seq<char>) -> JsonView {
    JsonView::Object(
        seq![
            ("CustomerConnDownstreamChannel"@, JsonView::Str(table)),
            ("GetCustomerStatusDownstreamChannelInfoResult"@, JsonView::Str(status)),
        ],
    )
}

/// The entry of a reply that carries a log and a status.
pub open spec fn log_entry(log: Seq<char>, status: Seq<char>) -> JsonView {
    JsonView::Object(
        seq![
            ("CustomerStatusLogList"@, JsonView::Str(log)),
            ("GetCustomerStatusLogResult"@, JsonView::Str(status)),
        ],
    )
}

/// The two members of an entry are found under their names.
proof fn lemma_two_members(
    first: Seq<char>,
    payload: Seq<char>,
    second: Seq<char>,
    status: Seq<char>,
)
    requires
        first != second,
    ensures
        JsonView::Object(
            seq![(first, JsonView::Str(payload)), (second, JsonView::Str(status))],
        ).text_member(first) == Some(payload),
        JsonView::Object(
            seq![(first, JsonView::Str(payload)), (second, JsonView::Str(status))],
        ).text_member(second) == Some(status),
{
    reveal_with_fuel(crate::json::find_member, 3);
}

/// A reply that carries a table which was written from rows decodes, and
/// what it decodes to are the channels that the rows state and the status
/// that it carries.
pub proof fn lemma_downstream_reply_round_trip(
    rows: Seq<WrittenRow>,
    status: Seq<char>,
    reply: StatusDownstreamChannelInfo,
)
    requires
        rows.len() > 0,
        forall|i: int| 0 <= i < rows.len() ==> (#[trigger] rows[i]).can_be_written(),
        reply.holds(downstream_entry(table_text(rows), status)),
    ensures
        StatusDownstreamChannelInfo::outcome(downstream_entry(table_text(rows), status)) == Ok::<
            (),
            ErrorView,
        >(()),
        channel_views(reply.customer_conn_downstream_channel@) == Seq::new(
            rows.len(),
            |i: int| rows[i].stated(),
        ),
        reply.status() == status,
{
    assert("CustomerConnDownstreamChannel"@ != "GetCustomerStatusDownstreamChannelInfoResult"@) by {
        reveal_strlit("CustomerConnDownstreamChannel");
        reveal_strlit("GetCustomerStatusDownstreamChannelInfoResult");
        assert("CustomerConnDownstreamChannel"@[0] == 'C');
        assert("GetCustomerStatusDownstreamChannelInfoResult"@[0] == 'G');
    }
    lemma_two_members(
        "CustomerConnDownstreamChannel"@,
        table_text(rows),
        "GetCustomerStatusDownstreamChannelInfoResult"@,
        status,
    );
    lemma_table_round_trip(rows);
}

/// A reply that carries a log which was written from records is cut into
/// the texts of the records, and what it decodes to is what these texts
/// state: one entry for each record, in their order, with the level and
/// the message as they were written and the point in time that the date
/// and the time state.
pub proof fn lemma_log_reply_round_trip(
    records: Seq<WrittenRecord>,
    status: Seq<char>,
    reply: StatusLogResponse,
)
    requires
        records.len() > 0,
        forall|i: int| 0 <= i < records.len() ==> (#[trigger] records[i]).can_be_written(),
        reply.holds(log_entry(log_table_text(records), status)),
    ensures
        decode_records(Seq::new(records.len(), |i: int| records[i].text()), log_decoder()) == Ok::<
            _,
            Seq<char>,
        >(entry_views(reply.customer_status_log_list@)),
        entry_views(reply.customer_status_log_list@).len() == records.len(),
        forall|i: int|
            0 <= i < records.len() ==> (#[trigger] records[i]).stated() == Some(
                entry_views(reply.customer_status_log_list@)[i],
            ),
        reply.status() == status,
{
    assert("CustomerStatusLogList"@ != "GetCustomerStatusLogResult"@) by {
        reveal_strlit("CustomerStatusLogList");
        reveal_strlit("GetCustomerStatusLogResult");
        assert("CustomerStatusLogList"@[0] == 'C');
        assert("GetCustomerStatusLogResult"@[0] == 'G');
    }
    lemma_two_members(
        "CustomerStatusLogList"@,
        log_table_text(records),
        "GetCustomerStatusLogResult"@,
        status,
    );
    lemma_log_table_round_trip(records);
    let pieces = Seq::new(records.len(), |i: int| records[i].text());
    lemma_decode_records(pieces, log_decoder());
    assert forall|i: int| 0 <= i < records.len() implies (#[trigger] records[i]).stated() == Some(
        entry_views(reply.customer_status_log_list@)[i],
    ) by {
        assert(log_decoder()(pieces[i]) == log_record(records[i].text()));
    }
}

} // verus!
