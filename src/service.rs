//! Which services run, and the TFTP settings they run with.
use vstd::prelude::*;

verus! {

/// Consecutive timeouts a TFTP transfer survives before it is abandoned.
pub const TFTP_MAX_RETRIES: u32 = 10;

/// Settings of the TFTP server. The server is read-only and multiplexes every
/// transfer on its one well-known port.
#[derive(Debug, Clone, Copy, PartialEq, Eq, Structural)]
pub struct TftpSettings {
    pub port: u16,
    pub single_port: bool,
    pub read_only: bool,
    pub overwrite: bool,
    pub clean_on_error: bool,
    pub duplicate_packets: u8,
    pub max_retries: u32,
}

/// What the process starts.
#[derive(Debug, Clone, Copy, PartialEq, Eq, Structural)]
pub struct Plan {
    pub tftp: Option<TftpSettings>,
    pub http_port: Option<u16>,
}

#[derive(Debug, Clone, Copy, PartialEq, Eq, Structural)]
pub enum PlanError {
    /// Both ports are zero: there is nothing to wait for.
    NothingToServe,
    /// TFTP was asked to send each packet zero times.
    NoPacketCopies,
}

pub open spec fn tftp_settings_spec(port: u16, duplicate_packets: u8) -> TftpSettings {
    TftpSettings {
        port,
        single_port: true,
        read_only: true,
        overwrite: false,
        clean_on_error: true,
        duplicate_packets,
        max_retries: TFTP_MAX_RETRIES,
    }
}

/// The settings of a TFTP server on `port`.
pub fn tftp_settings(port: u16, duplicate_packets: u8) -> (r: TftpSettings)
    ensures
        r == tftp_settings_spec(port, duplicate_packets),
{
    TftpSettings {
        port,
        single_port: true,
        read_only: true,
        overwrite: false,
        clean_on_error: true,
        duplicate_packets,
        max_retries: TFTP_MAX_RETRIES,
    }
}

/// Decides what to start from the two ports (zero disables a service) and
/// the TFTP packet copy count. With both ports zero the answer is an error,
/// so that the process ends at once instead of waiting on nothing.
pub fn plan_services(tftp_port: u16, http_port: u16, duplicate_packets: u8) -> (r: Result<
    Plan,
    PlanError,
>)
    ensures
        r == (if tftp_port == 0 && http_port == 0 {
            Err(PlanError::NothingToServe)
        } else if tftp_port != 0 && duplicate_packets == 0 {
            Err(PlanError::NoPacketCopies)
        } else {
            Ok(
                Plan {
                    tftp: if tftp_port != 0 {
                        Some(tftp_settings_spec(tftp_port, duplicate_packets))
                    } else {
                        None
                    },
                    http_port: if http_port != 0 {
                        Some(http_port)
                    } else {
                        None
                    },
                },
            )
        }),
{
    if tftp_port == 0 && http_port == 0 {
        return Err(PlanError::NothingToServe);
    }
    if tftp_port != 0 && duplicate_packets == 0 {
        return Err(PlanError::NoPacketCopies);
    }
    let tftp = if tftp_port != 0 {
        Some(tftp_settings(tftp_port, duplicate_packets))
    } else {
        None
    };
    let http_port = if http_port != 0 {
        Some(http_port)
    } else {
        None
    };
    Ok(Plan { tftp, http_port })
}

} // verus!
