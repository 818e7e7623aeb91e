//! The platforms on which nothing is known of a port's owners.

use crate::config::profile::text_copy;
use crate::port_owner::Report;
use vstd::prelude::*;

verus! {

/// Whether the process that asks has the rights of the administrator: nothing
/// says so.
pub fn elevated() -> (yes: bool)
    ensures
        !yes,
{
    false
}

/// The processes that hold a port: nothing tells.
pub fn scan(_port: &str) -> (out: Result<Report, String>)
    ensures
        out matches Err(e) && e@ == "此平台尚不支持查找串口占用程序"@,
{
    Err(text_copy("此平台尚不支持查找串口占用程序"))
}

/// Ends a process: there is no way to.
pub fn kill(_pid: u32) -> (out: Result<String, String>)
    ensures
        out matches Err(e) && e@ == "此平台尚不支持结束占用串口的进程"@,
{
    Err(text_copy("此平台尚不支持结束占用串口的进程"))
}

/// Restarts the device under a port: there is no way to.
pub fn release(_port: &str) -> (out: Result<String, String>)
    ensures
        out matches Err(e) && e@ == "此平台尚不支持重启串口设备"@,
{
    Err(text_copy("此平台尚不支持重启串口设备"))
}

} // verus!
