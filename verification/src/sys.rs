//! The platform's constants and its last-error slot, as `libc` and `errno`
//! give them. Nothing here is proved: each item says what it takes on
//! trust.

use vstd::prelude::*;

verus! {

/// `libc::AF_INET`, the address family that tags an IPv4 socket address.
/// Its value differs between platforms, so nothing is claimed of it.
#[verifier::external_body]
pub(crate) fn inet_family() -> (r: i32) {
    libc::AF_INET
}

/// `libc::ECONNREFUSED`, the error code of a refused connection. Its value
/// differs between platforms, so nothing is claimed of it.
#[verifier::external_body]
pub(crate) fn connection_refused_code() -> (r: i32) {
    libc::ECONNREFUSED
}

/// `libc::ENOSYS`, the error code of a function that the system lacks. Its
/// value differs between platforms, so nothing is claimed of it.
#[verifier::external_body]
pub(crate) fn not_supported_code() -> (r: i32) {
    libc::ENOSYS
}

/// `errno::set_errno`: stores `code` as the calling thread's last error.
/// The store is outside what the contracts speak of, so nothing is claimed.
#[verifier::external_body]
pub(crate) fn set_last_error(code: i32) {
    errno::set_errno(errno::Errno(code))
}

} // verus!
