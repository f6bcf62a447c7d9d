//! The C interface of a smart socket, apart from the raw pointers: a null
//! pointer arrives here as `None`, and what each call answers is a plain
//! code.  Sockets made through this interface are held here, never remote.
use vstd::prelude::*;

use crate::devices::{SmartSocket, SocketCall};

verus! {

/// Success.
pub const OK: i32 = 0;
/// The socket pointer was null.
pub const ERR_NULL: i32 = -1;
/// The operation failed.
pub const ERR_OP: i32 = -2;
/// The power answered for a null pointer or a failure: -1 W, in milliwatts.
pub const ERR_POWER: i64 = -1000;

/// A socket held here, made from C arguments; none where the name is
/// missing (a null pointer, or bytes that are no UTF-8).  Any non-zero
/// `is_on` means on.
pub fn socket_create(name: Option<&str>, is_on: i32, power_milliwatts: i64) -> (r: Option<SmartSocket>)
    ensures
        name is None ==> r is None,
        name matches Some(n) ==> (r matches Some(s) && s.spec_name() == n@ && !s.is_remote()
            && s.spec_on() == (is_on != 0) && s.spec_rated() == power_milliwatts),
{
    match name {
        None => None,
        Some(n) => Some(SmartSocket::local(n, is_on != 0, power_milliwatts)),
    }
}

/// The code of a finished switch.
fn switch_code(call: SocketCall<()>) -> (r: i32)
    requires
        call is Done,
    ensures
        call matches SocketCall::Done(res) && r == (if res is Ok { OK } else { ERR_OP }),
{
    match call {
        SocketCall::Done(Ok(())) => OK,
        _ => ERR_OP,
    }
}

/// Switches the socket on: `ERR_NULL` without a socket, else `OK`.
pub fn socket_turn_on(socket: Option<&mut SmartSocket>) -> (r: i32)
    requires
        socket matches Some(s) ==> !s.is_remote(),
    ensures
        socket is None ==> r == ERR_NULL,
        socket matches Some(s) ==> r == OK && final(s).spec_on()
            && final(s).spec_name() == s.spec_name() && final(s).spec_rated() == s.spec_rated()
            && !final(s).is_remote(),
{
    match socket {
        None => ERR_NULL,
        Some(s) => switch_code(s.turn_on()),
    }
}

/// Switches the socket off: `ERR_NULL` without a socket, else `OK`.
pub fn socket_turn_off(socket: Option<&mut SmartSocket>) -> (r: i32)
    requires
        socket matches Some(s) ==> !s.is_remote(),
    ensures
        socket is None ==> r == ERR_NULL,
        socket matches Some(s) ==> r == OK && !final(s).spec_on()
            && final(s).spec_name() == s.spec_name() && final(s).spec_rated() == s.spec_rated()
            && !final(s).is_remote(),
{
    match socket {
        None => ERR_NULL,
        Some(s) => switch_code(s.turn_off()),
    }
}

/// 1 when the socket is on, 0 when off, `ERR_NULL` without a socket.
pub fn socket_is_on(socket: Option<&SmartSocket>) -> (r: i32)
    requires
        socket matches Some(s) ==> !s.is_remote(),
    ensures
        socket is None ==> r == ERR_NULL,
        socket matches Some(s) ==> r == (if s.spec_on() { 1i32 } else { 0i32 }),
{
    match socket {
        None => ERR_NULL,
        Some(s) => match s.is_on() {
            SocketCall::Done(Ok(true)) => 1,
            SocketCall::Done(Ok(false)) => 0,
            _ => ERR_OP,
        },
    }
}

/// The power drawn, in milliwatts; `ERR_POWER` without a socket.
pub fn socket_power(socket: Option<&SmartSocket>) -> (r: i64)
    requires
        socket matches Some(s) ==> !s.is_remote(),
    ensures
        socket is None ==> r == ERR_POWER,
        socket matches Some(s) ==> r == s.spec_power(),
{
    match socket {
        None => ERR_POWER,
        Some(s) => match s.current_power() {
            SocketCall::Done(Ok(p)) => p,
            _ => ERR_POWER,
        },
    }
}

} // verus!
