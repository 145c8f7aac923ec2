//! Architecture-neutral syscall surface: call numbers, error codes, the saved
//! register context and the user-address boundary.
use vstd::prelude::*;

verus! {

/// Known syscall numbers.
#[derive(Clone, Copy, PartialEq, Eq, Debug, Structural)]
pub enum SyscallNum {
    Exit,
    Write,
    IpcCall,
    IpcRecv,
    IpcReply,
    GetRandom,
    CapRequest,
    HsmAttach,
    HsmDetach,
    HsmEnumerate,
    HsmWrite,
    HsmRelay,
    HsmRead,
    AttestFixtureExport,
    NetworkCapTake,
    AuditCapTake,
    HsmStatus,
}

/// Number of a syscall.
pub open spec fn syscall_num_spec(n: SyscallNum) -> u64 {
    match n {
        SyscallNum::Exit => 0,
        SyscallNum::Write => 1,
        SyscallNum::IpcCall => 2,
        SyscallNum::IpcRecv => 3,
        SyscallNum::IpcReply => 4,
        SyscallNum::GetRandom => 5,
        SyscallNum::CapRequest => 6,
        SyscallNum::HsmAttach => 7,
        SyscallNum::HsmDetach => 8,
        SyscallNum::HsmEnumerate => 9,
        SyscallNum::HsmWrite => 10,
        SyscallNum::HsmRelay => 11,
        SyscallNum::HsmRead => 12,
        SyscallNum::AttestFixtureExport => 13,
        SyscallNum::NetworkCapTake => 14,
        SyscallNum::AuditCapTake => 15,
        SyscallNum::HsmStatus => 16,
    }
}

impl SyscallNum {
    /// Number of the syscall.
    pub fn code(self) -> (r: u64)
        ensures
            r == syscall_num_spec(self),
    {
        match self {
            SyscallNum::Exit => 0,
            SyscallNum::Write => 1,
            SyscallNum::IpcCall => 2,
            SyscallNum::IpcRecv => 3,
            SyscallNum::IpcReply => 4,
            SyscallNum::GetRandom => 5,
            SyscallNum::CapRequest => 6,
            SyscallNum::HsmAttach => 7,
            SyscallNum::HsmDetach => 8,
            SyscallNum::HsmEnumerate => 9,
            SyscallNum::HsmWrite => 10,
            SyscallNum::HsmRelay => 11,
            SyscallNum::HsmRead => 12,
            SyscallNum::AttestFixtureExport => 13,
            SyscallNum::NetworkCapTake => 14,
            SyscallNum::AuditCapTake => 15,
            SyscallNum::HsmStatus => 16,
        }
    }
}

/// Negative error codes returned to user space.
#[derive(Clone, Copy, PartialEq, Eq, Debug, Structural)]
pub enum SyscallError {
    Unknown,
    BadArg,
    BadAddress,
    Denied,
    NoMessage,
    Internal,
}

/// The error's negative code.
pub open spec fn errno(e: SyscallError) -> int {
    match e {
        SyscallError::Unknown => -1,
        SyscallError::BadArg => -2,
        SyscallError::BadAddress => -3,
        SyscallError::Denied => -4,
        SyscallError::NoMessage => -5,
        SyscallError::Internal => -6,
    }
}

/// The error's code as the 64-bit return register holds it (two's complement).
pub open spec fn rax_of(e: SyscallError) -> u64 {
    (0x1_0000_0000_0000_0000 + errno(e)) as u64
}

impl SyscallError {
    /// The negative code in return-register form.
    pub fn as_rax(self) -> (r: u64)
        ensures
            r == rax_of(self),
    {
        match self {
            SyscallError::Unknown => 0xFFFF_FFFF_FFFF_FFFF,
            SyscallError::BadArg => 0xFFFF_FFFF_FFFF_FFFE,
            SyscallError::BadAddress => 0xFFFF_FFFF_FFFF_FFFD,
            SyscallError::Denied => 0xFFFF_FFFF_FFFF_FFFC,
            SyscallError::NoMessage => 0xFFFF_FFFF_FFFF_FFFB,
            SyscallError::Internal => 0xFFFF_FFFF_FFFF_FFFA,
        }
    }
}

/// Registers saved on syscall entry: return address, flags, the call number
/// (and later the result) and six arguments.
#[derive(Clone, Copy)]
pub struct SyscallContext {
    pub pc: u64,
    pub flags: u64,
    pub num: u64,
    pub arg0: u64,
    pub arg1: u64,
    pub arg2: u64,
    pub arg3: u64,
    pub arg4: u64,
    pub arg5: u64,
}

/// Lowest user address (the null page is excluded).
pub const USER_MIN: u64 = 0x1000;
/// End of the lower (user) half.
pub const USER_MAX: u64 = 0x0000_8000_0000_0000;

/// Whether `va` lies in the user range.
pub open spec fn user_address(va: u64) -> bool {
    USER_MIN <= va < USER_MAX
}

/// Whether `va` is a user virtual address (null page excluded).
pub fn is_user_address(va: u64) -> (r: bool)
    ensures
        r == user_address(va),
{
    USER_MIN <= va && va < USER_MAX
}

/// `a + b`, capped at `u64::MAX`.
pub open spec fn sat_add(a: u64, b: u64) -> u64 {
    if a + b > u64::MAX { u64::MAX } else { (a + b) as u64 }
}

/// Whether both ends of the buffer `[ptr, ptr + len)` are user addresses (the
/// end computed with saturation), the check every handler makes before copying.
pub open spec fn user_range(ptr: u64, len: u64) -> bool {
    user_address(ptr) && user_address(sat_add(ptr, len))
}

/// Checks a user buffer as `user_range` says.
pub fn user_range_ok(ptr: u64, len: u64) -> (r: bool)
    ensures
        r == user_range(ptr, len),
{
    let end = if ptr > u64::MAX - len { u64::MAX } else { ptr + len };
    is_user_address(ptr) && is_user_address(end)
}

/// Calls the dispatcher serves in the closed profile; the IPC calls,
/// capability requests, the fixture export and the network capability are
/// answered `Unknown` there.
pub open spec fn served(n: SyscallNum) -> bool {
    match n {
        SyscallNum::IpcCall | SyscallNum::IpcRecv | SyscallNum::IpcReply | SyscallNum::CapRequest
        | SyscallNum::AttestFixtureExport | SyscallNum::NetworkCapTake => false,
        _ => true,
    }
}

/// The handler the dispatcher runs for call number `num`, or `None` when it
/// answers `Unknown`.
pub fn syscall_route(num: u64) -> (r: Option<SyscallNum>)
    ensures
        r matches Some(n) ==> syscall_num_spec(n) == num && served(n),
        r is None ==> forall|n: SyscallNum| syscall_num_spec(n) == num ==> !served(n),
{
    match num {
        0 => Some(SyscallNum::Exit),
        1 => Some(SyscallNum::Write),
        5 => Some(SyscallNum::GetRandom),
        7 => Some(SyscallNum::HsmAttach),
        8 => Some(SyscallNum::HsmDetach),
        9 => Some(SyscallNum::HsmEnumerate),
        10 => Some(SyscallNum::HsmWrite),
        11 => Some(SyscallNum::HsmRelay),
        12 => Some(SyscallNum::HsmRead),
        15 => Some(SyscallNum::AuditCapTake),
        16 => Some(SyscallNum::HsmStatus),
        _ => None,
    }
}

/// Largest buffer `write` accepts.
pub const SYS_WRITE_MAX: u64 = 8192;
/// Largest buffer `getrandom` fills.
pub const SYS_GETRANDOM_MAX: u64 = 4096;

/// Checks of `write(fd, buf, len)` before any copy: only stderr (2), at most
/// 8 KiB, and a user buffer; `Ok` carries the result returned afterwards.
pub fn sys_write_check(fd: u64, buf_ptr: u64, len: u64) -> (r: Result<u64, u64>)
    ensures
        fd != 2 ==> r == Err::<u64, u64>(rax_of(SyscallError::BadArg)),
        fd == 2 && len > SYS_WRITE_MAX ==> r == Err::<u64, u64>(rax_of(SyscallError::BadArg)),
        fd == 2 && len <= SYS_WRITE_MAX && !user_range(buf_ptr, len) ==> r == Err::<u64, u64>(rax_of(SyscallError::BadAddress)),
        fd == 2 && len <= SYS_WRITE_MAX && user_range(buf_ptr, len) ==> r == Ok::<u64, u64>(len),
{
    if fd != 2 {
        return Err(SyscallError::BadArg.as_rax());
    }
    if len > SYS_WRITE_MAX {
        return Err(SyscallError::BadArg.as_rax());
    }
    if !user_range_ok(buf_ptr, len) {
        return Err(SyscallError::BadAddress.as_rax());
    }
    Ok(len)
}

/// Checks of `getrandom(buf, len)` before the buffer is filled: 1 to 4096
/// bytes into a user buffer; `Ok` carries the result returned afterwards.
pub fn sys_getrandom_check(buf_ptr: u64, len: u64) -> (r: Result<u64, u64>)
    ensures
        (len == 0 || len > SYS_GETRANDOM_MAX) ==> r == Err::<u64, u64>(rax_of(SyscallError::BadArg)),
        0 < len <= SYS_GETRANDOM_MAX && !user_range(buf_ptr, len) ==> r == Err::<u64, u64>(rax_of(SyscallError::BadAddress)),
        0 < len <= SYS_GETRANDOM_MAX && user_range(buf_ptr, len) ==> r == Ok::<u64, u64>(len),
{
    if len == 0 || len > SYS_GETRANDOM_MAX {
        return Err(SyscallError::BadArg.as_rax());
    }
    if !user_range_ok(buf_ptr, len) {
        return Err(SyscallError::BadAddress.as_rax());
    }
    Ok(len)
}

} // verus!
