//! `ioctl` request-code construction for the uinput setup path — the asm-generic `_IOC`
//! encoding `(dir << 30) | (size << 16) | (type << 8) | nr`, computed as the 64-bit request word.
use vstd::prelude::*;

verus! {

pub const IOC_NONE: u64 = 0;
pub const IOC_WRITE: u64 = 1;
pub const IOC_READ: u64 = 2;

/// The asm-generic request number, as a mathematical value.
pub open spec fn ioc_value(dir: u64, ty: u8, nr: u64, size: u64) -> int {
    dir * 0x4000_0000 + size * 0x1_0000 + ty * 0x100 + nr
}

/// `_IOC(dir, type, nr, size)`.
pub fn ioc(dir: u64, ty: u8, nr: u64, size: u64) -> (r: u64)
    requires
        dir < 4,
        nr < 256,
        size < 0x4000,
    ensures
        r == ioc_value(dir, ty, nr, size),
{
    let r = (dir << 30u64) | (size << 16u64) | ((ty as u64) << 8u64) | nr;
    assert(r == dir * 0x4000_0000 + size * 0x1_0000 + (ty as u64) * 0x100 + nr) by (bit_vector)
        requires
            r == (dir << 30u64) | (size << 16u64) | ((ty as u64) << 8u64) | nr,
            dir < 4,
            nr < 256,
            size < 0x4000,
    ;
    r
}

/// `UI_DEV_CREATE = _IO('U', 1)`.
pub const UI_DEV_CREATE: u64 = 0x5501;
/// `UI_DEV_DESTROY = _IO('U', 2)`.
pub const UI_DEV_DESTROY: u64 = 0x5502;
/// `UI_SET_EVBIT = _IOW('U', 100, int)`.
pub const UI_SET_EVBIT: u64 = 0x4004_5564;
/// `UI_SET_KEYBIT = _IOW('U', 101, int)`.
pub const UI_SET_KEYBIT: u64 = 0x4004_5565;
/// `UI_SET_ABSBIT = _IOW('U', 103, int)`.
pub const UI_SET_ABSBIT: u64 = 0x4004_5567;

/// The fixed request constants are exactly the `_IOC` encodings they name.
pub proof fn law_fixed_codes_are_ioc_encodings()
    ensures
        UI_DEV_CREATE == ioc_value(IOC_NONE, 0x55, 1, 0),
        UI_DEV_DESTROY == ioc_value(IOC_NONE, 0x55, 2, 0),
        UI_SET_EVBIT == ioc_value(IOC_WRITE, 0x55, 100, 4),
        UI_SET_KEYBIT == ioc_value(IOC_WRITE, 0x55, 101, 4),
        UI_SET_ABSBIT == ioc_value(IOC_WRITE, 0x55, 103, 4),
{
}

/// `UI_GET_SYSNAME(len)` — read the created device's sysname into a `len`-byte buffer.
pub fn ui_get_sysname(len: usize) -> (r: u64)
    requires
        len < 0x4000,
    ensures
        r == ioc_value(IOC_READ, 0x55, 44, len as u64),
{
    ioc(IOC_READ, 0x55u8, 44, len as u64)
}

} // verus!
