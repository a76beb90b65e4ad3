//! The ST7789 panel's command set, and the parameter bytes of its window
//! commands.

use vstd::prelude::*;

verus! {

pub const NOP: u8 = 0x00;
pub const SWRESET: u8 = 0x01;
pub const RDDID: u8 = 0x04;
pub const RDDST: u8 = 0x09;

pub const SLPIN: u8 = 0x10;
pub const SLPOUT: u8 = 0x11;
pub const PTLON: u8 = 0x12;
pub const NORON: u8 = 0x13;

pub const INVOFF: u8 = 0x20;
pub const INVON: u8 = 0x21;
pub const DISPOFF: u8 = 0x28;
pub const DISPON: u8 = 0x29;

pub const CASET: u8 = 0x2A;
pub const RASET: u8 = 0x2B;
pub const RAMWR: u8 = 0x2C;
pub const RAMRD: u8 = 0x2E;

pub const PTLAR: u8 = 0x30;
pub const MADCTL: u8 = 0x36;
pub const COLMOD: u8 = 0x3A;

pub const FRMCTR1: u8 = 0xB1;
pub const FRMCTR2: u8 = 0xB2;
pub const FRMCTR3: u8 = 0xB3;
pub const INVCTR: u8 = 0xB4;
pub const DISSET5: u8 = 0xB6;

pub const GCTRL: u8 = 0xB7;
pub const GTADJ: u8 = 0xB8;
pub const VCOMS: u8 = 0xBB;

pub const LCMCTRL: u8 = 0xC0;
pub const IDSET: u8 = 0xC1;
pub const VDVVRHEN: u8 = 0xC2;
pub const VRHS: u8 = 0xC3;
pub const VDVS: u8 = 0xC4;
pub const VMCTR1: u8 = 0xC5;
pub const FRCTRL2: u8 = 0xC6;
pub const CABCCTRL: u8 = 0xC7;

pub const RDID1: u8 = 0xDA;
pub const RDID2: u8 = 0xDB;
pub const RDID3: u8 = 0xDC;
pub const RDID4: u8 = 0xDD;

pub const GMCTRP1: u8 = 0xE0;
pub const GMCTRN1: u8 = 0xE1;

pub const PWCTR6: u8 = 0xFC;

/// The parameter bytes of a column or row address command for the
/// inclusive range `range`: start, then end, each most significant byte
/// first.
pub fn range_bytes(range: (u16, u16)) -> (b: [u8; 4])
    ensures
        b@ == seq![
            (range.0 / 256) as u8,
            (range.0 % 256) as u8,
            (range.1 / 256) as u8,
            (range.1 % 256) as u8,
        ],
{
    let (start, end) = range;
    let b = [(start >> 8u16) as u8, start as u8, (end >> 8u16) as u8, end as u8];
    assert((start >> 8u16) as u8 == start / 256 && start as u8 == start % 256) by (bit_vector);
    assert((end >> 8u16) as u8 == end / 256 && end as u8 == end % 256) by (bit_vector);
    assert(b@ =~= seq![
        (start / 256) as u8,
        (start % 256) as u8,
        (end / 256) as u8,
        (end % 256) as u8,
    ]);
    b
}

} // verus!
