use vstd::prelude::*;

use crate::bus::{bus_wf, Bus, BusView};
use crate::display::{draw_collides, draw_rows, lemma_blit_y_wraps, zero_screen, HEIGHT};
use crate::ram::{GLYPH_BYTES, MEM_SIZE, PROGRAM_START};
use crate::timer::timer_observed;

verus! {

/// Number of general-purpose registers.
pub const NUM_REGS: usize = 16;

/// A fatal interpreter error: the offending program counter and the raw
/// opcode or address are reported to aid debugging.
#[derive(Clone, Copy, Debug, PartialEq, Eq, Structural)]
pub enum ExecError {
    /// The opcode bit pattern is not in the instruction catalogue.
    UnrecognizedOpcode { pc: u16, opcode: u16 },
    /// A return was executed with an empty call stack.
    StackUnderflow { pc: u16, opcode: u16 },
    /// A read or write touched an address outside the memory array.
    OutOfBoundsAccess { pc: u16, address: u16 },
}

/// Mathematical view of the register file: the sixteen general registers,
/// the program counter, the index register and the call-return stack.
#[verifier::ext_equal]
pub ghost struct CpuView {
    pub vx: Seq<u8>,
    pub pc: u16,
    pub i: u16,
    pub ret: Seq<u16>,
}

/// A well-formed register file holds exactly sixteen registers.
pub open spec fn cpu_wf(c: CpuView) -> bool {
    c.vx.len() == NUM_REGS
}

/// One decoded operation of the instruction set.
#[derive(Clone, Copy, Debug)]
pub enum Instr {
    ClearScreen,
    Ret,
    Jump { nnn: u16 },
    Call { nnn: u16 },
    SkipEqImm { x: u8, nn: u8 },
    SkipNeImm { x: u8, nn: u8 },
    SkipEqReg { x: u8, y: u8 },
    SetImm { x: u8, nn: u8 },
    AddImm { x: u8, nn: u8 },
    Assign { x: u8, y: u8 },
    Or { x: u8, y: u8 },
    And { x: u8, y: u8 },
    Xor { x: u8, y: u8 },
    AddReg { x: u8, y: u8 },
    SubReg { x: u8, y: u8 },
    ShiftRight { x: u8 },
    SubRev { x: u8, y: u8 },
    ShiftLeft { x: u8 },
    SkipNeReg { x: u8, y: u8 },
    SetIndex { nnn: u16 },
    JumpV0 { nnn: u16 },
    Random { x: u8, nn: u8 },
    Draw { x: u8, y: u8, n: u8 },
    SkipKey { x: u8 },
    SkipNoKey { x: u8 },
    ReadTimer { x: u8 },
    WaitKey { x: u8 },
    SetTimer { x: u8 },
    SetSoundTimer { x: u8 },
    AddIndex { x: u8 },
    GlyphAddr { x: u8 },
    StoreBcd { x: u8 },
    StoreRegs { x: u8 },
    LoadRegs { x: u8 },
}

/// The low 12 bits of an opcode: an address.
pub open spec fn op_nnn(op: u16) -> u16 {
    op & 0x0fff
}

/// The low 8 bits of an opcode: an immediate.
pub open spec fn op_nn(op: u16) -> u8 {
    (op & 0x00ff) as u8
}

/// The low 4 bits of an opcode.
pub open spec fn op_n(op: u16) -> u8 {
    (op & 0x000f) as u8
}

/// Bits 8 to 11 of an opcode: the first register index.
pub open spec fn op_x(op: u16) -> u8 {
    ((op >> 8) & 0xf) as u8
}

/// Bits 4 to 7 of an opcode: the second register index.
pub open spec fn op_y(op: u16) -> u8 {
    ((op >> 4) & 0xf) as u8
}

/// Decode a 16-bit opcode into an operation; any bit pattern outside the
/// catalogue decodes to nothing and is a fatal error when executed.
pub open spec fn decode(op: u16) -> Option<Instr> {
    let nnn = op_nnn(op);
    let nn = op_nn(op);
    let n = op_n(op);
    let x = op_x(op);
    let y = op_y(op);
    let hi = op >> 12;
    if op == 0x00E0 {
        Some(Instr::ClearScreen)
    } else if op == 0x00EE {
        Some(Instr::Ret)
    } else if hi == 0x1 {
        Some(Instr::Jump { nnn })
    } else if hi == 0x2 {
        Some(Instr::Call { nnn })
    } else if hi == 0x3 {
        Some(Instr::SkipEqImm { x, nn })
    } else if hi == 0x4 {
        Some(Instr::SkipNeImm { x, nn })
    } else if hi == 0x5 && n == 0x0 {
        Some(Instr::SkipEqReg { x, y })
    } else if hi == 0x6 {
        Some(Instr::SetImm { x, nn })
    } else if hi == 0x7 {
        Some(Instr::AddImm { x, nn })
    } else if hi == 0x8 && n == 0x0 {
        Some(Instr::Assign { x, y })
    } else if hi == 0x8 && n == 0x1 {
        Some(Instr::Or { x, y })
    } else if hi == 0x8 && n == 0x2 {
        Some(Instr::And { x, y })
    } else if hi == 0x8 && n == 0x3 {
        Some(Instr::Xor { x, y })
    } else if hi == 0x8 && n == 0x4 {
        Some(Instr::AddReg { x, y })
    } else if hi == 0x8 && n == 0x5 {
        Some(Instr::SubReg { x, y })
    } else if hi == 0x8 && n == 0x6 {
        Some(Instr::ShiftRight { x })
    } else if hi == 0x8 && n == 0x7 {
        Some(Instr::SubRev { x, y })
    } else if hi == 0x8 && n == 0xe {
        Some(Instr::ShiftLeft { x })
    } else if hi == 0x9 && n == 0x0 {
        Some(Instr::SkipNeReg { x, y })
    } else if hi == 0xa {
        Some(Instr::SetIndex { nnn })
    } else if hi == 0xb {
        Some(Instr::JumpV0 { nnn })
    } else if hi == 0xc {
        Some(Instr::Random { x, nn })
    } else if hi == 0xd {
        Some(Instr::Draw { x, y, n })
    } else if hi == 0xe && nn == 0x9e {
        Some(Instr::SkipKey { x })
    } else if hi == 0xe && nn == 0xa1 {
        Some(Instr::SkipNoKey { x })
    } else if hi == 0xf && nn == 0x07 {
        Some(Instr::ReadTimer { x })
    } else if hi == 0xf && nn == 0x0a {
        Some(Instr::WaitKey { x })
    } else if hi == 0xf && nn == 0x15 {
        Some(Instr::SetTimer { x })
    } else if hi == 0xf && nn == 0x18 {
        Some(Instr::SetSoundTimer { x })
    } else if hi == 0xf && nn == 0x1e {
        Some(Instr::AddIndex { x })
    } else if hi == 0xf && nn == 0x29 {
        Some(Instr::GlyphAddr { x })
    } else if hi == 0xf && nn == 0x33 {
        Some(Instr::StoreBcd { x })
    } else if hi == 0xf && nn == 0x55 {
        Some(Instr::StoreRegs { x })
    } else if hi == 0xf && nn == 0x65 {
        Some(Instr::LoadRegs { x })
    } else {
        None
    }
}

/// The extracted register indices are nibbles and the address is 12 bits.
pub proof fn lemma_decode_fields(op: u16)
    ensures
        op_x(op) < 16,
        op_y(op) < 16,
        op_n(op) < 16,
        op_nnn(op) < 0x1000,
{
    assert(((op >> 8) & 0xf) < 16) by (bit_vector);
    assert(((op >> 4) & 0xf) < 16) by (bit_vector);
    assert((op & 0x000f) < 16) by (bit_vector);
    assert((op & 0x0fff) < 0x1000) by (bit_vector);
}

/// Executable decode, exactly the catalogue of `decode`.
pub fn decode_exec(op: u16) -> (r: Option<Instr>)
    ensures
        r == decode(op),
{
    let nnn: u16 = op & 0x0fff;
    let nn: u8 = (op & 0x00ff) as u8;
    let n: u8 = (op & 0x000f) as u8;
    let x: u8 = ((op >> 8) & 0xf) as u8;
    let y: u8 = ((op >> 4) & 0xf) as u8;
    let hi: u16 = op >> 12;
    if op == 0x00E0 {
        Some(Instr::ClearScreen)
    } else if op == 0x00EE {
        Some(Instr::Ret)
    } else if hi == 0x1 {
        Some(Instr::Jump { nnn })
    } else if hi == 0x2 {
        Some(Instr::Call { nnn })
    } else if hi == 0x3 {
        Some(Instr::SkipEqImm { x, nn })
    } else if hi == 0x4 {
        Some(Instr::SkipNeImm { x, nn })
    } else if hi == 0x5 && n == 0x0 {
        Some(Instr::SkipEqReg { x, y })
    } else if hi == 0x6 {
        Some(Instr::SetImm { x, nn })
    } else if hi == 0x7 {
        Some(Instr::AddImm { x, nn })
    } else if hi == 0x8 && n == 0x0 {
        Some(Instr::Assign { x, y })
    } else if hi == 0x8 && n == 0x1 {
        Some(Instr::Or { x, y })
    } else if hi == 0x8 && n == 0x2 {
        Some(Instr::And { x, y })
    } else if hi == 0x8 && n == 0x3 {
        Some(Instr::Xor { x, y })
    } else if hi == 0x8 && n == 0x4 {
        Some(Instr::AddReg { x, y })
    } else if hi == 0x8 && n == 0x5 {
        Some(Instr::SubReg { x, y })
    } else if hi == 0x8 && n == 0x6 {
        Some(Instr::ShiftRight { x })
    } else if hi == 0x8 && n == 0x7 {
        Some(Instr::SubRev { x, y })
    } else if hi == 0x8 && n == 0xe {
        Some(Instr::ShiftLeft { x })
    } else if hi == 0x9 && n == 0x0 {
        Some(Instr::SkipNeReg { x, y })
    } else if hi == 0xa {
        Some(Instr::SetIndex { nnn })
    } else if hi == 0xb {
        Some(Instr::JumpV0 { nnn })
    } else if hi == 0xc {
        Some(Instr::Random { x, nn })
    } else if hi == 0xd {
        Some(Instr::Draw { x, y, n })
    } else if hi == 0xe && nn == 0x9e {
        Some(Instr::SkipKey { x })
    } else if hi == 0xe && nn == 0xa1 {
        Some(Instr::SkipNoKey { x })
    } else if hi == 0xf && nn == 0x07 {
        Some(Instr::ReadTimer { x })
    } else if hi == 0xf && nn == 0x0a {
        Some(Instr::WaitKey { x })
    } else if hi == 0xf && nn == 0x15 {
        Some(Instr::SetTimer { x })
    } else if hi == 0xf && nn == 0x18 {
        Some(Instr::SetSoundTimer { x })
    } else if hi == 0xf && nn == 0x1e {
        Some(Instr::AddIndex { x })
    } else if hi == 0xf && nn == 0x29 {
        Some(Instr::GlyphAddr { x })
    } else if hi == 0xf && nn == 0x33 {
        Some(Instr::StoreBcd { x })
    } else if hi == 0xf && nn == 0x55 {
        Some(Instr::StoreRegs { x })
    } else if hi == 0xf && nn == 0x65 {
        Some(Instr::LoadRegs { x })
    } else {
        None
    }
}

/// The program counter advanced by `amt` bytes, wrapping at 16 bits.
pub open spec fn pc_plus(pc: u16, amt: int) -> u16 {
    ((pc + amt) % 0x10000) as u16
}

/// The program counter after a skip-style operation: past the next
/// instruction when the condition holds, else to the next instruction.
pub open spec fn skip_pc(pc: u16, cond: bool) -> u16 {
    pc_plus(pc, if cond { 4int } else { 2int })
}

/// The first address outside memory touched by an access that starts at `i`.
pub open spec fn first_oob(i: u16) -> u16 {
    if i as int >= MEM_SIZE {
        i
    } else {
        MEM_SIZE as u16
    }
}

/// The 16-bit opcode at `pc`: two bytes composed big-endian.
pub open spec fn fetch(ram: Seq<u8>, pc: u16) -> u16 {
    ((ram[pc as int] as u16) << 8) | (ram[pc as int + 1] as u16)
}

/// Memory after V0..Vx inclusive are stored at base address `i`.
pub open spec fn store_regs_seq(ram: Seq<u8>, i: int, vx: Seq<u8>, x: int) -> Seq<u8> {
    Seq::new(
        ram.len(),
        |a: int| if i <= a <= i + x { vx[a - i] } else { ram[a] },
    )
}

/// Registers after V0..Vx inclusive are loaded from base address `i`.
pub open spec fn load_regs_seq(vx: Seq<u8>, ram: Seq<u8>, i: int, x: int) -> Seq<u8> {
    Seq::new(
        vx.len(),
        |k: int| if k <= x { ram[i + k] } else { vx[k] },
    )
}

/// A successful step's result.
pub open spec fn r_ok() -> Result<(), ExecError> {
    Ok(())
}

/// A fatally failed step's result.
pub open spec fn r_err(e: ExecError) -> Result<(), ExecError> {
    Err(e)
}

/// The effect of one decoded operation `ins` of opcode `op` on the register
/// file and the bus: relates the machine before (`c`, `b`) to the machine
/// after (`c2`, `b2`) and to the step's result `r`.
pub open spec fn instr_rel(
    ins: Instr,
    op: u16,
    c: CpuView,
    b: BusView,
    c2: CpuView,
    b2: BusView,
    r: Result<(), ExecError>,
) -> bool {
    match ins {
        Instr::ClearScreen => r == r_ok() && b2 == (BusView { screen: zero_screen(), ..b })
            && c2 == (CpuView { pc: pc_plus(c.pc, 2), ..c }),
        Instr::Ret => if c.ret.len() == 0 {
            r == r_err(ExecError::StackUnderflow { pc: c.pc, opcode: op }) && c2 == c && b2 == b
        } else {
            r == r_ok() && b2 == b && c2 == (CpuView {
                pc: c.ret.last(),
                ret: c.ret.drop_last(),
                ..c
            })
        },
        Instr::Jump { nnn } => r == r_ok() && b2 == b && c2 == (CpuView { pc: nnn, ..c }),
        Instr::Call { nnn } => r == r_ok() && b2 == b && c2 == (CpuView {
            pc: nnn,
            ret: c.ret.push(pc_plus(c.pc, 2)),
            ..c
        }),
        Instr::SkipEqImm { x, nn } => r == r_ok() && b2 == b && c2 == (CpuView {
            pc: skip_pc(c.pc, c.vx[x as int] == nn),
            ..c
        }),
        Instr::SkipNeImm { x, nn } => r == r_ok() && b2 == b && c2 == (CpuView {
            pc: skip_pc(c.pc, c.vx[x as int] != nn),
            ..c
        }),
        Instr::SkipEqReg { x, y } => r == r_ok() && b2 == b && c2 == (CpuView {
            pc: skip_pc(c.pc, c.vx[x as int] == c.vx[y as int]),
            ..c
        }),
        Instr::SetImm { x, nn } => r == r_ok() && b2 == b && c2 == (CpuView {
            vx: c.vx.update(x as int, nn),
            pc: pc_plus(c.pc, 2),
            ..c
        }),
        Instr::AddImm { x, nn } => r == r_ok() && b2 == b && c2 == (CpuView {
            vx: c.vx.update(x as int, ((c.vx[x as int] + nn) % 256) as u8),
            pc: pc_plus(c.pc, 2),
            ..c
        }),
        Instr::Assign { x, y } => r == r_ok() && b2 == b && c2 == (CpuView {
            vx: c.vx.update(x as int, c.vx[y as int]),
            pc: pc_plus(c.pc, 2),
            ..c
        }),
        Instr::Or { x, y } => r == r_ok() && b2 == b && c2 == (CpuView {
            vx: c.vx.update(x as int, c.vx[x as int] | c.vx[y as int]),
            pc: pc_plus(c.pc, 2),
            ..c
        }),
        Instr::And { x, y } => r == r_ok() && b2 == b && c2 == (CpuView {
            vx: c.vx.update(x as int, c.vx[x as int] & c.vx[y as int]),
            pc: pc_plus(c.pc, 2),
            ..c
        }),
        Instr::Xor { x, y } => r == r_ok() && b2 == b && c2 == (CpuView {
            vx: c.vx.update(x as int, c.vx[x as int] ^ c.vx[y as int]),
            pc: pc_plus(c.pc, 2),
            ..c
        }),
        Instr::AddReg { x, y } => r == r_ok() && b2 == b && c2 == (CpuView {
            vx: c.vx.update(x as int, ((c.vx[x as int] + c.vx[y as int]) % 256) as u8).update(
                15,
                if c.vx[x as int] + c.vx[y as int] > 255 { 1u8 } else { 0u8 },
            ),
            pc: pc_plus(c.pc, 2),
            ..c
        }),
        Instr::SubReg { x, y } => r == r_ok() && b2 == b && c2 == (CpuView {
            vx: c.vx.update(
                x as int,
                ((c.vx[x as int] - c.vx[y as int] + 256) % 256) as u8,
            ).update(15, if c.vx[x as int] >= c.vx[y as int] { 1u8 } else { 0u8 }),
            pc: pc_plus(c.pc, 2),
            ..c
        }),
        Instr::ShiftRight { x } => r == r_ok() && b2 == b && c2 == (CpuView {
            vx: c.vx.update(15, c.vx[x as int] & 1).update(x as int, c.vx[x as int] >> 1),
            pc: pc_plus(c.pc, 2),
            ..c
        }),
        Instr::SubRev { x, y } => r == r_ok() && b2 == b && c2 == (CpuView {
            vx: c.vx.update(
                x as int,
                ((c.vx[y as int] - c.vx[x as int] + 256) % 256) as u8,
            ).update(15, if c.vx[y as int] >= c.vx[x as int] { 1u8 } else { 0u8 }),
            pc: pc_plus(c.pc, 2),
            ..c
        }),
        Instr::ShiftLeft { x } => r == r_ok() && b2 == b && c2 == (CpuView {
            vx: c.vx.update(15, c.vx[x as int] >> 7).update(
                x as int,
                ((c.vx[x as int] * 2) % 256) as u8,
            ),
            pc: pc_plus(c.pc, 2),
            ..c
        }),
        Instr::SkipNeReg { x, y } => r == r_ok() && b2 == b && c2 == (CpuView {
            pc: skip_pc(c.pc, c.vx[x as int] != c.vx[y as int]),
            ..c
        }),
        Instr::SetIndex { nnn } => r == r_ok() && b2 == b && c2 == (CpuView {
            i: nnn,
            pc: pc_plus(c.pc, 2),
            ..c
        }),
        Instr::JumpV0 { nnn } => r == r_ok() && b2 == b && c2 == (CpuView {
            pc: ((c.vx[0] + nnn) % 0x10000) as u16,
            ..c
        }),
        Instr::Random { x, nn } => r == r_ok() && b2 == b && exists|rb: u8|
            c2 == (CpuView {
                vx: c.vx.update(x as int, rb & nn),
                pc: pc_plus(c.pc, 2),
                ..c
            }),
        Instr::Draw { x, y, n } => if n > 0 && c.i as int + n as int > MEM_SIZE {
            r == r_err(ExecError::OutOfBoundsAccess { pc: c.pc, address: first_oob(c.i) })
                && c2 == c && b2 == b
        } else {
            r == r_ok() && b2 == (BusView {
                screen: draw_rows(
                    b.screen,
                    b.ram,
                    c.i as int,
                    c.vx[x as int] as int,
                    c.vx[y as int] as int,
                    n as int,
                ),
                ..b
            }) && c2 == (CpuView {
                vx: c.vx.update(
                    15,
                    if draw_collides(
                        b.screen,
                        b.ram,
                        c.i as int,
                        c.vx[x as int] as int,
                        c.vx[y as int] as int,
                        n as int,
                    ) {
                        1u8
                    } else {
                        0u8
                    },
                ),
                pc: pc_plus(c.pc, 2),
                ..c
            })
        },
        Instr::SkipKey { x } => r == r_ok() && b2 == b && c2 == (CpuView {
            pc: skip_pc(c.pc, b.key == Some(c.vx[x as int])),
            ..c
        }),
        Instr::SkipNoKey { x } => r == r_ok() && b2 == b && c2 == (CpuView {
            pc: skip_pc(c.pc, b.key != Some(c.vx[x as int])),
            ..c
        }),
        Instr::ReadTimer { x } => r == r_ok() && b2 == b && exists|now_ms: u64|
            c2 == (CpuView {
                vx: c.vx.update(x as int, timer_observed(b.timer.value, b.timer.set_ms, now_ms)),
                pc: pc_plus(c.pc, 2),
                ..c
            }),
        Instr::WaitKey { x } => r == r_ok() && b2 == b && match b.key {
            Some(k) => c2 == (CpuView {
                vx: c.vx.update(x as int, k),
                pc: pc_plus(c.pc, 2),
                ..c
            }),
            None => c2 == c,
        },
        Instr::SetTimer { x } => r == r_ok() && c2 == (CpuView { pc: pc_plus(c.pc, 2), ..c })
            && b2.ram == b.ram && b2.key == b.key && b2.screen == b.screen && b2.timer.value
            == c.vx[x as int],
        Instr::SetSoundTimer { x } => r == r_ok() && b2 == b && c2 == (CpuView {
            pc: pc_plus(c.pc, 2),
            ..c
        }),
        Instr::AddIndex { x } => r == r_ok() && b2 == b && c2 == (CpuView {
            i: ((c.i + c.vx[x as int]) % 0x10000) as u16,
            pc: pc_plus(c.pc, 2),
            ..c
        }),
        Instr::GlyphAddr { x } => r == r_ok() && b2 == b && c2 == (CpuView {
            i: (c.vx[x as int] * GLYPH_BYTES) as u16,
            pc: pc_plus(c.pc, 2),
            ..c
        }),
        Instr::StoreBcd { x } => if c.i as int + 2 >= MEM_SIZE {
            r == r_err(ExecError::OutOfBoundsAccess { pc: c.pc, address: first_oob(c.i) })
                && c2 == c && b2 == b
        } else {
            r == r_ok() && c2 == (CpuView { pc: pc_plus(c.pc, 2), ..c }) && b2 == (BusView {
                ram: b.ram.update(c.i as int, (c.vx[x as int] / 100) as u8).update(
                    c.i as int + 1,
                    ((c.vx[x as int] % 100) / 10) as u8,
                ).update(c.i as int + 2, (c.vx[x as int] % 10) as u8),
                ..b
            })
        },
        Instr::StoreRegs { x } => if c.i as int + x as int >= MEM_SIZE {
            r == r_err(ExecError::OutOfBoundsAccess { pc: c.pc, address: first_oob(c.i) })
                && c2 == c && b2 == b
        } else {
            r == r_ok() && b2 == (BusView {
                ram: store_regs_seq(b.ram, c.i as int, c.vx, x as int),
                ..b
            }) && c2 == (CpuView {
                i: (c.i + x + 1) as u16,
                pc: pc_plus(c.pc, 2),
                ..c
            })
        },
        Instr::LoadRegs { x } => if c.i as int + x as int >= MEM_SIZE {
            r == r_err(ExecError::OutOfBoundsAccess { pc: c.pc, address: first_oob(c.i) })
                && c2 == c && b2 == b
        } else {
            r == r_ok() && b2 == b && c2 == (CpuView {
                vx: load_regs_seq(c.vx, b.ram, c.i as int, x as int),
                i: (c.i + x + 1) as u16,
                pc: pc_plus(c.pc, 2),
                ..c
            })
        },
    }
}

/// One full interpreter step: fetch the two bytes at the program counter,
/// decode, and execute. Relates the machine before to the machine after and
/// to the step's result; fetch outside memory and unrecognized bit patterns
/// are fatal and leave the machine unchanged.
pub open spec fn step_rel(
    c: CpuView,
    b: BusView,
    c2: CpuView,
    b2: BusView,
    r: Result<(), ExecError>,
) -> bool {
    if c.pc as int + 1 >= MEM_SIZE {
        let address = if c.pc as int >= MEM_SIZE { c.pc } else { (c.pc + 1) as u16 };
        r == r_err(ExecError::OutOfBoundsAccess { pc: c.pc, address }) && c2 == c && b2 == b
    } else {
        let op = fetch(b.ram, c.pc);
        match decode(op) {
            None => r == r_err(ExecError::UnrecognizedOpcode { pc: c.pc, opcode: op }) && c2 == c
                && b2 == b,
            Some(ins) => instr_rel(ins, op, c, b, c2, b2, r),
        }
    }
}

/// Relies on rand::random: a freshly sampled byte; nothing is assumed of the
/// value returned.
#[verifier::external_body]
fn random_byte() -> u8 {
    rand::random::<u8>()
}

/// The interpreter: the register file, and the decode/execute engine that
/// performs one catalogued operation per step against the bus.
#[derive(Debug)]
pub struct Cpu {
    vx: Vec<u8>,
    pc: u16,
    i: u16,
    ret_stack: Vec<u16>,
}

impl View for Cpu {
    type V = CpuView;

    closed spec fn view(&self) -> CpuView {
        CpuView { vx: self.vx@, pc: self.pc, i: self.i, ret: self.ret_stack@ }
    }
}

impl Cpu {
    /// A fresh register file: all registers zero, the program counter at the
    /// fixed load offset, an empty call stack.
    pub fn new() -> (r: Cpu)
        ensures
            cpu_wf(r@),
            forall|k: int| 0 <= k < NUM_REGS ==> r@.vx[k] == 0u8,
            r@.pc == PROGRAM_START,
            r@.i == 0u16,
            r@.ret == Seq::<u16>::empty(),
    {
        Cpu { vx: vec![0u8; NUM_REGS], pc: PROGRAM_START, i: 0, ret_stack: Vec::new() }
    }

    /// Write general register `index`.
    pub fn write_reg_vx(&mut self, index: u8, value: u8)
        requires
            cpu_wf(old(self)@),
            index < 16,
        ensures
            final(self)@ == (CpuView { vx: old(self)@.vx.update(index as int, value), ..old(self)@ }),
    {
        self.vx[index as usize] = value;
    }

    /// Read general register `index`.
    pub fn read_reg_vx(&mut self, index: u8) -> (r: u8)
        requires
            cpu_wf(old(self)@),
            index < 16,
        ensures
            final(self)@ == old(self)@,
            r == old(self)@.vx[index as int],
    {
        self.vx[index as usize]
    }

    /// Draw the `height`-row sprite stored at memory `[I, I + height)` at
    /// screen coordinates `(x, y)`, then set VF to 1 exactly when some lit
    /// pixel was erased. The program counter is left untouched.
    fn debug_draw_sprite(&mut self, bus: &mut Bus, x: u8, y: u8, height: u8) -> (r: Result<
        (),
        ExecError,
    >)
        requires
            cpu_wf(old(self)@),
            bus_wf(old(bus)@),
        ensures
            cpu_wf(final(self)@),
            bus_wf(final(bus)@),
            if height > 0 && old(self)@.i as int + height as int > MEM_SIZE {
                r == r_err(
                    ExecError::OutOfBoundsAccess {
                        pc: old(self)@.pc,
                        address: first_oob(old(self)@.i),
                    },
                ) && final(self)@ == old(self)@ && final(bus)@ == old(bus)@
            } else {
                r == r_ok() && final(bus)@ == (BusView {
                    screen: draw_rows(
                        old(bus)@.screen,
                        old(bus)@.ram,
                        old(self)@.i as int,
                        x as int,
                        y as int,
                        height as int,
                    ),
                    ..old(bus)@
                }) && final(self)@ == (CpuView {
                    vx: old(self)@.vx.update(
                        15,
                        if draw_collides(
                            old(bus)@.screen,
                            old(bus)@.ram,
                            old(self)@.i as int,
                            x as int,
                            y as int,
                            height as int,
                        ) {
                            1u8
                        } else {
                            0u8
                        },
                    ),
                    ..old(self)@
                })
            },
    {
        if height > 0 && (self.i as usize) + (height as usize) > MEM_SIZE {
            let address = if self.i as usize >= MEM_SIZE {
                self.i
            } else {
                MEM_SIZE as u16
            };
            return Err(ExecError::OutOfBoundsAccess { pc: self.pc, address });
        }
        let ghost c0 = self@;
        let ghost b0 = bus@;
        let mut collided = false;
        let mut row: u8 = 0;
        while row < height
            invariant
                cpu_wf(self@),
                bus_wf(bus@),
                row <= height,
                self@ == c0,
                height > 0 ==> c0.i as int + height as int <= MEM_SIZE,
                bus@.ram == b0.ram,
                bus@.key == b0.key,
                bus@.timer == b0.timer,
                bus@.screen == draw_rows(
                    b0.screen,
                    b0.ram,
                    c0.i as int,
                    x as int,
                    y as int,
                    row as int,
                ),
                collided == draw_collides(
                    b0.screen,
                    b0.ram,
                    c0.i as int,
                    x as int,
                    y as int,
                    row as int,
                ),
            decreases height - row,
        {
            let ghost before = bus@.screen;
            let byte = bus.ram_read_byte(self.i + row as u16);
            let cy: u16 = (y as u16 + row as u16) % (HEIGHT as u16);
            let erased = bus.debug_draw_byte(byte, x, cy as u8);
            if erased {
                collided = true;
            }
            proof {
                lemma_blit_y_wraps(before, byte, x as int, y as int + row as int);
            }
            row = row + 1;
        }
        if collided {
            self.write_reg_vx(0xF, 1);
        } else {
            self.write_reg_vx(0xF, 0);
        }
        Ok(())
    }

    /// Store V0..Vx inclusive into memory starting at I, then advance I past
    /// the stored block and the program counter past this instruction.
    fn store_regs(&mut self, bus: &mut Bus, x: u8) -> (r: Result<(), ExecError>)
        requires
            cpu_wf(old(self)@),
            bus_wf(old(bus)@),
            x < 16,
            old(self)@.pc as int + 2 < 0x10000,
        ensures
            cpu_wf(final(self)@),
            bus_wf(final(bus)@),
            instr_rel(
                Instr::StoreRegs { x },
                0,
                old(self)@,
                old(bus)@,
                final(self)@,
                final(bus)@,
                r,
            ),
    {
        if (self.i as usize) + (x as usize) >= MEM_SIZE {
            let address = if self.i as usize >= MEM_SIZE {
                self.i
            } else {
                MEM_SIZE as u16
            };
            return Err(ExecError::OutOfBoundsAccess { pc: self.pc, address });
        }
        let ghost c0 = self@;
        let ghost b0 = bus@;
        let mut k: u8 = 0;
        while k <= x
            invariant
                cpu_wf(self@),
                bus_wf(bus@),
                self@ == c0,
                x < 16,
                k <= x + 1,
                (c0.i as int) + (x as int) < (MEM_SIZE as int),
                bus@.key == b0.key,
                bus@.screen == b0.screen,
                bus@.timer == b0.timer,
                bus@.ram.len() == b0.ram.len(),
                forall|a: int|
                    0 <= a < MEM_SIZE ==> bus@.ram[a] == (if c0.i <= a < c0.i + k {
                        c0.vx[a - c0.i]
                    } else {
                        b0.ram[a]
                    }),
            decreases x + 1 - k,
        {
            let value = self.read_reg_vx(k);
            bus.ram_write_byte(self.i + k as u16, value);
            k = k + 1;
        }
        proof {
            assert(bus@.ram =~= store_regs_seq(b0.ram, c0.i as int, c0.vx, x as int));
        }
        self.i = self.i + x as u16 + 1;
        self.pc = self.pc + 2;
        Ok(())
    }

    /// Load memory starting at I into V0..Vx inclusive, then advance I past
    /// the loaded block and the program counter past this instruction.
    fn load_regs(&mut self, bus: &mut Bus, x: u8) -> (r: Result<(), ExecError>)
        requires
            cpu_wf(old(self)@),
            bus_wf(old(bus)@),
            x < 16,
            old(self)@.pc as int + 2 < 0x10000,
        ensures
            cpu_wf(final(self)@),
            bus_wf(final(bus)@),
            instr_rel(
                Instr::LoadRegs { x },
                0,
                old(self)@,
                old(bus)@,
                final(self)@,
                final(bus)@,
                r,
            ),
    {
        if (self.i as usize) + (x as usize) >= MEM_SIZE {
            let address = if self.i as usize >= MEM_SIZE {
                self.i
            } else {
                MEM_SIZE as u16
            };
            return Err(ExecError::OutOfBoundsAccess { pc: self.pc, address });
        }
        let ghost c0 = self@;
        let ghost b0 = bus@;
        let mut k: u8 = 0;
        while k <= x
            invariant
                cpu_wf(self@),
                bus_wf(bus@),
                bus@ == b0,
                x < 16,
                k <= x + 1,
                (c0.i as int) + (x as int) < (MEM_SIZE as int),
                c0.vx.len() == NUM_REGS,
                self@.pc == c0.pc,
                self@.i == c0.i,
                self@.ret == c0.ret,
                forall|kk: int|
                    0 <= kk < NUM_REGS ==> self@.vx[kk] == (if kk < k {
                        b0.ram[c0.i + kk]
                    } else {
                        c0.vx[kk]
                    }),
            decreases x + 1 - k,
        {
            let value = bus.ram_read_byte(self.i + k as u16);
            self.write_reg_vx(k, value);
            k = k + 1;
        }
        proof {
            assert(self@.vx =~= load_regs_seq(c0.vx, b0.ram, c0.i as int, x as int));
        }
        self.i = self.i + x as u16 + 1;
        self.pc = self.pc + 2;
        Ok(())
    }

    /// Perform exactly one instruction: fetch the two bytes at the program
    /// counter (big-endian), decode, execute the operation's effect against
    /// the bus, and advance control flow. Fatal conditions (unrecognized
    /// opcode, return with an empty call stack, memory access out of bounds)
    /// are reported with the offending program counter and leave the whole
    /// machine unchanged.
    pub fn run_instruction(&mut self, bus: &mut Bus) -> (r: Result<(), ExecError>)
        requires
            cpu_wf(old(self)@),
            bus_wf(old(bus)@),
        ensures
            cpu_wf(final(self)@),
            bus_wf(final(bus)@),
            step_rel(old(self)@, old(bus)@, final(self)@, final(bus)@, r),
    {
        if (self.pc as usize) + 1 >= MEM_SIZE {
            let address = if self.pc as usize >= MEM_SIZE {
                self.pc
            } else {
                self.pc + 1
            };
            return Err(ExecError::OutOfBoundsAccess { pc: self.pc, address });
        }
        let hi = bus.ram_read_byte(self.pc);
        let lo = bus.ram_read_byte(self.pc + 1);
        let op: u16 = ((hi as u16) << 8) | (lo as u16);
        let ins = match decode_exec(op) {
            Some(ins) => ins,
            None => {
                return Err(ExecError::UnrecognizedOpcode { pc: self.pc, opcode: op });
            },
        };
        proof {
            lemma_decode_fields(op);
        }
        match ins {
            Instr::ClearScreen => {
                bus.clear_screen();
                self.pc = self.pc + 2;
                Ok(())
            },
            Instr::Ret => {
                match self.ret_stack.pop() {
                    Some(addr) => {
                        self.pc = addr;
                        proof {
                            assert(self@.ret =~= old(self)@.ret.drop_last());
                        }
                        Ok(())
                    },
                    None => Err(ExecError::StackUnderflow { pc: self.pc, opcode: op }),
                }
            },
            Instr::Jump { nnn } => {
                self.pc = nnn;
                Ok(())
            },
            Instr::Call { nnn } => {
                self.ret_stack.push(self.pc + 2);
                self.pc = nnn;
                Ok(())
            },
            Instr::SkipEqImm { x, nn } => {
                let vx = self.read_reg_vx(x);
                if vx == nn {
                    self.pc = self.pc + 4;
                } else {
                    self.pc = self.pc + 2;
                }
                Ok(())
            },
            Instr::SkipNeImm { x, nn } => {
                let vx = self.read_reg_vx(x);
                if vx != nn {
                    self.pc = self.pc + 4;
                } else {
                    self.pc = self.pc + 2;
                }
                Ok(())
            },
            Instr::SkipEqReg { x, y } => {
                let vx = self.read_reg_vx(x);
                let vy = self.read_reg_vx(y);
                if vx == vy {
                    self.pc = self.pc + 4;
                } else {
                    self.pc = self.pc + 2;
                }
                Ok(())
            },
            Instr::SetImm { x, nn } => {
                self.write_reg_vx(x, nn);
                self.pc = self.pc + 2;
                Ok(())
            },
            Instr::AddImm { x, nn } => {
                let vx = self.read_reg_vx(x);
                let v: u8 = ((vx as u16 + nn as u16) % 256) as u8;
                self.write_reg_vx(x, v);
                self.pc = self.pc + 2;
                Ok(())
            },
            Instr::Assign { x, y } => {
                let vy = self.read_reg_vx(y);
                self.write_reg_vx(x, vy);
                self.pc = self.pc + 2;
                Ok(())
            },
            Instr::Or { x, y } => {
                let vx = self.read_reg_vx(x);
                let vy = self.read_reg_vx(y);
                self.write_reg_vx(x, vx | vy);
                self.pc = self.pc + 2;
                Ok(())
            },
            Instr::And { x, y } => {
                let vx = self.read_reg_vx(x);
                let vy = self.read_reg_vx(y);
                self.write_reg_vx(x, vx & vy);
                self.pc = self.pc + 2;
                Ok(())
            },
            Instr::Xor { x, y } => {
                let vx = self.read_reg_vx(x);
                let vy = self.read_reg_vx(y);
                self.write_reg_vx(x, vx ^ vy);
                self.pc = self.pc + 2;
                Ok(())
            },
            Instr::AddReg { x, y } => {
                let vx = self.read_reg_vx(x);
                let vy = self.read_reg_vx(y);
                let sum: u16 = vx as u16 + vy as u16;
                self.write_reg_vx(x, (sum % 256) as u8);
                self.write_reg_vx(0xF, if sum > 255 { 1 } else { 0 });
                self.pc = self.pc + 2;
                Ok(())
            },
            Instr::SubReg { x, y } => {
                let vx = self.read_reg_vx(x);
                let vy = self.read_reg_vx(y);
                let diff: u8 = ((vx as u16 + 256 - vy as u16) % 256) as u8;
                self.write_reg_vx(x, diff);
                self.write_reg_vx(0xF, if vx >= vy { 1 } else { 0 });
                self.pc = self.pc + 2;
                Ok(())
            },
            Instr::ShiftRight { x } => {
                let vx = self.read_reg_vx(x);
                self.write_reg_vx(0xF, vx & 0x01);
                self.write_reg_vx(x, vx >> 1);
                self.pc = self.pc + 2;
                Ok(())
            },
            Instr::SubRev { x, y } => {
                let vx = self.read_reg_vx(x);
                let vy = self.read_reg_vx(y);
                let diff: u8 = ((vy as u16 + 256 - vx as u16) % 256) as u8;
                self.write_reg_vx(x, diff);
                self.write_reg_vx(0xF, if vy >= vx { 1 } else { 0 });
                self.pc = self.pc + 2;
                Ok(())
            },
            Instr::ShiftLeft { x } => {
                let vx = self.read_reg_vx(x);
                let doubled: u8 = ((vx as u16 * 2) % 256) as u8;
                self.write_reg_vx(0xF, vx >> 7);
                self.write_reg_vx(x, doubled);
                self.pc = self.pc + 2;
                Ok(())
            },
            Instr::SkipNeReg { x, y } => {
                let vx = self.read_reg_vx(x);
                let vy = self.read_reg_vx(y);
                if vx != vy {
                    self.pc = self.pc + 4;
                } else {
                    self.pc = self.pc + 2;
                }
                Ok(())
            },
            Instr::SetIndex { nnn } => {
                self.i = nnn;
                self.pc = self.pc + 2;
                Ok(())
            },
            Instr::JumpV0 { nnn } => {
                let v0 = self.read_reg_vx(0);
                self.pc = v0 as u16 + nnn;
                Ok(())
            },
            Instr::Random { x, nn } => {
                let rb = random_byte();
                self.write_reg_vx(x, rb & nn);
                self.pc = self.pc + 2;
                proof {
                    assert(self@ == (CpuView {
                        vx: old(self)@.vx.update(x as int, rb & nn),
                        pc: pc_plus(old(self)@.pc, 2),
                        ..old(self)@
                    }));
                }
                Ok(())
            },
            Instr::Draw { x, y, n } => {
                let vx = self.read_reg_vx(x);
                let vy = self.read_reg_vx(y);
                match self.debug_draw_sprite(bus, vx, vy, n) {
                    Ok(()) => {
                        self.pc = self.pc + 2;
                        Ok(())
                    },
                    Err(e) => Err(e),
                }
            },
            Instr::SkipKey { x } => {
                let key_vx = self.read_reg_vx(x);
                if bus.is_key_pressed(key_vx) {
                    self.pc = self.pc + 4;
                } else {
                    self.pc = self.pc + 2;
                }
                Ok(())
            },
            Instr::SkipNoKey { x } => {
                let key_vx = self.read_reg_vx(x);
                if !bus.is_key_pressed(key_vx) {
                    self.pc = self.pc + 4;
                } else {
                    self.pc = self.pc + 2;
                }
                Ok(())
            },
            Instr::ReadTimer { x } => {
                let t = bus.get_delay_timer();
                self.write_reg_vx(x, t);
                self.pc = self.pc + 2;
                proof {
                    let now = choose|now_ms: u64|
                        t == timer_observed(
                            old(bus)@.timer.value,
                            old(bus)@.timer.set_ms,
                            now_ms,
                        );
                    assert(self@ == (CpuView {
                        vx: old(self)@.vx.update(
                            x as int,
                            timer_observed(old(bus)@.timer.value, old(bus)@.timer.set_ms, now),
                        ),
                        pc: pc_plus(old(self)@.pc, 2),
                        ..old(self)@
                    }));
                }
                Ok(())
            },
            Instr::WaitKey { x } => {
                match bus.get_key_pressed() {
                    Some(val) => {
                        self.write_reg_vx(x, val);
                        self.pc = self.pc + 2;
                    },
                    None => {},
                }
                Ok(())
            },
            Instr::SetTimer { x } => {
                let vx = self.read_reg_vx(x);
                bus.set_delay_timer(vx);
                self.pc = self.pc + 2;
                Ok(())
            },
            Instr::SetSoundTimer { x: _ } => {
                self.pc = self.pc + 2;
                Ok(())
            },
            Instr::AddIndex { x } => {
                let vx = self.read_reg_vx(x);
                self.i = ((self.i as u32 + vx as u32) % 0x10000) as u16;
                self.pc = self.pc + 2;
                Ok(())
            },
            Instr::GlyphAddr { x } => {
                let vx = self.read_reg_vx(x);
                self.i = vx as u16 * GLYPH_BYTES;
                self.pc = self.pc + 2;
                Ok(())
            },
            Instr::StoreBcd { x } => {
                if (self.i as usize) + 2 >= MEM_SIZE {
                    let address = if self.i as usize >= MEM_SIZE {
                        self.i
                    } else {
                        MEM_SIZE as u16
                    };
                    return Err(ExecError::OutOfBoundsAccess { pc: self.pc, address });
                }
                let vx = self.read_reg_vx(x);
                bus.ram_write_byte(self.i, vx / 100);
                bus.ram_write_byte(self.i + 1, (vx % 100) / 10);
                bus.ram_write_byte(self.i + 2, vx % 10);
                self.pc = self.pc + 2;
                Ok(())
            },
            Instr::StoreRegs { x } => self.store_regs(bus, x),
            Instr::LoadRegs { x } => self.load_regs(bus, x),
        }
    }

    /// The current program counter.
    pub fn get_pc(&self) -> (r: u16)
        ensures
            r == self@.pc,
    {
        self.pc
    }

    /// The current index register.
    pub fn get_i(&self) -> (r: u16)
        ensures
            r == self@.i,
    {
        self.i
    }
}

/// Adding an immediate (7xnn) wraps on overflow and, for a target register
/// other than the flag register itself, leaves VF untouched.
pub proof fn lemma_add_imm_no_flag(
    x: u8,
    nn: u8,
    op: u16,
    c: CpuView,
    b: BusView,
    c2: CpuView,
    b2: BusView,
    r: Result<(), ExecError>,
)
    requires
        cpu_wf(c),
        x < 16,
        x != 15,
        instr_rel(Instr::AddImm { x, nn }, op, c, b, c2, b2, r),
    ensures
        r == r_ok(),
        c2.vx[15] == c.vx[15],
        c2.vx[x as int] == ((c.vx[x as int] + nn) % 256) as u8,
{
}

/// Register addition (8xy4) wraps and sets VF to 1 exactly when the
/// unwrapped sum exceeds 255.
pub proof fn lemma_add_reg_carry(
    x: u8,
    y: u8,
    op: u16,
    c: CpuView,
    b: BusView,
    c2: CpuView,
    b2: BusView,
    r: Result<(), ExecError>,
)
    requires
        cpu_wf(c),
        x < 16,
        y < 16,
        instr_rel(Instr::AddReg { x, y }, op, c, b, c2, b2, r),
    ensures
        r == r_ok(),
        (c2.vx[15] == 1) <==> (c.vx[x as int] + c.vx[y as int] > 255),
        c2.vx[15] == 1 || c2.vx[15] == 0,
        x != 15 ==> c2.vx[x as int] == ((c.vx[x as int] + c.vx[y as int]) % 256) as u8,
{
}

/// Register subtraction (8xy5) wraps and sets VF to 0 exactly when the
/// subtraction borrows, that is when Vx < Vy.
pub proof fn lemma_sub_reg_borrow(
    x: u8,
    y: u8,
    op: u16,
    c: CpuView,
    b: BusView,
    c2: CpuView,
    b2: BusView,
    r: Result<(), ExecError>,
)
    requires
        cpu_wf(c),
        x < 16,
        y < 16,
        instr_rel(Instr::SubReg { x, y }, op, c, b, c2, b2, r),
    ensures
        r == r_ok(),
        (c2.vx[15] == 0) <==> (c.vx[x as int] < c.vx[y as int]),
        x != 15 ==> c2.vx[x as int] == ((c.vx[x as int] - c.vx[y as int] + 256) % 256) as u8,
{
}

/// A subroutine call followed immediately by a return restores the program
/// counter to exactly the instruction after the call and leaves the stack as
/// it was.
pub proof fn lemma_call_then_ret(
    nnn: u16,
    op1: u16,
    op2: u16,
    c: CpuView,
    b: BusView,
    c1: CpuView,
    b1: BusView,
    c2: CpuView,
    b2: BusView,
    r1: Result<(), ExecError>,
    r2: Result<(), ExecError>,
)
    requires
        instr_rel(Instr::Call { nnn }, op1, c, b, c1, b1, r1),
        instr_rel(Instr::Ret, op2, c1, b1, c2, b2, r2),
    ensures
        r1 == r_ok(),
        r2 == r_ok(),
        c2.pc == pc_plus(c.pc, 2),
        c2.ret == c.ret,
        c2.vx == c.vx,
        c2.i == c.i,
        b2 == b,
{
    assert(c1.ret.len() > 0);
    assert(c1.ret.last() == pc_plus(c.pc, 2));
    assert(c1.ret.drop_last() =~= c.ret);
}

/// A return executed with an empty call stack is a fatal error and changes
/// nothing.
pub proof fn lemma_ret_empty_stack_fatal(
    op: u16,
    c: CpuView,
    b: BusView,
    c2: CpuView,
    b2: BusView,
    r: Result<(), ExecError>,
)
    requires
        c.ret.len() == 0,
        instr_rel(Instr::Ret, op, c, b, c2, b2, r),
    ensures
        r == r_err(ExecError::StackUnderflow { pc: c.pc, opcode: op }),
        c2 == c,
        b2 == b,
{
}

/// Storing V0..Vx at a base address (Fx55) and then loading from the same
/// base (Fx65) reproduces the stored registers and leaves the rest alone,
/// and the index register advances past the block in both directions.
pub proof fn lemma_store_load_round_trip(
    x: u8,
    op1: u16,
    op2: u16,
    c: CpuView,
    b: BusView,
    c1: CpuView,
    b1: BusView,
    cm: CpuView,
    c2: CpuView,
    b2: BusView,
    r1: Result<(), ExecError>,
    r2: Result<(), ExecError>,
)
    requires
        cpu_wf(c),
        x < 16,
        (c.i as int) + (x as int) < (MEM_SIZE as int),
        b.ram.len() == MEM_SIZE,
        instr_rel(Instr::StoreRegs { x }, op1, c, b, c1, b1, r1),
        cm == (CpuView { i: c.i, ..c1 }),
        instr_rel(Instr::LoadRegs { x }, op2, cm, b1, c2, b2, r2),
    ensures
        r1 == r_ok(),
        r2 == r_ok(),
        c1.i == c.i + x + 1,
        c2.i == c.i + x + 1,
        c1.pc == pc_plus(c.pc, 2),
        c2.pc == pc_plus(c1.pc, 2),
        forall|k: int| 0 <= k <= x ==> c2.vx[k] == c.vx[k],
        forall|k: int| x < k < 16 ==> c2.vx[k] == c.vx[k],
        b2 == b1,
{
    assert(forall|k: int|
        0 <= k <= x ==> b1.ram[c.i as int + k] == c.vx[k]);
    assert(forall|k: int|
        0 <= k < 16 ==> c2.vx[k] == load_regs_seq(cm.vx, b1.ram, cm.i as int, x as int)[k]);
}

} // verus!

