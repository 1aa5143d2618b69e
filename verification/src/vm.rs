//! LC-3 virtual machine: 64K words of memory, eight registers, a processor
//! status register packing privilege and condition codes, memory-mapped I/O
//! for keyboard, display and machine control, and a fetch-decode-execute
//! step that suspends by returning an event whenever the host must act.
//!
//! The machine's whole behaviour is pinned by the spec-level transition
//! function [`spec_step`] over the ghost state [`VmState`]: `step` performs
//! exactly one `spec_step` transition, and `run` performs a silent chain of
//! them followed by one that produces the returned event.

use vstd::prelude::*;

use crate::isa::sign_extend;
use crate::isa::spec_sext;
use crate::mmio;

verus! {

broadcast use crate::isa::lemma_field_bounds;

/// Events emitted by the VM during execution.
#[derive(Debug, Clone, PartialEq, Eq)]
pub enum VMEvent {
    /// Normal instruction execution, no I/O needed.
    Nothing,
    /// Output a single character (from a DDR write, or TRAP x21 in shortcut mode).
    Output(u8),
    /// TRAP x22 (PUTS) - output a zero-terminated string starting at the address in R0 (shortcut mode only).
    OutputString(Vec<u8>),
    /// VM halted (MCR bit 15 cleared in OS mode, or TRAP x25 in shortcut mode).
    Halt,
    /// VM requests character input. Call `set_keyboard_input` before continuing.
    ReadChar,
    /// An error occurred during execution.
    Error(VMError),
}

/// Errors that can occur during VM execution.
#[derive(Debug, Clone, PartialEq, Eq)]
pub enum VMError {
    /// Reserved/invalid opcode encountered.
    ReservedOpcode(u8),
    /// Unimplemented TRAP vector (only in shortcut mode).
    UnimplementedTrap(u8),
    /// Privilege mode violation (RTI in user mode).
    PrivilegeViolation,
}

/// Ghost model of the machine state: what the contracts speak of.
#[verifier::ext_equal]
pub struct VmState {
    pub memory: Seq<u16>,
    pub regs: Seq<u16>,
    pub pc: u16,
    pub psr: u16,
    pub saved_ssp: u16,
    pub saved_usp: u16,
    pub os_mode: bool,
    pub keyboard_data: Option<u8>,
    pub pending_output: Option<u8>,
}

/// Ghost model of a [`VMEvent`].
#[verifier::ext_equal]
pub enum EventModel {
    Nothing,
    Output(u8),
    OutputString(Seq<u8>),
    Halt,
    ReadChar,
    Error(VMError),
}

impl VmState {
    /// Well-formed machine state: full memory, eight registers.
    pub open spec fn wf(self) -> bool {
        self.memory.len() == 0x10000 && self.regs.len() == 8
    }

    /// The value a read of `addr` returns, honouring memory-mapped I/O.
    pub open spec fn read_val(self, addr: u16) -> u16 {
        if addr == mmio::KBSR {
            if self.keyboard_data is Some {
                0x8000
            } else {
                0x0000
            }
        } else if addr == mmio::KBDR {
            match self.keyboard_data {
                Some(c) => c as u16,
                None => 0,
            }
        } else if addr == mmio::DSR {
            0x8000
        } else if addr == mmio::DDR {
            0
        } else if addr == mmio::MCR {
            self.memory[addr as int] | 0x8000
        } else {
            self.memory[addr as int]
        }
    }

    /// The state after a read of `addr`: a KBDR read consumes the pending key.
    pub open spec fn read_post(self, addr: u16) -> VmState {
        if addr == mmio::KBDR {
            VmState { keyboard_data: None, ..self }
        } else {
            self
        }
    }

    /// The state after a write of `val` to `addr`, honouring memory-mapped
    /// I/O: keyboard and display status registers ignore writes, a DDR write
    /// publishes a pending output byte, everything else stores the word.
    pub open spec fn write_post(self, addr: u16, val: u16) -> VmState {
        if addr == mmio::KBSR || addr == mmio::KBDR || addr == mmio::DSR {
            self
        } else if addr == mmio::DDR {
            VmState { pending_output: Some(val as u8), ..self }
        } else {
            VmState { memory: self.memory.update(addr as int, val), ..self }
        }
    }

    /// Whether a write of `addr` produced an output event (a DDR write).
    pub open spec fn write_is_output(self, addr: u16) -> bool {
        addr == mmio::DDR
    }

    /// The state with the condition codes set from the value of register `r`:
    /// Z if zero, N if bit 15 is set, P otherwise - exactly one bit.
    pub open spec fn with_flags(self, r: int) -> VmState {
        let val = self.regs[r];
        let cc: u16 = if val == 0 {
            0b010
        } else if val & 0x8000 != 0 {
            0b100
        } else {
            0b001
        };
        VmState { psr: (self.psr & 0xFFF8) | cc, ..self }
    }
}

impl View for VMEvent {
    type V = EventModel;

    open spec fn view(&self) -> EventModel {
        match self {
            VMEvent::Nothing => EventModel::Nothing,
            VMEvent::Output(c) => EventModel::Output(*c),
            VMEvent::OutputString(s) => EventModel::OutputString(s@),
            VMEvent::Halt => EventModel::Halt,
            VMEvent::ReadChar => EventModel::ReadChar,
            VMEvent::Error(e) => EventModel::Error(*e),
        }
    }
}

/// One instruction: ADD.
pub open spec fn spec_add(m: VmState, instr: u16) -> VmState {
    let dr = ((instr >> 9) & 0x7) as int;
    let sr1 = m.regs[((instr >> 6) & 0x7) as int];
    let val = if instr & 0x20 != 0 {
        spec_sext(instr & 0x1F, 5)
    } else {
        m.regs[(instr & 0x7) as int]
    };
    VmState { regs: m.regs.update(dr, sr1.wrapping_add(val)), ..m }.with_flags(dr)
}

/// One instruction: AND.
pub open spec fn spec_and(m: VmState, instr: u16) -> VmState {
    let dr = ((instr >> 9) & 0x7) as int;
    let sr1 = m.regs[((instr >> 6) & 0x7) as int];
    let val = if instr & 0x20 != 0 {
        spec_sext(instr & 0x1F, 5)
    } else {
        m.regs[(instr & 0x7) as int]
    };
    VmState { regs: m.regs.update(dr, sr1 & val), ..m }.with_flags(dr)
}

/// One instruction: NOT.
pub open spec fn spec_not(m: VmState, instr: u16) -> VmState {
    let dr = ((instr >> 9) & 0x7) as int;
    VmState { regs: m.regs.update(dr, !m.regs[((instr >> 6) & 0x7) as int]), ..m }.with_flags(dr)
}

/// One instruction: BR.
pub open spec fn spec_br(m: VmState, instr: u16) -> VmState {
    let cond = (instr >> 9) & 0x7;
    if cond & (m.psr & 0x7) != 0 {
        VmState { pc: m.pc.wrapping_add(spec_sext(instr & 0x1FF, 9)), ..m }
    } else {
        m
    }
}

/// One instruction: JMP (and RET, which is JMP R7).
pub open spec fn spec_jmp(m: VmState, instr: u16) -> VmState {
    VmState { pc: m.regs[((instr >> 6) & 0x7) as int], ..m }
}

/// One instruction: JSR / JSRR. R7 receives the PC after fetch.
pub open spec fn spec_jsr(m: VmState, instr: u16) -> VmState {
    let m1 = VmState { regs: m.regs.update(7, m.pc), ..m };
    if instr & 0x800 != 0 {
        VmState { pc: m1.pc.wrapping_add(spec_sext(instr & 0x7FF, 11)), ..m1 }
    } else {
        VmState { pc: m1.regs[((instr >> 6) & 0x7) as int], ..m1 }
    }
}

/// One instruction: LD.
pub open spec fn spec_ld(m: VmState, instr: u16) -> VmState {
    let dr = ((instr >> 9) & 0x7) as int;
    let addr = m.pc.wrapping_add(spec_sext(instr & 0x1FF, 9));
    let m1 = m.read_post(addr);
    VmState { regs: m1.regs.update(dr, m.read_val(addr)), ..m1 }.with_flags(dr)
}

/// One instruction: LDI - dereferences once more through memory.
pub open spec fn spec_ldi(m: VmState, instr: u16) -> VmState {
    let dr = ((instr >> 9) & 0x7) as int;
    let ptr = m.pc.wrapping_add(spec_sext(instr & 0x1FF, 9));
    let addr = m.read_val(ptr);
    let m1 = m.read_post(ptr);
    let m2 = m1.read_post(addr);
    VmState { regs: m2.regs.update(dr, m1.read_val(addr)), ..m2 }.with_flags(dr)
}

/// One instruction: LDR.
pub open spec fn spec_ldr(m: VmState, instr: u16) -> VmState {
    let dr = ((instr >> 9) & 0x7) as int;
    let base = m.regs[((instr >> 6) & 0x7) as int];
    let addr = base.wrapping_add(spec_sext(instr & 0x3F, 6));
    let m1 = m.read_post(addr);
    VmState { regs: m1.regs.update(dr, m.read_val(addr)), ..m1 }.with_flags(dr)
}

/// One instruction: LEA.
pub open spec fn spec_lea(m: VmState, instr: u16) -> VmState {
    let dr = ((instr >> 9) & 0x7) as int;
    VmState { regs: m.regs.update(dr, m.pc.wrapping_add(spec_sext(instr & 0x1FF, 9))), ..m }
        .with_flags(dr)
}

/// One instruction: ST.
pub open spec fn spec_st(m: VmState, instr: u16) -> VmState {
    let sr = m.regs[((instr >> 9) & 0x7) as int];
    let addr = m.pc.wrapping_add(spec_sext(instr & 0x1FF, 9));
    m.write_post(addr, sr)
}

/// One instruction: STI - dereferences once more through memory.
pub open spec fn spec_sti(m: VmState, instr: u16) -> VmState {
    let sr = m.regs[((instr >> 9) & 0x7) as int];
    let ptr = m.pc.wrapping_add(spec_sext(instr & 0x1FF, 9));
    let addr = m.read_val(ptr);
    m.read_post(ptr).write_post(addr, sr)
}

/// One instruction: STR.
pub open spec fn spec_str(m: VmState, instr: u16) -> VmState {
    let sr = m.regs[((instr >> 9) & 0x7) as int];
    let base = m.regs[((instr >> 6) & 0x7) as int];
    let addr = base.wrapping_add(spec_sext(instr & 0x3F, 6));
    m.write_post(addr, sr)
}

/// The bytes TRAP x22 (PUTS) collects: the words at `addr` and above, as
/// bytes, up to but not including the first zero word or the end of memory.
pub open spec fn spec_puts_bytes(memory: Seq<u16>, addr: int) -> Seq<u8>
    recommends
        memory.len() == 0x10000,
        0 <= addr,
    decreases 0x10000 - addr,
{
    if addr < 0 || addr >= 0x10000 || memory[addr] == 0 {
        Seq::empty()
    } else {
        seq![memory[addr] as u8] + spec_puts_bytes(memory, addr + 1)
    }
}

/// One instruction: TRAP, in both shortcut and OS mode.
pub open spec fn spec_trap(m: VmState, instr: u16) -> (VmState, EventModel) {
    let vec = instr & 0xFF;
    let m1 = VmState { regs: m.regs.update(7, m.pc), ..m };
    if m.os_mode {
        let m2 = if m1.psr & 0x8000 != 0 {
            VmState {
                saved_usp: m1.regs[6],
                regs: m1.regs.update(6, m1.saved_ssp),
                ..m1
            }
        } else {
            m1
        };
        let sp1 = m2.regs[6].wrapping_sub(1);
        let m3 = VmState {
            regs: m2.regs.update(6, sp1),
            memory: m2.memory.update(sp1 as int, m2.psr),
            ..m2
        };
        let sp2 = m3.regs[6].wrapping_sub(1);
        let m4 = VmState {
            regs: m3.regs.update(6, sp2),
            memory: m3.memory.update(sp2 as int, m3.pc),
            ..m3
        };
        let m5 = VmState { psr: m4.psr & 0x7FFF, ..m4 };
        let m6 = VmState { pc: m5.memory[vec as int], ..m5 };
        if vec == 0x20 && m6.keyboard_data is None {
            (m6, EventModel::ReadChar)
        } else {
            (m6, EventModel::Nothing)
        }
    } else {
        if vec == 0x20 {
            (m1, EventModel::ReadChar)
        } else if vec == 0x21 {
            (m1, EventModel::Output(m1.regs[0] as u8))
        } else if vec == 0x22 {
            (m1, EventModel::OutputString(spec_puts_bytes(m1.memory, m1.regs[0] as int)))
        } else if vec == 0x25 {
            (m1, EventModel::Halt)
        } else {
            (m1, EventModel::Error(VMError::UnimplementedTrap(vec as u8)))
        }
    }
}

/// One instruction: RTI, in both shortcut and OS mode.
pub open spec fn spec_rti(m: VmState) -> (VmState, EventModel) {
    if m.os_mode {
        if m.psr & 0x8000 != 0 {
            (m, EventModel::Error(VMError::PrivilegeViolation))
        } else {
            let m1 = VmState {
                pc: m.memory[m.regs[6] as int],
                regs: m.regs.update(6, m.regs[6].wrapping_add(1)),
                ..m
            };
            let m2 = VmState {
                psr: m1.memory[m1.regs[6] as int],
                regs: m1.regs.update(6, m1.regs[6].wrapping_add(1)),
                ..m1
            };
            if m2.psr & 0x8000 != 0 {
                (
                    VmState {
                        saved_ssp: m2.regs[6],
                        regs: m2.regs.update(6, m2.saved_usp),
                        ..m2
                    },
                    EventModel::Nothing,
                )
            } else {
                (m2, EventModel::Nothing)
            }
        }
    } else {
        (m, EventModel::Nothing)
    }
}

/// Clears the pending output byte, turning it into an Output event.
pub open spec fn spec_finish(m: VmState) -> (VmState, EventModel) {
    match m.pending_output {
        Some(c) => (VmState { pending_output: None, ..m }, EventModel::Output(c)),
        None => (m, EventModel::Nothing),
    }
}

/// The machine's transition function: what one `step` call does.
pub open spec fn spec_step(m: VmState) -> (VmState, EventModel) {
    if m.os_mode && m.memory[mmio::MCR as int] & 0x8000 == 0 {
        (m, EventModel::Halt)
    } else {
        let instr = m.memory[m.pc as int];
        let m1 = VmState { pc: m.pc.wrapping_add(1), ..m };
        let op = instr >> 12;
        if op == 0b0001 {
            spec_finish(spec_add(m1, instr))
        } else if op == 0b0101 {
            spec_finish(spec_and(m1, instr))
        } else if op == 0b1001 {
            spec_finish(spec_not(m1, instr))
        } else if op == 0b0000 {
            spec_finish(spec_br(m1, instr))
        } else if op == 0b1100 {
            spec_finish(spec_jmp(m1, instr))
        } else if op == 0b0100 {
            spec_finish(spec_jsr(m1, instr))
        } else if op == 0b0010 {
            spec_finish(spec_ld(m1, instr))
        } else if op == 0b1010 {
            spec_finish(spec_ldi(m1, instr))
        } else if op == 0b0110 {
            spec_finish(spec_ldr(m1, instr))
        } else if op == 0b1110 {
            spec_finish(spec_lea(m1, instr))
        } else if op == 0b0011 {
            spec_finish(spec_st(m1, instr))
        } else if op == 0b1011 {
            spec_finish(spec_sti(m1, instr))
        } else if op == 0b0111 {
            spec_finish(spec_str(m1, instr))
        } else if op == 0b1111 {
            spec_trap(m1, instr)
        } else if op == 0b1000 {
            spec_rti(m1)
        } else {
            (m1, EventModel::Error(VMError::ReservedOpcode(op as u8)))
        }
    }
}

/// The state after `n` transitions from `m`, events ignored.
pub open spec fn step_chain(m: VmState, n: nat) -> VmState
    decreases n,
{
    if n == 0 {
        m
    } else {
        spec_step(step_chain(m, (n - 1) as nat)).0
    }
}

/// The first `n` transitions from `m` all produce no event.
pub open spec fn silent_chain(m: VmState, n: nat) -> bool {
    forall|i: nat| i < n ==> #[trigger] spec_step(step_chain(m, i)).1 == EventModel::Nothing
}


/// Setting the condition codes leaves exactly one of the N, Z and P bits
/// of the PSR set, whatever the register value was.
pub proof fn lemma_one_condition_code(m: VmState, r: int)
    ensures
        ({
            let cc = m.with_flags(r).psr & 0x7;
            cc == 0b100 || cc == 0b010 || cc == 0b001
        }),
{
    let val = m.regs[r];
    let bits: u16 = if val == 0 {
        0b010
    } else if val & 0x8000 != 0 {
        0b100
    } else {
        0b001
    };
    let psr = m.psr;
    assert({
        let cc = ((psr & 0xFFF8) | bits) & 0x7;
        cc == 0b100 || cc == 0b010 || cc == 0b001
    }) by (bit_vector)
        requires
            bits == 0b100 || bits == 0b010 || bits == 0b001,
    ;
}

/// The machine's initial state: zeroed memory and registers, PC at the
/// default origin 0x3000, PSR in user mode with the Z flag set.
pub open spec fn spec_initial(os_mode: bool) -> VmState {
    VmState {
        memory: Seq::new(0x10000, |i: int| 0u16),
        regs: Seq::new(8, |i: int| 0u16),
        pc: 0x3000,
        psr: 0x8002,
        saved_ssp: 0x3000,
        saved_usp: 0x0000,
        os_mode: os_mode,
        keyboard_data: None,
        pending_output: None,
    }
}

/// LC-3 virtual machine state.
#[derive(Clone)]
pub struct LC3 {
    /// 64K words of memory; always exactly 65536 entries.
    pub memory: Vec<u16>,
    /// General-purpose registers R0-R7; always exactly 8 entries.
    pub regs: Vec<u16>,
    /// Program counter.
    pub pc: u16,
    /// Processor status register.
    /// Bit 15: privilege mode (0 = supervisor, 1 = user).
    /// Bits 10-8: priority level (0-7).
    /// Bits 2-0: condition codes (N=4, Z=2, P=1).
    pub psr: u16,
    /// Saved supervisor stack pointer (while in user mode).
    pub saved_ssp: u16,
    /// Saved user stack pointer (while in supervisor mode).
    pub saved_usp: u16,
    /// Whether OS mode is enabled (true = full trap execution, false = shortcut behaviour).
    pub os_mode: bool,
    /// Keyboard input buffer (set when a key is available).
    pub keyboard_data: Option<u8>,
    /// Pending output character (for DDR writes).
    pub pending_output: Option<u8>,
}

impl View for LC3 {
    type V = VmState;

    open spec fn view(&self) -> VmState {
        VmState {
            memory: self.memory@,
            regs: self.regs@,
            pc: self.pc,
            psr: self.psr,
            saved_ssp: self.saved_ssp,
            saved_usp: self.saved_usp,
            os_mode: self.os_mode,
            keyboard_data: self.keyboard_data,
            pending_output: self.pending_output,
        }
    }
}

impl Default for LC3 {
    /// A machine in the initial state, OS mode off.
    fn default() -> (res: Self)
        ensures
            res@ == spec_initial(false),
            res@.wf(),
    {
        let res = LC3 {
            memory: vec![0u16; 0x10000],
            regs: vec![0u16; 8],
            pc: 0x3000,
            psr: 0x8002,
            saved_ssp: 0x3000,
            saved_usp: 0x0000,
            os_mode: false,
            keyboard_data: None,
            pending_output: None,
        };
        proof {
            assert(res@ =~= spec_initial(false));
        }
        res
    }
}

impl LC3 {
    /// Reset the VM to its initial state; the OS mode flag is preserved.
    pub fn clear(&mut self)
        ensures
            final(self)@ == spec_initial(old(self)@.os_mode),
            final(self)@.wf(),
    {
        self.memory = vec![0u16; 0x10000];
        self.regs = vec![0u16; 8];
        self.pc = 0x3000;
        self.psr = 0x8002;
        self.saved_ssp = 0x3000;
        self.saved_usp = 0x0000;
        self.keyboard_data = None;
        self.pending_output = None;
        proof {
            assert(self@ =~= spec_initial(self@.os_mode));
        }
    }

    /// Enable or disable OS mode.
    /// When enabled, TRAPs jump to actual trap vectors and RTI works properly.
    /// When disabled, TRAPs are handled with shortcut behaviour.
    pub fn set_os_mode(&mut self, enabled: bool)
        ensures
            final(self)@ == (VmState { os_mode: enabled, ..old(self)@ }),
    {
        self.os_mode = enabled;
    }

    /// Check if OS mode is enabled.
    pub fn os_mode(&self) -> (r: bool)
        ensures
            r == self@.os_mode,
    {
        self.os_mode
    }

    /// Set keyboard input (for GETC/IN). The next KBSR read will show ready.
    pub fn set_keyboard_input(&mut self, c: u8)
        ensures
            final(self)@ == (VmState { keyboard_data: Some(c), ..old(self)@ }),
    {
        self.keyboard_data = Some(c);
    }

    /// Check if keyboard input is available.
    pub fn has_keyboard_input(&self) -> (r: bool)
        ensures
            r == (self@.keyboard_data is Some),
    {
        self.keyboard_data.is_some()
    }

    /// Get the PSR value.
    pub fn psr(&self) -> (r: u16)
        ensures
            r == self@.psr,
    {
        self.psr
    }

    /// Set the PSR value.
    pub fn set_psr(&mut self, psr: u16)
        ensures
            final(self)@ == (VmState { psr: psr, ..old(self)@ }),
    {
        self.psr = psr;
    }

    /// Check if in supervisor mode (PSR bit 15 clear).
    pub fn is_supervisor(&self) -> (r: bool)
        ensures
            r == (self@.psr & 0x8000 == 0),
    {
        self.psr & 0x8000 == 0
    }

    /// Returns true if the negative flag is set.
    pub fn n(&self) -> (r: bool)
        ensures
            r == (self@.psr & 0b100 != 0),
    {
        self.psr & 0b100 != 0
    }

    /// Returns true if the zero flag is set.
    pub fn z(&self) -> (r: bool)
        ensures
            r == (self@.psr & 0b010 != 0),
    {
        self.psr & 0b010 != 0
    }

    /// Returns true if the positive flag is set.
    pub fn p(&self) -> (r: bool)
        ensures
            r == (self@.psr & 0b001 != 0),
    {
        self.psr & 0b001 != 0
    }

    /// The condition code bits of the PSR.
    pub fn cond(&self) -> (r: u8)
        ensures
            r == (self@.psr & 0x7) as u8,
    {
        (self.psr & 0x7) as u8
    }

    /// Read from memory, handling memory-mapped I/O.
    pub fn mem_read(&mut self, addr: u16) -> (r: u16)
        requires
            old(self)@.wf(),
        ensures
            final(self)@.wf(),
            r == old(self)@.read_val(addr),
            final(self)@ == old(self)@.read_post(addr),
    {
        if addr == mmio::KBSR {
            if self.keyboard_data.is_some() {
                0x8000
            } else {
                0x0000
            }
        } else if addr == mmio::KBDR {
            let data: u16 = match self.keyboard_data {
                Some(c) => c as u16,
                None => 0,
            };
            self.keyboard_data = None;
            data
        } else if addr == mmio::DSR {
            0x8000
        } else if addr == mmio::DDR {
            0
        } else if addr == mmio::MCR {
            self.memory[addr as usize] | 0x8000
        } else {
            self.memory[addr as usize]
        }
    }

    /// Write to memory, handling memory-mapped I/O.
    /// Returns true if an output event occurred.
    pub fn mem_write(&mut self, addr: u16, val: u16) -> (r: bool)
        requires
            old(self)@.wf(),
        ensures
            final(self)@.wf(),
            final(self)@ == old(self)@.write_post(addr, val),
            r == old(self)@.write_is_output(addr),
    {
        if addr == mmio::KBSR || addr == mmio::KBDR || addr == mmio::DSR {
            false
        } else if addr == mmio::DDR {
            self.pending_output = Some(val as u8);
            true
        } else {
            self.memory[addr as usize] = val;
            proof {
                assert(self@ =~= old(self)@.write_post(addr, val));
            }
            false
        }
    }

    fn update_flags(&mut self, r: usize)
        requires
            old(self)@.wf(),
            r < 8,
        ensures
            final(self)@.wf(),
            final(self)@ == old(self)@.with_flags(r as int),
    {
        let val = self.regs[r];
        self.psr = (self.psr & 0xFFF8) | if val == 0 {
            0b010
        } else if val & 0x8000 != 0 {
            0b100
        } else {
            0b001
        };
    }

    fn add(&mut self, instr: u16)
        requires
            old(self)@.wf(),
        ensures
            final(self)@.wf(),
            final(self)@ == spec_add(old(self)@, instr),
    {
        let dr = ((instr >> 9) & 0x7) as usize;
        let sr1 = self.regs[((instr >> 6) & 0x7) as usize];
        let val = if instr & 0x20 != 0 {
            sign_extend(instr & 0x1F, 5)
        } else {
            self.regs[(instr & 0x7) as usize]
        };
        self.regs[dr] = sr1.wrapping_add(val);
        self.update_flags(dr);
        proof {
            assert(self@ =~= spec_add(old(self)@, instr));
        }
    }

    fn and(&mut self, instr: u16)
        requires
            old(self)@.wf(),
        ensures
            final(self)@.wf(),
            final(self)@ == spec_and(old(self)@, instr),
    {
        let dr = ((instr >> 9) & 0x7) as usize;
        let sr1 = self.regs[((instr >> 6) & 0x7) as usize];
        let val = if instr & 0x20 != 0 {
            sign_extend(instr & 0x1F, 5)
        } else {
            self.regs[(instr & 0x7) as usize]
        };
        self.regs[dr] = sr1 & val;
        self.update_flags(dr);
        proof {
            assert(self@ =~= spec_and(old(self)@, instr));
        }
    }

    fn not(&mut self, instr: u16)
        requires
            old(self)@.wf(),
        ensures
            final(self)@.wf(),
            final(self)@ == spec_not(old(self)@, instr),
    {
        let dr = ((instr >> 9) & 0x7) as usize;
        self.regs[dr] = !self.regs[((instr >> 6) & 0x7) as usize];
        self.update_flags(dr);
        proof {
            assert(self@ =~= spec_not(old(self)@, instr));
        }
    }

    fn br(&mut self, instr: u16)
        requires
            old(self)@.wf(),
        ensures
            final(self)@.wf(),
            final(self)@ == spec_br(old(self)@, instr),
    {
        let cond = (instr >> 9) & 0x7;
        let cc = (self.psr & 0x7) as u16;
        if cond & cc != 0 {
            self.pc = self.pc.wrapping_add(sign_extend(instr & 0x1FF, 9));
        }
        proof {
            assert(self@ =~= spec_br(old(self)@, instr));
        }
    }

    fn jmp(&mut self, instr: u16)
        requires
            old(self)@.wf(),
        ensures
            final(self)@.wf(),
            final(self)@ == spec_jmp(old(self)@, instr),
    {
        self.pc = self.regs[((instr >> 6) & 0x7) as usize];
        proof {
            assert(self@ =~= spec_jmp(old(self)@, instr));
        }
    }

    fn jsr(&mut self, instr: u16)
        requires
            old(self)@.wf(),
        ensures
            final(self)@.wf(),
            final(self)@ == spec_jsr(old(self)@, instr),
    {
        self.regs[7] = self.pc;
        self.pc = if instr & 0x800 != 0 {
            self.pc.wrapping_add(sign_extend(instr & 0x7FF, 11))
        } else {
            self.regs[((instr >> 6) & 0x7) as usize]
        };
        proof {
            assert(self@ =~= spec_jsr(old(self)@, instr));
        }
    }

    fn ld(&mut self, instr: u16)
        requires
            old(self)@.wf(),
        ensures
            final(self)@.wf(),
            final(self)@ == spec_ld(old(self)@, instr),
    {
        let dr = ((instr >> 9) & 0x7) as usize;
        let addr = self.pc.wrapping_add(sign_extend(instr & 0x1FF, 9));
        let v = self.mem_read(addr);
        self.regs[dr] = v;
        self.update_flags(dr);
        proof {
            assert(self@ =~= spec_ld(old(self)@, instr));
        }
    }

    fn ldi(&mut self, instr: u16)
        requires
            old(self)@.wf(),
        ensures
            final(self)@.wf(),
            final(self)@ == spec_ldi(old(self)@, instr),
    {
        let dr = ((instr >> 9) & 0x7) as usize;
        let ptr = self.pc.wrapping_add(sign_extend(instr & 0x1FF, 9));
        let addr = self.mem_read(ptr);
        let v = self.mem_read(addr);
        self.regs[dr] = v;
        self.update_flags(dr);
        proof {
            assert(self@ =~= spec_ldi(old(self)@, instr));
        }
    }

    fn ldr(&mut self, instr: u16)
        requires
            old(self)@.wf(),
        ensures
            final(self)@.wf(),
            final(self)@ == spec_ldr(old(self)@, instr),
    {
        let dr = ((instr >> 9) & 0x7) as usize;
        let base = self.regs[((instr >> 6) & 0x7) as usize];
        let addr = base.wrapping_add(sign_extend(instr & 0x3F, 6));
        let v = self.mem_read(addr);
        self.regs[dr] = v;
        self.update_flags(dr);
        proof {
            assert(self@ =~= spec_ldr(old(self)@, instr));
        }
    }

    fn lea(&mut self, instr: u16)
        requires
            old(self)@.wf(),
        ensures
            final(self)@.wf(),
            final(self)@ == spec_lea(old(self)@, instr),
    {
        let dr = ((instr >> 9) & 0x7) as usize;
        self.regs[dr] = self.pc.wrapping_add(sign_extend(instr & 0x1FF, 9));
        self.update_flags(dr);
        proof {
            assert(self@ =~= spec_lea(old(self)@, instr));
        }
    }

    fn st(&mut self, instr: u16)
        requires
            old(self)@.wf(),
        ensures
            final(self)@.wf(),
            final(self)@ == spec_st(old(self)@, instr),
    {
        let sr = self.regs[((instr >> 9) & 0x7) as usize];
        let addr = self.pc.wrapping_add(sign_extend(instr & 0x1FF, 9));
        self.mem_write(addr, sr);
    }

    fn sti(&mut self, instr: u16)
        requires
            old(self)@.wf(),
        ensures
            final(self)@.wf(),
            final(self)@ == spec_sti(old(self)@, instr),
    {
        let sr = self.regs[((instr >> 9) & 0x7) as usize];
        let ptr = self.pc.wrapping_add(sign_extend(instr & 0x1FF, 9));
        let addr = self.mem_read(ptr);
        self.mem_write(addr, sr);
    }

    fn str_instr(&mut self, instr: u16)
        requires
            old(self)@.wf(),
        ensures
            final(self)@.wf(),
            final(self)@ == spec_str(old(self)@, instr),
    {
        let sr = self.regs[((instr >> 9) & 0x7) as usize];
        let base = self.regs[((instr >> 6) & 0x7) as usize];
        let addr = base.wrapping_add(sign_extend(instr & 0x3F, 6));
        self.mem_write(addr, sr);
    }

    fn trap(&mut self, instr: u16) -> (r: VMEvent)
        requires
            old(self)@.wf(),
        ensures
            final(self)@.wf(),
            final(self)@ == spec_trap(old(self)@, instr).0,
            r@ == spec_trap(old(self)@, instr).1,
    {
        let trap_vec = instr & 0xFF;

        if self.os_mode {
            // Full OS mode: jump through the trap vector, switch to supervisor mode.
            self.regs[7] = self.pc;

            if !self.is_supervisor() {
                self.saved_usp = self.regs[6];
                let ssp = self.saved_ssp;
                self.regs[6] = ssp;
            }

            // Save PSR and PC on the supervisor stack.
            let sp1 = self.regs[6].wrapping_sub(1);
            self.regs[6] = sp1;
            let psr = self.psr;
            self.memory[sp1 as usize] = psr;
            let sp2 = self.regs[6].wrapping_sub(1);
            self.regs[6] = sp2;
            let pc = self.pc;
            self.memory[sp2 as usize] = pc;

            // Enter supervisor mode (clear bit 15).
            self.psr = self.psr & 0x7FFF;

            // Jump through the trap vector.
            self.pc = self.memory[trap_vec as usize];

            proof {
                assert(self@ =~= spec_trap(old(self)@, instr).0);
            }
            if trap_vec == 0x20 && !self.has_keyboard_input() {
                VMEvent::ReadChar
            } else {
                VMEvent::Nothing
            }
        } else {
            // Shortcut mode: handle traps directly.
            self.regs[7] = self.pc;
            proof {
                assert(self@ =~= spec_trap(old(self)@, instr).0);
            }
            if trap_vec == 0x20 {
                VMEvent::ReadChar
            } else if trap_vec == 0x21 {
                VMEvent::Output(self.regs[0] as u8)
            } else if trap_vec == 0x22 {
                let ghost mem = self@.memory;
                let ghost start = self.regs[0] as int;
                let mut addr: usize = self.regs[0] as usize;
                let mut chars: Vec<u8> = Vec::new();
                while addr < 0x10000 && self.memory[addr] != 0
                    invariant
                        self@.wf(),
                        self@ == spec_trap(old(self)@, instr).0,
                        mem == self@.memory,
                        start <= addr <= 0x10000,
                        spec_puts_bytes(mem, start) == chars@ + spec_puts_bytes(mem, addr as int),
                    decreases 0x10000 - addr,
                {
                    chars.push(self.memory[addr] as u8);
                    addr = addr + 1;
                    proof {
                        assert(spec_puts_bytes(mem, start) == chars@ + spec_puts_bytes(
                            mem,
                            addr as int,
                        ));
                    }
                }
                proof {
                    assert(spec_puts_bytes(mem, addr as int) =~= Seq::<u8>::empty());
                    assert(chars@ =~= spec_puts_bytes(mem, start));
                }
                VMEvent::OutputString(chars)
            } else if trap_vec == 0x25 {
                VMEvent::Halt
            } else {
                VMEvent::Error(VMError::UnimplementedTrap(trap_vec as u8))
            }
        }
    }

    fn rti(&mut self) -> (r: VMEvent)
        requires
            old(self)@.wf(),
        ensures
            final(self)@.wf(),
            final(self)@ == spec_rti(old(self)@).0,
            r@ == spec_rti(old(self)@).1,
    {
        if self.os_mode {
            if !self.is_supervisor() {
                // RTI in user mode is a privilege violation.
                return VMEvent::Error(VMError::PrivilegeViolation);
            }

            // Pop PC from the stack.
            self.pc = self.memory[self.regs[6] as usize];
            let sp1 = self.regs[6].wrapping_add(1);
            self.regs[6] = sp1;

            // Pop PSR from the stack.
            self.psr = self.memory[self.regs[6] as usize];
            let sp2 = self.regs[6].wrapping_add(1);
            self.regs[6] = sp2;

            // If returning to user mode, restore the user stack pointer.
            if !self.is_supervisor() {
                self.saved_ssp = self.regs[6];
                let usp = self.saved_usp;
                self.regs[6] = usp;
            }

            proof {
                assert(self@ =~= spec_rti(old(self)@).0);
            }
            VMEvent::Nothing
        } else {
            // Shortcut mode: RTI is a no-op.
            VMEvent::Nothing
        }
    }

    /// Execute a single instruction and return the resulting event.
    ///
    /// The PC is incremented before the instruction executes, so PC-relative
    /// addressing is calculated from PC+1. The state change and the event are
    /// exactly one [`spec_step`] transition.
    pub fn step(&mut self) -> (r: VMEvent)
        requires
            old(self)@.wf(),
        ensures
            final(self)@.wf(),
            final(self)@ == spec_step(old(self)@).0,
            r@ == spec_step(old(self)@).1,
    {
        // Halt when the MCR clock bit is cleared (OS mode only).
        if self.os_mode && self.memory[mmio::MCR as usize] & 0x8000 == 0 {
            return VMEvent::Halt;
        }

        let instr = self.memory[self.pc as usize];
        self.pc = self.pc.wrapping_add(1);

        let op = instr >> 12;
        if op == 0b0001 {
            self.add(instr);
        } else if op == 0b0101 {
            self.and(instr);
        } else if op == 0b1001 {
            self.not(instr);
        } else if op == 0b0000 {
            self.br(instr);
        } else if op == 0b1100 {
            self.jmp(instr);
        } else if op == 0b0100 {
            self.jsr(instr);
        } else if op == 0b0010 {
            self.ld(instr);
        } else if op == 0b1010 {
            self.ldi(instr);
        } else if op == 0b0110 {
            self.ldr(instr);
        } else if op == 0b1110 {
            self.lea(instr);
        } else if op == 0b0011 {
            self.st(instr);
        } else if op == 0b1011 {
            self.sti(instr);
        } else if op == 0b0111 {
            self.str_instr(instr);
        } else if op == 0b1111 {
            return self.trap(instr);
        } else if op == 0b1000 {
            return self.rti();
        } else {
            return VMEvent::Error(VMError::ReservedOpcode(op as u8));
        }

        // Check for pending output.
        match self.pending_output {
            Some(c) => {
                self.pending_output = None;
                proof {
                    assert(self@ =~= spec_step(old(self)@).0);
                }
                VMEvent::Output(c)
            },
            None => VMEvent::Nothing,
        }
    }

    /// Execute instructions until an I/O, halt or error event occurs: a
    /// silent chain of transitions followed by one that produces the event.
    ///
    /// The chain is bounded at 2^64 - 1 silent steps; if a program stays
    /// silent for that long (centuries of real time), the call gives up and
    /// returns [`VMEvent::Nothing`], and may simply be called again.
    pub fn run(&mut self) -> (r: VMEvent)
        requires
            old(self)@.wf(),
        ensures
            final(self)@.wf(),
            r@ != EventModel::Nothing ==> exists|n: nat|
                silent_chain(old(self)@, n) && final(self)@ == spec_step(
                    step_chain(old(self)@, n),
                ).0 && r@ == spec_step(step_chain(old(self)@, n)).1,
            r@ == EventModel::Nothing ==> silent_chain(old(self)@, 0xFFFF_FFFF_FFFF_FFFF as nat)
                && final(self)@ == step_chain(old(self)@, 0xFFFF_FFFF_FFFF_FFFF as nat),
    {
        let ghost s0 = self@;
        let ghost mut n: nat = 0nat;
        let mut fuel: u64 = 0xFFFF_FFFF_FFFF_FFFF;
        loop
            invariant
                self@.wf(),
                self@ == step_chain(s0, n),
                silent_chain(s0, n),
                s0 == old(self)@,
                n + fuel == 0xFFFF_FFFF_FFFF_FFFF,
            decreases fuel,
        {
            if fuel == 0 {
                return VMEvent::Nothing;
            }
            let event = self.step();
            fuel = fuel - 1;
            match event {
                VMEvent::Nothing => {
                    proof {
                        assert(spec_step(step_chain(s0, n)).1 == EventModel::Nothing);
                        n = n + 1;
                        assert(silent_chain(s0, n)) by {
                            assert(forall|i: nat|
                                i < n ==> #[trigger] spec_step(step_chain(s0, i)).1
                                    == EventModel::Nothing);
                        }
                    }
                },
                _ => {
                    proof {
                        assert(silent_chain(s0, n) && self@ == spec_step(step_chain(s0, n)).0
                            && event@ == spec_step(step_chain(s0, n)).1);
                    }
                    return event;
                },
            }
        }
    }
}

} // verus!
