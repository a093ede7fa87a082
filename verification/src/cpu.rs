//! A small CHIP-8-style processor: sixteen 8-bit registers, 4096 bytes of
//! memory, a 16-deep call stack, and a two-byte opcode dispatch loop.
//!
//! Execution is specified by a small-step machine: `spec_step` maps one
//! state to the next (or to a halt or a fault), and `run` follows it for at
//! most a given number of steps, returning exactly what the spec machine
//! says. Where the opcode dispatch meets a condition it cannot honor (an
//! unknown opcode, a full or empty call stack, a fetch past the end of
//! memory) it stops with `Fault` instead of going on.

use vstd::prelude::*;

verus! {

/// Bytes of addressable memory.
pub const MEMORY_SIZE: usize = 4096;

/// Depth of the call stack.
pub const STACK_SIZE: usize = 16;

/// Number of general-purpose registers.
pub const REGISTER_SIZE: usize = 16;

/// The mathematical state of the processor.
#[verifier::ext_equal]
pub struct CpuView {
    pub registers: Seq<u8>,
    pub memory: Seq<u8>,
    pub stack: Seq<u16>,
    pub stack_pointer: u16,
    pub program_counter: usize,
}

/// Well-formedness: the three stores have their fixed sizes, the stack
/// pointer stays within the stack, and the program counter never runs more
/// than one skipped instruction past the end of memory (a fetch at or past
/// the end faults before anything is read). Stack slots hold return
/// addresses, which are themselves bounded program counters.
pub open spec fn cpu_wf(s: CpuView) -> bool {
    &&& s.registers.len() == REGISTER_SIZE
    &&& s.memory.len() == MEMORY_SIZE
    &&& s.stack.len() == STACK_SIZE
    &&& s.stack_pointer <= STACK_SIZE
    &&& s.program_counter <= MEMORY_SIZE + 2
    &&& forall|i: int| 0 <= i < s.stack.len() ==> #[trigger] s.stack[i] <= (MEMORY_SIZE + 2) as u16
}

/// What one step of the machine yields: the next state, a normal halt
/// (opcode 0), or a fault, each carrying the state it leaves behind.
pub enum StepResult {
    Next(CpuView),
    Halt(CpuView),
    Fault(CpuView),
}

/// How a bounded run ended.
#[derive(Clone, Copy, Debug, PartialEq, Eq, Structural)]
pub enum RunOutcome {
    /// The program reached opcode 0 and stopped normally.
    Halted,
    /// The program reached a state the machine cannot step from.
    Fault,
    /// The step bound ran out before the program stopped.
    OutOfSteps,
}

/// State after clearing the screen: this machine drives no display, so
/// nothing changes.
pub open spec fn spec_cls(s: CpuView) -> CpuView {
    s
}

/// State after loading `kk` into register `vx`.
pub open spec fn spec_ld(s: CpuView, vx: u8, kk: u8) -> CpuView {
    CpuView { registers: s.registers.update(vx as int, kk), ..s }
}

/// State after adding `kk` into register `vx`, wrapping at 256.
pub open spec fn spec_add(s: CpuView, vx: u8, kk: u8) -> CpuView {
    CpuView {
        registers: s.registers.update(vx as int, ((s.registers[vx as int] + kk) % 256) as u8),
        ..s
    }
}

/// State after "skip if equal": the next instruction is skipped when the
/// two operand bytes are equal.
pub open spec fn spec_se(s: CpuView, vx: u8, kk: u8) -> CpuView {
    if vx == kk {
        CpuView { program_counter: (s.program_counter + 2) as usize, ..s }
    } else {
        s
    }
}

/// State after "skip if not equal".
pub open spec fn spec_sne(s: CpuView, vx: u8, kk: u8) -> CpuView {
    if vx != kk {
        CpuView { program_counter: (s.program_counter + 2) as usize, ..s }
    } else {
        s
    }
}

/// State after a jump to `addr`.
pub open spec fn spec_jmp(s: CpuView, addr: u16) -> CpuView {
    CpuView { program_counter: addr as usize, ..s }
}

/// State after calling the subroutine at `addr`: the current program
/// counter is pushed and control moves to `addr`. Meaningful only when the
/// stack has room.
pub open spec fn spec_call(s: CpuView, addr: u16) -> CpuView {
    CpuView {
        stack: s.stack.update(s.stack_pointer as int, s.program_counter as u16),
        stack_pointer: (s.stack_pointer + 1) as u16,
        program_counter: addr as usize,
        ..s
    }
}

/// State after returning from a subroutine: the last pushed program counter
/// is popped back. Meaningful only when the stack is not empty.
pub open spec fn spec_ret(s: CpuView) -> CpuView {
    CpuView {
        stack_pointer: (s.stack_pointer - 1) as u16,
        program_counter: s.stack[s.stack_pointer - 1] as usize,
        ..s
    }
}

/// State after register-to-register add with carry flag: register `x` takes
/// the wrapped sum, then the carry register (the last one) is set to 1 when
/// the freshly written sum is below the second operand's register as it
/// reads after the write, and to 0 otherwise.
pub open spec fn spec_add_xy(s: CpuView, x: u8, y: u8) -> CpuView {
    let sum = ((s.registers[x as int] + s.registers[y as int]) % 256) as u8;
    let r1 = s.registers.update(x as int, sum);
    let r2 = if r1[x as int] < r1[y as int] {
        r1.update(15, 1u8)
    } else {
        r1.update(15, 0u8)
    };
    CpuView { registers: r2, ..s }
}

/// State after bitwise-and of register `y` into register `x`.
pub open spec fn spec_and_xy(s: CpuView, x: u8, y: u8) -> CpuView {
    CpuView {
        registers: s.registers.update(x as int, s.registers[x as int] & s.registers[y as int]),
        ..s
    }
}

/// State after bitwise-or of register `y` into register `x`.
pub open spec fn spec_or_xy(s: CpuView, x: u8, y: u8) -> CpuView {
    CpuView {
        registers: s.registers.update(x as int, s.registers[x as int] | s.registers[y as int]),
        ..s
    }
}

/// State after bitwise-xor of register `y` into register `x`.
pub open spec fn spec_xor_xy(s: CpuView, x: u8, y: u8) -> CpuView {
    CpuView {
        registers: s.registers.update(x as int, s.registers[x as int] ^ s.registers[y as int]),
        ..s
    }
}

/// Dispatch of one decoded opcode against the state `s`, in which the
/// program counter has already moved past the instruction. The arms mirror
/// the fetch-execute loop's dispatch, in its order.
pub open spec fn spec_dispatch(s: CpuView, opcode: u16) -> StepResult {
    let x = ((opcode >> 8) & 0x0F) as u8;
    let y = ((opcode >> 4) & 0x0F) as u8;
    let kk = (opcode & 0x00FF) as u8;
    let op_minor = (opcode & 0x000F) as u8;
    let nnn = opcode & 0x0FFF;
    if opcode == 0x0000 {
        StepResult::Halt(s)
    } else if opcode == 0x00E0 {
        StepResult::Next(spec_cls(s))
    } else if opcode == 0x00EE {
        if s.stack_pointer == 0 {
            StepResult::Fault(s)
        } else {
            StepResult::Next(spec_ret(s))
        }
    } else if 0x1000 <= opcode && opcode <= 0x1FFF {
        StepResult::Next(spec_jmp(s, nnn))
    } else if 0x2000 <= opcode && opcode <= 0x2FFF {
        if s.stack_pointer >= STACK_SIZE as u16 {
            StepResult::Fault(s)
        } else {
            StepResult::Next(spec_call(s, nnn))
        }
    } else if 0x3000 <= opcode && opcode <= 0x3FFF {
        StepResult::Next(spec_se(s, x, kk))
    } else if 0x4000 <= opcode && opcode <= 0x4FFF {
        StepResult::Next(spec_sne(s, x, kk))
    } else if 0x5000 <= opcode && opcode <= 0x5FFF {
        StepResult::Next(spec_se(s, x, y))
    } else if 0x6000 <= opcode && opcode <= 0x6FFF {
        StepResult::Next(spec_ld(s, x, kk))
    } else if 0x7000 <= opcode && opcode <= 0x7FFF {
        StepResult::Next(spec_add(s, x, kk))
    } else if 0x0800 <= opcode && opcode <= 0x8FFF {
        if op_minor == 0x0 {
            StepResult::Next(spec_ld(s, x, s.registers[y as int]))
        } else if op_minor == 0x1 {
            StepResult::Next(spec_or_xy(s, x, y))
        } else if op_minor == 0x2 {
            StepResult::Next(spec_and_xy(s, x, y))
        } else if op_minor == 0x3 {
            StepResult::Next(spec_xor_xy(s, x, y))
        } else if op_minor == 0x4 {
            StepResult::Next(spec_add_xy(s, x, y))
        } else {
            StepResult::Fault(s)
        }
    } else {
        StepResult::Fault(s)
    }
}

/// One step of the machine: fetch the two opcode bytes at the program
/// counter (faulting, with nothing changed, if they lie outside memory),
/// move the program counter past them, and dispatch.
pub open spec fn spec_step(s: CpuView) -> StepResult {
    if s.program_counter + 1 >= MEMORY_SIZE {
        StepResult::Fault(s)
    } else {
        let op_hi = s.memory[s.program_counter as int] as u16;
        let op_lo = s.memory[s.program_counter as int + 1] as u16;
        let opcode = (op_hi << 8) | op_lo;
        spec_dispatch(CpuView { program_counter: (s.program_counter + 2) as usize, ..s }, opcode)
    }
}

/// At most `fuel` steps of the machine from `s`: the state reached and how
/// the run ended.
pub open spec fn spec_run(s: CpuView, fuel: nat) -> (CpuView, RunOutcome)
    decreases fuel,
{
    if fuel == 0 {
        (s, RunOutcome::OutOfSteps)
    } else {
        match spec_step(s) {
            StepResult::Halt(s2) => (s2, RunOutcome::Halted),
            StepResult::Fault(s2) => (s2, RunOutcome::Fault),
            StepResult::Next(s2) => spec_run(s2, (fuel - 1) as nat),
        }
    }
}

/// The processor: registers, memory, stack, stack pointer and program
/// counter.
pub struct CPU {
    registers: Vec<u8>,
    memory: Vec<u8>,
    stack: Vec<u16>,
    stack_pointer: u16,
    program_counter: usize,
}

impl View for CPU {
    type V = CpuView;

    closed spec fn view(&self) -> CpuView {
        CpuView {
            registers: self.registers@,
            memory: self.memory@,
            stack: self.stack@,
            stack_pointer: self.stack_pointer,
            program_counter: self.program_counter,
        }
    }
}

/// A vector of `n` zero bytes.
fn zero_bytes(n: usize) -> (r: Vec<u8>)
    ensures
        r@ == Seq::new(n as nat, |i: int| 0u8),
{
    let mut out: Vec<u8> = Vec::new();
    let mut i: usize = 0;
    while i < n
        invariant
            i <= n,
            out@ == Seq::new(i as nat, |j: int| 0u8),
        decreases n - i,
    {
        out.push(0);
        i = i + 1;
        assert(out@ =~= Seq::new(i as nat, |j: int| 0u8));
    }
    out
}

/// A vector of `n` zero words.
fn zero_words(n: usize) -> (r: Vec<u16>)
    ensures
        r@ == Seq::new(n as nat, |i: int| 0u16),
{
    let mut out: Vec<u16> = Vec::new();
    let mut i: usize = 0;
    while i < n
        invariant
            i <= n,
            out@ == Seq::new(i as nat, |j: int| 0u16),
        decreases n - i,
    {
        out.push(0);
        i = i + 1;
        assert(out@ =~= Seq::new(i as nat, |j: int| 0u16));
    }
    out
}

impl CPU {
    /// A fresh processor: everything zeroed.
    pub fn new() -> (r: CPU)
        ensures
            cpu_wf(r@),
            r@.registers == Seq::new(REGISTER_SIZE as nat, |i: int| 0u8),
            r@.memory == Seq::new(MEMORY_SIZE as nat, |i: int| 0u8),
            r@.stack == Seq::new(STACK_SIZE as nat, |i: int| 0u16),
            r@.stack_pointer == 0,
            r@.program_counter == 0,
    {
        CPU {
            registers: zero_bytes(REGISTER_SIZE),
            memory: zero_bytes(MEMORY_SIZE),
            stack: zero_words(STACK_SIZE),
            stack_pointer: 0,
            program_counter: 0,
        }
    }

    /// The value of register `i`.
    pub fn register(&self, i: u8) -> (r: u8)
        requires
            cpu_wf(self@),
            i < REGISTER_SIZE as u8,
        ensures
            r == self@.registers[i as int],
    {
        self.registers[i as usize]
    }

    /// Sets register `i` to `v`.
    pub fn set_register(&mut self, i: u8, v: u8)
        requires
            cpu_wf(old(self)@),
            i < REGISTER_SIZE as u8,
        ensures
            cpu_wf(final(self)@),
            final(self)@ == (CpuView { registers: old(self)@.registers.update(i as int, v), ..old(self)@ }),
    {
        self.registers.set(i as usize, v);
    }

    /// The byte at memory address `addr`.
    pub fn read_memory(&self, addr: u16) -> (r: u8)
        requires
            cpu_wf(self@),
            addr < MEMORY_SIZE as u16,
        ensures
            r == self@.memory[addr as int],
    {
        self.memory[addr as usize]
    }

    /// Writes `v` at memory address `addr`.
    pub fn write_memory(&mut self, addr: u16, v: u8)
        requires
            cpu_wf(old(self)@),
            addr < MEMORY_SIZE as u16,
        ensures
            cpu_wf(final(self)@),
            final(self)@ == (CpuView { memory: old(self)@.memory.update(addr as int, v), ..old(self)@ }),
    {
        self.memory.set(addr as usize, v);
    }

    /// Clears the screen; this machine drives no display, so nothing
    /// changes.
    pub fn cls(&mut self)
        ensures
            final(self)@ == old(self)@,
    {
    }

    /// Loads `kk` into register `vx`.
    pub fn ld(&mut self, vx: u8, kk: u8)
        requires
            cpu_wf(old(self)@),
            vx < REGISTER_SIZE as u8,
        ensures
            cpu_wf(final(self)@),
            final(self)@ == spec_ld(old(self)@, vx, kk),
    {
        self.registers.set(vx as usize, kk);
    }

    /// Adds `kk` into register `vx`, wrapping at 256.
    pub fn add(&mut self, vx: u8, kk: u8)
        requires
            cpu_wf(old(self)@),
            vx < REGISTER_SIZE as u8,
        ensures
            cpu_wf(final(self)@),
            final(self)@ == spec_add(old(self)@, vx, kk),
    {
        let cur = self.registers[vx as usize];
        let sum: u16 = cur as u16 + kk as u16;
        self.registers.set(vx as usize, (sum % 256) as u8);
    }

    /// Skips the next instruction if `vx` equals `kk`.
    pub fn se(&mut self, vx: u8, kk: u8)
        requires
            cpu_wf(old(self)@),
            old(self)@.program_counter <= MEMORY_SIZE,
        ensures
            cpu_wf(final(self)@),
            final(self)@ == spec_se(old(self)@, vx, kk),
    {
        if vx == kk {
            self.program_counter = self.program_counter + 2;
        }
    }

    /// Skips the next instruction if `vx` does not equal `kk`.
    pub fn sne(&mut self, vx: u8, kk: u8)
        requires
            cpu_wf(old(self)@),
            old(self)@.program_counter <= MEMORY_SIZE,
        ensures
            cpu_wf(final(self)@),
            final(self)@ == spec_sne(old(self)@, vx, kk),
    {
        if vx != kk {
            self.program_counter = self.program_counter + 2;
        }
    }

    /// Jumps to the 12-bit address `addr`.
    pub fn jmp(&mut self, addr: u16)
        requires
            cpu_wf(old(self)@),
            addr <= 0xFFF,
        ensures
            cpu_wf(final(self)@),
            final(self)@ == spec_jmp(old(self)@, addr),
    {
        self.program_counter = addr as usize;
    }

    /// Calls the subroutine at the 12-bit address `addr`. The stack must
    /// have room; the dispatch loop faults instead of calling when it has
    /// not.
    pub fn call(&mut self, addr: u16)
        requires
            cpu_wf(old(self)@),
            addr <= 0xFFF,
            old(self)@.stack_pointer < STACK_SIZE as u16,
        ensures
            cpu_wf(final(self)@),
            final(self)@ == spec_call(old(self)@, addr),
    {
        self.stack.set(self.stack_pointer as usize, self.program_counter as u16);
        self.stack_pointer = self.stack_pointer + 1;
        self.program_counter = addr as usize;
    }

    /// Returns from a subroutine. The stack must not be empty; the dispatch
    /// loop faults instead of returning when it is.
    pub fn ret(&mut self)
        requires
            cpu_wf(old(self)@),
            old(self)@.stack_pointer > 0,
        ensures
            cpu_wf(final(self)@),
            final(self)@ == spec_ret(old(self)@),
    {
        self.stack_pointer = self.stack_pointer - 1;
        self.program_counter = self.stack[self.stack_pointer as usize] as usize;
    }

    /// Adds register `vy` into register `vx`, wrapping at 256, and sets the
    /// carry register from the written sum.
    pub fn add_xy(&mut self, x: u8, y: u8)
        requires
            cpu_wf(old(self)@),
            x < REGISTER_SIZE as u8,
            y < REGISTER_SIZE as u8,
        ensures
            cpu_wf(final(self)@),
            final(self)@ == spec_add_xy(old(self)@, x, y),
    {
        let vx = self.registers[x as usize];
        let vy = self.registers[y as usize];
        let sum: u16 = vx as u16 + vy as u16;
        self.registers.set(x as usize, (sum % 256) as u8);
        if self.registers[x as usize] < self.registers[y as usize] {
            self.registers.set(15, 1);
        } else {
            self.registers.set(15, 0);
        }
    }

    /// Bitwise-and of register `vy` into register `vx`.
    pub fn and_xy(&mut self, x: u8, y: u8)
        requires
            cpu_wf(old(self)@),
            x < REGISTER_SIZE as u8,
            y < REGISTER_SIZE as u8,
        ensures
            cpu_wf(final(self)@),
            final(self)@ == spec_and_xy(old(self)@, x, y),
    {
        let vx = self.registers[x as usize];
        let vy = self.registers[y as usize];
        self.registers.set(x as usize, vx & vy);
    }

    /// Bitwise-or of register `vy` into register `vx`.
    pub fn or_xy(&mut self, x: u8, y: u8)
        requires
            cpu_wf(old(self)@),
            x < REGISTER_SIZE as u8,
            y < REGISTER_SIZE as u8,
        ensures
            cpu_wf(final(self)@),
            final(self)@ == spec_or_xy(old(self)@, x, y),
    {
        let vx = self.registers[x as usize];
        let vy = self.registers[y as usize];
        self.registers.set(x as usize, vx | vy);
    }

    /// Bitwise-xor of register `vy` into register `vx`.
    pub fn xor_xy(&mut self, x: u8, y: u8)
        requires
            cpu_wf(old(self)@),
            x < REGISTER_SIZE as u8,
            y < REGISTER_SIZE as u8,
        ensures
            cpu_wf(final(self)@),
            final(self)@ == spec_xor_xy(old(self)@, x, y),
    {
        let vx = self.registers[x as usize];
        let vy = self.registers[y as usize];
        self.registers.set(x as usize, vx ^ vy);
    }

    /// The fetch-execute loop: follows the spec machine from the current
    /// state for at most `max_steps` steps and returns how it ended. The
    /// final state and the outcome are exactly what `spec_run` assigns to
    /// the starting state and the bound.
    pub fn run(&mut self, max_steps: u64) -> (r: RunOutcome)
        requires
            cpu_wf(old(self)@),
        ensures
            cpu_wf(final(self)@),
            (final(self)@, r) == spec_run(old(self)@, max_steps as nat),
    {
        let mut steps: u64 = 0;
        loop
            invariant
                cpu_wf(self@),
                steps <= max_steps,
                spec_run(old(self)@, max_steps as nat) == spec_run(
                    self@,
                    (max_steps - steps) as nat,
                ),
            decreases max_steps - steps,
        {
            if steps == max_steps {
                return RunOutcome::OutOfSteps;
            }
            let ghost s0 = self@;
            let pc = self.program_counter;
            if pc + 1 >= MEMORY_SIZE {
                assert(spec_step(s0) == StepResult::Fault(s0));
                return RunOutcome::Fault;
            }
            let op_hi = self.memory[pc] as u16;
            let op_lo = self.memory[pc + 1] as u16;
            let opcode: u16 = (op_hi << 8) | op_lo;

            let x = ((opcode >> 8) & 0x0F) as u8;
            let y = ((opcode >> 4) & 0x0F) as u8;
            let kk = (opcode & 0x00FF) as u8;
            let op_minor = (opcode & 0x000F) as u8;
            let nnn = opcode & 0x0FFF;
            assert(((opcode >> 8) & 0x0F) < 16) by (bit_vector);
            assert(((opcode >> 4) & 0x0F) < 16) by (bit_vector);
            assert((opcode & 0x0FFF) <= 0xFFF) by (bit_vector);

            self.program_counter = pc + 2;
            let ghost s1 = self@;
            assert(spec_step(s0) == spec_dispatch(s1, opcode));

            if opcode == 0x0000 {
                assert(spec_step(s0) == StepResult::Halt(s1));
                return RunOutcome::Halted;
            } else if opcode == 0x00E0 {
                self.cls();
            } else if opcode == 0x00EE {
                if self.stack_pointer == 0 {
                    assert(spec_step(s0) == StepResult::Fault(s1));
                    return RunOutcome::Fault;
                }
                self.ret();
            } else if 0x1000 <= opcode && opcode <= 0x1FFF {
                self.jmp(nnn);
            } else if 0x2000 <= opcode && opcode <= 0x2FFF {
                if self.stack_pointer >= STACK_SIZE as u16 {
                    assert(spec_step(s0) == StepResult::Fault(s1));
                    return RunOutcome::Fault;
                }
                self.call(nnn);
            } else if 0x3000 <= opcode && opcode <= 0x3FFF {
                self.se(x, kk);
            } else if 0x4000 <= opcode && opcode <= 0x4FFF {
                self.sne(x, kk);
            } else if 0x5000 <= opcode && opcode <= 0x5FFF {
                self.se(x, y);
            } else if 0x6000 <= opcode && opcode <= 0x6FFF {
                self.ld(x, kk);
            } else if 0x7000 <= opcode && opcode <= 0x7FFF {
                self.add(x, kk);
            } else if 0x0800 <= opcode && opcode <= 0x8FFF {
                if op_minor == 0x0 {
                    let vy = self.registers[y as usize];
                    self.ld(x, vy);
                } else if op_minor == 0x1 {
                    self.or_xy(x, y);
                } else if op_minor == 0x2 {
                    self.and_xy(x, y);
                } else if op_minor == 0x3 {
                    self.xor_xy(x, y);
                } else if op_minor == 0x4 {
                    self.add_xy(x, y);
                } else {
                    assert(spec_step(s0) == StepResult::Fault(s1));
                    return RunOutcome::Fault;
                }
            } else {
                assert(spec_step(s0) == StepResult::Fault(s1));
                return RunOutcome::Fault;
            }
            assert(spec_step(s0) == StepResult::Next(self@));
            steps = steps + 1;
        }
    }
}

} // verus!
