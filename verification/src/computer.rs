//! The address space and the computer: a 15-bit-addressed multiplexer over
//! RAM, screen and keyboard, and the fetch-execute loop that wires
//! ROM -> CPU -> Memory -> ROM each cycle.

use vstd::arithmetic::power2::*;
use vstd::prelude::*;

use crate::arithmetic::add16;
use crate::cpu::{cpu_alu_out, cpu_next_a, cpu_next_d, cpu_next_pc, CPU};
use crate::dff::{Clock, ClockState};
use crate::keyboard::{key_event_of, spec_key_apply, Keyboard};
use crate::logic::{and, bit, mux4way16, not, spec_and, spec_not, Word};
use crate::numeric::{bits_val, lemma_bits_val_split};
use crate::pc::seq_zero16;
use crate::ram::{all_zero_mem, spec_mem_write, RAM16K};
use crate::rom::ROM32K;
use crate::screen::{Screen, ScreenEvent};
use crate::util::{str_to_binary, ParseError};

verus! {

/// What a 15-bit address selects: bit 0 low is RAM; bit 0 high with bit 1 low
/// is the screen; bits 0 and 1 both high is the keyboard.
pub open spec fn mem_read_model(
    ram: Seq<Seq<bit>>,
    screen: Seq<Seq<bit>>,
    keyboard: Option<Seq<bit>>,
    addr: Seq<bit>,
) -> Seq<bit> {
    if addr[0] == (bit::O) {
        ram[bits_val(addr.subrange(1, 15)) as int]
    } else if addr[1] == (bit::O) {
        screen[bits_val(addr.subrange(2, 15)) as int]
    } else {
        match keyboard {
            None => seq_zero16(),
            Some(s) => s,
        }
    }
}

/// The 15-bit address space: RAM for addresses with the top bit low, the
/// screen bitmap above it, and the keyboard register at the top.
pub struct Memory {
    pub ram: RAM16K,
    pub screen: Screen,
    pub keyboard: Keyboard,
}

impl Memory {
    /// Both storage regions own their full complement of children.
    pub open spec fn well_formed(self) -> bool {
        self.ram.well_formed() && self.screen.well_formed()
    }

    /// The words a read sees at the given phase, per region.
    pub open spec fn read_at(self, phase: ClockState, addr: Seq<bit>) -> Seq<bit> {
        mem_read_model(
            self.ram.out_at(phase),
            self.screen.out_at(phase),
            self.keyboard.code_view(),
            addr,
        )
    }

    pub fn new() -> (r: Memory)
        ensures
            r.well_formed(),
            r.ram.currents() == all_zero_mem(16384),
            r.ram.prevs() == all_zero_mem(16384),
            r.screen.currents() == all_zero_mem(8192),
            r.screen.prevs() == all_zero_mem(8192),
            r.keyboard.code_view() == Option::<Seq<bit>>::None,
    {
        Memory { ram: RAM16K::new(), screen: Screen::new(), keyboard: Keyboard::new() }
    }

    /// Deliver the input bridge's last keyboard message, if any, to the
    /// keyboard register. Nothing else changes.
    pub fn input_keyboard(&mut self, msg: Option<&str>)
        ensures
            final(self).keyboard.code_view() == spec_key_apply(
                old(self).keyboard.code_view(),
                match msg {
                    Some(m) => key_event_of(m@),
                    None => None,
                },
            ),
            final(self).ram == old(self).ram,
            final(self).screen == old(self).screen,
    {
        self.keyboard.input(msg);
    }

    /// Write `input` at `address` under the load enable: the word goes to RAM
    /// when the top address bit is low, to the screen when the top bit is
    /// high and the next low; writes take effect only during `Tick`. The
    /// screen write is reported as an event whether or not it was enabled.
    #[verifier::rlimit(60)]
    pub fn input(&mut self, clock_t: &Clock, input: Word, address: [bit; 15], load: bit) -> (ev:
        ScreenEvent)
        requires
            old(self).well_formed(),
        ensures
            final(self).well_formed(),
            final(self).ram.currents() == spec_mem_write(
                old(self).ram.currents(),
                clock_t.state,
                bits_val(address@.subrange(1, 15)),
                input@,
                spec_and(spec_not(address@[0]), load),
            ),
            final(self).ram.prevs() == (if clock_t.state == (ClockState::Tick) {
                old(self).ram.currents()
            } else {
                old(self).ram.prevs()
            }),
            final(self).screen.currents() == spec_mem_write(
                old(self).screen.currents(),
                clock_t.state,
                bits_val(address@.subrange(2, 15)),
                input@,
                spec_and(spec_and(address@[0], spec_not(address@[1])), load),
            ),
            final(self).screen.prevs() == (if clock_t.state == (ClockState::Tick) {
                old(self).screen.currents()
            } else {
                old(self).screen.prevs()
            }),
            final(self).keyboard == old(self).keyboard,
            ev.register_index == bits_val(address@.subrange(2, 15)),
            ev.x == bits_val(address@.subrange(2, 15)) % 32,
            ev.y == bits_val(address@.subrange(2, 15)) / 32,
            ev.value == input,
    {
        let ram_addr = [
            address[1],
            address[2],
            address[3],
            address[4],
            address[5],
            address[6],
            address[7],
            address[8],
            address[9],
            address[10],
            address[11],
            address[12],
            address[13],
            address[14],
        ];
        let screen_addr = [
            address[2],
            address[3],
            address[4],
            address[5],
            address[6],
            address[7],
            address[8],
            address[9],
            address[10],
            address[11],
            address[12],
            address[13],
            address[14],
        ];
        proof {
            assert(ram_addr@ =~= address@.subrange(1, 15));
            assert(screen_addr@ =~= address@.subrange(2, 15));
        }
        self.ram.input(clock_t, input, ram_addr, and(not(address[0]), load));
        let ev = self.screen.input(
            clock_t,
            input,
            screen_addr,
            and(and(address[0], not(address[1])), load),
        );
        ev
    }

    /// Read the word at `address` at the clock's current phase: the RAM word
    /// under a low top bit, else the screen word or the keyboard register as
    /// the second bit picks.
    #[verifier::rlimit(60)]
    pub fn output(&self, clock_t: &Clock, address: [bit; 15]) -> (r: Word)
        requires
            self.well_formed(),
        ensures
            r@ == self.read_at(clock_t.state, address@),
    {
        let ram_addr = [
            address[1],
            address[2],
            address[3],
            address[4],
            address[5],
            address[6],
            address[7],
            address[8],
            address[9],
            address[10],
            address[11],
            address[12],
            address[13],
            address[14],
        ];
        let screen_addr = [
            address[2],
            address[3],
            address[4],
            address[5],
            address[6],
            address[7],
            address[8],
            address[9],
            address[10],
            address[11],
            address[12],
            address[13],
            address[14],
        ];
        proof {
            assert(ram_addr@ =~= address@.subrange(1, 15));
            assert(screen_addr@ =~= address@.subrange(2, 15));
        }
        let ram_out = self.ram.output(clock_t, ram_addr);
        let screen_out = self.screen.output(clock_t, screen_addr);
        let keyboard_out = self.keyboard.output();
        let sel = [address[0], address[1]];
        let r = mux4way16(ram_out, ram_out, screen_out, keyboard_out, sel);
        proof {
            crate::numeric::lemma_bits_val2(sel@);
        }
        r
    }
}

/// The whole machine as one mathematical state: the program image, the three
/// CPU registers, the three memory regions, and the two values the loop
/// threads from cycle to cycle (the fetch address and the word last read).
#[verifier::ext_equal]
pub struct Machine {
    pub rom: Seq<Seq<bit>>,
    pub a: Seq<bit>,
    pub d: Seq<bit>,
    pub pc_reg: Seq<bit>,
    pub ram: Seq<Seq<bit>>,
    pub screen: Seq<Seq<bit>>,
    pub keyboard: Option<Seq<bit>>,
    pub pc: Seq<bit>,
    pub in_m: Seq<bit>,
}

/// One full clock cycle: fetch the instruction at the threaded counter, run
/// it through the CPU, apply the memory write, and read the addressed word
/// back for the next cycle.
pub open spec fn spec_cycle(m: Machine, reset: bit) -> Machine {
    let instr = m.rom[bits_val(m.pc) as int];
    let alu = cpu_alu_out(m.a, m.d, m.in_m, instr);
    let write_m = if instr[0] == (bit::I) && instr[12] == (bit::I) {
        bit::I
    } else {
        bit::O
    };
    let a2 = cpu_next_a(m.a, m.d, m.in_m, instr);
    let d2 = cpu_next_d(m.a, m.d, m.in_m, instr);
    let pc_reg2 = cpu_next_pc(m.pc_reg, m.a, m.d, m.in_m, instr, reset);
    let address_m = a2.subrange(1, 16);
    let ram2 = spec_mem_write(
        m.ram,
        ClockState::Tick,
        bits_val(address_m.subrange(1, 15)),
        alu,
        spec_and(spec_not(address_m[0]), write_m),
    );
    let screen2 = spec_mem_write(
        m.screen,
        ClockState::Tick,
        bits_val(address_m.subrange(2, 15)),
        alu,
        spec_and(spec_and(address_m[0], spec_not(address_m[1])), write_m),
    );
    Machine {
        rom: m.rom,
        a: a2,
        d: d2,
        pc_reg: pc_reg2,
        ram: ram2,
        screen: screen2,
        keyboard: m.keyboard,
        pc: pc_reg2.subrange(1, 16),
        in_m: mem_read_model(ram2, screen2, m.keyboard, address_m),
    }
}

/// `spec_cycle` applied `n` times.
pub open spec fn spec_run(m: Machine, reset: bit, n: nat) -> Machine
    decreases n,
{
    if n == 0 {
        m
    } else {
        spec_cycle(spec_run(m, reset, (n - 1) as nat), reset)
    }
}

/// The loop's termination test: the counter that fetched the cycle just
/// executed sits one short of the number of loaded words, modulo 2^16.
pub open spec fn spec_halted(pc: Seq<bit>, count: nat) -> bool {
    (bits_val(pc) + 1) % 0x10000 == count
}

/// The computer: program store, CPU, and the memory address space.
pub struct Computer {
    pub rom: ROM32K,
    pub cpu: CPU,
    pub memory: Memory,
}

impl Computer {
    /// Every storage tree owns its full complement of children.
    pub open spec fn well_formed(self) -> bool {
        self.rom.well_formed() && self.memory.well_formed()
    }

    /// The machine state this computer embodies, around a threaded fetch
    /// address and last-read word.
    pub open spec fn machine(self, pc: Seq<bit>, in_m: Seq<bit>) -> Machine {
        Machine {
            rom: self.rom.prevs(),
            a: self.cpu.a_register.currents(),
            d: self.cpu.d_register.currents(),
            pc_reg: self.cpu.pc.register.currents(),
            ram: self.memory.ram.currents(),
            screen: self.memory.screen.currents(),
            keyboard: self.memory.keyboard.code_view(),
            pc,
            in_m,
        }
    }

    pub fn new() -> (r: Computer)
        ensures
            r.well_formed(),
            r.rom.currents() == all_zero_mem(32768),
            r.rom.prevs() == all_zero_mem(32768),
            r.cpu.a_register.currents() == seq_zero16(),
            r.cpu.d_register.currents() == seq_zero16(),
            r.cpu.pc.register.currents() == seq_zero16(),
            r.memory.ram.currents() == all_zero_mem(16384),
            r.memory.screen.currents() == all_zero_mem(8192),
            r.memory.keyboard.code_view() == Option::<Seq<bit>>::None,
    {
        Computer { rom: ROM32K::new(), cpu: CPU::new(), memory: Memory::new() }
    }

    /// Deliver the input bridge's last keyboard message, if any.
    pub fn input_keyboard(&mut self, msg: Option<&str>)
        ensures
            final(self).memory.keyboard.code_view() == spec_key_apply(
                old(self).memory.keyboard.code_view(),
                match msg {
                    Some(m) => key_event_of(m@),
                    None => None,
                },
            ),
            final(self).rom == old(self).rom,
            final(self).cpu == old(self).cpu,
            final(self).memory.ram == old(self).memory.ram,
            final(self).memory.screen == old(self).memory.screen,
    {
        self.memory.input_keyboard(msg);
    }

    /// Run one full cycle (one `Tick`, one `Tock`): fetch at `pc`, execute,
    /// write memory back, and read the addressed word for the next cycle.
    /// Returns the next fetch address, the word read, and the screen event of
    /// this cycle's write-back.
    pub fn execute(&mut self, pc: [bit; 15], in_m: Word, reset: bit) -> (r: (
        [bit; 15],
        Word,
        ScreenEvent,
    ))
        requires
            old(self).well_formed(),
            in_m@.len() == 16,
        ensures
            final(self).well_formed(),
            final(self).machine(r.0@, r.1@) == spec_cycle(old(self).machine(pc@, in_m@), reset),
            final(self).rom == old(self).rom,
    {
        let mut clock = Clock::new();

        let instruction = self.rom.output(&clock, pc);
        let (out_m, write_m, address_m, next_pc) = self.cpu.run(&clock, in_m, instruction, reset);
        let ev = self.memory.input(&clock, out_m, address_m, write_m);

        clock.next();
        let in_m2 = self.memory.output(&clock, address_m);

        proof {
            let m0 = old(self).machine(pc@, in_m@);
            let m1 = spec_cycle(m0, reset);
            assert(instruction@ == m0.rom[bits_val(pc@) as int]);
            assert(final(self).cpu.a_register.currents() == m1.a);
            assert(address_m@ == m1.a.subrange(1, 16));
            assert(final(self).machine(next_pc@, in_m2@) =~= m1);
        }
        (next_pc, in_m2, ev)
    }

    /// Whether the counter value that fetched the cycle just executed was the
    /// last loaded instruction: all bits of the result are high exactly when
    /// the counter plus one (modulo 2^16) equals the loaded word count.
    fn is_last(instruction_num: Word, pc: [bit; 15]) -> (r: bool)
        requires
            instruction_num@.len() == 16,
        ensures
            r <==> spec_halted(pc@, bits_val(instruction_num@)),
    {
        let pc_16 = Word(
            [
                bit::O,
                pc[0],
                pc[1],
                pc[2],
                pc[3],
                pc[4],
                pc[5],
                pc[6],
                pc[7],
                pc[8],
                pc[9],
                pc[10],
                pc[11],
                pc[12],
                pc[13],
                pc[14],
            ],
        );
        proof {
            assert(pc_16@.subrange(1, 16) =~= pc@);
            lemma_bits_val_split(pc_16@, 1);
            assert(pc_16@.subrange(0, 1).drop_last().len() == 0);
            assert(bits_val(pc_16@.subrange(0, 1).drop_last()) == 0);
            assert(pc_16@.subrange(0, 1).last() == (bit::O));
            assert(bits_val(pc_16@.subrange(0, 1)) == 0);
            assert(bits_val(pc_16@.subrange(0, 1)) * pow2(15) == 0) by (nonlinear_arith)
                requires
                    bits_val(pc_16@.subrange(0, 1)) == 0,
            ;
            assert(pc_16@.subrange(1, 16) == pc@);
            assert(bits_val(pc_16@) == bits_val(pc@));
        }
        let pc_incr = add16(pc_16, Word::from_value(1));
        let mut equal = true;
        for i in 0..16
            invariant
                pc_incr@.len() == 16,
                instruction_num@.len() == 16,
                equal <==> (forall|j: int|
                    0 <= j < i ==> instruction_num@[j] == pc_incr@[j]),
        {
            if !bits_eq(instruction_num.0[i], pc_incr.0[i]) {
                equal = false;
            }
        }
        proof {
            if equal {
                assert(instruction_num@ =~= pc_incr@);
            }
            crate::numeric::lemma_val_bits_roundtrip(instruction_num@);
            crate::numeric::lemma_val_bits_roundtrip(pc_incr@);
            lemma2_to64();
        }
        equal
    }

    /// Load a program and run it until the counter has executed the last
    /// loaded instruction, or until `max_cycles` cycles have run. Returns
    /// how many cycles ran when the program terminated, and nothing when the
    /// cycle budget was exhausted first (a spin-wait that never reaches the
    /// last instruction runs forever; the budget is the cancellation hook).
    /// With `reset` set, the counter is forced to zero at every latch, so
    /// execution begins at address zero whatever jump the program encodes.
    #[verifier::loop_isolation(false)]
    pub fn run(&mut self, program: &Vec<Word>, reset: bool, max_cycles: u64) -> (r: Option<u64>)
        requires
            old(self).well_formed(),
            program@.len() <= 32768,
            forall|i: int| 0 <= i < program@.len() ==> (#[trigger] program@[i])@.len() == 16,
        ensures
            ({
                let count = program@.len();
                let m0 = Machine {
                    rom: Seq::new(
                        32768,
                        |i: int|
                            if i < count {
                                program@[i]@
                            } else {
                                old(self).rom.currents()[i]
                            },
                    ),
                    a: old(self).cpu.a_register.currents(),
                    d: old(self).cpu.d_register.currents(),
                    pc_reg: old(self).cpu.pc.register.currents(),
                    ram: old(self).memory.ram.currents(),
                    screen: old(self).memory.screen.currents(),
                    keyboard: old(self).memory.keyboard.code_view(),
                    pc: Seq::new(15, |i: int| bit::O),
                    in_m: seq_zero16(),
                };
                let rb = if reset {
                    bit::I
                } else {
                    bit::O
                };
                &&& (r matches Some(n) ==> {
                    &&& 1 <= n <= max_cycles
                    &&& spec_halted(spec_run(m0, rb, (n - 1) as nat).pc, count)
                    &&& (forall|k: nat|
                        k < (n - 1) as nat ==> !spec_halted(#[trigger] spec_run(m0, rb, k).pc, count))
                    &&& machine_agrees(*final(self), spec_run(m0, rb, n as nat))
                })
                &&& (r is None ==> {
                    &&& (forall|k: nat|
                        k < max_cycles ==> !spec_halted(#[trigger] spec_run(m0, rb, k).pc, count))
                    &&& machine_agrees(*final(self), spec_run(m0, rb, max_cycles as nat))
                })
            }),
    {
        let count_word = self.rom.load(program);
        let reset_bit = if reset {
            bit::I
        } else {
            bit::O
        };

        let mut pc: [bit; 15] = [bit::O; 15];
        let mut in_m = Word([bit::O; 16]);
        let mut cycles: u64 = 0;
        let ghost m0 = self.machine(pc@, in_m@);
        proof {
            assert(pc@ =~= Seq::new(15, |i: int| bit::O));
            assert(in_m@ =~= seq_zero16());
        }
        loop
            invariant
                self.well_formed(),
                cycles <= max_cycles,
                program@.len() <= 32768,
                count_word@.len() == 16,
                bits_val(count_word@) == program@.len(),
                in_m@.len() == 16,
                self.machine(pc@, in_m@) == spec_run(m0, reset_bit, cycles as nat),
                forall|k: nat|
                    k < cycles as nat ==> !spec_halted(
                        #[trigger] spec_run(m0, reset_bit, k).pc,
                        program@.len(),
                    ),
            decreases max_cycles - cycles,
        {
            if cycles == max_cycles {
                return None;
            }
            let ghost pc_before = pc@;
            let (next_pc, next_in_m, _ev) = self.execute(pc, in_m, reset_bit);
            cycles = cycles + 1;
            if Computer::is_last(count_word, pc) {
                return Some(cycles);
            }
            pc = next_pc;
            in_m = next_in_m;
        }
    }

    /// The word the memory holds at the address the given fifteen binary
    /// digits denote, or the parse error for any other text.
    #[verifier::rlimit(60)]
    pub fn memory_out(&self, address_str: &str) -> (r: Result<Word, ParseError>)
        requires
            self.well_formed(),
        ensures
            r is Ok <==> (address_str@.len() == 15 && crate::util::all_binary(address_str@)),
            r matches Ok(w) ==> w@ == self.memory.read_at(
                ClockState::Tock,
                crate::util::bits_of_text(address_str@),
            ),
            address_str@.len() != 15 ==> r == Err::<Word, ParseError>(ParseError::WrongLength),
            address_str@.len() == 15 && !crate::util::all_binary(address_str@) ==> r == Err::<
                Word,
                ParseError,
            >(ParseError::BadCharacter),
    {
        let bits = match str_to_binary(address_str) {
            Ok(v) => v,
            Err(e) => {
                if address_str.unicode_len() == 15 {
                    return Err(e);
                } else {
                    return Err(ParseError::WrongLength);
                }
            },
        };
        if bits.len() != 15 {
            return Err(ParseError::WrongLength);
        }
        let address = [
            bits[0],
            bits[1],
            bits[2],
            bits[3],
            bits[4],
            bits[5],
            bits[6],
            bits[7],
            bits[8],
            bits[9],
            bits[10],
            bits[11],
            bits[12],
            bits[13],
            bits[14],
        ];
        proof {
            assert(address@ =~= crate::util::bits_of_text(address_str@));
        }
        let mut clock = Clock::new();
        clock.next();
        Ok(self.memory.output(&clock, address))
    }
}

impl Computer {
    /// The words the memory holds in the address range `[from, to)`, each
    /// address whose word is not all-low paired with the word, ascending.
    #[verifier::rlimit(60)]
    pub fn memory_dump(&self, from: u16, to: u16) -> (r: Vec<(u16, Word)>)
        requires
            self.well_formed(),
            from <= to <= 32768,
        ensures
            dump_view(r@) == spec_dump(self.memory, from as int, to as int),
    {
        let mut out: Vec<(u16, Word)> = Vec::new();
        let mut clock = Clock::new();
        clock.next();
        proof {
            assert(dump_view(out@) =~= spec_dump(self.memory, from as int, from as int));
        }
        for a in from..to
            invariant
                self.well_formed(),
                to <= 32768,
                clock.state == (ClockState::Tock),
                dump_view(out@) == spec_dump(self.memory, from as int, a as int),
        {
            let word16 = Word::from_value(a);
            let address = [
                word16.0[1],
                word16.0[2],
                word16.0[3],
                word16.0[4],
                word16.0[5],
                word16.0[6],
                word16.0[7],
                word16.0[8],
                word16.0[9],
                word16.0[10],
                word16.0[11],
                word16.0[12],
                word16.0[13],
                word16.0[14],
                word16.0[15],
            ];
            proof {
                assert(address@ =~= word16@.subrange(1, 16));
                crate::numeric::lemma_bits_of_drop_msb(a as nat, 15);
            }
            let w = self.memory.output(&clock, address);
            let ghost before = out@;
            if w.value() != 0 {
                out.push((a, w));
            }
            proof {
                if bits_val(w@) != 0 {
                    assert(dump_view(out@) =~= dump_view(before).push((a, w@)));
                }
                assert(dump_view(out@) =~= spec_dump(self.memory, from as int, a + 1));
            }
        }
        out
    }
}

/// The pairs of a dump, with each word abstracted to its bits.
pub open spec fn dump_view(r: Seq<(u16, Word)>) -> Seq<(u16, Seq<bit>)> {
    Seq::new(r.len(), |i: int| (r[i].0, r[i].1@))
}

/// The dump of the address range `[from, to)`: every address whose word at
/// the latched (`Tock`) phase is not all-low, paired with that word, in
/// ascending order.
pub open spec fn spec_dump(m: Memory, from: int, to: int) -> Seq<(u16, Seq<bit>)>
    decreases to - from,
{
    if from >= to {
        Seq::empty()
    } else {
        let w = m.read_at(ClockState::Tock, crate::numeric::bits_of((to - 1) as nat, 15));
        spec_dump(m, from, to - 1) + (if bits_val(w) != 0 {
            seq![((to - 1) as u16, w)]
        } else {
            Seq::empty()
        })
    }
}

/// Whether two bits agree; the loop over the comparison word uses it.
fn bits_eq(a: bit, b: bit) -> (r: bool)
    ensures
        r <==> a == b,
{
    match (a, b) {
        (bit::O, bit::O) => true,
        (bit::I, bit::I) => true,
        _ => false,
    }
}

/// Whether a computer's components embody the given machine state, leaving
/// the threaded fetch address and last-read word aside.
pub open spec fn machine_agrees(c: Computer, m: Machine) -> bool {
    &&& c.rom.prevs() == m.rom
    &&& c.cpu.a_register.currents() == m.a
    &&& c.cpu.d_register.currents() == m.d
    &&& c.cpu.pc.register.currents() == m.pc_reg
    &&& c.memory.ram.currents() == m.ram
    &&& c.memory.screen.currents() == m.screen
    &&& c.memory.keyboard.code_view() == m.keyboard
}

} // verus!
