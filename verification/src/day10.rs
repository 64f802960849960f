//! The cycle-counting video computer: `noop` burns one cycle, `addx` burns
//! two and then adds to the register; and packing a 6-row screen letter into
//! one word, four bits per row.
use vstd::prelude::*;

use crate::parse_num_from;

verus! {

/// Packs six 4-bit pixel rows into one `u32`, top row in the highest nibble.
pub fn ltr(line1: u32, line2: u32, line3: u32, line4: u32, line5: u32, line6: u32) -> (r: u32)
    ensures
        r == (line1 << 20u32) | (line2 << 16u32) | (line3 << 12u32) | (line4 << 8u32) | (line5
            << 4u32) | line6,
{
    (line1 << 20u32) | (line2 << 16u32) | (line3 << 12u32) | (line4 << 8u32) | (line5 << 4u32)
        | line6
}

/// A well-formed instruction line: `noop`, or `addx` with its argument.
pub open spec fn instr_wf(line: Seq<u8>) -> bool {
    &&& line.len() >= 1
    &&& (line[0] == 110 || (line[0] == 97 && line.len() >= 6))
}

/// An `i32` sum with the wraparound of machine arithmetic.
pub open spec fn wrap_add_i32(a: i32, b: i32) -> i32 {
    if a + b > i32::MAX {
        (a + b - 0x1_0000_0000) as i32
    } else if a + b < i32::MIN {
        (a + b + 0x1_0000_0000) as i32
    } else {
        (a + b) as i32
    }
}

/// The argument of an `addx` line: the decimal after the mnemonic, negated
/// after a minus sign, truncated as the register's word is.
pub open spec fn spec_addx_arg(line: Seq<u8>) -> i32 {
    if line[5] == 45 {
        (-((parse_num_from(line.skip(6), 0) as i32) as i64)) as i32
    } else {
        parse_num_from(line.skip(5), 0) as i32
    }
}

/// The register machine: a register, the pending addition with its cycle
/// countdown, and a cursor over the instruction lines.
pub struct Computer {
    pub register: i32,
    add_after: i32,
    cycles_until_add: usize,
    instructions: Vec<Vec<u8>>,
    cursor: usize,
}

impl Computer {
    /// The register's current value.
    pub closed spec fn spec_register(&self) -> i32 {
        self.register
    }

    /// The pending addition.
    pub closed spec fn spec_add_after(&self) -> i32 {
        self.add_after
    }

    /// Cycles left before the pending addition lands.
    pub closed spec fn spec_cycles(&self) -> int {
        self.cycles_until_add as int
    }

    /// The instruction lines.
    pub closed spec fn spec_instructions(&self) -> Seq<Vec<u8>> {
        self.instructions@
    }

    /// How many lines have been consumed.
    pub closed spec fn spec_cursor(&self) -> int {
        self.cursor as int
    }

    /// The cursor never leaves the program.
    pub closed spec fn wf(&self) -> bool {
        self.cursor <= self.instructions@.len()
    }

    /// A fresh computer over a program, register at one.
    pub fn new(instructions: Vec<Vec<u8>>) -> (c: Computer)
        ensures
            c.wf(),
            c.spec_register() == 1,
            c.spec_add_after() == 0,
            c.spec_cycles() == 0,
            c.spec_cursor() == 0,
            c.spec_instructions() == instructions@,
    {
        Computer { register: 1, add_after: 0, cycles_until_add: 0, instructions, cursor: 0 }
    }

    /// Decodes the line at the cursor into a pending addition and its cycle
    /// countdown, and consumes the line.
    fn load_instr(&mut self)
        requires
            old(self).wf(),
            old(self).spec_cursor() < old(self).spec_instructions().len(),
            instr_wf(old(self).spec_instructions()[old(self).spec_cursor()]@),
        ensures
            final(self).wf(),
            final(self).spec_register() == old(self).spec_register(),
            final(self).spec_instructions() == old(self).spec_instructions(),
            final(self).spec_cursor() == old(self).spec_cursor() + 1,
            ({
                let line = old(self).spec_instructions()[old(self).spec_cursor()]@;
                if line[0] == 110 {
                    final(self).spec_cycles() == 1 && final(self).spec_add_after() == 0
                } else {
                    final(self).spec_cycles() == 2 && final(self).spec_add_after()
                        == spec_addx_arg(line)
                }
            }),
    {
        let n = self.instructions.len();
        let instr = &self.instructions[self.cursor];
        if instr[0] == 110 {
            self.cycles_until_add = 1;
            self.add_after = 0;
        } else {
            self.cycles_until_add = 2;
            if instr[5] == 45 {
                let (_, tail) = instr.split_at(6);
                self.add_after = (-((#[verifier::truncate] (crate::parse_num(tail) as i32)) as i64)) as i32;
            } else {
                let (_, tail) = instr.split_at(5);
                self.add_after = #[verifier::truncate] (crate::parse_num(tail) as i32);
            }
        }
        self.cursor = self.cursor + 1;
    }

    /// One clock cycle: when the countdown hits zero the pending addition
    /// lands (wrapping as the register's word does) and the next line is
    /// decoded; false once the program is exhausted.
    pub fn step(&mut self) -> (more: bool)
        requires
            old(self).wf(),
            forall|k: int|
                0 <= k < old(self).spec_instructions().len() ==> instr_wf(
                    (#[trigger] old(self).spec_instructions()[k])@,
                ),
        ensures
            final(self).wf(),
            final(self).spec_instructions() == old(self).spec_instructions(),
            old(self).spec_cycles() > 0 ==> {
                &&& more
                &&& final(self).spec_register() == old(self).spec_register()
                &&& final(self).spec_add_after() == old(self).spec_add_after()
                &&& final(self).spec_cursor() == old(self).spec_cursor()
                &&& final(self).spec_cycles() == old(self).spec_cycles() - 1
            },
            (old(self).spec_cycles() == 0 && old(self).spec_cursor()
                == old(self).spec_instructions().len()) ==> {
                &&& !more
                &&& final(self).spec_register() == wrap_add_i32(old(self).spec_register(), old(self).spec_add_after())
                &&& final(self).spec_cursor() == old(self).spec_cursor()
            },
            (old(self).spec_cycles() == 0 && old(self).spec_cursor()
                < old(self).spec_instructions().len()) ==> {
                let line = old(self).spec_instructions()[old(self).spec_cursor()]@;
                &&& more
                &&& final(self).spec_register() == wrap_add_i32(old(self).spec_register(), old(self).spec_add_after())
                &&& final(self).spec_cursor() == old(self).spec_cursor() + 1
                &&& (line[0] == 110 ==> final(self).spec_cycles() == 0
                    && final(self).spec_add_after() == 0)
                &&& (line[0] != 110 ==> final(self).spec_cycles() == 1
                    && final(self).spec_add_after() == spec_addx_arg(line))
            },
    {
        if self.cycles_until_add == 0 {
            let wide: i64 = self.register as i64 + self.add_after as i64;
            self.register = if wide > i32::MAX as i64 {
                (wide - 0x1_0000_0000) as i32
            } else if wide < i32::MIN as i64 {
                (wide + 0x1_0000_0000) as i32
            } else {
                wide as i32
            };
            if self.cursor < self.instructions.len() {
                proof {
                    assert(instr_wf((old(self).spec_instructions()[self.cursor as int])@));
                }
                self.load_instr();
            } else {
                return false;
            }
        }
        self.cycles_until_add = self.cycles_until_add - 1;
        true
    }
}

} // verus!
