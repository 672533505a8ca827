//! The machine: operation handlers, the dispatch step and a bounded runner.

use vstd::prelude::*;
use vstd::arithmetic::power2::lemma2_to64;
use crate::memory::{SegmentManager, TableModel, lemma_agrees_but_for};
use crate::rumdis::{Field, field_value, get, op};

verus! {

/// The fourteen operations of the machine.
#[derive(Clone, Copy, Debug, PartialEq, Eq, Structural)]
pub enum Opcode {
    CMov,
    SegLoad,
    SegStore,
    Add,
    Mult,
    Div,
    BitNAND,
    Halt,
    MapSeg,
    UnmapSeg,
    Output,
    Input,
    LoadProg,
    LoadVal,
}

/// The operation that opcode `value` selects, if any.
pub open spec fn opcode_spec(value: u32) -> Option<Opcode> {
    if value == 0 {
        Some(Opcode::CMov)
    } else if value == 1 {
        Some(Opcode::SegLoad)
    } else if value == 2 {
        Some(Opcode::SegStore)
    } else if value == 3 {
        Some(Opcode::Add)
    } else if value == 4 {
        Some(Opcode::Mult)
    } else if value == 5 {
        Some(Opcode::Div)
    } else if value == 6 {
        Some(Opcode::BitNAND)
    } else if value == 7 {
        Some(Opcode::Halt)
    } else if value == 8 {
        Some(Opcode::MapSeg)
    } else if value == 9 {
        Some(Opcode::UnmapSeg)
    } else if value == 10 {
        Some(Opcode::Output)
    } else if value == 11 {
        Some(Opcode::Input)
    } else if value == 12 {
        Some(Opcode::LoadProg)
    } else if value == 13 {
        Some(Opcode::LoadVal)
    } else {
        None
    }
}

impl Opcode {
    pub fn from_u32(value: u32) -> (r: Option<Opcode>)
        ensures
            r == opcode_spec(value),
    {
        match value {
            0 => Some(Opcode::CMov),
            1 => Some(Opcode::SegLoad),
            2 => Some(Opcode::SegStore),
            3 => Some(Opcode::Add),
            4 => Some(Opcode::Mult),
            5 => Some(Opcode::Div),
            6 => Some(Opcode::BitNAND),
            7 => Some(Opcode::Halt),
            8 => Some(Opcode::MapSeg),
            9 => Some(Opcode::UnmapSeg),
            10 => Some(Opcode::Output),
            11 => Some(Opcode::Input),
            12 => Some(Opcode::LoadProg),
            13 => Some(Opcode::LoadVal),
            _ => None,
        }
    }
}

/// The operation that reached the memory when it failed.
#[derive(Clone, Copy, Debug, PartialEq, Eq, Structural)]
pub enum MemOp {
    Load,
    Store,
    Unmap,
    LoadProgram,
}

/// A fatal execution error.
#[derive(Clone, Copy, Debug, PartialEq, Eq, Structural)]
pub enum Fault {
    /// The program counter left segment 0.
    PcOutOfRange { pc: usize },
    /// Opcode 14 or 15, fetched at `pc`.
    InvalidOpcode { opcode: u32, pc: usize },
    /// The identifier names no live segment.
    UnmappedSegment { op: MemOp, id: u32 },
    /// The offset lies past the end of the segment.
    OutOfBounds { op: MemOp, id: u32, offset: u32 },
    /// An attempt to free segment 0.
    UnmapProgramSegment,
    DivideByZero,
    /// Every one of the 2^32 identifiers is in use.
    OutOfSegmentIds,
}

/// What a segmented load of cell `offset` of segment `id` gives.
pub open spec fn load_result(t: TableModel, id: u32, offset: u32) -> Result<u32, Fault> {
    if !t.is_live(id as int) {
        Err(Fault::UnmappedSegment { op: MemOp::Load, id })
    } else if offset >= t.segment(id as int).len() {
        Err(Fault::OutOfBounds { op: MemOp::Load, id, offset })
    } else {
        Ok(t.segment(id as int)[offset as int])
    }
}

/// What a segmented store of `value` into cell `offset` of segment `id` gives.
pub open spec fn store_result(t: TableModel, id: u32, offset: u32, value: u32) -> Result<
    TableModel,
    Fault,
> {
    if !t.is_live(id as int) {
        Err(Fault::UnmappedSegment { op: MemOp::Store, id })
    } else if offset >= t.segment(id as int).len() {
        Err(Fault::OutOfBounds { op: MemOp::Store, id, offset })
    } else {
        Ok(t.written(id, offset as int, value))
    }
}

/// What freeing `id` gives.
pub open spec fn unmap_result(t: TableModel, id: u32) -> Result<TableModel, Fault> {
    if id == 0 {
        Err(Fault::UnmapProgramSegment)
    } else if !t.is_live(id as int) {
        Err(Fault::UnmappedSegment { op: MemOp::Unmap, id })
    } else {
        Ok(t.freed(id))
    }
}

/// `R[A] := R[B]` when `R[C] != 0`: the value moved.
#[inline]
pub fn cmov(b: u32) -> (r: u32)
    ensures
        r == b,
{
    b
}

/// Loads cell `b` of segment `a`.
pub fn seg_load(a: u32, b: u32, segment_manager: &SegmentManager) -> (r: Result<u32, Fault>)
    ensures
        r == load_result(segment_manager@, a, b),
{
    match segment_manager.get_segment(a) {
        None => Err(Fault::UnmappedSegment { op: MemOp::Load, id: a }),
        Some(segment) => {
            if b as usize >= segment.len() {
                Err(Fault::OutOfBounds { op: MemOp::Load, id: a, offset: b })
            } else {
                Ok(segment[b as usize])
            }
        },
    }
}

/// Stores `c` into cell `b` of segment `a`.
pub fn seg_store(a: u32, b: u32, c: u32, segment_manager: &mut SegmentManager) -> (r: Result<
    (),
    Fault,
>)
    ensures
        match store_result(old(segment_manager)@, a, b, c) {
            Ok(t) => r is Ok && final(segment_manager)@ == t,
            Err(f) => r == Err::<(), Fault>(f) && final(segment_manager)@ == old(
                segment_manager,
            )@,
        },
{
    let ghost t = segment_manager@;
    match segment_manager.get_segment_mut(a) {
        None => Err(Fault::UnmappedSegment { op: MemOp::Store, id: a }),
        Some(segment) => {
            if b as usize >= segment.len() {
                proof {
                    lemma_agrees_but_for(segment_manager@, t, a, t.segment(a as int));
                    assert(t.replaced(a, t.segment(a as int)).slots =~= t.slots);
                }
                Err(Fault::OutOfBounds { op: MemOp::Store, id: a, offset: b })
            } else {
                segment[b as usize] = c;
                proof {
                    lemma_agrees_but_for(segment_manager@, t, a, t.segment(a as int).update(b as int, c));
                }
                Ok(())
            }
        },
    }
}

/// What loading segment `id` as the program gives, before the jump.
pub open spec fn load_prog_result(t: TableModel, id: u32) -> Result<TableModel, Fault> {
    if id == 0 {
        Ok(t)
    } else if !t.is_live(id as int) {
        Err(Fault::UnmappedSegment { op: MemOp::LoadProgram, id })
    } else {
        Ok(t.replaced(0, t.segment(id as int)))
    }
}

/// `b + c`, modulo 2^32.
#[inline]
pub fn add(b: u32, c: u32) -> (r: u32)
    ensures
        r == (b as int + c as int) % 0x1_0000_0000,
{
    b.wrapping_add(c)
}

/// `b * c`, modulo 2^32.
#[inline]
pub fn mult(b: u32, c: u32) -> (r: u32)
    ensures
        r == (b as int * c as int) % 0x1_0000_0000,
{
    b.wrapping_mul(c)
}

/// `b / c`, unsigned and truncating.
#[inline]
pub fn div(b: u32, c: u32) -> (r: u32)
    requires
        c != 0,
    ensures
        r == b as int / c as int,
{
    b / c
}

/// `NOT (b AND c)`.
#[inline]
pub fn bit_nand(b: u32, c: u32) -> (r: u32)
    ensures
        r == !(b & c),
{
    !(b & c)
}

/// Maps a new zeroed segment of `c` cells and returns its identifier.
pub fn map_seg(c: u32, segment_manager: &mut SegmentManager) -> (r: Result<u32, Fault>)
    requires
        old(segment_manager)@.wf(),
    ensures
        final(segment_manager)@.wf(),
        old(segment_manager)@.can_allocate() ==> {
            &&& r == Ok::<u32, Fault>(old(segment_manager)@.next_id())
            &&& final(segment_manager)@ == old(segment_manager)@.allocated(c as nat)
        },
        !old(segment_manager)@.can_allocate() ==> {
            &&& r == Err::<u32, Fault>(Fault::OutOfSegmentIds)
            &&& final(segment_manager)@ == old(segment_manager)@
        },
{
    if !segment_manager.can_allocate() {
        return Err(Fault::OutOfSegmentIds);
    }
    Ok(segment_manager.allocate_segment(c as usize))
}

/// Frees segment `c`; segment 0 and identifiers that are not live are refused.
pub fn unmap_seg(c: u32, segment_manager: &mut SegmentManager) -> (r: Result<(), Fault>)
    requires
        old(segment_manager)@.wf(),
    ensures
        final(segment_manager)@.wf(),
        match unmap_result(old(segment_manager)@, c) {
            Ok(t) => r is Ok && final(segment_manager)@ == t,
            Err(f) => r == Err::<(), Fault>(f) && final(segment_manager)@ == old(
                segment_manager,
            )@,
        },
{
    if c == 0 {
        return Err(Fault::UnmapProgramSegment);
    }
    if segment_manager.get_segment(c).is_none() {
        return Err(Fault::UnmappedSegment { op: MemOp::Unmap, id: c });
    }
    segment_manager.deallocate_segment(c);
    Ok(())
}

/// The byte that outputting `c` writes: values above 255 write nothing.
pub fn output_opp(c: u32) -> (r: Option<u8>)
    ensures
        c <= 255 ==> r == Some(c as u8),
        c > 255 ==> r is None,
{
    if c <= 255 {
        Some(c as u8)
    } else {
        None
    }
}

/// The register value that an input of `byte` stores: the byte itself, or
/// all ones at the end of the input.
pub fn input_opp(byte: Option<u8>) -> (r: u32)
    ensures
        r == match byte {
            Some(b) => b as u32,
            None => 0xFFFF_FFFFu32,
        },
{
    match byte {
        Some(b) => b as u32,
        None => u32::MAX,
    }
}

/// Replaces segment 0 by a copy of segment `b` (unless `b` is 0) and jumps
/// to `c`.
pub fn load_prog(b: u32, c: u32, segment_manager: &mut SegmentManager, counter: &mut usize) -> (r:
    Result<(), Fault>)
    requires
        old(segment_manager)@.wf(),
        old(segment_manager)@.is_live(0),
    ensures
        final(segment_manager)@.wf(),
        final(segment_manager)@.is_live(0),
        match load_prog_result(old(segment_manager)@, b) {
            Ok(t) => r is Ok && final(segment_manager)@ == t && *final(counter) == c as usize,
            Err(f) => r == Err::<(), Fault>(f) && final(segment_manager)@ == old(
                segment_manager,
            )@ && *final(counter) == *old(counter),
        },
{
    let ghost t = segment_manager@;
    if b != 0 {
        let copy = match segment_manager.get_segment(b) {
            Some(source) => source.clone(),
            None => {
                return Err(Fault::UnmappedSegment { op: MemOp::LoadProgram, id: b });
            },
        };
        assert(copy@ =~= t.segment(b as int));
        match segment_manager.get_segment_mut(0) {
            Some(zero) => {
                *zero = copy;
            },
            None => {},
        }
        proof {
            lemma_agrees_but_for(segment_manager@, t, 0, t.segment(b as int));
            let n = segment_manager@;
            assert forall|i: int| 0 <= i < n.free.len() implies {
                &&& (#[trigger] n.free[i] as int) < n.slots.len()
                &&& n.slots[n.free[i] as int] is None
            } by {
                assert(t.slots[t.free[i] as int] is None);
            }
        }
    }
    *counter = c as usize;
    Ok(())
}

/// Where the machine stands between steps.
#[derive(Clone, Copy, Debug, PartialEq, Eq, Structural)]
pub enum Status {
    Running,
    /// An input instruction waits for a byte to store in `register`.
    AwaitingInput { register: u8 },
    Halted,
    Faulted { fault: Fault },
}

/// What one step did, for the host to act on.
#[derive(Clone, Copy, Debug, PartialEq, Eq, Structural)]
pub enum Step {
    /// An instruction ran with no effect outside the machine.
    Continue,
    /// Write `byte` to the output.
    Output { byte: u8 },
    /// An output of a value above 255: nothing is written.
    OversizedOutput { value: u32 },
    /// Read one byte and hand it over with `provide_input`.
    Input { register: u8 },
    Halted,
    Faulted { fault: Fault },
}

/// The abstract state of a machine.
pub struct MachineModel {
    pub regs: Seq<u32>,
    pub pc: int,
    pub table: TableModel,
    pub status: Status,
}

/// The opcode of an instruction word.
pub open spec fn opcode_of(w: u32) -> nat {
    field_value(w, 4, 28)
}

pub open spec fn reg_a(w: u32) -> int {
    field_value(w, 3, 6) as int
}

pub open spec fn reg_b(w: u32) -> int {
    field_value(w, 3, 3) as int
}

pub open spec fn reg_c(w: u32) -> int {
    field_value(w, 3, 0) as int
}

/// The destination register of Load Value.
pub open spec fn load_reg(w: u32) -> int {
    field_value(w, 3, 25) as int
}

/// The 25-bit immediate of Load Value.
pub open spec fn load_imm(w: u32) -> u32 {
    field_value(w, 25, 0) as u32
}

pub open spec fn set_reg(s: MachineModel, r: int, v: u32) -> MachineModel {
    MachineModel { regs: s.regs.update(r, v), ..s }
}

pub open spec fn faulted(s: MachineModel, fault: Fault) -> (MachineModel, Step) {
    (MachineModel { status: Status::Faulted { fault }, ..s }, Step::Faulted { fault })
}

/// Runs instruction `w`, fetched at `at`, on `s`, whose counter already
/// points past it.
pub open spec fn execute_spec(s: MachineModel, w: u32, at: usize) -> (MachineModel, Step) {
    let (a, b, c) = (reg_a(w), reg_b(w), reg_c(w));
    let r = s.regs;
    match opcode_spec(opcode_of(w) as u32) {
        Some(Opcode::CMov) => (if r[c] != 0 { set_reg(s, a, r[b]) } else { s }, Step::Continue),
        Some(Opcode::SegLoad) => match load_result(s.table, r[b], r[c]) {
            Ok(v) => (set_reg(s, a, v), Step::Continue),
            Err(f) => faulted(s, f),
        },
        Some(Opcode::SegStore) => match store_result(s.table, r[a], r[b], r[c]) {
            Ok(t) => (MachineModel { table: t, ..s }, Step::Continue),
            Err(f) => faulted(s, f),
        },
        Some(Opcode::Add) => (
            set_reg(s, a, ((r[b] as int + r[c] as int) % 0x1_0000_0000) as u32),
            Step::Continue,
        ),
        Some(Opcode::Mult) => (
            set_reg(s, a, ((r[b] as int * r[c] as int) % 0x1_0000_0000) as u32),
            Step::Continue,
        ),
        Some(Opcode::Div) => if r[c] == 0 {
            faulted(s, Fault::DivideByZero)
        } else {
            (set_reg(s, a, (r[b] as int / r[c] as int) as u32), Step::Continue)
        },
        Some(Opcode::BitNAND) => (set_reg(s, a, !(r[b] & r[c])), Step::Continue),
        Some(Opcode::Halt) => (MachineModel { status: Status::Halted, ..s }, Step::Halted),
        Some(Opcode::MapSeg) => if s.table.can_allocate() {
            (
                MachineModel {
                    regs: r.update(b, s.table.next_id()),
                    table: s.table.allocated(r[c] as nat),
                    ..s
                },
                Step::Continue,
            )
        } else {
            faulted(s, Fault::OutOfSegmentIds)
        },
        Some(Opcode::UnmapSeg) => match unmap_result(s.table, r[c]) {
            Ok(t) => (MachineModel { table: t, ..s }, Step::Continue),
            Err(f) => faulted(s, f),
        },
        Some(Opcode::Output) => (
            s,
            if r[c] <= 255 {
                Step::Output { byte: r[c] as u8 }
            } else {
                Step::OversizedOutput { value: r[c] }
            },
        ),
        Some(Opcode::Input) => (
            MachineModel { status: Status::AwaitingInput { register: c as u8 }, ..s },
            Step::Input { register: c as u8 },
        ),
        Some(Opcode::LoadProg) => match load_prog_result(s.table, r[b]) {
            Ok(t) => (MachineModel { table: t, pc: r[c] as int, ..s }, Step::Continue),
            Err(f) => faulted(s, f),
        },
        Some(Opcode::LoadVal) => (set_reg(s, load_reg(w), load_imm(w)), Step::Continue),
        None => faulted(s, Fault::InvalidOpcode { opcode: opcode_of(w) as u32, pc: at }),
    }
}

/// One step of the machine: fetch the word at the counter in segment 0,
/// advance the counter, run the word. A machine that halted, faulted or
/// waits for input stays as it is.
pub open spec fn step_spec(s: MachineModel) -> (MachineModel, Step) {
    match s.status {
        Status::Halted => (s, Step::Halted),
        Status::Faulted { fault } => (s, Step::Faulted { fault }),
        Status::AwaitingInput { register } => (s, Step::Input { register }),
        Status::Running => if s.pc < s.table.segment(0).len() {
            execute_spec(
                MachineModel { pc: s.pc + 1, ..s },
                s.table.segment(0)[s.pc],
                s.pc as usize,
            )
        } else {
            faulted(s, Fault::PcOutOfRange { pc: s.pc as usize })
        },
    }
}

/// The machine after the byte (or the end of input) awaited is stored.
pub open spec fn input_spec(s: MachineModel, byte: Option<u8>) -> MachineModel {
    match s.status {
        Status::AwaitingInput { register } => MachineModel {
            regs: s.regs.update(
                register as int,
                match byte {
                    Some(b) => b as u32,
                    None => 0xFFFF_FFFFu32,
                },
            ),
            status: Status::Running,
            ..s
        },
        _ => s,
    }
}

/// The machine that is about to run `program`: registers zero, counter
/// zero, `program` as segment 0 and no other segment.
pub open spec fn initial_spec(program: Seq<u32>) -> MachineModel {
    MachineModel {
        regs: Seq::new(8, |i: int| 0u32),
        pc: 0,
        table: TableModel { slots: seq![Some(program)], free: Seq::empty() },
        status: Status::Running,
    }
}

/// A Universal Machine: eight registers, a program counter, the segment
/// table, and whether it runs.
pub struct Machine {
    registers: [u32; 8],
    pc: usize,
    memory: SegmentManager,
    status: Status,
}

impl View for Machine {
    type V = MachineModel;

    closed spec fn view(&self) -> MachineModel {
        MachineModel {
            regs: self.registers@,
            pc: self.pc as int,
            table: self.memory@,
            status: self.status,
        }
    }
}

impl Machine {
    pub closed spec fn wf(&self) -> bool {
        &&& self.memory@.wf()
        &&& self.memory@.is_live(0)
        &&& match self.status {
            Status::AwaitingInput { register } => register < 8,
            _ => true,
        }
    }

    /// A machine about to run `program`.
    pub fn new(program: Vec<u32>) -> (r: Machine)
        ensures
            r.wf(),
            r@ == initial_spec(program@),
    {
        let mut memory = SegmentManager::new();
        let id = memory.allocate_segment(program.len());
        let ghost t = memory@;
        match memory.get_segment_mut(id) {
            Some(segment) => {
                *segment = program;
            },
            None => {},
        }
        proof {
            lemma_agrees_but_for(memory@, t, 0, program@);
            assert(memory@.slots =~= seq![Some(program@)]);
        }
        let r = Machine { registers: [0u32; 8], pc: 0, memory, status: Status::Running };
        assert(r@.regs =~= Seq::new(8, |i: int| 0u32));
        r
    }

    pub fn status(&self) -> (r: Status)
        ensures
            r == self@.status,
    {
        self.status
    }

    /// The value of register `i`.
    pub fn register(&self, i: usize) -> (r: u32)
        requires
            i < 8,
        ensures
            r == self@.regs[i as int],
    {
        self.registers[i]
    }

    /// The segment table.
    pub fn memory(&self) -> (r: &SegmentManager)
        ensures
            r@ == self@.table,
    {
        &self.memory
    }

    pub fn pc(&self) -> (r: usize)
        ensures
            r == self@.pc,
    {
        self.pc
    }

    fn fail(&mut self, fault: Fault) -> (r: Step)
        ensures
            (final(self)@, r) == faulted(old(self)@, fault),
    {
        self.status = Status::Faulted { fault };
        Step::Faulted { fault }
    }

    /// Runs one step.
    pub fn step(&mut self) -> (r: Step)
        requires
            old(self).wf(),
        ensures
            final(self).wf(),
            (final(self)@, r) == step_spec(old(self)@),
    {
        match self.status {
            Status::Halted => {
                return Step::Halted;
            },
            Status::Faulted { fault } => {
                return Step::Faulted { fault };
            },
            Status::AwaitingInput { register } => {
                return Step::Input { register };
            },
            Status::Running => {},
        }
        let word = match self.memory.get_segment(0) {
            Some(program) => {
                if self.pc >= program.len() {
                    return self.fail(Fault::PcOutOfRange { pc: self.pc });
                }
                program[self.pc]
            },
            None => {
                return self.fail(Fault::PcOutOfRange { pc: self.pc });
            },
        };
        let at = self.pc;
        self.pc = self.pc + 1;
        proof {
            lemma2_to64();
        }
        let opcode = op(word);
        if opcode == 13 {
            let a = get(&Field::rl(), word);
            self.registers[a as usize] = get(&Field::vl(), word);
            return Step::Continue;
        }
        let a = get(&Field::ra(), word) as usize;
        let b = get(&Field::rb(), word) as usize;
        let c = get(&Field::rc(), word) as usize;
        match Opcode::from_u32(opcode) {
            Some(Opcode::CMov) => {
                if self.registers[c] != 0 {
                    self.registers[a] = cmov(self.registers[b]);
                }
            },
            Some(Opcode::SegLoad) => {
                match seg_load(self.registers[b], self.registers[c], &self.memory) {
                    Ok(v) => {
                        self.registers[a] = v;
                    },
                    Err(f) => {
                        return self.fail(f);
                    },
                }
            },
            Some(Opcode::SegStore) => {
                let (ra, rb, rc) = (self.registers[a], self.registers[b], self.registers[c]);
                if let Err(f) = seg_store(ra, rb, rc, &mut self.memory) {
                    return self.fail(f);
                }
            },
            Some(Opcode::Add) => {
                self.registers[a] = crate::machine::add(self.registers[b], self.registers[c]);
            },
            Some(Opcode::Mult) => {
                self.registers[a] = mult(self.registers[b], self.registers[c]);
            },
            Some(Opcode::Div) => {
                if self.registers[c] == 0 {
                    return self.fail(Fault::DivideByZero);
                }
                self.registers[a] = div(self.registers[b], self.registers[c]);
            },
            Some(Opcode::BitNAND) => {
                self.registers[a] = bit_nand(self.registers[b], self.registers[c]);
            },
            Some(Opcode::Halt) => {
                self.status = Status::Halted;
                return Step::Halted;
            },
            Some(Opcode::MapSeg) => {
                match map_seg(self.registers[c], &mut self.memory) {
                    Ok(id) => {
                        self.registers[b] = id;
                    },
                    Err(f) => {
                        return self.fail(f);
                    },
                }
            },
            Some(Opcode::UnmapSeg) => {
                if let Err(f) = unmap_seg(self.registers[c], &mut self.memory) {
                    return self.fail(f);
                }
            },
            Some(Opcode::Output) => {
                return match output_opp(self.registers[c]) {
                    Some(byte) => Step::Output { byte },
                    None => Step::OversizedOutput { value: self.registers[c] },
                };
            },
            Some(Opcode::Input) => {
                self.status = Status::AwaitingInput { register: c as u8 };
                return Step::Input { register: c as u8 };
            },
            Some(Opcode::LoadProg) => {
                let (rb, rc) = (self.registers[b], self.registers[c]);
                if let Err(f) = load_prog(rb, rc, &mut self.memory, &mut self.pc) {
                    return self.fail(f);
                }
            },
            Some(Opcode::LoadVal) => {},
            None => {
                return self.fail(Fault::InvalidOpcode { opcode, pc: at });
            },
        }
        Step::Continue
    }

    /// Stores the awaited input: `byte`, or `None` at the end of the input.
    pub fn provide_input(&mut self, byte: Option<u8>)
        requires
            old(self).wf(),
        ensures
            final(self).wf(),
            final(self)@ == input_spec(old(self)@, byte),
    {
        if let Status::AwaitingInput { register } = self.status {
            self.registers[register as usize] = input_opp(byte);
            self.status = Status::Running;
        }
    }
}

/// At most `fuel` steps from `s`, with `input` as the bytes to read: the
/// final machine and the bytes written. Storing an awaited input byte
/// counts as a step.
pub open spec fn run_spec(s: MachineModel, input: Seq<u8>, fuel: nat) -> (MachineModel, Seq<u8>)
    decreases fuel,
{
    if fuel == 0 {
        (s, Seq::empty())
    } else {
        match s.status {
            Status::Running => {
                let (next, step) = step_spec(s);
                let (last, out) = run_spec(next, input, (fuel - 1) as nat);
                match step {
                    Step::Output { byte } => (last, seq![byte] + out),
                    _ => (last, out),
                }
            },
            Status::AwaitingInput { .. } => if input.len() > 0 {
                run_spec(input_spec(s, Some(input[0])), input.drop_first(), (fuel - 1) as nat)
            } else {
                run_spec(input_spec(s, None), input, (fuel - 1) as nat)
            },
            _ => (s, Seq::empty()),
        }
    }
}

impl Machine {
    /// Whether the machine halted or faulted.
    pub fn is_stopped(&self) -> (r: bool)
        ensures
            r == (self@.status is Halted || self@.status is Faulted),
    {
        match self.status {
            Status::Halted | Status::Faulted { .. } => true,
            _ => false,
        }
    }
}

/// Runs `machine` for at most `max_steps` steps, reading from `input`, and
/// returns the bytes written.
pub fn execute_program(machine: &mut Machine, input: &[u8], max_steps: usize) -> (output: Vec<u8>)
    requires
        old(machine).wf(),
    ensures
        final(machine).wf(),
        (final(machine)@, output@) == run_spec(old(machine)@, input@, max_steps as nat),
{
    let ghost s0 = machine@;
    let mut output: Vec<u8> = Vec::new();
    let mut fuel: usize = max_steps;
    let mut pos: usize = 0;
    assert(input@.subrange(0, input@.len() as int) =~= input@);
    assert(output@ + run_spec(s0, input@, max_steps as nat).1 =~= run_spec(
        s0,
        input@,
        max_steps as nat,
    ).1);
    while fuel > 0 && !machine.is_stopped()
        invariant
            machine.wf(),
            pos <= input@.len(),
            run_spec(s0, input@, max_steps as nat) == (
                run_spec(machine@, input@.subrange(pos as int, input@.len() as int), fuel as nat).0,
                output@ + run_spec(
                    machine@,
                    input@.subrange(pos as int, input@.len() as int),
                    fuel as nat,
                ).1,
            ),
        decreases fuel,
    {
        let ghost rest = input@.subrange(pos as int, input@.len() as int);
        let ghost out0 = output@;
        match machine.status() {
            Status::AwaitingInput { .. } => {
                if pos < input.len() {
                    let byte = input[pos];
                    machine.provide_input(Some(byte));
                    pos = pos + 1;
                    assert(rest.drop_first() =~= input@.subrange(pos as int, input@.len() as int));
                } else {
                    machine.provide_input(None);
                }
            },
            _ => {
                let step = machine.step();
                if let Step::Output { byte } = step {
                    output.push(byte);
                    assert(out0 + (seq![byte] + run_spec(machine@, rest, (fuel - 1) as nat).1)
                        =~= output@ + run_spec(machine@, rest, (fuel - 1) as nat).1);
                }
            },
        }
        fuel = fuel - 1;
    }
    proof {
        let rest = input@.subrange(pos as int, input@.len() as int);
        assert(run_spec(machine@, rest, fuel as nat).1 =~= Seq::<u8>::empty());
        assert(output@ + Seq::<u8>::empty() =~= output@);
    }
    output
}

/// A store followed by a load of the same in-range cell gives back the
/// value stored.
pub proof fn lemma_store_then_load(t: TableModel, id: u32, offset: u32, value: u32)
    requires
        t.is_live(id as int),
        offset < t.segment(id as int).len(),
    ensures
        store_result(t, id, offset, value) is Ok,
        load_result(store_result(t, id, offset, value)->Ok_0, id, offset) == Ok::<u32, Fault>(value),
{
}

/// A segment of size 0 is live and empty, and every load or store through
/// its identifier faults.
pub proof fn lemma_empty_segment(t: TableModel)
    requires
        t.wf(),
        t.can_allocate(),
    ensures
        ({
            let id = t.next_id();
            let u = t.allocated(0);
            &&& u.is_live(id as int)
            &&& u.segment(id as int).len() == 0
            &&& forall|offset: u32| #[trigger] load_result(u, id, offset) is Err
            &&& forall|offset: u32, value: u32| #[trigger] store_result(u, id, offset, value) is Err
        }),
{
}

/// NAND alone gives negation and conjunction.
pub proof fn lemma_nand_basis(x: u32, y: u32)
    ensures
        !(x & x) == !x,
        !(!(x & y) & !(x & y)) == x & y,
{
    assert(!(x & x) == !x && !(!(x & y) & !(x & y)) == x & y) by (bit_vector);
}

/// Dividing 0, or anything smaller than the divisor, gives 0.
pub proof fn lemma_div_small(b: u32, c: u32)
    requires
        c != 0,
        b == 0 || b < c,
    ensures
        b as int / c as int == 0,
{
    vstd::arithmetic::div_mod::lemma_basic_div(b as int, c as int);
}

/// An identifier becomes live only by being the one that a Map Segment
/// step allocates and hands to the program; segment 0 stays live.
pub proof fn lemma_step_liveness(s: MachineModel, id: int)
    requires
        s.table.wf(),
        s.table.is_live(0),
    ensures
        ({
            let next = step_spec(s).0;
            &&& next.table.is_live(0)
            &&& next.table.is_live(id) && !s.table.is_live(id) ==> {
                &&& id == s.table.next_id()
                &&& next.table == s.table.allocated(next.table.segment(id).len())
            }
        }),
{
}

} // verus!
