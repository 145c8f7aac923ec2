//! x86_64 descriptor encodings: the TSS and its GDT descriptor, the 256
//! interrupt gates and which handler each vector gets, and the 8259 PIC mask
//! update that unmasks one IRQ line.
use vstd::prelude::*;
use crate::bus::{le16_bytes, le32_bytes, put16, put32};

verus! {

/// Kernel code segment selector.
pub const KERNEL_CS: u16 = 0x08;
/// 64-bit interrupt gate (P=1, DPL=0, type 0xE): interrupts stay off in the handler.
pub const GATE_INTERRUPT: u8 = 0x8E;
/// 64-bit trap gate (P=1, DPL=0, type 0xF): the interrupt flag is kept.
pub const GATE_TRAP: u8 = 0x8F;
/// First vector of the remapped PIC lines.
pub const IRQ_BASE: u8 = 0x20;
/// IST slot of the double-fault handler.
pub const IST_DOUBLE_FAULT: u8 = 1;
/// IST slot of the NMI handler.
pub const IST_NMI: u8 = 2;
/// IST slot of the machine-check handler.
pub const IST_MACHINE_CHECK: u8 = 3;
/// IST slot of the page-fault handler.
pub const IST_PAGE_FAULT: u8 = 4;
/// Size of the TSS in bytes.
pub const TSS_SIZE: usize = 104;

/// Low 8 bytes of the 16-byte TSS descriptor: limit[15:0], base[23:0], the
/// present 64-bit available-TSS type byte 0x89, limit[19:16], base[31:24].
pub fn tss_desc_low(base: u64, limit: u16) -> (r: u64)
    ensures
        r & 0xFFFF == limit as u64,
        (r >> 16) & 0xFF_FFFF == base & 0xFF_FFFF,
        (r >> 40) & 0xFF == 0x89,
        (r >> 48) & 0xFF == 0,
        r >> 56 == (base >> 24) & 0xFF,
{
    let limit = limit as u64;
    let r = ((limit & 0xFFFF) | ((base & 0x00FF_FFFF) << 16) | (0x89u64 << 40) | (((limit >> 16) & 0xF) << 48) | (((base >> 24) & 0xFF) << 56));
    assert(((limit & 0xFFFF) | ((base & 0x00FF_FFFF) << 16) | (0x89u64 << 40) | (((limit >> 16) & 0xF) << 48) | (((base >> 24) & 0xFF) << 56)) & 0xFFFF == limit
        && (((limit & 0xFFFF) | ((base & 0x00FF_FFFF) << 16) | (0x89u64 << 40) | (((limit >> 16) & 0xF) << 48) | (((base >> 24) & 0xFF) << 56)) >> 16) & 0xFF_FFFF == base & 0xFF_FFFF
        && (((limit & 0xFFFF) | ((base & 0x00FF_FFFF) << 16) | (0x89u64 << 40) | (((limit >> 16) & 0xF) << 48) | (((base >> 24) & 0xFF) << 56)) >> 40) & 0xFF == 0x89
        && (((limit & 0xFFFF) | ((base & 0x00FF_FFFF) << 16) | (0x89u64 << 40) | (((limit >> 16) & 0xF) << 48) | (((base >> 24) & 0xFF) << 56)) >> 48) & 0xFF == 0
        && ((limit & 0xFFFF) | ((base & 0x00FF_FFFF) << 16) | (0x89u64 << 40) | (((limit >> 16) & 0xF) << 48) | (((base >> 24) & 0xFF) << 56)) >> 56 == (base >> 24) & 0xFF) by (bit_vector)
        requires
            limit < 0x1_0000,
    ;
    r
}

/// High 8 bytes of the TSS descriptor: base[63:32], the rest reserved (zero).
pub fn tss_desc_high(base: u64) -> (r: u64)
    ensures
        r == base >> 32,
{
    let r = (base >> 32) & 0xFFFF_FFFF;
    assert((base >> 32) & 0xFFFF_FFFF == base >> 32) by (bit_vector);
    r
}

/// Little-endian bytes of a 64-bit value.
pub open spec fn le64_bytes(v: u64) -> Seq<u8> {
    le32_bytes((v % 0x1_0000_0000) as u32) + le32_bytes((v / 0x1_0000_0000) as u32)
}

fn put64(buf: &mut Vec<u8>, v: u64)
    ensures
        final(buf)@ == old(buf)@ + le64_bytes(v),
{
    put32(buf, (v % 0x1_0000_0000) as u32);
    put32(buf, (v / 0x1_0000_0000) as u32);
    assert(buf@ =~= old(buf)@ + le64_bytes(v));
}

/// The x86_64 task state segment: ring stack pointers, the seven interrupt
/// stack table entries and the I/O bitmap offset.
pub struct TaskStateSegment {
    pub rsp: [u64; 3],
    pub ist: [u64; 7],
    pub iomap_base: u16,
}

/// The 104 bytes the CPU reads: reserved dword, RSP0..2, reserved qword,
/// IST1..7, reserved qword and word, then the I/O bitmap offset.
pub open spec fn tss_bytes(t: TaskStateSegment) -> Seq<u8> {
    le32_bytes(0) + le64_bytes(t.rsp[0]) + le64_bytes(t.rsp[1]) + le64_bytes(t.rsp[2]) + le64_bytes(0)
        + le64_bytes(t.ist[0]) + le64_bytes(t.ist[1]) + le64_bytes(t.ist[2]) + le64_bytes(t.ist[3])
        + le64_bytes(t.ist[4]) + le64_bytes(t.ist[5]) + le64_bytes(t.ist[6]) + le64_bytes(0)
        + le16_bytes(0) + le16_bytes(t.iomap_base)
}

impl TaskStateSegment {
    /// All stack pointers zero; the I/O bitmap offset at the end of the segment,
    /// which denies every port.
    pub fn new() -> (r: Self)
        ensures
            r.rsp@ == seq![0u64, 0, 0],
            r.ist@ == seq![0u64, 0, 0, 0, 0, 0, 0],
            r.iomap_base == TSS_SIZE,
    {
        TaskStateSegment { rsp: [0; 3], ist: [0; 7], iomap_base: 104 }
    }

    /// Segment limit for the GDT descriptor: size minus one.
    pub fn limit() -> (r: u16)
        ensures
            r == TSS_SIZE - 1,
    {
        103
    }

    /// Sets the ring-0 stack pointer loaded on entry from ring 3.
    pub fn set_rsp0(&mut self, rsp: u64)
        ensures
            final(self).rsp@ == old(self).rsp@.update(0, rsp),
            final(self).ist@ == old(self).ist@,
            final(self).iomap_base == old(self).iomap_base,
    {
        self.rsp[0] = rsp;
    }

    /// Records the tops of the four fault stacks in IST1..IST4 (double fault,
    /// NMI, machine check, page fault); IST5..IST7 are kept.
    pub fn install_ist(&mut self, double_fault: u64, nmi: u64, machine_check: u64, page_fault: u64)
        ensures
            final(self).ist@ == old(self).ist@.update(0, double_fault).update(1, nmi).update(2, machine_check)
                .update(3, page_fault),
            final(self).rsp@ == old(self).rsp@,
            final(self).iomap_base == old(self).iomap_base,
    {
        self.ist[(IST_DOUBLE_FAULT - 1) as usize] = double_fault;
        self.ist[(IST_NMI - 1) as usize] = nmi;
        self.ist[(IST_MACHINE_CHECK - 1) as usize] = machine_check;
        self.ist[(IST_PAGE_FAULT - 1) as usize] = page_fault;
    }

    /// The in-memory layout of the segment.
    pub fn to_bytes(&self) -> (r: Vec<u8>)
        ensures
            r@ == tss_bytes(*self),
            r@.len() == TSS_SIZE,
    {
        let mut b: Vec<u8> = Vec::new();
        put32(&mut b, 0);
        put64(&mut b, self.rsp[0]);
        put64(&mut b, self.rsp[1]);
        put64(&mut b, self.rsp[2]);
        put64(&mut b, 0);
        put64(&mut b, self.ist[0]);
        put64(&mut b, self.ist[1]);
        put64(&mut b, self.ist[2]);
        put64(&mut b, self.ist[3]);
        put64(&mut b, self.ist[4]);
        put64(&mut b, self.ist[5]);
        put64(&mut b, self.ist[6]);
        put64(&mut b, 0);
        put16(&mut b, 0);
        put16(&mut b, self.iomap_base);
        b
    }
}

/// One 16-byte IDT gate: handler address split in three, code selector, IST
/// slot and type byte.
#[derive(Clone, Copy, Debug, PartialEq, Eq, Structural)]
pub struct GateDescriptor {
    pub offset_low: u16,
    pub selector: u16,
    pub ist: u8,
    pub type_attr: u8,
    pub offset_mid: u16,
    pub offset_high: u32,
    pub reserved: u32,
}

/// The handler address a gate points at.
pub open spec fn gate_target(g: GateDescriptor) -> int {
    g.offset_low + 0x1_0000 * g.offset_mid + 0x1_0000_0000 * g.offset_high
}

/// The descriptor `GateDescriptor::new` builds.
pub open spec fn gate_spec(handler: u64, gate_type: u8, ist_index: u8) -> GateDescriptor {
    GateDescriptor {
        offset_low: (handler % 0x1_0000) as u16,
        selector: KERNEL_CS,
        ist: ist_index % 8,
        type_attr: gate_type,
        offset_mid: ((handler / 0x1_0000) % 0x1_0000) as u16,
        offset_high: (handler / 0x1_0000_0000) as u32,
        reserved: 0,
    }
}

impl GateDescriptor {
    /// A vector that is not present: all fields zero.
    pub fn absent() -> (r: Self)
        ensures
            r == (GateDescriptor { offset_low: 0, selector: 0, ist: 0, type_attr: 0, offset_mid: 0, offset_high: 0, reserved: 0 }),
    {
        GateDescriptor { offset_low: 0, selector: 0, ist: 0, type_attr: 0, offset_mid: 0, offset_high: 0, reserved: 0 }
    }

    /// A ring-0 gate to `handler` in the kernel code segment, with the IST slot
    /// masked to three bits.
    pub fn new(handler: u64, gate_type: u8, ist_index: u8) -> (r: Self)
        ensures
            r == gate_spec(handler, gate_type, ist_index),
            gate_target(r) == handler,
    {
        let r = GateDescriptor {
            offset_low: (handler & 0xFFFF) as u16,
            selector: KERNEL_CS,
            ist: ist_index & 0x07,
            type_attr: gate_type,
            offset_mid: ((handler >> 16) & 0xFFFF) as u16,
            offset_high: ((handler >> 32) & 0xFFFF_FFFF) as u32,
            reserved: 0,
        };
        assert(handler & 0xFFFF == handler % 0x1_0000 && (handler >> 16) & 0xFFFF == (handler / 0x1_0000) % 0x1_0000
            && (handler >> 32) & 0xFFFF_FFFF == handler / 0x1_0000_0000 && ist_index & 0x07 == ist_index % 8) by (bit_vector);
        r
    }
}

/// Which handler a vector is routed to.
#[derive(Clone, Copy, Debug, PartialEq, Eq, Structural)]
pub enum IdtHandler {
    DivideError,
    Debug,
    Nmi,
    Breakpoint,
    Overflow,
    BoundRange,
    InvalidOpcode,
    DeviceNotAvailable,
    DoubleFault,
    InvalidTss,
    SegmentNotPresent,
    StackSegment,
    GeneralProtection,
    PageFault,
    X87Fpu,
    AlignmentCheck,
    MachineCheck,
    SimdFp,
    Virtualization,
    Irq0,
    IrqMaster,
    IrqSlave,
    Default,
}

/// Number of distinct handlers.
pub const IDT_HANDLER_COUNT: usize = 23;

/// Position of a handler in the address table `build_idt` takes.
pub open spec fn handler_index(h: IdtHandler) -> int {
    match h {
        IdtHandler::DivideError => 0,
        IdtHandler::Debug => 1,
        IdtHandler::Nmi => 2,
        IdtHandler::Breakpoint => 3,
        IdtHandler::Overflow => 4,
        IdtHandler::BoundRange => 5,
        IdtHandler::InvalidOpcode => 6,
        IdtHandler::DeviceNotAvailable => 7,
        IdtHandler::DoubleFault => 8,
        IdtHandler::InvalidTss => 9,
        IdtHandler::SegmentNotPresent => 10,
        IdtHandler::StackSegment => 11,
        IdtHandler::GeneralProtection => 12,
        IdtHandler::PageFault => 13,
        IdtHandler::X87Fpu => 14,
        IdtHandler::AlignmentCheck => 15,
        IdtHandler::MachineCheck => 16,
        IdtHandler::SimdFp => 17,
        IdtHandler::Virtualization => 18,
        IdtHandler::Irq0 => 19,
        IdtHandler::IrqMaster => 20,
        IdtHandler::IrqSlave => 21,
        IdtHandler::Default => 22,
    }
}

impl IdtHandler {
    /// Position of the handler in the address table.
    pub fn index(self) -> (r: usize)
        ensures
            r == handler_index(self),
            r < IDT_HANDLER_COUNT,
    {
        match self {
            IdtHandler::DivideError => 0,
            IdtHandler::Debug => 1,
            IdtHandler::Nmi => 2,
            IdtHandler::Breakpoint => 3,
            IdtHandler::Overflow => 4,
            IdtHandler::BoundRange => 5,
            IdtHandler::InvalidOpcode => 6,
            IdtHandler::DeviceNotAvailable => 7,
            IdtHandler::DoubleFault => 8,
            IdtHandler::InvalidTss => 9,
            IdtHandler::SegmentNotPresent => 10,
            IdtHandler::StackSegment => 11,
            IdtHandler::GeneralProtection => 12,
            IdtHandler::PageFault => 13,
            IdtHandler::X87Fpu => 14,
            IdtHandler::AlignmentCheck => 15,
            IdtHandler::MachineCheck => 16,
            IdtHandler::SimdFp => 17,
            IdtHandler::Virtualization => 18,
            IdtHandler::Irq0 => 19,
            IdtHandler::IrqMaster => 20,
            IdtHandler::IrqSlave => 21,
            IdtHandler::Default => 22,
        }
    }
}

/// The routing of one vector: handler, gate type and IST slot. Exceptions
/// 0..0x14 get their own handlers (debug, breakpoint and overflow as trap
/// gates; double fault, NMI, machine check and page fault on their IST
/// stacks), 0x20 is the timer, 0x21..0x27 and 0x28..0x2F the master and slave
/// PIC lines, and every other vector the default handler.
pub open spec fn idt_plan_spec(v: u8) -> (IdtHandler, u8, u8) {
    if v == 0x00 { (IdtHandler::DivideError, GATE_INTERRUPT, 0) }
    else if v == 0x01 { (IdtHandler::Debug, GATE_TRAP, 0) }
    else if v == 0x02 { (IdtHandler::Nmi, GATE_INTERRUPT, IST_NMI) }
    else if v == 0x03 { (IdtHandler::Breakpoint, GATE_TRAP, 0) }
    else if v == 0x04 { (IdtHandler::Overflow, GATE_TRAP, 0) }
    else if v == 0x05 { (IdtHandler::BoundRange, GATE_INTERRUPT, 0) }
    else if v == 0x06 { (IdtHandler::InvalidOpcode, GATE_INTERRUPT, 0) }
    else if v == 0x07 { (IdtHandler::DeviceNotAvailable, GATE_INTERRUPT, 0) }
    else if v == 0x08 { (IdtHandler::DoubleFault, GATE_INTERRUPT, IST_DOUBLE_FAULT) }
    else if v == 0x0A { (IdtHandler::InvalidTss, GATE_INTERRUPT, 0) }
    else if v == 0x0B { (IdtHandler::SegmentNotPresent, GATE_INTERRUPT, 0) }
    else if v == 0x0C { (IdtHandler::StackSegment, GATE_INTERRUPT, 0) }
    else if v == 0x0D { (IdtHandler::GeneralProtection, GATE_INTERRUPT, 0) }
    else if v == 0x0E { (IdtHandler::PageFault, GATE_INTERRUPT, IST_PAGE_FAULT) }
    else if v == 0x10 { (IdtHandler::X87Fpu, GATE_INTERRUPT, 0) }
    else if v == 0x11 { (IdtHandler::AlignmentCheck, GATE_INTERRUPT, 0) }
    else if v == 0x12 { (IdtHandler::MachineCheck, GATE_INTERRUPT, IST_MACHINE_CHECK) }
    else if v == 0x13 { (IdtHandler::SimdFp, GATE_INTERRUPT, 0) }
    else if v == 0x14 { (IdtHandler::Virtualization, GATE_INTERRUPT, 0) }
    else if v == 0x20 { (IdtHandler::Irq0, GATE_INTERRUPT, 0) }
    else if 0x21 <= v <= 0x27 { (IdtHandler::IrqMaster, GATE_INTERRUPT, 0) }
    else if 0x28 <= v <= 0x2F { (IdtHandler::IrqSlave, GATE_INTERRUPT, 0) }
    else { (IdtHandler::Default, GATE_INTERRUPT, 0) }
}

/// Every vector is routed to a present ring-0 gate, so no vector can
/// escalate to a triple fault through an empty entry; the four fatal or
/// stack-sensitive exceptions run on their own IST stacks.
pub proof fn law_every_vector_present(v: u8)
    ensures
        idt_plan_spec(v).1 == GATE_INTERRUPT || idt_plan_spec(v).1 == GATE_TRAP,
        gate_spec(0, idt_plan_spec(v).1, idt_plan_spec(v).2).type_attr & 0x80 == 0x80,
        v == 0x02 ==> idt_plan_spec(v).2 == IST_NMI,
        v == 0x08 ==> idt_plan_spec(v).2 == IST_DOUBLE_FAULT,
        v == 0x0E ==> idt_plan_spec(v).2 == IST_PAGE_FAULT,
        v == 0x12 ==> idt_plan_spec(v).2 == IST_MACHINE_CHECK,
{
    assert(0x8Eu8 & 0x80 == 0x80 && 0x8Fu8 & 0x80 == 0x80) by (bit_vector);
}

/// Routing of vector `v`.
pub fn idt_plan(v: u8) -> (r: (IdtHandler, u8, u8))
    ensures
        r == idt_plan_spec(v),
{
    match v {
        0x00 => (IdtHandler::DivideError, GATE_INTERRUPT, 0),
        0x01 => (IdtHandler::Debug, GATE_TRAP, 0),
        0x02 => (IdtHandler::Nmi, GATE_INTERRUPT, IST_NMI),
        0x03 => (IdtHandler::Breakpoint, GATE_TRAP, 0),
        0x04 => (IdtHandler::Overflow, GATE_TRAP, 0),
        0x05 => (IdtHandler::BoundRange, GATE_INTERRUPT, 0),
        0x06 => (IdtHandler::InvalidOpcode, GATE_INTERRUPT, 0),
        0x07 => (IdtHandler::DeviceNotAvailable, GATE_INTERRUPT, 0),
        0x08 => (IdtHandler::DoubleFault, GATE_INTERRUPT, IST_DOUBLE_FAULT),
        0x0A => (IdtHandler::InvalidTss, GATE_INTERRUPT, 0),
        0x0B => (IdtHandler::SegmentNotPresent, GATE_INTERRUPT, 0),
        0x0C => (IdtHandler::StackSegment, GATE_INTERRUPT, 0),
        0x0D => (IdtHandler::GeneralProtection, GATE_INTERRUPT, 0),
        0x0E => (IdtHandler::PageFault, GATE_INTERRUPT, IST_PAGE_FAULT),
        0x10 => (IdtHandler::X87Fpu, GATE_INTERRUPT, 0),
        0x11 => (IdtHandler::AlignmentCheck, GATE_INTERRUPT, 0),
        0x12 => (IdtHandler::MachineCheck, GATE_INTERRUPT, IST_MACHINE_CHECK),
        0x13 => (IdtHandler::SimdFp, GATE_INTERRUPT, 0),
        0x14 => (IdtHandler::Virtualization, GATE_INTERRUPT, 0),
        0x20 => (IdtHandler::Irq0, GATE_INTERRUPT, 0),
        0x21..=0x27 => (IdtHandler::IrqMaster, GATE_INTERRUPT, 0),
        0x28..=0x2F => (IdtHandler::IrqSlave, GATE_INTERRUPT, 0),
        _ => (IdtHandler::Default, GATE_INTERRUPT, 0),
    }
}

/// The 256 entries of the IDT, given each handler's address at its
/// `handler_index`: every vector gets the descriptor of its routing.
pub fn build_idt(handlers: &[u64]) -> (r: Vec<GateDescriptor>)
    requires
        handlers@.len() == IDT_HANDLER_COUNT,
    ensures
        r@.len() == 256,
        forall|v: int| 0 <= v < 256 ==> {
            let p = #[trigger] idt_plan_spec(v as u8);
            r@[v] == gate_spec(handlers@[handler_index(p.0)], p.1, p.2)
        },
{
    let mut table: Vec<GateDescriptor> = Vec::new();
    let mut v: usize = 0;
    while v < 256
        invariant
            v <= 256,
            table@.len() == v,
            handlers@.len() == IDT_HANDLER_COUNT,
            forall|w: int| 0 <= w < v ==> {
                let p = #[trigger] idt_plan_spec(w as u8);
                table@[w] == gate_spec(handlers@[handler_index(p.0)], p.1, p.2)
            },
        decreases 256 - v,
    {
        let (h, gate_type, ist) = idt_plan(v as u8);
        let i = h.index();
        let g = GateDescriptor::new(handlers[i], gate_type, ist);
        table.push(g);
        v = v + 1;
    }
    table
}

/// Master and slave PIC masks after unmasking `irq`: lines 0..7 clear their
/// bit in the master mask; lines 8..15 clear their bit in the slave mask and
/// the cascade line 2 in the master; other numbers change nothing.
pub fn pic_unmask(irq: u8, master: u8, slave: u8) -> (r: (u8, u8))
    ensures
        irq < 8 ==> r == (master & !(1u8 << irq), slave),
        8 <= irq < 16 ==> r == (master & !(1u8 << 2u8), slave & !(1u8 << ((irq - 8) as u8))),
        irq >= 16 ==> r == (master, slave),
{
    if irq < 8 {
        (master & !(1u8 << irq), slave)
    } else if irq < 16 {
        (master & !(1u8 << 2u8), slave & !(1u8 << (irq - 8)))
    } else {
        (master, slave)
    }
}

} // verus!
