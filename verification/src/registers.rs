use vstd::prelude::*;

verus! {

/// Byte offset of the general-purpose registers within the user area.
pub const USER_REGISTERS_OFFSET: u64 = 0;

/// Byte offset of the eight debug registers within the user area.
pub const USER_DEBUG_REGISTERS_OFFSET: u64 = 848;

/// Size in bytes of one word of the user area.
pub const USER_WORD_SIZE: u64 = 8;

/// Number of general-purpose registers in a snapshot.
pub const REGISTER_COUNT: u64 = 27;

/// A snapshot of the general-purpose registers, in the order in which the
/// kernel lays them out in the user area.
#[derive(Clone, Copy, Debug, PartialEq, Eq, Structural)]
pub struct Registers {
    pub r15: u64,
    pub r14: u64,
    pub r13: u64,
    pub r12: u64,
    pub rbp: u64,
    pub rbx: u64,
    pub r11: u64,
    pub r10: u64,
    pub r9: u64,
    pub r8: u64,
    pub rax: u64,
    pub rcx: u64,
    pub rdx: u64,
    pub rsi: u64,
    pub rdi: u64,
    pub orig_rax: u64,
    pub rip: u64,
    pub cs: u64,
    pub eflags: u64,
    pub rsp: u64,
    pub ss: u64,
    pub fs_base: u64,
    pub gs_base: u64,
    pub ds: u64,
    pub es: u64,
    pub fs: u64,
    pub gs: u64,
}

/// The name of one general-purpose register.
#[derive(Clone, Copy, Debug, PartialEq, Eq, Structural)]
pub enum Register {
    R15,
    R14,
    R13,
    R12,
    Rbp,
    Rbx,
    R11,
    R10,
    R9,
    R8,
    Rax,
    Rcx,
    Rdx,
    Rsi,
    Rdi,
    OrigRax,
    Rip,
    Cs,
    Eflags,
    Rsp,
    Ss,
    FsBase,
    GsBase,
    Ds,
    Es,
    Fs,
    Gs,
}

impl Register {
    /// Position of the register in the kernel's layout, counted in words.
    pub open spec fn index(self) -> nat {
        match self {
            Register::R15 => 0,
            Register::R14 => 1,
            Register::R13 => 2,
            Register::R12 => 3,
            Register::Rbp => 4,
            Register::Rbx => 5,
            Register::R11 => 6,
            Register::R10 => 7,
            Register::R9 => 8,
            Register::R8 => 9,
            Register::Rax => 10,
            Register::Rcx => 11,
            Register::Rdx => 12,
            Register::Rsi => 13,
            Register::Rdi => 14,
            Register::OrigRax => 15,
            Register::Rip => 16,
            Register::Cs => 17,
            Register::Eflags => 18,
            Register::Rsp => 19,
            Register::Ss => 20,
            Register::FsBase => 21,
            Register::GsBase => 22,
            Register::Ds => 23,
            Register::Es => 24,
            Register::Fs => 25,
            Register::Gs => 26,
        }
    }

    /// Byte offset of the register within the user area.
    pub open spec fn spec_offset(self) -> u64 {
        (USER_REGISTERS_OFFSET + USER_WORD_SIZE * self.index()) as u64
    }

    /// Byte offset of the register within the user area.
    #[verifier::when_used_as_spec(spec_offset)]
    pub fn offset(self) -> (offset: u64)
        ensures
            offset == self.spec_offset(),
            offset == 8 * self.index(),
            offset < 8 * REGISTER_COUNT,
    {
        match self {
            Register::R15 => 0,
            Register::R14 => 8,
            Register::R13 => 16,
            Register::R12 => 24,
            Register::Rbp => 32,
            Register::Rbx => 40,
            Register::R11 => 48,
            Register::R10 => 56,
            Register::R9 => 64,
            Register::R8 => 72,
            Register::Rax => 80,
            Register::Rcx => 88,
            Register::Rdx => 96,
            Register::Rsi => 104,
            Register::Rdi => 112,
            Register::OrigRax => 120,
            Register::Rip => 128,
            Register::Cs => 136,
            Register::Eflags => 144,
            Register::Rsp => 152,
            Register::Ss => 160,
            Register::FsBase => 168,
            Register::GsBase => 176,
            Register::Ds => 184,
            Register::Es => 192,
            Register::Fs => 200,
            Register::Gs => 208,
        }
    }
}

impl Registers {
    /// The value that the snapshot holds for `register`.
    pub open spec fn spec_get(self, register: Register) -> u64 {
        match register {
            Register::R15 => self.r15,
            Register::R14 => self.r14,
            Register::R13 => self.r13,
            Register::R12 => self.r12,
            Register::Rbp => self.rbp,
            Register::Rbx => self.rbx,
            Register::R11 => self.r11,
            Register::R10 => self.r10,
            Register::R9 => self.r9,
            Register::R8 => self.r8,
            Register::Rax => self.rax,
            Register::Rcx => self.rcx,
            Register::Rdx => self.rdx,
            Register::Rsi => self.rsi,
            Register::Rdi => self.rdi,
            Register::OrigRax => self.orig_rax,
            Register::Rip => self.rip,
            Register::Cs => self.cs,
            Register::Eflags => self.eflags,
            Register::Rsp => self.rsp,
            Register::Ss => self.ss,
            Register::FsBase => self.fs_base,
            Register::GsBase => self.gs_base,
            Register::Ds => self.ds,
            Register::Es => self.es,
            Register::Fs => self.fs,
            Register::Gs => self.gs,
        }
    }

    /// The snapshot with `register` set to `value` and every other register as before.
    pub open spec fn spec_with(self, register: Register, value: u64) -> Registers {
        match register {
            Register::R15 => (Registers { r15: value, ..self }),
            Register::R14 => (Registers { r14: value, ..self }),
            Register::R13 => (Registers { r13: value, ..self }),
            Register::R12 => (Registers { r12: value, ..self }),
            Register::Rbp => (Registers { rbp: value, ..self }),
            Register::Rbx => (Registers { rbx: value, ..self }),
            Register::R11 => (Registers { r11: value, ..self }),
            Register::R10 => (Registers { r10: value, ..self }),
            Register::R9 => (Registers { r9: value, ..self }),
            Register::R8 => (Registers { r8: value, ..self }),
            Register::Rax => (Registers { rax: value, ..self }),
            Register::Rcx => (Registers { rcx: value, ..self }),
            Register::Rdx => (Registers { rdx: value, ..self }),
            Register::Rsi => (Registers { rsi: value, ..self }),
            Register::Rdi => (Registers { rdi: value, ..self }),
            Register::OrigRax => (Registers { orig_rax: value, ..self }),
            Register::Rip => (Registers { rip: value, ..self }),
            Register::Cs => (Registers { cs: value, ..self }),
            Register::Eflags => (Registers { eflags: value, ..self }),
            Register::Rsp => (Registers { rsp: value, ..self }),
            Register::Ss => (Registers { ss: value, ..self }),
            Register::FsBase => (Registers { fs_base: value, ..self }),
            Register::GsBase => (Registers { gs_base: value, ..self }),
            Register::Ds => (Registers { ds: value, ..self }),
            Register::Es => (Registers { es: value, ..self }),
            Register::Fs => (Registers { fs: value, ..self }),
            Register::Gs => (Registers { gs: value, ..self }),
        }
    }

    /// A snapshot in which every register is zero.
    pub fn zeroed() -> (registers: Registers)
        ensures
            forall|register: Register| registers.spec_get(register) == 0,
    {
        Registers {
            r15: 0,
            r14: 0,
            r13: 0,
            r12: 0,
            rbp: 0,
            rbx: 0,
            r11: 0,
            r10: 0,
            r9: 0,
            r8: 0,
            rax: 0,
            rcx: 0,
            rdx: 0,
            rsi: 0,
            rdi: 0,
            orig_rax: 0,
            rip: 0,
            cs: 0,
            eflags: 0,
            rsp: 0,
            ss: 0,
            fs_base: 0,
            gs_base: 0,
            ds: 0,
            es: 0,
            fs: 0,
            gs: 0,
        }
    }

    /// The value that the snapshot holds for `register`.
    #[verifier::when_used_as_spec(spec_get)]
    pub fn get(self, register: Register) -> (value: u64)
        ensures
            value == self.spec_get(register),
    {
        match register {
            Register::R15 => self.r15,
            Register::R14 => self.r14,
            Register::R13 => self.r13,
            Register::R12 => self.r12,
            Register::Rbp => self.rbp,
            Register::Rbx => self.rbx,
            Register::R11 => self.r11,
            Register::R10 => self.r10,
            Register::R9 => self.r9,
            Register::R8 => self.r8,
            Register::Rax => self.rax,
            Register::Rcx => self.rcx,
            Register::Rdx => self.rdx,
            Register::Rsi => self.rsi,
            Register::Rdi => self.rdi,
            Register::OrigRax => self.orig_rax,
            Register::Rip => self.rip,
            Register::Cs => self.cs,
            Register::Eflags => self.eflags,
            Register::Rsp => self.rsp,
            Register::Ss => self.ss,
            Register::FsBase => self.fs_base,
            Register::GsBase => self.gs_base,
            Register::Ds => self.ds,
            Register::Es => self.es,
            Register::Fs => self.fs,
            Register::Gs => self.gs,
        }
    }

    /// The snapshot with `register` set to `value` and every other register as before.
    #[verifier::when_used_as_spec(spec_with)]
    pub fn with(self, register: Register, value: u64) -> (registers: Registers)
        ensures
            registers == self.spec_with(register, value),
            registers.spec_get(register) == value,
            forall|other: Register| other != register ==> registers.spec_get(other) == self.spec_get(other),
    {
        match register {
            Register::R15 => Registers { r15: value, ..self },
            Register::R14 => Registers { r14: value, ..self },
            Register::R13 => Registers { r13: value, ..self },
            Register::R12 => Registers { r12: value, ..self },
            Register::Rbp => Registers { rbp: value, ..self },
            Register::Rbx => Registers { rbx: value, ..self },
            Register::R11 => Registers { r11: value, ..self },
            Register::R10 => Registers { r10: value, ..self },
            Register::R9 => Registers { r9: value, ..self },
            Register::R8 => Registers { r8: value, ..self },
            Register::Rax => Registers { rax: value, ..self },
            Register::Rcx => Registers { rcx: value, ..self },
            Register::Rdx => Registers { rdx: value, ..self },
            Register::Rsi => Registers { rsi: value, ..self },
            Register::Rdi => Registers { rdi: value, ..self },
            Register::OrigRax => Registers { orig_rax: value, ..self },
            Register::Rip => Registers { rip: value, ..self },
            Register::Cs => Registers { cs: value, ..self },
            Register::Eflags => Registers { eflags: value, ..self },
            Register::Rsp => Registers { rsp: value, ..self },
            Register::Ss => Registers { ss: value, ..self },
            Register::FsBase => Registers { fs_base: value, ..self },
            Register::GsBase => Registers { gs_base: value, ..self },
            Register::Ds => Registers { ds: value, ..self },
            Register::Es => Registers { es: value, ..self },
            Register::Fs => Registers { fs: value, ..self },
            Register::Gs => Registers { gs: value, ..self },
        }
    }
}

} // verus!
