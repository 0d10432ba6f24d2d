//! Allocating memory inside another Linux process by making it run an `mmap`
//! system call: telling 32-bit from 64-bit executables, loading the call's
//! registers, and judging what the call returned.
//!
//! The stepping of the stopped process itself (attach, set registers, write
//! the instruction, single-step, restore) is the caller's.
use vstd::prelude::*;
use crate::process::ProcessError;

verus! {

/// The result that the first five bytes of an executable give: the ELF magic
/// number `7f 45 4c 46` and then the class byte, 1 for 32-bit and 2 for
/// 64-bit executables.
pub open spec fn elf_bitness_spec(h: Seq<u8>) -> Result<usize, ProcessError> {
    if h[0] == 0x7f && h[1] == 0x45 && h[2] == 0x4c && h[3] == 0x46 {
        if h[4] == 1 {
            Ok(32)
        } else if h[4] == 2 {
            Ok(64)
        } else {
            Err(ProcessError::UnknownElf)
        }
    } else {
        Err(ProcessError::NotElf)
    }
}

/// Whether an executable whose header is `header` is 32-bit or 64-bit.
pub fn elf_bitness(header: &[u8; 5]) -> (r: Result<usize, ProcessError>)
    ensures
        r == elf_bitness_spec(header@),
{
    if header[0] != 0x7f || header[1] != 0x45 || header[2] != 0x4c || header[3] != 0x46 {
        return Err(ProcessError::NotElf);
    }
    match header[4] {
        1 => Ok(32),
        2 => Ok(64),
        _ => Err(ProcessError::UnknownElf),
    }
}

/// The general-purpose registers that a system call reads.
#[derive(Debug, Clone, Copy, PartialEq, Eq, Structural)]
pub struct SyscallRegs {
    pub rax: u64,
    pub rbx: u64,
    pub rcx: u64,
    pub rdx: u64,
    pub rsi: u64,
    pub rdi: u64,
    pub rbp: u64,
    pub r8: u64,
    pub r9: u64,
    pub r10: u64,
}

/// A system call to make in the stopped process: the registers to load and
/// the machine word to place at its instruction pointer.
#[derive(Debug, Clone, Copy, PartialEq, Eq, Structural)]
pub struct MmapCall {
    pub regs: SyscallRegs,
    pub instruction: i64,
}

/// The `syscall` instruction (`0f 05`), as a little-endian word.
pub open spec fn syscall_word() -> i64 {
    0x050f
}

/// The `int 0x80` instruction (`cd 80`), as a little-endian word.
pub open spec fn int80_word() -> i64 {
    0x80cd
}

/// The call that maps `size` bytes of anonymous memory with protection `prot`
/// and flags `flags` anywhere in the process. For a 32-bit process (`bits` is
/// 32) it is `mmap2` (number 192) through `int 0x80`, its arguments in `ebx`,
/// `ecx`, `edx`, `esi`, `edi`, `ebp`; otherwise `mmap` (number 9) through
/// `syscall`, its arguments in `rdi`, `rsi`, `rdx`, `r10`, `r8`, `r9`. The
/// address asked for is 0, the descriptor -1, the offset 0; registers that
/// carry no argument keep their values.
pub fn mmap_call(bits: usize, regs: SyscallRegs, size: usize, prot: i32, flags: i32) -> (r:
    MmapCall)
    ensures
        bits == 32 ==> r == (MmapCall {
            regs: SyscallRegs {
                rax: 192,
                rbx: 0,
                rcx: size as u64,
                rdx: prot as u64,
                rsi: flags as u64,
                rdi: u64::MAX,
                rbp: 0,
                ..regs
            },
            instruction: int80_word(),
        }),
        bits != 32 ==> r == (MmapCall {
            regs: SyscallRegs {
                rax: 9,
                rdi: 0,
                rsi: size as u64,
                rdx: prot as u64,
                r10: flags as u64,
                r8: u64::MAX,
                r9: 0,
                ..regs
            },
            instruction: syscall_word(),
        }),
{
    let mut new_regs = regs;
    if bits == 32 {
        new_regs.rax = 192;
        new_regs.rbx = 0;
        new_regs.rcx = size as u64;
        new_regs.rdx = #[verifier::truncate] (prot as u64);
        new_regs.rsi = #[verifier::truncate] (flags as u64);
        new_regs.rdi = u64::MAX;
        new_regs.rbp = 0;
        MmapCall { regs: new_regs, instruction: 0x80cd }
    } else {
        new_regs.rax = 9;
        new_regs.rdi = 0;
        new_regs.rsi = size as u64;
        new_regs.rdx = #[verifier::truncate] (prot as u64);
        new_regs.r10 = #[verifier::truncate] (flags as u64);
        new_regs.r8 = u64::MAX;
        new_regs.r9 = 0;
        MmapCall { regs: new_regs, instruction: 0x050f }
    }
}

/// Whether the address `addr` that the call returned counts as a failure: for
/// a 32-bit process its low 32 bits read as an `i32`, otherwise it read as an
/// `i64`, are -1 or above -4096.
pub open spec fn mmap_failed(bits: usize, addr: usize) -> bool {
    if bits == 32 {
        (addr as i32) == -1 || (addr as i32) > -4096
    } else {
        (addr as i64) == -1 || (addr as i64) > -4096
    }
}

/// Every value that the kernel returns for an error, -4095 to -1, counts as a
/// failure, as does every address that reads as non-negative; an address that
/// reads as -4096 or below is taken. For a 32-bit process the address is read
/// from its low 32 bits as an `i32`, otherwise as an `i64`.
pub proof fn law_mmap_failure_range(bits: usize, addr: usize)
    ensures
        bits == 32 ==> (-4095 <= (addr as i32) <= -1 ==> mmap_failed(bits, addr)) && ((addr as i32)
            >= 0 ==> mmap_failed(bits, addr)) && ((addr as i32) <= -4096 ==> !mmap_failed(
            bits,
            addr,
        )),
        bits != 32 ==> (-4095 <= (addr as i64) <= -1 ==> mmap_failed(bits, addr)) && ((addr as i64)
            >= 0 ==> mmap_failed(bits, addr)) && ((addr as i64) <= -4096 ==> !mmap_failed(
            bits,
            addr,
        )),
{
}

/// Judges the address that the call returned: the address itself, or
/// `MmapFailed` where `mmap_failed` says so.
pub fn mmap_outcome(bits: usize, addr: usize) -> (r: Result<usize, ProcessError>)
    ensures
        mmap_failed(bits, addr) ==> r == Err::<usize, ProcessError>(ProcessError::MmapFailed),
        !mmap_failed(bits, addr) ==> r == Ok::<usize, ProcessError>(addr),
{
    if bits == 32 {
        let a = addr as i32;
        if a == -1 || a > -4096 {
            return Err(ProcessError::MmapFailed);
        }
    } else {
        let a = addr as i64;
        if a == -1 || a > -4096 {
            return Err(ProcessError::MmapFailed);
        }
    }
    Ok(addr)
}

} // verus!
