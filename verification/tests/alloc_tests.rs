use xplatform_memory::patch::movss_ret_patch;
use xplatform_memory::process::ProcessError;
use xplatform_memory::remote_alloc::{elf_bitness, mmap_call, mmap_outcome, SyscallRegs};

fn regs() -> SyscallRegs {
    SyscallRegs { rax: 1, rbx: 2, rcx: 3, rdx: 4, rsi: 5, rdi: 6, rbp: 7, r8: 8, r9: 9, r10: 10 }
}

#[test]
fn elf_bitness_reads_the_class_byte() {
    assert_eq!(elf_bitness(&[0x7f, b'E', b'L', b'F', 1]), Ok(32));
    assert_eq!(elf_bitness(&[0x7f, b'E', b'L', b'F', 2]), Ok(64));
    assert_eq!(elf_bitness(&[0x7f, b'E', b'L', b'F', 3]), Err(ProcessError::UnknownElf));
    assert_eq!(elf_bitness(&[b'M', b'Z', 0x90, 0, 2]), Err(ProcessError::NotElf));
}

#[test]
fn mmap_call_for_64_bit_process() {
    let call = mmap_call(64, regs(), 4, 3, 0x22);
    assert_eq!(call.instruction, 0x050f);
    assert_eq!(
        call.regs,
        SyscallRegs { rax: 9, rbx: 2, rcx: 3, rdx: 3, rsi: 4, rdi: 0, rbp: 7, r8: u64::MAX, r9: 0, r10: 0x22 }
    );
}

#[test]
fn mmap_call_for_32_bit_process() {
    let call = mmap_call(32, regs(), 4096, 3, 0x22);
    assert_eq!(call.instruction, 0x80cd);
    assert_eq!(
        call.regs,
        SyscallRegs { rax: 192, rbx: 0, rcx: 4096, rdx: 3, rsi: 0x22, rdi: u64::MAX, rbp: 0, r8: 8, r9: 9, r10: 10 }
    );
}

#[test]
fn mmap_call_sign_extends_negative_arguments() {
    let call = mmap_call(64, regs(), 1, -1, -2);
    assert_eq!(call.regs.rdx, u64::MAX);
    assert_eq!(call.regs.r10, u64::MAX - 1);
}

#[test]
fn mmap_outcome_judges_the_returned_address() {
    assert_eq!(mmap_outcome(64, usize::MAX), Err(ProcessError::MmapFailed));
    assert_eq!(mmap_outcome(64, usize::MAX - 4094), Err(ProcessError::MmapFailed));
    assert_eq!(mmap_outcome(64, 0x7f00_0000_0000), Err(ProcessError::MmapFailed));
    assert_eq!(mmap_outcome(64, usize::MAX - 4095), Ok(usize::MAX - 4095));
    assert_eq!(mmap_outcome(32, 0xffff_ffff), Err(ProcessError::MmapFailed));
    assert_eq!(mmap_outcome(32, 0x0804_8000), Err(ProcessError::MmapFailed));
    assert_eq!(mmap_outcome(32, 0xffff_f000), Ok(0xffff_f000));
    assert_eq!(mmap_outcome(32, 0x8000_0000), Ok(0x8000_0000));
}

#[test]
fn movss_patch_loads_from_the_cave_and_returns() {
    assert_eq!(
        movss_ret_patch(0x12A3CCD0),
        [0xF3, 0x0F, 0x10, 0x05, 0xD0, 0xCC, 0xA3, 0x12, 0xC3]
    );
    let p = movss_ret_patch(0xDEADBEEF);
    assert_eq!(u32::from_le_bytes([p[4], p[5], p[6], p[7]]), 0xDEADBEEF);
}
