use lc3::LC3;
use lc3::VMEvent;
use lc3::mmio;
use lc3::sign_extend;

#[test]
fn test_sign_extend() {
    assert_eq!(sign_extend(0b11111, 5), 0xFFFF);
    assert_eq!(sign_extend(0b01111, 5), 0x000F);
}

#[test]
fn lib_test_add_register() {
    let mut vm = LC3::default();
    vm.regs[1] = 5;
    vm.regs[2] = 3;
    vm.memory[0x3000] = 0x1042; // ADD R0, R1, R2
    vm.step();
    assert_eq!(vm.regs[0], 8);
    assert!(vm.p());
}

#[test]
fn test_add_immediate() {
    let mut vm = LC3::default();
    vm.regs[1] = 10;
    vm.memory[0x3000] = 0x1065; // ADD R0, R1, #5
    vm.step();
    assert_eq!(vm.regs[0], 15);
}

#[test]
fn test_halt_shortcut_mode() {
    let mut vm = LC3::default();
    vm.memory[0x3000] = 0xF025;
    assert_eq!(vm.step(), VMEvent::Halt);
}

#[test]
fn test_branch() {
    let mut vm = LC3::default();
    vm.psr = (vm.psr & 0xFFF8) | 0b010; // Z flag set
    vm.memory[0x3000] = 0x0402; // BRZ +2
    vm.step();
    assert_eq!(vm.pc, 0x3003);
}

#[test]
fn test_mmio_dsr_always_ready() {
    let mut vm = LC3::default();
    assert_eq!(vm.mem_read(mmio::DSR), 0x8000);
}

#[test]
fn test_mmio_keyboard() {
    let mut vm = LC3::default();
    // Initially no key
    assert_eq!(vm.mem_read(mmio::KBSR), 0x0000);

    // Set input
    vm.set_keyboard_input(b'A');
    assert_eq!(vm.mem_read(mmio::KBSR), 0x8000);

    // Read key
    assert_eq!(vm.mem_read(mmio::KBDR), b'A' as u16);

    // Key consumed
    assert_eq!(vm.mem_read(mmio::KBSR), 0x0000);
}

#[test]
fn test_psr_condition_codes() {
    let mut vm = LC3::default();
    vm.regs[1] = 0;
    vm.memory[0x3000] = 0x1260; // ADD R1, R1, #0 (result is 0)
    vm.step();
    assert!(vm.z());
    assert!(!vm.n());
    assert!(!vm.p());
}

#[test]
fn test_os_mode_toggle() {
    let mut vm = LC3::default();
    assert!(!vm.os_mode());
    vm.set_os_mode(true);
    assert!(vm.os_mode());
    vm.set_os_mode(false);
    assert!(!vm.os_mode());
}

#[test]
fn vm_reserved_opcode_event() {
    let mut vm = LC3::default();
    vm.memory[0x3000] = 0xD000;
    assert_eq!(
        vm.step(),
        VMEvent::Error(lc3::VMError::ReservedOpcode(0b1101))
    );
}

#[test]
fn vm_unimplemented_trap_event() {
    let mut vm = LC3::default();
    vm.memory[0x3000] = 0xF030;
    assert_eq!(
        vm.step(),
        VMEvent::Error(lc3::VMError::UnimplementedTrap(0x30))
    );
}

#[test]
fn vm_privilege_violation_event() {
    let mut vm = LC3::default();
    vm.set_os_mode(true);
    vm.memory[0xFFFE] = 0x8000; // clock running
    vm.memory[0x3000] = 0x8000; // RTI in user mode
    assert_eq!(vm.step(), VMEvent::Error(lc3::VMError::PrivilegeViolation));
}

#[test]
fn vm_getc_read_char() {
    let mut vm = LC3::default();
    vm.memory[0x3000] = 0xF020; // GETC
    assert_eq!(vm.step(), VMEvent::ReadChar);
    assert_eq!(vm.regs[7], 0x3001);
}

#[test]
fn vm_puts_output_string() {
    let mut vm = LC3::default();
    vm.memory[0x3000] = 0xF022; // PUTS
    vm.memory[0x4000] = b'A' as u16;
    vm.memory[0x4001] = b'B' as u16;
    vm.memory[0x4002] = 0;
    vm.regs[0] = 0x4000;
    assert_eq!(vm.step(), VMEvent::OutputString(vec![b'A', b'B']));
}

#[test]
fn vm_out_and_ddr_output() {
    let mut vm = LC3::default();
    vm.regs[0] = b'Q' as u16;
    vm.memory[0x3000] = 0xF021; // OUT
    assert_eq!(vm.step(), VMEvent::Output(b'Q'));

    // Writing to the display data register publishes an output byte.
    let mut vm2 = LC3::default();
    vm2.regs[0] = b'Z' as u16;
    vm2.regs[1] = 0xFE06; // DDR address
    vm2.memory[0x3000] = 0x7040; // STR R0, R1, #0
    assert_eq!(vm2.step(), VMEvent::Output(b'Z'));
}

#[test]
fn vm_run_until_halt() {
    let mut vm = LC3::default();
    vm.memory[0x3000] = 0x1042; // ADD R0, R1, R2
    vm.memory[0x3001] = 0xF025; // HALT
    assert_eq!(vm.run(), VMEvent::Halt);
    assert_eq!(vm.pc, 0x3002);
}

#[test]
fn vm_clear_preserves_os_mode() {
    let mut vm = LC3::default();
    vm.set_os_mode(true);
    vm.regs[3] = 55;
    vm.memory[0x1234] = 99;
    vm.pc = 0x4000;
    vm.clear();
    assert!(vm.os_mode());
    assert_eq!(vm.regs[3], 0);
    assert_eq!(vm.memory[0x1234], 0);
    assert_eq!(vm.pc, 0x3000);
    assert_eq!(vm.psr(), 0x8002);
}

#[test]
fn vm_os_mode_trap_vectors() {
    let mut vm = LC3::default();
    vm.set_os_mode(true);
    vm.memory[0xFFFE] = 0x8000; // clock running
    vm.memory[0x0025] = 0x0520; // handler address for TRAP x25
    vm.memory[0x3000] = 0xF025; // TRAP x25
    vm.regs[6] = 0x2FFE;
    vm.set_psr(0x8002); // user mode, Z
    assert_eq!(vm.step(), VMEvent::Nothing);
    // Jumped through the vector, now in supervisor mode.
    assert_eq!(vm.pc, 0x0520);
    assert!(vm.is_supervisor());
    assert_eq!(vm.regs[7], 0x3001);
}
