use intcode::intcoder::{IntMode, IntResponse, Intcode};
use intcode::model::{Fault, PADDING};

fn machine(prog: &[i64]) -> Intcode {
    Intcode::new(&prog.to_vec())
}

#[test]
fn fresh_machine_is_padded_with_zeros() {
    let m = machine(&[104, 7, 99]);
    assert_eq!(m.dump().len(), 3 + PADDING);
    assert_eq!(PADDING, 3000);
    assert_eq!(&m.dump()[..3], &[104, 7, 99]);
    assert!(m.dump()[3..].iter().all(|w| *w == 0));
    assert_eq!(m.ip(), 0);
    assert_eq!(m.relative_base(), 0);
    assert_eq!(m.pending(), None);
    assert!(!m.halted());
}

#[test]
fn mode_digits() {
    assert_eq!(Intcode::mode(0), Some(IntMode::Pos));
    assert_eq!(Intcode::mode(1), Some(IntMode::Imm));
    assert_eq!(Intcode::mode(2), Some(IntMode::Rel));
    assert_eq!(Intcode::mode(3), None);
    assert_eq!(Intcode::mode(-1), None);
}

#[test]
fn decode_splits_opcode_and_modes() {
    assert_eq!(Intcode::decode(1002), Ok((2, IntMode::Pos, IntMode::Imm, IntMode::Pos)));
    assert_eq!(Intcode::decode(99), Ok((99, IntMode::Pos, IntMode::Pos, IntMode::Pos)));
    assert_eq!(Intcode::decode(21107), Ok((7, IntMode::Imm, IntMode::Imm, IntMode::Rel)));
    assert_eq!(Intcode::decode(204), Ok((4, IntMode::Rel, IntMode::Pos, IntMode::Pos)));
    assert_eq!(Intcode::decode(1200003), Ok((3, IntMode::Pos, IntMode::Pos, IntMode::Pos)));
    assert_eq!(Intcode::decode(0), Ok((0, IntMode::Pos, IntMode::Pos, IntMode::Pos)));
}

#[test]
fn decode_rejects_bad_words() {
    assert_eq!(Intcode::decode(-1), Err(Fault::Opcode));
    assert_eq!(Intcode::decode(i64::MIN), Err(Fault::Opcode));
    assert_eq!(Intcode::decode(301), Err(Fault::Mode));
    assert_eq!(Intcode::decode(3001), Err(Fault::Mode));
    assert_eq!(Intcode::decode(90099), Err(Fault::Mode));
}

#[test]
fn arithmetic_values() {
    assert_eq!(Intcode::arithmetic(1, 2, 3), Some(5));
    assert_eq!(Intcode::arithmetic(1, -2, -3), Some(-5));
    assert_eq!(Intcode::arithmetic(2, 34915192, 34915192), Some(1219070632396864));
    assert_eq!(Intcode::arithmetic(2, -4, 5), Some(-20));
    assert_eq!(Intcode::arithmetic(7, 1, 2), Some(1));
    assert_eq!(Intcode::arithmetic(7, 2, 2), Some(0));
    assert_eq!(Intcode::arithmetic(7, 3, 2), Some(0));
    assert_eq!(Intcode::arithmetic(8, 2, 2), Some(1));
    assert_eq!(Intcode::arithmetic(8, 2, -2), Some(0));
}

#[test]
fn arithmetic_overflow_is_none() {
    assert_eq!(Intcode::arithmetic(1, i64::MAX, 1), None);
    assert_eq!(Intcode::arithmetic(1, i64::MIN, -1), None);
    assert_eq!(Intcode::arithmetic(2, i64::MAX, 2), None);
    assert_eq!(Intcode::arithmetic(2, i64::MIN, -1), None);
    assert_eq!(Intcode::arithmetic(1, i64::MAX, 0), Some(i64::MAX));
}

#[test]
fn add_stores_the_sum_where_the_third_parameter_points() {
    let mut m = machine(&[1, 5, 6, 7, 99, 10, 20, 0]);
    assert_eq!(m.step(), Ok(None));
    assert_eq!(m.dump()[7], 30);
    assert_eq!(&m.dump()[..7], &[1, 5, 6, 7, 99, 10, 20]);
    assert_eq!(m.ip(), 4);
}

#[test]
fn multiply_in_mixed_modes() {
    let mut m = machine(&[1002, 4, 3, 4, 33]);
    assert_eq!(m.step(), Ok(None));
    assert_eq!(m.dump()[4], 99);
    assert_eq!(m.step(), Ok(Some(IntResponse::Halt)));
}

#[test]
fn comparisons_store_one_or_zero() {
    let mut m = machine(&[1107, 3, 8, 9, 1108, 3, 8, 10, 99, -1, -1]);
    assert_eq!(m.step(), Ok(None));
    assert_eq!(m.dump()[9], 1);
    assert_eq!(m.step(), Ok(None));
    assert_eq!(m.dump()[10], 0);
    let mut m = machine(&[7, 5, 6, 7, 8, 9, 9, 0]);
    assert_eq!(m.step(), Ok(None));
    assert_eq!(m.dump()[7], 0);
    assert_eq!(m.step(), Ok(None));
    assert_eq!(m.dump()[0], 1);
}

#[test]
fn jump_not_taken_moves_on_by_three() {
    let mut m = machine(&[1105, 0, 7, 1106, 1, 7, 99, 99]);
    assert_eq!(m.step(), Ok(None));
    assert_eq!(m.ip(), 3);
    assert_eq!(m.step(), Ok(None));
    assert_eq!(m.ip(), 6);
}

#[test]
fn jump_taken_goes_to_the_target() {
    let mut m = machine(&[1105, -3, 7, 99, 99, 99, 99, 1106, 0, 4]);
    assert_eq!(m.step(), Ok(None));
    assert_eq!(m.ip(), 7);
    assert_eq!(m.step(), Ok(None));
    assert_eq!(m.ip(), 4);
    let before = m.dump().clone();
    assert_eq!(m.step(), Ok(Some(IntResponse::Halt)));
    assert_eq!(*m.dump(), before);
}

#[test]
fn jump_in_position_mode_reads_both_cells() {
    let mut m = machine(&[5, 4, 5, 99, 1, 6, 99]);
    assert_eq!(m.step(), Ok(None));
    assert_eq!(m.ip(), 6);
}

#[test]
fn second_input_is_rejected_and_first_kept() {
    let mut m = machine(&[3, 0, 4, 0, 99]);
    assert!(m.input(5));
    assert!(!m.input(6));
    assert_eq!(m.pending(), Some(5));
    assert_eq!(m.run(), IntResponse::Output(5));
    assert_eq!(m.pending(), None);
    assert!(m.input(6));
    assert_eq!(m.pending(), Some(6));
}

#[test]
fn start_drops_its_value_when_one_is_pending() {
    let mut m = machine(&[3, 0, 4, 0, 99]);
    assert!(m.input(5));
    assert_eq!(m.start(6), IntResponse::Output(5));
}

#[test]
fn needs_input_rewinds_and_resumes_once() {
    let mut m = machine(&[3, 9, 4, 9, 3, 9, 4, 9, 99, 0]);
    assert_eq!(m.run(), IntResponse::Input);
    assert_eq!(m.ip(), 0);
    assert_eq!(m.run(), IntResponse::Input);
    assert_eq!(m.ip(), 0);
    assert!(m.input(42));
    assert_eq!(m.run(), IntResponse::Output(42));
    assert_eq!(m.ip(), 4);
    assert_eq!(m.pending(), None);
    assert_eq!(m.run(), IntResponse::Input);
    assert_eq!(m.ip(), 4);
    assert!(m.input(43));
    assert_eq!(m.run(), IntResponse::Output(43));
    assert_eq!(m.run(), IntResponse::Halt);
    assert!(m.halted());
}

#[test]
fn output_leaves_ip_behind_the_instruction() {
    let mut m = machine(&[104, 1, 104, 2, 99]);
    assert_eq!(m.run(), IntResponse::Output(1));
    assert_eq!(m.ip(), 2);
    assert_eq!(m.run(), IntResponse::Output(2));
    assert_eq!(m.ip(), 4);
    assert_eq!(m.run(), IntResponse::Halt);
}

#[test]
fn relative_base_moves_relative_addresses() {
    let mut m = machine(&[
        109, 20, 204, -1, 21101, 5, 6, 3, 204, 3, 109, -2, 204, 0, 99, 0, 0, 0, 66, 55, 0, 0, 0, 0,
    ]);
    assert_eq!(m.step(), Ok(None));
    assert_eq!(m.relative_base(), 20);
    assert_eq!(m.step(), Ok(Some(IntResponse::Output(55))));
    assert_eq!(m.step(), Ok(None));
    assert_eq!(m.dump()[23], 11);
    assert_eq!(m.step(), Ok(Some(IntResponse::Output(11))));
    assert_eq!(m.step(), Ok(None));
    assert_eq!(m.relative_base(), 18);
    assert_eq!(m.step(), Ok(Some(IntResponse::Output(66))));
}

#[test]
fn input_in_relative_mode() {
    let mut m = machine(&[109, 10, 203, -3, 4, 7, 99, 0]);
    assert_eq!(m.start(77), IntResponse::Output(77));
    assert_eq!(m.dump()[7], 77);
}

#[test]
fn padding_can_be_read_and_written() {
    let last = (3 + PADDING - 1) as i64;
    let mut m = machine(&[4, 2000, 99]);
    assert_eq!(m.run(), IntResponse::Output(0));
    let mut m = machine(&[1101, 20, 22, last, 4, last, 99]);
    let last = (7 + PADDING - 1) as i64;
    let mut n = machine(&[1101, 20, 22, last, 4, last, 99]);
    assert_eq!(n.run(), IntResponse::Output(42));
    assert_eq!(m.step(), Ok(None));
}

#[test]
fn fault_on_unknown_opcode() {
    let mut m = machine(&[0, 0, 0, 0]);
    assert_eq!(m.step(), Err(Fault::Opcode));
    let mut m = machine(&[98]);
    assert_eq!(m.step(), Err(Fault::Opcode));
    let mut m = machine(&[10]);
    assert_eq!(m.step(), Err(Fault::Opcode));
    let mut m = machine(&[-99]);
    assert_eq!(m.step(), Err(Fault::Opcode));
}

#[test]
fn fault_on_bad_mode_digit() {
    let mut m = machine(&[301, 0, 0, 0]);
    assert_eq!(m.step(), Err(Fault::Mode));
    let mut m = machine(&[30099]);
    assert_eq!(m.step(), Err(Fault::Mode));
}

#[test]
fn fault_on_immediate_store() {
    let mut m = machine(&[11101, 1, 1, 0, 99]);
    assert_eq!(m.step(), Err(Fault::ImmediateStore));
    assert_eq!(&m.dump()[..5], &[11101, 1, 1, 0, 99]);
    let mut m = machine(&[103, 0, 99]);
    assert!(m.input(1));
    assert_eq!(m.step(), Err(Fault::ImmediateStore));
    let mut m = machine(&[103, 0, 99]);
    assert_eq!(m.step(), Err(Fault::ImmediateStore));
}

#[test]
fn fault_on_address_outside_memory() {
    let size = (4 + PADDING) as i64;
    let mut m = machine(&[1, size, 0, 0]);
    assert_eq!(m.step(), Err(Fault::Address));
    let mut m = machine(&[1, 0, -1, 0]);
    assert_eq!(m.step(), Err(Fault::Address));
    let mut m = machine(&[1101, 1, 1, size]);
    assert_eq!(m.step(), Err(Fault::Address));
    let mut m = machine(&[109, -5, 204, 4]);
    assert_eq!(m.step(), Ok(None));
    assert_eq!(m.step(), Err(Fault::Address));
    let mut m = machine(&[1105, 1, -1, 0]);
    assert_eq!(m.step(), Err(Fault::Address));
    let mut m = machine(&[1105, 1, size, 0]);
    assert_eq!(m.step(), Err(Fault::Address));
    let mut m = machine(&[1106, 1, size, 0]);
    assert_eq!(m.step(), Ok(None));
}

#[test]
fn fault_when_ip_runs_off_memory() {
    let at = (11 + PADDING - 3) as i64;
    let mut m = machine(&[1101, 1106, 0, at, 1101, 1, 0, at + 1, 1105, 1, at]);
    assert_eq!(m.run_for(3), Ok(None));
    assert_eq!(m.ip(), at as usize);
    assert_eq!(m.step(), Ok(None));
    assert_eq!(m.ip(), 11 + PADDING);
    assert_eq!(m.step(), Err(Fault::Address));
    assert_eq!(m.ip(), 11 + PADDING);
}

#[test]
fn fault_when_a_parameter_lies_off_memory() {
    let last = (7 + PADDING - 1) as i64;
    let mut m = machine(&[1101, 4, 0, last, 1105, 1, last]);
    assert_eq!(m.run_for(2), Ok(None));
    assert_eq!(m.ip(), last as usize);
    assert_eq!(m.step(), Err(Fault::Address));
}

#[test]
fn fault_on_overflow() {
    let mut m = machine(&[1102, i64::MAX, 2, 0, 99]);
    assert_eq!(m.step(), Err(Fault::Overflow));
    let mut m = machine(&[1101, i64::MAX, 1, 0, 99]);
    assert_eq!(m.step(), Err(Fault::Overflow));
    let mut m = machine(&[109, i64::MAX, 109, 1, 99]);
    assert_eq!(m.step(), Ok(None));
    assert_eq!(m.step(), Err(Fault::Overflow));
    assert_eq!(m.relative_base(), i64::MAX);
}

#[test]
fn fault_after_halt() {
    let mut m = machine(&[99, 104, 1]);
    assert_eq!(m.run(), IntResponse::Halt);
    assert_eq!(m.step(), Err(Fault::Halted));
    assert_eq!(m.run_for(10), Err(Fault::Halted));
    assert_eq!(m.ip(), 1);
    assert!(!m.input(3) || m.pending() == Some(3));
}

#[test]
fn a_fault_changes_nothing_and_repeats() {
    let mut m = machine(&[1101, 2, 3, 0, 1, 9000, 0, 0]);
    assert_eq!(m.run_for(5), Err(Fault::Address));
    let mem = m.dump().clone();
    assert_eq!(m.ip(), 4);
    assert_eq!(mem[0], 5);
    assert_eq!(m.step(), Err(Fault::Address));
    assert_eq!(m.run_for(100), Err(Fault::Address));
    assert_eq!(m.ip(), 4);
    assert_eq!(*m.dump(), mem);
}

#[test]
fn run_for_stops_at_the_limit() {
    let mut m = machine(&[1101, 1, 0, 20, 1105, 1, 0]);
    assert_eq!(m.run_for(0), Ok(None));
    assert_eq!(m.ip(), 0);
    assert_eq!(m.run_for(1), Ok(None));
    assert_eq!(m.ip(), 4);
    assert_eq!(m.run_for(1000), Ok(None));
    assert!(!m.halted());
}

#[test]
fn run_for_stops_at_an_event() {
    let mut m = machine(&[1101, 1, 2, 7, 4, 7, 99, 0]);
    assert_eq!(m.run_for(100), Ok(Some(IntResponse::Output(3))));
    assert_eq!(m.ip(), 6);
    assert_eq!(m.run_for(100), Ok(Some(IntResponse::Halt)));
    let mut m = machine(&[3, 0, 99]);
    assert_eq!(m.run_for(100), Ok(Some(IntResponse::Input)));
    assert_eq!(m.ip(), 0);
}

#[test]
fn quine_reproduces_its_own_words() {
    let prog = vec![109, 1, 204, -1, 1001, 100, 1, 100, 1008, 100, 16, 101, 1006, 101, 0, 99];
    let mut m = Intcode::new(&prog);
    let mut out = Vec::new();
    loop {
        match m.run() {
            IntResponse::Output(v) => out.push(v),
            IntResponse::Halt => break,
            IntResponse::Input => panic!("no input is asked for"),
        }
    }
    assert_eq!(out, prog);
}

#[test]
fn equals_eight_in_position_mode() {
    let prog = vec![3, 9, 8, 9, 10, 9, 4, 9, 99, -1, 8];
    let mut m = Intcode::new(&prog);
    assert_eq!(m.start(8), IntResponse::Output(1));
    let mut m = Intcode::new(&prog);
    assert_eq!(m.start(7), IntResponse::Output(0));
}
