use intcode::multicoder::MultiCoder;

#[test]
fn test_normal1() {
    let prog = vec![3,15,3,16,1002,16,10,16,1,16,15,15,4,15,99,0,0];
    let phase = vec![4,3,2,1,0];
    let size = phase.len();
    let mut mcoder = MultiCoder::new(&prog, size);

    for (i, p) in phase.iter().enumerate() {
        mcoder.send(i, *p);
    }

    let answer = mcoder.feedback(0);

    assert_eq!(answer, 43210);
}

#[test]
fn test_normal2() {
    let prog = vec![3,31,3,32,1002,32,10,32,1001,31,-2,31,1007,31,0,33,
                    1002,33,7,33,1,33,31,31,1,32,31,31,4,31,99,0,0,0];
    let phase = vec![1,0,4,3,2];
    let size = phase.len();
    let mut mcoder = MultiCoder::new(&prog, size);

    for (i, p) in phase.iter().enumerate() {
        mcoder.send(i, *p);
    }

    let answer = mcoder.feedback(0);

    assert_eq!(answer, 65210);
}


#[test]
fn test_feedback1() {
    let prog = vec![3,26,1001,26,-4,26,3,27,1002,27,2,27,1,27,26,27,
                    4,27,1001,28,-1,28,1005,28,6,99,0,0,5];
    let phase = vec![9,8,7,6,5];
    let mut mcoder = MultiCoder::new(&prog, phase.len());

    for (i, p) in phase.iter().enumerate() {
        mcoder.send(i, *p);
    }

    let answer = mcoder.feedback(0);
    assert_eq!(answer, 139629729);
}

#[test]
fn test_feedback2() {
    let prog = vec![3,52,1001,52,-5,52,3,53,1,52,56,54,1007,54,5,55,1005,55,26,1001,54,
                    -5,54,1105,1,12,1,53,54,53,1008,54,0,55,1001,55,1,55,2,53,55,53,4,
                    53,1001,56,-1,56,1005,56,6,99,0,0,0,0,10];
    let phase = vec![9,7,8,5,6];
    let mut mcoder = MultiCoder::new(&prog, phase.len());

    for (i, p) in phase.iter().enumerate() {
        mcoder.send(i, *p);
    }

    let answer = mcoder.feedback(0);
    assert_eq!(answer, 18216);
}

#[test]
fn fresh_group_has_the_size_asked_for() {
    let prog = vec![99];
    assert_eq!(MultiCoder::new(&prog, 0).len(), 0);
    assert_eq!(MultiCoder::new(&prog, 5).len(), 5);
}

#[test]
fn send_returns_the_output() {
    let prog = vec![3, 0, 1001, 0, 1, 0, 4, 0, 3, 0, 99];
    let mut group = MultiCoder::new(&prog, 2);
    assert_eq!(group.send(0, 5), 6);
    assert_eq!(group.send(1, -7), -6);
}

#[test]
fn send_returns_minus_one_when_the_machine_halts() {
    let prog = vec![3, 0, 4, 0, 3, 0, 99];
    let mut group = MultiCoder::new(&prog, 1);
    assert_eq!(group.send(0, 5), 5);
    assert_eq!(group.send(0, 8), -1);
    assert_eq!(group.output(0), -1);
}

#[test]
fn send_returns_minus_one_when_the_machine_asks_for_more() {
    let prog = vec![3, 0, 3, 1, 4, 1, 99];
    let mut group = MultiCoder::new(&prog, 1);
    assert_eq!(group.send(0, 9), -1);
    assert_eq!(group.send(0, 4), 4);
}

#[test]
fn machines_of_a_group_do_not_share_memory() {
    let prog = vec![3, 0, 4, 0, 3, 0, 4, 0, 99];
    let mut group = MultiCoder::new(&prog, 3);
    assert_eq!(group.send(0, 1), 1);
    assert_eq!(group.send(1, 2), 2);
    assert_eq!(group.send(2, 3), 3);
    assert_eq!(group.send(0, 4), 4);
    assert_eq!(group.send(2, 6), 6);
    assert_eq!(group.send(1, 5), 5);
}

#[test]
fn connect_with_nothing_waiting_changes_nothing() {
    let prog = vec![3, 0, 4, 0, 3, 0, 4, 0, 99];
    let mut group = MultiCoder::new(&prog, 2);
    assert_eq!(group.send(0, 1), 1);
    group.connect(0, 1);
    group.connect(1, 0);
    group.connect(0, 0);
    assert_eq!(group.send(1, 2), 2);
    assert_eq!(group.send(0, 3), 3);
}

#[test]
fn feedback_without_a_positive_answer_is_zero() {
    let prog = vec![3, 0, 104, 0, 99];
    let mut group = MultiCoder::new(&prog, 2);
    assert_eq!(group.feedback(7), 0);
    let prog = vec![3, 0, 104, -5, 99];
    let mut group = MultiCoder::new(&prog, 2);
    assert_eq!(group.feedback(7), 0);
}

#[test]
fn feedback_skips_the_answer_of_the_first_machine() {
    let prog = vec![3, 0, 1001, 0, 1, 0, 4, 0, 99];
    let mut group = MultiCoder::new(&prog, 3);
    assert_eq!(group.feedback(10), 13);
    let mut group = MultiCoder::new(&prog, 2);
    assert_eq!(group.feedback(10), 12);
}

#[test]
fn feedback_stops_at_an_answer_that_is_not_positive() {
    let prog = vec![3, 0, 1001, 0, -1, 0, 4, 0, 99];
    let mut group = MultiCoder::new(&prog, 5);
    assert_eq!(group.feedback(3), 1);
}
