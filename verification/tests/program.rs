use intcode::program::parse_program;

fn by_std(text: &str) -> Vec<i64> {
    text.trim().split(',').map(|x| x.parse().unwrap_or(-1)).collect()
}

#[test]
fn program_text_gives_its_numbers() {
    assert_eq!(parse_program("1,2,3"), vec![1, 2, 3]);
    assert_eq!(parse_program("1,2,3\n"), vec![1, 2, 3]);
    assert_eq!(parse_program("  109,-1,+204\r\n"), vec![109, -1, 204]);
    assert_eq!(parse_program("99"), vec![99]);
    assert_eq!(parse_program("007,-0,+0"), vec![7, 0, 0]);
}

#[test]
fn a_field_that_is_no_number_gives_minus_one() {
    assert_eq!(parse_program(""), vec![-1]);
    assert_eq!(parse_program("   "), vec![-1]);
    assert_eq!(parse_program(","), vec![-1, -1]);
    assert_eq!(parse_program("1,,2"), vec![1, -1, 2]);
    assert_eq!(parse_program("1,2,"), vec![1, 2, -1]);
    assert_eq!(parse_program("1, 2"), vec![1, -1]);
    assert_eq!(parse_program("-,+,--1,1-,1+1"), vec![-1, -1, -1, -1, -1]);
    assert_eq!(parse_program("12a,0x10,1_000,1.5"), vec![-1, -1, -1, -1]);
    assert_eq!(parse_program("\u{663},5"), vec![-1, 5]);
}

#[test]
fn numbers_at_the_limits() {
    assert_eq!(parse_program("9223372036854775807"), vec![i64::MAX]);
    assert_eq!(parse_program("9223372036854775808"), vec![-1]);
    assert_eq!(parse_program("-9223372036854775808"), vec![i64::MIN]);
    assert_eq!(parse_program("-9223372036854775809"), vec![-1]);
    assert_eq!(parse_program("+9223372036854775807"), vec![i64::MAX]);
    assert_eq!(parse_program("99999999999999999999999999999999999999999999"), vec![-1]);
    assert_eq!(parse_program("-99999999999999999999999999999999999999999999"), vec![-1]);
    assert_eq!(parse_program("00000000000000000000000000000000000000000042"), vec![42]);
    assert_eq!(parse_program("1125899906842624"), vec![1125899906842624]);
}

#[test]
fn white_space_of_any_kind_is_dropped_at_the_ends_only() {
    assert_eq!(parse_program("\u{2003}1,2\u{a0}"), vec![1, 2]);
    assert_eq!(parse_program("\t\n 3,4 \u{3000}\u{85}"), vec![3, 4]);
    assert_eq!(parse_program("1\u{2003},2"), vec![-1, 2]);
    assert_eq!(parse_program("x 1,2 y"), vec![-1, -1]);
    assert_eq!(parse_program("\u{200b}1"), vec![-1]);
}

#[test]
fn program_text_is_read_as_the_standard_library_reads_it() {
    let texts = [
        "", " ", "1", "1,2,3\n", " 1 , 2 ", "-5,+5,5-", "a,b", ",,,", "9223372036854775808,1",
        "-9223372036854775808", "\u{2003}7\u{2003}", "7\u{2003}8", "3,26,1001,26,-4,26\r\n",
        "+", "-", "+-1", "١٢٣", "1,\n2",
    ];
    for text in texts {
        assert_eq!(parse_program(text), by_std(text), "text {:?}", text);
    }
}

#[test]
fn main_test_read() {
    let prog = parse_program("1,2,3\n");
    assert_eq!(prog, vec![1, 2, 3]);
}
