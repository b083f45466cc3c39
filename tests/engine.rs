use bf_interpreter::interpreter::{Action, EngineError, Interpreter};
use bf_interpreter::machine::MEMORY_SIZE;
use bf_interpreter::program::{check_balanced, find_close, find_open, tokenize};
use bf_interpreter::translate::translate;

const LIMIT: u64 = 10_000_000;

const HEADER: &str = "int putchar(int);\nint getchar(void);\n\nint main() {\n\tunsigned char memory[30000] = {0};\n\tunsigned char *ptr = memory;\n\n";
const FOOTER: &str = "\treturn 0;\n}";

fn chars(s: &str) -> Vec<char> {
    s.chars().collect()
}

#[test]
fn tokenize_keeps_only_instruction_symbols() {
    assert_eq!(tokenize("a+b-c >< x.,[y]z\n"), chars("+-><.,[]"));
    assert_eq!(tokenize(""), Vec::<char>::new());
}

#[test]
fn comment_only_source_is_empty_and_halts_silently() {
    let mut it = Interpreter::new("hello world! this has no symbols at all\n\t;:");
    assert!(it.instructions().is_empty());
    assert_eq!(it.run(&[], 0), Ok(vec![]));
    assert_eq!(it.instruction_pointer(), 0);
    assert_eq!(it.data_pointer(), 0);
    assert_eq!(it.step(None), Ok(Action::Halted));
}

#[test]
fn fresh_machine_is_zeroed() {
    let it = Interpreter::new("+");
    assert_eq!(it.cell(0), 0);
    assert_eq!(it.cell(MEMORY_SIZE - 1), 0);
    assert_eq!(it.data_pointer(), 0);
    assert_eq!(it.instruction_pointer(), 0);
}

#[test]
fn plus_256_times_restores_cell() {
    let src = "+".repeat(256);
    let mut it = Interpreter::new(&src);
    assert_eq!(it.run(&[], LIMIT), Ok(vec![]));
    assert_eq!(it.cell(0), 0);
    let src = format!("+++{}", "+".repeat(256));
    let mut it = Interpreter::new(&src);
    assert_eq!(it.run(&[], LIMIT), Ok(vec![]));
    assert_eq!(it.cell(0), 3);
}

#[test]
fn minus_256_times_restores_cell() {
    let src = format!("+++++{}", "-".repeat(256));
    let mut it = Interpreter::new(&src);
    assert_eq!(it.run(&[], LIMIT), Ok(vec![]));
    assert_eq!(it.cell(0), 5);
}

#[test]
fn cell_arithmetic_wraps() {
    let mut it = Interpreter::new("-");
    assert_eq!(it.run(&[], LIMIT), Ok(vec![]));
    assert_eq!(it.cell(0), 255);
    let src = "+".repeat(257);
    let mut it = Interpreter::new(&src);
    assert_eq!(it.run(&[], LIMIT), Ok(vec![]));
    assert_eq!(it.cell(0), 1);
}

#[test]
fn pointer_right_tape_length_times_returns() {
    let src = format!(">>{}", ">".repeat(MEMORY_SIZE));
    let mut it = Interpreter::new(&src);
    assert_eq!(it.run(&[], LIMIT), Ok(vec![]));
    assert_eq!(it.data_pointer(), 2);
}

#[test]
fn pointer_left_tape_length_times_returns() {
    let src = format!(">>>{}", "<".repeat(MEMORY_SIZE));
    let mut it = Interpreter::new(&src);
    assert_eq!(it.run(&[], LIMIT), Ok(vec![]));
    assert_eq!(it.data_pointer(), 3);
}

#[test]
fn pointer_wraps_at_both_ends() {
    let mut it = Interpreter::new("<+");
    assert_eq!(it.run(&[], LIMIT), Ok(vec![]));
    assert_eq!(it.data_pointer(), MEMORY_SIZE - 1);
    assert_eq!(it.cell(MEMORY_SIZE - 1), 1);
    let mut it = Interpreter::new("<>");
    assert_eq!(it.run(&[], LIMIT), Ok(vec![]));
    assert_eq!(it.data_pointer(), 0);
}

#[test]
fn zero_loop_is_same_as_deleted_loop() {
    let mut with_loop = Interpreter::new(">[+++>[-]<<.]+");
    let mut without = Interpreter::new(">+");
    assert_eq!(with_loop.run(&[], LIMIT), Ok(vec![]));
    assert_eq!(without.run(&[], LIMIT), Ok(vec![]));
    assert_eq!(with_loop.data_pointer(), without.data_pointer());
    for i in 0..8 {
        assert_eq!(with_loop.cell(i), without.cell(i));
    }
    assert_eq!(with_loop.cell(1), 1);
}

#[test]
fn round_trip_scenario() {
    let mut it = Interpreter::new("++>+++++[-<+>]");
    assert_eq!(it.run(&[], LIMIT), Ok(vec![]));
    assert_eq!(it.cell(0), 7);
    assert_eq!(it.cell(1), 0);
    assert_eq!(it.data_pointer(), 1);
}

#[test]
fn hello_world_output() {
    let src = "++++++++[>++++[>++>+++>+++>+<<<<-]>+>+>->>+[<]<-]>>.>---.+++++++..+++.>>.<-.<.+++.------.--------.>>+.>++.";
    let mut it = Interpreter::new(src);
    assert_eq!(it.run(&[], LIMIT), Ok(b"Hello World!\n".to_vec()));
}

#[test]
fn greeting_prefix_output() {
    let src = "++++++++[>++++[>++>+++>+++>+<<<<-]>+>+>->>+[<]<-]>>.>---.+++++++..+++.";
    let mut it = Interpreter::new(src);
    assert_eq!(it.run(&[], LIMIT), Ok(b"Hello".to_vec()));
}

#[test]
fn translation_scenario() {
    let it = Interpreter::new("+[>+]");
    let expected = format!(
        "{}\t++*ptr;\n\twhile (*ptr) {{\n\t\t++ptr;\n\t\t++*ptr;\n\t}}\n{}",
        HEADER, FOOTER
    );
    assert_eq!(it.gen(), Ok(expected));
}

#[test]
fn translation_of_every_symbol() {
    let it = Interpreter::new("><+-.,");
    let expected = format!(
        "{}\t++ptr;\n\t--ptr;\n\t++*ptr;\n\t--*ptr;\n\tputchar(*ptr);\n\t*ptr = getchar();\n{}",
        HEADER, FOOTER
    );
    assert_eq!(it.gen(), Ok(expected));
}

#[test]
fn translation_of_nested_loops() {
    let it = Interpreter::new("[[-]]");
    let expected = format!(
        "{}\twhile (*ptr) {{\n\t\twhile (*ptr) {{\n\t\t\t--*ptr;\n\t\t}}\n\t}}\n{}",
        HEADER, FOOTER
    );
    assert_eq!(it.gen(), Ok(expected));
}

#[test]
fn translation_of_empty_program() {
    let it = Interpreter::new("no code");
    assert_eq!(it.gen(), Ok(format!("{}{}", HEADER, FOOTER)));
    assert_eq!(translate(&vec![]), Some(format!("{}{}", HEADER, FOOTER)));
}

#[test]
fn unmatched_open_bracket_is_reported() {
    let mut it = Interpreter::new("[+");
    assert!(!it.is_balanced());
    assert_eq!(it.run(&[], LIMIT), Err(EngineError::UnbalancedLoop));
    assert_eq!(it.gen(), Err(EngineError::UnbalancedLoop));
    assert_eq!(it.step(None), Err(EngineError::UnbalancedLoop));
    assert_eq!(it.instruction_pointer(), 0);
}

#[test]
fn unmatched_close_bracket_is_reported() {
    let mut it = Interpreter::new("+]");
    assert_eq!(it.run(&[], LIMIT), Err(EngineError::UnbalancedLoop));
    assert_eq!(it.gen(), Err(EngineError::UnbalancedLoop));
    assert_eq!(translate(&chars("][")), None);
}

#[test]
fn input_is_read_in_order() {
    let mut it = Interpreter::new(",.>,.+.");
    assert_eq!(it.run(&[65, 200], LIMIT), Ok(vec![65, 200, 201]));
    assert_eq!(it.cell(0), 65);
    assert_eq!(it.cell(1), 201);
}

#[test]
fn exhausted_input_is_reported() {
    let mut it = Interpreter::new(",.,");
    assert_eq!(it.run(&[7], LIMIT), Err(EngineError::InputExhausted));
    assert_eq!(it.cell(0), 7);
    assert_eq!(it.instruction_pointer(), 2);
}

#[test]
fn step_limit_is_reported() {
    let mut it = Interpreter::new("+[]");
    assert_eq!(it.run(&[], 1000), Err(EngineError::StepLimit));
    let mut it = Interpreter::new("+++");
    assert_eq!(it.run(&[], 2), Err(EngineError::StepLimit));
    assert_eq!(it.cell(0), 2);
    assert_eq!(it.run(&[], 1), Ok(vec![]));
    assert_eq!(it.cell(0), 3);
}

#[test]
fn step_by_step() {
    let mut it = Interpreter::new("+.,");
    assert!(!it.wants_input());
    assert_eq!(it.step(None), Ok(Action::Continue));
    assert_eq!(it.step(None), Ok(Action::Output(1)));
    assert!(it.wants_input());
    assert_eq!(it.step(None), Err(EngineError::InputExhausted));
    assert_eq!(it.instruction_pointer(), 2);
    assert_eq!(it.step(Some(42)), Ok(Action::Continue));
    assert_eq!(it.cell(0), 42);
    assert!(it.is_halted());
    assert_eq!(it.step(None), Ok(Action::Halted));
}

#[test]
fn loop_jumps_back_while_nonzero() {
    let mut it = Interpreter::new("+++[>++<-]");
    assert_eq!(it.run(&[], LIMIT), Ok(vec![]));
    assert_eq!(it.cell(0), 0);
    assert_eq!(it.cell(1), 6);
    assert_eq!(it.instruction_pointer(), 10);
}

#[test]
fn balance_check() {
    assert!(check_balanced(&chars("")));
    assert!(check_balanced(&chars("[[][]]")));
    assert!(!check_balanced(&chars("[")));
    assert!(!check_balanced(&chars("][")));
    assert!(!check_balanced(&chars("[]]")));
}

#[test]
fn bracket_partners() {
    let prog = chars("[+[-]>]");
    assert_eq!(find_close(&prog, 0), 6);
    assert_eq!(find_close(&prog, 2), 4);
    assert_eq!(find_open(&prog, 6), 0);
    assert_eq!(find_open(&prog, 4), 2);
}
