use hack_asm::assemble;

fn listing(words: &[&str]) -> String {
    let mut text = String::new();
    for word in words {
        text.push_str(word);
        text.push_str("\r\n");
    }
    text
}

fn compile(source: &str) -> String {
    match assemble(source.to_string()) {
        Ok(output) => String::from_utf8(output).unwrap(),
        Err(errors) => panic!("{} diagnostics", errors.len()),
    }
}

const ADD: &str = "// Computes R0 = 2 + 3  (R0 refers to RAM[0])\n\n@2\nD=A\n@3\nD=D+A\n@0\nM=D\n";

const ADD_WORDS: [&str; 6] = [
    "0000000000000010",
    "1110110000010000",
    "0000000000000011",
    "1110000010010000",
    "0000000000000000",
    "1110001100001000",
];

const MAX: &str = "// Computes R2 = max(R0, R1)  (R0,R1,R2 refer to RAM[0],RAM[1],RAM[2])

   @R0
   D=M              // D = first number
   @R1
   D=D-M            // D = first number - second number
   @OUTPUT_FIRST
   D;JGT            // if D>0 (first is greater) goto output_first
   @R1
   D=M              // D = second number
   @OUTPUT_D
   0;JMP            // goto output_d
(OUTPUT_FIRST)
   @R0
   D=M              // D = first number
(OUTPUT_D)
   @R2
   M=D              // M[2] = D (greatest number)
(INFINITE_LOOP)
   @INFINITE_LOOP
   0;JMP            // infinite loop
";

const MAX_L: &str = "// Computes R2 = max(R0, R1)  (R0,R1,R2 refer to RAM[0],RAM[1],RAM[2])

@0
D=M
@1
D=D-M
@10
D;JGT
@1
D=M
@12
0;JMP
@0
D=M
@2
M=D
@14
0;JMP
";

const MAX_WORDS: [&str; 16] = [
    "0000000000000000",
    "1111110000010000",
    "0000000000000001",
    "1111010011010000",
    "0000000000001010",
    "1110001100000001",
    "0000000000000001",
    "1111110000010000",
    "0000000000001100",
    "1110101010000111",
    "0000000000000000",
    "1111110000010000",
    "0000000000000010",
    "1110001100001000",
    "0000000000001110",
    "1110101010000111",
];

const RECT: &str = "// Draws a rectangle at the top-left corner of the screen.
// The rectangle is 16 pixels wide and R0 pixels high.

   @0
   D=M
   @INFINITE_LOOP
   D;JLE
   @counter
   M=D
   @SCREEN
   D=A
   @address
   M=D
(LOOP)
   @address
   A=M
   M=-1
   @address
   D=M
   @32
   D=D+A
   @address
   M=D
   @counter
   MD=M-1
   @LOOP
   D;JGT
(INFINITE_LOOP)
   @INFINITE_LOOP
   0;JMP
";

const RECT_L: &str = "// Draws a rectangle at the top-left corner of the screen.
// The rectangle is 16 pixels wide and R0 pixels high.

@0
D=M
@23
D;JLE
@16
M=D
@16384
D=A
@17
M=D
@17
A=M
M=-1
@17
D=M
@32
D=D+A
@17
M=D
@16
MD=M-1
@10
D;JGT
@23
0;JMP
";

const RECT_WORDS: [&str; 25] = [
    "0000000000000000",
    "1111110000010000",
    "0000000000010111",
    "1110001100000110",
    "0000000000010000",
    "1110001100001000",
    "0100000000000000",
    "1110110000010000",
    "0000000000010001",
    "1110001100001000",
    "0000000000010001",
    "1111110000100000",
    "1110111010001000",
    "0000000000010001",
    "1111110000010000",
    "0000000000100000",
    "1110000010010000",
    "0000000000010001",
    "1110001100001000",
    "0000000000010000",
    "1111110010011000",
    "0000000000001010",
    "1110001100000001",
    "0000000000010111",
    "1110101010000111",
];

// The opening of the Pong game: the stack is set up, then the routine that
// compares the two topmost values of the stack for equality.
const PONG: &str = "@256
D=A
@SP
M=D
@133
0;JMP
@R15
M=D
@SP
AM=M-1
D=M
A=A-1
D=M-D
M=0
@END_EQ
D;JNE
@SP
A=M-1
M=-1
(END_EQ)
@R15
A=M
0;JMP
";

const PONG_L: &str = "@256
D=A
@0
M=D
@133
0;JMP
@15
M=D
@0
AM=M-1
D=M
A=A-1
D=M-D
M=0
@19
D;JNE
@0
A=M-1
M=-1
@15
A=M
0;JMP
";

const PONG_WORDS: [&str; 22] = [
    "0000000100000000",
    "1110110000010000",
    "0000000000000000",
    "1110001100001000",
    "0000000010000101",
    "1110101010000111",
    "0000000000001111",
    "1110001100001000",
    "0000000000000000",
    "1111110010101000",
    "1111110000010000",
    "1110110010100000",
    "1111000111010000",
    "1110101010001000",
    "0000000000010011",
    "1110001100000101",
    "0000000000000000",
    "1111110010100000",
    "1110111010001000",
    "0000000000001111",
    "1111110000100000",
    "1110101010000111",
];

#[test]
fn compilation_tests_test_compilation_add() {
    assert_eq!(compile(ADD), listing(&ADD_WORDS));
}

#[test]
fn test_compilation_max() {
    assert_eq!(compile(MAX), listing(&MAX_WORDS));
}

#[test]
fn test_compilation_pong() {
    assert_eq!(compile(PONG), listing(&PONG_WORDS));
}

#[test]
fn test_compilation_rect() {
    assert_eq!(compile(RECT), listing(&RECT_WORDS));
}

#[test]
fn compilation_tests_test_compilation_max_symboless() {
    assert_eq!(compile(MAX_L), listing(&MAX_WORDS));
}

#[test]
fn compilation_tests_test_compilation_pong_symbolless() {
    assert_eq!(compile(PONG_L), listing(&PONG_WORDS));
}

#[test]
fn test_compilation_rect_symbolless() {
    assert_eq!(compile(RECT_L), listing(&RECT_WORDS));
}

#[test]
fn test_test_compilation_add() {
    let source = "@2\r\nD=A\r\n@3\r\nD=D+A\r\n@0\r\nM=D\r\n";
    assert_eq!(compile(source), listing(&ADD_WORDS));
}

#[test]
fn test_test_compilation_max_symboless() {
    let source = MAX_L.replace('\n', "\r\n");
    assert_eq!(compile(&source), listing(&MAX_WORDS));
}

#[test]
fn test_test_compilation_pong_symbolless() {
    let source = PONG_L.replace('\n', "\r\n");
    assert_eq!(compile(&source), listing(&PONG_WORDS));
}
