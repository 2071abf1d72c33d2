//! The encoder: a resolved program in, the text of the binary listing out.

use crate::ast::HackInstruction;
use crate::text::push_all;
use vstd::prelude::*;
use vstd::slice::slice_index_get;
use vstd::string::*;

verus! {

/// The end of a line of the listing: a carriage return and a line feed.
pub open spec fn line_break() -> Seq<u8> {
    seq!['\r' as u8, '\n' as u8]
}

/// The listing of `program`: for each instruction, in order, its sixteen
/// binary digits and a line break.
pub open spec fn listing(program: Seq<HackInstruction>) -> Seq<u8>
    decreases program.len(),
{
    if program.len() == 0 {
        Seq::empty()
    } else {
        listing(program.drop_last()) + program.last().code() + line_break()
    }
}

/// Every instruction of `program` can be written out.
pub open spec fn encodable(program: Seq<HackInstruction>) -> bool {
    forall|i: int| 0 <= i < program.len() ==> (#[trigger] program[i]).encodable()
}

/// The listing has eighteen bytes for each instruction: sixteen digits and
/// the line break.
pub proof fn lemma_listing_len(program: Seq<HackInstruction>)
    requires
        encodable(program),
    ensures
        listing(program).len() == 18 * program.len(),
    decreases program.len(),
{
    if program.len() > 0 {
        lemma_encodable_head(program);
        assert(program.last().code().len() == 16) by {
            program.last().lemma_code_is_sixteen_bits();
        }
        lemma_listing_len(program.drop_last());
    }
}

/// Line `i` of the listing is the code of instruction `i`, followed by the
/// line break.
pub proof fn lemma_listing_line(program: Seq<HackInstruction>, i: int)
    requires
        encodable(program),
        0 <= i < program.len(),
    ensures
        listing(program).len() == 18 * program.len(),
        listing(program).subrange(18 * i, 18 * i + 16) == program[i].code(),
        listing(program).subrange(18 * i + 16, 18 * i + 18) == line_break(),
    decreases program.len(),
{
    lemma_listing_len(program);
    let head = program.drop_last();
    lemma_encodable_head(program);
    lemma_listing_len(head);
    let code = program.last().code();
    assert(code.len() == 16) by {
        program.last().lemma_code_is_sixteen_bits();
    }
    let before = listing(head);
    let whole = listing(program);
    assert(whole == before + code + line_break());
    let from = 18 * i;
    if i == program.len() - 1 {
        assert(before.len() == from);
        assert(whole.subrange(from, from + 16) =~= code);
        assert(whole.subrange(from + 16, from + 18) =~= line_break());
    } else {
        lemma_listing_line(head, i);
        assert(head[i] == program[i]);
        assert(from + 18 <= before.len());
        assert(whole.subrange(from, from + 16) =~= before.subrange(from, from + 16));
        assert(whole.subrange(from + 16, from + 18) =~= before.subrange(from + 16, from + 18));
    }
}

/// What can be written out can be written out without its last instruction.
pub proof fn lemma_encodable_head(program: Seq<HackInstruction>)
    requires
        encodable(program),
        program.len() > 0,
    ensures
        encodable(program.drop_last()),
        program.last().encodable(),
{
    assert(program.last() == program[program.len() - 1]);
    assert forall|i: int| 0 <= i < program.drop_last().len() implies (
    #[trigger] program.drop_last()[i]).encodable() by {
        assert(program.drop_last()[i] == program[i]);
    }
}

/// The encoder of one program.
pub struct Evaluator {
    instructions: Vec<HackInstruction>,
}

impl View for Evaluator {
    type V = Seq<HackInstruction>;

    closed spec fn view(&self) -> Seq<HackInstruction> {
        self.instructions@
    }
}

impl Evaluator {
    /// Every instruction of the program can be written out.
    #[verifier::type_invariant]
    spec fn ready(&self) -> bool {
        encodable(self.instructions@)
    }

    /// The encoder of `instructions`, each of which can be written out.
    pub fn new(instructions: Vec<HackInstruction>) -> (evaluator: Evaluator)
        requires
            encodable(instructions@),
        ensures
            evaluator@ == instructions@,
    {
        Evaluator { instructions }
    }

    /// The listing of the program.
    pub fn evaluate(&self) -> (output: Vec<u8>)
        ensures
            output@ == listing(self@),
            output@.len() == 18 * self@.len(),
    {
        proof {
            use_type_invariant(self);
            lemma_listing_len(self@);
        }
        let mut output: Vec<u8> = Vec::new();
        let mut i: usize = 0;
        while i < self.instructions.len()
            invariant
                i <= self.instructions@.len(),
                encodable(self.instructions@),
                output@ == listing(self.instructions@.take(i as int)),
            decreases self.instructions@.len() - i,
        {
            let code = self.instructions[i].to_binary();
            push_all(&mut output, code.as_slice());
            output.push('\r' as u8);
            output.push('\n' as u8);
            i = i + 1;
            proof {
                let done = self.instructions@.take(i as int);
                assert(done.drop_last() =~= self.instructions@.take(i - 1));
                assert(done.last() == self.instructions@[i - 1]);
                assert(output@ =~= listing(done));
            }
        }
        assert(self.instructions@.take(i as int) =~= self.instructions@);
        output
    }
}

/// Where the stem of a file name ends, looking from offset `from` towards the
/// start: before the last dot, unless a path separator comes first or there
/// is no dot, in which case the whole name is the stem.
pub open spec fn stem_end(name: Seq<u8>, from: int) -> int
    decreases from,
{
    if from <= 0 || from > name.len() {
        name.len() as int
    } else if name[from - 1] == '.' as u8 {
        from - 1
    } else if name[from - 1] == '/' as u8 || name[from - 1] == '\\' as u8 {
        name.len() as int
    } else {
        stem_end(name, from - 1)
    }
}

/// The name of the file that the listing of the source file `name` goes to:
/// the stem of `name` with the extension `hack`.
pub open spec fn output_name(name: Seq<u8>) -> Seq<u8> {
    name.take(stem_end(name, name.len() as int)) + ".hack".spec_bytes()
}

impl Evaluator {
    /// The name of the file that the listing of the source file `filename` goes
    /// to.
    pub fn get_output_filename(filename: &[u8]) -> (name: Vec<u8>)
        ensures
            name@ == output_name(filename@),
    {
        let mut end: usize = filename.len();
        let mut i: usize = filename.len();
        let mut searching = true;
        while searching && i > 0
            invariant
                i <= filename@.len(),
                end <= filename@.len(),
                searching ==> end == filename@.len() && stem_end(filename@, i as int) == stem_end(
                    filename@,
                    filename@.len() as int,
                ),
                !searching ==> end == stem_end(filename@, filename@.len() as int),
            decreases i + if searching { 1int } else { 0int },
        {
            let byte = *slice_index_get(filename, i - 1);
            if byte == '.' as u8 {
                end = i - 1;
                searching = false;
            } else if byte == '/' as u8 || byte == '\\' as u8 {
                searching = false;
            } else {
                i = i - 1;
            }
        }
        let mut name: Vec<u8> = Vec::new();
        push_all(&mut name, vstd::slice::slice_subrange(filename, 0, end));
        push_all(&mut name, ".hack".as_bytes());
        assert(name@ =~= output_name(filename@));
        name
    }
}

} // verus!
