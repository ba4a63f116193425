//! The program under construction and its rendering.

use vstd::prelude::*;
use vstd::string::*;
use crate::decimal::{int_text, push_int};
use crate::text::str_eq;
use crate::value::{
    CArg, VarInit, VarTypes, call_text, ends_line, lemma_statements_end_lines, plain_call_text,
    push_call, push_declaration,
};

verus! {

/// What a [`Code`] value holds, as plain mathematical data.
pub struct Program {
    /// The names of the header files, in the order in which each was
    /// first asked for.
    pub inclusions: Seq<Seq<char>>,
    /// The statements of `main`, one after the other; each ends with a
    /// line feed.
    pub body: Seq<char>,
    /// The value that `main` returns.
    pub exit: int,
}

/// The directive lines for `names`: one line for each name, in order.
pub open spec fn inclusion_lines(names: Seq<Seq<char>>) -> Seq<char>
    decreases names.len(),
{
    if names.len() == 0 {
        Seq::empty()
    } else {
        inclusion_lines(names.drop_last()) + "#include<"@ + names.last() + ">\n"@
    }
}

impl Program {
    /// The program without header files and statements that returns 0.
    pub open spec fn empty() -> Program {
        Program { inclusions: Seq::empty(), body: Seq::empty(), exit: 0 }
    }

    /// No header file is named twice, and the statements, if there are
    /// any, end with a line feed.
    pub open spec fn well_formed(self) -> bool {
        &&& self.inclusions.no_duplicates()
        &&& self.body.len() == 0 || ends_line(self.body)
    }

    /// The program with `value` as what `main` returns, in place of the
    /// value it had.
    pub open spec fn with_exit(self, value: int) -> Program {
        Program { exit: value, ..self }
    }

    /// The program with the header file `name`: added after the others
    /// where the program did not name it yet, else the program as it is.
    pub open spec fn with_inclusion(self, name: Seq<char>) -> Program {
        if self.inclusions.contains(name) {
            self
        } else {
            Program { inclusions: self.inclusions.push(name), ..self }
        }
    }

    /// The program with `statement` added after its statements.
    pub open spec fn with_statement(self, statement: Seq<char>) -> Program {
        Program { body: self.body + statement, ..self }
    }

    /// The program with the declaration of the variable `name` with
    /// `value` added after its statements, and with the header file
    /// `stdbool.h` where the declaration needs it.
    pub open spec fn with_declaration(self, name: Seq<char>, value: VarInit) -> Program {
        let named = if value.needs_stdbool() {
            self.with_inclusion("stdbool.h"@)
        } else {
            self
        };
        named.with_statement(value.declaration(name))
    }

    /// The source text of the program: the directive lines, the opening
    /// line of `main`, the statements, the return statement and the
    /// closing line.
    pub open spec fn text(self) -> Seq<char> {
        inclusion_lines(self.inclusions) + "int main() {\n"@ + self.body + "return "@ + int_text(
            self.exit,
        ) + ";\n}\n"@
    }
}

/// How many of `names` are `name`. The text of a program has one
/// directive line for each of its header files, so this is also the
/// number of lines that the text has for `name`.
pub open spec fn occurrences(names: Seq<Seq<char>>, name: Seq<char>) -> nat
    decreases names.len(),
{
    if names.len() == 0 {
        0
    } else {
        occurrences(names.drop_last(), name) + if names.last() == name {
            1nat
        } else {
            0nat
        }
    }
}

/// A name that is not among `names` occurs zero times, and one that is
/// occurs once where no name is there twice.
proof fn lemma_occurrences(names: Seq<Seq<char>>, name: Seq<char>)
    ensures
        !names.contains(name) ==> occurrences(names, name) == 0,
        names.contains(name) && names.no_duplicates() ==> occurrences(names, name) == 1,
    decreases names.len(),
{
    if names.len() > 0 {
        let front = names.drop_last();
        lemma_occurrences(front, name);
        if names.contains(name) {
            let i = choose|i: int| 0 <= i < names.len() && names[i] == name;
            if i < names.len() - 1 {
                assert(front[i] == name);
            }
        }
        if names.contains(name) && names.no_duplicates() {
            assert forall|i: int, j: int|
                0 <= i < front.len() && 0 <= j < front.len() && i != j implies front[i]
                != front[j] by {
                assert(front[i] == names[i] && front[j] == names[j]);
            }
            if names.last() == name {
                if front.contains(name) {
                    let i = choose|i: int| 0 <= i < front.len() && front[i] == name;
                    assert(names[i] == names[names.len() - 1]);
                }
            }
        }
        if !names.contains(name) {
            if front.contains(name) {
                let i = choose|i: int| 0 <= i < front.len() && front[i] == name;
                assert(names[i] == name);
            }
            assert(names[names.len() - 1] != name);
        }
    }
}

/// Last write wins: of two values set one after the other, the program
/// returns the second, as if the first had never been set.
pub proof fn lemma_exit_overwrites(program: Program, first: int, second: int)
    ensures
        program.with_exit(first).with_exit(second) == program.with_exit(second),
        program.with_exit(first).with_exit(second).exit == second,
{
}

/// Header files are named once: after a file is asked for, the program
/// names it exactly once, whether or not it was named before and however
/// often it is asked for again. The files named before keep their places,
/// and a new one comes last.
pub proof fn lemma_inclusion_named_once(program: Program, name: Seq<char>)
    requires
        program.well_formed(),
    ensures
        program.with_inclusion(name).well_formed(),
        occurrences(program.with_inclusion(name).inclusions, name) == 1,
        program.inclusions.is_prefix_of(program.with_inclusion(name).inclusions),
        program.inclusions.contains(name) ==> program.with_inclusion(name) == program,
        program.with_inclusion(name).with_inclusion(name) == program.with_inclusion(name),
{
    let after = program.with_inclusion(name).inclusions;
    if program.inclusions.contains(name) {
        assert(after == program.inclusions);
    } else {
        assert(after == program.inclusions.push(name));
        assert(after[after.len() - 1] == name);
        assert(after.drop_last() =~= program.inclusions);
    }
    assert(after.contains(name));
    lemma_occurrences(after, name);
}

/// A declaration of type `bool` names the header file `stdbool.h`
/// exactly once, whether or not the program named it before, and leaves
/// the header files named before in their places.
pub proof fn lemma_stdbool_named_once(program: Program, name: Seq<char>, value: VarInit)
    requires
        program.well_formed(),
        value.needs_stdbool(),
    ensures
        program.with_declaration(name, value).well_formed(),
        occurrences(program.with_declaration(name, value).inclusions, "stdbool.h"@) == 1,
        program.inclusions.is_prefix_of(program.with_declaration(name, value).inclusions),
        program.inclusions.contains("stdbool.h"@) ==> program.with_declaration(
            name,
            value,
        ).inclusions == program.inclusions,
{
    lemma_inclusion_named_once(program, "stdbool.h"@);
    lemma_statements_end_lines(name, Seq::empty(), value);
}

/// A declaration of any other type leaves the header files as they are.
pub proof fn lemma_plain_declaration_keeps_inclusions(
    program: Program,
    name: Seq<char>,
    value: VarInit,
)
    requires
        !value.needs_stdbool(),
    ensures
        program.with_declaration(name, value).inclusions == program.inclusions,
{
}

/// The text of a program ends with the closing line of `main`, and so
/// with exactly one line feed.
pub proof fn lemma_text_ends_with_closing_line(program: Program)
    ensures
        program.text().len() >= 3,
        program.text()[program.text().len() - 1] == '\n',
        program.text()[program.text().len() - 2] == '}',
        program.text()[program.text().len() - 3] == '\n',
{
    reveal_strlit(";\n}\n");
}

/// The texts of `names`.
pub open spec fn texts_of<'a>(names: Seq<&'a str>) -> Seq<Seq<char>> {
    Seq::new(names.len(), |i: int| names[i]@)
}

/// A C program under construction: the header files it needs, the
/// statements of its `main` function and the value `main` returns.
pub struct Code<'a> {
    code: String,
    inclusions: Vec<&'a str>,
    exit: i32,
}

impl<'a> View for Code<'a> {
    type V = Program;

    closed spec fn view(&self) -> Program {
        Program { inclusions: texts_of(self.inclusions@), body: self.code@, exit: self.exit as int }
    }
}

impl<'a> Code<'a> {
    #[verifier::type_invariant]
    spec fn well_formed(self) -> bool {
        &&& texts_of(self.inclusions@).no_duplicates()
        &&& self.code@.len() == 0 || ends_line(self.code@)
    }

    /// A program without header files and statements that returns 0.
    pub fn new() -> (code: Self)
        ensures
            code@ == Program::empty(),
            code@.well_formed(),
    {
        let code = Code { code: String::new(), inclusions: Vec::new(), exit: 0 };
        assert(code@.inclusions =~= Seq::empty());
        code
    }

    /// Sets the value that `main` returns. The value set last is the one
    /// the program returns.
    pub fn exit(&mut self, code: i32)
        ensures
            final(self)@ == old(self)@.with_exit(code as int),
            final(self)@.well_formed(),
    {
        proof {
            use_type_invariant(&*self);
        }
        self.exit = code;
    }

    /// Names the header file `file`. A file that the program names
    /// already is not named again, and keeps its place.
    pub fn add_inclusion(&mut self, file: &'static str)
        ensures
            final(self)@ == old(self)@.with_inclusion(file@),
            final(self)@.well_formed(),
    {
        self.need(file);
    }

    /// Adds a statement that calls `func` without arguments.
    pub fn call_func(&mut self, func: &str)
        ensures
            final(self)@ == old(self)@.with_statement(plain_call_text(func@)),
            final(self)@.well_formed(),
    {
        proof {
            use_type_invariant(&*self);
        }
        let mut body = String::new();
        std::mem::swap(&mut body, &mut self.code);
        body.append(func);
        body.append("();\n");
        proof {
            lemma_statements_end_lines(func@, Seq::empty(), VarInit::Bool(true));
            assert(body@ =~= old(self)@.body + plain_call_text(func@));
        }
        self.code = body;
        assert(self@.body =~= old(self)@.body + plain_call_text(func@));
    }

    /// Adds a statement that calls `func` with `args`.
    pub fn call_func_with_args(&mut self, func: &str, args: Vec<CArg>)
        ensures
            final(self)@ == old(self)@.with_statement(call_text(func@, args@)),
            final(self)@.well_formed(),
    {
        proof {
            use_type_invariant(&*self);
        }
        let mut body = String::new();
        std::mem::swap(&mut body, &mut self.code);
        push_call(&mut body, func, &args);
        proof {
            lemma_statements_end_lines(func@, args@, VarInit::Bool(true));
        }
        self.code = body;
    }

    /// Adds a statement that declares the variable `name` with `value`.
    /// A declaration of type `bool` also names the header file
    /// `stdbool.h`, as [`Code::add_inclusion`] does.
    pub fn new_var(&mut self, name: &str, value: VarInit)
        ensures
            final(self)@ == old(self)@.with_declaration(name@, value),
            final(self)@.well_formed(),
    {
        let needs_stdbool = match &value {
            VarInit::Bool(_) => true,
            VarInit::Ident(VarTypes::Bool, _) => true,
            _ => false,
        };
        if needs_stdbool {
            self.need("stdbool.h");
        }
        proof {
            use_type_invariant(&*self);
        }
        let mut body = String::new();
        std::mem::swap(&mut body, &mut self.code);
        push_declaration(&mut body, name, &value);
        proof {
            lemma_statements_end_lines(name@, Seq::empty(), value);
        }
        self.code = body;
    }

    /// The source text of the program. The program stays as it is, so
    /// rendering it again gives the same text.
    pub fn to_string(&self) -> (text: String)
        ensures
            text@ == self@.text(),
            self@.well_formed(),
    {
        proof {
            use_type_invariant(self);
        }
        let mut out = String::new();
        let ghost names = texts_of(self.inclusions@);
        let mut i: usize = 0;
        while i < self.inclusions.len()
            invariant
                i <= self.inclusions.len(),
                names == texts_of(self.inclusions@),
                out@ == inclusion_lines(names.take(i as int)),
            decreases self.inclusions.len() - i,
        {
            out.append("#include<");
            out.append(self.inclusions[i]);
            out.append(">\n");
            proof {
                let upto = names.take(i + 1);
                assert(upto.drop_last() =~= names.take(i as int));
                assert(upto.last() == self.inclusions@[i as int]@);
            }
            i += 1;
        }
        proof {
            assert(names.take(self.inclusions.len() as int) =~= names);
        }
        out.append("int main() {\n");
        out.append(self.code.as_str());
        out.append("return ");
        push_int(&mut out, self.exit as i64);
        out.append(";\n}\n");
        out
    }

    /// Names the header file `file` unless the program names it already.
    fn need(&mut self, file: &'a str)
        ensures
            final(self)@ == old(self)@.with_inclusion(file@),
            final(self)@.well_formed(),
    {
        proof {
            use_type_invariant(&*self);
        }
        let ghost names = texts_of(self.inclusions@);
        let mut i: usize = 0;
        while i < self.inclusions.len()
            invariant
                i <= self.inclusions.len(),
                names == texts_of(self.inclusions@),
                names.no_duplicates(),
                self.code@.len() == 0 || ends_line(self.code@),
                *self == *old(self),
                forall|j: int| 0 <= j < i ==> names[j] != file@,
            decreases self.inclusions.len() - i,
        {
            if str_eq(self.inclusions[i], file) {
                assert(names[i as int] == file@);
                return ;
            }
            i += 1;
        }
        let mut known: Vec<&'a str> = Vec::new();
        std::mem::swap(&mut known, &mut self.inclusions);
        known.push(file);
        proof {
            assert(texts_of(known@) =~= names.push(file@));
            assert(!names.contains(file@));
        }
        self.inclusions = known;
    }
}

impl<'a> Default for Code<'a> {
    /// A program without header files and statements that returns 0.
    fn default() -> (code: Self)
        ensures
            code@ == Program::empty(),
    {
        Code::new()
    }
}

} // verus!
